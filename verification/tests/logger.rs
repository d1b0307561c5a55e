use kernel::logger::{log_line, LogLevel};

#[test]
fn log_line_layout() {
    assert_eq!(
        log_line(LogLevel::Info, "kernel::main", Some(42), "hello"),
        b"INFO  [kernel::main:42]: hello\n".to_vec()
    );
    assert_eq!(
        log_line(LogLevel::Error, "arch", Some(7), "boom"),
        b"ERROR [arch:7]: boom\n".to_vec()
    );
    assert_eq!(log_line(LogLevel::Warn, "t", None, ""), b"WARN  [t:0]: \n".to_vec());
    assert_eq!(
        log_line(LogLevel::Trace, "x", Some(1234567890), "m"),
        b"TRACE [x:1234567890]: m\n".to_vec()
    );
    assert_eq!(log_line(LogLevel::Debug, "d", Some(10), "z"), b"DEBUG [d:10]: z\n".to_vec());
}
