# kernel

The verified core of a small hobby kernel for x86_64 (with an aarch64 boot
path), written in Verus.

`src/` is the library. Every function there is verified against its contract:

- `vga` — the VGA text console: cursor movement, line wrap, scrolling, writing bytes.
- `heap` — the first-fit free-list heap at a fixed virtual range, with the laws
  that allocation and freeing keep the free list disjoint and unfragmented and
  conserve the free bytes.
- `slab` — the per-size block lists in front of the fallback heap.
- `memory` — frame allocation from the boot memory map, and the pages of the heap.
- `lazy` — one-time initialisation (`Once`, `Lazy`).
- `executor` — the table of live tasks and the ready queue of the task executor.
- `keyboard`, `logger`, `arch`, `sync`, `queue` — scan-code queueing, the log line
  layout, exit codes and interrupt numbers, the raw spin lock, and the trusted
  interface to `crossbeam_queue`.

`app/` is the program around it: hardware access (ports, halting, page tables,
interrupt controllers), the global allocators, the consoles, the logger and the
executor loop that polls the futures.

`tests/` runs the library on concrete values.
