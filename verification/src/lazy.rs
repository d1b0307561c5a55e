//! One-time initialisation: a cell that is written at most once, and a value
//! that is computed by its initialiser on first use.
use vstd::prelude::*;

verus! {

/// A cell that starts empty and can be filled once.
pub struct Once<T> {
    value: Option<T>,
}

impl<T> View for Once<T> {
    type V = Option<T>;

    closed spec fn view(&self) -> Option<T> {
        self.value
    }
}

impl<T> Once<T> {
    /// An empty cell.
    pub fn new() -> (r: Self)
        ensures
            r@ == None::<T>,
    {
        Once { value: None }
    }

    /// Whether the cell has been filled.
    pub fn is_initialized(&self) -> (r: bool)
        ensures
            r == self@.is_some(),
    {
        self.value.is_some()
    }

    /// The value, if the cell has been filled.
    pub fn get(&self) -> (r: Option<&T>)
        ensures
            match r {
                Some(v) => self@ == Some(*v),
                None => self@ == None::<T>,
            },
    {
        self.value.as_ref()
    }

    /// The value for modification, if the cell has been filled.
    pub fn get_mut(&mut self) -> (r: Option<&mut T>)
        ensures
            old(self)@.is_some() ==> final(self)@.is_some(),
            match old(self)@ {
                None => r.is_none() && final(self)@ == None::<T>,
                Some(v) => r.is_some() && *r.unwrap() == v && final(self)@ == Some(*final(r.unwrap())),
            },
    {
        self.value.as_mut()
    }

    /// Fills the cell with the result of `f` unless it is already filled, and
    /// returns the value in the cell. `f` runs at most once.
    pub fn set_once<F: FnOnce() -> T>(&mut self, f: F) -> (r: &T)
        requires
            old(self)@.is_none() ==> f.requires(()),
        ensures
            final(self)@.is_some(),
            old(self)@.is_some() ==> final(self)@ == old(self)@ && Some(*r) == old(self)@,
            old(self)@.is_none() ==> f.ensures((), *r) && final(self)@ == Some(*r),
    {
        if self.value.is_none() {
            let v = f();
            self.value = Some(v);
        }
        self.value.as_ref().unwrap()
    }

    /// The value of a filled cell.
    pub fn get_unchecked(&self) -> (r: &T)
        requires
            self@.is_some(),
        ensures
            self@ == Some(*r),
    {
        self.value.as_ref().unwrap()
    }

    /// The value of a filled cell, for modification.
    pub fn get_unchecked_mut(&mut self) -> (r: &mut T)
        requires
            old(self)@.is_some(),
        ensures
            old(self)@ == Some(*r),
            final(self)@ == Some(*final(r)),
            final(self)@.is_some(),
    {
        self.value.as_mut().unwrap()
    }

    /// Fills an empty cell with `value`.
    pub fn set_unchecked(&mut self, value: T)
        requires
            old(self)@.is_none(),
        ensures
            final(self)@ == Some(value),
    {
        self.value = Some(value);
    }
}

/// A value that is computed by its initialiser the first time it is used.
pub struct Lazy<T, F> {
    once: Once<T>,
    init: Option<F>,
}

impl<T, F: FnOnce() -> T> Lazy<T, F> {
    /// The value, once computed.
    pub closed spec fn value(&self) -> Option<T> {
        self.once@
    }

    /// The initialiser that has not run yet.
    pub closed spec fn initialiser(&self) -> Option<F> {
        self.init
    }

    /// Exactly one of the value and the initialiser is present: the
    /// initialiser is there until it has run, and then the value is.
    pub closed spec fn wf(&self) -> bool {
        self.once@.is_some() <==> self.init.is_none()
    }

    /// A value to be computed by `f` on first use.
    pub fn new(f: F) -> (r: Self)
        ensures
            r.wf(),
            r.value() == None::<T>,
            r.initialiser() == Some(f),
    {
        Lazy { once: Once::new(), init: Some(f) }
    }

    /// The value; on first use the initialiser runs and its result is kept.
    /// Afterwards no initialiser is left, so it runs exactly once.
    pub fn force(this: &mut Self) -> (r: &T)
        requires
            old(this).wf(),
            old(this).value().is_none() ==> old(this).initialiser().unwrap().requires(()),
        ensures
            final(this).wf(),
            final(this).value().is_some(),
            final(this).initialiser().is_none(),
            old(this).value().is_some() ==> final(this).value() == old(this).value() && Some(*r) == old(this).value()
                && final(this).initialiser() == old(this).initialiser(),
            old(this).value().is_none() ==> old(this).initialiser().unwrap().ensures((), *r)
                && final(this).value() == Some(*r) && final(this).initialiser() == None::<F>,
    {
        if this.once.is_initialized() {
            return this.once.get_unchecked();
        }
        let f = this.init.take().unwrap();
        this.once.set_once(f)
    }
}

} // verus!
