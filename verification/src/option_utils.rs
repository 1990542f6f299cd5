use vstd::pervasive::unreached;
use vstd::prelude::*;

verus! {

/// Taking the value out of an `Option` or a `Result` that is known to hold one,
/// with a message that is built only when there is none.
pub trait ExpectWith<T, E>: Sized {
    /// Whether there is a value to take.
    spec fn holds_value(&self) -> bool;

    /// The value held (meaningful when `holds_value`).
    spec fn held_value(&self) -> T;

    fn expect_with<F>(self, f: F) -> (r: T) where F: FnOnce() -> E
        requires
            self.holds_value(),
        ensures
            r == self.held_value(),
    ;
}

impl<T, E> ExpectWith<T, E> for Option<T> {
    open spec fn holds_value(&self) -> bool {
        *self is Some
    }

    open spec fn held_value(&self) -> T {
        self->0
    }

    fn expect_with<F>(self, f: F) -> (r: T) where F: FnOnce() -> E {
        match self {
            Some(val) => val,
            None => unreached(),
        }
    }
}

impl<T, E, E2> ExpectWith<T, E> for Result<T, E2> {
    open spec fn holds_value(&self) -> bool {
        *self is Ok
    }

    open spec fn held_value(&self) -> T {
        self->Ok_0
    }

    fn expect_with<F>(self, f: F) -> (r: T) where F: FnOnce() -> E {
        match self {
            Ok(val) => val,
            Err(_) => unreached(),
        }
    }
}

/// Mutable access to the value of an `Option` or a `Result` that is known to
/// hold one.
pub trait UnwrapMut<T>: Sized {
    /// Whether there is a value.
    spec fn has_inner(&self) -> bool;

    /// The value held (meaningful when `has_inner`).
    spec fn inner(&self) -> T;

    /// The same container holding `v` in place of its value.
    spec fn with_inner(&self, v: T) -> Self;

    fn unwrap_mut(&mut self) -> (r: &mut T)
        requires
            old(self).has_inner(),
        ensures
            *r == old(self).inner(),
            *final(self) == old(self).with_inner(*final(r)),
    ;
}

impl<T> UnwrapMut<T> for Option<T> {
    open spec fn has_inner(&self) -> bool {
        *self is Some
    }

    open spec fn inner(&self) -> T {
        self->0
    }

    open spec fn with_inner(&self, v: T) -> Self {
        Some(v)
    }

    fn unwrap_mut(&mut self) -> (r: &mut T) {
        match self {
            Some(value) => value,
            None => unreached(),
        }
    }
}

impl<T, E> UnwrapMut<T> for Result<T, E> {
    open spec fn has_inner(&self) -> bool {
        *self is Ok
    }

    open spec fn inner(&self) -> T {
        self->Ok_0
    }

    open spec fn with_inner(&self, v: T) -> Self {
        Ok(v)
    }

    fn unwrap_mut(&mut self) -> (r: &mut T) {
        match self {
            Ok(value) => value,
            Err(_) => unreached(),
        }
    }
}

/// Shared access to the value of an `Option` or a `Result` that is known to
/// hold one.
pub trait UnwrapRef<'a, T>: Sized {
    /// Whether there is a value.
    spec fn has_ref_value(&self) -> bool;

    /// The value held (meaningful when `has_ref_value`).
    spec fn ref_value(&self) -> T;

    fn unwrap_ref(&'a self) -> (r: &'a T)
        requires
            self.has_ref_value(),
        ensures
            *r == self.ref_value(),
    ;
}

impl<'a, T> UnwrapRef<'a, T> for Option<T> {
    open spec fn has_ref_value(&self) -> bool {
        *self is Some
    }

    open spec fn ref_value(&self) -> T {
        self->0
    }

    fn unwrap_ref(&'a self) -> (r: &'a T) {
        match self {
            Some(value) => value,
            None => unreached(),
        }
    }
}

impl<'a, T, E> UnwrapRef<'a, T> for Result<T, E> {
    open spec fn has_ref_value(&self) -> bool {
        *self is Ok
    }

    open spec fn ref_value(&self) -> T {
        self->Ok_0
    }

    fn unwrap_ref(&'a self) -> (r: &'a T) {
        match self {
            Ok(value) => value,
            Err(_) => unreached(),
        }
    }
}

} // verus!
