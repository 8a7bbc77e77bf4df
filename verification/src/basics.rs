//! Small free-standing items: a generic identity function and a one-field
//! counter cell exercising the four receiver forms (associated constructor,
//! consuming, borrowing, mutably borrowing).

use vstd::prelude::*;

verus! {

/// Returns its argument unchanged, whatever its type.
pub fn do_something<DataType>(value: DataType) -> (r: DataType)
    ensures
        r == value,
{
    value
}

/// A counter cell holding a single integer.
pub struct Foo(pub i32);

impl Foo {
    /// Associated constructor: a fresh cell holding zero.
    pub fn new() -> (f: Foo)
        ensures
            f.0 == 0,
    {
        Foo(0)
    }

    /// Consumes the cell and returns a new one holding one more.
    pub fn consume(self) -> (f: Foo)
        requires
            self.0 < i32::MAX,
        ensures
            f.0 == self.0 + 1,
    {
        Foo(self.0 + 1)
    }

    /// Borrows the held integer.
    pub fn borrow(&self) -> (r: &i32)
        ensures
            *r == self.0,
    {
        &self.0
    }

    /// Mutably borrows the held integer; the cell ends up holding whatever
    /// the caller writes through the reference.
    pub fn borrow_mut(&mut self) -> (r: &mut i32)
        ensures
            *r == old(self).0,
            final(self).0 == *final(r),
    {
        &mut self.0
    }
}

} // verus!
