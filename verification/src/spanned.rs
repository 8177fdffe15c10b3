use vstd::prelude::*;

verus! {

/// A value of type `T` annotated with the `[begin, end)` byte offsets, in the
/// original outermost text, of the substring the value was extracted from.
#[derive(Debug, Clone, Eq, PartialEq, Hash)]
pub struct Spanned<T> {
    pub begin: usize,
    pub end: usize,
    pub value: T,
}

impl<T> Spanned<T> {
    /// The byte offset where the spanned region begins.
    pub open spec fn spec_begin(&self) -> usize {
        self.begin
    }

    /// The byte offset just past the spanned region.
    pub open spec fn spec_end(&self) -> usize {
        self.end
    }

    /// The wrapped value.
    pub open spec fn spec_value(&self) -> T {
        self.value
    }

    pub fn into_inner(self) -> (r: T)
        ensures
            r == self.spec_value(),
    {
        self.value
    }

    pub fn new_raw(value: T, begin: usize, end: usize) -> (r: Self)
        ensures
            r.spec_begin() == begin,
            r.spec_end() == end,
            r.spec_value() == value,
    {
        Self { begin, end, value }
    }

    pub fn value(&self) -> (r: &T)
        ensures
            *r == self.spec_value(),
    {
        &self.value
    }

    pub fn begin(&self) -> (r: usize)
        ensures
            r == self.spec_begin(),
    {
        self.begin
    }

    pub fn end(&self) -> (r: usize)
        ensures
            r == self.spec_end(),
    {
        self.end
    }
}

} // verus!
