use vstd::prelude::*;

verus! {

/// A byte index into the global position space shared by every loaded file.
///
/// The value `0` is reserved for the dummy position, which points at no
/// source text.
#[derive(Clone, Copy, Debug, PartialEq, Eq, Structural, PartialOrd, Ord, Hash)]
pub struct Pos(u32);

impl Pos {
    /// The position as a mathematical integer.
    pub closed spec fn pos(self) -> int {
        self.0 as int
    }

    pub fn from_u32(n: u32) -> (r: Pos)
        ensures
            r.pos() == n,
    {
        Pos(n)
    }

    pub fn from_usize(n: usize) -> (r: Pos)
        requires
            n <= u32::MAX,
        ensures
            r.pos() == n,
    {
        Pos(n as u32)
    }

    pub fn to_u32(self) -> (r: u32)
        ensures
            r == self.pos(),
    {
        self.0
    }

    pub fn to_usize(self) -> (r: usize)
        ensures
            r == self.pos(),
    {
        self.0 as usize
    }

    pub fn is_dummy(self) -> (r: bool)
        ensures
            r == (self.pos() == 0),
    {
        self.0 == 0
    }

    /// The position `n` bytes further on.
    pub fn add_bytes(self, n: u32) -> (r: Pos)
        requires
            self.pos() + n <= u32::MAX,
        ensures
            r.pos() == self.pos() + n,
    {
        Pos(self.0 + n)
    }

    /// The position `n` bytes earlier.
    pub fn sub_bytes(self, n: u32) -> (r: Pos)
        requires
            self.pos() >= n,
        ensures
            r.pos() == self.pos() - n,
    {
        Pos(self.0 - n)
    }
}

} // verus!
