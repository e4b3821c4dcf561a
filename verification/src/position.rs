//! Dual byte/character offsets into a text buffer.

use vstd::prelude::*;
use std::cmp::Ordering;

verus! {

/// A position in, or a length of, a piece of text, counted both in UTF-8
/// bytes and in characters.
///
/// Two positions taken from the same text are ordered the same way by
/// either component; see [`Len::agrees`].
#[derive(Debug, Copy, Clone, PartialEq, Eq, Structural)]
pub struct Len {
    pub bytes: usize,
    pub chars: usize,
}

impl Len {
    /// Whether the two offsets may belong to one text: the byte order and
    /// the character order agree.
    pub open spec fn agrees(self, other: Len) -> bool {
        &&& (self.bytes <= other.bytes <==> self.chars <= other.chars)
        &&& (other.bytes <= self.bytes <==> other.chars <= self.chars)
    }

    /// Componentwise `self <= other`.
    pub open spec fn le(self, other: Len) -> bool {
        self.bytes <= other.bytes && self.chars <= other.chars
    }

    /// The offset of `bytes` bytes and `chars` characters.
    pub fn new(bytes: usize, chars: usize) -> (r: Len)
        ensures
            r.bytes == bytes,
            r.chars == chars,
    {
        Len { bytes, chars }
    }

    /// The origin of every text.
    pub fn zero() -> (r: Len)
        ensures
            r.bytes == 0,
            r.chars == 0,
    {
        Len { bytes: 0, chars: 0 }
    }

    /// Componentwise sum.
    pub fn add(self, rhs: Len) -> (r: Len)
        requires
            self.bytes + rhs.bytes <= usize::MAX,
            self.chars + rhs.chars <= usize::MAX,
        ensures
            r.bytes == self.bytes + rhs.bytes,
            r.chars == self.chars + rhs.chars,
    {
        Len { bytes: self.bytes + rhs.bytes, chars: self.chars + rhs.chars }
    }

    /// Componentwise difference. The caller answers for `rhs` not lying
    /// behind `self`; nothing is clamped.
    pub fn sub(self, rhs: Len) -> (r: Len)
        requires
            rhs.le(self),
        ensures
            r.bytes == self.bytes - rhs.bytes,
            r.chars == self.chars - rhs.chars,
    {
        Len { bytes: self.bytes - rhs.bytes, chars: self.chars - rhs.chars }
    }

    /// Positions are ordered by their byte count alone.
    pub fn precedes(self, other: Len) -> (r: bool)
        ensures
            r == (self.bytes < other.bytes),
    {
        self.bytes < other.bytes
    }
}

impl PartialOrd for Len {
    /// Positions are ordered by their byte count alone.
    fn partial_cmp(&self, other: &Len) -> (r: Option<Ordering>) {
        if self.bytes < other.bytes {
            Some(Ordering::Less)
        } else if self.bytes > other.bytes {
            Some(Ordering::Greater)
        } else {
            Some(Ordering::Equal)
        }
    }
}

impl vstd::std_specs::cmp::PartialOrdSpecImpl for Len {
    open spec fn obeys_partial_cmp_spec() -> bool {
        true
    }

    open spec fn partial_cmp_spec(&self, other: &Len) -> Option<Ordering> {
        if self.bytes < other.bytes {
            Some(Ordering::Less)
        } else if self.bytes > other.bytes {
            Some(Ordering::Greater)
        } else {
            Some(Ordering::Equal)
        }
    }
}

impl Default for Len {
    /// The origin of every text.
    fn default() -> (r: Len)
        ensures
            r.bytes == 0,
            r.chars == 0,
    {
        Len { bytes: 0, chars: 0 }
    }
}

/// Between offsets that agree, equal byte counts force equal character
/// counts, and a strictly smaller byte count a strictly smaller character
/// count.
pub proof fn lemma_agrees_strict(a: Len, b: Len)
    requires
        a.agrees(b),
    ensures
        b.agrees(a),
        a.bytes == b.bytes <==> a.chars == b.chars,
        a.bytes < b.bytes <==> a.chars < b.chars,
{
}

} // verus!
