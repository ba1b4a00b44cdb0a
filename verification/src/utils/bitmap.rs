use vstd::prelude::*;

verus! {

/// Whether bit `k` (0 is the least significant) of `byte` is set.
pub open spec fn bit_of(byte: u8, k: int) -> bool {
    (byte & (1u8 << (k as u8))) != 0
}

/// The bits held by a byte buffer, least significant bit of each byte first.
pub open spec fn bits_of(bytes: Seq<u8>) -> Seq<bool> {
    Seq::new(bytes.len() * 8, |i: int| bit_of(bytes[i / 8], i % 8))
}

pub proof fn lemma_bit_set(byte: u8, k: u8, j: u8)
    by (bit_vector)
    requires
        k < 8,
        j < 8,
    ensures
        ((byte | (1u8 << k)) & (1u8 << j) != 0) == (j == k || (byte & (1u8 << j) != 0)),
{
}

pub proof fn lemma_bit_unset(byte: u8, k: u8, j: u8)
    by (bit_vector)
    requires
        k < 8,
        j < 8,
    ensures
        ((byte & !(1u8 << k)) & (1u8 << j) != 0) == (j != k && (byte & (1u8 << j) != 0)),
{
}

/// Every bit of the byte `0xFF` is set.
pub proof fn lemma_bit_of_full(k: u8)
    by (bit_vector)
    requires
        k < 8,
    ensures
        (0xFFu8 & (1u8 << k)) != 0,
{
}

/// A bit-addressable view over a byte buffer that the caller owns.
pub struct Bitmap<'a> {
    inner: &'a mut [u8],
}

impl<'a> Bitmap<'a> {
    /// Wraps `inner`; bit `i` of the map is bit `i % 8` of byte `i / 8`.
    pub fn new(inner: &'a mut [u8]) -> (r: Bitmap<'a>)
        requires
            old(inner)@.len() * 8 <= usize::MAX,
        ensures
            r@ == bits_of(old(inner)@),
            r.bytes() == old(inner)@,
    {
        Bitmap { inner }
    }

    #[verifier::type_invariant]
    spec fn fits(&self) -> bool {
        self.inner@.len() * 8 <= usize::MAX
    }
}

impl Bitmap<'_> {

    /// The bytes behind the map.
    pub closed spec fn bytes(&self) -> Seq<u8> {
        self.inner@
    }

    /// The map as a sequence of bits: `true` is a set bit.
    pub closed spec fn view(&self) -> Seq<bool> {
        bits_of(self.inner@)
    }

    /// The bits of the map are those of its bytes.
    pub proof fn lemma_view(&self)
        ensures
            self@ == bits_of(self.bytes()),
            self@.len() == self.bytes().len() * 8,
    {
    }

    pub fn test(&self, idx: usize) -> (r: bool)
        requires
            idx < self@.len(),
        ensures
            r == self@[idx as int],
    {
        let k: usize = idx % 8;
        (self.inner[idx / 8] & (1u8 << k)) != 0
    }

    pub fn set(&mut self, idx: usize)
        requires
            idx < old(self)@.len(),
        ensures
            final(self)@ == old(self)@.update(idx as int, true),
    {
        let k: usize = idx % 8;
        let byte: u8 = self.inner[idx / 8];
        proof {
            use_type_invariant(&*self);
        }
        self.inner[idx / 8] = byte | (1u8 << k);
        proof {
            assert forall|i: int| 0 <= i < self@.len() implies self@[i] == old(self)@.update(
                idx as int,
                true,
            )[i] by {
                if i / 8 == idx / 8 {
                    lemma_bit_set(byte, k as u8, (i % 8) as u8);
                }
            }
            assert(self@ =~= old(self)@.update(idx as int, true));
        }
    }

    pub fn unset(&mut self, idx: usize)
        requires
            idx < old(self)@.len(),
        ensures
            final(self)@ == old(self)@.update(idx as int, false),
    {
        let k: usize = idx % 8;
        let byte: u8 = self.inner[idx / 8];
        proof {
            use_type_invariant(&*self);
        }
        self.inner[idx / 8] = byte & !(1u8 << k);
        proof {
            assert forall|i: int| 0 <= i < self@.len() implies self@[i] == old(self)@.update(
                idx as int,
                false,
            )[i] by {
                if i / 8 == idx / 8 {
                    lemma_bit_unset(byte, k as u8, (i % 8) as u8);
                }
            }
            assert(self@ =~= old(self)@.update(idx as int, false));
        }
    }

    /// The number of bits in the map.
    pub fn len(&self) -> (r: usize)
        ensures
            r == self@.len(),
    {
        proof {
            use_type_invariant(self);
        }
        self.inner.len() * 8
    }
}

} // verus!
