use vstd::prelude::*;

use crate::rng::rand_below;

verus! {

/// Number of usable bits of a `BitArray`.
pub const BITS: usize = 500;

/// A fixed 500-bit string, stored in eight 64-bit words; the genome of the
/// simple bitstring engine.
pub struct BitArray {
    data: Vec<u64>,
}

impl BitArray {
    /// The words are allocated.
    pub closed spec fn wf(self) -> bool {
        self.data@.len() == 8
    }

    /// The value of one bit.
    pub closed spec fn bit(self, index: int) -> bool {
        ((self.data@[index / 64] >> ((index % 64) as u64)) & 1) == 1
    }

    /// An all-zero bit string.
    fn new() -> (r: BitArray)
        ensures
            r.wf(),
            forall|j: int| 0 <= j < BITS ==> !r.bit(j),
    {
        let mut data: Vec<u64> = Vec::new();
        let mut i: usize = 0;
        while i < 8
            invariant
                i <= 8,
                data@.len() == i,
                forall|k: int| 0 <= k < i ==> (#[trigger] data@[k]) == 0,
            decreases 8 - i,
        {
            data.push(0);
            i += 1;
        }
        let r = BitArray { data };
        proof {
            assert(forall|b: u64| b < 64 ==> ((0u64 >> b) & 1) == 0) by (bit_vector);
            assert forall|j: int| 0 <= j < BITS implies !r.bit(j) by {
                assert(0 <= j / 64 < 8);
                assert(r.data@[j / 64] == 0);
                assert(((j % 64) as u64) < 64);
            }
        }
        r
    }

    /// A uniformly random bit string: each of the 500 bits is set with
    /// probability one half.
    pub fn new_random(rng: &mut rand::rngs::StdRng) -> (r: BitArray)
        ensures
            r.wf(),
    {
        let mut b_arr = BitArray::new();
        let mut i: usize = 0;
        while i < BITS
            invariant
                b_arr.wf(),
            decreases BITS - i,
        {
            if rand_below(rng, 2) == 1 {
                b_arr.set_bit(i, true);
            }
            i += 1;
        }
        b_arr
    }

    /// Sets one bit, leaving every other bit unchanged.
    pub fn set_bit(&mut self, index: usize, value: bool)
        requires
            old(self).wf(),
            index < BITS,
        ensures
            final(self).wf(),
            final(self).bit(index as int) == value,
            forall|j: int|
                0 <= j < BITS && j != index ==> final(self).bit(j) == old(self).bit(j),
    {
        let chunk = index / 64;
        let b = (index % 64) as u64;
        let w = self.data[chunk];
        let neww = if value {
            w | (1u64 << b)
        } else {
            w & !(1u64 << b)
        };
        self.data.set(chunk, neww);
        proof {
            let bb = b;
            let ww = w;
            if value {
                assert((((ww | (1u64 << bb)) >> bb) & 1) == 1) by (bit_vector)
                    requires
                        bb < 64,
                ;
                assert(forall|j: u64|
                    j < 64 && j != bb ==> (((ww | (1u64 << bb)) >> j) & 1) == ((ww >> j) & 1))
                    by (bit_vector)
                    requires
                        bb < 64,
                ;
            } else {
                assert((((ww & !(1u64 << bb)) >> bb) & 1) == 0) by (bit_vector)
                    requires
                        bb < 64,
                ;
                assert(forall|j: u64|
                    j < 64 && j != bb ==> (((ww & !(1u64 << bb)) >> j) & 1) == ((ww >> j) & 1))
                    by (bit_vector)
                    requires
                        bb < 64,
                ;
            }
            assert forall|j: int|
                0 <= j < BITS && j != index implies self.bit(j) == old(self).bit(j) by {
                assert(0 <= j / 64 < 8);
                if j / 64 == chunk {
                    assert(j == 64 * (j / 64) + (j % 64));
                    assert(index == 64 * (chunk as int) + (index % 64) as int);
                    assert((j % 64) != (index % 64) as int);
                    assert(((j % 64) as u64) < 64 && ((j % 64) as u64) != bb);
                } else {
                    assert(self.data@[j / 64] == old(self).data@[j / 64]);
                }
            }
        }
    }

    /// Reads one bit.
    pub fn get_bit(&self, index: usize) -> (r: bool)
        requires
            self.wf(),
            index < BITS,
        ensures
            r == self.bit(index as int),
    {
        let chunk = index / 64;
        let b = (index % 64) as u64;
        ((self.data[chunk] >> b) & 1) == 1
    }
}

} // verus!
