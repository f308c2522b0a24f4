use core::ops::Range;
use vstd::prelude::*;

verus! {

/// The per-tree pool of record ids a node may still allocate from: a
/// sequence of `[start, end)` ranges handed out by the relay, consumed
/// front to back.
#[derive(Clone, Debug)]
pub struct KeyPool {
    ranges: Vec<Range<u32>>,
}

impl View for KeyPool {
    type V = Seq<Range<u32>>;

    closed spec fn view(&self) -> Seq<Range<u32>> {
        self.ranges@
    }
}

/// How many ids the ranges still hold; an inverted range contributes
/// nothing.
pub open spec fn spec_keys_available(s: Seq<Range<u32>>) -> int
    decreases s.len(),
{
    if s.len() == 0 {
        0
    } else {
        (if s[0].end > s[0].start {
            s[0].end - s[0].start
        } else {
            0
        }) + spec_keys_available(s.drop_first())
    }
}

/// An integer clamped into u32 range.
pub open spec fn spec_clamp_u32(x: int) -> int {
    if x > u32::MAX {
        u32::MAX as int
    } else {
        x
    }
}

proof fn lemma_keys_available_nonneg(s: Seq<Range<u32>>)
    ensures
        spec_keys_available(s) >= 0,
    decreases s.len(),
{
    if s.len() > 0 {
        lemma_keys_available_nonneg(s.drop_first());
    }
}

impl KeyPool {
    pub fn new(ranges: Vec<Range<u32>>) -> (r: Self)
        ensures
            r@ == ranges@,
    {
        KeyPool { ranges }
    }

    /// Appends a freshly issued range behind the ones already held.
    pub fn push(&mut self, additional_range: Range<u32>)
        ensures
            final(self)@ == old(self)@.push(additional_range),
    {
        self.ranges.push(additional_range);
    }

    /// Takes the next id: the start of the first range, which is consumed
    /// by one; a range with at most one id left is dropped whole. `None`
    /// exactly when no range is held.
    pub fn get(&mut self) -> (r: Option<u32>)
        ensures
            r is Some <==> old(self)@.len() > 0,
            old(self)@.len() == 0 ==> final(self)@ == old(self)@,
            old(self)@.len() > 0 ==> {
                &&& r == Some(old(self)@[0].start)
                &&& (old(self)@[0].start + 1 >= old(self)@[0].end ==> final(self)@ == old(
                    self,
                )@.drop_first())
                &&& (old(self)@[0].start + 1 < old(self)@[0].end ==> {
                    &&& final(self)@.len() == old(self)@.len()
                    &&& final(self)@[0].start == old(self)@[0].start + 1
                    &&& final(self)@[0].end == old(self)@[0].end
                    &&& forall|i: int|
                        1 <= i < old(self)@.len() ==> final(self)@[i] == old(self)@[i]
                })
            },
    {
        if self.ranges.len() == 0 {
            None
        } else {
            let next_key = self.ranges[0].start;
            let end = self.ranges[0].end;
            if next_key as u64 + 1 >= end as u64 {
                self.ranges.remove(0);
                proof {
                    assert(self.ranges@ =~= old(self)@.drop_first());
                }
            } else {
                self.ranges[0].start = next_key + 1;
            }
            Some(next_key)
        }
    }

    /// The number of ids still available over all held ranges, clamped to
    /// the u32 range.
    pub fn total_keys_available(&self) -> (r: u32)
        ensures
            r == spec_clamp_u32(spec_keys_available(self@)),
    {
        let mut acc: u32 = 0;
        let mut i: usize = 0;
        proof {
            assert(self@.skip(0) =~= self@);
        }
        while i < self.ranges.len()
            invariant
                0 <= i <= self.ranges@.len(),
                acc == spec_clamp_u32(
                    spec_keys_available(self@) - spec_keys_available(self@.skip(i as int)),
                ),
            decreases self.ranges@.len() - i,
        {
            proof {
                assert(self@.skip(i as int).drop_first() =~= self@.skip(i as int + 1));
                lemma_keys_available_nonneg(self@.skip(i as int + 1));
                lemma_keys_available_nonneg(self@.skip(i as int));
            }
            let start = self.ranges[i].start;
            let end = self.ranges[i].end;
            let d: u32 = if end > start {
                end - start
            } else {
                0
            };
            acc = if acc as u64 + d as u64 > u32::MAX as u64 {
                u32::MAX
            } else {
                acc + d
            };
            i = i + 1;
        }
        proof {
            assert(self@.skip(self@.len() as int) =~= Seq::<Range<u32>>::empty());
        }
        acc
    }
}

} // verus!
