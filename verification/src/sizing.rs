//! The aggregation rule of the sizer: over the entries met during one
//! subtree walk, only regular files contribute their size; directory and
//! link entries contribute nothing.

use vstd::prelude::*;

verus! {

/// The exact sum of the sizes of the regular files among the walk's
/// entries: each entry is a pair of "is a regular file" and its size, and
/// an entry that is not a regular file adds nothing.
pub open spec fn spec_sum_regular(s: Seq<(bool, u64)>) -> int
    decreases s.len(),
{
    if s.len() == 0 {
        0
    } else {
        spec_sum_regular(s.drop_last()) + (if s.last().0 {
            s.last().1 as int
        } else {
            0
        })
    }
}

/// Sums of walk entries are never negative.
pub proof fn lemma_sum_regular_nonneg(s: Seq<(bool, u64)>)
    ensures
        spec_sum_regular(s) >= 0,
    decreases s.len(),
{
    if s.len() > 0 {
        lemma_sum_regular_nonneg(s.drop_last());
    }
}

/// Running sums of walk entries are non-negative and bounded by the total.
pub proof fn lemma_sum_regular_prefix(s: Seq<(bool, u64)>, j: int)
    requires
        0 <= j <= s.len(),
    ensures
        0 <= spec_sum_regular(s.subrange(0, j)) <= spec_sum_regular(s),
    decreases s.len() - j,
{
    if j == s.len() {
        assert(s.subrange(0, j) =~= s);
        lemma_sum_regular_nonneg(s);
    } else {
        lemma_sum_regular_prefix(s, j + 1);
        lemma_sum_regular_nonneg(s.subrange(0, j));
        assert(s.subrange(0, j + 1).drop_last() =~= s.subrange(0, j));
        assert(s.subrange(0, j + 1).last() == s[j]);
        assert(spec_sum_regular(s.subrange(0, j + 1)) == spec_sum_regular(s.subrange(0, j)) + (
        if s[j].0 {
            s[j].1 as int
        } else {
            0
        }));
    }
}

/// Sums one subtree walk exactly, counting only the regular files'
/// sizes (used for the logical and for the allocated walk alike);
/// `None` exactly when the sum does not fit in 64 bits.
pub fn sum_regular_sizes(items: &Vec<(bool, u64)>) -> (r: Option<u64>)
    ensures
        r is Some <==> spec_sum_regular(items@) <= u64::MAX,
        r matches Some(t) ==> t as int == spec_sum_regular(items@),
{
    let mut total: u64 = 0;
    let mut i: usize = 0;
    proof {
        assert(items@.subrange(0, 0) =~= Seq::<(bool, u64)>::empty());
    }
    while i < items.len()
        invariant
            i <= items@.len(),
            total as int == spec_sum_regular(items@.subrange(0, i as int)),
        decreases items@.len() - i,
    {
        proof {
            assert(items@.subrange(0, i + 1).drop_last() =~= items@.subrange(0, i as int));
            assert(items@.subrange(0, i + 1).last() == items@[i as int]);
        }
        let (is_regular_file, size) = items[i];
        if is_regular_file {
            if size > u64::MAX - total {
                proof {
                    lemma_sum_regular_prefix(items@, i + 1);
                }
                return None;
            }
            total = total + size;
        }
        i = i + 1;
    }
    proof {
        assert(items@.subrange(0, items@.len() as int) =~= items@);
    }
    Some(total)
}

} // verus!
