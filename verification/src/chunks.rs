//! Cutting a list into chunks.

use vstd::prelude::*;

verus! {

/// The ranges that cut the indices from `from` up to `len` into chunks of
/// `size`: each range starts where the one before ended, and all but the last
/// hold exactly `size` indices.
pub open spec fn chunk_bounds(from: nat, len: nat, size: nat) -> Seq<(nat, nat)>
    decreases len - from,
{
    if from >= len || size == 0 {
        Seq::empty()
    } else if len - from <= size {
        seq![(from, len)]
    } else {
        seq![(from, from + size)] + chunk_bounds(from + size, len, size)
    }
}

/// The ranges of `chunk_bounds` are not empty, hold at most `size` indices,
/// follow one another from `from` up to `len`, and all but the last hold
/// exactly `size` indices.
pub proof fn lemma_chunk_bounds(from: nat, len: nat, size: nat)
    requires
        from <= len,
        size > 0,
    ensures
        chunk_bounds(from, len, size).len() == 0 <==> from == len,
        from < len ==> chunk_bounds(from, len, size)[0].0 == from && chunk_bounds(
            from,
            len,
            size,
        ).last().1 == len,
        forall|k: int|
            0 <= k < chunk_bounds(from, len, size).len() ==> (#[trigger] chunk_bounds(
                from,
                len,
                size,
            )[k]).0 < chunk_bounds(from, len, size)[k].1 <= len && chunk_bounds(
                from,
                len,
                size,
            )[k].1 - chunk_bounds(from, len, size)[k].0 <= size,
        forall|k: int|
            0 <= k < chunk_bounds(from, len, size).len() - 1 ==> (#[trigger] chunk_bounds(
                from,
                len,
                size,
            )[k]).1 == chunk_bounds(from, len, size)[k + 1].0 && chunk_bounds(
                from,
                len,
                size,
            )[k].1 - chunk_bounds(from, len, size)[k].0 == size,
    decreases len - from,
{
    let bounds = chunk_bounds(from, len, size);
    if from < len && len - from > size {
        let rest = chunk_bounds(from + size, len, size);
        lemma_chunk_bounds(from + size, len, size);
        assert(bounds.len() == rest.len() + 1);
        assert forall|k: int| 0 < k < bounds.len() implies bounds[k] == rest[k - 1] by {}
        assert forall|k: int| 0 <= k < bounds.len() implies (#[trigger] bounds[k]).0 < bounds[k].1
            <= len && bounds[k].1 - bounds[k].0 <= size by {
            if k > 0 {
                assert(bounds[k] == rest[k - 1]);
            }
        }
        assert forall|k: int| 0 <= k < bounds.len() - 1 implies (#[trigger] bounds[k]).1
            == bounds[k + 1].0 && bounds[k].1 - bounds[k].0 == size by {
            assert(bounds[k + 1] == rest[k]);
            if k > 0 {
                assert(bounds[k] == rest[k - 1]);
            }
        }
        assert(bounds.last() == rest.last());
    }
}

/// The ranges as pairs of natural numbers.
pub open spec fn ranges_view(ranges: Seq<(usize, usize)>) -> Seq<(nat, nat)> {
    ranges.map_values(|range: (usize, usize)| (range.0 as nat, range.1 as nat))
}

/// Cuts the indices below `len` into chunks of `chunk_size`.
pub fn chunk_ranges(len: usize, chunk_size: usize) -> (ranges: Vec<(usize, usize)>)
    requires
        chunk_size > 0,
    ensures
        ranges_view(ranges@) == chunk_bounds(0, len as nat, chunk_size as nat),
        forall|k: int|
            0 <= k < ranges@.len() ==> (#[trigger] ranges@[k]).0 < ranges@[k].1 <= len
                && ranges@[k].1 - ranges@[k].0 <= chunk_size,
{
    let mut ranges: Vec<(usize, usize)> = Vec::new();
    let mut from: usize = 0;
    let ghost all = chunk_bounds(0, len as nat, chunk_size as nat);
    proof {
        assert(ranges_view(ranges@) + all =~= all);
    }
    while from < len
        invariant
            from <= len,
            chunk_size > 0,
            all == chunk_bounds(0, len as nat, chunk_size as nat),
            ranges_view(ranges@) + chunk_bounds(from as nat, len as nat, chunk_size as nat) == all,
        decreases len - from,
    {
        let to: usize = if len - from <= chunk_size {
            len
        } else {
            from + chunk_size
        };
        let ghost before = ranges@;
        ranges.push((from, to));
        proof {
            let here = chunk_bounds(from as nat, len as nat, chunk_size as nat);
            let rest = chunk_bounds(to as nat, len as nat, chunk_size as nat);
            assert(here =~= seq![(from as nat, to as nat)] + rest);
            assert(ranges_view(ranges@) =~= ranges_view(before).push((from as nat, to as nat)));
            assert(ranges_view(ranges@) + rest =~= ranges_view(before) + here);
        }
        from = to;
    }
    proof {
        assert(ranges_view(ranges@) + Seq::<(nat, nat)>::empty() =~= ranges_view(ranges@));
        lemma_chunk_bounds(0, len as nat, chunk_size as nat);
        assert forall|k: int| 0 <= k < ranges@.len() implies (#[trigger] ranges@[k]).0
            < ranges@[k].1 <= len && ranges@[k].1 - ranges@[k].0 <= chunk_size by {
            assert(all[k] == (ranges@[k].0 as nat, ranges@[k].1 as nat));
        }
    }
    ranges
}

} // verus!
