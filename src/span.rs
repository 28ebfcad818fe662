use vstd::prelude::*;

verus! {

/// A byte range of the source text. Both ends belong to the range when it
/// is read as a trivia extent.
#[derive(Clone, Copy, Debug, PartialEq, Eq, Structural)]
pub struct SrcSpan {
    pub start: u32,
    pub end: u32,
}

/// `span` shares at least one offset with the inclusive range `[start, end]`.
pub open spec fn overlaps(span: SrcSpan, start: u32, end: u32) -> bool {
    span.end >= start && span.start <= end
}

/// Every span is well formed (`start <= end`), and each one ends no later
/// than any later one starts: sorted by start and free of overlap, with
/// adjacent spans allowed to share their boundary offset.
pub open spec fn spans_ordered(spans: Seq<SrcSpan>) -> bool {
    &&& forall|i: int| 0 <= i < spans.len() ==> (#[trigger] spans[i]).start <= spans[i].end
    &&& forall|i: int, j: int|
        0 <= i < j < spans.len() ==> (#[trigger] spans[i]).end <= (#[trigger] spans[j]).start
}

/// Some span of `spans` overlaps `[start, end]`.
pub open spec fn any_overlapping(spans: Seq<SrcSpan>, start: u32, end: u32) -> bool {
    exists|i: int| 0 <= i < spans.len() && overlaps(#[trigger] spans[i], start, end)
}

/// Some span of `spans` holds `offset`, both ends included.
pub open spec fn contains_offset(spans: Seq<SrcSpan>, offset: u32) -> bool {
    exists|i: int| 0 <= i < spans.len() && spans[i].start <= offset && offset <= #[trigger] spans[i].end
}

/// The first span of `spans`, in sequence order, that overlaps `[start, end]`.
pub open spec fn first_overlapping(spans: Seq<SrcSpan>, start: u32, end: u32) -> Option<SrcSpan>
    decreases spans.len(),
{
    if spans.len() == 0 {
        None
    } else if overlaps(spans[0], start, end) {
        Some(spans[0])
    } else {
        first_overlapping(spans.drop_first(), start, end)
    }
}

/// `first_overlapping` is the overlapping span of least index, and is absent
/// exactly when no span overlaps.
pub proof fn lemma_first_overlapping_least_index(spans: Seq<SrcSpan>, start: u32, end: u32)
    ensures
        match first_overlapping(spans, start, end) {
            None => !any_overlapping(spans, start, end),
            Some(r) => exists|i: int|
                0 <= i < spans.len() && spans[i] == r && overlaps(r, start, end) && (forall|j: int|
                    0 <= j < i ==> !overlaps(#[trigger] spans[j], start, end)),
        },
    decreases spans.len(),
{
    if spans.len() > 0 && !overlaps(spans[0], start, end) {
        let rest = spans.drop_first();
        lemma_first_overlapping_least_index(rest, start, end);
        match first_overlapping(rest, start, end) {
            None => {
                assert forall|j: int| 0 <= j < spans.len() implies !overlaps(
                    #[trigger] spans[j],
                    start,
                    end,
                ) by {
                    if j > 0 {
                        assert(spans[j] == rest[j - 1]);
                    }
                }
            },
            Some(r) => {
                let k = choose|k: int|
                    0 <= k < rest.len() && rest[k] == r && overlaps(r, start, end) && (forall|j: int|
                        0 <= j < k ==> !overlaps(#[trigger] rest[j], start, end));
                assert(spans[k + 1] == r);
                assert forall|j: int| 0 <= j < k + 1 implies !overlaps(
                    #[trigger] spans[j],
                    start,
                    end,
                ) by {
                    if j > 0 {
                        assert(spans[j] == rest[j - 1]);
                    }
                }
            },
        }
    }
}

/// An overlapping span with no overlapping span before it is the one that
/// `first_overlapping` gives.
pub proof fn lemma_first_overlapping_at(spans: Seq<SrcSpan>, start: u32, end: u32, i: int)
    requires
        0 <= i < spans.len(),
        overlaps(spans[i], start, end),
        forall|j: int| 0 <= j < i ==> !overlaps(#[trigger] spans[j], start, end),
    ensures
        first_overlapping(spans, start, end) == Some(spans[i]),
{
    lemma_first_overlapping_least_index(spans, start, end);
    if first_overlapping(spans, start, end) is Some {
        let r = first_overlapping(spans, start, end)->Some_0;
        let k = choose|k: int|
            0 <= k < spans.len() && spans[k] == r && overlaps(r, start, end) && (forall|j: int|
                0 <= j < k ==> !overlaps(#[trigger] spans[j], start, end));
        if k < i {
            assert(!overlaps(spans[k], start, end));
        } else if i < k {
            assert(!overlaps(spans[i], start, end));
        }
    } else {
        assert(overlaps(spans[i], start, end));
    }
}

/// Among ordered spans, the first overlapping one starts no later than any
/// other overlapping span, so no overlapping span starts before it; and
/// there is none exactly when no span overlaps.
pub proof fn lemma_first_overlapping_starts_least(spans: Seq<SrcSpan>, start: u32, end: u32)
    requires
        spans_ordered(spans),
    ensures
        match first_overlapping(spans, start, end) {
            None => forall|j: int| 0 <= j < spans.len() ==> !overlaps(#[trigger] spans[j], start, end),
            Some(r) => {
                &&& spans.contains(r)
                &&& overlaps(r, start, end)
                &&& forall|j: int|
                    0 <= j < spans.len() && overlaps(#[trigger] spans[j], start, end) ==> r.start
                        <= spans[j].start
            },
        },
{
    lemma_first_overlapping_least_index(spans, start, end);
    if first_overlapping(spans, start, end) is Some {
        let r = first_overlapping(spans, start, end)->Some_0;
        let i = choose|i: int|
            0 <= i < spans.len() && spans[i] == r && overlaps(r, start, end) && (forall|j: int|
                0 <= j < i ==> !overlaps(#[trigger] spans[j], start, end));
        assert(spans[i] == r);
        assert forall|j: int|
            0 <= j < spans.len() && overlaps(#[trigger] spans[j], start, end) implies r.start
            <= spans[j].start by {
            if i < j {
                assert(spans[i].start <= spans[i].end);
                assert(spans[i].end <= spans[j].start);
            }
        }
    }
}

/// Some span overlaps a range exactly when a first overlapping span exists.
pub proof fn lemma_any_overlapping_iff_first(spans: Seq<SrcSpan>, start: u32, end: u32)
    ensures
        any_overlapping(spans, start, end) == first_overlapping(spans, start, end) is Some,
{
    lemma_first_overlapping_least_index(spans, start, end);
}

/// A range of one offset finds a span that holds that offset whenever some
/// span holds it.
pub proof fn lemma_point_range_finds_holder(spans: Seq<SrcSpan>, offset: u32)
    requires
        contains_offset(spans, offset),
    ensures
        first_overlapping(spans, offset, offset) matches Some(r) && r.start <= offset <= r.end,
{
    lemma_first_overlapping_least_index(spans, offset, offset);
    let i = choose|i: int|
        0 <= i < spans.len() && spans[i].start <= offset && offset <= #[trigger] spans[i].end;
    assert(overlaps(spans[i], offset, offset));
}

/// Searches `spans[0..limit]` by bisection for a span that overlaps
/// `[start, end]`. Any overlapping span may be the one found.
pub(crate) fn find_overlapping(spans: &[SrcSpan], limit: usize, start: u32, end: u32) -> (r: Option<usize>)
    requires
        spans_ordered(spans@),
        limit <= spans@.len(),
    ensures
        match r {
            Some(i) => i < limit && overlaps(spans@[i as int], start, end),
            None => forall|j: int| 0 <= j < limit ==> !overlaps(#[trigger] spans@[j], start, end),
        },
{
    let mut lo: usize = 0;
    let mut hi: usize = limit;
    while lo < hi
        invariant
            spans_ordered(spans@),
            lo <= hi <= spans@.len(),
            hi <= limit,
            forall|j: int| 0 <= j < lo ==> !overlaps(#[trigger] spans@[j], start, end),
            forall|j: int| hi <= j < limit ==> !overlaps(#[trigger] spans@[j], start, end),
        decreases hi - lo,
    {
        let mid: usize = lo + (hi - lo) / 2;
        let span = spans[mid];
        if span.end < start {
            lo = mid + 1;
        } else if span.start > end {
            hi = mid;
        } else {
            return Some(mid);
        }
    }
    None
}

} // verus!
