//! Checks of a message layout: fields must not overlap, must fit in the
//! message, and must together cover every bit of it.

use crate::field_info::FieldInfo;
use crate::parse::{MessageAttributes, DEFAULT_MESSAGE_LENGTH};
use vstd::prelude::*;

verus! {

/// Why a message layout is refused.
#[derive(Debug, Clone, PartialEq, Eq)]
pub enum LayoutError {
    /// Field `field` shares bits with the earlier field `other`.
    Overlap { field: usize, other: usize },
    /// Field `field` ends past the message length of `length` bits.
    BeyondLength { field: usize, length: u8 },
    /// These bit ranges `start..end` belong to no field.
    UncoveredBits(Vec<(usize, usize)>),
}

/// The two bit ranges share a bit.
pub open spec fn ranges_overlap(a: FieldInfo, b: FieldInfo) -> bool {
    a.bit_end > b.bit_start && a.bit_start < b.bit_end
}

/// No pair `(a, b)` with `a < b` that comes before `(i, j)` in the order in
/// which pairs are checked (by `a`, then by `b`) overlaps.
pub open spec fn no_overlap_before(fields: Seq<FieldInfo>, i: int, j: int) -> bool {
    forall|a: int, b: int|
        0 <= a < b < fields.len() && (a < i || (a == i && b < j)) ==> !ranges_overlap(
            #[trigger] fields[a],
            #[trigger] fields[b],
        )
}

/// The largest field end, or 0 with no fields.
pub open spec fn max_bit_end(fields: Seq<FieldInfo>) -> nat
    decreases fields.len(),
{
    if fields.len() == 0 {
        0
    } else {
        let rest = max_bit_end(fields.drop_last());
        if fields.last().bit_end as nat > rest {
            fields.last().bit_end as nat
        } else {
            rest
        }
    }
}

/// The message length after adjustment: a length left at the default of 64
/// bits grows to the largest field end when fields reach past it (the value
/// cut to eight bits, as a `u8` holds it).
pub open spec fn adjusted_length(fields: Seq<FieldInfo>, length: u8) -> u8 {
    if length == DEFAULT_MESSAGE_LENGTH && max_bit_end(fields) > 64 {
        max_bit_end(fields) as u8
    } else {
        length
    }
}

/// `(start, end)` of each field, in field order.
pub open spec fn field_ranges(fields: Seq<FieldInfo>) -> Seq<(usize, usize)> {
    fields.map_values(|f: FieldInfo| (f.bit_start, f.bit_end))
}

/// Where `x` goes among ranges sorted by start: after every range that
/// starts at or before it.
pub open spec fn insertion_point(sorted: Seq<(usize, usize)>, x: (usize, usize)) -> int
    decreases sorted.len(),
{
    if sorted.len() == 0 {
        0
    } else if sorted.last().0 <= x.0 {
        sorted.len() as int
    } else {
        insertion_point(sorted.drop_last(), x)
    }
}

/// The ranges sorted by start; ranges with the same start keep their order.
pub open spec fn sorted_by_start(ranges: Seq<(usize, usize)>) -> Seq<(usize, usize)>
    decreases ranges.len(),
{
    if ranges.len() == 0 {
        ranges
    } else {
        let sorted = sorted_by_start(ranges.drop_last());
        sorted.insert(insertion_point(sorted, ranges.last()), ranges.last())
    }
}

/// Gaps found, and the position reached, after walking the first `n` of the
/// sorted ranges from bit 0: a gap lies between the position and the start
/// of the next range when the position is before it; the position then moves
/// to the range's end.
pub open spec fn coverage_walk(sorted: Seq<(usize, usize)>, n: nat) -> (Seq<(usize, usize)>, usize)
    decreases n,
{
    if n == 0 || n > sorted.len() {
        (Seq::empty(), 0)
    } else {
        let (gaps, pos) = coverage_walk(sorted, (n - 1) as nat);
        let (start, end) = sorted[n - 1];
        (if pos < start { gaps.push((pos, start)) } else { gaps }, end)
    }
}

/// The bit ranges of a message of `length` bits that the fields leave
/// uncovered, in the order in which the walk meets them.
pub open spec fn uncovered_ranges(fields: Seq<FieldInfo>, length: usize) -> Seq<(usize, usize)> {
    let sorted = sorted_by_start(field_ranges(fields));
    let (gaps, pos) = coverage_walk(sorted, sorted.len());
    if pos < length {
        gaps.push((pos, length))
    } else {
        gaps
    }
}

/// The ranges sorted by start, ranges with the same start in their first order.
pub fn sort_by_start(ranges: &Vec<(usize, usize)>) -> (sorted: Vec<(usize, usize)>)
    ensures
        sorted@ == sorted_by_start(ranges@),
{
    let mut sorted: Vec<(usize, usize)> = Vec::new();
    let mut i: usize = 0;
    while i < ranges.len()
        invariant
            i <= ranges.len(),
            sorted@ == sorted_by_start(ranges@.subrange(0, i as int)),
        decreases ranges.len() - i,
    {
        let x = ranges[i];
        let mut k: usize = sorted.len();
        assert(sorted@.subrange(0, k as int) =~= sorted@);
        while k > 0 && sorted[k - 1].0 > x.0
            invariant
                k <= sorted.len(),
                insertion_point(sorted@, x) == insertion_point(sorted@.subrange(0, k as int), x),
            decreases k,
        {
            assert(sorted@.subrange(0, k as int).drop_last() =~= sorted@.subrange(0, k - 1));
            k = k - 1;
        }
        proof {
            if k > 0 {
                assert(sorted@.subrange(0, k as int).last() == sorted@[k - 1]);
            }
            assert(insertion_point(sorted@, x) == k);
            let prefix = ranges@.subrange(0, i + 1);
            assert(prefix.drop_last() =~= ranges@.subrange(0, i as int));
            assert(prefix.last() == x);
        }
        sorted.insert(k, x);
        i = i + 1;
    }
    assert(ranges@.subrange(0, ranges.len() as int) =~= ranges@);
    sorted
}

/// The bit ranges of a message of `message_length` bits that no field
/// covers; refused when there is any.
pub fn validate_bit_coverage(fields: &Vec<FieldInfo>, message_length: usize) -> (r: Result<
    (),
    LayoutError,
>)
    ensures
        uncovered_ranges(fields@, message_length).len() == 0 ==> r is Ok,
        uncovered_ranges(fields@, message_length).len() > 0 ==> (r matches Err(
            LayoutError::UncoveredBits(gaps),
        ) && gaps@ == uncovered_ranges(fields@, message_length)),
{
    let mut ranges: Vec<(usize, usize)> = Vec::new();
    let mut i: usize = 0;
    while i < fields.len()
        invariant
            i <= fields.len(),
            ranges@ == field_ranges(fields@.subrange(0, i as int)),
        decreases fields.len() - i,
    {
        ranges.push((fields[i].bit_start, fields[i].bit_end));
        i = i + 1;
        assert(ranges@ =~= field_ranges(fields@.subrange(0, i as int)));
    }
    assert(fields@.subrange(0, fields.len() as int) =~= fields@);
    let sorted = sort_by_start(&ranges);
    let mut gaps: Vec<(usize, usize)> = Vec::new();
    let mut current_pos: usize = 0;
    let mut j: usize = 0;
    while j < sorted.len()
        invariant
            j <= sorted.len(),
            (gaps@, current_pos) == coverage_walk(sorted@, j as nat),
        decreases sorted.len() - j,
    {
        let (start, end) = sorted[j];
        if current_pos < start {
            gaps.push((current_pos, start));
        }
        current_pos = end;
        j = j + 1;
    }
    if current_pos < message_length {
        gaps.push((current_pos, message_length));
    }
    if gaps.len() > 0 {
        return Err(LayoutError::UncoveredBits(gaps));
    }
    Ok(())
}

/// What `validate_fields` gives, and leaves in the message attributes, for
/// `fields` and the attributes `before` the call.
pub open spec fn validation_outcome(
    fields: Seq<FieldInfo>,
    before: MessageAttributes,
    after: MessageAttributes,
    r: Result<(), LayoutError>,
) -> bool {
    &&& after.pgn == before.pgn
    &&& after.priority == before.priority
    &&& match r {
        Err(LayoutError::Overlap { field, other }) => {
            &&& other < field < fields.len()
            &&& ranges_overlap(fields[other as int], fields[field as int])
            &&& no_overlap_before(fields, other as int, field as int)
            &&& after == before
        },
        _ => {
            let length = adjusted_length(fields, before.length);
            &&& no_overlap_before(fields, fields.len() as int, 0)
            &&& after.length == length
            &&& match r {
                Err(LayoutError::BeyondLength { field, length: l }) => {
                    &&& field < fields.len()
                    &&& l == length
                    &&& fields[field as int].bit_end > length
                    &&& forall|k: int| 0 <= k < field ==> #[trigger] fields[k].bit_end <= length
                },
                _ => {
                    &&& forall|k: int|
                        0 <= k < fields.len() ==> #[trigger] fields[k].bit_end <= length
                    &&& uncovered_ranges(fields, length as usize).len() == 0 ==> r is Ok
                    &&& uncovered_ranges(fields, length as usize).len() > 0 ==> (r matches Err(
                        LayoutError::UncoveredBits(gaps),
                    ) && gaps@ == uncovered_ranges(fields, length as usize))
                },
            }
        },
    }
}

/// Checks a message layout and settles the message length. In this order:
/// the first overlapping pair of fields (in the order `(a, b)`, `a < b`, by
/// `a` then `b`) is refused; a length left at the default grows to the
/// largest field end; the first field that ends past the length is refused;
/// bits that no field covers are refused.
pub fn validate_fields(fields: &Vec<FieldInfo>, message_attributes: &mut MessageAttributes) -> (r:
    Result<(), LayoutError>)
    ensures
        validation_outcome(fields@, *old(message_attributes), *final(message_attributes), r),
{
    let n = fields.len();
    let mut i: usize = 0;
    while i < n
        invariant
            n == fields.len(),
            i <= n,
            no_overlap_before(fields@, i as int, 0),
            *message_attributes == *old(message_attributes),
        decreases n - i,
    {
        let mut j: usize = i + 1;
        while j < n
            invariant
                n == fields.len(),
                i < n,
                i + 1 <= j <= n,
                no_overlap_before(fields@, i as int, j as int),
                *message_attributes == *old(message_attributes),
            decreases n - j,
        {
            if fields[i].bit_end > fields[j].bit_start && fields[i].bit_start < fields[j].bit_end {
                return Err(LayoutError::Overlap { field: j, other: i });
            }
            j = j + 1;
        }
        i = i + 1;
    }
    let mut max_bit_used: usize = 0;
    let mut k: usize = 0;
    while k < n
        invariant
            n == fields.len(),
            k <= n,
            max_bit_used == max_bit_end(fields@.subrange(0, k as int)),
            *message_attributes == *old(message_attributes),
        decreases n - k,
    {
        assert(fields@.subrange(0, k + 1).drop_last() =~= fields@.subrange(0, k as int));
        if fields[k].bit_end > max_bit_used {
            max_bit_used = fields[k].bit_end;
        }
        k = k + 1;
    }
    assert(fields@.subrange(0, n as int) =~= fields@);
    if message_attributes.length == DEFAULT_MESSAGE_LENGTH && max_bit_used > 64 {
        message_attributes.length = #[verifier::truncate] (max_bit_used as u8);
    }
    let length = message_attributes.length;
    let mut m: usize = 0;
    while m < n
        invariant
            n == fields.len(),
            m <= n,
            forall|q: int| 0 <= q < m ==> #[trigger] fields@[q].bit_end <= length,
            message_attributes.length == length,
            no_overlap_before(fields@, n as int, 0),
            length == adjusted_length(fields@, old(message_attributes).length),
            message_attributes.pgn == old(message_attributes).pgn,
            message_attributes.priority == old(message_attributes).priority,
        decreases n - m,
    {
        if fields[m].bit_end > length as usize {
            return Err(LayoutError::BeyondLength { field: m, length });
        }
        m = m + 1;
    }
    validate_bit_coverage(fields, length as usize)
}

/// Inserting keeps every element and adds `x`.
proof fn lemma_insert_elements(sorted: Seq<(usize, usize)>, x: (usize, usize))
    ensures
        0 <= insertion_point(sorted, x) <= sorted.len(),
    decreases sorted.len(),
{
    if sorted.len() > 0 && sorted.last().0 > x.0 {
        lemma_insert_elements(sorted.drop_last(), x);
    }
}

/// Sorting keeps the number of ranges, and every sorted range is one of the
/// ranges given.
proof fn lemma_sorted_elements(ranges: Seq<(usize, usize)>)
    ensures
        sorted_by_start(ranges).len() == ranges.len(),
        forall|k: int|
            0 <= k < ranges.len() ==> exists|i: int|
                0 <= i < ranges.len() && ranges[i] == #[trigger] sorted_by_start(ranges)[k],
    decreases ranges.len(),
{
    if ranges.len() > 0 {
        let rest = ranges.drop_last();
        lemma_sorted_elements(rest);
        let sorted = sorted_by_start(rest);
        let x = ranges.last();
        lemma_insert_elements(sorted, x);
        let pos = insertion_point(sorted, x);
        let result = sorted.insert(pos, x);
        assert forall|k: int| 0 <= k < ranges.len() implies exists|i: int|
            0 <= i < ranges.len() && ranges[i] == #[trigger] result[k] by {
            if k < pos {
                assert(result[k] == sorted[k]);
                let i = choose|i: int| 0 <= i < rest.len() && rest[i] == #[trigger] sorted[k];
                assert(ranges[i] == rest[i]);
            } else if k == pos {
                assert(ranges[ranges.len() - 1] == result[k]);
            } else {
                assert(result[k] == sorted[k - 1]);
                let i = choose|i: int| 0 <= i < rest.len() && rest[i] == #[trigger] sorted[k - 1];
                assert(ranges[i] == rest[i]);
            }
        }
    }
}

/// A walk that found no gap covers every bit before the position it reached.
proof fn lemma_walk_covers(sorted: Seq<(usize, usize)>, n: nat, p: int)
    requires
        n <= sorted.len(),
        coverage_walk(sorted, n).0.len() == 0,
        0 <= p < coverage_walk(sorted, n).1,
    ensures
        exists|k: int| 0 <= k < n && #[trigger] sorted[k].0 <= p < sorted[k].1,
    decreases n,
{
    if n > 0 {
        let (gaps, pos) = coverage_walk(sorted, (n - 1) as nat);
        let (start, end) = sorted[n - 1];
        if pos < start {
            assert(coverage_walk(sorted, n).0.len() > 0);
        }
        assert(gaps.len() == 0);
        if p < pos {
            lemma_walk_covers(sorted, (n - 1) as nat, p);
            let k = choose|k: int| 0 <= k < n - 1 && #[trigger] sorted[k].0 <= p < sorted[k].1;
            assert(sorted[k].0 <= p < sorted[k].1);
        } else {
            assert(sorted[n - 1].0 <= p < sorted[n - 1].1);
        }
    }
}

/// A layout that `validate_fields` accepts covers every bit of the message
/// with exactly one field.
pub proof fn law_accepted_layout_covers_each_bit_once(fields: Seq<FieldInfo>, length: usize, p: int)
    requires
        no_overlap_before(fields, fields.len() as int, 0),
        uncovered_ranges(fields, length).len() == 0,
        0 <= p < length,
    ensures
        exists|i: int| 0 <= i < fields.len() && #[trigger] fields[i].bit_start <= p < fields[i].bit_end,
        forall|i: int, j: int|
            0 <= i < fields.len() && 0 <= j < fields.len() && #[trigger] fields[i].bit_start <= p
                < fields[i].bit_end && #[trigger] fields[j].bit_start <= p < fields[j].bit_end ==> i
                == j,
{
    let ranges = field_ranges(fields);
    let sorted = sorted_by_start(ranges);
    lemma_sorted_elements(ranges);
    let (gaps, pos) = coverage_walk(sorted, sorted.len());
    if pos < length {
        assert(uncovered_ranges(fields, length).len() > 0);
    }
    assert(gaps.len() == 0);
    lemma_walk_covers(sorted, sorted.len(), p);
    let k = choose|k: int| 0 <= k < sorted.len() && #[trigger] sorted[k].0 <= p < sorted[k].1;
    let i = choose|i: int| 0 <= i < ranges.len() && ranges[i] == #[trigger] sorted[k];
    assert(fields[i].bit_start <= p < fields[i].bit_end);
    assert forall|i: int, j: int|
        0 <= i < fields.len() && 0 <= j < fields.len() && #[trigger] fields[i].bit_start <= p
            < fields[i].bit_end && #[trigger] fields[j].bit_start <= p < fields[j].bit_end implies i
        == j by {
        if i < j {
            assert(!ranges_overlap(fields[i], fields[j]));
        } else if j < i {
            assert(!ranges_overlap(fields[j], fields[i]));
        }
    }
}

/// Bit `p` lies in the range `start..end`.
pub open spec fn range_covers(r: (usize, usize), p: int) -> bool {
    r.0 <= p < r.1
}

/// Some range of `s` holds bit `p`.
pub open spec fn some_range_covers(s: Seq<(usize, usize)>, p: int) -> bool {
    exists|k: int| 0 <= k < s.len() && #[trigger] range_covers(s[k], p)
}

/// Some field holds bit `p`.
pub open spec fn some_field_covers(fields: Seq<FieldInfo>, p: int) -> bool {
    exists|i: int| 0 <= i < fields.len() && #[trigger] fields[i].bit_start <= p < fields[i].bit_end
}

/// The ranges are in order of start.
pub open spec fn starts_sorted(s: Seq<(usize, usize)>) -> bool {
    forall|j: int, k: int| 0 <= j < k < s.len() ==> #[trigger] s[j].0 <= #[trigger] s[k].0
}

/// In ranges sorted by start, `x` goes after every range that starts at or
/// before it and before every range that starts after it.
proof fn lemma_insertion_point_splits(s: Seq<(usize, usize)>, x: (usize, usize))
    requires
        starts_sorted(s),
    ensures
        forall|k: int| 0 <= k < insertion_point(s, x) ==> #[trigger] s[k].0 <= x.0,
        forall|k: int| insertion_point(s, x) <= k < s.len() ==> #[trigger] s[k].0 > x.0,
    decreases s.len(),
{
    lemma_insert_elements(s, x);
    if s.len() > 0 {
        if s.last().0 <= x.0 {
            assert forall|k: int| 0 <= k < insertion_point(s, x) implies #[trigger] s[k].0
                <= x.0 by {
                if k < s.len() - 1 {
                    assert(s[k].0 <= s[s.len() - 1].0);
                }
            }
        } else {
            let rest = s.drop_last();
            assert(starts_sorted(rest)) by {
                assert forall|j: int, k: int| 0 <= j < k < rest.len() implies #[trigger] rest[j].0
                    <= #[trigger] rest[k].0 by {
                    assert(rest[j] == s[j] && rest[k] == s[k]);
                }
            }
            lemma_insertion_point_splits(rest, x);
            assert forall|k: int| 0 <= k < insertion_point(s, x) implies #[trigger] s[k].0
                <= x.0 by {
                assert(rest[k] == s[k]);
            }
            assert forall|k: int| insertion_point(s, x) <= k < s.len() implies #[trigger] s[k].0
                > x.0 by {
                if k < s.len() - 1 {
                    assert(rest[k] == s[k]);
                }
            }
        }
    }
}

/// Sorting puts the ranges in order of start.
proof fn lemma_sorted_order(ranges: Seq<(usize, usize)>)
    ensures
        starts_sorted(sorted_by_start(ranges)),
    decreases ranges.len(),
{
    if ranges.len() > 0 {
        let rest = ranges.drop_last();
        lemma_sorted_order(rest);
        let sorted = sorted_by_start(rest);
        let x = ranges.last();
        lemma_insert_elements(sorted, x);
        lemma_insertion_point_splits(sorted, x);
        let pos = insertion_point(sorted, x);
        let result = sorted.insert(pos, x);
        assert forall|j: int, k: int| 0 <= j < k < result.len() implies #[trigger] result[j].0
            <= #[trigger] result[k].0 by {
            if k < pos {
                assert(result[j] == sorted[j] && result[k] == sorted[k]);
            } else if k == pos {
                assert(result[j] == sorted[j]);
            } else if j < pos {
                assert(result[j] == sorted[j] && result[k] == sorted[k - 1]);
            } else if j == pos {
                assert(result[k] == sorted[k - 1]);
            } else {
                assert(result[j] == sorted[j - 1] && result[k] == sorted[k - 1]);
            }
        }
    }
}

/// Range `i` of the ranges given is among the sorted ones.
pub open spec fn kept_by_sort(ranges: Seq<(usize, usize)>, i: int) -> bool {
    exists|k: int|
        0 <= k < sorted_by_start(ranges).len() && ranges[i] == #[trigger] sorted_by_start(ranges)[k]
}

/// Every range given is among the sorted ones.
proof fn lemma_sorted_keeps_all(ranges: Seq<(usize, usize)>)
    ensures
        forall|i: int| 0 <= i < ranges.len() ==> #[trigger] kept_by_sort(ranges, i),
    decreases ranges.len(),
{
    if ranges.len() > 0 {
        let rest = ranges.drop_last();
        lemma_sorted_keeps_all(rest);
        let sorted = sorted_by_start(rest);
        let x = ranges.last();
        lemma_insert_elements(sorted, x);
        let pos = insertion_point(sorted, x);
        let result = sorted.insert(pos, x);
        assert(sorted_by_start(ranges) == result);
        assert forall|i: int| 0 <= i < ranges.len() implies #[trigger] kept_by_sort(ranges, i) by {
            if i == ranges.len() - 1 {
                assert(ranges[i] == result[pos]);
            } else {
                assert(rest[i] == ranges[i]);
                assert(kept_by_sort(rest, i));
                let k = choose|k: int| 0 <= k < sorted.len() && rest[i] == #[trigger] sorted[k];
                if k < pos {
                    assert(ranges[i] == result[k]);
                } else {
                    assert(ranges[i] == result[k + 1]);
                }
            }
        }
    }
}

/// Every range is non-empty and ends by `length`.
pub open spec fn ranges_nonempty_within(s: Seq<(usize, usize)>, length: int) -> bool {
    forall|k: int| 0 <= k < s.len() ==> #[trigger] range_nonempty_within(s[k], length)
}

/// The range is non-empty and ends by `length`.
pub open spec fn range_nonempty_within(r: (usize, usize), length: int) -> bool {
    r.0 < r.1 <= length
}

/// Any two ranges, the earlier first, are equal or the earlier ends before
/// the later starts.
pub open spec fn ranges_equal_or_apart(s: Seq<(usize, usize)>) -> bool {
    forall|j: int, k: int|
        0 <= j < k < s.len() ==> #[trigger] s[j] == #[trigger] s[k] || s[j].1 <= s[k].0
}

/// Every bit below `length` lies in some range.
pub open spec fn ranges_cover(s: Seq<(usize, usize)>, length: int) -> bool {
    forall|p: int| 0 <= p < length ==> #[trigger] some_range_covers(s, p)
}

/// The walk over ranges sorted by start, each non-empty, any two equal or
/// apart, that together cover every bit below `length`: it finds no gap, and
/// its position is the largest end met so far.
proof fn lemma_walk_without_gaps(s: Seq<(usize, usize)>, n: nat, length: int)
    requires
        n <= s.len(),
        starts_sorted(s),
        ranges_nonempty_within(s, length),
        ranges_equal_or_apart(s),
        ranges_cover(s, length),
    ensures
        coverage_walk(s, n).0.len() == 0,
        n == 0 ==> coverage_walk(s, n).1 == 0,
        n > 0 ==> coverage_walk(s, n).1 == s[n - 1].1,
        forall|j: int| 0 <= j < n ==> #[trigger] s[j].1 <= coverage_walk(s, n).1,
    decreases n,
{
    if n > 0 {
        let m = (n - 1) as nat;
        lemma_walk_without_gaps(s, m, length);
        let (gaps, pos) = coverage_walk(s, m);
        let (start, end) = s[m as int];
        assert(range_nonempty_within(s[m as int], length));
        if pos < start {
            let q = pos as int;
            assert(q < length);
            assert(some_range_covers(s, q));
            let j = choose|j: int| 0 <= j < s.len() && #[trigger] range_covers(s[j], q);
            if j < m {
                assert(s[j].1 <= pos);
            } else if j > m {
                assert(s[m as int].0 <= s[j].0);
            } else {
                assert(s[j].0 <= q);
            }
            if m == 0 {
                assert(s[0].0 <= s[j].0);
            }
        }
        assert forall|j: int| 0 <= j < n implies #[trigger] s[j].1 <= coverage_walk(s, n).1 by {
            if j < m {
                assert(range_nonempty_within(s[m as int], length));
                assert(s[j] == s[m as int] || s[j].1 <= s[m as int].0);
            }
        }
    }
}

/// A layout whose fields are non-empty, share no bit, end by `length`, and
/// together cover every bit below `length` has no uncovered bit range, so
/// `validate_fields` accepts it (for the length it settles on). A layout with
/// an empty field can be refused though it covers every bit, which is why
/// fields are asked to be non-empty here.
#[verifier::rlimit(40)]
pub proof fn law_covering_layout_has_no_gap(fields: Seq<FieldInfo>, length: usize)
    requires
        no_overlap_before(fields, fields.len() as int, 0),
        forall|i: int|
            0 <= i < fields.len() ==> #[trigger] fields[i].bit_start < fields[i].bit_end <= length,
        forall|p: int| 0 <= p < length ==> #[trigger] some_field_covers(fields, p),
    ensures
        uncovered_ranges(fields, length).len() == 0,
{
    let ranges = field_ranges(fields);
    let s = sorted_by_start(ranges);
    lemma_sorted_elements(ranges);
    lemma_sorted_order(ranges);
    lemma_sorted_keeps_all(ranges);
    assert forall|k: int| 0 <= k < s.len() implies #[trigger] range_nonempty_within(
        s[k],
        length as int,
    ) by {
        let i = choose|i: int| 0 <= i < ranges.len() && ranges[i] == #[trigger] s[k];
        assert(fields[i].bit_start < fields[i].bit_end);
    }
    assert forall|j: int, k: int| 0 <= j < k < s.len() implies #[trigger] s[j] == #[trigger] s[k]
        || s[j].1 <= s[k].0 by {
        let a = choose|a: int| 0 <= a < ranges.len() && ranges[a] == #[trigger] s[j];
        let b = choose|b: int| 0 <= b < ranges.len() && ranges[b] == #[trigger] s[k];
        assert(fields[a].bit_start < fields[a].bit_end);
        assert(fields[b].bit_start < fields[b].bit_end);
        assert(s[j].0 <= s[k].0);
        if a < b {
            assert(!ranges_overlap(fields[a], fields[b]));
        } else if b < a {
            assert(!ranges_overlap(fields[b], fields[a]));
        }
    }
    assert forall|p: int| 0 <= p < length implies #[trigger] some_range_covers(s, p) by {
        assert(some_field_covers(fields, p));
        let i = choose|i: int| 0 <= i < fields.len() && #[trigger] fields[i].bit_start <= p
            < fields[i].bit_end;
        assert(ranges[i] == (fields[i].bit_start, fields[i].bit_end));
        assert(kept_by_sort(ranges, i));
        let k = choose|k: int| 0 <= k < s.len() && ranges[i] == #[trigger] s[k];
        assert(range_covers(s[k], p));
    }
    lemma_walk_without_gaps(s, s.len(), length as int);
    let (gaps, pos) = coverage_walk(s, s.len());
    if pos < length {
        let q = pos as int;
        assert(some_range_covers(s, q));
        let j = choose|j: int| 0 <= j < s.len() && #[trigger] range_covers(s[j], q);
        assert(s[j].1 <= pos);
    }
}

/// The largest field end bounds every field end and, when there are
/// fields, is the end of one of them.
proof fn lemma_max_bit_end(fields: Seq<FieldInfo>)
    ensures
        forall|k: int| 0 <= k < fields.len() ==> #[trigger] fields[k].bit_end <= max_bit_end(fields),
        fields.len() > 0 ==> exists|k: int|
            0 <= k < fields.len() && #[trigger] fields[k].bit_end == max_bit_end(fields),
    decreases fields.len(),
{
    if fields.len() > 0 {
        let rest = fields.drop_last();
        lemma_max_bit_end(rest);
        assert forall|k: int| 0 <= k < fields.len() implies #[trigger] fields[k].bit_end
            <= max_bit_end(fields) by {
            if k < rest.len() {
                assert(rest[k] == fields[k]);
            }
        }
        if fields.last().bit_end as nat > max_bit_end(rest) || rest.len() == 0 {
            assert(fields[fields.len() - 1].bit_end == max_bit_end(fields));
        } else {
            let k = choose|k: int| 0 <= k < rest.len() && #[trigger] rest[k].bit_end == max_bit_end(
                rest,
            );
            assert(fields[k] == rest[k]);
        }
    }
}

/// The message length changes only when it was left at the default of 64
/// bits and some field ends past bit 64; it then becomes the end of the
/// field that ends last (as a `u8` holds it). An explicit length is kept,
/// and a layout with a field ending past it is refused with `BeyondLength`
/// at that length. An accepted layout ends within the final length.
pub proof fn law_explicit_length_is_kept(
    fields: Seq<FieldInfo>,
    before: MessageAttributes,
    after: MessageAttributes,
    r: Result<(), LayoutError>,
)
    requires
        validation_outcome(fields, before, after, r),
    ensures
        after.length != before.length ==> {
            &&& before.length == 64
            &&& exists|k: int|
                0 <= k < fields.len() && #[trigger] fields[k].bit_end > 64 && after.length
                    == fields[k].bit_end as u8 && forall|j: int|
                    0 <= j < fields.len() ==> #[trigger] fields[j].bit_end <= fields[k].bit_end
        },
        before.length != 64 && !(r matches Err(LayoutError::Overlap { .. })) && (exists|k: int|
            0 <= k < fields.len() && #[trigger] fields[k].bit_end > before.length) ==> (r matches Err(
            LayoutError::BeyondLength { field, length },
        ) && length == before.length && field < fields.len() && fields[field as int].bit_end
            > before.length),
        r is Ok ==> forall|k: int| 0 <= k < fields.len() ==> #[trigger] fields[k].bit_end
            <= after.length,
{
    lemma_max_bit_end(fields);
    if before.length != 64 && !(r matches Err(LayoutError::Overlap { .. })) && (exists|k: int|
        0 <= k < fields.len() && #[trigger] fields[k].bit_end > before.length) {
        let k = choose|k: int| 0 <= k < fields.len() && #[trigger] fields[k].bit_end > before.length;
        assert(fields[k].bit_end > adjusted_length(fields, before.length));
    }
}

} // verus!
