//! One parsed unit of a range expression, and the grammar that maps text to
//! a sequence of them.
use vstd::prelude::*;
use crate::text::{find_char, int_of, lemma_find_char_in_bounds, lemma_int_of_nonneg, lemma_trim_len, trim};

verus! {

/// One comma-separated token of a range expression.
///
/// The relative variants carry the digit count of their start token: the
/// number of low-order decimal digits that the value replaces in the maximum.
#[derive(Debug, Clone, Copy, PartialEq, Eq)]
pub enum RangeSpec {
    /// `start`, or `start..=end`.
    Include(i32, Option<i32>),
    /// Leaves out `start`, or `start..=end`.
    Exclude(i32, Option<i32>),
    /// `start..=max`.
    IncludeFrom(i32),
    /// Leaves out `start..=max`.
    ExcludeFrom(i32),
    /// `Include` with start and end anchored near the maximum.
    RelativeInclude(i32, Option<i32>, usize),
    /// `Exclude` with start and end anchored near the maximum.
    RelativeExclude(i32, Option<i32>, usize),
    /// `IncludeFrom` with the start anchored near the maximum.
    RelativeIncludeFrom(i32, usize),
    /// `ExcludeFrom` with the start anchored near the maximum.
    RelativeExcludeFrom(i32, usize),
}

/// The variant that a token with the given markers and a closed or single
/// form stands for.
pub open spec fn bounded_spec(
    relative: bool,
    exclude: bool,
    start: i32,
    end: Option<i32>,
    digits: usize,
) -> RangeSpec {
    if relative {
        if exclude {
            RangeSpec::RelativeExclude(start, end, digits)
        } else {
            RangeSpec::RelativeInclude(start, end, digits)
        }
    } else {
        if exclude {
            RangeSpec::Exclude(start, end)
        } else {
            RangeSpec::Include(start, end)
        }
    }
}

/// The variant that an open-ended token (`123-`) with the given markers
/// stands for.
pub open spec fn open_spec(relative: bool, exclude: bool, start: i32, digits: usize) -> RangeSpec {
    if relative {
        if exclude {
            RangeSpec::RelativeExcludeFrom(start, digits)
        } else {
            RangeSpec::RelativeIncludeFrom(start, digits)
        }
    } else {
        if exclude {
            RangeSpec::ExcludeFrom(start)
        } else {
            RangeSpec::IncludeFrom(start)
        }
    }
}

/// What one comma-separated segment parses to, or `None` where it is dropped.
///
/// The segment is trimmed; a leading `?` marks it relative, and then a
/// leading `^` marks it as an exclusion. The first `-` splits the rest into a
/// start and an end; an empty end makes the range open. Each number must be
/// a run of ASCII digits, without a sign, whose value fits in an `i32`; the
/// digit count is the number of digits of the start token, leading zeros
/// included.
pub open spec fn token_spec(t: Seq<char>) -> Option<RangeSpec> {
    let w = trim(t);
    let relative = w.len() > 0 && w[0] == '?';
    let a = if relative { w.drop_first() } else { w };
    let exclude = a.len() > 0 && a[0] == '^';
    let b = if exclude { a.drop_first() } else { a };
    body_spec(relative, exclude, b)
}

/// What the rest of a segment, after its markers, parses to.
pub open spec fn body_spec(relative: bool, exclude: bool, b: Seq<char>) -> Option<RangeSpec> {
    match find_char(b, '-') {
        Some(p) => {
            let head = b.take(p);
            let tail = b.skip(p + 1);
            match int_of(head) {
                None => None,
                Some(start) => if tail.len() == 0 {
                    Some(open_spec(relative, exclude, start, head.len() as usize))
                } else {
                    match int_of(tail) {
                        None => None,
                        Some(end) => Some(
                            bounded_spec(relative, exclude, start, Some(end), head.len() as usize),
                        ),
                    }
                },
            }
        },
        None => match int_of(b) {
            None => None,
            Some(v) => Some(bounded_spec(relative, exclude, v, None, b.len() as usize)),
        },
    }
}

/// The specification list that `token_spec` yields for a segment: one
/// element or none.
pub open spec fn token_specs(t: Seq<char>) -> Seq<RangeSpec> {
    match token_spec(t) {
        Some(r) => seq![r],
        None => Seq::empty(),
    }
}

/// The specifications that the text `s` parses to: its comma-separated
/// segments, left to right, each through `token_spec`.
pub open spec fn specs_of_text(s: Seq<char>) -> Seq<RangeSpec>
    decreases s.len(),
    via specs_of_text_decreases
{
    match find_char(s, ',') {
        Some(i) => token_specs(s.take(i)) + specs_of_text(s.skip(i + 1)),
        None => token_specs(s),
    }
}

#[via_fn]
proof fn specs_of_text_decreases(s: Seq<char>) {
    lemma_find_char_in_bounds(s, ',');
}

/// Whether the numbers of `r` are non-negative and, where `r` is relative,
/// its digit count is at least one: what every parsed specification meets.
pub open spec fn well_formed(r: RangeSpec) -> bool {
    match r {
        RangeSpec::Include(s, e) | RangeSpec::Exclude(s, e) => s >= 0 && (e matches Some(x) ==> x
            >= 0),
        RangeSpec::IncludeFrom(s) | RangeSpec::ExcludeFrom(s) => s >= 0,
        RangeSpec::RelativeInclude(s, e, d) | RangeSpec::RelativeExclude(s, e, d) => s >= 0 && (e matches Some(
            x,
        ) ==> x >= 0) && d >= 1,
        RangeSpec::RelativeIncludeFrom(s, d) | RangeSpec::RelativeExcludeFrom(s, d) => s >= 0 && d
            >= 1,
    }
}

proof fn lemma_body_spec_well_formed(relative: bool, exclude: bool, b: Seq<char>)
    requires
        b.len() <= usize::MAX,
    ensures
        body_spec(relative, exclude, b) matches Some(r) ==> well_formed(r),
{
    lemma_find_char_in_bounds(b, '-');
    match find_char(b, '-') {
        Some(p) => {
            lemma_int_of_nonneg(b.take(p));
            lemma_int_of_nonneg(b.skip(p + 1));
        },
        None => {
            lemma_int_of_nonneg(b);
        },
    }
}

/// Every specification that `specs_of_text` yields from a text that fits in
/// memory is well formed.
pub proof fn lemma_specs_of_text_well_formed(s: Seq<char>)
    requires
        s.len() <= usize::MAX,
    ensures
        forall|i: int| 0 <= i < specs_of_text(s).len() ==> well_formed(#[trigger] specs_of_text(s)[i]),
    decreases s.len(),
{
    lemma_find_char_in_bounds(s, ',');
    match find_char(s, ',') {
        Some(i) => {
            let t = trim(s.take(i));
            lemma_trim_len(s.take(i));
            let rel = t.len() > 0 && t[0] == '?';
            let a = if rel { t.drop_first() } else { t };
            let exc = a.len() > 0 && a[0] == '^';
            lemma_body_spec_well_formed(rel, exc, if exc { a.drop_first() } else { a });
            lemma_specs_of_text_well_formed(s.skip(i + 1));
            let head = token_specs(s.take(i));
            let tail = specs_of_text(s.skip(i + 1));
            assert forall|k: int| 0 <= k < specs_of_text(s).len() implies well_formed(
                #[trigger] specs_of_text(s)[k],
            ) by {
                if k >= head.len() {
                    assert(specs_of_text(s)[k] == tail[k - head.len()]);
                }
            }
        },
        None => {
            let t = trim(s);
            lemma_trim_len(s);
            let rel = t.len() > 0 && t[0] == '?';
            let a = if rel { t.drop_first() } else { t };
            let exc = a.len() > 0 && a[0] == '^';
            lemma_body_spec_well_formed(rel, exc, if exc { a.drop_first() } else { a });
        },
    }
}

} // verus!
