//! The lenient parser: text in, specifications out, malformed tokens dropped.
use vstd::prelude::*;
use crate::range_spec::{body_spec, bounded_spec, lemma_specs_of_text_well_formed, well_formed, open_spec, specs_of_text, token_spec, token_specs, RangeSpec};
use crate::text::{chars_of, find_char, find_in, int_in, lemma_find_char, trimmed_bounds};

verus! {

fn make_bounded(relative: bool, exclude: bool, start: i32, end: Option<i32>, digits: usize) -> (r:
    RangeSpec)
    ensures
        r == bounded_spec(relative, exclude, start, end, digits),
{
    match (relative, exclude) {
        (true, true) => RangeSpec::RelativeExclude(start, end, digits),
        (true, false) => RangeSpec::RelativeInclude(start, end, digits),
        (false, true) => RangeSpec::Exclude(start, end),
        (false, false) => RangeSpec::Include(start, end),
    }
}

fn make_open(relative: bool, exclude: bool, start: i32, digits: usize) -> (r: RangeSpec)
    ensures
        r == open_spec(relative, exclude, start, digits),
{
    match (relative, exclude) {
        (true, true) => RangeSpec::RelativeExcludeFrom(start, digits),
        (true, false) => RangeSpec::RelativeIncludeFrom(start, digits),
        (false, true) => RangeSpec::ExcludeFrom(start),
        (false, false) => RangeSpec::IncludeFrom(start),
    }
}

/// Parses `chars[q..hi]`, a segment without its markers.
fn parse_body(chars: &Vec<char>, q: usize, hi: usize, relative: bool, exclude: bool) -> (r: Option<
    RangeSpec,
>)
    requires
        q <= hi <= chars@.len(),
    ensures
        r == body_spec(relative, exclude, chars@.subrange(q as int, hi as int)),
{
    let ghost body = chars@.subrange(q as int, hi as int);
    match find_in(chars, q, hi, '-') {
        Some(d) => {
            assert(body.take(d - q) =~= chars@.subrange(q as int, d as int));
            assert(body.skip(d - q + 1) =~= chars@.subrange(d + 1, hi as int));
            match int_in(chars, q, d) {
                None => None,
                Some(start) => {
                    if d + 1 == hi {
                        Some(make_open(relative, exclude, start, d - q))
                    } else {
                        match int_in(chars, d + 1, hi) {
                            None => None,
                            Some(end) => Some(
                                make_bounded(relative, exclude, start, Some(end), d - q),
                            ),
                        }
                    }
                },
            }
        },
        None => match int_in(chars, q, hi) {
            None => None,
            Some(v) => Some(make_bounded(relative, exclude, v, None, hi - q)),
        },
    }
}

/// Parses the segment `chars[a..b]`, or returns `None` where it is dropped.
fn parse_segment(chars: &Vec<char>, a: usize, b: usize) -> (r: Option<RangeSpec>)
    requires
        a <= b <= chars@.len(),
    ensures
        r == token_spec(chars@.subrange(a as int, b as int)),
{
    let (lo, hi) = trimmed_bounds(chars, a, b);
    let ghost w = chars@.subrange(lo as int, hi as int);
    let relative = lo < hi && chars[lo] == '?';
    let p = if relative { lo + 1 } else { lo };
    let ghost after_mark = if relative { w.drop_first() } else { w };
    assert(after_mark =~= chars@.subrange(p as int, hi as int));
    let exclude = p < hi && chars[p] == '^';
    let q = if exclude { p + 1 } else { p };
    let ghost body = if exclude { after_mark.drop_first() } else { after_mark };
    assert(body =~= chars@.subrange(q as int, hi as int));
    parse_body(chars, q, hi, relative, exclude)
}

/// Parses a range expression into its specifications, in the order of the
/// comma-separated segments. A segment that is empty after trimming, or
/// that does not follow the grammar, is dropped; parsing never fails.
pub fn parse_range_specifications(input: &str) -> (r: Vec<RangeSpec>)
    ensures
        r@ == specs_of_text(input@),
        forall|i: int| 0 <= i < r@.len() ==> well_formed(#[trigger] r@[i]),
{
    let chars = chars_of(input);
    let n = chars.len();
    proof {
        lemma_specs_of_text_well_formed(input@);
    }
    let mut specs: Vec<RangeSpec> = Vec::new();
    let mut seg: usize = 0;
    let mut i: usize = 0;
    assert(chars@.skip(0) =~= chars@);
    assert(specs@ + specs_of_text(chars@) =~= specs_of_text(chars@));
    while i < n
        invariant
            n == chars@.len(),
            chars@ == input@,
            seg <= i <= n,
            specs_of_text(chars@) == specs@ + specs_of_text(chars@.skip(seg as int)),
            forall|k: int| seg <= k < i ==> chars@[k] != ',',
        decreases n - i,
    {
        if chars[i] == ',' {
            let ghost rest = chars@.skip(seg as int);
            proof {
                lemma_find_char(rest, ',', i - seg);
                assert(rest.take(i - seg) =~= chars@.subrange(seg as int, i as int));
                assert(rest.skip(i - seg + 1) =~= chars@.skip(i + 1));
            }
            let found = parse_segment(&chars, seg, i);
            let ghost before = specs@;
            match found {
                Some(r) => specs.push(r),
                None => {},
            }
            assert(specs@ =~= before + token_specs(chars@.subrange(seg as int, i as int)));
            assert(specs_of_text(chars@) =~= specs@ + specs_of_text(chars@.skip(i + 1)));
            seg = i + 1;
        }
        i = i + 1;
    }
    let ghost rest = chars@.skip(seg as int);
    proof {
        lemma_find_char(rest, ',', rest.len() as int);
        assert(rest =~= chars@.subrange(seg as int, n as int));
    }
    let found = parse_segment(&chars, seg, n);
    let ghost before = specs@;
    match found {
        Some(r) => specs.push(r),
        None => {},
    }
    assert(specs@ =~= before + token_specs(rest));
    specs
}

} // verus!
