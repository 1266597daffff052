//! Resolution of specifications against a maximum: relative anchoring, and
//! the inclusion/exclusion algebra that yields the final ascending numbers.
use vstd::prelude::*;
use crate::range_spec::RangeSpec;

verus! {

/// Ten to the power `d`.
pub open spec fn pow10(d: nat) -> int
    decreases d,
{
    if d == 0 {
        1
    } else {
        10 * pow10((d - 1) as nat)
    }
}

/// The absolute number that the relative number `rel`, written with
/// `digits` digits, stands for under the maximum `max`.
///
/// With no maximum (`max <= 0`) the number is taken as it is. Otherwise the
/// low `digits` decimal digits of `max` are replaced by `rel`; where that
/// passes `max`, the previous digit group is used, and where that group would
/// be negative the number is again taken as it is.
pub open spec fn anchored(rel: int, digits: nat, max: int) -> int {
    if max <= 0 {
        rel
    } else {
        let divisor = pow10(digits);
        let base = (max / divisor) * divisor;
        let candidate = base + rel;
        if candidate > max {
            if base - divisor >= 0 {
                base - divisor + rel
            } else {
                rel
            }
        } else {
            candidate
        }
    }
}

/// The inclusive interval `(lo, hi)` of numbers that `r` names under the
/// maximum `max` (empty where `hi < lo`).
pub open spec fn span_of(r: RangeSpec, max: int) -> (int, int) {
    match r {
        RangeSpec::Include(s, None) => (s as int, s as int),
        RangeSpec::Exclude(s, None) => (s as int, s as int),
        RangeSpec::Include(s, Some(e)) => (s as int, e as int),
        RangeSpec::Exclude(s, Some(e)) => (s as int, e as int),
        RangeSpec::IncludeFrom(s) => (s as int, max),
        RangeSpec::ExcludeFrom(s) => (s as int, max),
        RangeSpec::RelativeInclude(s, None, d) => (
            anchored(s as int, d as nat, max),
            anchored(s as int, d as nat, max),
        ),
        RangeSpec::RelativeExclude(s, None, d) => (
            anchored(s as int, d as nat, max),
            anchored(s as int, d as nat, max),
        ),
        RangeSpec::RelativeInclude(s, Some(e), d) => (
            anchored(s as int, d as nat, max),
            anchored(e as int, d as nat, max),
        ),
        RangeSpec::RelativeExclude(s, Some(e), d) => (
            anchored(s as int, d as nat, max),
            anchored(e as int, d as nat, max),
        ),
        RangeSpec::RelativeIncludeFrom(s, d) => (anchored(s as int, d as nat, max), max),
        RangeSpec::RelativeExcludeFrom(s, d) => (anchored(s as int, d as nat, max), max),
    }
}

/// Whether `r` adds numbers (as opposed to taking them away).
pub open spec fn adds(r: RangeSpec) -> bool {
    match r {
        RangeSpec::Include(..) | RangeSpec::IncludeFrom(..) | RangeSpec::RelativeInclude(..)
        | RangeSpec::RelativeIncludeFrom(..) => true,
        _ => false,
    }
}

/// Whether `r` depends on the maximum: an open range or a relative number.
pub open spec fn reads_max(r: RangeSpec) -> bool {
    match r {
        RangeSpec::Include(..) | RangeSpec::Exclude(..) => false,
        _ => true,
    }
}

/// Whether `x` lies in the interval that `r` names under `max`.
pub open spec fn covers(r: RangeSpec, max: int, x: int) -> bool {
    span_of(r, max).0 <= x <= span_of(r, max).1
}

/// Whether some adding specification of `specs` covers `x`.
pub open spec fn included(specs: Seq<RangeSpec>, max: int, x: int) -> bool {
    exists|i: int| 0 <= i < specs.len() && adds(specs[i]) && #[trigger] covers(specs[i], max, x)
}

/// Whether some removing specification of `specs` covers `x`.
pub open spec fn excluded(specs: Seq<RangeSpec>, max: int, x: int) -> bool {
    exists|i: int| 0 <= i < specs.len() && !adds(specs[i]) && #[trigger] covers(specs[i], max, x)
}

/// Whether `x` is in the result: included and not excluded.
pub open spec fn selected(specs: Seq<RangeSpec>, max: int, x: int) -> bool {
    included(specs, max, x) && !excluded(specs, max, x)
}

/// The selected `i32` values from `lo` upward, in ascending order.
pub open spec fn selected_from(specs: Seq<RangeSpec>, max: int, lo: int) -> Seq<i32>
    decreases i32::MAX + 1 - lo,
{
    if lo > i32::MAX || lo < i32::MIN {
        Seq::empty()
    } else {
        let rest = selected_from(specs, max, lo + 1);
        if selected(specs, max, lo) {
            seq![lo as i32].add(rest)
        } else {
            rest
        }
    }
}

/// The result of resolving `specs` under `max`: every selected `i32`, in
/// ascending order.
pub open spec fn resolved(specs: Seq<RangeSpec>, max: int) -> Seq<i32> {
    selected_from(specs, max, i32::MIN as int)
}

/// Whether `s` is strictly ascending.
pub open spec fn strictly_ascending(s: Seq<i32>) -> bool {
    forall|i: int, j: int| 0 <= i < j < s.len() ==> s[i] < s[j]
}

/// Whether any of `specs` depends on the maximum.
pub open spec fn needs_max(specs: Seq<RangeSpec>) -> bool {
    exists|i: int| 0 <= i < specs.len() && #[trigger] reads_max(specs[i])
}

proof fn lemma_selected_from_shape(specs: Seq<RangeSpec>, max: int, lo: int)
    requires
        i32::MIN <= lo,
    ensures
        strictly_ascending(selected_from(specs, max, lo)),
        forall|i: int|
            0 <= i < selected_from(specs, max, lo).len() ==> lo <= #[trigger] selected_from(
                specs,
                max,
                lo,
            )[i],
        forall|x: i32|
            selected_from(specs, max, lo).contains(x) <==> (lo <= x && selected(
                specs,
                max,
                x as int,
            )),
    decreases i32::MAX + 1 - lo,
{
    if lo <= i32::MAX {
        lemma_selected_from_shape(specs, max, lo + 1);
        let rest = selected_from(specs, max, lo + 1);
        let all = selected_from(specs, max, lo);
        if selected(specs, max, lo) {
            assert(all == seq![lo as i32].add(rest));
            assert forall|x: i32| all.contains(x) <==> (lo <= x && selected(specs, max, x as int)) by {
                if x == lo {
                    assert(all[0] == x);
                } else if all.contains(x) {
                    let k = choose|k: int| 0 <= k < all.len() && all[k] == x;
                    assert(rest[k - 1] == x);
                } else if lo + 1 <= x && selected(specs, max, x as int) {
                    let k = choose|k: int| 0 <= k < rest.len() && rest[k] == x;
                    assert(all[k + 1] == x);
                }
            }
        } else {
            assert forall|x: i32| all.contains(x) <==> (lo <= x && selected(specs, max, x as int)) by {
                if x == lo {
                    assert(!rest.contains(x));
                }
            }
        }
    }
}

proof fn lemma_selected_from_skip(specs: Seq<RangeSpec>, max: int, a: int, b: int)
    requires
        i32::MIN <= a <= b <= i32::MAX + 1,
        forall|y: int| a <= y < b ==> !selected(specs, max, y),
    ensures
        selected_from(specs, max, a) == selected_from(specs, max, b),
    decreases b - a,
{
    if a < b {
        lemma_selected_from_skip(specs, max, a + 1, b);
    }
}

proof fn lemma_selected_from_same(
    specs1: Seq<RangeSpec>,
    max1: int,
    specs2: Seq<RangeSpec>,
    max2: int,
    lo: int,
)
    requires
        forall|x: int| selected(specs1, max1, x) == selected(specs2, max2, x),
    ensures
        selected_from(specs1, max1, lo) == selected_from(specs2, max2, lo),
    decreases i32::MAX + 1 - lo,
{
    if i32::MIN <= lo <= i32::MAX {
        lemma_selected_from_same(specs1, max1, specs2, max2, lo + 1);
    }
}


proof fn lemma_pow10_large(d: nat)
    requires
        d >= 10,
    ensures
        pow10(d) > i32::MAX,
    decreases d,
{
    if d == 10 {
        reveal_with_fuel(pow10, 11);
    } else {
        lemma_pow10_large((d - 1) as nat);
    }
}

/// The resolved numbers are strictly ascending, hence free of repetition,
/// and they are exactly the selected `i32` values.
pub proof fn lemma_resolved_ascending(specs: Seq<RangeSpec>, max: int)
    ensures
        strictly_ascending(resolved(specs, max)),
        forall|x: i32| resolved(specs, max).contains(x) <==> selected(specs, max, x as int),
{
    lemma_selected_from_shape(specs, max, i32::MIN as int);
}

/// Resolving no specifications gives no numbers, whatever the maximum.
pub proof fn lemma_resolved_empty(max: int)
    ensures
        resolved(Seq::<RangeSpec>::empty(), max) == Seq::<i32>::empty(),
{
    lemma_selected_from_skip(Seq::empty(), max, i32::MIN as int, i32::MAX + 1);
}

/// Where no specification is open-ended or relative, the maximum has no
/// effect on the result.
pub proof fn lemma_resolved_ignores_max(specs: Seq<RangeSpec>, max1: int, max2: int)
    requires
        !needs_max(specs),
    ensures
        resolved(specs, max1) == resolved(specs, max2),
{
    assert forall|i: int, x: int| 0 <= i < specs.len() implies covers(specs[i], max1, x)
        == covers(specs[i], max2, x) by {
        assert(!reads_max(specs[i]));
    }
    assert forall|x: int| selected(specs, max1, x) == selected(specs, max2, x) by {
        if included(specs, max1, x) {
            let i = choose|i: int| 0 <= i < specs.len() && adds(specs[i]) && covers(specs[i], max1, x);
            assert(covers(specs[i], max2, x));
        }
        if included(specs, max2, x) {
            let i = choose|i: int| 0 <= i < specs.len() && adds(specs[i]) && covers(specs[i], max2, x);
            assert(covers(specs[i], max1, x));
        }
        if excluded(specs, max1, x) {
            let i = choose|i: int| 0 <= i < specs.len() && !adds(specs[i]) && covers(specs[i], max1, x);
            assert(covers(specs[i], max2, x));
        }
        if excluded(specs, max2, x) {
            let i = choose|i: int| 0 <= i < specs.len() && !adds(specs[i]) && covers(specs[i], max2, x);
            assert(covers(specs[i], max1, x));
        }
    }
    lemma_selected_from_same(specs, max1, specs, max2, i32::MIN as int);
}

proof fn lemma_member_moves(specs1: Seq<RangeSpec>, specs2: Seq<RangeSpec>, i: int)
    requires
        specs1.to_multiset() == specs2.to_multiset(),
        0 <= i < specs1.len(),
    ensures
        exists|j: int| 0 <= j < specs2.len() && specs2[j] == specs1[i],
{
    vstd::seq_lib::to_multiset_contains(specs1, specs1[i]);
    vstd::seq_lib::to_multiset_contains(specs2, specs1[i]);
    assert(specs1.contains(specs1[i]));
}

proof fn lemma_selected_moves(specs1: Seq<RangeSpec>, specs2: Seq<RangeSpec>, max: int, x: int)
    requires
        specs1.to_multiset() == specs2.to_multiset(),
    ensures
        included(specs1, max, x) ==> included(specs2, max, x),
        excluded(specs1, max, x) ==> excluded(specs2, max, x),
{
    if included(specs1, max, x) {
        let i = choose|i: int| 0 <= i < specs1.len() && adds(specs1[i]) && covers(specs1[i], max, x);
        lemma_member_moves(specs1, specs2, i);
        let j = choose|j: int| 0 <= j < specs2.len() && specs2[j] == specs1[i];
        assert(covers(specs2[j], max, x));
    }
    if excluded(specs1, max, x) {
        let i = choose|i: int| 0 <= i < specs1.len() && !adds(specs1[i]) && covers(specs1[i], max, x);
        lemma_member_moves(specs1, specs2, i);
        let j = choose|j: int| 0 <= j < specs2.len() && specs2[j] == specs1[i];
        assert(covers(specs2[j], max, x));
    }
}

/// The order of the specifications does not matter: any rearrangement of
/// them resolves to the same numbers.
pub proof fn lemma_resolved_order_independent(specs1: Seq<RangeSpec>, specs2: Seq<RangeSpec>, max: int)
    requires
        specs1.to_multiset() == specs2.to_multiset(),
    ensures
        resolved(specs1, max) == resolved(specs2, max),
{
    assert forall|x: int| selected(specs1, max, x) == selected(specs2, max, x) by {
        lemma_selected_moves(specs1, specs2, max, x);
        lemma_selected_moves(specs2, specs1, max, x);
    }
    lemma_selected_from_same(specs1, max, specs2, max, i32::MIN as int);
}

/// Ten to the power `d`, for the digit counts whose power fits below `i32::MAX`.
fn power_of_ten(d: usize) -> (r: i64)
    requires
        d <= 9,
    ensures
        r == pow10(d as nat),
        1 <= r <= 1000000000,
{
    proof {
        reveal_with_fuel(pow10, 10);
    }
    match d {
        0 => 1,
        1 => 10,
        2 => 100,
        3 => 1000,
        4 => 10000,
        5 => 100000,
        6 => 1000000,
        7 => 10000000,
        8 => 100000000,
        _ => 1000000000,
    }
}

/// The absolute number that `relative`, written with `digits` digits, stands
/// for under the maximum `max`; see `anchored`. The result is an `i64`: an
/// end token with more digits than its start can land past `i32::MAX`.
pub fn relative_to_absolute(relative: i32, digits: usize, max: i32) -> (r: i64)
    ensures
        r == anchored(relative as int, digits as nat, max as int),
{
    if max <= 0 {
        return relative as i64;
    }
    if digits >= 10 {
        proof {
            lemma_pow10_large(digits as nat);
            let divisor = pow10(digits as nat);
            vstd::arithmetic::div_mod::lemma_basic_div(max as int, divisor);
        }
        return relative as i64;
    }
    let divisor = power_of_ten(digits);
    let m = max as i64;
    proof {
        vstd::arithmetic::div_mod::lemma_fundamental_div_mod(m as int, divisor as int);
        vstd::arithmetic::div_mod::lemma_mod_pos_bound(m as int, divisor as int);
        vstd::arithmetic::div_mod::lemma_div_pos_is_pos(m as int, divisor as int);
        vstd::arithmetic::mul::lemma_mul_is_commutative(m as int / divisor as int, divisor as int);
        assert(0 <= (m as int / divisor as int) * divisor as int) by (nonlinear_arith)
            requires
                0 <= m as int / divisor as int,
                0 < divisor,
        ;
    }
    let base = (m / divisor) * divisor;
    let candidate = base + relative as i64;
    if candidate > m {
        let prev = base - divisor;
        if prev >= 0 {
            prev + relative as i64
        } else {
            relative as i64
        }
    } else {
        candidate
    }
}

/// The interval of `r` under `max`, as `span_of` gives it.
fn span_bounds(r: RangeSpec, max: i32) -> (b: (i64, i64))
    ensures
        b.0 == span_of(r, max as int).0,
        b.1 == span_of(r, max as int).1,
{
    match r {
        RangeSpec::Include(s, None) | RangeSpec::Exclude(s, None) => (s as i64, s as i64),
        RangeSpec::Include(s, Some(e)) | RangeSpec::Exclude(s, Some(e)) => (s as i64, e as i64),
        RangeSpec::IncludeFrom(s) | RangeSpec::ExcludeFrom(s) => (s as i64, max as i64),
        RangeSpec::RelativeInclude(s, None, d) | RangeSpec::RelativeExclude(s, None, d) => {
            let a = relative_to_absolute(s, d, max);
            (a, a)
        },
        RangeSpec::RelativeInclude(s, Some(e), d) | RangeSpec::RelativeExclude(s, Some(e), d) => {
            (relative_to_absolute(s, d, max), relative_to_absolute(e, d, max))
        },
        RangeSpec::RelativeIncludeFrom(s, d) | RangeSpec::RelativeExcludeFrom(s, d) => {
            (relative_to_absolute(s, d, max), max as i64)
        },
    }
}

fn spec_adds(r: RangeSpec) -> (b: bool)
    ensures
        b == adds(r),
{
    match r {
        RangeSpec::Include(..) | RangeSpec::IncludeFrom(..) | RangeSpec::RelativeInclude(..)
        | RangeSpec::RelativeIncludeFrom(..) => true,
        _ => false,
    }
}

/// Whether `spans` holds, for each of `specs`, its interval under `max` and
/// whether it adds.
pub open spec fn spans_match(spans: Seq<(i64, i64, bool)>, specs: Seq<RangeSpec>, max: int) -> bool {
    &&& spans.len() == specs.len()
    &&& forall|k: int|
        0 <= k < spans.len() ==> {
            &&& (#[trigger] spans[k]).0 == span_of(specs[k], max).0
            &&& spans[k].1 == span_of(specs[k], max).1
            &&& spans[k].2 == adds(specs[k])
        }
}

fn spans_of(specs: &Vec<RangeSpec>, max: i32) -> (spans: Vec<(i64, i64, bool)>)
    ensures
        spans_match(spans@, specs@, max as int),
{
    let mut spans: Vec<(i64, i64, bool)> = Vec::new();
    let mut k: usize = 0;
    while k < specs.len()
        invariant
            k <= specs@.len(),
            spans@.len() == k,
            forall|j: int|
                0 <= j < k ==> {
                    &&& (#[trigger] spans@[j]).0 == span_of(specs@[j], max as int).0
                    &&& spans@[j].1 == span_of(specs@[j], max as int).1
                    &&& spans@[j].2 == adds(specs@[j])
                },
        decreases specs@.len() - k,
    {
        let b = span_bounds(specs[k], max);
        spans.push((b.0, b.1, spec_adds(specs[k])));
        k = k + 1;
    }
    spans
}

/// The least included number in `cur..=i32::MAX`, if there is one.
fn next_included(spans: &Vec<(i64, i64, bool)>, cur: i64, Ghost(specs): Ghost<Seq<RangeSpec>>, Ghost(max): Ghost<int>) -> (r: Option<i64>)
    requires
        spans_match(spans@, specs, max),
        i32::MIN <= cur <= i32::MAX,
    ensures
        match r {
            Some(x) => {
                &&& cur <= x <= i32::MAX
                &&& included(specs, max, x as int)
                &&& forall|y: int| cur <= y < x ==> !included(specs, max, y)
            },
            None => forall|y: int| cur <= y <= i32::MAX ==> !included(specs, max, y),
        },
{
    let mut best: Option<i64> = None;
    let ghost mut witness: int = 0;
    let mut k: usize = 0;
    while k < spans.len()
        invariant
            spans_match(spans@, specs, max),
            i32::MIN <= cur <= i32::MAX,
            k <= spans@.len(),
            best matches Some(x) ==> {
                &&& cur <= x <= i32::MAX
                &&& 0 <= witness < specs.len()
                &&& adds(specs[witness])
                &&& covers(specs[witness], max, x as int)
            },
            forall|j: int, y: int|
                0 <= j < k && adds(specs[j]) && cur <= y <= i32::MAX && #[trigger] covers(specs[j], max, y)
                    ==> (best matches Some(x) && x <= y),
        decreases spans@.len() - k,
    {
        let (lo, hi, add) = spans[k];
        assert(spans@[k as int].0 == lo);
        if add {
            let cand = if lo < cur { cur } else { lo };
            if cand <= hi && cand <= i32::MAX as i64 {
                let better = match best {
                    Some(x) => cand < x,
                    None => true,
                };
                if better {
                    best = Some(cand);
                    proof {
                        witness = k as int;
                    }
                }
            }
        }
        k = k + 1;
    }
    match best {
        Some(x) => {
            assert(covers(specs[witness], max, x as int));
        },
        None => {},
    }
    best
}

/// Whether some removing interval of `spans` covers `x`.
fn is_excluded(spans: &Vec<(i64, i64, bool)>, x: i64, Ghost(specs): Ghost<Seq<RangeSpec>>, Ghost(max): Ghost<int>) -> (r: bool)
    requires
        spans_match(spans@, specs, max),
    ensures
        r == excluded(specs, max, x as int),
{
    let mut k: usize = 0;
    while k < spans.len()
        invariant
            spans_match(spans@, specs, max),
            k <= spans@.len(),
            forall|j: int| 0 <= j < k && !adds(specs[j]) ==> !#[trigger] covers(specs[j], max, x as int),
        decreases spans@.len() - k,
    {
        let (lo, hi, add) = spans[k];
        assert(spans@[k as int].0 == lo);
        if !add && lo <= x && x <= hi {
            assert(covers(specs[k as int], max, x as int));
            return true;
        }
        k = k + 1;
    }
    false
}

/// Resolves `specs` under the maximum `max_post_number`: the numbers that
/// some including specification names and no excluding one does, ascending
/// and without repetition. Only `i32` values are numbers here: the part of
/// an interval outside that range contributes nothing.
pub fn calculate_post_numbers(specs: Vec<RangeSpec>, max_post_number: i32) -> (r: Vec<i32>)
    ensures
        r@ == resolved(specs@, max_post_number as int),
        strictly_ascending(r@),
        forall|x: i32| r@.contains(x) <==> selected(specs@, max_post_number as int, x as int),
        specs@.len() == 0 ==> r@.len() == 0,
{
    let ghost max = max_post_number as int;
    let spans = spans_of(&specs, max_post_number);
    let mut out: Vec<i32> = Vec::new();
    let mut cur: i64 = i32::MIN as i64;
    while cur <= i32::MAX as i64
        invariant
            spans_match(spans@, specs@, max),
            i32::MIN <= cur <= i32::MAX + 1,
            resolved(specs@, max) == out@ + selected_from(specs@, max, cur as int),
        decreases i32::MAX + 1 - cur,
    {
        match next_included(&spans, cur, Ghost(specs@), Ghost(max)) {
            None => {
                proof {
                    lemma_selected_from_skip(specs@, max, cur as int, i32::MAX + 1);
                }
                cur = i32::MAX as i64 + 1;
            },
            Some(x) => {
                proof {
                    lemma_selected_from_skip(specs@, max, cur as int, x as int);
                }
                let ghost before = out@;
                if !is_excluded(&spans, x, Ghost(specs@), Ghost(max)) {
                    out.push(x as i32);
                }
                assert(resolved(specs@, max) == out@ + selected_from(specs@, max, x + 1)) by {
                    assert(out@ + selected_from(specs@, max, x + 1) =~= before + selected_from(specs@, max, x as int));
                }
                cur = x + 1;
            },
        }
    }
    proof {
        assert(out@ + selected_from(specs@, max, cur as int) =~= out@);
        lemma_selected_from_shape(specs@, max, i32::MIN as int);
        if specs@.len() == 0 {
            lemma_selected_from_skip(specs@, max, i32::MIN as int, i32::MAX + 1);
        }
    }
    out
}

/// Whether any of `specs` needs the maximum to be resolved: an open range or
/// a relative number.
pub fn needs_upper_bound(specs: &Vec<RangeSpec>) -> (r: bool)
    ensures
        r == needs_max(specs@),
{
    let mut k: usize = 0;
    while k < specs.len()
        invariant
            k <= specs@.len(),
            forall|j: int| 0 <= j < k ==> !#[trigger] reads_max(specs@[j]),
        decreases specs@.len() - k,
    {
        match specs[k] {
            RangeSpec::Include(..) | RangeSpec::Exclude(..) => {},
            _ => {
                assert(reads_max(specs@[k as int]));
                return true;
            },
        }
        k = k + 1;
    }
    false
}

} // verus!
