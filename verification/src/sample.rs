//! Order among samples that are held as IEEE 754 double-precision bit
//! patterns: comparing them needs no floating-point arithmetic.

use vstd::prelude::*;

verus! {

/// The sign bit.
pub const SIGN: u64 = 0x8000_0000_0000_0000;

/// The magnitude of an infinity; a larger magnitude is not a number.
pub const INFINITE: u64 = 0x7ff0_0000_0000_0000;

/// The pattern that stands for a missing sample: a quiet NaN.
pub const MISSING: u64 = 0x7ff8_0000_0000_0000;

/// The magnitude bits.
pub open spec fn magnitude(bits: u64) -> int {
    if bits < SIGN {
        bits as int
    } else {
        bits - SIGN
    }
}

/// Whether the pattern is not a number.
pub open spec fn is_nan(bits: u64) -> bool {
    magnitude(bits) > INFINITE
}

/// Whether the pattern is an infinity of either sign.
pub open spec fn is_infinite(bits: u64) -> bool {
    magnitude(bits) == INFINITE
}

/// The place of a number in the numeric order; both zeros share one place.
pub open spec fn place(bits: u64) -> int {
    if bits < SIGN {
        bits as int
    } else {
        -(bits - SIGN)
    }
}

/// Whether the pattern is not a number.
pub fn nan(bits: u64) -> (r: bool)
    ensures
        r == is_nan(bits),
{
    if bits < SIGN {
        bits > INFINITE
    } else {
        bits - SIGN > INFINITE
    }
}

/// Whether the number `a` is smaller than the number `b`.
pub fn less(a: u64, b: u64) -> (r: bool)
    ensures
        r == (place(a) < place(b)),
{
    if a < SIGN {
        b < SIGN && a < b
    } else if b < SIGN {
        !(a == SIGN && b == 0)
    } else {
        b < a
    }
}

/// Whether the step from the number `a` to the number `b` is upward or level.
/// The difference of two equal infinities is not a number, so that step is
/// neither.
pub open spec fn rises(a: u64, b: u64) -> bool {
    place(a) <= place(b) && !(is_infinite(a) && is_infinite(b) && place(a) == place(b))
}

/// Whether the step from the number `a` to the number `b` is upward or level.
pub fn step_rises(a: u64, b: u64) -> (r: bool)
    ensures
        r == rises(a, b),
{
    !less(b, a) && !(a == b && (a == INFINITE || a == INFINITE + SIGN))
}

/// The samples that are numbers, in order.
pub open spec fn numbers(values: Seq<u64>) -> Seq<u64> {
    values.filter(|v: u64| !is_nan(v))
}

/// The samples that are numbers.
pub fn numbers_of(values: &Vec<u64>) -> (out: Vec<u64>)
    ensures
        out@ == numbers(values@),
{
    let mut out: Vec<u64> = Vec::new();
    let mut i: usize = 0;
    proof {
        reveal(Seq::filter);
    }
    while i < values.len()
        invariant
            i <= values@.len(),
            out@ == numbers(values@.take(i as int)),
        decreases values@.len() - i,
    {
        reveal(Seq::filter);
        assert(values@.take(i + 1).drop_last() =~= values@.take(i as int));
        if !nan(values[i]) {
            out.push(values[i]);
        }
        i += 1;
    }
    assert(values@.take(values@.len() as int) =~= values@);
    out
}

/// Where a number goes among ordered ones: behind all that are no larger.
pub open spec fn slot(sorted: Seq<u64>, v: u64) -> int
    decreases sorted.len(),
{
    if sorted.len() == 0 || place(sorted.last()) <= place(v) {
        sorted.len() as int
    } else {
        slot(sorted.drop_last(), v)
    }
}

/// The numbers in ascending order; equal ones, which only the two zeros can be
/// without being the same pattern, stay in the order in which they came.
pub open spec fn ordered(finite: Seq<u64>) -> Seq<u64>
    decreases finite.len(),
{
    if finite.len() == 0 {
        Seq::empty()
    } else {
        let before = ordered(finite.drop_last());
        before.insert(slot(before, finite.last()), finite.last())
    }
}

/// The numbers in ascending order, equal ones in the order in which they came.
pub fn in_order(finite: &Vec<u64>) -> (out: Vec<u64>)
    ensures
        out@ == ordered(finite@),
{
    let mut out: Vec<u64> = Vec::new();
    let mut i: usize = 0;
    while i < finite.len()
        invariant
            i <= finite@.len(),
            out@ == ordered(finite@.take(i as int)),
        decreases finite@.len() - i,
    {
        let v: u64 = finite[i];
        let mut k: usize = out.len();
        assert(out@.take(k as int) =~= out@);
        while k > 0 && less(v, out[k - 1])
            invariant
                k <= out@.len(),
                slot(out@, v) == slot(out@.take(k as int), v),
            decreases k,
        {
            assert(out@.take(k as int).drop_last() =~= out@.take(k - 1));
            k -= 1;
        }
        assert(finite@.take(i + 1).drop_last() =~= finite@.take(i as int));
        out.insert(k, v);
        i += 1;
    }
    assert(finite@.take(i as int) =~= finite@);
    out
}

/// Putting numbers in order loses and adds none, leaves them ascending, and
/// keeps the order of those that are equal.
pub proof fn law_order_is_stable(finite: Seq<u64>, p: int)
    ensures
        ordered(finite).to_multiset() == finite.to_multiset(),
        ordered(finite).len() == finite.len(),
        forall|i: int, j: int|
            0 <= i <= j < finite.len() ==> place(#[trigger] ordered(finite)[i]) <= place(
                #[trigger] ordered(finite)[j],
            ),
        ordered(finite).filter(|v: u64| place(v) == p) == finite.filter(|v: u64| place(v) == p),
    decreases finite.len(),
{
    broadcast use vstd::seq_lib::group_to_multiset_ensures;

    reveal(Seq::filter);
    if finite.len() == 0 {
        assert(ordered(finite) =~= finite);
    } else {
        let init = finite.drop_last();
        let v = finite.last();
        let before = ordered(init);
        law_order_is_stable(init, p);
        let k = slot(before, v);
        lemma_slot(before, v);
        vstd::seq_lib::to_multiset_insert(before, k, v);
        assert(finite =~= init.push(v));
        let at = |x: u64| place(x) == p;
        lemma_filter_insert(before, k, v, p);
        assert(finite.filter(at) == if at(v) { init.filter(at).push(v) } else { init.filter(at) });
    }
}

proof fn lemma_slot(sorted: Seq<u64>, v: u64)
    requires
        forall|i: int, j: int|
            0 <= i <= j < sorted.len() ==> place(#[trigger] sorted[i]) <= place(#[trigger] sorted[j]),
    ensures
        0 <= slot(sorted, v) <= sorted.len(),
        forall|i: int| 0 <= i < slot(sorted, v) ==> place(#[trigger] sorted[i]) <= place(v),
        forall|i: int| slot(sorted, v) <= i < sorted.len() ==> place(v) < place(#[trigger] sorted[i]),
    decreases sorted.len(),
{
    if sorted.len() > 0 && place(sorted.last()) > place(v) {
        let init = sorted.drop_last();
        assert forall|i: int, j: int| 0 <= i <= j < init.len() implies place(#[trigger] init[i]) <= place(
            #[trigger] init[j],
        ) by {
            assert(init[i] == sorted[i] && init[j] == sorted[j]);
        }
        lemma_slot(init, v);
        assert forall|i: int| 0 <= i < slot(sorted, v) implies place(#[trigger] sorted[i]) <= place(v) by {
            assert(init[i] == sorted[i]);
        }
        assert forall|i: int| slot(sorted, v) <= i < sorted.len() implies place(v) < place(
            #[trigger] sorted[i],
        ) by {
            if i < init.len() {
                assert(init[i] == sorted[i]);
            }
        }
    } else if sorted.len() > 0 {
        let last = sorted[sorted.len() - 1];
        assert forall|i: int| 0 <= i < sorted.len() implies place(#[trigger] sorted[i]) <= place(v) by {
            assert(place(sorted[i]) <= place(last));
        }
    }
}

/// What is put behind all equal numbers comes last among them.
proof fn lemma_filter_insert(s: Seq<u64>, k: int, v: u64, p: int)
    requires
        0 <= k <= s.len(),
        forall|i: int| k <= i < s.len() ==> place(v) < place(#[trigger] s[i]),
    ensures
        s.insert(k, v).filter(|x: u64| place(x) == p) == if place(v) == p {
            s.filter(|x: u64| place(x) == p).push(v)
        } else {
            s.filter(|x: u64| place(x) == p)
        },
    decreases s.len() - k,
{
    reveal(Seq::filter);
    let longer = s.insert(k, v);
    if k == s.len() {
        assert(longer.drop_last() =~= s);
        assert(longer.last() == v);
    } else {
        let init = s.drop_last();
        assert forall|i: int| k <= i < init.len() implies place(v) < place(#[trigger] init[i]) by {
            assert(init[i] == s[i]);
        }
        lemma_filter_insert(init, k, v, p);
        assert(longer.drop_last() =~= init.insert(k, v));
        assert(longer.last() == s.last());
        assert(place(v) < place(s[s.len() - 1]));
    }
}

/// How the bits of two numbers compare: by sign first, then by what is left of
/// the bits, upwards for positive numbers and downwards for negative ones; both
/// zeros are equal. What lies beyond the infinite ones is no number.
pub proof fn law_bits_compare(a: u64, b: u64, r: bool, n: bool)
    requires
        call_ensures(less, (a, b), r),
        call_ensures(nan, (a,), n),
    ensures
        a < 0x8000_0000_0000_0000 && b < 0x8000_0000_0000_0000 ==> (r <==> a < b),
        a >= 0x8000_0000_0000_0000 && b >= 0x8000_0000_0000_0000 ==> (r <==> a > b),
        a < 0x8000_0000_0000_0000 && b >= 0x8000_0000_0000_0000 ==> !r,
        a >= 0x8000_0000_0000_0000 && b < 0x8000_0000_0000_0000 ==> (r <==> a
            > 0x8000_0000_0000_0000 || b > 0),
        n <==> 0x7ff0_0000_0000_0000 < a < 0x8000_0000_0000_0000 || a > 0xfff0_0000_0000_0000,
{
}

/// A step rises unless it falls, and unless both ends are the same infinity.
pub proof fn law_steps_rise(a: u64, b: u64, r: bool, falls: bool)
    requires
        call_ensures(step_rises, (a, b), r),
        call_ensures(less, (b, a), falls),
    ensures
        r <==> !falls && !(a == b && (a == 0x7ff0_0000_0000_0000 || a == 0xfff0_0000_0000_0000)),
{
}

/// Which of several values are numbers: one more value is kept, at the end,
/// exactly when it is one.
pub proof fn law_numbers_are_kept(
    before: Vec<u64>,
    after: Vec<u64>,
    v: u64,
    n: bool,
    x: Vec<u64>,
    y: Vec<u64>,
)
    requires
        call_ensures(numbers_of, (&before,), x),
        call_ensures(numbers_of, (&after,), y),
        call_ensures(nan, (v,), n),
        after@ == before@.push(v),
    ensures
        before@.len() == 0 ==> x@.len() == 0,
        n ==> y@ == x@,
        !n ==> y@ == x@.push(v),
{
    reveal(Seq::filter);
    assert(after@.drop_last() =~= before@);
}

/// Sorting keeps the values and leaves none before a smaller one.
pub proof fn law_in_order(finite: Vec<u64>, out: Vec<u64>, i: int, j: int, r: bool)
    requires
        call_ensures(in_order, (&finite,), out),
        0 <= i <= j < out@.len(),
        call_ensures(less, (out@[j], out@[i]), r),
    ensures
        !r,
        out@.to_multiset() == finite@.to_multiset(),
        out@.len() == finite@.len(),
{
    law_order_is_stable(finite@, 0);
}

} // verus!
