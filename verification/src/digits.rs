//! Natural numbers as sequences of decimal digits.
//!
//! A digit string is written most significant digit first, as on paper. The
//! arithmetic works on the same digits in the opposite order, where carries
//! run towards the end of the vector.

use vstd::prelude::*;

verus! {

/// Ten to the power `n`.
pub open spec fn pow10(n: nat) -> nat
    decreases n,
{
    if n == 0 {
        1
    } else {
        10 * pow10((n - 1) as nat)
    }
}

/// Every element is a decimal digit.
pub open spec fn all_digits(d: Seq<u8>) -> bool {
    forall|i: int| 0 <= i < d.len() ==> d[i] < 10
}

/// The number that `d` writes, most significant digit first. The empty string
/// writes zero.
pub open spec fn digits_value(d: Seq<u8>) -> nat
    decreases d.len(),
{
    if d.len() == 0 {
        0
    } else {
        digits_value(d.drop_last()) * 10 + d.last() as nat
    }
}

/// A digit string in its shortest form: at least one digit, and no leading
/// zero unless the string is the single digit zero.
pub open spec fn canonical(d: Seq<u8>) -> bool {
    &&& d.len() >= 1
    &&& all_digits(d)
    &&& (d.len() > 1 ==> d[0] != 0)
}

/// The canonical digit string of `n`.
pub open spec fn digits_of(n: nat) -> Seq<u8>
    decreases n,
{
    if n < 10 {
        seq![n as u8]
    } else {
        digits_of(n / 10).push((n % 10) as u8)
    }
}

/// The number that `d` writes, least significant digit first.
pub open spec fn low_value(d: Seq<u8>) -> nat
    decreases d.len(),
{
    if d.len() == 0 {
        0
    } else {
        low_value(d.drop_last()) + d.last() as nat * pow10((d.len() - 1) as nat)
    }
}

/// The digit at place `i` of a least-significant-first string, zero beyond its end.
pub open spec fn place(d: Seq<u8>, i: int) -> nat {
    if 0 <= i < d.len() {
        d[i] as nat
    } else {
        0
    }
}

/// The number written by the lowest `i` places of a least-significant-first string.
pub open spec fn low_part(d: Seq<u8>, i: int) -> nat {
    if 0 <= i <= d.len() {
        low_value(d.take(i))
    } else {
        low_value(d)
    }
}

/// A string that starts with a nonzero digit writes a positive number.
pub proof fn lemma_value_positive(d: Seq<u8>)
    requires
        d.len() >= 1,
        d[0] != 0,
    ensures
        digits_value(d) > 0,
    decreases d.len(),
{
    if d.len() > 1 {
        lemma_value_positive(d.drop_last());
    } else {
        assert(d.drop_last().len() == 0);
    }
}

/// The canonical digit string of the number that a canonical string writes is
/// that string.
pub proof fn lemma_digits_of_value(d: Seq<u8>)
    requires
        canonical(d),
    ensures
        digits_of(digits_value(d)) == d,
    decreases d.len(),
{
    let p = d.drop_last();
    if d.len() == 1 {
        assert(p.len() == 0);
        assert(digits_value(d) == d[0] as nat);
        assert(digits_of(digits_value(d)) =~= d);
    } else {
        assert(canonical(p));
        lemma_value_positive(p);
        lemma_digits_of_value(p);
        let v = digits_value(d);
        assert(v == digits_value(p) * 10 + d.last() as nat);
        assert(v >= 10);
        assert(v / 10 == digits_value(p));
        assert(v % 10 == d.last() as nat);
        assert(digits_of(v) == digits_of(v / 10).push((v % 10) as u8));
        assert(p.push(d.last()) =~= d);
    }
}

/// `digits_of(n)` is canonical and writes `n`.
pub proof fn lemma_value_of_digits(n: nat)
    ensures
        canonical(digits_of(n)),
        digits_value(digits_of(n)) == n,
    decreases n,
{
    if n < 10 {
        let d = digits_of(n);
        assert(d.len() == 1 && d[0] == n);
        assert(digits_value(d.drop_last()) == 0);
    } else {
        lemma_value_of_digits(n / 10);
        let p = digits_of(n / 10);
        let d = p.push((n % 10) as u8);
        assert(d.drop_last() =~= p);
        assert(d[0] == p[0]);
        if p.len() == 1 {
            assert(digits_value(p.drop_last()) == 0);
            assert(digits_value(p) == p[0] as nat);
        }
    }
}

/// Leading zeros do not change the number written.
pub proof fn lemma_leading_zeros(d: Seq<u8>, k: int)
    requires
        0 <= k <= d.len(),
        forall|i: int| 0 <= i < k ==> d[i] == 0,
    ensures
        digits_value(d) == digits_value(d.skip(k)),
    decreases d.len(),
{
    if d.len() == 0 {
        assert(d.skip(k) =~= d);
    } else if k == d.len() {
        lemma_leading_zeros(d.drop_last(), k - 1);
        assert(d.drop_last().skip(k - 1).len() == 0);
        assert(d.skip(k).len() == 0);
    } else {
        lemma_leading_zeros(d.drop_last(), k);
        assert(d.skip(k).drop_last() =~= d.drop_last().skip(k));
        assert(d.skip(k).last() == d.last());
    }
}

/// A number is at least the number that any of its leading parts writes.
pub proof fn lemma_prefix_value(d: Seq<u8>, i: int)
    requires
        0 <= i <= d.len(),
    ensures
        digits_value(d.take(i)) <= digits_value(d),
    decreases d.len(),
{
    if i == d.len() {
        assert(d.take(i) =~= d);
    } else {
        lemma_prefix_value(d.drop_last(), i);
        assert(d.drop_last().take(i) =~= d.take(i));
    }
}

/// The lowest place of a least-significant-first string counts once, the rest
/// ten times.
pub proof fn lemma_low_value_front(d: Seq<u8>)
    requires
        d.len() >= 1,
    ensures
        low_value(d) == d[0] as nat + 10 * low_value(d.drop_first()),
    decreases d.len(),
{
    let n = d.len();
    if n == 1 {
        assert(low_value(d.drop_last()) == 0);
        assert(low_value(d.drop_first()) == 0);
        assert(pow10(0) == 1);
        assert(d.last() == d[0]);
    } else {
        let p = d.drop_last();
        let t = d.drop_first();
        lemma_low_value_front(p);
        assert(p.drop_first() =~= t.drop_last());
        assert(p[0] == d[0]);
        assert(t.last() == d.last());
        let w = pow10((n - 2) as nat);
        assert(pow10((n - 1) as nat) == 10 * w);
        let l = d.last() as nat;
        assert(l * (10 * w) == 10 * (l * w)) by (nonlinear_arith);
        assert(low_value(d) == low_value(p) + l * (10 * w));
        assert(low_value(t) == low_value(t.drop_last()) + l * w);
    }
}

/// Reading a least-significant-first string backwards gives the same number,
/// written most significant digit first.
pub proof fn lemma_reverse_value(d: Seq<u8>)
    ensures
        digits_value(d.reverse()) == low_value(d),
    decreases d.len(),
{
    if d.len() > 0 {
        let r = d.reverse();
        let t = d.drop_first();
        assert(r.drop_last() =~= t.reverse());
        assert(r.last() == d[0]);
        lemma_reverse_value(t);
        lemma_low_value_front(d);
    }
}

/// One more place adds its digit at its weight.
pub proof fn lemma_low_part_step(d: Seq<u8>, i: int)
    requires
        0 <= i,
    ensures
        low_part(d, i + 1) == low_part(d, i) + place(d, i) * pow10(i as nat),
{
    if i < d.len() {
        let a = d.take(i + 1);
        assert(a.drop_last() =~= d.take(i));
        assert(a.last() == d[i]);
    } else if i == d.len() {
        assert(d.take(i) =~= d);
    }
}

/// The digits of `v` in the opposite order.
pub fn reversed(v: &Vec<u8>) -> (r: Vec<u8>)
    ensures
        r@ == v@.reverse(),
{
    let n: usize = v.len();
    let mut r: Vec<u8> = Vec::new();
    let mut k: usize = 0;
    while k < n
        invariant
            n == v.len(),
            k <= n,
            r.len() == k,
            forall|j: int| 0 <= j < k ==> r[j] == v[n - 1 - j],
        decreases n - k,
    {
        r.push(v[n - 1 - k]);
        k = k + 1;
    }
    assert(r@ =~= v@.reverse());
    r
}

/// `x + y * d` on least-significant-first digit strings.
pub(crate) fn add_scaled(x: &Vec<u8>, y: &Vec<u8>, d: u8) -> (out: Vec<u8>)
    requires
        all_digits(x@),
        all_digits(y@),
        d < 10,
    ensures
        all_digits(out@),
        low_value(out@) == low_value(x@) + d as nat * low_value(y@),
{
    let places: usize = if x.len() > y.len() {
        x.len()
    } else {
        y.len()
    };
    let mut out: Vec<u8> = Vec::new();
    let mut carry: u8 = 0;
    let mut i: usize = 0;
    proof {
        assert(low_value(out@) == 0);
        assert(low_value(x@.take(0)) == 0);
        assert(low_value(y@.take(0)) == 0);
        assert(d as nat * 0 == 0);
        assert(0 * pow10(0) == 0);
    }
    while i < places
        invariant
            all_digits(x@),
            all_digits(y@),
            all_digits(out@),
            d < 10,
            carry < 10,
            i <= places,
            places >= x.len(),
            places >= y.len(),
            out.len() == i,
            low_value(out@) + carry as nat * pow10(i as nat) == low_part(x@, i as int) + d as nat
                * low_part(y@, i as int),
        decreases places - i,
    {
        let xi: u8 = if i < x.len() { x[i] } else { 0 };
        let yi: u8 = if i < y.len() { y[i] } else { 0 };
        assert(yi * d <= 81) by (nonlinear_arith)
            requires
                yi <= 9,
                d <= 9,
        ;
        let t: u8 = xi + yi * d + carry;
        let low: u8 = t % 10;
        let high: u8 = t / 10;
        proof {
            let w = pow10(i as nat);
            lemma_low_part_step(x@, i as int);
            lemma_low_part_step(y@, i as int);
            assert(place(x@, i as int) == xi as nat);
            assert(place(y@, i as int) == yi as nat);
            let next = out@.push(low);
            assert(next.drop_last() =~= out@);
            assert(low_value(next) == low_value(out@) + low as nat * w);
            assert(pow10((i + 1) as nat) == 10 * w);
            assert(low as nat + 10 * high as nat == xi as nat + yi as nat * d as nat + carry as nat);
            assert(low_value(out@) + low as nat * w + high as nat * (10 * w) == low_value(out@)
                + carry as nat * w + (xi as nat * w) + d as nat * (yi as nat * w))
                by (nonlinear_arith)
                requires
                    low as nat + 10 * high as nat == xi as nat + yi as nat * d as nat
                        + carry as nat,
            ;
            assert(d as nat * (low_part(y@, i as int) + yi as nat * w) == d as nat * low_part(
                y@,
                i as int,
            ) + d as nat * (yi as nat * w)) by (nonlinear_arith);
        }
        out.push(low);
        carry = high;
        i = i + 1;
    }
    proof {
        assert(i == x.len() ==> x@.take(i as int) =~= x@);
        assert(i == y.len() ==> y@.take(i as int) =~= y@);
        assert(low_part(x@, i as int) == low_value(x@));
        assert(low_part(y@, i as int) == low_value(y@));
    }
    if carry > 0 {
        proof {
            let next = out@.push(carry);
            assert(next.drop_last() =~= out@);
            assert(next.last() == carry);
        }
        out.push(carry);
    } else {
        assert(0 * pow10(i as nat) == 0);
    }
    out
}

/// The same number without leading zeros.
pub fn strip_leading_zeros(v: &Vec<u8>) -> (out: Vec<u8>)
    requires
        all_digits(v@),
    ensures
        canonical(out@),
        digits_value(out@) == digits_value(v@),
{
    let n: usize = v.len();
    let mut k: usize = 0;
    while k < n && v[k] == 0
        invariant
            n == v.len(),
            k <= n,
            forall|i: int| 0 <= i < k ==> v[i] == 0,
        decreases n - k,
    {
        k = k + 1;
    }
    proof {
        lemma_leading_zeros(v@, k as int);
    }
    let mut out: Vec<u8> = Vec::new();
    if k == n {
        out.push(0);
        assert(digits_value(out@.drop_last()) == 0);
        assert(digits_value(v@.skip(k as int)) == 0);
        return out;
    }
    let mut i: usize = k;
    while i < n
        invariant
            n == v.len(),
            k <= i <= n,
            out@ == v@.subrange(k as int, i as int),
        decreases n - i,
    {
        out.push(v[i]);
        i = i + 1;
    }
    assert(out@ =~= v@.skip(k as int));
    out
}

/// The product of two numbers, each written most significant digit first.
pub fn digits_product(a: &Vec<u8>, b: &Vec<u8>) -> (out: Vec<u8>)
    requires
        all_digits(a@),
        all_digits(b@),
    ensures
        canonical(out@),
        digits_value(out@) == digits_value(a@) * digits_value(b@),
{
    let low_a: Vec<u8> = reversed(a);
    proof {
        lemma_reverse_value(a@);
        assert(a@.reverse().reverse() =~= a@);
        lemma_reverse_value(a@.reverse());
    }
    let mut acc: Vec<u8> = Vec::new();
    let mut j: usize = 0;
    assert(digits_value(b@.take(0)) == 0);
    assert(digits_value(a@) * 0 == 0);
    while j < b.len()
        invariant
            j <= b.len(),
            all_digits(b@),
            all_digits(low_a@),
            all_digits(acc@),
            low_value(low_a@) == digits_value(a@),
            low_value(acc@) == digits_value(a@) * digits_value(b@.take(j as int)),
        decreases b.len() - j,
    {
        let ghost before = acc@;
        acc.insert(0, 0u8);
        proof {
            assert(acc@.drop_first() =~= before);
            lemma_low_value_front(acc@);
            let next = b@.take(j + 1);
            assert(next.drop_last() =~= b@.take(j as int));
            assert(next.last() == b[j as int]);
            let va = digits_value(a@);
            let vb = digits_value(b@.take(j as int));
            let dj = b[j as int] as nat;
            assert(10 * (va * vb) + dj * va == va * (vb * 10 + dj)) by (nonlinear_arith);
        }
        acc = add_scaled(&acc, &low_a, b[j]);
        j = j + 1;
    }
    assert(b@.take(b.len() as int) =~= b@);
    let high: Vec<u8> = reversed(&acc);
    proof {
        lemma_reverse_value(acc@);
    }
    strip_leading_zeros(&high)
}

} // verus!
