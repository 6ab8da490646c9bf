//! The natural order of names: runs of digits compare by their number, the
//! rest byte by byte, without regard to ASCII case.

use vstd::prelude::*;

verus! {

pub open spec fn is_digit(b: u8) -> bool {
    48 <= b <= 57
}

/// `b` with an ASCII capital letter replaced by its small letter.
pub open spec fn lower(b: u8) -> u8 {
    if 65 <= b <= 90 {
        (b + 32) as u8
    } else {
        b
    }
}

pub open spec fn lowered(s: Seq<u8>) -> Seq<u8> {
    Seq::new(s.len(), |i: int| lower(s[i]))
}

pub open spec fn all_digits(s: Seq<u8>) -> bool {
    forall|i: int| 0 <= i < s.len() ==> is_digit(#[trigger] s[i])
}

/// The length of the longest prefix of `s` whose bytes all are digits
/// (`digit`) or all are not.
pub open spec fn run_len(s: Seq<u8>, digit: bool) -> nat
    decreases s.len(),
{
    if s.len() == 0 || is_digit(s[0]) != digit {
        0
    } else {
        1 + run_len(s.drop_first(), digit)
    }
}

/// The first run of `s`: its longest prefix of one kind, digits or not.
pub open spec fn first_run(s: Seq<u8>) -> Seq<u8>
    recommends
        s.len() > 0,
{
    s.take(run_len(s, is_digit(s[0])) as int)
}

pub open spec fn pow10(n: nat) -> nat
    decreases n,
{
    if n == 0 {
        1
    } else {
        10 * pow10((n - 1) as nat)
    }
}

/// The number that a sequence of decimal digits writes.
pub open spec fn digits_value(s: Seq<u8>) -> nat
    decreases s.len(),
{
    if s.len() == 0 {
        0
    } else {
        10 * digits_value(s.drop_last()) + (s.last() - 48) as nat
    }
}

pub open spec fn sign(x: int) -> int {
    if x < 0 {
        -1
    } else if x == 0 {
        0
    } else {
        1
    }
}

/// Byte-wise lexicographic order: -1, 0 or 1.
pub open spec fn lex(a: Seq<u8>, b: Seq<u8>) -> int
    decreases a.len(),
{
    if a.len() == 0 {
        if b.len() == 0 {
            0
        } else {
            -1
        }
    } else if b.len() == 0 {
        1
    } else if a[0] != b[0] {
        if a[0] < b[0] {
            -1
        } else {
            1
        }
    } else {
        lex(a.drop_first(), b.drop_first())
    }
}

/// Two runs count as the same where they are the same text, and where
/// both are digits that write the same number, as `01` and `1` do.
pub open spec fn same_run(ra: Seq<u8>, rb: Seq<u8>) -> bool {
    ra == rb || (ra.len() > 0 && rb.len() > 0 && is_digit(ra[0]) && is_digit(rb[0]) && digits_value(ra)
        == digits_value(rb))
}

/// How two runs that differ compare: two runs of digits by their numbers,
/// any other pair byte by byte.
pub open spec fn run_order(ra: Seq<u8>, rb: Seq<u8>) -> int {
    if ra.len() > 0 && rb.len() > 0 && is_digit(ra[0]) && is_digit(rb[0]) {
        sign(digits_value(ra) - digits_value(rb))
    } else {
        lex(ra, rb)
    }
}

/// The natural order of two names in one case: -1, 0 or 1. The names are
/// compared run by run; the first pair of runs that do not count as the
/// same decides, and a name that ends first comes first.
pub open spec fn natural(a: Seq<u8>, b: Seq<u8>) -> int
    decreases a.len(),
    via natural_decreases
{
    if a.len() == 0 {
        if b.len() == 0 {
            0
        } else {
            -1
        }
    } else if b.len() == 0 {
        1
    } else if same_run(first_run(a), first_run(b)) {
        natural(a.skip(first_run(a).len() as int), b.skip(first_run(b).len() as int))
    } else {
        run_order(first_run(a), first_run(b))
    }
}

#[via_fn]
proof fn natural_decreases(a: Seq<u8>, b: Seq<u8>) {
    if a.len() > 0 && b.len() > 0 {
        lemma_first_run(a);
    }
}

/// The natural order of two names, without regard to ASCII case.
pub open spec fn natural_order(a: Seq<u8>, b: Seq<u8>) -> int {
    natural(lowered(a), lowered(b))
}

pub proof fn lemma_run_len_bound(s: Seq<u8>, digit: bool)
    ensures
        run_len(s, digit) <= s.len(),
        forall|i: int| 0 <= i < run_len(s, digit) ==> is_digit(#[trigger] s[i]) == digit,
        run_len(s, digit) < s.len() ==> is_digit(s[run_len(s, digit) as int]) != digit,
    decreases s.len(),
{
    if s.len() == 0 || is_digit(s[0]) != digit {
    } else {
        let t = s.drop_first();
        lemma_run_len_bound(t, digit);
        assert forall|i: int| 0 <= i < run_len(s, digit) implies is_digit(#[trigger] s[i]) == digit by {
            if i > 0 {
                assert(s[i] == t[i - 1]);
            }
        }
        if run_len(s, digit) < s.len() {
            assert(s[run_len(s, digit) as int] == t[run_len(t, digit) as int]);
        }
    }
}

/// The first run of a name that is not empty is not empty, lies within the
/// name, is of one kind, and ends where the kind changes.
pub proof fn lemma_first_run(s: Seq<u8>)
    requires
        s.len() > 0,
    ensures
        0 < first_run(s).len() <= s.len(),
        first_run(s).len() == run_len(s, is_digit(s[0])),
        forall|i: int| 0 <= i < first_run(s).len() ==> #[trigger] first_run(s)[i] == s[i],
        forall|i: int| 0 <= i < first_run(s).len() ==> is_digit(#[trigger] s[i]) == is_digit(s[0]),
        first_run(s).len() < s.len() ==> is_digit(s[first_run(s).len() as int]) != is_digit(s[0]),
{
    lemma_run_len_bound(s, is_digit(s[0]));
}

pub proof fn lemma_pow10_positive(n: nat)
    ensures
        pow10(n) > 0,
    decreases n,
{
    if n > 0 {
        lemma_pow10_positive((n - 1) as nat);
    }
}

pub proof fn lemma_pow10_monotonic(m: nat, n: nat)
    requires
        m <= n,
    ensures
        pow10(m) <= pow10(n),
    decreases n,
{
    if m < n {
        lemma_pow10_monotonic(m, (n - 1) as nat);
        lemma_pow10_positive((n - 1) as nat);
    }
}

/// A number of `n` digits is below the `n`-th power of ten.
pub proof fn lemma_value_bound(s: Seq<u8>)
    requires
        all_digits(s),
    ensures
        digits_value(s) < pow10(s.len()),
    decreases s.len(),
{
    if s.len() > 0 {
        lemma_value_bound(s.drop_last());
    }
}

/// The value of a number read from its first digit on.
pub proof fn lemma_value_front(s: Seq<u8>)
    requires
        all_digits(s),
        s.len() > 0,
    ensures
        digits_value(s) == (s[0] - 48) * pow10((s.len() - 1) as nat) + digits_value(
            s.drop_first(),
        ),
    decreases s.len(),
{
    if s.len() == 1 {
        assert(s.drop_last() =~= Seq::<u8>::empty());
        assert(s.drop_first() =~= Seq::<u8>::empty());
        assert(digits_value(s.drop_last()) == 0);
        assert(pow10(0) == 1);
        assert(s.last() == s[0]);
        assert(digits_value(s.drop_first()) == 0);
        assert(digits_value(s) == (s[0] - 48));
        assert((s[0] - 48) * pow10((s.len() - 1) as nat) == s[0] - 48);
    } else {
        let t = s.drop_last();
        let u = s.drop_first();
        assert(all_digits(t)) by {
            assert forall|i: int| 0 <= i < t.len() implies is_digit(#[trigger] t[i]) by {
                assert(t[i] == s[i]);
            }
        }
        lemma_value_front(t);
        assert(u.drop_last() =~= t.drop_first());
        assert(u.last() == s.last());
        assert(t[0] == s[0]);
        let d = (s[0] - 48) as int;
        let p = pow10((s.len() - 2) as nat) as int;
        assert(pow10((s.len() - 1) as nat) == 10 * p);
        assert(digits_value(t) == d * p + digits_value(t.drop_first()));
        assert(digits_value(u) == 10 * digits_value(t.drop_first()) + (s.last() - 48));
        assert(digits_value(s) == 10 * digits_value(t) + (s.last() - 48));
        assert(10 * (d * p) == d * (10 * p)) by (nonlinear_arith);
        assert(digits_value(s) == d * (10 * p) + digits_value(u));
    }
}

/// Leading zeros do not change a number.
pub proof fn lemma_leading_zero(s: Seq<u8>)
    requires
        all_digits(s),
        s.len() > 0,
        s[0] == 48,
    ensures
        digits_value(s) == digits_value(s.drop_first()),
{
    lemma_value_front(s);
}

/// Of two numbers without leading zeros, the one with fewer digits is smaller.
pub proof fn lemma_shorter_is_smaller(x: Seq<u8>, y: Seq<u8>)
    requires
        all_digits(x),
        all_digits(y),
        x.len() < y.len(),
        y[0] != 48,
    ensures
        digits_value(x) < digits_value(y),
{
    lemma_value_bound(x);
    lemma_value_front(y);
    lemma_pow10_monotonic(x.len(), (y.len() - 1) as nat);
    let d = (y[0] - 48) as int;
    let p = pow10((y.len() - 1) as nat) as int;
    assert(d * p >= p) by (nonlinear_arith)
        requires
            d >= 1,
            p >= 0,
    ;
}

/// Numbers of the same length compare as their digits do, from the left.
pub proof fn lemma_same_length_order(x: Seq<u8>, y: Seq<u8>)
    requires
        all_digits(x),
        all_digits(y),
        x.len() == y.len(),
    ensures
        sign(digits_value(x) - digits_value(y)) == lex(x, y),
    decreases x.len(),
{
    if x.len() > 0 {
        lemma_value_front(x);
        lemma_value_front(y);
        let xt = x.drop_first();
        let yt = y.drop_first();
        lemma_value_bound(xt);
        lemma_value_bound(yt);
        let p = pow10((x.len() - 1) as nat) as int;
        let dx = (x[0] - 48) as int;
        let dy = (y[0] - 48) as int;
        if x[0] == y[0] {
            lemma_same_length_order(xt, yt);
        } else if x[0] < y[0] {
            assert(dx * p + p <= dy * p) by (nonlinear_arith)
                requires
                    dx + 1 <= dy,
                    p >= 0,
            ;
        } else {
            assert(dy * p + p <= dx * p) by (nonlinear_arith)
                requires
                    dy + 1 <= dx,
                    p >= 0,
            ;
        }
    }
}

/// Two sequences are in the same place of the byte-wise order only if they are equal.
pub proof fn lemma_lex_equal(a: Seq<u8>, b: Seq<u8>)
    ensures
        lex(a, b) == 0 <==> a == b,
        -1 <= lex(a, b) <= 1,
    decreases a.len(),
{
    if a.len() > 0 && b.len() > 0 && a[0] == b[0] {
        let x = a.drop_first();
        let y = b.drop_first();
        lemma_lex_equal(x, y);
        if x == y {
            assert forall|i: int| 0 <= i < a.len() implies a[i] == b[i] by {
                if i > 0 {
                    assert(a[i] == x[i - 1] && b[i] == y[i - 1]);
                }
            }
            assert(a =~= b);
        }
    }
    if a.len() == 0 && b.len() == 0 {
        assert(a =~= b);
    }
}

pub fn is_digit_byte(b: u8) -> (r: bool)
    ensures
        r == is_digit(b),
{
    48 <= b && b <= 57
}

pub fn lower_byte(b: u8) -> (r: u8)
    ensures
        r == lower(b),
{
    if 65 <= b && b <= 90 {
        b + 32
    } else {
        b
    }
}

/// A copy of `s` in small letters.
pub fn to_lower(s: &[u8]) -> (r: Vec<u8>)
    ensures
        r@ == lowered(s@),
{
    let mut r: Vec<u8> = Vec::new();
    let mut i: usize = 0;
    while i < s.len()
        invariant
            i <= s.len(),
            r@ == lowered(s@.take(i as int)),
        decreases s.len() - i,
    {
        r.push(lower_byte(s[i]));
        i += 1;
        assert(r@ =~= lowered(s@.take(i as int)));
    }
    assert(s@.take(i as int) =~= s@);
    r
}

/// The byte-wise order of `a[a0..a1]` and `b[b0..b1]`.
pub fn lex_sign(a: &Vec<u8>, a0: usize, a1: usize, b: &Vec<u8>, b0: usize, b1: usize) -> (r: i8)
    requires
        a0 <= a1 <= a.len(),
        b0 <= b1 <= b.len(),
    ensures
        r as int == lex(a@.subrange(a0 as int, a1 as int), b@.subrange(b0 as int, b1 as int)),
{
    let mut i: usize = a0;
    let mut j: usize = b0;
    while i < a1 && j < b1
        invariant
            a0 <= i <= a1 <= a.len(),
            b0 <= j <= b1 <= b.len(),
            lex(a@.subrange(a0 as int, a1 as int), b@.subrange(b0 as int, b1 as int)) == lex(
                a@.subrange(i as int, a1 as int),
                b@.subrange(j as int, b1 as int),
            ),
        decreases a1 - i,
    {
        let ghost x = a@.subrange(i as int, a1 as int);
        let ghost y = b@.subrange(j as int, b1 as int);
        assert(x[0] == a@[i as int] && y[0] == b@[j as int]);
        if a[i] != b[j] {
            return if a[i] < b[j] {
                -1
            } else {
                1
            };
        }
        assert(x.drop_first() =~= a@.subrange(i + 1, a1 as int));
        assert(y.drop_first() =~= b@.subrange(j + 1, b1 as int));
        i += 1;
        j += 1;
    }
    if i == a1 {
        if j == b1 {
            0
        } else {
            -1
        }
    } else {
        1
    }
}

/// Where the run that starts at `start` ends.
pub fn run_end(s: &Vec<u8>, start: usize) -> (end: usize)
    requires
        start < s.len(),
    ensures
        start < end <= s.len(),
        s@.subrange(start as int, end as int) == first_run(s@.skip(start as int)),
{
    let digit = is_digit_byte(s[start]);
    let mut k: usize = start + 1;
    let ghost t = s@.skip(start as int);
    proof {
        lemma_first_run(t);
    }
    while k < s.len() && is_digit_byte(s[k]) == digit
        invariant
            start < k <= s.len(),
            t == s@.skip(start as int),
            digit == is_digit(t[0]),
            k - start <= first_run(t).len(),
            0 < first_run(t).len() <= t.len(),
            first_run(t).len() < t.len() ==> is_digit(t[first_run(t).len() as int]) != is_digit(
                t[0],
            ),
        decreases s.len() - k,
    {
        assert(t[k - start] == s@[k as int]);
        k += 1;
    }
    proof {
        if k < s.len() {
            assert(t[k - start] == s@[k as int]);
            assert(is_digit(t[k - start]) != digit);
            if k - start < first_run(t).len() {
                lemma_first_run(t);
            }
        }
        assert(s@.subrange(start as int, k as int) =~= first_run(t));
    }
    k
}

/// The order of the numbers that the digits `a[a0..a1]` and `b[b0..b1]` write.
/// The numbers may be of any length: leading zeros are passed over, then the
/// longer number is the greater, and numbers of one length compare digit by digit.
pub fn number_sign(a: &Vec<u8>, a0: usize, a1: usize, b: &Vec<u8>, b0: usize, b1: usize) -> (r: i8)
    requires
        a0 <= a1 <= a.len(),
        b0 <= b1 <= b.len(),
        all_digits(a@.subrange(a0 as int, a1 as int)),
        all_digits(b@.subrange(b0 as int, b1 as int)),
    ensures
        r as int == sign(
            digits_value(a@.subrange(a0 as int, a1 as int)) - digits_value(
                b@.subrange(b0 as int, b1 as int),
            ),
        ),
{
    let i = skip_zeros(a, a0, a1);
    let j = skip_zeros(b, b0, b1);
    let ghost x = a@.subrange(i as int, a1 as int);
    let ghost y = b@.subrange(j as int, b1 as int);
    if a1 - i < b1 - j {
        proof {
            lemma_shorter_is_smaller(x, y);
        }
        -1
    } else if a1 - i > b1 - j {
        proof {
            lemma_shorter_is_smaller(y, x);
        }
        1
    } else {
        proof {
            lemma_same_length_order(x, y);
        }
        lex_sign(a, i, a1, b, j, b1)
    }
}

/// The place of the first digit of `s[from..to]` that is not a zero, or `to`.
fn skip_zeros(s: &Vec<u8>, from: usize, to: usize) -> (i: usize)
    requires
        from <= to <= s.len(),
        all_digits(s@.subrange(from as int, to as int)),
    ensures
        from <= i <= to,
        all_digits(s@.subrange(i as int, to as int)),
        digits_value(s@.subrange(i as int, to as int)) == digits_value(
            s@.subrange(from as int, to as int),
        ),
        i < to ==> s@[i as int] != 48,
{
    let mut i: usize = from;
    while i < to && s[i] == 48
        invariant
            from <= i <= to <= s.len(),
            all_digits(s@.subrange(i as int, to as int)),
            digits_value(s@.subrange(i as int, to as int)) == digits_value(
                s@.subrange(from as int, to as int),
            ),
        decreases to - i,
    {
        let ghost x = s@.subrange(i as int, to as int);
        proof {
            assert(x[0] == s@[i as int]);
            lemma_leading_zero(x);
            assert(x.drop_first() =~= s@.subrange(i + 1, to as int));
            assert forall|k: int| 0 <= k < x.drop_first().len() implies is_digit(
                #[trigger] x.drop_first()[k],
            ) by {
                assert(x.drop_first()[k] == x[k + 1]);
            }
        }
        i += 1;
    }
    i
}

/// The natural order of two names, without regard to ASCII case: -1, 0 or 1.
pub fn compare(a: &[u8], b: &[u8]) -> (r: i8)
    ensures
        r as int == natural_order(a@, b@),
{
    let la = to_lower(a);
    let lb = to_lower(b);
    let mut i: usize = 0;
    let mut j: usize = 0;
    assert(la@.skip(0) =~= la@ && lb@.skip(0) =~= lb@);
    loop
        invariant
            i <= la.len(),
            j <= lb.len(),
            la@ == lowered(a@),
            lb@ == lowered(b@),
            natural(la@, lb@) == natural(la@.skip(i as int), lb@.skip(j as int)),
        decreases la.len() - i,
    {
        if i >= la.len() {
            return if j >= lb.len() {
                0
            } else {
                -1
            };
        }
        if j >= lb.len() {
            return 1;
        }
        let ghost x = la@.skip(i as int);
        let ghost y = lb@.skip(j as int);
        let i2 = run_end(&la, i);
        let j2 = run_end(&lb, j);
        let c = lex_sign(&la, i, i2, &lb, j, j2);
        proof {
            lemma_first_run(x);
            lemma_first_run(y);
            lemma_lex_equal(first_run(x), first_run(y));
            assert(x[0] == la@[i as int] && y[0] == lb@[j as int]);
            assert(first_run(x)[0] == x[0] && first_run(y)[0] == y[0]);
        }
        if c == 0 {
            proof {
                assert(x.skip(first_run(x).len() as int) =~= la@.skip(i2 as int));
                assert(y.skip(first_run(y).len() as int) =~= lb@.skip(j2 as int));
            }
            i = i2;
            j = j2;
        } else if is_digit_byte(la[i]) && is_digit_byte(lb[j]) {
            proof {
                assert forall|k: int| 0 <= k < first_run(x).len() implies is_digit(
                    #[trigger] first_run(x)[k],
                ) by {
                    assert(first_run(x)[k] == x[k]);
                }
                assert forall|k: int| 0 <= k < first_run(y).len() implies is_digit(
                    #[trigger] first_run(y)[k],
                ) by {
                    assert(first_run(y)[k] == y[k]);
                }
            }
            let n = number_sign(&la, i, i2, &lb, j, j2);
            if n != 0 {
                return n;
            }
            proof {
                assert(x.skip(first_run(x).len() as int) =~= la@.skip(i2 as int));
                assert(y.skip(first_run(y).len() as int) =~= lb@.skip(j2 as int));
            }
            i = i2;
            j = j2;
        } else {
            return c;
        }
    }
}

/// A run is of one kind: all digits, or no digit.
pub open spec fn is_run(r: Seq<u8>) -> bool {
    r.len() > 0 && forall|i: int| 0 <= i < r.len() ==> is_digit(#[trigger] r[i]) == is_digit(r[0])
}

/// A run of digits is written plainly when it has no zero in front, but
/// for the number zero itself.
pub open spec fn plain_run(r: Seq<u8>) -> bool {
    !(r.len() > 1 && r[0] == 48)
}

/// A name is written plainly when every run of digits in it is.
pub open spec fn plain(s: Seq<u8>) -> bool
    decreases s.len(),
    via plain_decreases
{
    s.len() == 0 || (plain_run(first_run(s)) && plain(s.skip(first_run(s).len() as int)))
}

#[via_fn]
proof fn plain_decreases(s: Seq<u8>) {
    if s.len() > 0 {
        lemma_first_run(s);
    }
}

pub proof fn lemma_first_run_is_run(s: Seq<u8>)
    requires
        s.len() > 0,
    ensures
        is_run(first_run(s)),
        first_run(s)[0] == s[0],
{
    lemma_first_run(s);
    assert forall|i: int| 0 <= i < first_run(s).len() implies is_digit(#[trigger] first_run(s)[i]) == is_digit(
        first_run(s)[0],
    ) by {
        assert(first_run(s)[i] == s[i]);
        assert(first_run(s)[0] == s[0]);
    }
}

pub proof fn lemma_lex_reflexive(a: Seq<u8>)
    ensures
        lex(a, a) == 0,
    decreases a.len(),
{
    if a.len() > 0 {
        lemma_lex_reflexive(a.drop_first());
    }
}

pub proof fn lemma_lex_antisymmetric(a: Seq<u8>, b: Seq<u8>)
    ensures
        lex(a, b) == -lex(b, a),
    decreases a.len(),
{
    if a.len() > 0 && b.len() > 0 && a[0] == b[0] {
        lemma_lex_antisymmetric(a.drop_first(), b.drop_first());
    }
}

pub proof fn lemma_lex_transitive(a: Seq<u8>, b: Seq<u8>, c: Seq<u8>)
    requires
        lex(a, b) <= 0,
        lex(b, c) <= 0,
    ensures
        lex(a, c) <= 0,
    decreases a.len(),
{
    if a.len() > 0 && b.len() > 0 && c.len() > 0 {
        if a[0] == b[0] && b[0] == c[0] {
            lemma_lex_transitive(a.drop_first(), b.drop_first(), c.drop_first());
        }
    }
}

/// Where the first bytes differ they decide the byte-wise order.
pub proof fn lemma_lex_first(a: Seq<u8>, b: Seq<u8>)
    requires
        a.len() > 0,
        b.len() > 0,
    ensures
        a[0] < b[0] ==> lex(a, b) == -1,
        a[0] > b[0] ==> lex(a, b) == 1,
        lex(a, b) <= 0 ==> a[0] <= b[0],
{
    lemma_lex_equal(a.drop_first(), b.drop_first());
}

/// Two runs of digits that are written plainly and write the same number
/// are the same.
pub proof fn lemma_plain_runs_equal(x: Seq<u8>, y: Seq<u8>)
    requires
        all_digits(x),
        all_digits(y),
        x.len() > 0,
        y.len() > 0,
        plain_run(x),
        plain_run(y),
        digits_value(x) == digits_value(y),
    ensures
        x == y,
{
    if x.len() < y.len() {
        lemma_shorter_is_smaller(x, y);
    } else if y.len() < x.len() {
        lemma_shorter_is_smaller(y, x);
    } else {
        lemma_same_length_order(x, y);
        lemma_lex_equal(x, y);
    }
}

pub proof fn lemma_run_digits(r: Seq<u8>)
    requires
        is_run(r),
        is_digit(r[0]),
    ensures
        all_digits(r),
{
}

/// Two runs compare the other way round when they change places.
pub proof fn lemma_run_order_antisymmetric(x: Seq<u8>, y: Seq<u8>)
    ensures
        run_order(x, y) == -run_order(y, x),
        -1 <= run_order(x, y) <= 1,
{
    lemma_lex_antisymmetric(x, y);
    lemma_lex_equal(x, y);
}

/// Two runs are in the same place of the order only if they count as
/// the same.
pub proof fn lemma_run_order_decides(x: Seq<u8>, y: Seq<u8>)
    requires
        is_run(x),
        is_run(y),
        !same_run(x, y),
    ensures
        run_order(x, y) != 0,
{
    if is_digit(x[0]) && is_digit(y[0]) {
    } else {
        lemma_lex_equal(x, y);
    }
}

/// Runs that count as the same stand alike to every other run.
pub proof fn lemma_same_run_alike(x: Seq<u8>, y: Seq<u8>, z: Seq<u8>)
    requires
        is_run(x),
        is_run(y),
        is_run(z),
        same_run(x, y),
    ensures
        same_run(x, z) == same_run(y, z),
        same_run(z, x) == same_run(z, y),
        run_order(x, z) == run_order(y, z),
        run_order(z, x) == run_order(z, y),
{
    if x != y {
        lemma_lex_first(x, z);
        lemma_lex_first(y, z);
        lemma_lex_first(z, x);
        lemma_lex_first(z, y);
    }
}

/// The order of runs passes on: what is not behind a second run that is
/// not behind a third is not behind the third.
pub proof fn lemma_run_order_transitive(x: Seq<u8>, y: Seq<u8>, z: Seq<u8>)
    requires
        is_run(x),
        is_run(y),
        is_run(z),
        run_order(x, y) <= 0,
        run_order(y, z) <= 0,
    ensures
        run_order(x, z) <= 0,
{
    let dx = is_digit(x[0]);
    let dy = is_digit(y[0]);
    let dz = is_digit(z[0]);
    lemma_lex_first(x, y);
    lemma_lex_first(y, z);
    lemma_lex_first(x, z);
    if dx && dy && dz {
    } else if !dx && !dy && !dz {
        lemma_lex_transitive(x, y, z);
    } else if dx && dy && !dz {
    } else if dx && !dy && dz {
    } else if dx && !dy && !dz {
    } else if !dx && dy && dz {
    } else if !dx && dy && !dz {
    } else {
    }
}

/// A name is in the same place as itself.
pub proof fn lemma_natural_reflexive(a: Seq<u8>)
    ensures
        natural(a, a) == 0,
    decreases a.len(),
{
    if a.len() > 0 {
        lemma_first_run(a);
        lemma_natural_reflexive(a.skip(first_run(a).len() as int));
    }
}

/// Two names compare the other way round when they change places.
pub proof fn lemma_natural_antisymmetric(a: Seq<u8>, b: Seq<u8>)
    ensures
        natural(a, b) == -natural(b, a),
        -1 <= natural(a, b) <= 1,
    decreases a.len(),
{
    if a.len() > 0 && b.len() > 0 {
        lemma_first_run(a);
        lemma_first_run(b);
        if same_run(first_run(a), first_run(b)) {
            lemma_natural_antisymmetric(
                a.skip(first_run(a).len() as int),
                b.skip(first_run(b).len() as int),
            );
        } else {
            lemma_run_order_antisymmetric(first_run(a), first_run(b));
        }
    }
}

/// Two plain names that are in the same place of the order are the same.
pub proof fn lemma_natural_decides(a: Seq<u8>, b: Seq<u8>)
    requires
        plain(a),
        plain(b),
        natural(a, b) == 0,
    ensures
        a == b,
    decreases a.len(),
{
    if a.len() > 0 && b.len() > 0 {
        lemma_first_run(a);
        lemma_first_run(b);
        lemma_first_run_is_run(a);
        lemma_first_run_is_run(b);
        let ra = first_run(a);
        let rb = first_run(b);
        if same_run(ra, rb) {
            if ra != rb {
                lemma_run_digits(ra);
                lemma_run_digits(rb);
                lemma_plain_runs_equal(ra, rb);
            }
            let at = a.skip(ra.len() as int);
            let bt = b.skip(rb.len() as int);
            lemma_natural_decides(at, bt);
            assert(a =~= ra + at);
            assert(b =~= rb + bt);
        } else {
            lemma_run_order_decides(ra, rb);
        }
    } else {
        assert(a =~= b);
    }
}

/// The natural order passes on: a name that is not behind a second one
/// that is not behind a third is not behind the third.
pub proof fn lemma_natural_transitive(a: Seq<u8>, b: Seq<u8>, c: Seq<u8>)
    requires
        natural(a, b) <= 0,
        natural(b, c) <= 0,
    ensures
        natural(a, c) <= 0,
    decreases a.len(),
{
    if a.len() > 0 {
        lemma_first_run(a);
        lemma_first_run(b);
        lemma_first_run(c);
        lemma_first_run_is_run(a);
        lemma_first_run_is_run(b);
        lemma_first_run_is_run(c);
        let ra = first_run(a);
        let rb = first_run(b);
        let rc = first_run(c);
        if same_run(ra, rb) {
            lemma_same_run_alike(ra, rb, rc);
            if same_run(rb, rc) {
                lemma_natural_transitive(
                    a.skip(ra.len() as int),
                    b.skip(rb.len() as int),
                    c.skip(rc.len() as int),
                );
            }
        } else if same_run(rb, rc) {
            lemma_same_run_alike(rb, rc, ra);
        } else if same_run(ra, rc) {
            lemma_same_run_alike(ra, rc, rb);
            lemma_run_order_antisymmetric(ra, rb);
            lemma_run_order_antisymmetric(rc, rb);
            lemma_run_order_decides(ra, rb);
        } else {
            lemma_run_order_transitive(ra, rb, rc);
        }
    }
}

/// The natural order is a total order of names, whatever their case: a
/// name is in the same place as itself.
pub proof fn lemma_order_reflexive(a: Seq<u8>)
    ensures
        natural_order(a, a) == 0,
{
    lemma_natural_reflexive(lowered(a));
}

/// The natural order is a total order of names, whatever their case: of
/// two names one comes first, or neither does, and to change their places
/// turns the answer round.
pub proof fn lemma_order_antisymmetric(a: Seq<u8>, b: Seq<u8>)
    ensures
        natural_order(a, b) == -natural_order(b, a),
        -1 <= natural_order(a, b) <= 1,
{
    lemma_natural_antisymmetric(lowered(a), lowered(b));
}

/// The natural order is a total order of names, whatever their case: a
/// name that is not behind a second one that is not behind a third is not
/// behind the third.
pub proof fn lemma_order_transitive(a: Seq<u8>, b: Seq<u8>, c: Seq<u8>)
    requires
        natural_order(a, b) <= 0,
        natural_order(b, c) <= 0,
    ensures
        natural_order(a, c) <= 0,
{
    lemma_natural_transitive(lowered(a), lowered(b), lowered(c));
}

/// Names whose numbers are written plainly, without a zero in front, are
/// in the same place of the natural order only if they are the same but
/// for their case. Other names may differ in such zeros.
pub proof fn lemma_order_decides(a: Seq<u8>, b: Seq<u8>)
    requires
        plain(lowered(a)),
        plain(lowered(b)),
        natural_order(a, b) == 0,
    ensures
        lowered(a) == lowered(b),
{
    lemma_natural_decides(lowered(a), lowered(b));
}

/// Numbers that are the same do not decide: `a01b` comes before `a1c` as
/// `b` comes before `c`.
pub proof fn lemma_same_numbers_pass(x: Seq<u8>, y: Seq<u8>, s: Seq<u8>, t: Seq<u8>)
    requires
        all_digits(x),
        all_digits(y),
        x.len() > 0,
        y.len() > 0,
        digits_value(x) == digits_value(y),
        s.len() == 0 || !is_digit(s[0]),
        t.len() == 0 || !is_digit(t[0]),
    ensures
        natural(x + s, y + t) == natural(s, t),
{
    let a = x + s;
    let b = y + t;
    lemma_run_of_digits(x, s);
    lemma_run_of_digits(y, t);
    assert(a.skip(x.len() as int) =~= s);
    assert(b.skip(y.len() as int) =~= t);
}

/// Digits before what does not begin with a digit are a run.
pub proof fn lemma_run_of_digits(x: Seq<u8>, s: Seq<u8>)
    requires
        all_digits(x),
        x.len() > 0,
        s.len() == 0 || !is_digit(s[0]),
    ensures
        first_run(x + s) == x,
    decreases x.len(),
{
    let a = x + s;
    assert(a[0] == x[0]);
    lemma_run_len_digits(x, s);
    assert(a.take(x.len() as int) =~= x);
}

proof fn lemma_run_len_digits(x: Seq<u8>, s: Seq<u8>)
    requires
        all_digits(x),
        s.len() == 0 || !is_digit(s[0]),
    ensures
        run_len(x + s, true) == x.len(),
    decreases x.len(),
{
    let a = x + s;
    if x.len() == 0 {
        assert(a =~= s);
    } else {
        assert(a[0] == x[0]);
        let xt = x.drop_first();
        assert(a.drop_first() =~= xt + s);
        assert forall|i: int| 0 <= i < xt.len() implies is_digit(#[trigger] xt[i]) by {
            assert(xt[i] == x[i + 1]);
        }
        lemma_run_len_digits(xt, s);
    }
}

/// The natural order follows the numbers in names: of two names that
/// differ only in a number at their end, the one with the smaller number
/// comes first.
pub proof fn lemma_order_follows_numbers(stem: Seq<u8>, x: Seq<u8>, y: Seq<u8>)
    requires
        all_digits(x),
        all_digits(y),
        x.len() > 0,
        y.len() > 0,
        stem.len() == 0 || !is_digit(stem.last()),
        digits_value(x) < digits_value(y),
    ensures
        natural(stem + x, stem + y) == -1,
    decreases stem.len(),
{
    let a = stem + x;
    let b = stem + y;
    lemma_first_run(a);
    lemma_first_run(b);
    if stem.len() == 0 {
        assert(a =~= x && b =~= y);
        lemma_run_len_all(x, true);
        lemma_run_len_all(y, true);
        assert(first_run(x) =~= x);
        assert(first_run(y) =~= y);
    } else {
        let d = is_digit(stem[0]);
        lemma_run_len_prefix(stem, x, d);
        lemma_run_len_prefix(stem, y, d);
        let n = run_len(stem, d) as int;
        lemma_run_len_bound(stem, d);
        assert(first_run(a) =~= stem.take(n));
        assert(first_run(b) =~= stem.take(n));
        assert(a.skip(n) =~= stem.skip(n) + x);
        assert(b.skip(n) =~= stem.skip(n) + y);
        if n < stem.len() {
            assert(stem.skip(n).last() == stem.last());
        }
        lemma_order_follows_numbers(stem.skip(n), x, y);
    }
}

/// A sequence of one kind is one run.
pub proof fn lemma_run_len_all(s: Seq<u8>, digit: bool)
    requires
        forall|i: int| 0 <= i < s.len() ==> is_digit(#[trigger] s[i]) == digit,
    ensures
        run_len(s, digit) == s.len(),
    decreases s.len(),
{
    if s.len() > 0 {
        let t = s.drop_first();
        assert forall|i: int| 0 <= i < t.len() implies is_digit(#[trigger] t[i]) == digit by {
            assert(t[i] == s[i + 1]);
        }
        lemma_run_len_all(t, digit);
    }
}

/// A run that ends within `stem`, or at the end of a `stem` that does not
/// end in a digit, is not changed by digits that follow the stem.
pub proof fn lemma_run_len_prefix(stem: Seq<u8>, x: Seq<u8>, digit: bool)
    requires
        stem.len() > 0,
        !is_digit(stem.last()),
        x.len() > 0,
        is_digit(x[0]),
    ensures
        run_len(stem + x, digit) == run_len(stem, digit),
    decreases stem.len(),
{
    let a = stem + x;
    assert(a[0] == stem[0]);
    if is_digit(stem[0]) == digit {
        let t = stem.drop_first();
        assert(a.drop_first() =~= t + x);
        if t.len() == 0 {
            assert(stem.last() == stem[0]);
            assert(!digit);
            assert(t + x =~= x);
            assert(run_len(x, digit) == 0);
            assert(run_len(t, digit) == 0);
            assert(run_len(a, digit) == 1 + run_len(a.drop_first(), digit));
            assert(run_len(stem, digit) == 1 + run_len(t, digit));
        } else {
            assert(t.last() == stem.last());
            lemma_run_len_prefix(t, x, digit);
        }
    }
}

} // verus!
