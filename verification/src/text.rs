//! Small tools on strings: their characters, their bytes, equality, search.

use crate::config::CASE_INSENSITIVE;
use crate::order::{lowered, to_lower};
use vstd::prelude::*;
use vstd::std_specs::iter::IteratorSpec;
use vstd::string::*;
use vstd::utf8::*;

verus! {

/// The characters of `s`, in a vector.
pub fn chars_of(s: &str) -> (r: Vec<char>)
    ensures
        r@ == s@,
{
    broadcast use vstd::string::group_string_axioms;

    let mut it = s.chars();
    let mut r: Vec<char> = Vec::new();
    loop
        invariant
            r@ + it.remaining() == s@,
            it.obeys_prophetic_iter_laws(),
        decreases s@.len() - r@.len(),
    {
        let ghost before = it.remaining();
        match it.next() {
            Some(c) => {
                r.push(c);
                assert(r@ + it.remaining() =~= s@) by {
                    assert(before =~= seq![c] + it.remaining());
                }
            },
            None => {
                assert(r@ =~= s@);
                return r;
            },
        }
    }
}

/// The UTF-8 bytes of a string.
pub open spec fn bytes_of(s: Seq<char>) -> Seq<u8> {
    encode_utf8(s)
}

/// Two strings have the same bytes only if they are the same string.
pub proof fn lemma_bytes_decide(a: Seq<char>, b: Seq<char>)
    ensures
        bytes_of(a) == bytes_of(b) <==> a == b,
{
    encode_utf8_decode_utf8(a);
    encode_utf8_decode_utf8(b);
}

/// Whether two strings are equal.
pub fn str_eq(a: &str, b: &str) -> (r: bool)
    ensures
        r == (a@ == b@),
{
    let x = a.as_bytes();
    let y = b.as_bytes();
    proof {
        lemma_bytes_decide(a@, b@);
    }
    if x.len() != y.len() {
        return false;
    }
    let mut i: usize = 0;
    while i < x.len()
        invariant
            i <= x.len(),
            x.len() == y.len(),
            x@ == bytes_of(a@),
            y@ == bytes_of(b@),
            bytes_of(a@) == bytes_of(b@) <==> a@ == b@,
            forall|k: int| 0 <= k < i ==> x@[k] == y@[k],
        decreases x.len() - i,
    {
        if x[i] != y[i] {
            assert(x@[i as int] != y@[i as int]);
            return false;
        }
        i += 1;
    }
    assert(x@ =~= y@);
    true
}

/// `needle` stands in `hay` at `at`.
pub open spec fn occurs_at(needle: Seq<u8>, hay: Seq<u8>, at: int) -> bool {
    0 <= at && at + needle.len() <= hay.len() && hay.subrange(at, at + needle.len()) == needle
}

/// `needle` stands somewhere in `hay`, as a run of bytes.
pub open spec fn occurs_in(needle: Seq<u8>, hay: Seq<u8>) -> bool {
    exists|at: int| occurs_at(needle, hay, at)
}

fn matches_at(needle: &Vec<u8>, hay: &Vec<u8>, at: usize) -> (r: bool)
    requires
        at + needle.len() <= hay.len(),
    ensures
        r == occurs_at(needle@, hay@, at as int),
{
    let mut k: usize = 0;
    while k < needle.len()
        invariant
            k <= needle.len(),
            at + needle.len() <= hay.len(),
            forall|i: int| 0 <= i < k ==> hay@[at + i] == needle@[i],
        decreases needle.len() - k,
    {
        if hay[at + k] != needle[k] {
            proof {
                let sub = hay@.subrange(at as int, at + needle.len());
                assert(sub[k as int] == hay@[at + k]);
            }
            return false;
        }
        k += 1;
    }
    assert(hay@.subrange(at as int, at + needle.len()) =~= needle@);
    true
}

/// Whether `needle` stands somewhere in `hay`.
pub fn contains_bytes(needle: &Vec<u8>, hay: &Vec<u8>) -> (r: bool)
    ensures
        r == occurs_in(needle@, hay@),
{
    if needle.len() > hay.len() {
        return false;
    }
    let last = hay.len() - needle.len();
    let mut at: usize = 0;
    loop
        invariant
            at <= last,
            last == hay.len() - needle.len(),
            needle.len() <= hay.len(),
            forall|k: int| 0 <= k < at ==> !occurs_at(needle@, hay@, k),
        decreases last - at,
    {
        if matches_at(needle, hay, at) {
            return true;
        }
        if at == last {
            return false;
        }
        at += 1;
    }
}

/// The bytes by which a search compares: in small letters where the search
/// passes over case.
pub open spec fn folded(s: Seq<u8>) -> Seq<u8> {
    if CASE_INSENSITIVE {
        lowered(s)
    } else {
        s
    }
}

/// Whether `pattern` stands somewhere in `name`.
pub open spec fn name_matches(name: Seq<char>, pattern: Seq<char>) -> bool {
    occurs_in(folded(bytes_of(pattern)), folded(bytes_of(name)))
}

/// The bytes of `s` as a search compares them.
pub fn fold(s: &str) -> (r: Vec<u8>)
    ensures
        r@ == folded(bytes_of(s@)),
{
    if CASE_INSENSITIVE {
        to_lower(s.as_bytes())
    } else {
        s.as_bytes_vec()
    }
}

/// The character of a decimal digit.
pub open spec fn digit_char(d: int) -> char {
    if d == 0 {
        '0'
    } else if d == 1 {
        '1'
    } else if d == 2 {
        '2'
    } else if d == 3 {
        '3'
    } else if d == 4 {
        '4'
    } else if d == 5 {
        '5'
    } else if d == 6 {
        '6'
    } else if d == 7 {
        '7'
    } else if d == 8 {
        '8'
    } else {
        '9'
    }
}

/// A number in decimal digits, without leading zeros.
pub open spec fn decimal_of(n: nat) -> Seq<char>
    decreases n,
{
    if n < 10 {
        seq![digit_char(n as int)]
    } else {
        decimal_of(n / 10).push(digit_char((n % 10) as int))
    }
}

pub fn digit_str(d: u8) -> (r: &'static str)
    requires
        d < 10,
    ensures
        r@ == seq![digit_char(d as int)],
{
    proof {
        reveal_strlit("0");
        reveal_strlit("1");
        reveal_strlit("2");
        reveal_strlit("3");
        reveal_strlit("4");
        reveal_strlit("5");
        reveal_strlit("6");
        reveal_strlit("7");
        reveal_strlit("8");
        reveal_strlit("9");
    }
    let r = if d == 0 {
        "0"
    } else if d == 1 {
        "1"
    } else if d == 2 {
        "2"
    } else if d == 3 {
        "3"
    } else if d == 4 {
        "4"
    } else if d == 5 {
        "5"
    } else if d == 6 {
        "6"
    } else if d == 7 {
        "7"
    } else if d == 8 {
        "8"
    } else {
        "9"
    };
    assert(r@ =~= seq![digit_char(d as int)]);
    r
}

/// `n` in decimal digits.
pub fn decimal(n: u64) -> (r: String)
    ensures
        r@ == decimal_of(n as nat),
{
    let mut digits: Vec<u8> = Vec::new();
    let mut rest: u64 = n;
    while rest >= 10
        invariant
            forall|i: int| 0 <= i < digits@.len() ==> #[trigger] digits@[i] < 10,
            decimal_of(n as nat) == decimal_of(rest as nat) + Seq::new(
                digits@.len(),
                |i: int| digit_char(digits@[digits@.len() - 1 - i] as int),
            ),
        decreases rest,
    {
        let ghost before = digits@;
        let d = (rest % 10) as u8;
        digits.push(d);
        proof {
            let a = Seq::new(before.len(), |i: int| digit_char(before[before.len() - 1 - i] as int));
            let b = Seq::new(digits@.len(), |i: int| digit_char(digits@[digits@.len() - 1 - i] as int));
            assert(b =~= seq![digit_char(d as int)] + a);
            assert(decimal_of(rest as nat) == decimal_of((rest / 10) as nat).push(digit_char(d as int)));
            assert(decimal_of((rest / 10) as nat).push(digit_char(d as int)) + a =~= decimal_of(
                (rest / 10) as nat,
            ) + b);
        }
        rest = rest / 10;
    }
    let mut r = String::from_str(digit_str(rest as u8));
    let mut k: usize = digits.len();
    let ghost tail = Seq::new(digits@.len(), |i: int| digit_char(digits@[digits@.len() - 1 - i] as int));
    while k > 0
        invariant
            k <= digits@.len(),
            forall|i: int| 0 <= i < digits@.len() ==> #[trigger] digits@[i] < 10,
            tail == Seq::new(digits@.len(), |i: int| digit_char(digits@[digits@.len() - 1 - i] as int)),
            r@ == decimal_of(rest as nat) + tail.take(digits@.len() - k),
        decreases k,
    {
        k -= 1;
        r.append(digit_str(digits[k]));
        assert(r@ =~= decimal_of(rest as nat) + tail.take(digits@.len() - k));
    }
    assert(tail.take(digits@.len() as int) =~= tail);
    r
}

} // verus!
