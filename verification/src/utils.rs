//! Names: which are hidden, how they are ordered, how they are cut to a
//! width, and where their words begin and end.

use crate::file::File;
use crate::order::{compare, natural_order};
use crate::text::chars_of;
use std::cmp::Ordering;
use vstd::prelude::*;
use vstd::string::*;

verus! {

/// A name is hidden when it begins with a dot and is more than the dot.
pub open spec fn hidden_name(name: Seq<char>) -> bool {
    name.len() > 1 && name[0] == '.'
}

pub open spec fn spec_is_hidden(f: &File) -> bool {
    hidden_name(f.file_name@)
}

/// Whether the listing leaves this entry out when hidden entries are not shown.
#[verifier::when_used_as_spec(spec_is_hidden)]
pub fn is_hidden(f: &File) -> (r: bool)
    ensures
        r == hidden_name(f.file_name@),
{
    let name = f.file_name.as_str();
    !name.is_empty() && name.get_char(0) == '.' && name.unicode_len() != 1
}

/// The natural order of two names: `Less` where `a` comes first. Runs of
/// digits compare by their number, the rest byte by byte, and ASCII case
/// does not count.
pub fn natural_cmp(a: &str, b: &str) -> (r: Ordering)
    ensures
        (r is Less) == (natural_order(a.spec_bytes(), b.spec_bytes()) < 0),
        (r is Equal) == (natural_order(a.spec_bytes(), b.spec_bytes()) == 0),
        (r is Greater) == (natural_order(a.spec_bytes(), b.spec_bytes()) > 0),
{
    let c = compare(a.as_bytes(), b.as_bytes());
    if c < 0 {
        Ordering::Less
    } else if c == 0 {
        Ordering::Equal
    } else {
        Ordering::Greater
    }
}

/// What `UnicodeWidthChar::width` gives for `c`: the number of terminal
/// columns of the character, or nothing for a control character.
pub uninterp spec fn char_width(c: char) -> Option<usize>;

/// The columns that `c` takes on the terminal; a control character takes none.
pub open spec fn columns(c: char) -> nat {
    match char_width(c) {
        Some(w) => w as nat,
        None => 0,
    }
}

/// The columns that a string takes on the terminal.
pub open spec fn columns_sum(s: Seq<char>) -> nat
    decreases s.len(),
{
    if s.len() == 0 {
        0
    } else {
        columns_sum(s.drop_last()) + columns(s.last())
    }
}

/// Calls `UnicodeWidthChar::width` of the crate unicode-width. The contract
/// claims only that the result is a function of the character.
#[verifier::external_body]
fn width_of(c: char) -> (r: Option<usize>)
    ensures
        r == char_width(c),
{
    unicode_width::UnicodeWidthChar::width(c)
}

/// What `UnicodeWidthStr::width` gives for a string: the number of
/// terminal columns that it takes as a whole, which for some sequences of
/// characters is not the sum over the characters.
pub uninterp spec fn text_width(s: Seq<char>) -> usize;

/// Calls `UnicodeWidthStr::width` of the crate unicode-width. The contract
/// claims only that the result is a function of the string.
#[verifier::external_body]
pub(crate) fn width_of_text(s: &str) -> (r: usize)
    ensures
        r == text_width(s@),
{
    unicode_width::UnicodeWidthStr::width(s)
}

/// The columns that `c` takes on the terminal.
pub fn columns_of(c: char) -> (r: usize)
    ensures
        r == columns(c),
{
    match width_of(c) {
        Some(w) => w,
        None => 0,
    }
}

pub proof fn lemma_columns_push(s: Seq<char>, k: int)
    requires
        0 <= k < s.len(),
    ensures
        columns_sum(s.take(k + 1)) == columns_sum(s.take(k)) + columns(s[k]),
{
    assert(s.take(k + 1).drop_last() =~= s.take(k));
}

pub proof fn lemma_columns_front(s: Seq<char>)
    requires
        s.len() > 0,
    ensures
        columns_sum(s) == columns(s[0]) + columns_sum(s.drop_first()),
    decreases s.len(),
{
    if s.len() == 1 {
        assert(s.drop_last() =~= Seq::<char>::empty());
        assert(s.drop_first() =~= Seq::<char>::empty());
    } else {
        lemma_columns_front(s.drop_last());
        assert(s.drop_last().drop_first() =~= s.drop_first().drop_last());
    }
}

/// The longest beginning of `s` that fits into `width` columns.
pub fn shrink_unicode_str(s: &str, width: usize) -> (r: &str)
    ensures
        r@.len() <= s@.len(),
        r@ == s@.take(r@.len() as int),
        columns_sum(r@) <= width,
        r@.len() < s@.len() ==> columns_sum(s@.take(r@.len() as int + 1)) > width,
{
    let cs = chars_of(s);
    let mut k: usize = 0;
    let mut curr: usize = 0;
    assert(cs@.take(0) =~= Seq::<char>::empty());
    while k < cs.len()
        invariant
            k <= cs.len(),
            cs@ == s@,
            curr <= width,
            curr == columns_sum(cs@.take(k as int)),
        ensures
            k < cs.len() ==> columns_sum(cs@.take(k + 1)) > width,
        decreases cs.len() - k,
    {
        let w = columns_of(cs[k]);
        proof {
            lemma_columns_push(cs@, k as int);
        }
        if w > width - curr {
            break ;
        }
        curr += w;
        k += 1;
    }
    s.substring_char(0, k)
}

/// The longest end of `s` that fits into `width` columns.
pub fn shrink_unicode_str_rev(s: &str, width: usize) -> (r: &str)
    ensures
        r@.len() <= s@.len(),
        r@ == s@.skip(s@.len() - r@.len()),
        columns_sum(r@) <= width,
        r@.len() < s@.len() ==> columns_sum(s@.skip(s@.len() - r@.len() - 1)) > width,
{
    let cs = chars_of(s);
    let mut head: usize = cs.len();
    let mut curr: usize = 0;
    assert(cs@.skip(cs@.len() as int) =~= Seq::<char>::empty());
    while head > 0
        invariant
            head <= cs.len(),
            cs@ == s@,
            curr <= width,
            curr == columns_sum(cs@.skip(head as int)),
        ensures
            head > 0 ==> columns_sum(cs@.skip(head - 1)) > width,
        decreases head,
    {
        let w = columns_of(cs[head - 1]);
        proof {
            let t = cs@.skip(head - 1);
            lemma_columns_front(t);
            assert(t.drop_first() =~= cs@.skip(head as int));
        }
        if w > width - curr {
            break ;
        }
        curr += w;
        head -= 1;
    }
    let r = s.substring_char(head, cs.len());
    assert(r@ =~= s@.skip(s@.len() - r@.len()));
    r
}

/// The bytes that part words: ASCII white space, the slash and the dot.
pub open spec fn is_separator(b: u8) -> bool {
    b == 32 || b == 9 || b == 10 || b == 12 || b == 13 || b == 47 || b == 46
}

/// Going back from `i` for as long as the byte before is a separator
/// (`sep`) or is none: where that ends.
pub open spec fn back_while(s: Seq<u8>, i: int, sep: bool) -> int
    decreases i,
{
    if i <= 0 || i > s.len() || is_separator(s[i - 1]) != sep {
        i
    } else {
        back_while(s, i - 1, sep)
    }
}

/// Going on from `i` for as long as the byte there is a separator (`sep`)
/// or is none: where that ends.
pub open spec fn forth_while(s: Seq<u8>, i: int, sep: bool) -> int
    decreases s.len() - i,
{
    if i < 0 || i >= s.len() || is_separator(s[i]) != sep {
        i
    } else {
        forth_while(s, i + 1, sep)
    }
}

/// Where the word before byte `ind` begins: back over the separators
/// before `ind`, then back over the word.
pub open spec fn word_start(s: Seq<u8>, ind: int) -> int {
    if 0 < ind <= s.len() {
        back_while(s, back_while(s, ind, true), false)
    } else {
        ind
    }
}

/// Where the word after byte `ind` ends: on over the separators at `ind`,
/// then on over the word.
pub open spec fn word_end(s: Seq<u8>, ind: int) -> int {
    if 0 <= ind < s.len() {
        forth_while(s, forth_while(s, ind, true), false)
    } else {
        ind
    }
}

fn is_separator_byte(b: u8) -> (r: bool)
    ensures
        r == is_separator(b),
{
    b == 32 || b == 9 || b == 10 || b == 12 || b == 13 || b == 47 || b == 46
}

fn go_back(s: &[u8], from: usize, sep: bool) -> (r: usize)
    requires
        from <= s.len(),
    ensures
        r == back_while(s@, from as int, sep),
        r <= from,
{
    let mut i: usize = from;
    while i > 0 && is_separator_byte(s[i - 1]) == sep
        invariant
            i <= from <= s.len(),
            back_while(s@, from as int, sep) == back_while(s@, i as int, sep),
        decreases i,
    {
        i -= 1;
    }
    i
}

fn go_forth(s: &[u8], from: usize, sep: bool) -> (r: usize)
    requires
        from <= s.len(),
    ensures
        r == forth_while(s@, from as int, sep),
        from <= r <= s.len(),
{
    let mut i: usize = from;
    while i < s.len() && is_separator_byte(s[i]) == sep
        invariant
            from <= i <= s.len(),
            forth_while(s@, from as int, sep) == forth_while(s@, i as int, sep),
        decreases s.len() - i,
    {
        i += 1;
    }
    i
}

/// The byte index `ind`, and the index where the word before it begins.
pub fn find_word(s: &str, ind: usize) -> (r: (usize, usize))
    ensures
        r.0 == ind,
        r.1 == word_start(s.spec_bytes(), ind as int),
        r.1 <= ind,
{
    let b = s.as_bytes();
    if ind > 0 && ind <= b.len() {
        let mid = go_back(b, ind, true);
        let new = go_back(b, mid, false);
        (ind, new)
    } else {
        (ind, ind)
    }
}

/// The byte index `ind`, and the index where the word after it ends.
pub fn find_word_rev(s: &str, ind: usize) -> (r: (usize, usize))
    ensures
        r.0 == ind,
        r.1 == word_end(s.spec_bytes(), ind as int),
        r.1 >= ind,
{
    let b = s.as_bytes();
    if ind < b.len() {
        let mid = go_forth(b, ind, true);
        let new = go_forth(b, mid, false);
        (ind, new)
    } else {
        (ind, ind)
    }
}

/// The columns that are left for a text between `prefix` and `suffix`
/// in a field of `cols` columns; the two count by their bytes.
pub open spec fn room(prefix: Seq<char>, suffix: Seq<char>, cols: u16) -> nat {
    let taken = crate::text::bytes_of(prefix).len() + crate::text::bytes_of(suffix).len();
    if cols >= taken {
        (cols - taken) as nat
    } else {
        0
    }
}

/// `s` cut to fit a field of `cols` columns between `prefix` and
/// `suffix`: its beginning is kept, or its end (`rev`).
pub fn fit_screen<'a>(s: &'a str, prefix: &str, suffix: &str, cols: u16, rev: bool) -> (r: String)
    ensures
        exists|kept: Seq<char>|
            {
                &&& r@ == prefix@ + kept + suffix@
                &&& kept.len() <= s@.len()
                &&& columns_sum(kept) <= room(prefix@, suffix@, cols)
                &&& !rev ==> kept == s@.take(kept.len() as int) && (kept.len() < s@.len() ==> columns_sum(
                    s@.take(kept.len() as int + 1),
                ) > room(prefix@, suffix@, cols))
                &&& rev ==> kept == s@.skip(s@.len() - kept.len()) && (kept.len() < s@.len() ==> columns_sum(
                    s@.skip(s@.len() - kept.len() - 1),
                ) > room(prefix@, suffix@, cols))
            },
{
    let plen = prefix.as_bytes().len();
    let slen = suffix.as_bytes().len();
    let width = if plen <= cols as usize && slen <= cols as usize - plen {
        cols as usize - plen - slen
    } else {
        0
    };
    let kept = if rev {
        shrink_unicode_str_rev(s, width)
    } else {
        shrink_unicode_str(s, width)
    };
    let mut r = String::from_str(prefix);
    r.append(kept);
    r.append(suffix);
    assert(r@ == prefix@ + kept@ + suffix@);
    r
}

} // verus!
