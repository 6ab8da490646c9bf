//! The command line of the engine: what a key does to the text that is
//! typed and to the place of the cursor in it.

use crate::action::CmdAction;
use crate::keys::{keycode2str, Key, Mods};
use crate::nav::Nav;
use crate::text::{bytes_of, lemma_bytes_decide};
use crate::utils::{find_word, find_word_rev, word_end, word_start};
use vstd::prelude::*;
use vstd::string::*;
use vstd::utf8::{encode_utf8_valid_utf8, valid_utf8};

verus! {

/// What a key asks of the command line.
#[derive(Clone, Debug, Copy, PartialEq, Eq, Structural)]
pub enum Edit {
    /// Leave the command line.
    Leave,
    /// Run what was typed.
    Submit,
    WordLeft,
    Left,
    WordRight,
    Right,
    KillWordLeft,
    Backspace,
    Delete,
    KillWordRight,
    KillToStart,
    KillToEnd,
    Home,
    End,
    Insert(char),
    Nothing,
}

/// What a key asks of the command line, with the keys held down: the
/// first that applies of escape or control with `c` or `[` to leave; enter
/// to run; control with left or alt with `b` to go a word back; left or
/// control with `b` to go a character back; the same to the right with `f`;
/// control with `w` to delete a word back; backspace or control with `h`;
/// delete; alt with `d` to delete a word on; control with `u` and `k` to
/// delete up to the cursor and from it; control with `a` or home, control
/// with `e` or end; and a character alone to be typed.
pub open spec fn spec_edit_of(key: Key, mods: Mods) -> Edit {
    if key == Key::Esc || (mods.control && (key == Key::Char('c') || key == Key::Char('['))) {
        Edit::Leave
    } else if key == Key::Enter {
        Edit::Submit
    } else if (mods.control && key == Key::Left) || (mods.alt && key == Key::Char('b')) {
        Edit::WordLeft
    } else if key == Key::Left || (mods.control && key == Key::Char('b')) {
        Edit::Left
    } else if (mods.control && key == Key::Right) || (mods.alt && key == Key::Char('f')) {
        Edit::WordRight
    } else if key == Key::Right || (mods.control && key == Key::Char('f')) {
        Edit::Right
    } else if mods.control && key == Key::Char('w') {
        Edit::KillWordLeft
    } else if key == Key::Backspace || (mods.control && key == Key::Char('h')) {
        Edit::Backspace
    } else if key == Key::Delete {
        Edit::Delete
    } else if mods.alt && key == Key::Char('d') {
        Edit::KillWordRight
    } else if mods.control && key == Key::Char('u') {
        Edit::KillToStart
    } else if mods.control && key == Key::Char('k') {
        Edit::KillToEnd
    } else if (mods.control && key == Key::Char('a')) || key == Key::Home {
        Edit::Home
    } else if (mods.control && key == Key::Char('e')) || key == Key::End {
        Edit::End
    } else if key is Char && !mods.control && !mods.alt {
        Edit::Insert(key->Char_0)
    } else {
        Edit::Nothing
    }
}

#[verifier::when_used_as_spec(spec_edit_of)]
pub fn edit_of(key: Key, mods: Mods) -> (r: Edit)
    ensures
        r == spec_edit_of(key, mods),
{
    if key == Key::Esc || (mods.control && (key == Key::Char('c') || key == Key::Char('['))) {
        Edit::Leave
    } else if key == Key::Enter {
        Edit::Submit
    } else if (mods.control && key == Key::Left) || (mods.alt && key == Key::Char('b')) {
        Edit::WordLeft
    } else if key == Key::Left || (mods.control && key == Key::Char('b')) {
        Edit::Left
    } else if (mods.control && key == Key::Right) || (mods.alt && key == Key::Char('f')) {
        Edit::WordRight
    } else if key == Key::Right || (mods.control && key == Key::Char('f')) {
        Edit::Right
    } else if mods.control && key == Key::Char('w') {
        Edit::KillWordLeft
    } else if key == Key::Backspace || (mods.control && key == Key::Char('h')) {
        Edit::Backspace
    } else if key == Key::Delete {
        Edit::Delete
    } else if mods.alt && key == Key::Char('d') {
        Edit::KillWordRight
    } else if mods.control && key == Key::Char('u') {
        Edit::KillToStart
    } else if mods.control && key == Key::Char('k') {
        Edit::KillToEnd
    } else if (mods.control && key == Key::Char('a')) || key == Key::Home {
        Edit::Home
    } else if (mods.control && key == Key::Char('e')) || key == Key::End {
        Edit::End
    } else {
        match key {
            Key::Char(ch) => if !mods.control && !mods.alt {
                Edit::Insert(ch)
            } else {
                Edit::Nothing
            },
            _ => Edit::Nothing,
        }
    }
}

/// A byte that goes on a character which began before it.
pub open spec fn is_continuation(b: u8) -> bool {
    0x80 <= b <= 0xbf
}

/// Where the character begins that ends before byte `i`.
pub open spec fn char_back(s: Seq<u8>, i: int) -> int
    decreases i,
{
    if i <= 1 || i > s.len() {
        0
    } else if !is_continuation(s[i - 1]) {
        i - 1
    } else {
        char_back(s, i - 1)
    }
}

/// Where the next character begins at byte `i` or behind it.
pub open spec fn char_forth(s: Seq<u8>, i: int) -> int
    decreases s.len() - i,
{
    if i < 0 || i >= s.len() {
        s.len() as int
    } else if !is_continuation(s[i]) {
        i
    } else {
        char_forth(s, i + 1)
    }
}

/// The bytes of the text and the place of the cursor after an edit. An
/// edit that needs the cursor within the text changes nothing where it is
/// not.
pub open spec fn line_after(s: Seq<u8>, ind: int, edit: Edit) -> (Seq<u8>, int) {
    match edit {
        Edit::WordLeft => (s, word_start(s, ind)),
        Edit::Left => (
            s,
            if 0 < ind <= s.len() {
                char_back(s, ind)
            } else {
                ind
            },
        ),
        Edit::WordRight => (s, word_end(s, ind)),
        Edit::Right => (
            s,
            if 0 <= ind < s.len() {
                char_forth(s, ind + 1)
            } else {
                ind
            },
        ),
        Edit::KillWordLeft => if 0 <= ind <= s.len() {
            (s.take(word_start(s, ind)) + s.skip(ind), word_start(s, ind))
        } else {
            (s, ind)
        },
        Edit::Backspace => if 0 < ind <= s.len() {
            (s.take(char_back(s, ind)) + s.skip(ind), char_back(s, ind))
        } else {
            (s, ind)
        },
        Edit::Delete => if 0 <= ind < s.len() {
            (s.take(ind) + s.skip(char_forth(s, ind + 1)), ind)
        } else {
            (s, ind)
        },
        Edit::KillWordRight => if 0 <= ind < s.len() {
            (s.take(ind) + s.skip(word_end(s, ind)), ind)
        } else {
            (s, ind)
        },
        Edit::KillToStart => if 0 <= ind <= s.len() {
            (s.skip(ind), 0)
        } else {
            (s, ind)
        },
        Edit::KillToEnd => if 0 <= ind <= s.len() {
            (s.take(ind), ind)
        } else {
            (s, ind)
        },
        Edit::Home => (s, 0),
        Edit::End => (s, s.len() as int),
        Edit::Insert(ch) => if 0 <= ind <= s.len() {
            (s.take(ind) + bytes_of(seq![ch]) + s.skip(ind), ind + bytes_of(seq![ch]).len())
        } else {
            (s, ind)
        },
        _ => (s, ind),
    }
}

pub proof fn lemma_word_bounds(s: Seq<u8>, ind: int)
    requires
        0 <= ind <= s.len(),
    ensures
        0 <= word_start(s, ind) <= ind,
        ind <= word_end(s, ind) <= s.len(),
{
    lemma_back_while(s, ind, true);
    lemma_back_while(s, crate::utils::back_while(s, ind, true), false);
    lemma_forth_while(s, ind, true);
    lemma_forth_while(s, crate::utils::forth_while(s, ind, true), false);
}

proof fn lemma_back_while(s: Seq<u8>, i: int, sep: bool)
    requires
        0 <= i <= s.len(),
    ensures
        0 <= crate::utils::back_while(s, i, sep) <= i,
    decreases i,
{
    if i > 0 && crate::utils::is_separator(s[i - 1]) == sep {
        lemma_back_while(s, i - 1, sep);
    }
}

proof fn lemma_forth_while(s: Seq<u8>, i: int, sep: bool)
    requires
        0 <= i <= s.len(),
    ensures
        i <= crate::utils::forth_while(s, i, sep) <= s.len(),
    decreases s.len() - i,
{
    if i < s.len() && crate::utils::is_separator(s[i]) == sep {
        lemma_forth_while(s, i + 1, sep);
    }
}

/// Calls `String::from_utf8` of std: the string that the bytes encode,
/// or nothing where they are no UTF-8.
#[verifier::external_body]
fn string_of(bytes: Vec<u8>) -> (r: Option<String>)
    ensures
        match r {
            Some(s) => bytes_of(s@) == bytes@,
            None => !valid_utf8(bytes@),
        },
{
    match String::from_utf8(bytes) {
        Ok(s) => Some(s),
        Err(_) => None,
    }
}

fn go_char_back(s: &[u8], i: usize) -> (r: usize)
    requires
        0 < i <= s@.len(),
    ensures
        r == char_back(s@, i as int),
        r < i,
{
    let mut j: usize = i - 1;
    while j > 0 && 0x80 <= s[j] && s[j] <= 0xbf
        invariant
            j < i <= s@.len(),
            char_back(s@, i as int) == char_back(s@, j + 1),
        decreases j,
    {
        j -= 1;
    }
    j
}

fn go_char_forth(s: &[u8], i: usize) -> (r: usize)
    requires
        i <= s@.len(),
    ensures
        r == char_forth(s@, i as int),
        i <= r <= s@.len(),
{
    let mut j: usize = i;
    while j < s.len() && 0x80 <= s[j] && s[j] <= 0xbf
        invariant
            i <= j <= s@.len(),
            char_forth(s@, i as int) == char_forth(s@, j as int),
        decreases s.len() - j,
    {
        j += 1;
    }
    j
}

/// The bytes `s[..upto]`, then `middle`, then `s[from..]`.
fn splice(s: &[u8], upto: usize, middle: &[u8], from: usize) -> (r: Vec<u8>)
    requires
        upto <= s@.len(),
        from <= s@.len(),
    ensures
        r@ == s@.take(upto as int) + middle@ + s@.skip(from as int),
{
    let mut r: Vec<u8> = Vec::new();
    let mut i: usize = 0;
    while i < upto
        invariant
            i <= upto <= s@.len(),
            r@ == s@.take(i as int),
        decreases upto - i,
    {
        r.push(s[i]);
        i += 1;
        assert(r@ =~= s@.take(i as int));
    }
    let mut k: usize = 0;
    while k < middle.len()
        invariant
            k <= middle@.len(),
            r@ == s@.take(upto as int) + middle@.take(k as int),
        decreases middle.len() - k,
    {
        r.push(middle[k]);
        k += 1;
        assert(r@ =~= s@.take(upto as int) + middle@.take(k as int));
    }
    assert(middle@.take(k as int) =~= middle@);
    let mut j: usize = from;
    while j < s.len()
        invariant
            from <= j <= s@.len(),
            r@ == s@.take(upto as int) + middle@ + s@.subrange(from as int, j as int),
        decreases s.len() - j,
    {
        r.push(s[j]);
        j += 1;
        assert(r@ =~= s@.take(upto as int) + middle@ + s@.subrange(from as int, j as int));
    }
    assert(s@.subrange(from as int, j as int) =~= s@.skip(from as int));
    r
}

/// What became of the command line.
#[derive(Debug)]
pub enum CmdOutcome {
    /// It is still open.
    Stay,
    /// It was left.
    Leave,
    /// It was left, and this is to be run.
    Submit(CmdAction),
}

impl Nav {
    /// Nothing differs between `self` and `other` but the command line.
    pub open spec fn same_but_cmd(&self, other: &Nav) -> bool {
        &&& self.useful_rows == other.useful_rows
        &&& self.settings == other.settings
        &&& self.dir_cache == other.dir_cache
        &&& self.dirs == other.dirs
        &&& self.dir_preview == other.dir_preview
        &&& self.reg_cache == other.reg_cache
        &&& self.reg_preview == other.reg_preview
        &&& self.search_string == other.search_string
        &&& self.search_direction == other.search_direction
        &&& self.selections == other.selections
        &&& self.cut_or_copy == other.cut_or_copy
        &&& self.is_cut == other.is_cut
        &&& self.mv_cp_total_size == other.mv_cp_total_size
        &&& self.mv_cp_size == other.mv_cp_size
        &&& self.error_message == other.error_message
    }

    /// Opens the command line: `prefix` says what kind of line it is,
    /// `text` is what stands on it already, and the cursor is behind that.
    pub fn command_mode(&mut self, prefix: char, text: &str)
        ensures
            final(self).same_but_cmd(old(self)),
            final(self).cmd_prefix == prefix,
            final(self).cmd_string@ == text@,
            final(self).cmd_string_ind == bytes_of(text@).len(),
    {
        self.cmd_prefix = prefix;
        self.cmd_string = String::from_str(text);
        self.cmd_string_ind = text.as_bytes().len();
    }

    /// Leaves the command line, and empties it.
    pub fn normal_mode(&mut self)
        ensures
            final(self).same_but_cmd(old(self)),
            final(self).cmd_prefix == '\0',
            final(self).cmd_string@.len() == 0,
            final(self).cmd_string_ind == old(self).cmd_string_ind,
    {
        self.cmd_prefix = '\0';
        self.cmd_string = String::new();
    }

    /// Makes the edit on the text of the command line: see `line_after`.
    /// The text is kept as it is where the edit would leave bytes that are
    /// no text, as it may with a cursor that stands within a character.
    pub fn edit(&mut self, edit: Edit)
        ensures
            final(self).same_but_cmd(old(self)),
            final(self).cmd_prefix == old(self).cmd_prefix,
            ({
                let after = line_after(bytes_of(old(self).cmd_string@), old(self).cmd_string_ind as int, edit);
                if valid_utf8(after.0) {
                    bytes_of(final(self).cmd_string@) == after.0 && final(self).cmd_string_ind == after.1
                } else {
                    final(self).cmd_string@ == old(self).cmd_string@ && final(self).cmd_string_ind == old(self).cmd_string_ind
                }
            }),
    {
        let ind = self.cmd_string_ind;
        let ghost s = bytes_of(self.cmd_string@);
        proof {
            encode_utf8_valid_utf8(self.cmd_string@);
            if 0 <= ind <= s.len() {
                lemma_word_bounds(s, ind as int);
            }
        }
        let mut changed: Option<(Vec<u8>, usize)> = None;
        let mut moved: usize = ind;
        {
            let text = self.cmd_string.as_str();
            let b = text.as_bytes();
            let len = b.len();
            let none: Vec<u8> = Vec::new();
            assert(none@ =~= Seq::<u8>::empty());
            match edit {
                Edit::WordLeft => {
                    let (_, new) = find_word(text, ind);
                    moved = new;
                },
                Edit::Left => {
                    if 0 < ind && ind <= len {
                        moved = go_char_back(b, ind);
                    }
                },
                Edit::WordRight => {
                    let (_, new) = find_word_rev(text, ind);
                    moved = new;
                },
                Edit::Right => {
                    if ind < len {
                        moved = go_char_forth(b, ind + 1);
                    }
                },
                Edit::KillWordLeft => {
                    if ind <= len {
                        let (_, new) = find_word(text, ind);
                        let r = splice(b, new, none.as_slice(), ind);
                        assert(r@ =~= s.take(new as int) + s.skip(ind as int));
                        changed = Some((r, new));
                    }
                },
                Edit::Backspace => {
                    if 0 < ind && ind <= len {
                        let p = go_char_back(b, ind);
                        let r = splice(b, p, none.as_slice(), ind);
                        assert(r@ =~= s.take(p as int) + s.skip(ind as int));
                        changed = Some((r, p));
                    }
                },
                Edit::Delete => {
                    if ind < len {
                        let q = go_char_forth(b, ind + 1);
                        let r = splice(b, ind, none.as_slice(), q);
                        assert(r@ =~= s.take(ind as int) + s.skip(q as int));
                        changed = Some((r, ind));
                    }
                },
                Edit::KillWordRight => {
                    if ind < len {
                        let (_, new) = find_word_rev(text, ind);
                        let r = splice(b, ind, none.as_slice(), new);
                        assert(r@ =~= s.take(ind as int) + s.skip(new as int));
                        changed = Some((r, ind));
                    }
                },
                Edit::KillToStart => {
                    if ind <= len {
                        let r = splice(b, 0, none.as_slice(), ind);
                        assert(r@ =~= s.skip(ind as int));
                        changed = Some((r, 0));
                    }
                },
                Edit::KillToEnd => {
                    if ind <= len {
                        let r = splice(b, ind, none.as_slice(), len);
                        assert(r@ =~= s.take(ind as int));
                        changed = Some((r, ind));
                    }
                },
                Edit::Home => {
                    moved = 0;
                },
                Edit::End => {
                    moved = len;
                },
                Edit::Insert(ch) => {
                    if ind <= len {
                        let typed = keycode2str(Key::Char(ch));
                        let t = typed.as_str().as_bytes();
                        let r = splice(b, ind, t, ind);
                        let n = r.len();
                        assert(n == len + t@.len());
                        changed = Some((r, ind + t.len()));
                    }
                },
                _ => {},
            }
        }
        let ghost after = line_after(s, ind as int, edit);
        match changed {
            Some((bytes, at)) => {
                assert(bytes@ == after.0 && at == after.1);
                match string_of(bytes) {
                    Some(text) => {
                        proof {
                            encode_utf8_valid_utf8(text@);
                        }
                        self.cmd_string = text;
                        self.cmd_string_ind = at;
                    },
                    None => {},
                }
            },
            None => {
                assert(after.0 == s && moved == after.1);
                self.cmd_string_ind = moved;
            },
        }
    }

    /// Takes in a key on the command line. Escape, or control with `c` or
    /// `[`, leaves the line; enter leaves it and gives what was typed to be
    /// run; any other key edits the text: see `spec_edit_of` and `edit`.
    pub fn handle_cmd_key(&mut self, key: Key, mods: Mods) -> (r: CmdOutcome)
        ensures
            final(self).same_but_cmd(old(self)),
            match spec_edit_of(key, mods) {
                Edit::Leave => r is Leave && final(self).cmd_prefix == '\0' && final(self).cmd_string@.len() == 0,
                Edit::Submit => {
                    &&& r is Submit
                    &&& r->Submit_0.cmd@ == old(self).cmd_string@
                    &&& r->Submit_0.prefix == old(self).cmd_prefix
                    &&& final(self).cmd_prefix == '\0'
                    &&& final(self).cmd_string@.len() == 0
                },
                e => {
                    let after = line_after(bytes_of(old(self).cmd_string@), old(self).cmd_string_ind as int, e);
                    &&& r is Stay
                    &&& final(self).cmd_prefix == old(self).cmd_prefix
                    &&& if valid_utf8(after.0) {
                        bytes_of(final(self).cmd_string@) == after.0 && final(self).cmd_string_ind == after.1
                    } else {
                        final(self).cmd_string@ == old(self).cmd_string@ && final(self).cmd_string_ind == old(self).cmd_string_ind
                    }
                },
            },
    {
        match edit_of(key, mods) {
            Edit::Leave => {
                self.normal_mode();
                CmdOutcome::Leave
            },
            Edit::Submit => {
                let action = CmdAction::new(self.cmd_string.as_str(), self.cmd_prefix);
                self.normal_mode();
                CmdOutcome::Submit(action)
            },
            e => {
                self.edit(e);
                CmdOutcome::Stay
            },
        }
    }
}

} // verus!
