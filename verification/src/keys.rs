//! Keys: their names, and how a sequence of them finds its binding.

use crate::text::{chars_of, decimal, decimal_of, str_eq};
use vstd::prelude::*;
use vstd::string::*;

verus! {

/// A key of the keyboard.
#[derive(Clone, Debug, Copy, PartialEq, Eq, Structural)]
pub enum Key {
    Char(char),
    F(u8),
    Esc,
    Backspace,
    Enter,
    Left,
    Right,
    Up,
    Down,
    Home,
    End,
    PageUp,
    PageDown,
    Tab,
    BackTab,
    Delete,
    Insert,
    /// Any key that has no name here.
    Other,
}

/// The keys that were held down with a key.
#[derive(Clone, Debug, Copy, PartialEq, Eq, Structural)]
pub struct Mods {
    pub control: bool,
    pub shift: bool,
    pub alt: bool,
}

/// The name of a key: the character itself, `F` with its number, the
/// name of the key; nothing for a key without a name.
pub open spec fn key_name(code: Key) -> Seq<char> {
    match code {
        Key::Char(ch) => seq![ch],
        Key::F(n) => seq!['F'] + decimal_of(n as nat),
        Key::Esc => "Esc"@,
        Key::Backspace => "Backspace"@,
        Key::Enter => "Enter"@,
        Key::Left => "Left"@,
        Key::Right => "Right"@,
        Key::Up => "Up"@,
        Key::Down => "Down"@,
        Key::Home => "Home"@,
        Key::End => "End"@,
        Key::PageUp => "PageUp"@,
        Key::PageDown => "PageDown"@,
        Key::Tab => "Tab"@,
        Key::BackTab => "Tab"@,
        Key::Delete => "Delete"@,
        Key::Insert => "Insert"@,
        Key::Other => Seq::empty(),
    }
}

/// Calls `String::push` of std: the string with the character behind it.
#[verifier::external_body]
fn push_char(s: &mut String, c: char)
    ensures
        final(s)@ == old(s)@.push(c),
{
    s.push(c);
}

/// The name of a key: see `key_name`.
pub fn keycode2str(code: Key) -> (r: String)
    ensures
        r@ == key_name(code),
{
    proof {
        reveal_strlit("F");
    }
    let mut ret = String::new();
    match code {
        Key::Char(ch) => {
            push_char(&mut ret, ch);
            assert(ret@ =~= seq![ch]);
        },
        Key::F(n) => {
            ret.append("F");
            let digits = decimal(n as u64);
            ret.append(digits.as_str());
            assert(ret@ =~= seq!['F'] + decimal_of(n as nat));
        },
        Key::Esc => {
            ret.append("Esc");
            assert(ret@ =~= "Esc"@);
        },
        Key::Backspace => {
            ret.append("Backspace");
            assert(ret@ =~= "Backspace"@);
        },
        Key::Enter => {
            ret.append("Enter");
            assert(ret@ =~= "Enter"@);
        },
        Key::Left => {
            ret.append("Left");
            assert(ret@ =~= "Left"@);
        },
        Key::Right => {
            ret.append("Right");
            assert(ret@ =~= "Right"@);
        },
        Key::Up => {
            ret.append("Up");
            assert(ret@ =~= "Up"@);
        },
        Key::Down => {
            ret.append("Down");
            assert(ret@ =~= "Down"@);
        },
        Key::Home => {
            ret.append("Home");
            assert(ret@ =~= "Home"@);
        },
        Key::End => {
            ret.append("End");
            assert(ret@ =~= "End"@);
        },
        Key::PageUp => {
            ret.append("PageUp");
            assert(ret@ =~= "PageUp"@);
        },
        Key::PageDown => {
            ret.append("PageDown");
            assert(ret@ =~= "PageDown"@);
        },
        Key::Tab | Key::BackTab => {
            ret.append("Tab");
            assert(ret@ =~= "Tab"@);
        },
        Key::Delete => {
            ret.append("Delete");
            assert(ret@ =~= "Delete"@);
        },
        Key::Insert => {
            ret.append("Insert");
            assert(ret@ =~= "Insert"@);
        },
        Key::Other => {},
    }
    ret
}

/// How a key with what was held down is written in a binding: with
/// `C-` for control or `A-` for alt in pointed brackets; else a name of one
/// byte as it is, and a longer one in pointed brackets, with `S-` where
/// shift was held.
pub open spec fn key_token(name: Seq<char>, one_byte: bool, mods: Mods) -> Seq<char> {
    if mods.control {
        "<C-"@ + name + ">"@
    } else if mods.alt {
        "<A-"@ + name + ">"@
    } else if one_byte {
        name
    } else if mods.shift {
        "<S-"@ + name + ">"@
    } else {
        "<"@ + name + ">"@
    }
}

/// `p` is a beginning of `s`.
pub open spec fn is_prefix(p: Seq<char>, s: Seq<char>) -> bool {
    p.len() <= s.len() && s.take(p.len() as int) == p
}

/// The last of the bindings that is written `keys`, or -1.
pub open spec fn bound_at(bindings: Seq<String>, keys: Seq<char>, n: int) -> int
    decreases n,
{
    if n <= 0 {
        -1
    } else if bindings[n - 1]@ == keys {
        n - 1
    } else {
        bound_at(bindings, keys, n - 1)
    }
}

/// Some binding begins with `keys`.
pub open spec fn begins_some(bindings: Seq<String>, keys: Seq<char>) -> bool {
    exists|i: int| 0 <= i < bindings.len() && is_prefix(keys, (#[trigger] bindings[i])@)
}

/// What a key did to the sequence of keys.
#[derive(Debug, PartialEq, Eq)]
pub enum Pressed {
    /// The sequence was given up.
    Cancel,
    /// The sequence is the binding of this number.
    Run(usize),
    /// The sequence is the beginning of a binding.
    Wait,
    /// No binding begins like this; the message says so.
    Unknown(String),
}

/// The keys that were pressed and have not yet found their binding.
#[derive(Debug)]
pub struct Keys {
    pub pending: String,
}

fn starts_with(s: &str, p: &str) -> (r: bool)
    ensures
        r == is_prefix(p@, s@),
{
    let a = chars_of(s);
    let b = chars_of(p);
    if b.len() > a.len() {
        return false;
    }
    let mut i: usize = 0;
    while i < b.len()
        invariant
            i <= b@.len() <= a@.len(),
            a@ == s@,
            b@ == p@,
            forall|k: int| 0 <= k < i ==> a@[k] == b@[k],
        decreases b.len() - i,
    {
        if a[i] != b[i] {
            assert(s@.take(p@.len() as int)[i as int] != p@[i as int]);
            return false;
        }
        i += 1;
    }
    assert(s@.take(p@.len() as int) =~= p@);
    true
}

impl Keys {
    pub fn new() -> (r: Keys)
        ensures
            r.pending@.len() == 0,
    {
        Keys { pending: String::new() }
    }

    fn token(name: &str, mods: Mods) -> (r: String)
        ensures
            r@ == key_token(name@, name.spec_bytes().len() == 1, mods),
    {
        let one = name.as_bytes().len() == 1;
        let mut r = String::new();
        if mods.control {
            r.append("<C-");
            r.append(name);
            r.append(">");
        } else if mods.alt {
            r.append("<A-");
            r.append(name);
            r.append(">");
        } else if one {
            r.append(name);
        } else if mods.shift {
            r.append("<S-");
            r.append(name);
            r.append(">");
        } else {
            r.append("<");
            r.append(name);
            r.append(">");
        }
        assert(r@ =~= key_token(name@, one, mods));
        r
    }

    fn find(bindings: &Vec<String>, keys: &str) -> (r: Option<usize>)
        ensures
            match r {
                Some(i) => i == bound_at(bindings@, keys@, bindings@.len() as int),
                None => bound_at(bindings@, keys@, bindings@.len() as int) == -1,
            },
    {
        let mut n: usize = bindings.len();
        while n > 0
            invariant
                n <= bindings@.len(),
                bound_at(bindings@, keys@, bindings@.len() as int) == bound_at(bindings@, keys@, n as int),
            decreases n,
        {
            if str_eq(bindings[n - 1].as_str(), keys) {
                return Some(n - 1);
            }
            n -= 1;
        }
        None
    }

    fn any_begins(bindings: &Vec<String>, keys: &str) -> (r: bool)
        ensures
            r == begins_some(bindings@, keys@),
    {
        let mut i: usize = 0;
        while i < bindings.len()
            invariant
                i <= bindings@.len(),
                forall|k: int| 0 <= k < i ==> !is_prefix(keys@, (#[trigger] bindings@[k])@),
            decreases bindings.len() - i,
        {
            if starts_with(bindings[i].as_str(), keys) {
                return true;
            }
            i += 1;
        }
        false
    }

    /// Takes in a key. The key is written behind the keys that wait (see
    /// `key_token`). Escape gives the sequence up. A sequence that is a
    /// binding is run, and one that begins a binding waits for more; any
    /// other is given up with a message. Of two bindings that are written
    /// alike the later one counts.
    pub fn press(&mut self, key: Key, mods: Mods, bindings: &Vec<String>) -> (r: Pressed)
        ensures
            ({
                let name = key_name(key);
                let keys = old(self).pending@ + key_token(name, crate::text::bytes_of(name).len() == 1, mods);
                let at = bound_at(bindings@, keys, bindings@.len() as int);
                if name == "Esc"@ {
                    r == Pressed::Cancel && final(self).pending@.len() == 0
                } else if at >= 0 {
                    r == Pressed::Run(at as usize) && final(self).pending@.len() == 0
                } else if begins_some(bindings@, keys) {
                    r == Pressed::Wait && final(self).pending@ == keys
                } else {
                    &&& r is Unknown
                    &&& r->Unknown_0@ == "Unknown mapping: "@ + keys
                    &&& final(self).pending@.len() == 0
                }
            }),
    {
        let name = keycode2str(key);
        let token = Self::token(name.as_str(), mods);
        self.pending.append(token.as_str());
        if str_eq(name.as_str(), "Esc") {
            self.pending = String::new();
            return Pressed::Cancel;
        }
        match Self::find(bindings, self.pending.as_str()) {
            Some(i) => {
                self.pending = String::new();
                Pressed::Run(i)
            },
            None => {
                if Self::any_begins(bindings, self.pending.as_str()) {
                    Pressed::Wait
                } else {
                    let mut message = String::from_str("Unknown mapping: ");
                    message.append(self.pending.as_str());
                    self.pending = String::new();
                    Pressed::Unknown(message)
                }
            },
        }
    }
}

} // verus!
