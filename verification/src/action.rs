//! What a key or a command line asks for, taken apart: the operation and
//! what it works on.

use crate::config::Settings;
use crate::dir::SortType;
use crate::text::{chars_of, str_eq};
use vstd::prelude::*;
use vstd::string::*;

verus! {

/// The index of the first blank of `s` at `from` or behind it, or the
/// length of `s` where none is.
pub open spec fn blank_at(s: Seq<char>, from: int) -> int
    decreases s.len() - from,
{
    if from >= s.len() {
        s.len() as int
    } else if s[from] == ' ' {
        from
    } else {
        blank_at(s, from + 1)
    }
}

/// What stands before the first blank of `s`.
pub open spec fn first_word(s: Seq<char>) -> Seq<char> {
    s.subrange(0, blank_at(s, 0))
}

/// What stands between the first blank of `s` and the second; nothing
/// where `s` has no blank.
pub open spec fn second_word(s: Seq<char>) -> Seq<char> {
    if blank_at(s, 0) < s.len() {
        s.subrange(blank_at(s, 0) + 1, blank_at(s, blank_at(s, 0) + 1))
    } else {
        Seq::empty()
    }
}

/// What stands behind the first blank of `s`; nothing where `s` has no blank.
pub open spec fn after_first_word(s: Seq<char>) -> Seq<char> {
    if blank_at(s, 0) < s.len() {
        s.skip(blank_at(s, 0) + 1)
    } else {
        Seq::empty()
    }
}

pub proof fn lemma_blank_at(s: Seq<char>, from: int)
    requires
        0 <= from <= s.len(),
    ensures
        from <= blank_at(s, from) <= s.len(),
        blank_at(s, from) < s.len() ==> s[blank_at(s, from)] == ' ',
        forall|i: int| from <= i < blank_at(s, from) ==> s[i] != ' ',
    decreases s.len() - from,
{
    if from < s.len() && s[from] != ' ' {
        lemma_blank_at(s, from + 1);
    }
}

fn find_blank(cs: &Vec<char>, from: usize) -> (r: usize)
    requires
        from <= cs@.len(),
    ensures
        r == blank_at(cs@, from as int),
        from <= r <= cs@.len(),
{
    let mut i: usize = from;
    while i < cs.len() && cs[i] != ' '
        invariant
            from <= i <= cs@.len(),
            blank_at(cs@, from as int) == blank_at(cs@, i as int),
        decreases cs.len() - i,
    {
        i += 1;
    }
    i
}

/// An operation of the engine, and how often it is to be done.
#[derive(Debug)]
pub struct CallAction {
    pub op: String,
    pub count: usize,
}

impl CallAction {
    pub fn new(op: &str, count: usize) -> (r: CallAction)
        ensures
            r.op@ == op@,
            r.count == count,
    {
        CallAction { op: String::from_str(op), count }
    }
}

/// A change of a setting: its name and, where it has one, its value.
#[derive(Debug)]
pub struct SetAction {
    pub op: String,
    pub val: String,
}

impl SetAction {
    /// Takes `c` apart at its blanks: the first word is the setting, the
    /// second its value.
    pub fn new(c: &str) -> (r: SetAction)
        ensures
            r.op@ == first_word(c@),
            r.val@ == second_word(c@),
    {
        let cs = chars_of(c);
        let first = find_blank(&cs, 0);
        let op = String::from_str(c.substring_char(0, first));
        let val = if first < cs.len() {
            let second = find_blank(&cs, first + 1);
            String::from_str(c.substring_char(first + 1, second))
        } else {
            String::new()
        };
        SetAction { op, val }
    }

    /// The settings after this change. `hidden` leaves hidden entries
    /// out, `unhidden` shows them, `hidden!` turns about; `sortby` takes the
    /// order that its value names, `mtime` or `size`, and the natural order
    /// for any other value.
    pub open spec fn changed(&self, settings: Settings) -> Option<Settings> {
        if self.op@ == "hidden"@ {
            Some(Settings { hidden: true, ..settings })
        } else if self.op@ == "unhidden"@ {
            Some(Settings { hidden: false, ..settings })
        } else if self.op@ == "hidden!"@ {
            Some(Settings { hidden: !settings.hidden, ..settings })
        } else if self.op@ == "sortby"@ {
            Some(
                Settings {
                    sort_type: if self.val@ == "mtime"@ {
                        SortType::ModifyTime
                    } else if self.val@ == "size"@ {
                        SortType::Size
                    } else {
                        SortType::Natural
                    },
                    ..settings
                },
            )
        } else {
            None
        }
    }

    /// Makes the change in `settings`: see `changed`. A setting that is
    /// not known changes nothing, and the message says so.
    pub fn apply(&self, settings: &mut Settings) -> (r: Result<(), String>)
        ensures
            match self.changed(*old(settings)) {
                Some(s) => r is Ok && *final(settings) == s,
                None => {
                    &&& *final(settings) == *old(settings)
                    &&& r is Err
                    &&& r->Err_0@ == "SetAction run `"@ + self.op@ + "` failed:`No Operation`"@
                },
            },
    {
        let op = self.op.as_str();
        if str_eq(op, "hidden") {
            settings.hidden = true;
            Ok(())
        } else if str_eq(op, "unhidden") {
            settings.hidden = false;
            Ok(())
        } else if str_eq(op, "hidden!") {
            settings.hidden = !settings.hidden;
            Ok(())
        } else if str_eq(op, "sortby") {
            let val = self.val.as_str();
            settings.sort_type = if str_eq(val, "mtime") {
                SortType::ModifyTime
            } else if str_eq(val, "size") {
                SortType::Size
            } else {
                SortType::Natural
            };
            Ok(())
        } else {
            let mut message = String::from_str("SetAction run `");
            message.append(op);
            message.append("` failed:`No Operation`");
            Err(message)
        }
    }
}

/// A command line: the character that began it, and what was typed.
#[derive(Debug)]
pub struct CmdAction {
    pub prefix: char,
    pub cmd: String,
}

impl CmdAction {
    pub fn new(c: &str, prefix: char) -> (r: CmdAction)
        ensures
            r.cmd@ == c@,
            r.prefix == prefix,
    {
        CmdAction { prefix, cmd: String::from_str(c) }
    }

    /// The command and what it works on: the line up to its first blank,
    /// and what follows the blank.
    pub fn split(&self) -> (r: (String, String))
        ensures
            r.0@ == first_word(self.cmd@),
            r.1@ == after_first_word(self.cmd@),
    {
        let c = self.cmd.as_str();
        let cs = chars_of(c);
        let first = find_blank(&cs, 0);
        let op = String::from_str(c.substring_char(0, first));
        let rest = if first < cs.len() {
            let r = String::from_str(c.substring_char(first + 1, cs.len()));
            assert(c@.subrange(first + 1, cs@.len() as int) =~= c@.skip(first + 1));
            r
        } else {
            String::new()
        };
        (op, rest)
    }
}

/// What an operation of the engine is, by its name.
#[derive(Debug, PartialEq, Eq)]
pub enum Operation {
    Quit,
    UpDir,
    Open,
    Up(usize),
    Down(usize),
    Top,
    Bottom,
    Redraw,
    /// Open the command line, of the kind that the key says.
    CommandMode,
    /// Open the command line for a command of the shell.
    ShellLine,
    /// Run a shell.
    Shell,
    SearchNext,
    SearchPrev,
    Toggle,
    ToggleAll,
    Unselect,
    Cut,
    Copy,
    Clear,
    Paste,
    Remove,
    Rename,
    /// No operation has this name; the message says so.
    Unknown(String),
}

impl CallAction {
    /// The operation that the name stands for.
    pub open spec fn names(&self, o: Operation) -> bool {
        let op = self.op@;
        if op == "quit"@ {
            o == Operation::Quit
        } else if op == "updir"@ {
            o == Operation::UpDir
        } else if op == "open"@ {
            o == Operation::Open
        } else if op == "up"@ {
            o == Operation::Up(self.count)
        } else if op == "down"@ {
            o == Operation::Down(self.count)
        } else if op == "top"@ {
            o == Operation::Top
        } else if op == "bottom"@ {
            o == Operation::Bottom
        } else if op == "redraw"@ {
            o == Operation::Redraw
        } else if op == "command_mode"@ {
            o == Operation::CommandMode
        } else if op == "shell"@ {
            o == Operation::ShellLine
        } else if op == "Shell"@ {
            o == Operation::Shell
        } else if op == "search_next"@ {
            o == Operation::SearchNext
        } else if op == "search_prev"@ {
            o == Operation::SearchPrev
        } else if op == "toggle"@ {
            o == Operation::Toggle
        } else if op == "toggle_all"@ {
            o == Operation::ToggleAll
        } else if op == "unselect"@ {
            o == Operation::Unselect
        } else if op == "cut"@ {
            o == Operation::Cut
        } else if op == "copy"@ {
            o == Operation::Copy
        } else if op == "clear"@ {
            o == Operation::Clear
        } else if op == "paste"@ {
            o == Operation::Paste
        } else if op == "remove"@ {
            o == Operation::Remove
        } else if op == "rename"@ {
            o == Operation::Rename
        } else {
            o is Unknown && o->Unknown_0@ == "CallAction run `"@ + op + "` failed:`No Operation`"@
        }
    }

    /// The operation that the name stands for: see `names`.
    pub fn operation(&self) -> (r: Operation)
        ensures
            self.names(r),
    {
        let op = self.op.as_str();
        if str_eq(op, "quit") {
            Operation::Quit
        } else if str_eq(op, "updir") {
            Operation::UpDir
        } else if str_eq(op, "open") {
            Operation::Open
        } else if str_eq(op, "up") {
            Operation::Up(self.count)
        } else if str_eq(op, "down") {
            Operation::Down(self.count)
        } else if str_eq(op, "top") {
            Operation::Top
        } else if str_eq(op, "bottom") {
            Operation::Bottom
        } else if str_eq(op, "redraw") {
            Operation::Redraw
        } else if str_eq(op, "command_mode") {
            Operation::CommandMode
        } else if str_eq(op, "shell") {
            Operation::ShellLine
        } else if str_eq(op, "Shell") {
            Operation::Shell
        } else if str_eq(op, "search_next") {
            Operation::SearchNext
        } else if str_eq(op, "search_prev") {
            Operation::SearchPrev
        } else if str_eq(op, "toggle") {
            Operation::Toggle
        } else if str_eq(op, "toggle_all") {
            Operation::ToggleAll
        } else if str_eq(op, "unselect") {
            Operation::Unselect
        } else if str_eq(op, "cut") {
            Operation::Cut
        } else if str_eq(op, "copy") {
            Operation::Copy
        } else if str_eq(op, "clear") {
            Operation::Clear
        } else if str_eq(op, "paste") {
            Operation::Paste
        } else if str_eq(op, "remove") {
            Operation::Remove
        } else if str_eq(op, "rename") {
            Operation::Rename
        } else {
            let mut message = String::from_str("CallAction run `");
            message.append(op);
            message.append("` failed:`No Operation`");
            Operation::Unknown(message)
        }
    }
}

/// The characters that count as white space.
pub open spec fn is_white(c: char) -> bool {
    let n = c as u32;
    (0x9 <= n <= 0xd) || n == 0x20 || n == 0x85 || n == 0xa0 || n == 0x1680 || (0x2000 <= n <= 0x200a) || n == 0x2028
        || n == 0x2029 || n == 0x202f || n == 0x205f || n == 0x3000
}

/// The index of the first character of `s` at `from` or behind it that
/// is no white space, or the length of `s` where none is.
pub open spec fn black_at(s: Seq<char>, from: int) -> int
    decreases s.len() - from,
{
    if from >= s.len() {
        s.len() as int
    } else if !is_white(s[from]) {
        from
    } else {
        black_at(s, from + 1)
    }
}

/// The index behind the last character of `s` before `upto` that is no
/// white space, or zero where none is.
pub open spec fn black_before(s: Seq<char>, upto: int) -> int
    decreases upto,
{
    if upto <= 0 || upto > s.len() {
        0
    } else if !is_white(s[upto - 1]) {
        upto
    } else {
        black_before(s, upto - 1)
    }
}

/// `s` without the white space at its beginning and at its end.
pub open spec fn trimmed(s: Seq<char>) -> Seq<char> {
    if black_at(s, 0) >= s.len() {
        Seq::empty()
    } else {
        s.subrange(black_at(s, 0), black_before(s, s.len() as int))
    }
}

fn white(c: char) -> (r: bool)
    ensures
        r == is_white(c),
{
    let n = c as u32;
    (0x9 <= n && n <= 0xd) || n == 0x20 || n == 0x85 || n == 0xa0 || n == 0x1680 || (0x2000 <= n && n <= 0x200a) || n
        == 0x2028 || n == 0x2029 || n == 0x202f || n == 0x205f || n == 0x3000
}

/// `s` without the white space at its beginning and at its end.
pub fn trim(s: &str) -> (r: String)
    ensures
        r@ == trimmed(s@),
{
    let cs = chars_of(s);
    let mut from: usize = 0;
    while from < cs.len() && white(cs[from])
        invariant
            from <= cs@.len(),
            black_at(cs@, 0) == black_at(cs@, from as int),
        decreases cs.len() - from,
    {
        from += 1;
    }
    if from == cs.len() {
        return String::new();
    }
    let mut upto: usize = cs.len();
    while white(cs[upto - 1])
        invariant
            from < upto <= cs@.len(),
            !is_white(cs@[from as int]),
            black_before(cs@, cs@.len() as int) == black_before(cs@, upto as int),
        decreases upto,
    {
        upto -= 1;
    }
    assert(black_at(cs@, from as int) == from);
    assert(black_before(cs@, upto as int) == upto);
    String::from_str(s.substring_char(from, upto))
}

/// What a command line asks for.
#[derive(Debug)]
pub enum Request {
    Setting(SetAction),
    Cd(String),
    /// Leave the command line, nothing else.
    NormalMode,
    /// End the program, unless a transfer is under way.
    Quit,
    /// End the program.
    ForceQuit,
    Rename(String),
    Search,
    /// Run the command in the shell, in the way that the character says.
    Shell(String, char),
    /// Nothing that is known; the message says so.
    Unknown(String),
}

impl CmdAction {
    /// The message on a line that asks for nothing known.
    pub open spec fn unknown(&self) -> Seq<char> {
        "CmdAction run `"@ + seq![self.prefix] + self.cmd@ + "` failed:`No Operation`"@
    }

    /// `r` is what the line asks for. A line that began with a colon
    /// holds a command of the engine and what it works on; one that began
    /// with a slash or a question mark is a search; one that began with `$`,
    /// `!` or `&` is for the shell.
    pub open spec fn asks(&self, r: Request) -> bool {
        let op = first_word(self.cmd@);
        let rest = after_first_word(self.cmd@);
        if self.prefix == ':' {
            if op == "set"@ {
                r is Setting && r->Setting_0.op@ == first_word(rest) && r->Setting_0.val@ == second_word(rest)
            } else if op == "cd"@ {
                r is Cd && r->Cd_0@ == rest
            } else if op == "q"@ {
                r is NormalMode
            } else if op == "quit"@ {
                r is Quit
            } else if op == "quit!"@ {
                r is ForceQuit
            } else if op == "rename"@ {
                r is Rename && r->Rename_0@ == trimmed(rest)
            } else {
                r is Unknown && r->Unknown_0@ == self.unknown()
            }
        } else if self.prefix == '/' || self.prefix == '?' {
            r is Search
        } else if self.prefix == '$' || self.prefix == '!' || self.prefix == '&' {
            r is Shell && r->Shell_0@ == self.cmd@ && r->Shell_1 == self.prefix
        } else {
            r is Unknown && r->Unknown_0@ == self.unknown()
        }
    }

    fn unknown_message(&self) -> (r: String)
        ensures
            r@ == self.unknown(),
    {
        let mut message = String::from_str("CmdAction run `");
        let prefix = crate::keys::keycode2str(crate::keys::Key::Char(self.prefix));
        message.append(prefix.as_str());
        message.append(self.cmd.as_str());
        message.append("` failed:`No Operation`");
        assert(message@ =~= self.unknown());
        message
    }

    /// What the line asks for: see `asks`.
    pub fn request(&self) -> (r: Request)
        ensures
            self.asks(r),
    {
        if self.prefix == ':' {
            let (op, rest) = self.split();
            let op = op.as_str();
            if str_eq(op, "set") {
                Request::Setting(SetAction::new(rest.as_str()))
            } else if str_eq(op, "cd") {
                Request::Cd(rest)
            } else if str_eq(op, "q") {
                Request::NormalMode
            } else if str_eq(op, "quit") {
                Request::Quit
            } else if str_eq(op, "quit!") {
                Request::ForceQuit
            } else if str_eq(op, "rename") {
                Request::Rename(trim(rest.as_str()))
            } else {
                Request::Unknown(self.unknown_message())
            }
        } else if self.prefix == '/' || self.prefix == '?' {
            Request::Search
        } else if self.prefix == '$' || self.prefix == '!' || self.prefix == '&' {
            Request::Shell(self.cmd.clone(), self.prefix)
        } else {
            Request::Unknown(self.unknown_message())
        }
    }
}

} // verus!
