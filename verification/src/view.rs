//! How an entry and the counts of the status line are written on the screen.

use crate::buffer::{Attr, Attrs, Style};
use crate::file::{File, FileType, LinkState};
use crate::text::{bytes_of, decimal, decimal_of};
use crate::utils::{columns_sum, fit_screen, room, text_width, width_of_text};
use vstd::prelude::*;
use vstd::string::*;

verus! {

/// The styles in which the entries of a listing are written, by their kind.
#[derive(Debug, Copy, Clone)]
pub struct Theme {
    pub executable: Style,
    pub regular: Style,
    pub directory: Style,
    pub link_working: Style,
    pub link_broken: Style,
    pub pipe: Style,
    pub socket: Style,
    pub char_device: Style,
    pub block_device: Style,
}

impl Theme {
    /// The style of an entry: by its type; a regular file that can be
    /// run has a style of its own, and a link has one by its state.
    pub open spec fn spec_style_of(&self, file: &File) -> Style {
        match file.file_type {
            FileType::RegularFile => if file.spec_is_executable() {
                self.executable
            } else {
                self.regular
            },
            FileType::Directory => self.directory,
            FileType::Link => match file.link_state {
                Some(LinkState::Working(_)) => self.link_working,
                Some(LinkState::Broken(_)) => self.link_broken,
                None => self.regular,
            },
            FileType::Pipe => self.pipe,
            FileType::Socket => self.socket,
            FileType::CharDevice => self.char_device,
            FileType::BlockDevice => self.block_device,
            FileType::Special => self.regular,
        }
    }

    #[verifier::when_used_as_spec(spec_style_of)]
    pub fn style_of(&self, file: &File) -> (r: Style)
        ensures
            r == self.spec_style_of(file),
    {
        match file.file_type {
            FileType::RegularFile => {
                if file.is_executable() {
                    self.executable
                } else {
                    self.regular
                }
            },
            FileType::Directory => self.directory,
            FileType::Link => match &file.link_state {
                Some(LinkState::Working(_)) => self.link_working,
                Some(LinkState::Broken(_)) => self.link_broken,
                None => self.regular,
            },
            FileType::Pipe => self.pipe,
            FileType::Socket => self.socket,
            FileType::CharDevice => self.char_device,
            FileType::BlockDevice => self.block_device,
            FileType::Special => self.regular,
        }
    }
}

/// So many blanks.
pub open spec fn blanks(n: nat) -> Seq<char> {
    Seq::new(n, |i: int| ' ')
}

fn pad(s: &mut String, n: usize)
    ensures
        final(s)@ == old(s)@ + blanks(n as nat),
{
    proof {
        reveal_strlit(" ");
    }
    let mut i: usize = 0;
    assert(s@ =~= old(s)@ + blanks(0));
    while i < n
        invariant
            i <= n,
            s@ == old(s)@ + blanks(i as nat),
            " "@ == seq![' '],
        decreases n - i,
    {
        s.append(" ");
        i += 1;
        assert(s@ =~= old(s)@ + blanks(i as nat));
    }
}

/// The name of an entry as a row of a listing of `cols` columns shows
/// it, and its style. The name has a blank in front. A name that does not
/// fit is cut, and three dots say so. The row of the cursor (`sel`) is
/// drawn in reverse, and filled with blanks up to the width of the listing.
pub fn styled_name(file: &File, cols: u16, sel: bool, theme: &Theme) -> (r: (String, Style))
    ensures
        r.1 == if sel {
            Style {
                attrs: Attrs((theme.spec_style_of(file).attrs.0 | Attr::Reverse.spec_bit()) as u8),
                ..theme.spec_style_of(file)
            }
        } else {
            theme.spec_style_of(file)
        },
        text_width(file.file_name@) + 1 < cols ==> r.0@ == seq![' '] + file.file_name@ + if sel {
            blanks((cols - text_width(file.file_name@)) as nat)
        } else {
            Seq::<char>::empty()
        },
        text_width(file.file_name@) + 1 >= cols ==> exists|kept: Seq<char>|
            {
                &&& r.0@ == " "@ + kept + "... "@
                &&& kept == file.file_name@.take(kept.len() as int)
                &&& kept.len() <= file.file_name@.len()
                &&& columns_sum(kept) <= room(" "@, "... "@, cols)
                &&& kept.len() < file.file_name@.len() ==> columns_sum(file.file_name@.take(kept.len() as int + 1))
                    > room(" "@, "... "@, cols)
            },
{
    proof {
        reveal_strlit(" ");
    }
    let mut style = theme.style_of(file);
    if sel {
        style.attrs.set(Attr::Reverse);
    }
    let name = file.file_name.as_str();
    let width = width_of_text(name);
    let shown = if width >= cols as usize || width + 1 >= cols as usize {
        fit_screen(name, " ", "... ", cols, false)
    } else {
        let mut shown = String::from_str(" ");
        shown.append(name);
        if sel {
            pad(&mut shown, cols as usize - width);
        }
        shown
    };
    (shown, style)
}

/// The place of the cursor among the entries, as the status line shows
/// it: the number of the entry, counted from one, and the number of entries.
pub fn proportion(cursor: usize, count: usize) -> (r: String)
    ensures
        r@ == " ["@ + decimal_of(cursor as nat + 1) + "/"@ + decimal_of(count as nat) + "]"@,
{
    let mut r = String::from_str(" [");
    let number = if cursor < usize::MAX {
        decimal((cursor + 1) as u64)
    } else {
        let mut text = decimal((cursor / 10) as u64);
        let last = decimal((cursor % 10 + 1) as u64);
        text.append(last.as_str());
        proof {
            lemma_last_number(cursor as nat);
        }
        text
    };
    r.append(number.as_str());
    r.append("/");
    let all = decimal(count as u64);
    r.append(all.as_str());
    r.append("]");
    r
}

/// The greatest number that a machine counts to ends in a five, so the
/// number that follows it is written with the same digits but the last.
proof fn lemma_last_number(n: nat)
    requires
        n == usize::MAX,
    ensures
        decimal_of(n + 1) == decimal_of(n / 10) + decimal_of(n % 10 + 1),
{
    assert(n == 0xffff_ffff || n == 0xffff_ffff_ffff_ffff);
    assert(n % 10 == 5);
    assert((n + 1) / 10 == n / 10);
    assert((n + 1) % 10 == 6);
    assert(decimal_of(6) =~= seq![crate::text::digit_char(6)]);
    assert(decimal_of(n + 1) =~= decimal_of(n / 10).push(crate::text::digit_char(6)));
}

/// A count as the status line shows it: between two blanks.
pub fn count_label(count: usize) -> (r: String)
    ensures
        r@ == " "@ + decimal_of(count as nat) + " "@,
{
    let mut r = String::from_str(" ");
    let number = decimal(count as u64);
    r.append(number.as_str());
    r.append(" ");
    r
}

} // verus!
