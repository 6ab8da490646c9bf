use tfm::cmdline::{edit_of, CmdOutcome, Edit};
use tfm::keys::{keycode2str, Key, Keys, Mods, Pressed};
use tfm::nav::Nav;
use tfm::utils::fit_screen;

const NONE: Mods = Mods { control: false, shift: false, alt: false };
const CTRL: Mods = Mods { control: true, shift: false, alt: false };
const ALT: Mods = Mods { control: false, shift: false, alt: true };
const SHIFT: Mods = Mods { control: false, shift: true, alt: false };

#[test]
fn names_of_keys() {
    assert_eq!("q", keycode2str(Key::Char('q')));
    assert_eq!("站", keycode2str(Key::Char('站')));
    assert_eq!("F1", keycode2str(Key::F(1)));
    assert_eq!("F12", keycode2str(Key::F(12)));
    assert_eq!("F255", keycode2str(Key::F(255)));
    assert_eq!("Esc", keycode2str(Key::Esc));
    assert_eq!("Backspace", keycode2str(Key::Backspace));
    assert_eq!("Enter", keycode2str(Key::Enter));
    assert_eq!("Left", keycode2str(Key::Left));
    assert_eq!("Right", keycode2str(Key::Right));
    assert_eq!("Up", keycode2str(Key::Up));
    assert_eq!("Down", keycode2str(Key::Down));
    assert_eq!("Home", keycode2str(Key::Home));
    assert_eq!("End", keycode2str(Key::End));
    assert_eq!("PageUp", keycode2str(Key::PageUp));
    assert_eq!("PageDown", keycode2str(Key::PageDown));
    assert_eq!("Tab", keycode2str(Key::Tab));
    assert_eq!("Tab", keycode2str(Key::BackTab));
    assert_eq!("Delete", keycode2str(Key::Delete));
    assert_eq!("Insert", keycode2str(Key::Insert));
    assert_eq!("", keycode2str(Key::Other));
}

fn bindings() -> Vec<String> {
    ["j", "gg", "G", "<C-l>", "<Enter>", "dd", "dD", "gt"]
        .iter()
        .map(|s| s.to_string())
        .collect()
}

#[test]
fn key_sequences_find_their_binding() {
    let map = bindings();
    let mut keys = Keys::new();
    assert_eq!(Pressed::Run(0), keys.press(Key::Char('j'), NONE, &map));
    assert_eq!(Pressed::Wait, keys.press(Key::Char('g'), NONE, &map));
    assert_eq!("g", keys.pending);
    assert_eq!(Pressed::Run(1), keys.press(Key::Char('g'), NONE, &map));
    assert_eq!("", keys.pending);
    assert_eq!(Pressed::Run(2), keys.press(Key::Char('G'), SHIFT, &map));
    assert_eq!(Pressed::Run(3), keys.press(Key::Char('l'), CTRL, &map));
    assert_eq!(Pressed::Run(4), keys.press(Key::Enter, NONE, &map));
    assert_eq!(Pressed::Wait, keys.press(Key::Char('d'), NONE, &map));
    assert_eq!(Pressed::Run(6), keys.press(Key::Char('D'), SHIFT, &map));
    assert_eq!(Pressed::Wait, keys.press(Key::Char('g'), NONE, &map));
    assert_eq!(
        Pressed::Unknown("Unknown mapping: gx".to_string()),
        keys.press(Key::Char('x'), NONE, &map)
    );
    assert_eq!("", keys.pending);
    assert_eq!(Pressed::Wait, keys.press(Key::Char('d'), NONE, &map));
    assert_eq!(Pressed::Cancel, keys.press(Key::Esc, NONE, &map));
    assert_eq!("", keys.pending);
    assert_eq!(
        Pressed::Unknown("Unknown mapping: <A-j>".to_string()),
        keys.press(Key::Char('j'), ALT, &map)
    );
    assert_eq!(
        Pressed::Unknown("Unknown mapping: <S-Tab>".to_string()),
        keys.press(Key::BackTab, SHIFT, &map)
    );
    assert_eq!(
        Pressed::Unknown("Unknown mapping: <站>".to_string()),
        keys.press(Key::Char('站'), NONE, &map)
    );
}

#[test]
fn later_binding_counts() {
    let map: Vec<String> = ["a", "b", "a"].iter().map(|s| s.to_string()).collect();
    let mut keys = Keys::new();
    assert_eq!(Pressed::Run(2), keys.press(Key::Char('a'), NONE, &map));
}

#[test]
fn keys_of_the_command_line() {
    assert_eq!(Edit::Leave, edit_of(Key::Esc, NONE));
    assert_eq!(Edit::Leave, edit_of(Key::Char('c'), CTRL));
    assert_eq!(Edit::Leave, edit_of(Key::Char('['), CTRL));
    assert_eq!(Edit::Submit, edit_of(Key::Enter, NONE));
    assert_eq!(Edit::WordLeft, edit_of(Key::Left, CTRL));
    assert_eq!(Edit::WordLeft, edit_of(Key::Char('b'), ALT));
    assert_eq!(Edit::Left, edit_of(Key::Left, NONE));
    assert_eq!(Edit::Left, edit_of(Key::Char('b'), CTRL));
    assert_eq!(Edit::WordRight, edit_of(Key::Right, CTRL));
    assert_eq!(Edit::WordRight, edit_of(Key::Char('f'), ALT));
    assert_eq!(Edit::Right, edit_of(Key::Right, NONE));
    assert_eq!(Edit::Right, edit_of(Key::Char('f'), CTRL));
    assert_eq!(Edit::KillWordLeft, edit_of(Key::Char('w'), CTRL));
    assert_eq!(Edit::Backspace, edit_of(Key::Backspace, NONE));
    assert_eq!(Edit::Backspace, edit_of(Key::Char('h'), CTRL));
    assert_eq!(Edit::Delete, edit_of(Key::Delete, NONE));
    assert_eq!(Edit::KillWordRight, edit_of(Key::Char('d'), ALT));
    assert_eq!(Edit::KillToStart, edit_of(Key::Char('u'), CTRL));
    assert_eq!(Edit::KillToEnd, edit_of(Key::Char('k'), CTRL));
    assert_eq!(Edit::Home, edit_of(Key::Home, NONE));
    assert_eq!(Edit::Home, edit_of(Key::Char('a'), CTRL));
    assert_eq!(Edit::End, edit_of(Key::End, NONE));
    assert_eq!(Edit::End, edit_of(Key::Char('e'), CTRL));
    assert_eq!(Edit::Insert('x'), edit_of(Key::Char('x'), NONE));
    assert_eq!(Edit::Insert('X'), edit_of(Key::Char('X'), SHIFT));
    assert_eq!(Edit::Nothing, edit_of(Key::Char('x'), CTRL));
    assert_eq!(Edit::Nothing, edit_of(Key::Char('x'), ALT));
    assert_eq!(Edit::Nothing, edit_of(Key::Tab, NONE));
    assert_eq!(Edit::Nothing, edit_of(Key::F(1), NONE));
}

fn line(nav: &Nav) -> (String, usize) {
    (nav.cmd_string.clone(), nav.cmd_string_ind)
}

#[test]
fn command_line_is_edited() {
    let mut nav = Nav::new(24);
    nav.command_mode(':', "cd /tmp/a.b");
    assert_eq!((':', "cd /tmp/a.b".to_string(), 11), (nav.cmd_prefix, nav.cmd_string.clone(), nav.cmd_string_ind));
    nav.edit(Edit::WordLeft);
    assert_eq!(10, nav.cmd_string_ind);
    nav.edit(Edit::WordLeft);
    assert_eq!(8, nav.cmd_string_ind);
    nav.edit(Edit::Left);
    assert_eq!(7, nav.cmd_string_ind);
    nav.edit(Edit::WordRight);
    assert_eq!(9, nav.cmd_string_ind);
    nav.edit(Edit::Right);
    assert_eq!(10, nav.cmd_string_ind);
    nav.edit(Edit::Insert('X'));
    assert_eq!(("cd /tmp/a.Xb".to_string(), 11), line(&nav));
    nav.edit(Edit::Backspace);
    assert_eq!(("cd /tmp/a.b".to_string(), 10), line(&nav));
    nav.edit(Edit::Delete);
    assert_eq!(("cd /tmp/a.".to_string(), 10), line(&nav));
    nav.edit(Edit::Delete);
    assert_eq!(("cd /tmp/a.".to_string(), 10), line(&nav));
    nav.edit(Edit::KillWordLeft);
    assert_eq!(("cd /tmp/".to_string(), 8), line(&nav));
    nav.edit(Edit::Home);
    assert_eq!(0, nav.cmd_string_ind);
    nav.edit(Edit::Left);
    nav.edit(Edit::Backspace);
    assert_eq!(("cd /tmp/".to_string(), 0), line(&nav));
    nav.edit(Edit::KillWordRight);
    assert_eq!((" /tmp/".to_string(), 0), line(&nav));
    nav.edit(Edit::End);
    assert_eq!(6, nav.cmd_string_ind);
    nav.edit(Edit::Right);
    assert_eq!(6, nav.cmd_string_ind);
    nav.edit(Edit::Left);
    nav.edit(Edit::Left);
    nav.edit(Edit::KillToEnd);
    assert_eq!((" /tm".to_string(), 4), line(&nav));
    nav.edit(Edit::Left);
    nav.edit(Edit::KillToStart);
    assert_eq!(("m".to_string(), 0), line(&nav));
    nav.edit(Edit::Nothing);
    assert_eq!(("m".to_string(), 0), line(&nav));
}

#[test]
fn command_line_with_wide_characters() {
    let mut nav = Nav::new(24);
    nav.command_mode('/', "");
    nav.edit(Edit::Insert('站'));
    nav.edit(Edit::Insert('着'));
    nav.edit(Edit::Insert('x'));
    assert_eq!(("站着x".to_string(), 7), line(&nav));
    nav.edit(Edit::Left);
    nav.edit(Edit::Left);
    assert_eq!(3, nav.cmd_string_ind);
    nav.edit(Edit::Delete);
    assert_eq!(("站x".to_string(), 3), line(&nav));
    nav.edit(Edit::Backspace);
    assert_eq!(("x".to_string(), 0), line(&nav));
    nav.edit(Edit::Right);
    assert_eq!(1, nav.cmd_string_ind);
    // a cursor within a character cannot be worked from
    nav.command_mode('/', "站");
    nav.cmd_string_ind = 1;
    nav.edit(Edit::KillToEnd);
    assert_eq!(("站".to_string(), 1), line(&nav));
    nav.edit(Edit::Insert('a'));
    assert_eq!(("站".to_string(), 1), line(&nav));
    nav.cmd_string_ind = 9;
    nav.edit(Edit::Backspace);
    assert_eq!(("站".to_string(), 9), line(&nav));
}

#[test]
fn keys_on_the_command_line() {
    let mut nav = Nav::new(24);
    nav.command_mode(':', "");
    assert!(matches!(nav.handle_cmd_key(Key::Char('q'), NONE), CmdOutcome::Stay));
    assert!(matches!(nav.handle_cmd_key(Key::Char('x'), CTRL), CmdOutcome::Stay));
    assert_eq!(("q".to_string(), 1), line(&nav));
    match nav.handle_cmd_key(Key::Enter, NONE) {
        CmdOutcome::Submit(action) => {
            assert_eq!(':', action.prefix);
            assert_eq!("q", action.cmd);
        }
        other => panic!("{:?}", other),
    }
    assert_eq!(('\0', String::new()), (nav.cmd_prefix, nav.cmd_string.clone()));
    nav.command_mode('$', "ls");
    assert!(matches!(nav.handle_cmd_key(Key::Esc, NONE), CmdOutcome::Leave));
    assert_eq!(('\0', String::new()), (nav.cmd_prefix, nav.cmd_string.clone()));
}

#[test]
fn text_is_fitted_between_its_ends() {
    assert_eq!(" abcd... ", fit_screen("abcdefghij", " ", "... ", 9, false));
    assert_eq!("...ghij", fit_screen("abcdefghij", "...", "", 7, true));
    assert_eq!("[]", fit_screen("abc", "[", "]", 1, false));
    assert_eq!("[abc]", fit_screen("abc", "[", "]", 20, false));
    assert_eq!(" 站... ", fit_screen("站着说话", " ", "... ", 8, false));
}
