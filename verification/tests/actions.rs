use tfm::action::{trim, CallAction, CmdAction, Operation, Request, SetAction};
use tfm::config::Settings;
use tfm::dir::SortType;

#[test]
fn call_action_names_its_operation() {
    let a = CallAction::new("down", 3);
    assert_eq!("down", a.op);
    assert_eq!(3, a.count);
    assert_eq!(Operation::Down(3), a.operation());
    assert_eq!(Operation::Up(1), CallAction::new("up", 1).operation());
    assert_eq!(Operation::Quit, CallAction::new("quit", 0).operation());
    assert_eq!(Operation::ShellLine, CallAction::new("shell", 1).operation());
    assert_eq!(Operation::Shell, CallAction::new("Shell", 1).operation());
    assert_eq!(Operation::Paste, CallAction::new("paste", 1).operation());
    assert_eq!(Operation::ToggleAll, CallAction::new("toggle_all", 1).operation());
    assert_eq!(
        Operation::Unknown("CallAction run `fly` failed:`No Operation`".to_string()),
        CallAction::new("fly", 1).operation()
    );
}

#[test]
fn set_action_is_parted_at_blanks() {
    let a = SetAction::new("sortby size");
    assert_eq!(("sortby", "size"), (a.op.as_str(), a.val.as_str()));
    let a = SetAction::new("hidden!");
    assert_eq!(("hidden!", ""), (a.op.as_str(), a.val.as_str()));
    let a = SetAction::new("sortby  size more");
    assert_eq!(("sortby", ""), (a.op.as_str(), a.val.as_str()));
    let a = SetAction::new("");
    assert_eq!(("", ""), (a.op.as_str(), a.val.as_str()));
    let a = SetAction::new("a b c");
    assert_eq!(("a", "b"), (a.op.as_str(), a.val.as_str()));
}

#[test]
fn set_action_changes_the_settings() {
    let mut s = Settings::new();
    assert!(s.hidden);
    assert!(SetAction::new("hidden!").apply(&mut s).is_ok());
    assert!(!s.hidden);
    assert!(SetAction::new("hidden").apply(&mut s).is_ok());
    assert!(s.hidden);
    assert!(SetAction::new("unhidden").apply(&mut s).is_ok());
    assert!(!s.hidden);
    assert!(SetAction::new("sortby size").apply(&mut s).is_ok());
    assert_eq!(SortType::Size, s.sort_type);
    assert!(SetAction::new("sortby mtime").apply(&mut s).is_ok());
    assert_eq!(SortType::ModifyTime, s.sort_type);
    assert!(SetAction::new("sortby sideways").apply(&mut s).is_ok());
    assert_eq!(SortType::Natural, s.sort_type);
    assert_eq!(
        Err("SetAction run `colour` failed:`No Operation`".to_string()),
        SetAction::new("colour red").apply(&mut s)
    );
    assert_eq!(SortType::Natural, s.sort_type);
}

#[test]
fn command_line_is_taken_apart() {
    let a = CmdAction::new("cd /tmp/my dir", ':');
    assert_eq!(':', a.prefix);
    assert_eq!(("cd".to_string(), "/tmp/my dir".to_string()), a.split());
    assert_eq!(("q".to_string(), String::new()), CmdAction::new("q", ':').split());
    match a.request() {
        Request::Cd(p) => assert_eq!("/tmp/my dir", p),
        other => panic!("{:?}", other),
    }
    match CmdAction::new("set sortby size", ':').request() {
        Request::Setting(s) => assert_eq!(("sortby", "size"), (s.op.as_str(), s.val.as_str())),
        other => panic!("{:?}", other),
    }
    match CmdAction::new("rename   new name  ", ':').request() {
        Request::Rename(n) => assert_eq!("new name", n),
        other => panic!("{:?}", other),
    }
    assert!(matches!(CmdAction::new("q", ':').request(), Request::NormalMode));
    assert!(matches!(CmdAction::new("quit", ':').request(), Request::Quit));
    assert!(matches!(CmdAction::new("quit!", ':').request(), Request::ForceQuit));
    assert!(matches!(CmdAction::new("abc", '/').request(), Request::Search));
    assert!(matches!(CmdAction::new("abc", '?').request(), Request::Search));
    match CmdAction::new("ls -l", '!').request() {
        Request::Shell(c, p) => assert_eq!(("ls -l", '!'), (c.as_str(), p)),
        other => panic!("{:?}", other),
    }
    match CmdAction::new("fly away", ':').request() {
        Request::Unknown(m) => assert_eq!("CmdAction run `:fly away` failed:`No Operation`", m),
        other => panic!("{:?}", other),
    }
    match CmdAction::new("x", '#').request() {
        Request::Unknown(m) => assert_eq!("CmdAction run `#x` failed:`No Operation`", m),
        other => panic!("{:?}", other),
    }
}

#[test]
fn white_space_is_trimmed_at_both_ends() {
    let samples = [
        "",
        " ",
        "a",
        "  a b  ",
        "\t\n\u{b}\u{c}\r x \u{85}\u{a0}",
        "\u{1680}\u{2000}\u{2005}\u{200a}y\u{2028}\u{2029}\u{202f}\u{205f}\u{3000}",
        "\u{200b}z\u{200b}",
        "\u{1f}q\u{e}",
        " \u{feff}w ",
        "new name",
    ];
    for s in samples {
        assert_eq!(s.trim(), trim(s), "{:?}", s);
    }
    for n in 0..0x3100u32 {
        if let Some(c) = char::from_u32(n) {
            let s = format!("{}x{}", c, c);
            assert_eq!(s.trim(), trim(&s), "{:x}", n);
        }
    }
}
