use tfm::dir::{Loaded, SortType};
use tfm::file::{File, FileType};
use tfm::nav::{Nav, NavError, Preview};
use tfm::transfer::{Kind, Notice, Phase};

fn entry(dir: &str, name: &str, is_dir: bool) -> File {
    let mode = if is_dir { 0o040755 } else { 0o100644 };
    File::new(
        name.to_string(),
        format!("{}/{}", dir, name),
        FileType::get_file_type(mode),
        None,
        mode,
        0,
        0,
        0,
        0,
    )
}

fn read(files: Vec<File>, now: u64) -> Option<Loaded> {
    Some(Loaded { readonly: false, listing: Ok(Some(files)), now })
}

/// An engine in `/home/me` with the entries `docs`, `src`, `a.txt`, `b.txt`, `c.txt`.
fn engine() -> Nav {
    let mut nav = Nav::new(24);
    nav.load_dirs("/home/me");
    let root = nav.dirs[0];
    let home = nav.dirs[1];
    let me = nav.dirs[2];
    nav.refresh_dir(root, 1, read(vec![entry("", "home", true), entry("", "etc", true)], 10), Some("home"));
    nav.refresh_dir(home, 1, read(vec![entry("/home", "me", true)], 10), Some("me"));
    nav.refresh_dir(
        me,
        1,
        read(
            vec![
                entry("/home/me", "c.txt", false),
                entry("/home/me", "src", true),
                entry("/home/me", "a.txt", false),
                entry("/home/me", "docs", true),
                entry("/home/me", "b.txt", false),
                entry("/home/me", ".profile", false),
            ],
            10,
        ),
        None,
    );
    nav
}

fn cursor_name(nav: &Nav) -> String {
    nav.cdir().current().unwrap().file_name.clone()
}

#[test]
fn new_engine_is_idle_and_empty() {
    let nav = Nav::new(24);
    assert_eq!(20, nav.useful_rows);
    assert!(nav.dirs.is_empty());
    assert!(nav.selections.is_empty());
    assert!(nav.cut_or_copy.is_empty());
    assert_eq!((0, 0), (nav.mv_cp_total_size, nav.mv_cp_size));
    assert_eq!('\0', nav.cmd_prefix);
    assert!(nav.search_direction);
    assert!(nav.settings.hidden);
    assert_eq!(SortType::Natural, nav.settings.sort_type);
}

#[test]
fn chain_leads_from_the_root() {
    let nav = engine();
    assert_eq!(3, nav.dirs.len());
    let paths: Vec<&str> = nav.dirs.iter().map(|h| nav.dir_cache[*h].dir_path.as_str()).collect();
    assert_eq!(vec!["/", "/home", "/home/me"], paths);
    assert_eq!(Some("home".to_string()), nav.chain_name(0));
    assert_eq!(Some("me".to_string()), nav.chain_name(1));
    assert_eq!(None, nav.chain_name(2));
    assert_eq!("home", nav.dir_cache[nav.dirs[0]].current().unwrap().file_name);
    assert_eq!("/home/me", nav.cdir().dir_path);
}

#[test]
fn same_path_gives_the_same_snapshot() {
    let mut nav = engine();
    let count = nav.dir_cache.len();
    let first = nav.load_dir("/tmp");
    assert_eq!(count, first);
    assert_eq!(count + 1, nav.dir_cache.len());
    let second = nav.load_dir("/tmp");
    assert_eq!(first, second);
    assert_eq!(count + 1, nav.dir_cache.len());
    let home = nav.dirs[1];
    assert_eq!(home, nav.load_dir("/home"));
    assert_eq!(0, nav.dir_cache[first].loadtime);
}

#[test]
fn second_refresh_does_not_reload() {
    let mut nav = engine();
    let me = nav.dirs[2];
    // the directory was modified at second 1 and read at second 10
    nav.refresh_dir(me, 1, read(vec![entry("/home/me", "other", false)], 20), None);
    assert_eq!(10, nav.dir_cache[me].loadtime);
    assert_eq!(5, nav.dir_cache[me].files_len);
    // nor is it read when it was last changed in the second of the read
    nav.refresh_dir(me, 10, read(vec![entry("/home/me", "other", false)], 20), None);
    assert_eq!(10, nav.dir_cache[me].loadtime);
    assert_eq!(5, nav.dir_cache[me].files_len);
    // a later change is read
    nav.refresh_dir(me, 11, read(vec![entry("/home/me", "other", false)], 20), None);
    assert_eq!(20, nav.dir_cache[me].loadtime);
    assert_eq!(1, nav.dir_cache[me].files_len);
}

#[test]
fn cursor_moves_and_selects() {
    let mut nav = engine();
    assert_eq!("docs", cursor_name(&nav));
    assert_eq!(Some("/home/me/docs".to_string()), nav.cfile());
    nav.down(2);
    assert_eq!("a.txt", cursor_name(&nav));
    nav.toggle(true);
    assert_eq!("b.txt", cursor_name(&nav));
    assert!(nav.selections.contains("/home/me/a.txt"));
    nav.toggle(false);
    assert_eq!(1, nav.selections.len());
    nav.up(1);
    nav.up(1);
    nav.toggle(true);
    assert!(!nav.selections.contains("/home/me/a.txt"));
    nav.bottom();
    assert_eq!("c.txt", cursor_name(&nav));
    nav.top();
    assert_eq!("docs", cursor_name(&nav));
    nav.toggle_all(&vec![true, true, false, true, true]);
    assert_eq!(4, nav.selections.len());
    assert!(!nav.selections.contains("/home/me/a.txt"));
    nav.toggle_all(&vec![true]);
    assert_eq!(3, nav.selections.len());
    nav.unselect();
    assert!(nav.selections.is_empty());
}

#[test]
fn clipboard_takes_the_selection_or_the_cursor() {
    let mut nav = engine();
    nav.cut(true);
    assert!(nav.is_cut);
    assert_eq!(vec!["/home/me/docs".to_string()], nav.cut_or_copy.items);
    nav.copy(false);
    assert!(!nav.is_cut);
    assert!(nav.cut_or_copy.is_empty());
    nav.down(2);
    nav.toggle(true);
    nav.toggle(true);
    nav.copy(true);
    assert_eq!(
        vec!["/home/me/a.txt".to_string(), "/home/me/b.txt".to_string()],
        nav.cut_or_copy.items
    );
    assert!(nav.selections.is_empty());
    nav.clear();
    assert!(nav.cut_or_copy.is_empty());
}

#[test]
fn search_wraps_and_reports_what_it_does_not_find() {
    // the listing is "b", "a", "c", and the cursor is on "c"
    let mut nav = engine();
    let me = nav.dirs[2];
    nav.dir_cache[me].files = Some(vec![
        entry("/home/me", "b", false),
        entry("/home/me", "a", false),
        entry("/home/me", "c", false),
    ]);
    nav.dir_cache[me].files_len = 3;
    nav.dir_cache[me].fsnd = 0;
    nav.dir_cache[me].sp = 0;
    nav.dir_cache[me].bp = 2;
    nav.cmd_prefix = '/';
    nav.cmd_string = "a".to_string();
    assert_eq!(Ok(()), nav.search(false));
    assert_eq!(1, nav.cdir().sp + nav.cdir().bp);
    assert_eq!("a", nav.search_string);

    nav.dir_cache[me].bp = 2;
    nav.cmd_string = "zzz".to_string();
    assert_eq!(Err(NavError::NotFound), nav.search(false));
    assert_eq!(2, nav.cdir().sp + nav.cdir().bp);
    assert_eq!("No file found for pattern `zzz`", nav.error_message);

    // with an empty command line the search before is made again, here backwards
    nav.cmd_string.clear();
    nav.search_string = "B".to_string();
    nav.cmd_prefix = '?';
    assert_eq!(Ok(()), nav.search(false));
    assert_eq!(0, nav.cdir().sp + nav.cdir().bp);
    assert!(!nav.search_direction);
    nav.cmd_prefix = '\0';
    nav.search_string = "c".to_string();
    assert_eq!(Ok(()), nav.search(true));
    assert_eq!(2, nav.cdir().sp + nav.cdir().bp);
}

#[test]
fn search_without_a_pattern_fails() {
    let mut nav = engine();
    assert_eq!(Err(NavError::EmptyPattern), nav.search(false));
    assert_eq!("ERROR: Search pattern is empty.", nav.error_message);
    assert_eq!("docs", cursor_name(&nav));
}

#[test]
fn paste_is_turned_down_while_a_transfer_is_under_way() {
    let mut nav = engine();
    nav.down(2);
    nav.copy(true);
    nav.notice(Notice::Total(100));
    let before = nav.cut_or_copy.items.clone();
    match nav.paste() {
        Err(NavError::TransferBusy) => {}
        other => panic!("{:?}", other.map(|t| t.phase)),
    }
    assert_eq!(before, nav.cut_or_copy.items);
    assert_eq!("ERROR: `paste` or `remove` opration already in progress!!!", nav.error_message);
    nav.toggle(true);
    assert!(matches!(nav.remove(), Err(NavError::TransferBusy)));
    assert_eq!(1, nav.selections.len());
    nav.notice(Notice::Progress(40));
    assert_eq!((100, 40), (nav.mv_cp_total_size, nav.mv_cp_size));
    assert!(!nav.quit());
    nav.notice(Notice::Total(0));
    assert_eq!((0, 0), (nav.mv_cp_total_size, nav.mv_cp_size));
    assert!(nav.quit());
    assert!(nav.paste().is_ok());
}

#[test]
fn paste_needs_a_clipboard_and_a_directory_to_write_to() {
    let mut nav = engine();
    assert!(matches!(nav.paste(), Err(NavError::EmptyClipboard)));
    assert_eq!("ERROR: No selected file to paste!!!", nav.error_message);
    nav.copy(true);
    let me = nav.dirs[2];
    nav.dir_cache[me].readonly = true;
    assert!(matches!(nav.paste(), Err(NavError::DestinationReadOnly)));
    assert_eq!("ERROR: target directory is readonly!!!", nav.error_message);
    assert_eq!(1, nav.cut_or_copy.len());
    nav.dir_cache[me].readonly = false;
    let t = nav.paste().unwrap();
    assert_eq!(Kind::Copy, t.kind);
    assert_eq!(vec!["/home/me/docs".to_string()], t.sources);
    assert_eq!("/home/me", t.dst_dir);
    assert_eq!(Phase::Planning, t.phase);
    assert_eq!(1, nav.cut_or_copy.len());
    nav.cut(true);
    let t = nav.paste().unwrap();
    assert_eq!(Kind::Move, t.kind);
    assert!(nav.cut_or_copy.is_empty());
}

#[test]
fn remove_takes_the_selection() {
    let mut nav = engine();
    assert!(matches!(nav.remove(), Err(NavError::EmptySelection)));
    assert_eq!("No selected file to remove", nav.error_message);
    nav.toggle(true);
    nav.toggle(true);
    let t = nav.remove().unwrap();
    assert_eq!(Kind::Remove, t.kind);
    assert_eq!(vec!["/home/me/docs".to_string(), "/home/me/src".to_string()], t.sources);
    assert!(nav.selections.is_empty());
}

#[test]
fn errors_of_a_transfer_become_the_message() {
    let mut nav = engine();
    nav.notice(Notice::Error("no space left".to_string()));
    assert_eq!("no space left", nav.error_message);
    nav.notice(Notice::Progress(u64::MAX));
    nav.notice(Notice::Progress(5));
    assert_eq!(u64::MAX, nav.mv_cp_size);
}

#[test]
fn open_and_leave_a_directory() {
    let mut nav = engine();
    let h = nav.open_dir("/home/me/docs");
    assert_eq!(4, nav.dirs.len());
    assert_eq!(h, nav.dirs[3]);
    assert_eq!("/home/me/docs", nav.cdir().dir_path);
    nav.up_dir();
    assert_eq!("/home/me", nav.cdir().dir_path);
    nav.up_dir();
    nav.up_dir();
    nav.up_dir();
    assert_eq!("/", nav.cdir().dir_path);
    assert_eq!(1, nav.dirs.len());
}

#[test]
fn preview_follows_the_cursor() {
    let mut nav = engine();
    match nav.update_preview() {
        Some(Preview::Dir(h)) => {
            assert_eq!("/home/me/docs", nav.dir_cache[h].dir_path);
            assert_eq!(Some(h), nav.dir_preview);
        }
        other => panic!("{:?}", other),
    }
    nav.down(2);
    match nav.update_preview() {
        Some(Preview::Reg(h)) => {
            assert_eq!("/home/me/a.txt", nav.reg_cache[h].path);
            assert_eq!(Some(h), nav.reg_preview);
            nav.refresh_reg(h, Vec::new(), 7);
            assert_eq!(vec!["\x1b[7mbinary\x1b[0m".to_string()], nav.reg_cache[h].lines);
            nav.refresh_reg(h, vec!["one".to_string(), "two".to_string()], 8);
            assert_eq!(2, nav.reg_cache[h].lines.len());
            assert_eq!(8, nav.reg_cache[h].loadtime);
            assert_eq!(h, nav.load_reg("/home/me/a.txt"));
        }
        other => panic!("{:?}", other),
    }
    let mut empty = Nav::new(24);
    empty.load_dirs("/");
    assert_eq!(None, empty.update_preview());
}

#[test]
fn settings_reach_the_chain() {
    let mut nav = engine();
    nav.down(4);
    assert_eq!("c.txt", cursor_name(&nav));
    nav.settings.hidden = false;
    nav.sort();
    assert_eq!(6, nav.cdir().files_len);
    assert_eq!("c.txt", cursor_name(&nav));
    assert!(!nav.dir_cache[nav.dirs[0]].hidden);
    let names: Vec<String> = nav.cdir().files().unwrap().iter().map(|f| f.file_name.clone()).collect();
    assert_eq!(vec!["docs", "src", ".profile", "a.txt", "b.txt", "c.txt"], names);
}

#[test]
fn stale_directories_of_the_chain_are_read_again() {
    let mut nav = engine();
    assert_eq!(vec![false, false, false], nav.stale_dirs(&vec![Some(9), Some(10), None]));
    assert_eq!(vec![false, true, false], nav.stale_dirs(&vec![Some(9), Some(11), None]));
    nav.down(4);
    nav.check_dirs(vec![None, None, read(vec![entry("/home/me", "only", false)], 30)]);
    assert_eq!(1, nav.cdir().files_len);
    assert_eq!("only", cursor_name(&nav));
    assert_eq!(30, nav.cdir().loadtime);
    assert_eq!(10, nav.dir_cache[nav.dirs[1]].loadtime);
}

#[test]
fn cd_and_rename() {
    let mut nav = engine();
    assert_eq!(Err(NavError::NotADirectory), nav.cd("/nowhere", false));
    assert_eq!("No dir found for `/nowhere`", nav.error_message);
    assert_eq!(3, nav.dirs.len());
    assert_eq!(Ok(()), nav.cd("/etc/ssl", true));
    assert_eq!("/etc/ssl", nav.cdir().dir_path);
    assert_eq!(3, nav.dirs.len());
    assert!(matches!(nav.rename("x"), Err(NavError::NoFile)));
    assert_eq!("No file to rename", nav.error_message);

    let mut nav = engine();
    nav.down(2);
    assert_eq!(
        Ok(("/home/me/a.txt".to_string(), "/home/me/z.txt".to_string())),
        nav.rename("z.txt")
    );
    nav.renamed(
        Loaded {
            readonly: false,
            listing: Ok(Some(vec![
                entry("/home/me", "z.txt", false),
                entry("/home/me", "b.txt", false),
                entry("/home/me", "docs", true),
            ])),
            now: 40,
        },
        "z.txt",
    );
    assert_eq!("z.txt", cursor_name(&nav));
}

#[test]
fn exports_for_commands() {
    let mut nav = engine();
    assert_eq!(
        ("/home/me/docs".to_string(), String::new(), "/home/me/docs".to_string()),
        nav.export_files()
    );
    nav.toggle(true);
    nav.toggle(true);
    let (f, fs, fx) = nav.export_files();
    assert_eq!("/home/me/a.txt", f);
    assert_eq!("/home/me/docs\n/home/me/src", fs);
    assert_eq!(fs, fx);
}

#[test]
fn resize_clamps_the_chain() {
    let mut nav = engine();
    nav.bottom();
    nav.resize(7);
    assert_eq!(3, nav.useful_rows);
    assert_eq!(4, nav.cdir().sp + nav.cdir().bp);
    assert!(nav.cdir().bp < 3);
    assert!(nav.reg_cache.is_empty());
}
