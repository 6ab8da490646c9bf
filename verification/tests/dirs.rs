use tfm::config::Settings;
use tfm::dir::{Dir, Loaded, Refresh, SortType};
use tfm::file::{File, FileType};

fn entry(name: &str, is_dir: bool, size: u64, mtime: i64) -> File {
    let mode = if is_dir { 0o040755 } else { 0o100644 };
    File::new(
        name.to_string(),
        format!("/d/{}", name),
        FileType::get_file_type(mode),
        None,
        mode,
        size,
        mtime,
        0,
        0,
    )
}

fn names(dir: &Dir) -> Vec<String> {
    match dir.files() {
        Some(files) => files.iter().map(|f| f.file_name.clone()).collect(),
        None => Vec::new(),
    }
}

fn settings(hidden: bool, sort_type: SortType) -> Settings {
    let mut s = Settings::new();
    s.hidden = hidden;
    s.sort_type = sort_type;
    s
}

fn loaded(dir: &mut Dir, files: Vec<File>) {
    dir.update(false, Ok(Some(files)), 100);
}

fn listing() -> Vec<File> {
    vec![
        entry("img10", false, 5, 50),
        entry(".git", true, 1, 10),
        entry("src", true, 3, 30),
        entry("img2", false, 9, 20),
        entry(".env", false, 2, 40),
        entry("Makefile", false, 7, 60),
        entry("docs", true, 4, 5),
    ]
}

#[test]
fn new_snapshot_is_unloaded() {
    let dir = Dir::new("/d", &Settings::new());
    assert_eq!("/d", dir.dir_path);
    assert!(dir.files().is_none());
    assert_eq!(0, dir.files_len);
    assert_eq!((0, 0), (dir.sp, dir.bp));
    assert_eq!(0, dir.loadtime);
    assert!(dir.hidden);
    assert_eq!(SortType::Natural, dir.sort_type);
    assert!(!dir.readonly);
    assert!(dir.error_message.is_none());
}

#[test]
fn load_orders_naturally_with_directories_first() {
    let mut dir = Dir::new("/d", &Settings::new());
    loaded(&mut dir, listing());
    assert_eq!(vec!["docs", "src", "img2", "img10", "Makefile"], names(&dir));
    assert_eq!(5, dir.files_len);
    assert_eq!(100, dir.loadtime);
}

#[test]
fn hidden_entries_are_shown_on_demand() {
    let mut dir = Dir::new("/d", &settings(false, SortType::Natural));
    loaded(&mut dir, listing());
    assert_eq!(
        vec![".git", "docs", "src", ".env", "img2", "img10", "Makefile"],
        names(&dir)
    );
    assert_eq!(7, dir.files_len);
}

#[test]
fn directories_precede_files_in_every_order() {
    for sort_type in [SortType::Natural, SortType::ModifyTime, SortType::Size] {
        for hidden in [true, false] {
            let mut dir = Dir::new("/d", &settings(hidden, sort_type));
            loaded(&mut dir, listing());
            let files = dir.files().unwrap();
            for pair in files.windows(2) {
                assert!(
                    pair[0].is_dir() || !pair[1].is_dir(),
                    "{} before {}",
                    pair[0].file_name,
                    pair[1].file_name
                );
            }
        }
    }
}

#[test]
fn order_by_size_and_by_time() {
    let mut dir = Dir::new("/d", &settings(true, SortType::Size));
    loaded(&mut dir, listing());
    assert_eq!(vec!["src", "docs", "img10", "Makefile", "img2"], names(&dir));
    let mut dir = Dir::new("/d", &settings(true, SortType::ModifyTime));
    loaded(&mut dir, listing());
    assert_eq!(vec!["docs", "src", "img2", "img10", "Makefile"], names(&dir));
}

#[test]
fn sort_is_stable() {
    let mut files = vec![
        entry("b", false, 1, 0),
        entry("a", false, 1, 0),
        entry("c", false, 0, 0),
        entry("d", false, 1, 0),
    ];
    SortType::Size.sort(&mut files);
    let order: Vec<&str> = files.iter().map(|f| f.file_name.as_str()).collect();
    assert_eq!(vec!["c", "b", "a", "d"], order);
}

#[test]
fn error_keeps_the_listing() {
    let mut dir = Dir::new("/d", &Settings::new());
    loaded(&mut dir, listing());
    dir.update(true, Err("permission denied".to_string()), 200);
    assert_eq!(Some("permission denied".to_string()), dir.error_message);
    assert_eq!(5, dir.files_len);
    assert_eq!(100, dir.loadtime);
    assert!(dir.readonly);
}

#[test]
fn listing_that_could_not_be_taken_whole_counts_as_none() {
    let mut dir = Dir::new("/d", &Settings::new());
    loaded(&mut dir, listing());
    dir.update(false, Ok(None), 200);
    assert!(dir.files().is_none());
    assert_eq!(0, dir.files_len);
    assert_eq!(200, dir.loadtime);
}

#[test]
fn all_hidden_shows_nothing() {
    let mut dir = Dir::new("/d", &Settings::new());
    loaded(&mut dir, vec![entry(".a", false, 0, 0), entry(".b", true, 0, 0)]);
    assert!(dir.files().is_none());
    assert_eq!(0, dir.files_len);
    assert!(dir.current().is_none());
}

fn long_listing(n: usize) -> Vec<File> {
    (0..n).map(|i| entry(&format!("f{}", i), false, 0, 0)).collect()
}

#[test]
fn clamp_keeps_the_cursor_and_its_margin() {
    for count in 1..40usize {
        for rows in 1..20usize {
            for index in 0..count {
                for sp in [0, index / 2, index] {
                    let mut dir = Dir::new("/d", &Settings::new());
                    loaded(&mut dir, long_listing(count));
                    dir.sp = sp;
                    dir.bp = index - sp;
                    dir.bound_position(rows);
                    assert_eq!(index, dir.sp + dir.bp);
                    assert!(dir.bp < count.min(rows));
                    assert!(dir.sp <= count.saturating_sub(rows));
                }
            }
        }
    }
}

#[test]
fn clamp_by_the_formula() {
    // 100 entries, 20 rows: the margin is six rows.
    let mut dir = Dir::new("/d", &Settings::new());
    loaded(&mut dir, long_listing(100));
    dir.sp = 50;
    dir.bp = 2;
    dir.bound_position(20);
    assert_eq!((46, 6), (dir.sp, dir.bp));
    dir.sp = 50;
    dir.bp = 19;
    dir.bound_position(20);
    assert_eq!((56, 13), (dir.sp, dir.bp));
    dir.sp = 95;
    dir.bp = 3;
    dir.bound_position(20);
    assert_eq!((80, 18), (dir.sp, dir.bp));
    // a window of four rows has a margin of one
    dir.sp = 10;
    dir.bp = 3;
    dir.bound_position(4);
    assert_eq!((11, 2), (dir.sp, dir.bp));
    // a listing that fits has no scrolling
    let mut small = Dir::new("/d", &Settings::new());
    loaded(&mut small, long_listing(5));
    small.sp = 3;
    small.bp = 1;
    small.bound_position(10);
    assert_eq!((0, 4), (small.sp, small.bp));
    // a cursor behind the listing comes back into it
    small.sp = 0;
    small.bp = 9;
    small.bound_position(10);
    assert_eq!((0, 4), (small.sp, small.bp));
}

#[test]
fn clamp_of_an_empty_listing() {
    let mut dir = Dir::new("/d", &Settings::new());
    dir.sp = 4;
    dir.bp = 2;
    dir.bound_position(10);
    assert_eq!((0, 0), (dir.sp, dir.bp));
}

#[test]
fn select_by_name() {
    let mut dir = Dir::new("/d", &Settings::new());
    loaded(&mut dir, listing());
    dir.sel("img10", 10);
    assert_eq!(3, dir.sp + dir.bp);
    assert_eq!("img10", dir.current().unwrap().file_name);
    dir.sel("absent", 10);
    assert_eq!(3, dir.sp + dir.bp);
    dir.sel("docs", 10);
    assert_eq!(0, dir.sp + dir.bp);
}

#[test]
fn movement() {
    let mut dir = Dir::new("/d", &Settings::new());
    loaded(&mut dir, long_listing(50));
    dir.down(1, 10);
    assert_eq!(1, dir.sp + dir.bp);
    dir.down(3, 10);
    assert_eq!(4, dir.sp + dir.bp);
    dir.up(2, 10);
    assert_eq!(2, dir.sp + dir.bp);
    dir.up(10, 10);
    assert_eq!(0, dir.sp + dir.bp);
    dir.bottom(10);
    assert_eq!((40, 9), (dir.sp, dir.bp));
    dir.top();
    assert_eq!((0, 0), (dir.sp, dir.bp));
    dir.go_to(30, 10);
    assert_eq!(30, dir.sp + dir.bp);
    assert!(dir.bp < 10);
}

#[test]
fn search_wraps_round_the_listing() {
    let mut dir = Dir::new("/d", &Settings::new());
    let files = vec![entry("b", false, 0, 0), entry("a", false, 0, 0), entry("c", false, 0, 0)];
    dir.files = Some(files);
    dir.files_len = 3;
    dir.sp = 0;
    dir.bp = 2;
    assert_eq!(Some(1), dir.find("a", true));
    assert_eq!(Some(1), dir.find("A", false));
    assert_eq!(None, dir.find("zzz", true));
    assert_eq!(None, dir.find("c", true));
    dir.bp = 0;
    assert_eq!(Some(2), dir.find("c", false));
    assert_eq!(Some(2), dir.find("c", true));
}

#[test]
fn stale_by_time_then_order_then_filter() {
    let mut dir = Dir::new("/d", &Settings::new());
    assert_eq!(Refresh::Reload, dir.stale(0, &Settings::new()));
    loaded(&mut dir, listing());
    // a change in the second of the load is not seen; a later one is
    assert_eq!(Refresh::Keep, dir.stale(100, &Settings::new()));
    assert_eq!(Refresh::Reload, dir.stale(101, &Settings::new()));
    assert_eq!(Refresh::Keep, dir.stale(99, &Settings::new()));
    assert_eq!(Refresh::Resort, dir.stale(99, &settings(false, SortType::Size)));
    assert_eq!(Refresh::Refilter, dir.stale(99, &settings(false, SortType::Natural)));
}

#[test]
fn refresh_reloads_resorts_and_selects() {
    let mut dir = Dir::new("/d", &Settings::new());
    let first = Loaded { readonly: false, listing: Ok(Some(listing())), now: 100 };
    dir.refresh(50, Some(first), &Settings::new(), 10, Some("img2"));
    assert_eq!("img2", dir.current().unwrap().file_name);
    assert_eq!(100, dir.loadtime);
    // a second refresh without a change does not reload
    assert_eq!(Refresh::Keep, dir.stale(50, &Settings::new()));
    dir.refresh(50, None, &settings(false, SortType::Size), 10, None);
    assert_eq!(vec![".git", "src", "docs", ".env", "img10", "Makefile", "img2"], names(&dir));
    assert_eq!(SortType::Size, dir.sort_type);
    assert!(!dir.hidden);
}

#[test]
fn resort_keeps_the_cursor_on_its_entry() {
    let mut dir = Dir::new("/d", &Settings::new());
    loaded(&mut dir, listing());
    dir.sel("Makefile", 10);
    dir.resort(&settings(false, SortType::Size), 10);
    assert_eq!("Makefile", dir.current().unwrap().file_name);
    assert_eq!(7, dir.files_len);
}

#[test]
fn names_with_zeros_in_front_are_in_order() {
    let mut dir = Dir::new("/d", &Settings::new());
    loaded(&mut dir, vec![entry("a1c", false, 0, 0), entry("a01b", true, 0, 0), entry("a1b", false, 0, 0)]);
    assert_eq!(vec!["a01b", "a1b", "a1c"], names(&dir));
    let mut dir = Dir::new("/d", &Settings::new());
    loaded(
        &mut dir,
        vec![
            entry("a1c", false, 0, 0),
            entry("a01b", false, 0, 0),
            entry("a1b", false, 0, 0),
            entry("a001a", false, 0, 0),
        ],
    );
    assert_eq!(vec!["a001a", "a01b", "a1b", "a1c"], names(&dir));
}

#[test]
fn never_loaded_is_always_due() {
    assert!(tfm::dir::reload_due(0, 0));
    assert!(tfm::dir::reload_due(0, 5));
    assert!(!tfm::dir::reload_due(5, 5));
    assert!(!tfm::dir::reload_due(5, 4));
    assert!(tfm::dir::reload_due(5, 6));
}
