use tfm::transfer::{tree_size, Command, Event, Found, Kind, Notice, Phase, Transfer};

fn paths(list: &[&str]) -> Vec<String> {
    list.iter().map(|p| p.to_string()).collect()
}

fn text(c: &Command) -> String {
    match c {
        Command::Size(p) => format!("size {}", p),
        Command::Exists(p) => format!("exists {}", p),
        Command::Rename(p, q) => format!("rename {} {}", p, q),
        Command::IsLink(p) => format!("islink {}", p),
        Command::CopyLink(p, q) => format!("copylink {} {}", p, q),
        Command::Walk(p, q) => format!("walk {} {}", p, q),
        Command::Next => "next".to_string(),
        Command::Remove(p) => format!("remove {}", p),
        Command::Stop => "stop".to_string(),
    }
}

fn said(notices: &[Notice]) -> Vec<String> {
    notices
        .iter()
        .map(|n| match n {
            Notice::Total(n) => format!("total {}", n),
            Notice::Progress(n) => format!("progress {}", n),
            Notice::Error(m) => format!("error {}", m),
        })
        .collect()
}

#[test]
fn collision_names_count_up() {
    // "a.txt" is there already: the copy is called "a.txt.~1~", the next one "a.txt.~2~".
    let mut t = Transfer::new(Kind::Copy, paths(&["/src/a.txt"]), "/dst".to_string());
    assert_eq!("size /src/a.txt", text(&t.command()));
    assert_eq!(vec!["total 7"], said(&t.step(Event::Sized(Ok(7)))));
    assert_eq!("exists /dst/a.txt", text(&t.command()));
    assert!(t.step(Event::Exists(true)).is_empty());
    assert_eq!("exists /dst/a.txt.~1~", text(&t.command()));
    assert!(t.step(Event::Exists(false)).is_empty());
    assert_eq!("islink /src/a.txt", text(&t.command()));

    let mut t = Transfer::new(Kind::Copy, paths(&["/src/a.txt"]), "/dst".to_string());
    t.step(Event::Sized(Ok(7)));
    t.step(Event::Exists(true));
    t.step(Event::Exists(true));
    assert_eq!("exists /dst/a.txt.~2~", text(&t.command()));
    for _ in 0..9 {
        t.step(Event::Exists(true));
    }
    assert_eq!("exists /dst/a.txt.~11~", text(&t.command()));
    t.step(Event::Exists(false));
    t.step(Event::Link(false));
    assert_eq!("walk /src/a.txt /dst/a.txt.~11~", text(&t.command()));
}

#[test]
fn copy_of_a_tree() {
    let mut t = Transfer::new(Kind::Copy, paths(&["/src/a", "/src/b"]), "/".to_string());
    assert!(t.step(Event::Sized(Ok(10))).is_empty());
    assert_eq!("size /src/b", text(&t.command()));
    assert_eq!(vec!["total 30"], said(&t.step(Event::Sized(Ok(20)))));
    assert_eq!("exists /a", text(&t.command()));
    t.step(Event::Exists(false));
    t.step(Event::Link(false));
    assert_eq!("walk /src/a /a", text(&t.command()));
    assert!(t.step(Event::Entry(Some(Ok(0)))).is_empty());
    assert_eq!("next", text(&t.command()));
    assert!(t.step(Event::Entry(Some(Ok(10)))).is_empty());
    assert!(t.step(Event::Entry(None)).is_empty());
    assert_eq!("exists /b", text(&t.command()));
    t.step(Event::Exists(false));
    assert_eq!("islink /src/b", text(&t.command()));
    t.step(Event::Link(true));
    assert_eq!("copylink /src/b /b", text(&t.command()));
    assert_eq!(vec!["total 0"], said(&t.step(Event::Linked(Ok(())))));
    assert_eq!("stop", text(&t.command()));
    assert_eq!(Phase::Done, t.phase);
}

#[test]
fn progress_is_published_from_four_mebibytes_on() {
    let mut t = Transfer::new(Kind::Copy, paths(&["/src/a"]), "/dst".to_string());
    t.step(Event::Sized(Ok(100)));
    t.step(Event::Exists(false));
    t.step(Event::Link(false));
    // one byte less than 4 MiB is not yet published
    assert!(t.step(Event::Entry(Some(Ok(4096 * 1024 - 1)))).is_empty());
    assert_eq!(4096 * 1024 - 1, t.pending);
    assert_eq!(vec!["progress 4194304"], said(&t.step(Event::Entry(Some(Ok(1))))));
    assert_eq!(0, t.pending);
    assert_eq!(
        vec![format!("progress {}", 5 * 1024 * 1024)],
        said(&t.step(Event::Entry(Some(Ok(5 * 1024 * 1024)))))
    );
    assert!(t.step(Event::Entry(Some(Ok(5)))).is_empty());
    assert_eq!(vec!["total 0"], said(&t.step(Event::Entry(None))));
}

#[test]
fn error_in_one_file_does_not_stop_the_copy() {
    let mut t = Transfer::new(Kind::Copy, paths(&["/src/a", "/src/b"]), "/dst".to_string());
    t.step(Event::Sized(Ok(1)));
    t.step(Event::Sized(Ok(1)));
    t.step(Event::Exists(false));
    t.step(Event::Link(false));
    t.step(Event::Entry(Some(Ok(0))));
    assert_eq!(
        vec!["error denied: copy file `/src/a/x` failed"],
        said(&t.step(Event::Entry(Some(Err("denied: copy file `/src/a/x` failed".to_string())))))
    );
    assert_eq!("next", text(&t.command()));
    t.step(Event::Entry(Some(Ok(1))));
    assert!(t.step(Event::Entry(None)).is_empty());
    assert_eq!("exists /dst/b", text(&t.command()));
}

#[test]
fn sizing_error_aborts_the_transfer() {
    let mut t = Transfer::new(Kind::Copy, paths(&["/src/a", "/src/b"]), "/dst".to_string());
    t.step(Event::Sized(Ok(1)));
    assert_eq!(vec!["error gone"], said(&t.step(Event::Sized(Err("gone".to_string())))));
    assert_eq!("stop", text(&t.command()));
    assert!(t.step(Event::Exists(false)).is_empty());
    assert_eq!("stop", text(&t.command()));
}

#[test]
fn move_by_rename() {
    let mut t = Transfer::new(Kind::Move, paths(&["/src/a", "/src/b"]), "/dst".to_string());
    t.step(Event::Sized(Ok(5 * 1024 * 1024)));
    assert_eq!(
        vec![format!("total {}", 5 * 1024 * 1024 + 3)],
        said(&t.step(Event::Sized(Ok(3))))
    );
    t.step(Event::Exists(false));
    assert_eq!("rename /src/a /dst/a", text(&t.command()));
    assert_eq!(
        vec![format!("progress {}", 5 * 1024 * 1024)],
        said(&t.step(Event::Renamed(true)))
    );
    assert_eq!("exists /dst/b", text(&t.command()));
    t.step(Event::Exists(false));
    assert_eq!(vec!["total 0"], said(&t.step(Event::Renamed(true))));
    assert_eq!("stop", text(&t.command()));
}

#[test]
fn move_across_devices_copies_then_removes() {
    let mut t = Transfer::new(Kind::Move, paths(&["/src/a"]), "/dst".to_string());
    t.step(Event::Sized(Ok(9)));
    t.step(Event::Exists(false));
    t.step(Event::Renamed(false));
    assert_eq!("islink /src/a", text(&t.command()));
    t.step(Event::Link(false));
    t.step(Event::Entry(Some(Ok(9))));
    assert!(t.step(Event::Entry(None)).is_empty());
    assert_eq!("remove /src/a", text(&t.command()));
    assert_eq!(vec!["total 0"], said(&t.step(Event::Removed(Ok(())))));
}

#[test]
fn move_keeps_a_source_that_was_not_copied_whole() {
    let mut t = Transfer::new(Kind::Move, paths(&["/src/a"]), "/dst".to_string());
    t.step(Event::Sized(Ok(9)));
    t.step(Event::Exists(false));
    t.step(Event::Renamed(false));
    t.step(Event::Link(false));
    t.step(Event::Entry(Some(Err("no space".to_string()))));
    assert_eq!(vec!["total 0"], said(&t.step(Event::Entry(None))));
    assert_eq!("stop", text(&t.command()));
}

#[test]
fn failed_removal_after_a_move_is_reported() {
    let mut t = Transfer::new(Kind::Move, paths(&["/src/a", "/src/b"]), "/dst".to_string());
    t.step(Event::Sized(Ok(1)));
    t.step(Event::Sized(Ok(1)));
    t.step(Event::Exists(false));
    t.step(Event::Renamed(false));
    t.step(Event::Link(true));
    t.step(Event::Linked(Ok(())));
    assert_eq!("remove /src/a", text(&t.command()));
    assert_eq!(vec!["error busy"], said(&t.step(Event::Removed(Err("busy".to_string())))));
    assert_eq!("exists /dst/b", text(&t.command()));
}

#[test]
fn remove_goes_on_past_a_path_that_is_gone() {
    // Three paths are selected; the second is gone.
    let mut t = Transfer::new(Kind::Remove, paths(&["/d/a", "/d/b", "/d/c"]), String::new());
    let mut errors = 0;
    let mut removed = Vec::new();
    let mut last = Vec::new();
    loop {
        let event = match t.command() {
            Command::Size(p) => {
                if p == "/d/b" {
                    Event::Sized(Err("No such file or directory => sizing `/d/b` failed".to_string()))
                } else {
                    Event::Sized(Ok(10))
                }
            }
            Command::Remove(p) => {
                if p == "/d/b" {
                    Event::Removed(Err("No such file or directory: Remove file `/d/b` failed".to_string()))
                } else {
                    removed.push(p);
                    Event::Removed(Ok(()))
                }
            }
            Command::Stop => break,
            other => panic!("{}", text(&other)),
        };
        last = t.step(event);
        for n in &last {
            if let Notice::Error(_) = n {
                errors += 1;
            }
        }
    }
    assert_eq!(vec!["/d/a", "/d/c"], removed);
    assert_eq!(1, errors);
    assert_eq!(vec!["total 0"], said(&last));
}

#[test]
fn remove_publishes_its_progress() {
    let mut t = Transfer::new(Kind::Remove, paths(&["/d/a", "/d/b"]), String::new());
    t.step(Event::Sized(Ok(3 * 1024 * 1024)));
    assert_eq!(
        vec![format!("total {}", 6 * 1024 * 1024)],
        said(&t.step(Event::Sized(Ok(3 * 1024 * 1024))))
    );
    assert_eq!("remove /d/a", text(&t.command()));
    assert!(t.step(Event::Removed(Ok(()))).is_empty());
    assert_eq!(
        vec![format!("progress {}", 6 * 1024 * 1024), "total 0".to_string()],
        said(&t.step(Event::Removed(Ok(()))))
    );
}

#[test]
fn transfer_without_sources_is_over() {
    let t = Transfer::new(Kind::Copy, Vec::new(), "/dst".to_string());
    assert_eq!(Phase::Done, t.phase);
    assert_eq!("stop", text(&t.command()));
}

#[test]
fn answer_out_of_turn_changes_nothing() {
    let mut t = Transfer::new(Kind::Copy, paths(&["/src/a"]), "/dst".to_string());
    assert!(t.step(Event::Exists(true)).is_empty());
    assert_eq!(Phase::Planning, t.phase);
    assert_eq!("size /src/a", text(&t.command()));
}

#[test]
fn sizes_are_held_at_the_greatest_count() {
    let mut t = Transfer::new(Kind::Copy, paths(&["/src/a", "/src/b"]), "/dst".to_string());
    t.step(Event::Sized(Ok(u64::MAX)));
    assert_eq!(
        vec![format!("total {}", u64::MAX)],
        said(&t.step(Event::Sized(Ok(5))))
    );
}

#[test]
fn size_of_a_tree_leaves_links_out() {
    assert_eq!(0, tree_size(&Vec::new()));
    let tree = vec![
        Found { link: false, len: 4096 },
        Found { link: true, len: 11 },
        Found { link: false, len: 5 },
    ];
    assert_eq!(4101, tree_size(&tree));
    let huge = vec![Found { link: false, len: u64::MAX }, Found { link: false, len: 2 }];
    assert_eq!(u64::MAX, tree_size(&huge));
}

#[test]
fn remove_reports_a_path_that_vanishes_after_it_was_sized() {
    let mut t = Transfer::new(Kind::Remove, paths(&["/d/a", "/d/b"]), String::new());
    t.step(Event::Sized(Ok(1)));
    assert_eq!(vec!["total 2"], said(&t.step(Event::Sized(Ok(1)))));
    assert_eq!(vec!["error gone"], said(&t.step(Event::Removed(Err("gone".to_string())))));
    assert_eq!("remove /d/b", text(&t.command()));
    assert_eq!(vec!["total 0"], said(&t.step(Event::Removed(Ok(())))));
}

#[test]
fn remove_counts_nothing_for_a_path_that_cannot_be_sized() {
    let mut t = Transfer::new(Kind::Remove, paths(&["/d/a", "/d/b"]), String::new());
    assert_eq!(vec!["error denied"], said(&t.step(Event::Sized(Err("denied".to_string())))));
    assert_eq!("size /d/b", text(&t.command()));
    assert_eq!(vec!["total 7"], said(&t.step(Event::Sized(Ok(7)))));
    assert_eq!("remove /d/a", text(&t.command()));
    // the path may be removed after all; its error has been reported
    assert!(t.step(Event::Removed(Ok(()))).is_empty());
    assert_eq!(0, t.pending);
    assert_eq!("remove /d/b", text(&t.command()));
    assert_eq!(vec!["total 0"], said(&t.step(Event::Removed(Ok(())))));
    // the last path cannot be sized: the removal begins all the same
    let mut t = Transfer::new(Kind::Remove, paths(&["/d/a"]), String::new());
    assert_eq!(
        vec!["error denied", "total 0"],
        said(&t.step(Event::Sized(Err("denied".to_string()))))
    );
    assert_eq!("remove /d/a", text(&t.command()));
    assert_eq!(vec!["total 0"], said(&t.step(Event::Removed(Err("denied again".to_string())))));
    assert_eq!("stop", text(&t.command()));
}
