use tfm::buffer::{transition, Attr, Attrs, Buffer, Cell, Color, Draw, Paint, Style};

#[test]
fn test_diff() {
    let mut b = Buffer::new(80, 24);
    b.set_content(0, 0, 'c', &Style::default());
    b.set_content(1, 0, 'a', &Style::default());
    b.set_content(2, 0, '杰', &Style::default());
    b.set_content(4, 0, '😀', &Style::default());
    b.set_content(6, 0, '漢', &Style::default());
    println!("{:?}", b.diff());
    let places: Vec<(u16, u16, char)> = b.diff().iter().map(|t| (t.0, t.1, t.2.c)).collect();
    assert_eq!(
        vec![(0, 0, 'c'), (1, 0, 'a'), (2, 0, '杰'), (4, 0, '😀'), (6, 0, '漢')],
        places
    );
}

#[test]
fn test_parse_ansi_code() {
    let mut st = Style::default();
    st.parse_ansi_code("38;2;10;20;255");
    let mut attrs = Attrs::default();
    assert_eq!(
        st,
        Style {
            fg: Color::Rgb { r: 10, g: 20, b: 255 },
            bg: Color::Reset,
            attrs: attrs,
        }
    );
    st.parse_ansi_code("1");
    attrs.set(Attr::Bold);
    assert_eq!(
        st,
        Style {
            fg: Color::Rgb { r: 10, g: 20, b: 255 },
            bg: Color::Reset,
            attrs: attrs,
        }
    );
    st.parse_ansi_code("48;5;34");
    assert_eq!(
        st,
        Style {
            fg: Color::Rgb { r: 10, g: 20, b: 255 },
            bg: Color::AnsiValue(34),
            attrs: attrs,
        }
    );
    st.parse_ansi_code("0");
    assert_eq!(st, Style::default());
}

#[test]
fn codes_of_colours_and_attributes() {
    let mut st = Style::default();
    st.parse_ansi_code("31;42;4");
    assert_eq!(Color::DarkRed, st.fg);
    assert_eq!(Color::DarkGreen, st.bg);
    assert!(st.attrs.has(Attr::Underline));
    st.parse_ansi_code("97;100");
    assert_eq!(Color::White, st.fg);
    assert_eq!(Color::DarkGrey, st.bg);
    st.parse_ansi_code("39;49;7;9");
    assert_eq!(Color::Reset, st.fg);
    assert_eq!(Color::Reset, st.bg);
    assert!(st.attrs.has(Attr::Reverse) && st.attrs.has(Attr::CrossedOut) && st.attrs.has(Attr::Underline));
    // fields that are no number count as zero, which makes the style plain
    st.parse_ansi_code("x");
    assert_eq!(Style::default(), st);
    st.parse_ansi_code("1;;3");
    assert!(!st.attrs.has(Attr::Bold) && st.attrs.has(Attr::Italic));
    st.parse_ansi_code("");
    assert_eq!(Style::default(), st);
    st.parse_ansi_code("+2;256;300;08");
    assert_eq!(Style::default().fg, st.fg);
    assert!(st.attrs.has(Attr::Hide) && !st.attrs.has(Attr::Dim));
    // a colour of many fields needs more behind its last field
    let mut st = Style::default();
    st.parse_ansi_code("38;5");
    assert_eq!(Color::Reset, st.fg);
    st.parse_ansi_code("38;5;7;1");
    assert_eq!(Color::AnsiValue(7), st.fg);
    assert!(st.attrs.has(Attr::Bold));
    st.parse_ansi_code("48;2;1;2;3;4");
    assert_eq!(Color::Rgb { r: 1, g: 2, b: 3 }, st.bg);
    assert!(st.attrs.has(Attr::Underline));
    st.parse_ansi_code("5;6;50");
    assert_eq!(Color::AnsiValue(7), st.fg);
}

#[test]
fn attributes() {
    let mut a = Attrs::default();
    assert_eq!(0, a.0);
    a.set(Attr::Bold);
    a.set(Attr::Hide);
    assert_eq!(0b0010_0001, a.0);
    assert!(a.has(Attr::Bold) && a.has(Attr::Hide) && !a.has(Attr::Dim));
    a.unset(Attr::Bold);
    assert!(!a.has(Attr::Bold));
    a.unset(Attr::Dim);
    assert!(a.has(Attr::Dim));
    let b = Attrs(0b0000_0011);
    assert_eq!(0b0000_0010, a.and(b).0);
    assert_eq!(0b0010_0011, a.or(b).0);
    assert_eq!(0b0010_0001, a.xor(b).0);
    assert_eq!(0b0010_0000, a.minus(b).0);
    assert_eq!(0b0000_0001, b.minus(a).0);
    assert_eq!(0b0100_0000, Attr::CrossedOut.bit());
}

#[test]
fn cells_and_styles() {
    let mut s = Style::new(Color::Red, Color::Blue, Attrs(1));
    s.set_fg(Color::Green);
    s.set_bg(Color::Black);
    s.set_attrs(Attrs(2));
    assert_eq!(Style { fg: Color::Green, bg: Color::Black, attrs: Attrs(2) }, s);
    let mut c = Cell::new('x', s);
    c.set_char('y');
    c.set_fg(Color::White);
    c.set_bg(Color::Grey);
    c.set_attrs(Attrs(4));
    assert_eq!(Cell::new('y', Style::new(Color::White, Color::Grey, Attrs(4))), c);
    c.set_style(&s);
    assert_eq!(Cell::new('y', s), c);
    c.reset();
    assert_eq!(Cell::default(), c);
    s.reset();
    assert_eq!(Style::default(), s);
}

#[test]
fn lines_are_written_into_their_window() {
    let st = Style::default();
    let mut b = Buffer::new(10, 2);
    b.set_line(2, 0, 5, "abcdefgh", &st);
    let row: String = (0..10).map(|c| b.get(c, 0).c).collect();
    assert_eq!("  abcd    ", row);
    b.set_line(0, 1, 0, "abc", &st);
    b.set_line(0, 1, 1, "abc", &st);
    let row: String = (0..10).map(|c| b.get(c, 1).c).collect();
    assert_eq!("          ", row);
    b.set_line(0, 1, 10, "站着说", &st);
    assert_eq!('站', b.get(0, 1).c);
    assert_eq!('着', b.get(2, 1).c);
    assert_eq!('说', b.get(4, 1).c);
    b.set_line_from_right(10, 0, "xyz", &st);
    let row: String = (0..10).map(|c| b.get(c, 0).c).collect();
    assert_eq!("  abcd xyz", row);
    b.set_line_from_right(2, 0, "long", &st);
    let row: String = (0..10).map(|c| b.get(c, 0).c).collect();
    assert_eq!("  abcd xyz", row);
    // outside the screen nothing is written
    b.set_content(5, 7, 'q', &st);
    assert_eq!(20, b.cells.len());
}

#[test]
fn coloured_lines() {
    let mut b = Buffer::new(12, 1);
    let mut st = Style::default();
    b.set_ansi_line(0, 0, 12, "ab\x1b[31mcd\x1b[0;1me\x1b[4", &mut st);
    let row: String = (0..12).map(|c| b.get(c, 0).c).collect();
    assert_eq!("abcde       ", row);
    assert_eq!(Color::Reset, b.get(1, 0).s.fg);
    assert_eq!(Color::DarkRed, b.get(2, 0).s.fg);
    assert_eq!(Color::DarkRed, b.get(3, 0).s.fg);
    assert_eq!(Color::Reset, b.get(4, 0).s.fg);
    assert!(b.get(4, 0).s.attrs.has(Attr::Bold));
    assert!(st.attrs.has(Attr::Underline));
    let mut b = Buffer::new(12, 1);
    let mut st = Style::default();
    b.set_ansi_line(1, 0, 4, "a\x1bXbcdef", &mut st);
    let row: String = (0..12).map(|c| b.get(c, 0).c).collect();
    assert_eq!(" abc        ", row);
}

#[test]
fn diff_follows_wide_characters() {
    let st = Style::default();
    let mut b = Buffer::new(8, 2);
    assert!(b.diff().is_empty());
    b.set_content(1, 1, '站', &st);
    b.set_content(2, 1, 'x', &st);
    b.set_content(3, 1, 'y', &st);
    let places: Vec<(u16, u16, char)> = b.diff().iter().map(|t| (t.0, t.1, t.2.c)).collect();
    // the cell under the wide character is passed over
    assert_eq!(vec![(1, 1, '站'), (3, 1, 'y')], places);
    b.commit();
    assert!(b.diff().is_empty());
    // a narrow character in the place of a wide one spoils the cell behind it
    b.set_content(1, 1, 'n', &st);
    let places: Vec<(u16, u16, char)> = b.diff().iter().map(|t| (t.0, t.1, t.2.c)).collect();
    assert_eq!(vec![(1, 1, 'n'), (2, 1, 'x')], places);
    b.reset();
    assert!(b.diff().is_empty());
    assert_eq!(' ', b.get(1, 1).c);
    b.resize_x_y(3, 2);
    assert_eq!((3, 2), b.size);
    assert_eq!(6, b.cells.len());
    assert_eq!(6, b.prev_cells.len());
}

#[test]
fn transition_between_styles() {
    let plain = Style::default();
    let bold_red = Style::new(Color::Red, Color::Reset, Attrs(0b0000_0001));
    assert!(transition(&plain, &plain).is_empty());
    assert_eq!(vec![Paint::Foreground(Color::Red), Paint::Bold], transition(&plain, &bold_red));
    assert_eq!(
        vec![Paint::Foreground(Color::Reset), Paint::NormalIntensity],
        transition(&bold_red, &plain)
    );
    let dim_under = Style::new(Color::Red, Color::Blue, Attrs(0b0000_1010));
    assert_eq!(
        vec![
            Paint::Background(Color::Blue),
            Paint::NormalIntensity,
            Paint::Dim,
            Paint::Dim,
            Paint::Underlined
        ],
        transition(&bold_red, &dim_under)
    );
    let all = Style::new(Color::Red, Color::Blue, Attrs(0b0111_1111));
    assert_eq!(
        vec![
            Paint::Foreground(Color::Reset),
            Paint::Background(Color::Reset),
            Paint::NormalIntensity,
            Paint::NormalIntensity,
            Paint::NoItalic,
            Paint::NoUnderline,
            Paint::NoReverse,
            Paint::NoHidden,
            Paint::NotCrossedOut
        ],
        transition(&all, &plain)
    );
}

fn theme() -> tfm::view::Theme {
    let style = |n: u8| Style::new(Color::AnsiValue(n), Color::Reset, Attrs(0));
    tfm::view::Theme {
        executable: style(1),
        regular: style(2),
        directory: style(3),
        link_working: style(4),
        link_broken: style(5),
        pipe: style(6),
        socket: style(7),
        char_device: style(8),
        block_device: style(9),
    }
}

fn entry(name: &str, mode: u32, link: Option<tfm::file::LinkState>) -> tfm::file::File {
    tfm::file::File::new(
        name.to_string(),
        format!("/{}", name),
        if link.is_some() { tfm::file::FileType::Link } else { tfm::file::FileType::get_file_type(mode) },
        link,
        mode,
        0,
        0,
        0,
        0,
    )
}

#[test]
fn names_of_entries_are_styled_by_their_kind() {
    let t = theme();
    let kinds = [
        (entry("run", 0o100755, None), 1),
        (entry("text", 0o100644, None), 2),
        (entry("dir", 0o040755, None), 3),
        (entry("l", 0o100644, Some(tfm::file::LinkState::Working("x".to_string()))), 4),
        (entry("l", 0o120777, Some(tfm::file::LinkState::Broken("x".to_string()))), 5),
        (entry("p", 0o010644, None), 6),
        (entry("s", 0o140644, None), 7),
        (entry("c", 0o020644, None), 8),
        (entry("b", 0o060644, None), 9),
        (entry("odd", 0o000644, None), 2),
    ];
    for (file, n) in kinds.iter() {
        assert_eq!(Color::AnsiValue(*n), t.style_of(file).fg, "{}", file.file_name);
    }
    let file = entry("notes", 0o100644, None);
    let (name, style) = tfm::view::styled_name(&file, 10, false, &t);
    assert_eq!(" notes", name);
    assert_eq!(t.regular, style);
    let (name, style) = tfm::view::styled_name(&file, 10, true, &t);
    assert_eq!(" notes     ", name);
    assert!(style.attrs.has(Attr::Reverse));
    assert_eq!(Color::AnsiValue(2), style.fg);
    let (name, _) = tfm::view::styled_name(&file, 6, false, &t);
    assert_eq!(" n... ", name);
    let (name, _) = tfm::view::styled_name(&file, 7, true, &t);
    assert_eq!(" notes  ", name);
    let (name, _) = tfm::view::styled_name(&file, 0, true, &t);
    assert_eq!(" ... ", name);
}

#[test]
fn counts_of_the_status_line() {
    assert_eq!(" [1/5]", tfm::view::proportion(0, 5));
    assert_eq!(" [10/250]", tfm::view::proportion(9, 250));
    assert_eq!(
        format!(" [{}/0]", usize::MAX as u128 + 1),
        tfm::view::proportion(usize::MAX, 0)
    );
    assert_eq!(" 0 ", tfm::view::count_label(0));
    assert_eq!(" 12 ", tfm::view::count_label(12));
}

#[test]
fn drawing_tells_the_terminal_what_changed() {
    let red = Style::new(Color::Red, Color::Reset, Attrs(1));
    let mut b = Buffer::new(4, 2);
    b.set_content(1, 0, 'a', &Style::default());
    b.set_content(2, 1, 'b', &red);
    b.set_content(3, 1, 'c', &red);
    assert_eq!(
        vec![
            Draw::MoveTo(1, 0),
            Draw::Print('a'),
            Draw::MoveTo(2, 1),
            Draw::Paint(Paint::Foreground(Color::Red)),
            Draw::Paint(Paint::Bold),
            Draw::Print('b'),
            Draw::MoveTo(3, 1),
            Draw::Print('c'),
        ],
        b.draw()
    );
    assert!(b.draw().is_empty());
    b.get_mut(0, 0).set_char('z').set_fg(Color::Blue);
    assert_eq!('z', b.get(0, 0).c);
    assert_eq!(Color::Blue, b.get(0, 0).s.fg);
    assert_eq!(3, b.draw().len());
    let mut s = Style::default();
    s.set_fg(Color::Red).set_bg(Color::Blue).set_attrs(Attrs(3));
    assert_eq!(Style::new(Color::Red, Color::Blue, Attrs(3)), s);
}
