use tfm::file::{File, FileType, LinkState};

fn file(name: &str, file_type: FileType, mode: u32, size: u64) -> File {
    File::new(
        name.to_string(),
        format!("/{}", name),
        file_type,
        None,
        mode,
        size,
        0,
        0,
        0,
    )
}

#[test]
fn test_file_mode_1() {
    // `/usr/bin/passwd` -rwsr-xr-x, a regular file: 35309 is 0b1000 1001 1110 1101
    let file = file("passwd", FileType::get_file_type(35309), 35309, 0);
    assert_eq!(0, 35309 ^ file.mode);
    assert_eq!(FileType::RegularFile, file.file_type);
}

#[test]
fn test_file_mode_2() {
    let cargo_toml = file("Cargo.toml", FileType::get_file_type(0o100644), 0o100644, 0);
    let passwd = file("passwd", FileType::get_file_type(35309), 35309, 0);
    let root_tmp_dir = file("tmp", FileType::get_file_type(0o041777), 0o041777, 0);
    let tty = file("tty", FileType::get_file_type(0o020666), 0o020666, 0);

    assert_eq!(String::from("-rw-r--r--"), cargo_toml.mode());
    assert_eq!(String::from("-rwsr-xr-x"), passwd.mode());
    assert_eq!(String::from("drwxrwxrwt"), root_tmp_dir.mode());
    assert_eq!(String::from("crw-rw-rw-"), tty.mode());
}

#[test]
fn test_file_size() {
    let mut file = file("Cargo.toml", FileType::RegularFile, 0o100644, 0);
    file.size = 10;
    assert_eq!(String::from("10.0B"), file.size());
    file.size = 1024;
    assert_eq!(String::from("1.0K"), file.size());
    file.size = 1024 * 123;
    assert_eq!(String::from("123.0K"), file.size());
    file.size = 1024 * 1024 * 123;
    assert_eq!(String::from("123.0M"), file.size());
    file.size = 1024 * 1024 * 1024 * 123;
    assert_eq!(String::from("123.0G"), file.size());
    file.size = 1024 * 1024 * 1024 * 1024 * 3;
    assert_eq!(String::from("3072.0G"), file.size());
}

fn float_size(size: u64) -> String {
    let unit = ['B', 'K', 'M', 'G'];
    let mut s = size;
    let mut divisor = 1f64;
    let mut i = 0usize;
    while i < unit.len() - 1 {
        if s < 1024 {
            break;
        }
        s >>= 10;
        divisor *= 1024f64;
        i += 1;
    }
    format!("{:.1}{}", size as f64 / divisor, unit[i])
}

#[test]
fn size_rounds_as_a_double_does() {
    let mut f = file("x", FileType::RegularFile, 0o100644, 0);
    let mut samples: Vec<u64> = vec![
        0,
        1,
        9,
        1023,
        1024,
        1025,
        1075,
        1076,
        1077,
        1280,
        1536,
        1792,
        2047,
        1048575,
        1048576,
        1048577,
        1073741823,
        1073741824,
        1073741825,
        1127428915,
        1127428916,
        u64::MAX,
        u64::MAX - 1,
        u64::MAX - 1023,
        u64::MAX - 1024,
        u64::MAX - 1025,
        (1 << 53) - 1,
        1 << 53,
        (1 << 53) + 1,
        (1 << 53) + 2,
        (1 << 53) + 3,
        (1 << 54) + 2,
        (1 << 54) + 6,
        (1 << 60) + 128,
        (1 << 60) + 384,
        (1 << 63) + 1024,
        (1 << 63) + 3072,
    ];
    let mut x: u64 = 0x9E3779B97F4A7C15;
    for _ in 0..20000 {
        x ^= x << 13;
        x ^= x >> 7;
        x ^= x << 17;
        samples.push(x);
        samples.push(x >> 20);
        samples.push(x >> 34);
        samples.push(x >> 44);
        samples.push(x >> 54);
    }
    for step in 0..4096u64 {
        samples.push(1024 + step);
        samples.push(1048576 + step * 256);
        samples.push(1073741824 + step * 262144);
    }
    for size in samples {
        f.size = size;
        assert_eq!(float_size(size), f.size(), "size {}", size);
    }
}

#[test]
fn type_of_mode() {
    assert_eq!(FileType::Link, FileType::get_file_type(0o120777));
    assert_eq!(FileType::Directory, FileType::get_file_type(0o040755));
    assert_eq!(FileType::RegularFile, FileType::get_file_type(0o100644));
    assert_eq!(FileType::Pipe, FileType::get_file_type(0o010644));
    assert_eq!(FileType::Socket, FileType::get_file_type(0o140755));
    assert_eq!(FileType::CharDevice, FileType::get_file_type(0o020620));
    assert_eq!(FileType::BlockDevice, FileType::get_file_type(0o060660));
    assert_eq!(FileType::Special, FileType::get_file_type(0o000644));
}

#[test]
fn symbols_of_types() {
    assert_eq!('d', FileType::Directory.symbol());
    assert_eq!('-', FileType::RegularFile.symbol());
    assert_eq!('l', FileType::Link.symbol());
    assert_eq!('p', FileType::Pipe.symbol());
    assert_eq!('s', FileType::Socket.symbol());
    assert_eq!('c', FileType::CharDevice.symbol());
    assert_eq!('b', FileType::BlockDevice.symbol());
    assert_eq!('-', FileType::Special.symbol());
}

#[test]
fn permissions_with_set_id_and_sticky_bits() {
    assert_eq!("rwsrwsrwt", file("a", FileType::RegularFile, 0o107777, 0).permissions());
    assert_eq!("rwSrwSrwT", file("a", FileType::RegularFile, 0o107666, 0).permissions());
    assert_eq!("---------", file("a", FileType::RegularFile, 0o100000, 0).permissions());
    assert_eq!("rwxr-x--x", file("a", FileType::RegularFile, 0o100751, 0).permissions());
}

#[test]
fn directories_and_executables() {
    let dir = file("d", FileType::Directory, 0o040755, 0);
    let script = file("run", FileType::RegularFile, 0o100755, 0);
    let text = file("notes", FileType::RegularFile, 0o100644, 0);
    let link = File::new(
        "l".to_string(),
        "/l".to_string(),
        FileType::Link,
        Some(LinkState::Working("/d".to_string())),
        0o040755,
        0,
        0,
        0,
        0,
    );
    assert!(dir.is_dir());
    assert!(!script.is_dir());
    assert!(link.is_dir());
    assert!(!dir.is_executable());
    assert!(script.is_executable());
    assert!(!text.is_executable());
}

#[test]
fn info_line_begins_with_mode_and_size() {
    let f = file("notes", FileType::RegularFile, 0o100644, 2048);
    let info = f.file_info(Some("Thu 01/01/1970 00:00:00".to_string()));
    assert!(info.starts_with("-rw-r--r-- 2.0K "), "{}", info);
    assert!(info.ends_with(" Thu 01/01/1970 00:00:00"), "{}", info);
    assert!(f.file_info(None).ends_with(' '));
    let joined = tfm::file::info_line("-rw-r--r--", "2.0K", "me", "us", "now");
    assert_eq!("-rw-r--r-- 2.0K me us now", joined);
}

#[test]
fn modify_time_is_what_the_machine_wrote() {
    let f = file("notes", FileType::RegularFile, 0o100644, 0);
    assert_eq!("", f.modify_time(None));
    assert_eq!("Fri 01/01/1971 00:00:00", f.modify_time(Some("Fri 01/01/1971 00:00:00".to_string())));
    assert_eq!("%a %d/%m/%Y %X", tfm::config::TIME_FORMAT);
}

#[test]
fn answer_of_the_machine_or_nothing() {
    assert_eq!("root", tfm::file::text_or_empty(Some("root".to_string())));
    assert_eq!("", tfm::file::text_or_empty(Some(String::new())));
    assert_eq!("", tfm::file::text_or_empty(None));
}
