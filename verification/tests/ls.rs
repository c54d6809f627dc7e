use osh::commands::ls::{
    case_tie_key, compare_entries, get_acl, get_col_width, get_color, get_group, get_indicator, get_owner,
    get_perms, get_size, get_time, get_target, get_type_char, get_widths, is_listed, is_old_or_future, listing,
    print_dirs, print_entries, print_files, print_long, print_short, run, sort_entries, special_names,
    time_pattern, collect_file, Entry, FileFacts, FileKind, Flags, LongInfo, SizeField, Timestamp,
};
use osh::error::ShellError;
use osh::order::Order;

fn s(v: &[&str]) -> Vec<String> {
    v.iter().map(|x| x.to_string()).collect()
}

fn short(name: &str, indicator: Option<char>) -> Entry {
    Entry { name: name.to_string(), indicator, color: "", long: None }
}

fn long(name: &str, nlink: u64, owner: &str, size: SizeField, blocks: u64) -> Entry {
    Entry {
        name: name.to_string(),
        indicator: None,
        color: "",
        long: Some(LongInfo {
            blocks,
            perms: "-rw-r--r--".to_string(),
            acl: None,
            nlink,
            owner: owner.to_string(),
            group: "staff".to_string(),
            size,
            modified: "Jan  1 12:00".to_string(),
            target: String::new(),
        }),
    }
}

fn facts(kind: FileKind, mode: u32) -> FileFacts {
    FileFacts {
        kind,
        mode,
        blocks: 8,
        nlink: 1,
        uid: 1000,
        gid: 1000,
        owner_name: Some("alice".to_string()),
        group_name: None,
        len: 42,
        rdev: 0,
        modified: Timestamp { secs: 0, nanos: 0 },
        acl_len: None,
        link: None,
        link_target: None,
    }
}

const NOW: Timestamp = Timestamp { secs: 1_700_000_000, nanos: 0 };

#[test]
fn flags_parse_options_and_paths() {
    let mut f = Flags::new();
    assert!(!f.all && !f.long && !f.class);
    let paths = f.parse(&s(&["-la", "x", "-F", "y"])).ok().unwrap();
    assert_eq!(paths, vec!["x", "y"]);
    assert!(f.all && f.long && f.class);
}

#[test]
fn flags_single_dash_is_no_path() {
    let mut f = Flags::new();
    let paths = f.parse(&s(&["-", "a"])).ok().unwrap();
    assert_eq!(paths, vec!["a"]);
}

#[test]
fn flags_invalid_option() {
    let mut f = Flags::new();
    match f.parse(&s(&["-lx"])) {
        Err(ShellError::One(e)) => assert_eq!(e.to_text(), "ls: Invalid option: '-x'"),
        _ => panic!("expected an error"),
    }
}

#[test]
fn run_defaults_to_current_directory() {
    let (flags, targets) = run(s(&["-l"])).ok().unwrap();
    assert!(flags.long);
    assert_eq!(targets, vec!["."]);
    let (_, targets) = run(s(&["a", "b"])).ok().unwrap();
    assert_eq!(targets, vec!["a", "b"]);
    assert!(run(s(&["-z"])).is_err());
}

#[test]
fn type_chars() {
    assert_eq!(get_type_char(FileKind::Symlink), 'l');
    assert_eq!(get_type_char(FileKind::Dir), 'd');
    assert_eq!(get_type_char(FileKind::Fifo), 'p');
    assert_eq!(get_type_char(FileKind::Socket), 's');
    assert_eq!(get_type_char(FileKind::BlockDevice), 'b');
    assert_eq!(get_type_char(FileKind::CharDevice), 'c');
    assert_eq!(get_type_char(FileKind::File), '-');
}

#[test]
fn perms_strings() {
    assert_eq!(get_perms(0o644, '-'), "-rw-r--r--");
    assert_eq!(get_perms(0o755, 'd'), "drwxr-xr-x");
    assert_eq!(get_perms(0o4755, '-'), "-rwsr-xr-x");
    assert_eq!(get_perms(0o4644, '-'), "-rwSr--r--");
    assert_eq!(get_perms(0o2755, '-'), "-rwxr-sr-x");
    assert_eq!(get_perms(0o2745, '-'), "-rwxr-Sr-x");
    assert_eq!(get_perms(0o1777, 'd'), "drwxrwxrwt");
    assert_eq!(get_perms(0o1776, 'd'), "drwxrwxrwT");
    assert_eq!(get_perms(0, 'l'), "l---------");
}

#[test]
fn colors_and_indicators() {
    assert_eq!(get_color(FileKind::Symlink, 0o777), "\x1b[1;36m");
    assert_eq!(get_color(FileKind::Dir, 0o755), "\x1b[1;34m");
    assert_eq!(get_color(FileKind::Fifo, 0), "\x1b[33m");
    assert_eq!(get_color(FileKind::Socket, 0), "\x1b[1;35m");
    assert_eq!(get_color(FileKind::File, 0o700), "\x1b[1;32m");
    assert_eq!(get_color(FileKind::File, 0o644), "");
    assert_eq!(get_indicator(FileKind::Dir, 0), Some('/'));
    assert_eq!(get_indicator(FileKind::Fifo, 0), Some('|'));
    assert_eq!(get_indicator(FileKind::Socket, 0), Some('='));
    assert_eq!(get_indicator(FileKind::File, 0o100), Some('*'));
    assert_eq!(get_indicator(FileKind::File, 0o644), None);
    assert_eq!(get_indicator(FileKind::Symlink, 0o777), None);
    assert_eq!(get_indicator(FileKind::CharDevice, 0o777), None);
}

#[test]
fn acl_marker() {
    assert_eq!(get_acl(None), None);
    assert_eq!(get_acl(Some(28)), None);
    assert_eq!(get_acl(Some(44)), Some('+'));
}

#[test]
fn owner_and_group_names() {
    assert_eq!(get_owner(0, Some("root".to_string())), "root");
    assert_eq!(get_owner(1234, None), "1234");
    assert_eq!(get_group(0, None), "0");
}

#[test]
fn sizes_and_device_numbers() {
    assert_eq!(get_size(FileKind::File, 4096, 0), SizeField::Regular(4096));
    // /dev/sda: major 8, minor 0; /dev/null: major 1, minor 3
    assert_eq!(get_size(FileKind::BlockDevice, 0, 0x800), SizeField::Device { major: 8, minor: 0 });
    assert_eq!(get_size(FileKind::CharDevice, 0, 0x103), SizeField::Device { major: 1, minor: 3 });
    // large numbers use the high bits
    let rdev: u64 = (0x12345u64 << 32) & 0xfffff00000000000 | (0x678u64 << 8) | (0xabcdeu64 << 12) & 0x00000ffffff00000 | 0x9f;
    match get_size(FileKind::CharDevice, 0, rdev) {
        SizeField::Device { major, minor } => {
            assert_eq!(major, ((rdev & 0xfff00) >> 8 | (rdev & 0xfffff00000000000) >> 32) as u32);
            assert_eq!(minor, ((rdev & 0xff) | (rdev & 0x00000ffffff00000) >> 12) as u32);
        }
        _ => panic!("expected device numbers"),
    }
}

#[test]
fn time_patterns() {
    let old = Timestamp { secs: NOW.secs - 200 * 24 * 3600, nanos: 0 };
    let recent = Timestamp { secs: NOW.secs - 3600, nanos: 0 };
    let future = Timestamp { secs: NOW.secs + 10, nanos: 0 };
    assert!(is_old_or_future(NOW, old));
    assert!(!is_old_or_future(NOW, recent));
    assert!(is_old_or_future(NOW, future));
    assert_eq!(time_pattern(NOW, old), "%b %e  %Y");
    assert_eq!(time_pattern(NOW, recent), "%b %e %H:%M");
    // exactly six months ago is still recent; one second more is old
    let edge = Timestamp { secs: NOW.secs - 15_724_800, nanos: 0 };
    assert!(!is_old_or_future(NOW, edge));
    let past_edge = Timestamp { secs: NOW.secs - 15_724_801, nanos: 0 };
    assert!(is_old_or_future(NOW, past_edge));
    // fractions of a second do not count
    let almost = Timestamp { secs: NOW.secs - 15_724_801, nanos: 1 };
    assert!(!is_old_or_future(NOW, almost));
}

#[test]
fn targets_of_links() {
    assert_eq!(get_target(None, None, true), "");
    assert_eq!(get_target(Some("dest".to_string()), None, false), " -> dest");
    assert_eq!(get_target(Some("dir".to_string()), Some((FileKind::Dir, 0o755)), true), " -> dir/");
    assert_eq!(get_target(Some("dir".to_string()), Some((FileKind::Dir, 0o755)), false), " -> dir");
    assert_eq!(get_target(Some("gone".to_string()), None, true), " -> gone");
}

#[test]
fn entries_from_facts() {
    let flags = Flags { all: false, long: false, class: true };
    let e = collect_file("run.sh".to_string(), facts(FileKind::File, 0o755), &flags, NOW, 0).unwrap();
    assert_eq!(e.name, "run.sh");
    assert_eq!(e.indicator, Some('*'));
    assert_eq!(e.color, "\x1b[1;32m");
    assert!(e.long.is_none());
    let flags = Flags { all: false, long: true, class: false };
    let e = collect_file("notes".to_string(), facts(FileKind::File, 0o644), &flags, NOW, 0).unwrap();
    assert_eq!(e.indicator, None);
    let li = e.long.unwrap();
    assert_eq!(li.perms, "-rw-r--r--");
    assert_eq!(li.owner, "alice");
    assert_eq!(li.group, "1000");
    assert_eq!(li.size, SizeField::Regular(42));
    assert_eq!(li.blocks, 8);
    assert!(!li.modified.is_empty());
    assert_eq!(li.target, "");
}

#[test]
fn widths_of_long_entries() {
    let ents = vec![
        long("a", 12, "bob", SizeField::Regular(5), 0),
        long("b", 3, "charlotte", SizeField::Regular(12345), 0),
    ];
    let w = get_widths(&ents);
    assert_eq!(w.nlink, 2);
    assert_eq!(w.owner, 9);
    assert_eq!(w.group, 5);
    assert_eq!(w.size, 5);
    assert!(!w.has_acl);
}

#[test]
fn widths_with_devices() {
    let ents = vec![
        long("null", 1, "root", SizeField::Device { major: 1, minor: 3 }, 0),
        long("f", 1, "root", SizeField::Regular(7), 0),
    ];
    let w = get_widths(&ents);
    assert_eq!(w.major, 1);
    assert_eq!(w.minor, 1);
    assert_eq!(w.size, 4);
}

#[test]
fn owner_width_counts_bytes() {
    let ents = vec![long("a", 1, "zoë", SizeField::Regular(1), 0)];
    assert_eq!(get_widths(&ents).owner, 4);
}

#[test]
fn long_lines_are_aligned() {
    let ents = vec![
        long("a", 12, "bob", SizeField::Regular(5), 0),
        long("b", 3, "charlotte", SizeField::Regular(12345), 0),
    ];
    let lines = print_long(&ents);
    assert_eq!(lines[0], "-rw-r--r-- 12 bob       staff     5 Jan  1 12:00 a\x1b[0m");
    assert_eq!(lines[1], "-rw-r--r--  3 charlotte staff 12345 Jan  1 12:00 b\x1b[0m");
}

#[test]
fn display_line_with_acl_device_and_link() {
    let mut dev = long("null", 1, "root", SizeField::Device { major: 1, minor: 3 }, 0);
    if let Some(l) = dev.long.as_mut() {
        l.acl = Some('+');
        l.target = " -> x".to_string();
    }
    dev.indicator = Some('=');
    dev.color = "\x1b[33m";
    let ws = get_widths(std::slice::from_ref(&dev));
    assert_eq!(dev.display_line(&ws), "-rw-r--r--+ 1 root staff 1, 3 Jan  1 12:00 \x1b[33mnull\x1b[0m= -> x");
}

#[test]
fn column_width_counts_indicator() {
    let ents = vec![short("abc", Some('/')), short("de", None)];
    assert_eq!(get_col_width(&ents), 4);
}

#[test]
fn short_layout_runs_down_columns() {
    let ents = vec![short("a", None), short("b", None), short("c", None), short("d", None), short("e", None)];
    // column width 3, terminal 7 wide: 2 columns, 3 rows
    let lines = print_short(&ents, 7);
    assert_eq!(lines, vec!["a\x1b[0m  d\x1b[0m", "b\x1b[0m  e\x1b[0m", "c\x1b[0m  "]);
}

#[test]
fn short_layout_narrow_terminal() {
    let ents = vec![short("alpha", Some('/')), short("b", None)];
    let lines = print_short(&ents, 3);
    assert_eq!(lines, vec!["alpha\x1b[0m/", "b\x1b[0m"]);
}

#[test]
fn short_layout_empty() {
    assert!(print_short(&[], 80).is_empty());
}

#[test]
fn entries_with_total() {
    let flags = Flags { all: false, long: true, class: false };
    let ents = vec![long("a", 1, "u", SizeField::Regular(1), 8), long("b", 1, "u", SizeField::Regular(1), 5)];
    let lines = print_entries(&ents, &flags, true, 80);
    assert_eq!(lines[0], "total 6");
    assert_eq!(lines.len(), 3);
    let lines = print_files(&ents, &flags, 80);
    assert_eq!(lines.len(), 2);
    assert_eq!(print_entries(&[], &flags, true, 80), vec!["total 0"]);
    assert!(print_entries(&[], &flags, false, 80).is_empty());
}

#[test]
fn directory_with_header() {
    let flags = Flags::new();
    let lines = print_dirs("src", &[short("x", None)], &flags, true, 80);
    assert_eq!(lines, vec!["src:", "x\x1b[0m  "]);
    let lines = print_dirs("src", &[short("x", None)], &flags, false, 80);
    assert_eq!(lines, vec!["x\x1b[0m  "]);
}

#[test]
fn sort_keys() {
    assert_eq!(short("My_File-2.txt", None).sort_key(), "myfile2txt");
    assert_eq!(short(".bashrc", None).sort_key(), "bashrc");
    assert_eq!(short("Ärger", None).sort_key(), "ärger");
    assert_eq!(case_tie_key("aB"), vec![('a', 0), ('b', 1)]);
    assert_eq!(case_tie_key("É"), vec![('É', 1)]);
}

#[test]
fn compare_by_key_then_case_then_name() {
    assert_eq!(compare_entries(&short("apple", None), &short("Banana", None)), Order::Less);
    assert_eq!(compare_entries(&short("b", None), &short(".a", None)), Order::Greater);
    assert_eq!(compare_entries(&short("a", None), &short("A", None)), Order::Less);
    assert_eq!(compare_entries(&short("a-b", None), &short("ab", None)), Order::Less);
    assert_eq!(compare_entries(&short("x", None), &short("x", None)), Order::Equal);
}

#[test]
fn sorting_entries() {
    let ents = vec![short("zeta", None), short("Alpha", None), short(".beta", None), short("alpha", None)];
    let sorted = sort_entries(ents);
    let names: Vec<&str> = sorted.iter().map(|e| e.name.as_str()).collect();
    assert_eq!(names, vec!["alpha", "Alpha", ".beta", "zeta"]);
}

#[test]
fn hidden_names() {
    let plain = Flags::new();
    let all = Flags { all: true, long: false, class: false };
    assert!(is_listed("a", &plain));
    assert!(!is_listed(".a", &plain));
    assert!(is_listed(".a", &all));
    assert_eq!(special_names(&all), vec![".", ".."]);
    assert!(special_names(&plain).is_empty());
}

#[test]
fn full_listing() {
    let flags = Flags::new();
    let files = vec![short("b", None), short("a", None)];
    let dirs = vec![
        ("d1".to_string(), vec![short("y", None), short("x", None)]),
        ("d2".to_string(), vec![]),
    ];
    let lines = listing(files, dirs, &flags, 80);
    assert_eq!(lines, vec!["a\x1b[0m  b\x1b[0m  ", "", "d1:", "x\x1b[0m  y\x1b[0m  ", "", "d2:"]);
}

#[test]
fn listing_of_one_directory_has_no_header() {
    let flags = Flags::new();
    let lines = listing(vec![], vec![(".".to_string(), vec![short("f", None)])], &flags, 80);
    assert_eq!(lines, vec!["f\x1b[0m  "]);
}

#[test]
fn listing_of_two_directories() {
    let flags = Flags { all: false, long: true, class: false };
    let lines = listing(vec![], vec![("a".to_string(), vec![]), ("b".to_string(), vec![])], &flags, 80);
    assert_eq!(lines, vec!["a:", "total 0", "", "b:", "total 0"]);
}

#[test]
fn comparison_flips_and_chains() {
    let names = ["a", "A", "_a", "b", "B1", "b1", ".b", "ä"];
    for x in names {
        for y in names {
            let xy = compare_entries(&short(x, None), &short(y, None));
            let yx = compare_entries(&short(y, None), &short(x, None));
            let flipped = match xy {
                Order::Less => Order::Greater,
                Order::Equal => Order::Equal,
                Order::Greater => Order::Less,
            };
            assert_eq!(yx, flipped);
            assert_eq!(xy == Order::Equal, x == y);
            for z in names {
                let yz = compare_entries(&short(y, None), &short(z, None));
                if xy == Order::Less && yz == Order::Less {
                    assert_eq!(compare_entries(&short(x, None), &short(z, None)), Order::Less);
                }
            }
        }
    }
}

#[test]
fn every_entry_is_placed_once() {
    let names: Vec<String> = (0..7).map(|i| format!("n{}", i)).collect();
    let ents: Vec<Entry> = names.iter().map(|n| short(n, None)).collect();
    let lines = print_short(&ents, 12);
    let text = lines.join("|");
    for n in &names {
        assert_eq!(text.matches(&format!("{}\x1b", n)).count(), 1);
    }
}

#[test]
fn modification_time_text() {
    let recent = Timestamp { secs: 1_000_000_000, nanos: 0 };
    let now = Timestamp { secs: 1_000_003_600, nanos: 0 };
    assert_eq!(get_time(now, recent, 0).unwrap(), "Sep  9 01:46");
    assert_eq!(get_time(now, recent, 3600).unwrap(), "Sep  9 02:46");
    assert_eq!(get_time(now, recent, -7200).unwrap(), "Sep  8 23:46");
    let epoch = Timestamp { secs: 0, nanos: 0 };
    assert_eq!(get_time(now, epoch, 0).unwrap(), "Jan  1  1970");
    assert_eq!(get_time(now, epoch, -60).unwrap(), "Dec 31  1969");
    let far = Timestamp { secs: i64::MAX, nanos: 0 };
    assert!(get_time(now, far, 3600).is_none());
}

#[test]
fn long_entries_show_their_time() {
    let flags = Flags { all: false, long: true, class: false };
    let mut f = facts(FileKind::File, 0o644);
    f.modified = Timestamp { secs: NOW.secs - 3600, nanos: 0 };
    let e = collect_file("a".to_string(), f, &flags, NOW, 0).unwrap();
    assert_eq!(e.long.as_ref().unwrap().modified, "Nov 14 21:13");
    let short = Flags { all: false, long: false, class: false };
    let mut g = facts(FileKind::File, 0o644);
    g.modified = Timestamp { secs: i64::MAX, nanos: 0 };
    assert!(collect_file("b".to_string(), g, &short, NOW, 0).is_some());
}

#[test]
fn long_columns_line_up() {
    let mut ents = vec![
        long("a", 1, "bo", SizeField::Regular(5), 0),
        long("bb", 120, "alexandra", SizeField::Device { major: 8, minor: 1 }, 0),
        long("c", 7, "zoë", SizeField::Regular(123456), 0),
    ];
    ents[2].long.as_mut().unwrap().modified = "Feb 29  2020".to_string();
    let lines = print_long(&ents);
    // 10 permission characters, no ACL column, link count 3, owner 9 bytes,
    // group 5, size 6, and a space after each column
    let k = 10 + 3 + 9 + 5 + 6 + 5;
    for (line, e) in lines.iter().zip(ents.iter()) {
        let chars: Vec<char> = line.chars().collect();
        let m = &e.long.as_ref().unwrap().modified;
        let at: String = chars[k..k + m.chars().count()].iter().collect();
        assert_eq!(&at, m, "{}", line);
    }
}
