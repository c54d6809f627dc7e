//! `ls`: flags, the description of each entry, ordering and layout.
use vstd::prelude::*;

use crate::error::ShellError;
use crate::order::{flipped, lemma_lex_equal, lemma_lex_flip, lemma_lex_trans, lex_compare, lex_order, then_order, Order};
use crate::unicode::{
    ascii_lowercase, is_alphanumeric, is_uppercase, to_ascii_lowercase, to_lowercase,
    unicode_alphanumeric, unicode_lowercase, unicode_uppercase,
};
use crate::text::{
    decimal, decimal_width, pad_left, pad_right, push_char, push_chars, push_padded_left,
    push_padded_right, string_of,
};

verus! {

/// The options of `ls`: `-a` (all), `-l` (long), `-F` (classify).
#[derive(Clone, Copy, Debug)]
pub struct Flags {
    pub all: bool,
    pub long: bool,
    pub class: bool,
}

/// What the options leave after one more option character: the flags and,
/// if the character is not an option, that character.
pub open spec fn apply_option(f: Flags, c: char) -> Result<Flags, char> {
    if c == 'a' {
        Ok(Flags { all: true, ..f })
    } else if c == 'l' {
        Ok(Flags { long: true, ..f })
    } else if c == 'F' {
        Ok(Flags { class: true, ..f })
    } else {
        Err(c)
    }
}

/// The flags after the option characters `cs`, stopping at the first
/// character that is no option (reported as the error).
pub open spec fn apply_options(f: Flags, cs: Seq<char>) -> (Flags, Option<char>)
    decreases cs.len(),
{
    if cs.len() == 0 {
        (f, None)
    } else {
        match apply_option(f, cs[0]) {
            Ok(g) => apply_options(g, cs.drop_first()),
            Err(c) => (f, Some(c)),
        }
    }
}

/// Whether an argument of `ls` holds options: it starts with `-`.
pub open spec fn is_option_arg(a: Seq<char>) -> bool {
    a.len() > 0 && a[0] == '-'
}

/// The outcome of reading the arguments `args` of `ls` from flags `f`: the
/// flags, the operands that are no options, and the first character that is
/// no option, if there is one (the scan stops there).
pub open spec fn scan_args(f: Flags, args: Seq<Seq<char>>) -> (Flags, Seq<Seq<char>>, Option<char>)
    decreases args.len(),
{
    if args.len() == 0 {
        (f, Seq::empty(), None)
    } else if is_option_arg(args[0]) {
        let (g, bad) = apply_options(f, args[0].drop_first());
        if bad is Some {
            (g, Seq::empty(), bad)
        } else {
            scan_args(g, args.drop_first())
        }
    } else {
        let (h, ps, bad) = scan_args(f, args.drop_first());
        (h, seq![args[0]] + ps, bad)
    }
}

/// The message for an unknown option character.
pub open spec fn invalid_option_message(c: char) -> Seq<char> {
    "Invalid option: '-"@ + seq![c] + "'"@
}

impl Flags {
    /// No option set.
    pub fn new() -> (f: Self)
        ensures
            !f.all && !f.long && !f.class,
    {
        Flags { all: false, long: false, class: false }
    }

    /// Reads the options among `args` into `self` and returns the other
    /// arguments, in order.  An argument that starts with `-` holds option
    /// characters; the first one that is not `a`, `l` or `F` is an error.
    pub fn parse(&mut self, args: &Vec<String>) -> (r: Result<Vec<String>, ShellError>)
        ensures
            ({
                let (f, paths, bad) = scan_args(*old(self), crate::parser::string_views(args@));
                &&& *final(self) == f
                &&& match bad {
                    None => r matches Ok(v) && crate::parser::string_views(v@) == paths,
                    Some(c) => r matches Err(ShellError::One(e)) && e@ == ("ls"@,
                        invalid_option_message(c)),
                }
            }),
    {
        let ghost views = crate::parser::string_views(args@);
        let ghost outcome = scan_args(*self, views);
        let mut paths: Vec<String> = Vec::new();
        let mut i: usize = 0;
        proof {
            assert(views.skip(0) =~= views);
            assert(crate::parser::string_views(paths@) + outcome.1 =~= outcome.1);
        }
        while i < args.len()
            invariant
                i <= args.len(),
                views == crate::parser::string_views(args@),
                outcome == scan_args(*old(self), views),
                ({
                    let (f, ps, bad) = scan_args(*self, views.skip(i as int));
                    &&& f == outcome.0
                    &&& bad == outcome.2
                    &&& crate::parser::string_views(paths@) + ps == outcome.1
                }),
            decreases args.len() - i,
        {
            let ghost rest = views.skip(i as int);
            proof {
                assert(rest.len() > 0);
                assert(rest[0] == args@[i as int]@);
                assert(rest.drop_first() =~= views.skip(i + 1));
            }
            let arg = crate::text::chars_of(args[i].as_str());
            if arg.len() > 0 && arg[0] == '-' {
                let ghost cs = arg@.drop_first();
                let ghost opts = apply_options(*self, cs);
                let ghost s0 = *self;
                let mut j: usize = 1;
                proof {
                    assert(arg@.skip(1) =~= cs);
                }
                while j < arg.len()
                    invariant
                        1 <= j <= arg.len(),
                        apply_options(*self, arg@.skip(j as int)) == opts,
                        opts == apply_options(s0, cs),
                        cs == arg@.drop_first(),
                        rest == views.skip(i as int),
                        rest.len() > 0,
                        rest[0] == arg@,
                        arg@.len() > 0 && arg@[0] == '-',
                        outcome == scan_args(*old(self), views),
                        views == crate::parser::string_views(args@),
                        scan_args(s0, rest).0 == outcome.0,
                        scan_args(s0, rest).2 == outcome.2,
                    decreases arg.len() - j,
                {
                    let c = arg[j];
                    proof {
                        assert(arg@.skip(j as int)[0] == c);
                        assert(arg@.skip(j as int).drop_first() =~= arg@.skip(j + 1));
                    }
                    if c == 'a' {
                        self.all = true;
                    } else if c == 'l' {
                        self.long = true;
                    } else if c == 'F' {
                        self.class = true;
                    } else {
                        proof {
                            assert(opts == (*self, Some(c)));
                            assert(is_option_arg(rest[0]));
                            assert(rest[0].drop_first() == cs);
                            assert(scan_args(s0, rest) == (opts.0, Seq::<Seq<char>>::empty(), opts.1));
                        }
                        let mut msg = String::new();
                        push_chars(&mut msg, "Invalid option: '-");
                        push_char(&mut msg, c);
                        push_chars(&mut msg, "'");
                        assert(msg@ =~= invalid_option_message(c));
                        assert(outcome.2 == Some(c));
                        return Err(ShellError::one("ls", msg.as_str()));
                    }
                    j += 1;
                }
                proof {
                    assert(arg@.skip(j as int) =~= Seq::<char>::empty());
                }
            } else {
                let ghost before = paths@;
                paths.push(string_of(arg.as_slice()));
                proof {
                    assert(crate::parser::string_views(paths@) =~= crate::parser::string_views(before).push(arg@));
                    let (h, ps, bad) = scan_args(*self, rest.drop_first());
                    assert(crate::parser::string_views(before) + (seq![arg@] + ps)
                        =~= crate::parser::string_views(paths@) + ps);
                }
            }
            i += 1;
        }
        proof {
            assert(views.skip(i as int) =~= Seq::<Seq<char>>::empty());
            assert(crate::parser::string_views(paths@) + Seq::<Seq<char>>::empty()
                =~= crate::parser::string_views(paths@));
        }
        Ok(paths)
    }
}

/// The type of a file system entry, as its own metadata (not following a
/// symbolic link) tells it.
#[derive(Clone, Copy, PartialEq, Eq, Structural, Debug)]
pub enum FileKind {
    Symlink,
    Dir,
    Fifo,
    Socket,
    BlockDevice,
    CharDevice,
    File,
    Other,
}

/// The first character of a long listing line: the entry's type.
pub open spec fn type_char(k: FileKind) -> char {
    match k {
        FileKind::Symlink => 'l',
        FileKind::Dir => 'd',
        FileKind::Fifo => 'p',
        FileKind::Socket => 's',
        FileKind::BlockDevice => 'b',
        FileKind::CharDevice => 'c',
        _ => '-',
    }
}

/// The type character of an entry.
pub fn get_type_char(k: FileKind) -> (c: char)
    ensures
        c == type_char(k),
{
    match k {
        FileKind::Symlink => 'l',
        FileKind::Dir => 'd',
        FileKind::Fifo => 'p',
        FileKind::Socket => 's',
        FileKind::BlockDevice => 'b',
        FileKind::CharDevice => 'c',
        _ => '-',
    }
}

/// Whether the permission bits `m` are set in `mode`.
pub open spec fn has_bits(mode: u32, m: u32) -> bool {
    mode & m != 0
}

/// The character for an execute bit that shares its place with a special bit
/// (set-user-ID, set-group-ID or sticky).
pub open spec fn exec_char(special: bool, exec: bool, both: char, only_special: char) -> char {
    if special && exec {
        both
    } else if special {
        only_special
    } else if exec {
        'x'
    } else {
        '-'
    }
}

/// The permission string of a long listing: the type character, then read,
/// write and execute for owner, group and others, with `s`/`S` for
/// set-user-ID and set-group-ID and `t`/`T` for the sticky bit.
pub open spec fn perms_string(mode: u32, t: char) -> Seq<char> {
    seq![
        t,
        if has_bits(mode, 0o400) { 'r' } else { '-' },
        if has_bits(mode, 0o200) { 'w' } else { '-' },
        exec_char(has_bits(mode, 0o4000), has_bits(mode, 0o100), 's', 'S'),
        if has_bits(mode, 0o040) { 'r' } else { '-' },
        if has_bits(mode, 0o020) { 'w' } else { '-' },
        exec_char(has_bits(mode, 0o2000), has_bits(mode, 0o010), 's', 'S'),
        if has_bits(mode, 0o004) { 'r' } else { '-' },
        if has_bits(mode, 0o002) { 'w' } else { '-' },
        exec_char(has_bits(mode, 0o1000), has_bits(mode, 0o001), 't', 'T'),
    ]
}

fn pick_exec_char(special: bool, exec: bool, both: char, only_special: char) -> (c: char)
    ensures
        c == exec_char(special, exec, both, only_special),
{
    if special && exec {
        both
    } else if special {
        only_special
    } else if exec {
        'x'
    } else {
        '-'
    }
}

/// The permission string for `mode`, led by the type character `type_ch`.
pub fn get_perms(mode: u32, type_ch: char) -> (s: String)
    ensures
        s@ == perms_string(mode, type_ch),
{
    let is_setuid = (mode & 0o4000) != 0;
    let is_setgid = (mode & 0o2000) != 0;
    let is_sticky = (mode & 0o1000) != 0;
    let v: Vec<char> = vec![
        type_ch,
        if (mode & 0o400) != 0 { 'r' } else { '-' },
        if (mode & 0o200) != 0 { 'w' } else { '-' },
        pick_exec_char(is_setuid, (mode & 0o100) != 0, 's', 'S'),
        if (mode & 0o040) != 0 { 'r' } else { '-' },
        if (mode & 0o020) != 0 { 'w' } else { '-' },
        pick_exec_char(is_setgid, (mode & 0o010) != 0, 's', 'S'),
        if (mode & 0o004) != 0 { 'r' } else { '-' },
        if (mode & 0o002) != 0 { 'w' } else { '-' },
        pick_exec_char(is_sticky, (mode & 0o001) != 0, 't', 'T'),
    ];
    assert(v@ =~= perms_string(mode, type_ch));
    string_of(v.as_slice())
}

/// The colour an entry is shown in: links cyan, directories blue, pipes
/// yellow, sockets magenta, other executables green, the rest uncoloured.
pub open spec fn color_code(k: FileKind, mode: u32) -> Seq<char> {
    if k == FileKind::Symlink {
        "\x1b[1;36m"@
    } else if k == FileKind::Dir {
        "\x1b[1;34m"@
    } else if k == FileKind::Fifo {
        "\x1b[33m"@
    } else if k == FileKind::Socket {
        "\x1b[1;35m"@
    } else if has_bits(mode, 0o111) {
        "\x1b[1;32m"@
    } else {
        ""@
    }
}

/// The colour of an entry of kind `k` with mode `mode`.
pub fn get_color(k: FileKind, mode: u32) -> (c: &'static str)
    ensures
        c@ == color_code(k, mode),
{
    if k == FileKind::Symlink {
        "\x1b[1;36m"
    } else if k == FileKind::Dir {
        "\x1b[1;34m"
    } else if k == FileKind::Fifo {
        "\x1b[33m"
    } else if k == FileKind::Socket {
        "\x1b[1;35m"
    } else if (mode & 0o111) != 0 {
        "\x1b[1;32m"
    } else {
        ""
    }
}

/// The character `-F` appends: `/` for directories, `|` for pipes, `=` for
/// sockets, `*` for executable regular files, nothing otherwise.
pub open spec fn indicator_of(k: FileKind, mode: u32) -> Option<char> {
    if k == FileKind::Dir {
        Some('/')
    } else if k == FileKind::Fifo {
        Some('|')
    } else if k == FileKind::Socket {
        Some('=')
    } else if k == FileKind::File && has_bits(mode, 0o111) {
        Some('*')
    } else {
        None
    }
}

/// The `-F` indicator of an entry of kind `k` with mode `mode`.
pub fn get_indicator(k: FileKind, mode: u32) -> (r: Option<char>)
    ensures
        r == indicator_of(k, mode),
{
    if k == FileKind::Dir {
        Some('/')
    } else if k == FileKind::Fifo {
        Some('|')
    } else if k == FileKind::Socket {
        Some('=')
    } else if k == FileKind::File && (mode & 0o111) != 0 {
        Some('*')
    } else {
        None
    }
}

/// The access-control marker: `+` when the entry's POSIX access ACL
/// (`system.posix_acl_access`) could be read and holds more than the 28
/// bytes of a plain mode, nothing otherwise.
pub fn get_acl(acl_len: Option<usize>) -> (r: Option<char>)
    ensures
        r == (match acl_len {
            Some(n) => if n > 28 { Some('+') } else { None },
            None => None,
        }),
{
    match acl_len {
        Some(n) => if n > 28 { Some('+') } else { None },
        None => None,
    }
}

/// The name shown for an owner or group: the name the system gives for the
/// id, or the id in decimal when it has none.
pub fn name_or_id(id: u32, name: Option<String>) -> (r: String)
    ensures
        r@ == match name {
            Some(n) => n@,
            None => crate::text::decimal(id as nat),
        },
{
    match name {
        Some(n) => n,
        None => crate::text::decimal_string(id as u64),
    }
}

/// The owner column for user id `uid`, given the user name the system has for it.
pub fn get_owner(uid: u32, name: Option<String>) -> (r: String)
    ensures
        r@ == match name {
            Some(n) => n@,
            None => crate::text::decimal(uid as nat),
        },
{
    name_or_id(uid, name)
}

/// The group column for group id `gid`, given the group name the system has for it.
pub fn get_group(gid: u32, name: Option<String>) -> (r: String)
    ensures
        r@ == match name {
            Some(n) => n@,
            None => crate::text::decimal(gid as nat),
        },
{
    name_or_id(gid, name)
}

/// The major device number of `rdev` (`libc::major`).  Claimed, as the libc
/// source computes it: bits 8 to 19 and bits 44 to 63 of `rdev`.
#[verifier::external_body]
fn device_major(rdev: u64) -> (m: u32)
    ensures
        m == (((rdev & 0x00000000000fff00u64) >> 8u64) | ((rdev & 0xfffff00000000000u64) >> 32u64)) as u32,
{
    libc::major(rdev)
}

/// The minor device number of `rdev` (`libc::minor`).  Claimed, as the libc
/// source computes it: bits 0 to 7 and bits 20 to 43 of `rdev`.
#[verifier::external_body]
fn device_minor(rdev: u64) -> (m: u32)
    ensures
        m == ((rdev & 0x00000000000000ffu64) | ((rdev & 0x00000ffffff00000u64) >> 12u64)) as u32,
{
    libc::minor(rdev)
}

/// The size column: a byte count, or a device's major and minor numbers.
#[derive(Clone, Copy, PartialEq, Eq, Structural, Debug)]
pub enum SizeField {
    Regular(u64),
    Device { major: u32, minor: u32 },
}

/// The size column of an entry: block and character devices show their
/// device numbers (from `rdev`), everything else its length in bytes.
pub fn get_size(k: FileKind, len: u64, rdev: u64) -> (r: SizeField)
    ensures
        (k == FileKind::BlockDevice || k == FileKind::CharDevice) ==> r == (SizeField::Device {
            major: (((rdev & 0x00000000000fff00u64) >> 8u64) | ((rdev & 0xfffff00000000000u64) >> 32u64)) as u32,
            minor: ((rdev & 0x00000000000000ffu64) | ((rdev & 0x00000ffffff00000u64) >> 12u64)) as u32,
        }),
        !(k == FileKind::BlockDevice || k == FileKind::CharDevice) ==> r == SizeField::Regular(len),
{
    if k == FileKind::BlockDevice || k == FileKind::CharDevice {
        let major = device_major(rdev);
        let minor = device_minor(rdev);
        SizeField::Device { major, minor }
    } else {
        SizeField::Regular(len)
    }
}

/// A point in time: whole seconds since the Unix epoch (negative before it)
/// and the nanoseconds past that second.
#[derive(Clone, Copy, PartialEq, Eq, Structural, Debug)]
pub struct Timestamp {
    pub secs: i64,
    pub nanos: u32,
}

/// A timestamp in nanoseconds since the epoch.
pub open spec fn nanos_of(t: Timestamp) -> int {
    t.secs * 1_000_000_000 + t.nanos
}

/// Six months, as `ls` counts them: 182 days, in seconds.
pub open spec fn six_months_secs() -> int {
    15_724_800
}

/// Whether a modification time is shown with its year instead of its time of
/// day: when it lies in the future, or more than six months (whole seconds
/// counted) in the past.
pub open spec fn old_or_future(now: Timestamp, modified: Timestamp) -> bool {
    if nanos_of(now) >= nanos_of(modified) {
        (nanos_of(now) - nanos_of(modified)) / 1_000_000_000 > six_months_secs()
    } else {
        true
    }
}

/// Whether the modification time `modified` is old or in the future, seen at `now`.
pub fn is_old_or_future(now: Timestamp, modified: Timestamp) -> (r: bool)
    requires
        now.nanos < 1_000_000_000,
        modified.nanos < 1_000_000_000,
    ensures
        r == old_or_future(now, modified),
{
    let n: i128 = now.secs as i128 * 1_000_000_000 + now.nanos as i128;
    let m: i128 = modified.secs as i128 * 1_000_000_000 + modified.nanos as i128;
    if n >= m {
        (n - m) / 1_000_000_000 > 15_724_800
    } else {
        true
    }
}

/// The `chrono` format of a date shown with its year.
pub open spec fn year_pattern() -> Seq<char> {
    "%b %e  %Y"@
}

/// The `chrono` format of a date shown with its time of day.
pub open spec fn clock_pattern() -> Seq<char> {
    "%b %e %H:%M"@
}

/// The seconds from the epoch that `chrono` can turn into a date and time
/// (well inside its range of dates, 262144 BCE to 262142 CE).
pub open spec fn representable_secs(secs: int) -> bool {
    -8_000_000_000_000 <= secs <= 8_000_000_000_000
}

/// The text `chrono` writes for the date and time `secs` seconds and `nanos`
/// nanoseconds after midnight, January 1, 1970, read on a clock without time
/// zone, in the format `pattern` (`None` when it cannot represent that time).
pub uninterp spec fn chrono_naive_text(secs: i64, nanos: u32, pattern: Seq<char>) -> Option<Seq<char>>;

/// Formats a date and time given as seconds and nanoseconds since the epoch,
/// read without time zone (`chrono::DateTime::from_timestamp`, then
/// `naive_utc`, `format` and `to_string`).  Claimed: the result is
/// `chrono_naive_text` of the arguments, and there is one whenever
/// `from_timestamp` can represent the time.  Only the two patterns of `ls` are
/// admitted: chrono panics on a pattern it cannot format.
#[verifier::external_body]
fn naive_text(secs: i64, nanos: u32, pattern: &str) -> (r: Option<String>)
    requires
        pattern@ == year_pattern() || pattern@ == clock_pattern(),
    ensures
        opt_view(r) == chrono_naive_text(secs, nanos, pattern@),
        (nanos < 1_000_000_000 && representable_secs(secs as int)) ==> r is Some,
{
    match chrono::DateTime::from_timestamp(secs, nanos) {
        Some(t) => Some(t.naive_utc().format(pattern).to_string()),
        None => None,
    }
}

/// The `chrono` format for a modification time seen at `now`.
pub fn time_pattern(now: Timestamp, modified: Timestamp) -> (p: &'static str)
    requires
        now.nanos < 1_000_000_000,
        modified.nanos < 1_000_000_000,
    ensures
        p@ == if old_or_future(now, modified) { year_pattern() } else { clock_pattern() },
{
    if is_old_or_future(now, modified) {
        "%b %e  %Y"
    } else {
        "%b %e %H:%M"
    }
}

/// The format of the modification time `modified` seen at `now`.
pub open spec fn pattern_of(now: Timestamp, modified: Timestamp) -> Seq<char> {
    if old_or_future(now, modified) { year_pattern() } else { clock_pattern() }
}

/// The text of the modification-time column: `modified` moved by `offset`
/// seconds (the local time zone's offset east of UTC at that instant) and
/// formatted by chrono in the format for `now`; `None` when the moved time
/// leaves the range of `i64` seconds or chrono cannot represent it.
pub open spec fn time_text(now: Timestamp, modified: Timestamp, offset: int) -> Option<Seq<char>> {
    let local = modified.secs + offset;
    if i64::MIN <= local <= i64::MAX {
        chrono_naive_text(local as i64, modified.nanos, pattern_of(now, modified))
    } else {
        None
    }
}

/// Whether a modification time can always be shown: it lies well inside
/// chrono's range of dates even after moving it to any time zone.
pub open spec fn showable(modified: Timestamp) -> bool {
    -7_999_999_900_000 <= modified.secs <= 7_999_999_900_000
}

/// The modification-time column: `modified` on the local clock, whose
/// offset from UTC at that instant is `offset` seconds, formatted with
/// `time_pattern(now, modified)`.  There is a text whenever the time is
/// `showable`.
pub fn get_time(now: Timestamp, modified: Timestamp, offset: i32) -> (r: Option<String>)
    requires
        now.nanos < 1_000_000_000,
        modified.nanos < 1_000_000_000,
        -86_400 < offset < 86_400,
    ensures
        opt_view(r) == time_text(now, modified, offset as int),
        showable(modified) ==> r is Some,
{
    let pattern = time_pattern(now, modified);
    let local = match modified.secs.checked_add(offset as i64) {
        Some(l) => l,
        None => return None,
    };
    naive_text(local, modified.nanos, pattern)
}

/// The target part of a symbolic link's long line: ` -> ` and the link's
/// text, followed under `-F` by the indicator of what it points to.
pub open spec fn target_text(link: Option<Seq<char>>, resolved: Option<(FileKind, u32)>, classify: bool) -> Seq<char> {
    match link {
        None => Seq::empty(),
        Some(l) => " -> "@ + l + if classify {
            match resolved {
                Some((k, m)) => opt_char(indicator_of(k, m)),
                None => Seq::empty(),
            }
        } else {
            Seq::empty()
        },
    }
}

/// An optional character as a string of at most one character.
pub open spec fn opt_char(c: Option<char>) -> Seq<char> {
    match c {
        Some(ch) => seq![ch],
        None => Seq::empty(),
    }
}

fn push_opt_char(s: &mut String, c: Option<char>)
    ensures
        final(s)@ == old(s)@ + opt_char(c),
{
    match c {
        Some(ch) => push_char(s, ch),
        None => {
            assert(old(s)@ + opt_char(c) =~= old(s)@);
        },
    }
}

/// The target part of a symbolic link's long line.  `link` is the link's
/// text (absent when it could not be read); `resolved` is the type and mode
/// of what it points to (absent when that could not be read).
pub fn get_target(link: Option<String>, resolved: Option<(FileKind, u32)>, classify: bool) -> (r: String)
    ensures
        r@ == target_text(
            match link {
                Some(l) => Some(l@),
                None => None,
            },
            resolved,
            classify,
        ),
{
    match link {
        None => String::new(),
        Some(l) => {
            let mut s = String::new();
            push_chars(&mut s, " -> ");
            push_chars(&mut s, l.as_str());
            if classify {
                match resolved {
                    Some((k, m)) => push_opt_char(&mut s, get_indicator(k, m)),
                    None => {},
                }
            }
            assert(s@ =~= target_text(Some(l@), resolved, classify));
            s
        },
    }
}

/// What the file system says of one entry, gathered by the caller.
pub struct FileFacts {
    /// The entry's own type (a symbolic link is not followed).
    pub kind: FileKind,
    /// The mode bits.
    pub mode: u32,
    /// Allocated 512-byte blocks.
    pub blocks: u64,
    /// Number of hard links.
    pub nlink: u64,
    pub uid: u32,
    pub gid: u32,
    /// The user name for `uid`, if the system has one.
    pub owner_name: Option<String>,
    /// The group name for `gid`, if the system has one.
    pub group_name: Option<String>,
    /// Length in bytes.
    pub len: u64,
    /// Device number, for device files.
    pub rdev: u64,
    /// Last modification.
    pub modified: Timestamp,
    /// Length of the `system.posix_acl_access` attribute, when it could be read.
    pub acl_len: Option<usize>,
    /// For a symbolic link: its text, when it could be read.
    pub link: Option<String>,
    /// For a symbolic link: the type and mode of what it points to, when that
    /// could be read.
    pub link_target: Option<(FileKind, u32)>,
}

/// The columns of a long listing line.
pub struct LongInfo {
    pub blocks: u64,
    pub perms: String,
    pub acl: Option<char>,
    pub nlink: u64,
    pub owner: String,
    pub group: String,
    pub size: SizeField,
    pub modified: String,
    pub target: String,
}

pub open spec fn opt_view(s: Option<String>) -> Option<Seq<char>> {
    match s {
        Some(x) => Some(x@),
        None => None,
    }
}

/// What the long columns hold for an entry with facts `f` (all but the
/// modification time, whose text depends on the time zone).
pub open spec fn long_info_of(li: LongInfo, f: FileFacts, class: bool) -> bool {
    &&& li.blocks == f.blocks
    &&& li.perms@ == perms_string(f.mode, type_char(f.kind))
    &&& li.acl == (match f.acl_len {
        Some(n) => if n > 28 { Some('+') } else { None },
        None => None,
    })
    &&& li.nlink == f.nlink
    &&& li.owner@ == (match f.owner_name {
        Some(n) => n@,
        None => crate::text::decimal(f.uid as nat),
    })
    &&& li.group@ == (match f.group_name {
        Some(n) => n@,
        None => crate::text::decimal(f.gid as nat),
    })
    &&& li.size == (if f.kind == FileKind::BlockDevice || f.kind == FileKind::CharDevice {
        SizeField::Device {
            major: (((f.rdev & 0x00000000000fff00u64) >> 8u64) | ((f.rdev & 0xfffff00000000000u64) >> 32u64)) as u32,
            minor: ((f.rdev & 0x00000000000000ffu64) | ((f.rdev & 0x00000ffffff00000u64) >> 12u64)) as u32,
        }
    } else {
        SizeField::Regular(f.len)
    })
    &&& li.target@ == (if f.kind == FileKind::Symlink {
        target_text(opt_view(f.link), f.link_target, class)
    } else {
        Seq::empty()
    })
}

impl LongInfo {
    /// The long columns of an entry with facts `f`; `None` when its
    /// modification time cannot be shown.
    pub fn new(f: FileFacts, class: bool, now: Timestamp, offset: i32) -> (r: Option<Self>)
        requires
            now.nanos < 1_000_000_000,
            f.modified.nanos < 1_000_000_000,
            -86_400 < offset < 86_400,
        ensures
            r is Some <==> time_text(now, f.modified, offset as int) is Some,
            r matches Some(li) ==> long_info_of(li, f, class) && Some(li.modified@) == time_text(
                now,
                f.modified,
                offset as int,
            ),
            showable(f.modified) ==> r is Some,
    {
        let modified = match get_time(now, f.modified, offset) {
            Some(t) => t,
            None => return None,
        };
        let target = if f.kind == FileKind::Symlink {
            get_target(f.link, f.link_target, class)
        } else {
            String::new()
        };
        Some(LongInfo {
            blocks: f.blocks,
            perms: get_perms(f.mode, get_type_char(f.kind)),
            acl: get_acl(f.acl_len),
            nlink: f.nlink,
            owner: get_owner(f.uid, f.owner_name),
            group: get_group(f.gid, f.group_name),
            size: get_size(f.kind, f.len, f.rdev),
            modified,
            target,
        })
    }
}

/// One entry of a listing.
pub struct Entry {
    pub name: String,
    /// The `-F` indicator, when `-F` is given.
    pub indicator: Option<char>,
    /// The colour escape the name is shown in.
    pub color: &'static str,
    /// The long columns, when `-l` is given.
    pub long: Option<LongInfo>,
}

impl Entry {
    /// The entry named `name` with facts `f`, described as `flags` ask;
    /// `None` when `-l` is given and its modification time cannot be shown.
    pub fn new(name: String, f: FileFacts, flags: &Flags, now: Timestamp, offset: i32) -> (r: Option<Self>)
        requires
            now.nanos < 1_000_000_000,
            f.modified.nanos < 1_000_000_000,
            -86_400 < offset < 86_400,
        ensures
            r is None <==> (flags.long && time_text(now, f.modified, offset as int) is None),
            (!flags.long || showable(f.modified)) ==> r is Some,
            r matches Some(e) ==> {
                &&& e.name@ == name@
                &&& e.indicator == (if flags.class { indicator_of(f.kind, f.mode) } else { None })
                &&& e.color@ == color_code(f.kind, f.mode)
                &&& (e.long is Some <==> flags.long)
                &&& (e.long matches Some(li) ==> long_info_of(li, f, flags.class) && Some(li.modified@)
                    == time_text(now, f.modified, offset as int))
            },
    {
        let indicator = if flags.class { get_indicator(f.kind, f.mode) } else { None };
        let color = get_color(f.kind, f.mode);
        let long = if flags.long {
            match LongInfo::new(f, flags.class, now, offset) {
                Some(li) => Some(li),
                None => return None,
            }
        } else {
            None
        };
        Some(Entry { name, indicator, color, long })
    }
}

/// The byte length of a string in UTF-8 (what `str::len` gives).
pub open spec fn byte_len(s: Seq<char>) -> usize {
    vstd::utf8::encode_utf8(s).len() as usize
}

pub open spec fn max_usize(a: usize, b: usize) -> usize {
    if a >= b { a } else { b }
}

/// The column widths of a long listing.
#[derive(Clone, Copy, PartialEq, Eq, Structural, Debug)]
pub struct Widths {
    pub nlink: usize,
    pub owner: usize,
    pub group: usize,
    pub size: usize,
    pub major: usize,
    pub minor: usize,
    /// Whether any entry has an ACL marker (then every line reserves its column).
    pub has_acl: bool,
}

pub open spec fn zero_widths() -> Widths {
    Widths { nlink: 0, owner: 0, group: 0, size: 0, major: 0, minor: 0, has_acl: false }
}

/// The widths needed by `ents`, before device numbers are fitted into the
/// size column, and whether any entry is a device.
pub open spec fn widths_scan(ents: Seq<Entry>) -> (Widths, bool)
    decreases ents.len(),
{
    if ents.len() == 0 {
        (zero_widths(), false)
    } else {
        let (w, dev) = widths_scan(ents.drop_last());
        match ents.last().long {
            None => (w, dev),
            Some(li) => {
                let w1 = Widths {
                    nlink: max_usize(w.nlink, decimal(li.nlink as nat).len() as usize),
                    owner: max_usize(w.owner, byte_len(li.owner@)),
                    group: max_usize(w.group, byte_len(li.group@)),
                    has_acl: w.has_acl || li.acl is Some,
                    ..w
                };
                match li.size {
                    SizeField::Regular(sz) => (
                        Widths { size: max_usize(w1.size, decimal(sz as nat).len() as usize), ..w1 },
                        dev,
                    ),
                    SizeField::Device { major, minor } => (
                        Widths {
                            major: max_usize(w1.major, decimal(major as nat).len() as usize),
                            minor: max_usize(w1.minor, decimal(minor as nat).len() as usize),
                            ..w1
                        },
                        true,
                    ),
                }
            },
        }
    }
}

/// The column widths of a long listing of `ents`: each column as wide as its
/// widest value (owner and group counted in bytes); when devices are listed,
/// the size column is also wide enough for `major, minor`.
pub open spec fn widths_of(ents: Seq<Entry>) -> Widths {
    let (w, dev) = widths_scan(ents);
    if dev {
        Widths { size: max_usize(w.size, (w.major + 2 + w.minor) as usize), ..w }
    } else {
        w
    }
}

proof fn lemma_widths_scan_small(ents: Seq<Entry>)
    ensures
        widths_scan(ents).0.major <= 10,
        widths_scan(ents).0.minor <= 10,
    decreases ents.len(),
{
    if ents.len() > 0 {
        lemma_widths_scan_small(ents.drop_last());
        match ents.last().long {
            Some(li) => match li.size {
                SizeField::Device { major, minor } => {
                    crate::text::lemma_decimal_len_u64(major as u64);
                    crate::text::lemma_decimal_len_u64(minor as u64);
                },
                _ => {},
            },
            None => {},
        }
    }
}

/// The column widths for a long listing of `ents`.
pub fn get_widths(ents: &[Entry]) -> (w: Widths)
    ensures
        w == widths_of(ents@),
{
    let mut w = Widths { nlink: 0, owner: 0, group: 0, size: 0, major: 0, minor: 0, has_acl: false };
    let mut has_device = false;
    let mut i: usize = 0;
    while i < ents.len()
        invariant
            i <= ents.len(),
            (w, has_device) == widths_scan(ents@.take(i as int)),
        decreases ents.len() - i,
    {
        proof {
            assert(ents@.take(i + 1).drop_last() =~= ents@.take(i as int));
            lemma_widths_scan_small(ents@.take(i as int));
        }
        match &ents[i].long {
            None => {},
            Some(long) => {
                let nw = decimal_width(long.nlink);
                w.nlink = if w.nlink >= nw { w.nlink } else { nw };
                let ow = long.owner.as_str().len();
                w.owner = if w.owner >= ow { w.owner } else { ow };
                let gw = long.group.as_str().len();
                w.group = if w.group >= gw { w.group } else { gw };
                if long.acl.is_some() {
                    w.has_acl = true;
                }
                match long.size {
                    SizeField::Regular(sz) => {
                        let sw = decimal_width(sz);
                        w.size = if w.size >= sw { w.size } else { sw };
                    },
                    SizeField::Device { major, minor } => {
                        has_device = true;
                        let jw = decimal_width(major as u64);
                        let nw2 = decimal_width(minor as u64);
                        w.major = if w.major >= jw { w.major } else { jw };
                        w.minor = if w.minor >= nw2 { w.minor } else { nw2 };
                    },
                }
            },
        }
        i += 1;
    }
    proof {
        assert(ents@.take(ents.len() as int) =~= ents@);
        lemma_widths_scan_small(ents@);
    }
    if has_device {
        let dev_column_width = w.major + 2 + w.minor;
        w.size = if w.size >= dev_column_width { w.size } else { dev_column_width };
    }
    w
}

/// The escape that ends a coloured name.
pub open spec fn reset_code() -> Seq<char> {
    "\x1b[0m"@
}

/// The size column of a long line, padded to the widths `ws`.
pub open spec fn size_text(size: SizeField, ws: Widths) -> Seq<char> {
    match size {
        SizeField::Regular(sz) => pad_left(decimal(sz as nat), ws.size as nat),
        SizeField::Device { major, minor } => pad_left(
            pad_left(decimal(major as nat), ws.major as nat) + ", "@ + pad_left(
                decimal(minor as nat),
                ws.minor as nat,
            ),
            ws.size as nat,
        ),
    }
}

/// The long listing line of an entry with long columns `li`, laid out with
/// the widths `ws`: permissions, the ACL column (only when some entry has an
/// ACL), link count, owner, group, size, time, then the coloured name, the
/// indicator and a link's target.
pub open spec fn long_line(e: Entry, li: LongInfo, ws: Widths) -> Seq<char> {
    li.perms@ + (if ws.has_acl {
        seq![
            match li.acl {
                Some(c) => c,
                None => ' ',
            },
        ]
    } else {
        Seq::empty()
    }) + " "@ + pad_left(decimal(li.nlink as nat), ws.nlink as nat) + " "@ + pad_right(
        li.owner@,
        ws.owner as nat,
    ) + " "@ + pad_right(li.group@, ws.group as nat) + " "@ + size_text(li.size, ws) + " "@
        + li.modified@ + " "@ + e.color@ + e.name@ + reset_code() + opt_char(e.indicator)
        + li.target@
}

impl Entry {
    /// The entry's long listing line, laid out with the widths `ws`.
    pub fn display_line(&self, ws: &Widths) -> (s: String)
        requires
            self.long is Some,
        ensures
            s@ == long_line(*self, self.long->0, *ws),
    {
        let long = match &self.long {
            Some(l) => l,
            None => {
                return String::new();
            },
        };
        let mut s = String::new();
        push_chars(&mut s, long.perms.as_str());
        if ws.has_acl {
            push_char(&mut s, match long.acl {
                Some(c) => c,
                None => ' ',
            });
        }
        push_chars(&mut s, " ");
        let nl = crate::text::decimal_string(long.nlink);
        push_padded_left(&mut s, nl.as_str(), ws.nlink);
        push_chars(&mut s, " ");
        push_padded_right(&mut s, long.owner.as_str(), ws.owner);
        push_chars(&mut s, " ");
        push_padded_right(&mut s, long.group.as_str(), ws.group);
        push_chars(&mut s, " ");
        match long.size {
            SizeField::Regular(sz) => {
                let t = crate::text::decimal_string(sz);
                push_padded_left(&mut s, t.as_str(), ws.size);
            },
            SizeField::Device { major, minor } => {
                let mut dev = String::new();
                let mj = crate::text::decimal_string(major as u64);
                let mn = crate::text::decimal_string(minor as u64);
                push_padded_left(&mut dev, mj.as_str(), ws.major);
                push_chars(&mut dev, ", ");
                push_padded_left(&mut dev, mn.as_str(), ws.minor);
                assert(dev@ =~= pad_left(decimal(major as nat), ws.major as nat) + ", "@ + pad_left(
                    decimal(minor as nat),
                    ws.minor as nat,
                ));
                push_padded_left(&mut s, dev.as_str(), ws.size);
            },
        }
        push_chars(&mut s, " ");
        push_chars(&mut s, long.modified.as_str());
        push_chars(&mut s, " ");
        push_chars(&mut s, self.color);
        push_chars(&mut s, self.name.as_str());
        push_chars(&mut s, "\x1b[0m");
        push_opt_char(&mut s, self.indicator);
        push_chars(&mut s, long.target.as_str());
        assert(s@ =~= long_line(*self, self.long->0, *ws));
        s
    }
}

/// The width a name takes in the short listing: its bytes, and one more for
/// an indicator.
pub open spec fn display_width(e: Entry) -> nat {
    byte_len(e.name@) as nat + if e.indicator is Some { 1nat } else { 0nat }
}

/// Whether every name of `ents` is short enough for column arithmetic in
/// `usize` (always so for names held in memory).
pub open spec fn names_fit(ents: Seq<Entry>) -> bool {
    forall|i: int| 0 <= i < ents.len() ==> (byte_len((#[trigger] ents[i]).name@) as int) < usize::MAX - 3
}

/// The widest display width among `ents` (0 for none).
pub open spec fn col_width_of(ents: Seq<Entry>) -> nat
    decreases ents.len(),
{
    if ents.len() == 0 {
        0
    } else {
        let m = col_width_of(ents.drop_last());
        let d = display_width(ents.last());
        if m >= d { m } else { d }
    }
}

proof fn lemma_col_width_bound(ents: Seq<Entry>)
    requires
        names_fit(ents),
    ensures
        col_width_of(ents) < usize::MAX - 2,
        forall|i: int| 0 <= i < ents.len() ==> display_width(#[trigger] ents[i]) <= col_width_of(ents),
    decreases ents.len(),
{
    if ents.len() > 0 {
        assert(names_fit(ents.drop_last())) by {
            assert forall|i: int| 0 <= i < ents.drop_last().len() implies (byte_len(
                (#[trigger] ents.drop_last()[i]).name@,
            ) as int) < usize::MAX - 3 by {
                assert(ents.drop_last()[i] == ents[i]);
            };
        };
        lemma_col_width_bound(ents.drop_last());
        assert(byte_len(ents[ents.len() - 1].name@) < usize::MAX - 3);
        assert forall|i: int| 0 <= i < ents.len() implies display_width(#[trigger] ents[i]) <= col_width_of(ents) by {
            if i < ents.len() - 1 {
                assert(ents[i] == ents.drop_last()[i]);
            }
        };
    }
}

/// The widest display width among the entries.
pub fn get_col_width(ents: &[Entry]) -> (w: usize)
    requires
        names_fit(ents@),
    ensures
        w == col_width_of(ents@),
{
    let mut max: usize = 0;
    let mut i: usize = 0;
    while i < ents.len()
        invariant
            i <= ents.len(),
            names_fit(ents@),
            max == col_width_of(ents@.take(i as int)),
        decreases ents.len() - i,
    {
        proof {
            assert(ents@.take(i + 1).drop_last() =~= ents@.take(i as int));
            assert(ents@.take(i + 1).last() == ents@[i as int]);
            assert(byte_len(ents@[i as int].name@) < usize::MAX - 3);
        }
        let w = ents[i].name.as_str().len() + (if ents[i].indicator.is_some() { 1usize } else { 0usize });
        max = if w >= max { w } else { max };
        i += 1;
    }
    proof {
        assert(ents@.take(ents.len() as int) =~= ents@);
    }
    max
}

/// One cell of the short listing: the coloured name and its indicator, then
/// padding to the column width unless it is in the last column.
pub open spec fn short_cell(e: Entry, col_w: nat, last_col: bool) -> Seq<char> {
    e.color@ + e.name@ + reset_code() + opt_char(e.indicator) + if last_col {
        Seq::empty()
    } else {
        crate::text::spaces((col_w - display_width(e)) as nat)
    }
}

/// The cells of row `row` in the first `upto` columns; entries run down the
/// columns, so row `row` of column `col` holds entry `row + col * rows`.
pub open spec fn short_row(ents: Seq<Entry>, row: nat, cols: nat, rows: nat, col_w: nat, upto: nat) -> Seq<char>
    decreases upto,
{
    if upto == 0 {
        Seq::empty()
    } else {
        let col = (upto - 1) as nat;
        let i = row + col * rows;
        short_row(ents, row, cols, rows, col_w, col) + if i < ents.len() {
            short_cell(ents[i as int], col_w, col == cols - 1)
        } else {
            Seq::empty()
        }
    }
}

/// The number of columns of a short listing: as many columns of width
/// `col_w` as fit in `width`, at least one.
pub open spec fn short_cols(width: nat, col_w: nat) -> nat {
    if width / col_w >= 1 { width / col_w } else { 1 }
}

/// The number of rows: the entries divided by the columns, rounded up.
pub open spec fn short_rows(n: nat, cols: nat) -> nat {
    if n % cols == 0 { n / cols } else { n / cols + 1 }
}

/// The lines of a short listing of `ents` on a terminal `width` columns wide.
pub open spec fn short_layout(ents: Seq<Entry>, width: nat) -> Seq<Seq<char>> {
    if ents.len() == 0 {
        Seq::empty()
    } else {
        let col_w = col_width_of(ents) + 2;
        let cols = short_cols(width, col_w);
        let rows = short_rows(ents.len(), cols);
        Seq::new(rows, |r: int| short_row(ents, r as nat, cols, rows, col_w, cols))
    }
}

/// Every entry has its place in the short listing: entry `i` stands in row
/// `i % rows` and column `i / rows`, both within the grid.
pub proof fn law_short_layout_places_every_entry(n: nat, width: nat, col_w: nat, i: nat)
    requires
        col_w > 0,
        i < n,
    ensures
        ({
            let cols = short_cols(width, col_w);
            let rows = short_rows(n, cols);
            &&& rows > 0
            &&& i % rows < rows
            &&& i / rows < cols
            &&& i % rows + (i / rows) * rows == i
        }),
{
    let cols = short_cols(width, col_w);
    let rows = short_rows(n, cols);
    assert(cols >= 1);
    assert(rows * cols >= n) by (nonlinear_arith)
        requires
            cols >= 1,
            rows == (if n % cols == 0 { n / cols } else { n / cols + 1 }),
    ;
    assert(rows > 0) by (nonlinear_arith)
        requires
            rows * cols >= n,
            n > 0,
    ;
    assert(i / rows < cols) by (nonlinear_arith)
        requires
            rows > 0,
            i < n,
            rows * cols >= n,
    ;
    assert(i % rows + (i / rows) * rows == i) by (nonlinear_arith)
        requires
            rows > 0,
    ;
}

/// The short listing of `ents`, line by line, on a terminal `width` columns wide.
pub fn print_short(ents: &[Entry], width: usize) -> (lines: Vec<String>)
    requires
        names_fit(ents@),
    ensures
        crate::parser::string_views(lines@) == short_layout(ents@, width as nat),
{
    let mut lines: Vec<String> = Vec::new();
    if ents.len() == 0 {
        assert(crate::parser::string_views(lines@) =~= short_layout(ents@, width as nat));
        return lines;
    }
    proof {
        lemma_col_width_bound(ents@);
    }
    let col_w = get_col_width(ents) + 2;
    let cols = if width / col_w >= 1 { width / col_w } else { 1 };
    let rows = if ents.len() % cols == 0 {
        ents.len() / cols
    } else {
        assert(cols >= 2);
        assert(ents.len() / cols < ents.len()) by (nonlinear_arith)
            requires
                cols >= 2,
                ents.len() > 0,
        ;
        ents.len() / cols + 1
    };
    let ghost n = ents@.len();
    let mut row: usize = 0;
    while row < rows
        invariant
            row <= rows,
            ents@.len() == n,
            n > 0,
            names_fit(ents@),
            col_w == col_width_of(ents@) + 2,
            cols == short_cols(width as nat, col_w as nat),
            rows == short_rows(n, cols as nat),
            cols >= 1,
            forall|i: int| 0 <= i < ents.len() ==> display_width(#[trigger] ents@[i]) <= col_width_of(ents@),
            crate::parser::string_views(lines@) =~= Seq::new(
                row as nat,
                |r: int| short_row(ents@, r as nat, cols as nat, rows as nat, col_w as nat, cols as nat),
            ),
        decreases rows - row,
    {
        let mut line = String::new();
        let mut col: usize = 0;
        while col < cols
            invariant
                col <= cols,
                row < rows,
                ents@.len() == n,
                cols >= 1,
                col_w == col_width_of(ents@) + 2,
                forall|i: int| 0 <= i < ents.len() ==> display_width(#[trigger] ents@[i]) <= col_width_of(ents@),
                names_fit(ents@),
                line@ == short_row(ents@, row as nat, cols as nat, rows as nat, col_w as nat, col as nat),
            decreases cols - col,
        {
            let ghost before = line@;
            let i_opt = match col.checked_mul(rows) {
                Some(p) => row.checked_add(p),
                None => {
                    assert(row + col * rows >= n) by (nonlinear_arith)
                        requires
                            col * rows > usize::MAX,
                            n <= usize::MAX,
                    ;
                    None
                },
            };
            match i_opt {
                Some(i) => {
                    if i < ents.len() {
                        let e = &ents[i];
                        push_chars(&mut line, e.color);
                        push_chars(&mut line, e.name.as_str());
                        push_chars(&mut line, "\x1b[0m");
                        push_opt_char(&mut line, e.indicator);
                        if col != cols - 1 {
                            proof {
                                assert(display_width(ents@[i as int]) <= col_width_of(ents@));
                                assert(byte_len(ents@[i as int].name@) < usize::MAX - 3);
                            }
                            let display_len = e.name.as_str().len() + (if e.indicator.is_some() { 1usize } else { 0usize });
                            crate::text::push_spaces(&mut line, col_w - display_len);
                        }
                        assert(line@ =~= before + short_cell(ents@[i as int], col_w as nat, col == cols - 1));
                    } else {
                        assert(line@ =~= before + Seq::<char>::empty());
                    }
                },
                None => {
                    assert(line@ =~= before + Seq::<char>::empty());
                },
            }
            proof {
                let idx = row as nat + (col as nat) * (rows as nat);
                let cell = if idx < ents@.len() {
                    short_cell(ents@[idx as int], col_w as nat, col as nat == (cols - 1) as nat)
                } else {
                    Seq::<char>::empty()
                };
                assert(short_row(ents@, row as nat, cols as nat, rows as nat, col_w as nat, (col + 1) as nat)
                    == short_row(ents@, row as nat, cols as nat, rows as nat, col_w as nat, col as nat) + cell);
                assert(line@ == before + cell);
            }
            col += 1;
        }
        let ghost prev = lines@;
        lines.push(line);
        proof {
            assert(crate::parser::string_views(lines@) =~= crate::parser::string_views(prev).push(line@));
        }
        row += 1;
    }
    lines
}

/// Whether every entry of `ents` has its long columns.
pub open spec fn all_long(ents: Seq<Entry>) -> bool {
    forall|i: int| 0 <= i < ents.len() ==> (#[trigger] ents[i]).long is Some
}

/// The long listing lines of `ents`, laid out with their common widths.
pub open spec fn long_layout(ents: Seq<Entry>) -> Seq<Seq<char>> {
    Seq::new(ents.len(), |i: int| long_line(ents[i], ents[i].long->0, widths_of(ents)))
}

/// The long listing of `ents`, line by line.
pub fn print_long(ents: &[Entry]) -> (lines: Vec<String>)
    requires
        all_long(ents@),
    ensures
        crate::parser::string_views(lines@) == long_layout(ents@),
{
    let widths = get_widths(ents);
    let mut lines: Vec<String> = Vec::new();
    let mut i: usize = 0;
    while i < ents.len()
        invariant
            i <= ents.len(),
            all_long(ents@),
            widths == widths_of(ents@),
            crate::parser::string_views(lines@) =~= long_layout(ents@).take(i as int),
        decreases ents.len() - i,
    {
        let ghost prev = lines@;
        lines.push(ents[i].display_line(&widths));
        proof {
            assert(crate::parser::string_views(lines@) =~= crate::parser::string_views(prev).push(lines@[i as int]@));
            assert(long_layout(ents@).take(i + 1) =~= long_layout(ents@).take(i as int).push(long_layout(ents@)[i as int]));
        }
        i += 1;
    }
    proof {
        assert(long_layout(ents@).take(ents.len() as int) =~= long_layout(ents@));
    }
    lines
}

/// A UTF-8 encoding has at least one byte per character.
proof fn lemma_encode_len(s: Seq<char>)
    ensures
        vstd::utf8::encode_utf8(s).len() >= s.len(),
    decreases s.len(),
{
    if s.len() > 0 {
        lemma_encode_len(s.drop_first());
    }
}

/// The widths found by `widths_scan` are at least those of each entry.
proof fn lemma_widths_bounds(ents: Seq<Entry>, k: int)
    requires
        0 <= k < ents.len(),
        ents[k].long is Some,
    ensures
        ({
            let li = ents[k].long->0;
            let (w, dev) = widths_scan(ents);
            &&& decimal(li.nlink as nat).len() <= w.nlink
            &&& byte_len(li.owner@) <= w.owner
            &&& byte_len(li.group@) <= w.group
            &&& match li.size {
                SizeField::Regular(sz) => decimal(sz as nat).len() <= w.size,
                SizeField::Device { major, minor } => decimal(major as nat).len() <= w.major
                    && decimal(minor as nat).len() <= w.minor && dev,
            }
        }),
    decreases ents.len(),
{
    let li = ents[k].long->0;
    let d = ents.drop_last();
    crate::text::lemma_decimal_len_u64(li.nlink);
    match li.size {
        SizeField::Regular(sz) => {
            crate::text::lemma_decimal_len_u64(sz);
        },
        SizeField::Device { major, minor } => {
            crate::text::lemma_decimal_len_u64(major as u64);
            crate::text::lemma_decimal_len_u64(minor as u64);
        },
    }
    if k < ents.len() - 1 {
        assert(d[k] == ents[k]);
        lemma_widths_bounds(d, k);
        lemma_widths_scan_small(d);
        match ents.last().long {
            Some(l2) => match l2.size {
                SizeField::Regular(sz2) => {
                    crate::text::lemma_decimal_len_u64(sz2);
                },
                SizeField::Device { major, minor } => {
                    crate::text::lemma_decimal_len_u64(major as u64);
                    crate::text::lemma_decimal_len_u64(minor as u64);
                },
            },
            None => {},
        }
    }
}

/// The column at which the time of a long line starts, for widths `ws`:
/// ten permission characters, the ACL column when there is one, then the
/// link count, owner, group and size columns, each followed by a space.
pub open spec fn time_column(ws: Widths) -> int {
    10 + (if ws.has_acl { 1int } else { 0int }) + ws.nlink + ws.owner + ws.group + ws.size + 5
}

/// The padded link count, owner, group and size columns of an entry's long
/// line are exactly as wide as the listing's widths.
proof fn lemma_long_field_lengths(ents: Seq<Entry>, i: int)
    requires
        0 <= i < ents.len(),
        ents[i].long matches Some(li) && vstd::utf8::encode_utf8(li.owner@).len() <= usize::MAX
            && vstd::utf8::encode_utf8(li.group@).len() <= usize::MAX,
    ensures
        ({
            let li = ents[i].long->0;
            let ws = widths_of(ents);
            &&& pad_left(decimal(li.nlink as nat), ws.nlink as nat).len() == ws.nlink
            &&& pad_right(li.owner@, ws.owner as nat).len() == ws.owner
            &&& pad_right(li.group@, ws.group as nat).len() == ws.group
            &&& size_text(li.size, ws).len() == ws.size
        }),
{
    let li = ents[i].long->0;
    let ws = widths_of(ents);
    lemma_widths_bounds(ents, i);
    lemma_widths_scan_small(ents);
    lemma_encode_len(li.owner@);
    lemma_encode_len(li.group@);
    match li.size {
        SizeField::Regular(n) => {},
        SizeField::Device { major, minor } => {
            let inner = pad_left(decimal(major as nat), ws.major as nat) + ", "@ + pad_left(
                decimal(minor as nat),
                ws.minor as nat,
            );
            assert(", "@.len() == 2) by {
                reveal_strlit(", ");
            };
            assert(inner.len() == ws.major + 2 + ws.minor);
        },
    }
}

/// The columns of a long listing line up: on every line, whatever its link
/// count, owner, group or size, the modification time starts at the same
/// column, `time_column` of the listing's widths.  (Each owner and group
/// name is taken to fit in memory, as every `String` does.)
pub proof fn law_long_columns_line_up(ents: Seq<Entry>, i: int)
    requires
        0 <= i < ents.len(),
        ents[i].long matches Some(li) && li.perms@.len() == 10,
        ents[i].long matches Some(li) && vstd::utf8::encode_utf8(li.owner@).len() <= usize::MAX
            && vstd::utf8::encode_utf8(li.group@).len() <= usize::MAX,
    ensures
        ({
            let li = ents[i].long->0;
            let line = long_layout(ents)[i];
            let k = time_column(widths_of(ents));
            &&& k + li.modified@.len() <= line.len()
            &&& line.subrange(k, k + li.modified@.len()) == li.modified@
        }),
{
    let e = ents[i];
    let li = e.long->0;
    let ws = widths_of(ents);
    lemma_long_field_lengths(ents, i);
    let acl: Seq<char> = if ws.has_acl {
        seq![
            match li.acl {
                Some(c) => c,
                None => ' ',
            },
        ]
    } else {
        Seq::empty()
    };
    let nl = pad_left(decimal(li.nlink as nat), ws.nlink as nat);
    let own = pad_right(li.owner@, ws.owner as nat);
    let grp = pad_right(li.group@, ws.group as nat);
    let sz = size_text(li.size, ws);
    let head = li.perms@ + acl + " "@ + nl + " "@ + own + " "@ + grp + " "@ + sz + " "@;
    let tail = " "@ + e.color@ + e.name@ + reset_code() + opt_char(e.indicator) + li.target@;
    assert(" "@.len() == 1) by {
        reveal_strlit(" ");
    };
    assert(head.len() == time_column(ws));
    let line = long_layout(ents)[i];
    assert(line == long_line(e, li, ws));
    assert(line =~= head + li.modified@ + tail);
    assert(line.subrange(head.len() as int, (head.len() + li.modified@.len()) as int) =~= li.modified@);
}

/// The blocks of all entries (each with its long columns), added up.
pub open spec fn total_blocks(ents: Seq<Entry>) -> nat
    decreases ents.len(),
{
    if ents.len() == 0 {
        0
    } else {
        total_blocks(ents.drop_last()) + match ents.last().long {
            Some(li) => li.blocks as nat,
            None => 0nat,
        }
    }
}

/// The lines that list `ents`: nothing for no entries, except `total 0` for
/// a long listing that shows totals; a long listing, led by `total` and half
/// the blocks when totals are shown; else the short listing.
pub open spec fn entries_layout(ents: Seq<Entry>, flags: Flags, show_total: bool, width: nat) -> Seq<Seq<char>> {
    if ents.len() == 0 {
        if flags.long && show_total {
            seq!["total 0"@]
        } else {
            Seq::empty()
        }
    } else if flags.long {
        (if show_total {
            seq!["total "@ + decimal(total_blocks(ents) / 2)]
        } else {
            Seq::empty()
        }) + long_layout(ents)
    } else {
        short_layout(ents, width)
    }
}

/// What laying out `ents` under `flags` requires: long columns when `-l` is
/// given, and names that fit.
pub open spec fn entries_fit(ents: Seq<Entry>, flags: Flags) -> bool {
    &&& flags.long ==> all_long(ents)
    &&& names_fit(ents)
}

/// What listing `ents` with their total under `flags` requires: besides
/// `entries_fit`, block counts that add up within 64 bits.
pub open spec fn listable(ents: Seq<Entry>, flags: Flags) -> bool {
    &&& entries_fit(ents, flags)
    &&& total_blocks(ents) <= u64::MAX
}

proof fn lemma_total_blocks_prefix(ents: Seq<Entry>, i: int)
    requires
        0 <= i <= ents.len(),
    ensures
        total_blocks(ents.take(i)) <= total_blocks(ents),
    decreases ents.len() - i,
{
    if i < ents.len() {
        lemma_total_blocks_prefix(ents.drop_last(), i);
        assert(ents.drop_last().take(i) =~= ents.take(i));
    } else {
        assert(ents.take(i) =~= ents);
    }
}

fn append_lines(lines: &mut Vec<String>, more: Vec<String>)
    ensures
        crate::parser::string_views(final(lines)@) == crate::parser::string_views(old(lines)@)
            + crate::parser::string_views(more@),
{
    let mut more = more;
    let ghost a = lines@;
    let ghost b = more@;
    lines.append(&mut more);
    assert(crate::parser::string_views(lines@) =~= crate::parser::string_views(a) + crate::parser::string_views(b));
}

/// The lines that list `ents` (see `entries_layout`).
pub fn print_entries(ents: &[Entry], flags: &Flags, show_total: bool, width: usize) -> (lines: Vec<String>)
    requires
        entries_fit(ents@, *flags),
        flags.long && show_total ==> total_blocks(ents@) <= u64::MAX,
    ensures
        crate::parser::string_views(lines@) == entries_layout(ents@, *flags, show_total, width as nat),
{
    let mut lines: Vec<String> = Vec::new();
    if ents.len() == 0 {
        if flags.long && show_total {
            let mut t = String::new();
            push_chars(&mut t, "total 0");
            lines.push(t);
        }
        assert(crate::parser::string_views(lines@) =~= entries_layout(ents@, *flags, show_total, width as nat));
        return lines;
    }
    if flags.long {
        if show_total {
            let mut blocks: u64 = 0;
            let mut i: usize = 0;
            while i < ents.len()
                invariant
                    i <= ents.len(),
                    all_long(ents@),
                    total_blocks(ents@) <= u64::MAX,
                    blocks == total_blocks(ents@.take(i as int)),
                decreases ents.len() - i,
            {
                proof {
                    assert(ents@.take(i + 1).drop_last() =~= ents@.take(i as int));
                    lemma_total_blocks_prefix(ents@, i + 1);
                    assert(ents@[i as int].long is Some);
                }
                let b = match &ents[i].long {
                    Some(l) => l.blocks,
                    None => 0,
                };
                blocks = blocks + b;
                i += 1;
            }
            proof {
                assert(ents@.take(ents.len() as int) =~= ents@);
            }
            let mut t = String::new();
            push_chars(&mut t, "total ");
            let d = crate::text::decimal_string(blocks / 2);
            push_chars(&mut t, d.as_str());
            lines.push(t);
        }
        let long_lines = print_long(ents);
        append_lines(&mut lines, long_lines);
        proof {
            assert(crate::parser::string_views(lines@) =~= entries_layout(ents@, *flags, show_total, width as nat));
        }
        lines
    } else {
        print_short(ents, width)
    }
}

/// The lines that list a directory: its name and a colon when headers are
/// shown, then its entries with their total.
pub open spec fn dir_layout(name: Seq<char>, ents: Seq<Entry>, flags: Flags, show_header: bool, width: nat) -> Seq<Seq<char>> {
    (if show_header {
        seq![name + ":"@]
    } else {
        Seq::empty()
    }) + entries_layout(ents, flags, true, width)
}

/// The lines that list the directory `name` with entries `dirs`.
pub fn print_dirs(name: &str, dirs: &[Entry], flags: &Flags, show_header: bool, width: usize) -> (lines: Vec<String>)
    requires
        listable(dirs@, *flags),
    ensures
        crate::parser::string_views(lines@) == dir_layout(name@, dirs@, *flags, show_header, width as nat),
{
    let mut lines: Vec<String> = Vec::new();
    if show_header {
        let mut h = crate::text::copy_string(name);
        push_chars(&mut h, ":");
        lines.push(h);
    }
    let body = print_entries(dirs, flags, true, width);
    append_lines(&mut lines, body);
    assert(crate::parser::string_views(lines@) =~= dir_layout(name@, dirs@, *flags, show_header, width as nat));
    lines
}

/// The lines that list the operands that are not directories (no total).
pub fn print_files(files: &[Entry], flags: &Flags, width: usize) -> (lines: Vec<String>)
    requires
        entries_fit(files@, *flags),
    ensures
        crate::parser::string_views(lines@) == entries_layout(files@, *flags, false, width as nat),
{
    print_entries(files, flags, false, width)
}

/// The alphanumeric characters of `s`, in order.
pub open spec fn alnum_only(s: Seq<char>) -> Seq<char>
    decreases s.len(),
{
    if s.len() == 0 {
        Seq::empty()
    } else if unicode_alphanumeric(s.last()) {
        alnum_only(s.drop_last()).push(s.last())
    } else {
        alnum_only(s.drop_last())
    }
}

/// The primary sort key of a name: its alphanumeric characters, lowercased.
pub open spec fn sort_key_of(name: Seq<char>) -> Seq<char> {
    unicode_lowercase(alnum_only(name))
}

/// The tie-break key of one character: the character with uppercase made
/// ASCII-lowercase, and whether it was uppercase.
pub open spec fn tie_pair(c: char) -> (char, u8) {
    if unicode_uppercase(c) {
        (ascii_lowercase(c), 1u8)
    } else {
        (c, 0u8)
    }
}

/// The characters as numbers.
pub open spec fn codes(s: Seq<char>) -> Seq<u32> {
    s.map_values(|c: char| c as u32)
}

/// The tie-break key as numbers: a pair `(c, u)` becomes `2 * c + u`, which
/// orders pairs as tuples compare (by character, then by flag).
pub open spec fn tie_codes(s: Seq<char>) -> Seq<u32> {
    s.map_values(|c: char| (2 * (tie_pair(c).0 as u32) + tie_pair(c).1) as u32)
}

/// The order of entries by name: by sort key, then by the case tie-break key,
/// then by the name itself (each compared lexicographically by character,
/// which is how `String` and `Vec` order them).
pub open spec fn name_order(a: Seq<char>, b: Seq<char>) -> Order {
    then_order(
        lex_order(codes(sort_key_of(a)), codes(sort_key_of(b))),
        then_order(lex_order(tie_codes(a), tie_codes(b)), lex_order(codes(a), codes(b))),
    )
}

impl Entry {
    /// The primary sort key: the name's alphanumeric characters, lowercased.
    pub fn sort_key(&self) -> (k: String)
        ensures
            k@ == sort_key_of(self.name@),
    {
        let cs = crate::text::chars_of(self.name.as_str());
        let mut kept: Vec<char> = Vec::new();
        let mut i: usize = 0;
        while i < cs.len()
            invariant
                i <= cs.len(),
                cs@ == self.name@,
                kept@ == alnum_only(cs@.take(i as int)),
            decreases cs.len() - i,
        {
            proof {
                assert(cs@.take(i + 1).drop_last() =~= cs@.take(i as int));
            }
            if is_alphanumeric(cs[i]) {
                kept.push(cs[i]);
            }
            i += 1;
        }
        proof {
            assert(cs@.take(cs.len() as int) =~= cs@);
        }
        let filtered = string_of(kept.as_slice());
        to_lowercase(filtered.as_str())
    }
}

/// The tie-break key of a name: for each character, the character with an
/// uppercase letter made ASCII-lowercase, and 1 if it was uppercase, else 0.
pub fn case_tie_key(s: &str) -> (v: Vec<(char, u8)>)
    ensures
        v@ == s@.map_values(|c: char| tie_pair(c)),
{
    let cs = crate::text::chars_of(s);
    let mut v: Vec<(char, u8)> = Vec::new();
    let mut i: usize = 0;
    while i < cs.len()
        invariant
            i <= cs.len(),
            cs@ == s@,
            v@ == cs@.take(i as int).map_values(|c: char| tie_pair(c)),
        decreases cs.len() - i,
    {
        let c = cs[i];
        if is_uppercase(c) {
            v.push((to_ascii_lowercase(c), 1u8));
        } else {
            v.push((c, 0u8));
        }
        proof {
            assert(cs@.take(i + 1).map_values(|c: char| tie_pair(c)) =~= cs@.take(i as int).map_values(
                |c: char| tie_pair(c),
            ).push(tie_pair(c)));
        }
        i += 1;
    }
    proof {
        assert(cs@.take(cs.len() as int) =~= cs@);
    }
    v
}

fn char_codes(s: &str) -> (v: Vec<u32>)
    ensures
        v@ == codes(s@),
{
    let cs = crate::text::chars_of(s);
    let mut v: Vec<u32> = Vec::new();
    let mut i: usize = 0;
    while i < cs.len()
        invariant
            i <= cs.len(),
            cs@ == s@,
            v@ == codes(cs@.take(i as int)),
        decreases cs.len() - i,
    {
        v.push(cs[i] as u32);
        proof {
            assert(codes(cs@.take(i + 1)) =~= codes(cs@.take(i as int)).push(cs@[i as int] as u32));
        }
        i += 1;
    }
    proof {
        assert(cs@.take(cs.len() as int) =~= cs@);
    }
    v
}

fn pair_codes(pairs: &Vec<(char, u8)>) -> (v: Vec<u32>)
    requires
        forall|i: int| 0 <= i < pairs.len() ==> (#[trigger] pairs@[i]).1 <= 1,
    ensures
        v@ == pairs@.map_values(|p: (char, u8)| (2 * (p.0 as u32) + p.1) as u32),
{
    let mut v: Vec<u32> = Vec::new();
    let mut i: usize = 0;
    while i < pairs.len()
        invariant
            i <= pairs.len(),
            forall|i: int| 0 <= i < pairs.len() ==> (#[trigger] pairs@[i]).1 <= 1,
            v@ == pairs@.take(i as int).map_values(|p: (char, u8)| (2 * (p.0 as u32) + p.1) as u32),
        decreases pairs.len() - i,
    {
        let (c, u) = pairs[i];
        proof {
            vstd::utf8::char_is_scalar(c);
            assert(pairs@[i as int].1 <= 1);
        }
        v.push(2 * (c as u32) + u as u32);
        proof {
            assert(pairs@.take(i + 1).map_values(|p: (char, u8)| (2 * (p.0 as u32) + p.1) as u32)
                =~= pairs@.take(i as int).map_values(|p: (char, u8)| (2 * (p.0 as u32) + p.1) as u32).push(
                (2 * (c as u32) + u) as u32,
            ));
        }
        i += 1;
    }
    proof {
        assert(pairs@.take(pairs.len() as int) =~= pairs@);
    }
    v
}

/// Compares two entries by name: sort key, then case tie-break key, then name.
pub fn compare_entries(a: &Entry, b: &Entry) -> (r: Order)
    ensures
        r == name_order(a.name@, b.name@),
{
    let ka = a.sort_key();
    let kb = b.sort_key();
    let first = lex_compare(char_codes(ka.as_str()).as_slice(), char_codes(kb.as_str()).as_slice());
    if first != Order::Equal {
        return first;
    }
    let ta = case_tie_key(a.name.as_str());
    let tb = case_tie_key(b.name.as_str());
    let ca = pair_codes(&ta);
    let cb = pair_codes(&tb);
    proof {
        assert(ca@ =~= tie_codes(a.name@));
        assert(cb@ =~= tie_codes(b.name@));
    }
    let second = lex_compare(ca.as_slice(), cb.as_slice());
    if second != Order::Equal {
        return second;
    }
    lex_compare(char_codes(a.name.as_str()).as_slice(), char_codes(b.name.as_str()).as_slice())
}

proof fn lemma_codes_injective(a: Seq<char>, b: Seq<char>)
    ensures
        codes(a) == codes(b) <==> a == b,
{
    if codes(a) == codes(b) {
        assert(a.len() == codes(a).len());
        assert forall|i: int| 0 <= i < a.len() implies a[i] == b[i] by {
            assert(codes(a)[i] == codes(b)[i]);
            vstd::utf8::char_u32_cast(a[i], a[i] as u32);
            vstd::utf8::char_u32_cast(b[i], b[i] as u32);
        };
        assert(a =~= b);
    }
}

/// A shorter sort key comes first: when the sort key of `a` is the sort key
/// of `b` cut short (as `notes` is of `notestxt`, the key of `notes.txt`),
/// `a` is listed before `b`, whatever their case or punctuation.
pub proof fn law_name_order_prefix_key_first(a: Seq<char>, b: Seq<char>)
    requires
        sort_key_of(a).len() < sort_key_of(b).len(),
        sort_key_of(a) == sort_key_of(b).take(sort_key_of(a).len() as int),
    ensures
        name_order(a, b) == Order::Less,
        name_order(b, a) == Order::Greater,
{
    let ka = sort_key_of(a);
    let kb = sort_key_of(b);
    assert(codes(ka) =~= codes(kb).take(codes(ka).len() as int));
    crate::order::law_lex_prefix_first(codes(ka), codes(kb));
}

/// A smaller first differing character of the sort keys comes first: the
/// name whose key has the smaller character where the keys first differ is
/// listed before the other.
pub proof fn law_name_order_key_difference(a: Seq<char>, b: Seq<char>, k: int)
    requires
        0 <= k < sort_key_of(a).len(),
        k < sort_key_of(b).len(),
        forall|i: int| 0 <= i < k ==> sort_key_of(a)[i] == sort_key_of(b)[i],
        (sort_key_of(a)[k] as u32) < (sort_key_of(b)[k] as u32),
    ensures
        name_order(a, b) == Order::Less,
        name_order(b, a) == Order::Greater,
{
    let ka = codes(sort_key_of(a));
    let kb = codes(sort_key_of(b));
    assert forall|i: int| 0 <= i < k implies ka[i] == kb[i] by {
        assert(sort_key_of(a)[i] == sort_key_of(b)[i]);
    };
    crate::order::law_lex_first_difference(ka, kb, k);
}

/// Comparing names the other way round flips the outcome.
pub proof fn law_name_order_flip(a: Seq<char>, b: Seq<char>)
    ensures
        name_order(b, a) == flipped(name_order(a, b)),
{
    lemma_lex_flip(codes(sort_key_of(a)), codes(sort_key_of(b)));
    lemma_lex_flip(tie_codes(a), tie_codes(b));
    lemma_lex_flip(codes(a), codes(b));
}

/// Two names compare equal exactly when they are the same name.
pub proof fn law_name_order_equal(a: Seq<char>, b: Seq<char>)
    ensures
        (name_order(a, b) == Order::Equal) <==> a == b,
{
    lemma_lex_equal(codes(sort_key_of(a)), codes(sort_key_of(b)));
    lemma_lex_equal(tie_codes(a), tie_codes(b));
    lemma_lex_equal(codes(a), codes(b));
    lemma_codes_injective(a, b);
}

/// The order of names is transitive.
pub proof fn law_name_order_transitive(a: Seq<char>, b: Seq<char>, c: Seq<char>)
    requires
        name_order(a, b) == Order::Less,
        name_order(b, c) == Order::Less,
    ensures
        name_order(a, c) == Order::Less,
{
    let (ka, kb, kc) = (codes(sort_key_of(a)), codes(sort_key_of(b)), codes(sort_key_of(c)));
    let (ta, tb, tc) = (tie_codes(a), tie_codes(b), tie_codes(c));
    let (na, nb, nc) = (codes(a), codes(b), codes(c));
    lemma_lex_equal(ka, kb);
    lemma_lex_equal(kb, kc);
    lemma_lex_equal(ka, kc);
    lemma_lex_equal(ta, tb);
    lemma_lex_equal(tb, tc);
    lemma_lex_equal(ta, tc);
    lemma_lex_flip(ka, kb);
    lemma_lex_flip(kb, kc);
    lemma_lex_flip(ta, tb);
    lemma_lex_flip(tb, tc);
    if lex_order(ka, kb) == Order::Less && lex_order(kb, kc) == Order::Less {
        lemma_lex_trans(ka, kb, kc);
    } else if lex_order(ka, kb) == Order::Less {
        // kb == kc
    } else if lex_order(kb, kc) == Order::Less {
        // ka == kb
    } else {
        // all sort keys equal
        if lex_order(ta, tb) == Order::Less && lex_order(tb, tc) == Order::Less {
            lemma_lex_trans(ta, tb, tc);
        } else if lex_order(ta, tb) == Order::Less {
        } else if lex_order(tb, tc) == Order::Less {
        } else {
            lemma_lex_trans(na, nb, nc);
        }
    }
}

/// Whether entries are in order by name (each no greater than any later one).
pub open spec fn sorted_by_name(s: Seq<Entry>) -> bool {
    forall|i: int, j: int| 0 <= i < j < s.len() ==> name_order(s[i].name@, s[j].name@) != Order::Greater
}

/// The entries ordered by name (see `name_order`); the result holds the same
/// entries, each as often.
pub fn sort_entries(ents: Vec<Entry>) -> (out: Vec<Entry>)
    ensures
        out@.to_multiset() == ents@.to_multiset(),
        sorted_by_name(out@),
        total_blocks(out@) == total_blocks(ents@),
        out.len() == ents.len(),
        forall|i: int| 0 <= i < out.len() ==> ents@.contains(#[trigger] out@[i]),
{
    let ghost orig = ents@;
    let mut rest = ents;
    let mut out: Vec<Entry> = Vec::new();
    proof {
        out@.to_multiset_ensures();
        assert(out@.to_multiset() =~= vstd::multiset::Multiset::empty());
        assert(out@.to_multiset().add(rest@.to_multiset()) =~= orig.to_multiset());
        assert forall|i: int| 0 <= i < rest.len() implies orig.contains(#[trigger] rest@[i]) by {
            assert(orig[i] == rest@[i]);
        };
    }
    while rest.len() > 0
        invariant
            out@.to_multiset().add(rest@.to_multiset()) == orig.to_multiset(),
            total_blocks(out@) + total_blocks(rest@) == total_blocks(orig),
            out.len() + rest.len() == orig.len(),
            forall|i: int| 0 <= i < out.len() ==> orig.contains(#[trigger] out@[i]),
            forall|i: int| 0 <= i < rest.len() ==> orig.contains(#[trigger] rest@[i]),
            sorted_by_name(out@),
            forall|i: int, j: int|
                0 <= i < out.len() && 0 <= j < rest.len() ==> name_order(
                    out@[i].name@,
                    rest@[j].name@,
                ) != Order::Greater,
        decreases rest.len(),
    {
        let mut m: usize = 0;
        let mut i: usize = 1;
        proof {
            law_name_order_equal(rest@[0].name@, rest@[0].name@);
        }
        while i < rest.len()
            invariant
                1 <= i <= rest.len(),
                m < rest.len(),
                forall|k: int| 0 <= k < i ==> name_order(rest@[m as int].name@, rest@[k].name@)
                    != Order::Greater,
            decreases rest.len() - i,
        {
            if compare_entries(&rest[i], &rest[m]) == Order::Less {
                proof {
                    let x = rest@[i as int].name@;
                    let y = rest@[m as int].name@;
                    assert forall|k: int| 0 <= k < i + 1 implies name_order(x, rest@[k].name@)
                        != Order::Greater by {
                        let z = rest@[k].name@;
                        law_name_order_equal(x, z);
                        law_name_order_flip(x, z);
                        if k == i {
                        } else {
                            law_name_order_equal(y, z);
                            if name_order(y, z) == Order::Less {
                                law_name_order_transitive(x, y, z);
                            }
                        }
                    };
                }
                m = i;
            } else {
                proof {
                    let y = rest@[m as int].name@;
                    let x = rest@[i as int].name@;
                    law_name_order_flip(x, y);
                }
            }
            i += 1;
        }
        let ghost before_rest = rest@;
        let ghost before_out = out@;
        let e = rest.remove(m);
        out.push(e);
        proof {
            assert(before_rest.remove(m as int) == rest@);
            assert(out@ == before_out.push(e));
            before_out.to_multiset_ensures();
            before_rest.to_multiset_ensures();
            assert(out@.to_multiset() == before_out.to_multiset().insert(e));
            assert(rest@.to_multiset() == before_rest.to_multiset().remove(before_rest[m as int]));
            assert(out@.to_multiset().add(rest@.to_multiset()) =~= orig.to_multiset());
            lemma_total_blocks_remove(before_rest, m as int);
            assert(out@.drop_last() =~= before_out);
            assert forall|i: int| 0 <= i < out.len() implies orig.contains(#[trigger] out@[i]) by {
                if i < out.len() - 1 {
                    assert(out@[i] == before_out[i]);
                }
            };
            assert forall|i: int| 0 <= i < rest.len() implies orig.contains(#[trigger] rest@[i]) by {
                let bb = if i < m { i } else { i + 1 };
                assert(rest@[i] == before_rest[bb]);
            };
            assert forall|a: int, b: int| 0 <= a < b < out.len() implies name_order(
                out@[a].name@,
                out@[b].name@,
            ) != Order::Greater by {
                if b < out.len() - 1 {
                    assert(out@[a] == before_out[a]);
                    assert(out@[b] == before_out[b]);
                } else {
                    assert(out@[a] == before_out[a]);
                }
            };
            assert forall|a: int, b: int| 0 <= a < out.len() && 0 <= b < rest.len() implies name_order(
                out@[a].name@,
                rest@[b].name@,
            ) != Order::Greater by {
                let bb = if b < m { b } else { b + 1 };
                assert(rest@[b] == before_rest[bb]);
                if a < out.len() - 1 {
                    assert(out@[a] == before_out[a]);
                }
            };
        }
    }
    proof {
        rest@.to_multiset_ensures();
        assert(rest@.to_multiset() =~= vstd::multiset::Multiset::empty());
        assert(out@.to_multiset() =~= out@.to_multiset().add(rest@.to_multiset()));
        assert(total_blocks(rest@) == 0);
    }
    out
}

proof fn lemma_total_blocks_remove(s: Seq<Entry>, m: int)
    requires
        0 <= m < s.len(),
    ensures
        total_blocks(s.remove(m)) + match s[m].long {
            Some(li) => li.blocks as nat,
            None => 0nat,
        } == total_blocks(s),
    decreases s.len(),
{
    if m < s.len() - 1 {
        lemma_total_blocks_remove(s.drop_last(), m);
        assert(s.remove(m).drop_last() =~= s.drop_last().remove(m));
        assert(s.remove(m).last() == s.last());
    } else {
        assert(s.remove(m) =~= s.drop_last());
    }
}

/// Entries drawn from a sequence that fits the layout fit it too.
proof fn lemma_fit_drawn(ents: Seq<Entry>, out: Seq<Entry>, flags: Flags)
    requires
        entries_fit(ents, flags),
        forall|i: int| 0 <= i < out.len() ==> ents.contains(#[trigger] out[i]),
    ensures
        entries_fit(out, flags),
{
    assert forall|i: int| 0 <= i < out.len() implies (byte_len((#[trigger] out[i]).name@) as int) < usize::MAX - 3 by {
        assert(ents.contains(out[i]));
        let j = choose|j: int| 0 <= j < ents.len() && ents[j] == out[i];
        assert(byte_len(ents[j].name@) < usize::MAX - 3);
    };
    if flags.long {
        assert forall|i: int| 0 <= i < out.len() implies (#[trigger] out[i]).long is Some by {
            assert(ents.contains(out[i]));
            let j = choose|j: int| 0 <= j < ents.len() && ents[j] == out[i];
            assert(ents[j].long is Some);
        };
    }
}

/// Whether an entry named `name` is listed in a directory: hidden names
/// (starting with `.`) only under `-a`.
pub open spec fn listed_in_dir(name: Seq<char>, flags: Flags) -> bool {
    flags.all || !(name.len() > 0 && name[0] == '.')
}

/// Whether the directory entry `name` is listed.
pub fn is_listed(name: &str, flags: &Flags) -> (r: bool)
    ensures
        r == listed_in_dir(name@, *flags),
{
    if flags.all {
        return true;
    }
    let cs = crate::text::chars_of(name);
    !(cs.len() > 0 && cs[0] == '.')
}

/// The entries `-a` adds before a directory's own: `.` and `..`.
pub fn special_names(flags: &Flags) -> (v: Vec<String>)
    ensures
        crate::parser::string_views(v@) == if flags.all { seq!["."@, ".."@] } else { Seq::empty() },
{
    let mut v: Vec<String> = Vec::new();
    if flags.all {
        v.push(crate::text::copy_string("."));
        v.push(crate::text::copy_string(".."));
    }
    assert(crate::parser::string_views(v@) =~= if flags.all { seq!["."@, ".."@] } else { Seq::empty() });
    v
}

/// The entry for one operand or directory member (see `Entry::new`).
pub fn collect_file(name: String, f: FileFacts, flags: &Flags, now: Timestamp, offset: i32) -> (r: Option<Entry>)
    requires
        now.nanos < 1_000_000_000,
        f.modified.nanos < 1_000_000_000,
        -86_400 < offset < 86_400,
    ensures
        r is None <==> (flags.long && time_text(now, f.modified, offset as int) is None),
        (!flags.long || showable(f.modified)) ==> r is Some,
        r matches Some(e) ==> {
            &&& e.name@ == name@
            &&& e.indicator == (if flags.class { indicator_of(f.kind, f.mode) } else { None })
            &&& e.color@ == color_code(f.kind, f.mode)
            &&& (e.long is Some <==> flags.long)
            &&& (e.long matches Some(li) ==> long_info_of(li, f, flags.class) && Some(li.modified@)
                == time_text(now, f.modified, offset as int))
        },
{
    Entry::new(name, f, flags, now, offset)
}

/// The flags of `ls` and the operands to list (the current directory when
/// none is given).
pub fn run(args: Vec<String>) -> (r: Result<(Flags, Vec<String>), ShellError>)
    ensures
        ({
            let (f, paths, bad) = scan_args(Flags { all: false, long: false, class: false }, crate::parser::string_views(args@));
            match bad {
                Some(c) => r matches Err(ShellError::One(e)) && e@ == ("ls"@, invalid_option_message(c)),
                None => r matches Ok((flags, targets)) && flags == f && crate::parser::string_views(targets@)
                    == if paths.len() == 0 { seq!["."@] } else { paths },
            }
        }),
{
    let mut flags = Flags::new();
    let paths = flags.parse(&args)?;
    if paths.len() == 0 {
        let mut t: Vec<String> = Vec::new();
        t.push(crate::text::copy_string("."));
        assert(crate::parser::string_views(t@) =~= seq!["."@]);
        Ok((flags, t))
    } else {
        Ok((flags, paths))
    }
}

/// Whether the listing heads each directory with its name: when more than
/// one directory is listed, or files and directories both are.
pub open spec fn shows_headers(n_files: nat, n_dirs: nat) -> bool {
    n_dirs > 1 || (n_files > 0 && n_dirs > 0)
}

/// The directory parts of a listing, for the first `upto` directories: each
/// led by an empty line unless nothing was printed before it.
pub open spec fn dirs_part(
    files_printed: bool,
    names: Seq<Seq<char>>,
    dirs: Seq<Seq<Entry>>,
    flags: Flags,
    show_header: bool,
    width: nat,
    upto: nat,
) -> Seq<Seq<char>>
    decreases upto,
{
    if upto == 0 {
        Seq::empty()
    } else {
        let k = (upto - 1) as nat;
        dirs_part(files_printed, names, dirs, flags, show_header, width, k) + (if files_printed || k > 0 {
            seq![Seq::<char>::empty()]
        } else {
            Seq::empty()
        }) + dir_layout(names[k as int], dirs[k as int], flags, show_header, width)
    }
}

/// The whole listing: the operands that are files first (no total), then
/// each directory.
pub open spec fn listing_layout(files: Seq<Entry>, names: Seq<Seq<char>>, dirs: Seq<Seq<Entry>>, flags: Flags, width: nat) -> Seq<Seq<char>> {
    (if files.len() > 0 {
        entries_layout(files, flags, false, width)
    } else {
        Seq::empty()
    }) + dirs_part(
        files.len() > 0,
        names,
        dirs,
        flags,
        shows_headers(files.len(), dirs.len()),
        width,
        dirs.len(),
    )
}

/// Each of the first `upto` directory parts, when headers are shown, holds
/// its directory's header line.
proof fn lemma_dirs_part_header(
    files_printed: bool,
    names: Seq<Seq<char>>,
    dirs: Seq<Seq<Entry>>,
    flags: Flags,
    width: nat,
    upto: nat,
    k: int,
)
    requires
        0 <= k < upto,
    ensures
        dirs_part(files_printed, names, dirs, flags, true, width, upto).contains(names[k] + ":"@),
    decreases upto,
{
    let j = (upto - 1) as nat;
    let prev = dirs_part(files_printed, names, dirs, flags, true, width, j);
    let sep: Seq<Seq<char>> = if files_printed || j > 0 {
        seq![Seq::<char>::empty()]
    } else {
        Seq::empty()
    };
    let part = dir_layout(names[j as int], dirs[j as int], flags, true, width);
    let whole = dirs_part(files_printed, names, dirs, flags, true, width, upto);
    assert(whole == prev + sep + part);
    if k == j {
        assert(part[0] == names[k] + ":"@);
        assert(whole[(prev.len() + sep.len()) as int] == part[0]);
    } else {
        lemma_dirs_part_header(files_printed, names, dirs, flags, width, j, k);
        let m = choose|m: int| 0 <= m < prev.len() && prev[m] == names[k] + ":"@;
        assert(whole[m] == prev[m]);
    }
}

/// Directories are headed when it matters: when a listing has a file operand
/// beside its directories, or more than one directory, every directory's
/// part holds a line that is its name followed by `:`.
pub proof fn law_listing_heads_each_directory(
    files: Seq<Entry>,
    names: Seq<Seq<char>>,
    dirs: Seq<Seq<Entry>>,
    flags: Flags,
    width: nat,
    k: int,
)
    requires
        0 <= k < dirs.len(),
        names.len() == dirs.len(),
        files.len() > 0 || dirs.len() > 1,
    ensures
        listing_layout(files, names, dirs, flags, width).contains(names[k] + ":"@),
{
    lemma_dirs_part_header(files.len() > 0, names, dirs, flags, width, dirs.len(), k);
    let head: Seq<Seq<char>> = if files.len() > 0 {
        entries_layout(files, flags, false, width)
    } else {
        Seq::empty()
    };
    let d = dirs_part(files.len() > 0, names, dirs, flags, true, width, dirs.len());
    assert(listing_layout(files, names, dirs, flags, width) == head + d);
    let m = choose|m: int| 0 <= m < d.len() && d[m] == names[k] + ":"@;
    assert((head + d)[head.len() + m] == d[m]);
}

/// A lone directory is listed bare: with no file operand and one directory,
/// the listing is that directory's entries with their total, and no header.
pub proof fn law_lone_directory_unheaded(names: Seq<Seq<char>>, dirs: Seq<Seq<Entry>>, flags: Flags, width: nat)
    requires
        dirs.len() == 1,
    ensures
        listing_layout(Seq::empty(), names, dirs, flags, width) == entries_layout(dirs[0], flags, true, width),
{
    let d = dirs_part(false, names, dirs, flags, false, width, 1);
    assert(dirs_part(false, names, dirs, flags, false, width, 0) =~= Seq::<Seq<char>>::empty());
    assert(d =~= entries_layout(dirs[0], flags, true, width));
    assert(Seq::<Seq<char>>::empty() + d =~= d);
}

/// The long line of a symbolic link shows where it points: its target column
/// is ` -> ` followed by the link's text (under `-F` followed by the
/// indicator of what it points to); any other entry has no target column.
pub proof fn law_link_target_shown(li: LongInfo, f: FileFacts, class: bool)
    requires
        long_info_of(li, f, class),
    ensures
        f.kind == FileKind::Symlink && f.link is Some ==> {
            let l = f.link->0@;
            &&& li.target@.len() >= 4 + l.len()
            &&& li.target@.take((4 + l.len()) as int) == " -> "@ + l
            &&& !class ==> li.target@ == " -> "@ + l
        },
        f.kind != FileKind::Symlink ==> li.target@.len() == 0,
{
    if f.kind == FileKind::Symlink && f.link is Some {
        let l = f.link->0@;
        assert(" -> "@.len() == 4) by {
            reveal_strlit(" -> ");
        };
        let rest = if class {
            match f.link_target {
                Some((k, m)) => opt_char(indicator_of(k, m)),
                None => Seq::empty(),
            }
        } else {
            Seq::<char>::empty()
        };
        assert(li.target@ == " -> "@ + l + rest);
        assert(li.target@.take((4 + l.len()) as int) =~= " -> "@ + l);
        if !class {
            assert(" -> "@ + l + rest =~= " -> "@ + l);
        }
    }
}

/// `b` holds the entries of `a`, each as often, ordered by name.
pub open spec fn sorted_arrangement(b: Seq<Entry>, a: Seq<Entry>) -> bool {
    b.to_multiset() == a.to_multiset() && sorted_by_name(b)
}

pub open spec fn dir_names(dirs: Seq<(String, Vec<Entry>)>) -> Seq<Seq<char>> {
    dirs.map_values(|d: (String, Vec<Entry>)| d.0@)
}

/// The listing of `files` (the operands that are not directories) and of
/// `dirs` (each directory operand with its entries): each group ordered by
/// name, laid out as `listing_layout` describes on a terminal `width`
/// columns wide.
pub fn listing(files: Vec<Entry>, dirs: Vec<(String, Vec<Entry>)>, flags: &Flags, width: usize) -> (lines: Vec<String>)
    requires
        entries_fit(files@, *flags),
        forall|k: int| 0 <= k < dirs.len() ==> listable((#[trigger] dirs@[k]).1@, *flags),
    ensures
        exists|fs: Seq<Entry>, ds: Seq<Seq<Entry>>|
            #![trigger listing_layout(fs, dir_names(dirs@), ds, *flags, width as nat)]
            sorted_arrangement(fs, files@) && ds.len() == dirs.len() && (forall|k: int|
                0 <= k < ds.len() ==> sorted_arrangement(#[trigger] ds[k], dirs@[k].1@))
                && crate::parser::string_views(lines@) == listing_layout(
                fs,
                dir_names(dirs@),
                ds,
                *flags,
                width as nat,
            ),
{
    let ghost names = dir_names(dirs@);
    let n_dirs = dirs.len();
    let n_files = files.len();
    let show_header = dirs.len() > 1 || (files.len() > 0 && dirs.len() > 0);
    let mut lines: Vec<String> = Vec::new();
    let ghost files_in = files@;
    let sorted_files = sort_entries(files);
    proof {
        lemma_fit_drawn(files_in, sorted_files@, *flags);
    }
    if n_files > 0 {
        let part = print_files(sorted_files.as_slice(), flags, width);
        append_lines(&mut lines, part);
    }
    let ghost mut ds: Seq<Seq<Entry>> = Seq::empty();
    let ghost dirs_in = dirs@;
    let mut printed = n_files > 0;
    let mut rest = dirs;
    let mut k: usize = 0;
    // take the directories from the back, so as not to shift the vector
    let mut taken: Vec<(String, Vec<Entry>)> = Vec::new();
    while rest.len() > 0
        invariant
            rest@.len() + taken@.len() == dirs_in.len(),
            forall|j: int| 0 <= j < rest.len() ==> rest@[j] == dirs_in[j],
            forall|j: int| 0 <= j < taken.len() ==> taken@[j] == dirs_in[dirs_in.len() - 1 - j],
        decreases rest.len(),
    {
        let d = rest.pop().unwrap();
        taken.push(d);
    }
    proof {
        assert(dir_names(dirs_in) == names);
        assert(files_in.len() == n_files);
    }
    while k < n_dirs
        invariant
            k <= n_dirs,
            n_dirs == dirs_in.len(),
            taken.len() == n_dirs - k,
            forall|j: int| 0 <= j < taken.len() ==> taken@[j] == dirs_in[dirs_in.len() - 1 - j],
            forall|j: int| 0 <= j < dirs_in.len() ==> listable((#[trigger] dirs_in[j]).1@, *flags),
            names == dir_names(dirs_in),
            ds.len() == k,
            forall|j: int| 0 <= j < k ==> sorted_arrangement(#[trigger] ds[j], dirs_in[j].1@),
            printed == (files_in.len() > 0 || k > 0),
            show_header == shows_headers(files_in.len(), dirs_in.len()),
            crate::parser::string_views(lines@) == (if files_in.len() > 0 {
                entries_layout(sorted_files@, *flags, false, width as nat)
            } else {
                Seq::empty()
            }) + dirs_part(files_in.len() > 0, names, ds, *flags, show_header, width as nat, k as nat),
        decreases n_dirs - k,
    {
        let (name, ents) = taken.pop().unwrap();
        proof {
            assert(name@ == names[k as int]);
        }
        let ghost ents_in = ents@;
        let sorted = sort_entries(ents);
        proof {
            lemma_fit_drawn(ents_in, sorted@, *flags);
        }
        let ghost before = lines@;
        if printed {
            lines.push(String::new());
        }
        let part = print_dirs(name.as_str(), sorted.as_slice(), flags, show_header, width);
        append_lines(&mut lines, part);
        proof {
            let ds2 = ds.push(sorted@);
            lemma_dirs_part_extend(files_in.len() > 0, names, ds, sorted@, *flags, show_header, width as nat, k as nat);
            ds = ds2;
            assert(crate::parser::string_views(lines@) =~= crate::parser::string_views(before) + (if files_in.len() > 0 || k > 0 {
                seq![Seq::<char>::empty()]
            } else {
                Seq::empty()
            }) + dir_layout(names[k as int], sorted@, *flags, show_header, width as nat));
        }
        printed = true;
        k += 1;
    }
    proof {
        assert(ds.len() == dirs_in.len());
        assert(listing_layout(sorted_files@, names, ds, *flags, width as nat) =~= (if files_in.len() > 0 {
            entries_layout(sorted_files@, *flags, false, width as nat)
        } else {
            Seq::empty()
        }) + dirs_part(files_in.len() > 0, names, ds, *flags, show_header, width as nat, ds.len()));
    }
    lines
}

proof fn lemma_dirs_part_extend(
    files_printed: bool,
    names: Seq<Seq<char>>,
    ds: Seq<Seq<Entry>>,
    next: Seq<Entry>,
    flags: Flags,
    show_header: bool,
    width: nat,
    k: nat,
)
    requires
        ds.len() == k,
    ensures
        dirs_part(files_printed, names, ds.push(next), flags, show_header, width, k + 1)
            == dirs_part(files_printed, names, ds, flags, show_header, width, k) + (if files_printed || k > 0 {
            seq![Seq::<char>::empty()]
        } else {
            Seq::empty()
        }) + dir_layout(names[k as int], next, flags, show_header, width),
{
    lemma_dirs_part_prefix(files_printed, names, ds, ds.push(next), flags, show_header, width, k);
}

proof fn lemma_dirs_part_prefix(
    files_printed: bool,
    names: Seq<Seq<char>>,
    a: Seq<Seq<Entry>>,
    b: Seq<Seq<Entry>>,
    flags: Flags,
    show_header: bool,
    width: nat,
    upto: nat,
)
    requires
        upto <= a.len(),
        upto <= b.len(),
        forall|j: int| 0 <= j < upto ==> a[j] == b[j],
    ensures
        dirs_part(files_printed, names, a, flags, show_header, width, upto) == dirs_part(
            files_printed,
            names,
            b,
            flags,
            show_header,
            width,
            upto,
        ),
    decreases upto,
{
    if upto > 0 {
        lemma_dirs_part_prefix(files_printed, names, a, b, flags, show_header, width, (upto - 1) as nat);
    }
}

} // verus!
