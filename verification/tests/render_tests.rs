use mini_ls::entry::Meta;
use mini_ls::options::Options;
use mini_ls::render::{permission_string, render_entry, u64_to_string};
use mini_ls::timefmt::format_time;

fn meta(is_dir: bool, mode: u32) -> Meta {
    Meta {
        is_dir,
        mode,
        nlink: 1,
        uid: 1000,
        gid: 100,
        size: 42,
        mtime: 0,
        atime: 0,
    }
}

#[test]
fn owner_read_write_only_file() {
    let p = permission_string(&meta(false, 0o600));
    assert_eq!(p, "-rw-------");
}

#[test]
fn owner_read_write_only_directory() {
    let p = permission_string(&meta(true, 0o600));
    assert_eq!(p, "drw-------");
}

#[test]
fn full_permission_pattern() {
    let p = permission_string(&meta(false, 0o754));
    assert_eq!(p, "-rwxr-xr--");
}

#[test]
fn decimal_rendering() {
    assert_eq!(u64_to_string(0), "0");
    assert_eq!(u64_to_string(7), "7");
    assert_eq!(u64_to_string(1203), "1203");
    assert_eq!(u64_to_string(u64::MAX), "18446744073709551615");
}

#[test]
fn epoch_formats_as_january_first() {
    assert_eq!(format_time(0), "Jan 01 00:00");
}

#[test]
fn known_timestamp_formats_exactly() {
    assert_eq!(format_time(1_000_000_000), "Sep 09 01:46");
}

#[test]
fn unrepresentable_timestamp_degrades_to_sentinel() {
    assert_eq!(format_time(i64::MIN), "??? ?? ??:??");
    assert_eq!(format_time(i64::MAX), "??? ?? ??:??");
}

#[test]
fn negative_timestamps_format_before_the_epoch() {
    assert_eq!(format_time(-1), "Dec 31 23:59");
}

#[test]
fn representable_range_boundaries() {
    assert_eq!(format_time(-8334601228800), "Jan 01 00:00");
    assert_eq!(format_time(-8334601228801), "??? ?? ??:??");
    assert_eq!(format_time(8210266876799), "Dec 31 23:59");
    assert_eq!(format_time(8210266876800), "??? ?? ??:??");
}

#[test]
fn short_format_is_just_the_name() {
    let o = Options::default();
    let line = render_entry(&"a.txt".to_string(), &meta(false, 0o644), &o);
    assert_eq!(line, "a.txt");
}

#[test]
fn long_format_line() {
    let mut o = Options::default();
    o.long_format = true;
    let line = render_entry(&"a.txt".to_string(), &meta(false, 0o600), &o);
    assert_eq!(line, "-rw------- 1 1000 100 42 Jan 01 00:00 a.txt");
}

#[test]
fn group_only_line_drops_exactly_the_owner_field() {
    let mut long = Options::default();
    long.long_format = true;
    let mut group = long;
    group.group_only = true;
    let m = meta(false, 0o600);
    let with_owner = render_entry(&"a.txt".to_string(), &m, &long);
    let without_owner = render_entry(&"a.txt".to_string(), &m, &group);
    assert_eq!(without_owner, "-rw------- 1 100 42 Jan 01 00:00 a.txt");
    let n_long = with_owner.split(' ').count();
    let n_group = without_owner.split(' ').count();
    assert_eq!(n_long, n_group + 1);
}

#[test]
fn access_time_drives_the_displayed_time() {
    let mut o = Options::default();
    o.long_format = true;
    o.access_time = true;
    let mut m = meta(false, 0o600);
    m.atime = 1_000_000_000;
    let line = render_entry(&"f".to_string(), &m, &o);
    assert_eq!(line, "-rw------- 1 1000 100 42 Sep 09 01:46 f");
}

#[test]
fn type_suffix_marks_directories_and_executables() {
    let mut o = Options::default();
    o.show_type = true;
    assert_eq!(render_entry(&"sub".to_string(), &meta(true, 0o755), &o), "sub/");
    assert_eq!(render_entry(&"run".to_string(), &meta(false, 0o755), &o), "run*");
    assert_eq!(render_entry(&"doc".to_string(), &meta(false, 0o644), &o), "doc");
}
