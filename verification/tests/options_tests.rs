use mini_ls::options::{parse_args, Options};

fn strings(words: &[&str]) -> Vec<String> {
    words.iter().map(|w| w.to_string()).collect()
}

#[test]
fn no_arguments_gives_defaults() {
    let (opts, path) = parse_args(&strings(&[]));
    assert_eq!(opts, Options::default());
    assert_eq!(path, ".");
}

#[test]
fn each_flag_sets_its_field() {
    let (opts, path) = parse_args(&strings(&[
        "-a", "-l", "-d", "-t", "-r", "-R", "-u", "-F", "-f",
    ]));
    assert!(opts.show_hidden);
    assert!(opts.long_format);
    assert!(opts.directories_only);
    assert!(opts.sort_by_time);
    assert!(opts.reverse_order);
    assert!(opts.recursive);
    assert!(opts.access_time);
    assert!(opts.show_type);
    assert!(opts.unsorted);
    assert!(!opts.group_only);
    assert_eq!(path, ".");
}

#[test]
fn group_flag_forces_long_format() {
    let (opts, _) = parse_args(&strings(&["-g"]));
    assert!(opts.long_format);
    assert!(opts.group_only);
    assert!(!opts.show_hidden);
}

#[test]
fn flags_are_idempotent() {
    let (once, _) = parse_args(&strings(&["-a", "-t"]));
    let (twice, _) = parse_args(&strings(&["-a", "-t", "-a", "-t"]));
    assert_eq!(once, twice);
}

#[test]
fn last_path_wins() {
    let (opts, path) = parse_args(&strings(&["first", "-l", "second"]));
    assert!(opts.long_format);
    assert_eq!(path, "second");
}

#[test]
fn unknown_flag_becomes_the_path() {
    let (opts, path) = parse_args(&strings(&["-z"]));
    assert_eq!(opts, Options::default());
    assert_eq!(path, "-z");
}
