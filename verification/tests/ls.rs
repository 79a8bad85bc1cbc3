use tsh::command::ls::{entry_type, get, is_listed, metadata_text, parse, settings};

fn args(v: &[&str]) -> Vec<String> {
    v.iter().map(|s| s.to_string()).collect()
}

fn names(c: &tsh::command::ls::Cmd) -> Vec<String> {
    c.flags.iter().map(|f| f.0.clone()).collect()
}

#[test]
fn ls_without_arguments_lists_current_directory() {
    let c = parse(vec![]).ok().unwrap();
    assert_eq!(c.args, vec!["."]);
    assert!(c.flags.is_empty());
    let g = get();
    assert!(g.args.is_empty() && g.flags.is_empty());
}

#[test]
fn ls_flags_and_directories() {
    let c = parse(args(&["-la", "src", "-", "docs"])).ok().unwrap();
    assert_eq!(names(&c), vec!["l", "a"]);
    assert!(c.flags.iter().all(|f| f.1.is_none()));
    assert_eq!(c.args, vec!["src", "docs"]);
    let c = parse(args(&["-l"])).ok().unwrap();
    assert!(c.args.is_empty());
}

#[test]
fn ls_repeated_flag() {
    let e = parse(args(&["-l", "x", "-al"])).err().unwrap();
    assert_eq!(e.to_string(), "failed to parse 'ls -l': -l flag was already set");
}

#[test]
fn ls_unknown_flag() {
    let e = parse(args(&["-lz"])).err().unwrap();
    assert_eq!(e.to_string(), "failed to parse 'ls -z': unidentified flag");
}

#[test]
fn ls_flags_are_distinct() {
    for a in [&["-l", "-a"][..], &["-al"][..], &["-a", "x", "-l"][..]] {
        let c = parse(args(a)).ok().unwrap();
        let mut n = names(&c);
        n.sort();
        n.dedup();
        assert_eq!(n.len(), c.flags.len());
    }
}

#[test]
fn ls_settings() {
    let c = parse(args(&["-a"])).ok().unwrap();
    assert_eq!(settings(&c.flags), (true, false));
    let c = parse(args(&["-la"])).ok().unwrap();
    assert_eq!(settings(&c.flags), (true, true));
    assert_eq!(settings(&vec![]), (false, false));
}

#[test]
fn ls_hidden_entries() {
    assert!(!is_listed(".git", false));
    assert!(is_listed(".git", true));
    assert!(is_listed("src", false));
    assert!(is_listed("", false));
}

#[test]
fn ls_entry_types() {
    assert_eq!(entry_type(true, false, false), ('d', true));
    assert_eq!(entry_type(false, true, false), ('-', false));
    assert_eq!(entry_type(false, false, true), ('s', false));
}

#[test]
fn ls_metadata_line() {
    assert_eq!(
        metadata_text(0o754, 2, Some("root"), None, 42, "Jan  1 00:00"),
        "rwxr-xr-- 2   root   42 Jan  1 00:00 "
    );
    assert_eq!(
        metadata_text(0o100644, 12, Some("someuser"), Some("staff"), 123456, "Mar 10 09:05"),
        "rw-r--r-- 12 someuser  staff 123456 Mar 10 09:05 "
    );
    assert_eq!(metadata_text(0, 0, None, None, 0, "d"), "--------- 0    0 d ");
}
