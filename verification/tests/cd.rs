use std::path::{Component, PathBuf};
use tsh::command::cd::{pathify, Cmd};
use tsh::command::{Command, Env};
use tsh::Context;

fn env(cwd: &str) -> Env {
    Env { cwd: Ok(String::from(cwd)), externals: Vec::new() }
}

fn parse(args: &[&str], env: &Env) -> Result<String, String> {
    let mut c = Cmd::new();
    let mut notes = Vec::new();
    let args = args.iter().map(|s| s.to_string()).collect();
    match c.parse(Context::new(), env, args, &mut notes) {
        Ok(()) => {
            assert!(notes.is_empty());
            Ok(c.path)
        }
        Err(e) => Err(e.to_string()),
    }
}

#[test]
fn pathify_resolves_dots() {
    assert_eq!(pathify("/a/./b/../c/"), "/a/c");
    assert_eq!(pathify("a//b"), "a/b");
    assert_eq!(pathify(".."), "");
    assert_eq!(pathify("/.."), "/");
    assert_eq!(pathify("/"), "/");
    assert_eq!(pathify("."), "");
    assert_eq!(pathify(""), "");
    assert_eq!(pathify("/x/y/../../.."), "/");
    assert_eq!(pathify("a/../../b"), "b");
    assert_eq!(pathify("/a/.../b"), "/a/.../b");
}

#[test]
fn pathify_is_idempotent() {
    for p in ["/a/./b/../c/", "a//b/..", "/..", "..", "", "x/./y", "//a//"] {
        let once = pathify(p);
        assert_eq!(pathify(&once), once, "{}", p);
    }
}

#[test]
fn cd_targets() {
    let e = env("/home/u");
    assert_eq!(parse(&[], &e), Ok(String::from("")));
    assert_eq!(parse(&["."], &e), Ok(String::from("/home/u")));
    assert_eq!(parse(&["/tmp/../usr/"], &e), Ok(String::from("/usr")));
    assert_eq!(parse(&["docs/../src"], &e), Ok(String::from("/home/u/src")));
    assert_eq!(parse(&[".."], &e), Ok(String::from("/home")));
    assert_eq!(parse(&["../../.."], &e), Ok(String::from("/")));
}

#[test]
fn cd_too_many_arguments() {
    let e = env("/home/u");
    assert_eq!(
        parse(&["a", "b"], &e),
        Err(String::from("failed to parse 'cd': too many arguments"))
    );
}

#[test]
fn cd_without_current_directory() {
    let e = Env { cwd: Err(String::from("No such file or directory")), externals: Vec::new() };
    assert_eq!(
        parse(&["x"], &e),
        Err(String::from("failed to parse 'cd': No such file or directory"))
    );
}

#[test]
fn cd_check_decisions() {
    let mut c = Cmd::new();
    c.path = String::from("/tmp");
    assert!(c.check(Ok(true), true).is_ok());
    assert_eq!(
        c.check(Ok(true), false).unwrap_err().to_string(),
        "failed to execute cmd 'cd': path found, but it is not a dir"
    );
    assert_eq!(
        c.check(Ok(false), false).unwrap_err().to_string(),
        "failed to execute cmd 'cd': path not found"
    );
    assert_eq!(
        c.check(Err(String::from("denied")), false).unwrap_err().to_string(),
        "failed to execute cmd 'cd': denied"
    );
}

/// The path normalisation of `std::path`, component by component.
fn std_pathify(path: &std::path::Path) -> std::path::PathBuf {
    let mut out = PathBuf::new();
    for component in path.components() {
        match component {
            Component::CurDir => {}
            Component::ParentDir => {
                out.pop();
            }
            other => out.push(other.as_os_str()),
        }
    }
    out
}

#[test]
fn pathify_agrees_with_std_components() {
    let parts = ["", "/", ".", "..", "a", "bc", "...", ".x", "//"];
    let mut cases = Vec::new();
    for a in parts {
        for b in parts {
            for c in parts {
                cases.push(format!("{a}/{b}/{c}"));
                cases.push(format!("{a}{b}/{c}"));
                cases.push(format!("{a}/{b}{c}"));
            }
        }
    }
    for p in cases {
        let expected = std_pathify(std::path::Path::new(&p));
        assert_eq!(pathify(&p), expected.to_string_lossy(), "{p}");
    }
}

#[test]
fn cd_target_agrees_with_std_join() {
    let e = env("/home/u");
    for rel in ["x", "x/../y", "./a/./b", "../../..", "a//b/", "..."] {
        let expected = std_pathify(&std::path::Path::new("/home/u").join(rel));
        assert_eq!(parse(&[rel], &e), Ok(expected.to_string_lossy().into_owned()), "{rel}");
    }
}
