use tsh::command::pipe;
use tsh::command::tofile;
use tsh::command::{get_template, AnyCommand, Command, Env, ParseFailure};
use tsh::parser::{maybe_pipe, segments_of, single_cmd, try_maybe_pipe, try_single_cmd};
use tsh::shell::lookup_names;
use tsh::{Context, Shell};

fn env() -> Env {
    Env {
        cwd: Ok(String::from("/home/u")),
        externals: vec![
            (String::from("ls"), String::from("/bin/ls")),
            (String::from("wc"), String::from("/usr/bin/wc")),
            (String::from("grep"), String::from("/bin/grep")),
            (String::from("ls"), String::from("/usr/local/bin/ls")),
            (String::from("pipe"), String::from("/opt/bin/pipe")),
            (String::from("tofile"), String::from("/opt/bin/tofile")),
        ],
    }
}

fn external(c: &AnyCommand) -> (String, Vec<String>) {
    match c {
        AnyCommand::External(x) => (x.path.clone(), x.args.clone()),
        _ => panic!("not an external command"),
    }
}

#[test]
fn templates() {
    let e = env();
    assert!(matches!(get_template("cd", &e), Some(AnyCommand::Cd(_))));
    assert!(matches!(get_template("exit", &e), Some(AnyCommand::Exit(_))));
    let ls = get_template("ls", &e).unwrap();
    assert_eq!(external(&ls), (String::from("/bin/ls"), vec![]));
    assert!(get_template("nope", &e).is_none());
    assert!(get_template("clear", &e).is_none());
    let p = get_template("pipe", &e).unwrap();
    assert_eq!(external(&p), (String::from("/opt/bin/pipe"), vec![]));
}

#[test]
fn single_external_command_takes_its_words() {
    let e = env();
    let mut notes = Vec::new();
    let c = single_cmd("ls   -l  a\tb ", &Context::new(), &e, &mut notes).unwrap();
    assert_eq!(
        external(&c),
        (String::from("/bin/ls"), vec![String::from("-l"), String::from("a"), String::from("b")])
    );
    assert!(notes.is_empty());
}

#[test]
fn single_unknown_command() {
    let e = env();
    let mut notes = Vec::new();
    let err = single_cmd("frob x", &Context::new(), &e, &mut notes).err().unwrap();
    assert_eq!(err.to_string(), "failed to parse 'frob x': 'frob' unidentified");
}

#[test]
fn single_leading_space_gives_empty_name() {
    let e = env();
    let mut notes = Vec::new();
    let err = single_cmd(" ls", &Context::new(), &e, &mut notes).err().unwrap();
    assert_eq!(err.to_string(), "failed to parse ' ls': '' unidentified");
}

#[test]
fn exit_with_arguments_leaves_a_note() {
    let e = env();
    let mut notes = Vec::new();
    let c = single_cmd("exit now", &Context::new(), &e, &mut notes).unwrap();
    assert!(matches!(c, AnyCommand::Exit(_)));
    assert_eq!(notes, vec![String::from("exit: No arguments required")]);
}

#[test]
fn reserved_builtins_are_unimplemented() {
    let e = env();
    for line in ["export A=1", "alias", "unset X"] {
        let mut notes = Vec::new();
        match try_single_cmd(line, &Context::new(), &e, &mut notes) {
            Err(ParseFailure::Unimplemented(n)) => {
                assert_eq!(n, line.split(' ').next().unwrap())
            }
            _ => panic!("expected an unimplemented built-in"),
        }
    }
}

fn strings(v: &[&str]) -> Vec<String> {
    v.iter().map(|s| s.to_string()).collect()
}

fn env_without(names: &[&str]) -> Env {
    let mut e = env();
    e.externals.retain(|(n, _)| !names.contains(&n.as_str()));
    e
}

#[test]
fn no_pipe_gives_none() {
    let e = env();
    let mut notes = Vec::new();
    assert!(maybe_pipe("ls -l", &Context::new(), &e, &mut notes).unwrap().is_none());
}

#[test]
fn pipeline_goes_to_the_pipe_command() {
    let e = env();
    let mut notes = Vec::new();
    let p = maybe_pipe("ls -l|grep x |  wc ", &Context::new(), &e, &mut notes).unwrap().unwrap();
    assert_eq!(
        external(&p),
        (String::from("/opt/bin/pipe"), strings(&["ls -l | grep x", "wc"]))
    );
    assert!(notes.is_empty());
}

#[test]
fn pipeline_segments_are_not_parsed() {
    let e = env();
    let mut notes = Vec::new();
    let p = maybe_pipe("exit 1 | frob", &Context::new(), &e, &mut notes).unwrap().unwrap();
    assert_eq!(external(&p), (String::from("/opt/bin/pipe"), strings(&["exit 1", "frob"])));
    assert!(notes.is_empty());
}

#[test]
fn pipeline_with_empty_segment() {
    let e = env();
    let mut notes = Vec::new();
    let p = maybe_pipe("ls |", &Context::new(), &e, &mut notes).unwrap().unwrap();
    assert_eq!(external(&p), (String::from("/opt/bin/pipe"), strings(&["ls", ""])));
}

#[test]
fn pipeline_needs_the_pipe_command() {
    let e = env_without(&["pipe"]);
    let mut notes = Vec::new();
    match try_maybe_pipe("ls | wc", &Context::new(), &e, &mut notes) {
        Err(ParseFailure::Unavailable(n)) => assert_eq!(n, "pipe"),
        _ => panic!("expected the pipe command to be missing"),
    }
}

#[test]
fn pipe_arguments_read_back_as_segments() {
    for line in ["a | b | c", "x|y", " p |  q r | s | t "] {
        let segs = segments_of(line);
        let e = env();
        let mut notes = Vec::new();
        let p = maybe_pipe(line, &Context::new(), &e, &mut notes).unwrap().unwrap();
        let (_, args) = external(&p);
        assert_eq!(segments_of(&args[0]), segs[..segs.len() - 1].to_vec());
        assert_eq!(segments_of(&args[1]), vec![segs[segs.len() - 1].clone()]);
    }
}

#[test]
fn pipe_command_reads_both_sides() {
    let e = env();
    let mut p = pipe::Cmd::new();
    let mut notes = Vec::new();
    p.parse(Context::new(), &e, strings(&["ls | grep x", "wc -l"]), &mut notes).unwrap();
    assert_eq!(p.args.len(), 2);
    assert_eq!(external(&p.args[0]), (String::from("/opt/bin/pipe"), strings(&["ls", "grep x"])));
    assert_eq!(external(&p.args[1]), (String::from("/usr/bin/wc"), strings(&["-l"])));
}

#[test]
fn pipe_command_stops_at_the_first_failure() {
    let e = env();
    let mut p = pipe::Cmd::new();
    let mut notes = Vec::new();
    let err = p
        .parse(Context::new(), &e, strings(&["exit now", "frob"]), &mut notes)
        .err()
        .unwrap();
    assert_eq!(err.to_string(), "failed to parse 'frob': 'frob' unidentified");
    assert_eq!(p.args.len(), 1);
    assert!(matches!(p.args[0], AnyCommand::Exit(_)));
    assert_eq!(notes, vec![String::from("exit: No arguments required")]);
}

#[test]
fn pipe_needs_two_arguments() {
    let e = env();
    let mut p = pipe::Cmd::new();
    let mut notes = Vec::new();
    let err = p
        .parse(Context::new(), &e, vec![String::from("ls")], &mut notes)
        .err()
        .unwrap();
    assert_eq!(err.to_string(), "failed to parse 'pipe': wrong number of arguments (needs 2)");
    assert!(p.args.is_empty());
}

#[test]
fn tofile_command_reads_its_command_and_file() {
    let e = env();
    let mut t = tofile::Cmd::new();
    let mut notes = Vec::new();
    t.parse(Context::new(), &e, strings(&["wc -l", "out.txt"]), &mut notes).unwrap();
    assert_eq!(t.filename, "out.txt");
    assert_eq!(external(t.target().unwrap()), (String::from("/usr/bin/wc"), strings(&["-l"])));
}

#[test]
fn tofile_needs_two_arguments() {
    let e = env();
    let mut t = tofile::Cmd::new();
    let mut notes = Vec::new();
    let err = t.parse(Context::new(), &e, vec![], &mut notes).err().unwrap();
    assert_eq!(err.to_string(), "failed to parse 'tofile': wrong number of arguments (2 needed)");
    assert!(t.cmd.is_none());
    assert_eq!(
        t.target().err().unwrap().to_string(),
        "failed to execute cmd 'tofile': could not find command to execute"
    );
}

#[test]
fn redirection_goes_to_the_tofile_command() {
    let e = env();
    let sh = Shell::new();
    let mut notes = Vec::new();
    let c = sh.parse(" ls | wc -l >  out.txt > x ", &e, &mut notes).unwrap();
    assert_eq!(
        external(&c),
        (String::from("/opt/bin/tofile"), strings(&["ls | wc -l", "out.txt > x"]))
    );
}

#[test]
fn redirection_needs_the_tofile_command() {
    let e = env_without(&["tofile"]);
    let sh = Shell::new();
    let mut notes = Vec::new();
    match sh.try_parse("ls > f", &e, &mut notes) {
        Err(ParseFailure::Unavailable(n)) => assert_eq!(n, "tofile"),
        _ => panic!("expected the tofile command to be missing"),
    }
}

#[test]
fn shell_parse_single_command() {
    let e = env();
    let sh = Shell::new();
    let mut notes = Vec::new();
    let c = sh.parse("cd ..", &e, &mut notes).unwrap();
    let AnyCommand::Cd(cd) = c else { panic!("not cd") };
    assert_eq!(cd.path, "/home");
}

#[test]
fn shell_try_parse_reports_unimplemented() {
    let e = env();
    let sh = Shell::new();
    let mut notes = Vec::new();
    assert!(matches!(
        sh.try_parse("unset PATH", &e, &mut notes),
        Err(ParseFailure::Unimplemented(_))
    ));
    // In a pipeline the segments go to `pipe` unread.
    assert!(sh.try_parse("ls | export", &e, &mut notes).is_ok());
}

#[test]
fn names_looked_up() {
    assert_eq!(lookup_names("ls -l | grep x | wc > f"), vec!["tofile"]);
    assert_eq!(lookup_names("ls | wc"), vec!["pipe"]);
    assert_eq!(lookup_names("cd /tmp"), vec!["cd"]);
    assert_eq!(lookup_names(" ls"), vec![""]);
}

#[test]
fn parse_reads_only_the_looked_up_names() {
    let full = env();
    let sh = Shell::new();
    for line in ["ls | wc > f", "ls | wc", "grep -v x", "cd /"] {
        let names = lookup_names(line);
        let narrow = Env {
            cwd: full.cwd.clone(),
            externals: full.externals.iter().filter(|(n, _)| names.contains(n)).cloned().collect(),
        };
        let (mut n1, mut n2) = (Vec::new(), Vec::new());
        let a = sh.parse(line, &full, &mut n1).unwrap();
        let b = sh.parse(line, &narrow, &mut n2).unwrap();
        match (a, b) {
            (AnyCommand::External(a), AnyCommand::External(b)) => {
                assert_eq!((a.path, a.args), (b.path, b.args))
            }
            (AnyCommand::Cd(a), AnyCommand::Cd(b)) => assert_eq!(a.path, b.path),
            _ => panic!("different commands"),
        }
        assert_eq!(n1, n2);
    }
}

#[test]
fn a_line_is_a_pipeline_exactly_when_it_holds_a_bar() {
    let e = env();
    let mut notes = Vec::new();
    for (line, is_pipe) in [("ls | wc", true), ("|", true), ("ls wc", false), ("", false)] {
        let r = maybe_pipe(line, &Context::new(), &e, &mut notes).unwrap();
        assert_eq!(r.is_some(), is_pipe, "{line:?}");
    }
    let p = maybe_pipe("|", &Context::new(), &e, &mut notes).unwrap().unwrap();
    assert_eq!(external(&p), (String::from("/opt/bin/pipe"), strings(&["", ""])));
}

#[test]
fn a_plain_line_is_a_single_command() {
    let e = env();
    let sh = Shell::new();
    for line in ["ls -l a", "grep  x  y", "frob", "exit x"] {
        let (mut n1, mut n2) = (Vec::new(), Vec::new());
        let a = sh.parse(line, &e, &mut n1);
        let b = single_cmd(line, &Context::new(), &e, &mut n2);
        match (a, b) {
            (Ok(AnyCommand::External(a)), Ok(AnyCommand::External(b))) => {
                assert_eq!((a.path, a.args), (b.path, b.args))
            }
            (Ok(AnyCommand::Exit(_)), Ok(AnyCommand::Exit(_))) => {}
            (Err(a), Err(b)) => assert_eq!(a.to_string(), b.to_string()),
            _ => panic!("different results for {line:?}"),
        }
        assert_eq!(n1, n2);
    }
}
