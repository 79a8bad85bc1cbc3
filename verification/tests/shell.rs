use tsh::command::exit;
use tsh::command::external::{self, Launch};
use tsh::{help_text, parse_flags, run, Context, ExecuteError, ParseError, Shell, ShellMode};

fn args(v: &[&str]) -> Vec<String> {
    v.iter().map(|s| s.to_string()).collect()
}

#[test]
fn run_without_arguments_is_interactive() {
    let s = run(args(&["tsh"])).ok().unwrap();
    assert!(matches!(s.mode, ShellMode::Full));
    assert!(!s.ctx.done && !s.ctx.forked);
}

#[test]
fn run_one_liner_and_file() {
    let s = run(args(&["tsh", "-e", "ls -l"])).ok().unwrap();
    assert!(matches!(s.mode, ShellMode::OneLiner(ref c) if c == "ls -l"));
    let s = run(args(&["tsh", "-f", "script.sh"])).ok().unwrap();
    assert!(matches!(s.mode, ShellMode::File(ref p) if p == "script.sh"));
}

#[test]
fn run_wrong_flag() {
    assert_eq!(
        run(args(&["tsh", "-x", "y"])).err().unwrap(),
        "error: Incorrect specified flag\nusage: tsh [-e <COMMAND> | -f <PATH>]"
    );
}

#[test]
fn run_wrong_number_of_arguments() {
    for a in [&["tsh", "-e"][..], &["tsh", "-e", "ls", "x"][..], &[][..]] {
        assert_eq!(
            run(args(a)).err().unwrap(),
            "error: Incorrect number of arguments\nusage: tsh [-e <COMMAND> | -f <PATH>]"
        );
    }
}

#[test]
fn flags() {
    assert!(matches!(parse_flags(&args(&["tsh", "-e", "x"])), Ok(ShellMode::OneLiner(_))));
    assert!(matches!(parse_flags(&args(&["tsh", "-f", "x"])), Ok(ShellMode::File(_))));
    assert_eq!(parse_flags(&args(&["tsh", "-q"])).err().unwrap(), "Incorrect specified flag");
}

#[test]
fn help() {
    assert_eq!(help_text("boom"), "error: boom\nusage: tsh [-e <COMMAND> | -f <PATH>]");
}

#[test]
fn error_messages() {
    assert_eq!(ParseError::new("bad", "x y").to_string(), "failed to parse 'x y': bad");
    assert_eq!(
        ExecuteError::new("gone", "ls").to_string(),
        "failed to execute cmd 'ls': gone"
    );
}

#[test]
fn shells_start_fresh() {
    let s = Shell::new();
    assert!(matches!(s.mode, ShellMode::Full));
    let s = Shell::from_mode(ShellMode::OneLiner(String::from("ls")));
    assert!(matches!(s.mode, ShellMode::OneLiner(_)));
    assert!(!s.ctx.done && !s.ctx.forked);
    let c = Context::new();
    assert!(!c.done && !c.forked);
}

#[test]
fn exit_marks_the_shell_done() {
    let mut ctx = Context::new();
    ctx.forked = true;
    assert!(exit::Cmd::new().execute(&mut ctx).is_ok());
    assert!(ctx.done);
    assert!(ctx.forked);
}

#[test]
fn external_launch() {
    let c = external::Cmd::new(&String::from("/bin/ls"));
    let mut ctx = Context::new();
    assert_eq!(c.launch(&mut ctx), Launch::Spawn);
    assert!(!ctx.forked);
    ctx.forked = true;
    assert_eq!(c.launch(&mut ctx), Launch::Replace);
    assert!(!ctx.forked);
    assert_eq!(
        c.failure("No such file").to_string(),
        "failed to execute cmd '/bin/ls': No such file"
    );
}
