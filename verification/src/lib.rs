//! `tsh`, a small Unix shell: the command language, its parser, and the
//! decisions the shell takes while it runs commands.
use vstd::prelude::*;
use vstd::string::*;

pub mod command;
pub mod err;
pub mod parser;
pub mod shell;
pub mod text;

pub use command::Command;
pub use err::{ExecuteError, ParseError};
pub use shell::{Context, Shell, ShellMode};

verus! {

/// The help that the shell prints for a wrong invocation.
pub open spec fn help_spec(err_msg: Seq<char>) -> Seq<char> {
    "error: "@ + err_msg + "\nusage: tsh [-e <COMMAND> | -f <PATH>]"@
}

/// The help for a wrong invocation: the error, then the usage, on two lines.
pub fn help_text(err_msg: &str) -> (s: String)
    ensures
        s@ == help_spec(err_msg@),
{
    let mut s = String::from_str("error: ");
    s.append(err_msg);
    s.append("\nusage: tsh [-e <COMMAND> | -f <PATH>]");
    s
}

/// The mode that the flag `args[1]` asks for, with its value `args[2]`:
/// `-e` runs one command line, `-f` the command lines of a file.
pub fn parse_flags(args: &Vec<String>) -> (r: Result<ShellMode, String>)
    requires
        args.len() >= 2,
        args@[1]@ == "-e"@ || args@[1]@ == "-f"@ ==> args.len() >= 3,
    ensures
        args@[1]@ == "-e"@ ==> (r matches Ok(ShellMode::OneLiner(c)) && c@ == args@[2]@),
        args@[1]@ == "-f"@ ==> (r matches Ok(ShellMode::File(p)) && p@ == args@[2]@),
        args@[1]@ != "-e"@ && args@[1]@ != "-f"@ ==> (r matches Err(e) && e@
            == "Incorrect specified flag"@),
{
    let e_flag = String::from_str("-e");
    let f_flag = String::from_str("-f");
    proof {
        reveal_strlit("-e");
        reveal_strlit("-f");
        assert("-e"@[1] != "-f"@[1]);
    }
    if args[1] == e_flag {
        Ok(ShellMode::OneLiner(args[2].clone()))
    } else if args[1] == f_flag {
        Ok(ShellMode::File(args[2].clone()))
    } else {
        Err(String::from_str("Incorrect specified flag"))
    }
}

/// The shell that the command line `args` asks for, or the help to print: no
/// arguments give an interactive shell, `-e <COMMAND>` and `-f <PATH>` the
/// other modes.
pub fn run(args: Vec<String>) -> (r: Result<Shell, String>)
    ensures
        args.len() == 1 ==> (r matches Ok(s) && s.mode is Full && !s.ctx.done && !s.ctx.forked),
        args.len() == 3 && args@[1]@ == "-e"@ ==> (r matches Ok(s) && s.mode matches ShellMode::OneLiner(c) && c@ == args@[2]@ && !s.ctx.done && !s.ctx.forked),
        args.len() == 3 && args@[1]@ == "-f"@ ==> (r matches Ok(s) && s.mode matches ShellMode::File(p) && p@ == args@[2]@ && !s.ctx.done && !s.ctx.forked),
        args.len() == 3 && args@[1]@ != "-e"@ && args@[1]@ != "-f"@ ==> (r matches Err(h) && h@ == help_spec("Incorrect specified flag"@)),
        args.len() != 1 && args.len() != 3 ==> (r matches Err(h) && h@ == help_spec("Incorrect number of arguments"@)),
{
    if args.len() == 1 {
        Ok(Shell::new())
    } else if args.len() == 3 {
        match parse_flags(&args) {
            Ok(mode) => Ok(Shell::from_mode(mode)),
            Err(msg) => Err(help_text(msg.as_str())),
        }
    } else {
        Err(help_text("Incorrect number of arguments"))
    }
}

} // verus!
