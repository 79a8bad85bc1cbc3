//! The commands of the shell, what a parsed command is, and how a command
//! name is looked up.
use vstd::prelude::*;
use vstd::string::*;

use crate::err::{ParseError, ParseErrorView};
use crate::shell::Context;
use crate::text::views;

pub mod cd;
pub mod clear;
pub mod exit;
pub mod external;
pub mod ls;
pub mod pipe;
pub mod tofile;

verus! {

/// What the parser needs to know of the machine it runs on: the current
/// directory (or why it could not be read), and where each external command
/// name that the command line may use was found on the search path.
pub struct Env {
    pub cwd: Result<String, String>,
    pub externals: Vec<(String, String)>,
}

/// What an [`Env`] holds.
pub struct EnvView {
    pub cwd: Result<Seq<char>, Seq<char>>,
    pub externals: Seq<(Seq<char>, Seq<char>)>,
}

impl View for Env {
    type V = EnvView;

    open spec fn view(&self) -> EnvView {
        EnvView {
            cwd: match self.cwd {
                Ok(c) => Ok(c@),
                Err(e) => Err(e@),
            },
            externals: self.externals@.map_values(|p: (String, String)| (p.0@, p.1@)),
        }
    }
}

/// A parsed command, as a value.
pub enum CommandView {
    Cd { path: Seq<char> },
    Exit,
    External { path: Seq<char>, args: Seq<Seq<char>> },
    Pipe { stages: Seq<CommandView> },
    ToFile { cmd: Option<Box<CommandView>>, filename: Seq<char> },
    Clear,
}

/// A parsed command of any kind.
pub enum AnyCommand {
    Cd(cd::Cmd),
    Exit(exit::Cmd),
    External(external::Cmd),
    Pipe(pipe::Cmd),
    ToFile(tofile::Cmd),
    Clear(clear::Cmd),
}

pub open spec fn view_command(c: AnyCommand) -> CommandView
    decreases c,
{
    match c {
        AnyCommand::Cd(x) => CommandView::Cd { path: x.path@ },
        AnyCommand::Exit(_) => CommandView::Exit,
        AnyCommand::External(x) => CommandView::External { path: x.path@, args: views(x.args@) },
        AnyCommand::Pipe(x) => CommandView::Pipe { stages: view_commands(x.args@) },
        AnyCommand::ToFile(x) => CommandView::ToFile {
            cmd: match x.cmd {
                Some(b) => Some(Box::new(view_command(*b))),
                None => None,
            },
            filename: x.filename@,
        },
        AnyCommand::Clear(_) => CommandView::Clear,
    }
}

pub open spec fn view_commands(cs: Seq<AnyCommand>) -> Seq<CommandView>
    decreases cs,
{
    if cs.len() == 0 {
        seq![]
    } else {
        view_commands(cs.subrange(0, cs.len() - 1)).push(view_command(cs[cs.len() - 1]))
    }
}

/// The views of a sequence of commands, extended by one command.
pub proof fn lemma_view_commands_push(cs: Seq<AnyCommand>, c: AnyCommand)
    ensures
        view_commands(cs.push(c)) == view_commands(cs).push(c@),
{
    assert(cs.push(c).subrange(0, cs.len() as int) =~= cs);
    assert(cs.push(c)[cs.len() as int] == c);
}

impl View for AnyCommand {
    type V = CommandView;

    open spec fn view(&self) -> CommandView {
        view_command(*self)
    }
}

/// The result of parsing, as a value: a command, the error that stopped
/// the parse, the name of a built-in command that is not implemented, or the
/// name of a command that the parse needs and that was not found.
pub enum Outcome {
    Parsed(CommandView),
    Failed(ParseErrorView),
    Unimplemented(Seq<char>),
    Unavailable(Seq<char>),
}

/// The parse stops the program: it reached a reserved built-in that is not
/// implemented, or a command it needs was not found.
pub open spec fn aborts(o: Outcome) -> bool {
    o is Unimplemented || o is Unavailable
}

/// Why a parse did not produce a command.
#[derive(Debug)]
pub enum ParseFailure {
    /// The command line is not valid.
    Invalid(ParseError),
    /// The command line names a built-in command that is reserved but not
    /// implemented.
    Unimplemented(String),
    /// The command line needs the command of this name, which was not found.
    Unavailable(String),
}

pub open spec fn failure_outcome(f: ParseFailure) -> Outcome {
    match f {
        ParseFailure::Invalid(e) => Outcome::Failed(e@),
        ParseFailure::Unimplemented(n) => Outcome::Unimplemented(n@),
        ParseFailure::Unavailable(n) => Outcome::Unavailable(n@),
    }
}

/// The outcome that a parse result stands for.
pub open spec fn result_outcome(r: Result<AnyCommand, ParseFailure>) -> Outcome {
    match r {
        Ok(c) => Outcome::Parsed(c@),
        Err(f) => failure_outcome(f),
    }
}

/// The built-in command names that are reserved but not implemented.
pub open spec fn is_unimplemented(name: Seq<char>) -> bool {
    name == "export"@ || name == "alias"@ || name == "unset"@
}

/// Where `name` was found, by the first entry of `table` for it.
pub open spec fn resolve(table: Seq<(Seq<char>, Seq<char>)>, name: Seq<char>) -> Option<Seq<char>>
    decreases table.len(),
{
    if table.len() == 0 {
        None
    } else if table[0].0 == name {
        Some(table[0].1)
    } else {
        resolve(table.subrange(1, table.len() as int), name)
    }
}

/// The fresh command that a command name stands for, if any.
pub open spec fn template(name: Seq<char>, env: EnvView) -> Option<CommandView> {
    if name == "cd"@ {
        Some(CommandView::Cd { path: seq![] })
    } else if name == "exit"@ {
        Some(CommandView::Exit)
    } else {
        match resolve(env.externals, name) {
            Some(p) => Some(CommandView::External { path: p, args: seq![] }),
            None => None,
        }
    }
}

/// A command that can take its arguments from a command line.
pub trait Command: Sized {
    /// The inputs on which `parse` is defined.
    spec fn parse_requires(&self, env: EnvView, args: Seq<Seq<char>>) -> bool;

    /// Takes the command's arguments; a remark for the user may be added to
    /// `notes`.
    fn parse(
        &mut self,
        ctx: Context,
        env: &Env,
        args: Vec<String>,
        notes: &mut Vec<String>,
    ) -> (r: Result<(), ParseError>)
        requires
            old(self).parse_requires(env@, views(args@)),
    ;
}

/// Whether `name` is a reserved built-in that is not implemented.
pub fn unimplemented_name(name: &String) -> (r: bool)
    ensures
        r == is_unimplemented(name@),
{
    let export = String::from_str("export");
    let alias = String::from_str("alias");
    let unset = String::from_str("unset");
    *name == export || *name == alias || *name == unset
}

/// Where the external command `cmd_name` was found, by the first entry of
/// `env.externals` for it.
pub fn find_external(cmd_name: &str, env: &Env) -> (r: Option<String>)
    ensures
        match r {
            Some(p) => resolve(env@.externals, cmd_name@) == Some(p@),
            None => resolve(env@.externals, cmd_name@) is None,
        },
{
    let name = String::from_str(cmd_name);
    let ghost table = env@.externals;
    let mut i: usize = 0;
    assert(table.subrange(0, table.len() as int) =~= table);
    while i < env.externals.len()
        invariant
            i <= env.externals.len(),
            table == env@.externals,
            name@ == cmd_name@,
            resolve(table, cmd_name@) == resolve(table.subrange(i as int, table.len() as int), cmd_name@),
        decreases env.externals.len() - i,
    {
        let ghost rest = table.subrange(i as int, table.len() as int);
        assert(rest[0] == table[i as int]);
        assert(rest.subrange(1, rest.len() as int) =~= table.subrange(i + 1, table.len() as int));
        if env.externals[i].0 == name {
            return Some(env.externals[i].1.clone());
        }
        i += 1;
    }
    None
}

/// The fresh command that `cmd_name` stands for: `cd`, `exit`, or an
/// external command found on the search path; `None` for any other name.
pub fn get_template(cmd_name: &str, env: &Env) -> (r: Option<AnyCommand>)
    requires
        !is_unimplemented(cmd_name@),
    ensures
        match r {
            Some(c) => template(cmd_name@, env@) == Some(c@),
            None => template(cmd_name@, env@) is None,
        },
{
    let name = String::from_str(cmd_name);
    let cd_name = String::from_str("cd");
    let exit_name = String::from_str("exit");
    if name == cd_name {
        Some(AnyCommand::Cd(cd::Cmd::new()))
    } else if name == exit_name {
        Some(AnyCommand::Exit(exit::Cmd::new()))
    } else {
        match find_external(cmd_name, env) {
            Some(path) => {
                let c = external::Cmd::new(&path);
                assert(views(c.args@) =~= Seq::<Seq<char>>::empty());
                Some(AnyCommand::External(c))
            },
            None => None,
        }
    }
}

/// Law: the built-in names `cd` and `exit` always stand for the built-in
/// commands, whatever the search path holds: they are never looked up there.
pub proof fn law_builtins_are_not_looked_up(env: EnvView)
    ensures
        template("cd"@, env) == Some(CommandView::Cd { path: seq![] }),
        template("exit"@, env) == Some(CommandView::Exit),
{
    reveal_strlit("cd");
    reveal_strlit("exit");
    assert("exit"@ != "cd"@) by {
        assert("exit"@.len() != "cd"@.len());
    }
}

} // verus!
