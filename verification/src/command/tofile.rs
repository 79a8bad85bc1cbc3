//! `a > file`: run a command with its output written to a file.
use vstd::prelude::*;

use crate::command::{
    aborts, failure_outcome, view_command, AnyCommand, Command, CommandView, Env, EnvView, Outcome,
    ParseFailure,
};
use crate::err::{ExecuteError, ExecuteErrorView, ParseError, ParseErrorView};
use crate::parser::{law_pipeline_iff_bar, maybe_pipe_spec, side_spec, single_spec, try_side};
use crate::text::has_char;
use crate::shell::Context;
use crate::text::views;

verus! {

/// Runs `cmd` with its output written to the file `filename`.
pub struct Cmd {
    pub cmd: Option<Box<AnyCommand>>,
    pub filename: String,
}

/// Parsing a redirection from its arguments (the command line and the file
/// name): the outcome and the remarks for the user.
pub open spec fn tofile_parse_spec(env: EnvView, args: Seq<Seq<char>>) -> (
    Outcome,
    Seq<Seq<char>>,
) {
    if args.len() != 2 {
        (
            Outcome::Failed(
                ParseErrorView {
                    msg: "wrong number of arguments (2 needed)"@,
                    parsed_str: "tofile"@,
                },
            ),
            seq![],
        )
    } else {
        let s = side_spec(args[0], env);
        match s.0 {
            Outcome::Parsed(v) => (
                Outcome::Parsed(CommandView::ToFile { cmd: Some(Box::new(v)), filename: args[1] }),
                s.1,
            ),
            o => (o, s.1),
        }
    }
}

impl Cmd {
    pub fn new() -> (c: Self)
        ensures
            c.cmd is None,
            c.filename@ == Seq::<char>::empty(),
    {
        Cmd { cmd: None, filename: String::new() }
    }

    /// Reads the command (a pipeline or a single command) and keeps the file
    /// name; or says why not, leaving the redirection as it was.
    pub fn try_parse(
        &mut self,
        ctx: Context,
        env: &Env,
        args: Vec<String>,
        notes: &mut Vec<String>,
    ) -> (r: Result<(), ParseFailure>)
        ensures
            ({
                let sp = tofile_parse_spec(env@, views(args@));
                &&& views(final(notes)@) == views(old(notes)@) + sp.1
                &&& match r {
                    Ok(()) => sp.0 == Outcome::Parsed(view_command(AnyCommand::ToFile(*final(self)))),
                    Err(f) => failure_outcome(f) == sp.0 && *final(self) == *old(self),
                }
            }),
    {
        let ghost a = views(args@);
        if args.len() != 2 {
            assert(views(notes@) =~= views(notes@) + Seq::<Seq<char>>::empty());
            return Err(
                ParseFailure::Invalid(
                    ParseError::new("wrong number of arguments (2 needed)", "tofile"),
                ),
            );
        }
        assert(a[0] == args@[0]@ && a[1] == args@[1]@);
        let c = match try_side(args[0].as_str(), &ctx, env, notes) {
            Ok(c) => c,
            Err(f) => {
                return Err(f);
            },
        };
        self.cmd = Some(Box::new(c));
        self.filename = args[1].clone();
        Ok(())
    }

    /// The command to run, or the error when there is none.
    pub fn target(&self) -> (r: Result<&AnyCommand, ExecuteError>)
        ensures
            match self.cmd {
                Some(c) => r == Ok::<&AnyCommand, ExecuteError>(&*c),
                None => (r matches Err(e) && e@ == (ExecuteErrorView {
                    msg: "could not find command to execute"@,
                    cmd_name: "tofile"@,
                })),
            },
    {
        match &self.cmd {
            Some(c) => Ok(&**c),
            None => Err(ExecuteError::new("could not find command to execute", "tofile")),
        }
    }
}

impl Command for Cmd {
    open spec fn parse_requires(&self, env: EnvView, args: Seq<Seq<char>>) -> bool {
        !aborts(tofile_parse_spec(env, args).0)
    }

    /// Reads the command (a pipeline or a single command) and keeps the file
    /// name.
    fn parse(
        &mut self,
        ctx: Context,
        env: &Env,
        args: Vec<String>,
        notes: &mut Vec<String>,
    ) -> (r: Result<(), ParseError>)
        ensures
            ({
                let sp = tofile_parse_spec(env@, views(args@));
                &&& views(final(notes)@) == views(old(notes)@) + sp.1
                &&& match r {
                    Ok(()) => sp.0 == Outcome::Parsed(view_command(AnyCommand::ToFile(*final(self)))),
                    Err(e) => sp.0 == Outcome::Failed(e@) && *final(self) == *old(self),
                }
            }),
    {
        match self.try_parse(ctx, env, args, notes) {
            Ok(()) => Ok(()),
            Err(ParseFailure::Invalid(e)) => Err(e),
            Err(_) => {
                proof {
                    assert(false);
                }
                Err(ParseError::new("", ""))
            },
        }
    }
}

/// Law: the command of a redirection is read as a pipeline when it holds a
/// `|` (as `maybe_pipe` reads it) and as a single command otherwise (as
/// `single_cmd` reads it); the file is the second argument.
pub proof fn law_redirected_command(env: EnvView, cmd: Seq<char>, file: Seq<char>)
    ensures
        ({
            let r = tofile_parse_spec(env, seq![cmd, file]);
            let inner = if has_char(cmd, '|') {
                maybe_pipe_spec(cmd, env).unwrap()
            } else {
                single_spec(cmd, env)
            };
            &&& r.1 == inner.1
            &&& match inner.0 {
                Outcome::Parsed(v) => r.0 == Outcome::Parsed(
                    CommandView::ToFile { cmd: Some(Box::new(v)), filename: file },
                ),
                o => r.0 == o,
            }
        }),
{
    law_pipeline_iff_bar(cmd, env);
    assert(seq![cmd, file][0] == cmd && seq![cmd, file][1] == file);
}

} // verus!
