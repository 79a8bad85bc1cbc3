//! `a | b`: run two commands with the output of the first as the input of
//! the second.
use vstd::prelude::*;

use crate::command::{
    aborts, failure_outcome, lemma_view_commands_push, view_commands, AnyCommand, Command,
    CommandView, Env, EnvView, Outcome, ParseFailure,
};
use crate::err::{ParseError, ParseErrorView};
use crate::parser::{side_spec, try_side};
use crate::shell::Context;
use crate::text::views;

verus! {

/// Runs `args[0]` with its output fed to `args[1]`.
pub struct Cmd {
    pub args: Vec<AnyCommand>,
}

/// Parsing a pipe from its arguments (the left and the right command line):
/// the outcome, the commands it adds to the pipe (also on failure, those read
/// before it), and the remarks for the user.
pub open spec fn pipe_parse_spec(env: EnvView, args: Seq<Seq<char>>) -> (
    Outcome,
    Seq<CommandView>,
    Seq<Seq<char>>,
) {
    if args.len() != 2 {
        (
            Outcome::Failed(
                ParseErrorView {
                    msg: "wrong number of arguments (needs 2)"@,
                    parsed_str: "pipe"@,
                },
            ),
            seq![],
            seq![],
        )
    } else {
        let l = side_spec(args[0], env);
        match l.0 {
            Outcome::Parsed(lv) => {
                let r = side_spec(args[1], env);
                match r.0 {
                    Outcome::Parsed(rv) => (
                        Outcome::Parsed(CommandView::Pipe { stages: seq![lv, rv] }),
                        seq![lv, rv],
                        l.1 + r.1,
                    ),
                    o => (o, seq![lv], l.1 + r.1),
                }
            },
            o => (o, seq![], l.1),
        }
    }
}

impl Cmd {
    pub fn new() -> (c: Self)
        ensures
            c.args@.len() == 0,
    {
        Cmd { args: Vec::new() }
    }

    /// Reads the two sides of the pipe, left first, each as a pipeline or a
    /// single command, and adds them to the pipe; or says why not.
    pub fn try_parse(
        &mut self,
        ctx: Context,
        env: &Env,
        args: Vec<String>,
        notes: &mut Vec<String>,
    ) -> (r: Result<(), ParseFailure>)
        ensures
            ({
                let sp = pipe_parse_spec(env@, views(args@));
                &&& view_commands(final(self).args@) == view_commands(old(self).args@) + sp.1
                &&& views(final(notes)@) == views(old(notes)@) + sp.2
                &&& match r {
                    Ok(()) => sp.0 is Parsed,
                    Err(f) => failure_outcome(f) == sp.0,
                }
            }),
    {
        let ghost a = views(args@);
        let ghost old_stages = view_commands(self.args@);
        if args.len() != 2 {
            assert(view_commands(self.args@) =~= old_stages + Seq::<CommandView>::empty());
            assert(views(notes@) =~= views(notes@) + Seq::<Seq<char>>::empty());
            return Err(
                ParseFailure::Invalid(ParseError::new("wrong number of arguments (needs 2)", "pipe")),
            );
        }
        assert(a[0] == args@[0]@ && a[1] == args@[1]@);
        let c0 = match try_side(args[0].as_str(), &ctx, env, notes) {
            Ok(c) => c,
            Err(f) => {
                assert(view_commands(self.args@) =~= old_stages + Seq::<CommandView>::empty());
                return Err(f);
            },
        };
        proof {
            lemma_view_commands_push(self.args@, c0);
        }
        self.args.push(c0);
        let c1 = match try_side(args[1].as_str(), &ctx, env, notes) {
            Ok(c) => c,
            Err(f) => {
                assert(view_commands(self.args@) =~= old_stages + seq![c0@]);
                assert(views(notes@) =~= views(old(notes)@) + side_spec(a[0], env@).1 + side_spec(
                    a[1],
                    env@,
                ).1);
                return Err(f);
            },
        };
        proof {
            lemma_view_commands_push(self.args@, c1);
        }
        self.args.push(c1);
        assert(view_commands(self.args@) =~= old_stages + seq![c0@, c1@]);
        Ok(())
    }
}

impl Command for Cmd {
    open spec fn parse_requires(&self, env: EnvView, args: Seq<Seq<char>>) -> bool {
        !aborts(pipe_parse_spec(env, args).0)
    }

    /// Reads the two sides of the pipe, left first, each as a pipeline or a
    /// single command, and adds them to the pipe.
    fn parse(
        &mut self,
        ctx: Context,
        env: &Env,
        args: Vec<String>,
        notes: &mut Vec<String>,
    ) -> (r: Result<(), ParseError>)
        ensures
            ({
                let sp = pipe_parse_spec(env@, views(args@));
                &&& view_commands(final(self).args@) == view_commands(old(self).args@) + sp.1
                &&& views(final(notes)@) == views(old(notes)@) + sp.2
                &&& match r {
                    Ok(()) => sp.0 is Parsed,
                    Err(e) => sp.0 == Outcome::Failed(e@),
                }
            }),
    {
        match self.try_parse(ctx, env, args, notes) {
            Ok(()) => Ok(()),
            Err(ParseFailure::Invalid(e)) => Err(e),
            Err(_) => {
                proof {
                    assert(false);
                }
                Err(ParseError::new("", ""))
            },
        }
    }
}

} // verus!
