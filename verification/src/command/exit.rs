//! `exit`: end the shell.
use vstd::prelude::*;
use vstd::string::*;

use crate::command::{Command, Env, EnvView};
use crate::err::{ExecuteError, ParseError};
use crate::shell::Context;
use crate::text::views;

verus! {

/// Ends the shell.
pub struct Cmd {}

/// The remark that parsing `exit` with arguments `args` leaves for the user.
pub open spec fn exit_notes(args: Seq<Seq<char>>) -> Seq<Seq<char>> {
    if args.len() > 0 {
        seq!["exit: No arguments required"@]
    } else {
        seq![]
    }
}

impl Cmd {
    pub fn new() -> Self {
        Cmd {  }
    }

    /// Marks the shell as done.
    pub fn execute(&self, ctx: &mut Context) -> (r: Result<(), ExecuteError>)
        ensures
            r is Ok,
            final(ctx).done,
            final(ctx).forked == old(ctx).forked,
    {
        ctx.done = true;
        Ok(())
    }
}

impl Command for Cmd {
    open spec fn parse_requires(&self, env: EnvView, args: Seq<Seq<char>>) -> bool {
        true
    }

    /// Accepts any arguments; when there are some, it says that none are
    /// needed.
    fn parse(
        &mut self,
        ctx: Context,
        env: &Env,
        args: Vec<String>,
        notes: &mut Vec<String>,
    ) -> (r: Result<(), ParseError>)
        ensures
            r is Ok,
            views(final(notes)@) == views(old(notes)@) + exit_notes(views(args@)),
    {
        let ghost before = notes@;
        if args.len() > 0 {
            notes.push(String::from_str("exit: No arguments required"));
            assert(views(notes@) =~= views(before) + exit_notes(views(args@)));
        } else {
            assert(views(notes@) =~= views(before) + exit_notes(views(args@)));
        }
        Ok(())
    }
}

} // verus!
