//! A program found on the search path, run with arguments.
use vstd::prelude::*;

use crate::command::{Command, Env, EnvView};
use crate::err::{ExecuteError, ExecuteErrorView, ParseError};
use crate::shell::Context;
use crate::text::views;

verus! {

/// Runs the program at `path` with `args`.
pub struct Cmd {
    pub path: String,
    pub args: Vec<String>,
}

/// How a program is to be started.
#[derive(Debug, PartialEq, Eq)]
pub enum Launch {
    /// As a child process that the shell waits for.
    Spawn,
    /// In place of the current process, which is a forked child of the shell.
    Replace,
}

impl Cmd {
    pub fn new(path: &String) -> (c: Self)
        ensures
            c.path@ == path@,
            c.args@.len() == 0,
    {
        Cmd { path: path.clone(), args: Vec::new() }
    }

    /// How to start the program: in a process of its own unless the shell
    /// runs in a forked child, in which case the child becomes the program and
    /// the context is no longer marked as forked.
    pub fn launch(&self, ctx: &mut Context) -> (r: Launch)
        ensures
            r == (if old(ctx).forked {
                Launch::Replace
            } else {
                Launch::Spawn
            }),
            !final(ctx).forked,
            final(ctx).done == old(ctx).done,
    {
        if !ctx.forked {
            Launch::Spawn
        } else {
            ctx.forked = false;
            Launch::Replace
        }
    }

    /// The error for a program that could not be started, with the reason
    /// `msg`.
    pub fn failure(&self, msg: &str) -> (e: ExecuteError)
        ensures
            e@ == (ExecuteErrorView { msg: msg@, cmd_name: self.path@ }),
    {
        ExecuteError::new(msg, self.path.as_str())
    }
}

impl Command for Cmd {
    open spec fn parse_requires(&self, env: EnvView, args: Seq<Seq<char>>) -> bool {
        true
    }

    /// Keeps the arguments as they are.
    fn parse(
        &mut self,
        ctx: Context,
        env: &Env,
        args: Vec<String>,
        notes: &mut Vec<String>,
    ) -> (r: Result<(), ParseError>)
        ensures
            r is Ok,
            final(self).path == old(self).path,
            views(final(self).args@) == views(args@),
            final(notes)@ == old(notes)@,
    {
        self.args = args;
        Ok(())
    }
}

} // verus!
