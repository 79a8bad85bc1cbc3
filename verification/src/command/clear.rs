//! `clear`: clear the terminal.
use vstd::prelude::*;
use vstd::string::*;

use crate::command::{Command, Env, EnvView};
use crate::err::ParseError;
use crate::shell::Context;
use crate::text::views;

verus! {

/// Clears the terminal and puts the cursor at the top left.
pub struct Cmd {}

/// The remark that parsing `clear` with arguments `args` leaves for the user.
pub open spec fn clear_notes(args: Seq<Seq<char>>) -> Seq<Seq<char>> {
    if args.len() > 0 {
        seq!["clear: No arguments required"@]
    } else {
        seq![]
    }
}

impl Cmd {
    pub fn new() -> Self {
        Cmd {  }
    }
}

impl Command for Cmd {
    open spec fn parse_requires(&self, env: EnvView, args: Seq<Seq<char>>) -> bool {
        true
    }

    /// Accepts any arguments; when there are some, it says that none are
    /// needed.
    fn parse(
        &mut self,
        ctx: Context,
        env: &Env,
        args: Vec<String>,
        notes: &mut Vec<String>,
    ) -> (r: Result<(), ParseError>)
        ensures
            r is Ok,
            views(final(notes)@) == views(old(notes)@) + clear_notes(views(args@)),
    {
        let ghost before = notes@;
        if args.len() > 0 {
            notes.push(String::from_str("clear: No arguments required"));
            assert(views(notes@) =~= views(before) + clear_notes(views(args@)));
        } else {
            assert(views(notes@) =~= views(before) + clear_notes(views(args@)));
        }
        Ok(())
    }
}

} // verus!
