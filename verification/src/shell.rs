//! The shell: its mode, its context, and how it reads one command line.
use vstd::prelude::*;
use vstd::string::*;

use crate::command::{
    aborts, get_template, resolve, result_outcome, template, AnyCommand, Env, EnvView, Outcome,
    ParseFailure,
};
use crate::err::ParseError;
use crate::parser::{
    law_pipeline_iff_bar, leaf_parse, lemma_side_frame, parse_leaf, side_names, side_names_of,
    side_spec, single_spec, try_side,
};
use crate::text::{has_char, is_first, split_once, split_once_string, trim, trim_string, views};

verus! {

/// How the shell takes its commands.
pub enum ShellMode {
    /// One command line, given up front.
    OneLiner(String),
    /// Command lines typed at a prompt, until `exit`.
    Full,
    /// The command lines of a file.
    File(String),
}

/// A shell: its mode and the context its commands share.
pub struct Shell {
    pub mode: ShellMode,
    pub ctx: Context,
}

/// The state that commands share while they run.
#[derive(Clone, Copy)]
pub struct Context {
    pub done: bool,
    pub forked: bool,
}

impl Context {
    pub fn new() -> (c: Self)
        ensures
            !c.done,
            !c.forked,
    {
        Context { done: false, forked: false }
    }
}

/// A whole command line: with a `>`, the command named `tofile` (which must
/// be found) gets two arguments, the trimmed text before the first `>` and
/// the trimmed text after it; otherwise the line is a pipeline or a single
/// command.
pub open spec fn shell_parse_spec(s: Seq<char>, env: EnvView) -> (Outcome, Seq<Seq<char>>) {
    match split_once(s, '>') {
        Some(p) => match template("tofile"@, env) {
            Some(t) => leaf_parse(t, env, seq![trim(p.0), trim(p.1)]),
            None => (Outcome::Unavailable("tofile"@), seq![]),
        },
        None => side_spec(s, env),
    }
}

impl Shell {
    /// An interactive shell.
    pub fn new() -> (s: Self)
        ensures
            s.mode is Full,
            !s.ctx.done,
            !s.ctx.forked,
    {
        Shell { mode: ShellMode::Full, ctx: Context::new() }
    }

    /// A shell in the given mode.
    pub fn from_mode(mode: ShellMode) -> (s: Self)
        ensures
            s.mode == mode,
            !s.ctx.done,
            !s.ctx.forked,
    {
        Shell { mode, ctx: Context::new() }
    }

    /// Reads the command line `cmd_str`, or says why not; remarks for the
    /// user are added to `notes`.
    pub fn try_parse(&self, cmd_str: &str, env: &Env, notes: &mut Vec<String>) -> (r: Result<
        AnyCommand,
        ParseFailure,
    >)
        ensures
            result_outcome(r) == shell_parse_spec(cmd_str@, env@).0,
            views(final(notes)@) == views(old(notes)@) + shell_parse_spec(cmd_str@, env@).1,
    {
        match split_once_string(cmd_str, '>') {
            Some((cmd, filename)) => {
                proof {
                    reveal_strlit("tofile");
                    reveal_strlit("export");
                    reveal_strlit("alias");
                    reveal_strlit("unset");
                    reveal_strlit("cd");
                    reveal_strlit("exit");
                    assert("tofile"@[0] != "export"@[0] && "tofile"@[0] != "alias"@[0]
                        && "tofile"@[0] != "unset"@[0] && "tofile"@[0] != "cd"@[0]
                        && "tofile"@[0] != "exit"@[0]);
                }
                let to_file = match get_template("tofile", env) {
                    Some(t) => t,
                    None => {
                        assert(views(notes@) =~= views(notes@) + Seq::<Seq<char>>::empty());
                        return Err(ParseFailure::Unavailable(String::from_str("tofile")));
                    },
                };
                let c = trim_string(cmd.as_str());
                let f = trim_string(filename.as_str());
                let ghost args = seq![c@, f@];
                let targs = vec![c, f];
                assert(views(targs@) =~= args);
                parse_leaf(to_file, &self.ctx, env, targs, notes)
            },
            None => try_side(cmd_str, &self.ctx, env, notes),
        }
    }

    /// Reads the command line `cmd_str`: `cmd > file` redirects the output of
    /// `cmd` to `file`; otherwise the line is a pipeline or a single command.
    /// Remarks for the user are added to `notes`.
    pub fn parse(&self, cmd_str: &str, env: &Env, notes: &mut Vec<String>) -> (r: Result<
        AnyCommand,
        ParseError,
    >)
        requires
            !aborts(shell_parse_spec(cmd_str@, env@).0),
        ensures
            match r {
                Ok(c) => shell_parse_spec(cmd_str@, env@).0 == Outcome::Parsed(c@),
                Err(e) => shell_parse_spec(cmd_str@, env@).0 == Outcome::Failed(e@),
            },
            views(final(notes)@) == views(old(notes)@) + shell_parse_spec(cmd_str@, env@).1,
    {
        match self.try_parse(cmd_str, env, notes) {
            Ok(c) => Ok(c),
            Err(ParseFailure::Invalid(e)) => Err(e),
            Err(_) => {
                proof {
                    assert(false);
                }
                Err(ParseError::new("", ""))
            },
        }
    }
}

/// The command names that reading the command line `s` looks up on the
/// search path: `tofile` for a line with a `>`, else those of
/// [`side_names`].
pub open spec fn line_names(s: Seq<char>) -> Seq<Seq<char>> {
    match split_once(s, '>') {
        Some(p) => seq!["tofile"@],
        None => side_names(s),
    }
}

/// The command names that reading the command line `cmd_str` looks up on the
/// search path: where they are found is all that the parse needs to know of
/// the search path (see [`law_parse_reads_only_line_names`]).
pub fn lookup_names(cmd_str: &str) -> (out: Vec<String>)
    ensures
        views(out@) == line_names(cmd_str@),
{
    match split_once_string(cmd_str, '>') {
        Some(_) => {
            let out = vec![String::from_str("tofile")];
            assert(views(out@) =~= line_names(cmd_str@));
            out
        },
        None => side_names_of(cmd_str),
    }
}

/// Law: reading a command line depends on the machine only through the
/// current directory and where the names of [`line_names`] are found; two
/// environments that agree on these give the same outcome and remarks.
pub proof fn law_parse_reads_only_line_names(s: Seq<char>, e1: EnvView, e2: EnvView)
    requires
        e1.cwd == e2.cwd,
        forall|k: int|
            0 <= k < line_names(s).len() ==> resolve(e1.externals, #[trigger] line_names(s)[k])
                == resolve(e2.externals, line_names(s)[k]),
    ensures
        shell_parse_spec(s, e1) == shell_parse_spec(s, e2),
{
    match split_once(s, '>') {
        Some(p) => {
            assert(line_names(s)[0] == "tofile"@);
        },
        None => {
            assert(line_names(s) == side_names(s));
            lemma_side_frame(s, e1, e2);
        },
    }
}

/// Law: a command line with neither `>` nor `|` is read as a single command.
pub proof fn law_plain_line_is_single(s: Seq<char>, env: EnvView)
    requires
        !has_char(s, '>'),
        !has_char(s, '|'),
    ensures
        shell_parse_spec(s, env) == single_spec(s, env),
{
    law_pipeline_iff_bar(s, env);
    if exists|i: int| is_first(s, '>', i) {
        let i = choose|i: int| is_first(s, '>', i);
        assert(s[i] == '>');
    }
}

} // verus!
