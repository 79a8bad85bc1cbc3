//! Reading a command, or a pipeline of commands, from text.
use vstd::prelude::*;
use vstd::string::*;

use crate::command::cd::cd_target;
use crate::command::exit::exit_notes;
use crate::command::{
    aborts, get_template, is_unimplemented, resolve, result_outcome, template, unimplemented_name,
    AnyCommand, Command, CommandView, Env, EnvView, Outcome, ParseFailure,
};
use crate::err::{ParseError, ParseErrorView};
use crate::shell::Context;
use crate::text::{
    bar_sep, chars_of, has_char, join, join_ranges, lemma_pipe_segments, lemma_pipe_segments_join,
    lemma_split_len,
    pipe_segments, ranges_view, ranges_within, split, split_once, split_once_string, split_ranges,
    string_of_range, trim, trim_range, trim_string, views, words, words_of,
};

verus! {

/// The command name of `s` (the trimmed text before the first space) and the
/// text after that space.
pub open spec fn name_and_rest(s: Seq<char>) -> (Seq<char>, Seq<char>) {
    match split_once(s, ' ') {
        Some(p) => (trim(p.0), p.1),
        None => (trim(s), seq![]),
    }
}

/// The fresh command `t` (one that [`template`] gives) given the arguments
/// `args`: the outcome and the remarks for the user.
pub open spec fn leaf_parse(t: CommandView, env: EnvView, args: Seq<Seq<char>>) -> (
    Outcome,
    Seq<Seq<char>>,
) {
    match t {
        CommandView::Cd { .. } => match cd_target(env.cwd, args) {
            Ok(p) => (Outcome::Parsed(CommandView::Cd { path: p }), seq![]),
            Err(e) => (Outcome::Failed(e), seq![]),
        },
        CommandView::Exit => (Outcome::Parsed(CommandView::Exit), exit_notes(args)),
        CommandView::External { path, .. } => (
            Outcome::Parsed(CommandView::External { path, args }),
            seq![],
        ),
        _ => (Outcome::Parsed(t), seq![]),
    }
}

/// One command `s` (no pipe): its name picks the command, the words after
/// the first space are its arguments.
pub open spec fn single_spec(s: Seq<char>, env: EnvView) -> (Outcome, Seq<Seq<char>>) {
    let name = name_and_rest(s).0;
    if is_unimplemented(name) {
        (Outcome::Unimplemented(name), seq![])
    } else {
        match template(name, env) {
            None => (
                Outcome::Failed(
                    ParseErrorView { msg: "'"@ + name + "' unidentified"@, parsed_str: s },
                ),
                seq![],
            ),
            Some(t) => leaf_parse(t, env, words(name_and_rest(s).1)),
        }
    }
}

/// The two arguments that a pipeline `s` hands to the command named `pipe`:
/// all its segments but the last joined with `" | "`, and the last segment.
pub open spec fn pipe_args(s: Seq<char>) -> Seq<Seq<char>> {
    seq![join(pipe_segments(s).drop_last(), bar_sep()), pipe_segments(s).last()]
}

/// `s` as a pipeline, if it has more than one segment: the command named
/// `pipe` (which must be found) with the arguments [`pipe_args`].
pub open spec fn maybe_pipe_spec(s: Seq<char>, env: EnvView) -> Option<(Outcome, Seq<Seq<char>>)> {
    if pipe_segments(s).len() > 1 {
        Some(
            match template("pipe"@, env) {
                Some(t) => leaf_parse(t, env, pipe_args(s)),
                None => (Outcome::Unavailable("pipe"@), seq![]),
            },
        )
    } else {
        None
    }
}

/// `s` as a pipeline if it is one, else as a single command.
pub open spec fn side_spec(s: Seq<char>, env: EnvView) -> (Outcome, Seq<Seq<char>>) {
    match maybe_pipe_spec(s, env) {
        Some(r) => r,
        None => single_spec(s, env),
    }
}

/// Law: the two arguments that a pipeline hands to `pipe` read back as its
/// segments: the left one as all the segments but the last, the right one as
/// the last.
pub proof fn law_pipe_args_resegment(s: Seq<char>)
    requires
        pipe_segments(s).len() > 1,
    ensures
        pipe_segments(pipe_args(s)[0]) == pipe_segments(s).drop_last(),
        pipe_segments(pipe_args(s)[1]) == seq![pipe_segments(s).last()],
{
    let segs = pipe_segments(s);
    lemma_pipe_segments(s);
    let front = segs.drop_last();
    assert forall|k: int| 0 <= k < front.len() implies !has_char(#[trigger] front[k], '|') && trim(
        front[k],
    ) == front[k] by {
        assert(front[k] == segs[k]);
    }
    lemma_pipe_segments_join(front);
    let last = seq![segs.last()];
    assert(last[0] == segs[segs.len() - 1]);
    lemma_pipe_segments_join(last);
    assert(join(last, bar_sep()) == segs.last());
}

/// Law: a command line is read as a pipeline exactly when it holds a `|`.
pub proof fn law_pipeline_iff_bar(s: Seq<char>, env: EnvView)
    ensures
        maybe_pipe_spec(s, env) is Some <==> has_char(s, '|'),
{
    lemma_split_len(s, '|');
}

/// The fresh command `cmd` (one that [`get_template`] gives) given the
/// arguments `args`.
pub(crate) fn parse_leaf(
    cmd: AnyCommand,
    ctx: &Context,
    env: &Env,
    args: Vec<String>,
    notes: &mut Vec<String>,
) -> (r: Result<AnyCommand, ParseFailure>)
    requires
        cmd@ is Cd || cmd@ is Exit || cmd@ is External,
    ensures
        result_outcome(r) == leaf_parse(cmd@, env@, views(args@)).0,
        views(final(notes)@) == views(old(notes)@) + leaf_parse(cmd@, env@, views(args@)).1,
{
    let ghost before = notes@;
    match cmd {
        AnyCommand::Cd(mut c) => {
            let r = c.parse(ctx.clone(), env, args, notes);
            assert(views(notes@) =~= views(before) + Seq::<Seq<char>>::empty());
            match r {
                Ok(()) => Ok(AnyCommand::Cd(c)),
                Err(e) => Err(ParseFailure::Invalid(e)),
            }
        },
        AnyCommand::Exit(mut c) => {
            let _ = c.parse(ctx.clone(), env, args, notes);
            Ok(AnyCommand::Exit(c))
        },
        AnyCommand::External(mut c) => {
            let _ = c.parse(ctx.clone(), env, args, notes);
            assert(views(notes@) =~= views(before) + Seq::<Seq<char>>::empty());
            Ok(AnyCommand::External(c))
        },
        other => {
            proof {
                assert(false);
            }
            Ok(other)
        },
    }
}

/// `cmd_str` read as one command, or why not.
pub fn try_single_cmd(cmd_str: &str, ctx: &Context, env: &Env, notes: &mut Vec<String>) -> (r:
    Result<AnyCommand, ParseFailure>)
    ensures
        result_outcome(r) == single_spec(cmd_str@, env@).0,
        views(final(notes)@) == views(old(notes)@) + single_spec(cmd_str@, env@).1,
{
    let (name, rest) = name_and_rest_of(cmd_str);
    if unimplemented_name(&name) {
        assert(views(notes@) =~= views(notes@) + Seq::<Seq<char>>::empty());
        return Err(ParseFailure::Unimplemented(name));
    }
    match get_template(name.as_str(), env) {
        None => {
            let mut msg = String::from_str("'");
            msg.append(name.as_str());
            msg.append("' unidentified");
            assert(views(notes@) =~= views(notes@) + Seq::<Seq<char>>::empty());
            Err(ParseFailure::Invalid(ParseError::new(msg.as_str(), cmd_str)))
        },
        Some(cmd) => parse_leaf(cmd, ctx, env, words_of(rest.as_str()), notes),
    }
}

/// `cmd_str` read as one command: its name (the trimmed text before the
/// first space) picks the command, and the words after that space are its
/// arguments.
pub fn single_cmd(cmd_str: &str, ctx: &Context, env: &Env, notes: &mut Vec<String>) -> (r: Result<
    AnyCommand,
    ParseError,
>)
    requires
        !aborts(single_spec(cmd_str@, env@).0),
    ensures
        match r {
            Ok(c) => single_spec(cmd_str@, env@).0 == Outcome::Parsed(c@),
            Err(e) => single_spec(cmd_str@, env@).0 == Outcome::Failed(e@),
        },
        views(final(notes)@) == views(old(notes)@) + single_spec(cmd_str@, env@).1,
{
    match try_single_cmd(cmd_str, ctx, env, notes) {
        Ok(c) => Ok(c),
        Err(ParseFailure::Invalid(e)) => Err(e),
        Err(_) => {
            proof {
                assert(false);
            }
            Err(ParseError::new("", ""))
        },
    }
}

/// `cmd_str` read as a pipeline if it has more than one segment, else as a
/// single command.
pub fn try_side(cmd_str: &str, ctx: &Context, env: &Env, notes: &mut Vec<String>) -> (r: Result<
    AnyCommand,
    ParseFailure,
>)
    ensures
        result_outcome(r) == side_spec(cmd_str@, env@).0,
        views(final(notes)@) == views(old(notes)@) + side_spec(cmd_str@, env@).1,
{
    match try_maybe_pipe(cmd_str, ctx, env, notes) {
        Ok(Some(p)) => Ok(p),
        Ok(None) => try_single_cmd(cmd_str, ctx, env, notes),
        Err(f) => Err(f),
    }
}

/// `cmd_str` read as a pipeline when it holds a `|`, or why not: `None` when
/// it has a single segment.
pub fn try_maybe_pipe(cmd_str: &str, ctx: &Context, env: &Env, notes: &mut Vec<String>) -> (r:
    Result<Option<AnyCommand>, ParseFailure>)
    ensures
        match maybe_pipe_spec(cmd_str@, env@) {
            None => (r matches Ok(None)) && final(notes)@ == old(notes)@,
            Some(o) => {
                &&& match r {
                    Ok(Some(c)) => o.0 == Outcome::Parsed(c@),
                    Ok(None) => false,
                    Err(f) => result_outcome(Err(f)) == o.0,
                }
                &&& views(final(notes)@) == views(old(notes)@) + o.1
            },
        },
{
    let v = chars_of(cmd_str);
    let rs = split_ranges(&v, 0, v.len(), '|');
    proof {
        assert(v@.subrange(0, v@.len() as int) =~= v@);
    }
    let ghost segs = pipe_segments(cmd_str@);
    assert(segs.len() == rs@.len());
    let mut ts: Vec<(usize, usize)> = Vec::new();
    let mut k: usize = 0;
    while k < rs.len()
        invariant
            k <= rs.len(),
            v@ == cmd_str@,
            ranges_within(rs@, 0, v.len() as int),
            ranges_view(v@, rs@) == split(cmd_str@, '|'),
            ranges_within(ts@, 0, v.len() as int),
            ts@.len() == k,
            segs == pipe_segments(cmd_str@),
            segs.len() == rs@.len(),
            forall|j: int| 0 <= j < k ==> #[trigger] ranges_view(v@, ts@)[j] == segs[j],
        decreases rs.len() - k,
    {
        let (a, b) = rs[k];
        assert(rs@[k as int].0 <= rs@[k as int].1 <= v.len());
        let t = trim_range(&v, a, b);
        let ghost before = ts@;
        ts.push(t);
        proof {
            assert(ranges_view(v@, rs@)[k as int] == v@.subrange(a as int, b as int));
            assert(segs[k as int] == trim(split(cmd_str@, '|')[k as int]));
            assert(ranges_view(v@, ts@)[k as int] == v@.subrange(t.0 as int, t.1 as int));
            assert forall|j: int| 0 <= j < k + 1 implies #[trigger] ranges_view(v@, ts@)[j]
                == segs[j] by {
                if j < k {
                    assert(ts@[j] == before[j]);
                    assert(ranges_view(v@, before)[j] == segs[j]);
                    assert(ranges_view(v@, ts@)[j] == ranges_view(v@, before)[j]);
                }
            }
        }
        k += 1;
    }
    assert(ranges_view(v@, ts@) =~= segs);
    if ts.len() > 1 {
        proof {
            reveal_strlit("pipe");
            reveal_strlit("export");
            reveal_strlit("alias");
            reveal_strlit("unset");
            reveal_strlit("cd");
            reveal_strlit("exit");
            assert("pipe"@[0] != "export"@[0] && "pipe"@[0] != "alias"@[0] && "pipe"@[0]
                != "unset"@[0] && "pipe"@[0] != "cd"@[0] && "pipe"@[0] != "exit"@[0]);
        }
        let pipe = match get_template("pipe", env) {
            Some(t) => t,
            None => {
                return Err(ParseFailure::Unavailable(String::from_str("pipe")));
            },
        };
        let last = ts.pop().unwrap();
        assert(ranges_view(v@, ts@) =~= segs.drop_last());
        let l = join_ranges(&v, &ts, " | ");
        proof {
            reveal_strlit(" | ");
            assert(" | "@ =~= bar_sep());
        }
        assert(last.0 <= last.1 <= v.len());
        let r = string_of_range(&v, last.0, last.1);
        assert(r@ == segs.last());
        let pargs = vec![l, r];
        assert(views(pargs@) =~= pipe_args(cmd_str@));
        match parse_leaf(pipe, ctx, env, pargs, notes) {
            Ok(p) => Ok(Some(p)),
            Err(f) => Err(f),
        }
    } else {
        Ok(None)
    }
}

/// `cmd_str` read as a pipeline when it holds a `|`: the segments between the
/// `|` are trimmed, and the command named `pipe` gets two arguments, the
/// segments but the last joined with `" | "`, and the last segment; `None`
/// when there is a single segment.
pub fn maybe_pipe(cmd_str: &str, ctx: &Context, env: &Env, notes: &mut Vec<String>) -> (r: Result<
    Option<AnyCommand>,
    ParseError,
>)
    requires
        match maybe_pipe_spec(cmd_str@, env@) {
            Some(o) => !aborts(o.0),
            None => true,
        },
    ensures
        match maybe_pipe_spec(cmd_str@, env@) {
            None => (r matches Ok(None)) && final(notes)@ == old(notes)@,
            Some(o) => {
                &&& match r {
                    Ok(Some(c)) => o.0 == Outcome::Parsed(c@),
                    Ok(None) => false,
                    Err(e) => o.0 == Outcome::Failed(e@),
                }
                &&& views(final(notes)@) == views(old(notes)@) + o.1
            },
        },
{
    match try_maybe_pipe(cmd_str, ctx, env, notes) {
        Ok(c) => Ok(c),
        Err(ParseFailure::Invalid(e)) => Err(e),
        Err(_) => {
            proof {
                assert(false);
            }
            Err(ParseError::new("", ""))
        },
    }
}

/// The command names that reading `a` as a pipeline or a single command
/// looks up: `pipe` for a pipeline, the name of the command otherwise.
pub open spec fn side_names(a: Seq<char>) -> Seq<Seq<char>> {
    if pipe_segments(a).len() > 1 {
        seq!["pipe"@]
    } else {
        seq![name_and_rest(a).0]
    }
}

/// Reading a single command depends on the environment only through the
/// current directory and where its own name is found.
pub proof fn lemma_single_frame(s: Seq<char>, e1: EnvView, e2: EnvView)
    requires
        e1.cwd == e2.cwd,
        resolve(e1.externals, name_and_rest(s).0) == resolve(e2.externals, name_and_rest(s).0),
    ensures
        single_spec(s, e1) == single_spec(s, e2),
{
}

/// Reading a pipeline or a single command depends on the environment only
/// through the current directory and where the names of [`side_names`] are
/// found.
pub proof fn lemma_side_frame(a: Seq<char>, e1: EnvView, e2: EnvView)
    requires
        e1.cwd == e2.cwd,
        forall|k: int|
            0 <= k < side_names(a).len() ==> resolve(e1.externals, #[trigger] side_names(a)[k])
                == resolve(e2.externals, side_names(a)[k]),
    ensures
        side_spec(a, e1) == side_spec(a, e2),
{
    if pipe_segments(a).len() > 1 {
        assert(side_names(a)[0] == "pipe"@);
    } else {
        assert(side_names(a)[0] == name_and_rest(a).0);
        lemma_single_frame(a, e1, e2);
    }
}

/// The command name of `s` and the text after it (see [`name_and_rest`]).
pub fn name_and_rest_of(s: &str) -> (r: (String, String))
    ensures
        (r.0@, r.1@) == name_and_rest(s@),
{
    let (maybe_name, rest) = match split_once_string(s, ' ') {
        Some(p) => p,
        None => (String::from_str(s), String::new()),
    };
    (trim_string(maybe_name.as_str()), rest)
}

/// The segments of `s` as a pipeline (see [`pipe_segments`]).
pub fn segments_of(s: &str) -> (out: Vec<String>)
    ensures
        views(out@) == pipe_segments(s@),
{
    let v = chars_of(s);
    let rs = split_ranges(&v, 0, v.len(), '|');
    proof {
        assert(v@.subrange(0, v@.len() as int) =~= v@);
    }
    let ghost pieces = split(s@, '|');
    let mut out: Vec<String> = Vec::new();
    let mut k: usize = 0;
    while k < rs.len()
        invariant
            k <= rs.len(),
            v@ == s@,
            ranges_within(rs@, 0, v.len() as int),
            ranges_view(v@, rs@) == pieces,
            pieces == split(s@, '|'),
            views(out@) == pipe_segments(s@).take(k as int),
        decreases rs.len() - k,
    {
        let (a, b) = rs[k];
        assert(rs@[k as int].0 <= rs@[k as int].1 <= v.len());
        assert(pieces[k as int] == v@.subrange(a as int, b as int));
        let (ta, tb) = trim_range(&v, a, b);
        let t = string_of_range(&v, ta, tb);
        let ghost before = out@;
        out.push(t);
        assert(views(out@) =~= views(before).push(t@));
        assert(pipe_segments(s@).take(k + 1) =~= pipe_segments(s@).take(k as int).push(
            trim(pieces[k as int]),
        ));
        k += 1;
    }
    assert(pipe_segments(s@).take(rs.len() as int) =~= pipe_segments(s@));
    out
}

/// The command names that reading `s` as a pipeline or a single command
/// looks up (see [`side_names`]).
pub fn side_names_of(s: &str) -> (out: Vec<String>)
    ensures
        views(out@) == side_names(s@),
{
    let segs = segments_of(s);
    let mut out: Vec<String> = Vec::new();
    if segs.len() > 1 {
        out.push(String::from_str("pipe"));
    } else {
        let (name, _) = name_and_rest_of(s);
        out.push(name);
    }
    assert(views(out@) =~= side_names(s@));
    out
}

} // verus!
