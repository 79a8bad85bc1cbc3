//! `cd`: change the current directory.
use vstd::prelude::*;
use vstd::string::*;

use crate::command::{Command, Env, EnvView};
use crate::err::{ExecuteError, ExecuteErrorView, ParseError, ParseErrorView};
use crate::shell::Context;
use crate::text::{
    chars_of, has_char, join, join_ranges, lemma_split_pieces, lemma_split_plain,
    lemma_split_scan_plain, lemma_split_scan_sep, push_char, ranges_view, ranges_within, split,
    split_ranges, split_scan, views,
};

verus! {

/// Changes the current directory to `path`.
pub struct Cmd {
    pub path: String,
}

/// The normal components of a path after `.` and `..` are resolved, left to
/// right: `.` and empty components are dropped, `..` removes the component
/// before it (and nothing at the top).
pub open spec fn resolve_dots(segs: Seq<Seq<char>>) -> Seq<Seq<char>>
    decreases segs.len(),
{
    if segs.len() == 0 {
        seq![]
    } else {
        let acc = resolve_dots(segs.drop_last());
        let x = segs.last();
        if x.len() == 0 || x == seq!['.'] {
            acc
        } else if x == seq!['.', '.'] {
            if acc.len() > 0 {
                acc.drop_last()
            } else {
                acc
            }
        } else {
            acc.push(x)
        }
    }
}

/// A path that starts at the root.
pub open spec fn is_rooted(p: Seq<char>) -> bool {
    p.len() > 0 && p[0] == '/'
}

/// `p` with `.` and `..` resolved and separators normalised.
pub open spec fn pathify_spec(p: Seq<char>) -> Seq<char> {
    (if is_rooted(p) {
        seq!['/']
    } else {
        seq![]
    }) + join(resolve_dots(split(p, '/')), seq!['/'])
}

/// The directory that `cd` with arguments `args` goes to, given the current
/// directory (or why it could not be read).
pub open spec fn cd_target(cwd: Result<Seq<char>, Seq<char>>, args: Seq<Seq<char>>) -> Result<
    Seq<char>,
    ParseErrorView,
> {
    if args.len() > 1 {
        Err(ParseErrorView { msg: "too many arguments"@, parsed_str: "cd"@ })
    } else {
        match cwd {
            Err(e) => Err(ParseErrorView { msg: e, parsed_str: "cd"@ }),
            Ok(cwd) => Ok(
                pathify_spec(
                    if args.len() == 0 {
                        "."@
                    } else if args[0] == "."@ {
                        cwd
                    } else if args[0].len() > 0 && args[0][0] == '/' {
                        args[0]
                    } else {
                        cwd + seq!['/'] + args[0]
                    },
                ),
            ),
        }
    }
}

/// The path `p` with `.` and `..` resolved (one `/` between components, no
/// `/` at the end).
pub fn pathify(p: &str) -> (r: String)
    ensures
        r@ == pathify_spec(p@),
{
    let v = chars_of(p);
    let rs = split_ranges(&v, 0, v.len(), '/');
    proof {
        assert(v@.subrange(0, v@.len() as int) =~= v@);
    }
    let ghost segs = ranges_view(v@, rs@);
    let mut acc: Vec<(usize, usize)> = Vec::new();
    let mut k: usize = 0;
    while k < rs.len()
        invariant
            k <= rs.len(),
            segs == ranges_view(v@, rs@),
            ranges_within(rs@, 0, v.len() as int),
            ranges_within(acc@, 0, v.len() as int),
            ranges_view(v@, acc@) == resolve_dots(segs.take(k as int)),
        decreases rs.len() - k,
    {
        let (a, b) = rs[k];
        assert(rs@[k as int].0 <= rs@[k as int].1 <= v.len());
        let ghost x = v@.subrange(a as int, b as int);
        assert(segs[k as int] == x);
        assert(segs.take(k + 1).drop_last() =~= segs.take(k as int));
        assert(segs.take(k + 1).last() == x);
        let ghost before = acc@;
        if b == a || (b == a + 1 && v[a] == '.') {
            assert(x.len() == 0 || x =~= seq!['.']);
        } else if b - a == 2 && v[a] == '.' && v[a + 1] == '.' {
            assert(x =~= seq!['.', '.']);
            assert(x != seq!['.']);
            if acc.len() > 0 {
                acc.pop();
                assert(ranges_view(v@, acc@) =~= ranges_view(v@, before).drop_last());
            }
        } else {
            assert(x.len() != 0);
            assert(x != seq!['.']) by {
                if x == seq!['.'] {
                    assert(x.len() == 1 && x[0] == v@[a as int]);
                }
            }
            assert(x != seq!['.', '.']) by {
                if x == seq!['.', '.'] {
                    assert(x.len() == 2 && x[0] == v@[a as int] && x[1] == v@[a + 1]);
                }
            }
            acc.push((a, b));
            assert(ranges_view(v@, acc@) =~= ranges_view(v@, before).push(x));
        }
        k += 1;
    }
    assert(segs.take(rs.len() as int) =~= segs);
    let mut out = if v.len() > 0 && v[0] == '/' {
        let s = String::from_str("/");
        proof {
            reveal_strlit("/");
        }
        s
    } else {
        String::new()
    };
    let tail = join_ranges(&v, &acc, "/");
    proof {
        reveal_strlit("/");
    }
    out.append(tail.as_str());
    proof {
        reveal_strlit("/");
        assert("/"@ =~= seq!['/']);
        assert(split(v@, '/') == segs);
        assert(ranges_view(v@, acc@) == resolve_dots(split(p@, '/')));
        if v@.len() > 0 && v@[0] == '/' {
            assert(out@ =~= seq!['/'] + tail@);
        } else {
            assert(out@ =~= tail@);
        }
    }
    out
}

/// What running `cd` decides from what the file system says of the target:
/// `None` means go there, `Some` is the error.
pub open spec fn check_spec(exists: Result<bool, Seq<char>>, is_dir: bool) -> Option<
    ExecuteErrorView,
> {
    match exists {
        Ok(true) => if is_dir {
            None
        } else {
            Some(ExecuteErrorView { msg: "path found, but it is not a dir"@, cmd_name: "cd"@ })
        },
        Ok(false) => Some(ExecuteErrorView { msg: "path not found"@, cmd_name: "cd"@ }),
        Err(m) => Some(ExecuteErrorView { msg: m, cmd_name: "cd"@ }),
    }
}

impl Cmd {
    pub fn new() -> (c: Self)
        ensures
            c.path@ == Seq::<char>::empty(),
    {
        Cmd { path: String::new() }
    }

    /// What running `cd` decides from what the file system says of the
    /// target: whether it exists (or why that could not be told) and whether
    /// it is a directory. `Ok` means: change to `self.path`.
    pub fn check(&self, exists: Result<bool, String>, is_dir: bool) -> (r: Result<(), ExecuteError>)
        ensures
            match check_spec(
                match exists {
                    Ok(b) => Ok(b),
                    Err(m) => Err(m@),
                },
                is_dir,
            ) {
                None => r is Ok,
                Some(ev) => (r matches Err(e) && e@ == ev),
            },
    {
        match exists {
            Ok(true) => if is_dir {
                Ok(())
            } else {
                Err(ExecuteError::new("path found, but it is not a dir", "cd"))
            },
            Ok(false) => Err(ExecuteError::new("path not found", "cd")),
            Err(m) => Err(ExecuteError::new(m.as_str(), "cd")),
        }
    }
}

impl Command for Cmd {
    open spec fn parse_requires(&self, env: EnvView, args: Seq<Seq<char>>) -> bool {
        true
    }

    /// Takes the target directory: none means `.`, `.` means the current
    /// directory, a path from the root is kept, any other path is taken from
    /// the current directory; `.` and `..` are then resolved.
    fn parse(
        &mut self,
        ctx: Context,
        env: &Env,
        args: Vec<String>,
        notes: &mut Vec<String>,
    ) -> (r: Result<(), ParseError>)
        ensures
            final(notes)@ == old(notes)@,
            match cd_target(env@.cwd, views(args@)) {
                Ok(p) => r is Ok && final(self).path@ == p,
                Err(ev) => (r matches Err(e) && e@ == ev && final(self).path == old(self).path),
            },
    {
        if args.len() > 1 {
            return Err(ParseError::new("too many arguments", "cd"));
        }
        let cwd = match &env.cwd {
            Ok(c) => c,
            Err(e) => {
                return Err(ParseError::new(e.as_str(), "cd"));
            },
        };
        let dot = String::from_str(".");
        let raw: String = if args.len() == 0 {
            dot
        } else {
            assert(views(args@)[0] == args@[0]@);
            if args[0] == dot {
                cwd.clone()
            } else {
                let a = args[0].as_str();
                if a.unicode_len() > 0 && a.get_char(0) == '/' {
                    assert(args@[0]@.len() > 0 && args@[0]@[0] == '/');
                    args[0].clone()
                } else {
                    let mut s = cwd.clone();
                    push_char(&mut s, '/');
                    s.append(a);
                    assert(s@ =~= cwd@ + seq!['/'] + args@[0]@);
                    s
                }
            }
        };
        self.path = pathify(raw.as_str());
        Ok(())
    }
}

/// A component that `.`/`..` resolution keeps as it is.
pub open spec fn is_normal(x: Seq<char>) -> bool {
    x.len() > 0 && x != seq!['.'] && x != seq!['.', '.'] && !has_char(x, '/')
}

proof fn lemma_resolve_dots_normal(segs: Seq<Seq<char>>)
    requires
        forall|k: int| 0 <= k < segs.len() ==> !has_char(#[trigger] segs[k], '/'),
    ensures
        forall|k: int|
            0 <= k < resolve_dots(segs).len() ==> is_normal(#[trigger] resolve_dots(segs)[k]),
    decreases segs.len(),
{
    if segs.len() > 0 {
        let front = segs.drop_last();
        assert forall|k: int| 0 <= k < front.len() implies !has_char(#[trigger] front[k], '/') by {
            assert(front[k] == segs[k]);
        }
        lemma_resolve_dots_normal(front);
        assert(segs.last() == segs[segs.len() - 1]);
        let acc = resolve_dots(front);
        let x = segs.last();
        if !(x.len() == 0 || x == seq!['.']) && !(x == seq!['.', '.']) {
            assert(resolve_dots(segs) == acc.push(x));
            assert forall|k: int| 0 <= k < acc.push(x).len() implies is_normal(
                #[trigger] acc.push(x)[k],
            ) by {
                if k < acc.len() {
                    assert(acc.push(x)[k] == acc[k]);
                }
            }
        } else if x == seq!['.', '.'] && acc.len() > 0 {
            assert(resolve_dots(segs) == acc.drop_last());
            assert forall|k: int| 0 <= k < acc.drop_last().len() implies is_normal(
                #[trigger] acc.drop_last()[k],
            ) by {
                assert(acc.drop_last()[k] == acc[k]);
            }
        }
    }
}

proof fn lemma_resolve_dots_fixed(xs: Seq<Seq<char>>)
    requires
        forall|k: int| 0 <= k < xs.len() ==> is_normal(#[trigger] xs[k]),
    ensures
        resolve_dots(xs) == xs,
    decreases xs.len(),
{
    if xs.len() > 0 {
        let front = xs.drop_last();
        assert forall|k: int| 0 <= k < front.len() implies is_normal(#[trigger] front[k]) by {
            assert(front[k] == xs[k]);
        }
        lemma_resolve_dots_fixed(front);
        assert(xs.last() == xs[xs.len() - 1]);
        assert(front.push(xs.last()) =~= xs);
    }
}

proof fn lemma_resolve_dots_lead_empty(xs: Seq<Seq<char>>)
    ensures
        resolve_dots(seq![Seq::<char>::empty()] + xs) == resolve_dots(xs),
    decreases xs.len(),
{
    let ys = seq![Seq::<char>::empty()] + xs;
    if xs.len() == 0 {
        assert(ys =~= seq![Seq::<char>::empty()]);
        assert(ys.drop_last() =~= Seq::<Seq<char>>::empty());
        assert(ys.last().len() == 0);
        assert(resolve_dots(ys) == resolve_dots(ys.drop_last()));
        assert(xs =~= Seq::<Seq<char>>::empty());
    } else {
        lemma_resolve_dots_lead_empty(xs.drop_last());
        assert(ys.drop_last() =~= seq![Seq::<char>::empty()] + xs.drop_last());
        assert(ys.last() == xs.last());
    }
}

proof fn lemma_split_join_slash(xs: Seq<Seq<char>>)
    requires
        xs.len() >= 1,
        forall|k: int| 0 <= k < xs.len() ==> !has_char(#[trigger] xs[k], '/'),
    ensures
        split(join(xs, seq!['/']), '/') == xs,
    decreases xs.len(),
{
    if xs.len() == 1 {
        lemma_split_plain(xs[0], '/');
    } else {
        let front = xs.drop_last();
        assert forall|k: int| 0 <= k < front.len() implies !has_char(#[trigger] front[k], '/') by {
            assert(front[k] == xs[k]);
        }
        lemma_split_join_slash(front);
        let j = join(front, seq!['/']);
        let x = xs.last();
        assert(xs[xs.len() - 1] == x);
        lemma_split_scan_sep(j, '/');
        lemma_split_scan_plain(j + seq!['/'], x, '/');
        assert(split_scan(Seq::<char>::empty(), '/').1 + x =~= x);
        assert(split(join(xs, seq!['/']), '/') =~= split(j, '/').push(x));
        assert(front.push(x) =~= xs);
    }
}

proof fn lemma_join_lead_empty(xs: Seq<Seq<char>>)
    requires
        xs.len() >= 1,
    ensures
        join(seq![Seq::<char>::empty()] + xs, seq!['/']) == seq!['/'] + join(xs, seq!['/']),
    decreases xs.len(),
{
    let ys = seq![Seq::<char>::empty()] + xs;
    if xs.len() == 1 {
        assert(ys.drop_last() =~= seq![Seq::<char>::empty()]);
        assert(join(ys.drop_last(), seq!['/']) == Seq::<char>::empty());
        assert(ys.last() == xs[0]);
        assert(join(ys, seq!['/']) =~= seq!['/'] + xs[0]);
    } else {
        lemma_join_lead_empty(xs.drop_last());
        assert(ys.drop_last() =~= seq![Seq::<char>::empty()] + xs.drop_last());
        assert(ys.last() == xs.last());
        assert(join(ys, seq!['/']) =~= seq!['/'] + join(xs, seq!['/']));
    }
}

/// Law: resolving `.` and `..` in a path a second time changes nothing.
pub proof fn law_pathify_idempotent(p: Seq<char>)
    ensures
        pathify_spec(pathify_spec(p)) == pathify_spec(p),
{
    let xs = resolve_dots(split(p, '/'));
    lemma_split_pieces(p, '/');
    lemma_resolve_dots_normal(split(p, '/'));
    assert forall|k: int| 0 <= k < xs.len() implies !has_char(#[trigger] xs[k], '/') by {
        assert(is_normal(xs[k]));
    }
    lemma_resolve_dots_fixed(xs);
    let j = join(xs, seq!['/']);
    let q = pathify_spec(p);
    if xs.len() == 0 {
        assert(j =~= Seq::<char>::empty());
        if is_rooted(p) {
            assert(q =~= seq!['/']);
            assert(q =~= Seq::<char>::empty() + seq!['/']);
            lemma_split_scan_sep(Seq::<char>::empty(), '/');
            assert(Seq::<char>::empty() + seq!['/'] =~= seq!['/']);
            assert(split(q, '/') =~= seq![Seq::<char>::empty(), Seq::<char>::empty()]);
            assert(seq![Seq::<char>::empty(), Seq::<char>::empty()].drop_last() =~= seq![
                Seq::<char>::empty(),
            ]);
            assert(seq![Seq::<char>::empty()].drop_last() =~= Seq::<Seq<char>>::empty());
            assert(resolve_dots(seq![Seq::<char>::empty()]) =~= Seq::<Seq<char>>::empty());
            assert(resolve_dots(split(q, '/')) =~= Seq::<Seq<char>>::empty());
            assert(is_rooted(q));
        } else {
            assert(q =~= Seq::<char>::empty());
            assert(split(q, '/') =~= seq![Seq::<char>::empty()]);
            assert(seq![Seq::<char>::empty()].drop_last() =~= Seq::<Seq<char>>::empty());
            assert(resolve_dots(split(q, '/')) =~= Seq::<Seq<char>>::empty());
        }
    } else {
        lemma_split_join_slash(xs);
        assert(is_normal(xs[0]));
        if is_rooted(p) {
            let ys = seq![Seq::<char>::empty()] + xs;
            assert forall|k: int| 0 <= k < ys.len() implies !has_char(#[trigger] ys[k], '/') by {
                if k > 0 {
                    assert(ys[k] == xs[k - 1]);
                } else {
                    assert(ys[0] =~= Seq::<char>::empty());
                }
            }
            lemma_join_lead_empty(xs);
            lemma_split_join_slash(ys);
            lemma_resolve_dots_lead_empty(xs);
            assert(q == join(ys, seq!['/']));
            assert(split(q, '/') == ys);
            assert(resolve_dots(split(q, '/')) == xs);
            assert(q[0] == '/');
            assert(is_rooted(q));
        } else {
            assert(q =~= j);
            lemma_join_first(xs);
            assert(!is_rooted(q)) by {
                if is_rooted(q) {
                    assert(xs[0][0] == '/');
                    assert(has_char(xs[0], '/'));
                }
            }
        }
    }
}

/// A join of components starts with the first component.
proof fn lemma_join_first(xs: Seq<Seq<char>>)
    requires
        xs.len() >= 1,
        xs[0].len() > 0,
    ensures
        join(xs, seq!['/']).len() > 0,
        join(xs, seq!['/'])[0] == xs[0][0],
    decreases xs.len(),
{
    if xs.len() > 1 {
        assert(xs.drop_last()[0] == xs[0]);
        lemma_join_first(xs.drop_last());
    }
}

/// Law: the directory that `cd` goes to is already normalised: resolving `.`
/// and `..` in it again changes nothing.
pub proof fn law_cd_target_normalized(cwd: Result<Seq<char>, Seq<char>>, args: Seq<Seq<char>>)
    ensures
        cd_target(cwd, args) matches Ok(p) ==> pathify_spec(p) == p,
{
    if let Ok(c) = cwd {
        if args.len() <= 1 {
            let raw = if args.len() == 0 {
                "."@
            } else if args[0] == "."@ {
                c
            } else if args[0].len() > 0 && args[0][0] == '/' {
                args[0]
            } else {
                c + seq!['/'] + args[0]
            };
            law_pathify_idempotent(raw);
        }
    }
}

/// Law: going into a component and back out with `..` leaves the resolved
/// path as it was, however deep the path is. (`p` is not empty: after an
/// empty path the `/` would start a path from the root.)
pub proof fn law_parent_undoes_child(p: Seq<char>, c: Seq<char>)
    requires
        p.len() > 0,
        is_normal(c),
    ensures
        pathify_spec(p + seq!['/'] + c + seq!['/', '.', '.']) == pathify_spec(p),
{
    let dots = seq!['.', '.'];
    let q = p + seq!['/'] + c + seq!['/', '.', '.'];
    assert(!has_char(dots, '/')) by {
        if has_char(dots, '/') {
            let i = choose|i: int| 0 <= i < dots.len() && dots[i] == '/';
        }
    }
    lemma_split_scan_sep(p, '/');
    lemma_split_scan_plain(p + seq!['/'], c, '/');
    assert(split_scan(p + seq!['/'], '/').1 + c =~= c);
    lemma_split_scan_sep(p + seq!['/'] + c, '/');
    lemma_split_scan_plain(p + seq!['/'] + c + seq!['/'], dots, '/');
    assert(split_scan(p + seq!['/'] + c + seq!['/'], '/').1 + dots =~= dots);
    assert(q =~= p + seq!['/'] + c + seq!['/'] + dots);
    let xs = split(p, '/');
    assert(split(q, '/') =~= xs.push(c).push(dots));
    assert(xs.push(c).push(dots).drop_last() =~= xs.push(c));
    assert(xs.push(c).drop_last() =~= xs);
    assert(c != seq!['.', '.']);
    assert(resolve_dots(xs.push(c)) == resolve_dots(xs).push(c));
    assert(resolve_dots(xs.push(c)).drop_last() =~= resolve_dots(xs));
    assert(resolve_dots(split(q, '/')) == resolve_dots(xs));
    if is_rooted(p) {
        assert(q[0] == p[0]);
    } else {
        assert(q[0] == p[0]);
    }
}

/// Law: a `..` after a component removes that component, at any depth of the
/// path.
pub proof fn law_dotdot_removes_last(xs: Seq<Seq<char>>)
    requires
        resolve_dots(xs).len() > 0,
    ensures
        resolve_dots(xs.push(seq!['.', '.'])) == resolve_dots(xs).drop_last(),
{
    assert(xs.push(seq!['.', '.']).drop_last() =~= xs);
    assert(seq!['.', '.'] != seq!['.']) by {
        assert(seq!['.', '.'].len() != seq!['.'].len());
    }
}

} // verus!
