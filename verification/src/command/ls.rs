//! `ls`: list directories. Reading its flags, and the text of one entry.
use vstd::prelude::*;
use vstd::string::*;

use crate::err::{ParseError, ParseErrorView};
use crate::text::{chars_of, push_char, views};

verus! {

/// A flag of `ls` and its value.
pub type Flag = (String, Option<String>);

/// `ls` with its arguments (the directories to list) and flags.
pub struct Cmd {
    pub args: Vec<String>,
    pub flags: Vec<Flag>,
}

/// `ls` before it has read its arguments.
pub fn get() -> (c: Cmd)
    ensures
        c.args@.len() == 0,
        c.flags@.len() == 0,
{
    Cmd { args: Vec::new(), flags: Vec::new() }
}

/// The error for a flag given twice.
pub open spec fn repeated_flag(f: char) -> ParseErrorView {
    ParseErrorView { msg: seq!['-', f] + " flag was already set"@, parsed_str: "ls -"@ + seq![f] }
}

/// The error for a flag that `ls` does not know.
pub open spec fn unknown_flag(f: char) -> ParseErrorView {
    ParseErrorView { msg: "unidentified flag"@, parsed_str: "ls -"@ + seq![f] }
}

/// The flag letters `cs`, read left to right after the flags `used`: `l` and
/// `a` are known, each at most once.
pub open spec fn scan_flags(cs: Seq<char>, used: Seq<char>) -> Result<Seq<char>, ParseErrorView>
    decreases cs.len(),
{
    if cs.len() == 0 {
        Ok(used)
    } else {
        match scan_flags(cs.drop_last(), used) {
            Err(e) => Err(e),
            Ok(u) => {
                let f = cs.last();
                if f == 'l' || f == 'a' {
                    if u.contains(f) {
                        Err(repeated_flag(f))
                    } else {
                        Ok(u.push(f))
                    }
                } else {
                    Err(unknown_flag(f))
                }
            },
        }
    }
}

/// The arguments of `ls`, read left to right: one that starts with `-` holds
/// flag letters, any other names a directory. The flags and the directories.
pub open spec fn ls_scan(args: Seq<Seq<char>>) -> Result<(Seq<char>, Seq<Seq<char>>), ParseErrorView>
    decreases args.len(),
{
    if args.len() == 0 {
        Ok((seq![], seq![]))
    } else {
        match ls_scan(args.drop_last()) {
            Err(e) => Err(e),
            Ok(p) => {
                let s = args.last();
                if s.len() > 0 && s[0] == '-' {
                    match scan_flags(s.subrange(1, s.len() as int), p.0) {
                        Ok(fl) => Ok((fl, p.1)),
                        Err(e) => Err(e),
                    }
                } else {
                    Ok((p.0, p.1.push(s)))
                }
            },
        }
    }
}

/// `ls` with arguments `args`: its flags and its directories (`.` when it has
/// no arguments at all).
pub open spec fn ls_parse_spec(args: Seq<Seq<char>>) -> Result<
    (Seq<char>, Seq<Seq<char>>),
    ParseErrorView,
> {
    match ls_scan(args) {
        Ok(p) => Ok(
            (
                p.0,
                if args.len() == 0 {
                    p.1.push("."@)
                } else {
                    p.1
                },
            ),
        ),
        Err(e) => Err(e),
    }
}

/// The names of the flags `fs`.
pub open spec fn flag_names(fs: Seq<Flag>) -> Seq<Seq<char>> {
    fs.map_values(|f: Flag| f.0@)
}

/// The flags `fl` as one-letter names.
pub open spec fn letters(fl: Seq<char>) -> Seq<Seq<char>> {
    fl.map_values(|c: char| seq![c])
}

/// None of the flags `fs` has a value.
pub open spec fn no_values(fs: Seq<Flag>) -> bool {
    forall|k: int| 0 <= k < fs.len() ==> (#[trigger] fs[k]).1 is None
}

/// Reads the flag letters `v[from..]` after the flags `used` (their letters,
/// also kept in `cmd.flags`).
fn scan_flag_letters(v: &Vec<char>, from: usize, cmd: &mut Cmd, used: &mut Vec<char>) -> (r: Result<
    (),
    ParseError,
>)
    requires
        from <= v.len(),
        flag_names(old(cmd).flags@) == letters(old(used)@),
        no_values(old(cmd).flags@),
    ensures
        final(cmd).args == old(cmd).args,
        match scan_flags(v@.subrange(from as int, v.len() as int), old(used)@) {
            Ok(u) => r is Ok && final(used)@ == u && flag_names(final(cmd).flags@) == letters(u)
                && no_values(final(cmd).flags@),
            Err(ev) => (r matches Err(e) && e@ == ev),
        },
{
    let ghost used0 = used@;
    let mut i = from;
    assert(v@.subrange(from as int, from as int) =~= Seq::<char>::empty());
    while i < v.len()
        invariant
            from <= i <= v.len(),
            used0 == old(used)@,
            cmd.args == old(cmd).args,
            scan_flags(v@.subrange(from as int, i as int), used0) == Ok::<
                Seq<char>,
                ParseErrorView,
            >(used@),
            flag_names(cmd.flags@) == letters(used@),
            no_values(cmd.flags@),
        decreases v.len() - i,
    {
        let f = v[i];
        let ghost p = v@.subrange(from as int, i + 1);
        assert(p.drop_last() =~= v@.subrange(from as int, i as int));
        assert(p.last() == f);
        if f == 'l' || f == 'a' {
            let mut seen = false;
            let mut k: usize = 0;
            while k < used.len()
                invariant
                    k <= used.len(),
                    seen == exists|j: int| 0 <= j < k && used@[j] == f,
                decreases used.len() - k,
            {
                if used[k] == f {
                    seen = true;
                }
                k += 1;
            }
            if seen {
                let mut msg = String::new();
                push_char(&mut msg, '-');
                push_char(&mut msg, f);
                msg.append(" flag was already set");
                let mut parsed = String::from_str("ls -");
                push_char(&mut parsed, f);
                assert(msg@ =~= seq!['-', f] + " flag was already set"@);
                assert(parsed@ =~= "ls -"@ + seq![f]);
                assert(used@.contains(f));
                assert(scan_flags(p, used0) == Err::<Seq<char>, ParseErrorView>(repeated_flag(f)));
                proof {
                    lemma_scan_flags_err(v@, from as int, i + 1, v.len() as int, used0);
                }
                return Err(ParseError::new(msg.as_str(), parsed.as_str()));
            }
            assert(!used@.contains(f));
            let mut name = String::new();
            push_char(&mut name, f);
            let ghost before = cmd.flags@;
            cmd.flags.push((name, None));
            used.push(f);
            proof {
                assert(flag_names(cmd.flags@) =~= flag_names(before).push(seq![f]));
                assert(letters(used@) =~= letters(used@.drop_last()).push(seq![f]));
                assert forall|k: int| 0 <= k < cmd.flags@.len() implies (
                #[trigger] cmd.flags@[k]).1 is None by {
                    if k < before.len() {
                        assert(cmd.flags@[k] == before[k]);
                    }
                }
            }
        } else {
            let mut parsed = String::from_str("ls -");
            push_char(&mut parsed, f);
            assert(parsed@ =~= "ls -"@ + seq![f]);
            assert(scan_flags(p, used0) == Err::<Seq<char>, ParseErrorView>(unknown_flag(f)));
            proof {
                lemma_scan_flags_err(v@, from as int, i + 1, v.len() as int, used0);
            }
            return Err(ParseError::new("unidentified flag", parsed.as_str()));
        }
        i += 1;
    }
    Ok(())
}

/// Once the letters up to `j` fail, all the letters fail the same way.
proof fn lemma_scan_flags_err(v: Seq<char>, from: int, j: int, to: int, used: Seq<char>)
    requires
        0 <= from <= j <= to <= v.len(),
        scan_flags(v.subrange(from, j), used) is Err,
    ensures
        scan_flags(v.subrange(from, to), used) == scan_flags(v.subrange(from, j), used),
    decreases to - j,
{
    if j < to {
        lemma_scan_flags_err(v, from, j, to - 1, used);
        assert(v.subrange(from, to).drop_last() =~= v.subrange(from, to - 1));
    }
}

/// Reads the arguments of `ls`: each one that starts with `-` holds flag
/// letters (`l` and `a`, each at most once), any other names a directory;
/// with no arguments at all, `ls` lists `.`.
pub fn parse(args: Vec<String>) -> (r: Result<Cmd, ParseError>)
    ensures
        match ls_parse_spec(views(args@)) {
            Ok(p) => (r matches Ok(c) && flag_names(c.flags@) == letters(p.0) && no_values(c.flags@)
                && views(c.args@) == p.1),
            Err(ev) => (r matches Err(e) && e@ == ev),
        },
{
    let mut cmd = get();
    let mut used: Vec<char> = Vec::new();
    let ghost a = views(args@);
    let mut k: usize = 0;
    assert(a.take(0) =~= Seq::<Seq<char>>::empty());
    assert(views(cmd.args@) =~= Seq::<Seq<char>>::empty());
    assert(flag_names(cmd.flags@) =~= letters(used@));
    while k < args.len()
        invariant
            k <= args.len(),
            a == views(args@),
            ls_scan(a.take(k as int)) == Ok::<(Seq<char>, Seq<Seq<char>>), ParseErrorView>(
                (used@, views(cmd.args@)),
            ),
            flag_names(cmd.flags@) == letters(used@),
            no_values(cmd.flags@),
        decreases args.len() - k,
    {
        assert(a.take(k + 1).drop_last() =~= a.take(k as int));
        assert(a.take(k + 1).last() == args@[k as int]@);
        let v = chars_of(args[k].as_str());
        if v.len() > 0 && v[0] == '-' {
            let r = scan_flag_letters(&v, 1, &mut cmd, &mut used);
            match r {
                Ok(()) => {},
                Err(e) => {
                    proof {
                        lemma_ls_scan_err(a, k as int + 1);
                    }
                    return Err(e);
                },
            }
        } else {
            let ghost before = cmd.args@;
            cmd.args.push(args[k].clone());
            assert(views(cmd.args@) =~= views(before).push(a[k as int]));
        }
        k += 1;
    }
    assert(a.take(args.len() as int) =~= a);
    if args.len() == 0 {
        let ghost before = cmd.args@;
        cmd.args.push(String::from_str("."));
        assert(views(cmd.args@) =~= views(before).push("."@));
    }
    Ok(cmd)
}

/// Once the arguments up to `j` fail, all the arguments fail the same way.
proof fn lemma_ls_scan_err(a: Seq<Seq<char>>, j: int)
    requires
        0 <= j <= a.len(),
        ls_scan(a.take(j)) is Err,
    ensures
        ls_scan(a) == ls_scan(a.take(j)),
    decreases a.len() - j,
{
    if j < a.len() {
        assert(a.drop_last().take(j) =~= a.take(j));
        lemma_ls_scan_err(a.drop_last(), j);
    } else {
        assert(a.take(j) =~= a);
    }
}

/// Whether the flags ask for every entry (`a`) and for every detail (`l`).
pub open spec fn settings_spec(names: Seq<Seq<char>>) -> (bool, bool) {
    (names.contains("a"@), names.contains("l"@))
}

/// What the flags ask for: every entry, hidden ones too (`a`), and every
/// detail of each entry (`l`).
pub fn settings(flags: &Vec<Flag>) -> (r: (bool, bool))
    requires
        forall|k: int|
            0 <= k < flags@.len() ==> #[trigger] flags@[k].0@ == "a"@ || flags@[k].0@ == "l"@,
    ensures
        r == settings_spec(flag_names(flags@)),
{
    let a = String::from_str("a");
    let l = String::from_str("l");
    let mut list_all = false;
    let mut all_info = false;
    let ghost names = flag_names(flags@);
    let mut k: usize = 0;
    while k < flags.len()
        invariant
            k <= flags.len(),
            names == flag_names(flags@),
            a@ == "a"@,
            l@ == "l"@,
            list_all == exists|j: int| 0 <= j < k && #[trigger] names[j] == "a"@,
            all_info == exists|j: int| 0 <= j < k && #[trigger] names[j] == "l"@,
        decreases flags.len() - k,
    {
        assert(names[k as int] == flags@[k as int].0@);
        proof {
            reveal_strlit("a");
            reveal_strlit("l");
            assert("a"@[0] != "l"@[0]);
        }
        if flags[k].0 == a {
            list_all = true;
        } else if flags[k].0 == l {
            all_info = true;
        }
        k += 1;
    }
    (list_all, all_info)
}

/// Whether an entry named `name` is listed: hidden entries (their name
/// starts with `.`) only when every entry is asked for.
pub fn is_listed(name: &str, list_all: bool) -> (r: bool)
    ensures
        r == (list_all || !(name@.len() > 0 && name@[0] == '.')),
{
    !(name.unicode_len() > 0 && name.get_char(0) == '.') || list_all
}

/// The letter of an entry type and whether the entry is a directory.
pub open spec fn entry_type_spec(is_dir: bool, is_file: bool) -> (char, bool) {
    if is_dir {
        ('d', true)
    } else if is_file {
        ('-', false)
    } else {
        ('s', false)
    }
}

/// The letter that shows an entry's type (`d` directory, `-` file, `s`
/// symbolic link) and whether it is a directory.
pub fn entry_type(is_dir: bool, is_file: bool, is_symlink: bool) -> (r: (char, bool))
    requires
        is_dir || is_file || is_symlink,
    ensures
        r == entry_type_spec(is_dir, is_file),
{
    if is_dir {
        ('d', true)
    } else if is_file {
        ('-', false)
    } else {
        ('s', false)
    }
}

/// `c` if the permission bit `bit` is set in `mode`, else `-`.
pub open spec fn perm_char(mode: u32, bit: u32, c: char) -> char {
    if mode & bit != 0 {
        c
    } else {
        '-'
    }
}

/// The nine permission letters of `mode`: read, write, execute for the
/// owner, the group and everybody else.
pub open spec fn permissions_spec(mode: u32) -> Seq<char> {
    seq![
        perm_char(mode, 0o400, 'r'),
        perm_char(mode, 0o200, 'w'),
        perm_char(mode, 0o100, 'x'),
        perm_char(mode, 0o040, 'r'),
        perm_char(mode, 0o020, 'w'),
        perm_char(mode, 0o010, 'x'),
        perm_char(mode, 0o004, 'r'),
        perm_char(mode, 0o002, 'w'),
        perm_char(mode, 0o001, 'x'),
    ]
}

/// Appends the permission letters of `mode` to `s`.
fn push_permissions(s: &mut String, mode: u32)
    ensures
        final(s)@ == old(s)@ + permissions_spec(mode),
{
    let owner = mode & 0o700;
    let group = mode & 0o070;
    let other = mode & 0o007;
    assert(owner & 0o400 == mode & 0o400 && owner & 0o200 == mode & 0o200 && owner & 0o100 == mode
        & 0o100) by (bit_vector)
        requires
            owner == mode & 0o700,
    ;
    assert(group & 0o040 == mode & 0o040 && group & 0o020 == mode & 0o020 && group & 0o010 == mode
        & 0o010) by (bit_vector)
        requires
            group == mode & 0o070,
    ;
    assert(other & 0o004 == mode & 0o004 && other & 0o002 == mode & 0o002 && other & 0o001 == mode
        & 0o001) by (bit_vector)
        requires
            other == mode & 0o007,
    ;
    push_char(s, if owner & 0o400 != 0 { 'r' } else { '-' });
    push_char(s, if owner & 0o200 != 0 { 'w' } else { '-' });
    push_char(s, if owner & 0o100 != 0 { 'x' } else { '-' });
    push_char(s, if group & 0o040 != 0 { 'r' } else { '-' });
    push_char(s, if group & 0o020 != 0 { 'w' } else { '-' });
    push_char(s, if group & 0o010 != 0 { 'x' } else { '-' });
    push_char(s, if other & 0o004 != 0 { 'r' } else { '-' });
    push_char(s, if other & 0o002 != 0 { 'w' } else { '-' });
    push_char(s, if other & 0o001 != 0 { 'x' } else { '-' });
    assert(s@ =~= old(s)@ + permissions_spec(mode));
}

/// The decimal digit `d`.
pub open spec fn digit(d: nat) -> char {
    seq!['0', '1', '2', '3', '4', '5', '6', '7', '8', '9'][d as int]
}

/// The decimal numeral of `n`.
pub open spec fn decimal(n: nat) -> Seq<char>
    decreases n,
{
    if n < 10 {
        seq![digit(n)]
    } else {
        decimal(n / 10).push(digit(n % 10))
    }
}

/// Appends the decimal numeral of `n` to `s`.
fn push_decimal(s: &mut String, n: u64)
    ensures
        final(s)@ == old(s)@ + decimal(n as nat),
    decreases n,
{
    let digits = ['0', '1', '2', '3', '4', '5', '6', '7', '8', '9'];
    assert(digits@ =~= seq!['0', '1', '2', '3', '4', '5', '6', '7', '8', '9']);
    if n >= 10 {
        push_decimal(s, n / 10);
    }
    let d = (n % 10) as usize;
    push_char(s, digits[d]);
    assert(s@ =~= old(s)@ + decimal(n as nat));
}

/// `s` right-aligned in a field of `width` characters.
pub open spec fn pad_left(s: Seq<char>, width: nat) -> Seq<char> {
    if s.len() >= width {
        s
    } else {
        Seq::new((width - s.len()) as nat, |i: int| ' ') + s
    }
}

/// Appends `t` right-aligned in a field of `width` characters to `s`.
fn push_padded(s: &mut String, t: &str, width: usize)
    ensures
        final(s)@ == old(s)@ + pad_left(t@, width as nat),
{
    let n = t.unicode_len();
    let mut k = n;
    while k < width
        invariant
            n == t@.len(),
            n <= k <= width || (k == n && n >= width),
            s@ == old(s)@ + Seq::new((k - n) as nat, |i: int| ' '),
        decreases width - k,
    {
        let ghost before = s@;
        push_char(s, ' ');
        assert(s@ =~= old(s)@ + Seq::new((k + 1 - n) as nat, |i: int| ' '));
        k += 1;
    }
    s.append(t);
    if n >= width {
        assert(s@ =~= old(s)@ + pad_left(t@, width as nat));
    } else {
        assert(s@ =~= old(s)@ + pad_left(t@, width as nat));
    }
}

/// The long listing of an entry after its type letter: permissions, number
/// of links, owner and group (when their names are known) right-aligned in
/// six columns, size right-aligned in four, and the modification date, each
/// followed by a space.
pub open spec fn metadata_spec(
    mode: u32,
    nlink: u64,
    owner: Option<Seq<char>>,
    group: Option<Seq<char>>,
    size: u64,
    date: Seq<char>,
) -> Seq<char> {
    permissions_spec(mode) + " "@ + decimal(nlink as nat) + " "@ + match owner {
        Some(o) => pad_left(o, 6) + " "@,
        None => seq![],
    } + match group {
        Some(g) => pad_left(g, 6) + " "@,
        None => seq![],
    } + pad_left(decimal(size as nat), 4) + " "@ + date + " "@
}

/// The long listing of an entry after its type letter (see [`metadata_spec`]).
pub fn metadata_text(
    mode: u32,
    nlink: u64,
    owner: Option<&str>,
    group: Option<&str>,
    size: u64,
    date: &str,
) -> (s: String)
    ensures
        s@ == metadata_spec(
            mode,
            nlink,
            match owner {
                Some(o) => Some(o@),
                None => None,
            },
            match group {
                Some(g) => Some(g@),
                None => None,
            },
            size,
            date@,
        ),
{
    let mut s = String::new();
    push_permissions(&mut s, mode);
    s.append(" ");
    push_decimal(&mut s, nlink);
    s.append(" ");
    let ghost head = s@;
    match owner {
        Some(o) => {
            push_padded(&mut s, o, 6);
            s.append(" ");
        },
        None => {},
    }
    let ghost mid = s@;
    match group {
        Some(g) => {
            push_padded(&mut s, g, 6);
            s.append(" ");
        },
        None => {},
    }
    let ghost tail = s@;
    let mut size_text = String::new();
    push_decimal(&mut size_text, size);
    push_padded(&mut s, size_text.as_str(), 4);
    s.append(" ");
    s.append(date);
    s.append(" ");
    assert(s@ =~= metadata_spec(
        mode,
        nlink,
        match owner {
            Some(o) => Some(o@),
            None => None,
        },
        match group {
            Some(g) => Some(g@),
            None => None,
        },
        size,
        date@,
    ));
    s
}

proof fn lemma_scan_flags_distinct(cs: Seq<char>, used: Seq<char>)
    requires
        used.no_duplicates(),
    ensures
        scan_flags(cs, used) matches Ok(u) ==> u.no_duplicates(),
    decreases cs.len(),
{
    if cs.len() > 0 {
        lemma_scan_flags_distinct(cs.drop_last(), used);
        if let Ok(u) = scan_flags(cs.drop_last(), used) {
            let f = cs.last();
            if !u.contains(f) {
                assert forall|i: int, j: int|
                    0 <= i < j < u.push(f).len() implies u.push(f)[i] != u.push(f)[j] by {
                    if j == u.len() {
                        assert(u.push(f)[i] == u[i]);
                    }
                }
            }
        }
    }
}

proof fn lemma_ls_scan_distinct(args: Seq<Seq<char>>)
    ensures
        ls_scan(args) matches Ok(p) ==> p.0.no_duplicates(),
    decreases args.len(),
{
    if args.len() > 0 {
        lemma_ls_scan_distinct(args.drop_last());
        if let Ok(p) = ls_scan(args.drop_last()) {
            let s = args.last();
            lemma_scan_flags_distinct(s.subrange(1, s.len() as int), p.0);
        }
    } else {
        assert(Seq::<char>::empty().no_duplicates());
    }
}

/// Law: `ls` takes each of its flags at most once; the flags it reads are
/// `l` and `a` only.
pub proof fn law_ls_flags_distinct(args: Seq<Seq<char>>)
    ensures
        ls_parse_spec(args) matches Ok(p) ==> p.0.no_duplicates() && forall|k: int|
            0 <= k < p.0.len() ==> #[trigger] p.0[k] == 'l' || p.0[k] == 'a',
{
    lemma_ls_scan_distinct(args);
    lemma_ls_scan_letters(args);
}

proof fn lemma_scan_flags_letters(cs: Seq<char>, used: Seq<char>)
    requires
        forall|k: int| 0 <= k < used.len() ==> #[trigger] used[k] == 'l' || used[k] == 'a',
    ensures
        scan_flags(cs, used) matches Ok(u) ==> forall|k: int|
            0 <= k < u.len() ==> #[trigger] u[k] == 'l' || u[k] == 'a',
    decreases cs.len(),
{
    if cs.len() > 0 {
        lemma_scan_flags_letters(cs.drop_last(), used);
        if let Ok(u) = scan_flags(cs.drop_last(), used) {
            let f = cs.last();
            assert forall|k: int| 0 <= k < u.push(f).len() && (f == 'l' || f == 'a') implies #[trigger] u.push(f)[k]
                == 'l' || u.push(f)[k] == 'a' by {
                if k < u.len() {
                    assert(u.push(f)[k] == u[k]);
                }
            }
        }
    }
}

proof fn lemma_ls_scan_letters(args: Seq<Seq<char>>)
    ensures
        ls_scan(args) matches Ok(p) ==> forall|k: int|
            0 <= k < p.0.len() ==> #[trigger] p.0[k] == 'l' || p.0[k] == 'a',
    decreases args.len(),
{
    if args.len() > 0 {
        lemma_ls_scan_letters(args.drop_last());
        if let Ok(p) = ls_scan(args.drop_last()) {
            let s = args.last();
            lemma_scan_flags_letters(s.subrange(1, s.len() as int), p.0);
        }
    }
}

/// Law: no flags ask for nothing, and each flag adds what it asks for and
/// nothing else: `a` every entry, `l` every detail.
pub proof fn law_settings_by_flag(names: Seq<Seq<char>>, n: Seq<char>)
    ensures
        settings_spec(Seq::<Seq<char>>::empty()) == (false, false),
        settings_spec(names.push(n)) == (settings_spec(names).0 || n == "a"@, settings_spec(names).1
            || n == "l"@),
{
    let m = names.push(n);
    assert(m.contains("a"@) <==> names.contains("a"@) || n == "a"@) by {
        if names.contains("a"@) {
            let j = choose|j: int| 0 <= j < names.len() && names[j] == "a"@;
            assert(m[j] == "a"@);
        }
        if n == "a"@ {
            assert(m[names.len() as int] == n);
        }
        if m.contains("a"@) {
            let j = choose|j: int| 0 <= j < m.len() && m[j] == "a"@;
            if j < names.len() {
                assert(names[j] == m[j]);
            }
        }
    }
    assert(m.contains("l"@) <==> names.contains("l"@) || n == "l"@) by {
        if names.contains("l"@) {
            let j = choose|j: int| 0 <= j < names.len() && names[j] == "l"@;
            assert(m[j] == "l"@);
        }
        if n == "l"@ {
            assert(m[names.len() as int] == n);
        }
        if m.contains("l"@) {
            let j = choose|j: int| 0 <= j < m.len() && m[j] == "l"@;
            if j < names.len() {
                assert(names[j] == m[j]);
            }
        }
    }
}

/// Law: each of the nine permission letters shows its own bit of the mode:
/// letter `k` is `r`, `w` or `x` (by `k % 3`) exactly when bit `0o400 >> k`
/// is set, and `-` otherwise.
pub proof fn law_permission_letters(mode: u32)
    ensures
        permissions_spec(mode).len() == 9,
        forall|k: int|
            0 <= k < 9 ==> #[trigger] permissions_spec(mode)[k] == (if mode & (256u32 >> (k as u32))
                != 0 {
                seq!['r', 'w', 'x'][k % 3]
            } else {
                '-'
            }),
{
    assert(256u32 >> 0u32 == 0o400u32) by (bit_vector);
    assert(256u32 >> 1u32 == 0o200u32) by (bit_vector);
    assert(256u32 >> 2u32 == 0o100u32) by (bit_vector);
    assert(256u32 >> 3u32 == 0o040u32) by (bit_vector);
    assert(256u32 >> 4u32 == 0o020u32) by (bit_vector);
    assert(256u32 >> 5u32 == 0o010u32) by (bit_vector);
    assert(256u32 >> 6u32 == 0o004u32) by (bit_vector);
    assert(256u32 >> 7u32 == 0o002u32) by (bit_vector);
    assert(256u32 >> 8u32 == 0o001u32) by (bit_vector);
    assert forall|k: int| 0 <= k < 9 implies #[trigger] permissions_spec(mode)[k] == (if mode & (256u32
        >> (k as u32)) != 0 {
        seq!['r', 'w', 'x'][k % 3]
    } else {
        '-'
    }) by {
        if k == 0 {
            assert((k as u32) == 0u32);
        } else if k == 1 {
            assert((k as u32) == 1u32);
        } else if k == 2 {
            assert((k as u32) == 2u32);
        } else if k == 3 {
            assert((k as u32) == 3u32);
        } else if k == 4 {
            assert((k as u32) == 4u32);
        } else if k == 5 {
            assert((k as u32) == 5u32);
        } else if k == 6 {
            assert((k as u32) == 6u32);
        } else if k == 7 {
            assert((k as u32) == 7u32);
        } else {
            assert((k as u32) == 8u32);
        }
    }
}

} // verus!
