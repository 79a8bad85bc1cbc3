//! Text primitives of the command language: whitespace, trimming,
//! splitting on a character, splitting into words, joining.
//!
//! Strings are read as sequences of `char`; the executable functions
//! work on a `Vec<char>` and on index ranges into it.
use vstd::prelude::*;
use vstd::string::*;

verus! {

// ---------------------------------------------------------------------------
// Specifications
// ---------------------------------------------------------------------------
/// Unicode `White_Space`: the characters for which `char::is_whitespace` holds.
pub open spec fn is_ws(c: char) -> bool {
    let x = c as u32;
    ||| 9 <= x <= 13
    ||| x == 32
    ||| x == 0x85
    ||| x == 0xa0
    ||| x == 0x1680
    ||| 0x2000 <= x <= 0x200a
    ||| x == 0x2028
    ||| x == 0x2029
    ||| x == 0x202f
    ||| x == 0x205f
    ||| x == 0x3000
}

/// `s` without its leading whitespace.
pub open spec fn trim_start(s: Seq<char>) -> Seq<char>
    decreases s.len(),
{
    if s.len() > 0 && is_ws(s[0]) {
        trim_start(s.subrange(1, s.len() as int))
    } else {
        s
    }
}

/// `s` without its trailing whitespace.
pub open spec fn trim_end(s: Seq<char>) -> Seq<char>
    decreases s.len(),
{
    if s.len() > 0 && is_ws(s.last()) {
        trim_end(s.drop_last())
    } else {
        s
    }
}

/// `s` without leading and trailing whitespace (`str::trim`).
pub open spec fn trim(s: Seq<char>) -> Seq<char> {
    trim_end(trim_start(s))
}

/// Left-to-right scan of `s` cut at every `c`: the finished pieces and the
/// piece still open.
pub open spec fn split_scan(s: Seq<char>, c: char) -> (Seq<Seq<char>>, Seq<char>)
    decreases s.len(),
{
    if s.len() == 0 {
        (seq![], seq![])
    } else {
        let prev = split_scan(s.drop_last(), c);
        if s.last() == c {
            (prev.0.push(prev.1), seq![])
        } else {
            (prev.0, prev.1.push(s.last()))
        }
    }
}

/// The pieces of `s` between occurrences of `c` (`str::split` on a char):
/// always one more piece than there are occurrences of `c`.
pub open spec fn split(s: Seq<char>, c: char) -> Seq<Seq<char>> {
    split_scan(s, c).0.push(split_scan(s, c).1)
}

/// Left-to-right scan of `s` into words: the finished words and the word
/// still open.
pub open spec fn words_scan(s: Seq<char>) -> (Seq<Seq<char>>, Seq<char>)
    decreases s.len(),
{
    if s.len() == 0 {
        (seq![], seq![])
    } else {
        let prev = words_scan(s.drop_last());
        if is_ws(s.last()) {
            if prev.1.len() > 0 {
                (prev.0.push(prev.1), seq![])
            } else {
                (prev.0, seq![])
            }
        } else {
            (prev.0, prev.1.push(s.last()))
        }
    }
}

/// The maximal runs of non-whitespace characters of `s`, in order
/// (`str::split_whitespace`).
pub open spec fn words(s: Seq<char>) -> Seq<Seq<char>> {
    if words_scan(s).1.len() > 0 {
        words_scan(s).0.push(words_scan(s).1)
    } else {
        words_scan(s).0
    }
}

/// `i` is the position of the first `c` in `s`.
pub open spec fn is_first(s: Seq<char>, c: char, i: int) -> bool {
    &&& 0 <= i < s.len()
    &&& s[i] == c
    &&& forall|j: int| 0 <= j < i ==> s[j] != c
}

/// `str::split_once` on a char: the text before and after the first `c`.
pub open spec fn split_once(s: Seq<char>, c: char) -> Option<(Seq<char>, Seq<char>)> {
    if exists|i: int| is_first(s, c, i) {
        let i = choose|i: int| is_first(s, c, i);
        Some((s.subrange(0, i), s.subrange(i + 1, s.len() as int)))
    } else {
        None
    }
}

/// The separator that a pipeline's stages are joined with: `" | "`.
pub open spec fn bar_sep() -> Seq<char> {
    seq![' ', '|', ' ']
}

/// The pieces of `xs` with `sep` between neighbours (`join` on slices).
pub open spec fn join(xs: Seq<Seq<char>>, sep: Seq<char>) -> Seq<char>
    decreases xs.len(),
{
    if xs.len() == 0 {
        seq![]
    } else if xs.len() == 1 {
        xs[0]
    } else {
        join(xs.drop_last(), sep) + sep + xs.last()
    }
}

/// The views of a sequence of strings.
pub open spec fn views(v: Seq<String>) -> Seq<Seq<char>> {
    v.map_values(|s: String| s@)
}

/// The pieces of `v` that the index ranges `rs` select.
pub open spec fn ranges_view(v: Seq<char>, rs: Seq<(usize, usize)>) -> Seq<Seq<char>> {
    rs.map_values(|r: (usize, usize)| v.subrange(r.0 as int, r.1 as int))
}

/// Every range of `rs` lies within `[lo, hi]`.
pub open spec fn ranges_within(rs: Seq<(usize, usize)>, lo: int, hi: int) -> bool {
    forall|k: int| 0 <= k < rs.len() ==> lo <= #[trigger] rs[k].0 <= rs[k].1 <= hi
}

/// `c` occurs in `s`.
pub open spec fn has_char(s: Seq<char>, c: char) -> bool {
    exists|i: int| 0 <= i < s.len() && s[i] == c
}

// ---------------------------------------------------------------------------
// Lemmas
// ---------------------------------------------------------------------------
pub proof fn lemma_trim_start_skip(s: Seq<char>, i: int)
    requires
        0 <= i <= s.len(),
        forall|k: int| 0 <= k < i ==> is_ws(#[trigger] s[k]),
    ensures
        trim_start(s) == trim_start(s.subrange(i, s.len() as int)),
    decreases i,
{
    if i == 0 {
        assert(s.subrange(0, s.len() as int) =~= s);
    } else {
        let t = s.subrange(1, s.len() as int);
        assert(is_ws(s[0]));
        lemma_trim_start_skip(t, i - 1);
        assert(t.subrange(i - 1, t.len() as int) =~= s.subrange(i, s.len() as int));
    }
}

pub proof fn lemma_trim_end_skip(s: Seq<char>, j: int)
    requires
        0 <= j <= s.len(),
        forall|k: int| j <= k < s.len() ==> is_ws(#[trigger] s[k]),
    ensures
        trim_end(s) == trim_end(s.subrange(0, j)),
    decreases s.len() - j,
{
    if j == s.len() {
        assert(s.subrange(0, j) =~= s);
    } else {
        let t = s.drop_last();
        assert(is_ws(s[s.len() - 1]));
        lemma_trim_end_skip(t, j);
        assert(t.subrange(0, j) =~= s.subrange(0, j));
    }
}

/// Trimming leaves no whitespace at either end.
pub proof fn lemma_trim_ends(s: Seq<char>)
    ensures
        trim(s).len() > 0 ==> !is_ws(trim(s)[0]) && !is_ws(trim(s).last()),
        trim(s).len() <= s.len(),
        exists|a: int, b: int| 0 <= a <= b <= s.len() && trim(s) == s.subrange(a, b),
{
    lemma_trim_start_sub(s);
    let t = trim_start(s);
    lemma_trim_end_sub(t);
    let a = choose|a: int| 0 <= a <= s.len() && t == s.subrange(a, s.len() as int);
    let b = choose|b: int| 0 <= b <= t.len() && trim_end(t) == t.subrange(0, b);
    assert(trim(s) =~= s.subrange(a, a + b));
    if trim(s).len() > 0 {
        assert(trim(s)[0] == t[0]);
    }
}

pub proof fn lemma_trim_start_sub(s: Seq<char>)
    ensures
        exists|a: int| 0 <= a <= s.len() && trim_start(s) == s.subrange(a, s.len() as int),
        trim_start(s).len() > 0 ==> !is_ws(trim_start(s)[0]),
    decreases s.len(),
{
    if s.len() > 0 && is_ws(s[0]) {
        let t = s.subrange(1, s.len() as int);
        lemma_trim_start_sub(t);
        let a = choose|a: int| 0 <= a <= t.len() && trim_start(t) == t.subrange(a, t.len() as int);
        assert(trim_start(s) =~= s.subrange(a + 1, s.len() as int));
    } else {
        assert(trim_start(s) =~= s.subrange(0, s.len() as int));
    }
}

pub proof fn lemma_trim_end_sub(s: Seq<char>)
    ensures
        exists|b: int| 0 <= b <= s.len() && trim_end(s) == s.subrange(0, b),
        trim_end(s).len() > 0 ==> !is_ws(trim_end(s).last()),
        trim_end(s).len() > 0 && s.len() > 0 && !is_ws(s[0]) ==> trim_end(s)[0] == s[0],
    decreases s.len(),
{
    if s.len() > 0 && is_ws(s.last()) {
        let t = s.drop_last();
        lemma_trim_end_sub(t);
        let b = choose|b: int| 0 <= b <= t.len() && trim_end(t) == t.subrange(0, b);
        assert(trim_end(s) =~= s.subrange(0, b));
        if trim_end(s).len() > 0 && t.len() > 0 {
            assert(t[0] == s[0]);
        }
    } else {
        assert(trim_end(s) =~= s.subrange(0, s.len() as int));
    }
}

/// A string with no whitespace at its ends is its own trim.
pub proof fn lemma_trim_fixed(s: Seq<char>)
    requires
        s.len() > 0 ==> !is_ws(s[0]) && !is_ws(s.last()),
    ensures
        trim(s) == s,
{
}

/// Law: trimming twice is trimming once.
pub proof fn law_trim_idempotent(s: Seq<char>)
    ensures
        trim(trim(s)) == trim(s),
{
    lemma_trim_ends(s);
    lemma_trim_fixed(trim(s));
}

/// Whitespace added at the ends of `s` does not change its trim.
pub proof fn lemma_trim_pad(s: Seq<char>, w: char)
    requires
        is_ws(w),
    ensures
        trim(seq![w] + s) == trim(s),
        trim(s + seq![w]) == trim(s),
{
    let l = seq![w] + s;
    assert(l.subrange(1, l.len() as int) =~= s);
    let r = s + seq![w];
    lemma_trim_start_sub(s);
    let a = choose|a: int| 0 <= a <= s.len() && trim_start(s) == s.subrange(a, s.len() as int);
    lemma_trim_start_prefix(s, seq![w], a);
    let t = trim_start(s);
    if t.len() > 0 {
        assert(trim_start(r) == t + seq![w]);
        assert((t + seq![w]).drop_last() =~= t);
        assert((t + seq![w]).last() == w);
    } else {
        assert(trim_start(r) =~= Seq::<char>::empty());
        assert(t =~= Seq::<char>::empty());
    }
}

/// Trimming the start of `s + tail` removes what trimming `s` removes, as long
/// as `s` has something left after its leading whitespace.
proof fn lemma_trim_start_prefix(s: Seq<char>, tail: Seq<char>, a: int)
    requires
        0 <= a <= s.len(),
        trim_start(s) == s.subrange(a, s.len() as int),
        forall|k: int| 0 <= k < tail.len() ==> is_ws(#[trigger] tail[k]),
    ensures
        trim_start(s).len() > 0 ==> trim_start(s + tail) == trim_start(s) + tail,
        trim_start(s).len() == 0 ==> trim_start(s + tail).len() == 0,
    decreases s.len(),
{
    if s.len() > 0 && is_ws(s[0]) {
        let t = s.subrange(1, s.len() as int);
        assert((s + tail).subrange(1, (s + tail).len() as int) =~= t + tail);
        lemma_trim_start_sub(t);
        let b = choose|b: int| 0 <= b <= t.len() && trim_start(t) == t.subrange(b, t.len() as int);
        lemma_trim_start_prefix(t, tail, b);
    } else if s.len() > 0 {
        assert((s + tail)[0] == s[0]);
    } else {
        assert(s + tail =~= tail);
        lemma_trim_start_skip(tail, tail.len() as int);
        assert(tail.subrange(tail.len() as int, tail.len() as int) =~= Seq::<char>::empty());
    }
}

/// Splitting at `c` a text that ends in `c`.
pub proof fn lemma_split_scan_sep(s: Seq<char>, c: char)
    ensures
        split_scan(s + seq![c], c) == (split_scan(s, c).0.push(split_scan(s, c).1), Seq::<
            char,
        >::empty()),
{
    assert((s + seq![c]).drop_last() =~= s);
}

/// Splitting at `c` a text that ends in text without `c`.
pub proof fn lemma_split_scan_plain(s: Seq<char>, t: Seq<char>, c: char)
    requires
        !has_char(t, c),
    ensures
        split_scan(s + t, c) == (split_scan(s, c).0, split_scan(s, c).1 + t),
    decreases t.len(),
{
    if t.len() == 0 {
        assert(s + t =~= s);
        assert(split_scan(s, c).1 + t =~= split_scan(s, c).1);
    } else {
        let t0 = t.drop_last();
        assert(!has_char(t0, c)) by {
            if has_char(t0, c) {
                let i = choose|i: int| 0 <= i < t0.len() && t0[i] == c;
                assert(t[i] == c);
            }
        }
        lemma_split_scan_plain(s, t0, c);
        assert((s + t).drop_last() =~= s + t0);
        assert(t.last() != c) by {
            assert(t[t.len() - 1] == t.last());
        }
        assert(split_scan(s, c).1 + t0 + seq![t.last()] =~= split_scan(s, c).1 + t);
        assert((split_scan(s, c).1 + t0).push(t.last()) =~= split_scan(s, c).1 + t0 + seq![
            t.last(),
        ]);
    }
}

/// Splitting a text without `c` gives the text itself.
pub proof fn lemma_split_plain(t: Seq<char>, c: char)
    requires
        !has_char(t, c),
    ensures
        split(t, c) == seq![t],
{
    lemma_split_scan_plain(Seq::empty(), t, c);
    assert(Seq::<char>::empty() + t =~= t);
    assert(split_scan(Seq::<char>::empty(), c).1 + t =~= t);
    assert(split(t, c) =~= seq![t]);
}

proof fn lemma_split_scan_found(s: Seq<char>, c: char)
    requires
        has_char(s, c),
    ensures
        split_scan(s, c).0.len() >= 1,
    decreases s.len(),
{
    let i = choose|i: int| 0 <= i < s.len() && s[i] == c;
    if s.last() != c {
        let t = s.drop_last();
        assert(i < s.len() - 1);
        assert(t[i] == c);
        lemma_split_scan_found(t, c);
    }
}

/// A text splits into more than one piece exactly when it holds the
/// separator.
pub proof fn lemma_split_len(s: Seq<char>, c: char)
    ensures
        split(s, c).len() > 1 <==> has_char(s, c),
{
    if has_char(s, c) {
        lemma_split_scan_found(s, c);
    } else {
        lemma_split_plain(s, c);
    }
}

/// The pieces of a split hold no separator.
pub proof fn lemma_split_pieces(s: Seq<char>, c: char)
    ensures
        forall|k: int| 0 <= k < split(s, c).len() ==> !has_char(#[trigger] split(s, c)[k], c),
        split(s, c).len() >= 1,
{
    lemma_split_scan_pieces(s, c);
}

proof fn lemma_split_scan_pieces(s: Seq<char>, c: char)
    ensures
        forall|k: int|
            0 <= k < split_scan(s, c).0.len() ==> !has_char(#[trigger] split_scan(s, c).0[k], c),
        !has_char(split_scan(s, c).1, c),
    decreases s.len(),
{
    if s.len() > 0 {
        lemma_split_scan_pieces(s.drop_last(), c);
        let prev = split_scan(s.drop_last(), c);
        if s.last() != c {
            assert(!has_char(prev.1.push(s.last()), c)) by {
                if has_char(prev.1.push(s.last()), c) {
                    let i = choose|i: int|
                        0 <= i < prev.1.push(s.last()).len() && prev.1.push(s.last())[i] == c;
                    if i < prev.1.len() {
                        assert(prev.1[i] == c);
                    }
                }
            }
        }
    }
}

/// Joining and re-splitting: the pieces come back with the padding that the
/// separator `" | "` leaves around them.
proof fn lemma_split_join_bar(xs: Seq<Seq<char>>)
    requires
        xs.len() >= 1,
        forall|k: int| 0 <= k < xs.len() ==> !has_char(#[trigger] xs[k], '|'),
    ensures
        split(join(xs, bar_sep()), '|').len() == xs.len(),
        forall|k: int|
            0 <= k < xs.len() ==> trim(#[trigger] split(join(xs, bar_sep()), '|')[k])
                == trim(xs[k]),
    decreases xs.len(),
{
    let sep = bar_sep();
    assert(sep =~= seq![' '] + seq!['|'] + seq![' ']);
    if xs.len() == 1 {
        lemma_split_plain(xs[0], '|');
    } else {
        let ys = xs.drop_last();
        let j = join(ys, sep);
        let x = xs.last();
        assert(forall|k: int| 0 <= k < ys.len() ==> ys[k] == xs[k]);
        lemma_split_join_bar(ys);
        assert(xs[xs.len() - 1] == x);
        assert(join(xs, sep) == j + sep + x);
        // j + " " | " " + x
        assert(!has_char(seq![' '], '|')) by {
            if has_char(seq![' '], '|') {
                let i = choose|i: int| 0 <= i < 1 && seq![' '][i] == '|';
            }
        }
        lemma_split_scan_plain(j, seq![' '], '|');
        lemma_split_scan_sep(j + seq![' '], '|');
        let tail = seq![' '] + x;
        assert(!has_char(tail, '|')) by {
            if has_char(tail, '|') {
                let i = choose|i: int| 0 <= i < tail.len() && tail[i] == '|';
                if i > 0 {
                    assert(x[i - 1] == '|');
                }
            }
        }
        lemma_split_scan_plain(j + seq![' '] + seq!['|'], tail, '|');
        assert(j + sep + x =~= j + seq![' '] + seq!['|'] + tail);
        let pj = split_scan(j, '|');
        assert(split_scan(Seq::<char>::empty(), '|').1 + tail =~= tail);
        let whole = split(join(xs, sep), '|');
        assert(whole =~= pj.0.push(pj.1 + seq![' ']).push(Seq::<char>::empty() + tail));
        assert forall|k: int| 0 <= k < xs.len() implies trim(#[trigger] whole[k]) == trim(xs[k]) by {
            if k < xs.len() - 2 {
                assert(whole[k] == split(j, '|')[k]);
            } else if k == xs.len() - 2 {
                assert(whole[k] == split(j, '|')[k] + seq![' ']);
                lemma_trim_pad(split(j, '|')[k], ' ');
            } else {
                assert(whole[k] =~= seq![' '] + x);
                lemma_trim_pad(x, ' ');
            }
        }
    }
}

/// The segments of a pipeline: the trimmed pieces between `|`.
pub open spec fn pipe_segments(s: Seq<char>) -> Seq<Seq<char>> {
    split(s, '|').map_values(|p: Seq<char>| trim(p))
}

/// Segments are trimmed and hold no `|`.
pub proof fn lemma_pipe_segments(s: Seq<char>)
    ensures
        pipe_segments(s).len() >= 1,
        forall|k: int|
            0 <= k < pipe_segments(s).len() ==> !has_char(#[trigger] pipe_segments(s)[k], '|')
                && trim(pipe_segments(s)[k]) == pipe_segments(s)[k],
{
    lemma_split_pieces(s, '|');
    assert forall|k: int| 0 <= k < pipe_segments(s).len() implies !has_char(
        #[trigger] pipe_segments(s)[k],
        '|',
    ) && trim(pipe_segments(s)[k]) == pipe_segments(s)[k] by {
        let p = split(s, '|')[k];
        lemma_trim_ends(p);
        law_trim_idempotent(p);
        let (a, b) = choose|a: int, b: int| 0 <= a <= b <= p.len() && trim(p) == p.subrange(a, b);
        if has_char(trim(p), '|') {
            let i = choose|i: int| 0 <= i < trim(p).len() && trim(p)[i] == '|';
            assert(p[a + i] == '|');
        }
    }
}

/// Joining segments with `" | "` and taking the segments again gives them back.
pub proof fn lemma_pipe_segments_join(xs: Seq<Seq<char>>)
    requires
        xs.len() >= 1,
        forall|k: int|
            0 <= k < xs.len() ==> !has_char(#[trigger] xs[k], '|') && trim(xs[k]) == xs[k],
    ensures
        pipe_segments(join(xs, bar_sep())) == xs,
{
    lemma_split_join_bar(xs);
    assert(pipe_segments(join(xs, bar_sep())) =~= xs);
}

/// A non-empty text without whitespace.
pub open spec fn is_word(w: Seq<char>) -> bool {
    w.len() > 0 && forall|i: int| 0 <= i < w.len() ==> !is_ws(#[trigger] w[i])
}

proof fn lemma_words_scan_clean(s: Seq<char>)
    ensures
        forall|k: int| 0 <= k < words_scan(s).0.len() ==> is_word(#[trigger] words_scan(s).0[k]),
        forall|i: int| 0 <= i < words_scan(s).1.len() ==> !is_ws(#[trigger] words_scan(s).1[i]),
    decreases s.len(),
{
    if s.len() > 0 {
        lemma_words_scan_clean(s.drop_last());
        let prev = words_scan(s.drop_last());
        if is_ws(s.last()) {
            if prev.1.len() > 0 {
                assert forall|k: int| 0 <= k < prev.0.push(prev.1).len() implies is_word(
                    #[trigger] prev.0.push(prev.1)[k],
                ) by {
                    if k < prev.0.len() {
                        assert(prev.0.push(prev.1)[k] == prev.0[k]);
                    }
                }
            }
        } else {
            assert forall|i: int| 0 <= i < prev.1.push(s.last()).len() implies !is_ws(
                #[trigger] prev.1.push(s.last())[i],
            ) by {
                if i < prev.1.len() {
                    assert(prev.1.push(s.last())[i] == prev.1[i]);
                }
            }
        }
    }
}

/// Law: the words of a text (the arguments of a command) are never empty and
/// hold no whitespace.
pub proof fn law_words_are_words(s: Seq<char>)
    ensures
        forall|k: int| 0 <= k < words(s).len() ==> is_word(#[trigger] words(s)[k]),
{
    lemma_words_scan_clean(s);
    let sc = words_scan(s);
    if sc.1.len() > 0 {
        assert forall|k: int| 0 <= k < sc.0.push(sc.1).len() implies is_word(
            #[trigger] sc.0.push(sc.1)[k],
        ) by {
            if k < sc.0.len() {
                assert(sc.0.push(sc.1)[k] == sc.0[k]);
            }
        }
    }
}

// ---------------------------------------------------------------------------
// Executable functions
// ---------------------------------------------------------------------------
/// Appends one character to a string (std's `String::push`).
#[verifier::external_body]
pub(crate) fn push_char(s: &mut String, c: char)
    ensures
        final(s)@ == old(s)@.push(c),
{
    s.push(c);
}

/// `char::is_whitespace`.
pub fn is_whitespace(c: char) -> (r: bool)
    ensures
        r == is_ws(c),
{
    let x = c as u32;
    (9 <= x && x <= 13) || x == 32 || x == 0x85 || x == 0xa0 || x == 0x1680 || (0x2000 <= x && x
        <= 0x200a) || x == 0x2028 || x == 0x2029 || x == 0x202f || x == 0x205f || x == 0x3000
}

/// The characters of `s`, in order.
pub fn chars_of(s: &str) -> (v: Vec<char>)
    ensures
        v@ == s@,
{
    let mut v: Vec<char> = Vec::new();
    for c in it: s.chars()
        invariant
            v@ == it.seq().take(it.index() as int),
    {
        v.push(c);
    }
    v
}

/// The string made of the characters `v[from..to]`.
pub fn string_of_range(v: &Vec<char>, from: usize, to: usize) -> (s: String)
    requires
        from <= to <= v.len(),
    ensures
        s@ == v@.subrange(from as int, to as int),
{
    let mut s = String::new();
    let mut i = from;
    while i < to
        invariant
            from <= i <= to <= v.len(),
            s@ == v@.subrange(from as int, i as int),
        decreases to - i,
    {
        push_char(&mut s, v[i]);
        assert(v@.subrange(from as int, i + 1) == v@.subrange(from as int, i as int).push(
            v@[i as int],
        ));
        i += 1;
    }
    s
}

/// The strings selected by the ranges `rs` of `v`.
pub fn strings_of_ranges(v: &Vec<char>, rs: &Vec<(usize, usize)>) -> (out: Vec<String>)
    requires
        ranges_within(rs@, 0, v.len() as int),
    ensures
        views(out@) == ranges_view(v@, rs@),
{
    let mut out: Vec<String> = Vec::new();
    let mut k: usize = 0;
    while k < rs.len()
        invariant
            k <= rs.len(),
            ranges_within(rs@, 0, v.len() as int),
            views(out@) == ranges_view(v@, rs@.take(k as int)),
        decreases rs.len() - k,
    {
        let (a, b) = rs[k];
        assert(rs@[k as int].0 <= rs@[k as int].1 <= v.len());
        let s = string_of_range(v, a, b);
        let ghost before = out@;
        out.push(s);
        assert(views(out@) =~= views(before).push(s@));
        assert(rs@.take(k + 1) =~= rs@.take(k as int).push(rs@[k as int]));
        assert(views(out@) =~= ranges_view(v@, rs@.take(k + 1)));
        k += 1;
    }
    assert(rs@.take(rs.len() as int) =~= rs@);
    out
}

/// The range of `v[from..to]` left after trimming whitespace at both ends.
pub fn trim_range(v: &Vec<char>, from: usize, to: usize) -> (r: (usize, usize))
    requires
        from <= to <= v.len(),
    ensures
        from <= r.0 <= r.1 <= to,
        v@.subrange(r.0 as int, r.1 as int) == trim(v@.subrange(from as int, to as int)),
{
    let ghost s = v@.subrange(from as int, to as int);
    let mut i = from;
    while i < to && is_whitespace(v[i])
        invariant
            from <= i <= to <= v.len(),
            forall|k: int| from <= k < i ==> is_ws(#[trigger] v@[k]),
        decreases to - i,
    {
        i += 1;
    }
    proof {
        assert forall|k: int| 0 <= k < i - from implies is_ws(#[trigger] s[k]) by {
            assert(s[k] == v@[from + k]);
        }
        lemma_trim_start_skip(s, i - from);
        assert(s.subrange(i - from, s.len() as int) =~= v@.subrange(i as int, to as int));
        let t = v@.subrange(i as int, to as int);
        if i < to {
            assert(t[0] == v@[i as int]);
        }
        assert(trim_start(t) == t);
    }
    let mut j = to;
    while j > i && is_whitespace(v[j - 1])
        invariant
            from <= i <= j <= to <= v.len(),
            forall|k: int| j <= k < to ==> is_ws(#[trigger] v@[k]),
        decreases j,
    {
        j -= 1;
    }
    proof {
        let t = v@.subrange(i as int, to as int);
        assert forall|k: int| j - i <= k < t.len() implies is_ws(#[trigger] t[k]) by {
            assert(t[k] == v@[i + k]);
        }
        lemma_trim_end_skip(t, j - i);
        let u = t.subrange(0, j - i);
        assert(u =~= v@.subrange(i as int, j as int));
        if j > i {
            assert(u.last() == v@[j - 1]);
        }
        assert(trim_end(u) == u);
    }
    (i, j)
}

/// The trim of `s` as a new string (`str::trim`).
pub fn trim_string(s: &str) -> (r: String)
    ensures
        r@ == trim(s@),
{
    let v = chars_of(s);
    let (a, b) = trim_range(&v, 0, v.len());
    assert(v@.subrange(0, v@.len() as int) =~= v@);
    string_of_range(&v, a, b)
}

/// The ranges of the pieces of `v[from..to]` between occurrences of `c`.
pub fn split_ranges(v: &Vec<char>, from: usize, to: usize, c: char) -> (rs: Vec<(usize, usize)>)
    requires
        from <= to <= v.len(),
    ensures
        ranges_within(rs@, from as int, to as int),
        ranges_view(v@, rs@) == split(v@.subrange(from as int, to as int), c),
{
    let mut rs: Vec<(usize, usize)> = Vec::new();
    let mut start = from;
    let mut i = from;
    while i < to
        invariant
            from <= start <= i <= to <= v.len(),
            ranges_within(rs@, from as int, i as int),
            ranges_view(v@, rs@) == split_scan(v@.subrange(from as int, i as int), c).0,
            v@.subrange(start as int, i as int) == split_scan(
                v@.subrange(from as int, i as int),
                c,
            ).1,
        decreases to - i,
    {
        let ghost p = v@.subrange(from as int, i + 1);
        assert(p.drop_last() =~= v@.subrange(from as int, i as int));
        assert(p.last() == v@[i as int]);
        if v[i] == c {
            rs.push((start, i));
            start = i + 1;
            assert(ranges_view(v@, rs@) =~= split_scan(p, c).0);
            assert(v@.subrange(start as int, i + 1) =~= Seq::<char>::empty());
        } else {
            assert(v@.subrange(start as int, i + 1) =~= v@.subrange(start as int, i as int).push(
                v@[i as int],
            ));
        }
        i += 1;
    }
    rs.push((start, to));
    assert(ranges_view(v@, rs@) =~= split(v@.subrange(from as int, to as int), c));
    rs
}

/// The ranges of the words of `v[from..to]`.
pub fn word_ranges(v: &Vec<char>, from: usize, to: usize) -> (rs: Vec<(usize, usize)>)
    requires
        from <= to <= v.len(),
    ensures
        ranges_within(rs@, from as int, to as int),
        ranges_view(v@, rs@) == words(v@.subrange(from as int, to as int)),
{
    let mut rs: Vec<(usize, usize)> = Vec::new();
    let mut start = from;
    let mut i = from;
    while i < to
        invariant
            from <= start <= i <= to <= v.len(),
            ranges_within(rs@, from as int, i as int),
            ranges_view(v@, rs@) == words_scan(v@.subrange(from as int, i as int)).0,
            v@.subrange(start as int, i as int) == words_scan(v@.subrange(from as int, i as int)).1,
        decreases to - i,
    {
        let ghost p = v@.subrange(from as int, i + 1);
        assert(p.drop_last() =~= v@.subrange(from as int, i as int));
        assert(p.last() == v@[i as int]);
        if is_whitespace(v[i]) {
            if start < i {
                rs.push((start, i));
                assert(ranges_view(v@, rs@) =~= words_scan(p).0);
            } else {
                assert(v@.subrange(start as int, i as int).len() == 0);
            }
            start = i + 1;
            assert(v@.subrange(start as int, i + 1) =~= Seq::<char>::empty());
        } else {
            assert(v@.subrange(start as int, i + 1) =~= v@.subrange(start as int, i as int).push(
                v@[i as int],
            ));
        }
        i += 1;
    }
    if start < to {
        rs.push((start, to));
        assert(ranges_view(v@, rs@) =~= words(v@.subrange(from as int, to as int)));
    } else {
        assert(v@.subrange(start as int, to as int).len() == 0);
    }
    rs
}

/// The words of `s` as strings (`str::split_whitespace`).
pub fn words_of(s: &str) -> (out: Vec<String>)
    ensures
        views(out@) == words(s@),
{
    let v = chars_of(s);
    let rs = word_ranges(&v, 0, v.len());
    assert(v@.subrange(0, v@.len() as int) =~= v@);
    strings_of_ranges(&v, &rs)
}

/// The position of the first `c` in `v`, if any.
pub fn find_char(v: &Vec<char>, c: char) -> (r: Option<usize>)
    ensures
        match r {
            Some(i) => is_first(v@, c, i as int),
            None => !has_char(v@, c),
        },
{
    let mut i: usize = 0;
    while i < v.len()
        invariant
            i <= v.len(),
            forall|j: int| 0 <= j < i ==> v@[j] != c,
        decreases v.len() - i,
    {
        if v[i] == c {
            return Some(i);
        }
        i += 1;
    }
    None
}

/// `str::split_once` on a char, as two new strings.
pub fn split_once_string(s: &str, c: char) -> (r: Option<(String, String)>)
    ensures
        match r {
            Some(p) => split_once(s@, c) == Some((p.0@, p.1@)),
            None => split_once(s@, c) is None,
        },
{
    let v = chars_of(s);
    match find_char(&v, c) {
        Some(i) => {
            proof {
                let k = choose|k: int| is_first(v@, c, k);
                assert(k == i) by {
                    if k < i {
                        assert(v@[k] == c);
                    } else if k > i {
                        assert(v@[i as int] == c);
                    }
                }
            }
            let a = string_of_range(&v, 0, i);
            let b = string_of_range(&v, i + 1, v.len());
            Some((a, b))
        },
        None => {
            proof {
                if exists|k: int| is_first(v@, c, k) {
                    let k = choose|k: int| is_first(v@, c, k);
                    assert(has_char(v@, c));
                }
            }
            None
        },
    }
}

/// The pieces `v[rs[k]]` with `sep` between neighbours, as a new string.
pub fn join_ranges(v: &Vec<char>, rs: &Vec<(usize, usize)>, sep: &str) -> (out: String)
    requires
        ranges_within(rs@, 0, v.len() as int),
    ensures
        out@ == join(ranges_view(v@, rs@), sep@),
{
    let mut out = String::new();
    let mut k: usize = 0;
    while k < rs.len()
        invariant
            k <= rs.len(),
            ranges_within(rs@, 0, v.len() as int),
            out@ == join(ranges_view(v@, rs@.take(k as int)), sep@),
        decreases rs.len() - k,
    {
        let ghost before = out@;
        let ghost xs = ranges_view(v@, rs@.take(k + 1));
        assert(rs@.take(k + 1).drop_last() =~= rs@.take(k as int));
        assert(xs.drop_last() =~= ranges_view(v@, rs@.take(k as int)));
        if k > 0 {
            out.append(sep);
        }
        let (a, b) = rs[k];
        assert(rs@[k as int].0 <= rs@[k as int].1 <= v.len());
        let mut i = a;
        while i < b
            invariant
                a <= i <= b <= v.len(),
                out@ == (if k > 0 {
                    before + sep@
                } else {
                    before
                }) + v@.subrange(a as int, i as int),
            decreases b - i,
        {
            push_char(&mut out, v[i]);
            assert(v@.subrange(a as int, i + 1) =~= v@.subrange(a as int, i as int).push(
                v@[i as int],
            ));
            i += 1;
        }
        assert(xs.last() == v@.subrange(a as int, b as int));
        if k == 0 {
            assert(before =~= Seq::<char>::empty());
            assert(out@ =~= join(xs, sep@));
        } else {
            assert(out@ =~= join(xs, sep@));
        }
        k += 1;
    }
    assert(rs@.take(rs.len() as int) =~= rs@);
    out
}

} // verus!
