//! The command splitter: turns one raw shell line into the ordered list of
//! sub-commands it executes, each paired with the literal name of the
//! program it invokes (the first word of the sub-command).
//!
//! A raw line is cut at every statement separator (`;` and newline), at
//! every conditional operator (`&&` and `||`) and at every pipe (`|`); the
//! operator text itself is discarded.  A `||` is two adjacent pipe cuts, so
//! one cut rule for `|` covers both.  Each piece is trimmed of surrounding
//! whitespace and dropped if nothing remains.  A lone `&` is ordinary text.

use vstd::prelude::*;

verus! {

/// Characters that cut the line on their own: statement separators and the pipe.
pub open spec fn is_sep(c: char) -> bool {
    c == ';' || c == '\n' || c == '|'
}

/// The whitespace characters that trimming and word splitting recognise.
pub open spec fn is_space(c: char) -> bool {
    c == ' ' || c == '\t' || c == '\r' || c == '\n'
}

/// A two-character `&&` cut starts at position `i`.
pub open spec fn double_cut_at(s: Seq<char>, i: int) -> bool {
    0 <= i && i + 1 < s.len() && s[i] == '&' && s[i + 1] == '&'
}

/// A one-character cut sits at position `i`.
pub open spec fn single_cut_at(s: Seq<char>, i: int) -> bool {
    0 <= i < s.len() && is_sep(s[i])
}

/// Some cut starts at position `i`.
pub open spec fn cut_at(s: Seq<char>, i: int) -> bool {
    double_cut_at(s, i) || single_cut_at(s, i)
}

/// The line contains no separator at all.
pub open spec fn no_cut(s: Seq<char>) -> bool {
    forall|i: int| !cut_at(s, i)
}

/// The raw segments of the line, in order: the maximal pieces between
/// cuts, not yet trimmed.  Always at least one segment, possibly empty.
pub open spec fn segments(s: Seq<char>) -> Seq<Seq<char>>
    decreases s.len(),
{
    if s.len() == 0 {
        seq![Seq::<char>::empty()]
    } else if s.len() >= 2 && s[0] == '&' && s[1] == '&' {
        seq![Seq::<char>::empty()] + segments(s.skip(2))
    } else if is_sep(s[0]) {
        seq![Seq::<char>::empty()] + segments(s.skip(1))
    } else {
        let rest = segments(s.skip(1));
        seq![seq![s[0]] + rest[0]] + rest.drop_first()
    }
}

/// `s` without its leading whitespace.
pub open spec fn trim_start(s: Seq<char>) -> Seq<char>
    decreases s.len(),
{
    if s.len() > 0 && is_space(s[0]) {
        trim_start(s.drop_first())
    } else {
        s
    }
}

/// `s` without its trailing whitespace.
pub open spec fn trim_end(s: Seq<char>) -> Seq<char>
    decreases s.len(),
{
    if s.len() > 0 && is_space(s.last()) {
        trim_end(s.drop_last())
    } else {
        s
    }
}

/// `s` without surrounding whitespace.
pub open spec fn trim(s: Seq<char>) -> Seq<char> {
    trim_end(trim_start(s))
}

/// The first whitespace-delimited word of `s`.
pub open spec fn first_word(s: Seq<char>) -> Seq<char>
    decreases s.len(),
{
    if s.len() == 0 || is_space(s[0]) {
        Seq::<char>::empty()
    } else {
        seq![s[0]] + first_word(s.drop_first())
    }
}

/// What one raw segment contributes: nothing if it trims to nothing,
/// otherwise the pair of its trimmed text and that text's first word.
pub open spec fn seg_pairs(seg: Seq<char>) -> Seq<(Seq<char>, Seq<char>)> {
    if trim(seg).len() == 0 {
        Seq::<(Seq<char>, Seq<char>)>::empty()
    } else {
        seq![(trim(seg), first_word(trim(seg)))]
    }
}

/// The contributions of a list of segments, concatenated in order.
pub open spec fn pairs_of(segs: Seq<Seq<char>>) -> Seq<(Seq<char>, Seq<char>)>
    decreases segs.len(),
{
    if segs.len() == 0 {
        Seq::<(Seq<char>, Seq<char>)>::empty()
    } else {
        seg_pairs(segs[0]) + pairs_of(segs.drop_first())
    }
}

/// The meaning of splitting a raw line: every sub-command with its
/// invoked name, in left-to-right order of execution.
pub open spec fn parse_line(s: Seq<char>) -> Seq<(Seq<char>, Seq<char>)> {
    pairs_of(segments(s))
}

/// The views of an executable list of pairs.
pub open spec fn pairs_view(v: Seq<(String, String)>) -> Seq<(Seq<char>, Seq<char>)> {
    v.map_values(|p: (String, String)| (p.0@, p.1@))
}

/// Splitting always yields at least one (possibly empty) raw segment.
proof fn lemma_segments_nonempty(s: Seq<char>)
    ensures
        segments(s).len() >= 1,
    decreases s.len(),
{
    if s.len() == 0 {
    } else if s.len() >= 2 && s[0] == '&' && s[1] == '&' {
        lemma_segments_nonempty(s.skip(2));
    } else if is_sep(s[0]) {
        lemma_segments_nonempty(s.skip(1));
    } else {
        lemma_segments_nonempty(s.skip(1));
    }
}

/// A line without any cut is one single raw segment.
proof fn lemma_segments_no_cut(s: Seq<char>)
    requires
        forall|i: int| 0 <= i < s.len() ==> !cut_at(s, i),
    ensures
        segments(s) == seq![s],
    decreases s.len(),
{
    if s.len() == 0 {
        assert(segments(s) =~~= seq![s]);
    } else {
        assert(!cut_at(s, 0));
        let tail = s.skip(1);
        assert(forall|i: int| 0 <= i < tail.len() ==> !(#[trigger] cut_at(tail, i))) by {
            assert(forall|i: int|
                0 <= i < tail.len() ==> (#[trigger] tail[i] == s[i + 1] && (i + 1 < tail.len()
                    ==> tail[i + 1] == s[i + 2])));
            assert(forall|i: int|
                0 <= i < tail.len() && #[trigger] cut_at(tail, i) ==> cut_at(s, i + 1));
        }
        lemma_segments_no_cut(tail);
        let rest = segments(tail);
        assert(rest == seq![tail]);
        assert(seq![s[0]] + tail =~= s);
        assert(segments(s) =~~= seq![s]);
    }
}

/// If the first cut of the line starts at `j` and is `w` characters wide,
/// the raw segments are the prefix before the cut followed by the
/// segments of what comes after it.
proof fn lemma_segments_first_cut(s: Seq<char>, j: int, w: int)
    requires
        0 <= j,
        j + w <= s.len(),
        w == 2 ==> double_cut_at(s, j),
        w == 1 ==> single_cut_at(s, j),
        w == 1 || w == 2,
        forall|i: int| 0 <= i < j ==> !cut_at(s, i),
    ensures
        segments(s) == seq![s.subrange(0, j)] + segments(s.skip(j + w)),
    decreases j,
{
    if j == 0 {
        if w == 2 {
            assert(s.len() >= 2 && s[0] == '&' && s[1] == '&');
            assert(s.subrange(0, 0) =~= Seq::<char>::empty());
            assert(segments(s) =~~= seq![s.subrange(0, 0)] + segments(s.skip(2)));
        } else {
            assert(is_sep(s[0]));
            assert(!(s.len() >= 2 && s[0] == '&' && s[1] == '&'));
            assert(s.subrange(0, 0) =~= Seq::<char>::empty());
            assert(segments(s) =~~= seq![s.subrange(0, 0)] + segments(s.skip(1)));
        }
    } else {
        assert(!cut_at(s, 0));
        assert(!(s.len() >= 2 && s[0] == '&' && s[1] == '&'));
        assert(!is_sep(s[0]));
        let tail = s.skip(1);
        assert(forall|i: int|
            0 <= i < tail.len() ==> (#[trigger] tail[i] == s[i + 1] && (i + 1 < tail.len() ==> tail[i + 1]
                == s[i + 2])));
        assert(forall|i: int| 0 <= i < j - 1 ==> !cut_at(tail, i)) by {
            assert(forall|i: int|
                0 <= i < j - 1 ==> (cut_at(tail, i) ==> cut_at(s, i + 1)));
        }
        if w == 2 {
            assert(double_cut_at(tail, j - 1));
        } else {
            assert(single_cut_at(tail, j - 1));
        }
        lemma_segments_first_cut(tail, j - 1, w);
        lemma_segments_nonempty(tail.skip(j - 1 + w));
        let rest = segments(tail);
        assert(rest == seq![tail.subrange(0, j - 1)] + segments(tail.skip(j - 1 + w)));
        assert(tail.skip(j - 1 + w) =~= s.skip(j + w));
        assert(rest[0] == tail.subrange(0, j - 1));
        assert(rest.drop_first() =~~= segments(s.skip(j + w)));
        assert(seq![s[0]] + tail.subrange(0, j - 1) =~= s.subrange(0, j));
        assert(segments(s) =~~= seq![s.subrange(0, j)] + segments(s.skip(j + w)));
    }
}

/// Prepending one segment prepends its contribution.
proof fn lemma_pairs_of_cons(seg: Seq<char>, rest: Seq<Seq<char>>)
    ensures
        pairs_of(seq![seg] + rest) == seg_pairs(seg) + pairs_of(rest),
{
    let whole = seq![seg] + rest;
    assert(whole.len() >= 1);
    assert(whole[0] == seg);
    assert(whole.drop_first() =~~= rest);
}

/// Trimming from the front removes exactly the leading whitespace.
proof fn lemma_trim_start_at(s: Seq<char>, ts: int)
    requires
        0 <= ts <= s.len(),
        forall|i: int| 0 <= i < ts ==> is_space(s[i]),
        ts == s.len() || !is_space(s[ts]),
    ensures
        trim_start(s) == s.skip(ts),
    decreases ts,
{
    if ts == 0 {
        assert(s.skip(0) =~= s);
    } else {
        assert(is_space(s[0]));
        let tail = s.drop_first();
        assert(forall|i: int| 0 <= i < ts - 1 ==> #[trigger] tail[i] == s[i + 1]);
        lemma_trim_start_at(tail, ts - 1);
        assert(tail.skip(ts - 1) =~= s.skip(ts));
    }
}

/// Trimming from the back removes exactly the trailing whitespace.
proof fn lemma_trim_end_at(s: Seq<char>, te: int)
    requires
        0 <= te <= s.len(),
        forall|i: int| te <= i < s.len() ==> is_space(s[i]),
        te == 0 || !is_space(s[te - 1]),
    ensures
        trim_end(s) == s.subrange(0, te),
    decreases s.len() - te,
{
    if te == s.len() {
        if s.len() == 0 {
            assert(s.subrange(0, 0) =~= s);
        } else {
            assert(!is_space(s.last()));
            assert(s.subrange(0, te) =~= s);
        }
    } else {
        assert(is_space(s.last()));
        let head = s.drop_last();
        assert(forall|i: int| te <= i < head.len() ==> is_space(head[i]));
        lemma_trim_end_at(head, te);
        assert(head.subrange(0, te) =~= s.subrange(0, te));
    }
}

/// The first word is exactly the prefix up to the first whitespace.
proof fn lemma_first_word_at(s: Seq<char>, e: int)
    requires
        0 <= e <= s.len(),
        forall|i: int| 0 <= i < e ==> !is_space(s[i]),
        e == s.len() || is_space(s[e]),
    ensures
        first_word(s) == s.subrange(0, e),
    decreases e,
{
    if e == 0 {
        assert(s.subrange(0, 0) =~= Seq::<char>::empty());
    } else {
        assert(!is_space(s[0]));
        let tail = s.drop_first();
        assert(forall|i: int| 0 <= i < e - 1 ==> #[trigger] tail[i] == s[i + 1]);
        lemma_first_word_at(tail, e - 1);
        assert(seq![s[0]] + tail.subrange(0, e - 1) =~= s.subrange(0, e));
    }
}

/// A raw line without separators yields exactly one pair: its trimmed
/// text together with that text's first word.  (A line that trims to
/// nothing yields no pair at all; the caller logs it verbatim instead.)
pub proof fn lemma_no_separator_single_pair(s: Seq<char>)
    requires
        no_cut(s),
        trim(s).len() > 0,
    ensures
        parse_line(s) == seq![(trim(s), first_word(trim(s)))],
{
    lemma_segments_no_cut(s);
    lemma_pairs_of_cons(s, Seq::<Seq<char>>::empty());
    assert(seq![s] + Seq::<Seq<char>>::empty() =~~= seq![s]);
    assert(pairs_of(Seq::<Seq<char>>::empty()) =~~= Seq::<(Seq<char>, Seq<char>)>::empty());
    assert(parse_line(s) =~~= seq![(trim(s), first_word(trim(s)))]);
}

/// Emits the contribution of the raw segment `command[a..b)` onto `out`.
fn emit_segment(command: &str, a: usize, b: usize, out: &mut Vec<(String, String)>)
    requires
        a <= b <= command@.len(),
    ensures
        pairs_view(final(out)@) == pairs_view(old(out)@) + seg_pairs(
            command@.subrange(a as int, b as int),
        ),
{
    let ghost seg = command@.subrange(a as int, b as int);
    let mut ts: usize = a;
    while ts < b && is_space_char(command.get_char(ts))
        invariant
            a <= ts <= b <= command@.len(),
            forall|i: int| a <= i < ts ==> is_space(command@[i]),
        decreases b - ts,
    {
        ts = ts + 1;
    }
    let mut te: usize = b;
    while te > ts && is_space_char(command.get_char(te - 1))
        invariant
            a <= ts <= te <= b <= command@.len(),
            forall|i: int| te <= i < b ==> is_space(command@[i]),
        decreases te,
    {
        te = te - 1;
    }
    proof {
        lemma_trim_start_at(seg, ts - a);
        let t1 = seg.skip(ts - a);
        assert(forall|i: int| 0 <= i < t1.len() ==> #[trigger] t1[i] == command@[ts + i]);
        lemma_trim_end_at(t1, te - ts);
        assert(trim(seg) =~= command@.subrange(ts as int, te as int));
    }
    if ts == te {
        assert(trim(seg).len() == 0);
        assert(pairs_view(out@) =~~= pairs_view(out@) + seg_pairs(seg));
        return ;
    }
    let stage = command.substring_char(ts, te);
    let mut we: usize = ts;
    while we < te && !is_space_char(command.get_char(we))
        invariant
            ts <= we <= te <= command@.len(),
            forall|i: int| ts <= i < we ==> !is_space(command@[i]),
        decreases te - we,
    {
        we = we + 1;
    }
    let word = command.substring_char(ts, we);
    proof {
        let t = command@.subrange(ts as int, te as int);
        assert(forall|i: int| 0 <= i < t.len() ==> #[trigger] t[i] == command@[ts + i]);
        lemma_first_word_at(t, we - ts);
        assert(t.subrange(0, we - ts) =~= command@.subrange(ts as int, we as int));
        assert(first_word(trim(seg)) == command@.subrange(ts as int, we as int));
    }
    let ghost before = out@;
    out.push((stage.to_owned(), word.to_owned()));
    proof {
        assert(out@.drop_last() =~= before);
        assert(pairs_view(out@) =~~= pairs_view(before) + seg_pairs(seg));
    }
}

/// Resolves the binary name a literal token ultimately invokes, given
/// the result of an alias probe: the first word of the alias definition
/// when the probe found one and the definition has a first word, and the
/// literal token itself otherwise.  Alias resolution is best-effort
/// enrichment: a missing or blank definition falls back silently to the
/// literal token, never an error.
pub fn resolve_binary(literal: &str, alias_definition: Option<&str>) -> (r: String)
    ensures
        match alias_definition {
            Some(rhs) => if first_word(trim_start(rhs@)).len() > 0 {
                r@ == first_word(trim_start(rhs@))
            } else {
                r@ == literal@
            },
            None => r@ == literal@,
        },
{
    if let Some(rhs) = alias_definition {
        let n = rhs.unicode_len();
        let mut ts: usize = 0;
        while ts < n && is_space_char(rhs.get_char(ts))
            invariant
                ts <= n,
                n == rhs@.len(),
                forall|i: int| 0 <= i < ts ==> is_space(rhs@[i]),
            decreases n - ts,
        {
            ts = ts + 1;
        }
        let mut we: usize = ts;
        while we < n && !is_space_char(rhs.get_char(we))
            invariant
                ts <= we <= n,
                n == rhs@.len(),
                forall|i: int| ts <= i < we ==> !is_space(rhs@[i]),
            decreases n - we,
        {
            we = we + 1;
        }
        proof {
            lemma_trim_start_at(rhs@, ts as int);
            let t = rhs@.skip(ts as int);
            assert(forall|i: int| 0 <= i < t.len() ==> #[trigger] t[i] == rhs@[ts + i]);
            lemma_first_word_at(t, we - ts);
            assert(t.subrange(0, we - ts) =~= rhs@.subrange(ts as int, we as int));
        }
        if we > ts {
            let word = rhs.substring_char(ts, we);
            word.to_owned()
        } else {
            literal.to_owned()
        }
    } else {
        literal.to_owned()
    }
}

/// Whether a character counts as whitespace.
fn is_space_char(c: char) -> (r: bool)
    ensures
        r == is_space(c),
{
    c == ' ' || c == '\t' || c == '\r' || c == '\n'
}

/// Splits one raw shell line into its sub-commands, in the order they
/// execute, each paired with the first word of the sub-command (the
/// literal name of the program it invokes).  A blank line yields an
/// empty list; the caller is expected to fall back to logging the raw
/// line verbatim in that case.
pub fn parse_shell_command(command: &str) -> (r: Vec<(String, String)>)
    ensures
        pairs_view(r@) == parse_line(command@),
{
    let n = command.unicode_len();
    let mut out: Vec<(String, String)> = Vec::new();
    let mut start: usize = 0;
    let mut i: usize = 0;
    proof {
        assert(command@.skip(0) =~= command@);
        assert(pairs_view(out@) =~~= Seq::<(Seq<char>, Seq<char>)>::empty());
    }
    while i < n
        invariant
            start <= i <= n,
            n == command@.len(),
            forall|p: int| start <= p < i ==> !cut_at(command@, p),
            pairs_view(out@) + pairs_of(segments(command@.skip(start as int))) == parse_line(
                command@,
            ),
        decreases n - i,
    {
        let c = command.get_char(i);
        let mut width: usize = 0;
        if c == '&' && i + 1 < n && command.get_char(i + 1) == '&' {
            width = 2;
        } else if c == ';' || c == '\n' || c == '|' {
            width = 1;
        }
        if width > 0 {
            proof {
                let tail = command@.skip(start as int);
                let j = i - start;
                assert(forall|q: int| 0 <= q < tail.len() ==> #[trigger] tail[q] == command@[start + q]);
                assert(forall|q: int| 0 <= q < j ==> !cut_at(tail, q)) by {
                    assert(forall|q: int| 0 <= q < j ==> (cut_at(tail, q) ==> cut_at(
                        command@,
                        start + q,
                    )));
                }
                if width == 2 {
                    assert(double_cut_at(tail, j));
                } else {
                    assert(single_cut_at(tail, j));
                }
                lemma_segments_first_cut(tail, j, width as int);
                assert(tail.subrange(0, j) =~= command@.subrange(start as int, i as int));
                assert(tail.skip(j + width) =~= command@.skip(i + width));
                lemma_pairs_of_cons(
                    command@.subrange(start as int, i as int),
                    segments(command@.skip(i + width)),
                );
            }
            let ghost out0 = out@;
            emit_segment(command, start, i, &mut out);
            proof {
                assert(pairs_view(out@) + pairs_of(segments(command@.skip(i + width)))
                    =~~= pairs_view(out0) + pairs_of(segments(command@.skip(start as int))));
            }
            i = i + width;
            start = i;
        } else {
            proof {
                assert(!double_cut_at(command@, i as int));
                assert(!single_cut_at(command@, i as int));
            }
            i = i + 1;
        }
    }
    proof {
        let tail = command@.skip(start as int);
        assert(forall|q: int| 0 <= q < tail.len() ==> #[trigger] tail[q] == command@[start + q]);
        assert(forall|q: int| 0 <= q < tail.len() ==> !cut_at(tail, q)) by {
            assert(forall|q: int| 0 <= q < tail.len() ==> (cut_at(tail, q) ==> cut_at(
                command@,
                start + q,
            )));
        }
        lemma_segments_no_cut(tail);
        lemma_pairs_of_cons(tail, Seq::<Seq<char>>::empty());
        assert(seq![tail] + Seq::<Seq<char>>::empty() =~~= seq![tail]);
        assert(tail =~= command@.subrange(start as int, n as int));
    }
    let ghost out0 = out@;
    emit_segment(command, start, n, &mut out);
    proof {
        assert(pairs_view(out0) + pairs_of(segments(command@.skip(start as int)))
            == parse_line(command@));
        assert(pairs_view(out@) =~~= parse_line(command@));
    }
    out
}

} // verus!
