//! Splitting text into lines and selecting a bounded window of them.
//!
//! A line ends at `'\n'`; a `'\r'` directly before the `'\n'` belongs to the
//! terminator, not to the line. A final `'\n'` closes the last line rather
//! than opening an empty one. A window is the first or the last `n` lines,
//! clamped to however many lines the text has, always in original order.

use vstd::prelude::*;

verus! {

/// The characters of a line cut out just before a `'\n'`: a single `'\r'`
/// at its end is part of the terminator and is dropped.
pub open spec fn strip_cr(line: Seq<char>) -> Seq<char> {
    if line.len() > 0 && line.last() == '\r' {
        line.drop_last()
    } else {
        line
    }
}

/// Position of the first `'\n'` in `t`, or `t.len()` when `t` has none.
pub open spec fn find_newline(t: Seq<char>) -> nat
    decreases t.len(),
{
    if t.len() == 0 {
        0
    } else if t[0] == '\n' {
        0
    } else {
        1 + find_newline(t.drop_first())
    }
}

/// `find_newline` points at the first `'\n'`: nothing before it is a
/// `'\n'`, and it lies on one unless the text has none at all.
pub proof fn lemma_find_newline(t: Seq<char>)
    ensures
        find_newline(t) <= t.len(),
        forall|j: int| 0 <= j < find_newline(t) ==> t[j] != '\n',
        find_newline(t) < t.len() ==> t[find_newline(t) as int] == '\n',
    decreases t.len(),
{
    if t.len() == 0 {
    } else if t[0] == '\n' {
    } else {
        lemma_find_newline(t.drop_first());
        let i = find_newline(t);
        assert forall|j: int| 0 <= j < i implies t[j] != '\n' by {
            if j > 0 {
                assert(t.drop_first()[j - 1] == t[j]);
            }
        }
        if i < t.len() {
            assert(t.drop_first()[i - 1] == t[i as int]);
        }
    }
}

/// Any position with no `'\n'` before it, and a `'\n'` on it unless it is
/// the end, is where `find_newline` points.
pub proof fn lemma_find_newline_at(t: Seq<char>, k: int)
    requires
        0 <= k <= t.len(),
        forall|j: int| 0 <= j < k ==> t[j] != '\n',
        k < t.len() ==> t[k] == '\n',
    ensures
        find_newline(t) == k,
{
    lemma_find_newline(t);
    let i = find_newline(t) as int;
    if i < k {
        assert(t[i] == '\n');
        assert(false);
    } else if k < i {
        assert(t[k] != '\n');
        assert(false);
    }
}

/// The lines of `t`: `t` split at each `'\n'`, a `'\r'` directly before a
/// `'\n'` removed, and the empty tail after a final `'\n'` discarded.
pub open spec fn spec_lines(t: Seq<char>) -> Seq<Seq<char>>
    decreases t.len(),
{
    if t.len() == 0 {
        Seq::empty()
    } else {
        let i = find_newline(t);
        if i >= t.len() {
            seq![t]
        } else {
            seq![strip_cr(t.take(i as int))] + spec_lines(t.skip(i as int + 1))
        }
    }
}

/// How many lines `t` has.
pub open spec fn line_count(t: Seq<char>) -> nat {
    spec_lines(t).len()
}

/// The smaller of two counts.
pub open spec fn spec_min(a: nat, b: nat) -> nat {
    if a <= b {
        a
    } else {
        b
    }
}

/// The window of `n` lines out of `lines`: the first `min(n, lines.len())`
/// of them, or, when `from_end` holds, the last that many, in their
/// original order either way.
pub open spec fn spec_window(lines: Seq<Seq<char>>, n: nat, from_end: bool) -> Seq<Seq<char>> {
    let k = spec_min(n, lines.len());
    if from_end {
        lines.skip((lines.len() - k) as int)
    } else {
        lines.take(k as int)
    }
}

/// A window never reorders: taken from the front it holds exactly the first
/// `min(n, count)` lines, each at its original position.
pub proof fn lemma_window_first(lines: Seq<Seq<char>>, n: nat)
    ensures
        spec_window(lines, n, false).len() == spec_min(n, lines.len()),
        forall|i: int|
            0 <= i < spec_min(n, lines.len()) ==> spec_window(lines, n, false)[i] == lines[i],
{
}

/// Taken from the end, a window holds exactly the last `min(n, count)`
/// lines, still in their original relative order.
pub proof fn lemma_window_last(lines: Seq<Seq<char>>, n: nat)
    ensures
        spec_window(lines, n, true).len() == spec_min(n, lines.len()),
        forall|i: int|
            0 <= i < spec_min(n, lines.len()) ==> spec_window(lines, n, true)[i] == lines[
                lines.len() - spec_min(n, lines.len()) + i
            ],
{
}

/// Asking for zero lines yields no lines, from either end of any text.
pub proof fn lemma_window_zero(lines: Seq<Seq<char>>, from_end: bool)
    ensures
        spec_window(lines, 0, from_end) == Seq::<Seq<char>>::empty(),
{
    assert(spec_window(lines, 0, from_end) =~= Seq::<Seq<char>>::empty());
}

/// Asking for at least as many lines as there are yields every line, and
/// the two directions agree.
pub proof fn lemma_window_all(lines: Seq<Seq<char>>, n: nat)
    requires
        lines.len() <= n,
    ensures
        spec_window(lines, n, false) == lines,
        spec_window(lines, n, true) == lines,
        spec_window(lines, n, false) == spec_window(lines, n, true),
{
    assert(spec_window(lines, n, false) =~= lines);
    assert(spec_window(lines, n, true) =~= lines);
}

/// Split `text` into its lines.
pub fn split_lines(text: &str) -> (lines: Vec<String>)
    ensures
        lines.deep_view() == spec_lines(text@),
{
    let n: usize = text.unicode_len();
    let mut out: Vec<String> = Vec::new();
    let mut start: usize = 0;
    let mut i: usize = 0;
    proof {
        assert(text@.skip(0) =~= text@);
        assert(out.deep_view() + spec_lines(text@) =~= spec_lines(text@));
    }
    while i < n
        invariant
            n == text@.len(),
            start <= i <= n,
            forall|j: int| start <= j < i ==> text@[j] != '\n',
            spec_lines(text@) == out.deep_view() + spec_lines(text@.skip(start as int)),
        decreases n - i,
    {
        let c = text.get_char(i);
        if c == '\n' {
            let line_end: usize = if i > start && text.get_char(i - 1) == '\r' {
                i - 1
            } else {
                i
            };
            let line = text.substring_char(start, line_end);
            let ghost prev = out.deep_view();
            out.push(line.to_owned());
            proof {
                let t = text@;
                let rest = t.skip(start as int);
                assert forall|j: int| 0 <= j < i - start implies rest[j] != '\n' by {
                    assert(rest[j] == t[start + j]);
                }
                assert(rest[i - start] == t[i as int]);
                lemma_find_newline_at(rest, i - start);
                assert(rest.take(i - start) =~= t.subrange(start as int, i as int));
                assert(strip_cr(rest.take(i - start)) =~= t.subrange(start as int, line_end as int));
                assert(rest.skip(i - start + 1) =~= t.skip(i + 1));
                assert(spec_lines(rest) == seq![t.subrange(start as int, line_end as int)]
                    + spec_lines(t.skip(i + 1)));
                assert(out.deep_view() =~= prev + seq![t.subrange(start as int, line_end as int)]);
                assert(prev + (seq![t.subrange(start as int, line_end as int)] + spec_lines(
                    t.skip(i + 1),
                )) =~= out.deep_view() + spec_lines(t.skip(i + 1)));
            }
            start = i + 1;
        }
        i = i + 1;
    }
    if start < n {
        let line = text.substring_char(start, n);
        let ghost prev = out.deep_view();
        out.push(line.to_owned());
        proof {
            let t = text@;
            let rest = t.skip(start as int);
            assert forall|j: int| 0 <= j < rest.len() implies rest[j] != '\n' by {
                assert(rest[j] == t[start + j]);
            }
            lemma_find_newline_at(rest, rest.len() as int);
            assert(rest =~= t.subrange(start as int, n as int));
            assert(spec_lines(rest) == seq![rest]);
            assert(out.deep_view() =~= prev + seq![rest]);
        }
    } else {
        proof {
            let t = text@;
            assert(t.skip(start as int) =~= Seq::<char>::empty());
            assert(out.deep_view() + spec_lines(Seq::<char>::empty()) =~= out.deep_view());
        }
    }
    out
}

/// Show a window of the lines of `text`: the first `n` of them, or the last
/// `n` when `from_end` holds, clamped to the lines there are.
pub fn select_lines(text: &str, n: u32, from_end: bool) -> (window: Vec<String>)
    ensures
        window.deep_view() == spec_window(spec_lines(text@), n as nat, from_end),
{
    let all = split_lines(text);
    let count: usize = all.len();
    let k: usize = if (n as usize) <= count {
        n as usize
    } else {
        count
    };
    let lo: usize = if from_end {
        count - k
    } else {
        0
    };
    let mut out: Vec<String> = Vec::new();
    let mut idx: usize = lo;
    while idx < lo + k
        invariant
            lo + k <= count,
            count == all.len(),
            lo <= idx <= lo + k,
            out.deep_view() == all.deep_view().subrange(lo as int, idx as int),
        decreases lo + k - idx,
    {
        let ghost prev = out.deep_view();
        let line = all[idx].clone();
        out.push(line);
        proof {
            assert(all.deep_view().subrange(lo as int, idx + 1) =~= prev + seq![
                all.deep_view()[idx as int],
            ]);
            assert(out.deep_view() =~= prev + seq![all.deep_view()[idx as int]]);
        }
        idx = idx + 1;
    }
    proof {
        assert(out.deep_view() =~= spec_window(spec_lines(text@), n as nat, from_end));
    }
    out
}

/// Text assembled from `lines` with a single `'\n'` between consecutive
/// lines and nothing after the last.
pub open spec fn spec_joined(lines: Seq<Seq<char>>) -> Seq<char>
    decreases lines.len(),
{
    if lines.len() == 0 {
        Seq::empty()
    } else if lines.len() == 1 {
        lines[0]
    } else {
        spec_joined(lines.drop_last()) + seq!['\n'] + lines.last()
    }
}

/// `line` carries no terminator of its own: it holds no `'\n'` and does not
/// end with a `'\r'`.
pub open spec fn terminator_free(line: Seq<char>) -> bool {
    &&& forall|j: int| 0 <= j < line.len() ==> line[j] != '\n'
    &&& (line.len() > 0 ==> line.last() != '\r')
}

/// The lines of a text that opens with one terminator-free line and its
/// `'\n'`: that line, then the lines of what follows.
proof fn lemma_lines_of_prefixed(l0: Seq<char>, rest: Seq<char>)
    requires
        terminator_free(l0),
        rest.len() > 0,
    ensures
        spec_lines(l0 + seq!['\n'] + rest) == seq![l0] + spec_lines(rest),
{
    let t = l0 + seq!['\n'] + rest;
    assert forall|j: int| 0 <= j < l0.len() implies t[j] != '\n' by {
        assert(t[j] == l0[j]);
    }
    assert(t[l0.len() as int] == '\n');
    lemma_find_newline_at(t, l0.len() as int);
    assert(t.take(l0.len() as int) =~= l0);
    assert(strip_cr(l0) == l0);
    assert(t.skip(l0.len() as int + 1) =~= rest);
}

/// `spec_joined`, unrolled from the front instead of the back.
proof fn lemma_joined_front(lines: Seq<Seq<char>>)
    requires
        lines.len() >= 2,
    ensures
        spec_joined(lines) == lines[0] + seq!['\n'] + spec_joined(lines.drop_first()),
    decreases lines.len(),
{
    if lines.len() == 2 {
        assert(lines.drop_last() =~= seq![lines[0]]);
        assert(lines.drop_first() =~= seq![lines[1]]);
        assert(spec_joined(seq![lines[0]]) == lines[0]);
        assert(spec_joined(seq![lines[1]]) == lines[1]);
    } else {
        lemma_joined_front(lines.drop_last());
        assert(lines.drop_last()[0] == lines[0]);
        assert(lines.drop_last().drop_first() =~= lines.drop_first().drop_last());
        assert(lines.drop_first().last() == lines.last());
        assert((lines[0] + seq!['\n'] + spec_joined(lines.drop_first().drop_last())) + seq!['\n']
            + lines.last() =~= lines[0] + seq!['\n'] + (spec_joined(
            lines.drop_first().drop_last(),
        ) + seq!['\n'] + lines.last()));
    }
}

/// A join is empty only when there was nothing, or one empty line, to join.
proof fn lemma_joined_nonempty(lines: Seq<Seq<char>>)
    requires
        lines.len() > 0,
        lines.last().len() > 0,
    ensures
        spec_joined(lines).len() > 0,
{
}

/// Splitting reverses joining: terminator-free lines, the last of them
/// nonempty, come back unchanged from the text they were joined into. This
/// is why piping lines through and asking for them all echoes the input.
pub proof fn lemma_join_then_split(lines: Seq<Seq<char>>)
    requires
        forall|i: int| 0 <= i < lines.len() ==> terminator_free(lines[i]),
        lines.len() > 0 ==> lines.last().len() > 0,
    ensures
        spec_lines(spec_joined(lines)) == lines,
    decreases lines.len(),
{
    if lines.len() == 0 {
        assert(lines =~= Seq::<Seq<char>>::empty());
    } else if lines.len() == 1 {
        let l0 = lines[0];
        assert(terminator_free(l0));
        lemma_find_newline_at(l0, l0.len() as int);
        assert(spec_lines(l0) == seq![l0]);
        assert(lines =~= seq![l0]);
    } else {
        let tail = lines.drop_first();
        assert(terminator_free(lines[0]));
        assert forall|i: int| 0 <= i < tail.len() implies terminator_free(tail[i]) by {
            assert(tail[i] == lines[i + 1]);
        }
        assert(tail.last() == lines.last());
        lemma_joined_front(lines);
        lemma_joined_nonempty(tail);
        lemma_lines_of_prefixed(lines[0], spec_joined(tail));
        lemma_join_then_split(tail);
        assert(seq![lines[0]] + tail =~= lines);
    }
}

/// Join terminator-free lines into one text, a `'\n'` between each pair of
/// neighbours. This is how piped input, read line by line, becomes the text
/// to window.
pub fn join_lines(lines: &Vec<String>) -> (text: String)
    ensures
        text@ == spec_joined(lines.deep_view()),
{
    let mut text = String::new();
    let mut i: usize = 0;
    while i < lines.len()
        invariant
            i <= lines.len(),
            text@ == spec_joined(lines.deep_view().take(i as int)),
        decreases lines.len() - i,
    {
        let ghost prev = text@;
        if i > 0 {
            text.append("\n");
        }
        text.append(lines[i].as_str());
        proof {
            let dv = lines.deep_view();
            reveal_strlit("\n");
            assert("\n"@ =~= seq!['\n']);
            assert(dv.take(i + 1).drop_last() =~= dv.take(i as int));
            assert(dv.take(i + 1).last() == dv[i as int]);
            if i == 0 {
                assert(prev + dv[i as int] =~= dv[i as int]);
            }
        }
        i = i + 1;
    }
    proof {
        assert(lines.deep_view().take(lines.len() as int) =~= lines.deep_view());
    }
    text
}

} // verus!
