//! The client's multi-line text input: lines are read until a line that is a
//! single `.`; a line that begins with `.` loses that first `.` (so `..`
//! stands for a line `.`), and the kept lines are joined with `\n`.

use vstd::prelude::*;
use crate::text::{chars_of, string_from_chars};

verus! {

broadcast use vstd::string::group_string_axioms;

/// Length of the first line of `s` as a line reader returns it: up to and
/// including the first `\n`, or all of `s` when it has none.
pub open spec fn line_len(s: Seq<char>) -> nat
    decreases s.len(),
{
    if s.len() == 0 {
        0
    } else if s[0] == '\n' {
        1
    } else {
        1 + line_len(s.drop_first())
    }
}

/// The lines of `s` as successive line reads return them, each with its `\n`.
pub open spec fn raw_lines(s: Seq<char>) -> Seq<Seq<char>>
    decreases s.len(),
{
    if s.len() == 0 {
        seq![]
    } else {
        let n = line_len(s);
        if 0 < n <= s.len() {
            seq![s.take(n as int)] + raw_lines(s.skip(n as int))
        } else {
            seq![]
        }
    }
}

/// `line` without its trailing `\r` and `\n` characters.
pub open spec fn trim_line_end(line: Seq<char>) -> Seq<char>
    decreases line.len(),
{
    if line.len() > 0 && (line.last() == '\r' || line.last() == '\n') {
        trim_line_end(line.drop_last())
    } else {
        line
    }
}

/// What a raw line contributes to the text: `None` for the terminating line
/// `.`, else the line without its line end and without one leading `.`.
pub open spec fn line_text_spec(raw: Seq<char>) -> Option<Seq<char>> {
    let t = trim_line_end(raw);
    if t == seq!['.'] {
        None
    } else if t.len() > 0 && t[0] == '.' {
        Some(t.drop_first())
    } else {
        Some(t)
    }
}

/// The contents of the lines before the first terminating line.
pub open spec fn kept_lines(lines: Seq<Seq<char>>) -> Seq<Seq<char>>
    decreases lines.len(),
{
    if lines.len() == 0 {
        seq![]
    } else {
        match line_text_spec(lines[0]) {
            None => seq![],
            Some(t) => seq![t] + kept_lines(lines.drop_first()),
        }
    }
}

/// `parts` joined with `\n` between consecutive parts.
pub open spec fn join_spec(parts: Seq<Seq<char>>) -> Seq<char>
    decreases parts.len(),
{
    if parts.len() == 0 {
        seq![]
    } else if parts.len() == 1 {
        parts[0]
    } else {
        join_spec(parts.drop_last()) + seq!['\n'] + parts.last()
    }
}

/// The text that reading `input` gives.
pub open spec fn read_text_spec(input: Seq<char>) -> Seq<char> {
    join_spec(kept_lines(raw_lines(input)))
}

/// The length of the first line of `s[start..]`, found by scanning for `\n`.
fn first_line_len(s: &[char], start: usize) -> (n: usize)
    requires
        start < s@.len(),
    ensures
        n == line_len(s@.skip(start as int)),
        0 < n <= s@.len() - start,
{
    let mut i: usize = start;
    while i < s.len() && s[i] != '\n'
        invariant
            start <= i <= s@.len(),
            forall|j: int| start <= j < i ==> s@[j] != '\n',
        decreases s@.len() - i,
    {
        i = i + 1;
    }
    let n = if i < s.len() {
        i - start + 1
    } else {
        i - start
    };
    proof {
        lemma_line_len(s@.skip(start as int), (i - start) as int);
    }
    n
}

/// The first line of `s` ends at its first `\n` (or at its end).
proof fn lemma_line_len(s: Seq<char>, k: int)
    requires
        0 <= k <= s.len(),
        forall|j: int| 0 <= j < k ==> s[j] != '\n',
        k < s.len() ==> s[k] == '\n',
    ensures
        line_len(s) == if k < s.len() {
            k + 1
        } else {
            k
        },
    decreases k,
{
    if k > 0 {
        lemma_line_len(s.drop_first(), k - 1);
    }
}

/// The line without its trailing `\r` and `\n` characters.
fn trim_line_end_chars(line: &[char]) -> (t: Vec<char>)
    ensures
        t@ == trim_line_end(line@),
{
    let mut n: usize = line.len();
    assert(line@.take(n as int) =~= line@);
    while n > 0 && (line[n - 1] == '\r' || line[n - 1] == '\n')
        invariant
            n <= line@.len(),
            trim_line_end(line@.take(n as int)) == trim_line_end(line@),
        decreases n,
    {
        assert(line@.take(n as int).drop_last() =~= line@.take(n - 1));
        n = n - 1;
    }
    let mut t: Vec<char> = Vec::new();
    let mut i: usize = 0;
    while i < n
        invariant
            n <= line@.len(),
            i <= n,
            t@ == line@.take(i as int),
        decreases n - i,
    {
        t.push(line[i]);
        assert(line@.take(i + 1) =~= line@.take(i as int).push(line@[i as int]));
        i = i + 1;
    }
    t
}

/// What one raw line contributes to the text, as characters.
fn line_text_chars(raw: &[char]) -> (r: Option<Vec<char>>)
    ensures
        match r {
            Some(v) => line_text_spec(raw@) == Some(v@),
            None => line_text_spec(raw@) is None,
        },
{
    let t = trim_line_end_chars(raw);
    if t.len() == 1 && t[0] == '.' {
        assert(t@ =~= seq!['.']);
        return None;
    }
    assert(t@ != seq!['.']);
    if t.len() > 0 && t[0] == '.' {
        let mut rest: Vec<char> = Vec::new();
        let mut i: usize = 1;
        while i < t.len()
            invariant
                1 <= i <= t@.len(),
                rest@ == t@.subrange(1, i as int),
            decreases t@.len() - i,
        {
            rest.push(t[i]);
            assert(t@.subrange(1, i + 1) =~= t@.subrange(1, i as int).push(t@[i as int]));
            i = i + 1;
        }
        assert(rest@ =~= t@.drop_first());
        Some(rest)
    } else {
        Some(t)
    }
}

/// What one line, as a line reader returned it, contributes to the text:
/// `None` when it is the terminating line `.`.
pub fn text_line(raw: &str) -> (r: Option<String>)
    ensures
        match r {
            Some(s) => line_text_spec(raw@) == Some(s@),
            None => line_text_spec(raw@) is None,
        },
{
    let c = chars_of(raw);
    match line_text_chars(c.as_slice()) {
        None => None,
        Some(v) => Some(string_from_chars(v.as_slice())),
    }
}

/// The lines joined with `\n` between consecutive lines.
pub fn join_lines(lines: &Vec<String>) -> (r: String)
    ensures
        r@ == join_spec(lines@.map_values(|l: String| l@)),
{
    let ghost views = lines@.map_values(|l: String| l@);
    let mut r = String::new();
    let mut i: usize = 0;
    while i < lines.len()
        invariant
            views == lines@.map_values(|l: String| l@),
            i <= lines@.len(),
            r@ == join_spec(views.take(i as int)),
        decreases lines@.len() - i,
    {
        assert(views.take(i + 1).drop_last() =~= views.take(i as int));
        if i > 0 {
            r.append("\n");
            proof {
                reveal_strlit("\n");
            }
        }
        r.append(lines[i].as_str());
        assert(views.take(i + 1).last() == lines@[i as int]@);
        i = i + 1;
    }
    assert(views.take(lines@.len() as int) =~= views);
    r
}

/// The text given by the lines of `input` up to its terminating line `.`
/// (or up to its end when it has none).
pub fn read_text(input: &str) -> (text: String)
    ensures
        text@ == read_text_spec(input@),
{
    let s = chars_of(input);
    let ghost all = raw_lines(s@);
    let mut lines: Vec<String> = Vec::new();
    let mut pos: usize = 0;
    assert(s@.skip(0) =~= s@);
    assert(lines@.map_values(|l: String| l@) + kept_lines(all) =~= kept_lines(all));
    while pos < s.len()
        invariant_except_break
            pos <= s@.len(),
            s@.skip(pos as int).len() == s@.len() - pos,
            kept_lines(all) == lines@.map_values(|l: String| l@) + kept_lines(
                raw_lines(s@.skip(pos as int)),
            ),
        ensures
            kept_lines(all) == lines@.map_values(|l: String| l@),
        decreases s@.len() - pos,
    {
        let ghost rest = s@.skip(pos as int);
        let n = first_line_len(s.as_slice(), pos);
        let raw = crate::text::chars_from(s.as_slice(), pos);
        let mut line: Vec<char> = Vec::new();
        let mut j: usize = 0;
        while j < n
            invariant
                n <= raw@.len(),
                j <= n,
                line@ == raw@.take(j as int),
            decreases n - j,
        {
            line.push(raw[j]);
            assert(raw@.take(j + 1) =~= raw@.take(j as int).push(raw@[j as int]));
            j = j + 1;
        }
        assert(raw@ == rest);
        assert(rest.skip(n as int) =~= s@.skip(pos + n));
        assert(raw_lines(rest) == seq![rest.take(n as int)] + raw_lines(rest.skip(n as int)));
        assert((seq![rest.take(n as int)] + raw_lines(rest.skip(n as int)))[0] == line@);
        assert((seq![rest.take(n as int)] + raw_lines(rest.skip(n as int))).drop_first()
            =~= raw_lines(rest.skip(n as int)));
        match line_text_chars(line.as_slice()) {
            None => {
                assert(kept_lines(raw_lines(rest)) =~= seq![]);
                assert(lines@.map_values(|l: String| l@) + seq![] =~= lines@.map_values(
                    |l: String| l@,
                ));
                break ;
            },
            Some(v) => {
                let ghost before = lines@.map_values(|l: String| l@);
                lines.push(string_from_chars(v.as_slice()));
                assert(lines@.map_values(|l: String| l@) =~= before.push(v@));
                assert(before + kept_lines(raw_lines(rest)) =~= before.push(v@) + kept_lines(
                    raw_lines(s@.skip(pos + n)),
                ));
            },
        }
        pos = pos + n;
    }
    join_lines(&lines)
}

/// A line as it is written for the reader: a line that begins with `.`
/// gets one more `.` in front.
pub open spec fn stuff_line(line: Seq<char>) -> Seq<char> {
    if line.len() > 0 && line[0] == '.' {
        seq!['.'] + line
    } else {
        line
    }
}

/// Lines written for the reader: each line stuffed and ended with `\n`, then
/// the terminating line `.`.
pub open spec fn write_lines(lines: Seq<Seq<char>>) -> Seq<char>
    decreases lines.len(),
{
    if lines.len() == 0 {
        seq!['.', '\n']
    } else {
        stuff_line(lines[0]) + seq!['\n'] + write_lines(lines.drop_first())
    }
}

/// A line that can be carried: no `\n` in it, and no `\r` at its end.
pub open spec fn plain_line(line: Seq<char>) -> bool {
    !line.contains('\n') && (line.len() == 0 || line.last() != '\r')
}

/// The first line of `a + b` is `a` when `a` ends with its only `\n`.
proof fn lemma_line_len_concat(a: Seq<char>, b: Seq<char>)
    requires
        a.len() > 0,
        a.last() == '\n',
        forall|j: int| 0 <= j < a.len() - 1 ==> a[j] != '\n',
    ensures
        line_len(a + b) == a.len(),
    decreases a.len(),
{
    if a.len() > 1 {
        assert((a + b).drop_first() =~= a.drop_first() + b);
        lemma_line_len_concat(a.drop_first(), b);
    }
}

/// What a written line reads back as.
proof fn lemma_stuffed_line_text(line: Seq<char>)
    requires
        plain_line(line),
    ensures
        line_text_spec(stuff_line(line) + seq!['\n']) == Some(line),
{
    let t = stuff_line(line);
    assert((t + seq!['\n']).drop_last() =~= t);
    if line.len() > 0 {
        assert(t.last() == line.last());
    }
    assert(trim_line_end(t) == t);
    if line.len() > 0 && line[0] == '.' {
        assert(t.drop_first() =~= line);
        assert(t.len() >= 2);
    }
}

/// The lines of written lines are the written lines, then the terminating line.
proof fn lemma_kept_written_lines(lines: Seq<Seq<char>>)
    requires
        forall|i: int| 0 <= i < lines.len() ==> plain_line(#[trigger] lines[i]),
    ensures
        kept_lines(raw_lines(write_lines(lines))) == lines,
    decreases lines.len(),
{
    let w = write_lines(lines);
    if lines.len() == 0 {
        let d = seq!['.', '\n'];
        assert(d.drop_first().drop_first().len() == 0);
        assert(line_len(d.drop_first()) == 1);
        assert(line_len(d) == 2);
        assert(d.skip(2) =~= seq![]);
        assert(d.take(2) =~= d);
        assert(raw_lines(d.skip(2)) == Seq::<Seq<char>>::empty());
        assert(raw_lines(d) == seq![d.take(2)] + raw_lines(d.skip(2)));
        assert(raw_lines(d) =~= seq![d]);
        assert(d.drop_last() =~= seq!['.']);
        assert(trim_line_end(seq!['.']) == seq!['.']);
        assert(line_text_spec(d) is None);
        assert(kept_lines(raw_lines(d)) =~= seq![]);
    } else {
        let x = stuff_line(lines[0]) + seq!['\n'];
        let rest = write_lines(lines.drop_first());
        assert(w =~= x + rest);
        assert(plain_line(lines[0]));
        assert forall|j: int| 0 <= j < x.len() - 1 implies x[j] != '\n' by {
            if lines[0].len() > 0 && lines[0][0] == '.' {
                if j > 0 {
                    assert(x[j] == lines[0][j - 1]);
                }
            } else {
                assert(x[j] == lines[0][j]);
            }
        }
        lemma_line_len_concat(x, rest);
        assert(w.take(x.len() as int) =~= x);
        assert(w.skip(x.len() as int) =~= rest);
        lemma_stuffed_line_text(lines[0]);
        assert forall|i: int| 0 <= i < lines.drop_first().len() implies plain_line(
            #[trigger] lines.drop_first()[i],
        ) by {
            assert(lines.drop_first()[i] == lines[i + 1]);
        }
        lemma_kept_written_lines(lines.drop_first());
        assert(raw_lines(w) == seq![x] + raw_lines(rest));
        assert((seq![x] + raw_lines(rest))[0] == x);
        assert((seq![x] + raw_lines(rest)).drop_first() =~= raw_lines(rest));
        assert(kept_lines(raw_lines(w)) =~= seq![lines[0]] + lines.drop_first());
        assert(seq![lines[0]] + lines.drop_first() =~= lines);
    }
}

/// Reading gives back lines written for it: for lines without `\n` and
/// without a `\r` at their end, each stuffed (a leading `.` doubled) and
/// followed by the line `.`, the text read is the lines joined with `\n`.
pub proof fn law_read_text_reads_written_lines(lines: Seq<Seq<char>>)
    requires
        forall|i: int| 0 <= i < lines.len() ==> plain_line(#[trigger] lines[i]),
    ensures
        read_text_spec(write_lines(lines)) == join_spec(lines),
{
    lemma_kept_written_lines(lines);
}

/// A non-empty line's first line is at least one character and at most all of it.
proof fn lemma_line_len_bounds(s: Seq<char>)
    requires
        s.len() > 0,
    ensures
        0 < line_len(s) <= s.len(),
    decreases s.len(),
{
    if s[0] != '\n' {
        if s.len() > 1 {
            lemma_line_len_bounds(s.drop_first());
        } else {
            assert(line_len(s.drop_first()) == 0);
        }
    }
}

/// When `a` ends with `\n`, the first line of `a + b` is the first line of `a`.
proof fn lemma_line_len_prefix(a: Seq<char>, b: Seq<char>)
    requires
        a.len() > 0,
        a.last() == '\n',
    ensures
        line_len(a + b) == line_len(a),
    decreases a.len(),
{
    if a[0] != '\n' {
        assert(a.len() > 1);
        assert((a + b).drop_first() =~= a.drop_first() + b);
        lemma_line_len_prefix(a.drop_first(), b);
    }
}

/// When `a` is empty or ends with `\n`, the lines of `a + b` are those of
/// `a`, then those of `b`.
proof fn lemma_raw_lines_concat(a: Seq<char>, b: Seq<char>)
    requires
        a.len() == 0 || a.last() == '\n',
    ensures
        raw_lines(a + b) == raw_lines(a) + raw_lines(b),
    decreases a.len(),
{
    if a.len() == 0 {
        assert(a + b =~= b);
        assert(raw_lines(a) + raw_lines(b) =~= raw_lines(b));
    } else {
        let n = line_len(a);
        lemma_line_len_bounds(a);
        lemma_line_len_prefix(a, b);
        assert((a + b).take(n as int) =~= a.take(n as int));
        assert((a + b).skip(n as int) =~= a.skip(n as int) + b);
        if a.skip(n as int).len() > 0 {
            assert(a.skip(n as int).last() == a.last());
        }
        lemma_raw_lines_concat(a.skip(n as int), b);
        assert(raw_lines(a + b) == seq![a.take(n as int)] + raw_lines(a.skip(n as int) + b));
        assert(raw_lines(a) == seq![a.take(n as int)] + raw_lines(a.skip(n as int)));
        assert(raw_lines(a + b) =~= raw_lines(a) + raw_lines(b));
    }
}

/// The terminating line and what follows it add nothing to the kept lines.
proof fn lemma_kept_lines_stop(first: Seq<Seq<char>>, stop: Seq<Seq<char>>, rest: Seq<Seq<char>>)
    requires
        stop.len() > 0,
        line_text_spec(stop[0]) is None,
    ensures
        kept_lines(first + stop + rest) == kept_lines(first + stop),
    decreases first.len(),
{
    if first.len() == 0 {
        assert(first + stop + rest =~= stop + rest);
        assert(first + stop =~= stop);
        assert((stop + rest)[0] == stop[0]);
    } else {
        assert((first + stop + rest)[0] == first[0]);
        assert((first + stop)[0] == first[0]);
        assert((first + stop + rest).drop_first() =~= first.drop_first() + stop + rest);
        assert((first + stop).drop_first() =~= first.drop_first() + stop);
        lemma_kept_lines_stop(first.drop_first(), stop, rest);
    }
}

/// Reading stops at the terminating line: whatever follows a line `.` is
/// left unread and changes nothing in the text.
pub proof fn law_read_text_ignores_rest(before: Seq<char>, rest: Seq<char>)
    requires
        before.len() == 0 || before.last() == '\n',
    ensures
        read_text_spec(before + seq!['.', '\n'] + rest) == read_text_spec(before + seq!['.', '\n']),
{
    let d = seq!['.', '\n'];
    assert(line_len(d.drop_first()) == 1);
    assert(line_len(d) == 2);
    assert(d.skip(2) =~= seq![]);
    assert(d.take(2) =~= d);
    assert(raw_lines(d.skip(2)) == Seq::<Seq<char>>::empty());
    assert(raw_lines(d) == seq![d.take(2)] + raw_lines(d.skip(2)));
    assert(raw_lines(d) =~= seq![d]);
    assert(d.drop_last() =~= seq!['.']);
    assert(trim_line_end(seq!['.']) == seq!['.']);
    assert(line_text_spec(d) is None);
    lemma_raw_lines_concat(before, d);
    assert((before + d).last() == '\n');
    lemma_raw_lines_concat(before + d, rest);
    lemma_kept_lines_stop(raw_lines(before), raw_lines(d), raw_lines(rest));
}

/// Lines written with `\r\n` line ends: each line stuffed and ended with
/// `\r\n`, then the terminating line `.` ended with `\r\n`.
pub open spec fn write_lines_crlf(lines: Seq<Seq<char>>) -> Seq<char>
    decreases lines.len(),
{
    if lines.len() == 0 {
        seq!['.', '\r', '\n']
    } else {
        stuff_line(lines[0]) + seq!['\r', '\n'] + write_lines_crlf(lines.drop_first())
    }
}

/// What a written line ended with `\r\n` reads back as.
proof fn lemma_stuffed_line_text_crlf(line: Seq<char>)
    requires
        plain_line(line),
    ensures
        line_text_spec(stuff_line(line) + seq!['\r', '\n']) == Some(line),
{
    let t = stuff_line(line);
    let x = t + seq!['\r', '\n'];
    assert(x.drop_last() =~= t + seq!['\r']);
    assert((t + seq!['\r']).drop_last() =~= t);
    if line.len() > 0 {
        assert(t.last() == line.last());
    }
    assert(trim_line_end(t) == t);
    assert(trim_line_end(t + seq!['\r']) == t);
    assert(trim_line_end(x) == t);
    if line.len() > 0 && line[0] == '.' {
        assert(t.drop_first() =~= line);
        assert(t.len() >= 2);
    }
}

/// The lines of lines written with `\r\n` are the written lines.
proof fn lemma_kept_written_lines_crlf(lines: Seq<Seq<char>>)
    requires
        forall|i: int| 0 <= i < lines.len() ==> plain_line(#[trigger] lines[i]),
    ensures
        kept_lines(raw_lines(write_lines_crlf(lines))) == lines,
    decreases lines.len(),
{
    let w = write_lines_crlf(lines);
    if lines.len() == 0 {
        let d = seq!['.', '\r', '\n'];
        assert(d.drop_first().drop_first().drop_first().len() == 0);
        assert(line_len(d.drop_first().drop_first()) == 1);
        assert(line_len(d.drop_first()) == 2);
        assert(line_len(d) == 3);
        assert(d.skip(3) =~= seq![]);
        assert(d.take(3) =~= d);
        assert(raw_lines(d.skip(3)) == Seq::<Seq<char>>::empty());
        assert(raw_lines(d) == seq![d.take(3)] + raw_lines(d.skip(3)));
        assert(raw_lines(d) =~= seq![d]);
        assert(d.drop_last() =~= seq!['.', '\r']);
        assert(seq!['.', '\r'].drop_last() =~= seq!['.']);
        assert(trim_line_end(seq!['.']) == seq!['.']);
        assert(seq!['.', '\r'].last() == '\r');
        assert(trim_line_end(seq!['.', '\r']) == seq!['.']);
        assert(d.last() == '\n');
        assert(trim_line_end(d) == seq!['.']);
        assert(line_text_spec(d) is None);
        assert(kept_lines(raw_lines(d)) =~= seq![]);
    } else {
        let x = stuff_line(lines[0]) + seq!['\r', '\n'];
        let rest = write_lines_crlf(lines.drop_first());
        assert(w =~= x + rest);
        assert(plain_line(lines[0]));
        assert forall|j: int| 0 <= j < x.len() - 1 implies x[j] != '\n' by {
            if j < x.len() - 2 {
                if lines[0].len() > 0 && lines[0][0] == '.' {
                    if j > 0 {
                        assert(x[j] == lines[0][j - 1]);
                    }
                } else {
                    assert(x[j] == lines[0][j]);
                }
            }
        }
        lemma_line_len_concat(x, rest);
        assert(w.take(x.len() as int) =~= x);
        assert(w.skip(x.len() as int) =~= rest);
        lemma_stuffed_line_text_crlf(lines[0]);
        assert forall|i: int| 0 <= i < lines.drop_first().len() implies plain_line(
            #[trigger] lines.drop_first()[i],
        ) by {
            assert(lines.drop_first()[i] == lines[i + 1]);
        }
        lemma_kept_written_lines_crlf(lines.drop_first());
        assert(raw_lines(w) == seq![x] + raw_lines(rest));
        assert((seq![x] + raw_lines(rest))[0] == x);
        assert((seq![x] + raw_lines(rest)).drop_first() =~= raw_lines(rest));
        assert(kept_lines(raw_lines(w)) =~= seq![lines[0]] + lines.drop_first());
        assert(seq![lines[0]] + lines.drop_first() =~= lines);
    }
}

/// Line ends `\r\n` read as `\n` do: lines written with `\r\n` line ends
/// (each stuffed, then the line `.`) read back as the lines joined with `\n`.
pub proof fn law_read_text_reads_crlf_lines(lines: Seq<Seq<char>>)
    requires
        forall|i: int| 0 <= i < lines.len() ==> plain_line(#[trigger] lines[i]),
    ensures
        read_text_spec(write_lines_crlf(lines)) == join_spec(lines),
{
    lemma_kept_written_lines_crlf(lines);
}

} // verus!
