//! The source formatter: normalises whitespace without checking the code.
//! Each line is trimmed and its whitespace runs collapsed to single spaces,
//! runs of blank lines collapse to one, and once a label line has been seen
//! every following non-label line is indented with a tab.

use vstd::prelude::*;

verus! {

/// Whitespace inside a line: everything that separates words but does not
/// end the line.
pub open spec fn is_fmt_ws(c: char) -> bool {
    c == ' ' || c == '\t' || c == '\u{b}' || c == '\u{c}' || c == '\r'
}

/// The index of the newline that ends the line starting at `i`, or the end
/// of the text.
pub open spec fn line_end(s: Seq<char>, i: int) -> int
    decreases s.len() - i,
    when 0 <= i <= s.len()
{
    if i < s.len() && s[i] != '\n' {
        line_end(s, i + 1)
    } else {
        i
    }
}

/// The line break never moves backwards and lands on a newline or the end.
pub proof fn lemma_line_end(s: Seq<char>, i: int)
    requires
        0 <= i <= s.len(),
    ensures
        i <= line_end(s, i) <= s.len(),
        line_end(s, i) < s.len() ==> s[line_end(s, i)] == '\n',
        forall|k: int| i <= k < line_end(s, i) ==> s[k] != '\n',
    decreases s.len() - i,
{
    if i < s.len() && s[i] != '\n' {
        lemma_line_end(s, i + 1);
    }
}

/// The first non-whitespace index in `[i, b)`, or `b`.
pub open spec fn fws(s: Seq<char>, i: int, b: int) -> int
    decreases b - i,
    when 0 <= i <= b <= s.len()
{
    if i < b && is_fmt_ws(s[i]) {
        fws(s, i + 1, b)
    } else {
        i
    }
}

/// The end of the word starting at `i`: the first whitespace index, or `b`.
pub open spec fn wend(s: Seq<char>, i: int, b: int) -> int
    decreases b - i,
    when 0 <= i <= b <= s.len()
{
    if i < b && !is_fmt_ws(s[i]) {
        wend(s, i + 1, b)
    } else {
        i
    }
}

/// Word skipping and scanning stay inside `[i, b]`.
pub proof fn lemma_fws_wend(s: Seq<char>, i: int, b: int)
    requires
        0 <= i <= b <= s.len(),
    ensures
        i <= fws(s, i, b) <= b,
        i <= wend(s, i, b) <= b,
        fws(s, i, b) < b ==> !is_fmt_ws(s[fws(s, i, b)]),
        wend(s, i, b) < b ==> is_fmt_ws(s[wend(s, i, b)]),
    decreases b - i,
{
    if i < b {
        lemma_fws_wend(s, i + 1, b);
    }
}

/// The words after the first one, each preceded by a single space.
pub open spec fn fmt_rest(s: Seq<char>, i: int, b: int) -> Seq<char>
    decreases b - i,
    when 0 <= i <= b <= s.len()
{
    let w = fws(s, i, b);
    if w >= b {
        Seq::empty()
    } else {
        let e = {
            proof {
                lemma_fws_wend(s, i, b);
                lemma_fws_wend(s, w, b);
            }
            wend(s, w, b)
        };
        seq![' '] + s.subrange(w, e) + fmt_rest(s, e, b)
    }
}

/// A line `[a, b)` trimmed, with every whitespace run collapsed to one
/// space: its words joined by single spaces, or nothing when it is blank.
pub open spec fn fmt_line(s: Seq<char>, a: int, b: int) -> Seq<char>
    recommends
        0 <= a <= b <= s.len(),
{
    let w = fws(s, a, b);
    if w >= b {
        Seq::empty()
    } else {
        s.subrange(w, wend(s, w, b)) + fmt_rest(s, wend(s, w, b), b)
    }
}

/// Whether the line `[a, b)` holds a colon, which marks it as a label line.
pub open spec fn has_colon(s: Seq<char>, a: int, b: int) -> bool {
    exists|k: int| a <= k < b && s[k] == ':'
}

/// The formatted text from line `i` on. `seen_label` tells whether a label
/// line has been passed (what follows one is indented), `blank_run` whether
/// the previous line was blank (further blanks are dropped), and `at_start`
/// whether nothing has been written yet (a label line then gets a line of
/// its own even at the very top).
pub open spec fn spec_format_from(
    s: Seq<char>,
    i: int,
    seen_label: bool,
    blank_run: bool,
    at_start: bool,
) -> Seq<char>
    decreases s.len() + 1 - i,
    when 0 <= i <= s.len() + 1
{
    if i >= s.len() {
        Seq::empty()
    } else {
        let e = line_end(s, i);
        let ce = if e > i && s[e - 1] == '\r' {
            e - 1
        } else {
            e
        };
        let line = {
            proof {
                lemma_line_end(s, i);
            }
            fmt_line(s, i, ce)
        };
        proof {
            lemma_line_end(s, i);
        }
        if line.len() == 0 {
            let head: Seq<char> = if !blank_run {
                seq!['\n']
            } else {
                Seq::empty()
            };
            head + spec_format_from(s, e + 1, seen_label, true, at_start && head.len() == 0)
        } else if has_colon(s, i, ce) {
            let head: Seq<char> = if at_start {
                seq!['\n']
            } else {
                Seq::empty()
            };
            head + line + seq!['\n'] + spec_format_from(s, e + 1, true, false, false)
        } else {
            let head: Seq<char> = if seen_label {
                seq!['\t']
            } else {
                Seq::empty()
            };
            head + line + seq!['\n'] + spec_format_from(s, e + 1, seen_label, false, false)
        }
    }
}

/// What formatting a whole text produces.
pub open spec fn spec_format(s: Seq<char>) -> Seq<char> {
    spec_format_from(s, 0, false, false, true)
}

/// The main formatting structure.
#[derive(Debug, Clone, Copy, PartialEq, Eq, Structural)]
pub struct Formatter {}

/// Whether `c` separates words inside a line; the executable mirror of
/// [`is_fmt_ws`].
fn fmt_ws_exec(c: char) -> (b: bool)
    ensures
        b == is_fmt_ws(c),
{
    c == ' ' || c == '\t' || c == '\u{b}' || c == '\u{c}' || c == '\r'
}

/// The index of the newline ending the current line; the executable mirror
/// of [`line_end`].
fn line_end_exec(src: &str, i: usize, n: usize) -> (r: usize)
    requires
        i <= n == src@.len(),
    ensures
        r == line_end(src@, i as int),
{
    let mut j = i;
    while j < n && src.get_char(j) != '\n'
        invariant
            i <= j <= n,
            n == src@.len(),
            line_end(src@, i as int) == line_end(src@, j as int),
        decreases n - j,
    {
        j = j + 1;
    }
    j
}

/// The first non-whitespace index; the executable mirror of [`fws`].
fn fws_exec(src: &str, i: usize, b: usize) -> (r: usize)
    requires
        i <= b <= src@.len(),
    ensures
        r == fws(src@, i as int, b as int),
{
    let mut j = i;
    while j < b && fmt_ws_exec(src.get_char(j))
        invariant
            i <= j <= b,
            b <= src@.len(),
            fws(src@, i as int, b as int) == fws(src@, j as int, b as int),
        decreases b - j,
    {
        j = j + 1;
    }
    j
}

/// The end of the current word; the executable mirror of [`wend`].
fn wend_exec(src: &str, i: usize, b: usize) -> (r: usize)
    requires
        i <= b <= src@.len(),
    ensures
        r == wend(src@, i as int, b as int),
{
    let mut j = i;
    while j < b && !fmt_ws_exec(src.get_char(j))
        invariant
            i <= j <= b,
            b <= src@.len(),
            wend(src@, i as int, b as int) == wend(src@, j as int, b as int),
        decreases b - j,
    {
        j = j + 1;
    }
    j
}

/// Whether the line holds a colon; the executable mirror of [`has_colon`].
fn has_colon_exec(src: &str, a: usize, b: usize) -> (r: bool)
    requires
        a <= b <= src@.len(),
    ensures
        r == has_colon(src@, a as int, b as int),
{
    let mut j = a;
    while j < b
        invariant
            a <= j <= b,
            b <= src@.len(),
            forall|k: int| a <= k < j ==> src@[k] != ':',
        decreases b - j,
    {
        if src.get_char(j) == ':' {
            return true;
        }
        j = j + 1;
    }
    false
}

/// Appends the collapsed words of the line `[a, b)`.
fn append_line(out: &mut String, src: &str, a: usize, b: usize)
    requires
        a <= b <= src@.len(),
    ensures
        final(out)@ == old(out)@ + fmt_line(src@, a as int, b as int),
{
    let ghost s = src@;
    let w0 = fws_exec(src, a, b);
    proof {
        lemma_fws_wend(s, a as int, b as int);
    }
    if w0 >= b {
        proof {
            assert(old(out)@ + fmt_line(s, a as int, b as int) =~= old(out)@);
        }
        return ;
    }
    let e0 = wend_exec(src, w0, b);
    proof {
        lemma_fws_wend(s, w0 as int, b as int);
    }
    out.append(src.substring_char(w0, e0));
    proof {
        assert(out@ =~= old(out)@ + s.subrange(w0 as int, e0 as int));
    }
    let mut i = e0;
    loop
        invariant
            e0 <= i <= b,
            b <= s.len(),
            s == src@,
            out@ + fmt_rest(s, i as int, b as int) == old(out)@ + fmt_line(
                s,
                a as int,
                b as int,
            ),
        ensures
            out@ == old(out)@ + fmt_line(s, a as int, b as int),
        decreases b - i,
    {
        let ghost pre = out@;
        let w = fws_exec(src, i, b);
        proof {
            lemma_fws_wend(s, i as int, b as int);
        }
        if w >= b {
            proof {
                assert(pre + fmt_rest(s, i as int, b as int) =~= pre);
            }
            break ;
        }
        let e = wend_exec(src, w, b);
        proof {
            lemma_fws_wend(s, w as int, b as int);
        }
        out.append(" ");
        out.append(src.substring_char(w, e));
        proof {
            reveal_strlit(" ");
            assert(out@ =~= pre + (seq![' '] + s.subrange(w as int, e as int)));
            assert(fmt_rest(s, i as int, b as int) == seq![' '] + s.subrange(w as int, e as int)
                + fmt_rest(s, e as int, b as int));
            assert(out@ + fmt_rest(s, e as int, b as int) =~= pre + fmt_rest(
                s,
                i as int,
                b as int,
            ));
        }
        i = e;
    }
}

impl Formatter {
    /// Creates a new formatter.
    pub fn new() -> (r: Formatter)
        ensures
            r == (Formatter {  }),
    {
        Formatter {  }
    }

    /// Formats the given assembly code. It does not check the code for
    /// errors; it trims and collapses whitespace, drops repeated blank
    /// lines, and indents everything after a label line except further
    /// labels.
    #[verifier::rlimit(100)]
    pub fn format(&self, code: &str) -> (r: String)
        ensures
            r@ == spec_format(code@),
    {
        let ghost s = code@;
        let n = code.unicode_len();
        let mut out = String::new();
        let mut i: usize = 0;
        let mut seen_label = false;
        let mut blank_run = false;
        let mut at_start = true;
        proof {
            assert(Seq::<char>::empty() + spec_format(s) =~= spec_format(s));
        }
        while i < n
            invariant
                i <= n + 1,
                n == s.len(),
                s == code@,
                spec_format(s) == out@ + spec_format_from(
                    s,
                    i as int,
                    seen_label,
                    blank_run,
                    at_start,
                ),
            decreases n - i,
        {
            let ghost pre = out@;
            proof {
                lemma_line_end(s, i as int);
            }
            let e = line_end_exec(code, i, n);
            let ce = if e > i && code.get_char(e - 1) == '\r' {
                e - 1
            } else {
                e
            };
            proof {
                lemma_fws_wend(s, i as int, ce as int);
                lemma_fws_wend(s, fws(s, i as int, ce as int), ce as int);
            }
            let w0 = fws_exec(code, i, ce);
            if w0 >= ce {
                // A blank line: keep at most one in a row.
                if !blank_run {
                    out.append("\n");
                    proof {
                        reveal_strlit("\n");
                        assert(out@ =~= pre + seq!['\n']);
                    }
                    at_start = false;
                } else {
                    proof {
                        assert(pre + (Seq::<char>::empty() + spec_format_from(
                            s,
                            e + 1,
                            seen_label,
                            true,
                            at_start,
                        )) =~= pre + spec_format_from(s, e + 1, seen_label, true, at_start));
                    }
                }
                blank_run = true;
            } else if has_colon_exec(code, i, ce) {
                if at_start {
                    out.append("\n");
                    proof {
                        reveal_strlit("\n");
                    }
                }
                append_line(&mut out, code, i, ce);
                out.append("\n");
                proof {
                    reveal_strlit("\n");
                    if at_start {
                        assert(out@ =~= pre + (seq!['\n'] + fmt_line(s, i as int, ce as int)
                            + seq!['\n']));
                    } else {
                        assert(out@ =~= pre + (Seq::<char>::empty() + fmt_line(
                            s,
                            i as int,
                            ce as int,
                        ) + seq!['\n']));
                    }
                }
                seen_label = true;
                blank_run = false;
                at_start = false;
            } else {
                if seen_label {
                    out.append("\t");
                    proof {
                        reveal_strlit("\t");
                    }
                }
                append_line(&mut out, code, i, ce);
                out.append("\n");
                proof {
                    reveal_strlit("\n");
                    reveal_strlit("\t");
                    if seen_label {
                        assert(out@ =~= pre + (seq!['\t'] + fmt_line(s, i as int, ce as int)
                            + seq!['\n']));
                    } else {
                        assert(out@ =~= pre + (Seq::<char>::empty() + fmt_line(
                            s,
                            i as int,
                            ce as int,
                        ) + seq!['\n']));
                    }
                }
                blank_run = false;
                at_start = false;
            }
            if e >= n {
                proof {
                    assert(spec_format_from(s, e + 1, seen_label, blank_run, at_start)
                        =~= Seq::<char>::empty());
                    assert(spec_format_from(s, n as int, seen_label, blank_run, at_start)
                        =~= Seq::<char>::empty());
                }
                i = n;
            } else {
                i = e + 1;
            }
        }
        proof {
            assert(spec_format_from(s, i as int, seen_label, blank_run, at_start) =~= Seq::<
                char,
            >::empty());
            assert(out@ + Seq::<char>::empty() =~= out@);
        }
        out
    }
}

impl Default for Formatter {
    fn default() -> (r: Self)
        ensures
            r == (Formatter {  }),
    {
        Formatter::new()
    }
}

} // verus!
