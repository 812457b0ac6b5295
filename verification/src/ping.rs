//! Parsing of ping command output: the latency in milliseconds is read
//! from the first line carrying a `time=` value. Running the command is
//! the shell's job; only the parsing lives here.

use vstd::prelude::*;

use crate::text::all_digits;
use crate::text::digits_val;
use crate::text::first_match;
use crate::text::trimmed;

verus! {

/// The lines of `s`, split at every newline, each stripped of one
/// trailing carriage return.
pub open spec fn g_lines(s: Seq<char>) -> Seq<Seq<char>>
    decreases s.len(),
{
    if s.len() == 0 {
        seq![s]
    } else if s.last() == '\n' {
        g_lines(s.drop_last()).push(Seq::empty())
    } else {
        let r = g_lines(s.drop_last());
        r.update(r.len() - 1, r.last().push(s.last()))
    }
}

pub proof fn lemma_g_lines_nonempty(s: Seq<char>)
    ensures
        g_lines(s).len() >= 1,
    decreases s.len(),
{
    if s.len() > 0 {
        lemma_g_lines_nonempty(s.drop_last());
    }
}

/// One line with a trailing carriage return removed.
pub open spec fn g_strip_cr(line: Seq<char>) -> Seq<char> {
    if line.len() > 0 && line.last() == '\r' {
        line.drop_last()
    } else {
        line
    }
}

/// The lines of the whole output as `str::lines` reports them: split at
/// newlines, one trailing carriage return stripped per line, a final
/// empty line ignored.
pub open spec fn g_out_lines(s: Seq<char>) -> Seq<Seq<char>> {
    let raw = g_lines(s);
    let kept = if raw.last().len() == 0 {
        raw.drop_last()
    } else {
        raw
    };
    kept.map_values(|l: Seq<char>| g_strip_cr(l))
}

/// Lines joined with one newline between them.
pub open spec fn g_joined_lines(lines: Seq<Seq<char>>) -> Seq<char>
    decreases lines.len(),
{
    if lines.len() == 0 {
        Seq::empty()
    } else if lines.len() == 1 {
        lines[0]
    } else {
        g_joined_lines(lines.drop_last()) + "\n"@ + lines.last()
    }
}

/// The preview kept in a parse-failure message: the first three lines
/// of the output (all of them when there are fewer), joined by
/// newlines.
pub open spec fn g_preview(s: Seq<char>) -> Seq<char> {
    let lines = g_out_lines(s);
    if lines.len() <= 3 {
        g_joined_lines(lines)
    } else {
        g_joined_lines(lines.subrange(0, 3))
    }
}

/// The message both parsers fail with: a fixed head and a preview of
/// the output that could not be parsed.
pub open spec fn g_ping_failure_message(s: Seq<char>) -> Seq<char> {
    "Could not parse ping time from output. Preview:\n"@ + g_preview(s)
}

/// Renders the parse-failure message for `output`.
fn failure_message(output: &str) -> (r: String)
    ensures
        r@ == g_ping_failure_message(output@),
{
    let lines = split_lines(output);
    let ghost glines = lines@.map_values(|v: Vec<char>| v@);
    let ghost cut = if glines.len() <= 3 {
        glines
    } else {
        glines.subrange(0, 3)
    };
    let mut out: Vec<char> = Vec::new();
    crate::weapons::push_str_chars(&mut out, "Could not parse ping time from output. Preview:\n");
    let ghost head = "Could not parse ping time from output. Preview:\n"@;
    let n: usize = if lines.len() > 3 {
        3
    } else {
        lines.len()
    };
    let mut k: usize = 0;
    proof {
        reveal_strlit("\n");
        assert(glines == g_out_lines(output@));
        assert(cut.len() == n);
        assert(Seq::<char>::empty() + head =~= head);
        assert(cut.subrange(0, 0) =~= Seq::<Seq<char>>::empty());
        assert(out@ =~= head + g_joined_lines(cut.subrange(0, 0)));
    }
    while k < n
        invariant
            k <= n,
            n <= lines.len(),
            glines == lines@.map_values(|v: Vec<char>| v@),
            glines.len() == lines@.len(),
            cut == (if glines.len() <= 3 {
                glines
            } else {
                glines.subrange(0, 3)
            }),
            cut.len() == n,
            forall|j: int| 0 <= j < n ==> cut[j] == glines[j],
            out@ == head + g_joined_lines(cut.subrange(0, k as int)),
        decreases n - k,
    {
        let ghost pre = cut.subrange(0, k as int);
        let ghost post = cut.subrange(0, k as int + 1);
        proof {
            assert(post.drop_last() =~= pre);
            assert(post.last() == cut[k as int]);
        }
        if k > 0 {
            out.push('\n');
            proof {
                reveal_strlit("\n");
                assert("\n"@ =~= seq!['\n']);
            }
        }
        let line = &lines[k];
        let mut i: usize = 0;
        let ghost mid = out@;
        while i < line.len()
            invariant
                i <= line.len(),
                line@ == glines[k as int],
                out@ =~= mid + line@.subrange(0, i as int),
            decreases line.len() - i,
        {
            out.push(line[i]);
            i = i + 1;
        }
        proof {
            assert(out@ =~= mid + cut[k as int]);
            if k == 0 {
                assert(g_joined_lines(post) == cut[0]);
                assert(out@ =~= head + g_joined_lines(post));
            } else {
                assert(g_joined_lines(post) == g_joined_lines(pre) + "\n"@ + cut[k as int]);
                assert(out@ =~= head + g_joined_lines(post));
            }
        }
        k = k + 1;
    }
    proof {
        assert(cut.subrange(0, n as int) =~= cut);
        assert(out@ =~= g_ping_failure_message(output@));
    }
    crate::text::chars_to_string(&out)
}

/// Splits command output into lines (as `str::lines` does: at `\n`,
/// dropping one trailing `\r` per line, and ignoring a final empty
/// line).
pub fn split_lines(s: &str) -> (r: Vec<Vec<char>>)
    ensures
        ({
            let raw = g_lines(s@);
            let kept = if raw.last().len() == 0 {
                raw.drop_last()
            } else {
                raw
            };
            r@.map_values(|v: Vec<char>| v@) == kept.map_values(|l: Seq<char>| g_strip_cr(l))
        }),
{
    let chars = crate::text::str_chars(s);
    let mut parts: Vec<Vec<char>> = Vec::new();
    let mut cur: Vec<char> = Vec::new();
    let mut i: usize = 0;
    proof {
        assert(chars@.subrange(0, 0) =~= Seq::<char>::empty());
        assert(g_lines(Seq::<char>::empty()) =~= seq![Seq::<char>::empty()]);
        assert(parts@.map_values(|v: Vec<char>| v@) =~= Seq::<Seq<char>>::empty());
    }
    while i < chars.len()
        invariant
            i <= chars.len(),
            chars@ == s@,
            g_lines(chars@.subrange(0, i as int)) == parts@.map_values(|v: Vec<char>| v@).push(
                cur@,
            ),
        decreases chars.len() - i,
    {
        let ghost pre = chars@.subrange(0, i as int);
        let ghost post = chars@.subrange(0, i as int + 1);
        proof {
            assert(post.drop_last() =~= pre);
            lemma_g_lines_nonempty(pre);
        }
        let c = chars[i];
        if c == '\n' {
            parts.push(cur);
            cur = Vec::new();
            proof {
                assert(g_lines(post) =~= parts@.map_values(|v: Vec<char>| v@).push(cur@));
            }
        } else {
            cur.push(c);
            proof {
                assert(g_lines(post) =~= parts@.map_values(|v: Vec<char>| v@).push(cur@));
            }
        }
        i = i + 1;
    }
    proof {
        assert(chars@.subrange(0, chars@.len() as int) =~= chars@);
    }
    // mirror `str::lines`: a final empty line is not reported
    if cur.len() > 0 {
        parts.push(cur);
        proof {
            assert(g_lines(s@).last() == parts@.last()@);
        }
    } else {
        proof {
            assert(g_lines(s@).last() =~= Seq::<char>::empty());
            assert(g_lines(s@).drop_last() =~= parts@.map_values(|v: Vec<char>| v@));
        }
    }
    // strip one trailing carriage return per line
    let mut out: Vec<Vec<char>> = Vec::new();
    let mut k: usize = 0;
    let ghost kept = if g_lines(s@).last().len() == 0 {
        g_lines(s@).drop_last()
    } else {
        g_lines(s@)
    };
    proof {
        assert(parts@.map_values(|v: Vec<char>| v@) =~= kept);
        assert(out@.map_values(|v: Vec<char>| v@) =~= kept.map_values(
            |l: Seq<char>| g_strip_cr(l),
        ).subrange(0, 0));
    }
    while k < parts.len()
        invariant
            k <= parts.len(),
            parts@.map_values(|v: Vec<char>| v@) =~= kept,
            kept.len() == parts@.len(),
            out@.map_values(|v: Vec<char>| v@) =~= kept.map_values(
                |l: Seq<char>| g_strip_cr(l),
            ).subrange(0, k as int),
        decreases parts.len() - k,
    {
        let line = &parts[k];
        let stripped: Vec<char> = if line.len() > 0 && line[line.len() - 1] == '\r' {
            crate::text::slice_chars(line, 0, line.len() - 1)
        } else {
            crate::text::slice_chars(line, 0, line.len())
        };
        proof {
            assert(line@.subrange(0, line@.len() as int) =~= line@);
            if line@.len() > 0 && line@.last() == '\r' {
                assert(line@.subrange(0, line@.len() - 1) =~= line@.drop_last());
            }
            assert(stripped@ == g_strip_cr(kept[k as int]));
        }
        out.push(stripped);
        proof {
            let m = kept.map_values(|l: Seq<char>| g_strip_cr(l));
            assert(out@.map_values(|v: Vec<char>| v@) =~= m.subrange(0, k as int).push(
                m[k as int],
            ));
            assert(m.subrange(0, k as int + 1) =~= m.subrange(0, k as int).push(m[k as int]));
        }
        k = k + 1;
    }
    proof {
        let m = kept.map_values(|l: Seq<char>| g_strip_cr(l));
        assert(m.subrange(0, m.len() as int) =~= m);
    }
    out
}

/// The text after the first `time=` of a line.
pub open spec fn g_after_time(line: Seq<char>) -> Option<Seq<char>> {
    match first_match(line, "time="@, 0) {
        Some(i) => Some(line.subrange(i + 5, line.len() as int)),
        None => None,
    }
}

/// The value parsed from one line of Windows ping output: the digits
/// between `time=` and the following `ms`, trimmed, read as an integer.
pub open spec fn g_windows_line_value(line: Seq<char>) -> Option<int> {
    match g_after_time(line) {
        Some(rest) => match first_match(rest, "ms"@, 0) {
            Some(j) => {
                let tok = trimmed(rest.subrange(0, j));
                if tok.len() > 0 && all_digits(tok) && digits_val(tok) <= u64::MAX {
                    Some(digits_val(tok) as int)
                } else {
                    None
                }
            },
            None => None,
        },
        None => None,
    }
}

/// Whether a line is the one Windows parsing picks: it holds both
/// `time=` and `ms`.
pub open spec fn g_windows_line_hit(line: Seq<char>) -> bool {
    first_match(line, "time="@, 0) is Some && first_match(line, "ms"@, 0) is Some
}

/// The first hit line among the stripped lines, if any.
pub open spec fn g_first_hit(lines: Seq<Seq<char>>, i: int) -> Option<Seq<char>>
    decreases lines.len() - i + 1,
{
    if i < 0 || i >= lines.len() {
        None
    } else if g_windows_line_hit(lines[i]) {
        Some(lines[i])
    } else {
        g_first_hit(lines, i + 1)
    }
}

/// What Windows ping parsing yields for the whole output.
pub open spec fn g_parse_windows_ping(s: Seq<char>) -> Option<int> {
    let raw = g_lines(s);
    let kept = if raw.last().len() == 0 {
        raw.drop_last()
    } else {
        raw
    };
    let lines = kept.map_values(|l: Seq<char>| g_strip_cr(l));
    match g_first_hit(lines, 0) {
        Some(line) => g_windows_line_value(line),
        None => None,
    }
}

/// Parses Windows ping output: the value between `time=` and `ms` on the
/// first line carrying both, as whole milliseconds. The error carries a
/// preview of the unparseable output.
pub fn parse_windows_ping(output: &str) -> (r: Result<u64, String>)
    ensures
        match r {
            Ok(v) => g_parse_windows_ping(output@) == Some(v as int),
            Err(e) => g_parse_windows_ping(output@) is None && e@ == g_ping_failure_message(
                output@,
            ),
        },
{
    let lines = split_lines(output);
    let ghost glines = lines@.map_values(|v: Vec<char>| v@);
    let time_pat = crate::text::str_chars("time=");
    let ms_pat = crate::text::str_chars("ms");
    let mut i: usize = 0;
    proof {
        reveal_strlit("time=");
        reveal_strlit("ms");
        assert(glines.subrange(0, glines.len() as int) =~= glines);
    }
    while i < lines.len()
        invariant
            i <= lines.len(),
            glines == lines@.map_values(|v: Vec<char>| v@),
            glines.len() == lines@.len(),
            time_pat@ == "time="@,
            ms_pat@ == "ms"@,
            time_pat@.len() == 5,
            ms_pat@.len() == 2,
            g_parse_windows_ping(output@) == (match g_first_hit(glines, 0) {
                Some(l) => g_windows_line_value(l),
                None => None,
            }),
            g_first_hit(glines, 0) == g_first_hit(glines, i as int),
        decreases lines.len() - i,
    {
        let line = &lines[i];
        let has_time = crate::text::find_sub(line, &time_pat, 0);
        let has_ms = crate::text::contains_sub(line, &ms_pat);
        match (has_time, has_ms) {
            (Some(t), true) => {
                proof {
                    assert(glines[i as int] == line@);
                    assert(g_windows_line_hit(glines[i as int]));
                    assert(g_first_hit(glines, i as int) == Some(line@));
                }
                // extract the token between `time=` and `ms`
                let nline = line.len();
                proof {
                    assert(t + time_pat@.len() <= line@.len());
                }
                let rest = crate::text::slice_chars(line, t + 5, nline);
                proof {
                    assert(rest@ =~= line@.subrange(t + 5, line@.len() as int));
                }
                match crate::text::find_sub(&rest, &ms_pat, 0) {
                    Some(j) => {
                        let tok_raw = crate::text::slice_chars(&rest, 0, j);
                        let tok = crate::text::trim_chars(&tok_raw);
                        match crate::text::parse_u64_digits(&tok) {
                            Some(v) => {
                                return Ok(v);
                            },
                            None => {
                                return Err(failure_message(output));
                            },
                        }
                    },
                    None => {
                        // `ms` sat inside `time=`'s prefix only
                        return Err(failure_message(output));
                    },
                }
            },
            _ => {
                proof {
                    assert(glines[i as int] == line@);
                    assert(!g_windows_line_hit(glines[i as int]));
                }
            },
        }
        i = i + 1;
    }
    Err(failure_message(output))
}

/// The value parsed from one line of Unix ping output: the first
/// whitespace-delimited token after `time=`, read as a decimal number
/// truncated to whole milliseconds (its integer part).
pub open spec fn g_unix_line_value(line: Seq<char>) -> Option<int> {
    match g_after_time(line) {
        Some(rest) => {
            let tok = g_first_token(rest);
            g_decimal_floor(tok)
        },
        None => None,
    }
}

/// The first whitespace-delimited token of `s` (maximal run of
/// non-whitespace starting at the first non-whitespace character).
pub open spec fn g_first_token(s: Seq<char>) -> Seq<char> {
    let a = crate::text::skip_spaces(s, 0);
    s.subrange(a, g_token_end(s, a))
}

/// Index of the first whitespace character at or after `from`.
pub open spec fn g_token_end(s: Seq<char>, from: int) -> int
    decreases s.len() - from,
{
    if from < 0 || from >= s.len() {
        s.len() as int
    } else if !crate::text::is_space(s[from]) {
        g_token_end(s, from + 1)
    } else {
        from
    }
}

/// The integer part of a plain decimal token (`digits`, optionally
/// followed by `.` and further digits); `None` for any other shape.
pub open spec fn g_decimal_floor(tok: Seq<char>) -> Option<int> {
    match first_match(tok, "."@, 0) {
        Some(d) => {
            let ip = tok.subrange(0, d);
            let fp = tok.subrange(d + 1, tok.len() as int);
            if ip.len() > 0 && all_digits(ip) && all_digits(fp) && digits_val(ip) <= u64::MAX {
                Some(digits_val(ip) as int)
            } else {
                None
            }
        },
        None => {
            if tok.len() > 0 && all_digits(tok) && digits_val(tok) <= u64::MAX {
                Some(digits_val(tok) as int)
            } else {
                None
            }
        },
    }
}

/// Whether a line is the one Unix parsing picks: it holds `time=`.
pub open spec fn g_unix_line_hit(line: Seq<char>) -> bool {
    first_match(line, "time="@, 0) is Some
}

/// The first hit line among the stripped lines, if any.
pub open spec fn g_first_unix_hit(lines: Seq<Seq<char>>, i: int) -> Option<Seq<char>>
    decreases lines.len() - i + 1,
{
    if i < 0 || i >= lines.len() {
        None
    } else if g_unix_line_hit(lines[i]) {
        Some(lines[i])
    } else {
        g_first_unix_hit(lines, i + 1)
    }
}

/// What Unix ping parsing yields for the whole output.
pub open spec fn g_parse_unix_ping(s: Seq<char>) -> Option<int> {
    let raw = g_lines(s);
    let kept = if raw.last().len() == 0 {
        raw.drop_last()
    } else {
        raw
    };
    let lines = kept.map_values(|l: Seq<char>| g_strip_cr(l));
    match g_first_unix_hit(lines, 0) {
        Some(line) => g_unix_line_value(line),
        None => None,
    }
}

/// Parses Unix ping output: the decimal value after `time=` on the first
/// line carrying it, truncated to whole milliseconds. The error carries
/// a preview of the unparseable output.
pub fn parse_unix_ping(output: &str) -> (r: Result<u64, String>)
    ensures
        match r {
            Ok(v) => g_parse_unix_ping(output@) == Some(v as int),
            Err(e) => g_parse_unix_ping(output@) is None && e@ == g_ping_failure_message(output@),
        },
{
    let lines = split_lines(output);
    let ghost glines = lines@.map_values(|v: Vec<char>| v@);
    let time_pat = crate::text::str_chars("time=");
    let mut i: usize = 0;
    proof {
        reveal_strlit("time=");
        assert(glines.subrange(0, glines.len() as int) =~= glines);
    }
    while i < lines.len()
        invariant
            i <= lines.len(),
            glines == lines@.map_values(|v: Vec<char>| v@),
            glines.len() == lines@.len(),
            time_pat@ == "time="@,
            time_pat@.len() == 5,
            g_parse_unix_ping(output@) == (match g_first_unix_hit(glines, 0) {
                Some(l) => g_unix_line_value(l),
                None => None,
            }),
            g_first_unix_hit(glines, 0) == g_first_unix_hit(glines, i as int),
        decreases lines.len() - i,
    {
        let line = &lines[i];
        match crate::text::find_sub(line, &time_pat, 0) {
            Some(t) => {
                proof {
                    assert(glines[i as int] == line@);
                    assert(g_unix_line_hit(glines[i as int]));
                    assert(g_first_unix_hit(glines, i as int) == Some(line@));
                }
                let nline = line.len();
                proof {
                    assert(t + time_pat@.len() <= line@.len());
                }
                let rest = crate::text::slice_chars(line, t + 5, nline);
                proof {
                    assert(rest@ =~= line@.subrange(t + 5, line@.len() as int));
                }
                // first whitespace-delimited token
                let a = tok_start(&rest);
                let b = tok_end(&rest, a);
                let tok = crate::text::slice_chars(&rest, a, b);
                proof {
                    assert(tok@ == g_first_token(rest@));
                }
                match decimal_floor(&tok) {
                    Some(v) => {
                        return Ok(v);
                    },
                    None => {
                        return Err(failure_message(output));
                    },
                }
            },
            None => {
                proof {
                    assert(glines[i as int] == line@);
                    assert(!g_unix_line_hit(glines[i as int]));
                }
            },
        }
        i = i + 1;
    }
    Err(failure_message(output))
}

/// Index of the first non-whitespace character.
fn tok_start(v: &Vec<char>) -> (r: usize)
    ensures
        r == crate::text::skip_spaces(v@, 0),
        r <= v.len(),
{
    let mut i: usize = 0;
    while i < v.len() && crate::text::space_char(v[i])
        invariant
            i <= v.len(),
            crate::text::skip_spaces(v@, 0) == crate::text::skip_spaces(v@, i as int),
        decreases v.len() - i,
    {
        i = i + 1;
    }
    i
}

/// Index of the first whitespace character at or after `a`.
fn tok_end(v: &Vec<char>, a: usize) -> (r: usize)
    requires
        a <= v.len(),
    ensures
        r == g_token_end(v@, a as int),
        a <= r <= v.len(),
{
    let mut i: usize = a;
    while i < v.len() && !crate::text::space_char(v[i])
        invariant
            a <= i <= v.len(),
            g_token_end(v@, a as int) == g_token_end(v@, i as int),
        decreases v.len() - i,
    {
        i = i + 1;
    }
    i
}

/// Reads the integer part of a plain decimal token.
fn decimal_floor(tok: &Vec<char>) -> (r: Option<u64>)
    ensures
        match r {
            Some(v) => g_decimal_floor(tok@) == Some(v as int),
            None => g_decimal_floor(tok@) is None,
        },
{
    let dot = crate::text::str_chars(".");
    proof {
        reveal_strlit(".");
        assert(dot@.len() == 1);
    }
    match crate::text::find_sub(tok, &dot, 0) {
        Some(d) => {
            let ntok = tok.len();
            proof {
                assert(d + dot@.len() <= tok@.len());
            }
            let ip = crate::text::slice_chars(tok, 0, d);
            let fp = crate::text::slice_chars(tok, d + 1, ntok);
            let mut fp_ok = true;
            let mut j: usize = 0;
            while j < fp.len()
                invariant
                    j <= fp.len(),
                    fp_ok ==> forall|m: int| 0 <= m < j ==> crate::text::is_digit(
                        #[trigger] fp@[m],
                    ),
                    !fp_ok ==> !all_digits(fp@),
                decreases fp.len() - j,
            {
                if !('0' <= fp[j] && fp[j] <= '9') {
                    fp_ok = false;
                    j = fp.len();
                } else {
                    j = j + 1;
                }
            }
            if !fp_ok {
                return None;
            }
            proof {
                assert(all_digits(fp@));
            }
            match crate::text::parse_u64_digits(&ip) {
                Some(v) => Some(v),
                None => None,
            }
        },
        None => {
            match crate::text::parse_u64_digits(tok) {
                Some(v) => Some(v),
                None => None,
            }
        },
    }
}

} // verus!
