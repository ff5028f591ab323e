//! Subtitle handling: converting downloaded SRT text to WebVTT, and
//! choosing the subtitle service's API key. Fetching and uploading the
//! files is transport work and happens at the boundary.

use vstd::prelude::*;

use crate::http_error::Error;
use crate::plex::{contains_sub, has_sub};
use crate::strutil::push_char;

verus! {

/// How many characters the text starts with before a line break.
pub open spec fn line_len(s: Seq<char>) -> nat
    decreases s.len(),
{
    if s.len() == 0 || s[0] == '\n' {
        0
    } else {
        1 + line_len(s.drop_first())
    }
}

/// A text of line characters followed by a break (or nothing) starts
/// with exactly those characters.
proof fn lemma_line_len_of(d: Seq<char>, rest: Seq<char>)
    requires
        forall|i: int| 0 <= i < d.len() ==> d[i] != '\n',
        rest.len() == 0 || rest[0] == '\n',
    ensures
        line_len(d + rest) == d.len(),
    decreases d.len(),
{
    if d.len() == 0 {
        assert(d + rest =~= rest);
    } else {
        assert((d + rest).drop_first() =~= d.drop_first() + rest);
        assert(forall|i: int|
            0 <= i < d.drop_first().len() ==> #[trigger] d.drop_first()[i] != '\n');
        lemma_line_len_of(d.drop_first(), rest);
        assert((d + rest)[0] == d[0]);
    }
}

/// A line without its trailing carriage return.
pub open spec fn strip_cr(line: Seq<char>) -> Seq<char> {
    if line.len() > 0 && line.last() == '\r' {
        line.drop_last()
    } else {
        line
    }
}

/// A comma, turned into a dot; anything else unchanged.
pub open spec fn comma_dot(c: char) -> char {
    if c == ',' {
        '.'
    } else {
        c
    }
}

/// One subtitle line converted: a timing line (it holds an arrow and a
/// comma) has its comma decimal separators changed to dots; any other
/// line passes through.
pub open spec fn vtt_line(line: Seq<char>) -> Seq<char> {
    if has_sub(line, " --> "@) && line.contains(',') {
        line.map(|k: int, c: char| comma_dot(c))
    } else {
        line
    }
}

/// The converted body: every line converted, a break after each.
pub open spec fn vtt_body(s: Seq<char>) -> Seq<char>
    decreases s.len(),
{
    if s.len() == 0 {
        Seq::empty()
    } else {
        let k = line_len(s);
        let done = vtt_line(strip_cr(s.subrange(0, k as int))).push('\n');
        if k < s.len() {
            done + vtt_body(s.subrange(k as int + 1, s.len() as int))
        } else {
            done
        }
    }
}

/// Whether a character occurs in a range of the text.
fn has_char_in(s: &str, from: usize, to: usize, c: char) -> (r: bool)
    requires
        from <= to <= s@.len(),
    ensures
        r == exists|k: int| from <= k < to && s@[k] == c,
{
    let mut k: usize = from;
    while k < to
        invariant
            from <= k <= to <= s@.len(),
            forall|k2: int| from <= k2 < k ==> s@[k2] != c,
        decreases to - k,
    {
        if s.get_char(k) == c {
            return true;
        }
        k = k + 1;
    }
    false
}

/// Convert SRT subtitle text to WebVTT: the header, then every line,
/// with commas in timing lines becoming dots.
#[verifier::rlimit(100)]
pub fn srt_to_vtt(srt: &str) -> (r: String)
    ensures
        r@ == "WEBVTT\n\n"@ + vtt_body(srt@),
{
    let n = srt.unicode_len();
    let mut out = String::from_str("WEBVTT\n\n");
    let ghost header = "WEBVTT\n\n"@;
    let mut i: usize = 0;
    proof {
        assert(srt@.subrange(0, n as int) =~= srt@);
    }
    while i < n
        invariant
            0 <= i <= n,
            n == srt@.len(),
            header == "WEBVTT\n\n"@,
            out@ + vtt_body(srt@.subrange(i as int, n as int)) == header + vtt_body(srt@),
        decreases n - i,
    {
        let mut j: usize = i;
        let mut saw_break = false;
        while j < n && !saw_break
            invariant
                i <= j <= n,
                n == srt@.len(),
                forall|k: int| i <= k < j ==> srt@[k] != '\n',
                saw_break ==> j < n && srt@[j as int] == '\n',
            decreases n - j + (if saw_break {
                0 as int
            } else {
                1 as int
            }),
        {
            if srt.get_char(j) == '\n' {
                saw_break = true;
            } else {
                j = j + 1;
            }
        }
        let ghost rest = srt@.subrange(i as int, n as int);
        proof {
            assert(srt@.subrange(i as int, j as int) + srt@.subrange(j as int, n as int)
                =~= rest);
            assert(forall|k: int|
                0 <= k < j - i ==> #[trigger] srt@.subrange(i as int, j as int)[k] != '\n');
            if j < n {
                assert(srt@.subrange(j as int, n as int)[0] == '\n');
            }
            lemma_line_len_of(
                srt@.subrange(i as int, j as int),
                srt@.subrange(j as int, n as int),
            );
            assert(line_len(rest) == j - i);
            assert(rest.subrange(0, line_len(rest) as int) =~= srt@.subrange(
                i as int,
                j as int,
            ));
        }
        let jj: usize = if j > i && srt.get_char(j - 1) == '\r' {
            j - 1
        } else {
            j
        };
        let ghost line = strip_cr(srt@.subrange(i as int, j as int));
        proof {
            if j > i && srt@[j - 1] == '\r' {
                assert(srt@.subrange(i as int, j as int).drop_last() =~= srt@.subrange(
                    i as int,
                    jj as int,
                ));
            }
            assert(line =~= srt@.subrange(i as int, jj as int));
        }
        let sub = srt.substring_char(i, jj);
        let timing = contains_sub(sub, " --> ") && has_char_in(srt, i, jj, ',');
        proof {
            assert(line.contains(',') == exists|k: int| i <= k < jj && srt@[k] == ',') by {
                if line.contains(',') {
                    let k0 = choose|k0: int| 0 <= k0 < line.len() && line[k0] == ',';
                    assert(srt@[i + k0] == ',');
                }
                if exists|k: int| i <= k < jj && srt@[k] == ',' {
                    let k0 = choose|k0: int| i <= k0 < jj && srt@[k0] == ',';
                    assert(line[k0 - i] == ',');
                }
            }
        }
        let ghost out_start = out@;
        if timing {
            let ghost out0 = out@;
            let mut k: usize = i;
            while k < jj
                invariant
                    i <= k <= jj <= n,
                    n == srt@.len(),
                    line =~= srt@.subrange(i as int, jj as int),
                    out@ == out0 + line.map(|k2: int, c2: char| comma_dot(c2)).subrange(
                        0,
                        k - i,
                    ),
                decreases jj - k,
            {
                let c = srt.get_char(k);
                push_char(&mut out, if c == ',' {
                    '.'
                } else {
                    c
                });
                proof {
                    assert(line[k - i] == srt@[k as int]);
                    assert(line.map(|k2: int, c2: char| comma_dot(c2)).subrange(
                        0,
                        k + 1 - i,
                    ) =~= line.map(|k2: int, c2: char| comma_dot(c2)).subrange(0, k - i).push(
                        comma_dot(srt@[k as int]),
                    ));
                    assert(out@ =~= out0 + line.map(|k2: int, c2: char| comma_dot(c2)).subrange(
                        0,
                        k + 1 - i,
                    ));
                }
                k = k + 1;
            }
            proof {
                assert(line.map(|k2: int, c2: char| comma_dot(c2)).subrange(
                    0,
                    line.len() as int,
                ) =~= line.map(|k2: int, c2: char| comma_dot(c2)));
                assert(vtt_line(line) == line.map(|k2: int, c2: char| comma_dot(c2)));
                assert(out@ == out_start + vtt_line(line));
            }
        } else {
            out.append(sub);
            proof {
                assert(vtt_line(line) == line);
                assert(out@ == out_start + vtt_line(line));
            }
        }
        push_char(&mut out, '\n');
        proof {
            assert(out@ =~= out_start + vtt_line(line).push('\n'));
            assert(vtt_body(rest) == vtt_line(line).push('\n') + (if j < n {
                vtt_body(srt@.subrange(j + 1 as int, n as int))
            } else {
                Seq::<char>::empty()
            })) by {
                assert(rest.subrange(0, line_len(rest) as int) =~= srt@.subrange(i as int, j as int));
                if j < n {
                    assert(rest.subrange(line_len(rest) as int + 1, rest.len() as int) =~= srt@.subrange(
                        j + 1 as int,
                        n as int,
                    ));
                }
            }
        }
        if j >= n {
            proof {
                assert(vtt_body(rest) =~= vtt_line(line).push('\n'));
                assert(out_start + vtt_body(rest) == header + vtt_body(srt@));
                assert(out@ =~= header + vtt_body(srt@));
            }
            return out;
        }
        proof {
            assert(out@ + vtt_body(srt@.subrange(j + 1 as int, n as int)) =~= out_start + (
            vtt_line(line).push('\n') + vtt_body(srt@.subrange(j + 1 as int, n as int))));
            assert(out@ + vtt_body(srt@.subrange(j + 1 as int, n as int)) == header + vtt_body(
                srt@,
            ));
        }
        i = j + 1;
    }
    proof {
        assert(vtt_body(srt@.subrange(i as int, n as int)) =~= Seq::<char>::empty());
        assert(out@ =~= header + vtt_body(srt@));
    }
    out
}


/// The subtitle service's API key: the saved setting when one is
/// present, else the built-in default.
pub fn api_key(saved: &String, compiled: &str) -> (r: String)
    ensures
        r@ == if saved@.len() > 0 {
            saved@
        } else {
            compiled@
        },
{
    if !saved.as_str().is_empty() {
        saved.clone()
    } else {
        String::from_str(compiled)
    }
}

/// The subtitle service's API key, or the service-unavailable error
/// when neither the setting nor the default holds one.
pub fn require_api_key(saved: &String, compiled: &str) -> (r: Result<String, Error>)
    ensures
        r matches Ok(k) ==> k@ == (if saved@.len() > 0 {
            saved@
        } else {
            compiled@
        }) && k@.len() > 0,
        r is Err <==> saved@.len() == 0 && compiled@.len() == 0,
        r matches Err(e) ==> e is ServiceUnavailable,
{
    let key = api_key(saved, compiled);
    if key.as_str().is_empty() {
        Err(Error::ServiceUnavailable(String::from_str("Subtitle API key is not configured.")))
    } else {
        Ok(key)
    }
}

} // verus!
