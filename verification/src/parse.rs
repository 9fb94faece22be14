//! Reading a configuration back from its on-disk text form.  The reader
//! accepts exactly the renderings of [`crate::render::spec_render`]: five
//! `key = value` lines in fixed order, strings double-quoted with the
//! escapes `\"`, `\\`, `\n` and `\r` for quotes, backslashes and line
//! breaks.

use vstd::prelude::*;
use crate::config::Compiler;
use crate::config::CompilerMode;
use crate::config::ConfigV;

verus! {

/// The text did not conform to the configuration schema.
#[derive(Debug, Clone, Copy, PartialEq, Eq, Structural)]
pub struct ParseError;

/// `p` occurs in `s` at position `pos`.
pub open spec fn match_at(s: Seq<char>, pos: int, p: Seq<char>) -> bool {
    0 <= pos && pos + p.len() <= s.len() && s.subrange(pos, pos + p.len()) == p
}

/// The character an escape letter stands for, if it is one the format
/// writes.
pub open spec fn unesc(c: char) -> Option<char> {
    if c == '"' {
        Some('"')
    } else if c == '\\' {
        Some('\\')
    } else if c == 'n' {
        Some('\n')
    } else if c == 'r' {
        Some('\r')
    } else {
        None
    }
}

/// The contents of a quoted string read from `pos` (just inside the
/// opening quote) up to its closing quote: escapes decoded, raw line
/// breaks and stray escapes refused.  Returns the decoded value and the
/// position just after the closing quote.
pub open spec fn parse_string_body(s: Seq<char>, pos: int) -> Option<(Seq<char>, int)>
    decreases s.len() - pos,
{
    if pos < 0 || pos >= s.len() {
        None
    } else if s[pos] == '"' {
        Some((Seq::empty(), pos + 1))
    } else if s[pos] == '\\' {
        if pos + 1 < s.len() {
            match unesc(s[pos + 1]) {
                Some(c) => match parse_string_body(s, pos + 2) {
                    Some((v, p2)) => Some((seq![c] + v, p2)),
                    None => None,
                },
                None => None,
            }
        } else {
            None
        }
    } else if s[pos] == '\n' || s[pos] == '\r' {
        None
    } else {
        match parse_string_body(s, pos + 1) {
            Some((v, p2)) => Some((seq![s[pos]] + v, p2)),
            None => None,
        }
    }
}

/// A double-quoted string at `pos`: its decoded contents and the
/// position just after the closing quote.
pub open spec fn parse_quoted(s: Seq<char>, pos: int) -> Option<(Seq<char>, int)> {
    if 0 <= pos < s.len() && s[pos] == '"' {
        parse_string_body(s, pos + 1)
    } else {
        None
    }
}

/// A `key = "value"` line at `pos`; `key` carries the trailing `" = "`.
pub open spec fn parse_str_line(s: Seq<char>, pos: int, key: Seq<char>) -> Option<(Seq<char>, int)> {
    if match_at(s, pos, key) {
        match parse_quoted(s, pos + key.len()) {
            Some((v, p2)) => if match_at(s, p2, "\n"@) {
                Some((v, p2 + "\n"@.len()))
            } else {
                None
            },
            None => None,
        }
    } else {
        None
    }
}

/// One or more quoted flags separated by `", "`, closed by `"]"` and the
/// line break.
pub open spec fn parse_flags_items(s: Seq<char>, pos: int) -> Option<(Seq<Seq<char>>, int)>
    decreases s.len() - pos,
{
    match parse_quoted(s, pos) {
        Some((v, p2)) => if match_at(s, p2, "]\n"@) {
            Some((seq![v], p2 + "]\n"@.len()))
        } else if pos < p2 && match_at(s, p2, ", "@) {
            match parse_flags_items(s, p2 + ", "@.len()) {
                Some((rest, p3)) => Some((seq![v] + rest, p3)),
                None => None,
            }
        } else {
            None
        },
        None => None,
    }
}

/// The `flags = [...]` line at `pos`.
pub open spec fn parse_flags_line(s: Seq<char>, pos: int) -> Option<(Seq<Seq<char>>, int)> {
    if match_at(s, pos, "flags = ["@) {
        let p = pos + "flags = ["@.len();
        if match_at(s, p, "]\n"@) {
            Some((Seq::empty(), p + "]\n"@.len()))
        } else {
            parse_flags_items(s, p)
        }
    } else {
        None
    }
}

/// The `clean = ...` line at `pos`.
pub open spec fn parse_bool_line(s: Seq<char>, pos: int) -> Option<(bool, int)> {
    if match_at(s, pos, "clean = true\n"@) {
        Some((true, pos + "clean = true\n"@.len()))
    } else if match_at(s, pos, "clean = false\n"@) {
        Some((false, pos + "clean = false\n"@.len()))
    } else {
        None
    }
}

/// The `mode = "..."` line at `pos`; a tag other than the two variant
/// names does not parse.
pub open spec fn parse_mode_line(s: Seq<char>, pos: int) -> Option<(CompilerMode, int)> {
    if match_at(s, pos, "mode = \""@) {
        let p = pos + "mode = \""@.len();
        if match_at(s, p, "Spawn"@) && match_at(s, p + "Spawn"@.len(), "\"\n"@) {
            Some((CompilerMode::Spawn, p + "Spawn"@.len() + "\"\n"@.len()))
        } else if match_at(s, p, "Output"@) && match_at(s, p + "Output"@.len(), "\"\n"@) {
            Some((CompilerMode::Output, p + "Output"@.len() + "\"\n"@.len()))
        } else {
            None
        }
    } else {
        None
    }
}

/// The whole text form: the five lines in order, nothing after them.
pub open spec fn spec_parse(s: Seq<char>) -> Option<ConfigV> {
    match parse_str_line(s, 0, "compiler = "@) {
        Some((compiler, p1)) => match parse_str_line(s, p1, "proj_name = "@) {
            Some((proj_name, p2)) => match parse_flags_line(s, p2) {
                Some((flags, p3)) => match parse_bool_line(s, p3) {
                    Some((clean, p4)) => match parse_mode_line(s, p4) {
                        Some((mode, p5)) => if p5 == s.len() {
                            Some(ConfigV { compiler, proj_name, flags, clean, mode })
                        } else {
                            None
                        },
                        None => None,
                    },
                    None => None,
                },
                None => None,
            },
            None => None,
        },
        None => None,
    }
}

/// A decoded string ends after its opening position and within the text.
pub proof fn lemma_string_body_props(s: Seq<char>, pos: int)
    ensures
        match parse_string_body(s, pos) {
            Some(r) => pos < r.1 <= s.len(),
            None => true,
        },
    decreases s.len() - pos,
{
    if 0 <= pos < s.len() {
        if s[pos] == '"' {
        } else if s[pos] == '\\' {
            if pos + 1 < s.len() {
                lemma_string_body_props(s, pos + 2);
            }
        } else {
            lemma_string_body_props(s, pos + 1);
        }
    }
}

/// One decoding step: a raw character or an escape pair prepends one
/// character to whatever the rest of the string decodes to.
proof fn lemma_body_step(s: Seq<char>, pos: int, i: int, built: Seq<char>, c: char, step: int)
    requires
        match parse_string_body(s, i) {
            Some(v) => parse_string_body(s, pos) == Some((built + v.0, v.1)),
            None => parse_string_body(s, pos) is None,
        },
        0 <= i < s.len(),
        (step == 1 && s[i] != '"' && s[i] != '\\' && s[i] != '\n' && s[i] != '\r' && c == s[i]) || (
        step == 2 && s[i] == '\\' && i + 1 < s.len() && unesc(s[i + 1]) == Some(c)),
    ensures
        match parse_string_body(s, i + step) {
            Some(v) => parse_string_body(s, pos) == Some(((built + seq![c]) + v.0, v.1)),
            None => parse_string_body(s, pos) is None,
        },
{
    match parse_string_body(s, i + step) {
        Some((v2, pp)) => {
            assert(parse_string_body(s, i) == Some((seq![c] + v2, pp)));
            assert((built + seq![c]) + v2 =~= built + (seq![c] + v2));
        },
        None => {
        },
    }
}

fn ex_match_at(s: &str, pos: usize, pat: &str) -> (b: bool)
    ensures
        b == match_at(s@, pos as int, pat@),
{
    let n = s.unicode_len();
    let m = pat.unicode_len();
    if pos > n || m > n - pos {
        return false;
    }
    let mut j: usize = 0;
    while j < m
        invariant
            n == s@.len(),
            m == pat@.len(),
            pos + m <= n,
            j <= m,
            forall|k: int| 0 <= k < j ==> s@[pos + k] == pat@[k],
        decreases m - j,
    {
        if s.get_char(pos + j) != pat.get_char(j) {
            proof {
                assert(s@.subrange(pos as int, pos + m) != pat@) by {
                    if s@.subrange(pos as int, pos + m) == pat@ {
                        assert(s@.subrange(pos as int, pos + m)[j as int] == s@[pos + j]);
                    }
                }
            }
            return false;
        }
        j += 1;
    }
    proof {
        assert(s@.subrange(pos as int, pos + m) =~= pat@);
    }
    true
}

fn ex_parse_string_body(s: &str, pos: usize) -> (r: Option<(String, usize)>)
    ensures
        match r {
            Some(v) => parse_string_body(s@, pos as int) == Some((v.0@, v.1 as int)),
            None => parse_string_body(s@, pos as int) is None,
        },
{
    let n = s.unicode_len();
    let mut out = String::new();
    let mut i: usize = pos;
    proof {
        match parse_string_body(s@, pos as int) {
            Some((v0, p0)) => {
                assert(Seq::<char>::empty() + v0 =~= v0);
            },
            None => {
            },
        }
    }
    while i < n
        invariant
            n == s@.len(),
            pos <= i,
            match parse_string_body(s@, i as int) {
                Some(v) => parse_string_body(s@, pos as int) == Some((out@ + v.0, v.1)),
                None => parse_string_body(s@, pos as int) is None,
            },
        decreases n - i,
    {
        let c = s.get_char(i);
        if c == '"' {
            proof {
                assert(parse_string_body(s@, i as int) == Some((Seq::<char>::empty(), i + 1)));
                assert(out@ + Seq::<char>::empty() =~= out@);
            }
            return Some((out, i + 1));
        } else if c == '\\' {
            if i + 1 >= n {
                return None;
            }
            let d = s.get_char(i + 1);
            let ghost before = out@;
            if d == '"' {
                out.append("\"");
                proof {
                    reveal_strlit("\"");
                    assert(out@ =~= before + seq!['"']);
                    lemma_body_step(s@, pos as int, i as int, before, '"', 2);
                }
            } else if d == '\\' {
                out.append("\\");
                proof {
                    reveal_strlit("\\");
                    assert(out@ =~= before + seq!['\\']);
                    lemma_body_step(s@, pos as int, i as int, before, '\\', 2);
                }
            } else if d == 'n' {
                out.append("\n");
                proof {
                    reveal_strlit("\n");
                    assert(out@ =~= before + seq!['\n']);
                    lemma_body_step(s@, pos as int, i as int, before, '\n', 2);
                }
            } else if d == 'r' {
                out.append("\r");
                proof {
                    reveal_strlit("\r");
                    assert(out@ =~= before + seq!['\r']);
                    lemma_body_step(s@, pos as int, i as int, before, '\r', 2);
                }
            } else {
                proof {
                    assert(unesc(s@[i + 1]) is None);
                    assert(parse_string_body(s@, i as int) is None);
                }
                return None;
            }
            i += 2;
        } else if c == '\n' || c == '\r' {
            proof {
                assert(parse_string_body(s@, i as int) is None);
            }
            return None;
        } else {
            let ghost before = out@;
            out.append(s.substring_char(i, i + 1));
            proof {
                assert(s@.subrange(i as int, i + 1) =~= seq![s@[i as int]]);
                assert(out@ =~= before + seq![s@[i as int]]);
                lemma_body_step(s@, pos as int, i as int, before, c, 1);
            }
            i += 1;
        }
    }
    proof {
        assert(parse_string_body(s@, i as int) is None);
    }
    None
}

fn ex_parse_quoted(s: &str, pos: usize) -> (r: Option<(String, usize)>)
    ensures
        match r {
            Some(v) => parse_quoted(s@, pos as int) == Some((v.0@, v.1 as int)),
            None => parse_quoted(s@, pos as int) is None,
        },
{
    let n = s.unicode_len();
    if pos >= n {
        return None;
    }
    if s.get_char(pos) != '"' {
        return None;
    }
    ex_parse_string_body(s, pos + 1)
}

fn ex_parse_str_line(s: &str, pos: usize, key: &str) -> (r: Option<(String, usize)>)
    ensures
        match r {
            Some(v) => parse_str_line(s@, pos as int, key@) == Some((v.0@, v.1 as int)),
            None => parse_str_line(s@, pos as int, key@) is None,
        },
{
    let n = s.unicode_len();
    if !ex_match_at(s, pos, key) {
        return None;
    }
    let kl = key.unicode_len();
    proof {
        assert(pos + kl <= n);
    }
    match ex_parse_quoted(s, pos + kl) {
        Some((v, p2)) => {
            if ex_match_at(s, p2, "\n") {
                proof {
                    reveal_strlit("\n");
                }
                Some((v, p2 + 1))
            } else {
                None
            }
        },
        None => None,
    }
}

fn ex_parse_flags_items(s: &str, pos: usize) -> (r: Option<(Vec<String>, usize)>)
    ensures
        match r {
            Some(v) => parse_flags_items(s@, pos as int) == Some((v.0.deep_view(), v.1 as int)),
            None => parse_flags_items(s@, pos as int) is None,
        },
    decreases s@.len() - pos,
{
    let n = s.unicode_len();
    match ex_parse_quoted(s, pos) {
        Some((v, p2)) => {
            proof {
                lemma_string_body_props(s@, pos as int + 1);
            }
            if ex_match_at(s, p2, "]\n") {
                proof {
                    reveal_strlit("]\n");
                    assert(p2 + 2 <= n);
                }
                let ghost vv = v@;
                let mut vs: Vec<String> = Vec::new();
                vs.push(v);
                proof {
                    assert(vs.deep_view() =~= seq![vv]);
                }
                Some((vs, p2 + 2))
            } else if ex_match_at(s, p2, ", ") {
                proof {
                    reveal_strlit(", ");
                    assert(p2 + 2 <= n);
                }
                match ex_parse_flags_items(s, p2 + 2) {
                    Some((mut rest, p3)) => {
                        let ghost rest_dv = rest.deep_view();
                        let ghost vv = v@;
                        rest.insert(0, v);
                        proof {
                            assert(rest.deep_view() =~= seq![vv] + rest_dv);
                        }
                        Some((rest, p3))
                    },
                    None => None,
                }
            } else {
                None
            }
        },
        None => None,
    }
}

fn ex_parse_flags_line(s: &str, pos: usize) -> (r: Option<(Vec<String>, usize)>)
    ensures
        match r {
            Some(v) => parse_flags_line(s@, pos as int) == Some((v.0.deep_view(), v.1 as int)),
            None => parse_flags_line(s@, pos as int) is None,
        },
{
    let n = s.unicode_len();
    if !ex_match_at(s, pos, "flags = [") {
        return None;
    }
    let kl = "flags = [".unicode_len();
    proof {
        assert(pos + kl <= n);
    }
    let p = pos + kl;
    if ex_match_at(s, p, "]\n") {
        proof {
            reveal_strlit("]\n");
        }
        let vs: Vec<String> = Vec::new();
        proof {
            assert(vs.deep_view() =~= Seq::<Seq<char>>::empty());
        }
        Some((vs, p + 2))
    } else {
        ex_parse_flags_items(s, p)
    }
}

fn ex_parse_bool_line(s: &str, pos: usize) -> (r: Option<(bool, usize)>)
    ensures
        match r {
            Some(v) => parse_bool_line(s@, pos as int) == Some((v.0, v.1 as int)),
            None => parse_bool_line(s@, pos as int) is None,
        },
{
    let n = s.unicode_len();
    if ex_match_at(s, pos, "clean = true\n") {
        let kl = "clean = true\n".unicode_len();
        proof {
            assert(pos + kl <= n);
        }
        Some((true, pos + kl))
    } else if ex_match_at(s, pos, "clean = false\n") {
        let kl = "clean = false\n".unicode_len();
        proof {
            assert(pos + kl <= n);
        }
        Some((false, pos + kl))
    } else {
        None
    }
}

fn ex_parse_mode_line(s: &str, pos: usize) -> (r: Option<(CompilerMode, usize)>)
    ensures
        match r {
            Some(v) => parse_mode_line(s@, pos as int) == Some((v.0, v.1 as int)),
            None => parse_mode_line(s@, pos as int) is None,
        },
{
    let n = s.unicode_len();
    if !ex_match_at(s, pos, "mode = \"") {
        return None;
    }
    let kl = "mode = \"".unicode_len();
    proof {
        assert(pos + kl <= n);
    }
    let p = pos + kl;
    let sl = "Spawn".unicode_len();
    let ol = "Output".unicode_len();
    if ex_match_at(s, p, "Spawn") {
        proof {
            assert(p + sl <= n);
        }
        if ex_match_at(s, p + sl, "\"\n") {
            let el = "\"\n".unicode_len();
            proof {
                assert(p + sl + el <= n);
            }
            return Some((CompilerMode::Spawn, p + sl + el));
        }
    }
    if ex_match_at(s, p, "Output") {
        proof {
            assert(p + ol <= n);
        }
        if ex_match_at(s, p + ol, "\"\n") {
            let el = "\"\n".unicode_len();
            proof {
                assert(p + ol + el <= n);
            }
            return Some((CompilerMode::Output, p + ol + el));
        }
    }
    None
}

impl Compiler {
    /// Read a configuration back from its text form.  Succeeds on exactly
    /// the texts the schema admits; anything else is a [`ParseError`].
    pub fn parse(s: &str) -> (r: Result<Compiler, ParseError>)
        ensures
            match r {
                Ok(c) => spec_parse(s@) == Some(c@),
                Err(_) => spec_parse(s@) is None,
            },
    {
        let n = s.unicode_len();
        match ex_parse_str_line(s, 0, "compiler = ") {
            Some((compiler, p1)) => match ex_parse_str_line(s, p1, "proj_name = ") {
                Some((proj_name, p2)) => match ex_parse_flags_line(s, p2) {
                    Some((flags, p3)) => match ex_parse_bool_line(s, p3) {
                        Some((clean, p4)) => match ex_parse_mode_line(s, p4) {
                            Some((mode, p5)) => {
                                if p5 == n {
                                    let ghost expected = spec_parse(s@);
                                    let c = Compiler::from_parts(
                                        compiler,
                                        proj_name,
                                        flags,
                                        clean,
                                        mode,
                                    );
                                    proof {
                                        assert(expected == Some(c@));
                                    }
                                    Ok(c)
                                } else {
                                    Err(ParseError)
                                }
                            },
                            None => Err(ParseError),
                        },
                        None => Err(ParseError),
                    },
                    None => Err(ParseError),
                },
                None => Err(ParseError),
            },
            None => Err(ParseError),
        }
    }
}

} // verus!
