//! Round-trip fidelity of the text form: reading a rendered
//! configuration back yields the configuration it was rendered from,
//! for every configuration; and only renderings parse.

use vstd::prelude::*;
use crate::config::ConfigV;
use crate::config::CompilerMode;
use crate::render::esc_char;
use crate::render::escape_from;
use crate::render::escape;
use crate::render::quoted;
use crate::render::str_line;
use crate::render::render_flags_from;
use crate::render::flags_line;
use crate::render::bool_line;
use crate::render::mode_name;
use crate::render::mode_line;
use crate::render::spec_render;
use crate::parse::match_at;
use crate::parse::unesc;
use crate::parse::parse_string_body;
use crate::parse::parse_str_line;
use crate::parse::parse_flags_items;
use crate::parse::parse_flags_line;
use crate::parse::parse_bool_line;
use crate::parse::parse_mode_line;
use crate::parse::spec_parse;

verus! {

/// A match pins each character under it.
proof fn lemma_match_at_index(s: Seq<char>, pos: int, p: Seq<char>, k: int)
    requires
        match_at(s, pos, p),
        0 <= k < p.len(),
    ensures
        s[pos + k] == p[k],
{
    assert(s.subrange(pos, pos + p.len())[k] == s[pos + k]);
}

/// A match pins each piece under it: the characters of `s` over
/// `[pos + a, pos + b)` are those of `p` over `[a, b)`.
proof fn lemma_match_at_sub(s: Seq<char>, pos: int, p: Seq<char>, a: int, b: int)
    requires
        match_at(s, pos, p),
        0 <= a <= b <= p.len(),
    ensures
        s.subrange(pos + a, pos + b) == p.subrange(a, b),
{
    assert forall|k: int| 0 <= k < b - a implies s.subrange(pos + a, pos + b)[k] == p.subrange(
        a,
        b,
    )[k] by {
        assert(s.subrange(pos, pos + p.len())[a + k] == s[pos + a + k]);
    }
    assert(s.subrange(pos + a, pos + b) =~= p.subrange(a, b));
}

/// How each character is written: either escaped, as a backslash and
/// the letter the reader decodes back to it, or as itself, in which
/// case it is none of the characters that are written escaped.
proof fn lemma_esc_char_cases(c: char)
    ensures
        esc_char(c).len() == 1 || esc_char(c).len() == 2,
        esc_char(c).len() == 2 ==> esc_char(c)[0] == '\\' && unesc(esc_char(c)[1]) == Some(c),
        esc_char(c).len() == 1 ==> esc_char(c)[0] == c && c != '"' && c != '\\' && c != '\n' && c
            != '\r',
{
}

/// A written string followed by its closing quote decodes back to the
/// string, from any of its characters on.
proof fn lemma_body_round_trip(s: Seq<char>, pos: int, v: Seq<char>, i: int)
    requires
        0 <= i <= v.len(),
        match_at(s, pos, escape_from(v, i) + "\""@),
    ensures
        parse_string_body(s, pos) == Some(
            (v.subrange(i, v.len() as int), pos + (escape_from(v, i) + "\""@).len()),
        ),
    decreases v.len() - i,
{
    reveal_strlit("\"");
    let chunk = escape_from(v, i) + "\""@;
    if i == v.len() {
        assert(escape_from(v, i) =~= Seq::<char>::empty());
        lemma_match_at_index(s, pos, chunk, 0);
        assert(s[pos] == '"');
        assert(parse_string_body(s, pos) == Some((Seq::<char>::empty(), pos + 1)));
        assert(v.subrange(i, v.len() as int) =~= Seq::<char>::empty());
    } else {
        let c = v[i];
        lemma_esc_char_cases(c);
        let ec = esc_char(c);
        let el = ec.len() as int;
        let rest_chunk = escape_from(v, i + 1) + "\""@;
        lemma_match_at_sub(s, pos, chunk, el, chunk.len() as int);
        assert(chunk.subrange(el, chunk.len() as int) =~= rest_chunk);
        assert(match_at(s, pos + el, rest_chunk));
        lemma_body_round_trip(s, pos + el, v, i + 1);
        if el == 2 {
            lemma_match_at_index(s, pos, chunk, 0);
            lemma_match_at_index(s, pos, chunk, 1);
            assert(s[pos] == '\\');
            assert(s[pos + 1] == ec[1]);
            assert(unesc(s[pos + 1]) == Some(c));
            assert(parse_string_body(s, pos) == Some(
                (seq![c] + v.subrange(i + 1, v.len() as int), pos + chunk.len()),
            ));
        } else {
            lemma_match_at_index(s, pos, chunk, 0);
            assert(s[pos] == c);
            assert(parse_string_body(s, pos) == Some(
                (seq![c] + v.subrange(i + 1, v.len() as int), pos + chunk.len()),
            ));
        }
        assert(seq![c] + v.subrange(i + 1, v.len() as int) =~= v.subrange(i, v.len() as int));
    }
}

/// A rendered `key = "value"` line parses back to its value.
proof fn lemma_str_line_round_trip(s: Seq<char>, pos: int, key: Seq<char>, v: Seq<char>)
    requires
        match_at(s, pos, str_line(key, v)),
    ensures
        parse_str_line(s, pos, key) == Some((v, pos + str_line(key, v).len())),
{
    reveal_strlit("\"");
    reveal_strlit("\"\n");
    reveal_strlit("\n");
    let line = str_line(key, v);
    let kl = key.len() as int;
    let el = escape(v).len() as int;
    lemma_match_at_sub(s, pos, line, 0, kl);
    assert(line.subrange(0, kl) =~= key);
    assert(match_at(s, pos, key));
    let pk = pos + kl;
    lemma_match_at_index(s, pos, line, kl);
    assert(s[pk] == '"');
    let body_chunk = escape_from(v, 0) + "\""@;
    lemma_match_at_sub(s, pos, line, kl + 1, kl + 1 + el + 1);
    assert(line.subrange(kl + 1, kl + 1 + el + 1) =~= body_chunk);
    assert(match_at(s, pk + 1, body_chunk));
    lemma_body_round_trip(s, pk + 1, v, 0);
    assert(v.subrange(0, v.len() as int) =~= v);
    let p2 = pk + 1 + el + 1;
    assert(parse_string_body(s, pk + 1) == Some((v, p2)));
    lemma_match_at_index(s, pos, line, kl + 1 + el + 1);
    assert(s[p2] == '\n');
    assert(s.subrange(p2, p2 + 1) =~= "\n"@) by {
        assert(s.subrange(p2, p2 + 1)[0] == s[p2]);
    }
    assert(match_at(s, p2, "\n"@));
    assert(parse_str_line(s, pos, key) == Some((v, p2 + 1)));
    assert(p2 + 1 == pos + line.len());
}

/// A rendered flag list, from any of its elements on, parses back to
/// that suffix of the flags.
proof fn lemma_flags_items_round_trip(s: Seq<char>, pos: int, flags: Seq<Seq<char>>, i: int)
    requires
        0 <= i < flags.len(),
        match_at(s, pos, render_flags_from(flags, i) + "]\n"@),
    ensures
        parse_flags_items(s, pos) == Some(
            (
                flags.subrange(i, flags.len() as int),
                pos + render_flags_from(flags, i).len() + "]\n"@.len(),
            ),
        ),
    decreases flags.len() - i,
{
    reveal_strlit("\"");
    reveal_strlit("]\n");
    reveal_strlit(", ");
    let chunk = render_flags_from(flags, i) + "]\n"@;
    let f = flags[i];
    let el = escape(f).len() as int;
    lemma_match_at_index(s, pos, chunk, 0);
    assert(s[pos] == '"');
    let body_chunk = escape_from(f, 0) + "\""@;
    lemma_match_at_sub(s, pos, chunk, 1, 1 + el + 1);
    assert(chunk.subrange(1, 1 + el + 1) =~= body_chunk);
    assert(match_at(s, pos + 1, body_chunk));
    lemma_body_round_trip(s, pos + 1, f, 0);
    assert(f.subrange(0, f.len() as int) =~= f);
    let q1 = pos + 1 + el + 1;
    assert(parse_string_body(s, pos + 1) == Some((f, q1)));
    if i == flags.len() - 1 {
        lemma_match_at_index(s, pos, chunk, 2 + el);
        assert(s[q1] == ']');
        lemma_match_at_index(s, pos, chunk, 3 + el);
        assert(s[q1 + 1] == '\n');
        assert(s.subrange(q1, q1 + 2) =~= "]\n"@) by {
            assert(s.subrange(q1, q1 + 2)[0] == s[q1]);
            assert(s.subrange(q1, q1 + 2)[1] == s[q1 + 1]);
        }
        assert(match_at(s, q1, "]\n"@));
        assert(parse_flags_items(s, pos) == Some((seq![f], q1 + 2)));
        assert(seq![f] =~= flags.subrange(i, flags.len() as int));
        assert(q1 + 2 == pos + render_flags_from(flags, i).len() + 2);
    } else {
        lemma_match_at_index(s, pos, chunk, 2 + el);
        assert(s[q1] == ',');
        lemma_match_at_index(s, pos, chunk, 3 + el);
        assert(s[q1 + 1] == ' ');
        assert(!match_at(s, q1, "]\n"@)) by {
            if match_at(s, q1, "]\n"@) {
                lemma_match_at_index(s, q1, "]\n"@, 0);
            }
        }
        assert(s.subrange(q1, q1 + 2) =~= ", "@) by {
            assert(s.subrange(q1, q1 + 2)[0] == s[q1]);
            assert(s.subrange(q1, q1 + 2)[1] == s[q1 + 1]);
        }
        assert(match_at(s, q1, ", "@));
        let pos2 = q1 + 2;
        let off = 4 + el;
        let rest_chunk = render_flags_from(flags, i + 1) + "]\n"@;
        lemma_match_at_sub(s, pos, chunk, off, chunk.len() as int);
        assert(chunk.subrange(off, chunk.len() as int) =~= rest_chunk);
        assert(match_at(s, pos2, rest_chunk));
        lemma_flags_items_round_trip(s, pos2, flags, i + 1);
        assert(seq![f] + flags.subrange(i + 1, flags.len() as int) =~= flags.subrange(
            i,
            flags.len() as int,
        ));
        assert(parse_flags_items(s, pos) == Some(
            (
                flags.subrange(i, flags.len() as int),
                pos2 + render_flags_from(flags, i + 1).len() + 2,
            ),
        ));
        assert(pos2 + render_flags_from(flags, i + 1).len() + 2 == pos + render_flags_from(
            flags,
            i,
        ).len() + 2);
    }
}

/// A rendered `flags = [...]` line parses back to the flags.
proof fn lemma_flags_line_round_trip(s: Seq<char>, pos: int, flags: Seq<Seq<char>>)
    requires
        match_at(s, pos, flags_line(flags)),
    ensures
        parse_flags_line(s, pos) == Some((flags, pos + flags_line(flags).len())),
{
    reveal_strlit("\"");
    reveal_strlit("flags = [");
    reveal_strlit("]\n");
    let chunk = flags_line(flags);
    let key = "flags = ["@;
    let kl = key.len() as int;
    lemma_match_at_sub(s, pos, chunk, 0, kl);
    assert(chunk.subrange(0, kl) =~= key);
    assert(match_at(s, pos, key));
    let p = pos + kl;
    if flags.len() == 0 {
        assert(render_flags_from(flags, 0) =~= Seq::<char>::empty());
        lemma_match_at_index(s, pos, chunk, kl);
        assert(s[p] == ']');
        lemma_match_at_index(s, pos, chunk, kl + 1);
        assert(s[p + 1] == '\n');
        assert(s.subrange(p, p + 2) =~= "]\n"@) by {
            assert(s.subrange(p, p + 2)[0] == s[p]);
            assert(s.subrange(p, p + 2)[1] == s[p + 1]);
        }
        assert(match_at(s, p, "]\n"@));
        assert(parse_flags_line(s, pos) == Some((Seq::<Seq<char>>::empty(), p + 2)));
        assert(flags =~= Seq::<Seq<char>>::empty());
        assert(p + 2 == pos + chunk.len());
    } else {
        lemma_match_at_index(s, pos, chunk, kl);
        assert(chunk[kl] == quoted(flags[0])[0]);
        assert(s[p] == '"');
        assert(!match_at(s, p, "]\n"@)) by {
            if match_at(s, p, "]\n"@) {
                lemma_match_at_index(s, p, "]\n"@, 0);
            }
        }
        let rest_chunk = render_flags_from(flags, 0) + "]\n"@;
        lemma_match_at_sub(s, pos, chunk, kl, chunk.len() as int);
        assert(chunk.subrange(kl, chunk.len() as int) =~= rest_chunk);
        assert(match_at(s, p, rest_chunk));
        lemma_flags_items_round_trip(s, p, flags, 0);
        assert(flags.subrange(0, flags.len() as int) =~= flags);
        assert(p + render_flags_from(flags, 0).len() + 2 == pos + chunk.len());
    }
}

/// A rendered `clean = ...` line parses back to its boolean.
proof fn lemma_bool_line_round_trip(s: Seq<char>, pos: int, b: bool)
    requires
        match_at(s, pos, bool_line(b)),
    ensures
        parse_bool_line(s, pos) == Some((b, pos + bool_line(b).len())),
{
    reveal_strlit("clean = true\n");
    reveal_strlit("clean = false\n");
    if b {
    } else {
        lemma_match_at_index(s, pos, bool_line(false), 8);
        assert(s[pos + 8] == 'f');
        assert(!match_at(s, pos, "clean = true\n"@)) by {
            if match_at(s, pos, "clean = true\n"@) {
                lemma_match_at_index(s, pos, "clean = true\n"@, 8);
            }
        }
    }
}

/// A rendered `mode = "..."` line parses back to its mode.
proof fn lemma_mode_line_round_trip(s: Seq<char>, pos: int, m: CompilerMode)
    requires
        match_at(s, pos, mode_line(m)),
    ensures
        parse_mode_line(s, pos) == Some((m, pos + mode_line(m).len())),
{
    reveal_strlit("mode = \"");
    reveal_strlit("Spawn");
    reveal_strlit("Output");
    reveal_strlit("\"\n");
    let chunk = mode_line(m);
    let key = "mode = \""@;
    let kl = key.len() as int;
    let name = mode_name(m);
    let nl = name.len() as int;
    lemma_match_at_sub(s, pos, chunk, 0, kl);
    assert(chunk.subrange(0, kl) =~= key);
    assert(match_at(s, pos, key));
    let p = pos + kl;
    lemma_match_at_sub(s, pos, chunk, kl, kl + nl);
    assert(chunk.subrange(kl, kl + nl) =~= name);
    assert(match_at(s, p, name));
    lemma_match_at_sub(s, pos, chunk, kl + nl, kl + nl + 2);
    assert(chunk.subrange(kl + nl, kl + nl + 2) =~= "\"\n"@);
    assert(match_at(s, p + nl, "\"\n"@));
    match m {
        CompilerMode::Spawn => {
        },
        CompilerMode::Output => {
            lemma_match_at_index(s, p, name, 0);
            assert(s[p] == 'O');
            assert(!match_at(s, p, "Spawn"@)) by {
                if match_at(s, p, "Spawn"@) {
                    lemma_match_at_index(s, p, "Spawn"@, 0);
                }
            }
        },
    }
}

/// Round-trip fidelity: for every configuration, parsing its rendering
/// yields the configuration back, field for field.
#[verifier::rlimit(100)]
pub proof fn lemma_round_trip(v: ConfigV)
    ensures
        spec_parse(spec_render(v)) == Some(v),
{
    let s = spec_render(v);
    let l1 = str_line("compiler = "@, v.compiler);
    let l2 = str_line("proj_name = "@, v.proj_name);
    let l3 = flags_line(v.flags);
    let l4 = bool_line(v.clean);
    let l5 = mode_line(v.mode);
    let p1 = l1.len() as int;
    let p2 = p1 + l2.len();
    let p3 = p2 + l3.len();
    let p4 = p3 + l4.len();
    let p5 = p4 + l5.len();
    assert(s.len() == p5);
    assert(match_at(s, 0, l1)) by {
        assert(s.subrange(0, p1) =~= l1);
    }
    lemma_str_line_round_trip(s, 0, "compiler = "@, v.compiler);
    assert(match_at(s, p1, l2)) by {
        assert(s.subrange(p1, p2) =~= l2);
    }
    lemma_str_line_round_trip(s, p1, "proj_name = "@, v.proj_name);
    assert(match_at(s, p2, l3)) by {
        assert(s.subrange(p2, p3) =~= l3);
    }
    lemma_flags_line_round_trip(s, p2, v.flags);
    assert(match_at(s, p3, l4)) by {
        assert(s.subrange(p3, p4) =~= l4);
    }
    lemma_bool_line_round_trip(s, p3, v.clean);
    assert(match_at(s, p4, l5)) by {
        assert(s.subrange(p4, p5) =~= l5);
    }
    lemma_mode_line_round_trip(s, p4, v.mode);
    assert(spec_parse(s) == Some(
        ConfigV {
            compiler: v.compiler,
            proj_name: v.proj_name,
            flags: v.flags,
            clean: v.clean,
            mode: v.mode,
        },
    ));
    assert(ConfigV {
        compiler: v.compiler,
        proj_name: v.proj_name,
        flags: v.flags,
        clean: v.clean,
        mode: v.mode,
    } =~= v);
}

/// The written form of a string ignores a first character prepended to
/// it, from any index past that character on.
proof fn lemma_escape_shift(x: char, rest: Seq<char>, j: int)
    requires
        0 <= j <= rest.len(),
    ensures
        escape_from(seq![x] + rest, j + 1) == escape_from(rest, j),
    decreases rest.len() - j,
{
    let full = seq![x] + rest;
    assert(full.len() == 1 + rest.len());
    if j >= rest.len() {
        assert(escape_from(full, j + 1) == Seq::<char>::empty());
        assert(escape_from(rest, j) == Seq::<char>::empty());
    } else {
        assert(full[j + 1] == rest[j]);
        lemma_escape_shift(x, rest, j + 1);
    }
}

/// A decoded string stood there as its own written form followed by the
/// closing quote.
proof fn lemma_body_inverse(s: Seq<char>, pos: int, v: Seq<char>, p2: int)
    requires
        parse_string_body(s, pos) == Some((v, p2)),
    ensures
        match_at(s, pos, escape(v) + "\""@),
        p2 == pos + (escape(v) + "\""@).len(),
    decreases s.len() - pos,
{
    reveal_strlit("\"");
    if s[pos] == '"' {
        assert(v == Seq::<char>::empty());
        assert(escape_from(v, 0) =~= Seq::<char>::empty());
        let chunk = escape(v) + "\""@;
        assert(chunk.len() == 1);
        assert(chunk[0] == '"');
        assert(s.subrange(pos, pos + 1) =~= chunk) by {
            assert(s.subrange(pos, pos + 1)[0] == s[pos]);
        }
    } else if s[pos] == '\\' {
        let d = s[pos + 1];
        match parse_string_body(s, pos + 2) {
            Some((v2, pp)) => {
                let c = v[0];
                assert(v == seq![c] + v2);
                lemma_body_inverse(s, pos + 2, v2, p2);
                lemma_escape_shift(c, v2, 0);
                assert(escape_from(v, 1) == escape_from(v2, 0));
                if d == '"' {
                    assert(esc_char(c) =~= seq!['\\', d]);
                } else if d == '\\' {
                    assert(esc_char(c) =~= seq!['\\', d]);
                } else if d == 'n' {
                    assert(esc_char(c) =~= seq!['\\', d]);
                } else if d == 'r' {
                    assert(esc_char(c) =~= seq!['\\', d]);
                } else {
                    assert(false);
                }
                let chunk = escape(v) + "\""@;
                let rest_chunk = escape(v2) + "\""@;
                assert(escape(v) == esc_char(c) + escape_from(v, 1));
                assert(chunk.len() == 2 + rest_chunk.len());
                assert(p2 == pos + chunk.len());
                assert forall|k: int| 0 <= k < chunk.len() implies s[pos + k] == chunk[k] by {
                    if k == 0 {
                        assert(chunk[0] == '\\');
                    } else if k == 1 {
                        assert(chunk[1] == d);
                    } else {
                        lemma_match_at_index(s, pos + 2, rest_chunk, k - 2);
                        assert(chunk[k] == rest_chunk[k - 2]);
                    }
                }
                assert(s.subrange(pos, pos + chunk.len()) =~= chunk);
            },
            None => {
                assert(false);
            },
        }
    } else {
        let c = s[pos];
        match parse_string_body(s, pos + 1) {
            Some((v2, pp)) => {
                assert(v == seq![c] + v2);
                lemma_body_inverse(s, pos + 1, v2, p2);
                lemma_escape_shift(c, v2, 0);
                assert(escape_from(v, 1) == escape_from(v2, 0));
                assert(esc_char(c) =~= seq![c]);
                let chunk = escape(v) + "\""@;
                let rest_chunk = escape(v2) + "\""@;
                assert(escape(v) == esc_char(c) + escape_from(v, 1));
                assert(chunk.len() == 1 + rest_chunk.len());
                assert(p2 == pos + chunk.len());
                assert forall|k: int| 0 <= k < chunk.len() implies s[pos + k] == chunk[k] by {
                    if k == 0 {
                        assert(chunk[0] == c);
                    } else {
                        lemma_match_at_index(s, pos + 1, rest_chunk, k - 1);
                        assert(chunk[k] == rest_chunk[k - 1]);
                    }
                }
                assert(s.subrange(pos, pos + chunk.len()) =~= chunk);
            },
            None => {
                assert(false);
            },
        }
    }
}

/// A parsed `key = "value"` line stood there as its own rendering.
proof fn lemma_str_line_inverse(s: Seq<char>, pos: int, key: Seq<char>, v: Seq<char>, p2: int)
    requires
        parse_str_line(s, pos, key) == Some((v, p2)),
    ensures
        p2 == pos + str_line(key, v).len(),
        match_at(s, pos, str_line(key, v)),
{
    reveal_strlit("\"");
    reveal_strlit("\"\n");
    reveal_strlit("\n");
    assert(match_at(s, pos, key));
    let kl = key.len() as int;
    let pk = pos + kl;
    assert(s[pk] == '"');
    match parse_string_body(s, pk + 1) {
        Some((v0, p2q)) => {
            assert(v0 == v);
            lemma_body_inverse(s, pk + 1, v, p2q);
            assert(match_at(s, p2q, "\n"@));
            assert(p2 == p2q + 1);
            let line = str_line(key, v);
            let body_chunk = escape(v) + "\""@;
            assert(line.len() == kl + 1 + body_chunk.len() + 1);
            assert(pos + line.len() == p2);
            assert forall|k: int| 0 <= k < line.len() implies s[pos + k] == line[k] by {
                if k < kl {
                    lemma_match_at_index(s, pos, key, k);
                } else if k == kl {
                    assert(line[k] == '"');
                } else if k < kl + 1 + body_chunk.len() {
                    lemma_match_at_index(s, pk + 1, body_chunk, k - kl - 1);
                    assert(line[k] == body_chunk[k - kl - 1]);
                } else {
                    lemma_match_at_index(s, p2q, "\n"@, 0);
                    assert(line[k] == '\n');
                }
            }
            assert(s.subrange(pos, pos + line.len()) =~= line);
        },
        None => {
            assert(false);
        },
    }
}

/// Renderings of a flag list ignore a first element prepended to it.
proof fn lemma_render_from_shift(x: Seq<char>, rest: Seq<Seq<char>>, j: int)
    requires
        0 <= j <= rest.len(),
    ensures
        render_flags_from(seq![x] + rest, j + 1) == render_flags_from(rest, j),
    decreases rest.len() - j,
{
    let fs = seq![x] + rest;
    assert(fs.len() == 1 + rest.len());
    if j >= rest.len() {
        assert(render_flags_from(fs, j + 1) == Seq::<char>::empty());
        assert(render_flags_from(rest, j) == Seq::<char>::empty());
    } else {
        assert(fs[j + 1] == rest[j]);
        if j < rest.len() - 1 {
            lemma_render_from_shift(x, rest, j + 1);
        }
    }
}

/// A parsed flag-list tail stood there as its own rendering.
proof fn lemma_flags_items_inverse(s: Seq<char>, pos: int, fs: Seq<Seq<char>>, p2: int)
    requires
        parse_flags_items(s, pos) == Some((fs, p2)),
    ensures
        fs.len() >= 1,
        match_at(s, pos, render_flags_from(fs, 0) + "]\n"@),
        p2 == pos + render_flags_from(fs, 0).len() + "]\n"@.len(),
    decreases s.len() - pos,
{
    reveal_strlit("\"");
    reveal_strlit("]\n");
    reveal_strlit(", ");
    assert(s[pos] == '"');
    match parse_string_body(s, pos + 1) {
        Some((v, q1)) => {
            lemma_body_inverse(s, pos + 1, v, q1);
            let body_chunk = escape(v) + "\""@;
            assert(q1 == pos + 1 + body_chunk.len());
            assert(quoted(v).len() == 1 + body_chunk.len());
            if match_at(s, q1, "]\n"@) {
                assert(fs == seq![v]);
                assert(p2 == q1 + "]\n"@.len());
                assert(render_flags_from(fs, 0) == quoted(fs[0]));
                assert(fs[0] == v);
                let chunk = render_flags_from(fs, 0) + "]\n"@;
                assert(chunk.len() == 1 + body_chunk.len() + 2);
                assert(pos + chunk.len() == q1 + 2);
                assert forall|k: int| 0 <= k < chunk.len() implies s[pos + k] == chunk[k] by {
                    if k == 0 {
                        assert(chunk[0] == '"');
                    } else if k < 1 + body_chunk.len() {
                        lemma_match_at_index(s, pos + 1, body_chunk, k - 1);
                        assert(chunk[k] == body_chunk[k - 1]);
                    } else {
                        lemma_match_at_index(s, q1, "]\n"@, k - (1 + body_chunk.len() as int));
                        assert(chunk[k] == "]\n"@[k - (1 + body_chunk.len() as int)]);
                    }
                }
                assert(s.subrange(pos, pos + chunk.len()) =~= chunk);
            } else {
                assert(match_at(s, q1, ", "@));
                match parse_flags_items(s, q1 + ", "@.len()) {
                    Some((rest, p2r)) => {
                        assert(fs == seq![v] + rest);
                        assert(p2 == p2r);
                        lemma_flags_items_inverse(s, q1 + 2, rest, p2r);
                        lemma_render_from_shift(v, rest, 0);
                        assert(fs[0] == v);
                        assert(fs.len() >= 2);
                        assert(render_flags_from(fs, 0) == quoted(v) + ", "@ + render_flags_from(
                            fs,
                            1,
                        ));
                        assert(render_flags_from(fs, 1) == render_flags_from(rest, 0));
                        let rest_chunk = render_flags_from(rest, 0) + "]\n"@;
                        let chunk = render_flags_from(fs, 0) + "]\n"@;
                        assert(chunk.len() == 1 + body_chunk.len() + 2 + rest_chunk.len());
                        assert(pos + chunk.len() == q1 + 2 + rest_chunk.len());
                        assert forall|k: int| 0 <= k < chunk.len() implies s[pos + k] == chunk[k] by {
                            let bl = body_chunk.len() as int;
                            if k == 0 {
                                assert(chunk[0] == '"');
                            } else if k < 1 + bl {
                                lemma_match_at_index(s, pos + 1, body_chunk, k - 1);
                                assert(chunk[k] == body_chunk[k - 1]);
                            } else if k == 1 + bl {
                                lemma_match_at_index(s, q1, ", "@, 0);
                                assert(chunk[k] == ',');
                            } else if k == 2 + bl {
                                lemma_match_at_index(s, q1, ", "@, 1);
                                assert(chunk[k] == ' ');
                            } else {
                                lemma_match_at_index(s, q1 + 2, rest_chunk, k - (3 + bl));
                                assert(chunk[k] == rest_chunk[k - (3 + bl)]);
                            }
                        }
                        assert(s.subrange(pos, pos + chunk.len()) =~= chunk);
                        assert(p2 == pos + render_flags_from(fs, 0).len() + "]\n"@.len());
                    },
                    None => {
                        assert(false);
                    },
                }
            }
        },
        None => {
            assert(false);
        },
    }
}

/// A parsed `flags = [...]` line stood there as its own rendering.
proof fn lemma_flags_line_inverse(s: Seq<char>, pos: int, fs: Seq<Seq<char>>, p2: int)
    requires
        parse_flags_line(s, pos) == Some((fs, p2)),
    ensures
        p2 == pos + flags_line(fs).len(),
        match_at(s, pos, flags_line(fs)),
{
    reveal_strlit("flags = [");
    reveal_strlit("]\n");
    let key = "flags = ["@;
    let kl = key.len() as int;
    assert(match_at(s, pos, key));
    let p = pos + kl;
    let chunk = flags_line(fs);
    if match_at(s, p, "]\n"@) {
        assert(fs == Seq::<Seq<char>>::empty());
        assert(render_flags_from(fs, 0) == Seq::<char>::empty());
        assert(pos + chunk.len() == p + 2);
        assert forall|k: int| 0 <= k < chunk.len() implies s[pos + k] == chunk[k] by {
            if k < kl {
                lemma_match_at_index(s, pos, key, k);
            } else {
                lemma_match_at_index(s, p, "]\n"@, k - kl);
            }
        }
        assert(s.subrange(pos, pos + chunk.len()) =~= chunk);
    } else {
        match parse_flags_items(s, p) {
            Some((fs2, p22)) => {
                assert(fs == fs2 && p2 == p22);
                lemma_flags_items_inverse(s, p, fs, p2);
                let rest_chunk = render_flags_from(fs, 0) + "]\n"@;
                assert(pos + chunk.len() == p + rest_chunk.len());
                assert forall|k: int| 0 <= k < chunk.len() implies s[pos + k] == chunk[k] by {
                    if k < kl {
                        lemma_match_at_index(s, pos, key, k);
                    } else {
                        lemma_match_at_index(s, p, rest_chunk, k - kl);
                        assert(chunk[k] == rest_chunk[k - kl]);
                    }
                }
                assert(s.subrange(pos, pos + chunk.len()) =~= chunk);
            },
            None => {
                assert(false);
            },
        }
    }
}

/// A parsed `mode = "..."` line stood there as its own rendering.
proof fn lemma_mode_line_inverse(s: Seq<char>, pos: int, m: CompilerMode, p2: int)
    requires
        parse_mode_line(s, pos) == Some((m, p2)),
    ensures
        p2 == pos + mode_line(m).len(),
        match_at(s, pos, mode_line(m)),
{
    reveal_strlit("mode = \"");
    reveal_strlit("Spawn");
    reveal_strlit("Output");
    reveal_strlit("\"\n");
    let key = "mode = \""@;
    let kl = key.len() as int;
    assert(match_at(s, pos, key));
    let p = pos + kl;
    let name = mode_name(m);
    let nl = name.len() as int;
    assert(match_at(s, p, name));
    assert(match_at(s, p + nl, "\"\n"@));
    let chunk = mode_line(m);
    assert(pos + chunk.len() == p + nl + 2);
    assert forall|k: int| 0 <= k < chunk.len() implies s[pos + k] == chunk[k] by {
        if k < kl {
            lemma_match_at_index(s, pos, key, k);
        } else if k < kl + nl {
            lemma_match_at_index(s, p, name, k - kl);
        } else {
            lemma_match_at_index(s, p + nl, "\"\n"@, k - kl - nl);
        }
    }
    assert(s.subrange(pos, pos + chunk.len()) =~= chunk);
}

/// Only renderings parse: a text the reader accepts is, character for
/// character, the rendering of the configuration it returns.
pub proof fn lemma_parse_is_render(s: Seq<char>, v: ConfigV)
    requires
        spec_parse(s) == Some(v),
    ensures
        s == spec_render(v),
{
    match parse_str_line(s, 0, "compiler = "@) {
        Some((c_v, p1)) => match parse_str_line(s, p1, "proj_name = "@) {
            Some((n_v, p2)) => match parse_flags_line(s, p2) {
                Some((f_v, p3)) => match parse_bool_line(s, p3) {
                    Some((b_v, p4)) => match parse_mode_line(s, p4) {
                        Some((m_v, p5)) => {
                            assert(p5 == s.len());
                            assert(v == ConfigV {
                                compiler: c_v,
                                proj_name: n_v,
                                flags: f_v,
                                clean: b_v,
                                mode: m_v,
                            });
                            lemma_str_line_inverse(s, 0, "compiler = "@, c_v, p1);
                            lemma_str_line_inverse(s, p1, "proj_name = "@, n_v, p2);
                            lemma_flags_line_inverse(s, p2, f_v, p3);
                            assert(match_at(s, p3, bool_line(b_v)) && p4 == p3 + bool_line(
                                b_v,
                            ).len());
                            lemma_mode_line_inverse(s, p4, m_v, p5);
                            let l1 = str_line("compiler = "@, c_v);
                            let l2 = str_line("proj_name = "@, n_v);
                            let l3 = flags_line(f_v);
                            let l4 = bool_line(b_v);
                            let l5 = mode_line(m_v);
                            let r = spec_render(v);
                            assert(r.len() == s.len());
                            assert forall|j: int| 0 <= j < s.len() implies s[j] == r[j] by {
                                if j < p1 {
                                    lemma_match_at_index(s, 0, l1, j);
                                } else if j < p2 {
                                    lemma_match_at_index(s, p1, l2, j - p1);
                                } else if j < p3 {
                                    lemma_match_at_index(s, p2, l3, j - p2);
                                } else if j < p4 {
                                    lemma_match_at_index(s, p3, l4, j - p3);
                                } else {
                                    lemma_match_at_index(s, p4, l5, j - p4);
                                }
                            }
                            assert(s =~= r);
                        },
                        None => {
                            assert(false);
                        },
                    },
                    None => {
                        assert(false);
                    },
                },
                None => {
                    assert(false);
                },
            },
            None => {
                assert(false);
            },
        },
        None => {
            assert(false);
        },
    }
}

} // verus!
