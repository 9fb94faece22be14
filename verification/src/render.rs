//! Rendering a configuration to its on-disk text form: one `key = value`
//! line per field, strings double-quoted, flags as a bracketed
//! comma-separated list, in a fixed field order.  Quotes, backslashes
//! and line breaks inside a string are written as the escapes `\"`,
//! `\\`, `\n` and `\r`, so every configuration has a text form.

use vstd::prelude::*;
use crate::config::Compiler;
use crate::config::CompilerMode;
use crate::config::ConfigV;

verus! {

/// How one character is written inside a quoted string: itself, unless
/// it is a quote, backslash or line break, which are written escaped.
pub open spec fn esc_char(c: char) -> Seq<char> {
    if c == '"' {
        seq!['\\', '"']
    } else if c == '\\' {
        seq!['\\', '\\']
    } else if c == '\n' {
        seq!['\\', 'n']
    } else if c == '\r' {
        seq!['\\', 'r']
    } else {
        seq![c]
    }
}

/// The written form of the characters of `s` from index `i` on.
pub open spec fn escape_from(s: Seq<char>, i: int) -> Seq<char>
    decreases s.len() - i,
{
    if i < 0 || i >= s.len() {
        Seq::empty()
    } else {
        esc_char(s[i]) + escape_from(s, i + 1)
    }
}

/// The written form of a whole string: each character escaped as needed.
pub open spec fn escape(s: Seq<char>) -> Seq<char> {
    escape_from(s, 0)
}

/// `s` escaped and wrapped in double quotes.
pub open spec fn quoted(s: Seq<char>) -> Seq<char> {
    "\""@ + escape(s) + "\""@
}

/// A `key = "value"` line; `key` carries the trailing `" = "`.
pub open spec fn str_line(key: Seq<char>, v: Seq<char>) -> Seq<char> {
    key + "\""@ + escape(v) + "\"\n"@
}

/// The flag list from index `i` on: quoted elements joined by `", "`.
pub open spec fn render_flags_from(flags: Seq<Seq<char>>, i: int) -> Seq<char>
    decreases flags.len() - i,
{
    if i < 0 || i >= flags.len() {
        Seq::empty()
    } else if i == flags.len() - 1 {
        quoted(flags[i])
    } else {
        quoted(flags[i]) + ", "@ + render_flags_from(flags, i + 1)
    }
}

/// The `flags = [...]` line.
pub open spec fn flags_line(flags: Seq<Seq<char>>) -> Seq<char> {
    "flags = ["@ + render_flags_from(flags, 0) + "]\n"@
}

/// The `clean = ...` line.
pub open spec fn bool_line(b: bool) -> Seq<char> {
    if b {
        "clean = true\n"@
    } else {
        "clean = false\n"@
    }
}

/// The tag under which a mode is written.
pub open spec fn mode_name(m: CompilerMode) -> Seq<char> {
    match m {
        CompilerMode::Spawn => "Spawn"@,
        CompilerMode::Output => "Output"@,
    }
}

/// The `mode = "..."` line.
pub open spec fn mode_line(m: CompilerMode) -> Seq<char> {
    "mode = \""@ + mode_name(m) + "\"\n"@
}

/// The whole text form of a configuration: its five lines in order.
pub open spec fn spec_render(v: ConfigV) -> Seq<char> {
    str_line("compiler = "@, v.compiler) + str_line("proj_name = "@, v.proj_name)
        + flags_line(v.flags) + bool_line(v.clean) + mode_line(v.mode)
}

/// Appends the written form of `s`, escaping as the format requires.
fn append_escaped(out: &mut String, s: &str)
    ensures
        final(out)@ == old(out)@ + escape(s@),
{
    let n = s.unicode_len();
    let mut i: usize = 0;
    while i < n
        invariant
            n == s@.len(),
            i <= n,
            out@ + escape_from(s@, i as int) == old(out)@ + escape_from(s@, 0),
        decreases n - i,
    {
        let ghost before = out@;
        let c = s.get_char(i);
        if c == '"' {
            out.append("\\\"");
            proof {
                reveal_strlit("\\\"");
                assert(out@ =~= before + esc_char(c));
            }
        } else if c == '\\' {
            out.append("\\\\");
            proof {
                reveal_strlit("\\\\");
                assert(out@ =~= before + esc_char(c));
            }
        } else if c == '\n' {
            out.append("\\n");
            proof {
                reveal_strlit("\\n");
                assert(out@ =~= before + esc_char(c));
            }
        } else if c == '\r' {
            out.append("\\r");
            proof {
                reveal_strlit("\\r");
                assert(out@ =~= before + esc_char(c));
            }
        } else {
            out.append(s.substring_char(i, i + 1));
            proof {
                assert(s@.subrange(i as int, i + 1) =~= seq![s@[i as int]]);
                assert(out@ =~= before + esc_char(c));
            }
        }
        proof {
            assert(out@ + escape_from(s@, i + 1) =~= before + escape_from(s@, i as int));
        }
        i += 1;
    }
    proof {
        assert(escape_from(s@, n as int) =~= Seq::<char>::empty());
        assert(out@ =~= out@ + escape_from(s@, n as int));
        assert(escape(s@) == escape_from(s@, 0));
    }
}

impl Compiler {
    /// The on-disk text form of this configuration.
    pub fn to_string(&self) -> (r: String)
        ensures
            r@ == spec_render(self@),
    {
        let ghost l12 = str_line("compiler = "@, self@.compiler) + str_line(
            "proj_name = "@,
            self@.proj_name,
        );
        let mut out = String::new();
        out.append("compiler = ");
        out.append("\"");
        append_escaped(&mut out, self.compiler().as_str());
        out.append("\"\n");
        out.append("proj_name = ");
        out.append("\"");
        append_escaped(&mut out, self.proj_name().as_str());
        out.append("\"\n");
        proof {
            assert(out@ =~= l12);
        }
        out.append("flags = [");
        let ghost pre = l12 + "flags = ["@;
        let flags = self.flags();
        let n = flags.len();
        let mut i: usize = 0;
        while i < n
            invariant
                n == flags.len(),
                i <= n,
                flags.deep_view() == self@.flags,
                out@ + render_flags_from(self@.flags, i as int) == pre + render_flags_from(
                    self@.flags,
                    0,
                ),
            decreases n - i,
        {
            let ghost before = out@;
            out.append("\"");
            append_escaped(&mut out, flags[i].as_str());
            out.append("\"");
            proof {
                assert(out@ =~= before + quoted(self@.flags[i as int]));
            }
            if i + 1 < n {
                out.append(", ");
                proof {
                    assert(out@ + render_flags_from(self@.flags, i + 1) =~= before
                        + render_flags_from(self@.flags, i as int));
                }
            } else {
                proof {
                    assert(render_flags_from(self@.flags, i + 1) =~= Seq::<char>::empty());
                    assert(out@ + render_flags_from(self@.flags, i + 1) =~= before
                        + render_flags_from(self@.flags, i as int));
                }
            }
            i += 1;
        }
        proof {
            assert(render_flags_from(self@.flags, n as int) =~= Seq::<char>::empty());
            assert(out@ =~= pre + render_flags_from(self@.flags, 0));
        }
        out.append("]\n");
        proof {
            assert(out@ =~= l12 + flags_line(self@.flags));
        }
        if self.clean() {
            out.append("clean = true\n");
        } else {
            out.append("clean = false\n");
        }
        proof {
            assert(out@ =~= l12 + flags_line(self@.flags) + bool_line(self@.clean));
        }
        out.append("mode = \"");
        match self.mode() {
            CompilerMode::Spawn => out.append("Spawn"),
            CompilerMode::Output => out.append("Output"),
        }
        out.append("\"\n");
        proof {
            assert(out@ =~= spec_render(self@));
        }
        out
    }
}

} // verus!
