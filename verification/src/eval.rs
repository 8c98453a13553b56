//! Escape sequences in the string literals that the interpreter evaluates.
use vstd::prelude::*;
use crate::strutil::{push_char, str_chars};
use crate::codegen::{escaped, esc_char, lemma_escaped_append};

verus! {

/// The character an escape `\c` stands for, where `c` is one the
/// interpreter knows.
pub open spec fn escape_target(c: char) -> Option<char> {
    if c == 'n' {
        Some('\n')
    } else if c == 't' {
        Some('\t')
    } else if c == 'r' {
        Some('\r')
    } else if c == '\\' {
        Some('\\')
    } else if c == '"' {
        Some('"')
    } else if c == '\'' {
        Some('\'')
    } else if c == '$' {
        Some('$')
    } else if c == '0' {
        Some('\0')
    } else {
        None
    }
}

/// A string with its escape sequences replaced by the characters they stand
/// for; an unknown escape, and a backslash at the end, are kept as they are.
pub open spec fn unescaped(s: Seq<char>) -> Seq<char>
    decreases s.len(),
{
    if s.len() == 0 {
        Seq::empty()
    } else if s[0] == '\\' {
        if s.len() == 1 {
            seq!['\\']
        } else {
            let head = match escape_target(s[1]) {
                Some(c) => seq![c],
                None => seq!['\\', s[1]],
            };
            head + unescaped(s.skip(2))
        }
    } else {
        seq![s[0]] + unescaped(s.drop_first())
    }
}

/// Replaces escape sequences (`\n`, `\t`, `\r`, `\\`, `\"`, `\'`, `\$`, `\0`)
/// by the characters they stand for.
pub fn process_escape_sequences(s: &str) -> (r: String)
    ensures
        r@ == unescaped(s@),
{
    let cs = str_chars(s);
    let n = cs.len();
    let mut out = String::new();
    let mut i: usize = 0;
    proof {
        assert(cs@.skip(0) =~= cs@);
        assert(out@ + unescaped(cs@) =~= unescaped(cs@));
    }
    while i < n
        invariant
            n == cs@.len(),
            cs@ == s@,
            i <= n,
            out@ + unescaped(cs@.skip(i as int)) == unescaped(cs@),
        decreases n - i,
    {
        let ghost rest = cs@.skip(i as int);
        let ghost before = out@;
        let c = cs[i];
        if c == '\\' {
            if i + 1 < n {
                let d = cs[i + 1];
                if d == 'n' {
                    push_char(&mut out, '\n');
                } else if d == 't' {
                    push_char(&mut out, '\t');
                } else if d == 'r' {
                    push_char(&mut out, '\r');
                } else if d == '\\' {
                    push_char(&mut out, '\\');
                } else if d == '"' {
                    push_char(&mut out, '"');
                } else if d == '\'' {
                    push_char(&mut out, '\'');
                } else if d == '$' {
                    push_char(&mut out, '$');
                } else if d == '0' {
                    push_char(&mut out, '\0');
                } else {
                    push_char(&mut out, '\\');
                    push_char(&mut out, d);
                }
                proof {
                    assert(rest.skip(2) =~= cs@.skip(i + 2));
                    let head = match escape_target(d) {
                        Some(x) => seq![x],
                        None => seq!['\\', d],
                    };
                    assert(out@ =~= before + head);
                    assert(unescaped(rest) == head + unescaped(rest.skip(2)));
                    assert(out@ + unescaped(cs@.skip(i + 2)) =~= before + unescaped(rest));
                }
                i = i + 2;
            } else {
                push_char(&mut out, '\\');
                proof {
                    assert(rest.len() == 1);
                    assert(cs@.skip(i + 1) =~= Seq::<char>::empty());
                    assert(out@ + unescaped(cs@.skip(i + 1)) =~= before + unescaped(rest));
                }
                i = i + 1;
            }
        } else {
            push_char(&mut out, c);
            proof {
                assert(rest.drop_first() =~= cs@.skip(i + 1));
                assert(out@ + unescaped(cs@.skip(i + 1)) =~= before + unescaped(rest));
            }
            i = i + 1;
        }
    }
    proof {
        assert(cs@.skip(n as int) =~= Seq::<char>::empty());
        assert(out@ + Seq::<char>::empty() =~= out@);
    }
    out
}

/// A string escaped for a JavaScript string literal (`escape_string`) and
/// then read back with the interpreter's escape sequences
/// (`process_escape_sequences`) is the string itself.
pub proof fn law_unescape_escaped(s: Seq<char>)
    ensures
        unescaped(escaped(s)) == s,
    decreases s.len(),
{
    if s.len() > 0 {
        let c = s[0];
        let rest = s.drop_first();
        assert(s =~= seq![c] + rest);
        lemma_escaped_append(seq![c], rest);
        assert(seq![c].drop_last() =~= Seq::<char>::empty());
        assert(escaped(Seq::<char>::empty()) == Seq::<char>::empty());
        assert(seq![c].last() == c);
        assert(escaped(seq![c]) == escaped(seq![c].drop_last()) + esc_char(c));
        assert(escaped(seq![c]) =~= esc_char(c));
        law_unescape_escaped(rest);
        let e = esc_char(c) + escaped(rest);
        if c == '\\' || c == '"' || c == '\n' || c == '\r' || c == '\t' {
            assert(e.skip(2) =~= escaped(rest));
        } else {
            assert(e.drop_first() =~= escaped(rest));
        }
        assert(seq![c] + rest =~= s);
    }
}

} // verus!
