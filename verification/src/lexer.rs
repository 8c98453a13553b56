//! The lexer: turns source text into a sequence of tokens.
//!
//! Scanning is driven by a lexical mode (code, string, prompt or shell)
//! and a context that tracks nesting of strings, prompts, interpolations
//! and shell commands.  The token read at a position in a mode is given by
//! `token_at`, the change of context and mode after it by `lexer_step`, and
//! the tokens of a whole text by `lex_tokens`; the lexer is proved to
//! produce exactly those.
use vstd::prelude::*;
use vstd::string::StringSliceAdditionalSpecFns;
use vstd::utf8::*;
use crate::strutil::{
    at_char_start, lemma_after_ascii, lemma_str_bytes_valid, lemma_first_not_continuation,
    line_starts_of, chars_ahead, walk_chars, build_line_starts,
};

verus! {

/// Lexical modes.
#[derive(Debug, Clone, Copy, PartialEq, Eq, Structural)]
pub enum Mode {
    Code,
    InString,
    Prompt,
    Shell,
}

/// What closes a nested lexical context.
#[derive(Debug, Clone, Copy, PartialEq, Eq, Structural)]
pub enum DelimiterType {
    Brace,
    Paren,
}

/// The kinds of token the lexer produces.
#[derive(Debug, Clone, Copy, PartialEq, Eq, Structural)]
pub enum Rule {
    Whitespace,
    Newline,
    Comment,
    StringStart,
    StringEnd,
    StringText,
    SingleQuoteString,
    Dollar,
    Think,
    Ask,
    Do,
    Import,
    Export,
    From,
    Var,
    If,
    Else,
    For,
    While,
    Await,
    Task,
    Worker,
    Trait,
    Skill,
    Fun,
    Default,
    Type,
    Return,
    Succeed,
    Fail,
    Throw,
    Break,
    SelfKw,
    In,
    Underscore,
    True,
    False,
    Number,
    Identifier,
    Ellipsis,
    Arrow,
    Eq,
    Neq,
    Lte,
    Gte,
    AndAnd,
    OrOr,
    PlusPlus,
    MinusMinus,
    LBrace,
    RBrace,
    LParen,
    RParen,
    LBracket,
    RBracket,
    Semicolon,
    Comma,
    Colon,
    At,
    Lt,
    Gt,
    Plus,
    Minus,
    Star,
    Slash,
    Percent,
    Bang,
    Question,
    Assign,
    Pipe,
    Ampersand,
    Dot,
    PromptText,
    PromptEscape,
    ShellArg,
    ShellRedirectOut,
    ShellRedirectAppend,
    ShellRedirectIn,
    ShellRedirectErr,
    ShellRedirectErrToOut,
    ShellPipe,
    ShellAnd,
    ShellOr,
    ShellBackground,
    ShellAssign,
    ShellBackslash,
    End,
    ErrorAny,
}

/// The keyword spelled by `t`, if any.
pub open spec fn keyword_of(t: Seq<u8>) -> Option<Rule> {
    if t.len() == 6 && t[0] == 105u8 && t[1] == 109u8 && t[2] == 112u8 && t[3] == 111u8 && t[4] == 114u8 && t[5] == 116u8 {  // import
        Some(Rule::Import)
    } else if t.len() == 6 && t[0] == 101u8 && t[1] == 120u8 && t[2] == 112u8 && t[3] == 111u8 && t[4] == 114u8 && t[5] == 116u8 {  // export
        Some(Rule::Export)
    } else if t.len() == 4 && t[0] == 102u8 && t[1] == 114u8 && t[2] == 111u8 && t[3] == 109u8 {  // from
        Some(Rule::From)
    } else if t.len() == 3 && t[0] == 118u8 && t[1] == 97u8 && t[2] == 114u8 {  // var
        Some(Rule::Var)
    } else if t.len() == 2 && t[0] == 105u8 && t[1] == 102u8 {  // if
        Some(Rule::If)
    } else if t.len() == 4 && t[0] == 101u8 && t[1] == 108u8 && t[2] == 115u8 && t[3] == 101u8 {  // else
        Some(Rule::Else)
    } else if t.len() == 3 && t[0] == 102u8 && t[1] == 111u8 && t[2] == 114u8 {  // for
        Some(Rule::For)
    } else if t.len() == 5 && t[0] == 119u8 && t[1] == 104u8 && t[2] == 105u8 && t[3] == 108u8 && t[4] == 101u8 {  // while
        Some(Rule::While)
    } else if t.len() == 5 && t[0] == 97u8 && t[1] == 119u8 && t[2] == 97u8 && t[3] == 105u8 && t[4] == 116u8 {  // await
        Some(Rule::Await)
    } else if t.len() == 4 && t[0] == 116u8 && t[1] == 97u8 && t[2] == 115u8 && t[3] == 107u8 {  // task
        Some(Rule::Task)
    } else if t.len() == 6 && t[0] == 119u8 && t[1] == 111u8 && t[2] == 114u8 && t[3] == 107u8 && t[4] == 101u8 && t[5] == 114u8 {  // worker
        Some(Rule::Worker)
    } else if t.len() == 5 && t[0] == 116u8 && t[1] == 114u8 && t[2] == 97u8 && t[3] == 105u8 && t[4] == 116u8 {  // trait
        Some(Rule::Trait)
    } else if t.len() == 5 && t[0] == 115u8 && t[1] == 107u8 && t[2] == 105u8 && t[3] == 108u8 && t[4] == 108u8 {  // skill
        Some(Rule::Skill)
    } else if t.len() == 3 && t[0] == 102u8 && t[1] == 117u8 && t[2] == 110u8 {  // fun
        Some(Rule::Fun)
    } else if t.len() == 7 && t[0] == 100u8 && t[1] == 101u8 && t[2] == 102u8 && t[3] == 97u8 && t[4] == 117u8 && t[5] == 108u8 && t[6] == 116u8 {  // default
        Some(Rule::Default)
    } else if t.len() == 4 && t[0] == 116u8 && t[1] == 121u8 && t[2] == 112u8 && t[3] == 101u8 {  // type
        Some(Rule::Type)
    } else if t.len() == 6 && t[0] == 114u8 && t[1] == 101u8 && t[2] == 116u8 && t[3] == 117u8 && t[4] == 114u8 && t[5] == 110u8 {  // return
        Some(Rule::Return)
    } else if t.len() == 7 && t[0] == 115u8 && t[1] == 117u8 && t[2] == 99u8 && t[3] == 99u8 && t[4] == 101u8 && t[5] == 101u8 && t[6] == 100u8 {  // succeed
        Some(Rule::Succeed)
    } else if t.len() == 4 && t[0] == 102u8 && t[1] == 97u8 && t[2] == 105u8 && t[3] == 108u8 {  // fail
        Some(Rule::Fail)
    } else if t.len() == 5 && t[0] == 116u8 && t[1] == 104u8 && t[2] == 114u8 && t[3] == 111u8 && t[4] == 119u8 {  // throw
        Some(Rule::Throw)
    } else if t.len() == 5 && t[0] == 98u8 && t[1] == 114u8 && t[2] == 101u8 && t[3] == 97u8 && t[4] == 107u8 {  // break
        Some(Rule::Break)
    } else if t.len() == 4 && t[0] == 115u8 && t[1] == 101u8 && t[2] == 108u8 && t[3] == 102u8 {  // self
        Some(Rule::SelfKw)
    } else if t.len() == 2 && t[0] == 105u8 && t[1] == 110u8 {  // in
        Some(Rule::In)
    } else if t.len() == 4 && t[0] == 116u8 && t[1] == 114u8 && t[2] == 117u8 && t[3] == 101u8 {  // true
        Some(Rule::True)
    } else if t.len() == 5 && t[0] == 102u8 && t[1] == 97u8 && t[2] == 108u8 && t[3] == 115u8 && t[4] == 101u8 {  // false
        Some(Rule::False)
    } else if t.len() == 5 && t[0] == 116u8 && t[1] == 104u8 && t[2] == 105u8 && t[3] == 110u8 && t[4] == 107u8 {  // think
        Some(Rule::Think)
    } else if t.len() == 3 && t[0] == 97u8 && t[1] == 115u8 && t[2] == 107u8 {  // ask
        Some(Rule::Ask)
    } else if t.len() == 2 && t[0] == 100u8 && t[1] == 111u8 {  // do
        Some(Rule::Do)
    } else {
        None
    }
}

/// The keyword spelled by the bytes `b[start..end]`, if any.
fn keyword_at(b: &[u8], start: usize, end: usize) -> (r: Option<Rule>)
    requires
        start <= end <= b@.len(),
    ensures
        r == keyword_of(b@.subrange(start as int, end as int)),
{
    let n = end - start;
    let ghost t = b@.subrange(start as int, end as int);
    // import
    if n == 6 && b[start + 0] == 105u8 && b[start + 1] == 109u8 && b[start + 2] == 112u8 && b[start + 3] == 111u8 && b[start + 4] == 114u8 && b[start + 5] == 116u8 {
        return Some(Rule::Import);
    }
    // export
    if n == 6 && b[start + 0] == 101u8 && b[start + 1] == 120u8 && b[start + 2] == 112u8 && b[start + 3] == 111u8 && b[start + 4] == 114u8 && b[start + 5] == 116u8 {
        return Some(Rule::Export);
    }
    // from
    if n == 4 && b[start + 0] == 102u8 && b[start + 1] == 114u8 && b[start + 2] == 111u8 && b[start + 3] == 109u8 {
        return Some(Rule::From);
    }
    // var
    if n == 3 && b[start + 0] == 118u8 && b[start + 1] == 97u8 && b[start + 2] == 114u8 {
        return Some(Rule::Var);
    }
    // if
    if n == 2 && b[start + 0] == 105u8 && b[start + 1] == 102u8 {
        return Some(Rule::If);
    }
    // else
    if n == 4 && b[start + 0] == 101u8 && b[start + 1] == 108u8 && b[start + 2] == 115u8 && b[start + 3] == 101u8 {
        return Some(Rule::Else);
    }
    // for
    if n == 3 && b[start + 0] == 102u8 && b[start + 1] == 111u8 && b[start + 2] == 114u8 {
        return Some(Rule::For);
    }
    // while
    if n == 5 && b[start + 0] == 119u8 && b[start + 1] == 104u8 && b[start + 2] == 105u8 && b[start + 3] == 108u8 && b[start + 4] == 101u8 {
        return Some(Rule::While);
    }
    // await
    if n == 5 && b[start + 0] == 97u8 && b[start + 1] == 119u8 && b[start + 2] == 97u8 && b[start + 3] == 105u8 && b[start + 4] == 116u8 {
        return Some(Rule::Await);
    }
    // task
    if n == 4 && b[start + 0] == 116u8 && b[start + 1] == 97u8 && b[start + 2] == 115u8 && b[start + 3] == 107u8 {
        return Some(Rule::Task);
    }
    // worker
    if n == 6 && b[start + 0] == 119u8 && b[start + 1] == 111u8 && b[start + 2] == 114u8 && b[start + 3] == 107u8 && b[start + 4] == 101u8 && b[start + 5] == 114u8 {
        return Some(Rule::Worker);
    }
    // trait
    if n == 5 && b[start + 0] == 116u8 && b[start + 1] == 114u8 && b[start + 2] == 97u8 && b[start + 3] == 105u8 && b[start + 4] == 116u8 {
        return Some(Rule::Trait);
    }
    // skill
    if n == 5 && b[start + 0] == 115u8 && b[start + 1] == 107u8 && b[start + 2] == 105u8 && b[start + 3] == 108u8 && b[start + 4] == 108u8 {
        return Some(Rule::Skill);
    }
    // fun
    if n == 3 && b[start + 0] == 102u8 && b[start + 1] == 117u8 && b[start + 2] == 110u8 {
        return Some(Rule::Fun);
    }
    // default
    if n == 7 && b[start + 0] == 100u8 && b[start + 1] == 101u8 && b[start + 2] == 102u8 && b[start + 3] == 97u8 && b[start + 4] == 117u8 && b[start + 5] == 108u8 && b[start + 6] == 116u8 {
        return Some(Rule::Default);
    }
    // type
    if n == 4 && b[start + 0] == 116u8 && b[start + 1] == 121u8 && b[start + 2] == 112u8 && b[start + 3] == 101u8 {
        return Some(Rule::Type);
    }
    // return
    if n == 6 && b[start + 0] == 114u8 && b[start + 1] == 101u8 && b[start + 2] == 116u8 && b[start + 3] == 117u8 && b[start + 4] == 114u8 && b[start + 5] == 110u8 {
        return Some(Rule::Return);
    }
    // succeed
    if n == 7 && b[start + 0] == 115u8 && b[start + 1] == 117u8 && b[start + 2] == 99u8 && b[start + 3] == 99u8 && b[start + 4] == 101u8 && b[start + 5] == 101u8 && b[start + 6] == 100u8 {
        return Some(Rule::Succeed);
    }
    // fail
    if n == 4 && b[start + 0] == 102u8 && b[start + 1] == 97u8 && b[start + 2] == 105u8 && b[start + 3] == 108u8 {
        return Some(Rule::Fail);
    }
    // throw
    if n == 5 && b[start + 0] == 116u8 && b[start + 1] == 104u8 && b[start + 2] == 114u8 && b[start + 3] == 111u8 && b[start + 4] == 119u8 {
        return Some(Rule::Throw);
    }
    // break
    if n == 5 && b[start + 0] == 98u8 && b[start + 1] == 114u8 && b[start + 2] == 101u8 && b[start + 3] == 97u8 && b[start + 4] == 107u8 {
        return Some(Rule::Break);
    }
    // self
    if n == 4 && b[start + 0] == 115u8 && b[start + 1] == 101u8 && b[start + 2] == 108u8 && b[start + 3] == 102u8 {
        return Some(Rule::SelfKw);
    }
    // in
    if n == 2 && b[start + 0] == 105u8 && b[start + 1] == 110u8 {
        return Some(Rule::In);
    }
    // true
    if n == 4 && b[start + 0] == 116u8 && b[start + 1] == 114u8 && b[start + 2] == 117u8 && b[start + 3] == 101u8 {
        return Some(Rule::True);
    }
    // false
    if n == 5 && b[start + 0] == 102u8 && b[start + 1] == 97u8 && b[start + 2] == 108u8 && b[start + 3] == 115u8 && b[start + 4] == 101u8 {
        return Some(Rule::False);
    }
    // think
    if n == 5 && b[start + 0] == 116u8 && b[start + 1] == 104u8 && b[start + 2] == 105u8 && b[start + 3] == 110u8 && b[start + 4] == 107u8 {
        return Some(Rule::Think);
    }
    // ask
    if n == 3 && b[start + 0] == 97u8 && b[start + 1] == 115u8 && b[start + 2] == 107u8 {
        return Some(Rule::Ask);
    }
    // do
    if n == 2 && b[start + 0] == 100u8 && b[start + 1] == 111u8 {
        return Some(Rule::Do);
    }
    None
}

/// Space, tab or carriage return.
pub open spec fn is_ws_byte(c: u8) -> bool {
    c == 32u8 || c == 9u8 || c == 13u8
}

pub open spec fn is_digit_byte(c: u8) -> bool {
    48u8 <= c <= 57u8
}

pub open spec fn is_ident_start_byte(c: u8) -> bool {
    (65u8 <= c <= 90u8) || (97u8 <= c <= 122u8) || c == 95u8
}

pub open spec fn is_ident_byte(c: u8) -> bool {
    is_ident_start_byte(c) || is_digit_byte(c)
}

/// Bytes that end a run of prompt text: whitespace, newline, braces and `$`.
pub open spec fn is_prompt_stop_byte(c: u8) -> bool {
    is_ws_byte(c) || c == 10u8 || c == 123u8 || c == 125u8 || c == 36u8
}

/// Bytes that end a shell argument.
pub open spec fn is_shell_special_byte(c: u8) -> bool {
    is_ws_byte(c) || c == 10u8 || c == 92u8 || c == 34u8 || c == 39u8 || c == 36u8 || c == 123u8
        || c == 125u8 || c == 40u8 || c == 41u8 || c == 62u8 || c == 60u8 || c == 124u8
        || c == 38u8 || c == 59u8
}

/// The text `t` is a valid spelling of a token of kind `rule`.
pub open spec fn lexeme_ok(rule: Rule, t: Seq<u8>) -> bool {
    match rule {
        Rule::Whitespace => t.len() > 0 && forall|i: int| 0 <= i < t.len() ==> is_ws_byte(#[trigger] t[i]),
        Rule::Newline => t == seq![10u8],
        Rule::Comment => t.len() > 0 && t[0] == 35u8 && forall|i: int| 0 <= i < t.len() ==> #[trigger] t[i] != 10u8,
        Rule::StringStart => t == seq![34u8],
        Rule::StringEnd => t == seq![34u8],
        Rule::StringText => t.len() > 0 && t[0] != 34u8 && t[0] != 36u8,
        Rule::SingleQuoteString => t.len() >= 2 && t[0] == 39u8 && t[t.len() - 1] == 39u8,
        Rule::Dollar => t == seq![36u8],
        Rule::Underscore => t == seq![95u8],
        Rule::Number => t.len() > 0 && forall|i: int| 0 <= i < t.len() ==> is_digit_byte(#[trigger] t[i]),
        Rule::Identifier => t.len() > 0 && is_ident_start_byte(t[0])
            && (forall|i: int| 0 <= i < t.len() ==> is_ident_byte(#[trigger] t[i]))
            && keyword_of(t) is None && t != seq![95u8],
        Rule::Ellipsis => t == seq![46u8, 46u8, 46u8],
        Rule::Arrow => t == seq![45u8, 62u8],
        Rule::Eq => t == seq![61u8, 61u8],
        Rule::Neq => t == seq![33u8, 61u8],
        Rule::Lte => t == seq![60u8, 61u8],
        Rule::Gte => t == seq![62u8, 61u8],
        Rule::AndAnd => t == seq![38u8, 38u8],
        Rule::OrOr => t == seq![124u8, 124u8],
        Rule::PlusPlus => t == seq![43u8, 43u8],
        Rule::MinusMinus => t == seq![45u8, 45u8],
        Rule::LBrace => t == seq![123u8],
        Rule::RBrace => t == seq![125u8],
        Rule::LParen => t == seq![40u8],
        Rule::RParen => t == seq![41u8],
        Rule::LBracket => t == seq![91u8],
        Rule::RBracket => t == seq![93u8],
        Rule::Semicolon => t == seq![59u8],
        Rule::Comma => t == seq![44u8],
        Rule::Colon => t == seq![58u8],
        Rule::At => t == seq![64u8],
        Rule::Lt => t == seq![60u8],
        Rule::Gt => t == seq![62u8],
        Rule::Plus => t == seq![43u8],
        Rule::Minus => t == seq![45u8],
        Rule::Star => t == seq![42u8],
        Rule::Slash => t == seq![47u8],
        Rule::Percent => t == seq![37u8],
        Rule::Bang => t == seq![33u8],
        Rule::Question => t == seq![63u8],
        Rule::Assign => t == seq![61u8],
        Rule::Pipe => t == seq![124u8],
        Rule::Ampersand => t == seq![38u8],
        Rule::Dot => t == seq![46u8],
        Rule::PromptText => t.len() > 0 && (forall|i: int| 0 <= i < t.len() ==> !is_prompt_stop_byte(#[trigger] t[i]))
            && t != seq![100u8, 111u8],
        Rule::PromptEscape => t.len() >= 4 && t[0] == 36u8 && t[1] == 39u8 && t[t.len() - 1] == 39u8,
        Rule::ShellArg => t.len() > 0 && t[0] != 61u8
            && forall|i: int| 0 <= i < t.len() ==> !is_shell_special_byte(#[trigger] t[i]),
        Rule::ShellRedirectOut => t == seq![62u8],
        Rule::ShellRedirectAppend => t == seq![62u8, 62u8],
        Rule::ShellRedirectIn => t == seq![60u8],
        Rule::ShellRedirectErr => t == seq![50u8, 62u8],
        Rule::ShellRedirectErrToOut => t == seq![50u8, 62u8, 38u8, 49u8],
        Rule::ShellPipe => t == seq![124u8],
        Rule::ShellAnd => t == seq![38u8, 38u8],
        Rule::ShellOr => t == seq![124u8, 124u8],
        Rule::ShellBackground => t == seq![38u8],
        Rule::ShellAssign => t == seq![61u8],
        Rule::ShellBackslash => t == seq![92u8],
        Rule::End => t.len() == 0,
        Rule::ErrorAny => t.len() > 0,
        _ => keyword_of(t) == Some(rule),
    }
}

/// The token kinds that each lexical mode can produce.
pub open spec fn mode_allows(mode: Mode, rule: Rule) -> bool {
    match mode {
        Mode::InString => rule is StringEnd || rule is Dollar || rule is StringText,
        Mode::Prompt => rule is Newline || rule is Whitespace || rule is LBrace || rule is RBrace
            || rule is PromptEscape || rule is Dollar || rule is Do || rule is PromptText,
        Mode::Shell => rule is Newline || rule is Whitespace || rule is ShellBackslash
            || rule is StringStart || rule is SingleQuoteString || rule is Dollar || rule is LBrace
            || rule is RBrace || rule is LParen || rule is RParen || rule is Semicolon
            || rule is ShellRedirectOut || rule is ShellRedirectAppend || rule is ShellRedirectIn
            || rule is ShellRedirectErr || rule is ShellRedirectErrToOut || rule is ShellPipe
            || rule is ShellAnd || rule is ShellOr || rule is ShellBackground || rule is ShellAssign
            || rule is ShellArg || rule is ErrorAny,
        Mode::Code => !(rule is StringEnd || rule is StringText || rule is PromptText
            || rule is PromptEscape || rule is ShellArg || rule is ShellRedirectOut
            || rule is ShellRedirectAppend || rule is ShellRedirectIn || rule is ShellRedirectErr
            || rule is ShellRedirectErrToOut || rule is ShellPipe || rule is ShellAnd
            || rule is ShellOr || rule is ShellBackground || rule is ShellAssign
            || rule is ShellBackslash || rule is End),
    }
}

/// What the scanner promises about one token read from `b` at `pos` in `mode`.
pub open spec fn scanned_ok(b: Seq<u8>, pos: int, mode: Mode, rule: Rule, end: int) -> bool {
    &&& pos < end <= b.len()
    &&& at_char_start(b, end)
    &&& lexeme_ok(rule, b.subrange(pos, end))
    &&& mode_allows(mode, rule)
}

/// Classes of bytes that make up runs in a token.
pub enum ByteClass {
    Whitespace,
    Ident,
    Digit,
    /// Any byte but a newline.
    InLine,
    PromptText,
    ShellArg,
    /// A byte that continues a UTF-8 character.
    Continuation,
}

/// Whether byte `c` is of class `k`.
pub open spec fn in_class(k: ByteClass, c: u8) -> bool {
    match k {
        ByteClass::Whitespace => is_ws_byte(c),
        ByteClass::Ident => is_ident_byte(c),
        ByteClass::Digit => is_digit_byte(c),
        ByteClass::InLine => c != 10u8,
        ByteClass::PromptText => !is_prompt_stop_byte(c),
        ByteClass::ShellArg => !is_shell_special_byte(c),
        ByteClass::Continuation => 0x80u8 <= c <= 0xbfu8,
    }
}

/// The end of the run of bytes of class `k` that starts at `p`: the first
/// position at or after `p` whose byte is not of the class, or the end of
/// the text.
pub open spec fn run_end(b: Seq<u8>, p: int, k: ByteClass) -> int
    decreases b.len() - p,
{
    if 0 <= p < b.len() && in_class(k, b[p]) {
        run_end(b, p + 1, k)
    } else {
        p
    }
}

/// Where the text of a double-quoted string that is read from `e` ends:
/// at the first `"` or `$` that no backslash escapes, or at the end.
pub open spec fn string_text_stop(b: Seq<u8>, e: int) -> int
    decreases b.len() - e,
{
    if 0 <= e < b.len() && b[e] != 34u8 && b[e] != 36u8 {
        if b[e] == 92u8 && e + 1 < b.len() {
            string_text_stop(b, e + 2)
        } else {
            string_text_stop(b, e + 1)
        }
    } else {
        e
    }
}

/// The closing quote of a single-quoted string, looked for from `e`: the
/// first `'` that no backslash escapes, if it comes before the end of the
/// line.
pub open spec fn quote_close_from(b: Seq<u8>, e: int) -> Option<int>
    decreases b.len() - e,
{
    if e < 0 || e >= b.len() {
        None
    } else if b[e] == 39u8 {
        Some(e)
    } else if b[e] == 10u8 {
        None
    } else if b[e] == 92u8 && e + 1 < b.len() && b[e + 1] != 10u8 {
        quote_close_from(b, e + 2)
    } else {
        quote_close_from(b, e + 1)
    }
}

/// Position just past the character that starts at `p`.
fn char_end(b: &[u8], p: usize) -> (e: usize)
    requires
        p < b@.len(),
    ensures
        p < e <= b@.len(),
        at_char_start(b@, e as int),
        e == run_end(b@, p + 1, ByteClass::Continuation),
{
    let n = b.len();
    let mut e = p + 1;
    while e < n && b[e] >= 0x80u8 && b[e] <= 0xbfu8
        invariant
            n == b@.len(),
            p < e <= b@.len(),
            run_end(b@, e as int, ByteClass::Continuation) == run_end(b@, p + 1, ByteClass::Continuation),
        decreases b@.len() - e,
    {
        e = e + 1;
    }
    e
}

/// End of the run of whitespace bytes starting at `p`.
fn ws_end(b: &[u8], p: usize) -> (e: usize)
    requires
        p <= b@.len(),
    ensures
        p <= e <= b@.len(),
        forall|i: int| p <= i < e ==> is_ws_byte(#[trigger] b@[i]),
        e == b@.len() || !is_ws_byte(b@[e as int]),
        e == run_end(b@, p as int, ByteClass::Whitespace),
{
    let mut e = p;
    while e < b.len() && (b[e] == 32u8 || b[e] == 9u8 || b[e] == 13u8)
        invariant
            run_end(b@, e as int, ByteClass::Whitespace) == run_end(b@, p as int, ByteClass::Whitespace),
            p <= e <= b@.len(),
            forall|i: int| p <= i < e ==> is_ws_byte(#[trigger] b@[i]),
        decreases b@.len() - e,
    {
        e = e + 1;
    }
    e
}

/// End of the run of identifier bytes starting at `p`.
fn ident_end(b: &[u8], p: usize) -> (e: usize)
    requires
        p <= b@.len(),
    ensures
        p <= e <= b@.len(),
        forall|i: int| p <= i < e ==> is_ident_byte(#[trigger] b@[i]),
        e == b@.len() || !is_ident_byte(b@[e as int]),
        e == run_end(b@, p as int, ByteClass::Ident),
{
    let mut e = p;
    while e < b.len() && ((b[e] >= 65u8 && b[e] <= 90u8) || (b[e] >= 97u8 && b[e] <= 122u8)
        || b[e] == 95u8 || (b[e] >= 48u8 && b[e] <= 57u8))
        invariant
            run_end(b@, e as int, ByteClass::Ident) == run_end(b@, p as int, ByteClass::Ident),
            p <= e <= b@.len(),
            forall|i: int| p <= i < e ==> is_ident_byte(#[trigger] b@[i]),
        decreases b@.len() - e,
    {
        e = e + 1;
    }
    e
}

/// End of the run of decimal digits starting at `p`.
fn digits_end(b: &[u8], p: usize) -> (e: usize)
    requires
        p <= b@.len(),
    ensures
        p <= e <= b@.len(),
        forall|i: int| p <= i < e ==> is_digit_byte(#[trigger] b@[i]),
        e == b@.len() || !is_digit_byte(b@[e as int]),
        e == run_end(b@, p as int, ByteClass::Digit),
{
    let mut e = p;
    while e < b.len() && b[e] >= 48u8 && b[e] <= 57u8
        invariant
            run_end(b@, e as int, ByteClass::Digit) == run_end(b@, p as int, ByteClass::Digit),
            p <= e <= b@.len(),
            forall|i: int| p <= i < e ==> is_digit_byte(#[trigger] b@[i]),
        decreases b@.len() - e,
    {
        e = e + 1;
    }
    e
}

/// End of the line that contains `p`: the next newline byte or the end of the text.
fn line_end(b: &[u8], p: usize) -> (e: usize)
    requires
        p <= b@.len(),
    ensures
        p <= e <= b@.len(),
        forall|i: int| p <= i < e ==> #[trigger] b@[i] != 10u8,
        e == b@.len() || b@[e as int] == 10u8,
        e == run_end(b@, p as int, ByteClass::InLine),
{
    let mut e = p;
    while e < b.len() && b[e] != 10u8
        invariant
            run_end(b@, e as int, ByteClass::InLine) == run_end(b@, p as int, ByteClass::InLine),
            p <= e <= b@.len(),
            forall|i: int| p <= i < e ==> #[trigger] b@[i] != 10u8,
        decreases b@.len() - e,
    {
        e = e + 1;
    }
    e
}

fn is_prompt_stop(c: u8) -> (r: bool)
    ensures
        r == is_prompt_stop_byte(c),
{
    c == 32u8 || c == 9u8 || c == 13u8 || c == 10u8 || c == 123u8 || c == 125u8 || c == 36u8
}

fn is_shell_special(c: u8) -> (r: bool)
    ensures
        r == is_shell_special_byte(c),
{
    c == 32u8 || c == 9u8 || c == 13u8 || c == 10u8 || c == 92u8 || c == 34u8 || c == 39u8
        || c == 36u8 || c == 123u8 || c == 125u8 || c == 40u8 || c == 41u8 || c == 62u8
        || c == 60u8 || c == 124u8 || c == 38u8 || c == 59u8
}

/// End of the run of prompt-text bytes starting at `p`.
fn prompt_text_end(b: &[u8], p: usize) -> (e: usize)
    requires
        p <= b@.len(),
    ensures
        p <= e <= b@.len(),
        forall|i: int| p <= i < e ==> !is_prompt_stop_byte(#[trigger] b@[i]),
        e == b@.len() || is_prompt_stop_byte(b@[e as int]),
        e == run_end(b@, p as int, ByteClass::PromptText),
{
    let mut e = p;
    while e < b.len() && !is_prompt_stop(b[e])
        invariant
            run_end(b@, e as int, ByteClass::PromptText) == run_end(b@, p as int, ByteClass::PromptText),
            p <= e <= b@.len(),
            forall|i: int| p <= i < e ==> !is_prompt_stop_byte(#[trigger] b@[i]),
        decreases b@.len() - e,
    {
        e = e + 1;
    }
    e
}

/// End of the run of shell-argument bytes starting at `p`.
fn shell_arg_end(b: &[u8], p: usize) -> (e: usize)
    requires
        p <= b@.len(),
    ensures
        p <= e <= b@.len(),
        forall|i: int| p <= i < e ==> !is_shell_special_byte(#[trigger] b@[i]),
        e == b@.len() || is_shell_special_byte(b@[e as int]),
        e == run_end(b@, p as int, ByteClass::ShellArg),
{
    let mut e = p;
    while e < b.len() && !is_shell_special(b[e])
        invariant
            run_end(b@, e as int, ByteClass::ShellArg) == run_end(b@, p as int, ByteClass::ShellArg),
            p <= e <= b@.len(),
            forall|i: int| p <= i < e ==> !is_shell_special_byte(#[trigger] b@[i]),
        decreases b@.len() - e,
    {
        e = e + 1;
    }
    e
}

/// End of the text of a double-quoted string starting at `p`: stops at an
/// unescaped `"` or `$`, or at the end of the input. A backslash escapes the
/// byte after it.
fn string_text_end(b: &[u8], p: usize) -> (e: usize)
    requires
        p <= b@.len(),
    ensures
        p <= e <= b@.len(),
        e == b@.len() || b@[e as int] == 34u8 || b@[e as int] == 36u8,
        e > p ==> b@[p as int] != 34u8 && b@[p as int] != 36u8,
        e == string_text_stop(b@, p as int),
{
    let mut e = p;
    while e < b.len() && b[e] != 34u8 && b[e] != 36u8
        invariant
            p <= e <= b@.len(),
            string_text_stop(b@, e as int) == string_text_stop(b@, p as int),
            e > p ==> b@[p as int] != 34u8 && b@[p as int] != 36u8,
        decreases b@.len() - e,
    {
        if b[e] == 92u8 && e + 1 < b.len() {
            e = e + 2;
        } else {
            e = e + 1;
        }
    }
    e
}

/// Position of the quote that closes a single-quoted string whose opening
/// quote is at `p`, if it is closed before the end of the line.
fn single_quote_close(b: &[u8], p: usize) -> (r: Option<usize>)
    requires
        p < b@.len(),
    ensures
        r matches Some(q) ==> p < q < b@.len() && b@[q as int] == 39u8,
        quote_close_from(b@, p + 1) == (match r {
            Some(q) => Some(q as int),
            None => None::<int>,
        }),
{
    let _n = b.len();
    let mut e = p + 1;
    while e < b.len()
        invariant
            p < e <= b@.len(),
            quote_close_from(b@, e as int) == quote_close_from(b@, p + 1),
        decreases b@.len() - e,
    {
        let c = b[e];
        if c == 39u8 {
            return Some(e);
        } else if c == 10u8 {
            return None;
        } else if c == 92u8 && e + 1 < b.len() && b[e + 1] != 10u8 {
            e = e + 2;
        } else {
            e = e + 1;
        }
    }
    None
}

proof fn lemma_sub1(b: Seq<u8>, p: int)
    requires
        0 <= p < b.len(),
    ensures
        b.subrange(p, p + 1) == seq![b[p]],
{
    assert(b.subrange(p, p + 1) =~= seq![b[p]]);
}

proof fn lemma_sub2(b: Seq<u8>, p: int)
    requires
        0 <= p && p + 2 <= b.len(),
    ensures
        b.subrange(p, p + 2) == seq![b[p], b[p + 1]],
{
    assert(b.subrange(p, p + 2) =~= seq![b[p], b[p + 1]]);
}

proof fn lemma_sub3(b: Seq<u8>, p: int)
    requires
        0 <= p && p + 3 <= b.len(),
    ensures
        b.subrange(p, p + 3) == seq![b[p], b[p + 1], b[p + 2]],
{
    assert(b.subrange(p, p + 3) =~= seq![b[p], b[p + 1], b[p + 2]]);
}

proof fn lemma_sub4(b: Seq<u8>, p: int)
    requires
        0 <= p && p + 4 <= b.len(),
    ensures
        b.subrange(p, p + 4) == seq![b[p], b[p + 1], b[p + 2], b[p + 3]],
{
    assert(b.subrange(p, p + 4) =~= seq![b[p], b[p + 1], b[p + 2], b[p + 3]]);
}

/// The byte at `i`, or 0 past the end of the text.
pub open spec fn byte_at(b: Seq<u8>, i: int) -> u8 {
    if 0 <= i < b.len() {
        b[i]
    } else {
        0u8
    }
}

/// The operator or punctuation token at `pos` in code mode, longest first;
/// any other character is an error token of its own.
pub open spec fn operator_token(b: Seq<u8>, pos: int) -> (Rule, int) {
    let c = b[pos];
    let c1 = byte_at(b, pos + 1);
    let c2 = byte_at(b, pos + 2);
    if c == 46u8 && c1 == 46u8 && c2 == 46u8 {
        (Rule::Ellipsis, pos + 3)
    } else if c == 45u8 && c1 == 62u8 {
        (Rule::Arrow, pos + 2)
    } else if c == 61u8 && c1 == 61u8 {
        (Rule::Eq, pos + 2)
    } else if c == 33u8 && c1 == 61u8 {
        (Rule::Neq, pos + 2)
    } else if c == 60u8 && c1 == 61u8 {
        (Rule::Lte, pos + 2)
    } else if c == 62u8 && c1 == 61u8 {
        (Rule::Gte, pos + 2)
    } else if c == 38u8 && c1 == 38u8 {
        (Rule::AndAnd, pos + 2)
    } else if c == 124u8 && c1 == 124u8 {
        (Rule::OrOr, pos + 2)
    } else if c == 43u8 && c1 == 43u8 {
        (Rule::PlusPlus, pos + 2)
    } else if c == 45u8 && c1 == 45u8 {
        (Rule::MinusMinus, pos + 2)
    } else if c == 123u8 {
        (Rule::LBrace, pos + 1)
    } else if c == 125u8 {
        (Rule::RBrace, pos + 1)
    } else if c == 40u8 {
        (Rule::LParen, pos + 1)
    } else if c == 41u8 {
        (Rule::RParen, pos + 1)
    } else if c == 91u8 {
        (Rule::LBracket, pos + 1)
    } else if c == 93u8 {
        (Rule::RBracket, pos + 1)
    } else if c == 59u8 {
        (Rule::Semicolon, pos + 1)
    } else if c == 44u8 {
        (Rule::Comma, pos + 1)
    } else if c == 58u8 {
        (Rule::Colon, pos + 1)
    } else if c == 64u8 {
        (Rule::At, pos + 1)
    } else if c == 60u8 {
        (Rule::Lt, pos + 1)
    } else if c == 62u8 {
        (Rule::Gt, pos + 1)
    } else if c == 43u8 {
        (Rule::Plus, pos + 1)
    } else if c == 45u8 {
        (Rule::Minus, pos + 1)
    } else if c == 42u8 {
        (Rule::Star, pos + 1)
    } else if c == 47u8 {
        (Rule::Slash, pos + 1)
    } else if c == 37u8 {
        (Rule::Percent, pos + 1)
    } else if c == 33u8 {
        (Rule::Bang, pos + 1)
    } else if c == 63u8 {
        (Rule::Question, pos + 1)
    } else if c == 61u8 {
        (Rule::Assign, pos + 1)
    } else if c == 124u8 {
        (Rule::Pipe, pos + 1)
    } else if c == 38u8 {
        (Rule::Ampersand, pos + 1)
    } else if c == 46u8 {
        (Rule::Dot, pos + 1)
    } else {
        (Rule::ErrorAny, run_end(b, pos + 1, ByteClass::Continuation))
    }
}

/// A single-quoted string at `pos`, or an error token for a quote that is
/// not closed on its line.
pub open spec fn quoted_token(b: Seq<u8>, pos: int) -> (Rule, int) {
    match quote_close_from(b, pos + 1) {
        Some(q) => (Rule::SingleQuoteString, q + 1),
        None => (Rule::ErrorAny, pos + 1),
    }
}

/// The token at `pos` in code mode.
pub open spec fn code_token(b: Seq<u8>, pos: int) -> (Rule, int) {
    let c = b[pos];
    if c == 10u8 {
        (Rule::Newline, pos + 1)
    } else if is_ws_byte(c) {
        (Rule::Whitespace, run_end(b, pos, ByteClass::Whitespace))
    } else if c == 35u8 {
        (Rule::Comment, run_end(b, pos, ByteClass::InLine))
    } else if c == 34u8 {
        (Rule::StringStart, pos + 1)
    } else if c == 39u8 {
        quoted_token(b, pos)
    } else if c == 36u8 {
        (Rule::Dollar, pos + 1)
    } else if is_ident_start_byte(c) {
        let e = run_end(b, pos + 1, ByteClass::Ident);
        match keyword_of(b.subrange(pos, e)) {
            Some(k) => (k, e),
            None => if e == pos + 1 && c == 95u8 {
                (Rule::Underscore, e)
            } else {
                (Rule::Identifier, e)
            },
        }
    } else if is_digit_byte(c) {
        (Rule::Number, run_end(b, pos + 1, ByteClass::Digit))
    } else {
        operator_token(b, pos)
    }
}

/// The token at `pos` inside a double-quoted string.
pub open spec fn string_token(b: Seq<u8>, pos: int) -> (Rule, int) {
    if b[pos] == 34u8 {
        (Rule::StringEnd, pos + 1)
    } else if b[pos] == 36u8 {
        (Rule::Dollar, pos + 1)
    } else {
        (Rule::StringText, string_text_stop(b, pos))
    }
}

/// The token at `pos` inside a prompt block.
pub open spec fn prompt_token(b: Seq<u8>, pos: int) -> (Rule, int) {
    let c = b[pos];
    if c == 10u8 {
        (Rule::Newline, pos + 1)
    } else if is_ws_byte(c) {
        (Rule::Whitespace, run_end(b, pos, ByteClass::Whitespace))
    } else if c == 123u8 {
        (Rule::LBrace, pos + 1)
    } else if c == 125u8 {
        (Rule::RBrace, pos + 1)
    } else if c == 36u8 {
        let ce = run_end(b, pos + 3, ByteClass::Continuation);
        if b.len() - pos > 2 && b[pos + 1] == 39u8 && ce < b.len() && b[ce] == 39u8 {
            (Rule::PromptEscape, ce + 1)
        } else {
            (Rule::Dollar, pos + 1)
        }
    } else {
        let e = run_end(b, pos, ByteClass::PromptText);
        if e - pos == 2 && b[pos] == 100u8 && b[pos + 1] == 111u8 {
            (Rule::Do, e)
        } else {
            (Rule::PromptText, e)
        }
    }
}

/// The token at `pos` in a shell command.
pub open spec fn shell_token(b: Seq<u8>, pos: int) -> (Rule, int) {
    let c = b[pos];
    let c1 = byte_at(b, pos + 1);
    let c2 = byte_at(b, pos + 2);
    let c3 = byte_at(b, pos + 3);
    if c == 10u8 {
        (Rule::Newline, pos + 1)
    } else if is_ws_byte(c) {
        (Rule::Whitespace, run_end(b, pos, ByteClass::Whitespace))
    } else if c == 92u8 {
        (Rule::ShellBackslash, pos + 1)
    } else if c == 34u8 {
        (Rule::StringStart, pos + 1)
    } else if c == 39u8 {
        quoted_token(b, pos)
    } else if c == 36u8 {
        (Rule::Dollar, pos + 1)
    } else if c == 123u8 {
        (Rule::LBrace, pos + 1)
    } else if c == 125u8 {
        (Rule::RBrace, pos + 1)
    } else if c == 40u8 {
        (Rule::LParen, pos + 1)
    } else if c == 41u8 {
        (Rule::RParen, pos + 1)
    } else if c == 59u8 {
        (Rule::Semicolon, pos + 1)
    } else if c == 50u8 && c1 == 62u8 && c2 == 38u8 && c3 == 49u8 {
        (Rule::ShellRedirectErrToOut, pos + 4)
    } else if c == 50u8 && c1 == 62u8 {
        (Rule::ShellRedirectErr, pos + 2)
    } else if c == 62u8 && c1 == 62u8 {
        (Rule::ShellRedirectAppend, pos + 2)
    } else if c == 62u8 {
        (Rule::ShellRedirectOut, pos + 1)
    } else if c == 60u8 {
        (Rule::ShellRedirectIn, pos + 1)
    } else if c == 124u8 && c1 == 124u8 {
        (Rule::ShellOr, pos + 2)
    } else if c == 124u8 {
        (Rule::ShellPipe, pos + 1)
    } else if c == 38u8 && c1 == 38u8 {
        (Rule::ShellAnd, pos + 2)
    } else if c == 38u8 {
        (Rule::ShellBackground, pos + 1)
    } else if c == 61u8 {
        (Rule::ShellAssign, pos + 1)
    } else {
        (Rule::ShellArg, run_end(b, pos + 1, ByteClass::ShellArg))
    }
}

/// In a shell command the longest operator at a position is read: `>>`
/// appends, `2>&1` sends errors to the output, `2>` redirects errors, `||`
/// and `&&` chain commands; a lone `>`, `|` or `&` is read only where no
/// longer operator starts.
pub proof fn law_shell_longest_operator(b: Seq<u8>, pos: int)
    requires
        0 <= pos < b.len(),
    ensures
        b[pos] == 62u8 && byte_at(b, pos + 1) == 62u8 ==> token_at(b, pos, Mode::Shell) == (
            Rule::ShellRedirectAppend,
            pos + 2,
        ),
        b[pos] == 62u8 && byte_at(b, pos + 1) != 62u8 ==> token_at(b, pos, Mode::Shell) == (
            Rule::ShellRedirectOut,
            pos + 1,
        ),
        b[pos] == 50u8 && byte_at(b, pos + 1) == 62u8 && byte_at(b, pos + 2) == 38u8 && byte_at(
            b,
            pos + 3,
        ) == 49u8 ==> token_at(b, pos, Mode::Shell) == (Rule::ShellRedirectErrToOut, pos + 4),
        b[pos] == 50u8 && byte_at(b, pos + 1) == 62u8 && !(byte_at(b, pos + 2) == 38u8 && byte_at(
            b,
            pos + 3,
        ) == 49u8) ==> token_at(b, pos, Mode::Shell) == (Rule::ShellRedirectErr, pos + 2),
        b[pos] == 124u8 && byte_at(b, pos + 1) == 124u8 ==> token_at(b, pos, Mode::Shell) == (
            Rule::ShellOr,
            pos + 2,
        ),
        b[pos] == 124u8 && byte_at(b, pos + 1) != 124u8 ==> token_at(b, pos, Mode::Shell) == (
            Rule::ShellPipe,
            pos + 1,
        ),
        b[pos] == 38u8 && byte_at(b, pos + 1) == 38u8 ==> token_at(b, pos, Mode::Shell) == (
            Rule::ShellAnd,
            pos + 2,
        ),
        b[pos] == 38u8 && byte_at(b, pos + 1) != 38u8 ==> token_at(b, pos, Mode::Shell) == (
            Rule::ShellBackground,
            pos + 1,
        ),
{
}

/// In code the longest operator at a position is read: `...`, and the
/// two-byte operators `->`, `==`, `!=`, `<=`, `>=`, `&&`, `||`, `++`, `--`
/// before their one-byte prefixes.
pub proof fn law_code_longest_operator(b: Seq<u8>, pos: int)
    requires
        0 <= pos < b.len(),
    ensures
        b[pos] == 46u8 && byte_at(b, pos + 1) == 46u8 && byte_at(b, pos + 2) == 46u8 ==> token_at(
            b,
            pos,
            Mode::Code,
        ) == (Rule::Ellipsis, pos + 3),
        b[pos] == 45u8 && byte_at(b, pos + 1) == 62u8 ==> token_at(b, pos, Mode::Code) == (Rule::Arrow, pos + 2),
        b[pos] == 61u8 && byte_at(b, pos + 1) == 61u8 ==> token_at(b, pos, Mode::Code) == (Rule::Eq, pos + 2),
        b[pos] == 33u8 && byte_at(b, pos + 1) == 61u8 ==> token_at(b, pos, Mode::Code) == (Rule::Neq, pos + 2),
        b[pos] == 60u8 && byte_at(b, pos + 1) == 61u8 ==> token_at(b, pos, Mode::Code) == (Rule::Lte, pos + 2),
        b[pos] == 62u8 && byte_at(b, pos + 1) == 61u8 ==> token_at(b, pos, Mode::Code) == (Rule::Gte, pos + 2),
        b[pos] == 38u8 && byte_at(b, pos + 1) == 38u8 ==> token_at(b, pos, Mode::Code) == (
            Rule::AndAnd,
            pos + 2,
        ),
        b[pos] == 124u8 && byte_at(b, pos + 1) == 124u8 ==> token_at(b, pos, Mode::Code) == (
            Rule::OrOr,
            pos + 2,
        ),
        b[pos] == 43u8 && byte_at(b, pos + 1) == 43u8 ==> token_at(b, pos, Mode::Code) == (
            Rule::PlusPlus,
            pos + 2,
        ),
        b[pos] == 45u8 && byte_at(b, pos + 1) == 45u8 ==> token_at(b, pos, Mode::Code) == (
            Rule::MinusMinus,
            pos + 2,
        ),
{
}

/// The token at `pos` in the given mode: its kind and where it ends.
pub open spec fn token_at(b: Seq<u8>, pos: int, mode: Mode) -> (Rule, int) {
    match mode {
        Mode::Code => code_token(b, pos),
        Mode::InString => string_token(b, pos),
        Mode::Prompt => prompt_token(b, pos),
        Mode::Shell => shell_token(b, pos),
    }
}

/// A token made of the `n` ASCII bytes at `pos`.
fn fixed(b: &[u8], pos: usize, n: usize, rule: Rule) -> (r: (Rule, usize))
    requires
        valid_utf8(b@),
        1 <= n <= 4,
        pos + n <= b@.len(),
        b@[pos + n - 1] < 0x80u8,
    ensures
        r == (rule, (pos + n) as usize),
        at_char_start(b@, pos + n),
        n == 1 ==> b@.subrange(pos as int, pos + n) == seq![b@[pos as int]],
        n == 2 ==> b@.subrange(pos as int, pos + n) == seq![b@[pos as int], b@[pos + 1]],
        n == 3 ==> b@.subrange(pos as int, pos + n) == seq![b@[pos as int], b@[pos + 1], b@[pos + 2]],
        n == 4 ==> b@.subrange(pos as int, pos + n) == seq![b@[pos as int], b@[pos + 1], b@[pos + 2], b@[pos + 3]],
{
    let _len = b.len();
    proof {
        lemma_after_ascii(b@, pos + n - 1);
        if n == 1 { lemma_sub1(b@, pos as int); }
        if n == 2 { lemma_sub2(b@, pos as int); }
        if n == 3 { lemma_sub3(b@, pos as int); }
        if n == 4 { lemma_sub4(b@, pos as int); }
    }
    (rule, pos + n)
}

/// An unrecognised character: the whole character at `pos`.
fn error_char(b: &[u8], pos: usize) -> (r: (Rule, usize))
    requires
        pos < b@.len(),
    ensures
        r.0 == Rule::ErrorAny,
        pos < r.1 <= b@.len(),
        at_char_start(b@, r.1 as int),
        r.1 == run_end(b@, pos + 1, ByteClass::Continuation),
{
    let e = char_end(b, pos);
    (Rule::ErrorAny, e)
}

/// Reads an operator or punctuation token in code mode.
fn scan_operator(b: &[u8], pos: usize) -> (r: (Rule, usize))
    requires
        valid_utf8(b@),
        pos < b@.len(),
    ensures
        scanned_ok(b@, pos as int, Mode::Code, r.0, r.1 as int),
        r.0 == operator_token(b@, pos as int).0,
        r.1 == operator_token(b@, pos as int).1,
{
    let n = b.len();
    let c = b[pos];
    let c1: u8 = if n - pos > 1 { b[pos + 1] } else { 0u8 };
    let c2: u8 = if n - pos > 2 { b[pos + 2] } else { 0u8 };
    if false {
        error_char(b, pos)
    } else if c == 46u8 && c1 == 46u8 && c2 == 46u8 {
        fixed(b, pos, 3, Rule::Ellipsis)
    } else if c == 45u8 && c1 == 62u8 {
        fixed(b, pos, 2, Rule::Arrow)
    } else if c == 61u8 && c1 == 61u8 {
        fixed(b, pos, 2, Rule::Eq)
    } else if c == 33u8 && c1 == 61u8 {
        fixed(b, pos, 2, Rule::Neq)
    } else if c == 60u8 && c1 == 61u8 {
        fixed(b, pos, 2, Rule::Lte)
    } else if c == 62u8 && c1 == 61u8 {
        fixed(b, pos, 2, Rule::Gte)
    } else if c == 38u8 && c1 == 38u8 {
        fixed(b, pos, 2, Rule::AndAnd)
    } else if c == 124u8 && c1 == 124u8 {
        fixed(b, pos, 2, Rule::OrOr)
    } else if c == 43u8 && c1 == 43u8 {
        fixed(b, pos, 2, Rule::PlusPlus)
    } else if c == 45u8 && c1 == 45u8 {
        fixed(b, pos, 2, Rule::MinusMinus)
    } else if c == 123u8 {
        fixed(b, pos, 1, Rule::LBrace)
    } else if c == 125u8 {
        fixed(b, pos, 1, Rule::RBrace)
    } else if c == 40u8 {
        fixed(b, pos, 1, Rule::LParen)
    } else if c == 41u8 {
        fixed(b, pos, 1, Rule::RParen)
    } else if c == 91u8 {
        fixed(b, pos, 1, Rule::LBracket)
    } else if c == 93u8 {
        fixed(b, pos, 1, Rule::RBracket)
    } else if c == 59u8 {
        fixed(b, pos, 1, Rule::Semicolon)
    } else if c == 44u8 {
        fixed(b, pos, 1, Rule::Comma)
    } else if c == 58u8 {
        fixed(b, pos, 1, Rule::Colon)
    } else if c == 64u8 {
        fixed(b, pos, 1, Rule::At)
    } else if c == 60u8 {
        fixed(b, pos, 1, Rule::Lt)
    } else if c == 62u8 {
        fixed(b, pos, 1, Rule::Gt)
    } else if c == 43u8 {
        fixed(b, pos, 1, Rule::Plus)
    } else if c == 45u8 {
        fixed(b, pos, 1, Rule::Minus)
    } else if c == 42u8 {
        fixed(b, pos, 1, Rule::Star)
    } else if c == 47u8 {
        fixed(b, pos, 1, Rule::Slash)
    } else if c == 37u8 {
        fixed(b, pos, 1, Rule::Percent)
    } else if c == 33u8 {
        fixed(b, pos, 1, Rule::Bang)
    } else if c == 63u8 {
        fixed(b, pos, 1, Rule::Question)
    } else if c == 61u8 {
        fixed(b, pos, 1, Rule::Assign)
    } else if c == 124u8 {
        fixed(b, pos, 1, Rule::Pipe)
    } else if c == 38u8 {
        fixed(b, pos, 1, Rule::Ampersand)
    } else if c == 46u8 {
        fixed(b, pos, 1, Rule::Dot)
    } else {
        error_char(b, pos)
    }
}

/// Reads one token in code mode.
fn scan_code(b: &[u8], pos: usize) -> (r: (Rule, usize))
    requires
        valid_utf8(b@),
        pos < b@.len(),
    ensures
        scanned_ok(b@, pos as int, Mode::Code, r.0, r.1 as int),
        r.0 == code_token(b@, pos as int).0,
        r.1 == code_token(b@, pos as int).1,
{
    let n = b.len();
    let c = b[pos];
    if c == 10u8 {
        fixed(b, pos, 1, Rule::Newline)
    } else if c == 32u8 || c == 9u8 || c == 13u8 {
        let e = ws_end(b, pos);
        proof {
            lemma_after_ascii(b@, e - 1);
            assert forall|i: int| 0 <= i < e - pos implies is_ws_byte(#[trigger] b@.subrange(pos as int, e as int)[i]) by {
                assert(b@.subrange(pos as int, e as int)[i] == b@[pos + i]);
            }
        }
        (Rule::Whitespace, e)
    } else if c == 35u8 {
        let e = line_end(b, pos);
        proof {
            assert forall|i: int| 0 <= i < e - pos implies #[trigger] b@.subrange(pos as int, e as int)[i] != 10u8 by {
                assert(b@.subrange(pos as int, e as int)[i] == b@[pos + i]);
            }
        }
        (Rule::Comment, e)
    } else if c == 34u8 {
        fixed(b, pos, 1, Rule::StringStart)
    } else if c == 39u8 {
        match single_quote_close(b, pos) {
            Some(q) => {
                proof {
                    lemma_after_ascii(b@, q as int);
                }
                (Rule::SingleQuoteString, q + 1)
            },
            None => {
                proof {
                    lemma_after_ascii(b@, pos as int);
                }
                (Rule::ErrorAny, pos + 1)
            },
        }
    } else if c == 36u8 {
        fixed(b, pos, 1, Rule::Dollar)
    } else if (c >= 65u8 && c <= 90u8) || (c >= 97u8 && c <= 122u8) || c == 95u8 {
        let e = ident_end(b, pos + 1);
        let ghost t = b@.subrange(pos as int, e as int);
        proof {
            lemma_after_ascii(b@, e - 1);
            assert forall|i: int| 0 <= i < t.len() implies is_ident_byte(#[trigger] t[i]) by {
                assert(t[i] == b@[pos + i]);
            }
        }
        match keyword_at(b, pos, e) {
            Some(k) => (k, e),
            None => {
                if e == pos + 1 && c == 95u8 {
                    proof {
                        lemma_sub1(b@, pos as int);
                    }
                    (Rule::Underscore, e)
                } else {
                    proof {
                        if t =~= seq![95u8] {
                            assert(t[0] == b@[pos as int]);
                        }
                    }
                    (Rule::Identifier, e)
                }
            },
        }
    } else if c >= 48u8 && c <= 57u8 {
        let e = digits_end(b, pos + 1);
        proof {
            lemma_after_ascii(b@, e - 1);
            assert forall|i: int| 0 <= i < e - pos implies is_digit_byte(#[trigger] b@.subrange(pos as int, e as int)[i]) by {
                assert(b@.subrange(pos as int, e as int)[i] == b@[pos + i]);
            }
        }
        (Rule::Number, e)
    } else {
        scan_operator(b, pos)
    }
}

/// Reads one token inside a double-quoted string.
fn scan_string(b: &[u8], pos: usize) -> (r: (Rule, usize))
    requires
        valid_utf8(b@),
        pos < b@.len(),
    ensures
        scanned_ok(b@, pos as int, Mode::InString, r.0, r.1 as int),
        r.0 == string_token(b@, pos as int).0,
        r.1 == string_token(b@, pos as int).1,
{
    let c = b[pos];
    if c == 34u8 {
        fixed(b, pos, 1, Rule::StringEnd)
    } else if c == 36u8 {
        fixed(b, pos, 1, Rule::Dollar)
    } else {
        let e = string_text_end(b, pos);
        proof {
            assert(b@.subrange(pos as int, e as int)[0] == b@[pos as int]);
        }
        (Rule::StringText, e)
    }
}

/// Reads one token inside a prompt block.
fn scan_prompt(b: &[u8], pos: usize) -> (r: (Rule, usize))
    requires
        valid_utf8(b@),
        pos < b@.len(),
    ensures
        scanned_ok(b@, pos as int, Mode::Prompt, r.0, r.1 as int),
        r.0 == prompt_token(b@, pos as int).0,
        r.1 == prompt_token(b@, pos as int).1,
{
    let n = b.len();
    let c = b[pos];
    if c == 10u8 {
        fixed(b, pos, 1, Rule::Newline)
    } else if c == 32u8 || c == 9u8 || c == 13u8 {
        let e = ws_end(b, pos);
        proof {
            lemma_after_ascii(b@, e - 1);
            assert forall|i: int| 0 <= i < e - pos implies is_ws_byte(#[trigger] b@.subrange(pos as int, e as int)[i]) by {
                assert(b@.subrange(pos as int, e as int)[i] == b@[pos + i]);
            }
        }
        (Rule::Whitespace, e)
    } else if c == 123u8 {
        fixed(b, pos, 1, Rule::LBrace)
    } else if c == 125u8 {
        fixed(b, pos, 1, Rule::RBrace)
    } else if c == 36u8 {
        if n - pos > 2 && b[pos + 1] == 39u8 {
            proof {
                lemma_after_ascii(b@, pos + 1);
            }
            let ce = char_end(b, pos + 2);
            if ce < n && b[ce] == 39u8 {
                proof {
                    lemma_after_ascii(b@, ce as int);
                    let t = b@.subrange(pos as int, ce + 1);
                    assert(t[0] == b@[pos as int]);
                    assert(t[1] == b@[pos + 1]);
                    assert(t[t.len() - 1] == b@[ce as int]);
                }
                return (Rule::PromptEscape, ce + 1);
            }
        }
        fixed(b, pos, 1, Rule::Dollar)
    } else {
        let e = prompt_text_end(b, pos);
        let ghost t = b@.subrange(pos as int, e as int);
        proof {
            assert forall|i: int| 0 <= i < t.len() implies !is_prompt_stop_byte(#[trigger] t[i]) by {
                assert(t[i] == b@[pos + i]);
            }
        }
        if e - pos == 2 && b[pos] == 100u8 && b[pos + 1] == 111u8 {
            proof {
                lemma_sub2(b@, pos as int);
            }
            (Rule::Do, e)
        } else {
            proof {
                if t =~= seq![100u8, 111u8] {
                    assert(t[0] == b@[pos as int] && t[1] == b@[pos + 1]);
                }
            }
            (Rule::PromptText, e)
        }
    }
}

/// Reads one token of a shell command.
fn scan_shell(b: &[u8], pos: usize) -> (r: (Rule, usize))
    requires
        valid_utf8(b@),
        pos < b@.len(),
    ensures
        scanned_ok(b@, pos as int, Mode::Shell, r.0, r.1 as int),
        r.0 == shell_token(b@, pos as int).0,
        r.1 == shell_token(b@, pos as int).1,
{
    let n = b.len();
    let c = b[pos];
    let c1: u8 = if n - pos > 1 { b[pos + 1] } else { 0u8 };
    let c2: u8 = if n - pos > 2 { b[pos + 2] } else { 0u8 };
    let c3: u8 = if n - pos > 3 { b[pos + 3] } else { 0u8 };
    if c == 10u8 {
        fixed(b, pos, 1, Rule::Newline)
    } else if c == 32u8 || c == 9u8 || c == 13u8 {
        let e = ws_end(b, pos);
        proof {
            lemma_after_ascii(b@, e - 1);
            assert forall|i: int| 0 <= i < e - pos implies is_ws_byte(#[trigger] b@.subrange(pos as int, e as int)[i]) by {
                assert(b@.subrange(pos as int, e as int)[i] == b@[pos + i]);
            }
        }
        (Rule::Whitespace, e)
    } else if c == 92u8 {
        fixed(b, pos, 1, Rule::ShellBackslash)
    } else if c == 34u8 {
        fixed(b, pos, 1, Rule::StringStart)
    } else if c == 39u8 {
        match single_quote_close(b, pos) {
            Some(q) => {
                proof {
                    lemma_after_ascii(b@, q as int);
                }
                (Rule::SingleQuoteString, q + 1)
            },
            None => {
                proof {
                    lemma_after_ascii(b@, pos as int);
                }
                (Rule::ErrorAny, pos + 1)
            },
        }
    } else if c == 36u8 {
        fixed(b, pos, 1, Rule::Dollar)
    } else if c == 123u8 {
        fixed(b, pos, 1, Rule::LBrace)
    } else if c == 125u8 {
        fixed(b, pos, 1, Rule::RBrace)
    } else if c == 40u8 {
        fixed(b, pos, 1, Rule::LParen)
    } else if c == 41u8 {
        fixed(b, pos, 1, Rule::RParen)
    } else if c == 59u8 {
        fixed(b, pos, 1, Rule::Semicolon)
    } else if c == 50u8 && c1 == 62u8 && c2 == 38u8 && c3 == 49u8 {
        fixed(b, pos, 4, Rule::ShellRedirectErrToOut)
    } else if c == 50u8 && c1 == 62u8 {
        fixed(b, pos, 2, Rule::ShellRedirectErr)
    } else if c == 62u8 && c1 == 62u8 {
        fixed(b, pos, 2, Rule::ShellRedirectAppend)
    } else if c == 62u8 {
        fixed(b, pos, 1, Rule::ShellRedirectOut)
    } else if c == 60u8 {
        fixed(b, pos, 1, Rule::ShellRedirectIn)
    } else if c == 124u8 && c1 == 124u8 {
        fixed(b, pos, 2, Rule::ShellOr)
    } else if c == 124u8 {
        fixed(b, pos, 1, Rule::ShellPipe)
    } else if c == 38u8 && c1 == 38u8 {
        fixed(b, pos, 2, Rule::ShellAnd)
    } else if c == 38u8 {
        fixed(b, pos, 1, Rule::ShellBackground)
    } else if c == 61u8 {
        fixed(b, pos, 1, Rule::ShellAssign)
    } else {
        let e = shell_arg_end(b, pos + 1);
        let ghost t = b@.subrange(pos as int, e as int);
        proof {
            assert forall|i: int| 0 <= i < t.len() implies !is_shell_special_byte(#[trigger] t[i]) by {
                assert(t[i] == b@[pos + i]);
            }
        }
        (Rule::ShellArg, e)
    }
}

/// Reads one token at `pos` in the given mode.
pub fn scan_token(b: &[u8], pos: usize, mode: Mode) -> (r: (Rule, usize))
    requires
        valid_utf8(b@),
        pos < b@.len(),
    ensures
        scanned_ok(b@, pos as int, mode, r.0, r.1 as int),
        r.0 == token_at(b@, pos as int, mode).0,
        r.1 == token_at(b@, pos as int, mode).1,
{
    match mode {
        Mode::Code => scan_code(b, pos),
        Mode::InString => scan_string(b, pos),
        Mode::Prompt => scan_prompt(b, pos),
        Mode::Shell => scan_shell(b, pos),
    }
}
/// Byte positions of a token in the source text.
#[derive(Debug, Clone, Copy, PartialEq, Eq, Structural)]
pub struct Span {
    pub start: usize,
    pub end: usize,
}

/// Token produced by the patchwork lexer.
#[derive(Debug, Clone, Copy, PartialEq, Eq)]
pub struct PatchworkToken {
    pub rule: Rule,
    pub span: Option<Span>,
}

impl PatchworkToken {
    pub fn new(rule: Rule, span: Option<Span>) -> (r: Self)
        ensures
            r.rule == rule,
            r.span == span,
    {
        Self { rule, span }
    }
}

/// Context for tracking lexer state transitions.
#[derive(Debug)]
pub struct LexerContext {
    /// Stack of mode states for handling nesting
    mode_stack: Vec<Mode>,
    /// Stack of brace depths for each nested context
    depth_stack: Vec<usize>,
    /// Stack of delimiter types (what closes each nested context)
    delimiter_stack: Vec<DelimiterType>,
    /// Last significant token seen (for lookahead)
    last_token: Option<Rule>,
    /// Just saw a `$` in a string (interpolation)
    in_string_interpolation: bool,
    /// Just saw a `$` in a prompt (interpolation)
    in_prompt_interpolation: bool,
    /// Inside `${...}` within a shell command
    in_shell_interpolation: bool,
    /// Inside a shell command
    in_shell_mode: bool,
    /// Reserved: return to shell mode after the current token
    return_to_shell: bool,
}

impl LexerContext {
    /// The stacks of the context have equal heights.
    pub closed spec fn wf(&self) -> bool {
        self.mode_stack@.len() == self.depth_stack@.len()
            && self.depth_stack@.len() == self.delimiter_stack@.len()
    }

    /// The stack of enclosing modes, innermost last.
    pub closed spec fn modes(&self) -> Seq<Mode> {
        self.mode_stack@
    }

    /// The open-brace depth of each enclosing context.
    pub closed spec fn depths(&self) -> Seq<usize> {
        self.depth_stack@
    }

    /// What closes each enclosing context.
    pub closed spec fn delimiters(&self) -> Seq<DelimiterType> {
        self.delimiter_stack@
    }

    /// The last significant token seen.
    pub closed spec fn last(&self) -> Option<Rule> {
        self.last_token
    }

    /// Inside an interpolation in a string.
    pub closed spec fn string_interp(&self) -> bool {
        self.in_string_interpolation
    }

    /// Inside an interpolation in a prompt.
    pub closed spec fn prompt_interp(&self) -> bool {
        self.in_prompt_interpolation
    }

    /// Inside `${...}` within a shell command.
    pub closed spec fn shell_interp(&self) -> bool {
        self.in_shell_interpolation
    }

    /// Inside a shell command.
    pub closed spec fn shell_mode(&self) -> bool {
        self.in_shell_mode
    }

    /// A fresh context: no enclosing contexts, nothing seen.
    pub fn new() -> (r: Self)
        ensures
            r.wf(),
            r.modes().len() == 0,
            r.last() is None,
            !r.string_interp() && !r.prompt_interp() && !r.shell_interp() && !r.shell_mode(),
            r@ == fresh_context(),
    {
        Self {
            mode_stack: Vec::new(),
            depth_stack: Vec::new(),
            delimiter_stack: Vec::new(),
            last_token: None,
            in_string_interpolation: false,
            in_prompt_interpolation: false,
            in_shell_interpolation: false,
            in_shell_mode: false,
            return_to_shell: false,
        }
    }

    /// Enters a nested context with brace depth 1.
    fn push_mode(&mut self, mode: Mode, delimiter: DelimiterType)
        requires
            old(self).wf(),
        ensures
            final(self).wf(),
            final(self).modes() == old(self).modes().push(mode),
            final(self).depths() == old(self).depths().push(1),
            final(self).delimiters() == old(self).delimiters().push(delimiter),
            final(self).last() == old(self).last(),
            final(self).string_interp() == old(self).string_interp(),
            final(self).prompt_interp() == old(self).prompt_interp(),
            final(self).shell_interp() == old(self).shell_interp(),
            final(self).shell_mode() == old(self).shell_mode(),
    {
        self.mode_stack.push(mode);
        self.depth_stack.push(1);
        self.delimiter_stack.push(delimiter);
    }

    /// Leaves the innermost context, giving back its mode.
    fn pop_mode(&mut self) -> (r: Option<Mode>)
        requires
            old(self).wf(),
        ensures
            final(self).wf(),
            old(self).modes().len() == 0 ==> r is None && final(self).modes() == old(self).modes()
                && final(self).depths() == old(self).depths() && final(self).delimiters() == old(self).delimiters(),
            old(self).modes().len() > 0 ==> r == Some(old(self).modes().last())
                && final(self).modes() == old(self).modes().drop_last()
                && final(self).depths() == old(self).depths().drop_last()
                && final(self).delimiters() == old(self).delimiters().drop_last(),
            final(self).last() == old(self).last(),
            final(self).string_interp() == old(self).string_interp(),
            final(self).prompt_interp() == old(self).prompt_interp(),
            final(self).shell_interp() == old(self).shell_interp(),
            final(self).shell_mode() == old(self).shell_mode(),
    {
        self.depth_stack.pop();
        self.delimiter_stack.pop();
        self.mode_stack.pop()
    }

    /// The brace depth of the innermost context, or 0 when there is none.
    pub fn current_depth(&self) -> (r: usize)
        ensures
            self.depths().len() == 0 ==> r == 0,
            self.depths().len() > 0 ==> r == self.depths().last(),
    {
        let n = self.depth_stack.len();
        if n == 0 {
            0
        } else {
            self.depth_stack[n - 1]
        }
    }

    /// Counts one more open brace in the innermost context.
    fn increment_depth(&mut self)
        requires
            old(self).wf(),
        ensures
            final(self).wf(),
            final(self).modes() == old(self).modes(),
            final(self).delimiters() == old(self).delimiters(),
            old(self).depths().len() == 0 ==> final(self).depths() == old(self).depths(),
            old(self).depths().len() > 0 && old(self).depths().last() < usize::MAX ==> final(self).depths()
                == old(self).depths().update(old(self).depths().len() - 1, (old(self).depths().last() + 1) as usize),
            old(self).depths().len() > 0 && old(self).depths().last() == usize::MAX ==> final(self).depths()
                == old(self).depths(),
            final(self).depths().len() == old(self).depths().len(),
            final(self).last() == old(self).last(),
            final(self).string_interp() == old(self).string_interp(),
            final(self).prompt_interp() == old(self).prompt_interp(),
            final(self).shell_interp() == old(self).shell_interp(),
            final(self).shell_mode() == old(self).shell_mode(),
    {
        let n = self.depth_stack.len();
        if n > 0 {
            let d = self.depth_stack[n - 1];
            if d < usize::MAX {
                self.depth_stack.set(n - 1, d + 1);
            }
        }
    }

    /// Counts one closed brace in the innermost context (never below 0) and
    /// gives back the new depth, or 0 when there is no context.
    fn decrement_depth(&mut self) -> (r: usize)
        requires
            old(self).wf(),
        ensures
            final(self).wf(),
            final(self).modes() == old(self).modes(),
            final(self).delimiters() == old(self).delimiters(),
            final(self).depths().len() == old(self).depths().len(),
            old(self).depths().len() == 0 ==> r == 0 && final(self).depths() == old(self).depths(),
            old(self).depths().len() > 0 ==> r == (if old(self).depths().last() > 0 {
                old(self).depths().last() - 1
            } else {
                0
            }) && final(self).depths() == old(self).depths().update(old(self).depths().len() - 1, r),
            final(self).last() == old(self).last(),
            final(self).string_interp() == old(self).string_interp(),
            final(self).prompt_interp() == old(self).prompt_interp(),
            final(self).shell_interp() == old(self).shell_interp(),
            final(self).shell_mode() == old(self).shell_mode(),
    {
        let n = self.depth_stack.len();
        if n > 0 {
            let d = self.depth_stack[n - 1];
            let nd = if d > 0 { d - 1 } else { 0 };
            self.depth_stack.set(n - 1, nd);
            nd
        } else {
            0
        }
    }

    /// The mode of the innermost enclosing context.
    fn top_mode(&self) -> (r: Option<Mode>)
        ensures
            self.modes().len() == 0 ==> r is None,
            self.modes().len() > 0 ==> r == Some(self.modes().last()),
    {
        let n = self.mode_stack.len();
        if n == 0 {
            None
        } else {
            Some(self.mode_stack[n - 1])
        }
    }

    /// The innermost context is closed by a parenthesis.
    fn top_is_paren(&self) -> (r: bool)
        ensures
            r == (self.delimiters().len() > 0 && self.delimiters().last() == DelimiterType::Paren),
    {
        let n = self.delimiter_stack.len();
        n > 0 && self.delimiter_stack[n - 1] == DelimiterType::Paren
    }

    /// The state change for an opening brace read in `mode`.
    fn on_lbrace(&mut self, mode: Mode) -> (r: Mode)
        requires
            old(self).wf(),
        ensures
            final(self).wf(),
            final(self)@ == step_lbrace(old(self)@, mode).0,
            r == step_lbrace(old(self)@, mode).1,
    {
        let mut next = mode;
        match self.last_token {
            Some(Rule::Think) | Some(Rule::Ask) => {
                self.push_mode(Mode::Prompt, DelimiterType::Brace);
                next = Mode::Prompt;
            },
            Some(Rule::Do) if mode == Mode::Prompt => {
                self.push_mode(Mode::Code, DelimiterType::Brace);
                next = Mode::Code;
            },
            Some(Rule::Dollar) if self.in_string_interpolation => {
                // `${expr}` in a string: stay in code mode
                self.push_mode(Mode::Code, DelimiterType::Brace);
            },
            Some(Rule::Dollar) if self.in_prompt_interpolation => {
                // `${expr}` in a prompt: stay in code mode
                self.push_mode(Mode::Code, DelimiterType::Brace);
            },
            Some(Rule::Dollar) if mode == Mode::Shell || self.in_shell_mode => {
                // `${expr}` in a shell command: code mode for the expression
                self.in_shell_interpolation = true;
                self.push_mode(Mode::Code, DelimiterType::Brace);
                next = Mode::Code;
            },
            _ => {
                // A nested brace
                self.increment_depth();
            },
        }
        self.last_token = None;
        next
    }

    /// The state change for a closing parenthesis read in `mode`.
    fn on_rparen(&mut self, mode: Mode) -> (r: Mode)
        requires
            old(self).wf(),
        ensures
            final(self).wf(),
            final(self)@ == step_rparen(old(self)@, mode).0,
            r == step_rparen(old(self)@, mode).1,
    {
        let mut next = mode;
        if self.in_shell_mode && self.top_is_paren() {
            // `)` closes a shell command
            let depth = self.decrement_depth();
            if depth == 0 {
                if let Some(_) = self.pop_mode() {
                    self.in_shell_mode = false;
                    match self.top_mode() {
                        Some(parent) => {
                            next = parent;
                        },
                        None => {
                            if self.in_string_interpolation {
                                self.in_string_interpolation = false;
                                next = Mode::InString;
                            } else if self.in_prompt_interpolation {
                                self.in_prompt_interpolation = false;
                                next = Mode::Prompt;
                            } else {
                                next = Mode::Code;
                            }
                        },
                    }
                }
            }
        } else if self.in_string_interpolation || self.in_prompt_interpolation {
            // Only `)` closing `$(...)` changes state
            if self.top_is_paren() {
                let depth = self.decrement_depth();
                if depth == 0 {
                    if let Some(_) = self.pop_mode() {
                        match self.top_mode() {
                            Some(parent) => {
                                next = parent;
                            },
                            None => {
                                if self.in_string_interpolation {
                                    self.in_string_interpolation = false;
                                    next = Mode::InString;
                                } else if self.in_prompt_interpolation {
                                    self.in_prompt_interpolation = false;
                                    next = Mode::Prompt;
                                }
                            },
                        }
                    }
                }
            }
        }
        self.last_token = None;
        next
    }

    /// The state change for a closing brace read in `mode`.
    fn on_rbrace(&mut self, mode: Mode) -> (r: Mode)
        requires
            old(self).wf(),
        ensures
            final(self).wf(),
            final(self)@ == step_rbrace(old(self)@, mode).0,
            r == step_rbrace(old(self)@, mode).1,
    {
        let mut next = mode;
        let depth = self.decrement_depth();
        if depth == 0 {
            if let Some(_) = self.pop_mode() {
                match self.top_mode() {
                    Some(parent) => {
                        // Closing an interpolation or block inside another context
                        if parent == Mode::InString && self.in_string_interpolation {
                            self.in_string_interpolation = false;
                        } else if parent == Mode::Prompt && self.in_prompt_interpolation {
                            self.in_prompt_interpolation = false;
                        } else if parent == Mode::Shell && self.in_shell_interpolation {
                            self.in_shell_interpolation = false;
                        }
                        next = parent;
                    },
                    None => {
                        if self.in_string_interpolation {
                            self.in_string_interpolation = false;
                            next = Mode::InString;
                        } else if self.in_prompt_interpolation {
                            self.in_prompt_interpolation = false;
                            next = Mode::Prompt;
                        } else if self.in_shell_interpolation {
                            self.in_shell_interpolation = false;
                            next = Mode::Shell;
                        } else {
                            next = Mode::Code;
                        }
                    },
                }
            }
        }
        self.last_token = None;
        next
    }

    fn last_is(&self, rule: Rule) -> (r: bool)
        ensures
            r == (self.last() == Some(rule)),
    {
        match self.last_token {
            Some(t) => t == rule,
            None => false,
        }
    }
}

impl Default for LexerContext {
    fn default() -> (r: Self)
        ensures
            r.wf(),
            r.modes().len() == 0,
            r.last() is None,
    {
        Self::new()
    }
}

/// The state of a lexer context as plain values.
#[verifier::ext_equal]
pub struct ContextView {
    /// The enclosing modes, innermost last.
    pub modes: Seq<Mode>,
    /// The open-brace depth of each enclosing context.
    pub depths: Seq<usize>,
    /// What closes each enclosing context.
    pub delimiters: Seq<DelimiterType>,
    /// The last significant token seen.
    pub last: Option<Rule>,
    /// Inside an interpolation in a string.
    pub string_interp: bool,
    /// Inside an interpolation in a prompt.
    pub prompt_interp: bool,
    /// Inside `${...}` within a shell command.
    pub shell_interp: bool,
    /// Inside a shell command.
    pub shell_mode: bool,
}

impl ContextView {
    /// The same state with `l` as the last significant token.
    pub open spec fn with_last(self, l: Option<Rule>) -> ContextView {
        ContextView { last: l, ..self }
    }

    /// The state with a nested context of mode `m`, closed by `d`, at brace
    /// depth 1.
    pub open spec fn pushed(self, m: Mode, d: DelimiterType) -> ContextView {
        ContextView {
            modes: self.modes.push(m),
            depths: self.depths.push(1),
            delimiters: self.delimiters.push(d),
            ..self
        }
    }

    /// The state without its innermost context (unchanged when there is none).
    pub open spec fn popped(self) -> ContextView {
        if self.modes.len() == 0 {
            self
        } else {
            ContextView {
                modes: self.modes.drop_last(),
                depths: self.depths.drop_last(),
                delimiters: self.delimiters.drop_last(),
                ..self
            }
        }
    }

    /// The mode of the innermost context, or `m` when there is none.
    pub open spec fn parent_or(self, m: Mode) -> Mode {
        if self.modes.len() == 0 {
            m
        } else {
            self.modes.last()
        }
    }

    /// The innermost context is closed by a parenthesis.
    pub open spec fn top_is_paren(self) -> bool {
        self.delimiters.len() > 0 && self.delimiters.last() == DelimiterType::Paren
    }

    /// The brace depth of the innermost context after one closing brace
    /// (never below 0), or 0 when there is no context.
    pub open spec fn lowered_depth(self) -> usize {
        if self.depths.len() == 0 {
            0
        } else if self.depths.last() > 0 {
            (self.depths.last() - 1) as usize
        } else {
            0
        }
    }

    /// The state after one closing brace in the innermost context.
    pub open spec fn lowered(self) -> ContextView {
        if self.depths.len() == 0 {
            self
        } else {
            ContextView {
                depths: self.depths.update(self.depths.len() - 1, self.lowered_depth()),
                ..self
            }
        }
    }

    /// The state after one more open brace in the innermost context (a depth
    /// at the top of `usize` stays).
    pub open spec fn raised(self) -> ContextView {
        if self.depths.len() == 0 || self.depths.last() == usize::MAX {
            self
        } else {
            ContextView {
                depths: self.depths.update(self.depths.len() - 1, (self.depths.last() + 1) as usize),
                ..self
            }
        }
    }

    /// After an interpolation closed with no enclosing context: back to the
    /// string or prompt it sat in (clearing that flag), else to the shell
    /// command if `to_shell`, else to `fallback`.
    pub open spec fn resume(self, fallback: Mode, to_shell: bool) -> (ContextView, Mode) {
        if self.string_interp {
            (ContextView { string_interp: false, ..self }, Mode::InString)
        } else if self.prompt_interp {
            (ContextView { prompt_interp: false, ..self }, Mode::Prompt)
        } else if to_shell && self.shell_interp {
            (ContextView { shell_interp: false, ..self }, Mode::Shell)
        } else {
            (self, fallback)
        }
    }
}

/// The state after an opening brace: a prompt after `think` or `ask`, code
/// after `do` in a prompt or after `$` in an interpolation, else one more
/// level of nesting.
pub open spec fn step_lbrace(c: ContextView, mode: Mode) -> (ContextView, Mode) {
    if c.last == Some(Rule::Think) || c.last == Some(Rule::Ask) {
        (c.pushed(Mode::Prompt, DelimiterType::Brace).with_last(None), Mode::Prompt)
    } else if c.last == Some(Rule::Do) && mode == Mode::Prompt {
        (c.pushed(Mode::Code, DelimiterType::Brace).with_last(None), Mode::Code)
    } else if c.last == Some(Rule::Dollar) && (c.string_interp || c.prompt_interp) {
        (c.pushed(Mode::Code, DelimiterType::Brace).with_last(None), mode)
    } else if c.last == Some(Rule::Dollar) && (mode == Mode::Shell || c.shell_mode) {
        (
            ContextView { shell_interp: true, ..c }.pushed(Mode::Code, DelimiterType::Brace).with_last(
                None,
            ),
            Mode::Code,
        )
    } else {
        (c.raised().with_last(None), mode)
    }
}

/// The state after a closing parenthesis: it may end a shell command or an
/// interpolation opened by `$(`.
pub open spec fn step_rparen(c: ContextView, mode: Mode) -> (ContextView, Mode) {
    if c.shell_mode && c.top_is_paren() {
        let c1 = c.lowered();
        if c.lowered_depth() == 0 && c1.modes.len() > 0 {
            let c2 = ContextView { shell_mode: false, ..c1.popped() };
            let (c3, next) = if c2.modes.len() > 0 {
                (c2, c2.modes.last())
            } else {
                c2.resume(Mode::Code, false)
            };
            (c3.with_last(None), next)
        } else {
            (c1.with_last(None), mode)
        }
    } else if (c.string_interp || c.prompt_interp) && c.top_is_paren() {
        let c1 = c.lowered();
        if c.lowered_depth() == 0 && c1.modes.len() > 0 {
            let c2 = c1.popped();
            let (c3, next) = if c2.modes.len() > 0 {
                (c2, c2.modes.last())
            } else {
                c2.resume(mode, false)
            };
            (c3.with_last(None), next)
        } else {
            (c1.with_last(None), mode)
        }
    } else {
        (c.with_last(None), mode)
    }
}

/// The state after a closing brace: when it closes the innermost context,
/// back to the enclosing one (leaving the interpolation that it closed).
pub open spec fn step_rbrace(c: ContextView, mode: Mode) -> (ContextView, Mode) {
    let c1 = c.lowered();
    if c.lowered_depth() == 0 && c1.modes.len() > 0 {
        let c2 = c1.popped();
        let (c3, next) = if c2.modes.len() > 0 {
            let p = c2.modes.last();
            (
                if p == Mode::InString && c2.string_interp {
                    ContextView { string_interp: false, ..c2 }
                } else if p == Mode::Prompt && c2.prompt_interp {
                    ContextView { prompt_interp: false, ..c2 }
                } else if p == Mode::Shell && c2.shell_interp {
                    ContextView { shell_interp: false, ..c2 }
                } else {
                    c2
                },
                p,
            )
        } else {
            c2.resume(Mode::Code, true)
        };
        (c3.with_last(None), next)
    } else {
        (c1.with_last(None), mode)
    }
}

/// The lexer's state machine: the context after a token of kind `rule` was
/// read in `mode`, and the mode in which the next token is read.
pub open spec fn lexer_step(c: ContextView, mode: Mode, rule: Rule) -> (ContextView, Mode) {
    match rule {
        Rule::StringStart => (
            c.pushed(Mode::InString, DelimiterType::Brace).with_last(None),
            Mode::InString,
        ),
        Rule::StringEnd => {
            let c1 = c.popped();
            (
                ContextView { string_interp: false, ..c1 }.with_last(None),
                if c.modes.len() > 0 {
                    c1.parent_or(Mode::Code)
                } else {
                    mode
                },
            )
        },
        Rule::Dollar => if c.last == Some(Rule::LParen) && mode == Mode::Code {
            (
                ContextView { shell_mode: true, ..c.pushed(Mode::Shell, DelimiterType::Paren) }.with_last(
                    None,
                ),
                Mode::Shell,
            )
        } else if mode == Mode::InString {
            (ContextView { string_interp: true, ..c }.with_last(Some(Rule::Dollar)), Mode::Code)
        } else if mode == Mode::Prompt {
            (ContextView { prompt_interp: true, ..c }.with_last(Some(Rule::Dollar)), Mode::Code)
        } else {
            (c.with_last(Some(Rule::Dollar)), mode)
        },
        Rule::Whitespace => if c.last == Some(Rule::Dollar) && mode == Mode::Code {
            (
                ContextView { shell_mode: true, ..c.pushed(Mode::Shell, DelimiterType::Brace) }.with_last(
                    None,
                ),
                Mode::Shell,
            )
        } else {
            (c, mode)
        },
        Rule::Identifier => if c.string_interp && c.last == Some(Rule::Dollar) {
            (ContextView { string_interp: false, ..c }.with_last(None), Mode::InString)
        } else if c.prompt_interp && c.last == Some(Rule::Dollar) {
            (ContextView { prompt_interp: false, ..c }.with_last(None), Mode::Prompt)
        } else {
            (c.with_last(None), mode)
        },
        Rule::Think | Rule::Ask | Rule::Do => (c.with_last(Some(rule)), mode),
        Rule::LBrace => step_lbrace(c, mode),
        Rule::LParen => if c.last == Some(Rule::Dollar) {
            if !c.string_interp || c.prompt_interp {
                (
                    ContextView { shell_mode: true, ..c.pushed(Mode::Shell, DelimiterType::Paren) }.with_last(
                        None,
                    ),
                    Mode::Shell,
                )
            } else {
                (c.pushed(Mode::Code, DelimiterType::Paren).with_last(None), mode)
            }
        } else if mode == Mode::Code {
            (c.with_last(Some(Rule::LParen)), mode)
        } else {
            (c.with_last(None), mode)
        },
        Rule::RParen => step_rparen(c, mode),
        Rule::RBrace => step_rbrace(c, mode),
        Rule::Newline => if c.shell_mode {
            if c.last != Some(Rule::ShellBackslash) {
                let c1 = c.popped();
                (
                    ContextView { shell_mode: false, ..c1 }.with_last(None),
                    if c.modes.len() > 0 {
                        c1.parent_or(Mode::Code)
                    } else {
                        mode
                    },
                )
            } else {
                (c.with_last(None), mode)
            }
        } else {
            (c, mode)
        },
        _ => (c.with_last(None), mode),
    }
}

/// A string closes back into the context it was opened in: after its
/// opening and closing quotes the lexer reads in the mode of the enclosing
/// context (code at the top level), and the context is as before, but that
/// the last token is forgotten and no string interpolation is open.
pub proof fn law_string_round_trip(c: ContextView, m: Mode)
    ensures
        ({
            let s1 = lexer_step(c, m, Rule::StringStart);
            let s2 = lexer_step(s1.0, s1.1, Rule::StringEnd);
            &&& s1.1 == Mode::InString
            &&& s2.1 == c.parent_or(Mode::Code)
            &&& s2.0 == ContextView { string_interp: false, ..c.with_last(None) }
        }),
{
    let s1 = lexer_step(c, m, Rule::StringStart);
    assert(s1.0.modes.drop_last() =~= c.modes);
    assert(s1.0.depths.drop_last() =~= c.depths);
    assert(s1.0.delimiters.drop_last() =~= c.delimiters);
}

/// A prompt block closes back into the context it was opened in: after
/// `think {` the lexer reads prompt text, and after the matching `}` it
/// reads in the mode of the enclosing context (code at the top level), with
/// the context as before but for the last token, where no interpolation was
/// open.
pub proof fn law_prompt_round_trip(c: ContextView, m: Mode)
    requires
        !c.string_interp,
        !c.prompt_interp,
        !c.shell_interp,
    ensures
        ({
            let s1 = lexer_step(c, m, Rule::Think);
            let s2 = lexer_step(s1.0, s1.1, Rule::LBrace);
            let s3 = lexer_step(s2.0, s2.1, Rule::RBrace);
            &&& s2.1 == Mode::Prompt
            &&& s3.1 == c.parent_or(Mode::Code)
            &&& s3.0 == c.with_last(None)
        }),
{
    let s1 = lexer_step(c, m, Rule::Think);
    let s2 = lexer_step(s1.0, s1.1, Rule::LBrace);
    let low = s2.0.lowered();
    assert(low.modes.drop_last() =~= c.modes);
    assert(low.depths.drop_last() =~= c.depths);
    assert(low.delimiters.drop_last() =~= c.delimiters);
}

impl View for LexerContext {
    type V = ContextView;

    closed spec fn view(&self) -> ContextView {
        ContextView {
            modes: self.mode_stack@,
            depths: self.depth_stack@,
            delimiters: self.delimiter_stack@,
            last: self.last_token,
            string_interp: self.in_string_interpolation,
            prompt_interp: self.in_prompt_interpolation,
            shell_interp: self.in_shell_interpolation,
            shell_mode: self.in_shell_mode,
        }
    }
}

/// The state transitions of the lexer: given the current mode and the kind
/// of token just read, updates the context and chooses the mode for the
/// next token.
pub struct PatchworkLexerDriver;

impl PatchworkLexerDriver {
    pub fn new() -> Self {
        PatchworkLexerDriver
    }

    /// Updates `context` after a token of kind `rule` was read in `mode`,
    /// and gives back the mode in which the next token is read.
    pub fn action(&self, context: &mut LexerContext, mode: Mode, rule: Rule) -> (r: Mode)
        requires
            old(context).wf(),
        ensures
            final(context).wf(),
            final(context)@ == lexer_step(old(context)@, mode, rule).0,
            r == lexer_step(old(context)@, mode, rule).1,
    {
        match rule {
            Rule::StringStart => {
                // Entering a string
                context.push_mode(Mode::InString, DelimiterType::Brace);
                context.last_token = None;
                Mode::InString
            },
            Rule::StringEnd => {
                // Leaving a string: back to the enclosing mode
                let mut next = mode;
                if let Some(_) = context.pop_mode() {
                    next = match context.top_mode() {
                        Some(parent) => parent,
                        None => Mode::Code,
                    };
                }
                context.last_token = None;
                context.in_string_interpolation = false;
                next
            },
            Rule::Dollar => {
                if context.last_is(Rule::LParen) && mode == Mode::Code {
                    // `($` starts a shell expression, closed by the matching `)`
                    context.push_mode(Mode::Shell, DelimiterType::Paren);
                    context.in_shell_mode = true;
                    context.last_token = None;
                    Mode::Shell
                } else {
                    let next = match mode {
                        Mode::InString => {
                            context.in_string_interpolation = true;
                            Mode::Code
                        },
                        Mode::Prompt => {
                            context.in_prompt_interpolation = true;
                            Mode::Code
                        },
                        _ => mode,
                    };
                    context.last_token = Some(rule);
                    next
                }
            },
            Rule::Whitespace => {
                if context.last_is(Rule::Dollar) && mode == Mode::Code {
                    // `$` followed by whitespace starts a shell command, closed at end of line
                    context.push_mode(Mode::Shell, DelimiterType::Brace);
                    context.in_shell_mode = true;
                    context.last_token = None;
                    Mode::Shell
                } else {
                    mode
                }
            },
            Rule::Identifier => {
                if context.in_string_interpolation && context.last_is(Rule::Dollar) {
                    // `$name` in a string: back to the string after the name
                    context.in_string_interpolation = false;
                    context.last_token = None;
                    Mode::InString
                } else if context.in_prompt_interpolation && context.last_is(Rule::Dollar) {
                    // `$name` in a prompt: back to the prompt after the name
                    context.in_prompt_interpolation = false;
                    context.last_token = None;
                    Mode::Prompt
                } else {
                    context.last_token = None;
                    mode
                }
            },
            Rule::Think | Rule::Ask | Rule::Do => {
                context.last_token = Some(rule);
                mode
            },
            Rule::LBrace => context.on_lbrace(mode),
            Rule::LParen => {
                if context.last_is(Rule::Dollar) {
                    let mut next = mode;
                    if !context.in_string_interpolation || context.in_prompt_interpolation {
                        // `$(command)`: a shell command, closed by the matching `)`
                        context.push_mode(Mode::Shell, DelimiterType::Paren);
                        context.in_shell_mode = true;
                        next = Mode::Shell;
                    } else {
                        // `$(expr)` inside a string: an expression
                        context.push_mode(Mode::Code, DelimiterType::Paren);
                    }
                    context.last_token = None;
                    next
                } else if mode == Mode::Code {
                    // Remember `(` to detect `($`
                    context.last_token = Some(rule);
                    mode
                } else {
                    context.last_token = None;
                    mode
                }
            },
            Rule::RParen => context.on_rparen(mode),
            Rule::RBrace => context.on_rbrace(mode),
            Rule::Newline => {
                if context.in_shell_mode {
                    // End of line ends a shell command, unless escaped by `\`
                    let mut next = mode;
                    if !context.last_is(Rule::ShellBackslash) {
                        if let Some(_) = context.pop_mode() {
                            next = match context.top_mode() {
                                Some(parent) => parent,
                                None => Mode::Code,
                            };
                        }
                        context.in_shell_mode = false;
                    }
                    context.last_token = None;
                    next
                } else {
                    mode
                }
            },
            _ => {
                context.last_token = None;
                mode
            },
        }
    }
}

/// The start of a token's span (0 when it has none).
pub open spec fn span_start(t: PatchworkToken) -> int {
    match t.span {
        Some(s) => s.start as int,
        None => 0,
    }
}

/// The end of a token's span (0 when it has none).
pub open spec fn span_end(t: PatchworkToken) -> int {
    match t.span {
        Some(s) => s.end as int,
        None => 0,
    }
}

/// Token `t` is a well-formed token of the text with bytes `b`: it has a
/// span, the span lies on character starts, and its text spells a token of
/// its kind.
pub open spec fn token_ok(t: PatchworkToken, b: Seq<u8>) -> bool {
    &&& t.span is Some
    &&& 0 <= span_start(t) <= span_end(t) <= b.len()
    &&& at_char_start(b, span_start(t))
    &&& at_char_start(b, span_end(t))
    &&& lexeme_ok(t.rule, b.subrange(span_start(t), span_end(t)))
}

/// `toks` tile the bytes `b`: well-formed tokens whose spans
/// follow each other without gaps from the start of the text to its end,
/// closed by exactly one `End` token.
pub open spec fn tokens_tile(toks: Seq<PatchworkToken>, b: Seq<u8>) -> bool {
    &&& toks.len() > 0
    &&& forall|i: int| 0 <= i < toks.len() ==> token_ok(#[trigger] toks[i], b)
    &&& span_start(toks[0]) == 0
    &&& forall|i: int| 0 <= i < toks.len() - 1 ==> span_end(#[trigger] toks[i]) == span_start(toks[i + 1])
    &&& forall|i: int| 0 <= i < toks.len() - 1 ==> (#[trigger] toks[i]).rule != Rule::End
    &&& toks.last().rule == Rule::End
    &&& span_end(toks.last()) == b.len()
}

/// A token of kind `rule` spanning the bytes from `start` to `end`.
pub open spec fn token_spanning(rule: Rule, start: int, end: int) -> PatchworkToken {
    PatchworkToken { rule: rule, span: Some(Span { start: start as usize, end: end as usize }) }
}

/// A context with nothing open and nothing seen.
pub open spec fn fresh_context() -> ContextView {
    ContextView {
        modes: Seq::empty(),
        depths: Seq::empty(),
        delimiters: Seq::empty(),
        last: None,
        string_interp: false,
        prompt_interp: false,
        shell_interp: false,
        shell_mode: false,
    }
}

/// The tokens of the text with bytes `b` from `pos` on, read in `mode` with
/// context `c`: each token is read where the one before it ended, in the
/// mode that the state machine chose after it, and `End` closes the text.
pub open spec fn tokens_from(b: Seq<u8>, pos: int, mode: Mode, c: ContextView) -> Seq<PatchworkToken>
    decreases b.len() - pos,
{
    if pos < 0 || pos >= b.len() {
        seq![token_spanning(Rule::End, pos, pos)]
    } else {
        let t = token_at(b, pos, mode);
        let next = lexer_step(c, mode, t.0);
        if t.1 <= pos || t.1 > b.len() {
            Seq::empty()
        } else {
            seq![token_spanning(t.0, pos, t.1)] + tokens_from(b, t.1, next.1, next.0)
        }
    }
}

/// The tokens of the text with bytes `b`, from its start in code mode.
pub open spec fn lex_tokens(b: Seq<u8>) -> Seq<PatchworkToken> {
    tokens_from(b, 0, Mode::Code, fresh_context())
}

/// High-level wrapper for the patchwork lexer: reads tokens one at a time
/// from a text.
pub struct PatchworkLexer<'a> {
    text: &'a str,
    pos: usize,
    mode: Mode,
    done: bool,
    driver: PatchworkLexerDriver,
}

impl<'a> PatchworkLexer<'a> {
    /// The text being lexed.
    pub closed spec fn text(&self) -> &'a str {
        self.text
    }

    /// How far the lexer has read, in bytes.
    pub closed spec fn pos(&self) -> int {
        self.pos as int
    }

    /// The mode in which the next token is read.
    pub closed spec fn mode(&self) -> Mode {
        self.mode
    }

    /// The `End` token has been produced.
    pub closed spec fn done(&self) -> bool {
        self.done
    }

    /// The position lies within the text, at the start of a character.
    pub closed spec fn wf(&self) -> bool {
        &&& self.pos <= self.text.spec_bytes().len()
        &&& at_char_start(self.text.spec_bytes(), self.pos as int)
    }

    /// The number of lexing steps that remain at most.
    pub open spec fn remaining(&self) -> int {
        self.text().spec_bytes().len() - self.pos() + (if self.done() { 0int } else { 1int })
    }

    /// A lexer at the start of `input`.
    pub fn try_new(input: &'a str) -> (r: Self)
        ensures
            r.wf(),
            r.text() == input,
            r.pos() == 0,
            r.mode() == Mode::Code,
            !r.done(),
    {
        proof {
            lemma_str_bytes_valid(input);
            if input.spec_bytes().len() > 0 {
                lemma_first_not_continuation(input.spec_bytes());
            }
        }
        PatchworkLexer { text: input, pos: 0, mode: Mode::Code, done: false, driver: PatchworkLexerDriver }
    }

    /// Reads the next token, updating `context`; `None` once the `End`
    /// token has been given.
    pub fn try_next_with_context(&mut self, context: &mut LexerContext) -> (r: Option<PatchworkToken>)
        requires
            old(self).wf(),
            old(context).wf(),
        ensures
            final(self).wf(),
            final(context).wf(),
            final(self).text() == old(self).text(),
            old(self).done() ==> r is None && final(self).pos() == old(self).pos() && final(self).done(),
            !old(self).done() ==> r is Some,
            r matches Some(t) ==> {
                &&& token_ok(t, old(self).text().spec_bytes())
                &&& span_start(t) == old(self).pos()
                &&& span_end(t) == final(self).pos()
                &&& final(self).remaining() < old(self).remaining()
                &&& (t.rule == Rule::End <==> final(self).done())
                &&& (t.rule == Rule::End ==> final(self).pos() == old(self).text().spec_bytes().len())
            },
            !old(self).done() ==> tokens_from(
                old(self).text().spec_bytes(),
                old(self).pos(),
                old(self).mode(),
                old(context)@,
            ).len() >= 1,
            !old(self).done() ==> r == Some(
                tokens_from(old(self).text().spec_bytes(), old(self).pos(), old(self).mode(), old(context)@)[0],
            ),
            !old(self).done() && !final(self).done() ==> tokens_from(
                old(self).text().spec_bytes(),
                final(self).pos(),
                final(self).mode(),
                final(context)@,
            ) == tokens_from(old(self).text().spec_bytes(), old(self).pos(), old(self).mode(), old(context)@).drop_first(),
            !old(self).done() && final(self).done() ==> tokens_from(
                old(self).text().spec_bytes(),
                old(self).pos(),
                old(self).mode(),
                old(context)@,
            ).len() == 1,
    {
        if self.done {
            return None;
        }
        let b = self.text.as_bytes();
        let n = b.len();
        if self.pos >= n {
            let p = self.pos;
            self.done = true;
            self.mode = self.driver.action(context, self.mode, Rule::End);
            return Some(PatchworkToken::new(Rule::End, Some(Span { start: p, end: p })));
        }
        proof {
            lemma_str_bytes_valid(self.text);
        }
        let start = self.pos;
        let ghost tf = tokens_from(b@, start as int, self.mode, context@);
        let (rule, end) = scan_token(b, start, self.mode);
        self.mode = self.driver.action(context, self.mode, rule);
        self.pos = end;
        proof {
            let rest = tokens_from(b@, end as int, self.mode, context@);
            assert(tf == seq![token_spanning(rule, start as int, end as int)] + rest);
            assert(tf.drop_first() =~= rest);
        }
        Some(PatchworkToken::new(rule, Some(Span { start, end })))
    }
}

/// Creates a lexer for a string.
pub fn lex_str<'a>(input: &'a str) -> (r: PatchworkLexer<'a>)
    ensures
        r.wf(),
        r.text() == input,
        r.pos() == 0,
        r.mode() == Mode::Code,
        !r.done(),
{
    PatchworkLexer::try_new(input)
}

/// Lexes a whole text: the tokens, in order, ending with `End`.
pub fn tokenize(input: &str) -> (toks: Vec<PatchworkToken>)
    ensures
        tokens_tile(toks@, input.spec_bytes()),
        toks@ == lex_tokens(input.spec_bytes()),
{
    let ghost b = input.spec_bytes();
    let mut lexer = lex_str(input);
    let mut context = LexerContext::new();
    let mut toks: Vec<PatchworkToken> = Vec::new();
    proof {
        assert(toks@ + tokens_from(b, 0, Mode::Code, context@) =~= lex_tokens(b));
    }
    loop
        invariant
            lexer.wf(),
            context.wf(),
            lexer.text() == input,
            b == input.spec_bytes(),
            forall|i: int| 0 <= i < toks.len() ==> token_ok(#[trigger] toks@[i], b),
            toks.len() == 0 ==> lexer.pos() == 0 && !lexer.done(),
            toks.len() > 0 ==> span_start(toks@[0]) == 0 && span_end(toks@.last()) == lexer.pos(),
            forall|i: int| 0 <= i < toks.len() - 1 ==> span_end(#[trigger] toks@[i]) == span_start(toks@[i + 1]),
            forall|i: int| 0 <= i < toks.len() ==> ((#[trigger] toks@[i]).rule == Rule::End <==> (lexer.done() && i == toks.len() - 1)),
            lexer.done() ==> toks.len() > 0 && lexer.pos() == b.len(),
            !lexer.done() ==> toks@ + tokens_from(b, lexer.pos(), lexer.mode(), context@) == lex_tokens(b),
            lexer.done() ==> toks@ == lex_tokens(b),
        ensures
            tokens_tile(toks@, b),
            toks@ == lex_tokens(b),
        decreases lexer.remaining(),
    {
        let ghost old_toks = toks@;
        let ghost old_remaining = lexer.remaining();
        let ghost tf = tokens_from(b, lexer.pos(), lexer.mode(), context@);
        match lexer.try_next_with_context(&mut context) {
            Some(t) => {
                toks.push(t);
                proof {
                    assert(toks@ == old_toks.push(t));
                    if lexer.done() {
                        assert(tf =~= seq![t]);
                        assert(toks@ =~= old_toks + tf);
                    } else {
                        assert(toks@ + tf.drop_first() =~= old_toks + tf);
                    }
                }
            },
            None => {
                break;
            },
        }
    }
    toks
}

/// The byte offset of a line and column (in characters) of `input`: the
/// start of the line, moved `column` characters on (not past the end of
/// the text); past the last line, the start of the last line.
pub fn position_to_offset(input: &str, line: usize, column: usize) -> (r: usize)
    ensures
        r == (if line < line_starts_of(input.spec_bytes()).len() {
            chars_ahead(input.spec_bytes(), line_starts_of(input.spec_bytes())[line as int] as int, column as nat)
        } else {
            line_starts_of(input.spec_bytes()).last() as int
        }),
{
    let starts = build_line_starts(input);
    let b = input.as_bytes();
    proof {
        lemma_line_starts_bounded(b@);
    }
    if line < starts.len() {
        walk_chars(b, starts[line], column)
    } else {
        starts[starts.len() - 1]
    }
}

/// Line starts lie within the text, and there is at least one.
proof fn lemma_line_starts_bounded(b: Seq<u8>)
    ensures
        line_starts_of(b).len() >= 1,
        forall|i: int| 0 <= i < line_starts_of(b).len() ==> #[trigger] line_starts_of(b)[i] <= b.len(),
    decreases b.len(),
{
    if b.len() > 0 {
        lemma_line_starts_bounded(b.drop_last());
    }
}

} // verus!
