//! Parser tokens: lexer tokens paired with the text they were read from.
use vstd::prelude::*;
use vstd::string::StringSliceAdditionalSpecFns;
use crate::strutil::{at_char_start, slice_bytes, lemma_after_ascii, lemma_str_bytes_valid, chars_ahead, walk_chars};
use crate::lexer::{Rule, PatchworkToken, lexeme_ok, token_ok, span_start, span_end, tokenize, lex_tokens};

verus! {

/// Parser token carrying the text it was read from.
#[derive(Debug, Clone, Copy, PartialEq, Eq)]
pub enum ParserToken<'input> {
    Whitespace(&'input str),
    Newline(&'input str),
    StringStart,
    StringEnd,
    StringText(&'input str),
    SingleQuoteString(&'input str),
    Dollar,
    Think,
    Ask,
    Do,
    Import,
    Export,
    From,
    Var,
    If,
    Else,
    For,
    While,
    Await,
    Task,
    Worker,
    Trait,
    Skill,
    Fun,
    Default,
    Type,
    Return,
    Succeed,
    Fail,
    Throw,
    Break,
    SelfKw,
    In,
    Underscore,
    True,
    False,
    Number(&'input str),
    Identifier(&'input str),
    Ellipsis,
    Arrow,
    Eq,
    Neq,
    Lte,
    Gte,
    AndAnd,
    OrOr,
    PlusPlus,
    MinusMinus,
    LBrace,
    RBrace,
    LParen,
    RParen,
    LBracket,
    RBracket,
    Semicolon,
    Comma,
    Colon,
    At,
    Lt,
    Gt,
    Plus,
    Minus,
    Star,
    Slash,
    Percent,
    Bang,
    Question,
    Assign,
    Pipe,
    Ampersand,
    Dot,
    PromptText(&'input str),
    PromptEscape(&'input str),
    Comment(&'input str),
    ShellArg(&'input str),
    ShellRedirectOut,
    ShellRedirectAppend,
    ShellRedirectIn,
    ShellRedirectErr,
    ShellRedirectErrToOut,
    ShellPipe,
    ShellAnd,
    ShellOr,
    ShellBackground,
    ShellAssign,
    ShellBackslash,
    End,
    ErrorAny(&'input str),
}

/// `tok` is the parser token for a lexer token of kind `rule` whose text has bytes `t`.
pub open spec fn converts_to(rule: Rule, t: Seq<u8>, tok: ParserToken) -> bool {
    match rule {
        Rule::Whitespace => tok matches ParserToken::Whitespace(s) && s.spec_bytes() == t,
        Rule::Newline => tok matches ParserToken::Newline(s) && s.spec_bytes() == t,
        Rule::StringText => tok matches ParserToken::StringText(s) && s.spec_bytes() == t,
        Rule::SingleQuoteString => tok matches ParserToken::SingleQuoteString(s) && s.spec_bytes() == t,
        Rule::Number => tok matches ParserToken::Number(s) && s.spec_bytes() == t,
        Rule::Identifier => tok matches ParserToken::Identifier(s) && s.spec_bytes() == t,
        Rule::PromptText => tok matches ParserToken::PromptText(s) && s.spec_bytes() == t,
        Rule::Comment => tok matches ParserToken::Comment(s) && s.spec_bytes() == t,
        Rule::ShellArg => tok matches ParserToken::ShellArg(s) && s.spec_bytes() == t,
        Rule::ErrorAny => tok matches ParserToken::ErrorAny(s) && s.spec_bytes() == t,
        Rule::PromptEscape => tok matches ParserToken::PromptEscape(s) && s.spec_bytes() == t.subrange(2, t.len() - 1),
        Rule::StringStart => tok == ParserToken::StringStart,
        Rule::StringEnd => tok == ParserToken::StringEnd,
        Rule::Dollar => tok == ParserToken::Dollar,
        Rule::Think => tok == ParserToken::Think,
        Rule::Ask => tok == ParserToken::Ask,
        Rule::Do => tok == ParserToken::Do,
        Rule::Import => tok == ParserToken::Import,
        Rule::Export => tok == ParserToken::Export,
        Rule::From => tok == ParserToken::From,
        Rule::Var => tok == ParserToken::Var,
        Rule::If => tok == ParserToken::If,
        Rule::Else => tok == ParserToken::Else,
        Rule::For => tok == ParserToken::For,
        Rule::While => tok == ParserToken::While,
        Rule::Await => tok == ParserToken::Await,
        Rule::Task => tok == ParserToken::Task,
        Rule::Worker => tok == ParserToken::Worker,
        Rule::Trait => tok == ParserToken::Trait,
        Rule::Skill => tok == ParserToken::Skill,
        Rule::Fun => tok == ParserToken::Fun,
        Rule::Default => tok == ParserToken::Default,
        Rule::Type => tok == ParserToken::Type,
        Rule::Return => tok == ParserToken::Return,
        Rule::Succeed => tok == ParserToken::Succeed,
        Rule::Fail => tok == ParserToken::Fail,
        Rule::Throw => tok == ParserToken::Throw,
        Rule::Break => tok == ParserToken::Break,
        Rule::SelfKw => tok == ParserToken::SelfKw,
        Rule::In => tok == ParserToken::In,
        Rule::Underscore => tok == ParserToken::Underscore,
        Rule::True => tok == ParserToken::True,
        Rule::False => tok == ParserToken::False,
        Rule::Ellipsis => tok == ParserToken::Ellipsis,
        Rule::Arrow => tok == ParserToken::Arrow,
        Rule::Eq => tok == ParserToken::Eq,
        Rule::Neq => tok == ParserToken::Neq,
        Rule::Lte => tok == ParserToken::Lte,
        Rule::Gte => tok == ParserToken::Gte,
        Rule::AndAnd => tok == ParserToken::AndAnd,
        Rule::OrOr => tok == ParserToken::OrOr,
        Rule::PlusPlus => tok == ParserToken::PlusPlus,
        Rule::MinusMinus => tok == ParserToken::MinusMinus,
        Rule::LBrace => tok == ParserToken::LBrace,
        Rule::RBrace => tok == ParserToken::RBrace,
        Rule::LParen => tok == ParserToken::LParen,
        Rule::RParen => tok == ParserToken::RParen,
        Rule::LBracket => tok == ParserToken::LBracket,
        Rule::RBracket => tok == ParserToken::RBracket,
        Rule::Semicolon => tok == ParserToken::Semicolon,
        Rule::Comma => tok == ParserToken::Comma,
        Rule::Colon => tok == ParserToken::Colon,
        Rule::At => tok == ParserToken::At,
        Rule::Lt => tok == ParserToken::Lt,
        Rule::Gt => tok == ParserToken::Gt,
        Rule::Plus => tok == ParserToken::Plus,
        Rule::Minus => tok == ParserToken::Minus,
        Rule::Star => tok == ParserToken::Star,
        Rule::Slash => tok == ParserToken::Slash,
        Rule::Percent => tok == ParserToken::Percent,
        Rule::Bang => tok == ParserToken::Bang,
        Rule::Question => tok == ParserToken::Question,
        Rule::Assign => tok == ParserToken::Assign,
        Rule::Pipe => tok == ParserToken::Pipe,
        Rule::Ampersand => tok == ParserToken::Ampersand,
        Rule::Dot => tok == ParserToken::Dot,
        Rule::ShellRedirectOut => tok == ParserToken::ShellRedirectOut,
        Rule::ShellRedirectAppend => tok == ParserToken::ShellRedirectAppend,
        Rule::ShellRedirectIn => tok == ParserToken::ShellRedirectIn,
        Rule::ShellRedirectErr => tok == ParserToken::ShellRedirectErr,
        Rule::ShellRedirectErrToOut => tok == ParserToken::ShellRedirectErrToOut,
        Rule::ShellPipe => tok == ParserToken::ShellPipe,
        Rule::ShellAnd => tok == ParserToken::ShellAnd,
        Rule::ShellOr => tok == ParserToken::ShellOr,
        Rule::ShellBackground => tok == ParserToken::ShellBackground,
        Rule::ShellAssign => tok == ParserToken::ShellAssign,
        Rule::ShellBackslash => tok == ParserToken::ShellBackslash,
        Rule::End => tok == ParserToken::End,
    }
}

/// Converts a lexer token of kind `rule` spanning `input[start..end]` into a parser token.
pub fn convert_token<'a>(input: &'a str, rule: Rule, start: usize, end: usize) -> (tok: ParserToken<'a>)
    requires
        start <= end <= input.spec_bytes().len(),
        at_char_start(input.spec_bytes(), start as int),
        at_char_start(input.spec_bytes(), end as int),
        lexeme_ok(rule, input.spec_bytes().subrange(start as int, end as int)),
    ensures
        converts_to(rule, input.spec_bytes().subrange(start as int, end as int), tok),
{
    let text = slice_bytes(input, start, end);
    match rule {
        Rule::Whitespace => ParserToken::Whitespace(text),
        Rule::Newline => ParserToken::Newline(text),
        Rule::StringText => ParserToken::StringText(text),
        Rule::SingleQuoteString => ParserToken::SingleQuoteString(text),
        Rule::Number => ParserToken::Number(text),
        Rule::Identifier => ParserToken::Identifier(text),
        Rule::PromptText => ParserToken::PromptText(text),
        Rule::Comment => ParserToken::Comment(text),
        Rule::ShellArg => ParserToken::ShellArg(text),
        Rule::ErrorAny => ParserToken::ErrorAny(text),
        Rule::PromptEscape => {
            // `$'c'`: the escaped character is between the quotes
            let ghost b = input.spec_bytes();
            proof {
                lemma_str_bytes_valid(input);
                let t = b.subrange(start as int, end as int);
                assert(t[1] == b[start + 1]);
                assert(t[t.len() - 1] == b[end - 1]);
                lemma_after_ascii(b, start + 1);
            }
            let c = slice_bytes(input, start + 2, end - 1);
            proof {
                assert(c.spec_bytes() =~= b.subrange(start as int, end as int).subrange(2, (end - start) - 1));
            }
            ParserToken::PromptEscape(c)
        },
        Rule::StringStart => ParserToken::StringStart,
        Rule::StringEnd => ParserToken::StringEnd,
        Rule::Dollar => ParserToken::Dollar,
        Rule::Think => ParserToken::Think,
        Rule::Ask => ParserToken::Ask,
        Rule::Do => ParserToken::Do,
        Rule::Import => ParserToken::Import,
        Rule::Export => ParserToken::Export,
        Rule::From => ParserToken::From,
        Rule::Var => ParserToken::Var,
        Rule::If => ParserToken::If,
        Rule::Else => ParserToken::Else,
        Rule::For => ParserToken::For,
        Rule::While => ParserToken::While,
        Rule::Await => ParserToken::Await,
        Rule::Task => ParserToken::Task,
        Rule::Worker => ParserToken::Worker,
        Rule::Trait => ParserToken::Trait,
        Rule::Skill => ParserToken::Skill,
        Rule::Fun => ParserToken::Fun,
        Rule::Default => ParserToken::Default,
        Rule::Type => ParserToken::Type,
        Rule::Return => ParserToken::Return,
        Rule::Succeed => ParserToken::Succeed,
        Rule::Fail => ParserToken::Fail,
        Rule::Throw => ParserToken::Throw,
        Rule::Break => ParserToken::Break,
        Rule::SelfKw => ParserToken::SelfKw,
        Rule::In => ParserToken::In,
        Rule::Underscore => ParserToken::Underscore,
        Rule::True => ParserToken::True,
        Rule::False => ParserToken::False,
        Rule::Ellipsis => ParserToken::Ellipsis,
        Rule::Arrow => ParserToken::Arrow,
        Rule::Eq => ParserToken::Eq,
        Rule::Neq => ParserToken::Neq,
        Rule::Lte => ParserToken::Lte,
        Rule::Gte => ParserToken::Gte,
        Rule::AndAnd => ParserToken::AndAnd,
        Rule::OrOr => ParserToken::OrOr,
        Rule::PlusPlus => ParserToken::PlusPlus,
        Rule::MinusMinus => ParserToken::MinusMinus,
        Rule::LBrace => ParserToken::LBrace,
        Rule::RBrace => ParserToken::RBrace,
        Rule::LParen => ParserToken::LParen,
        Rule::RParen => ParserToken::RParen,
        Rule::LBracket => ParserToken::LBracket,
        Rule::RBracket => ParserToken::RBracket,
        Rule::Semicolon => ParserToken::Semicolon,
        Rule::Comma => ParserToken::Comma,
        Rule::Colon => ParserToken::Colon,
        Rule::At => ParserToken::At,
        Rule::Lt => ParserToken::Lt,
        Rule::Gt => ParserToken::Gt,
        Rule::Plus => ParserToken::Plus,
        Rule::Minus => ParserToken::Minus,
        Rule::Star => ParserToken::Star,
        Rule::Slash => ParserToken::Slash,
        Rule::Percent => ParserToken::Percent,
        Rule::Bang => ParserToken::Bang,
        Rule::Question => ParserToken::Question,
        Rule::Assign => ParserToken::Assign,
        Rule::Pipe => ParserToken::Pipe,
        Rule::Ampersand => ParserToken::Ampersand,
        Rule::Dot => ParserToken::Dot,
        Rule::ShellRedirectOut => ParserToken::ShellRedirectOut,
        Rule::ShellRedirectAppend => ParserToken::ShellRedirectAppend,
        Rule::ShellRedirectIn => ParserToken::ShellRedirectIn,
        Rule::ShellRedirectErr => ParserToken::ShellRedirectErr,
        Rule::ShellRedirectErrToOut => ParserToken::ShellRedirectErrToOut,
        Rule::ShellPipe => ParserToken::ShellPipe,
        Rule::ShellAnd => ParserToken::ShellAnd,
        Rule::ShellOr => ParserToken::ShellOr,
        Rule::ShellBackground => ParserToken::ShellBackground,
        Rule::ShellAssign => ParserToken::ShellAssign,
        Rule::ShellBackslash => ParserToken::ShellBackslash,
        Rule::End => ParserToken::End,
    }
}

/// A parser token with the byte positions of its text.
#[derive(Debug, Clone, Copy, PartialEq, Eq)]
pub struct SpannedToken<'input> {
    pub start: usize,
    pub token: ParserToken<'input>,
    pub end: usize,
}

/// Lexer tokens that the parser does not see: whitespace and comments.
pub open spec fn is_trivia(t: PatchworkToken) -> bool {
    t.rule is Whitespace || t.rule is Comment
}

/// The lexer tokens that the parser sees, in order.
pub open spec fn significant(toks: Seq<PatchworkToken>) -> Seq<PatchworkToken> {
    toks.filter(|t: PatchworkToken| !is_trivia(t))
}

/// `st` is the parser token for the lexer token `t` of the text with bytes `b`.
pub open spec fn spanned_for(st: SpannedToken, t: PatchworkToken, b: Seq<u8>) -> bool {
    &&& st.start == span_start(t)
    &&& st.end == span_end(t)
    &&& converts_to(t.rule, b.subrange(span_start(t), span_end(t)), st.token)
}

/// The tokens of a text with bytes `b` lie within it, in order, start and
/// end at characters, and each single-quoted string is enclosed in quotes.
pub open spec fn tokens_wf<'a>(t: Seq<SpannedToken<'a>>, b: Seq<u8>) -> bool {
    &&& forall|i: int|
        0 <= i < t.len() ==> #[trigger] t[i].start <= t[i].end <= b.len() && at_char_start(b, t[i].start as int)
            && at_char_start(b, t[i].end as int)
    &&& forall|i: int, j: int| 0 <= i < j < t.len() ==> #[trigger] t[i].end <= #[trigger] t[j].start
    &&& forall|i: int|
        0 <= i < t.len() && (#[trigger] t[i].token is SingleQuoteString) ==> t[i].end - t[i].start >= 2
            && b[t[i].start as int] == 39 && b[t[i].end - 1] == 39
}

/// Only a single-quoted string converts to a single-quoted string token.
proof fn lemma_quoted_rule(rule: Rule, t: Seq<u8>, tok: ParserToken)
    requires
        converts_to(rule, t, tok),
        tok is SingleQuoteString,
    ensures
        rule is SingleQuoteString,
{
}

/// Converts lexer tokens into parser tokens, dropping whitespace and comments.
pub fn adapt_tokens<'a>(input: &'a str, toks: &Vec<PatchworkToken>) -> (out: Vec<SpannedToken<'a>>)
    requires
        forall|i: int| 0 <= i < toks@.len() ==> token_ok(#[trigger] toks@[i], input.spec_bytes()),
        forall|i: int| 0 <= i < toks@.len() - 1 ==> span_end(#[trigger] toks@[i]) == span_start(toks@[i + 1]),
    ensures
        out@.len() == significant(toks@).len(),
        forall|j: int| 0 <= j < out@.len() ==> spanned_for(#[trigger] out@[j], significant(toks@)[j], input.spec_bytes()),
        tokens_wf(out@, input.spec_bytes()),
{
    let ghost b = input.spec_bytes();
    let ghost pred = |t: PatchworkToken| !is_trivia(t);
    let mut out: Vec<SpannedToken<'a>> = Vec::new();
    let mut i: usize = 0;
    while i < toks.len()
        invariant
            0 <= i <= toks@.len(),
            b == input.spec_bytes(),
            pred == (|t: PatchworkToken| !is_trivia(t)),
            forall|k: int| 0 <= k < toks@.len() ==> token_ok(#[trigger] toks@[k], b),
            out@.len() == toks@.take(i as int).filter(pred).len(),
            forall|j: int| 0 <= j < out@.len() ==> spanned_for(#[trigger] out@[j], toks@.take(i as int).filter(pred)[j], b),
            forall|k: int| 0 <= k < toks@.len() - 1 ==> span_end(#[trigger] toks@[k]) == span_start(toks@[k + 1]),
            tokens_wf(out@, b),
            i < toks@.len() ==> forall|j: int| 0 <= j < out@.len() ==> (#[trigger] out@[j]).end <= span_start(toks@[i as int]),
        decreases toks@.len() - i,
    {
        let t = toks[i];
        let ghost prev = toks@.take(i as int).filter(pred);
        let ghost old_out = out@;
        proof {
            assert(toks@.take(i + 1) == toks@.take(i as int).push(t));
            toks@.take(i as int).lemma_filter_push(t, pred);
            assert(token_ok(toks@[i as int], b));
        }
        let keep = match t.rule {
            Rule::Whitespace | Rule::Comment => false,
            _ => true,
        };
        if keep {
            match t.span {
                Some(sp) => {
                    let tok = convert_token(input, t.rule, sp.start, sp.end);
                    out.push(SpannedToken { start: sp.start, token: tok, end: sp.end });
                    proof {
                        if tok is SingleQuoteString {
                            lemma_quoted_rule(t.rule, b.subrange(sp.start as int, sp.end as int), tok);
                            let tx = b.subrange(sp.start as int, sp.end as int);
                            assert(tx[0] == b[sp.start as int]);
                            assert(tx[tx.len() - 1] == b[sp.end - 1]);
                        }
                        assert forall|j: int| 0 <= j < out@.len() implies (#[trigger] out@[j]).start <= out@[j].end
                            <= b.len() && at_char_start(b, out@[j].start as int) && at_char_start(b, out@[j].end as int) by {
                            if j < old_out.len() {
                                assert(out@[j] == old_out[j]);
                            }
                        }
                        assert forall|j1: int, j2: int| 0 <= j1 < j2 < out@.len() implies #[trigger] out@[j1].end
                            <= #[trigger] out@[j2].start by {
                            if j2 < old_out.len() {
                                assert(out@[j1] == old_out[j1]);
                                assert(out@[j2] == old_out[j2]);
                            } else {
                                assert(out@[j1] == old_out[j1]);
                            }
                        }
                        assert forall|j: int| 0 <= j < out@.len() && (#[trigger] out@[j].token is SingleQuoteString)
                            implies out@[j].end - out@[j].start >= 2 && b[out@[j].start as int] == 39
                            && b[out@[j].end - 1] == 39 by {
                            if j < old_out.len() {
                                assert(out@[j] == old_out[j]);
                            }
                        }
                        if i + 1 < toks@.len() {
                            assert forall|j: int| 0 <= j < out@.len() implies (#[trigger] out@[j]).end
                                <= span_start(toks@[i + 1]) by {
                                if j < old_out.len() {
                                    assert(out@[j] == old_out[j]);
                                }
                            }
                        }
                        assert(pred(t));
                        assert(toks@.take(i + 1).filter(pred) == prev.push(t));
                        assert forall|j: int| 0 <= j < out@.len() implies spanned_for(#[trigger] out@[j], toks@.take(i + 1).filter(pred)[j], b) by {
                            if j < old_out.len() {
                                assert(out@[j] == old_out[j]);
                            }
                        }
                    }
                },
                None => {},
            }
        } else {
            proof {
                assert(!pred(t));
                assert(toks@.take(i + 1).filter(pred) == prev);
            }
        }
        proof {
            if i + 1 < toks@.len() {
                assert(span_end(toks@[i as int]) == span_start(toks@[i + 1]));
            }
        }
        i = i + 1;
    }
    proof {
        assert(toks@.take(toks@.len() as int) == toks@);
    }
    out
}

/// The first position at or after `i` of the tokens `ts` that is neither a
/// newline nor a `;`.
pub open spec fn skip_sep_rules(ts: Seq<PatchworkToken>, i: int) -> int
    decreases ts.len() - i,
{
    if 0 <= i < ts.len() && (ts[i].rule is Newline || ts[i].rule is Semicolon) {
        skip_sep_rules(ts, i + 1)
    } else {
        i
    }
}

/// A text that holds no item: up to its end, the tokens the parser sees are
/// newlines and `;` (around them only whitespace and comments).
pub open spec fn blank_text(b: Seq<u8>) -> bool {
    let sig = significant(lex_tokens(b));
    let k = skip_sep_rules(sig, 0);
    k >= sig.len() || sig[k].rule is End
}

/// A parser token is a newline, a `;` or the end exactly where the lexer
/// token it comes from is one.
pub proof fn lemma_converts_separators(rule: Rule, t: Seq<u8>, tok: ParserToken)
    requires
        converts_to(rule, t, tok),
    ensures
        (tok is Newline) == (rule is Newline),
        (tok is Semicolon) == (rule is Semicolon),
        (tok is End) == (rule is End),
{
}

/// `pt` are the parser tokens of the text with bytes `b`: the significant
/// tokens of its lexing, in order.
pub open spec fn lexed_as<'a>(b: Seq<u8>, pt: Seq<SpannedToken<'a>>) -> bool {
    &&& pt.len() == significant(lex_tokens(b)).len()
    &&& forall|j: int| 0 <= j < pt.len() ==> spanned_for(#[trigger] pt[j], significant(lex_tokens(b))[j], b)
}

/// Lexes `input` and gives the tokens the parser sees, in order; the last
/// one is `End`.
pub fn parser_tokens<'a>(input: &'a str) -> (out: Vec<SpannedToken<'a>>)
    ensures
        lexed_as(input.spec_bytes(), out@),
        tokens_wf(out@, input.spec_bytes()),
{
    let toks = tokenize(input);
    adapt_tokens(input, &toks)
}

/// The byte offset of a line and column (in characters) of `input`, given
/// where its lines start: past the last line, the end of the text; past the
/// end of the text, its end.
pub fn position_to_offset(input: &str, line_starts: &[usize], line: usize, column: usize) -> (r: usize)
    requires
        forall|i: int|
            0 <= i < line_starts@.len() ==> #[trigger] line_starts@[i] <= input.spec_bytes().len(),
    ensures
        r == (if line < line_starts@.len() {
            chars_ahead(input.spec_bytes(), line_starts@[line as int] as int, column as nat)
        } else {
            input.spec_bytes().len() as int
        }),
{
    let b = input.as_bytes();
    if line < line_starts.len() {
        walk_chars(b, line_starts[line], column)
    } else {
        b.len()
    }
}

} // verus!
