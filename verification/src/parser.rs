//! Recursive-descent parser from parser tokens to the syntax tree.
//!
//! Newlines separate statements; inside brackets, braces and parentheses,
//! and after a binary operator, they are skipped.
use vstd::prelude::*;
use vstd::string::StringSliceAdditionalSpecFns;
use vstd::utf8::encode_utf8;
use crate::strutil::{at_char_start, lemma_str_bytes_valid, lemma_after_ascii};
use crate::token::{
    ParserToken, SpannedToken, parser_tokens, lexed_as, tokens_wf, blank_text, skip_sep_rules,
    significant, lemma_converts_separators, spanned_for,
};
use crate::lexer::{lex_tokens, span_start, span_end};
use crate::grammar::{
    Toks, tk, tstart, tend, skip_nl, skip_sep, skip_bs, closer, list_sep, brace_sep, prec,
    level_of, op_token, unop_token, redirect_token, is_redirect, shell_level, cmd_arg_start,
    ends_return, statement_keyword, number_dot_number, text_like, depth_after, run_scan, m_type,
    m_alts, m_tprim, m_tfields, m_pat, m_pfields, m_expr, m_paren_body, m_shell, m_cmdargs,
    m_strlit, m_sparts, m_interp, m_exprs, m_elist, m_ofields, m_prompt, m_pitems, m_block,
    m_stmts, m_stmt, m_varrest, m_ifrest, m_plist, m_params, m_callable, views, dot_prefix,
    m_segments, m_names, m_import, item_keyword_at, m_item, m_items, m_program, prefix_level,
    postfix_level, field_name,
};
use crate::ast::{
    Program, Item, ImportDecl, ImportPath, SkillDecl, TaskDecl, FunctionDecl, WorkerDecl,
    TypeDeclItem, Param, Block, Pattern, ObjectPatternField, Statement, TypeExpr, TypeField,
    BinOp, UnOp, StringLiteral, StringPart, CommandArg, RedirectOp, Expr, ObjectField,
    PromptBlock, PromptItem,
};

verus! {

/// Error from parsing.
#[derive(Debug)]
pub enum ParseError {
    LexerError(String),
    UnexpectedToken(String),
}

/// The text of a parse error.
pub open spec fn parse_error_text(e: ParseError) -> Seq<char> {
    match e {
        ParseError::LexerError(m) => "Lexer error: "@ + m@,
        ParseError::UnexpectedToken(m) => "Unexpected token: "@ + m@,
    }
}

impl ParseError {
    /// The error as a message for people.
    pub fn message(&self) -> (r: String)
        ensures
            r@ == parse_error_text(*self),
    {
        let mut s = String::new();
        match self {
            ParseError::LexerError(m) => {
                s.append("Lexer error: ");
                s.append(m.as_str());
            },
            ParseError::UnexpectedToken(m) => {
                s.append("Unexpected token: ");
                s.append(m.as_str());
            },
        }
        s
    }
}

/// A result of parsing: the value and the position of the next token.
pub type PResult<T> = Result<(T, usize), ParseError>;

/// Whether a token ends a statement: a line end, `;`, `}` or the end of
/// the text.
pub open spec fn ends_statement(t: ParserToken) -> bool {
    t is Newline || t is Semicolon || t is RBrace || t is End
}

/// Whether the tokens from `pos` are a name, `++` or `--`, and the end of
/// the statement.
pub open spec fn step_stmt_at<'a>(ts: Toks<'a>, pos: int) -> bool {
    &&& tk(ts, pos) is Identifier
    &&& tk(ts, pos + 1) is PlusPlus || tk(ts, pos + 1) is MinusMinus
    &&& ends_statement(tk(ts, pos + 2))
}

/// The increment (`++`) or decrement (`--`) of the name at `pos`.
pub open spec fn step_expr<'a>(ts: Toks<'a>, pos: int) -> Expr<'a> {
    if tk(ts, pos + 1) is PlusPlus {
        Expr::PostIncrement(Box::new(Expr::Identifier(tk(ts, pos)->Identifier_0)))
    } else {
        Expr::PostDecrement(Box::new(Expr::Identifier(tk(ts, pos)->Identifier_0)))
    }
}

/// Whether a token continues an expression as a postfix operator: a call,
/// a member access, an index, `++` or `--`.
pub open spec fn postfix_start(t: ParserToken) -> bool {
    t is LParen || t is Dot || t is LBracket || t is PlusPlus || t is MinusMinus
}

/// The error for an unexpected token, with an explanation.
fn unexpected<T>(msg: &str) -> (r: Result<T, ParseError>)
    ensures
        r is Err,
{
    Err(ParseError::UnexpectedToken(msg.to_owned()))
}

/// `input[start..end]` when both ends are character starts.
fn try_slice<'a>(input: &'a str, start: usize, end: usize) -> (r: Option<&'a str>)
    ensures
        r matches Some(s) ==> s.spec_bytes() == input.spec_bytes().subrange(start as int, end as int),
        start <= end && at_char_start(input.spec_bytes(), start as int) && at_char_start(
            input.spec_bytes(),
            end as int,
        ) ==> r is Some,
{
    let b = input.as_bytes();
    let n = b.len();
    if start <= end && end <= n && (start == n || b[start] < 0x80u8 || b[start] > 0xbfu8)
        && (end == n || b[end] < 0x80u8 || b[end] > 0xbfu8) {
        Some(crate::strutil::slice_bytes(input, start, end))
    } else {
        None
    }
}

/// A shell construct after `$` (not `$(`) is an expression that binds
/// like a primary one.
proof fn lemma_shell_as_expr<'a>(t: Toks<'a>, b: Seq<u8>, i: int, e: Expr<'a>)
    requires
        shell_level(e) >= 1,
        tk(t, i) is Dollar,
        !(tk(t, i + 1) is LParen),
    ensures
        m_expr(t, b, i, e) == m_shell(t, b, i + 1, e),
        level_of(e) == 11,
{
    match e {
        Expr::ShellOr { .. } => {},
        Expr::ShellAnd { .. } => {},
        Expr::ShellPipe { .. } => {},
        Expr::ShellRedirect { .. } => {},
        Expr::BareCommand { .. } => {},
        _ => {},
    }
}

/// Parser state: the source text and its tokens.
struct Parser<'a> {
    input: &'a str,
    toks: Vec<SpannedToken<'a>>,
}

impl<'a> Parser<'a> {
    spec fn len(&self) -> int {
        self.toks@.len() as int
    }

    spec fn ts(&self) -> Toks<'a> {
        self.toks@
    }

    spec fn bs(&self) -> Seq<u8> {
        self.input.spec_bytes()
    }

    spec fn wf(&self) -> bool {
        tokens_wf(self.toks@, self.input.spec_bytes())
    }

    /// The token at `pos`, or `End` past the last token.
    fn tok(&self, pos: usize) -> (t: ParserToken<'a>)
        ensures
            t == tk(self.ts(), pos as int),
            pos >= self.len() ==> t == ParserToken::End,
            self.len() <= usize::MAX,
    {
        if pos < self.toks.len() {
            self.toks[pos].token
        } else {
            ParserToken::End
        }
    }

    /// Byte position where the token at `pos` starts (the end of the text past the last token).
    fn start_of(&self, pos: usize) -> (r: usize)
        ensures
            r == tstart(self.ts(), self.bs(), pos as int),
    {
        if pos < self.toks.len() {
            self.toks[pos].start
        } else {
            self.input.as_bytes().len()
        }
    }

    /// Byte position where the token at `pos` ends.
    fn end_of(&self, pos: usize) -> (r: usize)
        ensures
            r == tend(self.ts(), self.bs(), pos as int),
    {
        if pos < self.toks.len() {
            self.toks[pos].end
        } else {
            self.input.as_bytes().len()
        }
    }

    fn is_end(&self, pos: usize) -> (r: bool)
        ensures
            r == (tk(self.ts(), pos as int) is End),
            pos >= self.len() ==> r,
    {
        matches!(self.tok(pos), ParserToken::End)
    }

    /// Skips newline tokens.
    fn skip_newlines(&self, pos: usize) -> (p: usize)
        requires
            pos <= self.len(),
        ensures
            pos <= p <= self.len(),
            p == skip_nl(self.ts(), pos as int),
    {
        let mut p = pos;
        while p < self.toks.len() && matches!(self.toks[p].token, ParserToken::Newline(_))
            invariant
                pos <= p <= self.len(),
                skip_nl(self.ts(), p as int) == skip_nl(self.ts(), pos as int),
            decreases self.len() - p,
        {
            p = p + 1;
        }
        p
    }

    /// Skips statement separators: newlines and semicolons.
    fn skip_separators(&self, pos: usize) -> (p: usize)
        requires
            pos <= self.len(),
        ensures
            pos <= p <= self.len(),
            p == skip_sep(self.ts(), pos as int),
    {
        let mut p = pos;
        while p < self.toks.len() && (matches!(self.toks[p].token, ParserToken::Newline(_))
            || matches!(self.toks[p].token, ParserToken::Semicolon))
            invariant
                pos <= p <= self.len(),
                skip_sep(self.ts(), p as int) == skip_sep(self.ts(), pos as int),
            decreases self.len() - p,
        {
            p = p + 1;
        }
        p
    }

    /// Consumes one token of the kind tested by `ok`, or fails with `msg`.
    fn expect_identifier(&self, pos: usize, msg: &str) -> (r: PResult<&'a str>)
        requires
            pos <= self.len(),
        ensures
            r matches Ok(x) ==> x.1 == pos + 1 && pos < self.len() && tk(self.ts(), pos as int)
                == ParserToken::Identifier(x.0),
    {
        match self.tok(pos) {
            ParserToken::Identifier(s) => Ok((s, pos + 1)),
            _ => unexpected(msg),
        }
    }

    // ===== Program and items =====

    /// Parses a whole program.
    fn parse_program(&self) -> (r: Result<Program<'a>, ParseError>)
        requires
            self.wf(),
        ensures
            r matches Ok(prog) ==> m_program(self.ts(), self.bs(), prog),
            tk(self.ts(), skip_sep(self.ts(), 0)) is End ==> (r matches Ok(prog) && prog.items@.len() == 0),
    {
        let mut items: Vec<Item<'a>> = Vec::new();
        let mut p = self.skip_separators(0);
        while !self.is_end(p)
            invariant
                self.wf(),
                p <= self.len(),
                m_items(self.ts(), self.bs(), 0, items@) == Some(p as int),
                tk(self.ts(), skip_sep(self.ts(), 0)) is End ==> items@.len() == 0 && p == skip_sep(
                    self.ts(),
                    0,
                ),
            decreases self.len() - p,
        {
            let (item, q) = self.parse_item(p)?;
            let ghost before = items@;
            items.push(item);
            proof {
                assert(items@.drop_last() =~= before);
            }
            p = self.skip_separators(q);
        }
        Ok(Program { items })
    }

    /// Parses one top-level item.
    fn parse_item(&self, pos: usize) -> (r: PResult<Item<'a>>)
        requires
            self.wf(),
            pos <= self.len(),
        ensures
            r matches Ok(x) ==> pos < x.1 <= self.len() && m_item(self.ts(), self.bs(), pos as int, x.0)
                == Some(x.1 as int),
    {
        let mut p = pos;
        let mut exported = false;
        let mut default = false;
        if matches!(self.tok(p), ParserToken::Export) {
            exported = true;
            p = p + 1;
            if matches!(self.tok(p), ParserToken::Default) {
                default = true;
                p = p + 1;
            }
        }
        match self.tok(p) {
            ParserToken::Import => {
                let (path, q) = self.parse_import_path(p + 1)?;
                Ok((Item::Import(ImportDecl { path }), q))
            },
            ParserToken::Skill => {
                let (name, params, body, q) = self.parse_callable(p + 1)?;
                Ok((Item::Skill(SkillDecl { name, params, body }), q))
            },
            ParserToken::Task => {
                let (name, params, body, q) = self.parse_callable(p + 1)?;
                Ok((Item::Task(TaskDecl { name, params, body }), q))
            },
            ParserToken::Fun => {
                let (name, params, body, q) = self.parse_callable(p + 1)?;
                Ok((Item::Function(FunctionDecl { name, params, body, is_exported: exported, is_default: default }), q))
            },
            ParserToken::Worker => {
                let (name, params, body, q) = self.parse_callable(p + 1)?;
                Ok((Item::Worker(WorkerDecl { name, params, body, is_exported: exported, is_default: default }), q))
            },
            ParserToken::Type => {
                let (name, q) = self.expect_identifier(p + 1, "expected a type name")?;
                if !matches!(self.tok(q), ParserToken::Assign) {
                    return unexpected("expected '=' in type declaration");
                }
                let t = self.skip_newlines(q + 1);
                let (type_expr, q2) = self.parse_type(t)?;
                Ok((Item::Type(TypeDeclItem { name, type_expr }), q2))
            },
            _ => unexpected("expected an import, skill, task, fun, worker or type declaration"),
        }
    }

    /// Parses an import path after `import`.
    fn parse_import_path(&self, pos: usize) -> (r: PResult<ImportPath<'a>>)
        requires
            pos <= self.len(),
        ensures
            r matches Ok(x) ==> pos < x.1 <= self.len() && m_import(self.ts(), pos as int, x.0) == Some(
                x.1 as int,
            ),
    {
        let mut segments: Vec<&'a str> = Vec::new();
        let mut p = pos;
        if matches!(self.tok(p), ParserToken::Dot) {
            // Relative path: ./ or ../ prefixes
            while matches!(self.tok(p), ParserToken::Dot)
                invariant
                    pos <= p <= self.len(),
                    p > pos || segments@.len() == 0,
                    tk(self.ts(), pos as int) is Dot,
                    match dot_prefix(self.ts(), p as int) {
                        Some((rest, k)) => dot_prefix(self.ts(), pos as int) == Some(
                            (views(segments@) + rest, k),
                        ),
                        None => true,
                    },
                decreases self.len() - p,
            {
                let ghost before = segments@;
                let ghost p0 = p as int;
                if matches!(self.tok(p + 1), ParserToken::Dot) {
                    segments.push("..");
                    p = p + 2;
                } else {
                    segments.push(".");
                    p = p + 1;
                }
                if !matches!(self.tok(p), ParserToken::Slash) {
                    return unexpected("expected '/' in relative import");
                }
                p = p + 1;
                proof {
                    let seg = segments@.last()@;
                    assert(views(segments@) =~= views(before).push(seg));
                    match dot_prefix(self.ts(), p as int) {
                        Some((rest, k)) => {
                            assert(dot_prefix(self.ts(), p0) == Some((seq![seg] + rest, k)));
                            assert(views(segments@) + rest =~= views(before) + (seq![seg] + rest));
                        },
                        None => {},
                    }
                }
            }
            let ghost npre = segments@.len();
            proof {
                assert(dot_prefix(self.ts(), p as int) == Some((Seq::<Seq<char>>::empty(), p as int)));
                assert(views(segments@) + Seq::<Seq<char>>::empty() =~= views(segments@));
            }
            if matches!(self.tok(p), ParserToken::LBrace) {
                // ./{a, b, c}
                let ghost lb = p as int;
                let mut names: Vec<&'a str> = Vec::new();
                p = self.skip_newlines(p + 1);
                while !matches!(self.tok(p), ParserToken::RBrace)
                    invariant
                        pos < p <= self.len(),
                        lb < p,
                        tk(self.ts(), pos as int) is Dot,
                        tk(self.ts(), lb) is LBrace,
                        dot_prefix(self.ts(), pos as int) == Some((views(segments@), lb)),
                        m_names(self.ts(), lb + 1, names@) == Some(p as int),
                    decreases self.len() - p,
                {
                    let (name, q) = self.expect_identifier(p, "expected a module name")?;
                    let ghost before = names@;
                    names.push(name);
                    proof {
                        assert(names@.drop_last() =~= before);
                    }
                    p = self.skip_newlines(q);
                    if matches!(self.tok(p), ParserToken::Comma) {
                        p = self.skip_newlines(p + 1);
                    } else if !matches!(self.tok(p), ParserToken::RBrace) {
                        return unexpected("expected ',' or '}' in import list");
                    }
                }
                return Ok((ImportPath::RelativeMulti(names), p + 1));
            }
            let ghost j = p as int;
            let ghost pre = views(segments@);
            let ghost pre_segs = segments@;
            let (first, q) = self.expect_identifier(p, "expected a module name")?;
            segments.push(first);
            p = q;
            proof {
                assert(segments@.take(npre as int) =~= pre_segs);
                assert(segments@.skip(npre as int) =~= seq![first]);
            }
            while matches!(self.tok(p), ParserToken::Slash)
                invariant
                    pos < p <= self.len(),
                    tk(self.ts(), pos as int) is Dot,
                    !(tk(self.ts(), j) is LBrace),
                    npre == pre_segs.len(),
                    pre == views(pre_segs),
                    dot_prefix(self.ts(), pos as int) == Some((pre, j)),
                    segments@.len() > npre,
                    segments@.take(npre as int) == pre_segs,
                    m_segments(self.ts(), j, segments@.skip(npre as int), true) == Some(p as int),
                decreases self.len() - p,
            {
                let (seg, q2) = self.expect_identifier(p + 1, "expected a path segment")?;
                let ghost before = segments@;
                segments.push(seg);
                proof {
                    assert(segments@.take(npre as int) =~= before.take(npre as int));
                    assert(segments@.skip(npre as int).drop_last() =~= before.skip(npre as int));
                }
                p = q2;
            }
            Ok((ImportPath::Simple(segments), p))
        } else {
            let (first, q) = self.expect_identifier(p, "expected a module path")?;
            segments.push(first);
            p = q;
            proof {
                assert(segments@ =~= seq![first]);
            }
            while matches!(self.tok(p), ParserToken::Dot)
                invariant
                    pos < p <= self.len(),
                    !(tk(self.ts(), pos as int) is Dot),
                    m_segments(self.ts(), pos as int, segments@, false) == Some(p as int),
                decreases self.len() - p,
            {
                let (seg, q2) = self.expect_identifier(p + 1, "expected a path segment")?;
                let ghost before = segments@;
                segments.push(seg);
                proof {
                    assert(segments@.drop_last() =~= before);
                }
                p = q2;
            }
            Ok((ImportPath::Simple(segments), p))
        }
    }

    /// Parses `name(params) { body }`.
    fn parse_callable(&self, pos: usize) -> (r: Result<(&'a str, Vec<Param<'a>>, Block<'a>, usize), ParseError>)
        requires
            self.wf(),
            pos <= self.len(),
        ensures
            r matches Ok(x) ==> pos < x.3 <= self.len() && m_callable(
                self.ts(),
                self.bs(),
                pos as int,
                x.0,
                x.1@,
                x.2,
            ) == Some(x.3 as int),
    {
        let (name, p) = self.expect_identifier(pos, "expected a name")?;
        if !matches!(self.tok(p), ParserToken::LParen) {
            return unexpected("expected '(' after the name");
        }
        let (params, q) = self.parse_params(p + 1)?;
        let q2 = self.skip_newlines(q);
        let (body, q3) = self.parse_block(q2)?;
        Ok((name, params, body, q3))
    }

    /// Parses parameters up to and including the closing `)`.
    fn parse_params(&self, pos: usize) -> (r: PResult<Vec<Param<'a>>>)
        requires
            pos <= self.len(),
        ensures
            r matches Ok(x) ==> pos < x.1 <= self.len() && m_params(self.ts(), pos as int, x.0@) == Some(
                x.1 as int,
            ),
    {
        let mut params: Vec<Param<'a>> = Vec::new();
        let mut p = self.skip_newlines(pos);
        while !matches!(self.tok(p), ParserToken::RParen)
            invariant
                pos <= p <= self.len(),
                m_plist(self.ts(), pos as int, params@) == Some(p as int),
            decreases self.len() - p,
        {
            let ghost before = params@;
            let (name, q) = self.expect_identifier(p, "expected a parameter name")?;
            let mut q2 = q;
            let mut type_ann: Option<TypeExpr<'a>> = None;
            if matches!(self.tok(q2), ParserToken::Colon) {
                let t = self.skip_newlines(q2 + 1);
                let (ty, q3) = self.parse_type(t)?;
                type_ann = Some(ty);
                q2 = q3;
            }
            params.push(Param { name, type_ann });
            proof {
                assert(params@.drop_last() =~= before);
            }
            p = self.skip_newlines(q2);
            if matches!(self.tok(p), ParserToken::Comma) {
                p = self.skip_newlines(p + 1);
            } else if !matches!(self.tok(p), ParserToken::RParen) {
                return unexpected("expected ',' or ')' in parameter list");
            }
        }
        if p >= self.toks.len() {
            return unexpected("expected ')'");
        }
        Ok((params, p + 1))
    }

    // ===== Types =====

    /// Parses a type expression: one or more alternatives separated by `|`.
    fn parse_type(&self, pos: usize) -> (r: PResult<TypeExpr<'a>>)
        requires
            pos <= self.len(),
        ensures
            r matches Ok(x) ==> pos < x.1 <= self.len() && m_type(self.ts(), pos as int, x.0) == Some(
                x.1 as int,
            ),
        decreases self.len() - pos, 2nat,
    {
        let (first, p0) = self.parse_type_primary(pos)?;
        if !matches!(self.tok(p0), ParserToken::Pipe) {
            return Ok((first, p0));
        }
        let mut alternatives: Vec<TypeExpr<'a>> = Vec::new();
        alternatives.push(first);
        let mut p = p0;
        proof {
            assert(alternatives@ =~= seq![first]);
        }
        while matches!(self.tok(p), ParserToken::Pipe)
            invariant
                pos < p <= self.len(),
                alternatives@.len() >= 1,
                alternatives@.len() >= 2 || tk(self.ts(), p as int) is Pipe,
                m_alts(self.ts(), pos as int, alternatives@) == Some(p as int),
            decreases self.len() - p,
        {
            let t = self.skip_newlines(p + 1);
            let (alt, q) = self.parse_type_primary(t)?;
            let ghost before = alternatives@;
            alternatives.push(alt);
            proof {
                assert(alternatives@.drop_last() =~= before);
            }
            p = q;
        }
        Ok((TypeExpr::Union(alternatives), p))
    }

    /// Parses a type name, string literal type, array type or object type.
    fn parse_type_primary(&self, pos: usize) -> (r: PResult<TypeExpr<'a>>)
        requires
            pos <= self.len(),
        ensures
            r matches Ok(x) ==> pos < x.1 <= self.len() && m_tprim(self.ts(), pos as int, x.0) == Some(
                x.1 as int,
            ),
        decreases self.len() - pos, 1nat,
    {
        match self.tok(pos) {
            ParserToken::Identifier(s) => Ok((TypeExpr::Name(s), pos + 1)),
            ParserToken::StringStart => {
                match self.tok(pos + 1) {
                    ParserToken::StringText(s) => {
                        if matches!(self.tok(pos + 2), ParserToken::StringEnd) {
                            Ok((TypeExpr::Literal(s), pos + 3))
                        } else {
                            unexpected("expected a plain string literal type")
                        }
                    },
                    ParserToken::StringEnd => Ok((TypeExpr::Literal(""), pos + 2)),
                    _ => unexpected("expected a plain string literal type"),
                }
            },
            ParserToken::LBracket => {
                let t = self.skip_newlines(pos + 1);
                let (elem, q) = self.parse_type(t)?;
                let q2 = self.skip_newlines(q);
                if !matches!(self.tok(q2), ParserToken::RBracket) || q2 >= self.toks.len() {
                    return unexpected("expected ']' in array type");
                }
                Ok((TypeExpr::Array(Box::new(elem)), q2 + 1))
            },
            ParserToken::LBrace => {
                let mut fields: Vec<TypeField<'a>> = Vec::new();
                let mut p = self.skip_newlines(pos + 1);
                while !matches!(self.tok(p), ParserToken::RBrace)
                    invariant
                        pos < p <= self.len(),
                        tk(self.ts(), pos as int) is LBrace,
                        m_tfields(self.ts(), pos + 1, fields@) == Some(p as int),
                    decreases self.len() - p,
                {
                    let ghost before = fields@;
                    let (key, q) = self.expect_identifier(p, "expected a field name")?;
                    let mut q2 = q;
                    let mut optional = false;
                    if matches!(self.tok(q2), ParserToken::Question) {
                        optional = true;
                        q2 = q2 + 1;
                    }
                    if !matches!(self.tok(q2), ParserToken::Colon) {
                        return unexpected("expected ':' after a field name");
                    }
                    let t = self.skip_newlines(q2 + 1);
                    let (type_expr, q3) = self.parse_type(t)?;
                    fields.push(TypeField { key, type_expr, optional });
                    proof {
                        assert(fields@.drop_last() =~= before);
                    }
                    p = self.skip_newlines(q3);
                    if matches!(self.tok(p), ParserToken::Comma) {
                        p = self.skip_newlines(p + 1);
                    } else if !matches!(self.tok(p), ParserToken::RBrace) {
                        return unexpected("expected ',' or '}' in object type");
                    }
                }
                if p >= self.toks.len() {
                    return unexpected("expected '}'");
                }
                Ok((TypeExpr::Object(fields), p + 1))
            },
            _ => unexpected("expected a type"),
        }
    }

    // ===== Blocks and statements =====

    /// Parses `{ statements }`.
    fn parse_block(&self, pos: usize) -> (r: PResult<Block<'a>>)
        requires
            self.wf(),
            pos <= self.len(),
        ensures
            r matches Ok(x) ==> pos < x.1 <= self.len() && m_block(self.ts(), self.bs(), pos as int, x.0)
                == Some(x.1 as int),
        decreases self.len() - pos, 2nat,
    {
        if !matches!(self.tok(pos), ParserToken::LBrace) {
            return unexpected("expected '{'");
        }
        let (statements, p) = self.parse_statements(pos + 1)?;
        if !matches!(self.tok(p), ParserToken::RBrace) || p >= self.toks.len() {
            return unexpected("expected '}' at the end of a block");
        }
        Ok((Block { statements }, p + 1))
    }

    /// Parses statements up to (not including) the closing `}`.
    fn parse_statements(&self, pos: usize) -> (r: PResult<Vec<Statement<'a>>>)
        requires
            self.wf(),
            pos <= self.len(),
        ensures
            r matches Ok(x) ==> pos <= x.1 <= self.len() && m_stmts(self.ts(), self.bs(), pos as int, x.0@)
                == Some(x.1 as int),
        decreases self.len() - pos, 50nat,
    {
        let mut statements: Vec<Statement<'a>> = Vec::new();
        let mut p = self.skip_separators(pos);
        while !matches!(self.tok(p), ParserToken::RBrace) && !self.is_end(p)
            invariant
                self.wf(),
                pos <= p <= self.len(),
                m_stmts(self.ts(), self.bs(), pos as int, statements@) == Some(p as int),
            decreases self.len() - p,
        {
            let (stmt, q) = self.parse_statement(p)?;
            let ghost before = statements@;
            statements.push(stmt);
            proof {
                assert(statements@.drop_last() =~= before);
            }
            p = self.skip_separators(q);
        }
        Ok((statements, p))
    }

    /// Parses one statement.
    fn parse_statement(&self, pos: usize) -> (r: PResult<Statement<'a>>)
        requires
            self.wf(),
            pos <= self.len(),
        ensures
            r matches Ok(x) ==> pos < x.1 <= self.len() && m_stmt(self.ts(), self.bs(), pos as int, x.0)
                == Some(x.1 as int),
            step_stmt_at(self.ts(), pos as int) ==> r == Ok::<(Statement<'a>, usize), ParseError>(
                (Statement::Expr(step_expr(self.ts(), pos as int)), (pos + 2) as usize),
            ),
        decreases self.len() - pos, 49nat,
    {
        match self.tok(pos) {
            ParserToken::Var => self.parse_var_decl(pos + 1),
            ParserToken::If => self.parse_if(pos + 1),
            ParserToken::For => {
                if !matches!(self.tok(pos + 1), ParserToken::Var) {
                    return unexpected("expected 'var' after 'for'");
                }
                let (var, p) = self.expect_identifier(pos + 2, "expected a loop variable")?;
                if !matches!(self.tok(p), ParserToken::In) {
                    return unexpected("expected 'in' in for loop");
                }
                let (iter, q) = self.parse_expr(p + 1)?;
                let (body, q2) = self.parse_block(q)?;
                Ok((Statement::For { var, iter, body }, q2))
            },
            ParserToken::While => {
                if !matches!(self.tok(pos + 1), ParserToken::LParen) {
                    return unexpected("expected '(' after 'while'");
                }
                let t = self.skip_newlines(pos + 2);
                let (condition, q) = self.parse_expr(t)?;
                let q2 = self.skip_newlines(q);
                if !matches!(self.tok(q2), ParserToken::RParen) || q2 >= self.toks.len() {
                    return unexpected("expected ')' after the loop condition");
                }
                let (body, q3) = self.parse_block(q2 + 1)?;
                Ok((Statement::While { condition, body }, q3))
            },
            ParserToken::Return => {
                let next = self.tok(pos + 1);
                if matches!(next, ParserToken::Newline(_)) || matches!(next, ParserToken::Semicolon)
                    || matches!(next, ParserToken::RBrace) || matches!(next, ParserToken::End) {
                    Ok((Statement::Return(None), pos + 1))
                } else {
                    let (e, q) = self.parse_expr(pos + 1)?;
                    Ok((Statement::Return(Some(e)), q))
                }
            },
            ParserToken::Succeed => Ok((Statement::Succeed, pos + 1)),
            ParserToken::Fail => Ok((Statement::Fail, pos + 1)),
            ParserToken::Break => Ok((Statement::Break, pos + 1)),
            ParserToken::Type => {
                let (name, q) = self.expect_identifier(pos + 1, "expected a type name")?;
                if !matches!(self.tok(q), ParserToken::Assign) {
                    return unexpected("expected '=' in type declaration");
                }
                let t = self.skip_newlines(q + 1);
                let (type_expr, q2) = self.parse_type(t)?;
                Ok((Statement::TypeDecl { name, type_expr }, q2))
            },
            _ => {
                let (e, q) = self.parse_expr(pos)?;
                Ok((Statement::Expr(e), q))
            },
        }
    }

    /// Parses the rest of `if cond { ... } else ...` after `if`.
    fn parse_if(&self, pos: usize) -> (r: PResult<Statement<'a>>)
        requires
            self.wf(),
            pos <= self.len(),
        ensures
            r matches Ok(x) ==> pos < x.1 <= self.len() && m_ifrest(self.ts(), self.bs(), pos as int, x.0)
                == Some(x.1 as int),
        decreases self.len() - pos, 48nat,
    {
        let (condition, p) = self.parse_expr(pos)?;
        let (then_block, q) = self.parse_block(p)?;
        if matches!(self.tok(q), ParserToken::Else) {
            if matches!(self.tok(q + 1), ParserToken::If) {
                let (nested, q2) = self.parse_if(q + 2)?;
                let mut statements: Vec<Statement<'a>> = Vec::new();
                statements.push(nested);
                proof {
                    assert(statements@ =~= seq![nested]);
                }
                Ok((Statement::If { condition, then_block, else_block: Some(Block { statements }) }, q2))
            } else {
                let (else_blk, q2) = self.parse_block(q + 1)?;
                Ok((Statement::If { condition, then_block, else_block: Some(else_blk) }, q2))
            }
        } else {
            Ok((Statement::If { condition, then_block, else_block: None }, q))
        }
    }

    /// Parses the rest of a variable declaration after `var`.
    fn parse_var_decl(&self, pos: usize) -> (r: PResult<Statement<'a>>)
        requires
            self.wf(),
            pos <= self.len(),
        ensures
            r matches Ok(x) ==> pos < x.1 <= self.len() && m_varrest(self.ts(), self.bs(), pos as int, x.0)
                == Some(x.1 as int),
        decreases self.len() - pos, 48nat,
    {
        let (pattern, p) = self.parse_pattern(pos)?;
        if matches!(self.tok(p), ParserToken::Assign) {
            let t = self.skip_newlines(p + 1);
            let (init, q) = self.parse_expr(t)?;
            Ok((Statement::VarDecl { pattern, init: Some(init) }, q))
        } else {
            Ok((Statement::VarDecl { pattern, init: None }, p))
        }
    }

    /// Parses the pattern of a variable declaration, with its type annotations.
    fn parse_pattern(&self, pos: usize) -> (r: PResult<Pattern<'a>>)
        requires
            pos <= self.len(),
        ensures
            r matches Ok(x) ==> pos < x.1 <= self.len() && m_pat(self.ts(), pos as int, x.0) == Some(
                x.1 as int,
            ),
    {
        match self.tok(pos) {
            ParserToken::Identifier(name) => {
                if matches!(self.tok(pos + 1), ParserToken::Colon) {
                    let t = self.skip_newlines(pos + 2);
                    let (ty, q) = self.parse_type(t)?;
                    Ok((Pattern::Identifier { name, type_ann: Some(ty) }, q))
                } else {
                    Ok((Pattern::Identifier { name, type_ann: None }, pos + 1))
                }
            },
            ParserToken::Underscore => Ok((Pattern::Identifier { name: "_", type_ann: None }, pos + 1)),
            ParserToken::LBrace => {
                let mut fields: Vec<ObjectPatternField<'a>> = Vec::new();
                let mut p = self.skip_newlines(pos + 1);
                while !matches!(self.tok(p), ParserToken::RBrace)
                    invariant
                        pos < p <= self.len(),
                        tk(self.ts(), pos as int) is LBrace,
                        m_pfields(self.ts(), pos + 1, fields@) == Some(p as int),
                    decreases self.len() - p,
                {
                    let ghost before = fields@;
                    let (key, q) = self.expect_identifier(p, "expected a field name in pattern")?;
                    let mut q2 = q;
                    let mut type_ann: Option<TypeExpr<'a>> = None;
                    if matches!(self.tok(q2), ParserToken::Colon) {
                        let t = self.skip_newlines(q2 + 1);
                        let (ty, q3) = self.parse_type(t)?;
                        type_ann = Some(ty);
                        q2 = q3;
                    }
                    fields.push(ObjectPatternField {
                        key,
                        pattern: Pattern::Identifier { name: key, type_ann: None },
                        type_ann,
                    });
                    proof {
                        assert(fields@.drop_last() =~= before);
                    }
                    p = self.skip_newlines(q2);
                    if matches!(self.tok(p), ParserToken::Comma) {
                        p = self.skip_newlines(p + 1);
                    } else if !matches!(self.tok(p), ParserToken::RBrace) {
                        return unexpected("expected ',' or '}' in pattern");
                    }
                }
                if p >= self.toks.len() {
                    return unexpected("expected '}'");
                }
                Ok((Pattern::Object(fields), p + 1))
            },
            _ => unexpected("expected a variable name or pattern"),
        }
    }

    // ===== Expressions =====

    /// Parses an expression.
    fn parse_expr(&self, pos: usize) -> (r: PResult<Expr<'a>>)
        requires
            self.wf(),
            pos <= self.len(),
        ensures
            r matches Ok(x) ==> pos < x.1 <= self.len() && m_expr(self.ts(), self.bs(), pos as int, x.0)
                == Some(x.1 as int),
            step_stmt_at(self.ts(), pos as int) ==> r == Ok::<(Expr<'a>, usize), ParseError>(
                (step_expr(self.ts(), pos as int), (pos + 2) as usize),
            ),
        decreases self.len() - pos, 30nat,
    {
        self.parse_assign(pos)
    }

    /// `target = value` (right-associative), or a pipe expression.
    fn parse_assign(&self, pos: usize) -> (r: PResult<Expr<'a>>)
        requires
            self.wf(),
            pos <= self.len(),
        ensures
            r matches Ok(x) ==> pos < x.1 <= self.len() && level_of(x.0) >= 0 && m_expr(self.ts(), self.bs(), pos as int, x.0)
                == Some(x.1 as int),
            step_stmt_at(self.ts(), pos as int) ==> r == Ok::<(Expr<'a>, usize), ParseError>(
                (step_expr(self.ts(), pos as int), (pos + 2) as usize),
            ),
        decreases self.len() - pos, 29nat,
    {
        let (left, p) = self.parse_pipe(pos)?;
        if matches!(self.tok(p), ParserToken::Assign) {
            let t = self.skip_newlines(p + 1);
            let (right, q) = self.parse_assign(t)?;
            Ok((Expr::Binary { op: BinOp::Assign, left: Box::new(left), right: Box::new(right) }, q))
        } else {
            Ok((left, p))
        }
    }

    /// `a | b`
    fn parse_pipe(&self, pos: usize) -> (r: PResult<Expr<'a>>)
        requires
            self.wf(),
            pos <= self.len(),
        ensures
            r matches Ok(x) ==> pos < x.1 <= self.len() && level_of(x.0) >= 1 && m_expr(self.ts(), self.bs(), pos as int, x.0)
                == Some(x.1 as int),
            step_stmt_at(self.ts(), pos as int) ==> r == Ok::<(Expr<'a>, usize), ParseError>(
                (step_expr(self.ts(), pos as int), (pos + 2) as usize),
            ),
        decreases self.len() - pos, 28nat,
    {
        let (first, p0) = self.parse_or(pos)?;
        let mut left = first;
        let mut p = p0;
        while matches!(self.tok(p), ParserToken::Pipe)
            invariant
                self.wf(),
                pos < p <= self.len(),
                level_of(left) >= 1,
                m_expr(self.ts(), self.bs(), pos as int, left) == Some(p as int),
                step_stmt_at(self.ts(), pos as int) ==> p == pos + 2 && left == step_expr(self.ts(), pos as int),
            decreases self.len() - p,
        {
            let op = BinOp::Pipe;
            let t = self.skip_newlines(p + 1);
            let (right, q) = self.parse_or(t)?;
            left = Expr::Binary { op, left: Box::new(left), right: Box::new(right) };
            p = q;
        }
        Ok((left, p))
    }

    /// `a || b`
    fn parse_or(&self, pos: usize) -> (r: PResult<Expr<'a>>)
        requires
            self.wf(),
            pos <= self.len(),
        ensures
            r matches Ok(x) ==> pos < x.1 <= self.len() && level_of(x.0) >= 2 && m_expr(self.ts(), self.bs(), pos as int, x.0)
                == Some(x.1 as int),
            step_stmt_at(self.ts(), pos as int) ==> r == Ok::<(Expr<'a>, usize), ParseError>(
                (step_expr(self.ts(), pos as int), (pos + 2) as usize),
            ),
        decreases self.len() - pos, 27nat,
    {
        let (first, p0) = self.parse_and(pos)?;
        let mut left = first;
        let mut p = p0;
        while matches!(self.tok(p), ParserToken::OrOr)
            invariant
                self.wf(),
                pos < p <= self.len(),
                level_of(left) >= 2,
                m_expr(self.ts(), self.bs(), pos as int, left) == Some(p as int),
                step_stmt_at(self.ts(), pos as int) ==> p == pos + 2 && left == step_expr(self.ts(), pos as int),
            decreases self.len() - p,
        {
            let op = BinOp::Or;
            let t = self.skip_newlines(p + 1);
            let (right, q) = self.parse_and(t)?;
            left = Expr::Binary { op, left: Box::new(left), right: Box::new(right) };
            p = q;
        }
        Ok((left, p))
    }

    /// `a && b`
    fn parse_and(&self, pos: usize) -> (r: PResult<Expr<'a>>)
        requires
            self.wf(),
            pos <= self.len(),
        ensures
            r matches Ok(x) ==> pos < x.1 <= self.len() && level_of(x.0) >= 3 && m_expr(self.ts(), self.bs(), pos as int, x.0)
                == Some(x.1 as int),
            step_stmt_at(self.ts(), pos as int) ==> r == Ok::<(Expr<'a>, usize), ParseError>(
                (step_expr(self.ts(), pos as int), (pos + 2) as usize),
            ),
        decreases self.len() - pos, 26nat,
    {
        let (first, p0) = self.parse_equality(pos)?;
        let mut left = first;
        let mut p = p0;
        while matches!(self.tok(p), ParserToken::AndAnd)
            invariant
                self.wf(),
                pos < p <= self.len(),
                level_of(left) >= 3,
                m_expr(self.ts(), self.bs(), pos as int, left) == Some(p as int),
                step_stmt_at(self.ts(), pos as int) ==> p == pos + 2 && left == step_expr(self.ts(), pos as int),
            decreases self.len() - p,
        {
            let op = BinOp::And;
            let t = self.skip_newlines(p + 1);
            let (right, q) = self.parse_equality(t)?;
            left = Expr::Binary { op, left: Box::new(left), right: Box::new(right) };
            p = q;
        }
        Ok((left, p))
    }

    /// `a == b`, `a != b`
    fn parse_equality(&self, pos: usize) -> (r: PResult<Expr<'a>>)
        requires
            self.wf(),
            pos <= self.len(),
        ensures
            r matches Ok(x) ==> pos < x.1 <= self.len() && level_of(x.0) >= 4 && m_expr(self.ts(), self.bs(), pos as int, x.0)
                == Some(x.1 as int),
            step_stmt_at(self.ts(), pos as int) ==> r == Ok::<(Expr<'a>, usize), ParseError>(
                (step_expr(self.ts(), pos as int), (pos + 2) as usize),
            ),
        decreases self.len() - pos, 25nat,
    {
        let (first, p0) = self.parse_comparison(pos)?;
        let mut left = first;
        let mut p = p0;
        while matches!(self.tok(p), ParserToken::Eq) || matches!(self.tok(p), ParserToken::Neq)
            invariant
                self.wf(),
                pos < p <= self.len(),
                level_of(left) >= 4,
                m_expr(self.ts(), self.bs(), pos as int, left) == Some(p as int),
                step_stmt_at(self.ts(), pos as int) ==> p == pos + 2 && left == step_expr(self.ts(), pos as int),
            decreases self.len() - p,
        {
            let op = if matches!(self.tok(p), ParserToken::Eq) { BinOp::Eq } else { BinOp::NotEq };
            let t = self.skip_newlines(p + 1);
            let (right, q) = self.parse_comparison(t)?;
            left = Expr::Binary { op, left: Box::new(left), right: Box::new(right) };
            p = q;
        }
        Ok((left, p))
    }

    /// `a < b`, `a > b`
    fn parse_comparison(&self, pos: usize) -> (r: PResult<Expr<'a>>)
        requires
            self.wf(),
            pos <= self.len(),
        ensures
            r matches Ok(x) ==> pos < x.1 <= self.len() && level_of(x.0) >= 5 && m_expr(self.ts(), self.bs(), pos as int, x.0)
                == Some(x.1 as int),
            step_stmt_at(self.ts(), pos as int) ==> r == Ok::<(Expr<'a>, usize), ParseError>(
                (step_expr(self.ts(), pos as int), (pos + 2) as usize),
            ),
        decreases self.len() - pos, 24nat,
    {
        let (first, p0) = self.parse_range(pos)?;
        let mut left = first;
        let mut p = p0;
        while matches!(self.tok(p), ParserToken::Lt) || matches!(self.tok(p), ParserToken::Gt)
            || matches!(self.tok(p), ParserToken::Lte) || matches!(self.tok(p), ParserToken::Gte)
            invariant
                self.wf(),
                pos < p <= self.len(),
                level_of(left) >= 5,
                m_expr(self.ts(), self.bs(), pos as int, left) == Some(p as int),
                step_stmt_at(self.ts(), pos as int) ==> p == pos + 2 && left == step_expr(self.ts(), pos as int),
            decreases self.len() - p,
        {
            let op = match self.tok(p) {
                ParserToken::Lt => BinOp::Lt,
                ParserToken::Gt => BinOp::Gt,
                _ => {
                    return unexpected("'<=' and '>=' are not supported");
                },
            };
            let t = self.skip_newlines(p + 1);
            let (right, q) = self.parse_range(t)?;
            left = Expr::Binary { op, left: Box::new(left), right: Box::new(right) };
            p = q;
        }
        Ok((left, p))
    }

    /// `a...b`
    fn parse_range(&self, pos: usize) -> (r: PResult<Expr<'a>>)
        requires
            self.wf(),
            pos <= self.len(),
        ensures
            r matches Ok(x) ==> pos < x.1 <= self.len() && level_of(x.0) >= 6 && m_expr(self.ts(), self.bs(), pos as int, x.0)
                == Some(x.1 as int),
            step_stmt_at(self.ts(), pos as int) ==> r == Ok::<(Expr<'a>, usize), ParseError>(
                (step_expr(self.ts(), pos as int), (pos + 2) as usize),
            ),
        decreases self.len() - pos, 23nat,
    {
        let (first, p0) = self.parse_additive(pos)?;
        let mut left = first;
        let mut p = p0;
        while matches!(self.tok(p), ParserToken::Ellipsis)
            invariant
                self.wf(),
                pos < p <= self.len(),
                level_of(left) >= 6,
                m_expr(self.ts(), self.bs(), pos as int, left) == Some(p as int),
                step_stmt_at(self.ts(), pos as int) ==> p == pos + 2 && left == step_expr(self.ts(), pos as int),
            decreases self.len() - p,
        {
            let op = BinOp::Range;
            let t = self.skip_newlines(p + 1);
            let (right, q) = self.parse_additive(t)?;
            left = Expr::Binary { op, left: Box::new(left), right: Box::new(right) };
            p = q;
        }
        Ok((left, p))
    }

    /// `a + b`, `a - b`
    fn parse_additive(&self, pos: usize) -> (r: PResult<Expr<'a>>)
        requires
            self.wf(),
            pos <= self.len(),
        ensures
            r matches Ok(x) ==> pos < x.1 <= self.len() && level_of(x.0) >= 7 && m_expr(self.ts(), self.bs(), pos as int, x.0)
                == Some(x.1 as int),
            step_stmt_at(self.ts(), pos as int) ==> r == Ok::<(Expr<'a>, usize), ParseError>(
                (step_expr(self.ts(), pos as int), (pos + 2) as usize),
            ),
        decreases self.len() - pos, 22nat,
    {
        let (first, p0) = self.parse_multiplicative(pos)?;
        let mut left = first;
        let mut p = p0;
        while matches!(self.tok(p), ParserToken::Plus) || matches!(self.tok(p), ParserToken::Minus)
            invariant
                self.wf(),
                pos < p <= self.len(),
                level_of(left) >= 7,
                m_expr(self.ts(), self.bs(), pos as int, left) == Some(p as int),
                step_stmt_at(self.ts(), pos as int) ==> p == pos + 2 && left == step_expr(self.ts(), pos as int),
            decreases self.len() - p,
        {
            let op = if matches!(self.tok(p), ParserToken::Plus) { BinOp::Add } else { BinOp::Sub };
            let t = self.skip_newlines(p + 1);
            let (right, q) = self.parse_multiplicative(t)?;
            left = Expr::Binary { op, left: Box::new(left), right: Box::new(right) };
            p = q;
        }
        Ok((left, p))
    }

    /// `a * b`, `a / b`
    fn parse_multiplicative(&self, pos: usize) -> (r: PResult<Expr<'a>>)
        requires
            self.wf(),
            pos <= self.len(),
        ensures
            r matches Ok(x) ==> pos < x.1 <= self.len() && level_of(x.0) >= 8 && m_expr(self.ts(), self.bs(), pos as int, x.0)
                == Some(x.1 as int),
            step_stmt_at(self.ts(), pos as int) ==> r == Ok::<(Expr<'a>, usize), ParseError>(
                (step_expr(self.ts(), pos as int), (pos + 2) as usize),
            ),
        decreases self.len() - pos, 21nat,
    {
        let (first, p0) = self.parse_unary(pos)?;
        let mut left = first;
        let mut p = p0;
        while matches!(self.tok(p), ParserToken::Star) || matches!(self.tok(p), ParserToken::Slash)
            || matches!(self.tok(p), ParserToken::Percent)
            invariant
                self.wf(),
                pos < p <= self.len(),
                level_of(left) >= 8,
                m_expr(self.ts(), self.bs(), pos as int, left) == Some(p as int),
                step_stmt_at(self.ts(), pos as int) ==> p == pos + 2 && left == step_expr(self.ts(), pos as int),
            decreases self.len() - p,
        {
            let op = match self.tok(p) {
                ParserToken::Star => BinOp::Mul,
                ParserToken::Slash => BinOp::Div,
                _ => {
                    return unexpected("'%' is not supported");
                },
            };
            let t = self.skip_newlines(p + 1);
            let (right, q) = self.parse_unary(t)?;
            left = Expr::Binary { op, left: Box::new(left), right: Box::new(right) };
            p = q;
        }
        Ok((left, p))
    }

    /// `!a`, `-a`, `throw a`, `await a`
    fn parse_unary(&self, pos: usize) -> (r: PResult<Expr<'a>>)
        requires
            self.wf(),
            pos <= self.len(),
        ensures
            r matches Ok(x) ==> pos < x.1 <= self.len() && level_of(x.0) >= 9 && m_expr(self.ts(), self.bs(), pos as int, x.0)
                == Some(x.1 as int),
            step_stmt_at(self.ts(), pos as int) ==> r == Ok::<(Expr<'a>, usize), ParseError>(
                (step_expr(self.ts(), pos as int), (pos + 2) as usize),
            ),
        decreases self.len() - pos, 20nat,
    {
        match self.tok(pos) {
            ParserToken::Bang => {
                let (operand, q) = self.parse_unary(pos + 1)?;
                Ok((Expr::Unary { op: UnOp::Not, operand: Box::new(operand) }, q))
            },
            ParserToken::Minus => {
                let (operand, q) = self.parse_unary(pos + 1)?;
                Ok((Expr::Unary { op: UnOp::Neg, operand: Box::new(operand) }, q))
            },
            ParserToken::Throw => {
                let (operand, q) = self.parse_unary(pos + 1)?;
                Ok((Expr::Unary { op: UnOp::Throw, operand: Box::new(operand) }, q))
            },
            ParserToken::Await => {
                let (operand, q) = self.parse_unary(pos + 1)?;
                Ok((Expr::Await(Box::new(operand)), q))
            },
            _ => self.parse_postfix(pos),
        }
    }

    /// Calls, member access, indexing, `++` and `--` after a primary expression.
    /// It takes every postfix operator that follows; a name followed by `++`
    /// or `--` (and by nothing else that continues it) is an increment or a
    /// decrement of that name.
    fn parse_postfix(&self, pos: usize) -> (r: PResult<Expr<'a>>)
        requires
            self.wf(),
            pos <= self.len(),
        ensures
            r matches Ok(x) ==> pos < x.1 <= self.len() && level_of(x.0) >= 10 && m_expr(self.ts(), self.bs(), pos as int, x.0)
                == Some(x.1 as int),
            r matches Ok(x) ==> !postfix_start(tk(self.ts(), x.1 as int)),
            tk(self.ts(), pos as int) is Identifier && tk(self.ts(), pos + 1) is MinusMinus && !postfix_start(
                tk(self.ts(), pos + 2),
            ) ==> r == Ok::<(Expr<'a>, usize), ParseError>(
                (
                    Expr::PostDecrement(Box::new(Expr::Identifier(tk(self.ts(), pos as int)->Identifier_0))),
                    (pos + 2) as usize,
                ),
            ),
            tk(self.ts(), pos as int) is Identifier && tk(self.ts(), pos + 1) is PlusPlus && !postfix_start(
                tk(self.ts(), pos + 2),
            ) ==> r == Ok::<(Expr<'a>, usize), ParseError>(
                (
                    Expr::PostIncrement(Box::new(Expr::Identifier(tk(self.ts(), pos as int)->Identifier_0))),
                    (pos + 2) as usize,
                ),
            ),
            step_stmt_at(self.ts(), pos as int) ==> r == Ok::<(Expr<'a>, usize), ParseError>(
                (step_expr(self.ts(), pos as int), (pos + 2) as usize),
            ),
        decreases self.len() - pos, 19nat,
    {
        let (first, p0) = self.parse_primary(pos)?;
        let mut e = first;
        let mut p = p0;
        let ghost ts = self.ts();
        let ghost short = tk(ts, pos as int) is Identifier && (tk(ts, pos + 1) is MinusMinus || tk(
            ts,
            pos + 1,
        ) is PlusPlus) && !postfix_start(tk(ts, pos + 2));
        let ghost nm = tk(ts, pos as int)->Identifier_0;
        loop
            invariant
                self.wf(),
                ts == self.ts(),
                short == (tk(ts, pos as int) is Identifier && (tk(ts, pos + 1) is MinusMinus || tk(
                    ts,
                    pos + 1,
                ) is PlusPlus) && !postfix_start(tk(ts, pos + 2))),
                nm == tk(ts, pos as int)->Identifier_0,
                pos < p <= self.len(),
                level_of(e) >= 10,
                m_expr(self.ts(), self.bs(), pos as int, e) == Some(p as int),
                short ==> ((p == pos + 1 && e == Expr::Identifier(nm)) || (p == pos + 2 && tk(ts, pos + 1)
                    is MinusMinus && e == Expr::PostDecrement(Box::new(Expr::Identifier(nm)))) || (p
                    == pos + 2 && tk(ts, pos + 1) is PlusPlus && e == Expr::PostIncrement(
                    Box::new(Expr::Identifier(nm)),
                ))),
            ensures
                pos < p <= self.len(),
                m_expr(self.ts(), self.bs(), pos as int, e) == Some(p as int),
                level_of(e) >= 10,
                !postfix_start(tk(ts, p as int)),
                short ==> p == pos + 2 && ((tk(ts, pos + 1) is MinusMinus && e == Expr::PostDecrement(
                    Box::new(Expr::Identifier(nm)),
                )) || (tk(ts, pos + 1) is PlusPlus && e == Expr::PostIncrement(
                    Box::new(Expr::Identifier(nm)),
                ))),
            decreases self.len() - p,
        {
            match self.tok(p) {
                ParserToken::LParen => {
                    let (args, q) = self.parse_expr_list(p + 1, false)?;
                    e = Expr::Call { callee: Box::new(e), args };
                    p = q;
                },
                ParserToken::Dot => {
                    let (field, q) = self.expect_identifier(p + 1, "expected a field name after '.'")?;
                    e = Expr::Member { object: Box::new(e), field };
                    p = q;
                },
                ParserToken::LBracket => {
                    let t = self.skip_newlines(p + 1);
                    let (index, q) = self.parse_expr(t)?;
                    let q2 = self.skip_newlines(q);
                    if !matches!(self.tok(q2), ParserToken::RBracket) || q2 >= self.toks.len() {
                        return unexpected("expected ']'");
                    }
                    e = Expr::Index { object: Box::new(e), index: Box::new(index) };
                    p = q2 + 1;
                },
                ParserToken::PlusPlus => {
                    e = Expr::PostIncrement(Box::new(e));
                    p = p + 1;
                },
                ParserToken::MinusMinus => {
                    e = Expr::PostDecrement(Box::new(e));
                    p = p + 1;
                },
                _ => {
                    break;
                },
            }
        }
        Ok((e, p))
    }

    /// The token at `p` is `]` (when `brackets`) or `)`.
    fn is_closer(&self, p: usize, brackets: bool) -> (r: bool)
        ensures
            r == closer(self.ts(), p as int, brackets),
    {
        if brackets {
            matches!(self.tok(p), ParserToken::RBracket)
        } else {
            matches!(self.tok(p), ParserToken::RParen)
        }
    }

    /// Parses expressions separated by commas up to and including the closing
    /// `)` (or `]` when `brackets`).
    fn parse_expr_list(&self, pos: usize, brackets: bool) -> (r: PResult<Vec<Expr<'a>>>)
        requires
            self.wf(),
            pos <= self.len(),
        ensures
            r matches Ok(x) ==> pos < x.1 <= self.len() && m_exprs(self.ts(), self.bs(), pos as int, x.0@, brackets)
                == Some(x.1 as int),
        decreases self.len() - pos, 31nat,
    {
        let mut items: Vec<Expr<'a>> = Vec::new();
        let mut p = self.skip_newlines(pos);
        while !self.is_closer(p, brackets)
            invariant
                self.wf(),
                pos <= p <= self.len(),
                m_elist(self.ts(), self.bs(), pos as int, items@, brackets) == Some(p as int),
            decreases self.len() - p,
        {
            let (e, q) = self.parse_expr(p)?;
            let ghost before = items@;
            items.push(e);
            proof {
                assert(items@.drop_last() =~= before);
            }
            p = self.skip_newlines(q);
            if matches!(self.tok(p), ParserToken::Comma) {
                p = self.skip_newlines(p + 1);
            } else if !self.is_closer(p, brackets) {
                return unexpected("expected ',' or a closing bracket");
            }
        }
        if p >= self.toks.len() {
            return unexpected("expected a closing bracket");
        }
        Ok((items, p + 1))
    }

    /// Parses a primary expression; a name is the identifier it spells.
    fn parse_primary(&self, pos: usize) -> (r: PResult<Expr<'a>>)
        requires
            self.wf(),
            pos <= self.len(),
        ensures
            r matches Ok(x) ==> pos < x.1 <= self.len() && level_of(x.0) >= 11 && m_expr(self.ts(), self.bs(), pos as int, x.0)
                == Some(x.1 as int),
            tk(self.ts(), pos as int) matches ParserToken::Identifier(n) ==> r == Ok::<(Expr<'a>, usize), ParseError>(
                (Expr::Identifier(n), (pos + 1) as usize),
            ),
        decreases self.len() - pos, 18nat,
    {
        match self.tok(pos) {
            ParserToken::Identifier(s) => Ok((Expr::Identifier(s), pos + 1)),
            ParserToken::SelfKw => Ok((Expr::Identifier("self"), pos + 1)),
            ParserToken::Number(s) => {
                // `3.14` is lexed as Number Dot Number
                if matches!(self.tok(pos + 1), ParserToken::Dot) && matches!(self.tok(pos + 2), ParserToken::Number(_))
                    && self.end_of(pos) == self.start_of(pos + 1) && self.end_of(pos + 1) == self.start_of(pos + 2) {
                    proof {
                        let t = self.toks@;
                        let i = pos as int;
                        assert(t[i].start <= t[i].end);
                        assert(t[i].end <= t[i + 2].start);
                        assert(t[i + 2].start <= t[i + 2].end);
                    }
                    match try_slice(self.input, self.start_of(pos), self.end_of(pos + 2)) {
                        Some(full) => Ok((Expr::Number(full), pos + 3)),
                        None => Ok((Expr::Number(s), pos + 1)),
                    }
                } else {
                    Ok((Expr::Number(s), pos + 1))
                }
            },
            ParserToken::True => Ok((Expr::True, pos + 1)),
            ParserToken::False => Ok((Expr::False, pos + 1)),
            ParserToken::StringStart => {
                let (lit, q) = self.parse_string_literal(pos)?;
                Ok((Expr::String(lit), q))
            },
            ParserToken::SingleQuoteString(s) => {
                let mut parts: Vec<StringPart<'a>> = Vec::new();
                let start = self.start_of(pos);
                let end = self.end_of(pos);
                proof {
                    let t = self.toks@;
                    let b = self.input.spec_bytes();
                    let i = pos as int;
                    assert(t[i].token is SingleQuoteString);
                    assert(t[i].start <= t[i].end <= b.len());
                    lemma_str_bytes_valid(self.input);
                    lemma_after_ascii(b, start as int);
                }
                if end >= start && end - start >= 2 {
                    match try_slice(self.input, start + 1, end - 1) {
                        Some(inner) => {
                            parts.push(StringPart::Text(inner));
                        },
                        None => {
                            parts.push(StringPart::Text(s));
                        },
                    }
                }
                proof {
                    assert(parts@.len() == 1);
                }
                Ok((Expr::String(StringLiteral { parts }), pos + 1))
            },
            ParserToken::LBracket => {
                let (items, q) = self.parse_expr_list(pos + 1, true)?;
                Ok((Expr::Array(items), q))
            },
            ParserToken::LBrace => self.parse_object(pos),
            ParserToken::LParen => {
                if matches!(self.tok(pos + 1), ParserToken::Dollar) {
                    // `($ command)`: a shell command as an expression
                    let (cmd, q) = self.parse_shell(pos + 2)?;
                    if !matches!(self.tok(q), ParserToken::RParen) || q >= self.toks.len() {
                        return unexpected("expected ')' after a shell command");
                    }
                    assert(m_paren_body(self.ts(), self.bs(), pos + 1, cmd) == Some(q + 1));
                    Ok((Expr::Paren(Box::new(cmd)), q + 1))
                } else {
                    let t = self.skip_newlines(pos + 1);
                    let (inner, q) = self.parse_expr(t)?;
                    let q2 = self.skip_newlines(q);
                    if !matches!(self.tok(q2), ParserToken::RParen) || q2 >= self.toks.len() {
                        return unexpected("expected ')'");
                    }
                    assert(m_paren_body(self.ts(), self.bs(), pos + 1, inner) == Some(q2 + 1));
                    Ok((Expr::Paren(Box::new(inner)), q2 + 1))
                }
            },
            ParserToken::Think => {
                let (block, q) = self.parse_prompt_block(pos + 1)?;
                Ok((Expr::Think(block), q))
            },
            ParserToken::Ask => {
                let (block, q) = self.parse_prompt_block(pos + 1)?;
                Ok((Expr::Ask(block), q))
            },
            ParserToken::Do => {
                let (block, q) = self.parse_block(pos + 1)?;
                Ok((Expr::Do(block), q))
            },
            ParserToken::Task => {
                if !matches!(self.tok(pos + 1), ParserToken::LParen) {
                    return unexpected("expected '(' after 'task'");
                }
                let (tasks, q) = self.parse_expr_list(pos + 2, false)?;
                Ok((Expr::Task(tasks), q))
            },
            ParserToken::Dollar => {
                if matches!(self.tok(pos + 1), ParserToken::LParen) {
                    // `$(command)`: command substitution
                    let (cmd, q) = self.parse_shell(pos + 2)?;
                    if !matches!(self.tok(q), ParserToken::RParen) || q >= self.toks.len() {
                        return unexpected("expected ')' after command substitution");
                    }
                    Ok((Expr::CommandSubst(Box::new(cmd)), q + 1))
                } else {
                    // `$ command`: a shell command statement
                    let (cmd, q) = self.parse_shell(pos + 1)?;
                    proof {
                        lemma_shell_as_expr(self.ts(), self.bs(), pos as int, cmd);
                    }
                    Ok((cmd, q))
                }
            },
            _ => unexpected("expected an expression"),
        }
    }

    /// Reads the name of a field of an object literal: an identifier, or a
    /// keyword followed by `:`.
    fn field_key(&self, p: usize) -> (r: PResult<&'a str>)
        requires
            self.wf(),
        ensures
            r matches Ok(x) ==> x.1 == p + 1 && p < self.len() && field_name(self.ts(), self.bs(), p as int, x.0),
    {
        let t = self.tok(p);
        match t {
            ParserToken::Identifier(name) => Ok((name, p + 1)),
            ParserToken::Import | ParserToken::Export | ParserToken::From | ParserToken::Var
            | ParserToken::If | ParserToken::Else | ParserToken::For | ParserToken::While
            | ParserToken::Await | ParserToken::Task | ParserToken::Worker | ParserToken::Trait
            | ParserToken::Skill | ParserToken::Fun | ParserToken::Default | ParserToken::Type
            | ParserToken::Return | ParserToken::Succeed | ParserToken::Fail | ParserToken::Throw
            | ParserToken::Break | ParserToken::SelfKw | ParserToken::In | ParserToken::True
            | ParserToken::False | ParserToken::Think | ParserToken::Ask | ParserToken::Do => {
                if p >= self.toks.len() || !matches!(self.tok(p + 1), ParserToken::Colon) {
                    return unexpected("expected a field name");
                }
                let start = self.toks[p].start;
                let end = self.toks[p].end;
                match try_slice(self.input, start, end) {
                    Some(key) => Ok((key, p + 1)),
                    None => unexpected("expected a field name"),
                }
            },
            _ => unexpected("expected a field name"),
        }
    }

    /// Parses an object literal `{ key: value, shorthand }`.
    fn parse_object(&self, pos: usize) -> (r: PResult<Expr<'a>>)
        requires
            self.wf(),
            pos < self.len(),
            tk(self.ts(), pos as int) is LBrace,
        ensures
            r matches Ok(x) ==> pos < x.1 <= self.len() && level_of(x.0) >= 11 && m_expr(self.ts(), self.bs(), pos as int, x.0)
                == Some(x.1 as int),
        decreases self.len() - pos, 5nat,
    {
        let _n = self.toks.len();
        let mut fields: Vec<ObjectField<'a>> = Vec::new();
        let mut p = self.skip_newlines(pos + 1);
        while !matches!(self.tok(p), ParserToken::RBrace)
            invariant
                self.wf(),
                pos < p <= self.len(),
                tk(self.ts(), pos as int) is LBrace,
                m_ofields(self.ts(), self.bs(), pos + 1, fields@) == Some(p as int),
            decreases self.len() - p,
        {
            let (key, q) = self.field_key(p)?;
            let mut q2 = q;
            let mut value: Option<Expr<'a>> = None;
            if matches!(self.tok(q2), ParserToken::Colon) {
                let t = self.skip_newlines(q2 + 1);
                let (v, q3) = self.parse_expr(t)?;
                value = Some(v);
                q2 = q3;
            }
            let ghost before = fields@;
            fields.push(ObjectField { key, value });
            proof {
                assert(fields@.drop_last() =~= before);
            }
            p = self.skip_newlines(q2);
            if matches!(self.tok(p), ParserToken::Comma) {
                p = self.skip_newlines(p + 1);
            } else if !matches!(self.tok(p), ParserToken::RBrace) {
                return unexpected("expected ',' or '}' in object literal");
            }
        }
        if p >= self.toks.len() {
            return unexpected("expected '}'");
        }
        Ok((Expr::Object(fields), p + 1))
    }

    /// Parses a double-quoted string literal starting at its opening quote.
    fn parse_string_literal(&self, pos: usize) -> (r: PResult<StringLiteral<'a>>)
        requires
            self.wf(),
            pos <= self.len(),
        ensures
            r matches Ok(x) ==> pos < x.1 <= self.len() && m_strlit(self.ts(), self.bs(), pos as int, x.0)
                == Some(x.1 as int),
        decreases self.len() - pos, 5nat,
    {
        if !matches!(self.tok(pos), ParserToken::StringStart) {
            return unexpected("expected a string");
        }
        let mut parts: Vec<StringPart<'a>> = Vec::new();
        let mut p = pos + 1;
        loop
            invariant
                self.wf(),
                pos < p <= self.len(),
                tk(self.ts(), pos as int) is StringStart,
                m_sparts(self.ts(), self.bs(), pos + 1, parts@) == Some(p as int),
            decreases self.len() - p,
        {
            let ghost before = parts@;
            match self.tok(p) {
                ParserToken::StringEnd => {
                    return Ok((StringLiteral { parts }, p + 1));
                },
                ParserToken::StringText(s) => {
                    parts.push(StringPart::Text(s));
                    proof {
                        assert(parts@.drop_last() =~= before);
                    }
                    p = p + 1;
                },
                ParserToken::Dollar => {
                    let (e, q) = self.parse_interpolation(p + 1)?;
                    parts.push(StringPart::Interpolation(Box::new(e)));
                    proof {
                        assert(parts@.drop_last() =~= before);
                    }
                    p = q;
                },
                _ => {
                    return unexpected("unterminated string");
                },
            }
        }
    }

    /// Parses what follows `$` in a string or prompt: `name`, `{expr}`,
    /// `(expr)` or `(command)`.
    fn parse_interpolation(&self, pos: usize) -> (r: PResult<Expr<'a>>)
        requires
            self.wf(),
            pos <= self.len(),
        ensures
            r matches Ok(x) ==> pos < x.1 <= self.len() && m_interp(self.ts(), self.bs(), pos as int, x.0)
                == Some(x.1 as int),
        decreases self.len() - pos, 4nat,
    {
        match self.tok(pos) {
            ParserToken::Identifier(s) => Ok((Expr::Identifier(s), pos + 1)),
            ParserToken::SelfKw => Ok((Expr::Identifier("self"), pos + 1)),
            ParserToken::LBrace => {
                let t = self.skip_newlines(pos + 1);
                let (e, q) = self.parse_expr(t)?;
                let q2 = self.skip_newlines(q);
                if !matches!(self.tok(q2), ParserToken::RBrace) || q2 >= self.toks.len() {
                    return unexpected("expected '}' after an interpolated expression");
                }
                Ok((e, q2 + 1))
            },
            ParserToken::LParen => {
                if self.is_shell_token(pos + 1) {
                    let (cmd, q) = self.parse_shell(pos + 1)?;
                    if !matches!(self.tok(q), ParserToken::RParen) || q >= self.toks.len() {
                        return unexpected("expected ')' after command substitution");
                    }
                    Ok((Expr::CommandSubst(Box::new(cmd)), q + 1))
                } else {
                    let t = self.skip_newlines(pos + 1);
                    let (e, q) = self.parse_expr(t)?;
                    let q2 = self.skip_newlines(q);
                    if !matches!(self.tok(q2), ParserToken::RParen) || q2 >= self.toks.len() {
                        return unexpected("expected ')' after an interpolated expression");
                    }
                    Ok((e, q2 + 1))
                }
            },
            _ => unexpected("expected a name, '{' or '(' after '$'"),
        }
    }

    /// The token at `p` was read in shell mode.
    fn is_shell_token(&self, p: usize) -> (r: bool)
        ensures
            r == (tk(self.ts(), p as int) is ShellArg),
    {
        matches!(self.tok(p), ParserToken::ShellArg(_))
    }

    /// Parses the content of a prompt block, starting at its `{`.
    /// The state of reading a prompt block: the items so far, and the run of
    /// plain text not yet added (its first and last token); `qi` and `d0`
    /// are where the items end and the brace depth there, `depth` the depth
    /// at `p`.
    spec fn prompt_state(
        &self,
        start: int,
        items: Seq<PromptItem<'a>>,
        run: Option<(usize, usize)>,
        qi: int,
        d0: int,
        depth: int,
        p: int,
    ) -> bool {
        let t = self.ts();
        match run {
            None => m_pitems(t, self.bs(), start, items) == Some((qi, depth)) && skip_nl(t, qi) == skip_nl(
                t,
                p,
            ),
            Some((first, last)) => {
                &&& m_pitems(t, self.bs(), start, items) == Some((qi, d0))
                &&& skip_nl(t, qi) == first
                &&& text_like(t, first as int, d0)
                &&& run_scan(t, first as int, d0, first as int) == run_scan(t, p, depth, last as int)
                &&& skip_nl(t, last + 1) == skip_nl(t, p)
                &&& first <= last < p
            },
        }
    }

    /// A plain text token at `p` extends the pending run.
    proof fn lemma_extend_run(
        &self,
        start: int,
        items: Seq<PromptItem<'a>>,
        run: Option<(usize, usize)>,
        qi: int,
        d0: int,
        depth: int,
        p: usize,
    )
        requires
            self.prompt_state(start, items, run, qi, d0, depth, p as int),
            p < self.len(),
            text_like(self.ts(), p as int, depth),
        ensures
            self.prompt_state(
                start,
                items,
                match run {
                    Some((first, _)) => Some((first, p)),
                    None => Some((p, p)),
                },
                qi,
                if run is None {
                    depth
                } else {
                    d0
                },
                depth_after(self.ts(), p as int, depth),
                p + 1,
            ),
    {
        let t = self.ts();
        assert(run_scan(t, p as int, depth, p as int) == run_scan(t, p + 1, depth_after(t, p as int, depth), p as int));
        match run {
            Some((first, last)) => {
                assert(run_scan(t, p as int, depth, last as int) == run_scan(t, p + 1, depth_after(t, p as int, depth), p as int));
            },
            None => {},
        }
    }

    /// A newline at `p` is skipped.
    proof fn lemma_skip_newline(
        &self,
        start: int,
        items: Seq<PromptItem<'a>>,
        run: Option<(usize, usize)>,
        qi: int,
        d0: int,
        depth: int,
        p: usize,
    )
        requires
            self.prompt_state(start, items, run, qi, d0, depth, p as int),
            p < self.len(),
            tk(self.ts(), p as int) is Newline,
        ensures
            self.prompt_state(start, items, run, qi, d0, depth, p + 1),
    {
        let t = self.ts();
        assert(skip_nl(t, p as int) == skip_nl(t, p + 1));
        match run {
            Some((first, last)) => {
                assert(run_scan(t, p as int, depth, last as int) == run_scan(t, p + 1, depth, last as int));
            },
            None => {},
        }
    }

    /// Parses the content of a prompt block, starting at its `{`.
    fn parse_prompt_block(&self, pos: usize) -> (r: PResult<PromptBlock<'a>>)
        requires
            self.wf(),
            pos <= self.len(),
        ensures
            r matches Ok(x) ==> pos < x.1 <= self.len() && m_prompt(self.ts(), self.bs(), pos as int, x.0)
                == Some(x.1 as int),
        decreases self.len() - pos, 5nat,
    {
        if !matches!(self.tok(pos), ParserToken::LBrace) {
            return unexpected("expected '{' after think or ask");
        }
        let mut items: Vec<PromptItem<'a>> = Vec::new();
        let mut depth: usize = 0;
        // The run of text not yet added: token positions of its first and last token
        let mut run: Option<(usize, usize)> = None;
        let mut p = pos + 1;
        let ghost start = pos + 1;
        let ghost mut qi: int = pos + 1;
        let ghost mut d0: int = 0;
        loop
            invariant
                self.wf(),
                pos < p <= self.len(),
                start == pos + 1,
                tk(self.ts(), pos as int) is LBrace,
                run matches Some(x) ==> pos < x.0 <= x.1 < p,
                self.prompt_state(start, items@, run, qi, d0, depth as int, p as int),
            decreases self.len() - p,
        {
            let ghost before = items@;
            match self.tok(p) {
                ParserToken::RBrace => {
                    if depth == 0 {
                        let Ghost(qf) = self.flush_text(&mut items, run, Ghost(start), Ghost(qi), Ghost(d0), Ghost(depth as int), Ghost(p as int));
                        return Ok((PromptBlock { items }, p + 1));
                    }
                    proof {
                        self.lemma_extend_run(start, items@, run, qi, d0, depth as int, p);
                        if run is None {
                            d0 = depth as int;
                        }
                    }
                    depth = depth - 1;
                    run = Self::extend_run(run, p);
                    p = p + 1;
                },
                ParserToken::LBrace => {
                    proof {
                        self.lemma_extend_run(start, items@, run, qi, d0, depth as int, p);
                        if run is None {
                            d0 = depth as int;
                        }
                    }
                    if depth < usize::MAX {
                        depth = depth + 1;
                    }
                    run = Self::extend_run(run, p);
                    p = p + 1;
                },
                ParserToken::PromptText(_) => {
                    proof {
                        self.lemma_extend_run(start, items@, run, qi, d0, depth as int, p);
                        if run is None {
                            d0 = depth as int;
                        }
                    }
                    run = Self::extend_run(run, p);
                    p = p + 1;
                },
                ParserToken::Newline(_) => {
                    proof {
                        self.lemma_skip_newline(start, items@, run, qi, d0, depth as int, p);
                    }
                    p = p + 1;
                },
                ParserToken::Do => {
                    if matches!(self.tok(p + 1), ParserToken::LBrace) {
                        let Ghost(qf) = self.flush_text(&mut items, run, Ghost(start), Ghost(qi), Ghost(d0), Ghost(depth as int), Ghost(p as int));
                        run = None;
                        let (block, q) = self.parse_block(p + 1)?;
                        let ghost flushed = items@;
                        items.push(PromptItem::Code(block));
                        proof {
                            assert(items@.drop_last() =~= flushed);
                            qi = q as int;
                        }
                        p = q;
                    } else {
                        proof {
                            self.lemma_extend_run(start, items@, run, qi, d0, depth as int, p);
                            if run is None {
                                d0 = depth as int;
                            }
                        }
                        run = Self::extend_run(run, p);
                        p = p + 1;
                    }
                },
                ParserToken::Dollar => {
                    let Ghost(qf) = self.flush_text(&mut items, run, Ghost(start), Ghost(qi), Ghost(d0), Ghost(depth as int), Ghost(p as int));
                    run = None;
                    let (e, q) = self.parse_interpolation(p + 1)?;
                    let ghost flushed = items@;
                    items.push(PromptItem::Interpolation(e));
                    proof {
                        assert(items@.drop_last() =~= flushed);
                        qi = q as int;
                    }
                    p = q;
                },
                ParserToken::PromptEscape(c) => {
                    let Ghost(qf) = self.flush_text(&mut items, run, Ghost(start), Ghost(qi), Ghost(d0), Ghost(depth as int), Ghost(p as int));
                    run = None;
                    let ghost flushed = items@;
                    items.push(PromptItem::Text(c));
                    proof {
                        assert(items@.drop_last() =~= flushed);
                        qi = p + 1;
                    }
                    p = p + 1;
                },
                ParserToken::End => {
                    return unexpected("unterminated prompt block");
                },
                _ => {
                    return unexpected("unexpected token in prompt block");
                },
            }
        }
    }

    /// Adds the token at `p` to a run of text.
    fn extend_run(run: Option<(usize, usize)>, p: usize) -> (r: Option<(usize, usize)>)
        ensures
            r matches Some(x) ==> x.1 == p && (run matches Some(y) ==> x.0 == y.0) && (run is None ==> x.0 == p),
            r is Some,
    {
        match run {
            Some((first, _)) => Some((first, p)),
            None => Some((p, p)),
        }
    }

    /// Adds a run of text tokens to `items` as one text: the source text from
    /// the start of its first token to the end of its last.
    fn flush_text(
        &self,
        items: &mut Vec<PromptItem<'a>>,
        run: Option<(usize, usize)>,
        Ghost(start): Ghost<int>,
        Ghost(qi): Ghost<int>,
        Ghost(d0): Ghost<int>,
        Ghost(depth): Ghost<int>,
        Ghost(p): Ghost<int>,
    ) -> (qf: Ghost<int>)
        requires
            self.wf(),
            p <= self.len(),
            self.prompt_state(start, old(items)@, run, qi, d0, depth, p),
            !(tk(self.ts(), p) is Newline),
            !text_like(self.ts(), p, depth),
        ensures
            m_pitems(self.ts(), self.bs(), start, final(items)@) == Some((qf@, depth)),
            skip_nl(self.ts(), qf@) == p,
    {
        let ghost t = self.ts();
        match run {
            None => {
                Ghost(qi)
            },
            Some((first, last)) => {
                let start_b = self.start_of(first);
                let end_b = self.end_of(last);
                proof {
                    let tt = self.toks@;
                    assert(tt[first as int].start <= tt[first as int].end);
                    assert(tt[last as int].start <= tt[last as int].end);
                    if first < last {
                        assert(tt[first as int].end <= tt[last as int].start);
                    }
                    assert(run_scan(t, p, depth, last as int) == (last as int, depth));
                }
                let ghost before = items@;
                match try_slice(self.input, start_b, end_b) {
                    Some(text) => {
                        items.push(PromptItem::Text(text));
                    },
                    None => {
                        items.push(PromptItem::Text(""));
                    },
                }
                proof {
                    assert(items@.drop_last() =~= before);
                }
                Ghost(last + 1)
            },
        }
    }

    // ===== Shell commands =====

    /// Parses a shell expression: commands joined by `||`.
    fn parse_shell(&self, pos: usize) -> (r: PResult<Expr<'a>>)
        requires
            self.wf(),
            pos <= self.len(),
        ensures
            r matches Ok(x) ==> pos < x.1 <= self.len() && shell_level(x.0) >= 1 && m_shell(self.ts(), self.bs(), pos as int, x.0)
                == Some(x.1 as int),
        decreases self.len() - pos, 13nat,
    {
        let (first, p0) = self.parse_shell_and(pos)?;
        let mut left = first;
        let mut p = p0;
        while matches!(self.tok(p), ParserToken::ShellOr)
            invariant
                self.wf(),
                pos < p <= self.len(),
                shell_level(left) >= 1,
                m_shell(self.ts(), self.bs(), pos as int, left) == Some(p as int),
            decreases self.len() - p,
        {
            let (right, q) = self.parse_shell_and(p + 1)?;
            left = Expr::ShellOr { left: Box::new(left), right: Box::new(right) };
            p = q;
        }
        Ok((left, p))
    }

    /// Commands joined by `&&`.
    fn parse_shell_and(&self, pos: usize) -> (r: PResult<Expr<'a>>)
        requires
            self.wf(),
            pos <= self.len(),
        ensures
            r matches Ok(x) ==> pos < x.1 <= self.len() && shell_level(x.0) >= 2 && m_shell(self.ts(), self.bs(), pos as int, x.0)
                == Some(x.1 as int),
        decreases self.len() - pos, 12nat,
    {
        let (first, p0) = self.parse_shell_pipe(pos)?;
        let mut left = first;
        let mut p = p0;
        while matches!(self.tok(p), ParserToken::ShellAnd)
            invariant
                self.wf(),
                pos < p <= self.len(),
                shell_level(left) >= 2,
                m_shell(self.ts(), self.bs(), pos as int, left) == Some(p as int),
            decreases self.len() - p,
        {
            let (right, q) = self.parse_shell_pipe(p + 1)?;
            left = Expr::ShellAnd { left: Box::new(left), right: Box::new(right) };
            p = q;
        }
        Ok((left, p))
    }

    /// Commands joined by `|`.
    fn parse_shell_pipe(&self, pos: usize) -> (r: PResult<Expr<'a>>)
        requires
            self.wf(),
            pos <= self.len(),
        ensures
            r matches Ok(x) ==> pos < x.1 <= self.len() && shell_level(x.0) >= 3 && m_shell(self.ts(), self.bs(), pos as int, x.0)
                == Some(x.1 as int),
        decreases self.len() - pos, 11nat,
    {
        let (first, p0) = self.parse_shell_redirect(pos)?;
        let mut left = first;
        let mut p = p0;
        while matches!(self.tok(p), ParserToken::ShellPipe)
            invariant
                self.wf(),
                pos < p <= self.len(),
                shell_level(left) >= 3,
                m_shell(self.ts(), self.bs(), pos as int, left) == Some(p as int),
            decreases self.len() - p,
        {
            let (right, q) = self.parse_shell_redirect(p + 1)?;
            left = Expr::ShellPipe { left: Box::new(left), right: Box::new(right) };
            p = q;
        }
        Ok((left, p))
    }

    /// The redirection operator of the token at `p`, if it is one.
    fn redirect_op(&self, p: usize) -> (r: Option<RedirectOp>)
        ensures
            r matches Some(op) ==> redirect_token(op, tk(self.ts(), p as int)),
            r is None ==> !is_redirect(tk(self.ts(), p as int)),
    {
        match self.tok(p) {
            ParserToken::ShellRedirectOut => Some(RedirectOp::Out),
            ParserToken::ShellRedirectAppend => Some(RedirectOp::Append),
            ParserToken::ShellRedirectIn => Some(RedirectOp::In),
            ParserToken::ShellRedirectErr => Some(RedirectOp::ErrOut),
            ParserToken::ShellRedirectErrToOut => Some(RedirectOp::ErrToOut),
            _ => None,
        }
    }

    /// A command followed by redirections: `cmd > file`.
    fn parse_shell_redirect(&self, pos: usize) -> (r: PResult<Expr<'a>>)
        requires
            self.wf(),
            pos <= self.len(),
        ensures
            r matches Ok(x) ==> pos < x.1 <= self.len() && shell_level(x.0) >= 4 && m_shell(self.ts(), self.bs(), pos as int, x.0)
                == Some(x.1 as int),
        decreases self.len() - pos, 10nat,
    {
        let (first, p0) = self.parse_shell_command(pos)?;
        let mut command = first;
        let mut p = p0;
        loop
            invariant
                self.wf(),
                pos < p <= self.len(),
                shell_level(command) >= 4,
                m_shell(self.ts(), self.bs(), pos as int, command) == Some(p as int),
            decreases self.len() - p,
        {
            match self.redirect_op(p) {
                Some(op) => {
                    if p >= self.toks.len() {
                        return unexpected("expected a redirection target");
                    }
                    match self.tok(p + 1) {
                        ParserToken::ShellArg(s) => {
                            command = Expr::ShellRedirect { command: Box::new(command), op, target: Box::new(Expr::Identifier(s)) };
                            p = p + 2;
                        },
                        ParserToken::StringStart => {
                            let (lit, q) = self.parse_string_literal(p + 1)?;
                            command = Expr::ShellRedirect { command: Box::new(command), op, target: Box::new(Expr::String(lit)) };
                            p = q;
                        },
                        _ => {
                            if matches!(op, RedirectOp::ErrToOut) {
                                // `2>&1` needs no target
                                command = Expr::ShellRedirect { command: Box::new(command), op, target: Box::new(Expr::Identifier("")) };
                                p = p + 1;
                            } else {
                                return unexpected("expected a redirection target");
                            }
                        },
                    }
                },
                None => {
                    break;
                },
            }
        }
        Ok((command, p))
    }

    /// A command name and its arguments.
    fn parse_shell_command(&self, pos: usize) -> (r: PResult<Expr<'a>>)
        requires
            self.wf(),
            pos <= self.len(),
        ensures
            r matches Ok(x) ==> pos < x.1 <= self.len() && shell_level(x.0) >= 5 && m_shell(self.ts(), self.bs(), pos as int, x.0)
                == Some(x.1 as int),
        decreases self.len() - pos, 9nat,
    {
        let name = match self.tok(pos) {
            ParserToken::ShellArg(s) => s,
            _ => {
                return unexpected("expected a command name");
            },
        };
        let mut args: Vec<CommandArg<'a>> = Vec::new();
        let mut p = pos + 1;
        loop
            invariant
                self.wf(),
                pos < p <= self.len(),
                tk(self.ts(), pos as int) == ParserToken::ShellArg(name),
                m_cmdargs(self.ts(), self.bs(), pos + 1, args@) == Some(skip_bs(self.ts(), p as int)),
            ensures
                !cmd_arg_start(tk(self.ts(), p as int)),
            decreases self.len() - p,
        {
            let ghost before = args@;
            match self.tok(p) {
                ParserToken::ShellArg(s) => {
                    args.push(CommandArg::Literal(s));
                    proof {
                        assert(args@.drop_last() =~= before);
                    }
                    p = p + 1;
                },
                ParserToken::SingleQuoteString(s) => {
                    args.push(CommandArg::Literal(s));
                    proof {
                        assert(args@.drop_last() =~= before);
                    }
                    p = p + 1;
                },
                ParserToken::ShellAssign => {
                    args.push(CommandArg::Literal("="));
                    proof {
                        assert(args@.drop_last() =~= before);
                    }
                    p = p + 1;
                },
                ParserToken::ShellBackslash => {
                    // Line continuation
                    if matches!(self.tok(p + 1), ParserToken::Newline(_)) {
                        p = p + 2;
                    } else {
                        p = p + 1;
                    }
                },
                ParserToken::StringStart => {
                    let (lit, q) = self.parse_string_literal(p)?;
                    args.push(CommandArg::String(lit));
                    proof {
                        assert(args@.drop_last() =~= before);
                    }
                    p = q;
                },
                ParserToken::Dollar => {
                    let e = match self.tok(p + 1) {
                        ParserToken::ShellArg(s) => Expr::Identifier(s),
                        _ => {
                            let (e, q) = self.parse_interpolation(p + 1)?;
                            let mut parts: Vec<StringPart<'a>> = Vec::new();
                            parts.push(StringPart::Interpolation(Box::new(e)));
                            args.push(CommandArg::String(StringLiteral { parts }));
                            proof {
                                assert(args@.drop_last() =~= before);
                            }
                            p = q;
                            continue;
                        },
                    };
                    let mut parts: Vec<StringPart<'a>> = Vec::new();
                    parts.push(StringPart::Interpolation(Box::new(e)));
                    args.push(CommandArg::String(StringLiteral { parts }));
                    proof {
                        assert(args@.drop_last() =~= before);
                    }
                    p = p + 2;
                },
                _ => {
                    break;
                },
            }
        }
        Ok((Expr::BareCommand { name, args }, p))
    }
}

/// `prog` is a parse of the text `text`: of the parser tokens of its lexing.
pub open spec fn parses_to<'a>(text: Seq<char>, prog: Program<'a>) -> bool {
    let b = encode_utf8(text);
    exists|pt: Toks<'a>| lexed_as(b, pt) && m_program(pt, b, prog)
}

/// Past position `i`, newlines and `;` are skipped alike in the lexer's
/// significant tokens and in the parser tokens made of them.
proof fn lemma_skip_sep_rules<'a>(b: Seq<u8>, pt: Toks<'a>, i: int)
    requires
        lexed_as(b, pt),
        0 <= i,
    ensures
        skip_sep(pt, i) == skip_sep_rules(significant(lex_tokens(b)), i),
    decreases pt.len() - i,
{
    let sig = significant(lex_tokens(b));
    if i < pt.len() {
        assert(spanned_for(pt[i], sig[i], b));
        lemma_converts_separators(sig[i].rule, b.subrange(span_start(sig[i]), span_end(sig[i])), pt[i].token);
        lemma_skip_sep_rules(b, pt, i + 1);
    }
}

/// Where the text is blank, the parser tokens of its lexing reach the end
/// past newlines and `;`.
proof fn lemma_blank_tokens<'a>(b: Seq<u8>, pt: Toks<'a>)
    requires
        lexed_as(b, pt),
        blank_text(b),
    ensures
        tk(pt, skip_sep(pt, 0)) is End,
{
    let sig = significant(lex_tokens(b));
    lemma_skip_sep_rules(b, pt, 0);
    let k = skip_sep_rules(sig, 0);
    if 0 <= k < pt.len() {
        assert(spanned_for(pt[k], sig[k], b));
        lemma_converts_separators(sig[k].rule, b.subrange(span_start(sig[k]), span_end(sig[k])), pt[k].token);
    }
}

/// Parses a patchwork program. A program it returns is a parse of the
/// input; where the parser meets a token with which it cannot go on, it
/// fails.
pub fn parse<'a>(input: &'a str) -> (r: Result<Program<'a>, ParseError>)
    ensures
        r matches Ok(prog) ==> parses_to(input@, prog),
        blank_text(input.spec_bytes()) ==> (r matches Ok(prog) && prog.items@.len() == 0),
{
    let toks = parser_tokens(input);
    proof {
        if blank_text(input.spec_bytes()) {
            lemma_blank_tokens(input.spec_bytes(), toks@);
        }
    }
    let parser = Parser { input, toks };
    parser.parse_program()
}

} // verus!
