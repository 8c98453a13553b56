//! The grammar of patchwork programs, stated over parser tokens.
//!
//! Each `m_*` function matches one piece of syntax tree against the tokens
//! starting at a position, and gives the position just after the tokens it
//! stands for, or `None` where the tokens there do not spell it. A syntax
//! tree is a parse of a token sequence when matching it from the first token
//! leads to the end. Newlines are skipped exactly where the grammar allows
//! them: after binary operators, inside brackets, braces and parentheses, and
//! between statements and items.
use vstd::prelude::*;
use vstd::string::StringSliceAdditionalSpecFns;
use crate::token::{ParserToken, SpannedToken};
use crate::ast::{
    Program, Item, ImportPath, Param, Block, Pattern, ObjectPatternField, Statement, TypeExpr,
    TypeField, BinOp, UnOp, StringLiteral, StringPart, CommandArg, RedirectOp, Expr, ObjectField,
    PromptBlock, PromptItem,
};

verus! {

/// A sequence of parser tokens.
pub type Toks<'a> = Seq<SpannedToken<'a>>;

// ===== Positions =====

/// The token at `i`, or `End` past the last one.
pub open spec fn tk<'a>(t: Toks<'a>, i: int) -> ParserToken<'a> {
    if 0 <= i < t.len() {
        t[i].token
    } else {
        ParserToken::End
    }
}

/// Byte where the token at `i` starts (the end of the text past the last token).
pub open spec fn tstart<'a>(t: Toks<'a>, b: Seq<u8>, i: int) -> int {
    if 0 <= i < t.len() {
        t[i].start as int
    } else {
        b.len() as int
    }
}

/// Byte where the token at `i` ends (the end of the text past the last token).
pub open spec fn tend<'a>(t: Toks<'a>, b: Seq<u8>, i: int) -> int {
    if 0 <= i < t.len() {
        t[i].end as int
    } else {
        b.len() as int
    }
}

/// The first position at or after `i` that holds no newline.
pub open spec fn skip_nl<'a>(t: Toks<'a>, i: int) -> int
    decreases t.len() - i,
{
    if 0 <= i < t.len() && t[i].token is Newline {
        skip_nl(t, i + 1)
    } else {
        i
    }
}

/// The first position at or after `i` that holds no newline and no `;`.
pub open spec fn skip_sep<'a>(t: Toks<'a>, i: int) -> int
    decreases t.len() - i,
{
    if 0 <= i < t.len() && (t[i].token is Newline || t[i].token is Semicolon) {
        skip_sep(t, i + 1)
    } else {
        i
    }
}

/// The first position at or after `i` past line continuations (`\`, or `\`
/// and a newline) in a shell command.
pub open spec fn skip_bs<'a>(t: Toks<'a>, i: int) -> int
    decreases t.len() - i,
{
    if 0 <= i < t.len() && t[i].token is ShellBackslash {
        if tk(t, i + 1) is Newline {
            skip_bs(t, i + 2)
        } else {
            skip_bs(t, i + 1)
        }
    } else {
        i
    }
}

/// After a list element: a comma (and newlines) before the next element, or
/// newlines before the closing token (`]` when `br`, else `)`).
pub open spec fn closer<'a>(t: Toks<'a>, p: int, br: bool) -> bool {
    if br {
        tk(t, p) is RBracket
    } else {
        tk(t, p) is RParen
    }
}

/// Position of the next list element after an element ending at `q`, in a
/// list closed by `)` or `]`.
pub open spec fn list_sep<'a>(t: Toks<'a>, q: int, br: bool) -> Option<int> {
    let p = skip_nl(t, q);
    if tk(t, p) is Comma {
        Some(skip_nl(t, p + 1))
    } else if closer(t, p, br) {
        Some(p)
    } else {
        None
    }
}

/// Position of the next entry after an entry ending at `q`, in a list closed by `}`.
pub open spec fn brace_sep<'a>(t: Toks<'a>, q: int) -> Option<int> {
    let p = skip_nl(t, q);
    if tk(t, p) is Comma {
        Some(skip_nl(t, p + 1))
    } else if tk(t, p) is RBrace {
        Some(p)
    } else {
        None
    }
}

// ===== Operators =====

/// Binding strength of a binary operator; higher binds tighter.
pub open spec fn prec(op: BinOp) -> int {
    match op {
        BinOp::Assign => 0,
        BinOp::Pipe => 1,
        BinOp::Or => 2,
        BinOp::And => 3,
        BinOp::Eq | BinOp::NotEq => 4,
        BinOp::Lt | BinOp::Gt => 5,
        BinOp::Range => 6,
        BinOp::Add | BinOp::Sub => 7,
        BinOp::Mul | BinOp::Div => 8,
    }
}

/// Binding strength of prefix operators.
pub open spec fn prefix_level() -> int {
    9
}

/// Binding strength of calls, member access, indexing, `++` and `--`.
pub open spec fn postfix_level() -> int {
    10
}

/// Binding strength of an expression's outermost construct.
pub open spec fn level_of(e: Expr) -> int {
    match e {
        Expr::Binary { op, .. } => prec(op),
        Expr::Unary { .. } | Expr::Await(_) => prefix_level(),
        Expr::Call { .. } | Expr::Member { .. } | Expr::Index { .. } | Expr::PostIncrement(_)
        | Expr::PostDecrement(_) => postfix_level(),
        _ => 11,
    }
}

/// `tok` is the token of binary operator `op`.
pub open spec fn op_token(op: BinOp, tok: ParserToken) -> bool {
    match op {
        BinOp::Assign => tok is Assign,
        BinOp::Pipe => tok is Pipe,
        BinOp::Or => tok is OrOr,
        BinOp::And => tok is AndAnd,
        BinOp::Eq => tok is Eq,
        BinOp::NotEq => tok is Neq,
        BinOp::Lt => tok is Lt,
        BinOp::Gt => tok is Gt,
        BinOp::Range => tok is Ellipsis,
        BinOp::Add => tok is Plus,
        BinOp::Sub => tok is Minus,
        BinOp::Mul => tok is Star,
        BinOp::Div => tok is Slash,
    }
}

/// `tok` is the token of prefix operator `op`.
pub open spec fn unop_token(op: UnOp, tok: ParserToken) -> bool {
    match op {
        UnOp::Not => tok is Bang,
        UnOp::Neg => tok is Minus,
        UnOp::Throw => tok is Throw,
    }
}

/// `tok` is the token of redirection `op`.
pub open spec fn redirect_token(op: RedirectOp, tok: ParserToken) -> bool {
    match op {
        RedirectOp::Out => tok is ShellRedirectOut,
        RedirectOp::Append => tok is ShellRedirectAppend,
        RedirectOp::In => tok is ShellRedirectIn,
        RedirectOp::ErrOut => tok is ShellRedirectErr,
        RedirectOp::ErrToOut => tok is ShellRedirectErrToOut,
    }
}

/// `tok` is a redirection token.
pub open spec fn is_redirect(tok: ParserToken) -> bool {
    tok is ShellRedirectOut || tok is ShellRedirectAppend || tok is ShellRedirectIn
        || tok is ShellRedirectErr || tok is ShellRedirectErrToOut
}

/// Binding strength of a shell construct: `||` loosest, then `&&`, `|`,
/// redirections, and commands; 0 for what is no shell construct.
pub open spec fn shell_level(e: Expr) -> int {
    match e {
        Expr::ShellOr { .. } => 1,
        Expr::ShellAnd { .. } => 2,
        Expr::ShellPipe { .. } => 3,
        Expr::ShellRedirect { .. } => 4,
        Expr::BareCommand { .. } => 5,
        _ => 0,
    }
}

/// `tok` may start an argument of a shell command (or continue its line).
pub open spec fn cmd_arg_start(tok: ParserToken) -> bool {
    tok is ShellArg || tok is SingleQuoteString || tok is ShellAssign || tok is ShellBackslash
        || tok is StringStart || tok is Dollar
}

/// `tok` ends a bare `return`.
pub open spec fn ends_return(tok: ParserToken) -> bool {
    tok is Newline || tok is Semicolon || tok is RBrace || tok is End
}

/// `tok` starts a statement that is no expression.
pub open spec fn statement_keyword(tok: ParserToken) -> bool {
    tok is Var || tok is If || tok is For || tok is While || tok is Return || tok is Succeed
        || tok is Fail || tok is Break || tok is Type
}

/// The tokens at `i` are a number, `.` and a number with nothing between them.
pub open spec fn number_dot_number<'a>(t: Toks<'a>, b: Seq<u8>, i: int) -> bool {
    &&& tk(t, i) is Number
    &&& tk(t, i + 1) is Dot
    &&& tk(t, i + 2) is Number
    &&& tend(t, b, i) == tstart(t, b, i + 1)
    &&& tend(t, b, i + 1) == tstart(t, b, i + 2)
}

// ===== Prompt text =====

/// In a prompt block at brace depth `d`, the token at `i` is part of plain
/// text: prompt text, a brace that does not close the block, or a `do` that
/// opens no code block.
pub open spec fn text_like<'a>(t: Toks<'a>, i: int, d: int) -> bool {
    match tk(t, i) {
        ParserToken::PromptText(_) => true,
        ParserToken::LBrace => true,
        ParserToken::RBrace => d > 0,
        ParserToken::Do => !(tk(t, i + 1) is LBrace),
        _ => false,
    }
}

/// Brace depth after the text token at `i` at depth `d`.
pub open spec fn depth_after<'a>(t: Toks<'a>, i: int, d: int) -> int {
    match tk(t, i) {
        ParserToken::LBrace => if d < usize::MAX {
            d + 1
        } else {
            d
        },
        ParserToken::RBrace => d - 1,
        _ => d,
    }
}

/// Scans a run of plain text from `i` at depth `d`, newlines included: the
/// position of its last text token (`last` where there is none) and the
/// depth after it.
pub open spec fn run_scan<'a>(t: Toks<'a>, i: int, d: int, last: int) -> (int, int)
    decreases t.len() - i,
{
    if 0 <= i < t.len() {
        if t[i].token is Newline {
            run_scan(t, i + 1, d, last)
        } else if text_like(t, i, d) {
            run_scan(t, i + 1, depth_after(t, i, d), i)
        } else {
            (last, d)
        }
    } else {
        (last, d)
    }
}

// ===== Types =====

/// A type: one primary type, or two or more separated by `|`.
pub open spec fn m_type<'a>(t: Toks<'a>, i: int, ty: TypeExpr<'a>) -> Option<int>
    decreases ty, 1nat,
{
    match ty {
        TypeExpr::Union(alts) => if alts@.len() >= 2 {
            match m_alts(t, i, alts@) {
                Some(p) => if tk(t, p) is Pipe {
                    None
                } else {
                    Some(p)
                },
                None => None,
            }
        } else {
            None
        },
        _ => match m_tprim(t, i, ty) {
            Some(p) => if tk(t, p) is Pipe {
                None
            } else {
                Some(p)
            },
            None => None,
        },
    }
}

/// Primary types separated by `|` (newlines allowed after it).
pub open spec fn m_alts<'a>(t: Toks<'a>, i: int, xs: Seq<TypeExpr<'a>>) -> Option<int>
    decreases xs, 0nat,
{
    if xs.len() == 0 {
        None
    } else if xs.len() == 1 {
        m_tprim(t, i, xs[0])
    } else {
        match m_alts(t, i, xs.drop_last()) {
            Some(p) => if tk(t, p) is Pipe {
                m_tprim(t, skip_nl(t, p + 1), xs.last())
            } else {
                None
            },
            None => None,
        }
    }
}

/// A type name, a plain string literal, `[type]` or `{ key: type, key?: type }`.
pub open spec fn m_tprim<'a>(t: Toks<'a>, i: int, ty: TypeExpr<'a>) -> Option<int>
    decreases ty, 0nat,
{
    match ty {
        TypeExpr::Name(s) => if tk(t, i) == ParserToken::Identifier(s) {
            Some(i + 1)
        } else {
            None
        },
        TypeExpr::Literal(s) => if tk(t, i) is StringStart {
            match tk(t, i + 1) {
                ParserToken::StringText(x) => if x == s && tk(t, i + 2) is StringEnd {
                    Some(i + 3)
                } else {
                    None
                },
                ParserToken::StringEnd => if s@ == ""@ {
                    Some(i + 2)
                } else {
                    None
                },
                _ => None,
            }
        } else {
            None
        },
        TypeExpr::Array(el) => if tk(t, i) is LBracket {
            match m_type(t, skip_nl(t, i + 1), *el) {
                Some(q) => {
                    let q2 = skip_nl(t, q);
                    if tk(t, q2) is RBracket {
                        Some(q2 + 1)
                    } else {
                        None
                    }
                },
                None => None,
            }
        } else {
            None
        },
        TypeExpr::Object(fields) => if tk(t, i) is LBrace {
            match m_tfields(t, i + 1, fields@) {
                Some(p) => if tk(t, p) is RBrace {
                    Some(p + 1)
                } else {
                    None
                },
                None => None,
            }
        } else {
            None
        },
        TypeExpr::Union(_) => None,
    }
}

/// Fields of an object type, from after its `{` to its `}`.
pub open spec fn m_tfields<'a>(t: Toks<'a>, j: int, fs: Seq<TypeField<'a>>) -> Option<int>
    decreases fs, 0nat,
{
    if fs.len() == 0 {
        Some(skip_nl(t, j))
    } else {
        match m_tfields(t, j, fs.drop_last()) {
            Some(p) => {
                let f = fs.last();
                if tk(t, p) is RBrace || tk(t, p) != ParserToken::Identifier(f.key) {
                    None
                } else {
                    let q = if tk(t, p + 1) is Question {
                        p + 2
                    } else {
                        p + 1
                    };
                    if f.optional == (tk(t, p + 1) is Question) && tk(t, q) is Colon {
                        match m_type(t, skip_nl(t, q + 1), f.type_expr) {
                            Some(q3) => brace_sep(t, q3),
                            None => None,
                        }
                    } else {
                        None
                    }
                }
            },
            None => None,
        }
    }
}

// ===== Patterns =====

/// The pattern of a variable declaration.
pub open spec fn m_pat<'a>(t: Toks<'a>, i: int, pat: Pattern<'a>) -> Option<int> {
    match pat {
        Pattern::Identifier { name, type_ann } => match tk(t, i) {
            ParserToken::Identifier(s) => if s != name {
                None
            } else if tk(t, i + 1) is Colon {
                match type_ann {
                    Some(ty) => m_type(t, skip_nl(t, i + 2), ty),
                    None => None,
                }
            } else if type_ann is None {
                Some(i + 1)
            } else {
                None
            },
            ParserToken::Underscore => if name@ == "_"@ && type_ann is None {
                Some(i + 1)
            } else {
                None
            },
            _ => None,
        },
        Pattern::Object(fields) => if tk(t, i) is LBrace {
            match m_pfields(t, i + 1, fields@) {
                Some(p) => if tk(t, p) is RBrace {
                    Some(p + 1)
                } else {
                    None
                },
                None => None,
            }
        } else {
            None
        },
    }
}

/// Fields of an object pattern, from after its `{` to its `}`; each binds
/// the variable of its key.
pub open spec fn m_pfields<'a>(t: Toks<'a>, j: int, fs: Seq<ObjectPatternField<'a>>) -> Option<int>
    decreases fs,
{
    if fs.len() == 0 {
        Some(skip_nl(t, j))
    } else {
        match m_pfields(t, j, fs.drop_last()) {
            Some(p) => {
                let f = fs.last();
                if tk(t, p) is RBrace || tk(t, p) != ParserToken::Identifier(f.key)
                    || f.pattern != (Pattern::Identifier { name: f.key, type_ann: None }) {
                    None
                } else {
                    let q = if tk(t, p + 1) is Colon {
                        match f.type_ann {
                            Some(ty) => m_type(t, skip_nl(t, p + 2), ty),
                            None => None,
                        }
                    } else if f.type_ann is None {
                        Some(p + 1)
                    } else {
                        None
                    };
                    match q {
                        Some(q3) => brace_sep(t, q3),
                        None => None,
                    }
                }
            },
            None => None,
        }
    }
}

// ===== Expressions =====

/// An expression. Operands bind at least as tightly as their operator
/// requires: binary operators are left-associative except `=`, which is
/// right-associative; parentheses are kept as `Paren` nodes.
pub open spec fn m_expr<'a>(t: Toks<'a>, b: Seq<u8>, i: int, e: Expr<'a>) -> Option<int>
    decreases e, 2nat,
{
    match e {
        Expr::Binary { op, left, right } => {
            let lmin = if op is Assign {
                1int
            } else {
                prec(op)
            };
            let rmin = if op is Assign {
                0int
            } else {
                prec(op) + 1
            };
            if level_of(*left) >= lmin && level_of(*right) >= rmin {
                match m_expr(t, b, i, *left) {
                    Some(k) => if op_token(op, tk(t, k)) {
                        m_expr(t, b, skip_nl(t, k + 1), *right)
                    } else {
                        None
                    },
                    None => None,
                }
            } else {
                None
            }
        },
        Expr::Unary { op, operand } => if unop_token(op, tk(t, i)) && level_of(*operand)
            >= prefix_level() {
            m_expr(t, b, i + 1, *operand)
        } else {
            None
        },
        Expr::Await(x) => if tk(t, i) is Await && level_of(*x) >= prefix_level() {
            m_expr(t, b, i + 1, *x)
        } else {
            None
        },
        Expr::Call { callee, args } => if level_of(*callee) >= postfix_level() {
            match m_expr(t, b, i, *callee) {
                Some(k) => if tk(t, k) is LParen {
                    m_exprs(t, b, k + 1, args@, false)
                } else {
                    None
                },
                None => None,
            }
        } else {
            None
        },
        Expr::Member { object, field } => if level_of(*object) >= postfix_level() {
            match m_expr(t, b, i, *object) {
                Some(k) => if tk(t, k) is Dot && tk(t, k + 1) == ParserToken::Identifier(field) {
                    Some(k + 2)
                } else {
                    None
                },
                None => None,
            }
        } else {
            None
        },
        Expr::Index { object, index } => if level_of(*object) >= postfix_level() {
            match m_expr(t, b, i, *object) {
                Some(k) => if tk(t, k) is LBracket {
                    match m_expr(t, b, skip_nl(t, k + 1), *index) {
                        Some(q) => {
                            let q2 = skip_nl(t, q);
                            if tk(t, q2) is RBracket {
                                Some(q2 + 1)
                            } else {
                                None
                            }
                        },
                        None => None,
                    }
                } else {
                    None
                },
                None => None,
            }
        } else {
            None
        },
        Expr::PostIncrement(x) => if level_of(*x) >= postfix_level() {
            match m_expr(t, b, i, *x) {
                Some(k) => if tk(t, k) is PlusPlus {
                    Some(k + 1)
                } else {
                    None
                },
                None => None,
            }
        } else {
            None
        },
        Expr::PostDecrement(x) => if level_of(*x) >= postfix_level() {
            match m_expr(t, b, i, *x) {
                Some(k) => if tk(t, k) is MinusMinus {
                    Some(k + 1)
                } else {
                    None
                },
                None => None,
            }
        } else {
            None
        },
        Expr::Identifier(n) => if tk(t, i) == ParserToken::Identifier(n) || (tk(t, i) is SelfKw
            && n@ == "self"@) {
            Some(i + 1)
        } else {
            None
        },
        Expr::Number(n) => if number_dot_number(t, b, i) {
            if n.spec_bytes() == b.subrange(tstart(t, b, i), tend(t, b, i + 2)) {
                Some(i + 3)
            } else {
                None
            }
        } else if tk(t, i) == ParserToken::Number(n) {
            Some(i + 1)
        } else {
            None
        },
        Expr::True => if tk(t, i) is True {
            Some(i + 1)
        } else {
            None
        },
        Expr::False => if tk(t, i) is False {
            Some(i + 1)
        } else {
            None
        },
        Expr::String(lit) => match tk(t, i) {
            ParserToken::StringStart => m_strlit(t, b, i, lit),
            ParserToken::SingleQuoteString(_) => if lit.parts@.len() == 1 && (lit.parts@[0] matches StringPart::Text(x)
                && x.spec_bytes() == b.subrange(tstart(t, b, i) + 1, tend(t, b, i) - 1)) {
                Some(i + 1)
            } else {
                None
            },
            _ => None,
        },
        Expr::Array(items) => if tk(t, i) is LBracket {
            m_exprs(t, b, i + 1, items@, true)
        } else {
            None
        },
        Expr::Object(fields) => if tk(t, i) is LBrace {
            match m_ofields(t, b, i + 1, fields@) {
                Some(p) => if tk(t, p) is RBrace {
                    Some(p + 1)
                } else {
                    None
                },
                None => None,
            }
        } else {
            None
        },
        Expr::Paren(inner) => if tk(t, i) is LParen {
            m_paren_body(t, b, i + 1, *inner)
        } else {
            None
        },
        Expr::Think(pb) => if tk(t, i) is Think {
            m_prompt(t, b, i + 1, pb)
        } else {
            None
        },
        Expr::Ask(pb) => if tk(t, i) is Ask {
            m_prompt(t, b, i + 1, pb)
        } else {
            None
        },
        Expr::Do(blk) => if tk(t, i) is Do {
            m_block(t, b, i + 1, blk)
        } else {
            None
        },
        Expr::Task(xs) => if tk(t, i) is Task && tk(t, i + 1) is LParen {
            m_exprs(t, b, i + 2, xs@, false)
        } else {
            None
        },
        Expr::CommandSubst(cmd) => if tk(t, i) is Dollar && tk(t, i + 1) is LParen && shell_level(*cmd)
            >= 1 {
            match m_shell(t, b, i + 2, *cmd) {
                Some(q) => if tk(t, q) is RParen {
                    Some(q + 1)
                } else {
                    None
                },
                None => None,
            }
        } else {
            None
        },
        Expr::BareCommand { .. } | Expr::ShellPipe { .. } | Expr::ShellAnd { .. }
        | Expr::ShellOr { .. } | Expr::ShellRedirect { .. } => if tk(t, i) is Dollar && !(tk(
            t,
            i + 1,
        ) is LParen) {
            m_shell(t, b, i + 1, e)
        } else {
            None
        },
    }
}

/// What follows `(` in a parenthesized expression: `$` and a shell command,
/// or an expression; then `)`.
pub open spec fn m_paren_body<'a>(t: Toks<'a>, b: Seq<u8>, i: int, c: Expr<'a>) -> Option<int>
    decreases c, 3nat,
{
    if tk(t, i) is Dollar {
        if shell_level(c) >= 1 {
            match m_shell(t, b, i + 1, c) {
                Some(q) => if tk(t, q) is RParen {
                    Some(q + 1)
                } else {
                    None
                },
                None => None,
            }
        } else {
            None
        }
    } else {
        match m_expr(t, b, skip_nl(t, i), c) {
            Some(q) => {
                let q2 = skip_nl(t, q);
                if tk(t, q2) is RParen {
                    Some(q2 + 1)
                } else {
                    None
                }
            },
            None => None,
        }
    }
}

/// A shell expression: commands with arguments and redirections, joined by
/// `|`, `&&` and `||` (in order of binding strength).
pub open spec fn m_shell<'a>(t: Toks<'a>, b: Seq<u8>, i: int, e: Expr<'a>) -> Option<int>
    decreases e, 1nat,
{
    match e {
        Expr::ShellOr { left, right } => if shell_level(*left) >= 1 && shell_level(*right) >= 2 {
            match m_shell(t, b, i, *left) {
                Some(k) => if tk(t, k) is ShellOr {
                    m_shell(t, b, k + 1, *right)
                } else {
                    None
                },
                None => None,
            }
        } else {
            None
        },
        Expr::ShellAnd { left, right } => if shell_level(*left) >= 2 && shell_level(*right) >= 3 {
            match m_shell(t, b, i, *left) {
                Some(k) => if tk(t, k) is ShellAnd {
                    m_shell(t, b, k + 1, *right)
                } else {
                    None
                },
                None => None,
            }
        } else {
            None
        },
        Expr::ShellPipe { left, right } => if shell_level(*left) >= 3 && shell_level(*right) >= 4 {
            match m_shell(t, b, i, *left) {
                Some(k) => if tk(t, k) is ShellPipe {
                    m_shell(t, b, k + 1, *right)
                } else {
                    None
                },
                None => None,
            }
        } else {
            None
        },
        Expr::ShellRedirect { command, op, target } => if shell_level(*command) >= 4 {
            match m_shell(t, b, i, *command) {
                Some(k) => if redirect_token(op, tk(t, k)) {
                    match tk(t, k + 1) {
                        ParserToken::ShellArg(s) => if *target == Expr::Identifier(s) {
                            Some(k + 2)
                        } else {
                            None
                        },
                        ParserToken::StringStart => match *target {
                            Expr::String(lit) => m_strlit(t, b, k + 1, lit),
                            _ => None,
                        },
                        _ => if op is ErrToOut && (*target matches Expr::Identifier(s) && s@ == ""@) {
                            Some(k + 1)
                        } else {
                            None
                        },
                    }
                } else {
                    None
                },
                None => None,
            }
        } else {
            None
        },
        Expr::BareCommand { name, args } => if tk(t, i) == ParserToken::ShellArg(name) {
            match m_cmdargs(t, b, i + 1, args@) {
                Some(p) => if cmd_arg_start(tk(t, p)) {
                    None
                } else {
                    Some(p)
                },
                None => None,
            }
        } else {
            None
        },
        _ => None,
    }
}

/// Arguments of a shell command: words, quoted strings, `=`, and `$`
/// interpolations, with line continuations between them.
pub open spec fn m_cmdargs<'a>(t: Toks<'a>, b: Seq<u8>, j: int, args: Seq<CommandArg<'a>>) -> Option<int>
    decreases args, 0nat,
{
    if args.len() == 0 {
        Some(skip_bs(t, j))
    } else {
        match m_cmdargs(t, b, j, args.drop_last()) {
            Some(p) => match args.last() {
                CommandArg::Literal(s) => if tk(t, p) == ParserToken::ShellArg(s) || tk(t, p)
                    == ParserToken::SingleQuoteString(s) || (tk(t, p) is ShellAssign && s@ == "="@) {
                    Some(skip_bs(t, p + 1))
                } else {
                    None
                },
                CommandArg::String(lit) => match tk(t, p) {
                    ParserToken::StringStart => match m_strlit(t, b, p, lit) {
                        Some(q) => Some(skip_bs(t, q)),
                        None => None,
                    },
                    ParserToken::Dollar => if lit.parts@.len() == 1 {
                        match lit.parts@[0] {
                            StringPart::Interpolation(x) => match tk(t, p + 1) {
                                ParserToken::ShellArg(s) => if *x == Expr::Identifier(s) {
                                    Some(skip_bs(t, p + 2))
                                } else {
                                    None
                                },
                                _ => match m_interp(t, b, p + 1, *x) {
                                    Some(q) => Some(skip_bs(t, q)),
                                    None => None,
                                },
                            },
                            _ => None,
                        }
                    } else {
                        None
                    },
                    _ => None,
                },
            },
            None => None,
        }
    }
}

/// A double-quoted string: its texts and `$` interpolations, then its end.
pub open spec fn m_strlit<'a>(t: Toks<'a>, b: Seq<u8>, i: int, lit: StringLiteral<'a>) -> Option<int>
    decreases lit, 0nat,
{
    if tk(t, i) is StringStart {
        match m_sparts(t, b, i + 1, lit.parts@) {
            Some(p) => if tk(t, p) is StringEnd {
                Some(p + 1)
            } else {
                None
            },
            None => None,
        }
    } else {
        None
    }
}

/// Parts of a double-quoted string: each text token is one part.
pub open spec fn m_sparts<'a>(t: Toks<'a>, b: Seq<u8>, j: int, ps: Seq<StringPart<'a>>) -> Option<int>
    decreases ps, 0nat,
{
    if ps.len() == 0 {
        Some(j)
    } else {
        match m_sparts(t, b, j, ps.drop_last()) {
            Some(p) => match ps.last() {
                StringPart::Text(s) => if tk(t, p) == ParserToken::StringText(s) {
                    Some(p + 1)
                } else {
                    None
                },
                StringPart::Interpolation(x) => if tk(t, p) is Dollar {
                    m_interp(t, b, p + 1, *x)
                } else {
                    None
                },
            },
            None => None,
        }
    }
}

/// What follows `$` in a string or a prompt: a name, `self`, `{expr}`,
/// `(expr)`, or `(command)` for a command substitution.
pub open spec fn m_interp<'a>(t: Toks<'a>, b: Seq<u8>, i: int, e: Expr<'a>) -> Option<int>
    decreases e, 3nat,
{
    match tk(t, i) {
        ParserToken::Identifier(s) => if e == Expr::Identifier(s) {
            Some(i + 1)
        } else {
            None
        },
        ParserToken::SelfKw => if e matches Expr::Identifier(s) && s@ == "self"@ {
            Some(i + 1)
        } else {
            None
        },
        ParserToken::LBrace => match m_expr(t, b, skip_nl(t, i + 1), e) {
            Some(q) => {
                let q2 = skip_nl(t, q);
                if tk(t, q2) is RBrace {
                    Some(q2 + 1)
                } else {
                    None
                }
            },
            None => None,
        },
        ParserToken::LParen => if tk(t, i + 1) is ShellArg {
            match e {
                Expr::CommandSubst(cmd) => if shell_level(*cmd) >= 1 {
                    match m_shell(t, b, i + 1, *cmd) {
                        Some(q) => if tk(t, q) is RParen {
                            Some(q + 1)
                        } else {
                            None
                        },
                        None => None,
                    }
                } else {
                    None
                },
                _ => None,
            }
        } else {
            match m_expr(t, b, skip_nl(t, i + 1), e) {
                Some(q) => {
                    let q2 = skip_nl(t, q);
                    if tk(t, q2) is RParen {
                        Some(q2 + 1)
                    } else {
                        None
                    }
                },
                None => None,
            }
        },
        _ => None,
    }
}

/// Expressions separated by commas after `(` or `[`, up to and including
/// the closing `)` (or `]` when `br`); a comma may trail.
pub open spec fn m_exprs<'a>(t: Toks<'a>, b: Seq<u8>, j: int, xs: Seq<Expr<'a>>, br: bool) -> Option<int>
    decreases xs, 1nat,
{
    match m_elist(t, b, j, xs, br) {
        Some(p) => if closer(t, p, br) {
            Some(p + 1)
        } else {
            None
        },
        None => None,
    }
}

/// The elements of a list of expressions, up to the position of the next
/// element or the closing token.
pub open spec fn m_elist<'a>(t: Toks<'a>, b: Seq<u8>, j: int, xs: Seq<Expr<'a>>, br: bool) -> Option<int>
    decreases xs, 0nat,
{
    if xs.len() == 0 {
        Some(skip_nl(t, j))
    } else {
        match m_elist(t, b, j, xs.drop_last(), br) {
            Some(p) => if closer(t, p, br) {
                None
            } else {
                match m_expr(t, b, p, xs.last()) {
                    Some(q) => list_sep(t, q, br),
                    None => None,
                }
            },
            None => None,
        }
    }
}

/// Keywords that may name a field of an object literal, as in
/// `{ type: "x" }`.
pub open spec fn is_word_keyword(tok: ParserToken) -> bool {
    tok is Import || tok is Export || tok is From || tok is Var || tok is If || tok is Else
        || tok is For || tok is While || tok is Await || tok is Task || tok is Worker
        || tok is Trait || tok is Skill || tok is Fun || tok is Default || tok is Type
        || tok is Return || tok is Succeed || tok is Fail || tok is Throw || tok is Break
        || tok is SelfKw || tok is In || tok is True || tok is False || tok is Think || tok is Ask
        || tok is Do
}

/// The token at `p` names the field `key` of an object literal: an
/// identifier, or a keyword (whose text is the key) followed by `:`.
pub open spec fn field_name<'a>(t: Toks<'a>, b: Seq<u8>, p: int, key: &'a str) -> bool {
    ||| tk(t, p) == ParserToken::Identifier(key)
    ||| is_word_keyword(tk(t, p)) && tk(t, p + 1) is Colon && key.spec_bytes() == b.subrange(
        tstart(t, b, p),
        tend(t, b, p),
    )
}

/// Fields of an object literal after its `{`: `key: value` or `key`.
pub open spec fn m_ofields<'a>(t: Toks<'a>, b: Seq<u8>, j: int, fs: Seq<ObjectField<'a>>) -> Option<int>
    decreases fs, 0nat,
{
    if fs.len() == 0 {
        Some(skip_nl(t, j))
    } else {
        match m_ofields(t, b, j, fs.drop_last()) {
            Some(p) => {
                let f = fs.last();
                if tk(t, p) is RBrace || !field_name(t, b, p, f.key) {
                    None
                } else {
                    let q = if tk(t, p + 1) is Colon {
                        match f.value {
                            Some(v) => m_expr(t, b, skip_nl(t, p + 2), v),
                            None => None,
                        }
                    } else if f.value is None {
                        Some(p + 1)
                    } else {
                        None
                    };
                    match q {
                        Some(q3) => brace_sep(t, q3),
                        None => None,
                    }
                }
            },
            None => None,
        }
    }
}

// ===== Prompt blocks =====

/// A prompt block from its `{` to the `}` that closes it.
pub open spec fn m_prompt<'a>(t: Toks<'a>, b: Seq<u8>, i: int, pb: PromptBlock<'a>) -> Option<int>
    decreases pb, 0nat,
{
    if tk(t, i) is LBrace {
        match m_pitems(t, b, i + 1, pb.items@) {
            Some((p, d)) => {
                let p2 = skip_nl(t, p);
                if tk(t, p2) is RBrace && d == 0 {
                    Some(p2 + 1)
                } else {
                    None
                }
            },
            None => None,
        }
    } else {
        None
    }
}

/// Items of a prompt block: the position after them and the brace depth
/// there. A text item is an escape, or a longest run of plain text tokens,
/// which stands for the source text from its first token to its last.
pub open spec fn m_pitems<'a>(t: Toks<'a>, b: Seq<u8>, j: int, xs: Seq<PromptItem<'a>>) -> Option<(int, int)>
    decreases xs, 0nat,
{
    if xs.len() == 0 {
        Some((j, 0))
    } else {
        match m_pitems(t, b, j, xs.drop_last()) {
            Some((p, d)) => {
                let p1 = skip_nl(t, p);
                match xs.last() {
                    PromptItem::Code(blk) => if tk(t, p1) is Do && tk(t, p1 + 1) is LBrace {
                        match m_block(t, b, p1 + 1, blk) {
                            Some(q) => Some((q, d)),
                            None => None,
                        }
                    } else {
                        None
                    },
                    PromptItem::Interpolation(e) => if tk(t, p1) is Dollar {
                        match m_interp(t, b, p1 + 1, e) {
                            Some(q) => Some((q, d)),
                            None => None,
                        }
                    } else {
                        None
                    },
                    PromptItem::Text(s) => match tk(t, p1) {
                        ParserToken::PromptEscape(c) => if s == c {
                            Some((p1 + 1, d))
                        } else {
                            None
                        },
                        _ => if text_like(t, p1, d) {
                            let (last, d2) = run_scan(t, p1, d, p1);
                            if s.spec_bytes() == b.subrange(tstart(t, b, p1), tend(t, b, last)) {
                                Some((last + 1, d2))
                            } else {
                                None
                            }
                        } else {
                            None
                        },
                    },
                }
            },
            None => None,
        }
    }
}

// ===== Blocks and statements =====

/// A block: `{`, statements separated by newlines or `;`, `}`.
pub open spec fn m_block<'a>(t: Toks<'a>, b: Seq<u8>, i: int, blk: Block<'a>) -> Option<int>
    decreases blk, 0nat,
{
    if tk(t, i) is LBrace {
        match m_stmts(t, b, i + 1, blk.statements@) {
            Some(p) => if tk(t, p) is RBrace {
                Some(p + 1)
            } else {
                None
            },
            None => None,
        }
    } else {
        None
    }
}

/// Statements with their separators, up to the next statement or the end.
pub open spec fn m_stmts<'a>(t: Toks<'a>, b: Seq<u8>, j: int, ss: Seq<Statement<'a>>) -> Option<int>
    decreases ss, 0nat,
{
    if ss.len() == 0 {
        Some(skip_sep(t, j))
    } else {
        match m_stmts(t, b, j, ss.drop_last()) {
            Some(p) => if tk(t, p) is RBrace || tk(t, p) is End {
                None
            } else {
                match m_stmt(t, b, p, ss.last()) {
                    Some(q) => Some(skip_sep(t, q)),
                    None => None,
                }
            },
            None => None,
        }
    }
}

/// One statement.
pub open spec fn m_stmt<'a>(t: Toks<'a>, b: Seq<u8>, i: int, s: Statement<'a>) -> Option<int>
    decreases s, 1nat,
{
    match s {
        Statement::VarDecl { .. } => if tk(t, i) is Var {
            m_varrest(t, b, i + 1, s)
        } else {
            None
        },
        Statement::If { .. } => if tk(t, i) is If {
            m_ifrest(t, b, i + 1, s)
        } else {
            None
        },
        Statement::For { var, iter, body } => if tk(t, i) is For && tk(t, i + 1) is Var && tk(t, i + 2)
            == ParserToken::Identifier(var) && tk(t, i + 3) is In {
            match m_expr(t, b, i + 4, iter) {
                Some(p) => m_block(t, b, p, body),
                None => None,
            }
        } else {
            None
        },
        Statement::While { condition, body } => if tk(t, i) is While && tk(t, i + 1) is LParen {
            match m_expr(t, b, skip_nl(t, i + 2), condition) {
                Some(q) => {
                    let q2 = skip_nl(t, q);
                    if tk(t, q2) is RParen {
                        m_block(t, b, q2 + 1, body)
                    } else {
                        None
                    }
                },
                None => None,
            }
        } else {
            None
        },
        Statement::Return(x) => if tk(t, i) is Return {
            if ends_return(tk(t, i + 1)) {
                if x is None {
                    Some(i + 1)
                } else {
                    None
                }
            } else {
                match x {
                    Some(e) => m_expr(t, b, i + 1, e),
                    None => None,
                }
            }
        } else {
            None
        },
        Statement::Succeed => if tk(t, i) is Succeed {
            Some(i + 1)
        } else {
            None
        },
        Statement::Fail => if tk(t, i) is Fail {
            Some(i + 1)
        } else {
            None
        },
        Statement::Break => if tk(t, i) is Break {
            Some(i + 1)
        } else {
            None
        },
        Statement::TypeDecl { name, type_expr } => if tk(t, i) is Type && tk(t, i + 1)
            == ParserToken::Identifier(name) && tk(t, i + 2) is Assign {
            m_type(t, skip_nl(t, i + 3), type_expr)
        } else {
            None
        },
        Statement::Expr(e) => if statement_keyword(tk(t, i)) {
            None
        } else {
            m_expr(t, b, i, e)
        },
    }
}

/// A variable declaration after `var`: a pattern, and `= expr` where an
/// initializer follows.
pub open spec fn m_varrest<'a>(t: Toks<'a>, b: Seq<u8>, i: int, s: Statement<'a>) -> Option<int>
    decreases s, 0nat,
{
    match s {
        Statement::VarDecl { pattern, init } => match m_pat(t, i, pattern) {
            Some(p) => if tk(t, p) is Assign {
                match init {
                    Some(e) => m_expr(t, b, skip_nl(t, p + 1), e),
                    None => None,
                }
            } else if init is None {
                Some(p)
            } else {
                None
            },
            None => None,
        },
        _ => None,
    }
}

/// An `if` statement after `if`: condition, block, and an `else` block or
/// `else if`, which stands for an else block holding that one statement.
pub open spec fn m_ifrest<'a>(t: Toks<'a>, b: Seq<u8>, i: int, s: Statement<'a>) -> Option<int>
    decreases s, 0nat,
{
    match s {
        Statement::If { condition, then_block, else_block } => match m_expr(t, b, i, condition) {
            Some(p) => match m_block(t, b, p, then_block) {
                Some(q) => if tk(t, q) is Else {
                    if tk(t, q + 1) is If {
                        match else_block {
                            Some(eb) => if eb.statements@.len() == 1 {
                                m_ifrest(t, b, q + 2, eb.statements@[0])
                            } else {
                                None
                            },
                            None => None,
                        }
                    } else {
                        match else_block {
                            Some(eb) => m_block(t, b, q + 1, eb),
                            None => None,
                        }
                    }
                } else if else_block is None {
                    Some(q)
                } else {
                    None
                },
                None => None,
            },
            None => None,
        },
        _ => None,
    }
}

// ===== Items =====

/// Parameters after `(`, up to the position of the next one or of `)`:
/// `name` or `name: type`, separated by commas.
pub open spec fn m_plist<'a>(t: Toks<'a>, j: int, ps: Seq<Param<'a>>) -> Option<int>
    decreases ps,
{
    if ps.len() == 0 {
        Some(skip_nl(t, j))
    } else {
        match m_plist(t, j, ps.drop_last()) {
            Some(p) => {
                let x = ps.last();
                if tk(t, p) is RParen || tk(t, p) != ParserToken::Identifier(x.name) {
                    None
                } else {
                    let q = if tk(t, p + 1) is Colon {
                        match x.type_ann {
                            Some(ty) => m_type(t, skip_nl(t, p + 2), ty),
                            None => None,
                        }
                    } else if x.type_ann is None {
                        Some(p + 1)
                    } else {
                        None
                    };
                    match q {
                        Some(q3) => list_sep(t, q3, false),
                        None => None,
                    }
                }
            },
            None => None,
        }
    }
}

/// Parameters after `(`, up to and including `)`.
pub open spec fn m_params<'a>(t: Toks<'a>, j: int, ps: Seq<Param<'a>>) -> Option<int> {
    match m_plist(t, j, ps) {
        Some(p) => if tk(t, p) is RParen {
            Some(p + 1)
        } else {
            None
        },
        None => None,
    }
}

/// `name(params) { body }` after the keyword of a declaration; newlines
/// may come before the body.
pub open spec fn m_callable<'a>(
    t: Toks<'a>,
    b: Seq<u8>,
    i: int,
    name: &'a str,
    params: Seq<Param<'a>>,
    body: Block<'a>,
) -> Option<int> {
    if tk(t, i) == ParserToken::Identifier(name) && tk(t, i + 1) is LParen {
        match m_params(t, i + 2, params) {
            Some(q) => m_block(t, b, skip_nl(t, q), body),
            None => None,
        }
    } else {
        None
    }
}

/// The views of a sequence of string slices.
pub open spec fn views(xs: Seq<&str>) -> Seq<Seq<char>> {
    xs.map_values(|s: &str| s@)
}

/// The `./` and `../` prefixes of a relative import path from `i`: the
/// segments they stand for, and the position after them.
pub open spec fn dot_prefix<'a>(t: Toks<'a>, i: int) -> Option<(Seq<Seq<char>>, int)>
    decreases t.len() - i,
{
    if 0 <= i < t.len() && t[i].token is Dot {
        let seg = if tk(t, i + 1) is Dot {
            ".."@
        } else {
            "."@
        };
        let j = if tk(t, i + 1) is Dot {
            i + 2
        } else {
            i + 1
        };
        if tk(t, j) is Slash {
            match dot_prefix(t, j + 1) {
                Some((rest, k)) => Some((seq![seg] + rest, k)),
                None => None,
            }
        } else {
            None
        }
    } else {
        Some((Seq::empty(), i))
    }
}

/// Names separated by `/` (when `slash`) or `.`, up to the position after the last.
pub open spec fn m_segments<'a>(t: Toks<'a>, i: int, segs: Seq<&'a str>, slash: bool) -> Option<int>
    decreases segs.len(),
{
    if segs.len() == 0 {
        None
    } else if segs.len() == 1 {
        if tk(t, i) == ParserToken::Identifier(segs[0]) {
            Some(i + 1)
        } else {
            None
        }
    } else {
        match m_segments(t, i, segs.drop_last(), slash) {
            Some(p) => if (if slash {
                tk(t, p) is Slash
            } else {
                tk(t, p) is Dot
            }) && tk(t, p + 1) == ParserToken::Identifier(segs.last()) {
                Some(p + 2)
            } else {
                None
            },
            None => None,
        }
    }
}

/// Module names separated by commas after the `{` of a multi-import, up to
/// the position of the next name or of `}`.
pub open spec fn m_names<'a>(t: Toks<'a>, j: int, names: Seq<&'a str>) -> Option<int>
    decreases names.len(),
{
    if names.len() == 0 {
        Some(skip_nl(t, j))
    } else {
        match m_names(t, j, names.drop_last()) {
            Some(p) => if tk(t, p) is RBrace || tk(t, p) != ParserToken::Identifier(names.last()) {
                None
            } else {
                brace_sep(t, p + 1)
            },
            None => None,
        }
    }
}

/// An import path after `import`: `a.b.c`; `./a/b` and `../a` (the
/// prefixes are segments `.` and `..`); or `./{a, b}`.
pub open spec fn m_import<'a>(t: Toks<'a>, i: int, path: ImportPath<'a>) -> Option<int> {
    if tk(t, i) is Dot {
        match dot_prefix(t, i) {
            Some((pre, j)) => match path {
                ImportPath::RelativeMulti(names) => if tk(t, j) is LBrace {
                    match m_names(t, j + 1, names@) {
                        Some(p) => if tk(t, p) is RBrace {
                            Some(p + 1)
                        } else {
                            None
                        },
                        None => None,
                    }
                } else {
                    None
                },
                ImportPath::Simple(segs) => if !(tk(t, j) is LBrace) && segs@.len() > pre.len()
                    && views(segs@.take(pre.len() as int)) == pre {
                    match m_segments(t, j, segs@.skip(pre.len() as int), true) {
                        Some(p) => if tk(t, p) is Slash {
                            None
                        } else {
                            Some(p)
                        },
                        None => None,
                    }
                } else {
                    None
                },
            },
            None => None,
        }
    } else {
        match path {
            ImportPath::Simple(segs) => match m_segments(t, i, segs@, false) {
                Some(p) => if tk(t, p) is Dot {
                    None
                } else {
                    Some(p)
                },
                None => None,
            },
            ImportPath::RelativeMulti(_) => None,
        }
    }
}

/// Position of an item's keyword, after `export` or `export default`.
pub open spec fn item_keyword_at<'a>(t: Toks<'a>, i: int) -> int {
    if tk(t, i) is Export {
        if tk(t, i + 1) is Default {
            i + 2
        } else {
            i + 1
        }
    } else {
        i
    }
}

/// One top-level item; functions and workers record whether they were
/// exported, and exported by default.
pub open spec fn m_item<'a>(t: Toks<'a>, b: Seq<u8>, i: int, item: Item<'a>) -> Option<int> {
    let k = item_keyword_at(t, i);
    let exported = tk(t, i) is Export;
    let default = exported && tk(t, i + 1) is Default;
    match item {
        Item::Import(d) => if tk(t, k) is Import {
            m_import(t, k + 1, d.path)
        } else {
            None
        },
        Item::Skill(d) => if tk(t, k) is Skill {
            m_callable(t, b, k + 1, d.name, d.params@, d.body)
        } else {
            None
        },
        Item::Task(d) => if tk(t, k) is Task {
            m_callable(t, b, k + 1, d.name, d.params@, d.body)
        } else {
            None
        },
        Item::Function(d) => if tk(t, k) is Fun && d.is_exported == exported && d.is_default
            == default {
            m_callable(t, b, k + 1, d.name, d.params@, d.body)
        } else {
            None
        },
        Item::Worker(d) => if tk(t, k) is Worker && d.is_exported == exported && d.is_default
            == default {
            m_callable(t, b, k + 1, d.name, d.params@, d.body)
        } else {
            None
        },
        Item::Type(d) => if tk(t, k) is Type && tk(t, k + 1) == ParserToken::Identifier(d.name)
            && tk(t, k + 2) is Assign {
            m_type(t, skip_nl(t, k + 3), d.type_expr)
        } else {
            None
        },
    }
}

/// Items with their separators (newlines and `;`), up to the next item or the end.
pub open spec fn m_items<'a>(t: Toks<'a>, b: Seq<u8>, j: int, xs: Seq<Item<'a>>) -> Option<int>
    decreases xs.len(),
{
    if xs.len() == 0 {
        Some(skip_sep(t, j))
    } else {
        match m_items(t, b, j, xs.drop_last()) {
            Some(p) => if tk(t, p) is End {
                None
            } else {
                match m_item(t, b, p, xs.last()) {
                    Some(q) => Some(skip_sep(t, q)),
                    None => None,
                }
            },
            None => None,
        }
    }
}

/// `prog` is a parse of the whole token sequence `t` of a text with bytes `b`.
pub open spec fn m_program<'a>(t: Toks<'a>, b: Seq<u8>, prog: Program<'a>) -> bool {
    match m_items(t, b, 0, prog.items@) {
        Some(p) => tk(t, p) is End,
        None => false,
    }
}

} // verus!
