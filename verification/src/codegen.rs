//! JavaScript generation.
//!
//! A program becomes an ES module: its imports, the imports of the runtime,
//! then one exported function per worker and one function per function
//! declaration.  Prompt blocks become calls of `executePrompt` and are kept
//! as markdown templates, numbered in the order in which they occur.
//!
//! The text of the generated code is defined by the spec functions below,
//! which thread a generation state (the text so far and the templates so
//! far) through the program; the generator is proved to produce exactly it.
use vstd::prelude::*;
use crate::ast::{
    BinOp, Block, CommandArg, Expr, FunctionDecl, ImportDecl, ImportPath, Item, ObjectField,
    Param, Pattern, PromptBlock, RedirectOp, Statement, StringLiteral, StringPart, UnOp,
    WorkerDecl,
};
use crate::error::CompileError;
use crate::prompts::{
    extract_prompt_template, kind_name, template_state, PromptKind, PromptTemplate, str_eq,
};
use crate::strutil::{push_char, str_chars};

verus! {

/// What a template is made of: id, kind, worker, markdown and bindings.
pub struct TemplateView {
    pub id: Seq<char>,
    pub kind: PromptKind,
    pub worker_name: Seq<char>,
    pub markdown: Seq<char>,
    pub bindings: Seq<Seq<char>>,
}

/// The value of a template.
pub open spec fn template_view(t: PromptTemplate) -> TemplateView {
    TemplateView {
        id: t.id@,
        kind: t.kind,
        worker_name: t.worker_name@,
        markdown: t.markdown@,
        bindings: t.required_bindings@,
    }
}

/// The values of a list of templates.
pub open spec fn templates_view(ts: Seq<PromptTemplate>) -> Seq<TemplateView> {
    ts.map_values(|t: PromptTemplate| template_view(t))
}

/// The state of generation: the code so far, the templates so far, and
/// the worker whose body is being generated.
pub struct GenState {
    pub out: Seq<char>,
    pub prompts: Seq<TemplateView>,
    pub worker: Option<Seq<char>>,
}

/// Why generation failed.
pub enum GenError {
    /// A construct that cannot be compiled, with the message.
    Codegen(Seq<char>),
    /// A construct not supported yet, with the message.
    Unsupported(Seq<char>),
}

/// Whether a compiler error is the given generation error.
pub open spec fn is_gen_error(e: CompileError, g: GenError) -> bool {
    match g {
        GenError::Codegen(m) => e matches CompileError::Codegen(mm) && mm@ == m,
        GenError::Unsupported(m) => e matches CompileError::Unsupported(mm) && mm@ == m,
    }
}

/// The state with `t` appended to the code.
pub open spec fn emit(st: GenState, t: Seq<char>) -> GenState {
    GenState { out: st.out + t, prompts: st.prompts, worker: st.worker }
}

/// `emit` after a step that may have failed.
pub open spec fn emit_r(r: Result<GenState, GenError>, t: Seq<char>) -> Result<GenState, GenError> {
    match r {
        Ok(s) => Ok(emit(s, t)),
        Err(e) => Err(e),
    }
}

/// The decimal digit for `d` (below ten).
pub open spec fn digit_char(d: nat) -> char {
    if d == 0 {
        '0'
    } else if d == 1 {
        '1'
    } else if d == 2 {
        '2'
    } else if d == 3 {
        '3'
    } else if d == 4 {
        '4'
    } else if d == 5 {
        '5'
    } else if d == 6 {
        '6'
    } else if d == 7 {
        '7'
    } else if d == 8 {
        '8'
    } else {
        '9'
    }
}

/// `n` in decimal.
pub open spec fn decimal(n: nat) -> Seq<char>
    decreases n,
{
    if n < 10 {
        seq![digit_char(n)]
    } else {
        decimal(n / 10).push(digit_char(n % 10))
    }
}

/// A character of a string, escaped for a double-quoted JavaScript string.
pub open spec fn esc_char(c: char) -> Seq<char> {
    if c == '\\' {
        seq!['\\', '\\']
    } else if c == '"' {
        seq!['\\', '"']
    } else if c == '\n' {
        seq!['\\', 'n']
    } else if c == '\r' {
        seq!['\\', 'r']
    } else if c == '\t' {
        seq!['\\', 't']
    } else {
        seq![c]
    }
}

/// A string escaped for a double-quoted JavaScript string: backslashes,
/// double quotes, newlines, carriage returns and tabs are escaped.
pub open spec fn escaped(s: Seq<char>) -> Seq<char>
    decreases s.len(),
{
    if s.len() == 0 {
        Seq::empty()
    } else {
        escaped(s.drop_last()) + esc_char(s.last())
    }
}

/// A string escaped for a JavaScript template literal: backslashes,
/// backquotes and every `$` that opens `${` are escaped.
pub open spec fn template_escaped(s: Seq<char>) -> Seq<char>
    decreases s.len(),
{
    if s.len() == 0 {
        Seq::empty()
    } else {
        let c = s[0];
        let rest = template_escaped(s.drop_first());
        if c == '\\' {
            seq!['\\', '\\'] + rest
        } else if c == '`' {
            seq!['\\', '`'] + rest
        } else if c == '$' && s.len() > 1 && s[1] == '{' {
            seq!['\\', '$'] + rest
        } else {
            seq![c] + rest
        }
    }
}

/// The JavaScript operator of a binary operator, with its spaces; none for
/// the pipe and range operators.
pub open spec fn binop_js(op: BinOp) -> Option<Seq<char>> {
    match op {
        BinOp::Add => Some(" + "@),
        BinOp::Sub => Some(" - "@),
        BinOp::Mul => Some(" * "@),
        BinOp::Div => Some(" / "@),
        BinOp::Eq => Some(" === "@),
        BinOp::NotEq => Some(" !== "@),
        BinOp::Lt => Some(" < "@),
        BinOp::Gt => Some(" > "@),
        BinOp::And => Some(" && "@),
        BinOp::Or => Some(" || "@),
        BinOp::Assign => Some(" = "@),
        BinOp::Pipe => None,
        BinOp::Range => None,
    }
}

/// The error for an operator with no JavaScript counterpart.
pub open spec fn binop_error(op: BinOp) -> GenError {
    match op {
        BinOp::Pipe => GenError::Unsupported("Use ShellPipe expression for shell pipes"@),
        _ => GenError::Unsupported("Range operator not yet supported"@),
    }
}

/// The shell form of a redirection operator.
pub open spec fn redirect_js(op: RedirectOp) -> Seq<char> {
    match op {
        RedirectOp::Out => ">"@,
        RedirectOp::Append => ">>"@,
        RedirectOp::In => "<"@,
        RedirectOp::ErrOut => "2>"@,
        RedirectOp::ErrToOut => "2>&1"@,
    }
}

/// The message for a bare `self`.
pub open spec fn bare_self_msg() -> Seq<char> {
    "Bare 'self' is not supported. Use self.session to access the session context"@
}

/// The message for `self.f` with `f` neither `session` nor `delegate`.
pub open spec fn self_field_msg(f: Seq<char>) -> Seq<char> {
    "self."@ + f + " is not supported. Only self.session and self.delegate() are available"@
}

/// Whether an expression is the name `self`.
pub open spec fn is_self(e: Expr) -> bool {
    e matches Expr::Identifier(n) && n@ == "self"@
}

/// Whether an expression is `self.delegate`.
pub open spec fn is_self_delegate(e: Expr) -> bool {
    e matches Expr::Member { object, field } && is_self(*object) && field@ == "delegate"@
}

/// Code for an expression.
pub open spec fn gen_expr(st: GenState, w: Option<Seq<char>>, e: Expr) -> Result<GenState, GenError>
    decreases e, 0nat,
{
    match e {
        Expr::Identifier(n) => if n@ == "self"@ {
            Err(GenError::Codegen(bare_self_msg()))
        } else {
            Ok(emit(st, n@))
        },
        Expr::Number(n) => Ok(emit(st, n@)),
        Expr::String(lit) => if lit.parts.len() == 1 && lit.parts[0] is Text {
            Ok(emit(st, "\""@ + escaped(lit.parts[0]->Text_0@) + "\""@))
        } else {
            emit_r(gen_parts(emit(st, "`"@), w, lit.parts@), "`"@)
        },
        Expr::True => Ok(emit(st, "true"@)),
        Expr::False => Ok(emit(st, "false"@)),
        Expr::Array(items) => emit_r(gen_list(emit(st, "["@), w, items@), "]"@),
        Expr::Object(fields) => emit_r(gen_fields(emit(st, "{ "@), w, fields@), " }"@),
        Expr::Binary { op, left, right } => match gen_expr(st, w, *left) {
            Ok(s1) => match binop_js(op) {
                Some(o) => gen_expr(emit(s1, o), w, *right),
                None => Err(binop_error(op)),
            },
            Err(err) => Err(err),
        },
        Expr::Unary { op, operand } => match op {
            UnOp::Not => gen_expr(emit(st, "!"@), w, *operand),
            UnOp::Neg => gen_expr(emit(st, "-"@), w, *operand),
            UnOp::Throw => emit_r(
                gen_expr(emit(st, "throw new Error(String("@), w, *operand),
                "))"@,
            ),
        },
        Expr::Call { callee, args } => if is_self_delegate(*callee) {
            emit_r(gen_list(emit(st, "delegate(session, "@), w, args@), ")"@)
        } else {
            match gen_expr(st, w, *callee) {
                Ok(s1) => emit_r(gen_list(emit(s1, "("@), w, args@), ")"@),
                Err(err) => Err(err),
            }
        },
        Expr::Member { object, field } => if is_self(*object) {
            if field@ == "session"@ {
                Ok(emit(st, "session"@))
            } else if field@ == "delegate"@ {
                Ok(emit(st, "delegate"@))
            } else {
                Err(GenError::Codegen(self_field_msg(field@)))
            }
        } else {
            emit_r(gen_expr(st, w, *object), "."@ + field@)
        },
        Expr::Index { object, index } => match gen_expr(st, w, *object) {
            Ok(s1) => emit_r(gen_expr(emit(s1, "["@), w, *index), "]"@),
            Err(err) => Err(err),
        },
        Expr::Paren(inner) => emit_r(gen_expr(emit(st, "("@), w, *inner), ")"@),
        Expr::PostIncrement(inner) => emit_r(gen_expr(st, w, *inner), "++"@),
        Expr::PostDecrement(inner) => emit_r(gen_expr(st, w, *inner), "--"@),
        Expr::Await(inner) => gen_expr(emit(st, "await "@), w, *inner),
        Expr::BareCommand { name, args } => emit_r(
            gen_command_args(emit(st, "await $shell(`"@ + name@), w, args@),
            "`)"@,
        ),
        Expr::CommandSubst(cmd) => emit_r(
            match *cmd {
                Expr::BareCommand { name, args } => emit_r(
                    gen_command_args(emit(st, "await $shell(`"@ + name@), w, args@),
                    "`"@,
                ),
                _ => gen_expr(emit(st, "await $shell("@), w, *cmd),
            },
            ", {capture: true})"@,
        ),
        Expr::ShellPipe { left, right } => match gen_pipe_operand(
            emit(st, "await $shellPipe(["@),
            w,
            *left,
        ) {
            Ok(s1) => emit_r(gen_pipe_operand(emit(s1, ", "@), w, *right), "])"@),
            Err(err) => Err(err),
        },
        Expr::ShellAnd { left, right } => match gen_pipe_operand(
            emit(st, "await $shellAnd(["@),
            w,
            *left,
        ) {
            Ok(s1) => emit_r(gen_pipe_operand(emit(s1, ", "@), w, *right), "])"@),
            Err(err) => Err(err),
        },
        Expr::ShellOr { left, right } => match gen_pipe_operand(
            emit(st, "await $shellOr(["@),
            w,
            *left,
        ) {
            Ok(s1) => emit_r(gen_pipe_operand(emit(s1, ", "@), w, *right), "])"@),
            Err(err) => Err(err),
        },
        Expr::ShellRedirect { command, op, target } => match gen_pipe_operand(
            emit(st, "await $shellRedirect("@),
            w,
            *command,
        ) {
            Ok(s1) => emit_r(
                gen_expr(emit(s1, ", '"@ + redirect_js(op) + "', "@), w, *target),
                ")"@,
            ),
            Err(err) => Err(err),
        },
        Expr::Think(pb) => gen_prompt(st, w, pb, PromptKind::Think),
        Expr::Ask(pb) => gen_prompt(st, w, pb, PromptKind::Ask),
        Expr::Do(_) => Err(GenError::Unsupported("Do expressions not yet supported"@)),
        Expr::Task(_) => Err(GenError::Unsupported("Task expressions not yet supported"@)),
    }
}

/// Code for an operand of a shell pipe, `&&`, `||` or redirection: a bare
/// command becomes a template literal, anything else is an expression.
pub open spec fn gen_pipe_operand(st: GenState, w: Option<Seq<char>>, e: Expr) -> Result<
    GenState,
    GenError,
>
    decreases e, 1nat,
{
    match e {
        Expr::BareCommand { name, args } => emit_r(
            gen_command_args(emit(st, "`"@ + name@), w, args@),
            "`"@,
        ),
        _ => gen_expr(st, w, e),
    }
}

/// Code for expressions separated by commas.
pub open spec fn gen_list(st: GenState, w: Option<Seq<char>>, es: Seq<Expr>) -> Result<
    GenState,
    GenError,
>
    decreases es, 1nat,
{
    if es.len() == 0 {
        Ok(st)
    } else {
        match gen_list(st, w, es.drop_last()) {
            Ok(s1) => gen_expr(
                if es.len() > 1 {
                    emit(s1, ", "@)
                } else {
                    s1
                },
                w,
                es.last(),
            ),
            Err(err) => Err(err),
        }
    }
}

/// Code for the fields of an object literal; `{x}` stays shorthand.
pub open spec fn gen_fields(st: GenState, w: Option<Seq<char>>, fs: Seq<ObjectField>) -> Result<
    GenState,
    GenError,
>
    decreases fs, 1nat,
{
    if fs.len() == 0 {
        Ok(st)
    } else {
        match gen_fields(st, w, fs.drop_last()) {
            Ok(s1) => {
                let s2 = emit(
                    if fs.len() > 1 {
                        emit(s1, ", "@)
                    } else {
                        s1
                    },
                    fs.last().key@,
                );
                match fs.last().value {
                    Some(v) => gen_expr(emit(s2, ": "@), w, v),
                    None => Ok(s2),
                }
            },
            Err(err) => Err(err),
        }
    }
}

/// Code for the parts of a template literal.
pub open spec fn gen_parts(st: GenState, w: Option<Seq<char>>, ps: Seq<StringPart>) -> Result<
    GenState,
    GenError,
>
    decreases ps, 1nat,
{
    if ps.len() == 0 {
        Ok(st)
    } else {
        match gen_parts(st, w, ps.drop_last()) {
            Ok(s1) => match ps.last() {
                StringPart::Text(t) => Ok(emit(s1, template_escaped(t@))),
                StringPart::Interpolation(e) => emit_r(gen_expr(emit(s1, "${"@), w, *e), "}"@),
            },
            Err(err) => Err(err),
        }
    }
}

/// Code for the arguments of a shell command, each after a space.
pub open spec fn gen_command_args(st: GenState, w: Option<Seq<char>>, args: Seq<CommandArg>) -> Result<
    GenState,
    GenError,
>
    decreases args, 1nat,
{
    if args.len() == 0 {
        Ok(st)
    } else {
        match gen_command_args(st, w, args.drop_last()) {
            Ok(s1) => match args.last() {
                CommandArg::Literal(l) => Ok(emit(s1, " "@ + l@)),
                CommandArg::String(lit) => gen_parts(emit(s1, " "@), w, lit.parts@),
            },
            Err(err) => Err(err),
        }
    }
}

/// The names, separated by commas.
pub open spec fn comma_joined(ns: Seq<Seq<char>>) -> Seq<char>
    decreases ns.len(),
{
    if ns.len() == 0 {
        Seq::empty()
    } else if ns.len() == 1 {
        ns[0]
    } else {
        comma_joined(ns.drop_last()) + ", "@ + ns.last()
    }
}

/// Code for a prompt block: a call of `executePrompt` with the template's
/// id, and the bindings the template needs.
/// The template gets the id `think_<n>` or `ask_<n>`, where `n` counts the
/// templates so far.  Outside a worker a prompt block is an error.
pub open spec fn gen_prompt(st: GenState, w: Option<Seq<char>>, pb: PromptBlock, kind: PromptKind) -> Result<
    GenState,
    GenError,
> {
    match w {
        None => Err(
            GenError::Unsupported("Prompt blocks (think/ask) must be used inside a worker"@),
        ),
        Some(worker) => {
            let id = kind_name(kind) + "_"@ + decimal(st.prompts.len());
            match template_state(pb.items@, pb.items@.len()) {
                Err(m) => Err(GenError::Unsupported(m)),
                Ok((md, b)) => {
                    let t = TemplateView {
                        id: id,
                        kind: kind,
                        worker_name: worker,
                        markdown: md,
                        bindings: b,
                    };
                    Ok(
                        GenState {
                            out: st.out + "await executePrompt(session, '"@ + id + "', { "@
                                + comma_joined(b) + " })"@,
                            prompts: st.prompts.push(t),
                            worker: st.worker,
                        },
                    )
                },
            }
        },
    }
}

/// Code for a block: each statement on a line of its own, indented by `ind`.
pub open spec fn gen_block(st: GenState, w: Option<Seq<char>>, ind: Seq<char>, b: Block) -> Result<
    GenState,
    GenError,
>
    decreases b, 0nat,
{
    gen_stmts(st, w, ind, b.statements@)
}

/// Code for statements, each on a line of its own.
pub open spec fn gen_stmts(
    st: GenState,
    w: Option<Seq<char>>,
    ind: Seq<char>,
    ss: Seq<Statement>,
) -> Result<GenState, GenError>
    decreases ss, 1nat,
{
    if ss.len() == 0 {
        Ok(st)
    } else {
        match gen_stmts(st, w, ind, ss.drop_last()) {
            Ok(s1) => emit_r(gen_stmt(emit(s1, ind), w, ind, ss.last()), "\n"@),
            Err(err) => Err(err),
        }
    }
}

/// Code for a nested block and the closing brace of the construct that
/// holds it.
pub open spec fn gen_body(st: GenState, w: Option<Seq<char>>, ind: Seq<char>, b: Block) -> Result<
    GenState,
    GenError,
>
    decreases b, 1nat,
{
    emit_r(gen_block(st, w, ind + "  "@, b), ind + "}"@)
}

/// `" = "` and the initial value, where there is one.
pub open spec fn gen_init(st: GenState, w: Option<Seq<char>>, init: Option<Expr>) -> Result<
    GenState,
    GenError,
>
    decreases init, 0nat,
{
    match init {
        Some(e) => gen_expr(emit(st, " = "@), w, e),
        None => Ok(st),
    }
}

/// Code for a statement.
pub open spec fn gen_stmt(st: GenState, w: Option<Seq<char>>, ind: Seq<char>, s: Statement) -> Result<
    GenState,
    GenError,
>
    decreases s, 0nat,
{
    match s {
        Statement::VarDecl { pattern, init } => match pattern {
            Pattern::Identifier { name, type_ann: _ } => emit_r(
                gen_init(emit(st, "let "@ + name@), w, init),
                ";"@,
            ),
            Pattern::Object(fields) => match gen_pattern_fields(emit(st, "let {"@), fields@) {
                Ok(s1) => emit_r(gen_init(emit(s1, "}"@), w, init), ";"@),
                Err(err) => Err(err),
            },
        },
        Statement::Expr(e) => emit_r(gen_expr(st, w, e), ";"@),
        Statement::If { condition, then_block, else_block } => match gen_expr(
            emit(st, "if ("@),
            w,
            condition,
        ) {
            Ok(s1) => match gen_body(emit(s1, ") {\n"@), w, ind, then_block) {
                Ok(s2) => match else_block {
                    Some(b) => gen_body(emit(s2, " else {\n"@), w, ind, b),
                    None => Ok(s2),
                },
                Err(err) => Err(err),
            },
            Err(err) => Err(err),
        },
        Statement::While { condition, body } => match gen_expr(
            emit(st, "while ("@),
            w,
            condition,
        ) {
            Ok(s1) => gen_body(emit(s1, ") {\n"@), w, ind, body),
            Err(err) => Err(err),
        },
        Statement::For { var, iter, body } => match gen_expr(
            emit(st, "for (let "@ + var@ + " of "@),
            w,
            iter,
        ) {
            Ok(s1) => gen_body(emit(s1, ") {\n"@), w, ind, body),
            Err(err) => Err(err),
        },
        Statement::Return(r) => match r {
            Some(e) => emit_r(gen_expr(emit(st, "return "@), w, e), ";"@),
            None => Ok(emit(st, "return;"@)),
        },
        Statement::Break => Ok(emit(st, "break;"@)),
        Statement::Succeed => Ok(emit(st, "// succeed statement (not yet implemented)"@)),
        Statement::Fail => Ok(emit(st, "// fail statement (not yet implemented)"@)),
        Statement::TypeDecl { .. } => Ok(st),
    }
}

/// Code for the fields of an object pattern: `key`, or `key: name` where
/// the two differ.  Nested patterns are not supported.
pub open spec fn gen_pattern_fields(st: GenState, fs: Seq<crate::ast::ObjectPatternField>) -> Result<
    GenState,
    GenError,
>
    decreases fs.len(),
{
    if fs.len() == 0 {
        Ok(st)
    } else {
        match gen_pattern_fields(st, fs.drop_last()) {
            Ok(s1) => {
                let s2 = if fs.len() > 1 {
                    emit(s1, ", "@)
                } else {
                    s1
                };
                let f = fs.last();
                match f.pattern {
                    Pattern::Identifier { name, type_ann: _ } => if f.key@ != name@ {
                        Ok(emit(s2, f.key@ + ": "@ + name@))
                    } else {
                        Ok(emit(s2, f.key@))
                    },
                    _ => Err(
                        GenError::Unsupported(
                            "Nested patterns in object destructuring not yet supported"@,
                        ),
                    ),
                }
            },
            Err(err) => Err(err),
        }
    }
}

/// The parameter names, separated by commas.
pub open spec fn params_joined(ps: Seq<Param>) -> Seq<char> {
    comma_joined(ps.map_values(|p: Param| p.name@))
}

/// The parameter names, each after a comma and a space.
pub open spec fn params_after_session(ps: Seq<Param>) -> Seq<char>
    decreases ps.len(),
{
    if ps.len() == 0 {
        Seq::empty()
    } else {
        params_after_session(ps.drop_last()) + ", "@ + ps.last().name@
    }
}

/// Code for a worker: an exported function (the default export for
/// `export default`) whose first parameter is the session.  Its prompt
/// blocks are named after it.
pub open spec fn gen_worker(st: GenState, d: WorkerDecl) -> Result<GenState, GenError> {
    let head = if d.is_default {
        "export default function "@
    } else {
        "export function "@
    };
    let st1 = GenState {
        out: st.out + head + d.name@ + "(session"@ + params_after_session(d.params@) + ") {\n"@,
        prompts: st.prompts,
        worker: Some(d.name@),
    };
    match gen_block(st1, Some(d.name@), "  "@, d.body) {
        Ok(s2) => Ok(GenState { out: s2.out + "}\n"@, prompts: s2.prompts, worker: None }),
        Err(err) => Err(err),
    }
}

/// Code for a function declaration.
pub open spec fn gen_function(st: GenState, d: FunctionDecl) -> Result<GenState, GenError> {
    let head = if d.is_default {
        "export default function "@
    } else if d.is_exported {
        "export function "@
    } else {
        "function "@
    };
    emit_r(
        gen_block(
            emit(st, head + d.name@ + "("@ + params_joined(d.params@) + ") {\n"@),
            st.worker,
            "  "@,
            d.body,
        ),
        "}\n"@,
    )
}

/// The path segments, separated by `/`.
pub open spec fn slash_joined(ss: Seq<&str>) -> Seq<char>
    decreases ss.len(),
{
    if ss.len() == 0 {
        Seq::empty()
    } else if ss.len() == 1 {
        ss[0]@
    } else {
        slash_joined(ss.drop_last()) + "/"@ + ss.last()@
    }
}

/// One `import * as name from './name.js';` line per name.
pub open spec fn multi_import_lines(names: Seq<&str>) -> Seq<char>
    decreases names.len(),
{
    if names.len() == 0 {
        Seq::empty()
    } else {
        multi_import_lines(names.drop_last()) + "import * as "@ + names.last()@ + " from './"@
            + names.last()@ + ".js';\n"@
    }
}

/// Code for an import: `import std.x` takes `x` from the runtime library;
/// other paths import a module under its last segment.
pub open spec fn import_text(d: ImportDecl) -> Seq<char> {
    match d.path {
        ImportPath::Simple(segs) => if segs@.len() > 0 && segs@[0]@ == "std"@ {
            if segs@.len() == 2 {
                "import { "@ + segs@[1]@ + " } from 'patchwork-runtime';\n"@
            } else {
                Seq::empty()
            }
        } else {
            "import * as "@ + (if segs@.len() > 0 {
                segs@.last()@
            } else {
                "module"@
            }) + " from '"@ + slash_joined(segs@) + ".js';\n"@
        },
        ImportPath::RelativeMulti(names) => multi_import_lines(names@),
    }
}

/// The imports of a program, in order.
pub open spec fn imports_text(items: Seq<Item>) -> Seq<char>
    decreases items.len(),
{
    if items.len() == 0 {
        Seq::empty()
    } else {
        imports_text(items.drop_last()) + match items.last() {
            Item::Import(d) => import_text(d),
            _ => Seq::empty(),
        }
    }
}

/// Whether a program has an import.
pub open spec fn has_import(items: Seq<Item>) -> bool {
    exists|i: int| 0 <= i < items.len() && items[i] is Import
}

/// The imports of the runtime library.
pub open spec fn runtime_imports() -> Seq<char> {
    "// Patchwork runtime imports\n"@
        + "import { shell, SessionContext, executePrompt, delegate } from './patchwork-runtime.js';\n\n"@
}

/// Code for the workers and functions of a program, each followed by an
/// empty line.
pub open spec fn gen_items(st: GenState, items: Seq<Item>) -> Result<GenState, GenError>
    decreases items.len(),
{
    if items.len() == 0 {
        Ok(st)
    } else {
        match gen_items(st, items.drop_last()) {
            Ok(s1) => match items.last() {
                Item::Worker(w) => emit_r(gen_worker(s1, w), "\n"@),
                Item::Function(f) => emit_r(gen_function(s1, f), "\n"@),
                _ => Ok(s1),
            },
            Err(err) => Err(err),
        }
    }
}

/// Code for a program: its imports (and an empty line after them, if
/// any), the runtime imports, then its workers and functions.
pub open spec fn gen_program(st: GenState, items: Seq<Item>) -> Result<GenState, GenError> {
    let head = imports_text(items) + (if has_import(items) {
        "\n"@
    } else {
        Seq::empty()
    }) + runtime_imports();
    gen_items(emit(st, head), items)
}

/// Whether a generation step agrees with its specification: on success
/// the state is the one specified, on failure the error is.
pub open spec fn gen_done(spec_r: Result<GenState, GenError>, r: Result<(), CompileError>, after: GenState) -> bool {
    match spec_r {
        Ok(st) => r is Ok && after == st,
        Err(g) => r matches Err(e) && is_gen_error(e, g),
    }
}

/// A string escaped for a double-quoted JavaScript string literal.
pub fn escape_string(s: &str) -> (r: String)
    ensures
        r@ == escaped(s@),
{
    let cs = str_chars(s);
    let mut out = String::new();
    let mut i: usize = 0;
    while i < cs.len()
        invariant
            i <= cs.len(),
            cs@ == s@,
            out@ == escaped(cs@.take(i as int)),
        decreases cs.len() - i,
    {
        proof {
            assert(cs@.take(i + 1).drop_last() =~= cs@.take(i as int));
        }
        let c = cs[i];
        let ghost before = out@;
        if c == '\\' {
            push_char(&mut out, '\\');
            push_char(&mut out, '\\');
        } else if c == '"' {
            push_char(&mut out, '\\');
            push_char(&mut out, '"');
        } else if c == '\n' {
            push_char(&mut out, '\\');
            push_char(&mut out, 'n');
        } else if c == '\r' {
            push_char(&mut out, '\\');
            push_char(&mut out, 'r');
        } else if c == '\t' {
            push_char(&mut out, '\\');
            push_char(&mut out, 't');
        } else {
            push_char(&mut out, c);
        }
        proof {
            assert(out@ =~= before + esc_char(c));
        }
        i = i + 1;
    }
    proof {
        assert(cs@.take(cs.len() as int) =~= cs@);
    }
    out
}

/// A string escaped for a JavaScript template literal.
pub fn escape_template_literal(s: &str) -> (r: String)
    ensures
        r@ == template_escaped(s@),
{
    let cs = str_chars(s);
    let mut out = String::new();
    proof {
        assert(cs@.skip(0) =~= cs@);
        assert(out@ + template_escaped(cs@) =~= template_escaped(cs@));
    }
    let mut i: usize = 0;
    while i < cs.len()
        invariant
            i <= cs.len(),
            cs@ == s@,
            out@ + template_escaped(cs@.skip(i as int)) == template_escaped(cs@),
        decreases cs.len() - i,
    {
        let ghost rest = cs@.skip(i as int);
        proof {
            assert(rest.drop_first() =~= cs@.skip(i + 1));
            assert(rest[0] == cs@[i as int]);
            assert(rest.len() > 1 ==> rest[1] == cs@[i + 1]);
        }
        let c = cs[i];
        let ghost before = out@;
        if c == '\\' {
            push_char(&mut out, '\\');
            push_char(&mut out, '\\');
            proof {
                assert(out@ =~= before + seq!['\\', '\\']);
            }
        } else if c == '`' {
            push_char(&mut out, '\\');
            push_char(&mut out, '`');
            proof {
                assert(out@ =~= before + seq!['\\', '`']);
            }
        } else if c == '$' && i + 1 < cs.len() && cs[i + 1] == '{' {
            push_char(&mut out, '\\');
            push_char(&mut out, '$');
            proof {
                assert(out@ =~= before + seq!['\\', '$']);
            }
        } else {
            push_char(&mut out, c);
            proof {
                assert(out@ =~= before + seq![c]);
            }
        }
        proof {
            let piece = out@.subrange(before.len() as int, out@.len() as int);
            assert(out@ =~= before + piece);
            assert(template_escaped(rest) == piece + template_escaped(cs@.skip(i + 1)));
            vstd::seq_lib::lemma_concat_associative(
                before,
                piece,
                template_escaped(cs@.skip(i + 1)),
            );
        }
        i = i + 1;
    }
    proof {
        assert(cs@.skip(cs.len() as int) =~= Seq::<char>::empty());
        assert(out@ + Seq::<char>::empty() =~= out@);
    }
    out
}

/// The decimal digit for `d`.
fn digit(d: usize) -> (c: char)
    requires
        d < 10,
    ensures
        c == digit_char(d as nat),
{
    if d == 0 {
        '0'
    } else if d == 1 {
        '1'
    } else if d == 2 {
        '2'
    } else if d == 3 {
        '3'
    } else if d == 4 {
        '4'
    } else if d == 5 {
        '5'
    } else if d == 6 {
        '6'
    } else if d == 7 {
        '7'
    } else if d == 8 {
        '8'
    } else {
        '9'
    }
}

/// `n` in decimal.
pub fn decimal_string(n: usize) -> (r: String)
    ensures
        r@ == decimal(n as nat),
    decreases n,
{
    if n < 10 {
        let mut s = String::new();
        push_char(&mut s, digit(n));
        proof {
            assert(s@ =~= seq![digit_char(n as nat)]);
        }
        s
    } else {
        let mut s = decimal_string(n / 10);
        push_char(&mut s, digit(n % 10));
        s
    }
}

/// Concatenates strings.
fn concat(a: &str, b: &str) -> (r: String)
    ensures
        r@ == a@ + b@,
{
    let mut s = a.to_owned();
    s.append(b);
    s
}

/// The names, separated by commas.
fn join_names(ns: &Vec<String>) -> (r: String)
    ensures
        r@ == comma_joined(ns@.map_values(|n: String| n@)),
{
    let ghost v = ns@.map_values(|n: String| n@);
    let mut out = String::new();
    let mut i: usize = 0;
    while i < ns.len()
        invariant
            i <= ns.len(),
            v == ns@.map_values(|n: String| n@),
            out@ == comma_joined(v.take(i as int)),
        decreases ns.len() - i,
    {
        proof {
            assert(v.take(i + 1).drop_last() =~= v.take(i as int));
            assert(v.take(i + 1).last() == ns@[i as int]@);
        }
        if i > 0 {
            out.append(", ");
        }
        out.append(ns[i].as_str());
        proof {
            if i == 0 {
                assert(v.take(1)[0] == ns@[0]@);
            }
        }
        i = i + 1;
    }
    proof {
        assert(v.take(ns.len() as int) =~= v);
    }
    out
}

/// The JavaScript generator.
pub struct CodeGenerator {
    /// The code generated so far.
    output: String,
    /// The prompt templates extracted so far.
    prompts: Vec<PromptTemplate>,
    /// The module being compiled, for multi-file compilation.
    module_id: Option<String>,
    /// The worker whose body is being generated.
    current_worker: Option<String>,
}

impl CodeGenerator {
    /// The state of generation.
    pub closed spec fn state(self) -> GenState {
        GenState {
            out: self.output@,
            prompts: templates_view(self.prompts@),
            worker: match self.current_worker {
                Some(w) => Some(w@),
                None => None,
            },
        }
    }

    /// The module id set for the generator.
    pub closed spec fn module_id_spec(self) -> Option<Seq<char>> {
        match self.module_id {
            Some(m) => Some(m@),
            None => None,
        }
    }

    /// A generator with no code and no templates.
    pub fn new() -> (r: CodeGenerator)
        ensures
            r.state() == (GenState {
                out: Seq::empty(),
                prompts: Seq::empty(),
                worker: None,
            }),
            r.module_id_spec() is None,
    {
        let r = CodeGenerator {
            output: String::new(),
            prompts: Vec::new(),
            module_id: None,
            current_worker: None,
        };
        proof {
            assert(templates_view(r.prompts@) =~= Seq::<TemplateView>::empty());
        }
        r
    }

    /// Sets the id of the module being compiled.
    pub fn set_module_id(&mut self, module_id: &str)
        ensures
            final(self).module_id_spec() == Some(module_id@),
            final(self).state() == old(self).state(),
    {
        self.module_id = Some(module_id.to_owned());
    }

    /// The prompt templates extracted so far.
    pub fn prompts(&self) -> (r: &Vec<PromptTemplate>)
        ensures
            templates_view(r@) == self.state().prompts,
    {
        &self.prompts
    }

    /// Appends code.
    fn emit(&mut self, t: &str)
        ensures
            final(self).current_worker == old(self).current_worker,
            final(self).state() == emit(old(self).state(), t@),
            final(self).module_id == old(self).module_id,
    {
        self.output.append(t);
    }

    /// Generates the code of a program: its imports, the runtime imports,
    /// then its workers and functions.  The code is handed out and the
    /// generator's buffer emptied; the templates stay.
    pub fn generate(&mut self, program: &crate::ast::Program) -> (r: Result<String, CompileError>)
        ensures
            match gen_program(old(self).state(), program.items@) {
                Ok(st) => r matches Ok(code) && code@ == st.out && final(self).state() == (
                GenState { out: Seq::empty(), prompts: st.prompts, worker: st.worker }),
                Err(g) => r matches Err(e) && is_gen_error(e, g),
            },
    {
        let items = &program.items;
        let mut imports = String::new();
        let mut has_imports = false;
        let mut i: usize = 0;
        while i < items.len()
            invariant
                i <= items.len(),
                items == &program.items,
                imports@ == imports_text(items@.take(i as int)),
                has_imports == has_import(items@.take(i as int)),
            decreases items.len() - i,
        {
            proof {
                assert(items@.take(i + 1).drop_last() =~= items@.take(i as int));
                if has_import(items@.take(i as int)) {
                    let k = choose|k: int|
                        0 <= k < i && #[trigger] items@.take(i as int)[k] is Import;
                    assert(items@.take(i + 1)[k] is Import);
                }
                if has_import(items@.take(i + 1)) {
                    let k = choose|k: int|
                        0 <= k < i + 1 && #[trigger] items@.take(i + 1)[k] is Import;
                    if k < i {
                        assert(items@.take(i as int)[k] is Import);
                    }
                }
            }
            match &items[i] {
                Item::Import(decl) => {
                    let t = import_code(decl);
                    imports.append(t.as_str());
                    has_imports = true;
                    proof {
                        assert(items@.take(i + 1)[i as int] is Import);
                    }
                },
                _ => {
                    proof {
                        assert(imports_text(items@.take(i + 1)) =~= imports_text(
                            items@.take(i as int),
                        ));
                    }
                },
            }
            i = i + 1;
        }
        proof {
            assert(items@.take(items.len() as int) =~= items@);
        }
        if has_imports {
            imports.append("\n");
        }
        imports.append("// Patchwork runtime imports\n");
        imports.append(
            "import { shell, SessionContext, executePrompt, delegate } from './patchwork-runtime.js';\n\n",
        );
        proof {
            vstd::seq_lib::lemma_concat_associative(
                imports_text(items@) + (if has_import(items@) {
                    "\n"@
                } else {
                    Seq::empty()
                }),
                "// Patchwork runtime imports\n"@,
                "import { shell, SessionContext, executePrompt, delegate } from './patchwork-runtime.js';\n\n"@,
            );
            if !has_imports {
                assert(imports_text(items@) + Seq::<char>::empty() =~= imports_text(items@));
            }
        }
        self.emit(imports.as_str());
        match self.generate_items(items) {
            Ok(()) => {},
            Err(e) => {
                return Err(e);
            },
        }
        let mut code = String::new();
        std::mem::swap(&mut code, &mut self.output);
        Ok(code)
    }
}

impl CodeGenerator {
    /// Generates the workers and functions of a program.
    fn generate_items(&mut self, items: &Vec<Item>) -> (r: Result<(), CompileError>)
        ensures
            gen_done(gen_items(old(self).state(), items@), r, final(self).state()),
    {
        let ghost st0 = self.state();
        let mut i: usize = 0;
        while i < items.len()
            invariant
                i <= items.len(),
                st0 == old(self).state(),
                gen_items(st0, items@.take(i as int)) == Ok::<GenState, GenError>(self.state()),
            decreases items.len() - i,
        {
            proof {
                assert(items@.take(i + 1).drop_last() =~= items@.take(i as int));
            }
            let res = match &items[i] {
                Item::Worker(w) => self.generate_worker(w),
                Item::Function(f) => self.generate_function(f),
                _ => Ok(()),
            };
            match res {
                Ok(()) => {},
                Err(e) => {
                    proof {
                        lemma_gen_items_err(st0, items@, i + 1, items.len() as int);
                        assert(items@.take(items.len() as int) =~= items@);
                    }
                    return Err(e);
                },
            }
            match &items[i] {
                Item::Worker(_) | Item::Function(_) => {
                    self.emit("\n");
                },
                _ => {},
            }
            i = i + 1;
        }
        proof {
            assert(items@.take(items.len() as int) =~= items@);
        }
        Ok(())
    }
}

/// Once generating items fails, it fails the same way on longer prefixes.
proof fn lemma_gen_items_err(st: GenState, items: Seq<Item>, k: int, j: int)
    requires
        0 <= k <= j <= items.len(),
        gen_items(st, items.take(k)) is Err,
    ensures
        gen_items(st, items.take(j)) == gen_items(st, items.take(k)),
    decreases j - k,
{
    if j > k {
        lemma_gen_items_err(st, items, k, j - 1);
        assert(items.take(j).drop_last() =~= items.take(j - 1));
    }
}

/// The path segments, separated by `/`.
fn join_slash(ss: &Vec<&str>) -> (r: String)
    ensures
        r@ == slash_joined(ss@),
{
    let mut out = String::new();
    let mut i: usize = 0;
    while i < ss.len()
        invariant
            i <= ss.len(),
            out@ == slash_joined(ss@.take(i as int)),
        decreases ss.len() - i,
    {
        proof {
            assert(ss@.take(i + 1).drop_last() =~= ss@.take(i as int));
        }
        if i > 0 {
            out.append("/");
        }
        out.append(ss[i]);
        proof {
            if i == 0 {
                assert(ss@.take(1)[0] == ss@[0]);
            }
        }
        i = i + 1;
    }
    proof {
        assert(ss@.take(ss.len() as int) =~= ss@);
    }
    out
}

/// The code of an import.
fn import_code(decl: &ImportDecl) -> (r: String)
    ensures
        r@ == import_text(*decl),
{
    match &decl.path {
        ImportPath::Simple(segments) => {
            if segments.len() > 0 && str_eq(segments[0], "std") {
                if segments.len() == 2 {
                    let mut s = concat("import { ", segments[1]);
                    s.append(" } from 'patchwork-runtime';\n");
                    s
                } else {
                    proof {
                        reveal_strlit("");
                    }
                    String::new()
                }
            } else {
                let module_name = if segments.len() > 0 {
                    segments[segments.len() - 1]
                } else {
                    "module"
                };
                let mut s = concat("import * as ", module_name);
                s.append(" from '");
                let path = join_slash(segments);
                s.append(path.as_str());
                s.append(".js';\n");
                s
            }
        },
        ImportPath::RelativeMulti(names) => {
            let mut out = String::new();
            let mut i: usize = 0;
            while i < names.len()
                invariant
                    i <= names.len(),
                    out@ == multi_import_lines(names@.take(i as int)),
                decreases names.len() - i,
            {
                proof {
                    assert(names@.take(i + 1).drop_last() =~= names@.take(i as int));
                }
                out.append("import * as ");
                out.append(names[i]);
                out.append(" from './");
                out.append(names[i]);
                out.append(".js';\n");
                i = i + 1;
            }
            proof {
                assert(names@.take(names.len() as int) =~= names@);
            }
            out
        },
    }
}

impl CodeGenerator {
    /// The parameter names, each after a comma and a space.
    fn params_after_session_code(params: &Vec<Param>) -> (r: String)
        ensures
            r@ == params_after_session(params@),
    {
        let mut out = String::new();
        let mut i: usize = 0;
        while i < params.len()
            invariant
                i <= params.len(),
                out@ == params_after_session(params@.take(i as int)),
            decreases params.len() - i,
        {
            proof {
                assert(params@.take(i + 1).drop_last() =~= params@.take(i as int));
            }
            out.append(", ");
            out.append(params[i].name);
            i = i + 1;
        }
        proof {
            assert(params@.take(params.len() as int) =~= params@);
        }
        out
    }

    /// The parameter names, separated by commas.
    fn params_joined_code(params: &Vec<Param>) -> (r: String)
        ensures
            r@ == params_joined(params@),
    {
        let ghost v = params@.map_values(|p: Param| p.name@);
        let mut out = String::new();
        let mut i: usize = 0;
        while i < params.len()
            invariant
                i <= params.len(),
                v == params@.map_values(|p: Param| p.name@),
                out@ == comma_joined(v.take(i as int)),
            decreases params.len() - i,
        {
            proof {
                assert(v.take(i + 1).drop_last() =~= v.take(i as int));
                assert(v.take(i + 1).last() == params@[i as int].name@);
            }
            if i > 0 {
                out.append(", ");
            }
            out.append(params[i].name);
            proof {
                if i == 0 {
                    assert(v.take(1)[0] == params@[0].name@);
                }
            }
            i = i + 1;
        }
        proof {
            assert(v.take(params.len() as int) =~= v);
        }
        out
    }

    /// Generates a worker.
    fn generate_worker(&mut self, worker: &WorkerDecl) -> (r: Result<(), CompileError>)
        ensures
            gen_done(gen_worker(old(self).state(), *worker), r, final(self).state()),
    {
        self.current_worker = Some(worker.name.to_owned());
        if worker.is_default {
            self.emit("export default function ");
        } else {
            self.emit("export function ");
        }
        self.emit(worker.name);
        self.emit("(session");
        let ps = Self::params_after_session_code(&worker.params);
        self.emit(ps.as_str());
        self.emit(") {\n");
        match self.generate_block(&worker.body, "  ") {
            Ok(()) => {},
            Err(e) => {
                return Err(e);
            },
        }
        self.emit("}\n");
        self.current_worker = None;
        Ok(())
    }

    /// Generates a function declaration.
    fn generate_function(&mut self, func: &FunctionDecl) -> (r: Result<(), CompileError>)
        ensures
            gen_done(gen_function(old(self).state(), *func), r, final(self).state()),
    {
        let mut head = if func.is_default {
            "export default function ".to_owned()
        } else if func.is_exported {
            "export function ".to_owned()
        } else {
            "function ".to_owned()
        };
        head.append(func.name);
        head.append("(");
        let ps = Self::params_joined_code(&func.params);
        head.append(ps.as_str());
        head.append(") {\n");
        self.emit(head.as_str());
        match self.generate_block(&func.body, "  ") {
            Ok(()) => {},
            Err(e) => {
                return Err(e);
            },
        }
        self.emit("}\n");
        Ok(())
    }

    /// Generates the statements of a block, each on a line indented by `ind`.
    fn generate_block(&mut self, block: &Block, ind: &str) -> (r: Result<(), CompileError>)
        ensures
            final(self).current_worker == old(self).current_worker,
            gen_done(
                gen_block(old(self).state(), old(self).state().worker, ind@, *block),
                r,
                final(self).state(),
            ),
        decreases block, 0nat,
    {
        self.generate_stmts(&block.statements, ind)
    }

    /// Generates statements.
    fn generate_stmts(&mut self, ss: &Vec<Statement>, ind: &str) -> (r: Result<(), CompileError>)
        ensures
            final(self).current_worker == old(self).current_worker,
            gen_done(
                gen_stmts(old(self).state(), old(self).state().worker, ind@, ss@),
                r,
                final(self).state(),
            ),
        decreases ss, 0nat,
    {
        let ghost st0 = self.state();
        let mut i: usize = 0;
        while i < ss.len()
            invariant
                i <= ss.len(),
                st0 == old(self).state(),
                self.current_worker == old(self).current_worker,
                gen_stmts(st0, st0.worker, ind@, ss@.take(i as int)) == Ok::<GenState, GenError>(
                    self.state(),
                ),
            decreases ss.len() - i,
        {
            proof {
                assert(ss@.take(i + 1).drop_last() =~= ss@.take(i as int));
            }
            self.emit(ind);
            match self.generate_statement(&ss[i], ind) {
                Ok(()) => {},
                Err(e) => {
                    proof {
                        lemma_gen_stmts_err(st0, st0.worker, ind@, ss@, i + 1, ss.len() as int);
                        assert(ss@.take(ss.len() as int) =~= ss@);
                    }
                    return Err(e);
                },
            }
            self.emit("\n");
            i = i + 1;
        }
        proof {
            assert(ss@.take(ss.len() as int) =~= ss@);
        }
        Ok(())
    }

    /// Generates a nested block and the closing brace after it.
    fn generate_body(&mut self, block: &Block, ind: &str) -> (r: Result<(), CompileError>)
        ensures
            final(self).current_worker == old(self).current_worker,
            gen_done(
                gen_body(old(self).state(), old(self).state().worker, ind@, *block),
                r,
                final(self).state(),
            ),
        decreases block, 1nat,
    {
        let inner = concat(ind, "  ");
        match self.generate_block(block, inner.as_str()) {
            Ok(()) => {},
            Err(e) => {
                return Err(e);
            },
        }
        let close = concat(ind, "}");
        self.emit(close.as_str());
        Ok(())
    }

    /// Generates `" = "` and the initial value, where there is one.
    fn generate_init(&mut self, init: &Option<Expr>) -> (r: Result<(), CompileError>)
        ensures
            final(self).current_worker == old(self).current_worker,
            gen_done(
                gen_init(old(self).state(), old(self).state().worker, *init),
                r,
                final(self).state(),
            ),
        decreases init, 0nat,
    {
        match init {
            Some(e) => {
                self.emit(" = ");
                self.generate_expr(e)
            },
            None => Ok(()),
        }
    }

    /// Generates a statement.
    fn generate_statement(&mut self, stmt: &Statement, ind: &str) -> (r: Result<(), CompileError>)
        ensures
            final(self).current_worker == old(self).current_worker,
            gen_done(
                gen_stmt(old(self).state(), old(self).state().worker, ind@, *stmt),
                r,
                final(self).state(),
            ),
        decreases stmt, 0nat,
    {
        match stmt {
            Statement::VarDecl { pattern, init } => match pattern {
                Pattern::Identifier { name, type_ann: _ } => {
                    let head = concat("let ", name);
                    self.emit(head.as_str());
                    match self.generate_init(init) {
                        Ok(()) => {},
                        Err(e) => {
                            return Err(e);
                        },
                    }
                    self.emit(";");
                    Ok(())
                },
                Pattern::Object(fields) => {
                    self.emit("let {");
                    match self.generate_pattern_fields(fields) {
                        Ok(()) => {},
                        Err(e) => {
                            return Err(e);
                        },
                    }
                    self.emit("}");
                    match self.generate_init(init) {
                        Ok(()) => {},
                        Err(e) => {
                            return Err(e);
                        },
                    }
                    self.emit(";");
                    Ok(())
                },
            },
            Statement::Expr(e) => {
                match self.generate_expr(e) {
                    Ok(()) => {},
                    Err(err) => {
                        return Err(err);
                    },
                }
                self.emit(";");
                Ok(())
            },
            Statement::If { condition, then_block, else_block } => {
                self.emit("if (");
                match self.generate_expr(condition) {
                    Ok(()) => {},
                    Err(err) => {
                        return Err(err);
                    },
                }
                self.emit(") {\n");
                match self.generate_body(then_block, ind) {
                    Ok(()) => {},
                    Err(err) => {
                        return Err(err);
                    },
                }
                match else_block {
                    Some(b) => {
                        self.emit(" else {\n");
                        self.generate_body(b, ind)
                    },
                    None => Ok(()),
                }
            },
            Statement::While { condition, body } => {
                self.emit("while (");
                match self.generate_expr(condition) {
                    Ok(()) => {},
                    Err(err) => {
                        return Err(err);
                    },
                }
                self.emit(") {\n");
                self.generate_body(body, ind)
            },
            Statement::For { var, iter, body } => {
                let mut head = concat("for (let ", var);
                head.append(" of ");
                self.emit(head.as_str());
                match self.generate_expr(iter) {
                    Ok(()) => {},
                    Err(err) => {
                        return Err(err);
                    },
                }
                self.emit(") {\n");
                self.generate_body(body, ind)
            },
            Statement::Return(r) => match r {
                Some(e) => {
                    self.emit("return ");
                    match self.generate_expr(e) {
                        Ok(()) => {},
                        Err(err) => {
                            return Err(err);
                        },
                    }
                    self.emit(";");
                    Ok(())
                },
                None => {
                    self.emit("return;");
                    Ok(())
                },
            },
            Statement::Break => {
                self.emit("break;");
                Ok(())
            },
            Statement::Succeed => {
                self.emit("// succeed statement (not yet implemented)");
                Ok(())
            },
            Statement::Fail => {
                self.emit("// fail statement (not yet implemented)");
                Ok(())
            },
            Statement::TypeDecl { .. } => Ok(()),
        }
    }

    /// Generates the fields of an object pattern.
    fn generate_pattern_fields(&mut self, fields: &Vec<crate::ast::ObjectPatternField>) -> (r: Result<
        (),
        CompileError,
    >)
        ensures
            final(self).current_worker == old(self).current_worker,
            gen_done(gen_pattern_fields(old(self).state(), fields@), r, final(self).state()),
    {
        let ghost st0 = self.state();
        let mut i: usize = 0;
        while i < fields.len()
            invariant
                i <= fields.len(),
                st0 == old(self).state(),
                self.current_worker == old(self).current_worker,
                gen_pattern_fields(st0, fields@.take(i as int)) == Ok::<GenState, GenError>(
                    self.state(),
                ),
            decreases fields.len() - i,
        {
            proof {
                assert(fields@.take(i + 1).drop_last() =~= fields@.take(i as int));
            }
            if i > 0 {
                self.emit(", ");
            }
            let f = &fields[i];
            match &f.pattern {
                Pattern::Identifier { name, type_ann: _ } => {
                    if !str_eq(f.key, name) {
                        let mut t = concat(f.key, ": ");
                        t.append(name);
                        self.emit(t.as_str());
                    } else {
                        self.emit(f.key);
                    }
                },
                _ => {
                    proof {
                        lemma_gen_pattern_fields_err(st0, fields@, i + 1, fields.len() as int);
                        assert(fields@.take(fields.len() as int) =~= fields@);
                    }
                    return Err(
                        CompileError::Unsupported(
                            "Nested patterns in object destructuring not yet supported".to_owned(),
                        ),
                    );
                },
            }
            i = i + 1;
        }
        proof {
            assert(fields@.take(fields.len() as int) =~= fields@);
        }
        Ok(())
    }
}

/// Once generating statements fails, it fails the same way on longer prefixes.
proof fn lemma_gen_stmts_err(
    st: GenState,
    w: Option<Seq<char>>,
    ind: Seq<char>,
    ss: Seq<Statement>,
    k: int,
    j: int,
)
    requires
        0 <= k <= j <= ss.len(),
        gen_stmts(st, w, ind, ss.take(k)) is Err,
    ensures
        gen_stmts(st, w, ind, ss.take(j)) == gen_stmts(st, w, ind, ss.take(k)),
    decreases j - k,
{
    if j > k {
        lemma_gen_stmts_err(st, w, ind, ss, k, j - 1);
        assert(ss.take(j).drop_last() =~= ss.take(j - 1));
    }
}

/// Once generating pattern fields fails, it fails the same way on longer prefixes.
proof fn lemma_gen_pattern_fields_err(
    st: GenState,
    fs: Seq<crate::ast::ObjectPatternField>,
    k: int,
    j: int,
)
    requires
        0 <= k <= j <= fs.len(),
        gen_pattern_fields(st, fs.take(k)) is Err,
    ensures
        gen_pattern_fields(st, fs.take(j)) == gen_pattern_fields(st, fs.take(k)),
    decreases j - k,
{
    if j > k {
        lemma_gen_pattern_fields_err(st, fs, k, j - 1);
        assert(fs.take(j).drop_last() =~= fs.take(j - 1));
    }
}

/// Once `gen_list` fails on a prefix, it fails the same way on longer prefixes.
proof fn lemma_gen_list_err(st: GenState, w: Option<Seq<char>>, es: Seq<Expr>, k: int, j: int)
    requires
        0 <= k <= j <= es.len(),
        gen_list(st, w, es.take(k)) is Err,
    ensures
        gen_list(st, w, es.take(j)) == gen_list(st, w, es.take(k)),
    decreases j - k,
{
    if j > k {
        lemma_gen_list_err(st, w, es, k, j - 1);
        assert(es.take(j).drop_last() =~= es.take(j - 1));
    }
}

/// Once `gen_fields` fails on a prefix, it fails the same way on longer prefixes.
proof fn lemma_gen_fields_err(st: GenState, w: Option<Seq<char>>, es: Seq<ObjectField>, k: int, j: int)
    requires
        0 <= k <= j <= es.len(),
        gen_fields(st, w, es.take(k)) is Err,
    ensures
        gen_fields(st, w, es.take(j)) == gen_fields(st, w, es.take(k)),
    decreases j - k,
{
    if j > k {
        lemma_gen_fields_err(st, w, es, k, j - 1);
        assert(es.take(j).drop_last() =~= es.take(j - 1));
    }
}

/// Once `gen_parts` fails on a prefix, it fails the same way on longer prefixes.
proof fn lemma_gen_parts_err(st: GenState, w: Option<Seq<char>>, es: Seq<StringPart>, k: int, j: int)
    requires
        0 <= k <= j <= es.len(),
        gen_parts(st, w, es.take(k)) is Err,
    ensures
        gen_parts(st, w, es.take(j)) == gen_parts(st, w, es.take(k)),
    decreases j - k,
{
    if j > k {
        lemma_gen_parts_err(st, w, es, k, j - 1);
        assert(es.take(j).drop_last() =~= es.take(j - 1));
    }
}

/// Once `gen_command_args` fails on a prefix, it fails the same way on longer prefixes.
proof fn lemma_gen_command_args_err(st: GenState, w: Option<Seq<char>>, es: Seq<CommandArg>, k: int, j: int)
    requires
        0 <= k <= j <= es.len(),
        gen_command_args(st, w, es.take(k)) is Err,
    ensures
        gen_command_args(st, w, es.take(j)) == gen_command_args(st, w, es.take(k)),
    decreases j - k,
{
    if j > k {
        lemma_gen_command_args_err(st, w, es, k, j - 1);
        assert(es.take(j).drop_last() =~= es.take(j - 1));
    }
}

impl CodeGenerator {
    /// Generates expressions separated by commas.
    fn generate_list(&mut self, es: &Vec<Expr>) -> (r: Result<(), CompileError>)
        ensures
            gen_done(
                gen_list(old(self).state(), old(self).state().worker, es@),
                r,
                final(self).state(),
            ),
            final(self).current_worker == old(self).current_worker,
        decreases es, 0nat,
    {
        let ghost st0 = self.state();
        let mut i: usize = 0;
        while i < es.len()
            invariant
                i <= es.len(),
                st0 == old(self).state(),
                self.current_worker == old(self).current_worker,
                gen_list(st0, st0.worker, es@.take(i as int)) == Ok::<GenState, GenError>(
                    self.state(),
                ),
            decreases es.len() - i,
        {
            proof {
                assert(es@.take(i + 1).drop_last() =~= es@.take(i as int));
            }
            if i > 0 {
                self.emit(", ");
            }
            match self.generate_expr(&es[i]) {
                Ok(()) => {},
                Err(e) => {
                    proof {
                        lemma_gen_list_err(st0, st0.worker, es@, i + 1, es.len() as int);
                        assert(es@.take(es.len() as int) =~= es@);
                    }
                    return Err(e);
                },
            }
            i = i + 1;
        }
        proof {
            assert(es@.take(es.len() as int) =~= es@);
        }
        Ok(())
    }

    /// Generates the fields of an object literal.
    fn generate_fields(&mut self, es: &Vec<ObjectField>) -> (r: Result<(), CompileError>)
        ensures
            gen_done(
                gen_fields(old(self).state(), old(self).state().worker, es@),
                r,
                final(self).state(),
            ),
            final(self).current_worker == old(self).current_worker,
        decreases es, 0nat,
    {
        let ghost st0 = self.state();
        let mut i: usize = 0;
        while i < es.len()
            invariant
                i <= es.len(),
                st0 == old(self).state(),
                self.current_worker == old(self).current_worker,
                gen_fields(st0, st0.worker, es@.take(i as int)) == Ok::<GenState, GenError>(
                    self.state(),
                ),
            decreases es.len() - i,
        {
            proof {
                assert(es@.take(i + 1).drop_last() =~= es@.take(i as int));
            }
            if i > 0 {
                self.emit(", ");
            }
            self.emit(es[i].key);
            match match &es[i].value {
                Some(v) => {
                    self.emit(": ");
                    self.generate_expr(v)
                },
                None => Ok(()),
            } {
                Ok(()) => {},
                Err(e) => {
                    proof {
                        lemma_gen_fields_err(st0, st0.worker, es@, i + 1, es.len() as int);
                        assert(es@.take(es.len() as int) =~= es@);
                    }
                    return Err(e);
                },
            }
            i = i + 1;
        }
        proof {
            assert(es@.take(es.len() as int) =~= es@);
        }
        Ok(())
    }

    /// Generates the parts of a template literal.
    fn generate_parts(&mut self, es: &Vec<StringPart>) -> (r: Result<(), CompileError>)
        ensures
            gen_done(
                gen_parts(old(self).state(), old(self).state().worker, es@),
                r,
                final(self).state(),
            ),
            final(self).current_worker == old(self).current_worker,
        decreases es, 0nat,
    {
        let ghost st0 = self.state();
        let mut i: usize = 0;
        while i < es.len()
            invariant
                i <= es.len(),
                st0 == old(self).state(),
                self.current_worker == old(self).current_worker,
                gen_parts(st0, st0.worker, es@.take(i as int)) == Ok::<GenState, GenError>(
                    self.state(),
                ),
            decreases es.len() - i,
        {
            proof {
                assert(es@.take(i + 1).drop_last() =~= es@.take(i as int));
            }
            match match &es[i] {
                StringPart::Text(t) => {
                    let esc = escape_template_literal(t);
                    self.emit(esc.as_str());
                    Ok(())
                },
                StringPart::Interpolation(e) => {
                    self.emit("${");
                    match self.generate_expr(e) {
                        Ok(()) => {
                            self.emit("}");
                            Ok(())
                        },
                        Err(err) => Err(err),
                    }
                },
            } {
                Ok(()) => {},
                Err(e) => {
                    proof {
                        lemma_gen_parts_err(st0, st0.worker, es@, i + 1, es.len() as int);
                        assert(es@.take(es.len() as int) =~= es@);
                    }
                    return Err(e);
                },
            }
            i = i + 1;
        }
        proof {
            assert(es@.take(es.len() as int) =~= es@);
        }
        Ok(())
    }

    /// Generates the arguments of a shell command.
    fn generate_command_args(&mut self, es: &Vec<CommandArg>) -> (r: Result<(), CompileError>)
        ensures
            gen_done(
                gen_command_args(old(self).state(), old(self).state().worker, es@),
                r,
                final(self).state(),
            ),
            final(self).current_worker == old(self).current_worker,
        decreases es, 0nat,
    {
        let ghost st0 = self.state();
        let mut i: usize = 0;
        while i < es.len()
            invariant
                i <= es.len(),
                st0 == old(self).state(),
                self.current_worker == old(self).current_worker,
                gen_command_args(st0, st0.worker, es@.take(i as int)) == Ok::<GenState, GenError>(
                    self.state(),
                ),
            decreases es.len() - i,
        {
            proof {
                assert(es@.take(i + 1).drop_last() =~= es@.take(i as int));
            }
            match match &es[i] {
                CommandArg::Literal(l) => {
                    let t = concat(" ", l);
                    self.emit(t.as_str());
                    Ok(())
                },
                CommandArg::String(lit) => {
                    self.emit(" ");
                    self.generate_parts(&lit.parts)
                },
            } {
                Ok(()) => {},
                Err(e) => {
                    proof {
                        lemma_gen_command_args_err(st0, st0.worker, es@, i + 1, es.len() as int);
                        assert(es@.take(es.len() as int) =~= es@);
                    }
                    return Err(e);
                },
            }
            i = i + 1;
        }
        proof {
            assert(es@.take(es.len() as int) =~= es@);
        }
        Ok(())
    }

    /// Generates an operand of a shell pipe, `&&`, `||` or redirection.
    fn generate_pipe_operand(&mut self, e: &Expr) -> (r: Result<(), CompileError>)
        ensures
            gen_done(
                gen_pipe_operand(old(self).state(), old(self).state().worker, *e),
                r,
                final(self).state(),
            ),
            final(self).current_worker == old(self).current_worker,
        decreases e, 1nat,
    {
        match e {
            Expr::BareCommand { name, args } => {
                let head = concat("`", name);
                self.emit(head.as_str());
                match self.generate_command_args(args) {
                    Ok(()) => {},
                    Err(err) => {
                        return Err(err);
                    },
                }
                self.emit("`");
                Ok(())
            },
            _ => self.generate_expr(e),
        }
    }

    /// Generates a prompt block.
    fn generate_prompt_expr(&mut self, block: &PromptBlock, kind: PromptKind) -> (r: Result<
        (),
        CompileError,
    >)
        ensures
            gen_done(
                gen_prompt(old(self).state(), old(self).state().worker, *block, kind),
                r,
                final(self).state(),
            ),
            final(self).current_worker == old(self).current_worker,
            r is Err ==> final(self).state().prompts == old(self).state().prompts,
    {
        let worker_name = match &self.current_worker {
            Some(w) => w.clone(),
            None => {
                return Err(
                    CompileError::Unsupported(
                        "Prompt blocks (think/ask) must be used inside a worker".to_owned(),
                    ),
                );
            },
        };
        let mut id = concat(kind.as_str(), "_");
        let n = decimal_string(self.prompts.len());
        id.append(n.as_str());
        let template = match extract_prompt_template(block, kind, id, worker_name) {
            Ok(t) => t,
            Err(e) => {
                return Err(e);
            },
        };
        self.emit("await executePrompt(session, '");
        self.emit(template.id.as_str());
        self.emit("', { ");
        let bindings = join_names(template.required_bindings.names());
        self.emit(bindings.as_str());
        self.emit(" })");
        let ghost before = self.prompts@;
        let ghost tv = template_view(template);
        self.prompts.push(template);
        proof {
            assert(templates_view(self.prompts@) =~= templates_view(before).push(tv));
        }
        Ok(())
    }

    /// Generates an expression.
    fn generate_expr(&mut self, expr: &Expr) -> (r: Result<(), CompileError>)
        ensures
            gen_done(
                gen_expr(old(self).state(), old(self).state().worker, *expr),
                r,
                final(self).state(),
            ),
            final(self).current_worker == old(self).current_worker,
        decreases expr, 0nat,
    {
        match expr {
            Expr::Identifier(name) => {
                if str_eq(name, "self") {
                    return Err(
                        CompileError::Codegen(
                            "Bare 'self' is not supported. Use self.session to access the session context".to_owned(),
                        ),
                    );
                }
                self.emit(name);
                Ok(())
            },
            Expr::Number(n) => {
                self.emit(n);
                Ok(())
            },
            Expr::String(lit) => {
                if lit.parts.len() == 1 {
                    if let StringPart::Text(text) = &lit.parts[0] {
                        let mut t = "\"".to_owned();
                        let esc = escape_string(text);
                        t.append(esc.as_str());
                        t.append("\"");
                        self.emit(t.as_str());
                        return Ok(());
                    }
                }
                self.emit("`");
                match self.generate_parts(&lit.parts) {
                    Ok(()) => {},
                    Err(e) => {
                        return Err(e);
                    },
                }
                self.emit("`");
                Ok(())
            },
            Expr::True => {
                self.emit("true");
                Ok(())
            },
            Expr::False => {
                self.emit("false");
                Ok(())
            },
            Expr::Array(items) => {
                self.emit("[");
                match self.generate_list(items) {
                    Ok(()) => {},
                    Err(e) => {
                        return Err(e);
                    },
                }
                self.emit("]");
                Ok(())
            },
            Expr::Object(fields) => {
                self.emit("{ ");
                match self.generate_fields(fields) {
                    Ok(()) => {},
                    Err(e) => {
                        return Err(e);
                    },
                }
                self.emit(" }");
                Ok(())
            },
            Expr::Binary { op, left, right } => {
                match self.generate_expr(left) {
                    Ok(()) => {},
                    Err(e) => {
                        return Err(e);
                    },
                }
                let op_str = match op {
                    BinOp::Add => " + ",
                    BinOp::Sub => " - ",
                    BinOp::Mul => " * ",
                    BinOp::Div => " / ",
                    BinOp::Eq => " === ",
                    BinOp::NotEq => " !== ",
                    BinOp::Lt => " < ",
                    BinOp::Gt => " > ",
                    BinOp::And => " && ",
                    BinOp::Or => " || ",
                    BinOp::Assign => " = ",
                    BinOp::Pipe => {
                        return Err(
                            CompileError::Unsupported(
                                "Use ShellPipe expression for shell pipes".to_owned(),
                            ),
                        );
                    },
                    BinOp::Range => {
                        return Err(
                            CompileError::Unsupported("Range operator not yet supported".to_owned()),
                        );
                    },
                };
                self.emit(op_str);
                self.generate_expr(right)
            },
            Expr::Unary { op, operand } => match op {
                UnOp::Not => {
                    self.emit("!");
                    self.generate_expr(operand)
                },
                UnOp::Neg => {
                    self.emit("-");
                    self.generate_expr(operand)
                },
                UnOp::Throw => {
                    self.emit("throw new Error(String(");
                    match self.generate_expr(operand) {
                        Ok(()) => {},
                        Err(e) => {
                            return Err(e);
                        },
                    }
                    self.emit("))");
                    Ok(())
                },
            },
            Expr::Call { callee, args } => {
                let mut delegate = false;
                if let Expr::Member { object, field } = &**callee {
                    if let Expr::Identifier(n) = &**object {
                        if str_eq(n, "self") && str_eq(field, "delegate") {
                            delegate = true;
                        }
                    }
                }
                if delegate {
                    self.emit("delegate(session, ");
                } else {
                    match self.generate_expr(callee) {
                        Ok(()) => {},
                        Err(e) => {
                            return Err(e);
                        },
                    }
                    self.emit("(");
                }
                match self.generate_list(args) {
                    Ok(()) => {},
                    Err(e) => {
                        return Err(e);
                    },
                }
                self.emit(")");
                Ok(())
            },
            Expr::Member { object, field } => {
                if let Expr::Identifier(n) = &**object {
                    if str_eq(n, "self") {
                        if str_eq(field, "session") {
                            self.emit("session");
                            return Ok(());
                        } else if str_eq(field, "delegate") {
                            self.emit("delegate");
                            return Ok(());
                        } else {
                            let mut m = concat("self.", field);
                            m.append(
                                " is not supported. Only self.session and self.delegate() are available",
                            );
                            return Err(CompileError::Codegen(m));
                        }
                    }
                }
                match self.generate_expr(object) {
                    Ok(()) => {},
                    Err(e) => {
                        return Err(e);
                    },
                }
                let t = concat(".", field);
                self.emit(t.as_str());
                Ok(())
            },
            Expr::Index { object, index } => {
                match self.generate_expr(object) {
                    Ok(()) => {},
                    Err(e) => {
                        return Err(e);
                    },
                }
                self.emit("[");
                match self.generate_expr(index) {
                    Ok(()) => {},
                    Err(e) => {
                        return Err(e);
                    },
                }
                self.emit("]");
                Ok(())
            },
            Expr::Paren(inner) => {
                self.emit("(");
                match self.generate_expr(inner) {
                    Ok(()) => {},
                    Err(e) => {
                        return Err(e);
                    },
                }
                self.emit(")");
                Ok(())
            },
            Expr::PostIncrement(inner) => {
                match self.generate_expr(inner) {
                    Ok(()) => {},
                    Err(e) => {
                        return Err(e);
                    },
                }
                self.emit("++");
                Ok(())
            },
            Expr::PostDecrement(inner) => {
                match self.generate_expr(inner) {
                    Ok(()) => {},
                    Err(e) => {
                        return Err(e);
                    },
                }
                self.emit("--");
                Ok(())
            },
            Expr::Await(inner) => {
                self.emit("await ");
                self.generate_expr(inner)
            },
            Expr::BareCommand { name, args } => {
                let head = concat("await $shell(`", name);
                self.emit(head.as_str());
                match self.generate_command_args(args) {
                    Ok(()) => {},
                    Err(e) => {
                        return Err(e);
                    },
                }
                self.emit("`)");
                Ok(())
            },
            Expr::CommandSubst(cmd) => {
                match &**cmd {
                    Expr::BareCommand { name, args } => {
                        let head = concat("await $shell(`", name);
                        self.emit(head.as_str());
                        match self.generate_command_args(args) {
                            Ok(()) => {},
                            Err(e) => {
                                return Err(e);
                            },
                        }
                        self.emit("`");
                    },
                    _ => {
                        self.emit("await $shell(");
                        match self.generate_expr(cmd) {
                            Ok(()) => {},
                            Err(e) => {
                                return Err(e);
                            },
                        }
                    },
                }
                self.emit(", {capture: true})");
                Ok(())
            },
            Expr::ShellPipe { left, right } => {
                self.emit("await $shellPipe([");
                match self.generate_pipe_operand(left) {
                    Ok(()) => {},
                    Err(e) => {
                        return Err(e);
                    },
                }
                self.emit(", ");
                match self.generate_pipe_operand(right) {
                    Ok(()) => {},
                    Err(e) => {
                        return Err(e);
                    },
                }
                self.emit("])");
                Ok(())
            },
            Expr::ShellAnd { left, right } => {
                self.emit("await $shellAnd([");
                match self.generate_pipe_operand(left) {
                    Ok(()) => {},
                    Err(e) => {
                        return Err(e);
                    },
                }
                self.emit(", ");
                match self.generate_pipe_operand(right) {
                    Ok(()) => {},
                    Err(e) => {
                        return Err(e);
                    },
                }
                self.emit("])");
                Ok(())
            },
            Expr::ShellOr { left, right } => {
                self.emit("await $shellOr([");
                match self.generate_pipe_operand(left) {
                    Ok(()) => {},
                    Err(e) => {
                        return Err(e);
                    },
                }
                self.emit(", ");
                match self.generate_pipe_operand(right) {
                    Ok(()) => {},
                    Err(e) => {
                        return Err(e);
                    },
                }
                self.emit("])");
                Ok(())
            },
            Expr::ShellRedirect { command, op, target } => {
                self.emit("await $shellRedirect(");
                match self.generate_pipe_operand(command) {
                    Ok(()) => {},
                    Err(e) => {
                        return Err(e);
                    },
                }
                let op_str = match op {
                    RedirectOp::Out => ">",
                    RedirectOp::Append => ">>",
                    RedirectOp::In => "<",
                    RedirectOp::ErrOut => "2>",
                    RedirectOp::ErrToOut => "2>&1",
                };
                let mut t = concat(", '", op_str);
                t.append("', ");
                self.emit(t.as_str());
                match self.generate_expr(target) {
                    Ok(()) => {},
                    Err(e) => {
                        return Err(e);
                    },
                }
                self.emit(")");
                Ok(())
            },
            Expr::Think(pb) => self.generate_prompt_expr(pb, PromptKind::Think),
            Expr::Ask(pb) => self.generate_prompt_expr(pb, PromptKind::Ask),
            Expr::Do(_) => Err(
                CompileError::Unsupported("Do expressions not yet supported".to_owned()),
            ),
            Expr::Task(_) => Err(
                CompileError::Unsupported("Task expressions not yet supported".to_owned()),
            ),
        }
    }
}

/// The text a double-quoted JavaScript string literal's body stands for:
/// `\n`, `\r`, `\t` are control characters and any other escaped
/// character stands for itself; none where the body holds a bare double
/// quote, a bare line break or a backslash at its end.
pub open spec fn js_string_text(s: Seq<char>) -> Option<Seq<char>>
    decreases s.len(),
{
    if s.len() == 0 {
        Some(Seq::empty())
    } else if s[0] == '\\' {
        if s.len() < 2 {
            None
        } else {
            let c = if s[1] == 'n' {
                '\n'
            } else if s[1] == 'r' {
                '\r'
            } else if s[1] == 't' {
                '\t'
            } else {
                s[1]
            };
            match js_string_text(s.skip(2)) {
                Some(rest) => Some(seq![c] + rest),
                None => None,
            }
        }
    } else if s[0] == '"' || s[0] == '\n' || s[0] == '\r' {
        None
    } else {
        match js_string_text(s.drop_first()) {
            Some(rest) => Some(seq![s[0]] + rest),
            None => None,
        }
    }
}

/// The text a JavaScript template literal's body stands for, where it has
/// no interpolation: an escaped character stands for itself; none where the
/// body holds a bare backquote, a bare `${` or a backslash at its end.
pub open spec fn template_text(s: Seq<char>) -> Option<Seq<char>>
    decreases s.len(),
{
    if s.len() == 0 {
        Some(Seq::empty())
    } else if s[0] == '\\' {
        if s.len() < 2 {
            None
        } else {
            match template_text(s.skip(2)) {
                Some(rest) => Some(seq![s[1]] + rest),
                None => None,
            }
        }
    } else if s[0] == '`' || (s[0] == '$' && s.len() > 1 && s[1] == '{') {
        None
    } else {
        match template_text(s.drop_first()) {
            Some(rest) => Some(seq![s[0]] + rest),
            None => None,
        }
    }
}

/// Escaping distributes over concatenation.
pub proof fn lemma_escaped_append(a: Seq<char>, b: Seq<char>)
    ensures
        escaped(a + b) == escaped(a) + escaped(b),
    decreases b.len(),
{
    if b.len() == 0 {
        assert(a + b =~= a);
        assert(escaped(a) + escaped(b) =~= escaped(a));
    } else {
        lemma_escaped_append(a, b.drop_last());
        assert((a + b).drop_last() =~= a + b.drop_last());
        assert((a + b).last() == b.last());
        vstd::seq_lib::lemma_concat_associative(escaped(a), escaped(b.drop_last()), esc_char(b.last()));
    }
}

/// A string escaped by `escape_string` and read back as the body of a
/// double-quoted JavaScript string is the string itself.
pub proof fn law_escape_string_round_trip(s: Seq<char>)
    ensures
        js_string_text(escaped(s)) == Some(s),
    decreases s.len(),
{
    if s.len() > 0 {
        let c = s[0];
        let rest = s.drop_first();
        assert(s =~= seq![c] + rest);
        lemma_escaped_append(seq![c], rest);
        assert(seq![c].drop_last() =~= Seq::<char>::empty());
        assert(escaped(Seq::<char>::empty()) == Seq::<char>::empty());
        assert(seq![c].last() == c);
        assert(escaped(seq![c]) == escaped(seq![c].drop_last()) + esc_char(c));
        assert(escaped(seq![c]) =~= esc_char(c));
        law_escape_string_round_trip(rest);
        let e = esc_char(c) + escaped(rest);
        if c == '\\' || c == '"' || c == '\n' || c == '\r' || c == '\t' {
            assert(e.skip(2) =~= escaped(rest));
        } else {
            assert(e.drop_first() =~= escaped(rest));
        }
        assert(seq![c] + rest =~= s);
    }
}

/// A string escaped by `escape_template_literal` and read back as the
/// body of a JavaScript template literal is the string itself: nothing in
/// it opens an interpolation or ends the literal.
pub proof fn law_escape_template_round_trip(s: Seq<char>)
    ensures
        template_text(template_escaped(s)) == Some(s),
    decreases s.len(),
{
    if s.len() > 0 {
        let c = s[0];
        let rest = s.drop_first();
        law_escape_template_round_trip(rest);
        let e = template_escaped(s);
        if c == '\\' || c == '`' || (c == '$' && s.len() > 1 && s[1] == '{') {
            assert(e.skip(2) =~= template_escaped(rest));
        } else {
            assert(e.drop_first() =~= template_escaped(rest));
            // a `$` left bare is not followed by `{` in the escaped text
            if c == '$' && e.len() > 1 {
                if rest.len() > 0 {
                    let r0 = rest[0];
                    assert(r0 != '{');
                }
            }
        }
        assert(seq![c] + rest =~= s);
    }
}


/// The id of the template at position `k`, of kind `kind`: `think_<k>` or
/// `ask_<k>`.
pub open spec fn template_id(kind: PromptKind, k: nat) -> Seq<char> {
    kind_name(kind) + "_"@ + decimal(k)
}

/// Whether each template's id is made of its kind and its position.
pub open spec fn ids_numbered(ps: Seq<TemplateView>) -> bool {
    forall|i: int| 0 <= i < ps.len() ==> #[trigger] ps[i].id == template_id(ps[i].kind, i as nat)
}

/// A prompt block adds a template numbered after those before it.
proof fn lemma_prompt_ids(st: GenState, w: Option<Seq<char>>, pb: PromptBlock, kind: PromptKind)
    requires
        ids_numbered(st.prompts),
    ensures
        gen_prompt(st, w, pb, kind) matches Ok(s) ==> ids_numbered(s.prompts),
{
    match gen_prompt(st, w, pb, kind) {
        Ok(s) => {
            let n = st.prompts.len();
            assert(s.prompts == st.prompts.push(s.prompts[n as int]));
            assert forall|i: int| 0 <= i < s.prompts.len() implies #[trigger] s.prompts[i].id
                == template_id(s.prompts[i].kind, i as nat) by {
                if i < n {
                    assert(s.prompts[i] == st.prompts[i]);
                }
            }
        },
        Err(_) => {},
    }
}

/// Generating an expression keeps the templates numbered.
proof fn lemma_expr_ids(st: GenState, w: Option<Seq<char>>, e: Expr)
    requires
        ids_numbered(st.prompts),
    ensures
        gen_expr(st, w, e) matches Ok(s) ==> ids_numbered(s.prompts),
    decreases e, 0nat,
{
    match e {
        Expr::String(lit) => {
            if !(lit.parts.len() == 1 && lit.parts[0] is Text) {
                lemma_parts_ids(emit(st, "`"@), w, lit.parts@);
            }
        },
        Expr::Array(items) => lemma_list_ids(emit(st, "["@), w, items@),
        Expr::Object(fields) => lemma_fields_ids(emit(st, "{ "@), w, fields@),
        Expr::Binary { op, left, right } => {
            lemma_expr_ids(st, w, *left);
            match gen_expr(st, w, *left) {
                Ok(s1) => match binop_js(op) {
                    Some(o) => lemma_expr_ids(emit(s1, o), w, *right),
                    None => {},
                },
                Err(_) => {},
            }
        },
        Expr::Unary { op, operand } => match op {
            UnOp::Not => lemma_expr_ids(emit(st, "!"@), w, *operand),
            UnOp::Neg => lemma_expr_ids(emit(st, "-"@), w, *operand),
            UnOp::Throw => lemma_expr_ids(emit(st, "throw new Error(String("@), w, *operand),
        },
        Expr::Call { callee, args } => {
            if is_self_delegate(*callee) {
                lemma_list_ids(emit(st, "delegate(session, "@), w, args@);
            } else {
                lemma_expr_ids(st, w, *callee);
                match gen_expr(st, w, *callee) {
                    Ok(s1) => lemma_list_ids(emit(s1, "("@), w, args@),
                    Err(_) => {},
                }
            }
        },
        Expr::Member { object, field } => {
            if !is_self(*object) {
                lemma_expr_ids(st, w, *object);
            }
        },
        Expr::Index { object, index } => {
            lemma_expr_ids(st, w, *object);
            match gen_expr(st, w, *object) {
                Ok(s1) => lemma_expr_ids(emit(s1, "["@), w, *index),
                Err(_) => {},
            }
        },
        Expr::Paren(inner) => lemma_expr_ids(emit(st, "("@), w, *inner),
        Expr::PostIncrement(inner) => lemma_expr_ids(st, w, *inner),
        Expr::PostDecrement(inner) => lemma_expr_ids(st, w, *inner),
        Expr::Await(inner) => lemma_expr_ids(emit(st, "await "@), w, *inner),
        Expr::BareCommand { name, args } => lemma_command_args_ids(
            emit(st, "await $shell(`"@ + name@),
            w,
            args@,
        ),
        Expr::CommandSubst(cmd) => match *cmd {
            Expr::BareCommand { name, args } => lemma_command_args_ids(
                emit(st, "await $shell(`"@ + name@),
                w,
                args@,
            ),
            _ => lemma_expr_ids(emit(st, "await $shell("@), w, *cmd),
        },
        Expr::ShellPipe { left, right } => {
            let s0 = emit(st, "await $shellPipe(["@);
            lemma_pipe_operand_ids(s0, w, *left);
            match gen_pipe_operand(s0, w, *left) {
                Ok(s1) => lemma_pipe_operand_ids(emit(s1, ", "@), w, *right),
                Err(_) => {},
            }
        },
        Expr::ShellAnd { left, right } => {
            let s0 = emit(st, "await $shellAnd(["@);
            lemma_pipe_operand_ids(s0, w, *left);
            match gen_pipe_operand(s0, w, *left) {
                Ok(s1) => lemma_pipe_operand_ids(emit(s1, ", "@), w, *right),
                Err(_) => {},
            }
        },
        Expr::ShellOr { left, right } => {
            let s0 = emit(st, "await $shellOr(["@);
            lemma_pipe_operand_ids(s0, w, *left);
            match gen_pipe_operand(s0, w, *left) {
                Ok(s1) => lemma_pipe_operand_ids(emit(s1, ", "@), w, *right),
                Err(_) => {},
            }
        },
        Expr::ShellRedirect { command, op, target } => {
            let s0 = emit(st, "await $shellRedirect("@);
            lemma_pipe_operand_ids(s0, w, *command);
            match gen_pipe_operand(s0, w, *command) {
                Ok(s1) => lemma_expr_ids(emit(s1, ", '"@ + redirect_js(op) + "', "@), w, *target),
                Err(_) => {},
            }
        },
        Expr::Think(pb) => lemma_prompt_ids(st, w, pb, PromptKind::Think),
        Expr::Ask(pb) => lemma_prompt_ids(st, w, pb, PromptKind::Ask),
        _ => {},
    }
}

/// Generating an operand of a shell operator keeps the templates numbered.
proof fn lemma_pipe_operand_ids(st: GenState, w: Option<Seq<char>>, e: Expr)
    requires
        ids_numbered(st.prompts),
    ensures
        gen_pipe_operand(st, w, e) matches Ok(s) ==> ids_numbered(s.prompts),
    decreases e, 1nat,
{
    match e {
        Expr::BareCommand { name, args } => lemma_command_args_ids(emit(st, "`"@ + name@), w, args@),
        _ => lemma_expr_ids(st, w, e),
    }
}

/// Generating a list of expressions keeps the templates numbered.
proof fn lemma_list_ids(st: GenState, w: Option<Seq<char>>, es: Seq<Expr>)
    requires
        ids_numbered(st.prompts),
    ensures
        gen_list(st, w, es) matches Ok(s) ==> ids_numbered(s.prompts),
    decreases es, 1nat,
{
    if es.len() > 0 {
        lemma_list_ids(st, w, es.drop_last());
        match gen_list(st, w, es.drop_last()) {
            Ok(s1) => lemma_expr_ids(
                if es.len() > 1 {
                    emit(s1, ", "@)
                } else {
                    s1
                },
                w,
                es.last(),
            ),
            Err(_) => {},
        }
    }
}

/// Generating the fields of an object keeps the templates numbered.
proof fn lemma_fields_ids(st: GenState, w: Option<Seq<char>>, fs: Seq<ObjectField>)
    requires
        ids_numbered(st.prompts),
    ensures
        gen_fields(st, w, fs) matches Ok(s) ==> ids_numbered(s.prompts),
    decreases fs, 1nat,
{
    if fs.len() > 0 {
        lemma_fields_ids(st, w, fs.drop_last());
        match gen_fields(st, w, fs.drop_last()) {
            Ok(s1) => {
                let s2 = emit(
                    if fs.len() > 1 {
                        emit(s1, ", "@)
                    } else {
                        s1
                    },
                    fs.last().key@,
                );
                match fs.last().value {
                    Some(v) => lemma_expr_ids(emit(s2, ": "@), w, v),
                    None => {},
                }
            },
            Err(_) => {},
        }
    }
}

/// Generating the parts of a template literal keeps the templates numbered.
proof fn lemma_parts_ids(st: GenState, w: Option<Seq<char>>, ps: Seq<StringPart>)
    requires
        ids_numbered(st.prompts),
    ensures
        gen_parts(st, w, ps) matches Ok(s) ==> ids_numbered(s.prompts),
    decreases ps, 1nat,
{
    if ps.len() > 0 {
        lemma_parts_ids(st, w, ps.drop_last());
        match gen_parts(st, w, ps.drop_last()) {
            Ok(s1) => match ps.last() {
                StringPart::Interpolation(e) => lemma_expr_ids(emit(s1, "${"@), w, *e),
                _ => {},
            },
            Err(_) => {},
        }
    }
}

/// Generating the arguments of a shell command keeps the templates
/// numbered.
proof fn lemma_command_args_ids(st: GenState, w: Option<Seq<char>>, args: Seq<CommandArg>)
    requires
        ids_numbered(st.prompts),
    ensures
        gen_command_args(st, w, args) matches Ok(s) ==> ids_numbered(s.prompts),
    decreases args, 1nat,
{
    if args.len() > 0 {
        lemma_command_args_ids(st, w, args.drop_last());
        match gen_command_args(st, w, args.drop_last()) {
            Ok(s1) => match args.last() {
                CommandArg::String(lit) => lemma_parts_ids(emit(s1, " "@), w, lit.parts@),
                _ => {},
            },
            Err(_) => {},
        }
    }
}

/// Generating an object pattern leaves the templates as they are.
proof fn lemma_pattern_fields_ids(st: GenState, fs: Seq<crate::ast::ObjectPatternField>)
    ensures
        gen_pattern_fields(st, fs) matches Ok(s) ==> s.prompts == st.prompts,
    decreases fs.len(),
{
    if fs.len() > 0 {
        lemma_pattern_fields_ids(st, fs.drop_last());
    }
}

/// Generating a block keeps the templates numbered.
proof fn lemma_block_ids(st: GenState, w: Option<Seq<char>>, ind: Seq<char>, b: Block)
    requires
        ids_numbered(st.prompts),
    ensures
        gen_block(st, w, ind, b) matches Ok(s) ==> ids_numbered(s.prompts),
    decreases b, 0nat,
{
    lemma_stmts_ids(st, w, ind, b.statements@);
}

/// Generating statements keeps the templates numbered.
proof fn lemma_stmts_ids(st: GenState, w: Option<Seq<char>>, ind: Seq<char>, ss: Seq<Statement>)
    requires
        ids_numbered(st.prompts),
    ensures
        gen_stmts(st, w, ind, ss) matches Ok(s) ==> ids_numbered(s.prompts),
    decreases ss, 1nat,
{
    if ss.len() > 0 {
        lemma_stmts_ids(st, w, ind, ss.drop_last());
        match gen_stmts(st, w, ind, ss.drop_last()) {
            Ok(s1) => lemma_stmt_ids(emit(s1, ind), w, ind, ss.last()),
            Err(_) => {},
        }
    }
}

/// Generating a nested block keeps the templates numbered.
proof fn lemma_body_ids(st: GenState, w: Option<Seq<char>>, ind: Seq<char>, b: Block)
    requires
        ids_numbered(st.prompts),
    ensures
        gen_body(st, w, ind, b) matches Ok(s) ==> ids_numbered(s.prompts),
    decreases b, 1nat,
{
    lemma_block_ids(st, w, ind + "  "@, b);
}

/// Generating an initial value keeps the templates numbered.
proof fn lemma_init_ids(st: GenState, w: Option<Seq<char>>, init: Option<Expr>)
    requires
        ids_numbered(st.prompts),
    ensures
        gen_init(st, w, init) matches Ok(s) ==> ids_numbered(s.prompts),
{
    match init {
        Some(e) => lemma_expr_ids(emit(st, " = "@), w, e),
        None => {},
    }
}

/// Generating a statement keeps the templates numbered.
proof fn lemma_stmt_ids(st: GenState, w: Option<Seq<char>>, ind: Seq<char>, s: Statement)
    requires
        ids_numbered(st.prompts),
    ensures
        gen_stmt(st, w, ind, s) matches Ok(r) ==> ids_numbered(r.prompts),
    decreases s, 0nat,
{
    match s {
        Statement::VarDecl { pattern, init } => match pattern {
            Pattern::Identifier { name, type_ann: _ } => lemma_init_ids(
                emit(st, "let "@ + name@),
                w,
                init,
            ),
            Pattern::Object(fields) => {
                let s0 = emit(st, "let {"@);
                lemma_pattern_fields_ids(s0, fields@);
                match gen_pattern_fields(s0, fields@) {
                    Ok(s1) => lemma_init_ids(emit(s1, "}"@), w, init),
                    Err(_) => {},
                }
            },
        },
        Statement::Expr(e) => lemma_expr_ids(st, w, e),
        Statement::If { condition, then_block, else_block } => {
            let s0 = emit(st, "if ("@);
            lemma_expr_ids(s0, w, condition);
            match gen_expr(s0, w, condition) {
                Ok(s1) => {
                    lemma_body_ids(emit(s1, ") {\n"@), w, ind, then_block);
                    match gen_body(emit(s1, ") {\n"@), w, ind, then_block) {
                        Ok(s2) => match else_block {
                            Some(b) => lemma_body_ids(emit(s2, " else {\n"@), w, ind, b),
                            None => {},
                        },
                        Err(_) => {},
                    }
                },
                Err(_) => {},
            }
        },
        Statement::While { condition, body } => {
            let s0 = emit(st, "while ("@);
            lemma_expr_ids(s0, w, condition);
            match gen_expr(s0, w, condition) {
                Ok(s1) => lemma_body_ids(emit(s1, ") {\n"@), w, ind, body),
                Err(_) => {},
            }
        },
        Statement::For { var, iter, body } => {
            let s0 = emit(st, "for (let "@ + var@ + " of "@);
            lemma_expr_ids(s0, w, iter);
            match gen_expr(s0, w, iter) {
                Ok(s1) => lemma_body_ids(emit(s1, ") {\n"@), w, ind, body),
                Err(_) => {},
            }
        },
        Statement::Return(r) => match r {
            Some(e) => lemma_expr_ids(emit(st, "return "@), w, e),
            None => {},
        },
        _ => {},
    }
}

/// Generating the workers and functions of a program keeps the templates
/// numbered.
proof fn lemma_items_ids(st: GenState, items: Seq<Item>)
    requires
        ids_numbered(st.prompts),
    ensures
        gen_items(st, items) matches Ok(s) ==> ids_numbered(s.prompts),
    decreases items.len(),
{
    if items.len() > 0 {
        lemma_items_ids(st, items.drop_last());
        match gen_items(st, items.drop_last()) {
            Ok(s1) => match items.last() {
                Item::Worker(d) => {
                    let head = if d.is_default {
                        "export default function "@
                    } else {
                        "export function "@
                    };
                    let st1 = GenState {
                        out: s1.out + head + d.name@ + "(session"@ + params_after_session(
                            d.params@,
                        ) + ") {\n"@,
                        prompts: s1.prompts,
                        worker: Some(d.name@),
                    };
                    lemma_block_ids(st1, Some(d.name@), "  "@, d.body);
                },
                Item::Function(f) => {
                    let head = if f.is_default {
                        "export default function "@
                    } else if f.is_exported {
                        "export function "@
                    } else {
                        "function "@
                    };
                    lemma_block_ids(
                        emit(s1, head + f.name@ + "("@ + params_joined(f.params@) + ") {\n"@),
                        s1.worker,
                        "  "@,
                        f.body,
                    );
                },
                _ => {},
            },
            Err(_) => {},
        }
    }
}

/// A prompt block keeps the worker being generated.
proof fn lemma_prompt_worker(st: GenState, w: Option<Seq<char>>, pb: PromptBlock, kind: PromptKind)
    ensures
        gen_prompt(st, w, pb, kind) matches Ok(s) ==> s.worker == st.worker,
{
}

/// Generating an expression keeps the worker being generated.
proof fn lemma_expr_worker(st: GenState, w: Option<Seq<char>>, e: Expr)
    ensures
        gen_expr(st, w, e) matches Ok(s) ==> s.worker == st.worker,
    decreases e, 0nat,
{
    match e {
        Expr::String(lit) => {
            if !(lit.parts.len() == 1 && lit.parts[0] is Text) {
                lemma_parts_worker(emit(st, "`"@), w, lit.parts@);
            }
        },
        Expr::Array(items) => lemma_list_worker(emit(st, "["@), w, items@),
        Expr::Object(fields) => lemma_fields_worker(emit(st, "{ "@), w, fields@),
        Expr::Binary { op, left, right } => {
            lemma_expr_worker(st, w, *left);
            match gen_expr(st, w, *left) {
                Ok(s1) => match binop_js(op) {
                    Some(o) => lemma_expr_worker(emit(s1, o), w, *right),
                    None => {},
                },
                Err(_) => {},
            }
        },
        Expr::Unary { op, operand } => match op {
            UnOp::Not => lemma_expr_worker(emit(st, "!"@), w, *operand),
            UnOp::Neg => lemma_expr_worker(emit(st, "-"@), w, *operand),
            UnOp::Throw => lemma_expr_worker(emit(st, "throw new Error(String("@), w, *operand),
        },
        Expr::Call { callee, args } => {
            if is_self_delegate(*callee) {
                lemma_list_worker(emit(st, "delegate(session, "@), w, args@);
            } else {
                lemma_expr_worker(st, w, *callee);
                match gen_expr(st, w, *callee) {
                    Ok(s1) => lemma_list_worker(emit(s1, "("@), w, args@),
                    Err(_) => {},
                }
            }
        },
        Expr::Member { object, field } => {
            if !is_self(*object) {
                lemma_expr_worker(st, w, *object);
            }
        },
        Expr::Index { object, index } => {
            lemma_expr_worker(st, w, *object);
            match gen_expr(st, w, *object) {
                Ok(s1) => lemma_expr_worker(emit(s1, "["@), w, *index),
                Err(_) => {},
            }
        },
        Expr::Paren(inner) => lemma_expr_worker(emit(st, "("@), w, *inner),
        Expr::PostIncrement(inner) => lemma_expr_worker(st, w, *inner),
        Expr::PostDecrement(inner) => lemma_expr_worker(st, w, *inner),
        Expr::Await(inner) => lemma_expr_worker(emit(st, "await "@), w, *inner),
        Expr::BareCommand { name, args } => lemma_command_args_worker(
            emit(st, "await $shell(`"@ + name@),
            w,
            args@,
        ),
        Expr::CommandSubst(cmd) => match *cmd {
            Expr::BareCommand { name, args } => lemma_command_args_worker(
                emit(st, "await $shell(`"@ + name@),
                w,
                args@,
            ),
            _ => lemma_expr_worker(emit(st, "await $shell("@), w, *cmd),
        },
        Expr::ShellPipe { left, right } => {
            let s0 = emit(st, "await $shellPipe(["@);
            lemma_pipe_operand_worker(s0, w, *left);
            match gen_pipe_operand(s0, w, *left) {
                Ok(s1) => lemma_pipe_operand_worker(emit(s1, ", "@), w, *right),
                Err(_) => {},
            }
        },
        Expr::ShellAnd { left, right } => {
            let s0 = emit(st, "await $shellAnd(["@);
            lemma_pipe_operand_worker(s0, w, *left);
            match gen_pipe_operand(s0, w, *left) {
                Ok(s1) => lemma_pipe_operand_worker(emit(s1, ", "@), w, *right),
                Err(_) => {},
            }
        },
        Expr::ShellOr { left, right } => {
            let s0 = emit(st, "await $shellOr(["@);
            lemma_pipe_operand_worker(s0, w, *left);
            match gen_pipe_operand(s0, w, *left) {
                Ok(s1) => lemma_pipe_operand_worker(emit(s1, ", "@), w, *right),
                Err(_) => {},
            }
        },
        Expr::ShellRedirect { command, op, target } => {
            let s0 = emit(st, "await $shellRedirect("@);
            lemma_pipe_operand_worker(s0, w, *command);
            match gen_pipe_operand(s0, w, *command) {
                Ok(s1) => lemma_expr_worker(emit(s1, ", '"@ + redirect_js(op) + "', "@), w, *target),
                Err(_) => {},
            }
        },
        Expr::Think(pb) => lemma_prompt_worker(st, w, pb, PromptKind::Think),
        Expr::Ask(pb) => lemma_prompt_worker(st, w, pb, PromptKind::Ask),
        _ => {},
    }
}

/// Generating an operand of a shell operator keeps the worker being generated.
proof fn lemma_pipe_operand_worker(st: GenState, w: Option<Seq<char>>, e: Expr)
    ensures
        gen_pipe_operand(st, w, e) matches Ok(s) ==> s.worker == st.worker,
    decreases e, 1nat,
{
    match e {
        Expr::BareCommand { name, args } => lemma_command_args_worker(emit(st, "`"@ + name@), w, args@),
        _ => lemma_expr_worker(st, w, e),
    }
}

/// Generating a list of expressions keeps the worker being generated.
proof fn lemma_list_worker(st: GenState, w: Option<Seq<char>>, es: Seq<Expr>)
    ensures
        gen_list(st, w, es) matches Ok(s) ==> s.worker == st.worker,
    decreases es, 1nat,
{
    if es.len() > 0 {
        lemma_list_worker(st, w, es.drop_last());
        match gen_list(st, w, es.drop_last()) {
            Ok(s1) => lemma_expr_worker(
                if es.len() > 1 {
                    emit(s1, ", "@)
                } else {
                    s1
                },
                w,
                es.last(),
            ),
            Err(_) => {},
        }
    }
}

/// Generating the fields of an object keeps the worker being generated.
proof fn lemma_fields_worker(st: GenState, w: Option<Seq<char>>, fs: Seq<ObjectField>)
    ensures
        gen_fields(st, w, fs) matches Ok(s) ==> s.worker == st.worker,
    decreases fs, 1nat,
{
    if fs.len() > 0 {
        lemma_fields_worker(st, w, fs.drop_last());
        match gen_fields(st, w, fs.drop_last()) {
            Ok(s1) => {
                let s2 = emit(
                    if fs.len() > 1 {
                        emit(s1, ", "@)
                    } else {
                        s1
                    },
                    fs.last().key@,
                );
                match fs.last().value {
                    Some(v) => lemma_expr_worker(emit(s2, ": "@), w, v),
                    None => {},
                }
            },
            Err(_) => {},
        }
    }
}

/// Generating the parts of a template literal keeps the worker being generated.
proof fn lemma_parts_worker(st: GenState, w: Option<Seq<char>>, ps: Seq<StringPart>)
    ensures
        gen_parts(st, w, ps) matches Ok(s) ==> s.worker == st.worker,
    decreases ps, 1nat,
{
    if ps.len() > 0 {
        lemma_parts_worker(st, w, ps.drop_last());
        match gen_parts(st, w, ps.drop_last()) {
            Ok(s1) => match ps.last() {
                StringPart::Interpolation(e) => lemma_expr_worker(emit(s1, "${"@), w, *e),
                _ => {},
            },
            Err(_) => {},
        }
    }
}

/// Generating the arguments of a shell command keeps the worker
/// being generated.
proof fn lemma_command_args_worker(st: GenState, w: Option<Seq<char>>, args: Seq<CommandArg>)
    ensures
        gen_command_args(st, w, args) matches Ok(s) ==> s.worker == st.worker,
    decreases args, 1nat,
{
    if args.len() > 0 {
        lemma_command_args_worker(st, w, args.drop_last());
        match gen_command_args(st, w, args.drop_last()) {
            Ok(s1) => match args.last() {
                CommandArg::String(lit) => lemma_parts_worker(emit(s1, " "@), w, lit.parts@),
                _ => {},
            },
            Err(_) => {},
        }
    }
}

/// Generating an object pattern keeps the worker being generated.
proof fn lemma_pattern_fields_worker(st: GenState, fs: Seq<crate::ast::ObjectPatternField>)
    ensures
        gen_pattern_fields(st, fs) matches Ok(s) ==> s.worker == st.worker,
    decreases fs.len(),
{
    if fs.len() > 0 {
        lemma_pattern_fields_worker(st, fs.drop_last());
    }
}

/// Generating a block keeps the worker being generated.
proof fn lemma_block_worker(st: GenState, w: Option<Seq<char>>, ind: Seq<char>, b: Block)
    ensures
        gen_block(st, w, ind, b) matches Ok(s) ==> s.worker == st.worker,
    decreases b, 0nat,
{
    lemma_stmts_worker(st, w, ind, b.statements@);
}

/// Generating statements keeps the worker being generated.
proof fn lemma_stmts_worker(st: GenState, w: Option<Seq<char>>, ind: Seq<char>, ss: Seq<Statement>)
    ensures
        gen_stmts(st, w, ind, ss) matches Ok(s) ==> s.worker == st.worker,
    decreases ss, 1nat,
{
    if ss.len() > 0 {
        lemma_stmts_worker(st, w, ind, ss.drop_last());
        match gen_stmts(st, w, ind, ss.drop_last()) {
            Ok(s1) => lemma_stmt_worker(emit(s1, ind), w, ind, ss.last()),
            Err(_) => {},
        }
    }
}

/// Generating a nested block keeps the worker being generated.
proof fn lemma_body_worker(st: GenState, w: Option<Seq<char>>, ind: Seq<char>, b: Block)
    ensures
        gen_body(st, w, ind, b) matches Ok(s) ==> s.worker == st.worker,
    decreases b, 1nat,
{
    lemma_block_worker(st, w, ind + "  "@, b);
}

/// Generating an initial value keeps the worker being generated.
proof fn lemma_init_worker(st: GenState, w: Option<Seq<char>>, init: Option<Expr>)
    ensures
        gen_init(st, w, init) matches Ok(s) ==> s.worker == st.worker,
{
    match init {
        Some(e) => lemma_expr_worker(emit(st, " = "@), w, e),
        None => {},
    }
}

/// Generating a statement keeps the worker being generated.
proof fn lemma_stmt_worker(st: GenState, w: Option<Seq<char>>, ind: Seq<char>, s: Statement)
    ensures
        gen_stmt(st, w, ind, s) matches Ok(r) ==> r.worker == st.worker,
    decreases s, 0nat,
{
    match s {
        Statement::VarDecl { pattern, init } => match pattern {
            Pattern::Identifier { name, type_ann: _ } => lemma_init_worker(
                emit(st, "let "@ + name@),
                w,
                init,
            ),
            Pattern::Object(fields) => {
                let s0 = emit(st, "let {"@);
                lemma_pattern_fields_worker(s0, fields@);
                match gen_pattern_fields(s0, fields@) {
                    Ok(s1) => lemma_init_worker(emit(s1, "}"@), w, init),
                    Err(_) => {},
                }
            },
        },
        Statement::Expr(e) => lemma_expr_worker(st, w, e),
        Statement::If { condition, then_block, else_block } => {
            let s0 = emit(st, "if ("@);
            lemma_expr_worker(s0, w, condition);
            match gen_expr(s0, w, condition) {
                Ok(s1) => {
                    lemma_body_worker(emit(s1, ") {\n"@), w, ind, then_block);
                    match gen_body(emit(s1, ") {\n"@), w, ind, then_block) {
                        Ok(s2) => match else_block {
                            Some(b) => lemma_body_worker(emit(s2, " else {\n"@), w, ind, b),
                            None => {},
                        },
                        Err(_) => {},
                    }
                },
                Err(_) => {},
            }
        },
        Statement::While { condition, body } => {
            let s0 = emit(st, "while ("@);
            lemma_expr_worker(s0, w, condition);
            match gen_expr(s0, w, condition) {
                Ok(s1) => lemma_body_worker(emit(s1, ") {\n"@), w, ind, body),
                Err(_) => {},
            }
        },
        Statement::For { var, iter, body } => {
            let s0 = emit(st, "for (let "@ + var@ + " of "@);
            lemma_expr_worker(s0, w, iter);
            match gen_expr(s0, w, iter) {
                Ok(s1) => lemma_body_worker(emit(s1, ") {\n"@), w, ind, body),
                Err(_) => {},
            }
        },
        Statement::Return(r) => match r {
            Some(e) => lemma_expr_worker(emit(st, "return "@), w, e),
            None => {},
        },
        _ => {},
    }
}

/// The code of `b` starts with the code of `a`.
pub open spec fn out_extends(a: GenState, b: GenState) -> bool {
    a.out.len() <= b.out.len() && forall|i: int| 0 <= i < a.out.len() ==> #[trigger] b.out[i] == a.out[i]
}

/// A prompt block only appends to the code.
proof fn lemma_prompt_extends(st: GenState, w: Option<Seq<char>>, pb: PromptBlock, kind: PromptKind)
    ensures
        gen_prompt(st, w, pb, kind) matches Ok(s) ==> out_extends(st, s),
{
}

/// Generating an expression only appends to the code.
proof fn lemma_expr_extends(st: GenState, w: Option<Seq<char>>, e: Expr)
    ensures
        gen_expr(st, w, e) matches Ok(s) ==> out_extends(st, s),
    decreases e, 0nat,
{
    match e {
        Expr::String(lit) => {
            if !(lit.parts.len() == 1 && lit.parts[0] is Text) {
                lemma_parts_extends(emit(st, "`"@), w, lit.parts@);
            }
        },
        Expr::Array(items) => lemma_list_extends(emit(st, "["@), w, items@),
        Expr::Object(fields) => lemma_fields_extends(emit(st, "{ "@), w, fields@),
        Expr::Binary { op, left, right } => {
            lemma_expr_extends(st, w, *left);
            match gen_expr(st, w, *left) {
                Ok(s1) => match binop_js(op) {
                    Some(o) => lemma_expr_extends(emit(s1, o), w, *right),
                    None => {},
                },
                Err(_) => {},
            }
        },
        Expr::Unary { op, operand } => match op {
            UnOp::Not => lemma_expr_extends(emit(st, "!"@), w, *operand),
            UnOp::Neg => lemma_expr_extends(emit(st, "-"@), w, *operand),
            UnOp::Throw => lemma_expr_extends(emit(st, "throw new Error(String("@), w, *operand),
        },
        Expr::Call { callee, args } => {
            if is_self_delegate(*callee) {
                lemma_list_extends(emit(st, "delegate(session, "@), w, args@);
            } else {
                lemma_expr_extends(st, w, *callee);
                match gen_expr(st, w, *callee) {
                    Ok(s1) => lemma_list_extends(emit(s1, "("@), w, args@),
                    Err(_) => {},
                }
            }
        },
        Expr::Member { object, field } => {
            if !is_self(*object) {
                lemma_expr_extends(st, w, *object);
            }
        },
        Expr::Index { object, index } => {
            lemma_expr_extends(st, w, *object);
            match gen_expr(st, w, *object) {
                Ok(s1) => lemma_expr_extends(emit(s1, "["@), w, *index),
                Err(_) => {},
            }
        },
        Expr::Paren(inner) => lemma_expr_extends(emit(st, "("@), w, *inner),
        Expr::PostIncrement(inner) => lemma_expr_extends(st, w, *inner),
        Expr::PostDecrement(inner) => lemma_expr_extends(st, w, *inner),
        Expr::Await(inner) => lemma_expr_extends(emit(st, "await "@), w, *inner),
        Expr::BareCommand { name, args } => lemma_command_args_extends(
            emit(st, "await $shell(`"@ + name@),
            w,
            args@,
        ),
        Expr::CommandSubst(cmd) => match *cmd {
            Expr::BareCommand { name, args } => lemma_command_args_extends(
                emit(st, "await $shell(`"@ + name@),
                w,
                args@,
            ),
            _ => lemma_expr_extends(emit(st, "await $shell("@), w, *cmd),
        },
        Expr::ShellPipe { left, right } => {
            let s0 = emit(st, "await $shellPipe(["@);
            lemma_pipe_operand_extends(s0, w, *left);
            match gen_pipe_operand(s0, w, *left) {
                Ok(s1) => lemma_pipe_operand_extends(emit(s1, ", "@), w, *right),
                Err(_) => {},
            }
        },
        Expr::ShellAnd { left, right } => {
            let s0 = emit(st, "await $shellAnd(["@);
            lemma_pipe_operand_extends(s0, w, *left);
            match gen_pipe_operand(s0, w, *left) {
                Ok(s1) => lemma_pipe_operand_extends(emit(s1, ", "@), w, *right),
                Err(_) => {},
            }
        },
        Expr::ShellOr { left, right } => {
            let s0 = emit(st, "await $shellOr(["@);
            lemma_pipe_operand_extends(s0, w, *left);
            match gen_pipe_operand(s0, w, *left) {
                Ok(s1) => lemma_pipe_operand_extends(emit(s1, ", "@), w, *right),
                Err(_) => {},
            }
        },
        Expr::ShellRedirect { command, op, target } => {
            let s0 = emit(st, "await $shellRedirect("@);
            lemma_pipe_operand_extends(s0, w, *command);
            match gen_pipe_operand(s0, w, *command) {
                Ok(s1) => lemma_expr_extends(emit(s1, ", '"@ + redirect_js(op) + "', "@), w, *target),
                Err(_) => {},
            }
        },
        Expr::Think(pb) => lemma_prompt_extends(st, w, pb, PromptKind::Think),
        Expr::Ask(pb) => lemma_prompt_extends(st, w, pb, PromptKind::Ask),
        _ => {},
    }
}

/// Generating an operand of a shell operator only appends to the code.
proof fn lemma_pipe_operand_extends(st: GenState, w: Option<Seq<char>>, e: Expr)
    ensures
        gen_pipe_operand(st, w, e) matches Ok(s) ==> out_extends(st, s),
    decreases e, 1nat,
{
    match e {
        Expr::BareCommand { name, args } => lemma_command_args_extends(emit(st, "`"@ + name@), w, args@),
        _ => lemma_expr_extends(st, w, e),
    }
}

/// Generating a list of expressions only appends to the code.
proof fn lemma_list_extends(st: GenState, w: Option<Seq<char>>, es: Seq<Expr>)
    ensures
        gen_list(st, w, es) matches Ok(s) ==> out_extends(st, s),
    decreases es, 1nat,
{
    if es.len() > 0 {
        lemma_list_extends(st, w, es.drop_last());
        match gen_list(st, w, es.drop_last()) {
            Ok(s1) => lemma_expr_extends(
                if es.len() > 1 {
                    emit(s1, ", "@)
                } else {
                    s1
                },
                w,
                es.last(),
            ),
            Err(_) => {},
        }
    }
}

/// Generating the fields of an object only appends to the code.
proof fn lemma_fields_extends(st: GenState, w: Option<Seq<char>>, fs: Seq<ObjectField>)
    ensures
        gen_fields(st, w, fs) matches Ok(s) ==> out_extends(st, s),
    decreases fs, 1nat,
{
    if fs.len() > 0 {
        lemma_fields_extends(st, w, fs.drop_last());
        match gen_fields(st, w, fs.drop_last()) {
            Ok(s1) => {
                let s2 = emit(
                    if fs.len() > 1 {
                        emit(s1, ", "@)
                    } else {
                        s1
                    },
                    fs.last().key@,
                );
                match fs.last().value {
                    Some(v) => lemma_expr_extends(emit(s2, ": "@), w, v),
                    None => {},
                }
            },
            Err(_) => {},
        }
    }
}

/// Generating the parts of a template literal only appends to the code.
proof fn lemma_parts_extends(st: GenState, w: Option<Seq<char>>, ps: Seq<StringPart>)
    ensures
        gen_parts(st, w, ps) matches Ok(s) ==> out_extends(st, s),
    decreases ps, 1nat,
{
    if ps.len() > 0 {
        lemma_parts_extends(st, w, ps.drop_last());
        match gen_parts(st, w, ps.drop_last()) {
            Ok(s1) => match ps.last() {
                StringPart::Interpolation(e) => lemma_expr_extends(emit(s1, "${"@), w, *e),
                _ => {},
            },
            Err(_) => {},
        }
    }
}

/// Generating the arguments of a shell command only appends to the code.
proof fn lemma_command_args_extends(st: GenState, w: Option<Seq<char>>, args: Seq<CommandArg>)
    ensures
        gen_command_args(st, w, args) matches Ok(s) ==> out_extends(st, s),
    decreases args, 1nat,
{
    if args.len() > 0 {
        lemma_command_args_extends(st, w, args.drop_last());
        match gen_command_args(st, w, args.drop_last()) {
            Ok(s1) => match args.last() {
                CommandArg::String(lit) => lemma_parts_extends(emit(s1, " "@), w, lit.parts@),
                _ => {},
            },
            Err(_) => {},
        }
    }
}

/// Generating an object pattern only appends to the code.
proof fn lemma_pattern_fields_extends(st: GenState, fs: Seq<crate::ast::ObjectPatternField>)
    ensures
        gen_pattern_fields(st, fs) matches Ok(s) ==> out_extends(st, s),
    decreases fs.len(),
{
    if fs.len() > 0 {
        lemma_pattern_fields_extends(st, fs.drop_last());
    }
}

/// Generating a block only appends to the code.
proof fn lemma_block_extends(st: GenState, w: Option<Seq<char>>, ind: Seq<char>, b: Block)
    ensures
        gen_block(st, w, ind, b) matches Ok(s) ==> out_extends(st, s),
    decreases b, 0nat,
{
    lemma_stmts_extends(st, w, ind, b.statements@);
}

/// Generating statements only appends to the code.
proof fn lemma_stmts_extends(st: GenState, w: Option<Seq<char>>, ind: Seq<char>, ss: Seq<Statement>)
    ensures
        gen_stmts(st, w, ind, ss) matches Ok(s) ==> out_extends(st, s),
    decreases ss, 1nat,
{
    if ss.len() > 0 {
        lemma_stmts_extends(st, w, ind, ss.drop_last());
        match gen_stmts(st, w, ind, ss.drop_last()) {
            Ok(s1) => lemma_stmt_extends(emit(s1, ind), w, ind, ss.last()),
            Err(_) => {},
        }
    }
}

/// Generating a nested block only appends to the code.
proof fn lemma_body_extends(st: GenState, w: Option<Seq<char>>, ind: Seq<char>, b: Block)
    ensures
        gen_body(st, w, ind, b) matches Ok(s) ==> out_extends(st, s),
    decreases b, 1nat,
{
    lemma_block_extends(st, w, ind + "  "@, b);
}

/// Generating an initial value only appends to the code.
proof fn lemma_init_extends(st: GenState, w: Option<Seq<char>>, init: Option<Expr>)
    ensures
        gen_init(st, w, init) matches Ok(s) ==> out_extends(st, s),
{
    match init {
        Some(e) => lemma_expr_extends(emit(st, " = "@), w, e),
        None => {},
    }
}

/// Generating a statement only appends to the code.
proof fn lemma_stmt_extends(st: GenState, w: Option<Seq<char>>, ind: Seq<char>, s: Statement)
    ensures
        gen_stmt(st, w, ind, s) matches Ok(r) ==> out_extends(st, r),
    decreases s, 0nat,
{
    match s {
        Statement::VarDecl { pattern, init } => match pattern {
            Pattern::Identifier { name, type_ann: _ } => lemma_init_extends(
                emit(st, "let "@ + name@),
                w,
                init,
            ),
            Pattern::Object(fields) => {
                let s0 = emit(st, "let {"@);
                lemma_pattern_fields_extends(s0, fields@);
                match gen_pattern_fields(s0, fields@) {
                    Ok(s1) => lemma_init_extends(emit(s1, "}"@), w, init),
                    Err(_) => {},
                }
            },
        },
        Statement::Expr(e) => lemma_expr_extends(st, w, e),
        Statement::If { condition, then_block, else_block } => {
            let s0 = emit(st, "if ("@);
            lemma_expr_extends(s0, w, condition);
            match gen_expr(s0, w, condition) {
                Ok(s1) => {
                    lemma_body_extends(emit(s1, ") {\n"@), w, ind, then_block);
                    match gen_body(emit(s1, ") {\n"@), w, ind, then_block) {
                        Ok(s2) => match else_block {
                            Some(b) => lemma_body_extends(emit(s2, " else {\n"@), w, ind, b),
                            None => {},
                        },
                        Err(_) => {},
                    }
                },
                Err(_) => {},
            }
        },
        Statement::While { condition, body } => {
            let s0 = emit(st, "while ("@);
            lemma_expr_extends(s0, w, condition);
            match gen_expr(s0, w, condition) {
                Ok(s1) => lemma_body_extends(emit(s1, ") {\n"@), w, ind, body),
                Err(_) => {},
            }
        },
        Statement::For { var, iter, body } => {
            let s0 = emit(st, "for (let "@ + var@ + " of "@);
            lemma_expr_extends(s0, w, iter);
            match gen_expr(s0, w, iter) {
                Ok(s1) => lemma_body_extends(emit(s1, ") {\n"@), w, ind, body),
                Err(_) => {},
            }
        },
        Statement::Return(r) => match r {
            Some(e) => lemma_expr_extends(emit(st, "return "@), w, e),
            None => {},
        },
        _ => {},
    }
}

/// `part` stands in `text` from position `k` on.
pub open spec fn occurs_at(text: Seq<char>, k: int, part: Seq<char>) -> bool {
    0 <= k && k + part.len() <= text.len() && text.subrange(k, k + part.len()) == part
}

/// A redirection compiles to a call of `$shellRedirect` whose operator
/// argument is the shell spelling of the redirection, quoted: `'>'` for
/// `Out`, `'>>'` for `Append`, `'<'` for `In`, `'2>'` for `ErrOut` and
/// `'2>&1'` for `ErrToOut`; it comes after the code generated before.
pub proof fn law_redirect_spelling(
    st: GenState,
    w: Option<Seq<char>>,
    command: Expr,
    op: RedirectOp,
    target: Expr,
)
    ensures
        gen_expr(
            st,
            w,
            Expr::ShellRedirect { command: Box::new(command), op, target: Box::new(target) },
        ) matches Ok(s) ==> {
            &&& out_extends(st, s)
            &&& op is Out ==> exists|k: int| st.out.len() <= k && #[trigger] occurs_at(s.out, k, ", '>', "@)
            &&& op is Append ==> exists|k: int| st.out.len() <= k && #[trigger] occurs_at(s.out, k, ", '>>', "@)
            &&& op is In ==> exists|k: int| st.out.len() <= k && #[trigger] occurs_at(s.out, k, ", '<', "@)
            &&& op is ErrOut ==> exists|k: int| st.out.len() <= k && #[trigger] occurs_at(s.out, k, ", '2>', "@)
            &&& op is ErrToOut ==> exists|k: int| st.out.len() <= k && #[trigger] occurs_at(s.out, k, ", '2>&1', "@)
        },
{
    let e = Expr::ShellRedirect { command: Box::new(command), op, target: Box::new(target) };
    lemma_expr_extends(st, w, e);
    let s0 = emit(st, "await $shellRedirect("@);
    lemma_pipe_operand_extends(s0, w, command);
    match gen_pipe_operand(s0, w, command) {
        Ok(s1) => {
            let arg = ", '"@ + redirect_js(op) + "', "@;
            let s1a = emit(s1, arg);
            lemma_expr_extends(s1a, w, target);
            match gen_expr(s1a, w, target) {
                Ok(s2) => {
                    let s = emit(s2, ")"@);
                    let k = s1.out.len() as int;
                    assert(s.out.subrange(k, k + arg.len()) =~= arg);
                    assert(st.out.len() <= s0.out.len() <= k);
                    reveal_strlit(", '");
                    reveal_strlit("', ");
                    match op {
                        RedirectOp::Out => {
                            reveal_strlit(">");
                            reveal_strlit(", '>', ");
                            assert(arg =~= ", '>', "@);
                            assert(occurs_at(s.out, k, ", '>', "@));
                        },
                        RedirectOp::Append => {
                            reveal_strlit(">>");
                            reveal_strlit(", '>>', ");
                            assert(arg =~= ", '>>', "@);
                            assert(occurs_at(s.out, k, ", '>>', "@));
                        },
                        RedirectOp::In => {
                            reveal_strlit("<");
                            reveal_strlit(", '<', ");
                            assert(arg =~= ", '<', "@);
                            assert(occurs_at(s.out, k, ", '<', "@));
                        },
                        RedirectOp::ErrOut => {
                            reveal_strlit("2>");
                            reveal_strlit(", '2>', ");
                            assert(arg =~= ", '2>', "@);
                            assert(occurs_at(s.out, k, ", '2>', "@));
                        },
                        RedirectOp::ErrToOut => {
                            reveal_strlit("2>&1");
                            reveal_strlit(", '2>&1', ");
                            assert(arg =~= ", '2>&1', "@);
                            assert(occurs_at(s.out, k, ", '2>&1', "@));
                        },
                    }
                },
                Err(_) => {},
            }
        },
        Err(_) => {},
    }
}

/// A binary operation compiles to the code of its left operand, the
/// JavaScript operator, and the code of its right operand: `+ - * /` stay,
/// `==` becomes the strict `===` and `!=` the strict `!==`, `< > && || =`
/// stay.  A pipe or a range has no such operator and is refused.
pub proof fn law_binary_spelling(
    st: GenState,
    w: Option<Seq<char>>,
    op: BinOp,
    left: Expr,
    right: Expr,
)
    ensures
        (op is Pipe || op is Range) ==> gen_expr(
            st,
            w,
            Expr::Binary { op, left: Box::new(left), right: Box::new(right) },
        ) is Err,
        gen_expr(st, w, Expr::Binary { op, left: Box::new(left), right: Box::new(right) }) matches Ok(
            s,
        ) ==> {
            &&& out_extends(st, s)
            &&& op is Add ==> exists|k: int| st.out.len() <= k && #[trigger] occurs_at(s.out, k, " + "@)
            &&& op is Sub ==> exists|k: int| st.out.len() <= k && #[trigger] occurs_at(s.out, k, " - "@)
            &&& op is Mul ==> exists|k: int| st.out.len() <= k && #[trigger] occurs_at(s.out, k, " * "@)
            &&& op is Div ==> exists|k: int| st.out.len() <= k && #[trigger] occurs_at(s.out, k, " / "@)
            &&& op is Eq ==> exists|k: int| st.out.len() <= k && #[trigger] occurs_at(s.out, k, " === "@)
            &&& op is NotEq ==> exists|k: int| st.out.len() <= k && #[trigger] occurs_at(s.out, k, " !== "@)
            &&& op is Lt ==> exists|k: int| st.out.len() <= k && #[trigger] occurs_at(s.out, k, " < "@)
            &&& op is Gt ==> exists|k: int| st.out.len() <= k && #[trigger] occurs_at(s.out, k, " > "@)
            &&& op is And ==> exists|k: int| st.out.len() <= k && #[trigger] occurs_at(s.out, k, " && "@)
            &&& op is Or ==> exists|k: int| st.out.len() <= k && #[trigger] occurs_at(s.out, k, " || "@)
            &&& op is Assign ==> exists|k: int| st.out.len() <= k && #[trigger] occurs_at(s.out, k, " = "@)
        },
{
    let e = Expr::Binary { op, left: Box::new(left), right: Box::new(right) };
    lemma_expr_extends(st, w, e);
    lemma_expr_extends(st, w, left);
    match gen_expr(st, w, left) {
        Ok(s1) => match binop_js(op) {
            Some(o) => {
                let s1a = emit(s1, o);
                lemma_expr_extends(s1a, w, right);
                match gen_expr(s1a, w, right) {
                    Ok(s) => {
                        let k = s1.out.len() as int;
                        assert(s.out.subrange(k, k + o.len()) =~= o);
                        assert(occurs_at(s.out, k, o));
                        match op {
                        BinOp::Add => assert(occurs_at(s.out, k, " + "@)),
                        BinOp::Sub => assert(occurs_at(s.out, k, " - "@)),
                        BinOp::Mul => assert(occurs_at(s.out, k, " * "@)),
                        BinOp::Div => assert(occurs_at(s.out, k, " / "@)),
                        BinOp::Eq => assert(occurs_at(s.out, k, " === "@)),
                        BinOp::NotEq => assert(occurs_at(s.out, k, " !== "@)),
                        BinOp::Lt => assert(occurs_at(s.out, k, " < "@)),
                        BinOp::Gt => assert(occurs_at(s.out, k, " > "@)),
                        BinOp::And => assert(occurs_at(s.out, k, " && "@)),
                        BinOp::Or => assert(occurs_at(s.out, k, " || "@)),
                        BinOp::Assign => assert(occurs_at(s.out, k, " = "@)),
                            _ => {},
                        }
                    },
                    Err(_) => {},
                }
            },
            None => {},
        },
        Err(_) => {},
    }
}

/// `x++` and `x--` compile to the code of `x` followed by `++` and `--`;
/// `!x`, `-x` and `throw x` compile to `!`, `-` and
/// `throw new Error(String(` followed by the code of `x` (and `))` for
/// `throw`).
pub proof fn law_unary_spelling(st: GenState, w: Option<Seq<char>>, inner: Expr)
    ensures
        gen_expr(st, w, Expr::PostIncrement(Box::new(inner))) matches Ok(s) ==> out_extends(st, s)
            && st.out.len() + 2 <= s.out.len() && s.out.subrange(s.out.len() - 2, s.out.len() as int)
            == "++"@,
        gen_expr(st, w, Expr::PostDecrement(Box::new(inner))) matches Ok(s) ==> out_extends(st, s)
            && st.out.len() + 2 <= s.out.len() && s.out.subrange(s.out.len() - 2, s.out.len() as int)
            == "--"@,
        gen_expr(st, w, Expr::Unary { op: UnOp::Not, operand: Box::new(inner) }) matches Ok(s)
            ==> occurs_at(s.out, st.out.len() as int, "!"@),
        gen_expr(st, w, Expr::Unary { op: UnOp::Neg, operand: Box::new(inner) }) matches Ok(s)
            ==> occurs_at(s.out, st.out.len() as int, "-"@),
        gen_expr(st, w, Expr::Unary { op: UnOp::Throw, operand: Box::new(inner) }) matches Ok(s)
            ==> occurs_at(s.out, st.out.len() as int, "throw new Error(String("@) && s.out.subrange(
            s.out.len() - 2,
            s.out.len() as int,
        ) == "))"@,
{
    reveal_strlit("++");
    reveal_strlit("--");
    reveal_strlit("))");
    lemma_expr_extends(st, w, inner);
    match gen_expr(st, w, inner) {
        Ok(s1) => {
            let a = emit(s1, "++"@);
            assert(a.out.subrange(a.out.len() - 2, a.out.len() as int) =~= "++"@);
            let b = emit(s1, "--"@);
            assert(b.out.subrange(b.out.len() - 2, b.out.len() as int) =~= "--"@);
        },
        Err(_) => {},
    }
    let t = "throw new Error(String("@;
    let prefixes = seq!["!"@, "-"@, t];
    let ops = seq![UnOp::Not, UnOp::Neg, UnOp::Throw];
    assert forall|i: int| 0 <= i < 3 implies (gen_expr(
        st,
        w,
        Expr::Unary { op: #[trigger] ops[i], operand: Box::new(inner) },
    ) matches Ok(s) ==> occurs_at(s.out, st.out.len() as int, prefixes[i])) by {
        let s0 = emit(st, prefixes[i]);
        lemma_expr_extends(s0, w, inner);
        match gen_expr(s0, w, inner) {
            Ok(s2) => {
                let s = if i == 2 {
                    emit(s2, "))"@)
                } else {
                    s2
                };
                assert(s.out.subrange(st.out.len() as int, (st.out.len() + prefixes[i].len()) as int)
                    =~= prefixes[i]);
            },
            Err(_) => {},
        }
    }
    assert(ops[0] == UnOp::Not);
    assert(ops[1] == UnOp::Neg);
    assert(ops[2] == UnOp::Throw);
    let s0 = emit(st, t);
    match gen_expr(s0, w, inner) {
        Ok(s2) => {
            let s = emit(s2, "))"@);
            assert(s.out.subrange(s.out.len() - 2, s.out.len() as int) =~= "))"@);
        },
        Err(_) => {},
    }
}

/// Generating the workers and functions of a program, outside any worker,
/// ends outside any worker.
proof fn lemma_items_worker(st: GenState, items: Seq<Item>)
    requires
        st.worker is None,
    ensures
        gen_items(st, items) matches Ok(s) ==> s.worker is None,
    decreases items.len(),
{
    if items.len() > 0 {
        lemma_items_worker(st, items.drop_last());
        match gen_items(st, items.drop_last()) {
            Ok(s1) => match items.last() {
                Item::Worker(d) => {
                    let head = if d.is_default {
                        "export default function "@
                    } else {
                        "export function "@
                    };
                    let st1 = GenState {
                        out: s1.out + head + d.name@ + "(session"@ + params_after_session(
                            d.params@,
                        ) + ") {\n"@,
                        prompts: s1.prompts,
                        worker: Some(d.name@),
                    };
                    lemma_block_worker(st1, Some(d.name@), "  "@, d.body);
                },
                Item::Function(f) => {
                    let head = if f.is_default {
                        "export default function "@
                    } else if f.is_exported {
                        "export function "@
                    } else {
                        "function "@
                    };
                    lemma_block_worker(
                        emit(s1, head + f.name@ + "("@ + params_joined(f.params@) + ") {\n"@),
                        s1.worker,
                        "  "@,
                        f.body,
                    );
                },
                _ => {},
            },
            Err(_) => {},
        }
    }
}

/// A generator whose last generation succeeded is back where a fresh one
/// starts, but for the templates it keeps: its code is empty and it is
/// generating no worker.  So with no templates kept, its next generation
/// gives what a fresh generator gives.
pub proof fn law_generate_restarts(st: GenState, items: Seq<Item>)
    requires
        st.out.len() == 0,
        st.worker is None,
    ensures
        gen_program(st, items) matches Ok(s) ==> s.worker is None,
        gen_program(st, items) matches Ok(s) ==> (s.prompts.len() == 0 ==> GenState {
            out: Seq::empty(),
            prompts: s.prompts,
            worker: s.worker,
        } == GenState { out: Seq::empty(), prompts: Seq::empty(), worker: None }),
{
    let head = imports_text(items) + (if has_import(items) {
        "\n"@
    } else {
        Seq::empty()
    }) + runtime_imports();
    lemma_items_worker(emit(st, head), items);
    match gen_program(st, items) {
        Ok(s) => {
            if s.prompts.len() == 0 {
                assert(s.prompts =~= Seq::<TemplateView>::empty());
            }
        },
        Err(_) => {},
    }
}

/// `decimal` writes at least one digit, and two from ten on.
proof fn lemma_decimal_len(n: nat)
    ensures
        decimal(n).len() >= 1,
        n >= 10 ==> decimal(n).len() >= 2,
    decreases n,
{
    if n >= 10 {
        lemma_decimal_len(n / 10);
    }
}

/// Different numbers are written differently in decimal.
pub proof fn lemma_decimal_injective(a: nat, b: nat)
    requires
        decimal(a) == decimal(b),
    ensures
        a == b,
    decreases a,
{
    lemma_decimal_len(a);
    lemma_decimal_len(b);
    if a < 10 && b < 10 {
        assert(decimal(a)[0] == digit_char(a));
        assert(decimal(b)[0] == digit_char(b));
    } else if a >= 10 && b >= 10 {
        assert(decimal(a).drop_last() =~= decimal(a / 10));
        assert(decimal(b).drop_last() =~= decimal(b / 10));
        lemma_decimal_injective(a / 10, b / 10);
        assert(decimal(a).last() == digit_char(a % 10));
        assert(decimal(b).last() == digit_char(b % 10));
        assert(a % 10 == b % 10);
    }
}

/// Templates at different positions have different ids, whatever their
/// kinds.
proof fn lemma_template_id_injective(k1: PromptKind, i: nat, k2: PromptKind, j: nat)
    requires
        i != j,
    ensures
        template_id(k1, i) != template_id(k2, j),
{
    reveal_strlit("think");
    reveal_strlit("ask");
    reveal_strlit("_");
    if template_id(k1, i) == template_id(k2, j) {
        if k1 == k2 {
            let p = kind_name(k1) + "_"@;
            assert(template_id(k1, i).skip(p.len() as int) =~= decimal(i));
            assert(template_id(k2, j).skip(p.len() as int) =~= decimal(j));
            lemma_decimal_injective(i, j);
        } else {
            assert(template_id(k1, i)[0] != template_id(k2, j)[0]);
        }
    }
}

/// The templates of a program compiled from a state without templates are
/// numbered in the order in which their prompt blocks occur, `think_<n>`
/// or `ask_<n>` for the `n`-th, so no two of them share an id.
pub proof fn law_template_ids_distinct(st: GenState, items: Seq<Item>)
    requires
        st.prompts.len() == 0,
    ensures
        gen_program(st, items) matches Ok(s) ==> {
            &&& forall|i: int|
                0 <= i < s.prompts.len() ==> #[trigger] s.prompts[i].id == template_id(
                    s.prompts[i].kind,
                    i as nat,
                )
            &&& forall|i: int, j: int|
                0 <= i < s.prompts.len() && 0 <= j < s.prompts.len() && i != j
                    ==> #[trigger] s.prompts[i].id != #[trigger] s.prompts[j].id
        },
{
    let head = imports_text(items) + (if has_import(items) {
        "\n"@
    } else {
        Seq::empty()
    }) + runtime_imports();
    lemma_items_ids(emit(st, head), items);
    match gen_program(st, items) {
        Ok(s) => {
            assert forall|i: int, j: int|
                0 <= i < s.prompts.len() && 0 <= j < s.prompts.len() && i != j implies #[trigger] s.prompts[i].id
                != #[trigger] s.prompts[j].id by {
                lemma_template_id_injective(s.prompts[i].kind, i as nat, s.prompts[j].kind, j as nat);
            }
        },
        Err(_) => {},
    }
}

/// Decimal numbers are made of digits only: no `_` among them.
pub proof fn lemma_decimal_no_underscore(n: nat)
    ensures
        forall|k: int| 0 <= k < decimal(n).len() ==> #[trigger] decimal(n)[k] != '_',
    decreases n,
{
    if n >= 10 {
        lemma_decimal_no_underscore(n / 10);
        assert forall|k: int| 0 <= k < decimal(n).len() implies #[trigger] decimal(n)[k] != '_' by {
            if k < decimal(n / 10).len() {
                assert(decimal(n)[k] == decimal(n / 10)[k]);
            }
        }
    }
}

} // verus!
