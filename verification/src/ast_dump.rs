//! Human-readable tree dumps of programs, for tests and debugging.
//!
//! Every node is printed on a line of its own, indented by two spaces per
//! level of nesting.  The text of a dump is defined by the spec functions
//! below, one per kind of node; the executable printers are proved to
//! produce exactly that text.
use vstd::prelude::*;
use crate::ast::{
    BinOp, Block, CommandArg, Expr, ImportPath, Item, ObjectField, ObjectPatternField, Param,
    Pattern, Program, PromptBlock, PromptItem, RedirectOp, Statement, StringLiteral, StringPart,
    TypeExpr, TypeField, UnOp,
};

verus! {

/// What `{:?}` prints for a string: the text in double quotes, with
/// quotes, backslashes and control characters escaped.
pub uninterp spec fn debug_quoted(s: Seq<char>) -> Seq<char>;

/// Formats a string as `{:?}` does.
#[verifier::external_body]
fn debug_str(s: &str) -> (r: String)
    ensures
        r@ == debug_quoted(s@),
{
    format!("{:?}", s)
}

/// One more level of indentation.
pub open spec fn deeper(p: Seq<char>) -> Seq<char> {
    p + "  "@
}

/// A line made of the indentation and one piece of text.
pub open spec fn line(p: Seq<char>, t: Seq<char>) -> Seq<char> {
    p + t + "\n"@
}

/// A line made of the indentation and two pieces of text.
pub open spec fn line2(p: Seq<char>, a: Seq<char>, b: Seq<char>) -> Seq<char> {
    p + a + b + "\n"@
}

/// A line made of the indentation and three pieces of text.
pub open spec fn line3(p: Seq<char>, a: Seq<char>, b: Seq<char>, c: Seq<char>) -> Seq<char> {
    p + a + b + c + "\n"@
}

/// The name `{:?}` gives a binary operator.
pub open spec fn binop_name(op: BinOp) -> Seq<char> {
    match op {
        BinOp::Add => "Add"@,
        BinOp::Sub => "Sub"@,
        BinOp::Mul => "Mul"@,
        BinOp::Div => "Div"@,
        BinOp::Eq => "Eq"@,
        BinOp::NotEq => "NotEq"@,
        BinOp::Lt => "Lt"@,
        BinOp::Gt => "Gt"@,
        BinOp::And => "And"@,
        BinOp::Or => "Or"@,
        BinOp::Pipe => "Pipe"@,
        BinOp::Range => "Range"@,
        BinOp::Assign => "Assign"@,
    }
}

/// The name `{:?}` gives a unary operator.
pub open spec fn unop_name(op: UnOp) -> Seq<char> {
    match op {
        UnOp::Not => "Not"@,
        UnOp::Neg => "Neg"@,
        UnOp::Throw => "Throw"@,
    }
}

/// The name `{:?}` gives a redirection operator.
pub open spec fn redirect_name(op: RedirectOp) -> Seq<char> {
    match op {
        RedirectOp::Out => "Out"@,
        RedirectOp::Append => "Append"@,
        RedirectOp::In => "In"@,
        RedirectOp::ErrOut => "ErrOut"@,
        RedirectOp::ErrToOut => "ErrToOut"@,
    }
}

/// Dump of a type expression.
pub open spec fn type_text(t: TypeExpr, p: Seq<char>) -> Seq<char>
    decreases t, 0nat,
{
    match t {
        TypeExpr::Name(n) => line2(p, "Type: "@, n@),
        TypeExpr::Object(fields) => line(p, "ObjectType:"@) + type_fields_text(fields@, p),
        TypeExpr::Array(elem) => line(p, "ArrayType:"@) + type_text(*elem, deeper(p)),
        TypeExpr::Union(types) => line(p, "Union:"@) + types_text(types@, deeper(p)),
        TypeExpr::Literal(l) => line2(p, "Literal: "@, debug_quoted(l@)),
    }
}

/// Dumps of the fields of an object type.
pub open spec fn type_fields_text(s: Seq<TypeField>, p: Seq<char>) -> Seq<char>
    decreases s, 1nat,
{
    if s.len() == 0 {
        Seq::empty()
    } else {
        type_fields_text(s.drop_last(), p) + line2(deeper(p), s.last().key@, ": "@)
            + type_text(s.last().type_expr, deeper(deeper(p)))
    }
}

/// Dumps of a list of type expressions.
pub open spec fn types_text(s: Seq<TypeExpr>, p: Seq<char>) -> Seq<char>
    decreases s, 1nat,
{
    if s.len() == 0 {
        Seq::empty()
    } else {
        types_text(s.drop_last(), p) + type_text(s.last(), p)
    }
}

/// Dump of a destructuring pattern.
pub open spec fn pattern_text(pat: Pattern, p: Seq<char>) -> Seq<char>
    decreases pat, 0nat,
{
    match pat {
        Pattern::Identifier { name, type_ann } => match type_ann {
            Some(ty) => line3(p, "Pattern: "@, name@, " :"@) + type_text(ty, deeper(p)),
            None => line2(p, "Pattern: "@, name@),
        },
        Pattern::Object(fields) => line(p, "ObjectPattern:"@) + pattern_fields_text(fields@, p),
    }
}

/// Dumps of the fields of an object pattern.
pub open spec fn pattern_fields_text(s: Seq<ObjectPatternField>, p: Seq<char>) -> Seq<char>
    decreases s, 1nat,
{
    if s.len() == 0 {
        Seq::empty()
    } else {
        let f = s.last();
        let head = pattern_fields_text(s.drop_last(), p) + line2(deeper(p), f.key@, ": "@)
            + pattern_text(f.pattern, deeper(deeper(p)));
        match f.type_ann {
            Some(ty) => head + line(deeper(deeper(p)), "Type:"@) + type_text(
                ty,
                deeper(deeper(deeper(p))),
            ),
            None => head,
        }
    }
}

/// Dump of an expression.
pub open spec fn expr_text(e: Expr, p: Seq<char>) -> Seq<char>
    decreases e, 0nat,
{
    match e {
        Expr::Identifier(n) => line2(p, "Identifier: "@, n@),
        Expr::Number(n) => line2(p, "Number: "@, n@),
        Expr::String(s) => line(p, "String:"@) + parts_text(s.parts@, deeper(p)),
        Expr::True => line(p, "True"@),
        Expr::False => line(p, "False"@),
        Expr::Array(items) => line(p, "Array:"@) + exprs_text(items@, deeper(p)),
        Expr::Object(fields) => line(p, "Object:"@) + fields_text(fields@, p),
        Expr::Binary { op, left, right } => line2(p, "Binary: "@, binop_name(op)) + line(
            deeper(p),
            "Left:"@,
        ) + expr_text(*left, deeper(deeper(p))) + line(deeper(p), "Right:"@) + expr_text(
            *right,
            deeper(deeper(p)),
        ),
        Expr::Unary { op, operand } => line2(p, "Unary: "@, unop_name(op)) + expr_text(
            *operand,
            deeper(p),
        ),
        Expr::Call { callee, args } => {
            let head = line(p, "Call:"@) + line(deeper(p), "Callee:"@) + expr_text(
                *callee,
                deeper(deeper(p)),
            );
            if args.len() == 0 {
                head
            } else {
                head + line(deeper(p), "Args:"@) + exprs_text(args@, deeper(deeper(p)))
            }
        },
        Expr::Member { object, field } => line2(p, "Member: ."@, field@) + expr_text(
            *object,
            deeper(p),
        ),
        Expr::Index { object, index } => line(p, "Index:"@) + line(deeper(p), "Object:"@)
            + expr_text(*object, deeper(deeper(p))) + line(deeper(p), "Index:"@) + expr_text(
            *index,
            deeper(deeper(p)),
        ),
        Expr::PostIncrement(inner) => line(p, "PostIncrement:"@) + expr_text(*inner, deeper(p)),
        Expr::PostDecrement(inner) => line(p, "PostDecrement:"@) + expr_text(*inner, deeper(p)),
        Expr::Paren(inner) => line(p, "Paren:"@) + expr_text(*inner, deeper(p)),
        Expr::Await(inner) => line(p, "Await:"@) + expr_text(*inner, deeper(p)),
        Expr::Task(tasks) => line(p, "Task:"@) + exprs_text(tasks@, deeper(p)),
        Expr::Think(pb) => line(p, "Think:"@) + prompt_items_text(pb.items@, deeper(p)),
        Expr::Ask(pb) => line(p, "Ask:"@) + prompt_items_text(pb.items@, deeper(p)),
        Expr::Do(b) => line(p, "Do:"@) + block_text(b, deeper(p)),
        Expr::BareCommand { name, args } => {
            let head = line2(p, "BareCommand: "@, name@);
            if args.len() == 0 {
                head
            } else {
                head + line(deeper(p), "Args:"@) + command_args_text(args@, deeper(deeper(p)))
            }
        },
        Expr::CommandSubst(inner) => line(p, "CommandSubst:"@) + expr_text(*inner, deeper(p)),
        Expr::ShellPipe { left, right } => line(p, "ShellPipe:"@) + line(deeper(p), "Left:"@)
            + expr_text(*left, deeper(deeper(p))) + line(deeper(p), "Right:"@) + expr_text(
            *right,
            deeper(deeper(p)),
        ),
        Expr::ShellAnd { left, right } => line(p, "ShellAnd:"@) + line(deeper(p), "Left:"@)
            + expr_text(*left, deeper(deeper(p))) + line(deeper(p), "Right:"@) + expr_text(
            *right,
            deeper(deeper(p)),
        ),
        Expr::ShellOr { left, right } => line(p, "ShellOr:"@) + line(deeper(p), "Left:"@)
            + expr_text(*left, deeper(deeper(p))) + line(deeper(p), "Right:"@) + expr_text(
            *right,
            deeper(deeper(p)),
        ),
        Expr::ShellRedirect { command, op, target } => line2(
            p,
            "ShellRedirect: "@,
            redirect_name(op),
        ) + line(deeper(p), "Command:"@) + expr_text(*command, deeper(deeper(p))) + line(
            deeper(p),
            "Target:"@,
        ) + expr_text(*target, deeper(deeper(p))),
    }
}

/// Dumps of a list of expressions.
pub open spec fn exprs_text(s: Seq<Expr>, p: Seq<char>) -> Seq<char>
    decreases s, 1nat,
{
    if s.len() == 0 {
        Seq::empty()
    } else {
        exprs_text(s.drop_last(), p) + expr_text(s.last(), p)
    }
}

/// Dumps of the fields of an object literal.
pub open spec fn fields_text(s: Seq<ObjectField>, p: Seq<char>) -> Seq<char>
    decreases s, 1nat,
{
    if s.len() == 0 {
        Seq::empty()
    } else {
        let f = s.last();
        fields_text(s.drop_last(), p) + match f.value {
            Some(v) => line2(deeper(p), f.key@, ": "@) + expr_text(v, deeper(deeper(p))),
            None => line2(deeper(p), f.key@, " (shorthand)"@),
        }
    }
}

/// Dumps of the parts of a string literal.
pub open spec fn parts_text(s: Seq<StringPart>, p: Seq<char>) -> Seq<char>
    decreases s, 1nat,
{
    if s.len() == 0 {
        Seq::empty()
    } else {
        parts_text(s.drop_last(), p) + match s.last() {
            StringPart::Text(t) => line2(p, "Text: "@, debug_quoted(t@)),
            StringPart::Interpolation(e) => line(p, "Interpolation:"@) + expr_text(*e, deeper(p)),
        }
    }
}

/// Dumps of the items of a prompt block.
pub open spec fn prompt_items_text(s: Seq<PromptItem>, p: Seq<char>) -> Seq<char>
    decreases s, 1nat,
{
    if s.len() == 0 {
        Seq::empty()
    } else {
        prompt_items_text(s.drop_last(), p) + match s.last() {
            PromptItem::Text(t) => line2(p, "Text: "@, debug_quoted(t@)),
            PromptItem::Interpolation(e) => line(p, "Interpolation:"@) + expr_text(e, deeper(p)),
            PromptItem::Code(b) => line(p, "Code:"@) + block_text(b, deeper(p)),
        }
    }
}

/// Dumps of the arguments of a shell command.
pub open spec fn command_args_text(s: Seq<CommandArg>, p: Seq<char>) -> Seq<char>
    decreases s, 1nat,
{
    if s.len() == 0 {
        Seq::empty()
    } else {
        command_args_text(s.drop_last(), p) + match s.last() {
            CommandArg::Literal(t) => line2(p, "Literal: "@, t@),
            CommandArg::String(lit) => line(p, "String:"@) + parts_text(lit.parts@, deeper(p)),
        }
    }
}

/// Dump of a block: a `Block:` line, then its statements or `(empty)`.
pub open spec fn block_text(b: Block, p: Seq<char>) -> Seq<char>
    decreases b, 0nat,
{
    if b.statements.len() == 0 {
        line(p, "Block:"@) + line(deeper(p), "(empty)"@)
    } else {
        line(p, "Block:"@) + statements_text(b.statements@, deeper(p))
    }
}

/// Dumps of a list of statements.
pub open spec fn statements_text(s: Seq<Statement>, p: Seq<char>) -> Seq<char>
    decreases s, 1nat,
{
    if s.len() == 0 {
        Seq::empty()
    } else {
        statements_text(s.drop_last(), p) + statement_text(s.last(), p)
    }
}

/// Dump of a statement.
pub open spec fn statement_text(st: Statement, p: Seq<char>) -> Seq<char>
    decreases st, 0nat,
{
    match st {
        Statement::VarDecl { pattern, init } => {
            let head = line(p, "VarDecl:"@) + pattern_text(pattern, deeper(p));
            match init {
                Some(e) => head + line(deeper(p), "Init:"@) + expr_text(e, deeper(deeper(p))),
                None => head,
            }
        },
        Statement::Expr(e) => line(p, "ExprStmt:"@) + expr_text(e, deeper(p)),
        Statement::If { condition, then_block, else_block } => {
            let head = line(p, "If:"@) + line(deeper(p), "Condition:"@) + expr_text(
                condition,
                deeper(deeper(p)),
            ) + line(deeper(p), "Then:"@) + block_text(then_block, deeper(deeper(p)));
            match else_block {
                Some(b) => head + line(deeper(p), "Else:"@) + block_text(b, deeper(deeper(p))),
                None => head,
            }
        },
        Statement::For { var, iter, body } => line3(p, "For: var "@, var@, " in"@) + expr_text(
            iter,
            deeper(p),
        ) + block_text(body, deeper(p)),
        Statement::While { condition, body } => line(p, "While:"@) + expr_text(
            condition,
            deeper(p),
        ) + block_text(body, deeper(p)),
        Statement::Return(r) => match r {
            Some(e) => line(p, "Return:"@) + expr_text(e, deeper(p)),
            None => line(p, "Return (void)"@),
        },
        Statement::Succeed => line(p, "Succeed"@),
        Statement::Fail => line(p, "Fail"@),
        Statement::Break => line(p, "Break"@),
        Statement::TypeDecl { name, type_expr } => line3(p, "TypeDecl: "@, name@, " ="@)
            + type_text(type_expr, deeper(p)),
    }
}

/// Dump of the parameter list of a declaration.
pub open spec fn params_text(s: Seq<Param>, p: Seq<char>) -> Seq<char> {
    if s.len() == 0 {
        line(p, "Params: (none)"@)
    } else {
        line(p, "Params:"@) + param_lines(s, p)
    }
}

/// One `- name` line per parameter.
pub open spec fn param_lines(s: Seq<Param>, p: Seq<char>) -> Seq<char>
    decreases s.len(),
{
    if s.len() == 0 {
        Seq::empty()
    } else {
        param_lines(s.drop_last(), p) + line2(deeper(p), "- "@, s.last().name@)
    }
}

/// Dump of an import path.
pub open spec fn import_path_text(path: ImportPath, p: Seq<char>) -> Seq<char> {
    match path {
        ImportPath::Simple(parts) => line2(p, "Simple: "@, joined(parts@, "."@)),
        ImportPath::RelativeMulti(names) => line3(
            p,
            "RelativeMulti: ./{"@,
            joined(names@, ", "@),
            "}"@,
        ),
    }
}

/// The strings of `s` with `sep` between neighbours.
pub open spec fn joined(s: Seq<&str>, sep: Seq<char>) -> Seq<char>
    decreases s.len(),
{
    if s.len() == 0 {
        Seq::empty()
    } else if s.len() == 1 {
        s[0]@
    } else {
        joined(s.drop_last(), sep) + sep + s.last()@
    }
}

/// `export ` for an exported declaration, nothing otherwise.
pub open spec fn export_prefix(is_exported: bool) -> Seq<char> {
    if is_exported {
        "export "@
    } else {
        Seq::empty()
    }
}

/// Dump of a top-level item.
pub open spec fn item_text(item: Item, p: Seq<char>) -> Seq<char> {
    match item {
        Item::Import(d) => line(p, "Import:"@) + import_path_text(d.path, deeper(p)),
        Item::Skill(d) => line2(p, "Skill: "@, d.name@) + params_text(d.params@, deeper(p))
            + block_text(d.body, deeper(p)),
        Item::Task(d) => line2(p, "Task: "@, d.name@) + params_text(d.params@, deeper(p))
            + block_text(d.body, deeper(p)),
        Item::Function(d) => line3(p, export_prefix(d.is_exported), "Function: "@, d.name@)
            + params_text(d.params@, deeper(p)) + block_text(d.body, deeper(p)),
        Item::Worker(d) => line3(p, export_prefix(d.is_exported), "Worker: "@, d.name@)
            + params_text(d.params@, deeper(p)) + block_text(d.body, deeper(p)),
        Item::Type(d) => line3(p, "Type: "@, d.name@, " ="@) + type_text(d.type_expr, deeper(p)),
    }
}

/// Dumps of a list of items.
pub open spec fn items_text(s: Seq<Item>, p: Seq<char>) -> Seq<char>
    decreases s.len(),
{
    if s.len() == 0 {
        Seq::empty()
    } else {
        items_text(s.drop_last(), p) + item_text(s.last(), p)
    }
}

/// Dump of a whole program.
pub open spec fn program_text(prog: Program) -> Seq<char> {
    "Program:\n"@ + items_text(prog.items@, "  "@)
}


/// Formats the name of a binary operator.
fn binop_str(op: BinOp) -> (r: &'static str)
    ensures
        r@ == binop_name(op),
{
    match op {
        BinOp::Add => "Add",
        BinOp::Sub => "Sub",
        BinOp::Mul => "Mul",
        BinOp::Div => "Div",
        BinOp::Eq => "Eq",
        BinOp::NotEq => "NotEq",
        BinOp::Lt => "Lt",
        BinOp::Gt => "Gt",
        BinOp::And => "And",
        BinOp::Or => "Or",
        BinOp::Pipe => "Pipe",
        BinOp::Range => "Range",
        BinOp::Assign => "Assign",
    }
}

/// Formats the name of a unary operator.
fn unop_str(op: UnOp) -> (r: &'static str)
    ensures
        r@ == unop_name(op),
{
    match op {
        UnOp::Not => "Not",
        UnOp::Neg => "Neg",
        UnOp::Throw => "Throw",
    }
}

/// Formats the name of a redirection operator.
fn redirect_str(op: RedirectOp) -> (r: &'static str)
    ensures
        r@ == redirect_name(op),
{
    match op {
        RedirectOp::Out => "Out",
        RedirectOp::Append => "Append",
        RedirectOp::In => "In",
        RedirectOp::ErrOut => "ErrOut",
        RedirectOp::ErrToOut => "ErrToOut",
    }
}

/// The indentation one level below `p`.
fn deeper_of(p: &str) -> (r: String)
    ensures
        r@ == deeper(p@),
{
    let mut s = p.to_owned();
    s.append("  ");
    s
}

/// A line: indentation, text, newline.
fn make_line(p: &str, t: &str) -> (r: String)
    ensures
        r@ == line(p@, t@),
{
    let mut s = p.to_owned();
    s.append(t);
    s.append("\n");
    s
}

/// A line: indentation, two pieces of text, newline.
fn make_line2(p: &str, a: &str, b: &str) -> (r: String)
    ensures
        r@ == line2(p@, a@, b@),
{
    let mut s = p.to_owned();
    s.append(a);
    s.append(b);
    s.append("\n");
    s
}

/// A line: indentation, three pieces of text, newline.
fn make_line3(p: &str, a: &str, b: &str, c: &str) -> (r: String)
    ensures
        r@ == line3(p@, a@, b@, c@),
{
    let mut s = p.to_owned();
    s.append(a);
    s.append(b);
    s.append(c);
    s.append("\n");
    s
}

/// Prints a type expression.
fn dump_type(t: &TypeExpr, p: &str) -> (r: String)
    ensures
        r@ == type_text(*t, p@),
    decreases t,
{
    match t {
        TypeExpr::Name(n) => make_line2(p, "Type: ", n),
        TypeExpr::Object(fields) => {
            let mut s = make_line(p, "ObjectType:");
            let sub = dump_type_fields(fields, p);
            s.append(sub.as_str());
            s
        },
        TypeExpr::Array(elem) => {
            let mut s = make_line(p, "ArrayType:");
            let d = deeper_of(p);
            let sub = dump_type(elem, d.as_str());
            s.append(sub.as_str());
            s
        },
        TypeExpr::Union(types) => {
            let mut s = make_line(p, "Union:");
            let d = deeper_of(p);
            let sub = dump_types(types, d.as_str());
            s.append(sub.as_str());
            s
        },
        TypeExpr::Literal(l) => {
            let q = debug_str(l);
            make_line2(p, "Literal: ", q.as_str())
        },
    }
}

/// Prints the fields of an object type.
fn dump_type_fields(s: &Vec<TypeField>, p: &str) -> (r: String)
    ensures
        r@ == type_fields_text(s@, p@),
    decreases s,
{
    let d = deeper_of(p);
    let dd = deeper_of(d.as_str());
    let mut out = String::new();
    let mut i: usize = 0;
    while i < s.len()
        invariant
            i <= s.len(),
            d@ == deeper(p@),
            dd@ == deeper(deeper(p@)),
            out@ == type_fields_text(s@.take(i as int), p@),
        decreases s.len() - i,
    {
        proof {
            assert(s@.take(i + 1).drop_last() =~= s@.take(i as int));
        }
        let f = &s[i];
        let head = make_line2(d.as_str(), f.key, ": ");
        out.append(head.as_str());
        let sub = dump_type(&f.type_expr, dd.as_str());
        out.append(sub.as_str());
        i = i + 1;
    }
    proof {
        assert(s@.take(s.len() as int) =~= s@);
    }
    out
}

/// Prints a list of type expressions.
fn dump_types(s: &Vec<TypeExpr>, p: &str) -> (r: String)
    ensures
        r@ == types_text(s@, p@),
    decreases s,
{
    let mut out = String::new();
    let mut i: usize = 0;
    while i < s.len()
        invariant
            i <= s.len(),
            out@ == types_text(s@.take(i as int), p@),
        decreases s.len() - i,
    {
        proof {
            assert(s@.take(i + 1).drop_last() =~= s@.take(i as int));
        }
        let sub = dump_type(&s[i], p);
        out.append(sub.as_str());
        i = i + 1;
    }
    proof {
        assert(s@.take(s.len() as int) =~= s@);
    }
    out
}

/// Prints a destructuring pattern.
fn dump_pattern(pat: &Pattern, p: &str) -> (r: String)
    ensures
        r@ == pattern_text(*pat, p@),
    decreases pat,
{
    match pat {
        Pattern::Identifier { name, type_ann } => match type_ann {
            Some(ty) => {
                let mut s = make_line3(p, "Pattern: ", name, " :");
                let d = deeper_of(p);
                let sub = dump_type(ty, d.as_str());
                s.append(sub.as_str());
                s
            },
            None => make_line2(p, "Pattern: ", name),
        },
        Pattern::Object(fields) => {
            let mut s = make_line(p, "ObjectPattern:");
            let sub = dump_pattern_fields(fields, p);
            s.append(sub.as_str());
            s
        },
    }
}

/// Prints the fields of an object pattern.
fn dump_pattern_fields(s: &Vec<ObjectPatternField>, p: &str) -> (r: String)
    ensures
        r@ == pattern_fields_text(s@, p@),
    decreases s,
{
    let d = deeper_of(p);
    let dd = deeper_of(d.as_str());
    let ddd = deeper_of(dd.as_str());
    let mut out = String::new();
    let mut i: usize = 0;
    while i < s.len()
        invariant
            i <= s.len(),
            d@ == deeper(p@),
            dd@ == deeper(deeper(p@)),
            ddd@ == deeper(deeper(deeper(p@))),
            out@ == pattern_fields_text(s@.take(i as int), p@),
        decreases s.len() - i,
    {
        proof {
            assert(s@.take(i + 1).drop_last() =~= s@.take(i as int));
        }
        let f = &s[i];
        let head = make_line2(d.as_str(), f.key, ": ");
        out.append(head.as_str());
        let sub = dump_pattern(&f.pattern, dd.as_str());
        out.append(sub.as_str());
        match &f.type_ann {
            Some(ty) => {
                let tl = make_line(dd.as_str(), "Type:");
                out.append(tl.as_str());
                let ts = dump_type(ty, ddd.as_str());
                out.append(ts.as_str());
            },
            None => {},
        }
        i = i + 1;
    }
    proof {
        assert(s@.take(s.len() as int) =~= s@);
    }
    out
}

/// Prints an expression.
fn dump_expr(e: &Expr, p: &str) -> (r: String)
    ensures
        r@ == expr_text(*e, p@),
    decreases e,
{
    match e {
        Expr::Identifier(n) => make_line2(p, "Identifier: ", n),
        Expr::Number(n) => make_line2(p, "Number: ", n),
        Expr::String(lit) => {
            let mut s = make_line(p, "String:");
            let d = deeper_of(p);
            let sub = dump_parts(&lit.parts, d.as_str());
            s.append(sub.as_str());
            s
        },
        Expr::True => make_line(p, "True"),
        Expr::False => make_line(p, "False"),
        Expr::Array(items) => {
            let mut s = make_line(p, "Array:");
            let d = deeper_of(p);
            let sub = dump_exprs(items, d.as_str());
            s.append(sub.as_str());
            s
        },
        Expr::Object(fields) => {
            let mut s = make_line(p, "Object:");
            let sub = dump_fields(fields, p);
            s.append(sub.as_str());
            s
        },
        Expr::Binary { op, left, right } => {
            let mut s = make_line2(p, "Binary: ", binop_str(*op));
            let d = deeper_of(p);
            let dd = deeper_of(d.as_str());
            let t1 = make_line(d.as_str(), "Left:");
            s.append(t1.as_str());
            let sa = dump_expr(left, dd.as_str());
            s.append(sa.as_str());
            let t2 = make_line(d.as_str(), "Right:");
            s.append(t2.as_str());
            let sb = dump_expr(right, dd.as_str());
            s.append(sb.as_str());
            s
        },
        Expr::Unary { op, operand } => {
            let mut s = make_line2(p, "Unary: ", unop_str(*op));
            let d = deeper_of(p);
            let sub = dump_expr(operand, d.as_str());
            s.append(sub.as_str());
            s
        },
        Expr::Call { callee, args } => {
            let mut s = make_line(p, "Call:");
            let d = deeper_of(p);
            let dd = deeper_of(d.as_str());
            let t1 = make_line(d.as_str(), "Callee:");
            s.append(t1.as_str());
            let sc = dump_expr(callee, dd.as_str());
            s.append(sc.as_str());
            if args.len() > 0 {
                let t2 = make_line(d.as_str(), "Args:");
                s.append(t2.as_str());
                let sa = dump_exprs(args, dd.as_str());
                s.append(sa.as_str());
            }
            s
        },
        Expr::Member { object, field } => {
            let mut s = make_line2(p, "Member: .", field);
            let d = deeper_of(p);
            let sub = dump_expr(object, d.as_str());
            s.append(sub.as_str());
            s
        },
        Expr::Index { object, index } => {
            let mut s = make_line(p, "Index:");
            let d = deeper_of(p);
            let dd = deeper_of(d.as_str());
            let t1 = make_line(d.as_str(), "Object:");
            s.append(t1.as_str());
            let sa = dump_expr(object, dd.as_str());
            s.append(sa.as_str());
            let t2 = make_line(d.as_str(), "Index:");
            s.append(t2.as_str());
            let sb = dump_expr(index, dd.as_str());
            s.append(sb.as_str());
            s
        },
        Expr::PostIncrement(inner) => {
            let mut s = make_line(p, "PostIncrement:");
            let d = deeper_of(p);
            let sub = dump_expr(inner, d.as_str());
            s.append(sub.as_str());
            s
        },
        Expr::PostDecrement(inner) => {
            let mut s = make_line(p, "PostDecrement:");
            let d = deeper_of(p);
            let sub = dump_expr(inner, d.as_str());
            s.append(sub.as_str());
            s
        },
        Expr::Paren(inner) => {
            let mut s = make_line(p, "Paren:");
            let d = deeper_of(p);
            let sub = dump_expr(inner, d.as_str());
            s.append(sub.as_str());
            s
        },
        Expr::Await(inner) => {
            let mut s = make_line(p, "Await:");
            let d = deeper_of(p);
            let sub = dump_expr(inner, d.as_str());
            s.append(sub.as_str());
            s
        },
        Expr::Task(tasks) => {
            let mut s = make_line(p, "Task:");
            let d = deeper_of(p);
            let sub = dump_exprs(tasks, d.as_str());
            s.append(sub.as_str());
            s
        },
        Expr::Think(pb) => {
            let mut s = make_line(p, "Think:");
            let d = deeper_of(p);
            let sub = dump_prompt_items(&pb.items, d.as_str());
            s.append(sub.as_str());
            s
        },
        Expr::Ask(pb) => {
            let mut s = make_line(p, "Ask:");
            let d = deeper_of(p);
            let sub = dump_prompt_items(&pb.items, d.as_str());
            s.append(sub.as_str());
            s
        },
        Expr::Do(b) => {
            let mut s = make_line(p, "Do:");
            let d = deeper_of(p);
            let sub = dump_block(b, d.as_str());
            s.append(sub.as_str());
            s
        },
        Expr::BareCommand { name, args } => {
            let mut s = make_line2(p, "BareCommand: ", name);
            if args.len() > 0 {
                let d = deeper_of(p);
                let dd = deeper_of(d.as_str());
                let t = make_line(d.as_str(), "Args:");
                s.append(t.as_str());
                let sa = dump_command_args(args, dd.as_str());
                s.append(sa.as_str());
            }
            s
        },
        Expr::CommandSubst(inner) => {
            let mut s = make_line(p, "CommandSubst:");
            let d = deeper_of(p);
            let sub = dump_expr(inner, d.as_str());
            s.append(sub.as_str());
            s
        },
        Expr::ShellPipe { left, right } => {
            let mut s = make_line(p, "ShellPipe:");
            let d = deeper_of(p);
            let dd = deeper_of(d.as_str());
            let t1 = make_line(d.as_str(), "Left:");
            s.append(t1.as_str());
            let sa = dump_expr(left, dd.as_str());
            s.append(sa.as_str());
            let t2 = make_line(d.as_str(), "Right:");
            s.append(t2.as_str());
            let sb = dump_expr(right, dd.as_str());
            s.append(sb.as_str());
            s
        },
        Expr::ShellAnd { left, right } => {
            let mut s = make_line(p, "ShellAnd:");
            let d = deeper_of(p);
            let dd = deeper_of(d.as_str());
            let t1 = make_line(d.as_str(), "Left:");
            s.append(t1.as_str());
            let sa = dump_expr(left, dd.as_str());
            s.append(sa.as_str());
            let t2 = make_line(d.as_str(), "Right:");
            s.append(t2.as_str());
            let sb = dump_expr(right, dd.as_str());
            s.append(sb.as_str());
            s
        },
        Expr::ShellOr { left, right } => {
            let mut s = make_line(p, "ShellOr:");
            let d = deeper_of(p);
            let dd = deeper_of(d.as_str());
            let t1 = make_line(d.as_str(), "Left:");
            s.append(t1.as_str());
            let sa = dump_expr(left, dd.as_str());
            s.append(sa.as_str());
            let t2 = make_line(d.as_str(), "Right:");
            s.append(t2.as_str());
            let sb = dump_expr(right, dd.as_str());
            s.append(sb.as_str());
            s
        },
        Expr::ShellRedirect { command, op, target } => {
            let mut s = make_line2(p, "ShellRedirect: ", redirect_str(*op));
            let d = deeper_of(p);
            let dd = deeper_of(d.as_str());
            let t1 = make_line(d.as_str(), "Command:");
            s.append(t1.as_str());
            let sa = dump_expr(command, dd.as_str());
            s.append(sa.as_str());
            let t2 = make_line(d.as_str(), "Target:");
            s.append(t2.as_str());
            let sb = dump_expr(target, dd.as_str());
            s.append(sb.as_str());
            s
        },
    }
}

/// Prints a list of expressions.
fn dump_exprs(s: &Vec<Expr>, p: &str) -> (r: String)
    ensures
        r@ == exprs_text(s@, p@),
    decreases s,
{
    let mut out = String::new();
    let mut i: usize = 0;
    while i < s.len()
        invariant
            i <= s.len(),
            out@ == exprs_text(s@.take(i as int), p@),
        decreases s.len() - i,
    {
        proof {
            assert(s@.take(i + 1).drop_last() =~= s@.take(i as int));
        }
        let sub = dump_expr(&s[i], p);
        out.append(sub.as_str());
        i = i + 1;
    }
    proof {
        assert(s@.take(s.len() as int) =~= s@);
    }
    out
}

/// Prints the fields of an object literal.
fn dump_fields(s: &Vec<ObjectField>, p: &str) -> (r: String)
    ensures
        r@ == fields_text(s@, p@),
    decreases s,
{
    let d = deeper_of(p);
    let dd = deeper_of(d.as_str());
    let mut out = String::new();
    let mut i: usize = 0;
    while i < s.len()
        invariant
            i <= s.len(),
            d@ == deeper(p@),
            dd@ == deeper(deeper(p@)),
            out@ == fields_text(s@.take(i as int), p@),
        decreases s.len() - i,
    {
        proof {
            assert(s@.take(i + 1).drop_last() =~= s@.take(i as int));
        }
        let f = &s[i];
        let piece = match &f.value {
            Some(v) => {
                let mut t = make_line2(d.as_str(), f.key, ": ");
                let sub = dump_expr(v, dd.as_str());
                t.append(sub.as_str());
                t
            },
            None => make_line2(d.as_str(), f.key, " (shorthand)"),
        };
        out.append(piece.as_str());
        i = i + 1;
    }
    proof {
        assert(s@.take(s.len() as int) =~= s@);
    }
    out
}


/// Prints the parts of a string literal.
fn dump_parts(s: &Vec<StringPart>, p: &str) -> (r: String)
    ensures
        r@ == parts_text(s@, p@),
    decreases s,
{
    let d = deeper_of(p);
    let mut out = String::new();
    let mut i: usize = 0;
    while i < s.len()
        invariant
            i <= s.len(),
            d@ == deeper(p@),
            out@ == parts_text(s@.take(i as int), p@),
        decreases s.len() - i,
    {
        proof {
            assert(s@.take(i + 1).drop_last() =~= s@.take(i as int));
        }
        let piece = match &s[i] {
            StringPart::Text(t) => {
                let q = debug_str(t);
                make_line2(p, "Text: ", q.as_str())
            },
            StringPart::Interpolation(e) => {
                let mut t = make_line(p, "Interpolation:");
                let sub = dump_expr(e, d.as_str());
                t.append(sub.as_str());
                t
            },
        };
        out.append(piece.as_str());
        i = i + 1;
    }
    proof {
        assert(s@.take(s.len() as int) =~= s@);
    }
    out
}

/// Prints the items of a prompt block.
fn dump_prompt_items(s: &Vec<PromptItem>, p: &str) -> (r: String)
    ensures
        r@ == prompt_items_text(s@, p@),
    decreases s,
{
    let d = deeper_of(p);
    let mut out = String::new();
    let mut i: usize = 0;
    while i < s.len()
        invariant
            i <= s.len(),
            d@ == deeper(p@),
            out@ == prompt_items_text(s@.take(i as int), p@),
        decreases s.len() - i,
    {
        proof {
            assert(s@.take(i + 1).drop_last() =~= s@.take(i as int));
        }
        let piece = match &s[i] {
            PromptItem::Text(t) => {
                let q = debug_str(t);
                make_line2(p, "Text: ", q.as_str())
            },
            PromptItem::Interpolation(e) => {
                let mut t = make_line(p, "Interpolation:");
                let sub = dump_expr(e, d.as_str());
                t.append(sub.as_str());
                t
            },
            PromptItem::Code(b) => {
                let mut t = make_line(p, "Code:");
                let sub = dump_block(b, d.as_str());
                t.append(sub.as_str());
                t
            },
        };
        out.append(piece.as_str());
        i = i + 1;
    }
    proof {
        assert(s@.take(s.len() as int) =~= s@);
    }
    out
}

/// Prints the arguments of a shell command.
fn dump_command_args(s: &Vec<CommandArg>, p: &str) -> (r: String)
    ensures
        r@ == command_args_text(s@, p@),
    decreases s,
{
    let d = deeper_of(p);
    let mut out = String::new();
    let mut i: usize = 0;
    while i < s.len()
        invariant
            i <= s.len(),
            d@ == deeper(p@),
            out@ == command_args_text(s@.take(i as int), p@),
        decreases s.len() - i,
    {
        proof {
            assert(s@.take(i + 1).drop_last() =~= s@.take(i as int));
        }
        let piece = match &s[i] {
            CommandArg::Literal(t) => make_line2(p, "Literal: ", t),
            CommandArg::String(lit) => {
                let mut t = make_line(p, "String:");
                let sub = dump_parts(&lit.parts, d.as_str());
                t.append(sub.as_str());
                t
            },
        };
        out.append(piece.as_str());
        i = i + 1;
    }
    proof {
        assert(s@.take(s.len() as int) =~= s@);
    }
    out
}

/// Prints a block.
fn dump_block(b: &Block, p: &str) -> (r: String)
    ensures
        r@ == block_text(*b, p@),
    decreases b,
{
    let mut s = make_line(p, "Block:");
    let d = deeper_of(p);
    if b.statements.len() == 0 {
        let t = make_line(d.as_str(), "(empty)");
        s.append(t.as_str());
    } else {
        let sub = dump_statements(&b.statements, d.as_str());
        s.append(sub.as_str());
    }
    s
}

/// Prints a list of statements.
fn dump_statements(s: &Vec<Statement>, p: &str) -> (r: String)
    ensures
        r@ == statements_text(s@, p@),
    decreases s,
{
    let mut out = String::new();
    let mut i: usize = 0;
    while i < s.len()
        invariant
            i <= s.len(),
            out@ == statements_text(s@.take(i as int), p@),
        decreases s.len() - i,
    {
        proof {
            assert(s@.take(i + 1).drop_last() =~= s@.take(i as int));
        }
        let sub = dump_statement(&s[i], p);
        out.append(sub.as_str());
        i = i + 1;
    }
    proof {
        assert(s@.take(s.len() as int) =~= s@);
    }
    out
}

/// Prints a statement.
fn dump_statement(st: &Statement, p: &str) -> (r: String)
    ensures
        r@ == statement_text(*st, p@),
    decreases st,
{
    let d = deeper_of(p);
    let dd = deeper_of(d.as_str());
    match st {
        Statement::VarDecl { pattern, init } => {
            let mut s = make_line(p, "VarDecl:");
            let sp = dump_pattern(pattern, d.as_str());
            s.append(sp.as_str());
            match init {
                Some(e) => {
                    let t = make_line(d.as_str(), "Init:");
                    s.append(t.as_str());
                    let se = dump_expr(e, dd.as_str());
                    s.append(se.as_str());
                },
                None => {},
            }
            s
        },
        Statement::Expr(e) => {
            let mut s = make_line(p, "ExprStmt:");
            let se = dump_expr(e, d.as_str());
            s.append(se.as_str());
            s
        },
        Statement::If { condition, then_block, else_block } => {
            let mut s = make_line(p, "If:");
            let t1 = make_line(d.as_str(), "Condition:");
            s.append(t1.as_str());
            let sc = dump_expr(condition, dd.as_str());
            s.append(sc.as_str());
            let t2 = make_line(d.as_str(), "Then:");
            s.append(t2.as_str());
            let sb = dump_block(then_block, dd.as_str());
            s.append(sb.as_str());
            match else_block {
                Some(b) => {
                    let t3 = make_line(d.as_str(), "Else:");
                    s.append(t3.as_str());
                    let se = dump_block(b, dd.as_str());
                    s.append(se.as_str());
                },
                None => {},
            }
            s
        },
        Statement::For { var, iter, body } => {
            let mut s = make_line3(p, "For: var ", var, " in");
            let se = dump_expr(iter, d.as_str());
            s.append(se.as_str());
            let sb = dump_block(body, d.as_str());
            s.append(sb.as_str());
            s
        },
        Statement::While { condition, body } => {
            let mut s = make_line(p, "While:");
            let se = dump_expr(condition, d.as_str());
            s.append(se.as_str());
            let sb = dump_block(body, d.as_str());
            s.append(sb.as_str());
            s
        },
        Statement::Return(r) => match r {
            Some(e) => {
                let mut s = make_line(p, "Return:");
                let se = dump_expr(e, d.as_str());
                s.append(se.as_str());
                s
            },
            None => make_line(p, "Return (void)"),
        },
        Statement::Succeed => make_line(p, "Succeed"),
        Statement::Fail => make_line(p, "Fail"),
        Statement::Break => make_line(p, "Break"),
        Statement::TypeDecl { name, type_expr } => {
            let mut s = make_line3(p, "TypeDecl: ", name, " =");
            let st = dump_type(type_expr, d.as_str());
            s.append(st.as_str());
            s
        },
    }
}

/// Prints a parameter list.
fn dump_params(s: &Vec<Param>, p: &str) -> (r: String)
    ensures
        r@ == params_text(s@, p@),
{
    if s.len() == 0 {
        return make_line(p, "Params: (none)");
    }
    let d = deeper_of(p);
    let mut out = make_line(p, "Params:");
    let ghost head = out@;
    let mut i: usize = 0;
    while i < s.len()
        invariant
            i <= s.len(),
            d@ == deeper(p@),
            head == line(p@, "Params:"@),
            out@ == head + param_lines(s@.take(i as int), p@),
        decreases s.len() - i,
    {
        proof {
            assert(s@.take(i + 1).drop_last() =~= s@.take(i as int));
        }
        let t = make_line2(d.as_str(), "- ", s[i].name);
        out.append(t.as_str());
        proof {
            assert(out@ =~= head + param_lines(s@.take(i + 1), p@));
        }
        i = i + 1;
    }
    proof {
        assert(s@.take(s.len() as int) =~= s@);
    }
    out
}

/// Joins strings with a separator.
fn join_strs(s: &Vec<&str>, sep: &str) -> (r: String)
    ensures
        r@ == joined(s@, sep@),
{
    let mut out = String::new();
    let mut i: usize = 0;
    while i < s.len()
        invariant
            i <= s.len(),
            out@ == joined(s@.take(i as int), sep@),
        decreases s.len() - i,
    {
        proof {
            assert(s@.take(i + 1).drop_last() =~= s@.take(i as int));
        }
        if i > 0 {
            out.append(sep);
        }
        out.append(s[i]);
        proof {
            if i == 0 {
                assert(s@.take(1)[0] == s@[0]);
            }
        }
        i = i + 1;
    }
    proof {
        assert(s@.take(s.len() as int) =~= s@);
    }
    out
}

/// Prints an import path.
fn dump_import_path(path: &ImportPath, p: &str) -> (r: String)
    ensures
        r@ == import_path_text(*path, p@),
{
    match path {
        ImportPath::Simple(parts) => {
            let j = join_strs(parts, ".");
            make_line2(p, "Simple: ", j.as_str())
        },
        ImportPath::RelativeMulti(names) => {
            let j = join_strs(names, ", ");
            make_line3(p, "RelativeMulti: ./{", j.as_str(), "}")
        },
    }
}

/// `export ` for an exported declaration, the empty string otherwise.
fn export_str(is_exported: bool) -> (r: &'static str)
    ensures
        r@ == export_prefix(is_exported),
{
    if is_exported {
        "export "
    } else {
        proof {
            reveal_strlit("");
        }
        ""
    }
}

/// Prints a callable declaration: its header line, parameters and body.
fn dump_callable(head: String, params: &Vec<Param>, body: &Block, p: &str) -> (r: String)
    ensures
        r@ == head@ + params_text(params@, deeper(p@)) + block_text(*body, deeper(p@)),
{
    let d = deeper_of(p);
    let mut s = head;
    let sp = dump_params(params, d.as_str());
    s.append(sp.as_str());
    let sb = dump_block(body, d.as_str());
    s.append(sb.as_str());
    s
}

/// Prints a top-level item.
fn dump_item(item: &Item, p: &str) -> (r: String)
    ensures
        r@ == item_text(*item, p@),
{
    match item {
        Item::Import(decl) => {
            let mut s = make_line(p, "Import:");
            let d = deeper_of(p);
            let sub = dump_import_path(&decl.path, d.as_str());
            s.append(sub.as_str());
            s
        },
        Item::Skill(decl) => {
            let head = make_line2(p, "Skill: ", decl.name);
            dump_callable(head, &decl.params, &decl.body, p)
        },
        Item::Task(decl) => {
            let head = make_line2(p, "Task: ", decl.name);
            dump_callable(head, &decl.params, &decl.body, p)
        },
        Item::Function(decl) => {
            let head = make_line3(p, export_str(decl.is_exported), "Function: ", decl.name);
            dump_callable(head, &decl.params, &decl.body, p)
        },
        Item::Worker(decl) => {
            let head = make_line3(p, export_str(decl.is_exported), "Worker: ", decl.name);
            dump_callable(head, &decl.params, &decl.body, p)
        },
        Item::Type(decl) => {
            let mut s = make_line3(p, "Type: ", decl.name, " =");
            let d = deeper_of(p);
            let sub = dump_type(&decl.type_expr, d.as_str());
            s.append(sub.as_str());
            s
        },
    }
}

/// Dumps a program as an indented tree, one node per line.
pub fn dump_program(program: &Program) -> (r: String)
    ensures
        r@ == program_text(*program),
{
    let mut out = String::new();
    out.append("Program:\n");
    let s = &program.items;
    let mut i: usize = 0;
    while i < s.len()
        invariant
            i <= s.len(),
            s == &program.items,
            out@ == "Program:\n"@ + items_text(s@.take(i as int), "  "@),
        decreases s.len() - i,
    {
        proof {
            assert(s@.take(i + 1).drop_last() =~= s@.take(i as int));
        }
        let sub = dump_item(&s[i], "  ");
        out.append(sub.as_str());
        proof {
            assert(out@ =~= "Program:\n"@ + items_text(s@.take(i + 1), "  "@));
        }
        i = i + 1;
    }
    proof {
        assert(s@.take(s.len() as int) =~= s@);
    }
    out
}

} // verus!
