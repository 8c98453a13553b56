//! Abstract syntax tree of patchwork programs.
//!
//! All types carry a lifetime `'input` for slices of the source text.
use vstd::prelude::*;

verus! {

/// A complete patchwork program.
#[derive(Debug, PartialEq)]
pub struct Program<'input> {
    pub items: Vec<Item<'input>>,
}

/// Top-level item.
#[derive(Debug, PartialEq)]
pub enum Item<'input> {
    Import(ImportDecl<'input>),
    Skill(SkillDecl<'input>),
    Task(TaskDecl<'input>),
    Function(FunctionDecl<'input>),
    Type(TypeDeclItem<'input>),
    Worker(WorkerDecl<'input>),
}

/// Import declaration: `import std.log` or `import ./{analyst, narrator}`.
#[derive(Debug, PartialEq)]
pub struct ImportDecl<'input> {
    pub path: ImportPath<'input>,
}

/// Import path: a dotted or slash-separated path, or a relative multi-import.
#[derive(Debug, PartialEq)]
pub enum ImportPath<'input> {
    /// Simple path: `std.log` or `./foo` (as `[".", "foo"]`)
    Simple(Vec<&'input str>),
    /// Relative multi-import: `./{analyst, narrator, scribe}`
    RelativeMulti(Vec<&'input str>),
}

/// Skill declaration: `skill name(params) { body }`.
#[derive(Debug, PartialEq)]
pub struct SkillDecl<'input> {
    pub name: &'input str,
    pub params: Vec<Param<'input>>,
    pub body: Block<'input>,
}

/// Task declaration: `task name(params) { body }`.
#[derive(Debug, PartialEq)]
pub struct TaskDecl<'input> {
    pub name: &'input str,
    pub params: Vec<Param<'input>>,
    pub body: Block<'input>,
}

/// Function declaration: `fun name(params) { body }`, possibly `export` or
/// `export default`.
#[derive(Debug, PartialEq)]
pub struct FunctionDecl<'input> {
    pub name: &'input str,
    pub params: Vec<Param<'input>>,
    pub body: Block<'input>,
    pub is_exported: bool,
    pub is_default: bool,
}

/// Worker declaration: `worker name(params) { body }`, possibly `export` or
/// `export default`.
#[derive(Debug, PartialEq)]
pub struct WorkerDecl<'input> {
    pub name: &'input str,
    pub params: Vec<Param<'input>>,
    pub body: Block<'input>,
    pub is_exported: bool,
    pub is_default: bool,
}

/// Type declaration: `type name = TypeExpr`.
#[derive(Debug, PartialEq)]
pub struct TypeDeclItem<'input> {
    pub name: &'input str,
    pub type_expr: TypeExpr<'input>,
}

/// Parameter of a function, task, skill or worker: `name` or `name: type`.
#[derive(Debug, PartialEq)]
pub struct Param<'input> {
    pub name: &'input str,
    pub type_ann: Option<TypeExpr<'input>>,
}

/// Block of statements: `{ stmt1; stmt2; ... }`.
#[derive(Debug, PartialEq)]
pub struct Block<'input> {
    pub statements: Vec<Statement<'input>>,
}

/// Pattern in a variable declaration.
#[derive(Debug, PartialEq)]
pub enum Pattern<'input> {
    /// `var x = ...` or `var x: type = ...`
    Identifier { name: &'input str, type_ann: Option<TypeExpr<'input>> },
    /// `var {x, y} = ...`
    Object(Vec<ObjectPatternField<'input>>),
}

/// Field in an object destructuring pattern.
#[derive(Debug, PartialEq)]
pub struct ObjectPatternField<'input> {
    /// Key name in the object being destructured
    pub key: &'input str,
    /// Pattern the field's value is bound to
    pub pattern: Pattern<'input>,
    /// Optional type annotation for this field
    pub type_ann: Option<TypeExpr<'input>>,
}

/// Statement in a block.
#[derive(Debug, PartialEq)]
pub enum Statement<'input> {
    /// `var x = expr` or `var {x, y} = expr`
    VarDecl { pattern: Pattern<'input>, init: Option<Expr<'input>> },
    /// Expression used as a statement
    Expr(Expr<'input>),
    /// `if expr { ... } else { ... }`
    If { condition: Expr<'input>, then_block: Block<'input>, else_block: Option<Block<'input>> },
    /// `for var x in expr { ... }`
    For { var: &'input str, iter: Expr<'input>, body: Block<'input> },
    /// `while (expr) { ... }`
    While { condition: Expr<'input>, body: Block<'input> },
    /// `return` or `return expr`
    Return(Option<Expr<'input>>),
    /// `succeed`
    Succeed,
    /// `fail`
    Fail,
    /// `break`
    Break,
    /// `type Foo = { ... }`
    TypeDecl { name: &'input str, type_expr: TypeExpr<'input> },
}

/// Type expression.
#[derive(Debug, PartialEq)]
pub enum TypeExpr<'input> {
    /// `string`, `int`, ...
    Name(&'input str),
    /// `{ x: string, y: int }`
    Object(Vec<TypeField<'input>>),
    /// `[string]`
    Array(Box<TypeExpr<'input>>),
    /// `"success" | "error"` or `string | int`
    Union(Vec<TypeExpr<'input>>),
    /// `"success"`
    Literal(&'input str),
}

/// Field in an object type.
#[derive(Debug, PartialEq)]
pub struct TypeField<'input> {
    pub key: &'input str,
    pub type_expr: TypeExpr<'input>,
    /// `key?: type`
    pub optional: bool,
}

/// Binary operator.
#[derive(Debug, Clone, Copy, PartialEq, Eq, Structural)]
pub enum BinOp {
    Add,
    Sub,
    Mul,
    Div,
    Eq,
    NotEq,
    Lt,
    Gt,
    And,
    Or,
    Pipe,
    Range,
    Assign,
}

/// Unary operator.
#[derive(Debug, Clone, Copy, PartialEq, Eq, Structural)]
pub enum UnOp {
    Not,
    Neg,
    Throw,
}

/// String literal: text and interpolated expressions.
#[derive(Debug, PartialEq)]
pub struct StringLiteral<'input> {
    pub parts: Vec<StringPart<'input>>,
}

/// Part of a string literal.
#[derive(Debug, PartialEq)]
pub enum StringPart<'input> {
    /// Plain text
    Text(&'input str),
    /// `${expr}`, `$(expr)` or `$id`
    Interpolation(Box<Expr<'input>>),
}

/// Argument of a shell command.
#[derive(Debug, PartialEq)]
pub enum CommandArg<'input> {
    /// Literal argument: `-p`, `work_dir`
    Literal(&'input str),
    /// Quoted argument, possibly with interpolation: `"${dir}"`
    String(StringLiteral<'input>),
}

/// Shell redirection operator.
#[derive(Debug, Clone, Copy, PartialEq, Eq, Structural)]
pub enum RedirectOp {
    /// `>`
    Out,
    /// `>>`
    Append,
    /// `<`
    In,
    /// `2>`
    ErrOut,
    /// `2>&1`
    ErrToOut,
}

/// Expression.
#[derive(Debug, PartialEq)]
pub enum Expr<'input> {
    Identifier(&'input str),
    Number(&'input str),
    String(StringLiteral<'input>),
    True,
    False,
    Array(Vec<Expr<'input>>),
    Object(Vec<ObjectField<'input>>),
    Binary { op: BinOp, left: Box<Expr<'input>>, right: Box<Expr<'input>> },
    Unary { op: UnOp, operand: Box<Expr<'input>> },
    Call { callee: Box<Expr<'input>>, args: Vec<Expr<'input>> },
    Member { object: Box<Expr<'input>>, field: &'input str },
    Index { object: Box<Expr<'input>>, index: Box<Expr<'input>> },
    PostIncrement(Box<Expr<'input>>),
    PostDecrement(Box<Expr<'input>>),
    Paren(Box<Expr<'input>>),
    Await(Box<Expr<'input>>),
    /// `task (expr1, expr2)`: tasks run in parallel
    Task(Vec<Expr<'input>>),
    Think(PromptBlock<'input>),
    Ask(PromptBlock<'input>),
    Do(Block<'input>),
    /// `$ mkdir -p work_dir`
    BareCommand { name: &'input str, args: Vec<CommandArg<'input>> },
    /// `$(shell_expr)`
    CommandSubst(Box<Expr<'input>>),
    ShellPipe { left: Box<Expr<'input>>, right: Box<Expr<'input>> },
    ShellAnd { left: Box<Expr<'input>>, right: Box<Expr<'input>> },
    ShellOr { left: Box<Expr<'input>>, right: Box<Expr<'input>> },
    ShellRedirect { command: Box<Expr<'input>>, op: RedirectOp, target: Box<Expr<'input>> },
}

/// Field of an object literal; `value` is `None` for the shorthand `{x}`.
#[derive(Debug, PartialEq)]
pub struct ObjectField<'input> {
    pub key: &'input str,
    pub value: Option<Expr<'input>>,
}

/// Content of a `think { }` or `ask { }` block.
#[derive(Debug, PartialEq)]
pub struct PromptBlock<'input> {
    pub items: Vec<PromptItem<'input>>,
}

/// Item within a prompt block.
#[derive(Debug, PartialEq)]
pub enum PromptItem<'input> {
    /// Raw prompt text
    Text(&'input str),
    /// `$var` or `${expr}`
    Interpolation(Expr<'input>),
    /// `do { ... }`
    Code(Block<'input>),
}

} // verus!
