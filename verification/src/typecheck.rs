//! Semantic analysis: scopes, symbols and the checking of names.
//!
//! The checker builds a symbol table while it walks a program and rejects
//! two things: a name used where no enclosing scope declares it, and a name
//! declared twice in one scope.  It also infers a type for every expression;
//! the types are recorded with the symbols but never reject a program.
use vstd::prelude::*;
use crate::ast::{
    BinOp, Block, Expr, ImportPath, Item, ObjectField, Param, Pattern, Program, Statement,
    TypeExpr, TypeField, UnOp,
};
use crate::error::CompileError;
use crate::prompts::str_eq;

verus! {

/// A type of the type system.
#[derive(Debug, PartialEq)]
pub enum Type {
    /// Not known (not inferred yet).
    Unknown,
    String,
    /// Integer or floating point number.
    Number,
    Bool,
    /// Array with its element type.
    Array(Box<Type>),
    /// Object with its fields; no field name occurs twice.
    Object(Vec<(String, Type)>),
    /// One of several alternatives.
    Union(Vec<Type>),
    /// Function from parameters to a result.
    Function { params: Vec<Type>, ret: Box<Type> },
    /// A type known by its name only.
    Named(String),
    /// No value.
    Void,
}

/// The mathematical value of a `Type`.
pub enum TypeView {
    Unknown,
    String,
    Number,
    Bool,
    Array(Box<TypeView>),
    Object(Seq<(Seq<char>, TypeView)>),
    Union(Seq<TypeView>),
    Function { params: Seq<TypeView>, ret: Box<TypeView> },
    Named(Seq<char>),
    Void,
}

/// The value of a type.
pub open spec fn type_view(t: Type) -> TypeView
    decreases t, 0nat,
{
    match t {
        Type::Unknown => TypeView::Unknown,
        Type::String => TypeView::String,
        Type::Number => TypeView::Number,
        Type::Bool => TypeView::Bool,
        Type::Array(e) => TypeView::Array(Box::new(type_view(*e))),
        Type::Object(fs) => TypeView::Object(type_fields_view(fs@)),
        Type::Union(ts) => TypeView::Union(types_view(ts@)),
        Type::Function { params, ret } => TypeView::Function {
            params: types_view(params@),
            ret: Box::new(type_view(*ret)),
        },
        Type::Named(n) => TypeView::Named(n@),
        Type::Void => TypeView::Void,
    }
}

/// The values of a list of types.
pub open spec fn types_view(ts: Seq<Type>) -> Seq<TypeView>
    decreases ts, 1nat,
{
    if ts.len() == 0 {
        Seq::empty()
    } else {
        types_view(ts.drop_last()).push(type_view(ts.last()))
    }
}

/// The values of the fields of an object type.
pub open spec fn type_fields_view(fs: Seq<(String, Type)>) -> Seq<(Seq<char>, TypeView)>
    decreases fs, 1nat,
{
    if fs.len() == 0 {
        Seq::empty()
    } else {
        type_fields_view(fs.drop_last()).push((fs.last().0@, type_view(fs.last().1)))
    }
}

impl View for Type {
    type V = TypeView;

    open spec fn view(&self) -> TypeView {
        type_view(*self)
    }
}

/// The position of the field named `k`, or -1.
pub open spec fn field_index(s: Seq<(Seq<char>, TypeView)>, k: Seq<char>) -> int
    decreases s.len(),
{
    if s.len() == 0 {
        -1
    } else if s.last().0 == k {
        s.len() - 1
    } else {
        field_index(s.drop_last(), k)
    }
}

/// The fields `s` with field `k` set to `v`: replaced where `k` is a field,
/// added at the end otherwise.
pub open spec fn set_field(s: Seq<(Seq<char>, TypeView)>, k: Seq<char>, v: TypeView) -> Seq<
    (Seq<char>, TypeView),
> {
    let j = field_index(s, k);
    if j >= 0 {
        s.update(j, (k, v))
    } else {
        s.push((k, v))
    }
}

/// The type a type expression denotes.  Names of the primitive types map to
/// them, other names stay names; a literal type is a string; for a field
/// named twice, the later declaration wins.
pub open spec fn type_of(te: TypeExpr) -> TypeView
    decreases te, 0nat,
{
    match te {
        TypeExpr::Name(n) => if n@ == "string"@ {
            TypeView::String
        } else if n@ == "number"@ || n@ == "int"@ || n@ == "float"@ {
            TypeView::Number
        } else if n@ == "bool"@ || n@ == "boolean"@ {
            TypeView::Bool
        } else if n@ == "void"@ {
            TypeView::Void
        } else {
            TypeView::Named(n@)
        },
        TypeExpr::Array(e) => TypeView::Array(Box::new(type_of(*e))),
        TypeExpr::Object(fs) => TypeView::Object(fields_type_of(fs@)),
        TypeExpr::Union(vs) => TypeView::Union(types_of(vs@)),
        TypeExpr::Literal(_) => TypeView::String,
    }
}

/// The fields of the object type with the given field declarations.
pub open spec fn fields_type_of(fs: Seq<TypeField>) -> Seq<(Seq<char>, TypeView)>
    decreases fs, 1nat,
{
    if fs.len() == 0 {
        Seq::empty()
    } else {
        set_field(fields_type_of(fs.drop_last()), fs.last().key@, type_of(fs.last().type_expr))
    }
}

/// The types of a list of type expressions.
pub open spec fn types_of(vs: Seq<TypeExpr>) -> Seq<TypeView>
    decreases vs, 1nat,
{
    if vs.len() == 0 {
        Seq::empty()
    } else {
        types_of(vs.drop_last()).push(type_of(vs.last()))
    }
}

/// The value of a list of types, element by element.
pub proof fn lemma_types_view(ts: Seq<Type>)
    ensures
        types_view(ts).len() == ts.len(),
        forall|i: int| 0 <= i < ts.len() ==> #[trigger] types_view(ts)[i] == type_view(ts[i]),
    decreases ts.len(),
{
    if ts.len() > 0 {
        lemma_types_view(ts.drop_last());
    }
}

/// The value of a list of fields, field by field.
pub proof fn lemma_type_fields_view(fs: Seq<(String, Type)>)
    ensures
        type_fields_view(fs).len() == fs.len(),
        forall|i: int|
            0 <= i < fs.len() ==> #[trigger] type_fields_view(fs)[i] == (
                fs[i].0@,
                type_view(fs[i].1),
            ),
    decreases fs.len(),
{
    if fs.len() > 0 {
        lemma_type_fields_view(fs.drop_last());
    }
}

/// Sets field `k` of the fields `fields` to `v`.
fn set_field_exec(fields: &mut Vec<(String, Type)>, k: String, v: Type)
    ensures
        type_fields_view(final(fields)@) == set_field(type_fields_view(old(fields)@), k@, v@),
{
    let ghost old_view = type_fields_view(fields@);
    proof {
        lemma_type_fields_view(fields@);
    }
    let mut found: Option<usize> = None;
    let mut i: usize = 0;
    while i < fields.len()
        invariant
            i <= fields.len(),
            old_view == type_fields_view(fields@),
            old_view.len() == fields.len(),
            found == (if field_index(old_view.take(i as int), k@) >= 0 {
                Some(field_index(old_view.take(i as int), k@) as usize)
            } else {
                None::<usize>
            }),
            field_index(old_view.take(i as int), k@) < i,
        decreases fields.len() - i,
    {
        proof {
            assert(old_view.take(i + 1).drop_last() =~= old_view.take(i as int));
            assert(old_view.take(i + 1).last() == old_view[i as int]);
            lemma_type_fields_view(fields@);
            assert(old_view[i as int] == (fields@[i as int].0@, type_view(fields@[i as int].1)));
        }
        if str_eq(fields[i].0.as_str(), k.as_str()) {
            found = Some(i);
        }
        i = i + 1;
    }
    proof {
        assert(old_view.take(fields.len() as int) =~= old_view);
    }
    let ghost vv = v@;
    let ghost kk = k@;
    match found {
        Some(j) => {
            let ghost before = fields@;
            fields.set(j, (k, v));
            proof {
                lemma_type_fields_view(fields@);
                assert(type_fields_view(fields@) =~= old_view.update(j as int, (kk, vv)));
            }
        },
        None => {
            let ghost before = fields@;
            fields.push((k, v));
            proof {
                assert(fields@.drop_last() =~= before);
            }
        },
    }
}

impl Type {
    /// The type a type expression denotes.
    pub fn from_type_expr(expr: &TypeExpr) -> (r: Type)
        ensures
            r@ == type_of(*expr),
        decreases expr,
    {
        match expr {
            TypeExpr::Name(name) => {
                if str_eq(name, "string") {
                    Type::String
                } else if str_eq(name, "number") || str_eq(name, "int") || str_eq(name, "float") {
                    Type::Number
                } else if str_eq(name, "bool") || str_eq(name, "boolean") {
                    Type::Bool
                } else if str_eq(name, "void") {
                    Type::Void
                } else {
                    Type::Named((*name).to_owned())
                }
            },
            TypeExpr::Array(elem) => Type::Array(Box::new(Type::from_type_expr(elem))),
            TypeExpr::Object(fields) => Type::Object(fields_from_type_exprs(fields)),
            TypeExpr::Union(variants) => Type::Union(types_from_type_exprs(variants)),
            TypeExpr::Literal(_) => Type::String,
        }
    }

    /// A copy of the type.
    pub fn duplicate(&self) -> (r: Type)
        ensures
            r@ == self@,
        decreases self,
    {
        match self {
            Type::Unknown => Type::Unknown,
            Type::String => Type::String,
            Type::Number => Type::Number,
            Type::Bool => Type::Bool,
            Type::Array(e) => Type::Array(Box::new(e.duplicate())),
            Type::Object(fs) => Type::Object(duplicate_fields(fs)),
            Type::Union(ts) => Type::Union(duplicate_types(ts)),
            Type::Function { params, ret } => Type::Function {
                params: duplicate_types(params),
                ret: Box::new(ret.duplicate()),
            },
            Type::Named(n) => Type::Named(n.clone()),
            Type::Void => Type::Void,
        }
    }
}

/// The types of a list of type expressions.
fn types_from_type_exprs(variants: &Vec<TypeExpr>) -> (r: Vec<Type>)
    ensures
        types_view(r@) == types_of(variants@),
    decreases variants,
{
    let mut out: Vec<Type> = Vec::new();
    let mut i: usize = 0;
    while i < variants.len()
        invariant
            i <= variants.len(),
            types_view(out@) == types_of(variants@.take(i as int)),
        decreases variants.len() - i,
    {
        proof {
            assert(variants@.take(i + 1).drop_last() =~= variants@.take(i as int));
        }
        let t = Type::from_type_expr(&variants[i]);
        let ghost before = out@;
        out.push(t);
        proof {
            assert(out@.drop_last() =~= before);
        }
        i = i + 1;
    }
    proof {
        assert(variants@.take(variants.len() as int) =~= variants@);
    }
    out
}

/// Copies of the fields of an object type.
fn duplicate_fields(fs: &Vec<(String, Type)>) -> (r: Vec<(String, Type)>)
    ensures
        type_fields_view(r@) == type_fields_view(fs@),
    decreases fs,
{
    let mut out: Vec<(String, Type)> = Vec::new();
    let mut i: usize = 0;
    while i < fs.len()
        invariant
            i <= fs.len(),
            type_fields_view(out@) == type_fields_view(fs@.take(i as int)),
        decreases fs.len() - i,
    {
        proof {
            assert(fs@.take(i + 1).drop_last() =~= fs@.take(i as int));
        }
        let k = fs[i].0.clone();
        let t = fs[i].1.duplicate();
        let ghost before = out@;
        out.push((k, t));
        proof {
            assert(out@.drop_last() =~= before);
        }
        i = i + 1;
    }
    proof {
        assert(fs@.take(fs.len() as int) =~= fs@);
    }
    out
}

/// Copies of a list of types.
fn duplicate_types(ts: &Vec<Type>) -> (r: Vec<Type>)
    ensures
        types_view(r@) == types_view(ts@),
    decreases ts,
{
    let mut out: Vec<Type> = Vec::new();
    let mut i: usize = 0;
    while i < ts.len()
        invariant
            i <= ts.len(),
            types_view(out@) == types_view(ts@.take(i as int)),
        decreases ts.len() - i,
    {
        proof {
            assert(ts@.take(i + 1).drop_last() =~= ts@.take(i as int));
        }
        let t = ts[i].duplicate();
        let ghost before = out@;
        out.push(t);
        proof {
            assert(out@.drop_last() =~= before);
        }
        i = i + 1;
    }
    proof {
        assert(ts@.take(ts.len() as int) =~= ts@);
    }
    out
}

/// The fields of the object type with the given field declarations.
fn fields_from_type_exprs(fields: &Vec<TypeField>) -> (r: Vec<(String, Type)>)
    ensures
        type_fields_view(r@) == fields_type_of(fields@),
    decreases fields,
{
    let mut out: Vec<(String, Type)> = Vec::new();
    let mut i: usize = 0;
    while i < fields.len()
        invariant
            i <= fields.len(),
            type_fields_view(out@) == fields_type_of(fields@.take(i as int)),
        decreases fields.len() - i,
    {
        proof {
            assert(fields@.take(i + 1).drop_last() =~= fields@.take(i as int));
        }
        let t = Type::from_type_expr(&fields[i].type_expr);
        set_field_exec(&mut out, fields[i].key.to_owned(), t);
        i = i + 1;
    }
    proof {
        assert(fields@.take(fields.len() as int) =~= fields@);
    }
    out
}

/// Kind of a symbol.
#[derive(Debug, Clone, Copy, PartialEq, Eq, Structural)]
pub enum SymbolKind {
    Variable,
    Parameter,
    Function,
    Worker,
    Trait,
    TypeAlias,
}

/// An entry of the symbol table.
#[derive(Debug)]
pub struct Symbol {
    pub name: String,
    pub ty: Type,
    /// Depth of the scope that declares the symbol (0 for the global scope).
    pub scope_depth: usize,
    pub kind: SymbolKind,
}

/// A scope: its own symbols and the scope that encloses it.
#[derive(Debug)]
pub struct Scope {
    symbols: Vec<Symbol>,
    parent: Option<Box<Scope>>,
    depth: usize,
}

/// The names of a list of symbols.
pub open spec fn symbol_names(syms: Seq<Symbol>) -> Seq<Seq<char>> {
    syms.map_values(|x: Symbol| x.name@)
}

/// The position of the last symbol named `n`, or -1.
pub open spec fn sym_index(syms: Seq<Symbol>, n: Seq<char>) -> int
    decreases syms.len(),
{
    if syms.len() == 0 {
        -1
    } else if syms.last().name@ == n {
        syms.len() - 1
    } else {
        sym_index(syms.drop_last(), n)
    }
}

/// A name environment: the names of each scope, outermost first.
pub type Env = Seq<Seq<Seq<char>>>;

/// The message for a second declaration of `n` in one scope.
pub open spec fn dup_msg(n: Seq<char>) -> Seq<char> {
    "Duplicate declaration of '"@ + n + "'"@
}

/// The message for a use of the undeclared name `n`.
pub open spec fn undef_msg(n: Seq<char>) -> Seq<char> {
    "Undefined variable '"@ + n + "'"@
}

impl Scope {
    /// The symbols this scope declares, in order of declaration.
    pub closed spec fn own(self) -> Seq<Symbol> {
        self.symbols@
    }

    /// The enclosing scope.
    pub closed spec fn parent_spec(self) -> Option<Scope> {
        match self.parent {
            Some(b) => Some(*b),
            None => None,
        }
    }

    /// How deeply the scope is nested.
    pub closed spec fn depth_spec(self) -> nat {
        self.depth as nat
    }

    /// The names this scope declares.
    pub open spec fn own_names(self) -> Seq<Seq<char>> {
        symbol_names(self.own())
    }

    /// Well formed: no name is declared twice in one scope, and the depth
    /// counts the enclosing scopes.
    pub closed spec fn wf(self) -> bool
        decreases self,
    {
        &&& symbol_names(self.symbols@).no_duplicates()
        &&& match self.parent {
            None => self.depth == 0,
            Some(p) => p.wf() && self.depth as int == depth_below(p.depth as int),
        }
    }

    /// The names of this scope and all enclosing scopes, outermost first.
    pub closed spec fn env(self) -> Env
        decreases self,
    {
        match self.parent {
            None => seq![symbol_names(self.symbols@)],
            Some(p) => p.env().push(symbol_names(self.symbols@)),
        }
    }

    /// The symbol a name refers to: the one of the innermost scope that
    /// declares it.
    pub closed spec fn lookup_spec(self, n: Seq<char>) -> Option<Symbol>
        decreases self,
    {
        let i = sym_index(self.symbols@, n);
        if i >= 0 {
            Some(self.symbols@[i])
        } else {
            match self.parent {
                Some(p) => p.lookup_spec(n),
                None => None,
            }
        }
    }
}

/// The depth of a scope directly inside a scope of depth `d`; it stays at
/// the largest `usize` once it gets there.
pub open spec fn depth_below(d: int) -> int {
    if d < usize::MAX {
        d + 1
    } else {
        d
    }
}

/// Whether a name is declared in some scope of an environment.
pub open spec fn in_env(env: Env, n: Seq<char>) -> bool {
    exists|i: int| 0 <= i < env.len() && #[trigger] env[i].contains(n)
}

/// `sym_index` finds exactly the symbols with the name.
proof fn lemma_sym_index(syms: Seq<Symbol>, n: Seq<char>)
    ensures
        -1 <= sym_index(syms, n) < syms.len(),
        sym_index(syms, n) >= 0 ==> syms[sym_index(syms, n)].name@ == n,
        sym_index(syms, n) < 0 <==> !symbol_names(syms).contains(n),
    decreases syms.len(),
{
    if syms.len() > 0 {
        lemma_sym_index(syms.drop_last(), n);
        assert(symbol_names(syms.drop_last()) =~= symbol_names(syms).drop_last());
        if syms.last().name@ == n {
            assert(symbol_names(syms)[syms.len() - 1] == n);
        } else if symbol_names(syms).contains(n) {
            let k = choose|k: int| 0 <= k < symbol_names(syms).len() && symbol_names(syms)[k] == n;
            assert(k < syms.len() - 1);
            assert(symbol_names(syms.drop_last())[k] == n);
        }
    } else {
        assert(!symbol_names(syms).contains(n));
    }
}

/// A name has a symbol exactly when some scope declares it.
pub proof fn lemma_lookup_iff_in_env(s: Scope, n: Seq<char>)
    requires
        s.wf(),
    ensures
        s.lookup_spec(n) is Some <==> in_env(s.env(), n),
        s.lookup_spec(n) matches Some(sym) ==> sym.name@ == n,
    decreases s,
{
    lemma_sym_index(s.symbols@, n);
    let own = symbol_names(s.symbols@);
    match s.parent {
        None => {
            assert(s.env() == seq![own]);
            if in_env(s.env(), n) {
                let i = choose|i: int| 0 <= i < s.env().len() && #[trigger] s.env()[i].contains(n);
                assert(i == 0);
            }
            if own.contains(n) {
                assert(s.env()[0].contains(n));
            }
        },
        Some(p) => {
            lemma_lookup_iff_in_env(*p, n);
            let e = s.env();
            assert(e == p.env().push(own));
            if in_env(e, n) {
                let i = choose|i: int| 0 <= i < e.len() && #[trigger] e[i].contains(n);
                if i < e.len() - 1 {
                    assert(p.env()[i].contains(n));
                }
            }
            if in_env(p.env(), n) {
                let i = choose|i: int| 0 <= i < p.env().len() && #[trigger] p.env()[i].contains(n);
                assert(e[i] == p.env()[i]);
            }
            if own.contains(n) {
                assert(e[e.len() - 1].contains(n));
            }
        },
    }
}

/// The innermost names of an environment.
pub open spec fn innermost(env: Env) -> Seq<Seq<char>> {
    env[env.len() - 1]
}

/// Declares `n` in the innermost scope of `env`.
pub open spec fn declare(env: Env, n: Seq<char>) -> Result<Env, Seq<char>> {
    if innermost(env).contains(n) {
        Err(dup_msg(n))
    } else {
        Ok(env.update(env.len() - 1, innermost(env).push(n)))
    }
}

/// Lookup after declaring: in a scope that gained symbol `sym`, the name of
/// `sym` refers to `sym`, and every other name refers to what it referred
/// to before.
pub proof fn law_lookup_after_add(before: Scope, after: Scope, sym: Symbol, n: Seq<char>)
    requires
        before.wf(),
        !before.own_names().contains(sym.name@),
        after.own() == before.own().push(sym),
        after.parent_spec() == before.parent_spec(),
    ensures
        after.lookup_spec(sym.name@) == Some(sym),
        n != sym.name@ ==> after.lookup_spec(n) == before.lookup_spec(n),
{
    lemma_sym_index(before.symbols@, n);
    assert(after.symbols@.drop_last() =~= before.symbols@);
    match after.parent {
        Some(pa) => {
            match before.parent {
                Some(pb) => {
                    assert(*pa == *pb);
                },
                None => {},
            }
        },
        None => {},
    }
}

/// The type of the built-in `print`: a function from a string to nothing.
pub open spec fn print_type() -> TypeView {
    TypeView::Function { params: seq![TypeView::String], ret: Box::new(TypeView::Void) }
}

/// The type of the built-in `cat`: a function from anything to a string.
pub open spec fn cat_type() -> TypeView {
    TypeView::Function { params: seq![TypeView::Unknown], ret: Box::new(TypeView::String) }
}

/// A function type with the given parameters and result.
fn function_type(params: Vec<Type>, ret: Type) -> (r: Type)
    ensures
        r@ == (TypeView::Function { params: types_view(params@), ret: Box::new(ret@) }),
{
    Type::Function { params, ret: Box::new(ret) }
}

/// A one-element list of types.
fn one_type(t: Type) -> (r: Vec<Type>)
    ensures
        types_view(r@) == seq![t@],
{
    let mut v: Vec<Type> = Vec::new();
    v.push(t);
    proof {
        lemma_types_view(v@);
        assert(types_view(v@) =~= seq![t@]);
    }
    v
}

/// Concatenates two strings.
fn cat3(a: &str, b: &str, c: &str) -> (r: String)
    ensures
        r@ == a@ + b@ + c@,
{
    let mut s = a.to_owned();
    s.append(b);
    s.append(c);
    s
}

/// The type error with the given message.
fn type_error(message: String) -> (r: CompileError)
    ensures
        r matches CompileError::TypeError { message: m } && m@ == message@,
{
    CompileError::TypeError { message }
}

impl Scope {
    /// A scope with no symbols and no parent, to stand in while a scope is moved.
    fn placeholder() -> (r: Scope)
        ensures
            r.wf(),
            r.own() == Seq::<Symbol>::empty(),
            r.parent_spec() is None,
    {
        let r = Scope { symbols: Vec::new(), parent: None, depth: 0 };
        proof {
            assert(symbol_names(r.symbols@) =~= Seq::<Seq<char>>::empty());
        }
        r
    }

    /// The global scope, with the built-in functions `print` and `cat`.
    pub fn new_global() -> (r: Scope)
        ensures
            r.wf(),
            r.parent_spec() is None,
            r.depth_spec() == 0,
            r.own().len() == 2,
            r.own()[0].name@ == "print"@,
            r.own()[0].ty@ == print_type(),
            r.own()[0].scope_depth == 0,
            r.own()[0].kind == SymbolKind::Function,
            r.own()[1].name@ == "cat"@,
            r.own()[1].ty@ == cat_type(),
            r.own()[1].scope_depth == 0,
            r.own()[1].kind == SymbolKind::Function,
            r.lookup_spec("print"@) == Some(r.own()[0]),
            r.lookup_spec("cat"@) == Some(r.own()[1]),
            forall|n: Seq<char>| n != "print"@ && n != "cat"@ ==> #[trigger] r.lookup_spec(n) is None,
    {
        let mut symbols: Vec<Symbol> = Vec::new();
        let print_ty = function_type(one_type(Type::String), Type::Void);
        symbols.push(
            Symbol {
                name: "print".to_owned(),
                ty: print_ty,
                scope_depth: 0,
                kind: SymbolKind::Function,
            },
        );
        let cat_ty = function_type(one_type(Type::Unknown), Type::String);
        symbols.push(
            Symbol { name: "cat".to_owned(), ty: cat_ty, scope_depth: 0, kind: SymbolKind::Function },
        );
        proof {
            reveal_strlit("print");
            reveal_strlit("cat");
            let names = symbol_names(symbols@);
            assert(names[0] == symbols@[0].name@);
            assert(names[1] == symbols@[1].name@);
            assert(names[0].len() != names[1].len());
            assert(names[0] != names[1]);
            assert(names.no_duplicates());
            let sy = symbols@;
            assert(sy.drop_last().len() == 1 && sy.drop_last().last() == sy[0]);
            assert(sy.drop_last().drop_last().len() == 0);
            assert(sy.last().name@ == "cat"@);
            assert(sy.drop_last().last().name@ == "print"@);
            assert("cat"@ != "print"@);
            assert(sym_index(sy.drop_last(), "print"@) == 0);
            assert(sym_index(sy, "print"@) == 0);
            assert(sym_index(sy, "cat"@) == 1);
            assert forall|n: Seq<char>| n != "print"@ && n != "cat"@ implies sym_index(sy, n) == -1 by {
                assert(sym_index(sy.drop_last().drop_last(), n) == -1);
                assert(sym_index(sy.drop_last(), n) == -1);
            }
        }
        Scope { symbols, parent: None, depth: 0 }
    }

    /// A new empty scope inside `parent`.
    pub fn new_child(parent: Scope) -> (r: Scope)
        requires
            parent.wf(),
        ensures
            r.wf(),
            r.parent_spec() == Some(parent),
            r.own() == Seq::<Symbol>::empty(),
            r.depth_spec() == depth_below(parent.depth_spec() as int),
            r.env() == parent.env().push(Seq::<Seq<char>>::empty()),
            forall|n: Seq<char>| #[trigger] r.lookup_spec(n) == parent.lookup_spec(n),
    {
        let depth = parent.depth.saturating_add(1);
        let r = Scope { symbols: Vec::new(), parent: Some(Box::new(parent)), depth };
        proof {
            assert(symbol_names(r.symbols@) =~= Seq::<Seq<char>>::empty());
        }
        r
    }

    /// Declares a symbol in this scope; a name this scope declares already is
    /// refused.
    pub fn add_symbol(&mut self, name: String, ty: Type, kind: SymbolKind) -> (r: Result<
        (),
        CompileError,
    >)
        requires
            old(self).wf(),
        ensures
            final(self).wf(),
            final(self).parent_spec() == old(self).parent_spec(),
            final(self).depth_spec() == old(self).depth_spec(),
            old(self).own_names().contains(name@) ==> (r matches Err(
                CompileError::TypeError { message },
            ) && message@ == dup_msg(name@) && *final(self) == *old(self)),
            !old(self).own_names().contains(name@) ==> r is Ok && final(self).own() == old(self).own().push(
                Symbol { name: name, ty: ty, scope_depth: old(self).depth_spec() as usize, kind: kind },
            ),
            r is Ok ==> final(self).env() == declare(old(self).env(), name@)->Ok_0,
            r is Err ==> declare(old(self).env(), name@) == Err::<Env, Seq<char>>(dup_msg(name@)),
    {
        proof {
            lemma_sym_index(self.symbols@, name@);
        }
        let ghost n = name@;
        if self.lookup_own(name.as_str()).is_some() {
            let msg = cat3("Duplicate declaration of '", name.as_str(), "'");
            return Err(type_error(msg));
        }
        let ghost old_syms = self.symbols@;
        let depth = self.depth;
        self.symbols.push(Symbol { name, ty, scope_depth: depth, kind });
        proof {
            assert(symbol_names(self.symbols@) =~= symbol_names(old_syms).push(n));
        }
        Ok(())
    }

    /// The symbol this scope itself declares under `name`.
    fn lookup_own(&self, name: &str) -> (r: Option<&Symbol>)
        ensures
            sym_index(self.own(), name@) >= 0 ==> r == Some(
                &self.own()[sym_index(self.own(), name@)],
            ),
            sym_index(self.own(), name@) < 0 ==> r is None,
    {
        let mut found: Option<usize> = None;
        let mut i: usize = 0;
        while i < self.symbols.len()
            invariant
                i <= self.symbols.len(),
                found == (if sym_index(self.symbols@.take(i as int), name@) >= 0 {
                    Some(sym_index(self.symbols@.take(i as int), name@) as usize)
                } else {
                    None::<usize>
                }),
                sym_index(self.symbols@.take(i as int), name@) < i,
            decreases self.symbols.len() - i,
        {
            proof {
                assert(self.symbols@.take(i + 1).drop_last() =~= self.symbols@.take(i as int));
            }
            if str_eq(self.symbols[i].name.as_str(), name) {
                found = Some(i);
            }
            i = i + 1;
        }
        proof {
            assert(self.symbols@.take(self.symbols.len() as int) =~= self.symbols@);
        }
        match found {
            Some(j) => Some(&self.symbols[j]),
            None => None,
        }
    }

    /// The symbol `name` refers to: the one declared by the innermost scope
    /// that declares the name.
    pub fn lookup(&self, name: &str) -> (r: Option<&Symbol>)
        ensures
            match self.lookup_spec(name@) {
                Some(sym) => r == Some(&sym),
                None => r is None,
            },
        decreases self,
    {
        match self.lookup_own(name) {
            Some(sym) => Some(sym),
            None => match &self.parent {
                Some(p) => p.lookup(name),
                None => None,
            },
        }
    }

    /// How deeply this scope is nested (0 for the global scope).
    pub fn depth(&self) -> (r: usize)
        ensures
            r == self.depth_spec(),
    {
        self.depth
    }

    /// The enclosing scope, if any.
    pub fn take_parent(self) -> (r: Option<Scope>)
        ensures
            r == self.parent_spec(),
    {
        match self.parent {
            Some(p) => Some(*p),
            None => None,
        }
    }
}

/// Checking an expression: every name it reads must be declared, but for
/// the name of a function that is called, which may come from outside the
/// program.  A `do` block declares its variables in the current scope.
pub open spec fn chk_expr(env: Env, e: Expr) -> Result<Env, Seq<char>>
    decreases e, 0nat,
{
    match e {
        Expr::Identifier(n) => if in_env(env, n@) {
            Ok(env)
        } else {
            Err(undef_msg(n@))
        },
        Expr::Array(items) => chk_exprs(env, items@),
        Expr::Task(items) => chk_exprs(env, items@),
        Expr::Object(fs) => chk_fields(env, fs@),
        Expr::Binary { op: _, left, right } => match chk_expr(env, *left) {
            Ok(e1) => chk_expr(e1, *right),
            Err(m) => Err(m),
        },
        Expr::ShellPipe { left, right } => match chk_expr(env, *left) {
            Ok(e1) => chk_expr(e1, *right),
            Err(m) => Err(m),
        },
        Expr::ShellAnd { left, right } => match chk_expr(env, *left) {
            Ok(e1) => chk_expr(e1, *right),
            Err(m) => Err(m),
        },
        Expr::ShellOr { left, right } => match chk_expr(env, *left) {
            Ok(e1) => chk_expr(e1, *right),
            Err(m) => Err(m),
        },
        Expr::ShellRedirect { command, op: _, target } => match chk_expr(env, *command) {
            Ok(e1) => chk_expr(e1, *target),
            Err(m) => Err(m),
        },
        Expr::Index { object, index } => match chk_expr(env, *object) {
            Ok(e1) => chk_expr(e1, *index),
            Err(m) => Err(m),
        },
        Expr::Unary { op: _, operand } => chk_expr(env, *operand),
        Expr::Paren(inner) => chk_expr(env, *inner),
        Expr::Await(inner) => chk_expr(env, *inner),
        Expr::PostIncrement(inner) => chk_expr(env, *inner),
        Expr::PostDecrement(inner) => chk_expr(env, *inner),
        Expr::Member { object, field: _ } => chk_expr(env, *object),
        Expr::Call { callee, args } => if *callee is Identifier {
            chk_exprs(env, args@)
        } else {
            match chk_expr(env, *callee) {
                Ok(e1) => chk_exprs(e1, args@),
                Err(m) => Err(m),
            }
        },
        Expr::Do(b) => chk_block(env, b),
        _ => Ok(env),
    }
}

/// The type a name has in a scope: that of the symbol it refers to, or
/// `Unknown` for a name that is not declared.
pub open spec fn name_type(s: Scope, n: Seq<char>) -> TypeView {
    match s.lookup_spec(n) {
        Some(sym) => sym.ty@,
        None => TypeView::Unknown,
    }
}

/// Whether a checked part of an expression is a `do` block (which declares
/// variables as it is checked).
pub open spec fn has_do(e: Expr) -> bool
    decreases e, 0nat,
{
    match e {
        Expr::Do(_) => true,
        Expr::Array(es) => has_do_list(es@),
        Expr::Task(es) => has_do_list(es@),
        Expr::Object(fs) => has_do_fields(fs@),
        Expr::Binary { op: _, left, right } => has_do(*left) || has_do(*right),
        Expr::ShellPipe { left, right } => has_do(*left) || has_do(*right),
        Expr::ShellAnd { left, right } => has_do(*left) || has_do(*right),
        Expr::ShellOr { left, right } => has_do(*left) || has_do(*right),
        Expr::ShellRedirect { command, op: _, target } => has_do(*command) || has_do(*target),
        Expr::Index { object, index } => has_do(*object) || has_do(*index),
        Expr::Unary { op: _, operand } => has_do(*operand),
        Expr::Paren(inner) => has_do(*inner),
        Expr::Await(inner) => has_do(*inner),
        Expr::PostIncrement(inner) => has_do(*inner),
        Expr::PostDecrement(inner) => has_do(*inner),
        Expr::Member { object, field: _ } => has_do(*object),
        Expr::Call { callee, args } => has_do(*callee) || has_do_list(args@),
        _ => false,
    }
}

/// Whether one of the expressions has a `do` block.
pub open spec fn has_do_list(es: Seq<Expr>) -> bool
    decreases es, 1nat,
{
    if es.len() == 0 {
        false
    } else {
        has_do_list(es.drop_last()) || has_do(es.last())
    }
}

/// Whether the value of one of the fields has a `do` block.
pub open spec fn has_do_fields(fs: Seq<ObjectField>) -> bool
    decreases fs, 1nat,
{
    if fs.len() == 0 {
        false
    } else {
        has_do_fields(fs.drop_last()) || match fs.last().value {
            Some(v) => has_do(v),
            None => false,
        }
    }
}

/// The type the checker gives an expression in scope `s`: a name has the
/// type of its symbol; literals their own types; an array the type of its
/// first element (or `Unknown`); an object its fields' types; arithmetic
/// numbers, comparisons and logic booleans, an assignment the type of its
/// value; a call the result type of its callee's function type; a member
/// the type of that field of an object type; an index the element type of
/// an array type; shell constructs strings; what is not known `Unknown`.
pub open spec fn expr_type(s: Scope, e: Expr) -> TypeView
    decreases e, 0nat,
{
    match e {
        Expr::Identifier(n) => name_type(s, n@),
        Expr::Number(_) => TypeView::Number,
        Expr::String(_) => TypeView::String,
        Expr::True => TypeView::Bool,
        Expr::False => TypeView::Bool,
        Expr::Array(es) => TypeView::Array(Box::new(first_type(s, es@))),
        Expr::Task(_) => TypeView::Unknown,
        Expr::Object(fs) => TypeView::Object(fields_types(s, fs@)),
        Expr::Binary { op, left: _, right } => match op {
            BinOp::Add | BinOp::Sub | BinOp::Mul | BinOp::Div => TypeView::Number,
            BinOp::Eq | BinOp::NotEq | BinOp::Lt | BinOp::Gt | BinOp::And | BinOp::Or => TypeView::Bool,
            BinOp::Assign => expr_type(s, *right),
            _ => TypeView::Unknown,
        },
        Expr::Unary { op, operand: _ } => match op {
            UnOp::Not => TypeView::Bool,
            UnOp::Neg => TypeView::Number,
            UnOp::Throw => TypeView::Void,
        },
        Expr::Call { callee, args: _ } => {
            let ct = match *callee {
                Expr::Identifier(n) => name_type(s, n@),
                _ => expr_type(s, *callee),
            };
            match ct {
                TypeView::Function { params: _, ret } => *ret,
                _ => TypeView::Unknown,
            }
        },
        Expr::Member { object, field } => match expr_type(s, *object) {
            TypeView::Object(fs) => {
                let j = field_index(fs, field@);
                if j >= 0 {
                    fs[j].1
                } else {
                    TypeView::Unknown
                }
            },
            _ => TypeView::Unknown,
        },
        Expr::Index { object, index: _ } => match expr_type(s, *object) {
            TypeView::Array(el) => *el,
            _ => TypeView::Unknown,
        },
        Expr::Paren(inner) => expr_type(s, *inner),
        Expr::Await(inner) => expr_type(s, *inner),
        Expr::Think(_) => TypeView::Unknown,
        Expr::Ask(_) => TypeView::Unknown,
        Expr::Do(_) => TypeView::Unknown,
        Expr::BareCommand { .. } => TypeView::String,
        Expr::CommandSubst(_) => TypeView::String,
        Expr::ShellPipe { .. } => TypeView::String,
        Expr::ShellAnd { .. } => TypeView::String,
        Expr::ShellOr { .. } => TypeView::String,
        Expr::ShellRedirect { .. } => TypeView::String,
        Expr::PostIncrement(_) => TypeView::Number,
        Expr::PostDecrement(_) => TypeView::Number,
    }
}

/// The type of the first of the expressions, or `Unknown` where there is none.
pub open spec fn first_type(s: Scope, es: Seq<Expr>) -> TypeView
    decreases es, 1nat,
{
    if es.len() == 0 {
        TypeView::Unknown
    } else {
        expr_type(s, es[0])
    }
}

/// The field types of an object literal: each key with the type of its
/// value (a shorthand `{x}` has the type of `x`); for a key given twice the
/// later value wins.
pub open spec fn fields_types(s: Scope, fs: Seq<ObjectField>) -> Seq<(Seq<char>, TypeView)>
    decreases fs, 1nat,
{
    if fs.len() == 0 {
        Seq::empty()
    } else {
        set_field(
            fields_types(s, fs.drop_last()),
            fs.last().key@,
            match fs.last().value {
                Some(v) => expr_type(s, v),
                None => name_type(s, fs.last().key@),
            },
        )
    }
}

/// Without a `do` block, no expression of a list has one.
proof fn lemma_no_do_list(es: Seq<Expr>)
    requires
        !has_do_list(es),
    ensures
        forall|k: int| 0 <= k < es.len() ==> !has_do(#[trigger] es[k]),
    decreases es.len(),
{
    if es.len() > 0 {
        lemma_no_do_list(es.drop_last());
        assert forall|k: int| 0 <= k < es.len() implies !has_do(#[trigger] es[k]) by {
            if k < es.len() - 1 {
                assert(es.drop_last()[k] == es[k]);
            }
        }
    }
}

/// Without a `do` block, no field value has one.
proof fn lemma_no_do_fields(fs: Seq<ObjectField>)
    requires
        !has_do_fields(fs),
    ensures
        forall|k: int| 0 <= k < fs.len() ==> (#[trigger] fs[k].value matches Some(v) ==> !has_do(v)),
    decreases fs.len(),
{
    if fs.len() > 0 {
        lemma_no_do_fields(fs.drop_last());
        assert forall|k: int| 0 <= k < fs.len() implies (#[trigger] fs[k].value matches Some(v) ==> !has_do(v)) by {
            if k < fs.len() - 1 {
                assert(fs.drop_last()[k] == fs[k]);
            }
        }
    }
}

/// Checking expressions left to right.
pub open spec fn chk_exprs(env: Env, es: Seq<Expr>) -> Result<Env, Seq<char>>
    decreases es, 1nat,
{
    if es.len() == 0 {
        Ok(env)
    } else {
        match chk_exprs(env, es.drop_last()) {
            Ok(e1) => chk_expr(e1, es.last()),
            Err(m) => Err(m),
        }
    }
}

/// Checking the fields of an object literal; `{x}` reads `x`.
pub open spec fn chk_fields(env: Env, fs: Seq<ObjectField>) -> Result<Env, Seq<char>>
    decreases fs, 1nat,
{
    if fs.len() == 0 {
        Ok(env)
    } else {
        match chk_fields(env, fs.drop_last()) {
            Ok(e1) => match fs.last().value {
                Some(v) => chk_expr(e1, v),
                None => if in_env(e1, fs.last().key@) {
                    Ok(e1)
                } else {
                    Err(undef_msg(fs.last().key@))
                },
            },
            Err(m) => Err(m),
        }
    }
}

/// Checking a block, in the current scope.
pub open spec fn chk_block(env: Env, b: Block) -> Result<Env, Seq<char>>
    decreases b, 0nat,
{
    chk_stmts(env, b.statements@)
}

/// Checking statements in order.
pub open spec fn chk_stmts(env: Env, ss: Seq<Statement>) -> Result<Env, Seq<char>>
    decreases ss, 1nat,
{
    if ss.len() == 0 {
        Ok(env)
    } else {
        match chk_stmts(env, ss.drop_last()) {
            Ok(e1) => chk_stmt(e1, ss.last()),
            Err(m) => Err(m),
        }
    }
}

/// Checking a statement.  Declarations go to the current scope; a `for`
/// loop checks its body in a new scope that declares the loop variable.
pub open spec fn chk_stmt(env: Env, st: Statement) -> Result<Env, Seq<char>>
    decreases st, 0nat,
{
    match st {
        Statement::VarDecl { pattern, init } => match (match init {
            Some(e) => chk_expr(env, e),
            None => Ok(env),
        }) {
            Ok(e1) => declare_pat(e1, pattern),
            Err(m) => Err(m),
        },
        Statement::Expr(e) => chk_expr(env, e),
        Statement::If { condition, then_block, else_block } => match chk_expr(env, condition) {
            Ok(e1) => match chk_block(e1, then_block) {
                Ok(e2) => match else_block {
                    Some(b) => chk_block(e2, b),
                    None => Ok(e2),
                },
                Err(m) => Err(m),
            },
            Err(m) => Err(m),
        },
        Statement::For { var, iter, body } => match chk_expr(env, iter) {
            Ok(e1) => match declare(e1.push(Seq::empty()), var@) {
                Ok(e2) => match chk_block(e2, body) {
                    Ok(e3) => Ok(e3.drop_last()),
                    Err(m) => Err(m),
                },
                Err(m) => Err(m),
            },
            Err(m) => Err(m),
        },
        Statement::While { condition, body } => match chk_expr(env, condition) {
            Ok(e1) => chk_block(e1, body),
            Err(m) => Err(m),
        },
        Statement::Return(r) => match r {
            Some(e) => chk_expr(env, e),
            None => Ok(env),
        },
        Statement::TypeDecl { name, type_expr: _ } => declare(env, name@),
        _ => Ok(env),
    }
}

/// Declaring the names a pattern binds.
pub open spec fn declare_pat(env: Env, p: Pattern) -> Result<Env, Seq<char>>
    decreases p, 0nat,
{
    match p {
        Pattern::Identifier { name, type_ann: _ } => declare(env, name@),
        Pattern::Object(fs) => declare_pat_fields(env, fs@),
    }
}

/// Declaring the names the fields of an object pattern bind.
pub open spec fn declare_pat_fields(env: Env, fs: Seq<crate::ast::ObjectPatternField>) -> Result<
    Env,
    Seq<char>,
>
    decreases fs, 1nat,
{
    if fs.len() == 0 {
        Ok(env)
    } else {
        match declare_pat_fields(env, fs.drop_last()) {
            Ok(e1) => declare_pat(e1, fs.last().pattern),
            Err(m) => Err(m),
        }
    }
}

/// Declaring names in order.
pub open spec fn declare_names(env: Env, ns: Seq<Seq<char>>) -> Result<Env, Seq<char>>
    decreases ns.len(),
{
    if ns.len() == 0 {
        Ok(env)
    } else {
        match declare_names(env, ns.drop_last()) {
            Ok(e1) => declare(e1, ns.last()),
            Err(m) => Err(m),
        }
    }
}

/// The names of some parameters.
pub open spec fn param_names(ps: Seq<Param>) -> Seq<Seq<char>> {
    ps.map_values(|p: Param| p.name@)
}

/// Checking a worker or function: a new scope that declares `self` and the
/// parameters, in which the body is checked.
pub open spec fn chk_callable(env: Env, params: Seq<Param>, body: Block) -> Result<Env, Seq<char>> {
    match declare_names(env.push(Seq::empty()), seq!["self"@] + param_names(params)) {
        Ok(e1) => match chk_block(e1, body) {
            Ok(e2) => Ok(e2.drop_last()),
            Err(m) => Err(m),
        },
        Err(m) => Err(m),
    }
}

/// The first pass over a program: the names its items declare.  Of the
/// standard library, `import std.log` and `import std.cat` declare `log`
/// and `cat`.
pub open spec fn decl_item(env: Env, item: Item) -> Result<Env, Seq<char>> {
    match item {
        Item::Worker(w) => declare(env, w.name@),
        Item::Function(f) => declare(env, f.name@),
        Item::Type(t) => declare(env, t.name@),
        Item::Import(i) => match i.path {
            ImportPath::Simple(segs) => if segs.len() == 2 && segs[0]@ == "std"@ {
                if segs[1]@ == "log"@ || segs[1]@ == "cat"@ {
                    declare(env, segs[1]@)
                } else {
                    Ok(env)
                }
            } else {
                Ok(env)
            },
            ImportPath::RelativeMulti(_) => Ok(env),
        },
        _ => Ok(env),
    }
}

/// The first pass over items, in order.
pub open spec fn decl_items(env: Env, items: Seq<Item>) -> Result<Env, Seq<char>>
    decreases items.len(),
{
    if items.len() == 0 {
        Ok(env)
    } else {
        match decl_items(env, items.drop_last()) {
            Ok(e1) => decl_item(e1, items.last()),
            Err(m) => Err(m),
        }
    }
}

/// The second pass over a program: the bodies of workers and functions.
pub open spec fn chk_items(env: Env, items: Seq<Item>) -> Result<Env, Seq<char>>
    decreases items.len(),
{
    if items.len() == 0 {
        Ok(env)
    } else {
        match chk_items(env, items.drop_last()) {
            Ok(e1) => match items.last() {
                Item::Worker(w) => chk_callable(e1, w.params@, w.body),
                Item::Function(f) => chk_callable(e1, f.params@, f.body),
                _ => Ok(e1),
            },
            Err(m) => Err(m),
        }
    }
}

/// The outcome of checking a program in an environment: the message of the
/// first error, or the environment after both passes.
pub open spec fn chk_program(env: Env, p: Program) -> Result<Env, Seq<char>> {
    match decl_items(env, p.items@) {
        Ok(e1) => chk_items(e1, p.items@),
        Err(m) => Err(m),
    }
}

/// The names of the global scope: the built-ins.
pub open spec fn global_env() -> Env {
    seq![seq!["print"@, "cat"@]]
}

/// Whether the result of a checking step agrees with its specification:
/// on success the scope holds the names the specification computes and is
/// as deep as before; on failure the error is a type error with the
/// specification's message.
pub open spec fn step_ok<T>(
    spec_r: Result<Env, Seq<char>>,
    r: Result<T, CompileError>,
    before: Scope,
    after: Scope,
) -> bool {
    match spec_r {
        Ok(env) => r is Ok && after.wf() && after.env() == env && after.parent_spec()
            == before.parent_spec(),
        Err(m) => r matches Err(CompileError::TypeError { message }) && message@ == m,
    }
}

/// Once `chk_exprs` fails on a prefix, it fails the same way on every longer prefix.
proof fn lemma_exprs_err(env: Env, es: Seq<Expr>, k: int, j: int)
    requires
        0 <= k <= j <= es.len(),
        chk_exprs(env, es.take(k)) is Err,
    ensures
        chk_exprs(env, es.take(j)) == chk_exprs(env, es.take(k)),
    decreases j - k,
{
    if j > k {
        lemma_exprs_err(env, es, k, j - 1);
        assert(es.take(j).drop_last() =~= es.take(j - 1));
    }
}

/// Once `chk_fields` fails on a prefix, it fails the same way on every longer prefix.
proof fn lemma_fields_err(env: Env, es: Seq<ObjectField>, k: int, j: int)
    requires
        0 <= k <= j <= es.len(),
        chk_fields(env, es.take(k)) is Err,
    ensures
        chk_fields(env, es.take(j)) == chk_fields(env, es.take(k)),
    decreases j - k,
{
    if j > k {
        lemma_fields_err(env, es, k, j - 1);
        assert(es.take(j).drop_last() =~= es.take(j - 1));
    }
}

/// Once `chk_stmts` fails on a prefix, it fails the same way on every longer prefix.
proof fn lemma_stmts_err(env: Env, es: Seq<Statement>, k: int, j: int)
    requires
        0 <= k <= j <= es.len(),
        chk_stmts(env, es.take(k)) is Err,
    ensures
        chk_stmts(env, es.take(j)) == chk_stmts(env, es.take(k)),
    decreases j - k,
{
    if j > k {
        lemma_stmts_err(env, es, k, j - 1);
        assert(es.take(j).drop_last() =~= es.take(j - 1));
    }
}

/// Once `declare_pat_fields` fails on a prefix, it fails the same way on every longer prefix.
proof fn lemma_pat_fields_err(env: Env, es: Seq<crate::ast::ObjectPatternField>, k: int, j: int)
    requires
        0 <= k <= j <= es.len(),
        declare_pat_fields(env, es.take(k)) is Err,
    ensures
        declare_pat_fields(env, es.take(j)) == declare_pat_fields(env, es.take(k)),
    decreases j - k,
{
    if j > k {
        lemma_pat_fields_err(env, es, k, j - 1);
        assert(es.take(j).drop_last() =~= es.take(j - 1));
    }
}

/// Once `declare_names` fails on a prefix, it fails the same way on every longer prefix.
proof fn lemma_names_err(env: Env, es: Seq<Seq<char>>, k: int, j: int)
    requires
        0 <= k <= j <= es.len(),
        declare_names(env, es.take(k)) is Err,
    ensures
        declare_names(env, es.take(j)) == declare_names(env, es.take(k)),
    decreases j - k,
{
    if j > k {
        lemma_names_err(env, es, k, j - 1);
        assert(es.take(j).drop_last() =~= es.take(j - 1));
    }
}

/// Once `decl_items` fails on a prefix, it fails the same way on every longer prefix.
proof fn lemma_decl_items_err(env: Env, es: Seq<Item>, k: int, j: int)
    requires
        0 <= k <= j <= es.len(),
        decl_items(env, es.take(k)) is Err,
    ensures
        decl_items(env, es.take(j)) == decl_items(env, es.take(k)),
    decreases j - k,
{
    if j > k {
        lemma_decl_items_err(env, es, k, j - 1);
        assert(es.take(j).drop_last() =~= es.take(j - 1));
    }
}

/// Once `chk_items` fails on a prefix, it fails the same way on every longer prefix.
proof fn lemma_chk_items_err(env: Env, es: Seq<Item>, k: int, j: int)
    requires
        0 <= k <= j <= es.len(),
        chk_items(env, es.take(k)) is Err,
    ensures
        chk_items(env, es.take(j)) == chk_items(env, es.take(k)),
    decreases j - k,
{
    if j > k {
        lemma_chk_items_err(env, es, k, j - 1);
        assert(es.take(j).drop_last() =~= es.take(j - 1));
    }
}

/// The type of a field of an object type, or `Unknown`.
fn field_type(fields: &Vec<(String, Type)>, key: &str) -> (r: Type)
    ensures
        ({
            let v = type_fields_view(fields@);
            let j = field_index(v, key@);
            r@ == (if j >= 0 {
                v[j].1
            } else {
                TypeView::Unknown
            })
        }),
{
    let ghost v = type_fields_view(fields@);
    proof {
        lemma_type_fields_view(fields@);
    }
    let mut found: Option<usize> = None;
    let mut i: usize = 0;
    while i < fields.len()
        invariant
            i <= fields.len(),
            v == type_fields_view(fields@),
            v.len() == fields.len(),
            found == (if field_index(v.take(i as int), key@) >= 0 {
                Some(field_index(v.take(i as int), key@) as usize)
            } else {
                None::<usize>
            }),
            field_index(v.take(i as int), key@) < i,
        decreases fields.len() - i,
    {
        proof {
            assert(v.take(i + 1).drop_last() =~= v.take(i as int));
            lemma_type_fields_view(fields@);
            assert(v[i as int] == (fields@[i as int].0@, type_view(fields@[i as int].1)));
        }
        if str_eq(fields[i].0.as_str(), key) {
            found = Some(i);
        }
        i = i + 1;
    }
    proof {
        assert(v.take(fields.len() as int) =~= v);
        lemma_type_fields_view(fields@);
    }
    match found {
        Some(j) => fields[j].1.duplicate(),
        None => Type::Unknown,
    }
}

/// The type checker: walks a program with a symbol table.
pub struct TypeChecker {
    scope: Scope,
}

impl TypeChecker {
    /// The current scope.
    pub closed spec fn scope_spec(self) -> Scope {
        self.scope
    }

    /// A checker whose current scope is the global scope.
    pub fn new() -> (r: TypeChecker)
        ensures
            r.scope_spec().wf(),
            r.scope_spec().env() == global_env(),
            r.scope_spec().depth_spec() == 0,
    {
        let scope = Scope::new_global();
        proof {
            reveal_strlit("print");
            reveal_strlit("cat");
            assert(symbol_names(scope.symbols@) =~= seq!["print"@, "cat"@]);
        }
        TypeChecker { scope }
    }

    /// Enters a new scope inside the current one.
    fn enter_scope(&mut self)
        requires
            old(self).scope.wf(),
        ensures
            final(self).scope.wf(),
            final(self).scope.parent_spec() == Some(old(self).scope),
            final(self).scope.env() == old(self).scope.env().push(Seq::<Seq<char>>::empty()),
    {
        let mut parent = Scope::placeholder();
        std::mem::swap(&mut parent, &mut self.scope);
        self.scope = Scope::new_child(parent);
    }

    /// Leaves the current scope for the one that encloses it.
    fn exit_scope(&mut self)
        requires
            old(self).scope.wf(),
            old(self).scope.parent_spec() is Some,
        ensures
            final(self).scope == old(self).scope.parent_spec()->Some_0,
            final(self).scope.wf(),
            final(self).scope.env() == old(self).scope.env().drop_last(),
    {
        let mut child = Scope::placeholder();
        std::mem::swap(&mut child, &mut self.scope);
        match child.take_parent() {
            Some(p) => {
                self.scope = p;
            },
            None => {},
        }
    }

    /// Checks a program: first declares its items, then checks the bodies
    /// of its workers and functions.
    pub fn check_program(&mut self, program: &Program) -> (r: Result<(), CompileError>)
        requires
            old(self).scope_spec().wf(),
        ensures
            match chk_program(old(self).scope_spec().env(), *program) {
                Ok(env) => r is Ok && final(self).scope_spec().wf() && final(self).scope_spec().env()
                    == env,
                Err(m) => r matches Err(CompileError::TypeError { message }) && message@ == m,
            },
    {
        let items = &program.items;
        let ghost env0 = self.scope.env();
        let ghost s0 = self.scope;
        let mut i: usize = 0;
        while i < items.len()
            invariant
                i <= items.len(),
                items == &program.items,
                env0 == old(self).scope.env(),
                decl_items(env0, items@.take(i as int)) == Ok::<Env, Seq<char>>(self.scope.env()),
                self.scope.wf(),
                self.scope.parent_spec() == s0.parent_spec(),
            decreases items.len() - i,
        {
            proof {
                assert(items@.take(i + 1).drop_last() =~= items@.take(i as int));
            }
            match self.declare_item(&items[i]) {
                Ok(()) => {},
                Err(e) => {
                    proof {
                        lemma_decl_items_err(env0, items@, i + 1, items.len() as int);
                        assert(items@.take(items.len() as int) =~= items@);
                    }
                    return Err(e);
                },
            }
            i = i + 1;
        }
        proof {
            assert(items@.take(items.len() as int) =~= items@);
        }
        let ghost env1 = self.scope.env();
        let mut i: usize = 0;
        while i < items.len()
            invariant
                i <= items.len(),
                items == &program.items,
                env0 == old(self).scope.env(),
                decl_items(env0, items@) == Ok::<Env, Seq<char>>(env1),
                chk_items(env1, items@.take(i as int)) == Ok::<Env, Seq<char>>(self.scope.env()),
                self.scope.wf(),
            decreases items.len() - i,
        {
            proof {
                assert(items@.take(i + 1).drop_last() =~= items@.take(i as int));
            }
            let res = match &items[i] {
                Item::Worker(w) => self.check_callable(&w.params, &w.body, true),
                Item::Function(f) => self.check_callable(&f.params, &f.body, false),
                _ => Ok(()),
            };
            match res {
                Ok(()) => {},
                Err(e) => {
                    proof {
                        lemma_chk_items_err(env1, items@, i + 1, items.len() as int);
                        assert(items@.take(items.len() as int) =~= items@);
                    }
                    return Err(e);
                },
            }
            i = i + 1;
        }
        proof {
            assert(items@.take(items.len() as int) =~= items@);
        }
        Ok(())
    }

    /// The first pass for one item.
    fn declare_item(&mut self, item: &Item) -> (r: Result<(), CompileError>)
        requires
            old(self).scope.wf(),
        ensures
            step_ok(decl_item(old(self).scope.env(), *item), r, old(self).scope, final(self).scope),
    {
        match item {
            Item::Worker(w) => self.scope.add_symbol(
                w.name.to_owned(),
                function_type(param_types(&w.params), Type::Void),
                SymbolKind::Worker,
            ),
            Item::Function(f) => self.scope.add_symbol(
                f.name.to_owned(),
                function_type(param_types(&f.params), Type::Unknown),
                SymbolKind::Function,
            ),
            Item::Type(t) => self.scope.add_symbol(
                t.name.to_owned(),
                Type::from_type_expr(&t.type_expr),
                SymbolKind::TypeAlias,
            ),
            Item::Import(decl) => match &decl.path {
                ImportPath::Simple(segments) => {
                    if segments.len() == 2 && str_eq(segments[0], "std") {
                        if str_eq(segments[1], "log") {
                            let ty = function_type(Vec::new(), Type::Void);
                            self.scope.add_symbol("log".to_owned(), ty, SymbolKind::Function)
                        } else if str_eq(segments[1], "cat") {
                            let ty = function_type(one_type(Type::Unknown), Type::String);
                            self.scope.add_symbol("cat".to_owned(), ty, SymbolKind::Function)
                        } else {
                            Ok(())
                        }
                    } else {
                        Ok(())
                    }
                },
                ImportPath::RelativeMulti(_) => Ok(()),
            },
            _ => Ok(()),
        }
    }
}

/// The declared types of some parameters (`Unknown` where none is given).
fn param_types(params: &Vec<Param>) -> (r: Vec<Type>)
    ensures
        r@.len() == params@.len(),
{
    let mut out: Vec<Type> = Vec::new();
    let mut i: usize = 0;
    while i < params.len()
        invariant
            i <= params.len(),
            out@.len() == i,
        decreases params.len() - i,
    {
        let t = match &params[i].type_ann {
            Some(te) => Type::from_type_expr(te),
            None => Type::Unknown,
        };
        out.push(t);
        i = i + 1;
    }
    out
}

/// The type of `self` in a worker: an object whose field `session` is a
/// `SessionContext`.
pub open spec fn worker_self_view() -> TypeView {
    TypeView::Object(seq![("session"@, TypeView::Named("SessionContext"@))])
}

/// The type of `self` in a function: an object whose field `session` is a
/// `SessionContext` and whose field `delegate` is a function from anything
/// to a `Session`.
pub open spec fn function_self_view() -> TypeView {
    TypeView::Object(
        seq![
            ("session"@, TypeView::Named("SessionContext"@)),
            (
                "delegate"@,
                TypeView::Function {
                    params: seq![TypeView::Unknown],
                    ret: Box::new(TypeView::Named("Session"@)),
                },
            ),
        ],
    )
}

/// The type of `self` in a worker: an object with the session.
fn worker_self_type() -> (r: Type)
    ensures
        r@ == worker_self_view(),
{
    let mut fields: Vec<(String, Type)> = Vec::new();
    fields.push(("session".to_owned(), Type::Named("SessionContext".to_owned())));
    proof {
        lemma_type_fields_view(fields@);
        assert(type_fields_view(fields@) =~= seq![("session"@, TypeView::Named("SessionContext"@))]);
    }
    Type::Object(fields)
}

/// The type of `self` in a function: an object with the session and `delegate`.
fn function_self_type() -> (r: Type)
    ensures
        r@ == function_self_view(),
{
    let mut fields: Vec<(String, Type)> = Vec::new();
    fields.push(("session".to_owned(), Type::Named("SessionContext".to_owned())));
    let delegate = function_type(one_type(Type::Unknown), Type::Named("Session".to_owned()));
    fields.push(("delegate".to_owned(), delegate));
    proof {
        lemma_type_fields_view(fields@);
        assert(type_fields_view(fields@) =~= function_self_view()->Object_0);
    }
    Type::Object(fields)
}

impl TypeChecker {
    /// Checks a worker (`is_worker`) or function: `self` and the parameters
    /// in a new scope, then the body.
    fn check_callable(&mut self, params: &Vec<Param>, body: &Block, is_worker: bool) -> (r: Result<
        (),
        CompileError,
    >)
        requires
            old(self).scope.wf(),
        ensures
            step_ok(
                chk_callable(old(self).scope.env(), params@, *body),
                r,
                old(self).scope,
                final(self).scope,
            ),
    {
        let ghost s0 = self.scope;
        let ghost env0 = self.scope.env();
        self.enter_scope();
        let ghost s1 = self.scope;
        let ghost ns = seq!["self"@] + param_names(params@);
        let self_ty = if is_worker {
            worker_self_type()
        } else {
            function_self_type()
        };
        proof {
            reveal_strlit("self");
            assert(ns.take(0) =~= Seq::<Seq<char>>::empty());
            assert(ns.take(1).drop_last() =~= ns.take(0));
            assert(ns.take(1).last() == "self"@);
            assert(declare_names(env0.push(Seq::empty()), ns.take(0)) == Ok::<Env, Seq<char>>(
                env0.push(Seq::empty()),
            ));
            assert(s1.env() == env0.push(Seq::empty()));
        }
        match self.scope.add_symbol("self".to_owned(), self_ty, SymbolKind::Variable) {
            Ok(()) => {},
            Err(e) => {
                proof {
                    lemma_names_err(env0.push(Seq::empty()), ns, 1, ns.len() as int);
                    assert(ns.take(ns.len() as int) =~= ns);
                }
                return Err(e);
            },
        }
        let mut i: usize = 0;
        while i < params.len()
            invariant
                i <= params.len(),
                ns == seq!["self"@] + param_names(params@),
                env0 == old(self).scope.env(),
                declare_names(env0.push(Seq::empty()), ns.take(i + 1)) == Ok::<Env, Seq<char>>(
                    self.scope.env(),
                ),
                self.scope.wf(),
                self.scope.parent_spec() == Some(s0),
            decreases params.len() - i,
        {
            proof {
                assert(ns.take(i + 2).drop_last() =~= ns.take(i + 1));
                assert(ns[i + 1] == params@[i as int].name@);
            }
            let ty = match &params[i].type_ann {
                Some(te) => Type::from_type_expr(te),
                None => Type::Unknown,
            };
            match self.scope.add_symbol(params[i].name.to_owned(), ty, SymbolKind::Parameter) {
                Ok(()) => {},
                Err(e) => {
                    proof {
                        lemma_names_err(env0.push(Seq::empty()), ns, i + 2, ns.len() as int);
                        assert(ns.take(ns.len() as int) =~= ns);
                    }
                    return Err(e);
                },
            }
            i = i + 1;
        }
        proof {
            assert(ns.take(params.len() + 1) =~= ns);
        }
        match self.check_block(body) {
            Ok(()) => {},
            Err(e) => {
                return Err(e);
            },
        }
        self.exit_scope();
        Ok(())
    }

    /// Checks a block in the current scope.
    fn check_block(&mut self, block: &Block) -> (r: Result<(), CompileError>)
        requires
            old(self).scope.wf(),
        ensures
            step_ok(chk_block(old(self).scope.env(), *block), r, old(self).scope, final(self).scope),
        decreases block,
    {
        self.check_stmts(&block.statements)
    }

    /// Checks statements in order.
    fn check_stmts(&mut self, ss: &Vec<Statement>) -> (r: Result<(), CompileError>)
        requires
            old(self).scope.wf(),
        ensures
            step_ok(chk_stmts(old(self).scope.env(), ss@), r, old(self).scope, final(self).scope),
        decreases ss,
    {
        let ghost env0 = self.scope.env();
        let ghost s0 = self.scope;
        let mut i: usize = 0;
        while i < ss.len()
            invariant
                i <= ss.len(),
                env0 == old(self).scope.env(),
                s0 == old(self).scope,
                chk_stmts(env0, ss@.take(i as int)) == Ok::<Env, Seq<char>>(self.scope.env()),
                self.scope.wf(),
                self.scope.parent_spec() == s0.parent_spec(),
            decreases ss.len() - i,
        {
            proof {
                assert(ss@.take(i + 1).drop_last() =~= ss@.take(i as int));
            }
            match self.check_statement(&ss[i]) {
                Ok(()) => {},
                Err(e) => {
                    proof {
                        lemma_stmts_err(env0, ss@, i + 1, ss.len() as int);
                        assert(ss@.take(ss.len() as int) =~= ss@);
                    }
                    return Err(e);
                },
            }
            i = i + 1;
        }
        proof {
            assert(ss@.take(ss.len() as int) =~= ss@);
        }
        Ok(())
    }

    /// Checks a statement.
    fn check_statement(&mut self, stmt: &Statement) -> (r: Result<(), CompileError>)
        requires
            old(self).scope.wf(),
        ensures
            step_ok(chk_stmt(old(self).scope.env(), *stmt), r, old(self).scope, final(self).scope),
        decreases stmt,
    {
        match stmt {
            Statement::VarDecl { pattern, init } => {
                let init_type = match init {
                    Some(e) => match self.check_expr(e) {
                        Ok(t) => t,
                        Err(err) => {
                            return Err(err);
                        },
                    },
                    None => Type::Unknown,
                };
                self.declare_pattern(pattern, init_type)
            },
            Statement::Expr(e) => match self.check_expr(e) {
                Ok(_) => Ok(()),
                Err(err) => Err(err),
            },
            Statement::If { condition, then_block, else_block } => {
                match self.check_expr(condition) {
                    Ok(_) => {},
                    Err(err) => {
                        return Err(err);
                    },
                }
                match self.check_block(then_block) {
                    Ok(()) => {},
                    Err(err) => {
                        return Err(err);
                    },
                }
                match else_block {
                    Some(b) => self.check_block(b),
                    None => Ok(()),
                }
            },
            Statement::For { var, iter, body } => {
                match self.check_expr(iter) {
                    Ok(_) => {},
                    Err(err) => {
                        return Err(err);
                    },
                }
                let ghost s1 = self.scope;
                self.enter_scope();
                match self.scope.add_symbol((*var).to_owned(), Type::Unknown, SymbolKind::Variable) {
                    Ok(()) => {},
                    Err(err) => {
                        return Err(err);
                    },
                }
                match self.check_block(body) {
                    Ok(()) => {},
                    Err(err) => {
                        return Err(err);
                    },
                }
                self.exit_scope();
                Ok(())
            },
            Statement::While { condition, body } => {
                match self.check_expr(condition) {
                    Ok(_) => {},
                    Err(err) => {
                        return Err(err);
                    },
                }
                self.check_block(body)
            },
            Statement::Return(r) => match r {
                Some(e) => match self.check_expr(e) {
                    Ok(_) => Ok(()),
                    Err(err) => Err(err),
                },
                None => Ok(()),
            },
            Statement::TypeDecl { name, type_expr } => {
                let ty = Type::from_type_expr(type_expr);
                self.scope.add_symbol((*name).to_owned(), ty, SymbolKind::TypeAlias)
            },
            Statement::Succeed | Statement::Fail | Statement::Break => Ok(()),
        }
    }

    /// Declares the names a pattern binds; `init_type` is the type of the
    /// value the pattern takes apart.
    fn declare_pattern(&mut self, pattern: &Pattern, init_type: Type) -> (r: Result<
        (),
        CompileError,
    >)
        requires
            old(self).scope.wf(),
        ensures
            step_ok(
                declare_pat(old(self).scope.env(), *pattern),
                r,
                old(self).scope,
                final(self).scope,
            ),
        decreases pattern,
    {
        match pattern {
            Pattern::Identifier { name, type_ann } => {
                let ty = match type_ann {
                    Some(ann) => Type::from_type_expr(ann),
                    None => init_type,
                };
                self.scope.add_symbol((*name).to_owned(), ty, SymbolKind::Variable)
            },
            Pattern::Object(fields) => self.declare_pattern_fields(fields, &init_type),
        }
    }

    /// Declares the names the fields of an object pattern bind.
    fn declare_pattern_fields(
        &mut self,
        fields: &Vec<crate::ast::ObjectPatternField>,
        init_type: &Type,
    ) -> (r: Result<(), CompileError>)
        requires
            old(self).scope.wf(),
        ensures
            step_ok(
                declare_pat_fields(old(self).scope.env(), fields@),
                r,
                old(self).scope,
                final(self).scope,
            ),
        decreases fields,
    {
        let ghost env0 = self.scope.env();
        let ghost s0 = self.scope;
        let mut i: usize = 0;
        while i < fields.len()
            invariant
                i <= fields.len(),
                env0 == old(self).scope.env(),
                s0 == old(self).scope,
                declare_pat_fields(env0, fields@.take(i as int)) == Ok::<Env, Seq<char>>(
                    self.scope.env(),
                ),
                self.scope.wf(),
                self.scope.parent_spec() == s0.parent_spec(),
            decreases fields.len() - i,
        {
            proof {
                assert(fields@.take(i + 1).drop_last() =~= fields@.take(i as int));
            }
            let field_ty = match init_type {
                Type::Object(obj_fields) => field_type(obj_fields, fields[i].key),
                _ => Type::Unknown,
            };
            match self.declare_pattern(&fields[i].pattern, field_ty) {
                Ok(()) => {},
                Err(e) => {
                    proof {
                        lemma_pat_fields_err(env0, fields@, i + 1, fields.len() as int);
                        assert(fields@.take(fields.len() as int) =~= fields@);
                    }
                    return Err(e);
                },
            }
            i = i + 1;
        }
        proof {
            assert(fields@.take(fields.len() as int) =~= fields@);
        }
        Ok(())
    }

    /// Looks up a name that an expression reads.
    fn check_name(&self, name: &str) -> (r: Result<Type, CompileError>)
        requires
            self.scope.wf(),
        ensures
            in_env(self.scope.env(), name@) ==> r is Ok,
            !in_env(self.scope.env(), name@) ==> (r matches Err(
                CompileError::TypeError { message },
            ) && message@ == undef_msg(name@)),
            r matches Ok(t) ==> t@ == name_type(self.scope, name@),
    {
        proof {
            lemma_lookup_iff_in_env(self.scope, name@);
        }
        match self.scope.lookup(name) {
            Some(symbol) => Ok(symbol.ty.duplicate()),
            None => Err(type_error(cat3("Undefined variable '", name, "'"))),
        }
    }

    /// Checks an expression and infers its type.
    fn check_expr(&mut self, expr: &Expr) -> (r: Result<Type, CompileError>)
        requires
            old(self).scope.wf(),
        ensures
            step_ok(chk_expr(old(self).scope.env(), *expr), r, old(self).scope, final(self).scope),
            !has_do(*expr) ==> final(self).scope == old(self).scope,
            !has_do(*expr) ==> (r matches Ok(t) ==> t@ == expr_type(old(self).scope, *expr)),
        decreases expr,
    {
        match expr {
            Expr::Identifier(name) => self.check_name(name),
            Expr::Number(_) => Ok(Type::Number),
            Expr::String(_) => Ok(Type::String),
            Expr::True | Expr::False => Ok(Type::Bool),
            Expr::Array(elements) => match self.check_exprs(elements) {
                Ok(first) => Ok(Type::Array(Box::new(first))),
                Err(e) => Err(e),
            },
            Expr::Task(elements) => match self.check_exprs(elements) {
                Ok(_) => Ok(Type::Unknown),
                Err(e) => Err(e),
            },
            Expr::Object(fields) => match self.check_fields(fields) {
                Ok(field_types) => Ok(Type::Object(field_types)),
                Err(e) => Err(e),
            },
            Expr::Binary { op, left, right } => {
                match self.check_expr(left) {
                    Ok(_) => {},
                    Err(e) => {
                        return Err(e);
                    },
                }
                let right_type = match self.check_expr(right) {
                    Ok(t) => t,
                    Err(e) => {
                        return Err(e);
                    },
                };
                match op {
                    BinOp::Add | BinOp::Sub | BinOp::Mul | BinOp::Div => Ok(Type::Number),
                    BinOp::Eq | BinOp::NotEq | BinOp::Lt | BinOp::Gt => Ok(Type::Bool),
                    BinOp::And | BinOp::Or => Ok(Type::Bool),
                    BinOp::Assign => Ok(right_type),
                    _ => Ok(Type::Unknown),
                }
            },
            Expr::Unary { op, operand } => {
                match self.check_expr(operand) {
                    Ok(_) => {},
                    Err(e) => {
                        return Err(e);
                    },
                }
                match op {
                    UnOp::Not => Ok(Type::Bool),
                    UnOp::Neg => Ok(Type::Number),
                    UnOp::Throw => Ok(Type::Void),
                }
            },
            Expr::Call { callee, args } => {
                let callee_type = match &**callee {
                    Expr::Identifier(name) => match self.scope.lookup(name) {
                        Some(symbol) => symbol.ty.duplicate(),
                        None => Type::Unknown,
                    },
                    _ => match self.check_expr(callee) {
                        Ok(t) => t,
                        Err(e) => {
                            return Err(e);
                        },
                    },
                };
                match self.check_exprs(args) {
                    Ok(_) => {},
                    Err(e) => {
                        return Err(e);
                    },
                }
                match callee_type {
                    Type::Function { params: _, ret } => Ok(*ret),
                    _ => Ok(Type::Unknown),
                }
            },
            Expr::Member { object, field } => {
                let obj_type = match self.check_expr(object) {
                    Ok(t) => t,
                    Err(e) => {
                        return Err(e);
                    },
                };
                match obj_type {
                    Type::Object(fields) => Ok(field_type(&fields, field)),
                    _ => Ok(Type::Unknown),
                }
            },
            Expr::Index { object, index } => {
                let obj_type = match self.check_expr(object) {
                    Ok(t) => t,
                    Err(e) => {
                        return Err(e);
                    },
                };
                match self.check_expr(index) {
                    Ok(_) => {},
                    Err(e) => {
                        return Err(e);
                    },
                }
                match obj_type {
                    Type::Array(elem) => Ok(*elem),
                    _ => Ok(Type::Unknown),
                }
            },
            Expr::Paren(inner) => self.check_expr(inner),
            Expr::Await(inner) => self.check_expr(inner),
            Expr::Think(_) | Expr::Ask(_) => Ok(Type::Unknown),
            Expr::Do(block) => match self.check_block(block) {
                Ok(()) => Ok(Type::Unknown),
                Err(e) => Err(e),
            },
            Expr::BareCommand { .. } | Expr::CommandSubst(_) => Ok(Type::String),
            Expr::ShellPipe { left, right } | Expr::ShellAnd { left, right } | Expr::ShellOr {
                left,
                right,
            } => {
                match self.check_expr(left) {
                    Ok(_) => {},
                    Err(e) => {
                        return Err(e);
                    },
                }
                match self.check_expr(right) {
                    Ok(_) => Ok(Type::String),
                    Err(e) => Err(e),
                }
            },
            Expr::ShellRedirect { command, op: _, target } => {
                match self.check_expr(command) {
                    Ok(_) => {},
                    Err(e) => {
                        return Err(e);
                    },
                }
                match self.check_expr(target) {
                    Ok(_) => Ok(Type::String),
                    Err(e) => Err(e),
                }
            },
            Expr::PostIncrement(inner) | Expr::PostDecrement(inner) => match self.check_expr(
                inner,
            ) {
                Ok(_) => Ok(Type::Number),
                Err(e) => Err(e),
            },
        }
    }

    /// Checks expressions left to right; the type of the first one (or
    /// `Unknown`) is returned.
    fn check_exprs(&mut self, es: &Vec<Expr>) -> (r: Result<Type, CompileError>)
        requires
            old(self).scope.wf(),
        ensures
            step_ok(chk_exprs(old(self).scope.env(), es@), r, old(self).scope, final(self).scope),
            !has_do_list(es@) ==> final(self).scope == old(self).scope,
            !has_do_list(es@) ==> (r matches Ok(t) ==> t@ == first_type(old(self).scope, es@)),
        decreases es,
    {
        let ghost env0 = self.scope.env();
        let ghost s0 = self.scope;
        let mut first = Type::Unknown;
        let mut i: usize = 0;
        while i < es.len()
            invariant
                i <= es.len(),
                env0 == old(self).scope.env(),
                s0 == old(self).scope,
                chk_exprs(env0, es@.take(i as int)) == Ok::<Env, Seq<char>>(self.scope.env()),
                self.scope.wf(),
                self.scope.parent_spec() == s0.parent_spec(),
                !has_do_list(es@) ==> self.scope == s0,
                !has_do_list(es@) ==> first@ == (if i == 0 {
                    TypeView::Unknown
                } else {
                    expr_type(s0, es@[0])
                }),
            decreases es.len() - i,
        {
            proof {
                assert(es@.take(i + 1).drop_last() =~= es@.take(i as int));
                if !has_do_list(es@) {
                    lemma_no_do_list(es@);
                    assert(!has_do(es@[i as int]));
                }
            }
            match self.check_expr(&es[i]) {
                Ok(t) => {
                    if i == 0 {
                        first = t;
                    }
                },
                Err(e) => {
                    proof {
                        lemma_exprs_err(env0, es@, i + 1, es.len() as int);
                        assert(es@.take(es.len() as int) =~= es@);
                    }
                    return Err(e);
                },
            }
            i = i + 1;
        }
        proof {
            assert(es@.take(es.len() as int) =~= es@);
        }
        Ok(first)
    }

    /// Checks the fields of an object literal and infers their types.
    fn check_fields(&mut self, fs: &Vec<ObjectField>) -> (r: Result<
        Vec<(String, Type)>,
        CompileError,
    >)
        requires
            old(self).scope.wf(),
        ensures
            step_ok(chk_fields(old(self).scope.env(), fs@), r, old(self).scope, final(self).scope),
            !has_do_fields(fs@) ==> final(self).scope == old(self).scope,
            !has_do_fields(fs@) ==> (r matches Ok(v) ==> type_fields_view(v@) == fields_types(
                old(self).scope,
                fs@,
            )),
        decreases fs,
    {
        let ghost env0 = self.scope.env();
        let ghost s0 = self.scope;
        let mut field_types: Vec<(String, Type)> = Vec::new();
        let mut i: usize = 0;
        while i < fs.len()
            invariant
                i <= fs.len(),
                env0 == old(self).scope.env(),
                s0 == old(self).scope,
                chk_fields(env0, fs@.take(i as int)) == Ok::<Env, Seq<char>>(self.scope.env()),
                self.scope.wf(),
                self.scope.parent_spec() == s0.parent_spec(),
                !has_do_fields(fs@) ==> self.scope == s0,
                !has_do_fields(fs@) ==> type_fields_view(field_types@) == fields_types(
                    s0,
                    fs@.take(i as int),
                ),
            decreases fs.len() - i,
        {
            proof {
                assert(fs@.take(i + 1).drop_last() =~= fs@.take(i as int));
                if !has_do_fields(fs@) {
                    lemma_no_do_fields(fs@);
                    assert(fs@[i as int].value matches Some(v) ==> !has_do(v));
                }
            }
            let res = match &fs[i].value {
                Some(v) => self.check_expr(v),
                None => self.check_name(fs[i].key),
            };
            match res {
                Ok(t) => {
                    let ghost before = type_fields_view(field_types@);
                    set_field_exec(&mut field_types, fs[i].key.to_owned(), t);
                    proof {
                        if !has_do_fields(fs@) {
                            assert(fs@.take(i + 1).last() == fs@[i as int]);
                        }
                    }
                },
                Err(e) => {
                    proof {
                        lemma_fields_err(env0, fs@, i + 1, fs.len() as int);
                        assert(fs@.take(fs.len() as int) =~= fs@);
                    }
                    return Err(e);
                },
            }
            i = i + 1;
        }
        proof {
            assert(fs@.take(fs.len() as int) =~= fs@);
        }
        Ok(field_types)
    }
}

/// `e` has the scopes of `env`, all but the innermost unchanged.
pub open spec fn keeps_outer(env: Env, e: Env) -> bool {
    &&& e.len() == env.len()
    &&& forall|i: int| 0 <= i < env.len() - 1 ==> #[trigger] e[i] == env[i]
}

/// Keeping the outer scopes is transitive.
proof fn lemma_keeps_outer_trans(a: Env, b: Env, c: Env)
    requires
        keeps_outer(a, b),
        keeps_outer(b, c),
    ensures
        keeps_outer(a, c),
{
    assert forall|i: int| 0 <= i < a.len() - 1 implies #[trigger] c[i] == a[i] by {
        assert(c[i] == b[i]);
    }
}

/// Declaring a name keeps the outer scopes.
proof fn lemma_declare_outer(env: Env, n: Seq<char>)
    requires
        env.len() >= 1,
    ensures
        declare(env, n) matches Ok(e) ==> keeps_outer(env, e),
{
}

/// Checking keeps the outer scopes.
proof fn lemma_pat_outer(env: Env, p: Pattern)
    requires
        env.len() >= 1,
    ensures
        declare_pat(env, p) matches Ok(e) ==> keeps_outer(env, e),
    decreases p, 0nat,
{
    match p {
        Pattern::Identifier { name, type_ann: _ } => lemma_declare_outer(env, name@),
        Pattern::Object(fs) => lemma_pat_fields_outer(env, fs@),
    }
}

/// Checking keeps the outer scopes.
proof fn lemma_pat_fields_outer(env: Env, fs: Seq<crate::ast::ObjectPatternField>)
    requires
        env.len() >= 1,
    ensures
        declare_pat_fields(env, fs) matches Ok(e) ==> keeps_outer(env, e),
    decreases fs, 1nat,
{
    if fs.len() > 0 {
        lemma_pat_fields_outer(env, fs.drop_last());
        match declare_pat_fields(env, fs.drop_last()) {
            Ok(e1) => {
                lemma_pat_outer(e1, fs.last().pattern);
                if declare_pat(e1, fs.last().pattern) is Ok {
                    lemma_keeps_outer_trans(env, e1, declare_pat(e1, fs.last().pattern)->Ok_0);
                }
            },
            Err(_) => {},
        }
    }
}

/// Checking keeps the outer scopes.
proof fn lemma_expr_outer(env: Env, e: Expr)
    requires
        env.len() >= 1,
    ensures
        chk_expr(env, e) matches Ok(r) ==> keeps_outer(env, r),
    decreases e, 0nat,
{
    match e {
        Expr::Array(items) => lemma_exprs_outer(env, items@),
        Expr::Task(items) => lemma_exprs_outer(env, items@),
        Expr::Object(fs) => lemma_fields_outer(env, fs@),
        Expr::Binary { op: _, left, right } => {
            lemma_expr_outer(env, *left);
            match chk_expr(env, *left) {
                Ok(e1) => {
                    lemma_expr_outer(e1, *right);
                    if chk_expr(e1, *right) is Ok {
                        lemma_keeps_outer_trans(env, e1, chk_expr(e1, *right)->Ok_0);
                    }
                },
                Err(_) => {},
            }
        },
        Expr::ShellPipe { left, right } => {
            lemma_expr_outer(env, *left);
            match chk_expr(env, *left) {
                Ok(e1) => {
                    lemma_expr_outer(e1, *right);
                    if chk_expr(e1, *right) is Ok {
                        lemma_keeps_outer_trans(env, e1, chk_expr(e1, *right)->Ok_0);
                    }
                },
                Err(_) => {},
            }
        },
        Expr::ShellAnd { left, right } => {
            lemma_expr_outer(env, *left);
            match chk_expr(env, *left) {
                Ok(e1) => {
                    lemma_expr_outer(e1, *right);
                    if chk_expr(e1, *right) is Ok {
                        lemma_keeps_outer_trans(env, e1, chk_expr(e1, *right)->Ok_0);
                    }
                },
                Err(_) => {},
            }
        },
        Expr::ShellOr { left, right } => {
            lemma_expr_outer(env, *left);
            match chk_expr(env, *left) {
                Ok(e1) => {
                    lemma_expr_outer(e1, *right);
                    if chk_expr(e1, *right) is Ok {
                        lemma_keeps_outer_trans(env, e1, chk_expr(e1, *right)->Ok_0);
                    }
                },
                Err(_) => {},
            }
        },
        Expr::ShellRedirect { command, op: _, target } => {
            lemma_expr_outer(env, *command);
            match chk_expr(env, *command) {
                Ok(e1) => {
                    lemma_expr_outer(e1, *target);
                    if chk_expr(e1, *target) is Ok {
                        lemma_keeps_outer_trans(env, e1, chk_expr(e1, *target)->Ok_0);
                    }
                },
                Err(_) => {},
            }
        },
        Expr::Index { object, index } => {
            lemma_expr_outer(env, *object);
            match chk_expr(env, *object) {
                Ok(e1) => {
                    lemma_expr_outer(e1, *index);
                    if chk_expr(e1, *index) is Ok {
                        lemma_keeps_outer_trans(env, e1, chk_expr(e1, *index)->Ok_0);
                    }
                },
                Err(_) => {},
            }
        },
        Expr::Unary { op: _, operand } => lemma_expr_outer(env, *operand),
        Expr::Paren(inner) => lemma_expr_outer(env, *inner),
        Expr::Await(inner) => lemma_expr_outer(env, *inner),
        Expr::PostIncrement(inner) => lemma_expr_outer(env, *inner),
        Expr::PostDecrement(inner) => lemma_expr_outer(env, *inner),
        Expr::Member { object, field: _ } => lemma_expr_outer(env, *object),
        Expr::Call { callee, args } => {
            if *callee is Identifier {
                lemma_exprs_outer(env, args@);
            } else {
                lemma_expr_outer(env, *callee);
                match chk_expr(env, *callee) {
                    Ok(e1) => {
                        lemma_exprs_outer(e1, args@);
                        if chk_exprs(e1, args@) is Ok {
                            lemma_keeps_outer_trans(env, e1, chk_exprs(e1, args@)->Ok_0);
                        }
                    },
                    Err(_) => {},
                }
            }
        },
        Expr::Do(b) => lemma_block_outer(env, b),
        _ => {},
    }
}

/// Checking keeps the outer scopes.
proof fn lemma_exprs_outer(env: Env, es: Seq<Expr>)
    requires
        env.len() >= 1,
    ensures
        chk_exprs(env, es) matches Ok(r) ==> keeps_outer(env, r),
    decreases es, 1nat,
{
    if es.len() > 0 {
        lemma_exprs_outer(env, es.drop_last());
        match chk_exprs(env, es.drop_last()) {
            Ok(e1) => {
                lemma_expr_outer(e1, es.last());
                if chk_expr(e1, es.last()) is Ok {
                    lemma_keeps_outer_trans(env, e1, chk_expr(e1, es.last())->Ok_0);
                }
            },
            Err(_) => {},
        }
    }
}

/// Checking keeps the outer scopes.
proof fn lemma_fields_outer(env: Env, fs: Seq<ObjectField>)
    requires
        env.len() >= 1,
    ensures
        chk_fields(env, fs) matches Ok(r) ==> keeps_outer(env, r),
    decreases fs, 1nat,
{
    if fs.len() > 0 {
        lemma_fields_outer(env, fs.drop_last());
        match chk_fields(env, fs.drop_last()) {
            Ok(e1) => match fs.last().value {
                Some(v) => {
                    lemma_expr_outer(e1, v);
                    if chk_expr(e1, v) is Ok {
                        lemma_keeps_outer_trans(env, e1, chk_expr(e1, v)->Ok_0);
                    }
                },
                None => {},
            },
            Err(_) => {},
        }
    }
}

/// Checking keeps the outer scopes.
proof fn lemma_block_outer(env: Env, b: Block)
    requires
        env.len() >= 1,
    ensures
        chk_block(env, b) matches Ok(r) ==> keeps_outer(env, r),
    decreases b, 0nat,
{
    lemma_stmts_outer(env, b.statements@);
}

/// Checking keeps the outer scopes.
proof fn lemma_stmts_outer(env: Env, ss: Seq<Statement>)
    requires
        env.len() >= 1,
    ensures
        chk_stmts(env, ss) matches Ok(r) ==> keeps_outer(env, r),
    decreases ss, 1nat,
{
    if ss.len() > 0 {
        lemma_stmts_outer(env, ss.drop_last());
        match chk_stmts(env, ss.drop_last()) {
            Ok(e1) => {
                lemma_stmt_outer(e1, ss.last());
                if chk_stmt(e1, ss.last()) is Ok {
                    lemma_keeps_outer_trans(env, e1, chk_stmt(e1, ss.last())->Ok_0);
                }
            },
            Err(_) => {},
        }
    }
}

/// Checking keeps the outer scopes.
proof fn lemma_stmt_outer(env: Env, st: Statement)
    requires
        env.len() >= 1,
    ensures
        chk_stmt(env, st) matches Ok(r) ==> keeps_outer(env, r),
    decreases st, 0nat,
{
    match st {
        Statement::VarDecl { pattern, init } => {
            let r0 = match init {
                Some(e) => chk_expr(env, e),
                None => Ok(env),
            };
            match init {
                Some(e) => lemma_expr_outer(env, e),
                None => {},
            }
            match r0 {
                Ok(e1) => {
                    lemma_pat_outer(e1, pattern);
                    if declare_pat(e1, pattern) is Ok {
                        lemma_keeps_outer_trans(env, e1, declare_pat(e1, pattern)->Ok_0);
                    }
                },
                Err(_) => {},
            }
        },
        Statement::Expr(e) => lemma_expr_outer(env, e),
        Statement::If { condition, then_block, else_block } => {
            lemma_expr_outer(env, condition);
            match chk_expr(env, condition) {
                Ok(e1) => {
                    lemma_block_outer(e1, then_block);
                    match chk_block(e1, then_block) {
                        Ok(e2) => {
                            lemma_keeps_outer_trans(env, e1, e2);
                            match else_block {
                                Some(b) => {
                                    lemma_block_outer(e2, b);
                                    if chk_block(e2, b) is Ok {
                                        lemma_keeps_outer_trans(env, e2, chk_block(e2, b)->Ok_0);
                                    }
                                },
                                None => {},
                            }
                        },
                        Err(_) => {},
                    }
                },
                Err(_) => {},
            }
        },
        Statement::For { var, iter, body } => {
            lemma_expr_outer(env, iter);
            match chk_expr(env, iter) {
                Ok(e1) => {
                    let p = e1.push(Seq::<Seq<char>>::empty());
                    lemma_declare_outer(p, var@);
                    match declare(p, var@) {
                        Ok(e2) => {
                            lemma_block_outer(e2, body);
                            match chk_block(e2, body) {
                                Ok(e3) => {
                                    lemma_keeps_outer_trans(p, e2, e3);
                                    let r = e3.drop_last();
                                    assert forall|i: int| 0 <= i < env.len() - 1 implies #[trigger] r[i]
                                        == env[i] by {
                                        assert(r[i] == e3[i]);
                                        assert(e3[i] == p[i]);
                                        assert(p[i] == e1[i]);
                                    }
                                },
                                Err(_) => {},
                            }
                        },
                        Err(_) => {},
                    }
                },
                Err(_) => {},
            }
        },
        Statement::While { condition, body } => {
            lemma_expr_outer(env, condition);
            match chk_expr(env, condition) {
                Ok(e1) => {
                    lemma_block_outer(e1, body);
                    if chk_block(e1, body) is Ok {
                        lemma_keeps_outer_trans(env, e1, chk_block(e1, body)->Ok_0);
                    }
                },
                Err(_) => {},
            }
        },
        Statement::Return(r) => match r {
            Some(e) => lemma_expr_outer(env, e),
            None => {},
        },
        Statement::TypeDecl { name, type_expr: _ } => lemma_declare_outer(env, name@),
        _ => {},
    }
}

/// A `for` loop's scope is dropped after its body: checking the loop leaves
/// the names as checking its iterator left them, so neither the loop
/// variable nor what the body declares is visible after it.
pub proof fn law_for_scope_dropped(env: Env, var: &str, iter: Expr, body: Block)
    requires
        env.len() >= 1,
    ensures
        chk_stmt(env, Statement::For { var, iter, body }) matches Ok(e) ==> chk_expr(env, iter) == Ok::<
            Env,
            Seq<char>,
        >(e),
{
    lemma_expr_outer(env, iter);
    match chk_expr(env, iter) {
        Ok(e1) => {
            let p = e1.push(Seq::<Seq<char>>::empty());
            lemma_declare_outer(p, var@);
            match declare(p, var@) {
                Ok(e2) => {
                    lemma_block_outer(e2, body);
                    match chk_block(e2, body) {
                        Ok(e3) => {
                            lemma_keeps_outer_trans(p, e2, e3);
                            assert(e3.drop_last() =~= e1);
                        },
                        Err(_) => {},
                    }
                },
                Err(_) => {},
            }
        },
        Err(_) => {},
    }
}

/// Whether checking an expression reads the name `n`: an identifier, a
/// field written `{n}`, or a name inside an operand, an element, a field
/// value, an argument or a called expression that is not a bare name (a
/// called name may come from outside the program).
pub open spec fn reads_name(e: Expr, n: Seq<char>) -> bool
    decreases e, 0nat,
{
    match e {
        Expr::Identifier(m) => m@ == n,
        Expr::Array(es) => reads_name_list(es@, n),
        Expr::Task(es) => reads_name_list(es@, n),
        Expr::Object(fs) => reads_name_fields(fs@, n),
        Expr::Binary { op: _, left, right } => reads_name(*left, n) || reads_name(*right, n),
        Expr::ShellPipe { left, right } => reads_name(*left, n) || reads_name(*right, n),
        Expr::ShellAnd { left, right } => reads_name(*left, n) || reads_name(*right, n),
        Expr::ShellOr { left, right } => reads_name(*left, n) || reads_name(*right, n),
        Expr::ShellRedirect { command, op: _, target } => reads_name(*command, n) || reads_name(
            *target,
            n,
        ),
        Expr::Index { object, index } => reads_name(*object, n) || reads_name(*index, n),
        Expr::Unary { op: _, operand } => reads_name(*operand, n),
        Expr::Paren(inner) => reads_name(*inner, n),
        Expr::Await(inner) => reads_name(*inner, n),
        Expr::PostIncrement(inner) => reads_name(*inner, n),
        Expr::PostDecrement(inner) => reads_name(*inner, n),
        Expr::Member { object, field: _ } => reads_name(*object, n),
        Expr::Call { callee, args } => (!(*callee is Identifier) && reads_name(*callee, n))
            || reads_name_list(args@, n),
        _ => false,
    }
}

/// Whether one of the expressions reads the name `n`.
pub open spec fn reads_name_list(es: Seq<Expr>, n: Seq<char>) -> bool
    decreases es, 1nat,
{
    if es.len() == 0 {
        false
    } else {
        reads_name_list(es.drop_last(), n) || reads_name(es.last(), n)
    }
}

/// Whether one of the fields reads the name `n`: its value does, or it is
/// the shorthand `{n}`.
pub open spec fn reads_name_fields(fs: Seq<ObjectField>, n: Seq<char>) -> bool
    decreases fs, 1nat,
{
    if fs.len() == 0 {
        false
    } else {
        reads_name_fields(fs.drop_last(), n) || match fs.last().value {
            Some(v) => reads_name(v, n),
            None => fs.last().key@ == n,
        }
    }
}

/// An expression without a `do` block that checks leaves the names as they
/// were, and every name it reads is declared.
proof fn lemma_expr_reads(env: Env, e: Expr, n: Seq<char>)
    requires
        !has_do(e),
        chk_expr(env, e) is Ok,
    ensures
        chk_expr(env, e) == Ok::<Env, Seq<char>>(env),
        reads_name(e, n) ==> in_env(env, n),
    decreases e, 0nat,
{
    match e {
        Expr::Array(items) => lemma_exprs_reads(env, items@, n),
        Expr::Task(items) => lemma_exprs_reads(env, items@, n),
        Expr::Object(fs) => lemma_fields_reads(env, fs@, n),
        Expr::Binary { op: _, left, right } => {
            lemma_expr_reads(env, *left, n);
            lemma_expr_reads(env, *right, n);
        },
        Expr::ShellPipe { left, right } => {
            lemma_expr_reads(env, *left, n);
            lemma_expr_reads(env, *right, n);
        },
        Expr::ShellAnd { left, right } => {
            lemma_expr_reads(env, *left, n);
            lemma_expr_reads(env, *right, n);
        },
        Expr::ShellOr { left, right } => {
            lemma_expr_reads(env, *left, n);
            lemma_expr_reads(env, *right, n);
        },
        Expr::ShellRedirect { command, op: _, target } => {
            lemma_expr_reads(env, *command, n);
            lemma_expr_reads(env, *target, n);
        },
        Expr::Index { object, index } => {
            lemma_expr_reads(env, *object, n);
            lemma_expr_reads(env, *index, n);
        },
        Expr::Unary { op: _, operand } => lemma_expr_reads(env, *operand, n),
        Expr::Paren(inner) => lemma_expr_reads(env, *inner, n),
        Expr::Await(inner) => lemma_expr_reads(env, *inner, n),
        Expr::PostIncrement(inner) => lemma_expr_reads(env, *inner, n),
        Expr::PostDecrement(inner) => lemma_expr_reads(env, *inner, n),
        Expr::Member { object, field: _ } => lemma_expr_reads(env, *object, n),
        Expr::Call { callee, args } => {
            if !(*callee is Identifier) {
                lemma_expr_reads(env, *callee, n);
            }
            lemma_exprs_reads(env, args@, n);
        },
        _ => {},
    }
}

/// Expressions without a `do` block that check leave the names as they
/// were, and every name they read is declared.
proof fn lemma_exprs_reads(env: Env, es: Seq<Expr>, n: Seq<char>)
    requires
        !has_do_list(es),
        chk_exprs(env, es) is Ok,
    ensures
        chk_exprs(env, es) == Ok::<Env, Seq<char>>(env),
        reads_name_list(es, n) ==> in_env(env, n),
    decreases es, 1nat,
{
    if es.len() > 0 {
        lemma_exprs_reads(env, es.drop_last(), n);
        lemma_expr_reads(env, es.last(), n);
    }
}

/// Fields without a `do` block that check leave the names as they were,
/// and every name they read is declared.
proof fn lemma_fields_reads(env: Env, fs: Seq<ObjectField>, n: Seq<char>)
    requires
        !has_do_fields(fs),
        chk_fields(env, fs) is Ok,
    ensures
        chk_fields(env, fs) == Ok::<Env, Seq<char>>(env),
        reads_name_fields(fs, n) ==> in_env(env, n),
    decreases fs, 1nat,
{
    if fs.len() > 0 {
        lemma_fields_reads(env, fs.drop_last(), n);
        match fs.last().value {
            Some(v) => lemma_expr_reads(env, v, n),
            None => {},
        }
    }
}

/// The expression a statement checks before anything it declares: the
/// value of a declaration, the expression of an expression statement or of
/// a `return`, the condition of an `if` or a `while`, the iterator of a
/// `for` loop.
pub open spec fn checked_expr_of(st: Statement) -> Option<Expr> {
    match st {
        Statement::VarDecl { pattern: _, init } => init,
        Statement::Expr(e) => Some(e),
        Statement::If { condition, then_block: _, else_block: _ } => Some(condition),
        Statement::While { condition, body: _ } => Some(condition),
        Statement::For { var: _, iter, body: _ } => Some(iter),
        Statement::Return(r) => r,
        _ => None,
    }
}

/// A statement that checks reads only declared names: every name read by
/// the value it returns, declares, evaluates, tests or iterates over (one
/// without a `do` block) is declared in some scope around the statement.
/// So `return y` where no scope declares `y` is refused.
pub proof fn law_checked_names_declared(env: Env, st: Statement, n: Seq<char>)
    requires
        chk_stmt(env, st) is Ok,
        checked_expr_of(st) matches Some(e) && !has_do(e) && reads_name(e, n),
    ensures
        in_env(env, n),
{
    let e = checked_expr_of(st)->Some_0;
    assert(chk_expr(env, e) is Ok);
    lemma_expr_reads(env, e, n);
}

/// A statement checks only if the blocks it holds check: the branches of
/// an `if` and the body of a `while` in the scope of the statement (after
/// a condition without a `do` block), the body of a `for` loop in a new
/// scope that declares the loop variable.
pub proof fn law_checked_blocks(env: Env, st: Statement)
    requires
        chk_stmt(env, st) is Ok,
        checked_expr_of(st) matches Some(e) ==> !has_do(e),
    ensures
        st matches Statement::If { condition: _, then_block, else_block } ==> (chk_block(env, then_block)
            matches Ok(e2) && (else_block matches Some(b) ==> chk_block(e2, b) is Ok)),
        st matches Statement::While { condition: _, body } ==> chk_block(env, body) is Ok,
        st matches Statement::For { var, iter: _, body } ==> (declare(env.push(Seq::empty()), var@)
            matches Ok(e2) && chk_block(e2, body) is Ok),
{
    match checked_expr_of(st) {
        Some(e) => {
            assert(chk_expr(env, e) is Ok);
            lemma_expr_reads(env, e, Seq::empty());
        },
        None => {},
    }
}

/// Statements check only if each of them checks with the names the
/// statements before it left.
pub proof fn law_checked_statements(env: Env, ss: Seq<Statement>, k: int)
    requires
        chk_stmts(env, ss) is Ok,
        0 <= k < ss.len(),
    ensures
        chk_stmts(env, ss.take(k)) matches Ok(ek) && chk_stmt(ek, ss[k]) is Ok,
    decreases ss.len(),
{
    if k == ss.len() - 1 {
        assert(ss.take(k) =~= ss.drop_last());
    } else {
        law_checked_statements(env, ss.drop_last(), k);
        assert(ss.drop_last().take(k) =~= ss.take(k));
    }
}

} // verus!
