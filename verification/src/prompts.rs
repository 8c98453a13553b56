//! Prompt blocks (`think { }`, `ask { }`) turned into markdown templates.
//!
//! The text of a prompt block becomes markdown in which each interpolated
//! expression stays as a `${...}` placeholder, and the variables those
//! placeholders read are collected, so that the runtime can bind them.
use vstd::prelude::*;
use crate::ast::{Expr, PromptBlock, PromptItem, StringPart};
use crate::error::CompileError;
use crate::strutil::{push_char, str_chars};

verus! {

/// Unicode white space, as `char::is_whitespace` defines it.
pub open spec fn is_ws(c: char) -> bool {
    ||| '\u{9}' <= c <= '\u{d}'
    ||| c == ' '
    ||| c == '\u{85}'
    ||| c == '\u{a0}'
    ||| c == '\u{1680}'
    ||| '\u{2000}' <= c <= '\u{200a}'
    ||| c == '\u{2028}'
    ||| c == '\u{2029}'
    ||| c == '\u{202f}'
    ||| c == '\u{205f}'
    ||| c == '\u{3000}'
}

/// Whether a character is Unicode white space.
pub fn is_whitespace_char(c: char) -> (r: bool)
    ensures
        r == is_ws(c),
{
    ('\u{9}' <= c && c <= '\u{d}') || c == ' ' || c == '\u{85}' || c == '\u{a0}' || c
        == '\u{1680}' || ('\u{2000}' <= c && c <= '\u{200a}') || c == '\u{2028}' || c
        == '\u{2029}' || c == '\u{202f}' || c == '\u{205f}' || c == '\u{3000}'
}

/// A set of variable names, in the order in which they were first added.
#[derive(Debug, Clone, PartialEq)]
pub struct BindingSet {
    names: Vec<String>,
}

/// The names of a list of strings.
pub open spec fn names_of(v: Seq<String>) -> Seq<Seq<char>> {
    v.map_values(|s: String| s@)
}

/// A sequence with `n` added at its end, unless it holds `n` already.
pub open spec fn add_name(s: Seq<Seq<char>>, n: Seq<char>) -> Seq<Seq<char>> {
    if s.contains(n) {
        s
    } else {
        s.push(n)
    }
}

impl View for BindingSet {
    type V = Seq<Seq<char>>;

    closed spec fn view(&self) -> Seq<Seq<char>> {
        names_of(self.names@)
    }
}

impl BindingSet {
    /// The empty set.
    pub fn new() -> (r: BindingSet)
        ensures
            r@ == Seq::<Seq<char>>::empty(),
    {
        let r = BindingSet { names: Vec::new() };
        proof {
            assert(names_of(r.names@) =~= Seq::<Seq<char>>::empty());
        }
        r
    }

    /// Whether `name` is in the set.
    pub fn contains(&self, name: &str) -> (r: bool)
        ensures
            r == self@.contains(name@),
    {
        let mut i: usize = 0;
        while i < self.names.len()
            invariant
                i <= self.names.len(),
                forall|j: int| 0 <= j < i ==> self@[j] != name@,
            decreases self.names.len() - i,
        {
            if str_eq(self.names[i].as_str(), name) {
                proof {
                    assert(self@[i as int] == self.names@[i as int]@);
                }
                return true;
            }
            i = i + 1;
        }
        proof {
            assert forall|j: int| 0 <= j < self@.len() implies self@[j] != name@ by {}
        }
        false
    }

    /// Adds `name`, unless it is there already.
    pub fn insert(&mut self, name: &str)
        ensures
            final(self)@ == add_name(old(self)@, name@),
    {
        if !self.contains(name) {
            let ghost old_names = self.names@;
            self.names.push(name.to_owned());
            proof {
                assert(names_of(self.names@) =~= names_of(old_names).push(name@));
            }
        }
    }

    /// The number of names.
    pub fn len(&self) -> (r: usize)
        ensures
            r == self@.len(),
    {
        self.names.len()
    }

    /// Whether the set is empty.
    pub fn is_empty(&self) -> (r: bool)
        ensures
            r == (self@.len() == 0),
    {
        self.names.len() == 0
    }

    /// The names, in the order in which they were added.
    pub fn names(&self) -> (r: &Vec<String>)
        ensures
            names_of(r@) == self@,
    {
        &self.names
    }
}

/// Whether two strings are equal.
pub fn str_eq(a: &str, b: &str) -> (r: bool)
    ensures
        r == (a@ == b@),
{
    let ca = str_chars(a);
    let cb = str_chars(b);
    if ca.len() != cb.len() {
        return false;
    }
    let mut i: usize = 0;
    while i < ca.len()
        invariant
            ca.len() == cb.len(),
            ca@ == a@,
            cb@ == b@,
            i <= ca.len(),
            forall|j: int| 0 <= j < i ==> ca@[j] == cb@[j],
        decreases ca.len() - i,
    {
        if ca[i] != cb[i] {
            return false;
        }
        i = i + 1;
    }
    proof {
        assert(ca@ =~= cb@);
    }
    true
}

/// Kind of prompt block.
#[derive(Debug, Clone, Copy, PartialEq, Eq, Structural)]
pub enum PromptKind {
    Think,
    Ask,
}

/// The keyword of a kind of prompt block.
pub open spec fn kind_name(k: PromptKind) -> Seq<char> {
    match k {
        PromptKind::Think => "think"@,
        PromptKind::Ask => "ask"@,
    }
}

impl PromptKind {
    /// The keyword that opens a block of this kind.
    pub fn as_str(&self) -> (r: &'static str)
        ensures
            r@ == kind_name(*self),
    {
        match self {
            PromptKind::Think => "think",
            PromptKind::Ask => "ask",
        }
    }
}

/// A prompt block compiled to a markdown template.
#[derive(Debug, Clone, PartialEq)]
pub struct PromptTemplate {
    /// Identifier of the template within its worker, such as `think_0`.
    pub id: String,
    /// Whether the block was `think` or `ask`.
    pub kind: PromptKind,
    /// The worker the block belongs to.
    pub worker_name: String,
    /// Markdown with `${...}` placeholders left in place.
    pub markdown: String,
    /// The variables that must be bound at run time.
    pub required_bindings: BindingSet,
}

/// Message for expressions that cannot be interpolated yet.
pub open spec fn msg_complex() -> Seq<char> {
    "Complex expressions in prompt interpolations not yet supported "@
}

/// Message for shell commands and prompts inside an interpolation.
pub open spec fn msg_shell() -> Seq<char> {
    "Shell commands and nested prompts cannot appear in prompt interpolations"@
}

/// Message for placeholders other than names, fields and indexing.
pub open spec fn msg_placeholder() -> Seq<char> {
    "Complex expressions in prompt placeholders not fully supported yet"@
}

/// Message for `do { }` inside a prompt.
pub open spec fn msg_code() -> Seq<char> {
    "Embedded code blocks (do { }) in prompts not yet supported "@
}

/// The variables an expression reads, added to `s` in the order in which
/// they occur; or the message of the construct that cannot be interpolated.
/// Member access reads only its object; strings read their interpolations.
pub open spec fn collect_refs(e: Expr, s: Seq<Seq<char>>) -> Result<Seq<Seq<char>>, Seq<char>>
    decreases e, 0nat,
{
    match e {
        Expr::Identifier(n) => Ok(add_name(s, n@)),
        Expr::Member { object, field: _ } => collect_refs(*object, s),
        Expr::Index { object, index } => match collect_refs(*object, s) {
            Ok(s1) => collect_refs(*index, s1),
            Err(m) => Err(m),
        },
        Expr::Binary { op: _, left, right } => match collect_refs(*left, s) {
            Ok(s1) => collect_refs(*right, s1),
            Err(m) => Err(m),
        },
        Expr::Unary { op: _, operand } => collect_refs(*operand, s),
        Expr::Call { callee, args } => match collect_refs(*callee, s) {
            Ok(s1) => collect_refs_list(args@, s1),
            Err(m) => Err(m),
        },
        Expr::Paren(inner) => collect_refs(*inner, s),
        Expr::Array(items) => collect_refs_list(items@, s),
        Expr::Object(fields) => collect_refs_fields(fields@, s),
        Expr::String(lit) => collect_refs_parts(lit.parts@, s),
        Expr::Number(_) | Expr::True | Expr::False => Ok(s),
        Expr::Await(_) | Expr::PostIncrement(_) | Expr::PostDecrement(_) | Expr::Task(_) => Err(
            msg_complex(),
        ),
        _ => Err(msg_shell()),
    }
}

/// `collect_refs` over a list of expressions, left to right.
pub open spec fn collect_refs_list(es: Seq<Expr>, s: Seq<Seq<char>>) -> Result<
    Seq<Seq<char>>,
    Seq<char>,
>
    decreases es, 1nat,
{
    if es.len() == 0 {
        Ok(s)
    } else {
        match collect_refs_list(es.drop_last(), s) {
            Ok(s1) => collect_refs(es.last(), s1),
            Err(m) => Err(m),
        }
    }
}

/// `collect_refs` over the values of object fields; shorthand fields read nothing.
pub open spec fn collect_refs_fields(fs: Seq<crate::ast::ObjectField>, s: Seq<Seq<char>>) -> Result<
    Seq<Seq<char>>,
    Seq<char>,
>
    decreases fs, 1nat,
{
    if fs.len() == 0 {
        Ok(s)
    } else {
        match collect_refs_fields(fs.drop_last(), s) {
            Ok(s1) => match fs.last().value {
                Some(v) => collect_refs(v, s1),
                None => Ok(s1),
            },
            Err(m) => Err(m),
        }
    }
}

/// `collect_refs` over the interpolations of a string literal.
pub open spec fn collect_refs_parts(ps: Seq<StringPart>, s: Seq<Seq<char>>) -> Result<
    Seq<Seq<char>>,
    Seq<char>,
>
    decreases ps, 1nat,
{
    if ps.len() == 0 {
        Ok(s)
    } else {
        match collect_refs_parts(ps.drop_last(), s) {
            Ok(s1) => match ps.last() {
                StringPart::Interpolation(e) => collect_refs(*e, s1),
                StringPart::Text(_) => Ok(s1),
            },
            Err(m) => Err(m),
        }
    }
}

/// The placeholder text of an interpolated expression: a name, a field
/// access or an indexing, written as in the source.
pub open spec fn placeholder(e: Expr) -> Option<Seq<char>>
    decreases e,
{
    match e {
        Expr::Identifier(n) => Some(n@),
        Expr::Member { object, field } => match placeholder(*object) {
            Some(o) => Some(o + "."@ + field@),
            None => None,
        },
        Expr::Index { object, index } => match placeholder(*object) {
            Some(o) => match placeholder(*index) {
                Some(i) => Some(o + "["@ + i + "]"@),
                None => None,
            },
            None => None,
        },
        _ => None,
    }
}

/// Text after an interpolation gets a separating space unless it starts
/// with white space or with `!`, as in `Hello, ${name}!`.
pub open spec fn needs_space_after(t: Seq<char>) -> bool {
    t.len() > 0 && !is_ws(t[0]) && t[0] != '!'
}

/// An interpolation gets a separating space before it when the markdown so
/// far is not empty and does not end in white space.
pub open spec fn needs_space_before(md: Seq<char>) -> bool {
    md.len() > 0 && !is_ws(md.last())
}

/// The markdown and bindings after the first `n` items of a prompt block,
/// or the message of the first item that cannot be compiled.
pub open spec fn template_state(items: Seq<PromptItem>, n: nat) -> Result<
    (Seq<char>, Seq<Seq<char>>),
    Seq<char>,
>
    decreases n,
{
    if n == 0 {
        Ok((Seq::empty(), Seq::empty()))
    } else {
        let i = n - 1;
        match template_state(items, (n - 1) as nat) {
            Err(m) => Err(m),
            Ok((md, b)) => match items[i] {
                PromptItem::Text(t) => {
                    if i > 0 && items[i - 1] is Interpolation && needs_space_after(t@) {
                        Ok((md + " "@ + t@, b))
                    } else {
                        Ok((md + t@, b))
                    }
                },
                PromptItem::Interpolation(e) => match collect_refs(e, b) {
                    Err(m) => Err(m),
                    Ok(b1) => match placeholder(e) {
                        None => Err(msg_placeholder()),
                        Some(ph) => {
                            let md1 = if needs_space_before(md) {
                                md + " "@
                            } else {
                                md
                            };
                            Ok((md1 + "${"@ + ph + "}"@, b1))
                        },
                    },
                },
                PromptItem::Code(_) => Err(msg_code()),
            },
        }
    }
}

/// Once `collect_refs_list` fails on a prefix, it fails the same way on every longer prefix.
proof fn lemma_list_err_sticks(es: Seq<Expr>, s: Seq<Seq<char>>, k: int, j: int)
    requires
        0 <= k <= j <= es.len(),
        collect_refs_list(es.take(k), s) is Err,
    ensures
        collect_refs_list(es.take(j), s) == collect_refs_list(es.take(k), s),
    decreases j - k,
{
    if j > k {
        lemma_list_err_sticks(es, s, k, j - 1);
        assert(es.take(j).drop_last() =~= es.take(j - 1));
    }
}

/// Once `collect_refs_fields` fails on a prefix, it fails the same way on every longer prefix.
proof fn lemma_fields_err_sticks(es: Seq<crate::ast::ObjectField>, s: Seq<Seq<char>>, k: int, j: int)
    requires
        0 <= k <= j <= es.len(),
        collect_refs_fields(es.take(k), s) is Err,
    ensures
        collect_refs_fields(es.take(j), s) == collect_refs_fields(es.take(k), s),
    decreases j - k,
{
    if j > k {
        lemma_fields_err_sticks(es, s, k, j - 1);
        assert(es.take(j).drop_last() =~= es.take(j - 1));
    }
}

/// Once `collect_refs_parts` fails on a prefix, it fails the same way on every longer prefix.
proof fn lemma_parts_err_sticks(es: Seq<StringPart>, s: Seq<Seq<char>>, k: int, j: int)
    requires
        0 <= k <= j <= es.len(),
        collect_refs_parts(es.take(k), s) is Err,
    ensures
        collect_refs_parts(es.take(j), s) == collect_refs_parts(es.take(k), s),
    decreases j - k,
{
    if j > k {
        lemma_parts_err_sticks(es, s, k, j - 1);
        assert(es.take(j).drop_last() =~= es.take(j - 1));
    }
}

/// The unsupported-construct error with the given message.
fn unsupported(m: &str) -> (r: CompileError)
    ensures
        r matches CompileError::Unsupported(mm) && mm@ == m@,
{
    CompileError::Unsupported(m.to_owned())
}

/// Whether a result of `extract_variable_refs` matches `collect_refs`.
pub open spec fn refs_result_ok(
    spec_r: Result<Seq<Seq<char>>, Seq<char>>,
    r: Result<(), CompileError>,
    after: Seq<Seq<char>>,
) -> bool {
    match spec_r {
        Ok(s) => r is Ok && after == s,
        Err(m) => r matches Err(CompileError::Unsupported(mm)) && mm@ == m,
    }
}

/// Adds to `refs` the variables an interpolated expression reads.
fn extract_variable_refs(expr: &Expr, refs: &mut BindingSet) -> (r: Result<(), CompileError>)
    ensures
        refs_result_ok(collect_refs(*expr, old(refs)@), r, final(refs)@),
    decreases expr,
{
    match expr {
        Expr::Identifier(name) => {
            refs.insert(name);
            Ok(())
        },
        Expr::Member { object, field: _ } => extract_variable_refs(object, refs),
        Expr::Index { object, index } => {
            match extract_variable_refs(object, refs) {
                Ok(()) => extract_variable_refs(index, refs),
                Err(e) => Err(e),
            }
        },
        Expr::Binary { op: _, left, right } => {
            match extract_variable_refs(left, refs) {
                Ok(()) => extract_variable_refs(right, refs),
                Err(e) => Err(e),
            }
        },
        Expr::Unary { op: _, operand } => extract_variable_refs(operand, refs),
        Expr::Call { callee, args } => {
            match extract_variable_refs(callee, refs) {
                Ok(()) => extract_refs_list(args, refs),
                Err(e) => Err(e),
            }
        },
        Expr::Paren(inner) => extract_variable_refs(inner, refs),
        Expr::Array(items) => extract_refs_list(items, refs),
        Expr::Object(fields) => extract_refs_fields(fields, refs),
        Expr::String(lit) => extract_refs_parts(&lit.parts, refs),
        Expr::Number(_) | Expr::True | Expr::False => Ok(()),
        Expr::Await(_) | Expr::PostIncrement(_) | Expr::PostDecrement(_) | Expr::Task(_) => {
            Err(unsupported("Complex expressions in prompt interpolations not yet supported "))
        },
        _ => Err(
            unsupported("Shell commands and nested prompts cannot appear in prompt interpolations"),
        ),
    }
}

/// `extract_variable_refs` over a list of expressions.
fn extract_refs_list(es: &Vec<Expr>, refs: &mut BindingSet) -> (r: Result<(), CompileError>)
    ensures
        refs_result_ok(collect_refs_list(es@, old(refs)@), r, final(refs)@),
    decreases es,
{
    let ghost s0 = refs@;
    let mut i: usize = 0;
    while i < es.len()
        invariant
            i <= es.len(),
            s0 == old(refs)@,
            collect_refs_list(es@.take(i as int), s0) == Ok::<Seq<Seq<char>>, Seq<char>>(refs@),
        decreases es.len() - i,
    {
        proof {
            assert(es@.take(i + 1).drop_last() =~= es@.take(i as int));
        }
        match extract_variable_refs(&es[i], refs) {
            Ok(()) => {},
            Err(e) => {
                proof {
                    lemma_list_err_sticks(es@, s0, i + 1, es.len() as int);
                    assert(es@.take(es.len() as int) =~= es@);
                }
                return Err(e);
            },
        }
        i = i + 1;
    }
    proof {
        assert(es@.take(es.len() as int) =~= es@);
    }
    Ok(())
}

/// `extract_variable_refs` over the values of object fields.
fn extract_refs_fields(fs: &Vec<crate::ast::ObjectField>, refs: &mut BindingSet) -> (r: Result<
    (),
    CompileError,
>)
    ensures
        refs_result_ok(collect_refs_fields(fs@, old(refs)@), r, final(refs)@),
    decreases fs,
{
    let ghost s0 = refs@;
    let mut i: usize = 0;
    while i < fs.len()
        invariant
            i <= fs.len(),
            s0 == old(refs)@,
            collect_refs_fields(fs@.take(i as int), s0) == Ok::<Seq<Seq<char>>, Seq<char>>(refs@),
        decreases fs.len() - i,
    {
        proof {
            assert(fs@.take(i + 1).drop_last() =~= fs@.take(i as int));
        }
        match &fs[i].value {
            Some(v) => {
                match extract_variable_refs(v, refs) {
                    Ok(()) => {},
                    Err(e) => {
                        proof {
                            lemma_fields_err_sticks(fs@, s0, i + 1, fs.len() as int);
                            assert(fs@.take(fs.len() as int) =~= fs@);
                        }
                        return Err(e);
                    },
                }
            },
            None => {},
        }
        i = i + 1;
    }
    proof {
        assert(fs@.take(fs.len() as int) =~= fs@);
    }
    Ok(())
}

/// `extract_variable_refs` over the interpolations of a string literal.
fn extract_refs_parts(ps: &Vec<StringPart>, refs: &mut BindingSet) -> (r: Result<(), CompileError>)
    ensures
        refs_result_ok(collect_refs_parts(ps@, old(refs)@), r, final(refs)@),
    decreases ps,
{
    let ghost s0 = refs@;
    let mut i: usize = 0;
    while i < ps.len()
        invariant
            i <= ps.len(),
            s0 == old(refs)@,
            collect_refs_parts(ps@.take(i as int), s0) == Ok::<Seq<Seq<char>>, Seq<char>>(refs@),
        decreases ps.len() - i,
    {
        proof {
            assert(ps@.take(i + 1).drop_last() =~= ps@.take(i as int));
        }
        match &ps[i] {
            StringPart::Interpolation(e) => {
                match extract_variable_refs(e, refs) {
                    Ok(()) => {},
                    Err(err) => {
                        proof {
                            lemma_parts_err_sticks(ps@, s0, i + 1, ps.len() as int);
                            assert(ps@.take(ps.len() as int) =~= ps@);
                        }
                        return Err(err);
                    },
                }
            },
            StringPart::Text(_) => {},
        }
        i = i + 1;
    }
    proof {
        assert(ps@.take(ps.len() as int) =~= ps@);
    }
    Ok(())
}

/// Appends the placeholder text of an interpolated expression.
fn write_expr_as_placeholder(out: &mut String, expr: &Expr) -> (r: Result<(), CompileError>)
    ensures
        match placeholder(*expr) {
            Some(ph) => r is Ok && final(out)@ == old(out)@ + ph,
            None => r matches Err(CompileError::Unsupported(m)) && m@ == msg_placeholder(),
        },
    decreases expr,
{
    match expr {
        Expr::Identifier(name) => {
            out.append(name);
            Ok(())
        },
        Expr::Member { object, field } => {
            match write_expr_as_placeholder(out, object) {
                Ok(()) => {
                    out.append(".");
                    out.append(field);
                    Ok(())
                },
                Err(e) => Err(e),
            }
        },
        Expr::Index { object, index } => {
            match write_expr_as_placeholder(out, object) {
                Ok(()) => {
                    out.append("[");
                    match write_expr_as_placeholder(out, index) {
                        Ok(()) => {
                            out.append("]");
                            Ok(())
                        },
                        Err(e) => Err(e),
                    }
                },
                Err(e) => Err(e),
            }
        },
        _ => Err(unsupported("Complex expressions in prompt placeholders not fully supported yet")),
    }
}

/// Compiles a prompt block to a markdown template named `id` within the
/// worker `worker_name`.
pub fn extract_prompt_template(
    block: &PromptBlock,
    kind: PromptKind,
    id: String,
    worker_name: String,
) -> (r: Result<PromptTemplate, CompileError>)
    ensures
        match template_state(block.items@, block.items@.len()) {
            Ok((md, b)) => r matches Ok(t) && t.id == id && t.kind == kind && t.worker_name
                == worker_name && t.markdown@ == md && t.required_bindings@ == b,
            Err(m) => r matches Err(CompileError::Unsupported(mm)) && mm@ == m,
        },
{
    let items = &block.items;
    let mut markdown = String::new();
    let mut bindings = BindingSet::new();
    let mut last: Option<char> = None;
    let mut i: usize = 0;
    while i < items.len()
        invariant
            i <= items.len(),
            items == &block.items,
            template_state(items@, i as nat) == Ok::<(Seq<char>, Seq<Seq<char>>), Seq<char>>(
                (markdown@, bindings@),
            ),
            last == (if markdown@.len() > 0 {
                Some(markdown@.last())
            } else {
                None
            }),
        decreases items.len() - i,
    {
        proof {
            reveal_strlit(" ");
            reveal_strlit("}");
        }
        let ghost md0 = markdown@;
        let ghost b0 = bindings@;
        match &items[i] {
            PromptItem::Text(text) => {
                let chars = str_chars(text);
                let mut space = false;
                if i > 0 && chars.len() > 0 && !is_whitespace_char(chars[0]) && chars[0] != '!' {
                    if let PromptItem::Interpolation(_) = &items[i - 1] {
                        space = true;
                    }
                }
                proof {
                    assert(space == (i > 0 && items@[i - 1] is Interpolation && needs_space_after(
                        text@,
                    )));
                }
                if space {
                    push_char(&mut markdown, ' ');
                    last = Some(' ');
                    proof {
                        assert(markdown@ =~= md0 + " "@);
                    }
                }
                let ghost md1 = markdown@;
                markdown.append(text);
                if chars.len() > 0 {
                    last = Some(chars[chars.len() - 1]);
                    proof {
                        assert(markdown@.last() == text@.last());
                    }
                } else {
                    proof {
                        assert(markdown@ =~= md1);
                    }
                }
            },
            PromptItem::Interpolation(expr) => {
                match extract_variable_refs(expr, &mut bindings) {
                    Ok(()) => {},
                    Err(e) => {
                        proof {
                            lemma_template_err_sticks(items@, i as nat + 1, items.len() as nat);
                        }
                        return Err(e);
                    },
                }
                match last {
                    Some(c) => {
                        if !is_whitespace_char(c) {
                            push_char(&mut markdown, ' ');
                            proof {
                                assert(markdown@ =~= md0 + " "@);
                            }
                        }
                    },
                    None => {},
                }
                let ghost md1 = markdown@;
                proof {
                    assert(md1 == (if needs_space_before(md0) {
                        md0 + " "@
                    } else {
                        md0
                    }));
                }
                markdown.append("${");
                match write_expr_as_placeholder(&mut markdown, expr) {
                    Ok(()) => {},
                    Err(e) => {
                        proof {
                            lemma_template_err_sticks(items@, i as nat + 1, items.len() as nat);
                        }
                        return Err(e);
                    },
                }
                markdown.append("}");
                last = Some('}');
            },
            PromptItem::Code(_) => {
                proof {
                    lemma_template_err_sticks(items@, i as nat + 1, items.len() as nat);
                }
                return Err(unsupported("Embedded code blocks (do { }) in prompts not yet supported "));
            },
        }
        i = i + 1;
    }
    Ok(PromptTemplate { id, kind, worker_name, markdown, required_bindings: bindings })
}

/// Once compiling a prompt block fails, it fails the same way on every
/// longer prefix of its items.
proof fn lemma_template_err_sticks(items: Seq<PromptItem>, k: nat, j: nat)
    requires
        k <= j,
        template_state(items, k) is Err,
    ensures
        template_state(items, j) == template_state(items, k),
    decreases j - k,
{
    if j > k {
        lemma_template_err_sticks(items, k, (j - 1) as nat);
    }
}

} // verus!
