//! Errors reported by the compiler.
use vstd::prelude::*;

verus! {

/// An error of the compiler.  File paths are held as the text by which they
/// were given.
#[derive(Debug)]
pub enum CompileError {
    /// Reading or writing a file failed; the text is the system's message.
    Io(String),
    /// The parser rejected a file.
    Parse { file: String, message: String },
    /// A file is syntactically valid but meaningless.
    Semantic { file: String, message: String },
    /// The type checker rejected the program.
    TypeError { message: String },
    /// Code could not be generated.
    Codegen(String),
    /// The input file does not exist.
    FileNotFound(String),
    /// Several errors at once.
    Multiple(Vec<CompileError>),
    /// A construct the compiler does not handle yet.
    Unsupported(String),
    /// Modules import each other in a cycle; the text names a module on it.
    CircularDependency(String),
    /// An import names a module that does not exist.
    ModuleNotFound { module: String, from: String },
    /// An import path could not be resolved.
    ModuleResolution { path: String, reason: String },
}

/// The result of a compiler step.
pub type CompileResult<T> = Result<T, CompileError>;

/// The text of an error, as the compiler reports it.
pub open spec fn error_text(e: CompileError) -> Seq<char>
    decreases e, 1nat,
{
    match e {
        CompileError::Io(m) => "I/O error: "@ + m@,
        CompileError::Parse { file, message } => "Parse error in "@ + file@ + ": "@ + message@,
        CompileError::Semantic { file, message } => "Semantic error in "@ + file@ + ": "@
            + message@,
        CompileError::TypeError { message } => "Type error: "@ + message@,
        CompileError::Codegen(m) => "Code generation error: "@ + m@,
        CompileError::FileNotFound(p) => "File not found: "@ + p@,
        CompileError::Multiple(errs) => "Multiple errors occurred:\n"@ + error_list_text(errs@),
        CompileError::Unsupported(m) => "Unsupported feature: "@ + m@,
        CompileError::CircularDependency(m) => "Circular dependency detected: "@ + m@,
        CompileError::ModuleNotFound { module, from } => "Module not found: '"@ + module@
            + "' imported from "@ + from@,
        CompileError::ModuleResolution { path, reason } => "Module resolution error for "@
            + path@ + ": "@ + reason@,
    }
}

/// The texts of several errors, one per line, each after `  - `.
pub open spec fn error_list_text(errs: Seq<CompileError>) -> Seq<char>
    decreases errs, 0nat,
{
    if errs.len() == 0 {
        Seq::empty()
    } else if errs.len() == 1 {
        "  - "@ + error_text(errs[0])
    } else {
        error_list_text(errs.drop_last()) + "\n"@ + "  - "@ + error_text(errs.last())
    }
}

/// Concatenates two strings.
fn cat(a: &str, b: &str) -> (r: String)
    ensures
        r@ == a@ + b@,
{
    let mut s = a.to_owned();
    s.append(b);
    s
}

impl CompileError {
    /// A parse error in `file`.
    pub fn parse(file: &str, message: &str) -> (r: CompileError)
        ensures
            r matches CompileError::Parse { file: f, message: m } && f@ == file@ && m@ == message@,
    {
        CompileError::Parse { file: file.to_owned(), message: message.to_owned() }
    }

    /// A semantic error in `file`.
    pub fn semantic(file: &str, message: &str) -> (r: CompileError)
        ensures
            r matches CompileError::Semantic { file: f, message: m } && f@ == file@ && m@
                == message@,
    {
        CompileError::Semantic { file: file.to_owned(), message: message.to_owned() }
    }

    /// A code generation error.
    pub fn codegen(message: &str) -> (r: CompileError)
        ensures
            r matches CompileError::Codegen(m) && m@ == message@,
    {
        CompileError::Codegen(message.to_owned())
    }

    /// The text of the error, as the compiler reports it.
    pub fn message(&self) -> (r: String)
        ensures
            r@ == error_text(*self),
        decreases self, 1nat,
    {
        match self {
            CompileError::Io(m) => cat("I/O error: ", m.as_str()),
            CompileError::Parse { file, message } => {
                let mut s = cat("Parse error in ", file.as_str());
                s.append(": ");
                s.append(message.as_str());
                s
            },
            CompileError::Semantic { file, message } => {
                let mut s = cat("Semantic error in ", file.as_str());
                s.append(": ");
                s.append(message.as_str());
                s
            },
            CompileError::TypeError { message } => cat("Type error: ", message.as_str()),
            CompileError::Codegen(m) => cat("Code generation error: ", m.as_str()),
            CompileError::FileNotFound(p) => cat("File not found: ", p.as_str()),
            CompileError::Multiple(errs) => {
                let list = list_message(errs);
                cat("Multiple errors occurred:\n", list.as_str())
            },
            CompileError::Unsupported(m) => cat("Unsupported feature: ", m.as_str()),
            CompileError::CircularDependency(m) => cat("Circular dependency detected: ", m.as_str()),
            CompileError::ModuleNotFound { module, from } => {
                let mut s = cat("Module not found: '", module.as_str());
                s.append("' imported from ");
                s.append(from.as_str());
                s
            },
            CompileError::ModuleResolution { path, reason } => {
                let mut s = cat("Module resolution error for ", path.as_str());
                s.append(": ");
                s.append(reason.as_str());
                s
            },
        }
    }
}

/// The texts of several errors, one per line.
fn list_message(errs: &Vec<CompileError>) -> (r: String)
    ensures
        r@ == error_list_text(errs@),
    decreases errs, 0nat,
{
    let mut out = String::new();
    let mut i: usize = 0;
    while i < errs.len()
        invariant
            i <= errs.len(),
            out@ == error_list_text(errs@.take(i as int)),
        decreases errs.len() - i,
    {
        proof {
            assert(errs@.take(i + 1).drop_last() =~= errs@.take(i as int));
        }
        if i > 0 {
            out.append("\n");
        }
        out.append("  - ");
        let m = errs[i].message();
        out.append(m.as_str());
        proof {
            if i == 0 {
                assert(errs@.take(1)[0] == errs@[0]);
                assert(out@ =~= "  - "@ + error_text(errs@[0]));
            }
        }
        i = i + 1;
    }
    proof {
        assert(errs@.take(errs.len() as int) =~= errs@);
    }
    out
}

} // verus!
