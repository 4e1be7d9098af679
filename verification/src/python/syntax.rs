//! What the Python reader reads of a module and of a docstring, as plain
//! values: the statements `rustpython-parser` finds, and the sections
//! `pydocstring` finds in each docstring.

use vstd::prelude::*;

use pydocstring::model::{
    Block as ModelBlock, ExceptionEntry, Parameter, Section as ModelSection, SectionKind,
};
use rustpython_parser::ast::{self, Constant, Expr, Ranged, Stmt};

verus! {

// -- the module -------------------------------------------------------------------

/// One parameter of a `def`: its name, whether it is annotated and the
/// annotation's source text (absent where the source could not be sliced),
/// and the source text of its default.
pub struct PyArg {
    pub name: String,
    pub annotated: bool,
    pub annotation: Option<String>,
    pub default: Option<String>,
}

/// A `def`'s parameter list, in its five parts.
pub struct PyArguments {
    pub posonly: Vec<PyArg>,
    pub args: Vec<PyArg>,
    pub vararg: Option<PyArg>,
    pub kwonly: Vec<PyArg>,
    pub kwarg: Option<PyArg>,
}

/// A statement, as far as the reader looks at one.
pub enum PyStmt {
    /// `def` or `async def`.
    Def { name: String, args: PyArguments, body: Vec<PyStmt>, is_async: bool },
    /// `class`.
    Class { name: String, body: Vec<PyStmt> },
    /// A bare string expression: in first position, a docstring.
    Str { value: String },
    /// Anything else.
    Other,
}

// -- the docstring ----------------------------------------------------------------

/// One block of a docstring section.
pub enum DocBlock {
    Paragraph(String),
    Parameter {
        names: Vec<String>,
        ty: Option<String>,
        default: Option<String>,
        optional: bool,
        description: Option<String>,
    },
    Return { ty: Option<String>, description: Option<String> },
    /// An exception entry, as its `Debug` text with the description left
    /// out, where the exception's name stands as a quoted string, and its
    /// description.
    Exception { entry: String, description: Option<String> },
    Attribute { names: Vec<String> },
    Method { name: String },
    SeeAlso { names: Vec<String> },
    /// A citation, as its debug rendering.
    Reference(String),
    Other,
}

/// A docstring section: its kind as `pydocstring` spells it (`Parameters`,
/// `FreeText(Examples)`), the free-text kind alone where it is one
/// (`Examples`), and its blocks.
pub struct DocSection {
    pub kind: String,
    pub free: Option<String>,
    pub blocks: Vec<DocBlock>,
}

/// A parsed docstring.
pub struct Docstring {
    pub summary: Option<String>,
    pub extended_summary: Option<String>,
    pub sections: Vec<DocSection>,
}

// -- reading them -----------------------------------------------------------------

#[verifier::external_type_specification]
#[verifier::external_body]
#[verifier::reject_recursive_types(R)]
pub struct ExPyAstStmt<R>(Stmt<R>);

#[verifier::external_type_specification]
#[verifier::external_body]
#[verifier::reject_recursive_types(R)]
pub struct ExPyAstExpr<R>(Expr<R>);

#[verifier::external_type_specification]
#[verifier::external_body]
#[verifier::reject_recursive_types(R)]
pub struct ExPyAstArguments<R>(ast::Arguments<R>);

#[verifier::external_type_specification]
#[verifier::external_body]
#[verifier::reject_recursive_types(R)]
pub struct ExPyAstArg<R>(ast::Arg<R>);

#[verifier::external_type_specification]
#[verifier::external_body]
pub struct ExPyTextRange(rustpython_parser::text_size::TextRange);

#[verifier::external_type_specification]
#[verifier::external_body]
pub struct ExDocSection(ModelSection);

#[verifier::external_type_specification]
#[verifier::external_body]
pub struct ExDocBlock(ModelBlock);

#[verifier::external_type_specification]
#[verifier::external_body]
pub struct ExDocParameter(Parameter);

#[verifier::external_type_specification]
#[verifier::external_body]
pub struct ExDocException(ExceptionEntry);

/// Whether `rustpython-parser` accepts `source` as a module, read from `path`.
pub uninterp spec fn python_parses(source: Seq<char>, path: Seq<char>) -> bool;

/// What `pydocstring` reads of a docstring, carried over.
pub uninterp spec fn docstring_model(text: Seq<char>) -> Docstring;

/// The statements `rustpython-parser` reads from `source` as a module read
/// from `path`, each carried over as a [`PyStmt`].
pub uninterp spec fn python_suite(source: Seq<char>, path: Seq<char>) -> Seq<PyStmt>;

/// The `Display` text of the error `rustpython-parser` refuses `source`,
/// read from `path`, with.
pub uninterp spec fn python_refusal(source: Seq<char>, path: Seq<char>) -> Seq<char>;

/// `ast::Suite::parse` (the `Parse` trait of `rustpython-parser`): the
/// statements of a module, each carried over as a [`PyStmt`], or the
/// parser's `Display` text of why there are none.
#[verifier::external_body]
pub(crate) fn parse_suite(source: &str, path: &str) -> (r: Result<Vec<PyStmt>, String>)
    ensures
        r is Ok <==> python_parses(source@, path@),
        r matches Ok(statements) ==> statements@ == python_suite(source@, path@),
        r matches Err(message) ==> message@ == python_refusal(source@, path@),
{
    <rustpython_parser::ast::Suite as rustpython_parser::Parse>::parse(source, path)
        .map(|suite| suite.iter().map(|stmt| stmt_of(stmt, source)).collect())
        .map_err(|error| error.to_string())
}

/// A parsed statement as a [`PyStmt`]: `def`, `async def` and `class` keep
/// their name and body, a `def` its parameters; a statement that is a string
/// constant keeps the string.
#[verifier::external_body]
fn stmt_of(stmt: &Stmt, source: &str) -> PyStmt {
    match stmt {
        Stmt::FunctionDef(d) => def_of(d.name.as_str(), &d.args, &d.body, false, source),
        Stmt::AsyncFunctionDef(d) => def_of(d.name.as_str(), &d.args, &d.body, true, source),
        Stmt::ClassDef(d) => PyStmt::Class {
            name: d.name.to_string(),
            body: d.body.iter().map(|s| stmt_of(s, source)).collect(),
        },
        Stmt::Expr(e) => constant_of(&e.value),
        _ => PyStmt::Other,
    }
}

/// A `def` as a [`PyStmt`], its body carried over statement by statement.
#[verifier::external_body]
fn def_of(name: &str, args: &ast::Arguments, body: &Vec<Stmt>, is_async: bool, source: &str) -> PyStmt {
    PyStmt::Def {
        name: name.to_owned(),
        args: arguments_of(args, source),
        body: body.iter().map(|s| stmt_of(s, source)).collect(),
        is_async,
    }
}

/// An expression statement as a [`PyStmt`]: a string constant keeps its
/// string.
#[verifier::external_body]
fn constant_of(expr: &Expr) -> PyStmt {
    match expr {
        Expr::Constant(c) => match &c.value {
            Constant::Str(value) => PyStmt::Str { value: value.clone() },
            _ => PyStmt::Other,
        },
        _ => PyStmt::Other,
    }
}

/// A parameter list as [`PyArguments`], part by part.
#[verifier::external_body]
fn arguments_of(args: &ast::Arguments, source: &str) -> PyArguments {
    let all = |list: &Vec<ast::ArgWithDefault>| {
        list.iter().map(|a| arg_of(&a.def, a.default.as_deref(), source)).collect()
    };
    PyArguments {
        posonly: all(&args.posonlyargs),
        args: all(&args.args),
        vararg: args.vararg.as_deref().map(|a| arg_of(a, None, source)),
        kwonly: all(&args.kwonlyargs),
        kwarg: args.kwarg.as_deref().map(|a| arg_of(a, None, source)),
    }
}

/// One parameter as a [`PyArg`]: the annotation and the default as the
/// source text their ranges cover.
#[verifier::external_body]
fn arg_of(arg: &ast::Arg, default: Option<&Expr>, source: &str) -> PyArg {
    let text = |range: rustpython_parser::text_size::TextRange| {
        source.get(usize::from(range.start())..usize::from(range.end())).map(str::to_owned)
    };
    PyArg {
        name: arg.arg.to_string(),
        annotated: arg.annotation.is_some(),
        annotation: arg.annotation.as_ref().and_then(|a| text(a.range())),
        default: default.and_then(|d| text(d.range())),
    }
}

/// `pydocstring::parse::parse(text).to_model()`, carried over.
#[verifier::external_body]
pub(crate) fn parse_docstring(text: &str) -> (r: Docstring)
    ensures
        r == docstring_model(text@),
{
    let model = pydocstring::parse::parse(text).to_model();
    Docstring {
        summary: model.summary,
        extended_summary: model.extended_summary,
        sections: model.sections.iter().map(section_of).collect(),
    }
}

/// A section as a [`DocSection`]: its kind's `Debug` text, and for a
/// free-text section that of the free kind alone.
#[verifier::external_body]
fn section_of(section: &ModelSection) -> DocSection {
    DocSection {
        kind: format!("{:?}", section.kind),
        free: match &section.kind {
            SectionKind::FreeText(free) => Some(format!("{:?}", free)),
            _ => None,
        },
        blocks: section.blocks.iter().map(block_of).collect(),
    }
}

/// A block as a [`DocBlock`], field for field.
#[verifier::external_body]
fn block_of(block: &ModelBlock) -> DocBlock {
    match block {
        ModelBlock::Paragraph(text) => DocBlock::Paragraph(text.clone()),
        ModelBlock::Parameter(p) => parameter_of(p),
        ModelBlock::Return(r) => DocBlock::Return { ty: r.type_annotation.clone(), description: r.description.clone() },
        ModelBlock::Exception(e) => exception_of(e),
        ModelBlock::Attribute(a) => DocBlock::Attribute { names: a.names.clone() },
        ModelBlock::Method(m) => DocBlock::Method { name: m.name.clone() },
        ModelBlock::SeeAlso(s) => DocBlock::SeeAlso { names: s.names.clone() },
        ModelBlock::Reference(r) => DocBlock::Reference(format!("{:?}", r)),
        _ => DocBlock::Other,
    }
}

/// A parameter entry as a [`DocBlock`], field for field.
#[verifier::external_body]
fn parameter_of(p: &Parameter) -> DocBlock {
    DocBlock::Parameter {
        names: p.names.clone(),
        ty: p.type_annotation.clone(),
        default: p.default_value.clone(),
        optional: p.is_optional,
        description: p.description.clone(),
    }
}

/// An exception entry as a [`DocBlock`]: its `Debug` text without the
/// description, and the description.
#[verifier::external_body]
fn exception_of(e: &ExceptionEntry) -> DocBlock {
    DocBlock::Exception {
        entry: format!("{:?}", ExceptionEntry { description: None, ..e.clone() }),
        description: e.description.clone(),
    }
}

} // verus!
