//! The `typst-syntax` tree, as far as the reader walks it.

use vstd::prelude::*;

use typst_syntax::ast;

verus! {

/// A node of the concrete syntax tree: its kind as `SyntaxKind::name`
/// spells it (`line comment`, `` `let` expression ``, `closure parameters`),
/// the source text it covers, and its children; for an `import`
/// expression, what the AST reads of it, and for a `let` expression, the
/// names it binds.
pub struct Cst {
    pub kind: String,
    pub text: String,
    pub children: Vec<Cst>,
    pub import: Option<RawImport>,
    pub bindings: Vec<String>,
}

/// An `import` expression as the AST reads it (`ast::ModuleImport`).
pub struct RawImport {
    /// The source, where it is a string literal, unquoted (`ast::Str::get`).
    pub source: Option<String>,
    /// The name the module is bound to with `as` (`new_name`).
    pub new_name: Option<String>,
    /// The items imported (`imports`).
    pub items: RawItems,
}

/// The items of an `import` expression.
pub enum RawItems {
    /// None listed: the module itself is bound.
    Bare,
    /// `*`.
    Wildcard,
    /// Each item's original and bound name.
    Named(Vec<(String, String)>),
}

#[verifier::external_type_specification]
#[verifier::external_body]
pub struct ExModuleImport<'a>(ast::ModuleImport<'a>);

#[verifier::external_type_specification]
#[verifier::external_body]
pub struct ExSyntaxNode(typst_syntax::SyntaxNode);

/// The tree `typst_syntax::parse` reads from a source, carried over.
pub uninterp spec fn markup_tree(source: Seq<char>) -> Cst;

/// `typst_syntax::parse`: markup-mode parsing, which is total, with its
/// tree carried over by [`cst_of`].
#[verifier::external_body]
pub(crate) fn parse_markup(source: &str) -> (r: Cst)
    ensures
        r == markup_tree(source@),
{
    cst_of(&typst_syntax::parse(source))
}

/// A syntax node as a [`Cst`]: `SyntaxKind::name` of its kind, the text it
/// covers (`SyntaxNode::full_text`), and its children, carried over the same
/// way.
#[verifier::external_body]
fn cst_of(node: &typst_syntax::SyntaxNode) -> Cst {
    Cst {
        kind: node.kind().name().to_owned(),
        text: node.full_text().to_string(),
        children: node.children().map(cst_of).collect(),
        import: node.cast::<ast::ModuleImport>().map(import_of),
        bindings: match node.cast::<ast::LetBinding>() {
            Some(b) => b.kind().bindings().iter().map(|i| i.get().to_string()).collect(),
            None => Vec::new(),
        },
    }
}

/// An `import` expression as a [`RawImport`], field for field.
#[verifier::external_body]
fn import_of(import: ast::ModuleImport) -> RawImport {
    RawImport {
        source: match import.source() {
            ast::Expr::Str(path) => Some(path.get().to_string()),
            _ => None,
        },
        new_name: import.new_name().map(|name| name.get().to_string()),
        items: match import.imports() {
            None => RawItems::Bare,
            Some(ast::Imports::Wildcard) => RawItems::Wildcard,
            Some(ast::Imports::Items(list)) => RawItems::Named(list.iter().map(|i| (i.original_name().get().to_string(), i.bound_name().get().to_string())).collect()),
        },
    }
}

} // verus!
