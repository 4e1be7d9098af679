//! The command line, as values: what the program was asked to read, where
//! to write it, and how.

use vstd::prelude::*;

use crate::typst::ParamsFormat;

verus! {

/// A run's arguments.
pub struct Cli {
    /// Input `.Rd`, `.py`, `.typ`, or man page (`.1`, `.3`, `.man`) files,
    /// or directories of them. Topics are joined into one document, in the
    /// order given; a directory contributes its recognised files in name
    /// order.
    pub inputs: Vec<String>,
    /// Directory to write the manual into, created if missing: one
    /// `<topic>.typ` file per topic, plus an `index.typ` that outlines and
    /// includes them all. Without it, the whole manual goes to stdout as a
    /// single document.
    pub output: Option<String>,
    /// A Typst file whose contents replace the default template.
    pub template: Option<String>,
    /// Include internal topics: `\keyword{internal}` in R and `_`-prefixed
    /// names in Python. Typst `_` definitions are always private.
    pub include_internal: bool,
    /// How the template should lay out parameter lists.
    pub params: ParamsFormat,
}

} // verus!
