//! Render R, Python, Typst, and Unix manual-page documentation as Typst.
//!
//! The pipeline has three stages and one shared vocabulary:
//!
//! ```text
//! .Rd   --[r]------>  ir::Topic  --[typst]-->  Typst markup
//! .py   --[python]->
//! .typ  --[typ]---->
//! .1    --[man]---->
//! ```
//!
//! [`ir`] is the contract between them: it depends on no reader and no writer,
//! and every reader targets it. [`manual`] assembles the topics of a run
//! into a manual: which reader each file needs, what each topic is called,
//! and what the index lists.

pub mod cli;
pub mod ir;
pub mod laws;
pub mod man;
pub mod manual;
pub(crate) mod paths;
pub mod python;
pub mod r;
pub mod typ;
pub mod typst;
pub(crate) mod text;

pub use ir::Topic;
pub use typst::{topic_to_typst, Entry, Options, ParamsFormat};
