//! The data the reorder engine works on: parser-reported spans, resolved
//! byte ranges, and a plain-value description of each top-level declaration.

use vstd::prelude::*;

verus! {

/// A position quadruple reported by the structural parser for one syntax
/// node: 1-based start/end lines and 0-based start/end columns.
#[derive(Clone, Copy, Debug)]
pub struct Span {
    pub start_line: usize,
    pub start_col: usize,
    pub end_line: usize,
    pub end_col: usize,
}

/// A resolved `[start, end)` byte range into the source text, clamped to
/// `[0, text length]` with `start <= end`.
#[derive(Clone, Copy, Debug)]
pub struct ByteRange {
    pub start: usize,
    pub end: usize,
}

/// The discriminated kind of a top-level declaration.
#[derive(Clone, Copy, Debug, PartialEq, Eq, Structural)]
pub enum DeclKind {
    Use,
    ExternCrate,
    TypeAlias,
    Const,
    Static,
    Trait,
    TraitAlias,
    Struct,
    Enum,
    Union,
    Mod,
    Impl,
    Fn,
    ForeignMod,
    MacroCall,
    Other,
}

/// The argument of a conditional-compilation attribute, as a boolean
/// expression tree.  Shapes the test-module rule does not recognize are
/// collapsed to `Opaque`, which never matches.
pub enum CfgExpr {
    /// A bare identifier, by its bytes.
    Ident(Vec<u8>),
    /// A parenthesized expression.
    Grouped(Box<CfgExpr>),
    /// A tuple or list of expressions.
    List(Vec<CfgExpr>),
    /// A binary expression; only the two operands matter.
    Binary(Box<CfgExpr>, Box<CfgExpr>),
    /// A call-shaped expression: callee identifier bytes and arguments.
    Call(Vec<u8>, Vec<CfgExpr>),
    /// Any other or unparseable shape; never recognized as a test condition.
    Opaque,
}

/// One top-level declaration: its kind, its own span, the spans of the
/// attributes lexically attached to it, and, for module declarations, the
/// module's name and the arguments of its conditional-compilation
/// attributes.  The fields beyond the kind and the spans are read only by
/// the test-module rule.
pub struct Decl {
    pub kind: DeclKind,
    pub span: Span,
    pub attr_spans: Vec<Span>,
    pub mod_name: Option<Vec<u8>>,
    pub cfg_args: Vec<CfgExpr>,
}

/// Everything the engine needs to know about one parsed file: the shebang
/// line's text if one was present, the spans of the file-level attributes,
/// and the top-level declarations in their original order.
pub struct ParsedFile {
    pub shebang: Option<Vec<u8>>,
    pub file_attr_spans: Vec<Span>,
    pub decls: Vec<Decl>,
}

/// A `Vec<Vec<u8>>` as a mathematical sequence of byte sequences.
pub open spec fn texts_view(b: Vec<Vec<u8>>) -> Seq<Seq<u8>> {
    b@.map_values(|v: Vec<u8>| v@)
}

/// The error of the input-collection step.
#[derive(Clone, Copy, Debug, PartialEq, Eq, Structural)]
pub enum OrderError {
    /// No candidate files were given.
    NoInputFiles,
}

} // verus!
