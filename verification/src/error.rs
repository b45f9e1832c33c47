//! The error type shared by every fallible operation of the crate.

use vstd::prelude::*;

verus! {

/// A half-open range of byte offsets into a template's source text.
#[derive(Clone, Copy, Debug, PartialEq, Eq, Structural)]
pub struct Span {
    pub start: usize,
    pub end: usize,
}

/// What went wrong.
#[derive(Clone, Copy, Debug, PartialEq, Eq, Structural)]
pub enum ErrorKind {
    /// The `template` attribute or its configuration is not usable.
    Attribute,
    /// A template's bytes could not be read.
    Load,
    /// A directive names a template that cannot be located.
    Resolution,
    /// The parser rejected a template's source.
    Syntax,
    /// An `extends` chain revisits a template.
    CyclicDependency,
}

/// Where a failing reference was made: the referencing template, its text,
/// and the span of the referencing directive.
#[derive(Debug, PartialEq, Eq)]
pub struct Attribution {
    pub path: String,
    pub source: String,
    pub span: Span,
}

/// The mathematical value of an [`Attribution`].
pub struct AttributionView {
    pub path: Seq<char>,
    pub source: Seq<char>,
    pub span: Span,
}

impl View for Attribution {
    type V = AttributionView;

    open spec fn view(&self) -> AttributionView {
        AttributionView { path: self.path@, source: self.source@, span: self.span }
    }
}

impl Clone for Attribution {
    fn clone(&self) -> (r: Attribution)
        ensures
            r@ == self@,
    {
        Attribution { path: self.path.clone(), source: self.source.clone(), span: self.span }
    }
}

/// The view of an optional attribution.
pub open spec fn attribution_view(a: Option<Attribution>) -> Option<AttributionView> {
    match a {
        Some(a) => Some(a@),
        None => None,
    }
}

/// Copies an optional attribution.
pub fn clone_attribution(a: &Option<Attribution>) -> (r: Option<Attribution>)
    ensures
        attribution_view(r) == attribution_view(*a),
{
    match a {
        Some(a) => Some(a.clone()),
        None => None,
    }
}

/// A terminal failure: its kind, a human-readable message and, where known,
/// the place of the reference that led to it.
#[derive(Debug, PartialEq, Eq)]
pub struct CompileError {
    pub kind: ErrorKind,
    pub message: String,
    pub attribution: Option<Attribution>,
}

/// The mathematical value of a [`CompileError`].
pub struct CompileErrorView {
    pub kind: ErrorKind,
    pub message: Seq<char>,
    pub attribution: Option<AttributionView>,
}

impl View for CompileError {
    type V = CompileErrorView;

    open spec fn view(&self) -> CompileErrorView {
        CompileErrorView {
            kind: self.kind,
            message: self.message@,
            attribution: attribution_view(self.attribution),
        }
    }
}

impl Clone for CompileError {
    fn clone(&self) -> (r: CompileError)
        ensures
            r@ == self@,
    {
        CompileError {
            kind: self.kind,
            message: self.message.clone(),
            attribution: clone_attribution(&self.attribution),
        }
    }
}

impl CompileError {
    /// An error with a message and, if given, the place it is attributed to.
    pub fn new(kind: ErrorKind, message: String, attribution: Option<Attribution>) -> (e:
        CompileError)
        ensures
            e@ == (CompileErrorView {
                kind,
                message: message@,
                attribution: attribution_view(attribution),
            }),
    {
        CompileError { kind, message, attribution }
    }

    /// An error that is attributed to no place in any template.
    pub fn no_file_info(kind: ErrorKind, message: String) -> (e: CompileError)
        ensures
            e@ == (CompileErrorView { kind, message: message@, attribution: None }),
    {
        CompileError { kind, message, attribution: None }
    }

    /// The message as an owned string.
    pub fn to_string(&self) -> (s: String)
        ensures
            s@ == self.message@,
    {
        self.message.clone()
    }
}

} // verus!
