//! Diagnostics and the documents that they belong to.

use vstd::prelude::*;

verus! {

/// A place in a document: line and character, both counted from 0.
#[derive(Clone, Copy, Debug, PartialEq, Eq, Structural)]
pub struct Position {
    pub line: u32,
    pub character: u32,
}

/// A stretch of a document, from `start` to `end`.
#[derive(Clone, Copy, Debug, PartialEq, Eq, Structural)]
pub struct Range {
    pub start: Position,
    pub end: Position,
}

/// How grave a diagnostic is.
#[derive(Clone, Copy, Debug, PartialEq, Eq, Structural)]
pub enum DiagnosticSeverity {
    Error,
    Warning,
    Information,
    Hint,
}

/// The code of a diagnostic: a number or a string.
#[derive(Clone, Debug, PartialEq, Eq)]
pub enum NumberOrString {
    Number(i32),
    String(String),
}

/// What a `NumberOrString` holds.
pub enum CodeView {
    Number(i32),
    String(Seq<char>),
}

impl View for NumberOrString {
    type V = CodeView;

    open spec fn view(&self) -> CodeView {
        match self {
            NumberOrString::Number(n) => CodeView::Number(*n),
            NumberOrString::String(s) => CodeView::String(s@),
        }
    }
}

/// A tracked document at one of its versions.
#[derive(Clone, Debug, PartialEq, Eq)]
pub struct DocumentId {
    /// The canonical URI of the document.
    pub uri: String,
    /// 0 for what was read from disk; the editor's number for a live buffer.
    pub version: i32,
}

/// What a `DocumentId` holds.
pub struct DocumentIdView {
    pub uri: Seq<char>,
    pub version: i32,
}

impl View for DocumentId {
    type V = DocumentIdView;

    open spec fn view(&self) -> DocumentIdView {
        DocumentIdView { uri: self.uri@, version: self.version }
    }
}

impl DocumentId {
    /// The document `uri` at `version`.
    pub fn new(uri: String, version: i32) -> (r: DocumentId)
        ensures
            r.uri == uri,
            r.version == version,
    {
        DocumentId { uri, version }
    }

    /// A copy of the identifier.
    pub fn duplicate(&self) -> (r: DocumentId)
        ensures
            r == *self,
    {
        DocumentId { uri: self.uri.clone(), version: self.version }
    }

    /// Whether two identifiers name the same document at the same version.
    pub fn same_as(&self, other: &DocumentId) -> (r: bool)
        ensures
            r == (self@ == other@),
    {
        self.uri == other.uri && self.version == other.version
    }
}

/// One finding about a document.
#[derive(Clone, Debug, PartialEq, Eq)]
pub struct Diagnostic {
    pub range: Range,
    pub severity: Option<DiagnosticSeverity>,
    pub code: Option<NumberOrString>,
    pub source: Option<String>,
    pub message: String,
}

/// What a `Diagnostic` holds.
pub struct DiagnosticView {
    pub range: Range,
    pub severity: Option<DiagnosticSeverity>,
    pub code: Option<CodeView>,
    pub source: Option<Seq<char>>,
    pub message: Seq<char>,
}

impl View for Diagnostic {
    type V = DiagnosticView;

    open spec fn view(&self) -> DiagnosticView {
        DiagnosticView {
            range: self.range,
            severity: self.severity,
            code: match self.code {
                Some(c) => Some(c@),
                None => None,
            },
            source: match self.source {
                Some(s) => Some(s@),
                None => None,
            },
            message: self.message@,
        }
    }
}

/// A diagnostic with the document that it is about.
pub type Finding = (DocumentId, Diagnostic);

/// What a `Finding` holds.
pub type FindingView = (DocumentIdView, DiagnosticView);

impl Diagnostic {
    /// A copy of the diagnostic.
    pub fn duplicate(&self) -> (r: Diagnostic)
        ensures
            r@ == self@,
    {
        Diagnostic {
            range: self.range,
            severity: self.severity,
            code: match &self.code {
                Some(NumberOrString::Number(n)) => Some(NumberOrString::Number(*n)),
                Some(NumberOrString::String(s)) => Some(NumberOrString::String(s.clone())),
                None => None,
            },
            source: match &self.source {
                Some(s) => Some(s.clone()),
                None => None,
            },
            message: self.message.clone(),
        }
    }
}

} // verus!
