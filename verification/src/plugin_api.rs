//! The messages exchanged with plugins (metadata, machine translation,
//! file parsing, QA rules), and the example provider that echoes each
//! segment with a `[MT] ` prefix.

use vstd::prelude::*;
use crate::text::concat;

verus! {

/// Describes a plugin and its capabilities.
pub struct PluginMetadata {
    /// Unique reverse-DNS identifier, e.g. `com.example.deepl-mt`.
    pub id: String,
    pub name: String,
    pub version: String,
    pub author: String,
    pub description: String,
    pub kind: PluginKind,
}

/// What a plugin does.
#[derive(PartialEq, Eq, Structural, Clone, Copy)]
pub enum PluginKind {
    MtProvider,
    FileParser,
    QaRule,
}

pub open spec fn kind_name(k: PluginKind) -> Seq<char> {
    match k {
        PluginKind::MtProvider => "mt_provider"@,
        PluginKind::FileParser => "file_parser"@,
        PluginKind::QaRule => "qa_rule"@,
    }
}

impl PluginKind {
    /// The name of the kind in messages.
    pub fn as_str(&self) -> (r: &'static str)
        ensures
            r@ == kind_name(*self),
    {
        match self {
            PluginKind::MtProvider => "mt_provider",
            PluginKind::FileParser => "file_parser",
            PluginKind::QaRule => "qa_rule",
        }
    }
}

/// Input of a translation.
pub struct MtRequest {
    pub source_lang: String,
    pub target_lang: String,
    pub segments: Vec<String>,
}

/// Output of a translation: one text per segment.
pub struct MtResponse {
    pub translations: Vec<String>,
}

/// Input of a file parser.
pub struct ParseRequest {
    /// The file, base-64 encoded.
    pub file_bytes_b64: String,
    /// A MIME type hint.
    pub mime_hint: String,
}

/// A segment found by a file parser.
pub struct ParsedSegment {
    pub id: u32,
    pub source: String,
}

/// Output of a file parser.
pub struct ParseResponse {
    pub segments: Vec<ParsedSegment>,
}

/// A segment pair handed to a QA rule.
pub struct QaSegment {
    pub id: u32,
    pub source: String,
    pub target: String,
}

/// Input of a QA rule.
pub struct QaRequest {
    pub segments: Vec<QaSegment>,
}

/// A problem found by a QA rule.
pub struct QaIssue {
    pub segment_id: u32,
    pub severity: QaSeverity,
    pub message: String,
}

/// How serious a QA problem is.
#[derive(PartialEq, Eq, Structural, Clone, Copy)]
pub enum QaSeverity {
    Error,
    Warning,
    Info,
}

pub open spec fn severity_name(s: QaSeverity) -> Seq<char> {
    match s {
        QaSeverity::Error => "error"@,
        QaSeverity::Warning => "warning"@,
        QaSeverity::Info => "info"@,
    }
}

impl QaSeverity {
    /// The name of the severity in messages.
    pub fn as_str(&self) -> (r: &'static str)
        ensures
            r@ == severity_name(*self),
    {
        match self {
            QaSeverity::Error => "error",
            QaSeverity::Warning => "warning",
            QaSeverity::Info => "info",
        }
    }
}

/// Output of a QA rule.
pub struct QaResponse {
    pub issues: Vec<QaIssue>,
}

/// Either a plugin's answer or its error text.
pub enum PluginResult<T> {
    Success(T),
    Failure { error: String },
}

/// The metadata of the example echo provider.
pub fn echo_metadata() -> (r: PluginMetadata)
    ensures
        r.id@ == "com.example.echo-mt"@,
        r.name@ == "Echo MT Provider"@,
        r.version@ == "0.1.0"@,
        r.author@ == "memoq-clone team"@,
        r.description@ == "Example plugin: echoes each segment with a [MT] prefix."@,
        r.kind == PluginKind::MtProvider,
{
    PluginMetadata {
        id: String::from_str("com.example.echo-mt"),
        name: String::from_str("Echo MT Provider"),
        version: String::from_str("0.1.0"),
        author: String::from_str("memoq-clone team"),
        description: String::from_str("Example plugin: echoes each segment with a [MT] prefix."),
        kind: PluginKind::MtProvider,
    }
}

/// The echo provider's translation: every segment, in order, after `[MT] `.
pub fn echo_translate(req: &MtRequest) -> (r: MtResponse)
    ensures
        r.translations@.len() == req.segments@.len(),
        forall|i: int|
            0 <= i < r.translations@.len() ==> (#[trigger] r.translations@[i])@ == "[MT] "@
                + req.segments@[i]@,
{
    let mut out: Vec<String> = Vec::new();
    let mut i: usize = 0;
    while i < req.segments.len()
        invariant
            i <= req.segments@.len(),
            out@.len() == i,
            forall|k: int| 0 <= k < i ==> (#[trigger] out@[k])@ == "[MT] "@ + req.segments@[k]@,
        decreases req.segments@.len() - i,
    {
        out.push(concat("[MT] ", req.segments[i].as_str()));
        i = i + 1;
    }
    MtResponse { translations: out }
}

/// The echo provider's answer to a request it could not read.
pub fn echo_bad_input() -> (r: PluginResult<MtResponse>)
    ensures
        r matches PluginResult::Failure { error } && error@ == "invalid JSON input"@,
{
    PluginResult::Failure { error: String::from_str("invalid JSON input") }
}

} // verus!
