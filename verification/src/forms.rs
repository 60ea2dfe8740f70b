//! The multipart forms of the upload endpoints: which field is which, the
//! defaults of the fields left out, and what a complete form yields.

use vstd::prelude::*;
use crate::config::{parse_unsigned, parse_usize};
use crate::error::{bad_request, error_view, AppError};
use crate::xliff::ParseError;
use crate::text::{push_char, push_str, str_eq, strs};

verus! {

/// The field of an alignment form.
pub enum AlignField {
    SourceFile,
    TargetFile,
    SourceLang,
    TargetLang,
    /// Any other field, read and dropped.
    Other,
}

/// Which field of an alignment form a part is, by its name.
pub fn align_field(name: &str) -> (r: AlignField)
    ensures
        r is SourceFile <==> name@ == "source_file"@,
        r is TargetFile <==> name@ == "target_file"@,
        r is SourceLang <==> name@ == "source_lang"@,
        r is TargetLang <==> name@ == "target_lang"@,
{
    proof {
        reveal_strlit("source_file");
        reveal_strlit("target_file");
        reveal_strlit("source_lang");
        reveal_strlit("target_lang");
        assert("source_file"@ != "target_file"@ && "source_file"@ != "source_lang"@
            && "source_file"@ != "target_lang"@ && "target_file"@ != "source_lang"@
            && "target_file"@ != "target_lang"@ && "source_lang"@ != "target_lang"@) by {
            assert("source_file"@[0] != "target_file"@[0]);
            assert("source_file"@[7] != "source_lang"@[7]);
            assert("source_file"@[0] != "target_lang"@[0]);
            assert("target_file"@[0] != "source_lang"@[0]);
            assert("target_file"@[7] != "target_lang"@[7]);
            assert("source_lang"@[0] != "target_lang"@[0]);
        }
    }
    if str_eq(name, "source_file") {
        AlignField::SourceFile
    } else if str_eq(name, "target_file") {
        AlignField::TargetFile
    } else if str_eq(name, "source_lang") {
        AlignField::SourceLang
    } else if str_eq(name, "target_lang") {
        AlignField::TargetLang
    } else {
        AlignField::Other
    }
}

/// A file of a form: its name and bytes.
pub struct FormFile {
    pub name: String,
    pub bytes: Vec<u8>,
}

fn file_or(name: Option<String>, default: &str, bytes: Vec<u8>) -> (r: FormFile)
    ensures
        r.name@ == match name {
            Some(n) => n@,
            None => default@,
        },
        r.bytes == bytes,
{
    let name = match name {
        Some(n) => n,
        None => String::from_str(default),
    };
    FormFile { name, bytes }
}

/// The fields of an alignment form read so far.
pub struct AlignForm {
    pub source: Option<FormFile>,
    pub target: Option<FormFile>,
    pub source_lang: String,
    pub target_lang: String,
}

/// A complete alignment form.
pub struct AlignInput {
    pub source: FormFile,
    pub target: FormFile,
    pub source_lang: String,
    pub target_lang: String,
}

impl AlignForm {
    /// An empty form: no files, languages `en` and `ko`.
    pub fn new() -> (r: AlignForm)
        ensures
            r.source is None,
            r.target is None,
            r.source_lang@ == "en"@,
            r.target_lang@ == "ko"@,
    {
        AlignForm {
            source: None,
            target: None,
            source_lang: String::from_str("en"),
            target_lang: String::from_str("ko"),
        }
    }

    /// Records the source file (named `source.txt` when the part has no
    /// file name); a later one replaces it.
    pub fn set_source(&mut self, file_name: Option<String>, bytes: Vec<u8>)
        ensures
            final(self).source matches Some(f) && f.name@ == (match file_name {
                Some(n) => n@,
                None => "source.txt"@,
            }) && f.bytes == bytes,
            final(self).target == old(self).target,
            final(self).source_lang == old(self).source_lang,
            final(self).target_lang == old(self).target_lang,
    {
        self.source = Some(file_or(file_name, "source.txt", bytes));
    }

    /// Records the target file (named `target.txt` when the part has no
    /// file name); a later one replaces it.
    pub fn set_target(&mut self, file_name: Option<String>, bytes: Vec<u8>)
        ensures
            final(self).target matches Some(f) && f.name@ == (match file_name {
                Some(n) => n@,
                None => "target.txt"@,
            }) && f.bytes == bytes,
            final(self).source == old(self).source,
            final(self).source_lang == old(self).source_lang,
            final(self).target_lang == old(self).target_lang,
    {
        self.target = Some(file_or(file_name, "target.txt", bytes));
    }

    /// The form once all parts are read: both files are needed.
    pub fn finish(self) -> (r: Result<AlignInput, AppError>)
        ensures
            match (self.source, self.target) {
                (Some(s), Some(t)) => r matches Ok(i) && i.source == s && i.target == t
                    && i.source_lang == self.source_lang && i.target_lang == self.target_lang,
                (None, _) => r matches Err(e) && error_view(e) == bad_request(
                    "Missing 'source_file' field"@,
                ),
                (Some(_), None) => r matches Err(e) && error_view(e) == bad_request(
                    "Missing 'target_file' field"@,
                ),
            },
    {
        match self.source {
            None => Err(AppError::bad_request("Missing 'source_file' field")),
            Some(source) => match self.target {
                None => Err(AppError::bad_request("Missing 'target_file' field")),
                Some(target) => Ok(
                    AlignInput {
                        source,
                        target,
                        source_lang: self.source_lang,
                        target_lang: self.target_lang,
                    },
                ),
            },
        }
    }
}

/// A document that cannot be read is a bad request with the reader's
/// message.
pub fn unreadable(e: ParseError) -> (r: AppError)
    ensures
        error_view(r) == bad_request(e.message@),
{
    AppError::BadRequest(e.message)
}

// ───────────────────────────── term extraction ─────────────────────────────

/// The field of a term-extraction form.
pub enum TermField {
    SourceFile,
    SourceLang,
    MaxCandidates,
    /// Any other field, read and dropped.
    Other,
}

/// Which field of a term-extraction form a part is, by its name.
pub fn term_field(name: &str) -> (r: TermField)
    ensures
        r is SourceFile <==> name@ == "source_file"@,
        r is SourceLang <==> name@ == "source_lang"@,
        r is MaxCandidates <==> name@ == "max_candidates"@,
{
    proof {
        reveal_strlit("source_file");
        reveal_strlit("source_lang");
        reveal_strlit("max_candidates");
        assert("source_file"@[7] != "source_lang"@[7]);
        assert("source_file"@[0] != "max_candidates"@[0]);
        assert("source_lang"@[0] != "max_candidates"@[0]);
    }
    if str_eq(name, "source_file") {
        TermField::SourceFile
    } else if str_eq(name, "source_lang") {
        TermField::SourceLang
    } else if str_eq(name, "max_candidates") {
        TermField::MaxCandidates
    } else {
        TermField::Other
    }
}

/// The fields of a term-extraction form read so far.
pub struct TermForm {
    pub file: Option<FormFile>,
    pub source_lang: String,
    pub max_candidates: usize,
}

impl TermForm {
    /// An empty form: no file, language `en`, at most 50 candidates.
    pub fn new() -> (r: TermForm)
        ensures
            r.file is None,
            r.source_lang@ == "en"@,
            r.max_candidates == 50,
    {
        TermForm { file: None, source_lang: String::from_str("en"), max_candidates: 50 }
    }

    /// Records the document (named `source.txt` when the part has no file
    /// name).
    pub fn set_file(&mut self, file_name: Option<String>, bytes: Vec<u8>)
        ensures
            final(self).file matches Some(f) && f.name@ == (match file_name {
                Some(n) => n@,
                None => "source.txt"@,
            }) && f.bytes == bytes,
            final(self).source_lang == old(self).source_lang,
            final(self).max_candidates == old(self).max_candidates,
    {
        self.file = Some(file_or(file_name, "source.txt", bytes));
    }

    /// Records the number of candidates asked for; text that is not a
    /// number gives 50.
    pub fn set_max_candidates(&mut self, text: &str)
        ensures
            final(self).max_candidates == match parse_unsigned(text@, usize::MAX as nat) {
                Ok(n) => n,
                Err(_) => 50,
            },
            final(self).file == old(self).file,
            final(self).source_lang == old(self).source_lang,
    {
        self.max_candidates = match parse_usize(text) {
            Ok(n) => n,
            Err(_) => 50,
        };
    }

    /// The document, once all parts are read.
    pub fn finish(self) -> (r: Result<FormFile, AppError>)
        ensures
            match self.file {
                Some(f) => r matches Ok(g) && g == f,
                None => r matches Err(e) && error_view(e) == bad_request(
                    "Missing 'source_file' field"@,
                ),
            },
    {
        match self.file {
            Some(f) => Ok(f),
            None => Err(AppError::bad_request("Missing 'source_file' field")),
        }
    }
}

/// Sentences joined with single spaces.
pub open spec fn joined(s: Seq<Seq<char>>) -> Seq<char>
    decreases s.len(),
{
    if s.len() == 0 {
        seq![]
    } else if s.len() == 1 {
        s[0]
    } else {
        joined(s.drop_last()) + seq![' '] + s.last()
    }
}

/// The text terms are extracted from: the sentences joined with spaces.
pub fn join_sentences(sentences: &Vec<String>) -> (r: String)
    ensures
        r@ == joined(strs(sentences@)),
{
    let mut out = String::new();
    let mut i: usize = 0;
    assert(strs(sentences@).take(0) =~= Seq::<Seq<char>>::empty());
    while i < sentences.len()
        invariant
            i <= sentences@.len(),
            out@ == joined(strs(sentences@).take(i as int)),
        decreases sentences@.len() - i,
    {
        let ghost pre = strs(sentences@).take(i as int);
        assert(strs(sentences@).take(i + 1).drop_last() =~= pre);
        if i > 0 {
            push_char(&mut out, ' ');
        }
        push_str(&mut out, sentences[i].as_str());
        proof {
            if i == 0 {
                assert(out@ =~= strs(sentences@).take(1)[0]);
            } else {
                assert(out@ =~= joined(pre) + seq![' '] + sentences@[i as int]@);
            }
        }
        i = i + 1;
    }
    assert(strs(sentences@).take(sentences@.len() as int) =~= strs(sentences@));
    out
}

// ───────────────────────────── file uploads ─────────────────────────────

/// Whether a part of a project upload is the document.
pub fn is_upload_field(name: &str) -> (r: bool)
    ensures
        r == (name@ == "file"@),
{
    str_eq(name, "file")
}

/// The name of the uploaded document: the part's file name, else `upload`.
pub fn upload_file_name(file_name: Option<String>) -> (r: String)
    ensures
        r@ == match file_name {
            Some(n) => n@,
            None => "upload"@,
        },
{
    match file_name {
        Some(n) => n,
        None => String::from_str("upload"),
    }
}

/// A project upload needs its document.
pub fn require_upload(found: bool) -> (r: Result<(), AppError>)
    ensures
        r is Ok <==> found,
        r matches Err(e) ==> error_view(e) == bad_request("No 'file' field in request"@),
{
    if found {
        Ok(())
    } else {
        Err(AppError::bad_request("No 'file' field in request"))
    }
}

} // verus!
