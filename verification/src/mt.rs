//! Machine translation through DeepL or Google: which request is sent for
//! a translation, and what is answered from the provider's reply.

use vstd::prelude::*;
use crate::error::{bad_request, error_view, internal, AppError};
use crate::text::{blank, chars_of, concat, ends_with, is_blank, str_eq, string_of};

verus! {

/// Body of a translation request.
pub struct MtTranslateRequest {
    pub source: String,
    pub source_lang: String,
    pub target_lang: String,
    pub provider: String,
    pub api_key: String,
}

/// The answer of a translation.
pub struct MtResult {
    pub source: String,
    pub target: String,
    pub provider: String,
}

/// The request to send to a provider.
pub enum MtCall {
    /// A form post to DeepL with the authorization header.
    DeepL { url: String, authorization: String, text: String, source_lang: String, target_lang: String },
    /// A JSON post to Google Translate.
    Google { url: String, q: String, source: String, target: String },
}

/// ASCII lower case of a character; other characters are kept.
pub open spec fn ascii_lower(c: char) -> char {
    if 'A' <= c <= 'Z' {
        ((c as u32) + 32) as char
    } else {
        c
    }
}

pub open spec fn ascii_lower_text(s: Seq<char>) -> Seq<char> {
    Seq::new(s.len(), |i: int| ascii_lower(s[i]))
}

fn to_ascii_lowercase(s: &str) -> (r: String)
    ensures
        r@ == ascii_lower_text(s@),
{
    let cs = chars_of(s);
    let mut out: Vec<char> = Vec::new();
    let mut i: usize = 0;
    while i < cs.len()
        invariant
            i <= cs@.len(),
            cs@ == s@,
            out@ == ascii_lower_text(s@).take(i as int),
        decreases cs@.len() - i,
    {
        let c = cs[i];
        let l = if 'A' <= c && c <= 'Z' {
            ((c as u32) + 32) as u8 as char
        } else {
            c
        };
        assert(l == ascii_lower(c)) by {
            if 'A' <= c && c <= 'Z' {
                assert(((c as u32) + 32) as u8 as char == ((c as u32) + 32) as char);
            }
        }
        out.push(l);
        assert(out@ =~= ascii_lower_text(s@).take(i + 1));
        i = i + 1;
    }
    assert(ascii_lower_text(s@).take(cs@.len() as int) =~= ascii_lower_text(s@));
    string_of(&out)
}

/// DeepL's code for a language code (any case); codes it does not know
/// are passed on as given.
pub open spec fn deepl_lang(lang: Seq<char>) -> Seq<char> {
    let l = ascii_lower_text(lang);
    if l == "ko"@ || l == "ko-kr"@ {
        "KO"@
    } else if l == "en"@ || l == "en-us"@ {
        "EN-US"@
    } else if l == "en-gb"@ {
        "EN-GB"@
    } else if l == "ja"@ || l == "ja-jp"@ {
        "JA"@
    } else if l == "zh"@ || l == "zh-cn"@ {
        "ZH"@
    } else if l == "de"@ || l == "de-de"@ {
        "DE"@
    } else if l == "fr"@ || l == "fr-fr"@ {
        "FR"@
    } else if l == "es"@ || l == "es-es"@ {
        "ES"@
    } else {
        lang
    }
}

/// Normalises a language code for DeepL (`ko-KR` → `KO`, `en` → `EN-US`).
pub fn normalize_deepl_lang(lang: &str) -> (r: String)
    ensures
        r@ == deepl_lang(lang@),
{
    let l = to_ascii_lowercase(lang);
    let t = l.as_str();
    if str_eq(t, "ko") || str_eq(t, "ko-kr") {
        String::from_str("KO")
    } else if str_eq(t, "en") || str_eq(t, "en-us") {
        String::from_str("EN-US")
    } else if str_eq(t, "en-gb") {
        String::from_str("EN-GB")
    } else if str_eq(t, "ja") || str_eq(t, "ja-jp") {
        String::from_str("JA")
    } else if str_eq(t, "zh") || str_eq(t, "zh-cn") {
        String::from_str("ZH")
    } else if str_eq(t, "de") || str_eq(t, "de-de") {
        String::from_str("DE")
    } else if str_eq(t, "fr") || str_eq(t, "fr-fr") {
        String::from_str("FR")
    } else if str_eq(t, "es") || str_eq(t, "es-es") {
        String::from_str("ES")
    } else {
        String::from_str(lang)
    }
}

proof fn lemma_lower_prefix(code: Seq<char>, up: Seq<char>, low: Seq<char>)
    requires
        up.len() >= 2,
        low.len() == 2,
        ascii_lower(up[0]) == low[0],
        ascii_lower(up[1]) == low[1],
        ascii_lower_text(code).len() >= 2,
        ascii_lower_text(code).take(2) == low,
    ensures
        ascii_lower_text(up).take(2) == ascii_lower_text(code).take(2),
{
    assert(ascii_lower_text(up).take(2) =~= low);
}

/// The DeepL code of a language names that same language: lower-cased, it
/// starts with the first two letters of the given code, lower-cased
/// (`fr` and `fr-FR` give `FR`, `en-gb` gives `EN-GB`); a code DeepL does
/// not know is passed on unchanged.
pub proof fn lemma_deepl_same_language(lang: Seq<char>)
    requires
        lang.len() >= 2,
    ensures
        deepl_lang(lang).len() >= 2,
        ascii_lower_text(deepl_lang(lang)).take(2) == ascii_lower_text(lang).take(2),
{
    reveal_strlit("ko");
    reveal_strlit("ko-kr");
    reveal_strlit("en");
    reveal_strlit("en-us");
    reveal_strlit("en-gb");
    reveal_strlit("ja");
    reveal_strlit("ja-jp");
    reveal_strlit("zh");
    reveal_strlit("zh-cn");
    reveal_strlit("de");
    reveal_strlit("de-de");
    reveal_strlit("fr");
    reveal_strlit("fr-fr");
    reveal_strlit("es");
    reveal_strlit("es-es");
    reveal_strlit("KO");
    reveal_strlit("EN-US");
    reveal_strlit("EN-GB");
    reveal_strlit("JA");
    reveal_strlit("ZH");
    reveal_strlit("DE");
    reveal_strlit("FR");
    reveal_strlit("ES");
    let l = ascii_lower_text(lang);
    let r = deepl_lang(lang);
    if l == "ko"@ || l == "ko-kr"@ {
        assert(l.take(2) =~= "ko"@);
        lemma_lower_prefix(lang, r, "ko"@);
    } else if l == "en"@ || l == "en-us"@ {
        assert(l.take(2) =~= "en"@);
        lemma_lower_prefix(lang, r, "en"@);
    } else if l == "en-gb"@ {
        assert(l.take(2) =~= "en"@);
        lemma_lower_prefix(lang, r, "en"@);
    } else if l == "ja"@ || l == "ja-jp"@ {
        assert(l.take(2) =~= "ja"@);
        lemma_lower_prefix(lang, r, "ja"@);
    } else if l == "zh"@ || l == "zh-cn"@ {
        assert(l.take(2) =~= "zh"@);
        lemma_lower_prefix(lang, r, "zh"@);
    } else if l == "de"@ || l == "de-de"@ {
        assert(l.take(2) =~= "de"@);
        lemma_lower_prefix(lang, r, "de"@);
    } else if l == "fr"@ || l == "fr-fr"@ {
        assert(l.take(2) =~= "fr"@);
        lemma_lower_prefix(lang, r, "fr"@);
    } else if l == "es"@ || l == "es-es"@ {
        assert(l.take(2) =~= "es"@);
        lemma_lower_prefix(lang, r, "es"@);
    }
}

/// The DeepL endpoint for a key: keys ending in `:fx` are free-tier keys.
pub open spec fn deepl_url(api_key: Seq<char>) -> Seq<char> {
    if api_key.len() >= 3 && api_key.skip(api_key.len() - 3) == ":fx"@ {
        "https://api-free.deepl.com/v2/translate"@
    } else {
        "https://api.deepl.com/v2/translate"@
    }
}

/// The code Google gets for a language code: what precedes the first `-`.
pub open spec fn google_lang(lang: Seq<char>) -> Seq<char> {
    if exists|i: int| 0 <= i < lang.len() && lang[i] == '-' {
        lang.take(choose|i: int| 0 <= i < lang.len() && lang[i] == '-' && forall|j: int| 0 <= j < i ==> lang[j] != '-')
    } else {
        lang
    }
}

fn first_subtag(lang: &str) -> (r: String)
    ensures
        r@ == google_lang(lang@),
{
    let cs = chars_of(lang);
    let mut i: usize = 0;
    while i < cs.len()
        invariant
            i <= cs@.len(),
            cs@ == lang@,
            forall|j: int| 0 <= j < i ==> cs@[j] != '-',
        decreases cs@.len() - i,
    {
        if cs[i] == '-' {
            let mut out: Vec<char> = Vec::new();
            let mut k: usize = 0;
            while k < i
                invariant
                    k <= i,
                    i < cs@.len(),
                    out@ == cs@.take(k as int),
                decreases i - k,
            {
                out.push(cs[k]);
                assert(out@ =~= cs@.take(k + 1));
                k = k + 1;
            }
            proof {
                let w = choose|w: int|
                    0 <= w < lang@.len() && lang@[w] == '-' && forall|j: int| 0 <= j < w ==> lang@[j] != '-';
                assert(0 <= i < lang@.len() && lang@[i as int] == '-' && forall|j: int|
                    0 <= j < i ==> lang@[j] != '-');
                if w < i {
                    assert(lang@[w] != '-');
                } else if w > i {
                    assert(lang@[i as int] != '-');
                }
            }
            return string_of(&out);
        }
        i = i + 1;
    }
    String::from_str(lang)
}

/// The reply owed before any provider is asked: a blank source or an
/// unknown provider is refused.
pub open spec fn request_refusal(source: Seq<char>, provider: Seq<char>) -> Option<(int, Seq<char>)> {
    if is_blank(source) {
        Some(bad_request("source text is required"@))
    } else if provider != "deepl"@ && provider != "google"@ {
        Some(bad_request("Unsupported MT provider: "@ + provider))
    } else {
        None
    }
}

/// The request to send for a translation, or the refusal.
pub fn plan_translation(req: &MtTranslateRequest) -> (r: Result<MtCall, AppError>)
    ensures
        match r {
            Err(e) => request_refusal(req.source@, req.provider@) == Some(error_view(e)),
            Ok(MtCall::DeepL { url, authorization, text, source_lang, target_lang }) => {
                &&& request_refusal(req.source@, req.provider@) is None
                &&& req.provider@ == "deepl"@
                &&& url@ == deepl_url(req.api_key@)
                &&& authorization@ == "DeepL-Auth-Key "@ + req.api_key@
                &&& text@ == req.source@
                &&& source_lang@ == deepl_lang(req.source_lang@)
                &&& target_lang@ == deepl_lang(req.target_lang@)
            },
            Ok(MtCall::Google { url, q, source, target }) => {
                &&& request_refusal(req.source@, req.provider@) is None
                &&& req.provider@ == "google"@
                &&& url@ == "https://translation.googleapis.com/language/translate/v2?key="@
                    + req.api_key@
                &&& q@ == req.source@
                &&& source@ == google_lang(req.source_lang@)
                &&& target@ == google_lang(req.target_lang@)
            },
        },
{
    if blank(req.source.as_str()) {
        return Err(AppError::bad_request("source text is required"));
    }
    if str_eq(req.provider.as_str(), "deepl") {
        let key = chars_of(req.api_key.as_str());
        let fx = chars_of(":fx");
        let url = if ends_with(&key, &fx) {
            String::from_str("https://api-free.deepl.com/v2/translate")
        } else {
            String::from_str("https://api.deepl.com/v2/translate")
        };
        proof {
            reveal_strlit(":fx");
            if key@.len() >= 3 {
                assert(fx@.len() == 3);
            }
        }
        Ok(
            MtCall::DeepL {
                url,
                authorization: concat("DeepL-Auth-Key ", req.api_key.as_str()),
                text: req.source.clone(),
                source_lang: normalize_deepl_lang(req.source_lang.as_str()),
                target_lang: normalize_deepl_lang(req.target_lang.as_str()),
            },
        )
    } else if str_eq(req.provider.as_str(), "google") {
        Ok(
            MtCall::Google {
                url: concat(
                    "https://translation.googleapis.com/language/translate/v2?key=",
                    req.api_key.as_str(),
                ),
                q: req.source.clone(),
                source: first_subtag(req.source_lang.as_str()),
                target: first_subtag(req.target_lang.as_str()),
            },
        )
    } else {
        Err(AppError::BadRequest(concat("Unsupported MT provider: ", req.provider.as_str())))
    }
}

/// What came back from a provider.
pub enum ProviderReply {
    /// The request could not be sent; the client's complaint.
    Unsent(String),
    /// The provider answered with a failure status.
    Failed { status: String, body: String },
    /// The answer could not be read; the reader's complaint.
    Unreadable(String),
    /// The translations read from the answer, in order.
    Texts(Vec<String>),
}

pub open spec fn provider_name(deepl: bool) -> Seq<char> {
    if deepl {
        "DeepL"@
    } else {
        "Google Translate"@
    }
}

/// The translation, or the server error, for a provider's reply.
pub open spec fn reply_outcome(deepl: bool, reply: ProviderReply) -> Result<Seq<char>, (int, Seq<char>)> {
    let name = provider_name(deepl);
    match reply {
        ProviderReply::Unsent(m) => Err(internal(name + " request failed: "@ + m@)),
        ProviderReply::Failed { status, body } => Err(
            internal(name + " API error "@ + status@ + ": "@ + body@),
        ),
        ProviderReply::Unreadable(m) => Err(internal(name + " parse error: "@ + m@)),
        ProviderReply::Texts(v) => if v@.len() > 0 {
            Ok(v@[0]@)
        } else if deepl {
            Err(internal("DeepL returned no translations"@))
        } else {
            Err(internal("Google Translate returned no text"@))
        },
    }
}

fn join4(a: &str, b: &str, c: &str, d: &str) -> (r: String)
    ensures
        r@ == a@ + b@ + c@ + d@,
{
    let x = concat(a, b);
    let y = concat(x.as_str(), c);
    concat(y.as_str(), d)
}

/// The translation of a provider's reply: its first text, else the
/// failure as a server error naming the provider.
pub fn read_reply(deepl: bool, reply: ProviderReply) -> (r: Result<String, AppError>)
    ensures
        match (r, reply_outcome(deepl, reply)) {
            (Ok(t), Ok(u)) => t@ == u,
            (Err(e), Err(v)) => error_view(e) == v,
            _ => false,
        },
{
    let name = if deepl {
        "DeepL"
    } else {
        "Google Translate"
    };
    match reply {
        ProviderReply::Unsent(m) => {
            let a = concat(name, " request failed: ");
            Err(AppError::Internal(concat(a.as_str(), m.as_str())))
        },
        ProviderReply::Failed { status, body } => {
            let a = join4(name, " API error ", status.as_str(), ": ");
            Err(AppError::Internal(concat(a.as_str(), body.as_str())))
        },
        ProviderReply::Unreadable(m) => {
            let a = concat(name, " parse error: ");
            Err(AppError::Internal(concat(a.as_str(), m.as_str())))
        },
        ProviderReply::Texts(v) => {
            if v.len() > 0 {
                let mut v = v;
                Ok(v.swap_remove(0))
            } else if deepl {
                Err(AppError::Internal(String::from_str("DeepL returned no translations")))
            } else {
                Err(AppError::Internal(String::from_str("Google Translate returned no text")))
            }
        },
    }
}

/// The answer once the provider translated.
pub fn mt_result(req: MtTranslateRequest, target: String) -> (r: MtResult)
    ensures
        r.source == req.source,
        r.target == target,
        r.provider == req.provider,
{
    MtResult { source: req.source, target, provider: req.provider }
}

} // verus!
