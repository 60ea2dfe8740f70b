use memoq::error::AppError;
use memoq::mt::{mt_result, normalize_deepl_lang, plan_translation, read_reply, MtCall, MtTranslateRequest, ProviderReply};

fn s(x: &str) -> String {
    x.to_string()
}

fn req(provider: &str, key: &str) -> MtTranslateRequest {
    MtTranslateRequest { source: s("Hello"), source_lang: s("en-US"), target_lang: s("ko-KR"), provider: s(provider), api_key: s(key) }
}

#[test]
fn deepl_language_codes() {
    assert_eq!(normalize_deepl_lang("ko-KR"), "KO");
    assert_eq!(normalize_deepl_lang("EN"), "EN-US");
    assert_eq!(normalize_deepl_lang("en-gb"), "EN-GB");
    assert_eq!(normalize_deepl_lang("Zh-Cn"), "ZH");
    assert_eq!(normalize_deepl_lang("pt-BR"), "pt-BR");
}

#[test]
fn deepl_request() {
    match plan_translation(&req("deepl", "abc:fx")).ok().unwrap() {
        MtCall::DeepL { url, authorization, text, source_lang, target_lang } => {
            assert_eq!(url, "https://api-free.deepl.com/v2/translate");
            assert_eq!(authorization, "DeepL-Auth-Key abc:fx");
            assert_eq!((text.as_str(), source_lang.as_str(), target_lang.as_str()), ("Hello", "EN-US", "KO"));
        }
        _ => panic!("expected a DeepL call"),
    }
    match plan_translation(&req("deepl", "paid")).ok().unwrap() {
        MtCall::DeepL { url, .. } => assert_eq!(url, "https://api.deepl.com/v2/translate"),
        _ => panic!("expected a DeepL call"),
    }
}

#[test]
fn google_request() {
    match plan_translation(&req("google", "k1")).ok().unwrap() {
        MtCall::Google { url, q, source, target } => {
            assert_eq!(url, "https://translation.googleapis.com/language/translate/v2?key=k1");
            assert_eq!((q.as_str(), source.as_str(), target.as_str()), ("Hello", "en", "ko"));
        }
        _ => panic!("expected a Google call"),
    }
}

#[test]
fn refused_requests() {
    let blank = MtTranslateRequest { source: s("  "), ..req("deepl", "k") };
    assert!(matches!(plan_translation(&blank), Err(AppError::BadRequest(m)) if m == "source text is required"));
    assert!(matches!(plan_translation(&req("bing", "k")), Err(AppError::BadRequest(m)) if m == "Unsupported MT provider: bing"));
}

#[test]
fn provider_replies() {
    assert_eq!(read_reply(true, ProviderReply::Texts(vec![s("안녕"), s("x")])).ok().unwrap(), "안녕");
    assert!(matches!(read_reply(true, ProviderReply::Texts(vec![])), Err(AppError::Internal(m)) if m == "DeepL returned no translations"));
    assert!(matches!(read_reply(false, ProviderReply::Texts(vec![])), Err(AppError::Internal(m)) if m == "Google Translate returned no text"));
    assert!(matches!(read_reply(false, ProviderReply::Failed { status: s("403 Forbidden"), body: s("no") }),
        Err(AppError::Internal(m)) if m == "Google Translate API error 403 Forbidden: no"));
    assert!(matches!(read_reply(true, ProviderReply::Unsent(s("timeout"))), Err(AppError::Internal(m)) if m == "DeepL request failed: timeout"));
    assert!(matches!(read_reply(true, ProviderReply::Unreadable(s("eof"))), Err(AppError::Internal(m)) if m == "DeepL parse error: eof"));
    let r = mt_result(req("deepl", "k"), s("안녕"));
    assert_eq!((r.source.as_str(), r.target.as_str(), r.provider.as_str()), ("Hello", "안녕", "deepl"));
}
