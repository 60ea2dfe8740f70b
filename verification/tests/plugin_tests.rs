use memoq::plugin_api::{echo_bad_input, echo_metadata, echo_translate, MtRequest, PluginKind, PluginResult, QaSeverity};
use memoq::plugins::{apply_param_values, check_plugin_found, new_plugin, plugin_name, updated_enabled, PluginParam};
use memoq::error::AppError;

fn s(x: &str) -> String {
    x.to_string()
}

#[test]
fn plugin_names_from_module_paths() {
    assert_eq!(plugin_name("/path/to/my-plugin.wasm"), "my-plugin");
    assert_eq!(plugin_name("plain"), "plain");
    assert_eq!(plugin_name("archive.tar.gz"), "archive.tar");
    assert_eq!(plugin_name(""), "unknown-plugin");
    assert_eq!(plugin_name("/"), "unknown-plugin");
}

#[test]
fn new_plugins_and_changes() {
    let p = new_plugin(s("id1"), "/x/echo.wasm", s("t0"));
    assert_eq!((p.name.as_str(), p.version.as_str(), p.kind.as_str(), p.enabled), ("echo", "1.0.0", "MtProvider", true));
    assert!(p.params.is_empty() && p.error.is_none());
    let params = vec![
        PluginParam { key: s("apiKey"), label: s("API key"), value: s("old"), secret: true },
        PluginParam { key: s("region"), label: s("Region"), value: s("eu"), secret: false },
    ];
    let out = apply_param_values(&params, &vec![(s("apiKey"), s("new")), (s("unknown"), s("x"))]);
    assert_eq!((out[0].value.as_str(), out[0].secret), ("new", true));
    assert_eq!(out[1].value, "eu");
    assert_eq!(updated_enabled(Some(false), 1), 0);
    assert_eq!(updated_enabled(None, 1), 1);
    assert!(matches!(check_plugin_found(false), Err(AppError::NotFound(m)) if m == "Plugin not found"));
}

#[test]
fn echo_provider() {
    let m = echo_metadata();
    assert_eq!(m.id, "com.example.echo-mt");
    assert!(m.kind == PluginKind::MtProvider);
    assert_eq!(m.kind.as_str(), "mt_provider");
    assert_eq!(QaSeverity::Warning.as_str(), "warning");
    let req = MtRequest { source_lang: s("en"), target_lang: s("ko"), segments: vec![s("Hello"), s("")] };
    assert_eq!(echo_translate(&req).translations, vec![s("[MT] Hello"), s("[MT] ")]);
    assert!(matches!(echo_bad_input(), PluginResult::Failure { error } if error == "invalid JSON input"));
}
