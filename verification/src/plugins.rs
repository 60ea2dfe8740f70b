//! Installed plugins: the record made when a plugin is installed, and how
//! a change of its settings applies.

use vstd::prelude::*;
use crate::error::{error_view, not_found, AppError};
use crate::text::{opt_view, str_eq};

verus! {

/// A setting of a plugin.
pub struct PluginParam {
    pub key: String,
    pub label: String,
    pub value: String,
    pub secret: bool,
}

/// An installed plugin.
pub struct Plugin {
    pub id: String,
    pub name: String,
    pub version: String,
    pub kind: String,
    pub enabled: bool,
    pub params: Vec<PluginParam>,
    pub error: Option<String>,
    pub installed_at: String,
}

/// Body of an installation: the module's path and values for its settings
/// (each key once).
pub struct InstallPluginRequest {
    pub wasm_file: String,
    pub param_values: Vec<(String, String)>,
}

/// Body of a change: switch the plugin on or off, and new values for its
/// settings (each key once).
pub struct UpdatePluginRequest {
    pub enabled: Option<bool>,
    pub param_values: Option<Vec<(String, String)>>,
}

/// What `Path::file_stem` gives for a path: the last component without
/// its extension.
pub uninterp spec fn file_stem_of(path: Seq<char>) -> Option<Seq<char>>;

/// `std::path::Path::file_stem` of a path, as text; the component rules of
/// `Path` are not restated.
#[verifier::external_body]
fn path_file_stem(path: &str) -> (r: Option<String>)
    ensures
        opt_view(r) == file_stem_of(path@),
{
    match std::path::Path::new(path).file_stem() {
        Some(s) => s.to_str().map(String::from),
        None => None,
    }
}

/// The name of a plugin: the stem of its module's file name
/// (`/path/to/my-plugin.wasm` → `my-plugin`), else "unknown-plugin".
pub open spec fn plugin_name_of(wasm_file: Seq<char>) -> Seq<char> {
    match file_stem_of(wasm_file) {
        Some(s) => s,
        None => "unknown-plugin"@,
    }
}

/// The name given to a plugin installed from `wasm_file`.
pub fn plugin_name(wasm_file: &str) -> (r: String)
    ensures
        r@ == plugin_name_of(wasm_file@),
{
    match path_file_stem(wasm_file) {
        Some(s) => s,
        None => String::from_str("unknown-plugin"),
    }
}

/// The record of a newly installed plugin: version 1.0.0, an MT provider,
/// enabled, without settings or error.
pub fn new_plugin(id: String, wasm_file: &str, now: String) -> (r: Plugin)
    ensures
        r.id == id,
        r.name@ == plugin_name_of(wasm_file@),
        r.version@ == "1.0.0"@,
        r.kind@ == "MtProvider"@,
        r.enabled,
        r.params@.len() == 0,
        r.error is None,
        r.installed_at == now,
{
    Plugin {
        id,
        name: plugin_name(wasm_file),
        version: String::from_str("1.0.0"),
        kind: String::from_str("MtProvider"),
        enabled: true,
        params: Vec::new(),
        error: None,
        installed_at: now,
    }
}

/// The value given for `key`, if any.
pub open spec fn value_for(values: Seq<(String, String)>, key: Seq<char>) -> Option<String>
    decreases values.len(),
{
    if values.len() == 0 {
        None
    } else if values[0].0@ == key {
        Some(values[0].1)
    } else {
        value_for(values.drop_first(), key)
    }
}

fn find_value(values: &Vec<(String, String)>, key: &str) -> (r: Option<String>)
    ensures
        r == value_for(values@, key@),
{
    let mut i: usize = 0;
    assert(values@.skip(0) =~= values@);
    while i < values.len()
        invariant
            i <= values@.len(),
            value_for(values@, key@) == value_for(values@.skip(i as int), key@),
        decreases values@.len() - i,
    {
        assert(values@.skip(i as int).drop_first() =~= values@.skip(i + 1));
        assert(values@.skip(i as int)[0] == values@[i as int]);
        if str_eq(values[i].0.as_str(), key) {
            return Some(values[i].1.clone());
        }
        i = i + 1;
    }
    None
}

/// A setting after the new values apply: its value is replaced when one is
/// given for its key.
pub open spec fn updated_param(p: PluginParam, values: Seq<(String, String)>) -> PluginParam {
    match value_for(values, p.key@) {
        Some(v) => PluginParam { value: v, ..p },
        None => p,
    }
}

/// Applies new values to the settings of a plugin.
pub fn apply_param_values(params: &Vec<PluginParam>, values: &Vec<(String, String)>) -> (r: Vec<PluginParam>)
    ensures
        r@.len() == params@.len(),
        forall|i: int| 0 <= i < r@.len() ==> #[trigger] r@[i] == updated_param(params@[i], values@),
{
    let mut out: Vec<PluginParam> = Vec::new();
    let mut i: usize = 0;
    while i < params.len()
        invariant
            i <= params@.len(),
            out@.len() == i,
            forall|k: int| 0 <= k < i ==> #[trigger] out@[k] == updated_param(params@[k], values@),
        decreases params@.len() - i,
    {
        let p = &params[i];
        let value = match find_value(values, p.key.as_str()) {
            Some(v) => v,
            None => p.value.clone(),
        };
        out.push(PluginParam { key: p.key.clone(), label: p.label.clone(), value, secret: p.secret });
        i = i + 1;
    }
    out
}

/// The `enabled` column after a change: the new flag, else the stored one.
pub fn updated_enabled(requested: Option<bool>, stored: i64) -> (r: i64)
    ensures
        r == match requested {
            Some(true) => 1,
            Some(false) => 0,
            None => stored,
        },
{
    match requested {
        Some(true) => 1,
        Some(false) => 0,
        None => stored,
    }
}

/// A change or removal names one of the caller's plugins.
pub fn check_plugin_found(found: bool) -> (r: Result<(), AppError>)
    ensures
        r is Ok <==> found,
        r matches Err(e) ==> error_view(e) == not_found("Plugin not found"@),
{
    if found {
        Ok(())
    } else {
        Err(AppError::not_found("Plugin not found"))
    }
}

} // verus!
