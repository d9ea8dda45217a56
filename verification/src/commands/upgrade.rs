//! Replacing the package manager itself by a newer version.
use vstd::prelude::*;

use crate::pattern::{has_prefix, starts_with};
use crate::text::{cat, cat3, trim_white, trimmed};
use crate::utils::{rank_versions, version_rank, version_rank_reflexive, Rank};

verus! {

/// Where the version that can be had is published.
pub fn version_url() -> (r: &'static str)
    ensures
        r@ == "https://raw.githubusercontent.com/HackerOS-Linux-System/Hacker-Package-Manager/main/version.hacker"@,
{
    "https://raw.githubusercontent.com/HackerOS-Linux-System/Hacker-Package-Manager/main/version.hacker"
}

/// What a version that can be had is downloaded from.
#[derive(Debug)]
pub struct UpgradePlan {
    pub version: String,
    pub program_url: String,
    pub backend_url: String,
}

/// The address of a file of a version.
pub open spec fn release_file(version: Seq<char>, file: Seq<char>) -> Seq<char> {
    "https://github.com/HackerOS-Linux-System/Hacker-Package-Manager/releases/download/v"@ + version
        + file
}

/// The version to upgrade to and the addresses of its files, given what is
/// published and the version that is here; `None` where that is not older.
pub open spec fn planned(published: Seq<char>, here: Seq<char>) -> Option<(Seq<char>, Seq<char>, Seq<char>)> {
    let there = trimmed(published);
    if version_rank(there, here) == Rank::After {
        Some((there, release_file(there, "/hpm"@), release_file(there, "/backend"@)))
    } else {
        None
    }
}

/// Decides whether to upgrade, given what is published and the version that is
/// here.
pub fn plan_upgrade(published: &str, here: &str) -> (r: Option<UpgradePlan>)
    ensures
        match r {
            Some(p) => planned(published@, here@) == Some(
                (p.version@, p.program_url@, p.backend_url@),
            ),
            None => planned(published@, here@) is None,
        },
{
    let version = trim_white(published);
    if rank_versions(version.as_str(), here) != Rank::After {
        return None;
    }
    let base = "https://github.com/HackerOS-Linux-System/Hacker-Package-Manager/releases/download/v";
    let program_url = cat3(base, version.as_str(), "/hpm");
    let backend_url = cat3(base, version.as_str(), "/backend");
    Some(UpgradePlan { version, program_url, backend_url })
}

/// Once the published version is the one that is here, there is nothing to
/// upgrade to.
pub proof fn upgrade_settles(published: Seq<char>)
    ensures
        planned(published, trimmed(published)) is None,
{
    version_rank_reflexive(trimmed(published));
}

// ---------------------------------------------------------------------------
// The record of the version
// ---------------------------------------------------------------------------

/// `serde_json::Error`: why a text is not JSON.
#[verifier::external_type_specification]
#[verifier::external_body]
pub struct ExJsonError(serde_json::Error);

/// The text under a key of the object that a JSON text is; `Some(None)` where
/// the text is JSON without such a text, and `None` where it is not JSON.
pub uninterp spec fn json_text_under(json: Seq<char>, key: Seq<char>) -> Option<Option<Seq<char>>>;

/// The JSON text of an object that holds a text under a key.
pub uninterp spec fn json_object(key: Seq<char>, value: Seq<char>) -> Seq<char>;

/// `serde_json::from_str`, and what is under a key of the value that it gives:
/// it is a function of the text and of the key. A value that is not an object
/// has nothing under any key.
#[verifier::external_body]
fn json_text(json: &str, key: &str) -> (r: Result<Option<String>, serde_json::Error>)
    ensures
        match r {
            Ok(Some(v)) => json_text_under(json@, key@) == Some(Some(v@)),
            Ok(None) => json_text_under(json@, key@) == Some(None::<Seq<char>>),
            Err(_) => json_text_under(json@, key@) is None,
        },
{
    let value: serde_json::Value = serde_json::from_str(json)?;
    Ok(value[key].as_str().map(|s| s.to_string()))
}

/// `serde_json::Value::to_string` of an object with one text in it: it is a
/// function of the key and of the text, and reading it gives the text back.
#[verifier::external_body]
fn json_with_text(key: &str, value: &str) -> (r: String)
    ensures
        r@ == json_object(key@, value@),
        json_text_under(r@, key@) == Some(Some(value@)),
{
    let mut map = serde_json::Map::new();
    map.insert(key.to_string(), serde_json::Value::from(value));
    serde_json::Value::Object(map).to_string()
}

/// The version that is here is recorded in a text that cannot be read.
#[derive(Debug)]
pub struct UnreadableRecord {
    pub reason: serde_json::Error,
}

/// The version that is here, given what is recorded; `0.0` where nothing is.
pub open spec fn version_here(found: Option<Seq<char>>) -> Seq<char> {
    match found {
        Some(v) => v,
        None => "0.0"@,
    }
}

/// The version that is here, given what is recorded.
pub fn version_or_first(found: Option<String>) -> (r: String)
    ensures
        r@ == version_here(
            match found {
                Some(v) => Some(v@),
                None => None,
            },
        ),
        found matches Some(v) ==> r@ == v@,
        found is None ==> r@ == "0.0"@,
{
    match found {
        Some(v) => v,
        None => "0.0".to_owned(),
    }
}

/// Reads the version that is here from the record of it, if there is one.
pub fn recorded_version(record: &Option<String>) -> (r: Result<String, UnreadableRecord>)
    ensures
        match record {
            None => r matches Ok(v) && v@ == version_here(None),
            Some(json) => match json_text_under(json@, "version"@) {
                Some(found) => r matches Ok(v) && v@ == version_here(found),
                None => r is Err,
            },
        },
{
    match record {
        None => Ok(version_or_first(None)),
        Some(json) => match json_text(json.as_str(), "version") {
            Ok(found) => Ok(version_or_first(found)),
            Err(reason) => Err(UnreadableRecord { reason }),
        },
    }
}

/// The record of a version; reading it gives the version back.
pub fn version_record(version: &str) -> (r: String)
    ensures
        r@ == json_object("version"@, version@),
        json_text_under(r@, "version"@) == Some(Some(version@)),
{
    json_with_text("version", version)
}

/// The file in which the version that is here is recorded.
pub fn local_version_file(db_dir: &str) -> (r: String)
    ensures
        r@ == db_dir@ + "/hpm-version.json"@,
{
    cat(db_dir, "/hpm-version.json")
}

/// The file that comes with the program.
pub fn local_backend_file(db_dir: &str) -> (r: String)
    ensures
        r@ == db_dir@ + "/backend"@,
{
    cat(db_dir, "/backend")
}

/// Whether a path is in a directory that belongs to the system.
pub open spec fn system_path(path: Seq<char>) -> bool {
    has_prefix(path, "/usr/"@) || has_prefix(path, "/bin/"@) || has_prefix(path, "/sbin/"@)
        || has_prefix(path, "/opt/"@)
}

/// Whether a path is in a directory that belongs to the system.
pub fn is_system_path(path: &str) -> (r: bool)
    ensures
        r == system_path(path@),
        r == (has_prefix(path@, "/usr/"@) || has_prefix(path@, "/bin/"@) || has_prefix(path@, "/sbin/"@)
            || has_prefix(path@, "/opt/"@)),
{
    starts_with(path, "/usr/") || starts_with(path, "/bin/") || starts_with(path, "/sbin/") || starts_with(
        path,
        "/opt/",
    )
}

/// What is said where the program could not be replaced.
pub fn replace_hint(exe: &str) -> (r: String)
    ensures
        r@ == (if system_path(exe@) {
            exe@ + " lives in a system directory — retry with:\n      sudo hpm upgrade"@
        } else {
            "That's your own directory, not a system path — check its permissions:\n      ls -la "@ + exe@
        }),
{
    if is_system_path(exe) {
        cat(exe, " lives in a system directory — retry with:\n      sudo hpm upgrade")
    } else {
        cat("That's your own directory, not a system path — check its permissions:\n      ls -la ", exe)
    }
}

/// An upgrade leads to the published version exactly where that is newer, and takes the
/// files from the release of that version.
pub proof fn upgrade_leads_to_what_is_published(published: Seq<char>, here: Seq<char>)
    ensures
        planned(published, here) is Some <==> version_rank(trimmed(published), here) == Rank::After,
        planned(published, here) matches Some((v, program, backend)) ==> {
            let base =
                "https://github.com/HackerOS-Linux-System/Hacker-Package-Manager/releases/download/v"@
                + trimmed(published);
            v == trimmed(published) && program == base + "/hpm"@ && backend == base + "/backend"@
        },
{
}

} // verus!
