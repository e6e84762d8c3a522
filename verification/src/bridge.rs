//! What the host's native entry points compute: the debug line and the
//! answer to a reload request.  Reading the host's arguments and handing the
//! answers back happen outside the library.
use crate::text::decimal;
use vstd::prelude::*;
use vstd::string::StringExecFns;

verus! {

/// A version rendered as "major.minor.patch" followed by `suffix`.
pub open spec fn version_text(major: nat, minor: nat, patch: nat, suffix: Seq<char>) -> Seq<char> {
    decimal(major) + seq!['.'] + decimal(minor) + seq!['.'] + decimal(patch) + suffix
}

/// A character of a pre-release or build identifier, or one of the
/// separators between them.
pub open spec fn is_identifier_char(c: char) -> bool {
    ('0' <= c && c <= '9') || ('A' <= c && c <= 'Z') || ('a' <= c && c <= 'z') || c == '-' || c == '.'
        || c == '+'
}

/// What may follow the patch number: nothing, or a pre-release part starting
/// with '-' or a build part starting with '+', made of identifier characters.
pub open spec fn is_version_suffix(suffix: Seq<char>) -> bool {
    &&& (suffix.len() == 0 || suffix[0] == '-' || suffix[0] == '+')
    &&& forall|i: int| 0 <= i < suffix.len() ==> is_identifier_char(#[trigger] suffix[i])
}

/// Whether `s` is a version as a semantic version is displayed:
/// "major.minor.patch", then "-pre" and "+build" when present.
pub open spec fn is_version(s: Seq<char>) -> bool {
    exists|major: nat, minor: nat, patch: nat, suffix: Seq<char>|
        #[trigger] version_text(major, minor, patch, suffix) == s && is_version_suffix(suffix)
}

/// `rustc_version_runtime::version()`, displayed: the version of the compiler
/// that built the runtime.  The crate's build script stores the compiler's
/// parsed version, and `semver::Version`'s `Display` writes it as
/// "major.minor.patch", then "-" and the pre-release identifiers when there
/// are any, then "+" and the build identifiers when there are any.  Which
/// numbers and identifiers these are is not stated: the compiler that builds
/// the crate decides them.
#[verifier::external_body]
fn rustc_version_text() -> (s: String)
    ensures
        is_version(s@),
{
    rustc_version_runtime::version().to_string()
}

/// The debug line for the given runtime version, compiler version, platform
/// and runtime statistics (`None` before the runtime is started).
pub fn debug_info_line(pkg_version: &str, rust_version: &str, platform: &str, runtime_stats: Option<&str>) -> (s: String)
    ensures
        s@ == "Graphite v"@ + pkg_version@ + " | Rust "@ + rust_version@ + " | platform: "@ + platform@
            + " | runtime: "@ + match runtime_stats {
            Some(t) => t@,
            None => "not initialized"@,
        },
{
    let mut s = String::new();
    s.append("Graphite v");
    s.append(pkg_version);
    s.append(" | Rust ");
    s.append(rust_version);
    s.append(" | platform: ");
    s.append(platform);
    s.append(" | runtime: ");
    match runtime_stats {
        Some(t) => s.append(t),
        None => s.append("not initialized"),
    }
    s
}

/// The debug line, with the version of the compiler that built the runtime.
pub fn debug_info(pkg_version: &str, platform: &str, runtime_stats: Option<&str>) -> (s: String)
    ensures
        exists|rust: Seq<char>|
            is_version(rust) && s@ == "Graphite v"@ + pkg_version@ + " | Rust "@ + rust + " | platform: "@ + platform@
                + " | runtime: "@ + match runtime_stats {
                Some(t) => t@,
                None => "not initialized"@,
            },
{
    let rust = rustc_version_text();
    let s = debug_info_line(pkg_version, rust.as_str(), platform, runtime_stats);
    assert(s@ == "Graphite v"@ + pkg_version@ + " | Rust "@ + rust@ + " | platform: "@ + platform@
        + " | runtime: "@ + match runtime_stats {
        Some(t) => t@,
        None => "not initialized"@,
    });
    s
}

/// The answer to a reload request: true only when a runtime exists and the
/// request was queued.
pub fn reload_accepted(outcome: &Option<Result<(), String>>) -> (ok: bool)
    ensures
        ok == (outcome matches Some(Ok(_))),
{
    match outcome {
        Some(Ok(())) => true,
        _ => false,
    }
}

} // verus!
