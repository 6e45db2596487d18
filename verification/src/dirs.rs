//! The per-user directories that the platform assigns to the application.
use crate::text::{has_suffix, join_path, path_join};
use vstd::prelude::*;

verus! {

/// The directories of one application, as strings.
pub struct AppDirs {
    /// The path fragment that names the application inside each base
    /// directory.
    pub project_path: String,
    pub cache_dir: String,
    pub config_dir: String,
}

/// ASCII whitespace as `char::is_whitespace` classifies it.
pub open spec fn is_ascii_space(c: char) -> bool {
    c == ' ' || c == '\t' || c == '\n' || c == '\x0B' || c == '\x0C' || c == '\r'
}

/// ASCII lower case of `c`.
pub open spec fn ascii_lower(c: char) -> char {
    if 'A' <= c <= 'Z' {
        ((c as int) + 32) as char
    } else {
        c
    }
}

/// Whether every character of `s` is ASCII.
pub open spec fn is_ascii_text(s: Seq<char>) -> bool {
    forall|i: int| 0 <= i < s.len() ==> (#[trigger] s[i] as int) < 128
}

/// `s` lower-cased with its whitespace removed.
pub open spec fn squeezed_lower(s: Seq<char>) -> Seq<char>
    decreases s.len(),
{
    if s.len() == 0 {
        Seq::empty()
    } else if is_ascii_space(s.last()) {
        squeezed_lower(s.drop_last())
    } else {
        squeezed_lower(s.drop_last()).push(ascii_lower(s.last()))
    }
}

/// Trusted: `directories::ProjectDirs::from(qualifier, organization,
/// application)`, with the project path, cache directory and configuration
/// directory of the result read out as strings (lossily where a path is not
/// valid UTF-8).
///
/// Whether a result comes back, and the base directories, depend on the
/// environment (the home directory and the XDG variables); of those nothing
/// is claimed. What is claimed is what the Linux implementation
/// (`lin::project_dirs_from`) shows: the project path is the application
/// name split at whitespace, lower-cased and joined (stated here for ASCII
/// names, whose lower case is ASCII lower case), and the cache and
/// configuration directories are that path joined under their base
/// directories, so they end with it. The application targets Linux; on
/// other platforms `directories` builds the project path differently.
#[verifier::external_body]
fn project_dirs_from(qualifier: &str, organization: &str, application: &str) -> (r: Option<AppDirs>)
    ensures
        r matches Some(d) ==> {
            &&& is_ascii_text(application@) ==> d.project_path@ == squeezed_lower(application@)
            &&& has_suffix(d.cache_dir@, d.project_path@)
            &&& has_suffix(d.config_dir@, d.project_path@)
        },
{
    match directories::ProjectDirs::from(qualifier, organization, application) {
        Some(d) => Some(
            AppDirs {
                project_path: d.project_path().to_string_lossy().into_owned(),
                cache_dir: d.cache_dir().to_string_lossy().into_owned(),
                config_dir: d.config_dir().to_string_lossy().into_owned(),
            },
        ),
        None => None,
    }
}

/// The qualifier, organization and application name under which the
/// editor's directories are looked up.
pub fn app_identity() -> (r: (&'static str, &'static str, &'static str))
    ensures
        r.0@ == "org"@,
        r.1@ == "fluxcut"@,
        r.2@ == "FluxCut"@,
{
    ("org", "fluxcut", "FluxCut")
}

/// The per-user cache directory of the named application, if the platform
/// knows one; for an ASCII name it ends with the name lower-cased and
/// without whitespace.
pub fn cache_dir_for(qualifier: &str, organization: &str, application: &str) -> (r: Option<String>)
    ensures
        r matches Some(d) ==> (is_ascii_text(application@) ==> has_suffix(
            d@,
            squeezed_lower(application@),
        )),
{
    match project_dirs_from(qualifier, organization, application) {
        Some(d) => Some(d.cache_dir),
        None => None,
    }
}

/// Trusted: `directories::BaseDirs::new()`, with the configuration
/// directory of the result read out as a string (lossily where the path is
/// not valid UTF-8). Whether a result comes back, and the directory, depend
/// on the environment (the home directory and `XDG_CONFIG_HOME`), so nothing
/// is claimed of it.
#[verifier::external_body]
fn base_config_dir() -> (r: Option<String>) {
    match directories::BaseDirs::new() {
        Some(b) => Some(b.config_dir().to_string_lossy().into_owned()),
        None => None,
    }
}

/// The editor's name lower-cased without whitespace is "fluxcut".
proof fn lemma_app_path()
    ensures
        is_ascii_text("FluxCut"@),
        squeezed_lower("FluxCut"@) == "fluxcut"@,
{
    reveal_strlit("FluxCut");
    reveal_strlit("fluxcut");
    reveal_with_fuel(squeezed_lower, 8);
    let s = "FluxCut"@;
    assert(s.drop_last() =~= seq!['F', 'l', 'u', 'x', 'C', 'u']);
    assert(s.drop_last().drop_last() =~= seq!['F', 'l', 'u', 'x', 'C']);
    assert(s.drop_last().drop_last().drop_last() =~= seq!['F', 'l', 'u', 'x']);
    assert(seq!['F', 'l', 'u', 'x'].drop_last() =~= seq!['F', 'l', 'u']);
    assert(seq!['F', 'l', 'u'].drop_last() =~= seq!['F', 'l']);
    assert(seq!['F', 'l'].drop_last() =~= seq!['F']);
    assert(seq!['F'].drop_last() =~= Seq::<char>::empty());
    assert(squeezed_lower(seq!['F']) =~= seq!['f']);
    assert(squeezed_lower(seq!['F', 'l']) =~= seq!['f', 'l']);
    assert(squeezed_lower(seq!['F', 'l', 'u']) =~= seq!['f', 'l', 'u']);
    assert(squeezed_lower(seq!['F', 'l', 'u', 'x']) =~= seq!['f', 'l', 'u', 'x']);
    assert(squeezed_lower(seq!['F', 'l', 'u', 'x', 'C']) =~= seq!['f', 'l', 'u', 'x', 'c']);
    assert(squeezed_lower(seq!['F', 'l', 'u', 'x', 'C', 'u']) =~= seq!['f', 'l', 'u', 'x', 'c', 'u']);
    assert(squeezed_lower(s) =~= "fluxcut"@);
}

/// The editor's per-user cache directory, if the platform knows one; it
/// ends with "fluxcut".
pub(crate) fn user_cache_dir() -> (r: Option<String>)
    ensures
        r matches Some(d) ==> has_suffix(d@, "fluxcut"@),
{
    let (qualifier, organization, application) = app_identity();
    proof {
        lemma_app_path();
    }
    cache_dir_for(qualifier, organization, application)
}

/// The editor's configuration directory, if the platform knows a base
/// configuration directory: that directory joined with the application
/// name, "FluxCut" (`$XDG_CONFIG_HOME/FluxCut` on Linux).
pub(crate) fn user_config_dir() -> (r: Option<String>)
    ensures
        r matches Some(d) ==> exists|b: Seq<char>| #[trigger] path_join(b, "FluxCut"@) == d@,
{
    let (_, _, application) = app_identity();
    match base_config_dir() {
        Some(base) => {
            let d = join_path(base.as_str(), application);
            assert(path_join(base@, "FluxCut"@) == d@);
            Some(d)
        },
        None => None,
    }
}

} // verus!
