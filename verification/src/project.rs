//! Host-project wiring: how the `pyembed` dependency is written into a
//! generated Cargo manifest, and the splice that adds a build script and
//! that dependency to a freshly created project's manifest.

use vstd::prelude::*;

use crate::text::is_match_at;
use crate::RepackageError;

verus! {

/// How the `pyembed` crate dependency is defined.
pub enum PyembedLocation {
    /// A version from the crate registry.
    Version(String),
    /// A local filesystem path.
    Path(String),
    /// A git repository URL and revision hash.
    Git(String, String),
}

/// The rendered manifest fields of a location.
pub open spec fn cargo_manifest_fields_chars(l: &PyembedLocation) -> Seq<char> {
    match l {
        PyembedLocation::Version(v) => "version = \""@ + v@ + "\""@,
        PyembedLocation::Path(p) => "path = \""@ + p@ + "\""@,
        PyembedLocation::Git(url, commit) => "git = \""@ + url@ + "\", rev = \""@ + commit@
            + "\""@,
    }
}

impl PyembedLocation {
    /// The Cargo manifest location fields for this dependency.
    pub fn cargo_manifest_fields(&self) -> (r: String)
        ensures
            r@ =~= cargo_manifest_fields_chars(self),
    {
        match self {
            PyembedLocation::Version(version) => {
                let mut out = "version = \"".to_owned();
                out.append(version.as_str());
                out.append("\"");
                out
            },
            PyembedLocation::Path(path) => {
                let mut out = "path = \"".to_owned();
                out.append(path.as_str());
                out.append("\"");
                out
            },
            PyembedLocation::Git(url, commit) => {
                let mut out = "git = \"".to_owned();
                out.append(url.as_str());
                out.append("\", rev = \"");
                out.append(commit.as_str());
                out.append("\"");
                out
            },
        }
    }
}

/// Whether a project-relative path is one the tool wrote: it mentions the
/// tool or the embedding crate.
pub open spec fn project_file_path(rel: Seq<char>) -> bool {
    crate::text::first_match_from(rel, "pyoxidizer"@, 0) is Some || crate::text::first_match_from(
        rel,
        "pyembed"@,
        0,
    ) is Some
}

/// Decides whether a walked path belongs to the tool's own files.
pub fn is_project_file_path(rel: &str) -> (r: bool)
    ensures
        r == project_file_path(rel@),
{
    if crate::text::find_substring_from(rel, "pyoxidizer", 0).is_some() {
        return true;
    }
    crate::text::find_substring_from(rel, "pyembed", 0).is_some()
}

/// The updated manifest text: a `build = "build.rs"` line spliced in right
/// after the line holding `version =`, then the `pyembed` dependency and
/// the extra manifest sections appended. Nothing when the manifest has no
/// `version =` or no newline after it.
pub open spec fn update_cargo_toml_chars(
    content: Seq<char>,
    fields: Seq<char>,
    extra: Seq<char>,
) -> Option<Seq<char>> {
    match crate::text::first_match_from(content, "version ="@, 0) {
        None => None,
        Some(vs) => match crate::text::first_match_from(content, "\n"@, vs) {
            None => None,
            Some(nl) => Some(
                content.take(nl + 1) + "build = \"build.rs\"\n"@ + content.skip(nl + 1)
                    + "pyembed = { "@ + fields + ", default-features = false }\n"@ + "\n"@
                    + extra,
            ),
        },
    }
}

/// Splices the build-script line and the `pyembed` dependency into a new
/// project's manifest. Fails exactly when the manifest has no `version =`
/// line to key off, or no newline after it.
pub fn update_cargo_toml_content(content: &str, location_fields: &str, extra: &str) -> (r: Result<
    String,
    RepackageError,
>)
    ensures
        match r {
            Ok(out) => update_cargo_toml_chars(content@, location_fields@, extra@) == Some(out@),
            Err(e) => update_cargo_toml_chars(content@, location_fields@, extra@) is None
                && e matches RepackageError::ConfigError { .. },
        },
{
    let vs = match crate::text::find_substring_from(content, "version =", 0) {
        Some(i) => i,
        None => {
            return Err(
                RepackageError::ConfigError {
                    message: "could not find version line in Cargo.toml".to_owned(),
                },
            );
        },
    };
    let nl = match crate::text::find_substring_from(content, "\n", vs) {
        Some(i) => i,
        None => {
            return Err(
                RepackageError::ConfigError {
                    message: "could not find newline after version line".to_owned(),
                },
            );
        },
    };
    proof {
        crate::text::lemma_first_match_is_match(content@, "\n"@, vs as int);
        reveal_strlit("\n");
        assert(nl + 1 <= content@.len());
    }
    let len = content.unicode_len();
    let before = content.substring_char(0, nl + 1);
    let after = content.substring_char(nl + 1, len);
    let mut out = before.to_owned();
    out.append("build = \"build.rs\"\n");
    out.append(after);
    out.append("pyembed = { ");
    out.append(location_fields);
    out.append(", default-features = false }\n");
    out.append("\n");
    out.append(extra);
    proof {
        assert(before@ =~= content@.take(nl + 1));
        assert(after@ =~= content@.skip(nl + 1));
    }
    Ok(out)
}

} // verus!
