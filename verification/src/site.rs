//! The site: its on-disk layout and the configuration file's rules. File
//! reading, traversal and copying live with the caller; this module holds
//! the decisions they act on.
use vstd::prelude::*;

use crate::text;
use crate::text::{has_prefix, has_suffix};

verus! {

#[verifier::external_type_specification]
#[verifier::external_body]
pub struct ExTomlValue(toml::Value);

/// Relies on toml's `from_str::<Value>`: the parse of a whole TOML
/// document; a syntax error comes back as `None`.
#[verifier::external_body]
fn toml_parse(content: &str) -> Option<toml::Value> {
    toml::from_str(content).ok()
}

/// Relies on toml's `Value::get` and `Value::as_str`: the string value of a
/// top-level key, `None` when absent or not a string.
#[verifier::external_body]
fn toml_get_str(v: &toml::Value, key: &str) -> Option<String> {
    v.get(key).and_then(|x| x.as_str()).map(|s| s.to_string())
}

/// Why a site configuration was rejected.
#[derive(Debug, Clone, Copy, PartialEq, Eq, Structural)]
pub enum SiteError {
    /// The file is not well-formed TOML.
    InvalidToml,
    /// A base URL is required in the configuration with key `base_url`,
    /// and may not be left at the placeholder default.
    BaseUrlRequired,
    /// The output directory key is missing.
    OutputDirRequired,
}

/// The placeholder base URL that a fresh project carries and a real build
/// must replace.
pub open spec fn default_base_url() -> Seq<char> {
    "http://localhost:8080"@
}

/// The site's configuration file, reduced to the fields the build reads.
#[derive(Debug, PartialEq, Eq, Clone)]
pub struct Config {
    /// Base URL of the site, the only required free-form argument.
    pub base_url: String,
    /// Title of the site.
    pub title: Option<String>,
    /// Description of the site.
    pub description: Option<String>,
    /// Where the built site is written.
    pub output_dir: String,
}

impl Config {
    /// Reads a configuration out of TOML text: `base_url` and `output_dir`
    /// must be present, and the base URL may be neither empty nor the
    /// placeholder default.
    pub fn parse(content: &str) -> (r: Result<Config, SiteError>)
        ensures
            r is Ok ==> r->Ok_0.base_url@.len() > 0 && r->Ok_0.base_url@ != default_base_url(),
    {
        let v = match toml_parse(content) {
            Some(v) => v,
            None => {
                return Err(SiteError::InvalidToml);
            },
        };
        let base_url = match toml_get_str(&v, "base_url") {
            Some(u) => u,
            None => {
                return Err(SiteError::BaseUrlRequired);
            },
        };
        let output_dir = match toml_get_str(&v, "output_dir") {
            Some(d) => d,
            None => {
                return Err(SiteError::OutputDirRequired);
            },
        };
        let bv = text::chars_of(base_url.as_str());
        let dflt = text::chars_of("http://localhost:8080");
        if bv.len() == 0 || text::chars_eq(&bv, &dflt) {
            return Err(SiteError::BaseUrlRequired);
        }
        Ok(
            Config {
                base_url,
                title: toml_get_str(&v, "title"),
                description: toml_get_str(&v, "description"),
                output_dir,
            },
        )
    }
}

/// Two path pieces joined with a separator.
pub open spec fn path_joined(base: Seq<char>, rel: Seq<char>) -> Seq<char> {
    base + seq!['/'] + rel
}

/// Joins two path pieces.
pub fn path_join(base: &str, rel: &str) -> (r: String)
    ensures
        r@ == path_joined(base@, rel@),
{
    let mut out = text::chars_of(base);
    out.push('/');
    let rv = text::chars_of(rel);
    text::append_chars(&mut out, &rv);
    proof {
        assert(out@ =~= path_joined(base@, rel@));
    }
    text::string_of(&out)
}

/// One site under construction.
#[derive(Debug)]
pub struct Site {
    /// The base path of the site.
    pub base_path: String,
    /// The configuration the site was loaded with.
    pub config: Config,
    /// Where the built site is written.
    pub output_path: String,
    /// Where the static files come from.
    pub static_path: String,
}

impl Site {
    /// Lays a site out under a base path: the output directory comes from
    /// the configuration, the static files from `static`.
    pub fn new(base_path: &str, config: Config) -> (r: Site)
        ensures
            r.base_path@ == base_path@,
            r.output_path@ == path_joined(base_path@, config.output_dir@),
            r.static_path@ == path_joined(base_path@, "static"@),
            r.config == config,
    {
        let output_path = path_join(base_path, config.output_dir.as_str());
        let static_path = path_join(base_path, "static");
        Site { base_path: base_path.to_owned(), config, output_path, static_path }
    }

    /// Registers a section; sections are not tracked yet, so the site is
    /// left as it stands.
    pub fn add_section(&mut self, section: Vec<String>) -> (r: Result<(), SiteError>)
        ensures
            r is Ok,
            *final(self) == *old(self),
    {
        let _ = section;
        Ok(())
    }

    /// Redirects the built output.
    pub fn set_output_path(&mut self, path: &str)
        ensures
            final(self).output_path@ == path@,
            final(self).base_path == old(self).base_path,
            final(self).config == old(self).config,
            final(self).static_path == old(self).static_path,
    {
        self.output_path = path.to_owned();
    }
}

/// Whether a directory entry takes part in content loading: hidden entries
/// are skipped, and a file must end in `.md`.
pub fn keeps_content_file(file_name: &str, is_dir: bool) -> (r: bool)
    ensures
        r == (!has_prefix(file_name@, "."@) && (is_dir || has_suffix(file_name@, ".md"@))),
{
    let nv = text::chars_of(file_name);
    let dot = text::chars_of(".");
    if text::slice_has_prefix(&nv, &dot) {
        return false;
    }
    if is_dir {
        return true;
    }
    let md = text::chars_of(".md");
    text::slice_has_suffix(&nv, &md)
}

/// How strongly a directory is watched while serving.
#[derive(Debug, Clone, Copy, PartialEq, Eq, Structural)]
pub enum WatchStatus {
    Required,
    Optional,
    Conditional(bool),
}

/// Whether a directory is watched: a required one always, an optional one
/// when it exists, a conditional one when its condition holds and it
/// exists.
pub fn watch_state(mode: WatchStatus, exists: bool) -> (r: bool)
    ensures
        r == match mode {
            WatchStatus::Required => true,
            WatchStatus::Optional => exists,
            WatchStatus::Conditional(x) => x && exists,
        },
{
    match mode {
        WatchStatus::Required => true,
        WatchStatus::Optional => exists,
        WatchStatus::Conditional(x) => x && exists,
    }
}

/// The base URL a serve falls back to: the bound address itself when none
/// was given, in which case no port is appended later.
pub fn resolve_base_url(base_url: Option<String>, address: &str) -> (r: (String, bool))
    ensures
        match base_url {
            Some(u) => r.0 == u && !r.1,
            None => r.0@ == address@ && r.1,
        },
{
    match base_url {
        Some(u) => (u, false),
        None => (address.to_owned(), true),
    }
}

} // verus!
