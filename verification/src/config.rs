//! Centralized configuration: paths, URLs, defaults and tunable values.

use vstd::prelude::*;

use crate::text::{copy_str, push_str_chars, string_of};

verus! {

/// Application name.
pub const APP_NAME: &'static str = "Tome";

/// Default User-Agent, naming the project's public issue tracker as the
/// contact channel required by MediaWiki's etiquette policy.
pub const DEFAULT_USER_AGENT: &'static str = "Tome/1.0 (+https://github.com/HesNotTheGuy/tome)";

/// Wikipedia REST endpoint for rendered article HTML (Parsoid output).
pub const WIKIPEDIA_REST_HTML_BASE: &'static str = "https://en.wikipedia.org/w/rest.php/v1/page";

/// Legacy MediaWiki action API endpoint.
pub const WIKIPEDIA_ACTION_API: &'static str = "https://en.wikipedia.org/w/api.php";

/// Hard ceiling on outbound API requests per second. Settings cannot raise this.
pub const MAX_REQUESTS_PER_SECOND: u32 = 10;

/// Application-wide configuration.
#[derive(Debug)]
pub struct Config {
    pub data_dir: String,
    pub user_agent: String,
    pub requests_per_second: u32,
    pub kill_switch: bool,
}

impl Config {
    /// The default configuration rooted at `data_dir`.
    pub fn rooted_at(data_dir: &str) -> (r: Self)
        ensures
            r.data_dir@ == data_dir@,
            r.user_agent@ == DEFAULT_USER_AGENT@,
            r.requests_per_second == MAX_REQUESTS_PER_SECOND,
            !r.kill_switch,
    {
        Config {
            data_dir: copy_str(data_dir),
            user_agent: copy_str(DEFAULT_USER_AGENT),
            requests_per_second: MAX_REQUESTS_PER_SECOND,
            kill_switch: false,
        }
    }
}

/// Persistent user-controlled settings. Every path is optional so a fresh
/// install starts blank.
#[derive(Debug, PartialEq, Eq)]
pub struct Settings {
    /// Path to the multistream bz2 dump file.
    pub dump_path: Option<String>,
    /// Path to the last index file the user ingested.
    pub last_index_path: Option<String>,
    /// Whether the reader shows related articles.
    pub recommendations_enabled: bool,
    /// Path to an offline basemap archive.
    pub map_source_path: Option<String>,
}

/// The value a missing `recommendations_enabled` takes.
pub fn default_true() -> (r: bool)
    ensures
        r,
{
    true
}

impl Default for Settings {
    fn default() -> (r: Self)
        ensures
            r.dump_path is None,
            r.last_index_path is None,
            r.recommendations_enabled,
            r.map_source_path is None,
    {
        Settings {
            dump_path: None,
            last_index_path: None,
            recommendations_enabled: true,
            map_source_path: None,
        }
    }
}

/// Whether `c` separates path components.
pub open spec fn is_path_separator(c: char) -> bool {
    c == '/' || c == '\\'
}

/// The name of the settings file inside a data directory.
pub const SETTINGS_FILE_NAME: &'static str = "settings.json";

/// `name` joined below directory `dir`.
pub open spec fn join_path(dir: Seq<char>, name: Seq<char>) -> Seq<char> {
    if dir.len() == 0 || is_path_separator(dir.last()) {
        dir + name
    } else {
        dir.push('/') + name
    }
}

impl Settings {
    /// Where the settings of `data_dir` are stored.
    pub fn settings_file(data_dir: &str) -> (r: String)
        ensures
            r@ == join_path(data_dir@, SETTINGS_FILE_NAME@),
    {
        let mut out = crate::text::chars_of(data_dir);
        let n = out.len();
        let ends_with_separator = n > 0 && (out[n - 1] == '/' || out[n - 1] == '\\');
        assert(ends_with_separator == (data_dir@.len() > 0 && is_path_separator(data_dir@.last())));
        if n > 0 && !ends_with_separator {
            out.push('/');
        }
        let ghost base = out@;
        assert(base == if data_dir@.len() == 0 || is_path_separator(data_dir@.last()) {
            data_dir@
        } else {
            data_dir@.push('/')
        });
        push_str_chars(&mut out, SETTINGS_FILE_NAME);
        string_of(out.as_slice())
    }
}

} // verus!
