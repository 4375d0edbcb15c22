//! The bookmark backup format: a versioned JSON envelope for exporting and
//! importing bookmarks and folders.
//!
//! A bookmark names its folder, and a folder its parent, by name, never by
//! database id; an article is named by its canonical title. A backup states
//! its format version; on import it is run forward through the migration
//! chain to the current version. A backup from a newer build is read on a
//! best-effort basis and flagged rather than refused. A JSON file that is not
//! a backup of this application's bookmarks is refused with a clear message.

use serde_json::Value;
use vstd::prelude::*;

use crate::error::TomeError;
use crate::text::{copy_str, push_str_chars, str_eq, string_of};

verus! {

#[verifier::external_type_specification]
#[verifier::external_body]
pub struct ExJsonValue(Value);

/// The format version this build writes.
pub const CURRENT_FORMAT_VERSION: u32 = 1;

/// The `app` tag of every backup this build writes.
pub const APP_TAG: &'static str = "tome";

/// The `kind` tag of every backup this build writes.
pub const KIND_TAG: &'static str = "bookmarks";

/// A bookmark folder as the store keeps it.
#[derive(Debug, Clone)]
pub struct BookmarkFolder {
    pub id: i64,
    pub name: String,
    pub parent_id: Option<i64>,
    pub created_at: i64,
}

/// A bookmark as the store keeps it.
#[derive(Debug, Clone)]
pub struct Bookmark {
    pub id: i64,
    pub article_title: String,
    pub folder_id: Option<i64>,
    pub note: Option<String>,
    pub created_at: i64,
}

/// A folder to import, with its parent by name.
#[derive(Debug, Clone)]
pub struct ImportFolder {
    pub name: String,
    pub parent_name: Option<String>,
    pub created_at: i64,
}

/// A bookmark to import, with its folder by name.
#[derive(Debug, Clone)]
pub struct ImportBookmark {
    pub title: String,
    pub folder_name: Option<String>,
    pub note: Option<String>,
    pub created_at: i64,
}

/// The backup envelope.
#[derive(Debug, Clone)]
pub struct BookmarkExport {
    pub app: String,
    pub kind: String,
    pub format_version: u32,
    /// Seconds since the Unix epoch when the backup was taken.
    pub exported_at: Option<i64>,
    pub folders: Vec<ExportFolder>,
    pub bookmarks: Vec<ExportBookmark>,
}

/// A folder in a backup, with its parent by name.
#[derive(Debug, Clone)]
pub struct ExportFolder {
    pub name: String,
    pub parent: Option<String>,
    pub created_at: i64,
}

/// A bookmark in a backup, with its folder by name.
#[derive(Debug, Clone)]
pub struct ExportBookmark {
    pub title: String,
    pub folder: Option<String>,
    pub note: Option<String>,
    pub created_at: i64,
}

/// What an export reports.
#[derive(Debug, Clone)]
pub struct ExportSummary {
    pub path: String,
    pub folders: u64,
    pub bookmarks: u64,
    pub format_version: u32,
}

/// What an import reports: the store's counts and the backup's version.
#[derive(Debug, Clone, Copy)]
pub struct ImportSummary {
    pub folders_created: u64,
    pub folders_matched: u64,
    pub bookmarks_added: u64,
    pub bookmarks_skipped: u64,
    pub source_format_version: u32,
    /// The backup came from a newer build and was read best-effort.
    pub from_newer_version: bool,
}

/// A read backup: the envelope and its version facts.
#[derive(Debug, Clone)]
pub struct ParsedBackup {
    pub export: BookmarkExport,
    pub source_format_version: u32,
    pub from_newer_version: bool,
}

/// An optional string by its view.
pub open spec fn opt_view(o: Option<String>) -> Option<Seq<char>> {
    match o {
        Some(s) => Some(s@),
        None => None,
    }
}

/// The name of the folder with id `id`, the last such one in `folders`.
pub open spec fn folder_name_of(folders: Seq<BookmarkFolder>, id: i64) -> Option<Seq<char>>
    decreases folders.len(),
{
    if folders.len() == 0 {
        None
    } else if folders.last().id == id {
        Some(folders.last().name@)
    } else {
        folder_name_of(folders.drop_last(), id)
    }
}

/// The name of the folder a link points at, if it points at one.
pub open spec fn link_name(folders: Seq<BookmarkFolder>, link: Option<i64>) -> Option<Seq<char>> {
    match link {
        Some(id) => folder_name_of(folders, id),
        None => None,
    }
}

fn find_folder_name(folders: &[BookmarkFolder], link: Option<i64>) -> (r: Option<String>)
    ensures
        opt_view(r) == link_name(folders@, link),
{
    match link {
        None => None,
        Some(id) => {
            let mut i = folders.len();
            assert(folders@.take(i as int) =~= folders@);
            while i > 0
                invariant
                    i <= folders@.len(),
                    link == Some(id),
                    folder_name_of(folders@, id) == folder_name_of(folders@.take(i as int), id),
                decreases i,
            {
                let f = &folders[i - 1];
                proof {
                    assert(folders@.take(i as int).drop_last() =~= folders@.take(i - 1));
                    assert(folders@.take(i as int).last() == folders@[i - 1]);
                }
                if f.id == id {
                    return Some(f.name.clone());
                }
                i = i - 1;
            }
            None
        },
    }
}

fn copy_opt(o: &Option<String>) -> (r: Option<String>)
    ensures
        opt_view(r) == opt_view(*o),
{
    match o {
        Some(s) => Some(s.clone()),
        None => None,
    }
}

/// Whether `r` is the envelope of the store's `folders` and `bookmarks`:
/// stamped with this build's tags and version, and with every folder and
/// bookmark in order, its folder and parent links turned into names.
pub open spec fn export_of(
    r: BookmarkExport,
    folders: Seq<BookmarkFolder>,
    bookmarks: Seq<Bookmark>,
    exported_at: Option<i64>,
) -> bool {
    &&& r.app@ == APP_TAG@
    &&& r.kind@ == KIND_TAG@
    &&& r.format_version == CURRENT_FORMAT_VERSION
    &&& r.exported_at == exported_at
    &&& r.folders@.len() == folders.len()
    &&& forall|i: int|
        0 <= i < folders.len() ==> {
            &&& (#[trigger] r.folders@[i]).name@ == folders[i].name@
            &&& opt_view(r.folders@[i].parent) == link_name(folders, folders[i].parent_id)
            &&& r.folders@[i].created_at == folders[i].created_at
        }
    &&& r.bookmarks@.len() == bookmarks.len()
    &&& forall|i: int|
        0 <= i < bookmarks.len() ==> {
            &&& (#[trigger] r.bookmarks@[i]).title@ == bookmarks[i].article_title@
            &&& opt_view(r.bookmarks@[i].folder) == link_name(folders, bookmarks[i].folder_id)
            &&& opt_view(r.bookmarks@[i].note) == opt_view(bookmarks[i].note)
            &&& r.bookmarks@[i].created_at == bookmarks[i].created_at
        }
}

/// Whether `fs` and `bs` are the folders and bookmarks of `e` as the store
/// imports them, field for field, in order.
pub open spec fn storage_of(fs: Seq<ImportFolder>, bs: Seq<ImportBookmark>, e: BookmarkExport) -> bool {
    &&& fs.len() == e.folders@.len()
    &&& forall|i: int|
        0 <= i < e.folders@.len() ==> {
            &&& (#[trigger] fs[i]).name@ == e.folders@[i].name@
            &&& opt_view(fs[i].parent_name) == opt_view(e.folders@[i].parent)
            &&& fs[i].created_at == e.folders@[i].created_at
        }
    &&& bs.len() == e.bookmarks@.len()
    &&& forall|i: int|
        0 <= i < e.bookmarks@.len() ==> {
            &&& (#[trigger] bs[i]).title@ == e.bookmarks@[i].title@
            &&& opt_view(bs[i].folder_name) == opt_view(e.bookmarks@[i].folder)
            &&& opt_view(bs[i].note) == opt_view(e.bookmarks@[i].note)
            &&& bs[i].created_at == e.bookmarks@[i].created_at
        }
}

/// Exporting then importing keeps identities by name: every bookmark comes
/// back with its title, note and timestamp, and with the name of the folder
/// it was filed in; every folder comes back with its name, timestamp and the
/// name of its parent.
pub proof fn law_export_import_keeps_names(
    folders: Seq<BookmarkFolder>,
    bookmarks: Seq<Bookmark>,
    exported_at: Option<i64>,
    e: BookmarkExport,
    fs: Seq<ImportFolder>,
    bs: Seq<ImportBookmark>,
)
    requires
        export_of(e, folders, bookmarks, exported_at),
        storage_of(fs, bs, e),
    ensures
        fs.len() == folders.len(),
        forall|i: int|
            0 <= i < folders.len() ==> {
                &&& (#[trigger] fs[i]).name@ == folders[i].name@
                &&& opt_view(fs[i].parent_name) == link_name(folders, folders[i].parent_id)
                &&& fs[i].created_at == folders[i].created_at
            },
        bs.len() == bookmarks.len(),
        forall|i: int|
            0 <= i < bookmarks.len() ==> {
                &&& (#[trigger] bs[i]).title@ == bookmarks[i].article_title@
                &&& opt_view(bs[i].folder_name) == link_name(folders, bookmarks[i].folder_id)
                &&& opt_view(bs[i].note) == opt_view(bookmarks[i].note)
                &&& bs[i].created_at == bookmarks[i].created_at
            },
{
}

impl BookmarkExport {
    /// The envelope of the store's folders and bookmarks, stamped with this
    /// build's tags and version; folder and parent links become names.
    pub fn build(folders: &[BookmarkFolder], bookmarks: &[Bookmark], exported_at: Option<i64>) -> (r: Self)
        ensures
            export_of(r, folders@, bookmarks@, exported_at),
    {
        let mut out_folders: Vec<ExportFolder> = Vec::new();
        let mut i: usize = 0;
        while i < folders.len()
            invariant
                i <= folders@.len(),
                out_folders@.len() == i,
                forall|j: int|
                    0 <= j < i ==> {
                        &&& (#[trigger] out_folders@[j]).name@ == folders@[j].name@
                        &&& opt_view(out_folders@[j].parent) == link_name(folders@, folders@[j].parent_id)
                        &&& out_folders@[j].created_at == folders@[j].created_at
                    },
            decreases folders@.len() - i,
        {
            let f = &folders[i];
            out_folders.push(
                ExportFolder {
                    name: f.name.clone(),
                    parent: find_folder_name(folders, f.parent_id),
                    created_at: f.created_at,
                },
            );
            i = i + 1;
        }
        let mut out_bookmarks: Vec<ExportBookmark> = Vec::new();
        let mut k: usize = 0;
        while k < bookmarks.len()
            invariant
                k <= bookmarks@.len(),
                out_bookmarks@.len() == k,
                forall|j: int|
                    0 <= j < k ==> {
                        &&& (#[trigger] out_bookmarks@[j]).title@ == bookmarks@[j].article_title@
                        &&& opt_view(out_bookmarks@[j].folder) == link_name(folders@, bookmarks@[j].folder_id)
                        &&& opt_view(out_bookmarks@[j].note) == opt_view(bookmarks@[j].note)
                        &&& out_bookmarks@[j].created_at == bookmarks@[j].created_at
                    },
            decreases bookmarks@.len() - k,
        {
            let b = &bookmarks[k];
            out_bookmarks.push(
                ExportBookmark {
                    title: b.article_title.clone(),
                    folder: find_folder_name(folders, b.folder_id),
                    note: copy_opt(&b.note),
                    created_at: b.created_at,
                },
            );
            k = k + 1;
        }
        BookmarkExport {
            app: copy_str(APP_TAG),
            kind: copy_str(KIND_TAG),
            format_version: CURRENT_FORMAT_VERSION,
            exported_at,
            folders: out_folders,
            bookmarks: out_bookmarks,
        }
    }

    /// The folders and bookmarks of the envelope as the store imports them,
    /// field for field, in order.
    pub fn into_storage(self) -> (r: (Vec<ImportFolder>, Vec<ImportBookmark>))
        ensures
            storage_of(r.0@, r.1@, self),
    {
        let mut fs: Vec<ImportFolder> = Vec::new();
        let mut i: usize = 0;
        while i < self.folders.len()
            invariant
                i <= self.folders@.len(),
                fs@.len() == i,
                forall|j: int|
                    0 <= j < i ==> {
                        &&& (#[trigger] fs@[j]).name@ == self.folders@[j].name@
                        &&& opt_view(fs@[j].parent_name) == opt_view(self.folders@[j].parent)
                        &&& fs@[j].created_at == self.folders@[j].created_at
                    },
            decreases self.folders@.len() - i,
        {
            let f = &self.folders[i];
            fs.push(
                ImportFolder {
                    name: f.name.clone(),
                    parent_name: copy_opt(&f.parent),
                    created_at: f.created_at,
                },
            );
            i = i + 1;
        }
        let mut bs: Vec<ImportBookmark> = Vec::new();
        let mut k: usize = 0;
        while k < self.bookmarks.len()
            invariant
                k <= self.bookmarks@.len(),
                bs@.len() == k,
                forall|j: int|
                    0 <= j < k ==> {
                        &&& (#[trigger] bs@[j]).title@ == self.bookmarks@[j].title@
                        &&& opt_view(bs@[j].folder_name) == opt_view(self.bookmarks@[j].folder)
                        &&& opt_view(bs@[j].note) == opt_view(self.bookmarks@[j].note)
                        &&& bs@[j].created_at == self.bookmarks@[j].created_at
                    },
            decreases self.bookmarks@.len() - k,
        {
            let b = &self.bookmarks[k];
            bs.push(
                ImportBookmark {
                    title: b.title.clone(),
                    folder_name: copy_opt(&b.folder),
                    note: copy_opt(&b.note),
                    created_at: b.created_at,
                },
            );
            k = k + 1;
        }
        (fs, bs)
    }
}

/// How Rust's `Debug` formatting writes the string `s`: quoted, with
/// special characters escaped.
pub uninterp spec fn debug_str_text(s: Seq<char>) -> Seq<char>;

/// `<str as Debug>::fmt`, through `format!("{s:?}")`.
#[verifier::external_body]
fn debug_quoted(s: &str) -> (r: String)
    ensures
        r@ == debug_str_text(s@),
{
    format!("{s:?}")
}

/// The key of a backup's format version.
pub const VERSION_KEY: &'static str = "format_version";

/// The key of a backup's `app` tag.
pub const APP_KEY: &'static str = "app";

/// The key of a backup's `kind` tag.
pub const KIND_KEY: &'static str = "kind";

/// What `serde_json::from_str::<Value>` makes of `text`: the document, or the
/// text of the syntax error.
pub uninterp spec fn json_parsed(text: Seq<char>) -> Result<Value, Seq<char>>;

/// `serde_json::from_str::<Value>`: the document of `text`, or the text of
/// its syntax error.
#[verifier::external_body]
fn json_parse(text: &str) -> (r: Result<Value, String>)
    ensures
        match json_parsed(text@) {
            Ok(d) => r matches Ok(x) && x == d,
            Err(e) => r matches Err(m) && m@ == e,
        },
{
    serde_json::from_str::<Value>(text).map_err(|e| e.to_string())
}

/// What `serde_json` gives for the field `key` of the document of `text`
/// read as an unsigned integer: `None` when the text does not parse, the
/// field is missing or is not an unsigned integer that fits in 64 bits.
pub uninterp spec fn json_u64_field_of(text: Seq<char>, key: Seq<char>) -> Option<u64>;

/// `serde_json::from_str::<Value>`, then `Value::get(key)` and
/// `Value::as_u64`.
#[verifier::external_body]
fn json_u64_field(text: &str, key: &str) -> (r: Option<u64>)
    ensures
        r == json_u64_field_of(text@, key@),
{
    match serde_json::from_str::<Value>(text) {
        Ok(v) => v.get(key).and_then(Value::as_u64),
        Err(_) => None,
    }
}

/// What `serde_json` gives for the field `key` of the document of `text`
/// read as a string: `None` when the text does not parse, the field is
/// missing or is not a string.
pub uninterp spec fn json_str_field_of(text: Seq<char>, key: Seq<char>) -> Option<Seq<char>>;

/// `serde_json::from_str::<Value>`, then `Value::get(key)` and
/// `Value::as_str`, copied into a `String`.
#[verifier::external_body]
fn json_str_field(text: &str, key: &str) -> (r: Option<String>)
    ensures
        opt_view(r) == json_str_field_of(text@, key@),
{
    match serde_json::from_str::<Value>(text) {
        Ok(v) => v.get(key).and_then(Value::as_str).map(String::from),
        Err(_) => None,
    }
}

/// What the header of a backup says: its version (the declared number
/// truncated to 32 bits) and whether it is newer than this build, or the
/// text of the error. A missing version, or an `app` or `kind` tag that is
/// present, not empty and not ours, is refused; a missing or empty tag is
/// tolerated.
pub open spec fn header_check_spec(
    version: Option<u64>,
    app: Option<Seq<char>>,
    kind: Option<Seq<char>>,
) -> Result<(u32, bool), Seq<char>> {
    match version {
        None => Err("this file is not a Tome bookmark backup (no \"format_version\" field)"@),
        Some(v) => if app is Some && app->0.len() > 0 && app->0 != APP_TAG@ {
            Err("this backup belongs to another app (app = "@ + debug_str_text(app->0) + "), not Tome"@)
        } else if kind is Some && kind->0.len() > 0 && kind->0 != KIND_TAG@ {
            Err("this Tome backup is a "@ + debug_str_text(kind->0) + " backup, not bookmarks"@)
        } else {
            Ok((v as u32, (v as u32) > CURRENT_FORMAT_VERSION))
        },
    }
}

/// Checks the header fields of a backup: its version (the declared number
/// truncated to 32 bits) and whether that is newer than this build, or an
/// `Other` error.
pub fn check_backup_header(version: Option<u64>, app: Option<String>, kind: Option<String>) -> (r: Result<(u32, bool), TomeError>)
    ensures
        match header_check_spec(version, opt_view(app), opt_view(kind)) {
            Ok(x) => r == Ok::<(u32, bool), TomeError>(x),
            Err(m) => r matches Err(TomeError::Other(x)) && x@ == m,
        },
{
    let v = match version {
        None => {
            return Err(
                TomeError::Other(
                    copy_str("this file is not a Tome bookmark backup (no \"format_version\" field)"),
                ),
            )
        },
        Some(v) => v,
    };
    if let Some(a) = &app {
        if crate::text::chars_of(a.as_str()).len() > 0 && !str_eq(a.as_str(), APP_TAG) {
            let mut out: Vec<char> = Vec::new();
            push_str_chars(&mut out, "this backup belongs to another app (app = ");
            push_str_chars(&mut out, debug_quoted(a.as_str()).as_str());
            push_str_chars(&mut out, "), not Tome");
            return Err(TomeError::Other(string_of(out.as_slice())));
        }
    }
    if let Some(k) = &kind {
        if crate::text::chars_of(k.as_str()).len() > 0 && !str_eq(k.as_str(), KIND_TAG) {
            let mut out: Vec<char> = Vec::new();
            push_str_chars(&mut out, "this Tome backup is a ");
            push_str_chars(&mut out, debug_quoted(k.as_str()).as_str());
            push_str_chars(&mut out, " backup, not bookmarks");
            return Err(TomeError::Other(string_of(out.as_slice())));
        }
    }
    let version32 = v as u32;
    Ok((version32, version32 > CURRENT_FORMAT_VERSION))
}

/// Upgrades a document from `from_version` to the next version. Only
/// version 1 exists, so there is nothing to change yet; each new version
/// adds one step here and keeps the old ones.
fn migrate_step(from_version: u32, value: Value) -> (r: Value)
    ensures
        r == value,
{
    value
}

/// Runs a document forward from version `from` to the current version, one
/// step at a time; a document at the current version or newer is left
/// unchanged.
pub fn migrate_to_current(value: Value, from: u32) -> (r: Value)
    ensures
        r == value,
{
    let mut value = value;
    let ghost initial = value;
    let mut v = from;
    while v < CURRENT_FORMAT_VERSION
        invariant
            value == initial,
        decreases CURRENT_FORMAT_VERSION - v,
    {
        value = migrate_step(v, value);
        v = v + 1;
    }
    value
}

/// A backup's document, run forward to the current version, with the
/// version it declared.
#[derive(Debug)]
pub struct BackupEnvelope {
    pub value: Value,
    pub source_format_version: u32,
    pub from_newer_version: bool,
}

/// Reads the JSON text of a backup and checks its header (`format_version`,
/// `app` and `kind`); the document is then run forward to the current
/// version and returned. Text that is not JSON, or a header that is refused,
/// gives an `Other` error.
pub fn read_backup(text: &str) -> (r: Result<BackupEnvelope, TomeError>)
    ensures
        match json_parsed(text@) {
            Err(e) => r matches Err(TomeError::Other(m)) && m@ == "backup is not valid JSON: "@ + e,
            Ok(doc) => match header_check_spec(
                json_u64_field_of(text@, VERSION_KEY@),
                json_str_field_of(text@, APP_KEY@),
                json_str_field_of(text@, KIND_KEY@),
            ) {
                Err(m) => r matches Err(TomeError::Other(x)) && x@ == m,
                Ok((version, newer)) => r matches Ok(env) && env.value == doc
                    && env.source_format_version == version && env.from_newer_version == newer,
            },
        },
{
    let value = match json_parse(text) {
        Ok(d) => d,
        Err(e) => return Err(TomeError::Other(crate::error::prefixed("backup is not valid JSON: ", &e))),
    };
    let version = json_u64_field(text, VERSION_KEY);
    let app = json_str_field(text, APP_KEY);
    let kind = json_str_field(text, KIND_KEY);
    let (source_format_version, from_newer_version) = check_backup_header(version, app, kind)?;
    let value = migrate_to_current(value, source_format_version);
    Ok(BackupEnvelope { value, source_format_version, from_newer_version })
}

impl ParsedBackup {
    /// A read backup of the envelope `export`, read from the document of
    /// `envelope`.
    pub fn new(export: BookmarkExport, envelope: &BackupEnvelope) -> (r: Self)
        ensures
            r.export == export,
            r.source_format_version == envelope.source_format_version,
            r.from_newer_version == envelope.from_newer_version,
    {
        ParsedBackup {
            export,
            source_format_version: envelope.source_format_version,
            from_newer_version: envelope.from_newer_version,
        }
    }
}

} // verus!
