use tome::dump::index::IndexEntry;
use tome::dump::stream::RawPage;
use tome::error::TomeError;
use tome::services::bookmark_export::{
    check_backup_header, migrate_to_current, read_backup, Bookmark, BookmarkExport, BookmarkFolder,
    ParsedBackup, APP_TAG, CURRENT_FORMAT_VERSION, KIND_TAG,
};
use tome::services::category_ingest::{self, CategoryLink, CategoryMemberKind};
use tome::services::geotag_ingest;
use tome::services::redirect_ingest::{self, Redirect};
use tome::services::sql_dump::{find_subslice, parse_tuple, prefix_tail_overlap, scan_insert_statements};
use tome::dump::fixture::{build_fixture, PageData};
use tome::dump::stream::decompress_stream;
use tome::services::tome::{
    api_response, dump_response, find_page, plan_read, ArticleContent, ArticleRead, ArticleRecord, ArticleResponse,
    ArticleSource, IngestBatcher, ReadPhase, ReadPlan, ReadStep, INGEST_BATCH_SIZE, INGEST_PROGRESS_INTERVAL,
};

// ---- redirects ----

#[test]
fn redirect_ingest_parses_a_single_insert_with_two_rows() {
    let sql = "\
INSERT INTO `redirect` VALUES \
(123,0,'United_States','',''),\
(456,0,'Photon','','Section');";
    let mut redirects = Vec::new();
    let n = redirect_ingest::parse_str(sql, |r| redirects.push(r)).unwrap();
    assert_eq!(n, 2);
    assert_eq!(redirects[0].from_page_id, 123);
    assert_eq!(redirects[0].target_title, "United States");
    assert_eq!(redirects[1].from_page_id, 456);
    assert_eq!(redirects[1].target_title, "Photon");
}

#[test]
fn skips_non_main_namespace() {
    let sql = "INSERT INTO `redirect` VALUES (789,1,'Some_Talk_Page','','');";
    let mut redirects = Vec::new();
    let n = redirect_ingest::parse_str(sql, |r| redirects.push(r)).unwrap();
    assert_eq!(n, 0);
    assert!(redirects.is_empty());
}

#[test]
fn skips_interwiki_redirects() {
    let sql = "INSERT INTO `redirect` VALUES (1,0,'Some_Page','enwiki','');";
    let mut redirects = Vec::new();
    let n = redirect_ingest::parse_str(sql, |r| redirects.push(r)).unwrap();
    assert_eq!(n, 0);
}

#[test]
fn normalizes_underscores_to_spaces() {
    let sql = "INSERT INTO `redirect` VALUES (1,0,'United_States_of_America','','');";
    let mut redirects = Vec::new();
    redirect_ingest::parse_str(sql, |r| redirects.push(r)).unwrap();
    assert_eq!(redirects[0].target_title, "United States of America");
}

#[test]
fn handles_apostrophe_in_title() {
    let sql = "INSERT INTO `redirect` VALUES (1,0,'Joan_d\\'Arc','','');";
    let mut redirects = Vec::new();
    redirect_ingest::parse_str(sql, |r| redirects.push(r)).unwrap();
    assert_eq!(redirects[0].target_title, "Joan d'Arc");
}

#[test]
fn skips_empty_target_title() {
    let sql = "INSERT INTO `redirect` VALUES (1,0,'','','');";
    let mut redirects = Vec::new();
    let n = redirect_ingest::parse_str(sql, |r| redirects.push(r)).unwrap();
    assert_eq!(n, 0);
}

#[test]
fn redirect_ingest_ignores_other_inserts() {
    let sql = "INSERT INTO `something_else` VALUES (1,2,3); INSERT INTO `redirect` VALUES (42,0,'Target_Page','','');";
    let mut redirects = Vec::new();
    redirect_ingest::parse_str(sql, |r| redirects.push(r)).unwrap();
    assert_eq!(redirects.len(), 1);
    assert_eq!(redirects[0].from_page_id, 42);
    assert_eq!(redirects[0].target_title, "Target Page");
}

fn stream_bytes<T>(sql: &str, parse_buf: fn(&[u8], bool) -> (Vec<T>, usize), chunk: usize) -> Vec<T> {
    let mut streamed = Vec::new();
    let mut pending: Vec<u8> = Vec::new();
    for piece in sql.as_bytes().chunks(chunk) {
        pending.extend_from_slice(piece);
        let (rows, consumed) = parse_buf(&pending, false);
        streamed.extend(rows);
        pending.drain(..consumed);
    }
    let (rows, _) = parse_buf(&pending, true);
    streamed.extend(rows);
    streamed
}

#[test]
fn redirect_ingest_handles_statements_split_across_chunk_boundaries() {
    let sql = "\
INSERT INTO `redirect` VALUES \
(1,0,'United_States','',''),\
(2,0,'Photon','','Section');\n\
INSERT INTO `redirect` VALUES (3,0,'Joan_d\\'Arc','','');";

    let streamed: Vec<Redirect> = stream_bytes(sql, redirect_ingest::parse_buf, 1);

    let mut whole = Vec::new();
    redirect_ingest::parse_str(sql, |r| whole.push(r)).unwrap();

    assert_eq!(streamed.len(), 3);
    assert_eq!(streamed.len(), whole.len());
    assert_eq!(streamed[0].target_title, "United States");
    assert_eq!(streamed[2].target_title, "Joan d'Arc");
}

#[test]
fn redirect_streaming_matches_whole_for_every_chunk_size() {
    let sql = "junk INSERT INTO `redirect` VALUES (1,0,'A_b','',''),(2,0,'C','','x');\n\
INSERT INTO `other` VALUES (9,0,'Z','','');\n\
INSERT INTO `redirect` VALUES (3,-0,'D','',''),(4,1,'E','','');";
    let (whole, consumed) = redirect_ingest::parse_buf(sql.as_bytes(), true);
    assert_eq!(consumed, sql.len());
    for chunk in 1..sql.len() + 1 {
        let streamed = stream_bytes(sql, redirect_ingest::parse_buf, chunk);
        assert_eq!(streamed, whole, "chunk size {chunk}");
    }
    assert_eq!(whole.len(), 3);
    assert_eq!(whole[2].target_title, "D");
}

#[test]
fn partial_prefix_at_the_end_is_kept() {
    let sql = b"INSERT INTO `redirect` VALUES (1,0,'A','','');INSERT INTO `red";
    let (rows, consumed) = redirect_ingest::parse_buf(sql, false);
    assert_eq!(rows.len(), 1);
    assert_eq!(consumed, sql.len() - "INSERT INTO `red".len());
}

#[test]
fn unterminated_statement_is_kept_until_eof() {
    let sql = b"INSERT INTO `redirect` VALUES (1,0,'A','',''),(2,0,'B'";
    let (rows, consumed) = redirect_ingest::parse_buf(sql, false);
    assert!(rows.is_empty());
    assert_eq!(consumed, 0);
    let (rows, consumed) = redirect_ingest::parse_buf(sql, true);
    assert_eq!(rows.len(), 1);
    assert_eq!(consumed, sql.len());
}

// ---- category links ----

#[test]
fn category_ingest_parses_a_single_insert_with_two_rows() {
    let sql = "\
INSERT INTO `categorylinks` VALUES \
(23535,'Photons','Photon','2024-01-01 00:00:00','','uca-default','page'),\
(9404,'Subatomic_particles','Electron','2024-01-01 00:00:00','','uca-default','page');";
    let mut links = Vec::new();
    let n = category_ingest::parse_str(sql, |l| links.push(l)).unwrap();
    assert_eq!(n, 2);
    assert_eq!(links[0].from_page_id, 23535);
    assert_eq!(links[0].category, "Photons");
    assert_eq!(links[0].kind, CategoryMemberKind::Page);
    assert_eq!(links[1].kind, CategoryMemberKind::Page);
}

#[test]
fn handles_subcat_and_file_kinds() {
    let sql = "\
INSERT INTO `categorylinks` VALUES \
(1,'A','','2024-01-01 00:00:00','','uca-default','subcat'),\
(2,'B','','2024-01-01 00:00:00','','uca-default','file');";
    let mut links = Vec::new();
    category_ingest::parse_str(sql, |l| links.push(l)).unwrap();
    assert_eq!(links[0].kind, CategoryMemberKind::Subcat);
    assert_eq!(links[1].kind, CategoryMemberKind::File);
}

#[test]
fn rejects_unknown_kind() {
    let sql = "INSERT INTO `categorylinks` VALUES (1,'A','','2024-01-01 00:00:00','','uca-default','weird');";
    let mut links = Vec::new();
    let n = category_ingest::parse_str(sql, |l| links.push(l)).unwrap();
    assert_eq!(n, 0);
}

#[test]
fn handles_apostrophe_in_category_name() {
    let sql = "INSERT INTO `categorylinks` VALUES (1,'Joan_d\\'Arc','','2024-01-01 00:00:00','','uca-default','page');";
    let mut links = Vec::new();
    category_ingest::parse_str(sql, |l| links.push(l)).unwrap();
    assert_eq!(links[0].category, "Joan_d'Arc");
}

#[test]
fn skips_empty_categories() {
    let sql = "INSERT INTO `categorylinks` VALUES (1,'','','2024-01-01 00:00:00','','uca-default','page');";
    let mut links = Vec::new();
    let n = category_ingest::parse_str(sql, |l| links.push(l)).unwrap();
    assert_eq!(n, 0);
}

#[test]
fn category_ingest_ignores_other_inserts() {
    let sql = "INSERT INTO `something_else` VALUES (1,2,3); INSERT INTO `categorylinks` VALUES (1,'X','','2024-01-01 00:00:00','','uca-default','page');";
    let mut links = Vec::new();
    category_ingest::parse_str(sql, |l| links.push(l)).unwrap();
    assert_eq!(links.len(), 1);
}

#[test]
fn category_ingest_handles_statements_split_across_chunk_boundaries() {
    let sql = "\
INSERT INTO `categorylinks` VALUES \
(1,'Physics','Photon','2024-01-01 00:00:00','','uca-default','page'),\
(2,'Chemistry','Atom','2024-01-01 00:00:00','','uca-default','subcat');\n\
INSERT INTO `categorylinks` VALUES \
(3,'Biology','Cell','2024-01-01 00:00:00','','uca-default','file');";

    let streamed: Vec<CategoryLink> = stream_bytes(sql, category_ingest::parse_buf, 1);

    let mut whole = Vec::new();
    category_ingest::parse_str(sql, |l| whole.push(l)).unwrap();

    assert_eq!(streamed.len(), 3);
    assert_eq!(streamed.len(), whole.len());
    assert_eq!(streamed[0].from_page_id, 1);
    assert_eq!(streamed[2].category, "Biology");
    assert_eq!(streamed[2].kind, CategoryMemberKind::File);
}

#[test]
fn member_kind_names() {
    assert_eq!(CategoryMemberKind::parse("page"), Some(CategoryMemberKind::Page));
    assert_eq!(CategoryMemberKind::parse("subcat"), Some(CategoryMemberKind::Subcat));
    assert_eq!(CategoryMemberKind::parse("file"), Some(CategoryMemberKind::File));
    assert_eq!(CategoryMemberKind::parse("Page"), None);
}

// ---- geotags (coordinates stay text here) ----

#[test]
fn geotag_rows_keep_page_primary_and_kind() {
    let sql = "\
INSERT INTO `geo_tags` VALUES \
(1,23535,'earth',1,42.5,-71.0,1000,'mountain','Foo','US',NULL),\
(2,9404,'earth',0,51.5,-0.1,500,'city',NULL,'GB',NULL);";
    let (rows, _) = geotag_ingest::parse_buf(sql.as_bytes(), true);
    assert_eq!(rows.len(), 2);
    assert_eq!(rows[0].page_id, 23535);
    assert!(rows[0].primary);
    assert!((rows[0].lat.parse::<f64>().unwrap() - 42.5).abs() < 1e-6);
    assert_eq!(rows[0].kind.as_deref(), Some("mountain"));
    assert_eq!(rows[1].page_id, 9404);
    assert!(!rows[1].primary);
    assert_eq!(rows[1].lon, "-0.1");
    assert_eq!(rows[1].kind.as_deref(), Some("city"));
}

#[test]
fn geotag_null_kind_and_other_tables() {
    let sql = "INSERT INTO `something_else` VALUES (1,2,3); INSERT INTO `geo_tags` VALUES (1,42,'earth',1,10.0,20.0,0,NULL,NULL,NULL,NULL);";
    let (rows, _) = geotag_ingest::parse_buf(sql.as_bytes(), true);
    assert_eq!(rows.len(), 1);
    assert_eq!(rows[0].page_id, 42);
    assert_eq!(rows[0].kind, None);
}

#[test]
fn geotag_streaming_matches_whole() {
    let sql = "\
INSERT INTO `geo_tags` VALUES \
(1,11,'earth',1,42.5,-71.0,1000,'mountain','Foo','US',NULL),\
(2,22,'earth',0,51.5,-0.1,500,'city',NULL,'GB',NULL);\n\
INSERT INTO `geo_tags` VALUES (3,33,'earth',1,10.0,20.0,0,'landmark',NULL,NULL,NULL);";
    let streamed = stream_bytes(sql, geotag_ingest::parse_buf, 1);
    assert_eq!(streamed.len(), 3);
    assert_eq!(streamed[0].page_id, 11);
    assert_eq!(streamed[2].page_id, 33);
    assert_eq!(streamed[2].kind.as_deref(), Some("landmark"));
}

// ---- the SQL scanner ----

#[test]
fn tuple_fields_handle_quotes_and_escapes() {
    let (fields, used) = parse_tuple(b"1, 'a\\'b' ,'c,d',NULL) rest").unwrap();
    assert_eq!(fields, vec!["1".to_string(), "a'b".to_string(), "c,d".to_string(), "NULL".to_string()]);
    assert_eq!(used, "1, 'a\\'b' ,'c,d',NULL)".len());
    assert!(parse_tuple(b"1,'open").is_none());
}

#[test]
fn find_and_overlap() {
    assert_eq!(find_subslice(b"xxabcab", b"ab"), Some(2));
    assert_eq!(find_subslice(b"xxx", b"ab"), None);
    assert_eq!(prefix_tail_overlap(b"zzINS", b"INSERT"), 3);
    assert_eq!(prefix_tail_overlap(b"INSERT", b"INSERT"), 0);
    let (tuples, consumed) = scan_insert_statements(b"P(1);P(2,3);", true, b"P");
    assert_eq!(tuples, vec![vec!["1".to_string()], vec!["2".to_string(), "3".to_string()]]);
    assert_eq!(consumed, 12);
}

// ---- bookmark backups ----

fn folder(id: i64, name: &str, parent_id: Option<i64>) -> BookmarkFolder {
    BookmarkFolder { id, name: name.into(), parent_id, created_at: 100 }
}

fn bm(id: i64, title: &str, folder_id: Option<i64>, note: Option<&str>) -> Bookmark {
    Bookmark { id, article_title: title.into(), folder_id, note: note.map(Into::into), created_at: 200 }
}

#[test]
fn into_storage_maps_names_through() {
    let folders = vec![folder(1, "A", None)];
    let bookmarks = vec![bm(1, "T", Some(1), None)];
    let export = BookmarkExport::build(&folders, &bookmarks, None);
    let (ifolders, ibms) = export.into_storage();
    assert_eq!(ifolders[0].name, "A");
    assert_eq!(ibms[0].title, "T");
    assert_eq!(ibms[0].folder_name.as_deref(), Some("A"));
}

#[test]
fn build_links_by_name_and_stamps_tags() {
    let folders = vec![folder(1, "Survival", None), folder(2, "Water", Some(1)), folder(3, "Orphan", Some(9))];
    let bookmarks = vec![bm(1, "Water purification", Some(2), Some("boil 1 min")), bm(2, "Photon", None, None)];
    let export = BookmarkExport::build(&folders, &bookmarks, Some(1_700_000_000));
    assert_eq!(export.app, APP_TAG);
    assert_eq!(export.kind, KIND_TAG);
    assert_eq!(export.format_version, CURRENT_FORMAT_VERSION);
    assert_eq!(export.exported_at, Some(1_700_000_000));
    assert_eq!(export.folders[1].parent.as_deref(), Some("Survival"));
    assert_eq!(export.folders[2].parent, None);
    assert_eq!(export.bookmarks[0].folder.as_deref(), Some("Water"));
    assert_eq!(export.bookmarks[0].note.as_deref(), Some("boil 1 min"));
    assert_eq!(export.bookmarks[1].folder, None);
    assert_eq!(export.bookmarks[1].created_at, 200);
}

#[test]
fn build_uses_the_last_folder_with_a_duplicate_id() {
    let folders = vec![folder(1, "First", None), folder(1, "Second", None)];
    let bookmarks = vec![bm(1, "T", Some(1), None)];
    let export = BookmarkExport::build(&folders, &bookmarks, None);
    assert_eq!(export.bookmarks[0].folder.as_deref(), Some("Second"));
}

fn other_text(r: Result<impl std::fmt::Debug, TomeError>) -> String {
    match r {
        Err(TomeError::Other(m)) => m,
        other => panic!("unexpected {other:?}"),
    }
}

#[test]
fn parse_rejects_non_json() {
    let err = other_text(read_backup("definitely not json"));
    assert!(err.contains("not valid JSON"), "{err}");
}

#[test]
fn parse_rejects_json_without_format_version() {
    let err = other_text(read_backup(r#"{"hello": "world"}"#));
    assert!(err.contains("not a Tome bookmark backup"), "{err}");
}

#[test]
fn parse_rejects_wrong_app() {
    let err = other_text(read_backup(r#"{"format_version": 1, "app": "someotherapp"}"#));
    assert!(err.contains("another app"), "{err}");
    assert_eq!(err, "this backup belongs to another app (app = \"someotherapp\"), not Tome");
}

#[test]
fn parse_rejects_wrong_kind() {
    let err = other_text(read_backup(r#"{"format_version": 1, "app": "tome", "kind": "history"}"#));
    assert!(err.contains("not bookmarks"), "{err}");
}

#[test]
fn backup_header_tolerates_missing_app_and_kind() {
    let env = read_backup(r#"{"format_version": 1, "bookmarks": [{"title": "Photon"}]}"#).unwrap();
    assert_eq!(env.source_format_version, 1);
    assert_eq!(env.value["bookmarks"][0]["title"], "Photon");
}

#[test]
fn backup_header_flags_a_newer_version() {
    let json = r#"{"app": "tome", "kind": "bookmarks", "format_version": 99,
                   "bookmarks": [{"title": "Photon"}]}"#;
    let env = read_backup(json).unwrap();
    assert_eq!(env.source_format_version, 99);
    assert!(env.from_newer_version);
    assert_eq!(env.value["bookmarks"].as_array().unwrap().len(), 1);
}

#[test]
fn header_check_truncates_version_and_tolerates_empty_tags() {
    assert_eq!(check_backup_header(Some(1), Some(String::new()), Some(String::new())).unwrap(), (1, false));
    assert_eq!(check_backup_header(Some((1u64 << 32) + 1), None, None).unwrap(), (1, false));
    assert_eq!(check_backup_header(Some(2), None, None).unwrap(), (2, true));
    assert!(check_backup_header(None, None, None).is_err());
}

#[test]
fn migration_of_a_current_document_is_the_identity() {
    let v: serde_json::Value = serde_json::from_str(r#"{"format_version": 1, "x": [1, 2]}"#).unwrap();
    assert_eq!(migrate_to_current(v.clone(), 0), v);
    assert_eq!(migrate_to_current(v.clone(), 1), v);
}

#[test]
fn parsed_backup_carries_version_facts() {
    let env = read_backup(r#"{"format_version": 3}"#).unwrap();
    let export = BookmarkExport::build(&[], &[], None);
    let parsed = ParsedBackup::new(export, &env);
    assert_eq!(parsed.source_format_version, 3);
    assert!(parsed.from_newer_version);
}

// ---- reading and ingest decisions ----

#[test]
fn hot_and_warm_content_render_locally() {
    match plan_read("Photon", ArticleContent::Hot("w".into())).unwrap() {
        ReadPlan::Render { wikitext, source } => {
            assert_eq!(wikitext, "w");
            assert_eq!(source, ArticleSource::HotLocal);
        }
        other => panic!("unexpected {other:?}"),
    }
    match plan_read("Photon", ArticleContent::Warm("w2".into())).unwrap() {
        ReadPlan::Render { source, .. } => assert_eq!(source, ArticleSource::WarmLocal),
        other => panic!("unexpected {other:?}"),
    }
}

#[test]
fn cold_content_goes_to_its_stream() {
    match plan_read("Photon", ArticleContent::Cold { stream_offset: 7, stream_length: Some(9) }).unwrap() {
        ReadPlan::Cold { stream_offset, stream_length } => assert_eq!((stream_offset, stream_length), (7, Some(9))),
        other => panic!("unexpected {other:?}"),
    }
}

#[test]
fn evicted_content_needs_confirmation() {
    let err = plan_read("Photon", ArticleContent::Evicted).unwrap_err();
    match err {
        TomeError::Other(m) => assert_eq!(m, "article 'Photon' is evicted; user confirmation required to fetch"),
        other => panic!("unexpected {other:?}"),
    }
}

fn raw(page_id: u64, revision_id: u64) -> RawPage {
    RawPage { page_id, title: format!("P{page_id}"), revision_id, wikitext: String::new() }
}

#[test]
fn cold_page_is_found_by_id() {
    let pages = vec![raw(1, 10), raw(2, 20), raw(2, 21)];
    assert_eq!(find_page(&pages, 2, 0).unwrap(), 1);
    match find_page(&pages, 3, 4096).unwrap_err() {
        TomeError::Dump(m) => assert_eq!(m, "page_id 3 not found in stream at 4096"),
        other => panic!("unexpected {other:?}"),
    }
    let resp = dump_response("P2", "<p/>".into(), &pages[1]);
    assert_eq!(resp.source, ArticleSource::DumpLocal);
    assert_eq!(resp.revision_id, Some(20));
    let api = api_response("P2", "<html/>".into(), None);
    assert_eq!(api.source, ArticleSource::ApiCachedHtml);
    assert_eq!(api.title, "P2");
}

fn index_entry(i: u64) -> IndexEntry {
    IndexEntry { stream_offset: i * 10, page_id: i, title: format!("T{i}") }
}

#[test]
fn ingest_batches_and_reports_progress() {
    let mut b = IngestBatcher::new();
    let mut batches = 0;
    let mut reports = Vec::new();
    for i in 0..12_345u64 {
        if let Some(batch) = b.push(index_entry(i)) {
            assert_eq!(batch.len(), INGEST_BATCH_SIZE);
            batches += 1;
            if let Some(t) = b.flushed(batch.len() as u64) {
                reports.push(t);
            }
        }
    }
    let rest = b.remainder().unwrap();
    assert_eq!(rest.len(), 2_345);
    assert_eq!(rest[0], (10_000, "T10000".to_string(), 100_000));
    b.flushed(rest.len() as u64);
    assert_eq!(batches, 2);
    assert_eq!(reports, vec![INGEST_PROGRESS_INTERVAL]);
    assert_eq!(b.total(), 12_345);
    assert!(b.remainder().is_none());
}

#[test]
fn progress_reports_are_an_interval_apart() {
    let mut b = IngestBatcher::new();
    assert_eq!(b.flushed(9_999), None);
    assert_eq!(b.flushed(1), Some(10_000));
    assert_eq!(b.flushed(9_999), None);
    assert_eq!(b.flushed(25_000), Some(44_999));
    assert_eq!(b.flushed(9_999), None);
    assert_eq!(b.flushed(1), Some(54_999));
}

#[test]
fn written_tuple_reads_back_its_fields() {
    let written: &[u8] = b"42,'it\\'s a \\\\ test','',NULL,'(x)'";
    let mut input = written.to_vec();
    input.extend_from_slice(b");INSERT");
    let (fields, used) = parse_tuple(&input).unwrap();
    assert_eq!(fields, vec!["42", "it's a \\ test", "", "NULL", "(x)"]);
    assert_eq!(used, written.len() + 1);
}

#[test]
fn written_statement_scans_back_its_tuples() {
    let prefix: &[u8] = b"INSERT INTO `t` VALUES ";
    let mut buf = prefix.to_vec();
    buf.extend_from_slice(b"(1,'a\\'b'),(2,'c,d',x),('(',')');");
    for eof in [true, false] {
        let (tuples, used) = scan_insert_statements(&buf, eof, prefix);
        assert_eq!(
            tuples,
            vec![vec!["1", "a'b"], vec!["2", "c,d", "x"], vec!["(", ")"]]
        );
        assert_eq!(used, buf.len());
    }
}

fn photon_record() -> ArticleRecord {
    ArticleRecord { page_id: 23535, title: "Photon".into(), revision_id: Some(7) }
}

fn finish(step: ReadStep) -> Result<ArticleResponse, TomeError> {
    match step {
        ReadStep::Finish(r) => r,
        other => panic!("expected Finish, got {other:?}"),
    }
}

#[test]
fn read_of_unknown_title_is_not_found() {
    let mut read = ArticleRead::new("Nope", true);
    let err = finish(read.on_record(None)).unwrap_err();
    assert!(matches!(err, TomeError::NotFound(t) if t == "Nope"));
    assert_eq!(read.phase, ReadPhase::Done);
}

#[test]
fn hot_article_is_rendered_then_touched() {
    let mut read = ArticleRead::new("photon", true);
    assert!(matches!(read.on_record(Some(photon_record())), ReadStep::GetContent(23535)));
    match read.on_content(Some(ArticleContent::Hot("'''Photon'''".into()))) {
        ReadStep::Render(w) => assert_eq!(w, "'''Photon'''"),
        other => panic!("unexpected {other:?}"),
    }
    assert!(matches!(read.on_rendered("<b>Photon</b>".into()), ReadStep::Touch(23535)));
    let resp = finish(read.on_touched(Ok(()))).unwrap();
    assert_eq!(resp.title, "Photon");
    assert_eq!(resp.html, "<b>Photon</b>");
    assert_eq!(resp.source, ArticleSource::HotLocal);
    assert_eq!(resp.revision_id, Some(7));
}

#[test]
fn evicted_article_is_refused() {
    let mut read = ArticleRead::new("Photon", false);
    read.on_record(Some(photon_record()));
    let err = finish(read.on_content(Some(ArticleContent::Evicted))).unwrap_err();
    assert!(
        matches!(err, TomeError::Other(m) if m == "article 'Photon' is evicted; user confirmation required to fetch")
    );
}

#[test]
fn cold_article_prefers_cached_api_html() {
    let mut read = ArticleRead::new("Photon", true);
    read.on_record(Some(photon_record()));
    match read.on_content(Some(ArticleContent::Cold { stream_offset: 0, stream_length: Some(10) })) {
        ReadStep::FetchApiHtml { title, revision_id } => {
            assert_eq!(title, "Photon");
            assert_eq!(revision_id, Some(7));
        }
        other => panic!("unexpected {other:?}"),
    }
    assert!(matches!(read.on_api(Ok("<p>api</p>".into())), ReadStep::Touch(23535)));
    let resp = finish(read.on_touched(Ok(()))).unwrap();
    assert_eq!(resp.source, ArticleSource::ApiCachedHtml);
    assert_eq!(resp.html, "<p>api</p>");
}

#[test]
fn cold_article_falls_back_to_its_dump_stream() {
    let pages = vec![
        PageData { title: "Electron".into(), page_id: 9404, revision_id: 1, wikitext: "e".into() },
        PageData { title: "Photon".into(), page_id: 23535, revision_id: 99, wikitext: "A photon.".into() },
    ];
    let fx = build_fixture(pages, 2).unwrap();
    let s = &fx.streams[0];
    let mut read = ArticleRead::new("Photon", true);
    read.on_record(Some(photon_record()));
    read.on_content(Some(ArticleContent::Cold {
        stream_offset: s.stream_offset,
        stream_length: Some(s.stream_length),
    }));
    match read.on_api(Err(TomeError::KillSwitch)) {
        ReadStep::ReadStream { stream_offset, stream_length } => {
            assert_eq!(stream_offset, s.stream_offset);
            assert_eq!(stream_length, Some(s.stream_length));
        }
        other => panic!("unexpected {other:?}"),
    }
    let start = s.stream_offset as usize;
    let bytes = decompress_stream(&fx.dump_bytes[start..start + s.stream_length as usize]);
    match read.on_stream(bytes) {
        ReadStep::Render(w) => assert_eq!(w, "A photon."),
        other => panic!("unexpected {other:?}"),
    }
    read.on_rendered("<p>A photon.</p>".into());
    let resp = finish(read.on_touched(Ok(()))).unwrap();
    assert_eq!(resp.source, ArticleSource::DumpLocal);
    assert_eq!(resp.revision_id, Some(99));
    assert_eq!(resp.title, "Photon");
}

#[test]
fn cold_stream_without_the_page_is_a_dump_error() {
    let pages = vec![PageData { title: "Electron".into(), page_id: 9404, revision_id: 1, wikitext: "e".into() }];
    let fx = build_fixture(pages, 1).unwrap();
    let mut read = ArticleRead::new("Photon", false);
    read.on_record(Some(photon_record()));
    read.on_content(Some(ArticleContent::Cold { stream_offset: 0, stream_length: None }));
    let err = finish(read.on_stream(decompress_stream(&fx.dump_bytes))).unwrap_err();
    assert!(matches!(err, TomeError::Dump(m) if m == "page_id 23535 not found in stream at 0"));
}

#[test]
fn failed_touch_ends_the_read_with_its_error() {
    let mut read = ArticleRead::new("Photon", false);
    read.on_record(Some(photon_record()));
    read.on_content(Some(ArticleContent::Warm("w".into())));
    read.on_rendered("h".into());
    let err = finish(read.on_touched(Err(TomeError::Storage("disk full".into())))).unwrap_err();
    assert!(matches!(err, TomeError::Storage(m) if m == "disk full"));
}
