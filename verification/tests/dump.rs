use tome::dump::fixture::{build_fixture, PageData};
use tome::dump::index::{parse_index_line, read_index_line};
use tome::dump::integrity::{verify_sha1, Sha1Stream};
use tome::dump::stream::{decompress_stream, parse_pages, DumpReader, PageBuilder, PageReader};
use tome::dump::xml::XmlEvent;
use tome::error::TomeError;

// ---- index lines ----

#[test]
fn parses_well_formed_line() {
    let entry = parse_index_line("12345:678:Photon").unwrap();
    assert_eq!(entry.stream_offset, 12345);
    assert_eq!(entry.page_id, 678);
    assert_eq!(entry.title, "Photon");
}

#[test]
fn title_may_contain_colons() {
    let entry = parse_index_line("12345:678:Help:Contents").unwrap();
    assert_eq!(entry.title, "Help:Contents");
}

#[test]
fn rejects_malformed_offset() {
    let err = parse_index_line("notanumber:678:Photon").unwrap_err();
    assert!(matches!(err, TomeError::Dump(_)));
}

#[test]
fn rejects_malformed_page_id() {
    let err = parse_index_line("12345:notanumber:Photon").unwrap_err();
    assert!(matches!(err, TomeError::Dump(_)));
}

#[test]
fn rejects_too_few_fields() {
    let err = parse_index_line("12345:678").unwrap_err();
    assert!(matches!(err, TomeError::Dump(_)));
}

#[test]
fn index_error_texts_name_the_field() {
    match parse_index_line("12345:678").unwrap_err() {
        TomeError::Dump(m) => assert_eq!(m, "missing title in: 12345:678"),
        other => panic!("unexpected {other:?}"),
    }
    match parse_index_line("x:678:T").unwrap_err() {
        TomeError::Dump(m) => assert_eq!(m, "bad offset 'x': invalid digit found in string"),
        other => panic!("unexpected {other:?}"),
    }
    match parse_index_line("1::T").unwrap_err() {
        TomeError::Dump(m) => assert_eq!(m, "bad page_id '': cannot parse integer from empty string"),
        other => panic!("unexpected {other:?}"),
    }
    match parse_index_line("99999999999999999999:1:T").unwrap_err() {
        TomeError::Dump(m) => {
            assert_eq!(m, "bad offset '99999999999999999999': number too large to fit in target type")
        }
        other => panic!("unexpected {other:?}"),
    }
}

// ---- page records ----

const TWO_PAGES_XML: &[u8] = br#"
<page>
    <title>Photon</title>
    <id>23535</id>
    <revision>
        <id>987654321</id>
        <text xml:space="preserve">A '''photon''' is an [[elementary particle]].</text>
    </revision>
</page>
<page>
    <title>Electron</title>
    <id>9404</id>
    <revision>
        <id>111222333</id>
        <text xml:space="preserve">An '''electron''' is a subatomic particle.</text>
    </revision>
</page>
"#;

#[test]
fn parses_two_pages() {
    let pages = parse_pages(TWO_PAGES_XML).unwrap();
    assert_eq!(pages.len(), 2);

    assert_eq!(pages[0].title, "Photon");
    assert_eq!(pages[0].page_id, 23535);
    assert_eq!(pages[0].revision_id, 987654321);
    assert!(pages[0].wikitext.contains("'''photon'''"));
    assert!(pages[0].wikitext.contains("[[elementary particle]]"));

    assert_eq!(pages[1].title, "Electron");
    assert_eq!(pages[1].page_id, 9404);
    assert_eq!(pages[1].revision_id, 111222333);
}

#[test]
fn handles_html_entities_in_text() {
    let xml = br#"
<page>
    <title>Test &amp; Title</title>
    <id>1</id>
    <revision>
        <id>2</id>
        <text>Foo &amp; bar &lt;baz&gt;</text>
    </revision>
</page>
"#;
    let pages = parse_pages(xml).unwrap();
    assert_eq!(pages[0].title, "Test & Title");
    assert_eq!(pages[0].wikitext, "Foo & bar <baz>");
}

#[test]
fn empty_stream_yields_no_pages() {
    let pages = parse_pages(b"").unwrap();
    assert!(pages.is_empty());
}

#[test]
fn stream_rejects_invalid_utf8() {
    match parse_pages(&[b'<', 0xff]).unwrap_err() {
        TomeError::Dump(m) => assert!(m.starts_with("stream is not valid utf-8: "), "{m}"),
        other => panic!("unexpected {other:?}"),
    }
}

#[test]
fn stream_rejects_bad_page_id() {
    let xml = b"<page><title>T</title><id>x1</id><revision><id>2</id><text>w</text></revision></page>";
    match parse_pages(xml).unwrap_err() {
        TomeError::Dump(m) => assert_eq!(m, "bad page id 'x1': invalid digit found in string"),
        other => panic!("unexpected {other:?}"),
    }
}

#[test]
fn stream_rejects_missing_revision_id() {
    let xml = b"<page><title>T</title><id>1</id><revision><text>w</text></revision></page>";
    match parse_pages(xml).unwrap_err() {
        TomeError::Dump(m) => assert_eq!(m, "bad revision id '': cannot parse integer from empty string"),
        other => panic!("unexpected {other:?}"),
    }
}

#[test]
fn stream_reads_cdata_text_and_trims_ids() {
    let xml = b"<page><title>C</title><id> 7 </id><revision><id>\n8\n</id><text><![CDATA[a < b]]></text></revision></page>";
    let pages = parse_pages(xml).unwrap();
    assert_eq!(pages.len(), 1);
    assert_eq!(pages[0].page_id, 7);
    assert_eq!(pages[0].revision_id, 8);
    assert_eq!(pages[0].wikitext, "a < b");
}

#[test]
fn stream_reports_xml_syntax_errors() {
    let xml = b"<page><title>T</title></wrong></page>";
    match parse_pages(xml).unwrap_err() {
        TomeError::Dump(m) => assert!(m.starts_with("xml parse: "), "{m}"),
        other => panic!("unexpected {other:?}"),
    }
}

#[test]
fn page_builder_requires_numeric_ids() {
    let mut b = PageBuilder::new();
    b.title.push_str("T");
    b.page_id.push_str("12");
    b.revision_id.push_str("34");
    b.wikitext.push_str("w");
    let p = b.build().unwrap();
    assert_eq!((p.page_id, p.revision_id, p.title.as_str(), p.wikitext.as_str()), (12, 34, "T", "w"));
}

#[test]
fn dump_reader_keeps_its_path() {
    let r = DumpReader::open("/data/enwiki.xml.bz2");
    assert_eq!(r.path(), "/data/enwiki.xml.bz2");
}

// ---- fixture ----

fn sample_pages() -> Vec<PageData> {
    vec![
        PageData {
            title: "Photon".into(),
            page_id: 23535,
            revision_id: 987654321,
            wikitext: "A '''photon''' is an [[elementary particle]].".into(),
        },
        PageData {
            title: "Electron".into(),
            page_id: 9404,
            revision_id: 111222333,
            wikitext: "An '''electron''' is a subatomic particle.".into(),
        },
        PageData {
            title: "Quark".into(),
            page_id: 25313,
            revision_id: 444555666,
            wikitext: "A '''quark''' is an elementary particle.".into(),
        },
    ]
}

#[test]
fn fixture_groups_pages_into_streams() {
    let fx = build_fixture(sample_pages(), 2).unwrap();
    assert_eq!(fx.streams.len(), 2);
    assert_eq!(fx.streams[0].pages.len(), 2);
    assert_eq!(fx.streams[1].pages.len(), 1);
}

#[test]
fn fixture_offsets_match_dump_layout() {
    let fx = build_fixture(sample_pages(), 1).unwrap();
    assert_eq!(fx.streams.len(), 3);
    assert_eq!(fx.streams[0].stream_offset, 0);
    assert_eq!(fx.streams[1].stream_offset, fx.streams[0].stream_length);
    assert_eq!(fx.streams[2].stream_offset, fx.streams[1].stream_offset + fx.streams[1].stream_length);
    assert_eq!(fx.dump_bytes.len() as u64, fx.streams[2].stream_offset + fx.streams[2].stream_length);
}

#[test]
fn rejects_zero_pages_per_stream() {
    let err = build_fixture(sample_pages(), 0).unwrap_err();
    assert!(matches!(err, TomeError::Other(_)));
}

#[test]
fn fixture_streams_are_bzip2_and_nonempty() {
    let fx = build_fixture(sample_pages(), 2).unwrap();
    for s in &fx.streams {
        let start = s.stream_offset as usize;
        assert!(s.stream_length > 0);
        assert_eq!(&fx.dump_bytes[start..start + 3], b"BZh");
    }
    assert_eq!(&fx.index_bytes[..3], b"BZh");
}

#[test]
fn fixture_of_no_pages_is_empty() {
    let fx = build_fixture(Vec::new(), 3).unwrap();
    assert!(fx.streams.is_empty());
    assert!(fx.dump_bytes.is_empty());
    assert!(!fx.index_bytes.is_empty());
}

#[test]
fn streams_decode_independently_in_any_order() {
    let fx = build_fixture(sample_pages(), 1).unwrap();
    for info in fx.streams.iter().rev() {
        let start = info.stream_offset as usize;
        let end = start + info.stream_length as usize;
        let bytes = decompress_stream(&fx.dump_bytes[start..end]).unwrap();
        let parsed = parse_pages(&bytes).unwrap();
        assert_eq!(parsed.len(), info.pages.len());
        for (got, want) in parsed.iter().zip(info.pages.iter()) {
            assert_eq!(got.title, want.title);
            assert_eq!(got.page_id, want.page_id);
            assert_eq!(got.revision_id, want.revision_id);
            assert_eq!(got.wikitext, want.wikitext);
        }
    }
}

#[test]
fn stream_read_to_end_of_dump_stops_at_its_own_end() {
    let fx = build_fixture(sample_pages(), 2).unwrap();
    let bytes = decompress_stream(&fx.dump_bytes[fx.streams[0].stream_offset as usize..]).unwrap();
    let parsed = parse_pages(&bytes).unwrap();
    assert_eq!(parsed.len(), 2);
    assert_eq!(parsed[0].title, "Photon");
    assert_eq!(parsed[1].title, "Electron");
    let text = String::from_utf8(bytes).unwrap();
    assert!(text.starts_with("<page>\n<title>Photon</title>\n<id>23535</id>"));
}

#[test]
fn fixture_index_decompresses_to_its_lines() {
    let fx = build_fixture(sample_pages(), 2).unwrap();
    let text = String::from_utf8(decompress_stream(&fx.index_bytes).unwrap()).unwrap();
    let second = fx.streams[1].stream_offset;
    assert_eq!(
        text,
        format!("0:23535:Photon\n0:9404:Electron\n{second}:25313:Quark\n")
    );
}

#[test]
fn decompressing_what_is_not_bzip2_is_an_io_error() {
    assert!(matches!(decompress_stream(b"not bzip2 at all"), Err(TomeError::Io(_))));
    assert!(matches!(decompress_stream(b""), Err(TomeError::Io(_))));
    let fx = build_fixture(sample_pages(), 3).unwrap();
    let cut = &fx.dump_bytes[..fx.dump_bytes.len() / 2];
    assert!(matches!(decompress_stream(cut), Err(TomeError::Io(_))));
}

// ---- integrity ----

fn digest_of(bytes: &[u8]) -> String {
    let mut h = Sha1Stream::new();
    h.update(bytes);
    h.finish_hex()
}

#[test]
fn known_sha1_of_empty_string() {
    assert_eq!(digest_of(b""), "da39a3ee5e6b4b0d3255bfef95601890afd80709");
}

#[test]
fn known_sha1_of_abc() {
    assert_eq!(digest_of(b"abc"), "a9993e364706816aba3e25717850c26c9cd0d89d");
}

#[test]
fn sha1_of_pieces_matches_sha1_of_whole() {
    let mut h = Sha1Stream::new();
    h.update(b"a");
    h.update(b"");
    h.update(b"bc");
    assert_eq!(h.finish_hex(), digest_of(b"abc"));
}

#[test]
fn verify_succeeds_on_match() {
    let mut h = Sha1Stream::new();
    h.update(b"hello");
    verify_sha1(h, "aaf4c61ddcc5e8a2dabede0f3b482cd9aea9434d").unwrap();
}

#[test]
fn verify_succeeds_case_insensitive() {
    let mut h = Sha1Stream::new();
    h.update(b"hello");
    verify_sha1(h, "AAF4C61DDCC5E8A2DABEDE0F3B482CD9AEA9434D").unwrap();
}

#[test]
fn verify_fails_on_mismatch() {
    let mut h = Sha1Stream::new();
    h.update(b"hello");
    let err = verify_sha1(h, "0000000000000000000000000000000000000000").unwrap_err();
    assert!(matches!(err, TomeError::Integrity(_)));
}

#[test]
fn verify_mismatch_names_both_digests() {
    let mut h = Sha1Stream::new();
    h.update(b"hello");
    match verify_sha1(h, "00").unwrap_err() {
        TomeError::Integrity(m) => {
            assert_eq!(m, "sha1 mismatch: expected 00, got aaf4c61ddcc5e8a2dabede0f3b482cd9aea9434d")
        }
        other => panic!("unexpected {other:?}"),
    }
}

#[test]
fn sha1_verification_against_synthetic_dump() {
    let fx = build_fixture(sample_pages(), 2).unwrap();
    let expected = digest_of(&fx.dump_bytes);
    let mut h = Sha1Stream::new();
    for piece in fx.dump_bytes.chunks(7) {
        h.update(piece);
    }
    verify_sha1(h, &expected).unwrap();
}

#[test]
fn page_reader_follows_events() {
    let mut r = PageReader::new();
    let events = vec![
        XmlEvent::Start("root".into()),
        XmlEvent::Start("page".into()),
        XmlEvent::Start("title".into()),
        XmlEvent::Text(Ok("Photon".into())),
        XmlEvent::End("title".into()),
        XmlEvent::Start("id".into()),
        XmlEvent::Text(Ok(" 5 ".into())),
        XmlEvent::End("id".into()),
        XmlEvent::Start("revision".into()),
        XmlEvent::Start("id".into()),
        XmlEvent::Text(Ok("7".into())),
        XmlEvent::End("id".into()),
        XmlEvent::Start("text".into()),
        XmlEvent::Text(Ok("a ".into())),
        XmlEvent::CData(b"b".to_vec()),
        XmlEvent::End("text".into()),
        XmlEvent::Other,
        XmlEvent::End("revision".into()),
        XmlEvent::End("page".into()),
        XmlEvent::End("root".into()),
    ];
    for ev in events {
        assert!(r.apply(ev).is_none());
    }
    assert!(matches!(r.apply(XmlEvent::Eof), Some(Ok(()))));
    assert_eq!(r.pages.len(), 1);
    assert_eq!(r.pages[0].title, "Photon");
    assert_eq!(r.pages[0].page_id, 5);
    assert_eq!(r.pages[0].revision_id, 7);
    assert_eq!(r.pages[0].wikitext, "a b");
}

#[test]
fn page_reader_reports_event_errors() {
    let mut r = PageReader::new();
    match r.apply(XmlEvent::Error("boom".into())) {
        Some(Err(TomeError::Dump(m))) => assert_eq!(m, "xml parse: boom"),
        other => panic!("unexpected {other:?}"),
    }
    match r.apply(XmlEvent::Text(Err("bad entity".into()))) {
        Some(Err(TomeError::Dump(m))) => assert_eq!(m, "xml unescape: bad entity"),
        other => panic!("unexpected {other:?}"),
    }
    match r.apply(XmlEvent::CData(vec![0xff])) {
        Some(Err(TomeError::Dump(m))) => assert!(m.starts_with("cdata utf-8: "), "{m}"),
        other => panic!("unexpected {other:?}"),
    }
    assert!(r.apply(XmlEvent::Text(Ok("outside".into()))).is_none());
    assert!(r.pages.is_empty());
}

#[test]
fn raw_index_lines_lose_their_line_endings() {
    assert!(read_index_line("\r\n").is_none());
    assert!(read_index_line("").is_none());
    let e = read_index_line("7:8:Help:Contents\r\n").unwrap().unwrap();
    assert_eq!((e.stream_offset, e.page_id, e.title.as_str()), (7, 8, "Help:Contents"));
    let e = read_index_line("7:8:Title with trailing space \n").unwrap().unwrap();
    assert_eq!(e.title, "Title with trailing space ");
    assert!(matches!(read_index_line("x:8:T\n"), Some(Err(TomeError::Dump(_)))));
}
