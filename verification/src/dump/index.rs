//! Lines of the multistream index.
//!
//! Each decompressed line of `*-multistream-index.txt.bz2` has the form
//! `offset:page_id:title`; titles may themselves contain colons.

use vstd::prelude::*;

use crate::error::TomeError;
use crate::text::{chars_of, decimal, is_digit, is_first, lemma_decimal_digits, lemma_decimal_reads_back, lemma_split_first_at, int_error_text, parse_u64_detailed, parse_u64_kind, push_int_error_text, push_str_chars, split_first, split_first_spec, string_of, IntErrorKind};

verus! {

/// One index row: where the page's stream starts, its id, and its title.
#[derive(Debug, PartialEq, Eq)]
pub struct IndexEntry {
    pub stream_offset: u64,
    pub page_id: u64,
    pub title: String,
}

/// The outcome of reading `line` as an index row: the entry's offset, page
/// id and title, or the text of the `Dump` error.
pub open spec fn index_line_spec(line: Seq<char>) -> Result<(u64, u64, Seq<char>), Seq<char>> {
    match split_first_spec(line, ':') {
        None => Err("missing page_id in: "@ + line),
        Some((offset, rest)) => match split_first_spec(rest, ':') {
            None => Err("missing title in: "@ + line),
            Some((page, title)) => match parse_u64_kind(offset) {
                Err(k) => Err("bad offset '"@ + offset + "': "@ + int_error_text(k)),
                Ok(o) => match parse_u64_kind(page) {
                    Err(k) => Err("bad page_id '"@ + page + "': "@ + int_error_text(k)),
                    Ok(p) => Ok((o, p, title)),
                },
            },
        },
    }
}

fn bad_number(label: &str, text: &Vec<char>, k: IntErrorKind) -> (r: TomeError)
    ensures
        r matches TomeError::Dump(m) && m@ == label@ + text@ + "': "@ + int_error_text(k),
{
    let mut out: Vec<char> = Vec::new();
    push_str_chars(&mut out, label);
    let mut i: usize = 0;
    let ghost base = out@;
    while i < text.len()
        invariant
            i <= text@.len(),
            out@ == base + text@.take(i as int),
        decreases text@.len() - i,
    {
        out.push(text[i]);
        proof {
            assert(text@.take(i + 1) == text@.take(i as int).push(text@[i as int]));
        }
        i = i + 1;
    }
    assert(text@.take(text@.len() as int) == text@);
    push_str_chars(&mut out, "': ");
    push_int_error_text(&mut out, k);
    assert(out@ =~= label@ + text@ + "': "@ + int_error_text(k));
    TomeError::Dump(string_of(out.as_slice()))
}

fn missing(label: &str, line: &str) -> (r: TomeError)
    ensures
        r matches TomeError::Dump(m) && m@ == label@ + line@,
{
    let mut out: Vec<char> = Vec::new();
    push_str_chars(&mut out, label);
    push_str_chars(&mut out, line);
    TomeError::Dump(string_of(out.as_slice()))
}

/// Reads one index line, `offset:page_id:title`.
pub fn parse_index_line(line: &str) -> (r: Result<IndexEntry, TomeError>)
    ensures
        match index_line_spec(line@) {
            Ok((o, p, t)) => r matches Ok(e) && e.stream_offset == o && e.page_id == p && e.title@
                == t,
            Err(m) => r matches Err(TomeError::Dump(x)) && x@ == m,
        },
{
    let cs = chars_of(line);
    let (offset, rest) = match split_first(cs.as_slice(), ':') {
        Some(p) => p,
        None => return Err(missing("missing page_id in: ", line)),
    };
    let (page, title) = match split_first(rest.as_slice(), ':') {
        Some(p) => p,
        None => return Err(missing("missing title in: ", line)),
    };
    let stream_offset = match parse_u64_detailed(offset.as_slice()) {
        Ok(v) => v,
        Err(k) => return Err(bad_number("bad offset '", &offset, k)),
    };
    let page_id = match parse_u64_detailed(page.as_slice()) {
        Ok(v) => v,
        Err(k) => return Err(bad_number("bad page_id '", &page, k)),
    };
    Ok(IndexEntry { stream_offset, page_id, title: string_of(title.as_slice()) })
}

/// `line` without its trailing carriage returns and line feeds.
pub open spec fn strip_line_end(line: Seq<char>) -> Seq<char>
    decreases line.len(),
{
    if line.len() > 0 && (line.last() == '\r' || line.last() == '\n') {
        strip_line_end(line.drop_last())
    } else {
        line
    }
}

/// Reads one raw line of the decompressed index, as read with its line
/// ending: `None` for a line that is empty once its trailing carriage
/// returns and line feeds are removed, otherwise what [`parse_index_line`]
/// makes of the rest.
pub fn read_index_line(raw: &str) -> (r: Option<Result<IndexEntry, TomeError>>)
    ensures
        strip_line_end(raw@).len() == 0 ==> r is None,
        strip_line_end(raw@).len() > 0 ==> (r matches Some(x) && match index_line_spec(strip_line_end(raw@)) {
            Ok((o, p, t)) => x matches Ok(e) && e.stream_offset == o && e.page_id == p && e.title@ == t,
            Err(m) => x matches Err(TomeError::Dump(y)) && y@ == m,
        }),
{
    let cs = chars_of(raw);
    let mut n = cs.len();
    assert(cs@.take(n as int) =~= raw@);
    while n > 0 && (cs[n - 1] == '\r' || cs[n - 1] == '\n')
        invariant
            n <= cs@.len(),
            cs@ == raw@,
            strip_line_end(raw@) == strip_line_end(cs@.take(n as int)),
        decreases n,
    {
        assert(cs@.take(n as int).drop_last() =~= cs@.take(n - 1));
        n = n - 1;
    }
    if n == 0 {
        return None;
    }
    let ghost full = cs@;
    let mut kept = cs;
    kept.truncate(n);
    let line = string_of(kept.as_slice());
    proof {
        assert(full.take(n as int).last() == full[n - 1]);
        assert(line@ =~= full.take(n as int));
    }
    Some(parse_index_line(line.as_str()))
}

/// An index line written as `offset:page_id:title`, with both numbers in
/// decimal, reads back as that entry, whatever the title holds (colons
/// included).
pub proof fn law_index_line_reads_back(offset: u64, page_id: u64, title: Seq<char>)
    ensures
        index_line_spec(decimal(offset as nat) + ":"@ + decimal(page_id as nat) + ":"@ + title) == Ok::<
            (u64, u64, Seq<char>),
            Seq<char>,
        >((offset, page_id, title)),
{
    reveal_strlit(":");
    let a = decimal(offset as nat);
    let b = decimal(page_id as nat);
    let rest = b + ":"@ + title;
    let line = a + ":"@ + rest;
    assert(line =~= a + ":"@ + b + ":"@ + title);
    lemma_decimal_digits(offset as nat);
    lemma_decimal_digits(page_id as nat);
    assert(is_first(line, ':', a.len() as int)) by {
        assert forall|j: int| 0 <= j < a.len() implies line[j] != ':' by {
            assert(is_digit(a[j]));
        }
    }
    lemma_split_first_at(line, ':', a.len() as int);
    assert(line.take(a.len() as int) =~= a);
    assert(line.skip(a.len() as int + 1) =~= rest);
    assert(is_first(rest, ':', b.len() as int)) by {
        assert forall|j: int| 0 <= j < b.len() implies rest[j] != ':' by {
            assert(is_digit(b[j]));
        }
    }
    lemma_split_first_at(rest, ':', b.len() as int);
    assert(rest.take(b.len() as int) =~= b);
    assert(rest.skip(b.len() as int + 1) =~= title);
    lemma_decimal_reads_back(offset);
    lemma_decimal_reads_back(page_id);
}

} // verus!
