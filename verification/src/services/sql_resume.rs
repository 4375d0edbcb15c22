//! Why scanning a dump in pieces gives what scanning it whole gives.
//!
//! A dump is read a chunk at a time: the bytes read so far are scanned
//! without `eof`, the rows of the complete statements are taken, the
//! processed bytes are dropped, and the next chunk is appended to the rest.
//! The laws here show that this yields, row for row, what one scan of the
//! whole input yields, for every way of cutting the input into chunks.

use vstd::prelude::*;

use crate::services::sql_dump::{
    find_spec, first_occurrence, lemma_stmt_end, lemma_tuple_from_bounds, occurs_at, overlap_from,
    overlap_spec, scan_from, scan_spec, stmt_from, tuple_from, tuple_spec, CLOSE_PAREN, COMMA,
    OPEN_PAREN, QUOTE, BACKSLASH, SEMICOLON,
};

verus! {

/// Whether `p` is the first `p.len()` bytes of `b`.
pub open spec fn prefix_of(p: Seq<u8>, b: Seq<u8>) -> bool {
    p.len() <= b.len() && forall|k: int| 0 <= k < p.len() ==> p[k] == b[k]
}

proof fn lemma_prefix_skip(p: Seq<u8>, b: Seq<u8>, i: int)
    requires
        prefix_of(p, b),
        0 <= i <= p.len(),
    ensures
        prefix_of(p.skip(i), b.skip(i)),
{
}

proof fn lemma_tuple_extend(
    p: Seq<u8>,
    b: Seq<u8>,
    i: int,
    fields: Seq<Seq<u8>>,
    current: Seq<u8>,
    in_string: bool,
    escape: bool,
)
    requires
        prefix_of(p, b),
        0 <= i,
        tuple_from(p, i, fields, current, in_string, escape) is Some,
    ensures
        tuple_from(b, i, fields, current, in_string, escape) == tuple_from(
            p,
            i,
            fields,
            current,
            in_string,
            escape,
        ),
    decreases p.len() - i,
{
    if i < p.len() {
        let x = p[i];
        assert(b[i] == x);
        if escape {
            lemma_tuple_extend(p, b, i + 1, fields, current.push(x), in_string, false);
        } else if in_string {
            if x == BACKSLASH {
                lemma_tuple_extend(p, b, i + 1, fields, current, in_string, true);
            } else if x == QUOTE {
                lemma_tuple_extend(p, b, i + 1, fields, current, false, false);
            } else {
                lemma_tuple_extend(p, b, i + 1, fields, current.push(x), in_string, false);
            }
        } else if x == QUOTE {
            lemma_tuple_extend(p, b, i + 1, fields, current, true, false);
        } else if x == COMMA {
            lemma_tuple_extend(p, b, i + 1, fields.push(current), Seq::empty(), false, false);
        } else if x == CLOSE_PAREN {
        } else {
            lemma_tuple_extend(p, b, i + 1, fields, current.push(x), false, false);
        }
    }
}

/// A statement that ends within `p` (read without `eof`) ends the same way
/// in any longer input.
proof fn lemma_stmt_extend(p: Seq<u8>, b: Seq<u8>, i: int, eof: bool)
    requires
        prefix_of(p, b),
        0 <= i,
        stmt_from(p, i, false) is Some,
    ensures
        stmt_from(b, i, eof) == stmt_from(p, i, false),
    decreases p.len() - i,
{
    if i < p.len() {
        assert(b[i] == p[i]);
        if p[i] == SEMICOLON {
        } else if p[i] != OPEN_PAREN {
            lemma_stmt_extend(p, b, i + 1, eof);
        } else {
            lemma_prefix_skip(p, b, i + 1);
            match tuple_spec(p.skip(i + 1)) {
                None => {},
                Some((fields, n)) => {
                    lemma_tuple_extend(p.skip(i + 1), b.skip(i + 1), 0, Seq::empty(), Seq::empty(), false, false);
                    lemma_tuple_from_bounds(p.skip(i + 1), 0, Seq::empty(), Seq::empty(), false, false);
                    lemma_stmt_extend(p, b, i + 1 + n, eof);
                },
            }
        }
    }
}

/// A statement read without `eof` ends just after a `;`.
proof fn lemma_stmt_ends_after_semicolon(p: Seq<u8>, i: int)
    requires
        0 <= i,
        stmt_from(p, i, false) is Some,
    ensures
        ({
            let end = (stmt_from(p, i, false)->0).0;
            i < end <= p.len() && p[end - 1] == SEMICOLON
        }),
    decreases p.len() - i,
{
    if i < p.len() {
        if p[i] == SEMICOLON {
        } else if p[i] != OPEN_PAREN {
            lemma_stmt_ends_after_semicolon(p, i + 1);
        } else {
            match tuple_spec(p.skip(i + 1)) {
                None => {},
                Some((fields, n)) => {
                    lemma_tuple_from_bounds(p.skip(i + 1), 0, Seq::empty(), Seq::empty(), false, false);
                    lemma_stmt_ends_after_semicolon(p, i + 1 + n);
                },
            }
        }
    }
}

/// A statement outcome with its end moved by `s`.
pub open spec fn shift_stmt(r: Option<(int, Seq<Seq<Seq<u8>>>)>, s: int) -> Option<(int, Seq<Seq<Seq<u8>>>)> {
    match r {
        None => None,
        Some((end, t)) => Some((end + s, t)),
    }
}

/// Reading a statement does not depend on the bytes before it.
proof fn lemma_stmt_shift(b: Seq<u8>, s: int, i: int, eof: bool)
    requires
        0 <= s <= i,
        s <= b.len(),
    ensures
        stmt_from(b, i, eof) == shift_stmt(stmt_from(b.skip(s), i - s, eof), s),
    decreases b.len() - i,
{
    let bs = b.skip(s);
    if i < b.len() {
        assert(bs[i - s] == b[i]);
        if b[i] == SEMICOLON {
        } else if b[i] != OPEN_PAREN {
            lemma_stmt_shift(b, s, i + 1, eof);
        } else {
            assert(bs.skip(i - s + 1) =~= b.skip(i + 1));
            match tuple_spec(b.skip(i + 1)) {
                None => {},
                Some((fields, n)) => {
                    lemma_tuple_from_bounds(b.skip(i + 1), 0, Seq::empty(), Seq::empty(), false, false);
                    lemma_stmt_shift(b, s, i + 1 + n, eof);
                },
            }
        }
    }
}

proof fn lemma_occurs_skip(b: Seq<u8>, pre: Seq<u8>, pos: int, r: int)
    requires
        0 <= pos <= b.len(),
        0 <= r,
    ensures
        occurs_at(b.skip(pos), pre, r) == occurs_at(b, pre, pos + r),
{
    if r + pre.len() <= b.len() - pos {
        assert(b.skip(pos).subrange(r, r + pre.len()) =~= b.subrange(pos + r, pos + r + pre.len()));
    }
}

proof fn lemma_first_exists(h: Seq<u8>, needle: Seq<u8>, j: int)
    requires
        occurs_at(h, needle, j),
    ensures
        exists|i: int| first_occurrence(h, needle, i),
    decreases j,
{
    if exists|k: int| 0 <= k < j && occurs_at(h, needle, k) {
        let k = choose|k: int| 0 <= k < j && occurs_at(h, needle, k);
        lemma_first_exists(h, needle, k);
    } else {
        assert(first_occurrence(h, needle, j));
    }
}

proof fn lemma_find_some(h: Seq<u8>, needle: Seq<u8>)
    requires
        find_spec(h, needle) is Some,
    ensures
        first_occurrence(h, needle, find_spec(h, needle)->0),
{
}

proof fn lemma_find_none(h: Seq<u8>, needle: Seq<u8>, j: int)
    requires
        find_spec(h, needle) is None,
    ensures
        !occurs_at(h, needle, j),
{
    if occurs_at(h, needle, j) {
        lemma_first_exists(h, needle, j);
    }
}

/// Whether the last `k` bytes of `buf` are the first `k` of `needle`.
pub open spec fn suffix_match(buf: Seq<u8>, needle: Seq<u8>, k: int) -> bool {
    buf.subrange(buf.len() - k, buf.len() as int) == needle.take(k)
}

proof fn lemma_overlap_from(buf: Seq<u8>, needle: Seq<u8>, k0: int)
    requires
        0 <= k0 <= buf.len(),
        k0 <= needle.len(),
    ensures
        0 <= overlap_from(buf, needle, k0) <= k0,
        overlap_from(buf, needle, k0) > 0 ==> suffix_match(buf, needle, overlap_from(buf, needle, k0)),
        forall|k: int| overlap_from(buf, needle, k0) < k <= k0 ==> !suffix_match(buf, needle, k),
    decreases k0,
{
    if k0 > 0 && !suffix_match(buf, needle, k0) {
        lemma_overlap_from(buf, needle, k0 - 1);
    }
}

/// The bound on the overlap of `buf` with `needle`.
pub open spec fn overlap_cap(buf: Seq<u8>, needle: Seq<u8>) -> int {
    let cap = if needle.len() == 0 {
        0
    } else {
        needle.len() - 1
    };
    if cap < buf.len() {
        cap
    } else {
        buf.len() as int
    }
}

proof fn lemma_overlap(buf: Seq<u8>, needle: Seq<u8>)
    ensures
        0 <= overlap_spec(buf, needle) <= overlap_cap(buf, needle),
        overlap_spec(buf, needle) > 0 ==> suffix_match(buf, needle, overlap_spec(buf, needle)),
        forall|k: int|
            overlap_spec(buf, needle) < k <= overlap_cap(buf, needle) ==> !suffix_match(buf, needle, k),
{
    lemma_overlap_from(buf, needle, overlap_cap(buf, needle));
}

/// The partial prefix kept at the end never reaches back over a `;` when
/// the prefix holds none.
proof fn lemma_overlap_after_semicolon(buf: Seq<u8>, pre: Seq<u8>, q: int)
    requires
        1 <= q <= buf.len(),
        buf[q - 1] == SEMICOLON,
        !pre.contains(SEMICOLON),
    ensures
        overlap_spec(buf, pre) <= buf.len() - q,
{
    lemma_overlap(buf, pre);
    let r = overlap_spec(buf, pre);
    if r > buf.len() - q {
        let idx = q - 1 - (buf.len() - r);
        assert(buf.subrange(buf.len() - r, buf.len() as int)[idx] == buf[q - 1]);
        assert(pre.take(r)[idx] == pre[idx]);
        assert(pre.contains(SEMICOLON));
    }
}

proof fn lemma_overlap_skip(b: Seq<u8>, pre: Seq<u8>, s: int)
    requires
        0 <= s <= b.len(),
        overlap_spec(b, pre) <= b.len() - s,
    ensures
        overlap_spec(b.skip(s), pre) == overlap_spec(b, pre),
{
    let bs = b.skip(s);
    lemma_overlap(b, pre);
    lemma_overlap(bs, pre);
    assert forall|k: int| 0 <= k <= bs.len() implies suffix_match(bs, pre, k) == suffix_match(b, pre, k) by {
        assert(bs.subrange(bs.len() - k, bs.len() as int) =~= b.subrange(b.len() - k, b.len() as int));
    }
    let r = overlap_spec(b, pre);
    let r2 = overlap_spec(bs, pre);
    if r2 > r {
        assert(suffix_match(b, pre, r2));
    }
    if r > r2 {
        assert(r > 0);
        assert(suffix_match(bs, pre, r));
    }
}

proof fn lemma_find_is(h: Seq<u8>, needle: Seq<u8>, i: int)
    requires
        first_occurrence(h, needle, i),
    ensures
        find_spec(h, needle) == Some(i),
{
    let k = choose|k: int| first_occurrence(h, needle, k);
    assert(first_occurrence(h, needle, k));
    if k < i {
        assert(!occurs_at(h, needle, k));
    } else if i < k {
        assert(!occurs_at(h, needle, i));
    }
}

/// Scanning from `pos` is scanning from `c` when no statement prefix starts
/// in between.
proof fn lemma_scan_skip_ahead(b: Seq<u8>, pos: int, c: int, eof: bool, pre: Seq<u8>)
    requires
        0 <= pos <= c <= b.len(),
        pre.len() > 0,
        forall|j: int| pos <= j < c ==> !occurs_at(b, pre, j),
    ensures
        scan_from(b, pos, eof, pre) == scan_from(b, c, eof, pre),
{
    match find_spec(b.skip(c), pre) {
        Some(r2) => {
            lemma_find_some(b.skip(c), pre);
            lemma_occurs_skip(b, pre, c, r2);
            let x = c + r2 - pos;
            assert forall|j: int| 0 <= j < x implies !occurs_at(b.skip(pos), pre, j) by {
                lemma_occurs_skip(b, pre, pos, j);
                if pos + j >= c {
                    lemma_occurs_skip(b, pre, c, pos + j - c);
                }
            }
            lemma_occurs_skip(b, pre, pos, x);
            assert(first_occurrence(b.skip(pos), pre, x));
            lemma_find_is(b.skip(pos), pre, x);
        },
        None => {
            if find_spec(b.skip(pos), pre) is Some {
                lemma_find_some(b.skip(pos), pre);
                let r = find_spec(b.skip(pos), pre)->0;
                lemma_occurs_skip(b, pre, pos, r);
                lemma_occurs_skip(b, pre, c, pos + r - c);
                lemma_find_none(b.skip(c), pre, pos + r - c);
            }
        },
    }
}

/// Scanning does not depend on the bytes before the position it starts
/// from, but for the partial prefix kept at the end, which must not reach
/// back before `s`.
proof fn lemma_scan_shift(b: Seq<u8>, s: int, q: int, eof: bool, pre: Seq<u8>)
    requires
        0 <= s <= q <= b.len(),
        pre.len() > 0,
        eof || overlap_spec(b, pre) <= b.len() - s,
    ensures
        scan_from(b, q, eof, pre).0 == scan_from(b.skip(s), q - s, eof, pre).0,
        scan_from(b, q, eof, pre).1 == s + scan_from(b.skip(s), q - s, eof, pre).1,
    decreases b.len() - q,
{
    let bs = b.skip(s);
    assert(bs.skip(q - s) =~= b.skip(q));
    if !eof {
        lemma_overlap_skip(b, pre, s);
    }
    match find_spec(b.skip(q), pre) {
        None => {},
        Some(rel) => {
            let start = q + rel;
            lemma_find_some(b.skip(q), pre);
            lemma_occurs_skip(b, pre, q, rel);
            lemma_stmt_shift(b, s, start + pre.len(), eof);
            match stmt_from(b, start + pre.len(), eof) {
                None => {},
                Some((end, t)) => {
                    lemma_stmt_end(b, start + pre.len(), eof);
                    lemma_scan_shift(b, s, end, eof, pre);
                },
            }
        },
    }
}

proof fn lemma_scan_resume_from(b: Seq<u8>, m: int, pos: int, eof: bool, pre: Seq<u8>)
    requires
        0 <= m <= b.len(),
        0 <= pos <= m,
        pos == 0 || b[pos - 1] == SEMICOLON,
        pre.len() > 0,
        !pre.contains(SEMICOLON),
    ensures
        ({
            let r = scan_from(b.take(m), pos, false, pre);
            &&& pos <= r.1 <= m
            &&& scan_from(b, pos, eof, pre).0 == r.0 + scan_from(b.skip(r.1), 0, eof, pre).0
            &&& scan_from(b, pos, eof, pre).1 == r.1 + scan_from(b.skip(r.1), 0, eof, pre).1
        }),
    decreases m - pos,
{
    let p = b.take(m);
    assert(prefix_of(p, b));
    match find_spec(p.skip(pos), pre) {
        None => {
            lemma_overlap(p, pre);
            let ov = overlap_spec(p, pre);
            let c = m - ov;
            if pos > 0 {
                assert(p[pos - 1] == b[pos - 1]);
                lemma_overlap_after_semicolon(p, pre, pos);
            }
            assert forall|j: int| pos <= j < c implies !occurs_at(b, pre, j) by {
                if occurs_at(b, pre, j) {
                    if j + pre.len() <= m {
                        assert(p.subrange(j, j + pre.len()) =~= b.subrange(j, j + pre.len()));
                        lemma_occurs_skip(p, pre, pos, j - pos);
                        lemma_find_none(p.skip(pos), pre, j - pos);
                    } else {
                        let l = m - j;
                        assert(p.subrange(m - l, m) =~= b.subrange(j, j + pre.len()).take(l));
                        assert(pre.take(l) =~= b.subrange(j, j + pre.len()).take(l));
                        assert(suffix_match(p, pre, l));
                    }
                }
            }
            lemma_scan_skip_ahead(b, pos, c, eof, pre);
            if !eof {
                lemma_overlap(b, pre);
                let big = overlap_spec(b, pre);
                if big > b.len() - c {
                    let j = b.len() - big;
                    let l = m - j;
                    assert(b.subrange(j, b.len() as int) == pre.take(big));
                    assert(p.subrange(m - l, m) =~= b.subrange(j, b.len() as int).take(l));
                    assert(pre.take(l) =~= pre.take(big).take(l));
                    assert(suffix_match(p, pre, l));
                }
            }
            lemma_scan_shift(b, c, c, eof, pre);
            assert(b.skip(c).skip(0) =~= b.skip(c));
            let rest = scan_from(b.skip(c), 0, eof, pre).0;
            assert(Seq::<Seq<Seq<u8>>>::empty() + rest =~= rest);
        },
        Some(rel) => {
            let start = pos + rel;
            lemma_find_some(p.skip(pos), pre);
            lemma_occurs_skip(p, pre, pos, rel);
            assert(p.subrange(start, start + pre.len()) =~= b.subrange(start, start + pre.len()));
            lemma_occurs_skip(b, pre, pos, rel);
            assert forall|j: int| 0 <= j < rel implies !occurs_at(b.skip(pos), pre, j) by {
                lemma_occurs_skip(b, pre, pos, j);
                lemma_occurs_skip(p, pre, pos, j);
                if occurs_at(b, pre, pos + j) {
                    assert(p.subrange(pos + j, pos + j + pre.len()) =~= b.subrange(
                        pos + j,
                        pos + j + pre.len(),
                    ));
                }
            }
            assert(first_occurrence(b.skip(pos), pre, rel));
            lemma_find_is(b.skip(pos), pre, rel);
            match stmt_from(p, start + pre.len(), false) {
                None => {
                    assert forall|j: int| pos <= j < start implies !occurs_at(b, pre, j) by {
                        lemma_occurs_skip(b, pre, pos, j - pos);
                    }
                    lemma_scan_skip_ahead(b, pos, start, eof, pre);
                    lemma_overlap(b, pre);
                    lemma_scan_shift(b, start, start, eof, pre);
                    assert(b.skip(start).skip(0) =~= b.skip(start));
                    let rest = scan_from(b.skip(start), 0, eof, pre).0;
                    assert(Seq::<Seq<Seq<u8>>>::empty() + rest =~= rest);
                },
                Some((end, tuples)) => {
                    lemma_stmt_extend(p, b, start + pre.len(), eof);
                    lemma_stmt_ends_after_semicolon(p, start + pre.len());
                    assert(b[end - 1] == p[end - 1]);
                    lemma_scan_resume_from(b, m, end, eof, pre);
                    let r2 = scan_from(p, end, false, pre);
                    let rest = scan_from(b.skip(r2.1), 0, eof, pre).0;
                    assert(tuples + (r2.0 + rest) =~= (tuples + r2.0) + rest);
                },
            }
        },
    }
}

/// Scanning resumes exactly. Take the first `m` bytes of an input `b` that
/// have arrived so far, scan them without `eof`, and keep the bytes from the
/// processed count on: the rows found, followed by the rows of scanning the
/// input from that count, are the rows of scanning the whole input, and the
/// counts add up the same way. The statement prefix must not be empty nor
/// contain `;`, which holds of the table prefixes used here.
pub proof fn law_scan_resumes(b: Seq<u8>, m: int, eof: bool, pre: Seq<u8>)
    requires
        0 <= m <= b.len(),
        pre.len() > 0,
        !pre.contains(SEMICOLON),
    ensures
        0 <= scan_spec(b.take(m), false, pre).1 <= m,
        scan_spec(b, eof, pre).0 == scan_spec(b.take(m), false, pre).0 + scan_spec(
            b.skip(scan_spec(b.take(m), false, pre).1),
            eof,
            pre,
        ).0,
        scan_spec(b, eof, pre).1 == scan_spec(b.take(m), false, pre).1 + scan_spec(
            b.skip(scan_spec(b.take(m), false, pre).1),
            eof,
            pre,
        ).1,
{
    lemma_scan_resume_from(b, m, 0, eof, pre);
}

/// The chunks joined end to end.
pub open spec fn join_chunks(chunks: Seq<Seq<u8>>) -> Seq<u8>
    decreases chunks.len(),
{
    if chunks.len() == 0 {
        Seq::empty()
    } else {
        chunks[0] + join_chunks(chunks.drop_first())
    }
}

/// The rows found by reading `chunks` one after another, starting with the
/// retained bytes `pending`: each time the next chunk is appended, the
/// buffer is scanned without `eof`, its rows are taken and its processed
/// bytes dropped; at the end the rest is scanned with `eof`.
pub open spec fn stream_scan(pending: Seq<u8>, chunks: Seq<Seq<u8>>, pre: Seq<u8>) -> Seq<Seq<Seq<u8>>>
    decreases chunks.len(),
{
    if chunks.len() == 0 {
        scan_spec(pending, true, pre).0
    } else {
        let buf = pending + chunks[0];
        let r = scan_spec(buf, false, pre);
        r.0 + stream_scan(buf.skip(r.1), chunks.drop_first(), pre)
    }
}

proof fn lemma_stream_scan(pending: Seq<u8>, chunks: Seq<Seq<u8>>, pre: Seq<u8>)
    requires
        pre.len() > 0,
        !pre.contains(SEMICOLON),
    ensures
        stream_scan(pending, chunks, pre) == scan_spec(pending + join_chunks(chunks), true, pre).0,
    decreases chunks.len(),
{
    if chunks.len() == 0 {
        assert(pending + join_chunks(chunks) =~= pending);
    } else {
        let buf = pending + chunks[0];
        let whole = pending + join_chunks(chunks);
        let rest = join_chunks(chunks.drop_first());
        assert(whole =~= buf + rest);
        assert(whole.take(buf.len() as int) =~= buf);
        law_scan_resumes(whole, buf.len() as int, true, pre);
        let c = scan_spec(buf, false, pre).1;
        assert(whole.skip(c) =~= buf.skip(c) + rest);
        lemma_stream_scan(buf.skip(c), chunks.drop_first(), pre);
    }
}

/// Reading a dump in chunks finds, row for row and in order, what one scan
/// of the whole dump finds, however the dump is cut into chunks.
pub proof fn law_streaming_equals_whole(chunks: Seq<Seq<u8>>, pre: Seq<u8>)
    requires
        pre.len() > 0,
        !pre.contains(SEMICOLON),
    ensures
        stream_scan(Seq::empty(), chunks, pre) == scan_spec(join_chunks(chunks), true, pre).0,
{
    lemma_stream_scan(Seq::empty(), chunks, pre);
    assert(Seq::<u8>::empty() + join_chunks(chunks) =~= join_chunks(chunks));
}

} // verus!
