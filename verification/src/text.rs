//! Character-level text helpers shared by the parsers and formatters.
//!
//! Every helper here is specified over `Seq<char>` (the view of `str` and
//! `String`), so the contracts of the callers can speak about text as
//! mathematical sequences.

use vstd::prelude::*;

verus! {

broadcast use vstd::string::group_string_axioms;

/// `String::push`: appends one character.
#[verifier::external_body]
pub(crate) fn push_char(s: &mut String, c: char)
    ensures
        final(s)@ == old(s)@.push(c),
{
    s.push(c);
}

/// The characters of `s`, in order.
pub fn chars_of(s: &str) -> (r: Vec<char>)
    ensures
        r@ == s@,
{
    let mut r: Vec<char> = Vec::new();
    let mut it = s.chars();
    assert(s@.skip(0) == s@);
    loop
        invariant
            r@.len() <= s@.len(),
            r@ == s@.take(r@.len() as int),
            vstd::std_specs::iter::IteratorSpec::obeys_prophetic_iter_laws(&it),
            vstd::std_specs::iter::IteratorSpec::remaining(&it) == s@.skip(r@.len() as int),
        ensures
            r@ == s@,
        decreases s@.len() - r@.len(),
    {
        match it.next() {
            Some(c) => {
                proof {
                    let k = r@.len() as int;
                    assert(s@.skip(k).drop_first() == s@.skip(k + 1));
                    assert(s@.take(k + 1) == s@.take(k).push(s@[k]));
                }
                r.push(c);
            },
            None => {
                assert(s@.take(s@.len() as int) == s@);
                break ;
            },
        }
    }
    r
}

/// A `String` holding exactly the characters `cs`.
pub fn string_of(cs: &[char]) -> (r: String)
    ensures
        r@ == cs@,
{
    let mut r = String::new();
    let mut i: usize = 0;
    while i < cs.len()
        invariant
            i <= cs@.len(),
            r@ == cs@.take(i as int),
        decreases cs@.len() - i,
    {
        proof {
            assert(cs@.take(i + 1) == cs@.take(i as int).push(cs@[i as int]));
        }
        push_char(&mut r, cs[i]);
        i = i + 1;
    }
    assert(cs@.take(cs@.len() as int) == cs@);
    r
}

/// Copy of a string.
pub fn copy_str(s: &str) -> (r: String)
    ensures
        r@ == s@,
{
    let cs = chars_of(s);
    string_of(cs.as_slice())
}

/// Character-wise equality of two strings.
pub fn str_eq(a: &str, b: &str) -> (r: bool)
    ensures
        r == (a@ == b@),
{
    let ca = chars_of(a);
    let cb = chars_of(b);
    chars_eq(ca.as_slice(), cb.as_slice())
}

/// Element-wise equality of two character slices.
pub fn chars_eq(a: &[char], b: &[char]) -> (r: bool)
    ensures
        r == (a@ == b@),
{
    if a.len() != b.len() {
        return false;
    }
    let mut i: usize = 0;
    while i < a.len()
        invariant
            a@.len() == b@.len(),
            i <= a@.len(),
            forall|j: int| 0 <= j < i ==> a@[j] == b@[j],
        decreases a@.len() - i,
    {
        if a[i] != b[i] {
            return false;
        }
        i = i + 1;
    }
    assert(a@ =~= b@);
    true
}

/// The Unicode `White_Space` property, which `char::is_whitespace` and
/// `str::trim` use.
pub open spec fn is_ws(c: char) -> bool {
    let u = c as u32;
    ||| (0x9 <= u && u <= 0xD)
    ||| u == 0x20
    ||| u == 0x85
    ||| u == 0xA0
    ||| u == 0x1680
    ||| (0x2000 <= u && u <= 0x200A)
    ||| u == 0x2028
    ||| u == 0x2029
    ||| u == 0x202F
    ||| u == 0x205F
    ||| u == 0x3000
}

/// Whether `c` is Unicode whitespace.
pub fn is_whitespace(c: char) -> (r: bool)
    ensures
        r == is_ws(c),
{
    let u = c as u32;
    (0x9 <= u && u <= 0xD) || u == 0x20 || u == 0x85 || u == 0xA0 || u == 0x1680 || (0x2000 <= u
        && u <= 0x200A) || u == 0x2028 || u == 0x2029 || u == 0x202F || u == 0x205F || u == 0x3000
}

/// `s` with leading whitespace removed.
pub open spec fn trim_start(s: Seq<char>) -> Seq<char>
    decreases s.len(),
{
    if s.len() > 0 && is_ws(s[0]) {
        trim_start(s.drop_first())
    } else {
        s
    }
}

/// `s` with trailing whitespace removed.
pub open spec fn trim_end(s: Seq<char>) -> Seq<char>
    decreases s.len(),
{
    if s.len() > 0 && is_ws(s.last()) {
        trim_end(s.drop_last())
    } else {
        s
    }
}

/// `s` with leading and trailing whitespace removed, as `str::trim` does.
pub open spec fn trim(s: Seq<char>) -> Seq<char> {
    trim_end(trim_start(s))
}

proof fn lemma_trim_start_skip(s: Seq<char>, i: int)
    requires
        0 <= i <= s.len(),
        forall|j: int| 0 <= j < i ==> is_ws(#[trigger] s[j]),
    ensures
        trim_start(s) == trim_start(s.skip(i)),
    decreases i,
{
    if i > 0 {
        assert(s.skip(1) == s.drop_first());
        lemma_trim_start_skip(s.drop_first(), i - 1);
        assert(s.drop_first().skip(i - 1) == s.skip(i));
    } else {
        assert(s.skip(0) == s);
    }
}

proof fn lemma_trim_end_take(s: Seq<char>, k: int)
    requires
        0 <= k <= s.len(),
        forall|j: int| k <= j < s.len() ==> is_ws(#[trigger] s[j]),
    ensures
        trim_end(s) == trim_end(s.take(k)),
    decreases s.len() - k,
{
    if k < s.len() {
        lemma_trim_end_take(s.drop_last(), k);
        assert(s.drop_last().take(k) == s.take(k));
    } else {
        assert(s.take(k) == s);
    }
}

/// Characters of `cs` with leading and trailing whitespace removed.
pub fn trim_chars(cs: &[char]) -> (r: Vec<char>)
    ensures
        r@ == trim(cs@),
{
    let n = cs.len();
    let mut i: usize = 0;
    while i < n && is_whitespace(cs[i])
        invariant
            n == cs@.len(),
            i <= n,
            forall|j: int| 0 <= j < i ==> is_ws(#[trigger] cs@[j]),
        decreases n - i,
    {
        i = i + 1;
    }
    proof {
        lemma_trim_start_skip(cs@, i as int);
    }
    let ghost rest = cs@.skip(i as int);
    assert(trim_start(rest) == rest);
    let mut k: usize = n;
    while k > i && is_whitespace(cs[k - 1])
        invariant
            n == cs@.len(),
            i <= k <= n,
            forall|j: int| k <= j < n ==> is_ws(#[trigger] cs@[j]),
        decreases k,
    {
        k = k - 1;
    }
    let ghost kk = (k - i) as int;
    proof {
        assert forall|j: int| kk <= j < rest.len() implies is_ws(#[trigger] rest[j]) by {
            assert(rest[j] == cs@[j + i]);
        }
        lemma_trim_end_take(rest, kk);
        assert(rest.take(kk) == cs@.subrange(i as int, k as int));
    }
    let mut r: Vec<char> = Vec::new();
    let mut p: usize = i;
    while p < k
        invariant
            n == cs@.len(),
            i <= p <= k <= n,
            r@ == cs@.subrange(i as int, p as int),
        decreases k - p,
    {
        r.push(cs[p]);
        p = p + 1;
    }
    proof {
        let sub = cs@.subrange(i as int, k as int);
        if sub.len() > 0 {
            assert(!is_ws(sub.last()));
            assert(!is_ws(rest[0]));
        }
    }
    r
}

/// `s` with every `from` replaced by `to`.
pub open spec fn replace_char(s: Seq<char>, from: char, to: char) -> Seq<char> {
    s.map_values(|c: char| if c == from { to } else { c })
}

/// Characters of `cs` with every `from` replaced by `to`.
pub fn replace_chars(cs: &[char], from: char, to: char) -> (r: Vec<char>)
    ensures
        r@ == replace_char(cs@, from, to),
{
    let mut r: Vec<char> = Vec::new();
    let mut i: usize = 0;
    while i < cs.len()
        invariant
            i <= cs@.len(),
            r@ == replace_char(cs@.take(i as int), from, to),
        decreases cs@.len() - i,
    {
        let c = cs[i];
        if c == from {
            r.push(to);
        } else {
            r.push(c);
        }
        proof {
            assert(cs@.take(i + 1) == cs@.take(i as int).push(cs@[i as int]));
            assert(replace_char(cs@.take(i + 1), from, to) =~= replace_char(
                cs@.take(i as int),
                from,
                to,
            ).push(if c == from { to } else { c }));
        }
        i = i + 1;
    }
    assert(cs@.take(cs@.len() as int) == cs@);
    r
}

/// Whether `c` is one of `'0'..='9'`.
pub open spec fn is_digit(c: char) -> bool {
    '0' <= c && c <= '9'
}

/// The numeric value of a decimal digit character.
pub open spec fn digit_value(c: char) -> int {
    (c as u32) - ('0' as u32)
}

/// The part of `s` after an optional leading `'+'`.
pub open spec fn unsigned_body(s: Seq<char>) -> Seq<char> {
    if s.len() > 0 && s[0] == '+' {
        s.drop_first()
    } else {
        s
    }
}

/// Why a string is not an unsigned integer, as `ParseIntError` reports it.
#[derive(Debug, PartialEq, Eq, Structural, Clone, Copy)]
pub enum IntErrorKind {
    Empty,
    InvalidDigit,
    PosOverflow,
}

/// Reading the first `n` characters of `b` as decimal digits, left to right,
/// stopping at the first character that is not a digit or at the first
/// overflow.
pub open spec fn scan_digits(b: Seq<char>, n: nat) -> Result<u64, IntErrorKind>
    decreases n,
{
    if n == 0 {
        Ok(0u64)
    } else {
        match scan_digits(b, (n - 1) as nat) {
            Err(k) => Err(k),
            Ok(v) => {
                let c = b[n - 1];
                if !is_digit(c) {
                    Err(IntErrorKind::InvalidDigit)
                } else if v * 10 + digit_value(c) > u64::MAX {
                    Err(IntErrorKind::PosOverflow)
                } else {
                    Ok((v * 10 + digit_value(c)) as u64)
                }
            },
        }
    }
}

/// What `u64::from_str` gives for `s`: an optional `'+'`, then one or more
/// decimal digits whose value fits in a `u64`.
pub open spec fn parse_u64_kind(s: Seq<char>) -> Result<u64, IntErrorKind> {
    if s.len() == 0 {
        Err(IntErrorKind::Empty)
    } else if unsigned_body(s).len() == 0 {
        Err(IntErrorKind::InvalidDigit)
    } else {
        scan_digits(unsigned_body(s), unsigned_body(s).len())
    }
}

/// The value `u64::from_str` gives for `s`, if any.
pub open spec fn parse_u64_spec(s: Seq<char>) -> Option<u64> {
    match parse_u64_kind(s) {
        Ok(v) => Some(v),
        Err(_) => None,
    }
}

/// Parses `cs` as `u64::from_str` does, reporting why it fails.
pub fn parse_u64_detailed(cs: &[char]) -> (r: Result<u64, IntErrorKind>)
    ensures
        r == parse_u64_kind(cs@),
{
    if cs.len() == 0 {
        return Err(IntErrorKind::Empty);
    }
    let mut start: usize = 0;
    if cs[0] == '+' {
        start = 1;
    }
    let ghost body = unsigned_body(cs@);
    assert(body == cs@.skip(start as int));
    if start >= cs.len() {
        return Err(IntErrorKind::InvalidDigit);
    }
    let mut value: u64 = 0;
    let mut i: usize = start;
    while i < cs.len()
        invariant
            start <= i <= cs@.len(),
            start < cs@.len(),
            body == cs@.skip(start as int),
            body == unsigned_body(cs@),
            scan_digits(body, (i - start) as nat) == Ok::<u64, IntErrorKind>(value),
        decreases cs@.len() - i,
    {
        let c = cs[i];
        let ghost k = (i - start) as int;
        assert(body[k] == c);
        proof {
            assert(scan_digits(body, (k + 1) as nat) == match scan_digits(body, k as nat) {
                Err(e) => Err(e),
                Ok(v) => if !is_digit(body[k]) {
                    Err(IntErrorKind::InvalidDigit)
                } else if v * 10 + digit_value(body[k]) > u64::MAX {
                    Err(IntErrorKind::PosOverflow)
                } else {
                    Ok((v * 10 + digit_value(body[k])) as u64)
                },
            });
        }
        if !('0' <= c && c <= '9') {
            proof {
                lemma_scan_sticks(body, (k + 1) as nat, body.len());
            }
            return Err(IntErrorKind::InvalidDigit);
        }
        let d = (c as u32 - '0' as u32) as u64;
        match value.checked_mul(10) {
            Some(v10) => match v10.checked_add(d) {
                Some(v) => {
                    value = v;
                },
                None => {
                    proof {
                        lemma_scan_sticks(body, (k + 1) as nat, body.len());
                    }
                    return Err(IntErrorKind::PosOverflow);
                },
            },
            None => {
                proof {
                    lemma_scan_sticks(body, (k + 1) as nat, body.len());
                }
                return Err(IntErrorKind::PosOverflow);
            },
        }
        i = i + 1;
    }
    Ok(value)
}

proof fn lemma_scan_sticks(b: Seq<char>, n: nat, m: nat)
    requires
        n <= m,
        scan_digits(b, n) is Err,
    ensures
        scan_digits(b, m) == scan_digits(b, n),
    decreases m - n,
{
    if n < m {
        lemma_scan_sticks(b, n, (m - 1) as nat);
    }
}

/// Parses `cs` as `u64::from_str` does.
pub fn parse_u64_chars(cs: &[char]) -> (r: Option<u64>)
    ensures
        r == parse_u64_spec(cs@),
{
    match parse_u64_detailed(cs) {
        Ok(v) => Some(v),
        Err(_) => None,
    }
}

/// The text `ParseIntError` shows for each kind.
pub open spec fn int_error_text(k: IntErrorKind) -> Seq<char> {
    match k {
        IntErrorKind::Empty => "cannot parse integer from empty string"@,
        IntErrorKind::InvalidDigit => "invalid digit found in string"@,
        IntErrorKind::PosOverflow => "number too large to fit in target type"@,
    }
}

/// Appends the text shown for a failed integer parse.
pub fn push_int_error_text(out: &mut Vec<char>, k: IntErrorKind)
    ensures
        final(out)@ == old(out)@ + int_error_text(k),
{
    match k {
        IntErrorKind::Empty => push_str_chars(out, "cannot parse integer from empty string"),
        IntErrorKind::InvalidDigit => push_str_chars(out, "invalid digit found in string"),
        IntErrorKind::PosOverflow => push_str_chars(out, "number too large to fit in target type"),
    }
}

/// The decimal digit character for `d < 10`.
pub open spec fn digit_char(d: int) -> char {
    (('0' as u32) + d) as char
}

/// Decimal rendering of `n`, as `u64::to_string` produces it.
pub open spec fn decimal(n: nat) -> Seq<char>
    decreases n,
{
    if n < 10 {
        seq![digit_char(n as int)]
    } else {
        decimal(n / 10).push(digit_char((n % 10) as int))
    }
}

fn digit_to_char(d: u64) -> (c: char)
    requires
        d < 10,
    ensures
        c == digit_char(d as int),
{
    let b: u8 = 48u8 + (d as u8);
    let c = b as char;
    assert(c == digit_char(d as int)) by {
        assert(b as u32 == 48 + d);
    }
    c
}

/// Appends the decimal rendering of `n` to `out`.
pub fn push_decimal(out: &mut Vec<char>, n: u64)
    ensures
        final(out)@ == old(out)@ + decimal(n as nat),
    decreases n,
{
    if n < 10 {
        out.push(digit_to_char(n));
        assert(old(out)@.push(digit_char(n as int)) =~= old(out)@ + decimal(n as nat));
    } else {
        push_decimal(out, n / 10);
        out.push(digit_to_char(n % 10));
        assert(decimal(n as nat) == decimal((n / 10) as nat).push(digit_char((n % 10) as int)));
        assert(out@ =~= old(out)@ + decimal(n as nat));
    }
}

/// ASCII lower-casing of one character, as a code point.
pub open spec fn ascii_lower(c: char) -> int {
    if 'A' <= c && c <= 'Z' {
        (c as u32) + 32
    } else {
        c as u32 as int
    }
}

/// Equality of two strings up to ASCII case, as `eq_ignore_ascii_case`.
pub open spec fn eq_ignore_ascii_case(a: Seq<char>, b: Seq<char>) -> bool {
    &&& a.len() == b.len()
    &&& forall|i: int| 0 <= i < a.len() ==> ascii_lower(#[trigger] a[i]) == ascii_lower(b[i])
}

fn lower_code(c: char) -> (r: u32)
    ensures
        r == ascii_lower(c),
{
    if 'A' <= c && c <= 'Z' {
        c as u32 + 32
    } else {
        c as u32
    }
}

/// Whether `a` and `b` are equal up to ASCII case.
pub fn chars_eq_ignore_ascii_case(a: &[char], b: &[char]) -> (r: bool)
    ensures
        r == eq_ignore_ascii_case(a@, b@),
{
    if a.len() != b.len() {
        return false;
    }
    let mut i: usize = 0;
    while i < a.len()
        invariant
            a@.len() == b@.len(),
            i <= a@.len(),
            forall|j: int| 0 <= j < i ==> ascii_lower(#[trigger] a@[j]) == ascii_lower(b@[j]),
        decreases a@.len() - i,
    {
        if lower_code(a[i]) != lower_code(b[i]) {
            return false;
        }
        i = i + 1;
    }
    true
}

/// Appends `s` to `out`.
pub fn push_str_chars(out: &mut Vec<char>, s: &str)
    ensures
        final(out)@ == old(out)@ + s@,
{
    let cs = chars_of(s);
    let mut i: usize = 0;
    while i < cs.len()
        invariant
            i <= cs@.len(),
            cs@ == s@,
            out@ == old(out)@ + s@.take(i as int),
        decreases cs@.len() - i,
    {
        proof {
            assert(s@.take(i + 1) == s@.take(i as int).push(s@[i as int]));
        }
        out.push(cs[i]);
        i = i + 1;
    }
    assert(s@.take(s@.len() as int) == s@);
}

/// Whether `i` is the first position of `c` in `s`.
pub open spec fn is_first(s: Seq<char>, c: char, i: int) -> bool {
    &&& 0 <= i < s.len()
    &&& s[i] == c
    &&& forall|j: int| 0 <= j < i ==> s[j] != c
}

/// `s` split around its first `c`, if it holds one.
pub open spec fn split_first_spec(s: Seq<char>, c: char) -> Option<(Seq<char>, Seq<char>)> {
    if exists|i: int| is_first(s, c, i) {
        let i = choose|i: int| is_first(s, c, i);
        Some((s.take(i), s.skip(i + 1)))
    } else {
        None
    }
}

proof fn lemma_first_unique(s: Seq<char>, c: char, i: int, j: int)
    requires
        is_first(s, c, i),
        is_first(s, c, j),
    ensures
        i == j,
{
    if i < j {
        assert(s[i] != c);
    }
    if j < i {
        assert(s[j] != c);
    }
}

fn copy_range(cs: &[char], lo: usize, hi: usize) -> (r: Vec<char>)
    requires
        lo <= hi <= cs@.len(),
    ensures
        r@ == cs@.subrange(lo as int, hi as int),
{
    let mut r: Vec<char> = Vec::new();
    let mut p = lo;
    while p < hi
        invariant
            lo <= p <= hi <= cs@.len(),
            r@ == cs@.subrange(lo as int, p as int),
        decreases hi - p,
    {
        r.push(cs[p]);
        p = p + 1;
    }
    r
}

/// `cs` split around its first `c`, if it holds one.
pub fn split_first(cs: &[char], c: char) -> (r: Option<(Vec<char>, Vec<char>)>)
    ensures
        match r {
            Some((a, b)) => split_first_spec(cs@, c) == Some((a@, b@)),
            None => split_first_spec(cs@, c) is None,
        },
{
    let mut i: usize = 0;
    while i < cs.len()
        invariant
            i <= cs@.len(),
            forall|j: int| 0 <= j < i ==> cs@[j] != c,
        decreases cs@.len() - i,
    {
        if cs[i] == c {
            proof {
                assert(is_first(cs@, c, i as int));
                let k = choose|k: int| is_first(cs@, c, k);
                lemma_first_unique(cs@, c, i as int, k);
            }
            let a = copy_range(cs, 0, i);
            let b = copy_range(cs, i + 1, cs.len());
            assert(a@ == cs@.take(i as int));
            assert(b@ == cs@.skip(i + 1));
            return Some((a, b));
        }
        i = i + 1;
    }
    None
}

/// The text `std::str::Utf8Error` shows for `bytes` (which are not UTF-8).
pub uninterp spec fn utf8_error_text(bytes: Seq<u8>) -> Seq<char>;

/// `std::str::from_utf8`, owned: the decoded text when `bytes` are valid
/// UTF-8, else the error's text.
#[verifier::external_body]
pub(crate) fn utf8_decode(bytes: &[u8]) -> (r: Result<String, String>)
    ensures
        r is Ok <==> vstd::utf8::valid_utf8(bytes@),
        r matches Ok(s) ==> s@ == vstd::utf8::decode_utf8(bytes@),
        r matches Err(e) ==> e@ == utf8_error_text(bytes@),
{
    std::str::from_utf8(bytes).map(|s| s.to_string()).map_err(|e| e.to_string())
}

/// Appends the characters of `s` to the string `out`.
pub fn append_str(out: &mut String, s: &str)
    ensures
        final(out)@ == old(out)@ + s@,
{
    let cs = chars_of(s);
    let mut i: usize = 0;
    while i < cs.len()
        invariant
            i <= cs@.len(),
            cs@ == s@,
            out@ == old(out)@ + s@.take(i as int),
        decreases cs@.len() - i,
    {
        proof {
            assert(s@.take(i + 1) == s@.take(i as int).push(s@[i as int]));
        }
        push_char(out, cs[i]);
        i = i + 1;
    }
    assert(s@.take(s@.len() as int) == s@);
}

proof fn lemma_scan_prefix(b: Seq<char>, c: Seq<char>, n: nat)
    requires
        n <= b.len(),
        b.len() <= c.len(),
        forall|i: int| 0 <= i < b.len() ==> b[i] == c[i],
    ensures
        scan_digits(c, n) == scan_digits(b, n),
    decreases n,
{
    if n > 0 {
        lemma_scan_prefix(b, c, (n - 1) as nat);
    }
}

/// A decimal rendering is one or more digits, the first of them no `'+'`.
pub proof fn lemma_decimal_digits(n: nat)
    ensures
        decimal(n).len() > 0,
        forall|i: int| 0 <= i < decimal(n).len() ==> is_digit(#[trigger] decimal(n)[i]),
    decreases n,
{
    if n >= 10 {
        lemma_decimal_digits(n / 10);
    }
}

/// Reading back the decimal rendering of a `u64` gives the number.
pub proof fn lemma_decimal_reads_back(n: u64)
    ensures
        parse_u64_kind(decimal(n as nat)) == Ok::<u64, IntErrorKind>(n),
    decreases n,
{
    lemma_decimal_digits(n as nat);
    lemma_scan_decimal(n);
    assert(decimal(n as nat)[0] != '+');
}

proof fn lemma_scan_decimal(n: u64)
    ensures
        scan_digits(decimal(n as nat), decimal(n as nat).len()) == Ok::<u64, IntErrorKind>(n),
    decreases n,
{
    let d = decimal(n as nat);
    if n < 10 {
        assert(d == seq![digit_char(n as int)]);
        assert(scan_digits(d, 0) == Ok::<u64, IntErrorKind>(0u64));
    } else {
        let q = (n / 10) as u64;
        let prev = decimal(q as nat);
        lemma_scan_decimal(q);
        assert(d == prev.push(digit_char((n % 10) as int)));
        lemma_scan_prefix(prev, d, prev.len());
        assert(digit_value(d[prev.len() as int]) == n % 10);
        assert(q * 10 + n % 10 == n);
    }
}

/// Splitting at the first `c`, when it is at `i`.
pub proof fn lemma_split_first_at(s: Seq<char>, c: char, i: int)
    requires
        is_first(s, c, i),
    ensures
        split_first_spec(s, c) == Some((s.take(i), s.skip(i + 1))),
{
    let j = choose|j: int| is_first(s, c, j);
    lemma_first_unique(s, c, i, j);
}

} // verus!
