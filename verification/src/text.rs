//! Byte and character helpers shared by the log parsers.
//!
//! Log files are handled as bytes. Searching and comparing is done on the
//! UTF-8 encoding, which orders and matches strings exactly as their
//! characters do.

use vstd::prelude::*;
use vstd::utf8::*;

verus! {

/// `pat` occurs in `hay` starting at byte offset `at`.
pub open spec fn occurs_at(pat: Seq<u8>, hay: Seq<u8>, at: int) -> bool {
    &&& 0 <= at
    &&& at + pat.len() <= hay.len()
    &&& hay.subrange(at, at + pat.len()) == pat
}

/// `pat` occurs somewhere in `hay` as a contiguous run of bytes.
pub open spec fn is_infix(pat: Seq<u8>, hay: Seq<u8>) -> bool {
    exists|at: int| occurs_at(pat, hay, at)
}

/// `pre` is a prefix of `s`.
pub open spec fn is_prefix(pre: Seq<u8>, s: Seq<u8>) -> bool {
    pre.len() <= s.len() && s.subrange(0, pre.len() as int) == pre
}

/// One string contains another when its encoding contains the other's.
pub open spec fn text_contains(hay: Seq<char>, needle: Seq<char>) -> bool {
    is_infix(encode_utf8(needle), encode_utf8(hay))
}

/// Lexicographic order on byte strings: `a` sorts at or before `b`.
pub open spec fn bytes_le(a: Seq<u8>, b: Seq<u8>) -> bool
    decreases a.len(),
{
    if a.len() == 0 {
        true
    } else if b.len() == 0 {
        false
    } else if a[0] != b[0] {
        a[0] < b[0]
    } else {
        bytes_le(a.drop_first(), b.drop_first())
    }
}

pub proof fn lemma_bytes_le_total(a: Seq<u8>, b: Seq<u8>)
    ensures
        bytes_le(a, b) || bytes_le(b, a),
    decreases a.len(),
{
    if a.len() > 0 && b.len() > 0 && a[0] == b[0] {
        lemma_bytes_le_total(a.drop_first(), b.drop_first());
    }
}

pub proof fn lemma_bytes_le_transitive(a: Seq<u8>, b: Seq<u8>, c: Seq<u8>)
    requires
        bytes_le(a, b),
        bytes_le(b, c),
    ensures
        bytes_le(a, c),
    decreases a.len(),
{
    if a.len() > 0 && b.len() > 0 && c.len() > 0 && a[0] == b[0] && b[0] == c[0] {
        lemma_bytes_le_transitive(a.drop_first(), b.drop_first(), c.drop_first());
    }
}

/// Two strings with the same encoding are the same string.
pub proof fn lemma_encoding_injective(a: Seq<char>, b: Seq<char>)
    requires
        encode_utf8(a) == encode_utf8(b),
    ensures
        a == b,
{
    encode_utf8_decode_utf8(a);
    encode_utf8_decode_utf8(b);
}

/// Do the bytes of `hay` from `at` on start with `pat`?
pub fn matches_at(hay: &[u8], pat: &[u8], at: usize) -> (r: bool)
    requires
        at + pat.len() <= hay.len(),
    ensures
        r == occurs_at(pat@, hay@, at as int),
{
    let m = pat.len();
    let mut k: usize = 0;
    while k < m
        invariant
            m == pat.len(),
            at + m <= hay.len(),
            k <= m,
            forall|j: int| 0 <= j < k ==> hay@[at + j] == pat@[j],
        decreases m - k,
    {
        if hay[at + k] != pat[k] {
            proof {
                let window = hay@.subrange(at as int, at + m);
                assert(window[k as int] == hay@[at + k]);
            }
            return false;
        }
        k += 1;
    }
    assert(hay@.subrange(at as int, at + m) =~= pat@);
    true
}

/// Does `pat` occur in `hay`?
pub fn contains_bytes(hay: &[u8], pat: &[u8]) -> (r: bool)
    ensures
        r == is_infix(pat@, hay@),
{
    let n = hay.len();
    let m = pat.len();
    if m > n {
        return false;
    }
    let last = n - m;
    let mut at: usize = 0;
    loop
        invariant
            n == hay.len(),
            m == pat.len(),
            m <= n,
            last == n - m,
            at <= last,
            forall|j: int| 0 <= j < at ==> !occurs_at(pat@, hay@, j),
        decreases last - at,
    {
        if matches_at(hay, pat, at) {
            return true;
        }
        if at == last {
            return false;
        }
        at += 1;
    }
}

/// Does `s` start with `pre`?
pub fn starts_with_bytes(s: &[u8], pre: &[u8]) -> (r: bool)
    ensures
        r == is_prefix(pre@, s@),
{
    if pre.len() > s.len() {
        return false;
    }
    matches_at(s, pre, 0)
}

/// Are the two byte strings equal?
pub fn bytes_eq(a: &[u8], b: &[u8]) -> (r: bool)
    ensures
        r == (a@ == b@),
{
    if a.len() != b.len() {
        return false;
    }
    let r = matches_at(a, b, 0);
    proof {
        assert(a@.subrange(0, a@.len() as int) =~= a@);
    }
    r
}

/// Are the two strings equal?
pub fn str_eq(a: &str, b: &str) -> (r: bool)
    ensures
        r == (a@ == b@),
{
    let r = bytes_eq(a.as_bytes(), b.as_bytes());
    proof {
        if r {
            lemma_encoding_injective(a@, b@);
        }
    }
    r
}

/// Does `a` sort at or before `b`, byte by byte?
pub fn bytes_at_most(a: &[u8], b: &[u8]) -> (r: bool)
    ensures
        r == bytes_le(a@, b@),
{
    let n = a.len();
    let m = b.len();
    let mut k: usize = 0;
    proof {
        assert(a@.skip(0) =~= a@);
        assert(b@.skip(0) =~= b@);
    }
    while k < n && k < m
        invariant
            n == a.len(),
            m == b.len(),
            k <= n,
            k <= m,
            bytes_le(a@, b@) == bytes_le(a@.skip(k as int), b@.skip(k as int)),
        decreases n - k,
    {
        let x = a[k];
        let y = b[k];
        proof {
            let ra = a@.skip(k as int);
            let rb = b@.skip(k as int);
            assert(ra[0] == x && rb[0] == y);
            assert(ra.drop_first() =~= a@.skip(k + 1));
            assert(rb.drop_first() =~= b@.skip(k + 1));
        }
        if x != y {
            return x < y;
        }
        k += 1;
    }
    proof {
        assert(a@.skip(k as int).len() == n - k);
        assert(b@.skip(k as int).len() == m - k);
    }
    k == n
}

/// Does the string `s` contain the string `needle`?
pub fn str_contains(s: &str, needle: &str) -> (r: bool)
    ensures
        r == text_contains(s@, needle@),
{
    contains_bytes(s.as_bytes(), needle.as_bytes())
}

/// The text that a run of bytes encodes, if it is well-formed UTF-8.
pub open spec fn text_of_bytes(bytes: Seq<u8>) -> Option<Seq<char>> {
    if valid_utf8(bytes) {
        Some(decode_utf8(bytes))
    } else {
        None
    }
}

/// Decodes bytes as UTF-8 with `std::str::from_utf8`: the call succeeds
/// exactly on well-formed UTF-8 and then yields the encoded characters.
#[verifier::external_body]
pub(crate) fn decode_text(bytes: &[u8]) -> (r: Option<&str>)
    ensures
        r is Some <==> valid_utf8(bytes@),
        r is Some ==> r.unwrap()@ == decode_utf8(bytes@),
{
    std::str::from_utf8(bytes).ok()
}

/// The lowercase form of a string, as `str::to_lowercase` gives it.
pub uninterp spec fn lowercase_text(text: Seq<char>) -> Seq<char>;

/// Lowercases a string with `str::to_lowercase`, which follows the Unicode
/// lowercase mapping; the result is named, not spelled out.
#[verifier::external_body]
pub(crate) fn to_lowercase(text: &str) -> (r: String)
    ensures
        r@ == lowercase_text(text@),
{
    text.to_lowercase()
}

/// The uppercase form of a string, as `str::to_uppercase` gives it.
pub uninterp spec fn uppercase_text(text: Seq<char>) -> Seq<char>;

/// Uppercases a string with `str::to_uppercase`, which follows the Unicode
/// uppercase mapping; the result is named, not spelled out.
#[verifier::external_body]
pub(crate) fn to_uppercase(text: &str) -> (r: String)
    ensures
        r@ == uppercase_text(text@),
{
    text.to_uppercase()
}

/// Appends one character with `String::push`.
#[verifier::external_body]
pub(crate) fn push_char(s: &mut String, c: char)
    ensures
        final(s)@ == old(s)@.push(c),
{
    s.push(c)
}

/// The characters of a string.
pub fn chars_of(s: &str) -> (r: Vec<char>)
    ensures
        r@ == s@,
{
    let mut out: Vec<char> = Vec::new();
    for c in it: s.chars()
        invariant
            out@ == it.seq().take(it.index() as int),
            it.seq() == s@,
    {
        proof {
            assert(it.seq().take(it.index() + 1).drop_last() =~= it.seq().take(it.index() as int));
        }
        out.push(c);
        proof {
            assert(out@ =~= it.seq().take(it.index() + 1));
        }
    }
    proof {
        assert(out@ =~= s@);
    }
    out
}

/// The string made of the given characters.
pub fn string_of(chars: &Vec<char>) -> (r: String)
    ensures
        r@ == chars@,
{
    let mut out = String::new();
    let mut k: usize = 0;
    while k < chars.len()
        invariant
            k <= chars.len(),
            out@ == chars@.take(k as int),
        decreases chars.len() - k,
    {
        push_char(&mut out, chars[k]);
        k += 1;
        proof {
            assert(out@ =~= chars@.take(k as int));
        }
    }
    proof {
        assert(chars@.take(chars.len() as int) =~= chars@);
    }
    out
}

/// A string with every `from` turned into `to`.
pub open spec fn replace_char(s: Seq<char>, from: char, to: char) -> Seq<char> {
    s.map_values(|c: char| if c == from { to } else { c })
}

/// Turns every `from` in `chars` into `to`.
pub fn replace_in(chars: &mut Vec<char>, from: char, to: char)
    ensures
        final(chars)@ == replace_char(old(chars)@, from, to),
{
    let n = chars.len();
    let mut k: usize = 0;
    while k < n
        invariant
            n == chars.len(),
            n == old(chars).len(),
            k <= n,
            forall|j: int| 0 <= j < k ==> chars@[j] == replace_char(old(chars)@, from, to)[j],
            forall|j: int| k <= j < n ==> chars@[j] == old(chars)@[j],
        decreases n - k,
    {
        if chars[k] == from {
            chars[k] = to;
        }
        k += 1;
    }
    proof {
        assert(chars@ =~= replace_char(old(chars)@, from, to));
    }
}

/// `s` begins with `pat`.
pub open spec fn starts_with(s: Seq<char>, pat: Seq<char>) -> bool {
    pat.len() <= s.len() && s.subrange(0, pat.len() as int) == pat
}

/// A string without the occurrences of a pattern that is not empty, found
/// from left to right.
pub open spec fn without_pattern(s: Seq<char>, pat: Seq<char>) -> Seq<char>
    decreases s.len(),
{
    if pat.len() == 0 || s.len() == 0 {
        s
    } else if starts_with(s, pat) {
        without_pattern(s.skip(pat.len() as int), pat)
    } else {
        seq![s[0]] + without_pattern(s.drop_first(), pat)
    }
}

/// Do the characters of `s` from `at` on begin with `pat`?
pub fn chars_match_at(s: &Vec<char>, pat: &Vec<char>, at: usize) -> (r: bool)
    requires
        at <= s.len(),
    ensures
        r == starts_with(s@.skip(at as int), pat@),
{
    let m = pat.len();
    if m > s.len() - at {
        return false;
    }
    let mut k: usize = 0;
    while k < m
        invariant
            m == pat.len(),
            at + m <= s.len(),
            k <= m,
            forall|j: int| 0 <= j < k ==> s@[at + j] == pat@[j],
        decreases m - k,
    {
        if s[at + k] != pat[k] {
            proof {
                let window = s@.skip(at as int).subrange(0, m as int);
                assert(window[k as int] == s@[at + k]);
            }
            return false;
        }
        k += 1;
    }
    proof {
        assert(s@.skip(at as int).subrange(0, m as int) =~= pat@);
    }
    true
}

/// Removes every occurrence of `pat` from `s`.
pub fn remove_all(s: &str, pat: &str) -> (r: String)
    ensures
        r@ == without_pattern(s@, pat@),
{
    let chars = chars_of(s);
    let pattern = chars_of(pat);
    if pattern.len() == 0 {
        return string_of(&chars);
    }
    let n = chars.len();
    let m = pattern.len();
    let mut out: Vec<char> = Vec::new();
    let mut at: usize = 0;
    proof {
        assert(chars@.skip(0) =~= chars@);
        assert(out@ + without_pattern(chars@, pattern@) =~= without_pattern(chars@, pattern@));
    }
    while at < n
        invariant
            n == chars.len(),
            m == pattern.len(),
            m > 0,
            at <= n,
            without_pattern(chars@, pattern@) == out@ + without_pattern(
                chars@.skip(at as int),
                pattern@,
            ),
        decreases n - at,
    {
        let ghost rest = chars@.skip(at as int);
        if chars_match_at(&chars, &pattern, at) {
            proof {
                assert(rest.skip(m as int) =~= chars@.skip(at + m));
            }
            at = at + m;
        } else {
            let c = chars[at];
            proof {
                assert(rest[0] == c);
                assert(rest.drop_first() =~= chars@.skip(at + 1));
                assert(out@ + (seq![c] + without_pattern(chars@.skip(at + 1), pattern@))
                    =~= out@.push(c) + without_pattern(chars@.skip(at + 1), pattern@));
            }
            out.push(c);
            at = at + 1;
        }
    }
    proof {
        assert(chars@.skip(at as int).len() == 0);
        assert(out@ + without_pattern(chars@.skip(at as int), pattern@) =~= out@);
    }
    string_of(&out)
}

/// The lower-case form of an upper-case ASCII letter; any other character
/// as it is.
pub open spec fn ascii_lower(c: char) -> char {
    if 'A' <= c && c <= 'Z' {
        ((c as u8) + 32) as char
    } else {
        c
    }
}

/// The lower-case form of an ASCII letter.
pub fn to_ascii_lower(c: char) -> (r: char)
    ensures
        r == ascii_lower(c),
{
    if c >= 'A' && c <= 'Z' {
        ((c as u8) + 32) as char
    } else {
        c
    }
}

/// The upper-case form of a lower-case ASCII letter; any other character
/// as it is.
pub open spec fn ascii_upper(c: char) -> char {
    if 'a' <= c && c <= 'z' {
        ((c as u8) - 32) as char
    } else {
        c
    }
}

/// The upper-case form of an ASCII letter.
pub fn to_ascii_upper(c: char) -> (r: char)
    ensures
        r == ascii_upper(c),
{
    if c >= 'a' && c <= 'z' {
        ((c as u8) - 32) as char
    } else {
        c
    }
}

/// Is the optional string the given one?
pub fn kind_is(kind: Option<&str>, name: &str) -> (r: bool)
    ensures
        r == match kind {
            Some(k) => k@ == name@,
            None => false,
        },
{
    match kind {
        Some(k) => str_eq(k, name),
        None => false,
    }
}

/// The character of a decimal digit.
pub open spec fn digit_char(d: nat) -> char {
    (48 + d) as char
}

/// A number in decimal notation.
pub open spec fn decimal(n: nat) -> Seq<char>
    decreases n,
{
    if n < 10 {
        seq![digit_char(n)]
    } else {
        decimal(n / 10).push(digit_char(n % 10))
    }
}

/// Writes a number in decimal notation.
pub fn to_decimal(n: u64) -> (r: String)
    ensures
        r@ == decimal(n as nat),
{
    // The digits, the least significant first.
    let mut digits: Vec<char> = Vec::new();
    let mut m: u64 = n;
    proof {
        assert(decimal(m as nat) + digits@.reverse() =~= decimal(n as nat));
    }
    while m >= 10
        invariant
            decimal(n as nat) == decimal(m as nat) + digits@.reverse(),
        decreases m,
    {
        let d: u8 = (m % 10) as u8;
        let c = (48u8 + d) as char;
        proof {
            assert(c == digit_char((m % 10) as nat));
            assert(digits@.push(c).reverse() =~= seq![c] + digits@.reverse());
            assert(decimal((m / 10) as nat) + (seq![c] + digits@.reverse()) =~= decimal(
                (m / 10) as nat,
            ).push(c) + digits@.reverse());
        }
        digits.push(c);
        m = m / 10;
    }
    let c = (48u8 + (m as u8)) as char;
    proof {
        assert(c == digit_char(m as nat));
    }
    let mut out: Vec<char> = Vec::new();
    out.push(c);
    let mut k: usize = digits.len();
    proof {
        assert(digits@.skip(k as int) =~= Seq::<char>::empty());
        assert(out@ =~= seq![c] + digits@.skip(k as int).reverse());
    }
    while k > 0
        invariant
            k <= digits.len(),
            out@ == seq![c] + digits@.skip(k as int).reverse(),
        decreases k,
    {
        k = k - 1;
        proof {
            assert(digits@.skip(k as int).reverse() =~= digits@.skip(k + 1).reverse().push(
                digits@[k as int],
            ));
        }
        out.push(digits[k]);
    }
    proof {
        assert(digits@.skip(0) =~= digits@);
    }
    string_of(&out)
}

/// The value of a decimal digit.
pub open spec fn digit_value(c: char) -> Option<int> {
    if '0' <= c && c <= '9' {
        Some(c as int - 48)
    } else {
        None
    }
}

/// The number that a run of decimal digits writes, 0 for an empty run;
/// nothing where a character is no digit.
pub open spec fn run_value(s: Seq<char>) -> Option<int>
    decreases s.len(),
{
    if s.len() == 0 {
        Some(0)
    } else {
        match (run_value(s.drop_last()), digit_value(s.last())) {
            (Some(v), Some(d)) => Some(10 * v + d),
            _ => None,
        }
    }
}

/// The integer that a text writes in decimal notation: digits, at least
/// one, after an optional sign.
pub open spec fn integer_of(s: Seq<char>) -> Option<int> {
    let signed = s.len() > 0 && (s[0] == '-' || s[0] == '+');
    let digits = if signed {
        s.skip(1)
    } else {
        s
    };
    if digits.len() == 0 {
        None
    } else {
        match run_value(digits) {
            Some(v) => if signed && s[0] == '-' {
                Some(-v)
            } else {
                Some(v)
            },
            None => None,
        }
    }
}

/// The integer that a text writes, where it fits 64 bits.
pub open spec fn i64_of(s: Seq<char>) -> Option<i64> {
    match integer_of(s) {
        Some(v) => if i64::MIN <= v <= i64::MAX {
            Some(v as i64)
        } else {
            None
        },
        None => None,
    }
}

/// A run of digits writes no less than any of its beginnings.
pub proof fn lemma_run_value_grows(s: Seq<char>, k: int)
    requires
        0 <= k <= s.len(),
    ensures
        match run_value(s) {
            Some(v) => run_value(s.take(k)) is Some && 0 <= run_value(s.take(k))->0 <= v,
            None => true,
        },
    decreases s.len(),
{
    if k == s.len() {
        assert(s.take(k) =~= s);
        if s.len() > 0 {
            lemma_run_value_grows(s.drop_last(), s.len() - 1);
            assert(s.drop_last().take(s.len() - 1) =~= s.drop_last());
        }
    } else {
        lemma_run_value_grows(s.drop_last(), k);
        assert(s.drop_last().take(k) =~= s.take(k));
    }
}

/// Reads an integer in decimal notation: digits, at least one, after an
/// optional sign. Nothing where the text is not of that form or the number
/// does not fit 64 bits.
pub fn parse_i64(text: &str) -> (r: Option<i64>)
    ensures
        r == i64_of(text@),
{
    let chars = chars_of(text);
    let n = chars.len();
    let negative = n > 0 && chars[0] == '-';
    let start: usize = if n > 0 && (chars[0] == '-' || chars[0] == '+') {
        1
    } else {
        0
    };
    if start == n {
        return None;
    }
    let ghost digits = chars@.skip(start as int);
    // The most that a number may be: 2^63, which only a negative one reaches.
    let limit: i128 = 9223372036854775808;
    let mut acc: i128 = 0;
    let mut k: usize = start;
    proof {
        assert(digits.take(0) =~= Seq::<char>::empty());
        assert(chars@.skip(0) =~= chars@);
    }
    while k < n
        invariant
            start <= k <= n,
            start < n,
            n == chars.len(),
            chars@ == text@,
            negative == (text@[0] == '-'),
            digits == if text@[0] == '-' || text@[0] == '+' {
                text@.skip(1)
            } else {
                text@
            },
            digits.len() == n - start,
            limit == 9223372036854775808,
            0 <= acc <= limit,
            run_value(digits.take(k - start)) == Some(acc as int),
        decreases n - k,
    {
        let c = chars[k];
        proof {
            assert(digits.take(k - start + 1).drop_last() =~= digits.take(k - start));
            assert(digits.take(k - start + 1).last() == c);
        }
        if c < '0' || c > '9' {
            proof {
                lemma_run_value_grows(digits, k - start + 1);
            }
            return None;
        }
        let d: i128 = ((c as u8) - 48) as i128;
        acc = acc * 10 + d;
        proof {
            assert(digit_value(c) == Some(d as int));
            assert(run_value(digits.take(k - start + 1)) == Some(acc as int));
        }
        if acc > limit {
            proof {
                lemma_run_value_grows(digits, k - start + 1);
            }
            return None;
        }
        k += 1;
    }
    proof {
        assert(digits.take(n - start) =~= digits);
    }
    if negative {
        Some((-acc) as i64)
    } else if acc == limit {
        None
    } else {
        Some(acc as i64)
    }
}

} // verus!
