//! Character-level string helpers shared by the parsers, and the trusted
//! items for the few std string conversions that vstd leaves unspecified.

use vstd::prelude::*;

verus! {

/// What `String::from_utf8_lossy` makes of a byte sequence.
pub uninterp spec fn utf8_lossy(bytes: Seq<u8>) -> Seq<char>;

/// What `str::to_lowercase` makes of a string (Unicode lowercase mapping).
pub uninterp spec fn unicode_lowercase(s: Seq<char>) -> Seq<char>;

/// Trusted: calls `String::from_utf8_lossy` and takes the owned string.
/// Claimed: the result is `utf8_lossy` of the bytes, and for valid UTF-8 input
/// it is exactly the decoded text (std documents that valid input is returned
/// unchanged). How invalid sequences are replaced is left to the name.
#[verifier::external_body]
pub(crate) fn lossy_string(bytes: &[u8]) -> (s: String)
    ensures
        s@ == utf8_lossy(bytes@),
        vstd::utf8::valid_utf8(bytes@) ==> s@ == vstd::utf8::decode_utf8(bytes@),
{
    String::from_utf8_lossy(bytes).into_owned()
}

/// Every character of `s` is ASCII.
pub open spec fn all_ascii(s: Seq<char>) -> bool {
    forall|i: int| 0 <= i < s.len() ==> (#[trigger] s[i] as u32) < 0x80
}

/// Trusted: calls `str::to_lowercase`.
/// Claimed: the result is `unicode_lowercase` of the input, and on an
/// all-ASCII input it maps 'A'..='Z' to 'a'..='z' and keeps every other
/// character (the Unicode lowercase mapping of ASCII characters, which std
/// documents for `char::to_lowercase`); the mapping of other characters is
/// left to the name.
#[verifier::external_body]
pub(crate) fn to_lowercase(s: &str) -> (r: String)
    ensures
        r@ == unicode_lowercase(s@),
        all_ascii(s@) ==> r@ == s@.map_values(|c: char| ascii_lower(c)),
{
    s.to_lowercase()
}

/// The text of the first capture group in each successive non-overlapping
/// match of regular expression `pattern` in `text` (empty when the group
/// takes no part in a match); `None` when the pattern does not compile.
pub uninterp spec fn regex_group1(pattern: Seq<char>, text: Seq<char>) -> Option<Seq<Seq<char>>>;

/// Trusted: compiles `pattern` with `regex::Regex::new` and collects the
/// first group of each match of `Regex::captures_iter` over `text`.
/// Claimed: the result is `regex_group1(pattern, text)` (the matching itself
/// is left to the name); a pattern that fails to compile gives `None`.
#[verifier::external_body]
pub(crate) fn regex_captures(pattern: &str, text: &str) -> (r: Option<Vec<String>>)
    ensures
        match r {
            Some(v) => regex_group1(pattern@, text@) == Some(crate::melon_dll::strings_view(v@)),
            None => regex_group1(pattern@, text@) is None,
        },
{
    match regex::Regex::new(pattern) {
        Ok(re) => Some(re.captures_iter(text).map(|c| c.get(1).map_or(String::new(), |g| g.as_str().to_string())).collect()),
        Err(_) => None,
    }
}

/// What `str::to_uppercase` makes of a string (Unicode uppercase mapping).
pub uninterp spec fn unicode_uppercase(s: Seq<char>) -> Seq<char>;

/// ASCII uppercase of one character; other characters are unchanged.
pub open spec fn ascii_upper(c: char) -> char {
    if 'a' <= c <= 'z' {
        ((c as u32) - 32) as char
    } else {
        c
    }
}

/// Trusted: calls `str::to_uppercase`.
/// Claimed: the result is `unicode_uppercase` of the input, and on an
/// all-ASCII input it maps 'a'..='z' to 'A'..='Z' and keeps every other
/// character; the mapping of other characters is left to the name.
#[verifier::external_body]
pub(crate) fn to_uppercase(s: &str) -> (r: String)
    ensures
        r@ == unicode_uppercase(s@),
        all_ascii(s@) ==> r@ == s@.map_values(|c: char| ascii_upper(c)),
{
    s.to_uppercase()
}

/// Trusted: builds a `String` from characters with `String::from_iter`.
/// Claimed: the string holds exactly those characters, in order.
#[verifier::external_body]
pub(crate) fn string_from_chars(cs: &[char]) -> (s: String)
    ensures
        s@ == cs@,
{
    cs.iter().collect::<String>()
}

/// The characters of `s`, in order.
pub fn chars_of(s: &str) -> (v: Vec<char>)
    ensures
        v@ == s@,
{
    broadcast use vstd::string::group_string_axioms;

    let mut v: Vec<char> = Vec::new();
    for c in it: s.chars()
        invariant
            v@ == it.seq().take(it.index() as int),
            it.seq() == s@,
    {
        v.push(c);
    }
    v
}

/// Whether two strings hold the same characters.
pub fn str_eq(a: &str, b: &str) -> (r: bool)
    ensures
        r == (a@ == b@),
{
    let x = chars_of(a);
    let y = chars_of(b);
    if x.len() != y.len() {
        return false;
    }
    let mut i: usize = 0;
    while i < x.len()
        invariant
            x@ == a@,
            y@ == b@,
            x.len() == y.len(),
            i <= x.len(),
            forall|j: int| 0 <= j < i ==> x@[j] == y@[j],
        decreases x.len() - i,
    {
        if x[i] != y[i] {
            return false;
        }
        i = i + 1;
    }
    assert(x@ =~= y@);
    true
}

/// Whether `s` begins with `p`.
pub open spec fn starts_with(s: Seq<char>, p: Seq<char>) -> bool {
    p.len() <= s.len() && s.subrange(0, p.len() as int) == p
}

/// Whether `p` occurs in `s` at position `i`.
pub open spec fn occurs_at<T>(s: Seq<T>, p: Seq<T>, i: int) -> bool {
    0 <= i && i + p.len() <= s.len() && s.subrange(i, i + p.len()) == p
}

/// Whether `p` occurs anywhere in `s`.
pub open spec fn contains_seq<T>(s: Seq<T>, p: Seq<T>) -> bool {
    exists|i: int| occurs_at(s, p, i)
}

/// Whether the byte string `p` occurs in `s` at position `i`.
pub fn bytes_match_at(s: &[u8], p: &[u8], i: usize) -> (r: bool)
    ensures
        r == occurs_at(s@, p@, i as int),
{
    if i > s.len() || s.len() - i < p.len() {
        return false;
    }
    let mut k: usize = 0;
    while k < p.len()
        invariant
            i + p.len() <= s.len(),
            k <= p.len(),
            forall|j: int| 0 <= j < k ==> s@[i + j] == p@[j],
        decreases p.len() - k,
    {
        if s[i + k] != p[k] {
            assert(s@.subrange(i as int, i + p.len())[k as int] != p@[k as int]);
            return false;
        }
        k = k + 1;
    }
    assert(s@.subrange(i as int, i + p.len()) =~= p@);
    true
}

/// Whether the character string `p` occurs in `s` at position `i`.
pub fn chars_match_at(s: &[char], p: &[char], i: usize) -> (r: bool)
    ensures
        r == occurs_at(s@, p@, i as int),
{
    if i > s.len() || s.len() - i < p.len() {
        return false;
    }
    let mut k: usize = 0;
    while k < p.len()
        invariant
            i + p.len() <= s.len(),
            k <= p.len(),
            forall|j: int| 0 <= j < k ==> s@[i + j] == p@[j],
        decreases p.len() - k,
    {
        if s[i + k] != p[k] {
            assert(s@.subrange(i as int, i + p.len())[k as int] != p@[k as int]);
            return false;
        }
        k = k + 1;
    }
    assert(s@.subrange(i as int, i + p.len()) =~= p@);
    true
}

/// Whether the byte string `p` occurs anywhere in `s`.
pub fn bytes_contain(s: &[u8], p: &[u8]) -> (r: bool)
    ensures
        r == contains_seq(s@, p@),
{
    if p.len() > s.len() {
        return false;
    }
    let last = s.len() - p.len();
    let mut i: usize = 0;
    loop
        invariant
            p.len() <= s.len(),
            last == s.len() - p.len(),
            i <= last,
            forall|j: int| 0 <= j < i ==> !occurs_at(s@, p@, j),
        ensures
            forall|j: int| 0 <= j <= last ==> !occurs_at(s@, p@, j),
        decreases last - i,
    {
        if bytes_match_at(s, p, i) {
            return true;
        }
        if i == last {
            break;
        }
        i = i + 1;
    }
    assert forall|j: int| !occurs_at(s@, p@, j) by {
        if occurs_at(s@, p@, j) && j > last {
            assert(false);
        }
    }
    false
}

/// Whether the character string `p` occurs anywhere in `s`.
pub fn chars_contain(s: &[char], p: &[char]) -> (r: bool)
    ensures
        r == contains_seq(s@, p@),
{
    if p.len() > s.len() {
        return false;
    }
    let last = s.len() - p.len();
    let mut i: usize = 0;
    loop
        invariant
            p.len() <= s.len(),
            last == s.len() - p.len(),
            i <= last,
            forall|j: int| 0 <= j < i ==> !occurs_at(s@, p@, j),
        ensures
            forall|j: int| 0 <= j <= last ==> !occurs_at(s@, p@, j),
        decreases last - i,
    {
        if chars_match_at(s, p, i) {
            return true;
        }
        if i == last {
            break;
        }
        i = i + 1;
    }
    assert forall|j: int| !occurs_at(s@, p@, j) by {
        if occurs_at(s@, p@, j) && j > last {
            assert(false);
        }
    }
    false
}

} // verus!

verus! {

/// Unicode `White_Space` characters (what `char::is_whitespace` accepts).
pub open spec fn is_whitespace(c: char) -> bool {
    ('\u{9}' <= c <= '\u{d}') || c == ' ' || c == '\u{85}' || c == '\u{a0}' || c == '\u{1680}'
        || ('\u{2000}' <= c <= '\u{200a}') || c == '\u{2028}' || c == '\u{2029}' || c == '\u{202f}'
        || c == '\u{205f}' || c == '\u{3000}'
}

/// Whether `c` is a Unicode `White_Space` character.
pub fn char_is_whitespace(c: char) -> (r: bool)
    ensures
        r == is_whitespace(c),
{
    ('\u{9}' <= c && c <= '\u{d}') || c == ' ' || c == '\u{85}' || c == '\u{a0}' || c == '\u{1680}'
        || ('\u{2000}' <= c && c <= '\u{200a}') || c == '\u{2028}' || c == '\u{2029}' || c == '\u{202f}'
        || c == '\u{205f}' || c == '\u{3000}'
}

/// `s` without its leading whitespace.
pub open spec fn trim_start(s: Seq<char>) -> Seq<char>
    decreases s.len(),
{
    if s.len() > 0 && is_whitespace(s[0]) {
        trim_start(s.drop_first())
    } else {
        s
    }
}

/// `s` without its trailing whitespace.
pub open spec fn trim_end(s: Seq<char>) -> Seq<char>
    decreases s.len(),
{
    if s.len() > 0 && is_whitespace(s.last()) {
        trim_end(s.drop_last())
    } else {
        s
    }
}

/// `s` without leading and trailing whitespace (what `str::trim` gives).
pub open spec fn trim(s: Seq<char>) -> Seq<char> {
    trim_end(trim_start(s))
}

/// `s` without any of its leading copies of `c` (what `trim_start_matches(c)` gives).
pub open spec fn strip_leading(s: Seq<char>, c: char) -> Seq<char>
    decreases s.len(),
{
    if s.len() > 0 && s[0] == c {
        strip_leading(s.drop_first(), c)
    } else {
        s
    }
}

/// The characters of `s` from `start` to `end`.
pub fn sub_chars(s: &[char], start: usize, end: usize) -> (r: Vec<char>)
    requires
        start <= end <= s@.len(),
    ensures
        r@ == s@.subrange(start as int, end as int),
{
    let mut r: Vec<char> = Vec::new();
    let mut i = start;
    while i < end
        invariant
            start <= i <= end <= s@.len(),
            r@ == s@.subrange(start as int, i as int),
        decreases end - i,
    {
        r.push(s[i]);
        assert(r@ =~= s@.subrange(start as int, i + 1));
        i = i + 1;
    }
    r
}

/// `s` without leading and trailing whitespace.
pub fn trim_chars(s: &[char]) -> (r: Vec<char>)
    ensures
        r@ == trim(s@),
{
    let mut i: usize = 0;
    assert(s@.subrange(0, s@.len() as int) =~= s@);
    while i < s.len() && char_is_whitespace(s[i])
        invariant
            i <= s@.len(),
            trim_start(s@) == trim_start(s@.subrange(i as int, s@.len() as int)),
        decreases s.len() - i,
    {
        assert(s@.subrange(i as int, s@.len() as int).drop_first() =~= s@.subrange(i + 1, s@.len() as int));
        i = i + 1;
    }
    let mut j: usize = s.len();
    assert(s@.subrange(i as int, s@.len() as int) =~= s@.subrange(i as int, j as int));
    while j > i && char_is_whitespace(s[j - 1])
        invariant
            i <= j <= s@.len(),
            trim(s@) == trim_end(s@.subrange(i as int, j as int)),
        decreases j - i,
    {
        assert(s@.subrange(i as int, j as int).drop_last() =~= s@.subrange(i as int, j - 1));
        j = j - 1;
    }
    sub_chars(s, i, j)
}

/// `s` without any of its leading copies of `c`.
pub fn strip_leading_chars(s: &[char], c: char) -> (r: Vec<char>)
    ensures
        r@ == strip_leading(s@, c),
{
    let mut i: usize = 0;
    assert(s@.subrange(0, s@.len() as int) =~= s@);
    while i < s.len() && s[i] == c
        invariant
            i <= s@.len(),
            strip_leading(s@, c) == strip_leading(s@.subrange(i as int, s@.len() as int), c),
        decreases s.len() - i,
    {
        assert(s@.subrange(i as int, s@.len() as int).drop_first() =~= s@.subrange(i + 1, s@.len() as int));
        i = i + 1;
    }
    sub_chars(s, i, s.len())
}

/// Position of the first `c` in `s`.
pub open spec fn first_index(s: Seq<char>, c: char) -> Option<int>
    decreases s.len(),
{
    if s.len() == 0 {
        None
    } else if s[0] == c {
        Some(0)
    } else {
        match first_index(s.drop_first(), c) {
            Some(i) => Some(i + 1),
            None => None,
        }
    }
}

pub proof fn lemma_first_index(s: Seq<char>, c: char)
    ensures
        first_index(s, c) matches Some(i) ==> 0 <= i < s.len() && s[i] == c && forall|j: int| 0 <= j < i ==> s[j] != c,
        first_index(s, c) is None ==> forall|j: int| 0 <= j < s.len() ==> s[j] != c,
    decreases s.len(),
{
    if s.len() > 0 && s[0] != c {
        lemma_first_index(s.drop_first(), c);
        if first_index(s, c) is None {
            assert forall|j: int| 0 <= j < s.len() implies s[j] != c by {
                if j > 0 {
                    assert(s[j] == s.drop_first()[j - 1]);
                }
            }
        } else {
            let i = first_index(s, c)->0;
            assert forall|j: int| 0 <= j < i implies s[j] != c by {
                if j > 0 {
                    assert(s[j] == s.drop_first()[j - 1]);
                }
            }
        }
    }
}

/// Position of the first `c` in `s` (executable).
pub fn find_char(s: &[char], c: char) -> (r: Option<usize>)
    ensures
        match r {
            Some(i) => first_index(s@, c) == Some(i as int),
            None => first_index(s@, c) is None,
        },
{
    let mut i: usize = 0;
    assert(s@.subrange(0, s@.len() as int) =~= s@);
    while i < s.len()
        invariant
            i <= s@.len(),
            first_index(s@, c) == match first_index(s@.subrange(i as int, s@.len() as int), c) {
                Some(k) => Some(k + i),
                None => None,
            },
        decreases s.len() - i,
    {
        assert(s@.subrange(i as int, s@.len() as int).drop_first() =~= s@.subrange(i + 1, s@.len() as int));
        if s[i] == c {
            return Some(i);
        }
        i = i + 1;
    }
    None
}

/// The pieces of `s` between occurrences of `sep` (what `str::split(sep)` yields).
pub open spec fn split_on(s: Seq<char>, sep: char) -> Seq<Seq<char>>
    decreases s.len(),
{
    match first_index(s, sep) {
        None => seq![s],
        Some(i) => if 0 <= i < s.len() {
            seq![s.take(i)] + split_on(s.skip(i + 1), sep)
        } else {
            seq![s]
        },
    }
}

/// Whether `c` is an ASCII digit.
pub open spec fn is_digit(c: char) -> bool {
    '0' <= c <= '9'
}

/// Decimal value of a sequence of ASCII digits.
pub open spec fn digits_value(d: Seq<char>) -> nat
    decreases d.len(),
{
    if d.len() == 0 {
        0
    } else {
        digits_value(d.drop_last()) * 10 + ((d.last() as u32 - '0' as u32) as nat)
    }
}

/// `p` without one leading `+`.
pub open spec fn unsigned_digits(p: Seq<char>) -> Seq<char> {
    if p.len() > 0 && p[0] == '+' {
        p.drop_first()
    } else {
        p
    }
}

/// Whether every character of `d` is an ASCII digit.
pub open spec fn all_digits(d: Seq<char>) -> bool {
    forall|i: int| 0 <= i < d.len() ==> is_digit(#[trigger] d[i])
}

/// What `u64::from_str` accepts: an optional `+`, then one or more ASCII
/// digits whose value fits in 64 bits.
pub open spec fn parse_u64(p: Seq<char>) -> Option<u64> {
    let d = unsigned_digits(p);
    if d.len() > 0 && all_digits(d) && digits_value(d) <= u64::MAX {
        Some(digits_value(d) as u64)
    } else {
        None
    }
}

proof fn lemma_digits_value_prefix(d: Seq<char>, i: int)
    requires
        0 <= i <= d.len(),
        forall|k: int| 0 <= k < d.len() ==> is_digit(#[trigger] d[k]),
    ensures
        digits_value(d.take(i)) <= digits_value(d),
    decreases d.len() - i,
{
    if i < d.len() {
        lemma_digits_value_prefix(d, i + 1);
        assert(d.take(i + 1).drop_last() =~= d.take(i));
        assert(d.take(i + 1).last() == d[i]);
        assert(is_digit(d[i]));
        assert(digits_value(d.take(i + 1)) == digits_value(d.take(i)) * 10 + ((d[i] as u32 - '0' as u32) as nat));
    } else {
        assert(d.take(i) =~= d);
    }
}

/// Parses a decimal `u64` as `u64::from_str` does.
pub fn parse_u64_chars(p: &[char]) -> (r: Option<u64>)
    ensures
        r == parse_u64(p@),
{
    let start: usize = if p.len() > 0 && p[0] == '+' { 1 } else { 0 };
    let ghost d = unsigned_digits(p@);
    assert(d =~= p@.subrange(start as int, p@.len() as int));
    if start >= p.len() {
        return None;
    }
    let mut v: u64 = 0;
    let mut i = start;
    while i < p.len()
        invariant
            start <= i <= p@.len(),
            d =~= p@.subrange(start as int, p@.len() as int),
            d == unsigned_digits(p@),
            forall|k: int| start <= k < i ==> is_digit(#[trigger] p@[k]),
            v == digits_value(d.take(i - start)),
        decreases p.len() - i,
    {
        let c = p[i];
        if !('0' <= c && c <= '9') {
            assert(!is_digit(d[i - start]));
            assert(!all_digits(d));
            return None;
        }
        let digit = (c as u32 - '0' as u32) as u64;
        assert(d.take(i - start + 1).drop_last() =~= d.take(i - start));
        if v > (u64::MAX - digit) / 10 {
            proof {
                assert(v * 10 + digit > u64::MAX) by (nonlinear_arith)
                    requires
                        v > (u64::MAX - digit) / 10,
                        digit <= 9,
                ;
                assert(d.take(i - start + 1).last() == p@[i as int]);
                assert(forall|k: int| 0 <= k < i + 1 - start ==> is_digit(#[trigger] d.take(i + 1 - start)[k]));
                assert(digits_value(d.take(i - start + 1)) > u64::MAX);
                if all_digits(d) {
                    lemma_digits_value_prefix(d, i + 1 - start);
                }
            }
            return None;
        }
        v = v * 10 + digit;
        i = i + 1;
    }
    assert(d.take(i - start) =~= d);
    Some(v)
}

} // verus!

verus! {

/// The characters of each piece, in order.
pub open spec fn pieces_view(v: Seq<Vec<char>>) -> Seq<Seq<char>> {
    v.map_values(|x: Vec<char>| x@)
}

/// The pieces of `s` between occurrences of `sep`, as `str::split` yields them.
pub fn split_chars(s: &[char], sep: char) -> (r: Vec<Vec<char>>)
    ensures
        pieces_view(r@) == split_on(s@, sep),
{
    let mut out: Vec<Vec<char>> = Vec::new();
    let mut start: usize = 0;
    assert(s@.subrange(0, s@.len() as int) =~= s@);
    loop
        invariant_except_break
            start <= s@.len(),
            split_on(s@, sep) == pieces_view(out@) + split_on(s@.subrange(start as int, s@.len() as int), sep),
        ensures
            split_on(s@, sep) == pieces_view(out@),
        decreases s@.len() - start,
    {
        let rest = sub_chars(s, start, s.len());
        let ghost before = out@;
        proof {
            lemma_first_index(rest@, sep);
        }
        match find_char(rest.as_slice(), sep) {
            None => {
                out.push(rest);
                assert(pieces_view(out@) =~= pieces_view(before) + split_on(rest@, sep));
                break;
            },
            Some(i) => {
                let piece = sub_chars(s, start, start + i);
                assert(piece@ =~= rest@.take(i as int));
                assert(rest@.skip(i + 1) =~= s@.subrange(start + i + 1, s@.len() as int));
                out.push(piece);
                assert(pieces_view(out@) =~= pieces_view(before).push(piece@));
                assert(pieces_view(before) + split_on(rest@, sep) =~= pieces_view(out@) + split_on(rest@.skip(i + 1), sep));
                start = start + i + 1;
            },
        }
    }
    out
}

} // verus!

verus! {

/// ASCII lowercase of one character; other characters are unchanged.
pub open spec fn ascii_lower(c: char) -> char {
    if 'A' <= c <= 'Z' {
        ((c as u32) + 32) as char
    } else {
        c
    }
}

/// Equality up to ASCII case (what `str::eq_ignore_ascii_case` decides).
pub open spec fn eq_ignore_ascii_case(a: Seq<char>, b: Seq<char>) -> bool {
    a.len() == b.len() && forall|i: int| 0 <= i < a.len() ==> ascii_lower(#[trigger] a[i]) == ascii_lower(b[i])
}

/// ASCII lowercase of one character (executable).
pub fn ascii_lower_char(c: char) -> (r: char)
    ensures
        r == ascii_lower(c),
{
    if 'A' <= c && c <= 'Z' {
        let v = (c as u8) + 32;
        v as char
    } else {
        c
    }
}

/// Whether two strings are equal up to ASCII case.
pub fn str_eq_ignore_ascii_case(a: &str, b: &str) -> (r: bool)
    ensures
        r == eq_ignore_ascii_case(a@, b@),
{
    let x = chars_of(a);
    let y = chars_of(b);
    if x.len() != y.len() {
        return false;
    }
    let mut i: usize = 0;
    while i < x.len()
        invariant
            x@ == a@,
            y@ == b@,
            x.len() == y.len(),
            i <= x.len(),
            forall|j: int| 0 <= j < i ==> ascii_lower(#[trigger] x@[j]) == ascii_lower(y@[j]),
        decreases x.len() - i,
    {
        if ascii_lower_char(x[i]) != ascii_lower_char(y[i]) {
            return false;
        }
        i = i + 1;
    }
    true
}

} // verus!

verus! {

/// The decimal digit for a value below 10.
pub open spec fn digit_char(v: int) -> char {
    (('0' as int) + v) as char
}

/// Decimal representation of `n`, without leading zeros.
pub open spec fn decimal(n: nat) -> Seq<char>
    decreases n,
{
    if n < 10 {
        seq![digit_char(n as int)]
    } else {
        decimal(n / 10).push(digit_char((n % 10) as int))
    }
}

/// `n` in decimal, left-padded with zeros to at least `width` characters
/// (what `format!("{:0width$}", n)` prints).
pub open spec fn zero_padded(n: nat, width: nat) -> Seq<char> {
    let d = decimal(n);
    if d.len() >= width {
        d
    } else {
        Seq::new((width - d.len()) as nat, |i: int| '0') + d
    }
}

/// Decimal representation of `n`.
pub fn decimal_chars(n: u64) -> (r: Vec<char>)
    ensures
        r@ == decimal(n as nat),
    decreases n,
{
    if n < 10 {
        let mut v = Vec::new();
        v.push(((n as u8) + 48) as char);
        v
    } else {
        let mut v = decimal_chars(n / 10);
        v.push((((n % 10) as u8) + 48) as char);
        v
    }
}

/// Appends `n` in decimal, zero-padded to at least `width` characters.
pub fn push_zero_padded(out: &mut Vec<char>, n: u64, width: usize)
    ensures
        final(out)@ == old(out)@ + zero_padded(n as nat, width as nat),
{
    let d = decimal_chars(n);
    let ghost start = out@;
    let mut k: usize = d.len();
    while k < width
        invariant
            d@ == decimal(n as nat),
            d.len() <= k <= width || (d.len() >= width && k == d.len()),
            out@ == start + Seq::new((k - d.len()) as nat, |i: int| '0'),
        decreases width - k,
    {
        out.push('0');
        assert(out@ =~= start + Seq::new((k + 1 - d.len()) as nat, |i: int| '0'));
        k = k + 1;
    }
    let ghost mid = out@;
    let mut j: usize = 0;
    while j < d.len()
        invariant
            j <= d.len(),
            out@ == mid + d@.take(j as int),
        decreases d.len() - j,
    {
        out.push(d[j]);
        assert(out@ =~= mid + d@.take(j + 1));
        j = j + 1;
    }
    assert(d@.take(d.len() as int) =~= d@);
    proof {
        if d@.len() >= width {
            assert(Seq::new((k - d.len()) as nat, |i: int| '0') =~= Seq::<char>::empty());
        }
        assert(start + Seq::new((k - d.len()) as nat, |i: int| '0') + d@ =~= start + (Seq::new((k - d.len()) as nat, |i: int| '0') + d@));
    }
}

} // verus!

verus! {

/// Whether `s` begins with `p` (executable).
pub fn chars_starts_with(s: &[char], p: &[char]) -> (r: bool)
    ensures
        r == starts_with(s@, p@),
{
    chars_match_at(s, p, 0)
}

/// `s` without any of its trailing copies of `c` (what `trim_end_matches(c)` gives).
pub open spec fn strip_trailing(s: Seq<char>, c: char) -> Seq<char>
    decreases s.len(),
{
    if s.len() > 0 && s.last() == c {
        strip_trailing(s.drop_last(), c)
    } else {
        s
    }
}

/// `s` without any leading spaces or dashes (`trim_start_matches([' ', '-'])`).
pub open spec fn strip_leading_space_dash(s: Seq<char>) -> Seq<char>
    decreases s.len(),
{
    if s.len() > 0 && (s[0] == ' ' || s[0] == '-') {
        strip_leading_space_dash(s.drop_first())
    } else {
        s
    }
}

/// `s` without any of its trailing copies of `c`.
pub fn strip_trailing_chars(s: &[char], c: char) -> (r: Vec<char>)
    ensures
        r@ == strip_trailing(s@, c),
{
    let mut j: usize = s.len();
    assert(s@.subrange(0, s@.len() as int) =~= s@);
    while j > 0 && s[j - 1] == c
        invariant
            j <= s@.len(),
            strip_trailing(s@, c) == strip_trailing(s@.subrange(0, j as int), c),
        decreases j,
    {
        assert(s@.subrange(0, j as int).drop_last() =~= s@.subrange(0, j - 1));
        j = j - 1;
    }
    sub_chars(s, 0, j)
}

/// `s` without any leading spaces or dashes.
pub fn strip_leading_space_dash_chars(s: &[char]) -> (r: Vec<char>)
    ensures
        r@ == strip_leading_space_dash(s@),
{
    let mut i: usize = 0;
    assert(s@.subrange(0, s@.len() as int) =~= s@);
    while i < s.len() && (s[i] == ' ' || s[i] == '-')
        invariant
            i <= s@.len(),
            strip_leading_space_dash(s@) == strip_leading_space_dash(s@.subrange(i as int, s@.len() as int)),
        decreases s.len() - i,
    {
        assert(s@.subrange(i as int, s@.len() as int).drop_first() =~= s@.subrange(i + 1, s@.len() as int));
        i = i + 1;
    }
    sub_chars(s, i, s.len())
}

/// The leading run of non-whitespace characters of `t`.
pub open spec fn take_non_ws(t: Seq<char>) -> Seq<char>
    decreases t.len(),
{
    if t.len() > 0 && !is_whitespace(t[0]) {
        seq![t[0]] + take_non_ws(t.drop_first())
    } else {
        Seq::empty()
    }
}

/// The first whitespace-separated word of `s`, or nothing when it has none
/// (`split_whitespace().next().unwrap_or("")`).
pub open spec fn first_word(s: Seq<char>) -> Seq<char> {
    take_non_ws(trim_start(s))
}

/// The first whitespace-separated word of `s`.
pub fn first_word_chars(s: &[char]) -> (r: Vec<char>)
    ensures
        r@ == first_word(s@),
{
    let mut i: usize = 0;
    assert(s@.subrange(0, s@.len() as int) =~= s@);
    while i < s.len() && char_is_whitespace(s[i])
        invariant
            i <= s@.len(),
            trim_start(s@) == trim_start(s@.subrange(i as int, s@.len() as int)),
        decreases s.len() - i,
    {
        assert(s@.subrange(i as int, s@.len() as int).drop_first() =~= s@.subrange(i + 1, s@.len() as int));
        i = i + 1;
    }
    let ghost t = s@.subrange(i as int, s@.len() as int);
    assert(trim_start(t) == t);
    let mut j = i;
    while j < s.len() && !char_is_whitespace(s[j])
        invariant
            i <= j <= s@.len(),
            t == s@.subrange(i as int, s@.len() as int),
            take_non_ws(t) == s@.subrange(i as int, j as int) + take_non_ws(s@.subrange(j as int, s@.len() as int)),
        decreases s.len() - j,
    {
        assert(s@.subrange(j as int, s@.len() as int).drop_first() =~= s@.subrange(j + 1, s@.len() as int));
        assert(s@.subrange(i as int, j + 1) =~= s@.subrange(i as int, j as int) + seq![s@[j as int]]);
        j = j + 1;
    }
    assert(s@.subrange(i as int, j as int) + Seq::<char>::empty() =~= s@.subrange(i as int, j as int));
    sub_chars(s, i, j)
}

/// The piece of `s` after its first `c`, up to the next `c`
/// (`split(c).nth(1)`); `None` when `s` has no `c`.
pub open spec fn piece_after(s: Seq<char>, c: char) -> Option<Seq<char>> {
    match first_index(s, c) {
        None => None,
        Some(i) => {
            let rest = s.skip(i + 1);
            Some(
                match first_index(rest, c) {
                    Some(j) => rest.take(j),
                    None => rest,
                },
            )
        },
    }
}

/// The piece of `s` before its first `c`, or all of `s` (`split(c).next()`).
pub open spec fn piece_before(s: Seq<char>, c: char) -> Seq<char> {
    match first_index(s, c) {
        Some(i) => s.take(i),
        None => s,
    }
}

/// The piece of `s` after its last `c`, or all of `s` (`rsplit(c).next()`).
pub open spec fn piece_after_last(s: Seq<char>, c: char) -> Seq<char>
    decreases s.len(),
{
    if s.len() == 0 {
        s
    } else if s.last() == c {
        Seq::empty()
    } else {
        piece_after_last(s.drop_last(), c).push(s.last())
    }
}

/// The piece of `s` after its first `c`, up to the next `c`.
pub fn piece_after_chars(s: &[char], c: char) -> (r: Option<Vec<char>>)
    ensures
        match r {
            Some(v) => piece_after(s@, c) == Some(v@),
            None => piece_after(s@, c) is None,
        },
{
    proof {
        lemma_first_index(s@, c);
    }
    let n = s.len();
    match find_char(s, c) {
        None => None,
        Some(i) => {
            assert(i < n);
            let rest = sub_chars(s, i + 1, n);
            assert(rest@ =~= s@.skip(i + 1));
            proof {
                lemma_first_index(rest@, c);
            }
            match find_char(rest.as_slice(), c) {
                Some(j) => {
                    let r = sub_chars(rest.as_slice(), 0, j);
                    assert(r@ =~= rest@.take(j as int));
                    Some(r)
                },
                None => Some(rest),
            }
        },
    }
}

/// The piece of `s` before its first `c`, or all of `s`.
pub fn piece_before_chars(s: &[char], c: char) -> (r: Vec<char>)
    ensures
        r@ == piece_before(s@, c),
{
    proof {
        lemma_first_index(s@, c);
    }
    match find_char(s, c) {
        Some(i) => {
            let r = sub_chars(s, 0, i);
            assert(r@ =~= s@.take(i as int));
            r
        },
        None => {
            let r = sub_chars(s, 0, s.len());
            assert(r@ =~= s@);
            r
        },
    }
}

/// The piece of `s` after its last `c`, or all of `s`.
pub fn piece_after_last_chars(s: &[char], c: char) -> (r: Vec<char>)
    ensures
        r@ == piece_after_last(s@, c),
{
    let mut j: usize = s.len();
    assert(s@.take(j as int) =~= s@);
    assert(s@.subrange(j as int, s@.len() as int) =~= Seq::<char>::empty());
    assert(piece_after_last(s@, c) + Seq::<char>::empty() =~= piece_after_last(s@, c));
    while j > 0 && s[j - 1] != c
        invariant
            j <= s@.len(),
            piece_after_last(s@, c) == piece_after_last(s@.take(j as int), c) + s@.subrange(j as int, s@.len() as int),
        decreases j,
    {
        assert(s@.take(j as int).drop_last() =~= s@.take(j - 1));
        assert(s@.take(j as int).last() == s@[j - 1]);
        assert(piece_after_last(s@.take(j - 1), c).push(s@[j - 1]) + s@.subrange(j as int, s@.len() as int)
            =~= piece_after_last(s@.take(j - 1), c) + s@.subrange(j - 1, s@.len() as int));
        j = j - 1;
    }
    proof {
        if j == 0 {
            assert(s@.take(0) =~= Seq::<char>::empty());
        } else {
            assert(s@.take(j as int).last() == s@[j - 1]);
        }
        assert(Seq::<char>::empty() + s@.subrange(j as int, s@.len() as int) =~= s@.subrange(j as int, s@.len() as int));
    }
    sub_chars(s, j, s.len())
}

/// The text between the first pair of `q` quotes in `s`.
pub open spec fn quoted_with(s: Seq<char>, q: char) -> Option<Seq<char>> {
    match first_index(s, q) {
        None => None,
        Some(st) => {
            let rest = s.skip(st + 1);
            match first_index(rest, q) {
                Some(e) => Some(rest.take(e)),
                None => None,
            }
        },
    }
}

/// The quote mark, single or double, that occurs first in `s`.
pub open spec fn first_quote_mark(s: Seq<char>) -> Option<char> {
    match (first_index(s, '\''), first_index(s, '"')) {
        (Some(i), Some(j)) => Some(if i < j { '\'' } else { '"' }),
        (Some(_), None) => Some('\''),
        (None, Some(_)) => Some('"'),
        (None, None) => None,
    }
}

/// The other quote mark.
pub open spec fn other_quote(q: char) -> char {
    if q == '\'' { '"' } else { '\'' }
}

/// The first quoted string of `s`: the text after the quote mark (single or
/// double) that comes first, up to the next mark of the same kind; when that
/// mark is never closed, the first string quoted with the other kind.
pub open spec fn extract_quoted(s: Seq<char>) -> Option<Seq<char>> {
    match first_quote_mark(s) {
        None => None,
        Some(q) => match quoted_with(s, q) {
            Some(x) => Some(x),
            None => quoted_with(s, other_quote(q)),
        },
    }
}

fn quoted_with_chars(s: &[char], q: char) -> (r: Option<Vec<char>>)
    ensures
        match r {
            Some(v) => quoted_with(s@, q) == Some(v@),
            None => quoted_with(s@, q) is None,
        },
{
    proof {
        lemma_first_index(s@, q);
    }
    let n = s.len();
    match find_char(s, q) {
        None => None,
        Some(st) => {
            assert(st < n);
            let rest = sub_chars(s, st + 1, n);
            assert(rest@ =~= s@.skip(st + 1));
            proof {
                lemma_first_index(rest@, q);
            }
            match find_char(rest.as_slice(), q) {
                Some(e) => {
                    let r = sub_chars(rest.as_slice(), 0, e);
                    assert(r@ =~= rest@.take(e as int));
                    Some(r)
                },
                None => None,
            }
        },
    }
}

/// The first quoted string of `s` (see `extract_quoted`).
pub fn extract_quoted_chars(s: &[char]) -> (r: Option<Vec<char>>)
    ensures
        match r {
            Some(v) => extract_quoted(s@) == Some(v@),
            None => extract_quoted(s@) is None,
        },
{
    let q = match (find_char(s, '\''), find_char(s, '"')) {
        (Some(i), Some(j)) => if i < j { '\'' } else { '"' },
        (Some(_), None) => '\'',
        (None, Some(_)) => '"',
        (None, None) => return None,
    };
    let other = if q == '\'' { '"' } else { '\'' };
    match quoted_with_chars(s, q) {
        Some(x) => Some(x),
        None => quoted_with_chars(s, other),
    }
}

/// `s` with every `from` replaced by `to`.
pub open spec fn replace_char(s: Seq<char>, from: char, to: char) -> Seq<char> {
    s.map_values(|c: char| if c == from { to } else { c })
}

/// `s` with every `from` replaced by `to`.
pub fn replace_char_chars(s: &[char], from: char, to: char) -> (r: Vec<char>)
    ensures
        r@ == replace_char(s@, from, to),
{
    let mut r: Vec<char> = Vec::new();
    let mut i: usize = 0;
    while i < s.len()
        invariant
            i <= s@.len(),
            r@ == replace_char(s@.take(i as int), from, to),
        decreases s.len() - i,
    {
        r.push(if s[i] == from { to } else { s[i] });
        assert(r@ =~= replace_char(s@.take(i + 1), from, to));
        i = i + 1;
    }
    assert(s@.take(s@.len() as int) =~= s@);
    r
}

/// Position of the first occurrence of `p` in `s` at or after `i`.
pub open spec fn find_seq_from(s: Seq<char>, p: Seq<char>, i: int) -> Option<int>
    decreases s.len() + 1 - i,
{
    if i < 0 || i + p.len() > s.len() {
        None
    } else if occurs_at(s, p, i) {
        Some(i)
    } else {
        find_seq_from(s, p, i + 1)
    }
}

pub proof fn lemma_find_seq_from(s: Seq<char>, p: Seq<char>, i: int)
    requires
        i >= 0,
    ensures
        find_seq_from(s, p, i) matches Some(k) ==> i <= k && k + p.len() <= s.len() && occurs_at(s, p, k),
    decreases s.len() + 1 - i,
{
    if i + p.len() <= s.len() && !occurs_at(s, p, i) {
        lemma_find_seq_from(s, p, i + 1);
    }
}

/// Position of the first occurrence of `p` in `s` at or after `i`.
pub fn find_chars_from(s: &[char], p: &[char], i: usize) -> (r: Option<usize>)
    ensures
        match r {
            Some(k) => find_seq_from(s@, p@, i as int) == Some(k as int),
            None => find_seq_from(s@, p@, i as int) is None,
        },
{
    if i > s.len() || s.len() - i < p.len() {
        return None;
    }
    let last = s.len() - p.len();
    let mut k = i;
    loop
        invariant
            i <= k <= last,
            last == s@.len() - p@.len(),
            find_seq_from(s@, p@, i as int) == find_seq_from(s@, p@, k as int),
        decreases last - k,
    {
        if chars_match_at(s, p, k) {
            return Some(k);
        }
        if k == last {
            assert(find_seq_from(s@, p@, k + 1) is None);
            return None;
        }
        k = k + 1;
    }
}

/// `s` with every non-overlapping occurrence of `p` (from the left) removed.
pub open spec fn remove_all(s: Seq<char>, p: Seq<char>) -> Seq<char>
    decreases s.len(),
{
    if p.len() == 0 {
        s
    } else {
        match find_seq_from(s, p, 0) {
            Some(i) => if 0 <= i && i + p.len() <= s.len() {
                s.take(i) + remove_all(s.skip(i + p.len()), p)
            } else {
                s
            },
            None => s,
        }
    }
}

/// `s` with every non-overlapping occurrence of `p` removed (`replace(p, "")`).
pub fn remove_all_chars(s: &[char], p: &[char]) -> (r: Vec<char>)
    requires
        p@.len() > 0,
    ensures
        r@ == remove_all(s@, p@),
{
    let mut out: Vec<char> = Vec::new();
    let mut start: usize = 0;
    assert(s@.skip(0) =~= s@);
    loop
        invariant_except_break
            start <= s@.len(),
            p@.len() > 0,
            remove_all(s@, p@) == out@ + remove_all(s@.skip(start as int), p@),
        ensures
            remove_all(s@, p@) == out@,
        decreases s@.len() - start,
    {
        let rest = sub_chars(s, start, s.len());
        assert(rest@ =~= s@.skip(start as int));
        proof {
            lemma_find_seq_from(rest@, p@, 0);
        }
        match find_chars_from(rest.as_slice(), p, 0) {
            None => {
                let ghost before = out@;
                let mut j: usize = 0;
                while j < rest.len()
                    invariant
                        j <= rest@.len(),
                        out@ == before + rest@.take(j as int),
                    decreases rest.len() - j,
                {
                    out.push(rest[j]);
                    assert(out@ =~= before + rest@.take(j + 1));
                    j = j + 1;
                }
                assert(rest@.take(rest@.len() as int) =~= rest@);
                break;
            },
            Some(i) => {
                let ghost before = out@;
                let mut j: usize = 0;
                while j < i
                    invariant
                        j <= i,
                        i <= rest@.len(),
                        out@ == before + rest@.take(j as int),
                    decreases i - j,
                {
                    out.push(rest[j]);
                    assert(out@ =~= before + rest@.take(j + 1));
                    j = j + 1;
                }
                assert(rest@.skip(i + p@.len()) =~= s@.skip(start + i + p@.len()));
                assert(before + (rest@.take(i as int) + remove_all(rest@.skip(i + p@.len()), p@))
                    =~= out@ + remove_all(s@.skip(start + i + p@.len()), p@));
                start = start + i + p.len();
            },
        }
    }
    out
}

} // verus!

verus! {

proof fn lemma_trim_start_drop_ws_last(l: Seq<char>)
    requires
        l.len() > 0,
        is_whitespace(l.last()),
    ensures
        trim_start(l).len() == 0 ==> trim_start(l.drop_last()).len() == 0,
        trim_start(l).len() > 0 ==> trim_start(l.drop_last()) == trim_start(l).drop_last()
            && trim_start(l).last() == l.last(),
    decreases l.len(),
{
    if l.len() == 1 {
        assert(l[0] == l.last());
        assert(l.drop_first().len() == 0);
        assert(trim_start(l) == trim_start(l.drop_first()));
        assert(l.drop_last().len() == 0);
    } else if is_whitespace(l[0]) {
        let t = l.drop_first();
        assert(t.last() == l.last());
        lemma_trim_start_drop_ws_last(t);
        assert(l.drop_last()[0] == l[0]);
        assert(l.drop_last().drop_first() =~= t.drop_last());
        assert(trim_start(l) == trim_start(t));
        assert(trim_start(l.drop_last()) == trim_start(t.drop_last()));
    } else {
        assert(l.drop_last()[0] == l[0]);
        assert(trim_start(l) == l);
        assert(trim_start(l.drop_last()) == l.drop_last());
    }
}

proof fn lemma_trim_drop_ws_last(l: Seq<char>)
    requires
        l.len() > 0,
        is_whitespace(l.last()),
    ensures
        trim(l) == trim(l.drop_last()),
{
    lemma_trim_start_drop_ws_last(l);
    let ts = trim_start(l);
    if ts.len() == 0 {
        assert(trim_start(l.drop_last()).len() == 0);
    }
}

/// Trailing carriage returns make no difference once a line is trimmed.
pub(crate) proof fn lemma_trim_strip_cr(l: Seq<char>)
    ensures
        trim(strip_trailing(l, '\r')) == trim(l),
    decreases l.len(),
{
    if l.len() > 0 && l.last() == '\r' {
        assert(is_whitespace('\r'));
        lemma_trim_drop_ws_last(l);
        lemma_trim_strip_cr(l.drop_last());
    }
}

} // verus!
