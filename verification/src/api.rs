//! Mod flags and version ordering.

use vstd::prelude::*;
use crate::text::{
    first_index, split_on, parse_u64, strip_leading, trim, chars_of, pieces_view, all_digits,
    digits_value, is_digit, is_whitespace, trim_start, trim_end,
};

verus! {

/// The symbol shown for a mod flag: 1 star, 2 heart, 3 info, none otherwise.
pub open spec fn spec_flag_symbol(flag: i32) -> Seq<char> {
    if flag == 1 {
        seq!['\u{2605}']
    } else if flag == 2 {
        seq!['\u{2665}']
    } else if flag == 3 {
        seq!['\u{24d8}']
    } else {
        Seq::empty()
    }
}

/// The symbol shown next to a flagged mod.
pub fn flag_symbol(flag: i32) -> (r: &'static str)
    ensures
        r@ == spec_flag_symbol(flag),
{
    proof {
        reveal_strlit("\u{2605}");
        reveal_strlit("\u{2665}");
        reveal_strlit("\u{24d8}");
        reveal_strlit("");
    }
    match flag {
        1 => "\u{2605}",
        2 => "\u{2665}",
        3 => "\u{24d8}",
        _ => "",
    }
}

} // verus!

verus! {

/// A parsed version: four numeric parts and an optional pre-release tag.
pub struct VersionSpec {
    pub major: u64,
    pub minor: u64,
    pub patch: u64,
    pub build: u64,
    pub pre: Option<Seq<char>>,
}

/// The numbers among `pieces`: each piece that parses as a `u64`, in order.
pub open spec fn numeric_parts(pieces: Seq<Seq<char>>) -> Seq<u64>
    decreases pieces.len(),
{
    if pieces.len() == 0 {
        Seq::empty()
    } else {
        let rest = numeric_parts(pieces.drop_first());
        match parse_u64(pieces[0]) {
            Some(v) => seq![v] + rest,
            None => rest,
        }
    }
}

/// Part `i` of `parts`, or 0 when there are fewer parts.
pub open spec fn part(parts: Seq<u64>, i: int) -> u64 {
    if 0 <= i < parts.len() {
        parts[i]
    } else {
        0
    }
}

/// The version denoted by `s`: whitespace trimmed and leading 'v's dropped;
/// the text after the first '-' is the pre-release tag; the numbers are the
/// '.'-separated pieces before it that parse as `u64` (missing ones are 0).
pub open spec fn spec_parse_version(s: Seq<char>) -> VersionSpec {
    let t = strip_leading(trim(s), 'v');
    let (numeric, pre) = match first_index(t, '-') {
        Some(i) => (t.take(i), Some(t.skip(i + 1))),
        None => (t, None),
    };
    let parts = numeric_parts(split_on(numeric, '.'));
    VersionSpec {
        major: part(parts, 0),
        minor: part(parts, 1),
        patch: part(parts, 2),
        build: part(parts, 3),
        pre,
    }
}

/// Strict lexicographic order on character strings.
pub open spec fn chars_lt(x: Seq<char>, y: Seq<char>) -> bool
    decreases x.len(),
{
    if x.len() == 0 {
        y.len() > 0
    } else if y.len() == 0 {
        false
    } else if x[0] != y[0] {
        x[0] < y[0]
    } else {
        chars_lt(x.drop_first(), y.drop_first())
    }
}

/// A pre-release identifier made of ASCII digits only; it compares as a number.
pub open spec fn numeric_ident(s: Seq<char>) -> bool {
    s.len() > 0 && all_digits(s)
}

/// -1, 0 or 1 as `x` is below, equal to or above `y`.
pub open spec fn sign_order(x: int, y: int) -> int {
    if x < y {
        -1
    } else if x == y {
        0
    } else {
        1
    }
}

/// Semver order of two pre-release identifiers (-1, 0 or 1): numeric ones by
/// their value, and below alphanumeric ones; alphanumeric ones by character
/// order.
pub open spec fn ident_order(x: Seq<char>, y: Seq<char>) -> int {
    if numeric_ident(x) && numeric_ident(y) {
        sign_order(digits_value(x) as int, digits_value(y) as int)
    } else if numeric_ident(x) {
        -1
    } else if numeric_ident(y) {
        1
    } else if x == y {
        0
    } else if chars_lt(x, y) {
        -1
    } else {
        1
    }
}

/// Order of two lists of identifiers: the first pair that differs decides;
/// when one list is a prefix of the other, the shorter one is lower.
pub open spec fn idents_order(xs: Seq<Seq<char>>, ys: Seq<Seq<char>>) -> int
    decreases xs.len(),
{
    if xs.len() == 0 {
        if ys.len() == 0 {
            0
        } else {
            -1
        }
    } else if ys.len() == 0 {
        1
    } else if ident_order(xs[0], ys[0]) != 0 {
        ident_order(xs[0], ys[0])
    } else {
        idents_order(xs.drop_first(), ys.drop_first())
    }
}

/// Semver order of two pre-release tags, by their '.'-separated identifiers.
pub open spec fn pre_tag_order(x: Seq<char>, y: Seq<char>) -> int {
    idents_order(split_on(x, '.'), split_on(y, '.'))
}

/// `a` is a strictly later version than `b`: numeric parts compared in order
/// (major, minor, patch, build); on a tie a release is later than any
/// pre-release, and two pre-releases are ordered by their tags as semver
/// orders them (`pre_tag_order`).
pub open spec fn version_gt(a: VersionSpec, b: VersionSpec) -> bool {
    if a.major != b.major {
        a.major > b.major
    } else if a.minor != b.minor {
        a.minor > b.minor
    } else if a.patch != b.patch {
        a.patch > b.patch
    } else if a.build != b.build {
        a.build > b.build
    } else {
        match (a.pre, b.pre) {
            (None, None) => false,
            (None, Some(_)) => true,
            (Some(_), None) => false,
            (Some(x), Some(y)) => pre_tag_order(x, y) > 0,
        }
    }
}

/// `remote` denotes a strictly newer version than `local`.
pub open spec fn spec_is_newer_version(local: Seq<char>, remote: Seq<char>) -> bool {
    version_gt(spec_parse_version(remote), spec_parse_version(local))
}

/// A parsed version.
struct Version {
    major: u64,
    minor: u64,
    patch: u64,
    build: u64,
    /// Pre-release tag: `None` is a release, which sorts above any pre-release.
    pre: Option<Vec<char>>,
}

impl Version {
    spec fn view(&self) -> VersionSpec {
        VersionSpec {
            major: self.major,
            minor: self.minor,
            patch: self.patch,
            build: self.build,
            pre: match self.pre {
                Some(p) => Some(p@),
                None => None,
            },
        }
    }

    /// Whether `self` is a strictly later version than `other`.
    fn is_greater(&self, other: &Version) -> (r: bool)
        ensures
            r == version_gt(self.view(), other.view()),
    {
        if self.major != other.major {
            return self.major > other.major;
        }
        if self.minor != other.minor {
            return self.minor > other.minor;
        }
        if self.patch != other.patch {
            return self.patch > other.patch;
        }
        if self.build != other.build {
            return self.build > other.build;
        }
        match (&self.pre, &other.pre) {
            (None, None) => false,
            (None, Some(_)) => true,
            (Some(_), None) => false,
            (Some(a), Some(b)) => tag_compare(a.as_slice(), b.as_slice()) > 0,
        }
    }
}

/// Strict lexicographic order on character strings.
pub(crate) fn chars_less(x: &[char], y: &[char]) -> (r: bool)
    ensures
        r == chars_lt(x@, y@),
{
    let mut i: usize = 0;
    assert(x@.skip(0) =~= x@);
    assert(y@.skip(0) =~= y@);
    while i < x.len() && i < y.len() && x[i] == y[i]
        invariant
            i <= x@.len(),
            i <= y@.len(),
            chars_lt(x@, y@) == chars_lt(x@.skip(i as int), y@.skip(i as int)),
        decreases x.len() - i,
    {
        assert(x@.skip(i as int).drop_first() =~= x@.skip(i + 1));
        assert(y@.skip(i as int).drop_first() =~= y@.skip(i + 1));
        i = i + 1;
    }
    if i == x.len() {
        i < y.len()
    } else if i == y.len() {
        false
    } else {
        x[i] < y[i]
    }
}

/// Ten to the power `n`.
pub open spec fn pow10(n: nat) -> nat
    decreases n,
{
    if n == 0 {
        1
    } else {
        10 * pow10((n - 1) as nat)
    }
}

/// The value of the decimal digit `c`.
pub open spec fn digit_of(c: char) -> nat {
    (c as u32 - '0' as u32) as nat
}

proof fn lemma_pow10_pos(n: nat)
    ensures
        pow10(n) >= 1,
    decreases n,
{
    if n > 0 {
        lemma_pow10_pos((n - 1) as nat);
    }
}

proof fn lemma_pow10_mono(m: nat, n: nat)
    requires
        m <= n,
    ensures
        pow10(m) <= pow10(n),
    decreases n,
{
    if m < n {
        lemma_pow10_mono(m, (n - 1) as nat);
        lemma_pow10_pos((n - 1) as nat);
    }
}

proof fn lemma_all_digits_sub(s: Seq<char>, a: int, b: int)
    requires
        all_digits(s),
        0 <= a <= b <= s.len(),
    ensures
        all_digits(s.subrange(a, b)),
{
    assert forall|i: int| 0 <= i < b - a implies is_digit(#[trigger] s.subrange(a, b)[i]) by {
        assert(s.subrange(a, b)[i] == s[a + i]);
    }
}

/// The value of a digit string, read from its first digit.
proof fn lemma_digits_front(s: Seq<char>)
    requires
        s.len() > 0,
        all_digits(s),
    ensures
        digits_value(s) == digit_of(s[0]) * pow10((s.len() - 1) as nat) + digits_value(s.drop_first()),
    decreases s.len(),
{
    if s.len() == 1 {
        assert(s.drop_first().len() == 0);
        assert(s.drop_last().len() == 0);
        assert(s.last() == s[0]);
        assert(digits_value(s.drop_last()) == 0);
        assert(digits_value(s.drop_first()) == 0);
        assert(pow10(0) == 1);
        assert(digits_value(s) == digit_of(s[0]));
        assert(digit_of(s[0]) * 1 == digit_of(s[0]));
    } else {
        let init = s.drop_last();
        lemma_all_digits_sub(s, 0, s.len() - 1);
        assert(init =~= s.subrange(0, s.len() - 1));
        lemma_digits_front(init);
        let t = s.drop_first();
        assert(t.drop_last() =~= init.drop_first());
        assert(t.last() == s.last());
        assert(init[0] == s[0]);
        let d = digit_of(s[0]);
        let p = pow10((s.len() - 2) as nat);
        let r = digits_value(init.drop_first());
        assert(digits_value(s) == digits_value(init) * 10 + digit_of(s.last()));
        assert(digits_value(t) == digits_value(t.drop_last()) * 10 + digit_of(t.last()));
        assert(pow10((s.len() - 1) as nat) == 10 * p);
        assert(digits_value(init) == d * p + r);
        assert((d * p + r) * 10 == d * (10 * p) + r * 10) by (nonlinear_arith);
    }
}

proof fn lemma_digits_below_pow(s: Seq<char>)
    requires
        all_digits(s),
    ensures
        digits_value(s) < pow10(s.len()),
    decreases s.len(),
{
    if s.len() > 0 {
        let init = s.drop_last();
        lemma_all_digits_sub(s, 0, s.len() - 1);
        assert(init =~= s.subrange(0, s.len() - 1));
        lemma_digits_below_pow(init);
        assert(is_digit(s[s.len() - 1]));
        let v = digits_value(init);
        let p = pow10(init.len());
        let l = digit_of(s.last());
        assert(l <= 9);
        assert(v * 10 + l < 10 * p) by (nonlinear_arith)
            requires
                v < p,
                l <= 9,
        ;
    }
}

proof fn lemma_digits_lead(s: Seq<char>)
    requires
        s.len() > 0,
        all_digits(s),
        s[0] != '0',
    ensures
        digits_value(s) >= pow10((s.len() - 1) as nat),
{
    lemma_digits_front(s);
    assert(is_digit(s[0]));
    let d = digit_of(s[0]);
    let p = pow10((s.len() - 1) as nat);
    assert(d >= 1);
    assert(d * p >= p) by (nonlinear_arith)
        requires
            d >= 1,
    ;
}

proof fn lemma_digits_zero_lead(s: Seq<char>)
    requires
        s.len() > 0,
        all_digits(s),
        s[0] == '0',
    ensures
        digits_value(s) == digits_value(s.drop_first()),
{
    lemma_digits_front(s);
    let d = digit_of(s[0]);
    let p = pow10((s.len() - 1) as nat);
    assert(d == 0);
    assert(d * p == 0) by (nonlinear_arith)
        requires
            d == 0,
    ;
}

/// Digit strings of one length compare as numbers as they compare as text.
proof fn lemma_digits_same_len(x: Seq<char>, y: Seq<char>)
    requires
        all_digits(x),
        all_digits(y),
        x.len() == y.len(),
    ensures
        (digits_value(x) < digits_value(y)) == chars_lt(x, y),
        (digits_value(x) == digits_value(y)) == (x == y),
    decreases x.len(),
{
    if x.len() == 0 {
        assert(x =~= y);
    } else {
        lemma_digits_front(x);
        lemma_digits_front(y);
        let xt = x.drop_first();
        let yt = y.drop_first();
        lemma_all_digits_sub(x, 1, x.len() as int);
        lemma_all_digits_sub(y, 1, y.len() as int);
        assert(xt =~= x.subrange(1, x.len() as int));
        assert(yt =~= y.subrange(1, y.len() as int));
        lemma_digits_same_len(xt, yt);
        lemma_digits_below_pow(xt);
        lemma_digits_below_pow(yt);
        assert(is_digit(x[0]) && is_digit(y[0]));
        let p = pow10((x.len() - 1) as nat);
        let dx = digit_of(x[0]);
        let dy = digit_of(y[0]);
        let rx = digits_value(xt);
        let ry = digits_value(yt);
        if x[0] == y[0] {
            if xt == yt {
                assert(x =~= seq![x[0]] + xt);
                assert(y =~= seq![y[0]] + yt);
            } else {
                assert(x != y) by {
                    if x == y {
                        assert(xt =~= yt);
                    }
                }
            }
        } else if x[0] < y[0] {
            assert(dx < dy);
            assert(dx * p + rx < dy * p) by (nonlinear_arith)
                requires
                    dx < dy,
                    rx < p,
            ;
            assert(x != y);
        } else {
            assert(dy < dx);
            assert(dy * p + ry < dx * p) by (nonlinear_arith)
                requires
                    dy < dx,
                    ry < p,
            ;
            assert(x != y);
        }
    }
}

/// Position of the first character of `s` that is not '0' (its length when
/// there is none).
fn skip_zeros(s: &[char]) -> (i: usize)
    requires
        all_digits(s@),
    ensures
        i <= s.len(),
        digits_value(s@.skip(i as int)) == digits_value(s@),
        i < s.len() ==> s@[i as int] != '0',
{
    let mut i: usize = 0;
    assert(s@.skip(0) =~= s@);
    while i < s.len() && s[i] == '0'
        invariant
            i <= s.len(),
            all_digits(s@),
            digits_value(s@.skip(i as int)) == digits_value(s@),
        decreases s.len() - i,
    {
        proof {
            let t = s@.skip(i as int);
            lemma_all_digits_sub(s@, i as int, s@.len() as int);
            assert(t =~= s@.subrange(i as int, s@.len() as int));
            lemma_digits_zero_lead(t);
            assert(t.drop_first() =~= s@.skip(i + 1));
        }
        i = i + 1;
    }
    i
}

/// Compares two digit strings by their values: -1, 0 or 1.
fn numeric_compare(x: &[char], y: &[char]) -> (r: i8)
    requires
        all_digits(x@),
        all_digits(y@),
    ensures
        r as int == sign_order(digits_value(x@) as int, digits_value(y@) as int),
{
    let i = skip_zeros(x);
    let j = skip_zeros(y);
    let a = crate::text::sub_chars(x, i, x.len());
    let b = crate::text::sub_chars(y, j, y.len());
    proof {
        assert(a@ =~= x@.skip(i as int));
        assert(b@ =~= y@.skip(j as int));
        lemma_all_digits_sub(x@, i as int, x@.len() as int);
        lemma_all_digits_sub(y@, j as int, y@.len() as int);
        lemma_digits_below_pow(a@);
        lemma_digits_below_pow(b@);
    }
    if a.len() < b.len() {
        proof {
            lemma_digits_lead(b@);
            lemma_pow10_mono(a@.len(), (b@.len() - 1) as nat);
        }
        -1
    } else if b.len() < a.len() {
        proof {
            lemma_digits_lead(a@);
            lemma_pow10_mono(b@.len(), (a@.len() - 1) as nat);
        }
        1
    } else {
        proof {
            lemma_digits_same_len(a@, b@);
            lemma_digits_same_len(b@, a@);
        }
        if chars_less(a.as_slice(), b.as_slice()) {
            -1
        } else if chars_less(b.as_slice(), a.as_slice()) {
            1
        } else {
            proof {
                lemma_chars_lt_total(a@, b@);
            }
            0
        }
    }
}

/// Whether `s` is a non-empty run of ASCII digits.
fn is_numeric_ident(s: &[char]) -> (r: bool)
    ensures
        r == numeric_ident(s@),
{
    if s.len() == 0 {
        return false;
    }
    let mut i: usize = 0;
    while i < s.len()
        invariant
            i <= s.len(),
            forall|k: int| 0 <= k < i ==> is_digit(#[trigger] s@[k]),
        decreases s.len() - i,
    {
        if !('0' <= s[i] && s[i] <= '9') {
            assert(!is_digit(s@[i as int]));
            return false;
        }
        i = i + 1;
    }
    true
}

/// Semver order of two pre-release identifiers (see `ident_order`).
fn ident_compare(x: &[char], y: &[char]) -> (r: i8)
    ensures
        r as int == ident_order(x@, y@),
{
    let nx = is_numeric_ident(x);
    let ny = is_numeric_ident(y);
    if nx && ny {
        numeric_compare(x, y)
    } else if nx {
        -1
    } else if ny {
        1
    } else if chars_less(x, y) {
        proof {
            lemma_chars_lt_irreflexive(x@);
        }
        -1
    } else if chars_less(y, x) {
        proof {
            lemma_chars_lt_irreflexive(y@);
        }
        1
    } else {
        proof {
            lemma_chars_lt_total(x@, y@);
        }
        0
    }
}

/// Semver order of two pre-release tags (see `pre_tag_order`).
fn tag_compare(x: &[char], y: &[char]) -> (r: i8)
    ensures
        r as int == pre_tag_order(x@, y@),
{
    let xs = crate::text::split_chars(x, '.');
    let ys = crate::text::split_chars(y, '.');
    let ghost vx = pieces_view(xs@);
    let ghost vy = pieces_view(ys@);
    let mut k: usize = 0;
    assert(vx.skip(0) =~= vx);
    assert(vy.skip(0) =~= vy);
    while k < xs.len() && k < ys.len()
        invariant
            k <= xs.len(),
            k <= ys.len(),
            vx == pieces_view(xs@),
            vy == pieces_view(ys@),
            vx == split_on(x@, '.'),
            vy == split_on(y@, '.'),
            vx.len() == xs.len(),
            vy.len() == ys.len(),
            idents_order(vx, vy) == idents_order(vx.skip(k as int), vy.skip(k as int)),
        decreases xs.len() - k,
    {
        let c = ident_compare(xs[k].as_slice(), ys[k].as_slice());
        proof {
            assert(vx.skip(k as int)[0] == xs@[k as int]@);
            assert(vy.skip(k as int)[0] == ys@[k as int]@);
            assert(vx.skip(k as int).drop_first() =~= vx.skip(k + 1));
            assert(vy.skip(k as int).drop_first() =~= vy.skip(k + 1));
        }
        if c != 0 {
            assert(idents_order(vx.skip(k as int), vy.skip(k as int)) == c as int);
            return c;
        }
        k = k + 1;
    }
    if k < xs.len() {
        1
    } else if k < ys.len() {
        -1
    } else {
        0
    }
}

/// The numbers among `pieces`.
fn numeric_parts_of(pieces: &Vec<Vec<char>>) -> (r: Vec<u64>)
    ensures
        r@ == numeric_parts(pieces_view(pieces@)),
{
    let ghost all = pieces_view(pieces@);
    let mut out: Vec<u64> = Vec::new();
    let mut i: usize = 0;
    assert(all.skip(0) =~= all);
    while i < pieces.len()
        invariant
            i <= pieces@.len(),
            all == pieces_view(pieces@),
            numeric_parts(all) == out@ + numeric_parts(all.skip(i as int)),
        decreases pieces.len() - i,
    {
        let ghost before = out@;
        assert(all.skip(i as int).drop_first() =~= all.skip(i + 1));
        assert(all.skip(i as int)[0] == pieces@[i as int]@);
        match crate::text::parse_u64_chars(pieces[i].as_slice()) {
            Some(v) => {
                out.push(v);
                assert(before + (seq![v] + numeric_parts(all.skip(i + 1))) =~= out@ + numeric_parts(all.skip(i + 1)));
            },
            None => {},
        }
        i = i + 1;
    }
    assert(all.skip(i as int) =~= Seq::<Seq<char>>::empty());
    assert(out@ + Seq::<u64>::empty() =~= out@);
    out
}

fn part_at(parts: &Vec<u64>, i: usize) -> (r: u64)
    ensures
        r == part(parts@, i as int),
{
    if i < parts.len() { parts[i] } else { 0 }
}

/// Parses a version string (see `spec_parse_version`).
fn parse_version(s: &str) -> (v: Version)
    ensures
        v.view() == spec_parse_version(s@),
{
    let chars = chars_of(s);
    let trimmed = crate::text::trim_chars(chars.as_slice());
    let t = crate::text::strip_leading_chars(trimmed.as_slice(), 'v');
    proof {
        crate::text::lemma_first_index(t@, '-');
    }
    let (numeric, pre) = match crate::text::find_char(t.as_slice(), '-') {
        Some(i) => {
            assert(first_index(t@, '-') == Some(i as int));
            proof {
                crate::text::lemma_first_index(t@, '-');
            }
            let tl = t.len();
            assert(i < tl);
            (
                crate::text::sub_chars(t.as_slice(), 0, i),
                Some(crate::text::sub_chars(t.as_slice(), i + 1, tl)),
            )
        },
        None => (crate::text::sub_chars(t.as_slice(), 0, t.len()), None),
    };
    assert(t@.subrange(0, t@.len() as int) =~= t@);
    let pieces = crate::text::split_chars(numeric.as_slice(), '.');
    let parts = numeric_parts_of(&pieces);
    let v = Version {
        major: part_at(&parts, 0),
        minor: part_at(&parts, 1),
        patch: part_at(&parts, 2),
        build: part_at(&parts, 3),
        pre,
    };
    proof {
        let sv = spec_parse_version(s@);
        match first_index(t@, '-') {
            Some(i) => {
                assert(t@.take(i) =~= t@.subrange(0, i));
                assert(t@.skip(i + 1) =~= t@.subrange(i + 1, t@.len() as int));
            },
            None => {},
        }
    }
    v
}

/// Whether `remote` is strictly newer than `local`. Handles semver
/// (1.2.3), semver with a pre-release tag (1.2.3-beta.1) and four-part
/// versions (1.2.3.4); leading 'v's are ignored.
pub fn is_newer_version(local: &str, remote: &str) -> (r: bool)
    ensures
        r == spec_is_newer_version(local@, remote@),
{
    parse_version(remote).is_greater(&parse_version(local))
}

} // verus!

verus! {

pub(crate) proof fn lemma_chars_lt_irreflexive(x: Seq<char>)
    ensures
        !chars_lt(x, x),
    decreases x.len(),
{
    if x.len() > 0 {
        lemma_chars_lt_irreflexive(x.drop_first());
    }
}

pub(crate) proof fn lemma_chars_lt_transitive(x: Seq<char>, y: Seq<char>, z: Seq<char>)
    requires
        chars_lt(x, y),
        chars_lt(y, z),
    ensures
        chars_lt(x, z),
    decreases x.len(),
{
    if x.len() > 0 && y.len() > 0 && z.len() > 0 && x[0] == y[0] && y[0] == z[0] {
        lemma_chars_lt_transitive(x.drop_first(), y.drop_first(), z.drop_first());
    }
}

pub(crate) proof fn lemma_chars_lt_total(x: Seq<char>, y: Seq<char>)
    ensures
        x == y || chars_lt(x, y) || chars_lt(y, x),
    decreases x.len(),
{
    if x.len() > 0 && y.len() > 0 && x[0] == y[0] {
        lemma_chars_lt_total(x.drop_first(), y.drop_first());
        if x.drop_first() == y.drop_first() {
            assert(x =~= seq![x[0]] + x.drop_first());
            assert(y =~= seq![y[0]] + y.drop_first());
        }
    } else if x.len() == 0 && y.len() == 0 {
        assert(x =~= y);
    }
}

pub(crate) proof fn lemma_chars_lt_asym(x: Seq<char>, y: Seq<char>)
    requires
        chars_lt(x, y),
    ensures
        !chars_lt(y, x),
{
    if chars_lt(y, x) {
        lemma_chars_lt_transitive(x, y, x);
        lemma_chars_lt_irreflexive(x);
    }
}

proof fn lemma_ident_antisym(x: Seq<char>, y: Seq<char>)
    ensures
        ident_order(x, y) == -ident_order(y, x),
{
    if !numeric_ident(x) && !numeric_ident(y) && x != y {
        lemma_chars_lt_total(x, y);
        if chars_lt(x, y) {
            lemma_chars_lt_asym(x, y);
        }
    }
}

proof fn lemma_ident_zero_subst(a: Seq<char>, b: Seq<char>, c: Seq<char>)
    requires
        ident_order(a, b) == 0,
    ensures
        ident_order(a, c) == ident_order(b, c),
        ident_order(c, a) == ident_order(c, b),
{
    if !(numeric_ident(a) && numeric_ident(b)) {
        if numeric_ident(a) || numeric_ident(b) {
            lemma_chars_lt_irreflexive(a);
        }
        assert(a == b);
    }
}

proof fn lemma_ident_trans(a: Seq<char>, b: Seq<char>, c: Seq<char>)
    requires
        ident_order(a, b) > 0,
        ident_order(b, c) > 0,
    ensures
        ident_order(a, c) > 0,
{
    if !numeric_ident(a) && !numeric_ident(b) && !numeric_ident(c) {
        lemma_chars_lt_total(a, b);
        lemma_chars_lt_total(b, c);
        lemma_chars_lt_transitive(c, b, a);
        lemma_chars_lt_irreflexive(a);
        lemma_chars_lt_asym(c, a);
    }
}

proof fn lemma_idents_refl(xs: Seq<Seq<char>>)
    ensures
        idents_order(xs, xs) == 0,
    decreases xs.len(),
{
    if xs.len() > 0 {
        assert(ident_order(xs[0], xs[0]) == 0);
        lemma_idents_refl(xs.drop_first());
    }
}

proof fn lemma_idents_antisym(xs: Seq<Seq<char>>, ys: Seq<Seq<char>>)
    ensures
        idents_order(xs, ys) == -idents_order(ys, xs),
    decreases xs.len(),
{
    if xs.len() > 0 && ys.len() > 0 {
        lemma_ident_antisym(xs[0], ys[0]);
        lemma_idents_antisym(xs.drop_first(), ys.drop_first());
    }
}

proof fn lemma_idents_trans(xs: Seq<Seq<char>>, ys: Seq<Seq<char>>, zs: Seq<Seq<char>>)
    requires
        idents_order(xs, ys) > 0,
        idents_order(ys, zs) > 0,
    ensures
        idents_order(xs, zs) > 0,
    decreases xs.len(),
{
    if xs.len() > 0 && ys.len() > 0 && zs.len() > 0 {
        let a = xs[0];
        let b = ys[0];
        let c = zs[0];
        let c1 = ident_order(a, b);
        let c2 = ident_order(b, c);
        if c1 > 0 && c2 > 0 {
            lemma_ident_trans(a, b, c);
        } else if c1 > 0 && c2 == 0 {
            lemma_ident_zero_subst(b, c, a);
        } else if c1 == 0 && c2 > 0 {
            lemma_ident_zero_subst(a, b, c);
        } else if c1 == 0 && c2 == 0 {
            lemma_ident_zero_subst(a, b, c);
            lemma_idents_trans(xs.drop_first(), ys.drop_first(), zs.drop_first());
        }
    }
}

/// No version is newer than itself.
pub proof fn law_newer_irreflexive(v: Seq<char>)
    ensures
        !spec_is_newer_version(v, v),
{
    let p = spec_parse_version(v);
    if p.pre is Some {
        lemma_idents_refl(split_on(p.pre->0, '.'));
    }
}

/// "Newer than" is asymmetric: of two versions at most one is newer.
pub proof fn law_newer_asymmetric(a: Seq<char>, b: Seq<char>)
    ensures
        !(spec_is_newer_version(a, b) && spec_is_newer_version(b, a)),
{
    let pa = spec_parse_version(a);
    let pb = spec_parse_version(b);
    if pa.pre is Some && pb.pre is Some {
        lemma_idents_antisym(split_on(pa.pre->0, '.'), split_on(pb.pre->0, '.'));
    }
}

/// "Newer than" is transitive.
pub proof fn law_newer_transitive(a: Seq<char>, b: Seq<char>, c: Seq<char>)
    requires
        spec_is_newer_version(a, b),
        spec_is_newer_version(b, c),
    ensures
        spec_is_newer_version(a, c),
{
    let pa = spec_parse_version(a);
    let pb = spec_parse_version(b);
    let pc = spec_parse_version(c);
    if pa.major == pc.major && pa.minor == pc.minor && pa.patch == pc.patch && pa.build == pc.build
        && pa.pre is Some && pb.pre is Some && pc.pre is Some {
        lemma_idents_trans(split_on(pc.pre->0, '.'), split_on(pb.pre->0, '.'), split_on(pa.pre->0, '.'));
    }
}

/// Two parsed versions are the same version: equal numeric parts, and both
/// releases or both pre-releases whose tags semver ranks equal.
pub open spec fn same_version(a: VersionSpec, b: VersionSpec) -> bool {
    &&& a.major == b.major
    &&& a.minor == b.minor
    &&& a.patch == b.patch
    &&& a.build == b.build
    &&& match (a.pre, b.pre) {
        (None, None) => true,
        (Some(x), Some(y)) => pre_tag_order(x, y) == 0,
        _ => false,
    }
}

/// Two version strings either denote the same version, or one of them is newer.
pub proof fn law_newer_total(a: Seq<char>, b: Seq<char>)
    ensures
        same_version(spec_parse_version(a), spec_parse_version(b)) || spec_is_newer_version(a, b)
            || spec_is_newer_version(b, a),
{
    let pa = spec_parse_version(a);
    let pb = spec_parse_version(b);
    if pa.pre is Some && pb.pre is Some {
        lemma_idents_antisym(split_on(pa.pre->0, '.'), split_on(pb.pre->0, '.'));
    }
}

proof fn lemma_trim_end_prepend(c: char, a: Seq<char>)
    requires
        !is_whitespace(c),
    ensures
        trim_end(seq![c] + a) == seq![c] + trim_end(a),
    decreases a.len(),
{
    let s = seq![c] + a;
    if a.len() > 0 {
        assert(s.last() == a.last());
        if is_whitespace(a.last()) {
            assert(s.drop_last() =~= seq![c] + a.drop_last());
            lemma_trim_end_prepend(c, a.drop_last());
        }
    } else {
        assert(s.last() == c);
        assert(a =~= Seq::<char>::empty());
    }
}

/// A version string reads the same with a leading 'v' before it (as long as
/// it does not begin with whitespace, which the 'v' would then shield from
/// trimming).
proof fn lemma_leading_v(a: Seq<char>)
    requires
        a.len() == 0 || !is_whitespace(a[0]),
    ensures
        spec_parse_version(seq!['v'] + a) == spec_parse_version(a),
{
    let va = seq!['v'] + a;
    assert(!is_whitespace('v'));
    assert(trim_start(va) == va);
    assert(trim_start(a) == a);
    lemma_trim_end_prepend('v', a);
    let t = trim(a);
    assert(trim(va) == seq!['v'] + t);
    assert((seq!['v'] + t).drop_first() =~= t);
    assert(strip_leading(seq!['v'] + t, 'v') == strip_leading(t, 'v'));
}

/// A leading 'v' on either version string does not change which is newer.
pub proof fn law_leading_v_ignored(a: Seq<char>, b: Seq<char>)
    requires
        a.len() == 0 || !is_whitespace(a[0]),
        b.len() == 0 || !is_whitespace(b[0]),
    ensures
        spec_is_newer_version(seq!['v'] + a, b) == spec_is_newer_version(a, b),
        spec_is_newer_version(a, seq!['v'] + b) == spec_is_newer_version(a, b),
{
    lemma_leading_v(a);
    lemma_leading_v(b);
}

} // verus!

verus! {

/// The name a catalogue mod is sorted by: its latest version's name.
pub open spec fn sort_name(m: crate::models::Mod) -> Seq<char> {
    match crate::install::latest_version(m) {
        Some(v) => v.name@,
        None => Seq::empty(),
    }
}

/// `a` sorts before `b`: by category, then by name.
pub open spec fn mod_before(a: crate::models::Mod, b: crate::models::Mod) -> bool {
    let ca = crate::models::spec_display_category(a.category);
    let cb = crate::models::spec_display_category(b.category);
    chars_lt(ca, cb) || (ca == cb && chars_lt(sort_name(a), sort_name(b)))
}

/// `q` with `m` put after every mod that does not sort after it.
pub open spec fn insert_mod(q: Seq<crate::models::Mod>, m: crate::models::Mod) -> Seq<crate::models::Mod>
    decreases q.len(),
{
    if q.len() == 0 {
        seq![m]
    } else if mod_before(m, q[0]) {
        seq![m] + q
    } else {
        seq![q[0]] + insert_mod(q.drop_first(), m)
    }
}

/// The catalogue in its listing order: by category, then by name, mods with
/// equal keys keeping their order (a stable sort).
pub open spec fn sorted_catalogue(ms: Seq<crate::models::Mod>) -> Seq<crate::models::Mod>
    decreases ms.len(),
{
    if ms.len() == 0 {
        Seq::empty()
    } else {
        insert_mod(sorted_catalogue(ms.drop_last()), ms.last())
    }
}

fn name_chars(m: &crate::models::Mod) -> (r: Vec<char>)
    ensures
        r@ == sort_name(*m),
{
    if m.versions.len() > 0 {
        chars_of(m.versions[0].name.as_str())
    } else {
        Vec::new()
    }
}

fn mod_less(a: &crate::models::Mod, b: &crate::models::Mod) -> (r: bool)
    ensures
        r == mod_before(*a, *b),
{
    let ca = a.display_category();
    let cb = b.display_category();
    let cac = chars_of(ca.as_str());
    let cbc = chars_of(cb.as_str());
    if chars_less(cac.as_slice(), cbc.as_slice()) {
        return true;
    }
    if !crate::text::str_eq(ca.as_str(), cb.as_str()) {
        return false;
    }
    let na = name_chars(a);
    let nb = name_chars(b);
    chars_less(na.as_slice(), nb.as_slice())
}

fn insert_mod_vec(q: &mut Vec<crate::models::Mod>, m: crate::models::Mod)
    ensures
        final(q)@ == insert_mod(old(q)@, m),
{
    let ghost q0 = q@;
    let mut j: usize = 0;
    assert(q0.skip(0) =~= q0);
    assert(q0.take(0) + insert_mod(q0.skip(0), m) =~= insert_mod(q0, m));
    while j < q.len()
        invariant
            j <= q@.len(),
            q0 == q@,
            q0 == old(q)@,
            insert_mod(q0, m) == q0.take(j as int) + insert_mod(q0.skip(j as int), m),
        decreases q.len() - j,
    {
        assert(q0.skip(j as int)[0] == q@[j as int]);
        assert(q0.skip(j as int).drop_first() =~= q0.skip(j + 1));
        if mod_less(&m, &q[j]) {
            q.insert(j, m);
            assert(q@ =~= q0.take(j as int) + (seq![m] + q0.skip(j as int)));
            return ;
        }
        assert(q0.take(j as int) + (seq![q0[j as int]] + insert_mod(q0.skip(j + 1), m)) =~= q0.take(j + 1)
            + insert_mod(q0.skip(j + 1), m));
        j = j + 1;
    }
    q.push(m);
    assert(q0.skip(j as int) =~= Seq::<crate::models::Mod>::empty());
    assert(q@ =~= q0.take(j as int) + seq![m]);
}

/// Orders the catalogue as the API listing is shown: by category, then by
/// the latest version's name, keeping the given order between equal keys.
pub fn sort_catalogue(mods: Vec<crate::models::Mod>) -> (r: Vec<crate::models::Mod>)
    ensures
        r@ == sorted_catalogue(mods@),
{
    let ghost orig = mods@;
    let mut rest = mods;
    let mut out: Vec<crate::models::Mod> = Vec::new();
    while rest.len() > 0
        invariant
            out@ == sorted_catalogue(orig.take(orig.len() - rest@.len())),
            rest@ == orig.skip(orig.len() - rest@.len()),
            rest@.len() <= orig.len(),
        decreases rest.len(),
    {
        let ghost k: int = orig.len() - rest@.len();
        let m = rest.remove(0);
        assert(m == orig[k]);
        assert(rest@ =~= orig.skip(k + 1));
        assert(orig.take(k + 1).drop_last() =~= orig.take(k));
        insert_mod_vec(&mut out, m);
    }
    assert(orig.take(orig.len() as int) =~= orig);
    out
}

} // verus!

verus! {

proof fn lemma_mod_before_irreflexive(a: crate::models::Mod)
    ensures
        !mod_before(a, a),
{
    lemma_chars_lt_irreflexive(crate::models::spec_display_category(a.category));
    lemma_chars_lt_irreflexive(sort_name(a));
}

proof fn lemma_mod_before_transitive(a: crate::models::Mod, b: crate::models::Mod, c: crate::models::Mod)
    requires
        mod_before(a, b),
        mod_before(b, c),
    ensures
        mod_before(a, c),
{
    let ca = crate::models::spec_display_category(a.category);
    let cb = crate::models::spec_display_category(b.category);
    let cc = crate::models::spec_display_category(c.category);
    if chars_lt(ca, cb) && chars_lt(cb, cc) {
        lemma_chars_lt_transitive(ca, cb, cc);
    } else if !chars_lt(ca, cb) && !chars_lt(cb, cc) {
        lemma_chars_lt_transitive(sort_name(a), sort_name(b), sort_name(c));
    }
}

/// No mod sorts before an earlier one.
pub open spec fn catalogue_ordered(s: Seq<crate::models::Mod>) -> bool {
    forall|i: int, j: int| 0 <= i < j < s.len() ==> !mod_before(#[trigger] s[j], #[trigger] s[i])
}

proof fn lemma_insert_mod(q: Seq<crate::models::Mod>, m: crate::models::Mod)
    requires
        catalogue_ordered(q),
    ensures
        exists|i: int| 0 <= i <= q.len() && insert_mod(q, m) == q.insert(i, m),
        catalogue_ordered(insert_mod(q, m)),
    decreases q.len(),
{
    if q.len() == 0 {
        assert(insert_mod(q, m) =~= q.insert(0, m));
    } else if mod_before(m, q[0]) {
        let r = insert_mod(q, m);
        assert(r =~= q.insert(0, m));
        assert forall|i: int, j: int| 0 <= i < j < r.len() implies !mod_before(#[trigger] r[j], #[trigger] r[i]) by {
            if i == 0 {
                assert(r[j] == q[j - 1]);
                if mod_before(q[j - 1], m) {
                    lemma_mod_before_transitive(q[j - 1], m, q[0]);
                    if j - 1 == 0 {
                        lemma_mod_before_irreflexive(q[0]);
                    } else {
                        assert(!mod_before(q[j - 1], q[0]));
                    }
                }
            } else {
                assert(r[i] == q[i - 1] && r[j] == q[j - 1]);
            }
        }
    } else {
        let rest = q.drop_first();
        assert(catalogue_ordered(rest)) by {
            assert forall|i: int, j: int| 0 <= i < j < rest.len() implies !mod_before(#[trigger] rest[j], #[trigger] rest[i]) by {
                assert(rest[i] == q[i + 1] && rest[j] == q[j + 1]);
            }
        }
        lemma_insert_mod(rest, m);
        let t = insert_mod(rest, m);
        let k = choose|k: int| 0 <= k <= rest.len() && t == rest.insert(k, m);
        let r = insert_mod(q, m);
        assert(r == seq![q[0]] + t);
        assert(r =~= q.insert(k + 1, m));
        assert forall|i: int, j: int| 0 <= i < j < r.len() implies !mod_before(#[trigger] r[j], #[trigger] r[i]) by {
            if i == 0 {
                assert(r[j] == t[j - 1]);
                if j - 1 < k {
                    assert(t[j - 1] == rest[j - 1]);
                    assert(rest[j - 1] == q[j]);
                } else if j - 1 > k {
                    assert(t[j - 1] == rest[j - 2]);
                    assert(rest[j - 2] == q[j - 1]);
                }
            } else {
                assert(r[i] == t[i - 1] && r[j] == t[j - 1]);
            }
        }
    }
}

/// The catalogue is listed in order (by category, then name) and holds
/// exactly the mods it was given, each as often as given.
pub proof fn law_catalogue_sorted(ms: Seq<crate::models::Mod>)
    ensures
        catalogue_ordered(sorted_catalogue(ms)),
        sorted_catalogue(ms).to_multiset() == ms.to_multiset(),
    decreases ms.len(),
{
    broadcast use vstd::seq_lib::to_multiset_insert, vstd::seq_lib::to_multiset_build;

    if ms.len() == 0 {
        assert(sorted_catalogue(ms) =~= ms);
    } else {
        law_catalogue_sorted(ms.drop_last());
        let prev = sorted_catalogue(ms.drop_last());
        lemma_insert_mod(prev, ms.last());
        let k = choose|k: int| 0 <= k <= prev.len() && insert_mod(prev, ms.last()) == prev.insert(k, ms.last());
        assert(prev.insert(k, ms.last()).to_multiset() == prev.to_multiset().insert(ms.last()));
        assert(ms.drop_last().push(ms.last()) =~= ms);
        assert(ms.drop_last().push(ms.last()).to_multiset() =~= ms.drop_last().to_multiset().insert(ms.last()));
    }
}

} // verus!

verus! {

/// A version number written as decimal digits that fits in 64 bits.
pub open spec fn plain_number(s: Seq<char>) -> bool {
    s.len() > 0 && all_digits(s) && digits_value(s) <= u64::MAX
}

proof fn lemma_first_index_after(a: Seq<char>, c: char, r: Seq<char>)
    requires
        forall|i: int| 0 <= i < a.len() ==> a[i] != c,
    ensures
        first_index(a + seq![c] + r, c) == Some(a.len() as int),
    decreases a.len(),
{
    let s = a + seq![c] + r;
    if a.len() > 0 {
        assert(s[0] == a[0]);
        assert(s.drop_first() =~= a.drop_first() + seq![c] + r);
        lemma_first_index_after(a.drop_first(), c, r);
    } else {
        assert(s[0] == c);
    }
}

proof fn lemma_no_char(a: Seq<char>, c: char)
    requires
        forall|i: int| 0 <= i < a.len() ==> a[i] != c,
    ensures
        first_index(a, c) is None,
{
    crate::text::lemma_first_index(a, c);
}

proof fn lemma_split_after(a: Seq<char>, r: Seq<char>)
    requires
        forall|i: int| 0 <= i < a.len() ==> a[i] != '.',
    ensures
        split_on(a + seq!['.'] + r, '.') == seq![a] + split_on(r, '.'),
{
    let s = a + seq!['.'] + r;
    lemma_first_index_after(a, '.', r);
    assert(s.take(a.len() as int) =~= a);
    assert(s.skip(a.len() as int + 1) =~= r);
}

proof fn lemma_parse_plain(a: Seq<char>)
    requires
        plain_number(a),
    ensures
        parse_u64(a) == Some(digits_value(a) as u64),
        forall|i: int| 0 <= i < a.len() ==> a[i] != '.' && a[i] != '-',
{
    assert(is_digit(a[0]));
    assert forall|i: int| 0 <= i < a.len() implies a[i] != '.' && a[i] != '-' by {
        assert(is_digit(a[i]));
    }
}

/// The version written "a.b.c" with plain numbers reads as major a, minor b,
/// patch c, no fourth number and no pre-release tag.
proof fn lemma_parse_dotted(a: Seq<char>, b: Seq<char>, c: Seq<char>)
    requires
        plain_number(a),
        plain_number(b),
        plain_number(c),
    ensures
        spec_parse_version(a + seq!['.'] + b + seq!['.'] + c) == (VersionSpec {
            major: digits_value(a) as u64,
            minor: digits_value(b) as u64,
            patch: digits_value(c) as u64,
            build: 0,
            pre: None,
        }),
{
    lemma_parse_plain(a);
    lemma_parse_plain(b);
    lemma_parse_plain(c);
    let bc = b + seq!['.'] + c;
    let s = a + seq!['.'] + bc;
    assert(a + seq!['.'] + b + seq!['.'] + c =~= s);
    assert(is_digit(s[0]));
    assert(!is_whitespace(s[0]));
    assert(s.last() == c.last());
    assert(is_digit(c[c.len() - 1]));
    assert(!is_whitespace(s.last()));
    assert(trim_start(s) == s);
    assert(trim_end(s) == s);
    assert(trim(s) == s);
    assert(strip_leading(s, 'v') == s);
    assert forall|i: int| 0 <= i < s.len() implies s[i] != '-' by {
        if i < a.len() {
            assert(s[i] == a[i]);
        } else if i == a.len() {
        } else if i < a.len() + 1 + b.len() {
            assert(s[i] == b[i - a.len() - 1]);
        } else if i == a.len() + 1 + b.len() {
        } else {
            assert(s[i] == c[i - a.len() - 2 - b.len()]);
        }
    }
    lemma_no_char(s, '-');
    lemma_dotted_parts(a, b, c);
}

/// The numbers of "a.b.c" are a, b and c.
proof fn lemma_dotted_parts(a: Seq<char>, b: Seq<char>, c: Seq<char>)
    requires
        plain_number(a),
        plain_number(b),
        plain_number(c),
    ensures
        numeric_parts(split_on(a + seq!['.'] + b + seq!['.'] + c, '.'))
            == seq![digits_value(a) as u64, digits_value(b) as u64, digits_value(c) as u64],
{
    lemma_parse_plain(a);
    lemma_parse_plain(b);
    lemma_parse_plain(c);
    let bc = b + seq!['.'] + c;
    let s = a + seq!['.'] + bc;
    assert(a + seq!['.'] + b + seq!['.'] + c =~= s);
    lemma_split_after(a, bc);
    lemma_split_after(b, c);
    lemma_no_char(c, '.');
    assert(split_on(c, '.') == seq![c]);
    let pieces = split_on(s, '.');
    assert(pieces =~= seq![a, b, c]);
    assert(pieces.drop_first() =~= seq![b, c]);
    assert(pieces.drop_first().drop_first() =~= seq![c]);
    assert(pieces.drop_first().drop_first().drop_first() =~= Seq::<Seq<char>>::empty());
    let va = digits_value(a) as u64;
    let vb = digits_value(b) as u64;
    let vc = digits_value(c) as u64;
    let p3 = pieces.drop_first().drop_first();
    let p2 = pieces.drop_first();
    assert(p3[0] == c && p2[0] == b && pieces[0] == a);
    assert(numeric_parts(p3.drop_first()) =~= Seq::<u64>::empty());
    assert(numeric_parts(p3) == seq![vc] + numeric_parts(p3.drop_first()));
    assert(numeric_parts(p3) =~= seq![vc]);
    assert(numeric_parts(p2) == seq![vb] + numeric_parts(p3));
    assert(numeric_parts(pieces) == seq![va] + numeric_parts(p2));
    assert(numeric_parts(pieces) =~= seq![va, vb, vc]);
}

/// For versions written "a.b.c" with plain numbers, one is newer than another
/// exactly when its (major, minor, patch) triple is greater in lexicographic
/// order: the first number decides, then the second, then the third.
pub proof fn law_dotted_version_order(
    a: Seq<char>,
    b: Seq<char>,
    c: Seq<char>,
    x: Seq<char>,
    y: Seq<char>,
    z: Seq<char>,
)
    requires
        plain_number(a),
        plain_number(b),
        plain_number(c),
        plain_number(x),
        plain_number(y),
        plain_number(z),
    ensures
        spec_is_newer_version(a + seq!['.'] + b + seq!['.'] + c, x + seq!['.'] + y + seq!['.'] + z) <==> (
        digits_value(x) > digits_value(a) || (digits_value(x) == digits_value(a) && (digits_value(y) > digits_value(b)
            || (digits_value(y) == digits_value(b) && digits_value(z) > digits_value(c))))),
{
    lemma_parse_dotted(a, b, c);
    lemma_parse_dotted(x, y, z);
}

} // verus!

verus! {

/// A release is newer than any pre-release of the same version: "a.b.c" is
/// newer than "a.b.c-tag", and never the other way round.
pub proof fn law_release_beats_prerelease(a: Seq<char>, b: Seq<char>, c: Seq<char>, tag: Seq<char>)
    requires
        plain_number(a),
        plain_number(b),
        plain_number(c),
        tag.len() > 0,
        !is_whitespace(tag.last()),
    ensures
        spec_is_newer_version(
            a + seq!['.'] + b + seq!['.'] + c + seq!['-'] + tag,
            a + seq!['.'] + b + seq!['.'] + c,
        ),
        !spec_is_newer_version(
            a + seq!['.'] + b + seq!['.'] + c,
            a + seq!['.'] + b + seq!['.'] + c + seq!['-'] + tag,
        ),
{
    let abc = a + seq!['.'] + b + seq!['.'] + c;
    let s = abc + seq!['-'] + tag;
    lemma_parse_dotted(a, b, c);
    lemma_parse_plain(a);
    lemma_parse_plain(b);
    lemma_parse_plain(c);
    assert forall|i: int| 0 <= i < abc.len() implies abc[i] != '-' by {
        if i < a.len() {
            assert(abc[i] == a[i]);
        } else if i == a.len() {
        } else if i < a.len() + 1 + b.len() {
            assert(abc[i] == b[i - a.len() - 1]);
        } else if i == a.len() + 1 + b.len() {
        } else {
            assert(abc[i] == c[i - a.len() - 2 - b.len()]);
        }
    }
    assert(s[0] == a[0]);
    assert(is_digit(a[0]));
    assert(s.last() == tag.last());
    assert(trim_start(s) == s);
    assert(trim_end(s) == s);
    assert(trim(s) == s);
    assert(strip_leading(s, 'v') == s);
    lemma_first_index_after(abc, '-', tag);
    assert(s.take(abc.len() as int) =~= abc);
    assert(s.skip(abc.len() as int + 1) =~= tag);
    lemma_dotted_parts(a, b, c);
}

} // verus!
