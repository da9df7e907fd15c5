//! MelonLoader log analysis: reads the text of `MelonLoader/Latest.log` and
//! produces a structured report with categorised findings.

use vstd::prelude::*;
use crate::text::{
    all_digits, chars_contain, chars_match_at, chars_of, chars_starts_with, contains_seq,
    digits_value, extract_quoted, extract_quoted_chars, find_char, find_chars_from,
    find_seq_from, first_index, first_word, first_word_chars, is_digit, lemma_find_seq_from,
    lemma_first_index, parse_u64, parse_u64_chars, piece_after, piece_after_chars,
    piece_after_last, piece_after_last_chars, piece_before, piece_before_chars, remove_all,
    remove_all_chars, replace_char, replace_char_chars, starts_with, strip_leading,
    strip_leading_chars, strip_leading_space_dash, strip_leading_space_dash_chars,
    strip_trailing, strip_trailing_chars, string_from_chars, sub_chars, to_lowercase, trim,
    trim_chars, unicode_lowercase,
};

verus! {

/// Number of bytes that `c` takes in UTF-8.
pub open spec fn utf8_width(c: char) -> nat {
    if (c as u32) < 0x80 {
        1
    } else if (c as u32) < 0x800 {
        2
    } else if (c as u32) < 0x10000 {
        3
    } else {
        4
    }
}

/// Length in bytes of the UTF-8 encoding of `s` (what `str::len` gives).
pub open spec fn utf8_len(s: Seq<char>) -> nat
    decreases s.len(),
{
    if s.len() == 0 {
        0
    } else {
        utf8_len(s.drop_last()) + utf8_width(s.last())
    }
}

/// Whether the UTF-8 encoding of `s` is longer than `limit` bytes.
pub(crate) fn utf8_len_exceeds(s: &[char], limit: usize) -> (r: bool)
    requires
        limit < usize::MAX - 4,
    ensures
        r == (utf8_len(s@) > limit),
{
    let mut total: usize = 0;
    let mut i: usize = 0;
    while i < s.len()
        invariant
            i <= s@.len(),
            total == utf8_len(s@.take(i as int)),
            total <= limit,
            limit < usize::MAX - 4,
        decreases s.len() - i,
    {
        let c = s[i];
        let w: usize = if (c as u32) < 0x80 {
            1
        } else if (c as u32) < 0x800 {
            2
        } else if (c as u32) < 0x10000 {
            3
        } else {
            4
        };
        assert(s@.take(i + 1).drop_last() =~= s@.take(i as int));
        total = total + w;
        i = i + 1;
        if total > limit {
            proof {
                lemma_utf8_len_prefix(s@, i as int);
            }
            return true;
        }
    }
    assert(s@.take(i as int) =~= s@);
    false
}

proof fn lemma_utf8_len_prefix(s: Seq<char>, i: int)
    requires
        0 <= i <= s.len(),
    ensures
        utf8_len(s.take(i)) <= utf8_len(s),
    decreases s.len() - i,
{
    if i < s.len() {
        lemma_utf8_len_prefix(s, i + 1);
        assert(s.take(i + 1).drop_last() =~= s.take(i));
    } else {
        assert(s.take(i) =~= s);
    }
}

/// `s` without one trailing carriage return.
pub open spec fn strip_one_cr(s: Seq<char>) -> Seq<char> {
    if s.len() > 0 && s.last() == '\r' {
        s.drop_last()
    } else {
        s
    }
}

/// The lines of `s` as `str::lines` yields them: split at `\n`, a `\r` just
/// before a `\n` dropped, and no empty line after a final `\n`.
pub open spec fn std_lines(s: Seq<char>) -> Seq<Seq<char>>
    decreases s.len(),
{
    if s.len() == 0 {
        Seq::empty()
    } else {
        match first_index(s, '\n') {
            None => seq![s],
            Some(i) => if 0 <= i < s.len() {
                seq![strip_one_cr(s.take(i))] + std_lines(s.skip(i + 1))
            } else {
                seq![s]
            },
        }
    }
}

/// The lines of `s`, as `str::lines` yields them.
fn split_lines(s: &[char]) -> (r: Vec<Vec<char>>)
    ensures
        crate::text::pieces_view(r@) == std_lines(s@),
{
    let mut out: Vec<Vec<char>> = Vec::new();
    let mut start: usize = 0;
    assert(s@.skip(0) =~= s@);
    loop
        invariant_except_break
            start <= s@.len(),
            std_lines(s@) == crate::text::pieces_view(out@) + std_lines(s@.skip(start as int)),
        ensures
            std_lines(s@) == crate::text::pieces_view(out@),
        decreases s@.len() - start,
    {
        let ghost before = out@;
        if start == s.len() {
            assert(s@.skip(start as int).len() == 0);
            assert(crate::text::pieces_view(before) + Seq::<Seq<char>>::empty() =~= crate::text::pieces_view(before));
            break;
        }
        let rest = sub_chars(s, start, s.len());
        assert(rest@ =~= s@.skip(start as int));
        proof {
            lemma_first_index(rest@, '\n');
        }
        match find_char(rest.as_slice(), '\n') {
            None => {
                out.push(rest);
                assert(crate::text::pieces_view(out@) =~= crate::text::pieces_view(before) + std_lines(s@.skip(start as int)));
                break;
            },
            Some(i) => {
                let mut end = start + i;
                if end > start && s[end - 1] == '\r' {
                    end = end - 1;
                }
                let piece = sub_chars(s, start, end);
                assert(piece@ =~= strip_one_cr(rest@.take(i as int)));
                assert(rest@.skip(i + 1) =~= s@.skip(start + i + 1));
                out.push(piece);
                assert(crate::text::pieces_view(out@) =~= crate::text::pieces_view(before).push(piece@));
                assert(crate::text::pieces_view(before) + std_lines(rest@) =~= crate::text::pieces_view(out@)
                    + std_lines(rest@.skip(i + 1)));
                start = start + i + 1;
            },
        }
    }
    out
}

/// `line` without its leading `[timestamp]` and the spaces after it.
pub open spec fn strip_ts(line: Seq<char>) -> Seq<char> {
    if !(line.len() > 0 && line[0] == '[') {
        line
    } else {
        match first_index(line, ']') {
            Some(close) => strip_leading(line.skip(close + 1), ' '),
            None => line,
        }
    }
}

fn strip_ts_chars(line: &[char]) -> (r: Vec<char>)
    ensures
        r@ == strip_ts(line@),
{
    if !(line.len() > 0 && line[0] == '[') {
        return sub_chars(line, 0, line.len());
    }
    proof {
        lemma_first_index(line@, ']');
    }
    match find_char(line, ']') {
        Some(close) => {
            let rest = sub_chars(line, close + 1, line.len());
            assert(rest@ =~= line@.skip(close + 1));
            strip_leading_chars(rest.as_slice(), ' ')
        },
        None => sub_chars(line, 0, line.len()),
    }
}

/// The text after the first occurrence of `p` in `s`, up to the next one
/// (`split(p).nth(1)`); `None` when `p` does not occur.
pub open spec fn piece_after_seq(s: Seq<char>, p: Seq<char>) -> Option<Seq<char>> {
    match find_seq_from(s, p, 0) {
        None => None,
        Some(i) => {
            let rest = s.skip(i + p.len());
            Some(
                match find_seq_from(rest, p, 0) {
                    Some(j) => rest.take(j),
                    None => rest,
                },
            )
        },
    }
}

/// `piece_after_seq`, or nothing.
pub open spec fn piece_after_seq_or_empty(s: Seq<char>, p: Seq<char>) -> Seq<char> {
    match piece_after_seq(s, p) {
        Some(x) => x,
        None => Seq::empty(),
    }
}

fn piece_after_seq_chars(s: &[char], p: &[char]) -> (r: Vec<char>)
    ensures
        r@ == piece_after_seq_or_empty(s@, p@),
{
    proof {
        lemma_find_seq_from(s@, p@, 0);
    }
    match find_chars_from(s, p, 0) {
        None => Vec::new(),
        Some(i) => {
            assert(i + p@.len() <= s@.len());
            let n = s.len();
            let start: usize = i + p.len();
            let rest = sub_chars(s, start, n);
            assert(rest@ =~= s@.skip(i + p@.len()));
            proof {
                lemma_find_seq_from(rest@, p@, 0);
            }
            match find_chars_from(rest.as_slice(), p, 0) {
                Some(j) => {
                    let r = sub_chars(rest.as_slice(), 0, j);
                    assert(r@ =~= rest@.take(j as int));
                    r
                },
                None => rest,
            }
        },
    }
}

/// What `i32::from_str` accepts: an optional sign, then one or more ASCII
/// digits whose value fits in 32 bits.
pub open spec fn parse_i32(p: Seq<char>) -> Option<i32> {
    if p.len() > 0 && p[0] == '-' {
        let d = p.drop_first();
        if d.len() > 0 && all_digits(d) && digits_value(d) <= 0x8000_0000 {
            Some((0 - digits_value(d)) as i32)
        } else {
            None
        }
    } else {
        let d = if p.len() > 0 && p[0] == '+' {
            p.drop_first()
        } else {
            p
        };
        if d.len() > 0 && all_digits(d) && digits_value(d) <= 0x7fff_ffff {
            Some(digits_value(d) as i32)
        } else {
            None
        }
    }
}

fn parse_i32_chars(p: &[char]) -> (r: Option<i32>)
    ensures
        r == parse_i32(p@),
{
    if p.len() > 0 && p[0] == '-' {
        let d = sub_chars(p, 1, p.len());
        assert(d@ =~= p@.drop_first());
        if d.len() > 0 && d[0] == '+' {
            assert(!crate::text::is_digit(d@[0]));
            return None;
        }
        assert(crate::text::unsigned_digits(d@) == d@);
        match parse_u64_chars(d.as_slice()) {
            None => None,
            Some(v) => {
                if v <= 0x8000_0000 {
                    let n: i64 = 0 - (v as i64);
                    Some(n as i32)
                } else {
                    None
                }
            },
        }
    } else {
        let start: usize = if p.len() > 0 && p[0] == '+' { 1 } else { 0 };
        let d = sub_chars(p, start, p.len());
        assert(d@ =~= (if p@.len() > 0 && p@[0] == '+' { p@.drop_first() } else { p@ }));
        if d.len() > 0 && d[0] == '+' {
            assert(!crate::text::is_digit(d@[0]));
            return None;
        }
        assert(crate::text::unsigned_digits(d@) == d@);
        match parse_u64_chars(d.as_slice()) {
            None => None,
            Some(v) => {
                if v <= 0x7fff_ffff {
                    Some(v as i32)
                } else {
                    None
                }
            },
        }
    }
}

/// The count of an "N Mods loaded." / "N Plugins loaded." line.
pub open spec fn parse_loaded_count(s: Seq<char>) -> Option<i32> {
    let first = first_word(s);
    if first.len() == 0 {
        None
    } else {
        match parse_i32(first) {
            None => None,
            Some(n) => if contains_seq(s, "Mod"@) || contains_seq(s, "Plugin"@) {
                Some(n)
            } else {
                None
            },
        }
    }
}

/// Whether `s` contains the text of `lit`.
fn contains_lit(s: &[char], lit: &str) -> (r: bool)
    ensures
        r == contains_seq(s@, lit@),
{
    let p = chars_of(lit);
    chars_contain(s, p.as_slice())
}

/// Whether `s` begins with the text of `lit`.
fn begins(s: &[char], lit: &str) -> (r: bool)
    ensures
        r == starts_with(s@, lit@),
{
    let p = chars_of(lit);
    chars_starts_with(s, p.as_slice())
}

fn parse_loaded_count_chars(s: &[char]) -> (r: Option<i32>)
    ensures
        r == parse_loaded_count(s@),
{
    let first = first_word_chars(s);
    if first.len() == 0 {
        return None;
    }
    match parse_i32_chars(first.as_slice()) {
        None => None,
        Some(n) => if contains_lit(s, "Mod") || contains_lit(s, "Plugin") {
            Some(n)
        } else {
            None
        },
    }
}

/// Whether a " v" followed by a digit starts at position `k` of `s`.
pub open spec fn version_mark_at(s: Seq<char>, k: int) -> bool {
    0 <= k && k + 2 < s.len() && s[k] == ' ' && s[k + 1] == 'v' && is_digit(s[k + 2])
}

/// Position of the first " v" that precedes a digit (as in "ModName v1.2.3").
pub open spec fn find_version_split(s: Seq<char>) -> Option<int> {
    if exists|k: int| version_mark_at(s, k) {
        Some(choose|k: int| version_mark_at(s, k) && forall|j: int| 0 <= j < k ==> !version_mark_at(s, j))
    } else {
        None
    }
}

fn find_version_split_chars(s: &[char]) -> (r: Option<usize>)
    ensures
        match r {
            Some(k) => find_version_split(s@) == Some(k as int) && version_mark_at(s@, k as int),
            None => find_version_split(s@) is None,
        },
{
    let mut pos: usize = 0;
    while pos < s.len() && s.len() - pos > 2
        invariant
            pos <= s@.len(),
            forall|j: int| 0 <= j < pos ==> !version_mark_at(s@, j),
        decreases s.len() - pos,
    {
        if s[pos] == ' ' && s[pos + 1] == 'v' && '0' <= s[pos + 2] && s[pos + 2] <= '9' {
            assert(version_mark_at(s@, pos as int));
            let ghost k = choose|k: int| version_mark_at(s@, k) && forall|j: int| 0 <= j < k ==> !version_mark_at(s@, j);
            assert(version_mark_at(s@, pos as int) && forall|j: int| 0 <= j < pos ==> !version_mark_at(s@, j));
            proof {
                if k < pos {
                } else if k > pos {
                }
            }
            assert(k == pos);
            return Some(pos);
        }
        pos = pos + 1;
    }
    assert forall|k: int| !version_mark_at(s@, k) by {
        if version_mark_at(s@, k) {
            assert(k < pos);
        }
    }
    None
}

/// `s` without leading and trailing copies of `c` (`trim_matches(c)`).
pub open spec fn trim_char(s: Seq<char>, c: char) -> Seq<char> {
    strip_trailing(strip_leading(s, c), c)
}

fn trim_char_chars(s: &[char], c: char) -> (r: Vec<char>)
    ensures
        r@ == trim_char(s@, c),
{
    let a = strip_leading_chars(s, c);
    strip_trailing_chars(a.as_slice(), c)
}

/// Unicode lowercase of a character sequence.
fn lowercase_chars(s: &[char]) -> (r: Vec<char>)
    ensures
        r@ == unicode_lowercase(s@),
{
    let st = string_from_chars(s);
    let lower = to_lowercase(st.as_str());
    chars_of(lower.as_str())
}


/// A finished line of the mod listing, as plain text.
#[verifier::ext_equal]
pub struct EntryView {
    pub name: Seq<char>,
    pub version: Option<Seq<char>>,
    pub author: Option<Seq<char>>,
    pub hash: Option<Seq<char>>,
    pub assembly: Option<Seq<char>>,
}

/// Everything the scan has gathered after some lines, as plain text.
#[verifier::ext_equal]
pub struct ScanView {
    pub ml_version: Option<Seq<char>>,
    pub game_name: Option<Seq<char>>,
    pub game_version: Option<Seq<char>>,
    pub game_path: Option<Seq<char>>,
    pub os_type: Option<Seq<char>>,
    pub arch: Option<Seq<char>>,
    pub is_il2cpp: bool,
    pub is_mono: bool,
    pub loaded_mods: Seq<EntryView>,
    pub loaded_plugins: Seq<EntryView>,
    pub type_load_failures: Seq<Seq<char>>,
    pub incompatible_pairs: Seq<Seq<char>>,
    pub mods_erroring: Seq<Seq<char>>,
    pub misplaced_mods: Seq<Seq<char>>,
    pub misplaced_plugs: Seq<Seq<char>>,
    pub missing_deps: Seq<Seq<char>>,
    pub duplicates: Seq<Seq<char>>,
    pub old_mods: Seq<Seq<char>>,
    pub known_errors: Seq<Seq<char>>,
    pub missing_dep_pairs: Seq<(Seq<char>, Seq<char>)>,
    pub listing_plugins: bool,
    pub listing_mods: bool,
    pub pre_listing: bool,
    pub remaining_count: i32,
    pub tmp_name: Option<Seq<char>>,
    pub tmp_version: Option<Seq<char>>,
    pub tmp_author: Option<Seq<char>>,
    pub tmp_hash: Option<Seq<char>>,
    pub tmp_assembly: Option<Seq<char>>,
    pub reading_incompat: bool,
    pub incompat_source: Option<Seq<char>>,
    pub reading_missing_deps: bool,
    pub missing_dep_mod_source: Option<Seq<char>>,
}

/// The state before the first line.
pub open spec fn initial_scan() -> ScanView {
    ScanView {
        ml_version: None,
        game_name: None,
        game_version: None,
        game_path: None,
        os_type: None,
        arch: None,
        is_il2cpp: false,
        is_mono: false,
        loaded_mods: Seq::empty(),
        loaded_plugins: Seq::empty(),
        type_load_failures: Seq::empty(),
        incompatible_pairs: Seq::empty(),
        mods_erroring: Seq::empty(),
        misplaced_mods: Seq::empty(),
        misplaced_plugs: Seq::empty(),
        missing_deps: Seq::empty(),
        duplicates: Seq::empty(),
        old_mods: Seq::empty(),
        known_errors: Seq::empty(),
        missing_dep_pairs: Seq::empty(),
        listing_plugins: false,
        listing_mods: false,
        pre_listing: false,
        remaining_count: 0,
        tmp_name: None,
        tmp_version: None,
        tmp_author: None,
        tmp_hash: None,
        tmp_assembly: None,
        reading_incompat: false,
        incompat_source: None,
        reading_missing_deps: false,
        missing_dep_mod_source: None,
    }
}

/// `l` with `x` appended unless it already holds it.
pub open spec fn add_unique(l: Seq<Seq<char>>, x: Seq<char>) -> Seq<Seq<char>> {
    if l.contains(x) {
        l
    } else {
        l.push(x)
    }
}

/// `s` begins with a single or double quote.
pub open spec fn starts_with_quote(s: Seq<char>) -> bool {
    s.len() > 0 && (s[0] == '\'' || s[0] == '"')
}

pub open spec fn step_ml_version(st: ScanView, cp: Seq<char>) -> ScanView {
    if st.ml_version is None && starts_with(cp, "MelonLoader v"@) {
        let ver = first_word(cp.skip("MelonLoader v"@.len() as int));
        if ver.len() > 0 {
            ScanView { ml_version: Some(ver), ..st }
        } else {
            st
        }
    } else {
        st
    }
}

pub open spec fn step_os_arch(st: ScanView, cp: Seq<char>) -> ScanView {
    let s1 = if starts_with(cp, "OS: "@) {
        ScanView { os_type: Some(trim(cp.skip("OS: "@.len() as int))), ..st }
    } else {
        st
    };
    if starts_with(cp, "Game Arch:"@) {
        ScanView { arch: Some(trim(piece_after_seq_or_empty(cp, "Arch:"@))), ..s1 }
    } else {
        s1
    }
}

pub open spec fn step_game(st: ScanView, cp: Seq<char>) -> ScanView {
    let lc = unicode_lowercase(cp);
    let s1 = if starts_with(cp, "Game Type:"@) {
        ScanView {
            is_il2cpp: st.is_il2cpp || contains_seq(lc, "il2cpp"@),
            is_mono: st.is_mono || contains_seq(lc, "mono"@),
            ..st
        }
    } else {
        st
    };
    let s2 = if starts_with(cp, "Game Name:"@) {
        ScanView { game_name: Some(trim(piece_after_seq_or_empty(cp, "Name:"@))), ..s1 }
    } else {
        s1
    };
    let v = trim(piece_after_seq_or_empty(cp, "Version:"@));
    if starts_with(cp, "Game Version:"@) && v.len() > 0 {
        ScanView { game_version: Some(v), ..s2 }
    } else {
        s2
    }
}

pub open spec fn step_game_path(st: ScanView, cp: Seq<char>) -> ScanView {
    if contains_seq(cp, "Game::BasePath"@) || contains_seq(cp, "Game::ApplicationPath"@) {
        match piece_after(cp, '=') {
            Some(p0) => {
                let p = trim(p0);
                if st.game_path is None && p.len() > 0 {
                    let ke = if p.contains('\'') {
                        st.known_errors.push(
                            "Your game path contains a single-quote (') character which can break MelonLoader."@,
                        )
                    } else {
                        st.known_errors
                    };
                    ScanView { known_errors: ke, game_path: Some(p), ..st }
                } else {
                    st
                }
            },
            None => st,
        }
    } else {
        st
    }
}

pub open spec fn step_security(st: ScanView, line: Seq<char>) -> ScanView {
    if contains_seq(line, "<Transmtn.Get GET api"@) || starts_with(line, "authcookie_"@) {
        ScanView {
            known_errors: st.known_errors.push(
                "\u{26a0} COMPROMISED: Your MelonLoader installation is leaking sensitive credentials. Reinstall MelonLoader immediately."@,
            ),
            ..st
        }
    } else {
        st
    }
}

pub open spec fn step_type_load(st: ScanView, cp: Seq<char>) -> ScanView {
    if starts_with(cp, "Failed to load all types in assembly "@) {
        let name = trim(piece_before(cp.skip("Failed to load all types in assembly "@.len() as int), ','));
        if name.len() > 0 {
            ScanView { type_load_failures: add_unique(st.type_load_failures, name), ..st }
        } else {
            st
        }
    } else {
        st
    }
}

/// Version, system and game facts, the security check and type load failures.
pub open spec fn step_meta(st: ScanView, line: Seq<char>, cp: Seq<char>) -> ScanView {
    step_type_load(
        step_security(step_game_path(step_game(step_os_arch(step_ml_version(st, cp), cp), cp), cp), line),
        cp,
    )
}

/// The block that lists missing dependencies; the flag says the line is used up.
pub open spec fn step_deps_block(st: ScanView, cp: Seq<char>) -> (ScanView, bool) {
    if contains_seq(unicode_lowercase(cp), "some mods are missing dependencies"@) {
        (ScanView { reading_missing_deps: true, ..st }, true)
    } else if st.reading_missing_deps {
        let t = trim(strip_leading_space_dash(cp));
        if starts_with_quote(t) {
            if contains_seq(unicode_lowercase(t), "is missing the following dependencies"@) {
                (ScanView { missing_dep_mod_source: extract_quoted(t), ..st }, true)
            } else {
                match (st.missing_dep_mod_source, extract_quoted(t)) {
                    (Some(src), Some(dep)) => (
                        ScanView { missing_dep_pairs: st.missing_dep_pairs.push((src, dep)), ..st },
                        true,
                    ),
                    _ => (st, true),
                }
            }
        } else if t.len() > 0 && t[0] != '[' {
            (ScanView { reading_missing_deps: false, missing_dep_mod_source: None, ..st }, false)
        } else {
            (st, false)
        }
    } else {
        (st, false)
    }
}

/// The report line for two mods that cannot load together.
pub open spec fn incompat_message(src: Seq<char>, other: Seq<char>) -> Seq<char> {
    "'"@ + src + "' is incompatible with '"@ + other + "'"@
}

/// The block that lists incompatible mods; the flag says the line is used up.
pub open spec fn step_incompat(st: ScanView, cp: Seq<char>) -> (ScanView, bool) {
    if contains_seq(cp, "is incompatible with the following Melons:"@) {
        match extract_quoted(cp) {
            Some(name) => (ScanView { incompat_source: Some(name), reading_incompat: true, ..st }, true),
            None => (st, true),
        }
    } else if st.reading_incompat {
        let t = trim(strip_leading_space_dash(cp));
        if starts_with_quote(t) {
            match (extract_quoted(t), st.incompat_source) {
                (Some(w), Some(src)) => (
                    ScanView { incompatible_pairs: st.incompatible_pairs.push(incompat_message(src, w)), ..st },
                    true,
                ),
                _ => (st, true),
            }
        } else {
            (ScanView { reading_incompat: false, incompat_source: None, ..st }, false)
        }
    } else {
        (st, false)
    }
}


pub open spec fn step_misplaced(st: ScanView, cp: Seq<char>) -> ScanView {
    let s1 = if contains_seq(cp, "is in the Plugins Folder:"@) || contains_seq(cp, "Melon is a Plugin"@) {
        match piece_after(cp, '\'') {
            Some(n) => ScanView { misplaced_mods: add_unique(st.misplaced_mods, n), ..st },
            None => st,
        }
    } else {
        st
    };
    if contains_seq(cp, "is in the Mods Folder:"@) || contains_seq(cp, "Melon is a Mod"@) {
        match piece_after(cp, '\'') {
            Some(n) => ScanView { misplaced_plugs: add_unique(s1.misplaced_plugs, n), ..s1 },
            None => s1,
        }
    } else {
        s1
    }
}

pub open spec fn step_duplicates(st: ScanView, line: Seq<char>, cp: Seq<char>) -> ScanView {
    let s1 = if contains_seq(cp, "Duplicate File"@) || contains_seq(cp, "Duplicate Mod"@) || contains_seq(
        cp,
        "Duplicate Plugin"@,
    ) {
        let name = remove_all(piece_after_last(line, '\\'), ".dll"@);
        if name.len() > 0 {
            ScanView { duplicates: add_unique(st.duplicates, name), ..st }
        } else {
            st
        }
    } else {
        st
    };
    if contains_seq(cp, "An item with the same key has already been added"@) {
        let name = trim(piece_after_last(line, ':'));
        if name.len() > 0 {
            ScanView { duplicates: add_unique(s1.duplicates, name), ..s1 }
        } else {
            s1
        }
    } else {
        s1
    }
}

/// An assembly name worth reporting as missing (not a runtime internal, not
/// a type reference).
pub open spec fn is_real_assembly(dep: Seq<char>) -> bool {
    !contains_seq(dep, "UnityEngine"@) && !starts_with(dep, "System."@) && !dep.contains(':') && dep.len() > 0
}

pub open spec fn step_missing_asm(st: ScanView, cp: Seq<char>) -> ScanView {
    if contains_seq(cp, "Could not load file or assembly '"@) {
        match piece_after(cp, '\'') {
            Some(d0) => {
                let dep = trim(piece_before(d0, ','));
                if is_real_assembly(dep) {
                    ScanView { missing_deps: add_unique(st.missing_deps, dep), ..st }
                } else {
                    st
                }
            },
            None => st,
        }
    } else {
        st
    }
}

pub open spec fn step_resolve(st: ScanView, line: Seq<char>, cp: Seq<char>) -> ScanView {
    if contains_seq(cp, "[ERROR] Failed to Resolve Melons for"@) {
        let name = replace_char(piece_before(piece_after_last(line, '\\'), '.'), '_', ' ');
        if name.len() > 0 {
            let lc = unicode_lowercase(cp);
            if contains_seq(lc, "exception"@) && !contains_seq(lc, "typeloadexception"@) {
                ScanView { mods_erroring: add_unique(st.mods_erroring, name), ..st }
            } else {
                ScanView { old_mods: add_unique(st.old_mods, name), ..st }
            }
        } else {
            st
        }
    } else {
        st
    }
}

/// Sources that belong to MelonLoader itself.
pub open spec fn is_ml_internal(source: Seq<char>) -> bool {
    source == "MelonLoader"@ || source == "Il2CppAssemblyGenerator"@ || source == "MelonStartScreen"@
        || source == "WholesomeLoader"@ || source == "TotallyWholesome"@ || source == "CVRModUpdater.Loader"@
}

/// A `[Source] ...` line: errors and exceptions logged by a mod.
pub open spec fn step_tagged(st: ScanView, cp: Seq<char>) -> ScanView {
    if cp.len() > 0 && cp[0] == '[' {
        match first_index(cp, ']') {
            Some(end) => if 0 < end < cp.len() {
                let source = cp.subrange(1, end);
                let rest = trim(cp.skip(end + 1));
                let internal = is_ml_internal(source);
                let shown = replace_char(source, '_', ' ');
                let s1 = if (starts_with(rest, "[ERROR]"@) || starts_with(rest, "[Error]"@)) && !internal
                    && !st.mods_erroring.contains(source) {
                    ScanView { mods_erroring: st.mods_erroring.push(shown), ..st }
                } else {
                    st
                };
                let exc = starts_with(rest, "System."@) || contains_seq(rest, "Exception:"@) || contains_seq(
                    rest,
                    "Exception was thrown"@,
                );
                if exc && !internal {
                    ScanView { mods_erroring: add_unique(s1.mods_erroring, shown), ..s1 }
                } else {
                    s1
                }
            } else {
                st
            },
            None => st,
        }
    } else {
        st
    }
}

/// `known` with `msg` added (once) when `line` contains `needle`.
pub open spec fn known_pattern(known: Seq<Seq<char>>, line: Seq<char>, needle: Seq<char>, msg: Seq<char>) -> Seq<Seq<char>> {
    if contains_seq(line, needle) {
        add_unique(known, msg)
    } else {
        known
    }
}

/// One-line patterns of well-known failures.
pub open spec fn step_known(st: ScanView, line: Seq<char>) -> ScanView {
    let k1 = known_pattern(
        st.known_errors,
        line,
        "System.BadImageFormatException"@,
        "An invalid or incompatible assembly is in your Mods or Plugins folder."@,
    );
    let k2 = known_pattern(
        k1,
        line,
        "Il2CppAssemblyGenerator"@,
        "Il2CppAssemblyGenerator failed. Delete the MelonLoader folder and reinstall MelonLoader."@,
    );
    let k3 = known_pattern(
        k2,
        line,
        "Applied USER32.dll::SetTimer patch"@,
        "MelonLoader may have crashed due to the Start Screen. Try the launch option: --melonloader.disablestartscreen"@,
    );
    let k4 = known_pattern(
        k3,
        line,
        "Contacting RemoteAPI..."@,
        "Unity failed to initialise graphics. Make sure your GPU drivers are up to date."@,
    );
    ScanView { known_errors: k4, ..st }
}

/// Misplaced melons, duplicates, missing assemblies, unresolved melons,
/// erroring mods and known failure patterns.
pub open spec fn step_issues(st: ScanView, line: Seq<char>, cp: Seq<char>) -> ScanView {
    step_known(
        step_tagged(
            step_resolve(step_missing_asm(step_duplicates(step_misplaced(st, cp), line, cp), cp), line, cp),
            cp,
        ),
        line,
    )
}

/// A separator line closes the entry being read.
pub open spec fn step_commit(st: ScanView) -> ScanView {
    match st.tmp_name {
        None => st,
        Some(name) => {
            let keep = !starts_with(name, "Melon Assembly loaded"@) && !starts_with(name, "Support Module"@)
                && !starts_with(name, "Failed to load"@);
            let entry = EntryView {
                name: name,
                version: st.tmp_version,
                author: st.tmp_author,
                hash: st.tmp_hash,
                assembly: st.tmp_assembly,
            };
            let s1 = if !keep {
                st
            } else if st.listing_plugins {
                ScanView { loaded_plugins: st.loaded_plugins.push(entry), ..st }
            } else {
                ScanView { loaded_mods: st.loaded_mods.push(entry), ..st }
            };
            let s2 = ScanView {
                tmp_name: None,
                tmp_version: None,
                tmp_author: None,
                tmp_hash: None,
                tmp_assembly: None,
                ..s1
            };
            if st.remaining_count > 0 {
                if st.remaining_count == 1 {
                    ScanView { remaining_count: 0, listing_mods: false, listing_plugins: false, ..s2 }
                } else {
                    ScanView { remaining_count: (st.remaining_count - 1) as i32, ..s2 }
                }
            } else {
                s2
            }
        },
    }
}

/// A line inside the mod listing.
pub open spec fn step_in_listing(st: ScanView, cp: Seq<char>) -> ScanView {
    if starts_with(cp, "---"@) && utf8_len(cp) >= 20 {
        step_commit(st)
    } else if starts_with(cp, "Melon Assembly loaded:"@) {
        st
    } else if starts_with(cp, "SHA256 Hash:"@) {
        ScanView { tmp_hash: Some(trim_char(trim(cp.skip("SHA256 Hash:"@.len() as int)), '\'')), ..st }
    } else if starts_with(cp, "Assembly:"@) {
        ScanView { tmp_assembly: Some(trim(cp.skip("Assembly:"@.len() as int))), ..st }
    } else if starts_with(cp, "by "@) {
        ScanView { tmp_author: Some(trim(cp.skip(3))), ..st }
    } else if contains_seq(cp, "Failed to load Melon '"@) {
        if contains_seq(cp, "Melon is a Plugin"@) {
            match piece_after(cp, '\'') {
                Some(n) => ScanView { misplaced_plugs: st.misplaced_plugs.push(n), ..st },
                None => st,
            }
        } else if contains_seq(cp, "Melon is a Mod"@) {
            match piece_after(cp, '\'') {
                Some(n) => ScanView { misplaced_mods: st.misplaced_mods.push(n), ..st },
                None => st,
            }
        } else {
            st
        }
    } else if st.tmp_name is None && cp.len() > 0 && cp[0] != '[' {
        match find_version_split(cp) {
            Some(v) => ScanView { tmp_name: Some(trim(cp.take(v))), tmp_version: Some(trim(cp.skip(v + 2))), ..st },
            None => ScanView { tmp_name: Some(trim(cp)), ..st },
        }
    } else {
        st
    }
}

/// The mod listing: its opening line, the loaded count, the "none loaded"
/// line, and the entries.
pub open spec fn step_listing(st: ScanView, cp: Seq<char>) -> ScanView {
    if !st.pre_listing && !st.listing_mods && !st.listing_plugins && (starts_with(cp, "Loading Mods"@)
        || starts_with(cp, "Loading Plugins"@)) {
        let lp = contains_seq(cp, "Plugin"@);
        ScanView { pre_listing: true, listing_plugins: lp, listing_mods: !lp, ..st }
    } else {
        match parse_loaded_count(cp) {
            Some(count) => {
                let ip = contains_seq(cp, "Plugin"@);
                ScanView { remaining_count: count, listing_mods: !ip, listing_plugins: ip, pre_listing: false, ..st }
            },
            None => if contains_seq(cp, "No Mods loaded"@) || contains_seq(cp, "0 Mods loaded"@) || contains_seq(
                cp,
                "No Plugins loaded"@,
            ) || contains_seq(cp, "0 Plugins loaded"@) {
                ScanView { listing_mods: false, listing_plugins: false, pre_listing: false, ..st }
            } else if st.listing_mods || st.listing_plugins {
                step_in_listing(st, cp)
            } else {
                st
            },
        }
    }
}

/// What one (trimmed) line of the log does to the scan.
pub open spec fn line_step(st: ScanView, line: Seq<char>) -> ScanView {
    if line.len() == 0 || utf8_len(line) > 1200 {
        st
    } else {
        let cp = strip_ts(line);
        let s1 = step_meta(st, line, cp);
        let (s2, used2) = step_deps_block(s1, cp);
        if used2 {
            s2
        } else {
            let (s3, used3) = step_incompat(s2, cp);
            if used3 {
                s3
            } else {
                step_listing(step_issues(s3, line, cp), cp)
            }
        }
    }
}

/// The scan after the given lines, each trimmed, in order.
pub open spec fn scan_lines(lines: Seq<Seq<char>>) -> ScanView
    decreases lines.len(),
{
    if lines.len() == 0 {
        initial_scan()
    } else {
        line_step(scan_lines(lines.drop_last()), trim(lines.last()))
    }
}


/// The characters of an optional text.
pub open spec fn opt_chars(o: Option<Vec<char>>) -> Option<Seq<char>> {
    match o {
        Some(v) => Some(v@),
        None => None,
    }
}

struct Entry {
    name: Vec<char>,
    version: Option<Vec<char>>,
    author: Option<Vec<char>>,
    hash: Option<Vec<char>>,
    assembly: Option<Vec<char>>,
}

impl Entry {
    spec fn view(&self) -> EntryView {
        EntryView {
            name: self.name@,
            version: opt_chars(self.version),
            author: opt_chars(self.author),
            hash: opt_chars(self.hash),
            assembly: opt_chars(self.assembly),
        }
    }
}

spec fn entries_view(v: Seq<Entry>) -> Seq<EntryView> {
    v.map_values(|e: Entry| e@)
}

spec fn pairs_view(v: Seq<(Vec<char>, Vec<char>)>) -> Seq<(Seq<char>, Seq<char>)> {
    v.map_values(|p: (Vec<char>, Vec<char>)| (p.0@, p.1@))
}

struct ScanState {
    ml_version: Option<Vec<char>>,
    game_name: Option<Vec<char>>,
    game_version: Option<Vec<char>>,
    game_path: Option<Vec<char>>,
    os_type: Option<Vec<char>>,
    arch: Option<Vec<char>>,
    is_il2cpp: bool,
    is_mono: bool,
    loaded_mods: Vec<Entry>,
    loaded_plugins: Vec<Entry>,
    type_load_failures: Vec<Vec<char>>,
    incompatible_pairs: Vec<Vec<char>>,
    mods_erroring: Vec<Vec<char>>,
    misplaced_mods: Vec<Vec<char>>,
    misplaced_plugs: Vec<Vec<char>>,
    missing_deps: Vec<Vec<char>>,
    duplicates: Vec<Vec<char>>,
    old_mods: Vec<Vec<char>>,
    known_errors: Vec<Vec<char>>,
    missing_dep_pairs: Vec<(Vec<char>, Vec<char>)>,
    listing_plugins: bool,
    listing_mods: bool,
    pre_listing: bool,
    remaining_count: i32,
    tmp_name: Option<Vec<char>>,
    tmp_version: Option<Vec<char>>,
    tmp_author: Option<Vec<char>>,
    tmp_hash: Option<Vec<char>>,
    tmp_assembly: Option<Vec<char>>,
    reading_incompat: bool,
    incompat_source: Option<Vec<char>>,
    reading_missing_deps: bool,
    missing_dep_mod_source: Option<Vec<char>>,
}

impl ScanState {
    spec fn view(&self) -> ScanView {
        ScanView {
            ml_version: opt_chars(self.ml_version),
            game_name: opt_chars(self.game_name),
            game_version: opt_chars(self.game_version),
            game_path: opt_chars(self.game_path),
            os_type: opt_chars(self.os_type),
            arch: opt_chars(self.arch),
            is_il2cpp: self.is_il2cpp,
            is_mono: self.is_mono,
            loaded_mods: entries_view(self.loaded_mods@),
            loaded_plugins: entries_view(self.loaded_plugins@),
            type_load_failures: crate::text::pieces_view(self.type_load_failures@),
            incompatible_pairs: crate::text::pieces_view(self.incompatible_pairs@),
            mods_erroring: crate::text::pieces_view(self.mods_erroring@),
            misplaced_mods: crate::text::pieces_view(self.misplaced_mods@),
            misplaced_plugs: crate::text::pieces_view(self.misplaced_plugs@),
            missing_deps: crate::text::pieces_view(self.missing_deps@),
            duplicates: crate::text::pieces_view(self.duplicates@),
            old_mods: crate::text::pieces_view(self.old_mods@),
            known_errors: crate::text::pieces_view(self.known_errors@),
            missing_dep_pairs: pairs_view(self.missing_dep_pairs@),
            listing_plugins: self.listing_plugins,
            listing_mods: self.listing_mods,
            pre_listing: self.pre_listing,
            remaining_count: self.remaining_count,
            tmp_name: opt_chars(self.tmp_name),
            tmp_version: opt_chars(self.tmp_version),
            tmp_author: opt_chars(self.tmp_author),
            tmp_hash: opt_chars(self.tmp_hash),
            tmp_assembly: opt_chars(self.tmp_assembly),
            reading_incompat: self.reading_incompat,
            incompat_source: opt_chars(self.incompat_source),
            reading_missing_deps: self.reading_missing_deps,
            missing_dep_mod_source: opt_chars(self.missing_dep_mod_source),
        }
    }
}

fn new_scan_state() -> (st: ScanState)
    ensures
        st@ == initial_scan(),
{
    let st = ScanState {
        ml_version: None,
        game_name: None,
        game_version: None,
        game_path: None,
        os_type: None,
        arch: None,
        is_il2cpp: false,
        is_mono: false,
        loaded_mods: Vec::new(),
        loaded_plugins: Vec::new(),
        type_load_failures: Vec::new(),
        incompatible_pairs: Vec::new(),
        mods_erroring: Vec::new(),
        misplaced_mods: Vec::new(),
        misplaced_plugs: Vec::new(),
        missing_deps: Vec::new(),
        duplicates: Vec::new(),
        old_mods: Vec::new(),
        known_errors: Vec::new(),
        missing_dep_pairs: Vec::new(),
        listing_plugins: false,
        listing_mods: false,
        pre_listing: false,
        remaining_count: 0,
        tmp_name: None,
        tmp_version: None,
        tmp_author: None,
        tmp_hash: None,
        tmp_assembly: None,
        reading_incompat: false,
        incompat_source: None,
        reading_missing_deps: false,
        missing_dep_mod_source: None,
    };
    assert(st@ =~= initial_scan());
    st
}

/// Whether two character sequences are equal.
fn same_chars(a: &[char], b: &[char]) -> (r: bool)
    ensures
        r == (a@ == b@),
{
    if a.len() != b.len() {
        return false;
    }
    let mut i: usize = 0;
    while i < a.len()
        invariant
            a@.len() == b@.len(),
            i <= a@.len(),
            forall|j: int| 0 <= j < i ==> a@[j] == b@[j],
        decreases a.len() - i,
    {
        if a[i] != b[i] {
            return false;
        }
        i = i + 1;
    }
    assert(a@ =~= b@);
    true
}

/// Whether `l` holds `x`.
fn list_has(l: &Vec<Vec<char>>, x: &[char]) -> (r: bool)
    ensures
        r == crate::text::pieces_view(l@).contains(x@),
{
    let mut i: usize = 0;
    while i < l.len()
        invariant
            i <= l@.len(),
            forall|j: int| 0 <= j < i ==> l@[j]@ != x@,
        decreases l.len() - i,
    {
        if same_chars(l[i].as_slice(), x) {
            assert(crate::text::pieces_view(l@)[i as int] == x@);
            return true;
        }
        i = i + 1;
    }
    assert forall|j: int| 0 <= j < crate::text::pieces_view(l@).len() implies crate::text::pieces_view(l@)[j] != x@ by {
        assert(crate::text::pieces_view(l@)[j] == l@[j]@);
    }
    false
}

fn push_piece(l: &mut Vec<Vec<char>>, x: Vec<char>)
    ensures
        crate::text::pieces_view(final(l)@) == crate::text::pieces_view(old(l)@).push(x@),
{
    l.push(x);
    assert(crate::text::pieces_view(l@) =~= crate::text::pieces_view(old(l)@).push(x@));
}

fn push_unique(l: &mut Vec<Vec<char>>, x: Vec<char>)
    ensures
        crate::text::pieces_view(final(l)@) == add_unique(crate::text::pieces_view(old(l)@), x@),
{
    if !list_has(l, x.as_slice()) {
        push_piece(l, x);
    }
}

/// The characters of `s` after the text of `lit`, which `s` begins with.
fn skip_lit(s: &[char], lit: &str) -> (r: Vec<char>)
    requires
        starts_with(s@, lit@),
    ensures
        r@ == s@.skip(lit@.len() as int),
{
    let p = chars_of(lit);
    let r = sub_chars(s, p.len(), s.len());
    assert(r@ =~= s@.skip(lit@.len() as int));
    r
}

fn do_ml_version(st: &mut ScanState, cp: &[char])
    ensures
        final(st)@ == step_ml_version(old(st)@, cp@),
{
    if st.ml_version.is_none() && begins(cp, "MelonLoader v") {
        let rest = skip_lit(cp, "MelonLoader v");
        let ver = first_word_chars(rest.as_slice());
        if ver.len() > 0 {
            st.ml_version = Some(ver);
        }
    }
}

fn do_os_arch(st: &mut ScanState, cp: &[char])
    ensures
        final(st)@ == step_os_arch(old(st)@, cp@),
{
    if begins(cp, "OS: ") {
        let rest = skip_lit(cp, "OS: ");
        st.os_type = Some(trim_chars(rest.as_slice()));
    }
    if begins(cp, "Game Arch:") {
        let p = chars_of("Arch:");
        let a = piece_after_seq_chars(cp, p.as_slice());
        st.arch = Some(trim_chars(a.as_slice()));
    }
}

fn do_game(st: &mut ScanState, cp: &[char])
    ensures
        final(st)@ == step_game(old(st)@, cp@),
{
    if begins(cp, "Game Type:") {
        let lc = lowercase_chars(cp);
        if contains_lit(lc.as_slice(), "il2cpp") {
            st.is_il2cpp = true;
        }
        if contains_lit(lc.as_slice(), "mono") {
            st.is_mono = true;
        }
    }
    if begins(cp, "Game Name:") {
        let p = chars_of("Name:");
        let a = piece_after_seq_chars(cp, p.as_slice());
        st.game_name = Some(trim_chars(a.as_slice()));
    }
    if begins(cp, "Game Version:") {
        let p = chars_of("Version:");
        let a = piece_after_seq_chars(cp, p.as_slice());
        let v = trim_chars(a.as_slice());
        if v.len() > 0 {
            st.game_version = Some(v);
        }
    }
}

fn do_game_path(st: &mut ScanState, cp: &[char])
    ensures
        final(st)@ == step_game_path(old(st)@, cp@),
{
    if contains_lit(cp, "Game::BasePath") || contains_lit(cp, "Game::ApplicationPath") {
        match piece_after_chars(cp, '=') {
            Some(p0) => {
                let p = trim_chars(p0.as_slice());
                if st.game_path.is_none() && p.len() > 0 {
                    proof {
                        lemma_first_index(p@, '\'');
                    }
                    if find_char(p.as_slice(), '\'').is_some() {
                        assert(p@.contains('\''));
                        push_piece(
                            &mut st.known_errors,
                            chars_of("Your game path contains a single-quote (') character which can break MelonLoader."),
                        );
                    } else {
                        assert(!p@.contains('\''));
                    }
                    st.game_path = Some(p);
                }
            },
            None => {},
        }
    }
}

fn do_security(st: &mut ScanState, line: &[char])
    ensures
        final(st)@ == step_security(old(st)@, line@),
{
    if contains_lit(line, "<Transmtn.Get GET api") || begins(line, "authcookie_") {
        push_piece(
            &mut st.known_errors,
            chars_of(
                "\u{26a0} COMPROMISED: Your MelonLoader installation is leaking sensitive credentials. Reinstall MelonLoader immediately.",
            ),
        );
    }
}

fn do_type_load(st: &mut ScanState, cp: &[char])
    ensures
        final(st)@ == step_type_load(old(st)@, cp@),
{
    if begins(cp, "Failed to load all types in assembly ") {
        let rest = skip_lit(cp, "Failed to load all types in assembly ");
        let before = piece_before_chars(rest.as_slice(), ',');
        let name = trim_chars(before.as_slice());
        if name.len() > 0 {
            push_unique(&mut st.type_load_failures, name);
        }
    }
}

fn do_meta(st: &mut ScanState, line: &[char], cp: &[char])
    ensures
        final(st)@ == step_meta(old(st)@, line@, cp@),
{
    do_ml_version(st, cp);
    do_os_arch(st, cp);
    do_game(st, cp);
    do_game_path(st, cp);
    do_security(st, line);
    do_type_load(st, cp);
}


fn starts_with_quote_chars(t: &[char]) -> (r: bool)
    ensures
        r == starts_with_quote(t@),
{
    t.len() > 0 && (t[0] == '\'' || t[0] == '"')
}

fn do_deps_block(st: &mut ScanState, cp: &[char]) -> (used: bool)
    ensures
        (final(st)@, used) == step_deps_block(old(st)@, cp@),
{
    let lc = lowercase_chars(cp);
    if contains_lit(lc.as_slice(), "some mods are missing dependencies") {
        st.reading_missing_deps = true;
        return true;
    }
    if st.reading_missing_deps {
        let stripped = strip_leading_space_dash_chars(cp);
        let t = trim_chars(stripped.as_slice());
        if starts_with_quote_chars(t.as_slice()) {
            let tl = lowercase_chars(t.as_slice());
            if contains_lit(tl.as_slice(), "is missing the following dependencies") {
                st.missing_dep_mod_source = extract_quoted_chars(t.as_slice());
            } else {
                match &st.missing_dep_mod_source {
                    Some(src) => {
                        match extract_quoted_chars(t.as_slice()) {
                            Some(dep) => {
                                let src2 = sub_chars(src.as_slice(), 0, src.len());
                                assert(src2@ =~= src@);
                                let ghost before = st.missing_dep_pairs@;
                                st.missing_dep_pairs.push((src2, dep));
                                assert(pairs_view(st.missing_dep_pairs@) =~= pairs_view(before).push((src2@, dep@)));
                            },
                            None => {},
                        }
                    },
                    None => {},
                }
            }
            return true;
        } else if t.len() > 0 && t[0] != '[' {
            st.reading_missing_deps = false;
            st.missing_dep_mod_source = None;
        }
    }
    false
}

fn do_incompat(st: &mut ScanState, cp: &[char]) -> (used: bool)
    ensures
        (final(st)@, used) == step_incompat(old(st)@, cp@),
{
    if contains_lit(cp, "is incompatible with the following Melons:") {
        match extract_quoted_chars(cp) {
            Some(name) => {
                st.incompat_source = Some(name);
                st.reading_incompat = true;
            },
            None => {},
        }
        return true;
    }
    if st.reading_incompat {
        let stripped = strip_leading_space_dash_chars(cp);
        let t = trim_chars(stripped.as_slice());
        if starts_with_quote_chars(t.as_slice()) {
            match extract_quoted_chars(t.as_slice()) {
                Some(w) => {
                    match &st.incompat_source {
                        Some(src) => {
                            let mut msg = chars_of("'");
                            let mut k: usize = 0;
                            let ghost m0 = msg@;
                            while k < src.len()
                                invariant
                                    k <= src@.len(),
                                    msg@ == m0 + src@.take(k as int),
                                decreases src.len() - k,
                            {
                                msg.push(src[k]);
                                assert(msg@ =~= m0 + src@.take(k + 1));
                                k = k + 1;
                            }
                            assert(src@.take(src@.len() as int) =~= src@);
                            let mut mid = chars_of("' is incompatible with '");
                            msg.append(&mut mid);
                            let mut w2 = w;
                            msg.append(&mut w2);
                            let mut tail = chars_of("'");
                            msg.append(&mut tail);
                            assert(msg@ =~= incompat_message(src@, w@));
                            push_piece(&mut st.incompatible_pairs, msg);
                        },
                        None => {},
                    }
                },
                None => {},
            }
            return true;
        } else {
            st.reading_incompat = false;
            st.incompat_source = None;
        }
    }
    false
}

fn do_misplaced(st: &mut ScanState, cp: &[char])
    ensures
        final(st)@ == step_misplaced(old(st)@, cp@),
{
    if contains_lit(cp, "is in the Plugins Folder:") || contains_lit(cp, "Melon is a Plugin") {
        match piece_after_chars(cp, '\'') {
            Some(n) => push_unique(&mut st.misplaced_mods, n),
            None => {},
        }
    }
    if contains_lit(cp, "is in the Mods Folder:") || contains_lit(cp, "Melon is a Mod") {
        match piece_after_chars(cp, '\'') {
            Some(n) => push_unique(&mut st.misplaced_plugs, n),
            None => {},
        }
    }
}

fn do_duplicates(st: &mut ScanState, line: &[char], cp: &[char])
    ensures
        final(st)@ == step_duplicates(old(st)@, line@, cp@),
{
    if contains_lit(cp, "Duplicate File") || contains_lit(cp, "Duplicate Mod") || contains_lit(cp, "Duplicate Plugin") {
        let last = piece_after_last_chars(line, '\\');
        let dll = chars_of(".dll");
        proof {
            reveal_strlit(".dll");
        }
        let name = remove_all_chars(last.as_slice(), dll.as_slice());
        if name.len() > 0 {
            push_unique(&mut st.duplicates, name);
        }
    }
    if contains_lit(cp, "An item with the same key has already been added") {
        let last = piece_after_last_chars(line, ':');
        let name = trim_chars(last.as_slice());
        if name.len() > 0 {
            push_unique(&mut st.duplicates, name);
        }
    }
}

fn is_real_assembly_chars(dep: &[char]) -> (r: bool)
    ensures
        r == is_real_assembly(dep@),
{
    proof {
        lemma_first_index(dep@, ':');
    }
    let colon = find_char(dep, ':').is_some();
    assert(colon == dep@.contains(':'));
    !contains_lit(dep, "UnityEngine") && !begins(dep, "System.") && !colon && dep.len() > 0
}

fn do_missing_asm(st: &mut ScanState, cp: &[char])
    ensures
        final(st)@ == step_missing_asm(old(st)@, cp@),
{
    if contains_lit(cp, "Could not load file or assembly '") {
        match piece_after_chars(cp, '\'') {
            Some(d0) => {
                let before = piece_before_chars(d0.as_slice(), ',');
                let dep = trim_chars(before.as_slice());
                if is_real_assembly_chars(dep.as_slice()) {
                    push_unique(&mut st.missing_deps, dep);
                }
            },
            None => {},
        }
    }
}

fn do_resolve(st: &mut ScanState, line: &[char], cp: &[char])
    ensures
        final(st)@ == step_resolve(old(st)@, line@, cp@),
{
    if contains_lit(cp, "[ERROR] Failed to Resolve Melons for") {
        let last = piece_after_last_chars(line, '\\');
        let stem = piece_before_chars(last.as_slice(), '.');
        let name = replace_char_chars(stem.as_slice(), '_', ' ');
        if name.len() > 0 {
            let lc = lowercase_chars(cp);
            if contains_lit(lc.as_slice(), "exception") && !contains_lit(lc.as_slice(), "typeloadexception") {
                push_unique(&mut st.mods_erroring, name);
            } else {
                push_unique(&mut st.old_mods, name);
            }
        }
    }
}

fn is_ml_internal_chars(source: &[char]) -> (r: bool)
    ensures
        r == is_ml_internal(source@),
{
    let a = chars_of("MelonLoader");
    let b = chars_of("Il2CppAssemblyGenerator");
    let c = chars_of("MelonStartScreen");
    let d = chars_of("WholesomeLoader");
    let e = chars_of("TotallyWholesome");
    let f = chars_of("CVRModUpdater.Loader");
    same_chars(source, a.as_slice()) || same_chars(source, b.as_slice()) || same_chars(source, c.as_slice())
        || same_chars(source, d.as_slice()) || same_chars(source, e.as_slice()) || same_chars(source, f.as_slice())
}

fn do_tagged(st: &mut ScanState, cp: &[char])
    ensures
        final(st)@ == step_tagged(old(st)@, cp@),
{
    if cp.len() > 0 && cp[0] == '[' {
        proof {
            lemma_first_index(cp@, ']');
        }
        match find_char(cp, ']') {
            Some(end) => {
                if end > 0 {
                    let source = sub_chars(cp, 1, end);
                    let after = sub_chars(cp, end + 1, cp.len());
                    assert(after@ =~= cp@.skip(end + 1));
                    let rest = trim_chars(after.as_slice());
                    let internal = is_ml_internal_chars(source.as_slice());
                    let shown = replace_char_chars(source.as_slice(), '_', ' ');
                    if (begins(rest.as_slice(), "[ERROR]") || begins(rest.as_slice(), "[Error]")) && !internal
                        && !list_has(&st.mods_erroring, source.as_slice()) {
                        let shown2 = sub_chars(shown.as_slice(), 0, shown.len());
                        assert(shown2@ =~= shown@);
                        push_piece(&mut st.mods_erroring, shown2);
                    }
                    let exc = begins(rest.as_slice(), "System.") || contains_lit(rest.as_slice(), "Exception:") || contains_lit(
                        rest.as_slice(),
                        "Exception was thrown",
                    );
                    if exc && !internal {
                        push_unique(&mut st.mods_erroring, shown);
                    }
                }
            },
            None => {},
        }
    }
}

fn add_known_pattern(known: &mut Vec<Vec<char>>, line: &[char], needle: &str, msg: &str)
    ensures
        crate::text::pieces_view(final(known)@) == known_pattern(crate::text::pieces_view(old(known)@), line@, needle@, msg@),
{
    if contains_lit(line, needle) {
        push_unique(known, chars_of(msg));
    }
}

fn do_known(st: &mut ScanState, line: &[char])
    ensures
        final(st)@ == step_known(old(st)@, line@),
{
    add_known_pattern(
        &mut st.known_errors,
        line,
        "System.BadImageFormatException",
        "An invalid or incompatible assembly is in your Mods or Plugins folder.",
    );
    add_known_pattern(
        &mut st.known_errors,
        line,
        "Il2CppAssemblyGenerator",
        "Il2CppAssemblyGenerator failed. Delete the MelonLoader folder and reinstall MelonLoader.",
    );
    add_known_pattern(
        &mut st.known_errors,
        line,
        "Applied USER32.dll::SetTimer patch",
        "MelonLoader may have crashed due to the Start Screen. Try the launch option: --melonloader.disablestartscreen",
    );
    add_known_pattern(
        &mut st.known_errors,
        line,
        "Contacting RemoteAPI...",
        "Unity failed to initialise graphics. Make sure your GPU drivers are up to date.",
    );
}

fn do_issues(st: &mut ScanState, line: &[char], cp: &[char])
    ensures
        final(st)@ == step_issues(old(st)@, line@, cp@),
{
    do_misplaced(st, cp);
    do_duplicates(st, line, cp);
    do_missing_asm(st, cp);
    do_resolve(st, line, cp);
    do_tagged(st, cp);
    do_known(st, line);
}


#[verifier::rlimit(50)]
fn do_commit(st: &mut ScanState)
    ensures
        final(st)@ == step_commit(old(st)@),
{
    match st.tmp_name.take() {
        None => {},
        Some(name) => {
            let keep = !begins(name.as_slice(), "Melon Assembly loaded") && !begins(name.as_slice(), "Support Module")
                && !begins(name.as_slice(), "Failed to load");
            let entry = Entry {
                name: name,
                version: st.tmp_version.take(),
                author: st.tmp_author.take(),
                hash: st.tmp_hash.take(),
                assembly: st.tmp_assembly.take(),
            };
            if keep {
                if st.listing_plugins {
                    let ghost before = st.loaded_plugins@;
                    st.loaded_plugins.push(entry);
                    assert(entries_view(st.loaded_plugins@) =~= entries_view(before).push(entry@));
                } else {
                    let ghost before = st.loaded_mods@;
                    st.loaded_mods.push(entry);
                    assert(entries_view(st.loaded_mods@) =~= entries_view(before).push(entry@));
                }
            }
            if st.remaining_count > 0 {
                st.remaining_count = st.remaining_count - 1;
                if st.remaining_count == 0 {
                    st.listing_mods = false;
                    st.listing_plugins = false;
                }
            }
        },
    }
}

#[verifier::rlimit(50)]
fn do_in_listing(st: &mut ScanState, cp: &[char])
    ensures
        final(st)@ == step_in_listing(old(st)@, cp@),
{
    if begins(cp, "---") && utf8_len_exceeds(cp, 19) {
        do_commit(st);
    } else if begins(cp, "Melon Assembly loaded:") {
    } else if begins(cp, "SHA256 Hash:") {
        let rest = skip_lit(cp, "SHA256 Hash:");
        let t = trim_chars(rest.as_slice());
        st.tmp_hash = Some(trim_char_chars(t.as_slice(), '\''));
    } else if begins(cp, "Assembly:") {
        let rest = skip_lit(cp, "Assembly:");
        st.tmp_assembly = Some(trim_chars(rest.as_slice()));
    } else if begins(cp, "by ") {
        proof {
            reveal_strlit("by ");
        }
        let rest = skip_lit(cp, "by ");
        st.tmp_author = Some(trim_chars(rest.as_slice()));
    } else if contains_lit(cp, "Failed to load Melon '") {
        if contains_lit(cp, "Melon is a Plugin") {
            match piece_after_chars(cp, '\'') {
                Some(n) => push_piece(&mut st.misplaced_plugs, n),
                None => {},
            }
        } else if contains_lit(cp, "Melon is a Mod") {
            match piece_after_chars(cp, '\'') {
                Some(n) => push_piece(&mut st.misplaced_mods, n),
                None => {},
            }
        }
    } else if st.tmp_name.is_none() && cp.len() > 0 && cp[0] != '[' {
        match find_version_split_chars(cp) {
            Some(v) => {
                let head = sub_chars(cp, 0, v);
                assert(head@ =~= cp@.take(v as int));
                let tail = sub_chars(cp, v + 2, cp.len());
                assert(tail@ =~= cp@.skip(v + 2));
                st.tmp_name = Some(trim_chars(head.as_slice()));
                st.tmp_version = Some(trim_chars(tail.as_slice()));
            },
            None => {
                st.tmp_name = Some(trim_chars(cp));
            },
        }
    }
}

fn do_listing(st: &mut ScanState, cp: &[char])
    ensures
        final(st)@ == step_listing(old(st)@, cp@),
{
    if !st.pre_listing && !st.listing_mods && !st.listing_plugins && (begins(cp, "Loading Mods") || begins(
        cp,
        "Loading Plugins",
    )) {
        let lp = contains_lit(cp, "Plugin");
        st.pre_listing = true;
        st.listing_plugins = lp;
        st.listing_mods = !lp;
        return ;
    }
    match parse_loaded_count_chars(cp) {
        Some(count) => {
            let ip = contains_lit(cp, "Plugin");
            st.remaining_count = count;
            st.listing_mods = !ip;
            st.listing_plugins = ip;
            st.pre_listing = false;
        },
        None => {
            if contains_lit(cp, "No Mods loaded") || contains_lit(cp, "0 Mods loaded") || contains_lit(cp, "No Plugins loaded")
                || contains_lit(cp, "0 Plugins loaded") {
                st.listing_mods = false;
                st.listing_plugins = false;
                st.pre_listing = false;
            } else if st.listing_mods || st.listing_plugins {
                do_in_listing(st, cp);
            }
        },
    }
}

fn do_line(st: &mut ScanState, line: &[char])
    ensures
        final(st)@ == line_step(old(st)@, line@),
{
    if line.len() == 0 || utf8_len_exceeds(line, 1200) {
        return ;
    }
    let cp = strip_ts_chars(line);
    do_meta(st, line, cp.as_slice());
    if do_deps_block(st, cp.as_slice()) {
        return ;
    }
    if do_incompat(st, cp.as_slice()) {
        return ;
    }
    do_issues(st, line, cp.as_slice());
    do_listing(st, cp.as_slice());
}


/// How serious a finding is.
#[derive(Debug, Clone, Copy, PartialEq, Eq, Structural)]
pub enum Severity {
    Okay,
    Info,
    Warning,
    Error,
}

/// A finding as plain text.
#[verifier::ext_equal]
pub struct FindingView {
    pub severity: Severity,
    pub category: Seq<char>,
    pub message: Seq<char>,
}

pub open spec fn finding(severity: Severity, category: Seq<char>, message: Seq<char>) -> FindingView {
    FindingView { severity, category, message }
}

/// The items joined with `sep` between them.
pub open spec fn join_with(items: Seq<Seq<char>>, sep: Seq<char>) -> Seq<char>
    decreases items.len(),
{
    if items.len() == 0 {
        Seq::empty()
    } else if items.len() == 1 {
        items[0]
    } else {
        join_with(items.drop_last(), sep) + sep + items.last()
    }
}

/// One bulleted list item.
pub open spec fn bullet(s: Seq<char>) -> Seq<char> {
    "\u{2022} "@ + s
}

/// The items as a bulleted list, one per line.
pub open spec fn fmt_list(items: Seq<Seq<char>>) -> Seq<char> {
    join_with(items.map_values(|s: Seq<char>| bullet(s)), "\n"@)
}

/// `q` (ascending, without repeats) with `x` put in its place, unless present.
pub open spec fn insert_sorted(q: Seq<Seq<char>>, x: Seq<char>) -> Seq<Seq<char>>
    decreases q.len(),
{
    if q.len() == 0 {
        seq![x]
    } else if x == q[0] {
        q
    } else if crate::api::chars_lt(x, q[0]) {
        seq![x] + q
    } else {
        seq![q[0]] + insert_sorted(q.drop_first(), x)
    }
}

/// The distinct items in ascending order (as a sort followed by a dedup, or
/// the keys of a `BTreeMap`, give them).
pub open spec fn sorted_set(items: Seq<Seq<char>>) -> Seq<Seq<char>>
    decreases items.len(),
{
    if items.len() == 0 {
        Seq::empty()
    } else {
        insert_sorted(sorted_set(items.drop_last()), items.last())
    }
}

/// The mods that miss dependency `d`.
pub open spec fn mods_needing(pairs: Seq<(Seq<char>, Seq<char>)>, d: Seq<char>) -> Seq<Seq<char>>
    decreases pairs.len(),
{
    if pairs.len() == 0 {
        Seq::empty()
    } else {
        let r = mods_needing(pairs.drop_last(), d);
        if pairs.last().1 == d {
            r.push(pairs.last().0)
        } else {
            r
        }
    }
}

/// The missing dependencies named by the pairs.
pub open spec fn dep_names(pairs: Seq<(Seq<char>, Seq<char>)>) -> Seq<Seq<char>> {
    pairs.map_values(|p: (Seq<char>, Seq<char>)| p.1)
}

/// The report line of one missing dependency and the mods that need it.
pub open spec fn dep_line(pairs: Seq<(Seq<char>, Seq<char>)>, d: Seq<char>) -> Seq<char> {
    d + " \u{2014} needed by: "@ + join_with(sorted_set(mods_needing(pairs, d)), ", "@)
}

/// One line per missing dependency, in ascending order of its name.
pub open spec fn dep_lines(pairs: Seq<(Seq<char>, Seq<char>)>) -> Seq<Seq<char>> {
    sorted_set(dep_names(pairs)).map_values(|d: Seq<char>| dep_line(pairs, d))
}

/// Missing assemblies that the dependency block does not already cover.
pub open spec fn shown_missing(deps: Seq<Seq<char>>, pairs: Seq<(Seq<char>, Seq<char>)>) -> Seq<Seq<char>>
    decreases deps.len(),
{
    if deps.len() == 0 {
        Seq::empty()
    } else {
        let r = shown_missing(deps.drop_last(), pairs);
        let d = deps.last();
        if !contains_seq(d, "UnityEngine"@) && !starts_with(d, "System."@) && !dep_names(pairs).contains(d) {
            r.push(d)
        } else {
            r
        }
    }
}

/// A single finding listing `items`, or none when there are no items.
pub open spec fn list_finding(sev: Severity, cat: Seq<char>, intro: Seq<char>, items: Seq<Seq<char>>) -> Seq<FindingView> {
    if items.len() > 0 {
        seq![finding(sev, cat, intro + fmt_list(items))]
    } else {
        Seq::empty()
    }
}

pub open spec fn opt_suffix(o: Option<Seq<char>>, prefix: Seq<char>) -> Seq<char> {
    match o {
        Some(v) => prefix + v,
        None => Seq::empty(),
    }
}

pub open spec fn flag_suffix(b: bool, text: Seq<char>) -> Seq<char> {
    if b {
        text
    } else {
        Seq::empty()
    }
}

/// The findings about MelonLoader, the game, the system and the mod counts.
pub open spec fn header_findings(st: ScanView) -> Seq<FindingView> {
    let f1 = match st.ml_version {
        Some(v) => finding(Severity::Info, "MelonLoader"@, "Version: "@ + v),
        None => finding(
            Severity::Warning,
            "MelonLoader"@,
            "MelonLoader version not found \u{2014} the log may be incomplete or MelonLoader may not have started."@,
        ),
    };
    let f2 = match st.game_name {
        Some(g) => seq![
            finding(
                Severity::Info,
                "Game"@,
                "Game: "@ + g + opt_suffix(st.game_version, "  v"@) + flag_suffix(st.is_il2cpp, "  [Il2Cpp]"@)
                    + flag_suffix(st.is_mono, "  [Mono]"@),
            ),
        ],
        None => Seq::empty(),
    };
    let f3 = match st.os_type {
        Some(os) => seq![finding(Severity::Info, "System"@, "OS: "@ + os + opt_suffix(st.arch, "  Arch: "@))],
        None => Seq::empty(),
    };
    let m = st.loaded_mods.len();
    let pl = st.loaded_plugins.len();
    let f4 = if m > 0 || pl > 0 {
        seq![
            finding(
                Severity::Info,
                "Mods Loaded"@,
                crate::text::decimal(m) + " mod(s)  \u{2022}  "@ + crate::text::decimal(pl) + " plugin(s)"@,
            ),
        ]
    } else {
        Seq::empty()
    };
    seq![f1] + f2 + f3 + f4
}

/// One error finding per known failure pattern met.
pub open spec fn known_findings(st: ScanView) -> Seq<FindingView> {
    st.known_errors.map_values(|e: Seq<char>| finding(Severity::Error, "Known Error"@, e))
}

/// The error findings that list duplicate, misplaced and conflicting mods.
pub open spec fn placement_findings(st: ScanView) -> Seq<FindingView> {
    list_finding(Severity::Error, "Duplicate Mods"@, "Remove duplicate mod files:\n"@, st.duplicates)
        + list_finding(
        Severity::Error,
        "Misplaced Mods"@,
        "These mods are in the Plugins folder \u{2014} move them to Mods/:\n"@,
        st.misplaced_mods,
    ) + list_finding(
        Severity::Error,
        "Misplaced Plugins"@,
        "These plugins are in the Mods folder \u{2014} move them to Plugins/:\n"@,
        st.misplaced_plugs,
    ) + list_finding(
        Severity::Error,
        "Incompatible Mods"@,
        "The following mods conflict and won't both load:\n"@,
        st.incompatible_pairs,
    )
}

/// The error findings about dependencies and assemblies that did not load.
pub open spec fn loading_findings(st: ScanView) -> Seq<FindingView> {
    list_finding(
        Severity::Error,
        "Missing Dependencies"@,
        "Install the following missing dependencies:\n"@,
        dep_lines(st.missing_dep_pairs),
    ) + list_finding(
        Severity::Error,
        "Assembly Load Failures"@,
        "Failed to load all types in these assemblies \u{2014} the mod may be outdated or incompatible:\n"@,
        st.type_load_failures,
    ) + list_finding(
        Severity::Error,
        "Missing Assemblies"@,
        "Could not load:\n"@,
        shown_missing(st.missing_deps, st.missing_dep_pairs),
    )
}

/// The warnings: outdated mods, mods that throw, a truncated log.
pub open spec fn warning_findings(st: ScanView, line_count: nat, truncated: bool) -> Seq<FindingView> {
    list_finding(
        Severity::Warning,
        "Incompatible Mods"@,
        "These mods failed to load (likely outdated for current ML/game version):\n"@,
        st.old_mods,
    ) + list_finding(
        Severity::Warning,
        "Mods Throwing Errors"@,
        "These mods logged exceptions during this session:\n"@,
        st.mods_erroring,
    ) + (if truncated {
        seq![
            finding(
                Severity::Warning,
                "Log Truncated"@,
                "Log exceeds 20,000 lines ("@ + crate::text::decimal(line_count)
                    + " total). Some entries may not have been scanned."@,
            ),
        ]
    } else {
        Seq::empty()
    })
}

/// The findings about problems, errors first, then warnings.
pub open spec fn issue_findings(st: ScanView, line_count: nat, truncated: bool) -> Seq<FindingView> {
    known_findings(st) + placement_findings(st) + loading_findings(st) + warning_findings(st, line_count, truncated)
}

/// Whether a finding counts as an issue.
pub open spec fn is_issue(f: FindingView) -> bool {
    f.severity == Severity::Error || f.severity == Severity::Warning
}

/// The number of issues among the findings.
pub open spec fn issue_count(fs: Seq<FindingView>) -> nat
    decreases fs.len(),
{
    if fs.len() == 0 {
        0
    } else {
        issue_count(fs.drop_last()) + if is_issue(fs.last()) {
            1nat
        } else {
            0nat
        }
    }
}

/// The closing summary.
pub open spec fn summary_findings(st: ScanView, before: Seq<FindingView>) -> Seq<FindingView> {
    let n = issue_count(before);
    if n == 0 && st.ml_version is Some {
        seq![
            finding(
                Severity::Okay,
                "Summary"@,
                "No issues detected. "@ + crate::text::decimal(st.loaded_mods.len() + st.loaded_plugins.len())
                    + " mod(s)/plugin(s) loaded cleanly."@,
            ),
        ]
    } else if n > 0 {
        seq![finding(Severity::Error, "Summary"@, crate::text::decimal(n) + " issue(s) found. Review the findings above."@)]
    } else {
        Seq::empty()
    }
}

/// All findings of a scan, in report order.
pub open spec fn compile_findings(st: ScanView, line_count: nat, truncated: bool) -> Seq<FindingView> {
    let before = header_findings(st) + issue_findings(st, line_count, truncated);
    before + summary_findings(st, before)
}


/// One finding of a scan report.
#[derive(Debug, Clone)]
pub struct Finding {
    pub severity: Severity,
    pub category: String,
    pub message: String,
}

impl Finding {
    pub open spec fn view(&self) -> FindingView {
        FindingView { severity: self.severity, category: self.category@, message: self.message@ }
    }
}

pub open spec fn findings_view(v: Seq<Finding>) -> Seq<FindingView> {
    v.map_values(|f: Finding| f@)
}

fn make_finding(severity: Severity, category: &str, message: &[char]) -> (f: Finding)
    ensures
        f@ == finding(severity, category@, message@),
{
    let c = chars_of(category);
    Finding { severity, category: string_from_chars(c.as_slice()), message: string_from_chars(message) }
}

fn push_finding(fs: &mut Vec<Finding>, f: Finding)
    ensures
        findings_view(final(fs)@) == findings_view(old(fs)@).push(f@),
{
    fs.push(f);
    assert(findings_view(fs@) =~= findings_view(old(fs)@).push(f@));
}

/// Appends the characters of `s` to `out`.
pub(crate) fn append_chars(out: &mut Vec<char>, s: &[char])
    ensures
        final(out)@ == old(out)@ + s@,
{
    let mut i: usize = 0;
    while i < s.len()
        invariant
            i <= s@.len(),
            out@ == old(out)@ + s@.take(i as int),
        decreases s.len() - i,
    {
        out.push(s[i]);
        assert(out@ =~= old(out)@ + s@.take(i + 1));
        i = i + 1;
    }
    assert(s@.take(s@.len() as int) =~= s@);
}

fn append_lit(out: &mut Vec<char>, lit: &str)
    ensures
        final(out)@ == old(out)@ + lit@,
{
    let c = chars_of(lit);
    append_chars(out, c.as_slice());
}

/// Decimal text of a count.
fn decimal_wide(n: u128) -> (r: Vec<char>)
    ensures
        r@ == crate::text::decimal(n as nat),
    decreases n,
{
    if n < 10 {
        let mut v = Vec::new();
        v.push(((n as u8) + 48) as char);
        v
    } else {
        let mut v = decimal_wide(n / 10);
        v.push((((n % 10) as u8) + 48) as char);
        v
    }
}

/// The items joined with `sep` between them.
pub(crate) fn join_with_chars(items: &Vec<Vec<char>>, sep: &[char]) -> (r: Vec<char>)
    ensures
        r@ == join_with(crate::text::pieces_view(items@), sep@),
{
    let mut out: Vec<char> = Vec::new();
    let mut i: usize = 0;
    while i < items.len()
        invariant
            i <= items@.len(),
            out@ == join_with(crate::text::pieces_view(items@).take(i as int), sep@),
        decreases items.len() - i,
    {
        let ghost pv = crate::text::pieces_view(items@);
        assert(pv.take(i + 1).drop_last() =~= pv.take(i as int));
        if i > 0 {
            append_chars(&mut out, sep);
        }
        append_chars(&mut out, items[i].as_slice());
        proof {
            if i == 0 {
                assert(pv.take(1) =~= seq![pv[0]]);
                assert(out@ =~= pv[0]);
            }
        }
        i = i + 1;
    }
    assert(crate::text::pieces_view(items@).take(items@.len() as int) =~= crate::text::pieces_view(items@));
    out
}

fn fmt_list_chars(items: &Vec<Vec<char>>) -> (r: Vec<char>)
    ensures
        r@ == fmt_list(crate::text::pieces_view(items@)),
{
    let mut bullets: Vec<Vec<char>> = Vec::new();
    let mut i: usize = 0;
    while i < items.len()
        invariant
            i <= items@.len(),
            crate::text::pieces_view(bullets@) == crate::text::pieces_view(items@).take(i as int).map_values(
                |s: Seq<char>| bullet(s),
            ),
        decreases items.len() - i,
    {
        let mut b = chars_of("\u{2022} ");
        append_chars(&mut b, items[i].as_slice());
        push_piece(&mut bullets, b);
        assert(crate::text::pieces_view(bullets@) =~= crate::text::pieces_view(items@).take(i + 1).map_values(
            |s: Seq<char>| bullet(s),
        ));
        i = i + 1;
    }
    assert(crate::text::pieces_view(items@).take(items@.len() as int) =~= crate::text::pieces_view(items@));
    let nl = chars_of("\n");
    join_with_chars(&bullets, nl.as_slice())
}

fn push_list_finding(fs: &mut Vec<Finding>, sev: Severity, cat: &str, intro: &str, items: &Vec<Vec<char>>)
    ensures
        findings_view(final(fs)@) == findings_view(old(fs)@) + list_finding(sev, cat@, intro@, crate::text::pieces_view(items@)),
{
    if items.len() > 0 {
        let mut msg = chars_of(intro);
        let l = fmt_list_chars(items);
        append_chars(&mut msg, l.as_slice());
        let f = make_finding(sev, cat, msg.as_slice());
        push_finding(fs, f);
        assert(findings_view(fs@) =~= findings_view(old(fs)@) + list_finding(sev, cat@, intro@, crate::text::pieces_view(items@)));
    } else {
        assert(findings_view(fs@) =~= findings_view(old(fs)@) + list_finding(sev, cat@, intro@, crate::text::pieces_view(items@)));
    }
}

fn insert_sorted_vec(q: &mut Vec<Vec<char>>, x: Vec<char>)
    ensures
        crate::text::pieces_view(final(q)@) == insert_sorted(crate::text::pieces_view(old(q)@), x@),
{
    let ghost q0 = crate::text::pieces_view(q@);
    let mut j: usize = 0;
    assert(q0.skip(0) =~= q0);
    assert(q0.take(0) + insert_sorted(q0.skip(0), x@) =~= insert_sorted(q0, x@));
    while j < q.len()
        invariant
            j <= q@.len(),
            q0 == crate::text::pieces_view(q@),
            q0 == crate::text::pieces_view(old(q)@),
            insert_sorted(q0, x@) == q0.take(j as int) + insert_sorted(q0.skip(j as int), x@),
        decreases q.len() - j,
    {
        assert(q0.skip(j as int)[0] == q@[j as int]@);
        assert(q0.skip(j as int).drop_first() =~= q0.skip(j + 1));
        if same_chars(x.as_slice(), q[j].as_slice()) {
            assert(q0.take(j as int) + q0.skip(j as int) =~= q0);
            return ;
        }
        if crate::api::chars_less(x.as_slice(), q[j].as_slice()) {
            let ghost xv = x@;
            q.insert(j, x);
            assert(crate::text::pieces_view(q@) =~= q0.take(j as int) + (seq![xv] + q0.skip(j as int)));
            return ;
        }
        assert(q0.take(j as int) + (seq![q0[j as int]] + insert_sorted(q0.skip(j + 1), x@)) =~= q0.take(j + 1)
            + insert_sorted(q0.skip(j + 1), x@));
        j = j + 1;
    }
    let ghost xv = x@;
    q.push(x);
    assert(q0.skip(j as int) =~= Seq::<Seq<char>>::empty());
    assert(crate::text::pieces_view(q@) =~= q0.take(j as int) + seq![xv]);
}

fn sorted_set_vec(items: &Vec<Vec<char>>) -> (r: Vec<Vec<char>>)
    ensures
        crate::text::pieces_view(r@) == sorted_set(crate::text::pieces_view(items@)),
{
    let mut out: Vec<Vec<char>> = Vec::new();
    let mut i: usize = 0;
    while i < items.len()
        invariant
            i <= items@.len(),
            crate::text::pieces_view(out@) == sorted_set(crate::text::pieces_view(items@).take(i as int)),
        decreases items.len() - i,
    {
        let ghost pv = crate::text::pieces_view(items@);
        assert(pv.take(i + 1).drop_last() =~= pv.take(i as int));
        let x = sub_chars(items[i].as_slice(), 0, items[i].len());
        assert(x@ =~= pv[i as int]);
        insert_sorted_vec(&mut out, x);
        i = i + 1;
    }
    assert(crate::text::pieces_view(items@).take(items@.len() as int) =~= crate::text::pieces_view(items@));
    out
}

fn copy_chars(s: &Vec<char>) -> (r: Vec<char>)
    ensures
        r@ == s@,
{
    let r = sub_chars(s.as_slice(), 0, s.len());
    assert(r@ =~= s@);
    r
}

fn mods_needing_vec(pairs: &Vec<(Vec<char>, Vec<char>)>, d: &[char]) -> (r: Vec<Vec<char>>)
    ensures
        crate::text::pieces_view(r@) == mods_needing(pairs_view(pairs@), d@),
{
    let mut out: Vec<Vec<char>> = Vec::new();
    let mut i: usize = 0;
    while i < pairs.len()
        invariant
            i <= pairs@.len(),
            crate::text::pieces_view(out@) == mods_needing(pairs_view(pairs@).take(i as int), d@),
        decreases pairs.len() - i,
    {
        let ghost pv = pairs_view(pairs@);
        assert(pv.take(i + 1).drop_last() =~= pv.take(i as int));
        assert(pv.take(i + 1).last() == (pairs@[i as int].0@, pairs@[i as int].1@));
        if same_chars(pairs[i].1.as_slice(), d) {
            push_piece(&mut out, copy_chars(&pairs[i].0));
        }
        i = i + 1;
    }
    assert(pairs_view(pairs@).take(pairs@.len() as int) =~= pairs_view(pairs@));
    out
}

fn dep_lines_vec(pairs: &Vec<(Vec<char>, Vec<char>)>) -> (r: Vec<Vec<char>>)
    ensures
        crate::text::pieces_view(r@) == dep_lines(pairs_view(pairs@)),
{
    let mut names: Vec<Vec<char>> = Vec::new();
    let mut i: usize = 0;
    while i < pairs.len()
        invariant
            i <= pairs@.len(),
            crate::text::pieces_view(names@) == dep_names(pairs_view(pairs@).take(i as int)),
        decreases pairs.len() - i,
    {
        push_piece(&mut names, copy_chars(&pairs[i].1));
        assert(dep_names(pairs_view(pairs@).take(i + 1)) =~= dep_names(pairs_view(pairs@).take(i as int)).push(pairs@[i as int].1@));
        i = i + 1;
    }
    assert(pairs_view(pairs@).take(pairs@.len() as int) =~= pairs_view(pairs@));
    let deps = sorted_set_vec(&names);
    let ghost dv = crate::text::pieces_view(deps@);
    let mut out: Vec<Vec<char>> = Vec::new();
    let mut k: usize = 0;
    while k < deps.len()
        invariant
            k <= deps@.len(),
            dv == crate::text::pieces_view(deps@),
            dv == sorted_set(dep_names(pairs_view(pairs@))),
            crate::text::pieces_view(out@) == dv.take(k as int).map_values(|d: Seq<char>| dep_line(pairs_view(pairs@), d)),
        decreases deps.len() - k,
    {
        let mods = mods_needing_vec(pairs, deps[k].as_slice());
        let sorted = sorted_set_vec(&mods);
        let sep = chars_of(", ");
        let joined = join_with_chars(&sorted, sep.as_slice());
        let mut line = copy_chars(&deps[k]);
        append_lit(&mut line, " \u{2014} needed by: ");
        append_chars(&mut line, joined.as_slice());
        assert(line@ == dep_line(pairs_view(pairs@), dv[k as int]));
        push_piece(&mut out, line);
        assert(crate::text::pieces_view(out@) =~= dv.take(k + 1).map_values(|d: Seq<char>| dep_line(pairs_view(pairs@), d)));
        k = k + 1;
    }
    assert(dv.take(deps@.len() as int) =~= dv);
    out
}

fn shown_missing_vec(deps: &Vec<Vec<char>>, pairs: &Vec<(Vec<char>, Vec<char>)>) -> (r: Vec<Vec<char>>)
    ensures
        crate::text::pieces_view(r@) == shown_missing(crate::text::pieces_view(deps@), pairs_view(pairs@)),
{
    let mut names: Vec<Vec<char>> = Vec::new();
    let mut i: usize = 0;
    while i < pairs.len()
        invariant
            i <= pairs@.len(),
            crate::text::pieces_view(names@) == dep_names(pairs_view(pairs@).take(i as int)),
        decreases pairs.len() - i,
    {
        push_piece(&mut names, copy_chars(&pairs[i].1));
        assert(dep_names(pairs_view(pairs@).take(i + 1)) =~= dep_names(pairs_view(pairs@).take(i as int)).push(pairs@[i as int].1@));
        i = i + 1;
    }
    assert(pairs_view(pairs@).take(pairs@.len() as int) =~= pairs_view(pairs@));
    let mut out: Vec<Vec<char>> = Vec::new();
    let mut k: usize = 0;
    while k < deps.len()
        invariant
            k <= deps@.len(),
            crate::text::pieces_view(names@) == dep_names(pairs_view(pairs@)),
            crate::text::pieces_view(out@) == shown_missing(crate::text::pieces_view(deps@).take(k as int), pairs_view(pairs@)),
        decreases deps.len() - k,
    {
        let ghost dv = crate::text::pieces_view(deps@);
        assert(dv.take(k + 1).drop_last() =~= dv.take(k as int));
        assert(dv.take(k + 1).last() == deps@[k as int]@);
        let d = deps[k].as_slice();
        if !contains_lit(d, "UnityEngine") && !begins(d, "System.") && !list_has(&names, d) {
            push_piece(&mut out, copy_chars(&deps[k]));
        }
        k = k + 1;
    }
    assert(crate::text::pieces_view(deps@).take(deps@.len() as int) =~= crate::text::pieces_view(deps@));
    out
}


fn push_header_findings(fs: &mut Vec<Finding>, st: &ScanState)
    ensures
        findings_view(final(fs)@) == findings_view(old(fs)@) + header_findings(st@),
{
    let ghost v = st@;
    match &st.ml_version {
        Some(ver) => {
            let mut m = chars_of("Version: ");
            append_chars(&mut m, ver.as_slice());
            push_finding(fs, make_finding(Severity::Info, "MelonLoader", m.as_slice()));
        },
        None => {
            let m = chars_of(
                "MelonLoader version not found \u{2014} the log may be incomplete or MelonLoader may not have started.",
            );
            push_finding(fs, make_finding(Severity::Warning, "MelonLoader", m.as_slice()));
        },
    }
    let ghost after1 = findings_view(fs@);
    match &st.game_name {
        Some(g) => {
            let mut m = chars_of("Game: ");
            append_chars(&mut m, g.as_slice());
            match &st.game_version {
                Some(gv) => {
                    append_lit(&mut m, "  v");
                    append_chars(&mut m, gv.as_slice());
                },
                None => {},
            }
            let ghost m1 = m@;
            if st.is_il2cpp {
                append_lit(&mut m, "  [Il2Cpp]");
            }
            if st.is_mono {
                append_lit(&mut m, "  [Mono]");
            }
            assert(m@ =~= "Game: "@ + g@ + opt_suffix(v.game_version, "  v"@) + flag_suffix(v.is_il2cpp, "  [Il2Cpp]"@)
                + flag_suffix(v.is_mono, "  [Mono]"@));
            push_finding(fs, make_finding(Severity::Info, "Game", m.as_slice()));
        },
        None => {},
    }
    let ghost after2 = findings_view(fs@);
    match &st.os_type {
        Some(os) => {
            let mut m = chars_of("OS: ");
            append_chars(&mut m, os.as_slice());
            match &st.arch {
                Some(a) => {
                    append_lit(&mut m, "  Arch: ");
                    append_chars(&mut m, a.as_slice());
                },
                None => {},
            }
            assert(m@ =~= "OS: "@ + os@ + opt_suffix(v.arch, "  Arch: "@));
            push_finding(fs, make_finding(Severity::Info, "System", m.as_slice()));
        },
        None => {},
    }
    let ghost after3 = findings_view(fs@);
    let mc = st.loaded_mods.len();
    let pc = st.loaded_plugins.len();
    assert(v.loaded_mods.len() == mc);
    assert(v.loaded_plugins.len() == pc);
    if mc > 0 || pc > 0 {
        let mut m = decimal_wide(mc as u128);
        append_lit(&mut m, " mod(s)  \u{2022}  ");
        let d = decimal_wide(pc as u128);
        append_chars(&mut m, d.as_slice());
        append_lit(&mut m, " plugin(s)");
        push_finding(fs, make_finding(Severity::Info, "Mods Loaded", m.as_slice()));
    }
    assert(findings_view(fs@) =~= findings_view(old(fs)@) + header_findings(v));
}

fn push_known_findings(fs: &mut Vec<Finding>, st: &ScanState)
    ensures
        findings_view(final(fs)@) == findings_view(old(fs)@) + known_findings(st@),
{
    let ghost v = st@;
    let ghost base = findings_view(fs@);
    let mut i: usize = 0;
    while i < st.known_errors.len()
        invariant
            i <= st.known_errors@.len(),
            v == st@,
            findings_view(fs@) == base + v.known_errors.take(i as int).map_values(
                |e: Seq<char>| finding(Severity::Error, "Known Error"@, e),
            ),
        decreases st.known_errors.len() - i,
    {
        let f = make_finding(Severity::Error, "Known Error", st.known_errors[i].as_slice());
        push_finding(fs, f);
        assert(v.known_errors[i as int] == st.known_errors@[i as int]@);
        assert(findings_view(fs@) =~= base + v.known_errors.take(i + 1).map_values(
            |e: Seq<char>| finding(Severity::Error, "Known Error"@, e),
        ));
        i = i + 1;
    }
    assert(v.known_errors.take(st.known_errors@.len() as int) =~= v.known_errors);
}

fn push_placement_findings(fs: &mut Vec<Finding>, st: &ScanState)
    ensures
        findings_view(final(fs)@) == findings_view(old(fs)@) + placement_findings(st@),
{
    push_list_finding(fs, Severity::Error, "Duplicate Mods", "Remove duplicate mod files:\n", &st.duplicates);
    push_list_finding(
        fs,
        Severity::Error,
        "Misplaced Mods",
        "These mods are in the Plugins folder \u{2014} move them to Mods/:\n",
        &st.misplaced_mods,
    );
    push_list_finding(
        fs,
        Severity::Error,
        "Misplaced Plugins",
        "These plugins are in the Mods folder \u{2014} move them to Plugins/:\n",
        &st.misplaced_plugs,
    );
    push_list_finding(
        fs,
        Severity::Error,
        "Incompatible Mods",
        "The following mods conflict and won't both load:\n",
        &st.incompatible_pairs,
    );
    assert(findings_view(fs@) =~= findings_view(old(fs)@) + placement_findings(st@));
}

fn push_loading_findings(fs: &mut Vec<Finding>, st: &ScanState)
    ensures
        findings_view(final(fs)@) == findings_view(old(fs)@) + loading_findings(st@),
{
    let dl = dep_lines_vec(&st.missing_dep_pairs);
    push_list_finding(fs, Severity::Error, "Missing Dependencies", "Install the following missing dependencies:\n", &dl);
    push_list_finding(
        fs,
        Severity::Error,
        "Assembly Load Failures",
        "Failed to load all types in these assemblies \u{2014} the mod may be outdated or incompatible:\n",
        &st.type_load_failures,
    );
    let sm = shown_missing_vec(&st.missing_deps, &st.missing_dep_pairs);
    push_list_finding(fs, Severity::Error, "Missing Assemblies", "Could not load:\n", &sm);
    assert(findings_view(fs@) =~= findings_view(old(fs)@) + loading_findings(st@));
}

fn push_warning_findings(fs: &mut Vec<Finding>, st: &ScanState, line_count: usize, truncated: bool)
    ensures
        findings_view(final(fs)@) == findings_view(old(fs)@) + warning_findings(st@, line_count as nat, truncated),
{
    push_list_finding(
        fs,
        Severity::Warning,
        "Incompatible Mods",
        "These mods failed to load (likely outdated for current ML/game version):\n",
        &st.old_mods,
    );
    push_list_finding(
        fs,
        Severity::Warning,
        "Mods Throwing Errors",
        "These mods logged exceptions during this session:\n",
        &st.mods_erroring,
    );
    if truncated {
        let mut m = chars_of("Log exceeds 20,000 lines (");
        let d = decimal_wide(line_count as u128);
        append_chars(&mut m, d.as_slice());
        append_lit(&mut m, " total). Some entries may not have been scanned.");
        push_finding(fs, make_finding(Severity::Warning, "Log Truncated", m.as_slice()));
    }
    assert(findings_view(fs@) =~= findings_view(old(fs)@) + warning_findings(st@, line_count as nat, truncated));
}

fn push_issue_findings(fs: &mut Vec<Finding>, st: &ScanState, line_count: usize, truncated: bool)
    ensures
        findings_view(final(fs)@) == findings_view(old(fs)@) + issue_findings(st@, line_count as nat, truncated),
{
    push_known_findings(fs, st);
    push_placement_findings(fs, st);
    push_loading_findings(fs, st);
    push_warning_findings(fs, st, line_count, truncated);
    assert(findings_view(fs@) =~= findings_view(old(fs)@) + issue_findings(st@, line_count as nat, truncated));
}

fn count_issues(fs: &Vec<Finding>) -> (n: usize)
    ensures
        n == issue_count(findings_view(fs@)),
{
    let mut n: usize = 0;
    let mut i: usize = 0;
    while i < fs.len()
        invariant
            i <= fs@.len(),
            n <= i,
            n == issue_count(findings_view(fs@).take(i as int)),
        decreases fs.len() - i,
    {
        assert(findings_view(fs@).take(i + 1).drop_last() =~= findings_view(fs@).take(i as int));
        assert(findings_view(fs@).take(i + 1).last() == fs@[i as int]@);
        if fs[i].severity == Severity::Error || fs[i].severity == Severity::Warning {
            n = n + 1;
        }
        i = i + 1;
    }
    assert(findings_view(fs@).take(fs@.len() as int) =~= findings_view(fs@));
    n
}

fn compile_findings_vec(st: &ScanState, line_count: usize, truncated: bool) -> (fs: Vec<Finding>)
    ensures
        findings_view(fs@) == compile_findings(st@, line_count as nat, truncated),
{
    let mut fs: Vec<Finding> = Vec::new();
    push_header_findings(&mut fs, st);
    push_issue_findings(&mut fs, st, line_count, truncated);
    let ghost before = findings_view(fs@);
    assert(before =~= header_findings(st@) + issue_findings(st@, line_count as nat, truncated));
    let n = count_issues(&fs);
    if n == 0 && st.ml_version.is_some() {
        let total: u128 = st.loaded_mods.len() as u128 + st.loaded_plugins.len() as u128;
        let mut m = chars_of("No issues detected. ");
        let d = decimal_wide(total);
        append_chars(&mut m, d.as_slice());
        append_lit(&mut m, " mod(s)/plugin(s) loaded cleanly.");
        push_finding(&mut fs, make_finding(Severity::Okay, "Summary", m.as_slice()));
    } else if n > 0 {
        let mut m = decimal_wide(n as u128);
        append_lit(&mut m, " issue(s) found. Review the findings above.");
        push_finding(&mut fs, make_finding(Severity::Error, "Summary", m.as_slice()));
    }
    assert(findings_view(fs@) =~= compile_findings(st@, line_count as nat, truncated));
    fs
}


/// The characters of an optional string.
pub open spec fn opt_str(o: Option<String>) -> Option<Seq<char>> {
    match o {
        Some(v) => Some(v@),
        None => None,
    }
}

/// A mod or plugin named in the log's listing.
#[derive(Debug, Clone)]
pub struct LoadedMod {
    pub name: String,
    pub version: Option<String>,
    pub author: Option<String>,
    pub hash: Option<String>,
    pub assembly: Option<String>,
}

impl LoadedMod {
    pub open spec fn view(&self) -> EntryView {
        EntryView {
            name: self.name@,
            version: opt_str(self.version),
            author: opt_str(self.author),
            hash: opt_str(self.hash),
            assembly: opt_str(self.assembly),
        }
    }
}

pub open spec fn loaded_view(v: Seq<LoadedMod>) -> Seq<EntryView> {
    v.map_values(|m: LoadedMod| m@)
}

/// The result of scanning a MelonLoader log.
#[derive(Debug, Clone)]
pub struct ScanReport {
    pub log_path: String,
    pub header_lines: Vec<String>,
    pub ml_version: Option<String>,
    pub game_name: Option<String>,
    pub game_version: Option<String>,
    pub game_path: Option<String>,
    pub os_type: Option<String>,
    pub arch: Option<String>,
    pub is_il2cpp: bool,
    pub is_mono: bool,
    pub loaded_mods: Vec<LoadedMod>,
    pub loaded_plugins: Vec<LoadedMod>,
    pub findings: Vec<Finding>,
    pub truncated: bool,
    pub line_count: usize,
}

/// A scan report as plain values.
#[verifier::ext_equal]
pub struct ReportView {
    pub log_path: Seq<char>,
    pub header_lines: Seq<Seq<char>>,
    pub ml_version: Option<Seq<char>>,
    pub game_name: Option<Seq<char>>,
    pub game_version: Option<Seq<char>>,
    pub game_path: Option<Seq<char>>,
    pub os_type: Option<Seq<char>>,
    pub arch: Option<Seq<char>>,
    pub is_il2cpp: bool,
    pub is_mono: bool,
    pub loaded_mods: Seq<EntryView>,
    pub loaded_plugins: Seq<EntryView>,
    pub findings: Seq<FindingView>,
    pub truncated: bool,
    pub line_count: nat,
}

impl ScanReport {
    pub open spec fn view(&self) -> ReportView {
        ReportView {
            log_path: self.log_path@,
            header_lines: crate::melon_dll::strings_view(self.header_lines@),
            ml_version: opt_str(self.ml_version),
            game_name: opt_str(self.game_name),
            game_version: opt_str(self.game_version),
            game_path: opt_str(self.game_path),
            os_type: opt_str(self.os_type),
            arch: opt_str(self.arch),
            is_il2cpp: self.is_il2cpp,
            is_mono: self.is_mono,
            loaded_mods: loaded_view(self.loaded_mods@),
            loaded_plugins: loaded_view(self.loaded_plugins@),
            findings: findings_view(self.findings@),
            truncated: self.truncated,
            line_count: self.line_count as nat,
        }
    }
}

/// The raw lines that carry text, each without trailing carriage returns.
pub open spec fn kept_lines(raw: Seq<Seq<char>>) -> Seq<Seq<char>>
    decreases raw.len(),
{
    if raw.len() == 0 {
        Seq::empty()
    } else {
        let k = kept_lines(raw.drop_last());
        let l = strip_trailing(raw.last(), '\r');
        if trim(l).len() > 0 {
            k.push(l)
        } else {
            k
        }
    }
}

/// At most this many lines are scanned.
pub open spec fn scan_limit(n: nat) -> nat {
    if n < 20000 {
        n
    } else {
        20000
    }
}

/// The first 25 lines that carry text, trimmed.
pub open spec fn header_of(kept: Seq<Seq<char>>) -> Seq<Seq<char>> {
    kept.take(if kept.len() < 25 {
        kept.len() as int
    } else {
        25
    }).map_values(|l: Seq<char>| trim(l))
}

/// The report for a log with text `content` read from `path`.
pub open spec fn spec_parse_log(content: Seq<char>, path: Seq<char>) -> ReportView {
    let raw = std_lines(content);
    let kept = kept_lines(raw);
    let st = scan_lines(kept.take(scan_limit(kept.len()) as int));
    let truncated = raw.len() > 20000;
    ReportView {
        log_path: path,
        header_lines: header_of(kept),
        ml_version: st.ml_version,
        game_name: st.game_name,
        game_version: st.game_version,
        game_path: st.game_path,
        os_type: st.os_type,
        arch: st.arch,
        is_il2cpp: st.is_il2cpp,
        is_mono: st.is_mono,
        loaded_mods: st.loaded_mods,
        loaded_plugins: st.loaded_plugins,
        findings: compile_findings(st, raw.len(), truncated),
        truncated: truncated,
        line_count: raw.len(),
    }
}

fn opt_string(o: &Option<Vec<char>>) -> (r: Option<String>)
    ensures
        opt_str(r) == opt_chars(*o),
{
    match o {
        Some(v) => Some(string_from_chars(v.as_slice())),
        None => None,
    }
}

fn loaded_mods_of(v: &Vec<Entry>) -> (r: Vec<LoadedMod>)
    ensures
        loaded_view(r@) == entries_view(v@),
{
    let mut out: Vec<LoadedMod> = Vec::new();
    let mut i: usize = 0;
    while i < v.len()
        invariant
            i <= v@.len(),
            loaded_view(out@) == entries_view(v@).take(i as int),
        decreases v.len() - i,
    {
        let e = &v[i];
        let m = LoadedMod {
            name: string_from_chars(e.name.as_slice()),
            version: opt_string(&e.version),
            author: opt_string(&e.author),
            hash: opt_string(&e.hash),
            assembly: opt_string(&e.assembly),
        };
        assert(m@ == e@);
        let ghost before = out@;
        out.push(m);
        assert(loaded_view(out@) =~= loaded_view(before).push(m@));
        assert(entries_view(v@).take(i + 1) =~= entries_view(v@).take(i as int).push(v@[i as int]@));
        assert(loaded_view(out@) =~= entries_view(v@).take(i + 1));
        i = i + 1;
    }
    assert(entries_view(v@).take(v@.len() as int) =~= entries_view(v@));
    out
}

fn kept_lines_vec(raw: &Vec<Vec<char>>) -> (r: Vec<Vec<char>>)
    ensures
        crate::text::pieces_view(r@) == kept_lines(crate::text::pieces_view(raw@)),
{
    let mut out: Vec<Vec<char>> = Vec::new();
    let mut i: usize = 0;
    while i < raw.len()
        invariant
            i <= raw@.len(),
            crate::text::pieces_view(out@) == kept_lines(crate::text::pieces_view(raw@).take(i as int)),
        decreases raw.len() - i,
    {
        let ghost pv = crate::text::pieces_view(raw@);
        assert(pv.take(i + 1).drop_last() =~= pv.take(i as int));
        assert(pv.take(i + 1).last() == raw@[i as int]@);
        let l = strip_trailing_chars(raw[i].as_slice(), '\r');
        let t = trim_chars(l.as_slice());
        if t.len() > 0 {
            push_piece(&mut out, l);
        }
        i = i + 1;
    }
    assert(crate::text::pieces_view(raw@).take(raw@.len() as int) =~= crate::text::pieces_view(raw@));
    out
}

fn header_lines_vec(kept: &Vec<Vec<char>>) -> (header: Vec<String>)
    ensures
        crate::melon_dll::strings_view(header@) == header_of(crate::text::pieces_view(kept@)),
{
    let ghost kv = crate::text::pieces_view(kept@);
    let hn: usize = if kept.len() < 25 {
        kept.len()
    } else {
        25
    };
    let mut header: Vec<String> = Vec::new();
    let mut h: usize = 0;
    while h < hn
        invariant
            h <= hn,
            hn <= kept@.len(),
            kv == crate::text::pieces_view(kept@),
            crate::melon_dll::strings_view(header@) == kv.take(h as int).map_values(|l: Seq<char>| trim(l)),
        decreases hn - h,
    {
        let t = trim_chars(kept[h].as_slice());
        let ghost before = header@;
        let line = string_from_chars(t.as_slice());
        header.push(line);
        assert(crate::melon_dll::strings_view(header@) =~= crate::melon_dll::strings_view(before).push(line@));
        assert(kv.take(h + 1).map_values(|l: Seq<char>| trim(l)) =~= kv.take(h as int).map_values(|l: Seq<char>| trim(l)).push(
            trim(kv[h as int]),
        ));
        h = h + 1;
    }
    header
}

fn scan_kept(kept: &Vec<Vec<char>>) -> (st: ScanState)
    ensures
        st@ == scan_lines(crate::text::pieces_view(kept@).take(scan_limit(kept@.len()) as int)),
{
    let ghost kv = crate::text::pieces_view(kept@);
    let limit: usize = if kept.len() < 20000 {
        kept.len()
    } else {
        20000
    };
    let mut st = new_scan_state();
    let mut i: usize = 0;
    while i < limit
        invariant
            i <= limit,
            limit <= kept@.len(),
            kv == crate::text::pieces_view(kept@),
            st@ == scan_lines(kv.take(i as int)),
        decreases limit - i,
    {
        assert(kv.take(i + 1).drop_last() =~= kv.take(i as int));
        assert(kv.take(i + 1).last() == kept@[i as int]@);
        let t = trim_chars(kept[i].as_slice());
        do_line(&mut st, t.as_slice());
        i = i + 1;
    }
    st
}

/// Reads the MelonLoader log text `content` (read from `log_path`) and reports
/// what it shows: MelonLoader, game and system facts, the mods and plugins
/// that loaded, and the problems found, with a closing summary.
pub fn parse_log(content: &str, log_path: String) -> (r: ScanReport)
    ensures
        r@ == spec_parse_log(content@, log_path@),
{
    let text = chars_of(content);
    let raw = split_lines(text.as_slice());
    let line_count = raw.len();
    let truncated = line_count > 20000;
    let kept = kept_lines_vec(&raw);
    let header = header_lines_vec(&kept);
    let st = scan_kept(&kept);
    let findings = compile_findings_vec(&st, line_count, truncated);
    let r = ScanReport {
        log_path: log_path,
        header_lines: header,
        ml_version: opt_string(&st.ml_version),
        game_name: opt_string(&st.game_name),
        game_version: opt_string(&st.game_version),
        game_path: opt_string(&st.game_path),
        os_type: opt_string(&st.os_type),
        arch: opt_string(&st.arch),
        is_il2cpp: st.is_il2cpp,
        is_mono: st.is_mono,
        loaded_mods: loaded_mods_of(&st.loaded_mods),
        loaded_plugins: loaded_mods_of(&st.loaded_plugins),
        findings: findings,
        truncated: truncated,
        line_count: line_count,
    };
    assert(r@ =~= spec_parse_log(content@, log_path@));
    r
}

/// `r` is `name` appended to `base`, with no separator or with one `/` or `\\`.
pub open spec fn joined(base: Seq<char>, name: Seq<char>, r: Seq<char>) -> bool {
    r == base + name || r == base + seq!['/'] + name || r == base + seq!['\\'] + name
}

/// A non-empty relative name without separators or a drive colon, and not
/// `.` or `..`.
pub open spec fn plain_name(name: Seq<char>) -> bool {
    &&& name.len() > 0
    &&& !name.contains('/')
    &&& !name.contains('\\')
    &&& !name.contains(':')
    &&& name != seq!['.']
    &&& name != seq!['.', '.']
}

/// `s` begins with the verbatim prefix `\\?\` that a Windows path may carry.
pub open spec fn verbatim_prefix(s: Seq<char>) -> bool {
    s.len() >= 4 && s[0] == '\\' && s[1] == '\\' && s[2] == '?' && s[3] == '\\'
}

/// Trusted: `std::path::Path::join` on text, turned back into a `String`.
/// Claimed: when `base` carries no verbatim prefix, joining a plain relative
/// name appends it to `base`, either directly or after one separator
/// (`PathBuf::push` adds one unless `base` is empty or already ends in one).
/// Which separator is used, and whether one is added, depend on the platform
/// and are left open. On Windows `push` normalizes a path with a verbatim
/// prefix (it drops `.` and `..` components, in `base` too), so nothing is
/// claimed of such a `base`.
#[verifier::external_body]
fn path_join(base: &str, name: &str) -> (r: String)
    requires
        plain_name(name@),
    ensures
        !verbatim_prefix(base@) ==> joined(base@, name@, r@),
{
    std::path::Path::new(base).join(name).to_string_lossy().into_owned()
}

/// `mid` is `dir` joined with `MelonLoader`, and `p` is `mid` joined with
/// `Latest.log`, each step claimed only from a path without a verbatim prefix.
pub open spec fn log_path_steps(dir: Seq<char>, mid: Seq<char>, p: Seq<char>) -> bool {
    &&& !verbatim_prefix(dir) ==> joined(dir, "MelonLoader"@, mid)
    &&& !verbatim_prefix(mid) ==> joined(mid, "Latest.log"@, p)
}

/// The path of MelonLoader's latest log under the game's install directory:
/// `<install_dir>/MelonLoader/Latest.log`. Each step appends the name with
/// one separator or none; a step from a path with a verbatim prefix is left
/// open (see `path_join`).
pub fn log_path(install_dir: &str) -> (p: String)
    ensures
        exists|mid: Seq<char>| #[trigger] log_path_steps(install_dir@, mid, p@),
{
    proof {
        reveal_strlit("MelonLoader");
        reveal_strlit("Latest.log");
        assert("MelonLoader"@.len() == 11 && "Latest.log"@.len() == 10);
        assert("MelonLoader"@ != seq!['.'] && "MelonLoader"@ != seq!['.', '.']);
        assert("Latest.log"@ != seq!['.'] && "Latest.log"@ != seq!['.', '.']);
    }
    let dir = path_join(install_dir, "MelonLoader");
    let p = path_join(dir.as_str(), "Latest.log");
    assert(log_path_steps(install_dir@, dir@, p@));
    p
}

} // verus!

verus! {

/// The facts shown on the first line above the findings.
pub open spec fn summary_parts(r: ReportView) -> Seq<Seq<char>> {
    let p1 = match r.ml_version {
        Some(ml) => seq!["MelonLoader v"@ + ml],
        None => Seq::empty(),
    };
    let p2 = match r.game_name {
        Some(g) => seq![g + opt_suffix(r.game_version, " v"@)],
        None => Seq::empty(),
    };
    let p3 = match r.os_type {
        Some(os) => seq![os],
        None => Seq::empty(),
    };
    p1 + p2 + p3
}

/// The first line above the findings, when there is anything to say.
pub open spec fn spec_summary_line(r: ReportView) -> Option<Seq<char>> {
    if summary_parts(r).len() > 0 {
        Some(join_with(summary_parts(r), "  \u{2022}  "@))
    } else {
        None
    }
}

/// MelonLoader version, game and system of a report, on one line.
pub fn report_summary_line(r: &ScanReport) -> (s: Option<String>)
    ensures
        opt_str(s) == spec_summary_line(r@),
{
    let mut parts: Vec<Vec<char>> = Vec::new();
    match &r.ml_version {
        Some(ml) => {
            let mut p = chars_of("MelonLoader v");
            let c = chars_of(ml.as_str());
            append_chars(&mut p, c.as_slice());
            push_piece(&mut parts, p);
        },
        None => {},
    }
    let ghost a1 = crate::text::pieces_view(parts@);
    match &r.game_name {
        Some(g) => {
            let mut p = chars_of(g.as_str());
            match &r.game_version {
                Some(v) => {
                    append_lit(&mut p, " v");
                    let c = chars_of(v.as_str());
                    append_chars(&mut p, c.as_slice());
                },
                None => {},
            }
            assert(p@ =~= g@ + opt_suffix(r@.game_version, " v"@));
            push_piece(&mut parts, p);
        },
        None => {},
    }
    match &r.os_type {
        Some(os) => push_piece(&mut parts, chars_of(os.as_str())),
        None => {},
    }
    assert(crate::text::pieces_view(parts@) =~= summary_parts(r@));
    if parts.len() == 0 {
        return None;
    }
    let sep = chars_of("  \u{2022}  ");
    let j = join_with_chars(&parts, sep.as_slice());
    Some(string_from_chars(j.as_slice()))
}

/// The line counting the loaded mods and plugins, when there are any.
pub open spec fn spec_loaded_line(r: ReportView) -> Option<Seq<char>> {
    if r.loaded_mods.len() > 0 || r.loaded_plugins.len() > 0 {
        Some(
            "Loaded: "@ + crate::text::decimal(r.loaded_mods.len()) + " mod(s)  \u{2022}  "@ + crate::text::decimal(
                r.loaded_plugins.len(),
            ) + " plugin(s)"@,
        )
    } else {
        None
    }
}

/// The line counting the loaded mods and plugins of a report.
pub fn loaded_line(r: &ScanReport) -> (s: Option<String>)
    ensures
        opt_str(s) == spec_loaded_line(r@),
{
    let m = r.loaded_mods.len();
    let p = r.loaded_plugins.len();
    assert(r@.loaded_mods.len() == m);
    assert(r@.loaded_plugins.len() == p);
    if m == 0 && p == 0 {
        return None;
    }
    let mut t = chars_of("Loaded: ");
    let d1 = decimal_wide(m as u128);
    append_chars(&mut t, d1.as_slice());
    append_lit(&mut t, " mod(s)  \u{2022}  ");
    let d2 = decimal_wide(p as u128);
    append_chars(&mut t, d2.as_slice());
    append_lit(&mut t, " plugin(s)");
    Some(string_from_chars(t.as_slice()))
}

/// The line shown for one loaded mod or plugin: name, version and author.
pub open spec fn spec_entry_line(e: EntryView, plugin: bool) -> Seq<char> {
    flag_suffix(plugin, "[Plugin] "@) + e.name + opt_suffix(e.version, "  v"@) + opt_suffix(e.author, "  by "@)
}

/// The line shown for one loaded mod or plugin.
pub fn entry_line(m: &LoadedMod, plugin: bool) -> (s: String)
    ensures
        s@ == spec_entry_line(m@, plugin),
{
    let mut t: Vec<char> = Vec::new();
    if plugin {
        append_lit(&mut t, "[Plugin] ");
    }
    let n = chars_of(m.name.as_str());
    append_chars(&mut t, n.as_slice());
    match &m.version {
        Some(v) => {
            append_lit(&mut t, "  v");
            let c = chars_of(v.as_str());
            append_chars(&mut t, c.as_slice());
        },
        None => {},
    }
    match &m.author {
        Some(a) => {
            append_lit(&mut t, "  by ");
            let c = chars_of(a.as_str());
            append_chars(&mut t, c.as_slice());
        },
        None => {},
    }
    assert(t@ =~= spec_entry_line(m@, plugin));
    string_from_chars(t.as_slice())
}

/// Info findings about facts already shown above the list are not repeated.
pub open spec fn finding_shown(f: FindingView) -> bool {
    !(f.severity == Severity::Info && (f.category == "MelonLoader"@ || f.category == "Game"@ || f.category
        == "System"@ || f.category == "Mods"@))
}

/// Whether a finding is listed in the debug tab.
pub fn show_finding(f: &Finding) -> (r: bool)
    ensures
        r == finding_shown(f@),
{
    if f.severity != Severity::Info {
        return true;
    }
    let c = f.category.as_str();
    !(crate::text::str_eq(c, "MelonLoader") || crate::text::str_eq(c, "Game") || crate::text::str_eq(c, "System")
        || crate::text::str_eq(c, "Mods"))
}

/// The style class and icon of a finding's severity.
pub open spec fn spec_severity_style(s: Severity) -> (Seq<char>, Seq<char>) {
    match s {
        Severity::Okay => ("debug-finding-ok"@, "\u{2705}"@),
        Severity::Info => ("debug-finding-info"@, "\u{2139}"@),
        Severity::Warning => ("debug-finding-warn"@, "\u{26a0}"@),
        Severity::Error => ("debug-finding-error"@, "\u{274c}"@),
    }
}

/// The style class and icon of a finding's severity.
pub fn severity_style(s: Severity) -> (r: (&'static str, &'static str))
    ensures
        (r.0@, r.1@) == spec_severity_style(s),
{
    match s {
        Severity::Okay => ("debug-finding-ok", "\u{2705}"),
        Severity::Info => ("debug-finding-info", "\u{2139}"),
        Severity::Warning => ("debug-finding-warn", "\u{26a0}"),
        Severity::Error => ("debug-finding-error", "\u{274c}"),
    }
}

/// A finding's heading: its severity icon and its category.
pub fn finding_heading(f: &Finding) -> (s: String)
    ensures
        s@ == spec_severity_style(f.severity).1 + " "@ + f.category@,
{
    let (_, icon) = severity_style(f.severity);
    let mut t = chars_of(icon);
    append_lit(&mut t, " ");
    let c = chars_of(f.category.as_str());
    append_chars(&mut t, c.as_slice());
    string_from_chars(t.as_slice())
}

/// The status line after a scan.
pub open spec fn spec_scan_status(r: ReportView) -> Seq<char> {
    "Scan complete \u{2014} "@ + crate::text::decimal(r.line_count) + " line(s) read  \u{2022}  "@ + crate::text::decimal(
        r.loaded_mods.len(),
    ) + " mod(s)  \u{2022}  "@ + crate::text::decimal(r.loaded_plugins.len()) + " plugin(s)  \u{2022}  "@
        + crate::text::decimal(issue_count(r.findings)) + " issue(s) found"@ + flag_suffix(
        r.truncated,
        "  \u{2022}  \u{26a0} Log truncated"@,
    )
}

/// The status line after a scan: lines read, mods, plugins and issues.
pub fn scan_status(r: &ScanReport) -> (s: String)
    ensures
        s@ == spec_scan_status(r@),
{
    let mut t = chars_of("Scan complete \u{2014} ");
    let d = decimal_wide(r.line_count as u128);
    append_chars(&mut t, d.as_slice());
    append_lit(&mut t, " line(s) read  \u{2022}  ");
    assert(r@.loaded_mods.len() == r.loaded_mods@.len());
    assert(r@.loaded_plugins.len() == r.loaded_plugins@.len());
    let d = decimal_wide(r.loaded_mods.len() as u128);
    append_chars(&mut t, d.as_slice());
    append_lit(&mut t, " mod(s)  \u{2022}  ");
    let d = decimal_wide(r.loaded_plugins.len() as u128);
    append_chars(&mut t, d.as_slice());
    append_lit(&mut t, " plugin(s)  \u{2022}  ");
    let n = count_issues(&r.findings);
    let d = decimal_wide(n as u128);
    append_chars(&mut t, d.as_slice());
    append_lit(&mut t, " issue(s) found");
    if r.truncated {
        append_lit(&mut t, "  \u{2022}  \u{26a0} Log truncated");
    }
    assert(t@ =~= spec_scan_status(r@));
    string_from_chars(t.as_slice())
}

} // verus!

verus! {

/// Each item sorts strictly before every later one.
pub open spec fn strictly_ascending(s: Seq<Seq<char>>) -> bool {
    forall|i: int, j: int| 0 <= i < j < s.len() ==> crate::api::chars_lt(#[trigger] s[i], #[trigger] s[j])
}

proof fn lemma_insert_sorted(q: Seq<Seq<char>>, x: Seq<char>)
    requires
        strictly_ascending(q),
    ensures
        strictly_ascending(insert_sorted(q, x)),
        forall|y: Seq<char>| #[trigger] insert_sorted(q, x).contains(y) <==> (q.contains(y) || y == x),
    decreases q.len(),
{
    let r = insert_sorted(q, x);
    if q.len() == 0 {
        assert(r =~= seq![x]);
        assert forall|y: Seq<char>| r.contains(y) <==> (q.contains(y) || y == x) by {
            if r.contains(y) {
                let k = choose|k: int| 0 <= k < r.len() && r[k] == y;
                assert(k == 0);
            }
            if y == x {
                assert(r[0] == y);
            }
        }
    } else if x == q[0] {
        assert forall|y: Seq<char>| r.contains(y) <==> (q.contains(y) || y == x) by {
            if y == x {
                assert(q[0] == y);
            }
        }
    } else if crate::api::chars_lt(x, q[0]) {
        assert forall|i: int, j: int| 0 <= i < j < r.len() implies crate::api::chars_lt(#[trigger] r[i], #[trigger] r[j]) by {
            if i == 0 {
                assert(r[j] == q[j - 1]);
                if j - 1 > 0 {
                    assert(crate::api::chars_lt(q[0], q[j - 1]));
                    crate::api::lemma_chars_lt_transitive(x, q[0], q[j - 1]);
                }
            } else {
                assert(r[i] == q[i - 1] && r[j] == q[j - 1]);
            }
        }
        assert forall|y: Seq<char>| r.contains(y) <==> (q.contains(y) || y == x) by {
            if r.contains(y) {
                let k = choose|k: int| 0 <= k < r.len() && r[k] == y;
                if k > 0 {
                    assert(q[k - 1] == y);
                }
            }
            if q.contains(y) {
                let k = choose|k: int| 0 <= k < q.len() && q[k] == y;
                assert(r[k + 1] == y);
            }
            if y == x {
                assert(r[0] == y);
            }
        }
    } else {
        let rest = q.drop_first();
        assert(strictly_ascending(rest)) by {
            assert forall|i: int, j: int| 0 <= i < j < rest.len() implies crate::api::chars_lt(#[trigger] rest[i], #[trigger] rest[j]) by {
                assert(rest[i] == q[i + 1] && rest[j] == q[j + 1]);
            }
        }
        lemma_insert_sorted(rest, x);
        let t = insert_sorted(rest, x);
        assert(r == seq![q[0]] + t);
        crate::api::lemma_chars_lt_total(x, q[0]);
        assert(crate::api::chars_lt(q[0], x));
        assert forall|k: int| 0 <= k < t.len() implies crate::api::chars_lt(q[0], #[trigger] t[k]) by {
            assert(t.contains(t[k]));
            if t[k] != x {
                assert(rest.contains(t[k]));
                let m = choose|m: int| 0 <= m < rest.len() && rest[m] == t[k];
                assert(q[m + 1] == t[k]);
                assert(crate::api::chars_lt(q[0], q[m + 1]));
            }
        }
        assert forall|i: int, j: int| 0 <= i < j < r.len() implies crate::api::chars_lt(#[trigger] r[i], #[trigger] r[j]) by {
            if i == 0 {
                assert(r[j] == t[j - 1]);
            } else {
                assert(r[i] == t[i - 1] && r[j] == t[j - 1]);
            }
        }
        assert forall|y: Seq<char>| r.contains(y) <==> (q.contains(y) || y == x) by {
            if r.contains(y) {
                let k = choose|k: int| 0 <= k < r.len() && r[k] == y;
                if k > 0 {
                    assert(t[k - 1] == y);
                    assert(t.contains(y));
                    if y != x {
                        assert(rest.contains(y));
                        let m = choose|m: int| 0 <= m < rest.len() && rest[m] == y;
                        assert(rest[m] == q[m + 1]);
                        assert(q[m + 1] == y);
                    }
                } else {
                    assert(q[0] == y);
                }
            }
            if q.contains(y) {
                let k = choose|k: int| 0 <= k < q.len() && q[k] == y;
                if k == 0 {
                    assert(r[0] == y);
                } else {
                    assert(rest[k - 1] == y);
                    assert(rest.contains(y));
                    assert(t.contains(y));
                    let m = choose|m: int| 0 <= m < t.len() && t[m] == y;
                    assert(r[m + 1] == y);
                }
            }
            if y == x {
                assert(t.contains(x));
                let m = choose|m: int| 0 <= m < t.len() && t[m] == x;
                assert(r[m + 1] == y);
            }
        }
    }
}

/// The missing dependencies (and the mods that need each) are listed in
/// ascending order, each once, and exactly those that were named.
pub proof fn law_sorted_set(items: Seq<Seq<char>>)
    ensures
        strictly_ascending(sorted_set(items)),
        forall|y: Seq<char>| #[trigger] sorted_set(items).contains(y) <==> items.contains(y),
    decreases items.len(),
{
    if items.len() > 0 {
        law_sorted_set(items.drop_last());
        lemma_insert_sorted(sorted_set(items.drop_last()), items.last());
        assert forall|y: Seq<char>| sorted_set(items).contains(y) <==> items.contains(y) by {
            if items.drop_last().contains(y) {
                let k = choose|k: int| 0 <= k < items.drop_last().len() && items.drop_last()[k] == y;
                assert(items[k] == y);
            }
            if items.contains(y) {
                let k = choose|k: int| 0 <= k < items.len() && items[k] == y;
                if k < items.len() - 1 {
                    assert(items.drop_last()[k] == y);
                }
            }
        }
    } else {
        assert(sorted_set(items) =~= Seq::<Seq<char>>::empty());
    }
}

} // verus!

verus! {

proof fn lemma_issue_count_append(a: Seq<FindingView>, b: Seq<FindingView>)
    ensures
        issue_count(a + b) == issue_count(a) + issue_count(b),
    decreases b.len(),
{
    if b.len() == 0 {
        assert(a + b =~= a);
    } else {
        lemma_issue_count_append(a, b.drop_last());
        assert((a + b).drop_last() =~= a + b.drop_last());
    }
}

/// Every report opens with the MelonLoader finding: its version as
/// information, or a warning that no version was found.
pub proof fn law_report_opens_with_version(content: Seq<char>, path: Seq<char>)
    ensures
        spec_parse_log(content, path).findings.len() > 0,
        spec_parse_log(content, path).findings[0].category == "MelonLoader"@,
        spec_parse_log(content, path).findings[0].severity == (if spec_parse_log(content, path).ml_version is Some {
            Severity::Info
        } else {
            Severity::Warning
        }),
{
}

/// A report closes with a summary: an error summary counting the issues
/// whenever any finding is an error or a warning, else (when MelonLoader's
/// version was found) an all-clear. A log without a MelonLoader version
/// therefore always ends in an error summary.
pub proof fn law_summary_closes_report(st: ScanView, line_count: nat, truncated: bool)
    ensures
        ({
            let before = header_findings(st) + issue_findings(st, line_count, truncated);
            let fs = compile_findings(st, line_count, truncated);
            &&& issue_count(before) > 0 ==> fs.len() == before.len() + 1 && fs.last().severity == Severity::Error
                && fs.last().category == "Summary"@ && fs.last().message == crate::text::decimal(issue_count(before))
                + " issue(s) found. Review the findings above."@
            &&& issue_count(before) == 0 && st.ml_version is Some ==> fs.len() == before.len() + 1 && fs.last().severity
                == Severity::Okay && fs.last().category == "Summary"@
            &&& issue_count(before) == 0 && st.ml_version is None ==> fs == before
            &&& st.ml_version is None ==> issue_count(before) > 0
        }),
{
    let before = header_findings(st) + issue_findings(st, line_count, truncated);
    let h = header_findings(st);
    lemma_issue_count_append(h, issue_findings(st, line_count, truncated));
    let f1 = h[0];
    let rest = h.subrange(1, h.len() as int);
    assert(h =~= seq![f1] + rest);
    lemma_issue_count_append(seq![f1], rest);
    assert(issue_count(seq![f1]) == (if is_issue(f1) { 1nat } else { 0nat })) by {
        let one = seq![f1];
        assert(one.drop_last() =~= Seq::<FindingView>::empty());
        assert(one.last() == f1);
        assert(issue_count(one.drop_last()) == 0);
    }
}

} // verus!

verus! {

/// No item occurs twice.
pub open spec fn no_repeats(s: Seq<Seq<char>>) -> bool {
    forall|i: int, j: int| 0 <= i < j < s.len() ==> #[trigger] s[i] != #[trigger] s[j]
}

/// The lists that a scan keeps without repeats.
pub open spec fn lists_without_repeats(st: ScanView) -> bool {
    &&& no_repeats(st.type_load_failures)
    &&& no_repeats(st.duplicates)
    &&& no_repeats(st.missing_deps)
    &&& no_repeats(st.old_mods)
}

proof fn lemma_add_unique_all()
    ensures
        forall|l: Seq<Seq<char>>, x: Seq<char>| no_repeats(l) ==> #[trigger] no_repeats(add_unique(l, x)),
{
    assert forall|l: Seq<Seq<char>>, x: Seq<char>| no_repeats(l) implies #[trigger] no_repeats(add_unique(l, x)) by {
        if !l.contains(x) {
            let r = l.push(x);
            assert forall|i: int, j: int| 0 <= i < j < r.len() implies #[trigger] r[i] != #[trigger] r[j] by {
                if j == l.len() {
                    assert(r[i] == l[i]);
                } else {
                    assert(r[i] == l[i] && r[j] == l[j]);
                }
            }
        }
    }
}

proof fn lemma_meta_keeps(st: ScanView, line: Seq<char>, cp: Seq<char>)
    requires
        lists_without_repeats(st),
    ensures
        lists_without_repeats(step_meta(st, line, cp)),
{
    lemma_add_unique_all();
    let s5 = step_security(step_game_path(step_game(step_os_arch(step_ml_version(st, cp), cp), cp), cp), line);
    assert(lists_without_repeats(s5));
}

proof fn lemma_issues_keeps(st: ScanView, line: Seq<char>, cp: Seq<char>)
    requires
        lists_without_repeats(st),
    ensures
        lists_without_repeats(step_issues(st, line, cp)),
{
    lemma_add_unique_all();
    let s1 = step_misplaced(st, cp);
    assert(lists_without_repeats(s1));
    let s2 = step_duplicates(s1, line, cp);
    assert(lists_without_repeats(s2));
    let s3 = step_missing_asm(s2, cp);
    assert(lists_without_repeats(s3));
    let s4 = step_resolve(s3, line, cp);
    assert(lists_without_repeats(s4));
    let s5 = step_tagged(s4, cp);
    assert(lists_without_repeats(s5));
}

proof fn lemma_blocks_keep(st: ScanView, cp: Seq<char>)
    requires
        lists_without_repeats(st),
    ensures
        lists_without_repeats(step_deps_block(st, cp).0),
        lists_without_repeats(step_incompat(st, cp).0),
{
}

proof fn lemma_commit_keeps(st: ScanView)
    ensures
        step_commit(st).type_load_failures == st.type_load_failures,
        step_commit(st).duplicates == st.duplicates,
        step_commit(st).missing_deps == st.missing_deps,
        step_commit(st).old_mods == st.old_mods,
{
}

#[verifier::rlimit(80)]
proof fn lemma_in_listing_keeps(st: ScanView, cp: Seq<char>)
    requires
        lists_without_repeats(st),
    ensures
        lists_without_repeats(step_in_listing(st, cp)),
{
    lemma_commit_keeps(st);
    let r = step_in_listing(st, cp);
    assert(r.type_load_failures == st.type_load_failures);
    assert(r.duplicates == st.duplicates);
    assert(r.missing_deps == st.missing_deps);
    assert(r.old_mods == st.old_mods);
}

proof fn lemma_listing_keeps(st: ScanView, cp: Seq<char>)
    requires
        lists_without_repeats(st),
    ensures
        lists_without_repeats(step_listing(st, cp)),
{
    lemma_in_listing_keeps(st, cp);
}

proof fn lemma_line_step_keeps(st: ScanView, line: Seq<char>)
    requires
        lists_without_repeats(st),
    ensures
        lists_without_repeats(line_step(st, line)),
{
    if !(line.len() == 0 || utf8_len(line) > 1200) {
        let cp = strip_ts(line);
        lemma_meta_keeps(st, line, cp);
        let s1 = step_meta(st, line, cp);
        lemma_blocks_keep(s1, cp);
        let (s2, used2) = step_deps_block(s1, cp);
        if !used2 {
            lemma_blocks_keep(s2, cp);
            let (s3, used3) = step_incompat(s2, cp);
            if !used3 {
                lemma_issues_keeps(s3, line, cp);
                lemma_listing_keeps(step_issues(s3, line, cp), cp);
            }
        }
    }
}

/// The type load failures, duplicate files, missing assemblies and outdated
/// mods that a scan collects never name the same thing twice.
pub proof fn law_scan_lists_without_repeats(lines: Seq<Seq<char>>)
    ensures
        lists_without_repeats(scan_lines(lines)),
    decreases lines.len(),
{
    if lines.len() > 0 {
        law_scan_lists_without_repeats(lines.drop_last());
        lemma_line_step_keeps(scan_lines(lines.drop_last()), trim(lines.last()));
    }
}

} // verus!

verus! {

/// The warning that the log was cut.
pub open spec fn is_truncation_warning(f: FindingView) -> bool {
    f.severity == Severity::Warning && f.category == "Log Truncated"@
}

/// None of the findings is the truncation warning.
pub open spec fn no_truncation_warning(fs: Seq<FindingView>) -> bool {
    forall|i: int| 0 <= i < fs.len() ==> !is_truncation_warning(#[trigger] fs[i])
}

proof fn lemma_no_truncation_concat(a: Seq<FindingView>, b: Seq<FindingView>)
    requires
        no_truncation_warning(a),
        no_truncation_warning(b),
    ensures
        no_truncation_warning(a + b),
{
    assert forall|i: int| 0 <= i < (a + b).len() implies !is_truncation_warning(#[trigger] (a + b)[i]) by {
        if i < a.len() {
            assert((a + b)[i] == a[i]);
        } else {
            assert((a + b)[i] == b[i - a.len()]);
        }
    }
}

proof fn lemma_list_finding_not_truncation(sev: Severity, cat: Seq<char>, intro: Seq<char>, items: Seq<Seq<char>>)
    requires
        sev != Severity::Warning || cat != "Log Truncated"@,
    ensures
        no_truncation_warning(list_finding(sev, cat, intro, items)),
{
}

proof fn lemma_categories_differ()
    ensures
        "MelonLoader"@ != "Log Truncated"@,
        "Incompatible Mods"@ != "Log Truncated"@,
        "Mods Throwing Errors"@ != "Log Truncated"@,
{
    reveal_strlit("MelonLoader");
    reveal_strlit("Log Truncated");
    reveal_strlit("Incompatible Mods");
    reveal_strlit("Mods Throwing Errors");
    assert("MelonLoader"@.len() != "Log Truncated"@.len());
    assert("Incompatible Mods"@.len() != "Log Truncated"@.len());
    assert("Mods Throwing Errors"@.len() != "Log Truncated"@.len());
}

/// A report says that the log was cut exactly when the log has more than
/// 20000 lines, and exactly then a "Log Truncated" warning is among its
/// findings.
pub proof fn law_truncation_reported(content: Seq<char>, path: Seq<char>)
    ensures
        ({
            let r = spec_parse_log(content, path);
            &&& r.truncated <==> r.line_count > 20000
            &&& r.truncated <==> exists|i: int| 0 <= i < r.findings.len() && #[trigger] is_truncation_warning(r.findings[i])
        }),
{
    let raw = std_lines(content);
    let kept = kept_lines(raw);
    let st = scan_lines(kept.take(scan_limit(kept.len()) as int));
    let truncated = raw.len() > 20000;
    let lc = raw.len();
    let r = spec_parse_log(content, path);
    let before = header_findings(st) + issue_findings(st, lc, truncated);
    let fs = compile_findings(st, lc, truncated);
    assert(r.findings == fs);
    assert(fs == before + summary_findings(st, before));
    lemma_categories_differ();
    if truncated {
        let w = warning_findings(st, lc, truncated);
        reveal_strlit("Log Truncated");
        assert(w.len() > 0 && is_truncation_warning(w.last()));
        let iss = issue_findings(st, lc, truncated);
        assert(iss.last() == w.last());
        assert(before.last() == iss.last());
        let idx = before.len() - 1;
        assert(fs[idx] == before[idx]);
        assert(is_truncation_warning(r.findings[idx]));
    } else {
        let f1 = header_findings(st)[0];
        assert forall|i: int| 0 <= i < header_findings(st).len() implies !is_truncation_warning(
            #[trigger] header_findings(st)[i],
        ) by {
            if i == 0 {
                assert(header_findings(st)[0].category == "MelonLoader"@);
            }
        }
        assert forall|i: int| 0 <= i < known_findings(st).len() implies !is_truncation_warning(
            #[trigger] known_findings(st)[i],
        ) by {}
        lemma_list_finding_not_truncation(Severity::Error, "Duplicate Mods"@, "Remove duplicate mod files:\n"@, st.duplicates);
        lemma_list_finding_not_truncation(
            Severity::Error,
            "Misplaced Mods"@,
            "These mods are in the Plugins folder \u{2014} move them to Mods/:\n"@,
            st.misplaced_mods,
        );
        lemma_list_finding_not_truncation(
            Severity::Error,
            "Misplaced Plugins"@,
            "These plugins are in the Mods folder \u{2014} move them to Plugins/:\n"@,
            st.misplaced_plugs,
        );
        lemma_list_finding_not_truncation(
            Severity::Error,
            "Incompatible Mods"@,
            "The following mods conflict and won't both load:\n"@,
            st.incompatible_pairs,
        );
        lemma_list_finding_not_truncation(
            Severity::Error,
            "Missing Dependencies"@,
            "Install the following missing dependencies:\n"@,
            dep_lines(st.missing_dep_pairs),
        );
        lemma_list_finding_not_truncation(
            Severity::Error,
            "Assembly Load Failures"@,
            "Failed to load all types in these assemblies \u{2014} the mod may be outdated or incompatible:\n"@,
            st.type_load_failures,
        );
        lemma_list_finding_not_truncation(
            Severity::Error,
            "Missing Assemblies"@,
            "Could not load:\n"@,
            shown_missing(st.missing_deps, st.missing_dep_pairs),
        );
        lemma_list_finding_not_truncation(
            Severity::Warning,
            "Incompatible Mods"@,
            "These mods failed to load (likely outdated for current ML/game version):\n"@,
            st.old_mods,
        );
        lemma_list_finding_not_truncation(
            Severity::Warning,
            "Mods Throwing Errors"@,
            "These mods logged exceptions during this session:\n"@,
            st.mods_erroring,
        );
        let p1 = list_finding(Severity::Error, "Duplicate Mods"@, "Remove duplicate mod files:\n"@, st.duplicates);
        let p2 = list_finding(
            Severity::Error,
            "Misplaced Mods"@,
            "These mods are in the Plugins folder \u{2014} move them to Mods/:\n"@,
            st.misplaced_mods,
        );
        let p3 = list_finding(
            Severity::Error,
            "Misplaced Plugins"@,
            "These plugins are in the Mods folder \u{2014} move them to Plugins/:\n"@,
            st.misplaced_plugs,
        );
        let p4 = list_finding(
            Severity::Error,
            "Incompatible Mods"@,
            "The following mods conflict and won't both load:\n"@,
            st.incompatible_pairs,
        );
        lemma_no_truncation_concat(p1, p2);
        lemma_no_truncation_concat(p1 + p2, p3);
        lemma_no_truncation_concat(p1 + p2 + p3, p4);
        assert(placement_findings(st) == p1 + p2 + p3 + p4);
        let l1 = list_finding(
            Severity::Error,
            "Missing Dependencies"@,
            "Install the following missing dependencies:\n"@,
            dep_lines(st.missing_dep_pairs),
        );
        let l2 = list_finding(
            Severity::Error,
            "Assembly Load Failures"@,
            "Failed to load all types in these assemblies \u{2014} the mod may be outdated or incompatible:\n"@,
            st.type_load_failures,
        );
        let l3 = list_finding(
            Severity::Error,
            "Missing Assemblies"@,
            "Could not load:\n"@,
            shown_missing(st.missing_deps, st.missing_dep_pairs),
        );
        lemma_no_truncation_concat(l1, l2);
        lemma_no_truncation_concat(l1 + l2, l3);
        assert(loading_findings(st) == l1 + l2 + l3);
        let w1 = list_finding(
            Severity::Warning,
            "Incompatible Mods"@,
            "These mods failed to load (likely outdated for current ML/game version):\n"@,
            st.old_mods,
        );
        let w2 = list_finding(
            Severity::Warning,
            "Mods Throwing Errors"@,
            "These mods logged exceptions during this session:\n"@,
            st.mods_erroring,
        );
        lemma_no_truncation_concat(w1, w2);
        assert(warning_findings(st, lc, truncated) =~= w1 + w2);
        lemma_no_truncation_concat(known_findings(st), placement_findings(st));
        lemma_no_truncation_concat(known_findings(st) + placement_findings(st), loading_findings(st));
        lemma_no_truncation_concat(
            known_findings(st) + placement_findings(st) + loading_findings(st),
            warning_findings(st, lc, truncated),
        );
        lemma_no_truncation_concat(header_findings(st), issue_findings(st, lc, truncated));
        assert forall|i: int| 0 <= i < summary_findings(st, before).len() implies !is_truncation_warning(
            #[trigger] summary_findings(st, before)[i],
        ) by {}
        lemma_no_truncation_concat(before, summary_findings(st, before));
        assert(no_truncation_warning(r.findings));
    }
}

/// The first 25 lines of `raw` that carry text, trimmed, in order.
pub open spec fn first_text_lines(raw: Seq<Seq<char>>) -> Seq<Seq<char>> {
    let t = raw.map_values(|l: Seq<char>| trimmed_line(l)).filter(|t: Seq<char>| has_text(t));
    t.take(if t.len() < 25 { t.len() as int } else { 25 })
}

/// A line trimmed.
pub open spec fn trimmed_line(l: Seq<char>) -> Seq<char> {
    trim(l)
}

/// The line carries text.
pub open spec fn has_text(t: Seq<char>) -> bool {
    t.len() > 0
}

proof fn lemma_kept_trimmed(raw: Seq<Seq<char>>)
    ensures
        kept_lines(raw).map_values(|l: Seq<char>| trimmed_line(l)) == raw.map_values(|l: Seq<char>| trimmed_line(l)).filter(
            |t: Seq<char>| has_text(t),
        ),
    decreases raw.len(),
{
    reveal(Seq::filter);
    if raw.len() == 0 {
        assert(kept_lines(raw).map_values(|l: Seq<char>| trimmed_line(l)) =~= Seq::<Seq<char>>::empty());
        assert(raw.map_values(|l: Seq<char>| trimmed_line(l)) =~= Seq::<Seq<char>>::empty());
    } else {
        let init = raw.drop_last();
        lemma_kept_trimmed(init);
        let l = strip_trailing(raw.last(), '\r');
        crate::text::lemma_trim_strip_cr(raw.last());
        let m = raw.map_values(|l: Seq<char>| trimmed_line(l));
        assert(m.drop_last() =~= init.map_values(|l: Seq<char>| trimmed_line(l)));
        assert(m.last() == trim(raw.last()));
        assert(m.filter(|t: Seq<char>| has_text(t)) == {
            let sub = m.drop_last().filter(|t: Seq<char>| has_text(t));
            if has_text(m.last()) { sub.push(m.last()) } else { sub }
        });
        let k = kept_lines(init);
        if trim(l).len() > 0 {
            assert(kept_lines(raw) == k.push(l));
            assert(k.push(l).map_values(|l: Seq<char>| trimmed_line(l)) =~= k.map_values(|l: Seq<char>| trimmed_line(l)).push(
                trim(l),
            ));
        } else {
            assert(kept_lines(raw) == k);
        }
    }
}

/// The header lines of a report are the first 25 lines of the log that carry
/// text, trimmed, in order.
pub proof fn law_header_is_first_text_lines(content: Seq<char>, path: Seq<char>)
    ensures
        spec_parse_log(content, path).header_lines == first_text_lines(std_lines(content)),
{
    let raw = std_lines(content);
    let kept = kept_lines(raw);
    lemma_kept_trimmed(raw);
    let n = if kept.len() < 25 { kept.len() as int } else { 25 };
    assert(kept.take(n).map_values(|l: Seq<char>| trim(l)) =~= kept.map_values(|l: Seq<char>| trimmed_line(l)).take(n));
}

} // verus!

verus! {

/// A log line saying a melon is in the Plugins folder (or that it is a
/// plugin) puts its quoted name among the misplaced mods, which the report
/// tells to move to Mods/; a line saying it is in the Mods folder (or that it
/// is a mod) puts it among the misplaced plugins. A line with only one of the
/// two kinds of marker leaves the other list as it was.
pub proof fn law_misplaced_direction(st: ScanView, line: Seq<char>, cp: Seq<char>, n: Seq<char>)
    requires
        piece_after(cp, '\'') == Some(n),
    ensures
        ({
            let in_plugins = contains_seq(cp, "is in the Plugins Folder:"@) || contains_seq(cp, "Melon is a Plugin"@);
            let in_mods = contains_seq(cp, "is in the Mods Folder:"@) || contains_seq(cp, "Melon is a Mod"@);
            let r = step_issues(st, line, cp);
            &&& in_plugins ==> r.misplaced_mods.contains(n)
            &&& in_mods ==> r.misplaced_plugs.contains(n)
            &&& !in_mods ==> r.misplaced_plugs == st.misplaced_plugs
            &&& !in_plugins ==> r.misplaced_mods == st.misplaced_mods
        }),
{
    let in_plugins = contains_seq(cp, "is in the Plugins Folder:"@) || contains_seq(cp, "Melon is a Plugin"@);
    let in_mods = contains_seq(cp, "is in the Mods Folder:"@) || contains_seq(cp, "Melon is a Mod"@);
    let s0 = step_misplaced(st, cp);
    if in_plugins {
        if !st.misplaced_mods.contains(n) {
            assert(st.misplaced_mods.push(n)[st.misplaced_mods.len() as int] == n);
        }
        assert(add_unique(st.misplaced_mods, n).contains(n));
    }
    if in_mods {
        let s1 = if in_plugins { ScanView { misplaced_mods: add_unique(st.misplaced_mods, n), ..st } } else { st };
        if !s1.misplaced_plugs.contains(n) {
            assert(s1.misplaced_plugs.push(n)[s1.misplaced_plugs.len() as int] == n);
        }
        assert(add_unique(s1.misplaced_plugs, n).contains(n));
    }
    let s1 = step_duplicates(s0, line, cp);
    assert(s1.misplaced_mods == s0.misplaced_mods && s1.misplaced_plugs == s0.misplaced_plugs);
    let s2 = step_missing_asm(s1, cp);
    assert(s2.misplaced_mods == s0.misplaced_mods && s2.misplaced_plugs == s0.misplaced_plugs);
    let s3 = step_resolve(s2, line, cp);
    assert(s3.misplaced_mods == s0.misplaced_mods && s3.misplaced_plugs == s0.misplaced_plugs);
    let s4 = step_tagged(s3, cp);
    assert(s4.misplaced_mods == s0.misplaced_mods && s4.misplaced_plugs == s0.misplaced_plugs);
    let s5 = step_known(s4, line);
    assert(s5.misplaced_mods == s0.misplaced_mods && s5.misplaced_plugs == s0.misplaced_plugs);
}

} // verus!
