//! Mod installation rules: update detection, quarantine decisions and file
//! fingerprints.

use vstd::prelude::*;
use crate::models::{Mod, ModVersion, spec_is_plugin};
use crate::text::{contains_seq, unicode_lowercase};
use crate::api::spec_is_newer_version;

verus! {

/// The MD5 digest of a byte sequence.
pub uninterp spec fn md5_digest(bytes: Seq<u8>) -> Seq<u8>;

/// Trusted: calls `md5::compute` and returns the digest bytes.
/// Claimed: the result is `md5_digest` of the input and has 16 bytes (the
/// crate's `Digest` is a `[u8; 16]`); the hash itself is left to the name.
#[verifier::external_body]
fn md5_compute(bytes: &[u8]) -> (d: Vec<u8>)
    ensures
        d@ == md5_digest(bytes@),
        d@.len() == 16,
{
    md5::compute(bytes).0.to_vec()
}

/// Lowercase hexadecimal digit of a value below 16.
pub open spec fn hex_digit(v: int) -> char {
    if v < 10 {
        (('0' as int) + v) as char
    } else {
        (('a' as int) + v - 10) as char
    }
}

/// Two lowercase hexadecimal digits per byte, most significant first.
pub open spec fn hex_lower(bytes: Seq<u8>) -> Seq<char>
    decreases bytes.len(),
{
    if bytes.len() == 0 {
        Seq::empty()
    } else {
        hex_lower(bytes.drop_last()) + seq![hex_digit(bytes.last() as int / 16), hex_digit(bytes.last() as int % 16)]
    }
}

fn hex_digit_char(v: u8) -> (c: char)
    requires
        v < 16,
    ensures
        c == hex_digit(v as int),
{
    if v < 10 {
        (48u8 + v) as char
    } else {
        (87u8 + v) as char
    }
}

/// Lowercase hexadecimal text of `bytes`.
pub fn to_hex_lower(bytes: &[u8]) -> (s: String)
    ensures
        s@ == hex_lower(bytes@),
{
    let mut cs: Vec<char> = Vec::new();
    let mut i: usize = 0;
    while i < bytes.len()
        invariant
            i <= bytes@.len(),
            cs@ == hex_lower(bytes@.take(i as int)),
        decreases bytes.len() - i,
    {
        let b = bytes[i];
        cs.push(hex_digit_char(b / 16));
        cs.push(hex_digit_char(b % 16));
        assert(bytes@.take(i + 1).drop_last() =~= bytes@.take(i as int));
        i = i + 1;
    }
    assert(bytes@.take(bytes@.len() as int) =~= bytes@);
    crate::text::string_from_chars(cs.as_slice())
}

/// The MD5 of a file's bytes as lowercase hexadecimal (32 characters).
pub fn md5_hex(bytes: &[u8]) -> (s: String)
    ensures
        s@ == hex_lower(md5_digest(bytes@)),
{
    let d = md5_compute(bytes);
    to_hex_lower(d.as_slice())
}

} // verus!

verus! {

/// The latest (first-listed) version of a mod, when it has one.
pub open spec fn latest_version(m: Mod) -> Option<ModVersion> {
    if m.versions@.len() > 0 {
        Some(m.versions@[0])
    } else {
        None
    }
}

/// A lowercased installed path lies in a `~Broken` or `~Retired` folder.
pub open spec fn in_quarantine_dir(lower_path: Seq<char>) -> bool {
    contains_seq(lower_path, "/~broken/"@) || contains_seq(lower_path, "/~retired/"@)
}

/// An installed mod outside the quarantine folders, with a known installed
/// version, whose latest API version is strictly newer.
pub open spec fn spec_mod_has_update(m: Mod) -> bool {
    match m.installed_file_path {
        None => false,
        Some(p) => if in_quarantine_dir(unicode_lowercase(p@)) {
            false
        } else {
            match (m.installed_version, latest_version(m)) {
                (Some(iv), Some(v)) => match v.mod_version {
                    Some(av) => iv@.len() > 0 && av@.len() > 0 && spec_is_newer_version(iv@, av@),
                    None => false,
                },
                _ => false,
            }
        },
    }
}

/// Mods in a `~Broken` or `~Retired` folder are never offered an update.
pub proof fn law_quarantined_never_updated(m: Mod)
    requires
        m.installed_file_path matches Some(p) && in_quarantine_dir(unicode_lowercase(p@)),
    ensures
        !spec_mod_has_update(m),
{
}

/// Whether `needle` occurs in `hay`.
fn str_contains(hay: &str, needle: &str) -> (r: bool)
    ensures
        r == contains_seq(hay@, needle@),
{
    let h = crate::text::chars_of(hay);
    let n = crate::text::chars_of(needle);
    crate::text::chars_contain(h.as_slice(), n.as_slice())
}

/// Whether an installed mod has a newer version available. Mods in the
/// `~Broken` / `~Retired` folders are never offered updates.
pub fn mod_has_update(mod_info: &Mod) -> (r: bool)
    ensures
        r == spec_mod_has_update(*mod_info),
{
    let installed_path = match &mod_info.installed_file_path {
        Some(p) => p,
        None => return false,
    };
    let path_lower = crate::text::to_lowercase(installed_path.as_str());
    if str_contains(path_lower.as_str(), "/~broken/") || str_contains(path_lower.as_str(), "/~retired/") {
        return false;
    }
    let installed_ver = match &mod_info.installed_version {
        Some(v) => {
            if v.as_str().is_empty() {
                return false;
            }
            v
        },
        None => return false,
    };
    if mod_info.versions.len() == 0 {
        return false;
    }
    let api_ver = match &mod_info.versions[0].mod_version {
        Some(v) => {
            if v.as_str().is_empty() {
                return false;
            }
            v
        },
        None => return false,
    };
    crate::api::is_newer_version(installed_ver.as_str(), api_ver.as_str())
}

/// Same rule as `mod_has_update`.
pub fn mod_version_outdated(mod_info: &Mod) -> (r: bool)
    ensures
        r == spec_mod_has_update(*mod_info),
{
    mod_has_update(mod_info)
}

} // verus!

verus! {

/// A mod file to move into the quarantine folder `<subdir>/<folder>/`.
#[derive(Debug)]
pub struct QuarantineCandidate {
    pub mod_name: String,
    /// The installed file.
    pub from: String,
    /// "Plugins" for plugins, "Mods" otherwise.
    pub subdir: String,
    /// "~Broken" or "~Retired".
    pub folder: String,
}

/// The result of a quarantine operation on a single mod.
#[derive(Debug)]
pub struct QuarantineResult {
    pub mod_name: String,
    pub from: String,
    pub to: String,
}

/// The quarantine folder name: "~Retired" for retired mods, "~Broken" otherwise.
pub open spec fn quarantine_folder(retired: bool) -> Seq<char> {
    if retired { "~Retired"@ } else { "~Broken"@ }
}

/// The lowercased path markers of an already-quarantined file.
pub open spec fn already_quarantined(lower_path: Seq<char>, retired: bool) -> bool {
    if retired {
        contains_seq(lower_path, "/~retired/"@) || contains_seq(lower_path, "\\~retired\\"@)
    } else {
        contains_seq(lower_path, "/~broken/"@) || contains_seq(lower_path, "\\~broken\\"@)
    }
}

/// (name, installed file, subdir) of a mod that must be quarantined: its
/// latest version is marked broken (retired) by the API, it is installed,
/// the installed version is not newer than the API's (a locally patched
/// build is left alone), and its file is not already in the folder.
pub open spec fn quarantine_target(m: Mod, retired: bool) -> Option<(Seq<char>, Seq<char>, Seq<char>)> {
    match latest_version(m) {
        None => None,
        Some(v) => if v.approval_status != (if retired { 3i32 } else { 2i32 }) {
            None
        } else {
            match m.installed_file_path {
                None => None,
                Some(p) => {
                    let patched = match (m.installed_version, v.mod_version) {
                        (Some(iv), Some(av)) => spec_is_newer_version(av@, iv@),
                        _ => false,
                    };
                    if patched || already_quarantined(unicode_lowercase(p@), retired) {
                        None
                    } else {
                        Some((v.name@, p@, if spec_is_plugin(v.mod_type) { "Plugins"@ } else { "Mods"@ }))
                    }
                },
            }
        },
    }
}

/// The quarantine targets among the first `n` mods, in order.
pub open spec fn quarantine_targets(mods: Seq<Mod>, n: int, retired: bool) -> Seq<(Seq<char>, Seq<char>, Seq<char>)>
    decreases n,
{
    if n <= 0 {
        Seq::empty()
    } else {
        let prev = quarantine_targets(mods, n - 1, retired);
        match quarantine_target(mods[n - 1], retired) {
            Some(t) => prev.push(t),
            None => prev,
        }
    }
}

/// The (name, file, subdir) triples of a list of candidates.
pub open spec fn candidates_view(c: Seq<QuarantineCandidate>) -> Seq<(Seq<char>, Seq<char>, Seq<char>)> {
    c.map_values(|q: QuarantineCandidate| (q.mod_name@, q.from@, q.subdir@))
}

fn quarantine_candidate_for(m: &Mod, retired: bool) -> (r: Option<QuarantineCandidate>)
    ensures
        match r {
            Some(q) => quarantine_target(*m, retired) == Some((q.mod_name@, q.from@, q.subdir@))
                && q.folder@ == quarantine_folder(retired),
            None => quarantine_target(*m, retired) is None,
        },
{
    if m.versions.len() == 0 {
        return None;
    }
    let version = &m.versions[0];
    let marked = if retired { version.is_retired() } else { version.is_broken() };
    if !marked {
        return None;
    }
    let installed_path = match &m.installed_file_path {
        Some(p) => p,
        None => return None,
    };
    match (&m.installed_version, &version.mod_version) {
        (Some(installed_ver), Some(api_ver)) => {
            if crate::api::is_newer_version(api_ver.as_str(), installed_ver.as_str()) {
                return None;
            }
        },
        _ => {},
    }
    let lower = crate::text::to_lowercase(installed_path.as_str());
    let inside = if retired {
        str_contains(lower.as_str(), "/~retired/") || str_contains(lower.as_str(), "\\~retired\\")
    } else {
        str_contains(lower.as_str(), "/~broken/") || str_contains(lower.as_str(), "\\~broken\\")
    };
    if inside {
        return None;
    }
    let subdir = if version.is_plugin() { String::from_str("Plugins") } else { String::from_str("Mods") };
    let folder = if retired { String::from_str("~Retired") } else { String::from_str("~Broken") };
    Some(QuarantineCandidate { mod_name: version.name.clone(), from: installed_path.clone(), subdir, folder })
}

fn quarantine_candidates(mods: &[Mod], retired: bool) -> (r: Vec<QuarantineCandidate>)
    ensures
        candidates_view(r@) == quarantine_targets(mods@, mods@.len() as int, retired),
        forall|i: int| 0 <= i < r@.len() ==> (#[trigger] r@[i]).folder@ == quarantine_folder(retired),
{
    let mut out: Vec<QuarantineCandidate> = Vec::new();
    let mut i: usize = 0;
    while i < mods.len()
        invariant
            i <= mods@.len(),
            candidates_view(out@) == quarantine_targets(mods@, i as int, retired),
            forall|k: int| 0 <= k < out@.len() ==> (#[trigger] out@[k]).folder@ == quarantine_folder(retired),
        decreases mods.len() - i,
    {
        let ghost before = out@;
        match quarantine_candidate_for(&mods[i], retired) {
            Some(q) => {
                out.push(q);
                assert(candidates_view(out@) =~= candidates_view(before).push((q.mod_name@, q.from@, q.subdir@)));
            },
            None => {},
        }
        i = i + 1;
    }
    out
}

/// The installed mods whose latest version the API marks broken, which must
/// move into `Mods/~Broken/` (or `Plugins/~Broken/`).
pub fn quarantine_broken_candidates(mods: &[Mod]) -> (r: Vec<QuarantineCandidate>)
    ensures
        candidates_view(r@) == quarantine_targets(mods@, mods@.len() as int, false),
        forall|i: int| 0 <= i < r@.len() ==> (#[trigger] r@[i]).folder@ == "~Broken"@,
{
    quarantine_candidates(mods, false)
}

/// The installed mods whose latest version the API marks retired, which must
/// move into `Mods/~Retired/` (or `Plugins/~Retired/`).
pub fn quarantine_retired_candidates(mods: &[Mod]) -> (r: Vec<QuarantineCandidate>)
    ensures
        candidates_view(r@) == quarantine_targets(mods@, mods@.len() as int, true),
        forall|i: int| 0 <= i < r@.len() ==> (#[trigger] r@[i]).folder@ == "~Retired"@,
{
    quarantine_candidates(mods, true)
}

} // verus!

verus! {

/// Why a mod cannot be downloaded.
#[derive(Debug, Clone, Copy, PartialEq, Eq, Structural)]
pub enum DownloadError {
    NoVersions,
    NoDownloadLink,
}

/// The download link of a mod's latest version.
pub fn download_link_of(m: &Mod) -> (r: Result<String, DownloadError>)
    ensures
        m.versions@.len() == 0 ==> r == Err::<String, DownloadError>(DownloadError::NoVersions),
        m.versions@.len() > 0 && m.versions@[0].download_link is None ==> r == Err::<String, DownloadError>(
            DownloadError::NoDownloadLink,
        ),
        m.versions@.len() > 0 && m.versions@[0].download_link is Some ==> (r matches Ok(l)
            && l@ == m.versions@[0].download_link->0@),
{
    if m.versions.len() == 0 {
        return Err(DownloadError::NoVersions);
    }
    match &m.versions[0].download_link {
        Some(l) => {
            let c = crate::text::chars_of(l.as_str());
            Ok(crate::text::string_from_chars(c.as_slice()))
        },
        None => Err(DownloadError::NoDownloadLink),
    }
}

/// Decimal text of a signed number.
pub open spec fn signed_decimal(n: i64) -> Seq<char> {
    if n < 0 {
        seq!['-'] + crate::text::decimal((0 - n) as nat)
    } else {
        crate::text::decimal(n as nat)
    }
}

fn signed_decimal_chars(n: i64) -> (r: Vec<char>)
    ensures
        r@ == signed_decimal(n),
{
    if n < 0 {
        let u: u64 = (0i128 - (n as i128)) as u64;
        let mut r: Vec<char> = Vec::new();
        r.push('-');
        let d = crate::text::decimal_chars(u);
        crate::log_scanner::append_chars(&mut r, d.as_slice());
        r
    } else {
        crate::text::decimal_chars(n as u64)
    }
}

/// `s` without its '/' and NUL characters.
pub open spec fn without_unsafe(s: Seq<char>) -> Seq<char>
    decreases s.len(),
{
    if s.len() == 0 {
        s
    } else {
        let r = without_unsafe(s.drop_last());
        if s.last() == '/' || s.last() == '\0' {
            r
        } else {
            r.push(s.last())
        }
    }
}

/// The name a downloaded mod is saved under before cleaning: the MelonInfo
/// name in the file when it is not blank, else the latest version's name.
pub open spec fn downloaded_base_name(m: Mod, bytes: Seq<u8>) -> Seq<char> {
    match crate::melon_dll::spec_extract_melon_info(bytes) {
        Some(f) => if crate::text::trim(f.name).len() > 0 {
            f.name
        } else {
            m.versions@[0].name@
        },
        None => m.versions@[0].name@,
    }
}

/// `s` ends with `p`.
pub open spec fn ends_with(s: Seq<char>, p: Seq<char>) -> bool {
    p.len() <= s.len() && s.subrange(s.len() - p.len(), s.len() as int) == p
}

/// The file name a downloaded mod is saved under: the base name without '/'
/// and NUL and trimmed, with ".dll" added unless it already ends so (in any
/// case); "mod_<id>.dll" when nothing is left.
pub open spec fn downloaded_file_name(m: Mod, bytes: Seq<u8>) -> Seq<char> {
    let safe = crate::text::trim(without_unsafe(downloaded_base_name(m, bytes)));
    if safe.len() == 0 {
        "mod_"@ + signed_decimal(m._id) + ".dll"@
    } else if ends_with(unicode_lowercase(safe), ".dll"@) {
        safe
    } else {
        safe + ".dll"@
    }
}

/// Where a downloaded mod file is written: `<subdir>/<quarantine_dir><file_name>`
/// under the install folder.
pub struct InstallTarget {
    pub subdir: String,
    pub quarantine_dir: String,
    pub file_name: String,
}

/// The folder under the install folder for a version: plugins and mods.
pub open spec fn kind_folder(v: ModVersion) -> Seq<char> {
    if spec_is_plugin(v.mod_type) {
        "Plugins"@
    } else {
        "Mods"@
    }
}

/// The quarantine folder a version is saved into, if any.
pub open spec fn status_folder(v: ModVersion) -> Seq<char> {
    if v.approval_status == 2 {
        "~Broken/"@
    } else if v.approval_status == 3 {
        "~Retired/"@
    } else {
        Seq::empty()
    }
}

fn ends_with_chars(s: &[char], p: &[char]) -> (r: bool)
    ensures
        r == ends_with(s@, p@),
{
    if p.len() > s.len() {
        return false;
    }
    let n = s.len();
    let start = n - p.len();
    let mut j: usize = 0;
    while j < p.len()
        invariant
            n == s@.len(),
            j <= p@.len(),
            start + p@.len() == s@.len(),
            forall|k: int| 0 <= k < j ==> s@[start + k] == p@[k],
        decreases p.len() - j,
    {
        assert(start + j < s@.len());
        let idx: usize = start + j;
        if s[idx] != p[j] {
            assert(s@.subrange(start as int, s@.len() as int)[j as int] != p@[j as int]);
            return false;
        }
        j = j + 1;
    }
    assert(s@.subrange(start as int, s@.len() as int) =~= p@);
    true
}

/// Where the mod file downloaded as `bytes` is saved.
pub fn install_target(m: &Mod, bytes: &[u8]) -> (t: InstallTarget)
    requires
        m.versions@.len() > 0,
    ensures
        t.subdir@ == kind_folder(m.versions@[0]),
        t.quarantine_dir@ == status_folder(m.versions@[0]),
        t.file_name@ == downloaded_file_name(*m, bytes@),
{
    let v = &m.versions[0];
    let base = match crate::melon_dll::extract_melon_info(bytes) {
        Some(info) => {
            let nc = crate::text::chars_of(info.name.as_str());
            let t = crate::text::trim_chars(nc.as_slice());
            if t.len() > 0 {
                nc
            } else {
                crate::text::chars_of(v.name.as_str())
            }
        },
        None => crate::text::chars_of(v.name.as_str()),
    };
    let mut kept: Vec<char> = Vec::new();
    let mut i: usize = 0;
    while i < base.len()
        invariant
            i <= base@.len(),
            kept@ == without_unsafe(base@.take(i as int)),
        decreases base.len() - i,
    {
        assert(base@.take(i + 1).drop_last() =~= base@.take(i as int));
        if base[i] != '/' && base[i] != '\0' {
            kept.push(base[i]);
        }
        i = i + 1;
    }
    assert(base@.take(base@.len() as int) =~= base@);
    let safe = crate::text::trim_chars(kept.as_slice());
    let name = if safe.len() == 0 {
        let mut n = crate::text::chars_of("mod_");
        let d = signed_decimal_chars(m._id);
        crate::log_scanner::append_chars(&mut n, d.as_slice());
        let e = crate::text::chars_of(".dll");
        crate::log_scanner::append_chars(&mut n, e.as_slice());
        n
    } else {
        let ss = crate::text::string_from_chars(safe.as_slice());
        let low = crate::text::to_lowercase(ss.as_str());
        let lc = crate::text::chars_of(low.as_str());
        let e = crate::text::chars_of(".dll");
        if ends_with_chars(lc.as_slice(), e.as_slice()) {
            safe
        } else {
            let mut n = safe;
            crate::log_scanner::append_chars(&mut n, e.as_slice());
            n
        }
    };
    let subdir = if v.is_plugin() {
        crate::text::string_from_chars(crate::text::chars_of("Plugins").as_slice())
    } else {
        crate::text::string_from_chars(crate::text::chars_of("Mods").as_slice())
    };
    let qdir = if v.is_broken() {
        crate::text::string_from_chars(crate::text::chars_of("~Broken/").as_slice())
    } else if v.is_retired() {
        crate::text::string_from_chars(crate::text::chars_of("~Retired/").as_slice())
    } else {
        let e = crate::text::string_from_chars(&[]);
        assert(e@ =~= Seq::<char>::empty());
        e
    };
    InstallTarget { subdir, quarantine_dir: qdir, file_name: crate::text::string_from_chars(name.as_slice()) }
}

/// What to do about one dependency of a mod being installed.
#[derive(Debug, Clone, Copy, PartialEq, Eq, Structural)]
pub enum DepAction {
    /// A file with that MelonInfo name is already installed.
    AlreadyInstalled,
    /// Install the catalogue mod at this index.
    Install(usize),
    /// No catalogue mod provides it.
    NotInCatalogue,
}

/// Some installed file's MelonInfo name equals `dep`, ignoring ASCII case.
pub open spec fn dep_on_disk(dep: Seq<char>, inst: Seq<crate::matching::InstalledFile>) -> bool {
    exists|i: int|
        0 <= i < inst.len() && (#[trigger] inst[i]).info is Some && crate::text::eq_ignore_ascii_case(
            inst[i].info->0.name@,
            dep,
        )
}

/// Catalogue mod `m` provides `dep`: its latest version's name or one of its
/// aliases equals it, ignoring ASCII case.
pub open spec fn provides(m: Mod, dep: Seq<char>) -> bool {
    (m.versions@.len() > 0 && crate::text::eq_ignore_ascii_case(m.versions@[0].name@, dep)) || exists|k: int|
        0 <= k < m.aliases@.len() && crate::text::eq_ignore_ascii_case((#[trigger] m.aliases@[k])@, dep)
}

fn provides_exec(m: &Mod, dep: &str) -> (r: bool)
    ensures
        r == provides(*m, dep@),
{
    if m.versions.len() > 0 && crate::text::str_eq_ignore_ascii_case(m.versions[0].name.as_str(), dep) {
        return true;
    }
    let mut k: usize = 0;
    while k < m.aliases.len()
        invariant
            k <= m.aliases@.len(),
            !(m.versions@.len() > 0 && crate::text::eq_ignore_ascii_case(m.versions@[0].name@, dep@)),
            forall|j: int| 0 <= j < k ==> !crate::text::eq_ignore_ascii_case((#[trigger] m.aliases@[j])@, dep@),
        decreases m.aliases.len() - k,
    {
        if crate::text::str_eq_ignore_ascii_case(m.aliases[k].as_str(), dep) {
            return true;
        }
        k = k + 1;
    }
    false
}

/// Decides what to do about dependency `dep` of a mod being installed: skip
/// it when a file with that MelonInfo name is installed, else install the
/// first catalogue mod that provides it, else report it missing.
pub fn resolve_dependency(dep: &str, installed: &[crate::matching::InstalledFile], all_mods: &[Mod]) -> (a: DepAction)
    ensures
        dep_on_disk(dep@, installed@) ==> a == DepAction::AlreadyInstalled,
        !dep_on_disk(dep@, installed@) ==> match a {
            DepAction::Install(i) => i < all_mods@.len() && provides(all_mods@[i as int], dep@) && forall|j: int|
                0 <= j < i ==> !provides(#[trigger] all_mods@[j], dep@),
            DepAction::NotInCatalogue => forall|j: int| 0 <= j < all_mods@.len() ==> !provides(#[trigger] all_mods@[j], dep@),
            DepAction::AlreadyInstalled => false,
        },
{
    let mut i: usize = 0;
    while i < installed.len()
        invariant
            i <= installed@.len(),
            forall|j: int|
                0 <= j < i ==> !((#[trigger] installed@[j]).info is Some && crate::text::eq_ignore_ascii_case(
                    installed@[j].info->0.name@,
                    dep@,
                )),
        decreases installed.len() - i,
    {
        match &installed[i].info {
            Some(info) => {
                if crate::text::str_eq_ignore_ascii_case(info.name.as_str(), dep) {
                    return DepAction::AlreadyInstalled;
                }
            },
            None => {},
        }
        i = i + 1;
    }
    let mut k: usize = 0;
    while k < all_mods.len()
        invariant
            k <= all_mods@.len(),
            !dep_on_disk(dep@, installed@),
            forall|j: int| 0 <= j < k ==> !provides(#[trigger] all_mods@[j], dep@),
        decreases all_mods.len() - k,
    {
        if provides_exec(&all_mods[k], dep) {
            return DepAction::Install(k);
        }
        k = k + 1;
    }
    DepAction::NotInCatalogue
}

} // verus!

verus! {

/// The leading run of ASCII digits, dots and 'v's of `s`.
pub open spec fn version_run(s: Seq<char>) -> Seq<char>
    decreases s.len(),
{
    if s.len() > 0 && (crate::text::is_digit(s[0]) || s[0] == '.' || s[0] == 'v') {
        seq![s[0]] + version_run(s.drop_first())
    } else {
        Seq::empty()
    }
}

/// The version written after the first `marker` in `s`, when it has a dot
/// and is shorter than 20 bytes.
pub open spec fn marker_version(s: Seq<char>, marker: Seq<char>) -> Option<Seq<char>> {
    match crate::text::find_seq_from(s, marker, 0) {
        Some(pos) => {
            let ver = crate::text::strip_leading(version_run(s.skip(pos + marker.len())), 'v');
            if ver.contains('.') && crate::log_scanner::utf8_len(ver) < 20 {
                Some(ver)
            } else {
                None
            }
        },
        None => None,
    }
}

/// The pieces that parse as `u64`, in order.
pub open spec fn parsed_parts(pieces: Seq<Seq<char>>) -> Seq<u64>
    decreases pieces.len(),
{
    if pieces.len() == 0 {
        Seq::empty()
    } else {
        let r = parsed_parts(pieces.drop_last());
        match crate::text::parse_u64(pieces.last()) {
            Some(n) => r.push(n),
            None => r,
        }
    }
}

/// A plausible MelonLoader version: at least three numeric parts, the first
/// below 5 and none above 999.
pub open spec fn plausible_ml_version(v: Seq<char>) -> bool {
    let parts = parsed_parts(crate::text::split_on(v, '.'));
    parts.len() >= 3 && parts[0] < 5 && forall|i: int| 0 <= i < parts.len() ==> #[trigger] parts[i] < 1000
}

/// The first plausible MelonLoader version among `vs`.
pub open spec fn first_plausible(vs: Seq<Seq<char>>) -> Option<Seq<char>>
    decreases vs.len(),
{
    if vs.len() == 0 {
        None
    } else if plausible_ml_version(vs[0]) {
        Some(vs[0])
    } else {
        first_plausible(vs.drop_first())
    }
}

/// The pattern of dotted version numbers with three or four parts.
pub open spec fn dotted_version_pattern() -> Seq<char> {
    "\\b(\\d+\\.\\d+\\.\\d+(?:\\.\\d+)?)\\b"@
}

/// The MelonLoader version found in the text of a DLL: after an
/// `AssemblyVersion("`, `AssemblyFileVersion("` or `MelonLoader v` marker,
/// else the first plausible dotted version in it.
pub open spec fn version_in_text(s: Seq<char>) -> Option<Seq<char>> {
    match marker_version(s, "AssemblyVersion(\""@) {
        Some(v) => Some(v),
        None => match marker_version(s, "AssemblyFileVersion(\""@) {
            Some(v) => Some(v),
            None => match marker_version(s, "MelonLoader v"@) {
                Some(v) => Some(v),
                None => match crate::text::regex_group1(dotted_version_pattern(), s) {
                    Some(caps) => first_plausible(caps),
                    None => None,
                },
            },
        },
    }
}

fn version_run_chars(s: &[char]) -> (r: Vec<char>)
    ensures
        r@ == version_run(s@),
{
    let mut i: usize = 0;
    assert(s@.skip(0) =~= s@);
    while i < s.len() && (('0' <= s[i] && s[i] <= '9') || s[i] == '.' || s[i] == 'v')
        invariant
            i <= s@.len(),
            version_run(s@) == s@.take(i as int) + version_run(s@.skip(i as int)),
        decreases s.len() - i,
    {
        assert(s@.skip(i as int).drop_first() =~= s@.skip(i + 1));
        assert(s@.take(i as int) + (seq![s@[i as int]] + version_run(s@.skip(i + 1))) =~= s@.take(i + 1) + version_run(
            s@.skip(i + 1),
        ));
        i = i + 1;
    }
    assert(s@.take(i as int) + Seq::<char>::empty() =~= s@.take(i as int));
    crate::text::sub_chars(s, 0, i)
}

fn marker_version_chars(s: &[char], marker: &str) -> (r: Option<Vec<char>>)
    ensures
        match r {
            Some(v) => marker_version(s@, marker@) == Some(v@),
            None => marker_version(s@, marker@) is None,
        },
{
    let m = crate::text::chars_of(marker);
    proof {
        crate::text::lemma_find_seq_from(s@, m@, 0);
    }
    match crate::text::find_chars_from(s, m.as_slice(), 0) {
        Some(pos) => {
            assert(pos + m@.len() <= s@.len());
            let n = s.len();
            let from: usize = pos + m.len();
            let after = crate::text::sub_chars(s, from, n);
            assert(after@ =~= s@.skip(pos + m@.len()));
            let run = version_run_chars(after.as_slice());
            let ver = crate::text::strip_leading_chars(run.as_slice(), 'v');
            proof {
                crate::text::lemma_first_index(ver@, '.');
            }
            let has_dot = crate::text::find_char(ver.as_slice(), '.').is_some();
            assert(has_dot == ver@.contains('.'));
            if has_dot && !crate::log_scanner::utf8_len_exceeds(ver.as_slice(), 19) {
                Some(ver)
            } else {
                None
            }
        },
        None => None,
    }
}

fn plausible(v: &str) -> (r: bool)
    ensures
        r == plausible_ml_version(v@),
{
    let c = crate::text::chars_of(v);
    let pieces = crate::text::split_chars(c.as_slice(), '.');
    let ghost pv = crate::text::pieces_view(pieces@);
    let mut parts: Vec<u64> = Vec::new();
    let mut i: usize = 0;
    while i < pieces.len()
        invariant
            i <= pieces@.len(),
            pv == crate::text::pieces_view(pieces@),
            parts@ == parsed_parts(pv.take(i as int)),
        decreases pieces.len() - i,
    {
        assert(pv.take(i + 1).drop_last() =~= pv.take(i as int));
        assert(pv.take(i + 1).last() == pieces@[i as int]@);
        match crate::text::parse_u64_chars(pieces[i].as_slice()) {
            Some(n) => parts.push(n),
            None => {},
        }
        i = i + 1;
    }
    assert(pv.take(pieces@.len() as int) =~= pv);
    if parts.len() < 3 || parts[0] >= 5 {
        return false;
    }
    let mut k: usize = 0;
    while k < parts.len()
        invariant
            k <= parts@.len(),
            parts@ == parsed_parts(crate::text::split_on(v@, '.')),
            forall|j: int| 0 <= j < k ==> #[trigger] parts@[j] < 1000,
        decreases parts.len() - k,
    {
        if parts[k] >= 1000 {
            return false;
        }
        k = k + 1;
    }
    true
}

/// The MelonLoader version written in a DLL's bytes (read as UTF-8 with
/// invalid sequences replaced), if one is found.
pub fn melon_loader_version_in_dll(bytes: &[u8]) -> (r: Option<String>)
    ensures
        crate::log_scanner::opt_str(r) == version_in_text(crate::text::utf8_lossy(bytes@)),
{
    let s = crate::text::lossy_string(bytes);
    let c = crate::text::chars_of(s.as_str());
    match marker_version_chars(c.as_slice(), "AssemblyVersion(\"") {
        Some(v) => {
            return Some(crate::text::string_from_chars(v.as_slice()));
        },
        None => {},
    }
    match marker_version_chars(c.as_slice(), "AssemblyFileVersion(\"") {
        Some(v) => {
            return Some(crate::text::string_from_chars(v.as_slice()));
        },
        None => {},
    }
    match marker_version_chars(c.as_slice(), "MelonLoader v") {
        Some(v) => {
            return Some(crate::text::string_from_chars(v.as_slice()));
        },
        None => {},
    }
    match crate::text::regex_captures("\\b(\\d+\\.\\d+\\.\\d+(?:\\.\\d+)?)\\b", s.as_str()) {
        Some(caps) => {
            let ghost cv = crate::melon_dll::strings_view(caps@);
            let mut i: usize = 0;
            assert(cv.skip(0) =~= cv);
            while i < caps.len()
                invariant
                    i <= caps@.len(),
                    cv == crate::melon_dll::strings_view(caps@),
                    c@ == crate::text::utf8_lossy(bytes@),
                    marker_version(c@, "AssemblyVersion(\""@) is None,
                    marker_version(c@, "AssemblyFileVersion(\""@) is None,
                    marker_version(c@, "MelonLoader v"@) is None,
                    crate::text::regex_group1(dotted_version_pattern(), c@) == Some(cv),
                    first_plausible(cv) == first_plausible(cv.skip(i as int)),
                decreases caps.len() - i,
            {
                assert(cv.skip(i as int).drop_first() =~= cv.skip(i + 1));
                assert(cv.skip(i as int)[0] == caps@[i as int]@);
                if plausible(caps[i].as_str()) {
                    let c2 = crate::text::chars_of(caps[i].as_str());
                    return Some(crate::text::string_from_chars(c2.as_slice()));
                }
                i = i + 1;
            }
            None
        },
        None => None,
    }
}

/// A release tag without its leading 'v's.
pub fn release_version(tag: &str) -> (r: String)
    ensures
        r@ == crate::text::strip_leading(tag@, 'v'),
{
    let c = crate::text::chars_of(tag);
    let s = crate::text::strip_leading_chars(c.as_slice(), 'v');
    crate::text::string_from_chars(s.as_slice())
}

/// The hint shown next to the installed MelonLoader version, and whether it
/// announces an update.
pub open spec fn spec_ml_update_hint(installed: Seq<char>, release: Seq<char>) -> (Seq<char>, bool) {
    if spec_is_newer_version(installed, release) {
        ("\u{2b06}  Update available: "@ + installed + " \u{2192} "@ + release + "  (click Install / Update)"@, true)
    } else {
        ("\u{2713}  MelonLoader is up to date"@, false)
    }
}

/// The hint for installed MelonLoader version `installed` when the latest
/// release is `release` (a tag without its 'v').
pub fn ml_update_hint(installed: &str, release: &str) -> (r: (String, bool))
    ensures
        (r.0@, r.1) == spec_ml_update_hint(installed@, release@),
{
    if crate::api::is_newer_version(installed, release) {
        let mut m = crate::text::chars_of("\u{2b06}  Update available: ");
        let a = crate::text::chars_of(installed);
        crate::log_scanner::append_chars(&mut m, a.as_slice());
        let b = crate::text::chars_of(" \u{2192} ");
        crate::log_scanner::append_chars(&mut m, b.as_slice());
        let c = crate::text::chars_of(release);
        crate::log_scanner::append_chars(&mut m, c.as_slice());
        let d = crate::text::chars_of("  (click Install / Update)");
        crate::log_scanner::append_chars(&mut m, d.as_slice());
        (crate::text::string_from_chars(m.as_slice()), true)
    } else {
        let m = crate::text::chars_of("\u{2713}  MelonLoader is up to date");
        (crate::text::string_from_chars(m.as_slice()), false)
    }
}

} // verus!

verus! {

/// Byte contents as plain values (`None` for a file that could not be read).
pub open spec fn byte_opts_view(v: Seq<Option<Vec<u8>>>) -> Seq<Option<Seq<u8>>> {
    v.map_values(|o: Option<Vec<u8>>| match o {
        Some(b) => Some(b@),
        None => None,
    })
}

/// The MelonLoader version found in the first of the DLLs that holds one.
pub open spec fn first_dll_version(dlls: Seq<Option<Seq<u8>>>) -> Option<Seq<char>>
    decreases dlls.len(),
{
    if dlls.len() == 0 {
        None
    } else {
        match dlls[0] {
            Some(b) => match version_in_text(crate::text::utf8_lossy(b)) {
                Some(v) => Some(v),
                None => first_dll_version(dlls.drop_first()),
            },
            None => first_dll_version(dlls.drop_first()),
        }
    }
}

/// The installed MelonLoader version: the trimmed text of its version file
/// when that is not blank, else the version in the first of its DLLs that
/// holds one, else "(unknown)" when MelonLoader is installed.
pub open spec fn spec_installed_ml_version(
    ver_file: Option<Seq<char>>,
    dlls: Seq<Option<Seq<u8>>>,
    installed: bool,
) -> Option<Seq<char>> {
    let from_file = match ver_file {
        Some(v) => if crate::text::trim(v).len() > 0 {
            Some(crate::text::trim(v))
        } else {
            None
        },
        None => None,
    };
    match from_file {
        Some(v) => Some(v),
        None => match first_dll_version(dlls) {
            Some(v) => Some(v),
            None => if installed {
                Some("(unknown)"@)
            } else {
                None
            },
        },
    }
}

/// The installed MelonLoader version from the text of its version file (if it
/// could be read), the contents of its candidate DLLs in the order they are
/// tried (`None` for one that is missing or unreadable), and whether
/// MelonLoader is installed (see `spec_installed_ml_version`).
pub fn installed_ml_version(ver_file: &Option<String>, dlls: &Vec<Option<Vec<u8>>>, installed: bool) -> (r: Option<String>)
    ensures
        crate::log_scanner::opt_str(r) == spec_installed_ml_version(
            crate::log_scanner::opt_str(*ver_file),
            byte_opts_view(dlls@),
            installed,
        ),
{
    if let Some(v) = ver_file {
        let cs = crate::text::chars_of(v.as_str());
        let t = crate::text::trim_chars(cs.as_slice());
        if t.len() > 0 {
            return Some(crate::text::string_from_chars(t.as_slice()));
        }
    }
    let ghost all = byte_opts_view(dlls@);
    let mut i: usize = 0;
    assert(all.skip(0) =~= all);
    while i < dlls.len()
        invariant
            i <= dlls.len(),
            all == byte_opts_view(dlls@),
            first_dll_version(all) == first_dll_version(all.skip(i as int)),
            match crate::log_scanner::opt_str(*ver_file) {
                Some(v) => crate::text::trim(v).len() == 0,
                None => true,
            },
        decreases dlls.len() - i,
    {
        proof {
            assert(all.skip(i as int).drop_first() =~= all.skip(i + 1));
            assert(all.skip(i as int)[0] == all[i as int]);
        }
        match &dlls[i] {
            Some(b) => {
                let found = melon_loader_version_in_dll(b.as_slice());
                if found.is_some() {
                    return found;
                }
            },
            None => {},
        }
        i = i + 1;
    }
    assert(all.skip(i as int).len() == 0);
    if installed {
        proof {
            reveal_strlit("(unknown)");
        }
        let u = crate::text::chars_of("(unknown)");
        Some(crate::text::string_from_chars(u.as_slice()))
    } else {
        None
    }
}

} // verus!

verus! {

/// An installed file whose lowercased path runs through a `~Broken` or a
/// `~Retired` folder is never offered an update, whatever the versions say.
pub proof fn law_quarantine_folders_block_updates(m: Mod)
    requires
        m.installed_file_path matches Some(p) && (contains_seq(unicode_lowercase(p@), "/~broken/"@) || contains_seq(
            unicode_lowercase(p@),
            "/~retired/"@,
        )),
    ensures
        !spec_mod_has_update(m),
{
}

/// A downloaded mod whose DLL carries a MelonInfo with a non-blank name is
/// saved under that name (without '/' and NUL, trimmed), with ".dll" added
/// unless it already ends so; the catalogue's version name plays no part.
pub proof fn law_saved_under_melon_info_name(m: Mod, bytes: Seq<u8>)
    requires
        m.versions@.len() > 0,
        crate::melon_dll::spec_extract_melon_info(bytes) matches Some(f) && crate::text::trim(f.name).len() > 0
            && crate::text::trim(without_unsafe(f.name)).len() > 0,
    ensures
        ({
            let f = crate::melon_dll::spec_extract_melon_info(bytes)->0;
            let c = crate::text::trim(without_unsafe(f.name));
            downloaded_file_name(m, bytes) == c || downloaded_file_name(m, bytes) == c + ".dll"@
        }),
{
}

} // verus!
