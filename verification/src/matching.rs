//! Matching the mod files found on disk against the CVRMG catalogue: which
//! catalogue entry each file belongs to, which version is installed, and the
//! files that no entry claims.

use vstd::prelude::*;
use crate::melon_dll::MelonInfo;
use crate::models::{FlagEntry, Mod, ModVersion};
use crate::text::{chars_of, piece_after_last, piece_after_last_chars, str_eq, string_from_chars, to_lowercase, trim, trim_chars, unicode_lowercase};
use crate::log_scanner::opt_str;

verus! {

/// A mod file found under `Mods/` or `Plugins/`: its path as text, the file
/// name without extension (when it is valid text), its MD5 in hex, and its
/// MelonInfo when one could be read.
#[derive(Debug, Clone)]
pub struct InstalledFile {
    pub path: String,
    pub stem: Option<String>,
    pub hash: String,
    pub info: Option<MelonInfo>,
}

/// The flag of mod `id`: the last entry for it wins, 0 when there is none.
pub open spec fn flag_lookup(flags: Seq<FlagEntry>, id: i64) -> i32
    decreases flags.len(),
{
    if flags.len() == 0 {
        0
    } else if flags.last()._id == id {
        flags.last().flag
    } else {
        flag_lookup(flags.drop_last(), id)
    }
}

/// The lowercase file-name stem of a file (empty when it has none).
pub open spec fn stem_key(f: InstalledFile) -> Seq<char> {
    unicode_lowercase(
        match f.stem {
            Some(s) => s@,
            None => Seq::empty(),
        },
    )
}

/// The version a file's MelonInfo gives (empty without one).
pub open spec fn file_version(f: InstalledFile) -> Seq<char> {
    match f.info {
        Some(i) => i.version@,
        None => Seq::empty(),
    }
}

/// (path, version) of the last file whose MelonInfo name is `key` in lowercase.
pub open spec fn by_melon_name(inst: Seq<InstalledFile>, key: Seq<char>) -> Option<(Seq<char>, Seq<char>)>
    decreases inst.len(),
{
    if inst.len() == 0 {
        None
    } else {
        let f = inst.last();
        if f.info is Some && unicode_lowercase(f.info->0.name@) == key {
            Some((f.path@, f.info->0.version@))
        } else {
            by_melon_name(inst.drop_last(), key)
        }
    }
}

/// (path, version) of the last file whose lowercase stem is `key`.
pub open spec fn by_filename(inst: Seq<InstalledFile>, key: Seq<char>) -> Option<(Seq<char>, Seq<char>)>
    decreases inst.len(),
{
    if inst.len() == 0 {
        None
    } else {
        let f = inst.last();
        if stem_key(f) == key {
            Some((f.path@, file_version(f)))
        } else {
            by_filename(inst.drop_last(), key)
        }
    }
}

/// The path of the last file whose lowercase hash is `key`.
pub open spec fn by_hash(inst: Seq<InstalledFile>, key: Seq<char>) -> Option<Seq<char>>
    decreases inst.len(),
{
    if inst.len() == 0 {
        None
    } else {
        let f = inst.last();
        if unicode_lowercase(f.hash@) == key {
            Some(f.path@)
        } else {
            by_hash(inst.drop_last(), key)
        }
    }
}

/// The first alias that names an installed MelonInfo.
pub open spec fn by_alias(inst: Seq<InstalledFile>, aliases: Seq<String>) -> Option<(Seq<char>, Seq<char>)>
    decreases aliases.len(),
{
    if aliases.len() == 0 {
        None
    } else {
        match by_melon_name(inst, unicode_lowercase(aliases[0]@)) {
            Some(x) => Some(x),
            None => by_alias(inst, aliases.drop_first()),
        }
    }
}

/// `s` without any of its trailing copies of `p` (`trim_end_matches(p)`).
pub open spec fn strip_suffix_all(s: Seq<char>, p: Seq<char>) -> Seq<char>
    decreases s.len(),
{
    if p.len() > 0 && p.len() <= s.len() && s.subrange(s.len() - p.len(), s.len() as int) == p {
        strip_suffix_all(s.subrange(0, s.len() - p.len()), p)
    } else {
        s
    }
}

/// The lowercase file name a download link points at, without ".dll".
pub open spec fn url_stem(url: Seq<char>) -> Seq<char> {
    unicode_lowercase(strip_suffix_all(piece_after_last(url, '/'), ".dll"@))
}

/// The installed file of one catalogue version, and the version installed:
/// by MelonInfo name, by an alias, by the download link's file name, and
/// last by hash (a hash match means the listed version is installed).
pub open spec fn version_match(inst: Seq<InstalledFile>, aliases: Seq<String>, v: ModVersion) -> Option<(Seq<char>, Option<Seq<char>>)> {
    match by_melon_name(inst, unicode_lowercase(v.name@)) {
        Some((p, iv)) => Some((p, Some(iv))),
        None => match by_alias(inst, aliases) {
            Some((p, iv)) => Some((p, Some(iv))),
            None => {
                let s3 = match v.download_link {
                    Some(url) => if url_stem(url@).len() > 0 {
                        by_filename(inst, url_stem(url@))
                    } else {
                        None
                    },
                    None => None,
                };
                match s3 {
                    Some((p, iv)) => Some((p, Some(iv))),
                    None => match v.hash {
                        Some(h) => {
                            let hk = unicode_lowercase(trim(h@));
                            if hk.len() > 0 {
                                match by_hash(inst, hk) {
                                    Some(p) => Some((p, opt_str(v.mod_version))),
                                    None => None,
                                }
                            } else {
                                None
                            }
                        },
                        None => None,
                    },
                }
            },
        },
    }
}

/// The match of the first version (newest first) that matches.
pub open spec fn versions_match(inst: Seq<InstalledFile>, aliases: Seq<String>, vs: Seq<ModVersion>) -> Option<(Seq<char>, Option<Seq<char>>)>
    decreases vs.len(),
{
    if vs.len() == 0 {
        None
    } else {
        match version_match(inst, aliases, vs[0]) {
            Some(x) => Some(x),
            None => versions_match(inst, aliases, vs.drop_first()),
        }
    }
}

/// The installed file and version of a catalogue mod.
pub open spec fn mod_match(inst: Seq<InstalledFile>, m: Mod) -> Option<(Seq<char>, Option<Seq<char>>)> {
    versions_match(inst, m.aliases@, m.versions@)
}

/// `r` is catalogue mod `m` with its flag and installed file filled in.
pub open spec fn matched_mod(r: Mod, m: Mod, flags: Seq<FlagEntry>, inst: Seq<InstalledFile>) -> bool {
    &&& r._id == m._id
    &&& r.upload_date == m.upload_date
    &&& r.category == m.category
    &&& r.aliases == m.aliases
    &&& r.versions == m.versions
    &&& r.installed_in_broken_dir == m.installed_in_broken_dir
    &&& r.installed_in_retired_dir == m.installed_in_retired_dir
    &&& r.is_unverified == m.is_unverified
    &&& r.flag == flag_lookup(flags, m._id)
    &&& match mod_match(inst, m) {
        Some((p, iv)) => opt_str(r.installed_file_path) == Some(p) && opt_str(r.installed_version) == iv,
        None => r.installed_file_path == m.installed_file_path && r.installed_version == m.installed_version,
    }
}

/// The lowercase installed paths of the mods that have one.
pub open spec fn claimed_paths(ms: Seq<Mod>) -> Seq<Seq<char>>
    decreases ms.len(),
{
    if ms.len() == 0 {
        Seq::empty()
    } else {
        let r = claimed_paths(ms.drop_last());
        match ms.last().installed_file_path {
            Some(p) => r.push(unicode_lowercase(p@)),
            None => r,
        }
    }
}

/// The installed files that no catalogue mod claims, in scan order.
pub open spec fn unclaimed(inst: Seq<InstalledFile>, claimed: Seq<Seq<char>>) -> Seq<InstalledFile>
    decreases inst.len(),
{
    if inst.len() == 0 {
        Seq::empty()
    } else {
        let r = unclaimed(inst.drop_last(), claimed);
        if claimed.contains(unicode_lowercase(inst.last().path@)) {
            r
        } else {
            r.push(inst.last())
        }
    }
}

/// Name, version and author shown for an unlisted file: its MelonInfo, or its
/// stem (or "Unknown") with no version or author.
pub open spec fn unlisted_fields(f: InstalledFile) -> (Seq<char>, Seq<char>, Seq<char>) {
    match f.info {
        Some(i) => (i.name@, i.version@, i.author@),
        None => (
            match f.stem {
                Some(s) => s@,
                None => "Unknown"@,
            },
            Seq::empty(),
            Seq::empty(),
        ),
    }
}

/// Empty text as `None`.
pub open spec fn non_empty(s: Seq<char>) -> Option<Seq<char>> {
    if s.len() == 0 {
        None
    } else {
        Some(s)
    }
}

/// `m` is the entry listed for a file that the catalogue does not know.
pub open spec fn unlisted_mod(m: Mod, f: InstalledFile) -> bool {
    let (name, version, author) = unlisted_fields(f);
    &&& m._id == 0
    &&& m.upload_date is None
    &&& opt_str(m.category) == Some("__unverified__"@)
    &&& m.aliases@.len() == 0
    &&& m.versions@.len() == 1
    &&& m.versions@[0]._version == 0
    &&& m.versions@[0].name@ == name
    &&& opt_str(m.versions@[0].mod_version) == non_empty(version)
    &&& m.versions@[0].mod_type is None
    &&& opt_str(m.versions@[0].author) == non_empty(author)
    &&& opt_str(m.versions@[0].description) == Some("Not listed in the CVRMG mod repository."@)
    &&& m.versions@[0].download_link is None
    &&& m.versions@[0].source_link is None
    &&& m.versions@[0].hash is None
    &&& m.versions@[0].update_date is None
    &&& m.versions@[0].chillout_vr_version is None
    &&& m.versions@[0].loader_version is None
    &&& m.versions@[0].approval_status == 0
    &&& opt_str(m.installed_file_path) == Some(f.path@)
    &&& opt_str(m.installed_version) == non_empty(version)
    &&& !m.installed_in_broken_dir
    &&& !m.installed_in_retired_dir
    &&& m.flag == 0
    &&& m.is_unverified
}

} // verus!

verus! {

fn flag_of(flags: &[FlagEntry], id: i64) -> (f: i32)
    ensures
        f == flag_lookup(flags@, id),
{
    let mut i: usize = flags.len();
    assert(flags@.take(i as int) =~= flags@);
    while i > 0
        invariant
            i <= flags@.len(),
            flag_lookup(flags@, id) == flag_lookup(flags@.take(i as int), id),
        decreases i,
    {
        assert(flags@.take(i as int).drop_last() =~= flags@.take(i - 1));
        if flags[i - 1]._id == id {
            return flags[i - 1].flag;
        }
        i = i - 1;
    }
    0
}

fn lower(s: &str) -> (r: String)
    ensures
        r@ == unicode_lowercase(s@),
{
    to_lowercase(s)
}

fn copy_string(s: &String) -> (r: String)
    ensures
        r@ == s@,
{
    let c = chars_of(s.as_str());
    string_from_chars(c.as_slice())
}

fn find_by_melon_name(inst: &[InstalledFile], key: &str) -> (r: Option<(String, String)>)
    ensures
        match r {
            Some((p, v)) => by_melon_name(inst@, key@) == Some((p@, v@)),
            None => by_melon_name(inst@, key@) is None,
        },
{
    let mut i: usize = inst.len();
    assert(inst@.take(i as int) =~= inst@);
    while i > 0
        invariant
            i <= inst@.len(),
            by_melon_name(inst@, key@) == by_melon_name(inst@.take(i as int), key@),
        decreases i,
    {
        assert(inst@.take(i as int).drop_last() =~= inst@.take(i - 1));
        let f = &inst[i - 1];
        match &f.info {
            Some(info) => {
                let l = lower(info.name.as_str());
                if str_eq(l.as_str(), key) {
                    return Some((copy_string(&f.path), copy_string(&info.version)));
                }
            },
            None => {},
        }
        i = i - 1;
    }
    None
}

fn find_by_filename(inst: &[InstalledFile], key: &str) -> (r: Option<(String, String)>)
    ensures
        match r {
            Some((p, v)) => by_filename(inst@, key@) == Some((p@, v@)),
            None => by_filename(inst@, key@) is None,
        },
{
    let mut i: usize = inst.len();
    assert(inst@.take(i as int) =~= inst@);
    while i > 0
        invariant
            i <= inst@.len(),
            by_filename(inst@, key@) == by_filename(inst@.take(i as int), key@),
        decreases i,
    {
        assert(inst@.take(i as int).drop_last() =~= inst@.take(i - 1));
        let f = &inst[i - 1];
        let l = match &f.stem {
            Some(s) => lower(s.as_str()),
            None => lower(""),
        };
        proof {
            if f.stem is None {
                assert(""@ =~= Seq::<char>::empty()) by {
                    reveal_strlit("");
                }
            }
        }
        if str_eq(l.as_str(), key) {
            let v = match &f.info {
                Some(info) => copy_string(&info.version),
                None => {
                    let e = string_from_chars(&[]);
                    assert(e@ =~= Seq::<char>::empty());
                    e
                },
            };
            return Some((copy_string(&f.path), v));
        }
        i = i - 1;
    }
    None
}

fn find_by_hash(inst: &[InstalledFile], key: &str) -> (r: Option<String>)
    ensures
        match r {
            Some(p) => by_hash(inst@, key@) == Some(p@),
            None => by_hash(inst@, key@) is None,
        },
{
    let mut i: usize = inst.len();
    assert(inst@.take(i as int) =~= inst@);
    while i > 0
        invariant
            i <= inst@.len(),
            by_hash(inst@, key@) == by_hash(inst@.take(i as int), key@),
        decreases i,
    {
        assert(inst@.take(i as int).drop_last() =~= inst@.take(i - 1));
        let f = &inst[i - 1];
        let l = lower(f.hash.as_str());
        if str_eq(l.as_str(), key) {
            return Some(copy_string(&f.path));
        }
        i = i - 1;
    }
    None
}

fn find_by_alias(inst: &[InstalledFile], aliases: &Vec<String>) -> (r: Option<(String, String)>)
    ensures
        match r {
            Some((p, v)) => by_alias(inst@, aliases@) == Some((p@, v@)),
            None => by_alias(inst@, aliases@) is None,
        },
{
    let mut k: usize = 0;
    assert(aliases@.skip(0) =~= aliases@);
    while k < aliases.len()
        invariant
            k <= aliases@.len(),
            by_alias(inst@, aliases@) == by_alias(inst@, aliases@.skip(k as int)),
        decreases aliases.len() - k,
    {
        assert(aliases@.skip(k as int).drop_first() =~= aliases@.skip(k + 1));
        assert(aliases@.skip(k as int)[0] == aliases@[k as int]);
        let l = lower(aliases[k].as_str());
        match find_by_melon_name(inst, l.as_str()) {
            Some(x) => {
                return Some(x);
            },
            None => {},
        }
        k = k + 1;
    }
    None
}

fn strip_suffix_all_chars(s: &[char], p: &[char]) -> (r: Vec<char>)
    ensures
        r@ == strip_suffix_all(s@, p@),
{
    let mut end: usize = s.len();
    assert(s@.subrange(0, s@.len() as int) =~= s@);
    loop
        invariant
            end <= s@.len(),
            strip_suffix_all(s@, p@) == strip_suffix_all(s@.subrange(0, end as int), p@),
        decreases end,
    {
        let ghost t = s@.subrange(0, end as int);
        if p.len() > 0 && p.len() <= end {
            let start = end - p.len();
            let mut same = true;
            let mut j: usize = 0;
            while j < p.len()
                invariant
                    j <= p@.len(),
                    start + p@.len() == end,
                    end <= s@.len(),
                    same == (forall|k: int| 0 <= k < j ==> s@[start + k] == p@[k]),
                decreases p.len() - j,
            {
                if s[start + j] != p[j] {
                    same = false;
                }
                j = j + 1;
            }
            assert(same == (t.subrange(t.len() - p@.len(), t.len() as int) == p@)) by {
                if same {
                    assert(t.subrange(t.len() - p@.len(), t.len() as int) =~= p@);
                }
            }
            if same {
                assert(t.subrange(0, t.len() - p@.len()) =~= s@.subrange(0, start as int));
                end = start;
            } else {
                return crate::text::sub_chars(s, 0, end);
            }
        } else {
            return crate::text::sub_chars(s, 0, end);
        }
    }
}

fn url_stem_of(url: &str) -> (r: String)
    ensures
        r@ == url_stem(url@),
{
    let u = chars_of(url);
    let last = piece_after_last_chars(u.as_slice(), '/');
    let dll = chars_of(".dll");
    let st = strip_suffix_all_chars(last.as_slice(), dll.as_slice());
    let s = string_from_chars(st.as_slice());
    lower(s.as_str())
}

fn match_version(inst: &[InstalledFile], aliases: &Vec<String>, v: &ModVersion) -> (r: Option<(String, Option<String>)>)
    ensures
        match r {
            Some((p, iv)) => version_match(inst@, aliases@, *v) == Some((p@, opt_str(iv))),
            None => version_match(inst@, aliases@, *v) is None,
        },
{
    let key = lower(v.name.as_str());
    match find_by_melon_name(inst, key.as_str()) {
        Some((p, iv)) => {
            return Some((p, Some(iv)));
        },
        None => {},
    }
    match find_by_alias(inst, aliases) {
        Some((p, iv)) => {
            return Some((p, Some(iv)));
        },
        None => {},
    }
    match &v.download_link {
        Some(url) => {
            let st = url_stem_of(url.as_str());
            let n = chars_of(st.as_str());
            if n.len() > 0 {
                match find_by_filename(inst, st.as_str()) {
                    Some((p, iv)) => {
                        return Some((p, Some(iv)));
                    },
                    None => {},
                }
            }
        },
        None => {},
    }
    match &v.hash {
        Some(h) => {
            let hc = chars_of(h.as_str());
            let t = trim_chars(hc.as_slice());
            let ts = string_from_chars(t.as_slice());
            let hk = lower(ts.as_str());
            let hkc = chars_of(hk.as_str());
            if hkc.len() > 0 {
                match find_by_hash(inst, hk.as_str()) {
                    Some(p) => {
                        let mv = match &v.mod_version {
                            Some(x) => Some(copy_string(x)),
                            None => None,
                        };
                        return Some((p, mv));
                    },
                    None => {},
                }
            }
        },
        None => {},
    }
    None
}

fn match_mod(inst: &[InstalledFile], m: &Mod) -> (r: Option<(String, Option<String>)>)
    ensures
        match r {
            Some((p, iv)) => mod_match(inst@, *m) == Some((p@, opt_str(iv))),
            None => mod_match(inst@, *m) is None,
        },
{
    let mut k: usize = 0;
    assert(m.versions@.skip(0) =~= m.versions@);
    while k < m.versions.len()
        invariant
            k <= m.versions@.len(),
            mod_match(inst@, *m) == versions_match(inst@, m.aliases@, m.versions@.skip(k as int)),
        decreases m.versions.len() - k,
    {
        assert(m.versions@.skip(k as int).drop_first() =~= m.versions@.skip(k + 1));
        assert(m.versions@.skip(k as int)[0] == m.versions@[k as int]);
        match match_version(inst, &m.aliases, &m.versions[k]) {
            Some(x) => {
                return Some(x);
            },
            None => {},
        }
        k = k + 1;
    }
    None
}


fn claimed_keys(ms: &Vec<Mod>) -> (r: Vec<String>)
    ensures
        crate::melon_dll::strings_view(r@) == claimed_paths(ms@),
{
    let mut out: Vec<String> = Vec::new();
    let mut i: usize = 0;
    while i < ms.len()
        invariant
            i <= ms@.len(),
            crate::melon_dll::strings_view(out@) == claimed_paths(ms@.take(i as int)),
        decreases ms.len() - i,
    {
        assert(ms@.take(i + 1).drop_last() =~= ms@.take(i as int));
        match &ms[i].installed_file_path {
            Some(p) => {
                let l = lower(p.as_str());
                let ghost before = out@;
                out.push(l);
                assert(crate::melon_dll::strings_view(out@) =~= crate::melon_dll::strings_view(before).push(l@));
            },
            None => {},
        }
        i = i + 1;
    }
    assert(ms@.take(ms@.len() as int) =~= ms@);
    out
}

pub(crate) fn has_string(list: &Vec<String>, s: &str) -> (r: bool)
    ensures
        r == crate::melon_dll::strings_view(list@).contains(s@),
{
    let mut i: usize = 0;
    while i < list.len()
        invariant
            i <= list@.len(),
            forall|j: int| 0 <= j < i ==> list@[j]@ != s@,
        decreases list.len() - i,
    {
        if str_eq(list[i].as_str(), s) {
            assert(crate::melon_dll::strings_view(list@)[i as int] == s@);
            return true;
        }
        i = i + 1;
    }
    assert forall|j: int| 0 <= j < crate::melon_dll::strings_view(list@).len() implies crate::melon_dll::strings_view(list@)[j] != s@ by {
        assert(crate::melon_dll::strings_view(list@)[j] == list@[j]@);
    }
    false
}

fn non_empty_string(s: String) -> (r: Option<String>)
    ensures
        opt_str(r) == non_empty(s@),
{
    let c = chars_of(s.as_str());
    if c.len() == 0 {
        None
    } else {
        Some(s)
    }
}

/// The catalogue entry shown for an installed file that no catalogue mod claims.
pub fn unlisted_entry(f: &InstalledFile) -> (m: Mod)
    ensures
        unlisted_mod(m, *f),
{
    let (name, version, author) = match &f.info {
        Some(i) => (copy_string(&i.name), copy_string(&i.version), copy_string(&i.author)),
        None => {
            let n = match &f.stem {
                Some(s) => copy_string(s),
                None => String::from_str("Unknown"),
            };
            let e1 = string_from_chars(&[]);
            let e2 = string_from_chars(&[]);
            assert(e1@ =~= Seq::<char>::empty());
            assert(e2@ =~= Seq::<char>::empty());
            (n, e1, e2)
        },
    };
    let v2 = copy_string(&version);
    let syn_version = ModVersion {
        _version: 0,
        name: name,
        mod_version: non_empty_string(version),
        mod_type: None,
        author: non_empty_string(author),
        description: Some(String::from_str("Not listed in the CVRMG mod repository.")),
        download_link: None,
        source_link: None,
        hash: None,
        update_date: None,
        chillout_vr_version: None,
        loader_version: None,
        approval_status: 0,
    };
    let mut versions: Vec<ModVersion> = Vec::new();
    versions.push(syn_version);
    Mod {
        _id: 0,
        upload_date: None,
        category: Some(String::from_str("__unverified__")),
        aliases: Vec::new(),
        versions: versions,
        installed_file_path: Some(copy_string(&f.path)),
        installed_version: non_empty_string(v2),
        installed_in_broken_dir: false,
        installed_in_retired_dir: false,
        flag: 0,
        is_unverified: true,
    }
}

/// Fills in each catalogue mod's flag and installed file and version from
/// the files found on disk, and lists the files that no catalogue mod claims
/// as unverified entries (in the order they were found).
pub fn match_installed(mods: Vec<Mod>, flags: &[FlagEntry], installed: &[InstalledFile]) -> (r: (Vec<Mod>, Vec<Mod>))
    ensures
        r.0@.len() == mods@.len(),
        forall|i: int| 0 <= i < mods@.len() ==> matched_mod(#[trigger] r.0@[i], mods@[i], flags@, installed@),
        r.1@.len() == unclaimed(installed@, claimed_paths(r.0@)).len(),
        forall|j: int|
            0 <= j < r.1@.len() ==> unlisted_mod(#[trigger] r.1@[j], unclaimed(installed@, claimed_paths(r.0@))[j]),
{
    let ghost orig = mods@;
    let mut rest = mods;
    let mut out: Vec<Mod> = Vec::new();
    while rest.len() > 0
        invariant
            out@.len() + rest@.len() == orig.len(),
            rest@ == orig.skip(out@.len() as int),
            forall|i: int| 0 <= i < out@.len() ==> matched_mod(#[trigger] out@[i], orig[i], flags@, installed@),
        decreases rest.len(),
    {
        let ghost k: int = out@.len() as int;
        let mut m = rest.remove(0);
        assert(m == orig[k]);
        assert(rest@ =~= orig.skip(k + 1));
        m.flag = flag_of(flags, m._id);
        match match_mod(installed, &m) {
            Some((p, iv)) => {
                m.installed_file_path = Some(p);
                m.installed_version = iv;
            },
            None => {},
        }
        out.push(m);
    }
    let claimed = claimed_keys(&out);
    let ghost cl = claimed_paths(out@);
    let mut unlisted: Vec<Mod> = Vec::new();
    let mut j: usize = 0;
    while j < installed.len()
        invariant
            j <= installed@.len(),
            crate::melon_dll::strings_view(claimed@) == cl,
            unlisted@.len() == unclaimed(installed@.take(j as int), cl).len(),
            forall|t: int| 0 <= t < unlisted@.len() ==> unlisted_mod(#[trigger] unlisted@[t], unclaimed(installed@.take(j as int), cl)[t]),
        decreases installed.len() - j,
    {
        assert(installed@.take(j + 1).drop_last() =~= installed@.take(j as int));
        let l = lower(installed[j].path.as_str());
        if !has_string(&claimed, l.as_str()) {
            let e = unlisted_entry(&installed[j]);
            unlisted.push(e);
        }
        j = j + 1;
    }
    assert(installed@.take(installed@.len() as int) =~= installed@);
    (out, unlisted)
}

} // verus!

verus! {

/// A file is listed as unverified exactly when no catalogue mod claims its
/// path (compared in lowercase).
pub proof fn law_unlisted_iff_unclaimed(inst: Seq<InstalledFile>, claimed: Seq<Seq<char>>)
    ensures
        forall|j: int|
            0 <= j < unclaimed(inst, claimed).len() ==> !claimed.contains(
                unicode_lowercase((#[trigger] unclaimed(inst, claimed)[j]).path@),
            ) && inst.contains(unclaimed(inst, claimed)[j]),
        forall|f: InstalledFile|
            #[trigger] inst.contains(f) && !claimed.contains(unicode_lowercase(f.path@)) ==> unclaimed(inst, claimed).contains(f),
    decreases inst.len(),
{
    if inst.len() > 0 {
        let prev = inst.drop_last();
        law_unlisted_iff_unclaimed(prev, claimed);
        let u = unclaimed(inst, claimed);
        let up = unclaimed(prev, claimed);
        assert forall|j: int| 0 <= j < u.len() implies !claimed.contains(unicode_lowercase((#[trigger] u[j]).path@))
            && inst.contains(u[j]) by {
            if j < up.len() {
                assert(u[j] == up[j]);
                assert(prev.contains(up[j]));
                let k = choose|k: int| 0 <= k < prev.len() && prev[k] == up[j];
                assert(inst[k] == up[j]);
            } else {
                assert(u[j] == inst.last());
                assert(inst[inst.len() - 1] == inst.last());
            }
        }
        assert forall|f: InstalledFile| #[trigger] inst.contains(f) && !claimed.contains(unicode_lowercase(f.path@)) implies u.contains(f) by {
            let k = choose|k: int| 0 <= k < inst.len() && inst[k] == f;
            if k < inst.len() - 1 {
                assert(prev[k] == f);
                assert(prev.contains(f));
                assert(up.contains(f));
                let m = choose|m: int| 0 <= m < up.len() && up[m] == f;
                assert(u[m] == f);
            } else {
                assert(u[u.len() - 1] == f);
            }
        }
    }
}

} // verus!

verus! {

/// `p` is the path of one of the scanned files.
pub open spec fn is_scanned_path(inst: Seq<InstalledFile>, p: Seq<char>) -> bool {
    exists|i: int| 0 <= i < inst.len() && (#[trigger] inst[i]).path@ == p
}

proof fn lemma_lookups_scanned(inst: Seq<InstalledFile>, key: Seq<char>)
    ensures
        by_melon_name(inst, key) matches Some((p, _)) ==> is_scanned_path(inst, p),
        by_filename(inst, key) matches Some((p, _)) ==> is_scanned_path(inst, p),
        by_hash(inst, key) matches Some(p) ==> is_scanned_path(inst, p),
    decreases inst.len(),
{
    if inst.len() > 0 {
        let prev = inst.drop_last();
        lemma_lookups_scanned(prev, key);
        assert(inst[inst.len() - 1] == inst.last());
        match by_melon_name(prev, key) {
            Some((p, _)) => {
                let i = choose|i: int| 0 <= i < prev.len() && (#[trigger] prev[i]).path@ == p;
                assert(inst[i] == prev[i]);
            },
            None => {},
        }
        match by_filename(prev, key) {
            Some((p, _)) => {
                let i = choose|i: int| 0 <= i < prev.len() && (#[trigger] prev[i]).path@ == p;
                assert(inst[i] == prev[i]);
            },
            None => {},
        }
        match by_hash(prev, key) {
            Some(p) => {
                let i = choose|i: int| 0 <= i < prev.len() && (#[trigger] prev[i]).path@ == p;
                assert(inst[i] == prev[i]);
            },
            None => {},
        }
    }
}

proof fn lemma_alias_scanned(inst: Seq<InstalledFile>, aliases: Seq<String>)
    ensures
        by_alias(inst, aliases) matches Some((p, _)) ==> is_scanned_path(inst, p),
    decreases aliases.len(),
{
    if aliases.len() > 0 {
        lemma_lookups_scanned(inst, unicode_lowercase(aliases[0]@));
        lemma_alias_scanned(inst, aliases.drop_first());
    }
}

proof fn lemma_versions_scanned(inst: Seq<InstalledFile>, aliases: Seq<String>, vs: Seq<ModVersion>)
    ensures
        versions_match(inst, aliases, vs) matches Some((p, _)) ==> is_scanned_path(inst, p),
    decreases vs.len(),
{
    if vs.len() > 0 {
        let v = vs[0];
        lemma_lookups_scanned(inst, unicode_lowercase(v.name@));
        lemma_alias_scanned(inst, aliases);
        match v.download_link {
            Some(url) => lemma_lookups_scanned(inst, url_stem(url@)),
            None => {},
        }
        match v.hash {
            Some(h) => lemma_lookups_scanned(inst, unicode_lowercase(trim(h@))),
            None => {},
        }
        lemma_versions_scanned(inst, aliases, vs.drop_first());
    }
}

/// The file a catalogue mod is matched to is always one of the scanned files.
pub proof fn law_matched_paths_are_scanned(inst: Seq<InstalledFile>, m: Mod)
    ensures
        mod_match(inst, m) matches Some((p, _)) ==> is_scanned_path(inst, p),
{
    lemma_versions_scanned(inst, m.aliases@, m.versions@);
}

} // verus!
