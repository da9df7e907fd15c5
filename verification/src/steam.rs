//! Reading Steam's library and app manifests: the library folders listed in
//! `libraryfolders.vdf` and the install folder named in an app manifest.

use vstd::prelude::*;

verus! {

/// The values captured by `"key"\s+"([^"]+)"`, one per match, in order
/// (none when the pattern would not compile).
pub open spec fn quoted_values(key: Seq<char>, text: Seq<char>) -> Seq<Seq<char>> {
    match crate::text::regex_group1(seq!['"'] + key + "\"\\s+\"([^\"]+)\""@, text) {
        Some(v) => v,
        None => Seq::empty(),
    }
}

fn vdf_values(key: &str, text: &str) -> (r: Vec<String>)
    ensures
        crate::melon_dll::strings_view(r@) == quoted_values(key@, text@),
{
    let mut pat: Vec<char> = Vec::new();
    pat.push('"');
    assert(pat@ =~= seq!['"']);
    let k = crate::text::chars_of(key);
    crate::log_scanner::append_chars(&mut pat, k.as_slice());
    let tail = crate::text::chars_of("\"\\s+\"([^\"]+)\"");
    crate::log_scanner::append_chars(&mut pat, tail.as_slice());
    let p = crate::text::string_from_chars(pat.as_slice());
    match crate::text::regex_captures(p.as_str(), text) {
        Some(v) => v,
        None => {
            let v: Vec<String> = Vec::new();
            assert(crate::melon_dll::strings_view(v@) =~= Seq::<Seq<char>>::empty());
            v
        },
    }
}

/// Every `"path"  "<dir>"` value of a `libraryfolders.vdf`, in order.
pub fn library_paths_in_vdf(vdf: &str) -> (r: Vec<String>)
    ensures
        crate::melon_dll::strings_view(r@) == quoted_values("path"@, vdf@),
{
    proof {
        reveal_strlit("path");
    }
    vdf_values("path", vdf)
}

/// Every `"installdir"  "<name>"` value of an app manifest, in order.
pub fn install_dirs_in_acf(acf: &str) -> (r: Vec<String>)
    ensures
        crate::melon_dll::strings_view(r@) == quoted_values("installdir"@, acf@),
{
    proof {
        reveal_strlit("installdir");
    }
    vdf_values("installdir", acf)
}

} // verus!
