use cvr_melon_assistant::api::{flag_symbol, is_newer_version, sort_catalogue};
use cvr_melon_assistant::install::{
    download_link_of, install_target, md5_hex, melon_loader_version_in_dll, ml_update_hint, mod_has_update,
    mod_version_outdated, quarantine_broken_candidates, quarantine_retired_candidates, release_version,
    resolve_dependency, DepAction, DownloadError,
};
use cvr_melon_assistant::matching::{match_installed, unlisted_entry, InstalledFile};
use cvr_melon_assistant::melon_dll::MelonInfo;
use cvr_melon_assistant::models::{FlagEntry, Mod, ModVersion};

fn version(name: &str, ver: Option<&str>, status: i32) -> ModVersion {
    ModVersion {
        _version: 1,
        name: name.to_string(),
        mod_version: ver.map(|s| s.to_string()),
        mod_type: None,
        author: Some("Author".to_string()),
        description: Some(format!("{} description", name)),
        download_link: None,
        source_link: None,
        hash: None,
        update_date: None,
        chillout_vr_version: None,
        loader_version: None,
        approval_status: status,
    }
}

fn catalogue_mod(id: i64, category: Option<&str>, v: ModVersion) -> Mod {
    Mod {
        _id: id,
        upload_date: None,
        category: category.map(|s| s.to_string()),
        aliases: Vec::new(),
        versions: vec![v],
        installed_file_path: None,
        installed_version: None,
        installed_in_broken_dir: false,
        installed_in_retired_dir: false,
        flag: 0,
        is_unverified: false,
    }
}

fn file(path: &str, stem: &str, hash: &str, info: Option<(&str, &str)>) -> InstalledFile {
    InstalledFile {
        path: path.to_string(),
        stem: Some(stem.to_string()),
        hash: hash.to_string(),
        info: info.map(|(n, v)| MelonInfo { name: n.to_string(), version: v.to_string(), author: "Someone".to_string() }),
    }
}

#[test]
fn newer_version_scenarios() {
    assert!(is_newer_version("1.2.3", "1.2.4"));
    assert!(!is_newer_version("1.2.4", "1.2.3"));
    assert!(!is_newer_version("1.2.3", "1.2.3"));
    assert!(is_newer_version("1.2.3-beta", "1.2.3"));
    assert!(is_newer_version("1.2.3-alpha", "1.2.3-beta"));
    assert!(is_newer_version("v1.0", "1.0.1"));
    assert!(is_newer_version("1.2.3.4", "1.2.3.5"));
    assert!(!is_newer_version("2.0.0", "1.9.9"));
}

#[test]
fn flag_symbols() {
    assert_eq!(flag_symbol(1), "\u{2605}");
    assert_eq!(flag_symbol(2), "\u{2665}");
    assert_eq!(flag_symbol(3), "\u{24d8}");
    assert_eq!(flag_symbol(0), "");
}

#[test]
fn catalogue_sorted_by_category_then_name() {
    let mods = vec![
        catalogue_mod(1, Some("Utility"), version("Zeta", None, 1)),
        catalogue_mod(2, Some("Avatar"), version("Beta", None, 1)),
        catalogue_mod(3, None, version("Alpha", None, 1)),
        catalogue_mod(4, Some("Utility"), version("Alpha", None, 1)),
        catalogue_mod(5, Some("Avatar"), version("Beta", None, 1)),
    ];
    let sorted = sort_catalogue(mods);
    let ids: Vec<i64> = sorted.iter().map(|m| m._id).collect();
    assert_eq!(ids, vec![2, 5, 3, 4, 1]);
}

#[test]
fn update_detection() {
    let mut m = catalogue_mod(1, None, version("Menu", Some("1.2.0"), 1));
    assert!(!mod_has_update(&m));
    m.installed_file_path = Some("/cvr/Mods/Menu.dll".to_string());
    m.installed_version = Some("1.1.0".to_string());
    assert!(mod_has_update(&m));
    assert!(mod_version_outdated(&m));
    m.installed_file_path = Some("/cvr/Mods/~Broken/Menu.dll".to_string());
    assert!(!mod_has_update(&m));
}

#[test]
fn quarantine_candidates_pick_broken_and_retired() {
    let mut broken = catalogue_mod(1, None, version("Old", Some("1.0.0"), 2));
    broken.installed_file_path = Some("/cvr/Mods/Old.dll".to_string());
    broken.installed_version = Some("1.0.0".to_string());
    let mut patched = catalogue_mod(2, None, version("Patched", Some("1.0.0"), 2));
    patched.installed_file_path = Some("/cvr/Mods/Patched.dll".to_string());
    patched.installed_version = Some("1.1.0".to_string());
    let mut retired = catalogue_mod(3, None, version("Gone", Some("1.0.0"), 3));
    retired.installed_file_path = Some("/cvr/Mods/Gone.dll".to_string());
    let mods = vec![broken, patched, retired];
    let b = quarantine_broken_candidates(&mods);
    assert_eq!(b.len(), 1);
    assert_eq!(b[0].mod_name, "Old");
    assert_eq!(b[0].from, "/cvr/Mods/Old.dll");
    assert_eq!(b[0].subdir, "Mods");
    assert_eq!(b[0].folder, "~Broken");
    let r = quarantine_retired_candidates(&mods);
    assert_eq!(r.len(), 1);
    assert_eq!(r[0].mod_name, "Gone");
    assert_eq!(r[0].folder, "~Retired");
}

#[test]
fn md5_of_known_text() {
    assert_eq!(md5_hex(b"abc"), "900150983cd24fb0d6963f7d28e17f72");
    assert_eq!(md5_hex(b""), "d41d8cd98f00b204e9800998ecf8427e");
}

#[test]
fn matching_strategies() {
    let mut by_name = catalogue_mod(10, Some("UI"), version("BTKUILib", Some("2.1.0"), 1));
    by_name.versions[0].download_link = Some("https://x/BTKUILib.dll".to_string());
    let mut by_alias = catalogue_mod(11, Some("UI"), version("Chat Box", Some("1.0.0"), 1));
    by_alias.aliases = vec!["ChatBox".to_string()];
    let mut by_file = catalogue_mod(12, Some("Misc"), version("Thing", Some("3.0.0"), 1));
    by_file.versions[0].download_link = Some("https://host/files/ThingMod.dll.dll".to_string());
    let mut by_hash = catalogue_mod(13, Some("Misc"), version("Hashed", Some("0.9.0"), 1));
    by_hash.versions[0].hash = Some("  ABCDEF  ".to_string());
    let missing = catalogue_mod(14, Some("Misc"), version("Absent", Some("1.0.0"), 1));
    let installed = vec![
        file("/cvr/Mods/btk.dll", "btk", "111", Some(("btkuilib", "2.0.0"))),
        file("/cvr/Mods/cb.dll", "cb", "222", Some(("CHATBOX", "0.5.0"))),
        file("/cvr/Mods/thingmod.dll", "ThingMod", "333", None),
        file("/cvr/Mods/h.dll", "h", "abcdef", None),
        file("/cvr/Mods/Extra.dll", "Extra", "444", Some(("Extra", "1.0.0"))),
        file("/cvr/Mods/Plain.dll", "Plain", "555", None),
    ];
    let flags = vec![FlagEntry { _id: 10, flag: 1 }, FlagEntry { _id: 10, flag: 2 }, FlagEntry { _id: 13, flag: 3 }];
    let (mods, unlisted) = match_installed(vec![by_name, by_alias, by_file, by_hash, missing], &flags, &installed);
    assert_eq!(mods[0].flag, 2);
    assert_eq!(mods[0].installed_file_path.as_deref(), Some("/cvr/Mods/btk.dll"));
    assert_eq!(mods[0].installed_version.as_deref(), Some("2.0.0"));
    assert_eq!(mods[1].installed_file_path.as_deref(), Some("/cvr/Mods/cb.dll"));
    assert_eq!(mods[1].installed_version.as_deref(), Some("0.5.0"));
    assert_eq!(mods[2].installed_file_path.as_deref(), Some("/cvr/Mods/thingmod.dll"));
    assert_eq!(mods[2].installed_version.as_deref(), Some(""));
    assert_eq!(mods[3].flag, 3);
    assert_eq!(mods[3].installed_file_path.as_deref(), Some("/cvr/Mods/h.dll"));
    assert_eq!(mods[3].installed_version.as_deref(), Some("0.9.0"));
    assert_eq!(mods[4].installed_file_path, None);
    assert_eq!(mods[4].flag, 0);
    assert_eq!(unlisted.len(), 2);
    assert_eq!(unlisted[0].versions[0].name, "Extra");
    assert_eq!(unlisted[0].installed_version.as_deref(), Some("1.0.0"));
    assert!(unlisted[0].is_unverified);
    assert_eq!(unlisted[0].category.as_deref(), Some("__unverified__"));
    assert_eq!(unlisted[1].versions[0].name, "Plain");
    assert_eq!(unlisted[1].installed_version, None);
    assert_eq!(unlisted[1].versions[0].author, None);
    assert_eq!(
        unlisted[1].versions[0].description.as_deref(),
        Some("Not listed in the CVRMG mod repository.")
    );
}

#[test]
fn unlisted_file_without_stem_is_unknown() {
    let f = InstalledFile { path: "/x/.dll".to_string(), stem: None, hash: String::new(), info: None };
    let m = unlisted_entry(&f);
    assert_eq!(m.versions[0].name, "Unknown");
    assert_eq!(m.installed_file_path.as_deref(), Some("/x/.dll"));
    assert_eq!(m._id, 0);
}

#[test]
fn download_checks() {
    let mut m = catalogue_mod(1, None, version("Menu", Some("1.0.0"), 1));
    assert_eq!(download_link_of(&m), Err(DownloadError::NoDownloadLink));
    m.versions[0].download_link = Some("https://x/Menu.dll".to_string());
    assert_eq!(download_link_of(&m), Ok("https://x/Menu.dll".to_string()));
    m.versions.clear();
    assert_eq!(download_link_of(&m), Err(DownloadError::NoVersions));
}

#[test]
fn install_target_names() {
    let bytes = b"not a dll".to_vec();
    let m = catalogue_mod(7, None, version("My Mod", None, 1));
    let t = install_target(&m, &bytes);
    assert_eq!(t.subdir, "Mods");
    assert_eq!(t.quarantine_dir, "");
    assert_eq!(t.file_name, "My Mod.dll");
    let mut p = catalogue_mod(8, None, version("A/B.DLL", None, 2));
    p.versions[0].mod_type = Some("PLUGIN".to_string());
    let t = install_target(&p, &bytes);
    assert_eq!(t.subdir, "Plugins");
    assert_eq!(t.quarantine_dir, "~Broken/");
    assert_eq!(t.file_name, "AB.DLL");
    let blank = catalogue_mod(-5, None, version(" / ", None, 3));
    let t = install_target(&blank, &bytes);
    assert_eq!(t.quarantine_dir, "~Retired/");
    assert_eq!(t.file_name, "mod_-5.dll");
}

#[test]
fn dependency_resolution() {
    let installed = vec![file("/cvr/Mods/a.dll", "a", "1", Some(("BTKUILib", "1.0")))];
    let mut chat = catalogue_mod(1, None, version("Chat Box", None, 1));
    chat.aliases = vec!["chatbox".to_string()];
    let mods = vec![catalogue_mod(0, None, version("Other", None, 1)), chat];
    assert_eq!(resolve_dependency("btkuilib", &installed, &mods), DepAction::AlreadyInstalled);
    assert_eq!(resolve_dependency("ChatBox", &installed, &mods), DepAction::Install(1));
    assert_eq!(resolve_dependency("other", &installed, &mods), DepAction::Install(0));
    assert_eq!(resolve_dependency("Nothing", &installed, &mods), DepAction::NotInCatalogue);
}

#[test]
fn melonloader_version_from_dll_text() {
    assert_eq!(melon_loader_version_in_dll(b"xx AssemblyVersion(\"0.6.1.0\") yy").as_deref(), Some("0.6.1.0"));
    assert_eq!(melon_loader_version_in_dll(b"MelonLoader v0.5.7 Open-Beta").as_deref(), Some("0.5.7"));
    assert_eq!(melon_loader_version_in_dll(b"ip 192.168.0.1 then 1.2.3 end").as_deref(), Some("1.2.3"));
    assert_eq!(melon_loader_version_in_dll(b"no version here"), None);
    assert_eq!(melon_loader_version_in_dll(b"7.1.1 and 1.2.1000"), None);
}

#[test]
fn melonloader_update_hint() {
    assert_eq!(release_version("v0.6.2"), "0.6.2");
    let (text, update) = ml_update_hint("0.6.1", "0.6.2");
    assert!(update);
    assert_eq!(text, "\u{2b06}  Update available: 0.6.1 \u{2192} 0.6.2  (click Install / Update)");
    let (text, update) = ml_update_hint("0.6.2", "0.6.2");
    assert!(!update);
    assert_eq!(text, "\u{2713}  MelonLoader is up to date");
}

#[test]
fn prerelease_tags_follow_semver() {
    assert!(is_newer_version("1.0.0-beta.2", "1.0.0-beta.10"));
    assert!(!is_newer_version("1.0.0-beta.10", "1.0.0-beta.2"));
    assert!(is_newer_version("1.0.0-alpha", "1.0.0-alpha.1"));
    assert!(!is_newer_version("1.0.0-alpha.1", "1.0.0-alpha"));
    assert!(is_newer_version("1.0.0-alpha.1", "1.0.0-alpha.beta"));
    assert!(is_newer_version("1.0.0-beta.11", "1.0.0-rc.1"));
    assert!(!is_newer_version("1.0.0-beta.01", "1.0.0-beta.1"));
    assert!(!is_newer_version("1.0.0-beta.1", "1.0.0-beta.01"));
    assert!(is_newer_version("1.0.0-beta.99999999999999999999", "1.0.0-beta.100000000000000000000"));
    assert!(is_newer_version("1.0.0-rc.1", "1.0.0"));
}

#[test]
fn leading_v_is_ignored() {
    assert!(!is_newer_version("v1.2.3", "1.2.3"));
    assert!(!is_newer_version("1.2.3", "v1.2.3"));
    assert!(is_newer_version("1.2.3", "v1.2.4"));
    assert!(is_newer_version("v1.2.3", "1.2.4"));
}
