use cvr_melon_assistant::archive::{extraction_plan, extraction_steps, ExtractStep, ZipEntry};
use cvr_melon_assistant::install::installed_ml_version;
use std::io::Write;
use cvr_melon_assistant::config::{default_true, is_leap, log_line, unix_secs_to_timestamp, Config};
use cvr_melon_assistant::models::{Mod, ModVersion};
use cvr_melon_assistant::steam::{install_dirs_in_acf, library_paths_in_vdf};

#[test]
fn timestamps() {
    assert_eq!(unix_secs_to_timestamp(0), "1970-01-01 00:00:00");
    assert_eq!(unix_secs_to_timestamp(1714055521), "2024-04-25 14:32:01");
    assert_eq!(unix_secs_to_timestamp(951782400), "2000-02-29 00:00:00");
    assert_eq!(unix_secs_to_timestamp(86399), "1970-01-01 23:59:59");
}

#[test]
fn leap_years() {
    assert!(is_leap(2000));
    assert!(!is_leap(1900));
    assert!(is_leap(2024));
    assert!(!is_leap(2023));
}

#[test]
fn log_lines() {
    assert_eq!(log_line(0, "warn", "disk full"), "[1970-01-01 00:00:00][WARN] disk full\n");
    assert_eq!(log_line(1714055521, "Info", ""), "[2024-04-25 14:32:01][INFO] \n");
}

#[test]
fn default_config() {
    let c = Config::default();
    assert!(c.install_folder.is_none());
    assert!(c.confirm_uninstall);
    assert!(c.show_broken_retired_category);
    assert!(!c.show_quarantined_mods);
    assert!(!c.debug_intro_shown);
    assert!(c.auto_install_deps);
    assert!(!c.close_on_finish);
    assert!(default_true());
}

#[test]
fn steam_manifests() {
    let vdf = "\"libraryfolders\"\n{\n\t\"0\"\n\t{\n\t\t\"path\"\t\t\"/home/u/.local/share/Steam\"\n\t\t\"label\"\t\t\"\"\n\t}\n\t\"1\"\n\t{\n\t\t\"path\"\t\t\"/mnt/games/SteamLibrary\"\n\t}\n}\n";
    assert_eq!(library_paths_in_vdf(vdf), vec!["/home/u/.local/share/Steam", "/mnt/games/SteamLibrary"]);
    let old = "\"1\" { \"path\" \"/old/lib\" }";
    assert_eq!(library_paths_in_vdf(old), vec!["/old/lib"]);
    let acf = "\"AppState\"\n{\n\t\"appid\"\t\t\"661130\"\n\t\"installdir\"\t\t\"ChilloutVR\"\n}\n";
    assert_eq!(install_dirs_in_acf(acf), vec!["ChilloutVR"]);
    assert!(install_dirs_in_acf("\"installdir\"\"x\"").is_empty());
}

fn version(mod_type: Option<&str>, status: i32) -> ModVersion {
    ModVersion {
        _version: 1,
        name: "N".to_string(),
        mod_version: None,
        mod_type: mod_type.map(|s| s.to_string()),
        author: None,
        description: None,
        download_link: None,
        source_link: None,
        hash: None,
        update_date: None,
        chillout_vr_version: None,
        loader_version: None,
        approval_status: status,
    }
}

#[test]
fn model_predicates() {
    assert!(version(Some("Plugin"), 1).is_plugin());
    assert!(version(Some("PLUGIN"), 1).is_plugin());
    assert!(!version(Some("Mod"), 1).is_plugin());
    assert!(!version(None, 1).is_plugin());
    assert!(version(None, 2).is_broken());
    assert!(!version(None, 2).is_retired());
    assert!(version(None, 3).is_retired());
    let m = Mod {
        _id: 1,
        upload_date: None,
        category: None,
        aliases: Vec::new(),
        versions: Vec::new(),
        installed_file_path: None,
        installed_version: None,
        installed_in_broken_dir: false,
        installed_in_retired_dir: false,
        flag: 0,
        is_unverified: false,
    };
    assert_eq!(m.display_category(), "Uncategorized");
    let mut n = m.clone();
    n.category = Some("Avatar".to_string());
    assert_eq!(n.display_category(), "Avatar");
}

fn quoted(s: &str) -> Option<String> {
    let cs: Vec<char> = s.chars().collect();
    cvr_melon_assistant::text::extract_quoted_chars(&cs).map(|v| v.into_iter().collect())
}

#[test]
fn extract_quoted_takes_first_quoted_string() {
    assert_eq!(quoted("- 'OSC' is x"), Some("OSC".to_string()));
    assert_eq!(quoted("say \"hi\" now"), Some("hi".to_string()));
    assert_eq!(quoted("'open"), None);
    assert_eq!(quoted("\"a\" then 'b'"), Some("a".to_string()));
    assert_eq!(quoted("'b' then \"a\""), Some("b".to_string()));
    assert_eq!(quoted("it's \"x\""), Some("x".to_string()));
    assert_eq!(quoted("no quotes"), None);
}

#[test]
fn installed_melonloader_version_sources() {
    let dll = b"xx AssemblyVersion(\"0.6.5.0\") yy".to_vec();
    assert_eq!(installed_ml_version(&Some("  0.7.0 \n".to_string()), &vec![Some(dll.clone())], true), Some("0.7.0".to_string()));
    assert_eq!(installed_ml_version(&Some("   ".to_string()), &vec![None, Some(dll.clone())], true), Some("0.6.5.0".to_string()));
    assert_eq!(installed_ml_version(&None, &vec![Some(b"nothing".to_vec()), None], true), Some("(unknown)".to_string()));
    assert_eq!(installed_ml_version(&None, &vec![None, None, None], false), None);
}

#[test]
fn zip_archive_unpacks_into_steps() {
    let mut w = zip::ZipWriter::new(std::io::Cursor::new(Vec::new()));
    let opts = zip::write::SimpleFileOptions::default();
    w.add_directory("MelonLoader/", opts).unwrap();
    w.start_file("MelonLoader/net6/MelonLoader.dll", opts).unwrap();
    w.write_all(b"dll bytes").unwrap();
    w.start_file("version.dll", opts).unwrap();
    w.write_all(b"proxy").unwrap();
    let bytes = w.finish().unwrap().into_inner();
    let steps = extraction_steps(&bytes).unwrap();
    let shown: Vec<String> = steps
        .iter()
        .map(|s| match s {
            ExtractStep::CreateDir { path } => format!("dir {}", path),
            ExtractStep::WriteFile { path, data } => format!("file {} {}", path, String::from_utf8_lossy(data)),
        })
        .collect();
    assert_eq!(shown, vec!["dir MelonLoader/", "file MelonLoader/net6/MelonLoader.dll dll bytes", "file version.dll proxy"]);
    assert!(extraction_steps(b"not a zip").is_none());
    let plan = extraction_plan(&vec![
        ZipEntry { name: "a/".to_string(), data: Vec::new() },
        ZipEntry { name: "a/b.txt".to_string(), data: b"x".to_vec() },
    ]);
    assert!(matches!(&plan[0], ExtractStep::CreateDir { path } if path == "a/"));
    assert!(matches!(&plan[1], ExtractStep::WriteFile { path, data } if path == "a/b.txt" && data == b"x"));
}
