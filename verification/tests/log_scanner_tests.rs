use cvr_melon_assistant::log_scanner::{
    entry_line, finding_heading, loaded_line, log_path, parse_log, report_summary_line, scan_status,
    severity_style, show_finding, Finding, Severity,
};

const LOG: &str = "[12:00:00.000] ------------------------------\r\n\
[12:00:00.001] MelonLoader v0.6.1 Open-Beta\r\n\
[12:00:00.002] OS: Windows 10\r\n\
[12:00:00.003] Game Arch: x64\r\n\
[12:00:00.004] Game Type: Il2Cpp\r\n\
[12:00:00.005] Game Name: ChilloutVR\r\n\
[12:00:00.006] Game Version: 2023r173\r\n\
[12:00:01.000] Loading Mods from 'C:\\Games\\ChilloutVR\\Mods'...\r\n\
[12:00:01.001] ------------------------------\r\n\
[12:00:01.002] 2 Mods loaded.\r\n\
[12:00:01.003] ------------------------------\r\n\
[12:00:01.004] BTKUILib v2.1.0\r\n\
[12:00:01.005] by BTK Development Team\r\n\
[12:00:01.006] SHA256 Hash: 'abc123'\r\n\
[12:00:01.007] ------------------------------\r\n\
[12:00:01.008] Menu v1.0.0\r\n\
[12:00:01.009] by Someone\r\n\
[12:00:01.010] ------------------------------\r\n\
[12:00:02.000] Some mods are missing dependencies, which you may have to install.\r\n\
[12:00:02.001] - 'ASTExtension' is missing the following dependencies:\r\n\
[12:00:02.002]     - 'BTKUILib'\r\n\
[12:00:02.003] - 'JoinMe' is missing the following dependencies:\r\n\
[12:00:02.004]     - 'BTKUILib'\r\n\
[12:00:02.005]     - 'ChatBox'\r\n\
[12:00:02.006] Loading done.\r\n\
[12:00:05.000] [CVRGoesBrrr] System.NullReferenceException: Object reference not set\r\n";

fn categories(fs: &[Finding]) -> Vec<String> {
    fs.iter().map(|f| f.category.clone()).collect()
}

#[test]
fn parses_meta_and_listing() {
    let r = parse_log(LOG, "/games/cvr/MelonLoader/Latest.log".to_string());
    assert_eq!(r.log_path, "/games/cvr/MelonLoader/Latest.log");
    assert_eq!(r.ml_version.as_deref(), Some("0.6.1"));
    assert_eq!(r.os_type.as_deref(), Some("Windows 10"));
    assert_eq!(r.arch.as_deref(), Some("x64"));
    assert!(r.is_il2cpp);
    assert!(!r.is_mono);
    assert_eq!(r.game_name.as_deref(), Some("ChilloutVR"));
    assert_eq!(r.game_version.as_deref(), Some("2023r173"));
    assert_eq!(r.line_count, 26);
    assert!(!r.truncated);
    assert_eq!(r.header_lines.len(), 25);
    assert_eq!(r.header_lines[1], "[12:00:00.001] MelonLoader v0.6.1 Open-Beta");
    assert_eq!(r.loaded_mods.len(), 2);
    assert_eq!(r.loaded_plugins.len(), 0);
    let m = &r.loaded_mods[0];
    assert_eq!(m.name, "BTKUILib");
    assert_eq!(m.version.as_deref(), Some("2.1.0"));
    assert_eq!(m.author.as_deref(), Some("BTK Development Team"));
    assert_eq!(m.hash.as_deref(), Some("abc123"));
    assert_eq!(m.assembly, None);
    assert_eq!(r.loaded_mods[1].name, "Menu");
    assert_eq!(r.loaded_mods[1].author.as_deref(), Some("Someone"));
}

#[test]
fn findings_in_report_order() {
    let r = parse_log(LOG, String::new());
    assert_eq!(
        categories(&r.findings),
        vec!["MelonLoader", "Game", "System", "Mods Loaded", "Missing Dependencies", "Mods Throwing Errors", "Summary"]
    );
    assert_eq!(r.findings[0].severity, Severity::Info);
    assert_eq!(r.findings[0].message, "Version: 0.6.1");
    assert_eq!(r.findings[1].message, "Game: ChilloutVR  v2023r173  [Il2Cpp]");
    assert_eq!(r.findings[2].message, "OS: Windows 10  Arch: x64");
    assert_eq!(r.findings[3].message, "2 mod(s)  \u{2022}  0 plugin(s)");
    assert_eq!(r.findings[4].severity, Severity::Error);
    assert_eq!(
        r.findings[4].message,
        "Install the following missing dependencies:\n\u{2022} BTKUILib \u{2014} needed by: ASTExtension, JoinMe\n\u{2022} ChatBox \u{2014} needed by: JoinMe"
    );
    assert_eq!(r.findings[5].severity, Severity::Warning);
    assert_eq!(r.findings[5].message, "These mods logged exceptions during this session:\n\u{2022} CVRGoesBrrr");
    assert_eq!(r.findings[6].severity, Severity::Error);
    assert_eq!(r.findings[6].message, "2 issue(s) found. Review the findings above.");
}

#[test]
fn empty_log_warns_about_missing_version() {
    let r = parse_log("", String::new());
    assert_eq!(r.line_count, 0);
    assert_eq!(r.findings.len(), 2);
    assert_eq!(r.findings[0].severity, Severity::Warning);
    assert_eq!(r.findings[0].category, "MelonLoader");
    assert_eq!(r.findings[1].message, "1 issue(s) found. Review the findings above.");
}

#[test]
fn clean_log_gets_all_clear() {
    let r = parse_log("[00:00:00.000] MelonLoader v0.6.4\n", String::new());
    assert_eq!(r.findings.len(), 2);
    assert_eq!(r.findings[1].severity, Severity::Okay);
    assert_eq!(r.findings[1].category, "Summary");
    assert_eq!(r.findings[1].message, "No issues detected. 0 mod(s)/plugin(s) loaded cleanly.");
}

#[test]
fn long_log_is_truncated() {
    let mut s = String::new();
    for _ in 0..20001 {
        s.push_str("x\n");
    }
    let r = parse_log(&s, String::new());
    assert_eq!(r.line_count, 20001);
    assert!(r.truncated);
    let t = r.findings.iter().find(|f| f.category == "Log Truncated").unwrap();
    assert_eq!(t.severity, Severity::Warning);
    assert_eq!(t.message, "Log exceeds 20,000 lines (20001 total). Some entries may not have been scanned.");
}

#[test]
fn duplicates_and_known_errors() {
    let log = "[12:00:03.000] [ERROR] Duplicate File: C:\\Games\\ChilloutVR\\Mods\\Menu.dll\n\
[12:00:03.001] [ERROR] Duplicate File: C:\\Games\\ChilloutVR\\Mods\\Menu.dll\n\
[12:00:03.002] System.BadImageFormatException: bad image\n\
authcookie_123\n";
    let r = parse_log(log, String::new());
    let d = r.findings.iter().find(|f| f.category == "Duplicate Mods").unwrap();
    assert_eq!(d.message, "Remove duplicate mod files:\n\u{2022} Menu");
    let known: Vec<&Finding> = r.findings.iter().filter(|f| f.category == "Known Error").collect();
    assert_eq!(known.len(), 2);
    assert_eq!(known[0].message, "An invalid or incompatible assembly is in your Mods or Plugins folder.");
    assert_eq!(
        known[1].message,
        "\u{26a0} COMPROMISED: Your MelonLoader installation is leaking sensitive credentials. Reinstall MelonLoader immediately."
    );
}

#[test]
fn incompatible_and_missing_assemblies() {
    let log = "[1] Some Melons are marked as incompatible with each other.\n\
[2] - 'OSC' is incompatible with the following Melons:\n\
[3]     - 'CVRParamLib'\n\
[4] Done\n\
[5] Could not load file or assembly 'ChatBox, Version=1.0.0.0, Culture=neutral'\n\
[6] Could not load file or assembly 'UnityEngine.UI, Version=0.0.0.0'\n\
[7] Failed to load all types in assembly OldMod, Version=1.0.0.0\n\
[8] Game::BasePath = C:\\Games\\Bob's CVR\n";
    let r = parse_log(log, String::new());
    let inc = r.findings.iter().find(|f| f.category == "Incompatible Mods").unwrap();
    assert_eq!(inc.severity, Severity::Error);
    assert_eq!(inc.message, "The following mods conflict and won't both load:\n\u{2022} 'OSC' is incompatible with 'CVRParamLib'");
    let miss = r.findings.iter().find(|f| f.category == "Missing Assemblies").unwrap();
    assert_eq!(miss.message, "Could not load:\n\u{2022} ChatBox");
    let tl = r.findings.iter().find(|f| f.category == "Assembly Load Failures").unwrap();
    assert!(tl.message.ends_with("\n\u{2022} OldMod"));
    assert_eq!(r.game_path.as_deref(), Some("C:\\Games\\Bob's CVR"));
    assert!(r
        .findings
        .iter()
        .any(|f| f.message == "Your game path contains a single-quote (') character which can break MelonLoader."));
}

#[test]
fn log_path_joins_melonloader_latest() {
    let p = log_path("/games/cvr");
    assert!(p == "/games/cvr/MelonLoader/Latest.log" || p == "/games/cvr\\MelonLoader\\Latest.log");
    let q = log_path("/games/cvr/");
    assert!(q == "/games/cvr/MelonLoader/Latest.log" || q == "/games/cvr/MelonLoader\\Latest.log");
}

#[test]
fn debug_view_lines() {
    let r = parse_log(LOG, String::new());
    assert_eq!(
        report_summary_line(&r).as_deref(),
        Some("MelonLoader v0.6.1  \u{2022}  ChilloutVR v2023r173  \u{2022}  Windows 10")
    );
    assert_eq!(loaded_line(&r).as_deref(), Some("Loaded: 2 mod(s)  \u{2022}  0 plugin(s)"));
    assert_eq!(entry_line(&r.loaded_mods[0], false), "BTKUILib  v2.1.0  by BTK Development Team");
    assert_eq!(entry_line(&r.loaded_mods[1], true), "[Plugin] Menu  v1.0.0  by Someone");
    assert!(!show_finding(&r.findings[0]));
    assert!(show_finding(&r.findings[3]));
    assert!(show_finding(&r.findings[4]));
    assert_eq!(severity_style(Severity::Error), ("debug-finding-error", "\u{274c}"));
    assert_eq!(finding_heading(&r.findings[5]), "\u{26a0} Mods Throwing Errors");
    assert_eq!(
        scan_status(&r),
        "Scan complete \u{2014} 26 line(s) read  \u{2022}  2 mod(s)  \u{2022}  0 plugin(s)  \u{2022}  3 issue(s) found"
    );
    let empty = parse_log("", String::new());
    assert_eq!(report_summary_line(&empty), None);
    assert_eq!(loaded_line(&empty), None);
}
