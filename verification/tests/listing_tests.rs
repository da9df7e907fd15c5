use cvr_melon_assistant::listing::{
    category_label_class, category_tag, entry_tag, in_category, mod_display_name, mod_row, plan_mod_list, row_visible, select_mods,
    toggle_collapsed, uninstall_detail, update_summary, ListItem, Selection,
};
use cvr_melon_assistant::models::{Mod, ModVersion};

fn version(name: &str, ver: Option<&str>, status: i32) -> ModVersion {
    ModVersion {
        _version: 1,
        name: name.to_string(),
        mod_version: ver.map(|s| s.to_string()),
        mod_type: None,
        author: Some("Author".to_string()),
        description: Some(format!("{} description", name)),
        download_link: None,
        source_link: None,
        hash: None,
        update_date: None,
        chillout_vr_version: None,
        loader_version: None,
        approval_status: status,
    }
}

fn mk(id: i64, category: &str, v: ModVersion, path: Option<&str>, installed: Option<&str>) -> Mod {
    Mod {
        _id: id,
        upload_date: None,
        category: Some(category.to_string()),
        aliases: Vec::new(),
        versions: vec![v],
        installed_file_path: path.map(|s| s.to_string()),
        installed_version: installed.map(|s| s.to_string()),
        installed_in_broken_dir: false,
        installed_in_retired_dir: false,
        flag: 0,
        is_unverified: false,
    }
}

#[test]
fn row_of_installed_current_mod() {
    let mut m = mk(5, "UI", version("Menu", Some("1.0.0"), 1), Some("/cvr/Mods/Menu.dll"), Some("1.0.0"));
    m.flag = 1;
    let r = mod_row(&m);
    assert_eq!(r.css_classes, vec!["mod-row", "mod-installed"]);
    assert!(r.checked);
    assert_eq!(r.flag, "\u{2605}");
    assert_eq!(r.name, "Menu");
    assert_eq!(r.description.as_deref(), Some("Menu description"));
    assert_eq!(r.author, "Author");
    assert_eq!(r.latest, "1.0.0");
    assert_eq!(r.installed, "1.0.0");
    assert!(r.installed_class);
    assert_eq!(r.status, "\u{2713} OK");
    assert_eq!(r.status_class.as_deref(), Some("badge-ok"));
    assert_eq!(r.search_name, "mod:__pending__|menu menu description ui");
}

#[test]
fn row_badges() {
    let upd = mk(1, "UI", version("Menu", Some("1.1.0"), 1), Some("/cvr/Mods/Menu.dll"), Some("1.0.0"));
    let r = mod_row(&upd);
    assert_eq!(r.status, "\u{2b06} UPDATE");
    assert_eq!(r.status_class.as_deref(), Some("badge-update"));
    assert_eq!(r.css_classes, vec!["mod-row", "mod-has-update", "mod-installed"]);

    let mut broken_v = version("Old", None, 2);
    broken_v.author = None;
    let broken = mk(2, "UI", broken_v, None, None);
    let r = mod_row(&broken);
    assert_eq!(r.status, "\u{26a0} BROKEN");
    assert_eq!(r.status_class.as_deref(), Some("badge-broken"));
    assert_eq!(r.css_classes, vec!["mod-row", "broken-retired-row"]);
    assert_eq!(r.author, "\u{2014}");
    assert_eq!(r.latest, "?");
    assert_eq!(r.installed, "\u{2014}");
    assert!(!r.checked);

    let q = mk(3, "UI", version("Q", None, 2), Some("/cvr/Mods/~Broken/Q.dll"), None);
    assert_eq!(mod_row(&q).status, "\u{26a0} BROKEN DIR");
    let inst_retired = mk(4, "UI", version("R", None, 3), Some("/cvr/Mods/R.dll"), None);
    let r = mod_row(&inst_retired);
    assert_eq!(r.status, "\u{2192} RETIRE");
    assert_eq!(r.status_class.as_deref(), Some("badge-quarantine"));

    let mut empty = mk(6, "UI", version("E", None, 1), None, None);
    empty.versions.clear();
    let r = mod_row(&empty);
    assert_eq!(r.name, "?");
    assert_eq!(r.status, "");
    assert_eq!(r.status_class, None);
}

fn describe(items: &[ListItem]) -> Vec<String> {
    items
        .iter()
        .map(|i| match i {
            ListItem::Category { name, collapsed } => format!("cat {} {}", name, collapsed),
            ListItem::Entry { unverified, index, category, hidden } => {
                format!("row {} {} {} {}", unverified, index, category, hidden)
            }
        })
        .collect()
}

#[test]
fn list_layout_and_counts() {
    let mods = vec![
        mk(1, "UI", version("A", Some("1.0"), 1), None, None),
        mk(2, "UI", version("B", Some("1.0"), 1), None, None),
        mk(3, "Tools", version("C", Some("1.0"), 2), None, None),
        mk(4, "Tools", version("D", Some("1.0"), 1), Some("/cvr/Mods/~Broken/D.dll"), None),
    ];
    let mut u1 = mk(0, "__unverified__", version("U1", None, 0), Some("/cvr/Mods/U1.dll"), None);
    u1.is_unverified = true;
    let mut u2 = mk(0, "__unverified__", version("U2", None, 0), Some("/cvr/Mods/~Retired/U2.dll"), None);
    u2.is_unverified = true;
    let unverified = vec![u1, u2];
    let plan = plan_mod_list(&mods, &unverified, true, false, &Vec::new());
    assert_eq!(
        describe(&plan.items),
        vec![
            "cat UI false",
            "row false 0 UI false",
            "row false 1 UI false",
            "cat Broken / Retired false",
            "row false 2 Broken / Retired false",
            "cat User Installed \u{2014} NOT VERIFIED BY CVRMG STAFF false",
            "row true 0 User Installed \u{2014} NOT VERIFIED BY CVRMG STAFF false",
        ]
    );
    assert_eq!(plan.total, 4);
    assert_eq!(plan.installed_count, 2);
    assert_eq!(plan.updates, 0);
    assert_eq!(plan.count_label, "4 mods  \u{2022}  2 installed  \u{2022}  0 update(s) available");

    let collapsed = vec!["UI".to_string()];
    let plan = plan_mod_list(&mods, &unverified, false, true, &collapsed);
    assert_eq!(
        describe(&plan.items),
        vec![
            "cat UI true",
            "row false 0 UI true",
            "row false 1 UI true",
            "cat Tools false",
            "row false 2 Tools false",
            "row false 3 Tools false",
            "cat Quarantined (Not in CVRMG) false",
            "row true 1 Quarantined (Not in CVRMG) false",
            "cat User Installed \u{2014} NOT VERIFIED BY CVRMG STAFF false",
            "row true 0 User Installed \u{2014} NOT VERIFIED BY CVRMG STAFF false",
        ]
    );
    assert_eq!(plan.installed_count, 3);
}

#[test]
fn tags_and_search() {
    assert_eq!(category_tag("Broken / Retired"), "cat:broken / retired");
    assert_eq!(entry_tag("mod:__pending__|menu x", "Broken / Retired"), "mod:broken / retired|menu x");
    assert!(in_category("mod:ui|abc", "UI"));
    assert!(in_category("mod:ui", "UI"));
    assert!(!in_category("mod:uix|abc", "UI"));
    let none: Vec<String> = Vec::new();
    let ui = vec!["ui".to_string()];
    assert!(row_visible("cat:ui", "zzz", &none));
    assert!(row_visible("mod:ui|menu menu description ui", "", &none));
    assert!(!row_visible("mod:ui|menu menu description ui", "", &ui));
    assert!(row_visible("mod:ui|menu menu description ui", "MENU", &ui));
    assert!(!row_visible("mod:ui|menu menu description ui", "zzz", &none));
    assert!(row_visible("xyz", "", &none));
    assert!(row_visible("xyz", "Y", &none));
    assert!(!row_visible("xyz", "q", &none));
}

#[test]
fn collapse_toggles() {
    let mut c: Vec<String> = Vec::new();
    assert!(toggle_collapsed(&mut c, "UI"));
    assert_eq!(c, vec!["UI"]);
    assert!(!toggle_collapsed(&mut c, "UI"));
    assert!(c.is_empty());
}

#[test]
fn selections() {
    let mut a = mk(1, "UI", version("A", Some("2.0"), 1), Some("/m/A.dll"), Some("1.0"));
    a.is_unverified = false;
    let b = mk(2, "UI", version("B", Some("2.0"), 2), Some("/m/B.dll"), Some("1.0"));
    let mut u = mk(3, "UI", version("U", None, 0), Some("/m/U.dll"), None);
    u.is_unverified = true;
    let c = mk(4, "UI", version("C", None, 1), None, None);
    let mods = vec![a, b, u, c];
    assert_eq!(select_mods(&mods, &[1, 3, 4], Selection::Install), vec![0, 3]);
    assert_eq!(select_mods(&mods, &[], Selection::Update), vec![0]);
    assert_eq!(select_mods(&mods, &[2, 3, 4], Selection::Uninstall), vec![1, 2]);
    assert_eq!(mod_display_name(&mods[1]), "B");
}

#[test]
fn dialog_messages() {
    assert_eq!(
        update_summary(2, 1, &vec!["Old".to_string()], &Vec::new()),
        "2 mod(s) updated, 1 failed.\n\n\u{26a0} 1 mod(s) moved to Mods/Broken/ (marked broken by CVRMG):\n  \u{2022} Old\n"
    );
    assert_eq!(update_summary(0, 0, &Vec::new(), &Vec::new()), "All installed mods are already up to date!");
    assert_eq!(
        update_summary(0, 0, &Vec::new(), &vec!["R".to_string()]),
        "\n\u{1f4e6} 1 mod(s) moved to Mods/Retired/ (retired by CVRMG):\n  \u{2022} R\n"
    );
    assert_eq!(uninstall_detail(&Vec::new()), "This will permanently delete the selected mod files.");
    assert_eq!(
        uninstall_detail(&vec!["A".to_string(), "B".to_string()]),
        "This will permanently delete 2 mod file(s):\n\n  \u{2022} A\n  \u{2022} B\n\nThis cannot be undone."
    );
}

#[test]
fn category_label_classes() {
    assert_eq!(category_label_class("User Installed \u{2014} NOT VERIFIED BY CVRMG STAFF"), "category-label-unverified");
    assert_eq!(category_label_class("Broken / Retired"), "category-label-broken-retired");
    assert_eq!(category_label_class("Quarantined (Not in CVRMG)"), "category-label-broken-retired");
    assert_eq!(category_label_class("UI"), "category-label");
}

#[test]
fn quarantine_folders_are_tilde_named() {
    let mods = vec![
        mk(1, "UI", version("A", Some("1.0"), 1), Some("/g/Mods/~Broken/A.dll"), Some("1.0")),
        mk(2, "UI", version("B", Some("1.0"), 1), Some("/g/Mods/~Retired/B.dll"), Some("1.0")),
        mk(3, "UI", version("C", Some("1.0"), 1), Some("/g/Mods/Broken/C.dll"), Some("1.0")),
    ];
    assert_eq!(mod_row(&mods[0]).status, "\u{26a0} BROKEN DIR");
    assert_eq!(mod_row(&mods[1]).status, "\u{1f4e6} RETIRED DIR");
    assert_eq!(mod_row(&mods[2]).status, "\u{2713} OK");
    let plan = plan_mod_list(&mods, &Vec::new(), false, false, &Vec::new());
    assert_eq!(describe(&plan.items), vec!["cat UI false", "row false 2 UI false"]);
    assert_eq!(plan.installed_count, 1);
}
