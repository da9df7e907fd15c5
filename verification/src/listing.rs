//! What the mod list shows: one row per mod with its badges and texts, the
//! grouping into categories, the counts line, and collapsing of categories.

use vstd::prelude::*;
use crate::install::{latest_version, mod_has_update, spec_mod_has_update};
use crate::log_scanner::opt_str;
use crate::models::{spec_display_category, Mod};
use crate::text::{chars_contain, chars_of, contains_seq, find_seq_from, lemma_find_seq_from, str_eq, string_from_chars, to_lowercase, unicode_lowercase};

verus! {

/// The mod's installed path in lowercase (empty when not installed).
pub open spec fn lower_path(m: Mod) -> Seq<char> {
    match m.installed_file_path {
        Some(p) => unicode_lowercase(p@),
        None => Seq::empty(),
    }
}

/// The latest version is marked broken.
pub open spec fn latest_broken(m: Mod) -> bool {
    latest_version(m) matches Some(v) && v.approval_status == 2
}

/// The latest version is marked retired.
pub open spec fn latest_retired(m: Mod) -> bool {
    latest_version(m) matches Some(v) && v.approval_status == 3
}

/// An installed mod with a newer version available.
pub open spec fn row_has_update(m: Mod) -> bool {
    m.installed_file_path is Some && spec_mod_has_update(m)
}

/// The status badge text and its style class.
pub open spec fn row_status(m: Mod) -> (Seq<char>, Option<Seq<char>>) {
    let installed = m.installed_file_path is Some;
    let lp = lower_path(m);
    if contains_seq(lp, "/~broken/"@) {
        ("\u{26a0} BROKEN DIR"@, Some("badge-broken"@))
    } else if contains_seq(lp, "/~retired/"@) {
        ("\u{1f4e6} RETIRED DIR"@, Some("badge-retired"@))
    } else if installed && latest_broken(m) {
        ("\u{2192} QUARANTINE"@, Some("badge-quarantine"@))
    } else if installed && latest_retired(m) {
        ("\u{2192} RETIRE"@, Some("badge-quarantine"@))
    } else if row_has_update(m) {
        ("\u{2b06} UPDATE"@, Some("badge-update"@))
    } else if installed {
        ("\u{2713} OK"@, Some("badge-ok"@))
    } else if latest_broken(m) {
        ("\u{26a0} BROKEN"@, Some("badge-broken"@))
    } else if latest_retired(m) {
        ("\u{25cf} RETIRED"@, Some("badge-retired"@))
    } else {
        (Seq::empty(), None)
    }
}

/// The style classes of a mod's row, in the order they are added.
pub open spec fn row_classes(m: Mod) -> Seq<Seq<char>> {
    let c1 = seq!["mod-row"@];
    let c2 = if row_has_update(m) {
        c1.push("mod-has-update"@)
    } else {
        c1
    };
    let c3 = if m.installed_file_path is Some {
        c2.push("mod-installed"@)
    } else {
        c2
    };
    let c4 = if m.is_unverified {
        c3.push("unverified-row"@)
    } else {
        c3
    };
    if latest_broken(m) || latest_retired(m) {
        c4.push("broken-retired-row"@)
    } else {
        c4
    }
}

/// A text, or `fallback` when there is none.
pub open spec fn or_text(o: Option<String>, fallback: Seq<char>) -> Seq<char> {
    match o {
        Some(s) => s@,
        None => fallback,
    }
}

/// The latest version's description, when it is not empty.
pub open spec fn row_description(m: Mod) -> Option<Seq<char>> {
    match latest_version(m) {
        Some(v) => match v.description {
            Some(d) => if d@.len() > 0 {
                Some(d@)
            } else {
                None
            },
            None => None,
        },
        None => None,
    }
}

/// The searchable tag of a row before its category is known.
pub open spec fn row_search_name(m: Mod) -> Seq<char> {
    let (name, desc) = match latest_version(m) {
        Some(v) => (v.name@, or_text(v.description, Seq::empty())),
        None => (Seq::<char>::empty(), Seq::<char>::empty()),
    };
    unicode_lowercase("mod:__pending__|"@ + name + " "@ + desc + " "@ + spec_display_category(m.category))
}

/// What one mod's row shows.
pub struct ModRow {
    pub css_classes: Vec<String>,
    pub checked: bool,
    pub flag: String,
    pub name: String,
    pub description: Option<String>,
    pub author: String,
    pub latest: String,
    pub installed: String,
    pub installed_class: bool,
    pub status: String,
    pub status_class: Option<String>,
    pub search_name: String,
}

/// `r` is the row shown for `m`.
pub open spec fn is_row_of(r: ModRow, m: Mod) -> bool {
    let lv = latest_version(m);
    &&& crate::melon_dll::strings_view(r.css_classes@) == row_classes(m)
    &&& r.checked == m.installed_file_path is Some
    &&& r.flag@ == crate::api::spec_flag_symbol(m.flag)
    &&& r.name@ == (match lv {
        Some(v) => v.name@,
        None => "?"@,
    })
    &&& opt_str(r.description) == row_description(m)
    &&& r.author@ == (match lv {
        Some(v) => or_text(v.author, "\u{2014}"@),
        None => "\u{2014}"@,
    })
    &&& r.latest@ == (match lv {
        Some(v) => or_text(v.mod_version, "?"@),
        None => "?"@,
    })
    &&& r.installed@ == or_text(m.installed_version, "\u{2014}"@)
    &&& r.installed_class == m.installed_file_path is Some
    &&& (r.status@, opt_str(r.status_class)) == row_status(m)
    &&& r.search_name@ == row_search_name(m)
}

fn lit_string(s: &str) -> (r: String)
    ensures
        r@ == s@,
{
    let c = chars_of(s);
    string_from_chars(c.as_slice())
}

fn copy_str(s: &String) -> (r: String)
    ensures
        r@ == s@,
{
    lit_string(s.as_str())
}

fn or_string(o: &Option<String>, fallback: &str) -> (r: String)
    ensures
        r@ == or_text(*o, fallback@),
{
    match o {
        Some(s) => copy_str(s),
        None => lit_string(fallback),
    }
}

fn push_string(v: &mut Vec<String>, s: String)
    ensures
        crate::melon_dll::strings_view(final(v)@) == crate::melon_dll::strings_view(old(v)@).push(s@),
{
    v.push(s);
    assert(crate::melon_dll::strings_view(v@) =~= crate::melon_dll::strings_view(old(v)@).push(s@));
}

fn lower_path_of(m: &Mod) -> (r: Vec<char>)
    ensures
        r@ == lower_path(*m),
{
    match &m.installed_file_path {
        Some(p) => {
            let l = to_lowercase(p.as_str());
            chars_of(l.as_str())
        },
        None => Vec::new(),
    }
}

fn contains_text(s: &[char], lit: &str) -> (r: bool)
    ensures
        r == contains_seq(s@, lit@),
{
    let p = chars_of(lit);
    chars_contain(s, p.as_slice())
}

fn status_of(m: &Mod) -> (r: (String, Option<String>))
    ensures
        (r.0@, opt_str(r.1)) == row_status(*m),
{
    let installed = m.installed_file_path.is_some();
    let lp = lower_path_of(m);
    let broken = m.versions.len() > 0 && m.versions[0].approval_status == 2;
    let retired = m.versions.len() > 0 && m.versions[0].approval_status == 3;
    let (s, c) = if contains_text(lp.as_slice(), "/~broken/") {
        ("\u{26a0} BROKEN DIR", "badge-broken")
    } else if contains_text(lp.as_slice(), "/~retired/") {
        ("\u{1f4e6} RETIRED DIR", "badge-retired")
    } else if installed && broken {
        ("\u{2192} QUARANTINE", "badge-quarantine")
    } else if installed && retired {
        ("\u{2192} RETIRE", "badge-quarantine")
    } else if installed && mod_has_update(m) {
        ("\u{2b06} UPDATE", "badge-update")
    } else if installed {
        ("\u{2713} OK", "badge-ok")
    } else if broken {
        ("\u{26a0} BROKEN", "badge-broken")
    } else if retired {
        ("\u{25cf} RETIRED", "badge-retired")
    } else {
        let e = string_from_chars(&[]);
        assert(e@ =~= Seq::<char>::empty());
        return (e, None);
    };
    (lit_string(s), Some(lit_string(c)))
}

/// The row shown for mod `m`: its style classes, checkbox, flag, texts and
/// status badge, and the tag used to search and group it.
pub fn mod_row(m: &Mod) -> (r: ModRow)
    ensures
        is_row_of(r, *m),
{
    let installed = m.installed_file_path.is_some();
    let has_update = installed && mod_has_update(m);
    let broken_or_retired = m.versions.len() > 0 && (m.versions[0].approval_status == 2
        || m.versions[0].approval_status == 3);
    let mut classes: Vec<String> = Vec::new();
    push_string(&mut classes, lit_string("mod-row"));
    if has_update {
        push_string(&mut classes, lit_string("mod-has-update"));
    }
    if installed {
        push_string(&mut classes, lit_string("mod-installed"));
    }
    if m.is_unverified {
        push_string(&mut classes, lit_string("unverified-row"));
    }
    if broken_or_retired {
        push_string(&mut classes, lit_string("broken-retired-row"));
    }
    assert(crate::melon_dll::strings_view(classes@) =~= row_classes(*m));
    let (name, description, author, latest, search_src_name, search_desc) = if m.versions.len() > 0 {
        let v = &m.versions[0];
        let desc = match &v.description {
            Some(d) => {
                let dc = chars_of(d.as_str());
                if dc.len() > 0 {
                    Some(copy_str(d))
                } else {
                    None
                }
            },
            None => None,
        };
        (
            copy_str(&v.name),
            desc,
            or_string(&v.author, "\u{2014}"),
            or_string(&v.mod_version, "?"),
            copy_str(&v.name),
            or_string(&v.description, ""),
        )
    } else {
        (lit_string("?"), None, lit_string("\u{2014}"), lit_string("?"), lit_string(""), lit_string(""))
    };
    proof {
        reveal_strlit("");
    }
    let mut tag = chars_of("mod:__pending__|");
    let c1 = chars_of(search_src_name.as_str());
    crate::log_scanner::append_chars(&mut tag, c1.as_slice());
    let sp = chars_of(" ");
    crate::log_scanner::append_chars(&mut tag, sp.as_slice());
    let c2 = chars_of(search_desc.as_str());
    crate::log_scanner::append_chars(&mut tag, c2.as_slice());
    crate::log_scanner::append_chars(&mut tag, sp.as_slice());
    let cat = m.display_category();
    let c3 = chars_of(cat.as_str());
    crate::log_scanner::append_chars(&mut tag, c3.as_slice());
    let tag_s = string_from_chars(tag.as_slice());
    let search_name = to_lowercase(tag_s.as_str());
    let (status, status_class) = status_of(m);
    ModRow {
        css_classes: classes,
        checked: installed,
        flag: lit_string(crate::api::flag_symbol(m.flag)),
        name,
        description,
        author,
        latest,
        installed: or_string(&m.installed_version, "\u{2014}"),
        installed_class: installed,
        status,
        status_class,
        search_name,
    }
}


/// An installed file that lies in a `~Broken` or `~Retired` folder.
pub open spec fn is_quarantined(m: Mod) -> bool {
    m.installed_file_path is Some && (contains_seq(lower_path(m), "/~broken/"@) || contains_seq(lower_path(m), "/~retired/"@))
}

/// One line of the mod list: a category header or a mod's row.
pub enum ListItem {
    Category { name: String, collapsed: bool },
    Entry { unverified: bool, index: usize, category: String, hidden: bool },
}

/// A line of the mod list as plain values.
pub enum ItemView {
    Category(Seq<char>, bool),
    Entry(bool, int, Seq<char>, bool),
}

impl ListItem {
    pub open spec fn view(&self) -> ItemView {
        match self {
            ListItem::Category { name, collapsed } => ItemView::Category(name@, *collapsed),
            ListItem::Entry { unverified, index, category, hidden } => ItemView::Entry(
                *unverified,
                *index as int,
                category@,
                *hidden,
            ),
        }
    }
}

pub open spec fn items_view(v: Seq<ListItem>) -> Seq<ItemView> {
    v.map_values(|i: ListItem| i@)
}

/// The catalogue mods listed under their own categories (the current
/// category, and the lines so far, after the first `n` mods). A header
/// starts each run of mods with the same category.
pub open spec fn normal_part(mods: Seq<Mod>, group: bool, show_q: bool, collapsed: Seq<Seq<char>>, n: int) -> (Seq<char>, Seq<ItemView>)
    decreases n,
{
    if n <= 0 {
        (Seq::empty(), Seq::empty())
    } else {
        let (cur, items) = normal_part(mods, group, show_q, collapsed, n - 1);
        let m = mods[n - 1];
        if (group && (latest_broken(m) || latest_retired(m))) || (!show_q && is_quarantined(m)) {
            (cur, items)
        } else {
            let cat = spec_display_category(m.category);
            let (cur2, items2) = if cat != cur {
                (cat, items.push(ItemView::Category(cat, collapsed.contains(cat))))
            } else {
                (cur, items)
            };
            (cur2, items2.push(ItemView::Entry(false, n - 1, cur2, collapsed.contains(cur2))))
        }
    }
}

/// Which mods a trailing group lists.
pub enum Pick {
    BrokenRetired,
    Quarantined,
    Active,
}

pub open spec fn picked(p: Pick, show_q: bool, m: Mod) -> bool {
    match p {
        Pick::BrokenRetired => (latest_broken(m) || latest_retired(m)) && (show_q || !is_quarantined(m)),
        Pick::Quarantined => is_quarantined(m),
        Pick::Active => !is_quarantined(m),
    }
}

/// The rows of a trailing group, for the first `n` mods.
pub open spec fn group_rows(ms: Seq<Mod>, p: Pick, show_q: bool, unverified: bool, cat: Seq<char>, hidden: bool, n: int) -> Seq<ItemView>
    decreases n,
{
    if n <= 0 {
        Seq::empty()
    } else {
        let r = group_rows(ms, p, show_q, unverified, cat, hidden, n - 1);
        if picked(p, show_q, ms[n - 1]) {
            r.push(ItemView::Entry(unverified, n - 1, cat, hidden))
        } else {
            r
        }
    }
}

/// A header and its rows.
pub open spec fn group(ms: Seq<Mod>, p: Pick, show_q: bool, unverified: bool, cat: Seq<char>, collapsed: Seq<Seq<char>>) -> Seq<ItemView> {
    seq![ItemView::Category(cat, collapsed.contains(cat))] + group_rows(
        ms,
        p,
        show_q,
        unverified,
        cat,
        collapsed.contains(cat),
        ms.len() as int,
    )
}

pub open spec fn broken_retired_title() -> Seq<char> {
    "Broken / Retired"@
}

pub open spec fn quarantined_title() -> Seq<char> {
    "Quarantined (Not in CVRMG)"@
}

pub open spec fn unverified_title() -> Seq<char> {
    "User Installed \u{2014} NOT VERIFIED BY CVRMG STAFF"@
}

/// All lines of the mod list: catalogue mods by category, then (when
/// grouped) the broken and retired ones, then the quarantined unlisted files
/// (when shown), then the other unlisted files.
pub open spec fn list_items(mods: Seq<Mod>, unverified: Seq<Mod>, group_br: bool, show_q: bool, collapsed: Seq<Seq<char>>) -> Seq<ItemView> {
    let normal = normal_part(mods, group_br, show_q, collapsed, mods.len() as int).1;
    let br = if group_br && exists|i: int| 0 <= i < mods.len() && (latest_broken(mods[i]) || latest_retired(mods[i])) {
        group(mods, Pick::BrokenRetired, show_q, false, broken_retired_title(), collapsed)
    } else {
        Seq::empty()
    };
    let qrows = group_rows(unverified, Pick::Quarantined, show_q, true, quarantined_title(), collapsed.contains(quarantined_title()), unverified.len() as int);
    let q = if show_q && qrows.len() > 0 {
        group(unverified, Pick::Quarantined, show_q, true, quarantined_title(), collapsed)
    } else {
        Seq::empty()
    };
    let arows = group_rows(unverified, Pick::Active, show_q, true, unverified_title(), collapsed.contains(unverified_title()), unverified.len() as int);
    let a = if arows.len() > 0 {
        group(unverified, Pick::Active, show_q, true, unverified_title(), collapsed)
    } else {
        Seq::empty()
    };
    normal + br + q + a
}

/// Installed mods with an update, among the first `n`.
pub open spec fn count_updates(ms: Seq<Mod>, n: int) -> nat
    decreases n,
{
    if n <= 0 {
        0
    } else {
        count_updates(ms, n - 1) + if row_has_update(ms[n - 1]) {
            1nat
        } else {
            0nat
        }
    }
}

/// Installed mods that are shown, among the first `n`.
pub open spec fn count_installed(ms: Seq<Mod>, show_q: bool, n: int) -> nat
    decreases n,
{
    if n <= 0 {
        0
    } else {
        count_installed(ms, show_q, n - 1) + if ms[n - 1].installed_file_path is Some && (show_q || !is_quarantined(
            ms[n - 1],
        )) {
            1nat
        } else {
            0nat
        }
    }
}

/// The mod list, its counts and the line that states them.
pub struct ListPlan {
    pub items: Vec<ListItem>,
    pub total: usize,
    pub installed_count: usize,
    pub updates: usize,
    pub count_label: String,
}

fn quarantined(m: &Mod) -> (r: bool)
    ensures
        r == is_quarantined(*m),
{
    if m.installed_file_path.is_none() {
        return false;
    }
    let lp = lower_path_of(m);
    contains_text(lp.as_slice(), "/~broken/") || contains_text(lp.as_slice(), "/~retired/")
}

fn broken_or_retired(m: &Mod) -> (r: bool)
    ensures
        r == (latest_broken(*m) || latest_retired(*m)),
{
    m.versions.len() > 0 && (m.versions[0].approval_status == 2 || m.versions[0].approval_status == 3)
}

fn pick_mod(p: &Pick, show_q: bool, m: &Mod) -> (r: bool)
    ensures
        r == picked(*p, show_q, *m),
{
    match p {
        Pick::BrokenRetired => broken_or_retired(m) && (show_q || !quarantined(m)),
        Pick::Quarantined => quarantined(m),
        Pick::Active => !quarantined(m),
    }
}

fn push_item(items: &mut Vec<ListItem>, it: ListItem)
    ensures
        items_view(final(items)@) == items_view(old(items)@).push(it@),
{
    items.push(it);
    assert(items_view(items@) =~= items_view(old(items)@).push(it@));
}

fn rows_of(ms: &[Mod], p: Pick, show_q: bool, unverified: bool, cat: &str, hidden: bool) -> (r: Vec<ListItem>)
    ensures
        items_view(r@) == group_rows(ms@, p, show_q, unverified, cat@, hidden, ms@.len() as int),
{
    let mut out: Vec<ListItem> = Vec::new();
    let mut i: usize = 0;
    while i < ms.len()
        invariant
            i <= ms@.len(),
            items_view(out@) == group_rows(ms@, p, show_q, unverified, cat@, hidden, i as int),
        decreases ms.len() - i,
    {
        if pick_mod(&p, show_q, &ms[i]) {
            push_item(&mut out, ListItem::Entry { unverified, index: i, category: lit_string(cat), hidden });
        }
        i = i + 1;
    }
    out
}

fn append_items(items: &mut Vec<ListItem>, more: Vec<ListItem>)
    ensures
        items_view(final(items)@) == items_view(old(items)@) + items_view(more@),
{
    let mut more = more;
    let ghost m0 = items_view(more@);
    items.append(&mut more);
    assert(items_view(items@) =~= items_view(old(items)@) + m0);
}

fn push_group(items: &mut Vec<ListItem>, ms: &[Mod], p: Pick, show_q: bool, unverified: bool, cat: &str, collapsed: &Vec<String>)
    ensures
        items_view(final(items)@) == items_view(old(items)@) + group(ms@, p, show_q, unverified, cat@, crate::melon_dll::strings_view(collapsed@)),
{
    let c = crate::matching::has_string(collapsed, cat);
    push_item(items, ListItem::Category { name: lit_string(cat), collapsed: c });
    let rows = rows_of(ms, p, show_q, unverified, cat, c);
    let ghost mid = items_view(items@);
    append_items(items, rows);
    assert(items_view(items@) =~= items_view(old(items)@) + group(ms@, p, show_q, unverified, cat@, crate::melon_dll::strings_view(collapsed@)));
}

fn normal_items(mods: &[Mod], group_br: bool, show_q: bool, collapsed: &Vec<String>) -> (r: Vec<ListItem>)
    ensures
        items_view(r@) == normal_part(mods@, group_br, show_q, crate::melon_dll::strings_view(collapsed@), mods@.len() as int).1,
{
    let ghost cv = crate::melon_dll::strings_view(collapsed@);
    let mut items: Vec<ListItem> = Vec::new();
    let mut current = string_from_chars(&[]);
    assert(current@ =~= Seq::<char>::empty());
    let mut i: usize = 0;
    while i < mods.len()
        invariant
            i <= mods@.len(),
            cv == crate::melon_dll::strings_view(collapsed@),
            (current@, items_view(items@)) == normal_part(mods@, group_br, show_q, cv, i as int),
        decreases mods.len() - i,
    {
        let m = &mods[i];
        let skip = (group_br && broken_or_retired(m)) || (!show_q && quarantined(m));
        if !skip {
            let cat = m.display_category();
            if !str_eq(cat.as_str(), current.as_str()) {
                let c = crate::matching::has_string(collapsed, cat.as_str());
                push_item(&mut items, ListItem::Category { name: copy_str(&cat), collapsed: c });
                current = cat;
            }
            let h = crate::matching::has_string(collapsed, current.as_str());
            push_item(&mut items, ListItem::Entry { unverified: false, index: i, category: copy_str(&current), hidden: h });
        }
        i = i + 1;
    }
    items
}

fn updates_count(ms: &[Mod]) -> (n: usize)
    ensures
        n == count_updates(ms@, ms@.len() as int),
        n <= ms@.len(),
{
    let mut n: usize = 0;
    let mut i: usize = 0;
    while i < ms.len()
        invariant
            i <= ms@.len(),
            n <= i,
            n == count_updates(ms@, i as int),
        decreases ms.len() - i,
    {
        if ms[i].installed_file_path.is_some() && mod_has_update(&ms[i]) {
            n = n + 1;
        }
        i = i + 1;
    }
    n
}

fn installed_count_of(ms: &[Mod], show_q: bool) -> (n: usize)
    ensures
        n == count_installed(ms@, show_q, ms@.len() as int),
        n <= ms@.len(),
{
    let mut n: usize = 0;
    let mut i: usize = 0;
    while i < ms.len()
        invariant
            i <= ms@.len(),
            n <= i,
            n == count_installed(ms@, show_q, i as int),
        decreases ms.len() - i,
    {
        if ms[i].installed_file_path.is_some() && (show_q || !quarantined(&ms[i])) {
            n = n + 1;
        }
        i = i + 1;
    }
    n
}

/// The text of the counts line.
pub open spec fn count_text(total: nat, installed: nat, updates: nat) -> Seq<char> {
    crate::text::decimal(total) + " mods  \u{2022}  "@ + crate::text::decimal(installed) + " installed  \u{2022}  "@
        + crate::text::decimal(updates) + " update(s) available"@
}

/// Lays out the mod list: the catalogue mods by category (the broken and
/// retired ones in a group of their own when `group_broken_retired`), files
/// in quarantine folders hidden unless `show_quarantined`, then the unlisted
/// files; rows of collapsed categories are hidden. Also counts the mods, the
/// installed ones shown (plus every unlisted file) and the updates.
pub fn plan_mod_list(
    mods: &[Mod],
    unverified: &[Mod],
    group_broken_retired: bool,
    show_quarantined: bool,
    collapsed: &Vec<String>,
) -> (r: ListPlan)
    requires
        mods@.len() + unverified@.len() <= usize::MAX,
    ensures
        items_view(r.items@) == list_items(
            mods@,
            unverified@,
            group_broken_retired,
            show_quarantined,
            crate::melon_dll::strings_view(collapsed@),
        ),
        r.total == mods@.len(),
        r.installed_count == count_installed(mods@, show_quarantined, mods@.len() as int) + unverified@.len(),
        r.updates == count_updates(mods@, mods@.len() as int),
        r.count_label@ == count_text(r.total as nat, r.installed_count as nat, r.updates as nat),
{
    let ghost cv = crate::melon_dll::strings_view(collapsed@);
    let mut items = normal_items(mods, group_broken_retired, show_quarantined, collapsed);
    let ghost after_normal = items_view(items@);
    let mut any_br = false;
    let mut i: usize = 0;
    while i < mods.len()
        invariant
            i <= mods@.len(),
            any_br == exists|k: int| 0 <= k < i && (latest_broken(mods@[k]) || latest_retired(mods@[k])),
        decreases mods.len() - i,
    {
        if broken_or_retired(&mods[i]) {
            any_br = true;
        }
        i = i + 1;
    }
    if group_broken_retired && any_br {
        push_group(&mut items, mods, Pick::BrokenRetired, show_quarantined, false, "Broken / Retired", collapsed);
    }
    let ghost after_br = items_view(items@);
    let qc = crate::matching::has_string(collapsed, "Quarantined (Not in CVRMG)");
    let qrows = rows_of(unverified, Pick::Quarantined, show_quarantined, true, "Quarantined (Not in CVRMG)", qc);
    if show_quarantined && qrows.len() > 0 {
        push_group(&mut items, unverified, Pick::Quarantined, show_quarantined, true, "Quarantined (Not in CVRMG)", collapsed);
    }
    let ghost after_q = items_view(items@);
    let ac = crate::matching::has_string(collapsed, "User Installed \u{2014} NOT VERIFIED BY CVRMG STAFF");
    let arows = rows_of(unverified, Pick::Active, show_quarantined, true, "User Installed \u{2014} NOT VERIFIED BY CVRMG STAFF", ac);
    if arows.len() > 0 {
        push_group(
            &mut items,
            unverified,
            Pick::Active,
            show_quarantined,
            true,
            "User Installed \u{2014} NOT VERIFIED BY CVRMG STAFF",
            collapsed,
        );
    }
    assert(items_view(items@) =~= list_items(mods@, unverified@, group_broken_retired, show_quarantined, cv));
    let total = mods.len();
    let installed_count = installed_count_of(mods, show_quarantined) + unverified.len();
    let updates = updates_count(mods);
    let mut label = crate::text::decimal_chars(total as u64);
    let mut t1 = chars_of(" mods  \u{2022}  ");
    label.append(&mut t1);
    let mut d2 = crate::text::decimal_chars(installed_count as u64);
    label.append(&mut d2);
    let mut t2 = chars_of(" installed  \u{2022}  ");
    label.append(&mut t2);
    let mut d3 = crate::text::decimal_chars(updates as u64);
    label.append(&mut d3);
    let mut t3 = chars_of(" update(s) available");
    label.append(&mut t3);
    ListPlan { items, total, installed_count, updates, count_label: string_from_chars(label.as_slice()) }
}

/// The widget tag of a category header: "cat:" and the name in lowercase.
pub fn category_tag(name: &str) -> (r: String)
    ensures
        r@ == "cat:"@ + unicode_lowercase(name@),
{
    let l = to_lowercase(name);
    let mut t = chars_of("cat:");
    let lc = chars_of(l.as_str());
    crate::log_scanner::append_chars(&mut t, lc.as_slice());
    string_from_chars(t.as_slice())
}

/// `s` with the first occurrence of `p` replaced by `r` (`replacen(p, r, 1)`).
pub open spec fn replace_first(s: Seq<char>, p: Seq<char>, r: Seq<char>) -> Seq<char> {
    match find_seq_from(s, p, 0) {
        Some(i) => s.take(i) + r + s.skip(i + p.len()),
        None => s,
    }
}

/// The widget tag of a mod row listed under `category`: its search tag with
/// the pending category replaced by "mod:" and the category in lowercase.
pub fn entry_tag(search_name: &str, category: &str) -> (r: String)
    ensures
        r@ == replace_first(search_name@, "mod:__pending__"@, "mod:"@ + unicode_lowercase(category@)),
{
    let s = chars_of(search_name);
    let p = chars_of("mod:__pending__");
    let l = to_lowercase(category);
    let mut rep = chars_of("mod:");
    let lc = chars_of(l.as_str());
    crate::log_scanner::append_chars(&mut rep, lc.as_slice());
    proof {
        lemma_find_seq_from(s@, p@, 0);
    }
    match crate::text::find_chars_from(s.as_slice(), p.as_slice(), 0) {
        Some(i) => {
            let mut out = crate::text::sub_chars(s.as_slice(), 0, i);
            assert(out@ =~= s@.take(i as int));
            crate::log_scanner::append_chars(&mut out, rep.as_slice());
            assert(i + p@.len() <= s@.len());
            let n = s.len();
            let from: usize = i + p.len();
            let tail = crate::text::sub_chars(s.as_slice(), from, n);
            assert(tail@ =~= s@.skip(i + p@.len()));
            crate::log_scanner::append_chars(&mut out, tail.as_slice());
            string_from_chars(out.as_slice())
        },
        None => string_from_chars(s.as_slice()),
    }
}

/// A row tag belongs to category `cat`: it starts with "mod:" and the
/// category in lowercase, followed by nothing or by '|'.
pub open spec fn tag_in_category(tag: Seq<char>, cat: Seq<char>) -> bool {
    let t = "mod:"@ + unicode_lowercase(cat);
    crate::text::starts_with(tag, t) && (tag.len() == t.len() || tag[t.len() as int] == '|')
}

/// Whether the row with widget tag `tag` belongs to category `cat`.
pub fn in_category(tag: &str, cat: &str) -> (r: bool)
    ensures
        r == tag_in_category(tag@, cat@),
{
    let l = to_lowercase(cat);
    let mut t = chars_of("mod:");
    let lc = chars_of(l.as_str());
    crate::log_scanner::append_chars(&mut t, lc.as_slice());
    let s = chars_of(tag);
    if !crate::text::chars_starts_with(s.as_slice(), t.as_slice()) {
        return false;
    }
    s.len() == t.len() || s[t.len()] == '|'
}

/// The collapsed categories after flipping `name`: added at the end when it
/// was not collapsed, else every copy of it removed.
/// Every category but `name`.
pub open spec fn other_than(name: Seq<char>) -> spec_fn(Seq<char>) -> bool {
    |s: Seq<char>| s != name
}

pub open spec fn toggled(v: Seq<Seq<char>>, name: Seq<char>) -> Seq<Seq<char>> {
    if v.contains(name) {
        v.filter(other_than(name))
    } else {
        v.push(name)
    }
}

/// Flips whether category `name` is collapsed; returns whether it now is.
pub fn toggle_collapsed(collapsed: &mut Vec<String>, name: &str) -> (now: bool)
    ensures
        now == !crate::melon_dll::strings_view(old(collapsed)@).contains(name@),
        crate::melon_dll::strings_view(final(collapsed)@) == toggled(crate::melon_dll::strings_view(old(collapsed)@), name@),
{
    if !crate::matching::has_string(collapsed, name) {
        push_string(collapsed, lit_string(name));
        return true;
    }
    let ghost old_v = crate::melon_dll::strings_view(collapsed@);
    let mut kept: Vec<String> = Vec::new();
    let mut i: usize = 0;
    while i < collapsed.len()
        invariant
            i <= collapsed@.len(),
            old_v == crate::melon_dll::strings_view(collapsed@),
            crate::melon_dll::strings_view(kept@) == old_v.take(i as int).filter(other_than(name@)),
        decreases collapsed.len() - i,
    {
        assert(old_v.take(i + 1).drop_last() =~= old_v.take(i as int));
        proof {
            reveal(Seq::filter);
        }
        if !str_eq(collapsed[i].as_str(), name) {
            push_string(&mut kept, copy_str(&collapsed[i]));
        }
        i = i + 1;
    }
    assert(old_v.take(collapsed@.len() as int) =~= old_v);
    *collapsed = kept;
    false
}

/// Collapsing a category and expanding it again (or the other way round)
/// leaves every category as collapsed as it was.
pub proof fn law_toggle_twice(v: Seq<Seq<char>>, name: Seq<char>, x: Seq<char>)
    ensures
        toggled(toggled(v, name), name).contains(x) == v.contains(x),
{
    let pred = other_than(name);
    if v.contains(name) {
        let f = v.filter(pred);
        if f.contains(name) {
            v.lemma_filter_contains_rev(pred, name);
            let k = choose|k: int| 0 <= k < f.len() && f[k] == name;
            v.lemma_filter_pred(pred, k);
        }
        assert(toggled(f, name) == f.push(name));
        if v.contains(x) && x != name {
            let k = choose|k: int| 0 <= k < v.len() && v[k] == x;
            v.lemma_filter_contains(pred, k);
            assert(f.contains(x));
            let m = choose|m: int| 0 <= m < f.len() && f[m] == x;
            assert(f.push(name)[m] == x);
        }
        if f.push(name).contains(x) && x != name {
            let m = choose|m: int| 0 <= m < f.push(name).len() && f.push(name)[m] == x;
            assert(m < f.len());
            assert(f.contains(x));
            v.lemma_filter_contains_rev(pred, x);
        }
        if x == name {
            assert(f.push(name)[f.len() as int] == name);
        }
    } else {
        let p = v.push(name);
        assert(p[v.len() as int] == name);
        assert(p.contains(name));
        let f = p.filter(pred);
        assert(toggled(p, name) == f);
        if v.contains(x) {
            let k = choose|k: int| 0 <= k < v.len() && v[k] == x;
            assert(p[k] == x);
            if x != name {
                p.lemma_filter_contains(pred, k);
            }
        }
        if f.contains(x) {
            p.lemma_filter_contains_rev(pred, x);
            let m = choose|m: int| 0 <= m < f.len() && f[m] == x;
            p.lemma_filter_pred(pred, m);
            let k = choose|k: int| 0 <= k < p.len() && p[k] == x;
            assert(k < v.len());
            assert(v[k] == x);
        }
    }
}

} // verus!

verus! {

/// The part of a row tag after "mod:" split at its first '|' (both halves
/// are the whole when there is none).
pub open spec fn split_tag(s: Seq<char>) -> (Seq<char>, Seq<char>) {
    match crate::text::first_index(s, '|') {
        Some(i) => (s.take(i), s.skip(i + 1)),
        None => (s, s),
    }
}

/// Whether a list line with widget tag `tag` is shown for search text
/// `query` (already lowercase): headers always; mod rows by their search
/// text, or when there is no query, unless their category is collapsed.
pub open spec fn row_shown(tag: Seq<char>, query: Seq<char>, collapsed: Seq<Seq<char>>) -> bool {
    if crate::text::starts_with(tag, "cat:"@) {
        true
    } else if crate::text::starts_with(tag, "mod:"@) {
        let (cat_key, search) = split_tag(tag.skip(4));
        if query.len() == 0 {
            !collapsed.contains(cat_key)
        } else {
            contains_seq(search, query)
        }
    } else {
        query.len() == 0 || contains_seq(tag, query)
    }
}

/// Whether the list line tagged `tag` is shown while the search field holds
/// `query`.
pub fn row_visible(tag: &str, query: &str, collapsed: &Vec<String>) -> (r: bool)
    ensures
        r == row_shown(tag@, unicode_lowercase(query@), crate::melon_dll::strings_view(collapsed@)),
{
    let q = to_lowercase(query);
    let qc = chars_of(q.as_str());
    let t = chars_of(tag);
    let cat = chars_of("cat:");
    let md = chars_of("mod:");
    proof {
        reveal_strlit("mod:");
    }
    if crate::text::chars_starts_with(t.as_slice(), cat.as_slice()) {
        return true;
    }
    if crate::text::chars_starts_with(t.as_slice(), md.as_slice()) {
        let after = crate::text::sub_chars(t.as_slice(), 4, t.len());
        assert(after@ =~= t@.skip(4));
        proof {
            crate::text::lemma_first_index(after@, '|');
        }
        let (cat_key, search) = match crate::text::find_char(after.as_slice(), '|') {
            Some(i) => {
                let a = crate::text::sub_chars(after.as_slice(), 0, i);
                let b = crate::text::sub_chars(after.as_slice(), i + 1, after.len());
                assert(a@ =~= after@.take(i as int));
                assert(b@ =~= after@.skip(i + 1));
                (a, b)
            },
            None => (crate::text::sub_chars(after.as_slice(), 0, after.len()), crate::text::sub_chars(after.as_slice(), 0, after.len())),
        };
        assert(after@.subrange(0, after@.len() as int) =~= after@);
        if qc.len() == 0 {
            let ck = string_from_chars(cat_key.as_slice());
            return !crate::matching::has_string(collapsed, ck.as_str());
        } else {
            return chars_contain(search.as_slice(), qc.as_slice());
        }
    }
    qc.len() == 0 || chars_contain(t.as_slice(), qc.as_slice())
}

/// Which mods an action of the mods tab applies to.
pub enum Selection {
    /// "Install Selected": checked catalogue mods.
    Install,
    /// "Update Outdated": installed mods with an update that are neither
    /// broken nor retired.
    Update,
    /// "Uninstall Selected": checked mods that are installed.
    Uninstall,
}

pub open spec fn selected(which: Selection, checked: Seq<i64>, m: Mod) -> bool {
    match which {
        Selection::Install => checked.contains(m._id) && !m.is_unverified,
        Selection::Update => spec_mod_has_update(m) && !m.is_unverified && !latest_broken(m) && !latest_retired(m),
        Selection::Uninstall => checked.contains(m._id) && m.installed_file_path is Some,
    }
}

/// The indices of the first `n` mods that the action applies to, in order.
pub open spec fn selected_indices(ms: Seq<Mod>, checked: Seq<i64>, which: Selection, n: int) -> Seq<int>
    decreases n,
{
    if n <= 0 {
        Seq::empty()
    } else {
        let r = selected_indices(ms, checked, which, n - 1);
        if selected(which, checked, ms[n - 1]) {
            r.push(n - 1)
        } else {
            r
        }
    }
}

fn checked_has(checked: &[i64], id: i64) -> (r: bool)
    ensures
        r == checked@.contains(id),
{
    let mut i: usize = 0;
    while i < checked.len()
        invariant
            i <= checked@.len(),
            forall|j: int| 0 <= j < i ==> checked@[j] != id,
        decreases checked.len() - i,
    {
        if checked[i] == id {
            assert(checked@[i as int] == id);
            return true;
        }
        i = i + 1;
    }
    false
}

/// The indices of the mods that action `which` applies to, given the ids of
/// the checked rows.
pub fn select_mods(mods: &[Mod], checked: &[i64], which: Selection) -> (r: Vec<usize>)
    ensures
        r@.map_values(|i: usize| i as int) == selected_indices(mods@, checked@, which, mods@.len() as int),
{
    let mut out: Vec<usize> = Vec::new();
    let mut i: usize = 0;
    while i < mods.len()
        invariant
            i <= mods@.len(),
            out@.map_values(|k: usize| k as int) == selected_indices(mods@, checked@, which, i as int),
        decreases mods.len() - i,
    {
        let m = &mods[i];
        let take = match which {
            Selection::Install => checked_has(checked, m._id) && !m.is_unverified,
            Selection::Update => mod_has_update(m) && !m.is_unverified && !broken_or_retired(m),
            Selection::Uninstall => checked_has(checked, m._id) && m.installed_file_path.is_some(),
        };
        if take {
            let ghost before = out@;
            out.push(i);
            assert(out@.map_values(|k: usize| k as int) =~= before.map_values(|k: usize| k as int).push(i as int));
        }
        i = i + 1;
    }
    out
}

/// The name shown for a mod in dialogs: its latest version's, or "Unknown".
pub open spec fn shown_name(m: Mod) -> Seq<char> {
    match latest_version(m) {
        Some(v) => v.name@,
        None => "Unknown"@,
    }
}

/// The name shown for a mod in dialogs.
pub fn mod_display_name(m: &Mod) -> (r: String)
    ensures
        r@ == shown_name(*m),
{
    if m.versions.len() > 0 {
        copy_str(&m.versions[0].name)
    } else {
        lit_string("Unknown")
    }
}

/// One "  • name" line per name, each ending in a newline.
pub open spec fn name_lines(names: Seq<Seq<char>>) -> Seq<char>
    decreases names.len(),
{
    if names.len() == 0 {
        Seq::empty()
    } else {
        name_lines(names.drop_last()) + "  \u{2022} "@ + names.last() + "\n"@
    }
}

fn name_lines_chars(out: &mut Vec<char>, names: &Vec<String>)
    ensures
        final(out)@ == old(out)@ + name_lines(crate::melon_dll::strings_view(names@)),
{
    let ghost nv = crate::melon_dll::strings_view(names@);
    let mut i: usize = 0;
    while i < names.len()
        invariant
            i <= names@.len(),
            nv == crate::melon_dll::strings_view(names@),
            out@ == old(out)@ + name_lines(nv.take(i as int)),
        decreases names.len() - i,
    {
        assert(nv.take(i + 1).drop_last() =~= nv.take(i as int));
        assert(nv.take(i + 1).last() == names@[i as int]@);
        let a = chars_of("  \u{2022} ");
        crate::log_scanner::append_chars(out, a.as_slice());
        let n = chars_of(names[i].as_str());
        crate::log_scanner::append_chars(out, n.as_slice());
        let b = chars_of("\n");
        crate::log_scanner::append_chars(out, b.as_slice());
        i = i + 1;
    }
    assert(nv.take(names@.len() as int) =~= nv);
}

/// How many mods were updated and how many failed ("" when none were tried).
pub open spec fn counts_text(updated: nat, failed: nat) -> Seq<char> {
    if updated > 0 || failed > 0 {
        crate::text::decimal(updated) + " mod(s) updated"@ + (if failed > 0 {
            ", "@ + crate::text::decimal(failed) + " failed"@
        } else {
            Seq::empty()
        }) + "."@
    } else {
        Seq::empty()
    }
}

/// `prev`, then (when there are names) a paragraph counting and listing the
/// mods moved to a quarantine folder.
pub open spec fn moved_section(prev: Seq<char>, intro: Seq<char>, tail: Seq<char>, names: Seq<Seq<char>>) -> Seq<char> {
    if names.len() > 0 {
        (if prev.len() > 0 {
            prev + "\n"@
        } else {
            prev
        }) + intro + crate::text::decimal(names.len()) + tail + name_lines(names)
    } else {
        prev
    }
}

/// The message after "Update Outdated": how many mods were updated and how
/// many failed, then the mods moved to the broken and retired folders.
pub open spec fn spec_update_summary(updated: nat, failed: nat, broken: Seq<Seq<char>>, retired: Seq<Seq<char>>) -> Seq<char> {
    let s2 = moved_section(
        counts_text(updated, failed),
        "\n\u{26a0} "@,
        " mod(s) moved to Mods/Broken/ (marked broken by CVRMG):\n"@,
        broken,
    );
    let s3 = moved_section(s2, "\n\u{1f4e6} "@, " mod(s) moved to Mods/Retired/ (retired by CVRMG):\n"@, retired);
    if s3.len() == 0 {
        "All installed mods are already up to date!"@
    } else {
        s3
    }
}

fn counts_chars(updated: usize, failed: usize) -> (s: Vec<char>)
    ensures
        s@ == counts_text(updated as nat, failed as nat),
{
    let mut s: Vec<char> = Vec::new();
    if updated > 0 || failed > 0 {
        let d = crate::text::decimal_chars(updated as u64);
        crate::log_scanner::append_chars(&mut s, d.as_slice());
        let t = chars_of(" mod(s) updated");
        crate::log_scanner::append_chars(&mut s, t.as_slice());
        if failed > 0 {
            let a = chars_of(", ");
            crate::log_scanner::append_chars(&mut s, a.as_slice());
            let f = crate::text::decimal_chars(failed as u64);
            crate::log_scanner::append_chars(&mut s, f.as_slice());
            let b = chars_of(" failed");
            crate::log_scanner::append_chars(&mut s, b.as_slice());
        }
        let dot = chars_of(".");
        crate::log_scanner::append_chars(&mut s, dot.as_slice());
    }
    assert(s@ =~= counts_text(updated as nat, failed as nat));
    s
}

fn append_moved(s: &mut Vec<char>, intro: &str, tail: &str, names: &Vec<String>)
    ensures
        final(s)@ == moved_section(old(s)@, intro@, tail@, crate::melon_dll::strings_view(names@)),
{
    if names.len() > 0 {
        if s.len() > 0 {
            let nl = chars_of("\n");
            crate::log_scanner::append_chars(s, nl.as_slice());
        }
        let h = chars_of(intro);
        crate::log_scanner::append_chars(s, h.as_slice());
        let d = crate::text::decimal_chars(names.len() as u64);
        crate::log_scanner::append_chars(s, d.as_slice());
        let t = chars_of(tail);
        crate::log_scanner::append_chars(s, t.as_slice());
        name_lines_chars(s, names);
    }
}

/// The message shown when "Update Outdated" has finished.
pub fn update_summary(updated: usize, failed: usize, broken: &Vec<String>, retired: &Vec<String>) -> (r: String)
    ensures
        r@ == spec_update_summary(
            updated as nat,
            failed as nat,
            crate::melon_dll::strings_view(broken@),
            crate::melon_dll::strings_view(retired@),
        ),
{
    let mut s = counts_chars(updated, failed);
    append_moved(&mut s, "\n\u{26a0} ", " mod(s) moved to Mods/Broken/ (marked broken by CVRMG):\n", broken);
    append_moved(&mut s, "\n\u{1f4e6} ", " mod(s) moved to Mods/Retired/ (retired by CVRMG):\n", retired);
    if s.len() == 0 {
        return lit_string("All installed mods are already up to date!");
    }
    string_from_chars(s.as_slice())
}

/// The confirmation text before uninstalling the named mods.
pub open spec fn spec_uninstall_detail(names: Seq<Seq<char>>) -> Seq<char> {
    if names.len() == 0 {
        "This will permanently delete the selected mod files."@
    } else {
        "This will permanently delete "@ + crate::text::decimal(names.len()) + " mod file(s):\n\n"@
            + crate::log_scanner::join_with(names.map_values(|n: Seq<char>| "  \u{2022} "@ + n), "\n"@)
            + "\n\nThis cannot be undone."@
    }
}

/// The confirmation text before uninstalling the named mods.
pub fn uninstall_detail(names: &Vec<String>) -> (r: String)
    ensures
        r@ == spec_uninstall_detail(crate::melon_dll::strings_view(names@)),
{
    if names.len() == 0 {
        return lit_string("This will permanently delete the selected mod files.");
    }
    let ghost nv = crate::melon_dll::strings_view(names@);
    let mut lines: Vec<Vec<char>> = Vec::new();
    let mut i: usize = 0;
    while i < names.len()
        invariant
            i <= names@.len(),
            nv == crate::melon_dll::strings_view(names@),
            crate::text::pieces_view(lines@) == nv.take(i as int).map_values(|n: Seq<char>| "  \u{2022} "@ + n),
        decreases names.len() - i,
    {
        let mut l = chars_of("  \u{2022} ");
        let n = chars_of(names[i].as_str());
        crate::log_scanner::append_chars(&mut l, n.as_slice());
        let ghost before = lines@;
        lines.push(l);
        assert(crate::text::pieces_view(lines@) =~= crate::text::pieces_view(before).push(l@));
        assert(nv[i as int] == names@[i as int]@);
        assert(crate::text::pieces_view(lines@) =~= nv.take(i + 1).map_values(|n: Seq<char>| "  \u{2022} "@ + n));
        i = i + 1;
    }
    assert(nv.take(names@.len() as int) =~= nv);
    let mut s = chars_of("This will permanently delete ");
    let d = crate::text::decimal_chars(names.len() as u64);
    crate::log_scanner::append_chars(&mut s, d.as_slice());
    let t = chars_of(" mod file(s):\n\n");
    crate::log_scanner::append_chars(&mut s, t.as_slice());
    let nl = chars_of("\n");
    let joined = crate::log_scanner::join_with_chars(&lines, nl.as_slice());
    crate::log_scanner::append_chars(&mut s, joined.as_slice());
    let e = chars_of("\n\nThis cannot be undone.");
    crate::log_scanner::append_chars(&mut s, e.as_slice());
    string_from_chars(s.as_slice())
}

} // verus!

verus! {

/// Each row line names a mod that exists: a catalogue index below
/// `n_mods`, or an unlisted-file index below `n_unlisted`.
pub open spec fn rows_in_range(items: Seq<ItemView>, n_mods: int, n_unlisted: int) -> bool {
    forall|k: int|
        0 <= k < items.len() ==> match #[trigger] items[k] {
            ItemView::Entry(u, i, _, _) => 0 <= i && (if u {
                i < n_unlisted
            } else {
                i < n_mods
            }),
            ItemView::Category(_, _) => true,
        }
}

proof fn lemma_normal_in_range(mods: Seq<Mod>, group: bool, show_q: bool, collapsed: Seq<Seq<char>>, n: int)
    requires
        n <= mods.len(),
    ensures
        rows_in_range(normal_part(mods, group, show_q, collapsed, n).1, mods.len() as int, 0),
    decreases n,
{
    if n > 0 {
        lemma_normal_in_range(mods, group, show_q, collapsed, n - 1);
    }
}

proof fn lemma_group_rows_in_range(ms: Seq<Mod>, p: Pick, show_q: bool, unverified: bool, cat: Seq<char>, hidden: bool, n: int, n_mods: int, n_unlisted: int)
    requires
        n <= ms.len(),
        (if unverified { ms.len() <= n_unlisted } else { ms.len() <= n_mods }),
    ensures
        rows_in_range(group_rows(ms, p, show_q, unverified, cat, hidden, n), n_mods, n_unlisted),
    decreases n,
{
    if n > 0 {
        lemma_group_rows_in_range(ms, p, show_q, unverified, cat, hidden, n - 1, n_mods, n_unlisted);
    }
}

proof fn lemma_concat_in_range(a: Seq<ItemView>, b: Seq<ItemView>, n_mods: int, n_unlisted: int)
    requires
        rows_in_range(a, n_mods, n_unlisted),
        rows_in_range(b, n_mods, n_unlisted),
    ensures
        rows_in_range(a + b, n_mods, n_unlisted),
{
    assert forall|k: int| 0 <= k < (a + b).len() implies match #[trigger] (a + b)[k] {
        ItemView::Entry(u, i, _, _) => 0 <= i && (if u {
            i < n_unlisted
        } else {
            i < n_mods
        }),
        ItemView::Category(_, _) => true,
    } by {
        if k < a.len() {
            assert((a + b)[k] == a[k]);
        } else {
            assert((a + b)[k] == b[k - a.len()]);
        }
    }
}

proof fn lemma_group_in_range(ms: Seq<Mod>, p: Pick, show_q: bool, unverified: bool, cat: Seq<char>, collapsed: Seq<Seq<char>>, n_mods: int, n_unlisted: int)
    requires
        (if unverified { ms.len() <= n_unlisted } else { ms.len() <= n_mods }),
    ensures
        rows_in_range(group(ms, p, show_q, unverified, cat, collapsed), n_mods, n_unlisted),
{
    let h = seq![ItemView::Category(cat, collapsed.contains(cat))];
    assert(rows_in_range(h, n_mods, n_unlisted));
    lemma_group_rows_in_range(ms, p, show_q, unverified, cat, collapsed.contains(cat), ms.len() as int, n_mods, n_unlisted);
    lemma_concat_in_range(h, group_rows(ms, p, show_q, unverified, cat, collapsed.contains(cat), ms.len() as int), n_mods, n_unlisted);
}

/// Every row of the laid-out list refers to an existing catalogue mod or
/// unlisted file.
pub proof fn law_rows_in_range(mods: Seq<Mod>, unverified: Seq<Mod>, group_br: bool, show_q: bool, collapsed: Seq<Seq<char>>)
    ensures
        rows_in_range(list_items(mods, unverified, group_br, show_q, collapsed), mods.len() as int, unverified.len() as int),
{
    let nm = mods.len() as int;
    let nu = unverified.len() as int;
    lemma_normal_in_range(mods, group_br, show_q, collapsed, nm);
    let normal = normal_part(mods, group_br, show_q, collapsed, nm).1;
    assert forall|k: int| 0 <= k < normal.len() implies match #[trigger] normal[k] {
        ItemView::Entry(u, i, _, _) => 0 <= i && (if u {
            i < nu
        } else {
            i < nm
        }),
        ItemView::Category(_, _) => true,
    } by {
        assert(rows_in_range(normal, nm, 0));
        match normal[k] {
            ItemView::Entry(u, i, _, _) => {
                assert(!u);
            },
            _ => {},
        }
    }
    lemma_group_in_range(mods, Pick::BrokenRetired, show_q, false, broken_retired_title(), collapsed, nm, nu);
    lemma_group_in_range(unverified, Pick::Quarantined, show_q, true, quarantined_title(), collapsed, nm, nu);
    lemma_group_in_range(unverified, Pick::Active, show_q, true, unverified_title(), collapsed, nm, nu);
    let br = if group_br && exists|i: int| 0 <= i < mods.len() && (latest_broken(mods[i]) || latest_retired(mods[i])) {
        group(mods, Pick::BrokenRetired, show_q, false, broken_retired_title(), collapsed)
    } else {
        Seq::empty()
    };
    let qrows = group_rows(unverified, Pick::Quarantined, show_q, true, quarantined_title(), collapsed.contains(quarantined_title()), nu);
    let q = if show_q && qrows.len() > 0 {
        group(unverified, Pick::Quarantined, show_q, true, quarantined_title(), collapsed)
    } else {
        Seq::empty()
    };
    let arows = group_rows(unverified, Pick::Active, show_q, true, unverified_title(), collapsed.contains(unverified_title()), nu);
    let a = if arows.len() > 0 {
        group(unverified, Pick::Active, show_q, true, unverified_title(), collapsed)
    } else {
        Seq::empty()
    };
    assert(rows_in_range(br, nm, nu));
    assert(rows_in_range(q, nm, nu));
    assert(rows_in_range(a, nm, nu));
    lemma_concat_in_range(normal, br, nm, nu);
    lemma_concat_in_range(normal + br, q, nm, nu);
    lemma_concat_in_range(normal + br + q, a, nm, nu);
}

/// The indices an action selects are increasing and each names a mod.
pub proof fn law_selection_in_range(ms: Seq<Mod>, checked: Seq<i64>, which: Selection, n: int)
    requires
        0 <= n <= ms.len(),
    ensures
        forall|k: int|
            0 <= k < selected_indices(ms, checked, which, n).len() ==> 0 <= #[trigger] selected_indices(ms, checked, which, n)[k] < n,
        forall|k: int, l: int|
            0 <= k < l < selected_indices(ms, checked, which, n).len() ==> #[trigger] selected_indices(ms, checked, which, n)[k]
                < #[trigger] selected_indices(ms, checked, which, n)[l],
    decreases n,
{
    if n > 0 {
        law_selection_in_range(ms, checked, which, n - 1);
        let r = selected_indices(ms, checked, which, n - 1);
        let s = selected_indices(ms, checked, which, n);
        if selected(which, checked, ms[n - 1]) {
            assert(s == r.push(n - 1));
            assert forall|k: int| 0 <= k < s.len() implies 0 <= #[trigger] s[k] < n by {
                if k < r.len() {
                    assert(s[k] == r[k]);
                }
            }
            assert forall|k: int, l: int| 0 <= k < l < s.len() implies #[trigger] s[k] < #[trigger] s[l] by {
                assert(s[k] == r[k]);
                if l < r.len() {
                    assert(s[l] == r[l]);
                }
            }
        } else {
            assert(s == r);
        }
    }
}

} // verus!

verus! {

/// The style class of a category header's label.
pub open spec fn spec_category_label_class(name: Seq<char>) -> Seq<char> {
    if contains_seq(name, "NOT VERIFIED"@) {
        "category-label-unverified"@
    } else if name == "Broken / Retired"@ || contains_seq(name, "Quarantined"@) {
        "category-label-broken-retired"@
    } else {
        "category-label"@
    }
}

/// The style class of a category header's label: unlisted files, broken and
/// retired or quarantined mods, or an ordinary category.
pub fn category_label_class(name: &str) -> (r: &'static str)
    ensures
        r@ == spec_category_label_class(name@),
{
    let n = chars_of(name);
    if contains_text(n.as_slice(), "NOT VERIFIED") {
        "category-label-unverified"
    } else if str_eq(name, "Broken / Retired") || contains_text(n.as_slice(), "Quarantined") {
        "category-label-broken-retired"
    } else {
        "category-label"
    }
}

} // verus!
