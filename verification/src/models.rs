//! The mod catalogue records: API entries, flags, releases and installed files.

use vstd::prelude::*;

verus! {

/// A mod as listed by the CVRMG API, with the runtime fields filled in once
/// the installed files have been matched against it.
#[derive(Debug, Clone)]
pub struct Mod {
    pub _id: i64,
    pub upload_date: Option<String>,
    pub category: Option<String>,
    pub aliases: Vec<String>,
    /// Versions, newest first.
    pub versions: Vec<ModVersion>,
    pub installed_file_path: Option<String>,
    pub installed_version: Option<String>,
    pub installed_in_broken_dir: bool,
    pub installed_in_retired_dir: bool,
    pub flag: i32,
    /// True for mods found on disk that have no matching CVRMG API entry.
    pub is_unverified: bool,
}

/// The category a mod is listed under.
pub open spec fn spec_display_category(category: Option<String>) -> Seq<char> {
    match category {
        Some(c) => c@,
        None => "Uncategorized"@,
    }
}

impl Mod {
    /// The mod's category, or "Uncategorized".
    pub fn display_category(&self) -> (r: String)
        ensures
            r@ == spec_display_category(self.category),
    {
        match &self.category {
            Some(c) => c.clone(),
            None => String::from_str("Uncategorized"),
        }
    }
}

/// One released version of a mod.
#[derive(Debug, Clone)]
pub struct ModVersion {
    pub _version: i64,
    pub name: String,
    pub mod_version: Option<String>,
    pub mod_type: Option<String>,
    pub author: Option<String>,
    pub description: Option<String>,
    pub download_link: Option<String>,
    pub source_link: Option<String>,
    pub hash: Option<String>,
    pub update_date: Option<String>,
    pub chillout_vr_version: Option<String>,
    pub loader_version: Option<String>,
    /// 2 = broken, 3 = retired.
    pub approval_status: i32,
}

/// A mod type names a plugin (compared ignoring ASCII case).
pub open spec fn spec_is_plugin(mod_type: Option<String>) -> bool {
    match mod_type {
        Some(t) => crate::text::eq_ignore_ascii_case(t@, "plugin"@),
        None => false,
    }
}

impl ModVersion {
    /// Marked broken by the API.
    pub fn is_broken(&self) -> (r: bool)
        ensures
            r == (self.approval_status == 2),
    {
        self.approval_status == 2
    }

    /// Marked retired by the API.
    pub fn is_retired(&self) -> (r: bool)
        ensures
            r == (self.approval_status == 3),
    {
        self.approval_status == 3
    }

    /// The version is a MelonLoader plugin rather than a mod.
    pub fn is_plugin(&self) -> (r: bool)
        ensures
            r == spec_is_plugin(self.mod_type),
    {
        match &self.mod_type {
            Some(t) => crate::text::str_eq_ignore_ascii_case(t.as_str(), "plugin"),
            None => false,
        }
    }
}

/// A curator flag attached to a mod id.
#[derive(Debug, Clone)]
pub struct FlagEntry {
    pub _id: i64,
    pub flag: i32,
}

/// A GitHub release.
#[derive(Debug, Clone)]
pub struct GitHubRelease {
    pub tag_name: String,
    pub assets: Vec<GitHubAsset>,
    pub html_url: String,
    pub body: String,
}

/// A downloadable asset of a GitHub release.
#[derive(Debug, Clone)]
pub struct GitHubAsset {
    pub name: String,
    pub browser_download_url: String,
}

/// Name, version and author of an installed mod.
#[derive(Debug, Clone)]
pub struct InstalledModInfo {
    pub name: String,
    pub version: String,
    pub author: String,
}

} // verus!
