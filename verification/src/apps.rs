//! Which entries of the application directories are listed as applications.
//!
//! Reading the directories is the caller's part. The caller hands over the
//! entries in the order in which it read them.

use vstd::prelude::*;
use crate::platform::Platform;
use crate::seen::SeenSet;
use crate::strings::texts;

verus! {

/// An application that can be launched.
#[derive(Debug)]
pub struct AppInfo {
    pub name: String,
    pub path: String,
}

/// An application, as plain sequences of characters.
pub struct AppInfoView {
    pub name: Seq<char>,
    pub path: Seq<char>,
}

impl View for AppInfo {
    type V = AppInfoView;

    open spec fn view(&self) -> AppInfoView {
        AppInfoView { name: self.name@, path: self.path@ }
    }
}

/// The applications of a list, each by its view.
pub open spec fn app_views(list: Seq<AppInfo>) -> Seq<AppInfoView> {
    Seq::new(list.len(), |i: int| list[i]@)
}

/// An entry of an application directory.
#[derive(Debug)]
pub struct DirEntry {
    /// The path of the entry.
    pub path: String,
    /// The extension of its name, where it has one that is valid text.
    pub extension: Option<String>,
    /// Its name without the extension, where that is valid text.
    pub stem: Option<String>,
}

/// Why applications could not be listed.
#[derive(Clone, Copy, Debug)]
pub enum AppsError {
    /// Nothing is known of where the platform keeps its applications.
    UnsupportedPlatform,
}

impl AppsError {
    /// The error as a message for the user.
    pub fn message(&self) -> (text: String)
        ensures
            text@ == "Unsupported OS"@,
    {
        "Unsupported OS".to_owned()
    }
}

/// The directories in which a platform keeps its applications, in the
/// order in which they are read.
pub open spec fn app_directories_of(platform: Platform) -> Seq<Seq<char>> {
    match platform {
        Platform::MacOs => seq!["/Applications"@, "/System/Applications"@],
        Platform::Windows => seq!["C:\\ProgramData\\Microsoft\\Windows\\Start Menu\\Programs"@],
        _ => Seq::empty(),
    }
}

/// The directories to read for applications on this platform.
pub fn app_directories(platform: Platform) -> (directories: Vec<String>)
    ensures
        texts(directories@) == app_directories_of(platform),
{
    let mut directories: Vec<String> = Vec::new();
    match platform {
        Platform::MacOs => {
            directories.push("/Applications".to_owned());
            directories.push("/System/Applications".to_owned());
        },
        Platform::Windows => {
            directories.push("C:\\ProgramData\\Microsoft\\Windows\\Start Menu\\Programs".to_owned());
        },
        Platform::Linux | Platform::Unknown => {},
    }
    assert(texts(directories@) =~= app_directories_of(platform));
    directories
}

/// Whether applications can be listed on a platform.
pub open spec fn lists_apps(platform: Platform) -> bool {
    platform == Platform::MacOs || platform == Platform::Windows
}

/// The extension that marks an application on a platform.
pub open spec fn app_extension(platform: Platform) -> Seq<char> {
    match platform {
        Platform::Windows => "lnk"@,
        _ => "app"@,
    }
}

/// Whether an entry has the extension that marks an application.
pub open spec fn is_app(platform: Platform, entry: DirEntry) -> bool {
    match entry.extension {
        Some(extension) => extension@ == app_extension(platform),
        None => false,
    }
}

/// Whether one of the first `k` entries is an application with this path.
pub open spec fn app_path_among(
    platform: Platform,
    entries: Seq<DirEntry>,
    k: int,
    path: Seq<char>,
) -> bool {
    exists|j: int| 0 <= j < k && is_app(platform, #[trigger] entries[j]) && entries[j].path@ == path
}

/// Whether the path of the `k`-th entry came before it as an application's.
pub open spec fn came_before(platform: Platform, entries: Seq<DirEntry>, k: int) -> bool {
    app_path_among(platform, entries, k, entries[k].path@)
}

/// Whether the `k`-th entry is listed: it is an application with a name,
/// and where applications are bundles, its path has not come before.
pub open spec fn is_shown(platform: Platform, entries: Seq<DirEntry>, k: int) -> bool {
    &&& is_app(platform, entries[k])
    &&& entries[k].stem is Some
    &&& platform == Platform::MacOs ==> !came_before(platform, entries, k)
}

/// The applications among the first `n` entries, in the order of the
/// entries: each by its name and path.
pub open spec fn apps_among(platform: Platform, entries: Seq<DirEntry>, n: int) -> Seq<AppInfoView>
    decreases n,
{
    if n <= 0 {
        Seq::empty()
    } else if is_shown(platform, entries, n - 1) {
        apps_among(platform, entries, n - 1).push(
            AppInfoView { name: entries[n - 1].stem->0@, path: entries[n - 1].path@ },
        )
    } else {
        apps_among(platform, entries, n - 1)
    }
}

/// The applications among the entries of the application directories.
/// Fails on a platform that has neither bundles nor shortcuts, and only
/// then.
pub fn list_apps(platform: Platform, entries: &Vec<DirEntry>) -> (apps: Result<
    Vec<AppInfo>,
    AppsError,
>)
    ensures
        apps is Ok <==> lists_apps(platform),
        apps is Err ==> apps->Err_0 == AppsError::UnsupportedPlatform,
        apps is Ok ==> app_views(apps->Ok_0@) == apps_among(platform, entries@, entries@.len() as int),
{
    let bundles = match platform {
        Platform::MacOs => true,
        Platform::Windows => false,
        Platform::Linux | Platform::Unknown => {
            return Err(AppsError::UnsupportedPlatform);
        },
    };
    let wanted = if bundles {
        "app".to_owned()
    } else {
        "lnk".to_owned()
    };
    let mut apps: Vec<AppInfo> = Vec::new();
    let mut seen = SeenSet::new();
    let mut k: usize = 0;
    while k < entries.len()
        invariant
            k <= entries@.len(),
            lists_apps(platform),
            bundles == (platform == Platform::MacOs),
            wanted@ == app_extension(platform),
            app_views(apps@) == apps_among(platform, entries@, k as int),
            seen.wf(),
            bundles ==> forall|path: Seq<char>|
                seen@.contains(path) <==> app_path_among(platform, entries@, k as int, path),
        decreases entries@.len() - k,
    {
        let entry = &entries[k];
        let ghost listed = app_views(apps@);
        let ghost seen_before = seen@;
        let is_wanted = match &entry.extension {
            Some(extension) => *extension == wanted,
            None => false,
        };
        if is_wanted {
            let fresh = !bundles || seen.insert(entry.path.clone());
            if fresh {
                match &entry.stem {
                    Some(stem) => {
                        apps.push(AppInfo { name: stem.clone(), path: entry.path.clone() });
                        assert(app_views(apps@) =~= listed.push(
                            AppInfoView { name: stem@, path: entry.path@ },
                        ));
                    },
                    None => {},
                }
            }
        }
        proof {
            if bundles {
                assert forall|path: Seq<char>| seen@.contains(path) <==> app_path_among(
                    platform,
                    entries@,
                    k + 1,
                    path,
                ) by {
                    if app_path_among(platform, entries@, k + 1, path) {
                        let j = choose|j: int|
                            0 <= j < k + 1 && is_app(platform, #[trigger] entries@[j])
                                && entries@[j].path@ == path;
                        if j < k {
                            assert(app_path_among(platform, entries@, k as int, path));
                        }
                    }
                    if seen_before.contains(path) {
                        let j = choose|j: int|
                            0 <= j < k && is_app(platform, #[trigger] entries@[j])
                                && entries@[j].path@ == path;
                        assert(app_path_among(platform, entries@, k + 1, path));
                    }
                    if is_wanted && path == entry.path@ {
                        assert(is_app(platform, entries@[k as int]));
                    }
                }
            }
        }
        k += 1;
    }
    Ok(apps)
}

} // verus!
