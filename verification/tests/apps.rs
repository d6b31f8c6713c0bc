use astrolaunch::apps::{app_directories, list_apps, AppInfo, AppsError, DirEntry};
use astrolaunch::platform::Platform;

fn entry(path: &str, extension: Option<&str>, stem: Option<&str>) -> DirEntry {
    DirEntry {
        path: path.to_string(),
        extension: extension.map(String::from),
        stem: stem.map(String::from),
    }
}

fn pairs(apps: &[AppInfo]) -> Vec<(String, String)> {
    apps.iter().map(|a| (a.name.clone(), a.path.clone())).collect()
}

fn pair(name: &str, path: &str) -> (String, String) {
    (name.to_string(), path.to_string())
}

#[test]
fn bundles_are_listed_in_order() {
    let entries = vec![
        entry("/Applications/Safari.app", Some("app"), Some("Safari")),
        entry("/Applications/readme.txt", Some("txt"), Some("readme")),
        entry("/Applications/Utilities", None, Some("Utilities")),
        entry("/System/Applications/Mail.app", Some("app"), Some("Mail")),
    ];
    let apps = list_apps(Platform::MacOs, &entries).unwrap();
    assert_eq!(
        pairs(&apps),
        vec![
            pair("Safari", "/Applications/Safari.app"),
            pair("Mail", "/System/Applications/Mail.app")
        ]
    );
}

#[test]
fn a_bundle_path_is_listed_once() {
    let entries = vec![
        entry("/Applications/Notes.app", Some("app"), Some("Notes")),
        entry("/Applications/Notes.app", Some("app"), Some("Notes")),
        entry("/Applications/Maps.app", Some("app"), Some("Maps")),
        entry("/Applications/Notes.app", Some("app"), Some("Other")),
    ];
    let apps = list_apps(Platform::MacOs, &entries).unwrap();
    assert_eq!(
        pairs(&apps),
        vec![pair("Notes", "/Applications/Notes.app"), pair("Maps", "/Applications/Maps.app")]
    );
}

#[test]
fn a_bundle_without_a_name_still_takes_its_path() {
    let entries = vec![
        entry("/Applications/X.app", Some("app"), None),
        entry("/Applications/X.app", Some("app"), Some("X")),
    ];
    let apps = list_apps(Platform::MacOs, &entries).unwrap();
    assert_eq!(pairs(&apps), Vec::<(String, String)>::new());
}

#[test]
fn extension_must_match_exactly() {
    let entries = vec![
        entry("/Applications/A.APP", Some("APP"), Some("A")),
        entry("/Applications/B.apps", Some("apps"), Some("B")),
        entry("/Applications/C.lnk", Some("lnk"), Some("C")),
    ];
    let apps = list_apps(Platform::MacOs, &entries).unwrap();
    assert_eq!(pairs(&apps), Vec::<(String, String)>::new());
}

#[test]
fn shortcuts_are_listed_without_dedup() {
    let entries = vec![
        entry("C:\\Start\\Word.lnk", Some("lnk"), Some("Word")),
        entry("C:\\Start\\Word.lnk", Some("lnk"), Some("Word")),
        entry("C:\\Start\\Game.app", Some("app"), Some("Game")),
        entry("C:\\Start\\desktop.ini", Some("ini"), Some("desktop")),
        entry("C:\\Start\\odd.lnk", Some("lnk"), None),
    ];
    let apps = list_apps(Platform::Windows, &entries).unwrap();
    assert_eq!(
        pairs(&apps),
        vec![pair("Word", "C:\\Start\\Word.lnk"), pair("Word", "C:\\Start\\Word.lnk")]
    );
}

#[test]
fn no_entries_no_apps() {
    assert_eq!(list_apps(Platform::MacOs, &vec![]).unwrap().len(), 0);
    assert_eq!(list_apps(Platform::Windows, &vec![]).unwrap().len(), 0);
}

#[test]
fn unknown_platform_is_an_error() {
    let entries = vec![entry("/Applications/Safari.app", Some("app"), Some("Safari"))];
    assert!(matches!(list_apps(Platform::Unknown, &entries), Err(AppsError::UnsupportedPlatform)));
    assert!(matches!(list_apps(Platform::Unknown, &vec![]), Err(AppsError::UnsupportedPlatform)));
    assert!(matches!(list_apps(Platform::Linux, &entries), Err(AppsError::UnsupportedPlatform)));
    assert_eq!(AppsError::UnsupportedPlatform.message(), "Unsupported OS");
}

#[test]
fn application_directories_of_each_platform() {
    assert_eq!(
        app_directories(Platform::MacOs),
        vec!["/Applications".to_string(), "/System/Applications".to_string()]
    );
    assert_eq!(
        app_directories(Platform::Windows),
        vec![r"C:\ProgramData\Microsoft\Windows\Start Menu\Programs".to_string()]
    );
    assert_eq!(app_directories(Platform::Linux), Vec::<String>::new());
    assert_eq!(app_directories(Platform::Unknown), Vec::<String>::new());
}
