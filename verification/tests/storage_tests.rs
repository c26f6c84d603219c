use devlog::storage::{
    entry_ids_from_names, format_directory_type, md_stem_of, platform_fallback_dir, xdg_app_dir,
    DirectoryError, LocalEntryStorage, Platform, Storage, XdgDirectoryType,
};

fn home() -> Option<String> {
    dirs::home_dir().map(|p| p.to_string_lossy().to_string())
}

#[test]
fn test_platform_fallback_directories() {
    // Test that fallback directories are returned for each platform/type combination
    let dir_types = [
        XdgDirectoryType::Config,
        XdgDirectoryType::Data,
        XdgDirectoryType::Cache,
        XdgDirectoryType::State,
    ];

    for dir_type in dir_types {
        let fallback = platform_fallback_dir(dir_type, Platform::Unix, home(), None, None);
        // Should return Some path on all platforms
        assert!(fallback.is_some(), "Fallback should exist for {:?}", dir_type);
    }
}

#[test]
fn fallback_directories_per_platform() {
    let h = Some("/home/u".to_string());
    assert_eq!(
        platform_fallback_dir(XdgDirectoryType::Data, Platform::Unix, h.clone(), None, None),
        Some("/home/u/.local/share".to_string())
    );
    assert_eq!(
        platform_fallback_dir(XdgDirectoryType::Cache, Platform::MacOS, h.clone(), None, None),
        Some("/home/u/Library/Caches".to_string())
    );
    assert_eq!(
        platform_fallback_dir(XdgDirectoryType::State, Platform::MacOS, h.clone(), None, None),
        Some("/home/u/Library/Application Support".to_string())
    );
    assert_eq!(
        platform_fallback_dir(
            XdgDirectoryType::Config,
            Platform::Windows,
            h.clone(),
            Some("C:\\Roaming".to_string()),
            None
        ),
        Some("C:\\Roaming".to_string())
    );
    assert_eq!(
        platform_fallback_dir(XdgDirectoryType::Cache, Platform::Windows, h, None, None),
        Some("/home/u/AppData/Local".to_string())
    );
    assert_eq!(platform_fallback_dir(XdgDirectoryType::Config, Platform::Unix, None, None, None), None);
}

#[test]
fn xdg_dir_prefers_the_system_directory() {
    assert_eq!(
        xdg_app_dir(XdgDirectoryType::Config, "devlog", Some("/etc/x".to_string()), Some("/f".to_string())),
        Ok("/etc/x/devlog".to_string())
    );
    assert_eq!(
        xdg_app_dir(XdgDirectoryType::Config, "devlog", None, Some("/f".to_string())),
        Ok("/f/devlog".to_string())
    );
    let e = xdg_app_dir(XdgDirectoryType::State, "devlog", None, None).unwrap_err();
    assert_eq!(e, DirectoryError::Undetermined(XdgDirectoryType::State));
    assert_eq!(e.message(), "Could not determine state directory");
    assert_eq!(format_directory_type(XdgDirectoryType::Cache), "cache");
}

#[test]
fn storage_directories_below_base() {
    let s = Storage::new_with_base_dir("/tmp/t");
    assert_eq!(s.config_path(), "/tmp/t/config");
    assert_eq!(s.data_path(), "/tmp/t/data");
    assert_eq!(s.cache_path(), "/tmp/t/cache");
    assert_eq!(s.state_path(), "/tmp/t/state");
    assert_eq!(s.entries_path(), "/tmp/t/data/entries");
    let l = LocalEntryStorage::new("/home/u/.devlog".to_string());
    assert_eq!(l.events_path("20250101"), "/home/u/.devlog/events/20250101.jsonl");
    assert_eq!(l.markdown_path("20250101"), "/home/u/.devlog/entries/20250101.md");
}

#[test]
fn entry_ids_newest_first() {
    let names = vec![
        "20250920.md".to_string(),
        "notes.txt".to_string(),
        "20250921.md".to_string(),
        "20250919.md".to_string(),
        ".md".to_string(),
    ];
    assert_eq!(
        entry_ids_from_names(&names),
        vec!["20250921".to_string(), "20250920".to_string(), "20250919".to_string(), String::new()]
    );
    assert_eq!(md_stem_of("a.md"), Some("a".to_string()));
    assert_eq!(md_stem_of("a.mdx"), None);
}

#[test]
fn test_platform_detection() {
    // Verify platform detection works for the names the build targets report
    assert_eq!(Platform::from_os_name("windows"), Platform::Windows);
    assert_eq!(Platform::from_os_name("macos"), Platform::MacOS);
    assert_eq!(Platform::from_os_name("linux"), Platform::Unix);
    assert_eq!(Platform::from_os_name("freebsd"), Platform::Unix);
}
