use suiup::paths::{
    binaries_dir, get_config_file, get_suiup_cache_dir, get_suiup_config_dir,
    get_suiup_data_dir, home_dir, path_join, release_archive_dir,
};

#[test]
fn joins_relative_parts() {
    assert_eq!(path_join("/a", "b", "/"), "/a/b");
    assert_eq!(path_join("/a/", "b", "/"), "/a/b");
    assert_eq!(path_join("", "b", "/"), "b");
    assert_eq!(path_join("C:\\Users", "x", "\\"), "C:\\Users\\x");
}

#[test]
fn suiup_folders() {
    assert_eq!(get_suiup_data_dir("/home/u/.local/share", "/"), "/home/u/.local/share/suiup");
    assert_eq!(get_suiup_config_dir("/home/u/.config", "/"), "/home/u/.config/suiup");
    assert_eq!(get_suiup_cache_dir("/home/u/.cache", "/"), "/home/u/.cache/suiup");
    assert_eq!(
        get_config_file("/home/u/.config", "default_version.json", "/"),
        "/home/u/.config/suiup/default_version.json"
    );
    assert_eq!(release_archive_dir("/home/u/.cache", "/"), "/home/u/.cache/suiup/releases");
    assert_eq!(binaries_dir("/home/u/.local/share", "/"), "/home/u/.local/share/suiup/binaries");
}

#[test]
fn homes_fall_back_below_the_home_directory() {
    assert_eq!(home_dir(Some("/xdg/data"), "/home/u", &[".local", "share"], "/"), "/xdg/data");
    assert_eq!(home_dir(None, "/home/u", &[".local", "share"], "/"), "/home/u/.local/share");
    assert_eq!(home_dir(None, "/home/u", &[], "/"), "/home/u");
}

#[test]
fn joined_paths_keep_base_and_part() {
    for (base, part) in [("/a", "b"), ("/a/", "bc"), ("", "x")] {
        let j = path_join(base, part, "/");
        assert!(j.starts_with(base));
        assert!(j.ends_with(part));
    }
}
