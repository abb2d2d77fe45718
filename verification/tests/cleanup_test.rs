use suiup::component::ComponentManager;
use suiup::handlers::cleanup::{cleanup_targets, CachedArchive};

const DAY: u64 = 60 * 60 * 24;
const NOW: u64 = 1_750_000_000;

fn archive(name: &str, age_secs: u64) -> CachedArchive {
    CachedArchive { name: name.to_string(), modified_secs: NOW - age_secs }
}

#[test]
fn test_cleanup_empty_directory() {
    assert!(cleanup_targets(&[], NOW, false, 30, true).is_empty());
    assert!(cleanup_targets(&[], NOW, false, 30, false).is_empty());
}

#[test]
fn test_cleanup_dry_run() {
    let files = vec![archive("old_file.zip", 40 * DAY), archive("new_file.zip", 0)];
    assert!(cleanup_targets(&files, NOW, false, 30, true).is_empty());
    assert!(cleanup_targets(&files, NOW, true, 30, true).is_empty());
}

#[test]
fn test_cleanup_remove_old_files() {
    let files = vec![archive("old_file.zip", 40 * DAY), archive("new_file.zip", 0)];
    assert_eq!(cleanup_targets(&files, NOW, false, 30, false), vec![0]);
}

#[test]
fn test_cleanup_remove_all() {
    let files = vec![archive("file1.zip", 0), archive("file2.zip", 5)];
    assert_eq!(cleanup_targets(&files, NOW, true, 30, false), vec![0, 1]);
}

#[test]
fn cleanup_age_boundary_and_future_files() {
    let files = vec![
        archive("exactly.zip", 30 * DAY),
        archive("just_over.zip", 30 * DAY + 1),
        CachedArchive { name: "future.zip".to_string(), modified_secs: NOW + 10 },
    ];
    assert_eq!(cleanup_targets(&files, NOW, false, 30, false), vec![1]);
    let manager = ComponentManager::new(None);
    assert_eq!(manager.handle_cleanup(&files, NOW, false, 0, false), vec![0, 1]);
}
