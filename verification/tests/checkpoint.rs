use basalto::checkpoint::{checkpoint_file_name, metadata_file_name, CheckpointManager};

#[test]
fn new_manager_is_empty() {
    let m = CheckpointManager::new("/tmp/ckpt", 3);
    assert_eq!(m.checkpoint_dir(), "/tmp/ckpt");
    assert!(m.list_checkpoints().is_empty());
    assert_eq!(m.get_latest(), None);
}

#[test]
fn saves_rotate_out_the_oldest() {
    let mut m = CheckpointManager::new("d", 2);
    assert!(m.record_saved("a").is_empty());
    assert!(m.record_saved("b").is_empty());
    assert_eq!(m.record_saved("c"), vec!["a".to_string()]);
    assert_eq!(m.list_checkpoints(), vec!["b".to_string(), "c".to_string()]);
    assert_eq!(m.get_latest(), Some("c".to_string()));
}

#[test]
fn zero_budget_keeps_nothing() {
    let mut m = CheckpointManager::new("d", 0);
    assert_eq!(m.record_saved("x"), vec!["x".to_string()]);
    assert!(m.list_checkpoints().is_empty());
    assert_eq!(m.get_latest(), None);
}

#[test]
fn file_names() {
    assert_eq!(checkpoint_file_name("abc"), "abc.ckpt");
    assert_eq!(metadata_file_name("abc"), "abc.meta");
}
