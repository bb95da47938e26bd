use basalto::permissions::{check_device_node, ensure_root_or_die, PermissionError};

#[test]
fn root_passes() {
    assert_eq!(ensure_root_or_die(0), Ok(()));
    assert_eq!(check_device_node(0, "/dev/nvidia0"), Ok(true));
}

#[test]
fn others_are_refused() {
    assert_eq!(ensure_root_or_die(1000), Err(PermissionError::RootRequired));
    assert_eq!(check_device_node(1, "/dev/nvidia0"), Err(PermissionError::RootRequired));
}
