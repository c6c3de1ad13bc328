use vlp::paths::{file_name, join, parent, with_extension};

#[test]
fn join_inserts_one_separator() {
    let base = b"/tmp/stage".to_vec();
    let rel = b"lockscreen.zip".to_vec();
    assert_eq!(join(&base, &rel), b"/tmp/stage/lockscreen.zip".to_vec());
}

#[test]
fn file_name_takes_final_component() {
    let p = b"/pkg/input/preview".to_vec();
    assert_eq!(file_name(&p), Some(b"preview".to_vec()));
}

#[test]
fn file_name_of_bare_name_is_itself() {
    let p = b"description.xml".to_vec();
    assert_eq!(file_name(&p), Some(b"description.xml".to_vec()));
}

#[test]
fn file_name_of_root_is_none() {
    let p = b"/".to_vec();
    assert_eq!(file_name(&p), None);
    let empty = Vec::new();
    assert_eq!(file_name(&empty), None);
}

#[test]
fn parent_drops_final_component() {
    let p = b"/pkg/input/preview".to_vec();
    assert_eq!(parent(&p), Some(b"/pkg/input".to_vec()));
}

#[test]
fn parent_directly_under_root_is_root() {
    let p = b"/pkg".to_vec();
    assert_eq!(parent(&p), Some(b"/".to_vec()));
}

#[test]
fn parent_of_root_or_bare_name_is_none() {
    let root = b"/".to_vec();
    assert_eq!(parent(&root), None);
    let bare = b"zip".to_vec();
    assert_eq!(parent(&bare), None);
}

#[test]
fn with_extension_replaces_existing_extension() {
    let p = b"/dist/lockscreen.itz".to_vec();
    let ext = b"zip".to_vec();
    assert_eq!(with_extension(&p, &ext), b"/dist/lockscreen.zip".to_vec());
}

#[test]
fn with_extension_appends_when_none() {
    let p = b"/out/lockscreen".to_vec();
    let ext = b"zip".to_vec();
    assert_eq!(with_extension(&p, &ext), b"/out/lockscreen.zip".to_vec());
}

#[test]
fn with_extension_ignores_dot_in_directory() {
    let p = b"/a.b/name".to_vec();
    let ext = b"zip".to_vec();
    assert_eq!(with_extension(&p, &ext), b"/a.b/name.zip".to_vec());
}

#[test]
fn with_extension_keeps_leading_dot_name_whole() {
    let p = b"/home/.config".to_vec();
    let ext = b"zip".to_vec();
    assert_eq!(with_extension(&p, &ext), b"/home/.config.zip".to_vec());
}
