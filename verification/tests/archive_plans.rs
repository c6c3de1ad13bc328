use vlp::archivefiles::{ArchiveError, ArchiveFile, ArchiveFiles, FileType, FsOp};

fn file_entry(position: Option<&[u8]>, path: &[u8]) -> ArchiveFile {
    ArchiveFile::new(position.map(|p| p.to_vec()), path.to_vec(), FileType::File)
}

fn dir_entry(position: Option<&[u8]>, path: &[u8]) -> ArchiveFile {
    ArchiveFile::new(position.map(|p| p.to_vec()), path.to_vec(), FileType::Dir)
}

fn other_entry(path: &[u8]) -> ArchiveFile {
    ArchiveFile::new(None, path.to_vec(), FileType::Other)
}

#[test]
fn from_flags_classifies() {
    assert_eq!(FileType::from_flags(true, false), FileType::Dir);
    assert_eq!(FileType::from_flags(false, true), FileType::File);
    assert_eq!(FileType::from_flags(false, false), FileType::Other);
}

#[test]
fn resolve_target_uses_position_when_given() {
    let e = file_entry(Some(b"lockscreen/n.zip"), b"/stage/lockscreen.zip");
    let root = b"/staging".to_vec();
    assert_eq!(e.resolve_target(&root).unwrap(), b"/staging/lockscreen/n.zip".to_vec());
}

#[test]
fn resolve_target_falls_back_to_basename() {
    let e = file_entry(None, b"/pkg/description.xml");
    let root = b"/staging".to_vec();
    assert_eq!(e.resolve_target(&root).unwrap(), b"/staging/description.xml".to_vec());
}

#[test]
fn resolve_target_fails_without_final_component() {
    let e = dir_entry(None, b"/");
    let root = b"/staging".to_vec();
    match e.resolve_target(&root) {
        Err(ArchiveError::InvalidPath(d)) => assert_eq!(d, b"/".to_vec()),
        _ => panic!("a path with no final component must fail to resolve"),
    }
}

#[test]
fn copy_plan_for_file_copies_to_target() {
    let e = file_entry(None, b"/pkg/description.xml");
    let root = b"/staging".to_vec();
    let ops = e.copy_to(&root).unwrap();
    assert_eq!(ops.len(), 2);
    assert!(matches!(&ops[0], FsOp::EnsureParentDir { path } if path == b"/staging/description.xml"));
    assert!(
        matches!(&ops[1], FsOp::CopyFile { from, to } if from == b"/pkg/description.xml" && to == b"/staging/description.xml")
    );
}

#[test]
fn copy_plan_for_directory_copies_children_under_position() {
    // a directory staged at position `x` lands its children at `x/...`,
    // never at `x/<source dir name>/...`
    let e = dir_entry(Some(b"x"), b"/pkg/preview");
    let root = b"/staging".to_vec();
    let ops = e.copy_to(&root).unwrap();
    assert_eq!(ops.len(), 2);
    assert!(matches!(&ops[0], FsOp::EnsureDir { path } if path == b"/staging/x"));
    assert!(
        matches!(&ops[1], FsOp::CopyDirContents { from, to } if from == b"/pkg/preview" && to == b"/staging/x")
    );
}

#[test]
fn unsupported_kind_fails_copy_plan() {
    let e = other_entry(b"/dev/null");
    let root = b"/staging".to_vec();
    match e.copy_to(&root) {
        Err(ArchiveError::InvalidPath(d)) => assert_eq!(d, b"/dev/null".to_vec()),
        _ => panic!("an unsupported entry must fail with an invalid path"),
    }
}

#[test]
fn unsupported_kind_fails_build_in_copy_mode() {
    let e = other_entry(b"/dev/null");
    let root = b"/staging".to_vec();
    let to = b"/dist/a.zip".to_vec();
    assert!(matches!(e.zip_with(&root, &to), Err(ArchiveError::InvalidPath(_))));
}

#[test]
fn unsupported_kind_fails_build_in_place_too() {
    let e = other_entry(b"/dev/null").not_copy();
    let root = b"/staging".to_vec();
    let to = b"/dist/a.zip".to_vec();
    assert!(matches!(e.zip_with(&root, &to), Err(ArchiveError::InvalidPath(_))));
    let again = other_entry(b"/dev/null").not_copy();
    assert!(matches!(again.zip_and_rename(&root, &to), Err(ArchiveError::InvalidPath(_))));
}

#[test]
fn copied_entry_builds_via_staging_root() {
    let e = file_entry(None, b"/pkg/description.xml");
    let root = b"/staging".to_vec();
    let to = b"/dist/a.zip".to_vec();
    let ops = e.zip_with(&root, &to).unwrap();
    assert_eq!(ops.len(), 3);
    assert!(
        matches!(&ops[2], FsOp::ZipDir { archive, root: r } if archive == b"/dist/a.zip" && r == b"/staging")
    );
}

#[test]
fn in_place_file_is_archived_directly() {
    let e = file_entry(None, b"/dist/lockscreen.itz").not_copy();
    let root = b"/staging".to_vec();
    let to = b"/out/lockscreen.zip".to_vec();
    let ops = e.zip_with(&root, &to).unwrap();
    assert_eq!(ops.len(), 1);
    assert!(
        matches!(&ops[0], FsOp::ZipFile { archive, file } if archive == b"/out/lockscreen.zip" && file == b"/dist/lockscreen.itz")
    );
}

#[test]
fn in_place_directory_is_archived_directly() {
    let e = dir_entry(None, b"/pkg/lockscreen").not_copy();
    let root = b"/staging".to_vec();
    let to = b"/stage/lockscreen.zip".to_vec();
    let ops = e.zip_with(&root, &to).unwrap();
    assert_eq!(ops.len(), 1);
    assert!(
        matches!(&ops[0], FsOp::ZipDir { archive, root: r } if archive == b"/stage/lockscreen.zip" && r == b"/pkg/lockscreen")
    );
}

#[test]
fn build_and_rename_works_through_a_zip_workfile() {
    let e = file_entry(None, b"/dist/lockscreen.itz").not_copy();
    let root = b"/staging".to_vec();
    let to = b"/out/lockscreen".to_vec();
    let plan = e.zip_and_rename(&root, &to).unwrap();
    assert_eq!(plan.workfile, b"/out/lockscreen.zip".to_vec());
    assert_eq!(plan.dest, b"/out/lockscreen".to_vec());
    let last = plan.ops.last().unwrap();
    assert!(
        matches!(last, FsOp::Rename { from, to: t } if from == b"/out/lockscreen.zip" && t == b"/out/lockscreen")
    );
}

#[test]
fn set_stages_every_entry_into_one_root() {
    let files = vec![
        file_entry(Some(b"lockscreen/1.zip"), b"/stage/lockscreen.zip"),
        dir_entry(None, b"/pkg/preview"),
        file_entry(None, b"/stage/description.xml"),
    ];
    let set = ArchiveFiles::new(files).unwrap();
    let root = b"/assemble".to_vec();
    let to = b"/dist/lockscreen.itz".to_vec();
    let ops = set.zip_with(&root, &to).unwrap();
    assert_eq!(ops.len(), 7);
    assert!(
        matches!(&ops[1], FsOp::CopyFile { to: t, .. } if t == b"/assemble/lockscreen/1.zip")
    );
    assert!(
        matches!(&ops[3], FsOp::CopyDirContents { from, to: t } if from == b"/pkg/preview" && t == b"/assemble/preview")
    );
    assert!(
        matches!(&ops[5], FsOp::CopyFile { to: t, .. } if t == b"/assemble/description.xml")
    );
    assert!(
        matches!(&ops[6], FsOp::ZipDir { archive, root: r } if archive == b"/dist/lockscreen.itz" && r == b"/assemble")
    );
}

#[test]
fn set_with_unsupported_entry_fails_with_its_path() {
    let files = vec![
        file_entry(None, b"/stage/description.xml"),
        other_entry(b"/dev/sda"),
    ];
    let set = ArchiveFiles::new(files).unwrap();
    let root = b"/assemble".to_vec();
    let to = b"/dist/lockscreen.itz".to_vec();
    match set.zip_with(&root, &to) {
        Err(ArchiveError::InvalidPath(d)) => assert_eq!(d, b"/dev/sda".to_vec()),
        _ => panic!("a set holding an unsupported entry must fail"),
    }
}

#[test]
fn set_build_and_rename_keeps_the_rename_discipline() {
    let files = vec![file_entry(None, b"/stage/description.xml")];
    let set = ArchiveFiles::new(files).unwrap();
    let root = b"/assemble".to_vec();
    let to = b"/dist/lockscreen.itz".to_vec();
    let plan = set.zip_and_rename(&root, &to).unwrap();
    assert_eq!(plan.workfile, b"/dist/lockscreen.zip".to_vec());
    assert_eq!(plan.dest, b"/dist/lockscreen.itz".to_vec());
    let last = plan.ops.last().unwrap();
    assert!(matches!(last, FsOp::Rename { .. }));
}
