use vlp::archivefiles::{ArchiveError, FileType, FsOp};
use vlp::pipeline::process_lockscreen_package;

#[test]
fn pipeline_plan_covers_all_five_steps() {
    let input = b"/pkgs/theme".to_vec();
    let output = b"/pkgs".to_vec();
    let stage = b"/tmp/stage".to_vec();
    let dist = b"/tmp/dist".to_vec();
    let assemble = b"/tmp/assemble".to_vec();
    let version = b"20240307123".to_vec();
    let plan = process_lockscreen_package(
        &input,
        &output,
        &stage,
        &dist,
        &assemble,
        FileType::Dir,
        &version,
    )
    .unwrap();

    // step 1: the lockscreen subtree is archived in place
    assert_eq!(plan.stage_inner.len(), 1);
    assert!(
        matches!(&plan.stage_inner[0], FsOp::ZipDir { archive, root } if archive == b"/tmp/stage/lockscreen.zip" && root == b"/pkgs/theme/lockscreen")
    );

    // step 2: the metadata is copied into the scratch root and patched
    assert_eq!(plan.patch_metadata.len(), 2);
    assert!(
        matches!(&plan.patch_metadata[0], FsOp::CopyFile { from, to } if from == b"/pkgs/theme/description.xml" && to == b"/tmp/stage/description.xml")
    );
    assert!(
        matches!(&plan.patch_metadata[1], FsOp::PatchXml { path, value } if path == b"/tmp/stage/description.xml" && value == b"20240307123")
    );

    // step 3: the container is assembled from the three entries and
    // renamed from its working name
    assert_eq!(plan.assemble.workfile, b"/tmp/dist/lockscreen.zip".to_vec());
    assert_eq!(plan.assemble.dest, b"/tmp/dist/lockscreen.itz".to_vec());
    assert_eq!(plan.assemble.ops.len(), 8);
    assert!(
        matches!(&plan.assemble.ops[1], FsOp::CopyFile { from, to } if from == b"/tmp/stage/lockscreen.zip" && to == b"/tmp/assemble/lockscreen/20240307123.zip")
    );
    assert!(
        matches!(&plan.assemble.ops[3], FsOp::CopyDirContents { from, to } if from == b"/pkgs/theme/preview" && to == b"/tmp/assemble/preview")
    );
    assert!(
        matches!(&plan.assemble.ops[5], FsOp::CopyFile { from, to } if from == b"/tmp/stage/description.xml" && to == b"/tmp/assemble/description.xml")
    );
    assert!(
        matches!(&plan.assemble.ops[6], FsOp::ZipDir { archive, root } if archive == b"/tmp/dist/lockscreen.zip" && root == b"/tmp/assemble")
    );
    assert!(
        matches!(&plan.assemble.ops[7], FsOp::Rename { from, to } if from == b"/tmp/dist/lockscreen.zip" && to == b"/tmp/dist/lockscreen.itz")
    );

    // step 4: the container is repacked in place under the published name
    assert_eq!(plan.repack.workfile, b"/pkgs/lockscreen.zip".to_vec());
    assert_eq!(plan.repack.dest, b"/pkgs/lockscreen".to_vec());
    assert_eq!(plan.repack.ops.len(), 2);
    assert!(
        matches!(&plan.repack.ops[0], FsOp::ZipFile { archive, file } if archive == b"/pkgs/lockscreen.zip" && file == b"/tmp/dist/lockscreen.itz")
    );
    assert!(
        matches!(&plan.repack.ops[1], FsOp::Rename { from, to } if from == b"/pkgs/lockscreen.zip" && to == b"/pkgs/lockscreen")
    );

    // step 5: the artifact lands at the published name, no extension
    assert_eq!(plan.artifact, b"/pkgs/lockscreen".to_vec());
}

#[test]
fn pipeline_accepts_a_preview_file() {
    let input = b"/pkgs/theme".to_vec();
    let output = b"/pkgs".to_vec();
    let stage = b"/tmp/stage".to_vec();
    let dist = b"/tmp/dist".to_vec();
    let assemble = b"/tmp/assemble".to_vec();
    let version = b"20240307123".to_vec();
    let plan = process_lockscreen_package(
        &input,
        &output,
        &stage,
        &dist,
        &assemble,
        FileType::File,
        &version,
    )
    .unwrap();
    assert!(
        matches!(&plan.assemble.ops[3], FsOp::CopyFile { from, to } if from == b"/pkgs/theme/preview" && to == b"/tmp/assemble/preview")
    );
}

#[test]
fn pipeline_rejects_an_unsupported_preview() {
    let input = b"/pkgs/theme".to_vec();
    let output = b"/pkgs".to_vec();
    let stage = b"/tmp/stage".to_vec();
    let dist = b"/tmp/dist".to_vec();
    let assemble = b"/tmp/assemble".to_vec();
    let version = b"20240307123".to_vec();
    match process_lockscreen_package(
        &input,
        &output,
        &stage,
        &dist,
        &assemble,
        FileType::Other,
        &version,
    ) {
        Err(ArchiveError::InvalidPath(d)) => assert_eq!(d, b"/pkgs/theme/preview".to_vec()),
        _ => panic!("an unsupported preview must fail the pipeline"),
    }
}
