//! The packaging pipeline: the fixed five-step plan that turns an input
//! package into the published artifact.
//!
//! The steps: archive the `lockscreen` subtree in place into an
//! intermediate archive; copy the metadata beside it and patch its id and
//! title to a fresh version number; assemble the intermediate archive (at
//! `lockscreen/<version>.zip`), the `preview` subtree and the patched
//! metadata into the container; repack that container in place under the
//! published name in the output directory.  Every intermediate lives under
//! one of the caller's scratch roots, which the caller tears down whatever
//! happens; only the artifact lands outside them.

use vstd::prelude::*;

verus! {

use crate::archivefiles::{
    ArchiveError,
    ArchiveFile,
    ArchiveFiles,
    EntryModel,
    FileType,
    FsOp,
    OpModel,
    RenamePlan,
    copy_bytes,
    entries_model,
    entry_placeable,
    ops_model,
    set_stage_ops,
    spec_rename_plan,
    spec_zip_ext,
    zip_ext,
};
use crate::names::{
    spec_description_name,
    spec_lockscreen_itz_name,
    spec_lockscreen_name,
    spec_lockscreen_zip_name,
    spec_preview_name,
    description_name,
    lockscreen_itz_name,
    lockscreen_name,
    lockscreen_zip_name,
    preview_name,
};
use crate::paths::{spec_join, spec_file_name, spec_with_extension, join, lemma_file_name_of_join};

/// The full plan of one pipeline run, in the order it is performed.
pub struct PipelinePlan {
    /// Archive the `lockscreen` subtree in place into the intermediate.
    pub stage_inner: Vec<FsOp>,
    /// Copy the metadata under the scratch root and patch it.
    pub patch_metadata: Vec<FsOp>,
    /// Assemble the container and rename it to its `itz` name.
    pub assemble: RenamePlan,
    /// Repack the container in place under the published name.
    pub repack: RenamePlan,
    /// Where the artifact lands: the published name in the output
    /// directory.
    pub artifact: Vec<u8>,
}

/// The intermediate archive of the `lockscreen` subtree.
pub open spec fn spec_intermediate_zip(stage_root: Seq<u8>) -> Seq<u8> {
    spec_join(stage_root, spec_lockscreen_zip_name())
}

/// The patched copy of the metadata file.
pub open spec fn spec_fixed_description(stage_root: Seq<u8>) -> Seq<u8> {
    spec_join(stage_root, spec_description_name())
}

/// The assembled container before its final repack.
pub open spec fn spec_final_itz(dist_root: Seq<u8>) -> Seq<u8> {
    spec_join(dist_root, spec_lockscreen_itz_name())
}

/// The published artifact.
pub open spec fn spec_artifact(output: Seq<u8>) -> Seq<u8> {
    spec_join(output, spec_lockscreen_name())
}

/// The intermediate archive's position inside the container:
/// `lockscreen/<version>.zip`.
pub open spec fn spec_inner_position(version: Seq<u8>) -> Seq<u8> {
    spec_join(spec_lockscreen_name(), version + seq![crate::paths::dot()] + spec_zip_ext())
}

/// The three entries of the container: the intermediate archive at its
/// versioned position, the `preview` subtree, and the patched metadata.
pub open spec fn spec_outer_entries(
    input: Seq<u8>,
    stage_root: Seq<u8>,
    version: Seq<u8>,
    preview_kind: FileType,
) -> Seq<EntryModel> {
    seq![
        EntryModel {
            position: Some(spec_inner_position(version)),
            path: spec_intermediate_zip(stage_root),
            file_type: FileType::File,
            should_copy: true,
        },
        EntryModel {
            position: None,
            path: spec_join(input, spec_preview_name()),
            file_type: preview_kind,
            should_copy: true,
        },
        EntryModel {
            position: None,
            path: spec_fixed_description(stage_root),
            file_type: FileType::File,
            should_copy: true,
        },
    ]
}

/// The plan of one pipeline run over the package at `input`, publishing
/// into `output`.  The caller supplies three fresh scratch roots — one for
/// the intermediate archive and metadata copy, one for the container, one
/// for the container's staging — together with the `preview` subtree's
/// classification and the version number to stamp.  The run fails exactly
/// when `preview` is of an unsupported kind, with an invalid-path error
/// naming it.
pub fn process_lockscreen_package(
    input: &Vec<u8>,
    output: &Vec<u8>,
    stage_root: &Vec<u8>,
    dist_root: &Vec<u8>,
    assemble_root: &Vec<u8>,
    preview_kind: FileType,
    version: &Vec<u8>,
) -> (r: Result<PipelinePlan, ArchiveError>)
    ensures
        r is Ok <==> preview_kind != FileType::Other,
        r matches Ok(plan) ==> {
            &&& ops_model(plan.stage_inner@) == seq![
                OpModel::ZipDir {
                    archive: spec_intermediate_zip(stage_root@),
                    root: spec_join(input@, spec_lockscreen_name()),
                },
            ]
            &&& ops_model(plan.patch_metadata@) == seq![
                OpModel::CopyFile {
                    from: spec_join(input@, spec_description_name()),
                    to: spec_fixed_description(stage_root@),
                },
                OpModel::PatchXml {
                    path: spec_fixed_description(stage_root@),
                    value: version@,
                },
            ]
            &&& plan.assemble@ == spec_rename_plan(
                set_stage_ops(
                    spec_outer_entries(input@, stage_root@, version@, preview_kind),
                    assemble_root@,
                ).push(
                    OpModel::ZipDir {
                        archive: spec_with_extension(spec_final_itz(dist_root@), spec_zip_ext()),
                        root: assemble_root@,
                    },
                ),
                spec_with_extension(spec_final_itz(dist_root@), spec_zip_ext()),
                spec_final_itz(dist_root@),
            )
            &&& plan.repack@ == spec_rename_plan(
                seq![
                    OpModel::ZipFile {
                        archive: spec_with_extension(spec_artifact(output@), spec_zip_ext()),
                        file: spec_final_itz(dist_root@),
                    },
                ],
                spec_with_extension(spec_artifact(output@), spec_zip_ext()),
                spec_artifact(output@),
            )
            &&& plan.artifact@ == spec_artifact(output@)
        },
        r matches Err(e) ==> e matches ArchiveError::InvalidPath(d) && d@ == spec_join(
            input@,
            spec_preview_name(),
        ),
{
    let lname = lockscreen_name();
    let lockscreen_dir = join(input, &lname);
    let lzname = lockscreen_zip_name();
    let intermediate = join(stage_root, &lzname);

    // step 1: the lockscreen subtree is the sole content of the
    // intermediate archive, so it is archived in place, uncopied
    let inner_entry = ArchiveFile::new(None, lockscreen_dir, FileType::Dir).not_copy();
    let stage_inner = match inner_entry.zip_with(stage_root, &intermediate) {
        Ok(ops) => ops,
        Err(e) => {
            proof {
                assert(false);
            }
            return Err(e);
        },
    };

    // step 2: copy the metadata beside it and patch both elements
    let dname = description_name();
    let fixed = join(stage_root, &dname);
    let src_description = join(input, &dname);
    let mut patch_metadata: Vec<FsOp> = Vec::new();
    patch_metadata.push(FsOp::CopyFile { from: src_description, to: copy_bytes(&fixed) });
    patch_metadata.push(FsOp::PatchXml { path: copy_bytes(&fixed), value: copy_bytes(version) });
    proof {
        assert(ops_model(patch_metadata@) =~= seq![
            OpModel::CopyFile {
                from: spec_join(input@, spec_description_name()),
                to: spec_fixed_description(stage_root@),
            },
            OpModel::PatchXml { path: spec_fixed_description(stage_root@), value: version@ },
        ]);
    }

    // step 3: assemble the container from the three entries
    let mut versioned = copy_bytes(version);
    versioned.push(46u8);
    let ext = zip_ext();
    crate::utils::append_all(&mut versioned, &ext);
    let inner_position = join(&lname, &versioned);
    let pname = preview_name();
    let preview_path = join(input, &pname);
    let entry_inner = ArchiveFile::new(
        Some(inner_position),
        copy_bytes(&intermediate),
        FileType::File,
    );
    let entry_preview = ArchiveFile::new(None, preview_path, preview_kind);
    let entry_description = ArchiveFile::new(None, copy_bytes(&fixed), FileType::File);
    let mut files: Vec<ArchiveFile> = Vec::new();
    files.push(entry_inner);
    files.push(entry_preview);
    files.push(entry_description);
    let ghost es = entries_model(files@);
    proof {
        assert(versioned@ =~= version@ + seq![crate::paths::dot()] + spec_zip_ext());
        assert(es =~= spec_outer_entries(input@, stage_root@, version@, preview_kind));
        lemma_file_name_of_join(input@, spec_preview_name());
        lemma_file_name_of_join(stage_root@, spec_description_name());
    }
    let set = match ArchiveFiles::new(files) {
        Ok(s) => s,
        Err(e) => {
            proof {
                assert(false);
            }
            return Err(e);
        },
    };
    let itzname = lockscreen_itz_name();
    let final_itz = join(dist_root, &itzname);
    proof {
        if preview_kind != FileType::Other {
            assert forall|i: int| 0 <= i < es.len() implies entry_placeable(#[trigger] es[i]) by {
                if i == 1 {
                    assert(spec_file_name(es[1].path) is Some);
                }
            }
        } else {
            assert(!entry_placeable(es[1]));
        }
    }
    let assemble = match set.zip_and_rename(assemble_root, &final_itz) {
        Ok(p) => p,
        Err(e) => {
            proof {
                let i = choose|i: int|
                    {
                        &&& 0 <= i < es.len()
                        &&& !entry_placeable(es[i])
                        &&& (match e {
                            ArchiveError::InvalidPath(ref p) => p@ == es[i].path,
                            _ => false,
                        })
                        &&& forall|j: int| 0 <= j < i ==> entry_placeable(#[trigger] es[j])
                    };
                assert(entry_placeable(es[0]));
                assert(entry_placeable(es[2]));
                assert(i == 1);
            }
            return Err(e);
        },
    };

    // step 4: repack the container in place under the published name
    let artifact = join(output, &lname);
    let container_entry = ArchiveFile::new(
        None,
        copy_bytes(&final_itz),
        FileType::File,
    ).not_copy();
    let repack = match container_entry.zip_and_rename(stage_root, &artifact) {
        Ok(p) => p,
        Err(e) => {
            proof {
                assert(false);
            }
            return Err(e);
        },
    };

    Ok(PipelinePlan { stage_inner, patch_metadata, assemble, repack, artifact })
}

} // verus!
