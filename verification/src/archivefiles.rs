//! Archive entries, archive sets, and the filesystem plans that build them.
//!
//! An [`ArchiveFile`] is one logical item destined for a position inside an
//! archive; an [`ArchiveFiles`] is an ordered set of them that together form
//! one archive.  Building an archive is expressed as a plan: a sequence of
//! [`FsOp`] filesystem actions ending in an invocation of the external
//! archiver.  The library computes and reasons about plans; an unverified
//! shell performs them.  The model of what a plan does to the filesystem,
//! and the guarantees proved over it, live in [`crate::run`].

use vstd::prelude::*;

verus! {

use crate::paths::{spec_join, spec_file_name, spec_with_extension, join, file_name, with_extension};

/// Classification of an entry's source, derived from filesystem metadata.
#[derive(Clone, Copy, Debug, PartialEq, Eq, Structural)]
pub enum FileType {
    Dir,
    File,
    Other,
}

impl FileType {
    /// Classification from the two metadata flags: a directory, else a
    /// regular file, else something this library refuses to archive
    /// (symlinks, devices, sockets).
    pub fn from_flags(is_dir: bool, is_file: bool) -> (r: FileType)
        ensures
            r == spec_file_type(is_dir, is_file),
    {
        if is_dir {
            FileType::Dir
        } else if is_file {
            FileType::File
        } else {
            FileType::Other
        }
    }
}

/// What `FileType::from_flags` returns.
pub open spec fn spec_file_type(is_dir: bool, is_file: bool) -> FileType {
    if is_dir {
        FileType::Dir
    } else if is_file {
        FileType::File
    } else {
        FileType::Other
    }
}

/// The two failure kinds of this library: a malformed input shape, or a
/// filesystem / external-tool failure.  The payload is the detail: the
/// offending path, or the tool's captured output.
#[derive(Debug)]
pub enum ArchiveError {
    InvalidPath(Vec<u8>),
    Io(Vec<u8>),
}

impl ArchiveError {
    /// The detail bytes carried by either kind.
    pub fn detail(&self) -> (r: &Vec<u8>)
        ensures
            r@ == self.spec_detail(),
    {
        match self {
            ArchiveError::InvalidPath(d) => d,
            ArchiveError::Io(d) => d,
        }
    }

    pub open spec fn spec_detail(&self) -> Seq<u8> {
        match self {
            ArchiveError::InvalidPath(d) => d@,
            ArchiveError::Io(d) => d@,
        }
    }
}

/// One filesystem action of a build plan.
#[derive(Debug)]
pub enum FsOp {
    /// Create the directory (and its ancestors) if missing.
    EnsureDir { path: Vec<u8> },
    /// Create the ancestors of a file target if missing.
    EnsureParentDir { path: Vec<u8> },
    /// Copy a single regular file.
    CopyFile { from: Vec<u8>, to: Vec<u8> },
    /// Copy the children of `from` into `to` (never `to/<basename of from>`).
    CopyDirContents { from: Vec<u8>, to: Vec<u8> },
    /// Run the archiver over directory `root`, writing `archive`; entry
    /// names inside the archive are relative to `root`.
    ZipDir { archive: Vec<u8>, root: Vec<u8> },
    /// Run the archiver over the single file `file`, writing `archive`.
    ZipFile { archive: Vec<u8>, file: Vec<u8> },
    /// Rename `from` to `to`.
    Rename { from: Vec<u8>, to: Vec<u8> },
    /// Delete a file; used only to compensate a failed rename.
    RemoveFile { path: Vec<u8> },
    /// Rewrite the id and title of the metadata file at `path` to `value`.
    PatchXml { path: Vec<u8>, value: Vec<u8> },
}

/// Mathematical form of an [`FsOp`].
pub enum OpModel {
    EnsureDir { path: Seq<u8> },
    EnsureParentDir { path: Seq<u8> },
    CopyFile { from: Seq<u8>, to: Seq<u8> },
    CopyDirContents { from: Seq<u8>, to: Seq<u8> },
    ZipDir { archive: Seq<u8>, root: Seq<u8> },
    ZipFile { archive: Seq<u8>, file: Seq<u8> },
    Rename { from: Seq<u8>, to: Seq<u8> },
    RemoveFile { path: Seq<u8> },
    PatchXml { path: Seq<u8>, value: Seq<u8> },
}

impl View for FsOp {
    type V = OpModel;

    open spec fn view(&self) -> OpModel {
        match self {
            FsOp::EnsureDir { path } => OpModel::EnsureDir { path: path@ },
            FsOp::EnsureParentDir { path } => OpModel::EnsureParentDir { path: path@ },
            FsOp::CopyFile { from, to } => OpModel::CopyFile { from: from@, to: to@ },
            FsOp::CopyDirContents { from, to } => OpModel::CopyDirContents {
                from: from@,
                to: to@,
            },
            FsOp::ZipDir { archive, root } => OpModel::ZipDir { archive: archive@, root: root@ },
            FsOp::ZipFile { archive, file } => OpModel::ZipFile { archive: archive@, file: file@ },
            FsOp::Rename { from, to } => OpModel::Rename { from: from@, to: to@ },
            FsOp::RemoveFile { path } => OpModel::RemoveFile { path: path@ },
            FsOp::PatchXml { path, value } => OpModel::PatchXml { path: path@, value: value@ },
        }
    }
}

/// The models of a vector of plan ops.
pub open spec fn ops_model(v: Seq<FsOp>) -> Seq<OpModel> {
    v.map_values(|o: FsOp| o@)
}

/// Mathematical form of an [`ArchiveFile`].
pub struct EntryModel {
    pub position: Option<Seq<u8>>,
    pub path: Seq<u8>,
    pub file_type: FileType,
    pub should_copy: bool,
}

/// A single logical item destined for a position inside an archive.
pub struct ArchiveFile {
    /// Relative position inside the archive; when absent the source's
    /// basename is used.
    pub position: Option<Vec<u8>>,
    /// Path of the real file or directory backing the entry.
    pub path: Vec<u8>,
    /// Classification of the source, fixed at construction.
    pub file_type: FileType,
    /// Whether the entry is duplicated into a staging area before archiving
    /// (the default), or handed to the archiver in place.
    should_copy: bool,
}

impl View for ArchiveFile {
    type V = EntryModel;

    closed spec fn view(&self) -> EntryModel {
        EntryModel {
            position: match self.position {
                Some(p) => Some(p@),
                None => None,
            },
            path: self.path@,
            file_type: self.file_type,
            should_copy: self.should_copy,
        }
    }
}

/// The relative position at which an entry lands inside the archive: its
/// declared position, else its source basename.  Meaningful only when
/// `entry_placeable` holds.
pub open spec fn entry_target_rel(e: EntryModel) -> Seq<u8> {
    match e.position {
        Some(p) => p,
        None => spec_file_name(e.path).unwrap(),
    }
}

/// Whether an entry can be materialized at all: its source is a supported
/// kind and its position is determined.
pub open spec fn entry_placeable(e: EntryModel) -> bool {
    &&& e.file_type != FileType::Other
    &&& (e.position is Some || spec_file_name(e.path) is Some)
}

/// The staging actions that materialize one entry under `root`.
pub open spec fn entry_stage_ops(e: EntryModel, root: Seq<u8>) -> Seq<OpModel> {
    let t = spec_join(root, entry_target_rel(e));
    if e.file_type == FileType::File {
        seq![
            OpModel::EnsureParentDir { path: t },
            OpModel::CopyFile { from: e.path, to: t },
        ]
    } else {
        seq![
            OpModel::EnsureDir { path: t },
            OpModel::CopyDirContents { from: e.path, to: t },
        ]
    }
}

/// Copy of a byte vector, with its contents pinned.
pub fn copy_bytes(v: &Vec<u8>) -> (r: Vec<u8>)
    ensures
        r@ == v@,
{
    vstd::slice::slice_to_vec(v.as_slice())
}

impl ArchiveFile {
    /// An entry at `position` backed by `path`, whose source the caller has
    /// classified as `file_type`.  Copying into staging is the default.
    pub fn new(position: Option<Vec<u8>>, path: Vec<u8>, file_type: FileType) -> (r: ArchiveFile)
        ensures
            r@ == (EntryModel {
                position: match position {
                    Some(p) => Some(p@),
                    None => None,
                },
                path: path@,
                file_type: file_type,
                should_copy: true,
            }),
    {
        ArchiveFile { position, path, file_type, should_copy: true }
    }

    /// Opt out of copying: the source is handed to the archiver in place.
    /// Deliberate and one-way, since without copying no repositioning is
    /// possible.
    pub fn not_copy(self) -> (r: ArchiveFile)
        ensures
            r@ == (EntryModel { should_copy: false, ..self@ }),
    {
        ArchiveFile { should_copy: false, ..self }
    }

    /// The absolute target of this entry under staging root `dir_path`:
    /// the root joined with the entry's position, else with the source's
    /// basename; an error when neither names a target.
    pub fn resolve_target(&self, dir_path: &Vec<u8>) -> (r: Result<Vec<u8>, ArchiveError>)
        ensures
            match r {
                Ok(t) => {
                    &&& (self@.position is Some || spec_file_name(self@.path) is Some)
                    &&& t@ == spec_join(dir_path@, entry_target_rel(self@))
                },
                Err(e) => {
                    &&& self@.position is None && spec_file_name(self@.path) is None
                    &&& e matches ArchiveError::InvalidPath(p) && p@ == self@.path
                },
            },
    {
        match &self.position {
            Some(pos) => Ok(join(dir_path, pos)),
            None => match file_name(&self.path) {
                Some(name) => Ok(join(dir_path, &name)),
                None => Err(ArchiveError::InvalidPath(copy_bytes(&self.path))),
            },
        }
    }

    /// The staging plan that materializes this entry under `dir_path`: for
    /// a regular file, create the target's ancestors and copy the file; for
    /// a directory, create the target and copy the source's children into
    /// it; for an unsupported source, an invalid-path error naming it.
    pub fn copy_to(&self, dir_path: &Vec<u8>) -> (r: Result<Vec<FsOp>, ArchiveError>)
        ensures
            r is Ok <==> entry_placeable(self@),
            r matches Ok(ops) ==> ops_model(ops@) == entry_stage_ops(self@, dir_path@),
            r matches Err(e) ==> e matches ArchiveError::InvalidPath(p) && p@ == self@.path,
    {
        let target = match self.resolve_target(dir_path) {
            Ok(t) => t,
            Err(e) => {
                return Err(e);
            },
        };
        match self.file_type {
            FileType::File => {
                let mut ops: Vec<FsOp> = Vec::new();
                ops.push(FsOp::EnsureParentDir { path: copy_bytes(&target) });
                ops.push(FsOp::CopyFile { from: copy_bytes(&self.path), to: target });
                proof {
                    assert(ops_model(ops@) =~= entry_stage_ops(self@, dir_path@));
                }
                Ok(ops)
            },
            FileType::Dir => {
                let mut ops: Vec<FsOp> = Vec::new();
                ops.push(FsOp::EnsureDir { path: copy_bytes(&target) });
                ops.push(FsOp::CopyDirContents { from: copy_bytes(&self.path), to: target });
                proof {
                    assert(ops_model(ops@) =~= entry_stage_ops(self@, dir_path@));
                }
                Ok(ops)
            },
            FileType::Other => Err(ArchiveError::InvalidPath(copy_bytes(&self.path))),
        }
    }
}

/// The working extension a build is archived under before the final rename.
pub open spec fn spec_zip_ext() -> Seq<u8> {
    seq![122u8, 105u8, 112u8]
}

/// The working extension, executable form: the bytes of `zip`.
pub fn zip_ext() -> (v: Vec<u8>)
    ensures
        v@ == spec_zip_ext(),
{
    let mut v: Vec<u8> = Vec::new();
    v.push(122u8);
    v.push(105u8);
    v.push(112u8);
    proof {
        assert(v@ =~= spec_zip_ext());
    }
    v
}

/// Whether a build of this single entry can succeed at all: a copied entry
/// must be placeable; an in-place entry needs only a supported kind.
pub open spec fn entry_zippable(e: EntryModel) -> bool {
    if e.should_copy {
        entry_placeable(e)
    } else {
        e.file_type != FileType::Other
    }
}

/// The build plan of a single entry: stage it under `root` and archive the
/// whole root, or hand its source to the archiver in place.
pub open spec fn entry_zip_ops(e: EntryModel, root: Seq<u8>, to: Seq<u8>) -> Seq<OpModel> {
    if e.should_copy {
        entry_stage_ops(e, root).push(OpModel::ZipDir { archive: to, root: root })
    } else if e.file_type == FileType::File {
        seq![OpModel::ZipFile { archive: to, file: e.path }]
    } else {
        seq![OpModel::ZipDir { archive: to, root: e.path }]
    }
}

/// A build plan that ends in a rename from a working file to the requested
/// destination.  The protocol for performing one: run `ops` in order,
/// stopping at the first failure; if the final rename itself fails, delete
/// `workfile` before reporting the failure.
pub struct RenamePlan {
    pub ops: Vec<FsOp>,
    pub workfile: Vec<u8>,
    pub dest: Vec<u8>,
}

/// Mathematical form of a [`RenamePlan`].
pub struct RenamePlanModel {
    pub ops: Seq<OpModel>,
    pub workfile: Seq<u8>,
    pub dest: Seq<u8>,
}

impl View for RenamePlan {
    type V = RenamePlanModel;

    open spec fn view(&self) -> RenamePlanModel {
        RenamePlanModel { ops: ops_model(self.ops@), workfile: self.workfile@, dest: self.dest@ }
    }
}

/// The plan that builds into a working file and renames it to `dest`:
/// `build_ops` followed by the rename.
pub open spec fn spec_rename_plan(
    build_ops: Seq<OpModel>,
    workfile: Seq<u8>,
    dest: Seq<u8>,
) -> RenamePlanModel {
    RenamePlanModel {
        ops: build_ops.push(OpModel::Rename { from: workfile, to: dest }),
        workfile: workfile,
        dest: dest,
    }
}

impl ArchiveFile {
    /// The build plan of this entry alone: when copying, materialize it
    /// under the fresh staging root `staging_root` and archive that root
    /// into `to`; in place, archive the source directly.  An unsupported
    /// source fails with an invalid-path error in either mode.
    pub fn zip_with(&self, staging_root: &Vec<u8>, to: &Vec<u8>) -> (r: Result<
        Vec<FsOp>,
        ArchiveError,
    >)
        ensures
            r is Ok <==> entry_zippable(self@),
            r matches Ok(ops) ==> ops_model(ops@) == entry_zip_ops(self@, staging_root@, to@),
            r matches Err(e) ==> e matches ArchiveError::InvalidPath(p) && p@ == self@.path,
    {
        if self.should_copy {
            let mut ops = match self.copy_to(staging_root) {
                Ok(ops) => ops,
                Err(e) => {
                    return Err(e);
                },
            };
            ops.push(
                FsOp::ZipDir { archive: copy_bytes(to), root: copy_bytes(staging_root) },
            );
            proof {
                assert(ops_model(ops@) =~= entry_zip_ops(self@, staging_root@, to@));
            }
            Ok(ops)
        } else {
            match self.file_type {
                FileType::File => {
                    let mut ops: Vec<FsOp> = Vec::new();
                    ops.push(
                        FsOp::ZipFile { archive: copy_bytes(to), file: copy_bytes(&self.path) },
                    );
                    proof {
                        assert(ops_model(ops@) =~= entry_zip_ops(self@, staging_root@, to@));
                    }
                    Ok(ops)
                },
                FileType::Dir => {
                    let mut ops: Vec<FsOp> = Vec::new();
                    ops.push(
                        FsOp::ZipDir { archive: copy_bytes(to), root: copy_bytes(&self.path) },
                    );
                    proof {
                        assert(ops_model(ops@) =~= entry_zip_ops(self@, staging_root@, to@));
                    }
                    Ok(ops)
                },
                FileType::Other => Err(ArchiveError::InvalidPath(copy_bytes(&self.path))),
            }
        }
    }

    /// The build of this entry into the working file `to` with a `zip`
    /// extension, followed by the rename to `to` itself.
    pub fn zip_and_rename(&self, staging_root: &Vec<u8>, to: &Vec<u8>) -> (r: Result<
        RenamePlan,
        ArchiveError,
    >)
        ensures
            r is Ok <==> entry_zippable(self@),
            r matches Ok(plan) ==> plan@ == spec_rename_plan(
                entry_zip_ops(self@, staging_root@, spec_with_extension(to@, spec_zip_ext())),
                spec_with_extension(to@, spec_zip_ext()),
                to@,
            ),
            r matches Err(e) ==> e matches ArchiveError::InvalidPath(p) && p@ == self@.path,
    {
        let ext = zip_ext();
        let workfile = with_extension(to, &ext);
        let mut ops = match self.zip_with(staging_root, &workfile) {
            Ok(ops) => ops,
            Err(e) => {
                return Err(e);
            },
        };
        ops.push(FsOp::Rename { from: copy_bytes(&workfile), to: copy_bytes(to) });
        let plan = RenamePlan { ops, workfile, dest: copy_bytes(to) };
        proof {
            assert(plan@.ops =~= spec_rename_plan(
                entry_zip_ops(self@, staging_root@, spec_with_extension(to@, spec_zip_ext())),
                spec_with_extension(to@, spec_zip_ext()),
                to@,
            ).ops);
        }
        Ok(plan)
    }
}

/// The models of a vector of entries.
pub open spec fn entries_model(v: Seq<ArchiveFile>) -> Seq<EntryModel> {
    v.map_values(|e: ArchiveFile| e@)
}

/// Every entry of the sequence is placeable.
pub open spec fn all_placeable(es: Seq<EntryModel>) -> bool {
    forall|i: int| 0 <= i < es.len() ==> entry_placeable(#[trigger] es[i])
}

/// The staging actions of a whole set: each entry's staging actions in
/// order, sharing one root.
pub open spec fn set_stage_ops(es: Seq<EntryModel>, root: Seq<u8>) -> Seq<OpModel>
    decreases es.len(),
{
    if es.len() == 0 {
        Seq::empty()
    } else {
        entry_stage_ops(es[0], root) + set_stage_ops(es.drop_first(), root)
    }
}

pub proof fn lemma_set_stage_ops_push(es: Seq<EntryModel>, e: EntryModel, root: Seq<u8>)
    ensures
        set_stage_ops(es.push(e), root) == set_stage_ops(es, root) + entry_stage_ops(e, root),
    decreases es.len(),
{
    if es.len() == 0 {
        assert(es.push(e).drop_first() =~= es);
        assert(set_stage_ops(es.push(e), root) =~= set_stage_ops(es, root) + entry_stage_ops(
            e,
            root,
        ));
    } else {
        assert(es.push(e).drop_first() =~= es.drop_first().push(e));
        lemma_set_stage_ops_push(es.drop_first(), e, root);
        assert(set_stage_ops(es.push(e), root) =~= set_stage_ops(es, root) + entry_stage_ops(
            e,
            root,
        ));
    }
}

/// An ordered collection of entries that together define one archive.
pub struct ArchiveFiles {
    pub files: Vec<ArchiveFile>,
}

impl ArchiveFiles {
    /// A set over already-validated entries; construction never fails.
    pub fn new(files: Vec<ArchiveFile>) -> (r: Result<ArchiveFiles, ArchiveError>)
        ensures
            r matches Ok(s) && s.files == files,
    {
        Ok(ArchiveFiles { files })
    }

    /// The build plan of the whole set: every entry staged into the one
    /// shared root `staging_root` at its own position, then a single
    /// archiver run over that root into `to`.  Fails with the first
    /// non-placeable entry's invalid-path error.
    pub fn zip_with(&self, staging_root: &Vec<u8>, to: &Vec<u8>) -> (r: Result<
        Vec<FsOp>,
        ArchiveError,
    >)
        ensures
            r is Ok <==> all_placeable(entries_model(self.files@)),
            r matches Ok(ops) ==> ops_model(ops@) == set_stage_ops(
                entries_model(self.files@),
                staging_root@,
            ).push(OpModel::ZipDir { archive: to@, root: staging_root@ }),
            r matches Err(e) ==> {
                let es = entries_model(self.files@);
                e matches ArchiveError::InvalidPath(p) && exists|i: int|
                    {
                        &&& 0 <= i < es.len()
                        &&& !entry_placeable(es[i])
                        &&& p@ == es[i].path
                        &&& forall|j: int| 0 <= j < i ==> entry_placeable(#[trigger] es[j])
                    }
            },
    {
        let ghost es = entries_model(self.files@);
        let mut ops: Vec<FsOp> = Vec::new();
        let mut i: usize = 0;
        while i < self.files.len()
            invariant
                i <= self.files@.len(),
                es == entries_model(self.files@),
                forall|j: int| 0 <= j < i ==> entry_placeable(#[trigger] es[j]),
                ops_model(ops@) == set_stage_ops(es.take(i as int), staging_root@),
            decreases self.files@.len() - i,
        {
            let mut sub = match self.files[i].copy_to(staging_root) {
                Ok(sub) => sub,
                Err(e) => {
                    return Err(e);
                },
            };
            proof {
                assert(es.take(i as int).push(es[i as int]) =~= es.take(i + 1));
                lemma_set_stage_ops_push(es.take(i as int), es[i as int], staging_root@);
            }
            let ghost old_ops = ops@;
            let ghost sub_snapshot = sub@;
            ops.append(&mut sub);
            proof {
                assert(ops_model(ops@) =~= ops_model(old_ops) + ops_model(sub_snapshot));
            }
            i = i + 1;
        }
        proof {
            assert(es.take(es.len() as int) =~= es);
        }
        ops.push(FsOp::ZipDir { archive: copy_bytes(to), root: copy_bytes(staging_root) });
        proof {
            assert(ops_model(ops@) =~= set_stage_ops(es, staging_root@).push(
                OpModel::ZipDir { archive: to@, root: staging_root@ },
            ));
        }
        Ok(ops)
    }

    /// The build of the whole set into the working file with a `zip`
    /// extension, followed by the rename to `to` itself.
    pub fn zip_and_rename(&self, staging_root: &Vec<u8>, to: &Vec<u8>) -> (r: Result<
        RenamePlan,
        ArchiveError,
    >)
        ensures
            r is Ok <==> all_placeable(entries_model(self.files@)),
            r matches Ok(plan) ==> plan@ == spec_rename_plan(
                set_stage_ops(
                    entries_model(self.files@),
                    staging_root@,
                ).push(
                    OpModel::ZipDir {
                        archive: spec_with_extension(to@, spec_zip_ext()),
                        root: staging_root@,
                    },
                ),
                spec_with_extension(to@, spec_zip_ext()),
                to@,
            ),
            r matches Err(e) ==> {
                let es = entries_model(self.files@);
                e matches ArchiveError::InvalidPath(p) && exists|i: int|
                    {
                        &&& 0 <= i < es.len()
                        &&& !entry_placeable(es[i])
                        &&& p@ == es[i].path
                        &&& forall|j: int| 0 <= j < i ==> entry_placeable(#[trigger] es[j])
                    }
            },
    {
        let ext = zip_ext();
        let workfile = with_extension(to, &ext);
        let mut ops = match self.zip_with(staging_root, &workfile) {
            Ok(ops) => ops,
            Err(e) => {
                return Err(e);
            },
        };
        ops.push(FsOp::Rename { from: copy_bytes(&workfile), to: copy_bytes(to) });
        let plan = RenamePlan { ops, workfile, dest: copy_bytes(to) };
        proof {
            assert(plan@.ops =~= spec_rename_plan(
                set_stage_ops(
                    entries_model(self.files@),
                    staging_root@,
                ).push(
                    OpModel::ZipDir {
                        archive: spec_with_extension(to@, spec_zip_ext()),
                        root: staging_root@,
                    },
                ),
                spec_with_extension(to@, spec_zip_ext()),
                to@,
            ).ops);
        }
        Ok(plan)
    }
}

} // verus!
