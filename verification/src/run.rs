//! The model of performing a build plan, and the guarantees proved over it.
//!
//! The filesystem is modeled as the set of absolute paths of the regular
//! files that exist.  A `tree` map gives, for each directory path, the
//! relative paths of the files below it; it stands for the contents of the
//! disk outside the model's control.  Performing a plan applies its actions
//! in order and stops at the first failure; an action that fails changes
//! nothing (the archiver either fully writes its output or fails before
//! creating it).

use vstd::prelude::*;

verus! {

use crate::archivefiles::{
    OpModel,
    RenamePlanModel,
    EntryModel,
    FileType,
    entry_stage_ops,
    entry_zip_ops,
    entry_placeable,
    entry_target_rel,
    set_stage_ops,
    all_placeable,
    spec_rename_plan,
    spec_zip_ext,
};
use crate::paths::{
    spec_join,
    spec_has_prefix,
    spec_strip_prefix,
    spec_with_extension,
    lemma_join_strip,
};
use crate::sep;

/// The files an action creates when it succeeds: copy and archive targets;
/// a directory copy creates the source's files, relocated under the target.
pub open spec fn op_places(op: OpModel, tree: Map<Seq<u8>, Set<Seq<u8>>>) -> Set<Seq<u8>> {
    match op {
        OpModel::EnsureDir { .. } => Set::empty(),
        OpModel::EnsureParentDir { .. } => Set::empty(),
        OpModel::CopyFile { from, to } => Set::empty().insert(to),
        OpModel::CopyDirContents { from, to } => tree[from].map(|c: Seq<u8>| spec_join(to, c)),
        OpModel::ZipDir { archive, root } => Set::empty().insert(archive),
        OpModel::ZipFile { archive, file } => Set::empty().insert(archive),
        OpModel::Rename { from, to } => Set::empty().insert(to),
        OpModel::RemoveFile { .. } => Set::empty(),
        OpModel::PatchXml { .. } => Set::empty(),
    }
}

/// The filesystem after one successful action.
pub open spec fn apply_op(
    fs: Set<Seq<u8>>,
    op: OpModel,
    tree: Map<Seq<u8>, Set<Seq<u8>>>,
) -> Set<Seq<u8>> {
    match op {
        OpModel::Rename { from, to } => fs.remove(from).insert(to),
        OpModel::RemoveFile { path } => fs.remove(path),
        _ => fs.union(op_places(op, tree)),
    }
}

/// The filesystem after performing `ops` in order when every action
/// succeeds.
pub open spec fn run_all(
    fs: Set<Seq<u8>>,
    ops: Seq<OpModel>,
    tree: Map<Seq<u8>, Set<Seq<u8>>>,
) -> Set<Seq<u8>>
    decreases ops.len(),
{
    if ops.len() == 0 {
        fs
    } else {
        run_all(apply_op(fs, ops[0], tree), ops.drop_first(), tree)
    }
}

/// The filesystem after performing `ops` in order, where `oks[i]` tells
/// whether the `i`-th action succeeds; the run stops at the first failure.
/// Also whether the whole run succeeded.
pub open spec fn run_ops(
    fs: Set<Seq<u8>>,
    ops: Seq<OpModel>,
    oks: Seq<bool>,
    tree: Map<Seq<u8>, Set<Seq<u8>>>,
) -> (Set<Seq<u8>>, bool)
    decreases ops.len(),
{
    if ops.len() == 0 {
        (fs, true)
    } else if oks.len() == 0 || !oks[0] {
        (fs, false)
    } else {
        run_ops(apply_op(fs, ops[0], tree), ops.drop_first(), oks.drop_first(), tree)
    }
}

/// The run reached the final rename and that rename itself failed.
pub open spec fn rename_step_failed(plan: RenamePlanModel, oks: Seq<bool>) -> bool {
    &&& plan.ops.len() > 0
    &&& forall|j: int| 0 <= j < plan.ops.len() - 1 ==> oks[j]
    &&& !oks[plan.ops.len() - 1]
}

/// Performing a rename plan under its protocol: run the actions; when the
/// final rename itself fails, the working file is deleted before the
/// failure is reported.
pub open spec fn run_rename_plan(
    fs: Set<Seq<u8>>,
    plan: RenamePlanModel,
    oks: Seq<bool>,
    tree: Map<Seq<u8>, Set<Seq<u8>>>,
) -> (Set<Seq<u8>>, bool) {
    let (fs1, ok) = run_ops(fs, plan.ops, oks, tree);
    if !ok && rename_step_failed(plan, oks) {
        (fs1.remove(plan.workfile), false)
    } else {
        (fs1, ok)
    }
}

/// A run over matching outcome and action sequences succeeds exactly when
/// every outcome is a success.
pub proof fn lemma_run_ok_iff_all_true(
    fs: Set<Seq<u8>>,
    ops: Seq<OpModel>,
    oks: Seq<bool>,
    tree: Map<Seq<u8>, Set<Seq<u8>>>,
)
    requires
        oks.len() == ops.len(),
    ensures
        run_ops(fs, ops, oks, tree).1 <==> (forall|j: int| 0 <= j < oks.len() ==> oks[j]),
    decreases ops.len(),
{
    if ops.len() > 0 && oks[0] {
        lemma_run_ok_iff_all_true(apply_op(fs, ops[0], tree), ops.drop_first(), oks.drop_first(), tree);
        if run_ops(fs, ops, oks, tree).1 {
            assert forall|j: int| 0 <= j < oks.len() implies oks[j] by {
                if j > 0 {
                    assert(oks.drop_first()[j - 1]);
                }
            }
        } else {
            assert(!(forall|j: int| 0 <= j < oks.drop_first().len() ==> oks.drop_first()[j]));
            let j = choose|j: int| 0 <= j < oks.drop_first().len() && !oks.drop_first()[j];
            assert(!oks[j + 1]);
        }
    }
}

/// A run over one more action decomposes into the run over the prefix
/// followed by that action.
pub proof fn lemma_run_snoc(
    fs: Set<Seq<u8>>,
    ops: Seq<OpModel>,
    oks: Seq<bool>,
    op: OpModel,
    ok: bool,
    tree: Map<Seq<u8>, Set<Seq<u8>>>,
)
    requires
        oks.len() == ops.len(),
    ensures
        run_ops(fs, ops.push(op), oks.push(ok), tree) == {
            let (fs1, ok1) = run_ops(fs, ops, oks, tree);
            if !ok1 {
                (fs1, false)
            } else if !ok {
                (fs1, false)
            } else {
                (apply_op(fs1, op, tree), true)
            }
        },
    decreases ops.len(),
{
    assert(ops.push(op)[0] == if ops.len() == 0 {
        op
    } else {
        ops[0]
    });
    assert(oks.push(ok)[0] == if oks.len() == 0 {
        ok
    } else {
        oks[0]
    });
    if ops.len() == 0 {
        assert(ops.push(op).drop_first() =~= Seq::<OpModel>::empty());
        assert(oks.push(ok).drop_first() =~= Seq::<bool>::empty());
        if ok {
            assert(run_ops(
                apply_op(fs, op, tree),
                Seq::<OpModel>::empty(),
                Seq::<bool>::empty(),
                tree,
            ) == (apply_op(fs, op, tree), true));
            assert(run_ops(fs, ops.push(op), oks.push(ok), tree) == (
                apply_op(fs, op, tree),
                true,
            ));
        }
    } else {
        if oks[0] {
            assert(ops.push(op).drop_first() =~= ops.drop_first().push(op));
            assert(oks.push(ok).drop_first() =~= oks.drop_first().push(ok));
            lemma_run_snoc(
                apply_op(fs, ops[0], tree),
                ops.drop_first(),
                oks.drop_first(),
                op,
                ok,
                tree,
            );
        }
    }
}

/// A path missing at the start is still missing after a run none of whose
/// performed actions create it.
pub proof fn lemma_run_missing(
    fs: Set<Seq<u8>>,
    ops: Seq<OpModel>,
    oks: Seq<bool>,
    w: Seq<u8>,
    tree: Map<Seq<u8>, Set<Seq<u8>>>,
)
    requires
        oks.len() == ops.len(),
        !fs.contains(w),
        forall|i: int|
            0 <= i < ops.len() && op_places(#[trigger] ops[i], tree).contains(w) ==> (exists|j: int|
                0 <= j <= i && !oks[j]),
    ensures
        !run_ops(fs, ops, oks, tree).0.contains(w),
    decreases ops.len(),
{
    if ops.len() > 0 && oks[0] {
        let fs1 = apply_op(fs, ops[0], tree);
        assert(!op_places(ops[0], tree).contains(w)) by {
            if op_places(ops[0], tree).contains(w) {
                let j = choose|j: int| 0 <= j <= 0 && !oks[j];
                assert(oks[0]);
            }
        }
        assert(!fs1.contains(w));
        assert forall|i: int|
            0 <= i < ops.drop_first().len() && op_places(
                #[trigger] ops.drop_first()[i],
                tree,
            ).contains(w) implies (exists|j: int| 0 <= j <= i && !oks.drop_first()[j]) by {
            assert(ops.drop_first()[i] == ops[i + 1]);
            let j = choose|j: int| 0 <= j <= i + 1 && !oks[j];
            assert(j >= 1);
            assert(!oks.drop_first()[j - 1]);
        }
        lemma_run_missing(fs1, ops.drop_first(), oks.drop_first(), w, tree);
    }
}

/// Performing a rename plan never leaves the working file behind, whatever
/// succeeds or fails, as long as nothing before the final archiving action
/// creates the working file and the destination differs from it.
pub proof fn lemma_rename_plan_no_workfile(
    fs: Set<Seq<u8>>,
    build_ops: Seq<OpModel>,
    w: Seq<u8>,
    dest: Seq<u8>,
    oks: Seq<bool>,
    tree: Map<Seq<u8>, Set<Seq<u8>>>,
)
    requires
        oks.len() == build_ops.len() + 1,
        !fs.contains(w),
        dest != w,
        forall|i: int|
            0 <= i < build_ops.len() - 1 ==> !op_places(#[trigger] build_ops[i], tree).contains(w),
    ensures
        !run_rename_plan(fs, spec_rename_plan(build_ops, w, dest), oks, tree).0.contains(w),
{
    let n = build_ops.len() as int;
    let plan = spec_rename_plan(build_ops, w, dest);
    let rename_op = OpModel::Rename { from: w, to: dest };
    let pre_oks = oks.take(n);
    assert(oks =~= pre_oks.push(oks[n]));
    assert(plan.ops == build_ops.push(rename_op));
    lemma_run_snoc(fs, build_ops, pre_oks, rename_op, oks[n], tree);
    let (fs1, ok1) = run_ops(fs, build_ops, pre_oks, tree);
    lemma_run_ok_iff_all_true(fs, build_ops, pre_oks, tree);
    if ok1 {
        if oks[n] {
            // the rename moved the working file to the destination
            assert(run_ops(fs, plan.ops, oks, tree) == (apply_op(fs1, rename_op, tree), true));
            assert(!apply_op(fs1, rename_op, tree).contains(w));
        } else {
            // the rename itself failed: the protocol deletes the working file
            assert(rename_step_failed(plan, oks));
            assert(run_rename_plan(fs, plan, oks, tree).0 == fs1.remove(w));
        }
    } else {
        // the build failed before the rename: the working file was never
        // created, since the only action that creates it is the final
        // archiving action, which a failed build never completes
        let jbad = choose|j: int| 0 <= j < pre_oks.len() && !pre_oks[j];
        assert(!rename_step_failed(plan, oks)) by {
            if rename_step_failed(plan, oks) {
                assert(oks[jbad]);
            }
        }
        assert forall|i: int|
            0 <= i < build_ops.len() && op_places(#[trigger] build_ops[i], tree).contains(
                w,
            ) implies (exists|j: int| 0 <= j <= i && !pre_oks[j]) by {
            if i < n - 1 {
                assert(!op_places(build_ops[i], tree).contains(w));
            } else {
                assert(0 <= jbad <= i && !pre_oks[jbad]);
            }
        }
        lemma_run_missing(fs, build_ops, pre_oks, w, tree);
        assert(run_rename_plan(fs, plan, oks, tree).0 == fs1);
    }
}

/// `p` lies strictly below `root`.
pub open spec fn under_root(p: Seq<u8>, root: Seq<u8>) -> bool {
    spec_has_prefix(p, root + seq![sep()])
}

/// Everything a staging action of one entry creates lies below the staging
/// root.
pub proof fn lemma_entry_stage_places_under_root(
    e: EntryModel,
    root: Seq<u8>,
    tree: Map<Seq<u8>, Set<Seq<u8>>>,
)
    ensures
        forall|i: int, p: Seq<u8>|
            0 <= i < entry_stage_ops(e, root).len() && #[trigger] op_places(
                entry_stage_ops(e, root)[i],
                tree,
            ).contains(p) ==> under_root(p, root),
{
    let ops = entry_stage_ops(e, root);
    let t = spec_join(root, entry_target_rel(e));
    assert forall|i: int, p: Seq<u8>|
        0 <= i < ops.len() && #[trigger] op_places(ops[i], tree).contains(p) implies under_root(
        p,
        root,
    ) by {
        lemma_join_strip(root, entry_target_rel(e));
        if e.file_type == FileType::File {
            assert(i == 1 ==> p == t);
        } else {
            if i == 1 {
                let c = choose|c: Seq<u8>| tree[e.path].contains(c) && p == spec_join(t, c);
                assert(p =~= spec_join(root, entry_target_rel(e) + seq![sep()] + c));
                lemma_join_strip(root, entry_target_rel(e) + seq![sep()] + c);
            }
        }
    }
}

/// Everything the staging actions of a whole set create lies below the
/// shared staging root.
pub proof fn lemma_set_stage_places_under_root(
    es: Seq<EntryModel>,
    root: Seq<u8>,
    tree: Map<Seq<u8>, Set<Seq<u8>>>,
)
    ensures
        forall|i: int, p: Seq<u8>|
            0 <= i < set_stage_ops(es, root).len() && #[trigger] op_places(
                set_stage_ops(es, root)[i],
                tree,
            ).contains(p) ==> under_root(p, root),
    decreases es.len(),
{
    if es.len() > 0 {
        lemma_entry_stage_places_under_root(es[0], root, tree);
        lemma_set_stage_places_under_root(es.drop_first(), root, tree);
        let head = entry_stage_ops(es[0], root);
        let rest = set_stage_ops(es.drop_first(), root);
        assert forall|i: int, p: Seq<u8>|
            0 <= i < set_stage_ops(es, root).len() && #[trigger] op_places(
                set_stage_ops(es, root)[i],
                tree,
            ).contains(p) implies under_root(p, root) by {
            if i < head.len() {
                assert(set_stage_ops(es, root)[i] == head[i]);
            } else {
                assert(set_stage_ops(es, root)[i] == rest[i - head.len()]);
            }
        }
    }
}

/// A single entry's build-and-rename leaves no working file behind: the
/// plan of `ArchiveFile::zip_and_rename`, performed under its protocol with
/// any pattern of successes and failures, ends with no file at the working
/// path — it was renamed to the destination, deleted after a failed rename,
/// or never created.  Holds whenever the working file did not already
/// exist, does not coincide with the destination, and does not lie under
/// the fresh staging root.
pub proof fn lemma_entry_build_and_rename_no_workfile(
    fs: Set<Seq<u8>>,
    e: EntryModel,
    root: Seq<u8>,
    to: Seq<u8>,
    w: Seq<u8>,
    oks: Seq<bool>,
    tree: Map<Seq<u8>, Set<Seq<u8>>>,
)
    requires
        w == spec_with_extension(to, spec_zip_ext()),
        oks.len() == entry_zip_ops(e, root, w).len() + 1,
        !fs.contains(w),
        to != w,
        !under_root(w, root),
    ensures
        !run_rename_plan(
            fs,
            spec_rename_plan(entry_zip_ops(e, root, w), w, to),
            oks,
            tree,
        ).0.contains(w),
{
    let build = entry_zip_ops(e, root, w);
    assert forall|i: int| 0 <= i < build.len() - 1 implies !op_places(
        #[trigger] build[i],
        tree,
    ).contains(w) by {
        if e.should_copy {
            lemma_entry_stage_places_under_root(e, root, tree);
            assert(build[i] == entry_stage_ops(e, root)[i]);
        }
    }
    lemma_rename_plan_no_workfile(fs, build, w, to, oks, tree);
}

/// The whole set's build-and-rename leaves no working file behind, under
/// the same conditions as the single-entry form.
pub proof fn lemma_set_build_and_rename_no_workfile(
    fs: Set<Seq<u8>>,
    es: Seq<EntryModel>,
    root: Seq<u8>,
    to: Seq<u8>,
    w: Seq<u8>,
    oks: Seq<bool>,
    tree: Map<Seq<u8>, Set<Seq<u8>>>,
)
    requires
        w == spec_with_extension(to, spec_zip_ext()),
        oks.len() == set_stage_ops(es, root).len() + 2,
        !fs.contains(w),
        to != w,
        !under_root(w, root),
    ensures
        !run_rename_plan(
            fs,
            spec_rename_plan(
                set_stage_ops(es, root).push(OpModel::ZipDir { archive: w, root: root }),
                w,
                to,
            ),
            oks,
            tree,
        ).0.contains(w),
{
    let build = set_stage_ops(es, root).push(OpModel::ZipDir { archive: w, root: root });
    assert forall|i: int| 0 <= i < build.len() - 1 implies !op_places(
        #[trigger] build[i],
        tree,
    ).contains(w) by {
        lemma_set_stage_places_under_root(es, root, tree);
        assert(build[i] == set_stage_ops(es, root)[i]);
        assert(op_places(set_stage_ops(es, root)[i], tree).contains(w) ==> under_root(w, root));
    }
    lemma_rename_plan_no_workfile(fs, build, w, to, oks, tree);
}

/// The relative archive names one entry contributes: its resolved position
/// for a regular file; for a directory, each of the source's files
/// relocated directly below the resolved position.
pub open spec fn entry_placed_rel(e: EntryModel, tree: Map<Seq<u8>, Set<Seq<u8>>>) -> Set<
    Seq<u8>,
> {
    if e.file_type == FileType::File {
        Set::empty().insert(entry_target_rel(e))
    } else {
        tree[e.path].map(|c: Seq<u8>| spec_join(entry_target_rel(e), c))
    }
}

/// The relative archive names of a whole set.  Takes no staging root: the
/// names inside the archive do not depend on where staging happened.
pub open spec fn set_placed_rel(es: Seq<EntryModel>, tree: Map<Seq<u8>, Set<Seq<u8>>>) -> Set<
    Seq<u8>,
>
    decreases es.len(),
{
    if es.len() == 0 {
        Set::empty()
    } else {
        entry_placed_rel(es[0], tree).union(set_placed_rel(es.drop_first(), tree))
    }
}

pub proof fn lemma_run_all_concat(
    fs: Set<Seq<u8>>,
    a: Seq<OpModel>,
    b: Seq<OpModel>,
    tree: Map<Seq<u8>, Set<Seq<u8>>>,
)
    ensures
        run_all(fs, a + b, tree) == run_all(run_all(fs, a, tree), b, tree),
    decreases a.len(),
{
    if a.len() == 0 {
        assert(a + b =~= b);
    } else {
        assert((a + b)[0] == a[0]);
        assert((a + b).drop_first() =~= a.drop_first() + b);
        lemma_run_all_concat(apply_op(fs, a[0], tree), a.drop_first(), b, tree);
    }
}

/// Staging one entry adds exactly its relative names, joined onto the
/// staging root, to the filesystem.
pub proof fn lemma_entry_stage_contents(
    fs: Set<Seq<u8>>,
    e: EntryModel,
    root: Seq<u8>,
    tree: Map<Seq<u8>, Set<Seq<u8>>>,
)
    requires
        entry_placeable(e),
    ensures
        run_all(fs, entry_stage_ops(e, root), tree) =~= fs.union(
            entry_placed_rel(e, tree).map(|n: Seq<u8>| spec_join(root, n)),
        ),
{
    let ops = entry_stage_ops(e, root);
    let rel = entry_target_rel(e);
    let t = spec_join(root, rel);
    let fs1 = apply_op(fs, ops[0], tree);
    assert(ops.drop_first()[0] == ops[1]);
    assert(ops.drop_first().drop_first() =~= Seq::<OpModel>::empty());
    assert(run_all(fs, ops, tree) == run_all(fs1, ops.drop_first(), tree));
    assert(run_all(fs1, ops.drop_first(), tree) == run_all(
        apply_op(fs1, ops[1], tree),
        Seq::<OpModel>::empty(),
        tree,
    ));
    assert(fs1 =~= fs);
    let result = apply_op(fs1, ops[1], tree);
    let mapped = entry_placed_rel(e, tree).map(|n: Seq<u8>| spec_join(root, n));
    assert forall|p: Seq<u8>| result.contains(p) implies fs.union(mapped).contains(p) by {
        if !fs.contains(p) {
            if e.file_type == FileType::File {
                assert(entry_placed_rel(e, tree).contains(rel));
            } else {
                let c = choose|c: Seq<u8>| tree[e.path].contains(c) && p == spec_join(t, c);
                assert(spec_join(t, c) =~= spec_join(root, spec_join(rel, c)));
                assert(entry_placed_rel(e, tree).contains(spec_join(rel, c)));
            }
        }
    }
    assert forall|p: Seq<u8>| fs.union(mapped).contains(p) implies result.contains(p) by {
        if mapped.contains(p) {
            let n = choose|n: Seq<u8>|
                entry_placed_rel(e, tree).contains(n) && p == spec_join(root, n);
            if e.file_type == FileType::File {
                assert(n == rel);
            } else {
                let c = choose|c: Seq<u8>| tree[e.path].contains(c) && n == spec_join(rel, c);
                assert(spec_join(root, n) =~= spec_join(t, c));
                assert(op_places(ops[1], tree).contains(spec_join(t, c)));
            }
        }
    }
}

/// Staging a whole set into a shared root adds exactly the set's relative
/// names, joined onto that root.
pub proof fn lemma_set_stage_contents(
    fs: Set<Seq<u8>>,
    es: Seq<EntryModel>,
    root: Seq<u8>,
    tree: Map<Seq<u8>, Set<Seq<u8>>>,
)
    requires
        all_placeable(es),
    ensures
        run_all(fs, set_stage_ops(es, root), tree) =~= fs.union(
            set_placed_rel(es, tree).map(|n: Seq<u8>| spec_join(root, n)),
        ),
    decreases es.len(),
{
    if es.len() == 0 {
        assert(run_all(fs, set_stage_ops(es, root), tree) == fs);
        assert(set_placed_rel(es, tree).map(|n: Seq<u8>| spec_join(root, n)) =~= Set::<
            Seq<u8>,
        >::empty());
    } else {
        let head_ops = entry_stage_ops(es[0], root);
        let rest = es.drop_first();
        lemma_run_all_concat(fs, head_ops, set_stage_ops(rest, root), tree);
        lemma_entry_stage_contents(fs, es[0], root, tree);
        assert(all_placeable(rest)) by {
            assert(forall|j: int|
                0 <= j < rest.len() ==> #[trigger] rest[j] == es[j + 1] && entry_placeable(
                    es[j + 1],
                ));
        }
        let fs1 = run_all(fs, head_ops, tree);
        lemma_set_stage_contents(fs1, rest, root, tree);
        let f = |n: Seq<u8>| spec_join(root, n);
        assert forall|p: Seq<u8>|
            run_all(fs, set_stage_ops(es, root), tree).contains(p) implies fs.union(
            set_placed_rel(es, tree).map(f),
        ).contains(p) by {
            if !fs.contains(p) {
                if entry_placed_rel(es[0], tree).map(f).contains(p) {
                    let n = choose|n: Seq<u8>|
                        entry_placed_rel(es[0], tree).contains(n) && p == f(n);
                    assert(set_placed_rel(es, tree).contains(n));
                } else {
                    let n = choose|n: Seq<u8>|
                        set_placed_rel(rest, tree).contains(n) && p == f(n);
                    assert(set_placed_rel(es, tree).contains(n));
                }
            }
        }
        assert forall|p: Seq<u8>|
            fs.union(set_placed_rel(es, tree).map(f)).contains(p) implies run_all(
            fs,
            set_stage_ops(es, root),
            tree,
        ).contains(p) by {
            if set_placed_rel(es, tree).map(f).contains(p) {
                let n = choose|n: Seq<u8>| set_placed_rel(es, tree).contains(n) && p == f(n);
                if entry_placed_rel(es[0], tree).contains(n) {
                    assert(entry_placed_rel(es[0], tree).map(f).contains(p));
                } else {
                    assert(set_placed_rel(rest, tree).map(f).contains(p));
                }
            }
        }
    }
}

/// A directory entry staged at a declared position lands the source's
/// files directly below that position — `pos/c` for each source file `c`,
/// never `pos/<source directory name>/c`.
pub proof fn lemma_dir_entry_children_under_position(
    fs: Set<Seq<u8>>,
    e: EntryModel,
    root: Seq<u8>,
    pos: Seq<u8>,
    tree: Map<Seq<u8>, Set<Seq<u8>>>,
)
    requires
        e.file_type == FileType::Dir,
        e.position == Some(pos),
    ensures
        forall|c: Seq<u8>| #[trigger]
            tree[e.path].contains(c) ==> run_all(fs, entry_stage_ops(e, root), tree).contains(
                spec_join(root, spec_join(pos, c)),
            ),
        forall|p: Seq<u8>| #[trigger]
            run_all(fs, entry_stage_ops(e, root), tree).contains(p) ==> fs.contains(p) || (
            exists|c: Seq<u8>|
                tree[e.path].contains(c) && p == spec_join(root, spec_join(pos, c))),
{
    lemma_entry_stage_contents(fs, e, root, tree);
    let f = |n: Seq<u8>| spec_join(root, n);
    assert forall|c: Seq<u8>| #[trigger] tree[e.path].contains(c) implies run_all(
        fs,
        entry_stage_ops(e, root),
        tree,
    ).contains(spec_join(root, spec_join(pos, c))) by {
        assert(entry_placed_rel(e, tree).contains(spec_join(pos, c)));
        assert(entry_placed_rel(e, tree).map(f).contains(f(spec_join(pos, c))));
    }
    assert forall|p: Seq<u8>| #[trigger]
        run_all(fs, entry_stage_ops(e, root), tree).contains(p) && !fs.contains(p) implies (
    exists|c: Seq<u8>|
        tree[e.path].contains(c) && p == spec_join(root, spec_join(pos, c))) by {
        let n = choose|n: Seq<u8>| entry_placed_rel(e, tree).contains(n) && p == f(n);
        let c = choose|c: Seq<u8>|
            tree[e.path].contains(c) && n == spec_join(entry_target_rel(e), c);
        assert(p == spec_join(root, spec_join(pos, c)));
    }
}

/// Archiving a staged set records no trace of the staging root: every file
/// staged into a fresh root relativizes, by stripping the root and its
/// separator, to a name drawn from `set_placed_rel` — a set computed
/// without reference to the root — and every such name is present.
pub proof fn lemma_archive_names_root_free(
    es: Seq<EntryModel>,
    root: Seq<u8>,
    tree: Map<Seq<u8>, Set<Seq<u8>>>,
)
    requires
        all_placeable(es),
    ensures
        forall|p: Seq<u8>| #[trigger]
            run_all(Set::empty(), set_stage_ops(es, root), tree).contains(p) ==> under_root(
                p,
                root,
            ) && set_placed_rel(es, tree).contains(spec_strip_prefix(p, root + seq![sep()])),
        forall|n: Seq<u8>| #[trigger]
            set_placed_rel(es, tree).contains(n) ==> run_all(
                Set::empty(),
                set_stage_ops(es, root),
                tree,
            ).contains(spec_join(root, n)),
{
    lemma_set_stage_contents(Set::empty(), es, root, tree);
    let f = |n: Seq<u8>| spec_join(root, n);
    let staged = run_all(Set::empty(), set_stage_ops(es, root), tree);
    assert forall|p: Seq<u8>| #[trigger] staged.contains(p) implies under_root(p, root)
        && set_placed_rel(es, tree).contains(spec_strip_prefix(p, root + seq![sep()])) by {
        let n = choose|n: Seq<u8>| set_placed_rel(es, tree).contains(n) && p == f(n);
        lemma_join_strip(root, n);
    }
    assert forall|n: Seq<u8>| #[trigger] set_placed_rel(es, tree).contains(n) implies staged
        .contains(spec_join(root, n)) by {
        assert(set_placed_rel(es, tree).map(f).contains(f(n)));
    }
}

} // verus!
