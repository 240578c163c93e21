//! The plan that brings a local folder to a target content tree, and the
//! progress events reported while it runs.
use vstd::prelude::*;
use crate::tree::{Directory, WalkEntry, lemma_walk_paths_distinct, plain_names, walk_dir, walk_view};

verus! {

/// A file found under the local root: its path relative to the root and the
/// lowercase hex SHA-256 digest of its bytes.
#[derive(Debug, Clone, PartialEq, Eq)]
pub struct LocalFile {
    pub path: String,
    pub sha: String,
}

/// What a sync does: `download[i]` for the `i`-th file of the target walk,
/// `delete[j]` for the `j`-th local file; `total` files are processed.
#[derive(Debug, Clone, PartialEq, Eq)]
pub struct SyncPlan {
    pub total: usize,
    pub download: Vec<bool>,
    pub delete: Vec<bool>,
}

/// A progress event of a sync.
#[derive(Debug, Clone, PartialEq, Eq)]
pub enum UpgradeStatus {
    /// The number of files that the sync processes; sent once, first.
    Length(usize),
    /// One file processed, downloaded or not.
    Tick,
}

/// Whether some local file has path `path` and digest `sha`.
pub open spec fn has_match(local: Seq<LocalFile>, path: Seq<char>, sha: Seq<char>) -> bool {
    exists|j: int| 0 <= j < local.len() && #[trigger] local[j].path@ == path && local[j].sha@ == sha
}

/// A target file is downloaded when no local file at its path has its digest.
pub open spec fn needs_download(t: WalkEntry, local: Seq<LocalFile>) -> bool {
    !has_match(local, t.path@, t.file.sha@)
}

/// Whether the target tree has a file at `path`.
pub open spec fn in_target(target: Seq<WalkEntry>, path: Seq<char>) -> bool {
    exists|i: int| 0 <= i < target.len() && #[trigger] target[i].path@ == path
}

/// Whether a download of the target replaces local file `l`.
pub open spec fn overwritten(l: LocalFile, target: Seq<WalkEntry>, local: Seq<LocalFile>) -> bool {
    exists|i: int| 0 <= i < target.len() && #[trigger] target[i].path@ == l.path@ && needs_download(target[i], local)
}

/// No two target files share a path.
pub open spec fn target_paths_unique(target: Seq<WalkEntry>) -> bool {
    forall|a: int, b: int| 0 <= a < target.len() && 0 <= b < target.len() && a != b ==> target[a].path@ != target[b].path@
}

/// No two local files share a path.
pub open spec fn local_paths_unique(local: Seq<LocalFile>) -> bool {
    forall|a: int, b: int| 0 <= a < local.len() && 0 <= b < local.len() && a != b ==> local[a].path@ != local[b].path@
}

/// Whether file `e` was written by the sync (a target file that needed a
/// download) or kept by it (a local file in the target, not replaced).
pub open spec fn sync_source(target: Seq<WalkEntry>, local: Seq<LocalFile>, e: LocalFile) -> bool {
    ||| exists|i: int| 0 <= i < target.len() && #[trigger] target[i].path@ == e.path@
        && target[i].file.sha@ == e.sha@ && needs_download(target[i], local)
    ||| exists|j: int| 0 <= j < local.len() && #[trigger] local[j].path@ == e.path@
        && local[j].sha@ == e.sha@ && in_target(target, local[j].path@)
        && !overwritten(local[j], target, local)
}

/// `after` is the local folder once a sync of `target` has run on `local`:
/// the target files that needed a download, with their target digests, and
/// the local files that are in the target and were not replaced.
pub open spec fn synced_state(target: Seq<WalkEntry>, local: Seq<LocalFile>, after: Seq<LocalFile>) -> bool {
    &&& forall|k: int| 0 <= k < after.len() ==> #[trigger] sync_source(target, local, after[k])
    &&& forall|i: int| 0 <= i < target.len() && needs_download(target[i], local)
        ==> has_match(after, #[trigger] target[i].path@, target[i].file.sha@)
    &&& forall|j: int| 0 <= j < local.len() && in_target(target, local[j].path@) && !overwritten(local[j], target, local)
        ==> has_match(after, #[trigger] local[j].path@, local[j].sha@)
}

/// Plans a sync of `target` (the walk of the target tree) onto the local
/// files `local`: a file is downloaded unless a local file at its path has its
/// digest, and a local file is deleted when the target has no file at its path.
pub fn plan_sync(target: &Vec<WalkEntry>, local: &Vec<LocalFile>) -> (r: SyncPlan)
    ensures
        r.total == target@.len(),
        r.download@.len() == target@.len(),
        forall|i: int| 0 <= i < target@.len() ==> r.download@[i] == needs_download(#[trigger] target@[i], local@),
        r.delete@.len() == local@.len(),
        forall|j: int| 0 <= j < local@.len() ==> r.delete@[j] == !in_target(target@, #[trigger] local@[j].path@),
{
    let mut download: Vec<bool> = Vec::new();
    let mut i: usize = 0;
    while i < target.len()
        invariant
            0 <= i <= target@.len(),
            download@.len() == i,
            forall|a: int| 0 <= a < i ==> download@[a] == needs_download(#[trigger] target@[a], local@),
        decreases target@.len() - i,
    {
        let mut found = false;
        let mut j: usize = 0;
        while j < local.len()
            invariant
                0 <= i < target@.len(),
                0 <= j <= local@.len(),
                found == exists|b: int| 0 <= b < j && #[trigger] local@[b].path@ == target@[i as int].path@
                    && local@[b].sha@ == target@[i as int].file.sha@,
            decreases local@.len() - j,
        {
            if local[j].path == target[i].path && local[j].sha == target[i].file.sha {
                found = true;
            }
            j = j + 1;
        }
        download.push(!found);
        i = i + 1;
    }
    let mut delete: Vec<bool> = Vec::new();
    let mut j: usize = 0;
    while j < local.len()
        invariant
            0 <= j <= local@.len(),
            delete@.len() == j,
            forall|b: int| 0 <= b < j ==> delete@[b] == !in_target(target@, #[trigger] local@[b].path@),
        decreases local@.len() - j,
    {
        let mut found = false;
        let mut k: usize = 0;
        while k < target.len()
            invariant
                0 <= j < local@.len(),
                0 <= k <= target@.len(),
                found == exists|a: int| 0 <= a < k && #[trigger] target@[a].path@ == local@[j as int].path@,
            decreases target@.len() - k,
        {
            if target[k].path == local[j].path {
                found = true;
            }
            k = k + 1;
        }
        delete.push(!found);
        j = j + 1;
    }
    SyncPlan { total: target.len(), download, delete }
}


/// Whether the target has a file at the path of `e` with the digest of `e`.
pub open spec fn target_has(target: Seq<WalkEntry>, e: LocalFile) -> bool {
    exists|i: int| 0 <= i < target.len() && #[trigger] target[i].path@ == e.path@ && target[i].file.sha@ == e.sha@
}

/// The local files once a sync of `target` onto `local` has run: the local
/// files kept, in order, then the target files downloaded, in order.
pub fn sync_result(target: &Vec<WalkEntry>, local: &Vec<LocalFile>) -> (r: Vec<LocalFile>)
    ensures
        synced_state(target@, local@, r@),
{
    let plan = plan_sync(target, local);
    let mut r: Vec<LocalFile> = Vec::new();
    let mut j: usize = 0;
    while j < local.len()
        invariant
            0 <= j <= local@.len(),
            plan.download@.len() == target@.len(),
            forall|i: int| 0 <= i < target@.len() ==> plan.download@[i] == needs_download(#[trigger] target@[i], local@),
            plan.delete@.len() == local@.len(),
            forall|b: int| 0 <= b < local@.len() ==> plan.delete@[b] == !in_target(target@, #[trigger] local@[b].path@),
            forall|k: int| 0 <= k < r@.len() ==> #[trigger] sync_source(target@, local@, r@[k]),
            forall|b: int| 0 <= b < j && in_target(target@, local@[b].path@) && !overwritten(local@[b], target@, local@)
                ==> has_match(r@, #[trigger] local@[b].path@, local@[b].sha@),
        decreases local@.len() - j,
    {
        let mut replaced = false;
        let mut i: usize = 0;
        while i < target.len()
            invariant
                0 <= j < local@.len(),
                0 <= i <= target@.len(),
                plan.download@.len() == target@.len(),
                forall|a: int| 0 <= a < target@.len() ==> plan.download@[a] == needs_download(#[trigger] target@[a], local@),
                replaced == exists|a: int| 0 <= a < i && #[trigger] target@[a].path@ == local@[j as int].path@
                    && needs_download(target@[a], local@),
            decreases target@.len() - i,
        {
            if plan.download[i] && target[i].path == local[j].path {
                replaced = true;
            }
            i = i + 1;
        }
        let ghost before = r@;
        if !plan.delete[j] && !replaced {
            let l = LocalFile { path: local[j].path.clone(), sha: local[j].sha.clone() };
            r.push(l);
            proof {
                let e = r@[r@.len() - 1];
                assert(in_target(target@, local@[j as int].path@));
                assert(!overwritten(local@[j as int], target@, local@));
                assert(local@[j as int].path@ == e.path@ && local@[j as int].sha@ == e.sha@);
                assert(sync_source(target@, local@, e));
            }
        }
        proof {
            assert forall|k: int| 0 <= k < r@.len() implies #[trigger] sync_source(target@, local@, r@[k]) by {
                if k < before.len() {
                    assert(r@[k] == before[k]);
                }
            }
            assert forall|b: int| 0 <= b < j + 1 && in_target(target@, local@[b].path@) && !overwritten(local@[b], target@, local@)
                implies has_match(r@, #[trigger] local@[b].path@, local@[b].sha@) by {
                if b < j {
                    let w = choose|w: int| 0 <= w < before.len() && #[trigger] before[w].path@ == local@[b].path@ && before[w].sha@ == local@[b].sha@;
                    assert(r@[w] == before[w]);
                } else {
                    assert(r@[r@.len() - 1].path@ == local@[b].path@);
                }
            }
        }
        j = j + 1;
    }
    let mut i: usize = 0;
    while i < target.len()
        invariant
            0 <= i <= target@.len(),
            plan.download@.len() == target@.len(),
            forall|a: int| 0 <= a < target@.len() ==> plan.download@[a] == needs_download(#[trigger] target@[a], local@),
            forall|k: int| 0 <= k < r@.len() ==> #[trigger] sync_source(target@, local@, r@[k]),
            forall|b: int| 0 <= b < local@.len() && in_target(target@, local@[b].path@) && !overwritten(local@[b], target@, local@)
                ==> has_match(r@, #[trigger] local@[b].path@, local@[b].sha@),
            forall|a: int| 0 <= a < i && needs_download(target@[a], local@)
                ==> has_match(r@, #[trigger] target@[a].path@, target@[a].file.sha@),
        decreases target@.len() - i,
    {
        let ghost before = r@;
        if plan.download[i] {
            let l = LocalFile { path: target[i].path.clone(), sha: target[i].file.sha.clone() };
            r.push(l);
            proof {
                let e = r@[r@.len() - 1];
                assert(needs_download(target@[i as int], local@));
                assert(target@[i as int].path@ == e.path@ && target@[i as int].file.sha@ == e.sha@);
                assert(sync_source(target@, local@, e));
            }
        }
        proof {
            assert forall|k: int| 0 <= k < r@.len() implies #[trigger] sync_source(target@, local@, r@[k]) by {
                if k < before.len() {
                    assert(r@[k] == before[k]);
                }
            }
            assert forall|b: int| 0 <= b < local@.len() && in_target(target@, local@[b].path@) && !overwritten(local@[b], target@, local@)
                implies has_match(r@, #[trigger] local@[b].path@, local@[b].sha@) by {
                let w = choose|w: int| 0 <= w < before.len() && #[trigger] before[w].path@ == local@[b].path@ && before[w].sha@ == local@[b].sha@;
                assert(r@[w] == before[w]);
            }
            assert forall|a: int| 0 <= a < i + 1 && needs_download(target@[a], local@)
                implies has_match(r@, #[trigger] target@[a].path@, target@[a].file.sha@) by {
                if a < i {
                    let w = choose|w: int| 0 <= w < before.len() && #[trigger] before[w].path@ == target@[a].path@ && before[w].sha@ == target@[a].file.sha@;
                    assert(r@[w] == before[w]);
                } else {
                    assert(r@[r@.len() - 1].path@ == target@[a].path@);
                }
            }
        }
        i = i + 1;
    }
    r
}

/// After a sync, every file of the target is present locally with its target
/// digest, and every local file is at a path of the target, with the digest
/// that the target gives there.
pub proof fn lemma_sync_matches_target(target: Seq<WalkEntry>, local: Seq<LocalFile>, after: Seq<LocalFile>)
    requires
        target_paths_unique(target),
        local_paths_unique(local),
        synced_state(target, local, after),
    ensures
        forall|i: int| 0 <= i < target.len() ==> has_match(after, #[trigger] target[i].path@, target[i].file.sha@),
        forall|k: int| 0 <= k < after.len() ==> target_has(target, #[trigger] after[k]),
{
    assert forall|i: int| 0 <= i < target.len() implies has_match(after, #[trigger] target[i].path@, target[i].file.sha@) by {
        if !needs_download(target[i], local) {
            let j = choose|j: int| 0 <= j < local.len() && #[trigger] local[j].path@ == target[i].path@
                && local[j].sha@ == target[i].file.sha@;
            assert(in_target(target, local[j].path@));
            if overwritten(local[j], target, local) {
                let i2 = choose|i2: int| 0 <= i2 < target.len() && #[trigger] target[i2].path@ == local[j].path@
                    && needs_download(target[i2], local);
                assert(i2 == i);
            }
            assert(has_match(after, local[j].path@, local[j].sha@));
        }
    }
    assert forall|k: int| 0 <= k < after.len() implies target_has(target, #[trigger] after[k]) by {
        assert(sync_source(target, local, after[k]));
        if !(exists|i: int| 0 <= i < target.len() && #[trigger] target[i].path@ == after[k].path@
            && target[i].file.sha@ == after[k].sha@ && needs_download(target[i], local)) {
            let j = choose|j: int| 0 <= j < local.len() && #[trigger] local[j].path@ == after[k].path@
                && local[j].sha@ == after[k].sha@ && in_target(target, local[j].path@)
                && !overwritten(local[j], target, local);
            let i = choose|i: int| 0 <= i < target.len() && #[trigger] target[i].path@ == local[j].path@;
            assert(!needs_download(target[i], local));
            let j2 = choose|j2: int| 0 <= j2 < local.len() && #[trigger] local[j2].path@ == target[i].path@
                && local[j2].sha@ == target[i].file.sha@;
            assert(j2 == j);
            assert(target[i].path@ == after[k].path@ && target[i].file.sha@ == after[k].sha@);
        }
    }
}

/// A second sync of the same target on the folder that a sync left behind
/// downloads nothing.
pub proof fn lemma_sync_idempotent(target: Seq<WalkEntry>, local: Seq<LocalFile>, after: Seq<LocalFile>)
    requires
        target_paths_unique(target),
        local_paths_unique(local),
        synced_state(target, local, after),
    ensures
        forall|i: int| 0 <= i < target.len() ==> !needs_download(#[trigger] target[i], after),
{
    lemma_sync_matches_target(target, local, after);
    assert forall|i: int| 0 <= i < target.len() implies !needs_download(#[trigger] target[i], after) by {
        assert(has_match(after, target[i].path@, target[i].file.sha@));
    }
}

/// For the walk of a well-formed target tree whose names hold no `/`: after
/// a sync, every file of the tree is present locally with its digest, every
/// local file is at a path of the tree with the digest given there, and a
/// second sync downloads nothing.
pub proof fn lemma_tree_sync(d: Directory, target: Seq<WalkEntry>, local: Seq<LocalFile>, after: Seq<LocalFile>)
    requires
        d.wf(),
        plain_names(d),
        walk_view(target) == walk_dir(d, Seq::empty()),
        local_paths_unique(local),
        synced_state(target, local, after),
    ensures
        forall|i: int| 0 <= i < target.len() ==> has_match(after, #[trigger] target[i].path@, target[i].file.sha@),
        forall|k: int| 0 <= k < after.len() ==> target_has(target, #[trigger] after[k]),
        forall|i: int| 0 <= i < target.len() ==> !needs_download(#[trigger] target[i], after),
{
    lemma_walk_paths_distinct(d, target);
    lemma_sync_matches_target(target, local, after);
    lemma_sync_idempotent(target, local, after);
}

/// The progress events of a sync of `total` files: the count, then one tick
/// per file.
pub open spec fn progress_spec(total: nat) -> Seq<UpgradeStatus> {
    seq![UpgradeStatus::Length(total as usize)] + Seq::new(total, |i: int| UpgradeStatus::Tick)
}

/// The progress events that a sync following `plan` reports, in order.
pub fn progress_events(plan: &SyncPlan) -> (r: Vec<UpgradeStatus>)
    ensures
        r@ == progress_spec(plan.total as nat),
{
    let mut r: Vec<UpgradeStatus> = Vec::new();
    r.push(UpgradeStatus::Length(plan.total));
    let mut i: usize = 0;
    while i < plan.total
        invariant
            0 <= i <= plan.total,
            r@ == seq![UpgradeStatus::Length(plan.total)] + Seq::new(i as nat, |k: int| UpgradeStatus::Tick),
        decreases plan.total - i,
    {
        r.push(UpgradeStatus::Tick);
        i = i + 1;
        proof {
            assert(r@ =~= seq![UpgradeStatus::Length(plan.total)] + Seq::new(i as nat, |k: int| UpgradeStatus::Tick));
        }
    }
    r
}

/// What a consumer of progress events knows: the count, once it came, and
/// the ticks seen since.
#[derive(Debug, Clone, PartialEq, Eq)]
pub struct ProgressCounter {
    pub total: Option<usize>,
    pub done: usize,
}

impl ProgressCounter {
    /// A counter that has seen no event.
    pub fn new() -> (r: ProgressCounter)
        ensures
            r.total is None,
            r.done == 0,
    {
        ProgressCounter { total: None, done: 0 }
    }

    /// Takes one event. A count resets the ticks; a tick before any count is
    /// ignored, as is one beyond the count.
    pub fn record(&mut self, ev: &UpgradeStatus)
        ensures
            match *ev {
                UpgradeStatus::Length(n) => final(self).total == Some(n) && final(self).done == 0,
                UpgradeStatus::Tick => final(self).total == old(self).total && final(self).done == match old(self).total {
                    Some(n) => if old(self).done < n { (old(self).done + 1) as usize } else { old(self).done },
                    None => old(self).done,
                },
            },
    {
        match ev {
            UpgradeStatus::Length(n) => {
                self.total = Some(*n);
                self.done = 0;
            },
            UpgradeStatus::Tick => {
                if let Some(n) = self.total {
                    if self.done < n {
                        self.done = self.done + 1;
                    }
                }
            },
        }
    }
}

}
