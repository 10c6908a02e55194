//! The work calculator: diffing the replica against the server's updates
//! to produce the ordered queue of reconciliation work.

use vstd::prelude::*;

use crate::client::ClientState;
use crate::server::ServerState;
use crate::server::max_version;
use crate::server::updates_since;
use crate::types::FileMetadata;
use crate::types::FileMetadataView;

verus! {

/// One atomic reconciliation action: pushing a pending local change, or
/// pulling one observed server change. It carries a snapshot of the
/// metadata relevant to the change.
pub enum WorkUnit {
    LocalChange { metadata: FileMetadata },
    ServerChange { metadata: FileMetadata },
}

/// Mathematical image of [`WorkUnit`].
#[verifier::ext_equal]
pub enum WorkUnitView {
    LocalChange { metadata: FileMetadataView },
    ServerChange { metadata: FileMetadataView },
}

impl View for WorkUnit {
    type V = WorkUnitView;

    open spec fn view(&self) -> WorkUnitView {
        match self {
            WorkUnit::LocalChange { metadata } => WorkUnitView::LocalChange { metadata: metadata@ },
            WorkUnit::ServerChange { metadata } => WorkUnitView::ServerChange {
                metadata: metadata@,
            },
        }
    }
}

/// The metadata snapshot a work unit carries.
pub open spec fn unit_meta(w: WorkUnitView) -> FileMetadataView {
    match w {
        WorkUnitView::LocalChange { metadata } => metadata,
        WorkUnitView::ServerChange { metadata } => metadata,
    }
}

impl WorkUnit {
    /// Copies the unit; the copy has the same view.
    pub fn dup(&self) -> (r: WorkUnit)
        ensures
            r@ == self@,
    {
        match self {
            WorkUnit::LocalChange { metadata } => WorkUnit::LocalChange { metadata: metadata.dup() },
            WorkUnit::ServerChange { metadata } => WorkUnit::ServerChange {
                metadata: metadata.dup(),
            },
        }
    }

    /// The metadata snapshot this unit carries.
    pub fn get_metadata(&self) -> (r: &FileMetadata)
        ensures
            r@ == unit_meta(self@),
    {
        match self {
            WorkUnit::LocalChange { metadata } => metadata,
            WorkUnit::ServerChange { metadata } => metadata,
        }
    }
}

/// The ordered work of one reconciliation pass, together with the server
/// watermark to persist once every unit has succeeded.
pub struct WorkCalculated {
    pub work_units: Vec<WorkUnit>,
    pub most_recent_update_from_server: u64,
}

/// Whether a fetched server record demands reconciliation: an unknown id
/// only if it is not a tombstone (a deletion of a file the replica never
/// had needs no work), a known id only if the versions differ.
pub open spec fn keep_update(files: Map<u64, FileMetadataView>, u: FileMetadataView) -> bool {
    if files.contains_key(u.id) {
        files[u.id].metadata_version != u.metadata_version
    } else {
        !u.deleted
    }
}

/// The fetched server records that demand reconciliation, in fetch order.
pub open spec fn kept_updates(
    upds: Seq<FileMetadataView>,
    files: Map<u64, FileMetadataView>,
) -> Seq<FileMetadataView>
    decreases upds.len(),
{
    if upds.len() == 0 {
        Seq::empty()
    } else {
        let rest = kept_updates(upds.drop_last(), files);
        if keep_update(files, upds.last()) {
            rest + seq![upds.last()]
        } else {
            rest
        }
    }
}

/// Ascending server causality order: deletes of a folder must be observed
/// after the records the server produced before them.
pub open spec fn sorted_by_version(s: Seq<FileMetadataView>) -> bool {
    forall|i: int, j: int|
        0 <= i < j < s.len() ==> #[trigger] s[i].metadata_version <= #[trigger] s[j].metadata_version
}

/// Inserting anywhere into a sequence adds exactly one occurrence to its
/// multiset.
proof fn lemma_insert_multiset<A>(s: Seq<A>, i: int, x: A)
    requires
        0 <= i <= s.len(),
    ensures
        s.insert(i, x).to_multiset() =~= s.to_multiset().insert(x),
{
    broadcast use vstd::seq_lib::group_seq_properties;

    let t = s.insert(i, x);
    s.insert_ensures(i, x);
    t.to_multiset_ensures();
    s.to_multiset_ensures();
    assert(t.remove(i) =~= s);
    assert(t[i] == x);
    assert(s.to_multiset() =~= t.to_multiset().remove(x));
    assert(t.contains(x));
    assert(t.to_multiset().count(x) > 0);
    assert forall|a: A| t.to_multiset().count(a) == s.to_multiset().insert(x).count(a) by {
        if a == x {
            assert(t.to_multiset().remove(x).count(x) == t.to_multiset().count(x) - 1);
        } else {
            assert(t.to_multiset().remove(x).count(a) == t.to_multiset().count(a));
        }
    }
}

/// Sorts metadata snapshots by ascending `metadata_version`, preserving
/// the multiset of records.
fn sort_by_version(v: Vec<FileMetadata>) -> (r: Vec<FileMetadata>)
    ensures
        r@.len() == v@.len(),
        sorted_by_version(r@.map_values(|m: FileMetadata| m@)),
        r@.map_values(|m: FileMetadata| m@).to_multiset() == v@.map_values(
            |m: FileMetadata| m@,
        ).to_multiset(),
{
    let n = v.len();
    let mut out: Vec<FileMetadata> = Vec::new();
    let mut i: usize = 0;
    proof {
        assert(v@.subrange(0, 0).map_values(|m: FileMetadata| m@) =~= Seq::<
            FileMetadataView,
        >::empty());
        assert(out@.map_values(|m: FileMetadata| m@) =~= Seq::<FileMetadataView>::empty());
        Seq::<FileMetadataView>::empty().to_multiset_ensures();
    }
    while i < n
        invariant
            n == v@.len(),
            i <= n,
            out@.len() == i,
            sorted_by_version(out@.map_values(|m: FileMetadata| m@)),
            out@.map_values(|m: FileMetadata| m@).to_multiset() == v@.subrange(
                0,
                i as int,
            ).map_values(|m: FileMetadata| m@).to_multiset(),
        decreases n - i,
    {
        let x = v[i].dup();
        let m = out.len();
        let mut p: usize = 0;
        while p < m && out[p].metadata_version <= x.metadata_version
            invariant
                m == out@.len(),
                p <= m,
                forall|q: int| 0 <= q < p ==> #[trigger] out@[q]@.metadata_version <= x@.metadata_version,
            decreases m - p,
        {
            p = p + 1;
        }
        proof {
            assert(p < m ==> out@[p as int]@.metadata_version > x@.metadata_version);
        }
        let ghost pre = out@;
        out.insert(p, x);
        i = i + 1;
        proof {
            assert(out@ =~= pre.insert(p as int, x));
            pre.insert_ensures(p as int, x);
            let om = out@.map_values(|m: FileMetadata| m@);
            let pm = pre.map_values(|m: FileMetadata| m@);
            assert(om =~= pm.insert(p as int, x@));
            assert(sorted_by_version(om)) by {
                assert forall|a: int, b: int| 0 <= a < b < om.len() implies om[a].metadata_version
                    <= om[b].metadata_version by {
                    if b < p {
                        assert(om[a] == pm[a] && om[b] == pm[b]);
                    } else if a > p {
                        assert(om[a] == pm[a - 1] && om[b] == pm[b - 1]);
                    } else if a < p && b == p {
                        assert(om[a] == pm[a]);
                        assert(om[b] == x@);
                    } else if a == p {
                        assert(om[a] == x@);
                        assert(om[b] == pm[b - 1]);
                        assert(pm[b - 1].metadata_version > x@.metadata_version);
                    } else {
                        assert(a < p && b > p);
                        assert(om[a] == pm[a] && om[b] == pm[b - 1]);
                        if b - 1 == p {
                            assert(pm[p as int].metadata_version > x@.metadata_version);
                            assert(pm[a].metadata_version <= x@.metadata_version);
                        }
                    }
                }
            }
            lemma_insert_multiset(pm, p as int, x@);
            assert(v@.subrange(0, i as int) =~= v@.subrange(0, i - 1).push(v@[i - 1]));
            let s0 = v@.subrange(0, i - 1).map_values(|m: FileMetadata| m@);
            let s1 = v@.subrange(0, i as int).map_values(|m: FileMetadata| m@);
            assert(s1 =~= s0.push(v@[i - 1]@));
            s0.to_multiset_ensures();
            assert(s1.to_multiset() =~= s0.to_multiset().insert(x@));
        }
    }
    proof {
        assert(v@.subrange(0, n as int) =~= v@);
    }
    out
}

/// Computes one pass of reconciliation work.
///
/// Server records changed since the checkpoint are filtered to those that
/// demand work and sorted by ascending server version; one unit per
/// pending local change record follows, in the order the records were
/// opened. All server changes precede all local changes, so incoming
/// deletes and renames are reconciled before local pushes can collide
/// with them. The watermark is the largest server version seen, never
/// below the current checkpoint.
pub fn calculate_work(client: &ClientState, server: &ServerState) -> (r: WorkCalculated)
    requires
        client@.wf(),
        server@.wf(),
    ensures
        ({
            let upds = updates_since(server@.files_order, server@.files, client@.checkpoint);
            let kept = kept_updates(upds, client@.files);
            let ws = r.work_units@.map_values(|w: WorkUnit| w@);
            let sn = kept.len() as int;
            &&& r.most_recent_update_from_server == max_version(upds, client@.checkpoint)
            &&& ws.len() == kept.len() + client@.changes_order.len()
            &&& forall|i: int| 0 <= i < sn ==> (#[trigger] ws[i]) is ServerChange
            &&& ws.subrange(0, sn).map_values(|w: WorkUnitView| unit_meta(w)).to_multiset()
                == kept.to_multiset()
            &&& sorted_by_version(ws.subrange(0, sn).map_values(|w: WorkUnitView| unit_meta(w)))
            &&& forall|j: int|
                0 <= j < client@.changes_order.len() ==> ws[sn + j]
                    == (WorkUnitView::LocalChange {
                    metadata: client@.files[client@.changes_order[j]],
                })
        }),
{
    let updates = server.get_updates(client.checkpoint());
    let ghost upds = updates_since(server@.files_order, server@.files, client@.checkpoint);

    let mut most_recent: u64 = client.checkpoint();
    let mut i: usize = 0;
    let n = updates.len();
    while i < n
        invariant
            n == updates@.len(),
            i <= n,
            updates@.map_values(|m: FileMetadata| m@) == upds,
            most_recent == max_version(upds.subrange(0, i as int), client@.checkpoint),
        decreases n - i,
    {
        proof {
            assert(upds.subrange(0, i + 1).drop_last() =~= upds.subrange(0, i as int));
            assert(upds.subrange(0, i + 1).last() == updates@[i as int]@);
        }
        if updates[i].metadata_version > most_recent {
            most_recent = updates[i].metadata_version;
        }
        i = i + 1;
    }
    proof {
        assert(upds.subrange(0, n as int) =~= upds);
    }

    // keep the records that demand reconciliation
    let mut kept: Vec<FileMetadata> = Vec::new();
    let mut i: usize = 0;
    proof {
        assert(kept@.map_values(|m: FileMetadata| m@) =~= kept_updates(
            upds.subrange(0, 0),
            client@.files,
        ));
    }
    while i < n
        invariant
            client@.wf(),
            n == updates@.len(),
            i <= n,
            updates@.map_values(|m: FileMetadata| m@) == upds,
            kept@.map_values(|m: FileMetadata| m@) == kept_updates(
                upds.subrange(0, i as int),
                client@.files,
            ),
        decreases n - i,
    {
        proof {
            assert(upds.subrange(0, i + 1).drop_last() =~= upds.subrange(0, i as int));
            assert(upds.subrange(0, i + 1).last() == updates@[i as int]@);
        }
        let u = &updates[i];
        let keep = match client.get_metadata(u.id) {
            Some(local) => local.metadata_version != u.metadata_version,
            None => !u.deleted,
        };
        if keep {
            kept.push(u.dup());
            proof {
                assert(kept@.map_values(|m: FileMetadata| m@) =~= kept_updates(
                    upds.subrange(0, i + 1),
                    client@.files,
                ));
            }
        } else {
            proof {
                assert(kept@.map_values(|m: FileMetadata| m@) =~= kept_updates(
                    upds.subrange(0, i + 1),
                    client@.files,
                ));
            }
        }
        i = i + 1;
    }
    proof {
        assert(upds.subrange(0, n as int) =~= upds);
    }

    let ghost keptm = kept@.map_values(|m: FileMetadata| m@);
    proof {
        assert(keptm == kept_updates(upds, client@.files));
    }
    let sorted = sort_by_version(kept);
    proof {
        assert(sorted@.map_values(|m: FileMetadata| m@).to_multiset() == keptm.to_multiset());
        assert(sorted@.len() == keptm.len());
    }

    let mut work_units: Vec<WorkUnit> = Vec::new();
    let sn = sorted.len();
    let mut i: usize = 0;
    while i < sn
        invariant
            sn == sorted@.len(),
            i <= sn,
            work_units@.len() == i,
            forall|j: int|
                0 <= j < i ==> work_units@.map_values(|w: WorkUnit| w@)[j]
                    == (WorkUnitView::ServerChange { metadata: sorted@[j]@ }),
        decreases sn - i,
    {
        work_units.push(WorkUnit::ServerChange { metadata: sorted[i].dup() });
        i = i + 1;
    }
    proof {
        let ws0 = work_units@.map_values(|w: WorkUnit| w@);
        let sm = sorted@.map_values(|m: FileMetadata| m@);
        assert(ws0.map_values(|w: WorkUnitView| unit_meta(w)) =~= sm);
    }

    let ids = client.pending_change_ids();
    let ln = ids.len();
    let mut j: usize = 0;
    while j < ln
        invariant
            client@.wf(),
            ln == ids@.len(),
            ids@ == client@.changes_order,
            forall|k: u64| ids@.contains(k) <==> client@.changes.contains_key(k),
            j <= ln,
            work_units@.len() == sn + j,
            sn == sorted@.len(),
            forall|q: int|
                0 <= q < sn ==> work_units@.map_values(|w: WorkUnit| w@)[q]
                    == (WorkUnitView::ServerChange { metadata: sorted@[q]@ }),
            forall|q: int|
                0 <= q < j ==> work_units@.map_values(|w: WorkUnit| w@)[sn + q]
                    == (WorkUnitView::LocalChange {
                    metadata: client@.files[client@.changes_order[q]],
                }),
        decreases ln - j,
    {
        let id = ids[j];
        proof {
            assert(ids@.contains(id));
        }
        let metadata = match client.get_metadata(id) {
            Some(m) => m.dup(),
            None => {
                proof {
                    assert(false);
                }
                return WorkCalculated { work_units: Vec::new(), most_recent_update_from_server: 0 };
            },
        };
        work_units.push(WorkUnit::LocalChange { metadata });
        j = j + 1;
    }

    proof {
        let ws = work_units@.map_values(|w: WorkUnit| w@);
        let keptv = kept_updates(upds, client@.files);
        let sm = sorted@.map_values(|m: FileMetadata| m@);
        assert(ws.subrange(0, sn as int).map_values(|w: WorkUnitView| unit_meta(w)) =~= sm);
        assert(sorted_by_version(ws.subrange(0, sn as int).map_values(|w: WorkUnitView| unit_meta(w))));
        assert(sm.to_multiset() == keptv.to_multiset());
        assert(sorted@.len() == keptv.len());
        assert(most_recent == max_version(upds, client@.checkpoint));
        assert forall|q: int| 0 <= q < keptv.len() implies (#[trigger] ws[q]) is ServerChange by {
            assert(ws[q] == (WorkUnitView::ServerChange { metadata: sorted@[q]@ }));
        }
        assert(ws.len() == keptv.len() + client@.changes_order.len());
        assert forall|q: int| 0 <= q < client@.changes_order.len() implies ws[keptv.len() + q]
            == (WorkUnitView::LocalChange {
            metadata: client@.files[client@.changes_order[q]],
        }) by {
            assert(ws[sn as int + q] == (WorkUnitView::LocalChange {
                metadata: client@.files[client@.changes_order[q]],
            }));
        }
    }
    WorkCalculated { work_units, most_recent_update_from_server: most_recent }
}

} // verus!
