//! The sync orchestrator: the bounded retry loop that computes work,
//! executes every unit, isolates per-unit failures, reports progress,
//! and persists the server watermark only after a fully clean pass.

use vstd::prelude::*;

use crate::client::ClientState;
use crate::client::ClientStateView;
use crate::convert::ClientWorkUnit;
use crate::convert::generate_client_work_unit;
use crate::errors::SyncError;
use crate::exec::execute_work;
use crate::idmap::IdMap;
use crate::server::ServerState;
use crate::server::ServerStateView;
use crate::server::max_version;
use crate::server::updates_since;
use crate::types::FileMetadataView;
use crate::work::WorkCalculated;
use crate::work::WorkUnit;
use crate::work::WorkUnitView;
use crate::work::calculate_work;
use crate::work::kept_updates;
use crate::work::unit_meta;

verus! {

/// The sync policy: how many passes a session may attempt before giving
/// up on outstanding failures.
pub struct SyncConfig {
    pub max_retries: usize,
}

/// One progress report, delivered before a unit executes.
pub struct SyncProgress {
    pub total: usize,
    pub progress: usize,
    pub current_work_unit: ClientWorkUnit,
}

/// The aggregate failure of a session: every id that still demands work
/// when the retry bound runs out, paired with its recorded error — or
/// with `RetriesExhausted` when the bound ran out before any of its
/// calls could fail.
#[derive(Debug)]
pub struct SyncFailure {
    pub errors: Vec<(u64, SyncError)>,
}

/// No work remains between this client and server: every server record
/// since the checkpoint is already incorporated and no local change is
/// pending.
pub open spec fn converged(c: ClientStateView, s: ServerStateView) -> bool {
    &&& kept_updates(updates_since(s.files_order, s.files, c.checkpoint), c.files).len() == 0
    &&& c.changes_order.len() == 0
}

/// The id still demands reconciliation work against these states: a
/// change record is open for it, or the server holds an unincorporated
/// update for it.
pub open spec fn pending_work_id(c: ClientStateView, s: ServerStateView, id: u64) -> bool {
    let kept = kept_updates(updates_since(s.files_order, s.files, c.checkpoint), c.files);
    c.changes.contains_key(id) || exists|q: int| 0 <= q < kept.len() && #[trigger] kept[q].id == id
}

/// Every unit the work calculator emits names an id that demands work
/// against the states it was computed from.
proof fn lemma_work_ids_pending(c: ClientStateView, s: ServerStateView, ws: Seq<WorkUnitView>)
    requires
        c.wf(),
        ({
            let kept = kept_updates(updates_since(s.files_order, s.files, c.checkpoint), c.files);
            let sn = kept.len() as int;
            &&& ws.len() == kept.len() + c.changes_order.len()
            &&& ws.subrange(0, sn).map_values(|w: WorkUnitView| unit_meta(w)).to_multiset()
                == kept.to_multiset()
            &&& forall|j: int|
                0 <= j < c.changes_order.len() ==> ws[sn + j] == (WorkUnitView::LocalChange {
                    metadata: c.files[c.changes_order[j]],
                })
        }),
    ensures
        forall|j: int| 0 <= j < ws.len() ==> pending_work_id(c, s, unit_meta(#[trigger] ws[j]).id),
{
    let kept = kept_updates(updates_since(s.files_order, s.files, c.checkpoint), c.files);
    let sn = kept.len() as int;
    assert forall|j: int| 0 <= j < ws.len() implies pending_work_id(
        c,
        s,
        unit_meta(#[trigger] ws[j]).id,
    ) by {
        if j < sn {
            let sm = ws.subrange(0, sn).map_values(|w: WorkUnitView| unit_meta(w));
            assert(sm[j] == unit_meta(ws[j]));
            assert(sm.contains(unit_meta(ws[j])));
            sm.to_multiset_ensures();
            kept.to_multiset_ensures();
            assert(sm.to_multiset().count(unit_meta(ws[j])) > 0);
            assert(kept.contains(unit_meta(ws[j])));
            let q = choose|q: int| 0 <= q < kept.len() && kept[q] == unit_meta(ws[j]);
            assert(kept[q].id == unit_meta(ws[j]).id);
        } else {
            let o = c.changes_order[j - sn];
            assert(ws[j] == (WorkUnitView::LocalChange { metadata: c.files[o] }));
            assert(c.changes_order.contains(o));
            assert(c.changes.contains_key(o));
            assert(c.files.contains_key(o));
            assert(c.files[o].id == o);
        }
    }
}

/// Decides whether an id is already listed in an aggregate.
fn listed(v: &Vec<(u64, SyncError)>, id: u64) -> (r: bool)
    ensures
        r == exists|j: int| 0 <= j < v@.len() && (#[trigger] v@[j]).0 == id,
{
    let n = v.len();
    let mut i: usize = 0;
    while i < n
        invariant
            n == v@.len(),
            i <= n,
            forall|j: int| 0 <= j < i ==> (#[trigger] v@[j]).0 != id,
        decreases n - i,
    {
        if v[i].0 == id {
            return true;
        }
        i = i + 1;
    }
    false
}

/// The watermark a pass may persist never exceeds a version the server
/// actually issued (unless it is the unchanged checkpoint itself).
proof fn lemma_max_version_bound(
    upds: Seq<FileMetadataView>,
    lo: u64,
    order: Seq<u64>,
    files: Map<u64, FileMetadataView>,
    since: u64,
    vc: u64,
)
    requires
        upds == updates_since(order, files, since),
        forall|k: u64| #[trigger] files.contains_key(k) ==> files[k].metadata_version <= vc,
    ensures
        max_version(upds, lo) == lo || max_version(upds, lo) <= vc,
    decreases order.len(),
{
    if order.len() > 0 {
        let rest = updates_since(order.drop_last(), files, since);
        lemma_max_version_bound(rest, lo, order.drop_last(), files, since, vc);
        let k = order.last();
        if files.contains_key(k) && files[k].metadata_version > since {
            assert(upds == rest + seq![files[k]]);
            assert(upds.drop_last() =~= rest);
            assert(upds.last() == files[k]);
        } else {
            assert(upds == rest);
        }
    }
}

/// Runs one sync session: compute work, execute every unit in order
/// (reporting progress before each), collect per-unit failures, persist
/// the watermark after each fully clean pass, and repeat until no work
/// remains or the retry bound is exhausted.
///
/// On success, the client has fully converged: recomputing work against
/// the final states yields nothing (a recorded failure whose divergence
/// a later pass resolved is no failure). The checkpoint watermark never
/// regresses, and it only advances to a version the server issued. A
/// session that starts already converged touches nothing and reports no
/// progress; the progress log only ever grows. On failure the aggregate
/// is never empty, and every listed id still demands work against the
/// final states: with its recorded error, or with `RetriesExhausted`
/// when the bound ran out while every attempted call was succeeding.
pub fn sync(
    config: &SyncConfig,
    client: &mut ClientState,
    server: &mut ServerState,
    progress: &mut Vec<SyncProgress>,
) -> (r: Result<(), SyncFailure>)
    requires
        old(client)@.wf(),
        old(server)@.wf(),
    ensures
        final(client)@.wf(),
        final(server)@.wf(),
        final(client)@.checkpoint >= old(client)@.checkpoint,
        final(client)@.checkpoint == old(client)@.checkpoint || final(client)@.checkpoint
            <= final(server)@.version_counter,
        r is Ok ==> converged(final(client)@, final(server)@),
        converged(old(client)@, old(server)@) ==> r is Ok && final(client)@ == old(client)@
            && final(server)@ == old(server)@ && final(progress)@ == old(progress)@,
        old(progress)@.is_prefix_of(final(progress)@),
        r is Err ==> r->Err_0.errors@.len() > 0 && (forall|j: int|
            0 <= j < r->Err_0.errors@.len() ==> pending_work_id(
                final(client)@,
                final(server)@,
                (#[trigger] r->Err_0.errors@[j]).0,
            )),
{
    let mut errors: IdMap<SyncError> = IdMap::new();
    let mut wc = calculate_work(client, server);
    let mut done = wc.work_units.len() == 0;
    let mut attempts: usize = 0;
    proof {
        if converged(old(client)@, old(server)@) {
            assert(done);
        }
        if done {
            assert(converged(client@, server@));
        }
        lemma_max_version_bound(
            updates_since(server@.files_order, server@.files, client@.checkpoint),
            client@.checkpoint,
            server@.files_order,
            server@.files,
            client@.checkpoint,
            server@.version_counter,
        );
        lemma_work_ids_pending(client@, server@, wc.work_units@.map_values(|w: WorkUnit| w@));
        assert forall|j: int| 0 <= j < wc.work_units@.len() implies pending_work_id(
            client@,
            server@,
            unit_meta(#[trigger] wc.work_units@[j]@).id,
        ) by {
            let ws = wc.work_units@.map_values(|w: WorkUnit| w@);
            assert(ws[j] == wc.work_units@[j]@);
            assert(pending_work_id(client@, server@, unit_meta(ws[j]).id));
        }
        assert(old(progress)@.is_prefix_of(progress@)) by {
            assert(progress@.subrange(0, progress@.len() as int) =~= progress@);
        }
    }
    while !done && attempts < config.max_retries
        invariant
            client@.wf(),
            server@.wf(),
            client@.checkpoint >= old(client)@.checkpoint,
            client@.checkpoint == old(client)@.checkpoint || client@.checkpoint
                <= server@.version_counter,
            server@.version_counter >= old(server)@.version_counter,
            done ==> converged(client@, server@),
            wc.most_recent_update_from_server == client@.checkpoint
                || wc.most_recent_update_from_server <= server@.version_counter,
            !done ==> wc.work_units@.len() > 0,
            forall|j: int|
                0 <= j < wc.work_units@.len() ==> pending_work_id(
                    client@,
                    server@,
                    unit_meta(#[trigger] wc.work_units@[j]@).id,
                ),
            old(progress)@.is_prefix_of(progress@),
            converged(old(client)@, old(server)@) ==> done && client@ == old(client)@ && server@
                == old(server)@ && progress@ == old(progress)@ && errors@ == Map::<
                u64,
                SyncError,
            >::empty() && errors.keys_seq() == Seq::<u64>::empty(),
        decreases config.max_retries - attempts,
    {
        let total = wc.work_units.len();
        let ghost cp_pass = client@.checkpoint;
        let ghost vc_pass = server@.version_counter;
        let mut i: usize = 0;
        while i < total
            invariant
                client@.wf(),
                server@.wf(),
                total == wc.work_units@.len(),
                i <= total,
                client@.checkpoint == cp_pass,
                server@.version_counter >= vc_pass,
                wc.most_recent_update_from_server == cp_pass
                    || wc.most_recent_update_from_server <= server@.version_counter,
                old(progress)@.is_prefix_of(progress@),
            decreases total - i,
        {
            let unit = wc.work_units[i].dup();
            let report = match generate_client_work_unit(client, &unit) {
                Ok(cw) => cw,
                Err(_) => ClientWorkUnit::ServerUnknownName(unit.get_metadata().id),
            };
            let ghost plog = progress@;
            progress.push(SyncProgress { total, progress: i, current_work_unit: report });
            proof {
                assert(plog.subrange(0, old(progress)@.len() as int) =~= progress@.subrange(
                    0,
                    old(progress)@.len() as int,
                ));
            }
            let id = unit.get_metadata().id;
            match execute_work(client, server, unit) {
                Ok(()) => {
                    errors.remove(id);
                },
                Err(e) => {
                    errors.insert(id, e);
                },
            }
            i = i + 1;
        }
        if errors.is_empty() {
            client.advance_checkpoint(wc.most_recent_update_from_server);
        }
        wc = calculate_work(client, server);
        done = wc.work_units.len() == 0;
        proof {
            if done {
                assert(converged(client@, server@));
            }
            lemma_max_version_bound(
                updates_since(server@.files_order, server@.files, client@.checkpoint),
                client@.checkpoint,
                server@.files_order,
                server@.files,
                client@.checkpoint,
                server@.version_counter,
            );
            lemma_work_ids_pending(client@, server@, wc.work_units@.map_values(|w: WorkUnit| w@));
            assert forall|j: int| 0 <= j < wc.work_units@.len() implies pending_work_id(
                client@,
                server@,
                unit_meta(#[trigger] wc.work_units@[j]@).id,
            ) by {
                let ws = wc.work_units@.map_values(|w: WorkUnit| w@);
                assert(ws[j] == wc.work_units@[j]@);
                assert(pending_work_id(client@, server@, unit_meta(ws[j]).id));
            }
        }
        attempts = attempts + 1;
    }
    if done {
        // converged: whatever failures were recorded along the way, their
        // divergence has been resolved by a later pass
        return Ok(());
    }
    // the retry bound ran out with work remaining: surface every id that
    // still demands work, each with its recorded error
    let total = wc.work_units.len();
    let mut failed: Vec<(u64, SyncError)> = Vec::new();
    let mut i: usize = 0;
    while i < total
        invariant
            total == wc.work_units@.len(),
            i <= total,
            forall|j: int|
                0 <= j < wc.work_units@.len() ==> pending_work_id(
                    client@,
                    server@,
                    unit_meta(#[trigger] wc.work_units@[j]@).id,
                ),
            forall|j: int|
                0 <= j < failed@.len() ==> pending_work_id(
                    client@,
                    server@,
                    (#[trigger] failed@[j]).0,
                ),
        decreases total - i,
    {
        let id = wc.work_units[i].get_metadata().id;
        proof {
            assert(pending_work_id(client@, server@, unit_meta(wc.work_units@[i as int]@).id));
        }
        if !listed(&failed, id) {
            match errors.get(id) {
                Some(e) => {
                    failed.push((id, *e));
                },
                None => {},
            }
        }
        i = i + 1;
    }
    if failed.len() == 0 {
        // every attempted call succeeded, yet the bound ran out before
        // the remaining work could be finished
        let mut i: usize = 0;
        while i < total
            invariant
                total == wc.work_units@.len(),
                i <= total,
                forall|j: int|
                    0 <= j < wc.work_units@.len() ==> pending_work_id(
                        client@,
                        server@,
                        unit_meta(#[trigger] wc.work_units@[j]@).id,
                    ),
                forall|j: int|
                    0 <= j < failed@.len() ==> pending_work_id(
                        client@,
                        server@,
                        (#[trigger] failed@[j]).0,
                    ),
                i > 0 ==> failed@.len() > 0,
            decreases total - i,
        {
            let id = wc.work_units[i].get_metadata().id;
            proof {
                assert(pending_work_id(client@, server@, unit_meta(wc.work_units@[i as int]@).id));
            }
            if !listed(&failed, id) {
                failed.push((id, SyncError::RetriesExhausted));
            }
            i = i + 1;
        }
    }
    proof {
        assert(failed@.len() > 0);
    }
    Err(SyncFailure { errors: failed })
}

} // verus!
