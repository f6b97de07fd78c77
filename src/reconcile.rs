//! Startup reconciliation of the run directory, and the registry listing it
//! works from.
//!
//! Before any other operation, every start lock marker is a leftover of a
//! crash (a lock lives only inside one start), and every registry entry whose
//! identity no longer holds is stale: both are deleted.
use vstd::prelude::*;
use crate::identity::{RecordProbe, probe_valid, probe_is_valid};
use crate::layout::{
    is_lock_marker, pid_file_name, lock_file_name, is_lock_marker_name, pid_file_name_of,
    pid_file_workspace, workspace_of_pid_file,
};
use crate::record::{ServiceRecord, StartedBy, record_of, parse_record};
use crate::supervisor::{StartPhase, StartAction, StartEvent, HandleState, start_next};

verus! {

/// A registry entry found in the run directory, with the probe of its pid.
pub struct RegistryEntry {
    pub workspace_id: String,
    pub probe: RecordProbe,
}

/// The lock markers among the names, in order.
pub open spec fn lock_markers(names: Seq<String>) -> Seq<Seq<char>>
    decreases names.len(),
{
    if names.len() == 0 {
        Seq::empty()
    } else {
        let r = lock_markers(names.drop_last());
        if is_lock_marker(names.last()@) {
            r.push(names.last()@)
        } else {
            r
        }
    }
}

/// The registry file names of the entries whose identity fails, in order.
pub open spec fn stale_pid_files(entries: Seq<RegistryEntry>) -> Seq<Seq<char>>
    decreases entries.len(),
{
    if entries.len() == 0 {
        Seq::empty()
    } else {
        let r = stale_pid_files(entries.drop_last());
        if probe_valid(entries.last().probe) {
            r
        } else {
            r.push(pid_file_name(entries.last().workspace_id@))
        }
    }
}

pub open spec fn names_of(v: Seq<String>) -> Seq<Seq<char>> {
    v.map_values(|s: String| s@)
}

/// The run-directory files that reconciliation deletes: every lock marker
/// among `names`, then the registry file of every entry that fails its
/// identity check.
pub fn reconcile_removals(names: &Vec<String>, entries: &Vec<RegistryEntry>) -> (r: Vec<String>)
    ensures
        names_of(r@) == lock_markers(names@) + stale_pid_files(entries@),
{
    let mut out: Vec<String> = Vec::new();
    let mut i: usize = 0;
    while i < names.len()
        invariant
            i <= names@.len(),
            names_of(out@) == lock_markers(names@.subrange(0, i as int)),
        decreases names@.len() - i,
    {
        proof {
            assert(names@.subrange(0, i + 1).drop_last() =~= names@.subrange(0, i as int));
        }
        if is_lock_marker_name(names[i].as_str()) {
            let n = names[i].clone();
            let ghost before = out@;
            out.push(n);
            assert(names_of(out@) =~= names_of(before).push(n@));
        }
        i = i + 1;
    }
    assert(names@.subrange(0, names@.len() as int) =~= names@);
    let ghost locks = names_of(out@);
    let mut j: usize = 0;
    while j < entries.len()
        invariant
            j <= entries@.len(),
            locks == lock_markers(names@),
            names_of(out@) == locks + stale_pid_files(entries@.subrange(0, j as int)),
        decreases entries@.len() - j,
    {
        proof {
            assert(entries@.subrange(0, j + 1).drop_last() =~= entries@.subrange(0, j as int));
        }
        if !probe_is_valid(&entries[j].probe) {
            let n = pid_file_name_of(entries[j].workspace_id.as_str());
            let ghost before = out@;
            out.push(n);
            assert(names_of(out@) =~= names_of(before).push(n@));
            assert(locks + stale_pid_files(entries@.subrange(0, j + 1)) =~= (locks
                + stale_pid_files(entries@.subrange(0, j as int))).push(n@));
        }
        j = j + 1;
    }
    assert(entries@.subrange(0, entries@.len() as int) =~= entries@);
    out
}

proof fn lemma_lock_markers_contains(names: Seq<String>, i: int)
    requires
        0 <= i < names.len(),
        is_lock_marker(names[i]@),
    ensures
        lock_markers(names).contains(names[i]@),
    decreases names.len(),
{
    let init = names.drop_last();
    if i == names.len() - 1 {
        assert(lock_markers(names).last() == names[i]@);
    } else {
        assert(init[i] == names[i]);
        lemma_lock_markers_contains(init, i);
        let k = choose|k: int| 0 <= k < lock_markers(init).len() && lock_markers(init)[k] == names[i]@;
        if is_lock_marker(names.last()@) {
            assert(lock_markers(names)[k] == names[i]@);
        }
    }
}

proof fn lemma_stale_contains(entries: Seq<RegistryEntry>, i: int)
    requires
        0 <= i < entries.len(),
        !probe_valid(entries[i].probe),
    ensures
        stale_pid_files(entries).contains(pid_file_name(entries[i].workspace_id@)),
    decreases entries.len(),
{
    let init = entries.drop_last();
    let x = pid_file_name(entries[i].workspace_id@);
    if i == entries.len() - 1 {
        assert(stale_pid_files(entries).last() == x);
    } else {
        assert(init[i] == entries[i]);
        lemma_stale_contains(init, i);
        let k = choose|k: int| 0 <= k < stale_pid_files(init).len() && stale_pid_files(init)[k] == x;
        if !probe_valid(entries.last().probe) {
            assert(stale_pid_files(entries)[k] == x);
        }
    }
}

/// A workspace's lock marker is a lock marker.
pub proof fn lemma_lock_file_is_marker(ws: Seq<char>)
    ensures
        is_lock_marker(lock_file_name(ws)),
{
    reveal_strlit("openakita-");
    let n = lock_file_name(ws);
    let x = ".lock"@;
    assert(n.subrange(n.len() - x.len(), n.len() as int) =~= x);
}

/// Reconciliation: when the run directory holds a workspace's lock marker
/// and a registry entry for it whose pid is not alive, one pass deletes
/// both. A start of the workspace then finds no handle and no record,
/// creates the lock afresh (the marker is gone, so exclusive creation
/// succeeds), finds nothing again under the lock, and spawns.
pub proof fn lemma_reconcile_then_start(
    names: Seq<String>,
    entries: Seq<RegistryEntry>,
    ws: Seq<char>,
    i: int,
    j: int,
)
    requires
        0 <= i < names.len(),
        names[i]@ == lock_file_name(ws),
        0 <= j < entries.len(),
        entries[j].workspace_id@ == ws,
        !entries[j].probe.alive,
    ensures
        (lock_markers(names) + stale_pid_files(entries)).contains(lock_file_name(ws)),
        (lock_markers(names) + stale_pid_files(entries)).contains(pid_file_name(ws)),
        start_next(StartPhase::Begin, StartEvent::Handle(HandleState::Absent)) == (
            StartPhase::Registry,
            StartAction::ProbeRecord,
        ),
        start_next(StartPhase::Registry, StartEvent::Record(None)) == (
            StartPhase::Lock,
            StartAction::AcquireLock,
        ),
        start_next(StartPhase::Lock, StartEvent::Lock(true)) == (
            StartPhase::Recheck,
            StartAction::Recheck,
        ),
        start_next(
            StartPhase::Recheck,
            (StartEvent::Rechecked { handle: HandleState::Absent, probe: None }),
        ) == (StartPhase::Spawn, StartAction::Spawn),
{
    lemma_lock_file_is_marker(ws);
    lemma_lock_markers_contains(names, i);
    lemma_stale_contains(entries, j);
    let a = lock_markers(names);
    let b = stale_pid_files(entries);
    let k = choose|k: int| 0 <= k < a.len() && a[k] == lock_file_name(ws);
    assert((a + b)[k] == lock_file_name(ws));
    let m = choose|m: int| 0 <= m < b.len() && b[m] == pid_file_name(ws);
    assert((a + b)[a.len() + m] == pid_file_name(ws));
}

// ---------------------------------------------------------------------------
// Listing the registry
/// A file of the run directory and what it holds.
pub struct RunDirFile {
    pub name: String,
    pub content: Vec<u8>,
}

/// A registry entry: a workspace and its record.
pub struct ServicePidEntry {
    pub workspace_id: String,
    pub record: ServiceRecord,
}

/// The registry entries among the files, in order: each file named as a
/// registry file whose content is a record.
pub open spec fn pid_listing(files: Seq<RunDirFile>) -> Seq<(Seq<char>, ServiceRecord)>
    decreases files.len(),
{
    if files.len() == 0 {
        Seq::empty()
    } else {
        let r = pid_listing(files.drop_last());
        let f = files.last();
        match (pid_file_workspace(f.name@), record_of(f.content@)) {
            (Some(w), Some(rec)) => r.push((w, rec)),
            _ => r,
        }
    }
}

pub open spec fn entries_view(v: Seq<ServicePidEntry>) -> Seq<(Seq<char>, ServiceRecord)> {
    v.map_values(|e: ServicePidEntry| (e.workspace_id@, e.record))
}

/// The registry: one entry per registry file with a readable record. A
/// missing run directory is no files, and so an empty registry.
pub fn list_service_pids(files: &Vec<RunDirFile>) -> (r: Vec<ServicePidEntry>)
    ensures
        entries_view(r@) == pid_listing(files@),
{
    let mut out: Vec<ServicePidEntry> = Vec::new();
    let mut i: usize = 0;
    while i < files.len()
        invariant
            i <= files@.len(),
            entries_view(out@) == pid_listing(files@.subrange(0, i as int)),
        decreases files@.len() - i,
    {
        proof {
            assert(files@.subrange(0, i + 1).drop_last() =~= files@.subrange(0, i as int));
        }
        let f = &files[i];
        match workspace_of_pid_file(f.name.as_str()) {
            Some(w) => match parse_record(f.content.as_slice()) {
                Some(rec) => {
                    let ghost before = out@;
                    out.push(ServicePidEntry { workspace_id: w, record: rec });
                    assert(entries_view(out@) =~= entries_view(before).push((w@, rec)));
                },
                None => {},
            },
            None => {},
        }
        i = i + 1;
    }
    assert(files@.subrange(0, i as int) =~= files@);
    out
}

pub open spec fn supervisor_started(v: Seq<ServicePidEntry>) -> Seq<(Seq<char>, ServiceRecord)>
    decreases v.len(),
{
    if v.len() == 0 {
        Seq::empty()
    } else {
        let r = supervisor_started(v.drop_last());
        if v.last().record.started_by == StartedBy::Supervisor {
            r.push((v.last().workspace_id@, v.last().record))
        } else {
            r
        }
    }
}

/// The entries that a full shutdown may stop on its own: those this
/// supervisor launched. Entries started by someone else are never
/// terminated automatically.
pub fn auto_stop_entries(entries: &Vec<ServicePidEntry>) -> (r: Vec<ServicePidEntry>)
    ensures
        entries_view(r@) == supervisor_started(entries@),
{
    let mut out: Vec<ServicePidEntry> = Vec::new();
    let mut i: usize = 0;
    while i < entries.len()
        invariant
            i <= entries@.len(),
            entries_view(out@) == supervisor_started(entries@.subrange(0, i as int)),
        decreases entries@.len() - i,
    {
        proof {
            assert(entries@.subrange(0, i + 1).drop_last() =~= entries@.subrange(0, i as int));
        }
        let e = &entries[i];
        if e.record.started_by == StartedBy::Supervisor {
            let w = e.workspace_id.clone();
            let ghost before = out@;
            out.push(ServicePidEntry { workspace_id: w, record: e.record });
            assert(entries_view(out@) =~= entries_view(before).push((w@, e.record)));
        }
        i = i + 1;
    }
    assert(entries@.subrange(0, i as int) =~= entries@);
    out
}

pub open spec fn registered(pid: u32, entries: Seq<ServicePidEntry>) -> bool {
    exists|j: int| 0 <= j < entries.len() && (#[trigger] entries[j]).record.pid == pid
}

/// The found pids that no registry entry names, in their order.
pub open spec fn unregistered(found: Seq<u32>, entries: Seq<ServicePidEntry>) -> Seq<u32>
    decreases found.len(),
{
    if found.len() == 0 {
        Seq::empty()
    } else {
        let r = unregistered(found.drop_last(), entries);
        if registered(found.last(), entries) {
            r
        } else {
            r.push(found.last())
        }
    }
}

fn is_registered(pid: u32, entries: &Vec<ServicePidEntry>) -> (r: bool)
    ensures
        r == registered(pid, entries@),
{
    let mut j: usize = 0;
    while j < entries.len()
        invariant
            j <= entries@.len(),
            forall|q: int| 0 <= q < j ==> (#[trigger] entries@[q]).record.pid != pid,
        decreases entries@.len() - j,
    {
        if entries[j].record.pid == pid {
            return true;
        }
        j = j + 1;
    }
    false
}

/// The orphans a full shutdown may terminate: among the managed-looking
/// processes found by the scan, those that no registry entry names. An
/// entry's process, in particular one started by someone else, is never
/// taken for an orphan.
pub fn orphans_to_stop(found: &Vec<u32>, entries: &Vec<ServicePidEntry>) -> (r: Vec<u32>)
    ensures
        r@ == unregistered(found@, entries@),
{
    let mut out: Vec<u32> = Vec::new();
    let mut i: usize = 0;
    while i < found.len()
        invariant
            i <= found@.len(),
            out@ == unregistered(found@.subrange(0, i as int), entries@),
        decreases found@.len() - i,
    {
        proof {
            assert(found@.subrange(0, i + 1).drop_last() =~= found@.subrange(0, i as int));
        }
        let p = found[i];
        if !is_registered(p, entries) {
            out.push(p);
        }
        i = i + 1;
    }
    assert(found@.subrange(0, i as int) =~= found@);
    out
}

/// No registry entry's pid, whoever started it, is among the orphans to
/// stop; every found pid that no entry names is.
pub proof fn lemma_orphans_exclude_registered(found: Seq<u32>, entries: Seq<ServicePidEntry>, p: u32)
    ensures
        unregistered(found, entries).contains(p) <==> (found.contains(p) && !registered(p, entries)),
    decreases found.len(),
{
    if found.len() > 0 {
        let init = found.drop_last();
        lemma_orphans_exclude_registered(init, entries, p);
        let r = unregistered(init, entries);
        if found.contains(p) && !registered(p, entries) {
            let k = choose|k: int| 0 <= k < found.len() && found[k] == p;
            if k < found.len() - 1 {
                assert(init[k] == p);
                let q = choose|q: int| 0 <= q < r.len() && r[q] == p;
                if !registered(found.last(), entries) {
                    assert(r.push(found.last())[q] == p);
                }
            } else {
                assert(r.push(found.last())[r.len() as int] == p);
            }
        }
        if unregistered(found, entries).contains(p) {
            let u = unregistered(found, entries);
            let q = choose|q: int| 0 <= q < u.len() && u[q] == p;
            if q < r.len() {
                assert(r[q] == p);
                assert(r.contains(p));
                let k = choose|k: int| 0 <= k < init.len() && init[k] == p;
                assert(found[k] == p);
            } else {
                assert(found[found.len() - 1] == p);
            }
        }
    }
}

/// What became of one supervisor-started registry entry during a full
/// shutdown: whether its identity held (only then is it stopped) and, if so,
/// whether the stop ended well.
#[derive(Clone, Copy, Debug, PartialEq, Eq, Structural)]
pub struct EntryStop {
    pub pid: u32,
    pub identity_held: bool,
    pub stopped: bool,
}

pub open spec fn stopped_pids(v: Seq<EntryStop>) -> Seq<u32>
    decreases v.len(),
{
    if v.len() == 0 {
        Seq::empty()
    } else {
        let r = stopped_pids(v.drop_last());
        if v.last().identity_held && v.last().stopped {
            r.push(v.last().pid)
        } else {
            r
        }
    }
}

/// The registry pids a full shutdown reports as stopped: those whose
/// identity held and whose stop ended well, in order. A pid left alone
/// because it now belongs to another process is not reported.
pub fn registry_stopped(outcomes: &Vec<EntryStop>) -> (r: Vec<u32>)
    ensures
        r@ == stopped_pids(outcomes@),
{
    let mut out: Vec<u32> = Vec::new();
    let mut i: usize = 0;
    while i < outcomes.len()
        invariant
            i <= outcomes@.len(),
            out@ == stopped_pids(outcomes@.subrange(0, i as int)),
        decreases outcomes@.len() - i,
    {
        proof {
            assert(outcomes@.subrange(0, i + 1).drop_last() =~= outcomes@.subrange(0, i as int));
        }
        let o = outcomes[i];
        if o.identity_held && o.stopped {
            out.push(o.pid);
        }
        i = i + 1;
    }
    assert(outcomes@.subrange(0, i as int) =~= outcomes@);
    out
}

pub open spec fn alive_only(v: Seq<(u32, bool)>) -> Seq<u32>
    decreases v.len(),
{
    if v.len() == 0 {
        Seq::empty()
    } else {
        let r = alive_only(v.drop_last());
        if v.last().1 {
            r.push(v.last().0)
        } else {
            r
        }
    }
}

/// The pids of a scan that are still alive (each paired with its liveness
/// probe), in order.
pub fn alive_found(found: &Vec<(u32, bool)>) -> (r: Vec<u32>)
    ensures
        r@ == alive_only(found@),
{
    let mut out: Vec<u32> = Vec::new();
    let mut i: usize = 0;
    while i < found.len()
        invariant
            i <= found@.len(),
            out@ == alive_only(found@.subrange(0, i as int)),
        decreases found@.len() - i,
    {
        proof {
            assert(found@.subrange(0, i + 1).drop_last() =~= found@.subrange(0, i as int));
        }
        let (p, alive) = found[i];
        if alive {
            out.push(p);
        }
        i = i + 1;
    }
    assert(found@.subrange(0, i as int) =~= found@);
    out
}

} // verus!
