//! The daemon's bookkeeping for each command: which task is live under which
//! destination, and what the persisted configuration becomes.

use crate::config::{keeps, Config, ConfigTask};
use crate::path::joined;
use crate::protocol::Response;
use crate::registry::Registry;
use vstd::prelude::*;

verus! {

/// What a client is told when it asks to remove a hologram that is not there.
pub open spec fn not_found_text(dest: Seq<char>) -> Seq<char> {
    "No known hologram was found at "@ + dest
}

/// What a client is told when the destination of a new hologram is taken.
pub open spec fn exists_text(resolved: Seq<char>) -> Seq<char> {
    "A file already exists at "@ + resolved
}

pub fn not_found_message(dest: &str) -> (r: String)
    ensures
        r@ == not_found_text(dest@),
{
    let mut r = String::from_str("No known hologram was found at ");
    r.append(dest);
    r
}

/// Checks that a new hologram may be made at `dest`, taken from `cwd`, where
/// `exists` tells whether something is on disk at the resolved path already:
/// the resolved path when not, and the message for the client when it is.
pub fn provision(dest: &str, cwd: &str, exists: bool) -> (r: Result<String, String>)
    ensures
        !exists ==> (r matches Ok(p) && p@ == joined(cwd@, dest@)),
        exists ==> (r matches Err(m) && m@ == exists_text(joined(cwd@, dest@))),
{
    let resolved = crate::path::resolve_dest(dest, cwd);
    if exists {
        let mut m = String::from_str("A file already exists at ");
        m.append(resolved.as_str());
        Err(m)
    } else {
        Ok(resolved)
    }
}

/// The first half of removing the hologram at `dest`: its task, taken out of
/// the registry, when there is one; otherwise the reply to send, with the
/// registry as it was.
pub fn begin_remove<T>(registry: &mut Registry<T>, dest: &str) -> (r: Result<T, Response>)
    requires
        old(registry).wf(),
    ensures
        final(registry).wf(),
        final(registry).view() == old(registry).view().remove(dest@),
        old(registry).view().contains_key(dest@) ==> r == Ok::<T, Response>(
            old(registry).view()[dest@],
        ),
        !old(registry).view().contains_key(dest@) ==> (r matches Err(Response::Respond(code, m))
            && code == 1 && m@ == not_found_text(dest@)),
{
    match registry.remove(dest) {
        Some(task) => Ok(task),
        None => Err(Response::Respond(1, not_found_message(dest))),
    }
}

/// The second half of removing the hologram at `dest`, once its task has ended:
/// the configuration without it.
pub fn finish_remove(config: Config, dest: &str) -> (r: Config)
    ensures
        r.tasks@ == config.tasks@.filter(keeps(dest@)),
{
    config.without(dest)
}

/// Records a provisioned hologram: its task goes into the registry under
/// `dest`, and its entry after those of `config`.
pub fn finish_add<T>(
    registry: &mut Registry<T>,
    config: Config,
    dest: String,
    cwd: String,
    cmd: Vec<String>,
    task: T,
) -> (r: (Config, Option<T>))
    requires
        old(registry).wf(),
    ensures
        final(registry).wf(),
        final(registry).view() == old(registry).view().insert(dest@, task),
        r.0.tasks@ == config.tasks@.push(ConfigTask { dest, cwd, cmd }),
        r.1 == (if old(registry).view().contains_key(dest@) {
            Some(old(registry).view()[dest@])
        } else {
            None::<T>
        }),
{
    let mut config = config;
    let key = dest.clone();
    config.add(ConfigTask::new(dest, cwd, cmd));
    let replaced = registry.insert(key, task);
    (config, replaced)
}

/// Every task in the registry, each under its destination, leaving the
/// registry empty: what shutdown ends, one by one.
pub fn drain_all<T>(registry: &mut Registry<T>) -> (r: Vec<(String, T)>)
    requires
        old(registry).wf(),
    ensures
        final(registry).wf(),
        final(registry).view().len() == 0,
        r@.len() == old(registry).view().len(),
        forall|i: int|
            0 <= i < r@.len() ==> old(registry).view().contains_key(#[trigger] r@[i].0@)
                && old(registry).view()[r@[i].0@] == r@[i].1,
        forall|i: int, j: int| 0 <= i < j < r@.len() ==> r@[i].0@ != r@[j].0@,
{
    let ghost start = registry.view();
    let mut out: Vec<(String, T)> = Vec::new();
    proof {
        registry.lemma_view_finite();
    }
    loop
        invariant
            registry.wf(),
            registry.view().dom().finite(),
            start.dom().finite(),
            start == old(registry).view(),
            out@.len() + registry.view().len() == start.len(),
            forall|k: Seq<char>| #[trigger]
                registry.view().contains_key(k) ==> start.contains_key(k) && start[k]
                    == registry.view()[k],
            forall|i: int|
                0 <= i < out@.len() ==> start.contains_key(#[trigger] out@[i].0@) && start[out@[i].0@]
                    == out@[i].1 && !registry.view().contains_key(out@[i].0@),
            forall|i: int, j: int| 0 <= i < j < out@.len() ==> out@[i].0@ != out@[j].0@,
        decreases registry.view().len(),
    {
        let ghost before = registry.view();
        match registry.pop() {
            None => {
                return out;
            },
            Some(entry) => {
                proof {
                    registry.lemma_view_finite();
                    assert(before.dom().remove(entry.0@) =~= registry.view().dom());
                }
                out.push(entry);
            },
        }
    }
}

/// Whether no two persisted entries share a destination.
pub open spec fn dests_unique(tasks: Seq<ConfigTask>) -> bool {
    forall|i: int, j: int| 0 <= i < j < tasks.len() ==> tasks[i].dest@ != tasks[j].dest@
}

/// The registry at startup: the task made for each persisted entry, in order,
/// under that entry's destination. With distinct destinations, there are as
/// many live tasks as entries, each bound to its own entry's task.
pub fn restore<T>(config: &Config, tasks: Vec<T>) -> (r: Registry<T>)
    requires
        tasks@.len() == config.tasks@.len(),
    ensures
        r.wf(),
        forall|k: Seq<char>|
            r.view().contains_key(k) <==> exists|j: int|
                0 <= j < config.tasks@.len() && (#[trigger] config.tasks@[j]).dest@ == k,
        dests_unique(config.tasks@) ==> r.view().len() == config.tasks@.len(),
        dests_unique(config.tasks@) ==> forall|j: int|
            0 <= j < config.tasks@.len() ==> r.view()[(#[trigger] config.tasks@[j]).dest@]
                == tasks@[j],
{
    let ghost made = tasks@;
    let ghost entries = config.tasks@;
    let mut rest = tasks;
    let mut registry: Registry<T> = Registry::new();
    let n = config.tasks.len();
    let mut i: usize = 0;
    proof {
        registry.lemma_view_finite();
    }
    while i < n
        invariant
            i <= n,
            n == entries.len(),
            entries == config.tasks@,
            made.len() == n,
            rest@ == made.skip(i as int),
            registry.wf(),
            registry.view().dom().finite(),
            forall|k: Seq<char>|
                registry.view().contains_key(k) <==> exists|j: int|
                    0 <= j < i && (#[trigger] entries[j]).dest@ == k,
            dests_unique(entries) ==> registry.view().len() == i,
            dests_unique(entries) ==> forall|j: int|
                0 <= j < i ==> registry.view()[(#[trigger] entries[j]).dest@] == made[j],
        decreases n - i,
    {
        let task = rest.remove(0);
        assert(rest@ =~= made.skip(i + 1));
        let key = config.tasks[i].dest.clone();
        let ghost before = registry.view();
        let _ = registry.insert(key, task);
        proof {
            registry.lemma_view_finite();
            assert forall|k: Seq<char>|
                registry.view().contains_key(k) <==> exists|j: int|
                    0 <= j < i + 1 && (#[trigger] entries[j]).dest@ == k by {
                if k == entries[i as int].dest@ {
                    assert(entries[i as int].dest@ == k);
                } else if before.contains_key(k) {
                    let j = choose|j: int| 0 <= j < i && (#[trigger] entries[j]).dest@ == k;
                    assert(entries[j].dest@ == k);
                }
            }
            if dests_unique(entries) {
                assert(!before.contains_key(entries[i as int].dest@));
            }
        }
        i = i + 1;
    }
    registry
}

/// Removing a registered hologram forgets it twice over: its destination is no
/// longer in the registry, and no persisted entry is at it.
pub proof fn lemma_remove_forgets_dest<T>(
    live: Map<Seq<char>, T>,
    tasks: Seq<ConfigTask>,
    dest: Seq<char>,
)
    ensures
        !live.remove(dest).contains_key(dest),
        forall|i: int|
            0 <= i < tasks.filter(keeps(dest)).len() ==> (#[trigger] tasks.filter(
                keeps(dest),
            )[i]).dest@ != dest,
{
    crate::config::lemma_without_drops_only_dest(tasks, dest);
}

/// Asking to remove an unregistered hologram changes neither the registry nor,
/// since nothing goes on to the configuration, what is persisted; the client
/// reads exit code 1 and the not-found message.
pub proof fn lemma_remove_unknown_reply<T>(live: Map<Seq<char>, T>, dest: Seq<char>)
    requires
        !live.contains_key(dest),
    ensures
        live.remove(dest) == live,
        crate::protocol::parsed_reply(crate::protocol::reply_text(1, not_found_text(dest)))
            == Some((1i32, not_found_text(dest))),
{
    assert(live.remove(dest) =~= live);
    crate::protocol::lemma_reply_round_trip(1, not_found_text(dest));
}

} // verus!
