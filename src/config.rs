//! The durable record of the live holograms.

use vstd::prelude::*;

verus! {

/// One persisted hologram: where it lives, the directory its command runs in,
/// and the command line, program first.
pub struct ConfigTask {
    pub dest: String,
    pub cwd: String,
    pub cmd: Vec<String>,
}

/// The daemon's whole durable state: its holograms in the order they were added.
pub struct Config {
    pub tasks: Vec<ConfigTask>,
}

/// Whether a persisted entry is not the one at `dest`.
pub open spec fn keeps(dest: Seq<char>) -> spec_fn(ConfigTask) -> bool {
    |e: ConfigTask| e.dest@ != dest
}

impl ConfigTask {
    pub fn new(dest: String, cwd: String, cmd: Vec<String>) -> (r: ConfigTask)
        ensures
            r.dest == dest,
            r.cwd == cwd,
            r.cmd == cmd,
    {
        ConfigTask { dest, cwd, cmd }
    }
}

impl Config {
    /// The configuration with no holograms, as read where none was saved yet.
    pub fn new() -> (r: Config)
        ensures
            r.tasks@ == Seq::<ConfigTask>::empty(),
    {
        Config { tasks: Vec::new() }
    }

    /// Records a new hologram after those already there.
    pub fn add(&mut self, entry: ConfigTask)
        ensures
            final(self).tasks@ == old(self).tasks@.push(entry),
    {
        self.tasks.push(entry);
    }

    /// The configuration with every entry at `dest` taken out, the others kept
    /// in their order.
    pub fn without(self, dest: &str) -> (r: Config)
        ensures
            r.tasks@ == self.tasks@.filter(keeps(dest@)),
    {
        let ghost orig = self.tasks@;
        let mut rest = self.tasks;
        let mut kept: Vec<ConfigTask> = Vec::new();
        let n = rest.len();
        let mut i: usize = 0;
        let d = String::from_str(dest);
        assert(orig.skip(0) =~= orig);
        assert(orig.take(0) =~= Seq::<ConfigTask>::empty());
        proof {
            reveal(Seq::filter);
        }
        while i < n
            invariant
                i <= n,
                n == orig.len(),
                d@ == dest@,
                rest@ == orig.skip(i as int),
                kept@ == orig.take(i as int).filter(keeps(dest@)),
            decreases n - i,
        {
            let e = rest.remove(0);
            assert(rest@ =~= orig.skip(i + 1));
            proof {
                assert(orig.take(i + 1) =~= orig.take(i as int).push(e));
                orig.take(i as int).lemma_filter_push(e, keeps(dest@));
            }
            if !(e.dest == d) {
                kept.push(e);
            }
            i = i + 1;
        }
        assert(orig.take(n as int) =~= orig);
        Config { tasks: kept }
    }
}

impl Default for Config {
    fn default() -> (r: Config)
        ensures
            r.tasks@ == Seq::<ConfigTask>::empty(),
    {
        Config::new()
    }
}

/// After an entry is taken out, no entry at that destination is left, and every
/// other entry is still there.
pub proof fn lemma_without_drops_only_dest(tasks: Seq<ConfigTask>, dest: Seq<char>)
    ensures
        forall|i: int|
            0 <= i < tasks.filter(keeps(dest)).len() ==> (#[trigger] tasks.filter(
                keeps(dest),
            )[i]).dest@ != dest,
        forall|e: ConfigTask|
            #[trigger] tasks.contains(e) && e.dest@ != dest ==> tasks.filter(keeps(dest)).contains(
                e,
            ),
{
    broadcast use vstd::seq_lib::group_filter_ensures;

    assert forall|i: int| 0 <= i < tasks.filter(keeps(dest)).len() implies (
    #[trigger] tasks.filter(keeps(dest))[i]).dest@ != dest by {
        tasks.lemma_filter_pred(keeps(dest), i);
    }
    assert forall|e: ConfigTask| #[trigger] tasks.contains(e) && e.dest@ != dest implies tasks.filter(
        keeps(dest),
    ).contains(e) by {
        let j = choose|j: int| 0 <= j < tasks.len() && tasks[j] == e;
        tasks.lemma_filter_contains(keeps(dest), j);
    }
}

} // verus!
