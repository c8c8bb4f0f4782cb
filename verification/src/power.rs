//! Letting the processes of the web view run on low power while its window is
//! hidden.

use vstd::prelude::*;

verus! {

/// A running process and the process that started it.
#[derive(Clone, Copy, Debug, PartialEq, Eq, Structural)]
pub struct ProcessEntry {
    pub pid: u32,
    pub parent: u32,
}

/// The processes that a process has started, in the order of the list.
pub open spec fn children_of(parent: u32, entries: Seq<ProcessEntry>) -> Seq<u32>
    decreases entries.len(),
{
    if entries.len() == 0 {
        Seq::empty()
    } else {
        let before = children_of(parent, entries.drop_last());
        if entries.last().parent == parent {
            before.push(entries.last().pid)
        } else {
            before
        }
    }
}

/// The processes whose power mode changes with that of a browser process: itself
/// first, and then the ones that it started, which use most of the time.
pub fn power_targets(browser_pid: u32, entries: &[ProcessEntry]) -> (r: Vec<u32>)
    ensures
        r@ == seq![browser_pid] + children_of(browser_pid, entries@),
{
    let mut targets: Vec<u32> = Vec::new();
    targets.push(browser_pid);
    assert(targets@ =~= seq![browser_pid] + children_of(browser_pid, entries@.take(0)));
    for i in 0..entries.len()
        invariant
            targets@ == seq![browser_pid] + children_of(browser_pid, entries@.take(i as int)),
    {
        let entry = entries[i];
        assert(entries@.take(i + 1).drop_last() =~= entries@.take(i as int));
        if entry.parent == browser_pid {
            targets.push(entry.pid);
        }
        assert(targets@ =~= seq![browser_pid] + children_of(browser_pid, entries@.take(i + 1)));
    }
    assert(entries@.take(entries@.len() as int) =~= entries@);
    targets
}

/// Whether the identity of the browser process can be used: the query succeeded
/// and did not give the number that stands for no process.
pub fn known_process(query_succeeded: bool, pid: u32) -> (r: Option<u32>)
    ensures
        r == if query_succeeded && pid != 0 {
            Some(pid)
        } else {
            None
        },
{
    if query_succeeded && pid != 0 {
        Some(pid)
    } else {
        None
    }
}

/// What the system is told about the speed of a process.
#[derive(Clone, Copy, Debug, PartialEq, Eq, Structural)]
pub struct Throttling {
    pub control_mask: u32,
    pub state_mask: u32,
}

/// The speed is always under control: low in the efficient mode, and high outside
/// of it, which takes back whatever was set before.
pub fn throttling(efficient: bool, execution_speed: u32) -> (r: Throttling)
    ensures
        r.control_mask == execution_speed,
        r.state_mask == if efficient {
            execution_speed
        } else {
            0
        },
{
    Throttling {
        control_mask: execution_speed,
        state_mask: if efficient {
            execution_speed
        } else {
            0
        },
    }
}

/// How much memory the web view aims at.
#[derive(Clone, Copy, Debug, PartialEq, Eq, Structural)]
pub enum MemoryTarget {
    Low,
    Normal,
}

pub fn memory_target(low_power: bool) -> (r: MemoryTarget)
    ensures
        r == if low_power {
            MemoryTarget::Low
        } else {
            MemoryTarget::Normal
        },
{
    if low_power {
        MemoryTarget::Low
    } else {
        MemoryTarget::Normal
    }
}

/// A process changes its power mode exactly where it is the browser process or
/// was started by it.
pub proof fn law_targets_are_the_browser_and_its_children(
    browser_pid: u32,
    entries: Seq<ProcessEntry>,
    pid: u32,
)
    ensures
        (seq![browser_pid] + children_of(browser_pid, entries)).contains(pid) <==> pid
            == browser_pid || exists|i: int|
            0 <= i < entries.len() && (#[trigger] entries[i]).parent == browser_pid
                && entries[i].pid == pid,
{
    let children = children_of(browser_pid, entries);
    let targets = seq![browser_pid] + children;
    lemma_children(browser_pid, entries, pid);
    if targets.contains(pid) {
        let k = choose|k: int| 0 <= k < targets.len() && targets[k] == pid;
        if k > 0 {
            assert(children[k - 1] == pid);
        }
    }
    if pid == browser_pid {
        assert(targets[0] == pid);
    }
    if children.contains(pid) {
        let k = choose|k: int| 0 <= k < children.len() && children[k] == pid;
        assert(targets[k + 1] == pid);
    }
}

proof fn lemma_children(parent: u32, entries: Seq<ProcessEntry>, pid: u32)
    ensures
        children_of(parent, entries).contains(pid) <==> exists|i: int|
            0 <= i < entries.len() && (#[trigger] entries[i]).parent == parent && entries[i].pid
                == pid,
    decreases entries.len(),
{
    if entries.len() > 0 {
        let earlier = entries.drop_last();
        let n = entries.len() - 1;
        lemma_children(parent, earlier, pid);
        let before = children_of(parent, earlier);
        let all = children_of(parent, entries);
        assert(entries[n] == entries.last());
        if all.contains(pid) {
            let k = choose|k: int| 0 <= k < all.len() && all[k] == pid;
            if k < before.len() {
                assert(before[k] == pid);
                let i = choose|i: int|
                    0 <= i < earlier.len() && (#[trigger] earlier[i]).parent == parent
                        && earlier[i].pid == pid;
                assert(entries[i] == earlier[i]);
            }
        }
        if exists|i: int|
            0 <= i < entries.len() && (#[trigger] entries[i]).parent == parent && entries[i].pid
                == pid {
            let i = choose|i: int|
                0 <= i < entries.len() && (#[trigger] entries[i]).parent == parent && entries[i].pid
                    == pid;
            if i < n {
                assert(earlier[i] == entries[i]);
                let k = choose|k: int| 0 <= k < before.len() && before[k] == pid;
                assert(all[k] == pid);
            } else {
                assert(all[all.len() - 1] == pid);
            }
        }
    }
}

/// The list is gone through entry by entry, in its order: each entry gives its own
/// process where the parent is the one asked for, and nothing where it is not.
pub proof fn law_children_go_by_entries(
    parent: u32,
    a: Seq<ProcessEntry>,
    b: Seq<ProcessEntry>,
    entry: ProcessEntry,
)
    ensures
        children_of(parent, a + b) == children_of(parent, a) + children_of(parent, b),
        children_of(parent, Seq::<ProcessEntry>::empty()).len() == 0,
        entry.parent == parent ==> children_of(parent, seq![entry]) == seq![entry.pid],
        entry.parent != parent ==> children_of(parent, seq![entry]).len() == 0,
    decreases b.len(),
{
    let empty = Seq::<ProcessEntry>::empty();
    assert(seq![entry].drop_last() =~= empty);
    assert(children_of(parent, empty) =~= Seq::<u32>::empty());
    if entry.parent == parent {
        assert(children_of(parent, seq![entry]) =~= seq![entry.pid]);
    }
    if b.len() == 0 {
        assert(a + b =~= a);
        assert(b =~= empty);
        assert(children_of(parent, a) + children_of(parent, b) =~= children_of(parent, a));
    } else {
        law_children_go_by_entries(parent, a, b.drop_last(), entry);
        assert((a + b).drop_last() =~= a + b.drop_last());
        assert((a + b).last() == b.last());
        let x = children_of(parent, a);
        let y = children_of(parent, b.drop_last());
        assert((x + y).push(b.last().pid) =~= x + y.push(b.last().pid));
    }
}

} // verus!
