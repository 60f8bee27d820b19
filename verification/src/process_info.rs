//! Process identities and process trees, over a snapshot of the process list.

use vstd::prelude::*;

use crate::table;
use crate::table::Table;
use crate::table::TableKey;

verus! {

/// What tells a process from a later one with the same number.
#[derive(Clone, Copy, Debug, PartialEq, Eq, PartialOrd, Ord, Hash, Structural)]
pub struct ProcessIdentityEvidence {
    pub pid: u32,
    pub start_time: u64,
}

impl TableKey for ProcessIdentityEvidence {
    type Key = ProcessIdentityEvidence;

    open spec fn key(&self) -> ProcessIdentityEvidence {
        *self
    }

    open spec fn code(key: ProcessIdentityEvidence) -> Seq<int> {
        seq![key.pid as int, key.start_time as int]
    }

    proof fn lemma_code_injective(a: ProcessIdentityEvidence, b: ProcessIdentityEvidence) {
        assert(Self::code(a)[0] == Self::code(b)[0]);
        assert(Self::code(a)[1] == Self::code(b)[1]);
    }

    fn code_of(&self) -> (code: Vec<u64>) {
        let mut code: Vec<u64> = Vec::new();
        code.push(self.pid as u64);
        code.push(self.start_time);
        assert(table::numbers(code@) =~= Self::code(self.key()));
        code
    }
}

/// Where process identities come from.
pub trait ProcessInfoProvider {
    fn identity_for_pid(&self, pid: u32) -> Option<ProcessIdentityEvidence>;

    fn process_tree_for_pid(&self, root_pid: u32) -> Option<Vec<ProcessIdentityEvidence>>;
}

/// One process of the list.
#[derive(Clone, Copy, Debug, PartialEq, Eq, Structural)]
pub struct ProcessEntry {
    pub pid: u32,
    pub parent: Option<u32>,
    pub start_time: u64,
}

/// The process list at one moment.
#[derive(Debug)]
pub struct ProcessSnapshot {
    pub entries: Vec<ProcessEntry>,
}

/// The first entry of a process in the list.
pub open spec fn entry_of(entries: Seq<ProcessEntry>, pid: u32) -> Option<ProcessEntry>
    decreases entries.len(),
{
    if entries.len() == 0 {
        None
    } else if entry_of(entries.drop_last(), pid) is Some {
        entry_of(entries.drop_last(), pid)
    } else if entries.last().pid == pid {
        Some(entries.last())
    } else {
        None
    }
}

/// The identity of a process in the list.
pub open spec fn identity_of(entries: Seq<ProcessEntry>, pid: u32) -> Option<
    ProcessIdentityEvidence,
> {
    match entry_of(entries, pid) {
        Some(entry) => Some(ProcessIdentityEvidence { pid, start_time: entry.start_time }),
        None => None,
    }
}

/// Whether `root` is `pid` or is met within the given number of steps from
/// process to parent.
pub open spec fn descends(entries: Seq<ProcessEntry>, pid: u32, root: u32, steps: nat) -> bool
    decreases steps,
{
    if pid == root {
        true
    } else if steps == 0 {
        false
    } else {
        match entry_of(entries, pid) {
            Some(entry) => match entry.parent {
                Some(parent) => descends(entries, parent, root, (steps - 1) as nat),
                None => false,
            },
            None => false,
        }
    }
}

/// Whether a process belongs to the tree below `root`. A chain of parents has
/// at most as many steps as the list has processes.
pub open spec fn in_tree(entries: Seq<ProcessEntry>, pid: u32, root: u32) -> bool {
    descends(entries, pid, root, entries.len())
}

/// An identity belongs to the tree below `root`.
pub open spec fn tree_holds(
    entries: Seq<ProcessEntry>,
    root: u32,
    identity: ProcessIdentityEvidence,
) -> bool {
    exists|i: int|
        {
            &&& 0 <= i < entries.len()
            &&& in_tree(entries, #[trigger] entries[i].pid, root)
            &&& identity_of(entries, entries[i].pid) == Some(identity)
        }
}

impl ProcessSnapshot {
    fn entry(&self, pid: u32) -> (entry: Option<ProcessEntry>)
        ensures
            entry == entry_of(self.entries@, pid),
    {
        let mut i: usize = 0;
        while i < self.entries.len()
            invariant
                i <= self.entries.len(),
                entry_of(self.entries@.take(i as int), pid) is None,
            decreases self.entries.len() - i,
        {
            assert(self.entries@.take(i + 1).drop_last() =~= self.entries@.take(i as int));
            if self.entries[i].pid == pid {
                proof {
                    lemma_entry_stays(self.entries@, i + 1, pid);
                }
                return Some(self.entries[i]);
            }
            i += 1;
        }
        assert(self.entries@.take(i as int) =~= self.entries@);
        None
    }

    fn process_identity(&self, pid: u32) -> (identity: Option<ProcessIdentityEvidence>)
        ensures
            identity == identity_of(self.entries@, pid),
    {
        match self.entry(pid) {
            Some(entry) => Some(ProcessIdentityEvidence { pid, start_time: entry.start_time }),
            None => None,
        }
    }

    /// Whether the process is `root` or one of its descendants.
    pub fn is_process_in_tree(&self, root: u32, pid: u32) -> (inside: bool)
        ensures
            inside == in_tree(self.entries@, pid, root),
    {
        let mut current = pid;
        let mut steps: usize = self.entries.len();
        loop
            invariant
                in_tree(self.entries@, pid, root) == descends(
                    self.entries@,
                    current,
                    root,
                    steps as nat,
                ),
            decreases steps,
        {
            if current == root {
                return true;
            }
            if steps == 0 {
                return false;
            }
            match self.entry(current) {
                Some(entry) => match entry.parent {
                    Some(parent) => {
                        current = parent;
                        steps -= 1;
                    },
                    None => {
                        return false;
                    },
                },
                None => {
                    return false;
                },
            }
        }
    }
}

proof fn lemma_entry_stays(entries: Seq<ProcessEntry>, i: int, pid: u32)
    requires
        0 <= i <= entries.len(),
        entry_of(entries.take(i), pid) is Some,
    ensures
        entry_of(entries, pid) == entry_of(entries.take(i), pid),
    decreases entries.len(),
{
    if i == entries.len() {
        assert(entries.take(i) =~= entries);
    } else {
        assert(entries.drop_last().take(i) =~= entries.take(i));
        lemma_entry_stays(entries.drop_last(), i, pid);
    }
}

impl ProcessInfoProvider for ProcessSnapshot {
    fn identity_for_pid(&self, pid: u32) -> (identity: Option<ProcessIdentityEvidence>)
        ensures
            identity == identity_of(self.entries@, pid),
    {
        self.process_identity(pid)
    }

    fn process_tree_for_pid(&self, root_pid: u32) -> (tree: Option<Vec<ProcessIdentityEvidence>>)
        ensures
            match tree {
                Some(identities) => {
                    &&& identity_of(self.entries@, root_pid) is Some
                    &&& table::ascending::<ProcessIdentityEvidence>(identities@)
                    &&& forall|identity: ProcessIdentityEvidence|
                        identities@.contains(identity) <==> #[trigger] tree_holds(
                            self.entries@,
                            root_pid,
                            identity,
                        )
                },
                None => identity_of(self.entries@, root_pid) is None,
            },
    {
        if self.process_identity(root_pid).is_none() {
            return None;
        }
        let mut found: Table<ProcessIdentityEvidence, bool> = Table::new();
        let mut i: usize = 0;
        while i < self.entries.len()
            invariant
                i <= self.entries.len(),
                forall|identity: ProcessIdentityEvidence|
                    found@.contains_key(identity) <==> exists|j: int|
                        {
                            &&& 0 <= j < i
                            &&& in_tree(self.entries@, #[trigger] self.entries@[j].pid, root_pid)
                            &&& identity_of(self.entries@, self.entries@[j].pid) == Some(identity)
                        },
            decreases self.entries.len() - i,
        {
            let ghost before = found@;
            let pid = self.entries[i].pid;
            if self.is_process_in_tree(root_pid, pid) {
                if let Some(identity) = self.process_identity(pid) {
                    let _ = found.insert(identity, true);
                }
            }
            proof {
                assert forall|identity: ProcessIdentityEvidence|
                    found@.contains_key(identity) <==> exists|j: int|
                        {
                            &&& 0 <= j < i + 1
                            &&& in_tree(self.entries@, #[trigger] self.entries@[j].pid, root_pid)
                            &&& identity_of(self.entries@, self.entries@[j].pid) == Some(identity)
                        } by {
                    if found@.contains_key(identity) {
                        if before.contains_key(identity) {
                            let j = choose|j: int|
                                {
                                    &&& 0 <= j < i
                                    &&& in_tree(
                                        self.entries@,
                                        #[trigger] self.entries@[j].pid,
                                        root_pid,
                                    )
                                    &&& identity_of(self.entries@, self.entries@[j].pid) == Some(
                                        identity,
                                    )
                                };
                            assert(in_tree(self.entries@, self.entries@[j].pid, root_pid));
                        } else {
                            assert(in_tree(self.entries@, self.entries@[i as int].pid, root_pid));
                        }
                    }
                }
            }
            i += 1;
        }
        let n = found.len();
        let mut identities: Vec<ProcessIdentityEvidence> = Vec::new();
        let mut k: usize = 0;
        while k < n
            invariant
                k <= n,
                n == found.ordered_keys().len(),
                identities@ == found.ordered_keys().take(k as int),
            decreases n - k,
        {
            identities.push(*found.key_at(k));
            assert(identities@ =~= found.ordered_keys().take(k + 1));
            k += 1;
        }
        proof {
            assert(found.ordered_keys().take(n as int) =~= found.ordered_keys());
            assert forall|identity: ProcessIdentityEvidence|
                identities@.contains(identity) <==> #[trigger] tree_holds(
                    self.entries@,
                    root_pid,
                    identity,
                ) by {
                assert(found.ordered_keys().to_set().contains(identity) == found@.dom().contains(
                    identity,
                ));
            }
        }
        Some(identities)
    }
}

/// A process that the list holds belongs to its own tree.
pub proof fn lemma_tree_holds_root(entries: Seq<ProcessEntry>, root: u32)
    requires
        identity_of(entries, root) is Some,
    ensures
        tree_holds(entries, root, identity_of(entries, root)->0),
{
    lemma_entry_listed(entries, root);
    let i = choose|i: int| 0 <= i < entries.len() && #[trigger] entries[i].pid == root;
    assert(in_tree(entries, entries[i].pid, root));
}

proof fn lemma_entry_listed(entries: Seq<ProcessEntry>, pid: u32)
    requires
        entry_of(entries, pid) is Some,
    ensures
        exists|i: int| 0 <= i < entries.len() && #[trigger] entries[i].pid == pid,
    decreases entries.len(),
{
    if entry_of(entries.drop_last(), pid) is Some {
        lemma_entry_listed(entries.drop_last(), pid);
        let i = choose|i: int|
            0 <= i < entries.drop_last().len() && #[trigger] entries.drop_last()[i].pid == pid;
        assert(entries[i].pid == pid);
    } else {
        assert(entries[entries.len() - 1].pid == pid);
    }
}

} // verus!
