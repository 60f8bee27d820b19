//! The registry: every sandbox of a session, what is pending, and the grants.

use std::collections::BTreeMap;
use std::collections::BTreeSet;

use vstd::prelude::*;
use vstd::std_specs::cmp::OrdSpec;
use vstd::std_specs::iter::IteratorSpec;

use crate::grant::GrantMatchOutcome;
use crate::grant::GrantView;
use crate::grant::ReadWriteAccessGrant;
use crate::grant::ReadWriteGrantLifetime;
use crate::host;
use crate::host::HostPath;
use crate::metadata::ObjectView;
use crate::metadata::PendingKeyView;
use crate::metadata::PendingOperationKey;
use crate::operation::MetadataOperation;
use crate::path::SandboxPath;
use crate::pending::MetadataRequestView;
use crate::pending::PendingMetadataRequest;
use crate::pending::PendingReadWriteRequest;
use crate::pending::PendingRequest;
use crate::pending::ReadWriteRequestView;
use crate::pending::RequestView;
use crate::policy::ProtectionKind;
use crate::process_info::ProcessIdentityEvidence;
use crate::sandbox::Sandbox;
use crate::sandbox::SandboxView;
use crate::sandbox::TrustedPathScope;
use crate::table;
use crate::table::Table;
use crate::text;
use crate::time::Timestamp;

verus! {

broadcast use {vstd::string::group_string_axioms, crate::table::group_shown};

/// A command that the user runs with leave to change metadata.
#[derive(Debug)]
pub struct TrustedOperation {
    pub id: u64,
    pub sandbox: String,
    pub token: String,
    pub pid: Option<u32>,
    pub uid: Option<u32>,
    pub mountpoint: HostPath,
    pub command: String,
    pub paths: Vec<TrustedPathScope>,
}

/// What a trusted operation says.
#[verifier::ext_equal]
pub struct TrustedView {
    pub id: u64,
    pub sandbox: Seq<char>,
    pub token: Seq<char>,
    pub pid: Option<u32>,
    pub uid: Option<u32>,
    pub mountpoint: Seq<char>,
    pub command: Seq<char>,
    pub paths: Seq<TrustedPathScope>,
}

impl View for TrustedOperation {
    type V = TrustedView;

    open spec fn view(&self) -> TrustedView {
        TrustedView {
            id: self.id,
            sandbox: self.sandbox@,
            token: self.token@,
            pid: self.pid,
            uid: self.uid,
            mountpoint: self.mountpoint@,
            command: self.command@,
            paths: self.paths@,
        }
    }
}

/// Every sandbox of a session, the requests that wait for a decision, and the
/// grants that were given.
#[derive(Debug)]
pub struct SandboxRegistry {
    pub sandboxes: Table<String, Sandbox>,
    pub pending: BTreeMap<u64, PendingMetadataRequest>,
    pub pending_read_write: BTreeMap<u64, PendingReadWriteRequest>,
    /// The requests that a caller waits for.
    pub pending_waiters: BTreeSet<u64>,
    pub pending_index: Table<PendingOperationKey, u64>,
    pub trusted: Table<String, TrustedOperation>,
    pub read_write_grants: BTreeMap<u64, ReadWriteAccessGrant>,
    pub next_operation_id: u64,
}

/// What the registry knows.
#[verifier::ext_equal]
pub struct RegistryView {
    pub sandboxes: Map<Seq<char>, SandboxView>,
    pub pending: Map<u64, MetadataRequestView>,
    pub pending_read_write: Map<u64, ReadWriteRequestView>,
    pub waiters: Set<u64>,
    pub index: Map<PendingKeyView, u64>,
    pub trusted: Map<Seq<char>, TrustedView>,
    pub grants: Map<u64, GrantView>,
    pub next_id: u64,
}

impl View for SandboxRegistry {
    type V = RegistryView;

    open spec fn view(&self) -> RegistryView {
        RegistryView {
            sandboxes: table::shown(self.sandboxes@),
            pending: table::shown(self.pending@),
            pending_read_write: table::shown(self.pending_read_write@),
            waiters: self.pending_waiters@,
            index: self.pending_index@,
            trusted: table::shown(self.trusted@),
            grants: table::shown(self.read_write_grants@),
            next_id: self.next_operation_id,
        }
    }
}

/// The index after a request claims keys.
pub open spec fn with_claims(
    index: Map<PendingKeyView, u64>,
    keys: Seq<PendingKeyView>,
    id: u64,
) -> Map<PendingKeyView, u64> {
    Map::new(
        |key: PendingKeyView| index.contains_key(key) || keys.contains(key),
        |key: PendingKeyView|
            if keys.contains(key) {
                id
            } else {
                index[key]
            },
    )
}

/// The index after a request gives up the keys that are still its own.
pub open spec fn without_claims(
    index: Map<PendingKeyView, u64>,
    keys: Seq<PendingKeyView>,
    id: u64,
) -> Map<PendingKeyView, u64> {
    Map::new(
        |key: PendingKeyView| index.contains_key(key) && !(keys.contains(key) && index[key] == id),
        |key: PendingKeyView| index[key],
    )
}

impl RegistryView {
    /// A registry without sandboxes.
    pub open spec fn empty() -> Self {
        RegistryView {
            sandboxes: Map::empty(),
            pending: Map::empty(),
            pending_read_write: Map::empty(),
            waiters: Set::empty(),
            index: Map::empty(),
            trusted: Map::empty(),
            grants: Map::empty(),
            next_id: 1,
        }
    }

    /// The numbers of requests and grants were handed out before.
    pub open spec fn handed_out(self) -> bool {
        &&& forall|id: u64| #[trigger] self.pending.contains_key(id) ==> id < self.next_id
        &&& forall|id: u64| #[trigger] self.pending_read_write.contains_key(id) ==> id < self.next_id
        &&& forall|id: u64| #[trigger] self.grants.contains_key(id) ==> id < self.next_id
    }

    /// Changes of metadata stand under their own numbers.
    pub open spec fn metadata_in_place(self) -> bool {
        forall|id: u64| #[trigger] self.pending.contains_key(id) ==> self.pending[id].id == id
    }

    /// Reads and writes stand under their own numbers.
    pub open spec fn reads_and_writes_in_place(self) -> bool {
        forall|id: u64| #[trigger]
            self.pending_read_write.contains_key(id) ==> self.pending_read_write[id].id == id
    }

    /// Grants stand under their own numbers.
    pub open spec fn grants_in_place(self) -> bool {
        forall|id: u64| #[trigger] self.grants.contains_key(id) ==> self.grants[id].id == id
    }

    /// No number is shared by a change of metadata and a read or write.
    pub open spec fn numbers_apart(self) -> bool {
        forall|id: u64|
            !(#[trigger] self.pending.contains_key(id) && self.pending_read_write.contains_key(id))
    }

    /// The pending requests can be listed by number.
    pub open spec fn listable(self) -> bool {
        &&& self.metadata_in_place()
        &&& self.reads_and_writes_in_place()
        &&& self.numbers_apart()
    }

    /// The index leads from its keys to requests that claim them.
    pub open spec fn index_leads_to_claims(self) -> bool {
        forall|key: PendingKeyView| #[trigger]
            self.index.contains_key(key) ==> self.pending.contains_key(self.index[key])
                && self.pending[self.index[key]].claims().contains(key)
    }

    /// The pending requests can be listed and taken out.
    pub open spec fn cancelable(self) -> bool {
        &&& self.listable()
        &&& self.index_leads_to_claims()
    }

    /// Requests and grants stand under their own numbers, and the index leads
    /// from every claimed key to the one request that claims it.
    pub open spec fn consistent(self) -> bool {
        &&& self.cancelable()
        &&& self.grants_in_place()
        &&& forall|id: u64, key: PendingKeyView|
            #![trigger self.pending[id].claims().contains(key)]
            self.pending.contains_key(id) && self.pending[id].claims().contains(key)
                ==> self.index.contains_key(key) && self.index[key] == id
    }

    /// The pending request with a number.
    pub open spec fn request(self, id: u64) -> Option<RequestView> {
        if self.pending.contains_key(id) {
            Some(RequestView::Metadata(self.pending[id]))
        } else if self.pending_read_write.contains_key(id) {
            Some(RequestView::ReadWrite(self.pending_read_write[id]))
        } else {
            None
        }
    }

    /// The registry without a pending request.
    pub open spec fn without_request(self, id: u64) -> Self {
        if self.pending.contains_key(id) {
            RegistryView {
                pending: self.pending.remove(id),
                index: without_claims(self.index, self.pending[id].claims(), id),
                ..self
            }
        } else {
            RegistryView { pending_read_write: self.pending_read_write.remove(id), ..self }
        }
    }

    /// The registry with one more pending request.
    pub open spec fn with_request(self, request: RequestView) -> Self {
        match request {
            RequestView::Metadata(request) => RegistryView {
                pending: self.pending.insert(request.id, request),
                index: with_claims(self.index, request.claims(), request.id),
                ..self
            },
            RequestView::ReadWrite(request) => RegistryView {
                pending_read_write: self.pending_read_write.insert(request.id, request),
                ..self
            },
        }
    }

    /// A request of the sandbox is pending.
    pub open spec fn is_pending(self, name: Seq<char>, request: RequestView) -> bool {
        &&& request.sandbox() == name
        &&& match request {
            RequestView::Metadata(r) => self.pending.contains_key(r.id) && self.pending[r.id] == r,
            RequestView::ReadWrite(r) => self.pending_read_write.contains_key(r.id)
                && self.pending_read_write[r.id] == r,
        }
    }

    /// The grants that are left when those of the sandbox that are over go.
    pub open spec fn unexpired(self, sandbox: Seq<char>, now: Timestamp) -> Map<u64, GrantView> {
        Map::new(
            |id: u64|
                self.grants.contains_key(id) && !(self.grants[id].sandbox == sandbox
                    && self.grants[id].lifetime.over(now)),
            |id: u64| self.grants[id],
        )
    }

    /// The grant with the number is the first that covers the intent.
    pub open spec fn first_cover(
        self,
        grant_id: u64,
        sandbox: Seq<char>,
        kind: ProtectionKind,
        path: SandboxPath,
        identity: Option<ProcessIdentityEvidence>,
        now: Timestamp,
    ) -> bool {
        &&& self.grants.contains_key(grant_id)
        &&& self.grants[grant_id].covers(sandbox, kind, path, identity, now)
        &&& forall|id: u64| #[trigger]
            self.grants.contains_key(id) && id < grant_id ==> !self.grants[id].covers(
                sandbox,
                kind,
                path,
                identity,
                now,
            )
    }
}

proof fn lemma_ascending(keys: Seq<u64>)
    requires
        vstd::std_specs::btree::increasing_seq(keys),
    ensures
        forall|i: int, j: int| 0 <= i < j < keys.len() ==> keys[i] < keys[j],
{
    assert forall|i: int, j: int| 0 <= i < j < keys.len() implies keys[i] < keys[j] by {
        assert(keys[i].cmp_spec(&keys[j]) is Less);
    }
}

/// The numbers that a map holds values for, in ascending order.
pub fn numbers_of<V>(map: &BTreeMap<u64, V>) -> (numbers: Vec<u64>)
    ensures
        forall|i: int, j: int| 0 <= i < j < numbers.len() ==> numbers@[i] < numbers@[j],
        forall|n: u64| numbers@.contains(n) <==> #[trigger] map@.contains_key(n),
{
    let mut numbers: Vec<u64> = Vec::new();
    let entries = map.iter();
    let ghost all = entries.remaining();
    let ghost keys = all.map_values(|kv: (&u64, &V)| *kv.0);
    for entry in it: entries
        invariant
            it.seq() == all,
            keys == all.map_values(|kv: (&u64, &V)| *kv.0),
            numbers@ == keys.take(it.index() as int),
    {
        let ghost i = it.index() as int;
        assert(keys[i] == *all[i].0);
        numbers.push(*entry.0);
        assert(numbers@ =~= keys.take(i + 1));
    }
    proof {
        assert(keys.take(all.len() as int) =~= keys);
        lemma_ascending(keys);
        assert forall|n: u64| numbers@.contains(n) <==> #[trigger] map@.contains_key(n) by {
            if map@.contains_key(n) {
                assert(all.contains((&n, &map@[n])));
                let i = choose|i: int| 0 <= i < all.len() && all[i] == (&n, &map@[n]);
                assert(keys[i] == n);
            }
            if numbers@.contains(n) {
                let i = choose|i: int| 0 <= i < keys.len() && keys[i] == n;
                assert(map@.contains_key(*all[i].0));
            }
        }
    }
    numbers
}

impl SandboxRegistry {
    pub fn new() -> (registry: Self)
        ensures
            registry@ == RegistryView::empty(),
            registry@.consistent(),
    {
        let registry = SandboxRegistry {
            sandboxes: Table::new(),
            pending: BTreeMap::new(),
            pending_read_write: BTreeMap::new(),
            pending_waiters: BTreeSet::new(),
            pending_index: Table::new(),
            trusted: Table::new(),
            read_write_grants: BTreeMap::new(),
            next_operation_id: 1,
        };
        assert(registry@ =~= RegistryView::empty());
        registry
    }

    /// Hands out the next number.
    pub fn next_operation_id(&mut self) -> (id: u64)
        requires
            old(self)@.next_id < u64::MAX,
        ensures
            id == old(self)@.next_id,
            final(self)@ == (RegistryView { next_id: (id + 1) as u64, ..old(self)@ }),
    {
        let id = self.next_operation_id;
        self.next_operation_id = id + 1;
        id
    }

    /// The mountpoints of all attached views, by their parts.
    pub fn attach_index(&self) -> (mountpoints: Vec<HostPath>)
        ensures
            forall|at: Seq<Seq<char>>| #[trigger]
                is_mountpoint(self@, at) <==> exists|i: int|
                    0 <= i < mountpoints.len() && host::parts((#[trigger] mountpoints@[i])@) == at,
    {
        let mut mountpoints: Vec<HostPath> = Vec::new();
        let n = self.sandboxes.len();
        let ghost names = self.sandboxes.ordered_keys();
        let mut i: usize = 0;
        while i < n
            invariant
                i <= n == names.len(),
                names == self.sandboxes.ordered_keys(),
                names.to_set() == self.sandboxes@.dom(),
                forall|at: Seq<Seq<char>>| #[trigger]
                    mounted_in(self@, names.take(i as int), at) <==> exists|k: int|
                        0 <= k < mountpoints.len() && host::parts((#[trigger] mountpoints@[k])@) == at,
            decreases n - i,
        {
            let attaches = &self.sandboxes.value_at(i).attaches;
            let ghost before = mountpoints@;
            let m = attaches.len();
            let ghost keys = attaches.ordered_keys();
            assert(names.to_set().contains(names[i as int]));
            let mut j: usize = 0;
            while j < m
                invariant
                    i < n,
                    j <= m == keys.len(),
                    keys == attaches.ordered_keys(),
                    mountpoints.len() == before.len() + j,
                    forall|k: int| 0 <= k < before.len() ==> mountpoints@[k] == before[k],
                    forall|k: int| 0 <= k < j ==> host::parts((#[trigger] mountpoints@[before.len() + k])@) == keys[k],
                decreases m - j,
            {
                mountpoints.push(attaches.key_at(j).clone());
                j += 1;
            }
            proof {
                table::lemma_take_next(names, i as int);
                assert forall|at: Seq<Seq<char>>| #[trigger]
                    mounted_in(self@, names.take(i + 1), at) <==> exists|k: int|
                        0 <= k < mountpoints.len() && host::parts((#[trigger] mountpoints@[k])@) == at by {
                    let old_list = mounted_in(self@, names.take(i as int), at);
                    if old_list {
                        let k = choose|k: int|
                            0 <= k < before.len() && host::parts((#[trigger] before[k])@) == at;
                        assert(host::parts(mountpoints@[k]@) == at);
                        let name = choose|name: Seq<char>| #[trigger]
                            names.take(i as int).contains(name)
                                && self@.sandboxes[name].attaches.contains_key(at);
                        assert(names.take(i + 1).contains(name));
                    }
                    if attaches@.contains_key(at) {
                        assert(keys.to_set().contains(at));
                        let k = choose|k: int| 0 <= k < keys.len() && keys[k] == at;
                        assert(host::parts(mountpoints@[before.len() + k]@) == at);
                        assert(names.take(i + 1).contains(names[i as int]));
                    }
                    if mounted_in(self@, names.take(i + 1), at) {
                        let name = choose|name: Seq<char>| #[trigger]
                            names.take(i + 1).contains(name)
                                && self@.sandboxes[name].attaches.contains_key(at);
                        if names.take(i as int).contains(name) {
                            assert(old_list);
                        }
                    }
                    if exists|k: int|
                        0 <= k < mountpoints.len() && host::parts((#[trigger] mountpoints@[k])@) == at {
                        let k = choose|k: int|
                            0 <= k < mountpoints.len() && host::parts((#[trigger] mountpoints@[k])@) == at;
                        if k < before.len() {
                            assert(host::parts(before[k]@) == at);
                        } else {
                            let d = k - before.len();
                            assert(host::parts(mountpoints@[before.len() + d]@) == keys[d]);
                            assert(keys.to_set().contains(keys[d]));
                        }
                    }
                }
            }
            i += 1;
        }
        proof {
            assert(names.take(n as int) =~= names);
            assert forall|at: Seq<Seq<char>>| #[trigger] is_mountpoint(self@, at) <==> mounted_in(
                self@,
                names,
                at,
            ) by {
                if is_mountpoint(self@, at) {
                    let name = choose|name: Seq<char>| #[trigger]
                        self@.sandboxes.contains_key(name)
                            && self@.sandboxes[name].attaches.contains_key(at);
                    assert(names.to_set().contains(name));
                    assert(names.contains(name));
                }
                if mounted_in(self@, names, at) {
                    let name = choose|name: Seq<char>| #[trigger]
                        names.contains(name) && self@.sandboxes[name].attaches.contains_key(at);
                    assert(names.to_set().contains(name));
                    assert(self@.sandboxes.contains_key(name));
                }
            }
        }
        mountpoints
    }

    /// Adds a pending change of metadata; its keys lead to it from now on.
    pub fn insert_pending_request(&mut self, request: PendingMetadataRequest)
        ensures
            final(self)@ == old(self)@.with_request(RequestView::Metadata(request@)),
    {
        let keys = request.keys();
        let ghost claims = request@.claims();
        let ghost start = self.pending_index@;
        let id = request.id;
        let mut rest = keys;
        assert(with_claims(start, claims.skip(claims.len() as int), id) =~= start);
        while rest.len() > 0
            invariant
                rest.len() <= claims.len(),
                forall|i: int| 0 <= i < rest.len() ==> (#[trigger] rest@[i])@ == claims[i],
                self@ == (RegistryView {
                    index: with_claims(start, claims.skip(rest.len() as int), id),
                    ..old(self)@
                }),
            decreases rest.len(),
        {
            let ghost n = rest.len() as int;
            if let Some(key) = rest.pop() {
                let ghost before = self.pending_index@;
                let ghost k = key@;
                let _ = self.pending_index.insert(key, id);
                proof {
                    lemma_skip_contains(claims, n - 1);
                    assert(with_claims(start, claims.skip(n - 1), id) =~= before.insert(k, id));
                }
            }
        }
        assert(claims.skip(0) =~= claims);
        let _ = self.pending.insert(id, request);
    }

    pub fn insert_pending_read_write_request(&mut self, request: PendingReadWriteRequest)
        ensures
            final(self)@ == old(self)@.with_request(RequestView::ReadWrite(request@)),
    {
        let _ = self.pending_read_write.insert(request.id, request);
    }

    /// Takes a pending change of metadata out, and the keys that still lead to
    /// it.
    pub fn remove_pending_request(&mut self, id: u64) -> (removed: Option<PendingMetadataRequest>)
        ensures
            match removed {
                Some(request) => old(self)@.pending.contains_key(id) && request@ == old(
                    self,
                )@.pending[id] && final(self)@ == old(self)@.without_request(id),
                None => !old(self)@.pending.contains_key(id) && final(self)@ == old(self)@,
            },
    {
        let request = match self.pending.remove(&id) {
            Some(request) => request,
            None => {
                assert(self.pending@ =~= old(self).pending@);
                return None;
            },
        };
        let keys = request.keys();
        let ghost claims = request@.claims();
        let ghost start = self.pending_index@;
        let mut i: usize = 0;
        assert(without_claims(start, claims.take(0), id) =~= start);
        while i < keys.len()
            invariant
                i <= keys.len() == claims.len(),
                forall|j: int| 0 <= j < keys.len() ==> (#[trigger] keys@[j])@ == claims[j],
                self@ == (RegistryView {
                    pending: old(self)@.pending.remove(id),
                    index: without_claims(start, claims.take(i as int), id),
                    ..old(self)@
                }),
            decreases keys.len() - i,
        {
            let ghost before = self.pending_index@;
            let ghost k = keys@[i as int]@;
            let own = match self.pending_index.get(&keys[i]) {
                Some(holder) => *holder == id,
                None => false,
            };
            if own {
                let _ = self.pending_index.remove(&keys[i]);
            }
            proof {
                table::lemma_take_next(claims, i as int);
                if own {
                    assert(without_claims(start, claims.take(i + 1), id) =~= before.remove(k));
                } else {
                    assert(without_claims(start, claims.take(i + 1), id) =~= before);
                }
            }
            i += 1;
        }
        assert(claims.take(claims.len() as int) =~= claims);
        Some(request)
    }

    pub fn remove_pending_read_write_request(&mut self, id: u64) -> (removed: Option<
        PendingReadWriteRequest,
    >)
        ensures
            final(self)@ == (RegistryView {
                pending_read_write: old(self)@.pending_read_write.remove(id),
                ..old(self)@
            }),
            match removed {
                Some(request) => old(self)@.pending_read_write.contains_key(id) && request@ == old(
                    self,
                )@.pending_read_write[id],
                None => !old(self)@.pending_read_write.contains_key(id),
            },
    {
        self.pending_read_write.remove(&id)
    }

    /// Takes the pending request with a number out.
    pub fn remove_any_pending_request(&mut self, id: u64) -> (removed: Option<PendingRequest>)
        ensures
            match removed {
                Some(request) => old(self)@.request(id) == Some(request@) && final(self)@ == old(
                    self,
                )@.without_request(id),
                None => old(self)@.request(id) is None && final(self)@ == old(self)@,
            },
    {
        if let Some(request) = self.remove_pending_request(id) {
            return Some(PendingRequest::Metadata(request));
        }
        match self.remove_pending_read_write_request(id) {
            Some(request) => Some(PendingRequest::ReadWrite(request)),
            None => {
                assert(old(self)@.pending_read_write.remove(id) =~= old(self)@.pending_read_write);
                None
            },
        }
    }

    pub fn insert_any_pending_request(&mut self, request: PendingRequest)
        ensures
            final(self)@ == old(self)@.with_request(request@),
    {
        match request {
            PendingRequest::Metadata(request) => self.insert_pending_request(request),
            PendingRequest::ReadWrite(request) => self.insert_pending_read_write_request(request),
        }
    }

    /// The pending requests of a sandbox by number.
    pub fn pending_requests_for_sandbox(&self, name: &str) -> (items: Vec<PendingRequest>)
        requires
            self@.listable(),
        ensures
            listing_of(self@, name@, views(items@)),
    {
        let metadata = numbers_of(&self.pending);
        let read_write = numbers_of(&self.pending_read_write);
        let mut items: Vec<PendingRequest> = Vec::new();
        let mut i: usize = 0;
        let mut j: usize = 0;
        while i < metadata.len() || j < read_write.len()
            invariant
                i <= metadata.len(),
                j <= read_write.len(),
                self@.listable(),
                forall|a: int, b: int|
                    0 <= a < b < metadata.len() ==> metadata@[a] < metadata@[b],
                forall|a: int, b: int|
                    0 <= a < b < read_write.len() ==> read_write@[a] < read_write@[b],
                forall|n: u64| metadata@.contains(n) <==> #[trigger] self.pending@.contains_key(n),
                forall|n: u64|
                    read_write@.contains(n) <==> #[trigger] self.pending_read_write@.contains_key(n),
                listing_until(
                    self@,
                    name@,
                    views(items@),
                    metadata@.take(i as int),
                    read_write@.take(j as int),
                ),
                forall|k: int|
                    0 <= k < items.len() ==> {
                        let id = (#[trigger] items@[k])@.id();
                        &&& i < metadata.len() ==> id < metadata@[i as int]
                        &&& j < read_write.len() ==> id < read_write@[j as int]
                    },
            decreases metadata.len() - i + read_write.len() - j,
        {
            let ghost before = items@;
            let ghost done_a = metadata@.take(i as int);
            let ghost done_b = read_write@.take(j as int);
            let first = j >= read_write.len() || (i < metadata.len() && metadata[i] <= read_write[j]);
            if first {
                let id = metadata[i];
                assert(metadata@.contains(id));
                assert(self.pending@.contains_key(id));
                assert(self@.pending.contains_key(id));
                proof {
                    table::lemma_take_next(metadata@, i as int);
                    if j < read_write.len() {
                        assert(read_write@.contains(read_write@[j as int]));
                        assert(self@.pending_read_write.contains_key(read_write@[j as int]));
                    }
                }
                match self.pending.get(&id) {
                    Some(request) => {
                        if text::same_text(request.sandbox.as_str(), name) {
                            items.push(PendingRequest::Metadata(request.clone()));
                            proof {
                                lemma_listing_grows_metadata(
                                    self@,
                                    name@,
                                    views(before),
                                    done_a,
                                    done_b,
                                    id,
                                );
                                assert(views(items@) =~= views(before).push(
                                    RequestView::Metadata(self@.pending[id]),
                                ));
                            }
                        } else {
                            proof {
                                lemma_listing_skips(self@, name@, views(before), done_a, done_b, id);
                            }
                        }
                    },
                    None => {},
                }
                i += 1;
            } else {
                let id = read_write[j];
                assert(read_write@.contains(id));
                assert(self.pending_read_write@.contains_key(id));
                assert(self@.pending_read_write.contains_key(id));
                proof {
                    table::lemma_take_next(read_write@, j as int);
                }
                match self.pending_read_write.get(&id) {
                    Some(request) => {
                        if text::same_text(request.sandbox.as_str(), name) {
                            items.push(PendingRequest::ReadWrite(request.clone()));
                            proof {
                                lemma_listing_grows_read_write(
                                    self@,
                                    name@,
                                    views(before),
                                    done_a,
                                    done_b,
                                    id,
                                );
                                assert(views(items@) =~= views(before).push(
                                    RequestView::ReadWrite(self@.pending_read_write[id]),
                                ));
                            }
                        } else {
                            proof {
                                lemma_listing_skips(self@, name@, views(before), done_a, done_b, id);
                            }
                        }
                    },
                    None => {},
                }
                j += 1;
            }
        }
        proof {
            assert(metadata@.take(i as int) =~= metadata@);
            assert(read_write@.take(j as int) =~= read_write@);
            assert forall|request: RequestView| #[trigger]
                views(items@).contains(request) <==> self@.is_pending(name@, request) by {
                match request {
                    RequestView::Metadata(r) => {
                        assert(metadata@.contains(r.id) == self.pending@.contains_key(r.id));
                    },
                    RequestView::ReadWrite(r) => {
                        assert(read_write@.contains(r.id) == self.pending_read_write@.contains_key(
                            r.id,
                        ));
                    },
                }
            }
        }
        items
    }

    pub fn insert_read_write_grant(&mut self, grant: ReadWriteAccessGrant)
        ensures
            final(self)@ == (RegistryView {
                grants: old(self)@.grants.insert(grant.id, grant@),
                ..old(self)@
            }),
    {
        let _ = self.read_write_grants.insert(grant.id, grant);
    }

    /// Takes the grants of a sandbox out that are over, by number.
    pub fn prune_expired_read_write_grants_for_sandbox(
        &mut self,
        sandbox: &str,
        now: Timestamp,
    ) -> (removed: Vec<ReadWriteAccessGrant>)
        requires
            old(self)@.grants_in_place(),
        ensures
            final(self)@ == (RegistryView {
                grants: old(self)@.unexpired(sandbox@, now),
                ..old(self)@
            }),
            forall|i: int, j: int|
                0 <= i < j < removed.len() ==> (#[trigger] removed@[i]).id < (
                #[trigger] removed@[j]).id,
            forall|i: int|
                0 <= i < removed.len() ==> is_expired_grant(
                    old(self)@,
                    sandbox@,
                    now,
                    (#[trigger] removed@[i])@,
                ),
            forall|id: u64|
                #![trigger old(self)@.grants.contains_key(id)]
                old(self)@.grants.contains_key(id) && old(self)@.grants[id].sandbox == sandbox@ && old(
                    self,
                )@.grants[id].lifetime.over(now) ==> exists|i: int|
                    0 <= i < removed.len() && (#[trigger] removed@[i])@ == old(self)@.grants[id],
    {
        let ids = numbers_of(&self.read_write_grants);
        let ghost start = self@;
        let mut removed: Vec<ReadWriteAccessGrant> = Vec::new();
        let mut i: usize = 0;
        assert(start.unexpired_among(Seq::empty(), sandbox@, now) =~= start.grants);
        assert(ids@.take(0) =~= Seq::<u64>::empty());
        while i < ids.len()
            invariant
                i <= ids.len(),
                start.grants_in_place(),
                start == old(self)@,
                forall|a: int, b: int| 0 <= a < b < ids.len() ==> ids@[a] < ids@[b],
                forall|n: u64| ids@.contains(n) <==> #[trigger] start.grants.contains_key(n),
                self@ == (RegistryView {
                    grants: start.unexpired_among(ids@.take(i as int), sandbox@, now),
                    ..start
                }),
                forall|a: int, b: int|
                    0 <= a < b < removed.len() ==> (#[trigger] removed@[a]).id < (
                    #[trigger] removed@[b]).id,
                forall|a: int|
                    0 <= a < removed.len() ==> is_expired_grant(
                        start,
                        sandbox@,
                        now,
                        (#[trigger] removed@[a])@,
                    ) && (i < ids.len() ==> removed@[a].id < ids@[i as int]),
                forall|id: u64|
                    #![trigger ids@.take(i as int).contains(id)]
                    ids@.take(i as int).contains(id) && start.grants[id].sandbox == sandbox@
                        && start.grants[id].lifetime.over(now) ==> exists|a: int|
                        0 <= a < removed.len() && (#[trigger] removed@[a])@ == start.grants[id],
            decreases ids.len() - i,
        {
            let id = ids[i];
            let ghost before = self.read_write_grants@;
            let ghost gone = removed@;
            assert(ids@.contains(id));
            assert(start.grants.contains_key(id));
            assert(!ids@.take(i as int).contains(id)) by {
                if ids@.take(i as int).contains(id) {
                    let a = choose|a: int| 0 <= a < i && ids@.take(i as int)[a] == id;
                    assert(ids@[a] == id);
                }
            }
            assert(self@.grants.contains_key(id));
            assert(self.read_write_grants@.contains_key(id));
            assert(self.read_write_grants@[id]@ == self@.grants[id]);
            assert(self@.grants[id] == start.grants[id]);
            let ghost held = self@.grants;
            let expired = match self.read_write_grants.get(&id) {
                Some(grant) => text::same_text(grant.sandbox.as_str(), sandbox)
                    && grant.lifetime.is_expired(now),
                None => false,
            };
            if expired {
                if let Some(grant) = self.read_write_grants.remove(&id) {
                    assert(grant@ == start.grants[id]);
                    removed.push(grant);
                }
            }
            proof {
                table::lemma_take_next(ids@, i as int);
                assert(self@.grants == if expired {
                    held.remove(id)
                } else {
                    held
                });
                assert(self@.grants =~= start.unexpired_among(ids@.take(i + 1), sandbox@, now));
                assert forall|other: u64|
                    #![trigger ids@.take(i + 1).contains(other)]
                    ids@.take(i + 1).contains(other) && start.grants[other].sandbox == sandbox@
                        && start.grants[other].lifetime.over(now) implies exists|a: int|
                    0 <= a < removed.len() && (#[trigger] removed@[a])@ == start.grants[other] by {
                    if other == id {
                        assert(removed@[gone.len() as int]@ == start.grants[id]);
                    } else {
                        assert(ids@.take(i as int).contains(other));
                        let a = choose|a: int|
                            0 <= a < gone.len() && (#[trigger] gone[a])@ == start.grants[other];
                        assert(removed@[a]@ == start.grants[other]);
                    }
                }
            }
            i += 1;
        }
        proof {
            assert(ids@.take(ids.len() as int) =~= ids@);
            assert(start.unexpired_among(ids@, sandbox@, now) =~= start.unexpired(sandbox@, now));
            assert forall|id: u64|
                #![trigger old(self)@.grants.contains_key(id)]
                old(self)@.grants.contains_key(id) && old(self)@.grants[id].sandbox == sandbox@ && old(
                    self,
                )@.grants[id].lifetime.over(now) implies exists|i: int|
                0 <= i < removed.len() && (#[trigger] removed@[i])@ == old(self)@.grants[id] by {
                assert(ids@.contains(id));
            }
        }
        removed
    }

    /// Finds the first grant that covers an intent; a grant for one use is
    /// used up by it.
    pub fn match_read_write_grant_for_intent(
        &mut self,
        sandbox: &str,
        kind: ProtectionKind,
        path: &SandboxPath,
        identity: Option<ProcessIdentityEvidence>,
        now: Timestamp,
    ) -> (outcome: GrantMatchOutcome)
        ensures
            match outcome {
                GrantMatchOutcome::Matched { grant_id, consumed } => {
                    &&& old(self)@.first_cover(grant_id, sandbox@, kind, *path, identity, now)
                    &&& consumed == (old(self)@.grants[grant_id].lifetime is OneShot)
                    &&& final(self)@ == if consumed {
                        RegistryView { grants: old(self)@.grants.remove(grant_id), ..old(self)@ }
                    } else {
                        old(self)@
                    }
                },
                GrantMatchOutcome::NotMatched => {
                    &&& forall|id: u64| #[trigger]
                        old(self)@.grants.contains_key(id) ==> !old(self)@.grants[id].covers(
                            sandbox@,
                            kind,
                            *path,
                            identity,
                            now,
                        )
                    &&& final(self)@ == old(self)@
                },
            },
    {
        let ids = numbers_of(&self.read_write_grants);
        let mut i: usize = 0;
        while i < ids.len()
            invariant
                i <= ids.len(),
                self@ == old(self)@,
                forall|a: int, b: int| 0 <= a < b < ids.len() ==> ids@[a] < ids@[b],
                forall|n: u64| ids@.contains(n) <==> #[trigger] self.read_write_grants@.contains_key(n),
                forall|a: int|
                    0 <= a < i ==> !self@.grants[#[trigger] ids@[a]].covers(
                        sandbox@,
                        kind,
                        *path,
                        identity,
                        now,
                    ),
            decreases ids.len() - i,
        {
            let id = ids[i];
            assert(ids@.contains(id));
            assert(self.read_write_grants@.contains_key(id));
            let mut matched = false;
            let mut consumed = false;
            if let Some(grant) = self.read_write_grants.get(&id) {
                if grant.matches_intent(sandbox, kind, path, identity, now) {
                    matched = true;
                    consumed = match grant.lifetime {
                        ReadWriteGrantLifetime::OneShot => true,
                        ReadWriteGrantLifetime::Duration { .. } => false,
                    };
                }
            }
            if matched {
                proof {
                    assert forall|other: u64| #[trigger]
                        self@.grants.contains_key(other) && other < id implies !self@.grants[other].covers(
                        sandbox@,
                        kind,
                        *path,
                        identity,
                        now,
                    ) by {
                        assert(self.read_write_grants@.contains_key(other));
                        assert(ids@.contains(other));
                        let a = choose|a: int| 0 <= a < ids.len() && ids@[a] == other;
                        if a >= i {
                            assert(ids@[a] >= ids@[i as int]);
                        }
                    }
                }
                if consumed {
                    let _ = self.read_write_grants.remove(&id);
                }
                return GrantMatchOutcome::Matched { grant_id: id, consumed };
            }
            i += 1;
        }
        proof {
            assert forall|id: u64| #[trigger] old(self)@.grants.contains_key(id) implies !old(
                self,
            )@.grants[id].covers(sandbox@, kind, *path, identity, now) by {
                assert(self.read_write_grants@.contains_key(id));
                assert(ids@.contains(id));
                let a = choose|a: int| 0 <= a < ids.len() && ids@[a] == id;
                assert(!self@.grants[ids@[a]].covers(sandbox@, kind, *path, identity, now));
            }
        }
        GrantMatchOutcome::NotMatched
    }

    /// The pending reads and writes that a grant covers, by number.
    pub fn matching_pending_read_write_ids_for_grant(
        &self,
        grant: &ReadWriteAccessGrant,
        now: Timestamp,
    ) -> (ids: Vec<u64>)
        requires
            self@.reads_and_writes_in_place(),
        ensures
            forall|i: int, j: int| 0 <= i < j < ids.len() ==> ids@[i] < ids@[j],
            forall|id: u64| #[trigger]
                ids@.contains(id) <==> self@.pending_read_write.contains_key(id)
                    && grant@.covers_request(self@.pending_read_write[id], now),
    {
        let all = numbers_of(&self.pending_read_write);
        let mut ids: Vec<u64> = Vec::new();
        let mut i: usize = 0;
        while i < all.len()
            invariant
                i <= all.len(),
                self@.reads_and_writes_in_place(),
                forall|a: int, b: int| 0 <= a < b < all.len() ==> all@[a] < all@[b],
                forall|n: u64| all@.contains(n) <==> #[trigger] self@.pending_read_write.contains_key(n),
                forall|a: int, b: int| 0 <= a < b < ids.len() ==> ids@[a] < ids@[b],
                forall|a: int| 0 <= a < ids.len() && i < all.len() ==> #[trigger] ids@[a] < all@[i as int],
                forall|id: u64| #[trigger]
                    ids@.contains(id) <==> all@.take(i as int).contains(id) && grant@.covers_request(
                        self@.pending_read_write[id],
                        now,
                    ),
            decreases all.len() - i,
        {
            let id = all[i];
            let ghost before = ids@;
            assert(all@.contains(id));
            assert(self@.pending_read_write.contains_key(id));
            assert(self.pending_read_write@.contains_key(id));
            if let Some(request) = self.pending_read_write.get(&id) {
                if grant.matches_request(request, now) {
                    ids.push(request.id);
                }
            }
            proof {
                table::lemma_take_next(all@, i as int);
                table::lemma_push_contains(before, id);
                assert forall|other: u64| #[trigger]
                    ids@.contains(other) <==> all@.take(i + 1).contains(other)
                        && grant@.covers_request(self@.pending_read_write[other], now) by {
                    assert(before.contains(other) <==> all@.take(i as int).contains(other)
                        && grant@.covers_request(self@.pending_read_write[other], now));
                    assert(before.push(id).contains(other) <==> before.contains(other) || other == id);
                }
            }
            i += 1;
        }
        proof {
            assert(all@.take(all.len() as int) =~= all@);
        }
        ids
    }
}

proof fn lemma_skip_contains<T>(s: Seq<T>, i: int)
    requires
        0 <= i < s.len(),
    ensures
        forall|x: T| #[trigger] s.skip(i).contains(x) <==> s.skip(i + 1).contains(x) || x == s[i],
{
    let longer = s.skip(i);
    let shorter = s.skip(i + 1);
    assert forall|x: T| #[trigger] longer.contains(x) <==> shorter.contains(x) || x == s[i] by {
        if longer.contains(x) {
            let j = choose|j: int| 0 <= j < longer.len() && longer[j] == x;
            if j > 0 {
                assert(shorter[j - 1] == x);
            }
        }
        if shorter.contains(x) {
            let j = choose|j: int| 0 <= j < shorter.len() && shorter[j] == x;
            assert(longer[j + 1] == x);
        }
        assert(longer[0] == s[i]);
    }
}

/// A grant of the sandbox that is over.
pub open spec fn is_expired_grant(
    registry: RegistryView,
    sandbox: Seq<char>,
    now: Timestamp,
    grant: GrantView,
) -> bool {
    &&& registry.grants.contains_key(grant.id)
    &&& registry.grants[grant.id] == grant
    &&& grant.sandbox == sandbox
    &&& grant.lifetime.over(now)
}

/// What the items of a list say.
pub open spec fn views(items: Seq<PendingRequest>) -> Seq<RequestView> {
    items.map_values(|item: PendingRequest| item@)
}

/// The items are the pending requests of the sandbox, each once, by number.
pub open spec fn listing_of(registry: RegistryView, name: Seq<char>, items: Seq<RequestView>) -> bool {
    &&& forall|i: int, j: int| 0 <= i < j < items.len() ==> (#[trigger] items[i]).id() < (
    #[trigger] items[j]).id()
    &&& forall|request: RequestView| #[trigger]
        items.contains(request) <==> registry.is_pending(name, request)
}

spec fn listing_until(
    registry: RegistryView,
    name: Seq<char>,
    items: Seq<RequestView>,
    metadata: Seq<u64>,
    read_write: Seq<u64>,
) -> bool {
    &&& forall|i: int, j: int| 0 <= i < j < items.len() ==> (#[trigger] items[i]).id() < (
    #[trigger] items[j]).id()
    &&& forall|request: RequestView| #[trigger]
        items.contains(request) <==> listed(registry, name, request, metadata, read_write)
}

spec fn listed(
    registry: RegistryView,
    name: Seq<char>,
    request: RequestView,
    metadata: Seq<u64>,
    read_write: Seq<u64>,
) -> bool {
    &&& registry.is_pending(name, request)
    &&& match request {
        RequestView::Metadata(r) => metadata.contains(r.id),
        RequestView::ReadWrite(r) => read_write.contains(r.id),
    }
}

proof fn lemma_listing_grows_metadata(
    registry: RegistryView,
    name: Seq<char>,
    items: Seq<RequestView>,
    metadata: Seq<u64>,
    read_write: Seq<u64>,
    id: u64,
)
    requires
        registry.listable(),
        listing_until(registry, name, items, metadata, read_write),
        registry.pending.contains_key(id),
        registry.pending[id].sandbox == name,
        forall|k: int| 0 <= k < items.len() ==> (#[trigger] items[k]).id() < id,
    ensures
        listing_until(
            registry,
            name,
            items.push(RequestView::Metadata(registry.pending[id])),
            metadata.push(id),
            read_write,
        ),
{
    let item = RequestView::Metadata(registry.pending[id]);
    table::lemma_push_contains(items, item);
    table::lemma_push_contains(metadata, id);
    assert forall|request: RequestView| #[trigger]
        items.push(item).contains(request) <==> listed(
            registry,
            name,
            request,
            metadata.push(id),
            read_write,
        ) by {
        assert(items.contains(request) <==> listed(registry, name, request, metadata, read_write));
        if let RequestView::Metadata(r) = request {
            assert(metadata.push(id).contains(r.id) <==> metadata.contains(r.id) || r.id == id);
        }
    }
}

proof fn lemma_listing_grows_read_write(
    registry: RegistryView,
    name: Seq<char>,
    items: Seq<RequestView>,
    metadata: Seq<u64>,
    read_write: Seq<u64>,
    id: u64,
)
    requires
        registry.listable(),
        listing_until(registry, name, items, metadata, read_write),
        registry.pending_read_write.contains_key(id),
        registry.pending_read_write[id].sandbox == name,
        forall|k: int| 0 <= k < items.len() ==> (#[trigger] items[k]).id() < id,
    ensures
        listing_until(
            registry,
            name,
            items.push(RequestView::ReadWrite(registry.pending_read_write[id])),
            metadata,
            read_write.push(id),
        ),
{
    let item = RequestView::ReadWrite(registry.pending_read_write[id]);
    table::lemma_push_contains(items, item);
    table::lemma_push_contains(read_write, id);
    assert forall|request: RequestView| #[trigger]
        items.push(item).contains(request) <==> listed(
            registry,
            name,
            request,
            metadata,
            read_write.push(id),
        ) by {
        assert(items.contains(request) <==> listed(registry, name, request, metadata, read_write));
        if let RequestView::ReadWrite(r) = request {
            assert(read_write.push(id).contains(r.id) <==> read_write.contains(r.id) || r.id == id);
        }
    }
}

proof fn lemma_listing_skips(
    registry: RegistryView,
    name: Seq<char>,
    items: Seq<RequestView>,
    metadata: Seq<u64>,
    read_write: Seq<u64>,
    id: u64,
)
    requires
        registry.listable(),
        listing_until(registry, name, items, metadata, read_write),
    ensures
        registry.pending.contains_key(id) && registry.pending[id].sandbox != name ==> listing_until(
            registry,
            name,
            items,
            metadata.push(id),
            read_write,
        ),
        registry.pending_read_write.contains_key(id) && registry.pending_read_write[id].sandbox != name
            ==> listing_until(registry, name, items, metadata, read_write.push(id)),
{
    table::lemma_push_contains(metadata, id);
    table::lemma_push_contains(read_write, id);
    assert forall|request: RequestView|
        registry.pending.contains_key(id) && registry.pending[id].sandbox != name implies (
    #[trigger] items.contains(request) <==> listed(
        registry,
        name,
        request,
        metadata.push(id),
        read_write,
    )) by {
        assert(items.contains(request) <==> listed(registry, name, request, metadata, read_write));
        if let RequestView::Metadata(r) = request {
            assert(metadata.push(id).contains(r.id) <==> metadata.contains(r.id) || r.id == id);
        }
    }
    assert forall|request: RequestView|
        registry.pending_read_write.contains_key(id) && registry.pending_read_write[id].sandbox
            != name implies (#[trigger] items.contains(request) <==> listed(
        registry,
        name,
        request,
        metadata,
        read_write.push(id),
    )) by {
        assert(items.contains(request) <==> listed(registry, name, request, metadata, read_write));
        if let RequestView::ReadWrite(r) = request {
            assert(read_write.push(id).contains(r.id) <==> read_write.contains(r.id) || r.id == id);
        }
    }
}

impl RegistryView {
    spec fn unexpired_among(self, ids: Seq<u64>, sandbox: Seq<char>, now: Timestamp) -> Map<
        u64,
        GrantView,
    > {
        Map::new(
            |id: u64|
                self.grants.contains_key(id) && !(ids.contains(id) && self.grants[id].sandbox
                    == sandbox && self.grants[id].lifetime.over(now)),
            |id: u64| self.grants[id],
        )
    }
}

/// A view of some sandbox is attached at the host path with the parts.
pub open spec fn is_mountpoint(registry: RegistryView, at: Seq<Seq<char>>) -> bool {
    exists|name: Seq<char>| #[trigger]
        registry.sandboxes.contains_key(name) && registry.sandboxes[name].attaches.contains_key(at)
}

spec fn mounted_in(registry: RegistryView, names: Seq<Seq<char>>, at: Seq<Seq<char>>) -> bool {
    exists|name: Seq<char>| #[trigger]
        names.contains(name) && registry.sandboxes[name].attaches.contains_key(at)
}

/// Every sandbox is sound.
pub open spec fn all_sound(registry: RegistryView) -> bool {
    forall|name: Seq<char>| #[trigger]
        registry.sandboxes.contains_key(name) ==> registry.sandboxes[name].sound()
}

/// What every step of a session keeps: the registry stays consistent, its
/// sandboxes stay sound, and no number is handed out twice.
pub open spec fn stays_valid(before: RegistryView, after: RegistryView) -> bool {
    &&& before.consistent() ==> after.consistent()
    &&& before.handed_out() ==> after.handed_out()
    &&& all_sound(before) ==> all_sound(after)
    &&& before.next_id <= after.next_id
}

/// A registry with the same requests and grants is as consistent.
pub proof fn lemma_same_requests(before: RegistryView, after: RegistryView)
    requires
        after.pending == before.pending,
        after.pending_read_write == before.pending_read_write,
        after.index == before.index,
        after.grants == before.grants,
        before.next_id <= after.next_id,
    ensures
        before.consistent() ==> after.consistent(),
        before.handed_out() ==> after.handed_out(),
{
    if before.consistent() {
        assert forall|key: PendingKeyView| #[trigger] after.index.contains_key(key) implies
            after.pending.contains_key(after.index[key])
            && after.pending[after.index[key]].claims().contains(key) by {
            assert(before.index.contains_key(key));
        }
        assert forall|id: u64, key: PendingKeyView|
            #![trigger after.pending[id].claims().contains(key)]
            after.pending.contains_key(id) && after.pending[id].claims().contains(key) implies
            after.index.contains_key(key) && after.index[key] == id by {
            assert(before.pending[id].claims().contains(key));
        }
    }
}

/// Sandboxes stay sound where one of them changes in nothing that layers, hides
/// and overrides are made of.
pub proof fn lemma_same_overlay(before: RegistryView, name: Seq<char>, sandbox: SandboxView)
    requires
        before.sandboxes.contains_key(name),
        sandbox.layers == before.sandboxes[name].layers,
        sandbox.hides == before.sandboxes[name].hides,
        sandbox.metadata == before.sandboxes[name].metadata,
        sandbox.next_layer_id == before.sandboxes[name].next_layer_id,
        sandbox.next_hide_id == before.sandboxes[name].next_hide_id,
    ensures
        all_sound(before) ==> all_sound(before.with_sandbox(name, sandbox)),
{
    if all_sound(before) {
        assert(before.sandboxes[name].sound());
        assert(sandbox.next_order() == before.sandboxes[name].next_order());
        assert(sandbox.well_ordered());
        assert(sandbox.sound());
    }
}

/// Sandboxes stay sound where metadata of an object of a mounted layer changes.
pub proof fn lemma_override_stays_sound(
    before: RegistryView,
    name: Seq<char>,
    key: ObjectView,
    operation: MetadataOperation,
)
    requires
        before.sandboxes.contains_key(name),
        before.sandboxes[name].has_layer(key.layer_id),
    ensures
        all_sound(before) ==> all_sound(
            before.with_sandbox(name, before.sandboxes[name].after_override(key, operation)),
        ),
{
    if all_sound(before) {
        let sandbox = before.sandboxes[name];
        let after = sandbox.after_override(key, operation);
        assert(sandbox.sound());
        assert(after.next_order() == sandbox.next_order());
        assert(after.well_ordered());
        assert(after.sound());
    }
}

} // verus!
