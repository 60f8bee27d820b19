//! The end of attached views and of sandboxes.

use vstd::prelude::*;

use crate::decision;
use crate::error::Error;
use crate::host;
use crate::host::HostPath;
use crate::pending::RequestView;
use crate::registry;
use crate::registry::RegistryView;
use crate::registry::TrustedView;
use crate::session;
use crate::session::MountedSession;
use crate::session::Outcome;
use crate::session::SessionState;
use crate::table;
use crate::text;

verus! {

broadcast use {vstd::string::group_string_axioms, crate::table::group_shown};

/// A view that is about to be unmounted: what its canceled requests leave to
/// do, and the mount to undo, if the session has it.
#[derive(Debug)]
pub struct DetachStart {
    pub attach_id: u64,
    pub log_path: HostPath,
    pub canceled: Outcome,
    pub mounted: Result<MountedSession, Error>,
}

/// A sandbox that is about to go: the views to detach, and what its canceled
/// requests leave to do.
#[derive(Debug)]
pub struct DestroyStart {
    pub mountpoints: Vec<HostPath>,
    pub canceled: Outcome,
}

/// The first place where the session has the mount.
pub open spec fn first_mounted(
    mounts: Seq<MountedSession>,
    name: Seq<char>,
    attach_id: u64,
    mountpoint: Seq<char>,
    at: int,
) -> bool {
    &&& 0 <= at < mounts.len()
    &&& session::is_mounted_as(mounts[at], name, attach_id, mountpoint)
    &&& forall|i: int|
        0 <= i < at ==> !session::is_mounted_as(#[trigger] mounts[i], name, attach_id, mountpoint)
}

impl RegistryView {
    /// The registry without the trusted operations of a sandbox.
    pub open spec fn without_trust(self, name: Seq<char>) -> Self {
        RegistryView {
            trusted: Map::new(
                |token: Seq<char>|
                    self.trusted.contains_key(token) && self.trusted[token].sandbox != name,
                |token: Seq<char>| self.trusted[token],
            ),
            ..self
        }
    }
}

impl SessionState {
    /// Starts to detach a view: cancels its requests and gives up its mount.
    pub fn detach_begin(&mut self, name: &str, mountpoint: &HostPath) -> (result: Result<
        DetachStart,
        Error,
    >)
        requires
            old(self).registry@.cancelable(),
            decision::room_to_cancel(old(self).registry@, name@),
        ensures
            registry::stays_valid(old(self).registry@, final(self).registry@),
            final(self).runtime == old(self).runtime,
            match result {
                Ok(start) => {
                    let before = old(self).registry@;
                    let sandbox = before.sandboxes[name@];
                    &&& before.sandboxes.contains_key(name@)
                    &&& sandbox.attaches.contains_key(host::parts(mountpoint@))
                    &&& start.attach_id == sandbox.attaches[host::parts(mountpoint@)].id
                    &&& start.log_path@ == sandbox.log_path
                    &&& exists|items: Seq<RequestView>|
                        {
                            &&& #[trigger] decision::view_listing(
                                before,
                                name@,
                                start.attach_id,
                                items,
                            )
                            &&& decision::cancels_all(
                                before,
                                final(self).registry@,
                                start.canceled,
                                name@,
                                items,
                                Some(start.attach_id),
                                "attached-view"@,
                                "detach"@,
                            )
                        }
                    &&& match start.mounted {
                        Ok(mounted) => exists|at: int|
                            {
                                &&& #[trigger] first_mounted(
                                    old(self).mounts@,
                                    name@,
                                    start.attach_id,
                                    mountpoint@,
                                    at,
                                )
                                &&& mounted == old(self).mounts@[at]
                                &&& final(self).mounts@ == old(self).mounts@.remove(at)
                            },
                        Err(error) => {
                            &&& forall|i: int|
                                0 <= i < old(self).mounts.len() ==> !session::is_mounted_as(
                                    #[trigger] old(self).mounts@[i],
                                    name@,
                                    start.attach_id,
                                    mountpoint@,
                                )
                            &&& error.says("mount session not found: "@ + mountpoint@)
                            &&& final(self).mounts@ == old(self).mounts@
                        },
                    }
                },
                Err(error) => {
                    &&& final(self).registry@ == old(self).registry@
                    &&& final(self).mounts@ == old(self).mounts@
                    &&& decision::not_attached(
                        old(self).registry@,
                        name@,
                        mountpoint@,
                        error,
                    )
                },
            },
    {
        let (attach_id, log_path) = match self.attached_view(name, mountpoint) {
            Ok(found) => found,
            Err(error) => {
                return Err(error);
            },
        };
        let canceled = match self.cancel_attached_view(name, attach_id, "detach") {
            Ok(outcome) => outcome,
            Err(error) => {
                return Err(error);
            },
        };
        let mounted = self.take_mounted(name, attach_id, mountpoint);
        Ok(DetachStart { attach_id, log_path, canceled, mounted })
    }

    fn take_mounted(&mut self, name: &str, attach_id: u64, mountpoint: &HostPath) -> (result: Result<
        MountedSession,
        Error,
    >)
        ensures
            final(self).runtime == old(self).runtime,
            final(self).registry == old(self).registry,
            match result {
                Ok(mounted) => exists|at: int|
                    {
                        &&& #[trigger] first_mounted(
                            old(self).mounts@,
                            name@,
                            attach_id,
                            mountpoint@,
                            at,
                        )
                        &&& mounted == old(self).mounts@[at]
                        &&& final(self).mounts@ == old(self).mounts@.remove(at)
                    },
                Err(error) => {
                    &&& forall|i: int|
                        0 <= i < old(self).mounts.len() ==> !session::is_mounted_as(
                            #[trigger] old(self).mounts@[i],
                            name@,
                            attach_id,
                            mountpoint@,
                        )
                    &&& error.says("mount session not found: "@ + mountpoint@)
                    &&& final(self).mounts@ == old(self).mounts@
                },
            },
    {
        let mut i: usize = 0;
        while i < self.mounts.len()
            invariant
                i <= self.mounts.len(),
                *self == *old(self),
                forall|j: int|
                    0 <= j < i ==> !session::is_mounted_as(
                        #[trigger] self.mounts@[j],
                        name@,
                        attach_id,
                        mountpoint@,
                    ),
            decreases self.mounts.len() - i,
        {
            let found = text::same_text(self.mounts[i].sandbox.as_str(), name)
                && self.mounts[i].attach_id == attach_id && self.mounts[i].mountpoint == *mountpoint;
            if found {
                assert(first_mounted(self.mounts@, name@, attach_id, mountpoint@, i as int));
                return Ok(self.mounts.remove(i));
            }
            i += 1;
        }
        let mut message = "mount session not found: ".to_owned();
        message.append(mountpoint.as_str());
        Err(Error::msg(message))
    }

    /// Starts to destroy a sandbox: drops its trusted operations and cancels
    /// its requests.
    pub fn destroy_begin(&mut self, name: &str) -> (result: Result<DestroyStart, Error>)
        requires
            old(self).registry@.cancelable(),
            decision::room_to_cancel(old(self).registry@, name@),
        ensures
            registry::stays_valid(old(self).registry@, final(self).registry@),
            final(self).runtime == old(self).runtime,
            final(self).mounts == old(self).mounts,
            match result {
                Ok(start) => {
                    let before = old(self).registry@;
                    let sandbox = before.sandboxes[name@];
                    &&& before.sandboxes.contains_key(name@)
                    &&& lists_keys(start.mountpoints@, sandbox.attaches.dom())
                    &&& exists|items: Seq<RequestView>|
                        {
                            &&& #[trigger] registry::listing_of(before, name@, items)
                            &&& decision::cancels_all(
                                before.without_trust(name@),
                                final(self).registry@,
                                start.canceled,
                                name@,
                                items,
                                None,
                                "sandbox"@,
                                "cancel-all"@,
                            )
                        }
                },
                Err(error) => {
                    &&& !old(self).registry@.sandboxes.contains_key(name@)
                    &&& final(self).registry@ == old(self).registry@
                    &&& error.says(session::not_found(name@))
                },
            },
    {
        let ghost before = self.registry@;
        let mut mountpoints: Vec<HostPath> = Vec::new();
        match self.registry.sandboxes.get(&name.to_owned()) {
            Some(sandbox) => {
                let n = sandbox.attaches.len();
                let ghost keys = sandbox.attaches.ordered_keys();
                for i in 0..n
                    invariant
                        n == keys.len(),
                        keys == sandbox.attaches.ordered_keys(),
                        mountpoints.len() == i,
                        forall|j: int| 0 <= j < i ==> host::parts((#[trigger] mountpoints@[j])@) == keys[j],
                {
                    mountpoints.push(sandbox.attaches.key_at(i).clone());
                }
                proof {
                    assert(mountpoints@.map_values(|m: HostPath| host::parts(m@)) =~= keys);
                }
            },
            None => {
                return Err(session::sandbox_not_found(name));
            },
        }
        self.drop_trust(name);
        proof {
            let middle = self.registry@;
            assert(middle == before.without_trust(name@));
            registry::lemma_same_requests(before, middle);
            assert forall|items: Seq<RequestView>| #[trigger]
                registry::listing_of(middle, name@, items) implies registry::listing_of(
                before,
                name@,
                items,
            ) by {
                assert forall|request: RequestView| #[trigger]
                    items.contains(request) <==> before.is_pending(name@, request) by {
                    assert(middle.is_pending(name@, request) == before.is_pending(name@, request));
                }
            }
            assert(decision::room_to_cancel(middle, name@));
        }
        match self.cancel_all(name) {
            Ok(canceled) => {
                proof {
                    let middle = before.without_trust(name@);
                    let items = choose|items: Seq<RequestView>|
                        {
                            &&& #[trigger] registry::listing_of(middle, name@, items)
                            &&& decision::cancels_all(
                                middle,
                                self.registry@,
                                canceled,
                                name@,
                                items,
                                None,
                                "sandbox"@,
                                "cancel-all"@,
                            )
                        };
                    assert(registry::listing_of(before, name@, items));
                }
                Ok(DestroyStart { mountpoints, canceled })
            },
            Err(error) => Err(error),
        }
    }

    fn drop_trust(&mut self, name: &str)
        ensures
            final(self).runtime == old(self).runtime,
            final(self).mounts == old(self).mounts,
            final(self).registry@ == old(self).registry@.without_trust(name@),
    {
        let n = self.registry.trusted.len();
        let ghost start = self.registry@;
        let ghost tokens = self.registry.trusted.ordered_keys();
        let mut doomed: Vec<String> = Vec::new();
        for i in 0..n
            invariant
                n == tokens.len(),
                *self == *old(self),
                tokens == self.registry.trusted.ordered_keys(),
                start == self.registry@,
                forall|token: Seq<char>| #[trigger]
                    text::texts(doomed@).contains(token) <==> tokens.take(i as int).contains(token)
                        && start.trusted[token].sandbox == name@,
        {
            proof {
                table::lemma_take_next(tokens, i as int);
            }
            let ghost before = doomed@;
            let token = self.registry.trusted.key_at(i);
            let trusted = self.registry.trusted.value_at(i);
            assert(start.trusted[token@] == trusted@);
            if text::same_text(trusted.sandbox.as_str(), name) {
                doomed.push(token.clone());
                proof {
                    text::lemma_texts_push(before, doomed@.last());
                    table::lemma_push_contains(text::texts(before), token@);
                }
            }
            assert forall|other: Seq<char>| #[trigger]
                text::texts(doomed@).contains(other) <==> tokens.take(i + 1).contains(other)
                    && start.trusted[other].sandbox == name@ by {
                assert(text::texts(before).contains(other) <==> tokens.take(i as int).contains(other)
                    && start.trusted[other].sandbox == name@);
            }
        }
        proof {
            assert(tokens.take(n as int) =~= tokens);
            assert forall|token: Seq<char>| #[trigger]
                text::texts(doomed@).contains(token) <==> start.trusted.contains_key(token)
                    && start.trusted[token].sandbox == name@ by {
                assert(tokens.to_set().contains(token) == self.registry.trusted@.dom().contains(token));
            }
        }
        let ghost all = text::texts(doomed@);
        assert(without_tokens(start.trusted, all.take(0)) =~= start.trusted);
        for i in 0..doomed.len()
            invariant
                self.runtime == old(self).runtime,
                self.mounts == old(self).mounts,
                all == text::texts(doomed@),
                self.registry@ == (RegistryView {
                    trusted: without_tokens(start.trusted, all.take(i as int)),
                    ..start
                }),
        {
            let ghost before = self.registry@.trusted;
            let _ = self.registry.trusted.remove(&doomed[i]);
            proof {
                table::lemma_take_next(all, i as int);
                assert(all[i as int] == doomed@[i as int]@);
                assert(without_tokens(start.trusted, all.take(i + 1)) =~= before.remove(all[i as int]));
            }
        }
        proof {
            assert(all.take(doomed.len() as int) =~= all);
            assert(without_tokens(start.trusted, all) =~= start.without_trust(name@).trusted);
        }
    }

    /// Forgets a sandbox; its log file is left to remove.
    pub fn destroy_commit(&mut self, name: &str) -> (log_path: Option<HostPath>)
        ensures
            registry::stays_valid(old(self).registry@, final(self).registry@),
            final(self).runtime == old(self).runtime,
            final(self).mounts == old(self).mounts,
            final(self).registry@ == (RegistryView {
                sandboxes: old(self).registry@.sandboxes.remove(name@),
                ..old(self).registry@
            }),
            match log_path {
                Some(path) => old(self).registry@.sandboxes.contains_key(name@) && path@ == old(
                    self,
                ).registry@.sandboxes[name@].log_path,
                None => !old(self).registry@.sandboxes.contains_key(name@),
            },
    {
        let removed = self.registry.sandboxes.remove(&name.to_owned());
        proof {
            registry::lemma_same_requests(old(self).registry@, self.registry@);
        }
        match removed {
            Some(sandbox) => Some(sandbox.log_path),
            None => None,
        }
    }
}

/// The list holds each of the paths once, in their order.
pub open spec fn lists_keys(paths: Seq<HostPath>, keys: Set<Seq<Seq<char>>>) -> bool {
    let listed = paths.map_values(|path: HostPath| host::parts(path@));
    &&& table::ascending::<HostPath>(listed)
    &&& listed.to_set() == keys
}

spec fn without_tokens(trusted: Map<Seq<char>, TrustedView>, tokens: Seq<Seq<char>>) -> Map<
    Seq<char>,
    TrustedView,
> {
    Map::new(
        |token: Seq<char>| trusted.contains_key(token) && !tokens.contains(token),
        |token: Seq<char>| trusted[token],
    )
}

} // verus!
