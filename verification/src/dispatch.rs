//! What a session does with a request: it carries the request out, or says what
//! has to be done outside first.

use vstd::prelude::*;

use crate::decision;
use crate::error::Error;
use crate::grant::ReadWriteGrantOptions;
use crate::ipc::Request;
use crate::ipc::Response;
use crate::path::SandboxPath;
use crate::registry::RegistryView;
use crate::sandbox::TrustedPathScope;
use crate::session;
use crate::session::Outcome;
use crate::session::SessionState;

verus! {

broadcast use {vstd::string::group_string_axioms, crate::table::group_shown};

/// A request that needs the host: its files, its mounts, its processes or its
/// clock.
#[allow(inconsistent_fields)]
#[derive(Debug)]
pub enum OutsideTask {
    Shutdown { name: String },
    Attach { name: String, mountpoint: String, temporary: bool },
    Detach { name: String, mountpoint: String },
    Mount { name: String, local: String, on_fs: SandboxPath },
    BeginTrusted {
        name: String,
        command: String,
        mountpoint: String,
        paths: Vec<TrustedPathScope>,
    },
    EndTrusted { token: String },
    CancelView { name: String, mountpoint: String },
    /// `pid` is the process that made the request, where it is a read or write.
    AllowWithGrant {
        name: String,
        id: u64,
        options: ReadWriteGrantOptions,
        pid: Option<u32>,
    },
}

/// How far a request got.
#[allow(inconsistent_fields)]
#[derive(Debug)]
pub enum Step {
    /// The answer is known.
    Reply { result: Result<Response, Error> },
    /// The registry changed; the outcome has to be logged.
    Finish { result: Result<Outcome, Error> },
    /// The host is needed.
    Outside { task: OutsideTask },
}

/// The process that made a pending read or write.
pub open spec fn requester_of(registry: RegistryView, id: u64) -> Option<u32> {
    if registry.pending_read_write.contains_key(id) {
        Some(registry.pending_read_write[id].pid)
    } else {
        None
    }
}

/// There are numbers for the events of the request.
pub open spec fn room_for(registry: RegistryView, request: Request) -> bool {
    match request {
        Request::Hide { name, .. } => session::has_room(registry, name@),
        Request::CancelAll { name, .. } => decision::room_to_cancel(registry, name@),
        _ => registry.next_id < u64::MAX,
    }
}

/// The host is needed for the task, and nothing changed yet.
pub open spec fn defers(
    before: RegistryView,
    after: RegistryView,
    step: Step,
    task: OutsideTask,
) -> bool {
    after == before && step == (Step::Outside { task })
}

/// The error about a decision that allows and does nothing with a grant.
pub open spec fn mixed_options() -> Seq<char> {
    "allow --do-nothing cannot be combined with read/write grant options"@
}

/// What a session does with a request.
pub open spec fn handles(
    before: RegistryView,
    after: RegistryView,
    request: Request,
    step: Step,
) -> bool {
    match request {
        Request::Ping => {
            &&& after == before
            &&& step == (Step::Reply { result: Ok::<Response, Error>(Response::Done) })
        },
        Request::Shutdown { name } => defers(before, after, step, OutsideTask::Shutdown { name }),
        Request::Attach { name, mountpoint, temporary } => defers(
            before,
            after,
            step,
            OutsideTask::Attach { name, mountpoint, temporary },
        ),
        Request::Detach { name, mountpoint } => defers(
            before,
            after,
            step,
            OutsideTask::Detach { name, mountpoint },
        ),
        Request::Mount { name, local, on_fs } => defers(
            before,
            after,
            step,
            OutsideTask::Mount { name, local, on_fs },
        ),
        Request::BeginTrustedOperation { name, command, mountpoint, paths } => defers(
            before,
            after,
            step,
            OutsideTask::BeginTrusted { name, command, mountpoint, paths },
        ),
        Request::EndTrustedOperation { token } => defers(
            before,
            after,
            step,
            OutsideTask::EndTrusted { token },
        ),
        Request::Umount { name, on_fs } => step matches Step::Finish { result }
            && session::unmounts_layer(before, after, name@, on_fs, result),
        Request::Hide { name, on_fs } => step matches Step::Finish { result }
            && session::hides_path(before, after, name@, on_fs, result),
        Request::Protect { name, kind, pattern } => step matches Step::Finish { result }
            && session::adds_rule(before, after, name@, kind, pattern, result),
        Request::Unprotect { name, kind, pattern } => step matches Step::Finish { result }
            && session::removes_rule(before, after, name@, kind, pattern, result),
        Request::ListProtection { name, include_read, include_write, include_metadata, include_xattr } => {
            &&& after == before
            &&& step matches Step::Reply { result } && session::lists_rules(
                before,
                name@,
                include_read,
                include_write,
                include_metadata,
                include_xattr,
                result,
            )
        },
        Request::Bypass { name, kind, pattern } => step matches Step::Finish { result }
            && session::adds_bypass(before, after, name@, kind, pattern, result),
        Request::Unbypass { name, kind, pattern } => step matches Step::Finish { result }
            && session::removes_bypass(before, after, name@, kind, pattern, result),
        Request::ListBypass { name, include_read, include_write, include_metadata, include_xattr } => {
            &&& after == before
            &&& step matches Step::Reply { result } && session::lists_bypasses(
                before,
                name@,
                include_read,
                include_write,
                include_metadata,
                include_xattr,
                result,
            )
        },
        Request::ListMounts { name } => {
            &&& after == before
            &&& step matches Step::Reply { result } && session::lists_mounts(before, name@, result)
        },
        Request::Metadata { name } => {
            &&& after == before
            &&& step matches Step::Reply { result } && session::lists_overrides(
                before,
                name@,
                result,
            )
        },
        Request::Pending { name } => {
            &&& after == before
            &&& step matches Step::Reply { result } && session::lists_pending(before, name@, result)
        },
        Request::LogPath { name } => {
            &&& after == before
            &&& step matches Step::Reply { result } && session::shows_log_path(before, name@, result)
        },
        Request::RegisterTrustedPid { token, pid, uid } => step matches Step::Reply { result }
            && session::registers_pid(before, after, token@, pid, uid, result),
        Request::Allow { name, id, do_nothing, grant } => match grant {
            Some(options) => if do_nothing {
                &&& after == before
                &&& step matches Step::Reply { result } && result matches Err(error) && error.says(
                    mixed_options(),
                )
            } else {
                defers(
                    before,
                    after,
                    step,
                    OutsideTask::AllowWithGrant { name, id, options, pid: requester_of(before, id) },
                )
            },
            None => step matches Step::Finish { result } && decision::allowed_once(
                before,
                after,
                name@,
                id,
                do_nothing,
                result,
            ),
        },
        Request::Deny { name, id } => step matches Step::Finish { result } && decision::settled_with(
            before,
            after,
            name@,
            id,
            decision::decision_body(id, before.request(id)->0.attach_id(), "DENY"@),
            crate::pending::PendingDecision::Deny,
            result,
        ),
        Request::Cancel { name, id } => step matches Step::Finish { result }
            && decision::settled_with(
            before,
            after,
            name@,
            id,
            decision::cancel_body(id, before.request(id)->0.attach_id(), "explicit"@),
            crate::pending::PendingDecision::Cancel,
            result,
        ),
        Request::CancelAll { name, mountpoint } => match mountpoint {
            Some(mountpoint) => defers(
                before,
                after,
                step,
                OutsideTask::CancelView { name, mountpoint },
            ),
            None => step matches Step::Finish { result } && decision::cancels_sandbox(
                before,
                after,
                name@,
                result,
            ),
        },
    }
}

impl SessionState {
    /// Carries a request out, or says what has to be done outside first.
    pub fn handle(&mut self, request: Request) -> (step: Step)
        requires
            old(self).registry@.cancelable(),
            room_for(old(self).registry@, request),
        ensures
            final(self).runtime == old(self).runtime,
            final(self).mounts == old(self).mounts,
            handles(old(self).registry@, final(self).registry@, request, step),
    {
        match request {
            Request::Ping => Step::Reply { result: Ok(Response::Done) },
            Request::Shutdown { name } => Step::Outside { task: OutsideTask::Shutdown { name } },
            Request::Attach { name, mountpoint, temporary } => Step::Outside {
                task: OutsideTask::Attach { name, mountpoint, temporary },
            },
            Request::Detach { name, mountpoint } => Step::Outside {
                task: OutsideTask::Detach { name, mountpoint },
            },
            Request::Mount { name, local, on_fs } => Step::Outside {
                task: OutsideTask::Mount { name, local, on_fs },
            },
            Request::BeginTrustedOperation { name, command, mountpoint, paths } => Step::Outside {
                task: OutsideTask::BeginTrusted { name, command, mountpoint, paths },
            },
            Request::EndTrustedOperation { token } => Step::Outside {
                task: OutsideTask::EndTrusted { token },
            },
            Request::Umount { name, on_fs } => Step::Finish {
                result: self.umount_layer(name.as_str(), &on_fs),
            },
            Request::Hide { name, on_fs } => Step::Finish {
                result: self.hide_path(name.as_str(), on_fs),
            },
            Request::Protect { name, kind, pattern } => Step::Finish {
                result: self.protect(name.as_str(), kind, pattern),
            },
            Request::Unprotect { name, kind, pattern } => Step::Finish {
                result: self.unprotect(name.as_str(), kind, &pattern),
            },
            Request::ListProtection { name, include_read, include_write, include_metadata, include_xattr } =>
            Step::Reply {
                result: self.list_protection(
                    name.as_str(),
                    include_read,
                    include_write,
                    include_metadata,
                    include_xattr,
                ),
            },
            Request::Bypass { name, kind, pattern } => Step::Finish {
                result: self.bypass(name.as_str(), kind, pattern),
            },
            Request::Unbypass { name, kind, pattern } => Step::Finish {
                result: self.unbypass(name.as_str(), kind, &pattern),
            },
            Request::ListBypass { name, include_read, include_write, include_metadata, include_xattr } =>
            Step::Reply {
                result: self.list_bypass(
                    name.as_str(),
                    include_read,
                    include_write,
                    include_metadata,
                    include_xattr,
                ),
            },
            Request::ListMounts { name } => Step::Reply { result: self.list_mounts(name.as_str()) },
            Request::Metadata { name } => Step::Reply { result: self.metadata(name.as_str()) },
            Request::Pending { name } => Step::Reply { result: self.pending(name.as_str()) },
            Request::LogPath { name } => Step::Reply { result: self.log_path(name.as_str()) },
            Request::RegisterTrustedPid { token, pid, uid } => Step::Reply {
                result: self.register_trusted_pid(token.as_str(), pid, uid),
            },
            Request::Allow { name, id, do_nothing, grant } => self.allow(name, id, do_nothing, grant),
            Request::Deny { name, id } => Step::Finish { result: self.deny(name.as_str(), id) },
            Request::Cancel { name, id } => Step::Finish {
                result: self.cancel(name.as_str(), id, "explicit"),
            },
            Request::CancelAll { name, mountpoint } => match mountpoint {
                Some(mountpoint) => Step::Outside {
                    task: OutsideTask::CancelView { name, mountpoint },
                },
                None => Step::Finish { result: self.cancel_all(name.as_str()) },
            },
        }
    }

    /// Allows a request, with a grant or without.
    pub fn allow(&mut self, name: String, id: u64, do_nothing: bool, grant: Option<ReadWriteGrantOptions>) -> (step:
        Step)
        requires
            old(self).registry@.cancelable(),
            old(self).registry@.next_id < u64::MAX,
        ensures
            final(self).runtime == old(self).runtime,
            final(self).mounts == old(self).mounts,
            handles(
                old(self).registry@,
                final(self).registry@,
                (Request::Allow { name, id, do_nothing, grant }),
                step,
            ),
    {
        match grant {
            Some(options) => {
                if do_nothing {
                    return Step::Reply {
                        result: Err(
                            Error::msg(
                                "allow --do-nothing cannot be combined with read/write grant options".to_owned(),
                            ),
                        ),
                    };
                }
                let pid = match self.registry.pending_read_write.get(&id) {
                    Some(request) => Some(request.pid),
                    None => None,
                };
                Step::Outside { task: OutsideTask::AllowWithGrant { name, id, options, pid } }
            },
            None => Step::Finish { result: self.allow_once(name.as_str(), id, do_nothing) },
        }
    }
}

/// The answer to a client for a request that needs no log line.
pub fn reply(result: Result<Response, Error>) -> (answer: Response)
    ensures
        match result {
            Ok(response) => answer == response,
            Err(error) => answer.fails_with(error.text()),
        },
{
    match result {
        Ok(response) => response,
        Err(error) => session::failure(&error),
    }
}

/// Whether the session ends after an answer: a shutdown was asked for, and it
/// was carried out.
pub fn should_stop(is_shutdown: bool, response: &Response) -> (stop: bool)
    ensures
        stop == (is_shutdown && *response is Done),
{
    match response {
        Response::Done => is_shutdown,
        _ => false,
    }
}

/// What is left of the result of the clean-up at the end of a session: that a
/// sandbox or view is gone already is no error.
pub fn cleanup_result(result: Result<Response, Error>) -> (left: Result<(), Error>)
    ensures
        left == match result {
            Ok(_) => Ok::<(), Error>(()),
            Err(Error::Message(_)) => Ok(()),
            Err(error) => Err(error),
        },
{
    match result {
        Ok(_) => Ok(()),
        Err(Error::Message(_)) => Ok(()),
        Err(error) => Err(error),
    }
}

/// The error about a socket that another session listens on.
pub fn socket_is_active(socket: &str) -> (error: Error)
    ensures
        error.says("sandbox session socket is already active: "@ + socket@),
{
    let mut message = "sandbox session socket is already active: ".to_owned();
    message.append(socket);
    Error::msg(message)
}

} // verus!
