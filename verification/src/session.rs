//! The session: what it does with each request.

use vstd::prelude::*;

use crate::error::Error;
use crate::host;
use crate::host::HostPath;
use crate::ipc::Response;
use crate::metadata::MetadataObjectKey;
use crate::metadata::ObjectView;
use crate::overlay;
use crate::path::SandboxPath;
use crate::pending::PendingDecision;
use crate::policy::PassthroughRule;
use crate::policy::PolicyPattern;
use crate::policy::ProtectionKind;
use crate::policy::ProtectionRule;
use crate::policy::ProtectionRuleResult;
use crate::registry;
use crate::registry::RegistryView;
use crate::registry::SandboxRegistry;
use crate::registry::TrustedOperation;
use crate::registry::TrustedView;
use crate::runtime::RuntimePaths;
use crate::sandbox;
use crate::sandbox::AttachMount;
use crate::sandbox::HideRule;
use crate::sandbox::MountLayer;
use crate::sandbox::Sandbox;
use crate::sandbox::SandboxView;
use crate::sandbox::TrustedPathScope;
use crate::table;
use crate::text;

verus! {

broadcast use {vstd::string::group_string_axioms, crate::table::group_shown};

/// A line for the log: the number of the event and what happened.
#[derive(Debug)]
pub struct LogEvent {
    pub id: u64,
    pub body: String,
}

/// What a line for the log says.
pub type EventView = (u64, Seq<char>);

/// What the lines for the log say.
pub open spec fn events(lines: Seq<LogEvent>) -> Seq<EventView> {
    lines.map_values(|line: LogEvent| (line.id, line.body@))
}

/// A caller to wake: the request that it waits for, and the decision.
#[derive(Clone, Copy, Debug, PartialEq, Eq, Structural)]
pub struct Notice {
    pub id: u64,
    pub decision: PendingDecision,
}

/// What is left to do after a request changed the registry: lines to append to
/// the log of the sandbox, callers to wake whether or not the log could be
/// written, and the answer.
#[derive(Debug)]
pub struct Outcome {
    pub log_path: HostPath,
    pub events: Vec<LogEvent>,
    pub notices: Vec<Notice>,
    pub response: Response,
}

impl Outcome {
    /// What the lines for the log say.
    pub open spec fn events(self) -> Seq<EventView> {
        events(self.events@)
    }
}

/// The answer to a client: the first failure to write the log where there was
/// one, else what the outcome says.
pub fn answer(response: Response, log_failure: Option<String>) -> (answer: Response)
    ensures
        match log_failure {
            Some(message) => answer == (Response::Error { message }),
            None => answer == response,
        },
{
    match log_failure {
        Some(message) => Response::Error { message },
        None => response,
    }
}

/// The answer to a client when a request fails.
pub fn failure(error: &Error) -> (answer: Response)
    ensures
        answer.fails_with(error.text()),
{
    Response::Error { message: error.message().to_owned() }
}

/// The field of a log line that names an attached view.
pub open spec fn attach_field(attach_id: Option<u64>) -> Seq<char> {
    match attach_id {
        Some(id) => " attach="@ + text::decimal(id as nat),
        None => Seq::empty(),
    }
}

/// The field of a log line that names an attached view.
pub fn format_attach_field(attach_id: Option<u64>) -> (field: String)
    ensures
        field@ == attach_field(attach_id),
{
    match attach_id {
        Some(id) => {
            let mut field = " attach=".to_owned();
            field.append(text::decimal_of(id).as_str());
            field
        },
        None => String::new(),
    }
}

/// A name that a sandbox can have.
pub open spec fn valid_name(name: Seq<char>) -> bool {
    name.len() > 0 && !name.contains('/') && !name.contains('\0')
}

/// Checks the name of a sandbox.
pub fn validate_name(name: &str) -> (result: Result<(), Error>)
    ensures
        match result {
            Ok(_) => valid_name(name@),
            Err(error) => !valid_name(name@) && error.says("invalid sandbox name: "@ + name@),
        },
{
    if name.unicode_len() == 0 || text::contains_char(name, '/') || text::contains_char(name, '\0') {
        let mut message = "invalid sandbox name: ".to_owned();
        message.append(name);
        return Err(Error::msg(message));
    }
    Ok(())
}

/// The text of the error about a sandbox that is not there.
pub open spec fn not_found(name: Seq<char>) -> Seq<char> {
    "sandbox not found: "@ + name
}

/// The error about a sandbox that is not there.
pub fn sandbox_not_found(name: &str) -> (error: Error)
    ensures
        error.says(not_found(name@)),
{
    let mut message = "sandbox not found: ".to_owned();
    message.append(name);
    Error::msg(message)
}

/// A view that the session has mounted.
#[derive(Debug)]
pub struct MountedSession {
    pub sandbox: String,
    pub attach_id: u64,
    pub mountpoint: HostPath,
    pub temporary: bool,
}

/// What a mounted view is known by.
pub open spec fn is_mounted_as(
    mounted: MountedSession,
    name: Seq<char>,
    attach_id: u64,
    mountpoint: Seq<char>,
) -> bool {
    &&& mounted.sandbox@ == name
    &&& mounted.attach_id == attach_id
    &&& host::parts(mounted.mountpoint@) == host::parts(mountpoint)
}

/// The state of a session.
#[derive(Debug)]
pub struct SessionState {
    pub registry: SandboxRegistry,
    pub runtime: RuntimePaths,
    pub mounts: Vec<MountedSession>,
}

/// An outcome that writes one line and answers with success.
pub open spec fn logs_one(outcome: Outcome, log_path: Seq<char>, id: u64, body: Seq<char>) -> bool {
    &&& outcome.log_path@ == log_path
    &&& outcome.events() == seq![(id, body)]
    &&& outcome.notices@ == Seq::<Notice>::empty()
    &&& outcome.response is Done
}

/// An outcome that writes one line and answers with success.
pub fn one_line(log_path: HostPath, id: u64, body: String) -> (outcome: Outcome)
    ensures
        logs_one(outcome, log_path@, id, body@),
{
    let mut lines: Vec<LogEvent> = Vec::new();
    lines.push(LogEvent { id, body });
    let outcome = Outcome { log_path, events: lines, notices: Vec::new(), response: Response::Done };
    assert(outcome.events() =~= seq![(id, body@)]);
    outcome
}

impl RegistryView {
    /// The registry with the next number handed out.
    pub open spec fn numbered(self) -> Self {
        RegistryView { next_id: (self.next_id + 1) as u64, ..self }
    }

    /// The registry with another state of a sandbox.
    pub open spec fn with_sandbox(self, name: Seq<char>, sandbox: SandboxView) -> Self {
        RegistryView { sandboxes: self.sandboxes.insert(name, sandbox), ..self }
    }
}

/// A request changed one sandbox and wrote one line about it.
pub open spec fn logged_update(
    before: RegistryView,
    after: RegistryView,
    name: Seq<char>,
    sandbox: SandboxView,
    outcome: Outcome,
    body: Seq<char>,
) -> bool {
    &&& before.sandboxes.contains_key(name)
    &&& after == before.numbered().with_sandbox(name, sandbox)
    &&& logs_one(outcome, before.sandboxes[name].log_path, before.next_id, body)
}

/// A request failed because the sandbox is not there; its number is used up.
pub open spec fn missed_update(
    before: RegistryView,
    after: RegistryView,
    name: Seq<char>,
    error: Error,
) -> bool {
    &&& !before.sandboxes.contains_key(name)
    &&& after == before.numbered()
    &&& error.says(not_found(name))
}

/// There is a number for one more event, and one for one more layer or hide of
/// the sandbox.
pub open spec fn has_room(registry: RegistryView, name: Seq<char>) -> bool {
    &&& registry.next_id < u64::MAX
    &&& registry.sandboxes.contains_key(name) ==> registry.sandboxes[name].next_order() < u64::MAX
}

/// How a change of the rules reads in a log line.
pub open spec fn rule_body(
    verb: Seq<char>,
    kind: ProtectionKind,
    pattern: Seq<char>,
    result: ProtectionRuleResult,
) -> Seq<char> {
    verb + " kind="@ + kind.name() + " pattern="@ + pattern + " result="@ + result.name()
}

fn format_rule_body(
    verb: &str,
    kind: ProtectionKind,
    pattern: &str,
    result: ProtectionRuleResult,
) -> (body: String)
    ensures
        body@ == rule_body(verb@, kind, pattern@, result),
{
    let mut body = verb.to_owned();
    body.append(" kind=");
    body.append(kind.log_name());
    body.append(" pattern=");
    body.append(pattern);
    body.append(" result=");
    body.append(result.log_name());
    body
}

/// The line that lists a layer.
pub open spec fn layer_line(layer: MountLayer) -> Seq<char> {
    layer.local@ + " on "@ + layer.on_fs.text()
}

/// The line that lists a hide.
pub open spec fn hide_line(hide: HideRule) -> Seq<char> {
    "hide "@ + hide.path.text()
}

/// The answer is a text.
pub open spec fn answers_text(response: Response, text: Seq<char>) -> bool {
    response matches Response::Text { text: shown } && shown@ == text
}

/// What the session needs to mount a view.
#[derive(Debug)]
pub struct AttachTicket {
    pub attach_id: u64,
    pub event_id: u64,
    pub log_path: HostPath,
}

/// What mounting a host path does.
pub open spec fn mounts_layer(
    before: RegistryView,
    after: RegistryView,
    name: Seq<char>,
    local: HostPath,
    on_fs: SandboxPath,
    result: Result<Outcome, Error>,
) -> bool {
    match result {
        Ok(outcome) => logged_update(
            before,
            after,
            name,
            overlay::after_mount(before.sandboxes[name], local, on_fs),
            outcome,
            "mount local="@ + local@ + " path="@ + on_fs.text(),
        ),
        Err(error) => missed_update(
            before,
            after,
            name,
            error,
        ),
    }
}

/// What taking away a layer does.
pub open spec fn unmounts_layer(
    before: RegistryView,
    after: RegistryView,
    name: Seq<char>,
    on_fs: SandboxPath,
    result: Result<Outcome, Error>,
) -> bool {
    match result {
        Ok(outcome) => {
            &&& sandbox::last_mount_on(
                before.sandboxes[name].layers,
                on_fs@,
            ) is Some
            &&& logged_update(
                before,
                after,
                name,
                overlay::after_unmount(before.sandboxes[name], on_fs@),
                outcome,
                "umount path="@ + on_fs.text(),
            )
        },
        Err(error) => if before.sandboxes.contains_key(name) {
            &&& sandbox::last_mount_on(
                before.sandboxes[name].layers,
                on_fs@,
            ) is None
            &&& after == before.numbered()
            &&& error.says("no mount at "@ + on_fs.text())
        } else {
            missed_update(before, after, name, error)
        },
    }
}

/// What hiding a path does.
pub open spec fn hides_path(
    before: RegistryView,
    after: RegistryView,
    name: Seq<char>,
    on_fs: SandboxPath,
    result: Result<Outcome, Error>,
) -> bool {
    match result {
        Ok(outcome) => logged_update(
            before,
            after,
            name,
            overlay::after_hide(before.sandboxes[name], on_fs),
            outcome,
            "hide path="@ + on_fs.text(),
        ),
        Err(error) => missed_update(
            before,
            after,
            name,
            error,
        ),
    }
}

/// What adding a rule does.
pub open spec fn adds_rule(
    before: RegistryView,
    after: RegistryView,
    name: Seq<char>,
    kind: ProtectionKind,
    pattern: PolicyPattern,
    result: Result<Outcome, Error>,
) -> bool {
    match result {
        Ok(outcome) => {
            let sandbox = before.sandboxes[name];
            if sandbox::has_protection_rule(sandbox.protection_rules, kind, pattern@) {
                logged_update(
                    before,
                    after,
                    name,
                    sandbox,
                    outcome,
                    rule_body(
                        "protect"@,
                        kind,
                        pattern@.text,
                        ProtectionRuleResult::AlreadyPresent,
                    ),
                )
            } else {
                logged_update(
                    before,
                    after,
                    name,
                    SandboxView {
                        protection_rules: sandbox.protection_rules.push(
                            ProtectionRule { kind, pattern },
                        ),
                        ..sandbox
                    },
                    outcome,
                    rule_body("protect"@, kind, pattern@.text, ProtectionRuleResult::Added),
                )
            }
        },
        Err(error) => missed_update(
            before,
            after,
            name,
            error,
        ),
    }
}

/// What removing a rule does.
pub open spec fn removes_rule(
    before: RegistryView,
    after: RegistryView,
    name: Seq<char>,
    kind: ProtectionKind,
    pattern: PolicyPattern,
    result: Result<Outcome, Error>,
) -> bool {
    match result {
        Ok(outcome) => {
            let sandbox = before.sandboxes[name];
            if sandbox::has_protection_rule(sandbox.protection_rules, kind, pattern@) {
                exists|i: int|
                    {
                        &&& #[trigger] sandbox::first_protection_rule(
                            sandbox.protection_rules,
                            kind,
                            pattern@,
                            i,
                        )
                        &&& logged_update(
                            before,
                            after,
                            name,
                            SandboxView {
                                protection_rules: sandbox.protection_rules.remove(i),
                                ..sandbox
                            },
                            outcome,
                            rule_body(
                                "unprotect"@,
                                kind,
                                pattern@.text,
                                ProtectionRuleResult::Removed,
                            ),
                        )
                    }
            } else {
                logged_update(
                    before,
                    after,
                    name,
                    sandbox,
                    outcome,
                    rule_body(
                        "unprotect"@,
                        kind,
                        pattern@.text,
                        ProtectionRuleResult::NotPresent,
                    ),
                )
            }
        },
        Err(error) => missed_update(
            before,
            after,
            name,
            error,
        ),
    }
}

/// What a listing of the rules shows.
pub open spec fn lists_rules(
    registry: RegistryView,
    name: Seq<char>,
    include_read: bool,
    include_write: bool,
    include_metadata: bool,
    include_xattr: bool,
    result: Result<Response, Error>,
) -> bool {
    match result {
        Ok(response) => {
            &&& registry.sandboxes.contains_key(name)
            &&& response matches Response::ProtectionRules { items }
            &&& table::nondescending(items@)
            &&& items@.to_multiset()
                == registry.sandboxes[name].protection_rules.filter(
                |rule: ProtectionRule|
                    sandbox::shown(
                        include_read,
                        include_write,
                        include_metadata,
                        include_xattr,
                        rule.kind,
                    ),
            ).to_multiset()
        },
        Err(error) => !registry.sandboxes.contains_key(name) && error.says(
            not_found(name),
        ),
    }
}

/// What a listing of the layers and hides shows.
pub open spec fn lists_mounts(
    registry: RegistryView,
    name: Seq<char>,
    result: Result<Response, Error>,
) -> bool {
    match result {
        Ok(response) => {
            let sandbox = registry.sandboxes[name];
            &&& registry.sandboxes.contains_key(name)
            &&& answers_text(
                response,
                text::joined(
                    sandbox.layers.map_values(|layer: MountLayer| layer_line(layer))
                        + sandbox.hides.map_values(|hide: HideRule| hide_line(hide)),
                    "\n"@,
                ),
            )
        },
        Err(error) => !registry.sandboxes.contains_key(name) && error.says(
            not_found(name),
        ),
    }
}

/// What a listing of the overrides shows.
pub open spec fn lists_overrides(
    registry: RegistryView,
    name: Seq<char>,
    result: Result<Response, Error>,
) -> bool {
    match result {
        Ok(response) => {
            let sandbox = registry.sandboxes[name];
            &&& registry.sandboxes.contains_key(name)
            &&& exists|keys: Seq<ObjectView>|
                {
                    &&& table::ascending::<MetadataObjectKey>(keys)
                    &&& forall|key: ObjectView| #[trigger]
                        keys.contains(key) <==> sandbox.differs(key)
                    &&& answers_text(
                        response,
                        text::joined(
                            keys.map_values(
                                |key: ObjectView| sandbox.metadata[key].sandbox_path.text(),
                            ),
                            "\n"@,
                        ),
                    )
                }
        },
        Err(error) => !registry.sandboxes.contains_key(name) && error.says(
            not_found(name),
        ),
    }
}

/// What a listing of the pending requests shows.
pub open spec fn lists_pending(
    registry: RegistryView,
    name: Seq<char>,
    result: Result<Response, Error>,
) -> bool {
    match result {
        Ok(response) => {
            &&& registry.sandboxes.contains_key(name)
            &&& response matches Response::Pending { items }
            &&& registry::listing_of(registry, name, registry::views(items@))
        },
        Err(error) => !registry.sandboxes.contains_key(name) && error.says(
            not_found(name),
        ),
    }
}

/// What the log file of a sandbox is.
pub open spec fn shows_log_path(
    registry: RegistryView,
    name: Seq<char>,
    result: Result<Response, Error>,
) -> bool {
    match result {
        Ok(response) => registry.sandboxes.contains_key(name) && answers_text(
            response,
            registry.sandboxes[name].log_path,
        ),
        Err(error) => !registry.sandboxes.contains_key(name) && error.says(
            not_found(name),
        ),
    }
}

/// What naming the process of a trusted operation does.
pub open spec fn registers_pid(
    before: RegistryView,
    after: RegistryView,
    token: Seq<char>,
    pid: u32,
    uid: u32,
    result: Result<Response, Error>,
) -> bool {
    match result {
        Ok(response) => {
            let before = before;
            &&& response is Done
            &&& before.trusted.contains_key(token)
            &&& after == (RegistryView {
                trusted: before.trusted.insert(
                    token,
                    TrustedView {
                        pid: Some(pid),
                        uid: Some(uid),
                        ..before.trusted[token]
                    },
                ),
                ..before
            })
        },
        Err(error) => {
            &&& !before.trusted.contains_key(token)
            &&& after == before
            &&& error.says("trusted operation not found: "@ + token)
        },
    }
}

/// What adding a rule that lets an effect pass does.
pub open spec fn adds_bypass(
    before: RegistryView,
    after: RegistryView,
    name: Seq<char>,
    kind: ProtectionKind,
    pattern: PolicyPattern,
    result: Result<Outcome, Error>,
) -> bool {
    match result {
        Ok(outcome) => {
            let sandbox = before.sandboxes[name];
            if sandbox::has_passthrough_rule(sandbox.passthrough_rules, kind, pattern@) {
                logged_update(
                    before,
                    after,
                    name,
                    sandbox,
                    outcome,
                    rule_body(
                        "bypass"@,
                        kind,
                        pattern@.text,
                        ProtectionRuleResult::AlreadyPresent,
                    ),
                )
            } else {
                logged_update(
                    before,
                    after,
                    name,
                    SandboxView {
                        passthrough_rules: sandbox.passthrough_rules.push(
                            PassthroughRule { kind, pattern },
                        ),
                        ..sandbox
                    },
                    outcome,
                    rule_body("bypass"@, kind, pattern@.text, ProtectionRuleResult::Added),
                )
            }
        },
        Err(error) => missed_update(before, after, name, error),
    }
}

/// What removing a rule that lets an effect pass does.
pub open spec fn removes_bypass(
    before: RegistryView,
    after: RegistryView,
    name: Seq<char>,
    kind: ProtectionKind,
    pattern: PolicyPattern,
    result: Result<Outcome, Error>,
) -> bool {
    match result {
        Ok(outcome) => {
            let sandbox = before.sandboxes[name];
            if sandbox::has_passthrough_rule(sandbox.passthrough_rules, kind, pattern@) {
                exists|i: int|
                    {
                        &&& #[trigger] sandbox::first_passthrough_rule(
                            sandbox.passthrough_rules,
                            kind,
                            pattern@,
                            i,
                        )
                        &&& logged_update(
                            before,
                            after,
                            name,
                            SandboxView {
                                passthrough_rules: sandbox.passthrough_rules.remove(i),
                                ..sandbox
                            },
                            outcome,
                            rule_body(
                                "unbypass"@,
                                kind,
                                pattern@.text,
                                ProtectionRuleResult::Removed,
                            ),
                        )
                    }
            } else {
                logged_update(
                    before,
                    after,
                    name,
                    sandbox,
                    outcome,
                    rule_body(
                        "unbypass"@,
                        kind,
                        pattern@.text,
                        ProtectionRuleResult::NotPresent,
                    ),
                )
            }
        },
        Err(error) => missed_update(before, after, name, error),
    }
}

/// What a listing of the rules that let effects pass shows.
pub open spec fn lists_bypasses(
    registry: RegistryView,
    name: Seq<char>,
    include_read: bool,
    include_write: bool,
    include_metadata: bool,
    include_xattr: bool,
    result: Result<Response, Error>,
) -> bool {
    match result {
        Ok(response) => {
            &&& registry.sandboxes.contains_key(name)
            &&& response matches Response::PassthroughRules { items }
            &&& table::nondescending(items@)
            &&& items@.to_multiset() == registry.sandboxes[name].passthrough_rules.filter(
                |rule: PassthroughRule|
                    sandbox::shown(
                        include_read,
                        include_write,
                        include_metadata,
                        include_xattr,
                        rule.kind,
                    ),
            ).to_multiset()
        },
        Err(error) => !registry.sandboxes.contains_key(name) && error.says(not_found(name)),
    }
}

impl SessionState {
    /// A session without sandboxes.
    pub fn new(runtime: RuntimePaths) -> (state: Self)
        ensures
            state.registry@ == RegistryView::empty(),
            state.runtime == runtime,
            state.mounts@ == Seq::<MountedSession>::empty(),
    {
        SessionState { registry: SandboxRegistry::new(), runtime, mounts: Vec::new() }
    }

    /// A session with one new sandbox.
    pub fn new_session(runtime: RuntimePaths, name: &str) -> (result: Result<Self, Error>)
        ensures
            match result {
                Ok(state) => {
                    &&& valid_name(name@)
                    &&& state.registry@ == RegistryView::empty().with_sandbox(
                        name@,
                        sandbox::fresh_sandbox(
                            name@,
                            crate::host::host_join(runtime.log_dir@, name@ + ".log"@),
                        ),
                    )
                    &&& state.runtime == runtime
                    &&& state.mounts@ == Seq::<MountedSession>::empty()
                },
                Err(error) => !valid_name(name@) && error.says("invalid sandbox name: "@ + name@),
            },
    {
        match validate_name(name) {
            Ok(_) => {},
            Err(error) => {
                return Err(error);
            },
        }
        let mut state = SessionState::new(runtime);
        let log_path = state.runtime.sandbox_log_path(name);
        let _ = state.registry.sandboxes.insert(
            name.to_owned(),
            Sandbox::new(name.to_owned(), log_path),
        );
        Ok(state)
    }

    /// Mounts a host path on a sandbox path.
    pub fn mount_layer(&mut self, name: &str, local: HostPath, on_fs: SandboxPath) -> (result: Result<
        Outcome,
        Error,
    >)
        requires
            has_room(old(self).registry@, name@),
        ensures
            final(self).runtime == old(self).runtime,
            final(self).mounts == old(self).mounts,
            mounts_layer(
                old(self).registry@,
                final(self).registry@,
                name@,
                local,
                on_fs,
                result,
            ),
    {
        let id = self.registry.next_operation_id();
        let mut body = "mount local=".to_owned();
        body.append(local.as_str());
        body.append(" path=");
        body.append(on_fs.as_str());
        match self.registry.sandboxes.get_mut(&name.to_owned()) {
            Some(sandbox) => {
                let log_path = sandbox.log_path.clone();
                let _ = sandbox.add_layer(local, on_fs);
                Ok(one_line(log_path, id, body))
            },
            None => Err(sandbox_not_found(name)),
        }
    }

    /// Takes away the layer that was mounted last on a sandbox path.
    pub fn umount_layer(&mut self, name: &str, on_fs: &SandboxPath) -> (result: Result<Outcome, Error>)
        requires
            old(self).registry@.next_id < u64::MAX,
        ensures
            final(self).runtime == old(self).runtime,
            final(self).mounts == old(self).mounts,
            unmounts_layer(
                old(self).registry@,
                final(self).registry@,
                name@,
                *on_fs,
                result,
            ),
    {
        let id = self.registry.next_operation_id();
        let ghost before = self.registry@.sandboxes;
        match self.registry.sandboxes.get_mut(&name.to_owned()) {
            Some(sandbox) => {
                let log_path = sandbox.log_path.clone();
                if !sandbox.remove_layer(on_fs) {
                    let mut message = "no mount at ".to_owned();
                    message.append(on_fs.as_str());
                    assert(before.insert(name@, before[name@]) =~= before);
                    return Err(Error::msg(message));
                }
                let mut body = "umount path=".to_owned();
                body.append(on_fs.as_str());
                Ok(one_line(log_path, id, body))
            },
            None => Err(sandbox_not_found(name)),
        }
    }

    /// Hides a sandbox path.
    pub fn hide_path(&mut self, name: &str, on_fs: SandboxPath) -> (result: Result<Outcome, Error>)
        requires
            has_room(old(self).registry@, name@),
        ensures
            final(self).runtime == old(self).runtime,
            final(self).mounts == old(self).mounts,
            hides_path(
                old(self).registry@,
                final(self).registry@,
                name@,
                on_fs,
                result,
            ),
    {
        let id = self.registry.next_operation_id();
        let mut body = "hide path=".to_owned();
        body.append(on_fs.as_str());
        match self.registry.sandboxes.get_mut(&name.to_owned()) {
            Some(sandbox) => {
                let log_path = sandbox.log_path.clone();
                let _ = sandbox.add_hide(on_fs);
                Ok(one_line(log_path, id, body))
            },
            None => Err(sandbox_not_found(name)),
        }
    }

    /// Adds a rule that asks before an effect.
    pub fn protect(&mut self, name: &str, kind: ProtectionKind, pattern: PolicyPattern) -> (result:
        Result<Outcome, Error>)
        requires
            old(self).registry@.next_id < u64::MAX,
        ensures
            final(self).runtime == old(self).runtime,
            final(self).mounts == old(self).mounts,
            adds_rule(
                old(self).registry@,
                final(self).registry@,
                name@,
                kind,
                pattern,
                result,
            ),
    {
        let id = self.registry.next_operation_id();
        match self.registry.sandboxes.get_mut(&name.to_owned()) {
            Some(sandbox) => {
                let log_path = sandbox.log_path.clone();
                let shown = pattern.clone();
                let result = sandbox.protect(kind, pattern);
                let body = format_rule_body("protect", kind, shown.as_str(), result);
                Ok(one_line(log_path, id, body))
            },
            None => Err(sandbox_not_found(name)),
        }
    }

    /// Removes a rule that asks before an effect.
    pub fn unprotect(&mut self, name: &str, kind: ProtectionKind, pattern: &PolicyPattern) -> (result:
        Result<Outcome, Error>)
        requires
            old(self).registry@.next_id < u64::MAX,
        ensures
            final(self).runtime == old(self).runtime,
            final(self).mounts == old(self).mounts,
            removes_rule(
                old(self).registry@,
                final(self).registry@,
                name@,
                kind,
                *pattern,
                result,
            ),
    {
        let id = self.registry.next_operation_id();
        match self.registry.sandboxes.get_mut(&name.to_owned()) {
            Some(sandbox) => {
                let log_path = sandbox.log_path.clone();
                let result = sandbox.unprotect(kind, pattern);
                let body = format_rule_body("unprotect", kind, pattern.as_str(), result);
                Ok(one_line(log_path, id, body))
            },
            None => Err(sandbox_not_found(name)),
        }
    }

    /// The rules of a sandbox.
    pub fn list_protection(
        &self,
        name: &str,
        include_read: bool,
        include_write: bool,
        include_metadata: bool,
        include_xattr: bool,
    ) -> (result: Result<Response, Error>)
        ensures
            lists_rules(
                self.registry@,
                name@,
                include_read,
                include_write,
                include_metadata,
                include_xattr,
                result,
            ),
    {
        match self.registry.sandboxes.get(&name.to_owned()) {
            Some(sandbox) => Ok(
                Response::ProtectionRules {
                    items: sandbox.protection_rules_of(
                        include_read,
                        include_write,
                        include_metadata,
                        include_xattr,
                    ),
                },
            ),
            None => Err(sandbox_not_found(name)),
        }
    }

    /// Adds a rule that lets an effect pass.
    pub fn bypass(&mut self, name: &str, kind: ProtectionKind, pattern: PolicyPattern) -> (result:
        Result<Outcome, Error>)
        requires
            old(self).registry@.next_id < u64::MAX,
        ensures
            final(self).runtime == old(self).runtime,
            final(self).mounts == old(self).mounts,
            adds_bypass(old(self).registry@, final(self).registry@, name@, kind, pattern, result),
    {
        let id = self.registry.next_operation_id();
        match self.registry.sandboxes.get_mut(&name.to_owned()) {
            Some(sandbox) => {
                let log_path = sandbox.log_path.clone();
                let shown = pattern.clone();
                let result = sandbox.add_passthrough(kind, pattern);
                let body = format_rule_body("bypass", kind, shown.as_str(), result);
                Ok(one_line(log_path, id, body))
            },
            None => Err(sandbox_not_found(name)),
        }
    }

    /// Removes a rule that lets an effect pass.
    pub fn unbypass(&mut self, name: &str, kind: ProtectionKind, pattern: &PolicyPattern) -> (result:
        Result<Outcome, Error>)
        requires
            old(self).registry@.next_id < u64::MAX,
        ensures
            final(self).runtime == old(self).runtime,
            final(self).mounts == old(self).mounts,
            removes_bypass(
                old(self).registry@,
                final(self).registry@,
                name@,
                kind,
                *pattern,
                result,
            ),
    {
        let id = self.registry.next_operation_id();
        match self.registry.sandboxes.get_mut(&name.to_owned()) {
            Some(sandbox) => {
                let log_path = sandbox.log_path.clone();
                let result = sandbox.remove_passthrough(kind, pattern);
                let body = format_rule_body("unbypass", kind, pattern.as_str(), result);
                Ok(one_line(log_path, id, body))
            },
            None => Err(sandbox_not_found(name)),
        }
    }

    /// The rules of a sandbox that let effects pass.
    pub fn list_bypass(
        &self,
        name: &str,
        include_read: bool,
        include_write: bool,
        include_metadata: bool,
        include_xattr: bool,
    ) -> (result: Result<Response, Error>)
        ensures
            lists_bypasses(
                self.registry@,
                name@,
                include_read,
                include_write,
                include_metadata,
                include_xattr,
                result,
            ),
    {
        match self.registry.sandboxes.get(&name.to_owned()) {
            Some(sandbox) => Ok(
                Response::PassthroughRules {
                    items: sandbox.passthrough_rules_of(
                        include_read,
                        include_write,
                        include_metadata,
                        include_xattr,
                    ),
                },
            ),
            None => Err(sandbox_not_found(name)),
        }
    }

    /// The layers and hides of a sandbox, a line each.
    pub fn list_mounts(&self, name: &str) -> (result: Result<Response, Error>)
        ensures
            lists_mounts(
                self.registry@,
                name@,
                result,
            ),
    {
        let sandbox = match self.registry.sandboxes.get(&name.to_owned()) {
            Some(sandbox) => sandbox,
            None => {
                return Err(sandbox_not_found(name));
            },
        };
        let ghost layers = sandbox@.layers.map_values(|layer: MountLayer| layer_line(layer));
        let ghost hides = sandbox@.hides.map_values(|hide: HideRule| hide_line(hide));
        let mut lines: Vec<String> = Vec::new();
        for i in 0..sandbox.layers.len()
            invariant
                layers == sandbox@.layers.map_values(|layer: MountLayer| layer_line(layer)),
                text::texts(lines@) == layers.take(i as int),
        {
            let mut line = sandbox.layers[i].local.as_str().to_owned();
            line.append(" on ");
            line.append(sandbox.layers[i].on_fs.as_str());
            proof {
                text::lemma_texts_push(lines@, line);
                assert(line@ == layers[i as int]);
                assert(layers.take(i as int).push(layers[i as int]) =~= layers.take(i + 1));
            }
            lines.push(line);
        }
        assert(layers.take(sandbox.layers.len() as int) + hides.take(0) =~= layers);
        assert(layers + hides.take(0) =~= layers);
        for i in 0..sandbox.hides.len()
            invariant
                hides == sandbox@.hides.map_values(|hide: HideRule| hide_line(hide)),
                text::texts(lines@) == layers + hides.take(i as int),
        {
            let mut line = "hide ".to_owned();
            line.append(sandbox.hides[i].path.as_str());
            proof {
                text::lemma_texts_push(lines@, line);
                assert(line@ == hides[i as int]);
                assert((layers + hides.take(i as int)).push(hides[i as int]) =~= layers + hides.take(
                    i + 1,
                ));
            }
            lines.push(line);
        }
        assert(hides.take(sandbox.hides.len() as int) =~= hides);
        Ok(Response::Text { text: text::joined_of(&lines, "\n") })
    }

    /// The paths that show an override, a line each.
    pub fn metadata(&self, name: &str) -> (result: Result<Response, Error>)
        ensures
            lists_overrides(
                self.registry@,
                name@,
                result,
            ),
    {
        let sandbox = match self.registry.sandboxes.get(&name.to_owned()) {
            Some(sandbox) => sandbox,
            None => {
                return Err(sandbox_not_found(name));
            },
        };
        let paths = sandbox.metadata_differences();
        let mut lines: Vec<String> = Vec::new();
        for i in 0..paths.len()
            invariant
                lines.len() == i,
                forall|j: int| 0 <= j < i ==> (#[trigger] lines@[j])@ == paths@[j].text(),
        {
            lines.push(paths[i].as_str().to_owned());
        }
        proof {
            let keys = choose|keys: Seq<ObjectView>|
                {
                    &&& table::ascending::<MetadataObjectKey>(keys)
                    &&& forall|key: ObjectView| #[trigger] keys.contains(key) <==> sandbox@.differs(key)
                    &&& paths@ == keys.map_values(
                        |key: ObjectView| sandbox@.metadata[key].sandbox_path,
                    )
                };
            assert(text::texts(lines@) =~= keys.map_values(
                |key: ObjectView| sandbox@.metadata[key].sandbox_path.text(),
            ));
        }
        Ok(Response::Text { text: text::joined_of(&lines, "\n") })
    }

    /// The pending requests of a sandbox by number. Looking changes nothing.
    pub fn pending(&self, name: &str) -> (result: Result<Response, Error>)
        requires
            self.registry@.listable(),
        ensures
            lists_pending(
                self.registry@,
                name@,
                result,
            ),
    {
        if !self.registry.sandboxes.contains_key(&name.to_owned()) {
            return Err(sandbox_not_found(name));
        }
        let items = self.registry.pending_requests_for_sandbox(name);
        Ok(Response::Pending { items })
    }

    /// The log file of a sandbox.
    pub fn log_path(&self, name: &str) -> (result: Result<Response, Error>)
        ensures
            shows_log_path(
                self.registry@,
                name@,
                result,
            ),
    {
        match self.registry.sandboxes.get(&name.to_owned()) {
            Some(sandbox) => Ok(Response::Text { text: sandbox.log_path.as_str().to_owned() }),
            None => Err(sandbox_not_found(name)),
        }
    }

    /// Checks that a view can be attached at a mountpoint, and hands out the
    /// numbers of the view and of the event.
    pub fn attach_begin(&mut self, name: &str, mountpoint: &HostPath) -> (result: Result<
        AttachTicket,
        Error,
    >)
        requires
            old(self).registry@.next_id + 1 < u64::MAX,
        ensures
            registry::stays_valid(old(self).registry@, final(self).registry@),
            final(self).runtime == old(self).runtime,
            final(self).mounts == old(self).mounts,
            match result {
                Ok(ticket) => {
                    let before = old(self).registry@;
                    &&& before.sandboxes.contains_key(name@)
                    &&& !registry::is_mountpoint(before, host::parts(mountpoint@))
                    &&& ticket.attach_id == before.next_id
                    &&& ticket.event_id == before.next_id + 1
                    &&& ticket.log_path@ == before.sandboxes[name@].log_path
                    &&& final(self).registry@ == before.numbered().numbered()
                },
                Err(error) => {
                    let before = old(self).registry@;
                    &&& final(self).registry@ == before
                    &&& if !before.sandboxes.contains_key(name@) {
                        error.says(not_found(name@))
                    } else if before.sandboxes[name@].attaches.contains_key(host::parts(mountpoint@)) {
                        error.says("mountpoint already attached: "@ + mountpoint@)
                    } else {
                        exists|other: Seq<char>|
                            {
                                &&& #[trigger] before.sandboxes.contains_key(other)
                                &&& before.sandboxes[other].attaches.contains_key(host::parts(mountpoint@))
                                &&& error.says(
                                    "mountpoint already used by sandbox "@ + other + ": "@
                                        + mountpoint@,
                                )
                            }
                    }
                },
            },
    {
        let log_path = match self.registry.sandboxes.get(&name.to_owned()) {
            Some(sandbox) => {
                if sandbox.attaches.contains_key(mountpoint) {
                    let mut message = "mountpoint already attached: ".to_owned();
                    message.append(mountpoint.as_str());
                    return Err(Error::msg(message));
                }
                sandbox.log_path.clone()
            },
            None => {
                return Err(sandbox_not_found(name));
            },
        };
        let n = self.registry.sandboxes.len();
        let ghost names = self.registry.sandboxes.ordered_keys();
        let mut i: usize = 0;
        while i < n
            invariant
                i <= n == names.len(),
                *self == *old(self),
                self.registry@.sandboxes.contains_key(name@),
                !self.registry@.sandboxes[name@].attaches.contains_key(host::parts(mountpoint@)),
                names == self.registry.sandboxes.ordered_keys(),
                forall|j: int|
                    0 <= j < i ==> !self.registry@.sandboxes[#[trigger] names[j]].attaches.contains_key(
                        host::parts(mountpoint@),
                    ),
            decreases n - i,
        {
            if self.registry.sandboxes.value_at(i).attaches.contains_key(mountpoint) {
                let other = self.registry.sandboxes.key_at(i);
                let mut message = "mountpoint already used by sandbox ".to_owned();
                message.append(other.as_str());
                message.append(": ");
                message.append(mountpoint.as_str());
                assert(self.registry@.sandboxes.contains_key(other@));
                return Err(Error::msg(message));
            }
            i += 1;
        }
        proof {
            if registry::is_mountpoint(self.registry@, host::parts(mountpoint@)) {
                let other = choose|other: Seq<char>| #[trigger]
                    self.registry@.sandboxes.contains_key(other)
                        && self.registry@.sandboxes[other].attaches.contains_key(host::parts(mountpoint@));
                assert(names.to_set().contains(other));
                let j = choose|j: int| 0 <= j < names.len() && names[j] == other;
                assert(!self.registry@.sandboxes[names[j]].attaches.contains_key(host::parts(mountpoint@)));
            }
        }
        let attach_id = self.registry.next_operation_id();
        let event_id = self.registry.next_operation_id();
        Ok(AttachTicket { attach_id, event_id, log_path })
    }

    /// Records a view that was mounted.
    pub fn attach_commit(
        &mut self,
        name: &str,
        mountpoint: HostPath,
        temporary: bool,
        ticket: AttachTicket,
    ) -> (result: Result<Outcome, Error>)
        ensures
            registry::stays_valid(old(self).registry@, final(self).registry@),
            final(self).runtime == old(self).runtime,
            final(self).mounts@.len() == old(self).mounts@.len() + 1,
            final(self).mounts@.drop_last() == old(self).mounts@,
            is_mounted_as(final(self).mounts@.last(), name@, ticket.attach_id, mountpoint@),
            final(self).mounts@.last().mountpoint == mountpoint,
            final(self).mounts@.last().temporary == temporary,
            match result {
                Ok(outcome) => {
                    let before = old(self).registry@;
                    let sandbox = before.sandboxes[name@];
                    &&& before.sandboxes.contains_key(name@)
                    &&& final(self).registry@ == before.with_sandbox(
                        name@,
                        SandboxView {
                            attaches: sandbox.attaches.insert(
                                host::parts(mountpoint@),
                                AttachMount {
                                    id: ticket.attach_id,
                                    mountpoint,
                                    temporary,
                                    active: true,
                                },
                            ),
                            ..sandbox
                        },
                    )
                    &&& logs_one(
                        outcome,
                        ticket.log_path@,
                        ticket.event_id,
                        "attach attach="@ + text::decimal(ticket.attach_id as nat) + " mountpoint="@
                            + mountpoint@,
                    )
                },
                Err(error) => {
                    &&& !old(self).registry@.sandboxes.contains_key(name@)
                    &&& final(self).registry@ == old(self).registry@
                    &&& error.says(not_found(name@))
                },
            },
    {
        let attach_id = ticket.attach_id;
        self.mounts.push(
            MountedSession {
                sandbox: name.to_owned(),
                attach_id,
                mountpoint: mountpoint.clone(),
                temporary,
            },
        );
        assert(self.mounts@.drop_last() =~= old(self).mounts@);
        let mut body = "attach attach=".to_owned();
        body.append(text::decimal_of(attach_id).as_str());
        body.append(" mountpoint=");
        body.append(mountpoint.as_str());
        match self.registry.sandboxes.get_mut(&name.to_owned()) {
            Some(sandbox) => {
                let key = mountpoint.clone();
                let _ = sandbox.attaches.insert(
                    key,
                    AttachMount { id: attach_id, mountpoint, temporary, active: true },
                );
                proof {
                    let before = old(self).registry@;
                    registry::lemma_same_requests(before, self.registry@);
                    registry::lemma_same_overlay(before, name@, self.registry@.sandboxes[name@]);
                    assert(self.registry@ =~= before.with_sandbox(
                        name@,
                        self.registry@.sandboxes[name@],
                    ));
                }
                Ok(one_line(ticket.log_path, ticket.event_id, body))
            },
            None => Err(sandbox_not_found(name)),
        }
    }

    /// Records that a view was unmounted.
    pub fn detach_commit(&mut self, name: &str, mountpoint: &HostPath, attach_id: u64, log_path: HostPath) -> (outcome:
        Outcome)
        requires
            old(self).registry@.next_id < u64::MAX,
        ensures
            registry::stays_valid(old(self).registry@, final(self).registry@),
            final(self).runtime == old(self).runtime,
            final(self).mounts == old(self).mounts,
            final(self).registry@ == {
                let before = old(self).registry@;
                let sandbox = before.sandboxes[name@];
                if before.sandboxes.contains_key(name@) {
                    before.numbered().with_sandbox(
                        name@,
                        SandboxView { attaches: sandbox.attaches.remove(host::parts(mountpoint@)), ..sandbox },
                    )
                } else {
                    before.numbered()
                }
            },
            logs_one(
                outcome,
                log_path@,
                old(self).registry@.next_id,
                "detach attach="@ + text::decimal(attach_id as nat),
            ),
    {
        let id = self.registry.next_operation_id();
        if let Some(sandbox) = self.registry.sandboxes.get_mut(&name.to_owned()) {
            let _ = sandbox.attaches.remove(mountpoint);
        }
        proof {
            let before = old(self).registry@;
            registry::lemma_same_requests(before, self.registry@);
            if before.sandboxes.contains_key(name@) {
                let sandbox = self.registry@.sandboxes[name@];
                registry::lemma_same_overlay(before, name@, sandbox);
                assert(self.registry@.sandboxes =~= before.sandboxes.insert(name@, sandbox));
            }
        }
        let mut body = "detach attach=".to_owned();
        body.append(text::decimal_of(attach_id).as_str());
        one_line(log_path, id, body)
    }

    /// Starts a trusted operation: hands out its number.
    pub fn trusted_begin(&mut self, name: &str) -> (result: Result<u64, Error>)
        requires
            old(self).registry@.next_id < u64::MAX,
        ensures
            registry::stays_valid(old(self).registry@, final(self).registry@),
            final(self).runtime == old(self).runtime,
            final(self).mounts == old(self).mounts,
            match result {
                Ok(id) => {
                    &&& old(self).registry@.sandboxes.contains_key(name@)
                    &&& id == old(self).registry@.next_id
                    &&& final(self).registry@ == old(self).registry@.numbered()
                },
                Err(error) => {
                    &&& !old(self).registry@.sandboxes.contains_key(name@)
                    &&& final(self).registry@ == old(self).registry@
                    &&& error.says(not_found(name@))
                },
            },
    {
        if !self.registry.sandboxes.contains_key(&name.to_owned()) {
            return Err(sandbox_not_found(name));
        }
        Ok(self.registry.next_operation_id())
    }

    /// Records a trusted operation whose view is attached; its token is made of
    /// the sandbox, the operation and the process of the session.
    pub fn trusted_commit(
        &mut self,
        name: &str,
        command: &str,
        operation_id: u64,
        mountpoint: HostPath,
        paths: Vec<TrustedPathScope>,
        process_id: u32,
    ) -> (response: Response)
        ensures
            registry::stays_valid(old(self).registry@, final(self).registry@),
            final(self).runtime == old(self).runtime,
            final(self).mounts == old(self).mounts,
            ({
                let token = trusted_token(name@, operation_id, process_id);
                &&& final(self).registry@ == (RegistryView {
                    trusted: old(self).registry@.trusted.insert(
                        token,
                        TrustedView {
                            id: operation_id,
                            sandbox: name@,
                            token,
                            pid: None,
                            uid: None,
                            mountpoint: mountpoint@,
                            command: command@,
                            paths: paths@,
                        },
                    ),
                    ..old(self).registry@
                })
                &&& response matches Response::Trusted {
                    token: shown,
                    operation_id: id,
                    mountpoint: at,
                } && shown@ == token && id == operation_id && at@ == mountpoint@
            }),
            records_trust(
                old(self).registry@,
                final(self).registry@,
                trusted_token(name@, operation_id, process_id),
                name@,
                paths@,
            ),
    {
        let mut token = name.to_owned();
        token.append("-");
        token.append(text::decimal_of(operation_id).as_str());
        token.append("-");
        token.append(text::decimal_of(process_id as u64).as_str());
        let shown = mountpoint.as_str().to_owned();
        let _ = self.registry.trusted.insert(
            token.clone(),
            TrustedOperation {
                id: operation_id,
                sandbox: name.to_owned(),
                token: token.clone(),
                pid: None,
                uid: None,
                mountpoint,
                command: command.to_owned(),
                paths,
            },
        );
        Response::Trusted { token, operation_id, mountpoint: shown }
    }

    /// Names the process that runs a trusted operation.
    pub fn register_trusted_pid(&mut self, token: &str, pid: u32, uid: u32) -> (result: Result<
        Response,
        Error,
    >)
        ensures
            registry::stays_valid(old(self).registry@, final(self).registry@),
            final(self).runtime == old(self).runtime,
            final(self).mounts == old(self).mounts,
            registers_pid(
                old(self).registry@,
                final(self).registry@,
                token@,
                pid,
                uid,
                result,
            ),
    {
        let result = match self.registry.trusted.get_mut(&token.to_owned()) {
            Some(trusted) => {
                trusted.pid = Some(pid);
                trusted.uid = Some(uid);
                Ok(Response::Done)
            },
            None => {
                let mut message = "trusted operation not found: ".to_owned();
                message.append(token);
                Err(Error::msg(message))
            },
        };
        proof {
            let before = old(self).registry@;
            registry::lemma_same_requests(before, self.registry@);
            assert(self.registry@.sandboxes == before.sandboxes);
            if registry::all_sound(before) {
                assert forall|name: Seq<char>| #[trigger]
                    self.registry@.sandboxes.contains_key(name) implies
                    self.registry@.sandboxes[name].sound() by {
                    assert(before.sandboxes.contains_key(name));
                }
            }
        }
        result
    }

    /// Ends a trusted operation: hands out what was recorded of it, so that its
    /// view can be detached.
    pub fn trusted_end(&mut self, token: &str) -> (result: Result<TrustedOperation, Error>)
        ensures
            registry::stays_valid(old(self).registry@, final(self).registry@),
            final(self).runtime == old(self).runtime,
            final(self).mounts == old(self).mounts,
            match result {
                Ok(trusted) => {
                    &&& old(self).registry@.trusted.contains_key(token@)
                    &&& trusted@ == old(self).registry@.trusted[token@]
                    &&& final(self).registry@ == (RegistryView {
                        trusted: old(self).registry@.trusted.remove(token@),
                        ..old(self).registry@
                    })
                },
                Err(error) => {
                    &&& !old(self).registry@.trusted.contains_key(token@)
                    &&& final(self).registry@ == old(self).registry@
                    &&& error.says("trusted operation not found: "@ + token@)
                },
            },
    {
        match self.registry.trusted.remove(&token.to_owned()) {
            Some(trusted) => Ok(trusted),
            None => {
                let mut message = "trusted operation not found: ".to_owned();
                message.append(token);
                Err(Error::msg(message))
            },
        }
    }
}

/// A trusted operation is recorded, with no process that it is trusted for yet.
pub open spec fn records_trust(
    before: RegistryView,
    after: RegistryView,
    token: Seq<char>,
    name: Seq<char>,
    paths: Seq<TrustedPathScope>,
) -> bool {
    &&& after.trusted.contains_key(token)
    &&& after.trusted[token].pid is None
    &&& after.trusted[token].uid is None
    &&& after.trusted[token].sandbox == name
    &&& after.trusted[token].paths == paths
    &&& after == (RegistryView {
        trusted: before.trusted.insert(token, after.trusted[token]),
        ..before
    })
}

/// The token of a trusted operation.
pub open spec fn trusted_token(name: Seq<char>, operation_id: u64, process_id: u32) -> Seq<char> {
    name + "-"@ + text::decimal(operation_id as nat) + "-"@ + text::decimal(process_id as nat)
}

} // verus!
