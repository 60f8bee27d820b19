//! The command line: what each command asks of a session, and what the user is
//! shown.

use vstd::prelude::*;

use crate::command;
use crate::command::RewrittenCommand;
use crate::error::Error;
use crate::grant;
use crate::grant::ReadWriteGrantLifetimeRequest;
use crate::grant::ReadWriteGrantOptions;
use crate::ipc::Request;
use crate::ipc::Response;
use crate::path;
use crate::path::SandboxPath;
use crate::pending::PendingRequest;
use crate::pending::RequestView;
use crate::policy;
use crate::policy::PassthroughRule;
use crate::policy::PolicyPattern;
use crate::policy::ProtectionKind;
use crate::policy::ProtectionRule;
use crate::registry;
use crate::text;

verus! {

broadcast use vstd::string::group_string_axioms;

/// How many lines of the log are shown first.
pub const MONITOR_TAIL_LINES: usize = 10;

/// A command for a running session.
#[allow(inconsistent_fields)]
#[derive(Debug)]
pub enum SandboxCommand {
    Destroy,
    Attach { mountpoint: String },
    Detach { mountpoint: String },
    Mount { local: Option<String>, on_fs: Option<String> },
    Umount { on_fs: String },
    Hide { on_fs: String },
    Protect { kind: ProtectionKind, pattern: String },
    Unprotect { kind: ProtectionKind, pattern: String },
    ListProtection { read: bool, write: bool, metadata: bool, xattr: bool },
    Bypass { kind: ProtectionKind, pattern: String },
    Unbypass { kind: ProtectionKind, pattern: String },
    ListBypass { read: bool, write: bool, metadata: bool, xattr: bool },
    Chmod { args: Vec<String> },
    Chown { args: Vec<String> },
    Chattr { args: Vec<String> },
    Allow {
        do_nothing: bool,
        id: Option<u64>,
        path: Option<String>,
        /// Given without a value, it stands for the default duration.
        duration: Option<Option<String>>,
        tree: bool,
    },
    Deny { id: u64 },
    Cancel { id: u64 },
    CancelAll { mountpoint: Option<String> },
    Monitor { follow: bool },
    Metadata,
}

/// What a command leads to.
#[derive(Debug)]
pub enum CommandPlan {
    Send { request: Request },
    Trusted { command: String, args: Vec<String> },
    Monitor { follow: bool },
}

/// The value of a decimal digit.
pub open spec fn digit_value(c: char) -> Option<nat> {
    if '0' <= c && c <= '9' {
        Some((c as nat - '0' as nat) as nat)
    } else {
        None
    }
}

/// The number that decimal digits write.
pub open spec fn number_value(digits: Seq<char>) -> Option<nat>
    decreases digits.len(),
{
    if digits.len() == 0 {
        None
    } else if digits.len() == 1 {
        digit_value(digits[0])
    } else {
        match (number_value(digits.drop_last()), digit_value(digits.last())) {
            (Some(front), Some(last)) => Some(10 * front + last),
            _ => None,
        }
    }
}

/// The seconds that a unit of time stands for.
pub open spec fn unit_seconds(unit: char) -> Option<nat> {
    if unit == 's' {
        Some(1)
    } else if unit == 'm' {
        Some(60)
    } else if unit == 'h' {
        Some(3600)
    } else {
        None
    }
}

/// The seconds that a duration writes: a number with its unit.
pub open spec fn duration_value(text: Seq<char>) -> Option<nat> {
    if text.len() == 0 {
        None
    } else {
        match (number_value(text.drop_last()), unit_seconds(text.last())) {
            (Some(number), Some(unit)) => Some(number * unit),
            _ => None,
        }
    }
}

proof fn lemma_number_prefix(digits: Seq<char>, n: int)
    requires
        1 <= n <= digits.len(),
        number_value(digits) is Some,
    ensures
        number_value(digits.take(n)) is Some,
        number_value(digits.take(n))->0 <= number_value(digits)->0,
    decreases digits.len(),
{
    if n < digits.len() {
        lemma_number_prefix(digits.drop_last(), n);
        assert(digits.drop_last().take(n) =~= digits.take(n));
    } else {
        assert(digits.take(n) =~= digits);
    }
}

fn number_of(chars: &Vec<char>, n: usize) -> (number: Option<u64>)
    requires
        n <= chars.len(),
    ensures
        match number {
            Some(value) => number_value(chars@.take(n as int)) == Some(value as nat),
            None => match number_value(chars@.take(n as int)) {
                Some(value) => value > u64::MAX,
                None => true,
            },
        },
{
    if n == 0 {
        return None;
    }
    let mut value: u64 = 0;
    let mut i: usize = 0;
    while i < n
        invariant
            1 <= n <= chars.len(),
            i <= n,
            i == 0 ==> value == 0,
            i > 0 ==> number_value(chars@.take(i as int)) == Some(value as nat),
        decreases n - i,
    {
        let c = chars[i];
        let ghost whole = chars@.take(n as int);
        proof {
            assert(chars@.take(i + 1).drop_last() =~= chars@.take(i as int));
            assert(whole.take(i + 1) =~= chars@.take(i + 1));
            if number_value(whole) is Some {
                lemma_number_prefix(whole, i + 1);
            }
        }
        if c < '0' || c > '9' {
            return None;
        }
        let digit: u64 = text::code_point(c) - 48;
        if value > (u64::MAX - digit) / 10 {
            assert(10 * value + digit > u64::MAX);
            return None;
        }
        value = 10 * value + digit;
        i += 1;
    }
    Some(value)
}

/// The seconds that a duration writes.
pub fn parse_duration(text: &str) -> (result: Result<u64, Error>)
    ensures
        match result {
            Ok(seconds) => duration_value(text@) == Some(seconds as nat),
            Err(error) => {
                &&& error.says("invalid duration: "@ + text@)
                &&& match duration_value(text@) {
                    Some(seconds) => seconds > u64::MAX,
                    None => true,
                }
            },
        },
{
    let chars = text::chars_of(text);
    let mut message = "invalid duration: ".to_owned();
    message.append(text);
    let n = chars.len();
    if n == 0 {
        return Err(Error::msg(message));
    }
    let unit: u64 = match chars[n - 1] {
        's' => 1,
        'm' => 60,
        'h' => 3600,
        _ => {
            return Err(Error::msg(message));
        },
    };
    assert(text@.drop_last() =~= chars@.take(n - 1));
    match number_of(&chars, n - 1) {
        Some(number) => {
            assert(number as nat * unit as nat == number * unit);
            if number > u64::MAX / unit {
                proof {
                    lemma_product_too_large(number as int, unit as int);
                }
                return Err(Error::msg(message));
            }
            proof {
                lemma_product_fits(number as int, unit as int);
            }
            Ok(number * unit)
        },
        None => {
            proof {
                if let Some(value) = number_value(text@.drop_last()) {
                    assert(value * unit as nat >= value) by (nonlinear_arith)
                        requires
                            unit >= 1,
                            value >= 0,
                    ;
                }
            }
            Err(Error::msg(message))
        },
    }
}

proof fn lemma_product_too_large(number: int, unit: int)
    requires
        unit == 1 || unit == 60 || unit == 3600,
        number > u64::MAX as int / unit,
    ensures
        number * unit > u64::MAX,
{
    assert(number * unit > u64::MAX) by (nonlinear_arith)
        requires
            unit == 1 || unit == 60 || unit == 3600,
            number > u64::MAX as int / unit,
    ;
}

proof fn lemma_product_fits(number: int, unit: int)
    requires
        unit == 1 || unit == 60 || unit == 3600,
        0 <= number <= u64::MAX as int / unit,
    ensures
        0 <= number * unit <= u64::MAX,
{
    assert(0 <= number * unit <= u64::MAX) by (nonlinear_arith)
        requires
            unit == 1 || unit == 60 || unit == 3600,
            0 <= number <= u64::MAX as int / unit,
    ;
}

/// The lifetime that a grant is asked for with.
pub open spec fn lifetime_of(
    duration: Option<Option<String>>,
    result: Result<ReadWriteGrantLifetimeRequest, Error>,
) -> bool {
    match duration {
        None => result == Ok::<ReadWriteGrantLifetimeRequest, Error>(
            ReadWriteGrantLifetimeRequest::OneShot,
        ),
        Some(None) => result == Ok::<ReadWriteGrantLifetimeRequest, Error>(
            ReadWriteGrantLifetimeRequest::Duration {
                seconds: grant::DEFAULT_READ_WRITE_GRANT_DURATION,
            },
        ),
        Some(Some(text)) => match result {
            Ok(ReadWriteGrantLifetimeRequest::Duration { seconds }) => duration_value(text@) == Some(
                seconds as nat,
            ),
            Ok(_) => false,
            Err(error) => {
                &&& error.says("invalid duration: "@ + text@)
                &&& match duration_value(text@) {
                    Some(seconds) => seconds > u64::MAX,
                    None => true,
                }
            },
        },
    }
}

fn grant_lifetime(duration: Option<Option<String>>) -> (result: Result<
    ReadWriteGrantLifetimeRequest,
    Error,
>)
    ensures
        lifetime_of(duration, result),
{
    match duration {
        None => Ok(ReadWriteGrantLifetimeRequest::OneShot),
        Some(None) => Ok(
            ReadWriteGrantLifetimeRequest::Duration {
                seconds: grant::DEFAULT_READ_WRITE_GRANT_DURATION,
            },
        ),
        Some(Some(text)) => match parse_duration(text.as_str()) {
            Ok(seconds) => Ok(ReadWriteGrantLifetimeRequest::Duration { seconds }),
            Err(error) => Err(error),
        },
    }
}

/// A path that was asked for, or none.
pub open spec fn is_path_of(path: Option<SandboxPath>, text: Option<String>) -> bool {
    match (path, text) {
        (Some(path), Some(text)) => path@ == path::components(text@),
        (None, None) => true,
        _ => false,
    }
}

/// What `allow` leads to.
pub open spec fn plans_allow(
    name: String,
    do_nothing: bool,
    id: Option<u64>,
    path: Option<String>,
    duration: Option<Option<String>>,
    tree: bool,
    result: Result<CommandPlan, Error>,
) -> bool {
    let wants_grant = path is Some || duration is Some || tree;
    match id {
        None => if do_nothing {
            result matches Err(error) && error.says("allow --do-nothing requires an operation id"@)
        } else if wants_grant {
            result matches Err(error) && error.says("allow grant options require an operation id"@)
        } else {
            sends(result, Request::Pending { name })
        },
        Some(id) => if wants_grant {
            match result {
                Ok(plan) => {
                    &&& plan matches CommandPlan::Send { request }
                    &&& request matches Request::Allow {
                        name: n,
                        id: i,
                        do_nothing: d,
                        grant: Some(options),
                    }
                    &&& n == name && i == id && d == do_nothing
                    &&& is_path_of(options.path, path)
                    &&& lifetime_of(duration, Ok(options.lifetime))
                    &&& options.tree == tree
                },
                Err(error) => lifetime_of(duration, Err(error)),
            }
        } else {
            sends(result, Request::Allow { name, id, do_nothing, grant: None })
        },
    }
}

/// The command sends just the request.
pub open spec fn sends(result: Result<CommandPlan, Error>, request: Request) -> bool {
    result == Ok::<CommandPlan, Error>(CommandPlan::Send { request })
}

/// What a command leads to.
pub open spec fn plans(
    name: String,
    command: SandboxCommand,
    result: Result<CommandPlan, Error>,
) -> bool {
    match command {
        SandboxCommand::Destroy => sends(result, Request::Shutdown { name }),
        SandboxCommand::Attach { mountpoint } => sends(
            result,
            Request::Attach { name, mountpoint, temporary: false },
        ),
        SandboxCommand::Detach { mountpoint } => sends(result, Request::Detach { name, mountpoint }),
        SandboxCommand::Mount { local, on_fs } => match (local, on_fs) {
            (None, None) => sends(result, Request::ListMounts { name }),
            (Some(local), Some(on_fs)) => {
                &&& result matches Ok(CommandPlan::Send { request })
                &&& request matches Request::Mount { name: n, local: l, on_fs: o }
                &&& n == name && l == local && o@ == path::components(on_fs@)
            },
            _ => result matches Err(error) && error.says(
                "mount expects either no arguments or <local> <on_fs>"@,
            ),
        },
        SandboxCommand::Umount { on_fs } => {
            &&& result matches Ok(CommandPlan::Send { request })
            &&& request matches Request::Umount { name: n, on_fs: o }
            &&& n == name && o@ == path::components(on_fs@)
        },
        SandboxCommand::Hide { on_fs } => {
            &&& result matches Ok(CommandPlan::Send { request })
            &&& request matches Request::Hide { name: n, on_fs: o }
            &&& n == name && o@ == path::components(on_fs@)
        },
        SandboxCommand::Protect { kind, pattern } => match result {
            Ok(plan) => {
                &&& plan matches CommandPlan::Send { request }
                &&& request matches Request::Protect { name: n, kind: k, pattern: p }
                &&& n == name && k == kind && policy::reads_pattern(pattern@, Ok(p))
            },
            Err(error) => policy::reads_pattern(pattern@, Err(error)),
        },
        SandboxCommand::Unprotect { kind, pattern } => match result {
            Ok(plan) => {
                &&& plan matches CommandPlan::Send { request }
                &&& request matches Request::Unprotect { name: n, kind: k, pattern: p }
                &&& n == name && k == kind && policy::reads_pattern(pattern@, Ok(p))
            },
            Err(error) => policy::reads_pattern(pattern@, Err(error)),
        },
        SandboxCommand::ListProtection { read, write, metadata, xattr } => sends(
            result,
            Request::ListProtection {
                name,
                include_read: read,
                include_write: write,
                include_metadata: metadata,
                include_xattr: xattr,
            },
        ),
        SandboxCommand::Bypass { kind, pattern } => match result {
            Ok(plan) => {
                &&& plan matches CommandPlan::Send { request }
                &&& request matches Request::Bypass { name: n, kind: k, pattern: p }
                &&& n == name && k == kind && policy::reads_pattern(pattern@, Ok(p))
            },
            Err(error) => policy::reads_pattern(pattern@, Err(error)),
        },
        SandboxCommand::Unbypass { kind, pattern } => match result {
            Ok(plan) => {
                &&& plan matches CommandPlan::Send { request }
                &&& request matches Request::Unbypass { name: n, kind: k, pattern: p }
                &&& n == name && k == kind && policy::reads_pattern(pattern@, Ok(p))
            },
            Err(error) => policy::reads_pattern(pattern@, Err(error)),
        },
        SandboxCommand::ListBypass { read, write, metadata, xattr } => sends(
            result,
            Request::ListBypass {
                name,
                include_read: read,
                include_write: write,
                include_metadata: metadata,
                include_xattr: xattr,
            },
        ),
        SandboxCommand::Chmod { args } => runs(result, "chmod"@, args),
        SandboxCommand::Chown { args } => runs(result, "chown"@, args),
        SandboxCommand::Chattr { args } => runs(result, "chattr"@, args),
        SandboxCommand::Allow { do_nothing, id, path, duration, tree } => plans_allow(
            name,
            do_nothing,
            id,
            path,
            duration,
            tree,
            result,
        ),
        SandboxCommand::Deny { id } => sends(result, Request::Deny { name, id }),
        SandboxCommand::Cancel { id } => sends(result, Request::Cancel { name, id }),
        SandboxCommand::CancelAll { mountpoint } => sends(
            result,
            Request::CancelAll { name, mountpoint },
        ),
        SandboxCommand::Monitor { follow } => result == Ok::<CommandPlan, Error>(
            CommandPlan::Monitor { follow },
        ),
        SandboxCommand::Metadata => sends(result, Request::Metadata { name }),
    }
}

/// The command runs a metadata command with trust.
pub open spec fn runs(
    result: Result<CommandPlan, Error>,
    command: Seq<char>,
    args: Vec<String>,
) -> bool {
    result matches Ok(CommandPlan::Trusted { command: c, args: a }) && c@ == command && a == args
}

fn send(request: Request) -> (result: Result<CommandPlan, Error>)
    ensures
        sends(result, request),
{
    Ok(CommandPlan::Send { request })
}

/// What a command leads to.
pub fn plan_command(name: String, command: SandboxCommand) -> (result: Result<CommandPlan, Error>)
    ensures
        plans(name, command, result),
{
    match command {
        SandboxCommand::Destroy => send(Request::Shutdown { name }),
        SandboxCommand::Attach { mountpoint } => send(
            Request::Attach { name, mountpoint, temporary: false },
        ),
        SandboxCommand::Detach { mountpoint } => send(Request::Detach { name, mountpoint }),
        SandboxCommand::Mount { local, on_fs } => match (local, on_fs) {
            (None, None) => send(Request::ListMounts { name }),
            (Some(local), Some(on_fs)) => match SandboxPath::new(on_fs.as_str()) {
                Ok(on_fs) => send(Request::Mount { name, local, on_fs }),
                Err(error) => Err(error),
            },
            _ => Err(
                Error::msg("mount expects either no arguments or <local> <on_fs>".to_owned()),
            ),
        },
        SandboxCommand::Umount { on_fs } => match SandboxPath::new(on_fs.as_str()) {
            Ok(on_fs) => send(Request::Umount { name, on_fs }),
            Err(error) => Err(error),
        },
        SandboxCommand::Hide { on_fs } => match SandboxPath::new(on_fs.as_str()) {
            Ok(on_fs) => send(Request::Hide { name, on_fs }),
            Err(error) => Err(error),
        },
        SandboxCommand::Protect { kind, pattern } => match PolicyPattern::new(pattern.as_str()) {
            Ok(pattern) => send(Request::Protect { name, kind, pattern }),
            Err(error) => Err(error),
        },
        SandboxCommand::Unprotect { kind, pattern } => match PolicyPattern::new(pattern.as_str()) {
            Ok(pattern) => send(Request::Unprotect { name, kind, pattern }),
            Err(error) => Err(error),
        },
        SandboxCommand::ListProtection { read, write, metadata, xattr } => send(
            Request::ListProtection {
                name,
                include_read: read,
                include_write: write,
                include_metadata: metadata,
                include_xattr: xattr,
            },
        ),
        SandboxCommand::Bypass { kind, pattern } => match PolicyPattern::new(pattern.as_str()) {
            Ok(pattern) => send(Request::Bypass { name, kind, pattern }),
            Err(error) => Err(error),
        },
        SandboxCommand::Unbypass { kind, pattern } => match PolicyPattern::new(pattern.as_str()) {
            Ok(pattern) => send(Request::Unbypass { name, kind, pattern }),
            Err(error) => Err(error),
        },
        SandboxCommand::ListBypass { read, write, metadata, xattr } => send(
            Request::ListBypass {
                name,
                include_read: read,
                include_write: write,
                include_metadata: metadata,
                include_xattr: xattr,
            },
        ),
        SandboxCommand::Chmod { args } => Ok(
            CommandPlan::Trusted { command: "chmod".to_owned(), args },
        ),
        SandboxCommand::Chown { args } => Ok(
            CommandPlan::Trusted { command: "chown".to_owned(), args },
        ),
        SandboxCommand::Chattr { args } => Ok(
            CommandPlan::Trusted { command: "chattr".to_owned(), args },
        ),
        SandboxCommand::Allow { do_nothing, id, path, duration, tree } => plan_allow(
            name,
            do_nothing,
            id,
            path,
            duration,
            tree,
        ),
        SandboxCommand::Deny { id } => send(Request::Deny { name, id }),
        SandboxCommand::Cancel { id } => send(Request::Cancel { name, id }),
        SandboxCommand::CancelAll { mountpoint } => send(Request::CancelAll { name, mountpoint }),
        SandboxCommand::Monitor { follow } => Ok(CommandPlan::Monitor { follow }),
        SandboxCommand::Metadata => send(Request::Metadata { name }),
    }
}

fn plan_allow(
    name: String,
    do_nothing: bool,
    id: Option<u64>,
    path: Option<String>,
    duration: Option<Option<String>>,
    tree: bool,
) -> (result: Result<CommandPlan, Error>)
    ensures
        plans_allow(name, do_nothing, id, path, duration, tree, result),
{
    let wants_grant = path.is_some() || duration.is_some() || tree;
    let id = match id {
        Some(id) => id,
        None => {
            if do_nothing {
                return Err(Error::msg("allow --do-nothing requires an operation id".to_owned()));
            }
            if wants_grant {
                return Err(Error::msg("allow grant options require an operation id".to_owned()));
            }
            return send(Request::Pending { name });
        },
    };
    if !wants_grant {
        return send(Request::Allow { name, id, do_nothing, grant: None });
    }
    let lifetime = match grant_lifetime(duration) {
        Ok(lifetime) => lifetime,
        Err(error) => {
            return Err(error);
        },
    };
    let path = match path {
        Some(text) => match SandboxPath::new(text.as_str()) {
            Ok(path) => Some(path),
            Err(error) => {
                return Err(error);
            },
        },
        None => None,
    };
    let options = ReadWriteGrantOptions { path, lifetime, tree };
    send(Request::Allow { name, id, do_nothing, grant: Some(options) })
}

/// The error about a session that cannot be reached.
pub fn contact_error(name: &str, cause: &str) -> (error: Error)
    ensures
        error.says(
            "could not contact sandbox session "@ + name@ + "; is `sandboxfs run "@ + name@
                + "` running? ("@ + cause@ + ")"@,
        ),
{
    let mut message = "could not contact sandbox session ".to_owned();
    message.append(name);
    message.append("; is `sandboxfs run ");
    message.append(name);
    message.append("` running? (");
    message.append(cause);
    message.append(")");
    Error::msg(message)
}

/// The line that lists a pending request.
pub open spec fn pending_line(request: RequestView) -> Seq<char> {
    text::decimal(request.id() as nat) + " "@ + request.description()
}

/// The lines that list pending requests.
pub fn format_pending_items(items: &Vec<PendingRequest>) -> (text: String)
    ensures
        text@ == text::joined(
            registry::views(items@).map_values(|request: RequestView| pending_line(request)),
            "\n"@,
        ),
{
    let ghost target = registry::views(items@).map_values(
        |request: RequestView| pending_line(request),
    );
    let mut lines: Vec<String> = Vec::new();
    for i in 0..items.len()
        invariant
            target == registry::views(items@).map_values(
                |request: RequestView| pending_line(request),
            ),
            text::texts(lines@) == target.take(i as int),
    {
        let mut line = text::decimal_of(items[i].id());
        line.append(" ");
        line.append(items[i].description());
        proof {
            text::lemma_texts_push(lines@, line);
            assert(line@ == target[i as int]);
            assert(target.take(i as int).push(target[i as int]) =~= target.take(i + 1));
        }
        lines.push(line);
    }
    assert(target.take(items.len() as int) =~= target);
    text::joined_of(&lines, "\n")
}

/// The line that lists a rule.
pub open spec fn rule_line(kind: ProtectionKind, pattern: Seq<char>) -> Seq<char> {
    kind.name() + " "@ + pattern
}

fn format_rule_line(kind: ProtectionKind, pattern: &str) -> (line: String)
    ensures
        line@ == rule_line(kind, pattern@),
{
    let mut line = kind.log_name().to_owned();
    line.append(" ");
    line.append(pattern);
    line
}

/// The lines that list protection rules.
pub fn format_protection_rules(items: &Vec<ProtectionRule>) -> (text: String)
    ensures
        text@ == text::joined(
            items@.map_values(|rule: ProtectionRule| rule_line(rule.kind, rule.pattern@.text)),
            "\n"@,
        ),
{
    let ghost target = items@.map_values(
        |rule: ProtectionRule| rule_line(rule.kind, rule.pattern@.text),
    );
    let mut lines: Vec<String> = Vec::new();
    for i in 0..items.len()
        invariant
            target == items@.map_values(
                |rule: ProtectionRule| rule_line(rule.kind, rule.pattern@.text),
            ),
            text::texts(lines@) == target.take(i as int),
    {
        let line = format_rule_line(items[i].kind, items[i].pattern.as_str());
        proof {
            text::lemma_texts_push(lines@, line);
            assert(line@ == target[i as int]);
            assert(target.take(i as int).push(target[i as int]) =~= target.take(i + 1));
        }
        lines.push(line);
    }
    assert(target.take(items.len() as int) =~= target);
    text::joined_of(&lines, "\n")
}

/// The lines that list the rules that let effects pass.
pub fn format_passthrough_rules(items: &Vec<PassthroughRule>) -> (text: String)
    ensures
        text@ == text::joined(
            items@.map_values(|rule: PassthroughRule| rule_line(rule.kind, rule.pattern@.text)),
            "\n"@,
        ),
{
    let ghost target = items@.map_values(
        |rule: PassthroughRule| rule_line(rule.kind, rule.pattern@.text),
    );
    let mut lines: Vec<String> = Vec::new();
    for i in 0..items.len()
        invariant
            target == items@.map_values(
                |rule: PassthroughRule| rule_line(rule.kind, rule.pattern@.text),
            ),
            text::texts(lines@) == target.take(i as int),
    {
        let line = format_rule_line(items[i].kind, items[i].pattern.as_str());
        proof {
            text::lemma_texts_push(lines@, line);
            assert(line@ == target[i as int]);
            assert(target.take(i as int).push(target[i as int]) =~= target.take(i + 1));
        }
        lines.push(line);
    }
    assert(target.take(items.len() as int) =~= target);
    text::joined_of(&lines, "\n")
}

/// The text that an answer shows; nothing is shown where it is empty.
pub open spec fn shown_text(response: Response) -> Seq<char> {
    match response {
        Response::Done => Seq::empty(),
        Response::Warning { message } => "warning: "@ + message@,
        Response::Text { text } => text@,
        Response::Pending { items } => text::joined(
            registry::views(items@).map_values(|request: RequestView| pending_line(request)),
            "\n"@,
        ),
        Response::ProtectionRules { items } => text::joined(
            items@.map_values(|rule: ProtectionRule| rule_line(rule.kind, rule.pattern@.text)),
            "\n"@,
        ),
        Response::PassthroughRules { items } => text::joined(
            items@.map_values(|rule: PassthroughRule| rule_line(rule.kind, rule.pattern@.text)),
            "\n"@,
        ),
        Response::Trusted { .. } => Seq::empty(),
        Response::Error { .. } => Seq::empty(),
    }
}

/// What the user is shown of an answer.
pub fn show_response(response: Response) -> (result: Result<String, Error>)
    ensures
        match response {
            Response::Error { message } => result == Err::<String, Error>(Error::Message(message)),
            _ => result matches Ok(text) && text@ == shown_text(response),
        },
{
    match response {
        Response::Done => Ok(String::new()),
        Response::Warning { message } => {
            let mut text = "warning: ".to_owned();
            text.append(message.as_str());
            Ok(text)
        },
        Response::Text { text } => Ok(text),
        Response::Pending { items } => Ok(format_pending_items(&items)),
        Response::ProtectionRules { items } => Ok(format_protection_rules(&items)),
        Response::PassthroughRules { items } => Ok(format_passthrough_rules(&items)),
        Response::Trusted { .. } => Ok(String::new()),
        Response::Error { message } => Err(Error::msg(message)),
    }
}

/// The error about an answer that does not fit the request. `shown` tells the
/// answer.
pub fn unexpected_response(shown: &str) -> (error: Error)
    ensures
        error.says("unexpected session response: "@ + shown@),
{
    let mut message = "unexpected session response: ".to_owned();
    message.append(shown);
    Error::msg(message)
}

/// Checks that a request was carried out. `shown` tells the answer.
pub fn expect_done(response: Response, shown: &str) -> (result: Result<(), Error>)
    ensures
        match response {
            Response::Done => result is Ok,
            Response::Error { message } => result == Err::<(), Error>(Error::Message(message)),
            _ => result matches Err(error) && error.says("unexpected session response: "@ + shown@),
        },
{
    match response {
        Response::Done => Ok(()),
        Response::Error { message } => Err(Error::msg(message)),
        _ => Err(unexpected_response(shown)),
    }
}

/// The text of an answer. `shown` tells the answer.
pub fn expect_text(response: Response, shown: &str) -> (result: Result<String, Error>)
    ensures
        match response {
            Response::Text { text } => result == Ok::<String, Error>(text),
            Response::Error { message } => result == Err::<String, Error>(Error::Message(message)),
            _ => result matches Err(error) && error.says("unexpected session response: "@ + shown@),
        },
{
    match response {
        Response::Text { text } => Ok(text),
        Response::Error { message } => Err(Error::msg(message)),
        _ => Err(unexpected_response(shown)),
    }
}

/// The pending requests of an answer. `shown` tells the answer.
pub fn expect_pending(response: Response, shown: &str) -> (result: Result<Vec<PendingRequest>, Error>)
    ensures
        match response {
            Response::Pending { items } => result == Ok::<Vec<PendingRequest>, Error>(items),
            Response::Error { message } => result == Err::<Vec<PendingRequest>, Error>(
                Error::Message(message),
            ),
            _ => result matches Err(error) && error.says("unexpected session response: "@ + shown@),
        },
{
    match response {
        Response::Pending { items } => Ok(items),
        Response::Error { message } => Err(Error::msg(message)),
        _ => Err(unexpected_response(shown)),
    }
}

/// The token and the mountpoint of a trusted operation that began. `shown`
/// tells the answer.
pub fn expect_trusted(response: Response, shown: &str) -> (result: Result<(String, String), Error>)
    ensures
        match response {
            Response::Trusted { token, mountpoint, .. } => result == Ok::<(String, String), Error>(
                (token, mountpoint),
            ),
            Response::Error { message } => result == Err::<(String, String), Error>(
                Error::Message(message),
            ),
            _ => result matches Err(error) && error.says("unexpected session response: "@ + shown@),
        },
{
    match response {
        Response::Trusted { token, mountpoint, .. } => Ok((token, mountpoint)),
        Response::Error { message } => Err(Error::msg(message)),
        _ => Err(unexpected_response(shown)),
    }
}

/// The argument holds a character that ends a text for the system.
pub open spec fn has_nul(arg: Seq<char>) -> bool {
    arg.contains('\0')
}

/// The command that is run with trust: its rewritten arguments, and the paths
/// that they name.
pub fn trusted_command(command: &str, args: &Vec<String>) -> (result: Result<RewrittenCommand, Error>)
    ensures
        ({
            let kind = command::MetadataCommand::named(command@);
            let all = text::texts(args@);
            if args.len() == 0 {
                result matches Err(error) && error.says(command@ + " requires arguments"@)
            } else if !command::rewritable(kind, all) {
                result is Err && command::rewrites(kind, all, result)
            } else if exists|i: int| 0 <= i < all.len() && has_nul(#[trigger] all[i]) {
                result matches Err(error) && error.says("argument contains NUL"@)
            } else {
                result is Ok && command::rewrites(kind, all, result)
            }
        }),
{
    if args.len() == 0 {
        let mut message = command.to_owned();
        message.append(" requires arguments");
        return Err(Error::msg(message));
    }
    let ghost all = text::texts(args@);
    let done = match command::rewrite_command_path_args(command, args) {
        Ok(done) => done,
        Err(error) => {
            return Err(error);
        },
    };
    for i in 0..args.len()
        invariant
            all == text::texts(args@),
            forall|j: int| 0 <= j < i ==> !has_nul(#[trigger] all[j]),
            args.len() > 0,
            command::rewritable(command::MetadataCommand::named(command@), all),
    {
        assert(all[i as int] == args@[i as int]@);
        if text::contains_char(args[i].as_str(), '\0') {
            assert(has_nul(all[i as int]));
            return Err(Error::msg("argument contains NUL".to_owned()));
        }
    }
    Ok(done)
}

/// How far a trusted command got when something went wrong.
#[derive(Clone, Copy, Debug, PartialEq, Eq, Structural)]
pub enum TrustedStage {
    /// The session did not begin the operation.
    Begin,
    /// The operation began and the child was not started.
    Start,
    /// The child waits, and the session did not take its number.
    Register,
    /// The child waits, and could not be told to go on.
    Release,
    /// The child went on, and its end could not be learnt.
    Wait,
}

/// What has to be undone when a trusted command fails.
#[derive(Clone, Copy, Debug, PartialEq, Eq, Structural)]
pub struct Recovery {
    pub remove_directory: bool,
    pub kill_child: bool,
    pub wait_for_child: bool,
    pub end_operation: bool,
}

/// What has to be undone when a trusted command fails: a directory that was made
/// for nothing, a child that waits for nothing, and an operation that began.
pub fn recovery(stage: TrustedStage) -> (undo: Recovery)
    ensures
        undo.remove_directory == (stage is Begin),
        undo.kill_child == (stage is Register),
        undo.wait_for_child == (stage is Register || stage is Release),
        undo.end_operation == !(stage is Begin),
{
    Recovery {
        remove_directory: stage == TrustedStage::Begin,
        kill_child: stage == TrustedStage::Register,
        wait_for_child: stage == TrustedStage::Register || stage == TrustedStage::Release,
        end_operation: stage != TrustedStage::Begin,
    }
}

/// The exit code for a command that ended: its own, or one that tells the signal
/// that ended it.
pub fn exit_code(exited: Option<i32>, signal: Option<i32>) -> (code: i32)
    requires
        signal is Some ==> 0 <= signal->0 <= 127,
    ensures
        code == match exited {
            Some(code) => code as int,
            None => match signal {
                Some(signal) => 128 + signal,
                None => 1,
            },
        },
{
    match exited {
        Some(code) => code,
        None => match signal {
            Some(signal) => 128 + signal,
            None => 1,
        },
    }
}

/// The number of line ends in a text.
pub open spec fn line_ends(data: Seq<char>) -> nat
    decreases data.len(),
{
    if data.len() == 0 {
        0
    } else {
        line_ends(data.drop_first()) + if data[0] == '\n' {
            1nat
        } else {
            0
        }
    }
}

/// The place where the last lines of a text begin.
pub open spec fn is_tail(data: Seq<char>, lines: nat, start: int) -> bool {
    ||| start == 0 && line_ends(data) <= lines
    ||| 0 < start <= data.len() && data[start - 1] == '\n' && line_ends(data.skip(start)) == lines
}

/// The last lines of a text, with what follows the last line end.
pub fn tail_lines(data: &str, line_count: usize) -> (tail: &str)
    ensures
        line_count == 0 ==> tail@ == Seq::<char>::empty(),
        line_count > 0 ==> exists|start: int|
            #[trigger] is_tail(data@, line_count as nat, start) && tail@ == data@.skip(start),
{
    let chars = text::chars_of(data);
    let n = chars.len();
    if line_count == 0 {
        assert(data@.subrange(0, 0) =~= Seq::<char>::empty());
        return data.substring_char(0, 0);
    }
    let mut i: usize = n;
    let mut ends: usize = 0;
    assert(data@.skip(n as int) =~= Seq::<char>::empty());
    while i > 0
        invariant
            chars@ == data@,
            n == chars.len(),
            i <= n,
            line_count > 0,
            ends <= line_count,
            ends == line_ends(data@.skip(i as int)),
        decreases i,
    {
        i -= 1;
        proof {
            assert(data@.skip(i as int).drop_first() =~= data@.skip(i + 1));
            assert(data@.skip(i as int)[0] == data@[i as int]);
        }
        if chars[i] == '\n' {
            if ends == line_count {
                assert(is_tail(data@, line_count as nat, i + 1));
                assert(data@.subrange(i + 1, n as int) =~= data@.skip(i + 1));
                return data.substring_char(i + 1, n);
            }
            ends += 1;
        }
    }
    assert(data@.skip(0) =~= data@);
    assert(is_tail(data@, line_count as nat, 0));
    data
}

} // verus!
