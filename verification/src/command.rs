//! The metadata commands that a user runs inside a sandbox: which arguments
//! name paths, and how they read below the mountpoint of a view.

use vstd::prelude::*;

use crate::error::Error;
use crate::path;
use crate::path::SandboxPath;
use crate::sandbox::TrustedPathScope;
use crate::text;

verus! {

broadcast use vstd::string::group_string_axioms;

/// A command whose arguments are rewritten.
#[derive(Clone, Copy, Debug, PartialEq, Eq, Structural)]
pub enum MetadataCommand {
    Chmod,
    Chown,
    Chattr,
    Other,
}

impl MetadataCommand {
    /// The command with a name.
    pub open spec fn named(name: Seq<char>) -> Self {
        if name == "chmod"@ {
            MetadataCommand::Chmod
        } else if name == "chown"@ {
            MetadataCommand::Chown
        } else if name == "chattr"@ {
            MetadataCommand::Chattr
        } else {
            MetadataCommand::Other
        }
    }

    /// The command with a name.
    pub fn from_name(name: &str) -> (command: Self)
        ensures
            command == Self::named(name@),
    {
        if text::same_text(name, "chmod") {
            MetadataCommand::Chmod
        } else if text::same_text(name, "chown") {
            MetadataCommand::Chown
        } else if text::same_text(name, "chattr") {
            MetadataCommand::Chattr
        } else {
            MetadataCommand::Other
        }
    }
}

/// A command with the arguments that it is run with, and the paths that they
/// name.
#[derive(Debug)]
pub struct RewrittenCommand {
    pub args: Vec<String>,
    pub paths: Vec<TrustedPathScope>,
}

/// A text that begins with the character.
pub open spec fn begins(arg: Seq<char>, c: char) -> bool {
    arg.len() > 0 && arg[0] == c
}

/// The mark that ends the options.
pub open spec fn is_separator(arg: Seq<char>) -> bool {
    arg == "--"@
}

/// One of the first `n` arguments is the mode or owner: neither an option nor
/// the mark.
pub open spec fn value_seen(args: Seq<Seq<char>>, n: int) -> bool {
    exists|j: int|
        0 <= j < n && !is_separator(#[trigger] args[j]) && !begins(args[j], '-')
}

/// One of the first `n` arguments is not the mark.
pub open spec fn flags_seen(args: Seq<Seq<char>>, n: int) -> bool {
    exists|j: int| 0 <= j < n && !is_separator(#[trigger] args[j])
}

/// The argument names a path. For `chmod` and `chown` these are the arguments
/// after the mode or owner; for `chattr` those after the first argument that do
/// not look like flags.
pub open spec fn names_path(command: MetadataCommand, args: Seq<Seq<char>>, i: int) -> bool {
    match command {
        MetadataCommand::Chmod | MetadataCommand::Chown => !is_separator(args[i]) && value_seen(
            args,
            i,
        ),
        MetadataCommand::Chattr => {
            &&& !is_separator(args[i])
            &&& !begins(args[i], '+') && !begins(args[i], '-') && !begins(args[i], '=')
            &&& flags_seen(args, i)
        },
        MetadataCommand::Other => true,
    }
}

/// The argument is an option that takes a path in a way that cannot be
/// rewritten.
pub open spec fn is_unsupported(command: MetadataCommand, arg: Seq<char>) -> bool {
    match command {
        MetadataCommand::Chmod => "--reference"@.is_prefix_of(arg),
        MetadataCommand::Chown => "--reference"@.is_prefix_of(arg) || "--from"@.is_prefix_of(arg),
        _ => false,
    }
}

/// What the user is told about such an option.
pub open spec fn unsupported_text(command: MetadataCommand) -> Seq<char> {
    match command {
        MetadataCommand::Chown =>
        "chown --reference/--from is not supported by sandboxfs path rewriting"@,
        _ => "chmod --reference is not supported by sandboxfs path rewriting"@,
    }
}

/// A path that goes up.
pub open spec fn goes_up(arg: Seq<char>) -> bool {
    text::pieces(arg, '/').contains(".."@)
}

/// What is wrong with an argument.
pub open spec fn fault(command: MetadataCommand, args: Seq<Seq<char>>, i: int) -> Option<Seq<char>> {
    if is_unsupported(command, args[i]) {
        Some(unsupported_text(command))
    } else if names_path(command, args, i) && goes_up(args[i]) {
        Some(
            "metadata command paths containing '..' are not supported by sandboxfs path rewriting"@,
        )
    } else {
        None
    }
}

/// The first argument with which something is wrong.
pub open spec fn first_fault(command: MetadataCommand, args: Seq<Seq<char>>, i: int) -> bool {
    &&& 0 <= i < args.len()
    &&& fault(command, args, i) is Some
    &&& forall|j: int| 0 <= j < i ==> (#[trigger] fault(command, args, j)) is None
}

/// What the user is told when there are too few arguments.
pub open spec fn too_few_text(command: MetadataCommand) -> Seq<char> {
    match command {
        MetadataCommand::Chown => "chown requires owner and path"@,
        MetadataCommand::Chattr => "chattr requires flags and path"@,
        _ => "chmod requires mode and path"@,
    }
}

/// The option that makes a command go below the paths.
pub open spec fn is_recursive_option(arg: Seq<char>) -> bool {
    arg == "--recursive"@ || (begins(arg, '-') && !"--"@.is_prefix_of(arg) && arg.contains('R'))
}

/// The command goes below the paths.
pub open spec fn is_recursive(command: MetadataCommand, args: Seq<Seq<char>>) -> bool {
    &&& command != MetadataCommand::Other
    &&& exists|i: int| 0 <= i < args.len() && is_recursive_option(#[trigger] args[i])
}

/// The arguments as the command is run with them.
pub open spec fn rewritten_args(command: MetadataCommand, args: Seq<Seq<char>>) -> Seq<Seq<char>> {
    Seq::new(
        args.len(),
        |i: int|
            if names_path(command, args, i) {
                path::rewritten(args[i])
            } else {
                args[i]
            },
    )
}

/// The paths that the first `n` arguments name.
pub open spec fn named_paths(command: MetadataCommand, args: Seq<Seq<char>>, n: nat) -> Seq<
    Seq<Seq<char>>,
>
    decreases n,
{
    if n == 0 {
        Seq::empty()
    } else {
        let i = (n - 1) as nat;
        let before = named_paths(command, args, i);
        if names_path(command, args, i as int) {
            before.push(path::components(args[i as int]))
        } else {
            before
        }
    }
}

/// The scopes are those of the paths.
pub open spec fn are_scopes_of(
    scopes: Seq<TrustedPathScope>,
    paths: Seq<Seq<Seq<char>>>,
    recursive: bool,
) -> bool {
    &&& scopes.len() == paths.len()
    &&& forall|i: int|
        0 <= i < scopes.len() ==> (#[trigger] scopes[i]).path@ == paths[i] && scopes[i].recursive
            == recursive
}

/// There are enough arguments, and nothing is wrong with any of them.
pub open spec fn rewritable(command: MetadataCommand, args: Seq<Seq<char>>) -> bool {
    &&& command == MetadataCommand::Other || args.len() >= 2
    &&& forall|i: int| 0 <= i < args.len() ==> (#[trigger] fault(command, args, i)) is None
}

/// What rewriting the arguments of a command gives.
pub open spec fn rewrites(
    command: MetadataCommand,
    args: Seq<Seq<char>>,
    result: Result<RewrittenCommand, Error>,
) -> bool {
    if command != MetadataCommand::Other && args.len() < 2 {
        result matches Err(error) && error.says(too_few_text(command))
    } else {
        match result {
            Ok(done) => {
                &&& rewritable(command, args)
                &&& text::texts(done.args@) == rewritten_args(command, args)
                &&& are_scopes_of(
                    done.paths@,
                    named_paths(command, args, args.len()),
                    is_recursive(command, args),
                )
            },
            Err(error) => exists|i: int| #[trigger]
                first_fault(command, args, i) && error.says(fault(command, args, i)->0),
        }
    }
}

fn recursive_option(arg: &str) -> (found: bool)
    ensures
        found == is_recursive_option(arg@),
{
    text::same_text(arg, "--recursive") || (text::starts_with_char(arg, '-')
        && !text::starts_with_text(arg, "--") && text::contains_char(arg, 'R'))
}

fn recursive_command(command: MetadataCommand, args: &Vec<String>) -> (found: bool)
    ensures
        found == is_recursive(command, text::texts(args@)),
{
    if command == MetadataCommand::Other {
        return false;
    }
    let ghost all = text::texts(args@);
    for i in 0..args.len()
        invariant
            all == text::texts(args@),
            forall|j: int| 0 <= j < i ==> !is_recursive_option(#[trigger] all[j]),
    {
        assert(all[i as int] == args@[i as int]@);
        if recursive_option(args[i].as_str()) {
            return command != MetadataCommand::Other;
        }
    }
    false
}

fn path_goes_up(arg: &str) -> (found: bool)
    ensures
        found == goes_up(arg@),
{
    let pieces = text::pieces_of(arg, '/');
    let ghost all = text::texts(pieces@);
    for i in 0..pieces.len()
        invariant
            all == text::texts(pieces@),
            all == text::pieces(arg@, '/'),
            forall|j: int| 0 <= j < i ==> all[j] != ".."@,
    {
        assert(all[i as int] == pieces@[i as int]@);
        if text::same_text(pieces[i].as_str(), "..") {
            assert(all.contains(".."@));
            return true;
        }
    }
    false
}

fn unsupported_option(command: MetadataCommand, arg: &str) -> (found: bool)
    ensures
        found == is_unsupported(command, arg@),
{
    match command {
        MetadataCommand::Chmod => text::starts_with_text(arg, "--reference"),
        MetadataCommand::Chown => text::starts_with_text(arg, "--reference")
            || text::starts_with_text(arg, "--from"),
        _ => false,
    }
}

fn unsupported_error(command: MetadataCommand) -> (error: Error)
    ensures
        error.says(unsupported_text(command)),
{
    match command {
        MetadataCommand::Chown => Error::msg(
            "chown --reference/--from is not supported by sandboxfs path rewriting".to_owned(),
        ),
        _ => Error::msg(
            "chmod --reference is not supported by sandboxfs path rewriting".to_owned(),
        ),
    }
}

fn too_few_error(command: MetadataCommand) -> (error: Error)
    ensures
        error.says(too_few_text(command)),
{
    match command {
        MetadataCommand::Chown => Error::msg("chown requires owner and path".to_owned()),
        MetadataCommand::Chattr => Error::msg("chattr requires flags and path".to_owned()),
        _ => Error::msg("chmod requires mode and path".to_owned()),
    }
}

/// Checks that a path does not go up.
pub fn reject_parent_dir_operand(item: &str) -> (result: Result<(), Error>)
    ensures
        match result {
            Ok(_) => !goes_up(item@),
            Err(error) => goes_up(item@) && error.says(
                "metadata command paths containing '..' are not supported by sandboxfs path rewriting"@,
            ),
        },
{
    if path_goes_up(item) {
        return Err(
            Error::msg(
                "metadata command paths containing '..' are not supported by sandboxfs path rewriting".to_owned(),
            ),
        );
    }
    Ok(())
}

fn rewrite_args(command: MetadataCommand, args: &Vec<String>) -> (result: Result<
    RewrittenCommand,
    Error,
>)
    ensures
        rewrites(command, text::texts(args@), result),
{
    let ghost all = text::texts(args@);
    if command != MetadataCommand::Other && args.len() < 2 {
        return Err(too_few_error(command));
    }
    let recursive = recursive_command(command, args);
    let mut out: Vec<String> = Vec::new();
    let mut paths: Vec<TrustedPathScope> = Vec::new();
    let mut value = false;
    let mut flags = false;
    for i in 0..args.len()
        invariant
            all == text::texts(args@),
            command != MetadataCommand::Other ==> args.len() >= 2,
            value == value_seen(all, i as int),
            flags == flags_seen(all, i as int),
            recursive == is_recursive(command, all),
            forall|j: int| 0 <= j < i ==> (#[trigger] fault(command, all, j)) is None,
            text::texts(out@) == rewritten_args(command, all).take(i as int),
            are_scopes_of(paths@, named_paths(command, all, i as nat), recursive),
    {
        let arg = args[i].as_str();
        assert(all[i as int] == args@[i as int]@);
        let separator = text::same_text(arg, "--");
        if unsupported_option(command, arg) {
            assert(first_fault(command, all, i as int));
            return Err(unsupported_error(command));
        }
        let operand = match command {
            MetadataCommand::Chmod => !separator && value,
            MetadataCommand::Chown => !separator && value,
            MetadataCommand::Chattr => !separator && !text::starts_with_char(arg, '+')
                && !text::starts_with_char(arg, '-') && !text::starts_with_char(arg, '=') && flags,
            MetadataCommand::Other => true,
        };
        assert(operand == names_path(command, all, i as int));
        let ghost before = paths@;
        let shown = if operand {
            match reject_parent_dir_operand(arg) {
                Ok(_) => {},
                Err(error) => {
                    assert(first_fault(command, all, i as int));
                    return Err(error);
                },
            }
            match SandboxPath::new(arg) {
                Ok(path) => paths.push(TrustedPathScope { path, recursive }),
                Err(error) => {
                    return Err(error);
                },
            }
            path::rewrite_sandbox_path_arg(arg)
        } else {
            arg.to_owned()
        };
        proof {
            let named = named_paths(command, all, i as nat);
            let grown = named_paths(command, all, (i + 1) as nat);
            assert(grown == if operand {
                named.push(path::components(all[i as int]))
            } else {
                named
            });
            text::lemma_texts_push(out@, shown);
            let target = rewritten_args(command, all);
            assert(target.take(i + 1) =~= target.take(i as int).push(target[i as int]));
            lemma_seen_step(all, i as int);
        }
        out.push(shown);
        if !separator {
            flags = true;
            if !text::starts_with_char(arg, '-') {
                value = true;
            }
        }
    }
    proof {
        let target = rewritten_args(command, all);
        assert(target.take(args.len() as int) =~= target);
    }
    Ok(RewrittenCommand { args: out, paths })
}

proof fn lemma_seen_step(args: Seq<Seq<char>>, i: int)
    requires
        0 <= i < args.len(),
    ensures
        value_seen(args, i + 1) == (value_seen(args, i) || (!is_separator(args[i]) && !begins(
            args[i],
            '-',
        ))),
        flags_seen(args, i + 1) == (flags_seen(args, i) || !is_separator(args[i])),
{
    if value_seen(args, i) {
        let j = choose|j: int|
            0 <= j < i && !is_separator(#[trigger] args[j]) && !begins(args[j], '-');
        assert(!is_separator(args[j]));
    }
    if flags_seen(args, i) {
        let j = choose|j: int| 0 <= j < i && !is_separator(#[trigger] args[j]);
        assert(!is_separator(args[j]));
    }
    if !is_separator(args[i]) {
        assert(flags_seen(args, i + 1));
    }
}

/// The arguments of `chmod`, rewritten.
pub fn rewrite_chmod_args(args: &Vec<String>) -> (result: Result<RewrittenCommand, Error>)
    ensures
        rewrites(MetadataCommand::Chmod, text::texts(args@), result),
{
    rewrite_args(MetadataCommand::Chmod, args)
}

/// The arguments of `chown`, rewritten.
pub fn rewrite_chown_args(args: &Vec<String>) -> (result: Result<RewrittenCommand, Error>)
    ensures
        rewrites(MetadataCommand::Chown, text::texts(args@), result),
{
    rewrite_args(MetadataCommand::Chown, args)
}

/// The arguments of `chattr`, rewritten.
pub fn rewrite_chattr_args(args: &Vec<String>) -> (result: Result<RewrittenCommand, Error>)
    ensures
        rewrites(MetadataCommand::Chattr, text::texts(args@), result),
{
    rewrite_args(MetadataCommand::Chattr, args)
}

/// The arguments of a command whose arguments are all paths, rewritten.
pub fn rewrite_all_args(args: &Vec<String>) -> (result: Result<RewrittenCommand, Error>)
    ensures
        rewrites(MetadataCommand::Other, text::texts(args@), result),
{
    rewrite_args(MetadataCommand::Other, args)
}

/// The arguments of a command, rewritten.
pub fn rewrite_command_path_args(command: &str, args: &Vec<String>) -> (result: Result<
    RewrittenCommand,
    Error,
>)
    ensures
        rewrites(MetadataCommand::named(command@), text::texts(args@), result),
{
    match MetadataCommand::from_name(command) {
        MetadataCommand::Chmod => rewrite_chmod_args(args),
        MetadataCommand::Chown => rewrite_chown_args(args),
        MetadataCommand::Chattr => rewrite_chattr_args(args),
        MetadataCommand::Other => rewrite_all_args(args),
    }
}

/// No argument of a rewritten command that names a path is absolute, and below
/// the mountpoint each names the sandbox path that it named before.
pub proof fn lemma_rewritten_paths_stay(command: MetadataCommand, args: Seq<Seq<char>>, i: int)
    requires
        0 <= i < args.len(),
        names_path(command, args, i),
    ensures
        !path::is_absolute(rewritten_args(command, args)[i]),
        path::components(rewritten_args(command, args)[i]) == path::components(args[i]),
{
    path::lemma_rewritten_names_same_path(args[i]);
}

} // verus!
