//! Which paths patterns select.

use vstd::prelude::*;

use crate::path;
use crate::policy;
use crate::policy::PatternView;
use crate::policy::PolicyPattern;
use crate::policy::ProtectionKind;
use crate::table;

verus! {

/// A pattern for directories only selects what the pattern without that would,
/// as long as it is a directory and not the root. For any other pattern it does
/// not count whether there is a directory.
pub proof fn lemma_directory_patterns(pattern: PatternView, at: Seq<char>, is_dir: bool)
    ensures
        ({
            let plain = PatternView { text: pattern.text, directory_only: false };
            &&& !pattern.directory_only ==> policy::selects(pattern, at, true) == policy::selects(
                pattern,
                at,
                false,
            )
            &&& pattern.directory_only ==> !policy::selects(pattern, at, false)
            &&& pattern.directory_only ==> !policy::selects(pattern, seq!['/'], is_dir)
            &&& at != seq!['/'] ==> policy::selects(pattern, at, true) == policy::selects(
                plain,
                at,
                true,
            )
        }),
{
}

/// A separator at the end of a pattern does not count for the text that the
/// pattern matches; the root matches as it is.
pub proof fn lemma_end_separator_is_cut(s: Seq<char>, at: Seq<char>, is_dir: bool, only: bool)
    requires
        s.len() > 0,
        s.last() != '/',
    ensures
        policy::glob_text(s) == s,
        policy::glob_text(s.push('/')) == s,
        policy::glob_text(s.push('/').push('/')) == s,
        policy::glob_text(seq!['/']) == seq!['/'],
        policy::selects(PatternView { text: s.push('/'), directory_only: only }, at, is_dir)
            == policy::selects(PatternView { text: s, directory_only: only }, at, is_dir),
        policy::ends_as_directory(s.push('/')),
        !policy::ends_as_directory(s),
        !policy::ends_as_directory(seq!['/']),
{
    let once = s.push('/');
    let twice = once.push('/');
    assert(once.drop_last() =~= s);
    assert(twice.drop_last() =~= once);
    assert(once.len() > 1 && twice.len() > 1);
    assert(policy::without_end_separators(s) == s);
    assert(policy::without_end_separators(once) == s);
    assert(policy::without_end_separators(twice) == s);
}

/// The text of a path reads as the pattern with that text, and with a separator
/// behind it as the pattern for directories with that text.
pub proof fn lemma_path_texts_are_patterns(names: Seq<Seq<char>>)
    requires
        path::all_normal(names),
        names.len() > 0,
    ensures
        policy::normalized_pattern(path::absolute(names)) == path::absolute(names),
        policy::normalized_pattern(path::absolute(names).push('/')) == path::absolute(names).push(
            '/',
        ),
        policy::normalized_pattern(seq!['/']) == seq!['/'],
        !policy::ends_as_directory(path::absolute(names)),
        policy::ends_as_directory(path::absolute(names).push('/')),
{
    let text = path::absolute(names);
    lemma_last_is_no_separator(names);
    path::lemma_absolute_components(names);
    crate::laws::writing::lemma_paths_step_by_step(text, names[0]);
    crate::laws::writing::lemma_absolute_name_by_name(names, names[0]);
    assert(text.push('/').len() > 1);
    assert(text.len() > 1);
}

proof fn lemma_last_is_no_separator(names: Seq<Seq<char>>)
    requires
        path::all_normal(names),
        names.len() > 0,
    ensures
        path::absolute(names).len() > 1,
        path::absolute(names).last() != '/',
{
    let last = names.last();
    let front = names.drop_last();
    assert(path::normal(names[names.len() - 1]));
    assert(last.contains(last[last.len() - 1]));
    assert(front.push(last) =~= names);
    crate::laws::writing::lemma_absolute_name_by_name(front, last);
    if front.len() == 0 {
        assert(names =~= seq![last]);
    }
}

/// A pattern that the user writes is for directories only when it ends with a
/// separator, and keeps the path that it writes. None is empty or holds a NUL.
pub proof fn lemma_written_patterns(
    names: Seq<Seq<char>>,
    written: Seq<char>,
    read: PolicyPattern,
)
    requires
        path::all_normal(names),
        names.len() > 0,
    ensures
        policy::reads_pattern(path::absolute(names), Ok(read)) ==> read@.text == path::absolute(
            names,
        ) && !read@.directory_only,
        policy::reads_pattern(path::absolute(names).push('/'), Ok(read)) ==> read@.text
            == path::absolute(names).push('/') && read@.directory_only,
        written.len() == 0 || written.contains('\0') ==> !policy::reads_pattern(written, Ok(read)),
{
    lemma_path_texts_are_patterns(names);
}

/// What the plain patterns match: a literal one matches its own text alone, one
/// that ends with `/*` what lies directly below, and one that ends with `/**`
/// whatever lies below.
pub proof fn lemma_plain_patterns(dir: Seq<char>, rest: Seq<char>, other: Seq<char>)
    requires
        !dir.contains('*'),
        !dir.contains('?'),
        !dir.contains('['),
    ensures
        policy::plain_match(dir, dir) == Some(true),
        other != dir ==> policy::plain_match(dir, other) == Some(false),
        policy::plain_match(dir.push('/').push('*'), dir.push('/') + rest) == Some(
            !rest.contains('/'),
        ),
        !dir.push('/').is_prefix_of(other) ==> policy::plain_match(
            dir.push('/').push('*'),
            other,
        ) == Some(false),
        policy::plain_match(dir.push('/').push('*').push('*'), dir.push('/') + rest) == Some(true),
        policy::plain_match(dir.push('/').push('*').push('*'), dir) == Some(false),
        !dir.push('/').is_prefix_of(other) ==> policy::plain_match(
            dir.push('/').push('*').push('*'),
            other,
        ) == Some(false),
{
    let base = dir.push('/');
    let one = base.push('*');
    let all = one.push('*');
    crate::table::lemma_push_contains(dir, '/');
    crate::table::lemma_push_contains(base, '*');
    crate::table::lemma_push_contains(one, '*');
    assert(one.drop_last() =~= base);
    assert(one.take(one.len() - 1) =~= base);
    assert(all.take(all.len() - 2) =~= base);
    assert(all.drop_last() =~= one);
    assert(one.contains('*'));
    assert(base.is_prefix_of(base + rest));
    assert((base + rest).skip(base.len() as int) =~= rest);
    assert(!base.is_prefix_of(dir));
    assert(policy::is_literal(base));
    assert(!policy::is_literal(one) && policy::is_one_level(one));
    assert(!policy::is_literal(all) && !policy::is_one_level(all) && policy::is_subtree(all));
}

/// Rules with the same pattern are listed by kind: reads, writes, metadata,
/// extended attributes.
pub proof fn lemma_rules_by_kind(pattern: PatternView, a: ProtectionKind, b: ProtectionKind)
    requires
        a != b,
    ensures
        table::before(policy::rule_code((pattern, a)), policy::rule_code((pattern, b))) <==> {
            ||| a is Read
            ||| a is Write && !(b is Read)
            ||| a is Metadata && b is Xattr
        },
{
    let place: int = if pattern.directory_only {
        1
    } else {
        0
    };
    let common = table::text_code(pattern.text) + seq![0, place];
    let none = Seq::<int>::empty();
    crate::laws::writing::lemma_order_by_first_difference(
        common,
        a.rank(),
        b.rank(),
        none,
        none,
    );
    assert(policy::rule_code((pattern, a)) =~= common + seq![a.rank()] + none);
    assert(policy::rule_code((pattern, b)) =~= common + seq![b.rank()] + none);
}

/// A pattern is read as a path from the root, however it is written, and keeps a
/// separator at its end.
pub proof fn lemma_patterns_are_from_the_root(written: Seq<char>)
    ensures
        ({
            let read = policy::normalized_pattern(written);
            &&& read.len() > 0
            &&& read[0] == '/'
            &&& path::components(read) == path::components(written)
            &&& policy::ends_as_directory(read) <==> path::components(written).len() > 0
                && written.last() == '/'
        }),
{
    let names = path::components(written);
    let raw = path::absolute(names);
    path::lemma_components_normal(written);
    path::lemma_absolute_components(names);
    crate::laws::writing::lemma_paths_step_by_step(raw, raw);
    crate::laws::writing::lemma_absolute_name_by_name(names, raw);
    if names.len() > 0 {
        lemma_last_is_no_separator(names);
        assert(raw != seq!['/']);
        assert(raw.push('/').len() > 1);
        if written.len() == 0 {
            crate::laws::writing::lemma_paths_step_by_step(written, raw);
            assert(written =~= Seq::<char>::empty());
        }
        if written == seq!['/'] {
            assert(names.len() == 0);
        }
    } else {
        assert(names =~= Seq::<Seq<char>>::empty());
        assert(raw == seq!['/']);
    }
}

} // verus!
