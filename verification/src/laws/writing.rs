//! How numbers, paths and durations are written and read.

use vstd::prelude::*;

use crate::cli;
use crate::host;
use crate::path;
use crate::table;
use crate::text;

verus! {

/// The digits of a number end with that of its remainder, and begin with those
/// of its quotient. They are `0` to `9` and then letters from `a` on, and no
/// number but zero begins with `0`.
pub proof fn lemma_digits_by_division(n: nat, base: nat)
    requires
        2 <= base <= 16,
    ensures
        text::digits(n, base).len() >= 1,
        n % base < 10 ==> text::digits(n, base).last() as int == 48 + n % base,
        n % base >= 10 ==> text::digits(n, base).last() as int == 87 + n % base,
        n >= base ==> text::digits(n, base).drop_last() == text::digits(n / base, base),
        n < base ==> text::digits(n, base).len() == 1,
        n > 0 ==> text::digits(n, base)[0] != '0',
    decreases n,
{
    assert(n < base ==> n % base == n) by (nonlinear_arith)
        requires
            base >= 2,
    ;
    assert(0 <= n % base < base) by (nonlinear_arith)
        requires
            base >= 2,
    ;
    if n >= base {
        assert(0 < n / base < n) by (nonlinear_arith)
            requires
                n >= base,
                base >= 2,
        ;
        lemma_digits_by_division(n / base, base);
        assert(text::digits(n, base).drop_last() =~= text::digits(n / base, base));
        assert(text::digits(n, base)[0] == text::digits(n / base, base)[0]);
    }
}

/// Decimal, octal and hexadecimal texts are the digits to the base of ten, eight
/// and sixteen.
pub proof fn lemma_bases(n: nat)
    ensures
        text::decimal(n).last() as int == 48 + n % 10,
        text::octal(n).last() as int == 48 + n % 8,
        n % 16 < 10 ==> text::hexadecimal(n).last() as int == 48 + n % 16,
        n % 16 >= 10 ==> text::hexadecimal(n).last() as int == 87 + n % 16,
        n >= 10 ==> text::decimal(n).drop_last() == text::decimal(n / 10),
        n >= 8 ==> text::octal(n).drop_last() == text::octal(n / 8),
        n >= 16 ==> text::hexadecimal(n).drop_last() == text::hexadecimal(n / 16),
        n < 10 ==> text::decimal(n).len() == 1,
        n < 8 ==> text::octal(n).len() == 1,
        n < 16 ==> text::hexadecimal(n).len() == 1,
{
    lemma_digits_by_division(n, 10);
    lemma_digits_by_division(n, 8);
    lemma_digits_by_division(n, 16);
}

/// A number is read from its decimal digits as it was written.
pub proof fn lemma_decimal_is_read_back(n: nat)
    ensures
        cli::number_value(text::decimal(n)) == Some(n),
    decreases n,
{
    lemma_digits_by_division(n, 10);
    if n >= 10 {
        lemma_decimal_is_read_back(n / 10);
        assert(text::decimal(n).len() > 1) by {
            lemma_digits_by_division(n / 10, 10);
        }
    }
}

/// Only digits write a number, and no text is none.
pub proof fn lemma_only_digits_write_a_number(s: Seq<char>)
    ensures
        cli::number_value(s) is Some <==> s.len() > 0 && forall|i: int|
            0 <= i < s.len() ==> '0' <= #[trigger] s[i] && s[i] <= '9',
        s.len() > 1 && cli::number_value(s) is Some ==> cli::number_value(s)->0
            == cli::number_value(s.drop_last())->0 * 10 + (s.last() as int - 48),
    decreases s.len(),
{
    if s.len() > 1 {
        let front = s.drop_last();
        lemma_only_digits_write_a_number(front);
        assert forall|i: int| 0 <= i < front.len() implies front[i] == s[i] by {}
        assert(s[s.len() - 1] == s.last());
        if forall|i: int| 0 <= i < s.len() ==> '0' <= #[trigger] s[i] && s[i] <= '9' {
            assert forall|i: int| 0 <= i < front.len() implies '0' <= #[trigger] front[i]
                && front[i] <= '9' by {
                assert(front[i] == s[i]);
            }
        }
        if cli::number_value(s) is Some {
            assert forall|i: int| 0 <= i < s.len() implies '0' <= #[trigger] s[i] && s[i]
                <= '9' by {
                if i < front.len() {
                    assert(front[i] == s[i]);
                }
            }
        }
    }
}

/// A duration is a number of seconds, minutes or hours, with the unit behind the
/// number, and nothing else.
pub proof fn lemma_durations(n: nat, s: Seq<char>, unit: char)
    ensures
        cli::duration_value(text::decimal(n).push('s')) == Some(n),
        cli::duration_value(text::decimal(n).push('m')) == Some(n * 60),
        cli::duration_value(text::decimal(n).push('h')) == Some(n * 3600),
        unit != 's' && unit != 'm' && unit != 'h' ==> cli::duration_value(s.push(unit)) is None,
        cli::number_value(s) is None ==> cli::duration_value(s.push(unit)) is None,
        cli::duration_value(Seq::empty()) is None,
{
    lemma_decimal_is_read_back(n);
    assert(text::decimal(n).push('s').drop_last() =~= text::decimal(n));
    assert(text::decimal(n).push('m').drop_last() =~= text::decimal(n));
    assert(text::decimal(n).push('h').drop_last() =~= text::decimal(n));
    assert(s.push(unit).drop_last() =~= s);
}

/// Padding puts zeros in front until the width is reached, and keeps the text.
pub proof fn lemma_padding(s: Seq<char>, width: nat, i: int)
    ensures
        ({
            let shown = text::zero_padded(s, width);
            &&& shown.len() == if s.len() < width {
                width
            } else {
                s.len()
            }
            &&& shown.skip(shown.len() - s.len()) == s
            &&& 0 <= i < shown.len() - s.len() ==> shown[i] == '0'
        }),
{
    let shown = text::zero_padded(s, width);
    assert(shown.skip(shown.len() - s.len()) =~= s);
}

/// Joining one part more adds the separator and the part.
pub proof fn lemma_joining_one_more(parts: Seq<Seq<char>>, part: Seq<char>, separator: Seq<char>)
    ensures
        text::joined(Seq::empty(), separator) == Seq::<char>::empty(),
        text::joined(seq![part], separator) == part,
        parts.len() > 0 ==> text::joined(parts.push(part), separator) == text::joined(
            parts,
            separator,
        ) + separator + part,
{
    assert(parts.push(part).drop_last() =~= parts);
}

/// Cutting a text at a separator and joining the pieces with it gives the text
/// back, and cutting joined parts that do not hold it gives the parts back.
pub proof fn lemma_cutting_and_joining(s: Seq<char>, parts: Seq<Seq<char>>, separator: char)
    ensures
        text::joined(text::pieces(s, separator), seq![separator]) == s,
        parts.len() > 0 && (forall|i: int|
            0 <= i < parts.len() ==> !(#[trigger] parts[i]).contains(separator)) ==> text::pieces(
            text::joined(parts, seq![separator]),
            separator,
        ) == parts,
{
    lemma_joined_pieces(s, separator);
    if parts.len() > 0 && forall|i: int|
        0 <= i < parts.len() ==> !(#[trigger] parts[i]).contains(separator) {
        lemma_pieces_of_joined(parts, separator);
    }
}

proof fn lemma_joined_pieces(s: Seq<char>, separator: char)
    ensures
        text::joined(text::pieces(s, separator), seq![separator]) == s,
    decreases s.len(),
{
    let all = text::pieces(s, separator);
    let mark = seq![separator];
    if s.len() > 0 {
        let before = text::pieces(s.drop_last(), separator);
        lemma_joined_pieces(s.drop_last(), separator);
        text::lemma_some_piece(s.drop_last(), separator);
        assert(s.drop_last().push(s.last()) =~= s);
        if s.last() == separator {
            assert(all.drop_last() =~= before);
            assert(s.drop_last() + mark + Seq::<char>::empty() =~= s);
        } else {
            let front = before.drop_last();
            let last = before.last();
            assert(all.drop_last() =~= front);
            assert(all.last() == last.push(s.last()));
            if before.len() > 1 {
                assert(text::joined(before, mark) == text::joined(front, mark) + mark + last);
                assert(text::joined(all, mark) == text::joined(front, mark) + mark + last.push(
                    s.last(),
                ));
                assert((text::joined(front, mark) + mark + last).push(s.last()) =~= text::joined(
                    front,
                    mark,
                ) + mark + last.push(s.last()));
            } else {
                assert(before[0] == last);
                assert(all[0] == last.push(s.last()));
            }
        }
    } else {
        assert(s =~= Seq::<char>::empty());
    }
}

proof fn lemma_pieces_of_joined(parts: Seq<Seq<char>>, separator: char)
    requires
        parts.len() > 0,
        forall|i: int| 0 <= i < parts.len() ==> !(#[trigger] parts[i]).contains(separator),
    ensures
        text::pieces(text::joined(parts, seq![separator]), separator) == parts,
    decreases parts.len(),
{
    assert(!parts[parts.len() - 1].contains(separator));
    path::lemma_pieces_whole(parts.last(), separator);
    if parts.len() > 1 {
        let front = parts.drop_last();
        assert forall|i: int| 0 <= i < front.len() implies !(#[trigger] front[i]).contains(
            separator,
        ) by {
            assert(front[i] == parts[i]);
        }
        lemma_pieces_of_joined(front, separator);
        path::lemma_pieces_split(
            text::joined(front, seq![separator]),
            parts.last(),
            separator,
        );
    }
    assert(text::pieces(text::joined(parts, seq![separator]), separator) =~= parts);
}

/// How a path goes on behind a separator: a name leads down, `..` leads up but
/// not above the root, and `.` or nothing leads nowhere.
pub proof fn lemma_paths_step_by_step(s: Seq<char>, name: Seq<char>)
    ensures
        path::components(Seq::empty()) == Seq::<Seq<char>>::empty(),
        path::components(seq!['/']) == Seq::<Seq<char>>::empty(),
        path::normal(name) ==> path::components(s.push('/') + name) == path::components(s).push(
            name,
        ),
        path::components(s.push('/')) == path::components(s),
        path::components(s.push('/').push('.')) == path::components(s),
        path::components(s).len() > 0 ==> path::components(s.push('/').push('.').push('.'))
            == path::components(s).drop_last(),
        path::components(s).len() == 0 ==> path::components(s.push('/').push('.').push('.'))
            == path::components(s),
        path::components(seq!['/'] + s) == path::components(s),
{
    let none = Seq::<char>::empty();
    let up = seq!['.', '.'];
    assert(!up.contains('/'));
    assert(!seq!['.'].contains('/'));
    path::lemma_pieces_whole(none, '/');
    path::lemma_pieces_whole(seq!['.'], '/');
    path::lemma_pieces_whole(up, '/');
    lemma_one_step(Seq::empty(), none);
    lemma_one_step(path::components(s), none);
    lemma_one_step(path::components(s), seq!['.']);
    lemma_one_step(path::components(s), up);
    assert(s.push('/') =~= s + seq!['/'] + none);
    assert(s.push('/').push('.') =~= s + seq!['/'] + seq!['.']);
    assert(s.push('/').push('.').push('.') =~= s + seq!['/'] + up);
    path::lemma_pieces_split(s, none, '/');
    path::lemma_pieces_split(s, seq!['.'], '/');
    path::lemma_pieces_split(s, up, '/');
    path::lemma_followed_concat(Seq::empty(), text::pieces(s, '/'), seq![none]);
    path::lemma_followed_concat(Seq::empty(), text::pieces(s, '/'), seq![seq!['.']]);
    path::lemma_followed_concat(Seq::empty(), text::pieces(s, '/'), seq![up]);
    assert(seq!['/'] =~= none + seq!['/'] + none);
    path::lemma_pieces_split(none, none, '/');
    path::lemma_followed_concat(Seq::empty(), seq![none], seq![none]);
    assert(seq!['/'] + s =~= none + seq!['/'] + s);
    path::lemma_pieces_split(none, s, '/');
    path::lemma_followed_concat(Seq::empty(), seq![none], text::pieces(s, '/'));
    if path::normal(name) {
        path::lemma_pieces_whole(name, '/');
        lemma_one_step(path::components(s), name);
        assert(s.push('/') + name =~= s + seq!['/'] + name);
        path::lemma_pieces_split(s, name, '/');
        path::lemma_followed_concat(Seq::empty(), text::pieces(s, '/'), seq![name]);
    }
}

proof fn lemma_one_step(base: Seq<Seq<char>>, name: Seq<char>)
    ensures
        path::followed(base, seq![name]) == path::step(base, name),
{
    assert(seq![name].drop_last() =~= Seq::<Seq<char>>::empty());
    reveal_with_fuel(path::followed, 2);
}

/// The text of a path is its names with a separator in front of each, and a
/// separator alone for the root.
pub proof fn lemma_absolute_name_by_name(names: Seq<Seq<char>>, name: Seq<char>)
    ensures
        path::absolute(Seq::empty()) == seq!['/'],
        path::absolute(seq![name]) == seq!['/'] + name,
        names.len() > 0 ==> path::absolute(names.push(name)) == path::absolute(names).push('/')
            + name,
{
    lemma_joining_one_more(names, name, seq!['/']);
    assert(seq!['/'] + Seq::<char>::empty() =~= seq!['/']);
    if names.len() > 0 {
        assert(path::absolute(names.push(name)) =~= path::absolute(names).push('/') + name);
    }
}

/// An argument that is relative already stays as it is when it is rewritten, and
/// an absolute one keeps everything behind a dot in front.
pub proof fn lemma_rewriting_keeps_the_rest(arg: Seq<char>)
    ensures
        arg.len() == 0 || arg[0] != '/' ==> path::rewritten(arg) == arg,
        arg.len() > 1 && arg[0] == '/' ==> path::rewritten(arg) == seq!['.'] + arg,
        arg == seq!['/'] ==> path::rewritten(arg) == seq!['.'],
{
}

proof fn lemma_kept_concat(a: Seq<Seq<char>>, b: Seq<Seq<char>>)
    ensures
        host::kept(a + b) == host::kept(a) + host::kept(b),
    decreases b.len(),
{
    if b.len() == 0 {
        assert(a + b =~= a);
        assert(host::kept(a) + host::kept(b) =~= host::kept(a));
    } else {
        assert((a + b).drop_last() =~= a + b.drop_last());
        lemma_kept_concat(a, b.drop_last());
        assert(host::kept(a + b) =~= host::kept(a) + host::kept(b));
    }
}

proof fn lemma_kept_one(name: Seq<char>)
    ensures
        host::kept(seq![name]) == if name.len() == 0 || name == seq!['.'] {
            Seq::<Seq<char>>::empty()
        } else {
            seq![name]
        },
{
    assert(seq![name].drop_last() =~= Seq::<Seq<char>>::empty());
    assert(host::kept(Seq::<Seq<char>>::empty()) =~= Seq::<Seq<char>>::empty());
    assert(Seq::<Seq<char>>::empty().push(name) =~= seq![name]);
}

/// How a host path goes on behind a separator: every name counts, `..` too, and
/// only `.` and nothing do not.
pub proof fn lemma_host_paths_step_by_step(s: Seq<char>, name: Seq<char>)
    requires
        s.len() > 0,
        !name.contains('/'),
    ensures
        host::parts(s.push('/')) == host::parts(s),
        host::parts(s.push('/').push('.')) == host::parts(s),
        name.len() > 0 && name != seq!['.'] ==> host::parts(s.push('/') + name) == host::parts(
            s,
        ).push(name),
        host::parts(seq!['/']) == seq![seq!['/']],
        host::parts(s)[0] == seq!['/'] <==> s[0] == '/',
{
    let none = Seq::<char>::empty();
    path::lemma_pieces_whole(none, '/');
    path::lemma_pieces_whole(name, '/');
    assert(!seq!['.'].contains('/'));
    path::lemma_pieces_whole(seq!['.'], '/');
    lemma_same_beginning(s, none);
    lemma_same_beginning(s, seq!['.']);
    lemma_same_beginning(s, name);
    lemma_kept_one(none);
    lemma_kept_one(seq!['.']);
    lemma_kept_one(name);
    lemma_kept_concat(text::pieces(s, '/'), seq![none]);
    lemma_kept_concat(text::pieces(s, '/'), seq![seq!['.']]);
    lemma_kept_concat(text::pieces(s, '/'), seq![name]);
    path::lemma_pieces_split(s, none, '/');
    path::lemma_pieces_split(s, seq!['.'], '/');
    path::lemma_pieces_split(s, name, '/');
    assert(s.push('/') =~= s + seq!['/'] + none);
    assert(s.push('/').push('.') =~= s + seq!['/'] + seq!['.']);
    assert(s.push('/') + name =~= s + seq!['/'] + name);
    assert(host::parts(s.push('/')) =~= host::parts(s));
    assert(host::parts(s.push('/').push('.')) =~= host::parts(s));
    if name.len() > 0 && name != seq!['.'] {
        assert(host::parts(s.push('/') + name) =~= host::parts(s).push(name));
    }
    assert(seq!['/'] =~= none + seq!['/'] + none);
    path::lemma_pieces_split(none, none, '/');
    lemma_kept_concat(seq![none], seq![none]);
    assert(host::parts(seq!['/']) =~= seq![seq!['/']]);
    path::lemma_pieces(s, '/');
    lemma_kept_members(text::pieces(s, '/'));
    if s[0] != '/' && host::parts(s).len() > 0 {
        let kept = host::kept(text::pieces(s, '/'));
        if host::beginning(s).len() == 0 {
            assert(host::parts(s)[0] == kept[0]);
            assert(text::pieces(s, '/').contains(kept[0]));
            let k = choose|k: int|
                0 <= k < text::pieces(s, '/').len() && text::pieces(s, '/')[k] == kept[0];
            assert(!text::pieces(s, '/')[k].contains('/'));
            assert(seq!['/'][0] == '/');
            assert(seq!['/'].contains('/'));
        }
    }
    if s[0] != '/' && host::parts(s).len() == 0 {
        lemma_some_part(s);
    }
}

proof fn lemma_kept_members(names: Seq<Seq<char>>)
    ensures
        forall|i: int| 0 <= i < host::kept(names).len() ==> names.contains(
            #[trigger] host::kept(names)[i],
        ),
    decreases names.len(),
{
    if names.len() > 0 {
        let front = names.drop_last();
        lemma_kept_members(front);
        let kept = host::kept(names);
        assert forall|i: int| 0 <= i < kept.len() implies names.contains(#[trigger] kept[i]) by {
            if i < host::kept(front).len() {
                assert(kept[i] == host::kept(front)[i]);
                assert(front.contains(kept[i]));
                let k = choose|k: int| 0 <= k < front.len() && front[k] == kept[i];
                assert(names[k] == kept[i]);
            } else {
                assert(names[names.len() - 1] == kept[i]);
            }
        }
    }
}

proof fn lemma_some_part(s: Seq<char>)
    requires
        s.len() > 0,
        s[0] != '/',
    ensures
        host::parts(s).len() > 0,
{
    let all = text::pieces(s, '/');
    lemma_first_piece(s);
    let first = all[0];
    let rest = all.skip(1);
    assert(all =~= seq![first] + rest);
    lemma_kept_concat(seq![first], rest);
    lemma_kept_one(first);
}

proof fn lemma_first_piece(s: Seq<char>)
    requires
        s.len() > 0,
        s[0] != '/',
    ensures
        text::pieces(s, '/').len() > 0,
        text::pieces(s, '/')[0].len() > 0,
    decreases s.len(),
{
    text::lemma_some_piece(s, '/');
    if s.len() == 1 {
        assert(s =~= seq![s[0]]);
        path::lemma_pieces_whole(s, '/');
    } else {
        lemma_first_piece(s.drop_last());
        let before = text::pieces(s.drop_last(), '/');
        if s.last() == '/' || before.len() > 1 {
            assert(text::pieces(s, '/')[0] == before[0]);
        } else {
            assert(text::pieces(s, '/')[0] == before[0].push(s.last()));
        }
    }
}

proof fn lemma_same_beginning(s: Seq<char>, rest: Seq<char>)
    requires
        s.len() > 0,
    ensures
        host::beginning(s + seq!['/'] + rest) == host::beginning(s),
{
    let whole = s + seq!['/'] + rest;
    path::lemma_pieces_split(s, rest, '/');
    path::lemma_pieces(s, '/');
    assert(whole[0] == s[0]);
    assert(text::pieces(whole, '/')[0] == text::pieces(s, '/')[0]);
}

/// A path below another begins with it: a rest that is not from the root is put
/// behind it, with one separator between them, and one from the root stands for
/// itself.
pub proof fn lemma_joining_host_paths(base: Seq<char>, rest: Seq<char>)
    ensures
        rest.len() > 0 && rest[0] == '/' ==> host::host_join(base, rest) == rest,
        (rest.len() == 0 || rest[0] != '/') && base.len() > 0 && base.last() != '/'
            ==> host::host_join(base, rest) == base.push('/') + rest,
        (rest.len() == 0 || rest[0] != '/') && base.len() > 0 && base.last() == '/'
            ==> host::host_join(base, rest) == base + rest,
        rest.len() > 0 && rest[0] != '/' ==> host::host_join(Seq::empty(), rest) == rest,
{
    assert(Seq::<char>::empty() + rest =~= rest);
}

proof fn lemma_line_ends(a: Seq<char>, b: Seq<char>)
    ensures
        cli::line_ends(a + b) == cli::line_ends(a) + cli::line_ends(b),
    decreases a.len(),
{
    if a.len() == 0 {
        assert(a + b =~= b);
    } else {
        assert((a + b).drop_first() =~= a.drop_first() + b);
        lemma_line_ends(a.drop_first(), b);
    }
}

proof fn lemma_one_line_end()
    ensures
        cli::line_ends(seq!['\n']) == 1,
{
    let rest = seq!['\n'].drop_first();
    assert(rest =~= Seq::<char>::empty());
    assert(cli::line_ends(rest) == 0);
}

/// The number of line ends of a text is that of its two halves together, and the
/// last lines of a text begin at just one place.
pub proof fn lemma_tail_begins_once(data: Seq<char>, lines: nat, a: int, b: int)
    requires
        cli::is_tail(data, lines, a),
        cli::is_tail(data, lines, b),
    ensures
        a == b,
        a > 0 ==> data[a - 1] == '\n',
        a == 0 ==> cli::line_ends(data) <= lines,
        a > 0 ==> cli::line_ends(data.skip(a)) == lines,
        cli::line_ends(data) == cli::line_ends(data.take(a)) + cli::line_ends(data.skip(a)),
        cli::line_ends(data.push('\n')) == cli::line_ends(data) + 1,
{
    lemma_tail_order(data, lines, a, b);
    lemma_tail_order(data, lines, b, a);
    assert(data =~= data.take(a) + data.skip(a));
    lemma_line_ends(data.take(a), data.skip(a));
    lemma_line_ends(data, seq!['\n']);
    assert(data + seq!['\n'] =~= data.push('\n'));
    lemma_one_line_end();
}

proof fn lemma_tail_order(data: Seq<char>, lines: nat, a: int, b: int)
    requires
        cli::is_tail(data, lines, a),
        cli::is_tail(data, lines, b),
    ensures
        b <= a,
{
    if a < b {
        let rest = data.skip(a);
        let middle = rest.take(b - a);
        assert(rest =~= middle + data.skip(b));
        lemma_line_ends(middle, data.skip(b));
        assert(middle.last() == '\n');
        assert(middle =~= middle.drop_last() + seq!['\n']);
        lemma_line_ends(middle.drop_last(), seq!['\n']);
        lemma_one_line_end();
        if a == 0 {
            assert(rest =~= data);
        }
    }
}

/// Lists are ordered by the first place where they differ, and what another
/// begins with comes before it. Texts are ordered by their characters like that.
pub proof fn lemma_order_by_first_difference(
    common: Seq<int>,
    x: int,
    y: int,
    a: Seq<int>,
    b: Seq<int>,
)
    ensures
        x != y ==> (table::before(common + seq![x] + a, common + seq![y] + b) <==> x < y),
        table::before(common, common + seq![x] + a),
        !table::before(common + seq![x] + a, common),
    decreases common.len(),
{
    let one = common + seq![x] + a;
    let two = common + seq![y] + b;
    if common.len() > 0 {
        let rest = common.drop_first();
        lemma_order_by_first_difference(rest, x, y, a, b);
        assert(one.drop_first() =~= rest + seq![x] + a);
        assert(two.drop_first() =~= rest + seq![y] + b);
        assert(one[0] == common[0] && two[0] == common[0]);
    } else {
        assert(one[0] == x && two[0] == y);
    }
}

/// Texts are ordered by their characters.
pub proof fn lemma_texts_by_character(common: Seq<char>, x: char, y: char, a: Seq<char>, b: Seq<char>)
    requires
        x != y,
    ensures
        table::before(
            table::text_code(common + seq![x] + a),
            table::text_code(common + seq![y] + b),
        ) <==> x < y,
{
    let p = table::text_code(common);
    lemma_order_by_first_difference(
        p,
        x as int + 1,
        y as int + 1,
        table::text_code(a),
        table::text_code(b),
    );
    assert(table::text_code(common + seq![x] + a) =~= p + seq![x as int + 1] + table::text_code(a));
    assert(table::text_code(common + seq![y] + b) =~= p + seq![y as int + 1] + table::text_code(b));
}

/// A name alone is a host path of one part, and with `./` in front of it the dot
/// counts as a part of its own.
pub proof fn lemma_dot_in_front_counts(name: Seq<char>)
    requires
        path::normal(name),
    ensures
        host::parts(name) == seq![name],
        host::parts(seq!['.']) == seq![seq!['.']],
        host::parts(seq!['.', '/'] + name) == seq![seq!['.'], name],
        host::parts(seq!['/'] + name) == seq![seq!['/'], name],
{
    let dot = seq!['.'];
    let none = Seq::<char>::empty();
    assert(!dot.contains('/'));
    assert(name.contains(name[0]));
    path::lemma_pieces_whole(dot, '/');
    path::lemma_pieces_whole(name, '/');
    lemma_kept_one(dot);
    lemma_kept_one(name);
    lemma_kept_one(none);
    assert(dot[0] == '.');
    assert(host::parts(dot) =~= seq![dot]);
    assert(host::parts(name) =~= seq![name]);
    lemma_host_paths_step_by_step(dot, name);
    assert(dot.push('/') + name =~= seq!['.', '/'] + name);
    assert(host::parts(dot).push(name) =~= seq![dot, name]);
    lemma_host_paths_step_by_step(seq!['/'], name);
    let rooted = seq!['/'] + name;
    path::lemma_pieces_whole(none, '/');
    assert(rooted =~= none + seq!['/'] + name);
    path::lemma_pieces_split(none, name, '/');
    lemma_kept_concat(seq![none], seq![name]);
    assert(rooted[0] == '/');
    assert(host::parts(rooted) =~= seq![seq!['/'], name]);
}

} // verus!
