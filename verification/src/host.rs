//! Paths outside the sandbox, as text.

use vstd::prelude::*;

use crate::table;
use crate::table::TableKey;
use crate::text;

verus! {

/// A path on the host.
#[derive(Debug)]
pub struct HostPath {
    pub text: String,
}

/// Whether the text is a path from the root.
pub open spec fn from_root(text: Seq<char>) -> bool {
    text.len() > 0 && text[0] == '/'
}

/// `rest` below `base`: a separator goes between them unless `base` is empty
/// or ends with one. A rest from the root stands for itself.
pub open spec fn host_join(base: Seq<char>, rest: Seq<char>) -> Seq<char> {
    if from_root(rest) {
        rest
    } else if base.len() == 0 || base.last() == '/' {
        base + rest
    } else {
        base.push('/') + rest
    }
}

/// The name leads nowhere.
pub open spec fn is_idle(name: Seq<char>) -> bool {
    name.len() == 0 || name == seq!['.']
}

/// The names without those that lead nowhere.
pub open spec fn kept(names: Seq<Seq<char>>) -> Seq<Seq<char>>
    decreases names.len(),
{
    if names.len() == 0 {
        Seq::empty()
    } else if is_idle(names.last()) {
        kept(names.drop_last())
    } else {
        kept(names.drop_last()).push(names.last())
    }
}

/// What a path begins with besides names: the root, or `.`.
pub open spec fn beginning(text: Seq<char>) -> Seq<Seq<char>> {
    if from_root(text) {
        seq![seq!['/']]
    } else if text::pieces(text, '/')[0] == seq!['.'] {
        seq![seq!['.']]
    } else {
        Seq::empty()
    }
}

/// The parts of a path. Two texts with the same parts are the same path:
/// repeated separators, separators at the end and `.` inside do not count.
pub open spec fn parts(text: Seq<char>) -> Seq<Seq<char>> {
    beginning(text) + kept(text::pieces(text, '/'))
}

/// The code that orders parts: the root comes first, then `.`, then `..`, then
/// names by code point.
pub open spec fn part_code(part: Seq<char>) -> Seq<int> {
    if part == seq!['/'] {
        seq![1]
    } else if part == seq!['.'] {
        seq![2]
    } else if part == seq!['.', '.'] {
        seq![3]
    } else {
        part.map_values(|c: char| c as int + 4)
    }
}

/// The code that orders paths part by part.
pub open spec fn parts_code(parts: Seq<Seq<char>>) -> Seq<int>
    decreases parts.len(),
{
    if parts.len() == 0 {
        Seq::empty()
    } else {
        parts_code(parts.drop_last()) + part_code(parts.last()) + seq![0]
    }
}

proof fn lemma_part_code(part: Seq<char>)
    ensures
        forall|i: int| 0 <= i < part_code(part).len() ==> #[trigger] part_code(part)[i] > 0,
{
    assert forall|i: int| 0 <= i < part_code(part).len() implies #[trigger] part_code(part)[i]
        > 0 by {
        if part != seq!['/'] && part != seq!['.'] && part != seq!['.', '.'] {
            text::lemma_char_range(part[i]);
        }
    }
}

proof fn lemma_part_code_injective(a: Seq<char>, b: Seq<char>)
    requires
        part_code(a) == part_code(b),
    ensures
        a == b,
{
    let x = part_code(a);
    let y = part_code(b);
    let special_a = a == seq!['/'] || a == seq!['.'] || a == seq!['.', '.'];
    let special_b = b == seq!['/'] || b == seq!['.'] || b == seq!['.', '.'];
    if !special_a && !special_b {
        assert(x.len() == a.len());
        assert(y.len() == b.len());
        assert forall|i: int| 0 <= i < a.len() implies a[i] == b[i] by {
            assert(x[i] == a[i] as int + 4);
            assert(y[i] == b[i] as int + 4);
        }
        assert(a =~= b);
    } else if special_a && !special_b {
        assert(x[0] <= 3);
        assert(y.len() == b.len());
        assert(y[0] == b[0] as int + 4);
        text::lemma_char_range(b[0]);
    } else if special_b && !special_a {
        assert(y[0] <= 3);
        assert(x.len() == a.len());
        assert(x[0] == a[0] as int + 4);
        text::lemma_char_range(a[0]);
    } else {
        assert(x[0] == y[0]);
    }
}

/// Paths with different parts have different codes.
pub proof fn lemma_parts_code_injective(a: Seq<Seq<char>>, b: Seq<Seq<char>>)
    requires
        parts_code(a) == parts_code(b),
    ensures
        a == b,
    decreases a.len(),
{
    if a.len() == 0 || b.len() == 0 {
        assert(a =~= b);
    } else {
        let x = parts_code(a);
        let y = parts_code(b);
        let front_a = parts_code(a.drop_last());
        let front_b = parts_code(b.drop_last());
        let last_a = part_code(a.last());
        let last_b = part_code(b.last());
        lemma_part_code(a.last());
        lemma_part_code(b.last());
        let n = last_a.len() as int;
        let m = last_b.len() as int;
        assert(n == m) by {
            if n < m {
                let i = x.len() - 2 - n;
                assert(y[i] == last_b[i - front_b.len()]);
                assert(x[i] == 0);
            }
            if m < n {
                let i = x.len() - 2 - m;
                assert(x[i] == last_a[i - front_a.len()]);
                assert(y[i] == 0);
            }
        }
        assert(last_a =~= last_b) by {
            assert(x.subrange(front_a.len() as int, front_a.len() + n) =~= last_a);
            assert(y.subrange(front_b.len() as int, front_b.len() + m) =~= last_b);
        }
        assert(x.take(front_a.len() as int) =~= front_a);
        assert(y.take(front_b.len() as int) =~= front_b);
        lemma_part_code_injective(a.last(), b.last());
        lemma_parts_code_injective(a.drop_last(), b.drop_last());
        assert(a =~= a.drop_last().push(a.last()));
        assert(b =~= b.drop_last().push(b.last()));
    }
}

fn push_part(code: &mut Vec<u64>, part: &str)
    ensures
        table::numbers(final(code)@) == table::numbers(old(code)@) + part_code(part@) + seq![0],
{
    let ghost start = table::numbers(code@);
    proof {
        reveal_strlit("/");
        reveal_strlit(".");
        reveal_strlit("..");
        assert("/"@ =~= seq!['/']);
        assert("."@ =~= seq!['.']);
        assert(".."@ =~= seq!['.', '.']);
    }
    if text::same_text(part, "/") {
        code.push(1);
    } else if text::same_text(part, ".") {
        code.push(2);
    } else if text::same_text(part, "..") {
        code.push(3);
    } else {
        let chars = text::chars_of(part);
        let ghost plain = part@.map_values(|c: char| c as int + 4);
        assert(start + plain.take(0) =~= start);
        for i in 0..chars.len()
            invariant
                chars@ == part@,
                plain == part@.map_values(|c: char| c as int + 4),
                table::numbers(code@) == start + plain.take(i as int),
        {
            let ghost before = code@;
            code.push(text::code_point(chars[i]) + 4);
            assert(table::numbers(code@) =~= table::numbers(before).push(plain[i as int]));
            assert(table::numbers(code@) =~= start + plain.take(i + 1));
        }
        assert(plain.take(chars.len() as int) =~= plain);
    }
    assert(table::numbers(code@) =~= start + part_code(part@));
    let ghost before = code@;
    code.push(0);
    assert(table::numbers(code@) =~= table::numbers(before).push(0));
    assert(table::numbers(code@) =~= start + part_code(part@) + seq![0]);
}

proof fn lemma_parts_code_push(start: Seq<int>, parts: Seq<Seq<char>>, part: Seq<char>)
    ensures
        start + parts_code(parts.push(part)) == start + parts_code(parts) + part_code(part) + seq![
            0,
        ],
{
    assert(parts.push(part).drop_last() =~= parts);
    assert(start + parts_code(parts.push(part)) =~= start + parts_code(parts) + part_code(part)
        + seq![0]);
}

/// Appends the code that orders a path.
pub fn push_path_code(code: &mut Vec<u64>, path: &str)
    ensures
        table::numbers(final(code)@) == table::numbers(old(code)@) + parts_code(parts(path@)),
{
    let ghost start = table::numbers(code@);
    let names = text::pieces_of(path, '/');
    let ghost all = text::pieces(path@, '/');
    proof {
        reveal_strlit("/");
        reveal_strlit(".");
        assert("/"@ =~= seq!['/']);
        assert("."@ =~= seq!['.']);
        text::lemma_some_piece(path@, '/');
        assert(all[0] == names@[0]@);
        let none = Seq::<Seq<char>>::empty();
        lemma_parts_code_push(start, none, seq!['/']);
        lemma_parts_code_push(start, none, seq!['.']);
        assert(none.push(seq!['/']) =~= seq![seq!['/']]);
        assert(none.push(seq!['.']) =~= seq![seq!['.']]);
        assert(start + parts_code(none) =~= start);
    }
    if text::starts_with_char(path, '/') {
        push_part(code, "/");
    } else if text::same_text(names[0].as_str(), ".") {
        push_part(code, ".");
    }
    let ghost head = beginning(path@);
    assert(head + kept(all.take(0)) =~= head);
    for i in 0..names.len()
        invariant
            all == text::texts(names@),
            "."@ == seq!['.'],
            table::numbers(code@) == start + parts_code(head + kept(all.take(i as int))),
    {
        let name = names[i].as_str();
        proof {
            assert(all.take(i + 1).drop_last() =~= all.take(i as int));
            assert(all[i as int] == name@);
            lemma_parts_code_push(start, head + kept(all.take(i as int)), name@);
            assert((head + kept(all.take(i as int))).push(name@) =~= head + kept(
                all.take(i as int),
            ).push(name@));
        }
        if name.unicode_len() > 0 && !text::same_text(name, ".") {
            push_part(code, name);
        }
    }
    assert(all.take(names.len() as int) =~= all);
}

impl View for HostPath {
    type V = Seq<char>;

    open spec fn view(&self) -> Seq<char> {
        self.text@
    }
}

impl HostPath {
    pub fn new(path: &str) -> (host: Self)
        ensures
            host@ == path@,
    {
        HostPath { text: path.to_owned() }
    }

    pub fn as_str(&self) -> (text: &str)
        ensures
            text@ == self@,
    {
        self.text.as_str()
    }

    /// The path below this one; one from the root stands for itself.
    pub fn join(&self, rest: &str) -> (joined: Self)
        ensures
            joined@ == host_join(self@, rest@),
    {
        if text::starts_with_char(rest, '/') {
            return HostPath { text: rest.to_owned() };
        }
        let mut text = self.text.clone();
        proof {
            reveal_strlit("/");
            assert("/"@ =~= seq!['/']);
            assert(self@ + seq!['/'] =~= self@.push('/'));
        }
        if text.as_str().unicode_len() > 0 && !text::ends_with_char(text.as_str(), '/') {
            text.append("/");
        }
        text.append(rest);
        HostPath { text }
    }
}

impl Clone for HostPath {
    fn clone(&self) -> (copy: Self)
        ensures
            copy == *self,
    {
        HostPath { text: self.text.clone() }
    }
}

/// Paths are the same where their parts are.
impl PartialEq for HostPath {
    fn eq(&self, other: &Self) -> (same: bool) {
        table::same_key(self, other)
    }
}

impl vstd::std_specs::cmp::PartialEqSpecImpl for HostPath {
    open spec fn obeys_eq_spec() -> bool {
        true
    }

    open spec fn eq_spec(&self, other: &Self) -> bool {
        parts(self@) == parts(other@)
    }
}

impl Eq for HostPath {
}

impl TableKey for HostPath {
    type Key = Seq<Seq<char>>;

    open spec fn key(&self) -> Seq<Seq<char>> {
        parts(self@)
    }

    open spec fn code(key: Seq<Seq<char>>) -> Seq<int> {
        parts_code(key)
    }

    proof fn lemma_code_injective(a: Seq<Seq<char>>, b: Seq<Seq<char>>) {
        lemma_parts_code_injective(a, b);
    }

    fn code_of(&self) -> (code: Vec<u64>) {
        let mut code: Vec<u64> = Vec::new();
        push_path_code(&mut code, self.text.as_str());
        assert(table::numbers(Seq::<u64>::empty()) + parts_code(parts(self@)) =~= parts_code(
            parts(self@),
        ));
        code
    }
}

} // verus!
