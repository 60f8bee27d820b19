//! Sandbox path normalization and conservative command-line path rewriting.

use vstd::prelude::*;

use crate::error::Error;
use crate::host;
use crate::text;

verus! {

broadcast use vstd::string::group_string_axioms;

/// A name that can stand in a path: not empty, not `.` or `..`, and without a
/// separator.
pub open spec fn normal(name: Seq<char>) -> bool {
    &&& name.len() > 0
    &&& name != seq!['.']
    &&& name != seq!['.', '.']
    &&& !name.contains('/')
}

/// All names are normal.
pub open spec fn all_normal(names: Seq<Seq<char>>) -> bool {
    forall|i: int| 0 <= i < names.len() ==> normal(#[trigger] names[i])
}

/// Follows one step of a path: empty and `.` steps stay, `..` goes up but not
/// above the root, any other step goes down.
pub open spec fn step(at: Seq<Seq<char>>, name: Seq<char>) -> Seq<Seq<char>> {
    if name.len() == 0 || name == seq!['.'] {
        at
    } else if name == seq!['.', '.'] {
        if at.len() == 0 {
            at
        } else {
            at.drop_last()
        }
    } else {
        at.push(name)
    }
}

/// Where the steps lead from `base`.
pub open spec fn followed(base: Seq<Seq<char>>, steps: Seq<Seq<char>>) -> Seq<Seq<char>>
    decreases steps.len(),
{
    if steps.len() == 0 {
        base
    } else {
        step(followed(base, steps.drop_last()), steps.last())
    }
}

/// The names on the way from the root to the path that `text` writes.
pub open spec fn components(text: Seq<char>) -> Seq<Seq<char>> {
    followed(Seq::empty(), text::pieces(text, '/'))
}

/// The names written as a relative path.
pub open spec fn relative(names: Seq<Seq<char>>) -> Seq<char> {
    text::joined(names, seq!['/'])
}

/// The names written as an absolute path.
pub open spec fn absolute(names: Seq<Seq<char>>) -> Seq<char> {
    seq!['/'] + relative(names)
}

/// A text has at least one piece, and no piece holds the separator.
pub proof fn lemma_pieces(s: Seq<char>, separator: char)
    ensures
        text::pieces(s, separator).len() >= 1,
        forall|i: int|
            0 <= i < text::pieces(s, separator).len() ==> !(#[trigger] text::pieces(
                s,
                separator,
            )[i]).contains(separator),
    decreases s.len(),
{
    if s.len() > 0 {
        lemma_pieces(s.drop_last(), separator);
        let before = text::pieces(s.drop_last(), separator);
        let all = text::pieces(s, separator);
        assert forall|i: int| 0 <= i < all.len() implies !(#[trigger] all[i]).contains(separator) by {
            if i == all.len() - 1 {
                if s.last() != separator {
                    let piece = before.last();
                    assert(before[before.len() - 1] == piece);
                    assert forall|j: int| 0 <= j < piece.push(s.last()).len() implies piece.push(
                        s.last(),
                    )[j] != separator by {
                        if j < piece.len() {
                            assert(piece.contains(piece[j]));
                        }
                    }
                }
            } else {
                assert(all[i] == before[i]);
            }
        }
    }
}

/// The pieces on both sides of a separator are the pieces of the whole.
pub proof fn lemma_pieces_split(a: Seq<char>, b: Seq<char>, separator: char)
    ensures
        text::pieces(a + seq![separator] + b, separator) == text::pieces(a, separator) + text::pieces(
            b,
            separator,
        ),
    decreases b.len(),
{
    let whole = a + seq![separator] + b;
    lemma_pieces(b, separator);
    if b.len() == 0 {
        assert(whole.drop_last() =~= a);
    } else {
        lemma_pieces_split(a, b.drop_last(), separator);
        lemma_pieces(b.drop_last(), separator);
        assert(whole.drop_last() =~= a + seq![separator] + b.drop_last());
        let left = text::pieces(a, separator);
        let right = text::pieces(b.drop_last(), separator);
        assert((left + right).last() == right.last());
        assert((left + right).drop_last() =~= left + right.drop_last());
    }
    assert(text::pieces(whole, separator) =~= text::pieces(a, separator) + text::pieces(b, separator));
}

/// A text without the separator is one piece.
pub proof fn lemma_pieces_whole(s: Seq<char>, separator: char)
    requires
        !s.contains(separator),
    ensures
        text::pieces(s, separator) == seq![s],
    decreases s.len(),
{
    if s.len() > 0 {
        assert(s.contains(s[s.len() - 1]));
        assert forall|i: int| 0 <= i < s.drop_last().len() implies s.drop_last()[i] != separator by {
            assert(s.contains(s[i]));
        }
        lemma_pieces_whole(s.drop_last(), separator);
        assert(s.drop_last().push(s.last()) =~= s);
        assert(seq![s.drop_last()].drop_last() =~= Seq::<Seq<char>>::empty());
    } else {
        assert(s =~= Seq::<char>::empty());
    }
    assert(text::pieces(s, separator) =~= seq![s]);
}

proof fn lemma_pieces_first(s: Seq<char>)
    requires
        host::from_root(s),
    ensures
        text::pieces(s, '/')[0].len() == 0,
{
    let none = Seq::<char>::empty();
    assert(s =~= none + seq!['/'] + s.skip(1));
    lemma_pieces_split(none, s.skip(1), '/');
    lemma_pieces_whole(none, '/');
}

proof fn lemma_pieces_joined(names: Seq<Seq<char>>)
    requires
        all_normal(names),
        names.len() > 0,
    ensures
        text::pieces(relative(names), '/') == names,
    decreases names.len(),
{
    lemma_pieces_whole(names.last(), '/');
    if names.len() > 1 {
        let front = names.drop_last();
        assert forall|i: int| 0 <= i < front.len() implies normal(#[trigger] front[i]) by {
            assert(front[i] == names[i]);
        }
        lemma_pieces_joined(front);
        lemma_pieces_split(relative(front), names.last(), '/');
    }
    assert(text::pieces(relative(names), '/') =~= names);
}

/// Following steps that were appended is following them in turn.
pub proof fn lemma_followed_concat(base: Seq<Seq<char>>, a: Seq<Seq<char>>, b: Seq<Seq<char>>)
    ensures
        followed(base, a + b) == followed(followed(base, a), b),
    decreases b.len(),
{
    if b.len() == 0 {
        assert(a + b =~= a);
    } else {
        assert((a + b).drop_last() =~= a + b.drop_last());
        lemma_followed_concat(base, a, b.drop_last());
    }
}

proof fn lemma_followed_normal(base: Seq<Seq<char>>, names: Seq<Seq<char>>)
    requires
        all_normal(names),
    ensures
        followed(base, names) == base + names,
    decreases names.len(),
{
    if names.len() == 0 {
        assert(base + names =~= base);
    } else {
        let front = names.drop_last();
        assert forall|i: int| 0 <= i < front.len() implies normal(#[trigger] front[i]) by {
            assert(front[i] == names[i]);
        }
        lemma_followed_normal(base, front);
        assert((base + front).push(names.last()) =~= base + names);
        assert(normal(names[names.len() - 1]));
    }
}

proof fn lemma_followed_all_normal(base: Seq<Seq<char>>, steps: Seq<Seq<char>>)
    requires
        all_normal(base),
        forall|i: int| 0 <= i < steps.len() ==> !(#[trigger] steps[i]).contains('/'),
    ensures
        all_normal(followed(base, steps)),
    decreases steps.len(),
{
    if steps.len() > 0 {
        let front = steps.drop_last();
        assert forall|i: int| 0 <= i < front.len() implies !(#[trigger] front[i]).contains('/') by {
            assert(front[i] == steps[i]);
        }
        lemma_followed_all_normal(base, front);
        let at = followed(base, front);
        let name = steps.last();
        assert(!steps[steps.len() - 1].contains('/'));
        assert forall|i: int| 0 <= i < step(at, name).len() implies normal(
            #[trigger] step(at, name)[i],
        ) by {
            if i < at.len() {
                assert(normal(at[i]));
            }
        }
    }
}

/// The names of any path are normal.
pub proof fn lemma_components_normal(text: Seq<char>)
    ensures
        all_normal(components(text)),
{
    lemma_pieces(text, '/');
    lemma_followed_all_normal(Seq::empty(), text::pieces(text, '/'));
}

/// Writing normal names as an absolute path and reading them back changes
/// nothing.
pub proof fn lemma_absolute_components(names: Seq<Seq<char>>)
    requires
        all_normal(names),
    ensures
        components(absolute(names)) == names,
{
    let empty = Seq::<char>::empty();
    assert(absolute(names) =~= empty + seq!['/'] + relative(names));
    lemma_pieces_split(empty, relative(names), '/');
    assert(text::pieces(empty, '/') =~= seq![empty]);
    lemma_followed_concat(Seq::empty(), seq![empty], text::pieces(relative(names), '/'));
    assert(seq![empty].drop_last() =~= Seq::<Seq<char>>::empty());
    reveal_with_fuel(followed, 2);
    assert(followed(Seq::empty(), seq![empty]) == Seq::<Seq<char>>::empty());
    if names.len() == 0 {
        assert(relative(names) =~= empty);
        assert(names =~= Seq::<Seq<char>>::empty());
    } else {
        lemma_pieces_joined(names);
        lemma_followed_normal(Seq::empty(), names);
        assert(Seq::<Seq<char>>::empty() + names =~= names);
    }
}

/// Normalizing is idempotent: the absolute text of a path names the same path.
pub proof fn lemma_normalize_idempotent(text: Seq<char>)
    ensures
        components(absolute(components(text))) == components(text),
        absolute(components(absolute(components(text)))) == absolute(components(text)),
{
    lemma_components_normal(text);
    lemma_absolute_components(components(text));
}

/// The names of every sandbox path are normal.
pub proof fn lemma_names_are_normal(at: SandboxPath)
    ensures
        all_normal(at@),
{
    lemma_components_normal(at.text@);
}

proof fn lemma_kept_normal(names: Seq<Seq<char>>)
    requires
        all_normal(names),
    ensures
        host::kept(names) == names,
    decreases names.len(),
{
    if names.len() > 0 {
        let front = names.drop_last();
        assert forall|i: int| 0 <= i < front.len() implies normal(#[trigger] front[i]) by {
            assert(front[i] == names[i]);
        }
        assert(normal(names[names.len() - 1]));
        lemma_kept_normal(front);
        assert(front.push(names.last()) =~= names);
    } else {
        assert(host::kept(names) =~= names);
    }
}

/// The parts of normal names written as a relative path are the names.
pub proof fn lemma_relative_parts(names: Seq<Seq<char>>)
    ensures
        all_normal(names) ==> host::parts(relative(names)) == names,
{
    if all_normal(names) {
        let text = relative(names);
        if names.len() == 0 {
            assert(text =~= Seq::<char>::empty());
            lemma_pieces_whole(text, '/');
            assert(host::kept(seq![text].drop_last()) =~= Seq::<Seq<char>>::empty());
            assert(host::parts(text) =~= names);
        } else {
            lemma_pieces_joined(names);
            lemma_kept_normal(names);
            assert(normal(names[0]));
            if host::from_root(text) {
                lemma_pieces_first(text);
            }
            assert(host::parts(text) =~= names);
        }
    }
}

/// Going down to a name and up again leads back.
pub proof fn lemma_join_name(base: Seq<Seq<char>>, name: Seq<char>)
    requires
        normal(name),
    ensures
        followed(base, text::pieces(name, '/')) == base.push(name),
        followed(base, text::pieces(name, '/')).drop_last() == base,
{
    lemma_pieces_whole(name, '/');
    lemma_followed_normal(base, seq![name]);
    assert(base + seq![name] =~= base.push(name));
    assert(base.push(name).drop_last() =~= base);
}

/// Following the relative text of a path below a base leads from the base to
/// the path.
pub proof fn lemma_strip_then_join(names: Seq<Seq<char>>, base: Seq<Seq<char>>)
    requires
        all_normal(names),
        under(names, base),
    ensures
        followed(base, text::pieces(relative(names.skip(base.len() as int)), '/')) == names,
{
    let rest = names.skip(base.len() as int);
    assert forall|i: int| 0 <= i < rest.len() implies normal(#[trigger] rest[i]) by {
        assert(normal(names[i + base.len()]));
    }
    assert(base + rest =~= names);
    if rest.len() == 0 {
        let empty = Seq::<char>::empty();
        assert(relative(rest) =~= empty);
        lemma_pieces_whole(empty, '/');
        assert(seq![empty].drop_last() =~= Seq::<Seq<char>>::empty());
        reveal_with_fuel(followed, 2);
    } else {
        lemma_pieces_joined(rest);
        lemma_followed_normal(base, rest);
    }
}

/// The components of `a` begin with those of `b`.
pub open spec fn under(a: Seq<Seq<char>>, b: Seq<Seq<char>>) -> bool {
    b.is_prefix_of(a)
}

/// Whether the text is a path from the root.
pub open spec fn is_absolute(text: Seq<char>) -> bool {
    text.len() > 0 && text[0] == '/'
}

fn components_of(path: &str) -> (names: Vec<String>)
    ensures
        text::texts(names@) == components(path@),
{
    let chars = text::chars_of(path);
    let mut names: Vec<String> = Vec::new();
    let mut start: usize = 0;
    let mut i: usize = 0;
    proof {
        assert(path@.take(0) =~= Seq::<char>::empty());
        assert(text::pieces(path@.take(0), '/') =~= seq![Seq::<char>::empty()]);
        assert(text::pieces(path@.take(0), '/').drop_last() =~= Seq::<Seq<char>>::empty());
        assert(path@.subrange(0, 0) =~= Seq::<char>::empty());
    }
    while i < chars.len()
        invariant
            chars@ == path@,
            start <= i <= chars.len(),
            text::pieces(path@.take(i as int), '/').len() >= 1,
            text::pieces(path@.take(i as int), '/').last() == path@.subrange(start as int, i as int),
            text::texts(names@) == followed(
                Seq::empty(),
                text::pieces(path@.take(i as int), '/').drop_last(),
            ),
        decreases chars.len() - i,
    {
        let ghost before = text::pieces(path@.take(i as int), '/');
        let ghost after = text::pieces(path@.take(i + 1), '/');
        assert(path@.take(i + 1).drop_last() =~= path@.take(i as int));
        if chars[i] == '/' {
            let name = path.substring_char(start, i);
            follow(&mut names, name);
            start = i + 1;
            assert(after.drop_last() =~= before);
            assert(path@.subrange(i + 1, i + 1) =~= Seq::<char>::empty());
        } else {
            assert(after.drop_last() =~= before.drop_last());
            assert(path@.subrange(start as int, i as int).push(path@[i as int]) =~= path@.subrange(
                start as int,
                i + 1,
            ));
        }
        i += 1;
    }
    let name = path.substring_char(start, chars.len());
    follow(&mut names, name);
    assert(path@.take(chars.len() as int) =~= path@);
    names
}

fn follow(names: &mut Vec<String>, name: &str)
    ensures
        text::texts(final(names)@) == step(text::texts(old(names)@), name@),
{
    proof {
        reveal_strlit(".");
        reveal_strlit("..");
        assert("."@ =~= seq!['.']);
        assert(".."@ =~= seq!['.', '.']);
        assert(name@.len() == 0 ==> name@ =~= ""@) by {
            reveal_strlit("");
        }
        reveal_strlit("");
    }
    if text::same_text(name, "") || text::same_text(name, ".") {
    } else if text::same_text(name, "..") {
        let _ = names.pop();
        assert(text::texts(names@) =~= step(text::texts(old(names)@), name@));
    } else {
        names.push(name.to_owned());
        assert(text::texts(names@) =~= step(text::texts(old(names)@), name@));
    }
}

/// The absolute, normalized text of a path.
pub fn normalize_sandbox_path(path: &str) -> (normalized: Result<String, Error>)
    ensures
        normalized matches Ok(text) && text@ == absolute(components(path@)),
{
    Ok(absolute_of(&components_of(path)))
}

fn absolute_of(names: &Vec<String>) -> (text: String)
    ensures
        text@ == absolute(text::texts(names@)),
{
    proof {
        reveal_strlit("/");
        assert("/"@ =~= seq!['/']);
    }
    let mut text = "/".to_owned();
    let rest = text::joined_of(names, "/");
    text.append(rest.as_str());
    text
}

/// A normalized absolute path inside a sandbox.
#[derive(Debug, Hash)]
pub struct SandboxPath {
    text: String,
}

impl View for SandboxPath {
    type V = Seq<Seq<char>>;

    closed spec fn view(&self) -> Seq<Seq<char>> {
        components(self.text@)
    }
}

impl SandboxPath {
    #[verifier::type_invariant]
    spec fn normalized(self) -> bool {
        self.text@ == absolute(components(self.text@))
    }

    /// The path's text.
    pub open spec fn text(self) -> Seq<char> {
        absolute(self@)
    }

    pub fn root() -> (path: Self)
        ensures
            path@ == Seq::<Seq<char>>::empty(),
    {
        SandboxPath::from_names(&Vec::new())
    }

    fn from_names(names: &Vec<String>) -> (path: Self)
        requires
            all_normal(text::texts(names@)),
        ensures
            path@ == text::texts(names@),
    {
        proof {
            lemma_absolute_components(text::texts(names@));
        }
        SandboxPath { text: absolute_of(names) }
    }

    /// The path that a text names; a relative text is read from the root.
    pub fn new(path: &str) -> (result: Result<Self, Error>)
        ensures
            result matches Ok(p) && p@ == components(path@),
    {
        let names = components_of(path);
        proof {
            lemma_components_normal(path@);
        }
        Ok(SandboxPath::from_names(&names))
    }

    pub fn as_str(&self) -> (text: &str)
        ensures
            text@ == self.text(),
            all_normal(self@),
    {
        proof {
            use_type_invariant(self);
            lemma_components_normal(self.text@);
        }
        self.text.as_str()
    }

    fn names(&self) -> (names: Vec<String>)
        ensures
            text::texts(names@) == self@,
            all_normal(self@),
    {
        proof {
            lemma_components_normal(self.text@);
        }
        components_of(self.text.as_str())
    }

    /// The number of names in the path.
    pub fn depth(&self) -> (n: usize)
        ensures
            n == self@.len(),
    {
        let names = self.names();
        assert(names@.len() == text::texts(names@).len());
        names.len()
    }

    /// The name at a place in the path.
    pub fn name_at(&self, i: usize) -> (name: String)
        requires
            i < self@.len(),
        ensures
            name@ == self@[i as int],
    {
        let names = self.names();
        assert(text::texts(names@)[i as int] == names@[i as int]@);
        names[i].clone()
    }

    /// The directory that holds the path; the root has none.
    pub fn parent(&self) -> (parent: Option<Self>)
        ensures
            match parent {
                Some(p) => self@.len() > 0 && p@ == self@.drop_last(),
                None => self@.len() == 0,
            },
    {
        let mut names = self.names();
        match names.pop() {
            None => None,
            Some(_) => {
                assert(text::texts(names@) =~= self@.drop_last());
                assert forall|i: int| 0 <= i < self@.drop_last().len() implies normal(
                    #[trigger] self@.drop_last()[i],
                ) by {
                    assert(normal(self@[i]));
                }
                Some(SandboxPath::from_names(&names))
            },
        }
    }

    /// The last name of the path; the root has none.
    pub fn file_name(&self) -> (name: Option<String>)
        ensures
            match name {
                Some(n) => self@.len() > 0 && n@ == self@.last(),
                None => self@.len() == 0,
            },
    {
        let mut names = self.names();
        let ghost all = names@;
        let last = names.pop();
        assert(all.len() > 0 ==> text::texts(all).last() == all.last()@);
        last
    }

    /// The path that `child` names from here; an absolute `child` is read from
    /// the root.
    pub fn join(&self, child: &str) -> (result: Result<Self, Error>)
        ensures
            result matches Ok(p) && p@ == (if is_absolute(child@) {
                components(child@)
            } else {
                followed(self@, text::pieces(child@, '/'))
            }),
    {
        if text::starts_with_char(child, '/') {
            SandboxPath::new(child)
        } else {
            let mut whole = self.text.clone();
            whole.append("/");
            whole.append(child);
            proof {
                reveal_strlit("/");
                assert("/"@ =~= seq!['/']);
                lemma_pieces_split(self.text@, child@, '/');
                lemma_followed_concat(
                    Seq::empty(),
                    text::pieces(self.text@, '/'),
                    text::pieces(child@, '/'),
                );
            }
            SandboxPath::new(whole.as_str())
        }
    }

    /// Whether the path is `base` or lies below it.
    pub fn starts_with(&self, base: &SandboxPath) -> (below: bool)
        ensures
            below == under(self@, base@),
    {
        let names = self.names();
        let base_names = base.names();
        if base_names.len() > names.len() {
            return false;
        }
        let mut i: usize = 0;
        while i < base_names.len()
            invariant
                i <= base_names.len() <= names.len(),
                text::texts(names@) == self@,
                text::texts(base_names@) == base@,
                forall|j: int| 0 <= j < i ==> self@[j] == base@[j],
            decreases base_names.len() - i,
        {
            if names[i] != base_names[i] {
                assert(self@[i as int] != base@[i as int]);
                return false;
            }
            assert(self@[i as int] == base@[i as int]);
            i += 1;
        }
        assert(base@ =~= self@.subrange(0, base@.len() as int));
        true
    }

    /// The relative text of the path below `base`.
    pub fn strip_prefix(&self, base: &SandboxPath) -> (result: Result<String, Error>)
        ensures
            match result {
                Ok(rest) => under(self@, base@) && rest@ == relative(self@.skip(base@.len() as int)),
                Err(error) => !under(self@, base@) && error.says(
                    self.text() + " is not under "@ + base.text(),
                ),
            },
    {
        if self.starts_with(base) {
            let names = self.names();
            let base_names = base.names();
            let mut rest: Vec<String> = Vec::new();
            let mut i: usize = base_names.len();
            while i < names.len()
                invariant
                    base_names.len() <= i <= names.len(),
                    rest.len() == i - base_names.len(),
                    forall|j: int| 0 <= j < rest.len() ==> rest@[j]@ == names@[j + base_names.len()]@,
                decreases names.len() - i,
            {
                rest.push(names[i].clone());
                i += 1;
            }
            assert(text::texts(rest@) =~= self@.skip(base@.len() as int));
            proof {
                reveal_strlit("/");
                assert("/"@ =~= seq!['/']);
            }
            Ok(text::joined_of(&rest, "/"))
        } else {
            let mut message = self.as_str().to_owned();
            message.append(" is not under ");
            message.append(base.as_str());
            Err(Error::msg(message))
        }
    }
}

impl Clone for SandboxPath {
    fn clone(&self) -> (copy: Self)
        ensures
            copy == *self,
    {
        proof {
            use_type_invariant(self);
        }
        SandboxPath { text: self.text.clone() }
    }
}

impl PartialEq for SandboxPath {
    fn eq(&self, other: &Self) -> (same: bool) {
        proof {
            use_type_invariant(self);
            use_type_invariant(other);
        }
        self.text == other.text
    }
}

impl vstd::std_specs::cmp::PartialEqSpecImpl for SandboxPath {
    open spec fn obeys_eq_spec() -> bool {
        true
    }

    open spec fn eq_spec(&self, other: &Self) -> bool {
        self@ == other@
    }
}

impl Eq for SandboxPath {
}

/// The text of a path argument when the working directory stands for the
/// sandbox root.
pub open spec fn rewritten(arg: Seq<char>) -> Seq<char> {
    if arg == seq!['/'] {
        seq!['.']
    } else if is_absolute(arg) {
        seq!['.'] + arg
    } else {
        arg
    }
}

/// Turns an absolute path argument into one relative to the working directory.
pub fn rewrite_sandbox_path_arg(arg: &str) -> (text: String)
    ensures
        text@ == rewritten(arg@),
{
    proof {
        reveal_strlit("/");
        reveal_strlit(".");
        assert("/"@ =~= seq!['/']);
        assert("."@ =~= seq!['.']);
    }
    if text::same_text(arg, "/") {
        ".".to_owned()
    } else if text::starts_with_char(arg, '/') {
        let mut text = ".".to_owned();
        text.append(arg);
        text
    } else {
        arg.to_owned()
    }
}

/// A rewritten argument is never absolute and names the same sandbox path.
pub proof fn lemma_rewritten_names_same_path(arg: Seq<char>)
    ensures
        !is_absolute(rewritten(arg)),
        components(rewritten(arg)) == components(arg),
{
    let empty = Seq::<char>::empty();
    if is_absolute(arg) {
        let rest = arg.skip(1);
        assert(arg =~= empty + seq!['/'] + rest);
        assert(seq!['.'] + arg =~= seq!['.'] + seq!['/'] + rest);
        lemma_pieces_split(empty, rest, '/');
        lemma_pieces_split(seq!['.'], rest, '/');
        lemma_pieces_whole(empty, '/');
        lemma_pieces_whole(seq!['.'], '/');
        lemma_followed_concat(Seq::empty(), seq![empty], text::pieces(rest, '/'));
        lemma_followed_concat(Seq::empty(), seq![seq!['.']], text::pieces(rest, '/'));
        reveal_with_fuel(followed, 2);
        assert(seq![empty].drop_last() =~= Seq::<Seq<char>>::empty());
        assert(seq![seq!['.']].drop_last() =~= Seq::<Seq<char>>::empty());
        if arg == seq!['/'] {
            assert(rest =~= empty);
            assert(components(arg) == Seq::<Seq<char>>::empty());
            assert(components(seq!['.']) == Seq::<Seq<char>>::empty());
        }
    }
}

} // verus!
