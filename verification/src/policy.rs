//! Protection and passthrough rules, and the patterns they select paths by.

use vstd::prelude::*;

use crate::error::Error;
use crate::path;
use crate::path::SandboxPath;
use crate::table;
use crate::table::TableKey;
use crate::text;

verus! {

broadcast use vstd::string::group_string_axioms;

/// The effect that a rule is about.
#[derive(Clone, Copy, Debug, PartialEq, Eq, PartialOrd, Ord, Hash, Structural)]
pub enum ProtectionKind {
    Read,
    Write,
    Metadata,
    /// Extended attributes, read or changed.
    Xattr,
}

impl ProtectionKind {
    /// The name of the kind in log lines.
    pub open spec fn name(self) -> Seq<char> {
        match self {
            ProtectionKind::Read => "READ"@,
            ProtectionKind::Write => "WRITE"@,
            ProtectionKind::Metadata => "METADATA"@,
            ProtectionKind::Xattr => "XATTR"@,
        }
    }

    /// The place of the kind in listings.
    pub open spec fn rank(self) -> int {
        match self {
            ProtectionKind::Read => 0,
            ProtectionKind::Write => 1,
            ProtectionKind::Metadata => 2,
            ProtectionKind::Xattr => 3,
        }
    }

    pub fn log_name(self) -> (name: &'static str)
        ensures
            name@ == self.name(),
    {
        match self {
            ProtectionKind::Read => "READ",
            ProtectionKind::Write => "WRITE",
            ProtectionKind::Metadata => "METADATA",
            ProtectionKind::Xattr => "XATTR",
        }
    }
}

/// The text of the error that compiling a glob pattern gives, if it gives one.
pub uninterp spec fn glob_error(pattern: Seq<char>) -> Option<Seq<char>>;

/// Whether a compiled glob pattern matches a text under the given options.
pub uninterp spec fn glob_matches(
    pattern: Seq<char>,
    text: Seq<char>,
    case_sensitive: bool,
    literal_separator: bool,
    literal_leading_dot: bool,
) -> bool;

/// The pattern holds no character that a glob treats specially.
pub open spec fn is_literal(pattern: Seq<char>) -> bool {
    !pattern.contains('?') && !pattern.contains('*') && !pattern.contains('[')
}

/// The pattern is literal but for one `*` at its end.
pub open spec fn is_one_level(pattern: Seq<char>) -> bool {
    pattern.len() > 0 && pattern.last() == '*' && is_literal(pattern.drop_last())
}

/// The pattern is literal but for a last component `**`.
pub open spec fn is_subtree(pattern: Seq<char>) -> bool {
    let n = pattern.len() as int;
    n > 2 && pattern[n - 1] == '*' && pattern[n - 2] == '*' && pattern[n - 3] == '/' && is_literal(
        pattern.take(n - 2),
    )
}

/// What patterns of the plain forms match: a literal one its own text, one with
/// `*` at its end the texts that go on after it without a separator, and one
/// with a last component `**` the texts that go on after it in any way.
pub open spec fn plain_match(pattern: Seq<char>, text: Seq<char>) -> Option<bool> {
    if is_literal(pattern) {
        Some(pattern == text)
    } else if is_one_level(pattern) {
        let n = pattern.len() - 1;
        Some(pattern.take(n).is_prefix_of(text) && !text.skip(n).contains('/'))
    } else if is_subtree(pattern) {
        Some(pattern.take(pattern.len() - 2).is_prefix_of(text))
    } else {
        None
    }
}

/// The pattern has one of the plain forms.
pub open spec fn is_plain(pattern: Seq<char>) -> bool {
    is_literal(pattern) || is_one_level(pattern) || is_subtree(pattern)
}

/// `glob::Pattern::new`: compiles a pattern and hands back the text of the
/// error. The text depends on the pattern alone, and a pattern that is literal,
/// or literal but for `*` at its end or a last component `**`, compiles.
#[verifier::external_body]
fn glob_compile_error(pattern: &str) -> (error: Option<String>)
    ensures
        match error {
            Some(text) => glob_error(pattern@) == Some(text@),
            None => glob_error(pattern@) is None,
        },
        is_plain(pattern@) ==> error is None,
{
    glob::Pattern::new(pattern).err().map(|error| error.to_string())
}

/// `glob::Pattern::matches_path_with`: nothing comes back for a pattern that
/// does not compile. The answer depends on the pattern, the text and the
/// options alone. Where case counts, separators have to be written out and dots
/// are like other characters, a literal pattern matches its own text, `*` at
/// the end of one matches what holds no separator, and a last component `**`
/// matches everything that follows.
#[verifier::external_body]
fn glob_match(
    pattern: &str,
    text: &str,
    case_sensitive: bool,
    literal_separator: bool,
    literal_leading_dot: bool,
) -> (matched: Option<bool>)
    ensures
        matched is None <==> glob_error(pattern@) is Some,
        matched matches Some(answer) ==> answer == glob_matches(
            pattern@,
            text@,
            case_sensitive,
            literal_separator,
            literal_leading_dot,
        ),
        case_sensitive && literal_separator && !literal_leading_dot && is_plain(pattern@) ==> matched
            == plain_match(pattern@, text@),
{
    let options = glob::MatchOptions {
        case_sensitive,
        require_literal_separator: literal_separator,
        require_literal_leading_dot: literal_leading_dot,
    };
    let compiled = glob::Pattern::new(pattern).ok();
    compiled.map(|glob| glob.matches_path_with(std::path::Path::new(text), options))
}

/// What a policy pattern says: its text, and whether it selects directories
/// only.
#[verifier::ext_equal]
pub struct PatternView {
    pub text: Seq<char>,
    pub directory_only: bool,
}

/// The text ends with a separator and is not the root itself.
pub open spec fn ends_as_directory(text: Seq<char>) -> bool {
    text != seq!['/'] && text.len() > 0 && text.last() == '/'
}

/// The normalized text of a pattern; a separator at its end stays.
pub open spec fn normalized_pattern(pattern: Seq<char>) -> Seq<char> {
    let raw = path::absolute(path::components(pattern));
    if ends_as_directory(pattern) && raw != seq!['/'] {
        raw.push('/')
    } else {
        raw
    }
}

/// The text without the separators at its end.
pub open spec fn without_end_separators(text: Seq<char>) -> Seq<char>
    decreases text.len(),
{
    if text.len() > 0 && text.last() == '/' {
        without_end_separators(text.drop_last())
    } else {
        text
    }
}

/// The glob that a pattern is matched as.
pub open spec fn glob_text(pattern: Seq<char>) -> Seq<char> {
    if ends_as_directory(pattern) {
        without_end_separators(pattern)
    } else {
        pattern
    }
}

/// Whether a pattern selects a path. A pattern for directories only selects
/// directories other than the root.
pub open spec fn selects(pattern: PatternView, path: Seq<char>, is_dir: bool) -> bool {
    &&& pattern.directory_only ==> is_dir && path != seq!['/']
    &&& glob_error(glob_text(pattern.text)) is None
    &&& glob_matches(glob_text(pattern.text), path, true, true, false)
}

/// A pattern that selects sandbox paths.
#[derive(Debug, Hash)]
pub struct PolicyPattern {
    raw: String,
    directory_only: bool,
}

impl View for PolicyPattern {
    type V = PatternView;

    closed spec fn view(&self) -> PatternView {
        PatternView { text: self.raw@, directory_only: self.directory_only }
    }
}

fn normalize_policy_pattern(pattern: &str) -> (result: Result<String, Error>)
    ensures
        match result {
            Ok(raw) => pattern@.len() > 0 && !pattern@.contains('\0') && raw@ == normalized_pattern(
                pattern@,
            ),
            Err(error) => if pattern@.len() == 0 {
                error.says("policy pattern cannot be empty"@)
            } else {
                pattern@.contains('\0') && error.says("policy pattern cannot contain NUL"@)
            },
        },
{
    if pattern.unicode_len() == 0 {
        return Err(Error::msg("policy pattern cannot be empty".to_owned()));
    }
    if text::contains_char(pattern, '\0') {
        return Err(Error::msg("policy pattern cannot contain NUL".to_owned()));
    }
    proof {
        reveal_strlit("/");
        assert("/"@ =~= seq!['/']);
    }
    let directory_only = !text::same_text(pattern, "/") && text::ends_with_char(pattern, '/');
    let mut raw = path::normalize_sandbox_path(pattern)?;
    if directory_only && !text::same_text(raw.as_str(), "/") {
        proof {
            assert(raw@ + seq!['/'] =~= raw@.push('/'));
        }
        raw.append("/");
    }
    Ok(raw)
}

fn glob_pattern_for_match(pattern: &str) -> (glob: String)
    ensures
        glob@ == glob_text(pattern@),
{
    proof {
        reveal_strlit("/");
        assert("/"@ =~= seq!['/']);
    }
    if !text::same_text(pattern, "/") && text::ends_with_char(pattern, '/') {
        let mut end: usize = pattern.unicode_len();
        assert(pattern@.take(end as int) =~= pattern@);
        while end > 0 && pattern.get_char(end - 1) == '/'
            invariant
                end <= pattern@.len(),
                without_end_separators(pattern@.take(end as int)) == without_end_separators(pattern@),
            decreases end,
        {
            assert(pattern@.take(end as int).drop_last() =~= pattern@.take(end - 1));
            end -= 1;
        }
        assert(without_end_separators(pattern@.take(end as int)) == pattern@.take(end as int));
        assert(pattern@.subrange(0, end as int) =~= pattern@.take(end as int));
        pattern.substring_char(0, end).to_owned()
    } else {
        pattern.to_owned()
    }
}

/// What reading a pattern gives.
pub open spec fn reads_pattern(pattern: Seq<char>, result: Result<PolicyPattern, Error>) -> bool {
    match result {
        Ok(p) => {
            &&& pattern.len() > 0
            &&& !pattern.contains('\0')
            &&& glob_error(glob_text(normalized_pattern(pattern))) is None
            &&& p@.text == normalized_pattern(pattern)
            &&& p@.directory_only == ends_as_directory(normalized_pattern(pattern))
        },
        Err(error) => if pattern.len() == 0 {
            error.says("policy pattern cannot be empty"@)
        } else if pattern.contains('\0') {
            error.says("policy pattern cannot contain NUL"@)
        } else {
            &&& glob_error(glob_text(normalized_pattern(pattern))) matches Some(reason)
            &&& error.says(
                "invalid glob pattern "@ + normalized_pattern(pattern) + ": "@ + reason,
            )
        },
    }
}

impl PolicyPattern {
    /// The pattern that a text writes.
    pub fn new(pattern: &str) -> (result: Result<Self, Error>)
        ensures
            reads_pattern(pattern@, result),
            pattern@.len() > 0 && !pattern@.contains('\0') && is_plain(
                glob_text(normalized_pattern(pattern@)),
            ) ==> result is Ok,
    {
        let raw = match normalize_policy_pattern(pattern) {
            Ok(raw) => raw,
            Err(error) => {
                return Err(error);
            },
        };
        let glob = glob_pattern_for_match(raw.as_str());
        if let Some(reason) = glob_compile_error(glob.as_str()) {
            let mut message = "invalid glob pattern ".to_owned();
            message.append(raw.as_str());
            message.append(": ");
            message.append(reason.as_str());
            return Err(Error::msg(message));
        }
        proof {
            reveal_strlit("/");
            assert("/"@ =~= seq!['/']);
        }
        let directory_only = !text::same_text(raw.as_str(), "/") && text::ends_with_char(
            raw.as_str(),
            '/',
        );
        Ok(PolicyPattern { raw, directory_only })
    }

    /// The pattern whose text is that of a path.
    pub fn from_path(path: &SandboxPath) -> (pattern: Self)
        ensures
            pattern@ == (PatternView { text: path.text(), directory_only: false }),
    {
        PolicyPattern { raw: path.as_str().to_owned(), directory_only: false }
    }

    pub fn as_str(&self) -> (text: &str)
        ensures
            text@ == self@.text,
    {
        self.raw.as_str()
    }

    /// Whether the pattern selects the path.
    pub fn matches(&self, path: &SandboxPath, target_is_dir: bool) -> (matched: bool)
        ensures
            matched == selects(self@, path.text(), target_is_dir),
            plain_match(glob_text(self@.text), path.text()) matches Some(answer) ==> matched == (
            answer && (self@.directory_only ==> target_is_dir && path.text() != seq!['/'])),
    {
        proof {
            reveal_strlit("/");
            assert("/"@ =~= seq!['/']);
        }
        if self.directory_only && (!target_is_dir || text::same_text(path.as_str(), "/")) {
            return false;
        }
        let glob = glob_pattern_for_match(self.raw.as_str());
        match glob_match(glob.as_str(), path.as_str(), true, true, false) {
            Some(matched) => matched,
            None => false,
        }
    }
}

impl Clone for PolicyPattern {
    fn clone(&self) -> (copy: Self)
        ensures
            copy == *self,
    {
        PolicyPattern { raw: self.raw.clone(), directory_only: self.directory_only }
    }
}

impl PartialEq for PolicyPattern {
    fn eq(&self, other: &Self) -> (same: bool) {
        self.raw == other.raw && self.directory_only == other.directory_only
    }
}

impl vstd::std_specs::cmp::PartialEqSpecImpl for PolicyPattern {
    open spec fn obeys_eq_spec() -> bool {
        true
    }

    open spec fn eq_spec(&self, other: &Self) -> bool {
        self@ == other@
    }
}

impl Eq for PolicyPattern {
}

/// A rule that asks before an effect on the paths it selects.
#[derive(Debug)]
pub struct ProtectionRule {
    pub kind: ProtectionKind,
    pub pattern: PolicyPattern,
}

/// A rule that lets an effect on the paths it selects pass.
#[derive(Debug)]
pub struct PassthroughRule {
    pub kind: ProtectionKind,
    pub pattern: PolicyPattern,
}

/// What a rule is known by: its pattern and its kind.
pub type RuleKey = (PatternView, ProtectionKind);

/// The code that lists rules by pattern, then by kind.
pub open spec fn rule_code(key: RuleKey) -> Seq<int> {
    table::text_code(key.0.text) + seq![
        0,
        if key.0.directory_only {
            1int
        } else {
            0
        },
        key.1.rank(),
    ]
}

proof fn lemma_rule_code_injective(a: RuleKey, b: RuleKey)
    requires
        rule_code(a) == rule_code(b),
    ensures
        a == b,
{
    let x = rule_code(a);
    let y = rule_code(b);
    let n = table::text_code(a.0.text).len() as int;
    assert(x.len() == n + 3);
    assert(y.len() == table::text_code(b.0.text).len() + 3);
    assert(x.take(n) =~= table::text_code(a.0.text));
    assert(y.take(n) =~= table::text_code(b.0.text));
    table::lemma_text_code_injective(a.0.text, b.0.text);
    assert(x[n + 1] == y[n + 1]);
    assert(x[n + 2] == y[n + 2]);
    assert(a.0 =~= b.0);
}

fn rule_code_of(pattern: &PolicyPattern, kind: ProtectionKind) -> (code: Vec<u64>)
    ensures
        table::numbers(code@) == rule_code((pattern@, kind)),
{
    let mut code: Vec<u64> = Vec::new();
    table::push_text_code(&mut code, pattern.raw.as_str());
    code.push(0);
    if pattern.directory_only {
        code.push(1);
    } else {
        code.push(0);
    }
    match kind {
        ProtectionKind::Read => code.push(0),
        ProtectionKind::Write => code.push(1),
        ProtectionKind::Metadata => code.push(2),
        ProtectionKind::Xattr => code.push(3),
    }
    assert(table::numbers(code@) =~= rule_code((pattern@, kind)));
    code
}

impl ProtectionRule {
    /// Whether the rule's pattern selects the path.
    pub fn matches(&self, path: &SandboxPath, target_is_dir: bool) -> (matched: bool)
        ensures
            matched == selects(self.pattern@, path.text(), target_is_dir),
    {
        self.pattern.matches(path, target_is_dir)
    }
}

impl Clone for ProtectionRule {
    fn clone(&self) -> (copy: Self)
        ensures
            copy == *self,
    {
        ProtectionRule { kind: self.kind, pattern: self.pattern.clone() }
    }
}

impl TableKey for ProtectionRule {
    type Key = RuleKey;

    open spec fn key(&self) -> RuleKey {
        (self.pattern@, self.kind)
    }

    open spec fn code(key: RuleKey) -> Seq<int> {
        rule_code(key)
    }

    proof fn lemma_code_injective(a: RuleKey, b: RuleKey) {
        lemma_rule_code_injective(a, b);
    }

    fn code_of(&self) -> (code: Vec<u64>) {
        rule_code_of(&self.pattern, self.kind)
    }
}

impl PassthroughRule {
    /// Whether the rule's pattern selects the path.
    pub fn matches(&self, path: &SandboxPath, target_is_dir: bool) -> (matched: bool)
        ensures
            matched == selects(self.pattern@, path.text(), target_is_dir),
    {
        self.pattern.matches(path, target_is_dir)
    }
}

impl Clone for PassthroughRule {
    fn clone(&self) -> (copy: Self)
        ensures
            copy == *self,
    {
        PassthroughRule { kind: self.kind, pattern: self.pattern.clone() }
    }
}

impl TableKey for PassthroughRule {
    type Key = RuleKey;

    open spec fn key(&self) -> RuleKey {
        (self.pattern@, self.kind)
    }

    open spec fn code(key: RuleKey) -> Seq<int> {
        rule_code(key)
    }

    proof fn lemma_code_injective(a: RuleKey, b: RuleKey) {
        lemma_rule_code_injective(a, b);
    }

    fn code_of(&self) -> (code: Vec<u64>) {
        rule_code_of(&self.pattern, self.kind)
    }
}

/// What adding or removing a rule did.
#[derive(Clone, Copy, Debug, PartialEq, Eq, Structural)]
pub enum ProtectionRuleResult {
    Added,
    AlreadyPresent,
    Removed,
    NotPresent,
}

impl ProtectionRuleResult {
    /// The name of the result in log lines.
    pub open spec fn name(self) -> Seq<char> {
        match self {
            ProtectionRuleResult::Added => "added"@,
            ProtectionRuleResult::AlreadyPresent => "already-present"@,
            ProtectionRuleResult::Removed => "removed"@,
            ProtectionRuleResult::NotPresent => "not-present"@,
        }
    }

    pub fn log_name(self) -> (name: &'static str)
        ensures
            name@ == self.name(),
    {
        match self {
            ProtectionRuleResult::Added => "added",
            ProtectionRuleResult::AlreadyPresent => "already-present",
            ProtectionRuleResult::Removed => "removed",
            ProtectionRuleResult::NotPresent => "not-present",
        }
    }
}

} // verus!
