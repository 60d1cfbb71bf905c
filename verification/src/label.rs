//! Glob patterns over window and webview labels.

use crate::text::ParseError;
use vstd::prelude::*;

verus! {

/// Whether a glob pattern is made of literal characters, `?` and single `*`
/// only: no bracket expression, no `**`.
pub open spec fn is_simple(pattern: Seq<char>) -> bool {
    &&& forall|i: int| 0 <= i < pattern.len() ==> pattern[i] != '['
    &&& forall|i: int, j: int|
        0 <= i < pattern.len() && j == i + 1 && j < pattern.len() ==> !(pattern[i] == '*'
            && pattern[j] == '*')
}

/// Whether a text has a `/` or a `\`, which are path separators on some targets.
pub open spec fn has_separator(text: Seq<char>) -> bool {
    exists|i: int| 0 <= i < text.len() && (#[trigger] text[i] == '/' || text[i] == '\\')
}

/// What a simple pattern without separators matches: `?` any one character, `*`
/// any run of characters, another character itself.
pub open spec fn simple_match(pattern: Seq<char>, label: Seq<char>) -> bool
    decreases pattern.len(),
{
    if pattern.len() == 0 {
        label.len() == 0
    } else if pattern[0] == '*' {
        exists|k: int|
            0 <= k <= label.len() && simple_match(pattern.drop_first(), #[trigger] label.skip(k))
    } else {
        &&& label.len() > 0
        &&& pattern[0] == '?' || pattern[0] == label[0]
        &&& simple_match(pattern.drop_first(), label.drop_first())
    }
}

/// Whether `glob::Pattern::new` compiles this text.
pub uninterp spec fn glob_valid(pattern: Seq<char>) -> bool;

/// What `glob::Pattern::matches` answers for this pattern and this text. Which
/// characters it takes for path separators is fixed by the build target.
pub uninterp spec fn glob_match(pattern: Seq<char>, label: Seq<char>) -> bool;

/// The texts that are label patterns.
pub open spec fn is_label_pattern(pattern: Seq<char>) -> bool {
    is_simple(pattern) || glob_valid(pattern)
}

/// Whether a label pattern admits a label.
pub open spec fn pattern_admits(pattern: Seq<char>, label: Seq<char>) -> bool {
    if is_simple(pattern) && !has_separator(pattern) {
        simple_match(pattern, label)
    } else {
        glob_match(pattern, label)
    }
}

/// Whether some of these label patterns admits a label.
pub open spec fn some_pattern_admits(patterns: Seq<Seq<char>>, label: Seq<char>) -> bool {
    exists|i: int| 0 <= i < patterns.len() && #[trigger] pattern_admits(patterns[i], label)
}

/// `glob::Pattern::new`: whether it returns `Ok`. It refuses a text for a
/// bracket that is not closed and for a misplaced run of `*` only, hence no
/// simple text.
#[verifier::external_body]
fn glob_compiles(pattern: &str) -> (valid: bool)
    ensures
        valid == glob_valid(pattern@),
        is_simple(pattern@) ==> valid,
{
    glob::Pattern::new(pattern).is_ok()
}

/// `glob::Pattern::matches`, on a text that compiles, with its default
/// options: the match is case sensitive and takes separators and leading dots
/// for ordinary characters. A simple pattern matches as `simple_match` says,
/// unless it has a separator: on some targets a literal `/` and a literal `\`
/// match each other.
#[verifier::external_body]
fn glob_matches(pattern: &str, label: &str) -> (found: bool)
    requires
        is_label_pattern(pattern@),
    ensures
        found == glob_match(pattern@, label@),
        is_simple(pattern@) && !has_separator(pattern@) ==> found == simple_match(
            pattern@,
            label@,
        ),
{
    glob::Pattern::new(pattern).unwrap().matches(label)
}

/// A glob pattern over the labels of windows or webviews.
#[derive(Debug, PartialEq, Eq)]
pub struct LabelPattern {
    text: String,
}

impl View for LabelPattern {
    type V = Seq<char>;

    closed spec fn view(&self) -> Seq<char> {
        self.text@
    }
}

impl LabelPattern {
    #[verifier::type_invariant]
    spec fn wf(self) -> bool {
        is_label_pattern(self.text@)
    }

    /// The pattern that `text` spells.
    pub fn parse(text: &str) -> (parsed: Result<LabelPattern, ParseError>)
        ensures
            match parsed {
                Ok(pattern) => is_label_pattern(text@) && pattern@ == text@,
                Err(error) => !is_label_pattern(text@) && error == ParseError::LabelPattern,
            },
            parsed is Ok <==> glob_valid(text@),
    {
        if glob_compiles(text) {
            Ok(LabelPattern { text: text.to_owned() })
        } else {
            Err(ParseError::LabelPattern)
        }
    }

    /// Whether the pattern admits a label.
    pub fn matches(&self, label: &str) -> (found: bool)
        ensures
            found == pattern_admits(self@, label@),
            found == glob_match(self@, label@),
    {
        proof {
            use_type_invariant(self);
        }
        glob_matches(self.text.as_str(), label)
    }

    /// The text of the pattern.
    pub fn as_str(&self) -> (text: &str)
        ensures
            text@ == self@,
    {
        self.text.as_str()
    }
}

impl Clone for LabelPattern {
    fn clone(&self) -> (copy: Self)
        ensures
            copy@ == self@,
    {
        proof {
            use_type_invariant(self);
        }
        LabelPattern { text: self.text.clone() }
    }
}

/// The texts of these patterns.
pub open spec fn pattern_texts(patterns: Seq<LabelPattern>) -> Seq<Seq<char>> {
    patterns.map_values(|pattern: LabelPattern| pattern@)
}

/// Some of these patterns matches a label exactly where some of their texts does.
pub proof fn lemma_some_text_matches(patterns: Seq<LabelPattern>, label: Seq<char>)
    ensures
        (exists|i: int| 0 <= i < patterns.len() && glob_match((#[trigger] patterns[i])@, label))
            <==> (exists|i: int|
            0 <= i < pattern_texts(patterns).len() && glob_match(
                #[trigger] pattern_texts(patterns)[i],
                label,
            )),
{
    let texts = pattern_texts(patterns);
    if exists|i: int| 0 <= i < patterns.len() && glob_match((#[trigger] patterns[i])@, label) {
        let i = choose|i: int|
            0 <= i < patterns.len() && glob_match((#[trigger] patterns[i])@, label);
        assert(glob_match(texts[i], label));
    }
    if exists|i: int| 0 <= i < texts.len() && glob_match(#[trigger] texts[i], label) {
        let i = choose|i: int| 0 <= i < texts.len() && glob_match(#[trigger] texts[i], label);
        assert(glob_match(patterns[i]@, label));
    }
}

/// Whether some of these patterns admits a label.
pub fn any_matches(patterns: &Vec<LabelPattern>, label: &str) -> (found: bool)
    ensures
        found == some_pattern_admits(pattern_texts(patterns@), label@),
        found <==> exists|i: int|
            0 <= i < patterns@.len() && glob_match((#[trigger] patterns@[i])@, label@),
{
    let ghost texts = pattern_texts(patterns@);
    for i in 0..patterns.len()
        invariant
            texts == pattern_texts(patterns@),
            forall|j: int| 0 <= j < i ==> !#[trigger] pattern_admits(texts[j], label@),
            forall|j: int| 0 <= j < i ==> !glob_match((#[trigger] patterns@[j])@, label@),
    {
        if patterns[i].matches(label) {
            assert(pattern_admits(texts[i as int], label@));
            return true;
        }
    }
    false
}

/// A copy of these patterns.
pub fn clone_patterns(patterns: &Vec<LabelPattern>) -> (copy: Vec<LabelPattern>)
    ensures
        pattern_texts(copy@) == pattern_texts(patterns@),
{
    let mut copy: Vec<LabelPattern> = Vec::new();
    for i in 0..patterns.len()
        invariant
            copy@.len() == i,
            forall|j: int| 0 <= j < i ==> (#[trigger] copy@[j])@ == patterns@[j]@,
    {
        copy.push(patterns[i].clone());
    }
    assert(pattern_texts(copy@) =~= pattern_texts(patterns@));
    copy
}

} // verus!
