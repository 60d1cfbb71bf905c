//! What random inputs for an authority are drawn from: strategies for origins,
//! command names and labels, and random draws from them.

use crate::authority::{Origin, OriginView};
use crate::remote::{Url, is_host_split_at, is_url, is_url_of};
use crate::text::{chars_of, is_digit, is_ldh, is_lower, starts_with, string_of};
use proptest::strategy::{Just, Strategy, Union, ValueTree};
use proptest::test_runner::{Config, RngAlgorithm, TestRng, TestRunner};
use vstd::prelude::*;

verus! {

/// The runner of `proptest`, which holds the source of randomness.
#[verifier::external_type_specification]
#[verifier::external_body]
pub struct ExTestRunner(TestRunner);

/// A source of random draws. Its runner always has the generator of
/// `start_draws`, as nothing else makes one and none is handed in or out: a draw
/// tries numbers until one fits, and does not end on a generator that repeats
/// itself.
pub struct Draws {
    seed: [u8; 32],
    runner: TestRunner,
}

impl View for Draws {
    type V = Seq<u8>;

    /// The seed of the source.
    closed spec fn view(&self) -> Seq<u8> {
        self.seed@
    }
}

/// `TestRunner::new_with_rng`, with the default configuration and the `TestRng`
/// of the ChaCha algorithm, which takes a seed of this length. The source holds
/// the seed; which numbers follow from it is left unsaid.
#[verifier::external_body]
fn start_draws(seed: [u8; 32]) -> (draws: Draws)
    ensures
        draws@ == seed@,
{
    let rng = TestRng::from_seed(RngAlgorithm::ChaCha, &seed);
    Draws { seed, runner: TestRunner::new_with_rng(Config::default(), rng) }
}

impl Draws {
    /// The source of draws with this seed.
    pub fn seeded(seed: [u8; 32]) -> (draws: Draws)
        ensures
            draws@ == seed@,
    {
        start_draws(seed)
    }
}

/// Whether a character lies in one of these inclusive ranges.
pub open spec fn in_ranges(ranges: Seq<(char, char)>, c: char) -> bool {
    exists|i: int| 0 <= i < ranges.len() && (#[trigger] ranges[i]).0 <= c <= ranges[i].1
}

/// What a strategy for texts is made of.
#[verifier::ext_equal]
pub struct TextsView {
    /// What every text begins with.
    pub lead: Seq<char>,
    /// The ranges of the characters behind the lead.
    pub ranges: Seq<(char, char)>,
    /// The least number of characters behind the lead.
    pub min: nat,
    /// The greatest number of characters behind the lead.
    pub max: nat,
    /// What no text begins with.
    pub barred: Option<Seq<char>>,
}

impl TextsView {
    /// Whether there is anything to draw from: a range, none of them empty, and
    /// a number of characters that there is room for.
    pub open spec fn can_be_drawn(self) -> bool {
        &&& 0 < self.ranges.len()
        &&& forall|i: int|
            0 <= i < self.ranges.len() ==> (#[trigger] self.ranges[i]).0 <= self.ranges[i].1
        &&& self.min <= self.max <= u16::MAX
    }

    /// Whether these can be the characters behind the lead.
    pub open spec fn draws(self, chars: Seq<char>) -> bool {
        &&& self.min <= chars.len() <= self.max
        &&& forall|i: int| 0 <= i < chars.len() ==> in_ranges(self.ranges, #[trigger] chars[i])
    }

    /// Whether a text is not barred.
    pub open spec fn admits(self, text: Seq<char>) -> bool {
        match self.barred {
            Some(prefix) => !prefix.is_prefix_of(text),
            None => true,
        }
    }

    /// The texts of the strategy.
    pub open spec fn yields(self, text: Seq<char>) -> bool {
        exists|chars: Seq<char>|
            #[trigger] self.draws(chars) && text == self.lead + chars && self.admits(text)
    }

    /// Whether no text that is put together is barred.
    pub open spec fn bars_nothing(self) -> bool {
        forall|chars: Seq<char>| #[trigger] self.draws(chars) ==> self.admits(self.lead + chars)
    }
}

/// A strategy for texts.
#[derive(Debug)]
pub struct Texts {
    lead: Vec<char>,
    ranges: Vec<(char, char)>,
    min: usize,
    max: usize,
    barred: Option<Vec<char>>,
}

impl View for Texts {
    type V = TextsView;

    closed spec fn view(&self) -> TextsView {
        TextsView {
            lead: self.lead@,
            ranges: self.ranges@,
            min: self.min as nat,
            max: self.max as nat,
            barred: match self.barred {
                Some(prefix) => Some(prefix@),
                None => None,
            },
        }
    }
}

/// A value of `proptest::collection::vec`, over a `Union` of
/// `proptest::char::range`: as many characters as the strategy says, each from
/// one of its ranges. None of these three ever rejects a value, so that the draw
/// succeeds.
#[verifier::external_body]
fn draw_chars(draws: &mut Draws, texts: &Texts) -> (chars: Vec<char>)
    requires
        texts@.can_be_drawn(),
    ensures
        texts@.draws(chars@),
        final(draws)@ == old(draws)@,
{
    let ranges = texts.ranges.iter();
    let element = Union::new(ranges.map(|range| proptest::char::range(range.0, range.1)));
    let strategy = proptest::collection::vec(element, texts.min..=texts.max);
    strategy.new_tree(&mut draws.runner).unwrap().current()
}

/// A value of the same strategy behind `Strategy::prop_filter`, which draws
/// again until `Texts::keeps` holds. `None` stands for a draw that the runner
/// gave up: it rejects a bounded number of values in all, so that where some are
/// barred it is left to chance, and to what the runner drew before, whether a
/// draw succeeds.
#[verifier::external_body]
fn draw_kept_chars(draws: &mut Draws, texts: &Texts, reason: String) -> (chars: Option<
    Vec<char>,
>)
    requires
        texts@.can_be_drawn(),
    ensures
        chars matches Some(chars) ==> texts@.draws(chars@) && texts@.admits(
            texts@.lead + chars@,
        ),
        texts@.bars_nothing() ==> chars is Some,
        final(draws)@ == old(draws)@,
{
    let ranges = texts.ranges.iter();
    let element = Union::new(ranges.map(|range| proptest::char::range(range.0, range.1)));
    let strategy = proptest::collection::vec(element, texts.min..=texts.max);
    let kept = strategy.prop_filter(reason, |chars| texts.keeps(chars));
    kept.new_tree(&mut draws.runner).ok().map(|tree| tree.current())
}

impl Texts {
    #[verifier::type_invariant]
    spec fn wf(self) -> bool {
        self@.can_be_drawn()
    }

    /// The text with these characters behind the lead.
    pub fn text_of(&self, chars: &Vec<char>) -> (text: String)
        ensures
            text@ == self@.lead + chars@,
    {
        string_of(&self.lead).concat(string_of(chars).as_str())
    }

    /// Whether the text with these characters behind the lead is not barred.
    pub fn keeps(&self, chars: &Vec<char>) -> (kept: bool)
        ensures
            kept == self@.admits(self@.lead + chars@),
    {
        match &self.barred {
            Some(prefix) => !starts_with(&chars_of(self.text_of(chars).as_str()), prefix),
            None => true,
        }
    }

    /// Why a text is barred, if any can be.
    pub fn reason(&self) -> (reason: Option<String>)
        ensures
            match reason {
                Some(reason) => self@.barred is Some && reason@ == "must not start with "@
                    + self@.barred->0,
                None => self@.barred is None,
            },
    {
        match &self.barred {
            Some(prefix) => Some(
                "must not start with ".to_owned().concat(string_of(prefix).as_str()),
            ),
            None => None,
        }
    }

    /// Draws a text of the strategy. `None` comes only where some are barred, if
    /// the runner gives up.
    pub fn draw(&self, draws: &mut Draws) -> (text: Option<String>)
        ensures
            text matches Some(text) ==> self@.yields(text@),
            self@.bars_nothing() ==> text is Some,
            final(draws)@ == old(draws)@,
    {
        proof {
            use_type_invariant(self);
        }
        match self.reason() {
            Some(reason) => match draw_kept_chars(draws, self, reason) {
                Some(chars) => Some(self.text_of(&chars)),
                None => None,
            },
            None => Some(self.text_of(&draw_chars(draws, self))),
        }
    }

    /// The ranges of the characters behind the lead.
    pub fn ranges(&self) -> (ranges: &Vec<(char, char)>)
        ensures
            ranges@ == self@.ranges,
    {
        &self.ranges
    }

    /// The least and the greatest number of characters behind the lead.
    pub fn bounds(&self) -> (bounds: (usize, usize))
        ensures
            bounds.0 == self@.min,
            bounds.1 == self@.max,
    {
        (self.min, self.max)
    }
}

/// The strategy for command names: one to eight lower case letters.
pub open spec fn command_names() -> TextsView {
    TextsView {
        lead: Seq::empty(),
        ranges: seq![('a', 'z')],
        min: 1,
        max: 8,
        barred: None,
    }
}

/// The ranges of the characters of labels.
pub open spec fn label_characters() -> Seq<(char, char)> {
    seq![('a', 'z'), ('0', '9'), ('-', '-')]
}

/// The strategy for labels of any shape: one to ten characters.
pub open spec fn any_labels() -> TextsView {
    TextsView {
        lead: Seq::empty(),
        ranges: label_characters(),
        min: 1,
        max: 10,
        barred: None,
    }
}

/// The strategy for labels that start with `main-`: up to five characters
/// behind it.
pub open spec fn main_dash_labels() -> TextsView {
    TextsView { lead: "main-"@, ranges: label_characters(), min: 0, max: 5, barred: None }
}

/// The strategy for labels that do not start with `main-`: those of any shape,
/// but for the ones that do.
pub open spec fn non_main_labels() -> TextsView {
    TextsView {
        lead: Seq::empty(),
        ranges: label_characters(),
        min: 1,
        max: 10,
        barred: Some("main-"@),
    }
}

/// One to eight lower case letters.
pub open spec fn is_command_name(name: Seq<char>) -> bool {
    &&& 1 <= name.len() <= 8
    &&& forall|i: int| 0 <= i < name.len() ==> is_lower(#[trigger] name[i])
}

/// `main-`, then up to five lower case letters, digits and hyphens.
pub open spec fn is_main_dash_label(label: Seq<char>) -> bool {
    exists|suffix: Seq<char>|
        {
            &&& suffix.len() <= 5
            &&& forall|i: int| 0 <= i < suffix.len() ==> is_ldh(#[trigger] suffix[i])
            &&& label == #[trigger] ("main-"@ + suffix)
        }
}

/// One to ten lower case letters, digits and hyphens.
pub open spec fn is_any_label(label: Seq<char>) -> bool {
    &&& 1 <= label.len() <= 10
    &&& forall|i: int| 0 <= i < label.len() ==> is_ldh(#[trigger] label[i])
}

/// One to ten lower case letters, digits and hyphens, not with `main-` first.
pub open spec fn is_non_main_label(label: Seq<char>) -> bool {
    is_any_label(label) && !"main-"@.is_prefix_of(label)
}

/// What lies in the range of command names.
proof fn lemma_name_range(c: char)
    ensures
        in_ranges(command_names().ranges, c) <==> is_lower(c),
{
    let ranges = command_names().ranges;
    if is_lower(c) {
        assert(ranges[0].0 <= c <= ranges[0].1);
    }
}

/// What lies in the ranges of labels.
proof fn lemma_label_ranges(c: char)
    ensures
        in_ranges(label_characters(), c) <==> is_ldh(c),
{
    let ranges = label_characters();
    if is_lower(c) {
        assert(ranges[0].0 <= c <= ranges[0].1);
    } else if is_digit(c) {
        assert(ranges[1].0 <= c <= ranges[1].1);
    } else if c == '-' {
        assert(ranges[2].0 <= c <= ranges[2].1);
    }
}

/// A strategy without a lead yields what it draws and does not bar.
proof fn lemma_yields_without_lead(texts: TextsView, text: Seq<char>)
    requires
        texts.lead == Seq::<char>::empty(),
    ensures
        texts.yields(text) <==> texts.draws(text) && texts.admits(text),
{
    assert(texts.lead + text =~= text);
    if texts.yields(text) {
        let chars = choose|chars: Seq<char>|
            #[trigger] texts.draws(chars) && text == texts.lead + chars && texts.admits(text);
        assert(texts.lead + chars =~= chars);
    }
}

/// The command names.
pub proof fn lemma_command_names(name: Seq<char>)
    ensures
        command_names().yields(name) <==> is_command_name(name),
{
    lemma_yields_without_lead(command_names(), name);
    assert forall|i: int| 0 <= i < name.len() implies (in_ranges(
        command_names().ranges,
        #[trigger] name[i],
    ) <==> is_lower(name[i])) by {
        lemma_name_range(name[i]);
    }
}

/// The characters of labels.
proof fn lemma_label_characters(texts: TextsView, chars: Seq<char>)
    requires
        texts.ranges == label_characters(),
    ensures
        texts.draws(chars) <==> {
            &&& texts.min <= chars.len() <= texts.max
            &&& forall|i: int| 0 <= i < chars.len() ==> is_ldh(#[trigger] chars[i])
        },
{
    assert forall|i: int| 0 <= i < chars.len() implies (in_ranges(
        texts.ranges,
        #[trigger] chars[i],
    ) <==> is_ldh(chars[i])) by {
        lemma_label_ranges(chars[i]);
    }
}

/// The labels of any shape.
pub proof fn lemma_any_labels(label: Seq<char>)
    ensures
        any_labels().yields(label) <==> is_any_label(label),
{
    lemma_yields_without_lead(any_labels(), label);
    lemma_label_characters(any_labels(), label);
}

/// The labels that do not start with `main-`.
pub proof fn lemma_non_main_labels(label: Seq<char>)
    ensures
        non_main_labels().yields(label) <==> is_non_main_label(label),
{
    lemma_yields_without_lead(non_main_labels(), label);
    lemma_label_characters(non_main_labels(), label);
}

/// The labels that start with `main-`.
pub proof fn lemma_main_dash_labels(label: Seq<char>)
    ensures
        main_dash_labels().yields(label) <==> is_main_dash_label(label),
{
    let texts = main_dash_labels();
    if texts.yields(label) {
        let chars = choose|chars: Seq<char>|
            #[trigger] texts.draws(chars) && label == texts.lead + chars && texts.admits(label);
        lemma_label_characters(texts, chars);
        assert(label == "main-"@ + chars);
    }
    if is_main_dash_label(label) {
        let suffix = choose|suffix: Seq<char>|
            {
                &&& suffix.len() <= 5
                &&& forall|i: int| 0 <= i < suffix.len() ==> is_ldh(#[trigger] suffix[i])
                &&& label == #[trigger] ("main-"@ + suffix)
            };
        lemma_label_characters(texts, suffix);
        assert(texts.draws(suffix));
    }
}

/// The ranges of the characters of labels.
fn label_ranges() -> (ranges: Vec<(char, char)>)
    ensures
        ranges@ == label_characters(),
{
    vec![('a', 'z'), ('0', '9'), ('-', '-')]
}

/// The strategy for command names.
pub fn command_name() -> (texts: Texts)
    ensures
        texts@ == command_names(),
        texts@.can_be_drawn() && texts@.bars_nothing(),
        forall|name: Seq<char>| #[trigger] texts@.yields(name) <==> is_command_name(name),
{
    proof {
        assert forall|name: Seq<char>| #[trigger]
            command_names().yields(name) <==> is_command_name(name) by {
            lemma_command_names(name);
        }
    }
    Texts { lead: Vec::new(), ranges: vec![('a', 'z')], min: 1, max: 8, barred: None }
}

/// The strategy for labels that start with `main-`.
pub fn main_dash_label() -> (texts: Texts)
    ensures
        texts@ == main_dash_labels(),
        texts@.can_be_drawn() && texts@.bars_nothing(),
        forall|label: Seq<char>| #[trigger] texts@.yields(label) <==> is_main_dash_label(label),
{
    proof {
        assert forall|label: Seq<char>| #[trigger]
            main_dash_labels().yields(label) <==> is_main_dash_label(label) by {
            lemma_main_dash_labels(label);
        }
    }
    Texts { lead: chars_of("main-"), ranges: label_ranges(), min: 0, max: 5, barred: None }
}

/// The strategy for labels that do not start with `main-`.
pub fn non_main_label() -> (texts: Texts)
    ensures
        texts@ == non_main_labels(),
        texts@.can_be_drawn(),
        forall|label: Seq<char>| #[trigger] texts@.yields(label) <==> is_non_main_label(label),
{
    proof {
        assert forall|label: Seq<char>| #[trigger]
            non_main_labels().yields(label) <==> is_non_main_label(label) by {
            lemma_non_main_labels(label);
        }
    }
    Texts {
        lead: Vec::new(),
        ranges: label_ranges(),
        min: 1,
        max: 10,
        barred: Some(chars_of("main-")),
    }
}

/// The strategy for labels of any shape.
pub fn any_label() -> (texts: Texts)
    ensures
        texts@ == any_labels(),
        texts@.can_be_drawn() && texts@.bars_nothing(),
        forall|label: Seq<char>| #[trigger] texts@.yields(label) <==> is_any_label(label),
{
    proof {
        assert forall|label: Seq<char>| #[trigger]
            any_labels().yields(label) <==> is_any_label(label) by {
            lemma_any_labels(label);
        }
    }
    Texts { lead: Vec::new(), ranges: label_ranges(), min: 1, max: 10, barred: None }
}

/// The regular expression of the URLs that are drawn.
pub open spec fn url_regex() -> Seq<char> {
    "https?://[a-z][a-z0-9-]{0,10}\\.[a-z]{2,5}"@
}

/// The regular expression of the URLs that are drawn.
pub fn remote_regex() -> (regex: &'static str)
    ensures
        regex@ == url_regex(),
{
    "https?://[a-z][a-z0-9-]{0,10}\\.[a-z]{2,5}"
}

/// A value of `proptest::string::string_regex`, which generates strings that
/// match the expression. It accepts this expression, which is made of literals,
/// character classes and bounded repetitions, and builds from them a strategy
/// that never rejects a value, so that the draw succeeds.
#[verifier::external_body]
fn draw_matching(draws: &mut Draws, regex: &str) -> (text: String)
    requires
        regex@ == url_regex(),
    ensures
        is_remote_text(text@),
        final(draws)@ == old(draws)@,
{
    let strategy = proptest::string::string_regex(regex).unwrap();
    strategy.new_tree(&mut draws.runner).unwrap().current()
}

/// An `http` or `https` URL of a host with a first label of one to eleven
/// characters and a second one of two to five letters.
pub open spec fn is_remote_text(text: Seq<char>) -> bool {
    exists|host: Seq<char>, dot: int|
        {
            &&& #[trigger] is_url_of(text, host)
            &&& #[trigger] is_host_split_at(host, dot)
            &&& dot <= 11
            &&& 2 <= host.len() - dot - 1 <= 5
        }
}

/// A remote origin at a URL that is drawn.
pub open spec fn is_remote_origin(origin: OriginView) -> bool {
    &&& origin is Remote
    &&& is_remote_text(origin->0)
    &&& is_url(origin->0)
}

/// Whether some text of a URL that can be drawn is not a URL after all.
pub open spec fn some_remote_text_is_refused() -> bool {
    exists|text: Seq<char>| #[trigger] is_remote_text(text) && !is_url(text)
}

/// A kind of origin.
#[derive(Debug, Clone, Copy, PartialEq, Eq)]
pub enum OriginKind {
    /// The application's own pages.
    Local,
    /// A page of another site.
    Remote,
}

/// The origins of a kind.
pub open spec fn kind_yields(kind: OriginKind, origin: OriginView) -> bool {
    match kind {
        OriginKind::Local => origin == OriginView::Local,
        OriginKind::Remote => is_remote_origin(origin),
    }
}

/// The origins of these kinds.
pub open spec fn kinds_yield(kinds: Seq<OriginKind>, origin: OriginView) -> bool {
    exists|i: int| 0 <= i < kinds.len() && kind_yields(#[trigger] kinds[i], origin)
}

/// A strategy for origins: one of several kinds, and then an origin of it.
#[derive(Debug)]
pub struct Origins {
    kinds: Vec<OriginKind>,
}

impl View for Origins {
    type V = Seq<OriginKind>;

    closed spec fn view(&self) -> Seq<OriginKind> {
        self.kinds@
    }
}

/// A value of `Union` over these kinds, each of them a `Just`: one of the
/// kinds. Neither ever rejects a value, so that the draw succeeds.
#[verifier::external_body]
fn draw_kind(draws: &mut Draws, kinds: &Vec<OriginKind>) -> (kind: OriginKind)
    requires
        kinds@.len() > 0,
    ensures
        kinds@.contains(kind),
        final(draws)@ == old(draws)@,
{
    Union::new(kinds.iter().map(|kind| Just(*kind))).new_tree(&mut draws.runner).unwrap().current()
}

/// The remote origin at the URL that `text` spells, if it spells one.
pub fn remote_origin_at(text: &str) -> (origin: Option<Origin>)
    ensures
        match origin {
            Some(origin) => is_url(text@) && origin@ == OriginView::Remote(text@),
            None => !is_url(text@),
        },
{
    match Url::parse(text) {
        Ok(url) => Some(Origin::Remote { url }),
        Err(_) => None,
    }
}

impl Origins {
    #[verifier::type_invariant]
    spec fn wf(self) -> bool {
        self.kinds@.len() > 0
    }

    /// The kinds of this strategy, and then those of another.
    pub fn or(self, other: Origins) -> (origins: Origins)
        ensures
            origins@ == self@ + other@,
    {
        proof {
            use_type_invariant(&self);
        }
        let mut kinds: Vec<OriginKind> = self.kinds;
        let mut more: Vec<OriginKind> = other.kinds;
        kinds.append(&mut more);
        Origins { kinds }
    }

    /// Draws an origin of the strategy; `None` where the text that was drawn for
    /// a remote one is no URL.
    pub fn draw(&self, draws: &mut Draws) -> (origin: Option<Origin>)
        ensures
            match origin {
                Some(origin) => kinds_yield(self@, origin@),
                None => self@.contains(OriginKind::Remote) && some_remote_text_is_refused(),
            },
            final(draws)@ == old(draws)@,
    {
        proof {
            use_type_invariant(self);
        }
        let kind = draw_kind(draws, &self.kinds);
        assert(exists|i: int| 0 <= i < self@.len() && self@[i] == kind);
        match kind {
            OriginKind::Local => Some(Origin::Local),
            OriginKind::Remote => {
                let text = draw_matching(draws, remote_regex());
                remote_origin_at(text.as_str())
            },
        }
    }

    /// The kinds of the strategy.
    pub fn kinds(&self) -> (kinds: &Vec<OriginKind>)
        ensures
            kinds@ == self@,
    {
        &self.kinds
    }
}

/// The strategy for the local origin.
pub fn local_origin() -> (origins: Origins)
    ensures
        origins@ == seq![OriginKind::Local],
        forall|origin: OriginView| #[trigger]
            kinds_yield(origins@, origin) <==> origin == OriginView::Local,
{
    assert(seq![OriginKind::Local][0] == OriginKind::Local);
    Origins { kinds: vec![OriginKind::Local] }
}

/// The strategy for remote origins.
pub fn remote_origin() -> (origins: Origins)
    ensures
        origins@ == seq![OriginKind::Remote],
        forall|origin: OriginView| #[trigger]
            kinds_yield(origins@, origin) <==> is_remote_origin(origin),
{
    assert(seq![OriginKind::Remote][0] == OriginKind::Remote);
    Origins { kinds: vec![OriginKind::Remote] }
}

/// The strategy for origins of both kinds.
pub fn any_origin() -> (origins: Origins)
    ensures
        origins@ == seq![OriginKind::Local, OriginKind::Remote],
        forall|origin: OriginView| #[trigger]
            kinds_yield(origins@, origin) <==> origin == OriginView::Local || is_remote_origin(
                origin,
            ),
{
    let origins = local_origin().or(remote_origin());
    assert(origins@ =~= seq![OriginKind::Local, OriginKind::Remote]);
    assert(origins@[0] == OriginKind::Local && origins@[1] == OriginKind::Remote);
    origins
}

} // verus!
