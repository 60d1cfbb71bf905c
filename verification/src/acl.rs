//! Resolved access control lists.

use crate::label::{LabelPattern, clone_patterns, pattern_texts};
use crate::remote::RemoteUrlPattern;
use vstd::prelude::*;

verus! {

/// The context in which a command may be called.
#[derive(Debug, PartialEq, Eq)]
pub enum ExecutionContext {
    /// The application's own pages.
    Local,
    /// Pages whose URL the pattern admits.
    Remote {
        /// The URL pattern.
        url: RemoteUrlPattern,
    },
}

/// What an execution context is: the application's own pages, or the text of a
/// URL pattern.
#[verifier::ext_equal]
pub enum ContextView {
    Local,
    Remote(Seq<char>),
}

impl View for ExecutionContext {
    type V = ContextView;

    open spec fn view(&self) -> ContextView {
        match self {
            ExecutionContext::Local => ContextView::Local,
            ExecutionContext::Remote { url } => ContextView::Remote(url@),
        }
    }
}

impl Default for ExecutionContext {
    fn default() -> (context: Self)
        ensures
            context@ == ContextView::Local,
    {
        ExecutionContext::Local
    }
}

impl Clone for ExecutionContext {
    fn clone(&self) -> (copy: Self)
        ensures
            copy@ == self@,
    {
        match self {
            ExecutionContext::Local => ExecutionContext::Local,
            ExecutionContext::Remote { url } => ExecutionContext::Remote { url: url.clone() },
        }
    }
}

/// An entry of an access control list: where a command may be called.
#[derive(Debug, PartialEq, Eq)]
pub struct ResolvedCommand {
    /// The context of the call.
    pub context: ExecutionContext,
    /// Patterns over the label of the calling window.
    pub windows: Vec<LabelPattern>,
    /// Patterns over the label of the calling webview.
    pub webviews: Vec<LabelPattern>,
    /// The scope that comes with the entry.
    pub scope_id: Option<u64>,
}

/// What an entry says, over texts.
#[verifier::ext_equal]
pub struct CommandView {
    pub context: ContextView,
    pub windows: Seq<Seq<char>>,
    pub webviews: Seq<Seq<char>>,
    pub scope_id: Option<u64>,
}

impl View for ResolvedCommand {
    type V = CommandView;

    open spec fn view(&self) -> CommandView {
        CommandView {
            context: self.context@,
            windows: pattern_texts(self.windows@),
            webviews: pattern_texts(self.webviews@),
            scope_id: self.scope_id,
        }
    }
}

/// What these entries say.
pub open spec fn command_views(commands: Seq<ResolvedCommand>) -> Seq<CommandView> {
    commands.map_values(|command: ResolvedCommand| command@)
}

impl Default for ResolvedCommand {
    fn default() -> (command: Self)
        ensures
            command@ == (CommandView {
                context: ContextView::Local,
                windows: Seq::empty(),
                webviews: Seq::empty(),
                scope_id: None,
            }),
    {
        let command = ResolvedCommand {
            context: ExecutionContext::default(),
            windows: Vec::new(),
            webviews: Vec::new(),
            scope_id: None,
        };
        assert(pattern_texts(command.windows@) =~= Seq::empty());
        assert(pattern_texts(command.webviews@) =~= Seq::empty());
        command
    }
}

impl Clone for ResolvedCommand {
    fn clone(&self) -> (copy: Self)
        ensures
            copy@ == self@,
    {
        ResolvedCommand {
            context: self.context.clone(),
            windows: clone_patterns(&self.windows),
            webviews: clone_patterns(&self.webviews),
            scope_id: self.scope_id,
        }
    }
}

/// What these pairs of a command and its entries say.
pub open spec fn pair_views(
    pairs: Seq<(String, Vec<ResolvedCommand>)>,
) -> Seq<(Seq<char>, Seq<CommandView>)> {
    pairs.map_values(|pair: (String, Vec<ResolvedCommand>)| (pair.0@, command_views(pair.1@)))
}

/// The table that pairs are collected into: of two pairs with the same command
/// the later one counts.
pub open spec fn collected(pairs: Seq<(Seq<char>, Seq<CommandView>)>) -> Map<
    Seq<char>,
    Seq<CommandView>,
>
    decreases pairs.len(),
{
    if pairs.len() == 0 {
        Map::empty()
    } else {
        collected(pairs.drop_last()).insert(pairs.last().0, pairs.last().1)
    }
}

/// The entries of each command.
#[derive(Debug)]
pub struct CommandTable {
    pairs: Vec<(String, Vec<ResolvedCommand>)>,
}

impl View for CommandTable {
    type V = Map<Seq<char>, Seq<CommandView>>;

    closed spec fn view(&self) -> Map<Seq<char>, Seq<CommandView>> {
        collected(pair_views(self.pairs@))
    }
}

/// Whether no command stands in two of these pairs.
spec fn no_command_twice(pairs: Seq<(Seq<char>, Seq<CommandView>)>) -> bool {
    forall|i: int, j: int| 0 <= i < j < pairs.len() ==> pairs[i].0 != pairs[j].0
}

/// A command is in the table exactly where some pair has it.
proof fn lemma_collected_domain(pairs: Seq<(Seq<char>, Seq<CommandView>)>, command: Seq<char>)
    ensures
        collected(pairs).dom().contains(command) <==> exists|i: int|
            0 <= i < pairs.len() && #[trigger] pairs[i].0 == command,
    decreases pairs.len(),
{
    if pairs.len() > 0 {
        let rest = pairs.drop_last();
        lemma_collected_domain(rest, command);
        if collected(rest).dom().contains(command) {
            let i = choose|i: int| 0 <= i < rest.len() && #[trigger] rest[i].0 == command;
            assert(pairs[i].0 == command);
        }
        if exists|i: int| 0 <= i < pairs.len() && #[trigger] pairs[i].0 == command {
            let i = choose|i: int| 0 <= i < pairs.len() && #[trigger] pairs[i].0 == command;
            if i < rest.len() {
                assert(rest[i].0 == command);
            }
        }
    }
}

/// Where no command stands twice, each pair is in the table.
proof fn lemma_collected_entry(pairs: Seq<(Seq<char>, Seq<CommandView>)>, i: int)
    requires
        no_command_twice(pairs),
        0 <= i < pairs.len(),
    ensures
        collected(pairs).dom().contains(pairs[i].0),
        collected(pairs)[pairs[i].0] == pairs[i].1,
    decreases pairs.len(),
{
    let rest = pairs.drop_last();
    if i < rest.len() {
        assert(no_command_twice(rest)) by {
            assert forall|k: int, l: int| 0 <= k < l < rest.len() implies rest[k].0
                != rest[l].0 by {
                assert(pairs[k].0 != pairs[l].0);
            }
        }
        lemma_collected_entry(rest, i);
        assert(pairs[i].0 != pairs[pairs.len() - 1].0);
    }
}

/// The last pair with a command is the one whose entries the table holds.
proof fn lemma_collected_last(pairs: Seq<(Seq<char>, Seq<CommandView>)>, at: int)
    requires
        0 <= at < pairs.len(),
        forall|i: int| at < i < pairs.len() ==> (#[trigger] pairs[i]).0 != pairs[at].0,
    ensures
        collected(pairs)[pairs[at].0] == pairs[at].1,
    decreases pairs.len(),
{
    if at < pairs.len() - 1 {
        assert(pairs[pairs.len() - 1].0 != pairs[at].0);
        lemma_collected_last(pairs.drop_last(), at);
    }
}

/// What the table of these pairs has, and what it holds.
proof fn lemma_table_of_pairs(pairs: Seq<(String, Vec<ResolvedCommand>)>)
    ensures
        forall|command: Seq<char>| #[trigger]
            collected(pair_views(pairs)).dom().contains(command) <==> exists|i: int|
                0 <= i < pairs.len() && (#[trigger] pairs[i]).0@ == command,
        forall|i: int|
            0 <= i < pairs.len() && (forall|j: int|
                i < j < pairs.len() ==> (#[trigger] pairs[j]).0@ != pairs[i].0@) ==> collected(
                pair_views(pairs),
            )[(#[trigger] pairs[i]).0@] == command_views(pairs[i].1@),
{
    let views = pair_views(pairs);
    assert forall|command: Seq<char>| #[trigger]
        collected(views).dom().contains(command) <==> exists|i: int|
            0 <= i < pairs.len() && (#[trigger] pairs[i]).0@ == command by {
        lemma_collected_domain(views, command);
        if exists|i: int| 0 <= i < pairs.len() && (#[trigger] pairs[i]).0@ == command {
            let i = choose|i: int| 0 <= i < pairs.len() && (#[trigger] pairs[i]).0@ == command;
            assert(views[i].0 == command);
        }
        if exists|i: int| 0 <= i < views.len() && #[trigger] views[i].0 == command {
            let i = choose|i: int| 0 <= i < views.len() && #[trigger] views[i].0 == command;
            assert(pairs[i].0@ == command);
        }
    }
    assert forall|i: int|
        0 <= i < pairs.len() && (forall|j: int|
            i < j < pairs.len() ==> (#[trigger] pairs[j]).0@ != pairs[i].0@) implies collected(
        views,
    )[(#[trigger] pairs[i]).0@] == command_views(pairs[i].1@) by {
        assert forall|j: int| i < j < views.len() implies (#[trigger] views[j]).0 != views[i].0 by {
            assert(pairs[j].0@ != pairs[i].0@);
        }
        lemma_collected_last(views, i);
    }
}

impl CommandTable {
    #[verifier::type_invariant]
    spec fn wf(self) -> bool {
        no_command_twice(pair_views(self.pairs@))
    }

    /// The table that these pairs are collected into.
    pub fn from_pairs(pairs: Vec<(String, Vec<ResolvedCommand>)>) -> (table: CommandTable)
        ensures
            table@ == collected(pair_views(pairs@)),
            forall|command: Seq<char>| #[trigger]
                table@.dom().contains(command) <==> exists|i: int|
                    0 <= i < pairs@.len() && (#[trigger] pairs@[i]).0@ == command,
            forall|i: int|
                0 <= i < pairs@.len() && (forall|j: int|
                    i < j < pairs@.len() ==> (#[trigger] pairs@[j]).0@ != pairs@[i].0@)
                    ==> table@[(#[trigger] pairs@[i]).0@].len() == pairs@[i].1@.len() && forall|k: int|
                    0 <= k < pairs@[i].1@.len() ==> table@[pairs@[i].0@][k]
                        == (#[trigger] pairs@[i].1@[k])@,
    {
        proof {
            lemma_table_of_pairs(pairs@);
        }
        let mut pairs = pairs;
        let ghost all = pair_views(pairs@);
        let mut kept: Vec<(String, Vec<ResolvedCommand>)> = Vec::new();
        assert(collected(pair_views(pairs@)).union_prefer_right(collected(pair_views(kept@)))
            =~= collected(all));
        while pairs.len() > 0
            invariant
                no_command_twice(pair_views(kept@)),
                collected(pair_views(pairs@)).union_prefer_right(collected(pair_views(kept@)))
                    == collected(all),
            decreases pairs.len(),
        {
            let ghost before = pairs@;
            let ghost kept_before = kept@;
            let pair = pairs.pop().unwrap();
            let ghost command = pair.0@;
            proof {
                assert(pair_views(before).drop_last() =~= pair_views(pairs@));
                lemma_collected_domain(pair_views(kept@), command);
            }
            if position_of(&kept, &pair.0).is_none() {
                kept.push(pair);
                proof {
                    let views = pair_views(kept@);
                    assert(views.drop_last() =~= pair_views(kept_before));
                    assert forall|i: int, j: int| 0 <= i < j < views.len() implies views[i].0
                        != views[j].0 by {
                        assert(pair_views(kept_before)[i].0 != command);
                        if j < kept_before.len() {
                            assert(pair_views(kept_before)[j].0 == views[j].0);
                        }
                    }
                }
            }
            assert(collected(pair_views(pairs@)).union_prefer_right(collected(pair_views(kept@)))
                =~= collected(pair_views(before)).union_prefer_right(
                collected(pair_views(kept_before)),
            ));
        }
        assert(collected(pair_views(pairs@)).union_prefer_right(collected(pair_views(kept@)))
            =~= collected(pair_views(kept@)));
        CommandTable { pairs: kept }
    }

    /// The entries of a command, if the table has it.
    pub fn get(&self, command: &str) -> (entries: Option<&Vec<ResolvedCommand>>)
        ensures
            match entries {
                Some(entries) => self@.dom().contains(command@) && self@[command@]
                    == command_views(entries@),
                None => !self@.dom().contains(command@),
            },
            entries matches Some(entries) ==> self@[command@].len() == entries@.len() && forall|
                k: int,
            |
                0 <= k < entries@.len() ==> self@[command@][k] == (#[trigger] entries@[k])@,
    {
        proof {
            use_type_invariant(self);
            lemma_collected_domain(pair_views(self.pairs@), command@);
        }
        let command: String = command.to_owned();
        match position_of(&self.pairs, &command) {
            Some(at) => {
                proof {
                    lemma_collected_entry(pair_views(self.pairs@), at as int);
                }
                Some(&self.pairs[at].1)
            },
            None => None,
        }
    }
}

/// The position of the first pair with this command.
fn position_of(pairs: &Vec<(String, Vec<ResolvedCommand>)>, command: &String) -> (at: Option<
    usize,
>)
    ensures
        match at {
            Some(at) => at < pairs@.len() && pair_views(pairs@)[at as int].0 == command@,
            None => forall|i: int|
                0 <= i < pairs@.len() ==> (#[trigger] pair_views(pairs@)[i]).0 != command@,
        },
{
    for i in 0..pairs.len()
        invariant
            forall|j: int| 0 <= j < i ==> (#[trigger] pair_views(pairs@)[j]).0 != command@,
    {
        if pairs[i].0 == *command {
            return Some(i);
        }
    }
    None
}

/// A resolved access control list.
#[derive(Debug)]
pub struct Resolved {
    /// The entries that allow each command.
    pub allowed_commands: CommandTable,
    /// The entries that deny each command.
    pub denied_commands: CommandTable,
}

} // verus!
