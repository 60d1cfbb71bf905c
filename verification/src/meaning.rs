//! What the parts of a decision come to, on characters, positions and texts.

use crate::acl::{
    CommandView, ContextView, ExecutionContext, ResolvedCommand, collected, command_views,
    pair_views,
};
use crate::authority::{
    AuthorityView, Origin, OriginView, admitting, context_admits, entry_admits, entry_matches,
    matching, resolve,
};
use crate::label::{
    LabelPattern, glob_match, glob_valid, has_separator, is_label_pattern, is_simple,
    pattern_admits, pattern_texts, simple_match, some_pattern_admits,
};
use crate::laws::{law_granted_iff, law_last_pair_counts, law_no_pair_no_entries};
use crate::remote::{url_pattern_admits, url_pattern_match};
use vstd::prelude::*;

verus! {

/// An origin is local, or remote at the text of its URL.
pub proof fn law_origin_view(origin: Origin)
    ensures
        match origin {
            Origin::Local => origin@ == OriginView::Local,
            Origin::Remote { url } => origin@ == OriginView::Remote(url@),
        },
{
}

/// A context is local, or remote with the text of its URL pattern.
pub proof fn law_context_view(context: ExecutionContext)
    ensures
        match context {
            ExecutionContext::Local => context@ == ContextView::Local,
            ExecutionContext::Remote { url } => context@ == ContextView::Remote(url@),
        },
{
}

/// The texts of patterns are their texts, one by one.
pub proof fn law_pattern_texts(patterns: Seq<LabelPattern>)
    ensures
        pattern_texts(patterns).len() == patterns.len(),
        forall|i: int|
            0 <= i < patterns.len() ==> #[trigger] pattern_texts(patterns)[i] == patterns[i]@,
{
}

/// An entry says what its context, its patterns and its scope say.
pub proof fn law_entry_view(entry: ResolvedCommand)
    ensures
        entry@.context == entry.context@,
        entry@.scope_id == entry.scope_id,
        entry@.windows.len() == entry.windows@.len(),
        forall|i: int|
            0 <= i < entry.windows@.len() ==> #[trigger] entry@.windows[i] == entry.windows@[i]@,
        entry@.webviews.len() == entry.webviews@.len(),
        forall|i: int|
            0 <= i < entry.webviews@.len() ==> #[trigger] entry@.webviews[i] == entry.webviews@[i]@,
{
}

/// Entries say what each of them says.
pub proof fn law_command_views(commands: Seq<ResolvedCommand>)
    ensures
        command_views(commands).len() == commands.len(),
        forall|i: int|
            0 <= i < commands.len() ==> #[trigger] command_views(commands)[i] == commands[i]@,
{
}

/// A table of pairs has a command exactly where the name of some pair is spelled
/// like it.
pub proof fn law_table_has_the_names(
    pairs: Seq<(String, Vec<ResolvedCommand>)>,
    command: Seq<char>,
)
    ensures
        collected(pair_views(pairs)).dom().contains(command) <==> exists|i: int|
            0 <= i < pairs.len() && (#[trigger] pairs[i]).0@ == command,
{
    let views = pair_views(pairs);
    if exists|i: int| 0 <= i < pairs.len() && (#[trigger] pairs[i]).0@ == command {
        let i = choose|i: int| 0 <= i < pairs.len() && (#[trigger] pairs[i]).0@ == command;
        let last = lemma_last_pair(pairs, command, i);
        assert(views[last].0 == command);
        assert forall|j: int| last < j < views.len() implies (#[trigger] views[j]).0 != command by {
            assert(pairs[j].0@ != command);
        }
        law_last_pair_counts(views, command, last);
    } else {
        assert forall|j: int| 0 <= j < views.len() implies (#[trigger] views[j]).0 != command by {
            assert(pairs[j].0@ != command);
        }
        law_no_pair_no_entries(views, command);
    }
}

/// The last pair with a command.
proof fn lemma_last_pair(
    pairs: Seq<(String, Vec<ResolvedCommand>)>,
    command: Seq<char>,
    at: int,
) -> (last: int)
    requires
        0 <= at < pairs.len(),
        pairs[at].0@ == command,
    ensures
        0 <= last < pairs.len(),
        pairs[last].0@ == command,
        forall|i: int| last < i < pairs.len() ==> (#[trigger] pairs[i]).0@ != command,
    decreases pairs.len() - at,
{
    if exists|i: int| at < i < pairs.len() && (#[trigger] pairs[i]).0@ == command {
        let next = choose|i: int| at < i < pairs.len() && (#[trigger] pairs[i]).0@ == command;
        lemma_last_pair(pairs, command, next)
    } else {
        at
    }
}

/// A table of pairs holds under a name what the entries of the last pair with
/// that name say, one by one.
pub proof fn law_table_holds_the_last_entries(
    pairs: Seq<(String, Vec<ResolvedCommand>)>,
    at: int,
)
    requires
        0 <= at < pairs.len(),
        forall|i: int| at < i < pairs.len() ==> (#[trigger] pairs[i]).0@ != pairs[at].0@,
    ensures
        collected(pair_views(pairs)).dom().contains(pairs[at].0@),
        collected(pair_views(pairs))[pairs[at].0@].len() == pairs[at].1@.len(),
        forall|k: int|
            0 <= k < pairs[at].1@.len() ==> #[trigger] collected(
                pair_views(pairs),
            )[pairs[at].0@][k] == pairs[at].1@[k]@,
{
    let views = pair_views(pairs);
    let command = pairs[at].0@;
    assert(views[at].0 == command);
    assert forall|i: int| at < i < views.len() implies (#[trigger] views[i]).0 != command by {
        assert(pairs[i].0@ != command);
    }
    law_last_pair_counts(views, command, at);
    assert(views[at].1 == command_views(pairs[at].1@));
}

/// A call from the application's own pages falls under the local context and no
/// other.
pub proof fn law_local_origin_falls_under(context: ContextView)
    ensures
        context_admits(context, OriginView::Local) <==> context == ContextView::Local,
{
}

/// A call from a page falls under a remote context exactly where the pattern
/// admits the URL of the page, and never under the local context.
pub proof fn law_remote_origin_falls_under(pattern: Seq<char>, url: Seq<char>)
    ensures
        context_admits(ContextView::Remote(pattern), OriginView::Remote(url))
            <==> url_pattern_admits(pattern, url),
        !context_admits(ContextView::Local, OriginView::Remote(url)),
{
}

/// Some of the patterns admits a label exactly where one of them does.
pub proof fn law_some_pattern_admits(patterns: Seq<Seq<char>>, label: Seq<char>)
    ensures
        some_pattern_admits(patterns, label) <==> exists|i: int|
            0 <= i < patterns.len() && pattern_admits(#[trigger] patterns[i], label),
{
    if some_pattern_admits(patterns, label) {
        let i = choose|i: int| 0 <= i < patterns.len() && #[trigger] pattern_admits(patterns[i], label);
        assert(pattern_admits(patterns[i], label));
    }
    if exists|i: int| 0 <= i < patterns.len() && pattern_admits(#[trigger] patterns[i], label) {
        let i = choose|i: int| 0 <= i < patterns.len() && pattern_admits(#[trigger] patterns[i], label);
        assert(pattern_admits(patterns[i], label));
    }
}

/// An entry admits a call exactly where its context does, and a pattern of its
/// windows admits the label of the window or a pattern of its webviews that of
/// the webview.
pub proof fn law_entry_admits_by_context_and_label(
    entry: CommandView,
    window: Seq<char>,
    webview: Seq<char>,
    origin: OriginView,
)
    ensures
        entry_admits(entry, window, webview, origin) <==> {
            &&& context_admits(entry.context, origin)
            &&& {
                ||| exists|i: int|
                    0 <= i < entry.windows.len() && pattern_admits(
                        #[trigger] entry.windows[i],
                        window,
                    )
                ||| exists|i: int|
                    0 <= i < entry.webviews.len() && pattern_admits(
                        #[trigger] entry.webviews[i],
                        webview,
                    )
            }
        },
{
    law_some_pattern_admits(entry.windows, window);
    law_some_pattern_admits(entry.webviews, webview);
}

/// An entry matches a call of the application's own pages exactly where it is
/// local and a glob of its windows or of its webviews matches.
pub proof fn law_entry_matches_local(entry: CommandView, window: Seq<char>, webview: Seq<char>)
    ensures
        entry_matches(entry, window, webview, OriginView::Local) <==> {
            &&& entry.context == ContextView::Local
            &&& {
                ||| exists|i: int|
                    0 <= i < entry.windows.len() && glob_match(#[trigger] entry.windows[i], window)
                ||| exists|i: int|
                    0 <= i < entry.webviews.len() && glob_match(
                        #[trigger] entry.webviews[i],
                        webview,
                    )
            }
        },
{
}

/// An entry matches a call of a page exactly where it is remote, its URL pattern
/// matches the URL of the page, and a glob of its windows or of its webviews
/// matches.
pub proof fn law_entry_matches_remote(
    entry: CommandView,
    window: Seq<char>,
    webview: Seq<char>,
    url: Seq<char>,
)
    ensures
        entry_matches(entry, window, webview, OriginView::Remote(url)) <==> {
            &&& entry.context is Remote
            &&& url_pattern_match(entry.context->0, url)
            &&& {
                ||| exists|i: int|
                    0 <= i < entry.windows.len() && glob_match(#[trigger] entry.windows[i], window)
                ||| exists|i: int|
                    0 <= i < entry.webviews.len() && glob_match(
                        #[trigger] entry.webviews[i],
                        webview,
                    )
            }
        },
{
}

/// Where each kept item stood: the positions go up, hold the kept items, and
/// leave out no item that is to be kept.
proof fn lemma_filter_positions<A>(items: Seq<A>, keep: spec_fn(A) -> bool) -> (at: Seq<int>)
    ensures
        at.len() == items.filter(keep).len(),
        forall|k: int|
            0 <= k < at.len() ==> 0 <= #[trigger] at[k] < items.len() && items.filter(keep)[k]
                == items[at[k]] && keep(items[at[k]]),
        forall|k: int, l: int| 0 <= k < l < at.len() ==> #[trigger] at[k] < #[trigger] at[l],
        forall|i: int| 0 <= i < items.len() && keep(#[trigger] items[i]) ==> at.contains(i),
    decreases items.len(),
{
    reveal(Seq::filter);
    if items.len() == 0 {
        Seq::empty()
    } else {
        let rest = items.drop_last();
        let last = items.len() - 1;
        let before = lemma_filter_positions(rest, keep);
        if keep(items[last]) {
            let at = before.push(last);
            assert forall|i: int| 0 <= i < items.len() && keep(#[trigger] items[i]) implies at.contains(
                i,
            ) by {
                if i < last {
                    assert(rest[i] == items[i]);
                    let k = choose|k: int| 0 <= k < before.len() && before[k] == i;
                    assert(at[k] == i);
                } else {
                    assert(at[before.len() as int] == i);
                }
            }
            assert forall|k: int| 0 <= k < at.len() implies 0 <= #[trigger] at[k] < items.len()
                && items.filter(keep)[k] == items[at[k]] && keep(items[at[k]]) by {
                if k < before.len() {
                    assert(at[k] == before[k]);
                    assert(rest[before[k]] == items[before[k]]);
                }
            }
            at
        } else {
            assert forall|i: int| 0 <= i < items.len() && keep(
                #[trigger] items[i],
            ) implies before.contains(i) by {
                assert(rest[i] == items[i]);
            }
            assert forall|k: int| 0 <= k < before.len() implies 0 <= #[trigger] before[k]
                < items.len() && items.filter(keep)[k] == items[before[k]] && keep(
                items[before[k]],
            ) by {
                assert(rest[before[k]] == items[before[k]]);
            }
            before
        }
    }
}

/// What is returned is entries of the command in their order, each admitting the
/// call, and no entry that admits it is left out. The positions of the returned
/// entries go up.
pub proof fn law_returned_entries_keep_their_order(
    authority: AuthorityView,
    command: Seq<char>,
    window: Seq<char>,
    webview: Seq<char>,
    origin: OriginView,
) -> (at: Seq<int>)
    requires
        resolve(authority, command, window, webview, origin) is Some,
    ensures
        !authority.denied.dom().contains(command),
        authority.allowed.dom().contains(command),
        at.len() > 0,
        at.len() == (resolve(authority, command, window, webview, origin)->0).len(),
        forall|k: int|
            0 <= k < at.len() ==> {
                &&& 0 <= #[trigger] at[k] < authority.allowed[command].len()
                &&& (resolve(authority, command, window, webview, origin)->0)[k]
                    == authority.allowed[command][at[k]]
                &&& entry_admits(authority.allowed[command][at[k]], window, webview, origin)
            },
        forall|k: int, l: int| 0 <= k < l < at.len() ==> #[trigger] at[k] < #[trigger] at[l],
        forall|i: int|
            0 <= i < authority.allowed[command].len() && entry_admits(
                #[trigger] authority.allowed[command][i],
                window,
                webview,
                origin,
            ) ==> at.contains(i),
{
    let keep = |entry: CommandView| entry_admits(entry, window, webview, origin);
    lemma_filter_positions(authority.allowed[command], keep)
}

/// Entries that are filtered keep their order: each that is left admits the
/// call, and none that admits it is missing.
pub proof fn law_admitting_keeps_order(
    entries: Seq<CommandView>,
    window: Seq<char>,
    webview: Seq<char>,
    origin: OriginView,
) -> (at: Seq<int>)
    ensures
        at.len() == admitting(entries, window, webview, origin).len(),
        forall|k: int|
            0 <= k < at.len() ==> {
                &&& 0 <= #[trigger] at[k] < entries.len()
                &&& admitting(entries, window, webview, origin)[k] == entries[at[k]]
                &&& entry_admits(entries[at[k]], window, webview, origin)
            },
        forall|k: int, l: int| 0 <= k < l < at.len() ==> #[trigger] at[k] < #[trigger] at[l],
        forall|i: int|
            0 <= i < entries.len() && entry_admits(#[trigger] entries[i], window, webview, origin)
                ==> at.contains(i),
{
    let keep = |entry: CommandView| entry_admits(entry, window, webview, origin);
    lemma_filter_positions(entries, keep)
}

/// The same of the entries that match a call.
pub proof fn law_matching_keeps_order(
    entries: Seq<CommandView>,
    window: Seq<char>,
    webview: Seq<char>,
    origin: OriginView,
) -> (at: Seq<int>)
    ensures
        at.len() == matching(entries, window, webview, origin).len(),
        forall|k: int|
            0 <= k < at.len() ==> {
                &&& 0 <= #[trigger] at[k] < entries.len()
                &&& matching(entries, window, webview, origin)[k] == entries[at[k]]
                &&& entry_matches(entries[at[k]], window, webview, origin)
            },
        forall|k: int, l: int| 0 <= k < l < at.len() ==> #[trigger] at[k] < #[trigger] at[l],
        forall|i: int|
            0 <= i < entries.len() && entry_matches(#[trigger] entries[i], window, webview, origin)
                ==> at.contains(i),
{
    let keep = |entry: CommandView| entry_matches(entry, window, webview, origin);
    lemma_filter_positions(entries, keep)
}

/// A command is refused where none of its entries has a pattern for windows that
/// admits the label of the window, or one for webviews that admits that of the
/// webview.
pub proof fn law_no_label_no_access(
    authority: AuthorityView,
    command: Seq<char>,
    window: Seq<char>,
    webview: Seq<char>,
    origin: OriginView,
)
    requires
        forall|i: int, j: int|
            0 <= i < authority.allowed[command].len() && 0 <= j
                < authority.allowed[command][i].windows.len() ==> !pattern_admits(
                #[trigger] authority.allowed[command][i].windows[j],
                window,
            ),
        forall|i: int, j: int|
            0 <= i < authority.allowed[command].len() && 0 <= j
                < authority.allowed[command][i].webviews.len() ==> !pattern_admits(
                #[trigger] authority.allowed[command][i].webviews[j],
                webview,
            ),
    ensures
        resolve(authority, command, window, webview, origin) is None,
{
    law_granted_iff(authority, command, window, webview, origin);
    let entries = authority.allowed[command];
    assert forall|i: int| 0 <= i < entries.len() implies !#[trigger] entry_admits(
        entries[i],
        window,
        webview,
        origin,
    ) by {
        law_entry_admits_by_context_and_label(entries[i], window, webview, origin);
    }
}

/// The decision on a call, for an authority over pairs of names and entries: a
/// name among the denied pairs refuses it, a name that is in no allowed pair
/// refuses it, and otherwise the entries of the last pair of that name decide.
pub proof fn law_decision_on_pairs(
    allowed: Seq<(String, Vec<ResolvedCommand>)>,
    denied: Seq<(String, Vec<ResolvedCommand>)>,
    command: Seq<char>,
    window: Seq<char>,
    webview: Seq<char>,
    origin: OriginView,
    at: int,
)
    ensures
        ({
            let authority = AuthorityView {
                allowed: collected(pair_views(allowed)),
                denied: collected(pair_views(denied)),
            };
            let decision = resolve(authority, command, window, webview, origin);
            &&& (exists|i: int| 0 <= i < denied.len() && (#[trigger] denied[i]).0@ == command)
                ==> decision is None
            &&& (forall|i: int| 0 <= i < allowed.len() ==> (#[trigger] allowed[i]).0@ != command)
                ==> decision is None
            &&& {
                &&& forall|i: int| 0 <= i < denied.len() ==> (#[trigger] denied[i]).0@ != command
                &&& 0 <= at < allowed.len() && allowed[at].0@ == command
                &&& forall|i: int|
                    at < i < allowed.len() ==> (#[trigger] allowed[i]).0@ != command
            } ==> (decision is Some <==> exists|k: int|
                0 <= k < allowed[at].1@.len() && entry_admits(
                    (#[trigger] allowed[at].1@[k])@,
                    window,
                    webview,
                    origin,
                ))
        }),
{
    let authority = AuthorityView {
        allowed: collected(pair_views(allowed)),
        denied: collected(pair_views(denied)),
    };
    let decision = resolve(authority, command, window, webview, origin);
    law_table_has_the_names(allowed, command);
    law_table_has_the_names(denied, command);
    law_granted_iff(authority, command, window, webview, origin);
    if {
        &&& forall|i: int| 0 <= i < denied.len() ==> (#[trigger] denied[i]).0@ != command
        &&& 0 <= at < allowed.len() && allowed[at].0@ == command
        &&& forall|i: int| at < i < allowed.len() ==> (#[trigger] allowed[i]).0@ != command
    } {
        law_table_holds_the_last_entries(allowed, at);
        let held = authority.allowed[command];
        let entries = allowed[at].1@;
        if decision is Some {
            let k = choose|k: int|
                0 <= k < held.len() && #[trigger] entry_admits(held[k], window, webview, origin);
            assert(held[k] == entries[k]@);
        }
        if exists|k: int|
            0 <= k < entries.len() && entry_admits(
                (#[trigger] entries[k])@,
                window,
                webview,
                origin,
            ) {
            let k = choose|k: int|
                0 <= k < entries.len() && entry_admits(
                    (#[trigger] entries[k])@,
                    window,
                    webview,
                    origin,
                );
            assert(held[k] == entries[k]@);
            assert(entry_admits(held[k], window, webview, origin));
        }
    }
}

/// A pattern of literal characters, `?` and single `*` is a label pattern;
/// another text is one exactly where the glob compiles.
pub proof fn law_label_pattern_texts(pattern: Seq<char>)
    ensures
        glob_valid(pattern) ==> is_label_pattern(pattern),
        (forall|i: int| 0 <= i < pattern.len() ==> #[trigger] pattern[i] != '[') && (forall|i: int|
            0 <= i < pattern.len() - 1 ==> !(#[trigger] pattern[i] == '*' && pattern[i + 1] == '*'))
            ==> is_label_pattern(pattern),
        is_label_pattern(pattern) && !glob_valid(pattern) ==> {
            &&& forall|i: int| 0 <= i < pattern.len() ==> #[trigger] pattern[i] != '['
            &&& forall|i: int|
                0 <= i < pattern.len() - 1 ==> !(#[trigger] pattern[i] == '*' && pattern[i + 1]
                    == '*')
        },
{
    lemma_simple(pattern);
}

/// A pattern is simple where it has no bracket and no double star.
proof fn lemma_simple(pattern: Seq<char>)
    ensures
        is_simple(pattern) <==> {
            &&& forall|i: int| 0 <= i < pattern.len() ==> #[trigger] pattern[i] != '['
            &&& forall|i: int|
                0 <= i < pattern.len() - 1 ==> !(#[trigger] pattern[i] == '*' && pattern[i + 1]
                    == '*')
        },
{
    if is_simple(pattern) {
        assert forall|i: int| 0 <= i < pattern.len() - 1 implies !(#[trigger] pattern[i] == '*'
            && pattern[i + 1] == '*') by {
            let j = i + 1;
            assert(!(pattern[i] == '*' && pattern[j] == '*'));
        }
    }
    if {
        &&& forall|i: int| 0 <= i < pattern.len() ==> #[trigger] pattern[i] != '['
        &&& forall|i: int|
            0 <= i < pattern.len() - 1 ==> !(#[trigger] pattern[i] == '*' && pattern[i + 1] == '*')
    } {
        assert forall|i: int, j: int|
            0 <= i < pattern.len() && j == i + 1 && j < pattern.len() implies !(pattern[i] == '*'
            && pattern[j] == '*') by {
            assert(!(pattern[i] == '*' && pattern[i + 1] == '*'));
        }
    }
}

/// A pattern with a bracket, a double star or a path separator admits what the
/// glob matches.
pub proof fn law_other_patterns_admit_by_glob(pattern: Seq<char>, label: Seq<char>)
    requires
        ({
            ||| exists|i: int|
                0 <= i < pattern.len() && (#[trigger] pattern[i] == '[' || pattern[i] == '/'
                    || pattern[i] == '\\')
            ||| exists|i: int|
                0 <= i < pattern.len() - 1 && #[trigger] pattern[i] == '*' && pattern[i + 1] == '*'
        }),
    ensures
        pattern_admits(pattern, label) <==> glob_match(pattern, label),
{
    lemma_simple(pattern);
}

/// A label that can be cut at these positions, one piece for each character of
/// the pattern, is admitted: any piece for `*`, any one character for `?`, and
/// the character itself for another.
pub proof fn law_cut_label_is_admitted(pattern: Seq<char>, label: Seq<char>, cuts: Seq<int>)
    requires
        forall|i: int|
            0 <= i < pattern.len() ==> #[trigger] pattern[i] != '[' && pattern[i] != '/'
                && pattern[i] != '\\',
        forall|i: int|
            0 <= i < pattern.len() - 1 ==> !(#[trigger] pattern[i] == '*' && pattern[i + 1] == '*'),
        cuts.len() == pattern.len() + 1,
        cuts[0] == 0,
        cuts[pattern.len() as int] == label.len(),
        forall|i: int| 0 <= i < cuts.len() ==> 0 <= #[trigger] cuts[i] <= label.len(),
        forall|i: int|
            0 <= i < pattern.len() ==> if #[trigger] pattern[i] == '*' {
                cuts[i] <= cuts[i + 1]
            } else {
                cuts[i + 1] == cuts[i] + 1 && (pattern[i] == '?' || pattern[i] == label[cuts[i]])
            },
    ensures
        pattern_admits(pattern, label),
{
    lemma_simple(pattern);
    lemma_cut_matches(pattern, label, cuts);
}

/// The same of a simple match.
proof fn lemma_cut_matches(pattern: Seq<char>, label: Seq<char>, cuts: Seq<int>)
    requires
        cuts.len() == pattern.len() + 1,
        cuts[0] == 0,
        cuts[pattern.len() as int] == label.len(),
        forall|i: int| 0 <= i < cuts.len() ==> 0 <= #[trigger] cuts[i] <= label.len(),
        forall|i: int|
            0 <= i < pattern.len() ==> if #[trigger] pattern[i] == '*' {
                cuts[i] <= cuts[i + 1]
            } else {
                cuts[i + 1] == cuts[i] + 1 && (pattern[i] == '?' || pattern[i] == label[cuts[i]])
            },
    ensures
        simple_match(pattern, label),
    decreases pattern.len(),
{
    if pattern.len() > 0 {
        let first = pattern[0];
        let cut = cuts[1];
        let rest = pattern.drop_first();
        let tail = label.skip(cut);
        let moved = Seq::new(rest.len() + 1, |i: int| cuts[i + 1] - cut);
        assert(cuts[0] <= cut);
        lemma_cuts_go_up(pattern, label, cuts, 1);
        assert forall|i: int| 0 <= i < rest.len() implies if #[trigger] rest[i] == '*' {
            moved[i] <= moved[i + 1]
        } else {
            moved[i + 1] == moved[i] + 1 && (rest[i] == '?' || rest[i] == tail[moved[i]])
        } by {
            assert(rest[i] == pattern[i + 1]);
            assert(cuts[i + 2] <= label.len());
            assert(cut <= cuts[i + 1]);
        }
        assert forall|i: int| 0 <= i < moved.len() implies 0 <= #[trigger] moved[i] <= tail.len() by {
            assert(cut <= cuts[i + 1] <= label.len());
        }
        lemma_cut_matches(rest, tail, moved);
        if first != '*' {
            assert(tail =~= label.drop_first());
        }
    }
}

/// Cuts go up.
proof fn lemma_cuts_go_up(pattern: Seq<char>, label: Seq<char>, cuts: Seq<int>, from: int)
    requires
        cuts.len() == pattern.len() + 1,
        0 <= from < cuts.len(),
        forall|i: int|
            0 <= i < pattern.len() ==> if #[trigger] pattern[i] == '*' {
                cuts[i] <= cuts[i + 1]
            } else {
                cuts[i + 1] == cuts[i] + 1 && (pattern[i] == '?' || pattern[i] == label[cuts[i]])
            },
    ensures
        forall|i: int| from <= i < cuts.len() ==> cuts[from] <= #[trigger] cuts[i],
    decreases cuts.len() - from,
{
    if from + 1 < cuts.len() {
        lemma_cuts_go_up(pattern, label, cuts, from + 1);
        let c = pattern[from];
        assert(cuts[from] <= cuts[from + 1]);
    }
}

/// A label that a pattern without brackets, double stars and path separators
/// admits can be cut: any piece for `*`, any one character for `?`, and the
/// character itself for another.
pub proof fn law_admitted_label_can_be_cut(pattern: Seq<char>, label: Seq<char>) -> (cuts: Seq<int>)
    requires
        forall|i: int|
            0 <= i < pattern.len() ==> #[trigger] pattern[i] != '[' && pattern[i] != '/'
                && pattern[i] != '\\',
        forall|i: int|
            0 <= i < pattern.len() - 1 ==> !(#[trigger] pattern[i] == '*' && pattern[i + 1] == '*'),
        pattern_admits(pattern, label),
    ensures
        cuts.len() == pattern.len() + 1,
        cuts[0] == 0,
        cuts[pattern.len() as int] == label.len(),
        forall|i: int| 0 <= i < cuts.len() ==> 0 <= #[trigger] cuts[i] <= label.len(),
        forall|i: int|
            0 <= i < pattern.len() ==> if #[trigger] pattern[i] == '*' {
                cuts[i] <= cuts[i + 1]
            } else {
                cuts[i + 1] == cuts[i] + 1 && (pattern[i] == '?' || pattern[i] == label[cuts[i]])
            },
{
    lemma_simple(pattern);
    lemma_match_can_be_cut(pattern, label)
}

/// The same of a simple match.
proof fn lemma_match_can_be_cut(pattern: Seq<char>, label: Seq<char>) -> (cuts: Seq<int>)
    requires
        simple_match(pattern, label),
    ensures
        cuts.len() == pattern.len() + 1,
        cuts[0] == 0,
        cuts[pattern.len() as int] == label.len(),
        forall|i: int| 0 <= i < cuts.len() ==> 0 <= #[trigger] cuts[i] <= label.len(),
        forall|i: int|
            0 <= i < pattern.len() ==> if #[trigger] pattern[i] == '*' {
                cuts[i] <= cuts[i + 1]
            } else {
                cuts[i + 1] == cuts[i] + 1 && (pattern[i] == '?' || pattern[i] == label[cuts[i]])
            },
    decreases pattern.len(),
{
    if pattern.len() == 0 {
        seq![0]
    } else {
        let rest = pattern.drop_first();
        let cut = if pattern[0] == '*' {
            choose|k: int| 0 <= k <= label.len() && simple_match(rest, #[trigger] label.skip(k))
        } else {
            1
        };
        let tail = label.skip(cut);
        if pattern[0] != '*' {
            assert(tail =~= label.drop_first());
        }
        let later = lemma_match_can_be_cut(rest, tail);
        let cuts = Seq::new(
            pattern.len() + 1,
            |i: int|
                if i == 0 {
                    0
                } else {
                    later[i - 1] + cut
                },
        );
        assert forall|i: int| 0 <= i < cuts.len() implies 0 <= #[trigger] cuts[i] <= label.len() by {
            if i > 0 {
                assert(0 <= later[i - 1] <= tail.len());
            }
        }
        assert forall|i: int| 0 <= i < pattern.len() implies if #[trigger] pattern[i] == '*' {
            cuts[i] <= cuts[i + 1]
        } else {
            cuts[i + 1] == cuts[i] + 1 && (pattern[i] == '?' || pattern[i] == label[cuts[i]])
        } by {
            if i > 0 {
                assert(rest[i - 1] == pattern[i]);
                assert(0 <= later[i - 1] <= tail.len());
                assert(0 <= later[i] <= tail.len());
            }
        }
        cuts
    }
}

/// A pattern without wildcards, brackets and path separators is a label pattern,
/// and admits the label that is spelled like it and no other.
pub proof fn law_literal_pattern_admits_itself_only(text: Seq<char>, label: Seq<char>)
    requires
        forall|i: int|
            0 <= i < text.len() ==> {
                &&& #[trigger] text[i] != '*' && text[i] != '?' && text[i] != '['
                &&& text[i] != '/' && text[i] != '\\'
            },
    ensures
        is_label_pattern(text),
        pattern_admits(text, label) <==> text == label,
{
    law_label_pattern_texts(text);
    if pattern_admits(text, label) {
        let cuts = law_admitted_label_can_be_cut(text, label);
        lemma_literal_cuts(text, label, cuts, text.len() as int);
        assert forall|i: int| 0 <= i < text.len() implies text[i] == label[i] by {
            lemma_literal_cuts(text, label, cuts, i);
        }
        assert(text =~= label);
    }
    if text == label {
        let cuts = Seq::new(text.len() + 1, |i: int| i);
        law_cut_label_is_admitted(text, label, cuts);
    }
}

/// Without wildcards each cut is one further on.
proof fn lemma_literal_cuts(text: Seq<char>, label: Seq<char>, cuts: Seq<int>, at: int)
    requires
        0 <= at <= text.len(),
        forall|i: int| 0 <= i < text.len() ==> #[trigger] text[i] != '*' && text[i] != '?',
        cuts.len() == text.len() + 1,
        cuts[0] == 0,
        forall|i: int|
            0 <= i < text.len() ==> if #[trigger] text[i] == '*' {
                cuts[i] <= cuts[i + 1]
            } else {
                cuts[i + 1] == cuts[i] + 1 && (text[i] == '?' || text[i] == label[cuts[i]])
            },
    ensures
        cuts[at] == at,
        at < text.len() ==> text[at] == label[at],
    decreases at,
{
    if at > 0 {
        lemma_literal_cuts(text, label, cuts, at - 1);
        let c = text[at - 1];
        assert(cuts[at - 1 + 1] == cuts[at - 1] + 1);
    }
    if at < text.len() {
        let c = text[at];
        assert(c != '*' && c != '?');
    }
}

} // verus!
