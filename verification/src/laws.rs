//! What the decisions of an authority guarantee.

use crate::acl::{CommandView, ContextView, collected};
use crate::authority::{
    AuthorityView, OriginView, admitting, context_admits, entry_admits, origin_text, resolve,
};
use crate::label::{
    has_separator, is_label_pattern, is_simple, pattern_admits, simple_match, some_pattern_admits,
};
use crate::remote::{
    dot_len, https_url, is_any_host, is_certain_url, is_double_dot_at, is_dropped,
    is_host_split_at, is_parser_safe, is_plain_host, is_plain_url, is_punycode, is_url, is_url_of,
    is_url_pattern, undropped, url_pattern_admits, url_str,
};
use crate::strategies::{
    OriginKind, any_labels, is_any_label, is_main_dash_label, kind_yields, kinds_yield, lemma_any_labels,
    lemma_main_dash_labels, lemma_non_main_labels, main_dash_labels, non_main_labels,
};
use crate::text::{is_ldh, occurs_at, occurs_in};
use vstd::prelude::*;

verus! {

/// A text without the characters that mean something in a glob pattern, and
/// without path separators.
pub open spec fn is_plain_text(text: Seq<char>) -> bool {
    &&& forall|i: int|
        0 <= i < text.len() ==> #[trigger] text[i] != '*' && text[i] != '?' && text[i] != '['
    &&& !has_separator(text)
}

/// Whether a pattern is a plain text and then `*`, and the text does not begin
/// the label.
pub open spec fn misses(pattern: Seq<char>, label: Seq<char>) -> bool {
    exists|prefix: Seq<char>|
        {
            &&& is_plain_text(prefix)
            &&& pattern == #[trigger] prefix.push('*')
            &&& !prefix.is_prefix_of(label)
        }
}

/// An access is granted exactly where the command is not denied, is known, and
/// has an entry that admits the call.
pub proof fn law_granted_iff(
    authority: AuthorityView,
    command: Seq<char>,
    window: Seq<char>,
    webview: Seq<char>,
    origin: OriginView,
)
    ensures
        resolve(authority, command, window, webview, origin) is Some <==> {
            &&& !authority.denied.dom().contains(command)
            &&& authority.allowed.dom().contains(command)
            &&& exists|i: int|
                0 <= i < authority.allowed[command].len() && #[trigger] entry_admits(
                    authority.allowed[command][i],
                    window,
                    webview,
                    origin,
                )
        },
{
    let entries = authority.allowed[command];
    law_filter_membership(entries, window, webview, origin);
    let kept = admitting(entries, window, webview, origin);
    if kept.len() > 0 {
        assert(kept.contains(kept[0]));
        let i = choose|i: int| 0 <= i < entries.len() && entries[i] == kept[0];
        assert(entry_admits(entries[i], window, webview, origin));
    }
    if exists|i: int|
        0 <= i < entries.len() && #[trigger] entry_admits(entries[i], window, webview, origin) {
        let i = choose|i: int|
            0 <= i < entries.len() && #[trigger] entry_admits(entries[i], window, webview, origin);
        assert(entries.contains(entries[i]));
        assert(kept.contains(entries[i]));
    }
}

/// An entry is kept exactly where it is among the entries and admits the call.
pub proof fn law_filter_membership(
    entries: Seq<CommandView>,
    window: Seq<char>,
    webview: Seq<char>,
    origin: OriginView,
)
    ensures
        forall|entry: CommandView| #[trigger]
            admitting(entries, window, webview, origin).contains(entry) <==> entries.contains(entry)
                && entry_admits(entry, window, webview, origin),
    decreases entries.len(),
{
    reveal(Seq::filter);
    let kept = admitting(entries, window, webview, origin);
    if entries.len() > 0 {
        let rest = entries.drop_last();
        let kept_rest = admitting(rest, window, webview, origin);
        law_filter_membership(rest, window, webview, origin);
        assert forall|entry: CommandView| #[trigger] kept.contains(entry) <==> entries.contains(
            entry,
        ) && entry_admits(entry, window, webview, origin) by {
            if kept.contains(entry) {
                let i = choose|i: int| 0 <= i < kept.len() && kept[i] == entry;
                if i < kept_rest.len() {
                    assert(kept_rest[i] == entry);
                    assert(kept_rest.contains(entry));
                    let j = choose|j: int| 0 <= j < rest.len() && rest[j] == entry;
                    assert(entries[j] == entry);
                } else {
                    assert(entries[entries.len() - 1] == entry);
                }
            }
            if entries.contains(entry) && entry_admits(entry, window, webview, origin) {
                let j = choose|j: int| 0 <= j < entries.len() && entries[j] == entry;
                if j < rest.len() {
                    assert(rest[j] == entry);
                    assert(kept_rest.contains(entry));
                    let i = choose|i: int| 0 <= i < kept_rest.len() && kept_rest[i] == entry;
                    assert(kept[i] == entry);
                } else {
                    assert(kept[kept.len() - 1] == entry);
                }
            }
        }
    }
}

/// Entries are judged one by one and keep their order and number: of two lists
/// in a row the entries that are kept of each are kept in a row, and a single
/// entry is kept exactly where it admits the call.
pub proof fn law_filter_is_entrywise(
    first: Seq<CommandView>,
    second: Seq<CommandView>,
    entry: CommandView,
    window: Seq<char>,
    webview: Seq<char>,
    origin: OriginView,
)
    ensures
        admitting(first + second, window, webview, origin) == admitting(
            first,
            window,
            webview,
            origin,
        ) + admitting(second, window, webview, origin),
        admitting(seq![entry], window, webview, origin) == if entry_admits(
            entry,
            window,
            webview,
            origin,
        ) {
            seq![entry]
        } else {
            Seq::empty()
        },
{
    let keep = |entry: CommandView| entry_admits(entry, window, webview, origin);
    Seq::filter_distributes_over_add(first, second, keep);
    reveal(Seq::filter);
    assert(seq![entry].drop_last() =~= Seq::empty());
    assert(Seq::<CommandView>::empty().filter(keep) =~= Seq::empty());
    assert(seq![entry].filter(keep) =~= if keep(entry) {
        seq![entry]
    } else {
        Seq::empty()
    });
}

/// What is returned is the entries that admit the call and no others, and at
/// least one.
pub proof fn law_returned_entries_are_those_that_match(
    authority: AuthorityView,
    command: Seq<char>,
    window: Seq<char>,
    webview: Seq<char>,
    origin: OriginView,
)
    requires
        resolve(authority, command, window, webview, origin) is Some,
    ensures
        ({
            let returned = resolve(authority, command, window, webview, origin)->0;
            &&& returned.len() > 0
            &&& forall|entry: CommandView| #[trigger]
                returned.contains(entry) <==> authority.allowed[command].contains(entry)
                    && entry_admits(entry, window, webview, origin)
        }),
{
    law_filter_membership(authority.allowed[command], window, webview, origin);
}

/// Where one entry of a command admits the call and none beside it does, that
/// entry alone is returned.
pub proof fn law_single_match_is_returned_alone(
    authority: AuthorityView,
    command: Seq<char>,
    window: Seq<char>,
    webview: Seq<char>,
    origin: OriginView,
    at: int,
)
    requires
        !authority.denied.dom().contains(command),
        authority.allowed.dom().contains(command),
        0 <= at < authority.allowed[command].len(),
        forall|i: int|
            0 <= i < authority.allowed[command].len() ==> (#[trigger] entry_admits(
                authority.allowed[command][i],
                window,
                webview,
                origin,
            ) <==> i == at),
    ensures
        resolve(authority, command, window, webview, origin) == Some(
            seq![authority.allowed[command][at]],
        ),
{
    let entries = authority.allowed[command];
    let before = entries.take(at);
    let entry = entries[at];
    let after = entries.skip(at + 1);
    assert(entries =~= before + seq![entry] + after);
    law_filter_is_entrywise(before + seq![entry], after, entry, window, webview, origin);
    law_filter_is_entrywise(before, seq![entry], entry, window, webview, origin);
    law_filter_membership(before, window, webview, origin);
    law_filter_membership(after, window, webview, origin);
    assert(entry_admits(entries[at], window, webview, origin));
    let kept_before = admitting(before, window, webview, origin);
    let kept_after = admitting(after, window, webview, origin);
    if kept_before.len() > 0 {
        assert(kept_before.contains(kept_before[0]));
        let i = choose|i: int| 0 <= i < before.len() && before[i] == kept_before[0];
        assert(entry_admits(entries[i], window, webview, origin));
    }
    if kept_after.len() > 0 {
        assert(kept_after.contains(kept_after[0]));
        let i = choose|i: int| 0 <= i < after.len() && after[i] == kept_after[0];
        assert(entry_admits(entries[at + 1 + i], window, webview, origin));
    }
    assert(admitting(entries, window, webview, origin) =~= seq![entry]);
}

/// A command that is denied at all is refused to every window, webview and
/// origin, whatever its entries say, those that deny it as well.
pub proof fn law_deny_takes_precedence(
    authority: AuthorityView,
    command: Seq<char>,
    window: Seq<char>,
    webview: Seq<char>,
    origin: OriginView,
)
    requires
        authority.denied.dom().contains(command),
    ensures
        resolve(authority, command, window, webview, origin) is None,
{
}

/// A command that no entry allows is refused.
pub proof fn law_unknown_command_is_refused(
    authority: AuthorityView,
    command: Seq<char>,
    window: Seq<char>,
    webview: Seq<char>,
    origin: OriginView,
)
    requires
        !authority.allowed.dom().contains(command),
    ensures
        resolve(authority, command, window, webview, origin) is None,
{
}

/// The decision on a command rests on the entries of that command only.
pub proof fn law_other_commands_do_not_matter(
    authority: AuthorityView,
    other: AuthorityView,
    command: Seq<char>,
    window: Seq<char>,
    webview: Seq<char>,
    origin: OriginView,
)
    requires
        authority.denied.dom().contains(command) <==> other.denied.dom().contains(command),
        authority.allowed.dom().contains(command) <==> other.allowed.dom().contains(command),
        authority.allowed.dom().contains(command) ==> authority.allowed[command]
            == other.allowed[command],
    ensures
        resolve(authority, command, window, webview, origin) == resolve(
            other,
            command,
            window,
            webview,
            origin,
        ),
{
}

/// To deny more commands never grants an access: where it is still granted,
/// the decision is the one from before.
pub proof fn law_denying_more_grants_no_more(
    authority: AuthorityView,
    stricter: AuthorityView,
    command: Seq<char>,
    window: Seq<char>,
    webview: Seq<char>,
    origin: OriginView,
)
    requires
        stricter.allowed == authority.allowed,
        authority.denied.dom().subset_of(stricter.denied.dom()),
        resolve(stricter, command, window, webview, origin) is Some,
    ensures
        resolve(stricter, command, window, webview, origin) == resolve(
            authority,
            command,
            window,
            webview,
            origin,
        ),
{
}

/// To put entries behind those of a command never takes an access away: the
/// entries that were returned are returned first.
pub proof fn law_more_entries_grant_no_less(
    authority: AuthorityView,
    command: Seq<char>,
    more: Seq<CommandView>,
    window: Seq<char>,
    webview: Seq<char>,
    origin: OriginView,
)
    requires
        resolve(authority, command, window, webview, origin) is Some,
    ensures
        ({
            let wider = AuthorityView {
                allowed: authority.allowed.insert(command, authority.allowed[command] + more),
                denied: authority.denied,
            };
            resolve(wider, command, window, webview, origin) == Some(
                resolve(authority, command, window, webview, origin)->0 + admitting(
                    more,
                    window,
                    webview,
                    origin,
                ),
            )
        }),
{
    let keep = |entry: CommandView| entry_admits(entry, window, webview, origin);
    Seq::filter_distributes_over_add(authority.allowed[command], more, keep);
}

/// A command that is allowed in the local context only is refused to every
/// remote origin.
pub proof fn law_local_only_is_refused_to_remote(
    authority: AuthorityView,
    command: Seq<char>,
    window: Seq<char>,
    webview: Seq<char>,
    origin: OriginView,
)
    requires
        forall|i: int|
            0 <= i < authority.allowed[command].len()
                ==> (#[trigger] authority.allowed[command][i]).context is Local,
        origin is Remote,
    ensures
        resolve(authority, command, window, webview, origin) is None,
{
    law_granted_iff(authority, command, window, webview, origin);
}

/// A command that is allowed in remote contexts only is refused to the local
/// origin.
pub proof fn law_remote_only_is_refused_to_local(
    authority: AuthorityView,
    command: Seq<char>,
    window: Seq<char>,
    webview: Seq<char>,
    origin: OriginView,
)
    requires
        forall|i: int|
            0 <= i < authority.allowed[command].len()
                ==> (#[trigger] authority.allowed[command][i]).context is Remote,
        origin is Local,
    ensures
        resolve(authority, command, window, webview, origin) is None,
{
    law_granted_iff(authority, command, window, webview, origin);
}

/// A command whose entries have no pattern for windows and none for webviews is
/// refused.
pub proof fn law_no_patterns_is_never_accessible(
    authority: AuthorityView,
    command: Seq<char>,
    window: Seq<char>,
    webview: Seq<char>,
    origin: OriginView,
)
    requires
        forall|i: int|
            0 <= i < authority.allowed[command].len() ==> {
                &&& (#[trigger] authority.allowed[command][i]).windows.len() == 0
                &&& authority.allowed[command][i].webviews.len() == 0
            },
    ensures
        resolve(authority, command, window, webview, origin) is None,
{
    law_granted_iff(authority, command, window, webview, origin);
}

/// An entry whose context admits the origin and whose windows admit the window
/// grants the access, whatever its webviews are.
pub proof fn law_window_match_suffices(
    authority: AuthorityView,
    command: Seq<char>,
    window: Seq<char>,
    webview: Seq<char>,
    origin: OriginView,
    at: int,
)
    requires
        !authority.denied.dom().contains(command),
        authority.allowed.dom().contains(command),
        0 <= at < authority.allowed[command].len(),
        context_admits(authority.allowed[command][at].context, origin),
        some_pattern_admits(authority.allowed[command][at].windows, window),
    ensures
        resolve(authority, command, window, webview, origin) is Some,
        (resolve(authority, command, window, webview, origin)->0).contains(
            authority.allowed[command][at],
        ),
{
    let entries = authority.allowed[command];
    law_granted_iff(authority, command, window, webview, origin);
    law_filter_membership(entries, window, webview, origin);
    assert(entry_admits(entries[at], window, webview, origin));
    assert(entries.contains(entries[at]));
}

/// An entry whose context admits the origin and whose webviews admit the
/// webview grants the access, whatever its windows are.
pub proof fn law_webview_match_suffices(
    authority: AuthorityView,
    command: Seq<char>,
    window: Seq<char>,
    webview: Seq<char>,
    origin: OriginView,
    at: int,
)
    requires
        !authority.denied.dom().contains(command),
        authority.allowed.dom().contains(command),
        0 <= at < authority.allowed[command].len(),
        context_admits(authority.allowed[command][at].context, origin),
        some_pattern_admits(authority.allowed[command][at].webviews, webview),
    ensures
        resolve(authority, command, window, webview, origin) is Some,
        (resolve(authority, command, window, webview, origin)->0).contains(
            authority.allowed[command][at],
        ),
{
    let entries = authority.allowed[command];
    law_granted_iff(authority, command, window, webview, origin);
    law_filter_membership(entries, window, webview, origin);
    assert(entry_admits(entries[at], window, webview, origin));
    assert(entries.contains(entries[at]));
}

/// A plain text and then `*` is a label pattern, and admits exactly the labels
/// that begin with the text.
pub proof fn law_prefix_pattern(prefix: Seq<char>, label: Seq<char>)
    requires
        is_plain_text(prefix),
    ensures
        is_label_pattern(prefix.push('*')),
        pattern_admits(prefix.push('*'), label) <==> prefix.is_prefix_of(label),
{
    let pattern = prefix.push('*');
    assert(is_simple(pattern)) by {
        assert forall|i: int| 0 <= i < pattern.len() implies pattern[i] != '[' by {
            if i < prefix.len() {
                assert(prefix[i] != '[');
            }
        }
        assert forall|i: int, j: int|
            0 <= i < pattern.len() && j == i + 1 && j < pattern.len() implies !(pattern[i] == '*'
            && pattern[j] == '*') by {
            assert(prefix[i] != '*');
        }
    }
    assert(!has_separator(pattern)) by {
        assert forall|i: int| 0 <= i < pattern.len() implies #[trigger] pattern[i] != '/'
            && pattern[i] != '\\' by {
            if i < prefix.len() {
                assert(prefix[i] != '/' && prefix[i] != '\\');
            }
        }
    }
    lemma_prefix_match(prefix, label);
}

/// What a plain text and then `*` matches.
proof fn lemma_prefix_match(prefix: Seq<char>, label: Seq<char>)
    requires
        is_plain_text(prefix),
    ensures
        simple_match(prefix.push('*'), label) <==> prefix.is_prefix_of(label),
    decreases prefix.len(),
{
    let pattern = prefix.push('*');
    if prefix.len() == 0 {
        assert(pattern[0] == '*');
        assert(simple_match(pattern.drop_first(), label.skip(label.len() as int)));
        assert(prefix =~= label.subrange(0, 0));
    } else {
        let rest = prefix.drop_first();
        assert(pattern.drop_first() =~= rest.push('*'));
        assert(pattern[0] == prefix[0]);
        assert(prefix[0] != '*' && prefix[0] != '?');
        assert(is_plain_text(rest)) by {
            assert forall|i: int| 0 <= i < rest.len() implies #[trigger] rest[i] != '*' && rest[i]
                != '?' && rest[i] != '[' by {
                assert(rest[i] == prefix[i + 1]);
            }
            assert forall|i: int| 0 <= i < rest.len() implies #[trigger] rest[i] != '/' && rest[i]
                != '\\' by {
                assert(rest[i] == prefix[i + 1]);
            }
        }
        if label.len() > 0 {
            let tail = label.drop_first();
            lemma_prefix_match(rest, tail);
            if prefix[0] == label[0] && rest.is_prefix_of(tail) {
                assert forall|i: int| 0 <= i < prefix.len() implies prefix[i] == label[i] by {
                    if i > 0 {
                        assert(rest[i - 1] == tail.subrange(0, rest.len() as int)[i - 1]);
                    }
                }
                assert(prefix =~= label.subrange(0, prefix.len() as int));
            }
            if prefix.is_prefix_of(label) {
                assert forall|i: int| 0 <= i < prefix.len() implies prefix[i] == label[i] by {
                    assert(prefix[i] == label.subrange(0, prefix.len() as int)[i]);
                }
                assert(rest =~= tail.subrange(0, rest.len() as int));
            }
        }
    }
}

/// The pattern `*` admits every label.
pub proof fn law_star_admits_every_label(label: Seq<char>)
    ensures
        pattern_admits("*"@, label),
{
    reveal_strlit("*");
    law_prefix_pattern(Seq::empty(), label);
    assert("*"@ =~= Seq::<char>::empty().push('*'));
}

/// An entry with a window pattern of a plain text and then `*` grants the
/// access to every window whose label begins with the text.
pub proof fn law_window_prefix_grants(
    authority: AuthorityView,
    command: Seq<char>,
    window: Seq<char>,
    webview: Seq<char>,
    origin: OriginView,
    at: int,
    prefix: Seq<char>,
)
    requires
        !authority.denied.dom().contains(command),
        authority.allowed.dom().contains(command),
        0 <= at < authority.allowed[command].len(),
        context_admits(authority.allowed[command][at].context, origin),
        is_plain_text(prefix),
        authority.allowed[command][at].windows.contains(prefix.push('*')),
        prefix.is_prefix_of(window),
    ensures
        resolve(authority, command, window, webview, origin) is Some,
{
    let windows = authority.allowed[command][at].windows;
    let i = choose|i: int| 0 <= i < windows.len() && windows[i] == prefix.push('*');
    law_prefix_pattern(prefix, window);
    assert(pattern_admits(windows[i], window));
    law_window_match_suffices(authority, command, window, webview, origin, at);
}

/// An entry with a webview pattern of a plain text and then `*` grants the
/// access to every webview whose label begins with the text.
pub proof fn law_webview_prefix_grants(
    authority: AuthorityView,
    command: Seq<char>,
    window: Seq<char>,
    webview: Seq<char>,
    origin: OriginView,
    at: int,
    prefix: Seq<char>,
)
    requires
        !authority.denied.dom().contains(command),
        authority.allowed.dom().contains(command),
        0 <= at < authority.allowed[command].len(),
        context_admits(authority.allowed[command][at].context, origin),
        is_plain_text(prefix),
        authority.allowed[command][at].webviews.contains(prefix.push('*')),
        prefix.is_prefix_of(webview),
    ensures
        resolve(authority, command, window, webview, origin) is Some,
{
    let webviews = authority.allowed[command][at].webviews;
    let i = choose|i: int| 0 <= i < webviews.len() && webviews[i] == prefix.push('*');
    law_prefix_pattern(prefix, webview);
    assert(pattern_admits(webviews[i], webview));
    law_webview_match_suffices(authority, command, window, webview, origin, at);
}

/// A command whose entries have no pattern for webviews, and for windows only
/// plain texts and then `*`, is refused to a window whose label begins with
/// none of the texts.
pub proof fn law_window_prefix_refuses(
    authority: AuthorityView,
    command: Seq<char>,
    window: Seq<char>,
    webview: Seq<char>,
    origin: OriginView,
)
    requires
        forall|i: int|
            0 <= i < authority.allowed[command].len()
                ==> (#[trigger] authority.allowed[command][i]).webviews.len() == 0,
        forall|i: int, j: int|
            0 <= i < authority.allowed[command].len() && 0 <= j
                < authority.allowed[command][i].windows.len() ==> misses(
                #[trigger] authority.allowed[command][i].windows[j],
                window,
            ),
    ensures
        resolve(authority, command, window, webview, origin) is None,
{
    law_granted_iff(authority, command, window, webview, origin);
    let entries = authority.allowed[command];
    assert forall|i: int| 0 <= i < entries.len() implies !#[trigger] entry_admits(
        entries[i],
        window,
        webview,
        origin,
    ) by {
        assert(entries[i].webviews.len() == 0);
        let windows = entries[i].windows;
        assert forall|j: int| 0 <= j < windows.len() implies !#[trigger] pattern_admits(
            windows[j],
            window,
        ) by {
            assert(misses(entries[i].windows[j], window));
            let prefix = choose|prefix: Seq<char>|
                {
                    &&& is_plain_text(prefix)
                    &&& windows[j] == #[trigger] prefix.push('*')
                    &&& !prefix.is_prefix_of(window)
                };
            law_prefix_pattern(prefix, window);
        }
    }
}

/// A label that is drawn for it matches `main-*`.
pub proof fn law_main_dash_labels_match(label: Seq<char>)
    requires
        is_main_dash_label(label),
    ensures
        pattern_admits("main-*"@, label),
{
    let suffix = choose|suffix: Seq<char>| label == #[trigger] ("main-"@ + suffix);
    assert("main-"@ =~= label.subrange(0, "main-"@.len() as int));
    law_main_dash_pattern(label);
}

/// `main-*` admits exactly the labels that begin with `main-`.
pub proof fn law_main_dash_pattern(label: Seq<char>)
    ensures
        pattern_admits("main-*"@, label) <==> "main-"@.is_prefix_of(label),
{
    reveal_strlit("main-");
    reveal_strlit("main-*");
    law_prefix_pattern("main-"@, label);
    assert("main-*"@ =~= "main-"@.push('*'));
}

/// The labels of any shape are those that start with `main-` and those that do
/// not, and the prefix tells which of the two a label is.
pub proof fn law_labels_split_by_prefix(label: Seq<char>)
    ensures
        any_labels().yields(label) <==> main_dash_labels().yields(label)
            || non_main_labels().yields(label),
        !(main_dash_labels().yields(label) && non_main_labels().yields(label)),
        main_dash_labels().yields(label) <==> any_labels().yields(label)
            && "main-"@.is_prefix_of(label),
        non_main_labels().yields(label) <==> any_labels().yields(label)
            && !"main-"@.is_prefix_of(label),
{
    lemma_any_labels(label);
    lemma_main_dash_labels(label);
    lemma_non_main_labels(label);
    reveal_strlit("main-");
    let prefix = "main-"@;
    if is_main_dash_label(label) {
        let suffix = choose|suffix: Seq<char>|
            {
                &&& suffix.len() <= 5
                &&& forall|i: int| 0 <= i < suffix.len() ==> is_ldh(#[trigger] suffix[i])
                &&& label == #[trigger] (prefix + suffix)
            };
        assert(prefix =~= label.subrange(0, prefix.len() as int));
        assert forall|i: int| 0 <= i < label.len() implies is_ldh(#[trigger] label[i]) by {
            if i < prefix.len() {
                assert(label[i] == prefix[i]);
            } else {
                assert(label[i] == suffix[i - prefix.len()]);
            }
        }
    }
    if is_any_label(label) && prefix.is_prefix_of(label) {
        let suffix = label.skip(prefix.len() as int);
        assert(label =~= prefix + suffix) by {
            assert(prefix =~= label.subrange(0, prefix.len() as int));
            assert forall|i: int| 0 <= i < prefix.len() implies label[i] == prefix[i] by {
                assert(label.subrange(0, prefix.len() as int)[i] == label[i]);
            }
        }
        assert forall|i: int| 0 <= i < suffix.len() implies is_ldh(#[trigger] suffix[i]) by {
            assert(suffix[i] == label[i + prefix.len()]);
        }
    }
}

/// A strategy of the kinds of one and then of another yields the origins of
/// both and no others.
pub proof fn law_kinds_in_a_row_yield_the_union(
    first: Seq<OriginKind>,
    second: Seq<OriginKind>,
    origin: OriginView,
)
    ensures
        kinds_yield(first + second, origin) <==> kinds_yield(first, origin) || kinds_yield(
            second,
            origin,
        ),
{
    let both = first + second;
    if kinds_yield(first, origin) {
        let i = choose|i: int| 0 <= i < first.len() && kind_yields(#[trigger] first[i], origin);
        assert(both[i] == first[i]);
    }
    if kinds_yield(second, origin) {
        let i = choose|i: int| 0 <= i < second.len() && kind_yields(#[trigger] second[i], origin);
        assert(both[first.len() + i] == second[i]);
    }
    if kinds_yield(both, origin) {
        let i = choose|i: int| 0 <= i < both.len() && kind_yields(#[trigger] both[i], origin);
        if i < first.len() {
            assert(both[i] == first[i]);
        } else {
            assert(both[i] == second[i - first.len()]);
        }
    }
}

/// The origins of both kinds are the local origin and the remote ones.
pub proof fn law_origins_are_local_or_remote(origin: OriginView)
    ensures
        kinds_yield(seq![OriginKind::Local, OriginKind::Remote], origin) <==> kinds_yield(
            seq![OriginKind::Local],
            origin,
        ) || kinds_yield(seq![OriginKind::Remote], origin),
{
    law_kinds_in_a_row_yield_the_union(
        seq![OriginKind::Local],
        seq![OriginKind::Remote],
        origin,
    );
    assert(seq![OriginKind::Local] + seq![OriginKind::Remote] =~= seq![
        OriginKind::Local,
        OriginKind::Remote,
    ]);
}

/// An entry for any host under `https` grants the access to every `https` URL
/// of a plain host, given a window or a webview that it admits, and is of no
/// use to the local origin.
pub proof fn law_any_https_host(
    authority: AuthorityView,
    command: Seq<char>,
    window: Seq<char>,
    webview: Seq<char>,
    at: int,
    host: Seq<char>,
)
    requires
        !authority.denied.dom().contains(command),
        authority.allowed.dom().contains(command),
        0 <= at < authority.allowed[command].len(),
        authority.allowed[command][at].context == ContextView::Remote("https://*"@),
        some_pattern_admits(authority.allowed[command][at].windows, window) || some_pattern_admits(
            authority.allowed[command][at].webviews,
            webview,
        ),
        is_plain_host(host),
    ensures
        resolve(authority, command, window, webview, OriginView::Remote(https_url(host))) is Some,
        !entry_admits(authority.allowed[command][at], window, webview, OriginView::Local),
{
    let url = https_url(host);
    reveal_strlit("https://*");
    reveal_strlit("https://");
    assert(is_url_of(url, host));
    assert("https://*"@.drop_last() =~= "https://"@);
    assert("https://"@ =~= url.subrange(0, "https://"@.len() as int));
    let origin = OriginView::Remote(url);
    assert(context_admits(authority.allowed[command][at].context, origin));
    if some_pattern_admits(authority.allowed[command][at].windows, window) {
        law_window_match_suffices(authority, command, window, webview, origin, at);
    } else {
        law_webview_match_suffices(authority, command, window, webview, origin, at);
    }
}

/// A command that is allowed only at the `https` URL of one plain host is
/// refused to the `https` URL of every other plain host.
pub proof fn law_exact_url_is_refused_to_other_hosts(
    authority: AuthorityView,
    command: Seq<char>,
    window: Seq<char>,
    webview: Seq<char>,
    host: Seq<char>,
    other: Seq<char>,
)
    requires
        forall|i: int|
            0 <= i < authority.allowed[command].len()
                ==> (#[trigger] authority.allowed[command][i]).context == ContextView::Remote(
                https_url(host),
            ),
        is_plain_host(host),
        is_plain_host(other),
        other != host,
    ensures
        resolve(authority, command, window, webview, OriginView::Remote(https_url(other))) is None,
{
    law_plain_url_as_pattern(host, other);
    law_granted_iff(
        authority,
        command,
        window,
        webview,
        OriginView::Remote(https_url(other)),
    );
}

/// The `https` URL of a plain host, as a pattern, admits among the `https` URLs
/// of plain hosts itself only.
pub proof fn law_plain_url_as_pattern(host: Seq<char>, other: Seq<char>)
    requires
        is_plain_host(host),
        is_plain_host(other),
    ensures
        url_pattern_admits(https_url(host), https_url(other)) <==> host == other,
{
    let pattern = https_url(host);
    let url = https_url(other);
    let len = "https://"@.len() as int;
    assert(is_url_of(pattern, host));
    assert(is_url_of(url, other));
    assert(pattern.skip(len) =~= host);
    assert(url.skip(len) =~= other);
    reveal_strlit("http://*");
    reveal_strlit("https://*");
    reveal_strlit("https://");
    let dot = choose|dot: int| is_host_split_at(host, dot);
    assert(pattern.len() >= 8 + 3);
    assert(!is_any_host(pattern));
}

/// A text from which nothing is dropped is what is left of it.
pub proof fn lemma_nothing_dropped(text: Seq<char>)
    requires
        forall|i: int| 0 <= i < text.len() ==> !is_dropped(#[trigger] text[i]),
    ensures
        undropped(text) == text,
    decreases text.len(),
{
    reveal(Seq::filter);
    if text.len() > 0 {
        let rest = text.drop_last();
        assert forall|i: int| 0 <= i < rest.len() implies !is_dropped(#[trigger] rest[i]) by {
            assert(rest[i] == text[i]);
        }
        lemma_nothing_dropped(rest);
        assert(!is_dropped(text[text.len() - 1]));
        assert(text =~= rest.push(text[text.len() - 1]));
    } else {
        assert(text =~= Seq::empty());
    }
}

/// The parser of URL patterns takes a text with no closing bracket, group,
/// escape, tab, line break or percent sign, and with no two dots in a row.
pub proof fn law_plain_texts_are_parser_safe(text: Seq<char>)
    requires
        forall|i: int|
            0 <= i < text.len() ==> {
                &&& #[trigger] text[i] != ']' && text[i] != '%'
                &&& text[i] != '{' && text[i] != '}' && text[i] != '\\'
                &&& text[i] != '\t' && text[i] != '\n' && text[i] != '\r'
            },
        forall|i: int, j: int|
            0 <= i < text.len() && j == i + 1 && j < text.len() ==> !(text[i] == '.' && text[j]
                == '.'),
    ensures
        is_parser_safe(text),
{
    assert forall|i: int| 0 <= i < text.len() implies !is_dropped(#[trigger] text[i]) by {
        assert(text[i] != ']');
    }
    lemma_nothing_dropped(text);
    assert forall|at: int| 0 <= at < text.len() implies !#[trigger] is_double_dot_at(text, at) by {
        if dot_len(text, at) > 0 {
            assert(text[at] != '%');
            if at + 1 < text.len() {
                assert(text[at + 1] != '%');
            }
        }
    }
}

/// The texts that contexts are written in here are URL patterns, and the parser
/// takes them: a scheme with any host, and the `https` URL of a plain host that
/// is not in punycode, of ordinary length.
pub proof fn law_patterns_parse(host: Seq<char>)
    requires
        is_plain_host(host),
        !is_punycode(host),
        host.len() <= 253,
    ensures
        is_parser_safe("https://*"@) && is_url_pattern("https://*"@),
        is_parser_safe(https_url(host)) && is_url_pattern(https_url(host)),
        is_url(https_url(host)),
{
    reveal_strlit("https://*");
    reveal_strlit("https://");
    let text = https_url(host);
    let scheme = "https://"@;
    assert(is_url_of(text, host));
    let dot = choose|dot: int| is_host_split_at(host, dot);
    assert forall|i: int| 0 <= i < text.len() implies {
        &&& #[trigger] text[i] != ']' && text[i] != '%'
        &&& text[i] != '{' && text[i] != '}' && text[i] != '\\'
        &&& text[i] != '\t' && text[i] != '\n' && text[i] != '\r'
        &&& text[i] == '.' ==> i == 8 + dot
    } by {
        if i < 8 {
            assert(text[i] == scheme[i]);
        } else {
            assert(text[i] == host[i - 8]);
        }
    }
    law_plain_texts_are_parser_safe(text);
    law_plain_texts_are_parser_safe("https://*"@);
}

/// A URL that is drawn is an absolute URL, unless its host is in punycode.
pub proof fn law_drawn_texts_are_urls(text: Seq<char>, host: Seq<char>, dot: int)
    requires
        is_url_of(text, host),
        is_host_split_at(host, dot),
        dot <= 11,
        2 <= host.len() - dot - 1 <= 5,
        !is_punycode(host),
    ensures
        is_certain_url(text),
        is_url(text),
{
}

/// The local origin is written `local`.
pub proof fn law_local_origin_text(origin: OriginView)
    requires
        origin is Local,
    ensures
        origin_text(origin) == "local"@,
{
}

/// A remote origin is written `remote: ` and then its URL; where that is plain,
/// the text that it was read from occurs in it.
pub proof fn law_remote_origin_text(url: Seq<char>)
    ensures
        "remote: "@.is_prefix_of(origin_text(OriginView::Remote(url))),
        origin_text(OriginView::Remote(url)) == "remote: "@ + url_str(url),
        is_plain_url(url) ==> occurs_in(url, origin_text(OriginView::Remote(url))),
{
    let text = origin_text(OriginView::Remote(url));
    let len = "remote: "@.len() as int;
    assert("remote: "@ =~= text.subrange(0, len));
    if is_plain_url(url) {
        assert(text.subrange(len, len + url.len()) =~= url);
        assert(occurs_at(url, text, len));
    }
}

/// A command is in the table that pairs are collected into exactly where a pair
/// has it, and has there the entries of the last such pair.
pub proof fn law_last_pair_counts(
    pairs: Seq<(Seq<char>, Seq<CommandView>)>,
    command: Seq<char>,
    at: int,
)
    requires
        0 <= at < pairs.len(),
        pairs[at].0 == command,
        forall|i: int| at < i < pairs.len() ==> (#[trigger] pairs[i]).0 != command,
    ensures
        collected(pairs).dom().contains(command),
        collected(pairs)[command] == pairs[at].1,
    decreases pairs.len(),
{
    if at < pairs.len() - 1 {
        let rest = pairs.drop_last();
        assert(pairs[pairs.len() - 1].0 != command);
        law_last_pair_counts(rest, command, at);
    }
}

/// A command that no pair has is not in the table.
pub proof fn law_no_pair_no_entries(pairs: Seq<(Seq<char>, Seq<CommandView>)>, command: Seq<char>)
    requires
        forall|i: int| 0 <= i < pairs.len() ==> (#[trigger] pairs[i]).0 != command,
    ensures
        !collected(pairs).dom().contains(command),
    decreases pairs.len(),
{
    if pairs.len() > 0 {
        let rest = pairs.drop_last();
        assert(pairs[pairs.len() - 1].0 != command);
        law_no_pair_no_entries(rest, command);
    }
}

} // verus!
