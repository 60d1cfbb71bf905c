//! What URLs, URL patterns and strategies come to, on characters.

use crate::acl::ContextView;
use crate::authority::{
    AuthorityView, Origin, OriginView, context_admits, entry_admits, origin_text, resolve,
};
use crate::label::some_pattern_admits;
use crate::laws::{
    law_granted_iff, law_labels_split_by_prefix, law_window_match_suffices, lemma_nothing_dropped,
};
use crate::remote::{
    RemoteUrlPattern, blanks_leave_text, brackets_close, follows_name, http_url, https_url, is_any_host, is_bracketed, is_certain_url,
    is_double_dot_at, is_dropped, is_host_split_at, is_kept_through, is_open_at, is_open_between,
    is_parser_safe, is_part_end, is_rooted, starts_fixed_text, stays_below, undropped,
    is_host_with_port, is_kept_host, is_kept_under, is_plain_host, is_plain_url, is_port, is_punycode,
    is_single_label, is_url, is_url_of, is_url_pattern, url_pattern_admits, url_pattern_match,
    url_pattern_same, url_pattern_valid, url_serialization, url_str,
};
use crate::strategies::{
    OriginKind, TextsView, any_labels, command_names, in_ranges, is_remote_text, kind_yields,
    kinds_yield, lemma_any_labels, lemma_command_names, lemma_main_dash_labels,
    lemma_non_main_labels, main_dash_labels, non_main_labels,
    some_remote_text_is_refused, url_regex,
};
use crate::text::{occurs_at, occurs_in};
use vstd::prelude::*;
use vstd::std_specs::cmp::PartialEqSpec;

verus! {

/// A host of two labels: a lower case letter with letters, digits and hyphens
/// behind it, the dot, and lower case letters.
pub proof fn law_host_of_two_labels(host: Seq<char>, dot: int)
    ensures
        is_host_split_at(host, dot) <==> {
            &&& 0 < dot < host.len() - 1
            &&& host[dot] == '.'
            &&& 'a' <= host[0] <= 'z'
            &&& forall|i: int|
                1 <= i < dot ==> 'a' <= #[trigger] host[i] <= 'z' || '0' <= host[i] <= '9' || host[i]
                    == '-'
            &&& forall|i: int| dot < i < host.len() ==> 'a' <= #[trigger] host[i] <= 'z'
        },
{
}

/// The URLs of a host are `http://` or `https://` and the host.
pub proof fn law_urls_of_a_host(host: Seq<char>, text: Seq<char>)
    ensures
        http_url(host) == "http://"@ + host,
        https_url(host) == "https://"@ + host,
        is_url_of(text, host) <==> text == "http://"@ + host || text == "https://"@ + host,
        is_punycode(host) <==> "xn--"@.is_prefix_of(host),
{
}

/// A URL of a host of two labels is plain.
pub proof fn law_url_of_two_labels_is_plain(secure: bool, host: Seq<char>, dot: int)
    requires
        is_host_split_at(host, dot),
    ensures
        is_plain_url(
            (if secure {
                "https://"@
            } else {
                "http://"@
            }) + host,
        ),
{
    let text = (if secure {
        "https://"@
    } else {
        "http://"@
    }) + host;
    assert(is_plain_host(host));
    assert(is_url_of(text, host));
}

/// A plain URL is one of a host of two labels.
pub proof fn law_plain_url_has_two_labels(text: Seq<char>) -> (split: (Seq<char>, int))
    requires
        is_plain_url(text),
    ensures
        is_host_split_at(split.0, split.1),
        text == "http://"@ + split.0 || text == "https://"@ + split.0,
{
    let host = choose|host: Seq<char>| is_plain_host(host) && #[trigger] is_url_of(text, host);
    let dot = choose|dot: int| is_host_split_at(host, dot);
    (host, dot)
}

/// What `https://` and `http://` begin tells the two apart.
proof fn lemma_schemes_differ(first: Seq<char>, second: Seq<char>)
    requires
        first.len() > 0,
        first[0] != '/',
    ensures
        "https://"@ + first != "http://"@ + second,
        "http://"@ + first != "https://"@ + second,
{
    reveal_strlit("http://");
    reveal_strlit("https://");
    assert(("https://"@ + first)[4] == 's');
    assert(("http://"@ + second)[4] == ':');
    assert(("http://"@ + first)[4] == ':');
    assert(("https://"@ + second)[4] == 's');
}

/// The URL of a host of two labels, as a pattern, admits the URL of another only
/// where the scheme and the host are the same, and then does.
pub proof fn law_url_admits_same_scheme_and_host(
    secure: bool,
    host: Seq<char>,
    dot: int,
    other_secure: bool,
    other: Seq<char>,
    other_dot: int,
)
    requires
        is_host_split_at(host, dot),
        is_host_split_at(other, other_dot),
    ensures
        url_pattern_admits(
            (if secure {
                "https://"@
            } else {
                "http://"@
            }) + host,
            (if other_secure {
                "https://"@
            } else {
                "http://"@
            }) + other,
        ) <==> secure == other_secure && host == other,
{
    let scheme = if secure {
        "https://"@
    } else {
        "http://"@
    };
    let other_scheme = if other_secure {
        "https://"@
    } else {
        "http://"@
    };
    law_url_of_two_labels_is_plain(secure, host, dot);
    law_url_of_two_labels_is_plain(other_secure, other, other_dot);
    lemma_schemes_differ(host, other);
    let pattern = scheme + host;
    let url = other_scheme + other;
    assert(!is_any_host(pattern)) by {
        reveal_strlit("http://*");
        reveal_strlit("https://*");
        reveal_strlit("http://");
        reveal_strlit("https://");
        assert(host.len() >= 3);
        assert(pattern.len() == scheme.len() + host.len());
        assert("http://*"@.len() == 8 && "https://*"@.len() == 9);
        assert(scheme.len() >= 7);
    }
    if secure == other_secure && pattern == url {
        assert(pattern.skip(scheme.len() as int) =~= host);
        assert(url.skip(scheme.len() as int) =~= other);
    }
}

/// A command that is allowed only at the URL of one host of two labels is
/// refused to the URL of such a host, unless the scheme and the host are the
/// same; and where they are, an entry with a window that matches grants it.
pub proof fn law_url_entry_is_for_its_scheme_and_host(
    authority: AuthorityView,
    command: Seq<char>,
    window: Seq<char>,
    webview: Seq<char>,
    secure: bool,
    host: Seq<char>,
    dot: int,
    other_secure: bool,
    other: Seq<char>,
    other_dot: int,
    at: int,
)
    requires
        is_host_split_at(host, dot),
        is_host_split_at(other, other_dot),
        forall|i: int|
            0 <= i < authority.allowed[command].len()
                ==> (#[trigger] authority.allowed[command][i]).context == ContextView::Remote(
                (if secure {
                    "https://"@
                } else {
                    "http://"@
                }) + host,
            ),
    ensures
        ({
            let url = (if other_secure {
                "https://"@
            } else {
                "http://"@
            }) + other;
            let decision = resolve(authority, command, window, webview, OriginView::Remote(url));
            &&& secure != other_secure || host != other ==> decision is None
            &&& secure == other_secure && host == other && !authority.denied.dom().contains(command)
                && authority.allowed.dom().contains(command) && 0 <= at
                < authority.allowed[command].len() && some_pattern_admits(
                authority.allowed[command][at].windows,
                window,
            ) ==> decision is Some
        }),
{
    let url = (if other_secure {
        "https://"@
    } else {
        "http://"@
    }) + other;
    let origin = OriginView::Remote(url);
    law_url_admits_same_scheme_and_host(secure, host, dot, other_secure, other, other_dot);
    law_granted_iff(authority, command, window, webview, origin);
    let entries = authority.allowed[command];
    if secure != other_secure || host != other {
        assert forall|i: int| 0 <= i < entries.len() implies !#[trigger] entry_admits(
            entries[i],
            window,
            webview,
            origin,
        ) by {
            assert(!context_admits(entries[i].context, origin));
        }
    } else if !authority.denied.dom().contains(command) && authority.allowed.dom().contains(command)
        && 0 <= at < entries.len() && some_pattern_admits(entries[at].windows, window) {
        assert(context_admits(entries[at].context, origin));
        law_window_match_suffices(authority, command, window, webview, origin, at);
    }
}

/// The pattern for any host under a scheme admits the URL of a host of two
/// labels exactly where the scheme is the same.
pub proof fn law_any_host_admits_its_scheme(
    secure: bool,
    other_secure: bool,
    other: Seq<char>,
    other_dot: int,
)
    requires
        is_host_split_at(other, other_dot),
    ensures
        url_pattern_admits(
            if secure {
                "https://*"@
            } else {
                "http://*"@
            },
            (if other_secure {
                "https://"@
            } else {
                "http://"@
            }) + other,
        ) <==> secure == other_secure,
{
    reveal_strlit("http://");
    reveal_strlit("https://");
    reveal_strlit("http://*");
    reveal_strlit("https://*");
    law_url_of_two_labels_is_plain(other_secure, other, other_dot);
    let url = (if other_secure {
        "https://"@
    } else {
        "http://"@
    }) + other;
    assert("https://*"@.drop_last() =~= "https://"@);
    assert("http://*"@.drop_last() =~= "http://"@);
    if other_secure {
        assert("https://"@ =~= url.subrange(0, 8));
        assert(url.subrange(0, 7)[4] == 's');
    } else {
        assert("http://"@ =~= url.subrange(0, 7));
        assert(url.subrange(0, 8)[4] == ':');
    }
}

/// Beside the URLs of hosts of two labels, and the patterns for any host, a
/// pattern admits what the outside test says.
pub proof fn law_other_url_patterns_admit_by_test(pattern: Seq<char>, url: Seq<char>)
    requires
        ({
            ||| forall|host: Seq<char>, dot: int| #[trigger]
                is_host_split_at(host, dot) ==> url != "http://"@ + host && url != "https://"@
                    + host
            ||| {
                &&& pattern != "http://*"@ && pattern != "https://*"@
                &&& forall|host: Seq<char>, dot: int| #[trigger]
                    is_host_split_at(host, dot) ==> pattern != "http://"@ + host && pattern
                        != "https://"@ + host
            }
        }),
    ensures
        url_pattern_admits(pattern, url) <==> url_pattern_match(pattern, url),
{
    if is_plain_url(url) {
        let split = law_plain_url_has_two_labels(url);
        assert(is_host_split_at(split.0, split.1));
    }
    if is_plain_url(pattern) {
        let split = law_plain_url_has_two_labels(pattern);
        assert(is_host_split_at(split.0, split.1));
    }
}

/// A text is a URL where the outside parser reads it, and so is the URL of a
/// host of two labels that is not in punycode and of ordinary length.
pub proof fn law_texts_that_are_urls(text: Seq<char>, secure: bool, host: Seq<char>, dot: int)
    ensures
        url_serialization(text) is Some ==> is_url(text),
        url_pattern_valid(text) ==> is_url_pattern(text),
        is_url_pattern("http://*"@) && is_url_pattern("https://*"@),
        is_host_split_at(host, dot) && !"xn--"@.is_prefix_of(host) && host.len() <= 253 && text == (
        if secure {
            "https://"@
        } else {
            "http://"@
        }) + host ==> is_url(text) && is_url_pattern(text),
{
    if is_host_split_at(host, dot) && !"xn--"@.is_prefix_of(host) && host.len() <= 253 && text == (
    if secure {
        "https://"@
    } else {
        "http://"@
    }) + host {
        assert(is_plain_host(host));
        assert(is_url_of(text, host));
    }
}

/// No other text is a URL or a URL pattern.
pub proof fn law_no_other_texts_are_urls(text: Seq<char>) -> (split: (Seq<char>, int))
    ensures
        is_url(text) && url_serialization(text) is None ==> {
            &&& is_host_split_at(split.0, split.1)
            &&& !"xn--"@.is_prefix_of(split.0) && split.0.len() <= 253
            &&& text == "http://"@ + split.0 || text == "https://"@ + split.0
        },
        is_url_pattern(text) && !url_pattern_valid(text) && text != "http://*"@ && text
            != "https://*"@ ==> {
            &&& is_host_split_at(split.0, split.1)
            &&& !"xn--"@.is_prefix_of(split.0) && split.0.len() <= 253
            &&& text == "http://"@ + split.0 || text == "https://"@ + split.0
        },
{
    if is_certain_url(text) {
        let host = choose|host: Seq<char>|
            {
                &&& is_plain_host(host)
                &&& !is_punycode(host)
                &&& host.len() <= 253
                &&& #[trigger] is_url_of(text, host)
            };
        (host, choose|dot: int| is_host_split_at(host, dot))
    } else {
        (Seq::empty(), 0)
    }
}

/// A host of one or two labels stands for itself in a URL, and a port behind it
/// too, if it has no leading zero and is not the default one: such a URL is
/// written out as it was read, with the root path behind it.
pub proof fn law_url_with_port_is_written_as_read(
    secure: bool,
    host: Seq<char>,
    dot: int,
    port: Seq<char>,
)
    requires
        is_host_split_at(host, dot) || {
            &&& host.len() > 0 && 'a' <= host[0] <= 'z'
            &&& forall|i: int|
                1 <= i < host.len() ==> 'a' <= #[trigger] host[i] <= 'z' || '0' <= host[i] <= '9'
                    || host[i] == '-'
        },
        port.len() > 0,
        port[0] != '0',
        forall|i: int| 0 <= i < port.len() ==> '0' <= #[trigger] port[i] <= '9',
        port != (if secure {
            "443"@
        } else {
            "80"@
        }),
    ensures
        ({
            let scheme = if secure {
                "https://"@
            } else {
                "http://"@
            };
            let text = scheme + (host.push(':') + port);
            let written = origin_text(OriginView::Remote(text));
            &&& url_str(text) == text.push('/')
            &&& written == "remote: "@ + text.push('/')
            &&& occurs_in(text, written)
            &&& url_str(scheme + host) == (scheme + host).push('/')
            &&& occurs_in(scheme + host, origin_text(OriginView::Remote(scheme + host)))
        }),
{
    let scheme = if secure {
        "https://"@
    } else {
        "http://"@
    };
    let default = if secure {
        "443"@
    } else {
        "80"@
    };
    let authority = host.push(':') + port;
    let text = scheme + authority;
    if is_host_split_at(host, dot) {
        assert(is_plain_host(host));
    } else {
        assert(is_single_label(host));
    }
    assert(is_port(port));
    assert(is_host_with_port(authority, default));
    assert(scheme =~= text.subrange(0, scheme.len() as int));
    assert(text.skip(scheme.len() as int) =~= authority);
    assert(scheme =~= (scheme + host).subrange(0, scheme.len() as int));
    assert((scheme + host).skip(scheme.len() as int) =~= host);
    assert(is_kept_under(text, scheme, default));
    assert(is_kept_under(scheme + host, scheme, default));
    lemma_written_text_occurs(text);
    lemma_written_text_occurs(scheme + host);
}

/// A URL that is written as it was read occurs in the text of its origin.
proof fn lemma_written_text_occurs(text: Seq<char>)
    requires
        url_str(text) == text.push('/'),
    ensures
        occurs_in(text, origin_text(OriginView::Remote(text))),
{
    let written = origin_text(OriginView::Remote(text));
    let len = "remote: "@.len() as int;
    assert(written.subrange(len, len + text.len()) =~= text);
    assert(occurs_at(text, written, len));
}

/// The parts of a URL that is written as it was read.
proof fn lemma_kept_parts(text: Seq<char>, scheme: Seq<char>, default: Seq<char>) -> (parts: (
    Seq<char>,
    int,
    Seq<char>,
))
    requires
        is_kept_under(text, scheme, default),
    ensures
        is_host_split_at(parts.0, parts.1) || is_single_label(parts.0),
        text == scheme + parts.0 || is_port(parts.2) && parts.2 != default && text == scheme + (
        parts.0.push(':') + parts.2),
{
    let authority = text.skip(scheme.len() as int);
    assert(text =~= scheme + authority) by {
        assert forall|i: int| 0 <= i < scheme.len() implies text[i] == scheme[i] by {
            assert(text.subrange(0, scheme.len() as int)[i] == text[i]);
        }
    }
    if is_kept_host(authority) {
        (authority, choose|dot: int| is_host_split_at(authority, dot), Seq::empty())
    } else {
        let (host, port) = choose|host: Seq<char>, port: Seq<char>|
            {
                &&& authority == #[trigger] (host.push(':') + port)
                &&& is_kept_host(host)
                &&& is_port(port)
                &&& port != default
            };
        (host, choose|dot: int| is_host_split_at(host, dot), port)
    }
}

/// How a URL is written out: as the outside parser does, or, for a host of one
/// or two labels, perhaps with a port, as it was read and with the root path
/// behind it.
pub proof fn law_url_is_written_out(text: Seq<char>) -> (parts: (Seq<char>, int, Seq<char>))
    ensures
        url_str(text) == url_serialization(text)->0 || {
            &&& url_str(text) == text.push('/')
            &&& is_host_split_at(parts.0, parts.1) || {
                &&& parts.0.len() > 0 && 'a' <= parts.0[0] <= 'z'
                &&& forall|i: int|
                    1 <= i < parts.0.len() ==> 'a' <= #[trigger] parts.0[i] <= 'z' || '0'
                        <= parts.0[i] <= '9' || parts.0[i] == '-'
            }
            &&& {
                ||| text == "http://"@ + parts.0 || text == "https://"@ + parts.0
                ||| {
                    &&& parts.2.len() > 0 && parts.2[0] != '0'
                    &&& forall|i: int| 0 <= i < parts.2.len() ==> '0' <= #[trigger] parts.2[i] <= '9'
                    &&& {
                        ||| text == "http://"@ + (parts.0.push(':') + parts.2) && parts.2 != "80"@
                        ||| text == "https://"@ + (parts.0.push(':') + parts.2) && parts.2
                            != "443"@
                    }
                }
            }
        },
{
    if is_plain_url(text) {
        let split = law_plain_url_has_two_labels(text);
        (split.0, split.1, Seq::empty())
    } else if is_kept_under(text, "http://"@, "80"@) {
        lemma_kept_parts(text, "http://"@, "80"@)
    } else if is_kept_under(text, "https://"@, "443"@) {
        lemma_kept_parts(text, "https://"@, "443"@)
    } else {
        (Seq::empty(), 0, Seq::empty())
    }
}

/// An origin is written out as `local`, or as `remote: ` and its URL.
pub proof fn law_origin_is_written_out(origin: Origin)
    ensures
        match origin {
            Origin::Local => origin_text(origin@) == "local"@,
            Origin::Remote { url } => origin_text(origin@) == "remote: "@ + url_str(url@),
        },
{
}

/// A part occurs in a text where the text is something, the part and something.
pub proof fn law_part_occurs_between(before: Seq<char>, part: Seq<char>, after: Seq<char>)
    ensures
        occurs_in(part, before + part + after),
{
    let whole = before + part + after;
    let at = before.len() as int;
    assert(whole.subrange(at, at + part.len()) =~= part);
    assert(occurs_at(part, whole, at));
}

/// Where a part occurs in a text, the text is something, the part and something.
pub proof fn law_occurring_part_stands_between(part: Seq<char>, whole: Seq<char>) -> (around: (
    Seq<char>,
    Seq<char>,
))
    requires
        occurs_in(part, whole),
    ensures
        whole == around.0 + part + around.1,
{
    let at = choose|at: int| occurs_at(part, whole, at);
    let around = (whole.take(at), whole.skip(at + part.len()));
    assert forall|i: int| 0 <= i < part.len() implies whole[at + i] == part[i] by {
        assert(whole.subrange(at, at + part.len())[i] == whole[at + i]);
    }
    assert(whole =~= around.0 + part + around.1);
    around
}

/// A character lies in ranges exactly where it lies in one of them.
pub proof fn law_character_in_ranges(ranges: Seq<(char, char)>, c: char)
    ensures
        in_ranges(ranges, c) <==> exists|r: int|
            0 <= r < ranges.len() && (#[trigger] ranges[r]).0 <= c && c <= ranges[r].1,
{
}

/// A strategy draws as many characters as it says from its ranges, and admits
/// the texts that do not begin with what is barred.
pub proof fn law_strategy_draws_and_admits(texts: TextsView, chars: Seq<char>)
    ensures
        texts.draws(chars) <==> texts.min <= chars.len() <= texts.max && forall|i: int|
            0 <= i < chars.len() ==> in_ranges(texts.ranges, #[trigger] chars[i]),
        texts.admits(chars) <==> texts.barred is None || !(texts.barred->0).is_prefix_of(chars),
        texts.can_be_drawn() ==> texts.min <= texts.max && texts.ranges.len() > 0,
{
}

/// A strategy yields a text exactly where the text begins with the lead and not
/// with what is barred, and the rest is as long as it may be and of characters
/// in the ranges.
pub proof fn law_strategy_yields(texts: TextsView, text: Seq<char>)
    ensures
        texts.yields(text) <==> {
            &&& texts.lead.is_prefix_of(text)
            &&& texts.min <= text.len() - texts.lead.len() <= texts.max
            &&& forall|i: int|
                texts.lead.len() <= i < text.len() ==> in_ranges(texts.ranges, #[trigger] text[i])
            &&& texts.barred is Some ==> !(texts.barred->0).is_prefix_of(text)
        },
{
    let len = texts.lead.len() as int;
    if texts.yields(text) {
        let chars = choose|chars: Seq<char>|
            #[trigger] texts.draws(chars) && text == texts.lead + chars && texts.admits(text);
        assert(texts.lead =~= text.subrange(0, len));
        assert forall|i: int| len <= i < text.len() implies in_ranges(
            texts.ranges,
            #[trigger] text[i],
        ) by {
            assert(in_ranges(texts.ranges, chars[i - len]));
        }
    }
    if texts.lead.is_prefix_of(text) {
        let chars = text.skip(len);
        assert(text =~= texts.lead + chars) by {
            assert forall|i: int| 0 <= i < len implies text[i] == texts.lead[i] by {
                assert(text.subrange(0, len)[i] == text[i]);
            }
        }
        if forall|i: int| len <= i < text.len() ==> in_ranges(texts.ranges, #[trigger] text[i]) {
            assert forall|i: int| 0 <= i < chars.len() implies in_ranges(
                texts.ranges,
                #[trigger] chars[i],
            ) by {
                assert(in_ranges(texts.ranges, text[i + len]));
            }
            if texts.min <= chars.len() <= texts.max {
                assert(texts.draws(chars));
            }
        }
    }
}

/// A strategy bars nothing exactly where every text that it puts together is
/// one of its own; without anything barred it does.
pub proof fn law_strategy_bars_nothing(texts: TextsView)
    ensures
        texts.barred is None ==> texts.bars_nothing(),
        texts.bars_nothing() <==> forall|chars: Seq<char>| #[trigger]
            texts.draws(chars) ==> texts.yields(texts.lead + chars),
{
    if texts.bars_nothing() {
        assert forall|chars: Seq<char>| #[trigger] texts.draws(chars) implies texts.yields(
            texts.lead + chars,
        ) by {
            assert(texts.admits(texts.lead + chars));
        }
    }
    if forall|chars: Seq<char>| #[trigger]
        texts.draws(chars) ==> texts.yields(texts.lead + chars) {
        assert forall|chars: Seq<char>| #[trigger] texts.draws(chars) implies texts.admits(
            texts.lead + chars,
        ) by {
            assert(texts.yields(texts.lead + chars));
        }
    }
}

/// Command names are one to eight lower case letters.
pub proof fn law_command_names_are_letters(name: Seq<char>)
    ensures
        command_names().yields(name) <==> 1 <= name.len() <= 8 && forall|i: int|
            0 <= i < name.len() ==> 'a' <= #[trigger] name[i] <= 'z',
{
    lemma_command_names(name);
}

/// Labels of any shape are one to ten lower case letters, digits and hyphens;
/// those that begin with `main-` have their own strategy, and the others theirs.
pub proof fn law_labels_are_letters_digits_and_hyphens(label: Seq<char>)
    ensures
        ({
            let shaped = 1 <= label.len() <= 10 && forall|i: int|
                0 <= i < label.len() ==> 'a' <= #[trigger] label[i] <= 'z' || '0' <= label[i]
                    <= '9' || label[i] == '-';
            &&& any_labels().yields(label) <==> shaped
            &&& main_dash_labels().yields(label) <==> shaped && "main-"@.is_prefix_of(label)
            &&& non_main_labels().yields(label) <==> shaped && !"main-"@.is_prefix_of(label)
        }),
{
    lemma_any_labels(label);
    lemma_main_dash_labels(label);
    lemma_non_main_labels(label);
    law_labels_split_by_prefix(label);
}

/// Kinds yield the local origin where the local kind is among them, and a remote
/// one where the remote kind is and its URL is drawn and read.
pub proof fn law_kinds_yield(kinds: Seq<OriginKind>, url: Seq<char>)
    ensures
        kinds_yield(kinds, OriginView::Local) <==> kinds.contains(OriginKind::Local),
        kinds_yield(kinds, OriginView::Remote(url)) <==> kinds.contains(OriginKind::Remote)
            && is_remote_text(url) && is_url(url),
{
    if kinds.contains(OriginKind::Local) {
        let i = choose|i: int| 0 <= i < kinds.len() && kinds[i] == OriginKind::Local;
        assert(kind_yields(kinds[i], OriginView::Local));
    }
    if kinds.contains(OriginKind::Remote) && is_remote_text(url) && is_url(url) {
        let i = choose|i: int| 0 <= i < kinds.len() && kinds[i] == OriginKind::Remote;
        assert(kind_yields(kinds[i], OriginView::Remote(url)));
    }
    if kinds_yield(kinds, OriginView::Local) {
        let i = choose|i: int|
            0 <= i < kinds.len() && kind_yields(#[trigger] kinds[i], OriginView::Local);
        assert(kinds[i] == OriginKind::Local);
    }
    if kinds_yield(kinds, OriginView::Remote(url)) {
        let i = choose|i: int|
            0 <= i < kinds.len() && kind_yields(#[trigger] kinds[i], OriginView::Remote(url));
        assert(kinds[i] == OriginKind::Remote);
    }
}

/// The URLs that are drawn: of a first label of one to eleven characters and a
/// second one of two to five letters.
pub proof fn law_drawn_urls(secure: bool, host: Seq<char>, dot: int)
    requires
        is_host_split_at(host, dot),
        dot <= 11,
        2 <= host.len() - dot - 1 <= 5,
    ensures
        is_remote_text(
            (if secure {
                "https://"@
            } else {
                "http://"@
            }) + host,
        ),
        url_regex() == "https?://[a-z][a-z0-9-]{0,10}\\.[a-z]{2,5}"@,
{
    let text = (if secure {
        "https://"@
    } else {
        "http://"@
    }) + host;
    assert(is_url_of(text, host));
}

/// Where a text that can be drawn is refused, there is one, and its host is in
/// punycode.
pub proof fn law_refused_text_is_in_punycode() -> (refused: (Seq<char>, Seq<char>, int))
    requires
        some_remote_text_is_refused(),
    ensures
        is_remote_text(refused.0),
        !is_url(refused.0),
        is_host_split_at(refused.1, refused.2),
        refused.0 == "http://"@ + refused.1 || refused.0 == "https://"@ + refused.1,
        "xn--"@.is_prefix_of(refused.1),
{
    let text = choose|text: Seq<char>| #[trigger] is_remote_text(text) && !is_url(text);
    let split = law_no_other_urls_are_drawn(text);
    law_texts_that_are_urls(text, text == "https://"@ + split.0, split.0, split.1);
    (text, split.0, split.1)
}

/// No other URLs are drawn.
pub proof fn law_no_other_urls_are_drawn(text: Seq<char>) -> (split: (Seq<char>, int))
    requires
        is_remote_text(text),
    ensures
        is_host_split_at(split.0, split.1),
        split.1 <= 11,
        2 <= split.0.len() - split.1 - 1 <= 5,
        text == "http://"@ + split.0 || text == "https://"@ + split.0,
{
    let (host, dot) = choose|host: Seq<char>, dot: int|
        {
            &&& #[trigger] is_url_of(text, host)
            &&& #[trigger] is_host_split_at(host, dot)
            &&& dot <= 11
            &&& 2 <= host.len() - dot - 1 <= 5
        };
    (host, dot)
}

/// What is left of a text has only characters of the text.
proof fn lemma_undropped_characters(text: Seq<char>)
    ensures
        forall|i: int|
            0 <= i < undropped(text).len() ==> text.contains(#[trigger] undropped(text)[i]),
    decreases text.len(),
{
    reveal(Seq::filter);
    if text.len() > 0 {
        let rest = text.drop_last();
        lemma_undropped_characters(rest);
        assert forall|i: int| 0 <= i < undropped(text).len() implies text.contains(
            #[trigger] undropped(text)[i],
        ) by {
            if i < undropped(rest).len() {
                assert(rest.contains(undropped(rest)[i]));
                let j = choose|j: int| 0 <= j < rest.len() && rest[j] == undropped(rest)[i];
                assert(text[j] == undropped(text)[i]);
            } else {
                assert(text[text.len() - 1] == undropped(text)[i]);
            }
        }
    }
}

/// The parser of URL patterns takes a text with any groups and escapes, if it
/// has no closing bracket, no dot, no percent sign, no tab and no line break.
pub proof fn law_texts_without_dots_are_parser_safe(text: Seq<char>)
    requires
        forall|i: int|
            0 <= i < text.len() ==> {
                &&& #[trigger] text[i] != ']' && text[i] != '.' && text[i] != '%'
                &&& text[i] != '\t' && text[i] != '\n' && text[i] != '\r'
            },
    ensures
        is_parser_safe(text),
{
    lemma_undropped_characters(text);
    assert forall|at: int| 0 <= at < undropped(text).len() implies !#[trigger] is_double_dot_at(
        undropped(text),
        at,
    ) by {
        assert(text.contains(undropped(text)[at]));
    }
}

/// It takes a text of a scheme and what follows its colon and slashes, with any
/// dots and percent signs in it, if there is no wildcard, modifier, expression,
/// name, group, escape, closing bracket, tab or line break.
pub proof fn law_paths_of_fixed_text_are_parser_safe(secure: bool, rest: Seq<char>)
    requires
        forall|i: int|
            0 <= i < rest.len() ==> {
                &&& #[trigger] rest[i] != '*' && rest[i] != '+' && rest[i] != '?' && rest[i] != '#'
                &&& rest[i] != '(' && rest[i] != ')' && rest[i] != ':' && rest[i] != ']'
                &&& rest[i] != '{' && rest[i] != '}' && rest[i] != '\\'
                &&& rest[i] != '\t' && rest[i] != '\n' && rest[i] != '\r'
            },
    ensures
        is_parser_safe(
            (if secure {
                "https://"@
            } else {
                "http://"@
            }) + rest,
        ),
{
    reveal_strlit("http://");
    reveal_strlit("https://");
    let scheme = if secure {
        "https://"@
    } else {
        "http://"@
    };
    let text = scheme + rest;
    let colon: int = if secure {
        5
    } else {
        4
    };
    assert forall|i: int| 0 <= i < text.len() implies {
        &&& #[trigger] text[i] != ']' && !is_dropped(text[i])
        &&& i != colon ==> !is_part_end(text[i])
    } by {
        if i < scheme.len() {
            assert(text[i] == scheme[i]);
        } else {
            assert(text[i] == rest[i - scheme.len()]);
        }
    }
    assert(text[colon] == scheme[colon] && text[colon + 1] == scheme[colon + 1]);
    assert forall|i: int| 0 <= i <= colon implies #[trigger] text[i] != '/' by {
        assert(text[i] == scheme[i]);
    }
    lemma_fixed_text_is_safe(text, colon);
}

/// A text with one colon, a slash behind it and none before, and no other end
/// of fixed text.
proof fn lemma_fixed_text_is_safe(text: Seq<char>, colon: int)
    requires
        0 <= colon < text.len() - 1,
        text[colon] == ':',
        text[colon + 1] == '/',
        forall|i: int| 0 <= i <= colon ==> #[trigger] text[i] != '/',
        forall|i: int|
            0 <= i < text.len() ==> {
                &&& #[trigger] text[i] != ']' && !is_dropped(text[i])
                &&& i != colon ==> !is_part_end(text[i])
            },
    ensures
        is_parser_safe(text),
{
    lemma_nothing_dropped(text);
    let slash = colon + 1;
    assert(follows_name(text, slash)) by {
        assert(text[colon] == ':');
    }
    assert(starts_fixed_text(text, slash));
    assert forall|at: int| 0 <= at < text.len() && #[trigger] is_double_dot_at(
        undropped(text),
        at,
    ) implies stays_below(text, at) by {
        assert(is_kept_through(text, at));
        if at > 0 && text[at - 1] == '/' {
            assert(slash <= at - 1);
            assert(is_rooted(text, at - 1));
        }
    }
}

/// It takes no text with a closing bracket that no opening one stands before.
pub proof fn law_unopened_bracket_is_not_parser_safe(text: Seq<char>, at: int)
    requires
        0 <= at < text.len(),
        text[at] == ']',
        forall|i: int| 0 <= i < at ==> #[trigger] text[i] != '[',
    ensures
        !is_parser_safe(text),
{
    if is_open_at(text, at) {
        let from = choose|from: int| is_open_between(text, from, at);
        assert(text[from] == '[');
    }
}

/// It takes a text of letters, digits, colons and slashes with a bracketed run of
/// letters, digits and colons in it.
pub proof fn law_address_in_brackets_is_parser_safe(
    before: Seq<char>,
    inside: Seq<char>,
    after: Seq<char>,
)
    requires
        forall|i: int|
            0 <= i < before.len() ==> 'a' <= #[trigger] before[i] <= 'z' || '/' <= before[i] <= ':',
        forall|i: int|
            0 <= i < inside.len() ==> 'a' <= #[trigger] inside[i] <= 'z' || '0' <= inside[i] <= ':',
        forall|i: int|
            0 <= i < after.len() ==> 'a' <= #[trigger] after[i] <= 'z' || '/' <= after[i] <= ':',
    ensures
        is_parser_safe(before.push('[') + inside.push(']') + after),
{
    let text = before.push('[') + inside.push(']') + after;
    let open = before.len() as int;
    let close = open + 1 + inside.len();
    assert forall|i: int| 0 <= i < text.len() implies {
        &&& #[trigger] text[i] != '.' && text[i] != '%' && !is_dropped(text[i])
        &&& text[i] == ']' <==> i == close
    } by {
        if i < open {
            assert(text[i] == before[i]);
        } else if open < i < close {
            assert(text[i] == inside[i - open - 1]);
        } else if i > close {
            assert(text[i] == after[i - close - 1]);
        }
    }
    assert(is_open_between(text, open, close)) by {
        assert forall|i: int| open < i < close implies is_bracketed(#[trigger] text[i]) by {
            assert(text[i] == inside[i - open - 1]);
        }
    }
    lemma_closed_bracket_is_safe(text, open, close);
}

/// A text with one closed bracket and without dots.
proof fn lemma_closed_bracket_is_safe(text: Seq<char>, open: int, close: int)
    requires
        is_open_between(text, open, close),
        forall|i: int|
            0 <= i < text.len() ==> {
                &&& #[trigger] text[i] != '.' && text[i] != '%' && !is_dropped(text[i])
                &&& text[i] == ']' <==> i == close
            },
    ensures
        is_parser_safe(text),
{
    lemma_nothing_dropped(text);
    assert(is_open_at(text, close));
    assert(blanks_leave_text(text));
    assert(!text.contains('{') && !text.contains('\\'));
    assert(brackets_close(text));
    assert forall|at: int| 0 <= at < undropped(text).len() implies !#[trigger] is_double_dot_at(
        undropped(text),
        at,
    ) by {
        assert(text[at] != '.');
    }
}

/// Two URL patterns are equal where the outside comparison says so.
pub proof fn law_url_patterns_equal(first: RemoteUrlPattern, second: RemoteUrlPattern)
    ensures
        first.eq_spec(&second) <==> url_pattern_same(first@, second@),
        RemoteUrlPattern::obeys_eq_spec(),
{
}

} // verus!
