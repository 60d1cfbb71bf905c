//! URLs, and the URL patterns that remote contexts are written in.

use crate::text::{ParseError, chars_of, is_digit, is_ldh, is_lower};
use vstd::prelude::*;

verus! {

/// A host of two labels: a lower case letter followed by letters, digits and
/// hyphens, the dot at position `dot`, then lower case letters.
pub open spec fn is_host_split_at(host: Seq<char>, dot: int) -> bool {
    &&& 0 < dot < host.len() - 1
    &&& host[dot] == '.'
    &&& is_lower(host[0])
    &&& forall|i: int| 1 <= i < dot ==> is_ldh(host[i])
    &&& forall|i: int| dot < i < host.len() ==> is_lower(host[i])
}

/// A host of two plain labels.
pub open spec fn is_plain_host(host: Seq<char>) -> bool {
    exists|dot: int| is_host_split_at(host, dot)
}

/// Whether the first label of a host announces punycode.
pub open spec fn is_punycode(host: Seq<char>) -> bool {
    "xn--"@.is_prefix_of(host)
}

/// The `http` URL of a host.
pub open spec fn http_url(host: Seq<char>) -> Seq<char> {
    "http://"@ + host
}

/// The `https` URL of a host.
pub open spec fn https_url(host: Seq<char>) -> Seq<char> {
    "https://"@ + host
}

/// Whether `text` is the `http` or `https` URL of `host`.
pub open spec fn is_url_of(text: Seq<char>, host: Seq<char>) -> bool {
    text == http_url(host) || text == https_url(host)
}

/// An `http` or `https` URL of a plain host, with nothing after the host.
pub open spec fn is_plain_url(text: Seq<char>) -> bool {
    exists|host: Seq<char>| is_plain_host(host) && #[trigger] is_url_of(text, host)
}

/// A plain URL of a host that is not in punycode, of ordinary length.
pub open spec fn is_certain_url(text: Seq<char>) -> bool {
    exists|host: Seq<char>|
        {
            &&& is_plain_host(host)
            &&& !is_punycode(host)
            &&& host.len() <= 253
            &&& #[trigger] is_url_of(text, host)
        }
}

/// The serialization of the URL that `url::Url::parse` reads from this text,
/// or `None` where it refuses the text.
pub uninterp spec fn url_serialization(text: Seq<char>) -> Option<Seq<char>>;

/// The texts that are absolute URLs.
pub open spec fn is_url(text: Seq<char>) -> bool {
    is_certain_url(text) || url_serialization(text) is Some
}

/// A host of one label: a lower case letter followed by letters, digits and
/// hyphens.
pub open spec fn is_single_label(host: Seq<char>) -> bool {
    &&& host.len() > 0
    &&& is_lower(host[0])
    &&& forall|i: int| 1 <= i < host.len() ==> is_ldh(#[trigger] host[i])
}

/// A port without a leading zero.
pub open spec fn is_port(port: Seq<char>) -> bool {
    &&& port.len() > 0
    &&& port[0] != '0'
    &&& forall|i: int| 0 <= i < port.len() ==> is_digit(#[trigger] port[i])
}

/// A host of one or two plain labels.
pub open spec fn is_kept_host(host: Seq<char>) -> bool {
    is_plain_host(host) || is_single_label(host)
}

/// Such a host and a port other than the default one.
pub open spec fn is_host_with_port(authority: Seq<char>, default: Seq<char>) -> bool {
    exists|host: Seq<char>, port: Seq<char>|
        {
            &&& authority == #[trigger] (host.push(':') + port)
            &&& is_kept_host(host)
            &&& is_port(port)
            &&& port != default
        }
}

/// A URL under this scheme of one or two plain labels, perhaps with a port that
/// is not the default one, and with nothing behind it.
pub open spec fn is_kept_under(text: Seq<char>, scheme: Seq<char>, default: Seq<char>) -> bool {
    &&& scheme.is_prefix_of(text)
    &&& is_kept_host(text.skip(scheme.len() as int)) || is_host_with_port(
        text.skip(scheme.len() as int),
        default,
    )
}

/// An `http` or `https` URL of one or two plain labels, perhaps with a port that
/// is not the default one, and with nothing behind it.
pub open spec fn is_kept_url(text: Seq<char>) -> bool {
    is_kept_under(text, "http://"@, "80"@) || is_kept_under(text, "https://"@, "443"@)
}

/// How the URL that is read from a text is written out.
pub open spec fn url_str(text: Seq<char>) -> Seq<char> {
    if is_plain_url(text) || is_kept_url(text) {
        text.push('/')
    } else {
        url_serialization(text)->0
    }
}

/// `url::Url::parse`, followed by the serialization of the URL. A host of
/// plain labels is written out as it was read, with the root path behind it,
/// and is refused for a label in ill-formed punycode or for a length over four
/// gigabytes only. So is, where it is not refused, a host of one such label, and
/// either with a port, if that has no leading zero and is not the default one.
#[verifier::external_body]
fn url_parse(text: &str) -> (serialization: Option<String>)
    ensures
        match serialization {
            Some(written) => url_serialization(text@) == Some(written@),
            None => url_serialization(text@) is None,
        },
        is_certain_url(text@) ==> serialization is Some,
        is_plain_url(text@) ==> (serialization matches Some(written) ==> written@ == text@.push(
            '/',
        )),
        is_kept_url(text@) ==> (serialization matches Some(written) ==> written@ == text@.push(
            '/',
        )),
{
    url::Url::parse(text).ok().map(String::from)
}

/// A URL.
#[derive(Debug)]
pub struct Url {
    text: String,
    serialization: String,
}

impl View for Url {
    type V = Seq<char>;

    /// The text that the URL was read from.
    closed spec fn view(&self) -> Seq<char> {
        self.text@
    }
}

impl Url {
    #[verifier::type_invariant]
    spec fn wf(self) -> bool {
        &&& is_url(self.text@)
        &&& self.serialization@ == url_str(self.text@)
        &&& url_serialization(self.text@) == Some(self.serialization@)
    }

    /// The URL that `text` spells.
    pub fn parse(text: &str) -> (parsed: Result<Url, ParseError>)
        ensures
            match parsed {
                Ok(url) => is_url(text@) && url@ == text@,
                Err(error) => !is_url(text@) && error == ParseError::Url,
            },
            parsed is Ok <==> url_serialization(text@) is Some,
    {
        match url_parse(text) {
            Some(serialization) => Ok(Url { text: text.to_owned(), serialization }),
            None => Err(ParseError::Url),
        }
    }

    /// How the URL is written out.
    pub fn as_str(&self) -> (text: &str)
        ensures
            text@ == url_str(self@),
            url_serialization(self@) == Some(text@),
    {
        proof {
            use_type_invariant(self);
        }
        self.serialization.as_str()
    }
}

impl Clone for Url {
    fn clone(&self) -> (copy: Self)
        ensures
            copy@ == self@,
    {
        proof {
            use_type_invariant(self);
        }
        Url { text: self.text.clone(), serialization: self.serialization.clone() }
    }
}

/// A tab or a line break, which the parser takes out of fixed text.
pub open spec fn is_blank(c: char) -> bool {
    c == '\t' || c == '\n' || c == '\r'
}

/// A character that groups or escapes in a URL pattern, or is taken out of it.
pub open spec fn is_dropped(c: char) -> bool {
    c == '{' || c == '}' || c == '\\' || is_blank(c)
}

/// The text without what is dropped from it.
pub open spec fn undropped(text: Seq<char>) -> Seq<char> {
    text.filter(|c: char| !is_dropped(c))
}

/// Whether nothing is dropped from the text up to this position.
pub open spec fn is_kept_through(text: Seq<char>, at: int) -> bool {
    at < text.len() && forall|i: int| 0 <= i <= at ==> !is_dropped(#[trigger] text[i])
}

/// An ASCII letter or digit.
pub open spec fn is_alphanumeric(c: char) -> bool {
    'a' <= c <= 'z' || 'A' <= c <= 'Z' || '0' <= c <= '9'
}

/// A character at which fixed text may end.
pub open spec fn is_part_end(c: char) -> bool {
    c == '*' || c == '+' || c == '?' || c == '#' || c == '(' || c == ')' || c == ':'
}

/// Whether the scheme ends at this position: the first colon, and two slashes
/// behind it.
pub open spec fn is_scheme_end(text: Seq<char>, at: int) -> bool {
    &&& 0 <= at < text.len() - 2
    &&& text[at] == ':' && text[at + 1] == '/' && text[at + 2] == '/'
    &&& forall|i: int| 0 <= i < at ==> #[trigger] text[i] != ':'
}

/// Whether this is the first slash behind the scheme and its slashes.
pub open spec fn is_path_start(text: Seq<char>, at: int) -> bool {
    &&& 0 <= at < text.len()
    &&& text[at] == '/'
    &&& exists|end: int| #[trigger]
        is_scheme_end(text, end) && end + 3 <= at && forall|i: int|
            end + 3 <= i < at ==> #[trigger] text[i] != '/'
}

/// Whether a colon and then letters and digits, if any, stand before this
/// position.
pub open spec fn follows_name(text: Seq<char>, at: int) -> bool {
    exists|colon: int|
        0 <= colon < at && #[trigger] text[colon] == ':' && forall|i: int|
            colon < i < at ==> is_alphanumeric(#[trigger] text[i])
}

/// Whether no fixed text of a path can begin before this slash and go on behind
/// it: the path starts here, or a wildcard, a modifier or a name ends here.
pub open spec fn starts_fixed_text(text: Seq<char>, at: int) -> bool {
    &&& 0 <= at < text.len() && text[at] == '/'
    &&& {
        ||| is_path_start(text, at)
        ||| at > 0 && (text[at - 1] == '*' || text[at - 1] == '+' || text[at - 1] == '?')
        ||| follows_name(text, at)
    }
}

/// Whether fixed text goes from a slash through this position.
pub open spec fn is_rooted(text: Seq<char>, at: int) -> bool {
    exists|slash: int|
        slash <= at && #[trigger] starts_fixed_text(text, slash) && forall|i: int|
            slash <= i <= at ==> !is_part_end(#[trigger] text[i])
}

/// The number of characters that spell a dot at this position, encoded or not.
pub open spec fn dot_len(text: Seq<char>, at: int) -> int {
    if 0 <= at < text.len() && text[at] == '.' {
        1
    } else if 0 <= at < text.len() - 2 && text[at] == '%' && text[at + 1] == '2' && (text[at + 2]
        == 'e' || text[at + 2] == 'E') {
        3
    } else {
        0
    }
}

/// Whether two dots begin at this position.
pub open spec fn is_double_dot_at(text: Seq<char>, at: int) -> bool {
    dot_len(text, at) > 0 && dot_len(text, at + dot_len(text, at)) > 0
}

/// Whether two dots at this position of what is left of the text cannot climb
/// above the start of fixed text: they follow no slash, or fixed text that
/// begins with one. Behind a group or an escape the former alone counts, and no
/// escape may stand anywhere.
pub open spec fn stays_below(text: Seq<char>, at: int) -> bool {
    if is_kept_through(text, at) {
        at == 0 || text[at - 1] != '/' || is_rooted(text, at - 1)
    } else {
        &&& !text.contains('\\')
        &&& at > 0 ==> undropped(text)[at - 1] != '/'
    }
}

/// Whether no path in this text climbs above the start of fixed text.
pub open spec fn never_climbs(text: Seq<char>) -> bool {
    forall|at: int|
        0 <= at < undropped(text).len() && #[trigger] is_double_dot_at(undropped(text), at)
            ==> stays_below(text, at)
}

/// A character that may stand between square brackets: none that ends a part of
/// a URL, none that groups or escapes, and no further bracket.
pub open spec fn is_bracketed(c: char) -> bool {
    &&& c != '[' && c != ']' && c != '(' && c != ')'
    &&& c != '@' && c != '/' && c != '?' && c != '#'
    &&& c != '{' && c != '}' && c != '\\'
}

/// Whether a square bracket is opened at `from` and still open at `to`.
pub open spec fn is_open_between(text: Seq<char>, from: int, to: int) -> bool {
    &&& 0 <= from < to <= text.len()
    &&& text[from] == '['
    &&& forall|i: int| from < i < to ==> is_bracketed(#[trigger] text[i])
}

/// Whether a square bracket is open at this position.
pub open spec fn is_open_at(text: Seq<char>, at: int) -> bool {
    exists|from: int| is_open_between(text, from, at)
}

/// Whether the text has a scheme without groups, escapes and expressions, and
/// two slashes behind it.
pub open spec fn has_plain_scheme(text: Seq<char>) -> bool {
    exists|end: int| #[trigger]
        is_scheme_end(text, end) && forall|i: int|
            0 <= i < end ==> #[trigger] text[i] != '{' && text[i] != '\\' && text[i] != '('
}

/// Whether every `]` closes a `[`, in a text without groups and escapes or with
/// a plain scheme.
pub open spec fn brackets_close(text: Seq<char>) -> bool {
    &&& text.contains(']') && (text.contains('{') || text.contains('\\')) ==> has_plain_scheme(text)
    &&& forall|i: int| 0 <= i < text.len() && #[trigger] text[i] == ']' ==> is_open_at(text, i)
}

/// Whether every tab and line break follows a slash, a dot or a hyphen, which
/// stay in fixed text and end no name.
pub open spec fn blanks_leave_text(text: Seq<char>) -> bool {
    forall|i: int|
        0 <= i < text.len() && is_blank(#[trigger] text[i]) ==> i > 0 && (text[i - 1] == '/'
            || text[i - 1] == '.' || text[i - 1] == '-')
}

/// The texts on which the parser of URL patterns is sure to return. It counts
/// on square brackets that are closed in order, on fixed text that does not
/// vanish when tabs and line breaks are taken out of it, and on paths that do
/// not climb above the start of fixed text without a slash.
pub open spec fn is_parser_safe(text: Seq<char>) -> bool {
    &&& blanks_leave_text(text)
    &&& brackets_close(text)
    &&& never_climbs(text)
}

/// Whether a character is among these.
fn contains(chars: &Vec<char>, c: char) -> (found: bool)
    ensures
        found == chars@.contains(c),
{
    for i in 0..chars.len()
        invariant
            forall|j: int| 0 <= j < i ==> chars@[j] != c,
    {
        if chars[i] == c {
            return true;
        }
    }
    false
}

/// Whether a character is dropped.
fn dropped(c: char) -> (found: bool)
    ensures
        found == is_dropped(c),
{
    c == '{' || c == '}' || c == '\\' || c == '\t' || c == '\n' || c == '\r'
}

/// The characters without those that are dropped.
fn without_dropped(chars: &Vec<char>) -> (plain: Vec<char>)
    ensures
        plain@ == undropped(chars@),
{
    let mut plain: Vec<char> = Vec::new();
    assert(chars@.take(0) =~= Seq::empty());
    proof {
        reveal(Seq::filter);
    }
    for i in 0..chars.len()
        invariant
            plain@ == undropped(chars@.take(i as int)),
    {
        let c: char = chars[i];
        proof {
            reveal(Seq::filter);
            assert(chars@.take(i + 1).drop_last() =~= chars@.take(i as int));
        }
        if !dropped(c) {
            plain.push(c);
        }
    }
    assert(chars@.take(chars@.len() as int) =~= chars@);
    plain
}

/// The number of characters before the first that is dropped.
fn kept_len(chars: &Vec<char>) -> (len: usize)
    ensures
        forall|at: int| 0 <= at ==> (#[trigger] is_kept_through(chars@, at) <==> at < len),
{
    for i in 0..chars.len()
        invariant
            forall|j: int| 0 <= j < i ==> !is_dropped(#[trigger] chars@[j]),
    {
        if dropped(chars[i]) {
            assert(is_dropped(chars@[i as int]));
            return i;
        }
    }
    chars.len()
}

/// Where the scheme ends, if two slashes follow its colon.
fn scheme_end(chars: &Vec<char>) -> (end: Option<usize>)
    ensures
        match end {
            Some(end) => is_scheme_end(chars@, end as int),
            None => forall|at: int| !#[trigger] is_scheme_end(chars@, at),
        },
{
    for i in 0..chars.len()
        invariant
            forall|j: int| 0 <= j < i ==> #[trigger] chars@[j] != ':',
    {
        if chars[i] == ':' {
            if chars.len() - i > 2 && chars[i + 1] == '/' && chars[i + 2] == '/' {
                return Some(i);
            }
            assert forall|at: int| !#[trigger] is_scheme_end(chars@, at) by {
                if is_scheme_end(chars@, at) {
                    assert(chars@[i as int] == ':');
                    assert(chars@[at] == ':');
                }
            }
            return None;
        }
    }
    None
}

/// Whether this is the first slash behind the scheme and its slashes.
fn path_starts(chars: &Vec<char>, at: usize) -> (found: bool)
    requires
        at < chars@.len(),
    ensures
        found == is_path_start(chars@, at as int),
{
    let end: usize = match scheme_end(chars) {
        Some(end) => end,
        None => return false,
    };
    assert forall|other: int| #[trigger] is_scheme_end(chars@, other) implies other == end by {
        assert(chars@[other] == ':');
        assert(chars@[end as int] == ':');
    }
    assert(at < chars.len());
    if chars[at] != '/' || at < end + 3 {
        return false;
    }
    for i in end + 3..at
        invariant
            at < chars@.len(),
            end + 3 <= at,
            is_scheme_end(chars@, end as int),
            forall|other: int| #[trigger] is_scheme_end(chars@, other) ==> other == end,
            forall|j: int| end + 3 <= j < i ==> #[trigger] chars@[j] != '/',
    {
        if chars[i] == '/' {
            assert(chars@[i as int] == '/');
            return false;
        }
    }
    true
}

/// Whether a colon and then letters and digits stand before this position.
fn name_ends(chars: &Vec<char>, at: usize) -> (found: bool)
    requires
        at <= chars@.len(),
    ensures
        found == follows_name(chars@, at as int),
{
    let mut i: usize = at;
    while i > 0
        invariant
            i <= at <= chars@.len(),
            forall|j: int| i <= j < at ==> is_alphanumeric(#[trigger] chars@[j]),
        decreases i,
    {
        i = i - 1;
        let c: char = chars[i];
        if c == ':' {
            assert(chars@[i as int] == ':');
            return true;
        }
        if !(('a' <= c && c <= 'z') || ('A' <= c && c <= 'Z') || ('0' <= c && c <= '9')) {
            assert(!is_alphanumeric(chars@[i as int]) && chars@[i as int] != ':');
            return false;
        }
    }
    false
}

/// Whether fixed text goes from a slash through this position.
fn rooted(chars: &Vec<char>, at: usize) -> (found: bool)
    requires
        at < chars@.len(),
    ensures
        found == is_rooted(chars@, at as int),
{
    assert(at < chars.len());
    let mut i: usize = at + 1;
    while i > 0
        invariant
            i <= at + 1 <= chars@.len(),
            forall|j: int|
                i <= j <= at ==> !is_part_end(#[trigger] chars@[j]) && !starts_fixed_text(
                    chars@,
                    j,
                ),
        decreases i,
    {
        i = i - 1;
        let c: char = chars[i];
        if c == '*' || c == '+' || c == '?' || c == '#' || c == '(' || c == ')' || c == ':' {
            assert(is_part_end(chars@[i as int]));
            return false;
        }
        let modified: bool = i > 0 && (chars[i - 1] == '*' || chars[i - 1] == '+' || chars[i - 1]
            == '?');
        if c == '/' && (modified || name_ends(chars, i) || path_starts(chars, i)) {
            assert(starts_fixed_text(chars@, i as int));
            return true;
        }
    }
    false
}

/// The number of characters that spell a dot at this position.
fn dot_at(chars: &Vec<char>, at: usize) -> (len: usize)
    ensures
        len == dot_len(chars@, at as int),
{
    if at >= chars.len() {
        0
    } else if chars[at] == '.' {
        1
    } else if chars.len() - at > 2 && chars[at] == '%' && chars[at + 1] == '2' && (chars[at + 2]
        == 'e' || chars[at + 2] == 'E') {
        3
    } else {
        0
    }
}

/// Whether no path in this text climbs above the start of fixed text.
fn climbs_nowhere(chars: &Vec<char>) -> (safe: bool)
    ensures
        safe == never_climbs(chars@),
{
    let escapes: bool = contains(chars, '\\');
    let plain: Vec<char> = without_dropped(chars);
    let kept: usize = kept_len(chars);
    for i in 0..plain.len()
        invariant
            escapes == chars@.contains('\\'),
            plain@ == undropped(chars@),
            forall|at: int| 0 <= at ==> (#[trigger] is_kept_through(chars@, at) <==> at < kept),
            forall|at: int|
                0 <= at < i && #[trigger] is_double_dot_at(plain@, at) ==> stays_below(chars@, at),
    {
        let first: usize = dot_at(&plain, i);
        if first > 0 && dot_at(&plain, i + first) > 0 {
            assert(is_double_dot_at(undropped(chars@), i as int));
            let below: bool = if i < kept {
                assert(is_kept_through(chars@, i as int));
                i == 0 || chars[i - 1] != '/' || rooted(chars, i - 1)
            } else {
                assert(!is_kept_through(chars@, i as int));
                !escapes && (i == 0 || plain[i - 1] != '/')
            };
            if !below {
                return false;
            }
        }
    }
    true
}

/// Whether the text has a scheme without groups, escapes and expressions, and
/// two slashes behind it.
fn scheme_is_plain(chars: &Vec<char>) -> (plain: bool)
    ensures
        plain == has_plain_scheme(chars@),
{
    let end: usize = match scheme_end(chars) {
        Some(end) => end,
        None => return false,
    };
    assert forall|other: int| #[trigger] is_scheme_end(chars@, other) implies other == end by {
        assert(chars@[other] == ':');
        assert(chars@[end as int] == ':');
    }
    for i in 0..end
        invariant
            is_scheme_end(chars@, end as int),
            forall|other: int| #[trigger] is_scheme_end(chars@, other) ==> other == end,
            forall|j: int|
                0 <= j < i ==> #[trigger] chars@[j] != '{' && chars@[j] != '\\' && chars@[j] != '(',
    {
        let c: char = chars[i];
        if c == '{' || c == '\\' || c == '(' {
            assert(chars@[i as int] == c);
            return false;
        }
    }
    true
}

/// Whether every `]` closes a `[`, in a text without groups and escapes or with
/// a plain scheme.
fn closes_brackets(chars: &Vec<char>) -> (safe: bool)
    ensures
        safe == brackets_close(chars@),
{
    let grouped: bool = contains(chars, '{') || contains(chars, '\\');
    if contains(chars, ']') && grouped && !scheme_is_plain(chars) {
        return false;
    }
    let mut open: bool = false;
    for i in 0..chars.len()
        invariant
            open == is_open_at(chars@, i as int),
            forall|j: int| 0 <= j < i && #[trigger] chars@[j] == ']' ==> is_open_at(chars@, j),
    {
        let c: char = chars[i];
        let ghost at = i as int;
        let ghost next = i + 1;
        if c == ']' && !open {
            return false;
        }
        if c == '[' {
            open = true;
            assert(is_open_between(chars@, at, next));
        } else {
            open = open && c != ']' && c != '(' && c != ')' && c != '@' && c != '/' && c != '?'
                && c != '#' && c != '{' && c != '}' && c != '\\';
            proof {
                if open {
                    let from = choose|from: int| is_open_between(chars@, from, at);
                    assert(is_open_between(chars@, from, next));
                }
                if is_open_at(chars@, next) {
                    let from = choose|from: int| is_open_between(chars@, from, next);
                    assert(is_bracketed(chars@[at]));
                    assert(is_open_between(chars@, from, at));
                }
            }
        }
    }
    true
}

/// Whether every tab and line break follows a slash, a dot or a hyphen.
fn keeps_text(chars: &Vec<char>) -> (safe: bool)
    ensures
        safe == blanks_leave_text(chars@),
{
    for i in 0..chars.len()
        invariant
            forall|j: int|
                0 <= j < i && is_blank(#[trigger] chars@[j]) ==> j > 0 && (chars@[j - 1] == '/'
                    || chars@[j - 1] == '.' || chars@[j - 1] == '-'),
    {
        let c: char = chars[i];
        if (c == '\t' || c == '\n' || c == '\r') && !(i > 0 && (chars[i - 1] == '/' || chars[i - 1]
            == '.' || chars[i - 1] == '-')) {
            assert(is_blank(chars@[i as int]));
            return false;
        }
    }
    true
}

/// Whether the parser of URL patterns is sure to return on this text.
pub fn parser_safe(text: &str) -> (safe: bool)
    ensures
        safe == is_parser_safe(text@),
{
    let chars: Vec<char> = chars_of(text);
    keeps_text(&chars) && closes_brackets(&chars) && climbs_nowhere(&chars)
}

/// The pattern for any host under a scheme, on the scheme's default port.
pub open spec fn is_any_host(pattern: Seq<char>) -> bool {
    pattern == "http://*"@ || pattern == "https://*"@
}

/// Whether `tauri_utils::acl::RemoteUrlPattern` is parsed from this text.
pub uninterp spec fn url_pattern_valid(pattern: Seq<char>) -> bool;

/// What `tauri_utils::acl::RemoteUrlPattern::test` answers for the pattern and
/// the URL that are parsed from these texts.
pub uninterp spec fn url_pattern_match(pattern: Seq<char>, url: Seq<char>) -> bool;

/// The texts that are URL patterns.
pub open spec fn is_url_pattern(pattern: Seq<char>) -> bool {
    is_any_host(pattern) || is_certain_url(pattern) || url_pattern_valid(pattern)
}

/// Whether a URL pattern admits the URL that is read from a text.
pub open spec fn url_pattern_admits(pattern: Seq<char>, url: Seq<char>) -> bool {
    if is_any_host(pattern) && is_plain_url(url) {
        pattern.drop_last().is_prefix_of(url)
    } else if is_plain_url(pattern) && is_plain_url(url) {
        pattern == url
    } else {
        url_pattern_match(pattern, url)
    }
}

/// The `FromStr` of `tauri_utils::acl::RemoteUrlPattern`: whether it returns
/// `Ok`, as it does for a scheme with any host and for a plain URL whose host
/// is not in punycode.
#[verifier::external_body]
fn url_pattern_compiles(pattern: &str) -> (valid: bool)
    requires
        is_parser_safe(pattern@),
    ensures
        valid == url_pattern_valid(pattern@),
        is_any_host(pattern@) || is_certain_url(pattern@) ==> valid,
{
    pattern.parse::<tauri_utils::acl::RemoteUrlPattern>().is_ok()
}

/// `tauri_utils::acl::RemoteUrlPattern::test`, on texts that parse. The parser
/// leaves the path, the query and the fragment of such a pattern open where
/// the text gives none, and takes a port that is not given for the default
/// one. So a scheme with any host admits a plain URL of that scheme, and a
/// plain URL as a pattern admits, among plain URLs, itself only.
#[verifier::external_body]
fn url_pattern_test(pattern: &str, url: &str) -> (found: bool)
    requires
        is_parser_safe(pattern@),
        is_url_pattern(pattern@),
        is_url(url@),
    ensures
        found == url_pattern_match(pattern@, url@),
        is_any_host(pattern@) && is_plain_url(url@) ==> found
            == pattern@.drop_last().is_prefix_of(url@),
        is_plain_url(pattern@) && is_plain_url(url@) ==> found == (pattern@ == url@),
{
    let url = url::Url::parse(url).unwrap();
    pattern.parse::<tauri_utils::acl::RemoteUrlPattern>().unwrap().test(&url)
}

/// Whether the values of `tauri_utils::acl::RemoteUrlPattern` that are parsed
/// from these texts are equal.
pub uninterp spec fn url_pattern_same(first: Seq<char>, second: Seq<char>) -> bool;

/// The `PartialEq` of `tauri_utils::acl::RemoteUrlPattern`, on texts that
/// parse: it compares the patterns of the eight parts of a URL, so that it takes
/// every pattern for equal to itself, and some for equal that are spelled
/// differently.
#[verifier::external_body]
fn url_patterns_equal(first: &str, second: &str) -> (equal: bool)
    requires
        is_parser_safe(first@) && is_url_pattern(first@),
        is_parser_safe(second@) && is_url_pattern(second@),
    ensures
        equal == url_pattern_same(first@, second@),
        first@ == second@ ==> equal,
{
    let first = first.parse::<tauri_utils::acl::RemoteUrlPattern>().unwrap();
    let second = second.parse::<tauri_utils::acl::RemoteUrlPattern>().unwrap();
    first == second
}

/// A pattern over URLs.
#[derive(Debug)]
pub struct RemoteUrlPattern {
    text: String,
}

impl View for RemoteUrlPattern {
    type V = Seq<char>;

    closed spec fn view(&self) -> Seq<char> {
        self.text@
    }
}

impl RemoteUrlPattern {
    #[verifier::type_invariant]
    spec fn wf(self) -> bool {
        &&& is_parser_safe(self.text@)
        &&& is_url_pattern(self.text@)
    }

    /// The pattern that `text` spells.
    pub fn parse(text: &str) -> (parsed: Result<RemoteUrlPattern, ParseError>)
        requires
            is_parser_safe(text@),
        ensures
            match parsed {
                Ok(pattern) => is_url_pattern(text@) && pattern@ == text@,
                Err(error) => !is_url_pattern(text@) && error == ParseError::UrlPattern,
            },
            parsed is Ok <==> url_pattern_valid(text@),
    {
        if url_pattern_compiles(text) {
            Ok(RemoteUrlPattern { text: text.to_owned() })
        } else {
            Err(ParseError::UrlPattern)
        }
    }

    /// The pattern that `text` spells, unless the parser may not return on it.
    pub fn parse_if_safe(text: &str) -> (parsed: Result<RemoteUrlPattern, ParseError>)
        ensures
            match parsed {
                Ok(pattern) => is_parser_safe(text@) && is_url_pattern(text@) && pattern@ == text@,
                Err(error) => if is_parser_safe(text@) {
                    !is_url_pattern(text@) && error == ParseError::UrlPattern
                } else {
                    error == ParseError::UnsafeUrlPattern
                },
            },
            parsed is Ok <==> is_parser_safe(text@) && url_pattern_valid(text@),
    {
        if parser_safe(text) {
            RemoteUrlPattern::parse(text)
        } else {
            Err(ParseError::UnsafeUrlPattern)
        }
    }

    /// Whether the pattern admits a URL.
    pub fn test(&self, url: &Url) -> (found: bool)
        ensures
            found == url_pattern_admits(self@, url@),
            found == url_pattern_match(self@, url@),
    {
        proof {
            use_type_invariant(self);
            use_type_invariant(url);
        }
        url_pattern_test(self.text.as_str(), url.text.as_str())
    }

    /// The text of the pattern.
    pub fn as_str(&self) -> (text: &str)
        ensures
            text@ == self@,
    {
        self.text.as_str()
    }
}

impl PartialEq for RemoteUrlPattern {
    fn eq(&self, other: &Self) -> (equal: bool) {
        proof {
            use_type_invariant(self);
            use_type_invariant(other);
        }
        url_patterns_equal(self.text.as_str(), other.text.as_str())
    }
}

impl vstd::std_specs::cmp::PartialEqSpecImpl for RemoteUrlPattern {
    open spec fn obeys_eq_spec() -> bool {
        true
    }

    open spec fn eq_spec(&self, other: &Self) -> bool {
        url_pattern_same(self@, other@)
    }
}

impl Eq for RemoteUrlPattern {

}

impl Clone for RemoteUrlPattern {
    fn clone(&self) -> (copy: Self)
        ensures
            copy@ == self@,
    {
        proof {
            use_type_invariant(self);
        }
        RemoteUrlPattern { text: self.text.clone() }
    }
}

} // verus!
