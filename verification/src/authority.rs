//! The authority that decides which IPC calls are allowed.

use crate::acl::{
    CommandTable, CommandView, ContextView, ExecutionContext, Resolved, ResolvedCommand, collected,
    command_views, pair_views,
};
use crate::label::{any_matches, glob_match, lemma_some_text_matches, some_pattern_admits};
use crate::remote::{Url, url_pattern_admits, url_pattern_match, url_serialization, url_str};
use vstd::prelude::*;

verus! {

/// The origin of an IPC call.
#[derive(Debug)]
pub enum Origin {
    /// The application's own pages.
    Local,
    /// A page of another site.
    Remote {
        /// The URL of the page.
        url: Url,
    },
}

/// What an origin is: the application's own pages, or the text of a URL.
#[verifier::ext_equal]
pub enum OriginView {
    Local,
    Remote(Seq<char>),
}

impl View for Origin {
    type V = OriginView;

    open spec fn view(&self) -> OriginView {
        match self {
            Origin::Local => OriginView::Local,
            Origin::Remote { url } => OriginView::Remote(url@),
        }
    }
}

/// Whether a call from an origin falls under a context: both are local, or
/// both are remote and the URL pattern admits the URL.
pub open spec fn context_admits(context: ContextView, origin: OriginView) -> bool {
    match (origin, context) {
        (OriginView::Local, ContextView::Local) => true,
        (OriginView::Remote(url), ContextView::Remote(pattern)) => url_pattern_admits(pattern, url),
        _ => false,
    }
}

/// Whether an entry admits a call: its context does, and a pattern of its
/// admits the label of the window or that of the webview.
pub open spec fn entry_admits(
    entry: CommandView,
    window: Seq<char>,
    webview: Seq<char>,
    origin: OriginView,
) -> bool {
    &&& context_admits(entry.context, origin)
    &&& some_pattern_admits(entry.webviews, webview) || some_pattern_admits(entry.windows, window)
}

/// Whether an entry admits a call, by what `url_pattern_match` and `glob_match`
/// say of its patterns.
pub open spec fn entry_matches(
    entry: CommandView,
    window: Seq<char>,
    webview: Seq<char>,
    origin: OriginView,
) -> bool {
    &&& match (origin, entry.context) {
        (OriginView::Local, ContextView::Local) => true,
        (OriginView::Remote(url), ContextView::Remote(pattern)) => url_pattern_match(pattern, url),
        _ => false,
    }
    &&& {
        ||| exists|i: int| 0 <= i < entry.webviews.len() && glob_match(
            #[trigger] entry.webviews[i],
            webview,
        )
        ||| exists|i: int| 0 <= i < entry.windows.len() && glob_match(
            #[trigger] entry.windows[i],
            window,
        )
    }
}

/// The entries among these that `entry_matches` holds of, in their order.
pub open spec fn matching(
    entries: Seq<CommandView>,
    window: Seq<char>,
    webview: Seq<char>,
    origin: OriginView,
) -> Seq<CommandView> {
    entries.filter(|entry: CommandView| entry_matches(entry, window, webview, origin))
}

/// The entries among these that admit a call, in their order.
pub open spec fn admitting(
    entries: Seq<CommandView>,
    window: Seq<char>,
    webview: Seq<char>,
    origin: OriginView,
) -> Seq<CommandView> {
    entries.filter(|entry: CommandView| entry_admits(entry, window, webview, origin))
}

/// The tables of an authority.
#[verifier::ext_equal]
pub struct AuthorityView {
    pub allowed: Map<Seq<char>, Seq<CommandView>>,
    pub denied: Map<Seq<char>, Seq<CommandView>>,
}

/// The decision on a call: refused where the command is denied at all, where
/// it is not known, and where no entry of it admits the call; otherwise the
/// entries that do.
pub open spec fn resolve(
    authority: AuthorityView,
    command: Seq<char>,
    window: Seq<char>,
    webview: Seq<char>,
    origin: OriginView,
) -> Option<Seq<CommandView>> {
    if authority.denied.dom().contains(command) || !authority.allowed.dom().contains(command) {
        None
    } else {
        let entries = admitting(authority.allowed[command], window, webview, origin);
        if entries.len() == 0 {
            None
        } else {
            Some(entries)
        }
    }
}

/// How an origin is written out.
pub open spec fn origin_text(origin: OriginView) -> Seq<char> {
    match origin {
        OriginView::Local => "local"@,
        OriginView::Remote(url) => "remote: "@ + url_str(url),
    }
}

impl Origin {
    /// Whether a call from this origin falls under a context.
    pub fn matches(&self, context: &ExecutionContext) -> (found: bool)
        ensures
            found == context_admits(context@, self@),
            match (self, context) {
                (Origin::Local, ExecutionContext::Local) => found,
                (Origin::Remote { url }, ExecutionContext::Remote { url: pattern }) => found
                    == url_pattern_match(pattern@, url@),
                _ => !found,
            },
    {
        match self {
            Origin::Local => match context {
                ExecutionContext::Local => true,
                ExecutionContext::Remote { url: _ } => false,
            },
            Origin::Remote { url } => match context {
                ExecutionContext::Local => false,
                ExecutionContext::Remote { url: pattern } => pattern.test(url),
            },
        }
    }

    /// How the origin is written out.
    pub fn to_string(&self) -> (text: String)
        ensures
            text@ == origin_text(self@),
            match self {
                Origin::Local => text@ == "local"@,
                Origin::Remote { url } => url_serialization(url@) is Some && text@ == "remote: "@
                    + url_serialization(url@)->0,
            },
    {
        match self {
            Origin::Local => "local".to_owned(),
            Origin::Remote { url } => "remote: ".to_owned().concat(url.as_str()),
        }
    }
}

impl Clone for Origin {
    fn clone(&self) -> (copy: Self)
        ensures
            copy@ == self@,
    {
        match self {
            Origin::Local => Origin::Local,
            Origin::Remote { url } => Origin::Remote { url: url.clone() },
        }
    }
}

/// The authority over IPC calls.
#[derive(Debug)]
pub struct RuntimeAuthority {
    allowed_commands: CommandTable,
    denied_commands: CommandTable,
}

impl View for RuntimeAuthority {
    type V = AuthorityView;

    closed spec fn view(&self) -> AuthorityView {
        AuthorityView { allowed: self.allowed_commands@, denied: self.denied_commands@ }
    }
}

/// What the filter makes of one more entry.
proof fn lemma_filter_push(
    entries: Seq<CommandView>,
    entry: CommandView,
    keep: spec_fn(CommandView) -> bool,
)
    ensures
        entries.push(entry).filter(keep) == if keep(entry) {
            entries.filter(keep).push(entry)
        } else {
            entries.filter(keep)
        },
{
    reveal(Seq::filter);
    assert(entries.push(entry).drop_last() =~= entries);
}

/// Copies of the entries that admit a call, in their order.
pub fn admitting_entries(
    entries: &Vec<ResolvedCommand>,
    window: &str,
    webview: &str,
    origin: &Origin,
) -> (kept: Vec<ResolvedCommand>)
    ensures
        command_views(kept@) == admitting(command_views(entries@), window@, webview@, origin@),
        command_views(kept@) == matching(command_views(entries@), window@, webview@, origin@),
{
    let ghost views = command_views(entries@);
    let ghost keep = |entry: CommandView| entry_admits(entry, window@, webview@, origin@);
    let ghost fits = |entry: CommandView| entry_matches(entry, window@, webview@, origin@);
    let mut kept: Vec<ResolvedCommand> = Vec::new();
    proof {
        reveal(Seq::filter);
        assert(command_views(kept@) =~= views.take(0).filter(keep));
        assert(command_views(kept@) =~= views.take(0).filter(fits));
    }
    for i in 0..entries.len()
        invariant
            views == command_views(entries@),
            keep == (|entry: CommandView| entry_admits(entry, window@, webview@, origin@)),
            fits == (|entry: CommandView| entry_matches(entry, window@, webview@, origin@)),
            command_views(kept@) == views.take(i as int).filter(keep),
            command_views(kept@) == views.take(i as int).filter(fits),
    {
        let entry = &entries[i];
        let ghost before = kept@;
        proof {
            lemma_filter_push(views.take(i as int), entry@, keep);
            lemma_filter_push(views.take(i as int), entry@, fits);
            assert(views.take(i + 1) =~= views.take(i as int).push(entry@));
            lemma_some_text_matches(entry.webviews@, webview@);
            lemma_some_text_matches(entry.windows@, window@);
        }
        if origin.matches(&entry.context) && (any_matches(&entry.webviews, webview) || any_matches(
            &entry.windows,
            window,
        )) {
            kept.push(entry.clone());
            assert(command_views(kept@) =~= command_views(before).push(entry@));
        }
    }
    assert(views.take(entries@.len() as int) =~= views);
    kept
}

impl RuntimeAuthority {
    /// The authority over a resolved access control list.
    pub fn new(resolved: Resolved) -> (authority: RuntimeAuthority)
        ensures
            authority@ == (AuthorityView {
                allowed: resolved.allowed_commands@,
                denied: resolved.denied_commands@,
            }),
    {
        RuntimeAuthority {
            allowed_commands: resolved.allowed_commands,
            denied_commands: resolved.denied_commands,
        }
    }

    /// Decides on a call of `command` from a window, a webview and an origin:
    /// the entries that admit it, or `None` where it is refused.
    pub fn resolve_access(
        &self,
        command: &str,
        window: &str,
        webview: &str,
        origin: &Origin,
    ) -> (entries: Option<Vec<ResolvedCommand>>)
        ensures
            match entries {
                Some(entries) => resolve(self@, command@, window@, webview@, origin@) == Some(
                    command_views(entries@),
                ),
                None => resolve(self@, command@, window@, webview@, origin@) is None,
            },
            match entries {
                Some(entries) => {
                    &&& !self@.denied.dom().contains(command@)
                    &&& self@.allowed.dom().contains(command@)
                    &&& entries@.len() > 0
                    &&& command_views(entries@) == matching(
                        self@.allowed[command@],
                        window@,
                        webview@,
                        origin@,
                    )
                },
                None => {
                    ||| self@.denied.dom().contains(command@)
                    ||| !self@.allowed.dom().contains(command@)
                    ||| matching(self@.allowed[command@], window@, webview@, origin@).len() == 0
                },
            },
    {
        if self.denied_commands.get(command).is_some() {
            return None;
        }
        match self.allowed_commands.get(command) {
            Some(entries) => {
                let kept = admitting_entries(entries, window, webview, origin);
                assert(command_views(kept@).len() == kept@.len());
                if kept.len() == 0 {
                    None
                } else {
                    Some(kept)
                }
            },
            None => None,
        }
    }
}

/// The authority over the tables that these pairs of a command and its entries
/// are collected into.
pub fn build_authority(
    allowed: Vec<(String, Vec<ResolvedCommand>)>,
    denied: Vec<(String, Vec<ResolvedCommand>)>,
) -> (authority: RuntimeAuthority)
    ensures
        authority@ == (AuthorityView {
            allowed: collected(pair_views(allowed@)),
            denied: collected(pair_views(denied@)),
        }),
{
    RuntimeAuthority::new(
        Resolved {
            allowed_commands: CommandTable::from_pairs(allowed),
            denied_commands: CommandTable::from_pairs(denied),
        },
    )
}

} // verus!
