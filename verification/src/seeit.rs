//! Reproducing a view without a terminal: which records, under which filter,
//! and how rendered.

use crate::command::{Selector, SelectorView};
use crate::dialog::text_view;
use crate::filter::{
    parsed_view, reads_as, Filter, FilterSyntax, Parsed, Predicate, PredicateView,
};
use crate::number::{decimal, decimal_text, hex};
use crate::session::{HostnameDisplay, RenderOpts, SessionId};
use vstd::prelude::*;

verus! {

/// What was asked for on the command line.
#[derive(Debug)]
pub struct Args {
    /// session to reproduce a view of; files are read otherwise
    pub session: Option<SessionId>,
    pub stream: Option<String>,
    pub tab: Option<String>,
    pub bookmark: Option<String>,
    /// stop after this many records
    pub count: Option<usize>,
    /// records to show in front of the start
    pub before: Option<usize>,
    /// filter in place of the session's
    pub filter: Option<String>,
    /// filter on top of the session's
    pub and_filter: Option<String>,
    pub header: bool,
    pub show_extras: bool,
    pub no_extras: bool,
    pub hostname: Option<HostnameDisplay>,
    pub show_date: bool,
    pub no_date: bool,
    pub show_pid: bool,
    pub no_pid: bool,
    pub show_name: bool,
    pub no_name: bool,
    pub show_raw: bool,
    pub no_raw: bool,
}

/// Arguments that do not go together.
#[derive(Debug)]
pub enum ArgValidateError {
    /// the flag only makes sense for a session
    SessionRequired { flag: &'static str },
}

impl ArgValidateError {
    /// The flag that the error is about.
    pub open spec fn flag_text(self) -> Seq<char> {
        match self {
            ArgValidateError::SessionRequired { flag } => flag@,
        }
    }

    /// The error in words.
    pub fn describe(&self) -> (text: String)
        ensures
            text@ == "`"@ + self.flag_text() + "` requires `--session`"@,
    {
        match self {
            ArgValidateError::SessionRequired { flag } => {
                let mut text = "`".to_owned();
                text.append(flag);
                text.append("` requires `--session`");
                text
            },
        }
    }
}

/// The value that a pair of flags sets: the one given wins, and with neither
/// what was there stays.
pub open spec fn overridden(show: bool, no: bool, base: bool) -> bool {
    show || (!no && base)
}

fn override_flag(show: bool, no: bool, base: bool) -> (value: bool)
    ensures
        value == overridden(show, no, base),
{
    show || (!no && base)
}

/// How records of plain files are rendered: with all there is.
pub open spec fn file_opts() -> RenderOpts {
    RenderOpts {
        show_extras: true,
        show_raw: false,
        show_date: true,
        hostname: HostnameDisplay::Full,
        show_name: true,
        show_pid: true,
    }
}

impl Args {
    /// What the arguments point at.
    pub open spec fn target(self) -> SelectorView {
        if self.stream is Some {
            SelectorView::Stream(self.stream->Some_0@)
        } else if self.tab is Some {
            SelectorView::Tab(self.tab->Some_0@)
        } else if self.bookmark is Some {
            SelectorView::Bookmark(self.bookmark->Some_0@)
        } else {
            SelectorView::WholeSession
        }
    }

    /// The first flag that needs a session.
    pub open spec fn session_flag(self) -> Option<Seq<char>> {
        if self.stream is Some {
            Some("--stream"@)
        } else if self.tab is Some {
            Some("--tab"@)
        } else if self.bookmark is Some {
            Some("--bookmark"@)
        } else if self.before is Some {
            Some("--before"@)
        } else if self.and_filter is Some {
            Some("--and-filter"@)
        } else {
            None
        }
    }

    /// The options with what the flags say.
    pub open spec fn rendering(self, base: RenderOpts) -> RenderOpts {
        RenderOpts {
            show_extras: overridden(self.show_extras, self.no_extras, base.show_extras),
            show_raw: overridden(self.show_raw, self.no_raw, base.show_raw),
            show_date: overridden(self.show_date, self.no_date, base.show_date),
            hostname: match self.hostname {
                Some(hostname) => hostname,
                None => base.hostname,
            },
            show_name: overridden(self.show_name, self.no_name, base.show_name),
            show_pid: overridden(self.show_pid, self.no_pid, base.show_pid),
        }
    }

    /// What the arguments point at: a stream, a tab or a bookmark, or else
    /// the whole session.
    pub fn selector(&self) -> (selector: Selector)
        ensures
            selector@ == self.target(),
    {
        if let Some(name) = &self.stream {
            Selector::Stream(name.clone())
        } else if let Some(name) = &self.tab {
            Selector::Tab(name.clone())
        } else if let Some(needle) = &self.bookmark {
            Selector::Bookmark(needle.clone())
        } else {
            Selector::WholeSession
        }
    }

    /// Refuses flags that need a session where none is named.
    pub fn validate(&self) -> (result: Result<(), ArgValidateError>)
        ensures
            match result {
                Ok(_) => self.session is Some || self.session_flag() is None,
                Err(error) => self.session is None && self.session_flag() == Some(
                    error.flag_text(),
                ),
            },
    {
        if self.session.is_none() {
            if self.stream.is_some() {
                return Err(ArgValidateError::SessionRequired { flag: "--stream" });
            }
            if self.tab.is_some() {
                return Err(ArgValidateError::SessionRequired { flag: "--tab" });
            }
            if self.bookmark.is_some() {
                return Err(ArgValidateError::SessionRequired { flag: "--bookmark" });
            }
            if self.before.is_some() {
                return Err(ArgValidateError::SessionRequired { flag: "--before" });
            }
            if self.and_filter.is_some() {
                return Err(ArgValidateError::SessionRequired { flag: "--and-filter" });
            }
        }
        Ok(())
    }

    /// How records of plain files are rendered where no flag says otherwise.
    pub fn file_mode_defaults() -> (opts: RenderOpts)
        ensures
            opts == file_opts(),
    {
        RenderOpts {
            show_extras: true,
            show_raw: false,
            show_date: true,
            hostname: HostnameDisplay::Full,
            show_name: true,
            show_pid: true,
        }
    }

    /// Changes the options as the flags say.
    pub fn apply_overrides(&self, base: RenderOpts) -> (opts: RenderOpts)
        ensures
            opts == self.rendering(base),
    {
        RenderOpts {
            show_extras: override_flag(self.show_extras, self.no_extras, base.show_extras),
            show_raw: override_flag(self.show_raw, self.no_raw, base.show_raw),
            show_date: override_flag(self.show_date, self.no_date, base.show_date),
            hostname: match self.hostname {
                Some(hostname) => hostname,
                None => base.hostname,
            },
            show_name: override_flag(self.show_name, self.no_name, base.show_name),
            show_pid: override_flag(self.show_pid, self.no_pid, base.show_pid),
        }
    }

    /// The text that has to be read as a filter.
    pub open spec fn filter_text(self) -> Option<Seq<char>> {
        match self.filter {
            Some(text) => Some(text@),
            None => text_view(self.and_filter),
        }
    }

    /// The filter to go by, given what the text in question was read as: the
    /// one given, the session's narrowed by the one given, or the session's.
    pub open spec fn combined(self, base: Seq<PredicateView>, parsed: Parsed) -> Parsed {
        if self.filter is Some {
            parsed
        } else if self.and_filter is Some {
            match parsed {
                Ok(extra) => Ok(base + extra),
                Err(error) => Err(error),
            }
        } else {
            Ok(base)
        }
    }
}

/// Flags that are not given change nothing, and a flag given twice over
/// changes no more than once.
pub proof fn law_overrides_settle(args: Args, base: RenderOpts)
    ensures
        args.rendering(args.rendering(base)) == args.rendering(base),
        !args.show_extras && !args.no_extras ==> args.rendering(base).show_extras
            == base.show_extras,
        !args.show_raw && !args.no_raw ==> args.rendering(base).show_raw == base.show_raw,
        !args.show_date && !args.no_date ==> args.rendering(base).show_date == base.show_date,
        !args.show_name && !args.no_name ==> args.rendering(base).show_name == base.show_name,
        !args.show_pid && !args.no_pid ==> args.rendering(base).show_pid == base.show_pid,
        args.hostname is None ==> args.rendering(base).hostname == base.hostname,
{
}

/// Appends the predicates of `extra`.
fn narrow(filter: &mut Filter, extra: &Filter)
    ensures
        final(filter)@ == old(filter)@ + extra@,
{
    let predicates = extra.predicates();
    let ghost more = extra@;
    let ghost start = filter@;
    let mut i: usize = 0;
    assert(start + more.take(0) =~= start);
    while i < predicates.len()
        invariant
            i <= predicates@.len(),
            more == predicates@.map_values(|p: Predicate| p@),
            filter@ == start + more.take(i as int),
        decreases predicates@.len() - i,
    {
        assert(more[i as int] == predicates@[i as int]@);
        filter.add_predicate(predicates[i].clone());
        assert(start + more.take(i + 1) =~= (start + more.take(i as int)).push(more[i as int]));
        i = i + 1;
    }
    assert(more.take(i as int) =~= more);
}

/// The filter to go by: the one given, the session's narrowed by the one
/// given, or the session's.
pub fn combine_filter<F: FilterSyntax>(args: &Args, base: &Filter, syntax: &F) -> (result: Result<
    Filter,
    String,
>)
    ensures
        exists|parsed: Parsed|
            {
                &&& args.filter_text() matches Some(text) ==> reads_as(*syntax, text, parsed)
                &&& parsed_view(result) == #[trigger] args.combined(base@, parsed)
            },
{
    if let Some(text) = &args.filter {
        let result = syntax.parse(text.as_str());
        proof {
            assert(reads_as(*syntax, text@, parsed_view(result)));
            assert(parsed_view(result) == args.combined(base@, parsed_view(result)));
        }
        return result;
    }
    if let Some(text) = &args.and_filter {
        let parsed = syntax.parse(text.as_str());
        let ghost read = parsed_view(parsed);
        assert(reads_as(*syntax, text@, read));
        let result = match parsed {
            Ok(extra) => {
                let mut combined = base.clone();
                narrow(&mut combined, &extra);
                Ok(combined)
            },
            Err(error) => Err(error),
        };
        assert(parsed_view(result) == args.combined(base@, read));
        return result;
    }
    let result = Ok(base.clone());
    proof {
        let unread: Parsed = Err(Seq::empty());
        assert(parsed_view(result) == args.combined(base@, unread));
    }
    result
}

/// What is shown of a view.
#[derive(Debug, Clone, Copy, PartialEq, Eq, Structural)]
pub enum ResolvedMode {
    Records,
    Summary,
}

/// The text as `{:?}` of std's formatting writes it.
pub uninterp spec fn debug_text(text: Seq<char>) -> Seq<char>;

/// Quotes and escapes a text with `{:?}` of std's `format!`, as a function of
/// the text alone.
#[verifier::external_body]
fn quoted(text: &str) -> (quoted: String)
    ensures
        quoted@ == debug_text(text@),
{
    format!("{:?}", text)
}

/// What the banner says of the target, given how its name is quoted.
pub open spec fn target_text(selector: SelectorView, quoted: Seq<char>) -> Seq<char> {
    match selector {
        SelectorView::WholeSession => "whole-session"@,
        SelectorView::Stream(_) => "stream="@ + quoted,
        SelectorView::Tab(_) => "tab="@ + quoted,
        SelectorView::Bookmark(_) => "bookmark="@ + quoted,
    }
}

/// The name in a selector.
pub open spec fn selector_name(selector: SelectorView) -> Seq<char> {
    match selector {
        SelectorView::WholeSession => Seq::empty(),
        SelectorView::Stream(name) => name,
        SelectorView::Tab(name) => name,
        SelectorView::Bookmark(needle) => needle,
    }
}

/// What the banner says of how many records are shown.
pub open spec fn window_text(before: Option<usize>, count: Option<usize>) -> Seq<char> {
    match (before, count) {
        (None, None) => "unbounded"@,
        (Some(b), None) => "before="@ + decimal(b as nat) + " count=unbounded"@,
        (None, Some(c)) => "count="@ + decimal(c as nat),
        (Some(b), Some(c)) => "before="@ + decimal(b as nat) + " count="@ + decimal(c as nat),
    }
}

/// The banner.
pub open spec fn banner(
    session: SessionId,
    target: Seq<char>,
    mode: ResolvedMode,
    sources: usize,
    filter: Seq<char>,
    window: Seq<char>,
) -> Seq<char> {
    "seeit: session="@ + hex(session.0 as nat, 8) + " target="@ + target + " mode="@ + (
    if mode == ResolvedMode::Records {
        "records"@
    } else {
        "summary"@
    }) + " sources="@ + decimal(sources as nat) + " filter="@ + filter + " window="@ + window
}

fn window_words(before: Option<usize>, count: Option<usize>) -> (text: String)
    ensures
        text@ == window_text(before, count),
{
    match (before, count) {
        (None, None) => "unbounded".to_owned(),
        (Some(b), None) => {
            let mut text = "before=".to_owned();
            let n = decimal_text(b as u64);
            text.append(n.as_str());
            text.append(" count=unbounded");
            text
        },
        (None, Some(c)) => {
            let mut text = "count=".to_owned();
            let n = decimal_text(c as u64);
            text.append(n.as_str());
            text
        },
        (Some(b), Some(c)) => {
            let mut text = "before=".to_owned();
            let n = decimal_text(b as u64);
            text.append(n.as_str());
            text.append(" count=");
            let m = decimal_text(c as u64);
            text.append(m.as_str());
            text
        },
    }
}

/// What the banner says of the target, given how its name is quoted.
pub fn target_words(selector: &Selector, quoted: &str) -> (text: String)
    ensures
        text@ == target_text(selector@, quoted@),
{
    let mut text = match selector {
        Selector::WholeSession => {
            return "whole-session".to_owned();
        },
        Selector::Stream(_) => "stream=".to_owned(),
        Selector::Tab(_) => "tab=".to_owned(),
        Selector::Bookmark(_) => "bookmark=".to_owned(),
    };
    text.append(quoted);
    text
}

/// The banner that says what is reproduced: the session, the target, the
/// mode, the number of sources, the filter (given as text, where there is
/// one) and how many records.
pub fn header_line(
    session: SessionId,
    args: &Args,
    selector: &Selector,
    filter: Option<String>,
    mode: ResolvedMode,
    sources: usize,
) -> (line: String)
    ensures
        line@ == banner(
            session,
            target_text(selector@, debug_text(selector_name(selector@))),
            mode,
            sources,
            match filter {
                Some(text) => text@,
                None => "<none>"@,
            },
            window_text(args.before, args.count),
        ),
{
    let name = match selector {
        Selector::WholeSession => String::new(),
        Selector::Stream(name) => name.clone(),
        Selector::Tab(name) => name.clone(),
        Selector::Bookmark(needle) => needle.clone(),
    };
    assert(name@ =~= selector_name(selector@));
    let shown = quoted(name.as_str());
    let target = target_words(selector, shown.as_str());
    let mut line = "seeit: session=".to_owned();
    let id = session.to_text();
    line.append(id.as_str());
    line.append(" target=");
    line.append(target.as_str());
    line.append(" mode=");
    match mode {
        ResolvedMode::Records => line.append("records"),
        ResolvedMode::Summary => line.append("summary"),
    }
    line.append(" sources=");
    let count = decimal_text(sources as u64);
    line.append(count.as_str());
    line.append(" filter=");
    match &filter {
        Some(text) => line.append(text.as_str()),
        None => line.append("<none>"),
    }
    line.append(" window=");
    let window = window_words(args.before, args.count);
    line.append(window.as_str());
    line
}

/// A flag that shows a part shows it, one that hides it hides it unless it is
/// also shown, and without either the part stays as it was.
pub proof fn law_flags_override_what_is_shown(args: Args, base: RenderOpts)
    ensures
        args.rendering(base).show_extras == (if args.show_extras {
            true
        } else if args.no_extras {
            false
        } else {
            base.show_extras
        }),
        args.rendering(base).show_raw == (if args.show_raw {
            true
        } else if args.no_raw {
            false
        } else {
            base.show_raw
        }),
        args.rendering(base).show_date == (if args.show_date {
            true
        } else if args.no_date {
            false
        } else {
            base.show_date
        }),
        args.rendering(base).show_name == (if args.show_name {
            true
        } else if args.no_name {
            false
        } else {
            base.show_name
        }),
        args.rendering(base).show_pid == (if args.show_pid {
            true
        } else if args.no_pid {
            false
        } else {
            base.show_pid
        }),
        args.hostname matches Some(hostname) ==> args.rendering(base).hostname == hostname,
        args.hostname is None ==> args.rendering(base).hostname == base.hostname,
{
}

/// A filter on the command line takes the place of the one that was there; one
/// to be added keeps all of its predicates and comes behind them.
pub proof fn law_filters_are_replaced_or_narrowed(
    args: Args,
    base: Seq<PredicateView>,
    parsed: Parsed,
)
    ensures
        args.filter is Some ==> args.combined(base, parsed) == parsed,
        args.filter is None && args.and_filter is None ==> args.combined(base, parsed) == Ok::<
            Seq<PredicateView>,
            Seq<char>,
        >(base),
        args.filter is None && args.and_filter is Some ==> match parsed {
            Err(error) => args.combined(base, parsed) == Err::<Seq<PredicateView>, Seq<char>>(
                error,
            ),
            Ok(extra) => args.combined(base, parsed) matches Ok(all) && {
                &&& all.len() == base.len() + extra.len()
                &&& forall|i: int| 0 <= i < base.len() ==> #[trigger] all[i] == base[i]
                &&& forall|i: int|
                    0 <= i < extra.len() ==> #[trigger] all[base.len() + i] == extra[i]
            },
        },
        args.filter matches Some(text) ==> args.filter_text() == Some(text@),
        args.filter is None ==> match args.and_filter {
            Some(text) => args.filter_text() == Some(text@),
            None => args.filter_text() is None,
        },
{
}

/// What is asked for is the stream, the tab or the bookmark that is named, the
/// first of these that is; else the whole session.
pub proof fn law_target_is_what_is_named(args: Args)
    ensures
        args.stream matches Some(name) ==> args.target() == SelectorView::Stream(name@),
        args.stream is None ==> (args.tab matches Some(name) ==> args.target() == SelectorView::Tab(
            name@,
        )),
        args.stream is None && args.tab is None ==> (args.bookmark matches Some(needle)
            ==> args.target() == SelectorView::Bookmark(needle@)),
        args.stream is None && args.tab is None && args.bookmark is None ==> args.target()
            == SelectorView::WholeSession,
        args.session_flag() is None <==> args.stream is None && args.tab is None
            && args.bookmark is None && args.before is None && args.and_filter is None,
        args.session_flag() == Some("--stream"@) || args.stream is None,
{
}

/// Files are shown with everything but the raw text; of the flags that need a
/// session the first is told.
pub proof fn law_files_are_shown_in_full(args: Args)
    ensures
        file_opts() == (RenderOpts {
            show_extras: true,
            show_raw: false,
            show_date: true,
            hostname: HostnameDisplay::Full,
            show_name: true,
            show_pid: true,
        }),
        args.stream is Some ==> args.session_flag() == Some("--stream"@),
        args.stream is None && args.tab is Some ==> args.session_flag() == Some("--tab"@),
        args.stream is None && args.tab is None && args.bookmark is Some ==> args.session_flag()
            == Some("--bookmark"@),
        args.stream is None && args.tab is None && args.bookmark is None && args.before is Some
            ==> args.session_flag() == Some("--before"@),
        args.stream is None && args.tab is None && args.bookmark is None && args.before is None
            && args.and_filter is Some ==> args.session_flag() == Some("--and-filter"@),
{
}

/// The header names the target by what it is, and tells how many records there
/// are to be before it and from it on.
pub proof fn law_header_names_target_and_window(
    name: Seq<char>,
    quoted: Seq<char>,
    before: usize,
    count: usize,
)
    ensures
        target_text(SelectorView::WholeSession, quoted) == "whole-session"@,
        target_text(SelectorView::Stream(name), quoted) == "stream="@ + quoted,
        target_text(SelectorView::Tab(name), quoted) == "tab="@ + quoted,
        target_text(SelectorView::Bookmark(name), quoted) == "bookmark="@ + quoted,
        selector_name(SelectorView::Stream(name)) == name,
        selector_name(SelectorView::Tab(name)) == name,
        selector_name(SelectorView::Bookmark(name)) == name,
        window_text(None, None) == "unbounded"@,
        window_text(Some(before), None) == "before="@ + decimal(before as nat)
            + " count=unbounded"@,
        window_text(None, Some(count)) == "count="@ + decimal(count as nat),
        window_text(Some(before), Some(count)) == "before="@ + decimal(before as nat) + " count="@
            + decimal(count as nat),
{
}

/// The header tells session, target, mode, sources, filter and window, in this
/// order.
pub proof fn law_header_tells_what_is_shown(
    session: SessionId,
    target: Seq<char>,
    sources: usize,
    filter: Seq<char>,
    window: Seq<char>,
)
    ensures
        banner(session, target, ResolvedMode::Records, sources, filter, window)
            == "seeit: session="@ + hex(session.0 as nat, 8) + " target="@ + target + " mode="@
            + "records"@ + " sources="@ + decimal(sources as nat) + " filter="@ + filter
            + " window="@ + window,
        banner(session, target, ResolvedMode::Summary, sources, filter, window)
            == "seeit: session="@ + hex(session.0 as nat, 8) + " target="@ + target + " mode="@
            + "summary"@ + " sources="@ + decimal(sources as nat) + " filter="@ + filter
            + " window="@ + window,
{
}

} // verus!
