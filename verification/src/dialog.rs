//! Modal dialogs over the main view.

use crate::display::{display_key, handle_display_fields_key, DISPLAY_FIELD_COUNT};
use crate::editor::{EditAction, EditorView, LineEditor};
use crate::filter::{
    parsed_view, reads_as, writes_as, Filter, FilterSyntax, Parsed, PredicateView,
};
use crate::help::{handle_help_key, help_key};
use crate::key::{KeyCode, KeyEvent};
use crate::pattern::{regex_error, Pattern};
use crate::search::{regex_error_summary, SearchDirection};
use crate::session::{
    name_view, BookmarkDraft, BookmarkId, BookmarkName, DraftView, RenderOpts,
};
use crate::text::{chars_of, is_white_space, push_char, spaced, text_of, views, white_space, words};
use vstd::prelude::*;

verus! {

/// Place in the history that the search prompt is showing.
#[derive(Debug)]
pub struct SearchHistoryNav {
    /// what the user had typed before the first step back; only entries that
    /// begin with it are shown
    pub typed: String,
    /// index of the entry on show
    pub pos: usize,
}

/// A dialog that intercepts all keys while it is open.
#[derive(Debug)]
#[allow(inconsistent_fields)]
pub enum Dialog {
    /// editing the active tab's filter; what is wrong with it shows live
    Filter { editor: LineEditor, parse_error: Option<String> },
    /// editing the active tab's name
    Rename { editor: LineEditor },
    /// `less`-style search prompt
    Search {
        editor: LineEditor,
        direction: SearchDirection,
        parse_error: Option<String>,
        history: Vec<String>,
        nav: Option<SearchHistoryNav>,
    },
    /// naming a bookmark
    BookmarkName { editor: LineEditor, draft: BookmarkDraft },
    /// confirming the deletion of a bookmark
    ConfirmDeleteBookmark { id: BookmarkId, label: String },
    /// confirming a request to quit
    ConfirmQuit,
    /// choosing which columns to render
    DisplayFields { draft: RenderOpts, cursor: usize },
    /// showing the command that reproduces the view
    SeeitCommand { text: String },
    /// showing the keybindings
    Help { scroll: u16 },
}

/// Outcome of one key.
#[derive(Debug)]
pub enum DialogResult {
    /// keep the dialog open
    Stay,
    /// close the dialog
    Cancel,
    /// close the dialog and filter the active stream
    ApplyFilter(Filter),
    /// close the dialog and rename the active tab
    ApplyRename(String),
    /// close the dialog and search
    ApplySearch { pattern: Pattern, direction: SearchDirection },
    /// close the dialog and repeat the last search
    RepeatSearch(SearchDirection),
    /// close the dialog and add the bookmark
    ApplyBookmark { name: Option<BookmarkName>, draft: BookmarkDraft },
    /// close the dialog and delete the bookmark
    ApplyDeleteBookmark(BookmarkId),
    /// close the dialog and quit
    ApplyQuit,
    /// close the dialog and change how the active stream is rendered
    ApplyDisplayFields(RenderOpts),
}

/// What a [`SearchHistoryNav`] says.
#[verifier::ext_equal]
pub struct NavView {
    pub typed: Seq<char>,
    pub pos: usize,
}

/// What a [`Dialog`] shows.
#[verifier::ext_equal]
#[allow(inconsistent_fields)]
pub enum DialogView {
    Filter { editor: EditorView, parse_error: Option<Seq<char>> },
    Rename { editor: EditorView },
    Search {
        editor: EditorView,
        direction: SearchDirection,
        parse_error: Option<Seq<char>>,
        history: Seq<Seq<char>>,
        nav: Option<NavView>,
    },
    BookmarkName { editor: EditorView, draft: DraftView },
    ConfirmDeleteBookmark { id: u128, label: Seq<char> },
    ConfirmQuit,
    DisplayFields { draft: RenderOpts, cursor: usize },
    SeeitCommand { text: Seq<char> },
    Help { scroll: u16 },
}

/// What a [`DialogResult`] says.
#[verifier::ext_equal]
pub enum ResultView {
    Stay,
    Cancel,
    ApplyFilter(Seq<PredicateView>),
    ApplyRename(Seq<char>),
    ApplySearch { pattern: Seq<char>, direction: SearchDirection },
    RepeatSearch(SearchDirection),
    ApplyBookmark { name: Option<Seq<char>>, draft: DraftView },
    ApplyDeleteBookmark(u128),
    ApplyQuit,
    ApplyDisplayFields(RenderOpts),
}

/// The content of an optional text.
pub open spec fn text_view(text: Option<String>) -> Option<Seq<char>> {
    match text {
        Some(text) => Some(text@),
        None => None,
    }
}

/// The content of an optional history position.
pub open spec fn nav_view(nav: Option<SearchHistoryNav>) -> Option<NavView> {
    match nav {
        Some(nav) => Some(NavView { typed: nav.typed@, pos: nav.pos }),
        None => None,
    }
}

impl View for Dialog {
    type V = DialogView;

    open spec fn view(&self) -> DialogView {
        match self {
            Dialog::Filter { editor, parse_error } => DialogView::Filter {
                editor: editor@,
                parse_error: text_view(*parse_error),
            },
            Dialog::Rename { editor } => DialogView::Rename { editor: editor@ },
            Dialog::Search { editor, direction, parse_error, history, nav } => DialogView::Search {
                editor: editor@,
                direction: *direction,
                parse_error: text_view(*parse_error),
                history: views(history@),
                nav: nav_view(*nav),
            },
            Dialog::BookmarkName { editor, draft } => DialogView::BookmarkName {
                editor: editor@,
                draft: draft@,
            },
            Dialog::ConfirmDeleteBookmark { id, label } => DialogView::ConfirmDeleteBookmark {
                id: id.0,
                label: label@,
            },
            Dialog::ConfirmQuit => DialogView::ConfirmQuit,
            Dialog::DisplayFields { draft, cursor } => DialogView::DisplayFields {
                draft: *draft,
                cursor: *cursor,
            },
            Dialog::SeeitCommand { text } => DialogView::SeeitCommand { text: text@ },
            Dialog::Help { scroll } => DialogView::Help { scroll: *scroll },
        }
    }
}

impl View for DialogResult {
    type V = ResultView;

    open spec fn view(&self) -> ResultView {
        match self {
            DialogResult::Stay => ResultView::Stay,
            DialogResult::Cancel => ResultView::Cancel,
            DialogResult::ApplyFilter(filter) => ResultView::ApplyFilter(filter@),
            DialogResult::ApplyRename(name) => ResultView::ApplyRename(name@),
            DialogResult::ApplySearch { pattern, direction } => ResultView::ApplySearch {
                pattern: pattern@,
                direction: *direction,
            },
            DialogResult::RepeatSearch(direction) => ResultView::RepeatSearch(*direction),
            DialogResult::ApplyBookmark { name, draft } => ResultView::ApplyBookmark {
                name: name_view(*name),
                draft: draft@,
            },
            DialogResult::ApplyDeleteBookmark(id) => ResultView::ApplyDeleteBookmark(id.0),
            DialogResult::ApplyQuit => ResultView::ApplyQuit,
            DialogResult::ApplyDisplayFields(opts) => ResultView::ApplyDisplayFields(*opts),
        }
    }
}

/// The text without white space at either end.
pub open spec fn trimmed(text: Seq<char>) -> Seq<char>
    decreases text.len(),
{
    if text.len() > 0 && is_white_space(text.last()) {
        trimmed(text.drop_last())
    } else if text.len() > 0 && is_white_space(text[0]) {
        trimmed(text.drop_first())
    } else {
        text
    }
}

/// The text without white space at either end.
pub fn trim(text: &str) -> (short: String)
    ensures
        short@ == trimmed(text@),
{
    let chars = chars_of(text);
    let mut from: usize = 0;
    let mut to: usize = chars.len();
    assert(chars@.subrange(0, to as int) =~= chars@);
    while to > 0 && white_space(chars[to - 1])
        invariant
            from == 0,
            to <= chars@.len(),
            trimmed(chars@.subrange(0, to as int)) == trimmed(text@),
        decreases to,
    {
        assert(chars@.subrange(0, to as int).drop_last() =~= chars@.subrange(0, to - 1));
        to = to - 1;
    }
    while from < to && white_space(chars[from])
        invariant
            from <= to <= chars@.len(),
            to > from ==> !is_white_space(chars@[to - 1]),
            trimmed(chars@.subrange(from as int, to as int)) == trimmed(text@),
        decreases to - from,
    {
        assert(chars@.subrange(from as int, to as int).drop_first() =~= chars@.subrange(
            from + 1,
            to as int,
        ));
        from = from + 1;
    }
    text_of(&chars, from, to)
}

/// What is wrong with a search pattern, on one line; nothing with an empty
/// one.
pub open spec fn search_error(pattern: Seq<char>) -> Option<Seq<char>> {
    if pattern.len() == 0 {
        None
    } else {
        match regex_error(pattern) {
            Some(error) => Some(spaced(words(error))),
            None => None,
        }
    }
}

/// The first entry from index `start` on that begins with the prefix.
pub open spec fn entry_from(history: Seq<Seq<char>>, start: int, prefix: Seq<char>) -> Option<int>
    decreases history.len() - start,
{
    if start < 0 || start >= history.len() {
        None
    } else if prefix.is_prefix_of(history[start]) {
        Some(start)
    } else {
        entry_from(history, start + 1, prefix)
    }
}

/// The last entry below index `end` that begins with the prefix.
pub open spec fn entry_below(history: Seq<Seq<char>>, end: int, prefix: Seq<char>) -> Option<int>
    decreases end,
{
    if end <= 0 || end > history.len() {
        None
    } else if prefix.is_prefix_of(history[end - 1]) {
        Some(end - 1)
    } else {
        entry_below(history, end - 1, prefix)
    }
}

/// An editor that shows `text` with the cursor at its end.
pub open spec fn showing(text: Seq<char>) -> EditorView {
    EditorView { before: text, after: Seq::empty() }
}

fn starts_with(text: &str, prefix: &str) -> (yes: bool)
    ensures
        yes == prefix@.is_prefix_of(text@),
{
    let whole = chars_of(text);
    let part = chars_of(prefix);
    if part.len() > whole.len() {
        return false;
    }
    let mut i: usize = 0;
    while i < part.len()
        invariant
            i <= part@.len() <= whole@.len(),
            part@ == prefix@,
            whole@ == text@,
            forall|k: int| 0 <= k < i ==> part@[k] == whole@[k],
        decreases part@.len() - i,
    {
        if part[i] != whole[i] {
            assert(text@.subrange(0, prefix@.len() as int)[i as int] != prefix@[i as int]);
            return false;
        }
        i = i + 1;
    }
    assert(prefix@ =~= text@.subrange(0, prefix@.len() as int));
    true
}

/// Characters of a message that a preview shows at most.
pub const PREVIEW_LIMIT: usize = 80;

/// The start of a message, with an ellipsis where something was cut off.
pub open spec fn preview(msg: Seq<char>) -> Seq<char> {
    if msg.len() <= PREVIEW_LIMIT {
        msg
    } else {
        msg.take(PREVIEW_LIMIT as int).push('…')
    }
}

/// First slice of a message, short enough for a list row or a title.
pub fn preview_msg(msg: &str) -> (short: String)
    ensures
        short@ == preview(msg@),
{
    if msg.unicode_len() <= PREVIEW_LIMIT {
        return msg.to_owned();
    }
    let mut short = msg.substring_char(0, PREVIEW_LIMIT).to_owned();
    assert(short@ =~= msg@.take(PREVIEW_LIMIT as int));
    push_char(&mut short, '…');
    short
}

impl DialogView {
    /// The editor, where the dialog has one.
    pub open spec fn editor(self) -> Option<EditorView> {
        match self {
            DialogView::Filter { editor, .. } => Some(editor),
            DialogView::Rename { editor } => Some(editor),
            DialogView::Search { editor, .. } => Some(editor),
            DialogView::BookmarkName { editor, .. } => Some(editor),
            _ => None,
        }
    }

    /// The dialog with its editor changed; a search prompt no longer shows
    /// an entry of the history.
    pub open spec fn typed_into(self, editor: EditorView) -> DialogView {
        match self {
            DialogView::Filter { parse_error, .. } => DialogView::Filter { editor, parse_error },
            DialogView::Rename { .. } => DialogView::Rename { editor },
            DialogView::Search { direction, parse_error, history, .. } => DialogView::Search {
                editor,
                direction,
                parse_error,
                history,
                nav: None,
            },
            DialogView::BookmarkName { draft, .. } => DialogView::BookmarkName { editor, draft },
            _ => self,
        }
    }

    /// The dialog with what is wrong with its filter.
    pub open spec fn with_filter_error(self, parsed: Parsed) -> DialogView {
        match self {
            DialogView::Filter { editor, .. } => DialogView::Filter {
                editor,
                parse_error: match parsed {
                    Ok(_) => None,
                    Err(error) => Some(error),
                },
            },
            _ => self,
        }
    }

    /// The dialog with what is wrong with its search pattern.
    pub open spec fn with_search_error(self) -> DialogView {
        match self {
            DialogView::Search { editor, direction, history, nav, .. } => DialogView::Search {
                editor,
                direction,
                parse_error: search_error(editor.text()),
                history,
                nav,
            },
            _ => self,
        }
    }

    /// One step back in the search history: the next older entry that begins
    /// with what was typed.
    pub open spec fn back_in_history(self) -> DialogView {
        match self {
            DialogView::Search { editor, direction, parse_error, history, nav } => {
                let typed = match nav {
                    Some(nav) => nav.typed,
                    None => editor.text(),
                };
                let start = match nav {
                    Some(nav) => nav.pos + 1,
                    None => 0,
                };
                match entry_from(history, start, typed) {
                    Some(pos) => DialogView::Search {
                        editor: showing(history[pos]),
                        direction,
                        parse_error,
                        history,
                        nav: Some(NavView { typed, pos: pos as usize }),
                    },
                    None => self,
                }
            },
            _ => self,
        }
    }

    /// One step forward in the search history; past the newest entry, what
    /// was typed comes back.
    pub open spec fn forward_in_history(self) -> DialogView {
        match self {
            DialogView::Search { direction, parse_error, history, nav: Some(nav), .. } => {
                match entry_below(history, nav.pos as int, nav.typed) {
                    Some(pos) => DialogView::Search {
                        editor: showing(history[pos]),
                        direction,
                        parse_error,
                        history,
                        nav: Some(NavView { typed: nav.typed, pos: pos as usize }),
                    },
                    None => DialogView::Search {
                        editor: showing(nav.typed),
                        direction,
                        parse_error,
                        history,
                        nav: None,
                    },
                }
            },
            _ => self,
        }
    }

    /// What Enter does, given what the filter syntax makes of the text.
    pub open spec fn applied(self, parsed: Parsed) -> (DialogView, ResultView) {
        match self {
            DialogView::Filter { editor, .. } => match parsed {
                Ok(filter) => (self, ResultView::ApplyFilter(filter)),
                Err(error) => (
                    DialogView::Filter { editor, parse_error: Some(error) },
                    ResultView::Stay,
                ),
            },
            DialogView::Rename { editor } => (self, ResultView::ApplyRename(editor.text())),
            DialogView::Search { editor, direction, .. } => if editor.text().len() == 0 {
                (self, ResultView::RepeatSearch(direction))
            } else if regex_error(editor.text()) is None {
                (self, ResultView::ApplySearch { pattern: editor.text(), direction })
            } else {
                (self.with_search_error(), ResultView::Stay)
            },
            DialogView::BookmarkName { editor, draft } => {
                let name = trimmed(editor.text());
                (
                    self,
                    ResultView::ApplyBookmark {
                        name: if name.len() == 0 {
                            None
                        } else {
                            Some(name)
                        },
                        draft,
                    },
                )
            },
            DialogView::ConfirmDeleteBookmark { id, .. } => (
                self,
                ResultView::ApplyDeleteBookmark(id),
            ),
            DialogView::ConfirmQuit => (self, ResultView::ApplyQuit),
            DialogView::DisplayFields { draft, .. } => (
                self,
                ResultView::ApplyDisplayFields(draft),
            ),
            DialogView::SeeitCommand { .. } => (self, ResultView::Cancel),
            DialogView::Help { .. } => (self, ResultView::Cancel),
        }
    }

    /// The text that has to be read as a filter on a key, if any: the text
    /// of the filter dialog, as the key leaves it.
    pub open spec fn asks(self, key: KeyEvent) -> Option<Seq<char>> {
        match self {
            DialogView::Filter { editor, .. } => if key.bare(KeyCode::Esc) {
                None
            } else if key.bare(KeyCode::Enter) {
                Some(editor.text())
            } else {
                match editor.edited(key) {
                    Some(after) => Some(after.text()),
                    None => None,
                }
            },
            _ => None,
        }
    }

    /// The dialog and the outcome after a key, given what the filter syntax
    /// makes of the text that [`Self::asks`] names.
    pub open spec fn pressed(self, key: KeyEvent, parsed: Parsed) -> (DialogView, ResultView) {
        if key.bare(KeyCode::Esc) {
            (self, ResultView::Cancel)
        } else if key.bare(KeyCode::Enter) {
            self.applied(parsed)
        } else if self is DisplayFields {
            let after = display_key(self->DisplayFields_draft, self->DisplayFields_cursor, key);
            (DialogView::DisplayFields { draft: after.0, cursor: after.1 }, ResultView::Stay)
        } else if self is Help {
            (DialogView::Help { scroll: help_key(self->scroll, key) }, ResultView::Stay)
        } else if self is Search && self.editor()->Some_0.text().len() == 0 && key.code
            == KeyCode::Backspace {
            (self, ResultView::Cancel)
        } else if self is Search && key.bare(KeyCode::Up) {
            (self.back_in_history().with_search_error(), ResultView::Stay)
        } else if self is Search && key.bare(KeyCode::Down) {
            (self.forward_in_history().with_search_error(), ResultView::Stay)
        } else {
            match self.editor() {
                None => (self, ResultView::Stay),
                Some(editor) => match editor.edited(key) {
                    None => (self, ResultView::Stay),
                    Some(after) => (
                        self.typed_into(after).with_filter_error(parsed).with_search_error(),
                        ResultView::Stay,
                    ),
                },
            }
        }
    }
}

/// What is wrong with a search pattern, on one line.
fn pattern_error(pattern: &str) -> (error: Option<String>)
    ensures
        text_view(error) == search_error(pattern@),
{
    if pattern.is_empty() {
        return None;
    }
    match Pattern::compile(pattern) {
        Ok(_) => None,
        Err(error) => Some(regex_error_summary(error.as_str())),
    }
}

fn find_entry_from(history: &Vec<String>, start: usize, prefix: &str) -> (found: Option<usize>)
    ensures
        match found {
            Some(pos) => entry_from(views(history@), start as int, prefix@) == Some(pos as int)
                && pos < history@.len(),
            None => entry_from(views(history@), start as int, prefix@) is None,
        },
{
    let ghost all = views(history@);
    let mut i: usize = start;
    while i < history.len()
        invariant
            all == views(history@),
            entry_from(all, start as int, prefix@) == entry_from(all, i as int, prefix@),
        decreases history@.len() - i,
    {
        assert(all[i as int] == history@[i as int]@);
        if starts_with(history[i].as_str(), prefix) {
            return Some(i);
        }
        i = i + 1;
    }
    None
}

fn find_entry_below(history: &Vec<String>, end: usize, prefix: &str) -> (found: Option<usize>)
    requires
        end <= history@.len(),
    ensures
        match found {
            Some(pos) => entry_below(views(history@), end as int, prefix@) == Some(pos as int)
                && pos < end,
            None => entry_below(views(history@), end as int, prefix@) is None,
        },
{
    let ghost all = views(history@);
    let mut i: usize = end;
    while i > 0
        invariant
            i <= end <= history@.len(),
            all == views(history@),
            entry_below(all, end as int, prefix@) == entry_below(all, i as int, prefix@),
        decreases i,
    {
        assert(all[i - 1] == history@[i - 1]@);
        if starts_with(history[i - 1].as_str(), prefix) {
            return Some(i - 1);
        }
        i = i - 1;
    }
    None
}

impl Dialog {
    /// The editor's cursor lies between characters, the list cursor points
    /// at a row, and the history position at an entry.
    pub open spec fn wf(self) -> bool {
        match self {
            Dialog::Filter { editor, .. } => editor.wf(),
            Dialog::Rename { editor } => editor.wf(),
            Dialog::Search { editor, history, nav, .. } => editor.wf() && (nav matches Some(nav)
                ==> nav.pos < history@.len()),
            Dialog::BookmarkName { editor, .. } => editor.wf(),
            Dialog::DisplayFields { cursor, .. } => cursor < DISPLAY_FIELD_COUNT,
            _ => true,
        }
    }

    /// The dialog that edits `current`, prefilled with its text.
    pub fn filter<F: FilterSyntax>(current: &Filter, syntax: &F) -> (dialog: Self)
        ensures
            dialog.wf(),
            exists|text: Seq<char>, parsed: Parsed|
                {
                    &&& #[trigger] writes_as(*syntax, current@, text)
                    &&& #[trigger] reads_as(*syntax, text, parsed)
                    &&& dialog@ == (DialogView::Filter {
                        editor: showing(text),
                        parse_error: None,
                    }).with_filter_error(parsed)
                },
    {
        let text = syntax.show(current);
        let ghost shown = text@;
        let parsed = syntax.parse(text.as_str());
        proof {
            assert(writes_as(*syntax, current@, shown));
            assert(reads_as(*syntax, shown, parsed_view(parsed)));
        }
        Dialog::filter_from(text, parsed)
    }

    /// The filter dialog for a text and what the text was read as.
    pub fn filter_from(text: String, parsed: Result<Filter, String>) -> (dialog: Self)
        ensures
            dialog.wf(),
            dialog@ == (DialogView::Filter {
                editor: showing(text@),
                parse_error: None,
            }).with_filter_error(parsed_view(parsed)),
    {
        let parse_error = match parsed {
            Ok(_) => None,
            Err(error) => Some(error),
        };
        Dialog::Filter { editor: LineEditor::new(text), parse_error }
    }

    /// The dialog that renames a tab.
    pub fn rename(current_name: &str) -> (dialog: Self)
        ensures
            dialog.wf(),
            dialog@ == (DialogView::Rename { editor: showing(current_name@) }),
    {
        Dialog::Rename { editor: LineEditor::new(current_name.to_owned()) }
    }

    /// The search prompt.
    pub fn search(direction: SearchDirection, history: Vec<String>) -> (dialog: Self)
        ensures
            dialog.wf(),
            dialog@ == (DialogView::Search {
                editor: showing(Seq::empty()),
                direction,
                parse_error: None,
                history: views(history@),
                nav: None,
            }),
    {
        Dialog::Search {
            editor: LineEditor::new(String::new()),
            direction,
            parse_error: None,
            history,
            nav: None,
        }
    }

    /// The dialog that names a bookmark; left empty, the bookmark stays
    /// unnamed.
    pub fn bookmark_name(draft: BookmarkDraft) -> (dialog: Self)
        ensures
            dialog.wf(),
            dialog@ == (DialogView::BookmarkName {
                editor: showing(Seq::empty()),
                draft: draft@,
            }),
    {
        Dialog::BookmarkName { editor: LineEditor::new(String::new()), draft }
    }

    /// The dialog that confirms the deletion of a bookmark.
    pub fn confirm_delete_bookmark(id: BookmarkId, label: String) -> (dialog: Self)
        ensures
            dialog.wf(),
            dialog@ == (DialogView::ConfirmDeleteBookmark { id: id.0, label: label@ }),
    {
        Dialog::ConfirmDeleteBookmark { id, label }
    }

    /// The dialog that confirms quitting.
    pub fn confirm_quit() -> (dialog: Self)
        ensures
            dialog.wf(),
            dialog@ == DialogView::ConfirmQuit,
    {
        Dialog::ConfirmQuit
    }

    /// The dialog that chooses columns, starting from `opts`.
    pub fn display_fields(opts: RenderOpts) -> (dialog: Self)
        ensures
            dialog.wf(),
            dialog@ == (DialogView::DisplayFields { draft: opts, cursor: 0 }),
    {
        Dialog::DisplayFields { draft: opts, cursor: 0 }
    }

    /// The popup that shows a command.
    pub fn seeit_command(text: String) -> (dialog: Self)
        ensures
            dialog.wf(),
            dialog@ == (DialogView::SeeitCommand { text: text@ }),
    {
        Dialog::SeeitCommand { text }
    }

    /// The popup that shows the keybindings.
    pub fn help() -> (dialog: Self)
        ensures
            dialog.wf(),
            dialog@ == (DialogView::Help { scroll: 0 }),
    {
        Dialog::Help { scroll: 0 }
    }

    /// The editor, where the dialog has one.
    pub fn editor(&self) -> (editor: Option<&LineEditor>)
        ensures
            match editor {
                Some(editor) => self@.editor() == Some(editor@) && (self.wf() ==> editor.wf()),
                None => self@.editor() is None,
            },
    {
        match self {
            Dialog::Filter { editor, .. } => Some(editor),
            Dialog::Rename { editor } => Some(editor),
            Dialog::Search { editor, .. } => Some(editor),
            Dialog::BookmarkName { editor, .. } => Some(editor),
            _ => None,
        }
    }

    /// What is wrong with the text, where the dialog says so.
    pub fn parse_error(&self) -> (error: Option<&str>)
        ensures
            match self@ {
                DialogView::Filter { parse_error, .. } => match error {
                    Some(error) => parse_error == Some(error@),
                    None => parse_error is None,
                },
                DialogView::Search { parse_error, .. } => match error {
                    Some(error) => parse_error == Some(error@),
                    None => parse_error is None,
                },
                _ => error is None,
            },
    {
        let parse_error = match self {
            Dialog::Filter { parse_error, .. } => parse_error,
            Dialog::Search { parse_error, .. } => parse_error,
            _ => {
                return None;
            },
        };
        match parse_error {
            Some(error) => Some(error.as_str()),
            None => None,
        }
    }

    /// Walks one step back through the search history.
    fn search_history_back(&mut self)
        requires
            old(self).wf(),
        ensures
            final(self).wf(),
            final(self)@ == old(self)@.back_in_history(),
    {
        match self {
            Dialog::Search { editor, history, nav, .. } => {
                proof {
                    editor.lemma_view();
                }
                if history.len() == 0 {
                    return ;
                }
                let (typed, start): (String, usize) = match nav {
                    Some(nav) => (nav.typed.clone(), nav.pos + 1),
                    None => (editor.text.clone(), 0),
                };
                if let Some(pos) = find_entry_from(history, start, typed.as_str()) {
                    assert(views(history@)[pos as int] == history@[pos as int]@);
                    *editor = LineEditor::new(history[pos].clone());
                    *nav = Some(SearchHistoryNav { typed, pos });
                }
            },
            _ => {},
        }
    }

    /// Walks one step forward through the search history.
    fn search_history_forward(&mut self)
        requires
            old(self).wf(),
        ensures
            final(self).wf(),
            final(self)@ == old(self)@.forward_in_history(),
    {
        match self {
            Dialog::Search { editor, history, nav, .. } => {
                let (typed, pos): (String, usize) = match nav {
                    Some(nav) => (nav.typed.clone(), nav.pos),
                    None => {
                        return ;
                    },
                };
                match find_entry_below(history, pos, typed.as_str()) {
                    Some(pos) => {
                        assert(views(history@)[pos as int] == history@[pos as int]@);
                        *editor = LineEditor::new(history[pos].clone());
                        *nav = Some(SearchHistoryNav { typed, pos });
                    },
                    None => {
                        *editor = LineEditor::new(typed);
                        *nav = None;
                    },
                }
            },
            _ => {},
        }
    }

    /// Refreshes what is wrong with the search pattern.
    fn reparse_search(&mut self)
        requires
            old(self).wf(),
        ensures
            final(self).wf(),
            final(self)@ == old(self)@.with_search_error(),
    {
        match self {
            Dialog::Search { editor, parse_error, .. } => {
                proof {
                    editor.lemma_view();
                }
                *parse_error = pattern_error(editor.text.as_str());
            },
            _ => {},
        }
    }

    /// Refreshes what is wrong with the filter, given what its text was read
    /// as.
    pub fn note_filter(&mut self, parsed: Result<Filter, String>)
        requires
            old(self).wf(),
        ensures
            final(self).wf(),
            final(self)@ == old(self)@.with_filter_error(parsed_view(parsed)),
    {
        match self {
            Dialog::Filter { parse_error, .. } => {
                *parse_error = match parsed {
                    Ok(_) => None,
                    Err(error) => Some(error),
                };
            },
            _ => {},
        }
    }

    /// What Enter does in the filter dialog, given what its text was read
    /// as.
    pub fn apply_filter(&mut self, parsed: Result<Filter, String>) -> (result: DialogResult)
        requires
            old(self).wf(),
            old(self)@ is Filter,
        ensures
            final(self).wf(),
            (final(self)@, result@) == old(self)@.applied(parsed_view(parsed)),
    {
        match parsed {
            Ok(filter) => DialogResult::ApplyFilter(filter),
            Err(error) => {
                match self {
                    Dialog::Filter { parse_error, .. } => {
                        *parse_error = Some(error);
                    },
                    _ => {},
                }
                DialogResult::Stay
            },
        }
    }

    /// What Enter does in a dialog other than the filter's.
    fn apply_other(&mut self) -> (result: DialogResult)
        requires
            old(self).wf(),
            !(old(self)@ is Filter),
        ensures
            final(self).wf(),
            forall|parsed: Parsed|
                (final(self)@, result@) == #[trigger] old(self)@.applied(parsed),
    {
        match self {
            Dialog::Filter { .. } => DialogResult::Stay,
            Dialog::Rename { editor } => {
                proof {
                    editor.lemma_view();
                }
                DialogResult::ApplyRename(editor.text.clone())
            },
            Dialog::Search { editor, direction, parse_error, .. } => {
                proof {
                    editor.lemma_view();
                }
                if editor.text.as_str().is_empty() {
                    return DialogResult::RepeatSearch(*direction);
                }
                match Pattern::compile(editor.text.as_str()) {
                    Ok(pattern) => DialogResult::ApplySearch { pattern, direction: *direction },
                    Err(error) => {
                        *parse_error = Some(regex_error_summary(error.as_str()));
                        DialogResult::Stay
                    },
                }
            },
            Dialog::BookmarkName { editor, draft } => {
                proof {
                    editor.lemma_view();
                }
                let name = trim(editor.text.as_str());
                let name = if name.as_str().is_empty() {
                    None
                } else {
                    Some(BookmarkName(name))
                };
                DialogResult::ApplyBookmark { name, draft: draft.clone() }
            },
            Dialog::ConfirmDeleteBookmark { id, .. } => DialogResult::ApplyDeleteBookmark(*id),
            Dialog::ConfirmQuit => DialogResult::ApplyQuit,
            Dialog::DisplayFields { draft, .. } => DialogResult::ApplyDisplayFields(*draft),
            Dialog::SeeitCommand { .. } => DialogResult::Cancel,
            Dialog::Help { .. } => DialogResult::Cancel,
        }
    }

    /// Applies an editing key to the dialog's editor; says whether there is
    /// an editor that took it.
    fn edit(&mut self, key: KeyEvent) -> (taken: bool)
        requires
            old(self).wf(),
        ensures
            final(self).wf(),
            match old(self)@.editor() {
                None => !taken && final(self)@ == old(self)@,
                Some(editor) => match editor.edited(key) {
                    None => !taken && final(self)@ == old(self)@,
                    Some(after) => taken && final(self)@ == old(self)@.typed_into(after),
                },
            },
    {
        match self {
            Dialog::Filter { editor, .. } => editor.handle_edit(key) == EditAction::Handled,
            Dialog::Rename { editor } => editor.handle_edit(key) == EditAction::Handled,
            Dialog::Search { editor, nav, .. } => {
                let taken = editor.handle_edit(key) == EditAction::Handled;
                if taken {
                    *nav = None;
                }
                taken
            },
            Dialog::BookmarkName { editor, .. } => {
                editor.handle_edit(key) == EditAction::Handled
            },
            _ => false,
        }
    }

    /// The filter dialog's text.
    fn filter_text(&self) -> (text: Option<String>)
        requires
            self.wf(),
        ensures
            match self@ {
                DialogView::Filter { editor, .. } => text matches Some(text) && text@
                    == editor.text(),
                _ => text is None,
            },
    {
        match self {
            Dialog::Filter { editor, .. } => {
                proof {
                    editor.lemma_view();
                }
                Some(editor.text.clone())
            },
            _ => None,
        }
    }

    /// What Enter does.
    pub fn try_apply<F: FilterSyntax>(&mut self, syntax: &F) -> (result: DialogResult)
        requires
            old(self).wf(),
        ensures
            final(self).wf(),
            exists|parsed: Parsed|
                {
                    &&& old(self)@ is Filter ==> reads_as(
                        *syntax,
                        old(self)@.editor()->Some_0.text(),
                        parsed,
                    )
                    &&& (final(self)@, result@) == #[trigger] old(self)@.applied(parsed)
                },
    {
        let ghost start = self@;
        match self.filter_text() {
            Some(text) => {
                let parsed = syntax.parse(text.as_str());
                let ghost read = parsed_view(parsed);
                let result = self.apply_filter(parsed);
                assert(reads_as(*syntax, text@, read));
                assert((self@, result@) == start.applied(read));
                result
            },
            None => {
                let ghost unread: Parsed = Err(Seq::empty());
                let result = self.apply_other();
                assert((self@, result@) == start.applied(unread));
                result
            },
        }
    }

    /// Routes a key to the dialog.  Esc and Enter come first, so that no
    /// editing key shadows them; a key that nothing takes is dropped.
    pub fn handle_key<F: FilterSyntax>(&mut self, key: KeyEvent, syntax: &F) -> (result:
        DialogResult)
        requires
            old(self).wf(),
        ensures
            final(self).wf(),
            exists|parsed: Parsed|
                {
                    &&& old(self)@.asks(key) matches Some(text) ==> reads_as(*syntax, text, parsed)
                    &&& (final(self)@, result@) == #[trigger] old(self)@.pressed(key, parsed)
                },
    {
        let ghost start = self@;
        let ghost unread: Parsed = Err(Seq::empty());
        if key.is_bare(KeyCode::Esc) {
            assert((self@, ResultView::Cancel) == start.pressed(key, unread));
            return DialogResult::Cancel;
        }
        if key.is_bare(KeyCode::Enter) {
            let result = self.try_apply(syntax);
            proof {
                let read = choose|read: Parsed|
                    {
                        &&& start is Filter ==> reads_as(
                            *syntax,
                            start.editor()->Some_0.text(),
                            read,
                        )
                        &&& (self@, result@) == #[trigger] start.applied(read)
                    };
                assert((self@, result@) == start.pressed(key, read));
            }
            return result;
        }
        match self {
            Dialog::DisplayFields { draft, cursor } => {
                handle_display_fields_key(draft, cursor, key);
                assert((self@, ResultView::Stay) == start.pressed(key, unread));
                return DialogResult::Stay;
            },
            Dialog::Help { scroll } => {
                handle_help_key(scroll, key);
                assert((self@, ResultView::Stay) == start.pressed(key, unread));
                return DialogResult::Stay;
            },
            Dialog::Search { editor, .. } => {
                proof {
                    editor.lemma_view();
                }
                if editor.text.as_str().is_empty() && key.code == KeyCode::Backspace {
                    assert((self@, ResultView::Cancel) == start.pressed(key, unread));
                    return DialogResult::Cancel;
                }
                if key.is_bare(KeyCode::Up) {
                    self.search_history_back();
                    self.reparse_search();
                    assert((self@, ResultView::Stay) == start.pressed(key, unread));
                    return DialogResult::Stay;
                }
                if key.is_bare(KeyCode::Down) {
                    self.search_history_forward();
                    self.reparse_search();
                    assert((self@, ResultView::Stay) == start.pressed(key, unread));
                    return DialogResult::Stay;
                }
            },
            _ => {},
        }
        if !self.edit(key) {
            assert((self@, ResultView::Stay) == start.pressed(key, unread));
            return DialogResult::Stay;
        }
        match self.filter_text() {
            Some(text) => {
                let parsed = syntax.parse(text.as_str());
                let ghost read = parsed_view(parsed);
                self.note_filter(parsed);
                assert(reads_as(*syntax, text@, read));
                assert((self@, ResultView::Stay) == start.pressed(key, read));
            },
            None => {
                self.reparse_search();
                assert((self@, ResultView::Stay) == start.pressed(key, unread));
            },
        }
        DialogResult::Stay
    }

    /// The text in the dialog's frame.
    pub fn title(&self) -> (title: String)
        ensures
            title@ == self@.title(),
    {
        match self {
            Dialog::Filter { .. } => "Filter (Esc cancel · Enter apply)".to_owned(),
            Dialog::Rename { .. } => "Rename tab (Esc cancel · Enter apply)".to_owned(),
            Dialog::Search { .. } => "Search (Esc cancel · Enter apply)".to_owned(),
            Dialog::BookmarkName { .. } => {
                "Bookmark name (Esc cancel · Enter save · blank for unnamed)".to_owned()
            },
            Dialog::ConfirmDeleteBookmark { label, .. } => {
                let mut title = "Delete bookmark ".to_owned();
                title.append(label.as_str());
                title.append("? (Esc cancel · Enter confirm)");
                title
            },
            Dialog::ConfirmQuit => "Quit? (Esc cancel · Enter confirm)".to_owned(),
            Dialog::DisplayFields { .. } => {
                "Display fields (Esc cancel · Enter apply · space toggle)".to_owned()
            },
            Dialog::SeeitCommand { .. } => "seeit reproduction (Esc/Enter close)".to_owned(),
            Dialog::Help { .. } => "Keybindings (Esc/Enter close · j/k scroll)".to_owned(),
        }
    }
}

impl DialogView {
    /// The text in the dialog's frame.
    pub open spec fn title(self) -> Seq<char> {
        match self {
            DialogView::Filter { .. } => "Filter (Esc cancel · Enter apply)"@,
            DialogView::Rename { .. } => "Rename tab (Esc cancel · Enter apply)"@,
            DialogView::Search { .. } => "Search (Esc cancel · Enter apply)"@,
            DialogView::BookmarkName { .. } => {
                "Bookmark name (Esc cancel · Enter save · blank for unnamed)"@
            },
            DialogView::ConfirmDeleteBookmark { label, .. } => {
                "Delete bookmark "@ + label + "? (Esc cancel · Enter confirm)"@
            },
            DialogView::ConfirmQuit => "Quit? (Esc cancel · Enter confirm)"@,
            DialogView::DisplayFields { .. } => {
                "Display fields (Esc cancel · Enter apply · space toggle)"@
            },
            DialogView::SeeitCommand { .. } => "seeit reproduction (Esc/Enter close)"@,
            DialogView::Help { .. } => "Keybindings (Esc/Enter close · j/k scroll)"@,
        }
    }
}

/// Esc closes every dialog without effect, whatever has been typed.
pub proof fn law_esc_always_cancels(dialog: DialogView, key: KeyEvent, parsed: Parsed)
    requires
        key.bare(KeyCode::Esc),
    ensures
        dialog.pressed(key, parsed) == (dialog, ResultView::Cancel),
{
}

/// A dialog without an editor takes no stray key: nothing but Esc and Enter
/// closes it.
pub proof fn law_dialogs_without_editor_drop_stray_keys(
    dialog: DialogView,
    key: KeyEvent,
    parsed: Parsed,
)
    requires
        dialog.editor() is None,
        !key.bare(KeyCode::Esc),
        !key.bare(KeyCode::Enter),
    ensures
        dialog.pressed(key, parsed).1 == ResultView::Stay,
        !(dialog is DisplayFields) && !(dialog is Help) ==> dialog.pressed(key, parsed).0
            == dialog,
{
}

/// A filter that cannot be read is never applied, and what is wrong with it
/// shows; one that can be read closes the dialog.
pub proof fn law_only_readable_filters_apply(dialog: DialogView, key: KeyEvent, parsed: Parsed)
    requires
        dialog is Filter,
        key.bare(KeyCode::Enter),
    ensures
        match parsed {
            Ok(filter) => dialog.pressed(key, parsed).1 == ResultView::ApplyFilter(filter),
            Err(error) => {
                &&& dialog.pressed(key, parsed).1 == ResultView::Stay
                &&& dialog.pressed(key, parsed).0 == (DialogView::Filter {
                    editor: dialog.editor()->Some_0,
                    parse_error: Some(error),
                })
            },
        },
{
}

/// Walking back in the history and forward again past the newest entry
/// brings back what was typed.
pub proof fn law_history_walk_restores_typed_text(
    editor: EditorView,
    direction: SearchDirection,
    parse_error: Option<Seq<char>>,
    history: Seq<Seq<char>>,
)
    requires
        history.len() <= usize::MAX,
        entry_from(history, 0, editor.text()) is Some,
    ensures
        ({
            let prompt = DialogView::Search {
                editor,
                direction,
                parse_error,
                history,
                nav: None,
            };
            prompt.back_in_history().forward_in_history().editor() == Some(showing(editor.text()))
        }),
{
    let typed = editor.text();
    let pos = entry_from(history, 0, typed)->Some_0;
    lemma_entry_from(history, 0, typed);
    lemma_none_below(history, pos, typed);
}

proof fn lemma_entry_from(history: Seq<Seq<char>>, start: int, prefix: Seq<char>)
    requires
        0 <= start,
    ensures
        entry_from(history, start, prefix) matches Some(pos) ==> {
            &&& start <= pos < history.len()
            &&& prefix.is_prefix_of(history[pos])
            &&& forall|k: int| start <= k < pos ==> !prefix.is_prefix_of(#[trigger] history[k])
        },
    decreases history.len() - start,
{
    if start < history.len() && !prefix.is_prefix_of(history[start]) {
        lemma_entry_from(history, start + 1, prefix);
    }
}

proof fn lemma_none_below(history: Seq<Seq<char>>, end: int, prefix: Seq<char>)
    requires
        0 <= end <= history.len(),
        forall|k: int| 0 <= k < end ==> !prefix.is_prefix_of(#[trigger] history[k]),
    ensures
        entry_below(history, end, prefix) is None,
    decreases end,
{
    if end > 0 {
        assert(!prefix.is_prefix_of(history[end - 1]));
        lemma_none_below(history, end - 1, prefix);
    }
}

/// Whether the syntax reads every text one way, namely as `reading` says.
pub open spec fn reads_one_way<F: FilterSyntax>(
    syntax: F,
    reading: spec_fn(Seq<char>) -> Parsed,
) -> bool {
    forall|text: Seq<char>, parsed: Parsed| #[trigger]
        reads_as(syntax, text, parsed) ==> parsed == reading(text)
}

/// Whether a dialog is one that [`Dialog::filter`] or [`Dialog::search`]
/// opens.
pub open spec fn just_opened<F: FilterSyntax>(syntax: F, dialog: DialogView) -> bool {
    match dialog {
        DialogView::Filter { editor, .. } => exists|parsed: Parsed| #[trigger]
            reads_as(syntax, editor.text(), parsed) && dialog == (DialogView::Filter {
                editor,
                parse_error: None,
            }).with_filter_error(parsed),
        DialogView::Search { editor, parse_error, .. } => editor.text().len() == 0
            && parse_error is None,
        _ => false,
    }
}

/// Whether [`Dialog::handle_key`] takes the dialog to `after` with this
/// outcome.
pub open spec fn handled<F: FilterSyntax>(
    syntax: F,
    before: DialogView,
    key: KeyEvent,
    after: DialogView,
    result: ResultView,
) -> bool {
    exists|parsed: Parsed|
        {
            &&& before.asks(key) matches Some(text) ==> reads_as(syntax, text, parsed)
            &&& (after, result) == #[trigger] before.pressed(key, parsed)
        }
}

/// Whether a dialog shows what is wrong with its text, and shows an error
/// only where something is.
pub open spec fn shows_its_error(
    dialog: DialogView,
    reading: spec_fn(Seq<char>) -> Parsed,
) -> bool {
    match dialog {
        DialogView::Filter { editor, parse_error } => match reading(editor.text()) {
            Ok(_) => parse_error is None,
            Err(error) => parse_error == Some(error),
        },
        DialogView::Search { editor, parse_error, .. } => {
            &&& parse_error == search_error(editor.text())
            &&& parse_error is Some <==> editor.text().len() > 0 && regex_error(
                editor.text(),
            ) is Some
        },
        _ => true,
    }
}

/// Whether the text of a filter or search dialog cannot be read.
pub open spec fn in_error(dialog: DialogView, reading: spec_fn(Seq<char>) -> Parsed) -> bool {
    match dialog {
        DialogView::Filter { editor, .. } => reading(editor.text()) is Err,
        DialogView::Search { editor, .. } => editor.text().len() > 0 && regex_error(
            editor.text(),
        ) is Some,
        _ => false,
    }
}

/// A filter or search dialog shows an error exactly where its text cannot be
/// read, after whatever keys; and Enter on such a text keeps the dialog open,
/// with its text and cursor as they were.
pub proof fn law_dialogs_show_what_is_wrong<F: FilterSyntax>(
    syntax: F,
    reading: spec_fn(Seq<char>) -> Parsed,
    dialogs: Seq<DialogView>,
    keys: Seq<KeyEvent>,
    results: Seq<ResultView>,
)
    requires
        reads_one_way(syntax, reading),
        dialogs.len() == keys.len() + 1,
        results.len() == keys.len(),
        just_opened(syntax, dialogs.first()),
        forall|i: int|
            0 <= i < keys.len() ==> #[trigger] handled(
                syntax,
                dialogs[i],
                keys[i],
                dialogs[i + 1],
                results[i],
            ),
    ensures
        forall|i: int| 0 <= i < dialogs.len() ==> shows_its_error(#[trigger] dialogs[i], reading),
        forall|i: int|
            0 <= i < keys.len() && (#[trigger] keys[i]).bare(KeyCode::Enter) && in_error(
                dialogs[i],
                reading,
            ) ==> results[i] == ResultView::Stay && dialogs[i + 1].editor() == dialogs[i].editor(),
{
    assert forall|i: int| 0 <= i < dialogs.len() implies shows_its_error(
        #[trigger] dialogs[i],
        reading,
    ) by {
        lemma_error_is_kept_up(syntax, reading, dialogs, keys, results, i);
    }
    assert forall|i: int|
        0 <= i < keys.len() && (#[trigger] keys[i]).bare(KeyCode::Enter) && in_error(
            dialogs[i],
            reading,
        ) implies results[i] == ResultView::Stay && dialogs[i + 1].editor()
        == dialogs[i].editor() by {
        assert(handled(syntax, dialogs[i], keys[i], dialogs[i + 1], results[i]));
    }
}

proof fn lemma_error_is_kept_up<F: FilterSyntax>(
    syntax: F,
    reading: spec_fn(Seq<char>) -> Parsed,
    dialogs: Seq<DialogView>,
    keys: Seq<KeyEvent>,
    results: Seq<ResultView>,
    n: int,
)
    requires
        reads_one_way(syntax, reading),
        dialogs.len() == keys.len() + 1,
        just_opened(syntax, dialogs.first()),
        forall|i: int|
            0 <= i < keys.len() ==> #[trigger] handled(
                syntax,
                dialogs[i],
                keys[i],
                dialogs[i + 1],
                results[i],
            ),
        0 <= n < dialogs.len(),
    ensures
        shows_its_error(dialogs[n], reading),
    decreases n,
{
    if n > 0 {
        lemma_error_is_kept_up(syntax, reading, dialogs, keys, results, n - 1);
        assert(handled(syntax, dialogs[n - 1], keys[n - 1], dialogs[n - 1 + 1], results[n - 1]));
    }
}

/// Enter in a dialog asks for what the dialog shows: the filter that its text
/// reads as, the name or pattern in its editor, the bookmark or the options
/// that it is about.
pub proof fn law_enter_applies_what_is_shown(
    editor: EditorView,
    shown: Option<Seq<char>>,
    direction: SearchDirection,
    history: Seq<Seq<char>>,
    nav: Option<NavView>,
    draft: DraftView,
    id: u128,
    text: Seq<char>,
    opts: RenderOpts,
    cursor: usize,
    scroll: u16,
    key: KeyEvent,
    parsed: Parsed,
)
    requires
        key.bare(KeyCode::Enter),
    ensures
        parsed matches Ok(filter) ==> (DialogView::Filter { editor, parse_error: shown }).pressed(
            key,
            parsed,
        ).1 == ResultView::ApplyFilter(filter),
        (DialogView::Rename { editor }).pressed(key, parsed).1 == ResultView::ApplyRename(
            editor.before + editor.after,
        ),
        ({
            let search = DialogView::Search {
                editor,
                direction,
                parse_error: shown,
                history,
                nav,
            };
            let pattern = editor.before + editor.after;
            &&& pattern.len() == 0 ==> search.pressed(key, parsed).1 == ResultView::RepeatSearch(
                direction,
            )
            &&& pattern.len() > 0 && regex_error(pattern) is None ==> search.pressed(key, parsed).1
                == (ResultView::ApplySearch { pattern, direction })
            &&& pattern.len() > 0 && regex_error(pattern) is Some ==> search.pressed(key, parsed).1
                == ResultView::Stay
        }),
        (DialogView::BookmarkName { editor, draft }).pressed(
            key,
            parsed,
        ).1 matches ResultView::ApplyBookmark { name, draft: kept } && kept == draft && (
        name matches Some(name) ==> name == trimmed(editor.before + editor.after)),
        (DialogView::ConfirmDeleteBookmark { id, label: text }).pressed(key, parsed).1
            == ResultView::ApplyDeleteBookmark(id),
        DialogView::ConfirmQuit.pressed(key, parsed).1 == ResultView::ApplyQuit,
        (DialogView::DisplayFields { draft: opts, cursor }).pressed(key, parsed).1
            == ResultView::ApplyDisplayFields(opts),
        (DialogView::SeeitCommand { text }).pressed(key, parsed).1 == ResultView::Cancel,
        (DialogView::Help { scroll }).pressed(key, parsed).1 == ResultView::Cancel,
{
}

/// Typing in a dialog goes into its editor, and changes nothing else but what
/// is said of the text and where the walk through the history stands.
pub proof fn law_typing_goes_into_the_editor(
    editor: EditorView,
    shown: Option<Seq<char>>,
    direction: SearchDirection,
    history: Seq<Seq<char>>,
    nav: Option<NavView>,
    draft: DraftView,
    c: char,
    key: KeyEvent,
    parsed: Parsed,
)
    requires
        key.bare(KeyCode::Char(c)) || key.shifted(KeyCode::Char(c)),
    ensures
        ({
            let after = EditorView { before: editor.before.push(c), after: editor.after };
            let pattern = after.before + after.after;
            &&& (DialogView::Rename { editor }).pressed(key, parsed) == (
                DialogView::Rename { editor: after },
                ResultView::Stay,
            )
            &&& (DialogView::BookmarkName { editor, draft }).pressed(key, parsed) == (
                DialogView::BookmarkName { editor: after, draft },
                ResultView::Stay,
            )
            &&& (DialogView::Filter { editor, parse_error: shown }).pressed(key, parsed) == (
                DialogView::Filter {
                    editor: after,
                    parse_error: match parsed {
                        Ok(_) => None,
                        Err(error) => Some(error),
                    },
                },
                ResultView::Stay,
            )
            &&& (DialogView::Search {
                editor,
                direction,
                parse_error: shown,
                history,
                nav,
            }).pressed(key, parsed) matches (
                DialogView::Search {
                    editor: now,
                    direction: same,
                    parse_error,
                    history: all,
                    nav: none,
                },
                ResultView::Stay,
            ) && now == after && same == direction && all == history && none is None && (
            parse_error is Some <==> regex_error(pattern) is Some)
        }),
{
}

proof fn lemma_entry_below(history: Seq<Seq<char>>, end: int, prefix: Seq<char>)
    requires
        0 <= end <= history.len(),
    ensures
        match entry_below(history, end, prefix) {
            Some(pos) => {
                &&& 0 <= pos < end
                &&& prefix.is_prefix_of(history[pos])
                &&& forall|k: int| pos < k < end ==> !prefix.is_prefix_of(#[trigger] history[k])
            },
            None => forall|k: int| 0 <= k < end ==> !prefix.is_prefix_of(#[trigger] history[k]),
        },
    decreases end,
{
    if end > 0 && !prefix.is_prefix_of(history[end - 1]) {
        lemma_entry_below(history, end - 1, prefix);
    }
}

proof fn lemma_none_from(history: Seq<Seq<char>>, start: int, prefix: Seq<char>)
    requires
        0 <= start,
    ensures
        entry_from(history, start, prefix) is None ==> forall|k: int|
            start <= k < history.len() ==> !prefix.is_prefix_of(#[trigger] history[k]),
    decreases history.len() - start,
{
    if start < history.len() && !prefix.is_prefix_of(history[start]) {
        lemma_none_from(history, start + 1, prefix);
    }
}

/// Up in a search prompt goes to the next older pattern of the history that
/// begins with what was typed, Down to the next newer one, and in the end back
/// to what was typed.
pub proof fn law_history_is_walked_entry_by_entry(
    editor: EditorView,
    direction: SearchDirection,
    shown: Option<Seq<char>>,
    history: Seq<Seq<char>>,
    typed: Seq<char>,
    pos: usize,
)
    requires
        pos < history.len() <= usize::MAX,
    ensures
        ({
            let prompt = DialogView::Search {
                editor,
                direction,
                parse_error: shown,
                history,
                nav: Some(NavView { typed, pos }),
            };
            let fits = |k: int| typed.is_prefix_of(history[k]);
            let older = prompt.back_in_history();
            let newer = prompt.forward_in_history();
            &&& forall|k: int|
                {
                    &&& pos < k < history.len()
                    &&& #[trigger] fits(k)
                    &&& forall|j: int| pos < j < k ==> !#[trigger] fits(j)
                } ==> older == (DialogView::Search {
                    editor: EditorView { before: history[k], after: Seq::empty() },
                    direction,
                    parse_error: shown,
                    history,
                    nav: Some(NavView { typed, pos: k as usize }),
                })
            &&& (forall|k: int| pos < k < history.len() ==> !#[trigger] fits(k)) ==> older == prompt
            &&& forall|k: int|
                {
                    &&& 0 <= k < pos
                    &&& #[trigger] fits(k)
                    &&& forall|j: int| k < j < pos ==> !#[trigger] fits(j)
                } ==> newer == (DialogView::Search {
                    editor: EditorView { before: history[k], after: Seq::empty() },
                    direction,
                    parse_error: shown,
                    history,
                    nav: Some(NavView { typed, pos: k as usize }),
                })
            &&& (forall|k: int| 0 <= k < pos ==> !#[trigger] fits(k)) ==> newer
                == (DialogView::Search {
                editor: EditorView { before: typed, after: Seq::empty() },
                direction,
                parse_error: shown,
                history,
                nav: None,
            })
        }),
{
    lemma_entry_from(history, pos + 1, typed);
    lemma_none_from(history, pos + 1, typed);
    lemma_entry_below(history, pos as int, typed);
    let fits = |k: int| typed.is_prefix_of(history[k]);
    let prompt = DialogView::Search {
        editor,
        direction,
        parse_error: shown,
        history,
        nav: Some(NavView { typed, pos }),
    };
    assert forall|k: int|
        {
            &&& pos < k < history.len()
            &&& #[trigger] fits(k)
            &&& forall|j: int| pos < j < k ==> !#[trigger] fits(j)
        } implies entry_from(history, pos + 1, typed) == Some(k) by {
        let found = entry_from(history, pos + 1, typed);
        assert(typed.is_prefix_of(history[k]));
        if found is Some && found->Some_0 < k {
            assert(fits(found->Some_0));
        }
    }
    assert forall|k: int|
        {
            &&& 0 <= k < pos
            &&& #[trigger] fits(k)
            &&& forall|j: int| k < j < pos ==> !#[trigger] fits(j)
        } implies entry_below(history, pos as int, typed) == Some(k) by {
        let found = entry_below(history, pos as int, typed);
        assert(typed.is_prefix_of(history[k]));
        if found is Some && found->Some_0 > k {
            assert(fits(found->Some_0));
        }
    }
    if forall|k: int| pos < k < history.len() ==> !#[trigger] fits(k) {
        let found = entry_from(history, pos + 1, typed);
        if found is Some {
            assert(fits(found->Some_0));
        }
    }
    if forall|k: int| 0 <= k < pos ==> !#[trigger] fits(k) {
        let found = entry_below(history, pos as int, typed);
        if found is Some {
            assert(fits(found->Some_0));
        }
    }
}

/// Trimming takes white space off both ends and nothing else.
pub proof fn law_trimming_takes_white_space_off_the_ends(text: Seq<char>)
    ensures
        ({
            let kept = trimmed(text);
            &&& kept.len() > 0 ==> !is_white_space(kept[0]) && !is_white_space(kept.last())
            &&& exists|from: int, to: int|
                {
                    &&& 0 <= from <= to <= text.len()
                    &&& kept == #[trigger] text.subrange(from, to)
                    &&& forall|i: int| 0 <= i < from ==> is_white_space(#[trigger] text[i])
                    &&& forall|i: int| to <= i < text.len() ==> is_white_space(#[trigger] text[i])
                }
        }),
    decreases text.len(),
{
    let kept = trimmed(text);
    if text.len() > 0 && is_white_space(text.last()) {
        let rest = text.drop_last();
        law_trimming_takes_white_space_off_the_ends(rest);
        let (from, to) = choose|from: int, to: int|
            {
                &&& 0 <= from <= to <= rest.len()
                &&& kept == #[trigger] rest.subrange(from, to)
                &&& forall|i: int| 0 <= i < from ==> is_white_space(#[trigger] rest[i])
                &&& forall|i: int| to <= i < rest.len() ==> is_white_space(#[trigger] rest[i])
            };
        assert(kept =~= text.subrange(from, to));
        assert forall|i: int| 0 <= i < from implies is_white_space(#[trigger] text[i]) by {
            assert(text[i] == rest[i]);
        }
        assert forall|i: int| to <= i < text.len() implies is_white_space(#[trigger] text[i]) by {
            if i < rest.len() {
                assert(text[i] == rest[i]);
            }
        }
    } else if text.len() > 0 && is_white_space(text[0]) {
        let rest = text.drop_first();
        law_trimming_takes_white_space_off_the_ends(rest);
        let (from, to) = choose|from: int, to: int|
            {
                &&& 0 <= from <= to <= rest.len()
                &&& kept == #[trigger] rest.subrange(from, to)
                &&& forall|i: int| 0 <= i < from ==> is_white_space(#[trigger] rest[i])
                &&& forall|i: int| to <= i < rest.len() ==> is_white_space(#[trigger] rest[i])
            };
        assert(kept =~= text.subrange(from + 1, to + 1));
        assert forall|i: int| 0 <= i < from + 1 implies is_white_space(#[trigger] text[i]) by {
            if i > 0 {
                assert(text[i] == rest[i - 1]);
            }
        }
        assert forall|i: int| to + 1 <= i < text.len() implies is_white_space(
            #[trigger] text[i],
        ) by {
            assert(text[i] == rest[i - 1]);
        }
    } else {
        assert(kept =~= text.subrange(0, text.len() as int));
    }
}

/// A bookmark that is given a blank name gets none; any other name is kept,
/// without the white space round it.
pub proof fn law_blank_names_are_no_names(
    editor: EditorView,
    draft: DraftView,
    key: KeyEvent,
    parsed: Parsed,
)
    requires
        key.bare(KeyCode::Enter),
    ensures
        ({
            let text = editor.before + editor.after;
            let blank = forall|i: int| 0 <= i < text.len() ==> is_white_space(#[trigger] text[i]);
            &&& (DialogView::BookmarkName { editor, draft }).pressed(
                key,
                parsed,
            ).1 matches ResultView::ApplyBookmark { name, .. }
            &&& name is None <==> blank
        }),
{
    let text = editor.before + editor.after;
    assert(text == editor.text());
    law_trimming_takes_white_space_off_the_ends(text);
    let kept = trimmed(text);
    let (from, to) = choose|from: int, to: int|
        {
            &&& 0 <= from <= to <= text.len()
            &&& kept == #[trigger] text.subrange(from, to)
            &&& forall|i: int| 0 <= i < from ==> is_white_space(#[trigger] text[i])
            &&& forall|i: int| to <= i < text.len() ==> is_white_space(#[trigger] text[i])
        };
    if kept.len() > 0 {
        assert(text[from] == kept[0]);
    }
}

/// A preview is the message itself, or its beginning with an ellipsis where it
/// is long.
pub proof fn law_previews_begin_as_the_message(msg: Seq<char>)
    ensures
        msg.len() <= 80 ==> preview(msg) == msg,
        msg.len() > 80 ==> preview(msg) == msg.take(80).push('…'),
{
}

/// Backspace in an empty search prompt closes it; in any other it takes away
/// the character in front of the cursor.
pub proof fn law_backspace_leaves_an_empty_prompt(
    editor: EditorView,
    direction: SearchDirection,
    shown: Option<Seq<char>>,
    history: Seq<Seq<char>>,
    nav: Option<NavView>,
    key: KeyEvent,
    parsed: Parsed,
)
    requires
        key.code == KeyCode::Backspace,
    ensures
        ({
            let prompt = DialogView::Search {
                editor,
                direction,
                parse_error: shown,
                history,
                nav,
            };
            &&& (editor.before + editor.after).len() == 0 ==> prompt.pressed(key, parsed).1
                == ResultView::Cancel
            &&& (editor.before + editor.after).len() > 0 ==> prompt.pressed(key, parsed).1
                == ResultView::Stay
            &&& editor.before.len() > 0 ==> (prompt.pressed(key, parsed).0.editor() == Some(
                EditorView { before: editor.before.drop_last(), after: editor.after },
            ))
        }),
{
}

/// Each dialog is titled by what it asks; the one that deletes a bookmark names
/// it.
pub proof fn law_titles_say_what_is_asked(
    id: u128,
    label: Seq<char>,
    editor: EditorView,
    draft: DraftView,
    scroll: u16,
)
    ensures
        (DialogView::ConfirmDeleteBookmark { id, label }).title() == "Delete bookmark "@ + label
            + "? (Esc cancel · Enter confirm)"@,
        DialogView::ConfirmQuit.title() == "Quit? (Esc cancel · Enter confirm)"@,
        (DialogView::Rename { editor }).title() == "Rename tab (Esc cancel · Enter apply)"@,
        (DialogView::BookmarkName { editor, draft }).title()
            == "Bookmark name (Esc cancel · Enter save · blank for unnamed)"@,
        (DialogView::Help { scroll }).title() == "Keybindings (Esc/Enter close · j/k scroll)"@,
{
}

/// What is wrong with a pattern is told on one line, in the words of the error;
/// of an empty pattern nothing is wrong.
pub proof fn law_pattern_errors_are_told_on_one_line(pattern: Seq<char>)
    ensures
        pattern.len() == 0 || regex_error(pattern) is None ==> search_error(pattern) is None,
        pattern.len() > 0 ==> (regex_error(pattern) matches Some(error) ==> search_error(pattern)
            is Some && {
            let told = search_error(pattern)->Some_0;
            &&& crate::text::solid(told) == crate::text::solid(error)
            &&& forall|k: int|
                0 <= k < told.len() && is_white_space(#[trigger] told[k]) ==> told[k] == ' '
        }),
{
    if regex_error(pattern) is Some {
        crate::text::law_one_line_keeps_the_words(regex_error(pattern)->Some_0);
    }
}

/// What is read while a filter is typed is the text as it stands after the key:
/// whole on Enter, with the character on typing, and nothing on Esc or in any
/// other dialog.
pub proof fn law_filters_are_read_as_they_are_typed(
    editor: EditorView,
    shown: Option<Seq<char>>,
    c: char,
    key: KeyEvent,
    other: DialogView,
)
    ensures
        ({
            let filter = DialogView::Filter { editor, parse_error: shown };
            &&& key.bare(KeyCode::Enter) ==> filter.asks(key) == Some(editor.before + editor.after)
            &&& key.bare(KeyCode::Char(c)) || key.shifted(KeyCode::Char(c)) ==> filter.asks(key)
                == Some(editor.before.push(c) + editor.after)
            &&& key.bare(KeyCode::Esc) ==> filter.asks(key) is None
            &&& !(other is Filter) ==> other.asks(key) is None
        }),
{
}

} // verus!
