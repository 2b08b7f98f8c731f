//! The keybindings that the help popup shows.

use crate::editor::byte_len;
use crate::key::{KeyCode, KeyEvent};
use crate::search::{span_views, Emphasis, Span, SpanView};
use crate::text::push_char;
use vstd::prelude::*;
use vstd::utf8::encode_utf8;

verus! {

/// One section of the help popup.
#[derive(Debug)]
pub struct HelpSection {
    /// heading above the items
    pub title: &'static str,
    /// keys and what they do
    pub items: Vec<(&'static str, &'static str)>,
}

/// What a [`HelpSection`] says.
#[verifier::ext_equal]
pub struct SectionView {
    pub title: Seq<char>,
    pub items: Seq<(Seq<char>, Seq<char>)>,
}

impl View for HelpSection {
    type V = SectionView;

    open spec fn view(&self) -> SectionView {
        SectionView {
            title: self.title@,
            items: self.items@.map_values(|i: (&'static str, &'static str)| (i.0@, i.1@)),
        }
    }
}

/// The views of a list of sections.
pub open spec fn section_views(sections: Seq<HelpSection>) -> Seq<SectionView> {
    sections.map_values(|s: HelpSection| s@)
}

/// The section "Navigation".
pub open spec fn navigation_section() -> SectionView {
    SectionView {
        title: "Navigation"@,
        items: seq![
            ("j, Down"@, "scroll down one line"@),
            ("k, Up"@, "scroll up one line"@),
            ("Space"@, "page down"@),
            ("Ctrl-D"@, "half-page down"@),
            ("Ctrl-U"@, "half-page up"@),
            ("g, Home"@, "go to first record"@),
            ("G, End"@, "go to last record"@),
            ("<"@, "step back by current time step"@),
            (">"@, "step forward by current time step"@),
            ("-"@, "shrink time step"@),
            ("=, +"@, "grow time step"@),
        ],
    }
}

fn navigation() -> (section: HelpSection)
    ensures
        section@ == navigation_section(),
{
    let mut items: Vec<(&'static str, &'static str)> = Vec::new();
    items.push(("j, Down", "scroll down one line"));
    items.push(("k, Up", "scroll up one line"));
    items.push(("Space", "page down"));
    items.push(("Ctrl-D", "half-page down"));
    items.push(("Ctrl-U", "half-page up"));
    items.push(("g, Home", "go to first record"));
    items.push(("G, End", "go to last record"));
    items.push(("<", "step back by current time step"));
    items.push((">", "step forward by current time step"));
    items.push(("-", "shrink time step"));
    items.push(("=, +", "grow time step"));
    let section = HelpSection { title: "Navigation", items };
    assert(section@.items =~= navigation_section().items);
    section
}

/// The section "Search".
pub open spec fn search_keys_section() -> SectionView {
    SectionView {
        title: "Search"@,
        items: seq![
            ("/"@, "forward search"@),
            ("?"@, "backward search"@),
            ("n"@, "repeat last search"@),
            ("N"@, "repeat last search, reversed"@),
            ("Up, Down"@, "walk search history (at the search prompt)"@),
        ],
    }
}

fn search_keys() -> (section: HelpSection)
    ensures
        section@ == search_keys_section(),
{
    let mut items: Vec<(&'static str, &'static str)> = Vec::new();
    items.push(("/", "forward search"));
    items.push(("?", "backward search"));
    items.push(("n", "repeat last search"));
    items.push(("N", "repeat last search, reversed"));
    items.push(("Up, Down", "walk search history (at the search prompt)"));
    let section = HelpSection { title: "Search", items };
    assert(section@.items =~= search_keys_section().items);
    section
}

/// The section "Filtering & selection".
pub open spec fn filtering_section() -> SectionView {
    SectionView {
        title: "Filtering & selection"@,
        items: seq![
            ("f"@, "edit filter"@),
            ("x"@, "exclude rows matching the selected message"@),
            ("X"@, "include only rows matching the selected message"@),
            ("b"@, "bookmark a row"@),
        ],
    }
}

fn filtering() -> (section: HelpSection)
    ensures
        section@ == filtering_section(),
{
    let mut items: Vec<(&'static str, &'static str)> = Vec::new();
    items.push(("f", "edit filter"));
    items.push(("x", "exclude rows matching the selected message"));
    items.push(("X", "include only rows matching the selected message"));
    items.push(("b", "bookmark a row"));
    let section = HelpSection { title: "Filtering & selection", items };
    assert(section@.items =~= filtering_section().items);
    section
}

/// The section "Display".
pub open spec fn display_section() -> SectionView {
    SectionView {
        title: "Display"@,
        items: seq![
            ("d"@, "display-fields dialog (timestamp, hostname, pid, …)"@),
            ("F"@, "toggle structured-fields visibility"@),
            ("D"@, "toggle date in timestamp"@),
            ("R"@, "toggle raw rendering"@),
            ("p"@, "toggle engine fetch-progress row"@),
        ],
    }
}

fn display() -> (section: HelpSection)
    ensures
        section@ == display_section(),
{
    let mut items: Vec<(&'static str, &'static str)> = Vec::new();
    items.push(("d", "display-fields dialog (timestamp, hostname, pid, …)"));
    items.push(("F", "toggle structured-fields visibility"));
    items.push(("D", "toggle date in timestamp"));
    items.push(("R", "toggle raw rendering"));
    items.push(("p", "toggle engine fetch-progress row"));
    let section = HelpSection { title: "Display", items };
    assert(section@.items =~= display_section().items);
    section
}

/// The section "Tabs".
pub open spec fn tabs_section() -> SectionView {
    SectionView {
        title: "Tabs"@,
        items: seq![
            ("Tab"@, "next tab"@),
            ("Shift-Tab"@, "previous tab"@),
            ("Ctrl-T"@, "new tab (clone current filter)"@),
            ("S"@, "new summary tab"@),
            ("Ctrl-W"@, "close active tab"@),
            ("r"@, "rename active tab"@),
        ],
    }
}

fn tabs() -> (section: HelpSection)
    ensures
        section@ == tabs_section(),
{
    let mut items: Vec<(&'static str, &'static str)> = Vec::new();
    items.push(("Tab", "next tab"));
    items.push(("Shift-Tab", "previous tab"));
    items.push(("Ctrl-T", "new tab (clone current filter)"));
    items.push(("S", "new summary tab"));
    items.push(("Ctrl-W", "close active tab"));
    items.push(("r", "rename active tab"));
    let section = HelpSection { title: "Tabs", items };
    assert(section@.items =~= tabs_section().items);
    section
}

/// The section "Other".
pub open spec fn other_section() -> SectionView {
    SectionView {
        title: "Other"@,
        items: seq![
            ("Y"@, "show `seeit` reproduction command"@),
            ("h"@, "show this help"@),
            ("q"@, "quit"@),
        ],
    }
}

fn other() -> (section: HelpSection)
    ensures
        section@ == other_section(),
{
    let mut items: Vec<(&'static str, &'static str)> = Vec::new();
    items.push(("Y", "show `seeit` reproduction command"));
    items.push(("h", "show this help"));
    items.push(("q", "quit"));
    let section = HelpSection { title: "Other", items };
    assert(section@.items =~= other_section().items);
    section
}

/// The section "Bookmarks pane".
pub open spec fn bookmarks_pane_section() -> SectionView {
    SectionView {
        title: "Bookmarks pane"@,
        items: seq![
            ("j, k"@, "move cursor"@),
            ("Enter"@, "open bookmark"@),
            ("x"@, "delete bookmark (with confirmation)"@),
        ],
    }
}

fn bookmarks_pane() -> (section: HelpSection)
    ensures
        section@ == bookmarks_pane_section(),
{
    let mut items: Vec<(&'static str, &'static str)> = Vec::new();
    items.push(("j, k", "move cursor"));
    items.push(("Enter", "open bookmark"));
    items.push(("x", "delete bookmark (with confirmation)"));
    let section = HelpSection { title: "Bookmarks pane", items };
    assert(section@.items =~= bookmarks_pane_section().items);
    section
}

/// All sections, in display order.
pub open spec fn help() -> Seq<SectionView> {
    seq![
        navigation_section(),
        search_keys_section(),
        filtering_section(),
        display_section(),
        tabs_section(),
        other_section(),
        bookmarks_pane_section(),
    ]
}

/// All keybindings that the help popup shows, in display order.
pub fn help_sections() -> (sections: Vec<HelpSection>)
    ensures
        section_views(sections@) == help(),
{
    let mut sections: Vec<HelpSection> = Vec::new();
    sections.push(navigation());
    sections.push(search_keys());
    sections.push(filtering());
    sections.push(display());
    sections.push(tabs());
    sections.push(other());
    sections.push(bookmarks_pane());
    assert(section_views(sections@) =~= help());
    sections
}

/// The scroll offset after a key: one line, half a page or a page at a time,
/// held at both ends of the range; any other key is dropped.
pub open spec fn help_key(scroll: u16, key: KeyEvent) -> u16 {
    if key.bare(KeyCode::Char('j')) || key.bare(KeyCode::Down) {
        scrolled(scroll, 1)
    } else if key.bare(KeyCode::Char('k')) || key.bare(KeyCode::Up) {
        scrolled(scroll, -1)
    } else if key.bare(KeyCode::Char(' ')) || key.bare(KeyCode::PageDown) {
        scrolled(scroll, 10)
    } else if key.control(KeyCode::Char('d')) {
        scrolled(scroll, 5)
    } else if key.control(KeyCode::Char('u')) {
        scrolled(scroll, -5)
    } else if key.bare(KeyCode::PageUp) {
        scrolled(scroll, -10)
    } else {
        scroll
    }
}

/// An offset moved by `by`, held within the range of offsets.
pub open spec fn scrolled(scroll: u16, by: int) -> u16 {
    if scroll + by < 0 {
        0
    } else if scroll + by > u16::MAX {
        u16::MAX
    } else {
        (scroll + by) as u16
    }
}

/// Routes a key inside the help popup.  The end of the text is not known
/// here: drawing stops at the last line.
pub fn handle_help_key(scroll: &mut u16, key: KeyEvent)
    ensures
        *final(scroll) == help_key(*old(scroll), key),
{
    if key.is_bare(KeyCode::Char('j')) || key.is_bare(KeyCode::Down) {
        *scroll = scroll.saturating_add(1);
    } else if key.is_bare(KeyCode::Char('k')) || key.is_bare(KeyCode::Up) {
        *scroll = scroll.saturating_sub(1);
    } else if key.is_bare(KeyCode::Char(' ')) || key.is_bare(KeyCode::PageDown) {
        *scroll = scroll.saturating_add(10);
    } else if key.is_control(KeyCode::Char('d')) {
        *scroll = scroll.saturating_add(5);
    } else if key.is_control(KeyCode::Char('u')) {
        *scroll = scroll.saturating_sub(5);
    } else if key.is_bare(KeyCode::PageUp) {
        *scroll = scroll.saturating_sub(10);
    }
}

/// The text with spaces behind it up to `width` characters.
pub open spec fn padded(text: Seq<char>, width: int) -> Seq<char> {
    if text.len() >= width {
        text
    } else {
        text + Seq::new((width - text.len()) as nat, |i: int| ' ')
    }
}

/// Appends `text` and spaces up to `width` characters.
pub(crate) fn push_padded(line: &mut String, text: &str, width: usize)
    ensures
        final(line)@ == old(line)@ + padded(text@, width as int),
{
    line.append(text);
    let mut n: usize = text.unicode_len();
    let ghost start = line@;
    let ghost first = n;
    assert(start + Seq::new(0, |i: int| ' ') =~= start);
    while n < width
        invariant
            first <= n,
            n <= width || n == first,
            line@ == start + Seq::new((n - first) as nat, |i: int| ' '),
        decreases width - n,
    {
        push_char(line, ' ');
        n = n + 1;
        assert(line@ =~= start + Seq::new((n - first) as nat, |i: int| ' '));
    }
    assert(line@ =~= old(line)@ + padded(text@, width as int));
}

/// The longest key text of a list of items, in bytes.
pub open spec fn items_width(items: Seq<(Seq<char>, Seq<char>)>) -> nat
    decreases items.len(),
{
    if items.len() == 0 {
        0
    } else {
        let before = items_width(items.drop_last());
        let len = encode_utf8(items.last().0).len();
        if len > before {
            len
        } else {
            before
        }
    }
}

/// The longest key text of all sections, in bytes.
pub open spec fn keys_width(sections: Seq<SectionView>) -> nat
    decreases sections.len(),
{
    if sections.len() == 0 {
        0
    } else {
        let before = keys_width(sections.drop_last());
        let len = items_width(sections.last().items);
        if len > before {
            len
        } else {
            before
        }
    }
}

/// The line of an item: keys in a column of `width`, then what they do.
pub open spec fn item_line(item: (Seq<char>, Seq<char>), width: nat) -> SpanView {
    SpanView {
        content: "  "@ + padded(item.0, width as int) + "  "@ + item.1,
        style: Emphasis::Plain,
    }
}

/// The lines of the first `n` sections: a blank line between two sections,
/// the title in bold, then the items.
pub open spec fn help_lines(sections: Seq<SectionView>, width: nat) -> Seq<SpanView>
    decreases sections.len(),
{
    if sections.len() == 0 {
        Seq::empty()
    } else {
        let before = help_lines(sections.drop_last(), width);
        let gap = if sections.len() > 1 {
            before.push(SpanView { content: Seq::empty(), style: Emphasis::Plain })
        } else {
            before
        };
        gap.push(SpanView { content: sections.last().title, style: Emphasis::Bold })
            + sections.last().items.map_values(|item: (Seq<char>, Seq<char>)| item_line(item, width))
    }
}

fn widest(sections: &Vec<HelpSection>) -> (width: usize)
    ensures
        width == keys_width(section_views(sections@)),
{
    let ghost all = section_views(sections@);
    let mut width: usize = 0;
    let mut i: usize = 0;
    while i < sections.len()
        invariant
            i <= sections@.len(),
            all == section_views(sections@),
            width == keys_width(all.take(i as int)),
        decreases sections@.len() - i,
    {
        assert(all.take(i + 1).drop_last() =~= all.take(i as int));
        assert(all[i as int] == sections@[i as int]@);
        let items = &sections[i].items;
        let ghost texts = all[i as int].items;
        let mut here: usize = 0;
        let mut k: usize = 0;
        while k < items.len()
            invariant
                k <= items@.len(),
                texts == items@.map_values(|i: (&'static str, &'static str)| (i.0@, i.1@)),
                here == items_width(texts.take(k as int)),
            decreases items@.len() - k,
        {
            assert(texts.take(k + 1).drop_last() =~= texts.take(k as int));
            let len = byte_len(items[k].0);
            if len > here {
                here = len;
            }
            k = k + 1;
        }
        assert(texts.take(k as int) =~= texts);
        if here > width {
            width = here;
        }
        i = i + 1;
    }
    assert(all.take(i as int) =~= all);
    width
}

fn push_items(
    lines: &mut Vec<Span>,
    items: &Vec<(&'static str, &'static str)>,
    width: usize,
)
    ensures
        span_views(final(lines)@) == span_views(old(lines)@) + items@.map_values(
            |i: (&'static str, &'static str)| (i.0@, i.1@),
        ).map_values(|item: (Seq<char>, Seq<char>)| item_line(item, width as nat)),
{
    let ghost texts = items@.map_values(|i: (&'static str, &'static str)| (i.0@, i.1@));
    let ghost rows = texts.map_values(
        |item: (Seq<char>, Seq<char>)| item_line(item, width as nat),
    );
    let ghost start = span_views(lines@);
    let mut k: usize = 0;
    assert(start + rows.take(0) =~= start);
    while k < items.len()
        invariant
            k <= items@.len(),
            texts == items@.map_values(|i: (&'static str, &'static str)| (i.0@, i.1@)),
            rows == texts.map_values(
                |item: (Seq<char>, Seq<char>)| item_line(item, width as nat),
            ),
            span_views(lines@) == start + rows.take(k as int),
        decreases items@.len() - k,
    {
        let ghost before = lines@;
        let mut line = "  ".to_owned();
        push_padded(&mut line, items[k].0, width);
        line.append("  ");
        line.append(items[k].1);
        let span = Span { content: line, style: Emphasis::Plain };
        assert(span@ == rows[k as int]);
        lines.push(span);
        k = k + 1;
        assert(span_views(lines@) =~= span_views(before).push(span@));
        assert(start + rows.take(k as int) =~= (start + rows.take(k - 1)).push(rows[k - 1]));
    }
    assert(rows.take(k as int) =~= rows);
}

/// Builds the body of the help popup.  The key column is as wide as the
/// longest key text of any section, so that all descriptions line up.
pub fn build_help_lines() -> (lines: Vec<Span>)
    ensures
        span_views(lines@) == help_lines(help(), keys_width(help())),
{
    let sections = help_sections();
    let width = widest(&sections);
    let ghost all = help();
    let mut lines: Vec<Span> = Vec::new();
    let mut i: usize = 0;
    assert(span_views(lines@) =~= help_lines(all.take(0), width as nat));
    while i < sections.len()
        invariant
            i <= sections@.len(),
            all == section_views(sections@),
            span_views(lines@) == help_lines(all.take(i as int), width as nat),
        decreases sections@.len() - i,
    {
        assert(all.take(i + 1).drop_last() =~= all.take(i as int));
        assert(all[i as int] == sections@[i as int]@);
        let ghost before = lines@;
        if i > 0 {
            lines.push(Span { content: String::new(), style: Emphasis::Plain });
            assert(span_views(lines@) =~= span_views(before).push(
                SpanView { content: Seq::empty(), style: Emphasis::Plain },
            ));
        }
        let ghost gap = lines@;
        lines.push(Span { content: sections[i].title.to_owned(), style: Emphasis::Bold });
        assert(span_views(lines@) =~= span_views(gap).push(
            SpanView { content: all[i as int].title, style: Emphasis::Bold },
        ));
        push_items(&mut lines, &sections[i].items, width);
        i = i + 1;
    }
    assert(all.take(i as int) =~= all);
    lines
}

/// The help has its sections in order, a blank line between any two, each with
/// its title in bold and below it its keys and what they do.
pub proof fn law_help_lists_the_keys_under_their_title(
    sections: Seq<SectionView>,
    section: SectionView,
    width: nat,
    i: int,
)
    requires
        0 <= i < section.items.len(),
    ensures
        ({
            let before = help_lines(sections, width);
            let lines = help_lines(sections.push(section), width);
            let n = before.len() as int + if sections.len() > 0 {
                1int
            } else {
                0
            };
            &&& lines.len() == n + 1 + section.items.len()
            &&& forall|k: int| 0 <= k < before.len() ==> #[trigger] lines[k] == before[k]
            &&& sections.len() > 0 ==> lines[before.len() as int].content.len() == 0
            &&& lines[n].content == section.title && lines[n].style == Emphasis::Bold
            &&& lines[n + 1 + i].style == Emphasis::Plain
            &&& lines[n + 1 + i].content == "  "@ + padded(section.items[i].0, width as int)
                + "  "@ + section.items[i].1
        }),
{
    assert(sections.push(section).drop_last() =~= sections);
}

/// Padding adds spaces behind a text up to the width, and takes nothing away.
pub proof fn law_padding_adds_spaces_behind(text: Seq<char>, width: int, i: int)
    requires
        0 <= i,
    ensures
        padded(text, width).len() == if text.len() >= width {
            text.len() as int
        } else {
            width
        },
        i < text.len() ==> padded(text, width)[i] == text[i],
        text.len() <= i < width ==> padded(text, width)[i] == ' ',
{
}

proof fn lemma_items_width(items: Seq<(Seq<char>, Seq<char>)>, i: int)
    requires
        0 <= i < items.len(),
    ensures
        encode_utf8(items[i].0).len() <= items_width(items),
        exists|k: int|
            0 <= k < items.len() && encode_utf8((#[trigger] items[k]).0).len() == items_width(items)
                || items_width(items) == 0,
    decreases items.len(),
{
    let shorter = items.drop_last();
    let last = items.len() - 1;
    if i < last {
        lemma_items_width(shorter, i);
        assert(shorter[i] == items[i]);
    } else if last > 0 {
        lemma_items_width(shorter, 0);
    }
    if items_width(items) == items_width(shorter) && items_width(items) > 0 && last > 0 {
        let k = choose|k: int|
            0 <= k < shorter.len() && encode_utf8((#[trigger] shorter[k]).0).len() == items_width(
                shorter,
            ) || items_width(shorter) == 0;
        assert(items[k] == shorter[k]);
    } else {
        assert(items[last] == items.last());
    }
}

/// The column of keys is wide enough for the keys of every section.
pub proof fn law_key_column_holds_every_key(sections: Seq<SectionView>, s: int, i: int)
    requires
        0 <= s < sections.len(),
        0 <= i < sections[s].items.len(),
    ensures
        encode_utf8(sections[s].items[i].0).len() <= keys_width(sections),
    decreases sections.len(),
{
    if s < sections.len() - 1 {
        assert(sections.drop_last()[s] == sections[s]);
        law_key_column_holds_every_key(sections.drop_last(), s, i);
    } else {
        lemma_items_width(sections.last().items, i);
    }
}

} // verus!
