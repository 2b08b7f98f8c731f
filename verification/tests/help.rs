//! The help popup's contents.

use seer::help::{build_help_lines, handle_help_key, help_sections};
use seer::key::{KeyCode, KeyEvent, KeyModifiers};

#[test]
fn help_sections_contain_expected_bindings() {
    let sections = help_sections();
    let titles: Vec<&str> = sections.iter().map(|s| s.title).collect();
    assert!(titles.contains(&"Navigation"), "got {titles:?}");
    assert!(titles.contains(&"Display"), "got {titles:?}");
    assert!(titles.contains(&"Other"), "got {titles:?}");
    assert!(titles.contains(&"Bookmarks pane"), "got {titles:?}");

    let all: Vec<(&str, &str)> =
        sections.iter().flat_map(|s| s.items.iter().copied()).collect();
    assert!(all.iter().any(|(k, _)| *k == "h"), "expected `h` binding in help, got {all:?}");
    assert!(
        all.iter().any(|(k, v)| *k == "d" && v.contains("display")),
        "expected `d` → display in help, got {all:?}",
    );
}

#[test]
fn help_lines_hold_every_section_and_binding() {
    let lines = build_help_lines();
    let text: Vec<&str> = lines.iter().map(|l| l.content.as_str()).collect();
    for section in help_sections() {
        assert!(text.iter().any(|l| l.contains(section.title)), "{}", section.title);
        for (key, what) in section.items {
            assert!(
                text.iter().any(|l| l.contains(key) && l.contains(what)),
                "{key}: {what}"
            );
        }
    }
}

#[test]
fn help_pages_without_running_over() {
    let plain = KeyModifiers { shift: false, control: false, alt: false, other: false };
    let mut scroll = u16::MAX;
    handle_help_key(&mut scroll, KeyEvent::new(KeyCode::Char('j'), plain));
    assert_eq!(scroll, u16::MAX);
    scroll = 0;
    handle_help_key(&mut scroll, KeyEvent::new(KeyCode::Up, plain));
    assert_eq!(scroll, 0);
}
