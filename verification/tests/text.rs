//! Texts: columns, words and wrapping.

use seer::dialog::preview_msg;
use seer::number::{
    decimal_text, hex_text, padded_decimal_text, parse_hex, parse_tab_number, parse_usize,
    wide_decimal_text,
};
use seer::screen::popup::wrap_dialog_text;
use seer::text::{
    chars_of, column_chunks, one_line, same_text, sorts_before, text_of, truncate_path_head,
    visual_rows_for, white_space, words_of, wrap_to_width,
};

#[test]
fn column_chunks_handles_empty_and_unicode() {
    assert_eq!(column_chunks("", 4), vec![""]);
    assert_eq!(column_chunks("abcdefghij", 4), vec!["abcd", "efgh", "ij"],);
    assert_eq!(column_chunks("αβγδεζηθικ", 4), vec!["αβγδ", "εζηθ", "ικ"],);
    assert_eq!(column_chunks("abc", 0), vec!["abc"]);
}

#[test]
fn column_chunks_rejoin_to_the_text() {
    for width in 1..7 {
        assert_eq!(column_chunks("ein längerer Text", width).concat(), "ein längerer Text");
    }
}

#[test]
fn wrap_to_width_breaks_on_whitespace() {
    assert_eq!(
        wrap_to_width("hello world", 5),
        vec!["hello".to_string(), "world".to_string()],
    );
    assert_eq!(
        wrap_to_width("a b c d", 3),
        vec!["a b".to_string(), "c d".to_string()],
    );
}

#[test]
fn wrap_to_width_breaks_oversized_word_by_column() {
    let r = wrap_to_width("supercalifragilistic", 5);
    assert_eq!(
        r,
        vec![
            "super".to_string(),
            "calif".to_string(),
            "ragil".to_string(),
            "istic".to_string(),
        ],
    );
}

#[test]
fn wrap_to_width_edge_cases() {
    assert_eq!(wrap_to_width("", 10), vec!["".to_string()]);
    assert_eq!(wrap_to_width("hi", 0), vec!["".to_string()]);
}

#[test]
fn wrapping_keeps_every_word() {
    let text = "  the quick\tbrown fox jumps over extraordinarily lazy dogs ";
    for width in 1..30 {
        let lines = wrap_to_width(text, width);
        assert!(lines.iter().all(|l| l.chars().count() <= width), "{width}: {lines:?}");
        let kept: String = lines.concat().split_whitespace().collect();
        let all: String = text.split_whitespace().collect();
        assert_eq!(kept, all, "{width}");
    }
}

#[test]
fn truncate_path_head_keeps_short_strings_intact() {
    assert_eq!(truncate_path_head("/foo/bar", 60), "/foo/bar");
}

#[test]
fn truncate_path_head_chops_the_front_with_an_ellipsis() {
    let long = "/a/very/very/long/path/to/some/file.log";
    let out = truncate_path_head(long, 20);
    assert_eq!(out.chars().count(), 20);
    assert!(out.starts_with("..."));
    assert!(out.ends_with("file.log"));
}

#[test]
fn truncated_path_fits_whatever_the_limit() {
    let long = "/a/very/very/long/path/to/some/file.log";
    assert_eq!(truncate_path_head("abcd", 2), "..");
    assert_eq!(truncate_path_head("abcd", 0), "");
    assert_eq!(truncate_path_head("abcd", 3), "...");
    for limit in 0..50 {
        assert!(truncate_path_head(long, limit).chars().count() <= limit);
    }
}

#[test]
fn wrap_dialog_text_handles_empty_and_chunking() {
    let lines = wrap_dialog_text("", 10);
    assert_eq!(lines.len(), 1);
    let lines = wrap_dialog_text("abcdef", 3);
    assert_eq!(lines.len(), 2);
    let lines = wrap_dialog_text("abcdefg", 3);
    assert_eq!(lines.len(), 3);
}

#[test]
fn dialog_rows_fit() {
    for width in 1..9 {
        for row in wrap_dialog_text("level>=warn msg=äöü€", width) {
            assert!(row.chars().count() <= width);
        }
    }
    assert_eq!(wrap_dialog_text("€ä", 1), vec!["€", "ä"]);
    assert_eq!(wrap_dialog_text("aä", 2), vec!["a", "ä"]);
}

#[test]
fn dialog_rows_rejoin() {
    for width in 1..9 {
        assert_eq!(wrap_dialog_text("level>=warn msg=ä", width).concat(), "level>=warn msg=ä");
    }
}

#[test]
fn visual_rows_count_the_cut_rows() {
    assert_eq!(visual_rows_for("", 10), 1);
    assert_eq!(visual_rows_for("abcdefghij", 10), 1);
    assert_eq!(visual_rows_for("abcdefghijk", 10), 2);
    assert_eq!(visual_rows_for("abc", 0), 1);
}

#[test]
fn white_space_is_that_of_unicode() {
    for code in 0..=0x10FFFFu32 {
        if let Some(c) = char::from_u32(code) {
            assert_eq!(white_space(c), c.is_whitespace(), "{code:x}");
        }
    }
}

#[test]
fn words_are_cut_at_white_space() {
    for text in ["", "  ", "a", " a  b\tc\n", "x\u{3000}y", "längere Wörter"] {
        let expected: Vec<&str> = text.split_whitespace().collect();
        assert_eq!(words_of(text), expected);
    }
}

#[test]
fn one_line_joins_the_words() {
    assert_eq!(one_line("a\n  b\tc "), "a b c");
    assert_eq!(one_line(" \n "), "");
}

#[test]
fn texts_and_characters_agree() {
    assert!(same_text("häß", "häß"));
    assert!(!same_text("häß", "häs"));
    let chars = chars_of("häßlich");
    assert_eq!(chars.len(), 7);
    assert_eq!(text_of(&chars, 1, 3), "äß");
}

#[test]
fn numbers_print_as_std_prints_them() {
    for n in [0, 9, 10, 999, 1000, 4_294_967_296, u64::MAX] {
        assert_eq!(decimal_text(n), n.to_string());
        assert_eq!(wide_decimal_text(n as u128 * 7), (n as u128 * 7).to_string());
        assert_eq!(padded_decimal_text(n, 5), format!("{:05}", n % 100_000));
        assert_eq!(hex_text(n as u128, 8), format!("{:08x}", n as u32));
        assert_eq!(parse_hex(&chars_of(&format!("{n:x}"))), Some(n as u128));
        assert_eq!(parse_usize(&chars_of(&n.to_string()), 0), Some(n as usize));
    }
}

#[test]
fn numbers_that_are_none_are_refused() {
    assert_eq!(parse_usize(&chars_of(""), 0), None);
    assert_eq!(parse_usize(&chars_of("12x"), 0), None);
    assert_eq!(parse_usize(&chars_of("99999999999999999999999"), 0), None);
    assert_eq!(parse_hex(&chars_of("xyz")), None);
}

#[test]
fn default_tab_names_carry_their_number() {
    assert_eq!(parse_tab_number("Tab 7"), Some(7));
    assert_eq!(parse_tab_number("Tab 12"), Some(12));
    assert_eq!(parse_tab_number("Nexus"), None);
    assert_eq!(parse_tab_number("Tab x"), None);
    assert_eq!(parse_tab_number("Tab "), None);
    for s in ["0", "7", "+7", "-7", "007", " 7", "7 ", "18446744073709551616"] {
        let name = format!("Tab {s}");
        let expected = name.rsplit_once(' ').and_then(|(_, n)| n.parse::<usize>().ok());
        assert_eq!(parse_tab_number(&name), expected, "{s:?}");
    }
}

#[test]
fn texts_sort_as_std_sorts_them() {
    let texts = ["", "a", "ab", "b", "B", "ä", "zz", "𝄞", "\u{e000}", "aa\u{7f}"];
    for a in texts {
        for b in texts {
            assert_eq!(sorts_before(a, b), a < b, "{a:?} {b:?}");
        }
    }
}

#[test]
fn wide_lines_cut_words_at_their_width() {
    let word = "x".repeat(65_540);
    let lines = wrap_to_width(&word, 65_536);
    let widths: Vec<usize> = lines.iter().map(|l| l.len()).collect();
    assert_eq!(widths, vec![65_536, 4]);
}

#[test]
fn previews_count_characters() {
    let accents = "é".repeat(41);
    assert_eq!(preview_msg(&accents), accents);
    assert_eq!(preview_msg(&"é".repeat(80)), "é".repeat(80));
    assert_eq!(preview_msg(&"é".repeat(81)), format!("{}…", "é".repeat(80)));
    assert_eq!(preview_msg(""), "");
}
