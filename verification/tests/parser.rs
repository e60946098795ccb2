use clip_history::parser::{find_char, parse_cliphist_list, preview_entries, truncate_preview, PREVIEW_CHARS};
use clip_history::{ClipboardEntry, CliphistError};

fn parse(output: &str) -> Vec<(String, String, String)> {
    let parsed: Result<Vec<ClipboardEntry>, CliphistError> = parse_cliphist_list(output);
    match parsed {
        Ok(entries) => entries.into_iter().map(|e| (e.id, e.content, e.content_type)).collect(),
        Err(e) => panic!("the parser failed: {}", e.message),
    }
}

fn entry(id: &str, content: &str) -> (String, String, String) {
    (id.to_string(), content.to_string(), "text".to_string())
}

#[test]
fn content_keeps_its_tabs() {
    assert_eq!(parse("a1\tfoo\tbar"), vec![entry("a1", "foo\tbar")]);
    assert_eq!(parse("7\t\t\tx\t"), vec![entry("7", "\t\tx\t")]);
}

#[test]
fn empty_input_gives_no_entries() {
    assert_eq!(parse(""), vec![]);
}

#[test]
fn line_without_tab_is_dropped() {
    assert_eq!(parse("no tab here"), vec![]);
    assert_eq!(parse("junk\n2\tok\nmore junk\n"), vec![entry("2", "ok")]);
    assert_eq!(parse("\n\n\n"), vec![]);
}

#[test]
fn entries_come_in_the_order_of_the_lines() {
    assert_eq!(
        parse("3\tnewest\n2\tmiddle\n1\toldest\n"),
        vec![entry("3", "newest"), entry("2", "middle"), entry("1", "oldest")]
    );
    assert_eq!(parse("3\tnewest\n2\tmiddle"), vec![entry("3", "newest"), entry("2", "middle")]);
}

#[test]
fn empty_id_and_empty_content_are_kept() {
    assert_eq!(parse("\tfoo"), vec![entry("", "foo")]);
    assert_eq!(parse("id\t"), vec![entry("id", "")]);
    assert_eq!(parse("\t"), vec![entry("", "")]);
}

#[test]
fn carriage_return_before_line_feed_ends_the_line() {
    assert_eq!(parse("1\ta\r\n2\tb\r\n"), vec![entry("1", "a"), entry("2", "b")]);
    assert_eq!(parse("1\ta\r\r\n"), vec![entry("1", "a\r")]);
    assert_eq!(parse("1\ta\rb\n"), vec![entry("1", "a\rb")]);
    assert_eq!(parse("1\ta\r"), vec![entry("1", "a\r")]);
    assert_eq!(parse("1\t\r\n"), vec![entry("1", "")]);
    assert_eq!(parse("1\r\n"), vec![]);
}

#[test]
fn multibyte_text_is_kept_whole() {
    assert_eq!(parse("42\tåäö → ü\n43\t日本語\tテキスト\n"), vec![entry("42", "åäö → ü"), entry("43", "日本語\tテキスト")]);
}

#[test]
fn parser_agrees_with_a_direct_computation() {
    let inputs = [
        "", "\n", "a", "a\tb", "a\tb\n", "a\tb\n\n", "\n\na\tb", "a\tb\r\nc\td\r\n", "a\tb\r", "\r\n",
        "x\n1\tone\ty\nz\n2\ttwo", "\t\n\t\t\n", "1\ta\n\r\n2\tb",
    ];
    for input in inputs {
        let mut expected = Vec::new();
        for line in input.lines() {
            let parts: Vec<&str> = line.split('\t').collect();
            if parts.len() >= 2 {
                expected.push(entry(parts[0], &parts[1..].join("\t")));
            }
        }
        assert_eq!(parse(input), expected, "{:?}", input);
    }
}

#[test]
fn find_char_gives_the_first_position_or_the_end() {
    let v: Vec<char> = "ab\tcd\te".chars().collect();
    assert_eq!(find_char(&v, 0, 7, '\t'), 2);
    assert_eq!(find_char(&v, 3, 7, '\t'), 5);
    assert_eq!(find_char(&v, 3, 5, '\t'), 5);
    assert_eq!(find_char(&v, 0, 2, '\t'), 2);
    assert_eq!(find_char(&v, 2, 2, '\t'), 2);
    assert_eq!(find_char(&v, 0, 7, 'z'), 7);
}

#[test]
fn long_content_is_cut_to_the_budget() {
    let content = "x".repeat(150);
    let preview = truncate_preview(&content);
    assert_eq!(preview.chars().count(), 100);
    assert_eq!(preview, format!("{}...", "x".repeat(97)));
}

#[test]
fn content_within_the_budget_is_kept() {
    assert_eq!(PREVIEW_CHARS, 100);
    assert_eq!(truncate_preview(""), "");
    assert_eq!(truncate_preview("short"), "short");
    let exact = "y".repeat(100);
    assert_eq!(truncate_preview(&exact), exact);
    let over = "y".repeat(101);
    assert_eq!(truncate_preview(&over), format!("{}...", "y".repeat(97)));
}

#[test]
fn preview_is_cut_between_characters() {
    let content = "é".repeat(150);
    let preview = truncate_preview(&content);
    assert_eq!(preview.chars().count(), 100);
    assert_eq!(preview, format!("{}...", "é".repeat(97)));
    let fits = "日".repeat(100);
    assert_eq!(truncate_preview(&fits), fits);
}

#[test]
fn preview_entries_cuts_each_content() {
    let long = "z".repeat(120);
    let entries = vec![
        ClipboardEntry { id: "1".to_string(), content: long.clone(), content_type: "text".to_string() },
        ClipboardEntry { id: "2".to_string(), content: "short".to_string(), content_type: "text".to_string() },
    ];
    let previews = preview_entries(&entries);
    assert_eq!(previews.len(), 2);
    assert_eq!(previews[0].id, "1");
    assert_eq!(previews[0].content, format!("{}...", "z".repeat(97)));
    assert_eq!(previews[0].content_type, "text");
    assert_eq!(previews[1].id, "2");
    assert_eq!(previews[1].content, "short");
    assert_eq!(entries[0].content, long);
    assert!(preview_entries(&Vec::new()).is_empty());
}

#[test]
fn parsed_ids_hold_no_tab_and_contents_no_line_feed() {
    let inputs = ["a\tb\tc\nd\te\r\n\tf\n", "x\n\n1\t\t\t\n2\tok\r", "1\ta\n\r\n2\tb"];
    for input in inputs {
        for (id, content, tag) in parse(input) {
            assert!(!id.contains('\t') && !id.contains('\n'), "{:?}", input);
            assert!(!content.contains('\n'), "{:?}", input);
            assert_eq!(tag, "text");
        }
    }
    assert_eq!(parse("a\tb\tc\nd\te\r\n\tf\n").len(), 3);
}
