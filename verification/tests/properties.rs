//! Scenario tests for the parser's documented behaviour: trivial input,
//! header levels, blank lines inside code fences, hard-break stripping,
//! table separator handling, end-of-input flushing, and the close-and-
//! reclassify policy for lines that end a list or table.

use parser::parse::html_element::HTMLElement;
use parser::parse::to_html::handle_blank_line;
use parser::parse::to_html::parse_markdown;
use parser::parse::to_html::Region;

#[test]
fn test_empty_input() {
    let lines: Vec<String> = vec![];
    assert_eq!(parse_markdown(&lines), vec![]);
}

#[test]
fn test_header_levels() {
    let lines = vec!["# A".to_string(), "### B".to_string()];
    assert_eq!(
        parse_markdown(&lines),
        vec![
            HTMLElement::Header {
                level: 1,
                content: "A".to_string()
            },
            HTMLElement::Header {
                level: 3,
                content: "B".to_string()
            },
        ]
    );
}

#[test]
fn test_header_of_only_hashes() {
    let lines = vec!["###".to_string()];
    assert_eq!(
        parse_markdown(&lines),
        vec![HTMLElement::Header {
            level: 3,
            content: "".to_string()
        }]
    );
}

#[test]
fn test_code_keeps_interior_blank_line() {
    let lines = vec![
        "```py".to_string(),
        "print(1)".to_string(),
        "".to_string(),
        "print(2)".to_string(),
        "```".to_string(),
    ];
    assert_eq!(
        parse_markdown(&lines),
        vec![HTMLElement::Code {
            language: "py".to_string(),
            code: vec!["print(1)".to_string(), "".to_string(), "print(2)".to_string()],
        }]
    );
}

#[test]
fn test_empty_code_block() {
    let lines = vec!["```".to_string(), "```".to_string()];
    assert_eq!(
        parse_markdown(&lines),
        vec![HTMLElement::Code {
            language: "".to_string(),
            code: vec![],
        }]
    );
}

#[test]
fn test_paragraph_strips_hard_breaks() {
    let lines = vec![
        "Line one.  ".to_string(),
        "Line two.".to_string(),
        "".to_string(),
    ];
    assert_eq!(
        parse_markdown(&lines),
        vec![HTMLElement::Paragraph {
            lines: vec!["Line one.".to_string(), "Line two.".to_string()],
        }]
    );
}

#[test]
fn test_table_separator_discarded_and_cells_trimmed() {
    let lines = vec![
        "| A | B |".to_string(),
        "| - | - |".to_string(),
        "| x | y |".to_string(),
    ];
    assert_eq!(
        parse_markdown(&lines),
        vec![HTMLElement::Table {
            headers: vec!["A".to_string(), "B".to_string()],
            rows: vec![vec!["x".to_string(), "y".to_string()]],
        }]
    );
}

#[test]
fn test_ordered_list_flushed_at_end_of_input() {
    let lines = vec!["1. first".to_string(), "2. second".to_string()];
    assert_eq!(
        parse_markdown(&lines),
        vec![HTMLElement::OrderedList {
            list: vec!["first".to_string(), "second".to_string()],
        }]
    );
}

#[test]
fn test_unordered_list_closed_by_text_line() {
    let lines = vec!["- a".to_string(), "- b".to_string(), "text".to_string()];
    assert_eq!(
        parse_markdown(&lines),
        vec![
            HTMLElement::UnorderedList {
                list: vec!["a".to_string(), "b".to_string()],
            },
            HTMLElement::Paragraph {
                lines: vec!["text".to_string()],
            },
        ]
    );
}

#[test]
fn test_ordered_list_closed_by_digit_line_without_dot() {
    let lines = vec!["1. first".to_string(), "2broken".to_string()];
    assert_eq!(
        parse_markdown(&lines),
        vec![
            HTMLElement::OrderedList {
                list: vec!["first".to_string()],
            },
            HTMLElement::Paragraph {
                lines: vec!["2broken".to_string()],
            },
        ]
    );
}

#[test]
fn test_table_closed_by_text_line() {
    let lines = vec![
        "| A |".to_string(),
        "| - |".to_string(),
        "| x |".to_string(),
        "after".to_string(),
    ];
    assert_eq!(
        parse_markdown(&lines),
        vec![
            HTMLElement::Table {
                headers: vec!["A".to_string()],
                rows: vec![vec!["x".to_string()]],
            },
            HTMLElement::Paragraph {
                lines: vec!["after".to_string()],
            },
        ]
    );
}

#[test]
fn test_digit_line_without_dot_starts_paragraph() {
    let lines = vec!["2001 was a good year".to_string(), "".to_string()];
    assert_eq!(
        parse_markdown(&lines),
        vec![HTMLElement::Paragraph {
            lines: vec!["2001 was a good year".to_string()],
        }]
    );
}

#[test]
fn test_handle_blank_line_closes_paragraph() {
    let blank = "".to_string();
    let region = Region::Paragraph(vec!["hello".to_string()]);
    let mut elements: Vec<HTMLElement> = vec![];
    let next = handle_blank_line(&blank, region, &mut elements);
    assert!(matches!(next, Region::NotSet));
    assert_eq!(
        elements,
        vec![HTMLElement::Paragraph {
            lines: vec!["hello".to_string()],
        }]
    );
}

#[test]
fn test_handle_blank_line_keeps_code_open() {
    let blank = "".to_string();
    let region = Region::Code("py".to_string(), vec!["x = 1".to_string()]);
    let mut elements: Vec<HTMLElement> = vec![];
    let next = handle_blank_line(&blank, region, &mut elements);
    assert!(elements.is_empty());
    match next {
        Region::Code(language, code) => {
            assert_eq!(language, "py");
            assert_eq!(code, vec!["x = 1".to_string(), "".to_string()]);
        }
        _ => assert!(false),
    }
}

#[test]
fn test_blank_lines_when_idle_are_ignored() {
    let lines = vec!["".to_string(), "".to_string(), "# A".to_string()];
    assert_eq!(
        parse_markdown(&lines),
        vec![HTMLElement::Header {
            level: 1,
            content: "A".to_string()
        }]
    );
}

#[test]
fn test_closing_fence_content_is_discarded() {
    let lines = vec![
        "```py".to_string(),
        "x = 1".to_string(),
        "``` trailing".to_string(),
    ];
    assert_eq!(
        parse_markdown(&lines),
        vec![HTMLElement::Code {
            language: "py".to_string(),
            code: vec!["x = 1".to_string()],
        }]
    );
}

#[test]
fn test_fence_language_tag_is_trimmed() {
    let lines = vec!["```  rust  ".to_string(), "```".to_string()];
    assert_eq!(
        parse_markdown(&lines),
        vec![HTMLElement::Code {
            language: "rust".to_string(),
            code: vec![],
        }]
    );
}
