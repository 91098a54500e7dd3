//! Unit tests for the Markdown parser.
//! These tests cover various Markdown elements such as headers, paragraphs,
//! code blocks, lists, and tables.

use parser::parse::html_element::HTMLElement;
use parser::parse::to_html::parse_markdown;

/// Test for a simple code block of the py language.
#[test]
fn test_code() {
    let code = vec![
        "```py".to_string(),
        "print('hello mate')".to_string(),
        "print('cya')".to_string(),
        "```".to_string(),
    ];
    assert_eq!(
        parse_markdown(&code),
        vec![HTMLElement::Code {
            language: "py".to_string(),
            code: vec![
                "print('hello mate')".to_string(),
                "print('cya')".to_string()
            ]
        }]
    );
}

/// Test for a simple header and paragraph.
#[test]
fn test_header_and_text() {
    let text = vec![
        "# Overview".to_string(),
        "".to_string(),
        "This blog contains some information.  ".to_string(),
        "The information will be explained below.  ".to_string(),
        "".to_string(),
        "## Details".to_string(),
        "".to_string(),
        "There are seven countries in the G7.  ".to_string(),
        "Japan is a part of the G7.  ".to_string(),
        "".to_string(),
    ];
    let parsed = parse_markdown(&text);
    let exp = vec![
        HTMLElement::Header {
            level: 1,
            content: "Overview".to_string(),
        },
        HTMLElement::Paragraph {
            lines: vec![
                "This blog contains some information.".to_string(),
                "The information will be explained below.".to_string(),
            ],
        },
        HTMLElement::Header {
            level: 2,
            content: "Details".to_string(),
        },
        HTMLElement::Paragraph {
            lines: vec![
                "There are seven countries in the G7.".to_string(),
                "Japan is a part of the G7.".to_string(),
            ],
        },
    ];
    assert_eq!(parsed, exp);
}

/// Test for a simple table.
#[test]
fn test_table_unit() {
    let table = vec![
        "| Letter | Description           |".to_string(),
        "| ------ | --------------------- |".to_string(),
        "| c      | make new window       |".to_string(),
        "| &      | kill current window   |".to_string(),
        "| 1..9   | go to window 1..9     |".to_string(),
        "| ,      | rename window         |".to_string(),
        "| p      | go to previous window |".to_string(),
        "| n      | go to next window     |".to_string(),
    ];
    let exp_headers = vec!["Letter".to_string(), "Description".to_string()];
    let exp_rows = vec![
        vec!["c".to_string(), "make new window".to_string()],
        vec!["&".to_string(), "kill current window".to_string()],
        vec!["1..9".to_string(), "go to window 1..9".to_string()],
        vec![",".to_string(), "rename window".to_string()],
        vec!["p".to_string(), "go to previous window".to_string()],
        vec!["n".to_string(), "go to next window".to_string()],
    ];
    assert_eq!(
        parse_markdown(&table),
        vec![HTMLElement::Table {
            headers: exp_headers,
            rows: exp_rows
        }]
    );
}

#[test]
fn test_header_paragraph_code() {
    let blog = vec![
        "# Overview".to_string(),
        "".to_string(),
        "The `upper_bound` and `lower_bound` functions give iterators to the first element matching a condition.  ".to_string(),
        "It is possible to change the behaviour so that the last position is instead returned.".to_string(),
        "".to_string(),
        "Use reverse iterators in conjunction with the `greater<N>` comparator to do this.".to_string(),
        "".to_string(),
        "```cpp".to_string(),
        "#include <algorithm>".to_string(),
        "#include <cassert>".to_string(),
        "#include <utility>".to_string(),
        "#include <vector>".to_string(),
        "".to_string(),
        "auto main(void) -> int {".to_string(),
        "    /**".to_string(),
        "        what is the biggest index from [2, 6) st.".to_string(),
        "        boxes[i] <= 6".to_string(),
        "        it is 2, boxes[2] = 5".to_string(),
        "     */".to_string(),
        "    auto boxes = std::vector<int>{1 , 3 , 5 , 10, 14, 18};".to_string(),
        "    //                            0   1   2   3   4   5".to_string(),
        "    // reverse                 e                      b".to_string(),
        "    //                         -- ->                  <- ++".to_string(),
        "    //                            18, 14, 10, 5 , 3 , 1".to_string(),
        "    //                            0   1   2   3   4   5".to_string(),
        "    //                                        ^ should be this index".to_string(),
        "    auto j = std::lower_bound(boxes.rbegin(), boxes.rend() - 1 - 1, 6, std::greater<int>()) - boxes.rbegin();".to_string(),
        "    assert(j == 3);".to_string(),
        "}".to_string(),
        "```".to_string(),
        "".to_string(),
    ];

    let header = HTMLElement::Header {
        level: 1,
        content: "Overview".to_string(),
    };
    let para1 = HTMLElement::Paragraph {
        lines: vec![
            "The `upper_bound` and `lower_bound` functions give iterators to the first element matching a condition.".to_string(),
            "It is possible to change the behaviour so that the last position is instead returned.".to_string(),
        ],
    };
    let para2 = HTMLElement::Paragraph {
        lines: vec![
            "Use reverse iterators in conjunction with the `greater<N>` comparator to do this."
                .to_string(),
        ],
    };
    let code = HTMLElement::Code {
        language: "cpp".to_string(),
        code: vec![
            "#include <algorithm>".to_string(),
            "#include <cassert>".to_string(),
            "#include <utility>".to_string(),
            "#include <vector>".to_string(),
            "".to_string(),
            "auto main(void) -> int {".to_string(),
            "    /**".to_string(),
            "        what is the biggest index from [2, 6) st.".to_string(),
            "        boxes[i] <= 6".to_string(),
            "        it is 2, boxes[2] = 5".to_string(),
            "     */".to_string(),
            "    auto boxes = std::vector<int>{1 , 3 , 5 , 10, 14, 18};".to_string(),
            "    //                            0   1   2   3   4   5".to_string(),
            "    // reverse                 e                      b".to_string(),
            "    //                         -- ->                  <- ++".to_string(),
            "    //                            18, 14, 10, 5 , 3 , 1".to_string(),
            "    //                            0   1   2   3   4   5".to_string(),
            "    //                                        ^ should be this index".to_string(),
            "    auto j = std::lower_bound(boxes.rbegin(), boxes.rend() - 1 - 1, 6, std::greater<int>()) - boxes.rbegin();".to_string(),
            "    assert(j == 3);".to_string(),
            "}".to_string(),
        ],
    };

    assert_eq!(parse_markdown(&blog), vec![header, para1, para2, code]);
}

#[test]
fn test_complex_composition() {
    let blog = vec![
        "# Notes".to_string(),
        "".to_string(),
        "1. Enter `tmux` to start".to_string(),
        "2. Cannot enter `Command + k` to clear screen".to_string(),
        "3. Any command letter that is a shift-pressed key, must have shift pressed to work".to_string(),
        "".to_string(),
        "# Modifier".to_string(),
        "".to_string(),
        "Press the modifier key and then a command letter.  ".to_string(),
        "In Zac's `.tmux.conf` this was `Control + a`.".to_string(),
        "".to_string(),
        "- It is apparently the most ergonomic combination.".to_string(),
        "".to_string(),
        "By default it is `Control + b`.  ".to_string(),
        "You have to release the modifier and then press the command letter as per this [guide](https://superuser.com/questions/266725/tmux-ctrlb-not-working).  ".to_string(),
        "This is a list of [default command letters](https://man.openbsd.org/tmux#DEFAULT_KEY_BINDINGS).".to_string(),
        "".to_string(),
        "# Windows".to_string(),
        "".to_string(),
        "They are more like tabs in a browser.".to_string(),
        "".to_string(),
        "| Letter | Description           |".to_string(),
        "| ------ | --------------------- |".to_string(),
        "| c      | make new window       |".to_string(),
        "| &      | kill current window   |".to_string(),
        "| 1..9   | go to window 1..9     |".to_string(),
        "| ,      | rename window         |".to_string(),
        "| p      | go to previous window |".to_string(),
        "| n      | go to next window     |".to_string(),
        "| x      | close window          |".to_string(),
        "".to_string(),
        "# Pane".to_string(),
        "".to_string(),
        "A window can be split into panes.  ".to_string(),
        "Panes are closed by `Control + d` or the command letter `x`.  ".to_string(),
        "Can switch using arrow keys as the command letter or `o`.".to_string(),
        "".to_string(),
    ];

    assert_eq!(
        parse_markdown(&blog),
        vec![
            HTMLElement::Header {
                level: 1,
                content: "Notes".to_string()
            },
            HTMLElement::OrderedList {
                list: vec![
                    "Enter `tmux` to start".to_string(),
                    "Cannot enter `Command + k` to clear screen".to_string(),
                    "Any command letter that is a shift-pressed key, must have shift pressed to work".to_string(),
                ]
            },
            HTMLElement::Header {
                level: 1,
                content: "Modifier".to_string()
            },
            HTMLElement::Paragraph {
                lines: vec![
                    "Press the modifier key and then a command letter.".to_string(),
                    "In Zac's `.tmux.conf` this was `Control + a`.".to_string(),
                ]
            },
            HTMLElement::UnorderedList {
                list: vec!["It is apparently the most ergonomic combination.".to_string()]
            },
            HTMLElement::Paragraph {
                lines: vec![
                    "By default it is `Control + b`.".to_string(),
                    "You have to release the modifier and then press the command letter as per this [guide](https://superuser.com/questions/266725/tmux-ctrlb-not-working).".to_string(),
                    "This is a list of [default command letters](https://man.openbsd.org/tmux#DEFAULT_KEY_BINDINGS).".to_string(),
                ]
            },
            HTMLElement::Header {
                level: 1,
                content: "Windows".to_string()
            },
            HTMLElement::Paragraph {
                lines: vec!["They are more like tabs in a browser.".to_string()]
            },
            HTMLElement::Table {
                headers: vec!["Letter".to_string(), "Description".to_string()],
                rows: vec![
                    vec!["c".to_string(), "make new window".to_string()],
                    vec!["&".to_string(), "kill current window".to_string()],
                    vec!["1..9".to_string(), "go to window 1..9".to_string()],
                    vec![",".to_string(), "rename window".to_string()],
                    vec!["p".to_string(), "go to previous window".to_string()],
                    vec!["n".to_string(), "go to next window".to_string()],
                    vec!["x".to_string(), "close window".to_string()],
                ]
            },
            HTMLElement::Header {
                level: 1,
                content: "Pane".to_string()
            },
            HTMLElement::Paragraph {
                lines: vec![
                    "A window can be split into panes.".to_string(),
                    "Panes are closed by `Control + d` or the command letter `x`.".to_string(),
                    "Can switch using arrow keys as the command letter or `o`.".to_string(),
                ]
            }
        ]
    );
}
