//! This module provides a parser for converting Markdown text into HTML
//! elements.
//!
//! The parser is a line-oriented state machine.  It holds at most one open
//! region (code block, list, table or paragraph); each input line either
//! extends the open region, closes it (emitting a completed element), or
//! opens a new one.  A line that closes a region without being consumed by
//! it is classified afresh, as if no region were open, so no input line is
//! ever dropped.  The whole behaviour is captured by the spec functions
//! `classify_spec`, `step_spec` and `parse_spec`, and `parse_markdown` is
//! proved to compute exactly `parse_spec` of its input.

use crate::parse::html_element::ElemModel;
use crate::parse::html_element::HTMLElement;
use crate::parse::text::after_first_spec;
use crate::parse::text::contains_char;
use crate::parse::text::is_digit;
use crate::parse::text::is_digit_exec;
use crate::parse::text::leading_count;
use crate::parse::text::leading_count_spec;
use crate::parse::text::split_after_first;
use crate::parse::text::split_char;
use crate::parse::text::split_char_spec;
use crate::parse::text::strip_edges;
use crate::parse::text::strip_edges_spec;
use crate::parse::text::trim;
use crate::parse::text::trim_all;
use crate::parse::text::trim_all_spec;
use crate::parse::text::trim_spec;
use crate::parse::text::trim_start;
use crate::parse::text::trim_start_spec;
use vstd::prelude::*;
use vstd::string::StrSliceExecFns;
use vstd::string::StringExecFns;

verus! {

/// Represents the current parsing region.
pub enum Region {
    /// Flag indicating that no region is currently being parsed.
    NotSet,
    /// Represents a code block with an optional language.
    Code(String, Vec<String>),
    /// Represents an ordered list.
    OrderedList(Vec<String>),
    /// Represents an unordered list.
    UnorderedList(Vec<String>),
    /// Represents a HTML table: headers, rows, and whether the next line is
    /// the separator row.
    Table(Vec<String>, Vec<Vec<String>>, bool),
    /// Represents a paragraph block.
    Paragraph(Vec<String>),
}

/// The mathematical value of a parsing region.
pub enum RegionModel {
    /// No region is open.
    NotSet,
    /// An open code block: language tag and accumulated raw lines.
    Code(Seq<char>, Seq<Seq<char>>),
    /// An open ordered list: accumulated item texts.
    OrderedList(Seq<Seq<char>>),
    /// An open unordered list: accumulated item texts.
    UnorderedList(Seq<Seq<char>>),
    /// An open table: headers, accumulated rows, and whether the next line
    /// is the separator row.
    Table(Seq<Seq<char>>, Seq<Seq<Seq<char>>>, bool),
    /// An open paragraph: accumulated trimmed lines.
    Paragraph(Seq<Seq<char>>),
}

impl View for Region {
    type V = RegionModel;

    open spec fn view(&self) -> RegionModel {
        match self {
            Region::NotSet => RegionModel::NotSet,
            Region::Code(lang, lines) => RegionModel::Code(lang@, lines.deep_view()),
            Region::OrderedList(list) => RegionModel::OrderedList(list.deep_view()),
            Region::UnorderedList(list) => RegionModel::UnorderedList(list.deep_view()),
            Region::Table(headers, rows, sep) => RegionModel::Table(
                headers.deep_view(),
                rows.deep_view(),
                *sep,
            ),
            Region::Paragraph(lines) => RegionModel::Paragraph(lines.deep_view()),
        }
    }
}

/// A line that opens a code block: it starts with the three-character fence.
pub open spec fn is_fence(line: Seq<char>) -> bool {
    line.len() >= 3 && line[0] == '`' && line[1] == '`' && line[2] == '`'
}

/// A line that holds an unordered-list item: it starts with `"- "`.
pub open spec fn is_dash_item(line: Seq<char>) -> bool {
    line.len() >= 2 && line[0] == '-' && line[1] == ' '
}

/// A line that holds an ordered-list item: it starts with a decimal digit
/// and contains a `.`.
pub open spec fn is_numbered_item(line: Seq<char>) -> bool {
    line.len() > 0 && is_digit(line[0]) && contains_char(line, '.')
}

/// The text of an ordered-list item: everything after the first `.`, with
/// leading whitespace stripped.
pub open spec fn numbered_item_text(line: Seq<char>) -> Seq<char> {
    trim_start_spec(after_first_spec(line, '.'))
}

/// The cells of a table line: one leading and one trailing `|` are removed,
/// the rest is split on `|`, and each cell is trimmed.
pub open spec fn cells_spec(line: Seq<char>) -> Seq<Seq<char>> {
    trim_all_spec(split_char_spec(strip_edges_spec(line, '|'), '|'))
}

/// The element emitted when an open region is closed.  An idle region emits
/// nothing.
pub open spec fn flush_spec(r: RegionModel) -> Seq<ElemModel> {
    match r {
        RegionModel::NotSet => Seq::<ElemModel>::empty(),
        RegionModel::Code(language, code) => seq![ElemModel::Code { language, code }],
        RegionModel::OrderedList(list) => seq![ElemModel::OrderedList { list }],
        RegionModel::UnorderedList(list) => seq![ElemModel::UnorderedList { list }],
        RegionModel::Table(headers, rows, _) => seq![ElemModel::Table { headers, rows }],
        RegionModel::Paragraph(lines) => seq![ElemModel::Paragraph { lines }],
    }
}

/// Classifies a nonblank line when no region is open: the first matching
/// rule wins.  A header is emitted immediately; every other kind opens a
/// region seeded with the line's content.
pub open spec fn classify_spec(line: Seq<char>) -> (RegionModel, Seq<ElemModel>) {
    if line.len() > 0 && line[0] == '#' {
        let level = leading_count_spec(line, '#');
        let content = trim_start_spec(line.subrange(level as int, line.len() as int));
        (RegionModel::NotSet, seq![ElemModel::Header { level, content }])
    } else if is_fence(line) {
        let language = trim_spec(line.subrange(3, line.len() as int));
        (RegionModel::Code(language, Seq::<Seq<char>>::empty()), Seq::<ElemModel>::empty())
    } else if line.len() > 0 && is_digit(line[0]) {
        if contains_char(line, '.') {
            (
                RegionModel::OrderedList(seq![numbered_item_text(line)]),
                Seq::<ElemModel>::empty(),
            )
        } else {
            (RegionModel::Paragraph(seq![trim_spec(line)]), Seq::<ElemModel>::empty())
        }
    } else if is_dash_item(line) {
        (
            RegionModel::UnorderedList(seq![line.subrange(2, line.len() as int)]),
            Seq::<ElemModel>::empty(),
        )
    } else if line.len() > 0 && line[0] == '|' {
        (
            RegionModel::Table(cells_spec(line), Seq::<Seq<Seq<char>>>::empty(), true),
            Seq::<ElemModel>::empty(),
        )
    } else {
        (RegionModel::Paragraph(seq![trim_spec(line)]), Seq::<ElemModel>::empty())
    }
}

/// One step of the region state machine: the next region and the elements
/// emitted while consuming `line`.
///
/// A blank line is data inside a code block, a no-op when idle, and closes
/// any other region.  A nonblank line extends the open region when it
/// matches the region's continuation rule; otherwise it closes the region
/// and is classified afresh.
pub open spec fn step_spec(r: RegionModel, line: Seq<char>) -> (RegionModel, Seq<ElemModel>) {
    if line.len() == 0 {
        match r {
            RegionModel::NotSet => (RegionModel::NotSet, Seq::<ElemModel>::empty()),
            RegionModel::Code(language, code) => (
                RegionModel::Code(language, code.push(line)),
                Seq::<ElemModel>::empty(),
            ),
            _ => (RegionModel::NotSet, flush_spec(r)),
        }
    } else {
        match r {
            RegionModel::NotSet => classify_spec(line),
            RegionModel::Code(language, code) => {
                if is_fence(line) {
                    (RegionModel::NotSet, seq![ElemModel::Code { language, code }])
                } else {
                    (RegionModel::Code(language, code.push(line)), Seq::<ElemModel>::empty())
                }
            },
            RegionModel::OrderedList(list) => {
                if is_numbered_item(line) {
                    (
                        RegionModel::OrderedList(list.push(numbered_item_text(line))),
                        Seq::<ElemModel>::empty(),
                    )
                } else {
                    let (next, emitted) = classify_spec(line);
                    (next, seq![ElemModel::OrderedList { list }] + emitted)
                }
            },
            RegionModel::UnorderedList(list) => {
                if is_dash_item(line) {
                    (
                        RegionModel::UnorderedList(list.push(line.subrange(2, line.len() as int))),
                        Seq::<ElemModel>::empty(),
                    )
                } else {
                    let (next, emitted) = classify_spec(line);
                    (next, seq![ElemModel::UnorderedList { list }] + emitted)
                }
            },
            RegionModel::Table(headers, rows, true) => (
                RegionModel::Table(headers, rows, false),
                Seq::<ElemModel>::empty(),
            ),
            RegionModel::Table(headers, rows, false) => {
                if line[0] == '|' {
                    (
                        RegionModel::Table(headers, rows.push(cells_spec(line)), false),
                        Seq::<ElemModel>::empty(),
                    )
                } else {
                    let (next, emitted) = classify_spec(line);
                    (next, seq![ElemModel::Table { headers, rows }] + emitted)
                }
            },
            RegionModel::Paragraph(lines) => (
                RegionModel::Paragraph(lines.push(trim_spec(line))),
                Seq::<ElemModel>::empty(),
            ),
        }
    }
}

/// The region and emitted elements after consuming all of `lines`, starting
/// idle.
pub open spec fn run_spec(lines: Seq<Seq<char>>) -> (RegionModel, Seq<ElemModel>)
    decreases lines.len(),
{
    if lines.len() == 0 {
        (RegionModel::NotSet, Seq::<ElemModel>::empty())
    } else {
        let (r1, emitted) = run_spec(lines.drop_last());
        let (r2, emitted2) = step_spec(r1, lines.last());
        (r2, emitted + emitted2)
    }
}

/// The complete parse of a document: the elements emitted while consuming
/// its lines, followed by the flush of whatever region end-of-input leaves
/// open.
pub open spec fn parse_spec(lines: Seq<Seq<char>>) -> Seq<ElemModel> {
    run_spec(lines).1 + flush_spec(run_spec(lines).0)
}

/// Parsing an empty line sequence yields an empty element sequence.
pub proof fn lemma_empty_input(lines: Seq<Seq<char>>)
    requires
        lines.len() == 0,
    ensures
        parse_spec(lines) == Seq::<ElemModel>::empty(),
{
    assert(parse_spec(lines) =~= Seq::<ElemModel>::empty());
}

/// End-of-input flush: whatever region is still open when the input is
/// exhausted is emitted, as exactly one element, at the end of the output.
pub proof fn lemma_end_of_input_flush(lines: Seq<Seq<char>>)
    requires
        !(run_spec(lines).0 is NotSet),
    ensures
        flush_spec(run_spec(lines).0).len() == 1,
        parse_spec(lines) == run_spec(lines).1.push(flush_spec(run_spec(lines).0)[0]),
{
    assert(run_spec(lines).1 + flush_spec(run_spec(lines).0) =~= run_spec(lines).1.push(
        flush_spec(run_spec(lines).0)[0],
    ));
}

/// Whether a nonblank `line` fails the continuation rule of the open region
/// `r`, for the regions that are then closed and reclassified: an ordered
/// list, an unordered list, or a table past its separator row.
pub open spec fn closes_by_reclassify(r: RegionModel, line: Seq<char>) -> bool {
    match r {
        RegionModel::OrderedList(_) => !is_numbered_item(line),
        RegionModel::UnorderedList(_) => !is_dash_item(line),
        RegionModel::Table(_, _, sep) => !sep && !(line.len() > 0 && line[0] == '|'),
        _ => false,
    }
}

/// Termination by a non-matching line: a nonblank line that fails an open
/// list's or table's continuation rule closes that region, emitting its
/// element, and is then classified afresh as if no region were open -- the
/// line is not dropped, and what follows it is exactly what the same line
/// would have produced when idle.
pub proof fn lemma_close_and_reclassify(r: RegionModel, line: Seq<char>)
    requires
        line.len() > 0,
        closes_by_reclassify(r, line),
    ensures
        step_spec(r, line).0 == classify_spec(line).0,
        step_spec(r, line).1 == flush_spec(r) + classify_spec(line).1,
{
}

/// Completed lists and paragraphs always hold at least one item or line.
pub open spec fn elem_never_empty(e: ElemModel) -> bool {
    match e {
        ElemModel::OrderedList { list } => list.len() > 0,
        ElemModel::UnorderedList { list } => list.len() > 0,
        ElemModel::Paragraph { lines } => lines.len() > 0,
        _ => true,
    }
}

/// Open lists and paragraphs always hold at least one item or line.
pub open spec fn region_never_empty(r: RegionModel) -> bool {
    match r {
        RegionModel::OrderedList(list) => list.len() > 0,
        RegionModel::UnorderedList(list) => list.len() > 0,
        RegionModel::Paragraph(lines) => lines.len() > 0,
        _ => true,
    }
}

/// One step keeps the open region nonempty and emits only nonempty lists
/// and paragraphs.
proof fn lemma_step_never_empty(r: RegionModel, line: Seq<char>)
    requires
        region_never_empty(r),
    ensures
        region_never_empty(step_spec(r, line).0),
        forall|i: int|
            0 <= i < step_spec(r, line).1.len() ==> elem_never_empty(step_spec(r, line).1[i]),
{
}

/// Consuming any sequence of lines keeps the open region nonempty and emits
/// only nonempty lists and paragraphs.
proof fn lemma_run_never_empty(lines: Seq<Seq<char>>)
    ensures
        region_never_empty(run_spec(lines).0),
        forall|i: int|
            0 <= i < run_spec(lines).1.len() ==> elem_never_empty(run_spec(lines).1[i]),
    decreases lines.len(),
{
    if lines.len() > 0 {
        lemma_run_never_empty(lines.drop_last());
        lemma_step_never_empty(run_spec(lines.drop_last()).0, lines.last());
    }
}

/// Lists and paragraphs are never empty: they are only emitted once at
/// least one item or line has been appended, so every ordered list,
/// unordered list and paragraph in a parse holds at least one entry.
pub proof fn lemma_lists_and_paragraphs_never_empty(lines: Seq<Seq<char>>)
    ensures
        forall|i: int|
            0 <= i < parse_spec(lines).len() ==> elem_never_empty(parse_spec(lines)[i]),
{
    lemma_run_never_empty(lines);
}

/// Whether `line` starts with the three-character code fence.
fn is_fence_exec(line: &str) -> (r: bool)
    ensures
        r == is_fence(line@),
{
    let n = line.unicode_len();
    n >= 3 && line.get_char(0) == '`' && line.get_char(1) == '`' && line.get_char(2) == '`'
}

/// Whether `line` starts with the two-character unordered-list prefix.
fn is_dash_item_exec(line: &str) -> (r: bool)
    ensures
        r == is_dash_item(line@),
{
    let n = line.unicode_len();
    n >= 2 && line.get_char(0) == '-' && line.get_char(1) == ' '
}

/// Parses a table line into its trimmed cells.
fn parse_cells(line: &str) -> (r: Vec<String>)
    ensures
        r.deep_view() == cells_spec(line@),
{
    let inner = strip_edges(line, '|');
    let raw = split_char(inner, '|');
    trim_all(&raw)
}

/// Classifies a nonblank line when no region is open, emitting a header
/// element immediately and opening a region for every other kind of line.
fn open_region(line: &str, elements: &mut Vec<HTMLElement>) -> (r: Region)
    requires
        line@.len() > 0,
    ensures
        r@ == classify_spec(line@).0,
        final(elements).deep_view() == old(elements).deep_view() + classify_spec(line@).1,
{
    let ghost previous = elements.deep_view();
    let n = line.unicode_len();
    if line.get_char(0) == '#' {
        let level = leading_count(line, '#');
        let content = String::from_str(trim_start(line.substring_char(level, n)));
        let element = HTMLElement::Header { level, content };
        proof {
            assert(element@ == classify_spec(line@).1[0]);
        }
        elements.push(element);
        proof {
            assert(elements.deep_view() =~= previous + classify_spec(line@).1);
        }
        Region::NotSet
    } else if is_fence_exec(line) {
        let language = String::from_str(trim(line.substring_char(3, n)));
        let code: Vec<String> = Vec::new();
        proof {
            assert(code.deep_view() =~= Seq::<Seq<char>>::empty());
            assert(elements.deep_view() =~= previous + classify_spec(line@).1);
        }
        Region::Code(language, code)
    } else if is_digit_exec(line.get_char(0)) {
        let region = match split_after_first(line, '.') {
            Some(rest) => {
                let items = vec![String::from_str(trim_start(rest))];
                proof {
                    assert(items.deep_view() =~= seq![numbered_item_text(line@)]);
                }
                Region::OrderedList(items)
            },
            None => {
                let lines = vec![String::from_str(trim(line))];
                proof {
                    assert(lines.deep_view() =~= seq![trim_spec(line@)]);
                }
                Region::Paragraph(lines)
            },
        };
        proof {
            assert(region@ == classify_spec(line@).0);
            assert(elements.deep_view() =~= previous + classify_spec(line@).1);
        }
        region
    } else if is_dash_item_exec(line) {
        let items = vec![String::from_str(line.substring_char(2, n))];
        proof {
            assert(items.deep_view() =~= seq![line@.subrange(2, line@.len() as int)]);
            assert(elements.deep_view() =~= previous + classify_spec(line@).1);
        }
        Region::UnorderedList(items)
    } else if line.get_char(0) == '|' {
        let headers = parse_cells(line);
        let rows: Vec<Vec<String>> = Vec::new();
        proof {
            assert(rows.deep_view() =~= Seq::<Seq<Seq<char>>>::empty());
            assert(elements.deep_view() =~= previous + classify_spec(line@).1);
        }
        Region::Table(headers, rows, true)
    } else {
        let lines = vec![String::from_str(trim(line))];
        proof {
            assert(lines.deep_view() =~= seq![trim_spec(line@)]);
            assert(elements.deep_view() =~= previous + classify_spec(line@).1);
        }
        Region::Paragraph(lines)
    }
}

/// Closes `region`, appending its completed element, if any, to `elements`.
fn flush_region(region: Region, elements: &mut Vec<HTMLElement>)
    ensures
        final(elements).deep_view() == old(elements).deep_view() + flush_spec(region@),
{
    let ghost previous = elements.deep_view();
    match region {
        Region::NotSet => {
            proof {
                assert(elements.deep_view() =~= previous + flush_spec(region@));
            }
        },
        Region::Code(language, code) => {
            elements.push(HTMLElement::Code { language, code });
            proof {
                assert(elements.deep_view() =~= previous + flush_spec(region@));
            }
        },
        Region::OrderedList(list) => {
            elements.push(HTMLElement::OrderedList { list });
            proof {
                assert(elements.deep_view() =~= previous + flush_spec(region@));
            }
        },
        Region::UnorderedList(list) => {
            elements.push(HTMLElement::UnorderedList { list });
            proof {
                assert(elements.deep_view() =~= previous + flush_spec(region@));
            }
        },
        Region::Table(headers, rows, _) => {
            elements.push(HTMLElement::Table { headers, rows });
            proof {
                assert(elements.deep_view() =~= previous + flush_spec(region@));
            }
        },
        Region::Paragraph(lines) => {
            elements.push(HTMLElement::Paragraph { lines });
            proof {
                assert(elements.deep_view() =~= previous + flush_spec(region@));
            }
        },
    }
}

/// Handle a blank line for the current region.
/// Return what the new region should be set as.
///
/// A blank line is appended as data inside a code block, ignored when no
/// region is open, and closes any other region with emission.
pub fn handle_blank_line(line: &String, region: Region, elements: &mut Vec<HTMLElement>) -> (r:
    Region)
    requires
        line@.len() == 0,
    ensures
        r@ == step_spec(region@, line@).0,
        final(elements).deep_view() == old(elements).deep_view() + step_spec(region@, line@).1,
{
    let ghost previous = elements.deep_view();
    match region {
        Region::NotSet => {
            proof {
                assert(elements.deep_view() =~= previous + step_spec(region@, line@).1);
            }
            Region::NotSet
        },
        Region::Code(language, mut code) => {
            let ghost code0 = code.deep_view();
            code.push(line.clone());
            proof {
                assert(code.deep_view() =~= code0.push(line@));
                assert(elements.deep_view() =~= previous + step_spec(region@, line@).1);
            }
            Region::Code(language, code)
        },
        _ => {
            flush_region(region, elements);
            Region::NotSet
        },
    }
}

/// Handle a nonblank line for the current region: extend the region, or
/// close it and classify the line afresh.
fn handle_text_line(line: &str, region: Region, elements: &mut Vec<HTMLElement>) -> (r: Region)
    requires
        line@.len() > 0,
    ensures
        r@ == step_spec(region@, line@).0,
        final(elements).deep_view() == old(elements).deep_view() + step_spec(region@, line@).1,
{
    let ghost previous = elements.deep_view();
    let n = line.unicode_len();
    match region {
        Region::NotSet => open_region(line, elements),
        Region::Code(language, mut code) => {
            if is_fence_exec(line) {
                elements.push(HTMLElement::Code { language, code });
                proof {
                    assert(elements.deep_view() =~= previous + step_spec(region@, line@).1);
                }
                Region::NotSet
            } else {
                let ghost code0 = code.deep_view();
                code.push(String::from_str(line));
                proof {
                    assert(code.deep_view() =~= code0.push(line@));
                    assert(elements.deep_view() =~= previous + step_spec(region@, line@).1);
                }
                Region::Code(language, code)
            }
        },
        Region::OrderedList(mut list) => {
            let continues = is_digit_exec(line.get_char(0));
            if continues {
                match split_after_first(line, '.') {
                    Some(rest) => {
                        let ghost list0 = list.deep_view();
                        list.push(String::from_str(trim_start(rest)));
                        proof {
                            assert(list.deep_view() =~= list0.push(numbered_item_text(line@)));
                            assert(elements.deep_view() =~= previous + step_spec(
                                region@,
                                line@,
                            ).1);
                        }
                        return Region::OrderedList(list);
                    },
                    None => {},
                }
            }
            elements.push(HTMLElement::OrderedList { list });
            let ghost flushed = elements.deep_view();
            proof {
                assert(flushed =~= previous + seq![step_spec(region@, line@).1[0]]);
            }
            let next = open_region(line, elements);
            proof {
                assert(elements.deep_view() =~= previous + step_spec(region@, line@).1);
            }
            next
        },
        Region::UnorderedList(mut list) => {
            if is_dash_item_exec(line) {
                let ghost list0 = list.deep_view();
                list.push(String::from_str(line.substring_char(2, n)));
                proof {
                    assert(list.deep_view() =~= list0.push(line@.subrange(2, line@.len() as int)));
                    assert(elements.deep_view() =~= previous + step_spec(region@, line@).1);
                }
                Region::UnorderedList(list)
            } else {
                elements.push(HTMLElement::UnorderedList { list });
                let ghost flushed = elements.deep_view();
                proof {
                    assert(flushed =~= previous + seq![step_spec(region@, line@).1[0]]);
                }
                let next = open_region(line, elements);
                proof {
                    assert(elements.deep_view() =~= previous + step_spec(region@, line@).1);
                }
                next
            }
        },
        Region::Table(headers, rows, true) => {
            proof {
                assert(elements.deep_view() =~= previous + step_spec(region@, line@).1);
            }
            Region::Table(headers, rows, false)
        },
        Region::Table(headers, mut rows, false) => {
            if line.get_char(0) == '|' {
                let ghost rows0 = rows.deep_view();
                rows.push(parse_cells(line));
                proof {
                    assert(rows.deep_view() =~= rows0.push(cells_spec(line@)));
                    assert(elements.deep_view() =~= previous + step_spec(region@, line@).1);
                }
                Region::Table(headers, rows, false)
            } else {
                elements.push(HTMLElement::Table { headers, rows });
                let ghost flushed = elements.deep_view();
                proof {
                    assert(flushed =~= previous + seq![step_spec(region@, line@).1[0]]);
                }
                let next = open_region(line, elements);
                proof {
                    assert(elements.deep_view() =~= previous + step_spec(region@, line@).1);
                }
                next
            }
        },
        Region::Paragraph(mut lines) => {
            let ghost lines0 = lines.deep_view();
            lines.push(String::from_str(trim(line)));
            proof {
                assert(lines.deep_view() =~= lines0.push(trim_spec(line@)));
                assert(elements.deep_view() =~= previous + step_spec(region@, line@).1);
            }
            Region::Paragraph(lines)
        },
    }
}

/// Returns a list of HTML elements parsed from the provided Markdown text.
/// Parsed paragraph lines have their leading and trailing whitespace
/// stripped.
///
/// The result is exactly `parse_spec` of the lines' characters: headers are
/// emitted immediately; code blocks, lists, tables and paragraphs are
/// accumulated line by line and emitted when a terminator line, a blank
/// line, or end-of-input closes them.
pub fn parse_markdown(text: &Vec<String>) -> (elements: Vec<HTMLElement>)
    ensures
        elements.deep_view() == parse_spec(text.deep_view()),
{
    let mut region = Region::NotSet;
    let mut elements: Vec<HTMLElement> = Vec::new();
    let n = text.len();
    let mut i: usize = 0;
    while i < n
        invariant
            0 <= i <= n,
            n == text@.len(),
            region@ == run_spec(text.deep_view().subrange(0, i as int)).0,
            elements.deep_view() == run_spec(text.deep_view().subrange(0, i as int)).1,
        decreases n - i,
    {
        let ghost prefix = text.deep_view().subrange(0, i as int);
        let ghost prefix1 = text.deep_view().subrange(0, i + 1);
        proof {
            assert(prefix1.drop_last() =~= prefix);
            assert(prefix1.last() == text@[i as int]@);
        }
        let line = &text[i];
        if line.as_str().is_empty() {
            region = handle_blank_line(line, region, &mut elements);
        } else {
            region = handle_text_line(line.as_str(), region, &mut elements);
        }
        i = i + 1;
    }
    proof {
        assert(text.deep_view().subrange(0, n as int) =~= text.deep_view());
    }
    flush_region(region, &mut elements);
    elements
}

} // verus!
