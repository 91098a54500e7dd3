//! A dataclass to store parsed Markdown, ready for conversion into a
//! structured format by a front-end.

use vstd::prelude::*;

verus! {

/// The mathematical value of one parsed element: every piece of text is a
/// sequence of characters.
pub enum ElemModel {
    /// Header blocks
    Header { level: nat, content: Seq<char> },
    /// Code snippets
    Code { language: Seq<char>, code: Seq<Seq<char>> },
    /// Ordered lists
    OrderedList { list: Seq<Seq<char>> },
    /// Unordered lists
    UnorderedList { list: Seq<Seq<char>> },
    /// Tables
    Table { headers: Seq<Seq<char>>, rows: Seq<Seq<Seq<char>>> },
    /// Paragraph text
    Paragraph { lines: Seq<Seq<char>> },
}

/// A structured representation of HTML elements parsed from Markdown.
/// This enum captures the various HTML elements that can be generated from
/// Markdown content.
#[derive(Debug)]
pub enum HTMLElement {
    /// Header blocks
    Header { level: usize, content: String },
    /// Code snippets
    Code { language: String, code: Vec<String> },
    /// Ordered lists
    OrderedList { list: Vec<String> },
    /// Unordered lists
    UnorderedList { list: Vec<String> },
    /// HTML tables - the length of headers and each row should match
    Table { headers: Vec<String>, rows: Vec<Vec<String>> },
    /// Paragraph text
    Paragraph { lines: Vec<String> },
}

impl View for HTMLElement {
    type V = ElemModel;

    open spec fn view(&self) -> ElemModel {
        match self {
            HTMLElement::Header { level, content } => ElemModel::Header {
                level: *level as nat,
                content: content@,
            },
            HTMLElement::Code { language, code } => ElemModel::Code {
                language: language@,
                code: code.deep_view(),
            },
            HTMLElement::OrderedList { list } => ElemModel::OrderedList { list: list.deep_view() },
            HTMLElement::UnorderedList { list } => ElemModel::UnorderedList {
                list: list.deep_view(),
            },
            HTMLElement::Table { headers, rows } => ElemModel::Table {
                headers: headers.deep_view(),
                rows: rows.deep_view(),
            },
            HTMLElement::Paragraph { lines } => ElemModel::Paragraph { lines: lines.deep_view() },
        }
    }
}

impl DeepView for HTMLElement {
    type V = ElemModel;

    open spec fn deep_view(&self) -> ElemModel {
        self.view()
    }
}

/// Whether two vectors of strings hold the same characters.
fn eq_string_vecs(a: &Vec<String>, b: &Vec<String>) -> (r: bool)
    ensures
        r == (a.deep_view() == b.deep_view()),
{
    if a.len() != b.len() {
        proof {
            assert(a.deep_view().len() == a@.len());
            assert(b.deep_view().len() == b@.len());
        }
        return false;
    }
    let mut i: usize = 0;
    while i < a.len()
        invariant
            0 <= i <= a.len(),
            a.len() == b.len(),
            forall|j: int| 0 <= j < i ==> a.deep_view()[j] == b.deep_view()[j],
        decreases a.len() - i,
    {
        if !(a[i] == b[i]) {
            proof {
                assert(a.deep_view()[i as int] == a@[i as int]@);
                assert(b.deep_view()[i as int] == b@[i as int]@);
            }
            return false;
        }
        i = i + 1;
    }
    proof {
        assert(a.deep_view() =~= b.deep_view());
    }
    true
}

/// Whether two vectors of string rows hold the same characters.
fn eq_string_grids(a: &Vec<Vec<String>>, b: &Vec<Vec<String>>) -> (r: bool)
    ensures
        r == (a.deep_view() == b.deep_view()),
{
    if a.len() != b.len() {
        proof {
            assert(a.deep_view().len() == a@.len());
            assert(b.deep_view().len() == b@.len());
        }
        return false;
    }
    let mut i: usize = 0;
    while i < a.len()
        invariant
            0 <= i <= a.len(),
            a.len() == b.len(),
            forall|j: int| 0 <= j < i ==> a.deep_view()[j] == b.deep_view()[j],
        decreases a.len() - i,
    {
        if !eq_string_vecs(&a[i], &b[i]) {
            proof {
                assert(a.deep_view()[i as int] == a@[i as int].deep_view());
                assert(b.deep_view()[i as int] == b@[i as int].deep_view());
            }
            return false;
        }
        i = i + 1;
    }
    proof {
        assert(a.deep_view() =~= b.deep_view());
    }
    true
}

/// Whether two elements hold the same model value.
fn elements_equal(a: &HTMLElement, b: &HTMLElement) -> (r: bool)
    ensures
        r == (a@ == b@),
{
    match (a, b) {
        (
            HTMLElement::Header { level: l1, content: c1 },
            HTMLElement::Header { level: l2, content: c2 },
        ) => {
            let r = *l1 == *l2 && string_eq(c1, c2);
            proof {
                assert(r == (a@ == b@));
            }
            r
        },
        (
            HTMLElement::Code { language: g1, code: c1 },
            HTMLElement::Code { language: g2, code: c2 },
        ) => {
            let r = string_eq(g1, g2) && eq_string_vecs(c1, c2);
            proof {
                assert(r == (a@ == b@));
            }
            r
        },
        (HTMLElement::OrderedList { list: x }, HTMLElement::OrderedList { list: y }) => {
            let r = eq_string_vecs(x, y);
            proof {
                assert(r == (a@ == b@));
            }
            r
        },
        (HTMLElement::UnorderedList { list: x }, HTMLElement::UnorderedList { list: y }) => {
            let r = eq_string_vecs(x, y);
            proof {
                assert(r == (a@ == b@));
            }
            r
        },
        (
            HTMLElement::Table { headers: h1, rows: r1 },
            HTMLElement::Table { headers: h2, rows: r2 },
        ) => {
            let r = eq_string_vecs(h1, h2) && eq_string_grids(r1, r2);
            proof {
                assert(r == (a@ == b@));
            }
            r
        },
        (HTMLElement::Paragraph { lines: x }, HTMLElement::Paragraph { lines: y }) => {
            let r = eq_string_vecs(x, y);
            proof {
                assert(r == (a@ == b@));
            }
            r
        },
        _ => {
            proof {
                assert(a@ != b@);
            }
            false
        },
    }
}

/// Whether two strings hold the same characters.
fn string_eq(a: &String, b: &String) -> (r: bool)
    ensures
        r == (a@ == b@),
{
    *a == *b
}

impl PartialEq for HTMLElement {
    fn eq(&self, other: &Self) -> (r: bool) {
        elements_equal(self, other)
    }
}

impl vstd::std_specs::cmp::PartialEqSpecImpl for HTMLElement {
    open spec fn obeys_eq_spec() -> bool {
        true
    }

    open spec fn eq_spec(&self, other: &Self) -> bool {
        self.view() == other.view()
    }
}

} // verus!
