//! Column operators: each applies a row operator to every row of a string
//! column, keeping null rows null.

use vstd::prelude::*;
use vstd::utf8::encode_utf8;

use crate::chars::count_visible;
use crate::document::{
    html_links, html_meta, html_text, html_title, links_with, meta_with, strings_view,
    strip_html_str, text_ratio_parts, title_with,
};
use crate::scrape::CssSelector;
use crate::selector::{
    count_elements_str, extract_text_str, get_attribute_str, has_element_str, match_count,
    selected_attr, selected_text,
};
use crate::tables::{html_tables, markdown_view, tables_with};

verus! {

pub open spec fn opt_view(o: Option<String>) -> Option<Seq<char>> {
    match o {
        Some(s) => Some(s@),
        None => None,
    }
}

pub open spec fn opt_list_view(o: Option<Vec<String>>) -> Option<Seq<Seq<char>>> {
    match o {
        Some(v) => Some(strings_view(v@)),
        None => None,
    }
}

/// `html_to_text` on each row.
pub fn html_to_text_column(rows: &Vec<Option<String>>) -> (out: Vec<Option<String>>)
    ensures
        out@.len() == rows@.len(),
        forall|i: int|
            0 <= i < rows@.len() ==> opt_view(#[trigger] out@[i]) == match rows@[i] {
                Some(h) => Some(html_text(h@)),
                None => None,
            },
{
    let mut out: Vec<Option<String>> = Vec::new();
    for i in 0..rows.len()
        invariant
            out@.len() == i,
            forall|k: int|
                0 <= k < i ==> opt_view(#[trigger] out@[k]) == match rows@[k] {
                    Some(h) => Some(html_text(h@)),
                    None => None,
                },
    {
        let v = match &rows[i] {
            Some(h) => Some(strip_html_str(h.as_str())),
            None => None,
        };
        out.push(v);
    }
    out
}

/// `html_get_title` on each row, with the `title` selector `title`.
pub fn get_title_column(rows: &Vec<Option<String>>, title: &CssSelector) -> (out: Vec<Option<String>>)
    requires
        title@ == "title"@,
    ensures
        out@.len() == rows@.len(),
        forall|i: int|
            0 <= i < rows@.len() ==> opt_view(#[trigger] out@[i]) == match rows@[i] {
                Some(h) => html_title(h@),
                None => None,
            },
{
    let mut out: Vec<Option<String>> = Vec::new();
    for i in 0..rows.len()
        invariant
            title@ == "title"@,
            out@.len() == i,
            forall|k: int|
                0 <= k < i ==> opt_view(#[trigger] out@[k]) == match rows@[k] {
                    Some(h) => html_title(h@),
                    None => None,
                },
    {
        let v = match &rows[i] {
            Some(h) => title_with(h.as_str(), title),
            None => None,
        };
        out.push(v);
    }
    out
}

/// Whether `out` holds, row by row, the text-ratio counts of `rows`: null
/// for a null row, else the non-white-space characters of the plain text
/// (at most the text's length) and the UTF-8 length of the row.
pub open spec fn text_ratio_rows(rows: Seq<Option<String>>, out: Seq<Option<(usize, usize)>>) -> bool {
    &&& out.len() == rows.len()
    &&& forall|i: int|
        0 <= i < rows.len() ==> match rows[i] {
            Some(h) => (#[trigger] out[i]) matches Some(p) && p.0 == count_visible(html_text(h@))
                && p.0 <= html_text(h@).len() && p.1 == encode_utf8(h@).len() as usize,
            None => out[i] is None,
        }
}

/// `html_text_ratio` on each row, as the pair (non-white-space characters
/// of the plain text, UTF-8 length of the row) whose quotient is the ratio.
pub fn text_ratio_column(rows: &Vec<Option<String>>) -> (out: Vec<Option<(usize, usize)>>)
    ensures
        text_ratio_rows(rows@, out@),
{
    let mut out: Vec<Option<(usize, usize)>> = Vec::new();
    for i in 0..rows.len()
        invariant
            text_ratio_rows(rows@.take(i as int), out@),
    {
        let v = match &rows[i] {
            Some(h) => Some(text_ratio_parts(h.as_str())),
            None => None,
        };
        out.push(v);
        assert forall|k: int| 0 <= k <= i implies match rows@.take(i + 1)[k] {
            Some(h) => (#[trigger] out@[k]) matches Some(p) && p.0 == count_visible(html_text(h@))
                && p.0 <= html_text(h@).len() && p.1 == encode_utf8(h@).len() as usize,
            None => out@[k] is None,
        } by {
            if k < i {
                assert(rows@.take(i + 1)[k] == rows@.take(i as int)[k]);
            }
        }
    }
    assert(rows@.take(rows@.len() as int) == rows@);
    out
}

/// `html_extract_meta` on each row, with the `meta` selector `meta`.
pub fn extract_meta_column(rows: &Vec<Option<String>>, meta: &CssSelector, name: &str) -> (out: Vec<Option<String>>)
    requires
        meta@ == "meta"@,
    ensures
        out@.len() == rows@.len(),
        forall|i: int|
            0 <= i < rows@.len() ==> opt_view(#[trigger] out@[i]) == match rows@[i] {
                Some(h) => html_meta(h@, name@),
                None => None,
            },
{
    let mut out: Vec<Option<String>> = Vec::new();
    for i in 0..rows.len()
        invariant
            meta@ == "meta"@,
            out@.len() == i,
            forall|k: int|
                0 <= k < i ==> opt_view(#[trigger] out@[k]) == match rows@[k] {
                    Some(h) => html_meta(h@, name@),
                    None => None,
                },
    {
        let v = match &rows[i] {
            Some(h) => meta_with(h.as_str(), meta, name),
            None => None,
        };
        out.push(v);
    }
    out
}

/// `html_extract_links` on each row, with the `a[href]` selector `links`.
pub fn extract_links_column(rows: &Vec<Option<String>>, links: &CssSelector) -> (out: Vec<Option<Vec<String>>>)
    requires
        links@ == "a[href]"@,
    ensures
        out@.len() == rows@.len(),
        forall|i: int|
            0 <= i < rows@.len() ==> opt_list_view(#[trigger] out@[i]) == match rows@[i] {
                Some(h) => Some(html_links(h@)),
                None => None,
            },
{
    let mut out: Vec<Option<Vec<String>>> = Vec::new();
    for i in 0..rows.len()
        invariant
            links@ == "a[href]"@,
            out@.len() == i,
            forall|k: int|
                0 <= k < i ==> opt_list_view(#[trigger] out@[k]) == match rows@[k] {
                    Some(h) => Some(html_links(h@)),
                    None => None,
                },
    {
        let v = match &rows[i] {
            Some(h) => Some(links_with(h.as_str(), links)),
            None => None,
        };
        out.push(v);
    }
    out
}

/// `html_extract_tables` on each row, with the `table` selector `table`.
pub fn extract_tables_column(rows: &Vec<Option<String>>, table: &CssSelector) -> (out: Vec<Option<Vec<String>>>)
    requires
        table@ == "table"@,
    ensures
        out@.len() == rows@.len(),
        forall|i: int|
            0 <= i < rows@.len() ==> opt_list_view(#[trigger] out@[i]) == match rows@[i] {
                Some(h) => Some(html_tables(h@)),
                None => None,
            },
{
    let mut out: Vec<Option<Vec<String>>> = Vec::new();
    for i in 0..rows.len()
        invariant
            table@ == "table"@,
            out@.len() == i,
            forall|k: int|
                0 <= k < i ==> opt_list_view(#[trigger] out@[k]) == match rows@[k] {
                    Some(h) => Some(html_tables(h@)),
                    None => None,
                },
    {
        let v = match &rows[i] {
            Some(h) => {
                let t = tables_with(h.as_str(), table);
                assert(strings_view(t@) == markdown_view(t@));
                Some(t)
            },
            None => None,
        };
        out.push(v);
    }
    out
}

/// `html_extract_text` on each row.
pub fn extract_text_column(rows: &Vec<Option<String>>, selector: &CssSelector) -> (out: Vec<Option<String>>)
    ensures
        out@.len() == rows@.len(),
        forall|i: int|
            0 <= i < rows@.len() ==> opt_view(#[trigger] out@[i]) == match rows@[i] {
                Some(h) => selected_text(h@, selector@),
                None => None,
            },
{
    let mut out: Vec<Option<String>> = Vec::new();
    for i in 0..rows.len()
        invariant
            out@.len() == i,
            forall|k: int|
                0 <= k < i ==> opt_view(#[trigger] out@[k]) == match rows@[k] {
                    Some(h) => selected_text(h@, selector@),
                    None => None,
                },
    {
        let v = match &rows[i] {
            Some(h) => extract_text_str(h.as_str(), selector),
            None => None,
        };
        out.push(v);
    }
    out
}

/// `html_get_attribute` on each row.
pub fn get_attribute_column(rows: &Vec<Option<String>>, selector: &CssSelector, attr: &str) -> (out: Vec<Option<String>>)
    ensures
        out@.len() == rows@.len(),
        forall|i: int|
            0 <= i < rows@.len() ==> opt_view(#[trigger] out@[i]) == match rows@[i] {
                Some(h) => selected_attr(h@, selector@, attr@),
                None => None,
            },
{
    let mut out: Vec<Option<String>> = Vec::new();
    for i in 0..rows.len()
        invariant
            out@.len() == i,
            forall|k: int|
                0 <= k < i ==> opt_view(#[trigger] out@[k]) == match rows@[k] {
                    Some(h) => selected_attr(h@, selector@, attr@),
                    None => None,
                },
    {
        let v = match &rows[i] {
            Some(h) => get_attribute_str(h.as_str(), selector, attr),
            None => None,
        };
        out.push(v);
    }
    out
}

/// Whether `out` holds, row by row, whether `selector` matches: null for a
/// null row.
pub open spec fn has_element_rows(rows: Seq<Option<String>>, selector: Seq<char>, out: Seq<Option<bool>>) -> bool {
    &&& out.len() == rows.len()
    &&& forall|i: int|
        0 <= i < rows.len() ==> (#[trigger] out[i]) == match rows[i] {
            Some(h) => Some(match_count(h@, selector) > 0),
            None => None,
        }
}

/// Whether `out` holds, row by row, how many elements `selector` matches:
/// null for a null row.
pub open spec fn count_elements_rows(rows: Seq<Option<String>>, selector: Seq<char>, out: Seq<Option<usize>>) -> bool {
    &&& out.len() == rows.len()
    &&& forall|i: int|
        0 <= i < rows.len() ==> match rows[i] {
            Some(h) => (#[trigger] out[i]) matches Some(n) && n == match_count(h@, selector),
            None => out[i] is None,
        }
}

/// `html_has_element` on each row.
pub fn has_element_column(rows: &Vec<Option<String>>, selector: &CssSelector) -> (out: Vec<Option<bool>>)
    ensures
        has_element_rows(rows@, selector@, out@),
{
    let mut out: Vec<Option<bool>> = Vec::new();
    for i in 0..rows.len()
        invariant
            has_element_rows(rows@.take(i as int), selector@, out@),
    {
        let v = match &rows[i] {
            Some(h) => Some(has_element_str(h.as_str(), selector)),
            None => None,
        };
        out.push(v);
        assert forall|k: int| 0 <= k <= i implies (#[trigger] out@[k]) == match rows@.take(i + 1)[k] {
            Some(h) => Some(match_count(h@, selector@) > 0),
            None => None,
        } by {
            if k < i {
                assert(rows@.take(i + 1)[k] == rows@.take(i as int)[k]);
            }
        }
    }
    assert(rows@.take(rows@.len() as int) == rows@);
    out
}

/// `html_count_elements` on each row.
pub fn count_elements_column(rows: &Vec<Option<String>>, selector: &CssSelector) -> (out: Vec<Option<usize>>)
    ensures
        count_elements_rows(rows@, selector@, out@),
{
    let mut out: Vec<Option<usize>> = Vec::new();
    for i in 0..rows.len()
        invariant
            count_elements_rows(rows@.take(i as int), selector@, out@),
    {
        let v = match &rows[i] {
            Some(h) => Some(count_elements_str(h.as_str(), selector)),
            None => None,
        };
        out.push(v);
        assert forall|k: int| 0 <= k <= i implies match rows@.take(i + 1)[k] {
            Some(h) => (#[trigger] out@[k]) matches Some(n) && n == match_count(h@, selector@),
            None => out@[k] is None,
        } by {
            if k < i {
                assert(rows@.take(i + 1)[k] == rows@.take(i as int)[k]);
            }
        }
    }
    assert(rows@.take(rows@.len() as int) == rows@);
    out
}

/// On the same rows and selector, the presence column and the count column
/// agree: both are null exactly on the null rows, and a row has an element
/// exactly when its count is positive.
pub proof fn law_has_element_iff_count_positive(
    rows: Seq<Option<String>>,
    selector: Seq<char>,
    has: Seq<Option<bool>>,
    count: Seq<Option<usize>>,
)
    requires
        has_element_rows(rows, selector, has),
        count_elements_rows(rows, selector, count),
    ensures
        has.len() == count.len(),
        forall|i: int|
            0 <= i < has.len() ==> (#[trigger] has[i] is None <==> count[i] is None) && (has[i]
                is None <==> rows[i] is None),
        forall|i: int|
            0 <= i < has.len() && (#[trigger] has[i]) is Some ==> count[i] is Some && has[i]->0 == (
            count[i]->0 > 0),
{
}

} // verus!
