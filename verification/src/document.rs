//! Document-level extraction: plain text, title, text ratio, `<meta>`
//! content and link targets.

use vstd::prelude::*;
use vstd::utf8::encode_utf8;

use crate::chars::{
    chars_eq, chars_eq_str, chars_of, count_visible, is_trimmed, law_count_visible_bounded,
    law_trim_is_trimmed, string_from_chars, trim, trim_chars, white_space,
};
use crate::dom::{lemma_node_trees, node_trees, DomNode, DomTree};
use crate::dom_query::{element_attr, element_name, node_attr, text_content, text_of};
use crate::scrape::{
    parse_root_element, parsed_root_element, select_elements, selected_elements, selector_parses,
    CssSelector, SelectedElement, SelectorError,
};

verus! {

// ── Plain text ──────────────────────────────────────────────────────────────

/// Elements whose content is left out of the plain text: non-rendered
/// content, and link anchors (`a`), whose label is not body text.
pub open spec fn is_skip_tag(name: Seq<char>) -> bool {
    ||| name == "script"@
    ||| name == "style"@
    ||| name == "head"@
    ||| name == "noscript"@
    ||| name == "template"@
    ||| name == "a"@
}

/// Elements that start on a new line.
pub open spec fn is_block_tag(name: Seq<char>) -> bool {
    ||| name == "p"@
    ||| name == "div"@
    ||| name == "br"@
    ||| name == "h1"@
    ||| name == "h2"@
    ||| name == "h3"@
    ||| name == "h4"@
    ||| name == "h5"@
    ||| name == "h6"@
    ||| name == "li"@
    ||| name == "tr"@
    ||| name == "blockquote"@
    ||| name == "pre"@
    ||| name == "article"@
    ||| name == "section"@
    ||| name == "header"@
    ||| name == "footer"@
    ||| name == "main"@
    ||| name == "nav"@
    ||| name == "aside"@
    ||| name == "dl"@
    ||| name == "dt"@
    ||| name == "dd"@
}

/// `acc` followed by a line break, unless it is empty or already ends with one.
pub open spec fn break_line(acc: Seq<char>) -> Seq<char> {
    if acc.len() > 0 && acc.last() != '\n' {
        acc.push('\n')
    } else {
        acc
    }
}

/// `acc` followed by the visible text of `t`: text nodes verbatim, skipped
/// elements left out, a line break before each block element.
pub open spec fn collect_text(t: DomTree, acc: Seq<char>) -> Seq<char>
    decreases t,
{
    match t.data.element {
        Some(e) => if is_skip_tag(e.0) {
            acc
        } else {
            collect_text_list(
                t.children,
                if is_block_tag(e.0) {
                    break_line(acc)
                } else {
                    acc
                },
            )
        },
        None => match t.data.text {
            Some(s) => acc + s,
            None => acc,
        },
    }
}

pub open spec fn collect_text_list(ts: Seq<DomTree>, acc: Seq<char>) -> Seq<char>
    decreases ts,
{
    if ts.len() == 0 {
        acc
    } else {
        collect_text(ts.last(), collect_text_list(ts.drop_last(), acc))
    }
}

/// The plain text of a document: the visible text of its root element,
/// trimmed.
pub open spec fn html_text(html: Seq<char>) -> Seq<char> {
    trim(collect_text(parsed_root_element(html), Seq::empty()))
}

fn name_in(name: &Vec<char>, names: &[&str]) -> (r: bool)
    ensures
        r == exists|i: int| 0 <= i < names@.len() && name@ == (#[trigger] names@[i])@,
{
    let mut i: usize = 0;
    while i < names.len()
        invariant
            i <= names@.len(),
            forall|j: int| 0 <= j < i ==> name@ != (#[trigger] names@[j])@,
        decreases names@.len() - i,
    {
        if chars_eq_str(name, names[i]) {
            return true;
        }
        i = i + 1;
    }
    false
}

fn skip_tag(name: &Vec<char>) -> (r: bool)
    ensures
        r == is_skip_tag(name@),
{
    let names: [&str; 6] = ["script", "style", "head", "noscript", "template", "a"];
    let r = name_in(name, &names);
    proof {
        if is_skip_tag(name@) {
            if name@ == "script"@ { assert(names@[0] == "script"); }
            if name@ == "style"@ { assert(names@[1] == "style"); }
            if name@ == "head"@ { assert(names@[2] == "head"); }
            if name@ == "noscript"@ { assert(names@[3] == "noscript"); }
            if name@ == "template"@ { assert(names@[4] == "template"); }
            if name@ == "a"@ { assert(names@[5] == "a"); }
        }
    }
    r
}

fn block_tag(name: &Vec<char>) -> (r: bool)
    ensures
        r == is_block_tag(name@),
{
    let names: [&str; 23] = [
        "p", "div", "br", "h1", "h2", "h3", "h4", "h5", "h6", "li", "tr", "blockquote", "pre",
        "article", "section", "header", "footer", "main", "nav", "aside", "dl", "dt", "dd",
    ];
    let r = name_in(name, &names);
    proof {
        if is_block_tag(name@) {
            if name@ == "p"@ { assert(names@[0] == "p"); }
            if name@ == "div"@ { assert(names@[1] == "div"); }
            if name@ == "br"@ { assert(names@[2] == "br"); }
            if name@ == "h1"@ { assert(names@[3] == "h1"); }
            if name@ == "h2"@ { assert(names@[4] == "h2"); }
            if name@ == "h3"@ { assert(names@[5] == "h3"); }
            if name@ == "h4"@ { assert(names@[6] == "h4"); }
            if name@ == "h5"@ { assert(names@[7] == "h5"); }
            if name@ == "h6"@ { assert(names@[8] == "h6"); }
            if name@ == "li"@ { assert(names@[9] == "li"); }
            if name@ == "tr"@ { assert(names@[10] == "tr"); }
            if name@ == "blockquote"@ { assert(names@[11] == "blockquote"); }
            if name@ == "pre"@ { assert(names@[12] == "pre"); }
            if name@ == "article"@ { assert(names@[13] == "article"); }
            if name@ == "section"@ { assert(names@[14] == "section"); }
            if name@ == "header"@ { assert(names@[15] == "header"); }
            if name@ == "footer"@ { assert(names@[16] == "footer"); }
            if name@ == "main"@ { assert(names@[17] == "main"); }
            if name@ == "nav"@ { assert(names@[18] == "nav"); }
            if name@ == "aside"@ { assert(names@[19] == "aside"); }
            if name@ == "dl"@ { assert(names@[20] == "dl"); }
            if name@ == "dt"@ { assert(names@[21] == "dt"); }
            if name@ == "dd"@ { assert(names@[22] == "dd"); }
        }
    }
    r
}

/// Appends the visible text of `n` to `out`.
fn push_visible_text(n: &DomNode, out: &mut Vec<char>)
    ensures
        final(out)@ == collect_text(n@, old(out)@),
    decreases n,
{
    match &n.data.element {
        Some(e) => {
            let name = chars_of(e.0.as_str());
            if skip_tag(&name) {
                return;
            }
            if block_tag(&name) {
                let len = out.len();
                if len > 0 && out[len - 1] != '\n' {
                    out.push('\n');
                }
            }
            let ghost start = out@;
            let ghost cs = n@.children;
            proof {
                lemma_node_trees(n.children@);
                assert(cs.take(0) == Seq::<DomTree>::empty());
            }
            for i in 0..n.children.len()
                invariant
                    cs == node_trees(n.children@),
                    cs.len() == n.children@.len(),
                    forall|j: int| 0 <= j < cs.len() ==> cs[j] == #[trigger] n.children@[j]@,
                    out@ == collect_text_list(cs.take(i as int), start),
            {
                proof {
                    assert(decreases_to!(*n => n.children));
                    assert(decreases_to!(n.children => n.children@));
                    assert(decreases_to!(n.children@ => n.children@[i as int]));
                }
                push_visible_text(&n.children[i], out);
                assert(cs.take(i + 1).drop_last() == cs.take(i as int));
            }
            assert(cs.take(cs.len() as int) == cs);
        },
        None => match &n.data.text {
            Some(t) => {
                let mut v = chars_of(t.as_str());
                out.append(&mut v);
            },
            None => {},
        },
    }
}

/// The visible text of an HTML document: text of the root element without
/// `script`, `style`, `head`, `noscript`, `template` and link (`a`) content, a line
/// break before each block element, leading and trailing white space
/// removed.
pub fn strip_html_str(html: &str) -> (r: String)
    ensures
        r@ == html_text(html@),
        is_trimmed(r@),
{
    proof {
        law_trim_is_trimmed(collect_text(parsed_root_element(html@), Seq::empty()));
    }
    let root = parse_root_element(html);
    let mut out: Vec<char> = Vec::new();
    push_visible_text(&root, &mut out);
    let trimmed = trim_chars(&out);
    string_from_chars(&trimmed)
}

/// The two numbers whose quotient is the text ratio of a document: the
/// characters of its plain text that are not white space, and its length
/// in UTF-8 bytes.
pub fn text_ratio_parts(html: &str) -> (r: (usize, usize))
    ensures
        r.0 == count_visible(html_text(html@)),
        r.0 <= html_text(html@).len(),
        r.1 == encode_utf8(html@).len() as usize,
{
    proof {
        law_count_visible_bounded(html_text(html@));
    }
    let total = html.len();
    let root = parse_root_element(html);
    let mut out: Vec<char> = Vec::new();
    push_visible_text(&root, &mut out);
    let text = trim_chars(&out);
    let mut visible: usize = 0;
    let mut i: usize = 0;
    while i < text.len()
        invariant
            i <= text@.len(),
            visible == count_visible(text@.take(i as int)),
            visible <= i,
        decreases text@.len() - i,
    {
        assert(text@.take(i + 1).drop_last() == text@.take(i as int));
        if !white_space(text[i]) {
            visible = visible + 1;
        }
        i = i + 1;
    }
    assert(text@.take(text@.len() as int) == text@);
    (visible, total)
}

// ── Title ───────────────────────────────────────────────────────────────────

/// The trees of the selected elements, in selection order.
pub open spec fn selected_trees(sel: Seq<SelectedElement>) -> Seq<DomTree> {
    sel.map_values(|e: SelectedElement| e.element)
}

/// The trimmed text of the first element of `ts`, if there is one and the
/// text is not empty.
pub open spec fn first_text(ts: Seq<DomTree>) -> Option<Seq<char>> {
    if ts.len() == 0 {
        None
    } else if trim(text_content(ts[0])).len() == 0 {
        None
    } else {
        Some(trim(text_content(ts[0])))
    }
}

/// The title of a document: the trimmed text of the first `title` element,
/// `None` when there is none or its text is blank.
pub open spec fn html_title(html: Seq<char>) -> Option<Seq<char>> {
    first_text(selected_trees(selected_elements(html, "title"@)))
}

/// The trimmed text of the first of `elements`, unless blank.
pub fn first_text_of(elements: &Vec<DomNode>) -> (r: Option<String>)
    ensures
        match r {
            Some(s) => first_text(node_trees(elements@)) == Some(s@),
            None => first_text(node_trees(elements@)) is None,
        },
        r matches Some(s) ==> s@.len() > 0 && is_trimmed(s@),
{
    proof {
        lemma_node_trees(elements@);
        if elements@.len() > 0 {
            law_trim_is_trimmed(text_content(elements@[0]@));
        }
    }
    if elements.len() == 0 {
        return None;
    }
    let text = text_of(&elements[0]);
    let t = trim_chars(&text);
    if t.len() == 0 {
        None
    } else {
        Some(string_from_chars(&t))
    }
}

/// The title of a document parsed with the `title` selector `title`.
pub fn title_with(html: &str, title: &CssSelector) -> (r: Option<String>)
    requires
        title@ == "title"@,
    ensures
        match r {
            Some(s) => html_title(html@) == Some(s@),
            None => html_title(html@) is None,
        },
{
    let elements = select_elements(html, title);
    proof {
        lemma_node_trees(elements@);
        assert(node_trees(elements@) == selected_trees(selected_elements(html@, "title"@)));
    }
    first_text_of(&elements)
}

/// The trimmed text of the document's first `title` element; `None` when
/// there is none or it is blank.
pub fn get_title_str(html: &str) -> (r: Option<String>)
    requires
        selector_parses("title"@),
    ensures
        match r {
            Some(s) => html_title(html@) == Some(s@),
            None => html_title(html@) is None,
        },
{
    match CssSelector::new("title") {
        Ok(sel) => title_with(html, &sel),
        Err(_) => None,
    }
}

/// `get_title_str`, or the error of the `title` selector if `scraper`
/// refuses it.
pub fn try_get_title_str(html: &str) -> (r: Result<Option<String>, SelectorError>)
    ensures
        r is Err <==> !selector_parses("title"@),
        r matches Ok(t) ==> match t {
            Some(s) => html_title(html@) == Some(s@),
            None => html_title(html@) is None,
        },
{
    match CssSelector::new("title") {
        Ok(_) => Ok(get_title_str(html)),
        Err(e) => Err(e),
    }
}

// ── Meta ────────────────────────────────────────────────────────────────────

/// Whether the `meta` element `t` is named `name` by its `name` or its
/// `property` attribute.
pub open spec fn meta_named(t: DomTree, name: Seq<char>) -> bool {
    element_attr(t, "name"@) == Some(name) || element_attr(t, "property"@) == Some(name)
}

/// The `content` of the first of `ts` that is named `name` and has one.
pub open spec fn meta_content(ts: Seq<DomTree>, name: Seq<char>) -> Option<Seq<char>>
    decreases ts.len(),
{
    if ts.len() == 0 {
        None
    } else if meta_named(ts[0], name) && element_attr(ts[0], "content"@) is Some {
        element_attr(ts[0], "content"@)
    } else {
        meta_content(ts.drop_first(), name)
    }
}

/// The `content` of the document's first `meta` element named `name`.
pub open spec fn html_meta(html: Seq<char>, name: Seq<char>) -> Option<Seq<char>> {
    meta_content(selected_trees(selected_elements(html, "meta"@)), name)
}

/// The `content` of the first of `metas` named `name` and having content.
pub fn meta_content_of(metas: &Vec<DomNode>, name: &str) -> (r: Option<String>)
    ensures
        match r {
            Some(s) => meta_content(node_trees(metas@), name@) == Some(s@),
            None => meta_content(node_trees(metas@), name@) is None,
        },
{
    let ghost ts = node_trees(metas@);
    proof {
        lemma_node_trees(metas@);
        assert(ts.skip(0) == ts);
    }
    let wanted = chars_of(name);
    let name_key = chars_of("name");
    let property_key = chars_of("property");
    let content_key = chars_of("content");
    let mut i: usize = 0;
    while i < metas.len()
        invariant
            ts == node_trees(metas@),
            ts.len() == metas@.len(),
            forall|j: int| 0 <= j < ts.len() ==> ts[j] == #[trigger] metas@[j]@,
            i <= metas@.len(),
            wanted@ == name@,
            name_key@ == "name"@,
            property_key@ == "property"@,
            content_key@ == "content"@,
            meta_content(ts, name@) == meta_content(ts.skip(i as int), name@),
        decreases metas@.len() - i,
    {
        let m = &metas[i];
        let ghost rest = ts.skip(i as int);
        assert(rest[0] == m@);
        assert(rest.drop_first() == ts.skip(i + 1));
        let by_name = node_attr(m, &name_key);
        let by_property = node_attr(m, &property_key);
        let named = match by_name {
            Some(v) => {
                let v = chars_of(v.as_str());
                chars_eq(&v, &wanted)
            },
            None => false,
        } || match by_property {
            Some(v) => {
                let v = chars_of(v.as_str());
                chars_eq(&v, &wanted)
            },
            None => false,
        };
        if named {
            let content = node_attr(m, &content_key);
            if content.is_some() {
                return content;
            }
        }
        i = i + 1;
    }
    None
}

/// The `content` of the document's first `meta` element named `name`,
/// parsed with the `meta` selector `meta`.
pub fn meta_with(html: &str, meta: &CssSelector, name: &str) -> (r: Option<String>)
    requires
        meta@ == "meta"@,
    ensures
        match r {
            Some(s) => html_meta(html@, name@) == Some(s@),
            None => html_meta(html@, name@) is None,
        },
{
    let elements = select_elements(html, meta);
    proof {
        lemma_node_trees(elements@);
        assert(node_trees(elements@) == selected_trees(selected_elements(html@, "meta"@)));
    }
    meta_content_of(&elements, name)
}

/// The `content` of the first `<meta>` whose `name` or `property`
/// attribute is `name` and that has a `content` attribute.
pub fn extract_meta_str(html: &str, name: &str) -> (r: Option<String>)
    requires
        selector_parses("meta"@),
    ensures
        match r {
            Some(s) => html_meta(html@, name@) == Some(s@),
            None => html_meta(html@, name@) is None,
        },
{
    match CssSelector::new("meta") {
        Ok(sel) => meta_with(html, &sel, name),
        Err(_) => None,
    }
}

/// `extract_meta_str`, or the error of the `meta` selector if `scraper`
/// refuses it.
pub fn try_extract_meta_str(html: &str, name: &str) -> (r: Result<Option<String>, SelectorError>)
    ensures
        r is Err <==> !selector_parses("meta"@),
        r matches Ok(t) ==> match t {
            Some(s) => html_meta(html@, name@) == Some(s@),
            None => html_meta(html@, name@) is None,
        },
{
    match CssSelector::new("meta") {
        Ok(_) => Ok(extract_meta_str(html, name)),
        Err(e) => Err(e),
    }
}

// ── Links ───────────────────────────────────────────────────────────────────

/// The `href` values of `ts`, in order, skipping those without one.
pub open spec fn hrefs(ts: Seq<DomTree>) -> Seq<Seq<char>>
    decreases ts.len(),
{
    if ts.len() == 0 {
        Seq::empty()
    } else {
        hrefs(ts.drop_last()) + match element_attr(ts.last(), "href"@) {
            Some(v) => seq![v],
            None => Seq::empty(),
        }
    }
}

/// The link targets of a document: the `href` of each `a[href]` element,
/// in selection order.
pub open spec fn html_links(html: Seq<char>) -> Seq<Seq<char>> {
    hrefs(selected_trees(selected_elements(html, "a[href]"@)))
}

pub open spec fn strings_view(v: Seq<String>) -> Seq<Seq<char>> {
    v.map_values(|s: String| s@)
}

/// The `href` values of `links`, in order.
pub fn hrefs_of(links: &Vec<DomNode>) -> (r: Vec<String>)
    ensures
        strings_view(r@) == hrefs(node_trees(links@)),
{
    let ghost ts = node_trees(links@);
    proof {
        lemma_node_trees(links@);
        assert(ts.take(0) == Seq::<DomTree>::empty());
    }
    let href_key = chars_of("href");
    let mut r: Vec<String> = Vec::new();
    for i in 0..links.len()
        invariant
            ts == node_trees(links@),
            ts.len() == links@.len(),
            forall|j: int| 0 <= j < ts.len() ==> ts[j] == #[trigger] links@[j]@,
            href_key@ == "href"@,
            strings_view(r@) == hrefs(ts.take(i as int)),
    {
        assert(ts.take(i + 1).drop_last() == ts.take(i as int));
        assert(ts.take(i + 1).last() == links@[i as int]@);
        match node_attr(&links[i], &href_key) {
            Some(v) => {
                r.push(v);
            },
            None => {},
        }
        assert(strings_view(r@) == hrefs(ts.take(i + 1)));
    }
    assert(ts.take(ts.len() as int) == ts);
    r
}

/// The link targets of a document parsed with the `a[href]` selector
/// `links`.
pub fn links_with(html: &str, links: &CssSelector) -> (r: Vec<String>)
    requires
        links@ == "a[href]"@,
    ensures
        strings_view(r@) == html_links(html@),
{
    let elements = select_elements(html, links);
    proof {
        lemma_node_trees(elements@);
        assert(node_trees(elements@) == selected_trees(selected_elements(html@, "a[href]"@)));
    }
    hrefs_of(&elements)
}

/// The `href` of every `<a href>` element, in selection order.
pub fn extract_links_str(html: &str) -> (r: Vec<String>)
    requires
        selector_parses("a[href]"@),
    ensures
        strings_view(r@) == html_links(html@),
{
    match CssSelector::new("a[href]") {
        Ok(sel) => links_with(html, &sel),
        Err(_) => Vec::new(),
    }
}

/// `extract_links_str`, or the error of the `a[href]` selector if
/// `scraper` refuses it.
pub fn try_extract_links_str(html: &str) -> (r: Result<Vec<String>, SelectorError>)
    ensures
        r is Err <==> !selector_parses("a[href]"@),
        r matches Ok(v) ==> strings_view(v@) == html_links(html@),
{
    match CssSelector::new("a[href]") {
        Ok(_) => Ok(extract_links_str(html)),
        Err(e) => Err(e),
    }
}

// ── Laws ────────────────────────────────────────────────────────────────────

/// The content of a skipped element (`script`, `style`, `head`, `noscript`,
/// `template`, `a`) adds nothing to the plain text.
pub proof fn law_skipped_element_adds_nothing(t: DomTree, acc: Seq<char>)
    requires
        t.data.element matches Some(e) && is_skip_tag(e.0),
    ensures
        collect_text(t, acc) == acc,
{
}

/// Collecting text only appends: what was collected before stays a prefix.
pub proof fn law_collect_text_appends(t: DomTree, acc: Seq<char>)
    ensures
        acc.is_prefix_of(collect_text(t, acc)),
    decreases t,
{
    match t.data.element {
        Some(e) => {
            if !is_skip_tag(e.0) {
                let start = if is_block_tag(e.0) {
                    break_line(acc)
                } else {
                    acc
                };
                assert(acc.is_prefix_of(start));
                law_collect_text_list_appends(t.children, start);
            }
        },
        None => {},
    }
}

/// Collecting the text of a list of trees only appends.
pub proof fn law_collect_text_list_appends(ts: Seq<DomTree>, acc: Seq<char>)
    ensures
        acc.is_prefix_of(collect_text_list(ts, acc)),
    decreases ts,
{
    if ts.len() > 0 {
        law_collect_text_list_appends(ts.drop_last(), acc);
        let mid = collect_text_list(ts.drop_last(), acc);
        law_collect_text_appends(ts.last(), mid);
    }
}

/// A title, when there is one, is neither blank nor padded with white
/// space.
pub proof fn law_title_is_trimmed_and_nonblank(html: Seq<char>)
    ensures
        html_title(html) matches Some(s) ==> s.len() > 0 && is_trimmed(s),
{
    let ts = selected_trees(selected_elements(html, "title"@));
    if ts.len() > 0 {
        law_trim_is_trimmed(text_content(ts[0]));
    }
}

/// A `meta` lookup answers with the `content` of a `meta` element that is
/// named `name` by its `name` or `property` attribute.
pub proof fn law_meta_content_comes_from_named_meta(ts: Seq<DomTree>, name: Seq<char>)
    ensures
        meta_content(ts, name) matches Some(c) ==> exists|i: int|
            0 <= i < ts.len() && meta_named(#[trigger] ts[i], name) && element_attr(ts[i], "content"@)
                == Some(c),
    decreases ts.len(),
{
    if ts.len() > 0 {
        if !(meta_named(ts[0], name) && element_attr(ts[0], "content"@) is Some) {
            law_meta_content_comes_from_named_meta(ts.drop_first(), name);
            if meta_content(ts, name) is Some {
                let i = choose|i: int|
                    0 <= i < ts.drop_first().len() && meta_named(#[trigger] ts.drop_first()[i], name)
                        && element_attr(ts.drop_first()[i], "content"@) == meta_content(ts, name);
                assert(ts[i + 1] == ts.drop_first()[i]);
            }
        }
    }
}

/// Each extracted link is the `href` of one of the selected elements, and
/// there are at most as many links as elements.
pub proof fn law_links_are_hrefs(ts: Seq<DomTree>)
    ensures
        hrefs(ts).len() <= ts.len(),
        forall|k: int|
            0 <= k < hrefs(ts).len() ==> exists|j: int|
                0 <= j < ts.len() && element_attr(ts[j], "href"@) == Some(#[trigger] hrefs(ts)[k]),
    decreases ts.len(),
{
    if ts.len() > 0 {
        let init = ts.drop_last();
        law_links_are_hrefs(init);
        assert forall|k: int| 0 <= k < hrefs(ts).len() implies exists|j: int|
            0 <= j < ts.len() && element_attr(ts[j], "href"@) == Some(#[trigger] hrefs(ts)[k]) by {
            if k < hrefs(init).len() {
                assert(hrefs(ts)[k] == hrefs(init)[k]);
                let j = choose|j: int|
                    0 <= j < init.len() && element_attr(init[j], "href"@) == Some(#[trigger] hrefs(init)[k]);
                assert(ts[j] == init[j]);
            } else {
                assert(element_attr(ts[ts.len() - 1], "href"@) == Some(hrefs(ts)[k]));
            }
        }
    }
}

/// A meta lookup finds the first `meta` element that is named `name` (by
/// `name` or `property`) and has a `content` attribute, wherever it stands:
/// metas before it that are not both do not stop the search.
pub proof fn law_meta_finds_first_named_with_content(ts: Seq<DomTree>, name: Seq<char>, i: int)
    requires
        0 <= i < ts.len(),
        meta_named(ts[i], name),
        element_attr(ts[i], "content"@) is Some,
        forall|j: int|
            0 <= j < i ==> !(meta_named(#[trigger] ts[j], name) && element_attr(ts[j], "content"@) is Some),
    ensures
        meta_content(ts, name) == element_attr(ts[i], "content"@),
    decreases i,
{
    if i > 0 {
        let rest = ts.drop_first();
        assert forall|j: int|
            0 <= j < i - 1 implies !(meta_named(#[trigger] rest[j], name) && element_attr(rest[j], "content"@)
            is Some) by {
            assert(rest[j] == ts[j + 1]);
        }
        assert(rest[i - 1] == ts[i]);
        law_meta_finds_first_named_with_content(rest, name, i - 1);
    }
}

/// A meta lookup answers `None` exactly when no `meta` element is both
/// named `name` and has a `content` attribute.
pub proof fn law_meta_none_without_named_content(ts: Seq<DomTree>, name: Seq<char>)
    ensures
        meta_content(ts, name) is None <==> forall|j: int|
            0 <= j < ts.len() ==> !(meta_named(#[trigger] ts[j], name) && element_attr(ts[j], "content"@)
                is Some),
    decreases ts.len(),
{
    if ts.len() > 0 {
        let rest = ts.drop_first();
        law_meta_none_without_named_content(rest, name);
        if meta_content(ts, name) is None {
            assert forall|j: int|
                0 <= j < ts.len() implies !(meta_named(#[trigger] ts[j], name) && element_attr(
                ts[j],
                "content"@,
            ) is Some) by {
                if j > 0 {
                    assert(ts[j] == rest[j - 1]);
                }
            }
        } else {
            if !(meta_named(ts[0], name) && element_attr(ts[0], "content"@) is Some) {
                let k = choose|k: int|
                    0 <= k < rest.len() && meta_named(#[trigger] rest[k], name) && element_attr(
                        rest[k],
                        "content"@,
                    ) is Some;
                assert(ts[k + 1] == rest[k]);
            }
        }
    }
}

/// Every block element (`p`, `div`, `br`, `h1`–`h6`, `li`, `tr`,
/// `blockquote`, `pre`, `article`, `section`, `header`, `footer`, `main`,
/// `nav`, `aside`, `dl`, `dt`, `dd`) starts on a new line: when text that
/// does not end in a line break comes before it, a line break follows that
/// text before anything of the element.
pub proof fn law_block_elements_start_a_line(t: DomTree, acc: Seq<char>)
    requires
        t.data.element is Some,
        ({
            let n = element_name(t);
            ||| n == "p"@
            ||| n == "div"@
            ||| n == "br"@
            ||| n == "h1"@
            ||| n == "h2"@
            ||| n == "h3"@
            ||| n == "h4"@
            ||| n == "h5"@
            ||| n == "h6"@
            ||| n == "li"@
            ||| n == "tr"@
            ||| n == "blockquote"@
            ||| n == "pre"@
            ||| n == "article"@
            ||| n == "section"@
            ||| n == "header"@
            ||| n == "footer"@
            ||| n == "main"@
            ||| n == "nav"@
            ||| n == "aside"@
            ||| n == "dl"@
            ||| n == "dt"@
            ||| n == "dd"@
        }),
        acc.len() > 0,
        acc.last() != '\n',
    ensures
        acc.push('\n').is_prefix_of(collect_text(t, acc)),
{
    let n = element_name(t);
    reveal_strlit("script");
    reveal_strlit("style");
    reveal_strlit("head");
    reveal_strlit("noscript");
    reveal_strlit("template");
    reveal_strlit("a");
    reveal_strlit("p");
    reveal_strlit("div");
    reveal_strlit("br");
    reveal_strlit("h1");
    reveal_strlit("h2");
    reveal_strlit("h3");
    reveal_strlit("h4");
    reveal_strlit("h5");
    reveal_strlit("h6");
    reveal_strlit("li");
    reveal_strlit("tr");
    reveal_strlit("blockquote");
    reveal_strlit("pre");
    reveal_strlit("article");
    reveal_strlit("section");
    reveal_strlit("header");
    reveal_strlit("footer");
    reveal_strlit("main");
    reveal_strlit("nav");
    reveal_strlit("aside");
    reveal_strlit("dl");
    reveal_strlit("dt");
    reveal_strlit("dd");
    assert(is_block_tag(n));
    // Each skip name differs from every block name in length or first letter.
    assert(n != "script"@) by { if n == "script"@ { assert(n.len() == 6 && n[0] == 's'); } }
    assert(n != "style"@) by { if n == "style"@ { assert(n.len() == 5 && n[0] == 's'); } }
    assert(n != "head"@) by { if n == "head"@ { assert(n.len() == 4 && n[0] == 'h'); } }
    assert(n != "noscript"@) by { if n == "noscript"@ { assert(n.len() == 8); } }
    assert(n != "template"@) by { if n == "template"@ { assert(n.len() == 8); } }
    assert(n != "a"@) by { if n == "a"@ { assert(n.len() == 1 && n[0] == 'a'); } }
    assert(!is_skip_tag(n));
    law_collect_text_list_appends(t.children, acc.push('\n'));
}

} // verus!
