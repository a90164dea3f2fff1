//! Reading a document into plain values.
//!
//! Parsing HTML and matching selectors is the work of the `scraper` crate. What it
//! finds comes back as values of [`crate::table`], which the decoders read.

use crate::table::{Cell, Page, PageModel, Row, Table, TableModel};
use scraper::{Html, Selector};
use vstd::prelude::*;
use vstd::string::StringSliceAdditionalSpecFns;
use vstd::utf8::encode_utf8;

verus! {

/// The greatest number of bytes of a text that is parsed. The parser keeps text in
/// buffers of at most 4 GiB and panics beyond that; a byte of the text can take three
/// bytes there, so that a text of up to 1 GiB is safe.
pub const MAX_DOCUMENT_BYTES: usize = 0x4000_0000;

/// Whether a text is short enough to be parsed.
pub open spec fn readable(html: Seq<char>) -> bool {
    encode_utf8(html).len() <= MAX_DOCUMENT_BYTES
}

/// Tells whether a text is short enough to be parsed.
pub fn is_readable(html: &str) -> (r: bool)
    ensures
        r == readable(html@),
{
    html.as_bytes().len() <= MAX_DOCUMENT_BYTES
}

/// The greatest length of a selector that is matched. A selector is matched part by
/// part, each part inside the one before it, so that a short selector goes few
/// levels deep.
pub const MAX_SELECTOR_LEN: usize = 64;

/// Whether a selector is plain: short, and without a bracket. A bracket opens the
/// argument of a pseudo-class such as `:has(..)` or `:not(..)`, which is matched by
/// going down the document level by level, and a document may be of any depth.
pub open spec fn plain_selector(selector: Seq<char>) -> bool {
    &&& selector.len() <= MAX_SELECTOR_LEN
    &&& forall|i: int| 0 <= i < selector.len() ==> selector[i] != '('
}

/// The selector of the previews of articles on the listing page.
pub const PREVIEW_SELECTOR: &'static str = ".emergency-section .news-item .image";

/// The attribute of a preview that holds its script.
pub const SCRIPT_ATTRIBUTE: &'static str = "onclick";

/// The selector of the element that holds an article's own address.
pub const ADDRESS_SELECTOR: &'static str = "meta[property=\"og:url\"]";

/// The attribute of that element that holds the address.
pub const ADDRESS_ATTRIBUTE: &'static str = "content";

/// The selector of a table body.
pub const BODY_SELECTOR: &'static str = "tbody";

/// The selector of the rows of a table body.
pub const ROW_SELECTOR: &'static str = "tr";

/// The selector of the cells of a row.
pub const CELL_SELECTOR: &'static str = "td";

/// The attribute of a cell that holds its style.
pub const STYLE_ATTRIBUTE: &'static str = "style";

/// The attribute of a cell that says how many columns it spans.
pub const SPAN_ATTRIBUTE: &'static str = "colspan";

/// The value of the attribute `name` of each element that `selector` matches in the
/// document parsed from `html`, in the order in which the elements are found; `None`
/// for an element without that attribute. No element where `selector` is no selector.
pub uninterp spec fn document_attributes(
    html: Seq<char>,
    selector: Seq<char>,
    name: Seq<char>,
) -> Seq<Option<Seq<char>>>;

/// The tables of the document parsed from `html`: one for each element that
/// `selectors.0` matches, in the order in which they are found, with its rows, the
/// descendants that `selectors.1` matches, and in each row its cells, the descendants
/// that `selectors.2` matches, each with its text and its attributes `attributes.0`
/// and `attributes.1`. No table where one of the three is no selector.
pub uninterp spec fn document_tables(
    html: Seq<char>,
    selectors: (Seq<char>, Seq<char>, Seq<char>),
    attributes: (Seq<char>, Seq<char>),
) -> Seq<TableModel>;

/// Parses `html` with `Html::parse_document`, matches `selector` with `Html::select`,
/// and reads `name` from each element with `ElementRef::attr`. The result is named,
/// not described: it is whatever `scraper` finds, and depends on the three texts alone.
/// A text beyond [`MAX_DOCUMENT_BYTES`] is left out: the parser panics where its
/// buffers grow beyond 4 GiB. So is a selector that is not plain: one with a
/// pseudo-class that takes an argument is matched by a function that calls itself
/// once for each level of the document, and one of many parts by a function that
/// calls itself once for each part; neither has a limit.
#[verifier::external_body]
pub(crate) fn scan_attributes(html: &str, selector: &str, name: &str) -> (r: Vec<Option<String>>)
    requires
        readable(html@),
        plain_selector(selector@),
    ensures
        r.deep_view() == document_attributes(html@, selector@, name@),
{
    match Selector::parse(selector) {
        Ok(wanted) => Html::parse_document(html).select(&wanted).map(
            |e| e.attr(name).map(String::from),
        ).collect(),
        Err(_) => Vec::new(),
    }
}

/// Parses `html` with `Html::parse_document` and copies out its tables: bodies by
/// `Html::select`, rows and cells by `ElementRef::select`, a cell's text by
/// `ElementRef::text` and its attributes by `ElementRef::attr`. The result is named,
/// not described: it is whatever `scraper` finds, and depends on the texts alone.
/// A text beyond [`MAX_DOCUMENT_BYTES`] is left out: the parser panics where its
/// buffers grow beyond 4 GiB. So is a selector that is not plain: one with a
/// pseudo-class that takes an argument is matched by a function that calls itself
/// once for each level of the document, and one of many parts by a function that
/// calls itself once for each part; neither has a limit.
#[verifier::external_body]
pub(crate) fn scan_tables(html: &str, selectors: [&str; 3], attributes: [&str; 2]) -> (r: Vec<Table>)
    requires
        readable(html@),
        forall|i: int| 0 <= i < 3 ==> plain_selector((#[trigger] selectors[i])@),
    ensures
        r@.map_values(|t: Table| t@) == document_tables(
            html@,
            (selectors[0]@, selectors[1]@, selectors[2]@),
            (attributes[0]@, attributes[1]@),
        ),
{
    let [Ok(body), Ok(row), Ok(cell)] = selectors.map(Selector::parse) else { return Vec::new() };
    Html::parse_document(html).select(&body).map(|b| Table {
        rows: b.select(&row).map(|r| Row {
            cells: r.select(&cell).map(|c| Cell {
                text: c.text().collect(),
                style: c.attr(attributes[0]).map(String::from),
                colspan: c.attr(attributes[1]).map(String::from),
            }).collect(),
        }).collect(),
    }).collect()
}

/// The address that the article `html` gives for itself: what the first element that
/// [`ADDRESS_SELECTOR`] matches holds as its [`ADDRESS_ATTRIBUTE`], and nothing where
/// there is no such element or it has no such attribute.
pub open spec fn page_address(html: Seq<char>) -> Seq<char> {
    let found = document_attributes(html, ADDRESS_SELECTOR@, ADDRESS_ATTRIBUTE@);
    if found.len() > 0 {
        match found[0] {
            Some(address) => address,
            None => Seq::empty(),
        }
    } else {
        Seq::empty()
    }
}

/// What the decoders read of the article `html`: its address and its tables, and
/// nothing of a text that is too long to be parsed.
pub open spec fn page_model(html: Seq<char>) -> PageModel {
    if readable(html) {
        PageModel {
            url: page_address(html),
            tables: document_tables(
                html,
                (BODY_SELECTOR@, ROW_SELECTOR@, CELL_SELECTOR@),
                (STYLE_ATTRIBUTE@, SPAN_ATTRIBUTE@),
            ),
        }
    } else {
        PageModel { url: Seq::empty(), tables: Seq::empty() }
    }
}

/// The values that are there, in their order.
pub open spec fn present(values: Seq<Option<Seq<char>>>) -> Seq<Seq<char>>
    decreases values.len(),
{
    if values.len() == 0 {
        Seq::empty()
    } else {
        match values.last() {
            Some(value) => present(values.drop_last()).push(value),
            None => present(values.drop_last()),
        }
    }
}

/// The scripts of the previews on the listing page `html`, in the order of the
/// previews; a preview without a script is passed over. None of a text that is too
/// long to be parsed.
pub open spec fn preview_scripts(html: Seq<char>) -> Seq<Seq<char>> {
    if readable(html) {
        present(document_attributes(html, PREVIEW_SELECTOR@, SCRIPT_ATTRIBUTE@))
    } else {
        Seq::empty()
    }
}

/// Picks the first of the values, where it is there.
pub fn first_or_empty(values: &Vec<Option<String>>) -> (r: String)
    ensures
        r@ == if values@.len() > 0 {
            match values@[0] {
                Some(value) => value@,
                None => Seq::empty(),
            }
        } else {
            Seq::empty()
        },
{
    if values.len() > 0 {
        match &values[0] {
            Some(value) => value.clone(),
            None => String::new(),
        }
    } else {
        String::new()
    }
}

/// Keeps the values that are there, in their order.
pub fn present_of(values: &Vec<Option<String>>) -> (r: Vec<String>)
    ensures
        r.deep_view() == present(values.deep_view()),
{
    let ghost all = values.deep_view();
    let mut kept: Vec<String> = Vec::new();
    let mut i: usize = 0;
    assert(kept.deep_view() =~= Seq::<Seq<char>>::empty());
    while i < values.len()
        invariant
            i <= values.len(),
            all == values.deep_view(),
            kept.deep_view() == present(all.take(i as int)),
        decreases values.len() - i,
    {
        proof {
            let upto = all.take(i + 1);
            assert(upto.drop_last() =~= all.take(i as int));
            assert(upto.last() == values@[i as int].deep_view());
        }
        let ghost before = kept.deep_view();
        match &values[i] {
            Some(value) => {
                kept.push(value.clone());
                assert(kept.deep_view() =~= before.push(value@));
            },
            None => {},
        }
        i += 1;
    }
    assert(all.take(i as int) =~= all);
    kept
}

/// Parses an article and reads its address and its table bodies. Markup that is
/// malformed is repaired as a browser would; a text beyond [`MAX_DOCUMENT_BYTES`] is
/// not parsed and gives the page without address and tables.
pub fn read_page(html: &str) -> (page: Page)
    ensures
        page@ == page_model(html@),
{
    if !is_readable(html) {
        let tables: Vec<Table> = Vec::new();
        assert(tables@.map_values(|t: Table| t@) =~= Seq::<TableModel>::empty());
        return Page { url: String::new(), tables };
    }
    proof {
        reveal_strlit("meta[property=\"og:url\"]");
        reveal_strlit("tbody");
        reveal_strlit("tr");
        reveal_strlit("td");
    }
    let url = first_or_empty(&scan_attributes(html, ADDRESS_SELECTOR, ADDRESS_ATTRIBUTE));
    let tables = scan_tables(
        html,
        [BODY_SELECTOR, ROW_SELECTOR, CELL_SELECTOR],
        [STYLE_ATTRIBUTE, SPAN_ATTRIBUTE],
    );
    Page { url, tables }
}

/// Parses the listing page and reads the script of each preview that has one, in the
/// order of the previews. A text beyond [`MAX_DOCUMENT_BYTES`] is not parsed and gives
/// no script.
pub fn read_previews(html: &str) -> (scripts: Vec<String>)
    ensures
        scripts.deep_view() == preview_scripts(html@),
{
    if !is_readable(html) {
        let scripts: Vec<String> = Vec::new();
        assert(scripts.deep_view() =~= Seq::<Seq<char>>::empty());
        return scripts;
    }
    proof {
        reveal_strlit(".emergency-section .news-item .image");
    }
    present_of(&scan_attributes(html, PREVIEW_SELECTOR, SCRIPT_ATTRIBUTE))
}

} // verus!
