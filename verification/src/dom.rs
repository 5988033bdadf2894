//! The bridge between HTML text and the verified extractors.
//!
//! The extractors never look at HTML syntax themselves: an HTML document
//! enters the library through the two wrappers below, which hand back plain
//! rows — attribute values, text nodes and anchors, exactly as they stand in
//! the document.  Every rule about those rows lives in verified code.

use vstd::prelude::*;

verus! {

/// One anchor element of a table cell.
pub struct RawAnchor {
    /// The anchor's text nodes, concatenated.
    pub text: String,
    /// The anchor's `href` attribute, when it has one.
    pub href: Option<String>,
}

/// Mathematical value of a `RawAnchor`.
pub struct RawAnchorV {
    pub text: Seq<char>,
    pub href: Option<Seq<char>>,
}

impl DeepView for RawAnchor {
    type V = RawAnchorV;

    open spec fn deep_view(&self) -> RawAnchorV {
        RawAnchorV { text: self.text@, href: self.href.deep_view() }
    }
}

/// One cell of a table row.
pub struct RawCell {
    /// The cell's `class` attribute, when it has one.
    pub class: Option<String>,
    /// The cell's text nodes, in document order.
    pub texts: Vec<String>,
    /// The cell's anchor elements, in document order.
    pub anchors: Vec<RawAnchor>,
}

/// Mathematical value of a `RawCell`.
pub struct RawCellV {
    pub class: Option<Seq<char>>,
    pub texts: Seq<Seq<char>>,
    pub anchors: Seq<RawAnchorV>,
}

impl DeepView for RawCell {
    type V = RawCellV;

    open spec fn deep_view(&self) -> RawCellV {
        RawCellV {
            class: self.class.deep_view(),
            texts: self.texts.deep_view(),
            anchors: self.anchors.deep_view(),
        }
    }
}

/// One row of a table.
pub struct RawRow {
    /// The row's cells, in document order.
    pub cells: Vec<RawCell>,
}

/// Mathematical value of a `RawRow`.
pub struct RawRowV {
    pub cells: Seq<RawCellV>,
}

impl DeepView for RawRow {
    type V = RawRowV;

    open spec fn deep_view(&self) -> RawRowV {
        RawRowV { cells: self.cells.deep_view() }
    }
}

/// The `i` attribute of each row of the tables in the given document, in
/// display order.  The listing pages carry each item's id there.
pub uninterp spec fn listing_attrs_of(html: Seq<char>) -> Seq<Option<Seq<char>>>;

/// The rows of the tables in the given document, in display order, with
/// their cells' class attributes, text nodes and anchors.
pub uninterp spec fn detail_rows_of(html: Seq<char>) -> Seq<RawRowV>;

/// Relies on scraper's HTML parsing: selects every `table>tbody>tr` element
/// of the document and reads each row's `i` attribute.
#[verifier::external_body]
pub fn listing_rows(html: &str) -> (r: Vec<Option<String>>)
    ensures
        r.deep_view() == listing_attrs_of(html@),
{
    let doc = scraper::Html::parse_document(html);
    let tr = scraper::Selector::parse("table>tbody>tr").unwrap();
    doc.select(&tr).map(|row| row.attr("i").map(str::to_owned)).collect()
}

/// Relies on scraper's HTML parsing: selects every `table>tbody>tr` element
/// of the document and copies out each `td` cell's class attribute, text
/// nodes, and anchors with their `href` attributes.
#[verifier::external_body]
pub fn detail_rows(html: &str) -> (r: Vec<RawRow>)
    ensures
        r.deep_view() == detail_rows_of(html@),
{
    let doc = scraper::Html::parse_document(html);
    let tr = scraper::Selector::parse("table>tbody>tr").unwrap();
    let td = scraper::Selector::parse("td").unwrap();
    let a = scraper::Selector::parse("a").unwrap();
    doc.select(&tr).map(|row| RawRow {
        cells: row.select(&td).map(|cell| RawCell {
            class: cell.attr("class").map(str::to_owned),
            texts: cell.text().map(str::to_owned).collect(),
            anchors: cell.select(&a).map(|e| RawAnchor {
                text: e.text().collect(),
                href: e.attr("href").map(str::to_owned),
            }).collect(),
        }).collect(),
    }).collect()
}

} // verus!
