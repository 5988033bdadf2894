//! The extractors: listing pages to id sequences, detail pages to records.
//!
//! Both work on the plain rows the DOM bridge hands out, so each one's
//! behaviour is stated exactly, row by row.

use vstd::prelude::*;

use crate::dom::{detail_rows, detail_rows_of, listing_attrs_of, listing_rows, RawRow, RawRowV};
use crate::post::{spec_empty_post, Post, PostV};
use crate::text::{
    cell_value, chars_of, concat_strings, concat_texts, contains_sub, eq_chars, eq_str, find_sub,
    find_sub_spec, normalize_date_chars, parse_u32_chars, spec_cell_value, spec_norm_date,
    spec_parse_u32, starts_with_chars, starts_with_spec, string_of, trim_chars, trim_spec,
};

verus! {

/// Why an extraction failed.
#[derive(Debug, Clone, Copy, PartialEq, Eq, Structural)]
pub enum ParseError {
    /// A listing row has no id attribute.
    MissingIdentifier,
    /// A listing row's id attribute is not an unsigned integer.
    MalformedIdentifier,
    /// A show-period value has no range separator.
    MissingSeparator,
}

/// The ids a listing page yields: each row's id attribute parsed as an
/// unsigned integer, in display order; the whole listing fails on the first
/// row without an attribute or with an unparseable one.
pub open spec fn spec_ids_of(attrs: Seq<Option<Seq<char>>>) -> Result<Seq<u32>, ParseError>
    decreases attrs.len(),
{
    if attrs.len() == 0 {
        Ok(Seq::empty())
    } else {
        match spec_ids_of(attrs.drop_last()) {
            Err(e) => Err(e),
            Ok(pre) => match attrs.last() {
                None => Err(ParseError::MissingIdentifier),
                Some(s) => match spec_parse_u32(s) {
                    None => Err(ParseError::MalformedIdentifier),
                    Some(id) => Ok(pre.push(id)),
                },
            },
        }
    }
}

proof fn lemma_ids_error_persists(attrs: Seq<Option<Seq<char>>>, k: int, e: ParseError)
    requires
        0 <= k <= attrs.len(),
        spec_ids_of(attrs.take(k)) == Err::<Seq<u32>, ParseError>(e),
    ensures
        spec_ids_of(attrs) == Err::<Seq<u32>, ParseError>(e),
    decreases attrs.len() - k,
{
    if k == attrs.len() {
        assert(attrs.take(k) =~= attrs);
    } else {
        assert(attrs.take(k + 1).drop_last() =~= attrs.take(k));
        lemma_ids_error_persists(attrs, k + 1, e);
    }
}

/// Reads the id sequence out of the listing rows' attribute values.
pub fn ids_from_attrs(attrs: &Vec<Option<String>>) -> (r: Result<Vec<u32>, ParseError>)
    ensures
        match r {
            Ok(ids) => spec_ids_of(attrs.deep_view()) == Ok::<Seq<u32>, ParseError>(ids@),
            Err(e) => spec_ids_of(attrs.deep_view()) == Err::<Seq<u32>, ParseError>(e),
        },
{
    let ghost av = attrs.deep_view();
    let mut ids: Vec<u32> = Vec::new();
    let mut i: usize = 0;
    while i < attrs.len()
        invariant
            i <= attrs.len(),
            av == attrs.deep_view(),
            av.len() == attrs.len(),
            spec_ids_of(av.take(i as int)) == Ok::<Seq<u32>, ParseError>(ids@),
        decreases attrs.len() - i,
    {
        proof {
            assert(av.take(i + 1).drop_last() =~= av.take(i as int));
            assert(av.take(i + 1).last() == av[i as int]);
        }
        match &attrs[i] {
            None => {
                proof {
                    lemma_ids_error_persists(av, i + 1, ParseError::MissingIdentifier);
                }
                return Err(ParseError::MissingIdentifier);
            },
            Some(s) => {
                let cs = chars_of(s.as_str());
                match parse_u32_chars(&cs) {
                    None => {
                        proof {
                            lemma_ids_error_persists(av, i + 1, ParseError::MalformedIdentifier);
                        }
                        return Err(ParseError::MalformedIdentifier);
                    },
                    Some(id) => {
                        ids.push(id);
                    },
                }
            },
        }
        i += 1;
    }
    proof {
        assert(av.take(av.len() as int) =~= av);
    }
    Ok(ids)
}

/// Extracts the ordered id sequence from a listing page.
///
/// Duplicates are kept: the extractor reflects the page as it stands.
pub fn main_page_parser(content: &str) -> (r: Result<Vec<u32>, ParseError>)
    ensures
        match r {
            Ok(ids) => spec_ids_of(listing_attrs_of(content@)) == Ok::<Seq<u32>, ParseError>(ids@),
            Err(e) => spec_ids_of(listing_attrs_of(content@)) == Err::<Seq<u32>, ParseError>(e),
        },
{
    let attrs = listing_rows(content);
    ids_from_attrs(&attrs)
}

/// The classification of a detail row's trimmed label.
#[derive(Debug, Clone, Copy, PartialEq, Eq, Structural)]
pub enum FieldKind {
    /// The item's title.
    Title,
    /// The item's body text.
    Body,
    /// The day of the last update.
    UpdatedDate,
    /// The person in charge.
    PersonInCharge,
    /// The originating unit.
    Origin,
    /// The source's category label.
    Category,
    /// The first and last day the item is shown.
    ShowPeriod,
    /// The attachment list; matched by prefix.
    Attachment,
    /// The audience matrix, which is intentionally discarded.
    Target,
    /// Any label the extractor does not know.
    Other,
}

/// How a trimmed label routes its row.
pub open spec fn spec_field_kind(label: Seq<char>) -> FieldKind {
    if label == "対象"@ {
        FieldKind::Target
    } else if starts_with_spec(label, "添付ファイル"@) {
        FieldKind::Attachment
    } else if label == "タイトル"@ {
        FieldKind::Title
    } else if label == "本文"@ {
        FieldKind::Body
    } else if label == "担当者"@ {
        FieldKind::PersonInCharge
    } else if label == "発信元"@ {
        FieldKind::Origin
    } else if label == "カテゴリー"@ {
        FieldKind::Category
    } else if label == "最終更新日"@ {
        FieldKind::UpdatedDate
    } else if label == "公開期間"@ {
        FieldKind::ShowPeriod
    } else {
        FieldKind::Other
    }
}

/// Classifies a trimmed label.
pub fn classify_label(label: &Vec<char>) -> (k: FieldKind)
    ensures
        k == spec_field_kind(label@),
{
    let lit = chars_of("対象");
    if eq_chars(label, &lit) {
        return FieldKind::Target;
    }
    let lit = chars_of("添付ファイル");
    if starts_with_chars(label, &lit) {
        return FieldKind::Attachment;
    }
    let lit = chars_of("タイトル");
    if eq_chars(label, &lit) {
        return FieldKind::Title;
    }
    let lit = chars_of("本文");
    if eq_chars(label, &lit) {
        return FieldKind::Body;
    }
    let lit = chars_of("担当者");
    if eq_chars(label, &lit) {
        return FieldKind::PersonInCharge;
    }
    let lit = chars_of("発信元");
    if eq_chars(label, &lit) {
        return FieldKind::Origin;
    }
    let lit = chars_of("カテゴリー");
    if eq_chars(label, &lit) {
        return FieldKind::Category;
    }
    let lit = chars_of("最終更新日");
    if eq_chars(label, &lit) {
        return FieldKind::UpdatedDate;
    }
    let lit = chars_of("公開期間");
    if eq_chars(label, &lit) {
        return FieldKind::ShowPeriod;
    }
    FieldKind::Other
}

/// The values of the kept cells: each cell's value in order, dropping cell
/// values that show the nested-table placeholder.
pub open spec fn kept_cell_values(cells: Seq<crate::dom::RawCellV>) -> Seq<Seq<char>>
    decreases cells.len(),
{
    if cells.len() == 0 {
        Seq::empty()
    } else {
        let pre = kept_cell_values(cells.drop_last());
        let v = spec_cell_value(cells.last().texts);
        if contains_sub(v, "テーブル表示"@) {
            pre
        } else {
            pre.push(v)
        }
    }
}

/// A label row's value: the kept remaining cells' values joined with
/// newlines.
pub open spec fn spec_row_value(cells: Seq<crate::dom::RawCellV>) -> Seq<char> {
    crate::text::join_newline(kept_cell_values(cells))
}

fn row_value(row: &RawRow) -> (r: Vec<char>)
    requires
        row.cells.len() >= 1,
    ensures
        r@ == spec_row_value(row.deep_view().cells.drop_first()),
{
    let ghost cv = row.deep_view().cells.drop_first();
    let placeholder = chars_of("テーブル表示");
    let mut kept: Vec<Vec<char>> = Vec::new();
    let mut i: usize = 1;
    while i < row.cells.len()
        invariant
            1 <= i <= row.cells.len(),
            cv == row.deep_view().cells.drop_first(),
            cv.len() == row.cells.len() - 1,
            placeholder@ == "テーブル表示"@,
            kept.deep_view() == kept_cell_values(cv.take(i - 1)),
        decreases row.cells.len() - i,
    {
        let ghost kept_before = kept.deep_view();
        let v = cell_value(&row.cells[i].texts);
        proof {
            assert(cv.take(i as int).drop_last() =~= cv.take(i - 1));
            assert(cv.take(i as int).last() == cv[i - 1]);
            assert(cv[i - 1] == row.deep_view().cells[i as int]);
            assert(v@ == spec_cell_value(cv[i - 1].texts));
        }
        match find_sub(&v, &placeholder) {
            Some(_) => {},
            None => {
                proof {
                    assert(v.deep_view() =~= v@);
                }
                kept.push(v);
                proof {
                    assert(kept.deep_view() =~= kept_before.push(
                        spec_cell_value(cv[i - 1].texts),
                    ));
                }
            },
        }
        i += 1;
    }
    proof {
        assert(cv.take(cv.len() as int) =~= cv);
    }
    crate::text::join_newline_vecs(&kept)
}

/// The attachment bindings a row of anchors adds: each anchor with an
/// `href`, from its trimmed text to the absolute URL under the fixed host;
/// anchors without an `href` are skipped.
pub open spec fn spec_add_anchors(
    m: Map<Seq<char>, Seq<char>>,
    anchors: Seq<crate::dom::RawAnchorV>,
) -> Map<Seq<char>, Seq<char>>
    decreases anchors.len(),
{
    if anchors.len() == 0 {
        m
    } else {
        let pre = spec_add_anchors(m, anchors.drop_last());
        match anchors.last().href {
            Some(h) => pre.insert(
                trim_spec(anchors.last().text),
                "http://t-board.office.tuat.ac.jp"@ + h,
            ),
            None => pre,
        }
    }
}

fn add_anchors(m: &mut crate::strmap::StrMap, anchors: &Vec<crate::dom::RawAnchor>)
    ensures
        final(m)@ == spec_add_anchors(old(m)@, anchors.deep_view()),
{
    let ghost av = anchors.deep_view();
    let mut i: usize = 0;
    while i < anchors.len()
        invariant
            i <= anchors.len(),
            av == anchors.deep_view(),
            av.len() == anchors.len(),
            m@ == spec_add_anchors(old(m)@, av.take(i as int)),
        decreases anchors.len() - i,
    {
        proof {
            assert(av.take(i + 1).drop_last() =~= av.take(i as int));
            assert(av.take(i + 1).last() == av[i as int]);
            assert(av[i as int] == anchors@[i as int].deep_view());
        }
        match &anchors[i].href {
            Some(h) => {
                let text = chars_of(anchors[i].text.as_str());
                let key = trim_chars(&text);
                let mut url = chars_of("http://t-board.office.tuat.ac.jp");
                let mut hrefc = chars_of(h.as_str());
                url.append(&mut hrefc);
                m.insert(string_of(&key), string_of(&url));
            },
            None => {},
        }
        i += 1;
    }
    proof {
        assert(av.take(av.len() as int) =~= av);
    }
}

/// One detail row folded into the record being built.
///
/// Rows without the label marker on their first cell are presentation rows
/// and change nothing; the audience row is discarded; an attachment row
/// needs a second cell to add anything; a show-period value without the
/// range separator fails.
pub open spec fn spec_apply_row(p: PostV, row: RawRowV) -> Result<PostV, ParseError> {
    if row.cells.len() == 0 {
        Ok(p)
    } else if row.cells[0].class != Some("defLabel"@) {
        Ok(p)
    } else {
        let label_raw = concat_texts(row.cells[0].texts);
        let label = trim_spec(label_raw);
        let kind = spec_field_kind(label);
        if kind == FieldKind::Target {
            Ok(p)
        } else if kind == FieldKind::Attachment {
            if row.cells.len() >= 2 {
                Ok(PostV { attachment: spec_add_anchors(p.attachment, row.cells[1].anchors), ..p })
            } else {
                Ok(p)
            }
        } else {
            let v = spec_row_value(row.cells.drop_first());
            if kind == FieldKind::Title {
                Ok(PostV { title: Some(v), ..p })
            } else if kind == FieldKind::Body {
                Ok(PostV { contents: Some(v), ..p })
            } else if kind == FieldKind::PersonInCharge {
                Ok(PostV { person_in_charge: Some(v), ..p })
            } else if kind == FieldKind::Origin {
                Ok(PostV { origin: Some(v), ..p })
            } else if kind == FieldKind::Category {
                Ok(PostV { category: Some(v), ..p })
            } else if kind == FieldKind::UpdatedDate {
                Ok(PostV { updated_date: Some(spec_norm_date(v)), ..p })
            } else if kind == FieldKind::ShowPeriod {
                match find_sub_spec(v, " 〜 "@) {
                    None => Err(ParseError::MissingSeparator),
                    Some(ix) => Ok(
                        PostV {
                            show_date: Some(
                                (spec_norm_date(v.take(ix)), spec_norm_date(v.skip(ix + 3))),
                            ),
                            ..p
                        },
                    ),
                }
            } else {
                Ok(PostV { other: p.other.insert(label_raw, v), ..p })
            }
        }
    }
}

fn apply_row(p: &mut Post, row: &RawRow) -> (r: Result<(), ParseError>)
    ensures
        match r {
            Ok(u) => spec_apply_row(old(p)@, row.deep_view()) == Ok::<PostV, ParseError>(
                final(p)@,
            ),
            Err(e) => spec_apply_row(old(p)@, row.deep_view()) == Err::<PostV, ParseError>(e),
        },
{
    let ghost rv = row.deep_view();
    if row.cells.len() == 0 {
        return Ok(());
    }
    let is_label = match &row.cells[0].class {
        Some(c) => eq_str(c.as_str(), "defLabel"),
        None => false,
    };
    proof {
        assert(rv.cells[0] == row.cells@[0].deep_view());
    }
    if !is_label {
        return Ok(());
    }
    let label_raw = concat_strings(&row.cells[0].texts);
    let label = trim_chars(&label_raw);
    let kind = classify_label(&label);
    match kind {
        FieldKind::Target => Ok(()),
        FieldKind::Attachment => {
            if row.cells.len() >= 2 {
                proof {
                    assert(rv.cells[1] == row.cells@[1].deep_view());
                }
                add_anchors(&mut p.attachment, &row.cells[1].anchors);
            }
            Ok(())
        },
        _ => {
            let v = row_value(row);
            match kind {
                FieldKind::Title => {
                    p.title = Some(string_of(&v));
                    Ok(())
                },
                FieldKind::Body => {
                    p.contents = Some(string_of(&v));
                    Ok(())
                },
                FieldKind::PersonInCharge => {
                    p.person_in_charge = Some(string_of(&v));
                    Ok(())
                },
                FieldKind::Origin => {
                    p.origin = Some(string_of(&v));
                    Ok(())
                },
                FieldKind::Category => {
                    p.category = Some(string_of(&v));
                    Ok(())
                },
                FieldKind::UpdatedDate => {
                    let d = normalize_date_chars(&v);
                    p.updated_date = Some(string_of(&d));
                    Ok(())
                },
                FieldKind::ShowPeriod => {
                    let sep = chars_of(" 〜 ");
                    proof {
                        reveal_strlit(" 〜 ");
                        assert(sep@.len() == 3);
                    }
                    match find_sub(&v, &sep) {
                        None => Err(ParseError::MissingSeparator),
                        Some(ix) => {
                            proof {
                                crate::text::lemma_find_sub_found(v@, sep@, 0, ix as int);
                            }
                            let left = crate::text::sub_chars(&v, 0, ix);
                            let right = crate::text::sub_chars(&v, ix + sep.len(), v.len());
                            proof {
                                assert(left@ =~= v@.take(ix as int));
                                assert(right@ =~= v@.skip(ix + 3));
                            }
                            let ln = normalize_date_chars(&left);
                            let rn = normalize_date_chars(&right);
                            p.show_date = Some((string_of(&ln), string_of(&rn)));
                            Ok(())
                        },
                    }
                },
                _ => {
                    p.other.insert(string_of(&label_raw), string_of(&v));
                    Ok(())
                },
            }
        },
    }
}

/// The record a detail page yields: the empty record for the id, with every
/// row folded in, in display order.
pub open spec fn spec_post_of_rows(rows: Seq<RawRowV>, id: u32) -> Result<PostV, ParseError>
    decreases rows.len(),
{
    if rows.len() == 0 {
        Ok(spec_empty_post(id))
    } else {
        match spec_post_of_rows(rows.drop_last(), id) {
            Err(e) => Err(e),
            Ok(p) => spec_apply_row(p, rows.last()),
        }
    }
}

proof fn lemma_post_error_persists(rows: Seq<RawRowV>, id: u32, k: int, e: ParseError)
    requires
        0 <= k <= rows.len(),
        spec_post_of_rows(rows.take(k), id) == Err::<PostV, ParseError>(e),
    ensures
        spec_post_of_rows(rows, id) == Err::<PostV, ParseError>(e),
    decreases rows.len() - k,
{
    if k == rows.len() {
        assert(rows.take(k) =~= rows);
    } else {
        assert(rows.take(k + 1).drop_last() =~= rows.take(k));
        lemma_post_error_persists(rows, id, k + 1, e);
    }
}

/// Builds the record for `id` out of the detail rows.
pub fn post_from_rows(rows: &Vec<RawRow>, id: u32) -> (r: Result<Post, ParseError>)
    ensures
        match r {
            Ok(p) => spec_post_of_rows(rows.deep_view(), id) == Ok::<PostV, ParseError>(p@),
            Err(e) => spec_post_of_rows(rows.deep_view(), id) == Err::<PostV, ParseError>(e),
        },
{
    let ghost rv = rows.deep_view();
    let mut post = Post::new(id);
    let mut i: usize = 0;
    while i < rows.len()
        invariant
            i <= rows.len(),
            rv == rows.deep_view(),
            rv.len() == rows.len(),
            spec_post_of_rows(rv.take(i as int), id) == Ok::<PostV, ParseError>(post@),
        decreases rows.len() - i,
    {
        proof {
            assert(rv.take(i + 1).drop_last() =~= rv.take(i as int));
            assert(rv.take(i + 1).last() == rv[i as int]);
            assert(rv[i as int] == rows@[i as int].deep_view());
        }
        match apply_row(&mut post, &rows[i]) {
            Ok(u) => {},
            Err(e) => {
                proof {
                    lemma_post_error_persists(rv, id, i + 1, e);
                }
                return Err(e);
            },
        }
        i += 1;
    }
    proof {
        assert(rv.take(rv.len() as int) =~= rv);
    }
    Ok(post)
}

/// The raw label a row defines, when it is a label row at all.
pub open spec fn row_label(row: RawRowV) -> Option<Seq<char>> {
    if row.cells.len() >= 1 && row.cells[0].class == Some("defLabel"@) {
        Some(concat_texts(row.cells[0].texts))
    } else {
        None
    }
}

/// Unknown-field capture: a label row whose trimmed label the extractor
/// does not know lands in the catch-all map verbatim — its raw label bound
/// to its joined row value — and is never dropped, as long as the page
/// extracts at all and no later row defines the same raw label again.
pub proof fn lemma_unknown_label_captured(rows: Seq<RawRowV>, id: u32, i: int)
    requires
        0 <= i < rows.len(),
        row_label(rows[i]) is Some,
        spec_field_kind(trim_spec(concat_texts(rows[i].cells[0].texts))) == FieldKind::Other,
        spec_post_of_rows(rows, id) is Ok,
        forall|j: int|
            i < j < rows.len() ==> #[trigger] row_label(rows[j]) != Some(
                concat_texts(rows[i].cells[0].texts),
            ),
    ensures
        (spec_post_of_rows(rows, id)->Ok_0).other.contains_key(
            concat_texts(rows[i].cells[0].texts),
        ),
        (spec_post_of_rows(rows, id)->Ok_0).other[concat_texts(rows[i].cells[0].texts)]
            == spec_row_value(rows[i].cells.drop_first()),
    decreases rows.len(),
{
    let key = concat_texts(rows[i].cells[0].texts);
    if i == rows.len() - 1 {
        assert(spec_post_of_rows(rows.drop_last(), id) is Ok);
    } else {
        let shorter = rows.drop_last();
        assert(spec_post_of_rows(shorter, id) is Ok);
        assert(forall|j: int|
            i < j < shorter.len() ==> #[trigger] row_label(shorter[j]) != Some(key));
        assert(shorter[i] == rows[i]);
        lemma_unknown_label_captured(shorter, id, i);
        let p = spec_post_of_rows(shorter, id)->Ok_0;
        let last = rows.last();
        assert(spec_apply_row(p, last) == spec_post_of_rows(rows, id));
        if row_label(last) is Some {
            assert(row_label(last)->0 != key);
        }
    }
}

/// Extracts one record from a detail page.
///
/// Missing rows simply leave their fields absent; only a show-period row
/// without its range separator fails the whole page.
pub fn info_parser(content: &str, id: u32) -> (r: Result<Post, ParseError>)
    ensures
        match r {
            Ok(p) => spec_post_of_rows(detail_rows_of(content@), id) == Ok::<PostV, ParseError>(
                p@,
            ),
            Err(e) => spec_post_of_rows(detail_rows_of(content@), id) == Err::<PostV, ParseError>(
                e,
            ),
        },
{
    let rows = detail_rows(content);
    post_from_rows(&rows, id)
}

} // verus!
