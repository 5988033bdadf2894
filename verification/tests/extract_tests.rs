use tuat_feed::extract::{info_parser, main_page_parser, ParseError};

#[test]
fn listing_extracts_ids_in_order() {
    let html = "<table><tbody>\
        <tr i=\"10641\"><td>a</td></tr>\
        <tr i=\"7\"><td>b</td></tr>\
        <tr i=\"3\"><td>c</td></tr>\
        </tbody></table>";
    let ids = main_page_parser(html).unwrap();
    assert_eq!(ids, vec![10641, 7, 3]);
}

#[test]
fn listing_keeps_duplicates() {
    let html = "<table><tbody><tr i=\"5\"></tr><tr i=\"5\"></tr></tbody></table>";
    let ids = main_page_parser(html).unwrap();
    assert_eq!(ids, vec![5, 5]);
}

#[test]
fn listing_missing_attribute_fails() {
    let html = "<table><tbody><tr i=\"5\"></tr><tr></tr></tbody></table>";
    assert_eq!(main_page_parser(html), Err(ParseError::MissingIdentifier));
}

#[test]
fn listing_malformed_attribute_fails() {
    let html = "<table><tbody><tr i=\"x12\"></tr></tbody></table>";
    assert_eq!(main_page_parser(html), Err(ParseError::MalformedIdentifier));
}

#[test]
fn listing_without_table_is_empty() {
    let ids = main_page_parser("<p>nothing here</p>").unwrap();
    assert!(ids.is_empty());
}

fn detail_html() -> String {
    let mut h = String::new();
    h.push_str("<table><tbody>");
    h.push_str("<tr><td class=\"defLabel\">タイトル</td><td>Hello World</td></tr>");
    h.push_str("<tr><td class=\"defLabel\">本文</td><td> line1 <br> line2 </td></tr>");
    h.push_str("<tr><td class=\"defLabel\">最終更新日</td><td>2021/10/07(Thu)</td></tr>");
    h.push_str(
        "<tr><td class=\"defLabel\">公開期間</td><td>2021/10/07(Thu) 〜 2022/03/31(Thu)</td></tr>",
    );
    h.push_str("<tr><td class=\"defLabel\">担当者</td><td>教務係</td></tr>");
    h.push_str("<tr><td class=\"defLabel\">謎のフィールド</td><td>value!</td></tr>");
    h.push_str("<tr><td>presentation row without the label marker</td></tr>");
    h.push_str("<tr><td class=\"defLabel\">対象</td><td>everyone</td></tr>");
    h.push_str(
        "<tr><td class=\"defLabel\">添付ファイル</td>\
         <td><a href=\"/T/file.pdf\">doc.pdf</a><a>nameless</a></td></tr>",
    );
    h.push_str("</tbody></table>");
    h
}

#[test]
fn detail_extracts_known_fields() {
    let post = info_parser(&detail_html(), 8000).unwrap();
    assert_eq!(post.post_id, 8000);
    assert_eq!(post.title.as_deref(), Some("Hello World"));
    assert_eq!(post.contents.as_deref(), Some("line1\nline2"));
    assert_eq!(post.updated_date.as_deref(), Some("2021-10-07"));
    assert_eq!(
        post.show_date,
        Some(("2021-10-07".to_string(), "2022-03-31".to_string())),
    );
    assert_eq!(post.person_in_charge.as_deref(), Some("教務係"));
    assert!(post.origin.is_none());
    assert!(post.category.is_none());
}

#[test]
fn detail_unknown_label_is_captured() {
    let post = info_parser(&detail_html(), 1).unwrap();
    assert_eq!(
        post.other.get("謎のフィールド").map(|s| s.as_str()),
        Some("value!"),
    );
}

#[test]
fn detail_target_row_is_discarded() {
    let post = info_parser(&detail_html(), 1).unwrap();
    assert!(post.other.get("対象").is_none());
}

#[test]
fn detail_attachment_links_are_absolute() {
    let post = info_parser(&detail_html(), 1).unwrap();
    assert_eq!(
        post.attachment.get("doc.pdf").map(|s| s.as_str()),
        Some("http://t-board.office.tuat.ac.jp/T/file.pdf"),
    );
    assert!(post.attachment.get("nameless").is_none());
}

#[test]
fn detail_show_period_without_separator_fails() {
    let html = "<table><tbody>\
        <tr><td class=\"defLabel\">公開期間</td><td>2021/10/07(Thu)</td></tr>\
        </tbody></table>";
    assert_eq!(info_parser(html, 1), Err(ParseError::MissingSeparator));
}

#[test]
fn detail_placeholder_cells_are_dropped() {
    let html = "<table><tbody>\
        <tr><td class=\"defLabel\">本文</td><td>keep</td><td>テーブル表示の断片</td></tr>\
        </tbody></table>";
    let post = info_parser(html, 1).unwrap();
    assert_eq!(post.contents.as_deref(), Some("keep"));
}

#[test]
fn detail_without_table_yields_bare_record() {
    let post = info_parser("<p>nothing</p>", 5).unwrap();
    assert_eq!(post.post_id, 5);
    assert!(post.title.is_none());
    assert!(post.contents.is_none());
    assert!(post.updated_date.is_none());
    assert!(post.show_date.is_none());
    assert!(post.attachment.is_empty());
    assert!(post.other.is_empty());
}
