//! The flat projection of a record for older consumers.
//!
//! Dates are turned back into the source's notation (with a placeholder
//! weekday, since the original annotation is gone), the show period is
//! rejoined with its separator, and each attachment becomes one markdown
//! link line.

use vstd::prelude::*;

use crate::post::Post;
use crate::strmap::{pairs_map, StrMap};
use crate::text::{chars_of, join_newline, string_of};

verus! {

/// Mathematical value of a `PostCompatv1`.
pub struct PostCompatV {
    pub post_id: u32,
    pub data: Map<Seq<char>, Seq<char>>,
}

/// A record flattened into an id and one string-keyed map.
#[derive(Debug, PartialEq, Eq)]
pub struct PostCompatv1 {
    /// Stable identifier assigned by the source.
    pub post_id: u32,
    /// Every present field, under its source label.
    pub data: StrMap,
}

impl View for PostCompatv1 {
    type V = PostCompatV;

    open spec fn view(&self) -> PostCompatV {
        PostCompatV { post_id: self.post_id, data: self.data@ }
    }
}

/// Every `-` replaced by `/`: the reverse direction of date normalization.
pub open spec fn spec_slashed(s: Seq<char>) -> Seq<char> {
    s.map_values(|c: char| if c == '-' { '/' } else { c })
}

/// A normalized date in the source's notation, with a placeholder weekday.
pub open spec fn spec_compat_date(d: Seq<char>) -> Seq<char> {
    spec_slashed(d) + "(XXX)"@
}

/// A show period rejoined with the source's separator.
pub open spec fn spec_compat_period(a: Seq<char>, b: Seq<char>) -> Seq<char> {
    spec_compat_date(a) + " 〜 "@ + spec_compat_date(b)
}

/// One attachment rendered as a markdown link.
pub open spec fn spec_attachment_line(e: (String, String)) -> Seq<char> {
    seq!['['] + e.0@ + seq![']', '('] + e.1@ + seq![')']
}

/// All attachments rendered as one line each.
pub open spec fn spec_attachment_text(entries: Seq<(String, String)>) -> Seq<char> {
    join_newline(entries.map_values(|e: (String, String)| spec_attachment_line(e)))
}

/// `base` with every pair of `entries` bound, in order.
pub open spec fn insert_all(
    base: Map<Seq<char>, Seq<char>>,
    entries: Seq<(String, String)>,
) -> Map<Seq<char>, Seq<char>>
    decreases entries.len(),
{
    if entries.len() == 0 {
        base
    } else {
        insert_all(base, entries.drop_last()).insert(entries.last().0@, entries.last().1@)
    }
}

proof fn lemma_insert_all_union(base: Map<Seq<char>, Seq<char>>, entries: Seq<(String, String)>)
    ensures
        insert_all(base, entries) == base.union_prefer_right(pairs_map(entries)),
    decreases entries.len(),
{
    if entries.len() == 0 {
        assert(base.union_prefer_right(Map::empty()) =~= base);
    } else {
        lemma_insert_all_union(base, entries.drop_last());
        assert(insert_all(base, entries) =~= base.union_prefer_right(pairs_map(entries)));
    }
}

/// The flat map a record projects to: each present field under its source
/// label, dates in source notation, attachments as markdown lines, and the
/// unrecognized fields merged in last.
pub open spec fn spec_compat_data(post: Post) -> Map<Seq<char>, Seq<char>> {
    let m = Map::<Seq<char>, Seq<char>>::empty();
    let m = if post@.title is Some {
        m.insert("タイトル"@, post@.title->0)
    } else {
        m
    };
    let m = if post@.contents is Some {
        m.insert("本文"@, post@.contents->0)
    } else {
        m
    };
    let m = if post@.updated_date is Some {
        m.insert("最終更新日"@, spec_compat_date(post@.updated_date->0))
    } else {
        m
    };
    let m = if post@.show_date is Some {
        m.insert("公開期間"@, spec_compat_period((post@.show_date->0).0, (post@.show_date->0).1))
    } else {
        m
    };
    let m = if post@.person_in_charge is Some {
        m.insert("担当者"@, post@.person_in_charge->0)
    } else {
        m
    };
    let m = if post@.origin is Some {
        m.insert("発信元"@, post@.origin->0)
    } else {
        m
    };
    let m = if post@.category is Some {
        m.insert("カテゴリー"@, post@.category->0)
    } else {
        m
    };
    let att = spec_attachment_text(post.attachment.entry_seq());
    let m = if att.len() > 0 {
        m.insert("添付ファイル"@, att)
    } else {
        m
    };
    m.union_prefer_right(post@.other)
}

fn slashed_chars(s: &Vec<char>) -> (r: Vec<char>)
    ensures
        r@ == spec_slashed(s@),
{
    let mut r: Vec<char> = Vec::new();
    let mut i: usize = 0;
    while i < s.len()
        invariant
            i <= s.len(),
            r@ == spec_slashed(s@.take(i as int)),
        decreases s.len() - i,
    {
        let c = s[i];
        if c == '-' {
            r.push('/');
        } else {
            r.push(c);
        }
        proof {
            assert(spec_slashed(s@.take(i + 1)) =~= spec_slashed(s@.take(i as int)).push(
                if s@[i as int] == '-' {
                    '/'
                } else {
                    s@[i as int]
                },
            ));
        }
        i += 1;
    }
    proof {
        assert(s@.take(s@.len() as int) =~= s@);
    }
    r
}

fn compat_date_chars(d: &str) -> (r: Vec<char>)
    ensures
        r@ == spec_compat_date(d@),
{
    let v = chars_of(d);
    let mut r = slashed_chars(&v);
    let mut suffix = chars_of("(XXX)");
    r.append(&mut suffix);
    r
}

impl PostCompatv1 {
    /// Flattens a record into the older single-map shape.
    pub fn from_post(post: Post) -> (r: PostCompatv1)
        ensures
            r@.post_id == post@.post_id,
            r@.data == spec_compat_data(post),
    {
        let Post {
            post_id,
            title,
            contents,
            updated_date,
            show_date,
            person_in_charge,
            origin,
            category,
            attachment,
            other,
        } = post;
        let mut data = StrMap::new();
        if let Some(t) = title {
            data.insert("タイトル".to_owned(), t);
        }
        if let Some(c) = contents {
            data.insert("本文".to_owned(), c);
        }
        if let Some(d) = updated_date {
            let v = compat_date_chars(d.as_str());
            data.insert("最終更新日".to_owned(), string_of(&v));
        }
        if let Some(p) = show_date {
            let mut v = compat_date_chars(p.0.as_str());
            let mut sep = chars_of(" 〜 ");
            let mut end = compat_date_chars(p.1.as_str());
            v.append(&mut sep);
            v.append(&mut end);
            data.insert("公開期間".to_owned(), string_of(&v));
        }
        if let Some(p) = person_in_charge {
            data.insert("担当者".to_owned(), p);
        }
        if let Some(o) = origin {
            data.insert("発信元".to_owned(), o);
        }
        if let Some(c) = category {
            data.insert("カテゴリー".to_owned(), c);
        }
        let pairs = attachment.pairs();
        let ghost lines = pairs@.map_values(|e: (String, String)| spec_attachment_line(e));
        let mut att: Vec<char> = Vec::new();
        let mut i: usize = 0;
        while i < pairs.len()
            invariant
                i <= pairs.len(),
                lines == pairs@.map_values(|e: (String, String)| spec_attachment_line(e)),
                lines.len() == pairs@.len(),
                att@ == join_newline(lines.take(i as int)),
            decreases pairs.len() - i,
        {
            if i > 0 {
                att.push('\n');
            }
            att.push('[');
            let mut name = chars_of(pairs[i].0.as_str());
            att.append(&mut name);
            att.push(']');
            att.push('(');
            let mut url = chars_of(pairs[i].1.as_str());
            att.append(&mut url);
            att.push(')');
            proof {
                assert(lines.take(i + 1).drop_last() =~= lines.take(i as int));
                assert(lines.take(i + 1).last() == lines[i as int]);
                assert(att@ =~= join_newline(lines.take(i as int)) + (if i > 0 {
                    seq!['\n']
                } else {
                    Seq::<char>::empty()
                }) + spec_attachment_line(pairs@[i as int]));
            }
            i += 1;
        }
        proof {
            assert(lines.take(lines.len() as int) =~= lines);
        }
        if att.len() > 0 {
            data.insert("添付ファイル".to_owned(), string_of(&att));
        }
        let ghost base = data@;
        let opairs = other.pairs();
        let mut j: usize = 0;
        while j < opairs.len()
            invariant
                j <= opairs.len(),
                pairs_map(opairs@) == other@,
                data@ == insert_all(base, opairs@.take(j as int)),
            decreases opairs.len() - j,
        {
            data.insert(opairs[j].0.clone(), opairs[j].1.clone());
            proof {
                assert(opairs@.take(j + 1).drop_last() =~= opairs@.take(j as int));
                assert(opairs@.take(j + 1).last() == opairs@[j as int]);
            }
            j += 1;
        }
        proof {
            assert(opairs@.take(opairs@.len() as int) =~= opairs@);
            lemma_insert_all_union(base, opairs@);
        }
        PostCompatv1 { post_id, data }
    }
}

} // verus!
