//! The record types the extractors produce.
//!
//! A `Post` is one bulletin item with its known fields, its attachment map,
//! and a catch-all map for labels the extractor does not recognize.  An
//! `Info` is the older flat shape: an id plus one string-keyed map.

use vstd::prelude::*;

use crate::strmap::StrMap;

verus! {

/// Mathematical value of a `Post`.
pub struct PostV {
    pub post_id: u32,
    pub title: Option<Seq<char>>,
    pub contents: Option<Seq<char>>,
    pub updated_date: Option<Seq<char>>,
    pub show_date: Option<(Seq<char>, Seq<char>)>,
    pub person_in_charge: Option<Seq<char>>,
    pub origin: Option<Seq<char>>,
    pub category: Option<Seq<char>>,
    pub attachment: Map<Seq<char>, Seq<char>>,
    pub other: Map<Seq<char>, Seq<char>>,
}

/// One bulletin item.  Optional fields are absent when the source page had
/// no row for them; dates are kept normalized (`YYYY-MM-DD`).
#[derive(Debug, PartialEq, Eq)]
pub struct Post {
    /// Stable identifier assigned by the source.
    pub post_id: u32,
    /// The item's title.
    pub title: Option<String>,
    /// The item's body text.
    pub contents: Option<String>,
    /// Day the item was last updated, normalized.
    pub updated_date: Option<String>,
    /// First and last day the item is shown, both normalized.
    pub show_date: Option<(String, String)>,
    /// Person in charge of the item.
    pub person_in_charge: Option<String>,
    /// Organizational unit the item came from.
    pub origin: Option<String>,
    /// The source's own category label.
    pub category: Option<String>,
    /// Display name of each attachment, mapped to its absolute URL.
    pub attachment: StrMap,
    /// Rows whose label the extractor does not know, kept verbatim.
    pub other: StrMap,
}

impl View for Post {
    type V = PostV;

    open spec fn view(&self) -> PostV {
        PostV {
            post_id: self.post_id,
            title: self.title.deep_view(),
            contents: self.contents.deep_view(),
            updated_date: self.updated_date.deep_view(),
            show_date: match self.show_date {
                Some(p) => Some((p.0@, p.1@)),
                None => None,
            },
            person_in_charge: self.person_in_charge.deep_view(),
            origin: self.origin.deep_view(),
            category: self.category.deep_view(),
            attachment: self.attachment@,
            other: self.other@,
        }
    }
}

impl DeepView for Post {
    type V = PostV;

    open spec fn deep_view(&self) -> PostV {
        self.view()
    }
}

/// The record that holds only an id: every optional field absent, both maps
/// empty.
pub open spec fn spec_empty_post(id: u32) -> PostV {
    PostV {
        post_id: id,
        title: None,
        contents: None,
        updated_date: None,
        show_date: None,
        person_in_charge: None,
        origin: None,
        category: None,
        attachment: Map::empty(),
        other: Map::empty(),
    }
}

fn clone_opt_string(o: &Option<String>) -> (r: Option<String>)
    ensures
        r.deep_view() == o.deep_view(),
{
    match o {
        Some(s) => Some(s.clone()),
        None => None,
    }
}

impl Post {
    /// A record holding only the given id.
    pub fn new(id: u32) -> (r: Post)
        ensures
            r@ == spec_empty_post(id),
    {
        Post {
            post_id: id,
            other: StrMap::new(),
            origin: None,
            person_in_charge: None,
            title: None,
            contents: None,
            updated_date: None,
            show_date: None,
            category: None,
            attachment: StrMap::new(),
        }
    }
}

impl Clone for Post {
    /// A copy describing the same record.
    fn clone(&self) -> (r: Post)
        ensures
            r@ == self@,
    {
        Post {
            post_id: self.post_id,
            title: clone_opt_string(&self.title),
            contents: clone_opt_string(&self.contents),
            updated_date: clone_opt_string(&self.updated_date),
            show_date: match &self.show_date {
                Some(p) => Some((p.0.clone(), p.1.clone())),
                None => None,
            },
            person_in_charge: clone_opt_string(&self.person_in_charge),
            origin: clone_opt_string(&self.origin),
            category: clone_opt_string(&self.category),
            attachment: self.attachment.clone(),
            other: self.other.clone(),
        }
    }
}

/// Mathematical value of an `Info`.
pub struct InfoV {
    pub id: u32,
    pub data: Map<Seq<char>, Seq<char>>,
}

/// The flat record shape: an id plus one map from source labels to values.
#[derive(Debug, PartialEq, Eq)]
pub struct Info {
    /// Stable identifier assigned by the source.
    pub id: u32,
    /// The extracted rows, keyed by their source labels.
    pub data: StrMap,
}

impl View for Info {
    type V = InfoV;

    open spec fn view(&self) -> InfoV {
        InfoV { id: self.id, data: self.data@ }
    }
}

impl DeepView for Info {
    type V = InfoV;

    open spec fn deep_view(&self) -> InfoV {
        self.view()
    }
}

impl Info {
    /// A flat record holding only the given id.
    pub fn new(id: u32) -> (r: Info)
        ensures
            r@.id == id,
            r@.data == Map::<Seq<char>, Seq<char>>::empty(),
    {
        Info { id, data: StrMap::new() }
    }
}

impl Clone for Info {
    /// A copy describing the same record.
    fn clone(&self) -> (r: Info)
        ensures
            r@ == self@,
    {
        Info { id: self.id, data: self.data.clone() }
    }
}

} // verus!
