//! What the serving layer needs from the core: query routing over the
//! cached record lists, and the response envelope of the older API.

use vstd::prelude::*;

use crate::post::{Info, Post};
use crate::sync::Gakubu;

verus! {

/// The category selection of a query.
#[derive(Debug, Clone, Copy, PartialEq, Eq, Structural)]
pub enum Category {
    /// Both categories, academic records first.
    All,
    /// Academic records only.
    Academic,
    /// Campus records only.
    Campus,
}

impl Default for Category {
    /// A query without a category asks for everything.
    fn default() -> (r: Category)
        ensures
            r == Category::All,
    {
        Category::All
    }
}

/// One query of the merged API: which unit, which category.
#[derive(Debug, Clone, Copy)]
pub struct QueryType {
    /// The unit asked for.
    pub gakubu: Gakubu,
    /// The category asked for.
    pub category: Category,
}

/// The records a query's category selects: academic, campus, or both with
/// the academic records first.
pub fn select_posts(category: Category, academic: Vec<Post>, campus: Vec<Post>) -> (r: Vec<Post>)
    ensures
        r.deep_view() == match category {
            Category::All => academic.deep_view() + campus.deep_view(),
            Category::Academic => academic.deep_view(),
            Category::Campus => campus.deep_view(),
        },
{
    match category {
        Category::All => {
            let ghost adv = academic.deep_view();
            let ghost cdv = campus.deep_view();
            let mut merged = academic;
            let mut rest = campus;
            merged.append(&mut rest);
            proof {
                assert(merged.deep_view() =~= adv + cdv);
            }
            merged
        },
        Category::Academic => academic,
        Category::Campus => campus,
    }
}

/// How a response of the older API reports its outcome.
#[derive(Debug, Clone, PartialEq, Eq)]
pub enum Status {
    /// The data is present.
    Success,
    /// The data could not be produced; the message says why.
    Error(String),
}

/// The response envelope of the older API: a status, and the records when
/// there are any to give.
#[derive(Debug, Clone, PartialEq)]
pub struct ResponseType {
    /// Whether the request succeeded.
    pub status: Status,
    /// The records, on success.
    pub data: Option<Vec<Info>>,
}

impl ResponseType {
    /// Wraps a fetch outcome: a record list becomes an ok response holding
    /// it, an error message becomes an err response holding no data.
    pub fn from_data_result(result: Result<Vec<Info>, String>) -> (r: ResponseType)
        ensures
            match result {
                Ok(data) => r.status == Status::Success && r.data == Some(data),
                Err(e) => r.status == Status::Error(e) && r.data is None,
            },
    {
        match result {
            Ok(data) => ResponseType { status: Status::Success, data: Some(data) },
            Err(err) => ResponseType { status: Status::Error(err), data: None },
        }
    }
}

} // verus!
