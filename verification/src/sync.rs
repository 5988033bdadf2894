//! The synchronizing cache.
//!
//! A `Feed` holds the two endpoint templates of one (unit, category) pair
//! and the records already fetched, keyed by id.  Synchronization is split
//! in two verified halves around the network: `pending_ids` says which
//! listing ids still need their detail pages, and `apply_sync` folds the
//! fetched records in and produces the result in listing order.  The caller
//! does the fetching between the two calls and is free to drop ids whose
//! fetch or parse failed: the contracts hold for every subset handed back.

use std::collections::HashMap;

use vstd::prelude::*;

use crate::extract::ParseError;
use crate::post::{Post, PostV};
use crate::text::{chars_of, spec_u32_str, string_of, u32_chars};

verus! {

/// An organizational unit of the source.
#[derive(Debug, Clone, Copy, PartialEq, Eq, Structural)]
pub enum Gakubu {
    /// The technology unit.
    Technology,
    /// The agriculture unit.
    Agriculture,
}

impl Default for Gakubu {
    /// A query without a unit asks for technology.
    fn default() -> (r: Gakubu)
        ensures
            r == Gakubu::Technology,
    {
        Gakubu::Technology
    }
}

/// A feed category of the source.
#[derive(Debug, Clone, Copy, PartialEq, Eq, Structural)]
pub enum FeedCategory {
    /// Campus information.
    Campus,
    /// Academic information.
    Academic,
}

/// Why a retrieval failed.
#[derive(Debug, Clone, PartialEq, Eq)]
pub enum GetError {
    /// The transport failed; the message describes how.
    ConnectionError(String),
    /// A response arrived but its body was not valid text.
    InvalidTextError,
}

/// Any error a feed synchronization can end with.
#[derive(Debug, Clone, PartialEq, Eq)]
pub enum TuatFeedParserError {
    /// A page could not be parsed.
    ParseError(ParseError),
    /// A page could not be retrieved.
    GetError(GetError),
}

/// The listing endpoint of each feed.
pub open spec fn listing_url_spec(gakubu: Gakubu, category: FeedCategory) -> Seq<char> {
    match gakubu {
        Gakubu::Technology => match category {
            FeedCategory::Campus => "http://t-board.office.tuat.ac.jp/T/boar/resAjax.php?bAnno=0&par=20&skip=0"@,
            FeedCategory::Academic => "http://t-board.office.tuat.ac.jp/T/boar/resAjax.php?bAnno=1&par=20&skip=0"@,
        },
        Gakubu::Agriculture => match category {
            FeedCategory::Campus => "http://t-board.office.tuat.ac.jp/A/boar/resAjax.php?bAnno=0&par=20&skip=0"@,
            FeedCategory::Academic => "http://t-board.office.tuat.ac.jp/A/boar/resAjax.php?bAnno=1&par=20&skip=0"@,
        },
    }
}

/// The detail endpoint prefix of each unit; the item id is appended to it.
pub open spec fn info_url_spec(gakubu: Gakubu) -> Seq<char> {
    match gakubu {
        Gakubu::Technology => "http://t-board.office.tuat.ac.jp/T/boar/vewAjax.php?i="@,
        Gakubu::Agriculture => "http://t-board.office.tuat.ac.jp/A/boar/vewAjax.php?i="@,
    }
}

/// One feed: its endpoints and the records already fetched.
pub struct Feed {
    feed_url: &'static str,
    info_url: &'static str,
    buffer: HashMap<u32, Post>,
}

/// The ids a synchronization must fetch: the listing's ids that are not
/// cached, first occurrence only, in listing order.
pub open spec fn spec_pending(cache: Map<u32, PostV>, ids: Seq<u32>) -> Seq<u32>
    decreases ids.len(),
{
    if ids.len() == 0 {
        Seq::empty()
    } else {
        let pre = spec_pending(cache, ids.drop_last());
        let id = ids.last();
        if cache.contains_key(id) || pre.contains(id) {
            pre
        } else {
            pre.push(id)
        }
    }
}

/// The cache with freshly fetched records folded in; a later record under
/// the same id wins.
pub open spec fn spec_cache_after(cache: Map<u32, PostV>, fetched: Seq<(u32, PostV)>) -> Map<
    u32,
    PostV,
>
    decreases fetched.len(),
{
    if fetched.len() == 0 {
        cache
    } else {
        spec_cache_after(cache, fetched.drop_last()).insert(fetched.last().0, fetched.last().1)
    }
}

/// The synchronized result: the listing's ids in order, each resolved
/// through the cache; an id the cache cannot resolve is simply absent.
pub open spec fn spec_sync_result(cache: Map<u32, PostV>, ids: Seq<u32>) -> Seq<PostV>
    decreases ids.len(),
{
    if ids.len() == 0 {
        Seq::empty()
    } else {
        let pre = spec_sync_result(cache, ids.drop_last());
        if cache.contains_key(ids.last()) {
            pre.push(cache[ids.last()])
        } else {
            pre
        }
    }
}

/// The fetched pairs, with each record abstracted to its value.
pub open spec fn fetched_view(fetched: Seq<(u32, Post)>) -> Seq<(u32, PostV)> {
    fetched.map_values(|t: (u32, Post)| (t.0, t.1@))
}

fn contains_u32(v: &Vec<u32>, x: u32) -> (r: bool)
    ensures
        r == v@.contains(x),
{
    let mut i: usize = 0;
    while i < v.len()
        invariant
            i <= v.len(),
            forall|j: int| 0 <= j < i ==> v@[j] != x,
        decreases v.len() - i,
    {
        if v[i] == x {
            return true;
        }
        i += 1;
    }
    false
}

impl Feed {
    /// The cached records, as a map from id to record value.
    pub closed spec fn cache(&self) -> Map<u32, PostV> {
        self.buffer@.map_values(|p: Post| p@)
    }

    /// The feed's listing endpoint.
    pub closed spec fn spec_feed_url(&self) -> Seq<char> {
        self.feed_url@
    }

    /// The feed's detail endpoint prefix.
    pub closed spec fn spec_info_url(&self) -> Seq<char> {
        self.info_url@
    }

    /// Every cached record carries the id it is cached under.
    pub open spec fn wf(&self) -> bool {
        forall|id: u32| self.cache().contains_key(id) ==> (#[trigger] self.cache()[id]).post_id
            == id
    }

    /// A feed for the given unit and category, with an empty cache.
    pub fn new(gakubu: Gakubu, category: FeedCategory) -> (r: Feed)
        ensures
            r.spec_feed_url() == listing_url_spec(gakubu, category),
            r.spec_info_url() == info_url_spec(gakubu),
            r.cache() == Map::<u32, PostV>::empty(),
            r.wf(),
    {
        let (feed_url, info_url): (&'static str, &'static str) = match gakubu {
            Gakubu::Technology => match category {
                FeedCategory::Campus => (
                    "http://t-board.office.tuat.ac.jp/T/boar/resAjax.php?bAnno=0&par=20&skip=0",
                    "http://t-board.office.tuat.ac.jp/T/boar/vewAjax.php?i=",
                ),
                FeedCategory::Academic => (
                    "http://t-board.office.tuat.ac.jp/T/boar/resAjax.php?bAnno=1&par=20&skip=0",
                    "http://t-board.office.tuat.ac.jp/T/boar/vewAjax.php?i=",
                ),
            },
            Gakubu::Agriculture => match category {
                FeedCategory::Campus => (
                    "http://t-board.office.tuat.ac.jp/A/boar/resAjax.php?bAnno=0&par=20&skip=0",
                    "http://t-board.office.tuat.ac.jp/A/boar/vewAjax.php?i=",
                ),
                FeedCategory::Academic => (
                    "http://t-board.office.tuat.ac.jp/A/boar/resAjax.php?bAnno=1&par=20&skip=0",
                    "http://t-board.office.tuat.ac.jp/A/boar/vewAjax.php?i=",
                ),
            },
        };
        let r = Feed { feed_url, info_url, buffer: HashMap::new() };
        proof {
            assert(r.cache() =~= Map::<u32, PostV>::empty());
        }
        r
    }

    /// The feed's listing URL.
    pub fn listing_url(&self) -> (r: &str)
        ensures
            r@ == self.spec_feed_url(),
    {
        self.feed_url
    }

    /// The detail URL for one id: the detail prefix with the id's decimal
    /// notation appended.
    pub fn detail_url(&self, id: u32) -> (r: String)
        ensures
            r@ == self.spec_info_url() + spec_u32_str(id as nat),
    {
        let mut v = chars_of(self.info_url);
        let mut digits = u32_chars(id);
        v.append(&mut digits);
        string_of(&v)
    }

    /// The listing ids whose detail pages must be fetched: those not yet
    /// cached, first occurrence only, in listing order.
    pub fn pending_ids(&self, ids: &Vec<u32>) -> (r: Vec<u32>)
        ensures
            r@ == spec_pending(self.cache(), ids@),
    {
        let mut r: Vec<u32> = Vec::new();
        let mut i: usize = 0;
        while i < ids.len()
            invariant
                i <= ids.len(),
                r@ == spec_pending(self.cache(), ids@.take(i as int)),
            decreases ids.len() - i,
        {
            proof {
                assert(ids@.take(i + 1).drop_last() =~= ids@.take(i as int));
                assert(ids@.take(i + 1).last() == ids@[i as int]);
            }
            let id = ids[i];
            let cached = self.buffer.contains_key(&id);
            proof {
                assert(self.cache().contains_key(id) == self.buffer@.contains_key(id));
            }
            if !cached && !contains_u32(&r, id) {
                r.push(id);
            }
            i += 1;
        }
        proof {
            assert(ids@.take(ids@.len() as int) =~= ids@);
        }
        r
    }

    /// Folds the fetched records into the cache and produces the
    /// synchronized result: one record per resolvable listing entry, in
    /// listing order.  Records for ids whose fetch failed are simply not in
    /// `fetched`; those ids stay uncached and are omitted from the result.
    pub fn apply_sync(&mut self, ids: &Vec<u32>, fetched: &Vec<(u32, Post)>) -> (r: Vec<Post>)
        requires
            old(self).wf(),
            forall|i: int|
                0 <= i < fetched@.len() ==> (#[trigger] fetched@[i].1)@.post_id == fetched@[i].0,
        ensures
            final(self).cache() == spec_cache_after(old(self).cache(), fetched_view(fetched@)),
            final(self).wf(),
            r.deep_view() == spec_sync_result(final(self).cache(), ids@),
            final(self).spec_feed_url() == old(self).spec_feed_url(),
            final(self).spec_info_url() == old(self).spec_info_url(),
    {
        let ghost fv = fetched_view(fetched@);
        let mut j: usize = 0;
        while j < fetched.len()
            invariant
                j <= fetched.len(),
                fv == fetched_view(fetched@),
                fv.len() == fetched.len(),
                forall|i: int|
                    0 <= i < fetched@.len() ==> (#[trigger] fetched@[i].1)@.post_id
                        == fetched@[i].0,
                self.cache() == spec_cache_after(old(self).cache(), fv.take(j as int)),
                self.wf(),
                self.feed_url == old(self).feed_url,
                self.info_url == old(self).info_url,
            decreases fetched.len() - j,
        {
            let ghost before = self.cache();
            let id = fetched[j].0;
            let post = fetched[j].1.clone();
            self.buffer.insert(id, post);
            proof {
                assert(fv.take(j + 1).drop_last() =~= fv.take(j as int));
                assert(fv.take(j + 1).last() == fv[j as int]);
                assert(fv[j as int] == (fetched@[j as int].0, fetched@[j as int].1@));
                assert(self.cache() =~= before.insert(id, post@));
            }
            j += 1;
        }
        proof {
            assert(fv.take(fv.len() as int) =~= fv);
        }
        let mut out: Vec<Post> = Vec::new();
        let mut i: usize = 0;
        while i < ids.len()
            invariant
                i <= ids.len(),
                self.cache() == spec_cache_after(old(self).cache(), fv),
                self.wf(),
                self.feed_url == old(self).feed_url,
                self.info_url == old(self).info_url,
                out.deep_view() == spec_sync_result(self.cache(), ids@.take(i as int)),
            decreases ids.len() - i,
        {
            proof {
                assert(ids@.take(i + 1).drop_last() =~= ids@.take(i as int));
                assert(ids@.take(i + 1).last() == ids@[i as int]);
            }
            let id = ids[i];
            let ghost out_before = out.deep_view();
            match self.buffer.get(&id) {
                Some(p) => {
                    let c = p.clone();
                    proof {
                        assert(self.cache().contains_key(id));
                        assert(c@ == self.cache()[id]);
                    }
                    out.push(c);
                    proof {
                        assert(out.deep_view() =~= out_before.push(self.cache()[id]));
                    }
                },
                None => {
                    proof {
                        assert(!self.cache().contains_key(id));
                    }
                },
            }
            i += 1;
        }
        proof {
            assert(ids@.take(ids@.len() as int) =~= ids@);
        }
        out
    }
}

/// Incrementality: a synchronization fetches exactly the listing's new
/// ids.  The pending sequence has no duplicates — one fetch per new id —
/// and holds an id exactly when the listing holds it and the cache does
/// not.
pub proof fn lemma_pending_exactly_new(cache: Map<u32, PostV>, ids: Seq<u32>)
    ensures
        spec_pending(cache, ids).no_duplicates(),
        forall|id: u32|
            #[trigger] spec_pending(cache, ids).contains(id) <==> (ids.contains(id)
                && !cache.contains_key(id)),
    decreases ids.len(),
{
    if ids.len() > 0 {
        let pre_ids = ids.drop_last();
        let l = ids.last();
        lemma_pending_exactly_new(cache, pre_ids);
        let pre = spec_pending(cache, pre_ids);
        let cur = spec_pending(cache, ids);
        assert forall|id: u32| ids.contains(id) <==> (pre_ids.contains(id) || id == l) by {
            if ids.contains(id) {
                let k = choose|k: int| 0 <= k < ids.len() && ids[k] == id;
                if k < ids.len() - 1 {
                    assert(pre_ids[k] == id);
                    assert(pre_ids.contains(id));
                }
            }
            if pre_ids.contains(id) {
                let k = choose|k: int| 0 <= k < pre_ids.len() && pre_ids[k] == id;
                assert(ids[k] == id);
                assert(ids.contains(id));
            }
            if id == l {
                assert(ids[ids.len() - 1] == id);
                assert(ids.contains(id));
            }
        }
        if cache.contains_key(l) || pre.contains(l) {
            assert(cur == pre);
        } else {
            assert(cur == pre.push(l));
            assert forall|id: u32| cur.contains(id) <==> (pre.contains(id) || id == l) by {
                if cur.contains(id) {
                    let k = choose|k: int| 0 <= k < cur.len() && cur[k] == id;
                    if k < cur.len() - 1 {
                        assert(pre[k] == id);
                        assert(pre.contains(id));
                    }
                }
                if pre.contains(id) {
                    let k = choose|k: int| 0 <= k < pre.len() && pre[k] == id;
                    assert(cur[k] == id);
                    assert(cur.contains(id));
                }
                if id == l {
                    assert(cur[cur.len() - 1] == id);
                    assert(cur.contains(id));
                }
            }
            assert forall|i: int, j: int|
                0 <= i < cur.len() && 0 <= j < cur.len() && i != j implies cur[i] != cur[j] by {
                if i < pre.len() && j < pre.len() {
                    assert(pre[i] == cur[i] && pre[j] == cur[j]);
                } else if i < pre.len() && j == pre.len() {
                    if cur[i] == l {
                        assert(pre.contains(l));
                    }
                } else if j < pre.len() && i == pre.len() {
                    if cur[j] == l {
                        assert(pre.contains(l));
                    }
                }
            }
        }
    }
}

proof fn lemma_cache_after_keys(cache: Map<u32, PostV>, fetched: Seq<(u32, PostV)>)
    ensures
        forall|k: u32|
            #[trigger] spec_cache_after(cache, fetched).contains_key(k) <==> (cache.contains_key(k)
                || exists|i: int| 0 <= i < fetched.len() && (#[trigger] fetched[i]).0 == k),
    decreases fetched.len(),
{
    if fetched.len() > 0 {
        lemma_cache_after_keys(cache, fetched.drop_last());
        let pre = fetched.drop_last();
        assert forall|k: u32|
            #[trigger] spec_cache_after(cache, fetched).contains_key(k) <==> (cache.contains_key(k)
                || exists|i: int| 0 <= i < fetched.len() && (#[trigger] fetched[i]).0 == k) by {
            if spec_cache_after(cache, fetched).contains_key(k) {
                if k == fetched.last().0 {
                    assert((fetched[fetched.len() - 1]).0 == k);
                } else {
                    assert(spec_cache_after(cache, pre).contains_key(k));
                    if !cache.contains_key(k) {
                        let i = choose|i: int| 0 <= i < pre.len() && (#[trigger] pre[i]).0 == k;
                        assert((fetched[i]).0 == k);
                    }
                }
            }
            if exists|i: int| 0 <= i < fetched.len() && (#[trigger] fetched[i]).0 == k {
                let i = choose|i: int| 0 <= i < fetched.len() && (#[trigger] fetched[i]).0 == k;
                if i < fetched.len() - 1 {
                    assert((pre[i]).0 == k);
                    assert(spec_cache_after(cache, pre).contains_key(k));
                }
            }
            if cache.contains_key(k) {
                assert(spec_cache_after(cache, pre).contains_key(k));
            }
        }
    }
}

proof fn lemma_pending_empty_when_cached(cache: Map<u32, PostV>, ids: Seq<u32>)
    requires
        forall|i: int| 0 <= i < ids.len() ==> cache.contains_key(#[trigger] ids[i]),
    ensures
        spec_pending(cache, ids) == Seq::<u32>::empty(),
    decreases ids.len(),
{
    if ids.len() > 0 {
        assert(forall|i: int|
            0 <= i < ids.drop_last().len() ==> ids.drop_last()[i] == #[trigger] ids[i]);
        lemma_pending_empty_when_cached(cache, ids.drop_last());
        assert(cache.contains_key(ids[ids.len() - 1]));
    }
}

/// Idempotence: after a synchronization that fetched every pending id, an
/// unchanged listing leaves nothing pending.  A second synchronization
/// with the unchanged listing therefore fetches nothing, leaves the cache
/// as it stands, and returns the same record list.
pub proof fn lemma_synchronize_idempotent(
    cache: Map<u32, PostV>,
    ids: Seq<u32>,
    fetched: Seq<(u32, PostV)>,
)
    requires
        forall|id: u32|
            (exists|i: int| 0 <= i < fetched.len() && (#[trigger] fetched[i]).0 == id)
                <==> #[trigger] spec_pending(cache, ids).contains(id),
    ensures
        spec_pending(spec_cache_after(cache, fetched), ids) == Seq::<u32>::empty(),
        spec_cache_after(spec_cache_after(cache, fetched), Seq::<(u32, PostV)>::empty())
            == spec_cache_after(cache, fetched),
        spec_sync_result(
            spec_cache_after(spec_cache_after(cache, fetched), Seq::<(u32, PostV)>::empty()),
            ids,
        ) == spec_sync_result(spec_cache_after(cache, fetched), ids),
{
    lemma_cache_after_keys(cache, fetched);
    lemma_pending_exactly_new(cache, ids);
    let c2 = spec_cache_after(cache, fetched);
    assert forall|i: int| 0 <= i < ids.len() implies c2.contains_key(#[trigger] ids[i]) by {
        let id = ids[i];
        assert(ids.contains(id));
        if !cache.contains_key(id) {
            assert(spec_pending(cache, ids).contains(id));
        }
    }
    lemma_pending_empty_when_cached(c2, ids);
}

/// The cache never shrinks: every id cached before a synchronization is
/// still cached after it, whatever was fetched.  Ids are refreshed or kept,
/// never evicted.
pub proof fn lemma_cache_never_evicts(cache: Map<u32, PostV>, fetched: Seq<(u32, PostV)>)
    ensures
        forall|id: u32|
            cache.contains_key(id) ==> spec_cache_after(cache, fetched).contains_key(id),
{
    lemma_cache_after_keys(cache, fetched);
}

/// Listing-order preservation: with every listing id resolvable, the
/// result holds exactly one record per listing entry, and the record ids
/// appear in listing order.
pub proof fn lemma_result_order(cache: Map<u32, PostV>, ids: Seq<u32>)
    requires
        forall|i: int| 0 <= i < ids.len() ==> cache.contains_key(#[trigger] ids[i]),
        forall|id: u32| cache.contains_key(id) ==> (#[trigger] cache[id]).post_id == id,
    ensures
        spec_sync_result(cache, ids).len() == ids.len(),
        forall|i: int|
            0 <= i < ids.len() ==> (#[trigger] spec_sync_result(cache, ids)[i]).post_id == ids[i],
    decreases ids.len(),
{
    if ids.len() > 0 {
        assert(forall|i: int|
            0 <= i < ids.drop_last().len() ==> ids.drop_last()[i] == #[trigger] ids[i]);
        lemma_result_order(cache, ids.drop_last());
        assert(cache.contains_key(ids[ids.len() - 1]));
    }
}

/// The ids of a record sequence, in order.
pub open spec fn result_ids(posts: Seq<PostV>) -> Seq<u32> {
    posts.map_values(|p: PostV| p.post_id)
}

/// `ids` with every occurrence of `failed` removed, order kept.
pub open spec fn spec_ids_without(ids: Seq<u32>, failed: u32) -> Seq<u32>
    decreases ids.len(),
{
    if ids.len() == 0 {
        Seq::empty()
    } else {
        let pre = spec_ids_without(ids.drop_last(), failed);
        if ids.last() == failed {
            pre
        } else {
            pre.push(ids.last())
        }
    }
}

proof fn lemma_cache_after_wf(cache: Map<u32, PostV>, fetched: Seq<(u32, PostV)>)
    requires
        forall|id: u32| cache.contains_key(id) ==> (#[trigger] cache[id]).post_id == id,
        forall|i: int| 0 <= i < fetched.len() ==> (#[trigger] fetched[i]).1.post_id == fetched[i].0,
    ensures
        forall|id: u32|
            spec_cache_after(cache, fetched).contains_key(id) ==> (#[trigger] spec_cache_after(
                cache,
                fetched,
            )[id]).post_id == id,
    decreases fetched.len(),
{
    if fetched.len() > 0 {
        assert(forall|i: int|
            0 <= i < fetched.drop_last().len() ==> fetched.drop_last()[i] == #[trigger] fetched[i]);
        lemma_cache_after_wf(cache, fetched.drop_last());
        assert((fetched[fetched.len() - 1]).1.post_id == fetched[fetched.len() - 1].0);
    }
}

proof fn lemma_result_ids_filter(cache: Map<u32, PostV>, ids: Seq<u32>, failed: u32)
    requires
        !cache.contains_key(failed),
        forall|i: int| 0 <= i < ids.len() && ids[i] != failed ==> cache.contains_key(
            #[trigger] ids[i],
        ),
        forall|id: u32| cache.contains_key(id) ==> (#[trigger] cache[id]).post_id == id,
    ensures
        result_ids(spec_sync_result(cache, ids)) == spec_ids_without(ids, failed),
    decreases ids.len(),
{
    if ids.len() == 0 {
        assert(result_ids(spec_sync_result(cache, ids)) =~= spec_ids_without(ids, failed));
    } else {
        assert(forall|i: int|
            0 <= i < ids.drop_last().len() ==> ids.drop_last()[i] == #[trigger] ids[i]);
        lemma_result_ids_filter(cache, ids.drop_last(), failed);
        let l = ids.last();
        let pre = spec_sync_result(cache, ids.drop_last());
        if l == failed {
            assert(!cache.contains_key(l));
        } else {
            assert(cache.contains_key(ids[ids.len() - 1]));
            assert(result_ids(pre.push(cache[l])) =~= result_ids(pre).push(cache[l].post_id));
        }
    }
}

/// Partial-failure tolerance: if among the pending ids exactly `failed`
/// went unfetched, the synchronized result resolves every listing entry
/// except `failed`, in listing order, and nothing else fails.
pub proof fn lemma_partial_failure(
    cache: Map<u32, PostV>,
    ids: Seq<u32>,
    fetched: Seq<(u32, PostV)>,
    failed: u32,
)
    requires
        spec_pending(cache, ids).contains(failed),
        forall|id: u32|
            (exists|i: int| 0 <= i < fetched.len() && (#[trigger] fetched[i]).0 == id)
                <==> (#[trigger] spec_pending(cache, ids).contains(id) && id != failed),
        forall|id: u32| cache.contains_key(id) ==> (#[trigger] cache[id]).post_id == id,
        forall|i: int| 0 <= i < fetched.len() ==> (#[trigger] fetched[i]).1.post_id == fetched[i].0,
    ensures
        result_ids(spec_sync_result(spec_cache_after(cache, fetched), ids)) == spec_ids_without(
            ids,
            failed,
        ),
{
    let c2 = spec_cache_after(cache, fetched);
    lemma_cache_after_keys(cache, fetched);
    lemma_pending_exactly_new(cache, ids);
    lemma_cache_after_wf(cache, fetched);
    assert(!cache.contains_key(failed));
    assert(!c2.contains_key(failed));
    assert forall|i: int| 0 <= i < ids.len() && ids[i] != failed implies c2.contains_key(
        #[trigger] ids[i],
    ) by {
        let id = ids[i];
        assert(ids.contains(id));
        if !cache.contains_key(id) {
            assert(spec_pending(cache, ids).contains(id));
        }
    }
    lemma_result_ids_filter(c2, ids, failed);
}

} // verus!
