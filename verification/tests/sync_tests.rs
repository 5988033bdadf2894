use tuat_feed::compat::PostCompatv1;
use tuat_feed::post::{Info, Post};
use tuat_feed::serve::{select_posts, Category, ResponseType, Status};
use tuat_feed::strmap::StrMap;
use tuat_feed::sync::{Feed, FeedCategory, Gakubu};

fn fetched_for(ids: &[u32]) -> Vec<(u32, Post)> {
    ids.iter().map(|&id| (id, Post::new(id))).collect()
}

fn result_ids(posts: &[Post]) -> Vec<u32> {
    posts.iter().map(|p| p.post_id).collect()
}

#[test]
fn feed_urls() {
    let feed = Feed::new(Gakubu::Technology, FeedCategory::Academic);
    assert_eq!(
        feed.listing_url(),
        "http://t-board.office.tuat.ac.jp/T/boar/resAjax.php?bAnno=1&par=20&skip=0",
    );
    assert_eq!(
        feed.detail_url(10641),
        "http://t-board.office.tuat.ac.jp/T/boar/vewAjax.php?i=10641",
    );
    let feed = Feed::new(Gakubu::Agriculture, FeedCategory::Campus);
    assert_eq!(
        feed.listing_url(),
        "http://t-board.office.tuat.ac.jp/A/boar/resAjax.php?bAnno=0&par=20&skip=0",
    );
}

#[test]
fn incrementality_one_new_fetch() {
    let mut feed = Feed::new(Gakubu::Technology, FeedCategory::Academic);
    let ids = vec![1, 2, 3];
    feed.apply_sync(&ids, &fetched_for(&[1, 2, 3]));
    let ids = vec![1, 2, 3, 4];
    assert_eq!(feed.pending_ids(&ids), vec![4]);
}

#[test]
fn idempotence_second_sync_fetches_nothing() {
    let mut feed = Feed::new(Gakubu::Technology, FeedCategory::Academic);
    let ids = vec![10, 7, 3];
    let pending = feed.pending_ids(&ids);
    assert_eq!(pending, vec![10, 7, 3]);
    let r1 = feed.apply_sync(&ids, &fetched_for(&pending));
    assert!(feed.pending_ids(&ids).is_empty());
    let r2 = feed.apply_sync(&ids, &Vec::new());
    assert_eq!(r1, r2);
}

#[test]
fn listing_order_preserved() {
    let mut feed = Feed::new(Gakubu::Technology, FeedCategory::Campus);
    let ids = vec![10, 7, 3];
    let r = feed.apply_sync(&ids, &fetched_for(&[10, 7, 3]));
    assert_eq!(result_ids(&r), vec![10, 7, 3]);
}

#[test]
fn partial_failure_skips_only_failed() {
    let mut feed = Feed::new(Gakubu::Technology, FeedCategory::Academic);
    let ids = vec![1, 2, 3];
    let r = feed.apply_sync(&ids, &fetched_for(&[1, 3]));
    assert_eq!(result_ids(&r), vec![1, 3]);
    assert_eq!(feed.pending_ids(&ids), vec![2]);
}

#[test]
fn duplicate_listing_ids_fetch_once() {
    let mut feed = Feed::new(Gakubu::Technology, FeedCategory::Academic);
    let ids = vec![5, 5];
    assert_eq!(feed.pending_ids(&ids), vec![5]);
    let r = feed.apply_sync(&ids, &fetched_for(&[5]));
    assert_eq!(result_ids(&r), vec![5, 5]);
}

#[test]
fn cache_never_evicts() {
    let mut feed = Feed::new(Gakubu::Technology, FeedCategory::Academic);
    feed.apply_sync(&vec![1], &fetched_for(&[1]));
    feed.apply_sync(&vec![2], &fetched_for(&[2]));
    assert!(feed.pending_ids(&vec![1]).is_empty());
    assert!(feed.pending_ids(&vec![2]).is_empty());
}

#[test]
fn strmap_insert_replaces() {
    let mut m = StrMap::new();
    m.insert("k".to_string(), "1".to_string());
    m.insert("k".to_string(), "2".to_string());
    assert_eq!(m.get("k").map(|s| s.as_str()), Some("2"));
    assert_eq!(m.pairs().len(), 1);
    assert!(m.get("missing").is_none());
}

#[test]
fn compat_projection() {
    let mut post = Post::new(1);
    post.title = Some("T".to_string());
    post.updated_date = Some("2021-10-07".to_string());
    post.show_date = Some(("2021-10-07".to_string(), "2022-03-31".to_string()));
    post.attachment.insert("a.pdf".to_string(), "http://x/a.pdf".to_string());
    post.other.insert("misc".to_string(), "v".to_string());
    let compat = PostCompatv1::from_post(post);
    assert_eq!(compat.post_id, 1);
    assert_eq!(compat.data.get("タイトル").map(|s| s.as_str()), Some("T"));
    assert_eq!(
        compat.data.get("最終更新日").map(|s| s.as_str()),
        Some("2021/10/07(XXX)"),
    );
    assert_eq!(
        compat.data.get("公開期間").map(|s| s.as_str()),
        Some("2021/10/07(XXX) 〜 2022/03/31(XXX)"),
    );
    assert_eq!(
        compat.data.get("添付ファイル").map(|s| s.as_str()),
        Some("[a.pdf](http://x/a.pdf)"),
    );
    assert_eq!(compat.data.get("misc").map(|s| s.as_str()), Some("v"));
    assert!(compat.data.get("本文").is_none());
}

#[test]
fn select_posts_routes_by_category() {
    let academic = vec![Post::new(1), Post::new(2)];
    let campus = vec![Post::new(10)];
    let all = select_posts(Category::All, academic.clone(), campus.clone());
    assert_eq!(result_ids(&all), vec![1, 2, 10]);
    let a = select_posts(Category::Academic, academic.clone(), campus.clone());
    assert_eq!(result_ids(&a), vec![1, 2]);
    let c = select_posts(Category::Campus, academic, campus);
    assert_eq!(result_ids(&c), vec![10]);
}

#[test]
fn defaults_for_query_fields() {
    assert_eq!(Gakubu::default(), Gakubu::Technology);
    assert_eq!(Category::default(), Category::All);
}

#[test]
fn response_wraps_success_and_failure() {
    let ok = ResponseType::from_data_result(Ok(vec![Info::new(3)]));
    assert_eq!(ok.status, Status::Success);
    assert_eq!(ok.data.as_ref().map(|v| v.len()), Some(1));
    let err = ResponseType::from_data_result(Err("boom".to_string()));
    assert_eq!(err.status, Status::Error("boom".to_string()));
    assert!(err.data.is_none());
}
