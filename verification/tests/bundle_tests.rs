use std::time::Instant;

use tuat_feed::bundle::InfoBundle;
use tuat_feed::post::{Info, Post};

#[test]
fn simple() {
    assert_eq!(1 + 1, 2);
}

#[test]
fn infosection_update() {
    let mut section = InfoBundle::new(vec![Info::new(0)], Instant::now());
    let InfoBundle { post: info, last_checked } = section.clone();
    section.update(vec![Info::new(1)]);
    assert!(section.last_checked > last_checked);
    assert_ne!(section.post[0], info[0]);
}

#[test]
fn test_info_bundle_update() {
    let mut section = InfoBundle::new(vec![Post::new(0)], Instant::now());
    let InfoBundle { post: info, last_checked } = section.clone();
    section.update(vec![Post::new(1)]);
    assert!(section.last_checked > last_checked);
    assert_ne!(section.post[0], info[0]);
}

#[test]
fn bundle_update_replaces_whole_list() {
    let mut bundle = InfoBundle::new(vec![Post::new(1), Post::new(2)], Instant::now());
    bundle.update(vec![Post::new(9)]);
    assert_eq!(bundle.post.len(), 1);
    assert_eq!(bundle.post[0].post_id, 9);
}
