use server_core::leaky_bucket::rate_limit;
use server_core::posts::{
    create_post, delete_post, get_post, get_posts, home, post_not_found, AppState, CreatePost,
};

fn payload(t: &str, c: &str) -> CreatePost {
    CreatePost { title: t.to_string(), content: c.to_string() }
}

#[test]
fn created_posts_get_increasing_ids() {
    let mut s = AppState::new();
    assert_eq!(s.next_id(), 1);
    let (status, p) = create_post(&mut s, payload("a", "x"));
    assert_eq!(status, 201);
    assert_eq!(p.id, 1);
    let (_, q) = create_post(&mut s, payload("b", "y"));
    assert_eq!(q.id, 2);
    assert_eq!(s.next_id(), 3);
}

#[test]
fn read_after_create_and_delete() {
    let mut s = AppState::new();
    let (_, p) = create_post(&mut s, payload("title", "content"));
    let got = get_post(&s, p.id).ok().expect("present");
    assert_eq!(got.title, "title");
    assert_eq!(got.content, "content");
    let removed = delete_post(&mut s, p.id).ok().expect("removed");
    assert_eq!(removed.id, p.id);
    let e = get_post(&s, p.id).err().expect("gone");
    assert_eq!(e.status, 404);
    assert_eq!(e.error, "Post not found");
    assert_eq!(delete_post(&mut s, p.id).err().expect("gone").status, 404);
}

#[test]
fn listing_is_sorted_by_id() {
    let mut s = AppState::new();
    for i in 0..5 {
        create_post(&mut s, payload(&format!("t{i}"), "c"));
    }
    delete_post(&mut s, 2).ok();
    delete_post(&mut s, 4).ok();
    let ids: Vec<u64> = get_posts(&s).iter().map(|p| p.id).collect();
    assert_eq!(ids, vec![1, 3, 5]);
    let (_, p) = create_post(&mut s, payload("new", "c"));
    assert_eq!(p.id, 6);
    let ids: Vec<u64> = get_posts(&s).iter().map(|p| p.id).collect();
    assert_eq!(ids, vec![1, 3, 5, 6]);
}

#[test]
fn next_post_id_hands_out_ids() {
    let mut s = AppState::new();
    assert_eq!(s.next_post_id(), 1);
    assert_eq!(s.next_post_id(), 2);
    let (_, p) = create_post(&mut s, payload("a", "b"));
    assert_eq!(p.id, 3);
}

#[test]
fn fixed_texts() {
    assert_eq!(home(), "Rate Limiter API");
    let e = post_not_found();
    assert_eq!(e.status, 404);
    assert_eq!(e.error, "Post not found");
}

#[test]
fn state_rate_limits_after_five_requests() {
    let mut s = AppState::new();
    for _ in 0..5 {
        assert!(rate_limit(&mut s.limiter).is_none());
    }
    assert_eq!(rate_limit(&mut s.limiter).expect("refused").status, 429);
}

#[test]
fn delete_after_create_puts_the_posts_back() {
    let mut s = AppState::new();
    create_post(&mut s, payload("keep", "me"));
    let before: Vec<(u64, String)> = get_posts(&s).iter().map(|p| (p.id, p.title.clone())).collect();
    let (_, p) = create_post(&mut s, payload("temp", "gone soon"));
    assert_eq!(p.id, 2);
    let removed = delete_post(&mut s, p.id).ok().expect("removed");
    assert_eq!(removed.id, 2);
    assert_eq!(removed.title, "temp");
    assert_eq!(removed.content, "gone soon");
    let after: Vec<(u64, String)> = get_posts(&s).iter().map(|p| (p.id, p.title.clone())).collect();
    assert_eq!(after, before);
    assert_eq!(s.next_id(), 3);
}

#[test]
fn consecutive_creates_take_consecutive_ids() {
    let mut s = AppState::new();
    s.next_post_id();
    s.next_post_id();
    let mut ids = Vec::new();
    for i in 0..4 {
        let (_, p) = create_post(&mut s, payload(&format!("t{i}"), "c"));
        ids.push(p.id);
    }
    assert_eq!(ids, vec![3, 4, 5, 6]);
    assert_eq!(s.next_id(), 7);
    for (i, id) in ids.iter().enumerate() {
        let p = get_post(&s, *id).ok().expect("stored");
        assert_eq!(p.title, format!("t{i}"));
    }
}
