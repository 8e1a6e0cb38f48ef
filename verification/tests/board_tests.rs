use server_core::board::{create_post, get_posts, AppState, CreatePost};
use server_core::leaky_bucket::rate_limit;

#[test]
fn board_numbers_posts_in_order() {
    let mut s = AppState::new(5_000_000_000, 1_000_000_000);
    assert_eq!(s.post_count(), 0);
    let (status, p) = create_post(&mut s, CreatePost { message: "hello".to_string() });
    assert_eq!(status, 201);
    assert_eq!(p.id, 1);
    let (_, q) = create_post(&mut s, CreatePost { message: "world".to_string() });
    assert_eq!(q.id, 2);
    let all = get_posts(&s);
    assert_eq!(all.len(), 2);
    assert_eq!(all[0].message, "hello");
    assert_eq!(all[1].id, 2);
    assert_eq!(all[1].message, "world");
}

#[test]
fn board_rate_limits() {
    let mut s = AppState::new(2_000_000_000, 1_000_000_000);
    assert!(rate_limit(&mut s.limiter).is_none());
    assert!(rate_limit(&mut s.limiter).is_none());
    let r = rate_limit(&mut s.limiter).expect("refused");
    assert_eq!(r.status, 429);
    assert_eq!(r.message, "Too many requests. Please slow down.");
}
