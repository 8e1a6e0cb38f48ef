//! The message board of the rate-limited API: posts numbered 1, 2, 3, ... in
//! the order they are created, behind a leaky-bucket rate limiter.

use vstd::prelude::*;
use crate::leaky_bucket::{BucketState, LeakyBucket};

verus! {

/// A post on the board.
pub struct Post {
    pub id: usize,
    pub message: String,
}

/// The body of a request that creates a post.
pub struct CreatePost {
    pub message: String,
}

/// The mathematical form of a post.
pub struct PostView {
    pub id: usize,
    pub message: Seq<char>,
}

impl View for Post {
    type V = PostView;

    open spec fn view(&self) -> PostView {
        PostView { id: self.id, message: self.message@ }
    }
}

impl Post {
    /// A copy of the post.
    pub fn copy(&self) -> (res: Post)
        ensures
            res@ == self@,
    {
        Post { id: self.id, message: self.message.clone() }
    }
}

/// The views of a vector of posts.
pub open spec fn post_views(v: Seq<Post>) -> Seq<PostView> {
    v.map_values(|p: Post| p@)
}

/// Posts numbered in order: the post at position `i` has id `i + 1`.
pub open spec fn numbered(posts: Seq<PostView>) -> bool {
    forall|i: int| 0 <= i < posts.len() ==> #[trigger] posts[i].id == i + 1
}

/// The board after creating a post with `message`.
pub open spec fn board_create(posts: Seq<PostView>, message: Seq<char>) -> Seq<PostView> {
    posts.push(PostView { id: (posts.len() + 1) as usize, message })
}

/// The shared state of the rate-limited message board.
pub struct AppState {
    posts: Vec<Post>,
    pub limiter: LeakyBucket,
}

impl AppState {
    /// The posts, in order of creation.
    pub closed spec fn posts(&self) -> Seq<PostView> {
        post_views(self.posts@)
    }

    /// The state of the rate limiter that guards the board.
    pub closed spec fn limiter_state(&self) -> BucketState {
        self.limiter.state()
    }

    /// An empty board guarded by a bucket that holds `capacity` billionths of
    /// a request and leaks `leak_rate` billionths of a request per second.
    pub fn new(capacity: u64, leak_rate: u64) -> (res: AppState)
        ensures
            res.posts() == Seq::<PostView>::empty(),
            res.limiter_state() == (BucketState {
                capacity: capacity as nat,
                leak_rate: leak_rate as nat,
                water: 0,
                last_check: 0,
            }),
    {
        let res = AppState { posts: Vec::new(), limiter: LeakyBucket::new(capacity, leak_rate) };
        assert(res.posts() =~= Seq::<PostView>::empty());
        res
    }

    /// The number of posts.
    pub fn post_count(&self) -> (n: usize)
        ensures
            n == self.posts().len(),
    {
        self.posts.len()
    }
}

/// Every post, in order of creation.
pub fn get_posts(state: &AppState) -> (res: Vec<Post>)
    ensures
        post_views(res@) == state.posts(),
{
    let mut res: Vec<Post> = Vec::new();
    let mut i: usize = 0;
    while i < state.posts.len()
        invariant
            i <= state.posts@.len(),
            post_views(res@) == post_views(state.posts@).take(i as int),
        decreases state.posts@.len() - i,
    {
        let ghost before = res@;
        res.push(state.posts[i].copy());
        assert(post_views(res@) =~= post_views(state.posts@).take(i + 1)) by {
            assert(post_views(res@) =~= post_views(before).push(state.posts@[i as int]@));
        }
        i = i + 1;
    }
    assert(post_views(state.posts@).take(i as int) =~= post_views(state.posts@));
    res
}

/// Creates a post numbered one past the last and answers `201 Created` with it.
pub fn create_post(state: &mut AppState, payload: CreatePost) -> (res: (u16, Post))
    requires
        old(state).posts().len() < usize::MAX,
    ensures
        res.0 == 201,
        res.1@ == (PostView { id: (old(state).posts().len() + 1) as usize, message: payload.message@ }),
        final(state).posts() == board_create(old(state).posts(), payload.message@),
        final(state).limiter_state() == old(state).limiter_state(),
{
    let post = Post { id: state.posts.len() + 1, message: payload.message };
    let reply = post.copy();
    let ghost before = state.posts@;
    state.posts.push(post);
    assert(post_views(state.posts@) =~= post_views(before).push(reply@));
    (201, reply)
}


/// A new board has no posts, and each created post keeps the posts numbered
/// 1, 2, 3, ... in order.
pub proof fn law_board_stays_numbered(posts: Seq<PostView>, message: Seq<char>)
    requires
        numbered(posts),
        posts.len() < usize::MAX,
    ensures
        numbered(board_create(posts, message)),
        numbered(Seq::<PostView>::empty()),
{
    let after = board_create(posts, message);
    assert forall|i: int| 0 <= i < after.len() implies #[trigger] after[i].id == i + 1 by {
        if i < posts.len() {
            assert(after[i] == posts[i]);
        }
    }
}

/// A created post is listed last, after all the posts that were there.
pub proof fn law_created_post_listed_last(posts: Seq<PostView>, message: Seq<char>)
    ensures
        board_create(posts, message).len() == posts.len() + 1,
        board_create(posts, message).take(posts.len() as int) == posts,
        board_create(posts, message).last().message == message,
{
    assert(board_create(posts, message).take(posts.len() as int) =~= posts);
}

} // verus!
