//! The post store behind the posts API: posts kept by id, ids handed out in
//! increasing order from 1, and the rate limiter that guards the API.

use vstd::prelude::*;
use std::collections::HashMap;
use crate::leaky_bucket::{BucketState, LeakyBucket};
use vstd::string::StringExecFns;

verus! {

broadcast use vstd::std_specs::hash::group_hash_axioms;

/// A stored post.
pub struct Post {
    pub id: u64,
    pub title: String,
    pub content: String,
}

/// The body of a request that creates a post.
pub struct CreatePost {
    pub title: String,
    pub content: String,
}

/// The mathematical form of a post.
pub struct PostView {
    pub id: u64,
    pub title: Seq<char>,
    pub content: Seq<char>,
}

impl View for Post {
    type V = PostView;

    open spec fn view(&self) -> PostView {
        PostView { id: self.id, title: self.title@, content: self.content@ }
    }
}

impl Post {
    /// A copy of the post.
    pub fn copy(&self) -> (res: Post)
        ensures
            res@ == self@,
    {
        Post { id: self.id, title: self.title.clone(), content: self.content.clone() }
    }
}

/// An error answer: HTTP status and message.
pub struct ApiError {
    pub status: u16,
    pub error: String,
}

/// `404 Not Found` with the message `Post not found`.
pub fn post_not_found() -> (res: ApiError)
    ensures
        res.status == 404,
        res.error@ == "Post not found"@,
{
    ApiError { status: 404, error: String::from_str("Post not found") }
}

/// The text of the API's home route.
pub fn home() -> (res: &'static str)
    ensures
        res@ == "Rate Limiter API"@,
{
    "Rate Limiter API"
}

/// The mathematical state of the store: the posts by id and the next id.
pub struct StoreView {
    pub posts: Map<u64, PostView>,
    pub next_id: nat,
}

/// A well-formed store: ids start at 1, every stored id is below the next id,
/// and each post is stored under its own id.
pub open spec fn store_wf(s: StoreView) -> bool {
    &&& s.next_id >= 1
    &&& forall|id: u64| #[trigger] s.posts.contains_key(id) ==> 1 <= id < s.next_id && s.posts[id].id == id
}

/// The post stored under `id`, if any.
pub open spec fn store_get(s: StoreView, id: u64) -> Option<PostView> {
    if s.posts.contains_key(id) {
        Some(s.posts[id])
    } else {
        None
    }
}

/// The store after creating a post from `payload` under the next id.
pub open spec fn store_create(s: StoreView, title: Seq<char>, content: Seq<char>) -> StoreView {
    StoreView {
        posts: s.posts.insert(s.next_id as u64, PostView { id: s.next_id as u64, title, content }),
        next_id: s.next_id + 1,
    }
}

/// The store after deleting `id`.
pub open spec fn store_delete(s: StoreView, id: u64) -> StoreView {
    StoreView { posts: s.posts.remove(id), next_id: s.next_id }
}

/// Whether `list` holds exactly the posts of `s`, in increasing order of id.
pub open spec fn lists_store(s: StoreView, list: Seq<PostView>) -> bool {
    &&& forall|i: int, j: int| 0 <= i < j < list.len() ==> list[i].id < list[j].id
    &&& forall|i: int| 0 <= i < list.len() ==> #[trigger] store_get(s, list[i].id) == Some(list[i])
    &&& forall|id: u64| #[trigger] s.posts.contains_key(id) ==> exists|i: int|
        0 <= i < list.len() && list[i].id == id
}

/// A created post can be read back under the id it was given, and every other
/// post reads as before.
pub proof fn law_get_after_create(s: StoreView, title: Seq<char>, content: Seq<char>, other: u64)
    requires
        store_wf(s),
        s.next_id < u64::MAX,
    ensures
        store_get(store_create(s, title, content), s.next_id as u64) == Some(
            PostView { id: s.next_id as u64, title, content },
        ),
        other != s.next_id ==> store_get(store_create(s, title, content), other) == store_get(s, other),
{
}

/// A deleted post reads as not found, and every other post reads as before.
pub proof fn law_get_after_delete(s: StoreView, id: u64, other: u64)
    ensures
        store_get(store_delete(s, id), id) is None,
        other != id ==> store_get(store_delete(s, other), id) == store_get(s, id),
{
}

/// Creating and deleting keep the store well formed; a created post's id was
/// free and is greater than every id in use.
pub proof fn law_store_operations_keep_wf(s: StoreView, title: Seq<char>, content: Seq<char>, id: u64)
    requires
        store_wf(s),
        s.next_id < u64::MAX,
    ensures
        store_wf(store_create(s, title, content)),
        store_wf(store_delete(s, id)),
        !s.posts.contains_key(s.next_id as u64),
        forall|k: u64| #[trigger] s.posts.contains_key(k) ==> k < s.next_id,
{
}

/// Taking an id: the store's next id is handed out and the counter moves on
/// by one; the posts are untouched.
pub open spec fn store_take_id(s: StoreView) -> (StoreView, u64) {
    (StoreView { next_id: s.next_id + 1, ..s }, s.next_id as u64)
}

/// `k` ids taken one after another: the store at the end and the ids in the
/// order they were handed out.
pub open spec fn store_take_ids(s: StoreView, k: nat) -> (StoreView, Seq<u64>)
    decreases k,
{
    if k == 0 {
        (s, Seq::empty())
    } else {
        let (before, ids) = store_take_ids(s, (k - 1) as nat);
        let (after, id) = store_take_id(before);
        (after, ids.push(id))
    }
}

/// Posts created one after another, each from a (title, content) pair.
pub open spec fn store_create_all(s: StoreView, payloads: Seq<(Seq<char>, Seq<char>)>) -> StoreView
    decreases payloads.len(),
{
    if payloads.len() == 0 {
        s
    } else {
        let before = store_create_all(s, payloads.drop_last());
        store_create(before, payloads.last().0, payloads.last().1)
    }
}

/// Deleting a post just created puts the posts back as they were; only the
/// id counter has moved on, so the id is not handed out again.
pub proof fn law_delete_undoes_create(s: StoreView, title: Seq<char>, content: Seq<char>)
    requires
        store_wf(s),
        s.next_id < u64::MAX,
    ensures
        store_delete(store_create(s, title, content), s.next_id as u64).posts == s.posts,
        store_delete(store_create(s, title, content), s.next_id as u64).next_id == s.next_id + 1,
{
    let id = s.next_id as u64;
    assert(!s.posts.contains_key(id));
    assert(s.posts.insert(id, PostView { id, title, content }).remove(id) =~= s.posts);
}

/// Ids taken one after another from a counter at `n` are exactly
/// `n, n + 1, ..., n + k - 1`, so no two are equal; the counter ends at
/// `n + k` and the posts are untouched.
pub proof fn law_ids_are_consecutive(s: StoreView, k: nat)
    ensures
        store_take_ids(s, k).1.len() == k,
        forall|i: int| 0 <= i < k ==> #[trigger] store_take_ids(s, k).1[i] == (s.next_id + i) as u64,
        store_take_ids(s, k).0.next_id == s.next_id + k,
        store_take_ids(s, k).0.posts == s.posts,
    decreases k,
{
    if k > 0 {
        law_ids_are_consecutive(s, (k - 1) as nat);
    }
}

/// Posts created one after another from a well-formed store whose counter is
/// at `n` get the ids `n, n + 1, ..., n + k - 1`: the `i`-th is stored under
/// `n + i` with its own title and content, no create overwrites another, the
/// posts that were there stay as they were, and the counter ends at `n + k`.
pub proof fn law_creates_take_consecutive_ids(s: StoreView, payloads: Seq<(Seq<char>, Seq<char>)>)
    requires
        store_wf(s),
        s.next_id + payloads.len() <= u64::MAX,
    ensures
        store_wf(store_create_all(s, payloads)),
        store_create_all(s, payloads).next_id == s.next_id + payloads.len(),
        forall|i: int| 0 <= i < payloads.len() ==> #[trigger] store_create_all(s, payloads.take(i)).next_id
            == s.next_id + i,
        forall|i: int|
            0 <= i < payloads.len() ==> #[trigger] store_get(
                store_create_all(s, payloads),
                (s.next_id + i) as u64,
            ) == Some(
                PostView { id: (s.next_id + i) as u64, title: payloads[i].0, content: payloads[i].1 },
            ),
        forall|id: u64| id < s.next_id ==> #[trigger] store_get(store_create_all(s, payloads), id) == store_get(s, id),
    decreases payloads.len(),
{
    if payloads.len() > 0 {
        let init = payloads.drop_last();
        law_creates_take_consecutive_ids(s, init);
        let before = store_create_all(s, init);
        let k = init.len();
        assert forall|i: int| 0 <= i < payloads.len() implies #[trigger] store_create_all(s, payloads.take(i)).next_id
            == s.next_id + i by {
            if i < k {
                assert(payloads.take(i) =~= init.take(i));
            } else {
                assert(payloads.take(i) =~= init);
            }
        }
        assert forall|i: int| 0 <= i < payloads.len() implies #[trigger] store_get(
                store_create_all(s, payloads),
                (s.next_id + i) as u64,
            ) == Some(
                PostView { id: (s.next_id + i) as u64, title: payloads[i].0, content: payloads[i].1 },
            ) by {
            if i < k {
                assert(payloads[i] == init[i]);
                assert(store_get(before, (s.next_id + i) as u64) == Some(
                    PostView { id: (s.next_id + i) as u64, title: init[i].0, content: init[i].1 },
                ));
            }
        }
        assert forall|id: u64| id < s.next_id implies #[trigger] store_get(store_create_all(s, payloads), id)
            == store_get(s, id) by {
            assert(store_get(before, id) == store_get(s, id));
            assert(id != before.next_id);
        }
    }
}

/// The views of a vector of posts.
pub open spec fn post_views(v: Seq<Post>) -> Seq<PostView> {
    v.map_values(|p: Post| p@)
}

/// The shared state of the posts API.
pub struct AppState {
    posts: HashMap<u64, Post>,
    next_id: u64,
    pub limiter: LeakyBucket,
}

impl AppState {
    /// The posts and the next id.
    pub closed spec fn store(&self) -> StoreView {
        StoreView {
            posts: self.posts@.map_values(|p: Post| p@),
            next_id: self.next_id as nat,
        }
    }

    /// The state of the rate limiter that guards the API.
    pub closed spec fn limiter_state(&self) -> BucketState {
        self.limiter.state()
    }

    /// The store is well formed (see `store_wf`).
    pub open spec fn wf(&self) -> bool {
        store_wf(self.store())
    }

    /// An empty store whose first post gets id 1, guarded by a bucket that
    /// holds five requests and leaks one request per second.
    pub fn new() -> (res: AppState)
        ensures
            res.store().posts == Map::<u64, PostView>::empty(),
            res.store().next_id == 1,
            res.wf(),
            res.limiter_state() == (BucketState {
                capacity: 5_000_000_000,
                leak_rate: 1_000_000_000,
                water: 0,
                last_check: 0,
            }),
    {
        let res = AppState { posts: HashMap::new(), next_id: 1, limiter: LeakyBucket::new(5_000_000_000, 1_000_000_000) };
        assert(res.store().posts =~= Map::<u64, PostView>::empty());
        res
    }

    /// The id that the next created post will get.
    pub fn next_id(&self) -> (res: u64)
        ensures
            res as nat == self.store().next_id,
    {
        self.next_id
    }

    /// Takes the next post id: returns it and moves the counter on by one.
    pub fn next_post_id(&mut self) -> (id: u64)
        requires
            old(self).wf(),
            old(self).store().next_id < u64::MAX,
        ensures
            final(self).wf(),
            (final(self).store(), id) == store_take_id(old(self).store()),
            final(self).limiter_state() == old(self).limiter_state(),
    {
        let id = self.next_id;
        self.next_id = id + 1;
        assert(self.store().posts == old(self).store().posts);
        id
    }
}

/// Lists every post, in increasing order of id.
pub fn get_posts(state: &AppState) -> (res: Vec<Post>)
    requires
        state.wf(),
    ensures
        lists_store(state.store(), post_views(res@)),
{
    let ghost s = state.store();
    let mut res: Vec<Post> = Vec::new();
    let mut id: u64 = 1;
    while id < state.next_id
        invariant
            s == state.store(),
            store_wf(s),
            1 <= id <= state.next_id,
            forall|i: int, j: int|
                0 <= i < j < res@.len() ==> res@[i].id < res@[j].id,
            forall|i: int| 0 <= i < res@.len() ==> 1 <= #[trigger] res@[i].id < id,
            forall|i: int|
                0 <= i < res@.len() ==> #[trigger] store_get(s, res@[i].id) == Some(res@[i]@),
            forall|k: u64|
                1 <= k < id && #[trigger] s.posts.contains_key(k) ==> exists|i: int|
                    0 <= i < res@.len() && res@[i].id == k,
        decreases state.next_id - id,
    {
        match state.posts.get(&id) {
            Some(p) => {
                let ghost before = res@;
                assert(s.posts.contains_key(id));
                assert(s.posts[id] == p@);
                res.push(p.copy());
                assert(res@[before.len() as int] == res@.last());
                assert forall|k: u64|
                    1 <= k < id + 1 && #[trigger] s.posts.contains_key(k) implies exists|i: int|
                    0 <= i < res@.len() && res@[i].id == k by {
                    if k == id {
                        assert(res@[before.len() as int].id == k);
                    } else {
                        let i = choose|i: int| 0 <= i < before.len() && before[i].id == k;
                        assert(res@[i] == before[i]);
                    }
                }
            },
            None => {
                assert(!s.posts.contains_key(id));
            },
        }
        id = id + 1;
    }
    let ghost list = post_views(res@);
    assert forall|i: int| 0 <= i < list.len() implies #[trigger] store_get(s, list[i].id) == Some(list[i]) by {
        assert(list[i] == res@[i]@);
    }
    assert forall|id: u64| #[trigger] s.posts.contains_key(id) implies exists|i: int|
        0 <= i < list.len() && list[i].id == id by {
        let i = choose|i: int| 0 <= i < res@.len() && res@[i].id == id;
        assert(list[i] == res@[i]@);
    }
    res
}

/// The post with the given id, or `post_not_found`.
pub fn get_post(state: &AppState, id: u64) -> (res: Result<Post, ApiError>)
    ensures
        match res {
            Ok(p) => store_get(state.store(), id) == Some(p@),
            Err(e) => store_get(state.store(), id) is None && e.status == 404 && e.error@
                == "Post not found"@,
        },
{
    match state.posts.get(&id) {
        Some(p) => Ok(p.copy()),
        None => Err(post_not_found()),
    }
}

/// Creates a post under the next id and answers `201 Created` with it.
pub fn create_post(state: &mut AppState, payload: CreatePost) -> (res: (u16, Post))
    requires
        old(state).wf(),
        old(state).store().next_id < u64::MAX,
    ensures
        final(state).wf(),
        res.0 == 201,
        res.1@ == (PostView {
            id: old(state).store().next_id as u64,
            title: payload.title@,
            content: payload.content@,
        }),
        final(state).store() == store_create(old(state).store(), payload.title@, payload.content@),
        final(state).limiter_state() == old(state).limiter_state(),
{
    let id = state.next_id;
    let post = Post { id, title: payload.title, content: payload.content };
    let reply = post.copy();
    let ghost before = state.store();
    state.posts.insert(id, post);
    state.next_id = id + 1;
    proof {
        assert(state.store().posts =~= before.posts.insert(id, reply@));
    }
    (201, reply)
}

/// Removes the post with the given id and returns it, or `post_not_found`.
pub fn delete_post(state: &mut AppState, id: u64) -> (res: Result<Post, ApiError>)
    ensures
        match res {
            Ok(p) => store_get(old(state).store(), id) == Some(p@),
            Err(e) => store_get(old(state).store(), id) is None && e.status == 404 && e.error@
                == "Post not found"@,
        },
        final(state).store() == store_delete(old(state).store(), id),
        old(state).wf() ==> final(state).wf(),
        final(state).limiter_state() == old(state).limiter_state(),
{
    let ghost before = state.store();
    let removed = state.posts.remove(&id);
    proof {
        assert(state.store().posts =~= before.posts.remove(id));
    }
    match removed {
        Some(p) => Ok(p),
        None => Err(post_not_found()),
    }
}

} // verus!
