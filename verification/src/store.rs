//! The append-only post store: the single source of truth for posts.
//!
//! The store assigns each accepted post the next dense id (the count of
//! posts already stored) and a timestamp that never runs backwards, and it
//! hands out independent snapshot copies for readers to sort and page
//! without holding the store. The surrounding layer decides how the store
//! is shared (one writer at a time, readers in parallel); every operation
//! here is a plain sequential call on the owned value.

use vstd::prelude::*;

use crate::clock::epoch_millis;
use crate::post::clone_post;
use crate::post::FeedError;
use crate::post::Post;

verus! {

/// Posts are stored in insertion order: the post at position `i` carries
/// id `i`, and timestamps never decrease along the sequence.
pub open spec fn store_wf(s: Seq<Post>) -> bool {
    &&& forall|i: int| 0 <= i < s.len() ==> (#[trigger] s[i]).id == i
    &&& forall|i: int, j: int|
        0 <= i <= j < s.len() ==> (#[trigger] s[i]).created_at_ms <= (#[trigger] s[j]).created_at_ms
}

/// The timestamp a post accepted now receives: the clock reading, unless
/// the clock stepped back behind the newest stored post, in which case the
/// newest stored timestamp is kept so that timestamps never decrease.
pub open spec fn accepted_time(s: Seq<Post>, now_ms: u128) -> u128 {
    if s.len() > 0 && s.last().created_at_ms > now_ms {
        s.last().created_at_ms
    } else {
        now_ms
    }
}

/// Ids are monotonic and dense: in a well-formed store the post at
/// position `i` carries id `i`, so after `N` accepted appends the ids are
/// exactly `0 .. N-1`, with no duplicates and no gaps.
pub proof fn lemma_monotonic_ids(s: Seq<Post>)
    requires
        store_wf(s),
    ensures
        forall|i: int| 0 <= i < s.len() ==> (#[trigger] s[i]).id == i,
        forall|i: int, j: int|
            0 <= i < j < s.len() ==> (#[trigger] s[i]).id != (#[trigger] s[j]).id,
{
}

/// Timestamps are monotonic: of any two posts in a well-formed store, the
/// one inserted earlier carries a timestamp at or before the later one's.
pub proof fn lemma_timestamps_monotonic(s: Seq<Post>)
    requires
        store_wf(s),
    ensures
        forall|i: int, j: int|
            0 <= i <= j < s.len() ==> (#[trigger] s[i]).created_at_ms
                <= (#[trigger] s[j]).created_at_ms,
{
}

/// Snapshot isolation: a snapshot taken before an append never holds the
/// appended post (its id is the store's length, and every held post's id
/// lies below it), and the store after the append always holds it.
pub proof fn lemma_snapshot_isolation(s: Seq<Post>, p: Post)
    requires
        store_wf(s),
        p.id == s.len(),
    ensures
        !s.contains(p),
        s.push(p).contains(p),
{
    if s.contains(p) {
        let i = choose|i: int| 0 <= i < s.len() && s[i] == p;
        assert(s[i].id == i);
    }
    assert(s.push(p)[s.len() as int] == p);
}

/// The growable, append-only collection of posts plus nothing else: the
/// next id is the current count, so there is no separate counter to drift.
pub struct PostStore {
    posts: Vec<Post>,
}

impl View for PostStore {
    type V = Seq<Post>;

    closed spec fn view(&self) -> Seq<Post> {
        self.posts@
    }
}

impl PostStore {
    #[verifier::type_invariant]
    spec fn type_inv(&self) -> bool {
        store_wf(self@)
    }

    /// A fresh, empty store.
    pub fn new() -> (s: Self)
        ensures
            s@ == Seq::<Post>::empty(),
    {
        PostStore { posts: Vec::new() }
    }

    /// Every store reachable through this interface is well formed.
    pub fn well_formed(&self)
        ensures
            store_wf(self@),
    {
        proof {
            use_type_invariant(self);
        }
    }

    /// How many posts the store holds.
    pub fn len(&self) -> (n: usize)
        ensures
            n == self@.len(),
    {
        self.posts.len()
    }

    /// Accept a post with the given clock reading: the post is appended at
    /// the end, its id is the count of posts already stored, its text is
    /// kept verbatim, and its timestamp is the clock reading clamped so
    /// that timestamps never decrease along the store.
    pub fn append_at(&mut self, text: String, now_ms: u128) -> (p: Post)
        ensures
            final(self)@ == old(self)@.push(p),
            p.id == old(self)@.len(),
            p.text == text,
            p.created_at_ms == accepted_time(old(self)@, now_ms),
    {
        proof {
            use_type_invariant(&*self);
        }
        let id = self.posts.len();
        let created_at_ms = if self.posts.len() > 0 {
            let last_ms = self.posts[self.posts.len() - 1].created_at_ms;
            if last_ms > now_ms {
                last_ms
            } else {
                now_ms
            }
        } else {
            now_ms
        };
        let stored = Post { id, text, created_at_ms };
        let p = clone_post(&stored);
        let mut posts: Vec<Post> = Vec::new();
        core::mem::swap(&mut self.posts, &mut posts);
        posts.push(stored);
        core::mem::swap(&mut self.posts, &mut posts);
        p
    }

    /// Accept a post, timestamped from the wall clock. Fails only when the
    /// time source yields no timestamp, and then leaves the store
    /// unchanged; on success the post is appended with the next dense id,
    /// the text verbatim, and a timestamp at or after every stored one.
    pub fn append(&mut self, text: String) -> (r: Result<Post, FeedError>)
        ensures
            r is Err ==> final(self)@ == old(self)@ && r->Err_0 == FeedError::ClockError,
            r is Ok ==> final(self)@ == old(self)@.push(r->Ok_0),
            r is Ok ==> r->Ok_0.id == old(self)@.len() && r->Ok_0.text == text,
            r is Ok ==> forall|i: int|
                0 <= i < old(self)@.len()
                    ==> (#[trigger] old(self)@[i]).created_at_ms <= r->Ok_0.created_at_ms,
    {
        proof {
            use_type_invariant(&*self);
        }
        match epoch_millis() {
            Some(now_ms) => Ok(self.append_at(text, now_ms)),
            None => Err(FeedError::ClockError),
        }
    }

    /// An independent copy of all posts in insertion order: the caller may
    /// sort and page it with no further coordination, and later appends do
    /// not show up in it.
    pub fn snapshot(&self) -> (r: Vec<Post>)
        ensures
            r@ == self@,
    {
        let mut r: Vec<Post> = Vec::new();
        let mut i: usize = 0;
        while i < self.posts.len()
            invariant
                i <= self.posts.len(),
                r@ == self.posts@.subrange(0, i as int),
            decreases self.posts.len() - i,
        {
            r.push(clone_post(&self.posts[i]));
            i = i + 1;
            proof {
                assert(r@ =~= self.posts@.subrange(0, i as int));
            }
        }
        proof {
            assert(r@ =~= self.posts@);
        }
        r
    }
}

} // verus!
