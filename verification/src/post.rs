//! The post record and the ordering the feed is read in.

use vstd::prelude::*;

verus! {

/// One posted message. Immutable once created: the store assigns `id` and
/// `created_at_ms` at acceptance and never changes a stored post.
#[derive(Debug, Clone, PartialEq, Eq)]
pub struct Post {
    /// Position of the post in insertion order; dense, starting at 0.
    pub id: usize,
    /// The post body, stored verbatim; may be empty, may be multi-byte.
    pub text: String,
    /// Milliseconds since an epoch, assigned at acceptance; non-decreasing
    /// with insertion order.
    pub created_at_ms: u128,
}

/// Why a feed operation failed.
#[derive(Debug, PartialEq, Eq)]
pub enum FeedError {
    /// The time source could not produce a timestamp; fatal to the one
    /// in-flight append, not to the store.
    ClockError,
    /// A page of size zero was requested; a caller error, no state change.
    InvalidPageSize,
}

/// `a` may stand at or before `b` in the displayed feed: newest first,
/// ties on the timestamp broken by the larger (later-assigned) id first.
pub open spec fn feed_le(a: Post, b: Post) -> bool {
    a.created_at_ms > b.created_at_ms || (a.created_at_ms == b.created_at_ms && a.id >= b.id)
}

/// The sequence is in feed order: newest first, ids descending on ties.
pub open spec fn feed_ordered(s: Seq<Post>) -> bool {
    forall|i: int, j: int| 0 <= i <= j < s.len() ==> feed_le(#[trigger] s[i], #[trigger] s[j])
}

/// An exact copy of a post, field for field.
pub fn clone_post(p: &Post) -> (r: Post)
    ensures
        r == *p,
{
    Post { id: p.id, text: p.text.clone(), created_at_ms: p.created_at_ms }
}

} // verus!
