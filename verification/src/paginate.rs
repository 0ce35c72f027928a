//! The pure pagination layer: sort a snapshot newest-first and cut one
//! bounded page out of it, with a flag that tells the caller whether more
//! pages follow. Both the initial render and every lazy-load request go
//! through this one routine, so the two always agree on the order.

use vstd::prelude::*;
use vstd::arithmetic::div_mod::lemma_fundamental_div_mod;
use vstd::arithmetic::div_mod::lemma_mod_bound;
use vstd::arithmetic::mul::lemma_mul_inequality;
use vstd::seq_lib::lemma_multiset_commutative;

use crate::post::clone_post;
use crate::post::feed_le;
use crate::post::feed_ordered;
use crate::post::FeedError;
use crate::post::Post;

verus! {

/// `p` placed into `s` at the first position whose element it may precede
/// or tie with; equal keys keep the element already present later, so
/// inserting the elements of a sequence back to front is stable.
pub open spec fn sorted_insert(p: Post, s: Seq<Post>) -> Seq<Post>
    decreases s.len(),
{
    if s.len() == 0 {
        seq![p]
    } else if feed_le(p, s[0]) {
        seq![p] + s
    } else {
        seq![s[0]] + sorted_insert(p, s.drop_first())
    }
}

/// The snapshot in display order: newest first, ties on the timestamp
/// broken by the larger id first. Defined as a stable insertion sort, so
/// the result is a fixed function of the input sequence.
pub open spec fn sort_feed(s: Seq<Post>) -> Seq<Post>
    decreases s.len(),
{
    if s.len() == 0 {
        Seq::empty()
    } else {
        sorted_insert(s[0], sort_feed(s.drop_first()))
    }
}

/// Exec comparison matching `feed_le`.
fn feed_le_exec(a: &Post, b: &Post) -> (r: bool)
    ensures
        r == feed_le(*a, *b),
{
    a.created_at_ms > b.created_at_ms || (a.created_at_ms == b.created_at_ms && a.id >= b.id)
}

/// Inserting at the first index whose element `p` may precede yields
/// exactly `sorted_insert`.
proof fn lemma_sorted_insert_at(p: Post, s: Seq<Post>, j: int)
    requires
        0 <= j <= s.len(),
        forall|k: int| 0 <= k < j ==> !feed_le(p, #[trigger] s[k]),
        j < s.len() ==> feed_le(p, s[j]),
    ensures
        sorted_insert(p, s) == s.insert(j, p),
    decreases j,
{
    if j == 0 {
        assert(sorted_insert(p, s) =~= s.insert(0, p));
    } else {
        assert(!feed_le(p, s[0]));
        lemma_sorted_insert_at(p, s.drop_first(), j - 1);
        assert(seq![s[0]] + s.drop_first().insert(j - 1, p) =~= s.insert(j, p));
    }
}

/// Place one post into an already built prefix of the sorted feed.
fn insert_post(p: Post, v: Vec<Post>) -> (r: Vec<Post>)
    ensures
        r@ == sorted_insert(p, v@),
{
    let mut v = v;
    let mut j: usize = 0;
    while j < v.len() && !feed_le_exec(&p, &v[j])
        invariant
            j <= v.len(),
            forall|k: int| 0 <= k < j ==> !feed_le(p, #[trigger] v@[k]),
        decreases v.len() - j,
    {
        j = j + 1;
    }
    proof {
        lemma_sorted_insert_at(p, v@, j as int);
    }
    v.insert(j, p);
    v
}

/// Sort a snapshot into display order. The result is exactly `sort_feed`
/// of the input, so every caller sees one and the same order.
pub fn sort_posts(v: Vec<Post>) -> (r: Vec<Post>)
    ensures
        r@ == sort_feed(v@),
{
    let ghost orig = v@;
    let mut v = v;
    let mut r: Vec<Post> = Vec::new();
    proof {
        assert(orig.subrange(0, orig.len() as int) =~= orig);
        assert(orig.subrange(orig.len() as int, orig.len() as int) =~= Seq::<Post>::empty());
    }
    while v.len() > 0
        invariant
            v@.len() <= orig.len(),
            v@ == orig.subrange(0, v@.len() as int),
            r@ == sort_feed(orig.subrange(v@.len() as int, orig.len() as int)),
        decreases v.len(),
    {
        let ghost k = v@.len() as int - 1;
        let p = v.pop().unwrap();
        proof {
            assert(v@ =~= orig.subrange(0, k));
            assert(p == orig[k]);
            let tail = orig.subrange(k, orig.len() as int);
            assert(tail[0] == orig[k]);
            assert(tail.drop_first() =~= orig.subrange(k + 1, orig.len() as int));
        }
        r = insert_post(p, r);
    }
    proof {
        assert(orig.subrange(0, orig.len() as int) =~= orig);
    }
    r
}

/// Placing one post into a sequence grows it by one.
pub proof fn lemma_sorted_insert_len(p: Post, s: Seq<Post>)
    ensures
        sorted_insert(p, s).len() == s.len() + 1,
    decreases s.len(),
{
    if s.len() == 0 {
    } else if feed_le(p, s[0]) {
    } else {
        lemma_sorted_insert_len(p, s.drop_first());
    }
}

/// Sorting keeps the length.
pub proof fn lemma_sort_feed_len(s: Seq<Post>)
    ensures
        sort_feed(s).len() == s.len(),
    decreases s.len(),
{
    if s.len() > 0 {
        lemma_sort_feed_len(s.drop_first());
        lemma_sorted_insert_len(s[0], sort_feed(s.drop_first()));
    }
}

/// A bound below every element (in feed order) still bounds the sequence
/// after one more post at or above the bound is placed into it.
proof fn lemma_sorted_insert_lower_bound(p: Post, s: Seq<Post>, b: Post)
    requires
        feed_le(b, p),
        forall|k: int| 0 <= k < s.len() ==> feed_le(b, #[trigger] s[k]),
    ensures
        forall|k: int|
            0 <= k < sorted_insert(p, s).len() ==> feed_le(b, #[trigger] sorted_insert(p, s)[k]),
    decreases s.len(),
{
    if s.len() == 0 {
    } else if feed_le(p, s[0]) {
        let r = seq![p] + s;
        assert forall|k: int| 0 <= k < r.len() implies feed_le(b, r[k]) by {
            if k > 0 {
                assert(r[k] == s[k - 1]);
            }
        }
    } else {
        let rest = s.drop_first();
        assert(forall|k: int| 0 <= k < rest.len() ==> #[trigger] rest[k] == s[k + 1]);
        lemma_sorted_insert_lower_bound(p, rest, b);
        let r = seq![s[0]] + sorted_insert(p, rest);
        assert forall|k: int| 0 <= k < r.len() implies feed_le(b, r[k]) by {
            if k > 0 {
                assert(r[k] == sorted_insert(p, rest)[k - 1]);
            }
        }
    }
}

/// Placing a post into a feed-ordered sequence keeps it feed-ordered.
proof fn lemma_sorted_insert_ordered(p: Post, s: Seq<Post>)
    requires
        feed_ordered(s),
    ensures
        feed_ordered(sorted_insert(p, s)),
    decreases s.len(),
{
    if s.len() == 0 {
    } else if feed_le(p, s[0]) {
    } else {
        let rest = s.drop_first();
        assert(forall|k: int| 0 <= k < rest.len() ==> #[trigger] rest[k] == s[k + 1]);
        lemma_sorted_insert_ordered(p, rest);
        lemma_sorted_insert_lower_bound(p, rest, s[0]);
        let r = seq![s[0]] + sorted_insert(p, rest);
        assert forall|i: int, j: int| 0 <= i <= j < r.len() implies feed_le(r[i], r[j]) by {
            if i > 0 {
                assert(r[i] == sorted_insert(p, rest)[i - 1]);
                assert(r[j] == sorted_insert(p, rest)[j - 1]);
            }
        }
    }
}

/// The sorted feed is in display order: newest first, ids descending on
/// equal timestamps.
pub proof fn lemma_sort_feed_ordered(s: Seq<Post>)
    ensures
        feed_ordered(sort_feed(s)),
    decreases s.len(),
{
    if s.len() > 0 {
        lemma_sort_feed_ordered(s.drop_first());
        lemma_sorted_insert_ordered(s[0], sort_feed(s.drop_first()));
    }
}

/// Placing a post into a sequence adds exactly that post to its contents.
proof fn lemma_sorted_insert_multiset(p: Post, s: Seq<Post>)
    ensures
        sorted_insert(p, s).to_multiset() == s.to_multiset().insert(p),
    decreases s.len(),
{
    Seq::<Post>::empty().to_multiset_ensures();
    if s.len() == 0 {
        assert(s =~= Seq::<Post>::empty());
        assert(seq![p] =~= Seq::<Post>::empty().push(p));
        assert(sorted_insert(p, s).to_multiset() =~= s.to_multiset().insert(p));
    } else if feed_le(p, s[0]) {
        lemma_multiset_commutative(seq![p], s);
        assert(seq![p] =~= Seq::<Post>::empty().push(p));
        assert((seq![p] + s).to_multiset() =~= s.to_multiset().insert(p));
    } else {
        let rest = s.drop_first();
        lemma_sorted_insert_multiset(p, rest);
        lemma_multiset_commutative(seq![s[0]], sorted_insert(p, rest));
        assert(s =~= seq![s[0]] + rest);
        lemma_multiset_commutative(seq![s[0]], rest);
        assert(sorted_insert(p, s).to_multiset() =~= s.to_multiset().insert(p));
    }
}

/// Sorting rearranges the snapshot and nothing else: the sorted feed holds
/// exactly the posts of the input, each exactly as often.
pub proof fn lemma_sort_feed_multiset(s: Seq<Post>)
    ensures
        sort_feed(s).to_multiset() == s.to_multiset(),
    decreases s.len(),
{
    if s.len() == 0 {
        assert(s =~= Seq::<Post>::empty());
    } else {
        let rest = s.drop_first();
        lemma_sort_feed_multiset(rest);
        lemma_sorted_insert_multiset(s[0], sort_feed(rest));
        s.to_multiset_ensures();
        assert(s.remove(0) =~= rest);
        assert(s.contains(s[0]));
        assert(sort_feed(s).to_multiset() =~= s.to_multiset());
    }
}

/// Where the window of page `page` begins in the sorted feed of length
/// `len`: at `page * size`, or at the end where the feed is shorter.
pub open spec fn page_start(len: int, page: int, size: int) -> int {
    if page * size <= len {
        page * size
    } else {
        len
    }
}

/// Where that window ends: one `size` past its start, or at the end.
pub open spec fn page_end(len: int, page: int, size: int) -> int {
    if page * size + size <= len {
        page * size + size
    } else {
        len
    }
}

/// The posts shown on page `page`: the window `[page*size, page*size+size)`
/// of the snapshot sorted into display order, clipped to the feed's end.
pub open spec fn page_items(s: Seq<Post>, page: int, size: int) -> Seq<Post> {
    sort_feed(s).subrange(
        page_start(sort_feed(s).len() as int, page, size),
        page_end(sort_feed(s).len() as int, page, size),
    )
}

/// Whether posts remain beyond page `page`: true exactly when the feed
/// holds more than `page * size + size` posts.
pub open spec fn page_has_more(s: Seq<Post>, page: int, size: int) -> bool {
    page * size + size < s.len()
}

/// Pagination is deterministic: the page contents and the flag are
/// functions of the snapshot, the page index and the size alone, so two
/// calls on the same inputs return identical output.
pub proof fn lemma_page_deterministic(s1: Seq<Post>, s2: Seq<Post>, page: int, size: int)
    requires
        s1 == s2,
    ensures
        page_items(s1, page, size) == page_items(s2, page, size),
        page_has_more(s1, page, size) == page_has_more(s2, page, size),
{
}

/// The first `n` pages of size `size`, concatenated in the order a lazy
/// loader fetches them.
pub open spec fn pages_concat(s: Seq<Post>, size: int, n: int) -> Seq<Post>
    decreases n,
{
    if n <= 0 {
        Seq::empty()
    } else {
        pages_concat(s, size, n - 1) + page_items(s, n - 1, size)
    }
}

/// How many pages a reader consumes who fetches page 0, 1, ... and stops
/// after the first page whose flag is false: always at least the one page,
/// and past that as many as cover the feed.
pub open spec fn pages_consumed(len: int, size: int) -> int {
    if len == 0 {
        1
    } else {
        (len + size - 1) / size
    }
}

/// The first `n` pages concatenated are exactly the first `n * size` posts
/// of the sorted feed, clipped to its end.
proof fn lemma_pages_concat_prefix(s: Seq<Post>, size: int, n: int)
    requires
        size >= 1,
        n >= 0,
    ensures
        pages_concat(s, size, n) == sort_feed(s).subrange(
            0,
            if n * size <= sort_feed(s).len() {
                n * size
            } else {
                sort_feed(s).len() as int
            },
        ),
    decreases n,
{
    let t = sort_feed(s);
    let len = t.len() as int;
    if n == 0 {
        assert(n * size == 0) by (nonlinear_arith)
            requires
                n == 0,
        ;
        assert(pages_concat(s, size, 0) =~= t.subrange(0, 0));
    } else {
        lemma_pages_concat_prefix(s, size, n - 1);
        assert((n - 1) * size == n * size - size) by (nonlinear_arith);
        let c1 = if (n - 1) * size <= len {
            (n - 1) * size
        } else {
            len
        };
        let c2 = if n * size <= len {
            n * size
        } else {
            len
        };
        assert(n * size >= 0 && (n - 1) * size >= 0) by (nonlinear_arith)
            requires
                n >= 1,
                size >= 1,
        ;
        assert(page_start(len, n - 1, size) == c1);
        assert(page_end(len, n - 1, size) == c2);
        assert(pages_concat(s, size, n) =~= t.subrange(0, c2));
    }
}

/// Pagination coverage: a reader who fetches page 0, 1, ... of one
/// snapshot and stops after the first page whose flag is false sees the
/// whole sorted feed, in order, with nothing repeated and nothing left
/// out; on every earlier page the flag is true.
pub proof fn lemma_pagination_coverage(s: Seq<Post>, size: int)
    requires
        size >= 1,
    ensures
        pages_concat(s, size, pages_consumed(s.len() as int, size)) == sort_feed(s),
        forall|k: int|
            0 <= k < pages_consumed(s.len() as int, size)
                ==> (page_has_more(s, k, size) <==> k + 1 < pages_consumed(s.len() as int, size)),
{
    let len = s.len() as int;
    lemma_sort_feed_len(s);
    let t = sort_feed(s);
    let n = pages_consumed(len, size);
    if len == 0 {
        lemma_pages_concat_prefix(s, size, 1);
        assert(t.subrange(0, 0) =~= t);
    } else {
        lemma_fundamental_div_mod(len + size - 1, size);
        lemma_mod_bound(len + size - 1, size);
        assert(size * n == len + size - 1 - ((len + size - 1) % size));
        assert(size * n == n * size) by (nonlinear_arith);
        assert(n * size >= len);
        assert(n >= 1) by {
            if n <= 0 {
                lemma_mul_inequality(n, 0, size);
            }
        }
        lemma_pages_concat_prefix(s, size, n);
        assert(t.subrange(0, len) =~= t);
        assert forall|k: int| 0 <= k < n implies (page_has_more(s, k, size) <==> k + 1 < n) by {
            assert((k + 1) * size == k * size + size) by (nonlinear_arith);
            if k + 1 < n {
                lemma_mul_inequality(k + 1, n - 1, size);
                assert((n - 1) * size == n * size - size) by (nonlinear_arith);
            }
            if k * size + size < len {
                if k + 1 >= n {
                    lemma_mul_inequality(n, k + 1, size);
                }
            }
        }
    }
}

/// One displayable page of a snapshot. A page size of zero is a caller
/// error and is rejected with no other effect; otherwise the page is the
/// window `[page_idx*size, page_idx*size+size)` of the snapshot sorted
/// newest-first, and the flag says whether posts remain beyond it. A page
/// past the end is empty with the flag false.
pub fn page(posts: Vec<Post>, page_idx: usize, size: usize) -> (r: Result<
    (Vec<Post>, bool),
    FeedError,
>)
    ensures
        r is Err <==> size == 0,
        r is Err ==> r->Err_0 == FeedError::InvalidPageSize,
        r is Ok ==> r->Ok_0.0@ == page_items(posts@, page_idx as int, size as int),
        r is Ok ==> r->Ok_0.1 == page_has_more(posts@, page_idx as int, size as int),
{
    if size == 0 {
        return Err(FeedError::InvalidPageSize);
    }
    let ghost orig = posts@;
    let sorted = sort_posts(posts);
    proof {
        lemma_sort_feed_len(orig);
    }
    let len = sorted.len();
    match page_idx.checked_mul(size) {
        None => {
            proof {
                assert(page_items(orig, page_idx as int, size as int) =~= Seq::<Post>::empty());
            }
            Ok((Vec::new(), false))
        },
        Some(start) => {
            if start >= len {
                proof {
                    assert(page_items(orig, page_idx as int, size as int) =~= Seq::<
                        Post,
                    >::empty());
                }
                Ok((Vec::new(), false))
            } else {
                let has_more = len - start > size;
                let end = if has_more {
                    start + size
                } else {
                    len
                };
                let mut items: Vec<Post> = Vec::new();
                let mut i: usize = start;
                while i < end
                    invariant
                        start <= i <= end <= sorted@.len(),
                        items@ == sorted@.subrange(start as int, i as int),
                    decreases end - i,
                {
                    items.push(clone_post(&sorted[i]));
                    i = i + 1;
                    proof {
                        assert(items@ =~= sorted@.subrange(start as int, i as int));
                    }
                }
                Ok((items, has_more))
            }
        },
    }
}

} // verus!
