use post_feed::paginate::page;
use post_feed::post::FeedError;
use post_feed::post::Post;
use post_feed::store::PostStore;

fn post(id: usize, text: &str, created_at_ms: u128) -> Post {
    Post { id, text: String::from(text), created_at_ms }
}

#[test]
fn empty_store_yields_an_empty_page_and_no_more() {
    let (items, has_more) = page(Vec::new(), 0, 10).expect("a positive size is accepted");
    assert!(items.is_empty());
    assert!(!has_more);
}

#[test]
fn zero_page_size_is_rejected() {
    let posts = vec![post(0, "a", 0)];
    let r = page(posts, 0, 0);
    assert_eq!(r, Err(FeedError::InvalidPageSize));
}

#[test]
fn ordering_example_two_pages() {
    let posts = vec![post(0, "a", 0), post(1, "b", 1), post(2, "c", 2)];
    let (first, more_after_first) = page(posts.clone(), 0, 2).expect("size 2 is accepted");
    assert_eq!(first.len(), 2);
    assert_eq!(first[0].id, 2);
    assert_eq!(first[1].id, 1);
    assert!(more_after_first);
    let (second, more_after_second) = page(posts, 1, 2).expect("size 2 is accepted");
    assert_eq!(second.len(), 1);
    assert_eq!(second[0].id, 0);
    assert!(!more_after_second);
}

#[test]
fn pagination_is_deterministic() {
    let posts = vec![post(0, "a", 7), post(1, "b", 3), post(2, "c", 7), post(3, "d", 1)];
    let first = page(posts.clone(), 0, 3).expect("size 3 is accepted");
    let second = page(posts, 0, 3).expect("size 3 is accepted");
    assert_eq!(first, second);
}

#[test]
fn pages_until_no_more_cover_the_whole_feed() {
    let posts = vec![
        post(0, "a", 10),
        post(1, "b", 40),
        post(2, "c", 20),
        post(3, "d", 50),
        post(4, "e", 30),
    ];
    let mut gathered: Vec<Post> = Vec::new();
    let mut page_idx = 0;
    loop {
        let (items, has_more) = page(posts.clone(), page_idx, 2).expect("size 2 is accepted");
        gathered.extend(items);
        if !has_more {
            break;
        }
        page_idx += 1;
    }
    assert_eq!(page_idx, 2);
    let gathered_ids: Vec<usize> = gathered.iter().map(|p| p.id).collect();
    assert_eq!(gathered_ids, vec![3, 1, 4, 2, 0]);
}

#[test]
fn newest_posts_come_first() {
    let posts = vec![post(0, "old", 5), post(1, "newest", 50), post(2, "middle", 25)];
    let (items, has_more) = page(posts, 0, 10).expect("size 10 is accepted");
    let ids: Vec<usize> = items.iter().map(|p| p.id).collect();
    assert_eq!(ids, vec![1, 2, 0]);
    assert!(!has_more);
}

#[test]
fn equal_timestamps_break_ties_by_id_descending() {
    let posts = vec![post(0, "a", 9), post(1, "b", 9), post(2, "c", 9)];
    let (items, _) = page(posts, 0, 10).expect("size 10 is accepted");
    let ids: Vec<usize> = items.iter().map(|p| p.id).collect();
    assert_eq!(ids, vec![2, 1, 0]);
}

#[test]
fn a_page_past_the_end_is_empty_with_no_more() {
    let posts = vec![post(0, "a", 1), post(1, "b", 2)];
    let (items, has_more) = page(posts, 5, 2).expect("size 2 is accepted");
    assert!(items.is_empty());
    assert!(!has_more);
}

#[test]
fn a_full_last_page_reports_no_more() {
    let posts = vec![post(0, "a", 1), post(1, "b", 2), post(2, "c", 3), post(3, "d", 4)];
    let (items, has_more) = page(posts, 1, 2).expect("size 2 is accepted");
    assert_eq!(items.len(), 2);
    assert!(!has_more);
}

#[test]
fn paging_a_snapshot_of_the_store() {
    let mut store = PostStore::new();
    for i in 0..7u32 {
        let text = format!("post {}", i);
        store.append_at(text, u128::from(10 * i));
    }
    let (items, has_more) = page(store.snapshot(), 0, 3).expect("size 3 is accepted");
    let ids: Vec<usize> = items.iter().map(|p| p.id).collect();
    assert_eq!(ids, vec![6, 5, 4]);
    assert!(has_more);
    let (last, more_after_last) = page(store.snapshot(), 2, 3).expect("size 3 is accepted");
    let last_ids: Vec<usize> = last.iter().map(|p| p.id).collect();
    assert_eq!(last_ids, vec![0]);
    assert!(!more_after_last);
}
