use zhtta::cache::{Cache, Page, MAX_SIZE};
use zhtta::request::HTTP_Request;

fn request(path: &str) -> HTTP_Request {
    HTTP_Request { peer_name: String::from("10.0.0.1:5000"), path: String::from(path) }
}

#[test]
fn new_cache_is_empty() {
    let c = Cache::new();
    assert_eq!(c.len(), 0);
    assert_eq!(c.current_size(), 0);
    assert_eq!(c.max_size(), 6000000);
    assert_eq!(MAX_SIZE, 6000000);
}

#[test]
fn new_page_is_unserved() {
    let p = Page::new(3, vec![1, 2, 3]);
    assert_eq!(p.size, 3);
    assert_eq!(p.data, vec![1, 2, 3]);
    assert_eq!(p.accesses, 0);
}

#[test]
fn page_update_counts_accesses() {
    let mut p = Page::new(1, vec![7]);
    p.update();
    p.update();
    assert_eq!(p.accesses, 2);
    assert_eq!(p.data, vec![7]);
    p.accesses = u64::MAX;
    p.update();
    assert_eq!(p.accesses, 0);
}

#[test]
fn loaded_file_is_found_and_served() {
    let mut c = Cache::new();
    c.load(&String::from("/srv/www/index.html"), 5, vec![104, 101, 108, 108, 111]);
    assert!(c.contains(&request("/srv/www/index.html")));
    assert!(c.contains(&request("/other/dir/index.html")));
    assert!(!c.contains(&request("/srv/www/about.html")));
    assert_eq!(c.len(), 1);
    assert_eq!(c.current_size(), 5);
    let data = c.get(&String::from("index.html"));
    assert_eq!(data, vec![104, 101, 108, 108, 111]);
    let p = c.page(&String::from("index.html")).unwrap();
    assert_eq!(p.accesses, 1);
    assert_eq!(p.size, 5);
    assert_eq!(c.current_size(), 5);
}

#[test]
fn file_at_limit_is_not_cached() {
    let mut c = Cache::new();
    c.load(&String::from("/big.bin"), MAX_SIZE, vec![0]);
    assert_eq!(c.len(), 0);
    assert_eq!(c.current_size(), 0);
    c.load(&String::from("/nearly.bin"), MAX_SIZE - 1, vec![0]);
    assert_eq!(c.len(), 1);
    assert_eq!(c.current_size(), MAX_SIZE - 1);
}

#[test]
fn loading_same_name_replaces_page() {
    let mut c = Cache::new();
    c.load(&String::from("/a/x.txt"), 10, vec![1]);
    c.load(&String::from("/b/x.txt"), 4, vec![2]);
    assert_eq!(c.len(), 1);
    assert_eq!(c.current_size(), 4);
    assert_eq!(c.get(&String::from("x.txt")), vec![2]);
}

#[test]
fn full_cache_evicts_oldest_first() {
    let mut c = Cache::new();
    c.load(&String::from("/one.bin"), 2_000_000, vec![1]);
    c.load(&String::from("/two.bin"), 2_000_000, vec![2]);
    c.load(&String::from("/three.bin"), 1_500_000, vec![3]);
    assert_eq!(c.current_size(), 5_500_000);
    // Serving the first file makes the second the least recently accessed.
    c.get(&String::from("one.bin"));
    c.load(&String::from("/four.bin"), 2_000_000, vec![4]);
    assert!(c.page(&String::from("two.bin")).is_none());
    assert!(c.page(&String::from("one.bin")).is_some());
    assert!(c.page(&String::from("three.bin")).is_some());
    assert!(c.page(&String::from("four.bin")).is_some());
    assert_eq!(c.current_size(), 5_500_000);
    assert!(c.current_size() <= c.max_size());
}

#[test]
fn eviction_goes_on_until_the_file_fits() {
    let mut c = Cache::new();
    c.load(&String::from("/a.bin"), 1_000_000, vec![1]);
    c.load(&String::from("/b.bin"), 1_000_000, vec![2]);
    c.load(&String::from("/c.bin"), 1_000_000, vec![3]);
    c.load(&String::from("/d.bin"), 5_000_000, vec![4]);
    assert_eq!(c.len(), 2);
    assert_eq!(c.current_size(), 6_000_000);
    assert!(c.page(&String::from("a.bin")).is_none());
    assert!(c.page(&String::from("b.bin")).is_none());
    assert!(c.page(&String::from("c.bin")).is_some());
    assert!(c.page(&String::from("d.bin")).is_some());
}

#[test]
fn remove_oldest_takes_least_recently_accessed() {
    let mut c = Cache::new();
    c.load_at(&String::from("/a.bin"), 10, vec![1], 30);
    c.load_at(&String::from("/b.bin"), 20, vec![2], 10);
    c.load_at(&String::from("/c.bin"), 30, vec![3], 10);
    c.remove_oldest();
    assert_eq!(c.len(), 2);
    assert!(c.page(&String::from("b.bin")).is_none());
    assert_eq!(c.current_size(), 40);
    c.remove_oldest();
    assert!(c.page(&String::from("c.bin")).is_none());
    assert_eq!(c.current_size(), 10);
}

#[test]
fn remove_oldest_on_empty_cache_does_nothing() {
    let mut c = Cache::new();
    c.remove_oldest();
    assert_eq!(c.len(), 0);
    c.load(&String::from("/a.bin"), 10, vec![1]);
    c.remove_oldest();
    assert_eq!(c.len(), 0);
    assert_eq!(c.current_size(), 0);
    c.remove_oldest();
    assert_eq!(c.len(), 0);
}

#[test]
fn page_stamps_follow_the_given_time() {
    let mut p = Page::new_at(2, vec![5, 6], 100);
    assert_eq!(p.last_access, 100);
    assert_eq!(p.accesses, 0);
    p.update_at(250);
    assert_eq!(p.last_access, 250);
    assert_eq!(p.accesses, 1);
    assert_eq!(p.data, vec![5, 6]);
}

#[test]
fn get_at_stamps_the_served_page() {
    let mut c = Cache::new();
    c.load_at(&String::from("/a.html"), 3, vec![1, 2, 3], 10);
    c.load_at(&String::from("/b.html"), 2, vec![4, 5], 11);
    assert_eq!(c.get_at(&String::from("a.html"), 99), vec![1, 2, 3]);
    let a = c.page(&String::from("a.html")).unwrap();
    assert_eq!(a.last_access, 99);
    assert_eq!(a.accesses, 1);
    let b = c.page(&String::from("b.html")).unwrap();
    assert_eq!(b.last_access, 11);
    assert_eq!(b.accesses, 0);
}

#[test]
fn load_at_evicts_by_access_time() {
    let mut c = Cache::new();
    c.load_at(&String::from("/x.bin"), 3_000_000, vec![1], 30);
    c.load_at(&String::from("/y.bin"), 2_000_000, vec![2], 10);
    c.load_at(&String::from("/z.bin"), 1_000_000, vec![3], 20);
    c.load_at(&String::from("/w.bin"), 2_500_000, vec![4], 40);
    // y (10) and then z (20) go; x (30) stays.
    assert!(c.page(&String::from("y.bin")).is_none());
    assert!(c.page(&String::from("z.bin")).is_none());
    assert!(c.page(&String::from("x.bin")).is_some());
    let w = c.page(&String::from("w.bin")).unwrap();
    assert_eq!(w.last_access, 40);
    assert_eq!(w.size, 2_500_000);
    assert_eq!(c.current_size(), 5_500_000);
}

#[test]
fn load_at_always_makes_room_for_a_smaller_file() {
    let mut c = Cache::new();
    c.load_at(&String::from("/x.bin"), 4_000_000, vec![1], 50);
    c.load_at(&String::from("/y.bin"), 4_000_000, vec![2], 50);
    assert_eq!(c.len(), 1);
    assert!(c.page(&String::from("x.bin")).is_none());
    assert!(c.page(&String::from("y.bin")).is_some());
    c.load_at(&String::from("/z.bin"), 5_999_999, vec![3], 1);
    assert_eq!(c.len(), 1);
    assert_eq!(c.current_size(), 5_999_999);
    assert!(c.page(&String::from("z.bin")).is_some());
}

#[test]
fn large_file_needs_no_file_name() {
    let mut c = Cache::new();
    c.load(&String::from("/"), MAX_SIZE + 1, vec![1]);
    assert_eq!(c.len(), 0);
    c.load_at(&String::from(".."), MAX_SIZE, vec![1], 5);
    assert_eq!(c.len(), 0);
}
