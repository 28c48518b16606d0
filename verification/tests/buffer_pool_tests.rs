//! Buffer pool and LRU-K replacer behaviour: residence under pins, the
//! documented eviction order, and write-back on eviction.

use bustubx::buffer_pool::BufferPoolManager;
use bustubx::disk::DiskManager;
use bustubx::error::BustubxError;
use bustubx::replacer::LRUKReplacer;

/// A pool store with `n` allocated zero pages.
fn disk_with_pages(n: u32) -> DiskManager {
    let mut disk = DiskManager::new();
    for _ in 0..n {
        disk.allocate_page().unwrap();
    }
    disk
}

/// Pool of 3 frames. After fetch(1), fetch(2), fetch(3), unpin(1),
/// unpin(2), the fetch of page 4 evicts the frame of page 1: both
/// unpinned frames have one access, and page 1's came first.
#[test]
pub fn test_buffer_pool_lru_k_eviction_order() {
    let disk = disk_with_pages(5);
    let mut pool = BufferPoolManager::new(3, disk);

    pool.fetch_page(1).unwrap();
    pool.fetch_page(2).unwrap();
    pool.fetch_page(3).unwrap();
    pool.unpin_page(1, false).unwrap();
    pool.unpin_page(2, false).unwrap();
    pool.fetch_page(4).unwrap();

    // page 1 was evicted; page 2 is still cached
    let frame_pages: Vec<u32> = pool.frames.iter().map(|f| f.page_id).collect();
    assert!(!frame_pages.contains(&1));
    assert!(frame_pages.contains(&2));
    assert!(frame_pages.contains(&3));
    assert!(frame_pages.contains(&4));
}

/// Under the access pattern A, B, A, C with K=2, the evicted frame is B:
/// frames with fewer than two accesses count as infinitely distant and
/// tie-break by their earliest access.
#[test]
pub fn test_replacer_backward_k_distance() {
    let mut replacer = LRUKReplacer::new(2);
    let a = 0usize;
    let b = 1usize;
    let c = 2usize;
    replacer.record_access(a);
    replacer.record_access(b);
    replacer.record_access(a);
    replacer.record_access(c);
    replacer.set_evictable(a, true);
    replacer.set_evictable(b, true);
    replacer.set_evictable(c, true);
    assert_eq!(replacer.size(), 3);
    assert_eq!(replacer.evict(), Some(b));
    assert_eq!(replacer.evict(), Some(c));
    assert_eq!(replacer.evict(), Some(a));
    assert_eq!(replacer.evict(), None);
}

/// A fully pinned pool refuses to cache another page.
#[test]
pub fn test_buffer_pool_exhausted() {
    let disk = disk_with_pages(4);
    let mut pool = BufferPoolManager::new(2, disk);
    pool.fetch_page(0).unwrap();
    pool.fetch_page(1).unwrap();
    assert_eq!(pool.fetch_page(2), Err(BustubxError::BufferPoolExhausted));
    pool.unpin_page(0, false).unwrap();
    assert!(pool.fetch_page(2).is_ok());
}

/// A dirty page written through the pool survives eviction: the re-fetch
/// sees the bytes that were last written.
#[test]
pub fn test_buffer_pool_write_back_on_eviction() {
    let disk = disk_with_pages(3);
    let mut pool = BufferPoolManager::new(1, disk);

    pool.fetch_page(0).unwrap();
    let mut payload = vec![0u8; 4096];
    payload[0] = 42;
    payload[4095] = 7;
    pool.write_page(0, payload.clone()).unwrap();
    pool.unpin_page(0, true).unwrap();

    // evict page 0 by caching another page in the single frame
    pool.fetch_page(1).unwrap();
    pool.unpin_page(1, false).unwrap();

    let back = pool.fetch_page(0).unwrap();
    assert_eq!(back, payload);
}

/// Fetching a page that was never allocated fails with an I/O error.
#[test]
pub fn test_buffer_pool_fetch_unallocated_page() {
    let disk = disk_with_pages(1);
    let mut pool = BufferPoolManager::new(2, disk);
    assert_eq!(pool.fetch_page(9), Err(BustubxError::Io));
}

/// Unpinning below zero or unpinning an absent page is refused.
#[test]
pub fn test_buffer_pool_unpin_errors() {
    let disk = disk_with_pages(2);
    let mut pool = BufferPoolManager::new(2, disk);
    assert!(pool.unpin_page(0, false).is_err());
    pool.fetch_page(0).unwrap();
    pool.unpin_page(0, false).unwrap();
    assert!(pool.unpin_page(0, false).is_err());
}

/// A new page comes back zero-filled and pinned; deleting it is refused
/// until it is unpinned.
#[test]
pub fn test_buffer_pool_new_and_delete_page() {
    let disk = DiskManager::new();
    let mut pool = BufferPoolManager::new(2, disk);
    let pid = pool.new_page().unwrap();
    assert_eq!(pid, 0);
    assert!(pool.delete_page(pid).is_err());
    pool.unpin_page(pid, false).unwrap();
    assert!(pool.delete_page(pid).is_ok());
}
