use browsecore::governor::{MemoryMonitor, MEMORY_LIMIT};
use browsecore::errors::CoreError;
use browsecore::streamer::{chunk_text, deliver, DeliveryPlan, CHUNK_SIZE};
use browsecore::MAX_FILE_SIZE;

#[test]
fn a_megabyte_and_a_half_becomes_exactly_three_chunks() {
    let content = "a".repeat(1_500_000);
    let chunks = chunk_text(&content, 500_000);
    assert_eq!(chunks.len(), 3);
    assert_eq!(chunks[0].len(), 500_000);
    assert_eq!(chunks[1].len(), 500_000);
    assert_eq!(chunks[2].len(), 500_000);
    let rebuilt: String = chunks.concat();
    assert_eq!(rebuilt, content);
}

#[test]
fn short_content_is_one_chunk() {
    let chunks = chunk_text("hello", 500_000);
    assert_eq!(chunks.len(), 1);
    assert_eq!(chunks[0], "hello");
}

#[test]
fn empty_content_yields_no_chunks() {
    let chunks = chunk_text("", 500_000);
    assert!(chunks.is_empty());
}

#[test]
fn chunk_boundaries_respect_multi_byte_characters() {
    // each é is two bytes, so a ten-byte limit would split one in half;
    // the cut is pulled back to the previous character boundary
    let content = "ééééé-ééééé-ééééé";
    let chunks = chunk_text(content, 7);
    for chunk in &chunks {
        assert!(chunk.len() <= 7);
        assert!(!chunk.is_empty());
    }
    let rebuilt: String = chunks.concat();
    assert_eq!(rebuilt, content);
}

#[test]
fn delivery_of_small_content_is_a_single_set() {
    let mut gov = MemoryMonitor::default();
    let plan = deliver(
        &mut gov,
        1_000,
        String::from("notes.txt"),
        String::from("hello world"),
        Some(String::from("dark")),
    )
    .unwrap();
    match plan {
        DeliveryPlan::Whole(p) => {
            assert_eq!(p.content, "hello world");
            assert_eq!(p.file_path, "notes.txt");
            assert_eq!(p.theme.as_deref(), Some("dark"));
        },
        DeliveryPlan::Chunked(_) => panic!("small content must not be streamed"),
    }
    assert_eq!(gov.total_allocated, 11);
}

#[test]
fn delivery_of_large_content_streams_ordered_chunks() {
    let mut gov = MemoryMonitor::default();
    let content = "x".repeat(1_500_000);
    let plan = deliver(&mut gov, 1_000, String::from("big.log"), content.clone(), None).unwrap();
    match plan {
        DeliveryPlan::Whole(_) => panic!("large content must be streamed"),
        DeliveryPlan::Chunked(ps) => {
            // 1,500,000 bytes at the configured chunk size: three appends
            assert_eq!(ps.len(), 3);
            let mut rebuilt = String::new();
            for p in &ps {
                assert!(p.content.len() <= CHUNK_SIZE);
                assert_eq!(p.file_path, "big.log");
                assert!(p.theme.is_none());
                rebuilt.push_str(&p.content);
            }
            assert_eq!(rebuilt, content);
        },
    }
    assert_eq!(gov.total_allocated, 1_500_000);
}

#[test]
fn content_above_the_display_ceiling_is_rejected() {
    let mut gov = MemoryMonitor::default();
    let content = "y".repeat((MAX_FILE_SIZE + 1) as usize);
    let r = deliver(&mut gov, 1_000, String::from("huge"), content, None);
    assert!(matches!(r, Err(CoreError::TooLarge)));
    assert_eq!(gov.total_allocated, 0);
}

#[test]
fn delivery_denied_by_the_governor_delivers_nothing() {
    let mut gov = MemoryMonitor::default();
    gov.allocate(MEMORY_LIMIT - 10).unwrap();
    let r = deliver(&mut gov, 0, String::from("t"), String::from("0123456789a"), None);
    assert!(matches!(r, Err(CoreError::LimitExceeded)));
    assert_eq!(gov.total_allocated, MEMORY_LIMIT - 10);
}
