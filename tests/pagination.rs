use forum::pagination::{page_of, page_offset, PAGE_SIZE};

#[test]
fn page_of_is_ceiling() {
    assert_eq!(PAGE_SIZE, 10);
    assert_eq!(page_of(1), 1);
    assert_eq!(page_of(9), 1);
    assert_eq!(page_of(10), 1);
    assert_eq!(page_of(11), 2);
    assert_eq!(page_of(20), 2);
    assert_eq!(page_of(21), 3);
    assert_eq!(page_of(u32::MAX), 429496730);
}

#[test]
fn page_offsets() {
    assert_eq!(page_offset(0), None);
    assert_eq!(page_offset(1), Some(0));
    assert_eq!(page_offset(3), Some(20));
    assert_eq!(page_offset(u32::MAX), None);
}

#[test]
fn position_is_listed_on_its_page() {
    for pos in 1..=35u32 {
        let off = page_offset(page_of(pos)).unwrap();
        assert!(off < pos && pos <= off + PAGE_SIZE);
    }
}
