use blog::pager::{Pager, PagerFooter};

#[test]
fn test_notes_per_page_constant() {
    assert_eq!(blog::api::ACTIVITIES_PER_PAGE, 10);
    let pager: Pager<u32> = Pager::new(blog::api::ACTIVITIES_PER_PAGE);
    assert_eq!(pager.per_page, 10);
}

#[test]
fn pager_fetches_until_a_short_page() {
    let mut pager: Pager<u32> = Pager::new(3);
    assert_eq!(pager.footer(), PagerFooter::LoadMore);
    pager.page_loaded(vec![1, 2, 3]);
    assert!(pager.has_more);
    assert!(pager.load_more());
    assert_eq!(pager.page, 1);
    assert_eq!(pager.footer(), PagerFooter::Loading);
    assert!(!pager.load_more());
    assert_eq!(pager.page, 1);
    pager.page_loaded(vec![4]);
    assert_eq!(pager.items, vec![1, 2, 3, 4]);
    assert!(!pager.has_more);
    assert!(!pager.load_more());
    assert_eq!(pager.footer(), PagerFooter::End);
}

#[test]
fn pager_stops_after_a_failure() {
    let mut pager: Pager<&str> = Pager::new(10);
    assert!(!pager.is_empty_for_good());
    pager.page_failed();
    assert!(!pager.has_more);
    assert!(pager.is_empty_for_good());
    assert_eq!(pager.footer(), PagerFooter::Nothing);
    assert!(!pager.load_more());
}
