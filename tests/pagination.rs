use taskrs::{LoadPaginated, PageError, Paginate, DEFAULT_PAGE_SIZE};

fn rows(n: i32) -> Vec<i32> {
    (0..n).collect()
}

#[test]
fn twenty_six_rows_make_two_pages() {
    let first = rows(26).load_with_pagination(Some(0), Some(25)).unwrap();
    assert_eq!(first.items.len(), 25);
    assert_eq!(first.total_count, Some(26));
    assert_eq!(first.page_count, Some(2));
    assert_eq!(first.page_size, Some(25));
    assert_eq!(first.page, Some(0));
    let second = rows(26).load_with_pagination(Some(1), Some(25)).unwrap();
    assert_eq!(second.items, vec![25]);
    assert_eq!(second.total_count, Some(26));
    assert_eq!(second.page_count, Some(2));
}

#[test]
fn pages_put_back_together_give_all_rows() {
    for size in 1..8 {
        let all = rows(23);
        let first = all.clone().load_with_pagination(Some(0), Some(size)).unwrap();
        let mut joined = Vec::new();
        for p in 0..first.page_count.unwrap() {
            let page = all.clone().load_with_pagination(Some(p), Some(size)).unwrap();
            joined.extend(page.items);
        }
        assert_eq!(joined, all);
    }
}

#[test]
fn no_page_returns_everything_without_metadata() {
    let page = rows(30).load_with_pagination(None, Some(5)).unwrap();
    assert_eq!(page.items.len(), 30);
    assert_eq!(page.page, None);
    assert_eq!(page.page_count, None);
    assert_eq!(page.page_size, None);
    assert_eq!(page.total_count, None);
}

#[test]
fn default_page_size_is_twenty_five() {
    assert_eq!(DEFAULT_PAGE_SIZE, 25);
    let page = rows(60).load_with_pagination(Some(1), None).unwrap();
    assert_eq!(page.page_size, Some(25));
    assert_eq!(page.items, (25..50).collect::<Vec<i32>>());
    assert_eq!(page.page_count, Some(3));
}

#[test]
fn page_beyond_the_rows_is_empty_with_the_true_total() {
    let page = rows(10).load_with_pagination(Some(7), Some(4)).unwrap();
    assert!(page.items.is_empty());
    assert_eq!(page.total_count, Some(10));
    assert_eq!(page.page_count, Some(3));
}

#[test]
fn empty_result_set_has_zero_pages() {
    let page = rows(0).load_with_pagination(Some(0), Some(4)).unwrap();
    assert!(page.items.is_empty());
    assert_eq!(page.total_count, Some(0));
    assert_eq!(page.page_count, Some(0));
}

#[test]
fn bad_page_or_size_is_rejected() {
    assert_eq!(rows(5).load_with_pagination(Some(-1), Some(2)).err(), Some(PageError::InvalidPage));
    assert_eq!(rows(5).load_with_pagination(Some(0), Some(0)).err(), Some(PageError::InvalidPageSize));
    assert_eq!(rows(5).load_with_pagination(Some(0), Some(-3)).err(), Some(PageError::InvalidPageSize));
}

#[test]
fn load_and_count_reports_the_whole_set() {
    let (items, total) = rows(9).paginate(2).page_size(4).load_and_count().unwrap();
    assert_eq!(items, vec![8]);
    assert_eq!(total, 9);
    let q = rows(3).paginate(1);
    assert_eq!(q.page, 1);
    assert_eq!(q.page_size, 25);
}
