use carrot::history_search::HistorySearch;

#[test]
fn accept_on_empty_returns_none() {
    let search = HistorySearch::new();
    assert!(search.accept().is_none());
}
