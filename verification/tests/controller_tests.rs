use find_my_sht::fms_entities::wiki_item::WikiItem;
use find_my_sht::index::find_my_sht::{ItemSearch, SearchType};
use find_my_sht::index::wiki_search::{wiki_query_text, WikiReader};

#[test]
fn burst_of_edits_dispatches_at_most_once() {
    // Ten edits, each 400ms after the one before, with a poll after every
    // edit and plenty of polls afterwards: at most one query goes out.
    let mut ctrl = ItemSearch::new(0);
    let mut dispatched = 0;
    for k in 0..10u64 {
        let t = k * 400;
        ctrl.input(format!("query {}", k), t);
        if ctrl.poll(SearchType::Account, t + 1).is_some() {
            dispatched += 1;
        }
        if ctrl.poll(SearchType::Account, t + 399).is_some() {
            dispatched += 1;
        }
    }
    for extra in 0..20u64 {
        if ctrl.poll(SearchType::Account, 3600 + 501 + extra * 100).is_some() {
            dispatched += 1;
        }
    }
    assert_eq!(dispatched, 1);
}

#[test]
fn text_dispatches_only_after_the_debounce_window() {
    let mut ctrl = ItemSearch::new(0);
    ctrl.input("coin".to_string(), 1000);
    assert!(ctrl.poll(SearchType::Account, 1400).is_none());
    assert!(ctrl.poll(SearchType::Account, 1500).is_none());
    let d = ctrl.poll(SearchType::Account, 1501).expect("rested text dispatches");
    assert_eq!(d.query, "coin");
    assert_eq!(d.page, 0);
    assert!(matches!(d.target, SearchType::Account));
    assert!(ctrl.poll(SearchType::Account, 2500).is_none());
}

#[test]
fn backend_switch_forces_immediate_dispatch_and_page_reset() {
    let mut ctrl = ItemSearch::new(0);
    ctrl.input("relic".to_string(), 0);
    ctrl.poll(SearchType::Account, 501).expect("rested text dispatches");
    let step = ctrl.next_page();
    assert_eq!(step.page, 1);
    let d = ctrl.poll(SearchType::Wiki, 502).expect("a backend switch dispatches at once");
    assert_eq!(d.query, "relic");
    assert_eq!(d.page, 0);
    assert!(matches!(d.target, SearchType::Wiki));
}

#[test]
fn page_steps_dispatch_the_current_text() {
    let mut ctrl = ItemSearch::new(0);
    ctrl.input("ore".to_string(), 0);
    ctrl.poll(SearchType::Account, 1000);
    let fwd = ctrl.next_page();
    assert_eq!(fwd.page, 1);
    assert_eq!(fwd.query, "ore");
    let fwd2 = ctrl.next_page();
    assert_eq!(fwd2.page, 2);
    let back = ctrl.prev_page();
    assert_eq!(back.page, 1);
    assert_eq!(back.query, "ore");
}

#[test]
fn wiki_response_sets_results_and_continuation_flag() {
    let mut wiki = WikiReader::new();
    assert!(wiki.last_result().is_empty());
    assert!(!wiki.has_more());
    let hits = vec![WikiItem {
        title: "Mystic Coin".to_string(),
        pageid: 123,
        snippet: "about coins".to_string(),
    }];
    wiki.apply_response(Some((hits, Some(10))));
    assert_eq!(wiki.last_result().len(), 1);
    assert_eq!(wiki.last_result()[0].title, "Mystic Coin");
    assert!(wiki.has_more());
    wiki.apply_response(Some((Vec::new(), None)));
    assert!(!wiki.has_more());
}

#[test]
fn wiki_failure_clears_results_and_keeps_more_flag() {
    let mut wiki = WikiReader::new();
    let hits = vec![WikiItem {
        title: "Coin".to_string(),
        pageid: 1,
        snippet: "s".to_string(),
    }];
    wiki.apply_response(Some((hits, Some(10))));
    wiki.apply_response(None);
    assert!(wiki.last_result().is_empty());
    assert!(wiki.has_more());
}

#[test]
fn wiki_snippet_strips_highlight_markup() {
    let item = WikiItem {
        title: "Coin".to_string(),
        pageid: 1,
        snippet: "a <span class=\"searchmatch\">coin</span> of <span class=\"searchmatch\">gold</span>"
            .to_string(),
    };
    assert_eq!(item.snippet(), "...a coin of gold...");
}

#[test]
fn wiki_query_text_lowercases_and_escapes_spaces() {
    assert_eq!(wiki_query_text("Mystic Coin"), "mystic%20coin");
    assert_eq!(wiki_query_text("ore"), "ore");
    assert_eq!(wiki_query_text(""), "");
}

#[test]
fn loading_flags_are_plain_state() {
    let mut wiki = WikiReader::new();
    assert!(!wiki.is_loading());
    wiki.set_loading(true);
    assert!(wiki.is_loading());
    let mut acc = find_my_sht::index::index_reader::IndexReader::new();
    assert!(!acc.is_loading());
    acc.set_loading(true);
    assert!(acc.is_loading());
    acc.set_loading(false);
    assert!(!acc.is_loading());
}
