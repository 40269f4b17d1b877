use ct_firehose_filter::{DomainWatchlist, HotWatchlist};

fn strs(list: &[&str]) -> Vec<String> {
    list.iter().map(|s| s.to_string()).collect()
}

#[test]
fn swap_installs_new_names_and_drops_removed_ones() {
    let mut hot = HotWatchlist::new(DomainWatchlist::new(&strs(&["old.com"])));
    assert!(hot.inspect(&strs(&["www.old.com"])).is_some());
    assert!(hot.inspect(&strs(&["www.new.com"])).is_none());

    hot.swap(DomainWatchlist::new(&strs(&["new.com"])));

    assert!(
        hot.inspect(&strs(&["www.old.com"])).is_none(),
        "removed name must stop matching after swap"
    );
    assert!(hot.inspect(&strs(&["www.new.com"])).is_some());
}

#[test]
fn swap_to_empty_watchlist_drops_everything() {
    let mut hot = HotWatchlist::new(DomainWatchlist::new(&strs(&["old.com", "new.com"])));
    hot.swap(DomainWatchlist::new(&[]));
    assert!(hot.inspect(&strs(&["www.old.com"])).is_none());
    assert!(hot.inspect(&strs(&["www.new.com"])).is_none());
}

#[test]
fn readers_keep_the_list_they_loaded() {
    let mut hot = HotWatchlist::new(DomainWatchlist::new(&strs(&["old.com"])));
    let before = hot.load();
    hot.swap(DomainWatchlist::new(&strs(&["new.com"])));
    assert!(before.inspect(&strs(&["www.old.com"])).is_some());
    assert!(before.inspect(&strs(&["www.new.com"])).is_none());
    assert!(hot.load().inspect(&strs(&["www.new.com"])).is_some());
}
