use schema_mapper::cache::{Lookup, StatementCache};

#[test]
fn a_new_text_is_prepared_once() {
    let mut cache: StatementCache<u32> = StatementCache::new(10);
    assert_eq!(cache.begin("select 1"), Lookup::Prepare);
    assert_eq!(cache.begin("select 1"), Lookup::Wait);
    assert_eq!(cache.begin("select 1"), Lookup::Wait);
    assert_eq!(cache.handle("select 1"), None);
    cache.complete("select 1", 7);
    assert_eq!(cache.begin("select 1"), Lookup::Hit);
    assert_eq!(cache.handle("select 1"), Some(&7));
    assert_eq!(cache.len(), 1);
}

#[test]
fn among_many_callers_one_prepares() {
    let mut cache: StatementCache<u32> = StatementCache::new(10);
    let mut prepares = 0;
    for i in 0..50 {
        if i % 7 == 3 {
            cache.begin("another");
        }
        if cache.begin("select * from person") == Lookup::Prepare {
            prepares += 1;
        }
    }
    assert_eq!(prepares, 1);
}

#[test]
fn unrelated_texts_are_prepared_side_by_side() {
    let mut cache: StatementCache<&str> = StatementCache::new(10);
    assert_eq!(cache.begin("a"), Lookup::Prepare);
    assert_eq!(cache.begin("b"), Lookup::Prepare);
    assert_eq!(cache.begin("a"), Lookup::Wait);
    cache.complete("b", "handle of b");
    assert_eq!(cache.begin("a"), Lookup::Wait);
    assert_eq!(cache.begin("b"), Lookup::Hit);
    cache.complete("a", "handle of a");
    assert_eq!(cache.handle("a"), Some(&"handle of a"));
    assert_eq!(cache.handle("b"), Some(&"handle of b"));
}

#[test]
fn an_abandoned_text_is_prepared_by_the_next_caller() {
    let mut cache: StatementCache<u32> = StatementCache::new(10);
    assert_eq!(cache.begin("a"), Lookup::Prepare);
    cache.abandon("a");
    assert_eq!(cache.len(), 0);
    assert_eq!(cache.begin("a"), Lookup::Prepare);
    assert_eq!(cache.begin("a"), Lookup::Wait);
    cache.abandon("never asked for");
    assert_eq!(cache.begin("a"), Lookup::Wait);
}

#[test]
fn the_least_recently_used_entry_leaves() {
    let mut cache: StatementCache<u32> = StatementCache::new(2);
    assert_eq!(cache.capacity(), 2);
    cache.complete("a", 1);
    cache.complete("b", 2);
    assert_eq!(cache.begin("a"), Lookup::Hit);
    cache.complete("c", 3);
    assert_eq!(cache.len(), 2);
    assert_eq!(cache.handle("b"), None);
    assert_eq!(cache.handle("a"), Some(&1));
    assert_eq!(cache.handle("c"), Some(&3));
    assert_eq!(cache.begin("b"), Lookup::Prepare);
}

#[test]
fn looking_at_a_handle_is_no_use_of_it() {
    let mut cache: StatementCache<u32> = StatementCache::new(2);
    cache.complete("a", 1);
    cache.complete("b", 2);
    assert_eq!(cache.handle("a"), Some(&1));
    cache.complete("c", 3);
    assert_eq!(cache.handle("a"), None);
    assert_eq!(cache.handle("b"), Some(&2));
}

#[test]
fn preparing_a_cached_text_again_replaces_its_handle() {
    let mut cache: StatementCache<u32> = StatementCache::new(2);
    cache.complete("a", 1);
    cache.complete("b", 2);
    cache.complete("a", 10);
    assert_eq!(cache.len(), 2);
    assert_eq!(cache.handle("a"), Some(&10));
    cache.complete("c", 3);
    assert_eq!(cache.handle("b"), None);
    assert_eq!(cache.handle("a"), Some(&10));
}

#[test]
fn a_cache_without_room_keeps_nothing() {
    let mut cache: StatementCache<u32> = StatementCache::new(0);
    assert_eq!(cache.begin("a"), Lookup::Prepare);
    assert_eq!(cache.begin("a"), Lookup::Wait);
    cache.complete("a", 1);
    assert_eq!(cache.len(), 0);
    assert_eq!(cache.handle("a"), None);
    assert_eq!(cache.begin("a"), Lookup::Prepare);
}

#[test]
fn texts_are_told_apart_letter_by_letter() {
    let mut cache: StatementCache<u32> = StatementCache::new(4);
    cache.complete("select * from t", 1);
    assert_eq!(cache.begin("select * from t "), Lookup::Prepare);
    assert_eq!(cache.begin("SELECT * from t"), Lookup::Prepare);
    assert_eq!(cache.begin("select * from t"), Lookup::Hit);
}
