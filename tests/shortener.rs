use shortener::{
    accept_long_url, after_insert, cool_shortener, hex16, settle_by_long, settle_by_short, shorten_start,
    AfterInsert, Mapping, MemStore, ServiceError, ShortenPlan, Shortener, StoreError, Table,
};
use std::hash::{DefaultHasher, Hash, Hasher};

fn s(text: &str) -> String {
    text.to_string()
}

#[test]
fn scenario_two_urls() {
    let mut svc = Shortener::new();
    let c1 = svc.shorten(&s("https://example.com/a")).unwrap();
    let c2 = svc.shorten(&s("https://example.com/b")).unwrap();
    assert_ne!(c1, c2);
    assert_eq!(svc.resolve(&c1), Ok(s("https://example.com/a")));
    assert_eq!(svc.resolve(&c2), Ok(s("https://example.com/b")));
    assert_eq!(svc.resolve(&s("zzzzzz")), Err(ServiceError::NotFound));
}

#[test]
fn shorten_twice_gives_same_code_and_one_row() {
    let mut svc = Shortener::new();
    let url = s("https://example.com/twice");
    let first = svc.shorten(&url).unwrap();
    let calls = svc.store().calls();
    let second = svc.shorten(&url).unwrap();
    assert_eq!(first, second);
    assert_eq!(svc.store().calls(), calls);
    assert_eq!(svc.store().count_long_url(&url), 1);
    assert_eq!(svc.store().row_count(), 1);
}

#[test]
fn resolve_of_shorten_round_trips() {
    let mut svc = Shortener::new();
    for url in ["https://a.example", "https://b.example/x?y=1", "x"] {
        let code = svc.shorten(&s(url)).unwrap();
        assert_eq!(svc.resolve(&code), Ok(s(url)));
    }
}

#[test]
fn warm_resolve_makes_no_store_call() {
    let mut svc = Shortener::new();
    let code = svc.shorten(&s("https://example.com/warm")).unwrap();
    let calls = svc.store().calls();
    assert_eq!(calls, 1);
    assert_eq!(svc.resolve(&code), Ok(s("https://example.com/warm")));
    assert_eq!(svc.store().calls(), calls);
}

#[test]
fn racing_callers_agree_on_one_code() {
    let mut svc = Shortener::new();
    let url = s("https://example.com/race");
    let mut codes = Vec::new();
    for _ in 0..5 {
        codes.push(svc.shorten_missed(&url).unwrap());
    }
    for c in &codes {
        assert_eq!(c, &codes[0]);
    }
    assert_eq!(svc.store().count_long_url(&url), 1);
    assert_eq!(svc.store().row_count(), 1);
    assert_eq!(svc.resolve(&codes[0]), Ok(url));
}

#[test]
fn resolve_unknown_is_not_found_and_keeps_tables() {
    let mut svc = Shortener::new();
    svc.shorten(&s("https://example.com/kept")).unwrap();
    let lts = svc.long_to_short().len();
    let stl = svc.short_to_long().len();
    assert_eq!(svc.resolve(&s("doesNotExist")), Err(ServiceError::NotFound));
    assert_eq!(svc.long_to_short().len(), lts);
    assert_eq!(svc.short_to_long().len(), stl);
}

#[test]
fn cold_resolve_reads_through_the_store() {
    let mut store = MemStore::new();
    assert_eq!(store.insert(Mapping::new(s("https://cold.example"), s("abc"))), Ok(()));
    let mut svc = Shortener::with_store(store);
    assert_eq!(svc.short_to_long().len(), 0);
    let before = svc.store().calls();
    assert_eq!(svc.resolve(&s("abc")), Ok(s("https://cold.example")));
    assert_eq!(svc.store().calls(), before + 1);
    assert_eq!(svc.short_to_long().len(), 1);
    assert_eq!(svc.long_to_short().len(), 0);
    assert_eq!(svc.resolve(&s("abc")), Ok(s("https://cold.example")));
    assert_eq!(svc.store().calls(), before + 1);
}

#[test]
fn conflict_takes_the_stored_code() {
    let mut store = MemStore::new();
    store.insert(Mapping::new(s("https://old.example"), s("legacy"))).unwrap();
    let mut svc = Shortener::with_store(store);
    let before = svc.store().calls();
    assert_eq!(svc.shorten(&s("https://old.example")), Ok(s("legacy")));
    assert_eq!(svc.store().calls(), before + 2);
    assert_eq!(svc.store().row_count(), 1);
    assert_eq!(svc.resolve(&s("legacy")), Ok(s("https://old.example")));
    assert_eq!(svc.store().calls(), before + 2);
}

#[test]
fn colliding_code_is_unresolvable() {
    let mut store = MemStore::new();
    let taken = cool_shortener(&s("https://y.example"));
    store.insert(Mapping::new(s("https://other.example"), taken)).unwrap();
    let mut svc = Shortener::with_store(store);
    assert_eq!(svc.shorten(&s("https://y.example")), Err(ServiceError::Unresolvable));
    assert_eq!(svc.long_to_short().len(), 0);
    assert_eq!(svc.short_to_long().len(), 0);
    assert_eq!(svc.store().row_count(), 1);
}

#[test]
fn code_is_the_default_hash_in_sixteen_hex_digits() {
    let url = s("https://example.com/a");
    let mut h = DefaultHasher::new();
    url.hash(&mut h);
    let expected = format!("{:016x}", h.finish());
    let code = cool_shortener(&url);
    assert_eq!(code, expected);
    assert_eq!(code.len(), 16);
    assert_ne!(code, url);
    assert_eq!(cool_shortener(&url), code);
}

#[test]
fn hex16_values() {
    assert_eq!(hex16(0), "0000000000000000");
    assert_eq!(hex16(255), "00000000000000ff");
    assert_eq!(hex16(0x0123456789abcdef), "0123456789abcdef");
    assert_eq!(hex16(u64::MAX), "ffffffffffffffff");
}

#[test]
fn table_put_is_last_write_wins() {
    let mut t = Table::new();
    assert_eq!(t.get(&s("k")), None);
    t.put(s("k"), s("v1"));
    t.put(s("j"), s("w"));
    t.put(s("k"), s("v2"));
    assert_eq!(t.get(&s("k")), Some(s("v2")));
    assert_eq!(t.get(&s("j")), Some(s("w")));
    assert_eq!(t.len(), 2);
}

#[test]
fn store_rejects_repeated_columns() {
    let mut store = MemStore::new();
    assert_eq!(store.insert(Mapping::new(s("a"), s("1"))), Ok(()));
    assert_eq!(store.insert(Mapping::new(s("b"), s("1"))), Err(StoreError::UniqueViolation));
    assert_eq!(store.insert(Mapping::new(s("a"), s("2"))), Err(StoreError::UniqueViolation));
    assert_eq!(store.row_count(), 1);
    assert_eq!(store.calls(), 3);
    let m = store.lookup_by_short_code(&s("1")).unwrap();
    assert_eq!((m.long_url, m.short_code), (s("a"), s("1")));
    let m = store.lookup_by_long_url(&s("a")).unwrap();
    assert_eq!(m.short_code, s("1"));
    assert!(store.lookup_by_short_code(&s("2")).is_none());
    assert!(store.lookup_by_long_url(&s("b")).is_none());
    assert_eq!(store.calls(), 7);
}

#[test]
fn shorten_start_plans() {
    let mut t = Table::new();
    let url = s("https://plan.example");
    match shorten_start(&t, &url) {
        ShortenPlan::Insert(m) => {
            assert_eq!(m.long_url, url);
            assert_eq!(m.short_code, cool_shortener(&url));
        }
        ShortenPlan::Cached(_) => panic!("empty table cannot hit"),
    }
    t.put(url.clone(), s("c0de"));
    match shorten_start(&t, &url) {
        ShortenPlan::Cached(c) => assert_eq!(c, s("c0de")),
        ShortenPlan::Insert(_) => panic!("warm table must hit"),
    }
}

#[test]
fn store_outcomes_are_classified() {
    assert_eq!(after_insert(&Ok(())), AfterInsert::Record);
    assert_eq!(after_insert(&Err(StoreError::UniqueViolation)), AfterInsert::Recheck);
    assert_eq!(
        after_insert(&Err(StoreError::Unavailable)),
        AfterInsert::Fail(ServiceError::StoreUnavailable)
    );
    let url = s("u");
    assert!(matches!(
        settle_by_long(&url, Err(StoreError::Unavailable)),
        Err(ServiceError::StoreUnavailable)
    ));
    assert!(matches!(settle_by_long(&url, Ok(None)), Err(ServiceError::Unresolvable)));
    assert!(matches!(
        settle_by_long(&url, Ok(Some(Mapping::new(s("v"), s("c"))))),
        Err(ServiceError::Unresolvable)
    ));
    let m = settle_by_long(&url, Ok(Some(Mapping::new(s("u"), s("c"))))).unwrap();
    assert_eq!(m.short_code, s("c"));
    let code = s("c");
    assert!(matches!(settle_by_short(&code, Ok(None)), Err(ServiceError::NotFound)));
    assert!(matches!(
        settle_by_short(&code, Err(StoreError::Unavailable)),
        Err(ServiceError::StoreUnavailable)
    ));
    let m = settle_by_short(&code, Ok(Some(Mapping::new(s("u"), s("c"))))).unwrap();
    assert_eq!(m.long_url, s("u"));
}

#[test]
fn missing_or_empty_url_is_invalid_input() {
    assert_eq!(accept_long_url(None), Err(ServiceError::InvalidInput));
    assert_eq!(accept_long_url(Some(s(""))), Err(ServiceError::InvalidInput));
    assert_eq!(accept_long_url(Some(s("https://ok.example"))), Ok(s("https://ok.example")));
}
