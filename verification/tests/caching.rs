use std::cell::Cell;

use poke_shakespeare::api::Alpha;
use poke_shakespeare::cache::Cache;
use poke_shakespeare::services::ProviderError;

fn alpha(s: &str) -> Alpha {
    Alpha::try_new(s.to_string()).unwrap()
}

#[test]
fn a_miss_computes_and_stores_the_entry() {
    let mut cache = Cache::new(4);
    let calls = Cell::new(0usize);
    let a = alpha("pikachu");

    let r: Result<Option<String>, ProviderError> = cache.get_or_calculate(&a, || {
        calls.set(calls.get() + 1);
        Ok(Some("yellow".to_string()))
    });
    assert_eq!(r, Ok(Some("yellow".to_string())));
    assert_eq!(calls.get(), 1);
}

#[test]
fn a_hit_answers_without_computing() {
    let mut cache = Cache::new(4);
    let a = alpha("pikachu");
    let r: Result<Option<String>, ProviderError> =
        cache.get_or_calculate(&a, || Ok(Some("yellow".to_string())));
    assert_eq!(r, Ok(Some("yellow".to_string())));

    let r2: Result<Option<String>, ProviderError> =
        cache.get_or_calculate(&a, || panic!("a cached name must not be recomputed"));
    assert_eq!(r2, Ok(Some("yellow".to_string())));
}

#[test]
fn a_confirmed_absence_is_memoized() {
    let mut cache = Cache::new(4);
    let a = alpha("ghost");
    let r: Result<Option<String>, ProviderError> = cache.get_or_calculate(&a, || Ok(None));
    assert_eq!(r, Ok(None));

    let r2: Result<Option<String>, ProviderError> =
        cache.get_or_calculate(&a, || panic!("a memoized absence must not be recomputed"));
    assert_eq!(r2, Ok(None));
}

#[test]
fn a_failure_is_propagated_and_not_memoized() {
    let mut cache = Cache::new(4);
    let a = alpha("flaky");
    let r: Result<Option<String>, ProviderError> = cache.get_or_calculate(&a, || {
        Err(ProviderError { message: "boom".to_string() })
    });
    assert_eq!(r, Err(ProviderError { message: "boom".to_string() }));

    // the failed attempt left no entry, so the computation runs again
    let calls = Cell::new(0usize);
    let r2: Result<Option<String>, ProviderError> = cache.get_or_calculate(&a, || {
        calls.set(calls.get() + 1);
        Ok(Some("recovered".to_string()))
    });
    assert_eq!(r2, Ok(Some("recovered".to_string())));
    assert_eq!(calls.get(), 1);
}

#[test]
fn filling_a_full_cache_evicts_the_least_recently_used_name() {
    let mut cache = Cache::new(2);
    let a = alpha("a");
    let b = alpha("b");
    let c = alpha("c");
    let fill = |cache: &mut Cache, k: &Alpha, v: &str| {
        let r: Result<Option<String>, ProviderError> =
            cache.get_or_calculate(k, || Ok(Some(v.to_string())));
        r.unwrap()
    };
    fill(&mut cache, &a, "one");
    fill(&mut cache, &b, "two");
    fill(&mut cache, &c, "three");

    // `a` was least recently used and is gone; `b` and `c` answer from cache
    let r: Result<Option<String>, ProviderError> =
        cache.get_or_calculate(&c, || panic!("c must still be cached"));
    assert_eq!(r, Ok(Some("three".to_string())));
    let r: Result<Option<String>, ProviderError> =
        cache.get_or_calculate(&b, || panic!("b must still be cached"));
    assert_eq!(r, Ok(Some("two".to_string())));
    let recomputed = Cell::new(false);
    let r: Result<Option<String>, ProviderError> = cache.get_or_calculate(&a, || {
        recomputed.set(true);
        Ok(Some("one again".to_string()))
    });
    assert_eq!(r, Ok(Some("one again".to_string())));
    assert!(recomputed.get());
}

#[test]
fn a_hit_refreshes_recency_so_another_name_is_evicted() {
    let mut cache = Cache::new(2);
    let a = alpha("a");
    let b = alpha("b");
    let c = alpha("c");
    let fill = |cache: &mut Cache, k: &Alpha, v: &str| {
        let r: Result<Option<String>, ProviderError> =
            cache.get_or_calculate(k, || Ok(Some(v.to_string())));
        r.unwrap()
    };
    fill(&mut cache, &a, "one");
    fill(&mut cache, &b, "two");
    // touch `a`: now `b` is the least recently used name
    let r: Result<Option<String>, ProviderError> =
        cache.get_or_calculate(&a, || panic!("a must still be cached"));
    assert_eq!(r, Ok(Some("one".to_string())));
    fill(&mut cache, &c, "three");

    // `a` survived the eviction, `b` did not
    let r: Result<Option<String>, ProviderError> =
        cache.get_or_calculate(&a, || panic!("a must have been kept"));
    assert_eq!(r, Ok(Some("one".to_string())));
    let recomputed = Cell::new(false);
    let r: Result<Option<String>, ProviderError> = cache.get_or_calculate(&b, || {
        recomputed.set(true);
        Ok(None)
    });
    assert_eq!(r, Ok(None));
    assert!(recomputed.get());
}
