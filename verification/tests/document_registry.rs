use std::str::FromStr;
use std::time::Instant;
use tower_lsp::lsp_types::Url;
use zed_pdf_lsp::document_registry::DocumentRegistry;

fn uri(s: &str) -> String {
    Url::from_str(s).unwrap().to_string()
}

#[test]
fn test_new_registry_is_empty() {
    let registry = DocumentRegistry::new();
    assert_eq!(registry.get_all_open().len(), 0);
}

#[test]
fn test_register_document() {
    let mut registry = DocumentRegistry::new();
    let uri = uri("file:///test.pdf");

    let result = registry.register(uri.clone());
    assert!(result.is_ok());
    assert!(registry.is_open(&uri));
}

#[test]
fn test_unregister_document() {
    let mut registry = DocumentRegistry::new();
    let uri = uri("file:///test.pdf");

    registry.register(uri.clone()).unwrap();
    assert!(registry.is_open(&uri));

    let result = registry.unregister(&uri);
    assert!(result.is_ok());
    assert!(!registry.is_open(&uri));
}

#[test]
fn test_is_open_returns_false_for_unregistered() {
    let registry = DocumentRegistry::new();
    let uri = uri("file:///test.pdf");

    assert!(!registry.is_open(&uri));
}

#[test]
fn test_get_all_open_returns_all_registered() {
    let mut registry = DocumentRegistry::new();
    let uri1 = uri("file:///test1.pdf");
    let uri2 = uri("file:///test2.pdf");
    let uri3 = uri("file:///test3.pdf");

    registry.register(uri1.clone()).unwrap();
    registry.register(uri2.clone()).unwrap();
    registry.register(uri3.clone()).unwrap();

    let all_open = registry.get_all_open();
    assert_eq!(all_open.len(), 3);
    assert!(all_open.contains(&uri1));
    assert!(all_open.contains(&uri2));
    assert!(all_open.contains(&uri3));
}

#[test]
fn test_multiple_documents_simultaneously() {
    let mut registry = DocumentRegistry::new();
    let uri1 = uri("file:///doc1.pdf");
    let uri2 = uri("file:///doc2.pdf");

    registry.register(uri1.clone()).unwrap();
    registry.register(uri2.clone()).unwrap();

    assert!(registry.is_open(&uri1));
    assert!(registry.is_open(&uri2));
    assert_eq!(registry.get_all_open().len(), 2);

    registry.unregister(&uri1).unwrap();
    assert!(!registry.is_open(&uri1));
    assert!(registry.is_open(&uri2));
    assert_eq!(registry.get_all_open().len(), 1);
}

#[test]
fn test_document_state_fields() {
    let mut registry = DocumentRegistry::new();
    let uri = uri("file:///test.pdf");

    let before = Instant::now();
    registry.register(uri.clone()).unwrap();
    let after = Instant::now();

    assert!(registry.is_open(&uri));

    let state = registry.state_of(&uri).unwrap();

    assert_eq!(state.uri, uri);
    assert!(state.opened_at >= before && state.opened_at <= after);
    assert_eq!(state.content_hash, None);
}

#[test]
fn bench_register_latency() {
    let mut registry = DocumentRegistry::new();
    let uri = uri("file:///bench/test.pdf");

    let start = Instant::now();
    for _ in 0..1000 {
        registry.register(uri.clone()).unwrap();
    }
    let elapsed = start.elapsed();
    let avg_ms = elapsed.as_millis() as f64 / 1000.0;

    assert!(
        avg_ms < 100.0,
        "Register avg latency {:.3}ms, expected < 100ms",
        avg_ms
    );
}

#[test]
fn bench_unregister_latency() {
    let mut registry = DocumentRegistry::new();
    let uri = uri("file:///bench/test.pdf");
    registry.register(uri.clone()).unwrap();

    let start = Instant::now();
    for _ in 0..1000 {
        registry.unregister(&uri).unwrap();
        registry.register(uri.clone()).unwrap();
    }
    let elapsed = start.elapsed();
    let avg_ms = elapsed.as_millis() as f64 / 1000.0;

    assert!(
        avg_ms < 100.0,
        "Unregister+register cycle avg latency {:.3}ms, expected < 100ms",
        avg_ms
    );
}

#[test]
fn bench_is_open_lookup_performance() {
    let mut registry = DocumentRegistry::new();

    for i in 0..100 {
        let u = uri(&format!("file:///bench/doc{}.pdf", i));
        registry.register(u).unwrap();
    }

    let lookup_uri = uri("file:///bench/doc50.pdf");
    let missing_uri = uri("file:///bench/missing.pdf");

    let start = Instant::now();
    for _ in 0..10_000 {
        let _ = registry.is_open(&lookup_uri);
        let _ = registry.is_open(&missing_uri);
    }
    let elapsed = start.elapsed();
    let avg_us = elapsed.as_micros() as f64 / 20_000.0;

    assert!(
        avg_us < 1000.0,
        "is_open avg latency {:.1}µs, expected < 1000µs",
        avg_us
    );
}

#[test]
fn bench_registry_with_many_documents() {
    let mut registry = DocumentRegistry::new();

    let start = Instant::now();
    for i in 0..200 {
        let u = uri(&format!("file:///bench/doc{}.pdf", i));
        registry.register(u).unwrap();
    }
    let register_elapsed = start.elapsed();

    assert_eq!(registry.get_all_open().len(), 200);

    assert!(
        register_elapsed.as_secs_f64() < 1.0,
        "Registering 200 documents took {:.3}s, expected < 1s",
        register_elapsed.as_secs_f64()
    );

    let u = uri("file:///bench/doc150.pdf");
    let start = Instant::now();
    for _ in 0..10_000 {
        let _ = registry.is_open(&u);
    }
    let lookup_elapsed = start.elapsed();
    let avg_us = lookup_elapsed.as_micros() as f64 / 10_000.0;

    assert!(
        avg_us < 1000.0,
        "is_open with 200 docs avg {:.1}µs, expected < 1000µs",
        avg_us
    );

    let start = Instant::now();
    for i in 0..200 {
        let u = uri(&format!("file:///bench/doc{}.pdf", i));
        registry.unregister(&u).unwrap();
    }
    let unregister_elapsed = start.elapsed();

    assert_eq!(registry.get_all_open().len(), 0);
    assert!(
        unregister_elapsed.as_secs_f64() < 1.0,
        "Unregistering 200 documents took {:.3}s, expected < 1s",
        unregister_elapsed.as_secs_f64()
    );
}

// Laws on concrete values.

#[test]
fn register_at_records_the_given_time() {
    let mut registry = DocumentRegistry::new();
    let u = uri("file:///timed.pdf");
    let earlier = Instant::now();
    while Instant::now() <= earlier {}
    registry.register(u.clone()).unwrap();
    assert!(registry.state_of(&u).unwrap().opened_at > earlier);
    registry.register_at(u.clone(), earlier).unwrap();
    let state = registry.state_of(&u).unwrap();
    assert_eq!(state.opened_at, earlier);
    assert_eq!(state.content_hash, None);
    assert_eq!(registry.get_all_open().len(), 1);
}

#[test]
fn registering_twice_keeps_one_entry() {
    let mut registry = DocumentRegistry::new();
    let u = uri("file:///twice.pdf");
    registry.register(u.clone()).unwrap();
    registry.register(u.clone()).unwrap();
    assert_eq!(registry.get_all_open(), vec![u.clone()]);
    assert!(registry.is_open(&u));
}

#[test]
fn open_then_close_restores_registry() {
    let mut registry = DocumentRegistry::new();
    let a = uri("file:///a.pdf");
    let b = uri("file:///b.pdf");
    registry.register(a.clone()).unwrap();
    let before = registry.get_all_open();
    registry.register(b.clone()).unwrap();
    registry.unregister(&b).unwrap();
    assert_eq!(registry.get_all_open(), before);
    assert!(registry.state_of(&b).is_none());
}

#[test]
fn closing_one_document_keeps_the_others() {
    let mut registry = DocumentRegistry::new();
    let a = uri("file:///keep/a.pdf");
    let b = uri("file:///keep/b.pdf");
    let c = uri("file:///keep/c.pdf");
    for u in [&a, &b, &c] {
        registry.register(u.clone()).unwrap();
    }
    let opened_c = registry.state_of(&c).unwrap().opened_at;
    registry.unregister(&b).unwrap();
    assert!(registry.is_open(&a));
    assert!(!registry.is_open(&b));
    assert!(registry.is_open(&c));
    assert_eq!(registry.state_of(&c).unwrap().opened_at, opened_c);
    let mut all = registry.get_all_open();
    all.sort();
    assert_eq!(all, vec![a, c]);
}

#[test]
fn closing_an_unknown_document_changes_nothing() {
    let mut registry = DocumentRegistry::new();
    let a = uri("file:///a.pdf");
    registry.register(a.clone()).unwrap();
    assert!(registry.unregister(&uri("file:///missing.pdf")).is_ok());
    assert_eq!(registry.get_all_open(), vec![a]);
}
