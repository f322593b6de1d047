use clawden::adapters::{OpenClawAdapter, PicoClawAdapter, ZeroClawAdapter};
use clawden::registry::AdapterRegistry;
use clawden::runtime::{ClawAdapter, ClawRuntime};
use std::sync::Arc;

fn open() -> Arc<dyn ClawAdapter> {
    Arc::new(OpenClawAdapter)
}

fn zero() -> Arc<dyn ClawAdapter> {
    Arc::new(ZeroClawAdapter)
}

fn pico() -> Arc<dyn ClawAdapter> {
    Arc::new(PicoClawAdapter)
}

#[test]
fn register_dynamic_says_whether_it_displaced() {
    let mut registry: AdapterRegistry<dyn ClawAdapter> = AdapterRegistry::new();
    assert!(!registry.register_dynamic(ClawRuntime::OpenClaw, open()));
    let found = registry.get(&ClawRuntime::OpenClaw).unwrap();
    assert_eq!(found.metadata().language, "typescript");
    let replacement = zero();
    assert!(registry.register_dynamic(ClawRuntime::OpenClaw, replacement.clone()));
    let found = registry.get(&ClawRuntime::OpenClaw).unwrap();
    assert!(Arc::ptr_eq(&found, &replacement));
    assert_eq!(found.metadata().language, "rust");
    assert_eq!(registry.list(), vec![ClawRuntime::OpenClaw]);
}

#[test]
fn register_get_has_unregister() {
    let mut registry: AdapterRegistry<dyn ClawAdapter> = AdapterRegistry::new();
    assert!(!registry.has(&ClawRuntime::ZeroClaw));
    assert!(registry.get(&ClawRuntime::ZeroClaw).is_none());
    registry.register(ClawRuntime::ZeroClaw, zero());
    assert!(registry.has(&ClawRuntime::ZeroClaw));
    assert!(!registry.has(&ClawRuntime::PicoClaw));
    assert!(!registry.unregister(&ClawRuntime::PicoClaw));
    assert!(registry.unregister(&ClawRuntime::ZeroClaw));
    assert!(!registry.unregister(&ClawRuntime::ZeroClaw));
    assert!(!registry.has(&ClawRuntime::ZeroClaw));
    assert_eq!(registry.adapters_map().len(), 0);
}

#[test]
fn list_is_in_canonical_order() {
    let mut registry: AdapterRegistry<dyn ClawAdapter> = AdapterRegistry::new();
    registry.register(ClawRuntime::ZeroClaw, zero());
    registry.register(ClawRuntime::PicoClaw, pico());
    registry.register(ClawRuntime::OpenClaw, open());
    assert_eq!(
        registry.list(),
        vec![ClawRuntime::OpenClaw, ClawRuntime::PicoClaw, ClawRuntime::ZeroClaw]
    );
    let names: Vec<ClawRuntime> = registry.list_metadata().iter().map(|m| m.runtime).collect();
    assert_eq!(
        names,
        vec![ClawRuntime::OpenClaw, ClawRuntime::PicoClaw, ClawRuntime::ZeroClaw]
    );
    let available: Vec<ClawRuntime> =
        registry.detect_available().iter().map(|m| m.runtime).collect();
    assert_eq!(
        available,
        vec![ClawRuntime::ZeroClaw, ClawRuntime::PicoClaw, ClawRuntime::OpenClaw]
    );
    let entries: Vec<ClawRuntime> = registry.adapters_map().iter().map(|e| e.0).collect();
    assert_eq!(
        entries,
        vec![ClawRuntime::ZeroClaw, ClawRuntime::PicoClaw, ClawRuntime::OpenClaw]
    );
}

#[test]
fn list_metadata_orders_by_declared_runtime() {
    let mut registry: AdapterRegistry<dyn ClawAdapter> = AdapterRegistry::new();
    registry.register(ClawRuntime::IronClaw, zero());
    registry.register(ClawRuntime::NanoClaw, open());
    registry.register(ClawRuntime::NullClaw, zero());
    let declared: Vec<ClawRuntime> = registry.list_metadata().iter().map(|m| m.runtime).collect();
    assert_eq!(
        declared,
        vec![ClawRuntime::OpenClaw, ClawRuntime::ZeroClaw, ClawRuntime::ZeroClaw]
    );
}

#[test]
fn capability_lookup_ignores_ascii_case_and_takes_first_registered() {
    let mut registry: AdapterRegistry<dyn ClawAdapter> = AdapterRegistry::new();
    registry.register(ClawRuntime::PicoClaw, pico());
    registry.register(ClawRuntime::ZeroClaw, zero());
    registry.register(ClawRuntime::OpenClaw, open());
    assert_eq!(registry.detect_runtime_for_capability("chat"), Some(ClawRuntime::PicoClaw));
    assert_eq!(
        registry.detect_runtime_for_capability("REASONING"),
        Some(ClawRuntime::ZeroClaw)
    );
    assert_eq!(registry.detect_runtime_for_capability("Tools"), Some(ClawRuntime::OpenClaw));
    assert_eq!(registry.detect_runtime_for_capability("embedded"), Some(ClawRuntime::PicoClaw));
    assert_eq!(registry.detect_runtime_for_capability("vision"), None);
    assert_eq!(registry.detect_runtime_for_capability("cha"), None);
    assert_eq!(registry.detect_runtime_for_capability("\u{212A}"), None);
}

#[test]
fn registry_of_one_kind_of_adapter() {
    let mut registry: AdapterRegistry<PicoClawAdapter> = AdapterRegistry::new();
    registry.register(ClawRuntime::PicoClaw, Arc::new(PicoClawAdapter));
    assert_eq!(registry.list(), vec![ClawRuntime::PicoClaw]);
}
