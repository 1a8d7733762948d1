//! The active-client cache: reuse only while coherent, invalidation on
//! every identity mutation.
use goostr::cache::{CacheDecision, ClientCache};
use goostr::keystore::KeyStore;
use goostr::secrets::SecretStore;
use goostr::server::ServiceState;
use goostr::settings::SettingsStore;

fn pass() -> Vec<u8> {
    vec![9u8; 32]
}

fn service() -> ServiceState {
    ServiceState {
        keystore: KeyStore::new(pass(), SecretStore::new_memory()),
        settings: SettingsStore::load_or_init(None, pass()).unwrap(),
        cache: ClientCache::new(),
    }
}

#[test]
fn no_active_key() {
    let svc = service();
    assert!(matches!(svc.ensure_decision(), CacheDecision::NoActive));
}

#[test]
fn build_then_reuse() {
    let mut svc = service();
    svc.keys_generate("a", true, false).unwrap();
    assert!(matches!(svc.ensure_decision(), CacheDecision::Rebuild));
    let active = svc.keys_active().unwrap();
    let id = svc.note_built(&active.label, &active.public_key);
    match svc.ensure_decision() {
        CacheDecision::UseLive(got) => assert_eq!(got, id),
        other => panic!("expected reuse, got {:?}", discriminant_name(&other)),
    }
}

#[test]
fn set_active_invalidates() {
    let mut svc = service();
    svc.keys_generate("a", true, false).unwrap();
    svc.keys_generate("b", false, false).unwrap();
    let a = svc.keys_active().unwrap();
    let id_a = svc.note_built(&a.label, &a.public_key);
    // switching identities drops the live client
    svc.keys_set_active("b").unwrap();
    assert!(matches!(svc.ensure_decision(), CacheDecision::Rebuild));
    let b = svc.keys_active().unwrap();
    assert_eq!(b.label, "b");
    let id_b = svc.note_built(&b.label, &b.public_key);
    assert_ne!(id_a, id_b);
    match svc.ensure_decision() {
        CacheDecision::UseLive(got) => assert_eq!(got, id_b),
        _ => panic!("expected reuse of the new client"),
    }
}

#[test]
fn every_mutation_invalidates() {
    let mut svc = service();
    svc.keys_generate("a", true, false).unwrap();
    let a = svc.keys_active().unwrap();
    svc.note_built(&a.label, &a.public_key);
    svc.keys_generate("b", false, false).unwrap();
    assert!(matches!(svc.ensure_decision(), CacheDecision::Rebuild));
    svc.note_built(&a.label, &a.public_key);
    svc.keys_rename(Some("b"), "c").unwrap();
    assert!(matches!(svc.ensure_decision(), CacheDecision::Rebuild));
    svc.note_built(&a.label, &a.public_key);
    svc.keys_remove("c").unwrap();
    assert!(matches!(svc.ensure_decision(), CacheDecision::Rebuild));
}

fn discriminant_name(d: &CacheDecision) -> &'static str {
    match d {
        CacheDecision::UseLive(_) => "UseLive",
        CacheDecision::Rebuild => "Rebuild",
        CacheDecision::NoActive => "NoActive",
    }
}
