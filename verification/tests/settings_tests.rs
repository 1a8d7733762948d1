//! The settings store: the keyed table, its envelope, and the service-level
//! rule that renames leave it untouched.
use goostr::secrets::SecretStore;
use goostr::server::ServiceState;
use goostr::settings::{
    decrypt_settings, encrypt_settings, FollowEntry, KeySettings, ProfileMetadata, SettingsFile,
    SettingsStore,
};
use goostr::cache::ClientCache;
use goostr::keystore::{ExportFormat, KeyStore};

fn pass() -> Vec<u8> {
    vec![5u8; 32]
}

fn relays(urls: &[&str]) -> KeySettings {
    KeySettings {
        relays: urls.iter().map(|u| u.to_string()).collect(),
        metadata: None,
        follows: None,
    }
}

#[test]
fn save_get_remove() {
    let mut st = SettingsStore::load_or_init(None, pass()).unwrap();
    assert!(st.get_settings("aa").is_none());
    st.save_settings("aa", relays(&["wss://r1", "wss://r2"])).unwrap();
    let got = st.get_settings("aa").unwrap();
    assert_eq!(got.relays, vec!["wss://r1".to_string(), "wss://r2".to_string()]);
    st.save_settings("aa", relays(&["wss://r3"])).unwrap();
    assert_eq!(st.get_settings("aa").unwrap().relays, vec!["wss://r3".to_string()]);
    st.remove_settings("aa").unwrap();
    assert!(st.get_settings("aa").is_none());
}

#[test]
fn all_settings_sorted() {
    let mut st = SettingsStore::load_or_init(None, pass()).unwrap();
    st.save_settings("bb", relays(&[])).unwrap();
    st.save_settings("aa", relays(&[])).unwrap();
    let all = st.all_settings();
    assert_eq!(all.len(), 2);
    assert_eq!(all[0].pubkey, "aa");
    assert_eq!(all[1].pubkey, "bb");
}

#[test]
fn settings_envelope_round_trip() {
    let mut sf = SettingsFile::new();
    let mut m = ProfileMetadata::empty();
    m.name = Some("Ann \"A\"".to_string());
    m.website = Some("https://example.invalid".to_string());
    sf.save(
        "aa",
        KeySettings {
            relays: vec!["wss://r1".to_string()],
            metadata: Some(m),
            follows: Some(vec![
                FollowEntry {
                    pubkey: "deadbeef".to_string(),
                    relay_url: Some("wss://r2".to_string()),
                    petname: None,
                },
                FollowEntry { pubkey: "cafe".to_string(), relay_url: None, petname: Some("bud".to_string()) },
            ]),
        },
    );
    let blob = encrypt_settings(&sf, &pass()).unwrap();
    let back = decrypt_settings(&blob, &pass()).unwrap();
    assert_eq!(back.settings.len(), 1);
    let v = &back.settings[0].value;
    assert_eq!(v.relays, vec!["wss://r1".to_string()]);
    let md = v.metadata.as_ref().unwrap();
    assert_eq!(md.name.as_deref(), Some("Ann \"A\""));
    assert!(md.about.is_none());
    let fs = v.follows.as_ref().unwrap();
    assert_eq!(fs.len(), 2);
    assert_eq!(fs[0].pubkey, "deadbeef");
    assert_eq!(fs[1].petname.as_deref(), Some("bud"));
}

#[test]
fn rename_preserves_settings() {
    let keystore = KeyStore::new(pass(), SecretStore::new_memory());
    let settings = SettingsStore::load_or_init(None, pass()).unwrap();
    let mut svc = ServiceState { keystore, settings, cache: ClientCache::new() };
    svc.keys_generate("dave", true, true).unwrap();
    let pubkey_hex = svc
        .keystore
        .export_key(Some("dave"), ExportFormat::Bech32, false)
        .unwrap()
        .public_key_hex;
    svc.save_settings(&pubkey_hex, relays(&["wss://r1"])).unwrap();
    svc.keys_rename(Some("dave"), "dan").unwrap();
    let got = svc.get_settings(&pubkey_hex).unwrap();
    assert_eq!(got.relays, vec!["wss://r1".to_string()]);
}
