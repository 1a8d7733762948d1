//! The key index store: generation, import, export, rename, removal, and
//! reloading the persisted state.
use goostr::error::Error;
use goostr::keyjson::print_keyfile;
use goostr::keystore::{verify_key, derive_public_from_private, ExportFormat, KeyStore, KeyType};
use goostr::secrets::SecretStore;

fn pass() -> Vec<u8> {
    vec![42u8; 32]
}

fn store() -> KeyStore {
    KeyStore::new(pass(), SecretStore::new_memory())
}

const SK1_HEX: &str = "0000000000000000000000000000000000000000000000000000000000000001";
const SK1_PUB_HEX: &str = "79be667ef9dcbbac55a06295ce870b07029bfcdb2dce28d959f2815b16f81798";

#[test]
fn generate_and_list() {
    let mut ks = store();
    let before = chrono::Utc::now().timestamp();
    let (entry, _blob) = ks.generate("alice", true, true).unwrap();
    let after = chrono::Utc::now().timestamp();
    assert_eq!(entry.label, "alice");
    assert!(entry.public_key.starts_with("npub1"));
    assert!(entry.created_at >= before && entry.created_at <= after + 2);
    let keys = ks.list();
    assert_eq!(keys.len(), 1);
    assert_eq!(keys[0].label, "alice");
    let active = ks.get_active().unwrap();
    assert_eq!(active.label, "alice");
}

#[test]
fn generate_duplicate_label() {
    let mut ks = store();
    ks.generate("alice", true, true).unwrap();
    assert_eq!(ks.generate("alice", true, true).unwrap_err(), Error::LabelExists);
}

#[test]
fn import_hex_and_export_bech32() {
    let mut ks = store();
    ks.import_secret("bob", SK1_HEX, true, true).unwrap();
    let res = ks.export_key(Some("bob"), ExportFormat::Bech32, true).unwrap();
    assert_eq!(res.label, "bob");
    assert!(res.public_key_npub.starts_with("npub1"));
    assert_eq!(res.public_key_hex, SK1_PUB_HEX);
    assert!(res.private_key_nsec.as_deref().unwrap().starts_with("nsec1"));
    assert!(res.private_key_hex.is_none());
    assert!(res.warning.is_some());
}

#[test]
fn export_hex_and_both() {
    let mut ks = store();
    ks.import_secret("bob", SK1_HEX, true, true).unwrap();
    let hex = ks.export_key(Some("bob"), ExportFormat::Hex, true).unwrap();
    assert_eq!(hex.private_key_hex.as_deref().unwrap(), SK1_HEX);
    assert!(hex.private_key_nsec.is_none());
    let both = ks.export_key(Some("bob"), ExportFormat::Both, true).unwrap();
    assert!(both.private_key_nsec.is_some());
    assert!(both.private_key_hex.is_some());
}

#[test]
fn export_without_private() {
    let mut ks = store();
    ks.generate("a", true, true).unwrap();
    let res = ks.export_key(None, ExportFormat::Bech32, false).unwrap();
    assert!(res.private_key_nsec.is_none());
    assert!(res.private_key_hex.is_none());
    assert!(res.warning.is_none());
}

#[test]
fn export_errors() {
    let mut ks = store();
    assert_eq!(
        ks.export_key(None, ExportFormat::Bech32, false).unwrap_err(),
        Error::NoActiveKey
    );
    ks.generate("a", true, false).unwrap();
    assert_eq!(
        ks.export_key(Some("zz"), ExportFormat::Bech32, false).unwrap_err(),
        Error::UnknownLabel
    );
    // the secret was never persisted
    assert_eq!(
        ks.export_key(Some("a"), ExportFormat::Bech32, true).unwrap_err(),
        Error::SecretMissing
    );
}

#[test]
fn import_npub_only() {
    let mut ks = store();
    let (gen, _) = ks.generate("src", true, true).unwrap();
    let mut ks2 = store();
    let (entry, _) = ks2.import_secret("watch", &gen.public_key, true, true).unwrap();
    assert_eq!(entry.public_key, gen.public_key);
    // no private material was stored
    assert_eq!(
        ks2.export_key(Some("watch"), ExportFormat::Bech32, true).unwrap_err(),
        Error::SecretMissing
    );
}

#[test]
fn import_unsupported_material() {
    let mut ks = store();
    assert_eq!(
        ks.import_secret("x", "hello world", true, true).unwrap_err(),
        Error::UnsupportedMaterial
    );
}

#[test]
fn set_active_unknown() {
    let mut ks = store();
    assert_eq!(ks.set_active("nope").unwrap_err(), Error::UnknownLabel);
}

#[test]
fn remove_clears_active_and_secret() {
    let mut ks = store();
    ks.generate("carol", true, true).unwrap();
    let (removed, _blob) = ks.remove("carol").unwrap();
    assert!(removed.is_some());
    assert!(ks.get_active().is_none());
    assert!(ks.list().is_empty());
    // keyring cleanup: nothing is stored under the label afterwards
    assert_eq!(ks.secrets.get("carol").unwrap(), None);
    // removing again is not an error
    let (removed2, _) = ks.remove("carol").unwrap();
    assert!(removed2.is_none());
}

#[test]
fn rename_moves_entry_and_secret() {
    let mut ks = store();
    let (e, _) = ks.generate("old", true, true).unwrap();
    let (moved, _blob) = ks.rename_label("old", "new").unwrap();
    assert_eq!(moved.label, "new");
    assert_eq!(moved.public_key, e.public_key);
    assert_eq!(moved.created_at, e.created_at);
    assert_eq!(ks.get_active().unwrap().label, "new");
    assert_eq!(ks.secrets.get("old").unwrap(), None);
    assert!(ks.secrets.get("new").unwrap().is_some());
}

#[test]
fn rename_errors() {
    let mut ks = store();
    ks.generate("a", true, true).unwrap();
    ks.generate("b", false, true).unwrap();
    assert_eq!(ks.rename_label("a", "a").unwrap_err(), Error::SameName);
    assert_eq!(ks.rename_label("zz", "c").unwrap_err(), Error::UnknownLabel);
    assert_eq!(ks.rename_label("a", "b").unwrap_err(), Error::LabelExists);
}

#[test]
fn rename_round_trip_is_byte_identical() {
    let mut ks = store();
    ks.generate("alpha", true, true).unwrap();
    ks.generate("omega", false, true).unwrap();
    let before = print_keyfile(&ks.data);
    ks.rename_label("alpha", "zeta").unwrap();
    ks.rename_label("zeta", "alpha").unwrap();
    let after = print_keyfile(&ks.data);
    assert_eq!(before, after);
}

#[test]
fn reload_observes_persisted_state() {
    let mut ks = store();
    let (_, blob) = ks.generate("alice", true, false).unwrap();
    let (ks2, migrated) =
        KeyStore::load_or_init(Some(&blob), None, pass(), SecretStore::new_memory()).unwrap();
    assert!(migrated.is_none());
    assert_eq!(ks2.list().len(), 1);
    assert_eq!(ks2.get_active().unwrap().label, "alice");
}

#[test]
fn legacy_index_is_migrated() {
    let legacy =
        "{\"active\":\"a\",\"keys\":{\"a\":{\"label\":\"a\",\"public_key\":\"npub1x\",\"created_at\":7}}}";
    let (ks, blob) =
        KeyStore::load_or_init(None, Some(legacy), pass(), SecretStore::new_memory()).unwrap();
    assert_eq!(ks.list().len(), 1);
    let blob = blob.expect("migration writes the sealed index");
    let (ks2, _) =
        KeyStore::load_or_init(Some(&blob), None, pass(), SecretStore::new_memory()).unwrap();
    assert_eq!(ks2.get_active().unwrap().label, "a");
    assert_eq!(ks2.list()[0].created_at, 7);
}

#[test]
fn verify_key_classifies() {
    let mut ks = store();
    let (e, _) = ks.generate("a", true, true).unwrap();
    let r = verify_key(&format!("  {}  ", e.public_key));
    assert_eq!(r.key_type, KeyType::Npub);
    assert!(r.valid);
    assert_eq!(r.public_key_npub.as_deref().unwrap(), e.public_key);
    let hexr = verify_key(SK1_PUB_HEX);
    assert_eq!(hexr.key_type, KeyType::Hex);
    assert!(hexr.valid);
    assert_eq!(hexr.public_key_hex.as_deref().unwrap(), SK1_PUB_HEX);
    let bad = verify_key("garbage");
    assert_eq!(bad.key_type, KeyType::Invalid);
    assert!(!bad.valid);
    assert!(bad.error.is_some());
}

#[test]
fn verify_key_nsec() {
    let mut ks = store();
    ks.import_secret("s", SK1_HEX, true, true).unwrap();
    let exported = ks.export_key(Some("s"), ExportFormat::Bech32, true).unwrap();
    let nsec = exported.private_key_nsec.unwrap();
    let r = verify_key(&nsec);
    assert_eq!(r.key_type, KeyType::Nsec);
    assert!(r.valid);
    assert_eq!(r.public_key_hex.as_deref().unwrap(), SK1_PUB_HEX);
}

#[test]
fn derive_public() {
    let r = derive_public_from_private(SK1_HEX).unwrap();
    assert_eq!(r.public_key_hex, SK1_PUB_HEX);
    assert!(r.public_key_npub.starts_with("npub1"));
    assert_eq!(
        derive_public_from_private("npub1notasecret").unwrap_err(),
        Error::UnsupportedMaterial
    );
}

#[test]
fn export_detects_invalid_stored_key() {
    // an index entry whose stored public key is not valid bech32
    let ks = KeyStore {
        data: goostr::keys::KeyFile {
            active: Some("odd".to_string()),
            keys: vec![goostr::keys::KeyEntry {
                label: "odd".to_string(),
                public_key: "npub1notakey".to_string(),
                created_at: 1,
            }],
        },
        pass: pass(),
        secrets: SecretStore::new_memory(),
    };
    assert_eq!(
        ks.export_key(Some("odd"), ExportFormat::Bech32, false).unwrap_err(),
        Error::Internal
    );
}

#[test]
fn remove_leaves_other_secrets_alone() {
    let mut ks = store();
    ks.generate("keep", true, true).unwrap();
    ks.generate("drop", false, true).unwrap();
    ks.remove("drop").unwrap();
    assert!(ks.secrets.get("keep").unwrap().is_some());
    assert_eq!(ks.secrets.get("drop").unwrap(), None);
    // removing again changes nothing
    ks.remove("drop").unwrap();
    assert!(ks.secrets.get("keep").unwrap().is_some());
}

#[test]
fn import_npub_only_stores_no_secret() {
    let mut src_ks = store();
    let (gen, _) = src_ks.generate("src", true, true).unwrap();
    let mut ks = store();
    ks.import_secret("watch", &gen.public_key, true, true).unwrap();
    assert_eq!(ks.secrets.get("watch").unwrap(), None);
}

#[test]
fn imported_secret_is_stored_normalized() {
    let mut ks = store();
    ks.import_secret("bob", SK1_HEX, true, true).unwrap();
    let stored = ks.secrets.get("bob").unwrap().unwrap();
    assert!(stored.starts_with("nsec1"));
    // the stored form round-trips to the same key
    let r = goostr::keystore::derive_public_from_private(&stored).unwrap();
    assert_eq!(r.public_key_hex, SK1_PUB_HEX);
}

#[test]
fn well_shaped_but_invalid_material_is_unsupported() {
    // right prefix, bad checksum
    let mut ks = store();
    assert_eq!(
        ks.import_secret("x", "nsec1qqqqqqqqqqqqqqqq", true, true).unwrap_err(),
        Error::UnsupportedMaterial
    );
    assert_eq!(
        derive_public_from_private("nsec1qqqqqqqqqqqqqqqq").unwrap_err(),
        Error::UnsupportedMaterial
    );
    // 64 hex chars that are not a valid secret scalar (all zeros)
    let zeros = "0000000000000000000000000000000000000000000000000000000000000000";
    assert_eq!(
        ks.import_secret("y", zeros, true, true).unwrap_err(),
        Error::UnsupportedMaterial
    );
}
