//! Paths, the master secret, command-line helpers, relay and preset rules,
//! tag building, and the follow-list logic.
use goostr::config::{remove_extension, upsert_stdio_extension, ExtensionEntry, ExtensionItem};
use goostr::follows::{follow_tags, follows_from_tags, sync_follows_decision};
use goostr::relays::{nip10_reply_tags, nip22_comment_tags, parse_relay_mode, RelayMode};
use goostr::settings::FollowEntry;
use goostr::subscriptions::{parse_preset, EventPreset, EventsListArgs};
use goostr::util::{
    decode_master_secret, keystore_secret_path, legacy_keys_json_path, new_master_secret,
    nostr_config_root, nostr_index_path, parse_env_pairs, settings_path,
};

#[test]
fn config_paths() {
    assert_eq!(nostr_config_root(Some("/tmp/x"), Some("/home/u")), "/tmp/x");
    assert_eq!(nostr_config_root(None, Some("/home/u")), "/home/u/.config/goostr");
    assert_eq!(nostr_config_root(None, None), "./.config/goostr");
    assert_eq!(nostr_index_path("/r"), "/r/keys.enc");
    assert_eq!(legacy_keys_json_path("/r"), "/r/keys.json");
    assert_eq!(settings_path("/r"), "/r/settings.enc");
    assert_eq!(keystore_secret_path("/r"), "/r/keystore.secret");
    assert_eq!(goostr::config::path("/home/u"), "/home/u/.config/goose/config.yaml");
}

#[test]
fn master_secret_round_trip() {
    let (bytes, text) = new_master_secret();
    assert_eq!(bytes.len(), 32);
    let back = decode_master_secret(&format!("  {}\n", text)).unwrap();
    assert_eq!(back, bytes);
    assert!(decode_master_secret("!!bad!!").is_err());
}

#[test]
fn env_pairs() {
    let pairs = vec![
        "A=1".to_string(),
        "noequals".to_string(),
        " B = two ".to_string(),
        "A=3".to_string(),
    ];
    let parsed = parse_env_pairs(&pairs);
    assert_eq!(parsed.len(), 2);
    assert_eq!(parsed[0].key, "A");
    assert_eq!(parsed[0].value, "3");
    assert_eq!(parsed[1].key, "B");
    assert_eq!(parsed[1].value, "two");
}

#[test]
fn relay_modes() {
    assert_eq!(parse_relay_mode(&None), Some(RelayMode::Both));
    assert_eq!(parse_relay_mode(&Some("READ".to_string())), Some(RelayMode::Read));
    assert_eq!(parse_relay_mode(&Some("write".to_string())), Some(RelayMode::Write));
    assert_eq!(parse_relay_mode(&Some("Both".to_string())), Some(RelayMode::Both));
    assert_eq!(parse_relay_mode(&Some("sideways".to_string())), None);
}

#[test]
fn presets() {
    assert_eq!(parse_preset("my_notes"), Some(EventPreset::MyNotes));
    assert_eq!(parse_preset("Mentions_Me"), Some(EventPreset::MentionsMe));
    assert_eq!(parse_preset("MY_METADATA"), Some(EventPreset::MyMetadata));
    assert_eq!(parse_preset("by_author"), Some(EventPreset::ByAuthor));
    assert_eq!(parse_preset("everything"), None);
}

#[test]
fn events_args_timeout() {
    let mut args = EventsListArgs {
        preset: "my_notes".to_string(),
        limit: None,
        timeout_secs: None,
        author_npub: None,
        kind: None,
        since: None,
        until: None,
    };
    assert_eq!(args.timeout(), 10);
    args.timeout_secs = Some(3);
    assert_eq!(args.timeout(), 3);
}

#[test]
fn nip10_tags_root_equals_reply() {
    let tags = nip10_reply_tags("id1", "pk1", "id1", "pk1", None, &vec![]);
    assert_eq!(
        tags,
        vec![
            vec!["e".to_string(), "id1".to_string(), "".to_string(), "root".to_string(), "pk1".to_string()],
            vec!["p".to_string(), "pk1".to_string()],
        ]
    );
}

#[test]
fn nip10_tags_threaded_with_mentions() {
    let tags = nip10_reply_tags(
        "root",
        "rpk",
        "child",
        "cpk",
        Some("wss://hint"),
        &vec!["m1".to_string(), "m2".to_string()],
    );
    assert_eq!(tags.len(), 5);
    assert_eq!(
        tags[0],
        vec!["e".to_string(), "root".to_string(), "wss://hint".to_string(), "root".to_string(), "rpk".to_string()]
    );
    assert_eq!(
        tags[1],
        vec!["e".to_string(), "child".to_string(), "wss://hint".to_string(), "reply".to_string(), "cpk".to_string()]
    );
    assert_eq!(tags[2], vec!["p".to_string(), "cpk".to_string()]);
    assert_eq!(tags[3], vec!["p".to_string(), "m1".to_string()]);
    assert_eq!(tags[4], vec!["p".to_string(), "m2".to_string()]);
}

#[test]
fn nip22_tags_shape() {
    let tags = nip22_comment_tags("rid", "rpk", 1111, "pid", "ppk", 1, None);
    assert_eq!(
        tags,
        vec![
            vec!["E".to_string(), "rid".to_string(), "".to_string(), "rpk".to_string()],
            vec!["K".to_string(), "1111".to_string()],
            vec!["P".to_string(), "rpk".to_string()],
            vec!["e".to_string(), "pid".to_string()],
            vec!["k".to_string(), "1".to_string()],
            vec!["p".to_string(), "ppk".to_string()],
        ]
    );
    let hinted = nip22_comment_tags("rid", "rpk", 30023, "pid", "ppk", 1111, Some("wss://h"));
    assert_eq!(hinted[0][2], "wss://h");
    assert_eq!(hinted[2], vec!["P".to_string(), "rpk".to_string(), "wss://h".to_string()]);
    assert_eq!(hinted[3], vec!["e".to_string(), "pid".to_string(), "wss://h".to_string()]);
}

fn follow(pk: &str, relay: Option<&str>, pet: Option<&str>) -> FollowEntry {
    FollowEntry {
        pubkey: pk.to_string(),
        relay_url: relay.map(|s| s.to_string()),
        petname: pet.map(|s| s.to_string()),
    }
}

#[test]
fn follow_tags_round_trip() {
    let follows = vec![
        follow("aa", Some("wss://r"), Some("nick")),
        follow("bb", None, None),
    ];
    let tags = follow_tags(&follows);
    assert_eq!(
        tags,
        vec![
            vec!["p".to_string(), "aa".to_string(), "wss://r".to_string(), "nick".to_string()],
            vec!["p".to_string(), "bb".to_string(), "".to_string()],
        ]
    );
    let back = follows_from_tags(&tags);
    assert_eq!(back.len(), 2);
    assert_eq!(back[0].pubkey, "aa");
    assert_eq!(back[0].relay_url.as_deref(), Some("wss://r"));
    assert_eq!(back[0].petname.as_deref(), Some("nick"));
    assert_eq!(back[1].pubkey, "bb");
    assert!(back[1].relay_url.is_none());
}

#[test]
fn follows_from_tags_ignores_other_tags() {
    let tags = vec![
        vec!["e".to_string(), "someid".to_string()],
        vec!["p".to_string(), "aa".to_string()],
        vec!["p".to_string()],
    ];
    let back = follows_from_tags(&tags);
    assert_eq!(back.len(), 1);
    assert_eq!(back[0].pubkey, "aa");
}

#[test]
fn sync_follows_rule() {
    let local = vec![follow("aa", None, None)];
    let remote = vec![follow("bb", None, None)];
    // differing, local non-empty: local wins and is published
    let (kept, publish) = sync_follows_decision(&local, &remote);
    assert_eq!(kept.len(), 1);
    assert_eq!(kept[0].pubkey, "aa");
    assert!(publish);
    // local empty: adopt remote without publishing
    let (kept2, publish2) = sync_follows_decision(&vec![], &remote);
    assert_eq!(kept2[0].pubkey, "bb");
    assert!(!publish2);
    // equal lists: nothing to publish
    let (kept3, publish3) = sync_follows_decision(&local, &local);
    assert_eq!(kept3[0].pubkey, "aa");
    assert!(!publish3);
}

fn entry(name: &str) -> ExtensionEntry {
    ExtensionEntry {
        enabled: true,
        kind: "stdio".to_string(),
        name: name.to_string(),
        description: "d".to_string(),
        display_name: name.to_string(),
        timeout: 300,
        bundled: false,
        available_tools: vec![],
        cmd: "/bin/goostr".to_string(),
        args: vec![],
        envs: vec![],
        env_keys: vec![],
    }
}

#[test]
fn extension_upsert_and_remove() {
    let mut exts: Vec<ExtensionItem> = Vec::new();
    upsert_stdio_extension(&mut exts, "goostr", entry("one"));
    assert_eq!(exts.len(), 1);
    upsert_stdio_extension(&mut exts, "other", entry("two"));
    upsert_stdio_extension(&mut exts, "goostr", entry("three"));
    assert_eq!(exts.len(), 2);
    assert_eq!(exts[0].id, "goostr");
    assert_eq!(exts[0].entry.name, "three");
    assert!(remove_extension(&mut exts, "goostr"));
    assert_eq!(exts.len(), 1);
    assert!(!remove_extension(&mut exts, "goostr"));
}

#[test]
fn verify_and_trim() {
    let r = goostr::keystore::verify_key("   not a key   ");
    assert_eq!(r.input, "not a key");
    assert!(!r.valid);
}

#[test]
fn metadata_args_to_profile() {
    let args = goostr::metadata::SetMetadataArgs {
        name: Some("ann".to_string()),
        display_name: None,
        about: Some("hi".to_string()),
        picture: None,
        banner: None,
        nip05: None,
        lud06: None,
        lud16: None,
        website: Some("https://example.invalid".to_string()),
        publish: Some(true),
    };
    let p = goostr::metadata::args_to_profile(&args);
    assert_eq!(p.name.as_deref(), Some("ann"));
    assert!(p.display_name.is_none());
    assert_eq!(p.about.as_deref(), Some("hi"));
    assert_eq!(p.website.as_deref(), Some("https://example.invalid"));
}

#[test]
fn registration_defaults() {
    assert_eq!(goostr::cli::default_extension_id(), "goostr");
    assert_eq!(goostr::cli::default_extension_name(), "Goostr");
    assert_eq!(goostr::cli::default_display_name(), "Goostr");
    assert_eq!(goostr::cli::default_description(), "Connect Goose to the Nostr network");
    assert_eq!(goostr::cli::default_timeout_secs(), 300);
}

#[test]
fn filter_presets_shape() {
    let f = goostr::relays::filter_my_notes("aa", 1_000_000, None, Some(9));
    assert_eq!(f.author_hex.as_deref(), Some("aa"));
    assert_eq!(f.kind, Some(1));
    assert_eq!(f.since, Some(1_000_000 - 604_800));
    assert_eq!(f.until, Some(9));
    let m = goostr::relays::filter_mentions_me("aa", 100, None, None);
    assert_eq!(m.search.as_deref(), Some("aa"));
    assert_eq!(m.since, Some(0));
    let md = goostr::relays::filter_my_metadata("aa");
    assert_eq!(md.kind, Some(0));
    assert_eq!(md.limit, Some(1));
    let by = goostr::relays::filter_by_author("bb", 77);
    assert_eq!(by.author_hex.as_deref(), Some("bb"));
    assert_eq!(by.since, Some(77));
}
