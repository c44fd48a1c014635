use marmot_agent_core::relay::{
    default_relay_urls, relay_urls, count_ok, default_relay_strings, merge_relays, publish_report, usable_relays, welcome_relays,
    DEFAULT_RELAYS,
};
use marmot_agent_core::storage::{
    is_json_file_name, path_join, sort_records_by_name, AgentConfig, AgentDirs, AgentStorage,
    IdentityRecord,
};
use marmot_agent_core::identity::Identity;
use marmot_agent_core::Error;

fn dirs() -> AgentDirs {
    AgentDirs::from_parts(
        "/home/u/.config/marmot-cli".to_string(),
        "/home/u/.local/share/marmot-cli".to_string(),
        None,
    )
}

fn record(name: &str, created: &str) -> IdentityRecord {
    IdentityRecord {
        name: name.to_string(),
        npub: String::new(),
        public_key_hex: String::new(),
        created_at: created.to_string(),
        metadata: None,
    }
}

#[test]
fn path_join_follows_unix_rules() {
    assert_eq!(path_join("/a/b", "c"), "/a/b/c");
    assert_eq!(path_join("/a/b/", "c"), "/a/b/c");
    assert_eq!(path_join("", "c"), "c");
    assert_eq!(path_join("/a", "/etc/x"), "/etc/x");
}

#[test]
fn agent_dirs_paths() {
    let d = dirs();
    assert_eq!(d.state_dir, "/home/u/.local/share/marmot-cli");
    assert_eq!(d.config_file(), "/home/u/.local/share/marmot-cli/config.json");
    assert_eq!(d.identities_dir(), "/home/u/.local/share/marmot-cli/identities");
    assert_eq!(d.identity_file("alice"), "/home/u/.local/share/marmot-cli/identities/alice.json");
    assert_eq!(d.secret_key_file("alice"), "/home/u/.local/share/marmot-cli/identities/alice.nsec");
    assert_eq!(d.database_path(), "/home/u/.local/share/marmot-cli/marmot.db");
    assert_eq!(d.db_key_path(), "/home/u/.local/share/marmot-cli/db.key");
    let s = AgentDirs::from_parts("c".to_string(), "d".to_string(), Some("s".to_string()));
    assert_eq!(s.state_dir, "s");
}

#[test]
fn config_defaults_when_missing() {
    let c = AgentConfig::load(None);
    assert_eq!(c.default_identity, None);
    assert_eq!(c.default_relays, default_relay_strings());
    assert_eq!(c.daemon_listen, "127.0.0.1:9222");
    let parsed = AgentConfig {
        default_identity: Some("x".to_string()),
        default_relays: vec![],
        daemon_listen: "0.0.0.0:1".to_string(),
    };
    let c = AgentConfig::load(Some(parsed));
    assert_eq!(c.default_identity.as_deref(), Some("x"));
    assert_eq!(c.daemon_listen, "0.0.0.0:1");
    let d = AgentConfig::default();
    assert!(d.default_relays.is_empty() && d.daemon_listen.is_empty());
}

#[test]
fn db_key_roundtrip_and_errors() {
    let key = AgentStorage::generate_db_key().unwrap();
    let text = AgentStorage::db_key_file_contents(&key);
    assert_eq!(text.len(), 64);
    assert_eq!(AgentStorage::parse_db_key(&format!("{}\n", text)).unwrap(), key);
    let fixed = [0xabu8; 32];
    assert_eq!(AgentStorage::db_key_file_contents(&fixed), "ab".repeat(32));
    match AgentStorage::parse_db_key("xyz") {
        Err(Error::Serialization(m)) => assert!(m.starts_with("invalid db key hex: ")),
        _ => panic!("expected a hex error"),
    }
    match AgentStorage::parse_db_key("abcd") {
        Err(Error::Serialization(m)) => assert_eq!(m, "db key must be 32 bytes"),
        _ => panic!("expected a length error"),
    }
}

#[test]
fn storage_errors_and_default_identity() {
    let err = AgentStorage::from_dirs(None, AgentConfig::defaults());
    match err {
        Err(Error::Identity(m)) => assert_eq!(m, "could not determine platform directories"),
        _ => panic!("expected an error"),
    }
    let mut s = AgentStorage::from_dirs(Some(dirs()), AgentConfig::defaults()).ok().unwrap();
    match s.missing_identity("bob") {
        Error::Identity(m) => assert_eq!(
            m,
            "identity 'bob' not found at /home/u/.local/share/marmot-cli/identities/bob.nsec"
        ),
        _ => panic!("expected an identity error"),
    }
    assert!(s.default_identity_name().is_none());
    let refused = s.set_default_identity("bob", Err(Error::Identity("missing".to_string())));
    assert!(matches!(refused, Err(Error::Identity(m)) if m == "missing"));
    assert!(s.default_identity_name().is_none());
    s.set_default_identity("bob", Ok(Identity::generate())).unwrap();
    assert_eq!(s.default_identity_name().map(|n| n.as_str()), Some("bob"));
    assert!(AgentStorage::default_identity(None).is_none());
    assert!(AgentStorage::default_identity(Some(Err(Error::Relay("x".into())))).is_none());
    let id = Identity::generate();
    let pk = id.public_key();
    assert_eq!(AgentStorage::default_identity(Some(Ok(id))).unwrap().public_key(), pk);
}

#[test]
fn load_identity_from_its_files() {
    let s = AgentStorage::new(dirs(), AgentConfig::defaults());
    match s.load_identity("bob", None, None) {
        Err(Error::Identity(m)) => assert_eq!(
            m,
            "identity 'bob' not found at /home/u/.local/share/marmot-cli/identities/bob.nsec"
        ),
        _ => panic!("expected a missing identity"),
    }
    let saved = Identity::generate_named("bob".to_string());
    let text = format!("{}\n", saved.secret_file_contents());
    let loaded = s.load_identity("bob", Some(&text), Some(record("robert", "t"))).unwrap();
    assert_eq!(loaded.public_key(), saved.public_key());
    assert_eq!(loaded.name().as_deref(), Some("robert"));
    let unnamed = s.load_identity("bob", Some(&text), None).unwrap();
    assert!(unnamed.name().is_none());
    match s.load_identity("bob", Some("garbage"), None) {
        Err(Error::Identity(m)) => assert_eq!(m, "invalid secret key: Invalid secret key"),
        _ => panic!("expected an invalid key"),
    }
    assert_eq!(
        s.identity_files("bob"),
        vec![
            "/home/u/.local/share/marmot-cli/identities/bob.nsec".to_string(),
            "/home/u/.local/share/marmot-cli/identities/bob.json".to_string()
        ]
    );
}

#[test]
fn listing_keeps_parsed_json_records_by_name() {
    let entries = vec![
        ("zed.json".to_string(), Some(record("zed", "1"))),
        ("zed.nsec".to_string(), None),
        ("amy.json".to_string(), Some(record("amy", "2"))),
        ("broken.json".to_string(), None),
        ("notes.txt".to_string(), Some(record("notes", "3"))),
    ];
    let names: Vec<String> = AgentStorage::list_identities(entries).into_iter().map(|r| r.name).collect();
    assert_eq!(names, vec!["amy".to_string(), "zed".to_string()]);
    assert!(AgentStorage::list_identities(vec![]).is_empty());
}

#[test]
fn db_encryption_key_reads_or_generates() {
    let fixed = [0x5au8; 32];
    let text = format!("  {}  ", AgentStorage::db_key_file_contents(&fixed));
    assert_eq!(AgentStorage::db_encryption_key(Some(&text)).unwrap(), fixed);
    match AgentStorage::db_encryption_key(Some("5a5a")) {
        Err(Error::Serialization(m)) => assert_eq!(m, "db key must be 32 bytes"),
        _ => panic!("expected a length error"),
    }
    let a = AgentStorage::db_encryption_key(None).unwrap();
    let b = AgentStorage::db_encryption_key(None).unwrap();
    assert_ne!(a, b);
}

#[test]
fn record_for_identity_and_names() {
    let id = Identity::generate();
    let r = IdentityRecord::for_identity(&id, "2024-01-01T00:00:00+00:00".to_string());
    assert_eq!(r.name, "default");
    assert_eq!(r.npub, id.npub());
    assert_eq!(r.public_key_hex, id.public_key_hex());
    assert!(r.metadata.is_none());
    let named = AgentStorage::name_from_record(id, Some(record("carol", "t")));
    assert_eq!(named.name().as_deref(), Some("carol"));
    let unnamed = AgentStorage::name_from_record(Identity::generate(), None);
    assert!(unnamed.name().is_none());
}

#[test]
fn records_sorted_stably_by_name() {
    let recs = vec![record("b", "1"), record("a", "2"), record("b", "3"), record("B", "4"), record("", "5")];
    let sorted = sort_records_by_name(recs);
    let got: Vec<(String, String)> = sorted.into_iter().map(|r| (r.name, r.created_at)).collect();
    let want: Vec<(String, String)> = [("", "5"), ("B", "4"), ("a", "2"), ("b", "1"), ("b", "3")]
        .iter()
        .map(|(a, b)| (a.to_string(), b.to_string()))
        .collect();
    assert_eq!(got, want);
    assert!(sort_records_by_name(vec![]).is_empty());
}

#[test]
fn json_file_names() {
    assert!(is_json_file_name("alice.json"));
    assert!(!is_json_file_name(".json"));
    assert!(!is_json_file_name("alice.nsec"));
    assert!(!is_json_file_name("alice.json.bak"));
    assert!(is_json_file_name("..json"));
}

#[test]
fn default_relay_constant() {
    assert_eq!(DEFAULT_RELAYS, ["wss://nos.lol", "wss://relay.primal.net", "wss://relay.damus.io"]);
}

#[test]
fn usable_relay_urls() {
    let relays = vec![
        "wss://nos.lol".to_string(),
        "http://example.com".to_string(),
        "not a url".to_string(),
        "ws://localhost:7777".to_string(),
        "wss://a.com://b".to_string(),
    ];
    assert_eq!(usable_relays(&relays), vec![true, false, false, true, false]);
}

#[test]
fn publish_report_gives_each_relay_its_own_outcome() {
    let relays = vec![
        "wss://a.example".to_string(),
        "wss://b.example".to_string(),
        "not-a-url".to_string(),
        "wss://c.example".to_string(),
    ];
    // Relay b could not be added; a and c acknowledged (as the pool names them).
    let acked = vec!["wss://a.example".to_string(), "wss://c.example".to_string()];
    let r = publish_report(&relays, &vec![false, true, false, false], &acked);
    let urls: Vec<String> = r.iter().map(|e| e.0.clone()).collect();
    assert_eq!(urls, relays);
    assert_eq!(r.iter().map(|e| e.1).collect::<Vec<bool>>(), vec![true, false, false, true]);
    assert_eq!(count_ok(&r), 2);
    // Relays are told apart by their normalised URL.
    let spelled = vec!["wss://A.example/".to_string()];
    let r = publish_report(&spelled, &vec![false], &acked);
    assert_eq!(r, vec![("wss://A.example/".to_string(), true)]);
    // A relay that was refused never shows OK, even if named as acknowledged.
    let r = publish_report(&vec!["not-a-url".to_string()], &vec![true], &vec!["not-a-url".to_string()]);
    assert_eq!(r, vec![("not-a-url".to_string(), false)]);
    let r = publish_report(&relays, &vec![false, false, false, false], &vec![]);
    assert_eq!(count_ok(&r), 0);
    assert_eq!(r.len(), 4);
}

#[test]
fn merge_relays_skips_known() {
    let merged = merge_relays(
        default_relay_strings(),
        &vec!["wss://x".to_string(), "wss://nos.lol".to_string(), "wss://x".to_string()],
    );
    assert_eq!(
        merged,
        vec![
            "wss://nos.lol".to_string(),
            "wss://relay.primal.net".to_string(),
            "wss://relay.damus.io".to_string(),
            "wss://x".to_string()
        ]
    );
}

#[test]
fn welcome_relays_fall_back_to_defaults() {
    assert_eq!(welcome_relays(vec![]), default_relay_strings());
    assert_eq!(welcome_relays(vec!["wss://i".to_string()]), vec!["wss://i".to_string()]);
}

#[test]
fn saving_an_identity_plans_two_files() {
    let s = AgentStorage::new(dirs(), AgentConfig::defaults());
    let id = Identity::generate_named("erin".to_string());
    let files = s.save_identity(&id, "2025-01-01T00:00:00+00:00".to_string());
    assert_eq!(files.secret_path, "/home/u/.local/share/marmot-cli/identities/erin.nsec");
    assert_eq!(files.record_path, "/home/u/.local/share/marmot-cli/identities/erin.json");
    assert_eq!(files.secret_contents, id.secret_file_contents());
    assert_eq!(files.record.name, "erin");
    assert_eq!(files.record.npub, id.npub());
    assert_eq!(files.record.created_at, "2025-01-01T00:00:00+00:00");
    let loaded = s.load_identity("erin", Some(&files.secret_contents), Some(files.record)).unwrap();
    assert_eq!(loaded.public_key(), id.public_key());
    assert_eq!(loaded.name().as_deref(), Some("erin"));
    let anonymous = s.save_identity(&Identity::generate(), String::new());
    assert_eq!(anonymous.secret_path, "/home/u/.local/share/marmot-cli/identities/default.nsec");
}

#[test]
fn relay_urls_keep_the_usable_ones() {
    let urls = default_relay_urls();
    assert_eq!(urls.len(), 3);
    assert!(urls[0].to_string().starts_with("wss://nos.lol"));
    let mixed = vec!["wss://a.example".to_string(), "nope".to_string(), "ws://b.example".to_string()];
    let parsed = relay_urls(&mixed);
    assert_eq!(parsed.len(), 2);
    assert!(parsed[1].to_string().starts_with("ws://b.example"));
}

#[test]
fn saved_identity_is_listed_among_other_files() {
    let s = AgentStorage::new(dirs(), AgentConfig::defaults());
    let id = Identity::generate_named("bob".to_string());
    let files = s.save_identity(&id, "2025-01-01T00:00:00+00:00".to_string());
    let entries = vec![
        ("bob.nsec".to_string(), None),
        ("notes.txt".to_string(), Some(record("notes", ""))),
        ("bob.json".to_string(), Some(files.record)),
        ("broken.json".to_string(), None),
        ("alice.json".to_string(), Some(record("alice", ""))),
    ];
    let listed = AgentStorage::list_identities(entries);
    let names: Vec<&str> = listed.iter().map(|r| r.name.as_str()).collect();
    assert_eq!(names, vec!["alice", "bob"]);
    assert_eq!(listed[1].created_at, "2025-01-01T00:00:00+00:00");
}

#[test]
fn a_drawn_database_key_is_the_key() {
    assert_eq!(AgentStorage::db_key_from_draw(Ok([3u8; 32])).unwrap(), [3u8; 32]);
    match AgentStorage::db_key_from_draw(Err("no entropy".to_string())) {
        Err(Error::Storage(m)) => assert_eq!(m, "failed to generate db key: no entropy"),
        other => panic!("unexpected {:?}", other),
    }
    assert_eq!(AgentStorage::db_key_file_contents(&[3u8; 32]), "03".repeat(32));
}
