use marmot_agent_core::context::{
    parse_optional_event_id, tally_outcomes, AgentContext, EventOutcome,
};
use marmot_agent_core::conversation::{leading_chars, message_preview, recent_first};
use marmot_agent_core::follows::{followed_accounts, is_following, unfollow_marks};
use marmot_agent_core::identity::Identity;
use marmot_agent_core::relay::{retain_marked, with_relay, without_relay};
use marmot_agent_core::storage::{AgentConfig, AgentDirs, AgentStorage};
use marmot_agent_core::Error;

fn strings(v: &[&str]) -> Vec<String> {
    v.iter().map(|s| s.to_string()).collect()
}

#[test]
fn optional_event_ids() {
    assert_eq!(parse_optional_event_id(None).unwrap(), None);
    let hex = "ab".repeat(32);
    assert_eq!(parse_optional_event_id(Some(&hex)).unwrap(), Some([0xab; 32]));
    match parse_optional_event_id(Some("nope")) {
        Err(Error::Any(m)) => assert!(m.starts_with("Invalid event ID 'nope': ")),
        other => panic!("unexpected {:?}", other),
    }
}

#[test]
fn receive_tally() {
    let outcomes = vec![
        EventOutcome::Message,
        EventOutcome::Failed,
        EventOutcome::Commit,
        EventOutcome::Message,
        EventOutcome::Other,
    ];
    let t = tally_outcomes(&outcomes);
    assert_eq!((t.new_messages, t.commits, t.skipped), (2, 1, 2));
    let t = tally_outcomes(&vec![]);
    assert_eq!((t.new_messages, t.commits, t.skipped), (0, 0, 0));
}

#[test]
fn processing_nothing_gives_nothing() {
    let identity = Identity::generate();
    let root = format!("/tmp/marmot-core-test-{}", identity.public_key_hex());
    let dirs = AgentDirs::from_parts(format!("{}/c", root), format!("{}/d", root), None);
    let storage = AgentStorage::new(dirs, AgentConfig::defaults());
    let ctx = AgentContext::with_default(storage, Some((identity, [2u8; 32]))).unwrap().unwrap();
    assert!(ctx.process_events(&[]).is_empty());
    let bogus = nostr::EventBuilder::new(nostr::Kind::TextNote, "x")
        .sign_with_keys(&ctx.identity.keys())
        .unwrap();
    assert_eq!(ctx.process_events(&[bogus]), vec![EventOutcome::Failed]);

    let dirs = AgentDirs::from_parts("/c".to_string(), "/d".to_string(), None);
    let none = AgentContext::with_default(AgentStorage::new(dirs, AgentConfig::defaults()), None);
    assert!(none.unwrap().is_none());
}

#[test]
fn previews_and_prefixes() {
    assert_eq!(leading_chars("npub1abcdefghijklmnopqrstuvwxyz", 16), "npub1abcdefghijk");
    assert_eq!(leading_chars("short", 16), "short");
    assert_eq!(leading_chars("", 3), "");
    assert_eq!(message_preview("hi"), "hi");
    let long = "x".repeat(61);
    assert_eq!(message_preview(&long), format!("{}\u{2026}", "x".repeat(60)));
    assert_eq!(message_preview(&"y".repeat(60)), "y".repeat(60));
    // Twenty-one characters of three bytes each: more than sixty bytes.
    let wide = "\u{20ac}".repeat(21);
    assert_eq!(message_preview(&wide), format!("{}\u{2026}", wide));
}

#[test]
fn conversations_most_recent_first() {
    assert_eq!(recent_first(&vec![5, 9, 0, 9, 7]), vec![1, 3, 4, 0, 2]);
    assert_eq!(recent_first(&vec![]), Vec::<usize>::new());
    assert_eq!(recent_first(&vec![0, 0, 0]), vec![0, 1, 2]);
}

#[test]
fn inbox_relay_edits() {
    let list = strings(&["wss://a", "wss://b"]);
    assert_eq!(with_relay(list.clone(), "wss://c").unwrap(), strings(&["wss://a", "wss://b", "wss://c"]));
    assert!(with_relay(list.clone(), "wss://a").is_none());
    assert_eq!(without_relay(&strings(&["wss://a", "wss://b", "wss://a"]), "wss://a").unwrap(), strings(&["wss://b"]));
    assert!(without_relay(&list, "wss://z").is_none());
    let added = with_relay(list.clone(), "wss://c").unwrap();
    assert_eq!(without_relay(&added, "wss://c").unwrap(), list);
}

#[test]
fn marked_items_are_kept() {
    assert_eq!(retain_marked(vec![1, 2, 3, 4], &vec![true, false, false, true]), vec![1, 4]);
    assert!(retain_marked(Vec::<u8>::new(), &vec![]).is_empty());
}

#[test]
fn follow_list_edits() {
    let a = [1u8; 32];
    let b = [2u8; 32];
    let tags = vec![Some(a), None, Some(b), Some(a)];
    assert_eq!(followed_accounts(&tags), vec![a, b, a]);
    assert!(is_following(&tags, &b));
    assert!(!is_following(&tags, &[3u8; 32]));
    let keep = unfollow_marks(&tags, &a);
    assert_eq!(keep, vec![false, true, true, false]);
    assert_eq!(retain_marked(tags.clone(), &keep), vec![None, Some(b)]);
    let mut followed = vec![None, Some(b)];
    followed.push(Some(a));
    let keep = unfollow_marks(&followed, &a);
    assert_eq!(retain_marked(followed, &keep), vec![None, Some(b)]);
}
