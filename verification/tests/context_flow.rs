use marmot_agent_core::context::{welcome_at, AgentContext};
use marmot_agent_core::identity::Identity;
use marmot_agent_core::storage::{AgentConfig, AgentDirs, AgentStorage};
use marmot_agent_core::Error;

const RELAY: &str = "wss://relay.example.com";

fn relays() -> Vec<nostr::RelayUrl> {
    vec![nostr::RelayUrl::parse(RELAY).unwrap()]
}

fn storage_under(root: &str) -> AgentStorage {
    let dirs = AgentDirs::from_parts(format!("{}/config", root), format!("{}/data", root), None);
    AgentStorage::new(dirs, AgentConfig::defaults())
}

/// A context over a fresh database of its own, under /tmp.
fn fresh_context(name: &str) -> AgentContext {
    let identity = Identity::generate_named(name.to_string());
    let root = format!("/tmp/marmot-core-test-{}", identity.public_key_hex());
    AgentContext::with_identity(storage_under(&root), identity, &[7u8; 32]).unwrap()
}

fn group_message(e: Error) -> String {
    match e {
        Error::Group(m) => m,
        other => panic!("expected a group error, got {:?}", other),
    }
}

#[test]
fn open_reports_an_unusable_database_path() {
    let identity = Identity::generate();
    match AgentContext::with_identity(storage_under("/proc/marmot-core-test"), identity, &[1u8; 32]) {
        Err(Error::Storage(m)) => assert!(m.starts_with("sqlite init failed: ")),
        Err(other) => panic!("unexpected error {:?}", other),
        Ok(_) => panic!("a database under /proc cannot be created"),
    }
}

#[test]
fn context_reports_its_identity() {
    let ctx = fresh_context("alice");
    assert_eq!(ctx.public_key_hex(), ctx.identity.public_key_hex());
    assert_eq!(ctx.npub(), ctx.identity.npub());
    assert_eq!(AgentContext::member_npub(&ctx.identity.public_key()), ctx.npub());
    assert_eq!(ctx.storage.config.daemon_listen, "127.0.0.1:9222");
}

#[test]
fn group_lifecycle() {
    let ctx = fresh_context("alice");
    let ours = ctx.identity.public_key();

    let created = ctx.create_group("team", "the team", relays()).unwrap();
    assert_eq!(created.group.name, "team");
    assert_eq!(created.group.description, "the team");
    assert_eq!(created.group.admin_pubkeys, vec![ours]);
    assert_eq!(created.welcome_count, 0);
    assert!(created.result.welcome_rumors.is_empty());
    let groups = ctx.list_groups().unwrap();
    assert_eq!(groups[0].mls_group_id, created.group.mls_group_id);
    assert_eq!(groups.len(), 1);
    let g = &groups[0];
    assert_eq!(g.name, "team");
    assert_eq!(g.description, "the team");
    assert_eq!(g.admin_pubkeys, vec![ours]);

    let hex_id = AgentContext::nostr_group_id_hex(g);
    assert_eq!(hex_id, hex::encode(g.nostr_group_id));
    let found = ctx.find_group_by_nostr_id(&hex_id).unwrap().unwrap();
    assert_eq!(found.mls_group_id, g.mls_group_id);
    assert_eq!(found.nostr_group_id, g.nostr_group_id);
    let upper = hex_id.to_uppercase();
    assert!(ctx.find_group_by_nostr_id(&upper).unwrap().is_some());
    let other = "00".repeat(32);
    if other != hex_id {
        assert!(ctx.find_group_by_nostr_id(&other).unwrap().is_none());
    }
    let m = group_message(ctx.find_group_by_nostr_id("zz").unwrap_err());
    assert!(m.starts_with("invalid nostr group id hex: "));
    let m = group_message(ctx.find_group_by_nostr_id("abcd").unwrap_err());
    assert_eq!(m, "nostr group id must be 32 bytes");

    let mls = g.mls_group_id.clone();
    assert_eq!(ctx.get_members_for_group(&mls).unwrap(), vec![ours]);
    let group_relays = ctx.get_group_relays(&mls).unwrap();
    assert_eq!(group_relays.len(), 1);
    assert!(group_relays[0].starts_with(RELAY));

    // The last admin cannot step down.
    let m = group_message(ctx.demote_member(&mls, &ours).unwrap_err());
    assert_eq!(m, "cannot remove the last admin");

    // A named group is no direct-message group.
    assert!(ctx.find_dm_with_peer(&ours).unwrap().is_none());

    ctx.delete_group(&mls).unwrap();
    assert!(ctx.list_groups().unwrap().is_empty());
}

#[test]
fn messages_are_stored_newest_first() {
    let ctx = fresh_context("alice");
    let ours = ctx.identity.public_key();
    ctx.create_group("chat", "", relays()).unwrap();
    let mls = ctx.list_groups().unwrap()[0].mls_group_id.clone();

    let first = ctx.create_message(&mls, "hello", None).unwrap();
    assert_eq!(first.event.kind.as_u16(), 445);
    assert_eq!(first.rumor.kind, 9);
    assert_eq!(first.rumor.content, "hello");
    assert!(first.rumor.refers_to.is_empty());
    assert_eq!(first.rumor.author, ours);
    let second = ctx.create_dm_message(&mls, "second").unwrap();
    assert_eq!(second.event.kind.as_u16(), 445);

    let msgs = ctx.get_messages_for_group(&mls, 10).unwrap();
    assert_eq!(msgs.len(), 2);
    assert!(msgs.iter().all(|m| m.pubkey == ours && m.kind == 9));
    let mut contents: Vec<String> = msgs.iter().map(|m| m.content.clone()).collect();
    contents.sort();
    assert_eq!(contents, vec!["hello".to_string(), "second".to_string()]);
    assert_eq!(ctx.get_messages_for_group(&mls, 1).unwrap().len(), 1);
    assert!(msgs[0].created_at >= msgs[1].created_at);
    assert!(ctx.get_messages_for_group(&mls, 0).is_err());
    assert!(ctx.get_messages_for_group(&mls, 10_001).is_err());
    assert_eq!(ctx.get_messages_for_group(&mls, 10_000).unwrap().len(), 2);

    let target = msgs[0].id;
    let reply = ctx.create_message(&mls, "re", Some(target)).unwrap();
    assert_eq!(reply.event.kind.as_u16(), 445);
    assert_eq!(reply.rumor.refers_to, vec![target]);
    let reaction = ctx.create_reaction(&mls, target, "+").unwrap();
    assert_eq!(reaction.event.kind.as_u16(), 445);
    assert_eq!((reaction.rumor.kind, reaction.rumor.content.as_str()), (7, "+"));
    let deletion = ctx.create_deletion(&mls, target).unwrap();
    assert_eq!(deletion.event.kind.as_u16(), 445);
    assert_eq!(deletion.rumor.kind, 5);
    let kinds: Vec<u16> = ctx.get_messages_for_group(&mls, 10).unwrap().iter().map(|m| m.kind).collect();
    assert!(kinds.contains(&7));
    assert!(kinds.contains(&5));
}

#[test]
fn messages_to_an_unknown_group_fail() {
    let ctx = fresh_context("alice");
    let m = group_message(ctx.create_message(&[9u8; 32], "x", None).unwrap_err());
    assert!(m.starts_with("message creation failed: "));
    let m = group_message(ctx.create_reaction(&[9u8; 32], [1u8; 32], "+").unwrap_err());
    assert!(m.starts_with("reaction creation failed: "));
    let m = group_message(ctx.create_deletion(&[9u8; 32], [1u8; 32]).unwrap_err());
    assert!(m.starts_with("deletion creation failed: "));
    let m = group_message(ctx.promote_member(&[9u8; 32], [2u8; 32]).unwrap_err());
    assert_eq!(m, "group not found");
    let m = group_message(ctx.demote_member(&[9u8; 32], &[2u8; 32]).unwrap_err());
    assert_eq!(m, "group not found");
}

#[test]
fn invitation_reaches_the_invitee() {
    let alice = fresh_context("alice");
    let bob = fresh_context("bob");

    let data = bob.create_keypackage(relays()).unwrap();
    let kp_event = bob.sign_keypackage_event(&data).unwrap();
    assert_eq!(kp_event.kind.as_u16(), 30443);
    assert_eq!(kp_event.pubkey.to_bytes(), bob.identity.public_key());

    let dm = alice.create_dm("", relays(), &kp_event).unwrap();
    assert_eq!(dm.group.name, "");
    assert_eq!(dm.group.description, "");
    assert_eq!(dm.group.admin_pubkeys, vec![alice.identity.public_key()]);
    assert_eq!(dm.update.mls_group_id, dm.group.mls_group_id);
    assert_eq!(dm.update.welcome_count, 1);
    let update = dm.update.result;
    assert_eq!(AgentContext::evolution_event(&update).kind.as_u16(), 445);
    let rumors = update.welcome_rumors.clone().unwrap();
    assert_eq!(rumors.len(), 1);
    assert_eq!(rumors[0].kind.as_u16(), 444);

    // A rumor of another kind is not a welcome.
    let note = nostr::EventBuilder::new(nostr::Kind::TextNote, "hi")
        .build(nostr::PublicKey::from_byte_array(alice.identity.public_key()));
    let wrapper = nostr::EventId::from_byte_array([3u8; 32]);
    assert!(bob.process_unwrapped_welcome(&wrapper, &note, note.kind.as_u16()).unwrap().is_none());

    let welcome = bob.process_unwrapped_welcome(&wrapper, &rumors[0], rumors[0].kind.as_u16()).unwrap().unwrap();
    let pending = bob.list_pending_welcomes().unwrap();
    assert_eq!(pending.len(), 1);
    let hex_id = hex::encode(welcome.nostr_group_id);

    // The welcome picked for a hex id is the first listed with that id.
    let mut other = welcome.clone();
    other.group_name = "other".to_string();
    let mut second = welcome.clone();
    second.group_name = "second".to_string();
    let listed = vec![(other, [7u8; 32]), (welcome.clone(), welcome.nostr_group_id), (second, welcome.nostr_group_id)];
    assert_eq!(welcome_at(listed.clone(), &hex_id).unwrap(), welcome);
    assert_eq!(welcome_at(listed.clone(), &"07".repeat(32)).unwrap().group_name, "other");
    let m = group_message(welcome_at(listed, &hex_id.to_uppercase()).unwrap_err());
    assert_eq!(m, format!("no pending invitation for group {}", hex_id.to_uppercase()));

    let m = group_message(bob.decline_welcome_by_nostr_id("ab").unwrap_err());
    assert_eq!(m, "no pending invitation for group ab");
    bob.accept_welcome_by_nostr_id(&hex_id).unwrap();
    assert!(bob.list_pending_welcomes().unwrap().is_empty());
    let groups = bob.list_groups().unwrap();
    assert_eq!(groups.len(), 1);
    assert_eq!(groups[0].nostr_group_id, welcome.nostr_group_id);
    assert!(bob.find_group_by_nostr_id(&hex_id).unwrap().is_some());

    // The invitee now sees both members, so the group is a DM with alice.
    let members = bob.get_members_for_group(&groups[0].mls_group_id).unwrap();
    assert_eq!(members.len(), 2);
    assert!(members.contains(&alice.identity.public_key()));
    assert!(members.contains(&bob.identity.public_key()));
    assert!(members[0] < members[1]);
    let upper = bob.find_group_by_nostr_id(&hex_id.to_uppercase()).unwrap().unwrap();
    assert_eq!(upper.mls_group_id, groups[0].mls_group_id);
    let dm = bob.find_dm_with_peer(&alice.identity.public_key()).unwrap().unwrap();
    assert_eq!(dm.mls_group_id, groups[0].mls_group_id);
    assert!(bob.find_dm_with_peer(&[5u8; 32]).unwrap().is_none());
}

#[test]
fn a_broken_key_package_is_refused() {
    let alice = fresh_context("alice");
    let bogus = nostr::EventBuilder::new(nostr::Kind::TextNote, "not a key package")
        .sign_with_keys(&alice.identity.keys())
        .unwrap();
    match alice.create_dm("", relays(), &bogus) {
        Err(Error::Identity(m)) => assert!(m.starts_with("KeyPackage parse failed: ")),
        Err(other) => panic!("unexpected error {:?}", other),
        Ok(_) => panic!("a text note is no key package"),
    }
    match alice.invite_member_to_group(&[9u8; 32], &bogus) {
        Err(Error::Group(_)) => {}
        Err(other) => panic!("unexpected error {:?}", other),
        Ok(_) => panic!("no such group"),
    }
}
