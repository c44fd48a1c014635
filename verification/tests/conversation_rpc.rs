use marmot_agent_core::context::{
    admins_of, choose_dm_group, dm_member_queries, event_outcome, EventOutcome, demotion, dm_add_failure, group_setup, group_with_id, pending_position,
    promotion, suggests_self_demote, AgentContext,
    chat_rumor, deletion_rumor, reaction_rumor, admins_with, admins_without, contains_key, demoted_admins, dm_group_position, group_error,
    identity_error, is_dm_members, parse_group_id_hex, position_of_group,
    position_of_hex_id, same_key, str_contains, welcome_expiration, GroupInfo, MessageInfo,
};
use marmot_agent_core::conversation::{
    conversation_label, display_name, message_fetch_limit, search_messages, select_messages, short_conversation_label,
};
use marmot_agent_core::rpc::{is_blank_line, line_action, rpc_method, LineAction, Response, RpcMethod, RpcServer, INTERNAL_ERROR, PARSE_ERROR, SERVER_ERROR};
use marmot_agent_core::Error;
use mdk_core::messages::MessageProcessingResult;

fn key(b: u8) -> [u8; 32] {
    [b; 32]
}

fn msg(n: u8, created_at: u64, content: &str) -> MessageInfo {
    MessageInfo { id: [n; 32], pubkey: key(1), kind: 9, created_at, content: content.to_string() }
}

fn group(name: &str, nostr_id: u8) -> GroupInfo {
    GroupInfo {
        mls_group_id: vec![nostr_id],
        nostr_group_id: [nostr_id; 32],
        name: name.to_string(),
        description: String::new(),
        admin_pubkeys: vec![],
    }
}

fn ids(v: &[MessageInfo]) -> Vec<u8> {
    v.iter().map(|m| m.id[0]).collect()
}

fn message_of(e: Error) -> String {
    match e {
        Error::Group(m) | Error::Identity(m) => m,
        other => panic!("unexpected error {:?}", other),
    }
}

#[test]
fn keys_compare_bytewise() {
    assert!(same_key(&key(3), &key(3)));
    let mut k = key(3);
    k[31] = 4;
    assert!(!same_key(&key(3), &k));
    assert!(contains_key(&vec![key(1), key(2)], &key(2)));
    assert!(!contains_key(&vec![key(1), key(2)], &key(3)));
    assert!(!contains_key(&vec![], &key(3)));
}

#[test]
fn promoting_adds_an_admin_once() {
    assert_eq!(admins_with(vec![key(1)], key(2)), vec![key(1), key(2)]);
    assert_eq!(admins_with(vec![key(1), key(2)], key(1)), vec![key(1), key(2)]);
    assert_eq!(admins_with(vec![], key(7)), vec![key(7)]);
}

#[test]
fn demoting_keeps_the_other_admins() {
    assert_eq!(admins_without(&vec![key(1), key(2), key(1)], &key(1)), vec![key(2)]);
    assert_eq!(admins_without(&vec![key(1)], &key(3)), vec![key(1)]);
    assert_eq!(demoted_admins(&vec![key(1), key(2)], &key(2)).unwrap(), vec![key(1)]);
    let m = message_of(demoted_admins(&vec![key(1), key(1)], &key(1)).unwrap_err());
    assert_eq!(m, "cannot remove the last admin");
    assert!(demoted_admins(&vec![], &key(1)).is_err());
}

#[test]
fn group_ids_in_hex() {
    let text = "0a".repeat(32);
    assert_eq!(parse_group_id_hex(&text).unwrap(), [0x0a; 32]);
    assert_eq!(parse_group_id_hex(&"0A".repeat(32)).unwrap(), [0x0a; 32]);
    let m = message_of(parse_group_id_hex("0g").unwrap_err());
    assert!(m.starts_with("invalid nostr group id hex: "));
    let m = message_of(parse_group_id_hex("abc").unwrap_err());
    assert!(m.starts_with("invalid nostr group id hex: "));
    let m = message_of(parse_group_id_hex("abcd").unwrap_err());
    assert_eq!(m, "nostr group id must be 32 bytes");
    let m = message_of(parse_group_id_hex("").unwrap_err());
    assert_eq!(m, "nostr group id must be 32 bytes");
}

#[test]
fn groups_are_found_by_nostr_id() {
    let groups = vec![group("a", 1), group("b", 2), group("c", 2)];
    assert_eq!(position_of_group(&groups, &[2; 32]), Some(1));
    assert_eq!(position_of_group(&groups, &[9; 32]), None);
    let keys = vec![key(0xab), key(0xcd)];
    assert_eq!(position_of_hex_id(&keys, &"cd".repeat(32)), Some(1));
    assert_eq!(position_of_hex_id(&keys, &"CD".repeat(32)), None);
    assert_eq!(position_of_hex_id(&keys, "cd"), None);
}

#[test]
fn direct_message_membership() {
    let ours = key(1);
    let peer = key(2);
    assert!(is_dm_members(&vec![peer, ours], &ours, &peer));
    assert!(is_dm_members(&vec![ours], &ours, &ours));
    assert!(!is_dm_members(&vec![ours], &ours, &peer));
    assert!(!is_dm_members(&vec![ours, peer, key(3)], &ours, &peer));
    assert!(!is_dm_members(&vec![], &ours, &peer));

    let groups = vec![group("named", 1), group("", 2), group("", 3), group("", 4)];
    let members = vec![
        Some(vec![ours, peer]),
        None,
        Some(vec![ours, key(5)]),
        Some(vec![ours, peer]),
    ];
    assert_eq!(dm_group_position(&groups, &members, &ours, &peer), Some(3));
    assert_eq!(dm_group_position(&groups, &members, &ours, &key(5)), Some(2));
    assert_eq!(dm_group_position(&groups, &members, &ours, &key(6)), None);
}

#[test]
fn text_search_and_errors() {
    assert!(str_contains("hello world", "o w"));
    assert!(str_contains("abc", ""));
    assert!(!str_contains("abc", "abcd"));
    assert!(!str_contains("", "a"));
    assert_eq!(message_of(group_error("x: ", "y")), "x: y");
    assert_eq!(message_of(identity_error("id: ", "z")), "id: z");
}

#[test]
fn welcomes_expire_after_thirty_days() {
    assert_eq!(welcome_expiration(0), 2_592_000);
    assert_eq!(welcome_expiration(1_700_000_000), 1_702_592_000);
}

#[test]
fn fetch_limit_widens_for_time_windows() {
    assert_eq!(message_fetch_limit(20, None, None), 20);
    assert_eq!(message_fetch_limit(20, Some(5), None), 10_000);
    assert_eq!(message_fetch_limit(20, None, Some(5)), 10_000);
}

#[test]
fn time_window_and_limit() {
    let msgs = vec![msg(1, 50, "a"), msg(2, 40, "b"), msg(3, 30, "c"), msg(4, 20, "d")];
    assert_eq!(ids(&select_messages(msgs.clone(), None, None, 10)), vec![1, 2, 3, 4]);
    assert_eq!(ids(&select_messages(msgs.clone(), None, None, 2)), vec![1, 2]);
    assert_eq!(ids(&select_messages(msgs.clone(), Some(40), None, 10)), vec![3, 4]);
    assert_eq!(ids(&select_messages(msgs.clone(), None, Some(30), 10)), vec![1, 2]);
    assert_eq!(ids(&select_messages(msgs.clone(), Some(50), Some(20), 1)), vec![2]);
    assert!(select_messages(msgs, Some(10), None, 10).is_empty());
}

#[test]
fn search_ignores_case() {
    let msgs = vec![msg(1, 3, "Hello World"), msg(2, 2, "bye"), msg(3, 1, "WORLD peace")];
    assert_eq!(ids(&search_messages(msgs.clone(), "world", 10)), vec![1, 3]);
    assert_eq!(ids(&search_messages(msgs.clone(), "WORLD", 1)), vec![1]);
    assert_eq!(ids(&search_messages(msgs.clone(), "", 10)), vec![1, 2, 3]);
    assert!(search_messages(msgs, "nothing", 10).is_empty());
}

#[test]
fn conversation_labels() {
    let ours = key(1);
    let peer = key(2);
    assert_eq!(display_name("team"), "team");
    assert_eq!(display_name(""), "<Direct Message>");
    assert_eq!(conversation_label("team", Some(vec![ours, peer]), &ours), "team");
    assert_eq!(
        conversation_label("", Some(vec![ours, peer]), &ours),
        format!("<DM with {}>", marmot_agent_core::context::AgentContext::member_npub(&peer))
    );
    assert_eq!(conversation_label("", Some(vec![ours]), &ours), "<Direct Message>");
    assert_eq!(conversation_label("", None, &ours), "<Direct Message>");
}

#[test]
fn rpc_responses() {
    let _server = RpcServer::new();
    let id = Some(serde_json::Value::from(7));
    let ok = Response::ok(id.clone(), serde_json::Value::Bool(true));
    assert_eq!(ok.jsonrpc, "2.0");
    assert_eq!(ok.result, Some(serde_json::Value::Bool(true)));
    assert!(ok.error.is_none());
    assert_eq!(ok.id, id);

    let err = Response::err(id.clone(), SERVER_ERROR, "boom".to_string());
    assert!(err.result.is_none());
    let e = err.error.unwrap();
    assert_eq!((e.code, e.message.as_str()), (-32000, "boom"));
    assert!(e.data.is_none());

    let parse = Response::parse_error("eof");
    assert!(parse.id.is_none());
    let e = parse.error.unwrap();
    assert_eq!((e.code, e.message.as_str()), (PARSE_ERROR, "Parse error: eof"));

    let failed = Response::for_outcome(id.clone(), Err("no such method".to_string()));
    let e = failed.error.unwrap();
    assert_eq!((e.code, e.message.as_str()), (-32000, "no such method"));
    let done = Response::for_outcome(None, Ok(serde_json::Value::from("x")));
    assert_eq!(done.result, Some(serde_json::Value::from("x")));
    assert!(done.error.is_none());
    let internal = Response::internal_error(id.clone(), "key must be a string");
    assert_eq!(internal.id, id);
    let e = internal.error.unwrap();
    assert_eq!((e.code, e.message.as_str()), (INTERNAL_ERROR, "Internal error: key must be a string"));
    assert_eq!(INTERNAL_ERROR, -32603);
}

#[test]
fn blank_request_lines_are_skipped() {
    assert!(is_blank_line(""));
    assert!(is_blank_line(" \t\r\n"));
    assert!(!is_blank_line(" {} \n"));
}

#[test]
fn client_line_steps() {
    assert_eq!(line_action(None), LineAction::Stop);
    assert_eq!(line_action(Some("  \n")), LineAction::Skip);
    assert_eq!(line_action(Some("{\"jsonrpc\":\"2.0\"}\n")), LineAction::Handle);
}

#[test]
fn daemon_methods() {
    assert_eq!(rpc_method("ping"), Ok(RpcMethod::Ping));
    assert_eq!(rpc_method("identity_npub"), Ok(RpcMethod::IdentityNpub));
    assert_eq!(rpc_method("list_groups"), Ok(RpcMethod::ListGroups));
    assert_eq!(rpc_method("send_message"), Ok(RpcMethod::SendMessage));
    assert_eq!(rpc_method("pong"), Err("Unknown method: pong".to_string()));
    assert_eq!(rpc_method(""), Err("Unknown method: ".to_string()));
}

#[test]
fn rumors_carry_kind_content_and_references() {
    let me = key(9);
    let plain = chat_rumor("hi", None, me);
    assert_eq!((plain.kind, plain.content.as_str(), plain.author), (9, "hi", me));
    assert!(plain.refers_to.is_empty());
    let reply = chat_rumor("re", Some(key(4)), me);
    assert_eq!(reply.refers_to, vec![key(4)]);
    let reaction = reaction_rumor("+", key(5), me);
    assert_eq!((reaction.kind, reaction.content.as_str()), (7, "+"));
    assert_eq!(reaction.refers_to, vec![key(5)]);
    let deletion = deletion_rumor(key(6), me);
    assert_eq!((deletion.kind, deletion.content.as_str()), (5, ""));
    assert_eq!(deletion.refers_to, vec![key(6)]);
}

#[test]
fn a_new_group_is_set_up_with_its_creator_as_only_admin() {
    let s = group_setup("team", "the team", key(3));
    assert_eq!((s.name.as_str(), s.description.as_str()), ("team", "the team"));
    assert_eq!(s.admins, vec![key(3)]);
    assert!(s.image_hash.is_none() && s.image_key.is_none() && s.image_nonce.is_none());
}

#[test]
fn a_failed_dm_add_deletes_the_group() {
    let f = dm_add_failure("InviteeMissingRequiredProposal");
    assert!(f.delete_new_group);
    assert_eq!(message_of(f.error), "add member failed: InviteeMissingRequiredProposal");
}

#[test]
fn dm_group_chosen_from_member_reads() {
    let ours = key(1);
    let peer = key(2);
    let groups = vec![group("named", 1), group("", 2), group("", 3), group("", 4)];
    let reads = vec![
        None,
        Some(Err("db".to_string())),
        Some(Ok(vec![ours, key(9)])),
        Some(Ok(vec![peer, ours])),
    ];
    let g = choose_dm_group(groups.clone(), reads, &ours, &peer).unwrap();
    assert_eq!(g.nostr_group_id, [4; 32]);
    let reads = vec![Some(Ok(vec![ours, peer])), None, None, None];
    // A named group is never a DM, even with the right members.
    assert!(choose_dm_group(groups, reads, &ours, &peer).is_none());
}

#[test]
fn group_found_by_id_or_none() {
    let groups = vec![group("a", 1), group("b", 2), group("c", 2)];
    assert_eq!(group_with_id(groups.clone(), &[2; 32]).unwrap().name, "b");
    assert!(group_with_id(groups, &[7; 32]).is_none());
}

#[test]
fn admin_changes_from_the_stored_group() {
    let mut g = group("g", 1);
    g.admin_pubkeys = vec![key(1)];
    assert_eq!(admins_of(Ok(Some(g.clone()))).unwrap(), vec![key(1)]);
    assert_eq!(message_of(admins_of(Ok(None)).unwrap_err()), "group not found");
    assert_eq!(message_of(admins_of(Err("db down".to_string())).unwrap_err()), "db down");
    assert_eq!(promotion(Ok(Some(g.clone())), key(2)).unwrap(), vec![key(1), key(2)]);
    assert_eq!(promotion(Ok(Some(g.clone())), key(1)).unwrap(), vec![key(1)]);
    assert_eq!(message_of(promotion(Ok(None), key(2)).unwrap_err()), "group not found");
    assert_eq!(message_of(demotion(Ok(Some(g.clone())), &key(1)).unwrap_err()), "cannot remove the last admin");
    g.admin_pubkeys = vec![key(1), key(2)];
    assert_eq!(demotion(Ok(Some(g)), &key(1)).unwrap(), vec![key(2)]);
    assert_eq!(message_of(demotion(Ok(None), &key(1)).unwrap_err()), "group not found");
}

#[test]
fn pending_invitation_by_hex() {
    let ids = vec![key(0xab), key(0xcd), key(0xcd)];
    assert_eq!(pending_position(&ids, &"cd".repeat(32)).unwrap(), 1);
    let text = "ef".repeat(32);
    assert_eq!(message_of(pending_position(&ids, &text).unwrap_err()), format!("no pending invitation for group {}", text));
}

#[test]
fn event_outcome_is_failed_only_for_a_failed_event() {
    let failed: Result<MessageProcessingResult, Error> = Err(Error::Group("failed to process event: x".to_string()));
    assert_eq!(event_outcome(&failed), EventOutcome::Failed);
    let commit: Result<MessageProcessingResult, Error> =
        Ok(MessageProcessingResult::Commit { mls_group_id: mdk_core::GroupId::from_slice(&[1, 2, 3]) });
    assert_eq!(event_outcome(&commit), EventOutcome::Commit);
    let other: Result<MessageProcessingResult, Error> =
        Ok(MessageProcessingResult::Unprocessable { mls_group_id: mdk_core::GroupId::from_slice(&[4]) });
    assert_eq!(event_outcome(&other), EventOutcome::Other);
}

#[test]
fn a_connection_answers_each_non_blank_line_once_in_order() {
    let lines = ["{\"a\":1}", "", "   ", "{\"b\":2}", "\t", "{\"c\":3}"];
    let mut reads: Vec<Option<&str>> = lines.iter().map(|l| Some(*l)).collect();
    reads.push(None);
    reads.push(Some("{\"after\":true}"));
    let mut answered: Vec<&str> = Vec::new();
    for read in reads {
        match line_action(read) {
            LineAction::Stop => break,
            LineAction::Skip => {}
            LineAction::Handle => answered.push(read.unwrap()),
        }
    }
    assert_eq!(answered, vec!["{\"a\":1}", "{\"b\":2}", "{\"c\":3}"]);
}

#[test]
fn only_unnamed_groups_are_asked_for_members() {
    let groups = vec![group("", 1), group("team", 2), group("", 3)];
    let queries = dm_member_queries(&groups);
    assert_eq!(queries, vec![Some(groups[0].mls_group_id.clone()), None, Some(groups[2].mls_group_id.clone())]);
    assert!(dm_member_queries(&Vec::new()).is_empty());
}

#[test]
fn a_refused_leave_by_an_admin_suggests_stepping_down() {
    assert!(suggests_self_demote("leave group failed: cannot leave as admin"));
    assert!(suggests_self_demote("please demote yourself"));
    assert!(!suggests_self_demote("leave group failed: group not found"));
}

#[test]
fn the_recent_list_shortens_a_dm_label() {
    let ours = [1u8; 32];
    let peer = [2u8; 32];
    let full = AgentContext::member_npub(&peer);
    let label = short_conversation_label("", Some(vec![ours, peer]), &ours);
    assert_eq!(label, format!("<DM with {}>", &full[..20]));
    assert_eq!(short_conversation_label("", Some(vec![ours]), &ours), "<Direct Message>");
    assert_eq!(short_conversation_label("", None, &ours), "<Direct Message>");
    assert_eq!(short_conversation_label("team", None, &ours), "team");
}
