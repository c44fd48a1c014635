//! The agent context: the Marmot Development Kit over encrypted SQLite
//! storage, the storage layout and the identity in use. Group, message and
//! invitation operations go through the kit; the decisions around them are
//! made here.

use vstd::prelude::*;

use crate::codec::{
    ascii_upper_spec, hex_decode, hex_decode_spec, hex_encode, hex_encode_spec, hex_error_message, is_hex,
    law_hex_case_insensitive, lemma_hex_roundtrip,
};
use crate::identity::{encode_npub, npub_encode, public_key_of, Identity};
use crate::storage::AgentStorage;
use crate::{lemma_starts_with_concat, starts_with, Error};

verus! {

/// An open Marmot Development Kit (`mdk_core::MDK`) over its encrypted
/// SQLite storage (`mdk_sqlite_storage::MdkSqliteStorage`): the MLS groups,
/// members, messages and welcomes of one identity. Its contents are read and
/// changed only through the calls below, and nothing is stated of them.
#[verifier::external_body]
pub struct Mdk {
    inner: mdk_core::MDK<mdk_sqlite_storage::MdkSqliteStorage>,
}

/// `MdkSqliteStorage::new_with_key(path, EncryptionConfig::new(key))` and
/// `MDK::new` over it: opens (or creates) the encrypted database file.
#[verifier::external_body]
fn open_mdk(db_path: &str, key: &[u8; 32]) -> Result<Mdk, String> {
    let config = mdk_sqlite_storage::EncryptionConfig::new(*key);
    match mdk_sqlite_storage::MdkSqliteStorage::new_with_key(db_path, config) {
        Ok(storage) => Ok(Mdk { inner: mdk_core::MDK::new(storage) }),
        Err(e) => Err(e.to_string()),
    }
}

/// `mdk_core::groups::GroupResult`.
#[verifier::external_type_specification]
#[verifier::external_body]
pub struct ExGroupResult(mdk_core::groups::GroupResult);

/// `mdk_core::groups::UpdateGroupResult`.
#[verifier::external_type_specification]
#[verifier::external_body]
pub struct ExUpdateGroupResult(mdk_core::groups::UpdateGroupResult);

/// `mdk_core::key_packages::KeyPackageEventData`.
#[verifier::external_type_specification]
#[verifier::external_body]
pub struct ExKeyPackageEventData(mdk_core::key_packages::KeyPackageEventData);

/// `mdk_core::messages::MessageProcessingResult`.
#[verifier::external_type_specification]
#[verifier::external_body]
pub struct ExMessageProcessingResult(mdk_core::messages::MessageProcessingResult);

/// `mdk_storage_traits::groups::types::Group`.
#[verifier::external_type_specification]
#[verifier::external_body]
pub struct ExGroup(mdk_storage_traits::groups::types::Group);

/// `mdk_storage_traits::welcomes::types::Welcome`.
#[verifier::external_type_specification]
#[verifier::external_body]
pub struct ExWelcome(mdk_storage_traits::welcomes::types::Welcome);

/// `nostr::Event`.
#[verifier::external_type_specification]
#[verifier::external_body]
pub struct ExEvent(nostr::Event);

/// `nostr::UnsignedEvent`.
#[verifier::external_type_specification]
#[verifier::external_body]
pub struct ExUnsignedEvent(nostr::UnsignedEvent);

/// `nostr::EventId`.
#[verifier::external_type_specification]
#[verifier::external_body]
pub struct ExEventId(nostr::EventId);

/// `nostr::RelayUrl`.
#[verifier::external_type_specification]
#[verifier::external_body]
pub struct ExRelayUrl(nostr::RelayUrl);


/// What the agent reads of a stored group.
#[derive(Debug, Clone)]
pub struct GroupInfo {
    /// The MLS group id (the storage key; never changes).
    pub mls_group_id: Vec<u8>,
    /// The group id used in published events (the `h` tag).
    pub nostr_group_id: [u8; 32],
    pub name: String,
    pub description: String,
    /// The admins' public keys, in ascending byte order.
    pub admin_pubkeys: Vec<[u8; 32]>,
}

/// An unsigned event sent inside a group (a rumor), as plain values: its
/// kind, its content, the events it refers to (`e` tags, in order) and its
/// author.
#[derive(Debug)]
pub struct Rumor {
    pub kind: u16,
    pub content: String,
    pub refers_to: Vec<[u8; 32]>,
    pub author: [u8; 32],
}

/// A message sent into a group: the encrypted event to publish and the
/// rumor it carries.
#[derive(Debug)]
pub struct SentMessage {
    pub event: nostr::Event,
    pub rumor: Rumor,
}

/// A chat message (kind 9); a reply refers to the message it answers.
pub fn chat_rumor(content: &str, reply_to: Option<[u8; 32]>, author: [u8; 32]) -> (r: Rumor)
    ensures
        r.kind == 9,
        r.content@ == content@,
        r.refers_to@ == match reply_to {
            Some(id) => seq![id],
            None => Seq::<[u8; 32]>::empty(),
        },
        r.author == author,
{
    let mut refers_to: Vec<[u8; 32]> = Vec::new();
    match reply_to {
        Some(id) => refers_to.push(id),
        None => {},
    }
    proof {
        if reply_to is None {
            assert(refers_to@ =~= Seq::<[u8; 32]>::empty());
        } else {
            assert(refers_to@ =~= seq![reply_to->0]);
        }
    }
    Rumor { kind: 9, content: String::from_str(content), refers_to, author }
}

/// An emoji reaction (kind 7) to a message.
pub fn reaction_rumor(emoji: &str, target: [u8; 32], author: [u8; 32]) -> (r: Rumor)
    ensures
        r.kind == 7,
        r.content@ == emoji@,
        r.refers_to@ == seq![target],
        r.author == author,
{
    let mut refers_to: Vec<[u8; 32]> = Vec::new();
    refers_to.push(target);
    assert(refers_to@ =~= seq![target]);
    Rumor { kind: 7, content: String::from_str(emoji), refers_to, author }
}

/// A deletion request (kind 5, no content) for a message.
pub fn deletion_rumor(target: [u8; 32], author: [u8; 32]) -> (r: Rumor)
    ensures
        r.kind == 5,
        r.content@.len() == 0,
        r.refers_to@ == seq![target],
        r.author == author,
{
    let mut refers_to: Vec<[u8; 32]> = Vec::new();
    refers_to.push(target);
    assert(refers_to@ =~= seq![target]);
    Rumor { kind: 5, content: String::new(), refers_to, author }
}

/// What the agent reads of a stored message.
#[derive(Debug, Clone)]
pub struct MessageInfo {
    pub id: [u8; 32],
    /// The author's public key.
    pub pubkey: [u8; 32],
    pub kind: u16,
    /// Seconds since the Unix epoch (the rumor's `created_at`).
    pub created_at: u64,
    pub content: String,
}

/// The views of a list of 32-byte keys.
pub open spec fn keys_view(v: Seq<[u8; 32]>) -> Seq<Seq<u8>> {
    v.map_values(|k: [u8; 32]| k@)
}

// ---------------------------------------------------------------------
// Calls into the Marmot Development Kit and nostr. Each keeps an error as
// its message (`to_string`). What the kit answers depends on the state of
// its database, so nothing is stated of its results.
// ---------------------------------------------------------------------

/// `Clone` for `nostr::Event`: nostr derives it, so the copy equals the
/// original.
pub assume_specification[ <nostr::Event as std::clone::Clone>::clone ](event: &nostr::Event) -> (res:
    nostr::Event)
    ensures
        res == *event,
;

/// `GroupId::from_slice` then read a `group_types::Group` as plain values.
#[verifier::external_body]
fn group_info_of(g: &mdk_storage_traits::groups::types::Group) -> GroupInfo {
    GroupInfo {
        mls_group_id: g.mls_group_id.as_slice().to_vec(),
        nostr_group_id: g.nostr_group_id,
        name: g.name.clone(),
        description: g.description.clone(),
        admin_pubkeys: g.admin_pubkeys.iter().map(|pk| pk.to_bytes()).collect(),
    }
}

/// `MDK::get_groups`, each group read as plain values.
#[verifier::external_body]
fn mdk_get_groups(mdk: &Mdk) -> Result<Vec<GroupInfo>, String> {
    match mdk.inner.get_groups() {
        Ok(groups) => Ok(groups.iter().map(group_info_of).collect()),
        Err(e) => Err(e.to_string()),
    }
}

/// `MDK::get_group`, read as plain values.
#[verifier::external_body]
fn mdk_get_group(mdk: &Mdk, id: &[u8]) -> Result<Option<GroupInfo>, String> {
    match mdk.inner.get_group(&mdk_storage_traits::GroupId::from_slice(id)) {
        Ok(g) => Ok(g.as_ref().map(group_info_of)),
        Err(e) => Err(e.to_string()),
    }
}

/// `a` sorts strictly before `b` in the byte order of `[u8; 32]`'s `Ord`
/// (the first byte where they differ decides).
pub open spec fn key_less(a: Seq<u8>, b: Seq<u8>) -> bool {
    exists|k: int| 0 <= k < a.len() && k < b.len() && a.take(k) == b.take(k) && a[k] < b[k]
}

/// Keys in strictly ascending byte order (so each occurs once).
pub open spec fn keys_ascending(keys: Seq<[u8; 32]>) -> bool {
    forall|i: int, j: int| 0 <= i < j < keys.len() ==> key_less(#[trigger] keys[i]@, #[trigger] keys[j]@)
}

/// `MDK::get_members`: the member set is a `BTreeSet<PublicKey>`, whose
/// order is that of the keys' 32 bytes, so the keys come out strictly
/// ascending. Which keys they are depends on the stored group and is not
/// stated.
#[verifier::external_body]
fn mdk_get_members(mdk: &Mdk, id: &[u8]) -> (r: Result<Vec<[u8; 32]>, String>)
    ensures
        r matches Ok(v) ==> keys_ascending(v@),
{
    match mdk.inner.get_members(&mdk_storage_traits::GroupId::from_slice(id)) {
        Ok(members) => Ok(members.iter().map(|pk| pk.to_bytes()).collect()),
        Err(e) => Err(e.to_string()),
    }
}

/// `MDK::create_group` with the given initial members (KeyPackage events),
/// for the config `NostrGroupConfigData::new(name, description, image_hash,
/// image_key, image_nonce, relays, admins)` that `setup` holds. The stored
/// group keeps the config's name and description, its admins are the set of
/// the config's admins (a `BTreeSet`, so ascending), and one welcome rumor is
/// made per initial member. Whether it succeeds depends on the database.
#[verifier::external_body]
fn mdk_create_group(
    mdk: &Mdk,
    creator: &[u8; 32],
    setup: GroupSetup,
    relays: Vec<nostr::RelayUrl>,
    initial_members: Vec<nostr::Event>,
) -> (r: Result<CreatedGroup, String>)
    ensures
        r matches Ok(c) ==> c.group.name@ == setup.name@ && c.group.description@ == setup.description@
            && (forall|k: [u8; 32]| c.group.admin_pubkeys@.contains(k) <==> setup.admins@.contains(k))
            && keys_ascending(c.group.admin_pubkeys@) && c.welcome_count == initial_members@.len(),
{
    let admins = setup.admins.into_iter().map(nostr::PublicKey::from_byte_array).collect();
    let config = mdk_core::groups::NostrGroupConfigData::new(
        setup.name, setup.description, setup.image_hash, setup.image_key, setup.image_nonce, relays, admins,
    );
    match mdk.inner.create_group(&nostr::PublicKey::from_byte_array(*creator), initial_members, config) {
        Ok(r) => Ok(CreatedGroup { group: group_info_of(&r.group), welcome_count: r.welcome_rumors.len(), result: r }),
        Err(e) => Err(e.to_string()),
    }
}

/// `MDK::add_members`: the update is for the group it was given, and carries
/// one welcome rumor per KeyPackage event handed (none for none). Whether it
/// succeeds depends on the database.
#[verifier::external_body]
fn mdk_add_members(
    mdk: &Mdk,
    id: &[u8],
    key_package_events: &[nostr::Event],
) -> (r: Result<GroupUpdate, String>)
    ensures
        r matches Ok(u) ==> u.mls_group_id@ == id@ && u.welcome_count == key_package_events@.len(),
{
    match mdk.inner.add_members(&mdk_storage_traits::GroupId::from_slice(id), key_package_events) {
        Ok(r) => Ok(GroupUpdate {
            mls_group_id: r.mls_group_id.as_slice().to_vec(),
            welcome_count: r.welcome_rumors.as_ref().map_or(0, |w| w.len()),
            result: r,
        }),
        Err(e) => Err(e.to_string()),
    }
}

/// `MDK::parse_key_package`: checks that an event carries a valid
/// KeyPackage (the parsed package itself is not kept).
#[verifier::external_body]
fn mdk_parse_key_package(mdk: &Mdk, event: &nostr::Event) -> Result<(), String> {
    match mdk.inner.parse_key_package(event) {
        Ok(_) => Ok(()),
        Err(e) => Err(e.to_string()),
    }
}

/// `MDK::delete_group`.
#[verifier::external_body]
fn mdk_delete_group(mdk: &Mdk, id: &[u8]) -> Result<(), String> {
    match mdk.inner.delete_group(&mdk_storage_traits::GroupId::from_slice(id)) {
        Ok(()) => Ok(()),
        Err(e) => Err(e.to_string()),
    }
}

/// `MDK::create_message` on `rumor`, built as the unsigned event
/// `EventBuilder::new(kind, content).tags(e tags).build(author)` (stamped with
/// the current time); `expires_at` is a NIP-40 expiration for the outer
/// event (`EventTag::expiration`; `None`: no extra tag). Gives the encrypted
/// event together with the rumor it encrypts.
#[verifier::external_body]
fn mdk_create_message(mdk: &Mdk, id: &[u8], rumor: Rumor, expires_at: Option<u64>) -> (r: Result<
    SentMessage,
    String,
>)
    ensures
        r matches Ok(s) ==> s.rumor == rumor,
{
    let tags = rumor.refers_to.iter().map(|e| nostr::Tag::event(nostr::EventId::from_byte_array(*e)));
    let unsigned = nostr::EventBuilder::new(nostr::Kind::from(rumor.kind), rumor.content.as_str())
        .tags(tags).build(nostr::PublicKey::from_byte_array(rumor.author));
    let extra = expires_at.map(|t| vec![mdk_core::messages::EventTag::expiration(nostr::Timestamp::from_secs(t))]);
    match mdk.inner.create_message(&mdk_storage_traits::GroupId::from_slice(id), unsigned, extra) {
        Ok(event) => Ok(SentMessage { event, rumor }),
        Err(e) => Err(e.to_string()),
    }
}

/// `MDK::remove_members`.
#[verifier::external_body]
fn mdk_remove_members(
    mdk: &Mdk,
    id: &[u8],
    pubkeys: &[[u8; 32]],
) -> Result<mdk_core::groups::UpdateGroupResult, String> {
    let keys: Vec<nostr::PublicKey> = pubkeys.iter().map(|k| nostr::PublicKey::from_byte_array(*k)).collect();
    match mdk.inner.remove_members(&mdk_storage_traits::GroupId::from_slice(id), &keys) {
        Ok(r) => Ok(r),
        Err(e) => Err(e.to_string()),
    }
}

/// `MDK::update_group_data` with `NostrGroupDataUpdate::new().name(name)`.
#[verifier::external_body]
fn mdk_rename_group(
    mdk: &Mdk,
    id: &[u8],
    name: &str,
) -> Result<mdk_core::groups::UpdateGroupResult, String> {
    let update = mdk_core::groups::NostrGroupDataUpdate::new().name(name);
    match mdk.inner.update_group_data(&mdk_storage_traits::GroupId::from_slice(id), update) {
        Ok(r) => Ok(r),
        Err(e) => Err(e.to_string()),
    }
}

/// A change the kit was asked to make, as plain values: a kit call that
/// changes group state reports which change it asked for.
pub enum KitChange {
    WelcomeAccepted,
    WelcomeDeclined,
    /// Leave the group with this MLS id.
    GroupLeft(Vec<u8>),
    /// Step down as admin of the group with this MLS id.
    SelfDemoted(Vec<u8>),
    /// Set the admins of the group with this MLS id to this list.
    AdminsSet(Vec<u8>, Vec<[u8; 32]>),
}

/// Whether `c` asks to set the admins of group `id` to `admins`.
pub open spec fn sets_admins(c: KitChange, id: Seq<u8>, admins: Seq<[u8; 32]>) -> bool {
    c matches KitChange::AdminsSet(g, a) && g@ == id && a@ == admins
}

/// Whether `c` asks to step down as admin of group `id`.
pub open spec fn steps_down(c: KitChange, id: Seq<u8>) -> bool {
    c matches KitChange::SelfDemoted(g) && g@ == id
}

/// Whether `c` asks to leave group `id`.
pub open spec fn leaves(c: KitChange, id: Seq<u8>) -> bool {
    c matches KitChange::GroupLeft(g) && g@ == id
}

/// `MDK::update_group_data` with `NostrGroupDataUpdate::new().admins(admins)`,
/// beside the change asked for.
#[verifier::external_body]
fn mdk_set_admins(
    mdk: &Mdk,
    id: &[u8],
    admins: Vec<[u8; 32]>,
) -> (r: (Result<mdk_core::groups::UpdateGroupResult, String>, KitChange))
    ensures
        sets_admins(r.1, id@, admins@),
{
    let asked = KitChange::AdminsSet(id.to_vec(), admins.clone());
    let update = mdk_core::groups::NostrGroupDataUpdate::new()
        .admins(admins.into_iter().map(nostr::PublicKey::from_byte_array).collect());
    match mdk.inner.update_group_data(&mdk_storage_traits::GroupId::from_slice(id), update) {
        Ok(r) => (Ok(r), asked),
        Err(e) => (Err(e.to_string()), asked),
    }
}

/// `MDK::self_demote`, beside the change asked for.
#[verifier::external_body]
fn mdk_self_demote(mdk: &Mdk, id: &[u8]) -> (r: (Result<mdk_core::groups::UpdateGroupResult, String>, KitChange))
    ensures
        steps_down(r.1, id@),
{
    match mdk.inner.self_demote(&mdk_storage_traits::GroupId::from_slice(id)) {
        Ok(r) => (Ok(r), KitChange::SelfDemoted(id.to_vec())),
        Err(e) => (Err(e.to_string()), KitChange::SelfDemoted(id.to_vec())),
    }
}

/// `MDK::leave_group`, beside the change asked for.
#[verifier::external_body]
fn mdk_leave_group(mdk: &Mdk, id: &[u8]) -> (r: (Result<mdk_core::groups::UpdateGroupResult, String>, KitChange))
    ensures
        leaves(r.1, id@),
{
    match mdk.inner.leave_group(&mdk_storage_traits::GroupId::from_slice(id)) {
        Ok(r) => (Ok(r), KitChange::GroupLeft(id.to_vec())),
        Err(e) => (Err(e.to_string()), KitChange::GroupLeft(id.to_vec())),
    }
}

/// `MDK::self_update`.
#[verifier::external_body]
fn mdk_self_update(mdk: &Mdk, id: &[u8]) -> Result<mdk_core::groups::UpdateGroupResult, String> {
    match mdk.inner.self_update(&mdk_storage_traits::GroupId::from_slice(id)) {
        Ok(r) => Ok(r),
        Err(e) => Err(e.to_string()),
    }
}

/// `MDK::groups_needing_self_update`, the ids as bytes.
#[verifier::external_body]
fn mdk_groups_needing_self_update(
    mdk: &Mdk,
    threshold_secs: u64,
) -> Result<Vec<Vec<u8>>, String> {
    match mdk.inner.groups_needing_self_update(threshold_secs) {
        Ok(ids) => Ok(ids.iter().map(|id| id.as_slice().to_vec()).collect()),
        Err(e) => Err(e.to_string()),
    }
}

/// `MDK::get_pending_welcomes`, with `Pagination::new(limit, offset)` for
/// `page` (`None`: no pagination), each welcome beside its `nostr_group_id`.
#[verifier::external_body]
fn mdk_pending_welcomes(
    mdk: &Mdk,
    page: Option<(Option<usize>, Option<usize>)>,
) -> Result<Vec<(mdk_storage_traits::welcomes::types::Welcome, [u8; 32])>, String> {
    let page = page.map(|(limit, offset)| mdk_storage_traits::welcomes::Pagination::new(limit, offset));
    match mdk.inner.get_pending_welcomes(page) {
        Ok(w) => Ok(w.into_iter().map(|x| { let id = x.nostr_group_id; (x, id) }).collect()),
        Err(e) => Err(e.to_string()),
    }
}

/// `MDK::decline_welcome`, beside the change asked for and the welcome it
/// was handed.
#[verifier::external_body]
fn mdk_decline_welcome<'a>(
    mdk: &Mdk,
    w: &'a mdk_storage_traits::welcomes::types::Welcome,
) -> (r: (Result<(), String>, KitChange, &'a mdk_storage_traits::welcomes::types::Welcome))
    ensures
        r.1 matches KitChange::WelcomeDeclined,
        *r.2 == *w,
{
    match mdk.inner.decline_welcome(w) {
        Ok(()) => (Ok(()), KitChange::WelcomeDeclined, w),
        Err(e) => (Err(e.to_string()), KitChange::WelcomeDeclined, w),
    }
}

/// `MDK::accept_welcome`, beside the change asked for and the welcome it
/// was handed.
#[verifier::external_body]
fn mdk_accept_welcome<'a>(
    mdk: &Mdk,
    w: &'a mdk_storage_traits::welcomes::types::Welcome,
) -> (r: (Result<(), String>, KitChange, &'a mdk_storage_traits::welcomes::types::Welcome))
    ensures
        r.1 matches KitChange::WelcomeAccepted,
        *r.2 == *w,
{
    match mdk.inner.accept_welcome(w) {
        Ok(()) => (Ok(()), KitChange::WelcomeAccepted, w),
        Err(e) => (Err(e.to_string()), KitChange::WelcomeAccepted, w),
    }
}

/// `MDK::process_message`, beside the event it was handed.
#[verifier::external_body]
fn mdk_process_message<'a>(
    mdk: &Mdk,
    event: &'a nostr::Event,
) -> (r: (Result<mdk_core::messages::MessageProcessingResult, String>, &'a nostr::Event))
    ensures
        *r.1 == *event,
{
    match mdk.inner.process_message(event) {
        Ok(r) => (Ok(r), event),
        Err(e) => (Err(e.to_string()), event),
    }
}

/// What processing one incoming group event came to.
#[derive(Debug, Clone, Copy, PartialEq, Eq, Structural)]
pub enum EventOutcome {
    /// A decrypted application message was stored.
    Message,
    /// A commit was applied.
    Commit,
    /// Anything else the kit reports (proposals, unprocessable events).
    Other,
    /// The kit refused the event.
    Failed,
}

/// `MessageProcessingResult` told apart by variant.
#[verifier::external_body]
fn outcome_of(result: &mdk_core::messages::MessageProcessingResult) -> (o: EventOutcome)
    ensures
        o != EventOutcome::Failed,
{
    match result {
        mdk_core::messages::MessageProcessingResult::ApplicationMessage(_) => EventOutcome::Message,
        mdk_core::messages::MessageProcessingResult::Commit { .. } => EventOutcome::Commit,
        mdk_core::messages::MessageProcessingResult::Proposal(_) => EventOutcome::Other,
        mdk_core::messages::MessageProcessingResult::PendingProposal { .. } => EventOutcome::Other,
        mdk_core::messages::MessageProcessingResult::IgnoredProposal { .. } => EventOutcome::Other,
        mdk_core::messages::MessageProcessingResult::ExternalJoinProposal { .. } => EventOutcome::Other,
        mdk_core::messages::MessageProcessingResult::Unprocessable { .. } => EventOutcome::Other,
        mdk_core::messages::MessageProcessingResult::PreviouslyFailed => EventOutcome::Other,
    }
}

/// What one processed event came to: `Failed` exactly when processing it
/// failed, otherwise the kind of result the kit reported.
pub fn event_outcome(processed: &Result<mdk_core::messages::MessageProcessingResult, Error>) -> (o:
    EventOutcome)
    ensures
        processed is Err <==> o == EventOutcome::Failed,
{
    match processed {
        Ok(result) => outcome_of(result),
        Err(_) => EventOutcome::Failed,
    }
}

/// The event id that `nostr::EventId::parse` reads from a text (hex, or a
/// bech32 `note`/`nevent`), if it reads one.
pub uninterp spec fn event_id_of(text: Seq<char>) -> Option<Seq<u8>>;

/// `nostr::EventId::parse`, the id as bytes; on failure the parser's message.
#[verifier::external_body]
fn parse_event_id(text: &str) -> (r: Result<[u8; 32], String>)
    ensures
        r is Ok <==> event_id_of(text@) is Some,
        r matches Ok(id) ==> event_id_of(text@) == Some(id@),
{
    match nostr::EventId::parse(text) {
        Ok(id) => Ok(id.to_bytes()),
        Err(e) => Err(e.to_string()),
    }
}

/// `MDK::process_welcome`.
#[verifier::external_body]
fn mdk_process_welcome(
    mdk: &Mdk,
    wrapper_id: &nostr::EventId,
    rumor: &nostr::UnsignedEvent,
) -> Result<mdk_storage_traits::welcomes::types::Welcome, String> {
    match mdk.inner.process_welcome(wrapper_id, rumor) {
        Ok(w) => Ok(w),
        Err(e) => Err(e.to_string()),
    }
}

/// The most messages a page holds: its limit, or the kit's default of 1000.
pub open spec fn page_limit(limit: Option<usize>) -> int {
    match limit {
        Some(n) => n as int,
        None => 1000,
    }
}

/// Messages newest first: no message is older than one after it.
pub open spec fn newest_first(msgs: Seq<MessageInfo>) -> bool {
    forall|i: int, j: int| 0 <= i < j < msgs.len() ==> (#[trigger] msgs[i]).created_at >= (#[trigger] msgs[j]).created_at
}

/// `MDK::get_messages` with `Pagination::new(limit, offset)` for `page`, each
/// message read as plain values. The SQLite storage refuses a limit outside
/// `1..=10000` before reading anything, holds at most the limit (1000 when
/// none is given), and orders by `created_at` descending (its default sort).
/// Which messages come back depends on the database.
#[verifier::external_body]
fn mdk_get_messages(
    mdk: &Mdk,
    id: &[u8],
    page: (Option<usize>, Option<usize>),
) -> (r: Result<Vec<MessageInfo>, String>)
    ensures
        !(1 <= page_limit(page.0) <= 10000) ==> r is Err,
        r matches Ok(v) ==> v@.len() <= page_limit(page.0) && newest_first(v@),
{
    let page = mdk_storage_traits::groups::Pagination::new(page.0, page.1);
    match mdk.inner.get_messages(&mdk_storage_traits::GroupId::from_slice(id), Some(page)) {
        Ok(msgs) => Ok(msgs.iter().map(|m| MessageInfo { id: m.id.to_bytes(), pubkey: m.pubkey.to_bytes(), kind: m.kind.as_u16(), created_at: m.created_at.as_secs(), content: m.content.clone() }).collect()),
        Err(e) => Err(e.to_string()),
    }
}

/// `MDK::get_relays`, each relay URL as text.
#[verifier::external_body]
fn mdk_get_relays(mdk: &Mdk, id: &[u8]) -> Result<Vec<String>, String> {
    match mdk.inner.get_relays(&mdk_storage_traits::GroupId::from_slice(id)) {
        Ok(set) => Ok(set.into_iter().map(|url| url.to_string()).collect()),
        Err(e) => Err(e.to_string()),
    }
}

/// `MDK::create_key_package_for_event`.
#[verifier::external_body]
fn mdk_create_key_package(
    mdk: &Mdk,
    public_key: &[u8; 32],
    relays: Vec<nostr::RelayUrl>,
) -> Result<mdk_core::key_packages::KeyPackageEventData, String> {
    match mdk.inner.create_key_package_for_event(&nostr::PublicKey::from_byte_array(*public_key), relays) {
        Ok(d) => Ok(d),
        Err(e) => Err(e.to_string()),
    }
}

/// `EventBuilder::new(Kind::Custom(kind), content).tags(tags_30443).sign_with_keys(keys)`:
/// the KeyPackage as an addressable event (its tags carry the `d` tag).
#[verifier::external_body]
fn sign_key_package(
    data: &mdk_core::key_packages::KeyPackageEventData,
    keys: &nostr::Keys,
    kind: u16,
) -> Result<nostr::Event, String> {
    let builder = nostr::EventBuilder::new(nostr::Kind::Custom(kind), data.content.clone());
    match builder.tags(data.tags_30443.clone()).sign_with_keys(keys) {
        Ok(ev) => Ok(ev),
        Err(e) => Err(e.to_string()),
    }
}

// ---------------------------------------------------------------------
// Decisions of the agent, on plain values.
// ---------------------------------------------------------------------

/// A group error whose message is `prefix` followed by `detail`.
pub fn group_error(prefix: &str, detail: &str) -> (e: Error)
    ensures
        e matches Error::Group(m) && m@ == prefix@ + detail@,
        group_error_with_prefix(e, prefix@),
{
    let mut m = String::from_str(prefix);
    m.append(detail);
    proof {
        lemma_starts_with_concat(prefix@, detail@);
    }
    Error::Group(m)
}

/// An identity error whose message is `prefix` followed by `detail`.
pub fn identity_error(prefix: &str, detail: &str) -> (e: Error)
    ensures
        e matches Error::Identity(m) && m@ == prefix@ + detail@,
        identity_error_with_prefix(e, prefix@),
{
    let mut m = String::from_str(prefix);
    m.append(detail);
    proof {
        lemma_starts_with_concat(prefix@, detail@);
    }
    Error::Identity(m)
}

/// Whether a group error's message starts with `prefix`.
pub open spec fn group_error_with_prefix(e: Error, prefix: Seq<char>) -> bool {
    e matches Error::Group(m) && starts_with(m@, prefix)
}

/// Whether an identity error's message starts with `prefix`.
pub open spec fn identity_error_with_prefix(e: Error, prefix: Seq<char>) -> bool {
    e matches Error::Identity(m) && starts_with(m@, prefix)
}


/// Whether two keys are the same.
pub fn same_key(a: &[u8; 32], b: &[u8; 32]) -> (r: bool)
    ensures
        r == (a@ == b@),
{
    let mut i: usize = 0;
    while i < 32
        invariant
            0 <= i <= 32,
            forall|j: int| 0 <= j < i ==> a@[j] == b@[j],
        decreases 32 - i,
    {
        if a[i] != b[i] {
            return false;
        }
        i = i + 1;
    }
    assert(a@ =~= b@);
    true
}

/// Whether a list of keys holds `k`.
pub fn contains_key(keys: &Vec<[u8; 32]>, k: &[u8; 32]) -> (r: bool)
    ensures
        r == keys_view(keys@).contains(k@),
{
    let mut i: usize = 0;
    while i < keys.len()
        invariant
            i <= keys@.len(),
            forall|j: int| 0 <= j < i ==> keys@[j]@ != k@,
        decreases keys@.len() - i,
    {
        if same_key(&keys[i], k) {
            assert(keys_view(keys@)[i as int] == k@);
            return true;
        }
        i = i + 1;
    }
    proof {
        if keys_view(keys@).contains(k@) {
            let m = choose|m: int| 0 <= m < keys@.len() && keys_view(keys@)[m] == k@;
            assert(keys@[m]@ == k@);
        }
    }
    false
}

/// The admin list with `new_admin` appended unless it is already there.
pub fn admins_with(admins: Vec<[u8; 32]>, new_admin: [u8; 32]) -> (r: Vec<[u8; 32]>)
    ensures
        keys_view(admins@).contains(new_admin@) ==> r@ == admins@,
        !keys_view(admins@).contains(new_admin@) ==> r@ == admins@.push(new_admin),
{
    let mut r = admins;
    if !contains_key(&r, &new_admin) {
        r.push(new_admin);
    }
    r
}

/// Every key but `k`.
pub open spec fn other_than(k: Seq<u8>) -> spec_fn(Seq<u8>) -> bool {
    |x: Seq<u8>| x != k
}

/// The admin list without `admin`.
pub fn admins_without(admins: &Vec<[u8; 32]>, admin: &[u8; 32]) -> (r: Vec<[u8; 32]>)
    ensures
        keys_view(r@) == keys_view(admins@).filter(other_than(admin@)),
{
    let mut r: Vec<[u8; 32]> = Vec::new();
    let mut i: usize = 0;
    while i < admins.len()
        invariant
            i <= admins@.len(),
            keys_view(r@) == keys_view(admins@.take(i as int)).filter(other_than(admin@)),
        decreases admins@.len() - i,
    {
        let ghost s1 = keys_view(admins@.take(i + 1));
        proof {
            assert(s1.drop_last() =~= keys_view(admins@.take(i as int)));
            assert(s1.last() == admins@[i as int]@);
            reveal_with_fuel(Seq::<_>::filter, 1);
            assert(s1.filter(other_than(admin@)) == if other_than(admin@)(s1.last()) {
                s1.drop_last().filter(other_than(admin@)).push(s1.last())
            } else {
                s1.drop_last().filter(other_than(admin@))
            });
        }
        if !same_key(&admins[i], admin) {
            let ghost before = r@;
            r.push(admins[i]);
            assert(keys_view(r@) =~= keys_view(before).push(admins@[i as int]@));
        }
        i = i + 1;
    }
    assert(admins@.take(admins@.len() as int) =~= admins@);
    r
}

/// Read a group id given as hex: it must be hex and stand for 32 bytes.
pub fn parse_group_id_hex(text: &str) -> (r: Result<[u8; 32], Error>)
    ensures
        r is Ok <==> is_hex(text@) && text@.len() == 64,
        r matches Ok(id) ==> id@ == hex_decode_spec(text@),
        !is_hex(text@) ==> (r matches Err(e) && group_error_with_prefix(
            e,
            "invalid nostr group id hex: "@,
        )),
        is_hex(text@) && text@.len() != 64 ==> (r matches Err(e) && e matches Error::Group(m)
            && m@ == "nostr group id must be 32 bytes"@),
{
    match hex_decode(text) {
        Err(e) => Err(Error::Group(hex_error_message("invalid nostr group id hex: ", &e))),
        Ok(bytes) => {
            if bytes.len() != 32 {
                Err(Error::Group(String::from_str("nostr group id must be 32 bytes")))
            } else {
                let mut id = [0u8; 32];
                let mut i: usize = 0;
                while i < 32
                    invariant
                        bytes@.len() == 32,
                        0 <= i <= 32,
                        forall|j: int| 0 <= j < i ==> id@[j] == bytes@[j],
                    decreases 32 - i,
                {
                    id[i] = bytes[i];
                    i = i + 1;
                }
                assert(id@ =~= bytes@);
                Ok(id)
            }
        },
    }
}

/// The first group whose nostr group id is `target`.
pub fn position_of_group(groups: &Vec<GroupInfo>, target: &[u8; 32]) -> (r: Option<usize>)
    ensures
        match r {
            Some(i) => i < groups@.len() && groups@[i as int].nostr_group_id@ == target@ && forall|
                j: int,
            | 0 <= j < i ==> (#[trigger] groups@[j]).nostr_group_id@ != target@,
            None => forall|j: int|
                0 <= j < groups@.len() ==> (#[trigger] groups@[j]).nostr_group_id@ != target@,
        },
{
    let mut i: usize = 0;
    while i < groups.len()
        invariant
            i <= groups@.len(),
            forall|j: int| 0 <= j < i ==> (#[trigger] groups@[j]).nostr_group_id@ != target@,
        decreases groups@.len() - i,
    {
        if same_key(&groups[i].nostr_group_id, target) {
            return Some(i);
        }
        i = i + 1;
    }
    None
}

/// Whether `r` is the position of the first id whose hex form is `text`
/// (`None` when there is none).
pub open spec fn first_hex_position(ids: Seq<[u8; 32]>, text: Seq<char>, r: Option<usize>) -> bool {
    match r {
        Some(i) => i < ids.len() && hex_encode_spec(ids[i as int]@) == text && forall|j: int|
            0 <= j < i ==> hex_encode_spec((#[trigger] ids[j])@) != text,
        None => forall|j: int| 0 <= j < ids.len() ==> hex_encode_spec((#[trigger] ids[j])@) != text,
    }
}

/// The first id whose hex form is `text`.
pub fn position_of_hex_id(ids: &Vec<[u8; 32]>, text: &str) -> (r: Option<usize>)
    ensures
        first_hex_position(ids@, text@, r),
{
    let target = String::from_str(text);
    let mut i: usize = 0;
    while i < ids.len()
        invariant
            i <= ids@.len(),
            target@ == text@,
            forall|j: int| 0 <= j < i ==> hex_encode_spec((#[trigger] ids@[j])@) != text@,
        decreases ids@.len() - i,
    {
        let h = hex_encode(&ids[i]);
        if h == target {
            return Some(i);
        }
        i = i + 1;
    }
    None
}

/// The members of a direct-message group with `peer`: exactly the two of us
/// (just one key when the peer is ourselves).
pub open spec fn is_dm_members_spec(members: Seq<Seq<u8>>, ours: Seq<u8>, peer: Seq<u8>) -> bool {
    members.to_set() == set![ours, peer]
}

/// Whether a member list is exactly `{ours, peer}`.
pub fn is_dm_members(members: &Vec<[u8; 32]>, ours: &[u8; 32], peer: &[u8; 32]) -> (r: bool)
    ensures
        r == is_dm_members_spec(keys_view(members@), ours@, peer@),
{
    let mv = Ghost(keys_view(members@));
    let mut i: usize = 0;
    while i < members.len()
        invariant
            mv@ == keys_view(members@),
            i <= members@.len(),
            forall|j: int| 0 <= j < i ==> mv@[j] == ours@ || mv@[j] == peer@,
        decreases members@.len() - i,
    {
        if !same_key(&members[i], ours) && !same_key(&members[i], peer) {
            proof {
                assert(mv@.to_set().contains(mv@[i as int]));
                assert(!set![ours@, peer@].contains(mv@[i as int]));
            }
            return false;
        }
        i = i + 1;
    }
    let has_ours = contains_key(members, ours);
    let has_peer = contains_key(members, peer);
    proof {
        if has_ours && has_peer {
            assert(mv@.to_set() =~= set![ours@, peer@]) by {
                assert forall|k: Seq<u8>| mv@.to_set().contains(k) implies set![ours@, peer@].contains(
                    k,
                ) by {
                    let j = choose|j: int| 0 <= j < mv@.len() && mv@[j] == k;
                }
            }
        } else if !has_ours {
            assert(set![ours@, peer@].contains(ours@));
            assert(!mv@.to_set().contains(ours@));
        } else {
            assert(set![ours@, peer@].contains(peer@));
            assert(!mv@.to_set().contains(peer@));
        }
    }
    has_ours && has_peer
}

/// Whether group `g`, whose members were read as `members` (`None` where
/// they could not be read), is a direct-message group with `peer`: it has an
/// empty name and exactly the members `{ours, peer}`.
pub open spec fn is_dm_group(
    g: GroupInfo,
    members: Option<Vec<[u8; 32]>>,
    ours: Seq<u8>,
    peer: Seq<u8>,
) -> bool {
    &&& g.name@.len() == 0
    &&& members matches Some(m) && is_dm_members_spec(keys_view(m@), ours, peer)
}

/// The first direct-message group with `peer`; `members[i]` is what was read
/// of the members of `groups[i]`.
pub fn dm_group_position(
    groups: &Vec<GroupInfo>,
    members: &Vec<Option<Vec<[u8; 32]>>>,
    ours: &[u8; 32],
    peer: &[u8; 32],
) -> (r: Option<usize>)
    requires
        groups@.len() == members@.len(),
    ensures
        match r {
            Some(i) => i < groups@.len() && is_dm_group(groups@[i as int], members@[i as int], ours@, peer@)
                && forall|j: int|
                0 <= j < i ==> !is_dm_group(#[trigger] groups@[j], members@[j], ours@, peer@),
            None => forall|j: int|
                0 <= j < groups@.len() ==> !is_dm_group(#[trigger] groups@[j], members@[j], ours@, peer@),
        },
{
    let mut i: usize = 0;
    while i < groups.len()
        invariant
            i <= groups@.len(),
            groups@.len() == members@.len(),
            forall|j: int| 0 <= j < i ==> !is_dm_group(#[trigger] groups@[j], members@[j], ours@, peer@),
        decreases groups@.len() - i,
    {
        if groups[i].name.unicode_len() == 0 {
            match &members[i] {
                Some(m) => {
                    if is_dm_members(m, ours, peer) {
                        return Some(i);
                    }
                },
                None => {},
            }
        }
        i = i + 1;
    }
    None
}

/// The admin list after demoting `admin`: every other admin, in order.
/// Refused when no admin would be left.
pub fn demoted_admins(admins: &Vec<[u8; 32]>, admin: &[u8; 32]) -> (r: Result<Vec<[u8; 32]>, Error>)
    ensures
        r is Err <==> keys_view(admins@).filter(other_than(admin@)).len() == 0,
        r matches Ok(v) ==> keys_view(v@) == keys_view(admins@).filter(other_than(admin@)),
        r matches Err(e) ==> (e matches Error::Group(m) && m@ == "cannot remove the last admin"@),
{
    let remaining = admins_without(admins, admin);
    if remaining.len() == 0 {
        Err(Error::Group(String::from_str("cannot remove the last admin")))
    } else {
        Ok(remaining)
    }
}

/// Read an optional event id (a message to reply to), refusing text that is
/// no event id.
pub fn parse_optional_event_id(text: Option<&str>) -> (r: Result<Option<[u8; 32]>, Error>)
    ensures
        text is None ==> r matches Ok(None),
        text matches Some(t) ==> match r {
            Ok(Some(id)) => event_id_of(t@) == Some(id@),
            Ok(None) => false,
            Err(e) => event_id_of(t@) is None && (e matches Error::Any(m) && starts_with(
                m@,
                "Invalid event ID '"@ + t@ + "': "@,
            )),
        },
{
    match text {
        None => Ok(None),
        Some(t) => match parse_event_id(t) {
            Ok(id) => Ok(Some(id)),
            Err(detail) => {
                let mut m = String::from_str("Invalid event ID '");
                m.append(t);
                m.append("': ");
                let ghost head = m@;
                m.append(detail.as_str());
                proof {
                    lemma_starts_with_concat(head, detail@);
                }
                Err(Error::Any(m))
            },
        },
    }
}

/// How often `o` occurs in `s`.
pub open spec fn count_outcome(s: Seq<EventOutcome>, o: EventOutcome) -> nat
    decreases s.len(),
{
    if s.len() == 0 {
        0
    } else {
        count_outcome(s.drop_last(), o) + if s.last() == o {
            1nat
        } else {
            0nat
        }
    }
}

/// The counts of a receive run.
pub struct ReceiveSummary {
    pub new_messages: usize,
    pub commits: usize,
    /// Events already processed, unrecognised or refused.
    pub skipped: usize,
}

/// Count the outcomes of a receive run: messages, commits, and the rest as
/// skipped.
pub fn tally_outcomes(outcomes: &Vec<EventOutcome>) -> (r: ReceiveSummary)
    ensures
        r.new_messages == count_outcome(outcomes@, EventOutcome::Message),
        r.commits == count_outcome(outcomes@, EventOutcome::Commit),
        r.skipped == outcomes@.len() - r.new_messages - r.commits,
{
    let mut messages: usize = 0;
    let mut commits: usize = 0;
    let mut skipped: usize = 0;
    let mut i: usize = 0;
    while i < outcomes.len()
        invariant
            i <= outcomes@.len(),
            messages == count_outcome(outcomes@.take(i as int), EventOutcome::Message),
            commits == count_outcome(outcomes@.take(i as int), EventOutcome::Commit),
            messages + commits + skipped == i,
        decreases outcomes@.len() - i,
    {
        proof {
            assert(outcomes@.take(i + 1).drop_last() =~= outcomes@.take(i as int));
        }
        let o = outcomes[i];
        if o == EventOutcome::Message {
            messages = messages + 1;
        } else if o == EventOutcome::Commit {
            commits = commits + 1;
        } else {
            skipped = skipped + 1;
        }
        i = i + 1;
    }
    assert(outcomes@.take(outcomes@.len() as int) =~= outcomes@);
    ReceiveSummary { new_messages: messages, commits, skipped }
}

/// Whether a text contains `needle` somewhere.
pub open spec fn contains_text(hay: Seq<char>, needle: Seq<char>) -> bool {
    exists|i: int| 0 <= i <= hay.len() - needle.len() && #[trigger] hay.subrange(i, i + needle.len()) == needle
}

/// Whether a failure to leave a group calls for stepping down as admin
/// first: its message mentions `admin` or `demote`.
pub fn suggests_self_demote(error_text: &str) -> (r: bool)
    ensures
        r == (contains_text(error_text@, "admin"@) || contains_text(error_text@, "demote"@)),
{
    str_contains(error_text, "admin") || str_contains(error_text, "demote")
}

/// Whether `hay` contains `needle`.
pub fn str_contains(hay: &str, needle: &str) -> (r: bool)
    ensures
        r == contains_text(hay@, needle@),
{
    let n = hay.unicode_len();
    let m = needle.unicode_len();
    if m > n {
        return false;
    }
    if m == 0 {
        assert(hay@.subrange(0, 0 + needle@.len() as int) =~= needle@);
        return true;
    }
    let mut i: usize = 0;
    while i <= n - m
        invariant
            n == hay@.len(),
            m == needle@.len(),
            0 < m <= n,
            i <= n - m + 1,
            forall|k: int| 0 <= k < i ==> #[trigger] hay@.subrange(k, k + m) != needle@,
        decreases n - m + 1 - i,
    {
        let mut j: usize = 0;
        let mut same = true;
        while j < m
            invariant
                n == hay@.len(),
                m == needle@.len(),
                i + m <= n,
                j <= m,
                same ==> forall|t: int| 0 <= t < j ==> hay@[i + t] == needle@[t],
                !same ==> hay@.subrange(i as int, i + m) != needle@,
            decreases m - j,
        {
            if same && hay.get_char(i + j) != needle.get_char(j) {
                same = false;
                assert(hay@.subrange(i as int, i + m)[j as int] != needle@[j as int]);
            }
            j = j + 1;
        }
        if same {
            assert(hay@.subrange(i as int, i + m) =~= needle@);
            return true;
        }
        i = i + 1;
    }
    false
}

/// The message of the error for a group with no pending invitation.
pub open spec fn no_pending_message(nostr_group_id_hex: Seq<char>) -> Seq<char> {
    "no pending invitation for group "@ + nostr_group_id_hex
}

/// Whether `e` is what looking up a pending invitation reports: the kit
/// could not list the invitations, or none is for the group.
pub open spec fn pending_lookup_failure(e: Error, nostr_group_id_hex: Seq<char>) -> bool {
    group_error_with_prefix(e, "get_pending_welcomes failed: "@) || (e matches Error::Group(m) && m@
        == no_pending_message(nostr_group_id_hex))
}

/// The kind of a KeyPackage event (addressable, NIP-33).
pub const KEY_PACKAGE_KIND: u16 = 30443;

/// The kind of an MLS welcome rumor.
pub const WELCOME_KIND: u16 = 444;

/// What a new group is made with: its name and description, no image, and
/// its admins.
pub struct GroupSetup {
    pub name: String,
    pub description: String,
    pub image_hash: Option<[u8; 32]>,
    pub image_key: Option<[u8; 32]>,
    pub image_nonce: Option<[u8; 12]>,
    pub admins: Vec<[u8; 32]>,
}

/// A group just created: what the agent reads of it, the number of welcome
/// rumors made for its initial members, and the kit's result.
#[derive(Debug)]
pub struct CreatedGroup {
    pub group: GroupInfo,
    pub welcome_count: usize,
    pub result: mdk_core::groups::GroupResult,
}

/// A change to a group's members: the group it applies to, the number of
/// welcome rumors it carries, and the kit's result.
#[derive(Debug)]
pub struct GroupUpdate {
    pub mls_group_id: Vec<u8>,
    pub welcome_count: usize,
    pub result: mdk_core::groups::UpdateGroupResult,
}

/// A new direct-message group and the update that adds the invitee to it.
#[derive(Debug)]
pub struct NewDm {
    pub group: GroupInfo,
    pub update: GroupUpdate,
}

/// Whether `keys` is exactly the one key `key`.
pub open spec fn sole_key(keys: Seq<[u8; 32]>, key: Seq<u8>) -> bool {
    keys.len() == 1 && keys[0]@ == key
}

/// A key never sorts strictly before itself.
proof fn lemma_key_less_irreflexive(a: Seq<u8>)
    ensures
        !key_less(a, a),
{
}

/// A set of admins given as exactly `[creator]`, read back in ascending
/// order, is exactly `[creator]`.
proof fn lemma_sole_admin(admins: Seq<[u8; 32]>, creator: [u8; 32])
    requires
        forall|k: [u8; 32]| admins.contains(k) <==> seq![creator].contains(k),
        keys_ascending(admins),
    ensures
        sole_key(admins, creator@),
{
    assert(seq![creator][0] == creator);
    assert(admins.contains(creator));
    if admins.len() >= 2 {
        assert(admins.contains(admins[0]));
        assert(admins.contains(admins[1]));
        assert(seq![creator].contains(admins[0]));
        assert(seq![creator].contains(admins[1]));
        assert(admins[0] == creator && admins[1] == creator);
        assert(key_less(admins[0]@, admins[1]@));
        lemma_key_less_irreflexive(creator@);
    }
}

/// The setup of a group made by `creator`: the given name and description,
/// no image, and the creator as its only admin.
pub fn group_setup(name: &str, description: &str, creator: [u8; 32]) -> (s: GroupSetup)
    ensures
        s.name@ == name@,
        s.description@ == description@,
        s.image_hash is None,
        s.image_key is None,
        s.image_nonce is None,
        s.admins@ == seq![creator],
{
    let mut admins: Vec<[u8; 32]> = Vec::new();
    admins.push(creator);
    assert(admins@ =~= seq![creator]);
    GroupSetup {
        name: String::from_str(name),
        description: String::from_str(description),
        image_hash: None,
        image_key: None,
        image_nonce: None,
        admins,
    }
}

/// What a direct message does when adding the invitee fails: the group just
/// made is deleted again, and the failure is reported.
pub struct AddFailure {
    pub delete_new_group: bool,
    pub error: Error,
}

/// The follow-up of a failed add to a new direct-message group.
pub fn dm_add_failure(detail: &str) -> (r: AddFailure)
    ensures
        r.delete_new_group,
        r.error matches Error::Group(m) && m@ == "add member failed: "@ + detail@,
{
    AddFailure { delete_new_group: true, error: group_error("add member failed: ", detail) }
}

/// The members read of group `g`: only a group with an empty name is asked
/// for its members (`read` is `None` for the others), and a failed read
/// counts as none.
pub open spec fn member_list(g: GroupInfo, read: Option<Result<Vec<[u8; 32]>, String>>) -> Option<
    Vec<[u8; 32]>,
> {
    match read {
        Some(Ok(m)) => if g.name@.len() == 0 {
            Some(m)
        } else {
            None
        },
        _ => None,
    }
}

/// Whether `r` is the direct-message group with `peer` among `groups`,
/// given the member reads `reads` (`reads[i]` for `groups[i]`): the first
/// group with an empty name whose members are exactly `{ours, peer}`, or
/// `None` when there is none.
pub open spec fn dm_choice(
    groups: Seq<GroupInfo>,
    reads: Seq<Option<Result<Vec<[u8; 32]>, String>>>,
    ours: Seq<u8>,
    peer: Seq<u8>,
    r: Option<GroupInfo>,
) -> bool {
    match r {
        Some(g) => exists|i: int|
            0 <= i < groups.len() && g == groups[i] && is_dm_group(groups[i], member_list(groups[i], reads[i]), ours, peer)
                && forall|j: int|
                0 <= j < i ==> !is_dm_group(#[trigger] groups[j], member_list(groups[j], reads[j]), ours, peer),
        None => forall|j: int|
            0 <= j < groups.len() ==> !is_dm_group(#[trigger] groups[j], member_list(groups[j], reads[j]), ours, peer),
    }
}

/// A direct-message group with `peer` that is listed, and whose members
/// were read, is never missed: the choice is then a direct-message group
/// with `peer`, listed no later than it.
pub proof fn law_listed_dm_is_found(
    groups: Seq<GroupInfo>,
    reads: Seq<Option<Result<Vec<[u8; 32]>, String>>>,
    ours: Seq<u8>,
    peer: Seq<u8>,
    k: int,
    r: Option<GroupInfo>,
)
    requires
        0 <= k < groups.len(),
        is_dm_group(groups[k], member_list(groups[k], reads[k]), ours, peer),
        dm_choice(groups, reads, ours, peer, r),
    ensures
        r is Some,
        exists|i: int|
            0 <= i <= k && r == Some(groups[i]) && #[trigger] is_dm_group(
                groups[i],
                member_list(groups[i], reads[i]),
                ours,
                peer,
            ),
{
    match r {
        Some(g) => {
            let i = choose|i: int|
                0 <= i < groups.len() && g == groups[i] && is_dm_group(groups[i], member_list(groups[i], reads[i]), ours, peer)
                    && forall|j: int|
                    0 <= j < i ==> !is_dm_group(#[trigger] groups[j], member_list(groups[j], reads[j]), ours, peer);
            if i > k {
                assert(!is_dm_group(groups[k], member_list(groups[k], reads[k]), ours, peer));
            }
        },
        None => {
            assert(!is_dm_group(groups[k], member_list(groups[k], reads[k]), ours, peer));
        },
    }
}

/// Which groups are asked for their members when looking for a
/// direct-message group: those with an empty name (`Some` of the group's
/// MLS id), none of the others.
pub open spec fn asks_members(groups: Seq<GroupInfo>, queries: Seq<Option<Vec<u8>>>) -> bool {
    &&& queries.len() == groups.len()
    &&& forall|i: int|
        0 <= i < groups.len() ==> match #[trigger] queries[i] {
            Some(id) => groups[i].name@.len() == 0 && id@ == groups[i].mls_group_id@,
            None => groups[i].name@.len() != 0,
        }
}

/// Whether `reads` answers exactly the queries made: a read for each group
/// asked, none for the others.
pub open spec fn reads_answer(groups: Seq<GroupInfo>, reads: Seq<Option<Result<Vec<[u8; 32]>, String>>>) -> bool {
    &&& reads.len() == groups.len()
    &&& forall|i: int| 0 <= i < groups.len() ==> ((#[trigger] reads[i]) is Some <==> groups[i].name@.len() == 0)
}

/// The member queries to make when looking for a direct-message group: the
/// MLS id of each group with an empty name, `None` for the others.
pub fn dm_member_queries(groups: &Vec<GroupInfo>) -> (q: Vec<Option<Vec<u8>>>)
    ensures
        asks_members(groups@, q@),
{
    let mut q: Vec<Option<Vec<u8>>> = Vec::new();
    let mut i: usize = 0;
    while i < groups.len()
        invariant
            i <= groups@.len(),
            q@.len() == i,
            forall|j: int|
                0 <= j < i ==> match #[trigger] q@[j] {
                    Some(id) => groups@[j].name@.len() == 0 && id@ == groups@[j].mls_group_id@,
                    None => groups@[j].name@.len() != 0,
                },
        decreases groups@.len() - i,
    {
        if groups[i].name.unicode_len() == 0 {
            q.push(Some(groups[i].mls_group_id.clone()));
        } else {
            q.push(None);
        }
        i = i + 1;
    }
    q
}

/// The direct-message group with `peer` among `groups`, given what the kit
/// answered when asked for the members of each (`reads[i]` for
/// `groups[i]`): the first group with an empty name whose members are
/// exactly `{ours, peer}`.
pub fn choose_dm_group(
    groups: Vec<GroupInfo>,
    reads: Vec<Option<Result<Vec<[u8; 32]>, String>>>,
    ours: &[u8; 32],
    peer: &[u8; 32],
) -> (r: Option<GroupInfo>)
    requires
        reads@.len() == groups@.len(),
    ensures
        dm_choice(groups@, reads@, ours@, peer@, r),
{
    let ghost gs = groups@;
    let ghost rs = reads@;
    let mut groups = groups;
    let mut rest = reads;
    let mut members: Vec<Option<Vec<[u8; 32]>>> = Vec::new();
    let n = rest.len();
    let mut i: usize = 0;
    assert(rs.skip(0) =~= rs);
    while i < n
        invariant
            n == rs.len(),
            gs == groups@,
            rs.len() == gs.len(),
            i <= n,
            rest@ == rs.skip(i as int),
            members@.len() == i,
            forall|j: int| 0 <= j < i ==> #[trigger] members@[j] == member_list(gs[j], rs[j]),
        decreases n - i,
    {
        let read = rest.remove(0);
        proof {
            assert(read == rs[i as int]);
            assert(rest@ =~= rs.skip(i + 1));
        }
        let entry = if groups[i].name.unicode_len() == 0 {
            match read {
                Some(Ok(m)) => Some(m),
                _ => None,
            }
        } else {
            None
        };
        members.push(entry);
        i = i + 1;
    }
    match dm_group_position(&groups, &members, ours, peer) {
        Some(k) => {
            let g = groups.remove(k);
            proof {
                assert(members@[k as int] == member_list(gs[k as int], rs[k as int]));
                assert forall|j: int| 0 <= j < k implies !is_dm_group(
                    #[trigger] gs[j],
                    member_list(gs[j], rs[j]),
                    ours@,
                    peer@,
                ) by {
                    assert(members@[j] == member_list(gs[j], rs[j]));
                }
            }
            Some(g)
        },
        None => {
            proof {
                assert forall|j: int| 0 <= j < gs.len() implies !is_dm_group(
                    #[trigger] gs[j],
                    member_list(gs[j], rs[j]),
                    ours@,
                    peer@,
                ) by {
                    assert(members@[j] == member_list(gs[j], rs[j]));
                }
            }
            None
        },
    }
}

/// Whether `r` is the first of `groups` whose nostr group id is `target`
/// (`None` when no group has it).
pub open spec fn group_found(groups: Seq<GroupInfo>, target: Seq<u8>, r: Option<GroupInfo>) -> bool {
    match r {
        Some(g) => exists|i: int|
            0 <= i < groups.len() && g == groups[i] && groups[i].nostr_group_id@ == target && forall|j: int|
                0 <= j < i ==> (#[trigger] groups[j]).nostr_group_id@ != target,
        None => forall|j: int| 0 <= j < groups.len() ==> (#[trigger] groups[j]).nostr_group_id@ != target,
    }
}

/// The first group whose nostr group id is `target` (`None` when no group
/// has it).
pub fn group_with_id(groups: Vec<GroupInfo>, target: &[u8; 32]) -> (r: Option<GroupInfo>)
    ensures
        group_found(groups@, target@, r),
{
    let mut groups = groups;
    match position_of_group(&groups, target) {
        Some(i) => {
            let ghost gs = groups@;
            let g = groups.remove(i);
            assert(g == gs[i as int]);
            Some(g)
        },
        None => None,
    }
}

/// The admins of a group, given what the kit answered when asked for it: a
/// missing group is reported as `group not found`, a failed read with the
/// kit's message.
pub open spec fn admins_of_spec(found: Result<Option<GroupInfo>, String>) -> Result<Seq<[u8; 32]>, Seq<char>> {
    match found {
        Ok(Some(g)) => Ok(g.admin_pubkeys@),
        Ok(None) => Err("group not found"@),
        Err(m) => Err(m@),
    }
}

/// Whether `r` is `admins_of_spec(found)`, with errors as group errors.
pub open spec fn admins_read_as(r: Result<Vec<[u8; 32]>, Error>, found: Result<Option<GroupInfo>, String>) -> bool {
    match admins_of_spec(found) {
        Ok(a) => r matches Ok(v) && v@ == a,
        Err(m) => r matches Err(e) && e matches Error::Group(em) && em@ == m,
    }
}

/// The admins of a group, given what the kit answered when asked for it.
pub fn admins_of(found: Result<Option<GroupInfo>, String>) -> (r: Result<Vec<[u8; 32]>, Error>)
    ensures
        admins_read_as(r, found),
{
    match found {
        Ok(Some(g)) => Ok(g.admin_pubkeys),
        Ok(None) => Err(Error::Group(String::from_str("group not found"))),
        Err(m) => Err(Error::Group(m)),
    }
}

/// Whether `handed` is a promotion of `new_admin` among the admins
/// `stored`: `new_admin` is an admin, every admin stays one, and nobody
/// else becomes one.
pub open spec fn promotes(stored: Seq<[u8; 32]>, new_admin: Seq<u8>, handed: Seq<[u8; 32]>) -> bool {
    &&& keys_view(handed).contains(new_admin)
    &&& forall|k: Seq<u8>| keys_view(stored).contains(k) ==> #[trigger] keys_view(handed).contains(k)
    &&& forall|k: Seq<u8>| #[trigger] keys_view(handed).contains(k) ==> k == new_admin || keys_view(stored).contains(k)
}

/// Whether `handed` is a demotion of `admin` among the admins `stored`:
/// `admin` is no longer an admin, every other admin stays one, nobody else
/// becomes one, and some admin is left.
pub open spec fn demotes(stored: Seq<[u8; 32]>, admin: Seq<u8>, handed: Seq<[u8; 32]>) -> bool {
    &&& !keys_view(handed).contains(admin)
    &&& forall|k: Seq<u8>| k != admin && keys_view(stored).contains(k) ==> #[trigger] keys_view(handed).contains(k)
    &&& forall|k: Seq<u8>| #[trigger] keys_view(handed).contains(k) ==> keys_view(stored).contains(k)
    &&& handed.len() > 0
}

/// Adding a member to the admins unless already there promotes them.
pub proof fn law_promotion_promotes(stored: Seq<[u8; 32]>, new_admin: [u8; 32])
    ensures
        promotes(
            stored,
            new_admin@,
            if keys_view(stored).contains(new_admin@) {
                stored
            } else {
                stored.push(new_admin)
            },
        ),
{
    let p = stored.push(new_admin);
    assert(keys_view(p) =~= keys_view(stored).push(new_admin@));
    assert(keys_view(p)[stored.len() as int] == new_admin@);
    assert forall|k: Seq<u8>| keys_view(stored).contains(k) implies #[trigger] keys_view(p).contains(k) by {
        let t = choose|t: int| 0 <= t < keys_view(stored).len() && keys_view(stored)[t] == k;
        assert(keys_view(p)[t] == k);
    }
    assert forall|k: Seq<u8>| #[trigger] keys_view(p).contains(k) implies k == new_admin@ || keys_view(stored).contains(k) by {
        let t = choose|t: int| 0 <= t < keys_view(p).len() && keys_view(p)[t] == k;
        if t < stored.len() {
            assert(keys_view(stored)[t] == k);
        }
    }
}

/// Keeping every admin but `admin`, when some is left, demotes them.
pub proof fn law_demotion_demotes(stored: Seq<[u8; 32]>, admin: Seq<u8>, handed: Seq<[u8; 32]>)
    requires
        keys_view(handed) == keys_view(stored).filter(other_than(admin)),
        keys_view(stored).filter(other_than(admin)).len() > 0,
    ensures
        demotes(stored, admin, handed),
{
    broadcast use vstd::seq_lib::group_filter_ensures;
    let kept = keys_view(stored).filter(other_than(admin));
    assert(handed.len() == keys_view(handed).len());
    assert forall|k: Seq<u8>| #[trigger] kept.contains(k) implies k != admin && keys_view(stored).contains(k) by {
        keys_view(stored).lemma_filter_contains_rev(other_than(admin), k);
        let t = choose|t: int| 0 <= t < kept.len() && kept[t] == k;
        assert(other_than(admin)(kept[t]));
    }
    assert forall|k: Seq<u8>| k != admin && keys_view(stored).contains(k) implies #[trigger] kept.contains(k) by {
        let t = choose|t: int| 0 <= t < keys_view(stored).len() && keys_view(stored)[t] == k;
        assert(other_than(admin)(keys_view(stored)[t]));
    }
}

/// The admin list to set when promoting `new_admin`, given what the kit
/// answered when asked for the group: its admins with `new_admin` added
/// once.
pub fn promotion(found: Result<Option<GroupInfo>, String>, new_admin: [u8; 32]) -> (r: Result<
    Vec<[u8; 32]>,
    Error,
>)
    ensures
        match admins_of_spec(found) {
            Ok(a) => r matches Ok(v) && (if keys_view(a).contains(new_admin@) {
                v@ == a
            } else {
                v@ == a.push(new_admin)
            }),
            Err(m) => r matches Err(e) && e matches Error::Group(em) && em@ == m,
        },
        r matches Ok(v) ==> (admins_of_spec(found) matches Ok(a) && promotes(a, new_admin@, v@)),
{
    proof {
        match admins_of_spec(found) {
            Ok(a) => law_promotion_promotes(a, new_admin),
            Err(_) => {},
        }
    }
    match admins_of(found) {
        Ok(a) => Ok(admins_with(a, new_admin)),
        Err(e) => Err(e),
    }
}

/// The admin list to set when demoting `admin`, given what the kit answered
/// when asked for the group: its other admins, refused when none is left.
pub fn demotion(found: Result<Option<GroupInfo>, String>, admin: &[u8; 32]) -> (r: Result<
    Vec<[u8; 32]>,
    Error,
>)
    ensures
        match admins_of_spec(found) {
            Ok(a) => if keys_view(a).filter(other_than(admin@)).len() == 0 {
                r matches Err(e) && e matches Error::Group(m) && m@ == "cannot remove the last admin"@
            } else {
                r matches Ok(v) && keys_view(v@) == keys_view(a).filter(other_than(admin@))
            },
            Err(m) => r matches Err(e) && e matches Error::Group(em) && em@ == m,
        },
        r matches Ok(v) ==> (admins_of_spec(found) matches Ok(a) && demotes(a, admin@, v@)),
{
    let r = match admins_of(found) {
        Ok(a) => demoted_admins(&a, admin),
        Err(e) => Err(e),
    };
    proof {
        if r is Ok {
            let a = admins_of_spec(found)->Ok_0;
            law_demotion_demotes(a, admin@, r->Ok_0@);
        }
    }
    r
}

/// The group ids of pending welcomes listed with them.
pub open spec fn pending_ids(
    listed: Seq<(mdk_storage_traits::welcomes::types::Welcome, [u8; 32])>,
) -> Seq<[u8; 32]> {
    listed.map_values(|p: (mdk_storage_traits::welcomes::types::Welcome, [u8; 32])| p.1)
}

/// The pending welcome meant by a group id in hex, among welcomes listed
/// with their nostr group ids: the first whose id is written so, or
/// `no pending invitation for group ..` when none is.
pub fn welcome_at(
    listed: Vec<(mdk_storage_traits::welcomes::types::Welcome, [u8; 32])>,
    nostr_group_id_hex: &str,
) -> (r: Result<mdk_storage_traits::welcomes::types::Welcome, Error>)
    ensures
        r is Err <==> first_hex_position(pending_ids(listed@), nostr_group_id_hex@, None),
        r matches Err(e) ==> (e matches Error::Group(m) && m@ == no_pending_message(nostr_group_id_hex@)),
        r matches Ok(w) ==> exists|k: usize|
            first_hex_position(pending_ids(listed@), nostr_group_id_hex@, Some(k)) && w
                == (#[trigger] listed@[k as int]).0,
{
    let mut listed = listed;
    let mut ids: Vec<[u8; 32]> = Vec::new();
    let mut i: usize = 0;
    while i < listed.len()
        invariant
            i <= listed@.len(),
            ids@ == pending_ids(listed@).take(i as int),
        decreases listed@.len() - i,
    {
        ids.push(listed[i].1);
        proof {
            assert(pending_ids(listed@).take(i + 1) =~= pending_ids(listed@).take(i as int).push(listed@[i as int].1));
        }
        i = i + 1;
    }
    assert(ids@ =~= pending_ids(listed@));
    match pending_position(&ids, nostr_group_id_hex) {
        Ok(k) => {
            let ghost all = listed@;
            let (w, _) = listed.remove(k);
            assert(first_hex_position(pending_ids(all), nostr_group_id_hex@, Some(k)) && w == all[k as int].0);
            Ok(w)
        },
        Err(e) => Err(e),
    }
}

/// The welcomes of a list of welcomes with their group ids, in order.
fn welcomes_of(listed: Vec<(mdk_storage_traits::welcomes::types::Welcome, [u8; 32])>) -> (r: Vec<
    mdk_storage_traits::welcomes::types::Welcome,
>)
    ensures
        r@.len() == listed@.len(),
        forall|i: int| 0 <= i < r@.len() ==> r@[i] == (#[trigger] listed@[i]).0,
{
    let ghost all = listed@;
    let mut rest = listed;
    let mut r: Vec<mdk_storage_traits::welcomes::types::Welcome> = Vec::new();
    while rest.len() > 0
        invariant
            r@.len() + rest@.len() == all.len(),
            rest@ == all.skip(r@.len() as int),
            forall|i: int| 0 <= i < r@.len() ==> r@[i] == (#[trigger] all[i]).0,
        decreases rest@.len(),
    {
        let ghost before = rest@;
        let (w, _) = rest.remove(0);
        assert(before[0] == all[r@.len() as int]);
        r.push(w);
        proof {
            assert(rest@ =~= all.skip(r@.len() as int));
        }
    }
    r
}

/// What inviting `invited` members into group `id` came to: on success an
/// update for that group with one welcome per member invited, on failure a
/// group error after `prefix`.
pub open spec fn invite_outcome(r: Result<GroupUpdate, Error>, id: Seq<u8>, invited: nat, prefix: Seq<char>) -> bool {
    match r {
        Ok(u) => u.mls_group_id@ == id && u.welcome_count == invited,
        Err(e) => group_error_with_prefix(e, prefix),
    }
}

/// Inviting one member is inviting a list of that one member: where both
/// succeed, they give an update for the same group with one welcome; where
/// they fail, both report a group error, after `add member failed: ` and
/// `add members failed: ` respectively. (Whether the kit accepts depends on
/// its database.)
pub proof fn law_invite_one_as_list(
    id: Seq<u8>,
    kp: nostr::Event,
    one: Result<GroupUpdate, Error>,
    list: Result<GroupUpdate, Error>,
)
    requires
        invite_outcome(one, id, 1, "add member failed: "@),
        invite_outcome(list, id, seq![kp].len(), "add members failed: "@),
    ensures
        one matches Ok(u) ==> list matches Ok(v) ==> u.mls_group_id@ == v.mls_group_id@ && u.welcome_count
            == v.welcome_count && u.welcome_count == 1,
        one matches Err(e) ==> e is Group,
        list matches Err(e) ==> e is Group,
{
}

/// Which pending invitation is meant by a group id in hex: the first one
/// whose group id (`ids[k]`) is written so; `no pending invitation for
/// group ..` when none is.
pub fn pending_position(ids: &Vec<[u8; 32]>, nostr_group_id_hex: &str) -> (r: Result<usize, Error>)
    ensures
        r is Err <==> first_hex_position(ids@, nostr_group_id_hex@, None),
        r matches Ok(k) ==> first_hex_position(ids@, nostr_group_id_hex@, Some(k)),
        r matches Err(e) ==> (e matches Error::Group(m) && m@ == no_pending_message(
            nostr_group_id_hex@,
        )),
{
    match position_of_hex_id(ids, nostr_group_id_hex) {
        Some(k) => Ok(k),
        None => {
            let mut m = String::from_str("no pending invitation for group ");
            m.append(nostr_group_id_hex);
            Err(Error::Group(m))
        },
    }
}

/// The moment a gift-wrapped welcome expires: thirty days after `now`
/// (NIP-40, as White Noise does).
pub fn welcome_expiration(now_secs: u64) -> (t: u64)
    requires
        now_secs + 30 * 24 * 3600 <= u64::MAX,
    ensures
        t == now_secs + 2592000,
{
    now_secs + 30 * 24 * 3600
}

/// The nostr group id a group is shown with (`nostr_group_id_hex`) is read
/// back by `parse_group_id_hex` as that same id: the `--group` value a user
/// copies from a listing names the group it was copied from.
pub proof fn law_group_id_hex_roundtrip(id: Seq<u8>)
    requires
        id.len() == 32,
    ensures
        is_hex(hex_encode_spec(id)),
        hex_encode_spec(id).len() == 64,
        hex_decode_spec(hex_encode_spec(id)) == id,
{
    lemma_hex_roundtrip(id);
}

/// A group is found by the id it is shown with (`nostr_group_id_hex`), also
/// when that id is written in upper case: the text is a valid 32-byte group
/// id, and among groups where no other has the same id, looking it up gives
/// that group.
pub proof fn law_displayed_id_finds_group(groups: Seq<GroupInfo>, i: int, upper: bool)
    requires
        0 <= i < groups.len(),
        forall|j: int| 0 <= j < groups.len() && j != i ==> (#[trigger] groups[j]).nostr_group_id@
            != groups[i].nostr_group_id@,
    ensures
        ({
            let shown = hex_encode_spec(groups[i].nostr_group_id@);
            let text = if upper { ascii_upper_spec(shown) } else { shown };
            &&& is_hex(text) && text.len() == 64
            &&& hex_decode_spec(text) == groups[i].nostr_group_id@
            &&& forall|r: Option<GroupInfo>| group_found(groups, hex_decode_spec(text), r) ==> r == Some(groups[i])
        }),
{
    let id = groups[i].nostr_group_id@;
    let shown = hex_encode_spec(id);
    lemma_hex_roundtrip(id);
    law_hex_case_insensitive(shown);
    let text = if upper { ascii_upper_spec(shown) } else { shown };
    assert(hex_decode_spec(text) == id);
    assert forall|r: Option<GroupInfo>| group_found(groups, id, r) implies r == Some(groups[i]) by {
        match r {
            Some(g) => {
                let m = choose|m: int|
                    0 <= m < groups.len() && g == groups[m] && groups[m].nostr_group_id@ == id && forall|j: int|
                        0 <= j < m ==> (#[trigger] groups[j]).nostr_group_id@ != id;
                assert(m == i);
            },
            None => {
                assert(groups[i].nostr_group_id@ != id);
            },
        }
    }
}

/// A pending invitation is always found by the hex id it is shown with: the
/// lookup stops at it or at an earlier invitation for the same group.
pub proof fn law_pending_welcome_found(ids: Seq<[u8; 32]>, k: int, found: Option<usize>)
    requires
        0 <= k < ids.len(),
        first_hex_position(ids, hex_encode_spec(ids[k]@), found),
    ensures
        found matches Some(i) && ids[i as int]@ == ids[k]@,
{
    match found {
        Some(i) => {
            lemma_hex_roundtrip(ids[i as int]@);
            lemma_hex_roundtrip(ids[k]@);
        },
        None => {
            let shown = ids[k];
            assert(hex_encode_spec(shown@) == hex_encode_spec(ids[k]@));
        },
    }
}

/// Whether two people share a direct-message group does not depend on whose
/// side it is seen from.
pub proof fn law_dm_members_symmetric(members: Seq<Seq<u8>>, a: Seq<u8>, b: Seq<u8>)
    ensures
        is_dm_members_spec(members, a, b) == is_dm_members_spec(members, b, a),
{
    assert(set![a, b] =~= set![b, a]);
}

/// Demoting an admin leaves them off the admin list and keeps every other
/// admin on it.
pub proof fn law_demote_removes_only_that_admin(admins: Seq<Seq<u8>>, admin: Seq<u8>)
    ensures
        !admins.filter(other_than(admin)).contains(admin),
        forall|other: Seq<u8>|
            other != admin && admins.contains(other) ==> #[trigger] admins.filter(
                other_than(admin),
            ).contains(other),
{
    broadcast use vstd::seq_lib::group_filter_ensures;
}

/// Promoting a member puts them on the admin list and keeps every admin.
pub proof fn law_promote_adds_admin(admins: Seq<Seq<u8>>, new_admin: Seq<u8>)
    ensures
        admins.push(new_admin).contains(new_admin),
        forall|other: Seq<u8>| admins.contains(other) ==> #[trigger] admins.push(new_admin).contains(other),
{
    assert(admins.push(new_admin)[admins.len() as int] == new_admin);
    assert forall|other: Seq<u8>| admins.contains(other) implies #[trigger] admins.push(
        new_admin,
    ).contains(other) by {
        let t = choose|t: int| 0 <= t < admins.len() && admins[t] == other;
        assert(admins.push(new_admin)[t] == other);
    }
}

/// Agent context wraps MDK + storage + the identity in use.
pub struct AgentContext {
    pub mdk: Mdk,
    pub storage: AgentStorage,
    pub identity: Identity,
}

impl AgentContext {
    /// A context for `identity`: opens the encrypted database of the storage
    /// with its key (what `AgentStorage::db_encryption_key` gives).
    pub fn with_identity(storage: AgentStorage, identity: Identity, db_key: &[u8; 32]) -> (r: Result<
        AgentContext,
        Error,
    >)
        ensures
            r matches Ok(c) ==> c.storage == storage && c.identity@ == identity@,
            r matches Err(e) ==> (e matches Error::Storage(m) && starts_with(
                m@,
                "sqlite init failed: "@,
            )),
    {
        let db_path = storage.dirs.database_path();
        match open_mdk(db_path.as_str(), db_key) {
            Ok(mdk) => Ok(AgentContext { mdk, storage, identity }),
            Err(msg) => {
                let mut m = String::from_str("sqlite init failed: ");
                m.append(msg.as_str());
                proof {
                    lemma_starts_with_concat("sqlite init failed: "@, msg@);
                }
                Err(Error::Storage(m))
            },
        }
    }

    /// A context for the default identity, if the storage has one (what
    /// `AgentStorage::default_identity` gives), with the database key read
    /// or made for it; `None` without one, in which case no key is needed.
    pub fn with_default(storage: AgentStorage, default: Option<(Identity, [u8; 32])>) -> (r: Result<
        Option<AgentContext>,
        Error,
    >)
        ensures
            default is None ==> r matches Ok(None),
            default matches Some((id, _)) ==> match r {
                Ok(Some(c)) => c.storage == storage && c.identity@ == id@,
                Ok(None) => false,
                Err(e) => e matches Error::Storage(m) && starts_with(m@, "sqlite init failed: "@),
            },
    {
        match default {
            None => Ok(None),
            Some((id, db_key)) => match AgentContext::with_identity(storage, id, &db_key) {
                Ok(c) => Ok(Some(c)),
                Err(e) => Err(e),
            },
        }
    }

    /// Create a KeyPackage event (kind 30443) ready for relay publishing.
    pub fn create_keypackage(&self, relays: Vec<nostr::RelayUrl>) -> (r: Result<
        mdk_core::key_packages::KeyPackageEventData,
        Error,
    >)
        ensures
            r matches Err(e) ==> identity_error_with_prefix(e, "KeyPackage creation failed: "@),
    {
        let pk = self.identity.public_key();
        match mdk_create_key_package(&self.mdk, &pk, relays) {
            Ok(d) => Ok(d),
            Err(msg) => Err(identity_error("KeyPackage creation failed: ", msg.as_str())),
        }
    }

    /// Sign a KeyPackage event for publishing.
    pub fn sign_keypackage_event(&self, data: &mdk_core::key_packages::KeyPackageEventData) -> (r:
        Result<nostr::Event, Error>)
        ensures
            r matches Err(e) ==> identity_error_with_prefix(e, "event signing failed: "@),
    {
        let keys = self.identity.keys();
        match sign_key_package(data, &keys, KEY_PACKAGE_KIND) {
            Ok(ev) => Ok(ev),
            Err(msg) => Err(identity_error("event signing failed: ", msg.as_str())),
        }
    }

    /// Get npub of the current identity.
    pub fn npub(&self) -> (s: String)
        ensures
            s@ == npub_encode(public_key_of(self.identity@.secret)),
    {
        self.identity.npub()
    }

    /// Get public key hex of the current identity.
    pub fn public_key_hex(&self) -> (s: String)
        ensures
            s@ == hex_encode_spec(public_key_of(self.identity@.secret)),
    {
        self.identity.public_key_hex()
    }

    /// Create a new MLS group with no initial members, administered by us:
    /// the kit is handed `group_setup(name, description, our key)` and the
    /// relays. The group made has that name and description, we are its
    /// only admin, and no welcome is made (nobody else is in it).
    pub fn create_group(&self, name: &str, description: &str, relays: Vec<nostr::RelayUrl>) -> (r:
        Result<CreatedGroup, Error>)
        ensures
            r matches Ok(c) ==> c.group.name@ == name@ && c.group.description@ == description@
                && sole_key(c.group.admin_pubkeys@, public_key_of(self.identity@.secret))
                && c.welcome_count == 0,
            r matches Err(e) ==> group_error_with_prefix(e, "group creation failed: "@),
    {
        let pk = self.identity.public_key();
        let setup = group_setup(name, description, pk);
        let no_members: Vec<nostr::Event> = Vec::new();
        match mdk_create_group(&self.mdk, &pk, setup, relays, no_members) {
            Ok(c) => {
                proof {
                    lemma_sole_admin(c.group.admin_pubkeys@, pk);
                }
                Ok(c)
            },
            Err(msg) => Err(group_error("group creation failed: ", msg.as_str())),
        }
    }

    /// Load all groups from storage.
    pub fn list_groups(&self) -> (r: Result<Vec<GroupInfo>, Error>)
        ensures
            r matches Err(e) ==> group_error_with_prefix(e, "list groups failed: "@),
    {
        match mdk_get_groups(&self.mdk) {
            Ok(g) => Ok(g),
            Err(msg) => Err(group_error("list groups failed: ", msg.as_str())),
        }
    }

    /// Start a DM with someone by their KeyPackage event: create a group
    /// named `name` with an empty description, check their KeyPackage and add
    /// exactly that one event to the new group. When adding fails,
    /// `dm_add_failure` says what follows: the new group is deleted again and
    /// the failure reported.
    pub fn create_dm(
        &self,
        name: &str,
        relays: Vec<nostr::RelayUrl>,
        member_keypackage_event: &nostr::Event,
    ) -> (r: Result<NewDm, Error>)
        ensures
            r matches Ok(d) ==> d.group.name@ == name@ && d.group.description@.len() == 0
                && sole_key(d.group.admin_pubkeys@, public_key_of(self.identity@.secret))
                && d.update.mls_group_id@ == d.group.mls_group_id@ && d.update.welcome_count == 1,
            r matches Err(e) ==> group_error_with_prefix(e, "group creation failed: "@)
                || identity_error_with_prefix(e, "KeyPackage parse failed: "@)
                || group_error_with_prefix(e, "add member failed: "@),
    {
        let created = match self.create_group(name, "", relays) {
            Ok(c) => c,
            Err(e) => return Err(e),
        };
        proof {
            reveal_strlit("");
        }
        let group = created.group;
        let mls_group_id = group.mls_group_id.clone();
        match mdk_parse_key_package(&self.mdk, member_keypackage_event) {
            Ok(()) => {},
            Err(msg) => return Err(identity_error("KeyPackage parse failed: ", msg.as_str())),
        }
        let events = vec![member_keypackage_event.clone()];
        assert(events@ == seq![*member_keypackage_event]);
        match mdk_add_members(&self.mdk, mls_group_id.as_slice(), events.as_slice()) {
            Ok(update) => Ok(NewDm { group, update }),
            Err(msg) => {
                let failure = dm_add_failure(msg.as_str());
                if failure.delete_new_group {
                    let _ = mdk_delete_group(&self.mdk, mls_group_id.as_slice());
                }
                proof {
                    lemma_starts_with_concat("add member failed: "@, msg@);
                }
                Err(failure.error)
            },
        }
    }

    /// Find an existing DM group: one with an empty name whose members are
    /// exactly us and `peer`. The groups listed are asked for their members
    /// as `dm_member_queries` says (only those with an empty name), and
    /// `choose_dm_group` picks the first match from the answers.
    pub fn find_dm_with_peer(&self, peer: &[u8; 32]) -> (r: Result<Option<GroupInfo>, Error>)
        ensures
            r matches Ok(x) ==> exists|groups: Seq<GroupInfo>, reads: Seq<Option<Result<Vec<[u8; 32]>, String>>>|
                #![trigger dm_choice(groups, reads, public_key_of(self.identity@.secret), peer@, x)]
                reads_answer(groups, reads) && dm_choice(
                    groups,
                    reads,
                    public_key_of(self.identity@.secret),
                    peer@,
                    x,
                ),
            r matches Ok(Some(g)) ==> g.name@.len() == 0,
            r matches Err(e) ==> group_error_with_prefix(e, "list groups failed: "@),
    {
        let ours = self.identity.public_key();
        // The groups, and (as `listed`) exactly what the kit listed.
        let (groups, Ghost(listed)) = match self.list_groups() {
            Ok(g) => {
                let ghost l = g@;
                (g, Ghost(l))
            },
            Err(e) => return Err(e),
        };
        let queries = dm_member_queries(&groups);
        let mut reads: Vec<Option<Result<Vec<[u8; 32]>, String>>> = Vec::new();
        let mut i: usize = 0;
        while i < queries.len()
            invariant
                i <= queries@.len(),
                asks_members(groups@, queries@),
                reads@.len() == i,
                forall|j: int| 0 <= j < i ==> ((#[trigger] reads@[j]) is Some <==> groups@[j].name@.len() == 0),
            decreases queries@.len() - i,
        {
            let read = match &queries[i] {
                Some(id) => Some(mdk_get_members(&self.mdk, id.as_slice())),
                None => None,
            };
            assert(queries@[i as int] is Some <==> groups@[i as int].name@.len() == 0);
            reads.push(read);
            i = i + 1;
        }
        let ghost gs = groups@;
        let ghost rs = reads@;
        let found = choose_dm_group(groups, reads, &ours, peer);
        proof {
            assert(reads_answer(gs, rs));
            assert(dm_choice(gs, rs, public_key_of(self.identity@.secret), peer@, found));
            // Every listed group was considered: the choice is over the whole list.
            assert(reads_answer(listed, rs) && dm_choice(listed, rs, ours@, peer@, found));
            if found is Some {
                let g = found->0;
                let k = choose|k: int|
                    0 <= k < gs.len() && g == gs[k] && is_dm_group(gs[k], member_list(gs[k], rs[k]), ours@, peer@)
                        && forall|j: int|
                        0 <= j < k ==> !is_dm_group(#[trigger] gs[j], member_list(gs[j], rs[j]), ours@, peer@);
            }
        }
        Ok(found)
    }

    /// Find a group by its Nostr group ID (the 32-byte hex in the `h` tag).
    pub fn find_group_by_nostr_id(&self, nostr_group_id_hex: &str) -> (r: Result<
        Option<GroupInfo>,
        Error,
    >)
        ensures
            !is_hex(nostr_group_id_hex@) ==> (r matches Err(e) && group_error_with_prefix(
                e,
                "invalid nostr group id hex: "@,
            )),
            is_hex(nostr_group_id_hex@) && nostr_group_id_hex@.len() != 64 ==> (r matches Err(e)
                && e matches Error::Group(m) && m@ == "nostr group id must be 32 bytes"@),
            r matches Ok(Some(g)) ==> g.nostr_group_id@ == hex_decode_spec(nostr_group_id_hex@),
            r is Ok ==> is_hex(nostr_group_id_hex@) && nostr_group_id_hex@.len() == 64,
            r matches Ok(x) ==> exists|groups: Seq<GroupInfo>|
                #[trigger] group_found(groups, hex_decode_spec(nostr_group_id_hex@), x),
    {
        let target = match parse_group_id_hex(nostr_group_id_hex) {
            Ok(t) => t,
            Err(e) => return Err(e),
        };
        let groups = match self.list_groups() {
            Ok(g) => g,
            Err(e) => return Err(e),
        };
        let ghost gs = groups@;
        let found = group_with_id(groups, &target);
        assert(group_found(gs, hex_decode_spec(nostr_group_id_hex@), found));
        proof {
            if found is Some {
                let g = found->0;
                let i = choose|i: int|
                    0 <= i < groups@.len() && g == groups@[i] && groups@[i].nostr_group_id@ == target@
                        && forall|j: int| 0 <= j < i ==> (#[trigger] groups@[j]).nostr_group_id@ != target@;
            }
        }
        Ok(found)
    }

    /// Build an encrypted MLS application message (kind 445) around a chat
    /// message rumor (kind 9); `reply_to` adds an `e` tag for threading.
    pub fn create_message(&self, mls_group_id: &[u8], content: &str, reply_to: Option<[u8; 32]>) -> (r:
        Result<SentMessage, Error>)
        ensures
            r matches Ok(s) ==> s.rumor.kind == 9 && s.rumor.content@ == content@ && s.rumor.refers_to@
                == match reply_to {
                Some(id) => seq![id],
                None => Seq::<[u8; 32]>::empty(),
            } && s.rumor.author@ == public_key_of(self.identity@.secret),
            r matches Err(e) ==> group_error_with_prefix(e, "message creation failed: "@),
    {
        let rumor = chat_rumor(content, reply_to, self.identity.public_key());
        match mdk_create_message(&self.mdk, mls_group_id, rumor, None) {
            Ok(sent) => Ok(sent),
            Err(msg) => Err(group_error("message creation failed: ", msg.as_str())),
        }
    }

    /// Backward-compatible alias for `create_message` with no reply threading.
    pub fn create_dm_message(&self, mls_group_id: &[u8], content: &str) -> (r: Result<
        SentMessage,
        Error,
    >)
        ensures
            r matches Ok(s) ==> s.rumor.kind == 9 && s.rumor.content@ == content@ && s.rumor.refers_to@.len()
                == 0 && s.rumor.author@ == public_key_of(self.identity@.secret),
            r matches Err(e) ==> group_error_with_prefix(e, "message creation failed: "@),
    {
        self.create_message(mls_group_id, content, None)
    }

    /// Create a kind 7 emoji reaction to a message inside an MLS group.
    pub fn create_reaction(&self, mls_group_id: &[u8], target_event_id: [u8; 32], emoji: &str) -> (r:
        Result<SentMessage, Error>)
        ensures
            r matches Ok(s) ==> s.rumor.kind == 7 && s.rumor.content@ == emoji@ && s.rumor.refers_to@
                == seq![target_event_id] && s.rumor.author@ == public_key_of(self.identity@.secret),
            r matches Err(e) ==> group_error_with_prefix(e, "reaction creation failed: "@),
    {
        let rumor = reaction_rumor(emoji, target_event_id, self.identity.public_key());
        match mdk_create_message(&self.mdk, mls_group_id, rumor, None) {
            Ok(sent) => Ok(sent),
            Err(msg) => Err(group_error("reaction creation failed: ", msg.as_str())),
        }
    }

    /// Create a kind 5 deletion request for a message inside an MLS group.
    pub fn create_deletion(&self, mls_group_id: &[u8], target_event_id: [u8; 32]) -> (r: Result<
        SentMessage,
        Error,
    >)
        ensures
            r matches Ok(s) ==> s.rumor.kind == 5 && s.rumor.content@.len() == 0 && s.rumor.refers_to@
                == seq![target_event_id] && s.rumor.author@ == public_key_of(self.identity@.secret),
            r matches Err(e) ==> group_error_with_prefix(e, "deletion creation failed: "@),
    {
        let rumor = deletion_rumor(target_event_id, self.identity.public_key());
        match mdk_create_message(&self.mdk, mls_group_id, rumor, None) {
            Ok(sent) => Ok(sent),
            Err(msg) => Err(group_error("deletion creation failed: ", msg.as_str())),
        }
    }

    /// Remove members from a group (admin only).
    pub fn remove_group_members(&self, mls_group_id: &[u8], pubkeys: &[[u8; 32]]) -> (r: Result<
        mdk_core::groups::UpdateGroupResult,
        Error,
    >)
        ensures
            r matches Err(e) ==> group_error_with_prefix(e, "remove members failed: "@),
    {
        match mdk_remove_members(&self.mdk, mls_group_id, pubkeys) {
            Ok(u) => Ok(u),
            Err(msg) => Err(group_error("remove members failed: ", msg.as_str())),
        }
    }

    /// Rename a group (admin only).
    pub fn rename_group(&self, mls_group_id: &[u8], name: &str) -> (r: Result<
        mdk_core::groups::UpdateGroupResult,
        Error,
    >)
        ensures
            r matches Err(e) ==> group_error_with_prefix(e, "rename failed: "@),
    {
        match mdk_rename_group(&self.mdk, mls_group_id, name) {
            Ok(u) => Ok(u),
            Err(msg) => Err(group_error("rename failed: ", msg.as_str())),
        }
    }

    /// Promote a member to admin (admin only): the kit is handed the admin
    /// list that `promotion` makes of the stored group (`group not found`
    /// when there is none).
    pub fn promote_member(&self, mls_group_id: &[u8], new_admin: [u8; 32]) -> (r: Result<
        mdk_core::groups::UpdateGroupResult,
        Error,
    >)
        ensures
            r matches Err(e) ==> e is Group,
    {
        let found = mdk_get_group(&self.mdk, mls_group_id);
        let ghost stored = admins_of_spec(found);
        let admins = match promotion(found, new_admin) {
            Ok(a) => a,
            Err(e) => return Err(e),
        };
        let ghost handed = admins@;
        let (answer, asked) = mdk_set_admins(&self.mdk, mls_group_id, admins);
        // The kit was asked to set this group's admins to a promotion of the stored ones.
        assert(sets_admins(asked, mls_group_id@, handed) && (stored matches Ok(s) && promotes(
            s,
            new_admin@,
            handed,
        )));
        match answer {
            Ok(u) => Ok(u),
            Err(msg) => Err(group_error("promote failed: ", msg.as_str())),
        }
    }

    /// Demote an admin to member (admin only): the kit is handed the admin
    /// list that `demotion` makes of the stored group, which refuses to
    /// remove the last admin.
    pub fn demote_member(&self, mls_group_id: &[u8], admin: &[u8; 32]) -> (r: Result<
        mdk_core::groups::UpdateGroupResult,
        Error,
    >)
        ensures
            r matches Err(e) ==> e is Group,
    {
        let found = mdk_get_group(&self.mdk, mls_group_id);
        let ghost stored = admins_of_spec(found);
        let remaining = match demotion(found, admin) {
            Ok(v) => v,
            Err(e) => return Err(e),
        };
        let ghost handed = remaining@;
        let (answer, asked) = mdk_set_admins(&self.mdk, mls_group_id, remaining);
        // The kit was asked to set this group's admins to a demotion of the stored ones.
        assert(sets_admins(asked, mls_group_id@, handed) && (stored matches Ok(s) && demotes(
            s,
            admin@,
            handed,
        )));
        match answer {
            Ok(u) => Ok(u),
            Err(msg) => Err(group_error("demote failed: ", msg.as_str())),
        }
    }

    /// Remove self from the admin list.
    pub fn self_demote(&self, mls_group_id: &[u8]) -> (r: Result<
        mdk_core::groups::UpdateGroupResult,
        Error,
    >)
        ensures
            r matches Err(e) ==> group_error_with_prefix(e, "self-demote failed: "@),
    {
        let (answer, asked) = mdk_self_demote(&self.mdk, mls_group_id);
        // The kit was asked for our stepping down in this group.
        assert(steps_down(asked, mls_group_id@));
        match answer {
            Ok(u) => Ok(u),
            Err(msg) => Err(group_error("self-demote failed: ", msg.as_str())),
        }
    }

    /// Publish a leave proposal for this group.
    pub fn leave_group(&self, mls_group_id: &[u8]) -> (r: Result<
        mdk_core::groups::UpdateGroupResult,
        Error,
    >)
        ensures
            r matches Err(e) ==> group_error_with_prefix(e, "leave group failed: "@),
    {
        let (answer, asked) = mdk_leave_group(&self.mdk, mls_group_id);
        // The kit was asked for our leaving this group.
        assert(leaves(asked, mls_group_id@));
        match answer {
            Ok(u) => Ok(u),
            Err(msg) => Err(group_error("leave group failed: ", msg.as_str())),
        }
    }

    /// The pending welcome whose group's hex id is `nostr_group_id_hex`:
    /// `welcome_at` of the pending welcomes listed with their group ids.
    fn pending_welcome_by_hex(&self, nostr_group_id_hex: &str) -> (r: Result<
        mdk_storage_traits::welcomes::types::Welcome,
        Error,
    >)
        ensures
            r matches Err(e) ==> pending_lookup_failure(e, nostr_group_id_hex@),
            r matches Ok(w) ==> exists|
                listed: Seq<(mdk_storage_traits::welcomes::types::Welcome, [u8; 32])>,
                k: usize,
            |
                #![trigger first_hex_position(pending_ids(listed), nostr_group_id_hex@, Some(k)), listed[k as int]]
                first_hex_position(pending_ids(listed), nostr_group_id_hex@, Some(k)) && w == listed[k as int].0,
    {
        match mdk_pending_welcomes(&self.mdk, None) {
            Ok(listed) => {
                let ghost all = listed@;
                let r = welcome_at(listed, nostr_group_id_hex);
                proof {
                    if r is Ok {
                        let k = choose|k: usize|
                            first_hex_position(pending_ids(all), nostr_group_id_hex@, Some(k)) && r->Ok_0
                                == (#[trigger] all[k as int]).0;
                        assert(first_hex_position(pending_ids(all), nostr_group_id_hex@, Some(k)));
                    }
                }
                r
            },
            Err(msg) => Err(group_error("get_pending_welcomes failed: ", msg.as_str())),
        }
    }

    /// Decline a specific pending welcome invitation by its nostr group id hex.
    pub fn decline_welcome_by_nostr_id(&self, nostr_group_id_hex: &str) -> (r: Result<(), Error>)
        ensures
            r matches Err(e) ==> pending_lookup_failure(e, nostr_group_id_hex@)
                || group_error_with_prefix(e, "decline failed: "@),
    {
        let welcome = match self.pending_welcome_by_hex(nostr_group_id_hex) {
            Ok(w) => w,
            Err(e) => return Err(e),
        };
        let (answer, asked, handled) = mdk_decline_welcome(&self.mdk, &welcome);
        // The kit was asked to decline the welcome that was found, not to accept it.
        assert(asked matches KitChange::WelcomeDeclined && *handled == welcome);
        match answer {
            Ok(()) => Ok(()),
            Err(msg) => Err(group_error("decline failed: ", msg.as_str())),
        }
    }

    /// Accept a single specific pending welcome invitation by its nostr
    /// group id hex.
    pub fn accept_welcome_by_nostr_id(&self, nostr_group_id_hex: &str) -> (r: Result<(), Error>)
        ensures
            r matches Err(e) ==> pending_lookup_failure(e, nostr_group_id_hex@)
                || group_error_with_prefix(e, "accept_welcome failed: "@),
    {
        let welcome = match self.pending_welcome_by_hex(nostr_group_id_hex) {
            Ok(w) => w,
            Err(e) => return Err(e),
        };
        self.accept_welcome(&welcome)
    }

    /// Process an incoming encrypted Nostr event (kind 445 / commit / proposal).
    pub fn process_incoming_event(&self, event: &nostr::Event) -> (r: Result<
        mdk_core::messages::MessageProcessingResult,
        Error,
    >)
        ensures
            r matches Err(e) ==> group_error_with_prefix(e, "failed to process event: "@),
    {
        self.process_event_seen(event).0
    }

    /// Process one incoming event, beside the event the kit processed.
    fn process_event_seen<'a>(&self, event: &'a nostr::Event) -> (r: (
        Result<mdk_core::messages::MessageProcessingResult, Error>,
        &'a nostr::Event,
    ))
        ensures
            *r.1 == *event,
            r.0 matches Err(e) ==> group_error_with_prefix(e, "failed to process event: "@),
    {
        let (processed, seen) = mdk_process_message(&self.mdk, event);
        match processed {
            Ok(p) => (Ok(p), seen),
            Err(msg) => (Err(group_error("failed to process event: ", msg.as_str())), seen),
        }
    }

    /// Process fetched group events in order; what each came to, one per
    /// event (`event_outcome` of what processing it gave).
    pub fn process_events(&self, events: &[nostr::Event]) -> (r: Vec<EventOutcome>)
        ensures
            r@.len() == events@.len(),
    {
        let mut r: Vec<EventOutcome> = Vec::new();
        // The events the kit has processed so far, each with whether it failed.
        let ghost mut seen: Seq<(nostr::Event, bool)> = Seq::empty();
        let mut i: usize = 0;
        while i < events.len()
            invariant
                i <= events@.len(),
                r@.len() == i,
                seen.len() == i,
                forall|j: int| 0 <= j < i ==> (#[trigger] seen[j]).0 == events@[j],
                forall|j: int| 0 <= j < i ==> (r@[j] == EventOutcome::Failed <==> (#[trigger] seen[j]).1),
            decreases events@.len() - i,
        {
            let (processed, handled) = self.process_event_seen(&events[i]);
            let outcome = event_outcome(&processed);
            proof {
                seen = seen.push((*handled, processed is Err));
            }
            r.push(outcome);
            i = i + 1;
        }
        proof {
            assert(seen.map_values(|p: (nostr::Event, bool)| p.0) =~= events@);
        }
        r
    }

    /// Retrieve stored decrypted messages for a group, newest first.
    pub fn get_messages_for_group(&self, mls_group_id: &[u8], limit: usize) -> (r: Result<
        Vec<MessageInfo>,
        Error,
    >)
        ensures
            !(1 <= limit <= 10000) ==> r is Err,
            r matches Ok(v) ==> v@.len() <= limit && newest_first(v@),
            r matches Err(e) ==> group_error_with_prefix(e, "failed to get messages: "@),
    {
        match mdk_get_messages(&self.mdk, mls_group_id, (Some(limit), Some(0))) {
            Ok(m) => Ok(m),
            Err(msg) => Err(group_error("failed to get messages: ", msg.as_str())),
        }
    }

    /// Return the member public keys of a group (ascending byte order).
    pub fn get_members_for_group(&self, mls_group_id: &[u8]) -> (r: Result<Vec<[u8; 32]>, Error>)
        ensures
            r matches Ok(v) ==> keys_ascending(v@),
            r matches Err(e) ==> group_error_with_prefix(e, "failed to get members: "@),
    {
        match mdk_get_members(&self.mdk, mls_group_id) {
            Ok(m) => Ok(m),
            Err(msg) => Err(group_error("failed to get members: ", msg.as_str())),
        }
    }

    /// Add several members to an existing group in one MLS commit.
    pub fn invite_members_to_group(
        &self,
        mls_group_id: &[u8],
        member_keypackage_events: &[nostr::Event],
    ) -> (r: Result<GroupUpdate, Error>)
        ensures
            invite_outcome(r, mls_group_id@, member_keypackage_events@.len(), "add members failed: "@),
    {
        match mdk_add_members(&self.mdk, mls_group_id, member_keypackage_events) {
            Ok(u) => Ok(u),
            Err(msg) => Err(group_error("add members failed: ", msg.as_str())),
        }
    }

    /// Add a member to an existing group (invite flow, admin side).
    pub fn invite_member_to_group(&self, mls_group_id: &[u8], member_keypackage_event: &nostr::Event) -> (r:
        Result<GroupUpdate, Error>)
        ensures
            invite_outcome(r, mls_group_id@, 1, "add member failed: "@),
    {
        let events = vec![member_keypackage_event.clone()];
        assert(events@ == seq![*member_keypackage_event]);
        match mdk_add_members(&self.mdk, mls_group_id, events.as_slice()) {
            Ok(u) => Ok(u),
            Err(msg) => Err(group_error("add member failed: ", msg.as_str())),
        }
    }

    /// Delete a group from local storage.
    pub fn delete_group(&self, mls_group_id: &[u8]) -> (r: Result<(), Error>)
        ensures
            r matches Err(e) ==> group_error_with_prefix(e, "failed to delete group: "@),
    {
        match mdk_delete_group(&self.mdk, mls_group_id) {
            Ok(()) => Ok(()),
            Err(msg) => Err(group_error("failed to delete group: ", msg.as_str())),
        }
    }

    /// The relay URLs configured for a group.
    pub fn get_group_relays(&self, mls_group_id: &[u8]) -> (r: Result<Vec<String>, Error>)
        ensures
            r matches Err(e) ==> group_error_with_prefix(e, "failed to get group relays: "@),
    {
        match mdk_get_relays(&self.mdk, mls_group_id) {
            Ok(v) => Ok(v),
            Err(msg) => Err(group_error("failed to get group relays: ", msg.as_str())),
        }
    }

    /// Return the nostr group id (h-tag hex) for display.
    pub fn nostr_group_id_hex(group: &GroupInfo) -> (s: String)
        ensures
            s@ == hex_encode_spec(group.nostr_group_id@),
    {
        hex_encode(&group.nostr_group_id)
    }

    /// Format a member public key as npub for display.
    pub fn member_npub(pk: &[u8; 32]) -> (s: String)
        ensures
            s@ == npub_encode(pk@),
    {
        encode_npub(pk)
    }

    /// Store an unwrapped gift-wrap's rumor, of kind `kind`, as a pending
    /// welcome when it is an MLS welcome (kind 444); any other rumor gives
    /// `None` and the kit is not asked.
    pub fn process_unwrapped_welcome(
        &self,
        wrapper_id: &nostr::EventId,
        rumor: &nostr::UnsignedEvent,
        kind: u16,
    ) -> (r: Result<Option<mdk_storage_traits::welcomes::types::Welcome>, Error>)
        ensures
            kind != WELCOME_KIND ==> r matches Ok(None),
            r matches Err(e) ==> group_error_with_prefix(e, "process_welcome failed: "@),
    {
        if kind != WELCOME_KIND {
            return Ok(None);
        }
        match mdk_process_welcome(&self.mdk, wrapper_id, rumor) {
            Ok(w) => Ok(Some(w)),
            Err(msg) => Err(group_error("process_welcome failed: ", msg.as_str())),
        }
    }

    /// List all pending welcomes stored locally.
    pub fn list_pending_welcomes(&self) -> (r: Result<
        Vec<mdk_storage_traits::welcomes::types::Welcome>,
        Error,
    >)
        ensures
            r matches Err(e) ==> group_error_with_prefix(e, "get_pending_welcomes failed: "@),
    {
        match mdk_pending_welcomes(&self.mdk, None) {
            Ok(listed) => Ok(welcomes_of(listed)),
            Err(msg) => Err(group_error("get_pending_welcomes failed: ", msg.as_str())),
        }
    }

    /// Accept a pending welcome, joining the associated MLS group.
    pub fn accept_welcome(&self, welcome: &mdk_storage_traits::welcomes::types::Welcome) -> (r: Result<
        (),
        Error,
    >)
        ensures
            r matches Err(e) ==> group_error_with_prefix(e, "accept_welcome failed: "@),
    {
        let (answer, asked, handled) = mdk_accept_welcome(&self.mdk, welcome);
        // The kit was asked to accept the given welcome.
        assert(asked matches KitChange::WelcomeAccepted && *handled == *welcome);
        match answer {
            Ok(()) => Ok(()),
            Err(msg) => Err(group_error("accept_welcome failed: ", msg.as_str())),
        }
    }

    /// The ids of groups that need a self-update commit (key rotation).
    pub fn groups_needing_self_update(&self, threshold_secs: u64) -> (r: Result<Vec<Vec<u8>>, Error>)
        ensures
            r matches Err(e) ==> group_error_with_prefix(e, "groups_needing_self_update failed: "@),
    {
        match mdk_groups_needing_self_update(&self.mdk, threshold_secs) {
            Ok(ids) => Ok(ids),
            Err(msg) => Err(group_error("groups_needing_self_update failed: ", msg.as_str())),
        }
    }

    /// The evolution commit event of an update, ready to publish
    /// (`result.evolution_event`).
    #[verifier::external_body]
    pub fn evolution_event(result: &mdk_core::groups::UpdateGroupResult) -> &nostr::Event {
        &result.evolution_event
    }

    /// Perform a self-update commit for a group (rotates our leaf key).
    pub fn self_update_group(&self, mls_group_id: &[u8]) -> (r: Result<
        mdk_core::groups::UpdateGroupResult,
        Error,
    >)
        ensures
            r matches Err(e) ==> group_error_with_prefix(e, "self_update failed: "@),
    {
        match mdk_self_update(&self.mdk, mls_group_id) {
            Ok(u) => Ok(u),
            Err(msg) => Err(group_error("self_update failed: ", msg.as_str())),
        }
    }
}

} // verus!
