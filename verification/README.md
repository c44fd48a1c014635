# marmot_agent_core

The core library of a headless Marmot messaging agent: end-to-end encrypted
group messaging (MLS) over Nostr relays, driven from the command line or a
JSON-RPC daemon. The library is written in Verus; its functions carry
`requires`/`ensures` contracts that Verus proves.

## Layout

- `src/lib.rs`: the configuration, the error type and a few shared specs.
- `src/codec.rs`: hex encoding (through the `hex` crate) and whitespace trimming.
- `src/identity.rs`: Nostr identities (a secp256k1 secret key with a type
  invariant), their `npub`/`nsec` forms and the secret-key file format.
- `src/storage.rs`: the on-disk layout, the configuration, identity records
  (sorted stably by name) and the database key.
- `src/context.rs`: the agent context over the Marmot Development Kit:
  groups, direct messages, messages, invitations, and the decisions around
  them (admin lists, DM detection, group ids in hex).
- `src/conversation.rs`: message windows, search, previews and the order of
  the conversation list.
- `src/relay.rs`, `src/follows.rs`: relay lists, publication reports and the
  follow list.
- `src/rpc.rs`: JSON-RPC responses and the daemon's per-line decisions.
- `tests/`: tests of the library, run against the real outside crates.
- `app/`: the command-line program: argument parsing, files, relays, the TCP
  daemon and the serde copies of library types.

Properties that span several functions (round trips of keys and ids, the
stable sort, relay list edits, what a view shows) are stated as `law_*`
proof functions next to the functions they speak of.
