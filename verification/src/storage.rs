//! Agent storage layout (config, data and state directories), the global
//! configuration, identity records and the database encryption key.

use vstd::prelude::*;

use crate::codec::{
    hex_decode, hex_decode_spec, hex_encode, hex_encode_spec, hex_error_message, is_hex,
    lemma_hex_roundtrip, lemma_trim_hex, trim, trim_spec,
};
use crate::identity::{
    invalid_secret_message, law_identity_file_roundtrip, npub_encode, public_key_of, secret_parse,
    valid_secret, Identity,
};
use crate::order::{lemma_lex_irreflexive, lemma_lex_total, lemma_lex_transitive, lex_less, str_less};
use crate::{default_relay_list, lemma_starts_with_concat, starts_with, string_views, Config, Error};

verus! {

/// `path.join(segment)` on Unix: an absolute segment replaces the path;
/// otherwise a separator is put between them unless the path is empty or
/// already ends with one.
pub open spec fn path_join_spec(base: Seq<char>, segment: Seq<char>) -> Seq<char> {
    if segment.len() > 0 && segment[0] == '/' {
        segment
    } else if base.len() > 0 && base.last() != '/' {
        base + "/"@ + segment
    } else {
        base + segment
    }
}

/// Join a path segment onto a path.
pub fn path_join(base: &str, segment: &str) -> (p: String)
    ensures
        p@ == path_join_spec(base@, segment@),
{
    let sn = segment.unicode_len();
    let bn = base.unicode_len();
    if sn > 0 && segment.get_char(0) == '/' {
        String::from_str(segment)
    } else if bn > 0 && base.get_char(bn - 1) != '/' {
        let mut p = String::from_str(base);
        p.append("/");
        p.append(segment);
        p
    } else {
        let mut p = String::from_str(base);
        p.append(segment);
        p
    }
}

/// The platform directories of the application, as `directories::ProjectDirs`
/// finds them for qualifier `com`, organization `tkhumush` and application
/// `marmot-cli`: config, data and (where the platform has one) state, each
/// as text (`Path::to_str`); `None` when there are none, or when one of
/// them is not valid UTF-8 and so cannot be held as text. They depend on
/// the environment, so nothing is stated of them.
#[verifier::external_body]
fn project_dirs() -> (r: Option<(String, String, Option<String>)>) {
    let pd = directories::ProjectDirs::from("com", "tkhumush", "marmot-cli")?;
    let state = match pd.state_dir() {
        Some(p) => Some(p.to_str()?.to_string()),
        None => None,
    };
    Some((pd.config_dir().to_str()?.to_string(), pd.data_dir().to_str()?.to_string(), state))
}

/// Platform directories for marmot-cli.
pub struct AgentDirs {
    pub config_dir: String,
    pub data_dir: String,
    pub state_dir: String,
}

impl AgentDirs {
    /// Create / discover platform directories; the state directory falls
    /// back to the data directory where the platform has none. `None` when
    /// the platform gives none, or gives one whose path is not valid UTF-8.
    pub fn new() -> (r: Option<AgentDirs>) {
        match project_dirs() {
            Some((config_dir, data_dir, state)) => Some(
                AgentDirs::from_parts(config_dir, data_dir, state),
            ),
            None => None,
        }
    }

    /// The directories of a given root triple, the state directory falling
    /// back to the data directory.
    pub fn from_parts(config_dir: String, data_dir: String, state_dir: Option<String>) -> (r:
        AgentDirs)
        ensures
            r.config_dir@ == config_dir@,
            r.data_dir@ == data_dir@,
            r.state_dir@ == match state_dir {
                Some(s) => s@,
                None => data_dir@,
            },
    {
        let state_dir = match state_dir {
            Some(s) => s,
            None => data_dir.clone(),
        };
        AgentDirs { config_dir, data_dir, state_dir }
    }

    /// Path to the global config file (`config.json` in the data
    /// directory, which holds the default identity name).
    pub fn config_file(&self) -> (p: String)
        ensures
            p@ == path_join_spec(self.data_dir@, "config.json"@),
    {
        path_join(self.data_dir.as_str(), "config.json")
    }

    /// Path to the identities subdirectory.
    pub fn identities_dir(&self) -> (p: String)
        ensures
            p@ == path_join_spec(self.data_dir@, "identities"@),
    {
        path_join(self.data_dir.as_str(), "identities")
    }

    /// Path to an identity's metadata file by name.
    pub fn identity_file(&self, name: &str) -> (p: String)
        ensures
            p@ == path_join_spec(path_join_spec(self.data_dir@, "identities"@), name@ + ".json"@),
    {
        let dir = self.identities_dir();
        let mut file = String::from_str(name);
        file.append(".json");
        path_join(dir.as_str(), file.as_str())
    }

    /// Path to an identity's secret-key file by name.
    pub fn secret_key_file(&self, name: &str) -> (p: String)
        ensures
            p@ == path_join_spec(path_join_spec(self.data_dir@, "identities"@), name@ + ".nsec"@),
    {
        let dir = self.identities_dir();
        let mut file = String::from_str(name);
        file.append(".nsec");
        path_join(dir.as_str(), file.as_str())
    }

    /// Path to the SQLite database.
    pub fn database_path(&self) -> (p: String)
        ensures
            p@ == path_join_spec(self.data_dir@, "marmot.db"@),
    {
        path_join(self.data_dir.as_str(), "marmot.db")
    }

    /// Path to the database encryption key.
    pub fn db_key_path(&self) -> (p: String)
        ensures
            p@ == path_join_spec(self.data_dir@, "db.key"@),
    {
        path_join(self.data_dir.as_str(), "db.key")
    }
}

/// Global agent configuration.
#[derive(Debug, Clone)]
pub struct AgentConfig {
    pub default_identity: Option<String>,
    pub default_relays: Vec<String>,
    pub daemon_listen: String,
}

impl Default for AgentConfig {
    fn default() -> (c: AgentConfig)
        ensures
            c.default_identity is None,
            c.default_relays@.len() == 0,
            c.daemon_listen@.len() == 0,
    {
        AgentConfig {
            default_identity: None,
            default_relays: Vec::new(),
            daemon_listen: String::new(),
        }
    }
}

/// The address the daemon listens on when nothing else is configured.
pub open spec fn default_listen_address() -> Seq<char> {
    "127.0.0.1:9222"@
}

impl AgentConfig {
    /// The configuration used when there is no readable config file: no
    /// default identity, the built-in relays and the default daemon address.
    pub fn defaults() -> (c: AgentConfig)
        ensures
            c.default_identity is None,
            string_views(c.default_relays@) == default_relay_list(),
            c.daemon_listen@ == default_listen_address(),
    {
        AgentConfig {
            default_identity: None,
            default_relays: Config::default_relays(),
            daemon_listen: String::from_str("127.0.0.1:9222"),
        }
    }

    /// The configuration to run with, given what reading and parsing the
    /// config file gave (`None` when it was missing, unreadable or invalid).
    pub fn load(parsed: Option<AgentConfig>) -> (c: AgentConfig)
        ensures
            match parsed {
                Some(p) => c == p,
                None => c.default_identity is None && string_views(c.default_relays@)
                    == default_relay_list() && c.daemon_listen@ == default_listen_address(),
            },
    {
        match parsed {
            Some(p) => p,
            None => AgentConfig::defaults(),
        }
    }
}

/// `serde_json::Value`.
#[verifier::external_type_specification]
#[verifier::external_body]
pub struct ExJsonValue(serde_json::Value);

/// Serializable identity record stored on disk.
#[derive(Debug, Clone)]
pub struct IdentityRecord {
    pub name: String,
    pub npub: String,
    pub public_key_hex: String,
    pub created_at: String,
    pub metadata: Option<serde_json::Value>,
}

/// The file name an identity is saved under: its name, or `default`.
pub open spec fn identity_stem_spec(name: Option<Seq<char>>) -> Seq<char> {
    match name {
        Some(n) => n,
        None => "default"@,
    }
}

/// The file name an identity is saved under: its name, or `default`.
pub fn identity_stem(identity: &Identity) -> (s: String)
    ensures
        s@ == identity_stem_spec(identity@.name),
{
    match identity.name() {
        Some(n) => n.clone(),
        None => String::from_str("default"),
    }
}

impl IdentityRecord {
    /// The metadata record saved beside an identity's secret key.
    pub fn for_identity(identity: &Identity, created_at: String) -> (r: IdentityRecord)
        ensures
            r.name@ == identity_stem_spec(identity@.name),
            r.npub@ == npub_encode(public_key_of(identity@.secret)),
            r.public_key_hex@ == hex_encode_spec(public_key_of(identity@.secret)),
            r.created_at@ == created_at@,
            r.metadata is None,
    {
        IdentityRecord {
            name: identity_stem(identity),
            npub: identity.npub(),
            public_key_hex: identity.public_key_hex(),
            created_at,
            metadata: None,
        }
    }
}

/// What saving an identity writes: its secret key in hex to the secret-key
/// file, and its metadata record to the record file.
pub struct IdentityFiles {
    pub secret_path: String,
    pub secret_contents: String,
    pub record_path: String,
    pub record: IdentityRecord,
}

/// Storage manager for agent data.
pub struct AgentStorage {
    pub dirs: AgentDirs,
    pub config: AgentConfig,
}

/// The message of the storage error when no platform directories exist.
pub open spec fn no_dirs_message() -> Seq<char> {
    "could not determine platform directories"@
}

/// The message of the error for an identity whose secret-key file is absent.
pub open spec fn missing_identity_message(name: Seq<char>, path: Seq<char>) -> Seq<char> {
    "identity '"@ + name + "' not found at "@ + path
}

/// The message of the error for a db key file that is not hex.
pub open spec fn db_key_hex_prefix() -> Seq<char> {
    "invalid db key hex: "@
}

/// The message of the error for a db key of the wrong length.
pub open spec fn db_key_length_message() -> Seq<char> {
    "db key must be 32 bytes"@
}

/// What reading a db key file gives: the key, or the reason it is unusable.
pub open spec fn db_key_parse_ok(contents: Seq<char>) -> bool {
    is_hex(trim_spec(contents)) && trim_spec(contents).len() == 64
}

/// `getrandom::getrandom`: fills the buffer from the operating system's
/// random source, or reports why it could not. Nothing is known of the bytes.
#[verifier::external_body]
fn fill_random() -> Result<[u8; 32], String> {
    let mut buf = [0u8; 32];
    match getrandom::getrandom(&mut buf) {
        Ok(()) => Ok(buf),
        Err(e) => Err(e.to_string()),
    }
}

impl AgentStorage {
    /// Storage over the given directories and configuration.
    pub fn new(dirs: AgentDirs, config: AgentConfig) -> (s: AgentStorage)
        ensures
            s.dirs == dirs,
            s.config == config,
    {
        AgentStorage { dirs, config }
    }

    /// The storage to run with, given what discovering the platform
    /// directories gave, and the configuration read for them.
    pub fn from_dirs(dirs: Option<AgentDirs>, config: AgentConfig) -> (r: Result<AgentStorage, Error>)
        ensures
            dirs is None <==> r is Err,
            r matches Err(e) ==> e matches Error::Identity(m) && m@ == no_dirs_message(),
            r matches Ok(s) ==> Some(s.dirs) == dirs && s.config == config,
    {
        match dirs {
            Some(d) => Ok(AgentStorage { dirs: d, config }),
            None => Err(Error::Identity(String::from_str("could not determine platform directories"))),
        }
    }

    /// The error for an identity whose secret-key file is absent.
    pub fn missing_identity(&self, name: &str) -> (e: Error)
        ensures
            e matches Error::Identity(m) && m@ == missing_identity_message(
                name@,
                path_join_spec(path_join_spec(self.dirs.data_dir@, "identities"@), name@ + ".nsec"@),
            ),
    {
        let path = self.dirs.secret_key_file(name);
        let mut m = String::from_str("identity '");
        m.append(name);
        m.append("' not found at ");
        m.append(path.as_str());
        Error::Identity(m)
    }

    /// What saving `identity` writes (its files are named after the
    /// identity, or `default` when it has no name); `created_at` is the
    /// time of saving.
    pub fn save_identity(&self, identity: &Identity, created_at: String) -> (r: IdentityFiles)
        ensures
            r.secret_path@ == path_join_spec(
                path_join_spec(self.dirs.data_dir@, "identities"@),
                identity_stem_spec(identity@.name) + ".nsec"@,
            ),
            r.record_path@ == path_join_spec(
                path_join_spec(self.dirs.data_dir@, "identities"@),
                identity_stem_spec(identity@.name) + ".json"@,
            ),
            r.secret_contents@ == hex_encode_spec(identity@.secret),
            r.record.name@ == identity_stem_spec(identity@.name),
            r.record.npub@ == npub_encode(public_key_of(identity@.secret)),
            r.record.public_key_hex@ == hex_encode_spec(public_key_of(identity@.secret)),
            r.record.created_at@ == created_at@,
            r.record.metadata is None,
    {
        let stem = identity_stem(identity);
        IdentityFiles {
            secret_path: self.dirs.secret_key_file(stem.as_str()),
            secret_contents: identity.secret_file_contents(),
            record_path: self.dirs.identity_file(stem.as_str()),
            record: IdentityRecord::for_identity(identity, created_at),
        }
    }

    /// Load an identity by name, given the text of its secret-key file
    /// (`None` when that file does not exist) and its metadata record (when
    /// it could be read and parsed).
    pub fn load_identity(
        &self,
        name: &str,
        secret_contents: Option<&str>,
        record: Option<IdentityRecord>,
    ) -> (r: Result<Identity, Error>)
        ensures
            secret_contents is None ==> (r matches Err(e) && e matches Error::Identity(m) && m@
                == missing_identity_message(
                name@,
                path_join_spec(path_join_spec(self.dirs.data_dir@, "identities"@), name@ + ".nsec"@),
            )),
            secret_contents matches Some(c) ==> (r is Ok <==> secret_parse(trim_spec(c@)) is Some),
            secret_contents matches Some(c) ==> match r {
                Ok(id) => Some(id@.secret) == secret_parse(trim_spec(c@)) && id@.name == match record {
                    Some(rec) => Some(rec.name@),
                    None => None,
                },
                Err(e) => e matches Error::Identity(m) && m@ == invalid_secret_message(),
            },
    {
        match secret_contents {
            None => Err(self.missing_identity(name)),
            Some(c) => match Identity::from_secret_file(c) {
                Ok(id) => Ok(AgentStorage::name_from_record(id, record)),
                Err(e) => Err(e),
            },
        }
    }

    /// The identity records found in the identities directory, given each
    /// file's name and, for files that could be read and parsed, the record:
    /// those of `.json` files, in order of name.
    pub fn list_identities(entries: Vec<(String, Option<IdentityRecord>)>) -> (r: Vec<IdentityRecord>)
        ensures
            r@ == sort_by_name_spec(listed_records(entries@)),
    {
        let ghost all = entries@;
        let mut rest = entries;
        let mut found: Vec<IdentityRecord> = Vec::new();
        let n = rest.len();
        let mut k: usize = 0;
        assert(all.take(0) =~= Seq::<(String, Option<IdentityRecord>)>::empty());
        assert(all.skip(0) =~= all);
        while k < n
            invariant
                n == all.len(),
                k <= n,
                rest@ == all.skip(k as int),
                found@ == listed_records(all.take(k as int)),
            decreases n - k,
        {
            let (file, record) = rest.remove(0);
            proof {
                assert(all.take(k + 1).drop_last() =~= all.take(k as int));
                assert(all.take(k + 1).last() == (file, record));
                assert(rest@ =~= all.skip(k + 1));
            }
            if is_json_file_name(file.as_str()) {
                match record {
                    Some(rec) => found.push(rec),
                    None => {},
                }
            }
            k = k + 1;
        }
        assert(all.take(n as int) =~= all);
        sort_records_by_name(found)
    }

    /// The files that make up a saved identity: its secret-key file and its
    /// metadata file, in the order they are removed.
    pub fn identity_files(&self, name: &str) -> (r: Vec<String>)
        ensures
            r@.len() == 2,
            r@[0]@ == path_join_spec(path_join_spec(self.dirs.data_dir@, "identities"@), name@ + ".nsec"@),
            r@[1]@ == path_join_spec(path_join_spec(self.dirs.data_dir@, "identities"@), name@ + ".json"@),
    {
        let mut r: Vec<String> = Vec::new();
        r.push(self.dirs.secret_key_file(name));
        r.push(self.dirs.identity_file(name));
        r
    }

    /// An identity loaded from its secret-key file, named after its metadata
    /// record when that record could be read.
    pub fn name_from_record(identity: Identity, record: Option<IdentityRecord>) -> (id: Identity)
        ensures
            id@.secret == identity@.secret,
            id@.name == match record {
                Some(r) => Some(r.name@),
                None => identity@.name,
            },
    {
        let mut id = identity;
        match record {
            Some(r) => id.set_name(Some(r.name)),
            None => {},
        }
        id
    }

    /// Make `name` the default identity, given what loading it gave: one
    /// that does not load is refused and nothing changes.
    pub fn set_default_identity(&mut self, name: &str, loaded: Result<Identity, Error>) -> (r: Result<
        (),
        Error,
    >)
        ensures
            final(self).dirs == old(self).dirs,
            final(self).config.default_relays == old(self).config.default_relays,
            final(self).config.daemon_listen == old(self).config.daemon_listen,
            match loaded {
                Ok(_) => r is Ok && (final(self).config.default_identity matches Some(n) && n@
                    == name@),
                Err(e) => r == Err::<(), Error>(e) && final(self).config.default_identity == old(
                    self,
                ).config.default_identity,
            },
    {
        match loaded {
            Ok(_) => {
                self.config.default_identity = Some(String::from_str(name));
                Ok(())
            },
            Err(e) => Err(e),
        }
    }

    /// The name of the default identity, if one is set.
    pub fn default_identity_name(&self) -> (r: Option<&String>)
        ensures
            match self.config.default_identity {
                Some(n) => r matches Some(m) && m@ == n@,
                None => r is None,
            },
    {
        match &self.config.default_identity {
            Some(n) => Some(n),
            None => None,
        }
    }

    /// The default identity, given what loading it gave (`None` when no
    /// default is set): one that fails to load counts as none.
    pub fn default_identity(loaded: Option<Result<Identity, Error>>) -> (r: Option<Identity>)
        ensures
            match loaded {
                Some(Ok(id)) => r == Some(id),
                _ => r is None,
            },
    {
        match loaded {
            Some(Ok(id)) => Some(id),
            _ => None,
        }
    }

    /// Read the database encryption key from the text of its file (hex,
    /// surrounding whitespace ignored).
    pub fn parse_db_key(contents: &str) -> (r: Result<[u8; 32], Error>)
        ensures
            r is Ok <==> db_key_parse_ok(contents@),
            r matches Ok(k) ==> k@ == hex_decode_spec(trim_spec(contents@)),
            !is_hex(trim_spec(contents@)) ==> (r matches Err(e) && e matches Error::Serialization(m)
                && starts_with(m@, db_key_hex_prefix())),
            is_hex(trim_spec(contents@)) && trim_spec(contents@).len() != 64 ==> (r matches Err(e)
                && e matches Error::Serialization(m) && m@ == db_key_length_message()),
    {
        let t = trim(contents);
        match hex_decode(t) {
            Err(e) => Err(Error::Serialization(hex_error_message("invalid db key hex: ", &e))),
            Ok(bytes) => {
                if bytes.len() != 32 {
                    Err(Error::Serialization(String::from_str("db key must be 32 bytes")))
                } else {
                    let mut key = [0u8; 32];
                    let mut i: usize = 0;
                    while i < 32
                        invariant
                            bytes@.len() == 32,
                            0 <= i <= 32,
                            forall|j: int| 0 <= j < i ==> key@[j] == bytes@[j],
                        decreases 32 - i,
                    {
                        key[i] = bytes[i];
                        i = i + 1;
                    }
                    assert(key@ =~= bytes@);
                    Ok(key)
                }
            },
        }
    }

    /// The text of the database key file: the key in lower-case hex.
    pub fn db_key_file_contents(key: &[u8; 32]) -> (s: String)
        ensures
            s@ == hex_encode_spec(key@),
    {
        hex_encode(key)
    }

    /// The database encryption key, given the text of its file (`None` when
    /// there is none yet): the key read from it, or a fresh random key, which
    /// the caller then writes with `db_key_file_contents`.
    pub fn db_encryption_key(existing: Option<&str>) -> (r: Result<[u8; 32], Error>)
        ensures
            existing matches Some(c) ==> (r is Ok <==> db_key_parse_ok(c@)),
            existing matches Some(c) ==> match r {
                Ok(k) => k@ == hex_decode_spec(trim_spec(c@)),
                Err(e) => e matches Error::Serialization(m) && (if is_hex(trim_spec(c@)) {
                    m@ == db_key_length_message()
                } else {
                    starts_with(m@, db_key_hex_prefix())
                }),
            },
            existing is None ==> (r matches Err(e) ==> (e matches Error::Storage(m) && starts_with(
                m@,
                "failed to generate db key: "@,
            ))),
    {
        match existing {
            Some(c) => AgentStorage::parse_db_key(c),
            None => AgentStorage::generate_db_key(),
        }
    }

    /// A fresh random database key: `db_key_from_draw` of what the random
    /// source gave.
    pub fn generate_db_key() -> (r: Result<[u8; 32], Error>)
        ensures
            r matches Err(e) ==> e matches Error::Storage(m) && starts_with(
                m@,
                "failed to generate db key: "@,
            ),
    {
        AgentStorage::db_key_from_draw(fill_random())
    }

    /// The database key made of a draw from the random source: the drawn
    /// bytes themselves, or, when the source failed, a storage error with
    /// its reason.
    pub fn db_key_from_draw(drawn: Result<[u8; 32], String>) -> (r: Result<[u8; 32], Error>)
        ensures
            drawn matches Ok(k) ==> r == Ok::<[u8; 32], Error>(k),
            drawn matches Err(msg) ==> (r matches Err(e) && e matches Error::Storage(m) && m@
                == "failed to generate db key: "@ + msg@),
            r matches Err(e) ==> e matches Error::Storage(m) && starts_with(
                m@,
                "failed to generate db key: "@,
            ),
    {
        match drawn {
            Ok(key) => Ok(key),
            Err(msg) => {
                let mut m = String::from_str("failed to generate db key: ");
                m.append(msg.as_str());
                proof {
                    lemma_starts_with_concat("failed to generate db key: "@, msg@);
                }
                Err(Error::Storage(m))
            },
        }
    }
}

/// The records of the `.json` files among directory entries (file name and,
/// where it was read and parsed, the record), in their order.
pub open spec fn listed_records(entries: Seq<(String, Option<IdentityRecord>)>) -> Seq<IdentityRecord>
    decreases entries.len(),
{
    if entries.len() == 0 {
        seq![]
    } else {
        let rest = listed_records(entries.drop_last());
        let (file, record) = entries.last();
        if json_file_name(file@) && record is Some {
            rest.push(record->0)
        } else {
            rest
        }
    }
}

/// Whether a file name has the extension `json` (a final `.json` after a
/// non-empty stem).
pub open spec fn json_file_name(name: Seq<char>) -> bool {
    name.len() > 5 && name.subrange(name.len() - 5, name.len() as int) == ".json"@
}

/// Insert a record into a name-sorted list after every record whose name
/// does not sort after its own.
pub open spec fn insert_by_name(s: Seq<IdentityRecord>, x: IdentityRecord) -> Seq<IdentityRecord>
    decreases s.len(),
{
    if s.len() == 0 {
        seq![x]
    } else if lex_less(x.name@, s[0].name@) {
        seq![x] + s
    } else {
        seq![s[0]] + insert_by_name(s.drop_first(), x)
    }
}

/// Records in order of name; records of equal name keep their order
/// (the stable sort that `sort_by` on names performs).
pub open spec fn sort_by_name_spec(s: Seq<IdentityRecord>) -> Seq<IdentityRecord>
    decreases s.len(),
{
    if s.len() == 0 {
        s
    } else {
        insert_by_name(sort_by_name_spec(s.drop_last()), s.last())
    }
}

/// No record's name sorts before that of a record ahead of it.
pub open spec fn sorted_by_name(s: Seq<IdentityRecord>) -> bool {
    forall|i: int, j: int| 0 <= i < j < s.len() ==> !lex_less(s[j].name@, s[i].name@)
}

proof fn lemma_insert_at(s: Seq<IdentityRecord>, x: IdentityRecord, p: int)
    requires
        0 <= p <= s.len(),
        forall|j: int| 0 <= j < p ==> !lex_less(x.name@, #[trigger] s[j].name@),
        p < s.len() ==> lex_less(x.name@, s[p].name@),
    ensures
        insert_by_name(s, x) == s.insert(p, x),
    decreases s.len(),
{
    if s.len() == 0 {
        assert(s.insert(p, x) =~= seq![x]);
    } else if p == 0 {
        assert(s.insert(p, x) =~= seq![x] + s);
    } else {
        let t = s.drop_first();
        assert forall|j: int| 0 <= j < p - 1 implies !lex_less(x.name@, #[trigger] t[j].name@) by {
            assert(t[j] == s[j + 1]);
        }
        lemma_insert_at(t, x, p - 1);
        assert(s.insert(p, x) =~= seq![s[0]] + t.insert(p - 1, x));
    }
}

proof fn lemma_insert_keeps_sorted(s: Seq<IdentityRecord>, x: IdentityRecord)
    requires
        sorted_by_name(s),
    ensures
        sorted_by_name(insert_by_name(s, x)),
        insert_by_name(s, x).to_multiset() == s.to_multiset().insert(x),
    decreases s.len(),
{
    broadcast use vstd::seq_lib::group_to_multiset_ensures;
    let r = insert_by_name(s, x);
    if s.len() == 0 {
        assert(r =~= seq![x]);
        assert(seq![x] =~= Seq::<IdentityRecord>::empty().push(x));
    } else if lex_less(x.name@, s[0].name@) {
        assert forall|i: int, j: int| 0 <= i < j < r.len() implies !lex_less(
            r[j].name@,
            r[i].name@,
        ) by {
            if i == 0 {
                if j > 1 {
                    lemma_lex_total(s[0].name@, s[j - 1].name@);
                    if lex_less(s[0].name@, s[j - 1].name@) {
                        lemma_lex_transitive(x.name@, s[0].name@, s[j - 1].name@);
                    }
                }
                if lex_less(r[j].name@, x.name@) {
                    lemma_lex_transitive(x.name@, r[j].name@, x.name@);
                    lemma_lex_irreflexive(x.name@);
                }
            }
        }
        assert(r =~= seq![x] + s);
        assert((seq![x] + s).to_multiset() =~= seq![x].to_multiset().add(s.to_multiset())) by {
            vstd::seq_lib::lemma_multiset_commutative(seq![x], s);
        }
        assert(seq![x] =~= Seq::<IdentityRecord>::empty().push(x));
    } else {
        let t = s.drop_first();
        assert(sorted_by_name(t)) by {
            assert forall|i: int, j: int| 0 <= i < j < t.len() implies !lex_less(
                t[j].name@,
                t[i].name@,
            ) by {
                assert(t[i] == s[i + 1] && t[j] == s[j + 1]);
            }
        }
        lemma_insert_keeps_sorted(t, x);
        let u = insert_by_name(t, x);
        assert(r =~= seq![s[0]] + u);
        assert forall|k: int| 0 <= k < u.len() implies !lex_less(#[trigger] u[k].name@, s[0].name@) by {
            assert(u.to_multiset().count(u[k]) > 0);
            assert(t.to_multiset().insert(x).count(u[k]) > 0);
            if u[k] != x {
                assert(t.to_multiset().count(u[k]) > 0);
                assert(t.contains(u[k]));
                let m = choose|m: int| 0 <= m < t.len() && t[m] == u[k];
                assert(s[m + 1] == u[k]);
            }
        }
        assert forall|i: int, j: int| 0 <= i < j < r.len() implies !lex_less(
            r[j].name@,
            r[i].name@,
        ) by {
            if i == 0 {
                assert(r[j] == u[j - 1]);
            } else {
                assert(r[i] == u[i - 1] && r[j] == u[j - 1]);
            }
        }
        vstd::seq_lib::lemma_multiset_commutative(seq![s[0]], u);
        vstd::seq_lib::lemma_multiset_commutative(seq![s[0]], t);
        assert(s =~= seq![s[0]] + t);
        assert(seq![s[0]] =~= Seq::<IdentityRecord>::empty().push(s[0]));
        assert(r.to_multiset() =~= s.to_multiset().insert(x));
    }
}

/// Sorting records by name orders them by name and keeps every record.
pub proof fn law_sort_by_name(s: Seq<IdentityRecord>)
    ensures
        sorted_by_name(sort_by_name_spec(s)),
        sort_by_name_spec(s).to_multiset() == s.to_multiset(),
    decreases s.len(),
{
    broadcast use vstd::seq_lib::group_to_multiset_ensures;
    if s.len() > 0 {
        law_sort_by_name(s.drop_last());
        lemma_insert_keeps_sorted(sort_by_name_spec(s.drop_last()), s.last());
        assert(s =~= s.drop_last().push(s.last()));
    } else {
        assert(s.to_multiset() =~= vstd::multiset::Multiset::empty());
    }
}

/// Sort identity records by name, records of equal name keeping their order.
pub fn sort_records_by_name(records: Vec<IdentityRecord>) -> (r: Vec<IdentityRecord>)
    ensures
        r@ == sort_by_name_spec(records@),
{
    let ghost all = records@;
    let mut rest = records;
    let mut out: Vec<IdentityRecord> = Vec::new();
    let mut k: usize = 0;
    let n = rest.len();
    assert(all.take(0) =~= Seq::<IdentityRecord>::empty());
    assert(all.skip(0) =~= all);
    while k < n
        invariant
            n == all.len(),
            k <= n,
            rest@ == all.skip(k as int),
            out@ == sort_by_name_spec(all.take(k as int)),
        decreases n - k,
    {
        let x = rest.remove(0);
        let mut p: usize = 0;
        while p < out.len() && !str_less(x.name.as_str(), out[p].name.as_str())
            invariant
                p <= out@.len(),
                forall|j: int| 0 <= j < p ==> !lex_less(x.name@, #[trigger] out@[j].name@),
            decreases out@.len() - p,
        {
            p = p + 1;
        }
        proof {
            lemma_insert_at(out@, x, p as int);
            assert(all.take(k + 1).drop_last() =~= all.take(k as int));
            assert(all.take(k + 1).last() == x);
            assert(rest@ =~= all.skip(k + 1));
        }
        out.insert(p, x);
        k = k + 1;
    }
    assert(all.take(n as int) =~= all);
    out
}

/// Whether a file name has the extension `json` (a final `.json` after a
/// non-empty stem), as `Path::extension` reads it.
pub fn is_json_file_name(name: &str) -> (r: bool)
    ensures
        r == json_file_name(name@),
{
    let n = name.unicode_len();
    if n <= 5 {
        return false;
    }
    let ok = name.get_char(n - 5) == '.' && name.get_char(n - 4) == 'j' && name.get_char(n - 3) == 's'
        && name.get_char(n - 2) == 'o' && name.get_char(n - 1) == 'n';
    proof {
        reveal_strlit(".json");
        if ok {
            assert(name@.subrange(n - 5, n as int) =~= ".json"@);
        } else {
            if name@.subrange(n - 5, n as int) == ".json"@ {
                assert(name@.subrange(n - 5, n as int)[0] == '.');
                assert(name@.subrange(n - 5, n as int)[1] == 'j');
                assert(name@.subrange(n - 5, n as int)[2] == 's');
                assert(name@.subrange(n - 5, n as int)[3] == 'o');
                assert(name@.subrange(n - 5, n as int)[4] == 'n');
            }
        }
    }
    ok
}

/// Every database key written to its file is read back unchanged.
pub proof fn law_db_key_roundtrip(key: Seq<u8>)
    requires
        key.len() == 32,
    ensures
        db_key_parse_ok(hex_encode_spec(key)),
        hex_decode_spec(trim_spec(hex_encode_spec(key))) == key,
{
    lemma_trim_hex(key);
    lemma_hex_roundtrip(key);
}

/// What `save_identity` writes for an identity is loaded back by
/// `load_identity` as the same identity: the secret-key file's text parses
/// to the same key, and the record names it as it was named (`default` when
/// it had no name).
pub proof fn law_saved_identity_loads_back(secret: Seq<u8>, name: Option<Seq<char>>)
    requires
        valid_secret(secret),
    ensures
        secret_parse(trim_spec(hex_encode_spec(secret))) == Some(secret),
        Some(identity_stem_spec(name)) == match name {
            Some(n) => Some(n),
            None => Some("default"@),
        },
{
    law_identity_file_roundtrip(secret);
}

proof fn lemma_listed_contains(entries: Seq<(String, Option<IdentityRecord>)>, k: int, rec: IdentityRecord)
    requires
        0 <= k < entries.len(),
        json_file_name(entries[k].0@),
        entries[k].1 == Some(rec),
    ensures
        listed_records(entries).contains(rec),
    decreases entries.len(),
{
    let rest = listed_records(entries.drop_last());
    if k == entries.len() - 1 {
        assert(listed_records(entries) == rest.push(rec));
        assert(rest.push(rec)[rest.len() as int] == rec);
    } else {
        lemma_listed_contains(entries.drop_last(), k, rec);
        let j = choose|j: int| 0 <= j < rest.len() && rest[j] == rec;
        let (file, record) = entries.last();
        if json_file_name(file@) && record is Some {
            assert(rest.push(record->0)[j] == rec);
        }
    }
}

/// Every record listed comes from a `.json` entry whose record was read.
proof fn lemma_listed_from(entries: Seq<(String, Option<IdentityRecord>)>, x: IdentityRecord)
    requires
        listed_records(entries).contains(x),
    ensures
        exists|j: int|
            0 <= j < entries.len() && json_file_name((#[trigger] entries[j]).0@) && entries[j].1 == Some(
                x,
            ),
    decreases entries.len(),
{
    let rest = listed_records(entries.drop_last());
    let (file, record) = entries.last();
    let n = entries.len() - 1;
    if json_file_name(file@) && record is Some && record->0 == x {
        assert(entries[n] == entries.last());
    } else {
        let i = choose|i: int| 0 <= i < listed_records(entries).len() && listed_records(entries)[i] == x;
        if json_file_name(file@) && record is Some {
            assert(listed_records(entries) == rest.push(record->0));
            assert(i < rest.len());
            assert(rest[i] == x);
        }
        assert(rest.contains(x));
        lemma_listed_from(entries.drop_last(), x);
        let j = choose|j: int|
            0 <= j < entries.drop_last().len() && json_file_name((#[trigger] entries.drop_last()[j]).0@)
                && entries.drop_last()[j].1 == Some(x);
        assert(entries[j] == entries.drop_last()[j]);
    }
}

/// Whether a directory entry is a `.json` file whose record, named `stem`,
/// was read.
pub open spec fn holds_record_named(entry: (String, Option<IdentityRecord>), stem: Seq<char>) -> bool {
    json_file_name(entry.0@) && (entry.1 matches Some(x) && x.name@ == stem)
}

/// Whether only one entry is a `.json` file holding a record named `stem`.
pub open spec fn one_record_named(entries: Seq<(String, Option<IdentityRecord>)>, stem: Seq<char>) -> bool {
    forall|a: int, b: int|
        0 <= a < entries.len() && 0 <= b < entries.len() && #[trigger] holds_record_named(entries[a], stem)
            && #[trigger] holds_record_named(entries[b], stem) ==> a == b
}

/// When only one entry holds a record named `stem`, at most one listed
/// record is named `stem`.
proof fn lemma_listed_name_once(entries: Seq<(String, Option<IdentityRecord>)>, stem: Seq<char>)
    requires
        one_record_named(entries, stem),
    ensures
        forall|a: int, b: int|
            0 <= a < listed_records(entries).len() && 0 <= b < listed_records(entries).len()
                && (#[trigger] listed_records(entries)[a]).name@ == stem
                && (#[trigger] listed_records(entries)[b]).name@ == stem ==> a == b,
    decreases entries.len(),
{
    if entries.len() > 0 {
        let e = entries.drop_last();
        assert forall|a: int, b: int|
            0 <= a < e.len() && 0 <= b < e.len() && #[trigger] holds_record_named(e[a], stem)
                && #[trigger] holds_record_named(e[b], stem) implies a == b by {
            assert(e[a] == entries[a] && e[b] == entries[b]);
        }
        lemma_listed_name_once(e, stem);
        let rest = listed_records(e);
        let (file, record) = entries.last();
        let n = entries.len() - 1;
        if json_file_name(file@) && record is Some {
            let l = listed_records(entries);
            assert(l == rest.push(record->0));
            assert forall|a: int, b: int|
                0 <= a < l.len() && 0 <= b < l.len() && (#[trigger] l[a]).name@ == stem
                    && (#[trigger] l[b]).name@ == stem implies a == b by {
                if a != b {
                    let c = if a < rest.len() { a } else { b };
                    assert(c < rest.len());
                    assert(rest[c] == l[c]);
                    assert(rest.contains(rest[c]));
                    lemma_listed_from(e, rest[c]);
                    let j = choose|j: int|
                        0 <= j < e.len() && json_file_name((#[trigger] e[j]).0@) && e[j].1 == Some(rest[c]);
                    assert(entries[j] == e[j]);
                    assert(entries[n] == entries.last());
                    if a < rest.len() && b < rest.len() {
                        assert(rest[a] == l[a] && rest[b] == l[b]);
                    } else {
                        assert(l[rest.len() as int] == record->0);
                        assert(holds_record_named(entries[j], stem));
                        assert(holds_record_named(entries[n], stem));
                    }
                }
            }
        }
    }
}

/// An identity saved under a non-empty file name is listed exactly once,
/// with the npub and hex key it was saved with: whatever else the
/// directory holds, a `.json` file named after the identity, holding the
/// record that saving wrote (and no other `.json` file holding a record of
/// that name), puts exactly one record of that name in the list.
pub proof fn law_saved_identity_listed(
    secret: Seq<u8>,
    name: Option<Seq<char>>,
    entries: Seq<(String, Option<IdentityRecord>)>,
    k: int,
    rec: IdentityRecord,
)
    requires
        identity_stem_spec(name).len() > 0,
        0 <= k < entries.len(),
        entries[k].0@ == identity_stem_spec(name) + ".json"@,
        entries[k].1 == Some(rec),
        rec.name@ == identity_stem_spec(name),
        rec.npub@ == npub_encode(public_key_of(secret)),
        rec.public_key_hex@ == hex_encode_spec(public_key_of(secret)),
        one_record_named(entries, identity_stem_spec(name)),
    ensures
        ({
            let listed = sort_by_name_spec(listed_records(entries));
            &&& exists|i: int| 0 <= i < listed.len() && (#[trigger] listed[i]) == rec
            &&& forall|i: int|
                0 <= i < listed.len() && (#[trigger] listed[i]).name@ == identity_stem_spec(name) ==> listed[i]
                    == rec && listed[i].npub@ == npub_encode(public_key_of(secret))
                    && listed[i].public_key_hex@ == hex_encode_spec(public_key_of(secret))
            &&& forall|i: int, j: int|
                0 <= i < listed.len() && 0 <= j < listed.len() && (#[trigger] listed[i]).name@
                    == identity_stem_spec(name) && (#[trigger] listed[j]).name@ == identity_stem_spec(name)
                    ==> i == j
        }),
{
    broadcast use vstd::seq_lib::group_to_multiset_ensures;
    let stem = identity_stem_spec(name);
    let file = stem + ".json"@;
    let n = file.len();
    reveal_strlit(".json");
    assert(file.subrange(n - 5, n as int) =~= ".json"@);
    lemma_listed_contains(entries, k, rec);
    let l = listed_records(entries);
    let listed = sort_by_name_spec(l);
    law_sort_by_name(l);
    lemma_listed_name_once(entries, stem);
    let p = choose|p: int| 0 <= p < l.len() && l[p] == rec;
    // Every listed record named `stem` is `rec`.
    assert forall|i: int| 0 <= i < listed.len() && (#[trigger] listed[i]).name@ == stem implies listed[i] == rec by {
        assert(listed.contains(listed[i]));
        assert(listed.to_multiset().count(listed[i]) > 0);
        assert(l.contains(listed[i]));
        let q = choose|q: int| 0 <= q < l.len() && l[q] == listed[i];
        assert(l[q].name@ == stem && l[p].name@ == stem);
    }
    assert(l.to_multiset().count(rec) > 0);
    assert(listed.contains(rec));
    // `rec` occurs once in the list read, so once in the sorted list.
    assert(!l.remove(p).contains(rec)) by {
        if l.remove(p).contains(rec) {
            let q = choose|q: int| 0 <= q < l.remove(p).len() && l.remove(p)[q] == rec;
            if q < p {
                assert(l[q] == rec);
            } else {
                assert(l[q + 1] == rec);
            }
        }
    }
    assert(l.to_multiset().count(rec) == 1) by {
        broadcast use vstd::multiset::group_multiset_axioms;
        assert(l.remove(p).to_multiset() == l.to_multiset().remove(l[p]));
        assert(l.remove(p).to_multiset().count(rec) == 0);
    }
    assert forall|i: int, j: int|
        0 <= i < listed.len() && 0 <= j < listed.len() && (#[trigger] listed[i]).name@ == stem
            && (#[trigger] listed[j]).name@ == stem implies i == j by {
        if i != j {
            assert(listed[i] == rec && listed[j] == rec);
            assert(listed.remove(i).to_multiset() == listed.to_multiset().remove(listed[i]));
            let jj = if j < i { j } else { j - 1 };
            assert(listed.remove(i)[jj] == rec);
            assert(listed.remove(i).contains(rec));
            assert(listed.remove(i).to_multiset().count(rec) > 0);
        }
    }
}

} // verus!
