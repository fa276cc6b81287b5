//! The configuration of a node, read from its environment.

use std::collections::BTreeMap;
use vstd::prelude::*;
use crate::text::{
    concat3, parse_i64, parse_unsigned, parsed_i64, parsed_unsigned, split, split_by, split_once,
    str_eq, trim, trimmed, views,
};

verus! {

/// Where data keys are wrapped.
#[derive(Debug, Clone, Copy, PartialEq, Eq, Structural)]
pub enum KmsMode {
    Aws,
    Local,
}

/// The configuration of a node.
pub struct Config {
    pub node_id: u64,
    pub peers: BTreeMap<u64, String>,
    pub api_port: u16,
    pub db_path: String,
    pub bootstrap_token: Option<String>,
    pub allowed_ips: String,
    pub trust_proxy: bool,
    pub read_consistency_linearizable: bool,
    pub kms_mode: KmsMode,
    pub kms_key_id: String,
    pub local_master_key_b64: Option<String>,
    pub rotation_poll_secs: u64,
    pub dek_cache_ttl_secs: u64,
    pub kms_max_retries: u32,
    pub kms_rewrap_enabled: bool,
    pub kms_rewrap_poll_secs: u64,
    pub kms_rewrap_max_per_sec: u32,
    pub auth_max_failures: u32,
    pub auth_lockout_secs: i64,
    pub auth_window_secs: i64,
}

#[verifier::ext_equal]
pub struct ConfigView {
    pub node_id: u64,
    pub peers: Map<u64, Seq<char>>,
    pub api_port: u16,
    pub db_path: Seq<char>,
    pub bootstrap_token: Option<Seq<char>>,
    pub allowed_ips: Seq<char>,
    pub trust_proxy: bool,
    pub read_consistency_linearizable: bool,
    pub kms_mode: KmsMode,
    pub kms_key_id: Seq<char>,
    pub local_master_key_b64: Option<Seq<char>>,
    pub rotation_poll_secs: u64,
    pub dek_cache_ttl_secs: u64,
    pub kms_max_retries: u32,
    pub kms_rewrap_enabled: bool,
    pub kms_rewrap_poll_secs: u64,
    pub kms_rewrap_max_per_sec: u32,
    pub auth_max_failures: u32,
    pub auth_lockout_secs: i64,
    pub auth_window_secs: i64,
}

/// The addresses of the peers, by their ids.
pub open spec fn addresses(peers: BTreeMap<u64, String>) -> Map<u64, Seq<char>> {
    peers@.map_values(|addr: String| addr@)
}

impl View for Config {
    type V = ConfigView;

    open spec fn view(&self) -> ConfigView {
        ConfigView {
            node_id: self.node_id,
            peers: addresses(self.peers),
            api_port: self.api_port,
            db_path: self.db_path@,
            bootstrap_token: self.bootstrap_token.deep_view(),
            allowed_ips: self.allowed_ips@,
            trust_proxy: self.trust_proxy,
            read_consistency_linearizable: self.read_consistency_linearizable,
            kms_mode: self.kms_mode,
            kms_key_id: self.kms_key_id@,
            local_master_key_b64: self.local_master_key_b64.deep_view(),
            rotation_poll_secs: self.rotation_poll_secs,
            dek_cache_ttl_secs: self.dek_cache_ttl_secs,
            kms_max_retries: self.kms_max_retries,
            kms_rewrap_enabled: self.kms_rewrap_enabled,
            kms_rewrap_poll_secs: self.kms_rewrap_poll_secs,
            kms_rewrap_max_per_sec: self.kms_rewrap_max_per_sec,
            auth_max_failures: self.auth_max_failures,
            auth_lockout_secs: self.auth_lockout_secs,
            auth_window_secs: self.auth_window_secs,
        }
    }
}

/// What is wrong with a configuration.
#[derive(Debug)]
pub struct ConfigError {
    pub message: String,
}

/// The variables of an environment.
pub type Env = Seq<(Seq<char>, Seq<char>)>;

/// The value of a variable, if it is set; the first counts.
pub open spec fn lookup(env: Env, key: Seq<char>) -> Option<Seq<char>>
    decreases env.len(),
{
    if env.len() == 0 {
        None
    } else if lookup(env.drop_last(), key) is Some {
        lookup(env.drop_last(), key)
    } else if env.last().0 == key {
        Some(env.last().1)
    } else {
        None
    }
}

proof fn lemma_lookup_found(env: Env, n: int, key: Seq<char>)
    requires
        0 <= n <= env.len(),
        lookup(env.take(n), key) is Some,
    ensures
        lookup(env, key) == lookup(env.take(n), key),
    decreases env.len() - n,
{
    if n < env.len() {
        assert(env.take(n + 1).drop_last() =~= env.take(n));
        lemma_lookup_found(env, n + 1, key);
    } else {
        assert(env.take(n) =~= env);
    }
}

fn find_var(vars: &Vec<(String, String)>, key: &str) -> (r: Option<String>)
    ensures
        r.deep_view() == lookup(vars.deep_view(), key@),
{
    let ghost env = vars.deep_view();
    let mut i: usize = 0;
    while i < vars.len()
        invariant
            i <= vars@.len() == env.len(),
            env == vars.deep_view(),
            lookup(env.take(i as int), key@) is None,
        decreases vars@.len() - i,
    {
        proof {
            let next = env.take(i as int + 1);
            assert(next.drop_last() =~= env.take(i as int));
            assert(next.last() == (vars@[i as int].0@, vars@[i as int].1@));
            if vars@[i as int].0@ == key@ {
                lemma_lookup_found(env, i as int + 1, key@);
            }
        }
        if str_eq(vars[i].0.as_str(), key) {
            return Some(vars[i].1.clone());
        }
        i = i + 1;
    }
    assert(env.take(i as int) =~= env);
    None
}

/// The value of a variable, or a default where it is not set.
pub open spec fn or_default(env: Env, key: Seq<char>, default: Seq<char>) -> Seq<char> {
    match lookup(env, key) {
        Some(value) => value,
        None => default,
    }
}

fn env_or(vars: &Vec<(String, String)>, key: &str, default: &str) -> (r: String)
    ensures
        r@ == or_default(vars.deep_view(), key@, default@),
{
    match find_var(vars, key) {
        Some(value) => value,
        None => default.to_owned(),
    }
}

/// The value of a variable, unless it is not set or empty.
pub open spec fn nonempty(env: Env, key: Seq<char>) -> Option<Seq<char>> {
    match lookup(env, key) {
        Some(value) => if value.len() > 0 {
            Some(value)
        } else {
            None
        },
        None => None,
    }
}

fn env_opt(vars: &Vec<(String, String)>, key: &str) -> (r: Option<String>)
    ensures
        r.deep_view() == nonempty(vars.deep_view(), key@),
{
    match find_var(vars, key) {
        Some(value) => if value.as_str().is_empty() {
            None
        } else {
            Some(value)
        },
        None => None,
    }
}

/// What lower case is by the rules of Unicode.
pub uninterp spec fn lowercased(text: Seq<char>) -> Seq<char>;

/// A character of the ASCII range in lower case.
pub open spec fn ascii_lower(c: char) -> char {
    if 'A' <= c <= 'Z' {
        (c as u32 + 32) as char
    } else {
        c
    }
}

/// Whether text is within the ASCII range.
pub open spec fn ascii_text(text: Seq<char>) -> bool {
    forall|i: int| 0 <= i < text.len() ==> (#[trigger] text[i] as u32) < 128
}

/// `str::to_lowercase` puts text into lower case by the rules of Unicode, a function of the text;
/// of ASCII text it changes the letters `A` to `Z` only.
#[verifier::external_body]
fn to_lowercase(text: &str) -> (r: String)
    ensures
        r@ == lowercased(text@),
        ascii_text(text@) ==> r@ == text@.map_values(|c: char| ascii_lower(c)),
{
    text.to_lowercase()
}

/// Text in lower case: letter by letter for ASCII text, by the rules of Unicode for other text.
pub open spec fn lower_case(text: Seq<char>) -> Seq<char> {
    if ascii_text(text) {
        text.map_values(|c: char| ascii_lower(c))
    } else {
        lowercased(text)
    }
}

/// Whether text in lower case means yes.
pub open spec fn affirmative(text: Seq<char>) -> bool {
    text == "1"@ || text == "true"@ || text == "yes"@ || text == "on"@
}

/// Whether text in lower case means yes.
pub fn is_affirmative(text: &str) -> (r: bool)
    ensures
        r == affirmative(text@),
{
    str_eq(text, "1") || str_eq(text, "true") || str_eq(text, "yes") || str_eq(text, "on")
}

pub fn parse_bool(value: &str) -> (r: bool)
    ensures
        r == affirmative(lower_case(value@)),
{
    let text = to_lowercase(value);
    is_affirmative(text.as_str())
}

/// The mode that text in lower case names, or what is wrong with it.
pub open spec fn mode_named(text: Seq<char>) -> Result<KmsMode, Seq<char>> {
    if text == "aws"@ {
        Ok(KmsMode::Aws)
    } else if text == "local"@ {
        Ok(KmsMode::Local)
    } else {
        Err("VAULT_KMS_MODE must be 'aws' or 'local', got '"@ + text + "'"@)
    }
}

/// The mode that text in lower case names.
pub fn parse_mode(text: &str) -> (r: Result<KmsMode, ConfigError>)
    ensures
        match mode_named(text@) {
            Ok(mode) => r == Ok::<KmsMode, ConfigError>(mode),
            Err(message) => r matches Err(e) && e.message@ == message,
        },
{
    if str_eq(text, "aws") {
        Ok(KmsMode::Aws)
    } else if str_eq(text, "local") {
        Ok(KmsMode::Local)
    } else {
        Err(
            ConfigError {
                message: concat3("VAULT_KMS_MODE must be 'aws' or 'local', got '", text, "'"),
            },
        )
    }
}

/// The text before the first `sep`, and the text after it.
pub open spec fn cut(text: Seq<char>, sep: char) -> Option<(Seq<char>, Seq<char>)> {
    if text.contains(sep) {
        let at = text.index_of_first(sep)->0;
        Some((text.take(at), text.skip(at + 1)))
    } else {
        None
    }
}

proof fn lemma_cut(text: Seq<char>, sep: char, head: Seq<char>, tail: Seq<char>)
    requires
        text == head + seq![sep] + tail,
        !head.contains(sep),
    ensures
        cut(text, sep) == Some((head, tail)),
{
    let n = head.len() as int;
    assert(text[n] == sep);
    text.index_of_first_ensures(sep);
    let at = text.index_of_first(sep)->0;
    if at < n {
        assert(head[at] == sep);
        assert(head.contains(sep));
    }
    assert(at == n);
    assert(text.take(at) =~= head);
    assert(text.skip(at + 1) =~= tail);
}

/// A peer: an id and an address, or what is wrong with the entry.
pub open spec fn peer_of(entry: Seq<char>) -> Result<(u64, Seq<char>), Seq<char>> {
    match cut(entry, '=') {
        None => Err("VAULT_PEERS entry '"@ + entry + "' must be 'id=host:port'"@),
        Some((id, addr)) => match parsed_unsigned(trimmed(id), u64::MAX as nat) {
            None => Err("VAULT_PEERS id '"@ + id + "' must be an integer"@),
            Some(number) => if trimmed(addr).len() == 0 {
                Err("VAULT_PEERS entry '"@ + entry + "' has an empty address"@)
            } else {
                Ok((number as u64, trimmed(addr)))
            },
        },
    }
}

/// The peers that entries name, blank entries left out and later ones replacing earlier ones of
/// the same id, or what is wrong with the first bad entry.
pub open spec fn peers_of(pieces: Seq<Seq<char>>) -> Result<Map<u64, Seq<char>>, Seq<char>>
    decreases pieces.len(),
{
    if pieces.len() == 0 {
        Ok(Map::empty())
    } else {
        match peers_of(pieces.drop_last()) {
            Err(message) => Err(message),
            Ok(peers) => {
                let entry = trimmed(pieces.last());
                if entry.len() == 0 {
                    Ok(peers)
                } else {
                    match peer_of(entry) {
                        Ok((id, addr)) => Ok(peers.insert(id, addr)),
                        Err(message) => Err(message),
                    }
                }
            },
        }
    }
}

proof fn lemma_first_bad_peer(pieces: Seq<Seq<char>>, n: int)
    requires
        0 <= n <= pieces.len(),
        peers_of(pieces.take(n)) is Err,
    ensures
        peers_of(pieces) == peers_of(pieces.take(n)),
    decreases pieces.len() - n,
{
    if n < pieces.len() {
        assert(pieces.take(n + 1).drop_last() =~= pieces.take(n));
        lemma_first_bad_peer(pieces, n + 1);
    } else {
        assert(pieces.take(n) =~= pieces);
    }
}

fn parse_peer(entry: &str) -> (r: Result<(u64, String), ConfigError>)
    ensures
        match peer_of(entry@) {
            Ok((id, addr)) => r matches Ok(peer) && peer.0 == id && peer.1@ == addr,
            Err(message) => r matches Err(e) && e.message@ == message,
        },
{
    match split_once(entry, '=') {
        None => Err(
            ConfigError {
                message: concat3("VAULT_PEERS entry '", entry, "' must be 'id=host:port'"),
            },
        ),
        Some((id, addr)) => {
            proof {
                lemma_cut(entry@, '=', id@, addr@);
            }
            let number = trim(id.as_str());
            match parse_unsigned(number.as_str(), u64::MAX) {
                None => Err(
                    ConfigError {
                        message: concat3("VAULT_PEERS id '", id.as_str(), "' must be an integer"),
                    },
                ),
                Some(number) => {
                    let addr = trim(addr.as_str());
                    if addr.as_str().is_empty() {
                        Err(
                            ConfigError {
                                message: concat3(
                                    "VAULT_PEERS entry '",
                                    entry,
                                    "' has an empty address",
                                ),
                            },
                        )
                    } else {
                        Ok((number, addr))
                    }
                },
            }
        },
    }
}

/// Parses the map of the cluster.
pub fn parse_peers(raw: &str) -> (r: Result<BTreeMap<u64, String>, ConfigError>)
    ensures
        match peers_of(split_by(raw@, ',')) {
            Ok(peers) => r matches Ok(map) && addresses(map) == peers,
            Err(message) => r matches Err(e) && e.message@ == message,
        },
{
    let pieces = split(raw, ',');
    let ghost all = split_by(raw@, ',');
    let mut peers: BTreeMap<u64, String> = BTreeMap::new();
    let mut i: usize = 0;
    assert(all.take(0) =~= Seq::empty());
    assert(addresses(peers) =~= Map::empty());
    while i < pieces.len()
        invariant
            i <= pieces@.len() == all.len(),
            all == split_by(raw@, ','),
            views(pieces@) == all,
            peers_of(all.take(i as int)) == Ok::<Map<u64, Seq<char>>, Seq<char>>(
                addresses(peers),
            ),
        decreases pieces@.len() - i,
    {
        proof {
            let next = all.take(i as int + 1);
            assert(next.drop_last() =~= all.take(i as int));
            assert(next.last() == views(pieces@)[i as int]);
            if peers_of(next) is Err {
                lemma_first_bad_peer(all, i as int + 1);
            }
        }
        let entry = trim(pieces[i].as_str());
        if !entry.as_str().is_empty() {
            match parse_peer(entry.as_str()) {
                Ok((id, addr)) => {
                    let ghost before = peers;
                    peers.insert(id, addr);
                    assert(addresses(peers) =~= addresses(before).insert(id, addr@));
                },
                Err(error) => return Err(error),
            }
        }
        i = i + 1;
    }
    assert(all.take(i as int) =~= all);
    Ok(peers)
}

/// An unsigned number in the environment.
pub open spec fn unsigned_var(env: Env, key: Seq<char>, default: Seq<char>, max: nat) -> Option<nat> {
    parsed_unsigned(or_default(env, key, default), max)
}

/// A signed number in the environment.
pub open spec fn signed_var(env: Env, key: Seq<char>, default: Seq<char>) -> Option<int> {
    parsed_i64(or_default(env, key, default))
}

/// The mode that the environment names.
pub open spec fn mode_var(env: Env) -> Result<KmsMode, Seq<char>> {
    mode_named(lower_case(or_default(env, "VAULT_KMS_MODE"@, "aws"@)))
}

/// The configuration that an environment describes, or the first thing that is wrong with it.
pub open spec fn config_of(env: Env) -> Result<ConfigView, Seq<char>> {
    let node_id = unsigned_var(env, "NODE_ID"@, "1"@, u64::MAX as nat);
    let peers = peers_of(split_by(or_default(env, "VAULT_PEERS"@, ""@), ','));
    let port = unsigned_var(env, "VAULT_API_PORT"@, "8200"@, u16::MAX as nat);
    let mode = mode_var(env);
    let key_id = or_default(env, "VAULT_KMS_KEY_ID"@, ""@);
    if node_id is None {
        Err("NODE_ID must be a positive integer"@)
    } else if node_id->0 == 0 {
        Err("NODE_ID must be >= 1"@)
    } else if peers is Err {
        Err(peers->Err_0)
    } else if port is None {
        Err("VAULT_API_PORT must be a port number"@)
    } else if mode is Err {
        Err(mode->Err_0)
    } else if mode->Ok_0 == KmsMode::Aws && key_id.len() == 0 {
        Err("VAULT_KMS_KEY_ID is required when VAULT_KMS_MODE=aws"@)
    } else if unsigned_var(env, "VAULT_ROTATION_POLL_SECS"@, "15"@, u64::MAX as nat) is None {
        Err("VAULT_ROTATION_POLL_SECS must be an integer"@)
    } else if unsigned_var(env, "VAULT_DEK_CACHE_TTL_SECS"@, "300"@, u64::MAX as nat) is None {
        Err("VAULT_DEK_CACHE_TTL_SECS must be an integer (seconds; 0 disables)"@)
    } else if unsigned_var(env, "VAULT_KMS_MAX_RETRIES"@, "5"@, u32::MAX as nat) is None {
        Err("VAULT_KMS_MAX_RETRIES must be an integer (0 disables retries)"@)
    } else if unsigned_var(env, "VAULT_KMS_REWRAP_POLL_SECS"@, "86400"@, u64::MAX as nat) is None {
        Err("VAULT_KMS_REWRAP_POLL_SECS must be an integer (seconds)"@)
    } else if unsigned_var(env, "VAULT_KMS_REWRAP_MAX_PER_SEC"@, "10"@, u32::MAX as nat) is None {
        Err("VAULT_KMS_REWRAP_MAX_PER_SEC must be an integer (0 disables pacing)"@)
    } else if unsigned_var(env, "VAULT_AUTH_MAX_FAILURES"@, "5"@, u32::MAX as nat) is None {
        Err("VAULT_AUTH_MAX_FAILURES must be an integer (0 disables lockout)"@)
    } else if signed_var(env, "VAULT_AUTH_LOCKOUT_SECS"@, "900"@) is None {
        Err("VAULT_AUTH_LOCKOUT_SECS must be an integer (seconds a lockout lasts)"@)
    } else if signed_var(env, "VAULT_AUTH_WINDOW_SECS"@, "300"@) is None {
        Err("VAULT_AUTH_WINDOW_SECS must be an integer (failure accumulation window)"@)
    } else {
        Ok(
            ConfigView {
                node_id: node_id->0 as u64,
                peers: peers->Ok_0,
                api_port: port->0 as u16,
                db_path: or_default(env, "VAULT_DB_PATH"@, "vault.redb"@),
                bootstrap_token: nonempty(env, "VAULT_BOOTSTRAP_TOKEN"@),
                allowed_ips: or_default(env, "VAULT_ALLOWED_IPS"@, ""@),
                trust_proxy: affirmative(
                    lower_case(or_default(env, "VAULT_TRUST_PROXY"@, "false"@)),
                ),
                read_consistency_linearizable: lower_case(
                    or_default(env, "VAULT_READ_CONSISTENCY"@, "local"@),
                ) == "linearizable"@,
                kms_mode: mode->Ok_0,
                kms_key_id: key_id,
                local_master_key_b64: nonempty(env, "VAULT_LOCAL_MASTER_KEY"@),
                kms_rewrap_enabled: affirmative(
                    lower_case(or_default(env, "VAULT_KMS_REWRAP_ENABLED"@, "false"@)),
                ),
                rotation_poll_secs: unsigned_var(env, "VAULT_ROTATION_POLL_SECS"@, "15"@, u64::MAX as nat)->0 as u64,
                dek_cache_ttl_secs: unsigned_var(env, "VAULT_DEK_CACHE_TTL_SECS"@, "300"@, u64::MAX as nat)->0 as u64,
                kms_max_retries: unsigned_var(env, "VAULT_KMS_MAX_RETRIES"@, "5"@, u32::MAX as nat)->0 as u32,
                kms_rewrap_poll_secs: unsigned_var(env, "VAULT_KMS_REWRAP_POLL_SECS"@, "86400"@, u64::MAX as nat)->0 as u64,
                kms_rewrap_max_per_sec: unsigned_var(env, "VAULT_KMS_REWRAP_MAX_PER_SEC"@, "10"@, u32::MAX as nat)->0 as u32,
                auth_max_failures: unsigned_var(env, "VAULT_AUTH_MAX_FAILURES"@, "5"@, u32::MAX as nat)->0 as u32,
                auth_lockout_secs: signed_var(env, "VAULT_AUTH_LOCKOUT_SECS"@, "900"@)->0 as i64,
                auth_window_secs: signed_var(env, "VAULT_AUTH_WINDOW_SECS"@, "300"@)->0 as i64,
            },
        )
    }
}

fn config_error(message: &str) -> (r: ConfigError)
    ensures
        r.message@ == message@,
{
    ConfigError { message: message.to_owned() }
}

impl Config {
    /// The configuration that the given variables describe.
    pub fn from_env(vars: &Vec<(String, String)>) -> (r: Result<Self, ConfigError>)
        ensures
            match config_of(vars.deep_view()) {
                Ok(config) => r matches Ok(c) && c@ == config,
                Err(message) => r matches Err(e) && e.message@ == message,
            },
    {
        let node_id = match parse_unsigned(env_or(vars, "NODE_ID", "1").as_str(), u64::MAX) {
            Some(n) => n,
            None => return Err(config_error("NODE_ID must be a positive integer")),
        };
        if node_id == 0 {
            return Err(config_error("NODE_ID must be >= 1"));
        }
        let peers = match parse_peers(env_or(vars, "VAULT_PEERS", "").as_str()) {
            Ok(peers) => peers,
            Err(error) => return Err(error),
        };
        let api_port: u16 = match parse_unsigned(
            env_or(vars, "VAULT_API_PORT", "8200").as_str(),
            0xffff,
        ) {
            Some(n) => n as u16,
            None => return Err(config_error("VAULT_API_PORT must be a port number")),
        };
        let mode_text = to_lowercase(env_or(vars, "VAULT_KMS_MODE", "aws").as_str());
        let kms_mode = match parse_mode(mode_text.as_str()) {
            Ok(mode) => mode,
            Err(error) => return Err(error),
        };
        let kms_key_id = env_or(vars, "VAULT_KMS_KEY_ID", "");
        if kms_mode == KmsMode::Aws && kms_key_id.as_str().is_empty() {
            return Err(config_error("VAULT_KMS_KEY_ID is required when VAULT_KMS_MODE=aws"));
        }
        let rotation_poll_secs: u64 = match parse_unsigned(env_or(vars, "VAULT_ROTATION_POLL_SECS", "15").as_str(), u64::MAX) {
            Some(n) => n,
            None => return Err(config_error("VAULT_ROTATION_POLL_SECS must be an integer")),
        };
        let dek_cache_ttl_secs: u64 = match parse_unsigned(env_or(vars, "VAULT_DEK_CACHE_TTL_SECS", "300").as_str(), u64::MAX) {
            Some(n) => n,
            None => return Err(config_error("VAULT_DEK_CACHE_TTL_SECS must be an integer (seconds; 0 disables)")),
        };
        let kms_max_retries: u32 = match parse_unsigned(env_or(vars, "VAULT_KMS_MAX_RETRIES", "5").as_str(), 0xffff_ffff) {
            Some(n) => n as u32,
            None => return Err(config_error("VAULT_KMS_MAX_RETRIES must be an integer (0 disables retries)")),
        };
        let kms_rewrap_poll_secs: u64 = match parse_unsigned(env_or(vars, "VAULT_KMS_REWRAP_POLL_SECS", "86400").as_str(), u64::MAX) {
            Some(n) => n,
            None => return Err(config_error("VAULT_KMS_REWRAP_POLL_SECS must be an integer (seconds)")),
        };
        let kms_rewrap_max_per_sec: u32 = match parse_unsigned(env_or(vars, "VAULT_KMS_REWRAP_MAX_PER_SEC", "10").as_str(), 0xffff_ffff) {
            Some(n) => n as u32,
            None => return Err(config_error("VAULT_KMS_REWRAP_MAX_PER_SEC must be an integer (0 disables pacing)")),
        };
        let auth_max_failures: u32 = match parse_unsigned(env_or(vars, "VAULT_AUTH_MAX_FAILURES", "5").as_str(), 0xffff_ffff) {
            Some(n) => n as u32,
            None => return Err(config_error("VAULT_AUTH_MAX_FAILURES must be an integer (0 disables lockout)")),
        };
        let auth_lockout_secs: i64 = match parse_i64(env_or(vars, "VAULT_AUTH_LOCKOUT_SECS", "900").as_str()) {
            Some(n) => n,
            None => return Err(config_error("VAULT_AUTH_LOCKOUT_SECS must be an integer (seconds a lockout lasts)")),
        };
        let auth_window_secs: i64 = match parse_i64(env_or(vars, "VAULT_AUTH_WINDOW_SECS", "300").as_str()) {
            Some(n) => n,
            None => return Err(config_error("VAULT_AUTH_WINDOW_SECS must be an integer (failure accumulation window)")),
        };
        let consistency = to_lowercase(env_or(vars, "VAULT_READ_CONSISTENCY", "local").as_str());
        Ok(
            Config {
                node_id,
                peers,
                api_port,
                db_path: env_or(vars, "VAULT_DB_PATH", "vault.redb"),
                bootstrap_token: env_opt(vars, "VAULT_BOOTSTRAP_TOKEN"),
                allowed_ips: env_or(vars, "VAULT_ALLOWED_IPS", ""),
                trust_proxy: parse_bool(env_or(vars, "VAULT_TRUST_PROXY", "false").as_str()),
                read_consistency_linearizable: str_eq(consistency.as_str(), "linearizable"),
                kms_mode,
                kms_key_id,
                local_master_key_b64: env_opt(vars, "VAULT_LOCAL_MASTER_KEY"),
                rotation_poll_secs,
                dek_cache_ttl_secs,
                kms_max_retries,
                kms_rewrap_enabled: parse_bool(
                    env_or(vars, "VAULT_KMS_REWRAP_ENABLED", "false").as_str(),
                ),
                kms_rewrap_poll_secs,
                kms_rewrap_max_per_sec,
                auth_max_failures,
                auth_lockout_secs,
                auth_window_secs,
            },
        )
    }

    /// The address of a peer.
    pub fn peer_addr(&self, id: u64) -> (r: Option<&str>)
        ensures
            match r {
                Some(addr) => self@.peers.contains_key(id) && addr@ == self@.peers[id],
                None => !self@.peers.contains_key(id),
            },
    {
        match self.peers.get(&id) {
            Some(addr) => Some(addr.as_str()),
            None => None,
        }
    }

    /// The node's own address.
    pub fn self_addr(&self) -> (r: Option<&str>)
        ensures
            match r {
                Some(addr) => self@.peers.contains_key(self@.node_id) && addr@
                    == self@.peers[self@.node_id],
                None => !self@.peers.contains_key(self@.node_id),
            },
    {
        self.peer_addr(self.node_id)
    }
}

} // verus!
