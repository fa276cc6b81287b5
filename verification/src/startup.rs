//! What a node decides when it starts.

use vstd::prelude::*;
use crate::auth::{fingerprint, fingerprint_of};
use crate::config::{Config, ConfigError};
use crate::ip_allowlist::{entries_parsed, IpAllowlist};
use crate::store::apply::{apply_command, outcome};
use crate::store::model::{Command, CommandView, TokenRecord, TokenView};
use crate::store::tables::{differ_only_in, RowRef, StoreView, Tables};
use crate::text::{
    clone_bytes, concat3, decimal, format_u64, parse_unsigned, parsed_unsigned, rsplit_once,
    split_by,
};

verus! {

/// The addresses that may read, or why they cannot be told from the configuration.
pub fn read_allowlist(cfg: &Config) -> (r: Result<IpAllowlist, ConfigError>)
    ensures
        match entries_parsed(split_by(cfg.allowed_ips@, ',')) {
            Ok(nets) => r matches Ok(list) && list@ == nets,
            Err(entry) => r matches Err(e) && e.message@ == "VAULT_ALLOWED_IPS is invalid"@,
        },
{
    match IpAllowlist::parse(cfg.allowed_ips.as_str()) {
        Ok(list) => Ok(list),
        Err(_) => Err(ConfigError { message: "VAULT_ALLOWED_IPS is invalid".to_owned() }),
    }
}

/// The record of the bootstrap token.
pub open spec fn bootstrap_record(token: Seq<char>, now: i64) -> TokenView {
    TokenView {
        name: "bootstrap-admin"@,
        role: Some("admin"@),
        fingerprint: fingerprint_of(token),
        created_at: now,
        last_used_at: None,
        revoked_at: None,
    }
}

/// A state after seeding the bootstrap token: it is added unless the token is known already or
/// its name is taken.
pub open spec fn bootstrapped(state: StoreView, node_id: u64, token: Seq<char>, now: i64) -> StoreView {
    if state.tokens.contains_key(fingerprint_of(token)) {
        state
    } else {
        match outcome(
            state,
            node_id,
            CommandView::AddToken { token: bootstrap_record(token, now) },
        ) {
            Ok(after) => after,
            Err(_) => state,
        }
    }
}

/// Adds the bootstrap token unless it is known already or its name is taken; names the rows that
/// changed.
pub fn seed_bootstrap_token(tables: &mut Tables, node_id: u64, token: &str, now: i64) -> (r: Vec<
    RowRef,
>)
    ensures
        final(tables)@ == bootstrapped(old(tables)@, node_id, token@, now),
        differ_only_in(old(tables)@, final(tables)@, r@),
{
    let print_bytes = fingerprint(token);
    let print = clone_bytes(&print_bytes);
    if tables.tokens.contains(&print) {
        return Vec::new();
    }
    let record = TokenRecord {
        name: "bootstrap-admin".to_owned(),
        role: Some("admin".to_owned()),
        fingerprint: print,
        created_at: now,
        last_used_at: None,
        revoked_at: None,
    };
    let command = Command::AddToken { token: record };
    match apply_command(tables, node_id, &command) {
        Ok(rows) => rows,
        Err(_) => Vec::new(),
    }
}

/// Whether a node is part of a cluster: the configuration lists more than one peer.
pub fn clustered(cfg: &Config) -> (r: bool)
    ensures
        cfg@.peers.dom().finite(),
        r == (cfg@.peers.dom().len() > 1),
{
    assert(cfg@.peers.dom() =~= cfg.peers@.dom());
    cfg.peers.len() > 1
}

/// What is said where a node is not among its peers.
pub open spec fn not_a_peer(node_id: u64) -> Seq<char> {
    "NODE_ID "@ + decimal(node_id as int) + " is not present in VAULT_PEERS"@
}

fn not_a_peer_error(node_id: u64) -> (r: ConfigError)
    ensures
        r.message@ == not_a_peer(node_id),
{
    let number = format_u64(node_id);
    ConfigError { message: concat3("NODE_ID ", number.as_str(), " is not present in VAULT_PEERS") }
}

/// Checks that a node of a cluster is among its peers.
pub fn check_identity(cfg: &Config) -> (r: Result<(), ConfigError>)
    ensures
        if cfg@.peers.dom().len() > 1 && !cfg@.peers.contains_key(cfg@.node_id) {
            r matches Err(e) && e.message@ == not_a_peer(cfg@.node_id)
        } else {
            r is Ok
        },
{
    if clustered(cfg) && cfg.self_addr().is_none() {
        return Err(not_a_peer_error(cfg.node_id));
    }
    Ok(())
}

/// What follows the last colon, or all of the text where it has none.
pub open spec fn after_last_colon(text: Seq<char>) -> Seq<char>
    decreases text.len(),
{
    if text.len() == 0 || text.last() == ':' {
        Seq::empty()
    } else {
        after_last_colon(text.drop_last()).push(text.last())
    }
}

pub proof fn lemma_after_last_colon(head: Seq<char>, tail: Seq<char>)
    requires
        !tail.contains(':'),
    ensures
        after_last_colon(head + seq![':'] + tail) == tail,
        after_last_colon(tail) == tail,
    decreases tail.len(),
{
    let whole = head + seq![':'] + tail;
    if tail.len() > 0 {
        let front = tail.drop_last();
        assert(!front.contains(':')) by {
            if front.contains(':') {
                let i = front.index_of(':');
                assert(tail[i] == ':');
            }
        }
        lemma_after_last_colon(head, front);
        assert(tail[tail.len() - 1] == tail.last());
        assert(whole.drop_last() =~= head + seq![':'] + front);
        assert(tail =~= front.push(tail.last()));
    } else {
        assert(tail =~= Seq::empty());
        assert(whole.last() == ':');
    }
}

/// The port at the end of an address.
pub fn port_of(addr: &str) -> (r: Option<u16>)
    ensures
        match r {
            Some(port) => parsed_unsigned(after_last_colon(addr@), u16::MAX as nat) == Some(
                port as nat,
            ),
            None => parsed_unsigned(after_last_colon(addr@), u16::MAX as nat) is None,
        },
{
    let tail = match rsplit_once(addr, ':') {
        Some((head, tail)) => {
            proof {
                lemma_after_last_colon(head@, tail@);
            }
            tail
        },
        None => {
            proof {
                lemma_after_last_colon(Seq::empty(), addr@);
            }
            addr.to_owned()
        },
    };
    match parse_unsigned(tail.as_str(), 0xffff) {
        Some(n) => Some(n as u16),
        None => None,
    }
}

/// The port on which a node of a cluster listens for its peers.
pub fn raft_listen_port(cfg: &Config) -> (r: Result<u16, ConfigError>)
    ensures
        if !cfg@.peers.contains_key(cfg@.node_id) {
            r matches Err(e) && e.message@ == not_a_peer(cfg@.node_id)
        } else {
            let addr = cfg@.peers[cfg@.node_id];
            match parsed_unsigned(after_last_colon(addr), u16::MAX as nat) {
                Some(port) => r matches Ok(p) && p == port,
                None => r matches Err(e) && e.message@ == "VAULT_PEERS address '"@ + addr
                    + "' must be host:port"@,
            }
        },
{
    match cfg.self_addr() {
        None => Err(not_a_peer_error(cfg.node_id)),
        Some(addr) => match port_of(addr) {
            Some(port) => Ok(port),
            None => Err(
                ConfigError {
                    message: concat3("VAULT_PEERS address '", addr, "' must be host:port"),
                },
            ),
        },
    }
}

} // verus!
