//! Changing the password of a Postgres role on whichever of its servers is the primary.

use vstd::prelude::*;
use crate::cursor::Cursor;
use crate::startup::{after_last_colon, port_of};
use crate::store::model::{clone_texts, PgRoleTarget};
use crate::text::{concat, decimal, format_u64, parsed_unsigned, push_str, rsplit_once, views};

verus! {

/// What stands before the last colon, or all of the text where it has none.
pub open spec fn before_last_colon(text: Seq<char>) -> Seq<char> {
    if text.contains(':') {
        text.take(text.len() - after_last_colon(text).len() - 1)
    } else {
        text
    }
}

/// The port of a server: the number behind the last colon, or the default one.
pub open spec fn port_or_default(text: Seq<char>) -> u16 {
    if text.contains(':') {
        match parsed_unsigned(after_last_colon(text), u16::MAX as nat) {
            Some(port) => port as u16,
            None => 5432,
        }
    } else {
        5432
    }
}

/// The host and the port of a server.
pub fn split_hostport(hostport: &str) -> (r: (String, u16))
    ensures
        r.0@ == before_last_colon(hostport@),
        r.1 == port_or_default(hostport@),
{
    match rsplit_once(hostport, ':') {
        Some((host, port)) => {
            proof {
                crate::startup::lemma_after_last_colon(host@, port@);
                assert(hostport@[host@.len() as int] == ':');
                assert(hostport@.take(host@.len() as int) =~= host@);
            }
            let number: u16 = match port_of(hostport) {
                Some(n) => n,
                None => 5432,
            };
            (host, number)
        },
        None => (hostport.to_owned(), 5432),
    }
}

/// The parameters of a connection.
pub open spec fn connection_of(
    host: Seq<char>,
    port: u16,
    database: Seq<char>,
    user: Seq<char>,
    password: Seq<char>,
) -> Seq<char> {
    "host="@ + host + " port="@ + decimal(port as int) + " dbname="@ + database + " user="@ + user
        + " password="@ + password + " connect_timeout=3"@
}

pub fn connection_string(host: &str, port: u16, database: &str, user: &str, password: &str) -> (r:
    String)
    ensures
        r@ == connection_of(host@, port, database@, user@, password@),
{
    let mut out = concat("host=", host);
    push_str(&mut out, " port=");
    push_str(&mut out, format_u64(port as u64).as_str());
    push_str(&mut out, " dbname=");
    push_str(&mut out, database);
    push_str(&mut out, " user=");
    push_str(&mut out, user);
    push_str(&mut out, " password=");
    push_str(&mut out, password);
    push_str(&mut out, " connect_timeout=3");
    out
}

/// What came of trying a server.
pub enum Attempt {
    Changed,
    NotPrimary,
    Failed(String),
}

/// The servers still to be tried, and the last failure.
pub struct Attempts {
    hosts: Cursor<String>,
    last_error: Option<String>,
}

/// The text that `{:?}` writes for a list of texts.
pub uninterp spec fn debug_list(texts: Seq<Seq<char>>) -> Seq<char>;

/// `format!` with `{:?}` writes a list of texts as a function of the texts.
#[verifier::external_body]
fn format_debug_list(texts: &Vec<String>) -> (r: String)
    ensures
        r@ == debug_list(views(texts@)),
{
    format!("{:?}", texts)
}

/// What is said where no server was the primary.
pub open spec fn no_primary(hosts: Seq<Seq<char>>) -> Seq<char> {
    "no writable primary among pg_replica nodes "@ + debug_list(hosts)
}

/// What is said where no server took the change: the last failure, or that none was the primary.
pub fn failure_message(hosts_text: &str, last_error: Option<String>) -> (r: String)
    ensures
        r@ == match last_error {
            Some(error) => error@,
            None => "no writable primary among pg_replica nodes "@ + hosts_text@,
        },
{
    match last_error {
        Some(error) => error,
        None => concat("no writable primary among pg_replica nodes ", hosts_text),
    }
}

/// Starts with the first server of a target, which must have one.
pub fn begin_apply(target: &PgRoleTarget) -> (r: Result<Attempts, String>)
    ensures
        if target.hosts@.len() == 0 {
            r matches Err(e) && e@ == "pg_replica target has no hosts"@
        } else {
            r matches Ok(attempts) && attempts.hosts() == target.hosts.deep_view()
                && attempts.done() == 0 && attempts.last_error() is None
        },
{
    if target.hosts.len() == 0 {
        return Err("pg_replica target has no hosts".to_owned());
    }
    let hosts = clone_texts(&target.hosts);
    assert(views(hosts@) =~= target.hosts.deep_view());
    Ok(Attempts { hosts: Cursor::new(hosts), last_error: None })
}

impl Attempts {
    /// All servers of the target.
    pub closed spec fn hosts(self) -> Seq<Seq<char>> {
        views(self.hosts.items())
    }

    /// How many of the servers were tried.
    pub closed spec fn done(self) -> int {
        self.hosts.done()
    }

    /// The last failure.
    pub closed spec fn last_error(self) -> Option<Seq<char>> {
        self.last_error.deep_view()
    }

    /// The server to try next, if one is left.
    pub fn current(&self) -> (r: Option<&String>)
        ensures
            match r {
                Some(host) => 0 <= self.done() < self.hosts().len() && host@
                    == self.hosts()[self.done()],
                None => self.done() == self.hosts().len(),
            },
    {
        self.hosts.current()
    }

    /// Takes in what came of trying the current server; tells whether the change is done. A server
    /// that is not the primary, or that failed, is followed by the next.
    pub fn note(&mut self, attempt: Attempt) -> (r: bool)
        ensures
            final(self).hosts() == old(self).hosts(),
            r == (attempt is Changed),
            final(self).done() == if attempt is Changed || old(self).done()
                == old(self).hosts().len() {
                old(self).done()
            } else {
                old(self).done() + 1
            },
            final(self).last_error() == match attempt {
                Attempt::Failed(error) => Some(error@),
                _ => old(self).last_error(),
            },
    {
        match attempt {
            Attempt::Changed => true,
            Attempt::NotPrimary => {
                self.hosts.advance();
                false
            },
            Attempt::Failed(error) => {
                self.last_error = Some(error);
                self.hosts.advance();
                false
            },
        }
    }

    /// What is said when no server took the change.
    pub fn into_error(self) -> (r: String)
        ensures
            r@ == match self.last_error() {
                Some(error) => error,
                None => no_primary(self.hosts()),
            },
    {
        let hosts_text = format_debug_list(self.hosts.all());
        failure_message(hosts_text.as_str(), self.last_error)
    }
}

} // verus!
