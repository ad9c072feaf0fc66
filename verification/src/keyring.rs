//! The account credentials kept in the desktop keyring: which secrets are
//! stored, looked up or cleared, in which order, and what the answers mean.
//! Talking to the keyring is left to the caller.

use vstd::prelude::*;
use crate::listing::string_views;
use crate::text::{to_chars, trim_whitespace, trim_ws};
use crate::webdav::concat_str;
use crate::urlcode::{lossy_decode, lossy_string};

verus! {

/// The credentials of the Nextcloud account.
#[derive(Debug, Clone)]
pub struct Credentials {
    pub server_url: String,
    pub username: String,
    pub app_password: String,
}

/// One operation on the keyring.
#[derive(Debug)]
pub enum SecretOp {
    /// Store `value` under `attribute`, labelled `label`.
    Store { attribute: String, label: String, value: String },
    /// Look up the secret stored under `attribute`.
    Lookup { attribute: String },
    /// Remove the secret stored under `attribute`.
    Clear { attribute: String },
}

/// The mathematical content of a [`SecretOp`].
pub enum SecretOpView {
    Store { attribute: Seq<char>, label: Seq<char>, value: Seq<char> },
    Lookup { attribute: Seq<char> },
    Clear { attribute: Seq<char> },
}

impl View for SecretOp {
    type V = SecretOpView;

    open spec fn view(&self) -> SecretOpView {
        match self {
            SecretOp::Store { attribute, label, value } => SecretOpView::Store {
                attribute: attribute@,
                label: label@,
                value: value@,
            },
            SecretOp::Lookup { attribute } => SecretOpView::Lookup { attribute: attribute@ },
            SecretOp::Clear { attribute } => SecretOpView::Clear { attribute: attribute@ },
        }
    }
}

/// The three attributes the credentials are kept under, in order.
pub open spec fn attributes() -> Seq<Seq<char>> {
    seq!["server_url"@, "username"@, "app_password"@]
}

/// The label a secret is stored with.
pub open spec fn label_of(attribute: Seq<char>) -> Seq<char> {
    "SimpleSync "@ + attribute
}

/// A run of keyring operations done in order that stops at the first one
/// that fails: storing or clearing that does not succeed, or a lookup that
/// finds nothing.
#[derive(Debug)]
pub struct SecretSession {
    ops: Vec<SecretOp>,
    next: usize,
    failed: bool,
    found: Vec<String>,
}

impl SecretSession {
    /// The operations, in order.
    pub closed spec fn operations(&self) -> Seq<SecretOpView> {
        self.ops@.map_values(|o: SecretOp| o@)
    }

    /// How many operations have been done.
    pub closed spec fn done(&self) -> int {
        self.next as int
    }

    /// Whether an operation failed.
    pub closed spec fn has_failed(&self) -> bool {
        self.failed
    }

    /// The values the lookups found, in order.
    pub closed spec fn found_values(&self) -> Seq<Seq<char>> {
        string_views(self.found@)
    }

    /// The operation to do next, if the run goes on.
    pub fn next_op(&self) -> (r: Option<&SecretOp>)
        ensures
            match r {
                Some(op) => !self.has_failed() && 0 <= self.done() < self.operations().len() && op@
                    == self.operations()[self.done()],
                None => self.has_failed() || self.done() >= self.operations().len(),
            },
    {
        if self.failed || self.next >= self.ops.len() {
            None
        } else {
            Some(&self.ops[self.next])
        }
    }

    /// Whether the current store or clear operation succeeded.
    pub fn record(&mut self, success: bool)
        requires
            !old(self).has_failed(),
            old(self).done() < old(self).operations().len(),
        ensures
            final(self).operations() == old(self).operations(),
            final(self).found_values() == old(self).found_values(),
            success ==> final(self).done() == old(self).done() + 1 && !final(self).has_failed(),
            !success ==> final(self).done() == old(self).done() && final(self).has_failed(),
    {
        let n = self.ops.len();
        if success {
            self.next = self.next + 1;
        } else {
            self.failed = true;
        }
    }

    /// What the current lookup found (see [`secret_from_lookup`]).
    pub fn record_lookup(&mut self, value: Option<String>)
        requires
            !old(self).has_failed(),
            old(self).done() < old(self).operations().len(),
        ensures
            final(self).operations() == old(self).operations(),
            value matches Some(v) ==> final(self).done() == old(self).done() + 1 && !final(self).has_failed()
                && final(self).found_values() == old(self).found_values().push(v@),
            value is None ==> final(self).done() == old(self).done() && final(self).has_failed()
                && final(self).found_values() == old(self).found_values(),
    {
        let n = self.ops.len();
        match value {
            Some(v) => {
                let ghost before = self.found@;
                self.found.push(v);
                assert(string_views(self.found@) =~= string_views(before).push(v@));
                self.next = self.next + 1;
            },
            None => {
                self.failed = true;
            },
        }
    }

    /// Whether every operation was done without failure.
    pub fn succeeded(&self) -> (r: bool)
        ensures
            r == (!self.has_failed() && self.done() >= self.operations().len()),
    {
        !self.failed && self.next >= self.ops.len()
    }

    /// The credentials the lookups found: all three present and none empty.
    pub fn credentials(&self) -> (r: Option<Credentials>)
        ensures
            match credentials_of(self.found_values(), !self.has_failed() && self.done() >= self.operations().len()) {
                Some((s, u, p)) => r matches Some(c) && c.server_url@ == s && c.username@ == u
                    && c.app_password@ == p,
                None => r is None,
            },
    {
        if self.failed || self.next < self.ops.len() || self.found.len() != 3 {
            return None;
        }
        let s = to_chars(self.found[0].as_str());
        let u = to_chars(self.found[1].as_str());
        let p = to_chars(self.found[2].as_str());
        if s.len() == 0 || u.len() == 0 || p.len() == 0 {
            return None;
        }
        Some(Credentials {
            server_url: self.found[0].clone(),
            username: self.found[1].clone(),
            app_password: self.found[2].clone(),
        })
    }
}

/// The credentials made of the values a completed run of three lookups
/// found, none of them empty.
pub open spec fn credentials_of(found: Seq<Seq<char>>, completed: bool) -> Option<(Seq<char>, Seq<char>, Seq<char>)> {
    if completed && found.len() == 3 && found[0].len() > 0 && found[1].len() > 0 && found[2].len() > 0 {
        Some((found[0], found[1], found[2]))
    } else {
        None
    }
}

fn session(ops: Vec<SecretOp>) -> (r: SecretSession)
    ensures
        r.operations() == ops@.map_values(|o: SecretOp| o@),
        r.done() == 0,
        !r.has_failed(),
        r.found_values().len() == 0,
{
    let r = SecretSession { ops, next: 0, failed: false, found: Vec::new() };
    assert(r.found_values() =~= Seq::<Seq<char>>::empty());
    r
}

fn store_op(attribute: &str, value: &String) -> (r: SecretOp)
    ensures
        r@ == (SecretOpView::Store { attribute: attribute@, label: label_of(attribute@), value: value@ }),
{
    SecretOp::Store {
        attribute: String::from_str(attribute),
        label: concat_str("SimpleSync ", attribute),
        value: value.clone(),
    }
}

/// Storing the credentials: server URL, user name and app password, in this
/// order, each labelled "SimpleSync {attribute}"; the run succeeds when all
/// three are stored.
pub fn store_credentials_sync(creds: &Credentials) -> (r: SecretSession)
    ensures
        r.operations() == seq![
            SecretOpView::Store { attribute: attributes()[0], label: label_of(attributes()[0]), value: creds.server_url@ },
            SecretOpView::Store { attribute: attributes()[1], label: label_of(attributes()[1]), value: creds.username@ },
            SecretOpView::Store { attribute: attributes()[2], label: label_of(attributes()[2]), value: creds.app_password@ },
        ],
        r.done() == 0,
        !r.has_failed(),
        r.found_values().len() == 0,
{
    let mut ops: Vec<SecretOp> = Vec::new();
    ops.push(store_op("server_url", &creds.server_url));
    ops.push(store_op("username", &creds.username));
    ops.push(store_op("app_password", &creds.app_password));
    let r = session(ops);
    assert(r.operations() =~= seq![
        SecretOpView::Store { attribute: attributes()[0], label: label_of(attributes()[0]), value: creds.server_url@ },
        SecretOpView::Store { attribute: attributes()[1], label: label_of(attributes()[1]), value: creds.username@ },
        SecretOpView::Store { attribute: attributes()[2], label: label_of(attributes()[2]), value: creds.app_password@ },
    ]);
    r
}

fn lookups() -> (r: SecretSession)
    ensures
        r.operations() == seq![
            SecretOpView::Lookup { attribute: attributes()[0] },
            SecretOpView::Lookup { attribute: attributes()[1] },
            SecretOpView::Lookup { attribute: attributes()[2] },
        ],
        r.done() == 0,
        !r.has_failed(),
        r.found_values().len() == 0,
{
    let mut ops: Vec<SecretOp> = Vec::new();
    ops.push(SecretOp::Lookup { attribute: String::from_str("server_url") });
    ops.push(SecretOp::Lookup { attribute: String::from_str("username") });
    ops.push(SecretOp::Lookup { attribute: String::from_str("app_password") });
    let r = session(ops);
    assert(r.operations() =~= seq![
        SecretOpView::Lookup { attribute: attributes()[0] },
        SecretOpView::Lookup { attribute: attributes()[1] },
        SecretOpView::Lookup { attribute: attributes()[2] },
    ]);
    r
}

/// Loading the credentials: server URL, user name and app password are
/// looked up in this order; [`SecretSession::credentials`] gives them once
/// all three are found and none is empty.
pub fn load_credentials_sync() -> (r: SecretSession)
    ensures
        r.operations() == seq![
            SecretOpView::Lookup { attribute: attributes()[0] },
            SecretOpView::Lookup { attribute: attributes()[1] },
            SecretOpView::Lookup { attribute: attributes()[2] },
        ],
        r.done() == 0,
        !r.has_failed(),
        r.found_values().len() == 0,
{
    lookups()
}

/// Whether credentials are stored: the same three lookups; the answer is
/// [`SecretSession::succeeded`].
pub fn has_credentials() -> (r: SecretSession)
    ensures
        r.operations() == seq![
            SecretOpView::Lookup { attribute: attributes()[0] },
            SecretOpView::Lookup { attribute: attributes()[1] },
            SecretOpView::Lookup { attribute: attributes()[2] },
        ],
        r.done() == 0,
        !r.has_failed(),
        r.found_values().len() == 0,
{
    lookups()
}

/// Clearing the credentials: the three secrets are removed in order; the
/// run succeeds when all three are removed.
pub fn clear_credentials_sync() -> (r: SecretSession)
    ensures
        r.operations() == seq![
            SecretOpView::Clear { attribute: attributes()[0] },
            SecretOpView::Clear { attribute: attributes()[1] },
            SecretOpView::Clear { attribute: attributes()[2] },
        ],
        r.done() == 0,
        !r.has_failed(),
        r.found_values().len() == 0,
{
    let mut ops: Vec<SecretOp> = Vec::new();
    ops.push(SecretOp::Clear { attribute: String::from_str("server_url") });
    ops.push(SecretOp::Clear { attribute: String::from_str("username") });
    ops.push(SecretOp::Clear { attribute: String::from_str("app_password") });
    let r = session(ops);
    assert(r.operations() =~= seq![
        SecretOpView::Clear { attribute: attributes()[0] },
        SecretOpView::Clear { attribute: attributes()[1] },
        SecretOpView::Clear { attribute: attributes()[2] },
    ]);
    r
}

/// The value of a lookup: what the keyring printed, trimmed, when the
/// lookup succeeded and that is not empty.
pub open spec fn lookup_value(success: bool, output: Seq<char>) -> Option<Seq<char>> {
    if success && trim_ws(output).len() > 0 {
        Some(trim_ws(output))
    } else {
        None
    }
}

/// The value of a lookup from the keyring's answer (see [`lookup_value`]).
pub fn secret_from_lookup(success: bool, output: &str) -> (r: Option<String>)
    ensures
        match lookup_value(success, output@) {
            Some(v) => r matches Some(s) && s@ == v,
            None => r is None,
        },
{
    if !success {
        return None;
    }
    let t = trim_whitespace(output);
    if to_chars(t.as_str()).len() == 0 {
        None
    } else {
        Some(t)
    }
}

/// The value of a lookup from the keyring's exit status and the bytes it
/// printed, read as UTF-8 (invalid sequences replaced).
pub fn secret_from_output(success: bool, output: &[u8]) -> (r: Option<String>)
    ensures
        match lookup_value(success, lossy_decode(output@)) {
            Some(v) => r matches Some(s) && s@ == v,
            None => r is None,
        },
{
    let printed = lossy_string(output);
    secret_from_lookup(success, printed.as_str())
}

/// What is stored comes back: when each lookup gives back, as the keyring
/// prints it, the value stored under the same attribute, and the values are
/// non-empty and without surrounding whitespace, the loaded credentials are
/// the stored ones.
pub proof fn law_load_returns_stored(server: Seq<char>, user: Seq<char>, pass: Seq<char>)
    requires
        server.len() > 0 && user.len() > 0 && pass.len() > 0,
        trim_ws(server) == server,
        trim_ws(user) == user,
        trim_ws(pass) == pass,
    ensures
        lookup_value(true, server) == Some(server),
        lookup_value(true, user) == Some(user),
        lookup_value(true, pass) == Some(pass),
        credentials_of(seq![server, user, pass], true) == Some((server, user, pass)),
{
}


/// A value a lookup gives is never empty.
pub proof fn law_lookup_values_not_empty(success: bool, output: Seq<char>)
    ensures
        lookup_value(success, output) matches Some(v) ==> v.len() > 0,
{
}

/// `has_credentials` and `load_credentials_sync` agree: run on the same
/// answers, the three lookups succeed exactly when the loaded credentials
/// are there. It holds of any session of lookups whose values were found
/// one per lookup done and are not empty, as the values
/// [`secret_from_lookup`] gives are (see [`law_lookup_values_not_empty`]).
pub proof fn law_has_credentials_agrees_with_load(s: SecretSession)
    requires
        s.operations() == seq![
            SecretOpView::Lookup { attribute: attributes()[0] },
            SecretOpView::Lookup { attribute: attributes()[1] },
            SecretOpView::Lookup { attribute: attributes()[2] },
        ],
        s.done() <= s.operations().len(),
        s.found_values().len() == s.done(),
        forall|i: int| 0 <= i < s.found_values().len() ==> (#[trigger] s.found_values()[i]).len() > 0,
    ensures
        (!s.has_failed() && s.done() >= s.operations().len()) <==> credentials_of(
            s.found_values(),
            !s.has_failed() && s.done() >= s.operations().len(),
        ) is Some,
{
    if !s.has_failed() && s.done() >= s.operations().len() {
        assert(s.found_values()[0].len() > 0);
        assert(s.found_values()[1].len() > 0);
        assert(s.found_values()[2].len() > 0);
    }
}

} // verus!
