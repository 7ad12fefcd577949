//! The server side: the policy around the ledger and the peers' protocol.

use vstd::prelude::*;

pub mod connection;
pub mod ledger_wrapper;
pub mod wrapper_laws;

pub use connection::{
    Callback, NullCallback, PeerConnection, PeerReadSocket, ProtocolError, ReadEvent, Step,
};
pub use ledger_wrapper::{Broadcast, LedgerWrapper, LedgerWrapperView};

verus! {

/// The id that the first connection gets.
pub const FIRST_CONNECTION_ID: u32 = 1;

/// Hands out the ids of the connections that the server accepts: one after
/// the other, none twice.
pub struct ConnectionIds {
    next_id: u32,
}

impl ConnectionIds {
    /// The id that the next connection gets.
    pub closed spec fn upcoming(&self) -> u32 {
        self.next_id
    }

    /// Before any connection: the first id is still to come.
    pub fn new() -> (ids: ConnectionIds)
        ensures
            ids.upcoming() == FIRST_CONNECTION_ID,
    {
        ConnectionIds { next_id: FIRST_CONNECTION_ID }
    }

    /// Whether an id is left for one more connection.
    pub fn has_next(&self) -> (left: bool)
        ensures
            left == (self.upcoming() < u32::MAX),
    {
        self.next_id < u32::MAX
    }

    /// The id of the connection just accepted.
    pub fn allocate(&mut self) -> (id: u32)
        requires
            old(self).upcoming() < u32::MAX,
        ensures
            id == old(self).upcoming(),
            final(self).upcoming() == id + 1,
    {
        let id = self.next_id;
        self.next_id = id + 1;
        id
    }
}

/// The character that stands for the digit `d`.
pub open spec fn digit(d: nat) -> char
    recommends
        d < 10,
{
    if d == 0 {
        '0'
    } else if d == 1 {
        '1'
    } else if d == 2 {
        '2'
    } else if d == 3 {
        '3'
    } else if d == 4 {
        '4'
    } else if d == 5 {
        '5'
    } else if d == 6 {
        '6'
    } else if d == 7 {
        '7'
    } else if d == 8 {
        '8'
    } else {
        '9'
    }
}

/// The decimal digits of `n`, without leading zeros.
pub open spec fn decimal(n: nat) -> Seq<char>
    decreases n,
{
    if n < 10 {
        seq![digit(n)]
    } else {
        decimal(n / 10).push(digit(n % 10))
    }
}

/// The address to listen on: `addr` as it is where it names a port, and
/// `addr` with a colon and `default_port` behind it where it names none.
pub open spec fn with_port(addr: Seq<char>, default_port: u16) -> Seq<char> {
    if addr.contains(':') {
        addr
    } else {
        addr.push(':') + decimal(default_port as nat)
    }
}

/// Appends `c` to `text` by `String::push`.
#[verifier::external_body]
fn push_char(text: &mut String, c: char)
    ensures
        final(text)@ == old(text)@.push(c),
{
    text.push(c)
}

/// The character that stands for the digit `d`.
fn digit_char(d: u16) -> (c: char)
    requires
        d < 10,
    ensures
        c == digit(d as nat),
{
    if d == 0 {
        '0'
    } else if d == 1 {
        '1'
    } else if d == 2 {
        '2'
    } else if d == 3 {
        '3'
    } else if d == 4 {
        '4'
    } else if d == 5 {
        '5'
    } else if d == 6 {
        '6'
    } else if d == 7 {
        '7'
    } else if d == 8 {
        '8'
    } else {
        '9'
    }
}

/// Appends the decimal digits of `n` to `text`.
fn push_decimal(text: &mut String, n: u16)
    ensures
        final(text)@ == old(text)@ + decimal(n as nat),
    decreases n,
{
    if n >= 10 {
        push_decimal(text, n / 10);
    }
    push_char(text, digit_char(n % 10));
    assert(text@ =~= old(text)@ + decimal(n as nat));
}

/// Whether `addr` names a port: whether it holds a colon.
pub fn names_port(addr: &str) -> (named: bool)
    ensures
        named == addr@.contains(':'),
{
    let ghost all = addr@;
    for c in it: addr.chars()
        invariant
            all == addr@,
            it.seq() == all,
            forall|i: int| 0 <= i < it.index() ==> all[i] != ':',
    {
        if c == ':' {
            assert(addr@[it.index()] == ':');
            return true;
        }
    }
    false
}

/// The address to listen on, given what the command line said.
pub fn address_with_port(addr: &str, default_port: u16) -> (full: String)
    ensures
        full@ == with_port(addr@, default_port),
{
    let mut full = addr.to_owned();
    if !names_port(addr) {
        push_char(&mut full, ':');
        push_decimal(&mut full, default_port);
    }
    full
}

} // verus!
