//! One connection attempt and what it says about a port.

use vstd::prelude::*;

verus! {

/// How a single connection attempt ended.
#[derive(Clone, Copy, Debug, PartialEq, Eq, Structural)]
pub enum ConnectAttempt {
    /// The connection was established before the deadline.
    Connected,
    /// The attempt ended with an error: refused, unreachable, unresolved name.
    Failed,
    /// The deadline passed before the attempt ended.
    TimedOut,
}

/// The classification of one probed port.
#[derive(Clone, Copy, Debug, PartialEq, Eq, Structural)]
pub struct ProbeOutcome {
    /// The port that was probed.
    pub port: u16,
    /// Whether a connection to it was established.
    pub open: bool,
}

impl ProbeOutcome {
    /// Classifies an attempt on `port`: open exactly when the connection was
    /// established. Why an attempt did not connect is deliberately not kept.
    pub fn from_attempt(port: u16, attempt: ConnectAttempt) -> (outcome: ProbeOutcome)
        ensures
            outcome.port == port,
            outcome.open == (attempt == ConnectAttempt::Connected),
    {
        let open = match attempt {
            ConnectAttempt::Connected => true,
            ConnectAttempt::Failed => false,
            ConnectAttempt::TimedOut => false,
        };
        ProbeOutcome { port, open }
    }

    /// The port if it was found open.
    pub fn open_port(&self) -> (found: Option<u16>)
        ensures
            found == (if self.open { Some(self.port) } else { None::<u16> }),
    {
        if self.open {
            Some(self.port)
        } else {
            None
        }
    }
}

/// The character that stands for a digit. Only 0 to 9 are digits.
pub open spec fn digit(d: nat) -> char {
    if d == 0 {
        '0'
    } else if d == 1 {
        '1'
    } else if d == 2 {
        '2'
    } else if d == 3 {
        '3'
    } else if d == 4 {
        '4'
    } else if d == 5 {
        '5'
    } else if d == 6 {
        '6'
    } else if d == 7 {
        '7'
    } else if d == 8 {
        '8'
    } else {
        '9'
    }
}

/// A number in decimal notation, without sign and without leading zeros.
pub open spec fn decimal(n: nat) -> Seq<char>
    decreases n,
{
    if n < 10 {
        seq![digit(n)]
    } else {
        decimal(n / 10).push(digit(n % 10))
    }
}

/// What a probe of `port` on `host` connects to: the host, a colon, the port
/// in decimal notation.
pub open spec fn address_of(host: Seq<char>, port: u16) -> Seq<char> {
    host + seq![':'] + decimal(port as nat)
}

/// The text of one digit.
fn digit_text(d: u16) -> (text: &'static str)
    requires
        d < 10,
    ensures
        text@ == seq![digit(d as nat)],
{
    proof {
        reveal_strlit("0");
        reveal_strlit("1");
        reveal_strlit("2");
        reveal_strlit("3");
        reveal_strlit("4");
        reveal_strlit("5");
        reveal_strlit("6");
        reveal_strlit("7");
        reveal_strlit("8");
        reveal_strlit("9");
    }
    match d {
        0 => "0",
        1 => "1",
        2 => "2",
        3 => "3",
        4 => "4",
        5 => "5",
        6 => "6",
        7 => "7",
        8 => "8",
        _ => "9",
    }
}

/// Writes `n` in decimal notation at the end of `text`.
fn push_decimal(text: &mut String, n: u16)
    ensures
        final(text)@ == old(text)@ + decimal(n as nat),
    decreases n,
{
    if n >= 10 {
        push_decimal(text, n / 10);
    }
    text.append(digit_text(n % 10));
}

/// The address that a probe of `port` on `host` connects to.
pub fn target_address(host: &str, port: u16) -> (address: String)
    ensures
        address@ == address_of(host@, port),
{
    let mut address = String::from_str(host);
    proof {
        reveal_strlit(":");
    }
    address.append(":");
    push_decimal(&mut address, port);
    address
}

} // verus!
