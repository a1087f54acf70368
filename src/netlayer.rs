//! What a stream netlayer reads from a locator to connect.
use vstd::prelude::*;
use std::num::ParseIntError;
use std::str::FromStr;
use crate::locator::NodeLocator;
use crate::uri::hint_value;

verus! {

#[verifier::external_type_specification]
#[verifier::external_body]
pub struct ExParseIntError(ParseIntError);

/// The number that decimal digits denote.
pub open spec fn decimal_value(cs: Seq<char>) -> nat
    decreases cs.len(),
{
    if cs.len() == 0 {
        0
    } else {
        decimal_value(cs.drop_last()) * 10 + (cs.last() as nat - 48) as nat
    }
}

/// Whether a character is an ASCII decimal digit.
pub open spec fn is_decimal_digit(c: char) -> bool {
    '0' <= c <= '9'
}

/// The 16-bit number that a text denotes: an optional `+`, then one or more
/// decimal digits, of value at most 65535.
pub open spec fn decimal_u16(cs: Seq<char>) -> Option<u16> {
    let ds = if cs.len() > 0 && cs[0] == '+' {
        cs.drop_first()
    } else {
        cs
    };
    if ds.len() > 0 && (forall|i: int| 0 <= i < ds.len() ==> is_decimal_digit(#[trigger] ds[i]))
        && decimal_value(ds) <= 65535 {
        Some(decimal_value(ds) as u16)
    } else {
        None
    }
}

/// Relies on `u16::from_str`: an optional `+` and decimal digits whose value
/// fits 16 bits, and nothing else, read as a number.
#[verifier::external_body]
fn parse_u16(s: &str) -> (r: Result<u16, ParseIntError>)
    ensures
        r is Ok <==> decimal_u16(s@) is Some,
        r is Ok ==> r->Ok_0 == decimal_u16(s@)->Some_0,
{
    u16::from_str(s)
}

/// Why a stream connection could not be made.
#[derive(Debug)]
pub enum TcpConnectError {
    Io(std::io::Error),
    /// The locator has no `port` hint.
    MissingPort,
    /// The `port` hint is no 16-bit number.
    ParsePort(ParseIntError),
}

/// Where to connect for a `tcpip` locator: the designator as the host, and
/// the `port` hint as the port.
pub fn tcp_address(loc: &NodeLocator) -> (r: Result<(String, u16), TcpConnectError>)
    ensures
        match hint_value(loc@.hints, "port"@) {
            None => r is Err && r->Err_0 is MissingPort,
            Some(p) => match decimal_u16(p) {
                None => r is Err && r->Err_0 is ParsePort,
                Some(port) => r is Ok && r->Ok_0.0@ == loc@.designator && r->Ok_0.1 == port,
            },
        },
{
    let port = match loc.hint("port") {
        Some(p) => p,
        None => {
            return Err(TcpConnectError::MissingPort);
        },
    };
    match parse_u16(port.as_str()) {
        Ok(port) => Ok((loc.designator.clone(), port)),
        Err(e) => Err(TcpConnectError::ParsePort(e)),
    }
}

} // verus!
