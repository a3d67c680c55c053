//! What a node answers to a request for a state, and what is read from it.

use vstd::prelude::*;
use vstd::string::StringExecFns;
use crate::beacon_block::{beacon_block, BeaconBlock, BeaconBlockView};
use crate::beacon_schema::beacon_state;
use crate::beacon_state::{BeaconState, BeaconStateView};
use crate::decode::valid;
use crate::error::Error;
use crate::fork_name::{fork_named, ForkName};

verus! {

/// What is asked of a node: the address to get, and the kind of content that is
/// accepted in answer.
pub struct HttpRequest {
    pub url: String,
    pub accept: String,
}

/// The decimal digit of a number below ten.
pub open spec fn digit_char(d: nat) -> char {
    (48 + d) as char
}

/// A number in decimal digits, without leading zeros.
pub open spec fn decimal(n: nat) -> Seq<char>
    decreases n,
{
    if n < 10 {
        seq![digit_char(n)]
    } else {
        decimal(n / 10).push(digit_char(n % 10))
    }
}

/// The address of the state at a slot, at a node with the address given.
pub open spec fn state_url(endpoint: Seq<char>, slot: u64) -> Seq<char> {
    endpoint + "/eth/v2/debug/beacon/states/"@ + decimal(slot as nat)
}

/// The address of the block at a slot, at a node with the address given.
pub open spec fn block_url(endpoint: Seq<char>, slot: u64) -> Seq<char> {
    endpoint + "/eth/v2/beacon/blocks/"@ + decimal(slot as nat)
}

/// The decimal digit of a number below ten.
fn digit_str(d: u64) -> (s: &'static str)
    requires
        d < 10,
    ensures
        s@ == seq![digit_char(d as nat)],
{
    proof {
        reveal_strlit("0");
        reveal_strlit("1");
        reveal_strlit("2");
        reveal_strlit("3");
        reveal_strlit("4");
        reveal_strlit("5");
        reveal_strlit("6");
        reveal_strlit("7");
        reveal_strlit("8");
        reveal_strlit("9");
    }
    let s = if d == 0 {
        "0"
    } else if d == 1 {
        "1"
    } else if d == 2 {
        "2"
    } else if d == 3 {
        "3"
    } else if d == 4 {
        "4"
    } else if d == 5 {
        "5"
    } else if d == 6 {
        "6"
    } else if d == 7 {
        "7"
    } else if d == 8 {
        "8"
    } else {
        "9"
    };
    assert(s@ =~= seq![digit_char(d as nat)]);
    s
}

/// Appends a number in decimal digits.
fn push_decimal(out: &mut String, n: u64)
    ensures
        final(out)@ == old(out)@ + decimal(n as nat),
    decreases n,
{
    if n >= 10 {
        push_decimal(out, n / 10);
    }
    out.append(digit_str(n % 10));
    assert(out@ =~= old(out)@ + decimal(n as nat));
}

/// The request for the state at a slot.
pub fn state_request(endpoint: &str, slot: u64) -> (request: HttpRequest)
    ensures
        request.url@ == state_url(endpoint@, slot),
        request.accept@ == "application/octet-stream"@,
{
    let mut url = String::from_str(endpoint);
    url.append("/eth/v2/debug/beacon/states/");
    push_decimal(&mut url, slot);
    HttpRequest { url, accept: String::from_str("application/octet-stream") }
}

/// The request for the block at a slot.
pub fn block_request(endpoint: &str, slot: u64) -> (request: HttpRequest)
    ensures
        request.url@ == block_url(endpoint@, slot),
        request.accept@ == "application/octet-stream"@,
{
    let mut url = String::from_str(endpoint);
    url.append("/eth/v2/beacon/blocks/");
    push_decimal(&mut url, slot);
    HttpRequest { url, accept: String::from_str("application/octet-stream") }
}

/// The answer of a node to one request: its status, the value of its version
/// header where it has one, and its body.
pub struct HttpResponse {
    pub status: u16,
    pub consensus_version: Option<String>,
    pub body: Vec<u8>,
}

/// Whether a status reports success.
pub open spec fn is_success(status: u16) -> bool {
    200 <= status < 300
}

/// The value of the version header of a response, as the contracts speak of it.
pub open spec fn header_view(header: Option<String>) -> Option<Seq<char>> {
    match header {
        Some(value) => Some(value@),
        None => None,
    }
}

/// The fork that a response names. A response without the header names none,
/// whatever else it holds; one that reports no success is not read further.
pub open spec fn response_fork(status: u16, header: Option<Seq<char>>) -> Result<ForkName, Error> {
    match header {
        None => Err(Error::MissingConsensusVersion),
        Some(value) => if !is_success(status) {
            Err(Error::HttpStatus(status))
        } else {
            match fork_named(value) {
                Some(fork) => Ok(fork),
                None => Err(Error::InvalidConsensusVersion),
            }
        },
    }
}

/// The state that a response holds: its body, decoded under the fork that it
/// names.
pub open spec fn response_state(status: u16, header: Option<Seq<char>>, body: Seq<u8>) -> Result<
    BeaconStateView,
    Error,
> {
    match response_fork(status, header) {
        Err(e) => Err(e),
        Ok(fork) => if valid(beacon_state(fork), body) {
            Ok(BeaconStateView { fork, bytes: body })
        } else {
            Err(Error::SszError)
        },
    }
}

/// The block that a response holds: its body, decoded under the fork that it
/// names.
pub open spec fn response_block(status: u16, header: Option<Seq<char>>, body: Seq<u8>) -> Result<
    BeaconBlockView,
    Error,
> {
    match response_fork(status, header) {
        Err(e) => Err(e),
        Ok(fork) => if valid(beacon_block(fork), body) {
            Ok(BeaconBlockView { fork, bytes: body })
        } else {
            Err(Error::SszError)
        },
    }
}

/// A response without the version header fails as such, whatever its status
/// and its body: nothing of it is decoded.
pub proof fn lemma_missing_header(status: u16, body: Seq<u8>)
    ensures
        response_fork(status, None) == Err::<ForkName, Error>(Error::MissingConsensusVersion),
        response_state(status, None, body) == Err::<BeaconStateView, Error>(
            Error::MissingConsensusVersion,
        ),
        response_block(status, None, body) == Err::<BeaconBlockView, Error>(
            Error::MissingConsensusVersion,
        ),
{
}

/// What a response fails with does not depend on its body unless it names a
/// known fork and reports success: only then is the body decoded.
pub proof fn lemma_no_decoding_without_fork(
    status: u16,
    header: Option<Seq<char>>,
    body: Seq<u8>,
    other: Seq<u8>,
)
    requires
        response_fork(status, header) is Err,
    ensures
        response_state(status, header, body) == response_state(status, header, other),
        response_state(status, header, body) is Err,
        response_block(status, header, body) == response_block(status, header, other),
        response_block(status, header, body) is Err,
{
}

impl HttpResponse {
    /// The state that the response holds, as the contracts speak of it.
    pub open spec fn state(&self) -> Result<BeaconStateView, Error> {
        response_state(self.status, header_view(self.consensus_version), self.body@)
    }

    /// The block that the response holds, as the contracts speak of it.
    pub open spec fn block(&self) -> Result<BeaconBlockView, Error> {
        response_block(self.status, header_view(self.consensus_version), self.body@)
    }

    /// The fork that the response names.
    pub fn fork_name(&self) -> (fork: Result<ForkName, Error>)
        ensures
            fork == response_fork(self.status, header_view(self.consensus_version)),
    {
        match &self.consensus_version {
            None => Err(Error::MissingConsensusVersion),
            Some(value) => {
                if self.status < 200 || self.status >= 300 {
                    Err(Error::HttpStatus(self.status))
                } else {
                    ForkName::from_header(value.as_str())
                }
            },
        }
    }
}

/// The state that a node has answered with: the body of the response, decoded
/// under the fork that its version header names.
pub fn fetch_beacon_state(response: &HttpResponse) -> (state: Result<BeaconState, Error>)
    ensures
        match state {
            Ok(s) => response.state() == Ok::<BeaconStateView, Error>(s@),
            Err(e) => response.state() == Err::<BeaconStateView, Error>(e),
        },
{
    match response.fork_name() {
        Err(e) => Err(e),
        Ok(fork) => BeaconState::from_fork_ssz_bytes(response.body.as_slice(), fork),
    }
}

/// The block that a node has answered with: the body of the response, decoded
/// under the fork that its version header names.
pub fn fetch_beacon_block(response: &HttpResponse) -> (block: Result<BeaconBlock, Error>)
    ensures
        match block {
            Ok(b) => response.block() == Ok::<BeaconBlockView, Error>(b@),
            Err(e) => response.block() == Err::<BeaconBlockView, Error>(e),
        },
{
    match response.fork_name() {
        Err(e) => Err(e),
        Ok(fork) => BeaconBlock::from_ssz_bytes_for_fork(response.body.as_slice(), fork),
    }
}

} // verus!
