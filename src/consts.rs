use vstd::prelude::*;

verus! {

pub const TRANSPORT_PARAMETER_ORIGINAL_CONNECTION_ID: u16 = 0;

pub const TRANSPORT_PARAMETER_IDLE_TIMEOUT: u16 = 1;

pub const TRANSPORT_PARAMETER_STATELESS_RESET_TOKEN: u16 = 2;

pub const TRANSPORT_PARAMETER_MAX_PACKET_SIZE: u16 = 3;

pub const TRANSPORT_PARAMETER_INITIAL_MAX_DATA: u16 = 4;

pub const TRANSPORT_PARAMETER_INITIAL_MAX_STREAM_DATA_BIDI_LOCAL: u16 = 5;

pub const TRANSPORT_PARAMETER_INITIAL_MAX_STREAM_DATA_BIDI_REMOTE: u16 = 6;

pub const TRANSPORT_PARAMETER_INITIAL_MAX_STREAM_DATA_UNI: u16 = 7;

pub const TRANSPORT_PARAMETER_INITIAL_MAX_STREAMS_BIDI: u16 = 8;

pub const TRANSPORT_PARAMETER_INITIAL_MAX_STREAMS_UNI: u16 = 9;

pub const TRANSPORT_PARAMETER_ACK_DELAY_EXPONENT: u16 = 10;

pub const TRANSPORT_PARAMETER_MAX_ACK_DELAY: u16 = 11;

pub const TRANSPORT_PARAMETER_DISABLE_MIGRATION: u16 = 12;

pub const TRANSPORT_PARAMETER_PREFERRED_ADDRESS: u16 = 13;

/// Length of a stateless reset token.
pub const STATELESS_RESET_TOKEN_LEN: u16 = 16;

/// Smallest maximum packet size a peer may announce.
pub const MIN_MAX_PACKET_SIZE: u64 = 1200;

/// Largest ack delay exponent a peer may announce.
pub const MAX_ACK_DELAY_EXPONENT: u64 = 20;

/// Codes whose value is an opaque byte string.
pub open spec fn is_bytes_code(code: u16) -> bool {
    code == TRANSPORT_PARAMETER_ORIGINAL_CONNECTION_ID
        || code == TRANSPORT_PARAMETER_STATELESS_RESET_TOKEN
}

/// Codes whose value is an integer.
pub open spec fn is_integer_code(code: u16) -> bool {
    code == TRANSPORT_PARAMETER_IDLE_TIMEOUT || (TRANSPORT_PARAMETER_MAX_PACKET_SIZE <= code
        && code <= TRANSPORT_PARAMETER_MAX_ACK_DELAY)
}

/// Value an integer parameter takes when the peer did not send it.
pub open spec fn integer_default(code: u16) -> u64 {
    if code == TRANSPORT_PARAMETER_MAX_PACKET_SIZE {
        65527
    } else if code == TRANSPORT_PARAMETER_ACK_DELAY_EXPONENT {
        3
    } else if code == TRANSPORT_PARAMETER_MAX_ACK_DELAY {
        25
    } else {
        0
    }
}

/// Range rule that a received integer parameter must obey.
pub open spec fn integer_allowed(code: u16, v: u64) -> bool {
    &&& code == TRANSPORT_PARAMETER_MAX_PACKET_SIZE ==> v >= MIN_MAX_PACKET_SIZE
    &&& code == TRANSPORT_PARAMETER_ACK_DELAY_EXPONENT ==> v <= MAX_ACK_DELAY_EXPONENT
}

/// Whether `code` names an integer parameter.
pub fn integer_code(code: u16) -> (r: bool)
    ensures
        r == is_integer_code(code),
{
    code == TRANSPORT_PARAMETER_IDLE_TIMEOUT || (TRANSPORT_PARAMETER_MAX_PACKET_SIZE <= code
        && code <= TRANSPORT_PARAMETER_MAX_ACK_DELAY)
}

/// Whether `code` names a byte-string parameter.
pub fn bytes_code(code: u16) -> (r: bool)
    ensures
        r == is_bytes_code(code),
{
    code == TRANSPORT_PARAMETER_ORIGINAL_CONNECTION_ID
        || code == TRANSPORT_PARAMETER_STATELESS_RESET_TOKEN
}

/// Default of an integer parameter.
pub fn default_integer(code: u16) -> (r: u64)
    ensures
        r == integer_default(code),
{
    if code == TRANSPORT_PARAMETER_MAX_PACKET_SIZE {
        65527
    } else if code == TRANSPORT_PARAMETER_ACK_DELAY_EXPONENT {
        3
    } else if code == TRANSPORT_PARAMETER_MAX_ACK_DELAY {
        25
    } else {
        0
    }
}

/// Whether a received integer parameter is within its range.
pub fn integer_within_range(code: u16, v: u64) -> (r: bool)
    ensures
        r == integer_allowed(code, v),
{
    if code == TRANSPORT_PARAMETER_MAX_PACKET_SIZE {
        v >= MIN_MAX_PACKET_SIZE
    } else if code == TRANSPORT_PARAMETER_ACK_DELAY_EXPONENT {
        v <= MAX_ACK_DELAY_EXPONENT
    } else {
        true
    }
}

} // verus!
