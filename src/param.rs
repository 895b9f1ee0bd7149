use vstd::prelude::*;

use crate::consts::{
    bytes_code, integer_code, integer_within_range, is_bytes_code, is_integer_code,
    integer_allowed, STATELESS_RESET_TOKEN_LEN, TRANSPORT_PARAMETER_STATELESS_RESET_TOKEN,
};
use crate::varint::{
    decode_varint, encode_u16, encode_varint, lemma_u16_round_trip, lemma_varint_round_trip,
    u16_bytes, u16_value, varint_bytes, varint_decode, varint_len, varint_length, VARINT_MAX,
};

verus! {

/// Failures of decoding.
#[derive(PartialEq, Eq, Structural, Debug, Clone, Copy)]
pub enum Error {
    /// The input ends inside an entry.
    NoMoreData,
    /// A known parameter breaks its length or range rule.
    TransportParameterError,
    /// The entry's code is not one this decoder reads; the entry was skipped.
    UnknownTransportParameter,
}

/// What a parameter holds, as a mathematical value.
pub ghost enum ParamValue {
    Bytes(Seq<u8>),
    Integer(u64),
    Empty,
}

/// The value of one transport parameter.
#[derive(Debug)]
pub enum TransportParameter {
    Bytes(Vec<u8>),
    Integer(u64),
    Empty,
}

impl View for TransportParameter {
    type V = ParamValue;

    open spec fn view(&self) -> ParamValue {
        match self {
            TransportParameter::Bytes(b) => ParamValue::Bytes(b@),
            TransportParameter::Integer(v) => ParamValue::Integer(*v),
            TransportParameter::Empty => ParamValue::Empty,
        }
    }
}

impl PartialEq for TransportParameter {
    fn eq(&self, other: &TransportParameter) -> (r: bool)
        ensures
            r == (self@ == other@),
    {
        match (self, other) {
            (TransportParameter::Bytes(a), TransportParameter::Bytes(b)) => bytes_equal(a, b),
            (TransportParameter::Integer(a), TransportParameter::Integer(b)) => *a == *b,
            (TransportParameter::Empty, TransportParameter::Empty) => true,
            _ => false,
        }
    }
}

impl vstd::std_specs::cmp::PartialEqSpecImpl for TransportParameter {
    open spec fn obeys_eq_spec() -> bool {
        true
    }

    open spec fn eq_spec(&self, other: &TransportParameter) -> bool {
        self@ == other@
    }
}

fn bytes_equal(a: &Vec<u8>, b: &Vec<u8>) -> (r: bool)
    ensures
        r == (a@ == b@),
{
    if a.len() != b.len() {
        return false;
    }
    let mut i: usize = 0;
    while i < a.len()
        invariant
            a@.len() == b@.len(),
            i <= a@.len(),
            forall|j: int| 0 <= j < i ==> a@[j] == b@[j],
        decreases a@.len() - i,
    {
        if a[i] != b[i] {
            return false;
        }
        i = i + 1;
    }
    assert(a@ =~= b@);
    true
}

/// A value that fits the wire format: a byte string whose length fits two
/// bytes, or an integer of at most 62 bits.
pub open spec fn encodable(p: ParamValue) -> bool {
    match p {
        ParamValue::Bytes(b) => b.len() <= 0xffff,
        ParamValue::Integer(v) => v <= VARINT_MAX,
        ParamValue::Empty => true,
    }
}

/// Wire form of one entry: code, declared length, then the payload.
pub open spec fn entry_bytes(code: u16, p: ParamValue) -> Seq<u8> {
    u16_bytes(code) + match p {
        ParamValue::Bytes(b) => u16_bytes(b.len() as u16) + b,
        ParamValue::Integer(v) => u16_bytes(varint_len(v) as u16) + varint_bytes(v),
        ParamValue::Empty => u16_bytes(0),
    }
}

/// An entry that the decoder accepts as it is: a known code, the kind of
/// value the code calls for, and the code's length and range rules.
pub open spec fn valid_entry(code: u16, p: ParamValue) -> bool {
    encodable(p) && match p {
        ParamValue::Bytes(b) => is_bytes_code(code) && (code
            == TRANSPORT_PARAMETER_STATELESS_RESET_TOKEN ==> b.len()
            == STATELESS_RESET_TOKEN_LEN),
        ParamValue::Integer(v) => is_integer_code(code) && integer_allowed(code, v),
        ParamValue::Empty => false,
    }
}

/// Result of reading one entry at the start of `s`, with the number of bytes
/// the entry takes (meaningful for a decoded or skipped entry).
pub open spec fn entry_decode(s: Seq<u8>) -> (Result<(u16, ParamValue), Error>, nat) {
    if s.len() < 4 {
        (Err(Error::NoMoreData), 0)
    } else {
        let code = u16_value(s[0], s[1]);
        let len = u16_value(s[2], s[3]) as nat;
        let body = s.subrange(4, s.len() as int);
        if is_bytes_code(code) {
            if code == TRANSPORT_PARAMETER_STATELESS_RESET_TOKEN && len
                != STATELESS_RESET_TOKEN_LEN {
                (Err(Error::TransportParameterError), 0)
            } else if body.len() < len {
                (Err(Error::NoMoreData), 0)
            } else {
                (Ok((code, ParamValue::Bytes(body.take(len as int)))), 4 + len)
            }
        } else if is_integer_code(code) {
            match varint_decode(body) {
                None => (Err(Error::NoMoreData), 0),
                Some((v, n)) => if !integer_allowed(code, v) || n != len {
                    (Err(Error::TransportParameterError), 0)
                } else {
                    (Ok((code, ParamValue::Integer(v))), 4 + n)
                },
            }
        } else if body.len() < len {
            (Err(Error::NoMoreData), 0)
        } else {
            (Err(Error::UnknownTransportParameter), 4 + len)
        }
    }
}

/// Reading a valid entry back from its wire form gives the same entry, and
/// the entry takes exactly its wire form.
pub proof fn lemma_entry_round_trip(code: u16, p: ParamValue, rest: Seq<u8>)
    requires
        valid_entry(code, p),
    ensures
        entry_decode(entry_bytes(code, p) + rest) == (
        Ok::<(u16, ParamValue), Error>((code, p)),
        entry_bytes(code, p).len(),
        ),
{
    let e = entry_bytes(code, p);
    let s = e + rest;
    lemma_u16_round_trip(code);
    assert(s[0] == u16_bytes(code)[0] && s[1] == u16_bytes(code)[1]);
    let body = s.subrange(4, s.len() as int);
    match p {
        ParamValue::Bytes(b) => {
            lemma_u16_round_trip(b.len() as u16);
            assert(s[2] == u16_bytes(b.len() as u16)[0] && s[3] == u16_bytes(b.len() as u16)[1]);
            assert(body =~= b + rest);
            assert(body.take(b.len() as int) =~= b);
        },
        ParamValue::Integer(v) => {
            lemma_u16_round_trip(varint_len(v) as u16);
            assert(s[2] == u16_bytes(varint_len(v) as u16)[0] && s[3] == u16_bytes(
                varint_len(v) as u16,
            )[1]);
            assert(body =~= varint_bytes(v) + rest);
            lemma_varint_round_trip(v, rest);
        },
        ParamValue::Empty => {},
    }
}

impl TransportParameter {
    /// Appends the entry for this value under `tipe`.
    pub fn encode(&self, d: &mut Vec<u8>, tipe: u16) -> (r: Result<(), Error>)
        requires
            encodable(self@),
        ensures
            r is Ok,
            final(d)@ == old(d)@ + entry_bytes(tipe, self@),
    {
        encode_u16(d, tipe);
        match self {
            TransportParameter::Bytes(a) => {
                encode_u16(d, a.len() as u16);
                let ghost start = d@;
                let mut i: usize = 0;
                while i < a.len()
                    invariant
                        i <= a@.len(),
                        d@ == start + a@.take(i as int),
                    decreases a@.len() - i,
                {
                    d.push(a[i]);
                    i = i + 1;
                    assert(d@ =~= start + a@.take(i as int));
                }
                assert(a@.take(a@.len() as int) =~= a@);
            },
            TransportParameter::Integer(v) => {
                encode_u16(d, varint_length(*v) as u16);
                encode_varint(d, *v);
            },
            TransportParameter::Empty => {
                encode_u16(d, 0);
            },
        }
        assert(d@ =~= old(d)@ + entry_bytes(tipe, self@));
        Ok(())
    }

    /// Reads the entry that starts at `*pos` and moves `*pos` past it. An
    /// entry with a code this decoder does not read is skipped: `*pos` moves
    /// past it and the result is `UnknownTransportParameter`.
    pub fn decode(d: &[u8], pos: &mut usize) -> (r: Result<(u16, TransportParameter), Error>)
        requires
            *old(pos) <= d@.len(),
        ensures
            ({
                let (res, n) = entry_decode(d@.subrange(*old(pos) as int, d@.len() as int));
                &&& match (r, res) {
                    (Ok((c, p)), Ok((c2, p2))) => c == c2 && p@ == p2,
                    (Err(e), Err(e2)) => e == e2,
                    _ => false,
                }
                &&& (r is Ok || r == Err::<(u16, TransportParameter), Error>(
                    Error::UnknownTransportParameter,
                )) ==> *final(pos) == *old(pos) + n
            }),
            *final(pos) <= d@.len(),
            r matches Ok((c, p)) ==> valid_entry(c, p@),
    {
        let ghost s = d@.subrange(*pos as int, d@.len() as int);
        let start = *pos;
        if d.len() - start < 4 {
            return Err(Error::NoMoreData);
        }
        let tipe = ((d[start] as u16) << 8) | (d[start + 1] as u16);
        let length = ((d[start + 2] as u16) << 8) | (d[start + 3] as u16);
        assert(tipe == u16_value(s[0], s[1]));
        assert(length == u16_value(s[2], s[3]));
        let body = start + 4;
        let ghost bs = s.subrange(4, s.len() as int);
        assert(bs =~= d@.subrange(body as int, d@.len() as int));
        if bytes_code(tipe) {
            if tipe == TRANSPORT_PARAMETER_STATELESS_RESET_TOKEN && length
                != STATELESS_RESET_TOKEN_LEN {
                return Err(Error::TransportParameterError);
            }
            if d.len() - body < length as usize {
                return Err(Error::NoMoreData);
            }
            let end = body + length as usize;
            let mut v: Vec<u8> = Vec::new();
            let mut i: usize = body;
            while i < end
                invariant
                    body <= i <= end,
                    end <= d@.len(),
                    v@ == d@.subrange(body as int, i as int),
                decreases end - i,
            {
                v.push(d[i]);
                i = i + 1;
                assert(v@ =~= d@.subrange(body as int, i as int));
            }
            assert(v@ =~= bs.take(length as int));
            *pos = end;
            Ok((tipe, TransportParameter::Bytes(v)))
        } else if integer_code(tipe) {
            match decode_varint(d, body) {
                None => Err(Error::NoMoreData),
                Some((v, n)) => {
                    if !integer_within_range(tipe, v) || n != length as usize {
                        return Err(Error::TransportParameterError);
                    }
                    *pos = body + n;
                    Ok((tipe, TransportParameter::Integer(v)))
                },
            }
        } else {
            if d.len() - body < length as usize {
                return Err(Error::NoMoreData);
            }
            *pos = body + length as usize;
            Err(Error::UnknownTransportParameter)
        }
    }
}

} // verus!
