use tparams::consts::{
    TRANSPORT_PARAMETER_ACK_DELAY_EXPONENT, TRANSPORT_PARAMETER_DISABLE_MIGRATION,
    TRANSPORT_PARAMETER_IDLE_TIMEOUT, TRANSPORT_PARAMETER_INITIAL_MAX_DATA,
    TRANSPORT_PARAMETER_INITIAL_MAX_STREAMS_BIDI, TRANSPORT_PARAMETER_MAX_ACK_DELAY,
    TRANSPORT_PARAMETER_MAX_PACKET_SIZE, TRANSPORT_PARAMETER_ORIGINAL_CONNECTION_ID,
    TRANSPORT_PARAMETER_PREFERRED_ADDRESS, TRANSPORT_PARAMETER_STATELESS_RESET_TOKEN,
};
use tparams::handler::{
    ExtensionHandlerResult, ExtensionWriterResult, TransportParametersHandler,
    TLS_HS_CLIENT_HELLO, TLS_HS_ENCRYPTED_EXTENSIONS,
};
use tparams::param::{Error, TransportParameter};
use tparams::params::TransportParameters;
use tparams::varint::{decode_varint, encode_varint, varint_length};

fn token() -> Vec<u8> {
    vec![1, 2, 3, 4, 5, 6, 7, 8, 1, 2, 3, 4, 5, 6, 7, 8]
}

#[test]
fn test_basic_tps() {
    let mut tps = TransportParameters::default();
    tps.set_bytes(TRANSPORT_PARAMETER_STATELESS_RESET_TOKEN, token());
    tps.set_integer(TRANSPORT_PARAMETER_INITIAL_MAX_STREAMS_BIDI, 10);

    let mut d = Vec::new();
    tps.encode(&mut d).expect("Couldn't encode");

    let tps2 = TransportParameters::decode(&d).expect("Couldn't decode");
    assert_eq!(tps, tps2);

    println!("TPS = {:?}", tps);
    assert_eq!(tps2.get_integer(TRANSPORT_PARAMETER_IDLE_TIMEOUT), 0);
    assert_eq!(tps2.get_integer(TRANSPORT_PARAMETER_MAX_ACK_DELAY), 25);
    assert_eq!(tps2.get_integer(TRANSPORT_PARAMETER_INITIAL_MAX_STREAMS_BIDI), 10);
    assert_eq!(tps2.get_bytes(TRANSPORT_PARAMETER_STATELESS_RESET_TOKEN), Some(token()));
    assert_eq!(tps2.get_bytes(TRANSPORT_PARAMETER_ORIGINAL_CONNECTION_ID), None);
    assert_eq!(tps2.was_sent(TRANSPORT_PARAMETER_ORIGINAL_CONNECTION_ID), false);
    assert_eq!(tps2.was_sent(TRANSPORT_PARAMETER_STATELESS_RESET_TOKEN), true);
}

#[test]
fn defaults_of_empty_set() {
    let tps = TransportParameters::default();
    assert_eq!(tps.get_integer(TRANSPORT_PARAMETER_IDLE_TIMEOUT), 0);
    assert_eq!(tps.get_integer(TRANSPORT_PARAMETER_MAX_PACKET_SIZE), 65527);
    assert_eq!(tps.get_integer(TRANSPORT_PARAMETER_ACK_DELAY_EXPONENT), 3);
    assert_eq!(tps.get_integer(TRANSPORT_PARAMETER_MAX_ACK_DELAY), 25);
    assert_eq!(tps.get_integer(TRANSPORT_PARAMETER_INITIAL_MAX_DATA), 0);
    assert_eq!(tps.get_bytes(TRANSPORT_PARAMETER_ORIGINAL_CONNECTION_ID), None);
}

#[test]
fn encodes_exact_bytes() {
    let mut tps = TransportParameters::default();
    tps.set_integer(TRANSPORT_PARAMETER_IDLE_TIMEOUT, 5);
    let mut d = Vec::new();
    tps.encode(&mut d).unwrap();
    assert_eq!(d, vec![0, 1, 0, 1, 5]);

    let mut tps = TransportParameters::default();
    tps.set_bytes(TRANSPORT_PARAMETER_ORIGINAL_CONNECTION_ID, vec![0xaa, 0xbb, 0xcc]);
    let mut d = vec![9];
    tps.encode(&mut d).unwrap();
    assert_eq!(d, vec![9, 0, 0, 0, 3, 0xaa, 0xbb, 0xcc]);
}

#[test]
fn encodes_empty_value() {
    let mut d = Vec::new();
    TransportParameter::Empty.encode(&mut d, TRANSPORT_PARAMETER_DISABLE_MIGRATION).unwrap();
    assert_eq!(d, vec![0, 12, 0, 0]);
}

#[test]
fn max_packet_size_boundary() {
    // 1199 and 1200 as two-byte varints.
    let low = vec![0, 3, 0, 2, 0x44, 0xaf];
    assert_eq!(TransportParameters::decode(&low), Err(Error::TransportParameterError));
    let ok = vec![0, 3, 0, 2, 0x44, 0xb0];
    let tps = TransportParameters::decode(&ok).unwrap();
    assert_eq!(tps.get_integer(TRANSPORT_PARAMETER_MAX_PACKET_SIZE), 1200);
}

#[test]
fn ack_delay_exponent_boundary() {
    let high = vec![0, 10, 0, 1, 21];
    assert_eq!(TransportParameters::decode(&high), Err(Error::TransportParameterError));
    let ok = vec![0, 10, 0, 1, 20];
    let tps = TransportParameters::decode(&ok).unwrap();
    assert_eq!(tps.get_integer(TRANSPORT_PARAMETER_ACK_DELAY_EXPONENT), 20);
}

#[test]
fn reset_token_length() {
    for (n, good) in [(15usize, false), (16, true), (17, false)] {
        let mut d = vec![0, 2, 0, n as u8];
        d.extend(std::iter::repeat(7u8).take(n));
        let r = TransportParameters::decode(&d);
        if good {
            let tps = r.unwrap();
            assert_eq!(tps.get_bytes(TRANSPORT_PARAMETER_STATELESS_RESET_TOKEN), Some(vec![7; 16]));
        } else {
            assert_eq!(r, Err(Error::TransportParameterError));
        }
    }
}

#[test]
fn unknown_entry_is_skipped() {
    let d = vec![0, 0x20, 0, 2, 0xaa, 0xbb, 0, 1, 0, 1, 5];
    let tps = TransportParameters::decode(&d).unwrap();
    let mut expected = TransportParameters::default();
    expected.set_integer(TRANSPORT_PARAMETER_IDLE_TIMEOUT, 5);
    assert_eq!(tps, expected);
    assert!(!tps.was_sent(0x20));
}

#[test]
fn unregistered_codes_are_skipped() {
    let d = vec![0, 12, 0, 0, 0, 13, 0, 1, 9];
    let tps = TransportParameters::decode(&d).unwrap();
    assert_eq!(tps, TransportParameters::default());
    assert!(!tps.was_sent(TRANSPORT_PARAMETER_DISABLE_MIGRATION));
    assert!(!tps.was_sent(TRANSPORT_PARAMETER_PREFERRED_ADDRESS));
}

#[test]
fn length_mismatch_is_rejected() {
    // One-byte varint declared as two bytes.
    let d = vec![0, 1, 0, 2, 5, 0];
    assert_eq!(TransportParameters::decode(&d), Err(Error::TransportParameterError));
    // Two-byte varint declared as one byte.
    let d = vec![0, 1, 0, 1, 0x40, 5];
    assert_eq!(TransportParameters::decode(&d), Err(Error::TransportParameterError));
}

#[test]
fn truncated_input_is_rejected() {
    assert_eq!(TransportParameters::decode(&[0, 1, 0]), Err(Error::NoMoreData));
    assert_eq!(TransportParameters::decode(&[0, 0, 0, 5, 1, 2]), Err(Error::NoMoreData));
    assert_eq!(TransportParameters::decode(&[0, 1, 0, 2, 0x40]), Err(Error::NoMoreData));
    assert_eq!(TransportParameters::decode(&[0, 0x30, 0, 3, 1]), Err(Error::NoMoreData));
}

#[test]
fn empty_block_decodes_to_empty_set() {
    assert_eq!(TransportParameters::decode(&[]), Ok(TransportParameters::default()));
}

#[test]
fn later_entry_replaces_earlier() {
    let d = vec![0, 1, 0, 1, 5, 0, 1, 0, 1, 7];
    let tps = TransportParameters::decode(&d).unwrap();
    assert_eq!(tps.get_integer(TRANSPORT_PARAMETER_IDLE_TIMEOUT), 7);
}

#[test]
fn round_trip_of_many_entries() {
    let mut tps = TransportParameters::default();
    tps.set_bytes(TRANSPORT_PARAMETER_ORIGINAL_CONNECTION_ID, vec![1, 2, 3]);
    tps.set_bytes(TRANSPORT_PARAMETER_STATELESS_RESET_TOKEN, token());
    tps.set_integer(TRANSPORT_PARAMETER_IDLE_TIMEOUT, 30_000);
    tps.set_integer(TRANSPORT_PARAMETER_MAX_PACKET_SIZE, 1500);
    tps.set_integer(TRANSPORT_PARAMETER_INITIAL_MAX_DATA, 0x3fff_ffff_ffff_ffff);
    tps.set_integer(TRANSPORT_PARAMETER_ACK_DELAY_EXPONENT, 0);
    tps.set_integer(TRANSPORT_PARAMETER_MAX_ACK_DELAY, 0x4000_0000);
    let mut d = Vec::new();
    tps.encode(&mut d).unwrap();
    let back = TransportParameters::decode(&d).unwrap();
    assert_eq!(back, tps);
    assert_eq!(back.get_integer(TRANSPORT_PARAMETER_INITIAL_MAX_DATA), 0x3fff_ffff_ffff_ffff);
    assert_eq!(back.get_integer(TRANSPORT_PARAMETER_MAX_ACK_DELAY), 0x4000_0000);
    assert_eq!(back.get_bytes(TRANSPORT_PARAMETER_ORIGINAL_CONNECTION_ID), Some(vec![1, 2, 3]));
}

#[test]
fn equality_ignores_order() {
    let mut a = TransportParameters::default();
    a.set_integer(TRANSPORT_PARAMETER_IDLE_TIMEOUT, 1);
    a.set_integer(TRANSPORT_PARAMETER_MAX_ACK_DELAY, 2);
    let mut b = TransportParameters::default();
    b.set_integer(TRANSPORT_PARAMETER_MAX_ACK_DELAY, 2);
    b.set_integer(TRANSPORT_PARAMETER_IDLE_TIMEOUT, 1);
    assert_eq!(a, b);
    b.set_integer(TRANSPORT_PARAMETER_IDLE_TIMEOUT, 3);
    assert_ne!(a, b);
    b.set_integer(TRANSPORT_PARAMETER_IDLE_TIMEOUT, 1);
    b.set_integer(TRANSPORT_PARAMETER_INITIAL_MAX_DATA, 1);
    assert_ne!(a, b);
}

#[test]
fn setting_twice_keeps_one_entry() {
    let mut tps = TransportParameters::default();
    tps.set_integer(TRANSPORT_PARAMETER_IDLE_TIMEOUT, 1);
    tps.set_integer(TRANSPORT_PARAMETER_IDLE_TIMEOUT, 2);
    let mut d = Vec::new();
    tps.encode(&mut d).unwrap();
    assert_eq!(d, vec![0, 1, 0, 1, 2]);
}

#[test]
fn entry_decode_skips_unknown() {
    let d = vec![0, 0x40, 0, 1, 9, 0, 1, 0, 1, 4];
    let mut pos = 0usize;
    assert!(matches!(
        TransportParameter::decode(&d, &mut pos),
        Err(Error::UnknownTransportParameter)
    ));
    assert_eq!(pos, 5);
    let r = TransportParameter::decode(&d, &mut pos).unwrap();
    assert_eq!(r, (TRANSPORT_PARAMETER_IDLE_TIMEOUT, TransportParameter::Integer(4)));
    assert_eq!(pos, 10);
}

#[test]
fn varint_encodings() {
    let cases: Vec<(u64, Vec<u8>)> = vec![
        (0, vec![0]),
        (0x3f, vec![0x3f]),
        (0x40, vec![0x40, 0x40]),
        (0x3fff, vec![0x7f, 0xff]),
        (0x4000, vec![0x80, 0, 0x40, 0]),
        (0x3fff_ffff, vec![0xbf, 0xff, 0xff, 0xff]),
        (0x4000_0000, vec![0xc0, 0, 0, 0, 0x40, 0, 0, 0]),
        (0x3fff_ffff_ffff_ffff, vec![0xff; 8]),
    ];
    for (v, bytes) in cases {
        let mut out = Vec::new();
        encode_varint(&mut out, v);
        assert_eq!(out, bytes);
        assert_eq!(varint_length(v), bytes.len());
        assert_eq!(decode_varint(&bytes, 0), Some((v, bytes.len())));
    }
    assert_eq!(decode_varint(&[0x80, 0, 1], 0), None);
    assert_eq!(decode_varint(&[1, 0x25], 1), Some((0x25, 1)));
    assert_eq!(decode_varint(&[1], 1), None);
}

#[test]
fn handler_writes_local_parameters() {
    let mut h = TransportParametersHandler::default();
    h.local.set_integer(TRANSPORT_PARAMETER_IDLE_TIMEOUT, 5);
    let mut buf = [0xeeu8; 8];
    assert_eq!(h.write(TLS_HS_CLIENT_HELLO, &mut buf), ExtensionWriterResult::Write(5));
    assert_eq!(buf, [0, 1, 0, 1, 5, 0xee, 0xee, 0xee]);
    let mut buf = [0xeeu8; 8];
    assert_eq!(h.write(2, &mut buf), ExtensionWriterResult::Skip);
    assert_eq!(buf, [0xee; 8]);
}

#[test]
fn handler_reads_remote_parameters() {
    let mut h = TransportParametersHandler::default();
    assert_eq!(h.handle(2, &[0, 1, 0, 1, 5]), ExtensionHandlerResult::Alert(110));
    assert!(h.remote.is_none());
    assert_eq!(
        h.handle(TLS_HS_ENCRYPTED_EXTENSIONS, &[0, 3, 0, 1, 5]),
        ExtensionHandlerResult::Alert(47)
    );
    assert!(h.remote.is_none());
    assert_eq!(
        h.handle(TLS_HS_ENCRYPTED_EXTENSIONS, &[0, 1, 0, 1, 5]),
        ExtensionHandlerResult::Handled
    );
    let remote = h.remote.as_ref().unwrap();
    assert_eq!(remote.get_integer(TRANSPORT_PARAMETER_IDLE_TIMEOUT), 5);
}
