use vstd::prelude::*;

use crate::params::{decode_block, TransportParameters};

verus! {

/// Handshake message type of a ClientHello.
pub const TLS_HS_CLIENT_HELLO: u8 = 1;

/// Handshake message type of EncryptedExtensions.
pub const TLS_HS_ENCRYPTED_EXTENSIONS: u8 = 8;

/// Alert sent for an extension in a message that may not carry it.
pub const ALERT_UNSUPPORTED_EXTENSION: u8 = 110;

/// Alert sent for a malformed extension.
pub const ALERT_ILLEGAL_PARAMETER: u8 = 47;

/// What writing the extension into a message came to.
#[derive(PartialEq, Eq, Structural, Debug, Clone, Copy)]
pub enum ExtensionWriterResult {
    /// This many bytes of the buffer were written.
    Write(usize),
    /// The message does not carry the extension.
    Skip,
}

/// What reading the extension from a message came to.
#[derive(PartialEq, Eq, Structural, Debug, Clone, Copy)]
pub enum ExtensionHandlerResult {
    /// The extension was read.
    Handled,
    /// The handshake is to be aborted with this alert.
    Alert(u8),
}

/// The messages that carry transport parameters.
pub open spec fn carries_parameters(msg: u8) -> bool {
    msg == TLS_HS_CLIENT_HELLO || msg == TLS_HS_ENCRYPTED_EXTENSIONS
}

/// The parameters this endpoint sends, and those the peer sent once they
/// have been read.
#[derive(Debug)]
pub struct TransportParametersHandler {
    pub local: TransportParameters,
    pub remote: Option<TransportParameters>,
}

impl Default for TransportParametersHandler {
    fn default() -> (r: TransportParametersHandler)
        ensures
            r.local.wf(),
            r.local@ == Map::<u16, crate::param::ParamValue>::empty(),
            r.remote is None,
    {
        TransportParametersHandler { local: TransportParameters::default(), remote: None }
    }
}

impl TransportParametersHandler {
    /// Writes the local parameters at the start of `d` when `msg` carries
    /// them, and reports how many bytes that took.
    pub fn write(&mut self, msg: u8, d: &mut [u8]) -> (r: ExtensionWriterResult)
        requires
            old(self).local.wf(),
            carries_parameters(msg) ==> old(self).local.encoding().len() <= old(d)@.len(),
        ensures
            *final(self) == *old(self),
            carries_parameters(msg) ==> {
                let e = old(self).local.encoding();
                &&& r == ExtensionWriterResult::Write(e.len() as usize)
                &&& final(d)@ == e + old(d)@.subrange(e.len() as int, old(d)@.len() as int)
            },
            !carries_parameters(msg) ==> r == ExtensionWriterResult::Skip && final(d)@ == old(d)@,
    {
        if !(msg == TLS_HS_CLIENT_HELLO || msg == TLS_HS_ENCRYPTED_EXTENSIONS) {
            return ExtensionWriterResult::Skip;
        }
        let mut buf: Vec<u8> = Vec::new();
        let _ = self.local.encode(&mut buf);
        assert(buf@ =~= self.local.encoding());
        let n = buf.len();
        let ghost start = d@;
        let mut i: usize = 0;
        while i < n
            invariant
                i <= n,
                n == buf@.len(),
                n <= d@.len(),
                d@.len() == start.len(),
                d@ == buf@.take(i as int) + start.subrange(i as int, start.len() as int),
            decreases n - i,
        {
            d[i] = buf[i];
            i = i + 1;
            assert(d@ =~= buf@.take(i as int) + start.subrange(i as int, start.len() as int));
        }
        assert(buf@.take(n as int) =~= buf@);
        ExtensionWriterResult::Write(n)
    }

    /// Reads the peer's parameters from `d` when `msg` carries them. On
    /// success they become `remote`; on failure nothing changes and the
    /// result is the alert to send.
    pub fn handle(&mut self, msg: u8, d: &[u8]) -> (r: ExtensionHandlerResult)
        ensures
            !carries_parameters(msg) ==> r == ExtensionHandlerResult::Alert(
                ALERT_UNSUPPORTED_EXTENSION,
            ) && *final(self) == *old(self),
            carries_parameters(msg) ==> match decode_block(d@) {
                Ok(m) => {
                    &&& r == ExtensionHandlerResult::Handled
                    &&& final(self).local == old(self).local
                    &&& final(self).remote matches Some(t) && t.wf() && t@ == m
                },
                Err(_) => {
                    &&& r == ExtensionHandlerResult::Alert(ALERT_ILLEGAL_PARAMETER)
                    &&& *final(self) == *old(self)
                },
            },
    {
        if !(msg == TLS_HS_CLIENT_HELLO || msg == TLS_HS_ENCRYPTED_EXTENSIONS) {
            return ExtensionHandlerResult::Alert(ALERT_UNSUPPORTED_EXTENSION);
        }
        match TransportParameters::decode(d) {
            Err(_) => ExtensionHandlerResult::Alert(ALERT_ILLEGAL_PARAMETER),
            Ok(tp) => {
                self.remote = Some(tp);
                ExtensionHandlerResult::Handled
            },
        }
    }
}

} // verus!
