//! Classification of a connection's first frame by its protocol name and
//! level, and the rewrite of an MQTT 3.1.0 handshake into 3.1.1 form.
use vstd::prelude::*;
use vstd::slice::{slice_subrange, slice_to_vec};

use crate::codec::{encode_remaining_length, encode_spec, MAX_REMAINING_LENGTH};
use crate::error::ProxyError;

verus! {

/// The protocol dialect that a client speaks.
#[derive(Clone, Copy, Debug, PartialEq, Eq, Structural)]
pub enum Dialect {
    /// MQTT 3.1.0: protocol name "MQIsdp", level 3.
    LegacyV1,
    /// MQTT 3.1.1: protocol name "MQTT", level 4.
    Standard,
    /// MQTT 5.0: protocol name "MQTT", level 5.
    Extended,
}

/// The packet type in the upper four bits of a CONNECT frame's header byte.
pub const CONNECT_PACKET_TYPE: u8 = 1;

/// The level byte of MQTT 3.1.0.
pub const LEGACY_LEVEL: u8 = 3;

/// The level byte of MQTT 3.1.1.
pub const STANDARD_LEVEL: u8 = 4;

/// The level byte of MQTT 5.0.
pub const EXTENDED_LEVEL: u8 = 5;

/// The header byte announces a CONNECT frame.
pub open spec fn is_connect_header(header: u8) -> bool {
    header >> 4 == CONNECT_PACKET_TYPE
}

/// "MQIsdp"
pub open spec fn legacy_name() -> Seq<u8> {
    seq![77u8, 81u8, 73u8, 115u8, 100u8, 112u8]
}

/// "MQTT"
pub open spec fn standard_name() -> Seq<u8> {
    seq![77u8, 81u8, 84u8, 84u8]
}

/// The big-endian length of the protocol name at the start of a payload.
pub open spec fn name_len_of(p: Seq<u8>) -> int {
    p[0] as int * 256 + p[1] as int
}

/// The payload ends before its protocol name and level byte do.
pub open spec fn is_truncated(p: Seq<u8>) -> bool {
    p.len() < 2 || p.len() < name_len_of(p) + 3
}

/// The protocol name of a payload that is not truncated.
pub open spec fn name_of(p: Seq<u8>) -> Seq<u8> {
    p.subrange(2, 2 + name_len_of(p))
}

/// The level byte of a payload that is not truncated.
pub open spec fn level_of(p: Seq<u8>) -> u8 {
    p[2 + name_len_of(p)]
}

/// The fields after the level byte: flags, keep-alive and the rest.
pub open spec fn fields_after_level(p: Seq<u8>) -> Seq<u8> {
    p.subrange(3 + name_len_of(p), p.len() as int)
}

/// The dialect that a protocol name and level identify, if any.
pub open spec fn dialect_of(name: Seq<u8>, level: u8) -> Option<Dialect> {
    if name == legacy_name() && level == LEGACY_LEVEL {
        Some(Dialect::LegacyV1)
    } else if name == standard_name() && level == STANDARD_LEVEL {
        Some(Dialect::Standard)
    } else if name == standard_name() && level == EXTENDED_LEVEL {
        Some(Dialect::Extended)
    } else {
        None
    }
}

/// The name-length, name and level of a 3.1.1 handshake.
pub open spec fn standard_prefix() -> Seq<u8> {
    seq![0u8, 4u8] + standard_name() + seq![STANDARD_LEVEL]
}

/// The payload forwarded for a client of dialect `d`: a 3.1.0 payload gets
/// the 3.1.1 prefix in place of its own; the others go through unchanged.
pub open spec fn converted_payload(d: Dialect, p: Seq<u8>) -> Seq<u8> {
    match d {
        Dialect::LegacyV1 => standard_prefix() + fields_after_level(p),
        _ => p,
    }
}

/// `r` is what classifying the payload `p` gives.
pub open spec fn classifies(p: Seq<u8>, r: Result<(Dialect, Vec<u8>), ProxyError>) -> bool {
    match r {
        Ok((d, out)) => {
            &&& !is_truncated(p)
            &&& dialect_of(name_of(p), level_of(p)) == Some(d)
            &&& out@ == converted_payload(d, p)
        },
        Err(ProxyError::TruncatedHandshake) => is_truncated(p),
        Err(ProxyError::UnknownDialect { name, level }) => {
            &&& !is_truncated(p)
            &&& dialect_of(name_of(p), level_of(p)) is None
            &&& name@ == name_of(p)
            &&& level == level_of(p)
        },
        Err(_) => false,
    }
}

/// The bytes of `p` from `start` on equal `expected`.
fn bytes_match(p: &[u8], start: usize, expected: &Vec<u8>) -> (r: bool)
    requires
        start + expected@.len() <= p@.len(),
    ensures
        r == (p@.subrange(start as int, start + expected@.len()) == expected@),
{
    let total: usize = p.len();
    let mut i: usize = 0;
    while i < expected.len()
        invariant
            total == p@.len(),
            i <= expected@.len(),
            start + expected@.len() <= p@.len(),
            forall|j: int| 0 <= j < i ==> p@[start + j] == expected@[j],
        decreases expected@.len() - i,
    {
        if p[start + i] != expected[i] {
            assert(p@.subrange(start as int, start + expected@.len())[i as int] != expected@[i as int]);
            return false;
        }
        i = i + 1;
    }
    assert(p@.subrange(start as int, start + expected@.len()) =~= expected@);
    true
}

/// Classifies a CONNECT payload by its protocol name and level, and gives
/// the payload to forward: a 3.1.0 payload rewritten to 3.1.1, the others
/// unchanged.
pub fn detect_and_convert_protocol(payload: &[u8]) -> (r: Result<(Dialect, Vec<u8>), ProxyError>)
    ensures
        classifies(payload@, r),
{
    let ghost p = payload@;
    if payload.len() < 2 {
        return Err(ProxyError::TruncatedHandshake);
    }
    let name_len: usize = (payload[0] as usize) * 256 + payload[1] as usize;
    if payload.len() < name_len + 3 {
        return Err(ProxyError::TruncatedHandshake);
    }
    let level: u8 = payload[2 + name_len];
    let legacy: Vec<u8> = vec![77u8, 81u8, 73u8, 115u8, 100u8, 112u8];
    let standard: Vec<u8> = vec![77u8, 81u8, 84u8, 84u8];
    assert(legacy@ =~= legacy_name());
    assert(standard@ =~= standard_name());
    let is_legacy = name_len == 6 && bytes_match(payload, 2, &legacy);
    let is_standard = name_len == 4 && bytes_match(payload, 2, &standard);
    assert(is_legacy == (name_of(p) == legacy_name()));
    assert(is_standard == (name_of(p) == standard_name()));
    if is_legacy && level == LEGACY_LEVEL {
        let mut out: Vec<u8> = vec![0u8, 4u8, 77u8, 81u8, 84u8, 84u8, STANDARD_LEVEL];
        assert(out@ =~= standard_prefix());
        let mut rest = slice_to_vec(slice_subrange(payload, name_len + 3, payload.len()));
        out.append(&mut rest);
        Ok((Dialect::LegacyV1, out))
    } else if is_standard && level == STANDARD_LEVEL {
        Ok((Dialect::Standard, slice_to_vec(payload)))
    } else if is_standard && level == EXTENDED_LEVEL {
        Ok((Dialect::Extended, slice_to_vec(payload)))
    } else {
        let name = slice_to_vec(slice_subrange(payload, 2, 2 + name_len));
        Err(ProxyError::UnknownDialect { name, level })
    }
}

/// The frame sent to the backend: the client's header byte, the length
/// field of the payload, the payload.
pub open spec fn frame_spec(header: u8, payload: Seq<u8>) -> Seq<u8> {
    seq![header] + encode_spec(payload.len()) + payload
}

/// `r` is what handling a first frame with header byte `header` and payload
/// `p` gives: the dialect and the whole frame to forward, or why not.
pub open spec fn forwards(header: u8, p: Seq<u8>, r: Result<(Dialect, Vec<u8>), ProxyError>) -> bool {
    match r {
        Ok((d, frame)) => {
            &&& is_connect_header(header)
            &&& !is_truncated(p)
            &&& dialect_of(name_of(p), level_of(p)) == Some(d)
            &&& frame@ == frame_spec(header, converted_payload(d, p))
        },
        Err(ProxyError::UnexpectedFrame) => !is_connect_header(header),
        Err(e) => is_connect_header(header) && classifies(p, Err(e)),
    }
}

/// Checks that the header byte announces a CONNECT frame, then classifies
/// and converts its payload.
pub fn classify_and_rewrite(header: u8, payload: &[u8]) -> (r: Result<(Dialect, Vec<u8>), ProxyError>)
    ensures
        !is_connect_header(header) ==> r == Err::<(Dialect, Vec<u8>), ProxyError>(
            ProxyError::UnexpectedFrame,
        ),
        is_connect_header(header) ==> classifies(payload@, r),
{
    if header >> 4 != CONNECT_PACKET_TYPE {
        return Err(ProxyError::UnexpectedFrame);
    }
    detect_and_convert_protocol(payload)
}

/// Builds the frame to send to the backend in place of a client's first
/// frame, whose header byte is `header` and whose payload is `payload`.
pub fn forward_frame(header: u8, payload: &[u8]) -> (r: Result<(Dialect, Vec<u8>), ProxyError>)
    requires
        payload@.len() <= MAX_REMAINING_LENGTH,
    ensures
        forwards(header, payload@, r),
{
    match classify_and_rewrite(header, payload) {
        Ok((dialect, converted)) => {
            assert(converted@.len() <= payload@.len()) by {
                if dialect == Dialect::LegacyV1 {
                    assert(name_of(payload@).len() == name_len_of(payload@));
                    assert(legacy_name().len() == 6);
                    assert(converted@.len() == 7 + payload@.len() - 3 - name_len_of(payload@));
                }
            }
            let mut frame: Vec<u8> = vec![header];
            let mut length = encode_remaining_length(converted.len());
            let mut body = converted;
            let ghost body_view = body@;
            frame.append(&mut length);
            frame.append(&mut body);
            assert(frame@ =~= frame_spec(header, body_view));
            Ok((dialect, frame))
        },
        Err(e) => Err(e),
    }
}

/// A payload that opens with the 3.1.0 protocol name and level 3 is a 3.1.0
/// handshake, and it is forwarded opening with the 3.1.1 name and level 4.
pub proof fn lemma_legacy_classified(p: Seq<u8>, r: Result<(Dialect, Vec<u8>), ProxyError>)
    requires
        p.len() >= 9,
        p.subrange(0, 8) == seq![0u8, 6u8] + legacy_name(),
        p[8] == LEGACY_LEVEL,
        classifies(p, r),
    ensures
        r matches Ok((d, out)) && d == Dialect::LegacyV1 && out@.len() >= 7 && out@.subrange(0, 7)
            == seq![0u8, 4u8, 77u8, 81u8, 84u8, 84u8, 4u8],
{
    assert(p[0] == p.subrange(0, 8)[0]);
    assert(p[1] == p.subrange(0, 8)[1]);
    assert(name_of(p) =~= legacy_name()) by {
        assert(forall|j: int| 2 <= j < 8 ==> p[j] == p.subrange(0, 8)[j]);
    }
    let out = converted_payload(Dialect::LegacyV1, p);
    assert(out.subrange(0, 7) =~= seq![0u8, 4u8, 77u8, 81u8, 84u8, 84u8, 4u8]);
}

/// Rewriting a 3.1.0 handshake keeps every byte after its level byte: the
/// forwarded payload from offset 7 on is the client's from offset 9 on.
pub proof fn lemma_legacy_suffix_kept(p: Seq<u8>, r: Result<(Dialect, Vec<u8>), ProxyError>)
    requires
        p.len() >= 9,
        p.subrange(0, 8) == seq![0u8, 6u8] + legacy_name(),
        p[8] == LEGACY_LEVEL,
        classifies(p, r),
    ensures
        r matches Ok((_, out)) && out@.len() >= 7 && out@.subrange(7, out@.len() as int)
            == p.subrange(9, p.len() as int),
{
    lemma_legacy_classified(p, r);
    assert(p[0] == p.subrange(0, 8)[0]);
    assert(p[1] == p.subrange(0, 8)[1]);
    let out = converted_payload(Dialect::LegacyV1, p);
    assert(out.subrange(7, out.len() as int) =~= p.subrange(9, p.len() as int));
}

/// A 3.1.1 or 5.0 handshake is forwarded byte for byte as it came.
pub proof fn lemma_pass_through(p: Seq<u8>, r: Result<(Dialect, Vec<u8>), ProxyError>)
    requires
        classifies(p, r),
        !is_truncated(p),
        name_of(p) == standard_name(),
        level_of(p) == STANDARD_LEVEL || level_of(p) == EXTENDED_LEVEL,
    ensures
        r matches Ok((d, out)) && d != Dialect::LegacyV1 && out@ == p,
{
    assert(standard_name() != legacy_name()) by {
        assert(standard_name().len() != legacy_name().len());
    }
}

/// A handshake naming the protocol "FOO" is refused as an unknown dialect,
/// whatever its level.
pub proof fn lemma_unknown_name_refused(p: Seq<u8>, r: Result<(Dialect, Vec<u8>), ProxyError>)
    requires
        p.len() >= 6,
        p.subrange(0, 5) == seq![0u8, 3u8, 70u8, 79u8, 79u8],
        classifies(p, r),
    ensures
        r matches Err(ProxyError::UnknownDialect { name, level }) && name@ == seq![70u8, 79u8, 79u8]
            && level == p[5],
{
    assert(p[0] == p.subrange(0, 5)[0]);
    assert(p[1] == p.subrange(0, 5)[1]);
    assert(name_of(p) =~= seq![70u8, 79u8, 79u8]) by {
        assert(forall|j: int| 2 <= j < 5 ==> p[j] == p.subrange(0, 5)[j]);
    }
    assert(name_of(p).len() != legacy_name().len());
    assert(name_of(p).len() != standard_name().len());
}

} // verus!
