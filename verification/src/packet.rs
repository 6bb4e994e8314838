//! The datagrams of the hole-punched transfer: a four byte magic, a type byte
//! and a payload.

use vstd::prelude::*;
use vstd::slice::slice_subrange;
use vstd::utf8::{decode_utf8, encode_utf8, valid_utf8};

use crate::bytes::{be_bytes_u32, be_bytes_u64, be_value_u32, be_value_u64};

verus! {

/// Opens a hole: the payload is the hash of the transfer code.
pub const PKT_PUNCH: u8 = 0x10;

/// Answers a punch, with the same payload.
pub const PKT_PUNCH_ACK: u8 = 0x11;

/// Announces a file: its size and its name.
pub const PKT_OFFER: u8 = 0x20;

/// Accepts the offered file.
pub const PKT_ACCEPT: u8 = 0x21;

/// One chunk of the file under its sequence number.
pub const PKT_DATA: u8 = 0x30;

/// Acknowledges every chunk up to and including a sequence number.
pub const PKT_ACK: u8 = 0x31;

/// Tells the receiver that the file has been sent.
pub const PKT_FIN: u8 = 0x40;

/// Answers a `PKT_FIN`.
pub const PKT_FIN_ACK: u8 = 0x41;

/// The most file bytes that one data packet carries.
pub const DATA_PAYLOAD: usize = 1400;

/// The longest datagram that either side reads.
pub const MAX_PKT: usize = 1500;

/// What an offer is named whose name is not UTF-8.
pub const FALLBACK_NAME: &'static str = "file";

/// `OMNI`, which every packet begins with.
pub open spec fn magic() -> Seq<u8> {
    seq![0x4fu8, 0x4du8, 0x4eu8, 0x49u8]
}

/// The packet of type `pkt_type` that carries `payload`.
pub open spec fn packet(pkt_type: u8, payload: Seq<u8>) -> Seq<u8> {
    magic() + seq![pkt_type] + payload
}

/// The type and payload of a packet; `None` where `data` is not one.
pub open spec fn packet_parts(data: Seq<u8>) -> Option<(u8, Seq<u8>)> {
    if data.len() >= 5 && data.take(4) == magic() {
        Some((data[4], data.skip(5)))
    } else {
        None
    }
}

/// True when `data` is a packet of type `pkt_type`.
pub open spec fn has_type(data: Seq<u8>, pkt_type: u8) -> bool {
    packet_parts(data) matches Some(parts) && parts.0 == pkt_type
}

/// The data packet of chunk `seq`.
pub open spec fn data_packet(seq: u32, chunk: Seq<u8>) -> Seq<u8> {
    packet(PKT_DATA, crate::bytes::be_bytes(seq as nat, 4) + chunk)
}

/// The sequence number and chunk of a data packet; `None` for anything else.
pub open spec fn data_parts(data: Seq<u8>) -> Option<(u32, Seq<u8>)> {
    match packet_parts(data) {
        Some((PKT_DATA, payload)) => if payload.len() >= 4 {
            Some((crate::bytes::be_value(payload.take(4)) as u32, payload.skip(4)))
        } else {
            None
        },
        _ => None,
    }
}

/// The packet that acknowledges every chunk up to `seq`.
pub open spec fn ack_packet(seq: u32) -> Seq<u8> {
    packet(PKT_ACK, crate::bytes::be_bytes(seq as nat, 4))
}

/// The sequence number that `data` acknowledges; `None` where `data` is no
/// acknowledgement.
pub open spec fn acked_seq(data: Seq<u8>) -> Option<u32> {
    match packet_parts(data) {
        Some((PKT_ACK, payload)) => if payload.len() >= 4 {
            Some(crate::bytes::be_value(payload.take(4)) as u32)
        } else {
            None
        },
        _ => None,
    }
}

/// The offer of a file of `size` bytes named `name`.
pub open spec fn offer_packet(size: u64, name: Seq<char>) -> Seq<u8> {
    packet(PKT_OFFER, crate::bytes::be_bytes(size as nat, 8) + encode_utf8(name))
}

/// The size and name in an offer; `None` where `data` is no offer. A name that
/// is not UTF-8 is replaced.
pub open spec fn offer_parts(data: Seq<u8>) -> Option<(u64, Seq<char>)> {
    match packet_parts(data) {
        Some((PKT_OFFER, payload)) => if payload.len() >= 8 {
            Some(
                (
                    crate::bytes::be_value(payload.take(8)) as u64,
                    if valid_utf8(payload.skip(8)) {
                        decode_utf8(payload.skip(8))
                    } else {
                        FALLBACK_NAME@
                    },
                ),
            )
        } else {
            None
        },
        _ => None,
    }
}

/// A packet that was built parses into what it was built from.
pub proof fn law_parse_of_build(pkt_type: u8, payload: Seq<u8>)
    ensures
        packet_parts(packet(pkt_type, payload)) == Some((pkt_type, payload)),
{
    let p = packet(pkt_type, payload);
    assert(p.take(4) =~= magic());
    assert(p.skip(5) =~= payload);
}

/// Datagrams that parse are exactly those that can be built: building from the
/// parts gives the datagram back.
pub proof fn law_build_of_parse(data: Seq<u8>)
    ensures
        packet_parts(data) matches Some(parts) ==> packet(parts.0, parts.1) == data,
{
    if packet_parts(data) is Some {
        let parts = packet_parts(data)->0;
        assert(packet(parts.0, parts.1) =~= data);
    }
}

/// A chunk comes out of its data packet as it went in, under its number.
pub proof fn law_data_round_trip(seq: u32, chunk: Seq<u8>)
    ensures
        data_parts(data_packet(seq, chunk)) == Some((seq, chunk)),
        data_packet(seq, chunk).len() == 9 + chunk.len(),
{
    let number = crate::bytes::be_bytes(seq as nat, 4);
    crate::bytes::lemma_byte_ranges();
    crate::bytes::law_be_value_of_bytes(seq as nat, 4);
    law_parse_of_build(PKT_DATA, number + chunk);
    assert((number + chunk).take(4) =~= number);
    assert((number + chunk).skip(4) =~= chunk);
}

/// A sequence number comes out of its acknowledgement as it went in.
pub proof fn law_ack_round_trip(seq: u32)
    ensures
        acked_seq(ack_packet(seq)) == Some(seq),
{
    let number = crate::bytes::be_bytes(seq as nat, 4);
    crate::bytes::lemma_byte_ranges();
    crate::bytes::law_be_value_of_bytes(seq as nat, 4);
    law_parse_of_build(PKT_ACK, number);
    assert(number.take(4) =~= number);
}

/// Size and name come out of an offer as they went in.
pub proof fn law_offer_round_trip(size: u64, name: Seq<char>)
    ensures
        offer_parts(offer_packet(size, name)) == Some((size, name)),
{
    let number = crate::bytes::be_bytes(size as nat, 8);
    let text = encode_utf8(name);
    crate::bytes::lemma_byte_ranges();
    crate::bytes::law_be_value_of_bytes(size as nat, 8);
    law_parse_of_build(PKT_OFFER, number + text);
    assert((number + text).take(8) =~= number);
    assert((number + text).skip(8) =~= text);
    vstd::utf8::encode_utf8_valid_utf8(name);
    vstd::utf8::encode_utf8_decode_utf8(name);
}

/// The failure of `core::str::from_utf8`.
#[verifier::external_type_specification]
#[verifier::external_body]
pub struct ExUtf8Error(core::str::Utf8Error);

/// `core::str::from_utf8`: it succeeds exactly on valid UTF-8, with the text
/// that the bytes encode.
pub assume_specification<'a>[ core::str::from_utf8 ](v: &'a [u8]) -> (r: Result<
    &'a str,
    core::str::Utf8Error,
>)
    ensures
        r is Ok <==> valid_utf8(v@),
        r matches Ok(s) ==> s@ == decode_utf8(v@),
;

/// The packet of type `pkt_type` that carries `payload`.
pub fn build_simple(pkt_type: u8, payload: &[u8]) -> (p: Vec<u8>)
    ensures
        p@ == packet(pkt_type, payload@),
{
    let mut p: Vec<u8> = Vec::new();
    p.push(0x4f);
    p.push(0x4d);
    p.push(0x4e);
    p.push(0x49);
    p.push(pkt_type);
    proof {
        assert(p@ =~= magic() + seq![pkt_type]);
    }
    p.extend_from_slice(payload);
    proof {
        assert(p@ =~= packet(pkt_type, payload@));
    }
    p
}

/// The data packet of chunk `seq`.
pub fn build_data(seq: u32, data: &[u8]) -> (p: Vec<u8>)
    ensures
        p@ == data_packet(seq, data@),
{
    let number: Vec<u8> = be_bytes_u32(seq);
    let mut p: Vec<u8> = build_simple(PKT_DATA, number.as_slice());
    p.extend_from_slice(data);
    proof {
        assert(p@ =~= data_packet(seq, data@));
    }
    p
}

/// The packet that acknowledges every chunk up to `cumulative_seq`.
pub fn build_ack(cumulative_seq: u32) -> (p: Vec<u8>)
    ensures
        p@ == ack_packet(cumulative_seq),
{
    let number: Vec<u8> = be_bytes_u32(cumulative_seq);
    build_simple(PKT_ACK, number.as_slice())
}

/// The offer of a file of `file_size` bytes named `file_name`.
pub fn build_offer(file_size: u64, file_name: &str) -> (p: Vec<u8>)
    ensures
        p@ == offer_packet(file_size, file_name@),
{
    let mut payload: Vec<u8> = be_bytes_u64(file_size);
    payload.extend_from_slice(file_name.as_bytes());
    proof {
        assert(payload@ =~= crate::bytes::be_bytes(file_size as nat, 8) + encode_utf8(file_name@));
    }
    build_simple(PKT_OFFER, payload.as_slice())
}

/// The type and payload of a packet; `None` where `data` is not one.
pub fn parse_pkt(data: &[u8]) -> (r: Option<(u8, &[u8])>)
    ensures
        r is Some <==> packet_parts(data@) is Some,
        r matches Some(parts) ==> packet_parts(data@) == Some((parts.0, parts.1@)),
{
    if data.len() >= 5 && data[0] == 0x4f && data[1] == 0x4d && data[2] == 0x4e && data[3] == 0x49 {
        proof {
            assert(data@.take(4) =~= magic());
            assert(data@.subrange(5, data@.len() as int) == data@.skip(5));
        }
        Some((data[4], slice_subrange(data, 5, data.len())))
    } else {
        proof {
            if data@.len() >= 5 && data@.take(4) == magic() {
                assert(data@.take(4)[0] == 0x4f);
                assert(data@.take(4)[1] == 0x4d);
                assert(data@.take(4)[2] == 0x4e);
                assert(data@.take(4)[3] == 0x49);
            }
        }
        None
    }
}

/// True when `data` is a packet of type `pkt_type`.
pub fn is_packet_of(data: &[u8], pkt_type: u8) -> (r: bool)
    ensures
        r == has_type(data@, pkt_type),
{
    match parse_pkt(data) {
        Some(parts) => parts.0 == pkt_type,
        None => false,
    }
}

fn number_at_start(payload: &[u8]) -> (r: u32)
    requires
        payload@.len() >= 4,
    ensures
        r == crate::bytes::be_value(payload@.take(4)) as u32,
{
    proof {
        assert(payload@.subrange(0, 4) == payload@.take(4));
    }
    be_value_u32(slice_subrange(payload, 0, 4))
}

/// The sequence number and chunk of a data packet; `None` for anything else.
pub fn parse_data(data: &[u8]) -> (r: Option<(u32, &[u8])>)
    ensures
        r is Some <==> data_parts(data@) is Some,
        r matches Some(parts) ==> data_parts(data@) == Some((parts.0, parts.1@)),
{
    match parse_pkt(data) {
        Some((pkt_type, payload)) => if pkt_type == PKT_DATA && payload.len() >= 4 {
            proof {
                assert(payload@.subrange(4, payload@.len() as int) == payload@.skip(4));
            }
            Some((number_at_start(payload), slice_subrange(payload, 4, payload.len())))
        } else {
            None
        },
        None => None,
    }
}

/// The sequence number that `data` acknowledges; `None` where `data` is no
/// acknowledgement.
pub fn parse_ack(data: &[u8]) -> (r: Option<u32>)
    ensures
        r == acked_seq(data@),
{
    match parse_pkt(data) {
        Some((pkt_type, payload)) => if pkt_type == PKT_ACK && payload.len() >= 4 {
            Some(number_at_start(payload))
        } else {
            None
        },
        None => None,
    }
}

/// The size and name in an offer; `None` where `data` is no offer. A name that
/// is not UTF-8 is replaced.
pub fn parse_offer(data: &[u8]) -> (r: Option<(u64, String)>)
    ensures
        r is Some <==> offer_parts(data@) is Some,
        r matches Some(parts) ==> offer_parts(data@) == Some((parts.0, parts.1@)),
{
    match parse_pkt(data) {
        Some((pkt_type, payload)) => if pkt_type == PKT_OFFER && payload.len() >= 8 {
            let size: u64 = be_value_u64(slice_subrange(payload, 0, 8));
            let name_bytes = slice_subrange(payload, 8, payload.len());
            let name: String = match core::str::from_utf8(name_bytes) {
                Ok(s) => s.to_owned(),
                Err(_) => FALLBACK_NAME.to_owned(),
            };
            proof {
                assert(payload@.subrange(0, 8) == payload@.take(8));
                assert(payload@.subrange(8, payload@.len() as int) == payload@.skip(8));
            }
            Some((size, name))
        } else {
            None
        },
        None => None,
    }
}

/// Where everything stands in a packet: `OMNI`, the type, the payload.
pub proof fn law_packet_layout(pkt_type: u8, payload: Seq<u8>)
    ensures
        ({
            let p = packet(pkt_type, payload);
            &&& p.len() == 5 + payload.len()
            &&& p[0] == 0x4f && p[1] == 0x4d && p[2] == 0x4e && p[3] == 0x49
            &&& p[4] == pkt_type
            &&& p.skip(5) == payload
        }),
{
    assert(packet(pkt_type, payload).skip(5) =~= payload);
}

/// A datagram is a packet exactly when it begins with `OMNI` and goes on; then
/// the next byte is its type and the rest its payload.
pub proof fn law_packet_parts(d: Seq<u8>, pkt_type: u8)
    ensures
        packet_parts(d) is Some <==> d.len() >= 5 && d[0] == 0x4f && d[1] == 0x4d && d[2] == 0x4e
            && d[3] == 0x49,
        packet_parts(d) matches Some(parts) ==> parts.0 == d[4] && parts.1 == d.skip(5),
        has_type(d, pkt_type) <==> d.len() >= 5 && d[0] == 0x4f && d[1] == 0x4d && d[2] == 0x4e
            && d[3] == 0x49 && d[4] == pkt_type,
{
    if d.len() >= 5 {
        if d.take(4) == magic() {
            assert(d.take(4)[0] == 0x4f);
            assert(d.take(4)[1] == 0x4d);
            assert(d.take(4)[2] == 0x4e);
            assert(d.take(4)[3] == 0x49);
        }
        if d[0] == 0x4f && d[1] == 0x4d && d[2] == 0x4e && d[3] == 0x49 {
            assert(d.take(4) =~= magic());
        }
    }
}

/// True when `d` begins like a packet of type `pkt_type` with a payload of at
/// least `n` bytes.
pub open spec fn begins_as(d: Seq<u8>, pkt_type: u8, n: nat) -> bool {
    &&& d.len() >= 5 + n
    &&& d[0] == 0x4f && d[1] == 0x4d && d[2] == 0x4e && d[3] == 0x49
    &&& d[4] == pkt_type
}

/// The number that four bytes of `d` from `i` on write, most significant first.
pub open spec fn number_at(d: Seq<u8>, i: int) -> int {
    d[i] * 0x100_0000 + d[i + 1] * 0x1_0000 + d[i + 2] * 0x100 + d[i + 3]
}

/// Where everything stands in a data packet: `OMNI`, 0x30, the number in four
/// bytes, the chunk.
pub proof fn law_data_layout(seq: u32, chunk: Seq<u8>)
    ensures
        ({
            let p = data_packet(seq, chunk);
            &&& p.len() == 9 + chunk.len()
            &&& begins_as(p, 0x30, 4)
            &&& number_at(p, 5) == seq
            &&& p.skip(9) == chunk
        }),
{
    lemma_numbered_layout(PKT_DATA, seq, chunk);
}

/// Where everything stands in an acknowledgement: `OMNI`, 0x31, the number in
/// four bytes.
pub proof fn law_ack_layout(seq: u32)
    ensures
        ({
            let p = ack_packet(seq);
            &&& p.len() == 9
            &&& begins_as(p, 0x31, 4)
            &&& number_at(p, 5) == seq
        }),
{
    let number = crate::bytes::be_bytes(seq as nat, 4);
    assert(number + Seq::<u8>::empty() =~= number);
    lemma_numbered_layout(PKT_ACK, seq, Seq::empty());
}

proof fn lemma_numbered_layout(pkt_type: u8, seq: u32, rest: Seq<u8>)
    ensures
        ({
            let p = packet(pkt_type, crate::bytes::be_bytes(seq as nat, 4) + rest);
            &&& p.len() == 9 + rest.len()
            &&& begins_as(p, pkt_type, 4)
            &&& number_at(p, 5) == seq
            &&& p.skip(9) == rest
        }),
{
    let number = crate::bytes::be_bytes(seq as nat, 4);
    let p = packet(pkt_type, number + rest);
    crate::bytes::lemma_byte_ranges();
    crate::bytes::law_be_value_of_bytes(seq as nat, 4);
    crate::bytes::law_be_value_of_four(number);
    assert(p.skip(9) =~= rest);
    assert(p[5] == number[0] && p[6] == number[1] && p[7] == number[2] && p[8] == number[3]);
}

/// Where everything stands in an offer: `OMNI`, 0x20, the size in eight bytes,
/// the name in UTF-8.
pub proof fn law_offer_layout(size: u64, name: Seq<char>)
    ensures
        ({
            let p = offer_packet(size, name);
            &&& p.len() == 13 + encode_utf8(name).len()
            &&& begins_as(p, 0x20, 8)
            &&& number_at(p, 5) * 0x1_0000_0000 + number_at(p, 9) == size
            &&& p.skip(13) == encode_utf8(name)
        }),
{
    let number = crate::bytes::be_bytes(size as nat, 8);
    let p = offer_packet(size, name);
    crate::bytes::lemma_byte_ranges();
    crate::bytes::law_be_value_of_bytes(size as nat, 8);
    crate::bytes::law_be_value_of_eight(number);
    assert(p.skip(13) =~= encode_utf8(name));
    assert forall|i: int| 0 <= i < 8 implies p[5 + i] == #[trigger] number[i] by {}
}

/// What is read from a datagram as a chunk: exactly those of type 0x30 with four
/// bytes of payload hold one, under the number that the four write.
pub proof fn law_data_parts(d: Seq<u8>)
    ensures
        data_parts(d) is Some <==> begins_as(d, 0x30, 4),
        data_parts(d) matches Some(parts) ==> parts.0 == number_at(d, 5) && parts.1 == d.skip(9),
{
    law_packet_parts(d, PKT_DATA);
    if begins_as(d, 0x30, 4) {
        assert(d.skip(5).skip(4) =~= d.skip(9));
        crate::bytes::law_be_value_of_four(d.skip(5).take(4));
    }
}

/// What is read from a datagram as an acknowledgement: exactly those of type 0x31
/// with four bytes of payload are one, of the number that the four write.
pub proof fn law_acked_seq(d: Seq<u8>)
    ensures
        acked_seq(d) is Some <==> begins_as(d, 0x31, 4),
        acked_seq(d) matches Some(n) ==> n == number_at(d, 5),
{
    law_packet_parts(d, PKT_ACK);
    if begins_as(d, 0x31, 4) {
        crate::bytes::law_be_value_of_four(d.skip(5).take(4));
    }
}

/// What is read from a datagram as an offer: exactly those of type 0x20 with
/// eight bytes of payload are one. The eight write the size, and the rest is the
/// name, or, where it is not UTF-8, the name is `file`.
pub proof fn law_offer_parts(d: Seq<u8>)
    ensures
        offer_parts(d) is Some <==> begins_as(d, 0x20, 8),
        offer_parts(d) matches Some(parts) ==> {
            &&& parts.0 == number_at(d, 5) * 0x1_0000_0000 + number_at(d, 9)
            &&& valid_utf8(d.skip(13)) ==> parts.1 == decode_utf8(d.skip(13))
            &&& !valid_utf8(d.skip(13)) ==> parts.1 == seq!['f', 'i', 'l', 'e']
        },
{
    law_packet_parts(d, PKT_OFFER);
    reveal_strlit("file");
    assert("file"@ =~= seq!['f', 'i', 'l', 'e']);
    if begins_as(d, 0x20, 8) {
        assert(d.skip(5).skip(8) =~= d.skip(13));
        crate::bytes::law_be_value_of_eight(d.skip(5).take(8));
    }
}

} // verus!
