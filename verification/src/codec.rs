//! Mathematical model of the wire format: what a byte sequence decodes to,
//! what a message encodes to, and the proofs that the two are inverses on
//! well-formed messages.
//!
//! Wire layout (all multi-byte integers big-endian): a fixed 4-byte header
//! (2-bit version, 2-bit type, 4-bit token length; code byte; 16-bit message
//! id), the token, a run of options, then an optional `0xFF` marker followed
//! by the payload. Each option carries its identifier as a delta from the
//! previous option's identifier; delta and value length are 4-bit nibbles
//! with two levels of extended-length escape (13: one extra byte, value+13;
//! 14: two extra bytes big-endian, value+269; 15: reserved, malformed).

use vstd::prelude::*;

use vstd::arithmetic::div_mod::lemma_fundamental_div_mod;

use crate::message::Mtype;
use crate::message::lemma_mtype_round_trip;
use crate::message::spec_mtype_as_u8;
use crate::message::spec_mtype_from_u8;
use crate::opt::OptView;

verus! {

/// Abstract value of a message: the header fields as raw numbers, the token,
/// the options as (identifier, value) pairs, and the payload. Two messages
/// that would serialize identically have the same view.
#[verifier::ext_equal]
pub struct MsgView {
    pub version: u8,
    pub mtype: Mtype,
    pub code: u8,
    pub mid: u16,
    pub token: Seq<u8>,
    pub options: Seq<OptView>,
    pub payload: Seq<u8>,
}

/// Resolve one 4-bit nibble of an option header against the extension bytes
/// that start at position `at` of `b`: values 0-12 stand for themselves, 13
/// consumes one extra byte (value + 13), 14 consumes two extra bytes
/// (big-endian value + 269), 15 is reserved and malformed. Returns the
/// resolved value and the number of extension bytes consumed, or `None` for
/// a truncated buffer or the reserved nibble.
pub open spec fn spec_resolve_nibble(nib: u8, b: Seq<u8>, at: int) -> Option<(int, int)> {
    if nib < 13 {
        Some((nib as int, 0))
    } else if nib == 13 {
        if at < b.len() {
            Some((b[at] + 13, 1))
        } else {
            None
        }
    } else if nib == 14 {
        if at + 2 <= b.len() {
            Some((b[at] * 256 + b[at + 1] + 269, 2))
        } else {
            None
        }
    } else {
        None
    }
}

/// Parse the options region of a message: a run of options, each an option
/// header byte (delta nibble high, length nibble low) with its extension
/// bytes and value, terminated by the end of the buffer (empty payload) or
/// by the `0xFF` marker (the rest is payload). `offset` is the running
/// option identifier the next delta is relative to. `None` is any structural
/// violation: a reserved nibble, a truncated header or value, a length of
/// 65000 or more, or an identifier overflowing 16 bits.
pub open spec fn spec_parse_opts(b: Seq<u8>, offset: int) -> Option<(Seq<OptView>, Seq<u8>)>
    decreases b.len(),
{
    if b.len() == 0 {
        Some((Seq::empty(), Seq::empty()))
    } else if b[0] == 0xFF {
        Some((Seq::empty(), b.skip(1)))
    } else {
        match spec_resolve_nibble(b[0] >> 4, b, 1) {
            None => None,
            Some((delta, dext)) => match spec_resolve_nibble(b[0] & 0x0F, b, 1 + dext) {
                None => None,
                Some((length, lext)) => {
                    let number = offset + delta;
                    let hdr = 1 + dext + lext;
                    if number > 65535 {
                        None
                    } else if length >= 65000 {
                        None
                    } else if b.len() < hdr + length {
                        None
                    } else {
                        match spec_parse_opts(b.skip(hdr + length), number) {
                            None => None,
                            Some((rest, payload)) => Some(
                                (
                                    seq![
                                        OptView {
                                            number: number as u16,
                                            value: b.subrange(hdr, hdr + length),
                                        },
                                    ] + rest,
                                    payload,
                                ),
                            ),
                        }
                    }
                },
            },
        }
    }
}

/// What a byte sequence decodes to: `None` for any structural violation,
/// otherwise the fully assembled message. The version field is not checked
/// (forward compatibility); the code byte is kept open.
pub open spec fn spec_decode(b: Seq<u8>) -> Option<MsgView> {
    if b.len() < 4 {
        None
    } else {
        let tkl = (b[0] & 0x0F) as int;
        if b.len() < 4 + tkl {
            None
        } else {
            match spec_parse_opts(b.skip(4 + tkl), 0) {
                None => None,
                Some((opts, payload)) => Some(
                    MsgView {
                        version: b[0] >> 6,
                        mtype: spec_mtype_from_u8((b[0] >> 4) & 0x03),
                        code: b[1],
                        mid: (b[2] * 256 + b[3]) as u16,
                        token: b.subrange(4, 4 + tkl),
                        options: opts,
                        payload,
                    },
                ),
            }
        }
    }
}

/// The nibble that encodes a delta or length value: the value itself below
/// 13, the 13-escape up to 268, the 14-escape above.
pub open spec fn spec_nibble(v: int) -> u8
    recommends
        0 <= v < 65000,
{
    if v < 13 {
        v as u8
    } else if v < 269 {
        13
    } else {
        14
    }
}

/// The extension bytes that accompany `spec_nibble(v)`.
pub open spec fn spec_ext_bytes(v: int) -> Seq<u8>
    recommends
        0 <= v < 65000,
{
    if v < 13 {
        Seq::empty()
    } else if v < 269 {
        seq![(v - 13) as u8]
    } else {
        seq![((v - 269) / 256) as u8, ((v - 269) % 256) as u8]
    }
}

/// One encoded option: the header byte (delta nibble high, length nibble
/// low), the delta's extension bytes, the length's extension bytes, then the
/// value.
pub open spec fn spec_encode_opt(o: OptView, offset: int) -> Seq<u8>
    recommends
        0 <= offset <= o.number,
        o.number < 65000,
        o.value.len() < 65000,
{
    let delta = o.number - offset;
    let len = o.value.len() as int;
    seq![(spec_nibble(delta) * 16 + spec_nibble(len)) as u8] + spec_ext_bytes(delta)
        + spec_ext_bytes(len) + o.value
}

/// The encoded options region: each option's identifier as a delta from the
/// previous option's identifier, starting from `offset`.
pub open spec fn spec_encode_opts(opts: Seq<OptView>, offset: int) -> Seq<u8>
    decreases opts.len(),
{
    if opts.len() == 0 {
        Seq::empty()
    } else {
        spec_encode_opt(opts[0], offset) + spec_encode_opts(opts.skip(1), opts[0].number as int)
    }
}

/// The identifier the option after `opts` takes its delta from: `offset` if
/// `opts` is empty, else the last identifier in `opts`.
pub open spec fn spec_last_number(opts: Seq<OptView>, offset: int) -> int {
    if opts.len() == 0 {
        offset
    } else {
        opts.last().number as int
    }
}

/// What a message encodes to: header, token, options region, and the
/// payload behind its `0xFF` marker (nothing at all when the payload is
/// empty). The version field is truncated to its two bits, as the header
/// layout forces.
pub open spec fn spec_encode(m: MsgView) -> Seq<u8>
    recommends
        spec_msg_wf(m),
{
    seq![
        ((m.version % 4) * 64 + spec_mtype_as_u8(m.mtype) * 16 + m.token.len()) as u8,
        m.code,
        (m.mid / 256) as u8,
        (m.mid % 256) as u8,
    ] + m.token + spec_encode_opts(m.options, 0) + (if m.payload.len() > 0 {
        seq![0xFFu8] + m.payload
    } else {
        Seq::<u8>::empty()
    })
}

/// Options are in non-decreasing order of identifier, as the delta encoding
/// requires.
pub open spec fn spec_options_sorted(opts: Seq<OptView>) -> bool {
    forall|i: int, j: int|
        0 <= i <= j < opts.len() ==> opts[i].number <= opts[j].number
}

/// Every option's identifier and value length stay below 65000, the bound
/// of the nibble scheme as this codec accepts it.
pub open spec fn spec_options_encodable(opts: Seq<OptView>) -> bool {
    forall|i: int|
        0 <= i < opts.len() ==> opts[i].number < 65000 && opts[i].value.len() < 65000
}

/// A message the encoder accepts: token of at most 8 bytes, options sorted
/// non-decreasing by identifier, identifiers and value lengths
/// representable.
pub open spec fn spec_msg_wf(m: MsgView) -> bool {
    &&& m.token.len() <= 8
    &&& spec_options_sorted(m.options)
    &&& spec_options_encodable(m.options)
}

/// A buffer shorter than the fixed 4-byte header never decodes.
pub proof fn lemma_decode_short_buffer(b: Seq<u8>)
    requires
        b.len() < 4,
    ensures
        spec_decode(b) is None,
{
}

/// A buffer whose token-length nibble claims more bytes than remain never
/// decodes.
pub proof fn lemma_decode_token_overrun(b: Seq<u8>)
    requires
        4 <= b.len(),
        b.len() < 4 + (b[0] & 0x0F),
    ensures
        spec_decode(b) is None,
{
}

/// An option header carrying the reserved nibble value 15, in either
/// position, makes the options region malformed.
pub proof fn lemma_reserved_nibble_rejected(b: Seq<u8>, offset: int)
    requires
        b.len() > 0,
        b[0] != 0xFF,
        b[0] >> 4 == 15 || b[0] & 0x0F == 15,
    ensures
        spec_parse_opts(b, offset) is None,
{
}

/// Resolving the nibble and extension bytes that encode `v` gives back `v`.
proof fn lemma_resolve_encoded_nibble(v: int, b: Seq<u8>, at: int)
    requires
        0 <= v < 65000,
        0 <= at,
        at + spec_ext_bytes(v).len() <= b.len(),
        b.subrange(at, at + spec_ext_bytes(v).len() as int) == spec_ext_bytes(v),
    ensures
        spec_resolve_nibble(spec_nibble(v), b, at) == Some(
            (v, spec_ext_bytes(v).len() as int),
        ),
{
    let ext = spec_ext_bytes(v);
    if v < 13 {
    } else if v < 269 {
        assert(b[at] == ext[0]);
        assert(ext[0] == (v - 13) as u8);
    } else {
        assert(b[at] == ext[0]);
        assert(b[at + 1] == ext[1]);
        lemma_fundamental_div_mod(v - 269, 256);
        assert(0 <= (v - 269) / 256 < 256) by {
            assert(256 * ((v - 269) / 256) == (v - 269) - (v - 269) % 256);
        }
        assert(b[at] * 256 + b[at + 1] + 269 == v);
    }
}

/// Parsing an encoded option followed by anything parses off exactly that
/// option, then continues with the running identifier advanced to it.
proof fn lemma_parse_one_encoded_opt(o: OptView, offset: int, rest: Seq<u8>)
    requires
        0 <= offset <= o.number,
        o.number < 65000,
        o.value.len() < 65000,
    ensures
        spec_parse_opts(spec_encode_opt(o, offset) + rest, offset) == match spec_parse_opts(
            rest,
            o.number as int,
        ) {
            None => None::<(Seq<OptView>, Seq<u8>)>,
            Some((opts, payload)) => Some((seq![o] + opts, payload)),
        },
{
    let delta = o.number - offset;
    let len = o.value.len() as int;
    let dn = spec_nibble(delta);
    let ln = spec_nibble(len);
    let db = spec_ext_bytes(delta);
    let lb = spec_ext_bytes(len);
    let b = spec_encode_opt(o, offset) + rest;
    let hdr = 1 + db.len() as int + lb.len() as int;

    assert(dn <= 14 && ln <= 14);
    assert(b.len() == hdr + len + rest.len());
    assert(b[0] == (dn * 16 + ln) as u8);
    assert(((dn * 16 + ln) as u8) >> 4 == dn && ((dn * 16 + ln) as u8) & 0x0F == ln && ((dn * 16
        + ln) as u8) != 0xFF) by (bit_vector)
        requires
            dn <= 14 && ln <= 14,
    ;

    assert(b.subrange(1, 1 + db.len() as int) =~= db);
    lemma_resolve_encoded_nibble(delta, b, 1);
    assert(b.subrange(1 + db.len() as int, hdr) =~= lb);
    lemma_resolve_encoded_nibble(len, b, 1 + db.len() as int);

    assert(b.subrange(hdr, hdr + len) =~= o.value);
    assert(b.skip(hdr + len) =~= rest);

    match spec_parse_opts(rest, o.number as int) {
        None => {
            assert(spec_parse_opts(b, offset) is None);
        },
        Some((opts, payload)) => {
            let parsed = OptView { number: (offset + delta) as u16, value: b.subrange(hdr, hdr + len) };
            assert(parsed =~= o);
            assert(seq![parsed] + opts =~= seq![o] + opts);
            assert(spec_parse_opts(b, offset) == Some((seq![o] + opts, payload)));
        },
    }
}

/// The options of a message, seen from a running identifier `offset`: each
/// identifier is reachable by a non-negative delta from the one before it,
/// and identifiers and value lengths are representable.
pub open spec fn spec_opts_chain(opts: Seq<OptView>, offset: int) -> bool
    decreases opts.len(),
{
    opts.len() == 0 || {
        &&& offset <= opts[0].number
        &&& opts[0].number < 65000
        &&& opts[0].value.len() < 65000
        &&& spec_opts_chain(opts.skip(1), opts[0].number as int)
    }
}

/// Sorted, encodable options form a chain from any starting identifier at
/// or below the first one.
proof fn lemma_sorted_opts_chain(opts: Seq<OptView>, offset: int)
    requires
        spec_options_sorted(opts),
        spec_options_encodable(opts),
        opts.len() > 0 ==> offset <= opts[0].number,
    ensures
        spec_opts_chain(opts, offset),
    decreases opts.len(),
{
    if opts.len() > 0 {
        let tail = opts.skip(1);
        assert(forall|i: int| 0 <= i < tail.len() ==> tail[i] == opts[i + 1]);
        assert(spec_options_sorted(tail));
        assert(spec_options_encodable(tail));
        lemma_sorted_opts_chain(tail, opts[0].number as int);
    }
}

/// Parsing an encoded options region followed by an empty or
/// marker-initiated tail recovers exactly the options and the tail's
/// payload.
proof fn lemma_parse_encoded_opts(opts: Seq<OptView>, offset: int, tail: Seq<u8>)
    requires
        0 <= offset <= 65535,
        spec_opts_chain(opts, offset),
        tail.len() == 0 || tail[0] == 0xFF,
    ensures
        spec_parse_opts(spec_encode_opts(opts, offset) + tail, offset) == Some(
            (opts, if tail.len() == 0 { Seq::<u8>::empty() } else { tail.skip(1) }),
        ),
    decreases opts.len(),
{
    if opts.len() == 0 {
        assert(spec_encode_opts(opts, offset) + tail =~= tail);
        assert(opts =~= Seq::<OptView>::empty());
    } else {
        let first = opts[0];
        let rest_enc = spec_encode_opts(opts.skip(1), first.number as int) + tail;
        assert(spec_encode_opts(opts, offset) + tail =~= spec_encode_opt(first, offset) + rest_enc);
        lemma_parse_encoded_opts(opts.skip(1), first.number as int, tail);
        lemma_parse_one_encoded_opt(first, offset, rest_enc);
        assert(seq![first] + opts.skip(1) =~= opts);
    }
}

/// The options region grows one encoded option at a time: encoding the
/// first `j + 1` options is encoding the first `j` and appending the next,
/// its delta taken from the last identifier so far.
pub proof fn lemma_encode_opts_snoc(opts: Seq<OptView>, offset: int, j: int)
    requires
        0 <= j < opts.len(),
    ensures
        spec_encode_opts(opts.take(j + 1), offset) == spec_encode_opts(opts.take(j), offset)
            + spec_encode_opt(opts[j], spec_last_number(opts.take(j), offset)),
    decreases j,
{
    if j == 0 {
        assert(opts.take(1)[0] == opts[0]);
        assert(opts.take(1).skip(1) =~= Seq::<OptView>::empty());
        assert(spec_encode_opts(opts.take(1).skip(1), opts[0].number as int) =~= Seq::<
            u8,
        >::empty());
        assert(spec_encode_opts(opts.take(1), offset) =~= spec_encode_opt(opts[0], offset) + Seq::<
            u8,
        >::empty());
        assert(opts.take(0) =~= Seq::<OptView>::empty());
        assert(spec_encode_opts(opts.take(0), offset) =~= Seq::<u8>::empty());
        assert(spec_encode_opts(opts.take(0), offset) + spec_encode_opt(opts[0], offset)
            =~= spec_encode_opt(opts[0], offset) + Seq::<u8>::empty());
    } else {
        let t = opts.skip(1);
        let n0 = opts[0].number as int;
        lemma_encode_opts_snoc(t, n0, j - 1);
        assert(opts.take(j + 1)[0] == opts[0]);
        assert(opts.take(j)[0] == opts[0]);
        assert(opts.take(j + 1).skip(1) =~= t.take(j));
        assert(opts.take(j).skip(1) =~= t.take(j - 1));
        assert(t[j - 1] == opts[j]);
        assert(spec_last_number(t.take(j - 1), n0) == spec_last_number(opts.take(j), offset));
        assert(spec_encode_opt(opts[0], offset) + (spec_encode_opts(t.take(j - 1), n0)
            + spec_encode_opt(opts[j], spec_last_number(opts.take(j), offset))) =~= (
        spec_encode_opt(opts[0], offset) + spec_encode_opts(t.take(j - 1), n0)) + spec_encode_opt(
            opts[j],
            spec_last_number(opts.take(j), offset),
        ));
    }
}

/// Decode inverts encode: a message with a token of at most 8 bytes,
/// options sorted non-decreasing by identifier, representable identifiers
/// and value lengths, and an in-range version field is reproduced exactly,
/// field for field, by decoding its encoding.
pub proof fn lemma_encode_decode_roundtrip(m: MsgView)
    requires
        m.version <= 3,
        spec_msg_wf(m),
    ensures
        spec_decode(spec_encode(m)) == Some(m),
{
    let b = spec_encode(m);
    let mt = spec_mtype_as_u8(m.mtype);
    let tkl = m.token.len() as int;
    let b0 = ((m.version % 4) * 64 + mt * 16 + tkl) as u8;
    let tail = if m.payload.len() > 0 {
        seq![0xFFu8] + m.payload
    } else {
        Seq::<u8>::empty()
    };
    let opts_enc = spec_encode_opts(m.options, 0);

    assert(mt <= 3);
    assert(b.len() == 4 + tkl + opts_enc.len() + tail.len());
    assert(b[0] == b0);
    let v = m.version;
    let k = m.token.len() as u8;
    assert(b0 == ((v % 4) * 64 + mt * 16 + k) as u8);
    assert({
        &&& (((v % 4) * 64 + mt * 16 + k) as u8) >> 6 == v
        &&& ((((v % 4) * 64 + mt * 16 + k) as u8) >> 4) & 0x03 == mt
        &&& (((v % 4) * 64 + mt * 16 + k) as u8) & 0x0F == k
    }) by (bit_vector)
        requires
            v <= 3 && mt <= 3 && k <= 8,
    ;
    assert(b[0] & 0x0F == tkl);

    assert(b[1] == m.code);
    assert(b[2] == (m.mid / 256) as u8);
    assert(b[3] == (m.mid % 256) as u8);
    lemma_fundamental_div_mod(m.mid as int, 256);
    assert(0 <= m.mid / 256 < 256) by {
        assert(256 * ((m.mid as int) / 256) == m.mid - (m.mid as int) % 256);
    }
    assert(b[2] * 256 + b[3] == m.mid);

    assert(b.subrange(4, 4 + tkl) =~= m.token);
    assert(b.skip(4 + tkl) =~= opts_enc + tail);

    lemma_sorted_opts_chain(m.options, 0);
    lemma_parse_encoded_opts(m.options, 0, tail);
    if m.payload.len() > 0 {
        assert(tail.skip(1) =~= m.payload);
    } else {
        assert(m.payload =~= Seq::<u8>::empty());
    }

    lemma_mtype_round_trip(m.mtype);
    assert(spec_decode(b) == Some(m)) by {
        let decoded = spec_decode(b)->Some_0;
        assert(decoded =~= m);
    }
}

} // verus!

