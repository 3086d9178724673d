//! Message model: the decoded form of one protocol datagram, together with
//! the enumerations for the message type and the request/response code.

use vstd::prelude::*;

use vstd::slice::slice_to_vec;

use crate::codec::MsgView;
use crate::codec::lemma_encode_opts_snoc;
use crate::codec::spec_decode;
use crate::codec::spec_encode;
use crate::codec::spec_encode_opt;
use crate::codec::spec_encode_opts;
use crate::codec::spec_ext_bytes;
use crate::codec::spec_last_number;
use crate::codec::spec_msg_wf;
use crate::codec::spec_nibble;
use crate::codec::spec_options_encodable;
use crate::codec::spec_options_sorted;
use crate::codec::spec_parse_opts;
use crate::codec::spec_resolve_nibble;
use crate::opt::MsgOption;
use crate::opt::OptView;
use crate::opt::lemma_opts_view_push;
use crate::opt::spec_number_as_u16;
use crate::opt::spec_number_from_u16;
use crate::opt::spec_opts_view;

verus! {

/// Errors reported by the codec. Every structural violation of the wire
/// format (truncated header, truncated token, truncated or oversized option,
/// reserved nibble) is reported as `MessageFormat`; nothing is silently
/// corrected.
#[derive(Clone, Copy, PartialEq, Eq, Structural, Debug)]
pub enum Error {
    MessageFormat,
    InvalidToken,
    InvalidOptionNumber,
}

/// The four message types carried in bits 5-4 of the first header byte.
#[derive(Clone, Copy, PartialEq, Eq, Structural, Debug)]
pub enum Mtype {
    Confirmable,
    NonConfirmable,
    Acknowledgement,
    Reset,
}

/// Meaning of a two-bit type field. Total on `u8`, but only the values
/// 0 through 3 are ever produced by the wire (the field is two bits wide).
pub open spec fn spec_mtype_from_u8(raw: u8) -> Mtype {
    if raw == 0 {
        Mtype::Confirmable
    } else if raw == 1 {
        Mtype::NonConfirmable
    } else if raw == 2 {
        Mtype::Acknowledgement
    } else {
        Mtype::Reset
    }
}

/// Numeric value of a message type.
pub open spec fn spec_mtype_as_u8(m: Mtype) -> u8 {
    match m {
        Mtype::Confirmable => 0,
        Mtype::NonConfirmable => 1,
        Mtype::Acknowledgement => 2,
        Mtype::Reset => 3,
    }
}

impl Mtype {
    /// Decode a raw two-bit type field.
    pub fn from_u8(raw_mtype: u8) -> (r: Mtype)
        requires
            raw_mtype <= 3,
        ensures
            r == spec_mtype_from_u8(raw_mtype),
    {
        if raw_mtype == 0 {
            Mtype::Confirmable
        } else if raw_mtype == 1 {
            Mtype::NonConfirmable
        } else if raw_mtype == 2 {
            Mtype::Acknowledgement
        } else {
            Mtype::Reset
        }
    }

    /// Numeric value of this message type, always within the two-bit field.
    pub fn as_u8(&self) -> (r: u8)
        ensures
            r == spec_mtype_as_u8(*self),
            r <= 3,
    {
        match *self {
            Mtype::Confirmable => 0,
            Mtype::NonConfirmable => 1,
            Mtype::Acknowledgement => 2,
            Mtype::Reset => 3,
        }
    }
}

/// The type field round-trips through its numeric value.
pub proof fn lemma_mtype_round_trip(m: Mtype)
    ensures
        spec_mtype_from_u8(spec_mtype_as_u8(m)) == m,
{
}

/// Request/response codes: the named values of the protocol plus `Unknown`
/// for every other 8-bit value. The code space is open; decoding never
/// rejects a value for being unrecognized.
#[derive(Clone, Copy, PartialEq, Eq, Structural, Debug)]
pub enum Code {
    Empty,
    Get,
    Post,
    Put,
    Delete,
    Created,
    Deleted,
    Valid,
    Changed,
    Content,
    BadRequest,
    Unauthorized,
    BadOption,
    Forbidden,
    NotFound,
    MethodNotAllowed,
    NotAcceptable,
    PreconditionFailed,
    RequestEntityTooLarge,
    UnsupportedContentFormat,
    InternalServerError,
    NotImplemented,
    BadGateway,
    ServiceUnavailable,
    GatewayTimeout,
    ProxyingNotSupported,
    Unknown(u8),
}

/// A code byte built from a 3-bit class and a 5-bit detail; each field is
/// masked so overflow in one cannot corrupt the other. `(class % 8) * 32`
/// places the class in the top three bits, `detail % 32` fills the bottom
/// five.
pub open spec fn spec_code_build(class: u8, detail: u8) -> u8 {
    ((class % 8) * 32 + detail % 32) as u8
}

/// The code denoted by a raw byte: each named code at its class/detail
/// value, anything else mapped to `Unknown`.
pub open spec fn spec_code_from_u8(raw: u8) -> Code {
    if raw == 0 {
        Code::Empty
    } else if raw == 1 {
        Code::Get
    } else if raw == 2 {
        Code::Post
    } else if raw == 3 {
        Code::Put
    } else if raw == 4 {
        Code::Delete
    } else if raw == 65 {
        Code::Created
    } else if raw == 66 {
        Code::Deleted
    } else if raw == 67 {
        Code::Valid
    } else if raw == 68 {
        Code::Changed
    } else if raw == 69 {
        Code::Content
    } else if raw == 128 {
        Code::BadRequest
    } else if raw == 129 {
        Code::Unauthorized
    } else if raw == 130 {
        Code::BadOption
    } else if raw == 131 {
        Code::Forbidden
    } else if raw == 132 {
        Code::NotFound
    } else if raw == 133 {
        Code::MethodNotAllowed
    } else if raw == 134 {
        Code::NotAcceptable
    } else if raw == 140 {
        Code::PreconditionFailed
    } else if raw == 141 {
        Code::RequestEntityTooLarge
    } else if raw == 143 {
        Code::UnsupportedContentFormat
    } else if raw == 160 {
        Code::InternalServerError
    } else if raw == 161 {
        Code::NotImplemented
    } else if raw == 162 {
        Code::BadGateway
    } else if raw == 163 {
        Code::ServiceUnavailable
    } else if raw == 164 {
        Code::GatewayTimeout
    } else if raw == 165 {
        Code::ProxyingNotSupported
    } else {
        Code::Unknown(raw)
    }
}

/// The byte a code serializes to: `class * 32 + detail` for the named codes,
/// the carried raw byte for `Unknown`.
pub open spec fn spec_code_as_u8(c: Code) -> u8 {
    match c {
        Code::Empty => 0,
        Code::Get => 1,
        Code::Post => 2,
        Code::Put => 3,
        Code::Delete => 4,
        Code::Created => 65,
        Code::Deleted => 66,
        Code::Valid => 67,
        Code::Changed => 68,
        Code::Content => 69,
        Code::BadRequest => 128,
        Code::Unauthorized => 129,
        Code::BadOption => 130,
        Code::Forbidden => 131,
        Code::NotFound => 132,
        Code::MethodNotAllowed => 133,
        Code::NotAcceptable => 134,
        Code::PreconditionFailed => 140,
        Code::RequestEntityTooLarge => 141,
        Code::UnsupportedContentFormat => 143,
        Code::InternalServerError => 160,
        Code::NotImplemented => 161,
        Code::BadGateway => 162,
        Code::ServiceUnavailable => 163,
        Code::GatewayTimeout => 164,
        Code::ProxyingNotSupported => 165,
        Code::Unknown(code) => code,
    }
}

/// A code byte read from the wire always writes back as the same byte,
/// named or not.
pub proof fn lemma_code_wire_round_trip(raw: u8)
    ensures
        spec_code_as_u8(spec_code_from_u8(raw)) == raw,
{
}

impl Code {
    /// Classify a raw code byte through the open code space.
    pub fn from_u8(raw_code: u8) -> (r: Code)
        ensures
            r == spec_code_from_u8(raw_code),
    {
        if raw_code == 0 {
            Code::Empty
        } else if raw_code == 1 {
            Code::Get
        } else if raw_code == 2 {
            Code::Post
        } else if raw_code == 3 {
            Code::Put
        } else if raw_code == 4 {
            Code::Delete
        } else if raw_code == 65 {
            Code::Created
        } else if raw_code == 66 {
            Code::Deleted
        } else if raw_code == 67 {
            Code::Valid
        } else if raw_code == 68 {
            Code::Changed
        } else if raw_code == 69 {
            Code::Content
        } else if raw_code == 128 {
            Code::BadRequest
        } else if raw_code == 129 {
            Code::Unauthorized
        } else if raw_code == 130 {
            Code::BadOption
        } else if raw_code == 131 {
            Code::Forbidden
        } else if raw_code == 132 {
            Code::NotFound
        } else if raw_code == 133 {
            Code::MethodNotAllowed
        } else if raw_code == 134 {
            Code::NotAcceptable
        } else if raw_code == 140 {
            Code::PreconditionFailed
        } else if raw_code == 141 {
            Code::RequestEntityTooLarge
        } else if raw_code == 143 {
            Code::UnsupportedContentFormat
        } else if raw_code == 160 {
            Code::InternalServerError
        } else if raw_code == 161 {
            Code::NotImplemented
        } else if raw_code == 162 {
            Code::BadGateway
        } else if raw_code == 163 {
            Code::ServiceUnavailable
        } else if raw_code == 164 {
            Code::GatewayTimeout
        } else if raw_code == 165 {
            Code::ProxyingNotSupported
        } else {
            Code::Unknown(raw_code)
        }
    }

    /// The byte this code serializes to.
    pub fn as_u8(&self) -> (r: u8)
        ensures
            r == spec_code_as_u8(*self),
    {
        match *self {
            Code::Empty => Self::build(0, 0),
            Code::Get => Self::build(0, 1),
            Code::Post => Self::build(0, 2),
            Code::Put => Self::build(0, 3),
            Code::Delete => Self::build(0, 4),
            Code::Created => Self::build(2, 1),
            Code::Deleted => Self::build(2, 2),
            Code::Valid => Self::build(2, 3),
            Code::Changed => Self::build(2, 4),
            Code::Content => Self::build(2, 5),
            Code::BadRequest => Self::build(4, 0),
            Code::Unauthorized => Self::build(4, 1),
            Code::BadOption => Self::build(4, 2),
            Code::Forbidden => Self::build(4, 3),
            Code::NotFound => Self::build(4, 4),
            Code::MethodNotAllowed => Self::build(4, 5),
            Code::NotAcceptable => Self::build(4, 6),
            Code::PreconditionFailed => Self::build(4, 12),
            Code::RequestEntityTooLarge => Self::build(4, 13),
            Code::UnsupportedContentFormat => Self::build(4, 15),
            Code::InternalServerError => Self::build(5, 0),
            Code::NotImplemented => Self::build(5, 1),
            Code::BadGateway => Self::build(5, 2),
            Code::ServiceUnavailable => Self::build(5, 3),
            Code::GatewayTimeout => Self::build(5, 4),
            Code::ProxyingNotSupported => Self::build(5, 5),
            Code::Unknown(code) => code,
        }
    }

    /// Pack a class and a detail into one code byte, masking each field to
    /// its width.
    pub fn build(class: u8, detail: u8) -> (r: u8)
        ensures
            r == spec_code_build(class, detail),
    {
        let r = ((class & 0x07) << 5) | (detail & 0x1F);
        proof {
            assert(((class & 0x07) << 5) | (detail & 0x1F) == (class % 8) * 32 + detail % 32)
                by (bit_vector);
        }
        r
    }

    /// The class (top three bits) of this code's byte.
    pub fn class(&self) -> (r: u8)
        ensures
            r == spec_code_as_u8(*self) / 32,
    {
        let raw = self.as_u8();
        let r = raw >> 5;
        proof {
            assert(raw >> 5 == raw / 32) by (bit_vector);
        }
        r
    }

    /// The detail (bottom five bits) of this code's byte.
    pub fn detail(&self) -> (r: u8)
        ensures
            r == spec_code_as_u8(*self) % 32,
    {
        let raw = self.as_u8();
        let r = raw & 0x1F;
        proof {
            assert(raw & 0x1F == raw % 32) by (bit_vector);
        }
        r
    }
}

/// One decoded unit of protocol exchange. Immutable value type: built fresh
/// by decoding or by a handler, consumed by encoding or by the handler.
#[derive(Clone, PartialEq, Eq, Debug)]
pub struct Message {
    pub version: u8,
    pub mtype: Mtype,
    pub code: Code,
    pub mid: u16,
    pub token: Vec<u8>,
    pub options: Vec<MsgOption>,
    pub payload: Vec<u8>,
}

impl View for Message {
    type V = MsgView;

    open spec fn view(&self) -> MsgView {
        MsgView {
            version: self.version,
            mtype: self.mtype,
            code: spec_code_as_u8(self.code),
            mid: self.mid,
            token: self.token@,
            options: spec_opts_view(self.options@),
            payload: self.payload@,
        }
    }
}

/// A message as the decoder hands it out: the version fits its two-bit
/// field, and the code and every option identifier carry the canonical
/// classification of their wire value (never `Unknown` where a named
/// variant exists).
pub open spec fn spec_msg_canonical(m: Message) -> bool {
    &&& m.version <= 3
    &&& m.code == spec_code_from_u8(spec_code_as_u8(m.code))
    &&& forall|t: int|
        0 <= t < m.options@.len() ==> m.options@[t].number == spec_number_from_u16(
            spec_number_as_u16(m.options@[t].number),
        )
}

/// Append one encoded option: the header byte, the delta's and the
/// length's extension bytes, then the value, with the delta taken from
/// `offset`.
#[verifier::loop_isolation(false)]
#[verifier::rlimit(50)]
fn push_option(pkt: &mut Vec<u8>, o: &MsgOption, offset: u16)
    requires
        offset <= o@.number,
        o@.number < 65000,
        o@.value.len() < 65000,
    ensures
        final(pkt)@ == old(pkt)@ + spec_encode_opt(o@, offset as int),
{
    let ghost pre = pkt@;
    let num = o.number.as_u16();
    let delta = num - offset;
    let vlen = o.value.len();
    let vl16 = vlen as u16;

    let dn: u8 = if delta < 13 {
        delta as u8
    } else if delta < 269 {
        13
    } else {
        14
    };
    let ln: u8 = if vl16 < 13 {
        vl16 as u8
    } else if vl16 < 269 {
        13
    } else {
        14
    };
    let hb = (dn << 4) | ln;
    proof {
        assert(dn == spec_nibble(delta as int));
        assert(ln == spec_nibble(o.value@.len() as int));
        assert((dn << 4) | ln == (dn * 16 + ln) as u8) by (bit_vector)
            requires
                dn <= 14 && ln <= 14,
        ;
    }
    pkt.push(hb);
    if delta >= 13 && delta < 269 {
        pkt.push((delta - 13) as u8);
    } else if delta >= 269 {
        let d2 = delta - 269;
        let dhi = (d2 >> 8) as u8;
        let dlo = (d2 & 0xFF) as u8;
        proof {
            assert((d2 >> 8) as u8 == d2 / 256 && (d2 & 0xFF) as u8 == d2 % 256) by (bit_vector);
        }
        pkt.push(dhi);
        pkt.push(dlo);
    }
    proof {
        assert(pkt@ =~= pre + seq![(spec_nibble(delta as int) * 16 + spec_nibble(
            o.value@.len() as int,
        )) as u8] + spec_ext_bytes(delta as int));
    }
    if vl16 >= 13 && vl16 < 269 {
        pkt.push((vl16 - 13) as u8);
    } else if vl16 >= 269 {
        let l2 = vl16 - 269;
        let lhi = (l2 >> 8) as u8;
        let llo = (l2 & 0xFF) as u8;
        proof {
            assert((l2 >> 8) as u8 == l2 / 256 && (l2 & 0xFF) as u8 == l2 % 256) by (bit_vector);
        }
        pkt.push(lhi);
        pkt.push(llo);
    }
    let ghost pre2 = pkt@;
    proof {
        assert(pre2 =~= pre + seq![(spec_nibble(delta as int) * 16 + spec_nibble(
            o.value@.len() as int,
        )) as u8] + spec_ext_bytes(delta as int) + spec_ext_bytes(o.value@.len() as int));
    }
    let mut t: usize = 0;
    while t < vlen
        invariant
            t <= vlen,
            pkt@ =~= pre2 + o.value@.take(t as int),
        decreases vlen - t,
    {
        pkt.push(o.value[t]);
        t += 1;
        proof {
            assert(pkt@ =~= pre2 + o.value@.take(t as int));
        }
    }
    proof {
        assert(o.value@.take(vlen as int) =~= o.value@);
        assert(pkt@ =~= pre + spec_encode_opt(o@, offset as int));
    }
}

impl Message {
    /// Decode one datagram. Returns the fully assembled message exactly when
    /// the mathematical decoding relation accepts the bytes, and a format
    /// error exactly when it does not: a header shorter than 4 bytes, a
    /// token length past the end of the buffer, a reserved nibble, a
    /// truncated option header or value, an oversized option length, or an
    /// option identifier overflowing 16 bits. Never panics and never reads
    /// out of bounds.
    #[verifier::loop_isolation(false)]
    #[verifier::rlimit(100)]
    pub fn from_bytes(pkt: &[u8]) -> (r: Result<Message, Error>)
        ensures
            match r {
                Ok(m) => spec_decode(pkt@) == Some(m@) && spec_msg_canonical(m),
                Err(e) => spec_decode(pkt@) is None && e == Error::MessageFormat,
            },
    {
        let n = pkt.len();
        if n < 4 {
            return Err(Error::MessageFormat);
        }
        let b0 = pkt[0];
        let version = b0 >> 6;
        let raw_mt = (b0 >> 4) & 0x03;
        proof {
            assert((b0 >> 4) & 0x03 <= 3 && b0 >> 6 <= 3 && (b0 & 0x0F) < 16) by (bit_vector);
        }
        let mtype = Mtype::from_u8(raw_mt);
        let token_length = (b0 & 0x0F) as usize;
        let code = Code::from_u8(pkt[1]);
        let p2 = pkt[2];
        let p3 = pkt[3];
        let mid = ((p2 as u16) << 8) | (p3 as u16);
        proof {
            assert(((p2 as u16) << 8) | (p3 as u16) == p2 * 256 + p3) by (bit_vector);
        }

        if n < 4 + token_length {
            return Err(Error::MessageFormat);
        }
        let token: Vec<u8> = slice_to_vec(&pkt[4..4 + token_length]);

        let ghost opts0: int = 4 + token_length as int;
        let mut i: usize = 4 + token_length;
        let mut options: Vec<MsgOption> = Vec::new();
        let mut option_number_offset: u16 = 0;

        while i < n
            invariant
                n == pkt@.len(),
                4 <= n,
                token_length < 16,
                b0 == pkt@[0],
                token_length == (b0 & 0x0F) as usize,
                opts0 == 4 + token_length as int,
                4 + token_length <= i <= n,
                spec_parse_opts(pkt@.skip(opts0), 0) == (match spec_parse_opts(
                    pkt@.skip(i as int),
                    option_number_offset as int,
                ) {
                    None => None::<(Seq<OptView>, Seq<u8>)>,
                    Some((o, p)) => Some((spec_opts_view(options@) + o, p)),
                }),
                forall|t: int|
                    0 <= t < options@.len() ==> options@[t].number == spec_number_from_u16(
                        spec_number_as_u16(options@[t].number),
                    ),
            decreases n - i,
        {
            let ghost i0 = i as int;
            let ghost rem = pkt@.skip(i0);
            let ghost off = option_number_offset as int;
            proof {
                assert(rem.len() == n - i0);
                assert(rem[0] == pkt@[i0]);
            }
            let b = pkt[i];
            if b == 0xFF {
                let payload: Vec<u8> = slice_to_vec(&pkt[i + 1..n]);
                let msg = Message { version, mtype, code, mid, token, options, payload };
                proof {
                    assert(rem.skip(1) =~= pkt@.subrange(i0 + 1, n as int));
                    assert(spec_parse_opts(rem, off) == Some(
                        (Seq::<OptView>::empty(), rem.skip(1)),
                    ));
                    assert(spec_opts_view(msg.options@) + Seq::<OptView>::empty() =~= spec_opts_view(
                        msg.options@,
                    ));
                    lemma_code_wire_round_trip(pkt@[1]);
                    let decoded = spec_decode(pkt@)->Some_0;
                    assert(decoded =~= msg@);
                }
                return Ok(msg);
            }
            let dn = b >> 4;
            let ln = b & 0x0F;

            // Resolve the delta nibble, consuming its extension bytes.
            let delta: u32;
            let dlen: usize;
            if dn < 13 {
                delta = dn as u32;
                dlen = 0;
            } else if dn == 13 {
                if n - i < 2 {
                    return Err(Error::MessageFormat);
                }
                delta = pkt[i + 1] as u32 + 13;
                dlen = 1;
                proof {
                    assert(rem[1] == pkt@[i0 + 1]);
                }
            } else if dn == 14 {
                if n - i < 3 {
                    return Err(Error::MessageFormat);
                }
                let hi = pkt[i + 1];
                let lo = pkt[i + 2];
                let combined = ((hi as u32) << 8) | (lo as u32);
                proof {
                    assert(((hi as u32) << 8) | (lo as u32) == hi * 256 + lo) by (bit_vector);
                    assert(rem[1] == pkt@[i0 + 1] && rem[2] == pkt@[i0 + 2]);
                }
                delta = combined + 269;
                dlen = 2;
            } else {
                return Err(Error::MessageFormat);
            }
            proof {
                assert(spec_resolve_nibble(rem[0] >> 4, rem, 1) == Some(
                    (delta as int, dlen as int),
                ));
            }

            // Resolve the length nibble, consuming its extension bytes.
            let length: u32;
            let llen: usize;
            if ln < 13 {
                length = ln as u32;
                llen = 0;
            } else if ln == 13 {
                if n - i < dlen + 2 {
                    return Err(Error::MessageFormat);
                }
                length = pkt[i + 1 + dlen] as u32 + 13;
                llen = 1;
                proof {
                    assert(rem[1 + dlen as int] == pkt@[i0 + 1 + dlen]);
                }
            } else if ln == 14 {
                if n - i < dlen + 3 {
                    return Err(Error::MessageFormat);
                }
                let hi = pkt[i + 1 + dlen];
                let lo = pkt[i + 2 + dlen];
                let combined = ((hi as u32) << 8) | (lo as u32);
                proof {
                    assert(((hi as u32) << 8) | (lo as u32) == hi * 256 + lo) by (bit_vector);
                    assert(rem[1 + dlen as int] == pkt@[i0 + 1 + dlen] && rem[2 + dlen as int]
                        == pkt@[i0 + 2 + dlen]);
                }
                length = combined + 269;
                llen = 2;
            } else {
                return Err(Error::MessageFormat);
            }
            proof {
                assert(spec_resolve_nibble(rem[0] & 0x0F, rem, 1 + dlen as int) == Some(
                    (length as int, llen as int),
                ));
            }

            let hdr = 1 + dlen + llen;
            let number32 = option_number_offset as u32 + delta;
            if number32 > 65535 {
                return Err(Error::MessageFormat);
            }
            if length >= 65000 {
                return Err(Error::MessageFormat);
            }
            if n - i < hdr + length as usize {
                return Err(Error::MessageFormat);
            }

            let ghost pre_opts = options@;
            let value: Vec<u8> = slice_to_vec(&pkt[i + hdr..i + hdr + length as usize]);
            let opt = crate::opt::from_u16(number32 as u16, value);
            options.push(opt);
            option_number_offset = number32 as u16;
            i = i + hdr + length as usize;
            proof {
                let h = hdr as int;
                let l = length as int;
                assert(i as int == i0 + h + l);
                assert(rem.subrange(h, h + l) =~= pkt@.subrange(i0 + h, i0 + h + l));
                assert(rem.skip(h + l) =~= pkt@.skip(i0 + h + l));
                assert(opt@ =~= OptView {
                    number: (off + delta as int) as u16,
                    value: rem.subrange(h, h + l),
                });
                lemma_opts_view_push(pre_opts, opt);
                let next = spec_parse_opts(pkt@.skip(i0 + h + l), number32 as int);
                if next is Some {
                    let op = next->Some_0;
                    assert(seq![
                        OptView {
                            number: (off + delta as int) as u16,
                            value: rem.subrange(h, h + l),
                        },
                    ] + op.0 =~= seq![opt@] + op.0);
                    assert(spec_opts_view(pre_opts) + (seq![opt@] + op.0) =~= spec_opts_view(
                        options@,
                    ) + op.0);
                }
            }
        }

        let payload: Vec<u8> = Vec::new();
        let msg = Message { version, mtype, code, mid, token, options, payload };
        proof {
            assert(pkt@.skip(i as int).len() == 0);
            assert(spec_parse_opts(pkt@.skip(i as int), option_number_offset as int) == Some(
                (Seq::<OptView>::empty(), Seq::<u8>::empty()),
            ));
            assert(spec_opts_view(msg.options@) + Seq::<OptView>::empty() =~= spec_opts_view(
                msg.options@,
            ));
            lemma_code_wire_round_trip(pkt@[1]);
            let decoded = spec_decode(pkt@)->Some_0;
            assert(decoded =~= msg@);
        }
        Ok(msg)
    }

    /// Encode this message. Succeeds exactly when the message is
    /// well-formed for the wire: token of at most 8 bytes, options in
    /// non-decreasing identifier order, and every option identifier and
    /// value length below 65000; the produced bytes are exactly the
    /// mathematical encoding of the message. Any violation yields a format
    /// error instead of a wire-invalid datagram.
    #[verifier::loop_isolation(false)]
    #[verifier::rlimit(100)]
    pub fn to_bytes(&self) -> (r: Result<Vec<u8>, Error>)
        ensures
            match r {
                Ok(bytes) => spec_msg_wf(self@) && bytes@ == spec_encode(self@),
                Err(e) => !spec_msg_wf(self@) && e == Error::MessageFormat,
            },
    {
        let ghost optsv = spec_opts_view(self.options@);
        if self.token.len() > 8 {
            return Err(Error::MessageFormat);
        }

        // Validate option order and representability before emitting
        // anything: an out-of-order sequence would otherwise silently
        // produce a wire-invalid delta.
        let nopts = self.options.len();
        let mut k: usize = 0;
        let mut last: u16 = 0;
        while k < nopts
            invariant
                k <= nopts,
                forall|a: int, b: int| 0 <= a <= b < k ==> optsv[a].number <= optsv[b].number,
                forall|a: int|
                    0 <= a < k ==> optsv[a].number < 65000 && optsv[a].value.len() < 65000,
                forall|a: int| 0 <= a < k ==> optsv[a].number <= last,
                k == 0 ==> last == 0,
                k > 0 ==> last == optsv[k - 1].number,
            decreases nopts - k,
        {
            let o = &self.options[k];
            let num = o.number.as_u16();
            proof {
                assert(optsv[k as int].number == num);
                assert(optsv[k as int].value == o.value@);
            }
            if num < last {
                proof {
                    assert(spec_options_sorted(optsv) ==> optsv[k - 1].number
                        <= optsv[k as int].number);
                }
                return Err(Error::MessageFormat);
            }
            if num >= 65000 {
                proof {
                    assert(spec_options_encodable(optsv) ==> optsv[k as int].number < 65000);
                }
                return Err(Error::MessageFormat);
            }
            if o.value.len() >= 65000 {
                proof {
                    assert(spec_options_encodable(optsv) ==> optsv[k as int].value.len() < 65000);
                }
                return Err(Error::MessageFormat);
            }
            last = num;
            k += 1;
        }
        proof {
            assert(spec_options_sorted(optsv));
            assert(spec_options_encodable(optsv));
            assert(spec_msg_wf(self@));
        }

        let mut pkt: Vec<u8> = Vec::new();
        let tkl = self.token.len() as u8;
        let mt = self.mtype.as_u8();
        let v = self.version;
        let b0 = (v << 6) | (mt << 4) | tkl;
        proof {
            assert((v << 6) | (mt << 4) | tkl == ((v % 4) * 64 + mt * 16 + tkl) as u8)
                by (bit_vector)
                requires
                    mt <= 3 && tkl <= 8,
            ;
        }
        pkt.push(b0);
        pkt.push(self.code.as_u8());
        let m = self.mid;
        let midhi = (m >> 8) as u8;
        let midlo = (m & 0xFF) as u8;
        proof {
            assert((m >> 8) as u8 == m / 256 && (m & 0xFF) as u8 == m % 256) by (bit_vector);
        }
        pkt.push(midhi);
        pkt.push(midlo);

        let ghost head = seq![
            ((v % 4) * 64 + mt * 16 + tkl) as u8,
            spec_code_as_u8(self.code),
            (m / 256) as u8,
            (m % 256) as u8,
        ] + self.token@;

        let mut t: usize = 0;
        while t < self.token.len()
            invariant
                t <= self.token.len(),
                pkt@ =~= head.take(4 + t as int),
            decreases self.token.len() - t,
        {
            pkt.push(self.token[t]);
            t += 1;
            proof {
                assert(pkt@ =~= head.take(4 + t as int));
            }
        }
        proof {
            assert(pkt@ =~= head);
        }

        let mut j: usize = 0;
        last = 0;
        while j < nopts
            invariant
                j <= nopts,
                pkt@ =~= head + spec_encode_opts(optsv.take(j as int), 0),
                j == 0 ==> last == 0,
                j > 0 ==> last == optsv[j - 1].number,
            decreases nopts - j,
        {
            let o = &self.options[j];
            let num = o.number.as_u16();
            proof {
                assert(optsv[j as int] == o@);
                if j > 0 {
                    assert(optsv[j - 1].number <= optsv[j as int].number);
                }
                assert(spec_last_number(optsv.take(j as int), 0) == last as int);
            }
            let ghost pre = pkt@;
            push_option(&mut pkt, o, last);
            proof {
                lemma_encode_opts_snoc(optsv, 0, j as int);
                assert(pkt@ =~= head + spec_encode_opts(optsv.take(j as int + 1), 0));
            }
            last = num;
            j += 1;
        }
        proof {
            assert(optsv.take(nopts as int) =~= optsv);
            assert(pkt@ =~= head + spec_encode_opts(optsv, 0));
        }

        if self.payload.len() > 0 {
            pkt.push(0xFF);
            let ghost pre3 = pkt@;
            let mut t3: usize = 0;
            while t3 < self.payload.len()
                invariant
                    t3 <= self.payload.len(),
                    pkt@ =~= pre3 + self.payload@.take(t3 as int),
                decreases self.payload.len() - t3,
            {
                pkt.push(self.payload[t3]);
                t3 += 1;
                proof {
                    assert(pkt@ =~= pre3 + self.payload@.take(t3 as int));
                }
            }
            proof {
                assert(pkt@ =~= head + spec_encode_opts(optsv, 0) + (seq![0xFFu8]
                    + self.payload@));
                assert(pkt@ =~= spec_encode(self@));
            }
        } else {
            proof {
                assert(pkt@ =~= spec_encode(self@));
            }
        }
        Ok(pkt)
    }
}

} // verus!
