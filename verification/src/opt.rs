//! Option model: a numeric option identifier plus an opaque byte value, and
//! the classification rules (critical / unsafe-to-forward / cache-key) that
//! are pure functions of the identifier's low bits.

use vstd::prelude::*;

verus! {

/// Option identifiers form an open enumeration: a fixed set of named
/// identifiers plus `Unknown` for every other 16-bit value, so no valid wire
/// value is ever rejected merely for being unrecognized.
#[derive(Clone, Copy, PartialEq, Eq, Structural, Debug)]
pub enum Number {
    ReservedOrUnknown,
    IfMatch,
    UriHost,
    ETag,
    IfNoneMatch,
    Observe,
    UriPort,
    LocationPath,
    UriPath,
    ContentFormat,
    MaxAge,
    UriQuery,
    Accept,
    LocationQuery,
    ProxyUri,
    ProxyScheme,
    Size1,
    NoResponse,
    Unknown(u16),
}

/// The identifier denoted by a raw 16-bit wire value.
pub open spec fn spec_number_from_u16(raw: u16) -> Number {
    if raw == 0 {
        Number::ReservedOrUnknown
    } else if raw == 1 {
        Number::IfMatch
    } else if raw == 3 {
        Number::UriHost
    } else if raw == 4 {
        Number::ETag
    } else if raw == 5 {
        Number::IfNoneMatch
    } else if raw == 6 {
        Number::Observe
    } else if raw == 7 {
        Number::UriPort
    } else if raw == 8 {
        Number::LocationPath
    } else if raw == 11 {
        Number::UriPath
    } else if raw == 12 {
        Number::ContentFormat
    } else if raw == 14 {
        Number::MaxAge
    } else if raw == 15 {
        Number::UriQuery
    } else if raw == 17 {
        Number::Accept
    } else if raw == 20 {
        Number::LocationQuery
    } else if raw == 35 {
        Number::ProxyUri
    } else if raw == 39 {
        Number::ProxyScheme
    } else if raw == 60 {
        Number::Size1
    } else if raw == 284 {
        Number::NoResponse
    } else {
        Number::Unknown(raw)
    }
}

/// The numeric value of an identifier.
pub open spec fn spec_number_as_u16(n: Number) -> u16 {
    match n {
        Number::ReservedOrUnknown => 0,
        Number::IfMatch => 1,
        Number::UriHost => 3,
        Number::ETag => 4,
        Number::IfNoneMatch => 5,
        Number::Observe => 6,
        Number::UriPort => 7,
        Number::LocationPath => 8,
        Number::UriPath => 11,
        Number::ContentFormat => 12,
        Number::MaxAge => 14,
        Number::UriQuery => 15,
        Number::Accept => 17,
        Number::LocationQuery => 20,
        Number::ProxyUri => 35,
        Number::ProxyScheme => 39,
        Number::Size1 => 60,
        Number::NoResponse => 284,
        Number::Unknown(raw) => raw,
    }
}

/// An identifier read from the wire always writes back as the same wire
/// value, named or not.
pub proof fn lemma_number_wire_round_trip(raw: u16)
    ensures
        spec_number_as_u16(spec_number_from_u16(raw)) == raw,
{
}

impl Number {
    /// Classify a raw 16-bit wire value as an identifier.
    pub fn from_u16(raw_number: u16) -> (r: Number)
        ensures
            r == spec_number_from_u16(raw_number),
    {
        if raw_number == 0 {
            Number::ReservedOrUnknown
        } else if raw_number == 1 {
            Number::IfMatch
        } else if raw_number == 3 {
            Number::UriHost
        } else if raw_number == 4 {
            Number::ETag
        } else if raw_number == 5 {
            Number::IfNoneMatch
        } else if raw_number == 6 {
            Number::Observe
        } else if raw_number == 7 {
            Number::UriPort
        } else if raw_number == 8 {
            Number::LocationPath
        } else if raw_number == 11 {
            Number::UriPath
        } else if raw_number == 12 {
            Number::ContentFormat
        } else if raw_number == 14 {
            Number::MaxAge
        } else if raw_number == 15 {
            Number::UriQuery
        } else if raw_number == 17 {
            Number::Accept
        } else if raw_number == 20 {
            Number::LocationQuery
        } else if raw_number == 35 {
            Number::ProxyUri
        } else if raw_number == 39 {
            Number::ProxyScheme
        } else if raw_number == 60 {
            Number::Size1
        } else if raw_number == 284 {
            Number::NoResponse
        } else {
            Number::Unknown(raw_number)
        }
    }

    /// The numeric value this identifier stands for.
    pub fn as_u16(&self) -> (r: u16)
        ensures
            r == spec_number_as_u16(*self),
    {
        match *self {
            Number::ReservedOrUnknown => 0,
            Number::IfMatch => 1,
            Number::UriHost => 3,
            Number::ETag => 4,
            Number::IfNoneMatch => 5,
            Number::Observe => 6,
            Number::UriPort => 7,
            Number::LocationPath => 8,
            Number::UriPath => 11,
            Number::ContentFormat => 12,
            Number::MaxAge => 14,
            Number::UriQuery => 15,
            Number::Accept => 17,
            Number::LocationQuery => 20,
            Number::ProxyUri => 35,
            Number::ProxyScheme => 39,
            Number::Size1 => 60,
            Number::NoResponse => 284,
            Number::Unknown(n) => n,
        }
    }

    /// Critical: bit 0 of the numeric identifier is set.
    pub fn is_critical(&self) -> (r: bool)
        ensures
            r == spec_is_critical(*self),
    {
        self.as_u16() & 0x01 != 0
    }

    /// Elective: bit 0 of the numeric identifier is clear; the complement of
    /// critical.
    pub fn is_elective(&self) -> (r: bool)
        ensures
            r == !spec_is_critical(*self),
    {
        self.as_u16() & 0x01 == 0
    }

    /// Unsafe to forward: bit 1 of the numeric identifier is set.
    pub fn is_unsafe_to_forward(&self) -> (r: bool)
        ensures
            r == spec_is_unsafe_to_forward(*self),
    {
        self.as_u16() & 0x02 != 0
    }

    /// Safe to forward: bit 1 of the numeric identifier is clear; the
    /// complement of unsafe-to-forward.
    pub fn is_safe_to_forward(&self) -> (r: bool)
        ensures
            r == !spec_is_unsafe_to_forward(*self),
    {
        self.as_u16() & 0x02 == 0
    }

    /// No-cache-key: bits 4-1 of the numeric identifier read 0b1110.
    pub fn is_no_cache_key(&self) -> (r: bool)
        ensures
            r == spec_is_no_cache_key(*self),
    {
        self.as_u16() & 0x1e == 0x1c
    }

    /// Cache-key: the complement of no-cache-key.
    pub fn is_cache_key(&self) -> (r: bool)
        ensures
            r == !spec_is_no_cache_key(*self),
    {
        self.as_u16() & 0x1e != 0x1c
    }
}

/// Critical options have bit 0 of their numeric identifier set.
pub open spec fn spec_is_critical(n: Number) -> bool {
    spec_number_as_u16(n) & 0x01 != 0
}

/// Unsafe-to-forward options have bit 1 of their numeric identifier set.
pub open spec fn spec_is_unsafe_to_forward(n: Number) -> bool {
    spec_number_as_u16(n) & 0x02 != 0
}

/// No-cache-key options have bits 4-1 of their numeric identifier equal to
/// 0b1110.
pub open spec fn spec_is_no_cache_key(n: Number) -> bool {
    spec_number_as_u16(n) & 0x1e == 0x1c
}

/// One protocol option: a numeric identifier and an opaque byte value.
#[derive(Clone, PartialEq, Eq, Debug)]
pub struct MsgOption {
    pub number: Number,
    pub value: Vec<u8>,
}

/// Abstract value of an option: the raw numeric identifier and the value
/// bytes. Two options that would serialize identically have the same view.
#[verifier::ext_equal]
pub struct OptView {
    pub number: u16,
    pub value: Seq<u8>,
}

impl View for MsgOption {
    type V = OptView;

    open spec fn view(&self) -> OptView {
        OptView { number: spec_number_as_u16(self.number), value: self.value@ }
    }
}

/// The views of a sequence of options, in order.
pub open spec fn spec_opts_view(opts: Seq<MsgOption>) -> Seq<OptView> {
    opts.map_values(|x: MsgOption| x@)
}

/// Appending an option to a sequence appends its view.
pub proof fn lemma_opts_view_push(opts: Seq<MsgOption>, o: MsgOption)
    ensures
        spec_opts_view(opts.push(o)) == spec_opts_view(opts) + seq![o@],
{
    assert(spec_opts_view(opts.push(o)) =~= spec_opts_view(opts) + seq![o@]);
}

/// Build an option from an already classified identifier.
pub fn new(number: Number, value: Vec<u8>) -> (r: MsgOption)
    ensures
        r.number == number,
        r.value == value,
{
    MsgOption { number, value }
}

/// Build an option from a raw numeric identifier, classifying it through the
/// open enumeration.
pub fn from_u16(numeric: u16, value: Vec<u8>) -> (r: MsgOption)
    ensures
        r.number == spec_number_from_u16(numeric),
        r.value == value,
        r@.number == numeric,
        r@.value == value@,
{
    proof {
        lemma_number_wire_round_trip(numeric);
    }
    new(Number::from_u16(numeric), value)
}

} // verus!
