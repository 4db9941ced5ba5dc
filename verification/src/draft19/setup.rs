//! Draft-19 SETUP messages and the frames that every later message stands in.

use bytes::Bytes;
use std::collections::HashSet;
use vstd::prelude::*;

use crate::profile::WireProfile;
use crate::vi64::{vi64_bytes, vi64_decode, vi64_rest_on_error, vi64_size, Vi64};
use crate::wire::{
    be_bytes, be_value, bytes_as_slice, bytes_clone, bytes_len, bytes_take, bytes_view,
    decode_remaining, put_be, take_be, DecodeError, EncodeError,
};

verus! {

pub const SETUP_TYPE: u64 = 0x2f00;

/// The setup options that the profile registers.
#[derive(Copy, Clone, Debug, PartialEq, Eq, Structural)]
pub enum SetupOptionType {
    Path,
    AuthorizationToken,
    MaxAuthTokenCacheSize,
    Authority,
    MaxFilterRanges,
    MoqtImplementation,
    MaxRequestUpdates,
}

/// Whether an option of this type may stand only once. Authorization tokens
/// stay opaque and may repeat.
pub open spec fn option_known(option_type: u64) -> bool {
    option_type == 0x01 || 0x04 <= option_type <= 0x08
}

impl SetupOptionType {
    /// The number of the option on the wire.
    pub open spec fn spec_code(self) -> u64 {
        match self {
            SetupOptionType::Path => 0x01,
            SetupOptionType::AuthorizationToken => 0x03,
            SetupOptionType::MaxAuthTokenCacheSize => 0x04,
            SetupOptionType::Authority => 0x05,
            SetupOptionType::MaxFilterRanges => 0x06,
            SetupOptionType::MoqtImplementation => 0x07,
            SetupOptionType::MaxRequestUpdates => 0x08,
        }
    }

    pub fn code(self) -> (r: u64)
        ensures
            r == self.spec_code(),
    {
        match self {
            SetupOptionType::Path => 0x01,
            SetupOptionType::AuthorizationToken => 0x03,
            SetupOptionType::MaxAuthTokenCacheSize => 0x04,
            SetupOptionType::Authority => 0x05,
            SetupOptionType::MaxFilterRanges => 0x06,
            SetupOptionType::MoqtImplementation => 0x07,
            SetupOptionType::MaxRequestUpdates => 0x08,
        }
    }

    pub fn is_known(value: u64) -> (r: bool)
        ensures
            r == option_known(value),
    {
        matches!(value, 0x01 | 0x04 | 0x05 | 0x06 | 0x07 | 0x08)
    }
}

#[derive(Clone, Debug, PartialEq, Eq)]
pub enum SetupOptionValue {
    Integer(u64),
    Bytes(Vec<u8>),
}

/// What an option's value holds.
pub enum OptionValueView {
    Integer(u64),
    Bytes(Seq<u8>),
}

impl View for SetupOptionValue {
    type V = OptionValueView;

    open spec fn view(&self) -> OptionValueView {
        match self {
            SetupOptionValue::Integer(v) => OptionValueView::Integer(*v),
            SetupOptionValue::Bytes(b) => OptionValueView::Bytes(b@),
        }
    }
}

#[derive(Clone, Debug, PartialEq, Eq)]
pub struct SetupOption {
    pub option_type: u64,
    pub value: SetupOptionValue,
}

/// An option as its type and what its value holds.
pub struct OptionView {
    pub option_type: u64,
    pub value: OptionValueView,
}

impl View for SetupOption {
    type V = OptionView;

    open spec fn view(&self) -> OptionView {
        OptionView { option_type: self.option_type, value: self.value@ }
    }
}

impl SetupOption {
    pub fn integer(option_type: u64, value: u64) -> (r: Self)
        ensures
            r@ == (OptionView { option_type, value: OptionValueView::Integer(value) }),
    {
        SetupOption { option_type, value: SetupOptionValue::Integer(value) }
    }

    pub fn bytes(option_type: u64, value: Vec<u8>) -> (r: Self)
        ensures
            r@ == (OptionView { option_type, value: OptionValueView::Bytes(value@) }),
    {
        SetupOption { option_type, value: SetupOptionValue::Bytes(value) }
    }
}

/// The options of a list, in order.
pub open spec fn options_view(options: Seq<SetupOption>) -> Seq<OptionView> {
    options.map_values(|o: SetupOption| o@)
}

#[derive(Clone, Debug, PartialEq, Eq)]
pub struct SetupOptions(pub Vec<SetupOption>);

impl Default for SetupOptions {
    fn default() -> (r: Self)
        ensures
            r.0@.len() == 0,
    {
        SetupOptions(Vec::new())
    }
}

impl View for SetupOptions {
    type V = Seq<OptionView>;

    open spec fn view(&self) -> Seq<OptionView> {
        options_view(self.0@)
    }
}

/// The value of an option of this type at the start of `s`, with the number of
/// bytes that it takes: an integer under an even type, counted bytes under an
/// odd one.
pub open spec fn option_value_decode(option_type: u64, s: Seq<u8>) -> Result<
    (OptionValueView, nat),
    DecodeError,
> {
    match vi64_decode(s) {
        Err(e) => Err(e),
        Ok((v, n)) => {
            if option_type % 2 == 0 {
                Ok((OptionValueView::Integer(v), n))
            } else if v > 0xffff {
                Err(DecodeError::KeyValuePairLengthExceeded)
            } else if s.len() - n < v {
                Err(DecodeError::More((v - (s.len() - n)) as usize))
            } else {
                Ok((OptionValueView::Bytes(s.subrange(n as int, n + v)), n + v as nat))
            }
        },
    }
}

/// The types that must not occur again after an option of this type.
pub open spec fn known_after(known: Set<u64>, option_type: u64) -> Set<u64> {
    if option_known(option_type) {
        known.insert(option_type)
    } else {
        known
    }
}

/// The options that fill `s`, where the option before them has type `previous`
/// and the types in `known` must not occur again. Each type stands as the
/// distance from the one before it.
pub open spec fn options_decode(s: Seq<u8>, previous: u64, known: Set<u64>) -> Result<
    Seq<OptionView>,
    DecodeError,
>
    decreases s.len(),
{
    if s.len() == 0 {
        Ok(Seq::empty())
    } else {
        match vi64_decode(s) {
            Err(e) => Err(e),
            Ok((delta, n)) => {
                if previous + delta > u64::MAX {
                    Err(DecodeError::KvpTypeOverflow)
                } else {
                    let option_type = (previous + delta) as u64;
                    if option_known(option_type) && known.contains(option_type) {
                        Err(DecodeError::DuplicateParameter(option_type))
                    } else {
                        match option_value_decode(option_type, s.skip(n as int)) {
                            Err(e) => Err(e),
                            Ok((value, m)) => {
                                if 0 < n + m <= s.len() {
                                    prepend(
                                        seq![OptionView { option_type, value }],
                                        options_decode(
                                            s.skip((n + m) as int),
                                            option_type,
                                            known_after(known, option_type),
                                        ),
                                    )
                                } else {
                                    arbitrary()
                                }
                            },
                        }
                    }
                }
            },
        }
    }
}

/// A read list with more options before it.
pub open spec fn prepend(
    done: Seq<OptionView>,
    rest: Result<Seq<OptionView>, DecodeError>,
) -> Result<Seq<OptionView>, DecodeError> {
    match rest {
        Ok(options) => Ok(done + options),
        Err(e) => Err(e),
    }
}

/// The bytes of an option's value, where the type can hold it.
pub open spec fn option_value_encode(option_type: u64, value: OptionValueView) -> Result<
    Seq<u8>,
    EncodeError,
> {
    match value {
        OptionValueView::Integer(v) => {
            if option_type % 2 == 0 {
                Ok(vi64_bytes(v))
            } else {
                Err(EncodeError::InvalidValue)
            }
        },
        OptionValueView::Bytes(b) => {
            if option_type % 2 == 0 {
                Err(EncodeError::InvalidValue)
            } else if b.len() > 0xffff {
                Err(EncodeError::KeyValuePairLengthExceeded)
            } else {
                Ok(vi64_bytes(b.len() as u64) + b)
            }
        },
    }
}

/// The bytes of a list of options that follows one of type `previous`.
pub open spec fn options_encode(
    options: Seq<OptionView>,
    previous: u64,
    known: Set<u64>,
) -> Result<Seq<u8>, EncodeError>
    decreases options.len(),
{
    if options.len() == 0 {
        Ok(Seq::empty())
    } else {
        let option_type = options[0].option_type;
        if option_known(option_type) && known.contains(option_type) {
            Err(EncodeError::InvalidValue)
        } else if option_type < previous {
            Err(EncodeError::KvpKeyOrder)
        } else {
            match option_value_encode(option_type, options[0].value) {
                Err(e) => Err(e),
                Ok(value) => prepend_bytes(
                    vi64_bytes((option_type - previous) as u64) + value,
                    options_encode(options.skip(1), option_type, known_after(known, option_type)),
                ),
            }
        }
    }
}

/// Written bytes with more bytes before them.
pub open spec fn prepend_bytes(done: Seq<u8>, rest: Result<Seq<u8>, EncodeError>) -> Result<
    Seq<u8>,
    EncodeError,
> {
    match rest {
        Ok(bytes) => Ok(done + bytes),
        Err(e) => Err(e),
    }
}

pub proof fn lemma_vi64_decode_bounds(s: Seq<u8>)
    ensures
        vi64_decode(s) matches Ok((v, n)) ==> 1 <= n <= s.len(),
{
}

impl SetupOptions {
    /// Reads options up to the end of the buffer.
    pub fn decode_body(buf: &mut Bytes) -> (r: Result<Self, DecodeError>)
        ensures
            match options_decode(bytes_view(*old(buf)), 0, Set::empty()) {
                Ok(options) => {
                    &&& r matches Ok(x)
                    &&& x@ == options
                    &&& bytes_view(*final(buf)).len() == 0
                },
                Err(e) => r == Err::<Self, DecodeError>(e),
            },
    {
        broadcast use vstd::std_specs::hash::group_hash_axioms;

        let ghost all = bytes_view(*buf);
        let mut options: Vec<SetupOption> = Vec::new();
        let mut previous: u64 = 0;
        let mut known: HashSet<u64> = HashSet::new();
        proof {
            assert(options_view(options@) =~= Seq::empty());
            let rest = options_decode(all, 0, Set::empty());
            if let Ok(x) = rest {
                assert(options_view(options@) + x =~= x);
            }
        }
        while bytes_len(buf) > 0
            invariant
                all == bytes_view(*old(buf)),
                options_decode(all, 0, Set::empty()) == prepend(
                    options_view(options@),
                    options_decode(bytes_view(*buf), previous, known@),
                ),
            decreases bytes_view(*buf).len(),
        {
            let ghost s = bytes_view(*buf);
            let ghost done = options_view(options@);
            let ghost known_before = known@;
            proof {
                lemma_vi64_decode_bounds(s);
            }
            let delta: u64 = Vi64::decode(buf)?.into_inner();
            let option_type: u64 = match previous.checked_add(delta) {
                Some(t) => t,
                None => {
                    return Err(DecodeError::KvpTypeOverflow);
                },
            };
            if SetupOptionType::is_known(option_type) {
                if !known.insert(option_type) {
                    return Err(DecodeError::DuplicateParameter(option_type));
                }
            }
            assert(known@ =~= known_after(known_before, option_type));
            let ghost after_type = bytes_view(*buf);
            proof {
                lemma_vi64_decode_bounds(after_type);
            }
            let value: SetupOptionValue = if option_type % 2 == 0 {
                SetupOptionValue::Integer(Vi64::decode(buf)?.into_inner())
            } else {
                let len: u64 = Vi64::decode(buf)?.into_inner();
                if len > 0xffff {
                    return Err(DecodeError::KeyValuePairLengthExceeded);
                }
                let len: usize = len as usize;
                decode_remaining(buf, len)?;
                let ghost before = bytes_view(*buf);
                let body: Bytes = bytes_take(buf, len);
                let mut value: Vec<u8> = Vec::new();
                value.extend_from_slice(bytes_as_slice(&body));
                proof {
                    assert(value@ =~= before.take(len as int));
                    let n = vi64_decode(after_type)->Ok_0.1;
                    assert(before.take(len as int) =~= after_type.subrange(n as int, n + len));
                    assert(before.skip(len as int) =~= after_type.skip(n + len));
                }
                SetupOptionValue::Bytes(value)
            };
            options.push(SetupOption { option_type, value });
            proof {
                let n = vi64_decode(s)->Ok_0.1;
                let (v, m) = option_value_decode(option_type, after_type)->Ok_0;
                assert(after_type =~= s.skip(n as int));
                assert(s.skip(n as int).skip(m as int) =~= s.skip((n + m) as int));
                let one = OptionView { option_type, value: v };
                assert(options_view(options@) =~= done + seq![one]);
                let rest = options_decode(
                    s.skip((n + m) as int),
                    option_type,
                    known_after(known_before, option_type),
                );
                if let Ok(x) = rest {
                    assert(done + (seq![one] + x) =~= options_view(options@) + x);
                }
            }
            previous = option_type;
        }
        proof {
            assert(options_view(options@) + Seq::<OptionView>::empty() =~= options_view(options@));
        }
        Ok(SetupOptions(options))
    }

    /// Appends the options. On failure the options before the one at fault
    /// may have been appended.
    pub fn encode_body(&self, buf: &mut Vec<u8>) -> (r: Result<(), EncodeError>)
        ensures
            match options_encode(self@, 0, Set::empty()) {
                Ok(bytes) => r == Ok::<(), EncodeError>(()) && final(buf)@ == old(buf)@ + bytes,
                Err(e) => r == Err::<(), EncodeError>(e),
            },
    {
        broadcast use vstd::std_specs::hash::group_hash_axioms;

        let ghost start = buf@;
        let mut previous: u64 = 0;
        let mut known: HashSet<u64> = HashSet::new();
        let ghost mut done: Seq<u8> = Seq::empty();
        let mut i: usize = 0;
        proof {
            assert(self@.skip(0) =~= self@);
            let rest = options_encode(self@, 0, Set::empty());
            if let Ok(x) = rest {
                assert(done + x =~= x);
            }
            assert(start + done =~= start);
        }
        while i < self.0.len()
            invariant
                i <= self.0@.len(),
                start == old(buf)@,
                buf@ == start + done,
                options_encode(self@, 0, Set::empty()) == prepend_bytes(
                    done,
                    options_encode(self@.skip(i as int), previous, known@),
                ),
            decreases self.0@.len() - i,
        {
            let option: &SetupOption = &self.0[i];
            let ghost rest_options = self@.skip(i as int);
            let ghost known_before = known@;
            assert(rest_options[0] == option@);
            if SetupOptionType::is_known(option.option_type) {
                if !known.insert(option.option_type) {
                    return Err(EncodeError::InvalidValue);
                }
            }
            assert(known@ =~= known_after(known_before, option.option_type));
            if option.option_type < previous {
                return Err(EncodeError::KvpKeyOrder);
            }
            let ghost before = buf@;
            Vi64::new(option.option_type - previous).encode(buf);
            let ghost value_bytes: Seq<u8>;
            match &option.value {
                SetupOptionValue::Integer(value) => {
                    if option.option_type % 2 != 0 {
                        return Err(EncodeError::InvalidValue);
                    }
                    Vi64::new(*value).encode(buf);
                    proof {
                        value_bytes = vi64_bytes(*value);
                    }
                },
                SetupOptionValue::Bytes(value) => {
                    if option.option_type % 2 == 0 {
                        return Err(EncodeError::InvalidValue);
                    }
                    if value.len() > 0xffff {
                        return Err(EncodeError::KeyValuePairLengthExceeded);
                    }
                    Vi64::new(value.len() as u64).encode(buf);
                    let ghost mid = buf@;
                    buf.extend_from_slice(value.as_slice());
                    proof {
                        value_bytes = vi64_bytes(value@.len() as u64) + value@;
                        assert(buf@ =~= mid + value@);
                    }
                },
            }
            proof {
                let piece = vi64_bytes((option.option_type - previous) as u64) + value_bytes;
                assert(buf@ =~= before + piece);
                assert(rest_options.skip(1) =~= self@.skip(i + 1));
                let rest = options_encode(
                    self@.skip(i + 1),
                    option.option_type,
                    known_after(known_before, option.option_type),
                );
                if let Ok(x) = rest {
                    assert(done + (piece + x) =~= (done + piece) + x);
                }
                assert(start + done + piece =~= start + (done + piece));
                done = done + piece;
            }
            previous = option.option_type;
            i = i + 1;
        }
        proof {
            assert(done + Seq::<u8>::empty() =~= done);
        }
        Ok(())
    }
}

/// Reading an option's value back gives the value, whatever follows it.
proof fn lemma_option_value_round_trip(option_type: u64, value: OptionValueView, rest: Seq<u8>)
    requires
        option_value_encode(option_type, value) is Ok,
    ensures
        ({
            let bytes = option_value_encode(option_type, value)->Ok_0;
            option_value_decode(option_type, bytes + rest) == Ok::<
                (OptionValueView, nat),
                DecodeError,
            >((value, bytes.len()))
        }),
{
    match value {
        OptionValueView::Integer(v) => {
            crate::vi64::law_vi64_round_trip(v, rest);
            crate::vi64::lemma_vi64_bytes_len(v);
        },
        OptionValueView::Bytes(b) => {
            let n = b.len() as u64;
            crate::vi64::law_vi64_round_trip(n, b + rest);
            crate::vi64::lemma_vi64_bytes_len(n);
            let bytes = vi64_bytes(n) + b;
            assert(bytes + rest =~= vi64_bytes(n) + (b + rest));
            assert((bytes + rest).subrange(vi64_size(n) as int, vi64_size(n) + n) =~= b);
        },
    }
}

/// Options that can be written are read back as they were.
pub proof fn law_setup_options_round_trip(
    options: Seq<OptionView>,
    previous: u64,
    known: Set<u64>,
)
    ensures
        options_encode(options, previous, known) matches Ok(bytes) ==> options_decode(
            bytes,
            previous,
            known,
        ) == Ok::<Seq<OptionView>, DecodeError>(options),
    decreases options.len(),
{
    if let Ok(bytes) = options_encode(options, previous, known) {
        if options.len() == 0 {
            assert(options =~= Seq::empty());
        } else {
            let option_type = options[0].option_type;
            let delta = (option_type - previous) as u64;
            let value = option_value_encode(option_type, options[0].value)->Ok_0;
            let next = known_after(known, option_type);
            let tail = options_encode(options.skip(1), option_type, next)->Ok_0;
            law_setup_options_round_trip(options.skip(1), option_type, next);
            crate::vi64::law_vi64_round_trip(delta, value + tail);
            crate::vi64::lemma_vi64_bytes_len(delta);
            lemma_option_value_round_trip(option_type, options[0].value, tail);
            let n = vi64_size(delta);
            assert(bytes =~= vi64_bytes(delta) + (value + tail));
            assert(bytes.skip(n as int) =~= value + tail);
            assert(bytes.skip((n + value.len()) as int) =~= tail);
            assert(seq![options[0]] + options.skip(1) =~= options);
        }
    }
}

/// A frame's bytes: its type, the length of its payload in sixteen bits, the
/// payload.
pub open spec fn frame_bytes(message_type: u64, payload: Seq<u8>) -> Seq<u8> {
    vi64_bytes(message_type) + be_bytes(payload.len(), 2) + payload
}

/// The frame at the start of `s`: its type, its payload, and the number of
/// bytes that the type takes.
pub open spec fn frame_decode(s: Seq<u8>) -> Result<(u64, Seq<u8>, nat), DecodeError> {
    match vi64_decode(s) {
        Err(e) => Err(e),
        Ok((message_type, n)) => {
            let r = s.skip(n as int);
            if r.len() < 2 {
                Err(DecodeError::More((2 - r.len()) as usize))
            } else {
                let len = be_value(r.take(2));
                if r.len() < 2 + len {
                    Err(DecodeError::More((2 + len - r.len()) as usize))
                } else {
                    Ok((message_type, r.subrange(2, 2 + len as int), n))
                }
            }
        },
    }
}

/// What a failed read of a frame leaves in the buffer: the fields that were
/// complete are gone.
pub open spec fn frame_rest_on_error(s: Seq<u8>) -> Seq<u8> {
    match vi64_decode(s) {
        Err(_) => vi64_rest_on_error(s),
        Ok((_, n)) => if s.len() < n + 2 {
            s.skip(n as int)
        } else {
            s.skip((n + 2) as int)
        },
    }
}

/// A frame is read back as it was written, and exactly its bytes are taken.
pub proof fn law_frame_round_trip(message_type: u64, payload: Seq<u8>, rest: Seq<u8>)
    requires
        payload.len() <= 0xffff,
    ensures
        frame_decode(frame_bytes(message_type, payload) + rest) == Ok::<
            (u64, Seq<u8>, nat),
            DecodeError,
        >((message_type, payload, vi64_size(message_type))),
        frame_bytes(message_type, payload).len() == vi64_size(message_type) + 2 + payload.len(),
{
    let s = frame_bytes(message_type, payload) + rest;
    let len = be_bytes(payload.len(), 2);
    let n = vi64_size(message_type);
    crate::vi64::law_vi64_round_trip(message_type, len + payload + rest);
    crate::vi64::lemma_vi64_bytes_len(message_type);
    crate::wire::lemma_be_bytes_len(payload.len(), 2);
    reveal_with_fuel(crate::wire::pow256, 3);
    crate::wire::lemma_be_round_trip(payload.len(), 2);
    assert(s =~= vi64_bytes(message_type) + (len + payload + rest));
    assert(s.skip(n as int) =~= len + payload + rest);
    assert(s.skip(n as int).take(2) =~= len);
    assert(s.skip(n as int).subrange(2, 2 + payload.len() as int) =~= payload);
}

#[derive(Debug, PartialEq, Eq)]
pub struct Frame {
    pub message_type: u64,
    pub payload: Bytes,
}

impl Clone for Frame {
    fn clone(&self) -> (r: Self)
        ensures
            r.message_type == self.message_type,
            r.spec_payload() == self.spec_payload(),
    {
        Frame { message_type: self.message_type, payload: bytes_clone(&self.payload) }
    }
}

impl Frame {
    /// The bytes of the payload.
    pub open spec fn spec_payload(&self) -> Seq<u8> {
        bytes_view(self.payload)
    }

    /// Takes a frame off the buffer.
    pub fn decode(buf: &mut Bytes) -> (r: Result<Self, DecodeError>)
        ensures
            match frame_decode(bytes_view(*old(buf))) {
                Ok((message_type, payload, n)) => {
                    &&& r matches Ok(x)
                    &&& x.message_type == message_type
                    &&& x.spec_payload() == payload
                    &&& bytes_view(*final(buf)) == bytes_view(*old(buf)).skip(
                        (n + 2 + payload.len()) as int,
                    )
                },
                Err(e) => {
                    &&& r matches Err(x)
                    &&& x == e
                    &&& bytes_view(*final(buf)) == frame_rest_on_error(bytes_view(*old(buf)))
                },
            },
    {
        let ghost s = bytes_view(*buf);
        let message_type: u64 = Vi64::decode(buf)?.into_inner();
        let ghost n = vi64_decode(s)->Ok_0.1;
        let ghost r = bytes_view(*buf);
        decode_remaining(buf, 2)?;
        let len: u64 = take_be(buf, 2);
        proof {
            reveal_with_fuel(crate::wire::pow256, 3);
            crate::wire::lemma_be_value_bound(r.take(2));
            assert(r.skip(2) =~= s.skip((n + 2) as int));
        }
        let len: usize = len as usize;
        decode_remaining(buf, len)?;
        let payload: Bytes = bytes_take(buf, len);
        proof {
            assert(bytes_view(payload) =~= r.subrange(2, 2 + len as int));
            assert(bytes_view(*buf) =~= s.skip(n + 2 + len));
        }
        Ok(Frame { message_type, payload })
    }

    /// Reads a frame where the session speaks this profile, and leaves the
    /// buffer alone where it speaks another.
    pub fn decode_for_profile(profile: WireProfile, buf: &mut Bytes) -> (r: Result<
        Self,
        DecodeError,
    >)
        ensures
            profile != WireProfile::Draft19 ==> {
                &&& r matches Err(x)
                &&& x == DecodeError::InvalidMessage(SETUP_TYPE)
                &&& *final(buf) == *old(buf)
            },
            profile == WireProfile::Draft19 ==> match frame_decode(bytes_view(*old(buf))) {
                Ok((message_type, payload, n)) => {
                    &&& r matches Ok(x)
                    &&& x.message_type == message_type
                    &&& x.spec_payload() == payload
                    &&& bytes_view(*final(buf)) == bytes_view(*old(buf)).skip(
                        (n + 2 + payload.len()) as int,
                    )
                },
                Err(e) => {
                    &&& r matches Err(x)
                    &&& x == e
                    &&& bytes_view(*final(buf)) == frame_rest_on_error(bytes_view(*old(buf)))
                },
            },
    {
        if profile != WireProfile::Draft19 {
            return Err(DecodeError::InvalidMessage(SETUP_TYPE));
        }
        Frame::decode(buf)
    }

    /// Appends the frame, where its payload fits the length field.
    pub fn encode(&self, buf: &mut Vec<u8>) -> (r: Result<(), EncodeError>)
        ensures
            self.spec_payload().len() <= 0xffff ==> r == Ok::<(), EncodeError>(()) && final(buf)@
                == old(buf)@ + frame_bytes(self.message_type, self.spec_payload()),
            self.spec_payload().len() > 0xffff ==> r == Err::<(), EncodeError>(
                EncodeError::MsgBoundsExceeded,
            ) && final(buf)@ == old(buf)@,
    {
        let len: usize = bytes_len(&self.payload);
        if len > 0xffff {
            return Err(EncodeError::MsgBoundsExceeded);
        }
        Vi64::new(self.message_type).encode(buf);
        put_be(buf, len as u64, 2);
        let ghost mid = buf@;
        buf.extend_from_slice(bytes_as_slice(&self.payload));
        proof {
            assert(buf@ =~= mid + self.spec_payload());
            assert(buf@ =~= old(buf)@ + frame_bytes(self.message_type, self.spec_payload()));
        }
        Ok(())
    }
}

#[derive(Clone, Debug, PartialEq, Eq)]
pub struct Setup {
    pub options: SetupOptions,
}

impl Default for Setup {
    fn default() -> (r: Self)
        ensures
            r.options@.len() == 0,
    {
        Setup { options: SetupOptions::default() }
    }
}

/// The bytes of a SETUP message: a frame of the setup type whose payload is
/// the options.
pub open spec fn setup_encode(options: Seq<OptionView>) -> Result<Seq<u8>, EncodeError> {
    match options_encode(options, 0, Set::empty()) {
        Err(e) => Err(e),
        Ok(body) => if body.len() > 0xffff {
            Err(EncodeError::MsgBoundsExceeded)
        } else {
            Ok(frame_bytes(SETUP_TYPE, body))
        },
    }
}

/// The SETUP message at the start of `s`, with the number of bytes that it
/// takes.
pub open spec fn setup_decode(s: Seq<u8>) -> Result<(Seq<OptionView>, nat), DecodeError> {
    match vi64_decode(s) {
        Ok((message_type, _)) if message_type != SETUP_TYPE => Err(
            DecodeError::InvalidMessage(message_type),
        ),
        _ => match frame_decode(s) {
            Err(e) => Err(e),
            Ok((_, body, n)) => match options_decode(body, 0, Set::empty()) {
                Err(e) => Err(e),
                Ok(options) => Ok((options, n + 2 + body.len())),
            },
        },
    }
}

/// What a failed read of a SETUP message leaves in the buffer.
pub open spec fn setup_rest_on_error(s: Seq<u8>) -> Seq<u8> {
    match vi64_decode(s) {
        Ok((message_type, n)) if message_type != SETUP_TYPE => s.skip(n as int),
        _ => match frame_decode(s) {
            Err(_) => frame_rest_on_error(s),
            Ok((_, body, n)) => s.skip((n + 2 + body.len()) as int),
        },
    }
}

/// A SETUP message that can be written is read back as it was, and exactly its
/// bytes are taken.
pub proof fn law_setup_round_trip(options: Seq<OptionView>, rest: Seq<u8>)
    ensures
        setup_encode(options) matches Ok(bytes) ==> setup_decode(bytes + rest) == Ok::<
            (Seq<OptionView>, nat),
            DecodeError,
        >((options, bytes.len())),
{
    if let Ok(bytes) = setup_encode(options) {
        let body = options_encode(options, 0, Set::empty())->Ok_0;
        law_setup_options_round_trip(options, 0, Set::empty());
        law_frame_round_trip(SETUP_TYPE, body, rest);
    }
}

impl Setup {
    /// Takes a SETUP message off the buffer.
    pub fn decode(buf: &mut Bytes) -> (r: Result<Self, DecodeError>)
        ensures
            match setup_decode(bytes_view(*old(buf))) {
                Ok((options, n)) => {
                    &&& r matches Ok(x)
                    &&& x.options@ == options
                    &&& bytes_view(*final(buf)) == bytes_view(*old(buf)).skip(n as int)
                },
                Err(e) => {
                    &&& r matches Err(x)
                    &&& x == e
                    &&& bytes_view(*final(buf)) == setup_rest_on_error(bytes_view(*old(buf)))
                },
            },
    {
        let ghost s = bytes_view(*buf);
        let message_type: u64 = Vi64::decode(buf)?.into_inner();
        let ghost n = vi64_decode(s)->Ok_0.1;
        if message_type != SETUP_TYPE {
            return Err(DecodeError::InvalidMessage(message_type));
        }
        let ghost r = bytes_view(*buf);
        decode_remaining(buf, 2)?;
        let len: u64 = take_be(buf, 2);
        proof {
            reveal_with_fuel(crate::wire::pow256, 3);
            crate::wire::lemma_be_value_bound(r.take(2));
            assert(r.skip(2) =~= s.skip((n + 2) as int));
        }
        let len: usize = len as usize;
        decode_remaining(buf, len)?;
        let mut body: Bytes = bytes_take(buf, len);
        proof {
            assert(bytes_view(body) =~= r.subrange(2, 2 + len as int));
            assert(bytes_view(*buf) =~= s.skip(n + 2 + len));
        }
        let options: SetupOptions = SetupOptions::decode_body(&mut body)?;
        Ok(Setup { options })
    }

    /// Reads a SETUP message where the session speaks this profile, and leaves
    /// the buffer alone where it speaks another.
    pub fn decode_for_profile(profile: WireProfile, buf: &mut Bytes) -> (r: Result<
        Self,
        DecodeError,
    >)
        ensures
            profile != WireProfile::Draft19 ==> {
                &&& r matches Err(x)
                &&& x == DecodeError::InvalidMessage(SETUP_TYPE)
                &&& *final(buf) == *old(buf)
            },
            profile == WireProfile::Draft19 ==> match setup_decode(bytes_view(*old(buf))) {
                Ok((options, n)) => {
                    &&& r matches Ok(x)
                    &&& x.options@ == options
                    &&& bytes_view(*final(buf)) == bytes_view(*old(buf)).skip(n as int)
                },
                Err(e) => {
                    &&& r matches Err(x)
                    &&& x == e
                    &&& bytes_view(*final(buf)) == setup_rest_on_error(bytes_view(*old(buf)))
                },
            },
    {
        if profile != WireProfile::Draft19 {
            return Err(DecodeError::InvalidMessage(SETUP_TYPE));
        }
        Setup::decode(buf)
    }

    /// Appends the message, where its options can be written.
    pub fn encode(&self, buf: &mut Vec<u8>) -> (r: Result<(), EncodeError>)
        ensures
            match setup_encode(self.options@) {
                Ok(bytes) => r == Ok::<(), EncodeError>(()) && final(buf)@ == old(buf)@ + bytes,
                Err(e) => r == Err::<(), EncodeError>(e) && final(buf)@ == old(buf)@,
            },
    {
        let mut body: Vec<u8> = Vec::new();
        self.options.encode_body(&mut body)?;
        proof {
            let b = options_encode(self.options@, 0, Set::empty())->Ok_0;
            assert(Seq::<u8>::empty() + b =~= b);
        }
        if body.len() > 0xffff {
            return Err(EncodeError::MsgBoundsExceeded);
        }
        Vi64::new(SETUP_TYPE).encode(buf);
        put_be(buf, body.len() as u64, 2);
        let ghost mid = buf@;
        buf.extend_from_slice(body.as_slice());
        proof {
            assert(buf@ =~= mid + body@);
            assert(buf@ =~= old(buf)@ + frame_bytes(SETUP_TYPE, body@));
        }
        Ok(())
    }
}

/// The setup options on the wire. Those that may stand but once are all the
/// registered ones but the authorization token.
pub proof fn law_setup_options_have_their_numbers(a: SetupOptionType, b: SetupOptionType, n: u64)
    ensures
        a.spec_code() == b.spec_code() ==> a == b,
        option_known(a.spec_code()) == (a != SetupOptionType::AuthorizationToken),
        option_known(n) ==> exists|k: SetupOptionType| #[trigger] k.spec_code() == n,
        SetupOptionType::Path.spec_code() == 1,
        SetupOptionType::AuthorizationToken.spec_code() == 3,
        SetupOptionType::MaxAuthTokenCacheSize.spec_code() == 4,
        SetupOptionType::Authority.spec_code() == 5,
        SetupOptionType::MaxFilterRanges.spec_code() == 6,
        SetupOptionType::MoqtImplementation.spec_code() == 7,
        SetupOptionType::MaxRequestUpdates.spec_code() == 8,
        SETUP_TYPE == 0x2f00,
{
    if option_known(n) {
        if n == 1 {
            assert(SetupOptionType::Path.spec_code() == n);
        } else if n == 4 {
            assert(SetupOptionType::MaxAuthTokenCacheSize.spec_code() == n);
        } else if n == 5 {
            assert(SetupOptionType::Authority.spec_code() == n);
        } else if n == 6 {
            assert(SetupOptionType::MaxFilterRanges.spec_code() == n);
        } else if n == 7 {
            assert(SetupOptionType::MoqtImplementation.spec_code() == n);
        } else {
            assert(SetupOptionType::MaxRequestUpdates.spec_code() == n);
        }
    }
}

/// What is read as options is in order: the types ascend from the one before
/// them, an even type holds a number and an odd one bytes of at most sixteen bits
/// of length, and a type that may stand but once stands but once.
pub proof fn law_read_options_are_in_order(s: Seq<u8>, previous: u64, known: Set<u64>)
    ensures
        options_decode(s, previous, known) matches Ok(options) ==> {
            &&& forall|i: int|
                0 <= i < options.len() ==> {
                    &&& (#[trigger] options[i]).option_type >= previous
                    &&& options[i].option_type % 2 == 0 <==> options[i].value is Integer
                    &&& options[i].value matches OptionValueView::Bytes(b) ==> b.len() <= 0xffff
                    &&& option_known(options[i].option_type) ==> !known.contains(
                        options[i].option_type,
                    )
                }
            &&& forall|i: int, j: int|
                0 <= i < j < options.len() ==> {
                    &&& (#[trigger] options[i]).option_type <= (#[trigger] options[j]).option_type
                    &&& option_known(options[i].option_type) ==> options[i].option_type
                        != options[j].option_type
                }
        },
    decreases s.len(),
{
    if let Ok(options) = options_decode(s, previous, known) {
        if s.len() > 0 {
            crate::vi64::law_vi64_encoding_is_minimal(s);
            let (delta, n) = vi64_decode(s)->Ok_0;
            let option_type = (previous + delta) as u64;
            let rest_bytes = s.skip(n as int);
            crate::vi64::law_vi64_encoding_is_minimal(rest_bytes);
            let (value, m) = option_value_decode(option_type, rest_bytes)->Ok_0;
            assert(0 < n + m <= s.len());
            let next = known_after(known, option_type);
            let tail = s.skip((n + m) as int);
            law_read_options_are_in_order(tail, option_type, next);
            let rest = options_decode(tail, option_type, next)->Ok_0;
            assert(options =~= seq![OptionView { option_type, value }] + rest);
            assert forall|i: int| 0 <= i < options.len() implies {
                &&& (#[trigger] options[i]).option_type >= previous
                &&& options[i].option_type % 2 == 0 <==> options[i].value is Integer
                &&& options[i].value matches OptionValueView::Bytes(b) ==> b.len() <= 0xffff
                &&& option_known(options[i].option_type) ==> !known.contains(
                    options[i].option_type,
                )
            } by {
                if i > 0 {
                    assert(options[i] == rest[i - 1]);
                }
            }
            assert forall|i: int, j: int| 0 <= i < j < options.len() implies {
                &&& (#[trigger] options[i]).option_type <= (#[trigger] options[j]).option_type
                &&& option_known(options[i].option_type) ==> options[i].option_type
                    != options[j].option_type
            } by {
                assert(options[j] == rest[j - 1]);
                if i > 0 {
                    assert(options[i] == rest[i - 1]);
                } else {
                    assert(rest[j - 1].option_type >= option_type);
                }
            }
        }
    }
}

/// Options can be written exactly where they are in order: the types ascend from
/// the one before them, an even type holds a number and an odd one bytes of at
/// most sixteen bits of length, and a type that may stand but once stands but
/// once.
pub proof fn law_options_are_written_where_in_order(
    options: Seq<OptionView>,
    previous: u64,
    known: Set<u64>,
)
    ensures
        (options_encode(options, previous, known) is Ok) == {
            &&& forall|i: int|
                0 <= i < options.len() ==> {
                    &&& (#[trigger] options[i]).option_type >= previous
                    &&& options[i].option_type % 2 == 0 <==> options[i].value is Integer
                    &&& options[i].value matches OptionValueView::Bytes(b) ==> b.len() <= 0xffff
                    &&& option_known(options[i].option_type) ==> !known.contains(
                        options[i].option_type,
                    )
                }
            &&& forall|i: int, j: int|
                0 <= i < j < options.len() ==> {
                    &&& (#[trigger] options[i]).option_type <= (#[trigger] options[j]).option_type
                    &&& option_known(options[i].option_type) ==> options[i].option_type
                        != options[j].option_type
                }
        },
    decreases options.len(),
{
    if options.len() > 0 {
        let option_type = options[0].option_type;
        let next = known_after(known, option_type);
        let rest = options.skip(1);
        law_options_are_written_where_in_order(rest, option_type, next);
        if options_encode(options, previous, known) is Ok {
            assert forall|i: int| 0 <= i < options.len() implies {
                &&& (#[trigger] options[i]).option_type >= previous
                &&& options[i].option_type % 2 == 0 <==> options[i].value is Integer
                &&& options[i].value matches OptionValueView::Bytes(b) ==> b.len() <= 0xffff
                &&& option_known(options[i].option_type) ==> !known.contains(
                    options[i].option_type,
                )
            } by {
                if i > 0 {
                    assert(options[i] == rest[i - 1]);
                }
            }
            assert forall|i: int, j: int| 0 <= i < j < options.len() implies {
                &&& (#[trigger] options[i]).option_type <= (#[trigger] options[j]).option_type
                &&& option_known(options[i].option_type) ==> options[i].option_type
                    != options[j].option_type
            } by {
                assert(options[j] == rest[j - 1]);
                if i > 0 {
                    assert(options[i] == rest[i - 1]);
                }
            }
        } else if {
            &&& forall|i: int|
                0 <= i < options.len() ==> {
                    &&& (#[trigger] options[i]).option_type >= previous
                    &&& options[i].option_type % 2 == 0 <==> options[i].value is Integer
                    &&& options[i].value matches OptionValueView::Bytes(b) ==> b.len() <= 0xffff
                    &&& option_known(options[i].option_type) ==> !known.contains(
                        options[i].option_type,
                    )
                }
            &&& forall|i: int, j: int|
                0 <= i < j < options.len() ==> {
                    &&& (#[trigger] options[i]).option_type <= (#[trigger] options[j]).option_type
                    &&& option_known(options[i].option_type) ==> options[i].option_type
                        != options[j].option_type
                }
        } {
            assert(options[0].option_type >= previous);
            assert forall|i: int| 0 <= i < rest.len() implies {
                &&& (#[trigger] rest[i]).option_type >= option_type
                &&& rest[i].option_type % 2 == 0 <==> rest[i].value is Integer
                &&& rest[i].value matches OptionValueView::Bytes(b) ==> b.len() <= 0xffff
                &&& option_known(rest[i].option_type) ==> !next.contains(rest[i].option_type)
            } by {
                assert(rest[i] == options[i + 1]);
                assert(options[0].option_type <= options[i + 1].option_type);
            }
            assert forall|i: int, j: int| 0 <= i < j < rest.len() implies {
                &&& (#[trigger] rest[i]).option_type <= (#[trigger] rest[j]).option_type
                &&& option_known(rest[i].option_type) ==> rest[i].option_type
                    != rest[j].option_type
            } by {
                assert(rest[i] == options[i + 1]);
                assert(rest[j] == options[j + 1]);
            }
        }
    }
}

/// Where each part of a frame stands: its type, the length of its payload in two
/// bytes, and the payload.
pub proof fn law_frame_layout(message_type: u64, payload: Seq<u8>)
    requires
        payload.len() <= 0xffff,
    ensures
        ({
            let s = frame_bytes(message_type, payload);
            let n = vi64_size(message_type) as int;
            &&& s.take(n) == vi64_bytes(message_type)
            &&& s[n] * 256 + s[n + 1] == payload.len()
            &&& s.skip(n + 2) == payload
        }),
{
    let s = frame_bytes(message_type, payload);
    let len = be_bytes(payload.len(), 2);
    let n = vi64_size(message_type) as int;
    crate::vi64::lemma_vi64_bytes_len(message_type);
    crate::wire::lemma_be_bytes_len(payload.len(), 2);
    reveal_with_fuel(crate::wire::pow256, 3);
    crate::wire::lemma_be_round_trip(payload.len(), 2);
    assert(s.take(n) =~= vi64_bytes(message_type));
    assert(s.skip(n + 2) =~= payload);
    assert(s[n] == len[0]);
    assert(s[n + 1] == len[1]);
    reveal_with_fuel(be_value, 3);
    assert(len.drop_last().drop_last() =~= Seq::<u8>::empty());
    assert(len.drop_last().last() == len[0]);
    assert(len.last() == len[1]);
}

/// A frame is read exactly where all of it is there; else as many bytes are asked
/// for as are known to be missing.
pub proof fn law_short_frame_asks_for_the_rest(s: Seq<u8>)
    ensures
        vi64_decode(s) matches Err(e) ==> frame_decode(s) == Err::<
            (u64, Seq<u8>, nat),
            DecodeError,
        >(e),
        vi64_decode(s) matches Ok((message_type, n)) ==> {
            let n = n as int;
            &&& s.len() < n + 2 ==> frame_decode(s) == Err::<(u64, Seq<u8>, nat), DecodeError>(
                DecodeError::More((n + 2 - s.len()) as usize),
            )
            &&& s.len() >= n + 2 ==> {
                let len = s[n] * 256 + s[n + 1];
                &&& s.len() < n + 2 + len ==> frame_decode(s) == Err::<
                    (u64, Seq<u8>, nat),
                    DecodeError,
                >(DecodeError::More((n + 2 + len - s.len()) as usize))
                &&& s.len() >= n + 2 + len ==> frame_decode(s) == Ok::<
                    (u64, Seq<u8>, nat),
                    DecodeError,
                >((message_type, s.subrange(n + 2, n + 2 + len), n as nat))
            }
        },
{
    crate::vi64::law_vi64_encoding_is_minimal(s);
    if let Ok((message_type, size)) = vi64_decode(s) {
        let n = size as int;
        let r = s.skip(n);
        if r.len() >= 2 {
            let two = r.take(2);
            reveal_with_fuel(be_value, 3);
            assert(two.drop_last().drop_last() =~= Seq::<u8>::empty());
            assert(two.drop_last().last() == s[n]);
            assert(two.last() == s[n + 1]);
            let len = s[n] * 256 + s[n + 1];
            if s.len() >= n + 2 + len {
                assert(r.subrange(2, 2 + len) =~= s.subrange(n + 2, n + 2 + len));
            }
        }
    }
}

/// A message of another type is no SETUP, and only its type is taken.
pub proof fn law_other_messages_are_no_setup(message_type: u64, rest: Seq<u8>)
    requires
        message_type != 0x2f00,
    ensures
        setup_decode(vi64_bytes(message_type) + rest) == Err::<
            (Seq<OptionView>, nat),
            DecodeError,
        >(DecodeError::InvalidMessage(message_type)),
        setup_rest_on_error(vi64_bytes(message_type) + rest) == rest,
{
    crate::vi64::law_vi64_round_trip(message_type, rest);
    crate::vi64::lemma_vi64_bytes_len(message_type);
    assert((vi64_bytes(message_type) + rest).skip(vi64_size(message_type) as int) =~= rest);
}

} // verus!
