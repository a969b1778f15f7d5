//! The variable-length integer of MQTT's fixed header: base-128 digits, least
//! significant first, the high bit of each byte set while more digits follow.
use vstd::prelude::*;

use crate::error::ProxyError;

verus! {

/// Largest value the field can carry in its four bytes: 2^28 - 1.
pub const MAX_REMAINING_LENGTH: usize = 268435455;

/// Most bytes a length field may occupy.
pub const MAX_LENGTH_BYTES: usize = 4;

/// 128 to the power `n`.
pub open spec fn pow128(n: nat) -> nat
    decreases n,
{
    if n == 0 {
        1
    } else {
        128 * pow128((n - 1) as nat)
    }
}

/// The value of the low seven bits of each byte, read as base-128 digits,
/// least significant first.
pub open spec fn digits_value(s: Seq<u8>) -> nat
    decreases s.len(),
{
    if s.len() == 0 {
        0
    } else {
        (s[0] % 128) as nat + 128 * digits_value(s.drop_first())
    }
}

/// The bytes that encode `v`.
pub open spec fn encode_spec(v: nat) -> Seq<u8>
    decreases v,
{
    if v < 128 {
        seq![v as u8]
    } else {
        seq![(v % 128 + 128) as u8] + encode_spec(v / 128)
    }
}

/// Decoding from byte `i` on, the bytes before `i` all carrying the
/// continuation bit.
pub open spec fn decode_from(s: Seq<u8>, i: nat) -> Result<(usize, usize), ProxyError>
    decreases 4 - i,
{
    if i >= 4 {
        Err(ProxyError::MalformedLength)
    } else if i >= s.len() {
        Err(ProxyError::ConnectionClosed)
    } else if s[i as int] < 128 {
        Ok((digits_value(s.take((i + 1) as int)) as usize, (i + 1) as usize))
    } else {
        decode_from(s, i + 1)
    }
}

/// What a length field at the start of `s` decodes to: the value and the
/// number of bytes it took; `MalformedLength` when four bytes all carry the
/// continuation bit; `ConnectionClosed` when `s` ends inside the field.
pub open spec fn decode_spec(s: Seq<u8>) -> Result<(usize, usize), ProxyError> {
    decode_from(s, 0)
}

/// One more byte adds its digit at the next power of 128.
pub proof fn lemma_digits_push(s: Seq<u8>, b: u8)
    ensures
        digits_value(s.push(b)) == digits_value(s) + (b % 128) as nat * pow128(s.len()),
    decreases s.len(),
{
    if s.len() == 0 {
        assert(s.push(b).drop_first() =~= Seq::<u8>::empty());
        assert(digits_value(Seq::<u8>::empty()) == 0);
        assert(pow128(0) == 1);
    } else {
        assert(s.push(b).drop_first() =~= s.drop_first().push(b));
        assert(s.push(b)[0] == s[0]);
        assert(pow128(s.len()) == 128 * pow128((s.len() - 1) as nat));
        lemma_digits_push(s.drop_first(), b);
        let t = s.drop_first();
        assert(128 * (digits_value(t) + (b % 128) as nat * pow128(t.len())) == 128 * digits_value(t)
            + (b % 128) as nat * (128 * pow128(t.len()))) by (nonlinear_arith);
    }
}

/// `n` digits hold less than 128 to the power `n`.
pub proof fn lemma_digits_bound(s: Seq<u8>)
    ensures
        digits_value(s) < pow128(s.len()),
    decreases s.len(),
{
    if s.len() > 0 {
        lemma_digits_bound(s.drop_first());
        let t = s.drop_first();
        assert((s[0] % 128) as nat + 128 * digits_value(t) < 128 * pow128(t.len())) by (nonlinear_arith)
            requires
                digits_value(t) < pow128(t.len()),
                (s[0] % 128) < 128,
        ;
    }
}

/// Decoding skips over bytes that carry the continuation bit.
proof fn lemma_decode_skip(s: Seq<u8>, k: nat)
    requires
        k <= 4,
        k <= s.len(),
        forall|j: int| 0 <= j < k ==> s[j] >= 128,
    ensures
        decode_spec(s) == decode_from(s, k),
    decreases k,
{
    if k > 0 {
        lemma_decode_skip(s, (k - 1) as nat);
    }
}

/// Facts about the bytes of `encode_spec(v)`: the last one alone lacks the
/// continuation bit, their digits give back `v`, and their number grows by
/// one at each power of 128.
pub proof fn lemma_encode_shape(v: nat)
    ensures
        encode_spec(v).len() >= 1,
        digits_value(encode_spec(v)) == v,
        encode_spec(v)[encode_spec(v).len() - 1] < 128,
        forall|j: int| 0 <= j < encode_spec(v).len() - 1 ==> encode_spec(v)[j] >= 128,
        v < 128 ==> encode_spec(v).len() == 1,
        128 <= v < 16384 ==> encode_spec(v).len() == 2,
        16384 <= v < 2097152 ==> encode_spec(v).len() == 3,
        2097152 <= v < 268435456 ==> encode_spec(v).len() == 4,
    decreases v,
{
    let e = encode_spec(v);
    if v < 128 {
        assert(e.drop_first() =~= Seq::<u8>::empty());
        assert(digits_value(Seq::<u8>::empty()) == 0);
    } else {
        let r = encode_spec(v / 128);
        lemma_encode_shape(v / 128);
        assert(e.drop_first() =~= r);
        assert(e[0] == (v % 128 + 128) as u8);
        assert(forall|j: int| 1 <= j < e.len() ==> e[j] == r[j - 1]);
    }
}

/// Encoding a length and decoding it gives back the length, having read
/// every byte of the encoding.
pub proof fn lemma_length_round_trip(v: nat)
    requires
        v <= MAX_REMAINING_LENGTH,
    ensures
        decode_spec(encode_spec(v)) == Ok::<(usize, usize), ProxyError>(
            (v as usize, encode_spec(v).len() as usize),
        ),
{
    let e = encode_spec(v);
    lemma_encode_shape(v);
    let k = (e.len() - 1) as nat;
    lemma_decode_skip(e, k);
    assert(e.take((k + 1) as int) =~= e);
}

/// The boundaries of the field's size: one byte up to 127, two from 128 to
/// 16383, three from 16384, four from 2097152 up to the largest value.
pub proof fn lemma_encoded_size(v: nat)
    requires
        v <= MAX_REMAINING_LENGTH,
    ensures
        encode_spec(v).len() == if v < 128 {
            1nat
        } else if v < 16384 {
            2nat
        } else if v < 2097152 {
            3nat
        } else {
            4nat
        },
{
    lemma_encode_shape(v);
}

/// A length field whose first four bytes all carry the continuation bit is
/// refused, whatever follows.
pub proof fn lemma_fifth_byte_refused(s: Seq<u8>)
    requires
        s.len() >= 4,
        forall|j: int| 0 <= j < 4 ==> s[j] >= 128,
    ensures
        decode_spec(s) == Err::<(usize, usize), ProxyError>(ProxyError::MalformedLength),
{
    lemma_decode_skip(s, 4);
}

/// The encoding of `length`.
pub fn encode_remaining_length(length: usize) -> (r: Vec<u8>)
    requires
        length <= MAX_REMAINING_LENGTH,
    ensures
        r@ == encode_spec(length as nat),
        1 <= r@.len() <= MAX_LENGTH_BYTES,
{
    proof {
        lemma_encode_shape(length as nat);
    }
    let mut out: Vec<u8> = Vec::new();
    let mut rest: usize = length;
    loop
        invariant_except_break
            out@ + encode_spec(rest as nat) == encode_spec(length as nat),
        invariant
            rest <= length,
        ensures
            out@ == encode_spec(length as nat),
        decreases rest,
    {
        let digit: u8 = (rest % 128) as u8;
        let ghost before = rest as nat;
        rest = rest / 128;
        if rest > 0 {
            out.push(digit + 128);
            assert(encode_spec(before) == seq![(before % 128 + 128) as u8] + encode_spec(
                rest as nat,
            ));
            assert(out@ + encode_spec(rest as nat) =~= encode_spec(length as nat));
        } else {
            out.push(digit);
            assert(encode_spec(before) == seq![before as u8]);
            assert(out@ =~= encode_spec(length as nat));
            break ;
        }
    }
    out
}

/// What one more byte of a length field leads to.
#[derive(Clone, Copy, Debug, PartialEq, Eq, Structural)]
pub enum LengthStep {
    /// The field goes on: read another byte.
    NeedMore,
    /// The field ended with this byte and holds this value.
    Done(usize),
    /// A fourth byte carried the continuation bit.
    Malformed,
}

/// The step that a decoder reports once it has seen exactly the bytes `s`.
pub open spec fn step_of(s: Seq<u8>) -> LengthStep {
    match decode_spec(s) {
        Ok((v, _)) => LengthStep::Done(v),
        Err(ProxyError::MalformedLength) => LengthStep::Malformed,
        Err(_) => LengthStep::NeedMore,
    }
}

/// Decodes a length field one byte at a time, as the bytes come off a
/// socket.
pub struct LengthDecoder {
    value: usize,
    multiplier: usize,
    seen: Ghost<Seq<u8>>,
}

impl View for LengthDecoder {
    type V = Seq<u8>;

    /// The bytes fed in so far.
    closed spec fn view(&self) -> Seq<u8> {
        self.seen@
    }
}

impl LengthDecoder {
    /// The decoder is inside a field: fewer than four bytes seen, each with
    /// the continuation bit.
    pub closed spec fn wf(&self) -> bool {
        &&& self.seen@.len() < MAX_LENGTH_BYTES
        &&& forall|j: int| 0 <= j < self.seen@.len() ==> self.seen@[j] >= 128
        &&& self.value == digits_value(self.seen@)
        &&& self.multiplier == pow128(self.seen@.len())
    }

    pub fn new() -> (d: Self)
        ensures
            d.wf(),
            d@ == Seq::<u8>::empty(),
    {
        proof {
            assert(digits_value(Seq::<u8>::empty()) == 0);
            assert(pow128(0) == 1);
        }
        LengthDecoder { value: 0, multiplier: 1, seen: Ghost(Seq::empty()) }
    }

    /// Takes the next byte of the field.
    pub fn push(&mut self, byte: u8) -> (r: LengthStep)
        requires
            old(self).wf(),
        ensures
            final(self)@ == old(self)@.push(byte),
            r == step_of(final(self)@),
            r == LengthStep::NeedMore <==> final(self).wf(),
            r matches LengthStep::Done(v) ==> v <= MAX_REMAINING_LENGTH,
    {
        let ghost s = self.seen@.push(byte);
        proof {
            lemma_digits_push(self.seen@, byte);
            lemma_digits_bound(self.seen@);
            assert(pow128(0) == 1);
            assert(pow128(1) == 128);
            assert(pow128(2) == 16384);
            assert(pow128(3) == 2097152);
            assert(self.multiplier <= 2097152);
            assert((byte % 128) as nat * self.multiplier <= 127 * 2097152) by (nonlinear_arith)
                requires
                    byte % 128 <= 127,
                    self.multiplier <= 2097152,
            ;
            lemma_decode_skip(s, self.seen@.len());
            assert(s.take(s.len() as int) =~= s);
            assert(self.value + (byte % 128) as nat * self.multiplier <= MAX_REMAINING_LENGTH)
                by (nonlinear_arith)
                requires
                    self.value < self.multiplier,
                    self.multiplier <= 2097152,
                    byte % 128 <= 127,
            ;
        }
        self.value = self.value + ((byte % 128) as usize) * self.multiplier;
        self.seen = Ghost(s);
        if byte < 128 {
            return LengthStep::Done(self.value);
        }
        proof {
            let k = old(self).seen@.len();
            assert(k == 0 || k == 1 || k == 2 || k == 3);
            assert(self.multiplier == 2097152 <==> k == 3);
            if k == 3 {
                assert(decode_from(s, k + 1) == Err::<(usize, usize), ProxyError>(
                    ProxyError::MalformedLength,
                ));
            } else {
                assert(decode_from(s, k + 1) == Err::<(usize, usize), ProxyError>(
                    ProxyError::ConnectionClosed,
                ));
            }
        }
        if self.multiplier == 2097152 {
            return LengthStep::Malformed;
        }
        self.multiplier = self.multiplier * 128;
        LengthStep::NeedMore
    }
}

/// Decodes the length field at the start of `bytes`: its value and the
/// number of bytes it took.
pub fn decode_remaining_length(bytes: &[u8]) -> (r: Result<(usize, usize), ProxyError>)
    ensures
        r == decode_spec(bytes@),
{
    let mut decoder = LengthDecoder::new();
    let mut i: usize = 0;
    loop
        invariant
            decoder.wf(),
            decoder@ == bytes@.take(i as int),
            i < MAX_LENGTH_BYTES,
            i <= bytes@.len(),
            forall|j: int| 0 <= j < i ==> bytes@[j] >= 128,
        decreases MAX_LENGTH_BYTES - i,
    {
        proof {
            lemma_decode_skip(bytes@, i as nat);
        }
        if i >= bytes.len() {
            return Err(ProxyError::ConnectionClosed);
        }
        let step = decoder.push(bytes[i]);
        proof {
            assert(decoder@ =~= bytes@.take(i + 1));
            lemma_decode_skip(decoder@, i as nat);
            assert(decoder@.take(i + 1) =~= bytes@.take(i + 1));
            assert(decoder@[i as int] == bytes@[i as int]);
            if bytes@[i as int] >= 128 && i + 1 < MAX_LENGTH_BYTES {
                assert(decode_from(decoder@, (i + 1) as nat) == Err::<(usize, usize), ProxyError>(
                    ProxyError::ConnectionClosed,
                ));
            }
            if bytes@[i as int] >= 128 && i + 1 >= MAX_LENGTH_BYTES {
                assert(decode_from(bytes@, (i + 1) as nat) == Err::<(usize, usize), ProxyError>(
                    ProxyError::MalformedLength,
                ));
            }
        }
        match step {
            LengthStep::Done(v) => {
                return Ok((v, i + 1));
            },
            LengthStep::Malformed => {
                return Err(ProxyError::MalformedLength);
            },
            LengthStep::NeedMore => {},
        }
        i = i + 1;
    }
}

} // verus!
