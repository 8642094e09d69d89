//! Percent escaping of data payloads.
//!
//! Data lines of the wire protocol may not carry raw `%`, carriage-return or
//! line-feed bytes: each such byte travels as `%XX`, where `XX` is the byte's
//! value in hexadecimal. Decoding maps every `%XX` group back to its byte and
//! rejects a `%` that is not followed by two hexadecimal digits.

use vstd::prelude::*;

verus! {

/// The escape byte `%`.
pub const PERCENT: u8 = 37;

/// Carriage return.
pub const CR: u8 = 13;

/// Line feed, the line terminator of the wire protocol.
pub const LF: u8 = 10;

/// The value of one hexadecimal digit byte, accepting both letter cases.
pub open spec fn hex_digit_value(b: u8) -> Option<u8> {
    if 48 <= b && b <= 57 {
        Some((b - 48) as u8)
    } else if 65 <= b && b <= 70 {
        Some((b - 55) as u8)
    } else if 97 <= b && b <= 102 {
        Some((b - 87) as u8)
    } else {
        None
    }
}

/// The upper-case hexadecimal digit byte for a value below sixteen.
pub open spec fn hex_digit_of(n: u8) -> u8
    recommends
        n < 16,
{
    if n < 10 {
        (48 + n) as u8
    } else {
        (55 + n) as u8
    }
}

/// Whether a payload byte must travel escaped.
pub open spec fn needs_escape(b: u8) -> bool {
    b == PERCENT || b == CR || b == LF
}

/// The encoding of one payload byte: itself, or a three-byte `%XX` group.
pub open spec fn encode_byte(b: u8) -> Seq<u8> {
    if needs_escape(b) {
        seq![PERCENT, hex_digit_of(b / 16), hex_digit_of(b % 16)]
    } else {
        seq![b]
    }
}

/// The percent encoding of a payload.
pub open spec fn encode_spec(data: Seq<u8>) -> Seq<u8>
    decreases data.len(),
{
    if data.len() == 0 {
        Seq::empty()
    } else {
        encode_byte(data[0]) + encode_spec(data.drop_first())
    }
}

/// The percent decoding of a line body; `None` on a malformed escape.
pub open spec fn decode_spec(text: Seq<u8>) -> Option<Seq<u8>>
    decreases text.len(),
{
    if text.len() == 0 {
        Some(Seq::empty())
    } else if text[0] == PERCENT {
        if text.len() >= 3 {
            match (hex_digit_value(text[1]), hex_digit_value(text[2])) {
                (Some(hi), Some(lo)) => match decode_spec(text.skip(3)) {
                    Some(rest) => Some(seq![(hi * 16 + lo) as u8] + rest),
                    None => None,
                },
                _ => None,
            }
        } else {
            None
        }
    } else {
        match decode_spec(text.drop_first()) {
            Some(rest) => Some(seq![text[0]] + rest),
            None => None,
        }
    }
}

/// Appending one byte to the payload appends its encoding to the output.
pub proof fn lemma_encode_push(data: Seq<u8>, b: u8)
    ensures
        encode_spec(data.push(b)) == encode_spec(data) + encode_byte(b),
    decreases data.len(),
{
    if data.len() == 0 {
        assert(data.push(b).drop_first() =~= Seq::<u8>::empty());
        assert(data.push(b)[0] == b);
        assert(encode_spec(Seq::<u8>::empty()) =~= Seq::<u8>::empty());
        assert(encode_spec(data.push(b)) =~= encode_byte(b));
        assert(encode_spec(data) + encode_byte(b) =~= encode_byte(b));
    } else {
        lemma_encode_push(data.drop_first(), b);
        assert(data.push(b).drop_first() =~= data.drop_first().push(b));
        assert(encode_spec(data.push(b)) =~= encode_byte(data[0]) + encode_spec(
            data.drop_first().push(b),
        ));
        assert(encode_byte(data[0]) + (encode_spec(data.drop_first()) + encode_byte(b)) =~= (
        encode_byte(data[0]) + encode_spec(data.drop_first())) + encode_byte(b));
    }
}

/// The hexadecimal digit of a value decodes back to that value.
pub proof fn lemma_hex_digit_inverse(n: u8)
    requires
        n < 16,
    ensures
        hex_digit_value(hex_digit_of(n)) == Some(n),
{
}

/// Percent-encoding round trip: decoding an encoded payload always succeeds
/// and gives the payload back, whatever bytes it held.
pub proof fn lemma_percent_round_trip(data: Seq<u8>)
    ensures
        decode_spec(encode_spec(data)) == Some(data),
    decreases data.len(),
{
    if data.len() == 0 {
        assert(encode_spec(data) =~= Seq::<u8>::empty());
        assert(Seq::<u8>::empty() =~= data);
    } else {
        lemma_percent_round_trip(data.drop_first());
        let b = data[0];
        let tail = encode_spec(data.drop_first());
        if needs_escape(b) {
            lemma_hex_digit_inverse(b / 16);
            lemma_hex_digit_inverse(b % 16);
            let enc = seq![PERCENT, hex_digit_of(b / 16), hex_digit_of(b % 16)] + tail;
            assert(encode_spec(data) == enc);
            assert(enc[0] == PERCENT && enc.len() >= 3);
            assert(enc[1] == hex_digit_of(b / 16));
            assert(enc[2] == hex_digit_of(b % 16));
            assert(enc.skip(3) =~= tail);
            vstd::arithmetic::div_mod::lemma_fundamental_div_mod(b as int, 16);
            assert(((b / 16) * 16 + b % 16) as u8 == b);
            assert(decode_spec(enc) == Some(seq![b] + data.drop_first()));
            assert(seq![b] + data.drop_first() =~= data);
        } else {
            let enc = seq![b] + tail;
            assert(encode_spec(data) == enc);
            assert(enc[0] == b && b != PERCENT);
            assert(enc.drop_first() =~= tail);
            assert(decode_spec(enc) == Some(seq![b] + data.drop_first()));
            assert(seq![b] + data.drop_first() =~= data);
        }
    }
}

/// The encoder leaves no raw carriage-return or line-feed byte in its output,
/// and every `%` it emits begins a complete two-digit escape.
pub proof fn lemma_encode_escapes(data: Seq<u8>)
    ensures
        forall|i: int|
            0 <= i < encode_spec(data).len() ==> encode_spec(data)[i] != CR && encode_spec(
                data,
            )[i] != LF,
        forall|i: int|
            0 <= i < encode_spec(data).len() && #[trigger] encode_spec(data)[i] == PERCENT ==> i + 2
                < encode_spec(data).len() && hex_digit_value(encode_spec(data)[i + 1]) is Some
                && hex_digit_value(encode_spec(data)[i + 2]) is Some,
    decreases data.len(),
{
    if data.len() == 0 {
    } else {
        lemma_encode_escapes(data.drop_first());
        let b = data[0];
        let head = encode_byte(b);
        let tail = encode_spec(data.drop_first());
        let enc = encode_spec(data);
        assert(enc == head + tail);
        if needs_escape(b) {
            lemma_hex_digit_inverse(b / 16);
            lemma_hex_digit_inverse(b % 16);
        }
        assert forall|i: int| 0 <= i < enc.len() implies enc[i] != CR && enc[i] != LF by {
            if i >= head.len() {
                assert(enc[i] == tail[i - head.len()]);
            }
        }
        assert forall|i: int|
            0 <= i < enc.len() && #[trigger] enc[i] == PERCENT implies i + 2 < enc.len()
                && hex_digit_value(
            enc[i + 1],
        ) is Some && hex_digit_value(enc[i + 2]) is Some by {
            if i < head.len() {
                assert(needs_escape(b));
                assert(i == 0);
                assert(enc[1] == head[1] && enc[2] == head[2]);
            } else {
                let j = i - head.len();
                assert(tail[j] == PERCENT);
                assert(enc[i + 1] == tail[j + 1]);
                assert(enc[i + 2] == tail[j + 2]);
            }
        }
    }
}

fn hex_digit(n: u8) -> (r: u8)
    requires
        n < 16,
    ensures
        r == hex_digit_of(n),
{
    if n < 10 {
        48 + n
    } else {
        55 + n
    }
}

fn hex_value(b: u8) -> (r: Option<u8>)
    ensures
        r == hex_digit_value(b),
{
    if 48 <= b && b <= 57 {
        Some(b - 48)
    } else if 65 <= b && b <= 70 {
        Some(b - 55)
    } else if 97 <= b && b <= 102 {
        Some(b - 87)
    } else {
        None
    }
}

/// Escapes every `%`, carriage-return and line-feed byte of a payload.
pub fn percent_encode(data: &Vec<u8>) -> (out: Vec<u8>)
    ensures
        out@ == encode_spec(data@),
{
    let mut out: Vec<u8> = Vec::new();
    let mut i: usize = 0;
    proof {
        assert(data@.take(0) =~= Seq::<u8>::empty());
    }
    while i < data.len()
        invariant
            i <= data.len(),
            out@ == encode_spec(data@.take(i as int)),
        decreases data.len() - i,
    {
        let b = data[i];
        if b == PERCENT || b == CR || b == LF {
            out.push(PERCENT);
            out.push(hex_digit(b / 16));
            out.push(hex_digit(b % 16));
        } else {
            out.push(b);
        }
        proof {
            lemma_encode_push(data@.take(i as int), data@[i as int]);
            assert(data@.take(i + 1) =~= data@.take(i as int).push(data@[i as int]));
        }
        i = i + 1;
    }
    proof {
        assert(data@.take(data@.len() as int) =~= data@);
    }
    out
}

/// Decodes every `%XX` group of a line body; `None` on a malformed escape.
pub fn percent_decode(text: &Vec<u8>) -> (out: Option<Vec<u8>>)
    ensures
        match out {
            Some(v) => decode_spec(text@) == Some(v@),
            None => decode_spec(text@) is None,
        },
{
    let mut out: Vec<u8> = Vec::new();
    let mut i: usize = 0;
    proof {
        assert(text@.skip(0) =~= text@);
        if let Some(rest) = decode_spec(text@) {
            assert(out@ + rest =~= rest);
        }
    }
    while i < text.len()
        invariant
            i <= text.len(),
            match decode_spec(text@.skip(i as int)) {
                Some(rest) => decode_spec(text@) == Some(out@ + rest),
                None => decode_spec(text@) is None,
            },
        decreases text.len() - i,
    {
        let ghost suffix = text@.skip(i as int);
        proof {
            assert(suffix[0] == text@[i as int]);
        }
        let b = text[i];
        if b == PERCENT {
            if text.len() - i < 3 {
                proof {
                    assert(suffix.len() < 3);
                }
                return None;
            }
            let hi = hex_value(text[i + 1]);
            let lo = hex_value(text[i + 2]);
            proof {
                assert(suffix[1] == text@[i + 1]);
                assert(suffix[2] == text@[i + 2]);
            }
            match (hi, lo) {
                (Some(h), Some(l)) => {
                    out.push(h * 16 + l);
                    proof {
                        assert(suffix.skip(3) =~= text@.skip(i + 3));
                        if let Some(rest) = decode_spec(text@.skip(i + 3)) {
                            assert((out@.drop_last() + (seq![(h * 16 + l) as u8] + rest)) =~= (out@
                                + rest));
                        }
                    }
                    i = i + 3;
                },
                _ => {
                    return None;
                },
            }
        } else {
            out.push(b);
            proof {
                assert(suffix.drop_first() =~= text@.skip(i + 1));
                if let Some(rest) = decode_spec(text@.skip(i + 1)) {
                    assert((out@.drop_last() + (seq![b] + rest)) =~= (out@ + rest));
                }
            }
            i = i + 1;
        }
    }
    proof {
        assert(text@.skip(text@.len() as int) =~= Seq::<u8>::empty());
        assert(out@ + Seq::<u8>::empty() =~= out@);
    }
    Some(out)
}

} // verus!
