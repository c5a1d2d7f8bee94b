//! The standard base64 alphabet with padding, as a pair of inverse maps
//! between byte strings and their encoded text.
//!
//! `encoded` says what the text of a byte string is. `decoded` is its inverse:
//! a text decodes to a byte string exactly when it is the text of that byte
//! string, so every text that no byte string encodes to is rejected
//! (a wrong length, a symbol outside the alphabet, padding in the wrong place,
//! stray bits in the last symbol).

use vstd::prelude::*;

verus! {

/// The padding symbol, `=`.
pub const PAD: u8 = 61;

/// The symbol that stands for the six-bit value `v`:
/// `A`..`Z`, `a`..`z`, `0`..`9`, `+`, `/`.
pub open spec fn symbol(v: u8) -> u8 {
    if v < 26 {
        (v + 65) as u8
    } else if v < 52 {
        (v + 71) as u8
    } else if v < 62 {
        (v - 4) as u8
    } else if v == 62 {
        43
    } else {
        47
    }
}

/// The six-bit value that the symbol `c` stands for, if `c` is in the alphabet.
pub open spec fn value_of(c: u8) -> Option<u8> {
    if 65 <= c <= 90 {
        Some((c - 65) as u8)
    } else if 97 <= c <= 122 {
        Some((c - 71) as u8)
    } else if 48 <= c <= 57 {
        Some((c + 4) as u8)
    } else if c == 43 {
        Some(62u8)
    } else if c == 47 {
        Some(63u8)
    } else {
        None
    }
}

/// The four symbols of three bytes.
pub open spec fn group_of(b0: u8, b1: u8, b2: u8) -> Seq<u8> {
    seq![
        symbol(b0 >> 2),
        symbol(((b0 & 3) << 4) | (b1 >> 4)),
        symbol(((b1 & 15) << 2) | (b2 >> 6)),
        symbol(b2 & 63),
    ]
}

/// The text of a byte string: four symbols for every three bytes, the last
/// group padded with `=` where one or two bytes are left.
pub open spec fn encoded(bytes: Seq<u8>) -> Seq<u8>
    decreases bytes.len(),
{
    if bytes.len() == 0 {
        Seq::empty()
    } else if bytes.len() == 1 {
        seq![symbol(bytes[0] >> 2), symbol((bytes[0] & 3) << 4), PAD, PAD]
    } else if bytes.len() == 2 {
        seq![
            symbol(bytes[0] >> 2),
            symbol(((bytes[0] & 3) << 4) | (bytes[1] >> 4)),
            symbol((bytes[1] & 15) << 2),
            PAD,
        ]
    } else {
        group_of(bytes[0], bytes[1], bytes[2]) + encoded(bytes.skip(3))
    }
}

/// The three bytes of four symbols, none of them padding.
pub open spec fn full_group(c0: u8, c1: u8, c2: u8, c3: u8) -> Option<Seq<u8>> {
    match (value_of(c0), value_of(c1), value_of(c2), value_of(c3)) {
        (Some(v0), Some(v1), Some(v2), Some(v3)) => Some(
            seq![(v0 << 2) | (v1 >> 4), ((v1 & 15) << 4) | (v2 >> 2), ((v2 & 3) << 6) | v3],
        ),
        _ => None,
    }
}

/// The bytes of the last four symbols of a text, which may end in one or two
/// padding symbols. The bits of the last symbol that belong to no byte must
/// be zero.
pub open spec fn last_group(c0: u8, c1: u8, c2: u8, c3: u8) -> Option<Seq<u8>> {
    if c3 != PAD {
        full_group(c0, c1, c2, c3)
    } else if c2 != PAD {
        match (value_of(c0), value_of(c1), value_of(c2)) {
            (Some(v0), Some(v1), Some(v2)) => if v2 & 3 == 0 {
                Some(seq![(v0 << 2) | (v1 >> 4), ((v1 & 15) << 4) | (v2 >> 2)])
            } else {
                None
            },
            _ => None,
        }
    } else {
        match (value_of(c0), value_of(c1)) {
            (Some(v0), Some(v1)) => if v1 & 15 == 0 {
                Some(seq![(v0 << 2) | (v1 >> 4)])
            } else {
                None
            },
            _ => None,
        }
    }
}

/// `rest` with `front` before it, where there is a `rest`.
pub open spec fn prepend(front: Seq<u8>, rest: Option<Seq<u8>>) -> Option<Seq<u8>> {
    match rest {
        Some(r) => Some(front + r),
        None => None,
    }
}

/// The byte string that a text stands for, or `None` where it stands for none.
pub open spec fn decoded(text: Seq<u8>) -> Option<Seq<u8>>
    decreases text.len(),
{
    if text.len() == 0 {
        Some(Seq::empty())
    } else if text.len() < 4 {
        None
    } else if text.len() == 4 {
        last_group(text[0], text[1], text[2], text[3])
    } else {
        match full_group(text[0], text[1], text[2], text[3]) {
            Some(front) => prepend(front, decoded(text.skip(4))),
            None => None,
        }
    }
}

proof fn lemma_symbol_value(v: u8)
    requires
        v < 64,
    ensures
        value_of(symbol(v)) == Some(v),
        symbol(v) != PAD,
{
}

proof fn lemma_value_symbol(c: u8)
    requires
        value_of(c) is Some,
    ensures
        value_of(c)->0 < 64,
        symbol(value_of(c)->0) == c,
        c != PAD,
{
}

proof fn lemma_split_in_range(b0: u8, b1: u8, b2: u8)
    ensures
        b0 >> 2 < 64,
        ((b0 & 3) << 4) | (b1 >> 4) < 64,
        ((b1 & 15) << 2) | (b2 >> 6) < 64,
        b2 & 63 < 64,
        (b0 & 3) << 4 < 64,
        (b1 & 15) << 2 < 64,
{
    assert(b0 >> 2 < 64) by (bit_vector);
    assert(((b0 & 3) << 4) | (b1 >> 4) < 64) by (bit_vector);
    assert(((b1 & 15) << 2) | (b2 >> 6) < 64) by (bit_vector);
    assert(b2 & 63 < 64) by (bit_vector);
    assert((b0 & 3) << 4 < 64) by (bit_vector);
    assert((b1 & 15) << 2 < 64) by (bit_vector);
}

proof fn lemma_join_split(b0: u8, b1: u8, b2: u8)
    ensures
        ((b0 >> 2) << 2) | ((((b0 & 3) << 4) | (b1 >> 4)) >> 4) == b0,
        (((((b0 & 3) << 4) | (b1 >> 4)) & 15) << 4) | ((((b1 & 15) << 2) | (b2 >> 6)) >> 2) == b1,
        (((((b1 & 15) << 2) | (b2 >> 6)) & 3) << 6) | (b2 & 63) == b2,
        ((b0 >> 2) << 2) | (((b0 & 3) << 4) >> 4) == b0,
        ((b0 & 3) << 4) & 15 == 0,
        (((((b0 & 3) << 4) | (b1 >> 4)) & 15) << 4) | (((b1 & 15) << 2) >> 2) == b1,
        ((b1 & 15) << 2) & 3 == 0,
{
    assert(((b0 >> 2) << 2) | ((((b0 & 3) << 4) | (b1 >> 4)) >> 4) == b0) by (bit_vector);
    assert((((((b0 & 3) << 4) | (b1 >> 4)) & 15) << 4) | ((((b1 & 15) << 2) | (b2 >> 6)) >> 2)
        == b1) by (bit_vector);
    assert((((((b1 & 15) << 2) | (b2 >> 6)) & 3) << 6) | (b2 & 63) == b2) by (bit_vector);
    assert(((b0 >> 2) << 2) | (((b0 & 3) << 4) >> 4) == b0) by (bit_vector);
    assert(((b0 & 3) << 4) & 15 == 0) by (bit_vector);
    assert((((((b0 & 3) << 4) | (b1 >> 4)) & 15) << 4) | (((b1 & 15) << 2) >> 2) == b1)
        by (bit_vector);
    assert(((b1 & 15) << 2) & 3 == 0) by (bit_vector);
}

proof fn lemma_split_join(v0: u8, v1: u8, v2: u8, v3: u8)
    requires
        v0 < 64,
        v1 < 64,
        v2 < 64,
        v3 < 64,
    ensures
        ((v0 << 2) | (v1 >> 4)) >> 2 == v0,
        ((((v0 << 2) | (v1 >> 4)) & 3) << 4) | ((((v1 & 15) << 4) | (v2 >> 2)) >> 4) == v1,
        (((((v1 & 15) << 4) | (v2 >> 2)) & 15) << 2) | ((((v2 & 3) << 6) | v3) >> 6) == v2,
        (((v2 & 3) << 6) | v3) & 63 == v3,
        v2 & 3 == 0 ==> ((((v1 & 15) << 4) | (v2 >> 2)) & 15) << 2 == v2,
        v1 & 15 == 0 ==> (((v0 << 2) | (v1 >> 4)) & 3) << 4 == v1,
{
    assert(v0 < 64 && v1 < 64 ==> ((v0 << 2) | (v1 >> 4)) >> 2 == v0) by (bit_vector);
    assert(v0 < 64 && v1 < 64 && v2 < 64 ==> ((((v0 << 2) | (v1 >> 4)) & 3) << 4) | ((((v1 & 15)
        << 4) | (v2 >> 2)) >> 4) == v1) by (bit_vector);
    assert(v1 < 64 && v2 < 64 && v3 < 64 ==> (((((v1 & 15) << 4) | (v2 >> 2)) & 15) << 2) | ((((v2
        & 3) << 6) | v3) >> 6) == v2) by (bit_vector);
    assert(v3 < 64 ==> (((v2 & 3) << 6) | v3) & 63 == v3) by (bit_vector);
    assert(v1 < 64 && v2 < 64 && v2 & 3 == 0 ==> ((((v1 & 15) << 4) | (v2 >> 2)) & 15) << 2 == v2)
        by (bit_vector);
    assert(v0 < 64 && v1 < 64 && v1 & 15 == 0 ==> (((v0 << 2) | (v1 >> 4)) & 3) << 4 == v1)
        by (bit_vector);
}

/// The text of a byte string has four symbols for every three bytes, rounded up.
pub proof fn lemma_encoded_len(bytes: Seq<u8>)
    ensures
        encoded(bytes).len() == 4 * ((bytes.len() + 2) / 3),
    decreases bytes.len(),
{
    if bytes.len() >= 3 {
        lemma_encoded_len(bytes.skip(3));
    }
}

/// Decoding undoes encoding: the text of a byte string stands for that byte
/// string.
pub proof fn lemma_decoded_encoded(bytes: Seq<u8>)
    ensures
        decoded(encoded(bytes)) == Some(bytes),
    decreases bytes.len(),
{
    let text = encoded(bytes);
    if bytes.len() == 0 {
        assert(bytes =~= Seq::empty());
    } else if bytes.len() == 1 {
        let b0 = bytes[0];
        lemma_split_in_range(b0, 0, 0);
        lemma_join_split(b0, 0, 0);
        lemma_symbol_value(b0 >> 2);
        lemma_symbol_value((b0 & 3) << 4);
        assert(last_group(text[0], text[1], text[2], text[3]).unwrap() =~= bytes);
    } else if bytes.len() == 2 {
        let b0 = bytes[0];
        let b1 = bytes[1];
        lemma_split_in_range(b0, b1, 0);
        lemma_join_split(b0, b1, 0);
        lemma_symbol_value(b0 >> 2);
        lemma_symbol_value(((b0 & 3) << 4) | (b1 >> 4));
        lemma_symbol_value((b1 & 15) << 2);
        assert(last_group(text[0], text[1], text[2], text[3]).unwrap() =~= bytes);
    } else {
        let b0 = bytes[0];
        let b1 = bytes[1];
        let b2 = bytes[2];
        let rest = bytes.skip(3);
        lemma_split_in_range(b0, b1, b2);
        lemma_join_split(b0, b1, b2);
        lemma_symbol_value(b0 >> 2);
        lemma_symbol_value(((b0 & 3) << 4) | (b1 >> 4));
        lemma_symbol_value(((b1 & 15) << 2) | (b2 >> 6));
        lemma_symbol_value(b2 & 63);
        lemma_encoded_len(rest);
        lemma_decoded_encoded(rest);
        let front = full_group(text[0], text[1], text[2], text[3]).unwrap();
        assert(front =~= seq![b0, b1, b2]);
        assert(text.skip(4) =~= encoded(rest));
        assert(front + rest =~= bytes);
        if rest.len() == 0 {
            assert(text.len() == 4);
            assert(text[3] != PAD);
        }
    }
}

/// Encoding undoes decoding: a text that stands for a byte string is the text
/// of that byte string.
pub proof fn lemma_encoded_decoded(text: Seq<u8>)
    requires
        decoded(text) is Some,
    ensures
        encoded(decoded(text)->0) == text,
    decreases text.len(),
{
    let bytes = decoded(text)->0;
    if text.len() == 0 {
    } else if text.len() == 4 {
        let c0 = text[0];
        let c1 = text[1];
        let c2 = text[2];
        let c3 = text[3];
        lemma_value_symbol(c0);
        lemma_value_symbol(c1);
        let v0 = value_of(c0)->0;
        let v1 = value_of(c1)->0;
        if c3 != PAD {
            lemma_value_symbol(c2);
            lemma_value_symbol(c3);
            lemma_split_join(v0, v1, value_of(c2)->0, value_of(c3)->0);
            assert(bytes.skip(3) =~= Seq::empty());
            assert(encoded(bytes.skip(3)) =~= Seq::empty());
            assert(encoded(bytes) =~= text);
        } else if c2 != PAD {
            lemma_value_symbol(c2);
            lemma_split_join(v0, v1, value_of(c2)->0, 0);
            assert(encoded(bytes) =~= text);
        } else {
            lemma_split_join(v0, v1, 0, 0);
            assert(encoded(bytes) =~= text);
        }
    } else {
        let c0 = text[0];
        let c1 = text[1];
        let c2 = text[2];
        let c3 = text[3];
        lemma_value_symbol(c0);
        lemma_value_symbol(c1);
        lemma_value_symbol(c2);
        lemma_value_symbol(c3);
        lemma_split_join(value_of(c0)->0, value_of(c1)->0, value_of(c2)->0, value_of(c3)->0);
        let front = full_group(c0, c1, c2, c3)->0;
        let rest = decoded(text.skip(4))->0;
        lemma_encoded_decoded(text.skip(4));
        assert(bytes == front + rest);
        assert(bytes.skip(3) =~= rest);
        assert(group_of(bytes[0], bytes[1], bytes[2]) =~= text.take(4));
        assert(text.take(4) + text.skip(4) =~= text);
    }
}

/// No two byte strings have the same text.
pub proof fn lemma_encoded_injective(a: Seq<u8>, b: Seq<u8>)
    requires
        encoded(a) == encoded(b),
    ensures
        a == b,
{
    lemma_decoded_encoded(a);
    lemma_decoded_encoded(b);
}

/// The six-bit value of a symbol of the alphabet.
fn sextet(c: u8) -> (r: Option<u8>)
    ensures
        r == value_of(c),
{
    if 65 <= c && c <= 90 {
        Some(c - 65)
    } else if 97 <= c && c <= 122 {
        Some(c - 71)
    } else if 48 <= c && c <= 57 {
        Some(c + 4)
    } else if c == 43 {
        Some(62)
    } else if c == 47 {
        Some(63)
    } else {
        None
    }
}

/// Decodes a padded base64 text.
///
/// Returns the byte string whose text is `text`, and `None` where `text` is
/// the text of no byte string.
pub fn decode(text: &[u8]) -> (r: Option<Vec<u8>>)
    ensures
        match r {
            Some(bytes) => decoded(text@) == Some(bytes@) && encoded(bytes@) == text@,
            None => decoded(text@) is None && forall|bytes: Seq<u8>|
                #[trigger] encoded(bytes) != text@,
        },
{
    let n = text.len();
    let mut out: Vec<u8> = Vec::new();
    let mut i: usize = 0;
    let mut sound = true;
    assert(text@.skip(0) =~= text@);
    assert(forall|rest: Seq<u8>| #[trigger] (out@ + rest) =~= rest);
    while sound && n - i > 4
        invariant
            n == text@.len(),
            i <= n,
            sound ==> decoded(text@) == prepend(out@, decoded(text@.skip(i as int))),
            !sound ==> decoded(text@) is None,
        decreases (if sound { 1int } else { 0int }), n - i,
    {
        let ghost tail = text@.skip(i as int);
        assert(tail.skip(4) =~= text@.skip(i + 4));
        assert(tail[0] == text@[i as int] && tail[1] == text@[i + 1] && tail[2] == text@[i + 2]
            && tail[3] == text@[i + 3]);
        match (sextet(text[i]), sextet(text[i + 1]), sextet(text[i + 2]), sextet(text[i + 3])) {
            (Some(v0), Some(v1), Some(v2), Some(v3)) => {
                let ghost before = out@;
                out.push((v0 << 2) | (v1 >> 4));
                out.push(((v1 & 15) << 4) | (v2 >> 2));
                out.push(((v2 & 3) << 6) | v3);
                i = i + 4;
                proof {
                    let front = full_group(tail[0], tail[1], tail[2], tail[3])->0;
                    assert(out@ =~= before + front);
                    match decoded(tail.skip(4)) {
                        Some(rest) => {
                            assert(before + (front + rest) =~= (before + front) + rest);
                        },
                        None => {},
                    }
                }
            },
            _ => {
                sound = false;
            },
        }
    }
    if sound && n - i == 4 {
        let ghost tail = text@.skip(i as int);
        let ghost before = out@;
        assert(tail[0] == text@[i as int] && tail[1] == text@[i + 1] && tail[2] == text@[i + 2]
            && tail[3] == text@[i + 3]);
        let c2 = text[i + 2];
        let c3 = text[i + 3];
        match (sextet(text[i]), sextet(text[i + 1])) {
            (Some(v0), Some(v1)) => {
                if c3 != PAD {
                    match (sextet(c2), sextet(c3)) {
                        (Some(v2), Some(v3)) => {
                            out.push((v0 << 2) | (v1 >> 4));
                            out.push(((v1 & 15) << 4) | (v2 >> 2));
                            out.push(((v2 & 3) << 6) | v3);
                        },
                        _ => {
                            sound = false;
                        },
                    }
                } else if c2 != PAD {
                    match sextet(c2) {
                        Some(v2) => {
                            if v2 & 3 == 0 {
                                out.push((v0 << 2) | (v1 >> 4));
                                out.push(((v1 & 15) << 4) | (v2 >> 2));
                            } else {
                                sound = false;
                            }
                        },
                        None => {
                            sound = false;
                        },
                    }
                } else {
                    if v1 & 15 == 0 {
                        out.push((v0 << 2) | (v1 >> 4));
                    } else {
                        sound = false;
                    }
                }
            },
            _ => {
                sound = false;
            },
        }
        proof {
            if sound {
                assert(out@ =~= before + decoded(tail)->0);
            }
        }
    } else if sound && n - i != 0 {
        sound = false;
    } else if sound {
        assert(out@ =~= out@ + Seq::<u8>::empty());
    }
    if sound {
        proof {
            lemma_encoded_decoded(text@);
        }
        Some(out)
    } else {
        assert forall|bytes: Seq<u8>| #[trigger] encoded(bytes) != text@ by {
            lemma_decoded_encoded(bytes);
        }
        None
    }
}

} // verus!
