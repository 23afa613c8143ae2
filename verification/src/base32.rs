//! Fixed-width Base32 text form of 20-byte SHA-1 digests.
//!
//! The canonical text form of a digest is the RFC 4648 Base32 encoding of its
//! 20 bytes: exactly 32 characters over `A`-`Z` and `2`-`7`, with no padding,
//! since 160 bits is a whole number of 5-bit groups. The codec is fixed to
//! this one width so that both directions can be stated and proved exactly.

use vstd::prelude::*;

verus! {

/// The character for a 5-bit group value.
pub open spec fn b32_letter(v: u8) -> char
    recommends
        v < 32,
{
    if v < 26 {
        ((v + 65) as u8) as char
    } else {
        ((v + 24) as u8) as char
    }
}

/// The 5-bit group value of a character, or 255 for one outside the alphabet.
pub open spec fn b32_value(c: char) -> u8 {
    if 'A' <= c && c <= 'Z' {
        ((c as int) - 65) as u8
    } else if '2' <= c && c <= '7' {
        ((c as int) - 24) as u8
    } else {
        255
    }
}

/// The eight 5-bit group values of a 5-byte chunk, most significant bits first.
pub open spec fn b32_vals_of_chunk(b: Seq<u8>) -> Seq<u8>
    recommends
        b.len() == 5,
{
    seq![
        b[0] >> 3,
        ((b[0] & 7) << 2) | (b[1] >> 6),
        (b[1] >> 1) & 31,
        ((b[1] & 1) << 4) | (b[2] >> 4),
        ((b[2] & 15) << 1) | (b[3] >> 7),
        (b[3] >> 2) & 31,
        ((b[3] & 3) << 3) | (b[4] >> 5),
        b[4] & 31,
    ]
}

/// The 5-byte chunk denoted by eight 5-bit group values.
pub open spec fn b32_bytes_of_vals(v: Seq<u8>) -> Seq<u8>
    recommends
        v.len() == 8,
{
    seq![
        (v[0] << 3) | (v[1] >> 2),
        ((v[1] & 3) << 6) | (v[2] << 1) | (v[3] >> 4),
        ((v[3] & 15) << 4) | (v[4] >> 1),
        ((v[4] & 1) << 7) | (v[5] << 2) | (v[6] >> 3),
        ((v[6] & 7) << 5) | v[7],
    ]
}

/// The 5-bit group value at position `i` of the encoding of 20 bytes.
pub open spec fn b32_val_at(b: Seq<u8>, i: int) -> u8
    recommends
        b.len() == 20,
        0 <= i < 32,
{
    b32_vals_of_chunk(b.subrange(5 * (i / 8), 5 * (i / 8) + 5))[i % 8]
}

/// The 32-character Base32 text of 20 bytes.
pub open spec fn base32_chars(b: Seq<u8>) -> Seq<char>
    recommends
        b.len() == 20,
{
    Seq::new(32, |i: int| b32_letter(b32_val_at(b, i)))
}

/// The byte at position `j` recovered from a 32-character text.
pub open spec fn b32_byte_at(s: Seq<char>, j: int) -> u8
    recommends
        s.len() == 32,
        0 <= j < 20,
{
    b32_bytes_of_vals(s.subrange(8 * (j / 5), 8 * (j / 5) + 8).map_values(|c: char| b32_value(c)))[j % 5]
}

/// Whether `s` is 32 characters of the Base32 alphabet.
pub open spec fn base32_valid(s: Seq<char>) -> bool {
    s.len() == 32 && forall|i: int| 0 <= i < 32 ==> b32_value(#[trigger] s[i]) < 32
}

/// The 20 bytes denoted by a 32-character Base32 text, when it is one.
pub open spec fn base32_decoded(s: Seq<char>) -> Option<Seq<u8>> {
    if base32_valid(s) {
        Some(Seq::new(20, |j: int| b32_byte_at(s, j)))
    } else {
        None
    }
}

proof fn lemma_vals_bounded(b: Seq<u8>)
    requires
        b.len() == 5,
    ensures
        forall|k: int| 0 <= k < 8 ==> #[trigger] b32_vals_of_chunk(b)[k] < 32,
{
    let b0 = b[0];
    let b1 = b[1];
    let b2 = b[2];
    let b3 = b[3];
    let b4 = b[4];
    assert(b0 >> 3 < 32) by (bit_vector);
    assert(((b0 & 7) << 2) | (b1 >> 6) < 32) by (bit_vector);
    assert((b1 >> 1) & 31 < 32) by (bit_vector);
    assert(((b1 & 1) << 4) | (b2 >> 4) < 32) by (bit_vector);
    assert(((b2 & 15) << 1) | (b3 >> 7) < 32) by (bit_vector);
    assert((b3 >> 2) & 31 < 32) by (bit_vector);
    assert(((b3 & 3) << 3) | (b4 >> 5) < 32) by (bit_vector);
    assert(b4 & 31 < 32) by (bit_vector);
}

proof fn lemma_letter_value(v: u8)
    requires
        v < 32,
    ensures
        b32_value(b32_letter(v)) == v,
{
}

proof fn lemma_value_letter(c: char)
    requires
        b32_value(c) < 32,
    ensures
        b32_letter(b32_value(c)) == c,
{
    if 'A' <= c && c <= 'Z' {
        assert(c as int == (((c as int) - 65) + 65));
    } else {
        assert('2' <= c && c <= '7');
        assert(c as int == (((c as int) - 24) + 24));
    }
}

proof fn lemma_chunk_round_trip(b: Seq<u8>)
    requires
        b.len() == 5,
    ensures
        b32_bytes_of_vals(b32_vals_of_chunk(b)) =~= b,
{
    let b0 = b[0];
    let b1 = b[1];
    let b2 = b[2];
    let b3 = b[3];
    let b4 = b[4];
    assert(((b0 >> 3) << 3) | ((((b0 & 7) << 2) | (b1 >> 6)) >> 2) == b0) by (bit_vector);
    assert((((((b0 & 7) << 2) | (b1 >> 6)) & 3) << 6) | (((b1 >> 1) & 31) << 1) | ((((b1 & 1) << 4)
        | (b2 >> 4)) >> 4) == b1) by (bit_vector);
    assert((((((b1 & 1) << 4) | (b2 >> 4)) & 15) << 4) | ((((b2 & 15) << 1) | (b3 >> 7)) >> 1)
        == b2) by (bit_vector);
    assert((((((b2 & 15) << 1) | (b3 >> 7)) & 1) << 7) | (((b3 >> 2) & 31) << 2) | ((((b3 & 3) << 3)
        | (b4 >> 5)) >> 3) == b3) by (bit_vector);
    assert((((((b3 & 3) << 3) | (b4 >> 5)) & 7) << 5) | (b4 & 31) == b4) by (bit_vector);
}

proof fn lemma_chunk_round_trip_rev(v: Seq<u8>)
    requires
        v.len() == 8,
        forall|k: int| 0 <= k < 8 ==> #[trigger] v[k] < 32,
    ensures
        b32_vals_of_chunk(b32_bytes_of_vals(v)) =~= v,
{
    let v0 = v[0];
    let v1 = v[1];
    let v2 = v[2];
    let v3 = v[3];
    let v4 = v[4];
    let v5 = v[5];
    let v6 = v[6];
    let v7 = v[7];
    assert(v0 < 32 && v1 < 32 ==> ((v0 << 3) | (v1 >> 2)) >> 3 == v0) by (bit_vector);
    assert(v1 < 32 && v2 < 32 && v3 < 32 ==> ((((v0 << 3) | (v1 >> 2)) & 7) << 2) | ((((v1 & 3)
        << 6) | (v2 << 1) | (v3 >> 4)) >> 6) == v1) by (bit_vector);
    assert(v1 < 32 && v2 < 32 && v3 < 32 ==> ((((v1 & 3) << 6) | (v2 << 1) | (v3 >> 4)) >> 1) & 31
        == v2) by (bit_vector);
    assert(v2 < 32 && v3 < 32 && v4 < 32 ==> (((((v1 & 3) << 6) | (v2 << 1) | (v3 >> 4)) & 1) << 4)
        | ((((v3 & 15) << 4) | (v4 >> 1)) >> 4) == v3) by (bit_vector);
    assert(v3 < 32 && v4 < 32 && v5 < 32 && v6 < 32 ==> (((((v3 & 15) << 4) | (v4 >> 1)) & 15) << 1)
        | ((((v4 & 1) << 7) | (v5 << 2) | (v6 >> 3)) >> 7) == v4) by (bit_vector);
    assert(v4 < 32 && v5 < 32 && v6 < 32 ==> (((((v4 & 1) << 7) | (v5 << 2) | (v6 >> 3))) >> 2) & 31
        == v5) by (bit_vector);
    assert(v5 < 32 && v6 < 32 && v7 < 32 ==> ((((((v4 & 1) << 7) | (v5 << 2) | (v6 >> 3))) & 3)
        << 3) | ((((v6 & 7) << 5) | v7) >> 5) == v6) by (bit_vector);
    assert(v6 < 32 && v7 < 32 ==> ((((v6 & 7) << 5) | v7) & 31) == v7) by (bit_vector);
}

/// Decoding the Base32 text of any 20 bytes gives those bytes back.
pub proof fn lemma_base32_round_trip(b: Seq<u8>)
    requires
        b.len() == 20,
    ensures
        base32_chars(b).len() == 32,
        base32_decoded(base32_chars(b)) == Some(b),
{
    let s = base32_chars(b);
    assert forall|i: int| 0 <= i < 32 implies b32_value(#[trigger] s[i]) < 32 by {
        lemma_vals_bounded(b.subrange(5 * (i / 8), 5 * (i / 8) + 5));
        lemma_letter_value(b32_val_at(b, i));
    }
    assert(base32_valid(s));
    let d = base32_decoded(s).unwrap();
    assert forall|j: int| 0 <= j < 20 implies d[j] == b[j] by {
        let c = j / 5;
        let chunk = b.subrange(5 * c, 5 * c + 5);
        lemma_vals_bounded(chunk);
        let vals = s.subrange(8 * c, 8 * c + 8).map_values(|ch: char| b32_value(ch));
        assert forall|k: int| 0 <= k < 8 implies vals[k] == b32_vals_of_chunk(chunk)[k] by {
            assert(s[8 * c + k] == b32_letter(b32_val_at(b, 8 * c + k)));
            assert((8 * c + k) / 8 == c && (8 * c + k) % 8 == k) by (nonlinear_arith)
                requires
                    0 <= c < 4,
                    0 <= k < 8,
            ;
            lemma_letter_value(b32_vals_of_chunk(chunk)[k]);
        }
        assert(vals =~= b32_vals_of_chunk(chunk));
        lemma_chunk_round_trip(chunk);
        assert(d[j] == b32_bytes_of_vals(vals)[j % 5]);
        assert(chunk[j % 5] == b[j]) by (nonlinear_arith)
            requires
                0 <= j < 20,
                c == j / 5,
                chunk =~= b.subrange(5 * c, 5 * c + 5),
                b.len() == 20,
        ;
    }
    assert(d =~= b);
}

/// Re-encoding the bytes denoted by a valid Base32 text gives the text back.
pub proof fn lemma_base32_canonical(s: Seq<char>)
    requires
        base32_valid(s),
    ensures
        base32_decoded(s) matches Some(b) && b.len() == 20 && base32_chars(b) == s,
{
    let b = base32_decoded(s).unwrap();
    let t = base32_chars(b);
    assert forall|i: int| 0 <= i < 32 implies t[i] == s[i] by {
        let c = i / 8;
        let vals = s.subrange(8 * c, 8 * c + 8).map_values(|ch: char| b32_value(ch));
        assert(forall|k: int| 0 <= k < 8 ==> #[trigger] vals[k] < 32);
        lemma_chunk_round_trip_rev(vals);
        let chunk = b.subrange(5 * c, 5 * c + 5);
        assert forall|m: int| 0 <= m < 5 implies chunk[m] == b32_bytes_of_vals(vals)[m] by {
            assert(b[5 * c + m] == b32_byte_at(s, 5 * c + m));
            assert((5 * c + m) / 5 == c && (5 * c + m) % 5 == m) by (nonlinear_arith)
                requires
                    0 <= c < 4,
                    0 <= m < 5,
            ;
        }
        assert(chunk =~= b32_bytes_of_vals(vals));
        assert(b32_val_at(b, i) == b32_vals_of_chunk(chunk)[i % 8]);
        assert(i == 8 * c + (i % 8)) by (nonlinear_arith)
            requires
                0 <= i < 32,
                c == i / 8,
        ;
        assert(vals[i % 8] == b32_value(s[i]));
        lemma_value_letter(s[i]);
    }
    assert(t =~= s);
}

/// Exec form of [`b32_letter`].
fn letter_of(v: u8) -> (c: char)
    requires
        v < 32,
    ensures
        c == b32_letter(v),
{
    if v < 26 {
        (v + 65) as char
    } else {
        (v + 24) as char
    }
}

/// Exec form of [`b32_value`].
fn value_of(c: char) -> (v: u8)
    ensures
        v == b32_value(c),
{
    if 'A' <= c && c <= 'Z' {
        (c as u8) - 65
    } else if '2' <= c && c <= '7' {
        (c as u8) - 24
    } else {
        255
    }
}

/// The Base32 text of 20 bytes, as characters.
pub fn base32_encode(bytes: &[u8; 20]) -> (r: Vec<char>)
    ensures
        r@ == base32_chars(bytes@),
        r@.len() == 32,
{
    let mut r: Vec<char> = Vec::new();
    let mut c: usize = 0;
    while c < 4
        invariant
            c <= 4,
            r@.len() == 8 * c,
            forall|i: int| 0 <= i < 8 * c ==> r@[i] == base32_chars(bytes@)[i],
        decreases 4 - c,
    {
        let b0 = bytes[5 * c];
        let b1 = bytes[5 * c + 1];
        let b2 = bytes[5 * c + 2];
        let b3 = bytes[5 * c + 3];
        let b4 = bytes[5 * c + 4];
        proof {
            lemma_vals_bounded(bytes@.subrange(5 * c as int, 5 * c as int + 5));
        }
        let ghost chunk = bytes@.subrange(5 * c as int, 5 * c as int + 5);
        assert(chunk[0] == b0 && chunk[1] == b1 && chunk[2] == b2 && chunk[3] == b3 && chunk[4]
            == b4);
        assert(b32_vals_of_chunk(chunk)[0] == b0 >> 3);
        assert(b32_vals_of_chunk(chunk)[1] == ((b0 & 7) << 2) | (b1 >> 6));
        assert(b32_vals_of_chunk(chunk)[2] == (b1 >> 1) & 31);
        assert(b32_vals_of_chunk(chunk)[3] == ((b1 & 1) << 4) | (b2 >> 4));
        assert(b32_vals_of_chunk(chunk)[4] == ((b2 & 15) << 1) | (b3 >> 7));
        assert(b32_vals_of_chunk(chunk)[5] == (b3 >> 2) & 31);
        assert(b32_vals_of_chunk(chunk)[6] == ((b3 & 3) << 3) | (b4 >> 5));
        assert(b32_vals_of_chunk(chunk)[7] == b4 & 31);
        r.push(letter_of(b0 >> 3));
        r.push(letter_of(((b0 & 7) << 2) | (b1 >> 6)));
        r.push(letter_of((b1 >> 1) & 31));
        r.push(letter_of(((b1 & 1) << 4) | (b2 >> 4)));
        r.push(letter_of(((b2 & 15) << 1) | (b3 >> 7)));
        r.push(letter_of((b3 >> 2) & 31));
        r.push(letter_of(((b3 & 3) << 3) | (b4 >> 5)));
        r.push(letter_of(b4 & 31));
        assert forall|i: int| 8 * c <= i < 8 * (c + 1) implies r@[i] == base32_chars(bytes@)[i] by {
            assert(i / 8 == c && i % 8 == i - 8 * c) by (nonlinear_arith)
                requires
                    8 * c <= i < 8 * (c + 1),
                    0 <= c < 4,
            ;
            assert(b32_val_at(bytes@, i) == b32_vals_of_chunk(chunk)[i - 8 * c]);
        }
        c += 1;
    }
    assert(r@ =~= base32_chars(bytes@));
    r
}

/// The 20 bytes of a 32-character Base32 text, or `None` when any character is
/// outside the alphabet or the length is not 32.
pub fn base32_decode(chars: &Vec<char>) -> (r: Option<[u8; 20]>)
    ensures
        match r {
            Some(bytes) => base32_decoded(chars@) == Some(bytes@),
            None => base32_decoded(chars@) is None,
        },
{
    if chars.len() != 32 {
        return None;
    }
    let mut vals: Vec<u8> = Vec::new();
    let mut i: usize = 0;
    while i < 32
        invariant
            i <= 32,
            chars@.len() == 32,
            vals@.len() == i,
            forall|j: int| 0 <= j < i ==> vals@[j] == b32_value(chars@[j]) && vals@[j] < 32,
        decreases 32 - i,
    {
        let v = value_of(chars[i]);
        if v >= 32 {
            assert(!base32_valid(chars@));
            return None;
        }
        vals.push(v);
        i += 1;
    }
    assert forall|k: int| 0 <= k < 32 implies b32_value(#[trigger] chars@[k]) < 32 by {
        assert(vals@[k] == b32_value(chars@[k]) && vals@[k] < 32);
    }
    assert(base32_valid(chars@));
    let mut out: Vec<u8> = Vec::new();
    let mut c: usize = 0;
    while c < 4
        invariant
            c <= 4,
            chars@.len() == 32,
            base32_valid(chars@),
            vals@.len() == 32,
            forall|j: int| 0 <= j < 32 ==> vals@[j] == b32_value(chars@[j]) && #[trigger] vals@[j]
                < 32,
            out@.len() == 5 * c,
            forall|j: int| 0 <= j < 5 * c ==> out@[j] == b32_byte_at(chars@, j),
        decreases 4 - c,
    {
        let v0 = vals[8 * c];
        let v1 = vals[8 * c + 1];
        let v2 = vals[8 * c + 2];
        let v3 = vals[8 * c + 3];
        let v4 = vals[8 * c + 4];
        let v5 = vals[8 * c + 5];
        let v6 = vals[8 * c + 6];
        let v7 = vals[8 * c + 7];
        let ghost cvals = chars@.subrange(8 * c as int, 8 * c as int + 8).map_values(
            |ch: char| b32_value(ch),
        );
        assert(cvals.len() == 8);
        assert(cvals[0] == v0 && cvals[1] == v1 && cvals[2] == v2 && cvals[3] == v3 && cvals[4]
            == v4 && cvals[5] == v5 && cvals[6] == v6 && cvals[7] == v7);
        assert(v0 < 32 && v1 < 32 && v2 < 32 && v3 < 32 && v4 < 32 && v5 < 32 && v6 < 32 && v7
            < 32);
        out.push((v0 << 3) | (v1 >> 2));
        out.push(((v1 & 3) << 6) | (v2 << 1) | (v3 >> 4));
        out.push(((v3 & 15) << 4) | (v4 >> 1));
        out.push(((v4 & 1) << 7) | (v5 << 2) | (v6 >> 3));
        out.push(((v6 & 7) << 5) | v7);
        assert forall|j: int| 5 * c <= j < 5 * (c + 1) implies out@[j] == b32_byte_at(chars@, j) by {
            assert(j / 5 == c && j % 5 == j - 5 * c) by (nonlinear_arith)
                requires
                    5 * c <= j < 5 * (c + 1),
                    0 <= c < 4,
            ;
            assert(out@[j] == b32_bytes_of_vals(cvals)[j - 5 * c]);
        }
        c += 1;
    }
    let mut bytes: [u8; 20] = [0u8; 20];
    let mut j: usize = 0;
    while j < 20
        invariant
            j <= 20,
            out@.len() == 20,
            chars@.len() == 32,
            base32_valid(chars@),
            forall|k: int| 0 <= k < 20 ==> out@[k] == b32_byte_at(chars@, k),
            forall|k: int| 0 <= k < j ==> bytes@[k] == out@[k],
        decreases 20 - j,
    {
        bytes[j] = out[j];
        j += 1;
    }
    assert(bytes@ =~= base32_decoded(chars@).unwrap());
    Some(bytes)
}

} // verus!
