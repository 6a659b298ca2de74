//! The session identifier and its codec.
//!
//! A session identifier is an opaque 16-byte random value.  On the wire it
//! travels as its URL-safe base64 rendering without padding: 22 characters
//! drawn from `A-Z a-z 0-9 - _`, where the final character carries only the
//! top two bits of the last byte (so its low four bits must be zero).
//! `encode` is total over well-formed identifiers; `decode` accepts exactly
//! the strings `encode` can produce and rejects everything else.

use vstd::prelude::*;

verus! {

use crate::errors::SessionError;

/// The character of the URL-safe base64 alphabet at index `v`.
pub open spec fn sextet_char(v: int) -> char {
    if 0 <= v && v < 26 {
        ((v + 65) as u8) as char // 'A'..='Z'
    } else if 26 <= v && v < 52 {
        ((v + 71) as u8) as char // 'a'..='z'
    } else if 52 <= v && v < 62 {
        ((v - 4) as u8) as char // '0'..='9'
    } else if v == 62 {
        '-'
    } else if v == 63 {
        '_'
    } else {
        ' '
    }
}

/// The alphabet index of `c`, or -1 when `c` is not in the alphabet.
pub open spec fn char_sextet(c: char) -> int {
    let u = c as u32;
    if 65 <= u && u <= 90 {
        u - 65
    } else if 97 <= u && u <= 122 {
        u - 71
    } else if 48 <= u && u <= 57 {
        u + 4
    } else if u == 45 {
        62
    } else if u == 95 {
        63
    } else {
        -1
    }
}

/// Does `c` belong to the URL-safe base64 alphabet?
pub open spec fn is_base64url_char(c: char) -> bool {
    char_sextet(c) != -1
}

/// The alphabet and its index function invert one another.
proof fn lemma_sextet_char_inverse(v: int)
    requires
        0 <= v < 64,
    ensures
        is_base64url_char(sextet_char(v)),
        char_sextet(sextet_char(v)) == v,
{
}

/// An alphabet character is named by its own index.
proof fn lemma_char_sextet_inverse(c: char)
    requires
        is_base64url_char(c),
    ensures
        0 <= char_sextet(c) < 64,
        sextet_char(char_sextet(c)) == c,
{
}

/// Two distinct alphabet indices name two distinct characters.
proof fn lemma_sextet_char_injective(v1: int, v2: int)
    requires
        0 <= v1 < 64,
        0 <= v2 < 64,
        sextet_char(v1) == sextet_char(v2),
    ensures
        v1 == v2,
{
    lemma_sextet_char_inverse(v1);
    lemma_sextet_char_inverse(v2);
}

/// Maps an alphabet index to its character.
fn sextet_to_char(v: u8) -> (c: char)
    requires
        v < 64,
    ensures
        c == sextet_char(v as int),
{
    if v < 26 {
        (65 + v) as char
    } else if v < 52 {
        (71 + v) as char
    } else if v < 62 {
        (v - 4) as char
    } else if v == 62 {
        '-'
    } else {
        '_'
    }
}

/// Maps a character back to its alphabet index, or `None` when it is not in
/// the alphabet.
fn char_to_sextet(c: char) -> (r: Option<u8>)
    ensures
        r matches Some(v) ==> v < 64 && char_sextet(c) == v as int,
        r is None ==> !is_base64url_char(c),
{
    let u = c as u32;
    if 65 <= u && u <= 90 {
        Some((u - 65) as u8)
    } else if 97 <= u && u <= 122 {
        Some((u - 71) as u8)
    } else if 48 <= u && u <= 57 {
        Some((u + 4) as u8)
    } else if u == 45 {
        Some(62)
    } else if u == 95 {
        Some(63)
    } else {
        None
    }
}

/// The four characters encoding one full group of three bytes.
pub open spec fn group_chars(b0: u8, b1: u8, b2: u8) -> Seq<char> {
    seq![
        sextet_char((b0 >> 2) as int),
        sextet_char((((b0 & 3) << 4) | (b1 >> 4)) as int),
        sextet_char((((b1 & 15) << 2) | (b2 >> 6)) as int),
        sextet_char((b2 & 63) as int),
    ]
}

/// The two characters encoding the final, sixteenth byte.
pub open spec fn tail_chars(b: u8) -> Seq<char> {
    seq![sextet_char((b >> 2) as int), sextet_char(((b & 3) << 4) as int)]
}

/// The URL-safe unpadded base64 rendering of a 16-byte value: five full
/// groups of three bytes, then the final byte on its own.
pub open spec fn encode16(b: Seq<u8>) -> Seq<char> {
    group_chars(b[0], b[1], b[2]) + group_chars(b[3], b[4], b[5]) + group_chars(b[6], b[7], b[8])
        + group_chars(b[9], b[10], b[11]) + group_chars(b[12], b[13], b[14]) + tail_chars(b[15])
}

/// Is `s` the rendering of some 16-byte value?
pub open spec fn is_encoded_id(s: Seq<char>) -> bool {
    exists|b: Seq<u8>| b.len() == 16 && encode16(b) == s
}

/// The 16-byte value that `s` renders (meaningful only when `is_encoded_id(s)`).
pub open spec fn decoded_id(s: Seq<char>) -> Seq<u8> {
    choose|b: Seq<u8>| b.len() == 16 && encode16(b) == s
}

/// The four sextets of a full group, and the two of the tail, fit in six
/// bits each.
proof fn lemma_sextets_bounded(b0: u8, b1: u8, b2: u8)
    by (bit_vector)
    ensures
        (b0 >> 2) < 64,
        (((b0 & 3) << 4) | (b1 >> 4)) < 64,
        (((b1 & 15) << 2) | (b2 >> 6)) < 64,
        (b2 & 63) < 64,
        ((b0 & 3) << 4) < 64,
        ((b0 & 3) << 4) & 15 == 0,
{
}

/// Relies on `String::push`: appends exactly the given character.
#[verifier::external_body]
fn push_char(out: &mut String, c: char)
    ensures
        final(out)@ == old(out)@.push(c),
{
    out.push(c);
}

/// Appends the four characters encoding one full group of three bytes.
fn push_group(out: &mut String, b0: u8, b1: u8, b2: u8)
    ensures
        final(out)@ == old(out)@ + group_chars(b0, b1, b2),
{
    proof {
        lemma_sextets_bounded(b0, b1, b2);
    }
    push_char(out, sextet_to_char(b0 >> 2));
    push_char(out, sextet_to_char(((b0 & 3) << 4) | (b1 >> 4)));
    push_char(out, sextet_to_char(((b1 & 15) << 2) | (b2 >> 6)));
    push_char(out, sextet_to_char(b2 & 63));
    assert(out@ =~= old(out)@ + group_chars(b0, b1, b2));
}

/// Every character of a full group's rendering is in the alphabet.
proof fn lemma_group_chars_valid(b0: u8, b1: u8, b2: u8)
    ensures
        forall|j: int| 0 <= j < 4 ==> is_base64url_char(#[trigger] group_chars(b0, b1, b2)[j]),
{
    lemma_sextets_bounded(b0, b1, b2);
    lemma_sextet_char_inverse((b0 >> 2) as int);
    lemma_sextet_char_inverse((((b0 & 3) << 4) | (b1 >> 4)) as int);
    lemma_sextet_char_inverse((((b1 & 15) << 2) | (b2 >> 6)) as int);
    lemma_sextet_char_inverse((b2 & 63) as int);
}

/// Both characters of the tail's rendering are in the alphabet.
proof fn lemma_tail_chars_valid(b: u8)
    ensures
        forall|j: int| 0 <= j < 2 ==> is_base64url_char(#[trigger] tail_chars(b)[j]),
{
    lemma_sextets_bounded(b, 0, 0);
    lemma_sextet_char_inverse((b >> 2) as int);
    lemma_sextet_char_inverse(((b & 3) << 4) as int);
}

/// A rendering consists of alphabet characters only.
proof fn lemma_encode16_chars_valid(b: Seq<u8>)
    ensures
        forall|i: int| 0 <= i < 22 ==> is_base64url_char(#[trigger] encode16(b)[i]),
{
    assert forall|i: int| 0 <= i < 22 implies is_base64url_char(#[trigger] encode16(b)[i]) by {
        if i < 4 {
            lemma_group_chars_valid(b[0], b[1], b[2]);
            assert(encode16(b)[i] == group_chars(b[0], b[1], b[2])[i]);
        } else if i < 8 {
            lemma_group_chars_valid(b[3], b[4], b[5]);
            assert(encode16(b)[i] == group_chars(b[3], b[4], b[5])[i - 4]);
        } else if i < 12 {
            lemma_group_chars_valid(b[6], b[7], b[8]);
            assert(encode16(b)[i] == group_chars(b[6], b[7], b[8])[i - 8]);
        } else if i < 16 {
            lemma_group_chars_valid(b[9], b[10], b[11]);
            assert(encode16(b)[i] == group_chars(b[9], b[10], b[11])[i - 12]);
        } else if i < 20 {
            lemma_group_chars_valid(b[12], b[13], b[14]);
            assert(encode16(b)[i] == group_chars(b[12], b[13], b[14])[i - 16]);
        } else {
            lemma_tail_chars_valid(b[15]);
            assert(encode16(b)[i] == tail_chars(b[15])[i - 20]);
        }
    }
}

/// Equal sextets come from equal bytes, for a full group.
proof fn lemma_group_sextets_determine_bytes(a0: u8, a1: u8, a2: u8, c0: u8, c1: u8, c2: u8)
    by (bit_vector)
    requires
        a0 >> 2 == c0 >> 2,
        ((a0 & 3) << 4) | (a1 >> 4) == ((c0 & 3) << 4) | (c1 >> 4),
        ((a1 & 15) << 2) | (a2 >> 6) == ((c1 & 15) << 2) | (c2 >> 6),
        a2 & 63 == c2 & 63,
    ensures
        a0 == c0,
        a1 == c1,
        a2 == c2,
{
}

/// Equal sextets come from equal bytes, for the tail.
proof fn lemma_tail_sextets_determine_byte(a: u8, c: u8)
    by (bit_vector)
    requires
        a >> 2 == c >> 2,
        (a & 3) << 4 == (c & 3) << 4,
    ensures
        a == c,
{
}

/// Equal renderings of full groups come from equal bytes.
proof fn lemma_group_inj(a0: u8, a1: u8, a2: u8, c0: u8, c1: u8, c2: u8)
    requires
        group_chars(a0, a1, a2) == group_chars(c0, c1, c2),
    ensures
        a0 == c0,
        a1 == c1,
        a2 == c2,
{
    lemma_sextets_bounded(a0, a1, a2);
    lemma_sextets_bounded(c0, c1, c2);
    assert(group_chars(a0, a1, a2)[0] == group_chars(c0, c1, c2)[0]);
    assert(group_chars(a0, a1, a2)[1] == group_chars(c0, c1, c2)[1]);
    assert(group_chars(a0, a1, a2)[2] == group_chars(c0, c1, c2)[2]);
    assert(group_chars(a0, a1, a2)[3] == group_chars(c0, c1, c2)[3]);
    lemma_sextet_char_injective((a0 >> 2) as int, (c0 >> 2) as int);
    lemma_sextet_char_injective(
        ((((a0 & 3) << 4) | (a1 >> 4))) as int,
        ((((c0 & 3) << 4) | (c1 >> 4))) as int,
    );
    lemma_sextet_char_injective(
        ((((a1 & 15) << 2) | (a2 >> 6))) as int,
        ((((c1 & 15) << 2) | (c2 >> 6))) as int,
    );
    lemma_sextet_char_injective((a2 & 63) as int, (c2 & 63) as int);
    lemma_group_sextets_determine_bytes(a0, a1, a2, c0, c1, c2);
}

/// Equal renderings of the tail come from equal bytes.
proof fn lemma_tail_inj(a: u8, c: u8)
    requires
        tail_chars(a) == tail_chars(c),
    ensures
        a == c,
{
    lemma_sextets_bounded(a, 0, 0);
    lemma_sextets_bounded(c, 0, 0);
    assert(tail_chars(a)[0] == tail_chars(c)[0]);
    assert(tail_chars(a)[1] == tail_chars(c)[1]);
    lemma_sextet_char_injective((a >> 2) as int, (c >> 2) as int);
    lemma_sextet_char_injective(((a & 3) << 4) as int, ((c & 3) << 4) as int);
    lemma_tail_sextets_determine_byte(a, c);
}

/// Renderings are injective: two 16-byte values with the same rendering are
/// equal.  Together with the contracts of `encode` and `decode` this is the
/// round-trip law — decoding the rendering of a value gives back that value.
pub proof fn lemma_encode16_injective(b1: Seq<u8>, b2: Seq<u8>)
    requires
        b1.len() == 16,
        b2.len() == 16,
        encode16(b1) == encode16(b2),
    ensures
        b1 == b2,
{
    assert forall|j: int| 0 <= j < 4 implies group_chars(b1[0], b1[1], b1[2])[j] == group_chars(
        b2[0],
        b2[1],
        b2[2],
    )[j] by {
        assert(encode16(b1)[j] == group_chars(b1[0], b1[1], b1[2])[j]);
        assert(encode16(b2)[j] == group_chars(b2[0], b2[1], b2[2])[j]);
    }
    assert(group_chars(b1[0], b1[1], b1[2]) =~= group_chars(b2[0], b2[1], b2[2]));
    assert forall|j: int| 0 <= j < 4 implies group_chars(b1[3], b1[4], b1[5])[j] == group_chars(
        b2[3],
        b2[4],
        b2[5],
    )[j] by {
        assert(encode16(b1)[j + 4] == group_chars(b1[3], b1[4], b1[5])[j]);
        assert(encode16(b2)[j + 4] == group_chars(b2[3], b2[4], b2[5])[j]);
    }
    assert(group_chars(b1[3], b1[4], b1[5]) =~= group_chars(b2[3], b2[4], b2[5]));
    assert forall|j: int| 0 <= j < 4 implies group_chars(b1[6], b1[7], b1[8])[j] == group_chars(
        b2[6],
        b2[7],
        b2[8],
    )[j] by {
        assert(encode16(b1)[j + 8] == group_chars(b1[6], b1[7], b1[8])[j]);
        assert(encode16(b2)[j + 8] == group_chars(b2[6], b2[7], b2[8])[j]);
    }
    assert(group_chars(b1[6], b1[7], b1[8]) =~= group_chars(b2[6], b2[7], b2[8]));
    assert forall|j: int| 0 <= j < 4 implies group_chars(b1[9], b1[10], b1[11])[j] == group_chars(
        b2[9],
        b2[10],
        b2[11],
    )[j] by {
        assert(encode16(b1)[j + 12] == group_chars(b1[9], b1[10], b1[11])[j]);
        assert(encode16(b2)[j + 12] == group_chars(b2[9], b2[10], b2[11])[j]);
    }
    assert(group_chars(b1[9], b1[10], b1[11]) =~= group_chars(b2[9], b2[10], b2[11]));
    assert forall|j: int| 0 <= j < 4 implies group_chars(b1[12], b1[13], b1[14])[j] == group_chars(
        b2[12],
        b2[13],
        b2[14],
    )[j] by {
        assert(encode16(b1)[j + 16] == group_chars(b1[12], b1[13], b1[14])[j]);
        assert(encode16(b2)[j + 16] == group_chars(b2[12], b2[13], b2[14])[j]);
    }
    assert(group_chars(b1[12], b1[13], b1[14]) =~= group_chars(b2[12], b2[13], b2[14]));
    assert forall|j: int| 0 <= j < 2 implies tail_chars(b1[15])[j] == tail_chars(b2[15])[j] by {
        assert(encode16(b1)[j + 20] == tail_chars(b1[15])[j]);
        assert(encode16(b2)[j + 20] == tail_chars(b2[15])[j]);
    }
    assert(tail_chars(b1[15]) =~= tail_chars(b2[15]));
    lemma_group_inj(b1[0], b1[1], b1[2], b2[0], b2[1], b2[2]);
    lemma_group_inj(b1[3], b1[4], b1[5], b2[3], b2[4], b2[5]);
    lemma_group_inj(b1[6], b1[7], b1[8], b2[6], b2[7], b2[8]);
    lemma_group_inj(b1[9], b1[10], b1[11], b2[9], b2[10], b2[11]);
    lemma_group_inj(b1[12], b1[13], b1[14], b2[12], b2[13], b2[14]);
    lemma_tail_inj(b1[15], b2[15]);
    assert(b1 =~= b2);
}

/// The rendering of a 16-byte value decodes to that value and nothing else.
pub proof fn lemma_round_trip(b: Seq<u8>)
    requires
        b.len() == 16,
    ensures
        is_encoded_id(encode16(b)),
        decoded_id(encode16(b)) == b,
{
    assert(is_encoded_id(encode16(b)));
    let w = decoded_id(encode16(b));
    lemma_encode16_injective(w, b);
}

/// A sextet decoded from a group's first or second byte position.
proof fn lemma_group_recover(a: u8, b: u8, c: u8, d: u8, x: u8, y: u8, z: u8)
    by (bit_vector)
    requires
        a < 64,
        b < 64,
        c < 64,
        d < 64,
        x == (a << 2) | (b >> 4),
        y == ((b & 15) << 4) | (c >> 2),
        z == ((c & 3) << 6) | d,
    ensures
        x >> 2 == a,
        ((x & 3) << 4) | (y >> 4) == b,
        ((y & 15) << 2) | (z >> 6) == c,
        z & 63 == d,
{
}

/// The tail byte rebuilt from its two sextets yields them back.
proof fn lemma_tail_recover(a: u8, b: u8, x: u8)
    by (bit_vector)
    requires
        a < 64,
        b < 64,
        b & 15 == 0,
        x == (a << 2) | (b >> 4),
    ensures
        x >> 2 == a,
        (x & 3) << 4 == b,
{
}

/// Appends the three bytes a full group of four sextets stands for.
fn push_group_bytes(bytes: &mut Vec<u8>, a: u8, b: u8, c: u8, d: u8)
    ensures
        final(bytes)@ == old(bytes)@ + seq![
            (a << 2) | (b >> 4),
            ((b & 15) << 4) | (c >> 2),
            ((c & 3) << 6) | d,
        ],
{
    bytes.push((a << 2) | (b >> 4));
    bytes.push(((b & 15) << 4) | (c >> 2));
    bytes.push(((c & 3) << 6) | d);
    assert(bytes@ =~= old(bytes)@ + seq![
        (a << 2) | (b >> 4),
        ((b & 15) << 4) | (c >> 2),
        ((c & 3) << 6) | d,
    ]);
}

/// An opaque 16-byte session identifier.
pub struct SessionId {
    bytes: Vec<u8>,
}

impl View for SessionId {
    type V = Seq<u8>;

    closed spec fn view(&self) -> Seq<u8> {
        self.bytes@
    }
}

impl SessionId {
    /// A well-formed identifier holds exactly 16 bytes.
    pub open spec fn wf(&self) -> bool {
        self@.len() == 16
    }

    /// Wraps 16 raw bytes as an identifier.
    pub fn from_bytes(bytes: Vec<u8>) -> (r: SessionId)
        requires
            bytes@.len() == 16,
        ensures
            r@ == bytes@,
            r.wf(),
    {
        SessionId { bytes }
    }

    /// An identical copy of the identifier.
    pub fn duplicate(&self) -> (r: SessionId)
        ensures
            r@ == self@,
    {
        SessionId { bytes: self.bytes.clone() }
    }

    /// The identifier's raw bytes.
    pub fn to_bytes(&self) -> (r: Vec<u8>)
        ensures
            r@ == self@,
    {
        self.bytes.clone()
    }

    /// Do two identifiers hold the same bytes?
    pub fn same_as(&self, other: &SessionId) -> (r: bool)
        ensures
            r <==> self@ == other@,
    {
        if self.bytes.len() != other.bytes.len() {
            return false;
        }
        let mut i: usize = 0;
        while i < self.bytes.len()
            invariant
                self@.len() == other@.len(),
                i <= self@.len(),
                forall|j: int| 0 <= j < i ==> self@[j] == other@[j],
            decreases self@.len() - i,
        {
            if self.bytes[i] != other.bytes[i] {
                return false;
            }
            i += 1;
        }
        proof {
            assert(self@ =~= other@);
        }
        true
    }

    /// Renders the identifier as its 22-character URL-safe base64 string.
    pub fn encode(&self) -> (r: String)
        requires
            self.wf(),
        ensures
            r@ == encode16(self@),
    {
        let mut out = String::new();
        push_group(&mut out, self.bytes[0], self.bytes[1], self.bytes[2]);
        push_group(&mut out, self.bytes[3], self.bytes[4], self.bytes[5]);
        push_group(&mut out, self.bytes[6], self.bytes[7], self.bytes[8]);
        push_group(&mut out, self.bytes[9], self.bytes[10], self.bytes[11]);
        push_group(&mut out, self.bytes[12], self.bytes[13], self.bytes[14]);
        let b15 = self.bytes[15];
        proof {
            lemma_sextets_bounded(b15, 0, 0);
        }
        push_char(&mut out, sextet_to_char(b15 >> 2));
        push_char(&mut out, sextet_to_char((b15 & 3) << 4));
        assert(out@ =~= encode16(self@));
        out
    }

    /// Decodes a 22-character URL-safe base64 string into an identifier.
    ///
    /// Accepts exactly the strings `encode` produces: anything of another
    /// length, with a character outside the alphabet, or with stray bits in
    /// the final character is rejected as malformed — never truncated or
    /// padded.
    pub fn decode(s: &str) -> (r: Result<SessionId, SessionError>)
        ensures
            r matches Ok(id) ==> id.wf() && encode16(id@) == s@ && decoded_id(s@) == id@,
            r is Ok <==> is_encoded_id(s@),
            r matches Err(e) ==> e == SessionError::MalformedId,
    {
        let n = s.unicode_len();
        if n != 22 {
            proof {
                assert forall|b: Seq<u8>| b.len() == 16 implies encode16(b) != s@ by {
                    assert(encode16(b).len() == 22);
                }
            }
            return Err(SessionError::MalformedId);
        }
        let mut vals: Vec<u8> = Vec::new();
        let mut i: usize = 0;
        while i < 22
            invariant
                s@.len() == 22,
                i <= 22,
                vals@.len() == i,
                forall|j: int|
                    0 <= j < i ==> (#[trigger] vals@[j]) < 64 && char_sextet(s@[j]) == vals@[j] as int
                        && s@[j] == sextet_char(vals@[j] as int),
            decreases 22 - i,
        {
            let c = s.get_char(i);
            match char_to_sextet(c) {
                Some(v) => {
                    proof {
                        lemma_char_sextet_inverse(c);
                    }
                    vals.push(v);
                },
                None => {
                    proof {
                        assert forall|b: Seq<u8>| b.len() == 16 implies encode16(b) != s@ by {
                            lemma_encode16_chars_valid(b);
                            if encode16(b) == s@ {
                                assert(is_base64url_char(encode16(b)[i as int]));
                            }
                        }
                    }
                    return Err(SessionError::MalformedId);
                },
            }
            i += 1;
        }
        let v21 = vals[21];
        if v21 & 15 != 0 {
            proof {
                assert forall|b: Seq<u8>| b.len() == 16 implies encode16(b) != s@ by {
                    if encode16(b) == s@ {
                        let t = b[15];
                        lemma_sextets_bounded(t, 0, 0);
                        assert(encode16(b)[21] == tail_chars(t)[1]);
                        lemma_sextet_char_inverse(((t & 3) << 4) as int);
                        assert(vals@[21] as int == char_sextet(sextet_char(((t & 3) << 4) as int)));
                        assert(vals@[21] & 15 == 0);
                    }
                }
            }
            return Err(SessionError::MalformedId);
        }
        let mut bytes: Vec<u8> = Vec::new();
        push_group_bytes(&mut bytes, vals[0], vals[1], vals[2], vals[3]);
        push_group_bytes(&mut bytes, vals[4], vals[5], vals[6], vals[7]);
        push_group_bytes(&mut bytes, vals[8], vals[9], vals[10], vals[11]);
        push_group_bytes(&mut bytes, vals[12], vals[13], vals[14], vals[15]);
        push_group_bytes(&mut bytes, vals[16], vals[17], vals[18], vals[19]);
        let b15 = (vals[20] << 2) | (vals[21] >> 4);
        bytes.push(b15);
        proof {
            let bs = bytes@;
            assert(bs.len() == 16);
            lemma_group_recover(vals@[0], vals@[1], vals@[2], vals@[3], bs[0], bs[1], bs[2]);
            lemma_group_recover(vals@[4], vals@[5], vals@[6], vals@[7], bs[3], bs[4], bs[5]);
            lemma_group_recover(vals@[8], vals@[9], vals@[10], vals@[11], bs[6], bs[7], bs[8]);
            lemma_group_recover(vals@[12], vals@[13], vals@[14], vals@[15], bs[9], bs[10], bs[11]);
            lemma_group_recover(vals@[16], vals@[17], vals@[18], vals@[19], bs[12], bs[13], bs[14]);
            lemma_tail_recover(vals@[20], vals@[21], bs[15]);
            assert(s@ =~= encode16(bs));
        }
        let id = SessionId::from_bytes(bytes);
        proof {
            assert(is_encoded_id(s@));
            let w = decoded_id(s@);
            lemma_encode16_injective(w, id@);
        }
        Ok(id)
    }
}

} // verus!
