//! Content hashes: BLAKE3 digests of byte strings and their hex text form.

use vstd::prelude::*;

use crate::text::{decimal_chars, push_str, spec_decimal, string_of};
use vstd::string::StringSliceAdditionalSpecFns;
use vstd::utf8::encode_utf8;

verus! {

/// The BLAKE3 digest of `data` (32 bytes), as computed by the `blake3` crate.
pub uninterp spec fn blake3_digest(data: Seq<u8>) -> Seq<u8>;

/// `blake3::hash`: the 32-byte BLAKE3 digest of `data`.
/// Trusted: the digest is `blake3_digest(data)`, a function of the input alone.
#[verifier::external_body]
fn blake3_hash(data: &[u8]) -> (r: [u8; 32])
    ensures
        r@ == blake3_digest(data@),
{
    *blake3::hash(data).as_bytes()
}

/// A 32-byte content hash (BLAKE3 of the content's bytes).
#[derive(Clone, Copy, PartialEq, Eq, Hash, Debug)]
pub struct ContentHash(pub [u8; 32]);

/// The lower-case hex digit for a nibble `n < 16`.
pub open spec fn hex_digit(n: int) -> char {
    if n < 10 {
        ((48 + n) as u8) as char
    } else {
        ((87 + n) as u8) as char
    }
}

/// Lower-case hex text of `bytes`: two digits per byte, high nibble first.
pub open spec fn spec_hex(bytes: Seq<u8>) -> Seq<char> {
    Seq::new(
        2 * bytes.len(),
        |i: int|
            if i % 2 == 0 {
                hex_digit((bytes[i / 2] / 16) as int)
            } else {
                hex_digit((bytes[i / 2] % 16) as int)
            },
    )
}

/// The value of a hex digit byte (`0-9`, `a-f`, `A-F`), if it is one.
pub open spec fn spec_nibble(c: u8) -> Option<u8> {
    if 48 <= c <= 57 {
        Some((c - 48) as u8)
    } else if 97 <= c <= 102 {
        Some((c - 87) as u8)
    } else if 65 <= c <= 70 {
        Some((c - 55) as u8)
    } else {
        None
    }
}

/// The message for a byte that is not a hex digit.
pub open spec fn bad_hex_char_msg(c: u8) -> Seq<char> {
    "invalid hex character: "@.push(c as char)
}

/// The message for a hash text of the wrong length.
pub open spec fn bad_hex_len_msg(len: nat) -> Seq<char> {
    "hash must be 64 hex chars (got "@ + spec_decimal(len) + ")"@
}

/// The index of the first byte at or after `j` that is not a hex digit.
pub open spec fn first_non_hex(b: Seq<u8>, j: int) -> Option<int>
    decreases b.len() - j,
{
    if j < 0 || j >= b.len() {
        None
    } else if spec_nibble(b[j]) is None {
        Some(j)
    } else {
        first_non_hex(b, j + 1)
    }
}

/// What parsing the hex text `b` gives: the 32 bytes, or the error message.
pub open spec fn spec_parse_hex(b: Seq<u8>) -> Result<Seq<u8>, Seq<char>> {
    if b.len() != 64 {
        Err(bad_hex_len_msg(b.len()))
    } else {
        match first_non_hex(b, 0) {
            Some(j) => Err(bad_hex_char_msg(b[j])),
            None => Ok(
                Seq::new(
                    32,
                    |i: int| (spec_nibble(b[2 * i])->0 * 16 + spec_nibble(b[2 * i + 1])->0) as u8,
                ),
            ),
        }
    }
}

proof fn lemma_first_non_hex_none(b: Seq<u8>, j: int, k: int)
    requires
        0 <= j <= k < b.len(),
        first_non_hex(b, j) is None,
    ensures
        spec_nibble(b[k]) is Some,
    decreases k - j,
{
    if j < k {
        lemma_first_non_hex_none(b, j + 1, k);
    }
}

proof fn lemma_first_non_hex_skip(b: Seq<u8>, j: int, k: int)
    requires
        0 <= j <= k <= b.len(),
        forall|i: int| j <= i < k ==> spec_nibble(#[trigger] b[i]) is Some,
    ensures
        first_non_hex(b, j) == first_non_hex(b, k),
    decreases k - j,
{
    if j < k {
        lemma_first_non_hex_skip(b, j + 1, k);
    }
}


/// The ASCII lower-case form of a byte.
pub open spec fn ascii_lower_byte(c: u8) -> u8 {
    if 65 <= c <= 90 {
        (c + 32) as u8
    } else {
        c
    }
}

/// The hex digit of a hex byte's nibble is the byte in lower case.
proof fn lemma_nibble_digit(c: u8)
    requires
        spec_nibble(c) is Some,
    ensures
        spec_nibble(c)->0 < 16,
        hex_digit(spec_nibble(c)->0 as int) == ascii_lower_byte(c) as char,
{
}

/// Parsing hex text succeeds exactly on 64 hex digits (either case), and
/// the hash it gives prints back as the text in lower case.
pub proof fn lemma_parse_hex_exact(b: Seq<u8>)
    ensures
        spec_parse_hex(b) is Ok <==> (b.len() == 64 && forall|i: int|
            0 <= i < 64 ==> spec_nibble(#[trigger] b[i]) is Some),
        spec_parse_hex(b) matches Ok(v) ==> v.len() == 32 && spec_hex(v) == b.map_values(
            |c: u8| ascii_lower_byte(c) as char,
        ),
{
    if b.len() == 64 {
        if forall|i: int| 0 <= i < 64 ==> spec_nibble(#[trigger] b[i]) is Some {
            lemma_first_non_hex_skip(b, 0, 64);
        } else {
            let i = choose|i: int| 0 <= i < 64 && !(spec_nibble(#[trigger] b[i]) is Some);
            if first_non_hex(b, 0) is None {
                lemma_first_non_hex_none(b, 0, i);
            }
        }
        match spec_parse_hex(b) {
            Ok(v) => {
                let lower = b.map_values(|c: u8| ascii_lower_byte(c) as char);
                assert forall|k: int| 0 <= k < 64 implies #[trigger] spec_hex(v)[k] == lower[k] by {
                    let i = k / 2;
                    lemma_first_non_hex_none(b, 0, 2 * i);
                    lemma_first_non_hex_none(b, 0, 2 * i + 1);
                    lemma_nibble_digit(b[2 * i]);
                    lemma_nibble_digit(b[2 * i + 1]);
                    let hi = spec_nibble(b[2 * i])->0;
                    let lo = spec_nibble(b[2 * i + 1])->0;
                    assert(v[i] == (hi * 16 + lo) as u8);
                    assert(v[i] / 16 == hi);
                    assert(v[i] % 16 == lo);
                    if k % 2 == 0 {
                        assert(k == 2 * i);
                    } else {
                        assert(k == 2 * i + 1);
                    }
                }
                assert(spec_hex(v) =~= lower);
            },
            Err(_) => {},
        }
    }
}

/// Each hex digit is an ASCII character whose byte reads back as its nibble.
proof fn lemma_hex_digit(n: int)
    requires
        0 <= n < 16,
    ensures
        '\0' <= hex_digit(n) <= '\u{7f}',
        spec_nibble(hex_digit(n) as u8) == Some(n as u8),
{
}

/// The hex text of a hash is ASCII, two characters per byte.
pub proof fn lemma_hex_ascii(bytes: Seq<u8>)
    ensures
        vstd::utf8::is_ascii_chars(spec_hex(bytes)),
        encode_utf8(spec_hex(bytes)) == Seq::new(
            spec_hex(bytes).len(),
            |i: int| spec_hex(bytes)[i] as u8,
        ),
{
    let cs = spec_hex(bytes);
    assert forall|i: int| 0 <= i < cs.len() implies '\0' <= #[trigger] cs[i] <= '\u{7f}' by {
        lemma_hex_digit((bytes[i / 2] / 16) as int);
        lemma_hex_digit((bytes[i / 2] % 16) as int);
    }
    vstd::utf8::is_ascii_chars_encode_utf8(cs);
    assert(encode_utf8(cs) =~= Seq::new(cs.len(), |i: int| cs[i] as u8));
}

/// Parsing the hex text of a hash gives the same hash back.
pub proof fn lemma_hex_roundtrip(h: ContentHash)
    ensures
        spec_parse_hex(encode_utf8(spec_hex(h.0@))) == Ok::<Seq<u8>, Seq<char>>(h.0@),
{
    let bytes = h.0@;
    let cs = spec_hex(bytes);
    lemma_hex_ascii(bytes);
    let b = encode_utf8(cs);
    assert(b.len() == 64);
    assert forall|k: int| 0 <= k < 64 implies spec_nibble(#[trigger] b[k]) is Some by {
        lemma_hex_digit((bytes[k / 2] / 16) as int);
        lemma_hex_digit((bytes[k / 2] % 16) as int);
    }
    lemma_first_non_hex_skip(b, 0, 64);
    let parsed = spec_parse_hex(b)->Ok_0;
    assert forall|i: int| 0 <= i < 32 implies #[trigger] parsed[i] == bytes[i] by {
        lemma_hex_digit((bytes[i] / 16) as int);
        lemma_hex_digit((bytes[i] % 16) as int);
        assert(b[2 * i] == hex_digit((bytes[i] / 16) as int) as u8);
        assert(b[2 * i + 1] == hex_digit((bytes[i] % 16) as int) as u8);
    }
    assert(parsed =~= bytes);
}

/// Distinct byte strings have distinct hex texts.
pub proof fn lemma_hex_injective(a: Seq<u8>, b: Seq<u8>)
    requires
        spec_hex(a) == spec_hex(b),
    ensures
        a == b,
{
    assert(spec_hex(a).len() == 2 * a.len());
    assert(spec_hex(b).len() == 2 * b.len());
    assert(a.len() == b.len());
    assert forall|i: int| 0 <= i < a.len() implies a[i] == b[i] by {
        lemma_hex_digit((a[i] / 16) as int);
        lemma_hex_digit((a[i] % 16) as int);
        lemma_hex_digit((b[i] / 16) as int);
        lemma_hex_digit((b[i] % 16) as int);
        assert(spec_hex(a)[2 * i] == spec_hex(b)[2 * i]);
        assert(spec_hex(a)[2 * i + 1] == spec_hex(b)[2 * i + 1]);
        assert(spec_hex(a)[2 * i] == hex_digit((a[i] / 16) as int));
        assert(spec_hex(b)[2 * i] == hex_digit((b[i] / 16) as int));
        assert(spec_hex(a)[2 * i + 1] == hex_digit((a[i] % 16) as int));
        assert(spec_hex(b)[2 * i + 1] == hex_digit((b[i] % 16) as int));
        assert(a[i] / 16 == b[i] / 16);
        assert(a[i] % 16 == b[i] % 16);
    }
    assert(a =~= b);
}

impl ContentHash {
    /// The hash of `bytes`.
    pub fn of(bytes: &[u8]) -> (r: ContentHash)
        ensures
            r.0@ == blake3_digest(bytes@),
    {
        ContentHash(blake3_hash(bytes))
    }

    /// Lower-case hex text of the hash (64 characters).
    pub fn to_hex(&self) -> (r: String)
        ensures
            r@ == spec_hex(self.0@),
            r@.len() == 64,
    {
        let mut out: Vec<char> = Vec::new();
        let mut i: usize = 0;
        while i < 32
            invariant
                0 <= i <= 32,
                self.0@.len() == 32,
                out@ == spec_hex(self.0@.subrange(0, i as int)),
            decreases 32 - i,
        {
            let b: u8 = self.0[i];
            out.push(hex_char(b / 16));
            out.push(hex_char(b % 16));
            i = i + 1;
            assert(out@ =~= spec_hex(self.0@.subrange(0, i as int)));
        }
        assert(self.0@.subrange(0, 32) == self.0@);
        string_of(&out)
    }
}

/// Whether two hashes hold the same bytes.
pub fn same_hash(a: &ContentHash, b: &ContentHash) -> (r: bool)
    ensures
        r == (a.0@ == b.0@),
{
    let mut i: usize = 0;
    while i < 32
        invariant
            0 <= i <= 32,
            a.0@.len() == 32,
            b.0@.len() == 32,
            forall|k: int| 0 <= k < i ==> a.0@[k] == b.0@[k],
        decreases 32 - i,
    {
        if a.0[i] != b.0[i] {
            return false;
        }
        i = i + 1;
    }
    assert(a.0@ =~= b.0@);
    true
}

/// The lower-case hex digit for `n < 16`.
fn hex_char(n: u8) -> (c: char)
    requires
        n < 16,
    ensures
        c == hex_digit(n as int),
{
    if n < 10 {
        (48u8 + n) as char
    } else {
        (87u8 + n) as char
    }
}

/// The value of the hex digit byte `c`, or an error naming the character.
pub fn hex_nibble(c: u8) -> (r: Result<u8, String>)
    ensures
        match spec_nibble(c) {
            Some(v) => r == Ok::<u8, String>(v),
            None => r is Err && r->Err_0@ == bad_hex_char_msg(c),
        },
{
    if 48 <= c && c <= 57 {
        Ok(c - 48)
    } else if 97 <= c && c <= 102 {
        Ok(c - 87)
    } else if 65 <= c && c <= 70 {
        Ok(c - 55)
    } else {
        let mut msg: Vec<char> = Vec::new();
        push_str(&mut msg, "invalid hex character: ");
        msg.push(c as char);
        Err(string_of(&msg))
    }
}

/// Parses a 64-character hex hash (either letter case).
pub fn parse_hex_hash(hex: &str) -> (r: Result<ContentHash, String>)
    ensures
        match spec_parse_hex(hex.spec_bytes()) {
            Ok(v) => r is Ok && r->Ok_0.0@ == v,
            Err(m) => r is Err && r->Err_0@ == m,
        },
{
    let b: &[u8] = hex.as_bytes();
    if b.len() != 64 {
        let mut msg: Vec<char> = Vec::new();
        push_str(&mut msg, "hash must be 64 hex chars (got ");
        let d = decimal_chars(b.len() as u64);
        crate::text::push_chars(&mut msg, &d);
        push_str(&mut msg, ")");
        return Err(string_of(&msg));
    }
    let ghost bs = b@;
    let mut out: [u8; 32] = [0u8; 32];
    let mut i: usize = 0;
    while i < 32
        invariant
            0 <= i <= 32,
            b@ == bs,
            bs.len() == 64,
            bs == hex.spec_bytes(),
            out@.len() == 32,
            forall|k: int| 0 <= k < 2 * i ==> spec_nibble(#[trigger] bs[k]) is Some,
            forall|k: int|
                0 <= k < i ==> #[trigger] out@[k] == (spec_nibble(bs[2 * k])->0 * 16 + spec_nibble(
                    bs[2 * k + 1],
                )->0) as u8,
        decreases 32 - i,
    {
        let hi = match hex_nibble(b[2 * i]) {
            Ok(v) => v,
            Err(e) => {
                proof {
                    lemma_first_non_hex_skip(bs, 0, 2 * i as int);
                }
                return Err(e);
            },
        };
        let lo = match hex_nibble(b[2 * i + 1]) {
            Ok(v) => v,
            Err(e) => {
                proof {
                    lemma_first_non_hex_skip(bs, 0, 2 * i + 1);
                }
                return Err(e);
            },
        };
        out[i] = hi * 16 + lo;
        i = i + 1;
    }
    proof {
        lemma_first_non_hex_skip(bs, 0, 64);
        assert(out@ =~= spec_parse_hex(bs)->Ok_0);
    }
    Ok(ContentHash(out))
}

} // verus!
