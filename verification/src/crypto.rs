//! AES-128-CBC decryption of HLS segments (`#EXT-X-KEY:METHOD=AES-128`): the IV
//! attribute, the IV derived from the media sequence number, and the fallback from
//! PKCS#7 padding to unpadded decryption.
use vstd::prelude::*;
use crate::text::{chars_of, is_ws, trim, trim_chars, trim_end, trim_start};
use vstd::utf8::{encode_scalar, encode_utf8, is_ascii_chars, is_ascii_chars_encode_utf8};
use cbc::cipher::block_padding::{NoPadding, Pkcs7};
use cbc::cipher::{BlockDecryptMut, KeyIvInit};

verus! {

/// What AES-128-CBC decryption with PKCS#7 unpadding gives for `data` under `key` and
/// `iv` (`None` when the `cbc`/`aes` crates report an error).
pub uninterp spec fn aes128_cbc_pkcs7(key: Seq<u8>, iv: Seq<u8>, data: Seq<u8>) -> Option<Seq<u8>>;

/// What AES-128-CBC decryption without unpadding gives for `data` under `key` and `iv`
/// (`None` when the `cbc`/`aes` crates report an error).
pub uninterp spec fn aes128_cbc_unpadded(key: Seq<u8>, iv: Seq<u8>, data: Seq<u8>) -> Option<
    Seq<u8>,
>;

/// The bytes that an optional vector holds.
pub open spec fn bytes_of(r: Option<Vec<u8>>) -> Option<Seq<u8>> {
    match r {
        Some(v) => Some(v@),
        None => None,
    }
}

/// Decrypts with PKCS#7 unpadding.
///
/// Trusted: `cbc::Decryptor::<aes::Aes128>::new_from_slices` then
/// `decrypt_padded_mut::<Pkcs7>`. Their source shows: construction fails unless key
/// and IV are 16 bytes; decryption fails unless the data is a non-empty multiple of 16
/// bytes (and the padding is valid), and the unpadded plaintext is shorter than the data
/// by 1 to 16 bytes. The plaintext itself is named, not stated.
#[verifier::external_body]
fn decrypt_pkcs7(key: &[u8], iv: &[u8], data: &[u8]) -> (r: Option<Vec<u8>>)
    ensures
        bytes_of(r) == aes128_cbc_pkcs7(key@, iv@, data@),
        r matches Some(p) ==> key@.len() == 16 && iv@.len() == 16 && data@.len() % 16 == 0
            && data@.len() > 0 && p@.len() < data@.len() && p@.len() + 16 >= data@.len(),
{
    let mut buf = data.to_vec();
    let dec = cbc::Decryptor::<aes::Aes128>::new_from_slices(key, iv).ok()?;
    dec.decrypt_padded_mut::<Pkcs7>(&mut buf).ok().map(|p| p.to_vec())
}

/// Decrypts without unpadding.
///
/// Trusted: `cbc::Decryptor::<aes::Aes128>::new_from_slices` then
/// `decrypt_padded_mut::<NoPadding>`. Their source shows that this succeeds exactly
/// when key and IV are 16 bytes and the data is a multiple of 16 bytes, and that the
/// plaintext is as long as the data. The plaintext itself is named, not stated.
#[verifier::external_body]
fn decrypt_unpadded(key: &[u8], iv: &[u8], data: &[u8]) -> (r: Option<Vec<u8>>)
    ensures
        bytes_of(r) == aes128_cbc_unpadded(key@, iv@, data@),
        r is Some <==> (key@.len() == 16 && iv@.len() == 16 && data@.len() % 16 == 0),
        r matches Some(p) ==> p@.len() == data@.len(),
{
    let mut buf = data.to_vec();
    let dec = cbc::Decryptor::<aes::Aes128>::new_from_slices(key, iv).ok()?;
    dec.decrypt_padded_mut::<NoPadding>(&mut buf).ok().map(|p| p.to_vec())
}

/// Why decryption failed.
#[derive(Debug, Clone, Copy, PartialEq, Eq, Structural)]
pub enum DecryptError {
    /// The key is not 16 bytes long, so no decryptor could be built.
    InvalidKeyLength,
    /// The data could not be decrypted.
    Failed,
}

/// The outcome of decrypting `data`: PKCS#7-padded plaintext when the padding is valid,
/// else, for data that is a multiple of 16 bytes, the unpadded plaintext.
pub open spec fn decrypt_spec(data: Seq<u8>, key: Seq<u8>, iv: Seq<u8>) -> Result<Seq<u8>, DecryptError> {
    match aes128_cbc_pkcs7(key, iv, data) {
        Some(p) => Ok(p),
        None => if key.len() != 16 || iv.len() != 16 {
            Err(DecryptError::InvalidKeyLength)
        } else if data.len() % 16 == 0 {
            match aes128_cbc_unpadded(key, iv, data) {
                Some(q) => Ok(q),
                None => Err(DecryptError::Failed),
            }
        } else {
            Err(DecryptError::Failed)
        },
    }
}

/// Decrypts an AES-128-CBC segment: with PKCS#7 padding when that succeeds, otherwise
/// (for data that is a multiple of the block size) without unpadding.
pub fn decrypt_aes128_cbc(data: &[u8], key: &[u8], iv: &[u8]) -> (r: Result<Vec<u8>, DecryptError>)
    ensures
        result_bytes(r) == decrypt_spec(data@, key@, iv@),
        // with a 16-byte key and IV, block-aligned data always decrypts, to no more bytes
        key@.len() == 16 && iv@.len() == 16 && data@.len() % 16 == 0 ==> r is Ok && r->Ok_0@.len()
            <= data@.len(),
        r matches Ok(p) ==> p@.len() <= data@.len(),
{
    match decrypt_pkcs7(key, iv, data) {
        Some(p) => Ok(p),
        None => {
            if key.len() != 16 || iv.len() != 16 {
                Err(DecryptError::InvalidKeyLength)
            } else if data.len() % 16 == 0 {
                match decrypt_unpadded(key, iv, data) {
                    Some(q) => Ok(q),
                    None => Err(DecryptError::Failed),
                }
            } else {
                Err(DecryptError::Failed)
            }
        },
    }
}

// ---------------------------------------------------------------------------
// Initialisation vectors
// ---------------------------------------------------------------------------

/// Why an `IV` attribute could not be read.
#[derive(Debug, Clone, Copy, PartialEq, Eq, Structural)]
pub enum IvError {
    /// The hexadecimal text is not 32 characters long.
    InvalidLength,
    /// A pair of characters is not a hexadecimal byte.
    InvalidHex,
}

/// Whether `c` is a hexadecimal digit.
pub open spec fn is_hex(c: char) -> bool {
    ('0' <= c && c <= '9') || ('a' <= c && c <= 'f') || ('A' <= c && c <= 'F')
}

/// The value of the hexadecimal digit `c`.
pub open spec fn hex_value(c: char) -> nat {
    if '0' <= c && c <= '9' {
        (c as int - '0' as int) as nat
    } else if 'a' <= c && c <= 'f' {
        (c as int - 'a' as int + 10) as nat
    } else {
        (c as int - 'A' as int + 10) as nat
    }
}

/// Whether two characters read as a byte by `u8::from_str_radix(_, 16)`: two hex digits,
/// or `+` followed by one.
pub open spec fn is_hex_pair(a: char, b: char) -> bool {
    (is_hex(a) || a == '+') && is_hex(b)
}

/// The byte that a pair reading as one denotes.
pub open spec fn hex_pair_value(a: char, b: char) -> nat {
    if a == '+' {
        hex_value(b)
    } else {
        hex_value(a) * 16 + hex_value(b)
    }
}

/// The text of an IV attribute without surrounding whitespace and `0x`/`0X`.
pub open spec fn iv_hex(v: Seq<char>) -> Seq<char> {
    let t = trim(v);
    if t.len() >= 2 && t[0] == '0' && (t[1] == 'x' || t[1] == 'X') {
        t.subrange(2, t.len() as int)
    } else {
        t
    }
}

/// Byte `k` of the 16-byte big-endian IV that a media sequence number gives.
pub open spec fn sequence_iv_byte(n: u64, k: int) -> u8 {
    if k < 8 {
        0
    } else {
        ((n >> (8 * (15 - k)) as u64) & 0xff) as u8
    }
}

/// The IV of a segment: the 32 hexadecimal digits of its `IV` attribute, or, without
/// one, its media sequence number as a big-endian 128-bit number. The attribute, once
/// trimmed and rid of `0x`, must be 32 bytes long in UTF-8 (`str::len`), and each pair
/// of its characters a hexadecimal byte.
pub open spec fn iv_bytes_spec(iv: Option<Seq<char>>, media_sequence: u64) -> Result<Seq<u8>, IvError> {
    match iv {
        None => Ok(Seq::new(16, |k: int| sequence_iv_byte(media_sequence, k))),
        Some(v) => {
            let h = iv_hex(v);
            if encode_utf8(h).len() != 32 {
                Err(IvError::InvalidLength)
            } else if h.len() == 32 && forall|k: int| 0 <= k < 16 ==> #[trigger] is_hex_pair(h[2 * k], h[2 * k + 1]) {
                Ok(Seq::new(16, |k: int| hex_pair_value(h[2 * k], h[2 * k + 1]) as u8))
            } else {
                Err(IvError::InvalidHex)
            }
        },
    }
}

/// The bytes that a result holds.
pub open spec fn result_bytes<E>(r: Result<Vec<u8>, E>) -> Result<Seq<u8>, E> {
    match r {
        Ok(v) => Ok(v@),
        Err(e) => Err(e),
    }
}

/// The view of an optional string slice.
pub open spec fn opt_text(o: Option<&str>) -> Option<Seq<char>> {
    match o {
        Some(s) => Some(s@),
        None => None,
    }
}

fn hex_digit(c: char) -> (r: Option<u8>)
    ensures
        match r {
            Some(v) => is_hex(c) && v as nat == hex_value(c),
            None => !is_hex(c),
        },
{
    if '0' <= c && c <= '9' {
        Some((c as u32 - '0' as u32) as u8)
    } else if 'a' <= c && c <= 'f' {
        Some((c as u32 - 'a' as u32 + 10) as u8)
    } else if 'A' <= c && c <= 'F' {
        Some((c as u32 - 'A' as u32 + 10) as u8)
    } else {
        None
    }
}

/// The number of bytes of the UTF-8 encoding of `c`.
fn utf8_width(c: char) -> (r: usize)
    ensures
        r == encode_utf8(seq![c]).len(),
{
    let v = c as u32;
    assert(encode_utf8(seq![c]) =~= encode_scalar(c as u32) + encode_utf8(seq![c].drop_first()));
    assert(encode_utf8(seq![c].drop_first()) =~= Seq::<u8>::empty());
    if v <= 0x7f {
        1
    } else if v <= 0x7ff {
        2
    } else if v <= 0xffff {
        3
    } else {
        4
    }
}

/// Whether the UTF-8 encoding of `cs[from..]` is `n` bytes long.
fn encoded_len_is(cs: &[char], from: usize, n: usize) -> (r: bool)
    requires
        from <= cs@.len(),
        n < usize::MAX - 4,
    ensures
        r == (encode_utf8(cs@.subrange(from as int, cs@.len() as int)).len() == n),
{
    let ghost total = encode_utf8(cs@.subrange(from as int, cs@.len() as int)).len();
    let mut acc: usize = 0;
    let mut i: usize = from;
    while i < cs.len()
        invariant
            from <= i <= cs@.len(),
            n < usize::MAX - 4,
            acc <= n,
            total == encode_utf8(cs@.subrange(from as int, cs@.len() as int)).len(),
            acc + encode_utf8(cs@.subrange(i as int, cs@.len() as int)).len() == total,
        decreases cs@.len() - i,
    {
        let ghost rest = cs@.subrange(i as int, cs@.len() as int);
        assert(rest.drop_first() =~= cs@.subrange(i + 1, cs@.len() as int));
        assert(rest[0] == cs@[i as int]);
        assert(encode_utf8(seq![cs@[i as int]]) =~= encode_scalar(cs@[i as int] as u32) + encode_utf8(
            seq![cs@[i as int]].drop_first(),
        ));
        assert(encode_utf8(seq![cs@[i as int]].drop_first()) =~= Seq::<u8>::empty());
        acc = acc + utf8_width(cs[i]);
        i = i + 1;
        if acc > n {
            return false;
        }
    }
    assert(cs@.subrange(i as int, cs@.len() as int) =~= Seq::<char>::empty());
    acc == n
}

/// The IV for AES-128 decryption of a segment (see `iv_bytes_spec`).
pub fn parse_iv(iv: Option<&str>, media_sequence: u64) -> (r: Result<Vec<u8>, IvError>)
    ensures
        result_bytes(r) == iv_bytes_spec(opt_text(iv), media_sequence),
{
    match iv {
        None => {
            let mut bytes: Vec<u8> = Vec::new();
            let mut k: usize = 0;
            while k < 16
                invariant
                    k <= 16,
                    bytes@.len() == k,
                    forall|j: int| 0 <= j < k ==> #[trigger] bytes@[j] == sequence_iv_byte(media_sequence, j),
                decreases 16 - k,
            {
                let b: u8 = if k < 8 {
                    0
                } else {
                    ((media_sequence >> (8 * (15 - k)) as u64) & 0xff) as u8
                };
                bytes.push(b);
                k = k + 1;
            }
            assert(bytes@ =~= Seq::new(16, |k: int| sequence_iv_byte(media_sequence, k)));
            Ok(bytes)
        },
        Some(v) => {
            let t = trim_chars(chars_of(v).as_slice());
            let start: usize = if t.len() >= 2 && t[0] == '0' && (t[1] == 'x' || t[1] == 'X') {
                2
            } else {
                0
            };
            let ghost h = iv_hex(v@);
            assert(h =~= t@.subrange(start as int, t@.len() as int));
            if !encoded_len_is(t.as_slice(), start, 32) {
                return Err(IvError::InvalidLength);
            }
            if t.len() - start != 32 {
                return Err(IvError::InvalidHex);
            }
            let mut bytes: Vec<u8> = Vec::new();
            let mut k: usize = 0;
            while k < 16
                invariant
                    k <= 16,
                    h == t@.subrange(start as int, t@.len() as int),
                    h == iv_hex(v@),
                    encode_utf8(h).len() == 32,
                    opt_text(iv) == Some(v@),
                    start <= 2,
                    h.len() == 32,
                    start + 32 == t@.len(),
                    bytes@.len() == k,
                    forall|j: int| 0 <= j < k ==> #[trigger] is_hex_pair(h[2 * j], h[2 * j + 1]),
                    forall|j: int|
                        0 <= j < k ==> #[trigger] bytes@[j] as nat == hex_pair_value(h[2 * j], h[2 * j + 1]),
                decreases 16 - k,
            {
                let a = t[start + 2 * k];
                let b = t[start + 2 * k + 1];
                assert(h[2 * k as int] == a && h[2 * k + 1] == b);
                let lo = hex_digit(b);
                let value: u8 = match lo {
                    None => {
                        assert(!is_hex_pair(h[2 * k as int], h[2 * k + 1]));
                        return Err(IvError::InvalidHex);
                    },
                    Some(l) => {
                        if a == '+' {
                            l
                        } else {
                            match hex_digit(a) {
                                Some(hi) => hi * 16 + l,
                                None => {
                                    assert(!is_hex_pair(h[2 * k as int], h[2 * k + 1]));
                                    return Err(IvError::InvalidHex);
                                },
                            }
                        }
                    },
                };
                bytes.push(value);
                k = k + 1;
            }
            assert(bytes@ =~= Seq::new(16, |k: int| hex_pair_value(h[2 * k], h[2 * k + 1]) as u8));
            Ok(bytes)
        },
    }
}

/// Whether downloaded key bytes can be an AES-128 key: exactly 16 bytes.
pub fn is_aes128_key(key_bytes: &[u8]) -> (r: bool)
    ensures
        r == (key_bytes@.len() == 16),
{
    key_bytes.len() == 16
}

/// Why a segment could not be decrypted.
#[derive(Debug, Clone, Copy, PartialEq, Eq, Structural)]
pub enum SegmentDecryptError {
    /// The downloaded key is not 16 bytes long.
    InvalidKeyLength,
    /// The IV attribute could not be read.
    InvalidIv(IvError),
    /// The data could not be decrypted.
    Decrypt(DecryptError),
}

/// The outcome of decrypting a segment with a downloaded key (see
/// `decrypt_segment_data`).
pub open spec fn segment_decrypt_spec(
    data: Seq<u8>,
    key_bytes: Seq<u8>,
    iv: Option<Seq<char>>,
    media_sequence: u64,
) -> Result<Seq<u8>, SegmentDecryptError> {
    if key_bytes.len() != 16 {
        Err(SegmentDecryptError::InvalidKeyLength)
    } else {
        match iv_bytes_spec(iv, media_sequence) {
            Err(e) => Err(SegmentDecryptError::InvalidIv(e)),
            Ok(ivb) => match decrypt_spec(data, key_bytes, ivb) {
                Ok(p) => Ok(p),
                Err(e) => Err(SegmentDecryptError::Decrypt(e)),
            },
        }
    }
}

/// Decrypts a downloaded segment with its downloaded key: the key must be 16 bytes; the
/// IV comes from the key's `IV` attribute or the segment's media sequence number.
pub fn decrypt_segment_data(
    data: &[u8],
    key_bytes: &[u8],
    iv: Option<&str>,
    media_sequence: u64,
) -> (r: Result<Vec<u8>, SegmentDecryptError>)
    ensures
        result_bytes(r) == segment_decrypt_spec(data@, key_bytes@, opt_text(iv), media_sequence),
{
    if key_bytes.len() != 16 {
        return Err(SegmentDecryptError::InvalidKeyLength);
    }
    let ivr = parse_iv(iv, media_sequence);
    match ivr {
        Err(e) => Err(SegmentDecryptError::InvalidIv(e)),
        Ok(ivb) => match decrypt_aes128_cbc(data, key_bytes, ivb.as_slice()) {
            Ok(p) => Ok(p),
            Err(e) => Err(SegmentDecryptError::Decrypt(e)),
        },
    }
}


// ---------------------------------------------------------------------------
// IVs written as hexadecimal text read back
// ---------------------------------------------------------------------------

/// The hexadecimal digit for `v < 16`, in upper case when `upper`.
pub open spec fn hex_char(v: nat, upper: bool) -> char {
    if v < 10 {
        (v + '0' as nat) as char
    } else if upper {
        ((v - 10) + 'A' as nat) as char
    } else {
        ((v - 10) + 'a' as nat) as char
    }
}

/// `bytes` written in hexadecimal, two digits per byte, high digit first; `upper[k]`
/// chooses the case of digit `k`.
pub open spec fn hex_text(bytes: Seq<u8>, upper: Seq<bool>) -> Seq<char> {
    Seq::new(
        2 * bytes.len(),
        |k: int|
            hex_char(
                if k % 2 == 0 {
                    (bytes[k / 2] / 16) as nat
                } else {
                    (bytes[k / 2] % 16) as nat
                },
                upper[k],
            ),
    )
}

proof fn lemma_trim_start_ws(lead: Seq<char>, rest: Seq<char>)
    requires
        forall|i: int| 0 <= i < lead.len() ==> is_ws(#[trigger] lead[i]),
        rest.len() > 0,
        !is_ws(rest[0]),
    ensures
        trim_start(lead + rest) == rest,
    decreases lead.len(),
{
    if lead.len() == 0 {
        assert(lead + rest =~= rest);
    } else {
        assert((lead + rest).drop_first() =~= lead.drop_first() + rest);
        assert((lead + rest)[0] == lead[0]);
        lemma_trim_start_ws(lead.drop_first(), rest);
    }
}

proof fn lemma_trim_end_ws(body: Seq<char>, trail: Seq<char>)
    requires
        forall|i: int| 0 <= i < trail.len() ==> is_ws(#[trigger] trail[i]),
        body.len() > 0,
        !is_ws(body.last()),
    ensures
        trim_end(body + trail) == body,
    decreases trail.len(),
{
    if trail.len() == 0 {
        assert(body + trail =~= body);
    } else {
        assert((body + trail).drop_last() =~= body + trail.drop_last());
        assert((body + trail).last() == trail.last());
        lemma_trim_end_ws(body, trail.drop_last());
    }
}

/// Any 16 bytes written as 32 hexadecimal digits (in any mix of cases), with or without
/// a `0x`/`0X` prefix and with whitespace around, read back as those bytes; the media
/// sequence number plays no part then.
pub proof fn law_iv_round_trip(
    bytes: Seq<u8>,
    upper: Seq<bool>,
    prefix: Seq<char>,
    lead: Seq<char>,
    trail: Seq<char>,
    media_sequence: u64,
)
    requires
        bytes.len() == 16,
        upper.len() == 32,
        prefix == Seq::<char>::empty() || prefix == seq!['0', 'x'] || prefix == seq!['0', 'X'],
        forall|i: int| 0 <= i < lead.len() ==> is_ws(#[trigger] lead[i]),
        forall|i: int| 0 <= i < trail.len() ==> is_ws(#[trigger] trail[i]),
    ensures
        iv_bytes_spec(Some(lead + prefix + hex_text(bytes, upper) + trail), media_sequence)
            == Ok::<Seq<u8>, IvError>(bytes),
{
    let h = hex_text(bytes, upper);
    let core = prefix + h;
    assert forall|k: int| 0 <= k < 32 implies is_hex(#[trigger] h[k]) && !is_ws(h[k]) && '\0' <= h[k]
        <= '\u{7f}' && h[k] != 'x' && h[k] != 'X' by {
        let v: nat = if k % 2 == 0 {
            (bytes[k / 2] / 16) as nat
        } else {
            (bytes[k / 2] % 16) as nat
        };
        assert(v < 16);
        assert(h[k] == hex_char(v, upper[k]));
    }
    assert(core.len() > 0 && core[0] == if prefix.len() > 0 { '0' } else { h[0] });
    assert(core.last() == h[31]);
    assert(lead + prefix + h + trail =~= lead + (core + trail));
    lemma_trim_start_ws(lead, core + trail);
    assert((core + trail)[0] == core[0]);
    lemma_trim_end_ws(core, trail);
    assert(trim(lead + prefix + h + trail) == core);
    assert(iv_hex(lead + prefix + h + trail) == h) by {
        if prefix.len() > 0 {
            assert(core.subrange(2, core.len() as int) =~= h);
        } else {
            assert(core =~= h);
        }
    }
    assert(is_ascii_chars(h));
    is_ascii_chars_encode_utf8(h);
    assert forall|k: int| 0 <= k < 16 implies #[trigger] is_hex_pair(h[2 * k], h[2 * k + 1]) && hex_pair_value(
        h[2 * k],
        h[2 * k + 1],
    ) == bytes[k] by {
        let hi = (bytes[k] / 16) as nat;
        let lo = (bytes[k] % 16) as nat;
        assert(h[2 * k] == hex_char(hi, upper[2 * k]));
        assert(h[2 * k + 1] == hex_char(lo, upper[2 * k + 1]));
        assert(hex_value(h[2 * k]) == hi);
        assert(hex_value(h[2 * k + 1]) == lo);
    }
    assert(Seq::new(16, |k: int| hex_pair_value(h[2 * k], h[2 * k + 1]) as u8) =~= bytes);
}
} // verus!
