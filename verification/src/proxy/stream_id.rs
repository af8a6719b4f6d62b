//! The id under which the stream of an item on a device is known.

use sha2::Digest;
use vstd::prelude::*;
use vstd::utf8::encode_utf8;
use crate::text::{chars_of, hex_char, hex_digit, is_at, occurs_at, text_of};

verus! {

/// The SHA-256 digest of some bytes.
pub uninterp spec fn sha256(data: Seq<u8>) -> Seq<u8>;

/// `Sha256::new`, `update` with each of two parts, and `finalize`: the digest of the parts one
/// behind the other, which has 32 bytes.
#[verifier::external_body]
fn digest_of(first: &[u8], second: &[u8]) -> (digest: Vec<u8>)
    ensures
        digest@ == sha256(first@ + second@),
        digest@.len() == 32,
{
    let mut hasher = sha2::Sha256::new();
    hasher.update(first);
    hasher.update(second);
    hasher.finalize().to_vec()
}

/// Bytes in hexadecimal.
pub open spec fn hex_text(bytes: Seq<u8>) -> Seq<char>
    decreases bytes.len(),
{
    if bytes.len() == 0 {
        Seq::empty()
    } else {
        hex_text(bytes.drop_last()).push(hex_char(bytes.last() as nat / 16)).push(
            hex_char(bytes.last() as nat % 16),
        )
    }
}

/// The first 16 bytes of a digest, in hexadecimal.
pub fn short_digest(digest: &[u8]) -> (text: String)
    requires
        digest@.len() >= 16,
    ensures
        text@ == hex_text(digest@.take(16)),
{
    let mut text: String = String::new();
    let mut i: usize = 0;
    assert(digest@.take(0) =~= Seq::<u8>::empty());
    while i < 16
        invariant
            i <= 16 <= digest@.len(),
            text@ == hex_text(digest@.take(i as int)),
        decreases 16 - i,
    {
        assert(digest@.take(i + 1).drop_last() =~= digest@.take(i as int));
        text.push(hex_digit(digest[i] / 16));
        text.push(hex_digit(digest[i] % 16));
        i += 1;
    }
    text
}

/// A device id starts behind `i`: `DeviceId="` stands there, and something other than a quote
/// follows.
pub open spec fn names_device_at(s: Seq<char>, i: int) -> bool {
    occurs_at(s, "DeviceId=\""@, i) && i + 10 < s.len() && s[i + 10] != '"'
}

/// The position of the first quote at `pos` or behind it; the length if there is none.
pub open spec fn quote_from(s: Seq<char>, pos: int) -> int
    decreases s.len() - pos,
{
    if 0 <= pos < s.len() && s[pos] != '"' {
        quote_from(s, pos + 1)
    } else {
        pos
    }
}

/// The first device id, at `from` or behind it, in an authorization header.
pub open spec fn device_id_from(s: Seq<char>, from: int) -> Option<Seq<char>>
    decreases s.len() - from,
{
    if from < 0 || from >= s.len() {
        None
    } else if names_device_at(s, from) {
        Some(s.subrange(from + 10, quote_from(s, from + 10)))
    } else {
        device_id_from(s, from + 1)
    }
}

/// Finds the device id in an authorization header.
pub fn find_device_id(authorization: &str) -> (id: Option<String>)
    ensures
        match id {
            Some(d) => device_id_from(authorization@, 0) == Some(d@),
            None => device_id_from(authorization@, 0) is None,
        },
{
    proof {
        reveal_strlit("DeviceId=\"");
    }
    let text: Vec<char> = chars_of(authorization);
    let word: Vec<char> = chars_of("DeviceId=\"");
    let mut i: usize = 0;
    while i < text.len()
        invariant
            i <= text@.len(),
            text@ == authorization@,
            word@ == "DeviceId=\""@,
            word@.len() == 10,
            device_id_from(text@, i as int) == device_id_from(authorization@, 0),
        decreases text.len() - i,
    {
        if is_at(text.as_slice(), word.as_slice(), i) && text.len() - i > 10 && text[i + 10]
            != '"' {
            let mut end: usize = i + 10;
            while end < text.len() && text[end] != '"'
                invariant
                    i + 10 <= end <= text@.len(),
                    quote_from(text@, end as int) == quote_from(text@, i + 10),
                decreases text.len() - end,
            {
                end += 1;
            }
            return Some(text_of(text.as_slice(), i + 10, end));
        }
        i += 1;
    }
    None
}

/// The id of the stream of an item on a device, if the device is known.
pub open spec fn stream_id_of(authorization: Option<Seq<char>>, item: Seq<char>) -> Option<
    Seq<char>,
> {
    match authorization {
        None => None,
        Some(header) => match device_id_from(header, 0) {
            None => None,
            Some(device) => Some(
                hex_text(sha256(encode_utf8(device) + encode_utf8(item)).take(16)),
            ),
        },
    }
}

/// The id of the stream of an item on a device. It is the same for every session of the
/// device.
pub fn calculate_stream_id(authorization: Option<&str>, item_id: &str) -> (id: Option<String>)
    ensures
        ({
            let header = match authorization {
                Some(h) => Some(h@),
                None => None,
            };
            match id {
                Some(i) => stream_id_of(header, item_id@) == Some(i@),
                None => stream_id_of(header, item_id@) is None,
            }
        }),
{
    match authorization {
        None => None,
        Some(header) => match find_device_id(header) {
            None => None,
            Some(device) => {
                let digest: Vec<u8> = digest_of(device.as_str().as_bytes(), item_id.as_bytes());
                Some(short_digest(digest.as_slice()))
            },
        },
    }
}

/// Bytes take two hexadecimal digits each.
proof fn lemma_hex_length(bytes: Seq<u8>)
    ensures
        hex_text(bytes).len() == 2 * bytes.len(),
    decreases bytes.len(),
{
    if bytes.len() > 0 {
        lemma_hex_length(bytes.drop_last());
    }
}

/// Different bytes are written differently, so that streams share an id only where the
/// digests agree.
pub proof fn law_hex_is_faithful(a: Seq<u8>, b: Seq<u8>)
    requires
        hex_text(a) == hex_text(b),
    ensures
        a == b,
    decreases a.len(),
{
    lemma_hex_length(a);
    lemma_hex_length(b);
    if a.len() > 0 {
        reveal_strlit("0123456789abcdef");
        let (s, t) = (hex_text(a), hex_text(b));
        let n = s.len() as int;
        assert(s[n - 1] == hex_char(a.last() as nat % 16));
        assert(t[n - 1] == hex_char(b.last() as nat % 16));
        assert(s[n - 2] == hex_char(a.last() as nat / 16));
        assert(t[n - 2] == hex_char(b.last() as nat / 16));
        lemma_hex_chars_differ(a.last() as nat % 16, b.last() as nat % 16);
        lemma_hex_chars_differ(a.last() as nat / 16, b.last() as nat / 16);
        assert(a.last() == b.last());
        assert(hex_text(a.drop_last()) =~= s.take(n - 2));
        assert(hex_text(b.drop_last()) =~= t.take(n - 2));
        law_hex_is_faithful(a.drop_last(), b.drop_last());
        assert(a =~= a.drop_last().push(a.last()));
        assert(b =~= b.drop_last().push(b.last()));
    } else {
        assert(a =~= b);
    }
}

proof fn lemma_hex_chars_differ(x: nat, y: nat)
    requires
        x < 16,
        y < 16,
        hex_char(x) == hex_char(y),
    ensures
        x == y,
{
    reveal_strlit("0123456789abcdef");
    let digits = "0123456789abcdef"@;
    assert forall|i: int| 0 <= i < 16 implies (#[trigger] digits[i]) as int == if i < 10 {
        48 + i
    } else {
        87 + i
    } by {
        assert(i == 0 || i == 1 || i == 2 || i == 3 || i == 4 || i == 5 || i == 6 || i == 7 || i == 8
            || i == 9 || i == 10 || i == 11 || i == 12 || i == 13 || i == 14 || i == 15);
    }
    assert(digits[x as int] as int == digits[y as int] as int);
}

} // verus!
