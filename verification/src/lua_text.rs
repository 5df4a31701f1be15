//! How the script host turns Lua byte strings into text, and the `md5` digest it offers.
use vstd::prelude::*;
use vstd::utf8::{decode_utf8, valid_utf8};
use vstd::string::*;
use crate::json_text::hex_digit;
use crate::text::push_char;

verus! {

broadcast use vstd::string::group_string_axioms;

/// The text of a byte string that is valid UTF-8 (std `std::str::from_utf8`): `None`
/// exactly when the bytes are not valid UTF-8, and otherwise the characters they encode.
#[verifier::external_body]
fn utf8_text(bytes: &[u8]) -> (res: Option<String>)
    ensures
        res is Some <==> valid_utf8(bytes@),
        res matches Some(s) ==> s@ == decode_utf8(bytes@),
{
    std::str::from_utf8(bytes).ok().map(|s| s.to_string())
}

/// The length of the UTF-8 sequence that a byte at or above `0x80` begins, judged by the
/// byte alone (0 for a continuation byte).
pub open spec fn lead_len(b: u8) -> int {
    if b >= 0xf0 {
        4
    } else if b >= 0xe0 {
        3
    } else if b >= 0xc0 {
        2
    } else {
        0
    }
}

/// `\u00XX` for a byte that does not begin a valid character.
pub open spec fn escaped_byte(b: u8) -> Seq<char> {
    seq!['\\', 'u', '0', '0', hex_digit((b / 16) as int) as char, hex_digit((b % 16) as int) as char]
}

/// Text for bytes that are not valid UTF-8 as a whole: ASCII bytes as characters, each
/// well-formed multi-byte sequence as its character, and every other byte as `\u00XX`.
pub open spec fn lossy_text(s: Seq<u8>) -> Seq<char>
    decreases s.len(),
{
    if s.len() == 0 {
        seq![]
    } else if s[0] < 0x80 {
        seq![s[0] as char] + lossy_text(s.skip(1))
    } else {
        let k = lead_len(s[0]);
        if k >= 2 && k <= s.len() && valid_utf8(s.take(k)) {
            decode_utf8(s.take(k)) + lossy_text(s.skip(k))
        } else {
            escaped_byte(s[0]) + lossy_text(s.skip(1))
        }
    }
}

/// The text of a Lua string: its characters when it is valid UTF-8, and `lossy_text`
/// otherwise.
pub open spec fn lua_text(s: Seq<u8>) -> Seq<char> {
    if valid_utf8(s) {
        decode_utf8(s)
    } else {
        lossy_text(s)
    }
}

proof fn lemma_lossy_step(s: Seq<u8>, i: int, k: int)
    requires
        0 <= i < s.len(),
        1 <= k <= s.len() - i,
    ensures
        s.skip(i).skip(k) == s.skip(i + k),
        s.skip(i).take(k) == s.subrange(i, i + k),
{
    assert(s.skip(i).skip(k) =~= s.skip(i + k));
    assert(s.skip(i).take(k) =~= s.subrange(i, i + k));
}

/// Turns the bytes of a Lua string into text (see `lua_text`).
pub fn lua_bytes_to_text(bytes: &[u8]) -> (res: String)
    ensures
        res@ == lua_text(bytes@),
{
    if let Some(s) = utf8_text(bytes) {
        return s;
    }
    let n = bytes.len();
    let mut out = String::new();
    let mut i: usize = 0;
    assert(bytes@.skip(0) =~= bytes@);
    while i < n
        invariant
            i <= n,
            n == bytes@.len(),
            out@ + lossy_text(bytes@.skip(i as int)) == lossy_text(bytes@),
        decreases n - i,
    {
        let ghost rest = bytes@.skip(i as int);
        let ghost before = out@;
        let b = bytes[i];
        assert(rest[0] == b);
        if b < 0x80 {
            push_char(&mut out, b as char);
            proof {
                lemma_lossy_step(bytes@, i as int, 1);
            }
            assert(out@ + lossy_text(bytes@.skip(i + 1)) =~= before + lossy_text(rest));
            i = i + 1;
        } else {
            let seq_len: usize = if b >= 0xf0 {
                4
            } else if b >= 0xe0 {
                3
            } else if b >= 0xc0 {
                2
            } else {
                0
            };
            let mut decoded: Option<String> = None;
            if seq_len >= 2 && seq_len <= n - i {
                proof {
                    lemma_lossy_step(bytes@, i as int, seq_len as int);
                }
                decoded = utf8_text(&bytes[i..i + seq_len]);
            }
            match decoded {
                Some(ch) => {
                    out.append(ch.as_str());
                    assert(out@ + lossy_text(bytes@.skip(i + seq_len)) =~= before + lossy_text(
                        rest,
                    ));
                    i = i + seq_len;
                },
                None => {
                    let hi: u8 = b / 16;
                    let lo: u8 = b % 16;
                    let h: u8 = if hi < 10 {
                        48 + hi
                    } else {
                        87 + hi
                    };
                    let l: u8 = if lo < 10 {
                        48 + lo
                    } else {
                        87 + lo
                    };
                    push_char(&mut out, '\\');
                    push_char(&mut out, 'u');
                    push_char(&mut out, '0');
                    push_char(&mut out, '0');
                    push_char(&mut out, h as char);
                    push_char(&mut out, l as char);
                    proof {
                        lemma_lossy_step(bytes@, i as int, 1);
                    }
                    assert(out@ =~= before + escaped_byte(b));
                    assert(out@ + lossy_text(bytes@.skip(i + 1)) =~= before + lossy_text(rest));
                    i = i + 1;
                },
            }
        }
    }
    assert(lossy_text(bytes@.skip(n as int)) =~= Seq::<char>::empty()) by {
        assert(bytes@.skip(n as int).len() == 0);
    }
    assert(out@ =~= out@ + lossy_text(bytes@.skip(n as int)));
    out
}

/// What `md5::compute` gives for `data`: its MD5 digest.
pub uninterp spec fn md5_digest(data: Seq<u8>) -> Seq<u8>;

/// The MD5 digest of `data` (`md5::compute`); the contract names it and says that it is
/// sixteen bytes long.
#[verifier::external_body]
fn md5_compute(data: &[u8]) -> (res: [u8; 16])
    ensures
        res@ == md5_digest(data@),
{
    md5::compute(data).0
}

/// Bytes in lowercase hexadecimal, two digits per byte.
pub open spec fn hex_lower(s: Seq<u8>) -> Seq<char>
    decreases s.len(),
{
    if s.len() == 0 {
        seq![]
    } else {
        hex_lower(s.drop_last()) + seq![
            hex_digit((s.last() / 16) as int) as char,
            hex_digit((s.last() % 16) as int) as char,
        ]
    }
}

/// Bytes in lowercase hexadecimal.
pub fn hex_string(bytes: &[u8]) -> (res: String)
    ensures
        res@ == hex_lower(bytes@),
{
    let mut out = String::new();
    let mut i: usize = 0;
    while i < bytes.len()
        invariant
            i <= bytes@.len(),
            out@ == hex_lower(bytes@.take(i as int)),
        decreases bytes@.len() - i,
    {
        let b = bytes[i];
        let hi: u8 = b / 16;
        let lo: u8 = b % 16;
        let h: u8 = if hi < 10 {
            48 + hi
        } else {
            87 + hi
        };
        let l: u8 = if lo < 10 {
            48 + lo
        } else {
            87 + lo
        };
        push_char(&mut out, h as char);
        push_char(&mut out, l as char);
        assert(bytes@.take(i + 1).drop_last() =~= bytes@.take(i as int));
        assert(out@ =~= hex_lower(bytes@.take(i + 1)));
        i = i + 1;
    }
    assert(bytes@.take(i as int) =~= bytes@);
    out
}

/// `md5` for scripts: the MD5 digest of the bytes, in lowercase hexadecimal.
pub fn md5_hex(data: &[u8]) -> (res: String)
    ensures
        res@ == hex_lower(md5_digest(data@)),
{
    let digest = md5_compute(data);
    hex_string(&digest)
}

} // verus!
