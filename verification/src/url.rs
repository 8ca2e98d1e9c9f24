//! File URLs handed over by the interface: the `file://` scheme and
//! percent-encoded bytes.
use vstd::prelude::*;
use vstd::utf8::{
    decode_utf8, encode_scalar, encode_utf8, has_width_1_encoding, has_width_2_encoding,
    has_width_3_encoding, valid_utf8,
};

use crate::text::{chars_of, string_from_chars};

verus! {

broadcast use vstd::seq_lib::group_seq_properties;

/// A hexadecimal digit's value, when `b` is one.
pub open spec fn hex_value(b: u8) -> Option<u8> {
    if 48 <= b <= 57 {
        Some((b - 48) as u8)
    } else if 97 <= b <= 102 {
        Some((b - 87) as u8)
    } else if 65 <= b <= 70 {
        Some((b - 55) as u8)
    } else {
        None
    }
}

/// `u8::from_str_radix` in base 16 of the two-byte text `h1 h2`: two hex
/// digits, or `+` and one hex digit.
pub open spec fn hex_pair(h1: u8, h2: u8) -> Option<u8> {
    match (hex_value(h1), hex_value(h2)) {
        (Some(a), Some(b)) => Some((a * 16 + b) as u8),
        (None, Some(b)) => if h1 == 43 {
            Some(b)
        } else {
            None
        },
        _ => None,
    }
}

/// Percent-decoding of bytes: `%` and two hex digits give their byte; a `%`
/// followed by two other bytes stays with them; a `%` with fewer than two
/// bytes after it stays alone, and the one byte after it goes.
pub open spec fn percent_decoded(b: Seq<u8>) -> Seq<u8>
    decreases b.len(),
{
    if b.len() == 0 {
        Seq::empty()
    } else if b[0] == 37 {
        if b.len() >= 3 {
            match hex_pair(b[1], b[2]) {
                Some(v) => seq![v] + percent_decoded(b.skip(3)),
                None => seq![37u8, b[1], b[2]] + percent_decoded(b.skip(3)),
            }
        } else {
            seq![37u8]
        }
    } else {
        seq![b[0]] + percent_decoded(b.skip(1))
    }
}

/// `b` is an ASCII hexadecimal digit: `0`-`9`, `A`-`F` or `a`-`f`.
pub open spec fn is_hex_digit_byte(b: u8) -> bool {
    (48 <= b <= 57) || (65 <= b <= 70) || (97 <= b <= 102)
}

/// The ASCII upper case of `b` (other bytes unchanged).
pub open spec fn ascii_upper_byte(b: u8) -> u8 {
    if 97 <= b <= 122 {
        (b - 32) as u8
    } else {
        b
    }
}

/// Hex digits are read in either case: a `%` and two hex digits decode to
/// the same byte whether their letters are written in lower or upper case,
/// whatever follows. So `%2f` and `%2F` both give `/`.
pub proof fn lemma_hex_case_insensitive(h1: u8, h2: u8, rest: Seq<u8>)
    requires
        is_hex_digit_byte(h1),
        is_hex_digit_byte(h2),
    ensures
        percent_decoded(seq![37u8, h1, h2] + rest) == percent_decoded(
            seq![37u8, ascii_upper_byte(h1), ascii_upper_byte(h2)] + rest,
        ),
        percent_decoded(seq![37u8, h1, h2] + rest)[0] == (if 48 <= h1 <= 57 {
            h1 - 48
        } else {
            ascii_upper_byte(h1) - 55
        }) * 16 + (if 48 <= h2 <= 57 {
            h2 - 48
        } else {
            ascii_upper_byte(h2) - 55
        }),
{
    let a = seq![37u8, h1, h2] + rest;
    let b = seq![37u8, ascii_upper_byte(h1), ascii_upper_byte(h2)] + rest;
    assert(a[0] == 37 && a[1] == h1 && a[2] == h2);
    assert(b[0] == 37 && b[1] == ascii_upper_byte(h1) && b[2] == ascii_upper_byte(h2));
    assert(a.skip(3) =~= rest);
    assert(b.skip(3) =~= rest);
    assert(hex_value(h1) == hex_value(ascii_upper_byte(h1)));
    assert(hex_value(h2) == hex_value(ascii_upper_byte(h2)));
}

/// `String::from_utf8_lossy`: the text of `b` with each malformed sequence
/// replaced by U+FFFD.
pub uninterp spec fn utf8_lossy(b: Seq<u8>) -> Seq<char>;

/// `String::from_utf8_lossy(b).to_string()`. Claimed of std: the result is
/// a function of the bytes alone (named `utf8_lossy`) and, for valid UTF-8,
/// is the decoded text. How malformed bytes are replaced is left unsaid.
#[verifier::external_body]
fn string_from_utf8_lossy(b: &[u8]) -> (s: String)
    ensures
        s@ == utf8_lossy(b@),
        valid_utf8(b@) ==> s@ == decode_utf8(b@),
{
    String::from_utf8_lossy(b).to_string()
}

fn hex_value_exec(b: u8) -> (r: Option<u8>)
    ensures
        r == hex_value(b),
{
    if 48 <= b && b <= 57 {
        Some(b - 48)
    } else if 97 <= b && b <= 102 {
        Some(b - 87)
    } else if 65 <= b && b <= 70 {
        Some(b - 55)
    } else {
        None
    }
}

/// The bytes of `s` after percent-decoding.
pub fn percent_decode_bytes(s: &[u8]) -> (out: Vec<u8>)
    ensures
        out@ == percent_decoded(s@),
{
    let n = s.len();
    let mut out: Vec<u8> = Vec::new();
    let mut i: usize = 0;
    proof {
        assert(s@.skip(0) =~= s@);
        assert(Seq::<u8>::empty() + percent_decoded(s@) =~= percent_decoded(s@));
    }
    while i < n
        invariant
            n == s@.len(),
            i <= n,
            out@ + percent_decoded(s@.skip(i as int)) == percent_decoded(s@),
        decreases n - i,
    {
        let ghost rest = s@.skip(i as int);
        let ghost before = out@;
        let b = s[i];
        assert(rest[0] == b);
        if b == 37 {
            if n - i > 2 {
                let h1 = s[i + 1];
                let h2 = s[i + 2];
                assert(rest[1] == h1 && rest[2] == h2);
                assert(rest.skip(3) =~= s@.skip(i + 3));
                let v = match (hex_value_exec(h1), hex_value_exec(h2)) {
                    (Some(a), Some(c)) => Some(a * 16 + c),
                    (None, Some(c)) => if h1 == 43 {
                        Some(c)
                    } else {
                        None
                    },
                    _ => None,
                };
                assert(v == hex_pair(h1, h2));
                match v {
                    Some(x) => {
                        out.push(x);
                        assert(out@ + percent_decoded(s@.skip(i + 3)) =~= before + (seq![x]
                            + percent_decoded(rest.skip(3))));
                    },
                    None => {
                        out.push(37);
                        out.push(h1);
                        out.push(h2);
                        assert(out@ + percent_decoded(s@.skip(i + 3)) =~= before + (seq![37u8, h1, h2]
                            + percent_decoded(rest.skip(3))));
                    },
                }
                i = i + 3;
            } else {
                out.push(37);
                proof {
                    assert(percent_decoded(rest) == seq![37u8]);
                    assert(s@.skip(n as int) =~= Seq::<u8>::empty());
                    assert(out@ + percent_decoded(s@.skip(n as int)) =~= before + seq![37u8]);
                }
                i = n;
            }
        } else {
            out.push(b);
            assert(rest.skip(1) =~= s@.skip(i + 1));
            assert(out@ + percent_decoded(s@.skip(i + 1)) =~= before + (seq![b] + percent_decoded(
                rest.skip(1),
            )));
            i = i + 1;
        }
    }
    proof {
        assert(s@.skip(n as int) =~= Seq::<u8>::empty());
        assert(out@ + Seq::<u8>::empty() =~= out@);
    }
    out
}

/// Percent-decodes `s`; bytes that do not form UTF-8 become U+FFFD.
pub fn percent_decode(s: &str) -> (r: String)
    ensures
        r@ == utf8_lossy(percent_decoded(encode_utf8(s@))),
        valid_utf8(percent_decoded(encode_utf8(s@))) ==> r@ == decode_utf8(
            percent_decoded(encode_utf8(s@)),
        ),
{
    let out = percent_decode_bytes(s.as_bytes());
    string_from_utf8_lossy(out.as_slice())
}

/// Bytes without `%` are left as they are.
pub proof fn lemma_percent_decoded_plain(b: Seq<u8>)
    requires
        !b.contains(37u8),
    ensures
        percent_decoded(b) == b,
    decreases b.len(),
{
    if b.len() > 0 {
        assert(b[0] != 37u8);
        assert(!b.skip(1).contains(37u8)) by {
            if b.skip(1).contains(37u8) {
                let j = choose|j: int| 0 <= j < b.skip(1).len() && b.skip(1)[j] == 37u8;
                assert(b[j + 1] == 37u8);
            }
        }
        lemma_percent_decoded_plain(b.skip(1));
        assert(seq![b[0]] + b.skip(1) =~= b);
    }
}

/// The UTF-8 encoding of a character other than `%` holds no `%` byte.
proof fn lemma_scalar_has_no_percent(c: char)
    requires
        c != '%',
    ensures
        !encode_scalar(c as u32).contains(37u8),
{
    let v = c as u32;
    let e = encode_scalar(v);
    if has_width_1_encoding(v) {
        assert((v & 0x7F) as u8 != 37u8) by (bit_vector)
            requires
                v <= 0x7F,
                v != 37,
        ;
    } else {
        assert forall|x: u32| ((0x80u8 | ((x >> 6) & 0x3F) as u8) != 37u8) && ((0x80u8 | (x & 0x3F) as u8)
            != 37u8) && ((0x80u8 | ((x >> 12) & 0x3F) as u8) != 37u8) && ((0xC0u8 | ((x >> 6)
            & 0x1F) as u8) != 37u8) && ((0xE0u8 | ((x >> 12) & 0x0F) as u8) != 37u8) && ((0xF0u8
            | ((x >> 18) & 0x7) as u8) != 37u8) by {
            assert((0x80u8 | ((x >> 6) & 0x3F) as u8) != 37u8) by (bit_vector);
            assert((0x80u8 | (x & 0x3F) as u8) != 37u8) by (bit_vector);
            assert((0x80u8 | ((x >> 12) & 0x3F) as u8) != 37u8) by (bit_vector);
            assert((0xC0u8 | ((x >> 6) & 0x1F) as u8) != 37u8) by (bit_vector);
            assert((0xE0u8 | ((x >> 12) & 0x0F) as u8) != 37u8) by (bit_vector);
            assert((0xF0u8 | ((x >> 18) & 0x7) as u8) != 37u8) by (bit_vector);
        }
        if has_width_2_encoding(v) {
            assert(e.len() == 2);
        } else if has_width_3_encoding(v) {
            assert(e.len() == 3);
        } else {
            assert(e.len() == 4);
        }
    }
}

/// The UTF-8 encoding of text without `%` holds no `%` byte.
proof fn lemma_encoding_has_no_percent(s: Seq<char>)
    requires
        !s.contains('%'),
    ensures
        !encode_utf8(s).contains(37u8),
    decreases s.len(),
{
    if s.len() > 0 {
        assert(s[0] != '%');
        lemma_scalar_has_no_percent(s[0]);
        assert(!s.drop_first().contains('%')) by {
            if s.drop_first().contains('%') {
                let j = choose|j: int| 0 <= j < s.drop_first().len() && s.drop_first()[j] == '%';
                assert(s[j + 1] == '%');
            }
        }
        lemma_encoding_has_no_percent(s.drop_first());
        let a = encode_scalar(s[0] as u32);
        let b = encode_utf8(s.drop_first());
        assert(encode_utf8(s) == a + b);
        if (a + b).contains(37u8) {
            let j = choose|j: int| 0 <= j < (a + b).len() && (a + b)[j] == 37u8;
            if j < a.len() {
                assert(a[j] == 37u8);
            } else {
                assert(b[j - a.len()] == 37u8);
            }
        }
    }
}

/// Text without `%` decodes to itself: its bytes pass through unchanged
/// and are valid UTF-8, so `percent_decode` gives the text back.
pub proof fn lemma_plain_text_decodes_to_itself(s: Seq<char>)
    requires
        !s.contains('%'),
    ensures
        valid_utf8(percent_decoded(encode_utf8(s))),
        decode_utf8(percent_decoded(encode_utf8(s))) == s,
{
    lemma_encoding_has_no_percent(s);
    lemma_percent_decoded_plain(encode_utf8(s));
    vstd::utf8::encode_utf8_valid_utf8(s);
    vstd::utf8::encode_utf8_decode_utf8(s);
}

/// `url` without a leading `file://`.
pub open spec fn strip_file_scheme(url: Seq<char>) -> Seq<char> {
    if url.len() >= 7 && url.take(7) == "file://"@ {
        url.skip(7)
    } else {
        url
    }
}

/// The two paths that a file URL may name: the percent-decoded one, tried
/// first, and the raw one, each without a leading `file://`.
pub fn resolve_file_url(url: &str) -> (r: (String, String))
    ensures
        r.1@ == strip_file_scheme(url@),
        r.0@ == utf8_lossy(percent_decoded(encode_utf8(r.1@))),
        valid_utf8(percent_decoded(encode_utf8(r.1@))) ==> r.0@ == decode_utf8(
            percent_decoded(encode_utf8(r.1@)),
        ),
{
    let v = chars_of(url);
    let scheme = chars_of("file://");
    let mut has_scheme = v.len() >= 7 && scheme.len() == 7;
    let mut k: usize = 0;
    while has_scheme && k < 7
        invariant
            v@ == url@,
            scheme@ == "file://"@,
            has_scheme ==> v.len() >= 7 && scheme.len() == 7,
            k <= 7,
            has_scheme ==> forall|j: int| 0 <= j < k ==> v@[j] == scheme@[j],
            !has_scheme ==> !(url@.len() >= 7 && url@.take(7) == "file://"@),
        decreases 7 - k,
    {
        if v[k] != scheme[k] {
            proof {
                if url@.len() >= 7 && url@.take(7) == "file://"@ {
                    assert(url@.take(7)[k as int] == v@[k as int]);
                }
            }
            has_scheme = false;
        }
        k = k + 1;
    }
    let mut raw: Vec<char> = Vec::new();
    let start: usize = if has_scheme {
        proof {
            assert(url@.take(7) =~= "file://"@);
        }
        7
    } else {
        proof {
            if url@.len() >= 7 && url@.take(7) == "file://"@ {
                assert(scheme@.len() == 7);
            }
        }
        0
    };
    let n = v.len();
    for i in start..n
        invariant
            v@ == url@,
            start <= n,
            n == v@.len(),
            raw@ == v@.subrange(start as int, i as int),
    {
        proof {
            assert(v@.subrange(start as int, i + 1) =~= v@.subrange(start as int, i as int).push(v@[i as int]));
        }
        raw.push(v[i]);
    }
    proof {
        assert(raw@ =~= url@.skip(start as int));
    }
    let raw_s = string_from_chars(&raw);
    let decoded = percent_decode(raw_s.as_str());
    (decoded, raw_s)
}

} // verus!
