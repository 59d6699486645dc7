//! Recording ids: how a fresh id is spelled, and what a well-formed id's
//! characters are.
use vstd::prelude::*;
use vstd::utf8::{
    char_is_scalar, char_u32_cast, encode_scalar, encode_utf8, encode_utf8_valid_utf8, has_width_1_encoding,
    is_ascii_chars, is_ascii_chars_encode_utf8, is_char_boundary,
    is_char_boundary_iff_not_is_continuation_byte,
};

use crate::names::{is_id_byte, is_safe_id};
use crate::text::{is_ascii_alphanumeric_char, push_char};

verus! {

/// A character that may appear in a recording id.
pub open spec fn is_id_char(c: char) -> bool {
    is_ascii_alphanumeric_char(c) || c == '_' || c == '-'
}

/// The lower-case hexadecimal digit for `d < 16`.
pub open spec fn hex_digit(d: nat) -> char {
    if d < 10 {
        (('0' as u32) + d) as char
    } else {
        (('a' as u32) + (d - 10)) as char
    }
}

/// `format!("{n:x}")`: lower-case hexadecimal without leading zeros.
pub open spec fn lower_hex(n: nat) -> Seq<char>
    decreases n,
{
    if n < 16 {
        seq![hex_digit(n)]
    } else {
        lower_hex(n / 16).push(hex_digit(n % 16))
    }
}

pub open spec fn pow16(k: nat) -> nat
    decreases k,
{
    if k == 0 {
        1
    } else {
        16 * pow16((k - 1) as nat)
    }
}

/// The id of a recording started `nanos` nanoseconds after the Unix epoch
/// by process `pid`.
pub open spec fn id_text(nanos: u128, pid: u32) -> Seq<char> {
    lower_hex(nanos as nat) + "-"@ + lower_hex(pid as nat)
}

proof fn lemma_lower_hex_chars(n: nat)
    ensures
        lower_hex(n).len() >= 1,
        forall|i: int| 0 <= i < lower_hex(n).len() ==> is_id_char(#[trigger] lower_hex(n)[i]),
    decreases n,
{
    if n >= 16 {
        lemma_lower_hex_chars(n / 16);
    }
}

proof fn lemma_lower_hex_at_least(n: nat, k: nat)
    requires
        n >= pow16(k),
    ensures
        lower_hex(n).len() >= k + 1,
    decreases k,
{
    if k > 0 {
        assert(pow16(k) == 16 * pow16((k - 1) as nat));
        assert(pow16((k - 1) as nat) >= 1) by {
            lemma_pow16_positive((k - 1) as nat);
        }
        lemma_lower_hex_at_least(n / 16, (k - 1) as nat);
    }
}

proof fn lemma_lower_hex_at_most(n: nat, k: nat)
    requires
        k >= 1,
        n < pow16(k),
    ensures
        lower_hex(n).len() <= k,
    decreases k,
{
    if n >= 16 {
        if k == 1 {
            assert(pow16(1) == 16) by {
                reveal_with_fuel(pow16, 2);
            }
        } else {
            assert(pow16(k) == 16 * pow16((k - 1) as nat));
            lemma_lower_hex_at_most(n / 16, (k - 1) as nat);
        }
    }
}

proof fn lemma_pow16_positive(k: nat)
    ensures
        pow16(k) >= 1,
    decreases k,
{
    if k > 0 {
        lemma_pow16_positive((k - 1) as nat);
    }
}

/// A string of id characters is encoded one byte per character, each an id
/// byte.
pub proof fn lemma_id_chars_encode(s: Seq<char>)
    requires
        forall|i: int| 0 <= i < s.len() ==> is_id_char(#[trigger] s[i]),
    ensures
        encode_utf8(s).len() == s.len(),
        forall|i: int| 0 <= i < s.len() ==> is_id_byte(#[trigger] encode_utf8(s)[i]),
{
    assert(is_ascii_chars(s)) by {
        assert forall|i: int| 0 <= i < s.len() implies '\0' <= #[trigger] s[i] <= '\u{7f}' by {
            assert(is_id_char(s[i]));
        }
    }
    is_ascii_chars_encode_utf8(s);
    assert forall|i: int| 0 <= i < s.len() implies is_id_byte(#[trigger] encode_utf8(s)[i]) by {
        assert(is_id_char(s[i]));
        assert(s[i] as u8 == encode_utf8(s)[i]);
    }
}

/// The characters of a string whose encoding is made of id bytes are id
/// characters, one per byte.
pub proof fn lemma_id_bytes_decode(s: Seq<char>)
    requires
        forall|i: int|
            0 <= i < encode_utf8(s).len() ==> is_id_byte(#[trigger] encode_utf8(s)[i]),
    ensures
        encode_utf8(s).len() == s.len(),
        forall|i: int| 0 <= i < s.len() ==> is_id_char(#[trigger] s[i]),
    decreases s.len(),
{
    if s.len() > 0 {
        let c = s[0] as u32;
        char_is_scalar(s[0]);
        let e = encode_scalar(c);
        let rest = s.drop_first();
        assert(encode_utf8(s) == e + encode_utf8(rest));
        assert(encode_utf8(s)[0] == e[0]);
        assert(is_id_byte(e[0]));
        if !has_width_1_encoding(c) {
            assert(e[0] >= 0xc0) by {
                if c <= 0x7ff {
                    assert((0xC0u8 | ((c >> 6u32) & 0x1Fu32) as u8) >= 0xc0u8) by (bit_vector);
                } else if c <= 0xffff {
                    assert((0xE0u8 | ((c >> 12u32) & 0x0Fu32) as u8) >= 0xc0u8) by (bit_vector);
                } else {
                    assert((0xF0u8 | ((c >> 18u32) & 0x7u32) as u8) >= 0xc0u8) by (bit_vector);
                }
            }
            assert(false);
        }
        assert(e[0] == c) by {
            assert(c <= 0x7f ==> (c & 0x7Fu32) as u8 == c) by (bit_vector);
        }
        assert(is_id_char(s[0])) by {
            char_u32_cast(s[0], c);
        }
        assert forall|i: int| 0 <= i < encode_utf8(rest).len() implies is_id_byte(
            #[trigger] encode_utf8(rest)[i],
        ) by {
            assert(encode_utf8(rest)[i] == encode_utf8(s)[i + 1]);
        }
        lemma_id_bytes_decode(rest);
        assert forall|i: int| 0 <= i < s.len() implies is_id_char(#[trigger] s[i]) by {
            if i > 0 {
                assert(s[i] == rest[i - 1]);
            }
        }
    }
}

/// A well-formed id can be cut after its first 8 bytes.
pub proof fn lemma_safe_id_cuttable(s: Seq<char>)
    requires
        is_safe_id(encode_utf8(s)),
    ensures
        encode_utf8(s).len() <= 8 || is_char_boundary(encode_utf8(s), 8),
{
    let b = encode_utf8(s);
    if b.len() > 8 {
        encode_utf8_valid_utf8(s);
        is_char_boundary_iff_not_is_continuation_byte(b, 8);
        assert(is_id_byte(b[8]));
    }
}

/// Appends the lower-case hexadecimal spelling of `n`.
fn push_hex(out: &mut String, n: u128)
    ensures
        final(out)@ == old(out)@ + lower_hex(n as nat),
    decreases n,
{
    if n >= 16 {
        push_hex(out, n / 16);
    }
    let d: u8 = (n % 16) as u8;
    let c = if d < 10 {
        (48u8 + d) as char
    } else {
        (87u8 + d) as char
    };
    push_char(out, c);
    proof {
        if n >= 16 {
            assert(old(out)@ + lower_hex(n as nat) =~= old(out)@ + lower_hex((n / 16) as nat)
                + seq![hex_digit((n % 16) as nat)]);
        } else {
            assert(old(out)@ + lower_hex(n as nat) =~= old(out)@ + seq![hex_digit(n as nat)]);
        }
    }
}

/// A fresh recording id: the clock's nanoseconds since the Unix epoch and
/// the process id, both in lower-case hexadecimal, joined by `-`. Any clock
/// reading from 2^20 ns after the epoch on gives a well-formed id.
pub fn new_id(nanos: u128, pid: u32) -> (r: String)
    ensures
        r@ == id_text(nanos, pid),
        nanos >= 0x100000 ==> is_safe_id(encode_utf8(r@)),
{
    let mut r = String::new();
    push_hex(&mut r, nanos);
    push_char(&mut r, '-');
    push_hex(&mut r, pid as u128);
    proof {
        reveal_strlit("-");
        let a = lower_hex(nanos as nat);
        let b = lower_hex(pid as nat);
        assert(r@ =~= a + "-"@ + b);
        lemma_lower_hex_chars(nanos as nat);
        lemma_lower_hex_chars(pid as nat);
        assert forall|i: int| 0 <= i < r@.len() implies is_id_char(#[trigger] r@[i]) by {
            if i < a.len() {
                assert(r@[i] == a[i]);
            } else if i > a.len() {
                assert(r@[i] == b[i - a.len() - 1]);
            }
        }
        lemma_id_chars_encode(r@);
        assert(pow16(32) == 0x1_0000_0000_0000_0000_0000_0000_0000_0000) by {
            reveal_with_fuel(pow16, 33);
        }
        assert(pow16(8) == 0x1_0000_0000) by {
            reveal_with_fuel(pow16, 9);
        }
        assert(pow16(5) == 0x100000) by {
            reveal_with_fuel(pow16, 6);
        }
        lemma_lower_hex_at_most(nanos as nat, 32);
        lemma_lower_hex_at_most(pid as nat, 8);
        if nanos >= 0x100000 {
            lemma_lower_hex_at_least(nanos as nat, 5);
        }
    }
    r
}

} // verus!
