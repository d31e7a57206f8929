//! The rule for user and text names.

use vstd::prelude::*;
use vstd::utf8::encode_utf8;

verus! {

/// A byte that may stand in a name: an ASCII letter or digit, `_` or `-`.
pub open spec fn name_byte(b: u8) -> bool {
    (0x30 <= b <= 0x39) || (0x41 <= b <= 0x5a) || (0x61 <= b <= 0x7a) || b == 0x5f || b == 0x2d
}

/// A valid name is non-empty, at most `max` bytes long in UTF-8, and made of
/// name bytes only.
pub open spec fn valid_name_spec(name: Seq<char>, max: nat) -> bool {
    let bytes = encode_utf8(name);
    &&& name.len() > 0
    &&& bytes.len() <= max
    &&& forall|i: int| 0 <= i < bytes.len() ==> name_byte(#[trigger] bytes[i])
}

/// Whether `name` is a valid name of at most `max` bytes.
pub fn valid_name(name: &str, max: usize) -> (r: bool)
    ensures
        r == valid_name_spec(name@, max as nat),
{
    if name.is_empty() {
        return false;
    }
    if name.len() > max {
        return false;
    }
    let bytes = name.as_bytes();
    let mut i: usize = 0;
    while i < bytes.len()
        invariant
            bytes@ == encode_utf8(name@),
            i <= bytes@.len(),
            forall|j: int| 0 <= j < i ==> name_byte(#[trigger] bytes@[j]),
        decreases bytes@.len() - i,
    {
        let b = bytes[i];
        let ok = (0x30u8 <= b && b <= 0x39u8) || (0x41u8 <= b && b <= 0x5au8) || (0x61u8 <= b
            && b <= 0x7au8) || b == 0x5fu8 || b == 0x2du8;
        if !ok {
            assert(!name_byte(bytes@[i as int]));
            return false;
        }
        i = i + 1;
    }
    true
}

/// A character outside ASCII encodes to a first byte that no name byte is.
proof fn lemma_non_ascii_first_byte(c: char)
    requires
        (c as u32) > 0x7f,
    ensures
        !name_byte(encode_utf8(seq![c])[0]),
{
    vstd::utf8::char_is_scalar(c);
    let s = c as u32;
    assert(encode_utf8(seq![c]) =~= vstd::utf8::encode_scalar(s) + encode_utf8(seq![c].drop_first()));
    let b = vstd::utf8::encode_scalar(s)[0];
    assert(b == vstd::utf8::leading_byte_width_2(s) || b == vstd::utf8::leading_byte_width_3(s)
        || b == vstd::utf8::leading_byte_width_4(s));
    assert(0xC0u8 | (((s >> 6) & 0x1F) as u8) >= 0xC0u8) by (bit_vector);
    assert(0xE0u8 | (((s >> 12) & 0x0F) as u8) >= 0xC0u8) by (bit_vector);
    assert(0xF0u8 | (((s >> 18) & 0x7) as u8) >= 0xC0u8) by (bit_vector);
}

/// A character's code as a `u32` is its code.
proof fn lemma_char_code(c: char)
    ensures
        (c as u32) as int == c as int,
        (c <= '\u{7f}') <==> (c as int) <= 0x7f,
        '\0' <= c,
{
}

/// When every byte of a name's encoding is a name byte, every character is ASCII.
proof fn lemma_name_bytes_ascii(name: Seq<char>)
    requires
        forall|i: int| 0 <= i < encode_utf8(name).len() ==> name_byte(#[trigger] encode_utf8(name)[i]),
    ensures
        vstd::utf8::is_ascii_chars(name),
    decreases name.len(),
{
    if name.len() > 0 {
        let c = name[0];
        vstd::utf8::char_is_scalar(c);
        let s = c as u32;
        let e = vstd::utf8::encode_scalar(s);
        assert(encode_utf8(name) == e + encode_utf8(name.drop_first()));
        assert(encode_utf8(seq![c]) =~= e + encode_utf8(seq![c].drop_first()));
        if s > 0x7f {
            lemma_non_ascii_first_byte(c);
            assert(encode_utf8(name)[0] == e[0]);
            assert(false);
        }
        assert(e.len() == 1);
        assert forall|i: int| 0 <= i < encode_utf8(name.drop_first()).len() implies name_byte(
            #[trigger] encode_utf8(name.drop_first())[i],
        ) by {
            assert(encode_utf8(name)[i + 1] == encode_utf8(name.drop_first())[i]);
        }
        lemma_name_bytes_ascii(name.drop_first());
        assert forall|i: int| 0 <= i < name.len() implies '\0' <= #[trigger] name[i] <= '\u{7f}' by {
            if i > 0 {
                assert(name[i] == name.drop_first()[i - 1]);
                assert('\0' <= name.drop_first()[i - 1] <= '\u{7f}');
            } else {
                lemma_char_code(name[0]);
            }
        }
    }
}

/// A name is valid exactly when it is non-empty, at most `max` characters
/// long, and each of its characters is an ASCII letter, an ASCII digit, `_`
/// or `-`. (Such characters take one byte each, so the limit in characters is
/// the limit in bytes.)
pub proof fn law_valid_name_characters(name: Seq<char>, max: nat)
    ensures
        valid_name_spec(name, max) <==> {
            &&& name.len() > 0
            &&& name.len() <= max
            &&& forall|i: int|
                0 <= i < name.len() ==> ('a' <= #[trigger] name[i] && name[i] <= 'z') || ('A' <= name[i]
                    && name[i] <= 'Z') || ('0' <= name[i] && name[i] <= '9') || name[i] == '_' || name[i]
                    == '-'
        },
{
    let bytes = encode_utf8(name);
    if forall|i: int|
        0 <= i < name.len() ==> ('a' <= #[trigger] name[i] && name[i] <= 'z') || ('A' <= name[i]
            && name[i] <= 'Z') || ('0' <= name[i] && name[i] <= '9') || name[i] == '_' || name[i]
            == '-' {
        assert(vstd::utf8::is_ascii_chars(name)) by {
            assert forall|i: int| 0 <= i < name.len() implies '\0' <= #[trigger] name[i] <= '\u{7f}' by {
            }
        }
        vstd::utf8::is_ascii_chars_encode_utf8(name);
        assert forall|i: int| 0 <= i < bytes.len() implies name_byte(#[trigger] bytes[i]) by {
            assert(name[i] as u8 == bytes[i]);
        }
    }
    if forall|i: int| 0 <= i < bytes.len() ==> name_byte(#[trigger] bytes[i]) {
        lemma_name_bytes_ascii(name);
        vstd::utf8::is_ascii_chars_encode_utf8(name);
        assert forall|i: int| 0 <= i < name.len() implies ('a' <= #[trigger] name[i] && name[i]
            <= 'z') || ('A' <= name[i] && name[i] <= 'Z') || ('0' <= name[i] && name[i] <= '9')
            || name[i] == '_' || name[i] == '-' by {
            assert(name[i] as u8 == bytes[i]);
            assert(name_byte(bytes[i]));
            assert('\0' <= name[i] <= '\u{7f}');
        }
    }
}

} // verus!
