//! Text as UTF-8 bytes.
use vstd::prelude::*;

use crate::text;

verus! {

/// The characters of ASCII text as bytes.
pub open spec fn ascii_bytes(s: Seq<char>) -> Seq<u8> {
    Seq::new(s.len(), |i: int| (s[i] as u32) as u8)
}

pub open spec fn is_ascii_bytes(b: Seq<u8>) -> bool {
    forall|i: int| 0 <= i < b.len() ==> #[trigger] b[i] < 128
}

/// The text that bytes are the UTF-8 form of.
pub open spec fn utf8_text(b: Seq<u8>) -> Option<Seq<char>> {
    if vstd::utf8::valid_utf8(b) {
        Some(vstd::utf8::decode_utf8(b))
    } else {
        None
    }
}

/// `String::from_utf8`: the text whose UTF-8 form the bytes are, none where
/// they are not valid UTF-8.
#[verifier::external_body]
pub(crate) fn text_of_bytes(bytes: Vec<u8>) -> (r: Option<String>)
    ensures
        text::option_text(r) == utf8_text(bytes@),
{
    String::from_utf8(bytes).ok()
}

/// The UTF-8 form of a text reads back as the text.
pub proof fn law_utf8_round_trip(s: Seq<char>)
    ensures
        utf8_text(vstd::utf8::encode_utf8(s)) == Some(s),
{
    vstd::utf8::encode_utf8_valid_utf8(s);
    vstd::utf8::encode_utf8_decode_utf8(s);
}

/// The UTF-8 form of ASCII text is its characters as bytes.
pub proof fn lemma_ascii_utf8(s: Seq<char>)
    requires
        text::is_ascii_text(s),
    ensures
        vstd::utf8::encode_utf8(s) == ascii_bytes(s),
        is_ascii_bytes(ascii_bytes(s)),
    decreases s.len(),
{
    if s.len() > 0 {
        let rest = s.drop_first();
        assert forall|i: int| 0 <= i < rest.len() implies (#[trigger] rest[i] as u32) < 128 by {
            assert(rest[i] == s[i + 1]);
        }
        lemma_ascii_utf8(rest);
        let c = s[0] as u32;
        assert(c < 128);
        assert(vstd::utf8::leading_byte_width_1(c) == c as u8) by {
            assert(c < 128 ==> (c & 0x7F) as u8 == c as u8) by (bit_vector);
        }
        assert(vstd::utf8::encode_scalar(c) == seq![c as u8]);
        assert forall|i: int| 0 <= i < s.len() implies #[trigger] ascii_bytes(s)[i] == (seq![
            c as u8,
        ] + ascii_bytes(rest))[i] by {
            if i > 0 {
                assert(rest[i - 1] == s[i]);
            }
        }
        assert(ascii_bytes(s) =~= seq![c as u8] + ascii_bytes(rest));
        assert forall|i: int| 0 <= i < s.len() implies #[trigger] ascii_bytes(s)[i] < 128 by {
            assert((s[i] as u32) < 128);
        }
    } else {
        assert(ascii_bytes(s) =~= seq![]);
    }
}

pub open spec fn ascii_text(b: Seq<u8>) -> Seq<char> {
    Seq::new(b.len(), |i: int| b[i] as char)
}

/// ASCII bytes are valid UTF-8 of the characters that they are.
pub proof fn lemma_ascii_text(b: Seq<u8>)
    requires
        is_ascii_bytes(b),
    ensures
        utf8_text(b) == Some(ascii_text(b)),
        vstd::utf8::encode_utf8(ascii_text(b)) == b,
{
    let s = ascii_text(b);
    assert forall|i: int| 0 <= i < s.len() implies (#[trigger] s[i] as u32) < 128 by {
        assert(b[i] < 128);
    }
    lemma_ascii_utf8(s);
    assert(ascii_bytes(s) =~= b);
    law_utf8_round_trip(s);
}

} // verus!
