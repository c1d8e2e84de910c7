//! Desktop names as Windows reports them.

use vstd::prelude::*;
use vstd::utf8::{char_is_scalar, char_u32_cast};
use crate::text::{char_utf16, from_utf16_lossy, utf16_decode_lossy, utf16_encode};

verus! {

/// Index of the first NUL unit at or after `i`, or the length of `buf`.
pub open spec fn nul_from(buf: Seq<u16>, i: int) -> int
    decreases buf.len() - i,
{
    if i >= buf.len() {
        buf.len() as int
    } else if buf[i] == 0 {
        i
    } else {
        nul_from(buf, i + 1)
    }
}

/// The text of a NUL-terminated UTF-16 buffer: the units before the first
/// NUL (all of them when there is none), decoded.
pub open spec fn nul_terminated_text(buf: Seq<u16>) -> Seq<char> {
    utf16_decode_lossy(buf.subrange(0, nul_from(buf, 0)))
}

/// Decode a NUL-terminated UTF-16 buffer, such as the name
/// `GetUserObjectInformationW` writes.
pub fn trim(buf: &[u16]) -> (s: String)
    ensures
        s@ == nul_terminated_text(buf@),
{
    let mut end: usize = 0;
    while end < buf.len() && buf[end] != 0
        invariant
            end <= buf@.len(),
            nul_from(buf@, end as int) == nul_from(buf@, 0),
        decreases buf@.len() - end,
    {
        end += 1;
    }
    from_utf16_lossy(vstd::slice::slice_subrange(buf, 0, end))
}


proof fn lemma_nul_from_is(buf: Seq<u16>, i: int, j: int)
    requires
        0 <= i <= j < buf.len(),
        buf[j] == 0,
        forall|k: int| i <= k < j ==> buf[k] != 0,
    ensures
        nul_from(buf, i) == j,
    decreases j - i,
{
    if i < j {
        lemma_nul_from_is(buf, i + 1, j);
    }
}

proof fn lemma_encode_has_no_nul(s: Seq<char>)
    requires
        forall|i: int| 0 <= i < s.len() ==> s[i] != '\0',
    ensures
        forall|k: int| 0 <= k < utf16_encode(s).len() ==> utf16_encode(s)[k] != 0,
    decreases s.len(),
{
    if s.len() > 0 {
        let rest = s.drop_first();
        assert(s[0] != '\0');
        char_is_scalar(s[0]);
        char_u32_cast(s[0], s[0] as u32);
        assert((s[0] as int) != 0);
        lemma_encode_has_no_nul(rest);
        let head = char_utf16(s[0]);
        assert(utf16_encode(s) == head + utf16_encode(rest));
        assert forall|k: int| 0 <= k < utf16_encode(s).len() implies utf16_encode(s)[k] != 0 by {
            if k >= head.len() {
                assert(utf16_encode(s)[k] == utf16_encode(rest)[k - head.len()]);
            }
        }
    }
}

proof fn lemma_decode_encode(s: Seq<char>)
    ensures
        utf16_decode_lossy(utf16_encode(s)) == s,
    decreases s.len(),
{
    if s.len() > 0 {
        let c = s[0];
        let rest = s.drop_first();
        lemma_decode_encode(rest);
        let head = char_utf16(c);
        let us = utf16_encode(s);
        assert(us == head + utf16_encode(rest));
        let v = c as int;
        let u = c as u32;
        char_is_scalar(c);
        char_u32_cast(c, u);
        assert(v == u as int);
        if v < 0x10000 {
            assert(us.drop_first() == utf16_encode(rest));
            assert((v as u16) as int == v);
            assert((v as u16) as char == u as char);
            assert((v as u16) as char == c);
            assert(utf16_decode_lossy(us) == seq![c] + rest);
        } else {
            let w = v - 0x10000;
            assert(us.subrange(2, us.len() as int) == utf16_encode(rest));
            assert(0 <= w < 0x100000);
            assert(0x10000 + (w / 0x400) * 0x400 + w % 0x400 == v);
            assert(utf16_decode_lossy(us) == seq![c] + rest);
        }
        assert(seq![c] + rest == s);
    }
}

/// Law: a name handed to Windows as a wide string reads back unchanged. For
/// any text without a NUL character, decoding the NUL-terminated UTF-16 that
/// [`crate::launch::wide`] produces gives the text back.
pub proof fn law_wide_names_read_back(s: Seq<char>)
    requires
        forall|i: int| 0 <= i < s.len() ==> s[i] != '\0',
    ensures
        nul_terminated_text(utf16_encode(s).push(0)) == s,
{
    let enc = utf16_encode(s);
    let buf = enc.push(0);
    lemma_encode_has_no_nul(s);
    lemma_nul_from_is(buf, 0, enc.len() as int);
    assert(buf.subrange(0, enc.len() as int) == enc);
    lemma_decode_encode(s);
}

} // verus!
