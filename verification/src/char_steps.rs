use vstd::prelude::*;
use vstd::utf8::*;

use crate::caret_laws::lemma_concat_boundary;
use crate::text::{lemma_encode_utf8_concat, lemma_encode_utf8_injective};
use crate::text_input::{
    clamp_cursor, is_next_boundary, is_prev_boundary, key_effect, lemma_key_names_distinct,
    lemma_next_boundary, lemma_prev_boundary, next_boundary, prev_boundary,
};

verus! {

broadcast use vstd::utf8::group_utf8_lib;

/// The byte offset at which character `k` of `v` starts in its UTF-8
/// encoding (the whole length for `k == v.len()`).
pub open spec fn char_offset(v: Seq<char>, k: int) -> int {
    encode_utf8(v.take(k)).len() as int
}

/// The continuation bytes of a scalar's encoding have the continuation form.
proof fn lemma_continuation_forms(s: u32)
    by (bit_vector)
    ensures
        0x80 <= (0x80 | (s & 0x3F) as u8) <= 0xbf,
        0x80 <= (0x80 | ((s >> 6) & 0x3F) as u8) <= 0xbf,
        0x80 <= (0x80 | ((s >> 12) & 0x3F) as u8) <= 0xbf,
{
}

/// A character encodes to one to four bytes, all but the first of which
/// are continuation bytes.
proof fn lemma_scalar_shape(x: char)
    ensures
        1 <= encode_scalar(x as u32).len() <= 4,
        forall|j: int|
            1 <= j < encode_scalar(x as u32).len() ==> is_continuation_byte(
                #[trigger] encode_scalar(x as u32)[j],
            ),
{
    let s = x as u32;
    lemma_continuation_forms(s);
}

/// The encoding of one character is the encoding of its scalar.
proof fn lemma_encode_single(x: char)
    ensures
        encode_utf8(seq![x]) == encode_scalar(x as u32),
{
    let v = seq![x];
    assert(v.drop_first() =~= Seq::<char>::empty());
    assert(encode_utf8(Seq::<char>::empty()) =~= Seq::<u8>::empty());
    assert(encode_scalar(x as u32) + Seq::<u8>::empty() =~= encode_scalar(x as u32));
}

/// The encoding of `v` splits around character `k`.
proof fn lemma_split_at_char(v: Seq<char>, k: int)
    requires
        0 <= k < v.len(),
    ensures
        encode_utf8(v) == encode_utf8(v.take(k)) + encode_scalar(v[k] as u32) + encode_utf8(
            v.skip(k + 1),
        ),
        encode_utf8(v.take(k + 1)) == encode_utf8(v.take(k)) + encode_scalar(v[k] as u32),
        char_offset(v, k + 1) == char_offset(v, k) + encode_scalar(v[k] as u32).len(),
{
    assert(v.take(k + 1) =~= v.take(k) + seq![v[k]]);
    assert(v =~= v.take(k + 1) + v.skip(k + 1));
    lemma_encode_utf8_concat(v.take(k), seq![v[k]]);
    lemma_encode_utf8_concat(v.take(k + 1), v.skip(k + 1));
    lemma_encode_single(v[k]);
    assert(encode_utf8(v) =~= encode_utf8(v.take(k)) + encode_scalar(v[k] as u32) + encode_utf8(
        v.skip(k + 1),
    ));
}

/// Character offsets start at 0, end at the encoding's length, and grow
/// strictly.
proof fn lemma_offsets_grow(v: Seq<char>, j: int, k: int)
    requires
        0 <= j < k <= v.len(),
    ensures
        char_offset(v, j) < char_offset(v, k),
    decreases k - j,
{
    lemma_split_at_char(v, k - 1);
    lemma_scalar_shape(v[k - 1]);
    if j < k - 1 {
        lemma_offsets_grow(v, j, k - 1);
    }
}

/// The ends of the character offsets.
proof fn lemma_offsets_ends(v: Seq<char>)
    ensures
        char_offset(v, 0) == 0,
        char_offset(v, v.len() as int) == encode_utf8(v).len(),
{
    assert(v.take(0) =~= Seq::<char>::empty());
    assert(v.take(v.len() as int) =~= v);
}

/// Every character offset is a boundary of the encoding.
proof fn lemma_offset_is_boundary(v: Seq<char>, k: int)
    requires
        0 <= k <= v.len(),
    ensures
        is_char_boundary(encode_utf8(v), char_offset(v, k)),
{
    assert(v =~= v.take(k) + v.skip(k));
    lemma_encode_utf8_concat(v.take(k), v.skip(k));
    lemma_concat_boundary(encode_utf8(v.take(k)), encode_utf8(v.skip(k)));
}

/// No byte strictly inside a character's encoding is a boundary.
proof fn lemma_inside_char_not_boundary(v: Seq<char>, k: int, i: int)
    requires
        0 <= k < v.len(),
        char_offset(v, k) < i < char_offset(v, k + 1),
    ensures
        !is_char_boundary(encode_utf8(v), i),
{
    let bytes = encode_utf8(v);
    lemma_split_at_char(v, k);
    lemma_scalar_shape(v[k]);
    lemma_offsets_ends(v);
    if k + 1 < v.len() {
        lemma_offsets_grow(v, k + 1, v.len() as int);
    }
    let j = i - char_offset(v, k);
    assert(bytes[i] == encode_scalar(v[k] as u32)[j]);
    assert(is_continuation_byte(bytes[i]));
}

/// Every boundary of the encoding is a character offset.
proof fn lemma_boundary_is_offset(v: Seq<char>, c: int, k: int)
    requires
        0 <= k <= v.len(),
        char_offset(v, k) <= c,
        is_char_boundary(encode_utf8(v), c),
    ensures
        exists|m: int| 0 <= m <= v.len() && char_offset(v, m) == c,
    decreases v.len() - k,
{
    lemma_offsets_ends(v);
    if char_offset(v, k) == c {
    } else if k == v.len() {
        assert(c <= encode_utf8(v).len());
    } else if c < char_offset(v, k + 1) {
        lemma_inside_char_not_boundary(v, k, c);
    } else {
        lemma_boundary_is_offset(v, c, k + 1);
    }
}

/// The boundary before the end of character `k` is its start.
proof fn lemma_prev_at_offset(v: Seq<char>, k: int)
    requires
        0 <= k < v.len(),
    ensures
        prev_boundary(encode_utf8(v), char_offset(v, k + 1)) == char_offset(v, k),
{
    let bytes = encode_utf8(v);
    lemma_offsets_ends(v);
    lemma_offsets_grow(v, k, k + 1);
    if k + 1 < v.len() {
        lemma_offsets_grow(v, k + 1, v.len() as int);
    }
    if k > 0 {
        lemma_offsets_grow(v, 0, k);
    }
    lemma_offset_is_boundary(v, k);
    assert forall|q: int| char_offset(v, k) < q < char_offset(v, k + 1) implies !is_char_boundary(
        bytes,
        q,
    ) by {
        lemma_inside_char_not_boundary(v, k, q);
    }
    assert(is_prev_boundary(bytes, char_offset(v, k + 1), char_offset(v, k)));
    lemma_prev_boundary(bytes, char_offset(v, k + 1));
}

/// The boundary after the start of character `k` is its end.
proof fn lemma_next_at_offset(v: Seq<char>, k: int)
    requires
        0 <= k < v.len(),
    ensures
        next_boundary(encode_utf8(v), char_offset(v, k)) == char_offset(v, k + 1),
{
    let bytes = encode_utf8(v);
    lemma_offsets_ends(v);
    lemma_offsets_grow(v, k, k + 1);
    if k + 1 < v.len() {
        lemma_offsets_grow(v, k + 1, v.len() as int);
    }
    if k > 0 {
        lemma_offsets_grow(v, 0, k);
    }
    lemma_offset_is_boundary(v, k + 1);
    assert forall|q: int| char_offset(v, k) < q < char_offset(v, k + 1) implies !is_char_boundary(
        bytes,
        q,
    ) by {
        lemma_inside_char_not_boundary(v, k, q);
    }
    assert(is_next_boundary(bytes, char_offset(v, k), char_offset(v, k + 1)));
    lemma_next_boundary(bytes, char_offset(v, k));
}

/// Cutting out the bytes of character `k` leaves the encoding of the text
/// without that character.
proof fn lemma_cut_char(v: Seq<char>, k: int)
    requires
        0 <= k < v.len(),
    ensures
        encode_utf8(v).subrange(0, char_offset(v, k)) + encode_utf8(v).subrange(
            char_offset(v, k + 1),
            encode_utf8(v).len() as int,
        ) == encode_utf8(v.remove(k)),
{
    let bytes = encode_utf8(v);
    lemma_split_at_char(v, k);
    let a = encode_utf8(v.take(k));
    let s = encode_scalar(v[k] as u32);
    let r = encode_utf8(v.skip(k + 1));
    assert(bytes.subrange(0, char_offset(v, k)) =~= a);
    assert(bytes.subrange(char_offset(v, k + 1), bytes.len() as int) =~= r);
    assert(v.remove(k) =~= v.take(k) + v.skip(k + 1));
    lemma_encode_utf8_concat(v.take(k), v.skip(k + 1));
}

/// Each editing key steps over exactly one whole character. With the caret
/// on a character boundary `c` of the text `v`: `Backspace` (for `c > 0`)
/// removes the character that ends at `c` and puts the caret where it
/// started; `Delete` (for `c` before the end) removes the character that
/// starts at `c`; `Left` and `Right` move the caret to the start of the
/// previous character and the end of the next one, leaving the text alone.
pub proof fn law_keys_step_one_char(
    v: Seq<char>,
    cursor: int,
    key: Seq<char>,
    out: Seq<char>,
    out_cursor: int,
)
    requires
        0 <= cursor,
        is_char_boundary(encode_utf8(v), clamp_cursor(cursor, encode_utf8(v).len() as int)),
        key_effect(encode_utf8(v), cursor, key, encode_utf8(out), out_cursor),
    ensures
        ({
            let c = clamp_cursor(cursor, encode_utf8(v).len() as int);
            let len = encode_utf8(v).len() as int;
            &&& key == "Backspace"@ && c > 0 ==> exists|k: int|
                0 <= k < v.len() && char_offset(v, k + 1) == c && out == v.remove(k) && out_cursor
                    == char_offset(v, k)
            &&& key == "Delete"@ && c < len ==> exists|k: int|
                0 <= k < v.len() && char_offset(v, k) == c && out == v.remove(k) && out_cursor
                    == c
            &&& key == "Left"@ && c > 0 ==> exists|k: int|
                0 <= k < v.len() && #[trigger] char_offset(v, k + 1) == c && out == v
                    && out_cursor == char_offset(v, k)
            &&& key == "Right"@ && c < len ==> exists|k: int|
                0 <= k < v.len() && #[trigger] char_offset(v, k) == c && out == v
                    && out_cursor == char_offset(v, k + 1)
        }),
{
    let bytes = encode_utf8(v);
    let len = bytes.len() as int;
    let c = clamp_cursor(cursor, len);
    lemma_key_names_distinct();
    lemma_offsets_ends(v);
    lemma_boundary_is_offset(v, c, 0);
    let m = choose|m: int| 0 <= m <= v.len() && char_offset(v, m) == c;
    lemma_encode_utf8_injective(out, v);
    if c > 0 {
        assert(m > 0);
        let k = m - 1;
        lemma_prev_at_offset(v, k);
        if key == "Backspace"@ {
            lemma_cut_char(v, k);
            lemma_encode_utf8_injective(out, v.remove(k));
        }
    }
    if c < len {
        assert(m < v.len());
        let k = m;
        lemma_next_at_offset(v, k);
        if key == "Delete"@ {
            lemma_cut_char(v, k);
            lemma_encode_utf8_injective(out, v.remove(k));
        }
    }
}

} // verus!
