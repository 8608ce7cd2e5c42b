use vstd::prelude::*;
use vstd::utf8::*;

use crate::text_input::{
    clamp_cursor, is_deleting_key, is_next_boundary, is_prev_boundary, key_effect,
    lemma_key_names_distinct, lemma_next_boundary, lemma_prev_boundary, next_boundary, prev_boundary,
};

verus! {

broadcast use vstd::utf8::group_utf8_lib;

/// Joining two valid UTF-8 sequences gives a valid one, with a character
/// boundary at the seam.
pub proof fn lemma_concat_boundary(a: Seq<u8>, b: Seq<u8>)
    requires
        valid_utf8(a),
        valid_utf8(b),
    ensures
        valid_utf8(a + b),
        is_char_boundary(a + b, a.len() as int),
{
    let ab = a + b;
    assert(valid_utf8(ab));
    if b.len() == 0 {
        assert(ab =~= a);
        assert(is_char_boundary(ab, ab.len() as int));
    } else {
        assert(ab[a.len() as int] == b[0]);
        assert(valid_first_scalar(b));
        let x = b[0];
        assert(!is_continuation_byte(x));
        assert(is_char_boundary(ab, a.len() as int));
    }
}

/// The two ends of a cut are valid UTF-8 and the cut text has a boundary
/// where they meet.
pub proof fn lemma_cut_boundary(bytes: Seq<u8>, from: int, to: int)
    requires
        valid_utf8(bytes),
        0 <= from <= to <= bytes.len(),
        is_char_boundary(bytes, from),
        is_char_boundary(bytes, to),
    ensures
        valid_utf8(bytes.subrange(0, from) + bytes.subrange(to, bytes.len() as int)),
        is_char_boundary(
            bytes.subrange(0, from) + bytes.subrange(to, bytes.len() as int),
            from,
        ),
{
    assert(valid_utf8(bytes.subrange(0, from)));
    assert(valid_utf8(bytes.subrange(to, bytes.len() as int)));
    lemma_concat_boundary(bytes.subrange(0, from), bytes.subrange(to, bytes.len() as int));
}

/// The editing keys the library understands: all but these leave the caret
/// where it was.
pub open spec fn is_editing_key(key: Seq<char>) -> bool {
    ||| key == "Backspace"@
    ||| key == "Delete"@
    ||| key == "Left"@
    ||| key == "Right"@
    ||| key == "Home"@
    ||| key == "End"@
}

/// The caret never lands inside a character: after any key, the new caret
/// is within the new text and on one of its character boundaries, provided
/// the key is an editing key or the caret started on a boundary. (Deleting
/// keys ask for a caret on a boundary in any case.)
pub proof fn law_caret_stays_on_boundary(
    bytes: Seq<u8>,
    cursor: int,
    key: Seq<char>,
    out: Seq<u8>,
    out_cursor: int,
)
    requires
        valid_utf8(bytes),
        0 <= cursor,
        is_deleting_key(key) ==> is_char_boundary(
            bytes,
            clamp_cursor(cursor, bytes.len() as int),
        ),
        is_editing_key(key) || is_char_boundary(bytes, clamp_cursor(cursor, bytes.len() as int)),
        key_effect(bytes, cursor, key, out, out_cursor),
    ensures
        valid_utf8(out),
        0 <= out_cursor <= out.len(),
        is_char_boundary(out, out_cursor),
{
    let len = bytes.len() as int;
    let c = clamp_cursor(cursor, len);
    assert(is_char_boundary(bytes, 0));
    assert(is_char_boundary(bytes, len));
    if key == "Backspace"@ {
        if c > 0 {
            lemma_prev_boundary(bytes, c);
            let p = prev_boundary(bytes, c);
            lemma_cut_boundary(bytes, p, c);
        }
    } else if key == "Delete"@ {
        if c < len {
            lemma_next_boundary(bytes, c);
            let n = next_boundary(bytes, c);
            lemma_cut_boundary(bytes, c, n);
        }
    } else if key == "Left"@ {
        if c > 0 {
            lemma_prev_boundary(bytes, c);
        }
    } else if key == "Right"@ {
        if c < len {
            lemma_next_boundary(bytes, c);
        }
    }
}

/// Stepping back a character and then forward again returns to the start,
/// for a caret on a boundary that is not at the start of the text.
pub proof fn lemma_prev_then_next(bytes: Seq<u8>, c: int)
    requires
        valid_utf8(bytes),
        0 < c <= bytes.len(),
        is_char_boundary(bytes, c),
    ensures
        0 <= prev_boundary(bytes, c) < bytes.len(),
        next_boundary(bytes, prev_boundary(bytes, c)) == c,
{
    lemma_prev_boundary(bytes, c);
    let p = prev_boundary(bytes, c);
    lemma_next_boundary(bytes, p);
    assert(is_next_boundary(bytes, p, c));
}

/// Stepping forward a character and then back again returns to the start,
/// for a caret on a boundary that is not at the end of the text.
pub proof fn lemma_next_then_prev(bytes: Seq<u8>, c: int)
    requires
        valid_utf8(bytes),
        0 <= c < bytes.len(),
        is_char_boundary(bytes, c),
    ensures
        0 < next_boundary(bytes, c) <= bytes.len(),
        prev_boundary(bytes, next_boundary(bytes, c)) == c,
{
    lemma_next_boundary(bytes, c);
    let n = next_boundary(bytes, c);
    lemma_prev_boundary(bytes, n);
    assert(is_prev_boundary(bytes, n, c));
}

/// `Left` then `Right` gives back the caret (and the text), for a caret on
/// a boundary after the start of the text.
pub proof fn law_left_then_right(
    bytes: Seq<u8>,
    cursor: int,
    mid: Seq<u8>,
    mid_cursor: int,
    out: Seq<u8>,
    out_cursor: int,
)
    requires
        valid_utf8(bytes),
        0 < cursor <= bytes.len(),
        is_char_boundary(bytes, cursor),
        key_effect(bytes, cursor, "Left"@, mid, mid_cursor),
        key_effect(mid, mid_cursor, "Right"@, out, out_cursor),
    ensures
        out == bytes,
        out_cursor == cursor,
{
    lemma_key_names_distinct();
    lemma_prev_then_next(bytes, cursor);
}

/// `Right` then `Left` gives back the caret (and the text), for a caret on
/// a boundary before the end of the text.
pub proof fn law_right_then_left(
    bytes: Seq<u8>,
    cursor: int,
    mid: Seq<u8>,
    mid_cursor: int,
    out: Seq<u8>,
    out_cursor: int,
)
    requires
        valid_utf8(bytes),
        0 <= cursor < bytes.len(),
        is_char_boundary(bytes, cursor),
        key_effect(bytes, cursor, "Right"@, mid, mid_cursor),
        key_effect(mid, mid_cursor, "Left"@, out, out_cursor),
    ensures
        out == bytes,
        out_cursor == cursor,
{
    lemma_key_names_distinct();
    lemma_next_then_prev(bytes, cursor);
}

/// `Backspace` is `Left` followed by `Delete`, for a caret on a boundary
/// after the start of the text.
pub proof fn law_backspace_is_left_then_delete(
    bytes: Seq<u8>,
    cursor: int,
    out: Seq<u8>,
    out_cursor: int,
    mid: Seq<u8>,
    mid_cursor: int,
    out2: Seq<u8>,
    out2_cursor: int,
)
    requires
        valid_utf8(bytes),
        0 < cursor <= bytes.len(),
        is_char_boundary(bytes, cursor),
        key_effect(bytes, cursor, "Backspace"@, out, out_cursor),
        key_effect(bytes, cursor, "Left"@, mid, mid_cursor),
        key_effect(mid, mid_cursor, "Delete"@, out2, out2_cursor),
    ensures
        out2 == out,
        out2_cursor == out_cursor,
{
    lemma_key_names_distinct();
    lemma_prev_then_next(bytes, cursor);
}

} // verus!

verus! {

/// `End` leaves the text alone and puts the caret after its last byte,
/// wherever the caret was.
pub proof fn law_end_goes_to_text_end(bytes: Seq<u8>, cursor: int, out: Seq<u8>, out_cursor: int)
    requires
        0 <= cursor,
        key_effect(bytes, cursor, "End"@, out, out_cursor),
    ensures
        out == bytes,
        out_cursor == bytes.len(),
{
    lemma_key_names_distinct();
}

/// `Home` leaves the text alone and puts the caret at byte 0, wherever the
/// caret was.
pub proof fn law_home_goes_to_text_start(
    bytes: Seq<u8>,
    cursor: int,
    out: Seq<u8>,
    out_cursor: int,
)
    requires
        0 <= cursor,
        key_effect(bytes, cursor, "Home"@, out, out_cursor),
    ensures
        out == bytes,
        out_cursor == 0,
{
    lemma_key_names_distinct();
}

/// `Left` leaves the text alone and never moves the caret forward: at the
/// start it stays at 0, elsewhere it goes to the nearest character boundary
/// strictly before the (clamped) caret.
pub proof fn law_left_moves_back(bytes: Seq<u8>, cursor: int, out: Seq<u8>, out_cursor: int)
    requires
        valid_utf8(bytes),
        0 <= cursor,
        key_effect(bytes, cursor, "Left"@, out, out_cursor),
    ensures
        ({
            let c = if cursor < bytes.len() {
                cursor
            } else {
                bytes.len() as int
            };
            &&& out == bytes
            &&& 0 <= out_cursor <= c
            &&& c == 0 ==> out_cursor == 0
            &&& c > 0 ==> {
                &&& out_cursor < c
                &&& is_char_boundary(bytes, out_cursor)
                &&& forall|q: int| out_cursor < q < c ==> !is_char_boundary(bytes, q)
            }
        }),
{
    lemma_key_names_distinct();
    let c = clamp_cursor(cursor, bytes.len() as int);
    if c > 0 {
        lemma_prev_boundary(bytes, c);
    }
}

/// `Right` leaves the text alone and never moves the caret back: at the
/// end it stays at the end, elsewhere it goes to the nearest character
/// boundary strictly after the (clamped) caret.
pub proof fn law_right_moves_forward(bytes: Seq<u8>, cursor: int, out: Seq<u8>, out_cursor: int)
    requires
        valid_utf8(bytes),
        0 <= cursor,
        key_effect(bytes, cursor, "Right"@, out, out_cursor),
    ensures
        ({
            let c = if cursor < bytes.len() {
                cursor
            } else {
                bytes.len() as int
            };
            &&& out == bytes
            &&& c <= out_cursor <= bytes.len()
            &&& c == bytes.len() ==> out_cursor == bytes.len()
            &&& c < bytes.len() ==> {
                &&& c < out_cursor
                &&& is_char_boundary(bytes, out_cursor)
                &&& forall|q: int| c < q < out_cursor ==> !is_char_boundary(bytes, q)
            }
        }),
{
    lemma_key_names_distinct();
    let c = clamp_cursor(cursor, bytes.len() as int);
    if c < bytes.len() {
        lemma_next_boundary(bytes, c);
    }
}

/// `Backspace` at the start changes nothing; elsewhere it removes the bytes
/// from the nearest character boundary before the caret up to the caret,
/// and puts the caret at that boundary.
pub proof fn law_backspace_removes_before_caret(
    bytes: Seq<u8>,
    cursor: int,
    out: Seq<u8>,
    out_cursor: int,
)
    requires
        valid_utf8(bytes),
        0 <= cursor,
        key_effect(bytes, cursor, "Backspace"@, out, out_cursor),
    ensures
        ({
            let c = if cursor < bytes.len() {
                cursor
            } else {
                bytes.len() as int
            };
            &&& c == 0 ==> out == bytes && out_cursor == 0
            &&& c > 0 ==> {
                &&& 0 <= out_cursor < c
                &&& is_char_boundary(bytes, out_cursor)
                &&& forall|q: int| out_cursor < q < c ==> !is_char_boundary(bytes, q)
                &&& out == bytes.subrange(0, out_cursor) + bytes.subrange(c, bytes.len() as int)
                &&& out.len() < bytes.len()
            }
        }),
{
    let c = clamp_cursor(cursor, bytes.len() as int);
    if c > 0 {
        lemma_prev_boundary(bytes, c);
    }
}

/// `Delete` at the end changes nothing; elsewhere it removes the bytes from
/// the caret up to the nearest character boundary after it, and leaves the
/// caret where it was.
pub proof fn law_delete_removes_after_caret(
    bytes: Seq<u8>,
    cursor: int,
    out: Seq<u8>,
    out_cursor: int,
)
    requires
        valid_utf8(bytes),
        0 <= cursor,
        key_effect(bytes, cursor, "Delete"@, out, out_cursor),
    ensures
        ({
            let c = if cursor < bytes.len() {
                cursor
            } else {
                bytes.len() as int
            };
            &&& out_cursor == c
            &&& c == bytes.len() ==> out == bytes
            &&& c < bytes.len() ==> {
                &&& out.len() < bytes.len()
                &&& exists|n: int|
                    c < n <= bytes.len() && is_char_boundary(bytes, n) && (forall|q: int|
                        c < q < n ==> !is_char_boundary(bytes, q)) && out == bytes.subrange(0, c)
                        + #[trigger] bytes.subrange(n, bytes.len() as int)
            }
        }),
{
    lemma_key_names_distinct();
    let c = clamp_cursor(cursor, bytes.len() as int);
    if c < bytes.len() {
        lemma_next_boundary(bytes, c);
        let n = next_boundary(bytes, c);
        assert(c < n <= bytes.len() && is_char_boundary(bytes, n));
    }
}

/// Any key other than the six editing keys leaves the text alone and only
/// clamps the caret to the end of the text.
pub proof fn law_other_keys_only_clamp(
    bytes: Seq<u8>,
    cursor: int,
    key: Seq<char>,
    out: Seq<u8>,
    out_cursor: int,
)
    requires
        0 <= cursor,
        !is_editing_key(key),
        key_effect(bytes, cursor, key, out, out_cursor),
    ensures
        out == bytes,
        out_cursor == if cursor < bytes.len() {
            cursor
        } else {
            bytes.len() as int
        },
{
}

} // verus!
