use vstd::prelude::*;
use vstd::string::StringSliceAdditionalSpecFns;
use vstd::utf8::*;

use crate::text::{lemma_encode_utf8_concat, lemma_encode_utf8_injective, str_equal};

verus! {

broadcast use vstd::utf8::group_utf8_lib;

/// A byte offset clamped into `[0, len]`.
pub open spec fn clamp_cursor(cursor: int, len: int) -> int {
    if cursor < len {
        cursor
    } else {
        len
    }
}

/// `p` is the start of the character that ends at byte `c`: the last
/// character boundary strictly before `c`.
pub open spec fn is_prev_boundary(bytes: Seq<u8>, c: int, p: int) -> bool {
    &&& 0 <= p < c
    &&& is_char_boundary(bytes, p)
    &&& forall|q: int| p < q < c ==> !is_char_boundary(bytes, q)
}

/// `n` is the end of the character that starts at byte `c`: the first
/// character boundary strictly after `c`.
pub open spec fn is_next_boundary(bytes: Seq<u8>, c: int, n: int) -> bool {
    &&& c < n <= bytes.len()
    &&& is_char_boundary(bytes, n)
    &&& forall|q: int| c < q < n ==> !is_char_boundary(bytes, q)
}

/// The last character boundary strictly before `c`.
pub open spec fn prev_boundary(bytes: Seq<u8>, c: int) -> int {
    choose|p: int| is_prev_boundary(bytes, c, p)
}

/// The first character boundary strictly after `c`.
pub open spec fn next_boundary(bytes: Seq<u8>, c: int) -> int {
    choose|n: int| is_next_boundary(bytes, c, n)
}

proof fn lemma_prev_scan(bytes: Seq<u8>, c: int, p: int)
    requires
        0 <= p < c,
        is_char_boundary(bytes, 0),
        forall|q: int| p < q < c ==> !is_char_boundary(bytes, q),
    ensures
        exists|r: int| is_prev_boundary(bytes, c, r),
    decreases p,
{
    if p == 0 || is_char_boundary(bytes, p) {
        assert(is_prev_boundary(bytes, c, p));
    } else {
        lemma_prev_scan(bytes, c, p - 1);
    }
}

proof fn lemma_next_scan(bytes: Seq<u8>, c: int, n: int)
    requires
        c < n <= bytes.len(),
        is_char_boundary(bytes, bytes.len() as int),
        forall|q: int| c < q < n ==> !is_char_boundary(bytes, q),
    ensures
        exists|r: int| is_next_boundary(bytes, c, r),
    decreases bytes.len() - n,
{
    if n == bytes.len() || is_char_boundary(bytes, n) {
        assert(is_next_boundary(bytes, c, n));
    } else {
        lemma_next_scan(bytes, c, n + 1);
    }
}

/// In valid UTF-8, every offset `0 < c <= len` has a previous boundary,
/// and it is unique.
pub proof fn lemma_prev_boundary(bytes: Seq<u8>, c: int)
    requires
        valid_utf8(bytes),
        0 < c <= bytes.len(),
    ensures
        is_prev_boundary(bytes, c, prev_boundary(bytes, c)),
        forall|p: int| is_prev_boundary(bytes, c, p) ==> p == prev_boundary(bytes, c),
{
    assert(is_char_boundary(bytes, 0));
    lemma_prev_scan(bytes, c, c - 1);
    assert forall|p2: int| is_prev_boundary(bytes, c, p2) implies p2 == prev_boundary(bytes, c) by {
        let p1 = prev_boundary(bytes, c);
        if p1 < p2 {
            assert(!is_char_boundary(bytes, p2));
        } else if p2 < p1 {
            assert(!is_char_boundary(bytes, p1));
        }
    }
}

/// In valid UTF-8, every offset `0 <= c < len` has a next boundary, and it
/// is unique.
pub proof fn lemma_next_boundary(bytes: Seq<u8>, c: int)
    requires
        valid_utf8(bytes),
        0 <= c < bytes.len(),
    ensures
        is_next_boundary(bytes, c, next_boundary(bytes, c)),
        forall|n: int| is_next_boundary(bytes, c, n) ==> n == next_boundary(bytes, c),
{
    assert(is_char_boundary(bytes, bytes.len() as int));
    lemma_next_scan(bytes, c, c + 1);
    assert forall|n2: int| is_next_boundary(bytes, c, n2) implies n2 == next_boundary(bytes, c) by {
        let n1 = next_boundary(bytes, c);
        if n1 < n2 {
            assert(!is_char_boundary(bytes, n1));
        } else if n2 < n1 {
            assert(!is_char_boundary(bytes, n2));
        }
    }
}

/// The six key names are pairwise different.
pub proof fn lemma_key_names_distinct()
    ensures
        "Backspace"@ != "Delete"@,
        "Backspace"@ != "Left"@,
        "Backspace"@ != "Right"@,
        "Backspace"@ != "Home"@,
        "Backspace"@ != "End"@,
        "Delete"@ != "Left"@,
        "Delete"@ != "Right"@,
        "Delete"@ != "Home"@,
        "Delete"@ != "End"@,
        "Left"@ != "Right"@,
        "Left"@ != "Home"@,
        "Left"@ != "End"@,
        "Right"@ != "Home"@,
        "Right"@ != "End"@,
        "Home"@ != "End"@,
{
    reveal_strlit("Backspace");
    reveal_strlit("Delete");
    reveal_strlit("Left");
    reveal_strlit("Right");
    reveal_strlit("Home");
    reveal_strlit("End");
    assert("Backspace"@.len() == 9);
    assert("Delete"@.len() == 6);
    assert("Left"@.len() == 4);
    assert("Right"@.len() == 5);
    assert("Home"@.len() == 4);
    assert("End"@.len() == 3);
    assert("Left"@[0] == 'L');
    assert("Home"@[0] == 'H');
}

/// What an editing key does to the UTF-8 bytes of a text input and to its
/// caret: `out` and `out_cursor` are the new bytes and caret when `key` is
/// pressed on `bytes` with the caret at byte `cursor` (clamped to the end).
pub open spec fn key_effect(
    bytes: Seq<u8>,
    cursor: int,
    key: Seq<char>,
    out: Seq<u8>,
    out_cursor: int,
) -> bool {
    let len = bytes.len() as int;
    let c = clamp_cursor(cursor, len);
    if key == "Backspace"@ {
        if c == 0 {
            out == bytes && out_cursor == 0
        } else {
            let p = prev_boundary(bytes, c);
            out == bytes.subrange(0, p) + bytes.subrange(c, len) && out_cursor == p
        }
    } else if key == "Delete"@ {
        if c >= len {
            out == bytes && out_cursor == c
        } else {
            let n = next_boundary(bytes, c);
            out == bytes.subrange(0, c) + bytes.subrange(n, len) && out_cursor == c
        }
    } else if key == "Left"@ {
        out == bytes && out_cursor == (if c == 0 {
            0
        } else {
            prev_boundary(bytes, c)
        })
    } else if key == "Right"@ {
        out == bytes && out_cursor == (if c >= len {
            len
        } else {
            next_boundary(bytes, c)
        })
    } else if key == "Home"@ {
        out == bytes && out_cursor == 0
    } else if key == "End"@ {
        out == bytes && out_cursor == len
    } else {
        out == bytes && out_cursor == c
    }
}

/// Whether `key` deletes text (and so needs the caret on a character boundary).
pub open spec fn is_deleting_key(key: Seq<char>) -> bool {
    key == "Backspace"@ || key == "Delete"@
}

/// Scans back from `c - 1` to the start of the character that ends at `c`.
fn find_prev_boundary(value: &str, c: usize) -> (p: usize)
    requires
        0 < c <= value.spec_bytes().len(),
    ensures
        p == prev_boundary(value.spec_bytes(), c as int),
{
    let ghost bytes = value.spec_bytes();
    proof {
        lemma_prev_boundary(bytes, c as int);
    }
    let mut prev: usize = c - 1;
    while prev > 0 && !value.is_char_boundary(prev)
        invariant
            0 <= prev < c,
            bytes == value.spec_bytes(),
            valid_utf8(bytes),
            c <= bytes.len(),
            forall|q: int| prev < q < c ==> !is_char_boundary(bytes, q),
        decreases prev,
    {
        prev = prev - 1;
    }
    proof {
        lemma_prev_boundary(bytes, c as int);
        assert(is_char_boundary(bytes, 0));
        assert(is_prev_boundary(bytes, c as int, prev as int));
    }
    prev
}

/// Scans forward from `c + 1` to the end of the character that starts at `c`.
fn find_next_boundary(value: &str, c: usize) -> (n: usize)
    requires
        c < value.spec_bytes().len(),
    ensures
        n == next_boundary(value.spec_bytes(), c as int),
{
    let ghost bytes = value.spec_bytes();
    let len = value.as_bytes().len();
    proof {
        lemma_next_boundary(bytes, c as int);
    }
    let mut next: usize = c + 1;
    while next < len && !value.is_char_boundary(next)
        invariant
            c < next <= len,
            len == bytes.len(),
            bytes == value.spec_bytes(),
            valid_utf8(bytes),
            forall|q: int| c < q < next ==> !is_char_boundary(bytes, q),
        decreases len - next,
    {
        next = next + 1;
    }
    proof {
        lemma_next_boundary(bytes, c as int);
        assert(is_char_boundary(bytes, bytes.len() as int));
        assert(is_next_boundary(bytes, c as int, next as int));
    }
    next
}

/// The text made of `value`'s bytes before `from` and from `to` on, both
/// being character boundaries.
fn cut_range(value: &str, from: usize, to: usize) -> (s: String)
    requires
        from <= to <= value.spec_bytes().len(),
        is_char_boundary(value.spec_bytes(), from as int),
        is_char_boundary(value.spec_bytes(), to as int),
    ensures
        encode_utf8(s@) == value.spec_bytes().subrange(0, from as int) + value.spec_bytes().subrange(
            to as int,
            value.spec_bytes().len() as int,
        ),
{
    let (head, _) = value.split_at(from);
    let (_, tail) = value.split_at(to);
    let mut s = head.to_owned();
    s.append(tail);
    proof {
        lemma_encode_utf8_concat(head@, tail@);
    }
    s
}

/// Applies a non-printable editing key to a `(value, cursor)` pair and
/// returns `(new_value, new_cursor)`. `cursor` is a UTF-8 byte offset,
/// clamped to `[0, value.len()]` first.
///
/// The keys understood are `"Backspace"`, `"Delete"`, `"Left"`, `"Right"`,
/// `"Home"` and `"End"`; any other key leaves both unchanged (but for the
/// clamping). Deletion and caret moves step over whole characters, so a
/// caret on a character boundary stays on one.
pub fn apply_text_input_key(value: &str, cursor: usize, key: &str) -> (res: (String, usize))
    requires
        is_deleting_key(key@) ==> is_char_boundary(
            value.spec_bytes(),
            clamp_cursor(cursor as int, value.spec_bytes().len() as int),
        ),
    ensures
        key_effect(value.spec_bytes(), cursor as int, key@, encode_utf8(res.0@), res.1 as int),
{
    let len = value.as_bytes().len();
    let c = if cursor < len {
        cursor
    } else {
        len
    };
    let ghost bytes = value.spec_bytes();
    proof {
        assert(is_char_boundary(bytes, 0));
        assert(is_char_boundary(bytes, bytes.len() as int));
        lemma_encode_utf8_injective(value@, value@);
    }
    if str_equal(key, "Backspace") {
        if c == 0 {
            return (value.to_owned(), 0);
        }
        let prev = find_prev_boundary(value, c);
        proof {
            lemma_prev_boundary(bytes, c as int);
        }
        let new_value = cut_range(value, prev, c);
        (new_value, prev)
    } else if str_equal(key, "Delete") {
        if c >= len {
            return (value.to_owned(), c);
        }
        let next = find_next_boundary(value, c);
        proof {
            lemma_next_boundary(bytes, c as int);
        }
        let new_value = cut_range(value, c, next);
        (new_value, c)
    } else if str_equal(key, "Left") {
        if c == 0 {
            return (value.to_owned(), 0);
        }
        let prev = find_prev_boundary(value, c);
        (value.to_owned(), prev)
    } else if str_equal(key, "Right") {
        if c >= len {
            return (value.to_owned(), len);
        }
        let next = find_next_boundary(value, c);
        (value.to_owned(), next)
    } else if str_equal(key, "Home") {
        (value.to_owned(), 0)
    } else if str_equal(key, "End") {
        (value.to_owned(), len)
    } else {
        (value.to_owned(), c)
    }
}

} // verus!
