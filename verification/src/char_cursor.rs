//! A peekable cursor over the characters of a string slice and their byte
//! offsets, built on `itertools::PeekNth` over `str::char_indices`.

use itertools::Itertools;
use itertools::PeekNth;
use std::str::CharIndices;
use vstd::prelude::*;
use vstd::utf8::encode_utf8;
use crate::compiler::CharClass;

verus! {

#[verifier::external_type_specification]
#[verifier::external_body]
pub struct ExCharIndices<'a>(CharIndices<'a>);

#[verifier::external_type_specification]
#[verifier::external_body]
#[verifier::reject_recursive_types(I)]
pub struct ExPeekNth<I: Iterator>(PeekNth<I>);

/// The items that a cursor still has to hand out, front first.
pub uninterp spec fn cursor_items(cursor: PeekNth<CharIndices<'_>>) -> Seq<(usize, char)>;

/// Byte offset of the character at index `i` of `s` in its UTF-8 encoding.
pub open spec fn byte_offset(s: Seq<char>, i: int) -> int {
    encode_utf8(s.take(i)).len() as int
}

/// What `str::char_indices` yields for `s`: every character with its byte offset.
pub open spec fn indexed_chars(s: Seq<char>) -> Seq<(usize, char)> {
    Seq::new(s.len(), |i: int| (byte_offset(s, i) as usize, s[i]))
}

/// `itertools::peek_nth(source.char_indices())`: a cursor whose items are the
/// characters of `source` with their byte offsets, in order.
#[verifier::external_body]
pub fn cursor_new(source: &str) -> (cursor: PeekNth<CharIndices<'_>>)
    ensures
        cursor_items(cursor) == indexed_chars(source@),
{
    itertools::peek_nth(source.char_indices())
}

/// The first item of `items`, if there is one.
pub open spec fn first_item(items: Seq<(usize, char)>) -> Option<(usize, char)> {
    if items.len() > 0 {
        Some(items[0])
    } else {
        None
    }
}

/// `items` with its first item removed, if there is one.
pub open spec fn pop_item(items: Seq<(usize, char)>) -> Seq<(usize, char)> {
    if items.len() > 0 {
        items.drop_first()
    } else {
        items
    }
}

/// Length of the longest prefix of `items` whose characters all belong to `class`.
pub open spec fn class_run(items: Seq<(usize, char)>, class: CharClass) -> nat
    decreases items.len(),
{
    if items.len() > 0 && class.spec_accepts(items[0].1) {
        1 + class_run(items.drop_first(), class)
    } else {
        0
    }
}

/// `PeekNth::peek`, with the peeked item copied out: the cursor keeps its items.
#[verifier::external_body]
pub fn cursor_peek(cursor: &mut PeekNth<CharIndices<'_>>) -> (item: Option<(usize, char)>)
    ensures
        cursor_items(*final(cursor)) == cursor_items(*old(cursor)),
        item == first_item(cursor_items(*old(cursor))),
{
    cursor.peek().copied()
}

/// `Iterator::next` on the cursor: hands out and removes the first item.
#[verifier::external_body]
pub fn cursor_next(cursor: &mut PeekNth<CharIndices<'_>>) -> (item: Option<(usize, char)>)
    ensures
        cursor_items(*final(cursor)) == pop_item(cursor_items(*old(cursor))),
        item == first_item(cursor_items(*old(cursor))),
{
    cursor.next()
}

/// `PeekNth::next_if`: removes and hands out the first item only when its
/// character belongs to `class`; otherwise the cursor keeps its items.
#[verifier::external_body]
pub fn cursor_next_if(cursor: &mut PeekNth<CharIndices<'_>>, class: CharClass) -> (item: Option<(usize, char)>)
    ensures
        ({
            let items = cursor_items(*old(cursor));
            if items.len() > 0 && class.spec_accepts(items[0].1) {
                &&& item == Some(items[0])
                &&& cursor_items(*final(cursor)) == items.drop_first()
            } else {
                &&& item.is_none()
                &&& cursor_items(*final(cursor)) == items
            }
        }),
{
    cursor.next_if(|c| class.accepts(c.1))
}

/// `Itertools::peeking_take_while` drained with `Iterator::last`: removes the
/// longest prefix whose characters belong to `class` and hands out its last item.
#[verifier::external_body]
pub fn cursor_take_while_last(cursor: &mut PeekNth<CharIndices<'_>>, class: CharClass) -> (item: Option<(usize, char)>)
    ensures
        ({
            let items = cursor_items(*old(cursor));
            let k = class_run(items, class);
            &&& cursor_items(*final(cursor)) == items.skip(k as int)
            &&& item == (if k > 0 { Some(items[k - 1]) } else { None::<(usize, char)> })
        }),
{
    cursor.peeking_take_while(|c| class.accepts(c.1)).last()
}

} // verus!
