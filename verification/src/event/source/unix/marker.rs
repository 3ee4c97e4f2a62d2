//! Bracketed pastes, and how the marker that ends one is found one byte at a time.
use crate::event::bytes::{ends_with_marker, opens, paste_end, paste_start, CSI, ESC, OSC};
use crate::event::parse::text::text_of;
use crate::event::parse::{decode, Decoded};
use crate::event::types::{EventView, InternalEventView};
use vstd::prelude::*;

verus! {

/// Whether the marker that ends a paste occurs in bytes.
pub open spec fn holds_paste_end(bytes: Seq<u8>) -> bool {
    exists|end: int| 6 <= end <= bytes.len() && #[trigger] ends_with_marker(bytes.take(end), 6)
}

/// Whether so many bytes of the marker, and no other number but 0, are what the bytes end with.
pub open spec fn matches_marker(bytes: Seq<u8>, matched: int) -> bool {
    &&& 0 <= matched < 6
    &&& ends_with_marker(bytes, matched)
    &&& forall|k: int| 1 <= k < 6 && #[trigger] ends_with_marker(bytes, k) ==> k == matched
}

/// What bytes end with, one byte later.
proof fn lemma_ends_push(bytes: Seq<u8>, byte: u8, matched: int)
    requires
        0 <= matched < 6,
    ensures
        ends_with_marker(bytes.push(byte), matched + 1) <==> ends_with_marker(bytes, matched)
            && byte == paste_end()[matched],
{
    let longer = bytes.push(byte);
    let part = paste_end().take(matched + 1);
    if ends_with_marker(longer, matched + 1) {
        let tail = longer.subrange(longer.len() - part.len(), longer.len() as int);
        assert(part =~= tail);
        assert(part[matched] == tail[matched]);
        assert(paste_end().take(matched) =~= part.take(matched));
        assert(part.take(matched) =~= bytes.subrange(
            bytes.len() - matched,
            bytes.len() as int,
        ));
    }
    if ends_with_marker(bytes, matched) && byte == paste_end()[matched] {
        assert(part =~= paste_end().take(matched).push(byte));
        assert(longer.subrange(longer.len() - part.len(), longer.len() as int)
            =~= bytes.subrange(bytes.len() - matched, bytes.len() as int).push(byte));
    }
}

/// The escape stands only at the front of the marker, so that bytes end with at most one part of
/// it.
proof fn lemma_parts_exclude(bytes: Seq<u8>, shorter: int, longer: int)
    requires
        1 <= shorter < longer <= 6,
        ends_with_marker(bytes, longer),
    ensures
        !ends_with_marker(bytes, shorter),
{
    if ends_with_marker(bytes, shorter) {
        let a = paste_end().take(longer);
        let b = paste_end().take(shorter);
        assert(a[longer - shorter] == bytes[bytes.len() - shorter]);
        assert(b[0] == bytes[bytes.len() - shorter]);
    }
}

/// Bytes that end with a part of the marker end with no other part of it.
pub(crate) proof fn lemma_part_is_unique(bytes: Seq<u8>, matched: int)
    requires
        1 <= matched < 6,
        ends_with_marker(bytes, matched),
    ensures
        matches_marker(bytes, matched),
{
    assert forall|k: int| 1 <= k < 6 && #[trigger] ends_with_marker(bytes, k) implies k
        == matched by {
        if k < matched {
            lemma_parts_exclude(bytes, k, matched);
        } else if matched < k {
            lemma_parts_exclude(bytes, matched, k);
        }
    }
}

/// How the part that bytes end with changes with a byte.
pub(crate) proof fn lemma_marker_step(bytes: Seq<u8>, byte: u8, matched: int)
    requires
        matches_marker(bytes, matched),
    ensures
        ends_with_marker(bytes.push(byte), 6) <==> matched == 5 && byte == paste_end()[5],
        byte == paste_end()[matched] && matched < 5 ==> matches_marker(
            bytes.push(byte),
            matched + 1,
        ),
        byte != paste_end()[matched] && byte == ESC ==> matches_marker(bytes.push(byte), 1),
        byte != paste_end()[matched] && byte != ESC ==> matches_marker(bytes.push(byte), 0),
{
    let next = bytes.push(byte);
    lemma_ends_push(bytes, byte, 5);
    lemma_ends_push(bytes, byte, matched);
    assert(ends_with_marker(bytes, 0)) by {
        assert(paste_end().take(0) =~= bytes.subrange(bytes.len() as int, bytes.len() as int));
    }
    assert(ends_with_marker(next, 0)) by {
        assert(paste_end().take(0) =~= next.subrange(next.len() as int, next.len() as int));
    }
    lemma_ends_push(bytes, byte, 0);
    if byte == paste_end()[matched] {
        if matched < 5 {
            lemma_part_is_unique(next, matched + 1);
        }
    } else if byte == ESC {
        lemma_part_is_unique(next, 1);
    } else {
        assert forall|k: int| 1 <= k < 6 && #[trigger] ends_with_marker(next, k) implies k
            == 0 by {
            lemma_ends_push(bytes, byte, k - 1);
        }
    }
}

/// Bytes in which the marker does not occur do not end with it.
pub(crate) proof fn lemma_holds_end(bytes: Seq<u8>)
    requires
        !holds_paste_end(bytes),
    ensures
        !ends_with_marker(bytes, 6),
{
    if ends_with_marker(bytes, 6) {
        assert(bytes.take(bytes.len() as int) =~= bytes);
    }
}

/// Behind text in which the marker does not occur, nothing but the whole marker completes it.
pub(crate) proof fn lemma_marker_completes_once(text: Seq<u8>, end: int)
    requires
        !holds_paste_end(text),
        0 <= end < text.len() + 6,
    ensures
        !ends_with_marker((text + paste_end()).take(end), 6),
        !holds_paste_end((text + paste_end()).take(end)),
{
    let all = text + paste_end();
    assert forall|e: int| 6 <= e <= end implies !(#[trigger] ends_with_marker(
        all.take(end).take(e),
        6,
    )) by {
        assert(all.take(end).take(e) =~= all.take(e));
        if ends_with_marker(all.take(e), 6) {
            if e <= text.len() {
                assert(all.take(e) =~= text.take(e));
                assert(ends_with_marker(text.take(e), 6));
            } else {
                let marker = paste_end().take(6);
                let inside = e - text.len();
                assert(marker[6 - inside] == all.take(e)[e - inside]);
                assert(all[text.len() as int] == paste_end()[0]);
            }
        }
    }
    lemma_holds_end(all.take(end));
}

/// The marker that begins a paste does not help to complete the one that ends it.
pub(crate) proof fn lemma_start_is_no_end(text: Seq<u8>)
    requires
        !holds_paste_end(text),
    ensures
        !holds_paste_end(paste_start() + text),
{
    let all = paste_start() + text;
    assert forall|e: int| 6 <= e <= all.len() implies !(#[trigger] ends_with_marker(
        all.take(e),
        6,
    )) by {
        if ends_with_marker(all.take(e), 6) {
            let marker = paste_end().take(6);
            assert(marker[0] == all.take(e)[e - 6]);
            assert(marker[4] == all.take(e)[e - 2]);
            if e >= 12 {
                assert(text.take(e - 6) =~= all.take(e).skip(6));
                assert(marker =~= text.take(e - 6).subrange(e - 12, e - 6)) by {
                    assert(all.take(e).subrange(e - 6, e) =~= text.take(e - 6).subrange(
                        e - 12,
                        e - 6,
                    ));
                }
                assert(ends_with_marker(text.take(e - 6), 6));
            }
        }
    }
}

/// A bracketed paste with this text.
pub open spec fn paste(text: Seq<u8>) -> Seq<u8> {
    paste_start() + text + paste_end()
}

/// The bytes of a paste are not decided before its last one.
pub(crate) proof fn lemma_open_paste(text: Seq<u8>, len: int)
    requires
        !holds_paste_end(text),
        1 <= len < text.len() + 12,
    ensures
        decode(paste(text).take(len), true) is Incomplete,
        !opens(paste(text).take(len), OSC),
        !holds_paste_end(paste(text).take(len)),
{
    reveal(decode);
    let bytes = paste(text).take(len);
    if len > 6 {
        let inner = (text + paste_end()).take(len - 6);
        lemma_marker_completes_once(text, len - 6);
        lemma_start_is_no_end(inner);
        assert(bytes =~= paste_start() + inner);
        lemma_holds_end(bytes);
    } else {
        assert(bytes =~= paste_start().take(len));
        assert forall|end: int| 6 <= end <= bytes.len() implies !(#[trigger] ends_with_marker(
            bytes.take(end),
            6,
        )) by {
            if ends_with_marker(bytes.take(end), 6) {
                assert(paste_end().take(6)[4] == bytes.take(end)[4]);
            }
        }
    }
}

/// The last byte of a paste completes it.
pub(crate) proof fn lemma_whole_paste(text: Seq<u8>, more: bool)
    ensures
        decode(paste(text), more) == Decoded::Event(
            InternalEventView::Event(EventView::Paste(text_of(text))),
        ),
{
    reveal(decode);
    let whole = paste(text);
    assert(paste_start().is_prefix_of(whole)) by {
        assert(paste_start() =~= whole.subrange(0, 6));
    }
    assert(ends_with_marker(whole, 6)) by {
        assert(paste_end().take(6) =~= whole.subrange(whole.len() - 6, whole.len() as int));
    }
    assert(whole.subrange(6, whole.len() - 6) =~= text);
}

/// The answer to a request for secondary device attributes, short of its last byte.
pub open spec fn secondary_attributes(body: Seq<u8>) -> Seq<u8> {
    seq![ESC, CSI, 0x3eu8] + body
}

} // verus!
