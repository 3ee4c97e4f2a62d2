//! The bytes that frame control sequences.
use vstd::prelude::*;

verus! {

/// Escape, which begins every control sequence.
pub const ESC: u8 = 0x1b;

/// Bell, which ends an operating system command.
pub const BEL: u8 = 0x07;

/// What Ctrl+C sends.
pub const INTERRUPT: u8 = 0x03;

/// What Ctrl+D sends.
pub const END_OF_FILE: u8 = 0x04;

/// `[`, which behind an escape begins a control sequence with parameters (CSI).
pub const CSI: u8 = 0x5b;

/// `]`, which behind an escape begins an operating system command (OSC).
pub const OSC: u8 = 0x5d;

/// `O`, which behind an escape begins a sequence of one more byte (SS3).
pub const SS3: u8 = 0x4f;

/// `M`, which behind `ESC [` begins a mouse event of three more bytes.
pub const X10: u8 = 0x4d;

/// `\`, which behind an escape ends an operating system command.
pub const BACKSLASH: u8 = 0x5c;

/// `ESC [ 2 0 0 ~`, which begins a bracketed paste.
pub open spec fn paste_start() -> Seq<u8> {
    seq![0x1bu8, 0x5bu8, 0x32u8, 0x30u8, 0x30u8, 0x7eu8]
}

/// `ESC [ 2 0 1 ~`, which ends a bracketed paste.
pub open spec fn paste_end() -> Seq<u8> {
    seq![0x1bu8, 0x5bu8, 0x32u8, 0x30u8, 0x31u8, 0x7eu8]
}

/// Whether bytes begin with an escape and this second byte.
pub open spec fn opens(s: Seq<u8>, second: u8) -> bool {
    s.len() >= 2 && s[0] == ESC && s[1] == second
}

/// Whether bytes begin with `ESC [` and this third byte.
pub open spec fn opens_csi(s: Seq<u8>, third: u8) -> bool {
    opens(s, CSI) && s.len() >= 3 && s[2] == third
}

/// Whether a byte ends a control sequence with parameters.
pub open spec fn is_final(byte: u8) -> bool {
    0x40 <= byte <= 0x7e
}

/// Returns the byte at a place of the marker that begins a paste.
pub fn paste_start_byte(i: usize) -> (r: u8)
    requires
        i < 6,
    ensures
        r == paste_start()[i as int],
{
    match i {
        0 => 0x1b,
        1 => 0x5b,
        2 => 0x32,
        5 => 0x7e,
        _ => 0x30,
    }
}

/// Returns the byte at a place of the marker that ends a paste.
pub fn paste_end_byte(i: usize) -> (r: u8)
    requires
        i < 6,
    ensures
        r == paste_end()[i as int],
{
    match i {
        0 => 0x1b,
        1 => 0x5b,
        2 => 0x32,
        3 => 0x30,
        4 => 0x31,
        _ => 0x7e,
    }
}

/// Returns whether bytes begin with an escape and this second byte.
pub fn begins_with(s: &[u8], second: u8) -> (r: bool)
    ensures
        r == opens(s@, second),
{
    s.len() >= 2 && s[0] == ESC && s[1] == second
}

/// Returns whether bytes begin with `ESC [` and this third byte.
pub fn begins_csi_with(s: &[u8], third: u8) -> (r: bool)
    ensures
        r == opens_csi(s@, third),
{
    s.len() >= 3 && s[0] == ESC && s[1] == CSI && s[2] == third
}

/// Returns whether a byte ends a control sequence with parameters.
pub fn ends_sequence(byte: u8) -> (r: bool)
    ensures
        r == is_final(byte),
{
    0x40 <= byte && byte <= 0x7e
}

/// Returns whether bytes begin with the marker that begins a paste.
pub fn begins_paste(s: &[u8]) -> (r: bool)
    ensures
        r == paste_start().is_prefix_of(s@),
{
    s.len() >= 6 && s[0] == 0x1b && s[1] == 0x5b && s[2] == 0x32 && s[3] == 0x30 && s[4] == 0x30
        && s[5] == 0x7e
}

/// Returns whether bytes are a beginning of the marker that begins a paste.
pub fn is_paste_start_prefix(s: &[u8]) -> (r: bool)
    ensures
        r == s@.is_prefix_of(paste_start()),
{
    if s.len() > 6 {
        return false;
    }
    let mut i: usize = 0;
    while i < s.len()
        invariant
            i <= s@.len() <= 6,
            forall|j: int| 0 <= j < i ==> s@[j] == paste_start()[j],
        decreases s@.len() - i,
    {
        if s[i] != paste_start_byte(i) {
            return false;
        }
        i = i + 1;
    }
    true
}

/// Whether bytes end with the first `matched` bytes of the marker that ends a paste.
pub open spec fn ends_with_marker(s: Seq<u8>, matched: int) -> bool {
    paste_end().take(matched).is_suffix_of(s)
}

/// Returns whether bytes end with the first `matched` bytes of the marker that ends a paste.
pub fn ends_in_marker(s: &[u8], matched: usize) -> (r: bool)
    requires
        matched <= 6,
    ensures
        r == ends_with_marker(s@, matched as int),
{
    if s.len() < matched {
        return false;
    }
    let start: usize = s.len() - matched;
    let mut i: usize = 0;
    while i < matched
        invariant
            i <= matched <= 6,
            start + matched == s.len(),
            forall|j: int| 0 <= j < i ==> s@[start + j] == paste_end()[j],
        decreases matched - i,
    {
        if s[start + i] != paste_end_byte(i) {
            assert(paste_end().take(matched as int)[i as int] != s@.subrange(
                s@.len() - matched,
                s@.len() as int,
            )[i as int]);
            return false;
        }
        i = i + 1;
    }
    assert(s@.subrange(s@.len() - matched, s@.len() as int) =~= paste_end().take(matched as int));
    true
}

/// Returns whether bytes are a lone escape.
pub fn is_lone_escape(bytes: &[u8]) -> (r: bool)
    ensures
        r == (bytes@ == seq![ESC]),
{
    if bytes.len() == 1 && bytes[0] == ESC {
        assert(bytes@ =~= seq![ESC]);
        true
    } else {
        false
    }
}

} // verus!
