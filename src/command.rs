//! Outbound command frames. Every frame starts with `0xFD`, a payload length
//! byte and `0x16`, followed by the operation's payload.
use vstd::prelude::*;
use vstd::utf8::is_ascii_chars;
use crate::error::ScannerError;

verus! {

pub open spec fn trigger_on_frame() -> Seq<u8> {
    seq![0xFDu8, 0x03u8, 0x16u8, 0x54u8, 0x0Du8]
}

pub open spec fn beep_frame() -> Seq<u8> {
    seq![0xFDu8, 0x03u8, 0x16u8, 0x07u8, 0x0Du8]
}

/// The header of a menu command, which a command text follows.
pub open spec fn menu_command_header() -> Seq<u8> {
    seq![0xFDu8, 0x0Fu8, 0x16u8, 0x4Du8, 0x0Du8]
}

pub open spec fn firmware_info_frame() -> Seq<u8> {
    menu_command_header() + seq![0x52u8, 0x45u8, 0x56u8, 0x49u8, 0x4Eu8, 0x46u8, 0x2Eu8]
}

/// The 7-bit code of each character.
pub open spec fn ascii_bytes(s: Seq<char>) -> Seq<u8> {
    s.map_values(|c: char| c as u8)
}

/// The frame that switches the scanner's trigger on, starting a scan.
pub fn trigger_on_command() -> (r: Vec<u8>)
    ensures
        r@ == trigger_on_frame(),
{
    let r: Vec<u8> = vec![0xFD, 0x03, 0x16, 0x54, 0x0D];
    assert(r@ == trigger_on_frame());
    r
}

/// The frame that makes the scanner beep.
pub fn beep_command() -> (r: Vec<u8>)
    ensures
        r@ == beep_frame(),
{
    let r: Vec<u8> = vec![0xFD, 0x03, 0x16, 0x07, 0x0D];
    assert(r@ == beep_frame());
    r
}

fn menu_command() -> (r: Vec<u8>)
    ensures
        r@ == menu_command_header(),
{
    let r: Vec<u8> = vec![0xFD, 0x0F, 0x16, 0x4D, 0x0D];
    assert(r@ == menu_command_header());
    r
}

/// The frame that asks the scanner for its firmware revision (`REVINF.`).
pub fn firmware_info_command() -> (r: Vec<u8>)
    ensures
        r@ == firmware_info_frame(),
{
    let mut r = menu_command();
    r.push(0x52);
    r.push(0x45);
    r.push(0x56);
    r.push(0x49);
    r.push(0x4E);
    r.push(0x46);
    r.push(0x2E);
    assert(r@ == firmware_info_frame());
    r
}

/// The frame that sends `text` as a menu command: the menu header followed by
/// the 7-bit code of each character. A text with a character outside 7-bit
/// ASCII is refused.
pub fn text_command(text: &str) -> (r: Result<Vec<u8>, ScannerError>)
    ensures
        is_ascii_chars(text@) ==> r is Ok && r->Ok_0@ == menu_command_header() + ascii_bytes(
            text@,
        ),
        !is_ascii_chars(text@) ==> r == Err::<Vec<u8>, ScannerError>(ScannerError::NonAsciiCommand),
{
    let chars = crate::text::chars_of(text);
    let mut r = menu_command();
    let mut i: usize = 0;
    while i < chars.len()
        invariant
            chars@ == text@,
            i <= chars@.len(),
            r@ == menu_command_header() + ascii_bytes(chars@.subrange(0, i as int)),
            is_ascii_chars(chars@.subrange(0, i as int)),
        decreases chars@.len() - i,
    {
        let c = chars[i];
        if !('\0' <= c && c <= '\x7f') {
            assert(!('\0' <= text@[i as int] <= '\u{7f}'));
            return Err(ScannerError::NonAsciiCommand);
        }
        let code: u8 = #[verifier::truncate] (c as u8);
        r.push(code);
        assert(chars@.subrange(0, i + 1) == chars@.subrange(0, i as int).push(c));
        assert(ascii_bytes(chars@.subrange(0, i + 1)) == ascii_bytes(chars@.subrange(0, i as int)).push(
            code,
        ));
        assert forall|j: int| 0 <= j < i + 1 implies '\0' <= #[trigger] chars@.subrange(0, i + 1)[j]
            <= '\u{7f}' by {
            if j < i {
                assert(chars@.subrange(0, i + 1)[j] == chars@.subrange(0, i as int)[j]);
            }
        }
        i = i + 1;
    }
    assert(chars@.subrange(0, chars@.len() as int) == chars@);
    Ok(r)
}

} // verus!
