//! Text entry from hardware keys.
use vstd::prelude::*;

verus! {

/// Android's key code for the digit 0 (`KeyEvent.KEYCODE_0`); 1 to 9 follow it.
pub const KEYCODE_0: u32 = 7;

/// Android's key code for the letter A (`KeyEvent.KEYCODE_A`); B to Z follow it.
pub const KEYCODE_A: u32 = 29;

/// `KeyEvent.KEYCODE_COMMA`.
pub const KEYCODE_COMMA: u32 = 55;

/// `KeyEvent.KEYCODE_PERIOD`.
pub const KEYCODE_PERIOD: u32 = 56;

/// `KeyEvent.KEYCODE_SPACE`.
pub const KEYCODE_SPACE: u32 = 62;

/// `KeyEvent.KEYCODE_MINUS`.
pub const KEYCODE_MINUS: u32 = 69;

/// The character a key types: lower-case letters, digits, space, period, comma
/// and minus; other keys type nothing.
pub open spec fn key_char(keycode: u32) -> Option<char> {
    if KEYCODE_A <= keycode < KEYCODE_A + 26 {
        Some((('a' as u32) + (keycode - KEYCODE_A)) as char)
    } else if KEYCODE_0 <= keycode < KEYCODE_0 + 10 {
        Some((('0' as u32) + (keycode - KEYCODE_0)) as char)
    } else if keycode == KEYCODE_SPACE {
        Some(' ')
    } else if keycode == KEYCODE_PERIOD {
        Some('.')
    } else if keycode == KEYCODE_COMMA {
        Some(',')
    } else if keycode == KEYCODE_MINUS {
        Some('-')
    } else {
        None
    }
}

/// The character that the key with Android key code `keycode` types, if any.
pub fn keycode_to_char(keycode: u32) -> (c: Option<char>)
    ensures
        c == key_char(keycode),
{
    if KEYCODE_A <= keycode && keycode < KEYCODE_A + 26 {
        let b: u8 = 97u8 + ((keycode - KEYCODE_A) as u8);
        Some(b as char)
    } else if KEYCODE_0 <= keycode && keycode < KEYCODE_0 + 10 {
        let b: u8 = 48u8 + ((keycode - KEYCODE_0) as u8);
        Some(b as char)
    } else if keycode == KEYCODE_SPACE {
        Some(' ')
    } else if keycode == KEYCODE_PERIOD {
        Some('.')
    } else if keycode == KEYCODE_COMMA {
        Some(',')
    } else if keycode == KEYCODE_MINUS {
        Some('-')
    } else {
        None
    }
}


/// The keys and what they type, as Android numbers them: `KEYCODE_A` (29) to
/// `KEYCODE_Z` (54) type the lower-case letters in order, `KEYCODE_0` (7) to
/// `KEYCODE_9` (16) the digits, and space (62), period (56), comma (55) and
/// minus (69) their characters. Consecutive letter keys type consecutive
/// letters, and every other key types nothing.
pub proof fn keys_type_their_characters()
    ensures
        key_char(29) == Some('a'),
        key_char(30) == Some('b'),
        key_char(31) == Some('c'),
        key_char(32) == Some('d'),
        key_char(33) == Some('e'),
        key_char(34) == Some('f'),
        key_char(35) == Some('g'),
        key_char(36) == Some('h'),
        key_char(37) == Some('i'),
        key_char(38) == Some('j'),
        key_char(39) == Some('k'),
        key_char(40) == Some('l'),
        key_char(41) == Some('m'),
        key_char(42) == Some('n'),
        key_char(43) == Some('o'),
        key_char(44) == Some('p'),
        key_char(45) == Some('q'),
        key_char(46) == Some('r'),
        key_char(47) == Some('s'),
        key_char(48) == Some('t'),
        key_char(49) == Some('u'),
        key_char(50) == Some('v'),
        key_char(51) == Some('w'),
        key_char(52) == Some('x'),
        key_char(53) == Some('y'),
        key_char(54) == Some('z'),
        key_char(7) == Some('0'),
        key_char(8) == Some('1'),
        key_char(9) == Some('2'),
        key_char(10) == Some('3'),
        key_char(11) == Some('4'),
        key_char(12) == Some('5'),
        key_char(13) == Some('6'),
        key_char(14) == Some('7'),
        key_char(15) == Some('8'),
        key_char(16) == Some('9'),
        key_char(62) == Some(' '),
        key_char(56) == Some('.'),
        key_char(55) == Some(','),
        key_char(69) == Some('-'),
        forall|k: u32|
            29 <= k < 54 ==> (#[trigger] key_char(k)) is Some && key_char((k + 1) as u32) is Some
                && key_char((k + 1) as u32).unwrap() as u32 == key_char(k).unwrap() as u32 + 1,
        forall|k: u32|
            !(29 <= k <= 54) && !(7 <= k <= 16) && k != 62 && k != 56 && k != 55 && k != 69
                ==> (#[trigger] key_char(k)) is None,
{
}

} // verus!
