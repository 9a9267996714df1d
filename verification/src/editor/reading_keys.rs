//! What keys do in a reading, said of the keys themselves.
use crate::editor::keys::{KeyCode, KeyEvent};
use crate::editor::pseudocode::{reading_key, reading_motion, ReadingKey};
use vstd::prelude::*;

verus! {

/// A key without the control, the alt or the logo key.
pub open spec fn unmodified(key: KeyEvent) -> bool {
    !key.modifiers.control && !key.modifiers.alt && !key.modifiers.logo
}

/// Letters and signs that move the cursor, search, or start a command line.
pub open spec fn moves(c: char) -> bool {
    "hjklwWbBeEgGztfFT;,nN*#/?:$^%{}HML0123456789"@.contains(c)
}

proof fn letters_are()
    ensures
        "hjklwWbBeEgGztfFT;,nN*#/?:$^%{}HML0123456789"@ == seq![
            'h', 'j', 'k', 'l', 'w', 'W', 'b', 'B', 'e', 'E', 'g', 'G', 'z', 't', 'f', 'F', 'T',
            ';', ',', 'n', 'N', '*', '#', '/', '?', ':', '$', '^', '%', '{', '}', 'H', 'M', 'L',
            '0', '1', '2', '3', '4', '5', '6', '7', '8', '9',
        ],
{
    reveal_strlit("hjklwWbBeEgGztfFT;,nN*#/?:$^%{}HML0123456789");
    assert("hjklwWbBeEgGztfFT;,nN*#/?:$^%{}HML0123456789"@ =~= seq![
        'h', 'j', 'k', 'l', 'w', 'W', 'b', 'B', 'e', 'E', 'g', 'G', 'z', 't', 'f', 'F', 'T', ';',
        ',', 'n', 'N', '*', '#', '/', '?', ':', '$', '^', '%', '{', '}', 'H', 'M', 'L', '0', '1',
        '2', '3', '4', '5', '6', '7', '8', '9',
    ]);
}

proof fn motions_are(c: char)
    ensures
        reading_motion(c) == moves(c),
{
    letters_are();
    let all = "hjklwWbBeEgGztfFT;,nN*#/?:$^%{}HML0123456789"@;
    if moves(c) {
        let i = choose|i: int| 0 <= i < all.len() && all[i] == c;
        assert(all[i] == c);
    }
    if reading_motion(c) {
        assert(all[0] == 'h' && all[1] == 'j' && all[2] == 'k' && all[3] == 'l' && all[4] == 'w'
            && all[5] == 'W' && all[6] == 'b' && all[7] == 'B' && all[8] == 'e' && all[9] == 'E'
            && all[10] == 'g' && all[11] == 'G');
        assert(all[12] == 'z' && all[13] == 't' && all[14] == 'f' && all[15] == 'F' && all[16]
            == 'T' && all[17] == ';' && all[18] == ',' && all[19] == 'n' && all[20] == 'N'
            && all[21] == '*' && all[22] == '#' && all[23] == '/');
        assert(all[24] == '?' && all[25] == ':' && all[26] == '$' && all[27] == '^' && all[28]
            == '%' && all[29] == '{' && all[30] == '}' && all[31] == 'H' && all[32] == 'M'
            && all[33] == 'L');
        if '0' <= c <= '9' {
            let d = c as int - '0' as int;
            assert(all[34] == '0' && all[35] == '1' && all[36] == '2' && all[37] == '3' && all[38]
                == '4' && all[39] == '5' && all[40] == '6' && all[41] == '7' && all[42] == '8'
                && all[43] == '9');
            assert(all[34 + d] == c);
        }
    }
}

/// In a reading the enter key opens the source, one letter makes the reading
/// anew and one leaves it; motions and searches pass, and so do the keys that
/// move or scroll; everything else is refused.
pub proof fn keys_in_a_reading(key: KeyEvent, c: char)
    requires
        unmodified(key),
    ensures
        key.code == KeyCode::Enter ==> reading_key(None, key) == ReadingKey::OpenSource,
        key.code == KeyCode::Esc ==> reading_key(None, key) == ReadingKey::Pass,
        key.code == KeyCode::Char(c) ==> reading_key(None, key) == if c == 'r' {
            ReadingKey::Refresh
        } else if c == 'q' {
            ReadingKey::Close
        } else if moves(c) {
            ReadingKey::Pass
        } else {
            ReadingKey::Refuse
        },
        key.code == KeyCode::Up || key.code == KeyCode::Down || key.code == KeyCode::Left
            || key.code == KeyCode::Right ==> reading_key(None, key) == ReadingKey::Pass,
{
    motions_are(c);
}

/// With the control key alone six letters scroll; with it every other key is
/// refused, and so is every key with the alt or the logo key.
pub proof fn keys_with_control_scroll(pending: Option<char>, key: KeyEvent, c: char)
    requires
        !unmodified(key),
        key.code == KeyCode::Char(c),
    ensures
        reading_key(pending, key) == if key.modifiers.control && !key.modifiers.alt
            && !key.modifiers.logo && !key.modifiers.shift && (c == 'd' || c == 'u' || c == 'f' || c
            == 'b' || c == 'e' || c == 'y') {
            ReadingKey::Pass
        } else {
            ReadingKey::Refuse
        },
{
}

/// Behind the letter that starts longer motions only those motions pass.
pub proof fn keys_behind_g(key: KeyEvent, c: char)
    requires
        unmodified(key),
        key.code == KeyCode::Char(c),
        !(c == 'g' || c == 'e' || c == 'E' || c == 'j' || c == 'k' || c == '0' || c == '^' || c
            == '$'),
    ensures
        reading_key(Some('g'), key) == ReadingKey::Refuse,
{
}

} // verus!
