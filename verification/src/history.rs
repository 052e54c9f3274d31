//! The history decoder: a string of two-character tokens, a player tag and
//! a column digit, becomes a sequence of typed moves.
use crate::board::TypedMove;
use crate::error::{GameError, GameErrorView};
use crate::player::Player;
use vstd::prelude::*;

verus! {

/// Whether `c` has the Unicode property White_Space.
pub open spec fn is_white_space(c: char) -> bool {
    let code = c as u32;
    ||| 0x09 <= code <= 0x0D
    ||| code == 0x20
    ||| code == 0x85
    ||| code == 0xA0
    ||| code == 0x1680
    ||| 0x2000 <= code <= 0x200A
    ||| code == 0x2028
    ||| code == 0x2029
    ||| code == 0x202F
    ||| code == 0x205F
    ||| code == 0x3000
}

/// Whether `text` is empty or holds white space only.
pub open spec fn is_blank(text: Seq<char>) -> bool {
    forall|i: int| 0 <= i < text.len() ==> is_white_space(#[trigger] text[i])
}

/// The player that a tag names: `R` or `r` is Red, `B` or `b` is Blue.
pub open spec fn player_of(tag: char) -> Option<Player> {
    if tag == 'R' || tag == 'r' {
        Some(Player::Red)
    } else if tag == 'B' || tag == 'b' {
        Some(Player::Blue)
    } else {
        None
    }
}

/// Whether `c` is one of the ASCII digits `0` to `9`.
pub open spec fn is_digit(c: char) -> bool {
    48 <= c as u32 <= 57
}

/// The value of the ASCII digit `c`.
pub open spec fn digit_value(c: char) -> int {
    c as u32 - 48
}

/// The reason given for a character that is no player tag.
pub open spec fn bad_tag_reason(found: char) -> Seq<char> {
    "expected R or B, found "@.push(found)
}

/// The reason given for a tag at the end of the text.
pub open spec fn missing_column_reason() -> Seq<char> {
    "missing column number"@
}

/// The reason given for a character that is no digit.
pub open spec fn bad_digit_reason(found: char) -> Seq<char> {
    "expected column digit, found "@.push(found)
}

/// The reason given for a digit beyond the last column.
pub open spec fn column_range_reason() -> Seq<char> {
    "column must be 0-6"@
}

/// A parse error at `position` with `reason`.
pub open spec fn parse_error(position: int, reason: Seq<char>) -> GameErrorView {
    GameErrorView::ParseMove { position, reason }
}

/// The move that the token at `start` encodes, or what is wrong with it. The
/// tag is checked first, at `start`; then the digit, at `start + 1`: that it
/// is there, that it is a digit, that it is less than seven.
pub open spec fn token_at(text: Seq<char>, start: int) -> Result<TypedMove, GameErrorView> {
    match player_of(text[start]) {
        None => Err(parse_error(start, bad_tag_reason(text[start]))),
        Some(player) => if start + 1 >= text.len() {
            Err(parse_error(start + 1, missing_column_reason()))
        } else if !is_digit(text[start + 1]) {
            Err(parse_error(start + 1, bad_digit_reason(text[start + 1])))
        } else if digit_value(text[start + 1]) >= 7 {
            Err(parse_error(start + 1, column_range_reason()))
        } else {
            Ok(TypedMove { player, column: digit_value(text[start + 1]) as usize })
        },
    }
}

/// `moves` followed by what `rest` decoded to, or the error of `rest`.
pub open spec fn prepend(moves: Seq<TypedMove>, rest: Result<Seq<TypedMove>, GameErrorView>)
    -> Result<Seq<TypedMove>, GameErrorView> {
    match rest {
        Ok(tail) => Ok(moves + tail),
        Err(e) => Err(e),
    }
}

/// The moves that the tokens from `start` on encode, or the error of the
/// first token that is malformed.
pub open spec fn decode_from(text: Seq<char>, start: int) -> Result<Seq<TypedMove>, GameErrorView>
    decreases text.len() - start,
{
    if start < 0 || start >= text.len() {
        Ok(Seq::empty())
    } else {
        match token_at(text, start) {
            Err(e) => Err(e),
            Ok(mv) => prepend(seq![mv], decode_from(text, start + 2)),
        }
    }
}

/// The moves that a history encodes: none for a blank text, else the tokens
/// from the first character on.
pub open spec fn decode(text: Seq<char>) -> Result<Seq<TypedMove>, GameErrorView> {
    if is_blank(text) {
        Ok(Seq::empty())
    } else {
        decode_from(text, 0)
    }
}

/// `String::push` of the standard library, which is not verified here: it
/// appends the character to the end of the string.
pub assume_specification[ String::push ](s: &mut String, ch: char)
    ensures
        final(s)@ == old(s)@.push(ch),
;

/// Whether `c` is white space.
pub fn is_whitespace(c: char) -> (b: bool)
    ensures
        b == is_white_space(c),
{
    let code = c as u32;
    (0x09 <= code && code <= 0x0D) || code == 0x20 || code == 0x85 || code == 0xA0 || code
        == 0x1680 || (0x2000 <= code && code <= 0x200A) || code == 0x2028 || code == 0x2029
        || code == 0x202F || code == 0x205F || code == 0x3000
}

/// The characters of `text`, in order.
pub fn collect_chars(text: &str) -> (chars: Vec<char>)
    ensures
        chars@ == text@,
{
    broadcast use vstd::string::group_string_axioms;

    let mut chars: Vec<char> = Vec::new();
    for c in it: text.chars()
        invariant
            it.seq() == text@,
            chars@ == text@.take(it.index()),
    {
        assert(text@.take(it.index() + 1) =~= text@.take(it.index()).push(c));
        chars.push(c);
    }
    assert(text@.take(text@.len() as int) =~= text@);
    chars
}

/// Whether `chars` is empty or holds white space only.
pub fn all_whitespace(chars: &Vec<char>) -> (blank: bool)
    ensures
        blank == is_blank(chars@),
{
    let mut i: usize = 0;
    while i < chars.len()
        invariant
            i <= chars@.len(),
            forall|j: int| 0 <= j < i ==> is_white_space(#[trigger] chars@[j]),
        decreases chars@.len() - i,
    {
        if !is_whitespace(chars[i]) {
            return false;
        }
        i += 1;
    }
    true
}

/// `prefix` with `found` appended.
fn reason_with(prefix: &str, found: char) -> (reason: String)
    ensures
        reason@ == prefix@.push(found),
{
    let mut reason = prefix.to_owned();
    reason.push(found);
    reason
}

/// Decodes a move history.
pub fn parse_history(history: &str) -> (r: Result<Vec<TypedMove>, GameError>)
    ensures
        match decode(history@) {
            Ok(moves) => r is Ok && r->Ok_0@ == moves,
            Err(e) => r is Err && r->Err_0@ == e,
        },
{
    let chars = collect_chars(history);
    if all_whitespace(&chars) {
        return Ok(Vec::new());
    }
    let ghost text = chars@;
    let mut moves: Vec<TypedMove> = Vec::new();
    let mut idx: usize = 0;
    while idx < chars.len()
        invariant
            text == chars@,
            text == history@,
            !is_blank(text),
            idx <= text.len(),
            decode_from(text, 0) == prepend(moves@, decode_from(text, idx as int)),
        decreases text.len() - idx,
    {
        let color = chars[idx];
        let player = if color == 'R' || color == 'r' {
            Player::Red
        } else if color == 'B' || color == 'b' {
            Player::Blue
        } else {
            let reason = reason_with("expected R or B, found ", color);
            assert(token_at(text, idx as int) == Err::<TypedMove, GameErrorView>(
                parse_error(idx as int, reason@),
            ));
            return Err(GameError::ParseMove { position: idx, reason });
        };
        assert(player_of(color) == Some(player));
        idx += 1;
        if idx >= chars.len() {
            let reason = "missing column number".to_owned();
            assert(token_at(text, idx - 1) == Err::<TypedMove, GameErrorView>(
                parse_error(idx as int, reason@),
            ));
            return Err(GameError::ParseMove { position: idx, reason });
        }
        let column_char = chars[idx];
        let code = column_char as u32;
        if !(48 <= code && code <= 57) {
            let reason = reason_with("expected column digit, found ", column_char);
            assert(token_at(text, idx - 1) == Err::<TypedMove, GameErrorView>(
                parse_error(idx as int, reason@),
            ));
            return Err(GameError::ParseMove { position: idx, reason });
        }
        let column = (code - 48) as usize;
        if column >= 7 {
            let reason = "column must be 0-6".to_owned();
            assert(token_at(text, idx - 1) == Err::<TypedMove, GameErrorView>(
                parse_error(idx as int, reason@),
            ));
            return Err(GameError::ParseMove { position: idx, reason });
        }
        let mv = TypedMove { player, column };
        proof {
            let rest = decode_from(text, idx + 1);
            assert(token_at(text, idx - 1) == Ok::<TypedMove, GameErrorView>(mv));
            assert(decode_from(text, idx - 1) == prepend(seq![mv], rest));
            if rest is Ok {
                assert(moves@ + (seq![mv] + rest->Ok_0) =~= moves@.push(mv) + rest->Ok_0);
            }
        }
        moves.push(mv);
        idx += 1;
    }
    proof {
        assert(moves@ + Seq::<TypedMove>::empty() =~= moves@);
    }
    Ok(moves)
}

} // verus!
