//! The lowering rules of the layout grammar: which punctuation characters
//! and which literals stand for which key codes, and which of them expand to
//! a shifted chord.
//!
//! These are the rules themselves, on plain characters and strings; the
//! surface syntax that carries them is handled outside this library.

use vstd::prelude::*;

use vstd::string::StringSliceAdditionalSpecFns;

use crate::action::{Action, ActionS};
use crate::key_code::KeyCode;

verus! {

/// A shifted chord: left shift together with a base key.
pub open spec fn spec_shifted<T>(base: KeyCode) -> ActionS<T> {
    ActionS::MultipleKeyCodes(seq![KeyCode::LShift, base])
}

/// A plain key action.
pub open spec fn spec_key<T>(kc: KeyCode) -> ActionS<T> {
    ActionS::KeyCode(kc)
}

/// The action a punctuation character stands for: the bare key where one
/// types it unshifted on a US-QWERTY layout, and a left-shift chord where
/// the glyph is the shifted face of its key; `None` for a character that is
/// no key.
pub open spec fn spec_punctuation_action<T>(c: char) -> Option<ActionS<T>> {
    if c == '-' {
        Some(spec_key(KeyCode::Minus))
    } else if c == '=' {
        Some(spec_key(KeyCode::Equal))
    } else if c == ';' {
        Some(spec_key(KeyCode::SColon))
    } else if c == ',' {
        Some(spec_key(KeyCode::Comma))
    } else if c == '.' {
        Some(spec_key(KeyCode::Dot))
    } else if c == '/' {
        Some(spec_key(KeyCode::Slash))
    } else if c == '!' {
        Some(spec_shifted(KeyCode::Kb1))
    } else if c == '@' {
        Some(spec_shifted(KeyCode::Kb2))
    } else if c == '#' {
        Some(spec_shifted(KeyCode::Kb3))
    } else if c == '$' {
        Some(spec_shifted(KeyCode::Kb4))
    } else if c == '%' {
        Some(spec_shifted(KeyCode::Kb5))
    } else if c == '^' {
        Some(spec_shifted(KeyCode::Kb6))
    } else if c == '&' {
        Some(spec_shifted(KeyCode::Kb7))
    } else if c == '*' {
        Some(spec_shifted(KeyCode::Kb8))
    } else if c == '_' {
        Some(spec_shifted(KeyCode::Minus))
    } else if c == '+' {
        Some(spec_shifted(KeyCode::Equal))
    } else if c == '|' {
        Some(spec_shifted(KeyCode::Bslash))
    } else if c == '~' {
        Some(spec_shifted(KeyCode::Grave))
    } else if c == '<' {
        Some(spec_shifted(KeyCode::Comma))
    } else if c == '>' {
        Some(spec_shifted(KeyCode::Dot))
    } else if c == '?' {
        Some(spec_shifted(KeyCode::Slash))
    } else if c == ':' {
        Some(spec_shifted(KeyCode::SColon))
    } else {
        None
    }
}

/// Why a literal could not be lowered to a key code.
#[derive(Debug, Clone, Copy, PartialEq, Eq, Structural)]
pub enum LiteralError {
    /// The literal is not one of the recognized forms.
    UnknownLiteral,
    /// A character literal whose character is no key.
    CharNotAKeycode,
    /// A string literal: typing strings on a key press is not supported.
    StringNotSupported,
    /// A string literal of a single character, where a character literal
    /// was probably meant.
    SingleCharStringNotSupported,
}

/// The action a literal (given as its source text, in bytes) stands for:
/// a single digit is its digit key; a character literal between apostrophes
/// covers the glyphs the bare grammar cannot carry, some of them shifted
/// chords; anything else is an error that says what went wrong.
pub open spec fn spec_literal_action<T>(s: Seq<u8>) -> Result<ActionS<T>, LiteralError> {
    if s.len() == 1 && 48 <= s[0] <= 57 {
        Ok(spec_key(spec_digit_keycode(s[0])))
    } else if s.len() >= 1 && s[0] == 39 {
        if s.len() == 3 && s[2] == 39 {
            spec_quoted_action(s[1])
        } else if s.len() == 4 && s[1] == 92 && s[3] == 39 {
            if s[2] == 39 {
                Ok(spec_key(KeyCode::Quote))
            } else if s[2] == 92 {
                Ok(spec_key(KeyCode::Bslash))
            } else {
                Err(LiteralError::CharNotAKeycode)
            }
        } else {
            Err(LiteralError::CharNotAKeycode)
        }
    } else if s.len() >= 1 && s[0] == 34 {
        if s.len() == 3 {
            Err(LiteralError::SingleCharStringNotSupported)
        } else {
            Err(LiteralError::StringNotSupported)
        }
    } else {
        Err(LiteralError::UnknownLiteral)
    }
}

/// The key code of a digit byte: `1` through `9`, then `0`.
pub open spec fn spec_digit_keycode(b: u8) -> KeyCode {
    if b == 49 {
        KeyCode::Kb1
    } else if b == 50 {
        KeyCode::Kb2
    } else if b == 51 {
        KeyCode::Kb3
    } else if b == 52 {
        KeyCode::Kb4
    } else if b == 53 {
        KeyCode::Kb5
    } else if b == 54 {
        KeyCode::Kb6
    } else if b == 55 {
        KeyCode::Kb7
    } else if b == 56 {
        KeyCode::Kb8
    } else if b == 57 {
        KeyCode::Kb9
    } else {
        KeyCode::Kb0
    }
}

/// The action of a single-character literal between apostrophes.
pub open spec fn spec_quoted_action<T>(b: u8) -> Result<ActionS<T>, LiteralError> {
    if b == 91 {
        Ok(spec_key(KeyCode::LBracket))
    } else if b == 93 {
        Ok(spec_key(KeyCode::RBracket))
    } else if b == 96 {
        Ok(spec_key(KeyCode::Grave))
    } else if b == 34 {
        Ok(spec_shifted(KeyCode::Quote))
    } else if b == 40 {
        Ok(spec_shifted(KeyCode::Kb9))
    } else if b == 41 {
        Ok(spec_shifted(KeyCode::Kb0))
    } else if b == 123 {
        Ok(spec_shifted(KeyCode::LBracket))
    } else if b == 125 {
        Ok(spec_shifted(KeyCode::RBracket))
    } else if b == 95 {
        Ok(spec_shifted(KeyCode::Minus))
    } else {
        Err(LiteralError::CharNotAKeycode)
    }
}

/// A left-shift chord with the given base key.
fn shifted<T>(base: KeyCode) -> (r: Action<T>)
    ensures
        r@ == spec_shifted::<T>(base),
{
    let mut v: Vec<KeyCode> = Vec::new();
    v.push(KeyCode::LShift);
    v.push(base);
    proof {
        assert(v@ =~= seq![KeyCode::LShift, base]);
    }
    Action::MultipleKeyCodes(v)
}

/// The action a punctuation character stands for, if it is a key on a
/// US-QWERTY layout: the bare key, or a left-shift chord for a shifted
/// glyph.
pub fn punctuation_to_keycode<T>(c: char) -> (r: Option<Action<T>>)
    ensures
        match r {
            Some(a) => spec_punctuation_action::<T>(c) == Some(a@),
            None => spec_punctuation_action::<T>(c) is None,
        },
{
    match c {
        '-' => Some(Action::KeyCode(KeyCode::Minus)),
        '=' => Some(Action::KeyCode(KeyCode::Equal)),
        ';' => Some(Action::KeyCode(KeyCode::SColon)),
        ',' => Some(Action::KeyCode(KeyCode::Comma)),
        '.' => Some(Action::KeyCode(KeyCode::Dot)),
        '/' => Some(Action::KeyCode(KeyCode::Slash)),
        '!' => Some(shifted(KeyCode::Kb1)),
        '@' => Some(shifted(KeyCode::Kb2)),
        '#' => Some(shifted(KeyCode::Kb3)),
        '$' => Some(shifted(KeyCode::Kb4)),
        '%' => Some(shifted(KeyCode::Kb5)),
        '^' => Some(shifted(KeyCode::Kb6)),
        '&' => Some(shifted(KeyCode::Kb7)),
        '*' => Some(shifted(KeyCode::Kb8)),
        '_' => Some(shifted(KeyCode::Minus)),
        '+' => Some(shifted(KeyCode::Equal)),
        '|' => Some(shifted(KeyCode::Bslash)),
        '~' => Some(shifted(KeyCode::Grave)),
        '<' => Some(shifted(KeyCode::Comma)),
        '>' => Some(shifted(KeyCode::Dot)),
        '?' => Some(shifted(KeyCode::Slash)),
        ':' => Some(shifted(KeyCode::SColon)),
        _ => None,
    }
}

/// The action a literal stands for, given its source text: a digit key, a
/// quoted character's key or shifted chord, or an error saying why the
/// literal is no key code.
pub fn literal_to_keycode<T>(lit: &str) -> (r: Result<Action<T>, LiteralError>)
    ensures
        match r {
            Ok(a) => spec_literal_action::<T>(lit.spec_bytes()) == Ok::<ActionS<T>, LiteralError>(
                a@,
            ),
            Err(e) => spec_literal_action::<T>(lit.spec_bytes()) == Err::<
                ActionS<T>,
                LiteralError,
            >(e),
        },
{
    let b = lit.as_bytes();
    if b.len() == 1 && b[0] >= 48 && b[0] <= 57 {
        let kc = match b[0] {
            49 => KeyCode::Kb1,
            50 => KeyCode::Kb2,
            51 => KeyCode::Kb3,
            52 => KeyCode::Kb4,
            53 => KeyCode::Kb5,
            54 => KeyCode::Kb6,
            55 => KeyCode::Kb7,
            56 => KeyCode::Kb8,
            57 => KeyCode::Kb9,
            _ => KeyCode::Kb0,
        };
        Ok(Action::KeyCode(kc))
    } else if b.len() >= 1 && b[0] == 39 {
        if b.len() == 3 && b[2] == 39 {
            match b[1] {
                91 => Ok(Action::KeyCode(KeyCode::LBracket)),
                93 => Ok(Action::KeyCode(KeyCode::RBracket)),
                96 => Ok(Action::KeyCode(KeyCode::Grave)),
                34 => Ok(shifted(KeyCode::Quote)),
                40 => Ok(shifted(KeyCode::Kb9)),
                41 => Ok(shifted(KeyCode::Kb0)),
                123 => Ok(shifted(KeyCode::LBracket)),
                125 => Ok(shifted(KeyCode::RBracket)),
                95 => Ok(shifted(KeyCode::Minus)),
                _ => Err(LiteralError::CharNotAKeycode),
            }
        } else if b.len() == 4 && b[1] == 92 && b[3] == 39 {
            if b[2] == 39 {
                Ok(Action::KeyCode(KeyCode::Quote))
            } else if b[2] == 92 {
                Ok(Action::KeyCode(KeyCode::Bslash))
            } else {
                Err(LiteralError::CharNotAKeycode)
            }
        } else {
            Err(LiteralError::CharNotAKeycode)
        }
    } else if b.len() >= 1 && b[0] == 34 {
        if b.len() == 3 {
            Err(LiteralError::SingleCharStringNotSupported)
        } else {
            Err(LiteralError::StringNotSupported)
        }
    } else {
        Err(LiteralError::UnknownLiteral)
    }
}

} // verus!
