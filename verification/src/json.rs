//! The JSON grammar that the client speaks on the wire.
//!
//! This module is the mathematical model: a recursive-descent definition of
//! the textual format, written as spec functions over character sequences.
//! The executable parser in [`crate::parse`] and the executable writer in
//! [`crate::write`] are both specified against these definitions.
//!
//! Values are modelled by [`JsonVal`].  Number literals are carried as their
//! raw text: the client never computes with them, it only passes them
//! through, so no numeric interpretation is given.

use vstd::prelude::*;

verus! {

/// The model of one JSON value.
pub enum JsonVal {
    Null,
    Bool(bool),
    /// A number literal, kept as its raw text.
    Num(Seq<char>),
    Str(Seq<char>),
    Arr(Seq<JsonVal>),
    Obj(Seq<(Seq<char>, JsonVal)>),
}

/// The whitespace characters that may separate JSON tokens.
pub open spec fn is_json_ws(c: char) -> bool {
    c == ' ' || c == '\t' || c == '\n' || c == '\r'
}

/// The first position at or after `i` that does not hold whitespace.
pub open spec fn skip_ws(s: Seq<char>, i: int) -> int
    decreases s.len() - i,
{
    if 0 <= i && i < s.len() && is_json_ws(s[i]) {
        skip_ws(s, i + 1)
    } else {
        i
    }
}

pub open spec fn is_digit(c: char) -> bool {
    '0' <= c && c <= '9'
}

/// The first position at or after `i` that does not hold a decimal digit.
pub open spec fn digits_end(s: Seq<char>, i: int) -> int
    decreases s.len() - i,
{
    if 0 <= i && i < s.len() && is_digit(s[i]) {
        digits_end(s, i + 1)
    } else {
        i
    }
}

/// Where a number literal starting at `i` ends, or `None` if position `i`
/// does not hold a well-formed number: an optional minus sign, an integer
/// part without leading zeros, an optional fraction, an optional exponent.
pub open spec fn number_end(s: Seq<char>, i: int) -> Option<int> {
    let j = if 0 <= i && i < s.len() && s[i] == '-' {
        i + 1
    } else {
        i
    };
    if 0 <= j && j < s.len() && is_digit(s[j]) {
        let k = if s[j] == '0' {
            j + 1
        } else {
            digits_end(s, j)
        };
        let after_frac = if k < s.len() && s[k] == '.' {
            if k + 1 < s.len() && is_digit(s[k + 1]) {
                Some(digits_end(s, k + 1))
            } else {
                None
            }
        } else {
            Some(k)
        };
        match after_frac {
            None => None,
            Some(m) => {
                if m < s.len() && (s[m] == 'e' || s[m] == 'E') {
                    let p = if m + 1 < s.len() && (s[m + 1] == '+' || s[m + 1] == '-') {
                        m + 2
                    } else {
                        m + 1
                    };
                    if p < s.len() && is_digit(s[p]) {
                        Some(digits_end(s, p))
                    } else {
                        None
                    }
                } else {
                    Some(m)
                }
            },
        }
    } else {
        None
    }
}

/// The value of one hexadecimal digit.
pub open spec fn hex_val(c: char) -> Option<int> {
    if '0' <= c && c <= '9' {
        Some(c as int - '0' as int)
    } else if 'a' <= c && c <= 'f' {
        Some(10 + c as int - 'a' as int)
    } else if 'A' <= c && c <= 'F' {
        Some(10 + c as int - 'A' as int)
    } else {
        None
    }
}

/// The value of the four hexadecimal digits at `i`, if they are there.
pub open spec fn hex4(s: Seq<char>, i: int) -> Option<int> {
    if 0 <= i && i + 4 <= s.len() {
        match (hex_val(s[i]), hex_val(s[i + 1]), hex_val(s[i + 2]), hex_val(s[i + 3])) {
            (Some(a), Some(b), Some(c), Some(d)) => Some(a * 4096 + b * 256 + c * 16 + d),
            _ => None,
        }
    } else {
        None
    }
}

/// The character denoted by a single-character escape, `\n` and the like.
pub open spec fn simple_escape(e: char) -> Option<char> {
    if e == '"' {
        Some('"')
    } else if e == '\\' {
        Some('\\')
    } else if e == '/' {
        Some('/')
    } else if e == 'b' {
        Some('\u{8}')
    } else if e == 'f' {
        Some('\u{c}')
    } else if e == 'n' {
        Some('\n')
    } else if e == 'r' {
        Some('\r')
    } else if e == 't' {
        Some('\t')
    } else {
        None
    }
}

/// Parses the body of a string literal from position `i` (just past the
/// opening quote) to its closing quote.  Returns the denoted text and the
/// position just past the closing quote.  Handles the simple escapes,
/// `\uXXXX`, and surrogate pairs; raw control characters and lone
/// surrogates make the literal ill-formed.
pub open spec fn string_rest(s: Seq<char>, i: int) -> Option<(Seq<char>, int)>
    decreases s.len() - i,
{
    if i < 0 || i >= s.len() {
        None
    } else {
        let c = s[i];
        if c == '"' {
            Some((Seq::empty(), i + 1))
        } else if c == '\\' {
            if i + 1 < s.len() {
                let e = s[i + 1];
                match simple_escape(e) {
                    Some(d) => match string_rest(s, i + 2) {
                        None => None,
                        Some((t, j)) => Some((seq![d] + t, j)),
                    },
                    None => {
                        if e == 'u' {
                            match hex4(s, i + 2) {
                                None => None,
                                Some(v) => {
                                    if 0xD800 <= v && v < 0xDC00 {
                                        if i + 7 < s.len() && s[i + 6] == '\\' && s[i + 7] == 'u' {
                                            match hex4(s, i + 8) {
                                                None => None,
                                                Some(w) => {
                                                    if 0xDC00 <= w && w < 0xE000 {
                                                        let u = 0x10000 + (v - 0xD800) * 0x400 + (
                                                        w - 0xDC00);
                                                        match string_rest(s, i + 12) {
                                                            None => None,
                                                            Some((t, j)) => Some(
                                                                (seq![(u as u32) as char] + t, j),
                                                            ),
                                                        }
                                                    } else {
                                                        None
                                                    }
                                                },
                                            }
                                        } else {
                                            None
                                        }
                                    } else if 0xDC00 <= v && v < 0xE000 {
                                        None
                                    } else {
                                        match string_rest(s, i + 6) {
                                            None => None,
                                            Some((t, j)) => Some((seq![(v as u32) as char] + t, j)),
                                        }
                                    }
                                },
                            }
                        } else {
                            None
                        }
                    },
                }
            } else {
                None
            }
        } else if (c as u32) < 0x20 {
            None
        } else {
            match string_rest(s, i + 1) {
                None => None,
                Some((t, j)) => Some((seq![c] + t, j)),
            }
        }
    }
}

/// Parses one JSON value at position `i`.  Returns the value and the
/// position just past it.
///
/// `fuel` bounds how deep the parse may descend into nested objects and
/// arrays; every nesting level and every further object member or array
/// element spends one unit after consuming at least one character, so the
/// fuel [`parse_json`] supplies, the length of the input, is never
/// exhausted on any input.
pub open spec fn parse_value(s: Seq<char>, i: int, fuel: nat) -> Option<(JsonVal, int)>
    decreases fuel,
{
    if i < 0 || i >= s.len() {
        None
    } else {
        let c = s[i];
        if c == 'n' {
            if i + 4 <= s.len() && s[i + 1] == 'u' && s[i + 2] == 'l' && s[i + 3] == 'l' {
                Some((JsonVal::Null, i + 4))
            } else {
                None
            }
        } else if c == 't' {
            if i + 4 <= s.len() && s[i + 1] == 'r' && s[i + 2] == 'u' && s[i + 3] == 'e' {
                Some((JsonVal::Bool(true), i + 4))
            } else {
                None
            }
        } else if c == 'f' {
            if i + 5 <= s.len() && s[i + 1] == 'a' && s[i + 2] == 'l' && s[i + 3] == 's' && s[i + 4]
                == 'e' {
                Some((JsonVal::Bool(false), i + 5))
            } else {
                None
            }
        } else if c == '"' {
            match string_rest(s, i + 1) {
                None => None,
                Some((t, j)) => Some((JsonVal::Str(t), j)),
            }
        } else if c == '{' {
            if fuel == 0 {
                None
            } else {
                let j = skip_ws(s, i + 1);
                if j < s.len() && s[j] == '}' {
                    Some((JsonVal::Obj(Seq::empty()), j + 1))
                } else {
                    match parse_members(s, j, (fuel - 1) as nat) {
                        None => None,
                        Some((fs, k)) => Some((JsonVal::Obj(fs), k)),
                    }
                }
            }
        } else if c == '[' {
            if fuel == 0 {
                None
            } else {
                let j = skip_ws(s, i + 1);
                if j < s.len() && s[j] == ']' {
                    Some((JsonVal::Arr(Seq::empty()), j + 1))
                } else {
                    match parse_elements(s, j, (fuel - 1) as nat) {
                        None => None,
                        Some((vs, k)) => Some((JsonVal::Arr(vs), k)),
                    }
                }
            }
        } else {
            match number_end(s, i) {
                None => None,
                Some(j) => Some((JsonVal::Num(s.subrange(i, j)), j)),
            }
        }
    }
}

/// Parses the members of an object from the first key (position `i`, past
/// the opening brace and any whitespace) through the closing brace.
pub open spec fn parse_members(s: Seq<char>, i: int, fuel: nat) -> Option<
    (Seq<(Seq<char>, JsonVal)>, int),
>
    decreases fuel,
{
    if fuel == 0 {
        None
    } else if 0 <= i && i < s.len() && s[i] == '"' {
        match string_rest(s, i + 1) {
            None => None,
            Some((k, j1)) => {
                let j2 = skip_ws(s, j1);
                if j2 < s.len() && s[j2] == ':' {
                    let j3 = skip_ws(s, j2 + 1);
                    match parse_value(s, j3, (fuel - 1) as nat) {
                        None => None,
                        Some((v, j4)) => {
                            let j5 = skip_ws(s, j4);
                            if j5 < s.len() && s[j5] == ',' {
                                let j6 = skip_ws(s, j5 + 1);
                                match parse_members(s, j6, (fuel - 1) as nat) {
                                    None => None,
                                    Some((fs, j7)) => Some((seq![(k, v)] + fs, j7)),
                                }
                            } else if j5 < s.len() && s[j5] == '}' {
                                Some((seq![(k, v)], j5 + 1))
                            } else {
                                None
                            }
                        },
                    }
                } else {
                    None
                }
            },
        }
    } else {
        None
    }
}

/// Parses the elements of an array from the first element (position `i`,
/// past the opening bracket and any whitespace) through the closing
/// bracket.
pub open spec fn parse_elements(s: Seq<char>, i: int, fuel: nat) -> Option<(Seq<JsonVal>, int)>
    decreases fuel,
{
    if fuel == 0 {
        None
    } else {
        match parse_value(s, i, (fuel - 1) as nat) {
            None => None,
            Some((v, j1)) => {
                let j2 = skip_ws(s, j1);
                if j2 < s.len() && s[j2] == ',' {
                    let j3 = skip_ws(s, j2 + 1);
                    match parse_elements(s, j3, (fuel - 1) as nat) {
                        None => None,
                        Some((vs, j4)) => Some((seq![v] + vs, j4)),
                    }
                } else if j2 < s.len() && s[j2] == ']' {
                    Some((seq![v], j2 + 1))
                } else {
                    None
                }
            },
        }
    }
}

/// Parses a complete text as one JSON value: a value surrounded by
/// whitespace and nothing else.  This is what "a parseable envelope" means
/// throughout the crate.
pub open spec fn parse_json(s: Seq<char>) -> Option<JsonVal> {
    let i = skip_ws(s, 0);
    match parse_value(s, i, s.len() as nat) {
        None => None,
        Some((v, j)) => if skip_ws(s, j) == s.len() {
            Some(v)
        } else {
            None
        },
    }
}

/// The value under `key` in an object's member list; the first occurrence
/// governs when a key is repeated.
pub open spec fn lookup_field(fields: Seq<(Seq<char>, JsonVal)>, key: Seq<char>) -> Option<JsonVal>
    decreases fields.len(),
{
    if fields.len() == 0 {
        None
    } else if fields[0].0 == key {
        Some(fields[0].1)
    } else {
        lookup_field(fields.drop_first(), key)
    }
}

pub open spec fn key_error() -> Seq<char> {
    seq!['e', 'r', 'r', 'o', 'r']
}

pub open spec fn key_message() -> Seq<char> {
    seq!['m', 'e', 's', 's', 'a', 'g', 'e']
}

pub open spec fn key_done() -> Seq<char> {
    seq!['d', 'o', 'n', 'e']
}

pub open spec fn key_content() -> Seq<char> {
    seq!['c', 'o', 'n', 't', 'e', 'n', 't']
}

} // verus!
