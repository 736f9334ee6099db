//! The executable JSON parser, verified against the grammar in
//! [`crate::json`].
//!
//! The stream decoder does not need whole parse trees: of a response chunk
//! it only reads the `error`, `message`, `done` and `content` members.  The
//! parser therefore checks full conformance to the grammar but materialises
//! only a shallow summary of each value it walks over.

use vstd::prelude::*;

use crate::json;
use crate::json::JsonVal;

verus! {

/// What the envelope logic needs to know of one parsed value: its kind,
/// and its text when it is a string.
pub enum ValSummary {
    Null,
    Bool(bool),
    Num,
    Str(Vec<char>),
    Arr,
    Obj,
}

/// The summary faithfully describes the value.
pub open spec fn summary_matches(sum: ValSummary, v: JsonVal) -> bool {
    match sum {
        ValSummary::Null => v is Null,
        ValSummary::Bool(b) => v == JsonVal::Bool(b),
        ValSummary::Num => v is Num,
        ValSummary::Str(t) => v == JsonVal::Str(t@),
        ValSummary::Arr => v is Arr,
        ValSummary::Obj => v is Obj,
    }
}

/// The summary faithfully describes the result of a field lookup.
pub open spec fn opt_summary_matches(o: Option<ValSummary>, l: Option<JsonVal>) -> bool {
    match (o, l) {
        (Option::None, Option::None) => true,
        (Option::Some(sum), Option::Some(v)) => summary_matches(sum, v),
        _ => false,
    }
}

fn is_digit_x(c: char) -> (r: bool)
    ensures
        r == json::is_digit(c),
{
    '0' <= c && c <= '9'
}

fn skip_ws_x(s: &Vec<char>, i: usize) -> (j: usize)
    requires
        i <= s@.len(),
    ensures
        j as int == json::skip_ws(s@, i as int),
        i <= j <= s@.len(),
{
    let mut k = i;
    while k < s.len() && (s[k] == ' ' || s[k] == '\t' || s[k] == '\n' || s[k] == '\r')
        invariant
            i <= k <= s@.len(),
            json::skip_ws(s@, i as int) == json::skip_ws(s@, k as int),
        decreases s@.len() - k,
    {
        k = k + 1;
    }
    proof {
        assert(json::skip_ws(s@, k as int) == k as int);
    }
    k
}

fn digits_end_x(s: &Vec<char>, i: usize) -> (j: usize)
    requires
        i <= s@.len(),
    ensures
        j as int == json::digits_end(s@, i as int),
        i <= j <= s@.len(),
{
    let mut k = i;
    while k < s.len() && '0' <= s[k] && s[k] <= '9'
        invariant
            i <= k <= s@.len(),
            json::digits_end(s@, i as int) == json::digits_end(s@, k as int),
        decreases s@.len() - k,
    {
        k = k + 1;
    }
    proof {
        assert(json::digits_end(s@, k as int) == k as int);
    }
    k
}

/// Where the number literal at `i` ends, if one starts there.
fn number_end_x(s: &Vec<char>, i: usize) -> (r: Option<usize>)
    requires
        i <= s@.len(),
    ensures
        match json::number_end(s@, i as int) {
            Option::None => r is None,
            Option::Some(j) => r matches Some(jj) && jj as int == j && i <= jj <= s@.len(),
        },
{
    let j = if i < s.len() && s[i] == '-' {
        i + 1
    } else {
        i
    };
    if j < s.len() && is_digit_x(s[j]) {
        let k = if s[j] == '0' {
            j + 1
        } else {
            digits_end_x(s, j)
        };
        let after_frac: Option<usize> = if k < s.len() && s[k] == '.' {
            if k + 1 < s.len() && is_digit_x(s[k + 1]) {
                Some(digits_end_x(s, k + 1))
            } else {
                None
            }
        } else {
            Some(k)
        };
        match after_frac {
            None => None,
            Some(m) => {
                if m < s.len() && (s[m] == 'e' || s[m] == 'E') {
                    let p = if m + 1 < s.len() && (s[m + 1] == '+' || s[m + 1] == '-') {
                        m + 2
                    } else {
                        m + 1
                    };
                    if p < s.len() && is_digit_x(s[p]) {
                        Some(digits_end_x(s, p))
                    } else {
                        None
                    }
                } else {
                    Some(m)
                }
            },
        }
    } else {
        None
    }
}

fn simple_escape_x(e: char) -> (r: Option<char>)
    ensures
        r == json::simple_escape(e),
{
    if e == '"' {
        Some('"')
    } else if e == '\\' {
        Some('\\')
    } else if e == '/' {
        Some('/')
    } else if e == 'b' {
        Some('\u{8}')
    } else if e == 'f' {
        Some('\u{c}')
    } else if e == 'n' {
        Some('\n')
    } else if e == 'r' {
        Some('\r')
    } else if e == 't' {
        Some('\t')
    } else {
        None
    }
}

fn hex_val_x(c: char) -> (r: Option<u8>)
    ensures
        match json::hex_val(c) {
            Option::None => r is None,
            Option::Some(v) => r matches Some(b) && b as int == v && b < 16,
        },
{
    if '0' <= c && c <= '9' {
        Some((c as u8) - ('0' as u8))
    } else if 'a' <= c && c <= 'f' {
        Some(10 + (c as u8) - ('a' as u8))
    } else if 'A' <= c && c <= 'F' {
        Some(10 + (c as u8) - ('A' as u8))
    } else {
        None
    }
}

fn hex4_x(s: &Vec<char>, i: usize) -> (r: Option<u32>)
    requires
        i <= s@.len(),
    ensures
        match json::hex4(s@, i as int) {
            Option::None => r is None,
            Option::Some(v) => r matches Some(u) && u as int == v && u < 0x10000,
        },
{
    if s.len() - i >= 4 {
        let a = hex_val_x(s[i]);
        let b = hex_val_x(s[i + 1]);
        let c = hex_val_x(s[i + 2]);
        let d = hex_val_x(s[i + 3]);
        match (a, b, c, d) {
            (Some(a), Some(b), Some(c), Some(d)) => Some(
                (a as u32) * 4096 + (b as u32) * 256 + (c as u32) * 16 + (d as u32),
            ),
            _ => None,
        }
    } else {
        None
    }
}

/// Relies on char::from_u32: `Some` exactly for the values outside the
/// surrogate range and at most 0x10FFFF (the Unicode scalars), and the
/// returned char has the given value.
#[verifier::external_body]
fn char_from_u32_x(u: u32) -> (r: Option<char>)
    ensures
        r is Some <==> vstd::utf8::is_scalar(u),
        r matches Some(c) ==> c as u32 == u,
{
    char::from_u32(u)
}

/// Parses the body of a string literal: `i` stands just past the opening
/// quote.  Returns the denoted text and the position past the closing
/// quote.
fn p_string(s: &Vec<char>, i: usize) -> (r: Option<(Vec<char>, usize)>)
    requires
        i <= s@.len(),
    ensures
        match json::string_rest(s@, i as int) {
            Option::None => r is None,
            Option::Some((t, j)) => r matches Some(p) && p.0@ == t && p.1 as int == j && i <= p.1
                <= s@.len(),
        },
{
    let mut acc: Vec<char> = Vec::new();
    let mut k = i;
    loop
        invariant
            i <= k <= s@.len(),
            match json::string_rest(s@, k as int) {
                Option::None => json::string_rest(s@, i as int) is None,
                Option::Some((t, j)) => json::string_rest(s@, i as int) == Some::<
                    (Seq<char>, int),
                >((acc@ + t, j)),
            },
        decreases s@.len() - k,
    {
        if k >= s.len() {
            return None;
        }
        let c = s[k];
        if c == '"' {
            proof {
                assert(acc@ + Seq::<char>::empty() =~= acc@);
            }
            return Some((acc, k + 1));
        } else if c == '\\' {
            if k + 1 >= s.len() {
                return None;
            }
            let e = s[k + 1];
            match simple_escape_x(e) {
                Some(d) => {
                    let ghost pre = acc@;
                    acc.push(d);
                    proof {
                        if let Some((t2, j2)) = json::string_rest(s@, k as int + 2) {
                            assert(pre + (seq![d] + t2) =~= acc@ + t2);
                        }
                    }
                    k = k + 2;
                },
                None => {
                    if e != 'u' {
                        return None;
                    }
                    match hex4_x(s, k + 2) {
                        None => {
                            return None;
                        },
                        Some(v) => {
                            if 0xD800 <= v && v < 0xDC00 {
                                if s.len() - k >= 8 && s[k + 6] == '\\' && s[k + 7] == 'u' {
                                    match hex4_x(s, k + 8) {
                                        None => {
                                            return None;
                                        },
                                        Some(w) => {
                                            if 0xDC00 <= w && w < 0xE000 {
                                                let u = 0x10000 + (v - 0xD800) * 0x400 + (w
                                                    - 0xDC00);
                                                match char_from_u32_x(u) {
                                                    Some(d) => {
                                                        proof {
                                                            vstd::utf8::char_u32_cast(d, u);
                                                        }
                                                        let ghost pre = acc@;
                                                        acc.push(d);
                                                        proof {
                                                            if let Some((t2, j2)) =
                                                                json::string_rest(
                                                                s@,
                                                                k as int + 12,
                                                            ) {
                                                                assert(pre + (seq![d] + t2) =~= acc@
                                                                    + t2);
                                                            }
                                                        }
                                                        k = k + 12;
                                                    },
                                                    None => {
                                                        proof {
                                                            assert(0x10000 <= u <= 0x10FFFF);
                                                            assert(vstd::utf8::is_scalar(u));
                                                        }
                                                        return None;
                                                    },
                                                }
                                            } else {
                                                return None;
                                            }
                                        },
                                    }
                                } else {
                                    return None;
                                }
                            } else if 0xDC00 <= v && v < 0xE000 {
                                return None;
                            } else {
                                match char_from_u32_x(v) {
                                    Some(d) => {
                                        proof {
                                            vstd::utf8::char_u32_cast(d, v);
                                        }
                                        let ghost pre = acc@;
                                        acc.push(d);
                                        proof {
                                            if let Some((t2, j2)) = json::string_rest(
                                                s@,
                                                k as int + 6,
                                            ) {
                                                assert(pre + (seq![d] + t2) =~= acc@ + t2);
                                            }
                                        }
                                        k = k + 6;
                                    },
                                    None => {
                                        proof {
                                            assert(v < 0xD800 || 0xE000 <= v < 0x10000);
                                            assert(vstd::utf8::is_scalar(v));
                                        }
                                        return None;
                                    },
                                }
                            }
                        },
                    }
                },
            }
        } else if (c as u32) < 0x20 {
            return None;
        } else {
            let ghost pre = acc@;
            acc.push(c);
            proof {
                if let Some((t2, j2)) = json::string_rest(s@, k as int + 1) {
                    assert(pre + (seq![c] + t2) =~= acc@ + t2);
                }
            }
            k = k + 1;
        }
    }
}

/// Summary of the `message` member of an envelope.
pub enum MsgSummary {
    NotObj,
    Fields { content: Option<ValSummary> },
}

/// The summary faithfully describes the `message` value.
pub open spec fn msg_matches(m: MsgSummary, v: JsonVal) -> bool {
    match m {
        MsgSummary::NotObj => !(v is Obj),
        MsgSummary::Fields { content } => v matches JsonVal::Obj(ms) && opt_summary_matches(
            content,
            json::lookup_field(ms, json::key_content()),
        ),
    }
}

pub open spec fn opt_msg_matches(o: Option<MsgSummary>, l: Option<JsonVal>) -> bool {
    match (o, l) {
        (Option::None, Option::None) => true,
        (Option::Some(m), Option::Some(v)) => msg_matches(m, v),
        _ => false,
    }
}

/// Summary of a whole response envelope.
pub enum TopSummary {
    NotObj,
    Fields {
        error: Option<ValSummary>,
        message: Option<MsgSummary>,
        done: Option<ValSummary>,
    },
}

/// The summary faithfully describes the envelope value.
pub open spec fn top_matches(m: TopSummary, v: JsonVal) -> bool {
    match m {
        TopSummary::NotObj => !(v is Obj),
        TopSummary::Fields { error, message, done } => v matches JsonVal::Obj(fs)
            && opt_summary_matches(error, json::lookup_field(fs, json::key_error()))
            && opt_msg_matches(message, json::lookup_field(fs, json::key_message()))
            && opt_summary_matches(done, json::lookup_field(fs, json::key_done())),
    }
}

proof fn keys_distinct()
    ensures
        json::key_error() != json::key_message(),
        json::key_error() != json::key_done(),
        json::key_error() != json::key_content(),
        json::key_message() != json::key_done(),
        json::key_message() != json::key_content(),
        json::key_done() != json::key_content(),
{
    assert(json::key_error().len() == 5);
    assert(json::key_message().len() == 7);
    assert(json::key_done().len() == 4);
    assert(json::key_content().len() == 7);
    assert(json::key_message()[0] == 'm');
    assert(json::key_content()[0] == 'c');
}

fn key_is_error(k: &Vec<char>) -> (r: bool)
    ensures
        r == (k@ == json::key_error()),
{
    let r = k.len() == 5 && k[0] == 'e' && k[1] == 'r' && k[2] == 'r' && k[3] == 'o' && k[4] == 'r';
    proof {
        if r {
            assert(k@ =~= json::key_error());
        } else {
            assert(k@ != json::key_error());
        }
    }
    r
}

fn key_is_message(k: &Vec<char>) -> (r: bool)
    ensures
        r == (k@ == json::key_message()),
{
    let r = k.len() == 7 && k[0] == 'm' && k[1] == 'e' && k[2] == 's' && k[3] == 's' && k[4] == 'a'
        && k[5] == 'g' && k[6] == 'e';
    proof {
        if r {
            assert(k@ =~= json::key_message());
        } else {
            assert(k@ != json::key_message());
        }
    }
    r
}

fn key_is_done(k: &Vec<char>) -> (r: bool)
    ensures
        r == (k@ == json::key_done()),
{
    let r = k.len() == 4 && k[0] == 'd' && k[1] == 'o' && k[2] == 'n' && k[3] == 'e';
    proof {
        if r {
            assert(k@ =~= json::key_done());
        } else {
            assert(k@ != json::key_done());
        }
    }
    r
}

fn key_is_content(k: &Vec<char>) -> (r: bool)
    ensures
        r == (k@ == json::key_content()),
{
    let r = k.len() == 7 && k[0] == 'c' && k[1] == 'o' && k[2] == 'n' && k[3] == 't' && k[4] == 'e'
        && k[5] == 'n' && k[6] == 't';
    proof {
        if r {
            assert(k@ =~= json::key_content());
        } else {
            assert(k@ != json::key_content());
        }
    }
    r
}

/// Parses one value at `i`, keeping only a shallow summary.
fn p_value(s: &Vec<char>, i: usize, fuel: usize) -> (r: Option<(ValSummary, usize)>)
    requires
        i <= s@.len(),
    ensures
        match json::parse_value(s@, i as int, fuel as nat) {
            Option::None => r is None,
            Option::Some(pv) => r matches Some(p) && summary_matches(p.0, pv.0) && p.1 as int
                == pv.1 && i <= p.1 <= s@.len(),
        },
    decreases fuel,
{
    if i >= s.len() {
        return None;
    }
    let c = s[i];
    if c == 'n' {
        if s.len() - i >= 4 && s[i + 1] == 'u' && s[i + 2] == 'l' && s[i + 3] == 'l' {
            Some((ValSummary::Null, i + 4))
        } else {
            None
        }
    } else if c == 't' {
        if s.len() - i >= 4 && s[i + 1] == 'r' && s[i + 2] == 'u' && s[i + 3] == 'e' {
            Some((ValSummary::Bool(true), i + 4))
        } else {
            None
        }
    } else if c == 'f' {
        if s.len() - i >= 5 && s[i + 1] == 'a' && s[i + 2] == 'l' && s[i + 3] == 's' && s[i + 4]
            == 'e' {
            Some((ValSummary::Bool(false), i + 5))
        } else {
            None
        }
    } else if c == '"' {
        match p_string(s, i + 1) {
            None => None,
            Some((t, j)) => Some((ValSummary::Str(t), j)),
        }
    } else if c == '{' {
        if fuel == 0 {
            None
        } else {
            let j = skip_ws_x(s, i + 1);
            if j < s.len() && s[j] == '}' {
                Some((ValSummary::Obj, j + 1))
            } else {
                match p_members_skip(s, j, fuel - 1) {
                    None => None,
                    Some(k) => Some((ValSummary::Obj, k)),
                }
            }
        }
    } else if c == '[' {
        if fuel == 0 {
            None
        } else {
            let j = skip_ws_x(s, i + 1);
            if j < s.len() && s[j] == ']' {
                Some((ValSummary::Arr, j + 1))
            } else {
                match p_elements_skip(s, j, fuel - 1) {
                    None => None,
                    Some(k) => Some((ValSummary::Arr, k)),
                }
            }
        }
    } else {
        match number_end_x(s, i) {
            None => None,
            Some(j) => Some((ValSummary::Num, j)),
        }
    }
}

/// Walks the members of an object, validating them and discarding them.
fn p_members_skip(s: &Vec<char>, i: usize, fuel: usize) -> (r: Option<usize>)
    requires
        i <= s@.len(),
    ensures
        match json::parse_members(s@, i as int, fuel as nat) {
            Option::None => r is None,
            Option::Some(pm) => r matches Some(j) && j as int == pm.1 && i <= j <= s@.len(),
        },
    decreases fuel,
{
    if fuel == 0 {
        return None;
    }
    if !(i < s.len() && s[i] == '"') {
        return None;
    }
    match p_string(s, i + 1) {
        None => None,
        Some((_k, j1)) => {
            let j2 = skip_ws_x(s, j1);
            if j2 < s.len() && s[j2] == ':' {
                let j3 = skip_ws_x(s, j2 + 1);
                match p_value(s, j3, fuel - 1) {
                    None => None,
                    Some((_v, j4)) => {
                        let j5 = skip_ws_x(s, j4);
                        if j5 < s.len() && s[j5] == ',' {
                            let j6 = skip_ws_x(s, j5 + 1);
                            p_members_skip(s, j6, fuel - 1)
                        } else if j5 < s.len() && s[j5] == '}' {
                            Some(j5 + 1)
                        } else {
                            None
                        }
                    },
                }
            } else {
                None
            }
        },
    }
}

proof fn lemma_lookup_cons(
    k: Seq<char>,
    v: JsonVal,
    fs: Seq<(Seq<char>, JsonVal)>,
    key: Seq<char>,
)
    ensures
        json::lookup_field(seq![(k, v)] + fs, key) == if k == key {
            Some(v)
        } else {
            json::lookup_field(fs, key)
        },
{
    let all = seq![(k, v)] + fs;
    assert(all[0] == (k, v));
    assert(all.drop_first() =~= fs);
}

proof fn lemma_lookup_single(k: Seq<char>, v: JsonVal, key: Seq<char>)
    ensures
        json::lookup_field(seq![(k, v)], key) == if k == key {
            Some(v)
        } else {
            None::<JsonVal>
        },
{
    assert(seq![(k, v)][0] == (k, v));
    assert(seq![(k, v)].drop_first() =~= Seq::<(Seq<char>, JsonVal)>::empty());
    assert(json::lookup_field(Seq::<(Seq<char>, JsonVal)>::empty(), key) is None);
}

/// Walks the members of the `message` object, capturing the first
/// `content` member and discarding the rest.
fn p_msg_members(s: &Vec<char>, i: usize, fuel: usize) -> (r: Option<(Option<ValSummary>, usize)>)
    requires
        i <= s@.len(),
    ensures
        match json::parse_members(s@, i as int, fuel as nat) {
            Option::None => r is None,
            Option::Some(pm) => r matches Some(p) && p.1 as int == pm.1 && i <= p.1 <= s@.len()
                && opt_summary_matches(p.0, json::lookup_field(pm.0, json::key_content())),
        },
    decreases fuel,
{
    if fuel == 0 {
        return None;
    }
    if !(i < s.len() && s[i] == '"') {
        return None;
    }
    match p_string(s, i + 1) {
        None => None,
        Some((k, j1)) => {
            let j2 = skip_ws_x(s, j1);
            if j2 < s.len() && s[j2] == ':' {
                let j3 = skip_ws_x(s, j2 + 1);
                match p_value(s, j3, fuel - 1) {
                    None => None,
                    Some((vsum, j4)) => {
                        let j5 = skip_ws_x(s, j4);
                        let is_content = key_is_content(&k);
                        if j5 < s.len() && s[j5] == ',' {
                            let j6 = skip_ws_x(s, j5 + 1);
                            match p_msg_members(s, j6, fuel - 1) {
                                None => None,
                                Some((rest, j7)) => {
                                    let cap = if is_content {
                                        Some(vsum)
                                    } else {
                                        rest
                                    };
                                    proof {
                                        if let Some((v, _j)) = json::parse_value(
                                            s@,
                                            j3 as int,
                                            (fuel - 1) as nat,
                                        ) {
                                            if let Some((fs, _j7)) = json::parse_members(
                                                s@,
                                                j6 as int,
                                                (fuel - 1) as nat,
                                            ) {
                                                lemma_lookup_cons(k@, v, fs, json::key_content());
                                            }
                                        }
                                    }
                                    Some((cap, j7))
                                },
                            }
                        } else if j5 < s.len() && s[j5] == '}' {
                            let cap = if is_content {
                                Some(vsum)
                            } else {
                                None
                            };
                            proof {
                                if let Some((v, _j)) = json::parse_value(
                                    s@,
                                    j3 as int,
                                    (fuel - 1) as nat,
                                ) {
                                    lemma_lookup_single(k@, v, json::key_content());
                                }
                            }
                            Some((cap, j5 + 1))
                        } else {
                            None
                        }
                    },
                }
            } else {
                None
            }
        },
    }
}

/// Parses the value of the `message` member, capturing its `content`.
fn p_msg_value(s: &Vec<char>, i: usize, fuel: usize) -> (r: Option<(MsgSummary, usize)>)
    requires
        i <= s@.len(),
    ensures
        match json::parse_value(s@, i as int, fuel as nat) {
            Option::None => r is None,
            Option::Some(pv) => r matches Some(p) && msg_matches(p.0, pv.0) && p.1 as int == pv.1
                && i <= p.1 <= s@.len(),
        },
    decreases fuel,
{
    if i < s.len() && s[i] == '{' {
        if fuel == 0 {
            None
        } else {
            let j = skip_ws_x(s, i + 1);
            if j < s.len() && s[j] == '}' {
                Some((MsgSummary::Fields { content: None }, j + 1))
            } else {
                match p_msg_members(s, j, fuel - 1) {
                    None => None,
                    Some((content, k)) => Some((MsgSummary::Fields { content }, k)),
                }
            }
        }
    } else {
        match p_value(s, i, fuel) {
            None => None,
            Some((_sum, j)) => Some((MsgSummary::NotObj, j)),
        }
    }
}

/// Walks the members of the envelope object, capturing the first `error`,
/// `message` and `done` members and discarding the rest.
fn p_top_members(s: &Vec<char>, i: usize, fuel: usize) -> (r: Option<
    (Option<ValSummary>, Option<MsgSummary>, Option<ValSummary>, usize),
>)
    requires
        i <= s@.len(),
    ensures
        match json::parse_members(s@, i as int, fuel as nat) {
            Option::None => r is None,
            Option::Some(pm) => r matches Some(p) && p.3 as int == pm.1 && i <= p.3 <= s@.len()
                && opt_summary_matches(p.0, json::lookup_field(pm.0, json::key_error()))
                && opt_msg_matches(p.1, json::lookup_field(pm.0, json::key_message()))
                && opt_summary_matches(p.2, json::lookup_field(pm.0, json::key_done())),
        },
    decreases fuel,
{
    if fuel == 0 {
        return None;
    }
    if !(i < s.len() && s[i] == '"') {
        return None;
    }
    match p_string(s, i + 1) {
        None => None,
        Some((k, j1)) => {
            let j2 = skip_ws_x(s, j1);
            if !(j2 < s.len() && s[j2] == ':') {
                return None;
            }
            let j3 = skip_ws_x(s, j2 + 1);
            if key_is_message(&k) {
                match p_msg_value(s, j3, fuel - 1) {
                    None => None,
                    Some((msum, j4)) => {
                        let j5 = skip_ws_x(s, j4);
                        if j5 < s.len() && s[j5] == ',' {
                            let j6 = skip_ws_x(s, j5 + 1);
                            match p_top_members(s, j6, fuel - 1) {
                                None => None,
                                Some((r_err, _r_msg, r_done, j7)) => {
                                    proof {
                                        keys_distinct();
                                        if let Some((v, _j)) = json::parse_value(
                                            s@,
                                            j3 as int,
                                            (fuel - 1) as nat,
                                        ) {
                                            if let Some((fs, _j7)) = json::parse_members(
                                                s@,
                                                j6 as int,
                                                (fuel - 1) as nat,
                                            ) {
                                                lemma_lookup_cons(k@, v, fs, json::key_error());
                                                lemma_lookup_cons(k@, v, fs, json::key_message());
                                                lemma_lookup_cons(k@, v, fs, json::key_done());
                                            }
                                        }
                                    }
                                    Some((r_err, Some(msum), r_done, j7))
                                },
                            }
                        } else if j5 < s.len() && s[j5] == '}' {
                            proof {
                                keys_distinct();
                                if let Some((v, _j)) = json::parse_value(
                                    s@,
                                    j3 as int,
                                    (fuel - 1) as nat,
                                ) {
                                    lemma_lookup_single(k@, v, json::key_error());
                                    lemma_lookup_single(k@, v, json::key_message());
                                    lemma_lookup_single(k@, v, json::key_done());
                                }
                            }
                            Some((None, Some(msum), None, j5 + 1))
                        } else {
                            None
                        }
                    },
                }
            } else {
                match p_value(s, j3, fuel - 1) {
                    None => None,
                    Some((vsum, j4)) => {
                        let j5 = skip_ws_x(s, j4);
                        let is_err = key_is_error(&k);
                        let is_done = key_is_done(&k);
                        if j5 < s.len() && s[j5] == ',' {
                            let j6 = skip_ws_x(s, j5 + 1);
                            match p_top_members(s, j6, fuel - 1) {
                                None => None,
                                Some((r_err, r_msg, r_done, j7)) => {
                                    let (e_cap, d_cap) = if is_err {
                                        (Some(vsum), r_done)
                                    } else if is_done {
                                        (r_err, Some(vsum))
                                    } else {
                                        (r_err, r_done)
                                    };
                                    proof {
                                        keys_distinct();
                                        if let Some((v, _j)) = json::parse_value(
                                            s@,
                                            j3 as int,
                                            (fuel - 1) as nat,
                                        ) {
                                            if let Some((fs, _j7)) = json::parse_members(
                                                s@,
                                                j6 as int,
                                                (fuel - 1) as nat,
                                            ) {
                                                lemma_lookup_cons(k@, v, fs, json::key_error());
                                                lemma_lookup_cons(k@, v, fs, json::key_message());
                                                lemma_lookup_cons(k@, v, fs, json::key_done());
                                            }
                                        }
                                    }
                                    Some((e_cap, r_msg, d_cap, j7))
                                },
                            }
                        } else if j5 < s.len() && s[j5] == '}' {
                            let (e_cap, d_cap) = if is_err {
                                (Some(vsum), None)
                            } else if is_done {
                                (None, Some(vsum))
                            } else {
                                (None, None)
                            };
                            proof {
                                keys_distinct();
                                if let Some((v, _j)) = json::parse_value(
                                    s@,
                                    j3 as int,
                                    (fuel - 1) as nat,
                                ) {
                                    lemma_lookup_single(k@, v, json::key_error());
                                    lemma_lookup_single(k@, v, json::key_message());
                                    lemma_lookup_single(k@, v, json::key_done());
                                }
                            }
                            Some((e_cap, None, d_cap, j5 + 1))
                        } else {
                            None
                        }
                    },
                }
            }
        },
    }
}

/// Parses the whole envelope value, capturing what classification needs.
fn p_top_value(s: &Vec<char>, i: usize, fuel: usize) -> (r: Option<(TopSummary, usize)>)
    requires
        i <= s@.len(),
    ensures
        match json::parse_value(s@, i as int, fuel as nat) {
            Option::None => r is None,
            Option::Some(pv) => r matches Some(p) && top_matches(p.0, pv.0) && p.1 as int == pv.1
                && i <= p.1 <= s@.len(),
        },
    decreases fuel,
{
    if i < s.len() && s[i] == '{' {
        if fuel == 0 {
            None
        } else {
            let j = skip_ws_x(s, i + 1);
            if j < s.len() && s[j] == '}' {
                Some(
                    (TopSummary::Fields { error: None, message: None, done: None }, j + 1),
                )
            } else {
                match p_top_members(s, j, fuel - 1) {
                    None => None,
                    Some((error, message, done, k)) => Some(
                        (TopSummary::Fields { error, message, done }, k),
                    ),
                }
            }
        }
    } else {
        match p_value(s, i, fuel) {
            None => None,
            Some((_sum, j)) => Some((TopSummary::NotObj, j)),
        }
    }
}

/// Parses a complete text as one envelope, per [`json::parse_json`]:
/// `None` exactly when the text is not a parseable JSON value.
pub fn parse_envelope(s: &Vec<char>) -> (r: Option<TopSummary>)
    ensures
        match json::parse_json(s@) {
            Option::None => r is None,
            Option::Some(v) => r matches Some(m) && top_matches(m, v),
        },
{
    let i = skip_ws_x(s, 0);
    match p_top_value(s, i, s.len()) {
        None => None,
        Some((m, j)) => {
            let j2 = skip_ws_x(s, j);
            if j2 == s.len() {
                Some(m)
            } else {
                None
            }
        },
    }
}

/// Walks the elements of an array, validating them and discarding them.
fn p_elements_skip(s: &Vec<char>, i: usize, fuel: usize) -> (r: Option<usize>)
    requires
        i <= s@.len(),
    ensures
        match json::parse_elements(s@, i as int, fuel as nat) {
            Option::None => r is None,
            Option::Some(pe) => r matches Some(j) && j as int == pe.1 && i <= j <= s@.len(),
        },
    decreases fuel,
{
    if fuel == 0 {
        return None;
    }
    match p_value(s, i, fuel - 1) {
        None => None,
        Some((_v, j1)) => {
            let j2 = skip_ws_x(s, j1);
            if j2 < s.len() && s[j2] == ',' {
                let j3 = skip_ws_x(s, j2 + 1);
                p_elements_skip(s, j3, fuel - 1)
            } else if j2 < s.len() && s[j2] == ']' {
                Some(j2 + 1)
            } else {
                None
            }
        },
    }
}

} // verus!
