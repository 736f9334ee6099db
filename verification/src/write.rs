//! The request writer: serialises a conversation into the JSON request
//! body the service expects.
//!
//! The wire shape is `{"model": ..., "stream": ..., "messages": [...],
//! "options": {...}}`, with `options` omitted when absent.  Generation
//! options are a sparse list of key/value pairs whose values are raw JSON
//! literals passed through unvalidated.

use vstd::prelude::*;
use vstd::string::StringExecFns;

use crate::text;
use crate::transcript::role_label;
use crate::transcript::MessageModel;
use crate::transcript::Role;
use crate::transcript::Transcript;

verus! {

/// The lower-case hexadecimal digit for a value below 16.
pub open spec fn hex_digit(v: int) -> char {
    if v == 0 {
        '0'
    } else if v == 1 {
        '1'
    } else if v == 2 {
        '2'
    } else if v == 3 {
        '3'
    } else if v == 4 {
        '4'
    } else if v == 5 {
        '5'
    } else if v == 6 {
        '6'
    } else if v == 7 {
        '7'
    } else if v == 8 {
        '8'
    } else if v == 9 {
        '9'
    } else if v == 10 {
        'a'
    } else if v == 11 {
        'b'
    } else if v == 12 {
        'c'
    } else if v == 13 {
        'd'
    } else if v == 14 {
        'e'
    } else {
        'f'
    }
}

/// How one character is written inside a JSON string literal: the named
/// escapes for the quote, the backslash and the common control
/// characters, `\u00XX` for the remaining control characters, the
/// character itself otherwise.
pub open spec fn escape_char(c: char) -> Seq<char> {
    if c == '"' {
        seq!['\\', '"']
    } else if c == '\\' {
        seq!['\\', '\\']
    } else if c == '\n' {
        seq!['\\', 'n']
    } else if c == '\r' {
        seq!['\\', 'r']
    } else if c == '\t' {
        seq!['\\', 't']
    } else if c == '\u{8}' {
        seq!['\\', 'b']
    } else if c == '\u{c}' {
        seq!['\\', 'f']
    } else if (c as u32) < 0x20 {
        seq!['\\', 'u', '0', '0', hex_digit(c as u32 as int / 16), hex_digit(c as u32 as int % 16)]
    } else {
        seq![c]
    }
}

/// A whole text, escaped for a JSON string literal.
pub open spec fn escape_string(s: Seq<char>) -> Seq<char>
    decreases s.len(),
{
    if s.len() == 0 {
        Seq::empty()
    } else {
        escape_char(s[0]) + escape_string(s.drop_first())
    }
}

proof fn lemma_escape_snoc(s: Seq<char>, c: char)
    ensures
        escape_string(s.push(c)) == escape_string(s) + escape_char(c),
    decreases s.len(),
{
    if s.len() == 0 {
        assert(s.push(c)[0] == c);
        assert(s.push(c).drop_first() =~= Seq::<char>::empty());
        assert(escape_string(Seq::<char>::empty()) == Seq::<char>::empty());
        assert(escape_char(c) + Seq::<char>::empty() =~= escape_char(c));
        assert(Seq::<char>::empty() + escape_char(c) =~= escape_char(c));
    } else {
        lemma_escape_snoc(s.drop_first(), c);
        assert(s.push(c)[0] == s[0]);
        assert(s.push(c).drop_first() =~= s.drop_first().push(c));
        assert(escape_string(s.push(c)) == escape_char(s[0]) + escape_string(
            s.drop_first().push(c),
        ));
        assert(escape_char(s[0]) + (escape_string(s.drop_first()) + escape_char(c)) =~= (escape_char(
            s[0],
        ) + escape_string(s.drop_first())) + escape_char(c));
        assert(escape_string(s) == escape_char(s[0]) + escape_string(s.drop_first()));
    }
}

fn hex_digit_x(v: u32) -> (c: char)
    requires
        v < 16,
    ensures
        c == hex_digit(v as int),
{
    if v == 0 {
        '0'
    } else if v == 1 {
        '1'
    } else if v == 2 {
        '2'
    } else if v == 3 {
        '3'
    } else if v == 4 {
        '4'
    } else if v == 5 {
        '5'
    } else if v == 6 {
        '6'
    } else if v == 7 {
        '7'
    } else if v == 8 {
        '8'
    } else if v == 9 {
        '9'
    } else if v == 10 {
        'a'
    } else if v == 11 {
        'b'
    } else if v == 12 {
        'c'
    } else if v == 13 {
        'd'
    } else if v == 14 {
        'e'
    } else {
        'f'
    }
}

/// Appends the escaped form of the given characters.
fn escape_push(out: &mut String, v: &Vec<char>)
    ensures
        final(out)@ == old(out)@ + escape_string(v@),
{
    let mut i: usize = 0;
    while i < v.len()
        invariant
            i <= v@.len(),
            out@ == old(out)@ + escape_string(v@.subrange(0, i as int)),
        decreases v@.len() - i,
    {
        let ghost pre = out@;
        let c = v[i];
        if c == '"' {
            text::push_char(out, '\\');
            text::push_char(out, '"');
        } else if c == '\\' {
            text::push_char(out, '\\');
            text::push_char(out, '\\');
        } else if c == '\n' {
            text::push_char(out, '\\');
            text::push_char(out, 'n');
        } else if c == '\r' {
            text::push_char(out, '\\');
            text::push_char(out, 'r');
        } else if c == '\t' {
            text::push_char(out, '\\');
            text::push_char(out, 't');
        } else if c == '\u{8}' {
            text::push_char(out, '\\');
            text::push_char(out, 'b');
        } else if c == '\u{c}' {
            text::push_char(out, '\\');
            text::push_char(out, 'f');
        } else if (c as u32) < 0x20 {
            text::push_char(out, '\\');
            text::push_char(out, 'u');
            text::push_char(out, '0');
            text::push_char(out, '0');
            text::push_char(out, hex_digit_x((c as u32) / 16));
            text::push_char(out, hex_digit_x((c as u32) % 16));
        } else {
            text::push_char(out, c);
        }
        proof {
            assert(out@ =~= pre + escape_char(v@[i as int]));
            lemma_escape_snoc(v@.subrange(0, i as int), v@[i as int]);
            assert(v@.subrange(0, i as int).push(v@[i as int]) =~= v@.subrange(0, i as int + 1));
            assert(out@ =~= old(out)@ + escape_string(v@.subrange(0, i as int + 1)));
        }
        i = i + 1;
    }
    proof {
        assert(v@.subrange(0, v@.len() as int) =~= v@);
    }
}

proof fn lemma_hex_digit_val(v: int)
    requires
        0 <= v < 16,
    ensures
        crate::json::hex_val(hex_digit(v)) == Some(v),
{
}

#[verifier::rlimit(100)]
#[verifier::spinoff_prover]
proof fn lemma_unescape_from(pre: Seq<char>, s: Seq<char>, suf: Seq<char>)
    ensures
        crate::json::string_rest(pre + escape_string(s) + seq!['"'] + suf, pre.len() as int)
            == Some((s, pre.len() + escape_string(s).len() + 1 as int)),
    decreases s.len(),
{
    let full = pre + escape_string(s) + seq!['"'] + suf;
    let i = pre.len() as int;
    let end = pre.len() + escape_string(s).len() + 1;
    if s.len() == 0 {
        assert(escape_string(s) == Seq::<char>::empty());
        assert(full[i] == '"');
        assert(s =~= Seq::<char>::empty());
        assert(crate::json::string_rest(full, i) == Some((Seq::<char>::empty(), i + 1)));
    } else {
        let c = s[0];
        let rest = s.drop_first();
        let ec = escape_char(c);
        let pre2 = pre + ec;
        let full2 = pre2 + escape_string(rest) + seq!['"'] + suf;
        assert(escape_string(s) == ec + escape_string(rest));
        assert(full =~= full2);
        lemma_unescape_from(pre2, rest, suf);
        assert(crate::json::string_rest(full, pre2.len() as int) == Some(
            (rest, pre2.len() + escape_string(rest).len() + 1 as int),
        ));
        assert(end == pre2.len() + escape_string(rest).len() + 1);
        assert(seq![c] + rest =~= s);
        if c == '"' {
            assert(full[i] == '\\' && full[i + 1] == '"');
            assert(crate::json::simple_escape('"') == Some('"'));
            assert(crate::json::string_rest(full, i) == Some((s, end as int)));
        } else if c == '\\' {
            assert(full[i] == '\\' && full[i + 1] == '\\');
            assert(crate::json::simple_escape('\\') == Some('\\'));
            assert(crate::json::string_rest(full, i) == Some((s, end as int)));
        } else if c == '\n' {
            assert(full[i] == '\\' && full[i + 1] == 'n');
            assert(crate::json::simple_escape('n') == Some('\n'));
            assert(crate::json::string_rest(full, i) == Some((s, end as int)));
        } else if c == '\r' {
            assert(full[i] == '\\' && full[i + 1] == 'r');
            assert(crate::json::simple_escape('r') == Some('\r'));
            assert(crate::json::string_rest(full, i) == Some((s, end as int)));
        } else if c == '\t' {
            assert(full[i] == '\\' && full[i + 1] == 't');
            assert(crate::json::simple_escape('t') == Some('\t'));
            assert(crate::json::string_rest(full, i) == Some((s, end as int)));
        } else if c == '\u{8}' {
            assert(full[i] == '\\' && full[i + 1] == 'b');
            assert(crate::json::simple_escape('b') == Some('\u{8}'));
            assert(crate::json::string_rest(full, i) == Some((s, end as int)));
        } else if c == '\u{c}' {
            assert(full[i] == '\\' && full[i + 1] == 'f');
            assert(crate::json::simple_escape('f') == Some('\u{c}'));
            assert(crate::json::string_rest(full, i) == Some((s, end as int)));
        } else if (c as u32) < 0x20 {
            let u = c as u32;
            let hi = u as int / 16;
            let lo = u as int % 16;
            assert(ec =~= seq!['\\', 'u', '0', '0', hex_digit(hi), hex_digit(lo)]);
            assert(full[i] == '\\' && full[i + 1] == 'u');
            assert(full[i + 2] == '0' && full[i + 3] == '0');
            assert(full[i + 4] == hex_digit(hi) && full[i + 5] == hex_digit(lo));
            assert(crate::json::simple_escape('u') is None);
            assert(crate::json::hex_val('0') == Some(0int));
            vstd::arithmetic::div_mod::lemma_fundamental_div_mod(u as int, 16);
            lemma_hex_digit_val(hi);
            lemma_hex_digit_val(lo);
            let v = 0 * 4096 + 0 * 256 + hi * 16 + lo;
            assert(crate::json::hex4(full, i + 2) == Some(v));
            assert(v == u as int);
            assert(!(0xD800 <= v && v < 0xDC00));
            assert(!(0xDC00 <= v && v < 0xE000));
            assert((v as u32) == u);
            vstd::utf8::char_u32_cast(c, u);
            assert(((v as u32) as char) == c);
            assert(crate::json::string_rest(full, i) == Some((s, end as int)));
        } else {
            assert(ec =~= seq![c]);
            assert(full[i] == c);
            assert(crate::json::string_rest(full, i) == Some((s, end as int)));
        }
    }
}

/// What the writer emits inside a string literal, the wire grammar reads
/// back: parsing the escaped text up to its closing quote yields exactly
/// the original text.
pub proof fn lemma_escape_round_trip(s: Seq<char>)
    ensures
        crate::json::string_rest(escape_string(s) + seq!['"'], 0) == Some(
            (s, (escape_string(s) + seq!['"']).len() as int),
        ),
{
    lemma_unescape_from(Seq::empty(), s, Seq::empty());
    assert(Seq::<char>::empty() + escape_string(s) + seq!['"'] + Seq::<char>::empty()
        =~= escape_string(s) + seq!['"']);
}

/// One message as a JSON object.
pub open spec fn message_json(m: MessageModel) -> Seq<char> {
    "{\"role\":\""@ + role_label(m.role) + "\",\"content\":\""@ + escape_string(m.content) + "\"}"@
}

/// A character the escaper passes through unchanged.
pub open spec fn is_plain(c: char) -> bool {
    c != '"' && c != '\\' && (c as u32) >= 0x20
}

proof fn lemma_escape_plain(s: Seq<char>)
    requires
        forall|i: int| 0 <= i < s.len() ==> is_plain(#[trigger] s[i]),
    ensures
        escape_string(s) == s,
    decreases s.len(),
{
    if s.len() == 0 {
        assert(escape_string(s) =~= s);
    } else {
        assert(is_plain(s[0]));
        assert(escape_char(s[0]) == seq![s[0]]);
        assert forall|i: int| 0 <= i < s.drop_first().len() implies is_plain(
            #[trigger] s.drop_first()[i],
        ) by {
            assert(s.drop_first()[i] == s[i + 1]);
        }
        lemma_escape_plain(s.drop_first());
        assert(escape_string(s) =~= s);
    }
}

proof fn lemma_role_label_plain(r: Role)
    ensures
        escape_string(role_label(r)) == role_label(r),
{
    reveal_strlit("system");
    reveal_strlit("user");
    reveal_strlit("assistant");
    match r {
        Role::System => {
            assert(role_label(r) =~= seq!['s', 'y', 's', 't', 'e', 'm']);
        },
        Role::User => {
            assert(role_label(r) =~= seq!['u', 's', 'e', 'r']);
        },
        Role::Assistant => {
            assert(role_label(r) =~= seq!['a', 's', 's', 'i', 's', 't', 'a', 'n', 't']);
        },
    }
    lemma_escape_plain(role_label(r));
}

/// The JSON value a written message object denotes: its `role` label and
/// its `content` text.
pub open spec fn message_val(m: MessageModel) -> crate::json::JsonVal {
    crate::json::JsonVal::Obj(
        seq![
            (seq!['r', 'o', 'l', 'e'], crate::json::JsonVal::Str(role_label(m.role))),
            (crate::json::key_content(), crate::json::JsonVal::Str(m.content)),
        ],
    )
}

proof fn lemma_msg_role_key(pre: Seq<char>, m: MessageModel, suf: Seq<char>)
    ensures
        crate::json::string_rest(pre + message_json(m) + suf, pre.len() + 2 as int) == Some(
            (seq!['r', 'o', 'l', 'e'], pre.len() + 7 as int),
        ),
{
    reveal_strlit("{\"role\":\"");
    let l1 = "{\"role\":\""@;
    assert(l1 =~= seq!['{', '"', 'r', 'o', 'l', 'e', '"', ':', '"']);
    let rolekey = seq!['r', 'o', 'l', 'e'];
    assert forall|k: int| 0 <= k < rolekey.len() implies is_plain(#[trigger] rolekey[k]) by {}
    lemma_escape_plain(rolekey);
    let pre_k = pre + seq!['{', '"'];
    let suf_k = seq![':', '"'] + role_label(m.role) + "\",\"content\":\""@ + escape_string(
        m.content,
    ) + "\"}"@ + suf;
    assert(pre + message_json(m) + suf =~= pre_k + escape_string(rolekey) + seq!['"'] + suf_k);
    lemma_unescape_from(pre_k, rolekey, suf_k);
}

proof fn lemma_msg_role_value(pre: Seq<char>, m: MessageModel, suf: Seq<char>)
    ensures
        crate::json::string_rest(pre + message_json(m) + suf, pre.len() + 9 as int) == Some(
            (role_label(m.role), pre.len() + 10 + role_label(m.role).len() as int),
        ),
{
    reveal_strlit("{\"role\":\"");
    let l1 = "{\"role\":\""@;
    assert(l1.len() == 9);
    assert(l1[8] == '"');
    lemma_role_label_plain(m.role);
    let pre_v = pre + l1;
    let suf_v = "\",\"content\":\""@.drop_first() + escape_string(m.content) + "\"}"@ + suf;
    assert(pre + message_json(m) + suf =~= pre_v + escape_string(role_label(m.role)) + seq!['"']
        + suf_v) by {
        reveal_strlit("\",\"content\":\"");
        assert("\",\"content\":\""@[0] == '"');
        assert(seq!['"'] + "\",\"content\":\""@.drop_first() =~= "\",\"content\":\""@);
    }
    lemma_unescape_from(pre_v, role_label(m.role), suf_v);
}

proof fn lemma_msg_content_key(pre: Seq<char>, m: MessageModel, suf: Seq<char>)
    ensures
        crate::json::string_rest(
            pre + message_json(m) + suf,
            pre.len() + 12 + role_label(m.role).len() as int,
        ) == Some(
            (crate::json::key_content(), pre.len() + 20 + role_label(m.role).len() as int),
        ),
{
    reveal_strlit("{\"role\":\"");
    reveal_strlit("\",\"content\":\"");
    let l2 = "\",\"content\":\""@;
    assert(l2 =~= seq!['"', ',', '"', 'c', 'o', 'n', 't', 'e', 'n', 't', '"', ':', '"']);
    let ckey = crate::json::key_content();
    assert forall|k: int| 0 <= k < ckey.len() implies is_plain(#[trigger] ckey[k]) by {}
    lemma_escape_plain(ckey);
    let pre_k2 = pre + "{\"role\":\""@ + role_label(m.role) + seq!['"', ',', '"'];
    let suf_k2 = seq![':', '"'] + escape_string(m.content) + "\"}"@ + suf;
    assert(pre + message_json(m) + suf =~= pre_k2 + escape_string(ckey) + seq!['"'] + suf_k2);
    assert(pre_k2.len() == pre.len() + 12 + role_label(m.role).len());
    lemma_unescape_from(pre_k2, ckey, suf_k2);
}

proof fn lemma_msg_content_value(pre: Seq<char>, m: MessageModel, suf: Seq<char>)
    ensures
        crate::json::string_rest(
            pre + message_json(m) + suf,
            pre.len() + 22 + role_label(m.role).len() as int,
        ) == Some(
            (
                m.content,
                pre.len() + 23 + role_label(m.role).len() + escape_string(m.content).len() as int,
            ),
        ),
{
    reveal_strlit("{\"role\":\"");
    reveal_strlit("\",\"content\":\"");
    reveal_strlit("\"}");
    let pre_c = pre + "{\"role\":\""@ + role_label(m.role) + "\",\"content\":\""@;
    let suf_c = seq!['}'] + suf;
    assert(pre + message_json(m) + suf =~= pre_c + escape_string(m.content) + seq!['"'] + suf_c)
        by {
        assert("\"}"@ =~= seq!['"', '}']);
        assert(seq!['"'] + seq!['}'] =~= seq!['"', '}']);
    }
    assert(pre_c.len() == pre.len() + 22 + role_label(m.role).len());
    lemma_unescape_from(pre_c, m.content, suf_c);
}

proof fn lemma_msg_chars(pre: Seq<char>, m: MessageModel, suf: Seq<char>)
    ensures
        message_json(m).len() == 24 + role_label(m.role).len() + escape_string(m.content).len(),
        (pre + message_json(m) + suf)[pre.len() as int] == '{',
        (pre + message_json(m) + suf)[pre.len() + 1 as int] == '"',
        (pre + message_json(m) + suf)[pre.len() + 7 as int] == ':',
        (pre + message_json(m) + suf)[pre.len() + 8 as int] == '"',
        (pre + message_json(m) + suf)[pre.len() + 10 + role_label(m.role).len() as int] == ',',
        (pre + message_json(m) + suf)[pre.len() + 11 + role_label(m.role).len() as int] == '"',
        (pre + message_json(m) + suf)[pre.len() + 20 + role_label(m.role).len() as int] == ':',
        (pre + message_json(m) + suf)[pre.len() + 21 + role_label(m.role).len() as int] == '"',
        (pre + message_json(m) + suf)[pre.len() + 23 + role_label(m.role).len()
            + escape_string(m.content).len() as int] == '}',
{
    reveal_strlit("{\"role\":\"");
    reveal_strlit("\",\"content\":\"");
    reveal_strlit("\"}");
    let l1 = "{\"role\":\""@;
    let l2 = "\",\"content\":\""@;
    let l3 = "\"}"@;
    assert(l1 =~= seq!['{', '"', 'r', 'o', 'l', 'e', '"', ':', '"']);
    assert(l2 =~= seq!['"', ',', '"', 'c', 'o', 'n', 't', 'e', 'n', 't', '"', ':', '"']);
    assert(l3 =~= seq!['"', '}']);
}

#[verifier::rlimit(100)]
#[verifier::spinoff_prover]
proof fn lemma_message_parses(pre: Seq<char>, m: MessageModel, suf: Seq<char>, fuel: nat)
    requires
        fuel >= 3,
    ensures
        crate::json::parse_value(pre + message_json(m) + suf, pre.len() as int, fuel) == Some(
            (message_val(m), pre.len() + message_json(m).len() as int),
        ),
{
    let label = role_label(m.role);
    let esc = escape_string(m.content);
    let full = pre + message_json(m) + suf;
    let i = pre.len() as int;
    let rolekey = seq!['r', 'o', 'l', 'e'];
    let ckey = crate::json::key_content();
    lemma_msg_chars(pre, m, suf);
    lemma_msg_role_key(pre, m, suf);
    lemma_msg_role_value(pre, m, suf);
    lemma_msg_content_key(pre, m, suf);
    lemma_msg_content_value(pre, m, suf);
    let p1 = i + 10 + label.len() as int;
    let p2 = p1 + 13 + esc.len() as int;
    assert(crate::json::string_rest(full, i + 2) == Some((rolekey, i + 7)));
    assert(crate::json::string_rest(full, i + 9) == Some((label, p1)));
    assert(crate::json::string_rest(full, p1 + 2) == Some((ckey, p1 + 10)));
    assert(crate::json::string_rest(full, p1 + 12) == Some((m.content, p2)));

    assert(full[i] == '{');
    assert(full[i + 1] == '"');
    assert(crate::json::skip_ws(full, i + 1) == i + 1);
    assert(full[i + 7] == ':');
    assert(crate::json::skip_ws(full, i + 7) == i + 7);
    assert(full[i + 8] == '"');
    assert(crate::json::skip_ws(full, i + 8) == i + 8);
    assert(crate::json::parse_value(full, i + 8, (fuel - 2) as nat) == Some(
        (crate::json::JsonVal::Str(label), p1),
    ));
    assert(full[p1] == ',');
    assert(crate::json::skip_ws(full, p1) == p1);
    assert(full[p1 + 1] == '"');
    assert(crate::json::skip_ws(full, p1 + 1) == p1 + 1);
    assert(full[p1 + 10] == ':');
    assert(crate::json::skip_ws(full, p1 + 10) == p1 + 10);
    assert(full[p1 + 11] == '"');
    assert(crate::json::skip_ws(full, p1 + 11) == p1 + 11);
    assert(crate::json::parse_value(full, p1 + 11, (fuel - 3) as nat) == Some(
        (crate::json::JsonVal::Str(m.content), p2),
    ));
    assert(full[p2] == '}');
    assert(crate::json::skip_ws(full, p2) == p2);
    assert(crate::json::parse_members(full, p1 + 1, (fuel - 2) as nat) == Some(
        (seq![(ckey, crate::json::JsonVal::Str(m.content))], p2 + 1),
    ));
    let fields = seq![
        (rolekey, crate::json::JsonVal::Str(label)),
        (ckey, crate::json::JsonVal::Str(m.content)),
    ];
    assert(seq![(rolekey, crate::json::JsonVal::Str(label))] + seq![
        (ckey, crate::json::JsonVal::Str(m.content)),
    ] =~= fields);
    assert(crate::json::parse_members(full, i + 1, (fuel - 1) as nat) == Some(
        (fields, p2 + 1),
    ));
    assert(p2 + 1 == pre.len() + message_json(m).len());
    assert(crate::json::parse_value(full, i, fuel) == Some((message_val(m), p2 + 1)));
}

/// The messages after the first, each preceded by a comma.
pub open spec fn messages_rest_json(ms: Seq<MessageModel>) -> Seq<char>
    decreases ms.len(),
{
    if ms.len() == 0 {
        Seq::empty()
    } else {
        ","@ + message_json(ms[0]) + messages_rest_json(ms.drop_first())
    }
}

/// The contents of the `messages` array.
pub open spec fn messages_json(ms: Seq<MessageModel>) -> Seq<char> {
    if ms.len() == 0 {
        Seq::empty()
    } else {
        message_json(ms[0]) + messages_rest_json(ms.drop_first())
    }
}

proof fn lemma_rest_snoc(ms: Seq<MessageModel>, m: MessageModel)
    ensures
        messages_rest_json(ms.push(m)) == messages_rest_json(ms) + ","@ + message_json(m),
    decreases ms.len(),
{
    if ms.len() == 0 {
        assert(ms.push(m)[0] == m);
        assert(ms.push(m).drop_first() =~= Seq::<MessageModel>::empty());
        assert(messages_rest_json(Seq::<MessageModel>::empty()) == Seq::<char>::empty());
        assert(messages_rest_json(ms.push(m)) =~= messages_rest_json(ms) + ","@ + message_json(m));
    } else {
        lemma_rest_snoc(ms.drop_first(), m);
        assert(ms.push(m)[0] == ms[0]);
        assert(ms.push(m).drop_first() =~= ms.drop_first().push(m));
        assert(messages_rest_json(ms.push(m)) == ","@ + message_json(ms[0])
            + messages_rest_json(ms.drop_first().push(m)));
        assert(messages_rest_json(ms) == ","@ + message_json(ms[0]) + messages_rest_json(
            ms.drop_first(),
        ));
        assert(messages_rest_json(ms.push(m)) =~= messages_rest_json(ms) + ","@ + message_json(m));
    }
}

/// Appends the JSON object for one message.
fn message_push(out: &mut String, role: Role, content: &String)
    ensures
        final(out)@ == old(out)@ + message_json(
            MessageModel { role, content: content@ },
        ),
{
    out.append("{\"role\":\"");
    match role {
        Role::System => out.append("system"),
        Role::User => out.append("user"),
        Role::Assistant => out.append("assistant"),
    }
    out.append("\",\"content\":\"");
    let cs = text::chars_of(content.as_str());
    escape_push(out, &cs);
    out.append("\"}");
    proof {
        assert(out@ =~= old(out)@ + message_json(MessageModel { role, content: content@ }));
    }
}

/// The JSON values the written `messages` array denotes, in order.
pub open spec fn messages_vals(ms: Seq<MessageModel>) -> Seq<crate::json::JsonVal> {
    ms.map(|i: int, m: MessageModel| message_val(m))
}

proof fn lemma_messages_min_len(ms: Seq<MessageModel>)
    ensures
        messages_json(ms).len() >= ms.len(),
        messages_rest_json(ms).len() >= ms.len(),
    decreases ms.len(),
{
    if ms.len() > 0 {
        lemma_messages_min_len(ms.drop_first());
        lemma_msg_chars(Seq::empty(), ms[0], Seq::empty());
    }
}

#[verifier::rlimit(100)]
#[verifier::spinoff_prover]
proof fn lemma_messages_single(pre: Seq<char>, ms: Seq<MessageModel>, suf: Seq<char>, fuel: nat)
    requires
        ms.len() == 1,
        fuel >= 4,
    ensures
        crate::json::parse_elements(
            pre + messages_json(ms) + seq![']'] + suf,
            pre.len() as int,
            fuel,
        ) == Some((messages_vals(ms), pre.len() + messages_json(ms).len() + 1 as int)),
{
    let full = pre + messages_json(ms) + seq![']'] + suf;
    let i = pre.len() as int;
    let m0 = ms[0];
    let mj0 = message_json(m0);
    assert(messages_rest_json(ms.drop_first()) == Seq::<char>::empty());
    assert(messages_json(ms) =~= mj0);
    let suf_v = seq![']'] + suf;
    assert(full =~= pre + mj0 + suf_v);
    lemma_message_parses(pre, m0, suf_v, (fuel - 1) as nat);
    lemma_msg_chars(pre, m0, suf_v);
    let e0 = i + mj0.len() as int;
    assert(full[e0] == ']');
    assert(crate::json::skip_ws(full, e0) == e0);
    assert(messages_vals(ms) =~= seq![message_val(m0)]);
    assert(crate::json::parse_elements(full, i, fuel) == Some((messages_vals(ms), e0 + 1)));
}

#[verifier::rlimit(100)]
#[verifier::spinoff_prover]
proof fn lemma_messages_step(pre: Seq<char>, ms: Seq<MessageModel>, suf: Seq<char>, fuel: nat)
    requires
        ms.len() >= 2,
        fuel >= 4,
        crate::json::parse_elements(
            pre + messages_json(ms) + seq![']'] + suf,
            pre.len() + message_json(ms[0]).len() + 1 as int,
            (fuel - 1) as nat,
        ) == Some(
            (messages_vals(ms.drop_first()), pre.len() + messages_json(ms).len() + 1 as int),
        ),
    ensures
        crate::json::parse_elements(
            pre + messages_json(ms) + seq![']'] + suf,
            pre.len() as int,
            fuel,
        ) == Some((messages_vals(ms), pre.len() + messages_json(ms).len() + 1 as int)),
{
    let full = pre + messages_json(ms) + seq![']'] + suf;
    let i = pre.len() as int;
    let m0 = ms[0];
    let mj0 = message_json(m0);
    let tail = ms.drop_first();
    reveal_strlit(",");
    assert(","@ =~= seq![',']);
    assert(messages_json(tail) == message_json(tail[0]) + messages_rest_json(tail.drop_first()));
    assert(messages_json(ms) =~= mj0 + seq![','] + messages_json(tail));
    let suf_v = seq![','] + messages_json(tail) + seq![']'] + suf;
    assert(full =~= pre + mj0 + suf_v);
    lemma_message_parses(pre, m0, suf_v, (fuel - 1) as nat);
    lemma_msg_chars(pre, m0, suf_v);
    let e0 = i + mj0.len() as int;
    assert(full[e0] == ',');
    assert(crate::json::skip_ws(full, e0) == e0);
    let pre2 = pre + mj0 + seq![','];
    let suf_t = messages_rest_json(tail.drop_first()) + seq![']'] + suf;
    assert(full =~= pre2 + message_json(tail[0]) + suf_t);
    lemma_msg_chars(pre2, tail[0], suf_t);
    assert(full[e0 + 1] == '{');
    assert(crate::json::skip_ws(full, e0 + 1) == e0 + 1);
    assert(seq![message_val(m0)] + messages_vals(tail) =~= messages_vals(ms));
    assert(crate::json::parse_elements(full, i, fuel) == Some(
        (messages_vals(ms), i + messages_json(ms).len() + 1 as int),
    ));
}

proof fn lemma_messages_elements(
    pre: Seq<char>,
    ms: Seq<MessageModel>,
    suf: Seq<char>,
    fuel: nat,
)
    requires
        ms.len() >= 1,
        fuel >= ms.len() + 3,
    ensures
        crate::json::parse_elements(
            pre + messages_json(ms) + seq![']'] + suf,
            pre.len() as int,
            fuel,
        ) == Some((messages_vals(ms), pre.len() + messages_json(ms).len() + 1 as int)),
    decreases ms.len(),
{
    if ms.len() == 1 {
        lemma_messages_single(pre, ms, suf, fuel);
    } else {
        let full = pre + messages_json(ms) + seq![']'] + suf;
        let i = pre.len() as int;
        let mj0 = message_json(ms[0]);
        let tail = ms.drop_first();
        reveal_strlit(",");
        assert(","@ =~= seq![',']);
        assert(messages_json(tail) == message_json(tail[0]) + messages_rest_json(
            tail.drop_first(),
        ));
        assert(messages_json(ms) =~= mj0 + seq![','] + messages_json(tail));
        let pre2 = pre + mj0 + seq![','];
        lemma_messages_elements(pre2, tail, suf, (fuel - 1) as nat);
        assert(full =~= pre2 + messages_json(tail) + seq![']'] + suf);
        assert(crate::json::parse_elements(full, pre2.len() as int, (fuel - 1) as nat) == Some(
            (messages_vals(tail), pre2.len() + messages_json(tail).len() + 1 as int),
        ));
        assert(pre2.len() == i + mj0.len() + 1);
        assert(pre2.len() + messages_json(tail).len() + 1 == i + messages_json(ms).len() + 1);
        lemma_messages_step(pre, ms, suf, fuel);
    }
}

/// The JSON value a whole request without options denotes.
pub open spec fn request_val(
    model: Seq<char>,
    stream: bool,
    ms: Seq<MessageModel>,
) -> crate::json::JsonVal {
    crate::json::JsonVal::Obj(
        seq![
            (seq!['m', 'o', 'd', 'e', 'l'], crate::json::JsonVal::Str(model)),
            (seq!['s', 't', 'r', 'e', 'a', 'm'], crate::json::JsonVal::Bool(stream)),
            (
                seq!['m', 'e', 's', 's', 'a', 'g', 'e', 's'],
                crate::json::JsonVal::Arr(messages_vals(ms)),
            ),
        ],
    )
}

/// The text of the stream flag.
pub open spec fn bool_json(stream: bool) -> Seq<char> {
    if stream {
        "true"@
    } else {
        "false"@
    }
}

proof fn lemma_req_decompose(model: Seq<char>, stream: bool, ms: Seq<MessageModel>)
    ensures
        request_json(model, stream, ms, None) =~= "{\"model\":\""@ + escape_string(model)
            + "\",\"stream\":"@ + bool_json(stream) + ",\"messages\":["@ + messages_json(ms)
            + seq![']'] + seq!['}'],
{
    reveal_strlit("]");
    reveal_strlit("}");
    assert("]"@ =~= seq![']']);
    assert("}"@ =~= seq!['}']);
}

proof fn lemma_req_model_key(model: Seq<char>, stream: bool, ms: Seq<MessageModel>)
    ensures
        crate::json::string_rest(request_json(model, stream, ms, None), 2) == Some(
            (seq!['m', 'o', 'd', 'e', 'l'], 8int),
        ),
{
    lemma_req_decompose(model, stream, ms);
    reveal_strlit("{\"model\":\"");
    let l1 = "{\"model\":\""@;
    assert(l1 =~= seq!['{', '"', 'm', 'o', 'd', 'e', 'l', '"', ':', '"']);
    let mkey = seq!['m', 'o', 'd', 'e', 'l'];
    assert forall|k: int| 0 <= k < mkey.len() implies is_plain(#[trigger] mkey[k]) by {}
    lemma_escape_plain(mkey);
    let pre_k = seq!['{', '"'];
    let suf_k = seq![':', '"'] + escape_string(model) + "\",\"stream\":"@ + bool_json(stream)
        + ",\"messages\":["@ + messages_json(ms) + seq![']'] + seq!['}'];
    assert(request_json(model, stream, ms, None) =~= pre_k + escape_string(mkey) + seq!['"']
        + suf_k);
    lemma_unescape_from(pre_k, mkey, suf_k);
}

proof fn lemma_req_model_value(model: Seq<char>, stream: bool, ms: Seq<MessageModel>)
    ensures
        crate::json::string_rest(request_json(model, stream, ms, None), 10) == Some(
            (model, 11 + escape_string(model).len() as int),
        ),
{
    lemma_req_decompose(model, stream, ms);
    reveal_strlit("{\"model\":\"");
    let l1 = "{\"model\":\""@;
    assert(l1.len() == 10);
    let pre_v = l1;
    let suf_v = "\",\"stream\":"@.drop_first() + bool_json(stream) + ",\"messages\":["@
        + messages_json(ms) + seq![']'] + seq!['}'];
    assert(request_json(model, stream, ms, None) =~= pre_v + escape_string(model) + seq!['"']
        + suf_v) by {
        reveal_strlit("\",\"stream\":");
        assert("\",\"stream\":"@[0] == '"');
        assert(seq!['"'] + "\",\"stream\":"@.drop_first() =~= "\",\"stream\":"@);
    }
    lemma_unescape_from(pre_v, model, suf_v);
}

proof fn lemma_req_stream_key(model: Seq<char>, stream: bool, ms: Seq<MessageModel>)
    ensures
        crate::json::string_rest(
            request_json(model, stream, ms, None),
            13 + escape_string(model).len() as int,
        ) == Some(
            (seq!['s', 't', 'r', 'e', 'a', 'm'], 20 + escape_string(model).len() as int),
        ),
{
    lemma_req_decompose(model, stream, ms);
    reveal_strlit("{\"model\":\"");
    reveal_strlit("\",\"stream\":");
    let l2 = "\",\"stream\":"@;
    assert(l2 =~= seq!['"', ',', '"', 's', 't', 'r', 'e', 'a', 'm', '"', ':']);
    let skey = seq!['s', 't', 'r', 'e', 'a', 'm'];
    assert forall|k: int| 0 <= k < skey.len() implies is_plain(#[trigger] skey[k]) by {}
    lemma_escape_plain(skey);
    let pre_k = "{\"model\":\""@ + escape_string(model) + seq!['"', ',', '"'];
    let suf_k = seq![':'] + bool_json(stream) + ",\"messages\":["@ + messages_json(ms)
        + seq![']'] + seq!['}'];
    assert(request_json(model, stream, ms, None) =~= pre_k + escape_string(skey) + seq!['"']
        + suf_k);
    assert(pre_k.len() == 13 + escape_string(model).len());
    lemma_unescape_from(pre_k, skey, suf_k);
}

proof fn lemma_req_messages_key(model: Seq<char>, stream: bool, ms: Seq<MessageModel>)
    ensures
        crate::json::string_rest(
            request_json(model, stream, ms, None),
            23 + escape_string(model).len() + bool_json(stream).len() as int,
        ) == Some(
            (
                seq!['m', 'e', 's', 's', 'a', 'g', 'e', 's'],
                32 + escape_string(model).len() + bool_json(stream).len() as int,
            ),
        ),
{
    lemma_req_decompose(model, stream, ms);
    reveal_strlit("{\"model\":\"");
    reveal_strlit("\",\"stream\":");
    reveal_strlit(",\"messages\":[");
    let l3 = ",\"messages\":["@;
    assert(l3 =~= seq![',', '"', 'm', 'e', 's', 's', 'a', 'g', 'e', 's', '"', ':', '[']);
    let gkey = seq!['m', 'e', 's', 's', 'a', 'g', 'e', 's'];
    assert forall|k: int| 0 <= k < gkey.len() implies is_plain(#[trigger] gkey[k]) by {}
    lemma_escape_plain(gkey);
    let pre_k = "{\"model\":\""@ + escape_string(model) + "\",\"stream\":"@ + bool_json(stream)
        + seq![',', '"'];
    let suf_k = seq![':', '['] + messages_json(ms) + seq![']'] + seq!['}'];
    assert(request_json(model, stream, ms, None) =~= pre_k + escape_string(gkey) + seq!['"']
        + suf_k);
    assert(pre_k.len() == 23 + escape_string(model).len() + bool_json(stream).len());
    lemma_unescape_from(pre_k, gkey, suf_k);
}

proof fn lemma_req_chars(model: Seq<char>, stream: bool, ms: Seq<MessageModel>)
    ensures
        ({
            let body = request_json(model, stream, ms, None);
            let e = escape_string(model).len() as int;
            let b = bool_json(stream).len() as int;
            let mm = messages_json(ms).len() as int;
            &&& body.len() == 36 + e + b + mm
            &&& body[0] == '{'
            &&& body[1] == '"'
            &&& body[8] == ':'
            &&& body[9] == '"'
            &&& body[11 + e] == ','
            &&& body[12 + e] == '"'
            &&& body[20 + e] == ':'
            &&& (stream ==> body[21 + e] == 't' && body[22 + e] == 'r' && body[23 + e] == 'u'
                && body[24 + e] == 'e')
            &&& (!stream ==> body[21 + e] == 'f' && body[22 + e] == 'a' && body[23 + e] == 'l'
                && body[24 + e] == 's' && body[25 + e] == 'e')
            &&& b == (if stream {
                4int
            } else {
                5int
            })
            &&& body[21 + e + b] == ','
            &&& body[22 + e + b] == '"'
            &&& body[32 + e + b] == ':'
            &&& body[33 + e + b] == '['
            &&& body[34 + e + b + mm] == ']'
            &&& body[35 + e + b + mm] == '}'
        }),
{
    lemma_req_decompose(model, stream, ms);
    reveal_strlit("{\"model\":\"");
    reveal_strlit("\",\"stream\":");
    reveal_strlit(",\"messages\":[");
    reveal_strlit("true");
    reveal_strlit("false");
    assert("{\"model\":\""@ =~= seq!['{', '"', 'm', 'o', 'd', 'e', 'l', '"', ':', '"']);
    assert("\",\"stream\":"@ =~= seq!['"', ',', '"', 's', 't', 'r', 'e', 'a', 'm', '"', ':']);
    assert(",\"messages\":["@ =~= seq![
        ',',
        '"',
        'm',
        'e',
        's',
        's',
        'a',
        'g',
        'e',
        's',
        '"',
        ':',
        '[',
    ]);
    if stream {
        assert(bool_json(stream) =~= seq!['t', 'r', 'u', 'e']);
    } else {
        assert(bool_json(stream) =~= seq!['f', 'a', 'l', 's', 'e']);
    }
}

#[verifier::rlimit(100)]
#[verifier::spinoff_prover]
proof fn lemma_req_members3(model: Seq<char>, stream: bool, ms: Seq<MessageModel>, fuel: nat)
    requires
        fuel >= ms.len() + 5,
    ensures
        ({
            let body = request_json(model, stream, ms, None);
            let e = escape_string(model).len() as int;
            let b = bool_json(stream).len() as int;
            let mm = messages_json(ms).len() as int;
            crate::json::parse_members(body, 22 + e + b, fuel) == Some(
                (
                    seq![
                        (
                            seq!['m', 'e', 's', 's', 'a', 'g', 'e', 's'],
                            crate::json::JsonVal::Arr(messages_vals(ms)),
                        ),
                    ],
                    36 + e + b + mm as int,
                ),
            )
        }),
{
    let body = request_json(model, stream, ms, None);
    let e = escape_string(model).len() as int;
    let b = bool_json(stream).len() as int;
    let mm = messages_json(ms).len() as int;
    lemma_req_chars(model, stream, ms);
    lemma_req_messages_key(model, stream, ms);
    assert(crate::json::skip_ws(body, 32 + e + b) == 32 + e + b);
    assert(crate::json::skip_ws(body, 33 + e + b) == 33 + e + b);
    if ms.len() == 0 {
        assert(messages_json(ms) == Seq::<char>::empty());
        assert(body[34 + e + b] == ']');
        assert(crate::json::skip_ws(body, 34 + e + b) == 34 + e + b);
        assert(messages_vals(ms) =~= Seq::<crate::json::JsonVal>::empty());
        assert(crate::json::parse_value(body, 33 + e + b, (fuel - 1) as nat) == Some(
            (crate::json::JsonVal::Arr(messages_vals(ms)), 35 + e + b + mm as int),
        ));
    } else {
        reveal_strlit("{\"model\":\"");
        reveal_strlit("\",\"stream\":");
        reveal_strlit(",\"messages\":[");
        let pre_m = "{\"model\":\""@ + escape_string(model) + "\",\"stream\":"@ + bool_json(
            stream,
        ) + ",\"messages\":["@;
        assert(pre_m.len() == 34 + e + b);
        lemma_req_decompose(model, stream, ms);
        assert(body =~= pre_m + messages_json(ms) + seq![']'] + seq!['}']);
        lemma_messages_elements(pre_m, ms, seq!['}'], (fuel - 2) as nat);
        let suf_m = messages_rest_json(ms.drop_first()) + seq![']'] + seq!['}'];
        assert(body =~= pre_m + message_json(ms[0]) + suf_m);
        lemma_msg_chars(pre_m, ms[0], suf_m);
        assert(body[34 + e + b] == '{');
        assert(crate::json::skip_ws(body, 34 + e + b) == 34 + e + b);
        assert(crate::json::parse_elements(body, 34 + e + b, (fuel - 2) as nat) == Some(
            (messages_vals(ms), 35 + e + b + mm as int),
        ));
        assert(crate::json::parse_value(body, 33 + e + b, (fuel - 1) as nat) == Some(
            (crate::json::JsonVal::Arr(messages_vals(ms)), 35 + e + b + mm as int),
        ));
    }
    assert(body[35 + e + b + mm] == '}');
    assert(crate::json::skip_ws(body, 35 + e + b + mm) == 35 + e + b + mm);
    assert(crate::json::parse_members(body, 22 + e + b, fuel) == Some(
        (
            seq![
                (
                    seq!['m', 'e', 's', 's', 'a', 'g', 'e', 's'],
                    crate::json::JsonVal::Arr(messages_vals(ms)),
                ),
            ],
            36 + e + b + mm as int,
        ),
    ));
}

#[verifier::rlimit(100)]
#[verifier::spinoff_prover]
proof fn lemma_req_members2(model: Seq<char>, stream: bool, ms: Seq<MessageModel>, fuel: nat)
    requires
        fuel >= ms.len() + 6,
    ensures
        ({
            let body = request_json(model, stream, ms, None);
            let e = escape_string(model).len() as int;
            let b = bool_json(stream).len() as int;
            let mm = messages_json(ms).len() as int;
            crate::json::parse_members(body, 12 + e, fuel) == Some(
                (
                    seq![
                        (
                            seq!['s', 't', 'r', 'e', 'a', 'm'],
                            crate::json::JsonVal::Bool(stream),
                        ),
                        (
                            seq!['m', 'e', 's', 's', 'a', 'g', 'e', 's'],
                            crate::json::JsonVal::Arr(messages_vals(ms)),
                        ),
                    ],
                    36 + e + b + mm as int,
                ),
            )
        }),
{
    let body = request_json(model, stream, ms, None);
    let e = escape_string(model).len() as int;
    let b = bool_json(stream).len() as int;
    let mm = messages_json(ms).len() as int;
    lemma_req_chars(model, stream, ms);
    lemma_req_stream_key(model, stream, ms);
    assert(crate::json::skip_ws(body, 20 + e) == 20 + e);
    assert(crate::json::skip_ws(body, 21 + e) == 21 + e);
    if stream {
        assert(crate::json::parse_value(body, 21 + e, (fuel - 1) as nat) == Some(
            (crate::json::JsonVal::Bool(true), 21 + e + b as int),
        ));
    } else {
        assert(crate::json::parse_value(body, 21 + e, (fuel - 1) as nat) == Some(
            (crate::json::JsonVal::Bool(false), 21 + e + b as int),
        ));
    }
    assert(crate::json::skip_ws(body, 21 + e + b) == 21 + e + b);
    assert(crate::json::skip_ws(body, 22 + e + b) == 22 + e + b);
    lemma_req_members3(model, stream, ms, (fuel - 1) as nat);
    assert(seq![(seq!['s', 't', 'r', 'e', 'a', 'm'], crate::json::JsonVal::Bool(stream))] + seq![
        (
            seq!['m', 'e', 's', 's', 'a', 'g', 'e', 's'],
            crate::json::JsonVal::Arr(messages_vals(ms)),
        ),
    ] =~= seq![
        (seq!['s', 't', 'r', 'e', 'a', 'm'], crate::json::JsonVal::Bool(stream)),
        (
            seq!['m', 'e', 's', 's', 'a', 'g', 'e', 's'],
            crate::json::JsonVal::Arr(messages_vals(ms)),
        ),
    ]);
    assert(crate::json::parse_members(body, 12 + e, fuel) == Some(
        (
            seq![
                (seq!['s', 't', 'r', 'e', 'a', 'm'], crate::json::JsonVal::Bool(stream)),
                (
                    seq!['m', 'e', 's', 's', 'a', 'g', 'e', 's'],
                    crate::json::JsonVal::Arr(messages_vals(ms)),
                ),
            ],
            36 + e + b + mm as int,
        ),
    ));
}

#[verifier::rlimit(100)]
#[verifier::spinoff_prover]
proof fn lemma_req_members1(model: Seq<char>, stream: bool, ms: Seq<MessageModel>, fuel: nat)
    requires
        fuel >= ms.len() + 7,
    ensures
        ({
            let body = request_json(model, stream, ms, None);
            let e = escape_string(model).len() as int;
            let b = bool_json(stream).len() as int;
            let mm = messages_json(ms).len() as int;
            crate::json::parse_members(body, 1, fuel) == Some(
                (request_val(model, stream, ms)->Obj_0, 36 + e + b + mm as int),
            )
        }),
{
    let body = request_json(model, stream, ms, None);
    let e = escape_string(model).len() as int;
    let b = bool_json(stream).len() as int;
    let mm = messages_json(ms).len() as int;
    lemma_req_chars(model, stream, ms);
    lemma_req_model_key(model, stream, ms);
    lemma_req_model_value(model, stream, ms);
    assert(crate::json::skip_ws(body, 8) == 8);
    assert(crate::json::skip_ws(body, 9) == 9);
    assert(crate::json::parse_value(body, 9, (fuel - 1) as nat) == Some(
        (crate::json::JsonVal::Str(model), 11 + e as int),
    ));
    assert(crate::json::skip_ws(body, 11 + e) == 11 + e);
    assert(crate::json::skip_ws(body, 12 + e) == 12 + e);
    lemma_req_members2(model, stream, ms, (fuel - 1) as nat);
    assert(seq![(seq!['m', 'o', 'd', 'e', 'l'], crate::json::JsonVal::Str(model))] + seq![
        (seq!['s', 't', 'r', 'e', 'a', 'm'], crate::json::JsonVal::Bool(stream)),
        (
            seq!['m', 'e', 's', 's', 'a', 'g', 'e', 's'],
            crate::json::JsonVal::Arr(messages_vals(ms)),
        ),
    ] =~= request_val(model, stream, ms)->Obj_0);
    assert(crate::json::parse_members(body, 1, fuel) == Some(
        (request_val(model, stream, ms)->Obj_0, 36 + e + b + mm as int),
    ));
}

/// Every request body the writer builds without options is a parseable
/// envelope under the crate's own wire grammar: it parses to exactly the
/// object holding the model name, the stream flag, and one message
/// object per transcript entry, in order.
pub proof fn lemma_request_parses(model: Seq<char>, stream: bool, ms: Seq<MessageModel>)
    ensures
        crate::json::parse_json(request_json(model, stream, ms, None)) == Some(
            request_val(model, stream, ms),
        ),
{
    let body = request_json(model, stream, ms, None);
    let e = escape_string(model).len() as int;
    let b = bool_json(stream).len() as int;
    let mm = messages_json(ms).len() as int;
    lemma_req_chars(model, stream, ms);
    lemma_messages_min_len(ms);
    let f = body.len() as nat;
    assert(f >= ms.len() + 8);
    assert(crate::json::skip_ws(body, 0) == 0);
    assert(crate::json::skip_ws(body, 1) == 1);
    lemma_req_members1(model, stream, ms, (f - 1) as nat);
    assert(crate::json::parse_value(body, 0, f) == Some(
        (request_val(model, stream, ms), 36 + e + b + mm as int),
    ));
    assert(crate::json::skip_ws(body, 36 + e + b + mm) == body.len());
}

/// Sparse generation options: key/value pairs whose values are raw JSON
/// literal text, passed through to the service unvalidated.
pub struct GenOptions {
    pub entries: Vec<(String, String)>,
}

impl View for GenOptions {
    type V = Seq<(Seq<char>, Seq<char>)>;

    open spec fn view(&self) -> Seq<(Seq<char>, Seq<char>)> {
        self.entries@.map(|i: int, e: (String, String)| (e.0@, e.1@))
    }
}

/// One option entry, `"key":value`.
pub open spec fn entry_json(e: (Seq<char>, Seq<char>)) -> Seq<char> {
    "\""@ + escape_string(e.0) + "\":"@ + e.1
}

/// The entries after the first, each preceded by a comma.
pub open spec fn entries_rest_json(es: Seq<(Seq<char>, Seq<char>)>) -> Seq<char>
    decreases es.len(),
{
    if es.len() == 0 {
        Seq::empty()
    } else {
        ","@ + entry_json(es[0]) + entries_rest_json(es.drop_first())
    }
}

/// The contents of the `options` object.
pub open spec fn entries_json(es: Seq<(Seq<char>, Seq<char>)>) -> Seq<char> {
    if es.len() == 0 {
        Seq::empty()
    } else {
        entry_json(es[0]) + entries_rest_json(es.drop_first())
    }
}

proof fn lemma_entries_snoc(es: Seq<(Seq<char>, Seq<char>)>, e: (Seq<char>, Seq<char>))
    ensures
        entries_rest_json(es.push(e)) == entries_rest_json(es) + ","@ + entry_json(e),
    decreases es.len(),
{
    if es.len() == 0 {
        assert(es.push(e)[0] == e);
        assert(es.push(e).drop_first() =~= Seq::<(Seq<char>, Seq<char>)>::empty());
        assert(entries_rest_json(Seq::<(Seq<char>, Seq<char>)>::empty()) == Seq::<char>::empty());
        assert(entries_rest_json(es.push(e)) =~= entries_rest_json(es) + ","@ + entry_json(e));
    } else {
        lemma_entries_snoc(es.drop_first(), e);
        assert(es.push(e)[0] == es[0]);
        assert(es.push(e).drop_first() =~= es.drop_first().push(e));
        assert(entries_rest_json(es.push(e)) == ","@ + entry_json(es[0]) + entries_rest_json(
            es.drop_first().push(e),
        ));
        assert(entries_rest_json(es) == ","@ + entry_json(es[0]) + entries_rest_json(
            es.drop_first(),
        ));
        assert(entries_rest_json(es.push(e)) =~= entries_rest_json(es) + ","@ + entry_json(e));
    }
}

/// The complete request body.
pub open spec fn request_json(
    model: Seq<char>,
    stream: bool,
    ms: Seq<MessageModel>,
    opts: Option<Seq<(Seq<char>, Seq<char>)>>,
) -> Seq<char> {
    "{\"model\":\""@ + escape_string(model) + "\",\"stream\":"@ + (if stream {
        "true"@
    } else {
        "false"@
    }) + ",\"messages\":["@ + messages_json(ms) + "]"@ + (match opts {
        Option::None => Seq::<char>::empty(),
        Option::Some(es) => ",\"options\":{"@ + entries_json(es) + "}"@,
    }) + "}"@
}

/// Builds the request body for one turn from the current transcript and
/// the stored options.
#[verifier::rlimit(100)]
#[verifier::spinoff_prover]
pub fn build_request(model: &String, stream: bool, t: &Transcript, opts: &Option<GenOptions>) -> (r:
    String)
    ensures
        r@ == request_json(
            model@,
            stream,
            t@,
            match opts {
                Option::None => None,
                Option::Some(g) => Some(g@),
            },
        ),
{
    let mut out = String::new();
    out.append("{\"model\":\"");
    let mcs = text::chars_of(model.as_str());
    escape_push(&mut out, &mcs);
    out.append("\",\"stream\":");
    if stream {
        out.append("true");
    } else {
        out.append("false");
    }
    proof {
        assert(out@ =~= "{\"model\":\""@ + escape_string(model@) + "\",\"stream\":"@ + (if stream {
            "true"@
        } else {
            "false"@
        }));
    }
    out.append(",\"messages\":[");
    let ghost before_msgs = out@;
    let n = t.messages.len();
    let mut i: usize = 0;
    while i < n
        invariant
            i <= n,
            n == t@.len(),
            i == 0 ==> out@ == before_msgs,
            i > 0 ==> out@ == before_msgs + message_json(t@[0]) + messages_rest_json(
                t@.subrange(1, i as int),
            ),
        decreases n - i,
    {
        let m = &t.messages[i];
        let ghost pre = out@;
        if i > 0 {
            out.append(",");
        }
        message_push(&mut out, m.role, &m.content);
        proof {
            if i == 0 {
                assert(t@.subrange(1, 1) =~= Seq::<MessageModel>::empty());
                assert(out@ =~= before_msgs + message_json(t@[0]) + messages_rest_json(
                    t@.subrange(1, 1),
                ));
            } else {
                lemma_rest_snoc(t@.subrange(1, i as int), t@[i as int]);
                assert(t@.subrange(1, i as int).push(t@[i as int]) =~= t@.subrange(
                    1,
                    i as int + 1,
                ));
                assert(out@ =~= before_msgs + message_json(t@[0]) + messages_rest_json(
                    t@.subrange(1, i as int + 1),
                ));
            }
        }
        i = i + 1;
    }
    proof {
        if n > 0 {
            assert(t@.subrange(1, n as int) =~= t@.drop_first());
        }
        assert(out@ =~= before_msgs + messages_json(t@));
    }
    out.append("]");
    match opts {
        None => {},
        Some(g) => {
            out.append(",\"options\":{");
            let ghost before_opts = out@;
            let k = g.entries.len();
            let mut j: usize = 0;
            while j < k
                invariant
                    j <= k,
                    k == g@.len(),
                    j == 0 ==> out@ == before_opts,
                    j > 0 ==> out@ == before_opts + entry_json(g@[0]) + entries_rest_json(
                        g@.subrange(1, j as int),
                    ),
                decreases k - j,
            {
                let ghost pre = out@;
                if j > 0 {
                    out.append(",");
                }
                out.append("\"");
                let kcs = text::chars_of(g.entries[j].0.as_str());
                escape_push(&mut out, &kcs);
                out.append("\":");
                out.append(g.entries[j].1.as_str());
                proof {
                    assert(g@[j as int] == (g.entries@[j as int].0@, g.entries@[j as int].1@));
                    if j == 0 {
                        assert(g@.subrange(1, 1) =~= Seq::<(Seq<char>, Seq<char>)>::empty());
                        assert(out@ =~= before_opts + entry_json(g@[0]) + entries_rest_json(
                            g@.subrange(1, 1),
                        ));
                    } else {
                        lemma_entries_snoc(g@.subrange(1, j as int), g@[j as int]);
                        assert(g@.subrange(1, j as int).push(g@[j as int]) =~= g@.subrange(
                            1,
                            j as int + 1,
                        ));
                        assert(out@ =~= before_opts + entry_json(g@[0]) + entries_rest_json(
                            g@.subrange(1, j as int + 1),
                        ));
                    }
                }
                j = j + 1;
            }
            proof {
                if k > 0 {
                    assert(g@.subrange(1, k as int) =~= g@.drop_first());
                }
                assert(out@ =~= before_opts + entries_json(g@));
            }
            out.append("}");
        },
    }
    out.append("}");
    proof {
        assert(out@ =~= request_json(
            model@,
            stream,
            t@,
            match opts {
                Option::None => None,
                Option::Some(g) => Some(g@),
            },
        ));
    }
    out
}

} // verus!
