//! The stream decoder: one raw response chunk in, one typed outcome out.
//!
//! Decoding is best-effort and never aborts the stream: a malformed chunk
//! becomes a visible sentinel glyph rather than an error, so that later
//! chunks (including the final one) are still processed.  Before a chunk
//! is read as a chat envelope it is checked against the error envelope
//! shape, which is surfaced as a request failure instead of a delta.

use vstd::prelude::*;
use vstd::utf8::decode_utf8;
use vstd::utf8::valid_utf8;

use crate::json;
use crate::json::JsonVal;
use crate::parse;
use crate::parse::MsgSummary;
use crate::parse::TopSummary;
use crate::parse::ValSummary;
use crate::text;

verus! {

/// The glyph that stands in for a chunk that is not valid UTF-8.
pub const BAD_UTF8_GLYPH: char = '\u{f071}';

/// The glyph that stands in for a chunk that is UTF-8 but not a parseable
/// envelope.
pub const BAD_ENVELOPE_GLYPH: char = '\u{2620}';

/// The model of one decoded chunk.
pub enum OutcomeModel {
    /// The chunk was not valid UTF-8.
    BadUtf8,
    /// The chunk was UTF-8 but not a parseable envelope.
    BadEnvelope,
    /// The chunk was a well-formed error envelope.
    ServiceError(Seq<char>),
    /// The chunk carried a message fragment and a completion flag.
    Content { text: Seq<char>, done: bool },
}

/// Classification of a parsed envelope value, error shape first: an
/// object with a string under `error` is a service error; otherwise an
/// object with a string under `message.content` and a boolean under
/// `done` is a content delta; everything else is a malformed envelope.
pub open spec fn classify_json(v: JsonVal) -> OutcomeModel {
    match v {
        JsonVal::Obj(fs) => match json::lookup_field(fs, json::key_error()) {
            Option::Some(JsonVal::Str(e)) => OutcomeModel::ServiceError(e),
            _ => match (
                json::lookup_field(fs, json::key_message()),
                json::lookup_field(fs, json::key_done()),
            ) {
                (Option::Some(JsonVal::Obj(ms)), Option::Some(JsonVal::Bool(d))) => match json::lookup_field(
                    ms,
                    json::key_content(),
                ) {
                    Option::Some(JsonVal::Str(c)) => OutcomeModel::Content { text: c, done: d },
                    _ => OutcomeModel::BadEnvelope,
                },
                _ => OutcomeModel::BadEnvelope,
            },
        },
        _ => OutcomeModel::BadEnvelope,
    }
}

/// What decoding one chunk yields, as a function of the raw bytes alone.
pub open spec fn chunk_outcome(bytes: Seq<u8>) -> OutcomeModel {
    if !valid_utf8(bytes) {
        OutcomeModel::BadUtf8
    } else {
        match json::parse_json(decode_utf8(bytes)) {
            Option::None => OutcomeModel::BadEnvelope,
            Option::Some(v) => classify_json(v),
        }
    }
}

/// The executable outcome of decoding one chunk.
pub enum ChunkOutcome {
    BadUtf8,
    BadEnvelope,
    ServiceError(String),
    Content { text: String, done: bool },
}

impl View for ChunkOutcome {
    type V = OutcomeModel;

    open spec fn view(&self) -> OutcomeModel {
        match self {
            ChunkOutcome::BadUtf8 => OutcomeModel::BadUtf8,
            ChunkOutcome::BadEnvelope => OutcomeModel::BadEnvelope,
            ChunkOutcome::ServiceError(e) => OutcomeModel::ServiceError(e@),
            ChunkOutcome::Content { text, done } => OutcomeModel::Content {
                text: text@,
                done: *done,
            },
        }
    }
}

fn classify_exec(top: TopSummary, Ghost(v): Ghost<JsonVal>) -> (r: ChunkOutcome)
    requires
        parse::top_matches(top, v),
    ensures
        r@ == classify_json(v),
{
    match top {
        TopSummary::NotObj => ChunkOutcome::BadEnvelope,
        TopSummary::Fields { error, message, done } => {
            match error {
                Some(ValSummary::Str(e)) => ChunkOutcome::ServiceError(text::string_from_chars(&e)),
                _ => {
                    match (message, done) {
                        (Some(MsgSummary::Fields { content }), Some(ValSummary::Bool(d))) => {
                            match content {
                                Some(ValSummary::Str(c)) => ChunkOutcome::Content {
                                    text: text::string_from_chars(&c),
                                    done: d,
                                },
                                _ => ChunkOutcome::BadEnvelope,
                            }
                        },
                        _ => ChunkOutcome::BadEnvelope,
                    }
                },
            }
        },
    }
}

/// Decodes one raw chunk into its outcome.
pub fn decode_chunk(bytes: &[u8]) -> (r: ChunkOutcome)
    ensures
        r@ == chunk_outcome(bytes@),
{
    match text::utf8_to_str(bytes) {
        None => ChunkOutcome::BadUtf8,
        Some(st) => {
            proof {
                vstd::utf8::encode_utf8_decode_utf8(st@);
            }
            let cs = text::chars_of(st);
            match parse::parse_envelope(&cs) {
                None => ChunkOutcome::BadEnvelope,
                Some(top) => {
                    let ghost v = json::parse_json(decode_utf8(bytes@))->Some_0;
                    classify_exec(top, Ghost(v))
                },
            }
        },
    }
}

/// One unit passed from the decoder to the consumer: a text fragment and
/// a completion flag.
pub struct Delta {
    pub text: String,
    pub is_final: bool,
}

/// The delta the decoder emits for an outcome, if any: sentinel glyphs
/// for the two decode-failure modes, the content fragment otherwise.  A
/// service error becomes a request failure instead of a delta.
pub open spec fn delta_model(o: OutcomeModel) -> Option<(Seq<char>, bool)> {
    match o {
        OutcomeModel::BadUtf8 => Some((seq![BAD_UTF8_GLYPH], false)),
        OutcomeModel::BadEnvelope => Some((seq![BAD_ENVELOPE_GLYPH], false)),
        OutcomeModel::ServiceError(_) => None,
        OutcomeModel::Content { text, done } => Some((text, done)),
    }
}

/// The delta for one decoded outcome.
pub fn outcome_delta(o: &ChunkOutcome) -> (r: Option<Delta>)
    ensures
        match delta_model(o@) {
            Option::None => r is None,
            Option::Some(d) => r matches Some(dd) && dd.text@ == d.0 && dd.is_final == d.1,
        },
{
    match o {
        ChunkOutcome::BadUtf8 => {
            let mut t = String::new();
            text::push_char(&mut t, BAD_UTF8_GLYPH);
            proof {
                assert(t@ =~= seq![BAD_UTF8_GLYPH]);
            }
            Some(Delta { text: t, is_final: false })
        },
        ChunkOutcome::BadEnvelope => {
            let mut t = String::new();
            text::push_char(&mut t, BAD_ENVELOPE_GLYPH);
            proof {
                assert(t@ =~= seq![BAD_ENVELOPE_GLYPH]);
            }
            Some(Delta { text: t, is_final: false })
        },
        ChunkOutcome::ServiceError(_) => None,
        ChunkOutcome::Content { text, done } => Some(
            Delta { text: text.clone(), is_final: *done },
        ),
    }
}

/// The decoded message content one chunk contributes: its content text
/// when it decodes to a content delta, nothing otherwise.
pub open spec fn chunk_content(bytes: Seq<u8>) -> Seq<char> {
    match chunk_outcome(bytes) {
        OutcomeModel::Content { text, done } => text,
        _ => Seq::empty(),
    }
}

/// Concatenation of the texts of the non-sentinel (content) deltas the
/// decoder emits for a chunk sequence, in arrival order.
pub open spec fn nonsentinel_texts(chunks: Seq<Seq<u8>>) -> Seq<char>
    decreases chunks.len(),
{
    if chunks.len() == 0 {
        Seq::empty()
    } else {
        let head = match chunk_outcome(chunks[0]) {
            OutcomeModel::Content { text, done } => match delta_model(chunk_outcome(chunks[0])) {
                Option::Some(d) => d.0,
                Option::None => Seq::empty(),
            },
            _ => Seq::empty(),
        };
        head + nonsentinel_texts(chunks.drop_first())
    }
}

/// Concatenation of each chunk's decoded message content, in arrival
/// order.
pub open spec fn contents_concat(chunks: Seq<Seq<u8>>) -> Seq<char>
    decreases chunks.len(),
{
    if chunks.len() == 0 {
        Seq::empty()
    } else {
        chunk_content(chunks[0]) + contents_concat(chunks.drop_first())
    }
}

/// For every sequence of streaming chunks delivered to the decoder, the
/// sum of the emitted non-sentinel delta texts equals the concatenation
/// of each chunk's decoded message content, in arrival order.
pub proof fn lemma_stream_text(chunks: Seq<Seq<u8>>)
    ensures
        nonsentinel_texts(chunks) == contents_concat(chunks),
    decreases chunks.len(),
{
    if chunks.len() > 0 {
        lemma_stream_text(chunks.drop_first());
    }
}

/// An envelope carrying a string under `message.content` and a boolean
/// under `done`, and nothing else, classifies as a content delta with
/// exactly that text and flag.
pub proof fn lemma_classify_content_envelope(text: Seq<char>, done: bool)
    ensures
        classify_json(
            JsonVal::Obj(
                seq![
                    (
                        json::key_message(),
                        JsonVal::Obj(seq![(json::key_content(), JsonVal::Str(text))]),
                    ),
                    (json::key_done(), JsonVal::Bool(done)),
                ],
            ),
        ) == (OutcomeModel::Content { text, done }),
{
    let inner = seq![(json::key_content(), JsonVal::Str(text))];
    let fs = seq![
        (json::key_message(), JsonVal::Obj(inner)),
        (json::key_done(), JsonVal::Bool(done)),
    ];
    let fs1 = seq![(json::key_done(), JsonVal::Bool(done))];
    assert(json::key_message().len() == 7);
    assert(json::key_error().len() == 5);
    assert(json::key_done().len() == 4);
    assert(json::key_content().len() == 7);
    assert(json::key_message()[0] == 'm');
    assert(json::key_content()[0] == 'c');
    assert(fs[0] == (json::key_message(), JsonVal::Obj(inner)));
    assert(fs.drop_first() =~= fs1);
    assert(fs1[0] == (json::key_done(), JsonVal::Bool(done)));
    assert(fs1.drop_first() =~= Seq::<(Seq<char>, JsonVal)>::empty());
    assert(json::lookup_field(Seq::<(Seq<char>, JsonVal)>::empty(), json::key_error()) is None);
    assert(json::lookup_field(fs1, json::key_error()) is None);
    assert(json::lookup_field(fs, json::key_error()) is None);
    assert(json::lookup_field(fs, json::key_message()) == Some(JsonVal::Obj(inner)));
    assert(json::lookup_field(fs1, json::key_done()) == Some(JsonVal::Bool(done)));
    assert(json::lookup_field(fs, json::key_done()) == Some(JsonVal::Bool(done)));
    assert(inner[0] == (json::key_content(), JsonVal::Str(text)));
    assert(json::lookup_field(inner, json::key_content()) == Some(JsonVal::Str(text)));
}

/// An envelope carrying a string under `error` classifies as a service
/// error with exactly that text, whatever the flag shape around it.
pub proof fn lemma_classify_error_envelope(e: Seq<char>)
    ensures
        classify_json(JsonVal::Obj(seq![(json::key_error(), JsonVal::Str(e))]))
            == OutcomeModel::ServiceError(e),
{
    let fs = seq![(json::key_error(), JsonVal::Str(e))];
    assert(fs[0] == (json::key_error(), JsonVal::Str(e)));
}

/// A chunk that is not valid UTF-8 yields exactly one delta, carrying the
/// bad-utf8 sentinel glyph and not final, so it does not terminate the
/// stream.
pub proof fn lemma_bad_utf8_chunk(bytes: Seq<u8>)
    requires
        !valid_utf8(bytes),
    ensures
        chunk_outcome(bytes) == OutcomeModel::BadUtf8,
        delta_model(chunk_outcome(bytes)) == Some((seq![BAD_UTF8_GLYPH], false)),
{
}

/// A chunk that is valid UTF-8 but not a parseable envelope yields
/// exactly one delta, carrying the bad-envelope sentinel glyph and not
/// final, so it does not terminate the stream.
pub proof fn lemma_bad_envelope_chunk(bytes: Seq<u8>)
    requires
        valid_utf8(bytes),
        json::parse_json(decode_utf8(bytes)) is None,
    ensures
        chunk_outcome(bytes) == OutcomeModel::BadEnvelope,
        delta_model(chunk_outcome(bytes)) == Some((seq![BAD_ENVELOPE_GLYPH], false)),
{
}

} // verus!
