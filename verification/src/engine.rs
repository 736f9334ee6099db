//! The conversation engine: the REPL command state machine and the turn
//! fold that drains decoded deltas into the transcript.
//!
//! The engine owns no I/O.  The driver around it reads lines and performs
//! the actions this module returns; the engine classifies each input
//! line, mutates the transcript accordingly, folds decoded stream
//! outcomes into an accumulator, and appends the assembled assistant
//! message when a turn succeeds.  A failed turn leaves the transcript
//! untouched.

use vstd::prelude::*;
use vstd::string::StringExecFns;

use crate::decode;
use crate::decode::ChunkOutcome;
use crate::decode::OutcomeModel;
use crate::text;
use crate::transcript::role_label;
use crate::transcript::MessageModel;
use crate::transcript::Role;
use crate::transcript::Transcript;

verus! {

/// The whitespace the engine strips from prompt lines (ASCII whitespace).
pub open spec fn is_prompt_ws(c: char) -> bool {
    c == ' ' || c == '\t' || c == '\n' || c == '\r'
}

/// The text without its trailing whitespace.
pub open spec fn trim_end(s: Seq<char>) -> Seq<char>
    decreases s.len(),
{
    if s.len() > 0 && is_prompt_ws(s.last()) {
        trim_end(s.drop_last())
    } else {
        s
    }
}

/// The text without its leading whitespace.
pub open spec fn trim_start(s: Seq<char>) -> Seq<char>
    decreases s.len(),
{
    if s.len() > 0 && is_prompt_ws(s[0]) {
        trim_start(s.drop_first())
    } else {
        s
    }
}

/// The text without leading and trailing whitespace.
pub open spec fn trimmed(s: Seq<char>) -> Seq<char> {
    trim_start(trim_end(s))
}

/// The bounds of the trimmed middle of the characters: `trimmed(cs@)`
/// is `cs@.subrange(r.0, r.1)`.
fn trim_bounds(cs: &Vec<char>) -> (r: (usize, usize))
    ensures
        r.0 <= r.1 <= cs@.len(),
        trimmed(cs@) == cs@.subrange(r.0 as int, r.1 as int),
        trim_end(cs@) == cs@.subrange(0, r.1 as int),
{
    let n = cs.len();
    let mut hi = n;
    proof {
        assert(cs@.subrange(0, n as int) =~= cs@);
    }
    while hi > 0 && (cs[hi - 1] == ' ' || cs[hi - 1] == '\t' || cs[hi - 1] == '\n' || cs[hi - 1]
        == '\r')
        invariant
            hi <= n,
            n == cs@.len(),
            trim_end(cs@) == trim_end(cs@.subrange(0, hi as int)),
        decreases hi,
    {
        proof {
            assert(cs@.subrange(0, hi as int).drop_last() =~= cs@.subrange(0, hi as int - 1));
        }
        hi = hi - 1;
    }
    proof {
        assert(trim_end(cs@.subrange(0, hi as int)) == cs@.subrange(0, hi as int));
    }
    let mut lo: usize = 0;
    while lo < hi && (cs[lo] == ' ' || cs[lo] == '\t' || cs[lo] == '\n' || cs[lo] == '\r')
        invariant
            lo <= hi <= cs@.len(),
            trim_start(cs@.subrange(0, hi as int)) == trim_start(cs@.subrange(lo as int, hi as int)),
        decreases hi - lo,
    {
        proof {
            assert(cs@.subrange(lo as int, hi as int).drop_first() =~= cs@.subrange(
                lo as int + 1,
                hi as int,
            ));
        }
        lo = lo + 1;
    }
    proof {
        assert(trim_start(cs@.subrange(lo as int, hi as int)) == cs@.subrange(
            lo as int,
            hi as int,
        ));
        lemma_trim_end_of_no_ws(cs@, lo as int, hi as int);
    }
    (lo, hi)
}

proof fn lemma_trim_end_of_no_ws(s: Seq<char>, lo: int, hi: int)
    requires
        0 <= lo <= hi <= s.len(),
        hi > lo ==> !is_prompt_ws(s[hi - 1]),
    ensures
        trim_end(s.subrange(lo, hi)) == s.subrange(lo, hi),
{
    if hi > lo {
        assert(s.subrange(lo, hi).last() == s[hi - 1]);
    }
}

/// Copies the characters between two positions.
fn sub_vec(cs: &Vec<char>, lo: usize, hi: usize) -> (r: Vec<char>)
    requires
        lo <= hi <= cs@.len(),
    ensures
        r@ == cs@.subrange(lo as int, hi as int),
{
    let mut r: Vec<char> = Vec::new();
    let mut i = lo;
    while i < hi
        invariant
            lo <= i <= hi <= cs@.len(),
            r@ =~= cs@.subrange(lo as int, i as int),
        decreases hi - i,
    {
        r.push(cs[i]);
        proof {
            assert(r@ =~= cs@.subrange(lo as int, i as int + 1));
        }
        i = i + 1;
    }
    r
}

pub open spec fn cmd_help() -> Seq<char> {
    seq!['#', 'h', 'e', 'l', 'p']
}

pub open spec fn cmd_exit() -> Seq<char> {
    seq!['#', 'e', 'x', 'i', 't']
}

pub open spec fn cmd_quit() -> Seq<char> {
    seq!['#', 'q', 'u', 'i', 't']
}

pub open spec fn cmd_clear() -> Seq<char> {
    seq!['#', 'c', 'l', 'e', 'a', 'r']
}

pub open spec fn cmd_status() -> Seq<char> {
    seq!['#', 's', 't', 'a', 't', 'u', 's']
}

pub open spec fn cmd_reset() -> Seq<char> {
    seq!['#', 'r', 'e', 's', 'e', 't']
}

pub open spec fn cmd_system() -> Seq<char> {
    seq!['#', 's', 'y', 's', 't', 'e', 'm']
}

pub open spec fn cmd_repeat() -> Seq<char> {
    seq!['#', 'r', 'e', 'p', 'e', 'a', 't']
}

/// The three-quote delimiter of a multi-line prompt.
pub open spec fn quotes3() -> Seq<char> {
    seq!['"', '"', '"']
}

fn is_cmd_help(v: &Vec<char>) -> (r: bool)
    ensures
        r == (v@ == cmd_help()),
{
    let r = v.len() == 5 && v[0] == '#' && v[1] == 'h' && v[2] == 'e' && v[3] == 'l' && v[4] == 'p';
    proof {
        if r {
            assert(v@ =~= cmd_help());
        } else {
            assert(v@ != cmd_help());
        }
    }
    r
}

fn is_cmd_exit(v: &Vec<char>) -> (r: bool)
    ensures
        r == (v@ == cmd_exit()),
{
    let r = v.len() == 5 && v[0] == '#' && v[1] == 'e' && v[2] == 'x' && v[3] == 'i' && v[4] == 't';
    proof {
        if r {
            assert(v@ =~= cmd_exit());
        } else {
            assert(v@ != cmd_exit());
        }
    }
    r
}

fn is_cmd_quit(v: &Vec<char>) -> (r: bool)
    ensures
        r == (v@ == cmd_quit()),
{
    let r = v.len() == 5 && v[0] == '#' && v[1] == 'q' && v[2] == 'u' && v[3] == 'i' && v[4] == 't';
    proof {
        if r {
            assert(v@ =~= cmd_quit());
        } else {
            assert(v@ != cmd_quit());
        }
    }
    r
}

fn is_cmd_clear(v: &Vec<char>) -> (r: bool)
    ensures
        r == (v@ == cmd_clear()),
{
    let r = v.len() == 6 && v[0] == '#' && v[1] == 'c' && v[2] == 'l' && v[3] == 'e' && v[4] == 'a'
        && v[5] == 'r';
    proof {
        if r {
            assert(v@ =~= cmd_clear());
        } else {
            assert(v@ != cmd_clear());
        }
    }
    r
}

fn is_cmd_status(v: &Vec<char>) -> (r: bool)
    ensures
        r == (v@ == cmd_status()),
{
    let r = v.len() == 7 && v[0] == '#' && v[1] == 's' && v[2] == 't' && v[3] == 'a' && v[4] == 't'
        && v[5] == 'u' && v[6] == 's';
    proof {
        if r {
            assert(v@ =~= cmd_status());
        } else {
            assert(v@ != cmd_status());
        }
    }
    r
}

fn is_cmd_reset(v: &Vec<char>) -> (r: bool)
    ensures
        r == (v@ == cmd_reset()),
{
    let r = v.len() == 6 && v[0] == '#' && v[1] == 'r' && v[2] == 'e' && v[3] == 's' && v[4] == 'e'
        && v[5] == 't';
    proof {
        if r {
            assert(v@ =~= cmd_reset());
        } else {
            assert(v@ != cmd_reset());
        }
    }
    r
}

fn is_cmd_system(v: &Vec<char>) -> (r: bool)
    ensures
        r == (v@ == cmd_system()),
{
    let r = v.len() == 7 && v[0] == '#' && v[1] == 's' && v[2] == 'y' && v[3] == 's' && v[4] == 't'
        && v[5] == 'e' && v[6] == 'm';
    proof {
        if r {
            assert(v@ =~= cmd_system());
        } else {
            assert(v@ != cmd_system());
        }
    }
    r
}

fn is_cmd_repeat(v: &Vec<char>) -> (r: bool)
    ensures
        r == (v@ == cmd_repeat()),
{
    let r = v.len() == 7 && v[0] == '#' && v[1] == 'r' && v[2] == 'e' && v[3] == 'p' && v[4] == 'e'
        && v[5] == 'a' && v[6] == 't';
    proof {
        if r {
            assert(v@ =~= cmd_repeat());
        } else {
            assert(v@ != cmd_repeat());
        }
    }
    r
}

/// One transcript entry as the `#status` command prints it.
pub open spec fn status_line(m: MessageModel) -> Seq<char> {
    role_label(m.role) + ": "@ + m.content
}

/// Every transcript entry, in order, as `role: content`.
pub open spec fn status_lines(ms: Seq<MessageModel>) -> Seq<Seq<char>> {
    ms.map(|i: int, m: MessageModel| status_line(m))
}

fn status_lines_x(t: &Transcript) -> (r: Vec<String>)
    ensures
        r@.map(|i: int, s: String| s@) =~= status_lines(t@),
{
    let mut r: Vec<String> = Vec::new();
    let n = t.messages.len();
    let mut i: usize = 0;
    while i < n
        invariant
            i <= n,
            n == t@.len(),
            r@.len() == i,
            forall|k: int| 0 <= k < i as int ==> #[trigger] r@[k]@ == status_line(t@[k]),
        decreases n - i,
    {
        let m = &t.messages[i];
        let mut line = String::new();
        match m.role {
            Role::System => line.append("system"),
            Role::User => line.append("user"),
            Role::Assistant => line.append("assistant"),
        }
        line.append(": ");
        line.append(m.content.as_str());
        proof {
            assert(line@ =~= status_line(t@[i as int]));
        }
        r.push(line);
        i = i + 1;
    }
    proof {
        assert(r@.map(|k: int, s: String| s@) =~= status_lines(t@));
    }
    r
}

/// What the driver must do after one input line.
pub enum ReplAction {
    /// Print the command summary.
    PrintHelp,
    /// Leave the conversation loop.
    Exit,
    /// Emit the terminal clear sequence.
    ClearScreen,
    /// Print these transcript entries.
    PrintStatus(Vec<String>),
    /// The history was discarded; confirm it.
    ResetDone,
    /// The history was discarded; read one line and hand it to
    /// [`push_system`].
    AwaitSystem,
    /// `#repeat` found no history to resend; warn instead.
    NoHistory,
    /// Execute a request/response turn from the current transcript.
    RunTurn,
    /// The line opened a `"""` multi-line prompt with this initial text;
    /// keep reading lines through [`multiline_step`].
    BeginMultiline(String),
}

/// The model of a [`ReplAction`].
pub enum ActionModel {
    PrintHelp,
    Exit,
    ClearScreen,
    PrintStatus(Seq<Seq<char>>),
    ResetDone,
    AwaitSystem,
    NoHistory,
    RunTurn,
    BeginMultiline(Seq<char>),
}

impl View for ReplAction {
    type V = ActionModel;

    open spec fn view(&self) -> ActionModel {
        match self {
            ReplAction::PrintHelp => ActionModel::PrintHelp,
            ReplAction::Exit => ActionModel::Exit,
            ReplAction::ClearScreen => ActionModel::ClearScreen,
            ReplAction::PrintStatus(v) => ActionModel::PrintStatus(
                v@.map(|i: int, s: String| s@),
            ),
            ReplAction::ResetDone => ActionModel::ResetDone,
            ReplAction::AwaitSystem => ActionModel::AwaitSystem,
            ReplAction::NoHistory => ActionModel::NoHistory,
            ReplAction::RunTurn => ActionModel::RunTurn,
            ReplAction::BeginMultiline(s) => ActionModel::BeginMultiline(s@),
        }
    }
}

/// The REPL command state machine: how one input line transforms the
/// transcript and which action it demands.  Commands are matched on the
/// trimmed line; a line that is no command and starts with `"""` opens a
/// multi-line prompt; anything else becomes a user message and a turn.
pub open spec fn repl_step(ms: Seq<MessageModel>, line: Seq<char>) -> (
    Seq<MessageModel>,
    ActionModel,
) {
    let t = trimmed(line);
    if t == cmd_help() {
        (ms, ActionModel::PrintHelp)
    } else if t == cmd_exit() || t == cmd_quit() {
        (ms, ActionModel::Exit)
    } else if t == cmd_clear() {
        (ms, ActionModel::ClearScreen)
    } else if t == cmd_status() {
        (ms, ActionModel::PrintStatus(status_lines(ms)))
    } else if t == cmd_reset() {
        (Seq::empty(), ActionModel::ResetDone)
    } else if t == cmd_system() {
        (Seq::empty(), ActionModel::AwaitSystem)
    } else if t == cmd_repeat() {
        let popped = if ms.len() > 0 {
            ms.drop_last()
        } else {
            ms
        };
        if popped.len() > 0 {
            (popped, ActionModel::RunTurn)
        } else {
            (popped, ActionModel::NoHistory)
        }
    } else if line.len() >= 3 && line.subrange(0, 3) == quotes3() {
        (ms, ActionModel::BeginMultiline(line.subrange(3, line.len() as int)))
    } else {
        (ms.push(MessageModel { role: Role::User, content: line }), ActionModel::RunTurn)
    }
}

/// Classifies one input line (given without its line break) and applies
/// its effect on the transcript.
pub fn repl_line(t: &mut Transcript, line: &str) -> (a: ReplAction)
    ensures
        final(t)@ == repl_step(old(t)@, line@).0,
        a@ == repl_step(old(t)@, line@).1,
{
    let cs = text::chars_of(line);
    let (lo, hi) = trim_bounds(&cs);
    let tv = sub_vec(&cs, lo, hi);
    if is_cmd_help(&tv) {
        ReplAction::PrintHelp
    } else if is_cmd_exit(&tv) || is_cmd_quit(&tv) {
        ReplAction::Exit
    } else if is_cmd_clear(&tv) {
        ReplAction::ClearScreen
    } else if is_cmd_status(&tv) {
        ReplAction::PrintStatus(status_lines_x(t))
    } else if is_cmd_reset(&tv) {
        t.reset();
        ReplAction::ResetDone
    } else if is_cmd_system(&tv) {
        t.reset();
        ReplAction::AwaitSystem
    } else if is_cmd_repeat(&tv) {
        t.pop();
        if t.len() > 0 {
            ReplAction::RunTurn
        } else {
            ReplAction::NoHistory
        }
    } else if cs.len() >= 3 && cs[0] == '"' && cs[1] == '"' && cs[2] == '"' {
        proof {
            assert(cs@.subrange(0, 3) =~= quotes3());
        }
        let rest = sub_vec(&cs, 3, cs.len());
        ReplAction::BeginMultiline(text::string_from_chars(&rest))
    } else {
        proof {
            if line@.len() >= 3 {
                assert(line@.subrange(0, 3).len() == 3);
                assert(quotes3().len() == 3);
                if line@.subrange(0, 3) == quotes3() {
                    assert(line@[0] == line@.subrange(0, 3)[0]);
                    assert(line@[1] == line@.subrange(0, 3)[1]);
                    assert(line@[2] == line@.subrange(0, 3)[2]);
                }
            }
        }
        t.push(Role::User, line.to_owned());
        ReplAction::RunTurn
    }
}

/// Appends the new system message after an [`ReplAction::AwaitSystem`]:
/// the line, trimmed, becomes the system prompt.
pub fn push_system(t: &mut Transcript, line: &str)
    ensures
        final(t)@ == old(t)@.push(
            MessageModel { role: Role::System, content: trimmed(line@) },
        ),
{
    let cs = text::chars_of(line);
    let (lo, hi) = trim_bounds(&cs);
    let tv = sub_vec(&cs, lo, hi);
    t.push(Role::System, text::string_from_chars(&tv));
}

/// Appends one user message, as the driver does when a multi-line prompt
/// is complete.
pub fn push_user(t: &mut Transcript, content: String)
    ensures
        final(t)@ == old(t)@.push(MessageModel { role: Role::User, content: content@ }),
{
    t.push(Role::User, content);
}

/// How one further line extends a multi-line prompt: a line whose
/// trimmed form ends with `"""` closes the prompt, contributing its text
/// up to the delimiter; any other line is taken whole.  The line break
/// between lines is preserved.
pub open spec fn multiline_model(acc: Seq<char>, line: Seq<char>) -> (Seq<char>, bool) {
    let e = trim_end(line);
    if e.len() >= 3 && e.subrange(e.len() - 3, e.len() as int) == quotes3() {
        (acc + seq!['\n'] + e.subrange(0, e.len() - 3), true)
    } else {
        (acc + seq!['\n'] + line, false)
    }
}

/// Feeds one further line (given without its line break) of a multi-line
/// prompt; returns whether the prompt is complete.
pub fn multiline_step(acc: &mut String, line: &str) -> (done: bool)
    ensures
        final(acc)@ == multiline_model(old(acc)@, line@).0,
        done == multiline_model(old(acc)@, line@).1,
{
    let cs = text::chars_of(line);
    let mut hi = cs.len();
    proof {
        assert(cs@.subrange(0, cs@.len() as int) =~= cs@);
    }
    while hi > 0 && (cs[hi - 1] == ' ' || cs[hi - 1] == '\t' || cs[hi - 1] == '\n' || cs[hi - 1]
        == '\r')
        invariant
            hi <= cs@.len(),
            trim_end(cs@) == trim_end(cs@.subrange(0, hi as int)),
        decreases hi,
    {
        proof {
            assert(cs@.subrange(0, hi as int).drop_last() =~= cs@.subrange(0, hi as int - 1));
        }
        hi = hi - 1;
    }
    proof {
        assert(trim_end(cs@.subrange(0, hi as int)) == cs@.subrange(0, hi as int));
    }
    text::push_char(acc, '\n');
    if hi >= 3 && cs[hi - 3] == '"' && cs[hi - 2] == '"' && cs[hi - 1] == '"' {
        let ghost e = trim_end(cs@);
        proof {
            assert(e.subrange(e.len() - 3, e.len() as int) =~= quotes3());
        }
        let body = sub_vec(&cs, 0, hi - 3);
        let bs = text::string_from_chars(&body);
        acc.append(bs.as_str());
        proof {
            assert(e.subrange(0, e.len() - 3) =~= cs@.subrange(0, hi as int - 3));
            assert(acc@ =~= multiline_model(old(acc)@, line@).0);
        }
        true
    } else {
        proof {
            let e = trim_end(cs@);
            if e.len() >= 3 && e.subrange(e.len() - 3, e.len() as int) == quotes3() {
                assert(e[e.len() - 3] == e.subrange(e.len() - 3, e.len() as int)[0]);
                assert(e[e.len() - 2] == e.subrange(e.len() - 3, e.len() as int)[1]);
                assert(e[e.len() - 1] == e.subrange(e.len() - 3, e.len() as int)[2]);
            }
        }
        acc.append(line);
        proof {
            assert(acc@ =~= multiline_model(old(acc)@, line@).0);
        }
        false
    }
}

/// The model of an in-flight turn.
pub struct TurnModel {
    pub acc: Seq<char>,
    pub finished: bool,
    pub failed: Option<Seq<char>>,
}

/// How one decoded outcome advances a turn: a service error fails the
/// turn (the first failure is kept); otherwise the emitted delta's text
/// is appended to the accumulator, and a final delta finishes the turn.
pub open spec fn turn_absorb(st: TurnModel, o: OutcomeModel) -> TurnModel {
    match o {
        OutcomeModel::ServiceError(e) => TurnModel {
            acc: st.acc,
            finished: st.finished,
            failed: if st.failed is Some {
                st.failed
            } else {
                Some(e)
            },
        },
        _ => match decode::delta_model(o) {
            Option::Some(d) => TurnModel {
                acc: st.acc + d.0,
                finished: st.finished || d.1,
                failed: st.failed,
            },
            Option::None => st,
        },
    }
}

/// The foreground state of one request/response turn: what has streamed
/// in so far, whether the final delta arrived, and whether the service
/// failed the request.
pub struct TurnState {
    pub acc: String,
    pub finished: bool,
    pub failed: Option<String>,
}

impl View for TurnState {
    type V = TurnModel;

    open spec fn view(&self) -> TurnModel {
        TurnModel {
            acc: self.acc@,
            finished: self.finished,
            failed: match self.failed {
                Option::Some(e) => Some(e@),
                Option::None => None,
            },
        }
    }
}

impl TurnState {
    /// The state before any chunk arrived.
    pub fn new() -> (st: TurnState)
        ensures
            st@.acc == Seq::<char>::empty(),
            !st@.finished,
            st@.failed is None,
    {
        TurnState { acc: String::new(), finished: false, failed: None }
    }

    /// Folds one decoded outcome in; returns the text to show the user
    /// right away, if the outcome carries a delta.
    pub fn absorb(&mut self, o: &ChunkOutcome) -> (shown: Option<String>)
        ensures
            final(self)@ == turn_absorb(old(self)@, o@),
            match decode::delta_model(o@) {
                Option::Some(d) => shown matches Some(s) && s@ == d.0,
                Option::None => shown is None,
            },
    {
        match o {
            ChunkOutcome::ServiceError(e) => {
                if self.failed.is_none() {
                    self.failed = Some(e.clone());
                }
                None
            },
            _ => {
                match decode::outcome_delta(o) {
                    Some(d) => {
                        self.acc.append(d.text.as_str());
                        if d.is_final {
                            self.finished = true;
                        }
                        Some(d.text)
                    },
                    None => None,
                }
            },
        }
    }

    /// Decodes one raw chunk and folds it in.
    pub fn feed(&mut self, bytes: &[u8]) -> (shown: Option<String>)
        ensures
            final(self)@ == turn_absorb(old(self)@, decode::chunk_outcome(bytes@)),
            match decode::delta_model(decode::chunk_outcome(bytes@)) {
                Option::Some(d) => shown matches Some(s) && s@ == d.0,
                Option::None => shown is None,
            },
    {
        let o = decode::decode_chunk(bytes);
        self.absorb(&o)
    }

    /// Whether the foreground loop should stop polling.
    pub fn is_done(&self) -> (r: bool)
        ensures
            r == (self@.finished || self@.failed is Some),
    {
        self.finished || self.failed.is_some()
    }
}

/// Folds a finished turn into the transcript: on success the accumulated
/// text, trailing whitespace trimmed, becomes one new assistant message;
/// a failed turn leaves the transcript untouched.
pub fn commit_turn(t: &mut Transcript, st: &TurnState) -> (ok: bool)
    ensures
        st@.failed is None ==> ok && final(t)@ == old(t)@.push(
            MessageModel { role: Role::Assistant, content: trim_end(st@.acc) },
        ),
        st@.failed is Some ==> !ok && final(t)@ == old(t)@,
{
    if st.failed.is_some() {
        return false;
    }
    let cs = text::chars_of(st.acc.as_str());
    let mut hi = cs.len();
    proof {
        assert(cs@.subrange(0, cs@.len() as int) =~= cs@);
    }
    while hi > 0 && (cs[hi - 1] == ' ' || cs[hi - 1] == '\t' || cs[hi - 1] == '\n' || cs[hi - 1]
        == '\r')
        invariant
            hi <= cs@.len(),
            trim_end(cs@) == trim_end(cs@.subrange(0, hi as int)),
        decreases hi,
    {
        proof {
            assert(cs@.subrange(0, hi as int).drop_last() =~= cs@.subrange(0, hi as int - 1));
        }
        hi = hi - 1;
    }
    proof {
        assert(trim_end(cs@.subrange(0, hi as int)) == cs@.subrange(0, hi as int));
    }
    let tv = sub_vec(&cs, 0, hi);
    t.push(Role::Assistant, text::string_from_chars(&tv));
    true
}

/// Why a single (non-streaming) response yielded no content.
pub enum ResponseFailure {
    /// The service reported this error.
    Service(String),
    /// The body was not valid UTF-8.
    BadBytes,
    /// The body was UTF-8 but not a chat envelope.
    BadPayload,
}

/// The model of a [`ResponseFailure`].
pub enum FailureModel {
    Service(Seq<char>),
    BadBytes,
    BadPayload,
}

impl View for ResponseFailure {
    type V = FailureModel;

    open spec fn view(&self) -> FailureModel {
        match self {
            ResponseFailure::Service(e) => FailureModel::Service(e@),
            ResponseFailure::BadBytes => FailureModel::BadBytes,
            ResponseFailure::BadPayload => FailureModel::BadPayload,
        }
    }
}

/// What a complete (non-streaming) response body yields: the error
/// envelope governs when present, then the chat envelope's content.
pub open spec fn single_model(bytes: Seq<u8>) -> Result<Seq<char>, FailureModel> {
    match decode::chunk_outcome(bytes) {
        OutcomeModel::Content { text, done } => Ok(text),
        OutcomeModel::ServiceError(e) => Err(FailureModel::Service(e)),
        OutcomeModel::BadUtf8 => Err(FailureModel::BadBytes),
        OutcomeModel::BadEnvelope => Err(FailureModel::BadPayload),
    }
}

/// Decodes one complete response body and returns its content directly.
pub fn decode_single(bytes: &[u8]) -> (r: Result<String, ResponseFailure>)
    ensures
        match single_model(bytes@) {
            Result::Ok(c) => r matches Ok(s) && s@ == c,
            Result::Err(f) => r matches Err(e) && e@ == f,
        },
{
    match decode::decode_chunk(bytes) {
        ChunkOutcome::Content { text, done } => Ok(text),
        ChunkOutcome::ServiceError(e) => Err(ResponseFailure::Service(e)),
        ChunkOutcome::BadUtf8 => Err(ResponseFailure::BadBytes),
        ChunkOutcome::BadEnvelope => Err(ResponseFailure::BadPayload),
    }
}

/// Runs the non-streaming variant of a turn on a complete response body:
/// on success the content, trailing whitespace trimmed, becomes one new
/// assistant message; on any failure — a reported service error, bytes
/// that are not UTF-8, or an unparseable body — the transcript is not
/// mutated.
pub fn single_turn(t: &mut Transcript, bytes: &[u8]) -> (r: Result<String, ResponseFailure>)
    ensures
        single_model(bytes@) matches Ok(c) ==> final(t)@ == old(t)@.push(
            MessageModel { role: Role::Assistant, content: trim_end(c) },
        ),
        single_model(bytes@) is Err ==> final(t)@ == old(t)@,
        match single_model(bytes@) {
            Result::Ok(c) => r matches Ok(s) && s@ == c,
            Result::Err(f) => r matches Err(e) && e@ == f,
        },
{
    let r = decode_single(bytes);
    match r {
        Ok(content) => {
            let mut st = TurnState::new();
            st.acc = content;
            commit_turn(t, &st);
            Ok(st.acc)
        },
        Err(e) => Err(e),
    }
}

/// Folding a sequence of decoded outcomes into a turn, in arrival order.
pub open spec fn turn_fold(st: TurnModel, os: Seq<OutcomeModel>) -> TurnModel
    decreases os.len(),
{
    if os.len() == 0 {
        st
    } else {
        turn_fold(turn_absorb(st, os[0]), os.drop_first())
    }
}

/// The texts of the deltas a sequence of outcomes emits, sentinel glyphs
/// included, concatenated in arrival order.
pub open spec fn delta_texts(os: Seq<OutcomeModel>) -> Seq<char>
    decreases os.len(),
{
    if os.len() == 0 {
        Seq::empty()
    } else {
        (match decode::delta_model(os[0]) {
            Option::Some(d) => d.0,
            Option::None => Seq::<char>::empty(),
        }) + delta_texts(os.drop_first())
    }
}

/// As long as the service reports no error, the turn accumulator holds
/// its starting text followed by exactly the concatenation of the
/// emitted delta texts, in arrival order, and the turn does not fail.
pub proof fn lemma_turn_accumulates(st: TurnModel, os: Seq<OutcomeModel>)
    requires
        forall|i: int| 0 <= i < os.len() ==> !(#[trigger] os[i] is ServiceError),
    ensures
        turn_fold(st, os).acc == st.acc + delta_texts(os),
        turn_fold(st, os).failed == st.failed,
    decreases os.len(),
{
    if os.len() == 0 {
        assert(st.acc + delta_texts(os) =~= st.acc);
    } else {
        let st1 = turn_absorb(st, os[0]);
        let d0 = match decode::delta_model(os[0]) {
            Option::Some(d) => d.0,
            Option::None => Seq::<char>::empty(),
        };
        assert(!(os[0] is ServiceError));
        assert(st1.acc == st.acc + d0);
        assert forall|i: int| 0 <= i < os.drop_first().len() implies !(#[trigger] os.drop_first()[i]
            is ServiceError) by {
            assert(os.drop_first()[i] == os[i + 1]);
        }
        lemma_turn_accumulates(st1, os.drop_first());
        assert(st.acc + delta_texts(os) =~= (st.acc + d0) + delta_texts(os.drop_first()));
    }
}

/// After `#reset`, the transcript is empty, and `#status` on it prints
/// nothing: its status action carries no lines.
pub proof fn lemma_reset_then_status(ms: Seq<MessageModel>)
    ensures
        ({
            let r1 = repl_step(ms, "#reset"@);
            let r2 = repl_step(r1.0, "#status"@);
            r1.0 =~= Seq::<MessageModel>::empty() && r2.0 =~= Seq::<MessageModel>::empty() && r2.1
                == ActionModel::PrintStatus(Seq::<Seq<char>>::empty())
        }),
{
    reveal_strlit("#reset");
    reveal_strlit("#status");
    assert(trim_end("#reset"@) == "#reset"@);
    assert(trim_start("#reset"@) == "#reset"@);
    assert(trimmed("#reset"@) =~= cmd_reset());
    assert(cmd_reset() != cmd_help()) by {
        assert(cmd_reset().len() == 6);
        assert(cmd_help().len() == 5);
    }
    assert(cmd_reset() != cmd_exit()) by {
        assert(cmd_reset().len() == 6);
        assert(cmd_exit().len() == 5);
    }
    assert(cmd_reset() != cmd_quit()) by {
        assert(cmd_reset().len() == 6);
        assert(cmd_quit().len() == 5);
    }
    assert(cmd_reset() != cmd_clear()) by {
        assert(cmd_reset()[1] == 'r');
        assert(cmd_clear()[1] == 'c');
    }
    assert(cmd_reset() != cmd_status()) by {
        assert(cmd_reset().len() == 6);
        assert(cmd_status().len() == 7);
    }
    assert(trim_end("#status"@) == "#status"@);
    assert(trim_start("#status"@) == "#status"@);
    assert(trimmed("#status"@) =~= cmd_status());
    assert(cmd_status() != cmd_help()) by {
        assert(cmd_status().len() == 7);
        assert(cmd_help().len() == 5);
    }
    assert(cmd_status() != cmd_exit()) by {
        assert(cmd_status().len() == 7);
        assert(cmd_exit().len() == 5);
    }
    assert(cmd_status() != cmd_quit()) by {
        assert(cmd_status().len() == 7);
        assert(cmd_quit().len() == 5);
    }
    assert(cmd_status() != cmd_clear()) by {
        assert(cmd_status().len() == 7);
        assert(cmd_clear().len() == 6);
    }
    assert(status_lines(Seq::<MessageModel>::empty()) =~= Seq::<Seq<char>>::empty());
}

/// `#repeat` on a transcript of exactly one message: the entry is
/// removed, no turn is run, and the no-history warning is demanded.
pub proof fn lemma_repeat_without_history(ms: Seq<MessageModel>)
    requires
        ms.len() == 1,
    ensures
        ({
            let r = repl_step(ms, "#repeat"@);
            r.0 =~= Seq::<MessageModel>::empty() && r.1 == ActionModel::NoHistory
        }),
{
    reveal_strlit("#repeat");
    assert(trim_end("#repeat"@) == "#repeat"@);
    assert(trim_start("#repeat"@) == "#repeat"@);
    assert(trimmed("#repeat"@) =~= cmd_repeat());
    assert(cmd_repeat() != cmd_help()) by {
        assert(cmd_repeat().len() == 7);
        assert(cmd_help().len() == 5);
    }
    assert(cmd_repeat() != cmd_exit()) by {
        assert(cmd_repeat().len() == 7);
        assert(cmd_exit().len() == 5);
    }
    assert(cmd_repeat() != cmd_quit()) by {
        assert(cmd_repeat().len() == 7);
        assert(cmd_quit().len() == 5);
    }
    assert(cmd_repeat() != cmd_clear()) by {
        assert(cmd_repeat().len() == 7);
        assert(cmd_clear().len() == 6);
    }
    assert(cmd_repeat() != cmd_status()) by {
        assert(cmd_repeat()[1] == 'r');
        assert(cmd_status()[1] == 's');
    }
    assert(cmd_repeat() != cmd_reset()) by {
        assert(cmd_repeat().len() == 7);
        assert(cmd_reset().len() == 6);
    }
    assert(cmd_repeat() != cmd_system()) by {
        assert(cmd_repeat()[1] == 'r');
        assert(cmd_system()[1] == 's');
    }
    assert(ms.drop_last().len() == 0);
    assert(ms.drop_last() =~= Seq::<MessageModel>::empty());
}

} // verus!
