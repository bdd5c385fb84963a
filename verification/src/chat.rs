//! A turn of a chat: one message to the assistant, and what its process streams
//! back.
//!
//! The process and the window that shows the chat are outside. A turn is told
//! what happened and says what to do.

use vstd::prelude::*;

use crate::error::reply;
use crate::text::{
    decimal, decimal_string, join_first, joined, lines, opt_text, same_text, split_lines, texts,
};

verus! {

/// What is kept of a chat between turns.
#[derive(Debug, Clone)]
pub struct RecallChatState {
    /// The session that the next message goes on with.
    pub session_id: Option<String>,
    /// The directory that the assistant works in.
    pub workspace: Option<String>,
}

/// [`RecallChatState`], with its texts.
#[verifier::ext_equal]
pub struct StateView {
    pub session_id: Option<Seq<char>>,
    pub workspace: Option<Seq<char>>,
}

impl View for RecallChatState {
    type V = StateView;

    open spec fn view(&self) -> StateView {
        StateView { session_id: opt_text(self.session_id), workspace: opt_text(self.workspace) }
    }
}

/// What the window that shows the chat is told.
#[derive(Debug, Clone)]
pub enum ChatEvent {
    /// A piece of the answer.
    Delta { text: String },
    /// The answer is complete.
    Done { text: String, session_id: String },
    /// The turn failed.
    Error { message: String },
}

/// [`ChatEvent`], with its texts.
#[verifier::ext_equal]
pub enum EventView {
    Delta { text: Seq<char> },
    Done { text: Seq<char>, session_id: Seq<char> },
    Error { message: Seq<char> },
}

impl View for ChatEvent {
    type V = EventView;

    open spec fn view(&self) -> EventView {
        match *self {
            ChatEvent::Delta { text } => EventView::Delta { text: text@ },
            ChatEvent::Done { text, session_id } => EventView::Done {
                text: text@,
                session_id: session_id@,
            },
            ChatEvent::Error { message } => EventView::Error { message: message@ },
        }
    }
}

/// An event that may be absent, with its texts.
pub open spec fn event_view(event: Option<ChatEvent>) -> Option<EventView> {
    match event {
        Some(e) => Some(e@),
        None => None,
    }
}

/// A line that the process writes.
#[derive(Debug, Clone)]
pub struct StreamLine {
    pub event_type: String,
    pub session_id: Option<String>,
    pub event: Option<StreamEvent>,
    pub result: Option<String>,
    pub subtype: Option<String>,
}

/// The event in a line of the stream.
#[derive(Debug, Clone)]
pub struct StreamEvent {
    pub event_type: String,
    pub delta: Option<StreamDelta>,
}

/// The piece of a message in an event of the stream.
#[derive(Debug, Clone)]
pub struct StreamDelta {
    pub delta_type: String,
    pub text: Option<String>,
}

/// [`StreamLine`], with its texts.
#[verifier::ext_equal]
pub struct LineView {
    pub event_type: Seq<char>,
    pub session_id: Option<Seq<char>>,
    pub event: Option<StreamEventView>,
    pub result: Option<Seq<char>>,
    pub subtype: Option<Seq<char>>,
}

/// [`StreamEvent`], with its texts.
#[verifier::ext_equal]
pub struct StreamEventView {
    pub event_type: Seq<char>,
    pub delta: Option<DeltaView>,
}

/// [`StreamDelta`], with its texts.
#[verifier::ext_equal]
pub struct DeltaView {
    pub delta_type: Seq<char>,
    pub text: Option<Seq<char>>,
}

impl View for StreamDelta {
    type V = DeltaView;

    open spec fn view(&self) -> DeltaView {
        DeltaView { delta_type: self.delta_type@, text: opt_text(self.text) }
    }
}

impl View for StreamEvent {
    type V = StreamEventView;

    open spec fn view(&self) -> StreamEventView {
        StreamEventView {
            event_type: self.event_type@,
            delta: match self.delta {
                Some(delta) => Some(delta@),
                None => None,
            },
        }
    }
}

impl View for StreamLine {
    type V = LineView;

    open spec fn view(&self) -> LineView {
        LineView {
            event_type: self.event_type@,
            session_id: opt_text(self.session_id),
            event: match self.event {
                Some(event) => Some(event@),
                None => None,
            },
            result: opt_text(self.result),
            subtype: opt_text(self.subtype),
        }
    }
}

/// A line that may not have been one of the stream, with its texts.
pub open spec fn line_view(line: Option<StreamLine>) -> Option<LineView> {
    match line {
        Some(l) => Some(l@),
        None => None,
    }
}

impl Default for RecallChatState {
    /// A chat that has not begun.
    fn default() -> (state: RecallChatState)
        ensures
            state@ == (StateView { session_id: None, workspace: None }),
    {
        RecallChatState { session_id: None, workspace: None }
    }
}

/// The arguments of the assistant's process for a message: how to answer, the
/// session to go on with if there is one, and the message.
pub open spec fn args_for(message: Seq<char>, session_id: Option<Seq<char>>) -> Seq<Seq<char>> {
    let how = seq![
        "--print"@,
        "--output-format"@,
        "stream-json"@,
        "--verbose"@,
        "--include-partial-messages"@,
    ];
    let session = match session_id {
        Some(id) => seq!["--resume"@, id],
        None => seq![],
    };
    how + session + seq!["-p"@, message]
}

/// The arguments of the assistant's process for a message.
pub fn chat_args(message: &str, session_id: &Option<String>) -> (args: Vec<String>)
    ensures
        texts(args@) == args_for(message@, opt_text(*session_id)),
{
    let mut args: Vec<String> = Vec::new();
    args.push("--print".to_string());
    args.push("--output-format".to_string());
    args.push("stream-json".to_string());
    args.push("--verbose".to_string());
    args.push("--include-partial-messages".to_string());
    if let Some(id) = session_id {
        args.push("--resume".to_string());
        args.push(id.clone());
    }
    args.push("-p".to_string());
    args.push(message.to_string());
    assert(texts(args@) =~= args_for(message@, opt_text(*session_id)));
    args
}

/// What can keep a turn from running to its end.
#[derive(Debug, Clone)]
pub enum ChatFailure {
    /// The state of the chat could not be read.
    Locked,
    /// The process did not start.
    Spawn(String),
    /// The process has no output to read.
    NoStdout,
    /// The process could not be waited for.
    Wait(String),
}

/// [`ChatFailure`], with its texts.
#[verifier::ext_equal]
pub enum FailureView {
    Locked,
    Spawn(Seq<char>),
    NoStdout,
    Wait(Seq<char>),
}

impl View for ChatFailure {
    type V = FailureView;

    open spec fn view(&self) -> FailureView {
        match *self {
            ChatFailure::Locked => FailureView::Locked,
            ChatFailure::Spawn(reason) => FailureView::Spawn(reason@),
            ChatFailure::NoStdout => FailureView::NoStdout,
            ChatFailure::Wait(reason) => FailureView::Wait(reason@),
        }
    }
}

/// What a failure is reported as, `agent` being the name of the process.
pub open spec fn failure_text(agent: Seq<char>, failure: FailureView) -> Seq<char> {
    match failure {
        FailureView::Locked => "Chat state lock failed"@,
        FailureView::Spawn(reason) => "Failed to spawn "@ + agent + ": "@ + reason,
        FailureView::NoStdout => "No stdout"@,
        FailureView::Wait(reason) => "Wait failed: "@ + reason,
    }
}

impl ChatFailure {
    /// What the failure is reported as, `agent` being the name of the process.
    pub fn message(&self, agent: &str) -> (text: String)
        ensures
            text@ == failure_text(agent@, self@),
    {
        match self {
            ChatFailure::Locked => "Chat state lock failed".to_string(),
            ChatFailure::Spawn(reason) => {
                let mut text = "Failed to spawn ".to_string();
                text.append(agent);
                text.append(": ");
                text.append(reason.as_str());
                text
            },
            ChatFailure::NoStdout => "No stdout".to_string(),
            ChatFailure::Wait(reason) => {
                let mut text = "Wait failed: ".to_string();
                text.append(reason.as_str());
                text
            },
        }
    }
}

/// What a turn has got so far: the answer, and the session it runs in.
#[derive(Debug, Clone)]
pub struct ChatTurn {
    full_text: String,
    new_session_id: Option<String>,
}

/// [`ChatTurn`], with its texts.
#[verifier::ext_equal]
pub struct TurnView {
    pub full_text: Seq<char>,
    pub session_id: Option<Seq<char>>,
}

impl View for ChatTurn {
    type V = TurnView;

    closed spec fn view(&self) -> TurnView {
        TurnView { full_text: self.full_text@, session_id: opt_text(self.new_session_id) }
    }
}

/// A turn in which nothing has come yet.
pub open spec fn fresh_turn() -> TurnView {
    TurnView { full_text: seq![], session_id: None }
}

/// The piece of the answer in a line of the stream.
pub open spec fn piece_in(line: LineView) -> Option<Seq<char>> {
    match line.event {
        Some(event) => match event.delta {
            Some(delta) => if event.event_type == "content_block_delta"@ && delta.delta_type
                == "text_delta"@ {
                delta.text
            } else {
                None
            },
            None => None,
        },
        None => None,
    }
}

/// What a line of the stream does to a turn, and what the window is told of it.
/// The first line of a session names it. A piece of the answer is put behind
/// what has come. The result is the answer, in place of what has come, and names
/// the session too. Nothing else counts.
pub open spec fn step(turn: TurnView, line: LineView) -> (TurnView, Option<EventView>) {
    if line.event_type == "system"@ {
        if line.subtype == Some("init"@) && line.session_id is Some {
            (TurnView { session_id: line.session_id, ..turn }, None)
        } else {
            (turn, None)
        }
    } else if line.event_type == "stream_event"@ {
        match piece_in(line) {
            Some(text) => (
                TurnView { full_text: turn.full_text + text, ..turn },
                Some(EventView::Delta { text }),
            ),
            None => (turn, None),
        }
    } else if line.event_type == "result"@ {
        (
            TurnView {
                full_text: match line.result {
                    Some(text) => text,
                    None => turn.full_text,
                },
                session_id: match line.session_id {
                    Some(id) => Some(id),
                    None => turn.session_id,
                },
            },
            None,
        )
    } else {
        (turn, None)
    }
}

/// What a raw line does: nothing if it is no line of the stream.
pub open spec fn step_raw(turn: TurnView, line: Option<LineView>) -> (
    TurnView,
    Option<EventView>,
) {
    match line {
        Some(l) => step(turn, l),
        None => (turn, None),
    }
}

/// How the process of a turn ended: whether well, with which code if any, and
/// what it wrote to its error output.
#[derive(Debug, Clone)]
pub struct ChatExit {
    pub success: bool,
    pub code: Option<i32>,
    pub stderr: Option<String>,
}

/// [`ChatExit`], with its texts.
#[verifier::ext_equal]
pub struct ExitView {
    pub success: bool,
    pub code: Option<i32>,
    pub stderr: Option<Seq<char>>,
}

impl View for ChatExit {
    type V = ExitView;

    open spec fn view(&self) -> ExitView {
        ExitView { success: self.success, code: self.code, stderr: opt_text(self.stderr) }
    }
}

/// The first lines of a text, three at most.
pub open spec fn first_lines(text: Seq<char>) -> Seq<char> {
    let all = lines(text);
    let count = if all.len() < 3 {
        all.len() as int
    } else {
        3
    };
    joined(all.take(count), "\n"@)
}

/// What a process that failed is reported as: the first lines of its error
/// output, or its name and its code where that is empty.
pub open spec fn exit_error(agent: Seq<char>, exit: ExitView) -> Seq<char> {
    let stderr = match exit.stderr {
        Some(text) => text,
        None => seq![],
    };
    let code = match exit.code {
        Some(code) => code as int,
        None => -1,
    };
    if stderr.len() == 0 {
        agent + " exited with code "@ + decimal(code)
    } else {
        first_lines(stderr)
    }
}

/// How a turn ends: what the window is told, what the caller gets, and the
/// session to go on with, if one is to be stored.
#[derive(Debug)]
pub struct ChatOutcome {
    pub event: ChatEvent,
    pub result: Result<String, String>,
    pub store: Option<String>,
}

/// [`ChatOutcome`], with its texts.
#[verifier::ext_equal]
pub struct OutcomeView {
    pub event: EventView,
    pub result: Result<Seq<char>, Seq<char>>,
    pub store: Option<Seq<char>>,
}

impl View for ChatOutcome {
    type V = OutcomeView;

    open spec fn view(&self) -> OutcomeView {
        OutcomeView {
            event: self.event@,
            result: reply(self.result),
            store: opt_text(self.store),
        }
    }
}

/// A turn fails if its process did and nothing of an answer has come.
pub open spec fn fails(turn: TurnView, success: bool) -> bool {
    !success && turn.full_text.len() == 0
}

/// How a turn ends whose process, named `agent`, ended so.
pub open spec fn ending(agent: Seq<char>, turn: TurnView, exit: ExitView) -> OutcomeView {
    if fails(turn, exit.success) {
        OutcomeView {
            event: EventView::Error { message: exit_error(agent, exit) },
            result: Err(exit_error(agent, exit)),
            store: None,
        }
    } else {
        let session = match turn.session_id {
            Some(id) => id,
            None => seq![],
        };
        OutcomeView {
            event: EventView::Done { text: turn.full_text, session_id: session },
            result: Ok(turn.full_text),
            store: if session.len() == 0 {
                None
            } else {
                Some(session)
            },
        }
    }
}

/// The state of a chat after a turn that asks to store this.
pub open spec fn remembered(state: StateView, store: Option<Seq<char>>) -> StateView {
    match store {
        Some(id) => StateView { session_id: Some(id), ..state },
        None => state,
    }
}

/// What a process that failed is reported as.
fn exit_message(agent: &str, exit: &ChatExit) -> (message: String)
    ensures
        message@ == exit_error(agent@, exit@),
{
    let code: i32 = match exit.code {
        Some(code) => code,
        None => -1,
    };
    if let Some(stderr) = &exit.stderr {
        if !stderr.as_str().is_empty() {
            let all = split_lines(stderr.as_str());
            let count: usize = if all.len() < 3 {
                all.len()
            } else {
                3
            };
            assert(texts(all@).len() == all@.len());
            return join_first(&all, count, "\n");
        }
    }
    let mut message = agent.to_string();
    message.append(" exited with code ");
    message.append(decimal_string(code).as_str());
    message
}

/// The piece of the answer in a line of the stream.
fn find_piece(line: StreamLine) -> (piece: Option<String>)
    ensures
        opt_text(piece) == piece_in(line@),
{
    match line.event {
        Some(event) => match event.delta {
            Some(delta) => if same_text(event.event_type.as_str(), "content_block_delta")
                && same_text(delta.delta_type.as_str(), "text_delta") {
                delta.text
            } else {
                None
            },
            None => None,
        },
        None => None,
    }
}

impl ChatTurn {
    /// Begin a turn.
    pub fn new() -> (turn: ChatTurn)
        ensures
            turn@ == fresh_turn(),
    {
        ChatTurn { full_text: String::new(), new_session_id: None }
    }

    /// Take a line of the stream. What is returned is for the window.
    pub fn apply(&mut self, line: StreamLine) -> (event: Option<ChatEvent>)
        ensures
            (final(self)@, event_view(event)) == step(old(self)@, line@),
    {
        if same_text(line.event_type.as_str(), "system") {
            if let Some(subtype) = &line.subtype {
                if same_text(subtype.as_str(), "init") {
                    if let Some(id) = line.session_id {
                        self.new_session_id = Some(id);
                    }
                }
            }
            None
        } else if same_text(line.event_type.as_str(), "stream_event") {
            match find_piece(line) {
                Some(text) => {
                    self.full_text.append(text.as_str());
                    Some(ChatEvent::Delta { text })
                },
                None => None,
            }
        } else if same_text(line.event_type.as_str(), "result") {
            if let Some(text) = line.result {
                self.full_text = text;
            }
            if let Some(id) = line.session_id {
                self.new_session_id = Some(id);
            }
            None
        } else {
            None
        }
    }

    /// Take a raw line that the process wrote. `parse` reads it as a line of the
    /// stream; it is called on every line that is not empty.
    pub fn read_line<P: Fn(&str) -> Option<StreamLine>>(
        &mut self,
        line: &str,
        parse: &P,
    ) -> (event: Option<ChatEvent>)
        requires
            call_requires(*parse, (line,)),
        ensures
            line@.len() == 0 ==> final(self)@ == old(self)@ && event is None,
            line@.len() > 0 ==> exists|parsed: Option<StreamLine>| #[trigger]
                call_ensures(*parse, (line,), parsed) && (final(self)@, event_view(event))
                    == step_raw(old(self)@, line_view(parsed)),
    {
        if line.is_empty() {
            return None;
        }
        match parse(line) {
            Some(parsed) => self.apply(parsed),
            None => None,
        }
    }

    /// Whether the turn fails, its process having ended well or not. The error
    /// output of the process is read only if it does.
    pub fn failed(&self, success: bool) -> (failed: bool)
        ensures
            failed == fails(self@, success),
    {
        !success && self.full_text.as_str().is_empty()
    }

    /// End the turn, its process, named `agent`, having ended.
    pub fn finish(self, agent: &str, exit: &ChatExit) -> (outcome: ChatOutcome)
        ensures
            outcome@ == ending(agent@, self@, exit@),
    {
        if self.failed(exit.success) {
            let message = exit_message(agent, exit);
            return ChatOutcome {
                event: ChatEvent::Error { message: message.clone() },
                result: Err(message),
                store: None,
            };
        }
        let session = match self.new_session_id {
            Some(id) => id,
            None => String::new(),
        };
        let store = if session.as_str().is_empty() {
            None
        } else {
            Some(session.clone())
        };
        ChatOutcome {
            event: ChatEvent::Done { text: self.full_text.clone(), session_id: session },
            result: Ok(self.full_text),
            store,
        }
    }
}

impl RecallChatState {
    /// The arguments of the assistant's process for the next message.
    pub fn args(&self, message: &str) -> (args: Vec<String>)
        ensures
            texts(args@) == args_for(message@, self@.session_id),
    {
        chat_args(message, &self.session_id)
    }

    /// Keep the session that a turn asks to store, if it does.
    pub fn remember(&mut self, store: Option<String>)
        ensures
            final(self)@ == remembered(old(self)@, opt_text(store)),
    {
        if let Some(id) = store {
            self.session_id = Some(id);
        }
    }
}

/// A turn after these raw lines. A line that is empty or cannot be read as one of
/// the stream stands as `None`.
pub open spec fn run(stream: Seq<Option<LineView>>) -> TurnView
    decreases stream.len(),
{
    if stream.len() == 0 {
        fresh_turn()
    } else {
        step_raw(run(stream.drop_last()), stream.last()).0
    }
}

/// What the window is told of during these raw lines.
pub open spec fn told(stream: Seq<Option<LineView>>) -> Seq<EventView>
    decreases stream.len(),
{
    if stream.len() == 0 {
        seq![]
    } else {
        let before = told(stream.drop_last());
        match step_raw(run(stream.drop_last()), stream.last()).1 {
            Some(event) => before.push(event),
            None => before,
        }
    }
}

/// The text of a piece of the answer.
pub open spec fn piece_text(event: EventView) -> Seq<char> {
    match event {
        EventView::Delta { text } => text,
        _ => seq![],
    }
}

/// A line that brings the answer as a whole.
pub open spec fn brings_result(line: Option<LineView>) -> bool {
    line matches Some(l) && l.event_type == "result"@ && l.result is Some
}

/// During a turn the window is told of pieces of the answer and of nothing else.
pub proof fn law_only_pieces_are_told(stream: Seq<Option<LineView>>)
    ensures
        forall|i: int| 0 <= i < told(stream).len() ==> (#[trigger] told(stream)[i]) is Delta,
    decreases stream.len(),
{
    if stream.len() > 0 {
        law_only_pieces_are_told(stream.drop_last());
    }
}

/// The window sees what the caller gets: unless a result replaces it, the answer
/// is the pieces that the window was told of, in a row.
pub proof fn law_answer_is_what_was_told(stream: Seq<Option<LineView>>)
    requires
        forall|i: int| 0 <= i < stream.len() ==> !brings_result(#[trigger] stream[i]),
    ensures
        run(stream).full_text == joined(
            told(stream).map_values(|e: EventView| piece_text(e)),
            seq![],
        ),
    decreases stream.len(),
{
    let text_of = |e: EventView| piece_text(e);
    if stream.len() > 0 {
        let before = stream.drop_last();
        assert forall|i: int| 0 <= i < before.len() implies !brings_result(
            #[trigger] before[i],
        ) by {
            assert(before[i] == stream[i]);
        }
        law_answer_is_what_was_told(before);
        assert(!brings_result(stream[stream.len() - 1]));
        let pieces = told(before).map_values(text_of);
        match step_raw(run(before), stream.last()).1 {
            Some(event) => {
                let text = piece_text(event);
                assert(told(stream).map_values(text_of) =~= pieces.push(text));
                assert(pieces.push(text).drop_last() =~= pieces);
                assert(joined(pieces.push(text), seq![]) =~= joined(pieces, seq![]) + text);
            },
            None => {},
        }
    } else {
        assert(told(stream).map_values(text_of) =~= seq![]);
    }
}

/// The result is the answer: after a line that brings it, the answer is its text,
/// whatever came before.
pub proof fn law_result_is_the_answer(stream: Seq<Option<LineView>>, line: LineView)
    requires
        stream.len() > 0,
        stream.last() == Some(line),
        brings_result(stream.last()),
    ensures
        Some(run(stream).full_text) == line.result,
{
    reveal_strlit("result");
    reveal_strlit("system");
    reveal_strlit("stream_event");
    assert("result"@[0] == 'r' && "system"@[0] == 's' && "stream_event"@[0] == 's');
}

/// A line that does not count: empty, unreadable, or of an unknown kind.
pub open spec fn does_not_count(line: Option<LineView>) -> bool {
    match line {
        Some(l) => l.event_type != "system"@ && l.event_type != "stream_event"@ && l.event_type
            != "result"@,
        None => true,
    }
}

/// Lines that do not count change nothing: put anywhere into a stream, such a line
/// leaves the turn, what the window is told during it, and how it ends as they
/// are.
pub proof fn law_lines_that_do_not_count_change_nothing(
    stream: Seq<Option<LineView>>,
    at: int,
    line: Option<LineView>,
    agent: Seq<char>,
    exit: ExitView,
)
    requires
        0 <= at <= stream.len(),
        does_not_count(line),
    ensures
        run(stream.insert(at, line)) == run(stream),
        told(stream.insert(at, line)) == told(stream),
        ending(agent, run(stream.insert(at, line)), exit) == ending(agent, run(stream), exit),
    decreases stream.len(),
{
    let more = stream.insert(at, line);
    if at == stream.len() {
        assert(more.drop_last() =~= stream);
    } else {
        assert(more.drop_last() =~= stream.drop_last().insert(at, line));
        assert(more.last() == stream.last());
        law_lines_that_do_not_count_change_nothing(stream.drop_last(), at, line, agent, exit);
    }
}

/// A session once named stays named: no line of the stream takes it away.
pub proof fn law_session_stays_named(turn: TurnView, line: LineView)
    requires
        turn.session_id is Some,
    ensures
        step(turn, line).0.session_id is Some,
{
}

/// The next message goes on with the session of the last: after a turn that did
/// not fail and was given a session, the process for the next message is told to
/// resume that session.
pub proof fn law_next_message_resumes(
    agent: Seq<char>,
    turn: TurnView,
    exit: ExitView,
    state: StateView,
    id: Seq<char>,
    message: Seq<char>,
)
    requires
        !fails(turn, exit.success),
        turn.session_id == Some(id),
        id.len() > 0,
    ensures
        ({
            let args = args_for(
                message,
                remembered(state, ending(agent, turn, exit).store).session_id,
            );
            args.len() == 9 && args[5] == "--resume"@ && args[6] == id && args[7] == "-p"@
                && args[8] == message
        }),
{
}

/// A turn that failed, or that was given no session, leaves the chat as it was.
pub proof fn law_failed_turn_keeps_session(agent: Seq<char>, turn: TurnView, exit: ExitView, state: StateView)
    requires
        fails(turn, exit.success) || turn.session_id is None,
    ensures
        remembered(state, ending(agent, turn, exit).store) == state,
{
}

/// The window and the caller are told the same at the end: the same answer, or
/// the same error.
pub proof fn law_window_and_caller_agree(agent: Seq<char>, turn: TurnView, exit: ExitView)
    ensures
        match ending(agent, turn, exit).result {
            Ok(answer) => ending(agent, turn, exit).event matches EventView::Done { text, .. } && text
                == answer,
            Err(error) => ending(agent, turn, exit).event == (EventView::Error { message: error }),
        },
        exit.success || turn.full_text.len() > 0 ==> ending(agent, turn, exit).result == Ok::<
            Seq<char>,
            Seq<char>,
        >(turn.full_text),
{
}

} // verus!
