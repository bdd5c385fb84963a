//! What a turn of a chat is for.

use vstd::prelude::*;

use crate::chat::{
    brings_result, chat_args, line_view, run, step_raw, told, ChatEvent, ChatExit, ChatFailure,
    ChatOutcome, ChatTurn, LineView, RecallChatState, StreamDelta, StreamEvent, StreamLine, TurnView,
};
use crate::text::{decimal, joined, lines, opt_text, texts};
use crate::text_laws::{law_decimal, law_first_line, law_last_line, reads_as_number};

verus! {

/// The kinds of lines are told apart.
proof fn lemma_kinds()
    ensures
        "system"@ != "stream_event"@,
        "system"@ != "result"@,
        "stream_event"@ != "result"@,
{
    reveal_strlit("system");
    reveal_strlit("stream_event");
    reveal_strlit("result");
    assert("system"@.len() == 6 && "stream_event"@.len() == 12 && "result"@.len() == 6);
    assert("system"@[0] == 's' && "result"@[0] == 'r');
}

/// The text that a line adds to the answer: that of a text delta of a content
/// block, in a stream event.
pub open spec fn added_text(line: StreamLine) -> Option<String> {
    if line.event_type@ == "stream_event"@ {
        match line.event {
            Some(event) => match event.delta {
                Some(delta) => if event.event_type@ == "content_block_delta"@ && delta.delta_type@
                    == "text_delta"@ {
                    delta.text
                } else {
                    None
                },
                None => None,
            },
            None => None,
        }
    } else {
        None
    }
}

/// The line starts a session.
pub open spec fn starts_session(line: StreamLine) -> bool {
    line.event_type@ == "system"@ && (line.subtype matches Some(kind) && kind@ == "init"@)
}

/// What taking a line does. A text delta is passed on to the letter, whatever it
/// holds: the window is told it, and it is put behind the answer so far. A result
/// takes the place of the answer. The session is the one that the start of a
/// session or a result names. Nothing else changes anything, and the window is
/// told nothing else.
pub open spec fn takes(
    before: TurnView,
    line: StreamLine,
    after: TurnView,
    event: Option<ChatEvent>,
) -> bool {
    &&& match added_text(line) {
        Some(text) => {
            &&& event matches Some(ChatEvent::Delta { text: told }) && told@ == text@
            &&& after.full_text == before.full_text + text@
        },
        None => {
            &&& event is None
            &&& line.event_type@ == "result"@ && line.result is Some ==> after.full_text
                == line.result->Some_0@
            &&& !(line.event_type@ == "result"@ && line.result is Some) ==> after.full_text
                == before.full_text
        },
    }
    &&& if (starts_session(line) || line.event_type@ == "result"@) && line.session_id is Some {
        after.session_id == Some(line.session_id->Some_0@)
    } else {
        after.session_id == before.session_id
    }
}

/// Taking a line of the stream.
pub proof fn law_apply(turn: &mut ChatTurn, line: StreamLine, event: Option<ChatEvent>)
    requires
        call_ensures(ChatTurn::apply, (turn, line), event),
    ensures
        takes(old(turn)@, line, final(turn)@, event),
{
    lemma_kinds();
    assert(line@.event_type == line.event_type@);
    assert(line@.session_id == opt_text(line.session_id));
    assert(line@.result == opt_text(line.result));
    assert(line@.subtype == opt_text(line.subtype));
    if let Some(e) = line.event {
        assert(line@.event == Some(e@));
        assert(e@.event_type == e.event_type@);
        if let Some(d) = e.delta {
            assert(e@.delta == Some(d@));
            assert(d@.delta_type == d.delta_type@ && d@.text == opt_text(d.text));
        }
    }
}

/// Taking a raw line: one that is empty, or that cannot be read, changes nothing
/// and tells the window nothing. Any other is read, and taken as what it reads as.
pub proof fn law_read_line<P: Fn(&str) -> Option<StreamLine>>(
    turn: &mut ChatTurn,
    line: &str,
    parse: &P,
    event: Option<ChatEvent>,
)
    requires
        call_ensures(ChatTurn::read_line::<P>, (turn, line, parse), event),
    ensures
        line@.len() == 0 ==> final(turn)@ == old(turn)@ && event is None,
        line@.len() > 0 ==> exists|parsed: Option<StreamLine>| #[trigger]
            call_ensures(*parse, (line,), parsed) && match parsed {
                Some(read) => takes(old(turn)@, read, final(turn)@, event),
                None => final(turn)@ == old(turn)@ && event is None,
            },
{
    lemma_kinds();
    if line@.len() > 0 {
        let parsed = choose|parsed: Option<StreamLine>| #[trigger]
            call_ensures(*parse, (line,), parsed) && (final(turn)@, crate::chat::event_view(event))
                == crate::chat::step_raw(old(turn)@, line_view(parsed));
        if let Some(read) = parsed {
            assert(line_view(parsed) == Some(read@));
            assert(read@.event_type == read.event_type@);
            assert(read@.session_id == opt_text(read.session_id));
            assert(read@.result == opt_text(read.result));
            assert(read@.subtype == opt_text(read.subtype));
            if let Some(e) = read.event {
                assert(read@.event == Some(e@));
                assert(e@.event_type == e.event_type@);
                if let Some(d) = e.delta {
                    assert(e@.delta == Some(d@));
                    assert(d@.delta_type == d.delta_type@ && d@.text == opt_text(d.text));
                }
            }
            assert(takes(old(turn)@, read, final(turn)@, event));
        }
    }
}

/// A turn begins with no answer and no session.
pub proof fn law_new_turn(turn: ChatTurn)
    requires
        call_ensures(ChatTurn::new, (), turn),
    ensures
        turn@.full_text.len() == 0,
        turn@.session_id is None,
{
}

/// A turn failed if and only if its process did and there is no answer.
pub proof fn law_failed(turn: &ChatTurn, success: bool, failed: bool)
    requires
        call_ensures(ChatTurn::failed, (turn, success), failed),
    ensures
        failed <==> !success && turn@.full_text.len() == 0,
{
}

/// Some text has a first line.
proof fn lemma_has_line(text: Seq<char>)
    requires
        text.len() > 0,
    ensures
        lines(text).len() > 0,
{
}

/// The first lines of a text, three at most, with line feeds between them.
pub open spec fn is_first_lines(message: Seq<char>, all: Seq<Seq<char>>) -> bool {
    &&& all.len() == 1 ==> message == all[0]
    &&& all.len() == 2 ==> message == all[0] + seq!['\n'] + all[1]
    &&& all.len() >= 3 ==> message == all[0] + seq!['\n'] + all[1] + seq!['\n'] + all[2]
}

/// How a turn ends. Where the process failed and there is no answer, the window
/// and the caller are told the same error, and no session is stored: the error is
/// the first three lines of what the process wrote to its error output, or, where
/// it wrote nothing, its name and its code. Else the window and the caller are
/// told the answer to the letter, and the session is told, and stored where it
/// has a name.
pub proof fn law_finish(turn: ChatTurn, agent: &str, exit: &ChatExit, outcome: ChatOutcome)
    requires
        call_ensures(ChatTurn::finish, (turn, agent, exit), outcome),
    ensures
        !exit.success && turn@.full_text.len() == 0 ==> {
            &&& outcome.store is None
            &&& outcome.event matches ChatEvent::Error { message } && (outcome.result matches Err(
                error,
            ) && error@ == message@)
            &&& exit.stderr is Some && exit.stderr->Some_0@.len() > 0 ==> lines(
                exit.stderr->Some_0@,
            ).len() > 0 && is_first_lines(outcome.result->Err_0@, lines(exit.stderr->Some_0@))
            &&& !(exit.stderr is Some && exit.stderr->Some_0@.len() > 0) ==> exists|
                code: Seq<char>,
            |
                outcome.result->Err_0@ == #[trigger] (agent@ + " exited with code "@ + code)
                    && reads_as_number(
                    code,
                    match exit.code {
                        Some(n) => n as int,
                        None => -1,
                    },
                )
        },
        exit.success || turn@.full_text.len() > 0 ==> {
            let session = match turn@.session_id {
                Some(id) => id,
                None => seq![],
            };
            &&& outcome.result matches Ok(answer) && answer@ == turn@.full_text
            &&& outcome.event matches ChatEvent::Done { text, session_id } && text@
                == turn@.full_text && session_id@ == session
            &&& session.len() == 0 ==> outcome.store is None
            &&& session.len() > 0 ==> (outcome.store matches Some(id) && id@ == session)
        },
{
    assert(exit@.stderr == opt_text(exit.stderr));
    if !exit.success && turn@.full_text.len() == 0 {
        if exit.stderr is Some && exit.stderr->Some_0@.len() > 0 {
            let all = lines(exit.stderr->Some_0@);
            lemma_has_line(exit.stderr->Some_0@);
            reveal_strlit("\n");
            assert("\n"@ =~= seq!['\n']);
            reveal_with_fuel(joined, 4);
            if all.len() == 1 {
                assert(all.take(1)[0] == all[0]);
            } else if all.len() == 2 {
                assert(all.take(2).drop_last() =~= all.take(1));
                assert(all.take(1)[0] == all[0] && all.take(2).last() == all[1]);
            } else {
                assert(all.take(3).drop_last() =~= all.take(2));
                assert(all.take(2).drop_last() =~= all.take(1));
                assert(all.take(1)[0] == all[0] && all.take(2).last() == all[1]);
                assert(all.take(3).last() == all[2]);
            }
        } else {
            let n = match exit.code {
                Some(n) => n as int,
                None => -1,
            };
            law_decimal(n);
            assert(outcome.result->Err_0@ == agent@ + " exited with code "@ + decimal(n));
        }
    }
}

/// What a failure is reported as holds its reason to the letter.
pub proof fn law_failure_message(failure: &ChatFailure, agent: &str, text: String)
    requires
        call_ensures(ChatFailure::message, (failure, agent), text),
    ensures
        failure is Locked ==> text@ == "Chat state lock failed"@,
        failure matches ChatFailure::Spawn(reason) ==> text@ == "Failed to spawn "@ + agent@ + ": "@
            + reason@,
        failure is NoStdout ==> text@ == "No stdout"@,
        failure matches ChatFailure::Wait(reason) ==> text@ == "Wait failed: "@ + reason@,
{
}

/// The arguments of the process: how to answer, the session to go on with where
/// there is one, and last the message to the letter.
pub open spec fn are_args(args: Seq<String>, message: Seq<char>, session_id: Option<Seq<char>>) -> bool {
    let n = args.len() as int;
    &&& n == if session_id is Some {
        9int
    } else {
        7int
    }
    &&& args[0]@ == "--print"@
    &&& args[1]@ == "--output-format"@
    &&& args[2]@ == "stream-json"@
    &&& args[3]@ == "--verbose"@
    &&& args[4]@ == "--include-partial-messages"@
    &&& session_id matches Some(id) ==> args[5]@ == "--resume"@ && args[6]@ == id
    &&& args[n - 2]@ == "-p"@
    &&& args[n - 1]@ == message
}

/// The strings of a list are its texts, one by one.
proof fn lemma_texts(list: Seq<String>)
    ensures
        texts(list).len() == list.len(),
        forall|i: int| 0 <= i < list.len() ==> #[trigger] texts(list)[i] == list[i]@,
{
}

/// The arguments of the process for a message.
pub proof fn law_chat_args(message: &str, session_id: &Option<String>, args: Vec<String>)
    requires
        call_ensures(chat_args, (message, session_id), args),
    ensures
        are_args(
            args@,
            message@,
            match *session_id {
                Some(id) => Some(id@),
                None => None,
            },
        ),
{
    lemma_texts(args@);
    let all = texts(args@);
    assert(all[0] == args@[0]@ && all[1] == args@[1]@ && all[2] == args@[2]@);
    assert(all[3] == args@[3]@ && all[4] == args@[4]@ && all[5] == args@[5]@ && all[6] == args@[6]@);
    assert(all[all.len() - 2] == args@[args@.len() - 2]@);
    assert(all[all.len() - 1] == args@[args@.len() - 1]@);
}

/// The arguments of the process for the next message of a chat go on with the
/// session that is kept.
pub proof fn law_state_args(state: &RecallChatState, message: &str, args: Vec<String>)
    requires
        call_ensures(RecallChatState::args, (state, message), args),
    ensures
        are_args(
            args@,
            message@,
            match state.session_id {
                Some(id) => Some(id@),
                None => None,
            },
        ),
{
    lemma_texts(args@);
    let all = texts(args@);
    assert(all[0] == args@[0]@ && all[1] == args@[1]@ && all[2] == args@[2]@);
    assert(all[3] == args@[3]@ && all[4] == args@[4]@ && all[5] == args@[5]@ && all[6] == args@[6]@);
    assert(all[all.len() - 2] == args@[args@.len() - 2]@);
    assert(all[all.len() - 1] == args@[args@.len() - 1]@);
}

/// Remembering keeps the session that is to be stored, to the letter; where none
/// is, the one there was. The directory is kept in any case.
pub proof fn law_remember(state: &mut RecallChatState, store: Option<String>)
    requires
        call_ensures(RecallChatState::remember, (state, store), ()),
    ensures
        store matches Some(id) ==> (final(state).session_id matches Some(kept) && kept@ == id@),
        store is None ==> opt_text(final(state).session_id) == opt_text(old(state).session_id),
        opt_text(final(state).workspace) == opt_text(old(state).workspace),
{
    assert(final(state)@.session_id == opt_text(final(state).session_id));
    assert(old(state)@.session_id == opt_text(old(state).session_id));
    assert(final(state)@.workspace == opt_text(final(state).workspace));
    assert(old(state)@.workspace == opt_text(old(state).workspace));
}

/// The text of a string that may be absent is the string's own.
pub proof fn law_opt_text(s: Option<String>)
    ensures
        s matches Some(t) ==> opt_text(s) == Some(t@),
        s is None ==> opt_text(s) is None,
{
}

/// Short error output is reported whole: of a text of one line, or of two, nothing
/// is lost.
pub proof fn law_short_error_is_whole(first: Seq<char>, second: Seq<char>, message: Seq<char>)
    requires
        !first.contains('\n'),
        !second.contains('\n'),
        first.len() > 0 ==> first.last() != '\r',
        second.len() > 0,
        is_first_lines(message, lines(first + seq!['\n'] + second)),
    ensures
        message == first + seq!['\n'] + second,
{
    law_first_line(first, second);
    law_last_line(second);
    let all = lines(first + seq!['\n'] + second);
    assert(all =~= seq![first, second]);
}

/// A text delta is passed on to the letter, whatever it holds: the window is told
/// it, the answer so far becomes what it was followed by it, and the session
/// stays.
pub proof fn law_delta_is_passed_on(
    turn: &mut ChatTurn,
    line: StreamLine,
    stream_event: StreamEvent,
    delta: StreamDelta,
    text: String,
    event: Option<ChatEvent>,
)
    requires
        call_ensures(ChatTurn::apply, (turn, line), event),
        line.event_type@ == "stream_event"@,
        line.event == Some(stream_event),
        stream_event.event_type@ == "content_block_delta"@,
        stream_event.delta == Some(delta),
        delta.delta_type@ == "text_delta"@,
        delta.text == Some(text),
    ensures
        event matches Some(ChatEvent::Delta { text: told }) && told@ == text@,
        final(turn)@.full_text == old(turn)@.full_text + text@,
        final(turn)@.session_id == old(turn)@.session_id,
{
    lemma_kinds();
    assert(line@.event == Some(stream_event@));
    assert(stream_event@.delta == Some(delta@));
    assert(delta@.text == opt_text(delta.text));
}

/// A turn takes its lines one by one: what the window is told of two streams in a
/// row is what it is told of the first, and then of the second, and where no
/// result comes in the second, so with the answer.
pub proof fn law_streams_in_a_row(
    first: Seq<Option<LineView>>,
    second: Seq<Option<LineView>>,
)
    ensures
        told(first + second) == told(first) + told(second),
        (forall|i: int| 0 <= i < second.len() ==> !brings_result(#[trigger] second[i])) ==> run(
            first + second,
        ).full_text == run(first).full_text + run(second).full_text,
    decreases second.len(),
{
    let all = first + second;
    if second.len() == 0 {
        assert(all =~= first);
        assert(told(first) + told(second) =~= told(first));
        assert(run(first).full_text + run(second).full_text =~= run(first).full_text);
    } else {
        let early = second.drop_last();
        law_streams_in_a_row(first, early);
        assert(all.drop_last() =~= first + early);
        assert(all.last() == second.last());
        let a = step_raw(run(first + early), second.last());
        let b = step_raw(run(early), second.last());
        assert(a.1 == b.1);
        if let Some(event) = a.1 {
            assert((told(first) + told(early)).push(event) =~= told(first) + told(early).push(event));
        }
        if forall|i: int| 0 <= i < second.len() ==> !brings_result(#[trigger] second[i]) {
            assert forall|i: int| 0 <= i < early.len() implies !brings_result(
                #[trigger] early[i],
            ) by {
                assert(early[i] == second[i]);
            }
            assert(!brings_result(second[second.len() - 1]));
            assert(run(all).full_text =~= run(first).full_text + run(second).full_text);
        }
    }
}

/// A chat that has not begun has no session and no directory.
pub proof fn law_default_state(state: RecallChatState)
    requires
        call_ensures(RecallChatState::default, (), state),
    ensures
        state.session_id is None,
        state.workspace is None,
{
    assert(state@.session_id == opt_text(state.session_id));
    assert(state@.workspace == opt_text(state.workspace));
}

} // verus!
