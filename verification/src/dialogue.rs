//! The capture dialogue: a per-session state machine that walks a caller
//! from "send content" to "send keywords" to a persisted note.
//!
//! The transition function is pure: it maps the persisted state and the
//! inbound payload to a reply, the next state (or none, when the dialogue
//! exits) and at most one note to create. The driver performs the create
//! and sends the reply; persistence failures abort the turn before the
//! reply is sent.

use vstd::prelude::*;

use crate::keywords::{split_on_space, Keywords};
use crate::note::{
    error_text, normalized, MessageData, MessageDataView, NewNote, NewNoteView, NoteData,
    NoteDataError, NoteDataView,
};

verus! {

/// The dialogue's persisted per-session state. `Start` is the initial
/// value; `SetKeywords` carries the content received so far.
#[derive(Debug, Clone, PartialEq, Eq)]
pub enum AddState {
    Start,
    SetMessage,
    SetKeywords(NoteData),
}

pub enum AddStateView {
    Start,
    SetMessage,
    SetKeywords(NoteDataView),
}

impl View for AddState {
    type V = AddStateView;

    open spec fn view(&self) -> AddStateView {
        match self {
            AddState::Start => AddStateView::Start,
            AddState::SetMessage => AddStateView::SetMessage,
            AddState::SetKeywords(d) => AddStateView::SetKeywords(d@),
        }
    }
}

/// What one dialogue turn asks of the driver: the reply to send, the state
/// to persist (or none, when the dialogue exits), and the note to create
/// before replying, if the turn completed a capture.
#[derive(Debug, Clone, PartialEq, Eq)]
pub struct AddStep {
    pub reply: String,
    pub next: Option<AddState>,
    pub create: Option<NewNote>,
}

pub struct AddStepView {
    pub reply: Seq<char>,
    pub next: Option<AddStateView>,
    pub create: Option<NewNoteView>,
}

impl View for AddStep {
    type V = AddStepView;

    open spec fn view(&self) -> AddStepView {
        AddStepView {
            reply: self.reply@,
            next: match self.next {
                Some(s) => Some(s@),
                None => None,
            },
            create: match self.create {
                Some(n) => Some(n@),
                None => None,
            },
        }
    }
}

/// The dialogue's transition table. On entry it prompts for content; a
/// convertible payload prompts for keywords; a failing payload reports the
/// reason and keeps waiting; a text message while awaiting keywords splits
/// it, pairs it with the held content and exits; any other message while
/// awaiting keywords replies as if done but creates nothing and keeps the
/// state — a pass-through the dialogue deliberately preserves.
pub open spec fn dialogue_step(state: AddStateView, message: MessageDataView) -> AddStepView {
    match state {
        AddStateView::Start => AddStepView {
            reply: "Send any message"@,
            next: Some(AddStateView::SetMessage),
            create: None,
        },
        AddStateView::SetMessage => match normalized(message) {
            Ok(d) => AddStepView {
                reply: "Send keywords"@,
                next: Some(AddStateView::SetKeywords(d)),
                create: None,
            },
            Err(e) => AddStepView {
                reply: error_text(e),
                next: Some(AddStateView::SetMessage),
                create: None,
            },
        },
        AddStateView::SetKeywords(d) => match message {
            MessageDataView::Text { data } => AddStepView {
                reply: "Done"@,
                next: None,
                create: Some(NewNoteView { data: d, keywords: split_on_space(data) }),
            },
            _ => AddStepView {
                reply: "Done"@,
                next: Some(AddStateView::SetKeywords(d)),
                create: None,
            },
        },
    }
}

/// Runs one dialogue turn on the persisted state and the inbound payload.
pub fn handle(state: AddState, message: MessageData) -> (r: AddStep)
    ensures
        r@ == dialogue_step(state@, message@),
{
    match state {
        AddState::Start => AddStep {
            reply: String::from_str("Send any message"),
            next: Some(AddState::SetMessage),
            create: None,
        },
        AddState::SetMessage => match NoteData::try_from(message) {
            Ok(d) => AddStep {
                reply: String::from_str("Send keywords"),
                next: Some(AddState::SetKeywords(d)),
                create: None,
            },
            Err(e) => AddStep {
                reply: e.as_string(),
                next: Some(AddState::SetMessage),
                create: None,
            },
        },
        AddState::SetKeywords(d) => match message {
            MessageData::Text { data } => {
                let keywords = Keywords::from_text(data.as_str());
                AddStep {
                    reply: String::from_str("Done"),
                    next: None,
                    create: Some(d.into_new(keywords)),
                }
            },
            _ => AddStep {
                reply: String::from_str("Done"),
                next: Some(AddState::SetKeywords(d)),
                create: None,
            },
        },
    }
}

/// Entering the dialogue prompts for content and creates nothing, whatever
/// the triggering message was.
pub proof fn lemma_capture_entry(m: MessageDataView)
    ensures
        dialogue_step(AddStateView::Start, m).next == Some(AddStateView::SetMessage),
        dialogue_step(AddStateView::Start, m).create is None,
        dialogue_step(AddStateView::Start, m).reply == "Send any message"@,
{
}

/// A convertible payload moves the dialogue to await keywords without
/// creating anything; any text message then completes it: the dialogue
/// exits with exactly one note to create, pairing the normalized content
/// with the keywords split from the text.
pub proof fn lemma_capture_completes(m: MessageDataView, d: NoteDataView, t: Seq<char>)
    requires
        normalized(m) == Ok::<NoteDataView, NoteDataError>(d),
    ensures
        dialogue_step(AddStateView::SetMessage, m).next == Some(AddStateView::SetKeywords(d)),
        dialogue_step(AddStateView::SetMessage, m).create is None,
        dialogue_step(AddStateView::SetKeywords(d), MessageDataView::Text { data: t }).next
            is None,
        dialogue_step(AddStateView::SetKeywords(d), MessageDataView::Text { data: t }).create
            == Some(NewNoteView { data: d, keywords: split_on_space(t) }),
{
}

/// A payload the normalizer rejects is reported to the caller and leaves
/// the dialogue waiting for content, with nothing created.
pub proof fn lemma_capture_rejects(m: MessageDataView, e: NoteDataError)
    requires
        normalized(m) == Err::<NoteDataView, NoteDataError>(e),
    ensures
        dialogue_step(AddStateView::SetMessage, m).next == Some(AddStateView::SetMessage),
        dialogue_step(AddStateView::SetMessage, m).create is None,
        dialogue_step(AddStateView::SetMessage, m).reply == error_text(e),
{
}

/// A non-text message while awaiting keywords creates nothing and keeps
/// the state, yet replies as if done: the documented pass-through.
pub proof fn lemma_keywords_pass_through(d: NoteDataView, m: MessageDataView)
    requires
        !(m matches MessageDataView::Text { .. }),
    ensures
        dialogue_step(AddStateView::SetKeywords(d), m).next == Some(
            AddStateView::SetKeywords(d),
        ),
        dialogue_step(AddStateView::SetKeywords(d), m).create is None,
        dialogue_step(AddStateView::SetKeywords(d), m).reply == "Done"@,
{
}

} // verus!
