use assistant::commands::handle_list;
use assistant::dialogue::{handle, AddState};
use assistant::note::{MessageData, NoteData};
use assistant::notes::NotesService;

#[test]
fn capture_runs_end_to_end_with_exactly_one_create() {
    let mut store = NotesService::new();
    let mut creates = 0;

    let step = handle(AddState::Start, MessageData::Text { data: "hello".to_string() });
    assert_eq!(step.reply, "Send any message");
    assert_eq!(step.next, Some(AddState::SetMessage));
    assert!(step.create.is_none());

    let step = handle(AddState::SetMessage, MessageData::Text { data: "hello".to_string() });
    assert_eq!(step.reply, "Send keywords");
    assert_eq!(step.next, Some(AddState::SetKeywords(NoteData::Text("hello".to_string()))));
    assert!(step.create.is_none());

    let state = step.next.unwrap();
    let step = handle(state, MessageData::Text { data: "x y".to_string() });
    assert_eq!(step.reply, "Done");
    assert_eq!(step.next, None);
    if let Some(new_note) = step.create {
        assert_eq!(new_note.data(), &NoteData::Text("hello".to_string()));
        assert_eq!(new_note.keywords().as_string(), "x y");
        store.create(new_note);
        creates += 1;
    }
    assert_eq!(creates, 1);
    assert_eq!(handle_list(&store), vec!["`1` \\- x y".to_string()]);
}

#[test]
fn non_text_while_awaiting_keywords_is_a_pass_through() {
    let content = NoteData::Text("held".to_string());
    let step = handle(
        AddState::SetKeywords(content.clone()),
        MessageData::Voice { file_id: "v1".to_string() },
    );
    assert_eq!(step.reply, "Done");
    assert_eq!(step.next, Some(AddState::SetKeywords(content)));
    assert!(step.create.is_none());
}

#[test]
fn unconvertible_payload_reports_and_keeps_waiting() {
    let step = handle(AddState::SetMessage, MessageData::Unsupported);
    assert_eq!(step.reply, "can not create note data from provided message");
    assert_eq!(step.next, Some(AddState::SetMessage));
    assert!(step.create.is_none());

    let step = handle(AddState::SetMessage, MessageData::Photo { sizes: Vec::new() });
    assert_eq!(step.reply, "could not find photo");
    assert_eq!(step.next, Some(AddState::SetMessage));
    assert!(step.create.is_none());
}

#[test]
fn convertible_payload_moves_to_keywords_state() {
    let step = handle(AddState::SetMessage, MessageData::Voice { file_id: "v2".to_string() });
    assert_eq!(step.reply, "Send keywords");
    assert_eq!(step.next, Some(AddState::SetKeywords(NoteData::Voice { file_id: "v2".to_string() })));
    assert!(step.create.is_none());
}
