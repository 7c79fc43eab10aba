use assistant::commands::{handle_list, handle_query, handle_remove};
use assistant::keywords::Keywords;
use assistant::note::NoteData;
use assistant::notes::{Note, NoteError, NotesService};

fn strings(items: &[&str]) -> Vec<String> {
    items.iter().map(|s| s.to_string()).collect()
}

fn store_with(tagged: &[(&str, &[&str])]) -> NotesService {
    let mut store = NotesService::new();
    for (body, keywords) in tagged {
        let note = NoteData::Text(body.to_string()).into_new(Keywords::from(strings(keywords)));
        store.create(note);
    }
    store
}

#[test]
fn query_matches_containment_not_exact_match() {
    let store = store_with(&[("n", &["a", "b", "c"])]);
    assert_eq!(handle_query(&store, "a c").len(), 1);
    assert_eq!(handle_query(&store, "a d").len(), 0);
}

#[test]
fn query_counts_duplicate_keywords() {
    let store = store_with(&[("n", &["a"])]);
    assert_eq!(handle_query(&store, "a a").len(), 0);
    let doubled = store_with(&[("n", &["a", "a"])]);
    assert_eq!(handle_query(&doubled, "a a").len(), 1);
}

#[test]
fn query_returns_ids_titles_and_content() {
    let store = store_with(&[("first", &["x", "y"]), ("second", &["x"])]);
    let items = handle_query(&store, "x");
    assert_eq!(items.len(), 2);
    assert_eq!(items[0].id, "1");
    assert_eq!(items[0].title, "x y");
    assert_eq!(items[0].data, NoteData::Text("first".to_string()));
    assert_eq!(items[1].id, "2");
    assert_eq!(items[1].title, "x");
}

#[test]
fn query_by_keywords_returns_notes() {
    let store = store_with(&[("first", &["x", "y"]), ("second", &["z"])]);
    let notes = store.query(&Keywords::from(strings(&["y"])));
    assert_eq!(notes.len(), 1);
    assert_eq!(notes[0].id, 1);
    assert_eq!(notes[0].data, NoteData::Text("first".to_string()));
    assert_eq!(notes[0].keywords.as_string(), "x y");
}

#[test]
fn remove_absent_id_returns_false_and_changes_nothing() {
    let mut store = store_with(&[("a", &["k1"]), ("b", &["k2"])]);
    let before = handle_list(&store);
    assert!(!store.remove(5));
    assert_eq!(handle_list(&store), before);
}

#[test]
fn remove_existing_id_returns_true_and_id_is_gone() {
    let mut store = store_with(&[("a", &["k1"]), ("b", &["k2"])]);
    assert!(store.remove(1));
    let after = handle_list(&store);
    assert_eq!(after, vec!["`2` \\- k2".to_string()]);
    assert!(!store.remove(1));
}

#[test]
fn ids_are_never_reused() {
    let mut store = store_with(&[("a", &["k1"]), ("b", &["k2"])]);
    assert!(store.remove(2));
    let note = NoteData::Text("c".to_string()).into_new(Keywords::from(strings(&["k3"])));
    store.create(note);
    assert_eq!(handle_list(&store), vec!["`1` \\- k1\n`3` \\- k3".to_string()]);
}

#[test]
fn list_of_empty_store_reports_no_items() {
    let store = NotesService::new();
    assert_eq!(handle_list(&store), vec!["There are no items".to_string()]);
}

#[test]
fn remove_command_replies_by_argument_validity() {
    let mut store = store_with(&[("a", &["k1"])]);
    assert_eq!(handle_remove(&mut store, &Vec::new()), "Note ID is required");
    assert_eq!(handle_remove(&mut store, &strings(&["abc"])), "Note ID is not an integer");
    assert_eq!(handle_remove(&mut store, &strings(&["7"])), "Not found");
    assert_eq!(handle_remove(&mut store, &strings(&["1"])), "OK");
    assert_eq!(handle_remove(&mut store, &strings(&["1"])), "Not found");
}

#[test]
fn from_row_rebuilds_note_or_reports_bad_document() {
    let doc = NoteData::Voice { file_id: "v9".to_string() }.to_document();
    let note = Note::from_row(4, doc.as_str(), strings(&["k"])).unwrap();
    assert_eq!(note.id, 4);
    assert_eq!(note.data, NoteData::Voice { file_id: "v9".to_string() });
    assert_eq!(note.keywords.as_string(), "k");
    assert_eq!(Note::from_row(4, "junk?", strings(&["k"])), Err(NoteError::Deserialize));
}
