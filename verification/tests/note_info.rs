use assistant::note_info::{NoteInfo, NoteInfoList, MAX_LIST_ITEM_LEN};

fn create_note_info<T, I>(id: i32, keywords: T) -> NoteInfo
where
    T: IntoIterator<Item = I>,
    I: Into<String>,
{
    NoteInfo::new(id, keywords.into_iter().map(Into::into).collect())
}

fn collect_chunks(mut list: NoteInfoList) -> Vec<String> {
    let mut out = Vec::new();
    while let Some(chunk) = list.next() {
        out.push(chunk);
    }
    out
}

#[test]
fn note_info_note_info_list() {
    let list = NoteInfoList::new(vec![
        create_note_info(1, vec!["k1", "k2"]),
        create_note_info(2, vec!["k3", "k4"]),
        create_note_info(3, vec!["k".repeat(MAX_LIST_ITEM_LEN * 2)]),
    ]);
    let formatted_list: Vec<String> = collect_chunks(list);
    const PREFIX_LEN: usize = 7;
    assert_eq!(
        formatted_list,
        &[
            String::from("`1` \\- k1 k2\n`2` \\- k3 k4"),
            format!(r#"`3` \- {}..."#, "k".repeat(MAX_LIST_ITEM_LEN - 3 - PREFIX_LEN))
        ]
    )
}

#[test]
fn notes_note_info_list() {
    let list = NoteInfoList::new(vec![
        create_note_info(1, vec!["k1", "k2"]),
        create_note_info(2, vec!["k3", "k4"]),
        create_note_info(3, vec!["k".repeat(MAX_LIST_ITEM_LEN * 2)]),
    ]);
    let formatted_list: Vec<String> = collect_chunks(list);
    const PREFIX_LEN: usize = 7;
    assert_eq!(
        formatted_list,
        &[
            String::from("`1` \\- k1 k2\n`2` \\- k3 k4"),
            format!(r#"`3` \- {}..."#, "k".repeat(MAX_LIST_ITEM_LEN - 3 - PREFIX_LEN))
        ]
    )
}

#[test]
fn truncated_line_has_exactly_budget_length() {
    let info = create_note_info(3, vec!["k".repeat(MAX_LIST_ITEM_LEN * 2)]);
    let line = info.as_string();
    assert_eq!(line.len(), MAX_LIST_ITEM_LEN);
    assert!(line.ends_with("..."));
    assert!(line.starts_with("`3` \\- kkk"));
}

#[test]
fn short_line_is_not_truncated() {
    let info = create_note_info(7, vec!["alpha", "beta"]);
    assert_eq!(info.as_string(), "`7` \\- alpha beta");
}

#[test]
fn empty_listing_yields_no_chunks() {
    let list = NoteInfoList::new(Vec::new());
    let chunks = collect_chunks(list);
    assert!(chunks.is_empty());
}

#[test]
fn line_exactly_at_budget_emits_alone() {
    // A line of exactly the budget fills one chunk on its own and the
    // neighbours pack around it.
    let big = "k".repeat(MAX_LIST_ITEM_LEN - 7);
    let list = NoteInfoList::new(vec![
        create_note_info(1, vec!["a"]),
        create_note_info(2, vec![big.clone()]),
    ]);
    let chunks = collect_chunks(list);
    assert_eq!(chunks.len(), 2);
    assert_eq!(chunks[0], "`1` \\- a");
    assert_eq!(chunks[1], format!("`2` \\- {}", big));
    assert_eq!(chunks[1].len(), MAX_LIST_ITEM_LEN);
}
