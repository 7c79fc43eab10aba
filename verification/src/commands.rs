//! The caller-facing commands around the store: listing every note in
//! chunked messages, deleting a note by id, and the free-text keyword
//! search. Each is a pure function over the store; sending the produced
//! messages is the driver's business.

use vstd::prelude::*;

use crate::keywords::{joined, split_on_space, Keywords};
use crate::note::{NoteData, NoteDataView};
use crate::note_info::{
    chunk_text, lemma_pack_end_progress, pack_end, NoteInfoList, NoteInfoView,
};
use crate::notes::{infos_of_rows, query_spec, NoteView, NotesService, RowView};
use crate::numbers::{dec_int, i32_to_string, parse_i32, parse_i32_spec};

verus! {

/// The chunks the paginator yields from `start` on: each chunk covers a
/// greedy run of lines, and the runs tile the rest of the list.
pub open spec fn chunks_of(items: Seq<NoteInfoView>, start: int) -> Seq<Seq<char>>
    decreases items.len() - start,
    when 0 <= start <= items.len()
    via chunks_of_decreases
{
    if start >= items.len() {
        Seq::empty()
    } else {
        seq![chunk_text(items.subrange(start, pack_end(items, start, 0)))] + chunks_of(
            items,
            pack_end(items, start, 0),
        )
    }
}

#[via_fn]
proof fn chunks_of_decreases(items: Seq<NoteInfoView>, start: int) {
    if 0 <= start < items.len() {
        lemma_pack_end_progress(items, start);
    }
}

/// What the list command sends: one message per chunk, or a single "no
/// items" message for an empty table.
pub open spec fn list_messages_spec(rows: Seq<RowView>) -> Seq<Seq<char>> {
    if rows.len() == 0 {
        seq!["There are no items"@]
    } else {
        chunks_of(infos_of_rows(rows), 0)
    }
}

/// Renders the whole table as outbound messages: the paginator's chunks in
/// order, or an explicit "no items" message when the table is empty.
pub fn handle_list(store: &NotesService) -> (r: Vec<String>)
    ensures
        r.deep_view() == list_messages_spec(store@.rows),
{
    let mut list = store.get_list();
    let ghost items = list@.items;
    let mut out: Vec<String> = Vec::new();
    proof {
        assert(out.deep_view() =~= Seq::<Seq<char>>::empty());
        assert(out.deep_view() + chunks_of(items, 0) =~= chunks_of(items, 0));
    }
    loop
        invariant_except_break
            list@.items == items,
            0 <= list@.index <= items.len(),
            out.deep_view() + chunks_of(items, list@.index) == chunks_of(items, 0),
        ensures
            out.deep_view() == chunks_of(items, 0),
        decreases items.len() - list@.index,
    {
        let ghost at = list@.index;
        match list.next() {
            Some(chunk) => {
                proof {
                    assert(at < items.len());
                    lemma_pack_end_progress(items, at);
                    assert(chunks_of(items, at) == seq![
                        chunk_text(items.subrange(at, pack_end(items, at, 0))),
                    ] + chunks_of(items, pack_end(items, at, 0)));
                }
                out.push(chunk);
                proof {
                    let end = pack_end(items, at, 0);
                    assert(out.deep_view() =~= out.deep_view().drop_last().push(
                        chunk_text(items.subrange(at, end)),
                    ));
                    assert(out.deep_view() + chunks_of(items, end) =~= (out.deep_view()
                        .drop_last() + chunks_of(items, at)));
                }
            },
            None => {
                proof {
                    assert(at >= items.len());
                    assert(chunks_of(items, at) =~= Seq::<Seq<char>>::empty());
                    assert(out.deep_view() + chunks_of(items, at) =~= out.deep_view());
                }
                break;
            },
        }
    }
    if out.len() == 0 {
        proof {
            assert(chunks_of(items, 0).len() == 0);
            assert(items.len() == 0);
            assert(infos_of_rows(store@.rows).len() == store@.rows.len());
        }
        out.push(String::from_str("There are no items"));
        proof {
            assert(out.deep_view() =~= seq!["There are no items"@]);
        }
    } else {
        proof {
            assert(chunks_of(items, 0).len() > 0);
            if store@.rows.len() == 0 {
                assert(items.len() == 0);
            }
        }
    }
    out
}

/// Handles `remove` with the command's argument list: the first argument
/// names the id. Replies "OK" when a note was deleted, "Not found" when no
/// note has that id, and names the problem when the argument is missing or
/// not an integer; only a successful deletion changes the table.
pub fn handle_remove(store: &mut NotesService, args: &Vec<String>) -> (r: String)
    requires
        old(store).wf(),
    ensures
        final(store).wf(),
        final(store)@.next_id == old(store)@.next_id,
        args.len() == 0 ==> r@ == "Note ID is required"@ && final(store)@.rows == old(
            store,
        )@.rows,
        args.len() > 0 ==> ({
            let parsed = parse_i32_spec(args.deep_view()[0]);
            match parsed {
                None => r@ == "Note ID is not an integer"@ && final(store)@.rows == old(
                    store,
                )@.rows,
                Some(id) => {
                    if exists|i: int|
                        0 <= i < old(store)@.rows.len() && (#[trigger] old(store)@.rows[i]).id
                            == id as int {
                        r@ == "OK"@ && (exists|i: int|
                            {
                                &&& 0 <= i < old(store)@.rows.len()
                                &&& (#[trigger] old(store)@.rows[i]).id == id as int
                                &&& final(store)@.rows == old(store)@.rows.remove(i)
                            })
                    } else {
                        r@ == "Not found"@ && final(store)@.rows == old(store)@.rows
                    }
                },
            }
        }),
{
    if args.len() == 0 {
        return String::from_str("Note ID is required");
    }
    let arg = &args[0];
    proof {
        assert(arg@ == args.deep_view()[0]);
    }
    match parse_i32(arg.as_str()) {
        None => String::from_str("Note ID is not an integer"),
        Some(id) => {
            if store.remove(id) {
                String::from_str("OK")
            } else {
                String::from_str("Not found")
            }
        },
    }
}

/// One search result: the note's id rendered as its external identifier,
/// its keyword display string as the visible title, and the content
/// variant that decides the renderable shape.
#[derive(Debug, Clone, PartialEq, Eq)]
pub struct QueryItem {
    pub id: String,
    pub title: String,
    pub data: NoteData,
}

pub struct QueryItemView {
    pub id: Seq<char>,
    pub title: Seq<char>,
    pub data: NoteDataView,
}

impl View for QueryItem {
    type V = QueryItemView;

    open spec fn view(&self) -> QueryItemView {
        QueryItemView { id: self.id@, title: self.title@, data: self.data@ }
    }
}

impl DeepView for QueryItem {
    type V = QueryItemView;

    open spec fn deep_view(&self) -> QueryItemView {
        self.view()
    }
}

/// The result item a matching note renders to.
pub open spec fn item_of_note(n: NoteView) -> QueryItemView {
    QueryItemView { id: dec_int(n.id), title: joined(n.keywords), data: n.data }
}

/// The result items of a sequence of matching notes, in order.
pub open spec fn items_of_notes(ns: Seq<NoteView>) -> Seq<QueryItemView> {
    ns.map_values(|n: NoteView| item_of_note(n))
}

/// Handles a free-text search: splits the query into keywords, runs the
/// containment query, and renders every match in table order.
pub fn handle_query(store: &NotesService, query: &str) -> (r: Vec<QueryItem>)
    requires
        store.wf(),
    ensures
        r.deep_view() == items_of_notes(query_spec(store@.rows, split_on_space(query@))),
{
    let keywords = Keywords::from_text(query);
    let notes = store.query(&keywords);
    let ghost nv = notes.deep_view();
    let mut out: Vec<QueryItem> = Vec::new();
    let mut i: usize = 0;
    proof {
        assert(out.deep_view() =~= items_of_notes(nv.take(0)));
    }
    while i < notes.len()
        invariant
            0 <= i <= notes.len(),
            nv == notes.deep_view(),
            nv.len() == notes.len(),
            out.deep_view() =~= items_of_notes(nv.take(i as int)),
        decreases notes.len() - i,
    {
        let note = &notes[i];
        let item = QueryItem {
            id: i32_to_string(note.id),
            title: note.keywords.as_string(),
            data: note.data.duplicate(),
        };
        proof {
            assert(note@ == nv[i as int]);
            assert(item@ == item_of_note(nv[i as int]));
        }
        out.push(item);
        proof {
            assert(out.deep_view() =~= out.deep_view().drop_last().push(
                item_of_note(nv[i as int]),
            ));
            assert(items_of_notes(nv.take(i + 1)) =~= items_of_notes(nv.take(i as int)).push(
                item_of_note(nv[i as int]),
            ));
        }
        i = i + 1;
    }
    proof {
        assert(nv.take(notes.len() as int) =~= nv);
    }
    out
}

} // verus!
