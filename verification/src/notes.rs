//! The note store: a single logical table of `(id, content document,
//! keyword array)` rows. Ids are assigned by the store, strictly increasing
//! and never reused; rows are immutable once created, so the only
//! operations are create, containment query, list and delete.

use vstd::prelude::*;

use crate::document::{decoded, encoded, lemma_decoded_encoded};
use crate::keywords::Keywords;
use crate::note::{NewNote, NoteData, NoteDataView};
use crate::note_info::{NoteInfo, NoteInfoList, NoteInfoView};

verus! {

/// Occurrences of `k` among `s`.
pub open spec fn count_of(s: Seq<Seq<char>>, k: Seq<char>) -> int
    decreases s.len(),
{
    if s.len() == 0 {
        0
    } else {
        count_of(s.drop_last(), k) + if s.last() == k {
            1int
        } else {
            0int
        }
    }
}

/// The containment predicate of a keyword query: every query keyword is
/// covered by the note's keywords, duplicates counted — a query that names
/// a keyword twice matches only notes that carry it twice.
pub open spec fn covers(note_kws: Seq<Seq<char>>, query: Seq<Seq<char>>) -> bool {
    forall|k: Seq<char>| #[trigger] count_of(query, k) <= count_of(note_kws, k)
}

pub proof fn lemma_count_of_nonneg(s: Seq<Seq<char>>, k: Seq<char>)
    ensures
        count_of(s, k) >= 0,
    decreases s.len(),
{
    if s.len() > 0 {
        lemma_count_of_nonneg(s.drop_last(), k);
    }
}

/// A keyword counted at all occurs at some index.
pub proof fn lemma_count_of_pos(s: Seq<Seq<char>>, k: Seq<char>)
    requires
        count_of(s, k) > 0,
    ensures
        exists|i: int| 0 <= i < s.len() && s[i] == k,
    decreases s.len(),
{
    if s.len() > 0 {
        if s.last() == k {
            assert(s[s.len() - 1] == k);
        } else {
            lemma_count_of_pos(s.drop_last(), k);
            let i = choose|i: int| 0 <= i < s.drop_last().len() && s.drop_last()[i] == k;
            assert(s[i] == k);
        }
    }
}

fn count_occurrences(items: &Vec<String>, k: &String) -> (r: usize)
    ensures
        r as int == count_of(items.deep_view(), k@),
{
    let ghost sv = items.deep_view();
    let mut c: usize = 0;
    let mut j: usize = 0;
    while j < items.len()
        invariant
            0 <= j <= items.len(),
            sv == items.deep_view(),
            sv.len() == items.len(),
            c <= j,
            c as int == count_of(sv.take(j as int), k@),
        decreases items.len() - j,
    {
        let item = &items[j];
        proof {
            let t = sv.take(j + 1);
            assert(t.drop_last() =~= sv.take(j as int));
            assert(t.last() == sv[j as int]);
            assert(sv[j as int] == items[j as int]@);
        }
        if item.eq(k) {
            c = c + 1;
        }
        j = j + 1;
    }
    proof {
        assert(sv.take(items.len() as int) =~= sv);
    }
    c
}

/// Decides the containment predicate: does the note's keyword list cover
/// every keyword of the query, duplicates counted?
pub fn keyword_covers(note: &Keywords, query: &Keywords) -> (r: bool)
    ensures
        r == covers(note@, query@),
{
    let q = query.items();
    let nt = note.items();
    let ghost qv = query@;
    let ghost ntv = note@;
    let mut i: usize = 0;
    while i < q.len()
        invariant
            0 <= i <= q.len(),
            qv == q.deep_view(),
            ntv == nt.deep_view(),
            qv == query@,
            ntv == note@,
            qv.len() == q.len(),
            forall|j: int|
                0 <= j < i ==> count_of(qv, #[trigger] qv[j]) <= count_of(ntv, qv[j]),
        decreases q.len() - i,
    {
        let cq = count_occurrences(q, &q[i]);
        let cn = count_occurrences(nt, &q[i]);
        proof {
            assert(q[i as int]@ == qv[i as int]);
        }
        if cq > cn {
            proof {
                assert(count_of(qv, qv[i as int]) > count_of(ntv, qv[i as int]));
            }
            return false;
        }
        i = i + 1;
    }
    proof {
        assert forall|k: Seq<char>| #[trigger] count_of(qv, k) <= count_of(ntv, k) by {
            if count_of(qv, k) > 0 {
                lemma_count_of_pos(qv, k);
                let j = choose|j: int| 0 <= j < qv.len() && qv[j] == k;
                assert(count_of(qv, qv[j]) <= count_of(ntv, qv[j]));
            } else {
                lemma_count_of_nonneg(qv, k);
                lemma_count_of_nonneg(ntv, k);
            }
        }
    }
    true
}

/// A stored note as a query returns it: its id, its decoded content and its
/// keywords.
#[derive(Debug, Clone, PartialEq, Eq)]
pub struct Note {
    pub id: i32,
    pub data: NoteData,
    pub keywords: Keywords,
}

pub struct NoteView {
    pub id: int,
    pub data: NoteDataView,
    pub keywords: Seq<Seq<char>>,
}

impl View for Note {
    type V = NoteView;

    open spec fn view(&self) -> NoteView {
        NoteView { id: self.id as int, data: self.data@, keywords: self.keywords@ }
    }
}

impl DeepView for Note {
    type V = NoteView;

    open spec fn deep_view(&self) -> NoteView {
        self.view()
    }
}

/// Why a stored row could not be turned back into a note.
#[derive(Debug, Clone, Copy, PartialEq, Eq, Structural)]
pub enum NoteError {
    /// The row's content document does not decode to any note content.
    Deserialize,
}

impl Note {
    /// Rebuilds a note from the raw columns of a stored row; fails exactly
    /// when the content document is malformed.
    pub fn from_row(id: i32, doc: &str, keywords: Vec<String>) -> (r: Result<Note, NoteError>)
        ensures
            ({
                let d = decoded(doc@);
                match (r, d) {
                    (Ok(n), Some(dv)) => n@ == (NoteView {
                        id: id as int,
                        data: dv,
                        keywords: keywords.deep_view(),
                    }),
                    (Err(e), None) => e == NoteError::Deserialize,
                    _ => false,
                }
            }),
    {
        match NoteData::from_document(doc) {
            Some(data) => Ok(Note { id, data, keywords: Keywords::from(keywords) }),
            None => Err(NoteError::Deserialize),
        }
    }
}

/// In a table with strictly increasing ids, deleting the row that holds an
/// id leaves no row with that id: a removed note is gone from any
/// subsequent listing or query.
pub proof fn lemma_removed_id_gone(rows: Seq<RowView>, i: int, id: int)
    requires
        forall|a: int, b: int|
            0 <= a < b < rows.len() ==> (#[trigger] rows[a]).id < (#[trigger] rows[b]).id,
        0 <= i < rows.len(),
        rows[i].id == id,
    ensures
        forall|j: int| 0 <= j < rows.remove(i).len() ==> (#[trigger] rows.remove(i)[j]).id != id,
{
    rows.remove_ensures(i);
    assert forall|j: int| 0 <= j < rows.remove(i).len() implies (#[trigger] rows.remove(
        i,
    )[j]).id != id by {
        if j < i {
            assert(rows.remove(i)[j] == rows[j]);
            assert(rows[j].id < rows[i].id);
        } else {
            assert(rows.remove(i)[j] == rows[j + 1]);
            assert(rows[i].id < rows[j + 1].id);
        }
    }
}

/// One stored row: the assigned id, the encoded content document, and the
/// keyword array.
struct NoteRow {
    id: i32,
    doc: String,
    keywords: Keywords,
}

pub struct RowView {
    pub id: int,
    pub doc: Seq<char>,
    pub keywords: Seq<Seq<char>>,
}

impl View for NoteRow {
    type V = RowView;

    closed spec fn view(&self) -> RowView {
        RowView { id: self.id as int, doc: self.doc@, keywords: self.keywords@ }
    }
}

impl DeepView for NoteRow {
    type V = RowView;

    open spec fn deep_view(&self) -> RowView {
        self.view()
    }
}

/// The note a row denotes. Under the store's invariant every stored
/// document decodes, so the fallback arm is never taken.
pub open spec fn note_of_row(row: RowView) -> NoteView {
    NoteView {
        id: row.id,
        data: match decoded(row.doc) {
            Some(d) => d,
            None => NoteDataView::Text(Seq::empty()),
        },
        keywords: row.keywords,
    }
}

/// The notes a containment query returns: every row whose keywords cover
/// the query, in table order.
pub open spec fn query_spec(rows: Seq<RowView>, q: Seq<Seq<char>>) -> Seq<NoteView>
    decreases rows.len(),
{
    if rows.len() == 0 {
        Seq::empty()
    } else {
        let prefix = query_spec(rows.drop_last(), q);
        if covers(rows.last().keywords, q) {
            prefix.push(note_of_row(rows.last()))
        } else {
            prefix
        }
    }
}

/// Creating a note and then querying sees exactly the old results, plus
/// the new note — content decoded back as it went in — precisely when its
/// keywords cover the query.
pub proof fn lemma_create_then_query(
    rows: Seq<RowView>,
    id: int,
    data: NoteDataView,
    keywords: Seq<Seq<char>>,
    q: Seq<Seq<char>>,
)
    ensures
        ({
            let row = RowView { id, doc: encoded(data), keywords };
            let new_note = NoteView { id, data, keywords };
            query_spec(rows.push(row), q) == if covers(keywords, q) {
                query_spec(rows, q).push(new_note)
            } else {
                query_spec(rows, q)
            }
        }),
{
    let row = RowView { id, doc: encoded(data), keywords };
    let all = rows.push(row);
    assert(all.drop_last() =~= rows);
    assert(all.last() == row);
    lemma_decoded_encoded(data);
}

/// A query returns notes of covering rows and nothing else: every returned
/// note is the note of some row whose keywords cover the query, and every
/// covering row's note is returned.
pub proof fn lemma_query_members(rows: Seq<RowView>, q: Seq<Seq<char>>)
    ensures
        forall|k: int|
            0 <= k < query_spec(rows, q).len() ==> (exists|i: int|
                0 <= i < rows.len() && covers(rows[i].keywords, q) && #[trigger] query_spec(
                    rows,
                    q,
                )[k] == note_of_row(rows[i])),
        forall|i: int|
            0 <= i < rows.len() && covers((#[trigger] rows[i]).keywords, q) ==> query_spec(
                rows,
                q,
            ).contains(note_of_row(rows[i])),
    decreases rows.len(),
{
    if rows.len() > 0 {
        let d = rows.drop_last();
        lemma_query_members(d, q);
        let prefix = query_spec(d, q);
        let res = query_spec(rows, q);
        assert(forall|i: int| 0 <= i < d.len() ==> d[i] == #[trigger] rows[i]);
        assert forall|k: int| 0 <= k < res.len() implies (exists|i: int|
            0 <= i < rows.len() && covers(rows[i].keywords, q) && #[trigger] res[k]
                == note_of_row(rows[i])) by {
            if k < prefix.len() {
                assert(res[k] == prefix[k]);
                let i = choose|i: int|
                    0 <= i < d.len() && covers(d[i].keywords, q) && prefix[k] == note_of_row(
                        d[i],
                    );
                assert(covers(rows[i].keywords, q) && res[k] == note_of_row(rows[i]));
            } else {
                assert(covers(rows.last().keywords, q));
                assert(res[k] == note_of_row(rows[rows.len() - 1]));
            }
        }
        assert forall|i: int|
            0 <= i < rows.len() && covers((#[trigger] rows[i]).keywords, q) implies res.contains(
            note_of_row(rows[i]),
        ) by {
            if i < rows.len() - 1 {
                assert(prefix.contains(note_of_row(d[i])));
                let k = choose|k: int| 0 <= k < prefix.len() && prefix[k] == note_of_row(d[i]);
                assert(res[k] == note_of_row(rows[i]));
            } else {
                assert(res[res.len() - 1] == note_of_row(rows[i]));
            }
        }
    }
}

/// The listing entry of a row.
pub open spec fn info_of_row(row: RowView) -> NoteInfoView {
    NoteInfoView { id: row.id, keywords: row.keywords }
}

/// The listing entries of the whole table, in table order.
pub open spec fn infos_of_rows(rows: Seq<RowView>) -> Seq<NoteInfoView> {
    rows.map_values(|row: RowView| info_of_row(row))
}

/// The note table and its id counter.
pub struct NotesService {
    rows: Vec<NoteRow>,
    next_id: i32,
}

pub struct StoreView {
    pub rows: Seq<RowView>,
    pub next_id: int,
}

impl View for NotesService {
    type V = StoreView;

    closed spec fn view(&self) -> StoreView {
        StoreView { rows: self.rows.deep_view(), next_id: self.next_id as int }
    }
}

impl NotesService {
    /// The store's invariant: ids start at 1, are strictly increasing in
    /// table order and all below the next id to assign, and every stored
    /// document decodes to note content.
    pub open spec fn wf(&self) -> bool {
        &&& 1 <= self@.next_id
        &&& forall|i: int|
            0 <= i < self@.rows.len() ==> 1 <= (#[trigger] self@.rows[i]).id < self@.next_id
        &&& forall|i: int, j: int|
            0 <= i < j < self@.rows.len() ==> (#[trigger] self@.rows[i]).id < (
            #[trigger] self@.rows[j]).id
        &&& forall|i: int| 0 <= i < self@.rows.len() ==> decoded((#[trigger] self@.rows[i]).doc) is Some
    }

    /// An empty table; the first note will get id 1.
    pub fn new() -> (r: NotesService)
        ensures
            r.wf(),
            r@.rows == Seq::<RowView>::empty(),
            r@.next_id == 1,
    {
        let r = NotesService { rows: Vec::new(), next_id: 1 };
        proof {
            assert(r@.rows =~= Seq::<RowView>::empty());
        }
        r
    }

    /// Inserts one row holding the new note's encoded content and keywords,
    /// under the next id; nothing else changes.
    pub fn create(&mut self, note: NewNote)
        requires
            old(self).wf(),
            old(self)@.next_id < i32::MAX as int,
        ensures
            final(self).wf(),
            final(self)@.rows == old(self)@.rows.push(
                RowView {
                    id: old(self)@.next_id,
                    doc: encoded(note@.data),
                    keywords: note@.keywords,
                },
            ),
            final(self)@.next_id == old(self)@.next_id + 1,
    {
        let (data, keywords) = note.into_parts();
        let doc = data.to_document();
        let id = self.next_id;
        self.next_id = self.next_id + 1;
        let row = NoteRow { id, doc, keywords };
        proof {
            lemma_decoded_encoded(note@.data);
        }
        self.rows.push(row);
        proof {
            assert(self.rows.deep_view() =~= old(self).rows.deep_view().push(
                RowView { id: id as int, doc: encoded(note@.data), keywords: note@.keywords },
            ));
        }
    }

    /// Every note whose keywords cover the query, in table order. The query
    /// never fails: the invariant guarantees every stored document decodes.
    pub fn query(&self, keywords: &Keywords) -> (r: Vec<Note>)
        requires
            self.wf(),
        ensures
            r.deep_view() == query_spec(self@.rows, keywords@),
    {
        let ghost rowsv = self@.rows;
        let mut out: Vec<Note> = Vec::new();
        let mut i: usize = 0;
        proof {
            assert(out.deep_view() =~= Seq::<NoteView>::empty());
            assert(query_spec(rowsv.take(0), keywords@) == Seq::<NoteView>::empty());
        }
        while i < self.rows.len()
            invariant
                self.wf(),
                0 <= i <= self.rows.len(),
                rowsv == self@.rows,
                rowsv.len() == self.rows.len(),
                out.deep_view() == query_spec(rowsv.take(i as int), keywords@),
            decreases self.rows.len() - i,
        {
            let row = &self.rows[i];
            proof {
                assert(row@ == rowsv[i as int]);
                let t = rowsv.take(i + 1);
                assert(t.drop_last() =~= rowsv.take(i as int));
                assert(t.last() == rowsv[i as int]);
            }
            if keyword_covers(&row.keywords, keywords) {
                let data = match NoteData::from_document(row.doc.as_str()) {
                    Some(d) => d,
                    None => {
                        proof {
                            assert(decoded(rowsv[i as int].doc) is Some);
                        }
                        vstd::pervasive::unreached()
                    },
                };
                let note = Note { id: row.id, data, keywords: Keywords::from(row.keywords.to_vec()) };
                proof {
                    assert(note@ == note_of_row(rowsv[i as int]));
                }
                out.push(note);
                proof {
                    assert(out.deep_view() =~= out.deep_view().drop_last().push(
                        note_of_row(rowsv[i as int]),
                    ));
                }
            }
            i = i + 1;
        }
        proof {
            assert(rowsv.take(self.rows.len() as int) =~= rowsv);
        }
        out
    }

    /// The listing entries of every note, ordered by ascending id, ready
    /// for the paginator; content documents are not decoded.
    pub fn get_list(&self) -> (r: NoteInfoList)
        ensures
            r@.items == infos_of_rows(self@.rows),
            r@.index == 0,
    {
        let ghost rowsv = self@.rows;
        let mut infos: Vec<NoteInfo> = Vec::new();
        let mut i: usize = 0;
        while i < self.rows.len()
            invariant
                0 <= i <= self.rows.len(),
                rowsv == self@.rows,
                rowsv.len() == self.rows.len(),
                infos.deep_view() =~= infos_of_rows(rowsv.take(i as int)),
            decreases self.rows.len() - i,
        {
            let row = &self.rows[i];
            proof {
                assert(row@ == rowsv[i as int]);
            }
            infos.push(NoteInfo::new(row.id, row.keywords.to_vec()));
            proof {
                assert(infos.deep_view() =~= infos.deep_view().drop_last().push(
                    info_of_row(rowsv[i as int]),
                ));
                assert(infos_of_rows(rowsv.take(i + 1)) =~= infos_of_rows(
                    rowsv.take(i as int),
                ).push(info_of_row(rowsv[i as int])));
            }
            i = i + 1;
        }
        proof {
            assert(rowsv.take(self.rows.len() as int) =~= rowsv);
        }
        NoteInfoList::new(infos)
    }

    /// The listing is ordered by strictly ascending id: table order is id
    /// order.
    pub proof fn lemma_listing_ordered(&self)
        requires
            self.wf(),
        ensures
            forall|i: int, j: int|
                0 <= i < j < infos_of_rows(self@.rows).len() ==> (#[trigger] infos_of_rows(
                    self@.rows,
                )[i]).id < (#[trigger] infos_of_rows(self@.rows)[j]).id,
    {
        assert forall|i: int, j: int|
            0 <= i < j < infos_of_rows(self@.rows).len() implies (#[trigger] infos_of_rows(
            self@.rows,
        )[i]).id < (#[trigger] infos_of_rows(self@.rows)[j]).id by {
            assert(infos_of_rows(self@.rows)[i] == info_of_row(self@.rows[i]));
            assert(infos_of_rows(self@.rows)[j] == info_of_row(self@.rows[j]));
        }
    }

    /// The next id to assign is larger than every id in the table, so an
    /// id, once deleted, is never reused.
    pub proof fn lemma_assigned_ids_fresh(&self)
        requires
            self.wf(),
        ensures
            forall|i: int|
                0 <= i < self@.rows.len() ==> (#[trigger] self@.rows[i]).id < self@.next_id,
    {
    }

    /// Deletes the row with the given id if it exists. Returns whether a
    /// row was deleted; deleting an absent id is not an error and leaves
    /// the table unchanged.
    pub fn remove(&mut self, id: i32) -> (r: bool)
        requires
            old(self).wf(),
        ensures
            final(self).wf(),
            final(self)@.next_id == old(self)@.next_id,
            r <==> (exists|i: int|
                0 <= i < old(self)@.rows.len() && (#[trigger] old(self)@.rows[i]).id == id as int),
            !r ==> final(self)@.rows == old(self)@.rows,
            r ==> (exists|i: int|
                {
                    &&& 0 <= i < old(self)@.rows.len()
                    &&& (#[trigger] old(self)@.rows[i]).id == id as int
                    &&& final(self)@.rows == old(self)@.rows.remove(i)
                }),
    {
        let ghost rowsv = old(self)@.rows;
        let mut i: usize = 0;
        while i < self.rows.len()
            invariant
                old(self).wf(),
                0 <= i <= self.rows.len(),
                *self == *old(self),
                rowsv == self@.rows,
                rowsv.len() == self.rows.len(),
                forall|j: int| 0 <= j < i ==> (#[trigger] rowsv[j]).id != id as int,
            decreases self.rows.len() - i,
        {
            let row_id = self.rows[i].id;
            proof {
                assert(self.rows[i as int]@ == rowsv[i as int]);
            }
            if row_id == id {
                self.rows.remove(i);
                proof {
                    assert(self.rows.deep_view() =~= rowsv.remove(i as int)) by {
                        rowsv.remove_ensures(i as int);
                        old(self).rows@.remove_ensures(i as int);
                    }
                    rowsv.remove_ensures(i as int);
                    assert(final(self)@.rows == rowsv.remove(i as int));
                    assert forall|a: int, b: int|
                        0 <= a < b < final(self)@.rows.len() implies (
                    #[trigger] final(self)@.rows[a]).id < (#[trigger] final(self)@.rows[b]).id by {
                        let aa = if a < i { a } else { a + 1 };
                        let bb = if b < i { b } else { b + 1 };
                        assert(final(self)@.rows[a] == rowsv[aa]);
                        assert(final(self)@.rows[b] == rowsv[bb]);
                    }
                    assert forall|a: int| 0 <= a < final(self)@.rows.len() implies 1 <= (
                    #[trigger] final(self)@.rows[a]).id < final(self)@.next_id && decoded(
                        final(self)@.rows[a].doc,
                    ) is Some by {
                        let aa = if a < i { a } else { a + 1 };
                        assert(final(self)@.rows[a] == rowsv[aa]);
                        assert(1 <= rowsv[aa].id < old(self)@.next_id);
                        assert(decoded(rowsv[aa].doc) is Some);
                    }
                }
                return true;
            }
            i = i + 1;
        }
        false
    }
}

} // verus!
