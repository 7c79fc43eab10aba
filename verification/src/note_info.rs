//! Display lines for stored notes and the paginator that packs them into
//! size-bounded chunks of list output.
//!
//! Each note renders as one line: its id between backticks, an escaped
//! hyphen, then its keywords joined by spaces (the destination renderer
//! treats an unescaped hyphen as a control character). A line longer than
//! the budget is cut to three characters under it and finished with `...`.
//! Consecutive lines are packed greedily into chunks whose cumulative line
//! length stays within the budget; newline separators are not counted.

use vstd::prelude::*;

use crate::keywords::{join_spaced, joined, joined_with, lemma_joined_with_push};
use crate::numbers::{dec_int, i32_to_string};

verus! {

/// Budget, in characters, for one display line and for one output chunk.
pub const MAX_LIST_ITEM_LEN: usize = 4096;

/// The id and keywords of one stored note, as the listing shows it.
#[derive(Debug, Clone, PartialEq, Eq)]
pub struct NoteInfo {
    id: i32,
    keywords: Vec<String>,
}

pub struct NoteInfoView {
    pub id: int,
    pub keywords: Seq<Seq<char>>,
}

impl View for NoteInfo {
    type V = NoteInfoView;

    closed spec fn view(&self) -> NoteInfoView {
        NoteInfoView { id: self.id as int, keywords: self.keywords.deep_view() }
    }
}

impl DeepView for NoteInfo {
    type V = NoteInfoView;

    open spec fn deep_view(&self) -> NoteInfoView {
        self.view()
    }
}

/// A note's display line before the budget is applied.
pub open spec fn raw_line(info: NoteInfoView) -> Seq<char> {
    seq!['`'] + dec_int(info.id) + seq!['`', ' ', '\\', '-', ' '] + joined(info.keywords)
}

/// A note's display line: the raw line, cut to the budget if it is longer.
pub open spec fn line_of(info: NoteInfoView) -> Seq<char> {
    let s = raw_line(info);
    if s.len() > MAX_LIST_ITEM_LEN as int {
        s.take(MAX_LIST_ITEM_LEN as int - 3) + seq!['.', '.', '.']
    } else {
        s
    }
}

/// A display line never exceeds the budget.
pub proof fn lemma_line_le_budget(info: NoteInfoView)
    ensures
        line_of(info).len() <= MAX_LIST_ITEM_LEN as int,
{
}

/// The display lines of a run of notes.
pub open spec fn lines_of(items: Seq<NoteInfoView>) -> Seq<Seq<char>> {
    items.map_values(|it: NoteInfoView| line_of(it))
}

/// One chunk of list output: the display lines joined by newlines.
pub open spec fn chunk_text(items: Seq<NoteInfoView>) -> Seq<char> {
    joined_with(lines_of(items), '\n')
}

/// Where the chunk that begins at `start` ends, with `used` of the budget
/// already spent: lines are taken greedily while the cumulative line length
/// stays within the budget.
pub open spec fn pack_end(items: Seq<NoteInfoView>, start: int, used: int) -> int
    decreases items.len() - start,
{
    if start < 0 || start >= items.len() {
        start
    } else if used + line_of(items[start]).len() > MAX_LIST_ITEM_LEN as int {
        start
    } else {
        pack_end(items, start + 1, used + line_of(items[start]).len() as int)
    }
}

/// A chunk stays inside the item list, and a chunk started on a real item
/// always takes at least that item.
pub proof fn lemma_pack_end_bounds(items: Seq<NoteInfoView>, start: int, used: int)
    requires
        0 <= start <= items.len(),
    ensures
        start <= pack_end(items, start, used) <= items.len(),
    decreases items.len() - start,
{
    if start < items.len() && !(used + line_of(items[start]).len() > MAX_LIST_ITEM_LEN as int) {
        lemma_pack_end_bounds(items, start + 1, used + line_of(items[start]).len() as int);
    }
}

/// Every chunk that starts on a real item makes progress.
pub proof fn lemma_pack_end_progress(items: Seq<NoteInfoView>, start: int)
    requires
        0 <= start < items.len(),
    ensures
        start < pack_end(items, start, 0) <= items.len(),
{
    lemma_line_le_budget(items[start]);
    lemma_pack_end_bounds(items, start + 1, line_of(items[start]).len() as int);
}

impl NoteInfo {
    /// Builds the listing entry for a note.
    pub fn new(id: i32, keywords: Vec<String>) -> (r: NoteInfo)
        ensures
            r@ == (NoteInfoView { id: id as int, keywords: keywords.deep_view() }),
    {
        NoteInfo { id, keywords }
    }

    /// Renders the display line, applying the budget.
    pub fn as_string(&self) -> (r: String)
        ensures
            r@ == line_of(self@),
    {
        let mut s = String::from_str("`");
        let id_str = i32_to_string(self.id);
        s.append(id_str.as_str());
        s.append("` \\- ");
        let kw = join_spaced(&self.keywords);
        s.append(kw.as_str());
        proof {
            reveal_strlit("`");
            reveal_strlit("` \\- ");
            assert("`"@ =~= seq!['`']);
            assert("` \\- "@ =~= seq!['`', ' ', '\\', '-', ' ']);
            assert(s@ =~= raw_line(self@));
        }
        if s.as_str().unicode_len() > MAX_LIST_ITEM_LEN {
            let mut t = s.as_str().substring_char(0, MAX_LIST_ITEM_LEN - 3).to_owned();
            t.append("...");
            proof {
                reveal_strlit("...");
                assert("..."@ =~= seq!['.', '.', '.']);
                assert(t@ =~= line_of(self@));
            }
            t
        } else {
            s
        }
    }
}

/// A finite, non-restartable producer of list chunks: each call to `next`
/// consumes a greedy run of notes and yields their chunk, until the notes
/// are exhausted.
pub struct NoteInfoList {
    items: Vec<NoteInfo>,
    current_index: usize,
}

pub struct NoteInfoListView {
    pub items: Seq<NoteInfoView>,
    pub index: int,
}

impl View for NoteInfoList {
    type V = NoteInfoListView;

    closed spec fn view(&self) -> NoteInfoListView {
        NoteInfoListView { items: self.items.deep_view(), index: self.current_index as int }
    }
}

impl NoteInfoList {
    /// Starts a listing over the given entries.
    pub fn new(items: Vec<NoteInfo>) -> (r: NoteInfoList)
        ensures
            r@.items == items.deep_view(),
            r@.index == 0,
    {
        NoteInfoList { items, current_index: 0 }
    }

    /// Yields the next chunk, or nothing once the entries are exhausted.
    /// Each produced chunk starts at the current position and takes lines
    /// greedily while their cumulative length stays within the budget, so a
    /// produced chunk always advances the position.
    pub fn next(&mut self) -> (r: Option<String>)
        ensures
            old(self)@.index >= old(self)@.items.len() ==> r is None && *final(self) == *old(self),
            old(self)@.index < old(self)@.items.len() ==> ({
                let end = pack_end(old(self)@.items, old(self)@.index, 0);
                &&& r matches Some(chunk) && chunk@ == chunk_text(
                    old(self)@.items.subrange(old(self)@.index, end),
                )
                &&& final(self)@.items == old(self)@.items
                &&& final(self)@.index == end
                &&& old(self)@.index < end
            }),
    {
        let total = self.items.len();
        if self.current_index >= total {
            return None;
        }
        let ghost itemsv = self@.items;
        let ghost start = self.current_index as int;
        proof {
            lemma_pack_end_progress(itemsv, start);
        }
        let mut idx = self.current_index;
        let mut size: usize = 0;
        let mut chunk = String::new();
        proof {
            assert(lines_of(itemsv.subrange(start, start)) =~= Seq::<Seq<char>>::empty());
            reveal_strlit("\n");
            assert("\n"@ =~= seq!['\n']);
        }
        while idx < total
            invariant_except_break
                itemsv == self.items.deep_view(),
                start == self.current_index as int,
                total == self.items.len(),
                start <= idx as int <= total as int,
                size <= MAX_LIST_ITEM_LEN,
                pack_end(itemsv, start, 0) == pack_end(itemsv, idx as int, size as int),
                chunk@ == chunk_text(itemsv.subrange(start, idx as int)),
                "\n"@ == seq!['\n'],
            ensures
                itemsv == self.items.deep_view(),
                start == self.current_index as int,
                start <= idx as int <= total as int,
                pack_end(itemsv, start, 0) == idx as int,
                chunk@ == chunk_text(itemsv.subrange(start, idx as int)),
            decreases total - idx,
        {
            let line = self.items[idx].as_string();
            let len = line.as_str().unicode_len();
            proof {
                lemma_line_le_budget(itemsv[idx as int]);
            }
            if size + len > MAX_LIST_ITEM_LEN {
                break;
            }
            if idx > self.current_index {
                chunk.append("\n");
            }
            chunk.append(line.as_str());
            proof {
                let sub = itemsv.subrange(start, idx as int);
                let sub1 = itemsv.subrange(start, idx + 1);
                assert(lines_of(sub1) =~= lines_of(sub).push(line_of(itemsv[idx as int])));
                lemma_joined_with_push(lines_of(sub), '\n', line_of(itemsv[idx as int]));
            }
            size = size + len;
            idx = idx + 1;
        }
        self.current_index = idx;
        Some(chunk)
    }
}

} // verus!
