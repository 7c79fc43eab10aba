//! Ordered keyword tags attached to notes and search queries.
//!
//! A keyword set is derived from caller text by splitting on single spaces:
//! no trimming, no case folding, so consecutive spaces yield empty tokens and
//! matching stays exact-token. Duplicates are kept and order is preserved.

use vstd::prelude::*;

verus! {

/// Index of the first occurrence of `sep` in `s`, or `s.len()` if absent.
pub open spec fn first_index_of(s: Seq<char>, sep: char) -> int
    decreases s.len(),
{
    if s.len() == 0 {
        0
    } else if s[0] == sep {
        0
    } else {
        1 + first_index_of(s.drop_first(), sep)
    }
}

/// Tokens of `s` between single occurrences of the space character.
pub open spec fn split_on_space(s: Seq<char>) -> Seq<Seq<char>>
    decreases s.len(),
{
    let i = first_index_of(s, ' ');
    if 0 <= i < s.len() {
        seq![s.take(i)] + split_on_space(s.skip(i + 1))
    } else {
        seq![s]
    }
}

/// The items joined with single occurrences of `sep` between them.
pub open spec fn joined_with(items: Seq<Seq<char>>, sep: char) -> Seq<char>
    decreases items.len(),
{
    if items.len() == 0 {
        Seq::empty()
    } else if items.len() == 1 {
        items[0]
    } else {
        items[0] + seq![sep] + joined_with(items.drop_first(), sep)
    }
}

/// The display form of a keyword sequence: items joined by single spaces.
pub open spec fn joined(items: Seq<Seq<char>>) -> Seq<char> {
    joined_with(items, ' ')
}

pub proof fn lemma_first_index_of_bounds(s: Seq<char>, sep: char)
    ensures
        0 <= first_index_of(s, sep) <= s.len(),
        forall|j: int| 0 <= j < first_index_of(s, sep) ==> s[j] != sep,
        first_index_of(s, sep) < s.len() ==> s[first_index_of(s, sep)] == sep,
    decreases s.len(),
{
    if s.len() == 0 {
    } else if s[0] == sep {
    } else {
        lemma_first_index_of_bounds(s.drop_first(), sep);
        assert forall|j: int| 0 <= j < first_index_of(s, sep) implies s[j] != sep by {
            if j > 0 {
                assert(s.drop_first()[j - 1] == s[j]);
            }
        }
        if first_index_of(s, sep) < s.len() {
            assert(s.drop_first()[first_index_of(s, sep) - 1] == s[first_index_of(s, sep)]);
        }
    }
}

proof fn lemma_joined_with_cons(items: Seq<Seq<char>>, sep: char)
    requires
        items.len() >= 2,
    ensures
        joined_with(items, sep) == items[0] + seq![sep] + joined_with(items.drop_first(), sep),
{
}

/// Appending one more item extends the joined form by a separator and the item.
pub proof fn lemma_joined_with_push(items: Seq<Seq<char>>, sep: char, item: Seq<char>)
    ensures
        items.len() == 0 ==> joined_with(items.push(item), sep) == item,
        items.len() > 0 ==> joined_with(items.push(item), sep) == joined_with(items, sep)
            + seq![sep] + item,
    decreases items.len(),
{
    let p = items.push(item);
    if items.len() == 0 {
        assert(p.len() == 1);
        assert(joined_with(p, sep) == p[0]);
        assert(p[0] == item);
    } else if items.len() == 1 {
        assert(p.drop_first() =~= seq![item]);
        assert(joined_with(p.drop_first(), sep) == item);
        assert(p[0] == items[0]);
        assert(joined_with(items, sep) == items[0]);
    } else {
        assert(p.drop_first() =~= items.drop_first().push(item));
        lemma_joined_with_push(items.drop_first(), sep, item);
        assert(joined_with(p, sep) == p[0] + seq![sep] + joined_with(p.drop_first(), sep));
        assert(p[0] == items[0]);
        assert(items[0] + seq![sep] + (joined_with(items.drop_first(), sep) + seq![sep] + item)
            =~= (items[0] + seq![sep] + joined_with(items.drop_first(), sep)) + seq![sep] + item);
    }
}

/// Splitting on spaces and joining the tokens back with spaces restores the
/// original text exactly, empty tokens included.
pub proof fn lemma_joined_split_on_space(s: Seq<char>)
    ensures
        joined(split_on_space(s)) == s,
    decreases s.len(),
{
    let i = first_index_of(s, ' ');
    lemma_first_index_of_bounds(s, ' ');
    if 0 <= i < s.len() {
        let rest = s.skip(i + 1);
        lemma_joined_split_on_space(rest);
        let parts = seq![s.take(i)] + split_on_space(rest);
        assert(split_on_space(rest).len() >= 1);
        assert(parts.len() >= 2);
        assert(parts.drop_first() =~= split_on_space(rest));
        lemma_joined_with_cons(parts, ' ');
        assert(parts[0] == s.take(i));
        assert(joined(parts) == s.take(i) + seq![' '] + rest);
        assert(s.take(i) + seq![' '] + rest =~= s);
    } else {
        assert(split_on_space(s) == seq![s]);
        assert(joined(seq![s]) == s);
    }
}

/// A sequence of search tags: ordered, duplicates permitted, possibly empty.
#[derive(Debug, Clone, PartialEq, Eq)]
pub struct Keywords {
    items: Vec<String>,
}

impl View for Keywords {
    type V = Seq<Seq<char>>;

    closed spec fn view(&self) -> Seq<Seq<char>> {
        self.items.deep_view()
    }
}

impl DeepView for Keywords {
    type V = Seq<Seq<char>>;

    open spec fn deep_view(&self) -> Seq<Seq<char>> {
        self.view()
    }
}

/// Joins the items with a single space between consecutive ones.
pub fn join_spaced(items: &Vec<String>) -> (r: String)
    ensures
        r@ == joined(items.deep_view()),
{
    let ghost all = items.deep_view();
    let mut r = String::new();
    let mut i: usize = 0;
    proof {
        reveal_strlit(" ");
        assert(all.take(0) =~= Seq::<Seq<char>>::empty());
    }
    while i < items.len()
        invariant
            0 <= i <= items.len(),
            all == items.deep_view(),
            all.len() == items.len(),
            r@ == joined(all.take(i as int)),
            " "@ == seq![' '],
        decreases items.len() - i,
    {
        if i > 0 {
            r.append(" ");
        }
        r.append(items[i].as_str());
        proof {
            assert(all.take(i as int).push(all[i as int]) =~= all.take(i + 1));
            lemma_joined_with_push(all.take(i as int), ' ', all[i as int]);
            assert(items[i as int]@ == all[i as int]);
        }
        i = i + 1;
    }
    proof {
        assert(all.take(items.len() as int) =~= all);
    }
    r
}

/// Clones a vector of strings; the model of the copy is that of the source.
pub fn clone_strings(items: &Vec<String>) -> (r: Vec<String>)
    ensures
        r.deep_view() == items.deep_view(),
{
    let mut r: Vec<String> = Vec::new();
    let mut i: usize = 0;
    while i < items.len()
        invariant
            0 <= i <= items.len(),
            r.deep_view() =~= items.deep_view().take(i as int),
        decreases items.len() - i,
    {
        r.push(items[i].clone());
        proof {
            assert(r.deep_view() =~= r.deep_view().drop_last().push(items[i as int]@));
            assert(items.deep_view().take(i as int).push(items[i as int]@)
                =~= items.deep_view().take(i + 1));
        }
        i = i + 1;
    }
    proof {
        assert(items.deep_view().take(items.len() as int) =~= items.deep_view());
    }
    r
}

impl Keywords {
    /// Builds a keyword set from an ordered list of tags, keeping order and
    /// duplicates; this is also how a stored keyword array is reloaded.
    pub fn from(items: Vec<String>) -> (r: Keywords)
        ensures
            r@ == items.deep_view(),
    {
        Keywords { items }
    }

    /// The display string: keywords joined by single spaces; it doubles as a
    /// note's title and as the literal search tokens.
    pub fn as_string(&self) -> (r: String)
        ensures
            r@ == joined(self@),
    {
        join_spaced(&self.items)
    }

    /// The underlying tags in order; this is the stored representation.
    pub fn items(&self) -> (r: &Vec<String>)
        ensures
            r.deep_view() == self@,
    {
        &self.items
    }

    /// An owned copy of the tags, for handing to storage.
    pub fn to_vec(&self) -> (r: Vec<String>)
        ensures
            r.deep_view() == self@,
    {
        clone_strings(&self.items)
    }

    /// Derives the keyword set from free caller text by splitting on single
    /// spaces, with no trimming and no deduplication.
    pub fn from_text(text: &str) -> (r: Keywords)
        ensures
            r@ == split_on_space(text@),
    {
        let n = text.unicode_len();
        let mut items: Vec<String> = Vec::new();
        let mut start: usize = 0;
        proof {
            assert(items.deep_view() =~= Seq::<Seq<char>>::empty());
            assert(Seq::<Seq<char>>::empty() + split_on_space(text@.skip(0)) =~= split_on_space(
                text@.skip(0),
            ));
            assert(text@.skip(0) =~= text@);
        }
        loop
            invariant_except_break
                0 <= start <= n,
                n == text@.len(),
                split_on_space(text@) == items.deep_view() + split_on_space(
                    text@.skip(start as int),
                ),
            ensures
                split_on_space(text@) == items.deep_view(),
            decreases n - start,
        {
            let ghost rest = text@.skip(start as int);
            let mut j: usize = start;
            while j < n && text.get_char(j) != ' '
                invariant
                    start <= j <= n,
                    n == text@.len(),
                    forall|k: int| start <= k < j ==> text@[k] != ' ',
                decreases n - j,
            {
                j = j + 1;
            }
            proof {
                lemma_first_index_of_bounds(rest, ' ');
                assert forall|k: int| 0 <= k < j - start implies rest[k] != ' ' by {
                    assert(rest[k] == text@[k + start]);
                }
                if j < n {
                    assert(rest[j - start] == text@[j as int]);
                    assert(rest[j - start] == ' ');
                }
                assert(first_index_of(rest, ' ') == j - start) by {
                    let f = first_index_of(rest, ' ');
                    if f < j - start {
                        assert(rest[f] != ' ');
                    }
                    if f > j - start {
                        assert(j - start < rest.len());
                        assert(rest[j - start] == ' ');
                    }
                }
            }
            let token = text.substring_char(start, j).to_owned();
            proof {
                assert(token@ =~= rest.take(j - start));
            }
            items.push(token);
            if j == n {
                proof {
                    assert(rest.take(j - start) =~= rest);
                    assert(items.deep_view() =~= items.deep_view().drop_last().push(rest));
                    assert(split_on_space(rest) == seq![rest]);
                    assert(items.deep_view().drop_last() + seq![rest] =~= items.deep_view());
                }
                break;
            }
            proof {
                let token_v = rest.take(j - start);
                assert(split_on_space(rest) == seq![token_v] + split_on_space(
                    rest.skip(j - start + 1),
                ));
                assert(rest.skip(j - start + 1) =~= text@.skip(j + 1));
                assert(items.deep_view() =~= items.deep_view().drop_last().push(token_v));
                assert(items.deep_view().drop_last() + (seq![token_v] + split_on_space(
                    text@.skip(j + 1),
                )) =~= items.deep_view() + split_on_space(text@.skip(j + 1)));
            }
            start = j + 1;
        }
        Keywords { items }
    }
}

} // verus!
