//! Storage encoding of note content: a self-describing document made of a
//! one-character kind tag followed by the variant's fields. A location's two
//! coordinate words are written in decimal around a colon; every other
//! variant carries its file reference or text body verbatim. Decoding is the
//! exact inverse, so a stored note always comes back as it went in.

use vstd::prelude::*;

use crate::keywords::{first_index_of, lemma_first_index_of_bounds};
use crate::note::{NoteData, NoteDataView};
use crate::numbers::{
    dec_digits, lemma_dec_digits, parse_u64, parse_u64_spec, u64_to_string,
};

verus! {

/// The document text that encodes the given content.
pub open spec fn encoded(d: NoteDataView) -> Seq<char> {
    match d {
        NoteDataView::Animation { file_id } => seq!['a'] + file_id,
        NoteDataView::Audio { file_id } => seq!['u'] + file_id,
        NoteDataView::Document { file_id } => seq!['d'] + file_id,
        NoteDataView::Location { latitude_bits, longitude_bits } => seq!['l'] + dec_digits(
            latitude_bits as int,
        ) + seq![':'] + dec_digits(longitude_bits as int),
        NoteDataView::Photo { file_id } => seq!['p'] + file_id,
        NoteDataView::Text(body) => seq!['t'] + body,
        NoteDataView::Video { file_id } => seq!['v'] + file_id,
        NoteDataView::Voice { file_id } => seq!['w'] + file_id,
    }
}

/// The location payload a document body denotes, if well-formed: two
/// decimal coordinate words around the first colon.
pub open spec fn decoded_location(rest: Seq<char>) -> Option<NoteDataView> {
    let i = first_index_of(rest, ':');
    if 0 <= i < rest.len() {
        match (parse_u64_spec(rest.take(i)), parse_u64_spec(rest.skip(i + 1))) {
            (Some(lat), Some(lon)) => Some(
                NoteDataView::Location { latitude_bits: lat, longitude_bits: lon },
            ),
            _ => None,
        }
    } else {
        None
    }
}

/// The content a document denotes, if it is well-formed.
pub open spec fn decoded(doc: Seq<char>) -> Option<NoteDataView> {
    if doc.len() == 0 {
        None
    } else {
        let rest = doc.drop_first();
        if doc[0] == 'a' {
            Some(NoteDataView::Animation { file_id: rest })
        } else if doc[0] == 'u' {
            Some(NoteDataView::Audio { file_id: rest })
        } else if doc[0] == 'd' {
            Some(NoteDataView::Document { file_id: rest })
        } else if doc[0] == 'l' {
            decoded_location(rest)
        } else if doc[0] == 'p' {
            Some(NoteDataView::Photo { file_id: rest })
        } else if doc[0] == 't' {
            Some(NoteDataView::Text(rest))
        } else if doc[0] == 'v' {
            Some(NoteDataView::Video { file_id: rest })
        } else if doc[0] == 'w' {
            Some(NoteDataView::Voice { file_id: rest })
        } else {
            None
        }
    }
}

/// Decoding inverts encoding: a stored document always denotes the content
/// it was encoded from.
pub proof fn lemma_decoded_encoded(d: NoteDataView)
    ensures
        decoded(encoded(d)) == Some(d),
{
    let doc = encoded(d);
    match d {
        NoteDataView::Location { latitude_bits, longitude_bits } => {
            let a = dec_digits(latitude_bits as int);
            let b = dec_digits(longitude_bits as int);
            lemma_dec_digits(latitude_bits as int);
            lemma_dec_digits(longitude_bits as int);
            let rest = doc.drop_first();
            assert(doc[0] == 'l');
            assert(rest =~= a + seq![':'] + b);
            let i = first_index_of(rest, ':');
            lemma_first_index_of_bounds(rest, ':');
            assert(rest[a.len() as int] == ':');
            assert(forall|j: int| 0 <= j < a.len() ==> rest[j] == a[j]);
            if i < a.len() {
                assert(rest[i] == a[i]);
                assert(rest[i] == ':');
            }
            if i > a.len() {
                assert(rest[a.len() as int] != ':');
            }
            assert(i == a.len());
            assert(rest.take(i) =~= a);
            assert(rest.skip(i + 1) =~= b);
        },
        _ => {
            assert(doc.drop_first() =~= match d {
                NoteDataView::Animation { file_id } => file_id,
                NoteDataView::Audio { file_id } => file_id,
                NoteDataView::Document { file_id } => file_id,
                NoteDataView::Photo { file_id } => file_id,
                NoteDataView::Text(body) => body,
                NoteDataView::Video { file_id } => file_id,
                NoteDataView::Voice { file_id } => file_id,
                _ => Seq::empty(),
            });
        },
    }
}

fn tagged(tag: &str, payload: &str) -> (r: String)
    ensures
        r@ == tag@ + payload@,
{
    let mut s = tag.to_owned();
    s.append(payload);
    s
}

impl NoteData {
    /// Encodes this content as its storage document.
    pub fn to_document(&self) -> (r: String)
        ensures
            r@ == encoded(self@),
    {
        match self {
            NoteData::Animation { file_id } => {
                let r = tagged("a", file_id.as_str());
                proof {
                    reveal_strlit("a");
                    assert(r@ =~= seq!['a'] + file_id@);
                }
                r
            },
            NoteData::Audio { file_id } => {
                let r = tagged("u", file_id.as_str());
                proof {
                    reveal_strlit("u");
                    assert(r@ =~= seq!['u'] + file_id@);
                }
                r
            },
            NoteData::Document { file_id } => {
                let r = tagged("d", file_id.as_str());
                proof {
                    reveal_strlit("d");
                    assert(r@ =~= seq!['d'] + file_id@);
                }
                r
            },
            NoteData::Location { latitude_bits, longitude_bits } => {
                let mut s = String::from_str("l");
                let lat = u64_to_string(*latitude_bits);
                let lon = u64_to_string(*longitude_bits);
                s.append(lat.as_str());
                s.append(":");
                s.append(lon.as_str());
                proof {
                    reveal_strlit("l");
                    reveal_strlit(":");
                    assert(s@ =~= seq!['l'] + dec_digits(*latitude_bits as int) + seq![':']
                        + dec_digits(*longitude_bits as int));
                }
                s
            },
            NoteData::Photo { file_id } => {
                let r = tagged("p", file_id.as_str());
                proof {
                    reveal_strlit("p");
                    assert(r@ =~= seq!['p'] + file_id@);
                }
                r
            },
            NoteData::Text(body) => {
                let r = tagged("t", body.as_str());
                proof {
                    reveal_strlit("t");
                    assert(r@ =~= seq!['t'] + body@);
                }
                r
            },
            NoteData::Video { file_id } => {
                let r = tagged("v", file_id.as_str());
                proof {
                    reveal_strlit("v");
                    assert(r@ =~= seq!['v'] + file_id@);
                }
                r
            },
            NoteData::Voice { file_id } => {
                let r = tagged("w", file_id.as_str());
                proof {
                    reveal_strlit("w");
                    assert(r@ =~= seq!['w'] + file_id@);
                }
                r
            },
        }
    }

    /// Decodes a storage document back into note content; a document that no
    /// content encodes to yields nothing.
    #[verifier::loop_isolation(false)]
    pub fn from_document(doc: &str) -> (r: Option<NoteData>)
        ensures
            ({
                let s = decoded(doc@);
                match (r, s) {
                    (Some(d), Some(dv)) => d@ == dv,
                    (None, None) => true,
                    _ => false,
                }
            }),
    {
        let n = doc.unicode_len();
        if n == 0 {
            return None;
        }
        let tag = doc.get_char(0);
        let rest = doc.substring_char(1, n);
        proof {
            assert(rest@ =~= doc@.drop_first());
        }
        if tag == 'a' {
            Some(NoteData::Animation { file_id: rest.to_owned() })
        } else if tag == 'u' {
            Some(NoteData::Audio { file_id: rest.to_owned() })
        } else if tag == 'd' {
            Some(NoteData::Document { file_id: rest.to_owned() })
        } else if tag == 'l' {
            let m = rest.unicode_len();
            let mut i: usize = 0;
            while i < m && rest.get_char(i) != ':'
                invariant
                    0 <= i <= m,
                    forall|k: int| 0 <= k < i ==> rest@[k] != ':',
                decreases m - i,
            {
                i = i + 1;
            }
            proof {
                lemma_first_index_of_bounds(rest@, ':');
                assert(first_index_of(rest@, ':') == i as int) by {
                    let f = first_index_of(rest@, ':');
                    if f < i {
                        assert(rest@[f] != ':');
                    }
                    if f > i {
                        assert(i < m);
                        assert(rest@[i as int] == ':');
                    }
                }
            }
            if i == m {
                None
            } else {
                let lat_s = rest.substring_char(0, i);
                let lon_s = rest.substring_char(i + 1, m);
                proof {
                    assert(lat_s@ =~= rest@.take(i as int));
                    assert(lon_s@ =~= rest@.skip(i + 1));
                }
                let lat = parse_u64(lat_s);
                let lon = parse_u64(lon_s);
                match (lat, lon) {
                    (Some(lat), Some(lon)) => Some(
                        NoteData::Location { latitude_bits: lat, longitude_bits: lon },
                    ),
                    _ => None,
                }
            }
        } else if tag == 'p' {
            Some(NoteData::Photo { file_id: rest.to_owned() })
        } else if tag == 't' {
            Some(NoteData::Text(rest.to_owned()))
        } else if tag == 'v' {
            Some(NoteData::Video { file_id: rest.to_owned() })
        } else if tag == 'w' {
            Some(NoteData::Voice { file_id: rest.to_owned() })
        } else {
            None
        }
    }
}

} // verus!
