//! Note content: the closed set of media variants a note can hold, and the
//! normalizer that turns an inbound message payload into one of them.

use vstd::prelude::*;

use crate::keywords::Keywords;

verus! {

/// Content of a note: exactly one of the supported media kinds. File
/// references are opaque identifiers issued by the transport layer; a
/// location carries the raw bit patterns of its two coordinates, kept
/// verbatim for the presentation layer to interpret.
#[derive(Debug, Clone, PartialEq, Eq)]
pub enum NoteData {
    Animation { file_id: String },
    Audio { file_id: String },
    Document { file_id: String },
    Location { latitude_bits: u64, longitude_bits: u64 },
    Photo { file_id: String },
    Text(String),
    Video { file_id: String },
    Voice { file_id: String },
}

/// Mathematical model of `NoteData`.
pub enum NoteDataView {
    Animation { file_id: Seq<char> },
    Audio { file_id: Seq<char> },
    Document { file_id: Seq<char> },
    Location { latitude_bits: u64, longitude_bits: u64 },
    Photo { file_id: Seq<char> },
    Text(Seq<char>),
    Video { file_id: Seq<char> },
    Voice { file_id: Seq<char> },
}

impl View for NoteData {
    type V = NoteDataView;

    open spec fn view(&self) -> NoteDataView {
        match self {
            NoteData::Animation { file_id } => NoteDataView::Animation { file_id: file_id@ },
            NoteData::Audio { file_id } => NoteDataView::Audio { file_id: file_id@ },
            NoteData::Document { file_id } => NoteDataView::Document { file_id: file_id@ },
            NoteData::Location { latitude_bits, longitude_bits } => NoteDataView::Location {
                latitude_bits: *latitude_bits,
                longitude_bits: *longitude_bits,
            },
            NoteData::Photo { file_id } => NoteDataView::Photo { file_id: file_id@ },
            NoteData::Text(body) => NoteDataView::Text(body@),
            NoteData::Video { file_id } => NoteDataView::Video { file_id: file_id@ },
            NoteData::Voice { file_id } => NoteDataView::Voice { file_id: file_id@ },
        }
    }
}

impl DeepView for NoteData {
    type V = NoteDataView;

    open spec fn deep_view(&self) -> NoteDataView {
        self.view()
    }
}

/// One resolution variant of a photo, as delivered by the transport layer.
#[derive(Debug, Clone, PartialEq, Eq)]
pub struct PhotoSize {
    pub file_id: String,
    pub width: i64,
    pub height: i64,
}

pub struct PhotoSizeView {
    pub file_id: Seq<char>,
    pub width: int,
    pub height: int,
}

impl View for PhotoSize {
    type V = PhotoSizeView;

    open spec fn view(&self) -> PhotoSizeView {
        PhotoSizeView { file_id: self.file_id@, width: self.width as int, height: self.height as int }
    }
}

impl DeepView for PhotoSize {
    type V = PhotoSizeView;

    open spec fn deep_view(&self) -> PhotoSizeView {
        self.view()
    }
}

/// An inbound message payload as the capture logic reads it: the media kind
/// with its raw fields. Every payload kind outside the supported set is
/// `Unsupported`.
#[derive(Debug, Clone, PartialEq, Eq)]
pub enum MessageData {
    Animation { file_id: String },
    Audio { file_id: String },
    Document { file_id: String },
    Location { latitude_bits: u64, longitude_bits: u64 },
    Photo { sizes: Vec<PhotoSize> },
    Text { data: String },
    Video { file_id: String },
    Voice { file_id: String },
    Unsupported,
}

pub enum MessageDataView {
    Animation { file_id: Seq<char> },
    Audio { file_id: Seq<char> },
    Document { file_id: Seq<char> },
    Location { latitude_bits: u64, longitude_bits: u64 },
    Photo { sizes: Seq<PhotoSizeView> },
    Text { data: Seq<char> },
    Video { file_id: Seq<char> },
    Voice { file_id: Seq<char> },
    Unsupported,
}

impl View for MessageData {
    type V = MessageDataView;

    open spec fn view(&self) -> MessageDataView {
        match self {
            MessageData::Animation { file_id } => MessageDataView::Animation { file_id: file_id@ },
            MessageData::Audio { file_id } => MessageDataView::Audio { file_id: file_id@ },
            MessageData::Document { file_id } => MessageDataView::Document { file_id: file_id@ },
            MessageData::Location { latitude_bits, longitude_bits } => MessageDataView::Location {
                latitude_bits: *latitude_bits,
                longitude_bits: *longitude_bits,
            },
            MessageData::Photo { sizes } => MessageDataView::Photo { sizes: sizes.deep_view() },
            MessageData::Text { data } => MessageDataView::Text { data: data@ },
            MessageData::Video { file_id } => MessageDataView::Video { file_id: file_id@ },
            MessageData::Voice { file_id } => MessageDataView::Voice { file_id: file_id@ },
            MessageData::Unsupported => MessageDataView::Unsupported,
        }
    }
}

/// Why a payload could not be turned into note content.
#[derive(Debug, Clone, Copy, PartialEq, Eq, Structural)]
pub enum NoteDataError {
    /// A photo message carried an empty list of resolution variants.
    PhotoNotFound,
    /// The payload kind is outside the supported set.
    UnsupportedMessage,
}

/// The caller-facing description of a normalization failure.
pub open spec fn error_text(e: NoteDataError) -> Seq<char> {
    match e {
        NoteDataError::PhotoNotFound => "could not find photo"@,
        NoteDataError::UnsupportedMessage => "can not create note data from provided message"@,
    }
}

impl NoteDataError {
    /// Renders the failure for the caller.
    pub fn as_string(&self) -> (r: String)
        ensures
            r@ == error_text(*self),
    {
        match self {
            NoteDataError::PhotoNotFound => String::from_str("could not find photo"),
            NoteDataError::UnsupportedMessage => String::from_str(
                "can not create note data from provided message",
            ),
        }
    }
}

/// `a` is no larger than `b` in the `(width, height)` lexicographic order.
pub open spec fn size_le(a: PhotoSizeView, b: PhotoSizeView) -> bool {
    a.width < b.width || (a.width == b.width && a.height <= b.height)
}

/// Index of the selected photo variant: the last one that is maximal in the
/// `(width, height)` lexicographic order.
pub open spec fn pick_photo(sizes: Seq<PhotoSizeView>) -> int
    decreases sizes.len(),
{
    if sizes.len() <= 1 {
        0
    } else {
        let r = pick_photo(sizes.drop_last());
        if size_le(sizes[r], sizes.last()) {
            sizes.len() - 1
        } else {
            r
        }
    }
}

/// The selected photo variant is maximal, and it is the last maximal one.
pub proof fn lemma_pick_photo(sizes: Seq<PhotoSizeView>)
    requires
        sizes.len() >= 1,
    ensures
        0 <= pick_photo(sizes) < sizes.len(),
        forall|j: int|
            0 <= j < sizes.len() ==> size_le(#[trigger] sizes[j], sizes[pick_photo(sizes)]),
        forall|j: int|
            pick_photo(sizes) < j < sizes.len() ==> !size_le(
                sizes[pick_photo(sizes)],
                #[trigger] sizes[j],
            ),
    decreases sizes.len(),
{
    if sizes.len() > 1 {
        let d = sizes.drop_last();
        lemma_pick_photo(d);
        assert(forall|j: int| 0 <= j < d.len() ==> d[j] == #[trigger] sizes[j]);
        let r = pick_photo(d);
        assert(sizes[r] == d[r]);
        if size_le(sizes[r], sizes.last()) {
            assert(sizes.last() == sizes[sizes.len() - 1]);
            assert forall|j: int| 0 <= j < sizes.len() implies size_le(
                #[trigger] sizes[j],
                sizes[pick_photo(sizes)],
            ) by {
                if j < sizes.len() - 1 {
                    assert(size_le(sizes[j], sizes[r]));
                }
            }
        } else {
            assert(sizes.last() == sizes[sizes.len() - 1]);
        }
    }
}

/// What the normalizer yields for each payload kind: a 1:1 mapping for the
/// single-attachment kinds, text and location kept verbatim, the largest
/// photo variant selected, and a failure for an empty variant list or an
/// unsupported kind.
pub open spec fn normalized(m: MessageDataView) -> Result<NoteDataView, NoteDataError> {
    match m {
        MessageDataView::Animation { file_id } => Ok(NoteDataView::Animation { file_id }),
        MessageDataView::Audio { file_id } => Ok(NoteDataView::Audio { file_id }),
        MessageDataView::Document { file_id } => Ok(NoteDataView::Document { file_id }),
        MessageDataView::Location { latitude_bits, longitude_bits } => Ok(
            NoteDataView::Location { latitude_bits, longitude_bits },
        ),
        MessageDataView::Photo { sizes } => {
            if sizes.len() == 0 {
                Err(NoteDataError::PhotoNotFound)
            } else {
                Ok(NoteDataView::Photo { file_id: sizes[pick_photo(sizes)].file_id })
            }
        },
        MessageDataView::Text { data } => Ok(NoteDataView::Text(data)),
        MessageDataView::Video { file_id } => Ok(NoteDataView::Video { file_id }),
        MessageDataView::Voice { file_id } => Ok(NoteDataView::Voice { file_id }),
        MessageDataView::Unsupported => Err(NoteDataError::UnsupportedMessage),
    }
}

impl NoteData {
    /// Normalizes an inbound payload into note content, or reports why it
    /// cannot be.
    pub fn try_from(data: MessageData) -> (r: Result<NoteData, NoteDataError>)
        ensures
            ({
                let n = normalized(data@);
                match (r, n) {
                    (Ok(d), Ok(dv)) => d@ == dv,
                    (Err(e), Err(ev)) => e == ev,
                    _ => false,
                }
            }),
    {
        match data {
            MessageData::Animation { file_id } => Ok(NoteData::Animation { file_id }),
            MessageData::Audio { file_id } => Ok(NoteData::Audio { file_id }),
            MessageData::Document { file_id } => Ok(NoteData::Document { file_id }),
            MessageData::Location { latitude_bits, longitude_bits } => Ok(NoteData::Location {
                latitude_bits,
                longitude_bits,
            }),
            MessageData::Photo { sizes } => {
                let ghost sv = sizes.deep_view();
                if sizes.len() == 0 {
                    Err(NoteDataError::PhotoNotFound)
                } else {
                    let mut best: usize = 0;
                    let mut i: usize = 1;
                    proof {
                        assert(sv.take(1).len() == 1);
                    }
                    while i < sizes.len()
                        invariant
                            1 <= i <= sizes.len(),
                            0 <= best < i,
                            sv == sizes.deep_view(),
                            sv.len() == sizes.len(),
                            pick_photo(sv.take(i as int)) == best as int,
                        decreases sizes.len() - i,
                    {
                        let cand = &sizes[i];
                        let cur = &sizes[best];
                        let replace = cur.width < cand.width || (cur.width == cand.width
                            && cur.height <= cand.height);
                        proof {
                            let t = sv.take(i + 1);
                            assert(t.drop_last() =~= sv.take(i as int));
                            assert(t.last() == sv[i as int]);
                            assert(forall|k: int|
                                0 <= k < i ==> t[k] == #[trigger] sv.take(i as int)[k]);
                            assert(sv[best as int] == sizes[best as int].deep_view());
                            assert(sv[i as int] == sizes[i as int].deep_view());
                            assert(replace == size_le(sv[best as int], sv[i as int]));
                        }
                        if replace {
                            best = i;
                        }
                        i = i + 1;
                    }
                    proof {
                        assert(sv.take(sizes.len() as int) =~= sv);
                    }
                    Ok(NoteData::Photo { file_id: sizes[best].file_id.clone() })
                }
            },
            MessageData::Text { data } => Ok(NoteData::Text(data)),
            MessageData::Video { file_id } => Ok(NoteData::Video { file_id }),
            MessageData::Voice { file_id } => Ok(NoteData::Voice { file_id }),
            MessageData::Unsupported => Err(NoteDataError::UnsupportedMessage),
        }
    }

    /// An owned copy of this content, equal to it in the model.
    pub fn duplicate(&self) -> (r: NoteData)
        ensures
            r@ == self@,
    {
        match self {
            NoteData::Animation { file_id } => NoteData::Animation { file_id: file_id.clone() },
            NoteData::Audio { file_id } => NoteData::Audio { file_id: file_id.clone() },
            NoteData::Document { file_id } => NoteData::Document { file_id: file_id.clone() },
            NoteData::Location { latitude_bits, longitude_bits } => NoteData::Location {
                latitude_bits: *latitude_bits,
                longitude_bits: *longitude_bits,
            },
            NoteData::Photo { file_id } => NoteData::Photo { file_id: file_id.clone() },
            NoteData::Text(body) => NoteData::Text(body.clone()),
            NoteData::Video { file_id } => NoteData::Video { file_id: file_id.clone() },
            NoteData::Voice { file_id } => NoteData::Voice { file_id: file_id.clone() },
        }
    }

    /// Pairs this content with a keyword set, forming a note that has not
    /// yet been assigned an id.
    pub fn into_new(self, keywords: Keywords) -> (r: NewNote)
        ensures
            r@ == (NewNoteView { data: self@, keywords: keywords@ }),
    {
        NewNote { data: self, keywords }
    }
}

/// A note before the store has assigned it an id: content paired with its
/// keyword set.
#[derive(Debug, Clone, PartialEq, Eq)]
pub struct NewNote {
    data: NoteData,
    keywords: Keywords,
}

pub struct NewNoteView {
    pub data: NoteDataView,
    pub keywords: Seq<Seq<char>>,
}

impl View for NewNote {
    type V = NewNoteView;

    closed spec fn view(&self) -> NewNoteView {
        NewNoteView { data: self.data@, keywords: self.keywords@ }
    }
}

impl NewNote {
    /// The content to be stored.
    pub fn data(&self) -> (r: &NoteData)
        ensures
            r@ == self@.data,
    {
        &self.data
    }

    /// The keywords to be stored.
    pub fn keywords(&self) -> (r: &Keywords)
        ensures
            r@ == self@.keywords,
    {
        &self.keywords
    }

    /// Takes the pair apart for storage.
    pub fn into_parts(self) -> (r: (NoteData, Keywords))
        ensures
            r.0@ == self@.data,
            r.1@ == self@.keywords,
    {
        (self.data, self.keywords)
    }
}

} // verus!
