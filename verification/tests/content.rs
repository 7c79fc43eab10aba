use assistant::note::{MessageData, NoteData, NoteDataError, PhotoSize};

fn photo(file_id: &str, width: i64, height: i64) -> PhotoSize {
    PhotoSize { file_id: file_id.to_string(), width, height }
}

#[test]
fn animation_maps_to_animation() {
    let r = NoteData::try_from(MessageData::Animation { file_id: "fa".to_string() });
    assert_eq!(r, Ok(NoteData::Animation { file_id: "fa".to_string() }));
}

#[test]
fn audio_maps_to_audio() {
    let r = NoteData::try_from(MessageData::Audio { file_id: "fu".to_string() });
    assert_eq!(r, Ok(NoteData::Audio { file_id: "fu".to_string() }));
}

#[test]
fn document_maps_to_document() {
    let r = NoteData::try_from(MessageData::Document { file_id: "fd".to_string() });
    assert_eq!(r, Ok(NoteData::Document { file_id: "fd".to_string() }));
}

#[test]
fn location_maps_verbatim() {
    let r = NoteData::try_from(MessageData::Location {
        latitude_bits: 0x4049_0000_0000_0000,
        longitude_bits: 0xC045_0000_0000_0000,
    });
    assert_eq!(
        r,
        Ok(NoteData::Location {
            latitude_bits: 0x4049_0000_0000_0000,
            longitude_bits: 0xC045_0000_0000_0000,
        })
    );
}

#[test]
fn text_maps_to_text() {
    let r = NoteData::try_from(MessageData::Text { data: "hello".to_string() });
    assert_eq!(r, Ok(NoteData::Text("hello".to_string())));
}

#[test]
fn video_maps_to_video() {
    let r = NoteData::try_from(MessageData::Video { file_id: "fv".to_string() });
    assert_eq!(r, Ok(NoteData::Video { file_id: "fv".to_string() }));
}

#[test]
fn voice_maps_to_voice() {
    let r = NoteData::try_from(MessageData::Voice { file_id: "fw".to_string() });
    assert_eq!(r, Ok(NoteData::Voice { file_id: "fw".to_string() }));
}

#[test]
fn unsupported_kind_is_rejected() {
    let r = NoteData::try_from(MessageData::Unsupported);
    assert_eq!(r, Err(NoteDataError::UnsupportedMessage));
}

#[test]
fn photo_selects_lexicographically_greatest_variant() {
    let r = NoteData::try_from(MessageData::Photo {
        sizes: vec![photo("small", 100, 100), photo("wide", 200, 150), photo("big", 200, 200)],
    });
    assert_eq!(r, Ok(NoteData::Photo { file_id: "big".to_string() }));
}

#[test]
fn photo_ties_resolve_to_last_variant() {
    let r = NoteData::try_from(MessageData::Photo {
        sizes: vec![photo("first", 200, 200), photo("second", 200, 200)],
    });
    assert_eq!(r, Ok(NoteData::Photo { file_id: "second".to_string() }));
}

#[test]
fn empty_photo_list_is_rejected() {
    let r = NoteData::try_from(MessageData::Photo { sizes: Vec::new() });
    assert_eq!(r, Err(NoteDataError::PhotoNotFound));
}

#[test]
fn error_messages_match_their_meaning() {
    assert_eq!(NoteDataError::PhotoNotFound.as_string(), "could not find photo");
    assert_eq!(
        NoteDataError::UnsupportedMessage.as_string(),
        "can not create note data from provided message"
    );
}

#[test]
fn documents_round_trip_every_variant() {
    let samples = vec![
        NoteData::Animation { file_id: "a1".to_string() },
        NoteData::Audio { file_id: "a2".to_string() },
        NoteData::Document { file_id: "a3".to_string() },
        NoteData::Location { latitude_bits: 17, longitude_bits: u64::MAX },
        NoteData::Photo { file_id: "a4".to_string() },
        NoteData::Text("some body with spaces".to_string()),
        NoteData::Video { file_id: "a5".to_string() },
        NoteData::Voice { file_id: "a6".to_string() },
    ];
    for sample in samples {
        let doc = sample.to_document();
        assert_eq!(NoteData::from_document(doc.as_str()), Some(sample));
    }
}

#[test]
fn text_document_holds_tag_and_body() {
    let doc = NoteData::Text("hello".to_string()).to_document();
    assert_eq!(doc, "thello");
}

#[test]
fn location_document_is_decimal_around_colon() {
    let doc = NoteData::Location { latitude_bits: 5, longitude_bits: 600 }.to_document();
    assert_eq!(doc, "l5:600");
}

#[test]
fn malformed_documents_decode_to_nothing() {
    assert_eq!(NoteData::from_document(""), None);
    assert_eq!(NoteData::from_document("zoops"), None);
    assert_eq!(NoteData::from_document("l12"), None);
    assert_eq!(NoteData::from_document("l12:"), None);
    assert_eq!(NoteData::from_document("l:34"), None);
    assert_eq!(NoteData::from_document("lx:34"), None);
    assert_eq!(NoteData::from_document("l18446744073709551616:0"), None);
}
