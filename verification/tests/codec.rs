use bookmaker::codec::{decode_payload, encode_listing, encode_payload};
use bookmaker::messages::{
    BmcMessage, Comic, ComicEntry, ComicListing, ComicSource, ListComics, MessagePayload,
    TrackComic, TrackReader, UntrackComic, UntrackReader, UpdateComic, UpdateReader,
};

fn track_reader(label: &str, name: &str, up: bool) -> TrackReader {
    TrackReader { comic_label: label.to_string(), name: name.to_string(), has_update: up }
}

fn update_reader(label: &str, name: &str, up: bool) -> UpdateReader {
    UpdateReader { comic_label: label.to_string(), name: name.to_string(), has_update: up }
}

#[test]
fn encode_track_reader_exact() {
    let p = MessagePayload::TrackReader(track_reader("one-piece", "mangadex", true));
    assert_eq!(
        encode_payload(&p),
        "{\"tag\":\"TrackReader\",\"comic_label\":\"one-piece\",\"name\":\"mangadex\",\"has_update\":true}"
    );
}

#[test]
fn encode_untrack_comic_exact() {
    let p = MessagePayload::UntrackComic(UntrackComic { label: "berserk".to_string() });
    assert_eq!(encode_payload(&p), "{\"tag\":\"UntrackComic\",\"label\":\"berserk\"}");
}

#[test]
fn encode_list_comics_exact() {
    let p = MessagePayload::ListComics(ListComics {});
    assert_eq!(encode_payload(&p), "{\"tag\":\"ListComics\"}");
}

#[test]
fn decode_track_comic_documented_example() {
    let text = "{\"tag\":\"TrackComic\",\"label\":\"one-piece\",\"chapter\":1050,\"page\":null,\"source\":{\"comic_label\":\"one-piece\",\"name\":\"mangadex\",\"has_update\":false}}";
    let got = decode_payload(text).expect("well-formed envelope");
    let want = MessagePayload::TrackComic(TrackComic {
        label: "one-piece".to_string(),
        chapter: 1050,
        page: None,
        source: track_reader("one-piece", "mangadex", false),
    });
    assert_eq!(got, want);
}

#[test]
fn round_trip_all_seven_variants() {
    let cases: Vec<MessagePayload> = vec![
        MessagePayload::TrackReader(track_reader("one-piece", "mangadex", false)),
        MessagePayload::UpdateReader(update_reader("berserk", "mirror-a", true)),
        MessagePayload::UntrackReader(UntrackReader {
            comic_label: "berserk".to_string(),
            name: "mirror-a".to_string(),
        }),
        MessagePayload::TrackComic(TrackComic {
            label: "one-piece".to_string(),
            chapter: 1050,
            page: Some(12),
            source: track_reader("one-piece", "mangadex", false),
        }),
        MessagePayload::UpdateComic(UpdateComic {
            label: "one-piece".to_string(),
            chapter: -3,
            page: None,
            readers: vec![
                update_reader("one-piece", "mangadex", true),
                update_reader("one-piece", "mirror-b", false),
            ],
        }),
        MessagePayload::UntrackComic(UntrackComic { label: "x".to_string() }),
        MessagePayload::ListComics(ListComics {}),
    ];
    for p in cases {
        let text = encode_payload(&p);
        let back = decode_payload(&text).expect("round trip decodes");
        assert_eq!(back, p);
    }
}

#[test]
fn round_trip_escaped_strings() {
    let p = MessagePayload::UntrackComic(UntrackComic {
        label: "a\"b\\c".to_string(),
    });
    let text = encode_payload(&p);
    assert_eq!(text, "{\"tag\":\"UntrackComic\",\"label\":\"a\\\"b\\\\c\"}");
    assert_eq!(decode_payload(&text).expect("decodes"), p);
}

#[test]
fn round_trip_empty_strings_and_empty_reader_list() {
    let p = MessagePayload::UpdateComic(UpdateComic {
        label: String::new(),
        chapter: 0,
        page: Some(0),
        readers: Vec::new(),
    });
    let text = encode_payload(&p);
    assert_eq!(
        text,
        "{\"tag\":\"UpdateComic\",\"label\":\"\",\"chapter\":0,\"page\":0,\"readers\":[]}"
    );
    assert_eq!(decode_payload(&text).expect("decodes"), p);
}

#[test]
fn round_trip_extreme_chapters() {
    for chapter in [i32::MIN, i32::MAX, -1, 7] {
        let p = MessagePayload::TrackComic(TrackComic {
            label: "l".to_string(),
            chapter,
            page: Some(chapter),
            source: track_reader("l", "n", true),
        });
        let text = encode_payload(&p);
        assert_eq!(decode_payload(&text).expect("decodes"), p);
    }
}

#[test]
fn malformed_frames_are_refused() {
    let bad = [
        "",
        "{}",
        "not json at all",
        "{\"tag\":\"Nonsense\"}",
        "{\"tag\":\"ListComics\"} ",
        "{\"label\":\"x\",\"tag\":\"UntrackComic\"}",
        "{ \"tag\": \"ListComics\" }",
        "{\"tag\":\"TrackReader\",\"comic_label\":\"a\",\"name\":\"b\"}",
        "{\"tag\":\"UntrackComic\",\"label\":\"unterminated}",
        "{\"tag\":\"TrackComic\",\"label\":\"a\",\"chapter\":12.5,\"page\":null,\"source\":{\"comic_label\":\"a\",\"name\":\"b\",\"has_update\":true}}",
        "{\"tag\":\"TrackComic\",\"label\":\"a\",\"chapter\":007,\"page\":null,\"source\":{\"comic_label\":\"a\",\"name\":\"b\",\"has_update\":true}}",
        "{\"tag\":\"TrackComic\",\"label\":\"a\",\"chapter\":2147483648,\"page\":null,\"source\":{\"comic_label\":\"a\",\"name\":\"b\",\"has_update\":true}}",
    ];
    for text in bad {
        assert_eq!(decode_payload(text), None, "accepted: {text:?}");
    }
}

#[test]
fn decode_tolerates_plain_leading_zero_free_numbers_only() {
    let ok = "{\"tag\":\"UntrackComic\",\"label\":\"0\"}";
    assert!(decode_payload(ok).is_some());
    let min = "{\"tag\":\"TrackComic\",\"label\":\"a\",\"chapter\":-2147483648,\"page\":-1,\"source\":{\"comic_label\":\"a\",\"name\":\"b\",\"has_update\":false}}";
    let got = decode_payload(min).expect("minimum chapter decodes");
    match got {
        MessagePayload::TrackComic(c) => {
            assert_eq!(c.chapter, i32::MIN);
            assert_eq!(c.page, Some(-1));
        }
        other => panic!("wrong variant: {other:?}"),
    }
}

#[test]
fn listing_reply_exact_shape() {
    let listing = ComicListing {
        comics: vec![ComicEntry {
            comic: Comic { label: "one-piece".to_string() },
            sources: vec![
                ComicSource { name: "mangadex".to_string() },
                ComicSource { name: "mirror-b".to_string() },
            ],
        }],
    };
    assert_eq!(
        encode_listing(&listing),
        "{\"comics\":[{\"comic\":{\"label\":\"one-piece\"},\"sources\":[{\"name\":\"mangadex\"},{\"name\":\"mirror-b\"}]}]}"
    );
}

#[test]
fn listing_reply_empty() {
    let listing = ComicListing { comics: Vec::new() };
    assert_eq!(encode_listing(&listing), "{\"comics\":[]}");
}

#[test]
fn envelope_keeps_session_identity_off_the_wire() {
    // The wire frame holds only the payload; client identity and session id
    // are stamped on by the receiving session, never read from the text.
    let msg = BmcMessage {
        client_id: "alice".to_string(),
        ws_id: 7,
        payload: MessagePayload::ListComics(ListComics {}),
    };
    let text = encode_payload(&msg.payload);
    assert!(!text.contains("alice"));
    assert!(!text.contains('7'));
}
