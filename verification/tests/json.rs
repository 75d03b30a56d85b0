use event_service::event::Event;
use event_service::json::event_list_to_json;
use event_service::json::event_to_json;
use event_service::json::uuid_hyphenated;

const SAMPLE_ID: [u8; 16] = [
    0x55, 0x0e, 0x84, 0x00, 0xe2, 0x9b, 0x41, 0xd4, 0xa7, 0x16, 0x44, 0x66, 0x55, 0x44, 0x00,
    0x00,
];

#[test]
fn uuid_hyphenated_formats_canonically() {
    assert_eq!(
        uuid_hyphenated(&SAMPLE_ID),
        "550e8400-e29b-41d4-a716-446655440000"
    );
}

#[test]
fn uuid_hyphenated_all_zero() {
    assert_eq!(
        uuid_hyphenated(&[0u8; 16]),
        "00000000-0000-0000-0000-000000000000"
    );
}

#[test]
fn uuid_hyphenated_all_high_digits() {
    assert_eq!(
        uuid_hyphenated(&[0xffu8; 16]),
        "ffffffff-ffff-ffff-ffff-ffffffffffff"
    );
}

#[test]
fn uuid_hyphenated_matches_uuid_crate() {
    let ids: Vec<[u8; 16]> = vec![
        SAMPLE_ID,
        [0u8; 16],
        [0xffu8; 16],
        [1, 2, 3, 4, 5, 6, 7, 8, 9, 10, 11, 12, 13, 14, 15, 16],
        [0xab, 0xcd, 0xef, 0x01, 0x23, 0x45, 0x67, 0x89, 0x9a, 0xbc, 0xde, 0xf0, 0x0f, 0x1e,
         0x2d, 0x3c],
    ];
    for id in ids {
        let reference = uuid::Uuid::from_bytes(id).hyphenated().to_string();
        assert_eq!(uuid_hyphenated(&id), reference);
    }
}

#[test]
fn event_to_json_plain_title() {
    let e = Event {
        id: SAMPLE_ID,
        title: "Launch party".to_string(),
    };
    assert_eq!(
        event_to_json(&e),
        "{\"id\":\"550e8400-e29b-41d4-a716-446655440000\",\"title\":\"Launch party\"}"
    );
}

#[test]
fn event_to_json_escapes_title() {
    let e = Event {
        id: [0u8; 16],
        title: "a\"b\\c\nd\te\r\u{8}\u{c}\u{1}z".to_string(),
    };
    assert_eq!(
        event_to_json(&e),
        "{\"id\":\"00000000-0000-0000-0000-000000000000\",\"title\":\"a\\\"b\\\\c\\nd\\te\\r\\b\\f\\u0001z\"}"
    );
}

#[test]
fn event_to_json_keeps_unicode_title() {
    let e = Event {
        id: [0u8; 16],
        title: "caf\u{e9} \u{1f389}".to_string(),
    };
    assert_eq!(
        event_to_json(&e),
        "{\"id\":\"00000000-0000-0000-0000-000000000000\",\"title\":\"caf\u{e9} \u{1f389}\"}"
    );
}

#[test]
fn event_list_to_json_empty_is_empty_array() {
    let events: Vec<Event> = Vec::new();
    assert_eq!(event_list_to_json(&events), "[]");
}

#[test]
fn event_list_to_json_orders_and_separates() {
    let events = vec![
        Event {
            id: SAMPLE_ID,
            title: "first".to_string(),
        },
        Event {
            id: [0u8; 16],
            title: "second".to_string(),
        },
    ];
    assert_eq!(
        event_list_to_json(&events),
        "[{\"id\":\"550e8400-e29b-41d4-a716-446655440000\",\"title\":\"first\"},{\"id\":\"00000000-0000-0000-0000-000000000000\",\"title\":\"second\"}]"
    );
}

#[test]
fn event_list_to_json_distinguishes_lists() {
    let mut other_id = SAMPLE_ID;
    other_id[15] = 0x01;
    let a = vec![Event {
        id: SAMPLE_ID,
        title: "same title".to_string(),
    }];
    let b = vec![Event {
        id: other_id,
        title: "same title".to_string(),
    }];
    let c = vec![Event {
        id: SAMPLE_ID,
        title: "same,title".to_string(),
    }];
    assert_ne!(event_list_to_json(&a), event_list_to_json(&b));
    assert_ne!(event_list_to_json(&a), event_list_to_json(&c));
}

#[test]
fn event_list_to_json_single_event() {
    let events = vec![Event {
        id: SAMPLE_ID,
        title: "only".to_string(),
    }];
    assert_eq!(
        event_list_to_json(&events),
        "[{\"id\":\"550e8400-e29b-41d4-a716-446655440000\",\"title\":\"only\"}]"
    );
}
