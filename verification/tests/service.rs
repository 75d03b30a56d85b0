use event_service::event::ColumnValue;
use event_service::event::DbError;
use event_service::event::event_from_row;
use event_service::event::events_from_rows;
use event_service::service::MediaType;
use event_service::service::event_list_response;
use event_service::service::greeting;
use event_service::service::internal_error_response;
use event_service::service::internal_error_text;
use event_service::service::me_response;

const INTERNAL_ERROR: &str = "An internal error occurred. Please try again later.";

const SAMPLE_ID: [u8; 16] = [
    0x55, 0x0e, 0x84, 0x00, 0xe2, 0x9b, 0x41, 0xd4, 0xa7, 0x16, 0x44, 0x66, 0x55, 0x44, 0x00,
    0x00,
];

#[test]
fn greeting_with_identity() {
    assert_eq!(greeting(&Some("World".to_string())), "Hello World");
}

#[test]
fn greeting_without_identity() {
    assert_eq!(greeting(&None), "Hello Anonymous");
}

#[test]
fn me_response_with_identity() {
    let r = me_response(&Some("alice".to_string()));
    assert_eq!(r.status, 200);
    assert_eq!(r.media_type, MediaType::PlainText);
    assert_eq!(r.body, "Hello alice");
}

#[test]
fn me_response_without_identity() {
    let r = me_response(&None);
    assert_eq!(r.status, 200);
    assert_eq!(r.media_type, MediaType::PlainText);
    assert_eq!(r.body, "Hello Anonymous");
}

#[test]
fn media_type_header_values() {
    assert_eq!(MediaType::PlainText.header_value(), "text/plain; charset=utf-8");
    assert_eq!(MediaType::Json.header_value(), "application/json");
}

#[test]
fn event_from_row_decodes_by_position() {
    let row = vec![
        ColumnValue::Uuid(SAMPLE_ID),
        ColumnValue::Text("party".to_string()),
    ];
    let e = event_from_row(&row).unwrap();
    assert_eq!(e.id, SAMPLE_ID);
    assert_eq!(e.title, "party");
}

#[test]
fn event_from_row_rejects_short_row() {
    let row = vec![ColumnValue::Uuid(SAMPLE_ID)];
    assert_eq!(event_from_row(&row).unwrap_err(), DbError::Decode);
}

#[test]
fn event_from_row_rejects_long_row() {
    let row = vec![
        ColumnValue::Uuid(SAMPLE_ID),
        ColumnValue::Text("a".to_string()),
        ColumnValue::Text("b".to_string()),
    ];
    assert_eq!(event_from_row(&row).unwrap_err(), DbError::Decode);
}

#[test]
fn event_from_row_rejects_swapped_columns() {
    let row = vec![
        ColumnValue::Text("party".to_string()),
        ColumnValue::Uuid(SAMPLE_ID),
    ];
    assert_eq!(event_from_row(&row).unwrap_err(), DbError::Decode);
}

#[test]
fn events_from_rows_keeps_row_order() {
    let rows = vec![
        vec![ColumnValue::Uuid(SAMPLE_ID), ColumnValue::Text("one".to_string())],
        vec![ColumnValue::Uuid([0u8; 16]), ColumnValue::Text("two".to_string())],
    ];
    let events = events_from_rows(&rows).unwrap();
    assert_eq!(events.len(), 2);
    assert_eq!(events[0].id, SAMPLE_ID);
    assert_eq!(events[0].title, "one");
    assert_eq!(events[1].id, [0u8; 16]);
    assert_eq!(events[1].title, "two");
}

#[test]
fn events_from_rows_rejects_any_bad_row() {
    let rows = vec![
        vec![ColumnValue::Uuid(SAMPLE_ID), ColumnValue::Text("one".to_string())],
        vec![ColumnValue::Text("two".to_string())],
    ];
    assert_eq!(events_from_rows(&rows).unwrap_err(), DbError::Decode);
}

#[test]
fn event_list_response_encodes_rows() {
    let rows = vec![vec![
        ColumnValue::Uuid(SAMPLE_ID),
        ColumnValue::Text("party".to_string()),
    ]];
    let r = event_list_response(Ok(rows));
    assert_eq!(r.status, 200);
    assert_eq!(r.media_type, MediaType::Json);
    assert_eq!(
        r.body,
        "[{\"id\":\"550e8400-e29b-41d4-a716-446655440000\",\"title\":\"party\"}]"
    );
}

#[test]
fn event_list_response_empty_table() {
    let r = event_list_response(Ok(Vec::new()));
    assert_eq!(r.status, 200);
    assert_eq!(r.media_type, MediaType::Json);
    assert_eq!(r.body, "[]");
}

#[test]
fn event_list_response_pool_failure_is_generic() {
    let r = event_list_response(Err(DbError::Pool));
    assert_eq!(r.status, 500);
    assert_eq!(r.media_type, MediaType::PlainText);
    assert_eq!(r.body, INTERNAL_ERROR);
}

#[test]
fn event_list_response_query_failure_is_generic() {
    let r = event_list_response(Err(DbError::Query));
    assert_eq!(r.status, 500);
    assert_eq!(r.body, INTERNAL_ERROR);
}

#[test]
fn event_list_response_bad_row_is_generic() {
    let rows = vec![vec![ColumnValue::Text("no id".to_string())]];
    let r = event_list_response(Ok(rows));
    assert_eq!(r.status, 500);
    assert_eq!(r.media_type, MediaType::PlainText);
    assert_eq!(r.body, INTERNAL_ERROR);
}

#[test]
fn internal_error_is_fixed_and_detail_free() {
    assert_eq!(internal_error_text(), INTERNAL_ERROR);
    let r = internal_error_response();
    assert_eq!(r.status, 500);
    assert_eq!(r.media_type, MediaType::PlainText);
    assert_eq!(r.body, INTERNAL_ERROR);
}
