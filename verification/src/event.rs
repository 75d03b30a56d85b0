//! The one entity the service exposes, and the positional decoding of
//! database rows into it.
//!
//! Rows are handed to the library as plain column values. The fixed query
//! selects exactly two columns — a 16-byte identifier and a text title — and
//! a row of any other shape is a hard decode error, never a silent default.

use vstd::prelude::*;

verus! {

/// One stored event: a universally-unique 16-byte identifier and a title.
/// Events are read-only for this service; they are only projected into
/// response payloads.
#[derive(Debug)]
pub struct Event {
    pub id: [u8; 16],
    pub title: String,
}

/// The mathematical value of an event: its identifier bytes and the
/// characters of its title.
#[verifier::ext_equal]
pub ghost struct EventData {
    pub id: Seq<u8>,
    pub title: Seq<char>,
}

impl View for Event {
    type V = EventData;

    open spec fn view(&self) -> EventData {
        EventData { id: self.id@, title: self.title@ }
    }
}

/// The values of a sequence of events.
pub open spec fn event_views(events: Seq<Event>) -> Seq<EventData> {
    events.map_values(|e: Event| e@)
}

/// A column value as the service's single query can produce it.
#[derive(Debug)]
pub enum ColumnValue {
    /// A `uuid` column, as its 16 bytes.
    Uuid([u8; 16]),
    /// A `text` column.
    Text(String),
}

/// Why an event-list request failed. Every variant reaches the client as the
/// same fixed message; the variants keep the causes apart internally.
#[derive(Clone, Copy, Debug, PartialEq, Eq, Structural)]
pub enum DbError {
    /// No pooled connection could be obtained.
    Pool,
    /// Executing the query failed.
    Query,
    /// A returned row did not have the expected `(uuid, text)` shape.
    Decode,
}

/// The shape the fixed query promises: exactly two columns, an identifier
/// then a title.
pub open spec fn row_well_formed(row: Seq<ColumnValue>) -> bool {
    &&& row.len() == 2
    &&& row[0] is Uuid
    &&& row[1] is Text
}

/// The event a well-formed row denotes: column 0 is the identifier,
/// column 1 the title.
pub open spec fn decoded_row(row: Seq<ColumnValue>) -> EventData
    recommends
        row_well_formed(row),
{
    EventData { id: row[0]->Uuid_0@, title: row[1]->Text_0@ }
}

/// Every row of the result set is well-formed.
pub open spec fn rows_well_formed(rows: Seq<Vec<ColumnValue>>) -> bool {
    forall|i: int| 0 <= i < rows.len() ==> row_well_formed(#[trigger] rows[i]@)
}

/// The events a well-formed result set denotes, in row order.
pub open spec fn decoded_rows(rows: Seq<Vec<ColumnValue>>) -> Seq<EventData> {
    rows.map_values(|row: Vec<ColumnValue>| decoded_row(row@))
}

/// Decodes one row by column position. A row that is not exactly
/// `(uuid, text)` is rejected as a decode error.
pub fn event_from_row(row: &Vec<ColumnValue>) -> (r: Result<Event, DbError>)
    ensures
        r is Ok <==> row_well_formed(row@),
        r is Ok ==> r->Ok_0@ == decoded_row(row@),
        r is Err ==> r->Err_0 == DbError::Decode,
{
    if row.len() != 2 {
        return Err(DbError::Decode);
    }
    let id: [u8; 16] = match &row[0] {
        ColumnValue::Uuid(bytes) => *bytes,
        ColumnValue::Text(_) => {
            return Err(DbError::Decode);
        },
    };
    let title: String = match &row[1] {
        ColumnValue::Text(text) => text.clone(),
        ColumnValue::Uuid(_) => {
            return Err(DbError::Decode);
        },
    };
    Ok(Event { id, title })
}

/// Decodes a whole result set, in order; the first ill-shaped row makes the
/// whole set a decode error.
pub fn events_from_rows(rows: &Vec<Vec<ColumnValue>>) -> (r: Result<Vec<Event>, DbError>)
    ensures
        r is Ok <==> rows_well_formed(rows@),
        r is Ok ==> event_views(r->Ok_0@) == decoded_rows(rows@),
        r is Err ==> r->Err_0 == DbError::Decode,
{
    let mut events: Vec<Event> = Vec::new();
    let mut i: usize = 0;
    while i < rows.len()
        invariant
            i <= rows.len(),
            forall|j: int| 0 <= j < i ==> row_well_formed(#[trigger] rows@[j]@),
            event_views(events@) == decoded_rows(rows@.subrange(0, i as int)),
        decreases rows.len() - i,
    {
        match event_from_row(&rows[i]) {
            Ok(e) => {
                let ghost prior = events@;
                let ghost item = e@;
                events.push(e);
                proof {
                    assert(event_views(prior.push(events@[i as int])) =~= event_views(
                        prior,
                    ).push(item));
                    assert(rows@.subrange(0, i + 1 as int).drop_last() =~= rows@.subrange(
                        0,
                        i as int,
                    ));
                    assert(decoded_rows(rows@.subrange(0, i + 1 as int)) =~= decoded_rows(
                        rows@.subrange(0, i as int),
                    ).push(decoded_row(rows@[i as int]@)));
                }
            },
            Err(e) => {
                return Err(e);
            },
        }
        i += 1;
    }
    proof {
        assert(rows@.subrange(0, rows@.len() as int) =~= rows@);
    }
    Ok(events)
}

} // verus!
