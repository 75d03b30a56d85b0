//! The JSON wire format of the event-list response.
//!
//! The body is an array with one object per row, in row order:
//! `[{"id":"<uuid>","title":"<title>"}, ...]`. The identifier appears in the
//! canonical hyphenated form (8-4-4-4-12 lower-case hexadecimal digits); the
//! title appears as a JSON string with quote, backslash and control
//! characters escaped.

use vstd::prelude::*;
use vstd::string::StrSliceExecFns;
use vstd::string::StringExecFns;
use crate::event::Event;
use crate::event::EventData;
use crate::event::event_views;

verus! {

/// The lower-case hexadecimal digit of a value below 16.
pub open spec fn hex_digit(n: int) -> char
    recommends
        0 <= n < 16,
{
    if n == 0 {
        '0'
    } else if n == 1 {
        '1'
    } else if n == 2 {
        '2'
    } else if n == 3 {
        '3'
    } else if n == 4 {
        '4'
    } else if n == 5 {
        '5'
    } else if n == 6 {
        '6'
    } else if n == 7 {
        '7'
    } else if n == 8 {
        '8'
    } else if n == 9 {
        '9'
    } else if n == 10 {
        'a'
    } else if n == 11 {
        'b'
    } else if n == 12 {
        'c'
    } else if n == 13 {
        'd'
    } else if n == 14 {
        'e'
    } else {
        'f'
    }
}

/// The two hexadecimal digits of one byte, high digit first.
pub open spec fn hex_pair(b: u8) -> Seq<char> {
    seq![hex_digit(b as int / 16), hex_digit(b as int % 16)]
}

/// The hexadecimal digits of a byte sequence, in order.
pub open spec fn hex_of(bytes: Seq<u8>) -> Seq<char>
    decreases bytes.len(),
{
    if bytes.len() == 0 {
        Seq::empty()
    } else {
        hex_of(bytes.drop_last()) + hex_pair(bytes.last())
    }
}

/// The canonical hyphenated form of a 16-byte identifier: groups of 8, 4, 4,
/// 4 and 12 lower-case hexadecimal digits.
pub open spec fn uuid_str(id: Seq<u8>) -> Seq<char>
    recommends
        id.len() == 16,
{
    hex_of(id.subrange(0, 4)) + seq!['-'] + hex_of(id.subrange(4, 6)) + seq!['-'] + hex_of(
        id.subrange(6, 8),
    ) + seq!['-'] + hex_of(id.subrange(8, 10)) + seq!['-'] + hex_of(id.subrange(10, 16))
}

/// How one character appears inside a JSON string: quote and backslash take
/// a backslash escape, the common control characters take their short form,
/// any other control character takes the `\u00XX` form, and everything else
/// stands for itself.
pub open spec fn escaped_char(c: char) -> Seq<char> {
    if c == '"' {
        seq!['\\', '"']
    } else if c == '\\' {
        seq!['\\', '\\']
    } else if c == '\u{8}' {
        seq!['\\', 'b']
    } else if c == '\u{c}' {
        seq!['\\', 'f']
    } else if c == '\n' {
        seq!['\\', 'n']
    } else if c == '\r' {
        seq!['\\', 'r']
    } else if c == '\t' {
        seq!['\\', 't']
    } else if (c as u32) < 32 {
        seq!['\\', 'u', '0', '0', hex_digit(c as u32 as int / 16), hex_digit(c as u32 as int % 16)]
    } else {
        seq![c]
    }
}

/// A character sequence escaped for a JSON string, character by character.
pub open spec fn escaped(s: Seq<char>) -> Seq<char>
    decreases s.len(),
{
    if s.len() == 0 {
        Seq::empty()
    } else {
        escaped(s.drop_last()) + escaped_char(s.last())
    }
}

/// Whether a character may not stand for itself inside a JSON string.
pub open spec fn needs_escape(c: char) -> bool {
    c == '"' || c == '\\' || (c as u32) < 32
}

/// The JSON object of one event: its hyphenated identifier and its escaped
/// title, under the keys `id` and `title`.
pub open spec fn event_json(e: EventData) -> Seq<char> {
    seq!['{', '"', 'i', 'd', '"', ':', '"'] + uuid_str(e.id) + seq![
        '"',
        ',',
        '"',
        't',
        'i',
        't',
        'l',
        'e',
        '"',
        ':',
        '"',
    ] + escaped(e.title) + seq!['"', '}']
}

/// The objects of the event list, comma-separated, in order.
pub open spec fn event_json_items(events: Seq<EventData>) -> Seq<char>
    decreases events.len(),
{
    if events.len() == 0 {
        Seq::empty()
    } else if events.len() == 1 {
        event_json(events[0])
    } else {
        event_json_items(events.drop_last()) + seq![','] + event_json(events.last())
    }
}

/// The full response body of the event-list endpoint: a JSON array holding
/// exactly one object per event, in order.
pub open spec fn event_list_json(events: Seq<EventData>) -> Seq<char> {
    seq!['['] + event_json_items(events) + seq![']']
}

/// When there are no events the body is exactly `[]`.
pub proof fn lemma_empty_event_list_json()
    ensures
        event_list_json(Seq::<EventData>::empty()) == "[]"@,
{
    reveal_strlit("[]");
    assert(event_list_json(Seq::<EventData>::empty()) =~= "[]"@);
}

/// Two hexadecimal digits of one byte determine the byte.
proof fn lemma_hex_pair_injective(x: u8, y: u8)
    requires
        hex_pair(x) == hex_pair(y),
    ensures
        x == y,
{
    assert(hex_pair(x)[0] == hex_pair(y)[0]);
    assert(hex_pair(x)[1] == hex_pair(y)[1]);
    assert(x as int / 16 == y as int / 16);
    assert(x as int % 16 == y as int % 16);
}

/// The hexadecimal form of a byte sequence has two digits per byte.
proof fn lemma_hex_of_len(bytes: Seq<u8>)
    ensures
        hex_of(bytes).len() == 2 * bytes.len(),
    decreases bytes.len(),
{
    if bytes.len() > 0 {
        lemma_hex_of_len(bytes.drop_last());
    }
}

/// Byte sequences of one length are determined by their hexadecimal form.
proof fn lemma_hex_of_injective(a: Seq<u8>, b: Seq<u8>)
    requires
        a.len() == b.len(),
        hex_of(a) == hex_of(b),
    ensures
        a == b,
    decreases a.len(),
{
    if a.len() == 0 {
        assert(a =~= b);
    } else {
        let n = a.len() as int;
        lemma_hex_of_len(a.drop_last());
        lemma_hex_of_len(b.drop_last());
        assert(hex_pair(a.last()) =~= hex_of(a).subrange(2 * n - 2, 2 * n));
        assert(hex_pair(b.last()) =~= hex_of(b).subrange(2 * n - 2, 2 * n));
        lemma_hex_pair_injective(a.last(), b.last());
        assert(hex_of(a.drop_last()) =~= hex_of(a).subrange(0, 2 * n - 2));
        assert(hex_of(b.drop_last()) =~= hex_of(b).subrange(0, 2 * n - 2));
        lemma_hex_of_injective(a.drop_last(), b.drop_last());
        assert(a =~= a.drop_last().push(a.last()));
        assert(b =~= b.drop_last().push(b.last()));
    }
}

/// The hyphenated form of a 16-byte identifier is 36 characters long.
pub proof fn lemma_uuid_str_len(id: Seq<u8>)
    requires
        id.len() == 16,
    ensures
        uuid_str(id).len() == 36,
{
    lemma_hex_of_len(id.subrange(0, 4));
    lemma_hex_of_len(id.subrange(4, 6));
    lemma_hex_of_len(id.subrange(6, 8));
    lemma_hex_of_len(id.subrange(8, 10));
    lemma_hex_of_len(id.subrange(10, 16));
}

/// The five hexadecimal groups stand at fixed places of the hyphenated form.
proof fn lemma_uuid_str_groups(id: Seq<u8>)
    requires
        id.len() == 16,
    ensures
        hex_of(id.subrange(0, 4)) == uuid_str(id).subrange(0, 8),
        hex_of(id.subrange(4, 6)) == uuid_str(id).subrange(9, 13),
        hex_of(id.subrange(6, 8)) == uuid_str(id).subrange(14, 18),
        hex_of(id.subrange(8, 10)) == uuid_str(id).subrange(19, 23),
        hex_of(id.subrange(10, 16)) == uuid_str(id).subrange(24, 36),
{
    lemma_hex_of_len(id.subrange(0, 4));
    lemma_hex_of_len(id.subrange(4, 6));
    lemma_hex_of_len(id.subrange(6, 8));
    lemma_hex_of_len(id.subrange(8, 10));
    lemma_hex_of_len(id.subrange(10, 16));
    assert(hex_of(id.subrange(0, 4)) =~= uuid_str(id).subrange(0, 8));
    assert(hex_of(id.subrange(4, 6)) =~= uuid_str(id).subrange(9, 13));
    assert(hex_of(id.subrange(6, 8)) =~= uuid_str(id).subrange(14, 18));
    assert(hex_of(id.subrange(8, 10)) =~= uuid_str(id).subrange(19, 23));
    assert(hex_of(id.subrange(10, 16)) =~= uuid_str(id).subrange(24, 36));
}

/// A 16-byte identifier is determined by its hyphenated form: two distinct
/// identifiers never print alike.
pub proof fn lemma_uuid_str_injective(a: Seq<u8>, b: Seq<u8>)
    requires
        a.len() == 16,
        b.len() == 16,
        uuid_str(a) == uuid_str(b),
    ensures
        a == b,
{
    lemma_uuid_str_groups(a);
    lemma_uuid_str_groups(b);
    lemma_hex_of_injective(a.subrange(0, 4), b.subrange(0, 4));
    lemma_hex_of_injective(a.subrange(4, 6), b.subrange(4, 6));
    lemma_hex_of_injective(a.subrange(6, 8), b.subrange(6, 8));
    lemma_hex_of_injective(a.subrange(8, 10), b.subrange(8, 10));
    lemma_hex_of_injective(a.subrange(10, 16), b.subrange(10, 16));
    assert forall|i: int| 0 <= i < 16 implies a[i] == b[i] by {
        if i < 4 {
            assert(a.subrange(0, 4)[i] == b.subrange(0, 4)[i]);
        } else if i < 6 {
            assert(a.subrange(4, 6)[i - 4] == b.subrange(4, 6)[i - 4]);
        } else if i < 8 {
            assert(a.subrange(6, 8)[i - 6] == b.subrange(6, 8)[i - 6]);
        } else if i < 10 {
            assert(a.subrange(8, 10)[i - 8] == b.subrange(8, 10)[i - 8]);
        } else {
            assert(a.subrange(10, 16)[i - 10] == b.subrange(10, 16)[i - 10]);
        }
    };
    assert(a =~= b);
}

/// Every escape unit is non-empty, and it starts with a backslash exactly
/// when its character may not stand for itself.
proof fn lemma_escape_unit_shape(c: char)
    ensures
        escaped_char(c).len() >= 1,
        needs_escape(c) ==> escaped_char(c).len() >= 2 && escaped_char(c)[0] == '\\',
        !needs_escape(c) ==> escaped_char(c) == seq![c],
{
}

/// An escaped sequence can also be read off from the front, one unit per
/// character.
proof fn lemma_escaped_first(s: Seq<char>)
    requires
        s.len() > 0,
    ensures
        escaped(s) == escaped_char(s[0]) + escaped(s.skip(1)),
    decreases s.len(),
{
    if s.len() == 1 {
        assert(s.drop_last() =~= Seq::<char>::empty());
        assert(s.skip(1) =~= Seq::<char>::empty());
        assert(escaped(s) =~= escaped_char(s[0]) + escaped(s.skip(1)));
    } else {
        lemma_escaped_first(s.drop_last());
        assert(s.skip(1).drop_last() =~= s.drop_last().skip(1));
        assert(s.skip(1).last() == s.last());
        assert(escaped(s.skip(1)) == escaped(s.skip(1).drop_last()) + escaped_char(s.last()));
        assert(escaped(s) =~= escaped_char(s[0]) + escaped(s.skip(1)));
    }
}

/// An escaped sequence is empty only for the empty sequence.
proof fn lemma_escaped_len_pos(s: Seq<char>)
    requires
        s.len() > 0,
    ensures
        escaped(s).len() >= 1,
{
    lemma_escape_unit_shape(s.last());
}

/// Two characters whose escape units open one common character sequence are
/// the same character with the same unit.
proof fn lemma_escape_unit_determined(c: char, d: char, x: Seq<char>, y: Seq<char>)
    requires
        escaped_char(c) + x == escaped_char(d) + y,
    ensures
        c == d,
        x == y,
{
    let u = escaped_char(c);
    let v = escaped_char(d);
    let whole = u + x;
    lemma_escape_unit_shape(c);
    lemma_escape_unit_shape(d);
    assert(whole[0] == u[0] && whole[0] == v[0]);
    if !needs_escape(c) && !needs_escape(d) {
        assert(c == d);
    } else if needs_escape(c) && !needs_escape(d) {
        assert(d == '\\');
        assert(false);
    } else if !needs_escape(c) && needs_escape(d) {
        assert(c == '\\');
        assert(false);
    } else {
        assert(whole[1] == u[1] && whole[1] == v[1]);
        let c_short = c == '"' || c == '\\' || c == '\u{8}' || c == '\u{c}' || c == '\n' || c
            == '\r' || c == '\t';
        let d_short = d == '"' || d == '\\' || d == '\u{8}' || d == '\u{c}' || d == '\n' || d
            == '\r' || d == '\t';
        if c_short && d_short {
            assert(c == d);
        } else if c_short != d_short {
            // one unit is a short escape, the other the `\u00XX` form; their
            // second characters cannot agree, since no short escape uses `u`
            assert(false);
        } else {
            assert(u[1] == 'u' && v[1] == 'u');
            assert(whole[4] == u[4] && whole[4] == v[4]);
            assert(whole[5] == u[5] && whole[5] == v[5]);
            assert(hex_digit(c as u32 as int / 16) == hex_digit(d as u32 as int / 16));
            assert(hex_digit(c as u32 as int % 16) == hex_digit(d as u32 as int % 16));
            assert(c as u32 as int / 16 == d as u32 as int / 16);
            assert(c as u32 as int % 16 == d as u32 as int % 16);
            assert(c as u32 == d as u32);
            assert(c == d);
        }
    }
    assert(u.len() == v.len());
    assert((u + x).len() == (v + y).len());
    assert forall|i: int| 0 <= i < x.len() implies x[i] == y[i] by {
        assert((u + x)[u.len() + i] == x[i]);
        assert((v + y)[v.len() + i] == y[i]);
    };
    assert(x =~= y);
}

/// A character sequence is determined by its escaped form: escaping never
/// conflates two titles.
pub proof fn lemma_escaped_injective(s: Seq<char>, t: Seq<char>)
    requires
        escaped(s) == escaped(t),
    ensures
        s == t,
    decreases s.len(),
{
    if s.len() == 0 {
        if t.len() > 0 {
            lemma_escaped_len_pos(t);
        }
        assert(s =~= t);
    } else if t.len() == 0 {
        lemma_escaped_len_pos(s);
    } else {
        lemma_escaped_first(s);
        lemma_escaped_first(t);
        lemma_escape_unit_determined(s[0], t[0], escaped(s.skip(1)), escaped(t.skip(1)));
        lemma_escaped_injective(s.skip(1), t.skip(1));
        assert(s =~= seq![s[0]] + s.skip(1));
        assert(t =~= seq![t[0]] + t.skip(1));
    }
}

/// A scan of an escaped title stops exactly at the closing quote: no unit of
/// the escape code begins with a bare quote, so the title and whatever
/// follows the quote are both determined.
proof fn lemma_escaped_terminated(t1: Seq<char>, t2: Seq<char>, x1: Seq<char>, x2: Seq<char>)
    requires
        escaped(t1) + seq!['"'] + x1 == escaped(t2) + seq!['"'] + x2,
    ensures
        t1 == t2,
        x1 == x2,
    decreases t1.len(),
{
    if t1.len() == 0 && t2.len() == 0 {
        lemma_escaped_injective(t1, t2);
        let w1 = escaped(t1) + seq!['"'] + x1;
        let w2 = escaped(t2) + seq!['"'] + x2;
        assert(w1.len() == 1 + x1.len());
        assert(w2.len() == 1 + x2.len());
        assert forall|i: int| 0 <= i < x1.len() implies x1[i] == x2[i] by {
            assert(w1[1 + i] == x1[i]);
            assert(w2[1 + i] == x2[i]);
        };
        assert(x1 =~= x2);
    } else if t1.len() == 0 {
        lemma_escaped_first(t2);
        lemma_escape_unit_shape(t2[0]);
        assert((escaped(t1) + seq!['"'] + x1)[0] == '"');
        assert((escaped(t2) + seq!['"'] + x2)[0] == escaped_char(t2[0])[0]);
        assert(false);
    } else if t2.len() == 0 {
        lemma_escaped_first(t1);
        lemma_escape_unit_shape(t1[0]);
        assert((escaped(t2) + seq!['"'] + x2)[0] == '"');
        assert((escaped(t1) + seq!['"'] + x1)[0] == escaped_char(t1[0])[0]);
        assert(false);
    } else {
        lemma_escaped_first(t1);
        lemma_escaped_first(t2);
        let r1 = escaped(t1.skip(1)) + seq!['"'] + x1;
        let r2 = escaped(t2.skip(1)) + seq!['"'] + x2;
        assert(escaped_char(t1[0]) + r1 =~= escaped(t1) + seq!['"'] + x1);
        assert(escaped_char(t2[0]) + r2 =~= escaped(t2) + seq!['"'] + x2);
        lemma_escape_unit_determined(t1[0], t2[0], r1, r2);
        lemma_escaped_terminated(t1.skip(1), t2.skip(1), x1, x2);
        assert(t1 =~= seq![t1[0]] + t1.skip(1));
        assert(t2 =~= seq![t2[0]] + t2.skip(1));
    }
}

/// An event's object is at least the 56 fixed characters long.
proof fn lemma_event_json_len(e: EventData)
    requires
        e.id.len() == 16,
    ensures
        event_json(e).len() == 56 + escaped(e.title).len(),
{
    lemma_uuid_str_len(e.id);
}

/// Two events whose objects open one common character sequence are the same
/// event, and what follows the objects is the same as well.
proof fn lemma_event_json_prefix(e1: EventData, e2: EventData, r1: Seq<char>, r2: Seq<char>)
    requires
        e1.id.len() == 16,
        e2.id.len() == 16,
        event_json(e1) + r1 == event_json(e2) + r2,
    ensures
        e1 == e2,
        r1 == r2,
{
    lemma_event_json_len(e1);
    lemma_event_json_len(e2);
    let w = event_json(e1) + r1;
    assert forall|k: int| 0 <= k < 36 implies uuid_str(e1.id)[k] == uuid_str(e2.id)[k] by {
        assert((event_json(e1) + r1)[7 + k] == uuid_str(e1.id)[k]);
        assert((event_json(e2) + r2)[7 + k] == uuid_str(e2.id)[k]);
    };
    assert(uuid_str(e1.id) =~= uuid_str(e2.id));
    lemma_uuid_str_injective(e1.id, e2.id);
    let tail1 = escaped(e1.title) + seq!['"'] + (seq!['}'] + r1);
    let tail2 = escaped(e2.title) + seq!['"'] + (seq!['}'] + r2);
    assert(tail1 =~= w.subrange(54, w.len() as int));
    assert(tail2 =~= w.subrange(54, w.len() as int));
    lemma_escaped_terminated(e1.title, e2.title, seq!['}'] + r1, seq!['}'] + r2);
    assert(e1 =~= e2);
    assert forall|i: int| 0 <= i < r1.len() implies r1[i] == r2[i] by {
        assert((seq!['}'] + r1)[1 + i] == r1[i]);
        assert((seq!['}'] + r2)[1 + i] == r2[i]);
    };
    assert(r1 =~= r2);
}

/// The comma-separated objects can also be read off from the front.
proof fn lemma_items_first(evs: Seq<EventData>)
    requires
        evs.len() > 0,
    ensures
        event_json_items(evs) == event_json(evs[0]) + (if evs.len() == 1 {
            Seq::<char>::empty()
        } else {
            seq![','] + event_json_items(evs.skip(1))
        }),
    decreases evs.len(),
{
    if evs.len() == 1 {
        assert(event_json_items(evs) =~= event_json(evs[0]) + Seq::<char>::empty());
    } else if evs.len() == 2 {
        let first = evs.drop_last();
        let second = evs.skip(1);
        assert(first.len() == 1 && second.len() == 1);
        assert(event_json_items(first) == event_json(first[0]));
        assert(event_json_items(second) == event_json(second[0]));
        assert(first[0] == evs[0] && second[0] == evs[1] && evs.last() == evs[1]);
        assert(event_json_items(evs) == event_json_items(first) + seq![','] + event_json(
            evs.last(),
        ));
        assert(event_json_items(evs) =~= event_json(evs[0]) + (seq![','] + event_json_items(
            evs.skip(1),
        )));
    } else {
        lemma_items_first(evs.drop_last());
        assert(evs.drop_last().skip(1) =~= evs.skip(1).drop_last());
        assert(evs.skip(1).last() == evs.last());
        assert(event_json_items(evs.skip(1)) == event_json_items(evs.skip(1).drop_last())
            + seq![','] + event_json(evs.last()));
        assert(event_json_items(evs) =~= event_json(evs[0]) + (seq![','] + event_json_items(
            evs.skip(1),
        )));
    }
}

/// All identifiers of the list have the 16 bytes a `uuid` column carries.
pub open spec fn ids_sized(evs: Seq<EventData>) -> bool {
    forall|i: int| 0 <= i < evs.len() ==> (#[trigger] evs[i].id).len() == 16
}

/// Two event lists whose joined objects agree are the same list.
proof fn lemma_items_injective(l1: Seq<EventData>, l2: Seq<EventData>)
    requires
        ids_sized(l1),
        ids_sized(l2),
        event_json_items(l1) == event_json_items(l2),
    ensures
        l1 == l2,
    decreases l1.len(),
{
    if l1.len() == 0 && l2.len() == 0 {
        assert(l1 =~= l2);
    } else if l1.len() == 0 {
        lemma_items_first(l2);
        lemma_event_json_len(l2[0]);
        assert(event_json_items(l2).len() > 0);
    } else if l2.len() == 0 {
        lemma_items_first(l1);
        lemma_event_json_len(l1[0]);
        assert(event_json_items(l1).len() > 0);
    } else {
        lemma_items_first(l1);
        lemma_items_first(l2);
        let r1 = if l1.len() == 1 {
            Seq::<char>::empty()
        } else {
            seq![','] + event_json_items(l1.skip(1))
        };
        let r2 = if l2.len() == 1 {
            Seq::<char>::empty()
        } else {
            seq![','] + event_json_items(l2.skip(1))
        };
        lemma_event_json_prefix(l1[0], l2[0], r1, r2);
        if l1.len() == 1 && l2.len() == 1 {
            assert(l1 =~= l2);
        } else if l1.len() == 1 || l2.len() == 1 {
            assert(r1.len() == r2.len());
            assert(false);
        } else {
            assert forall|i: int| 0 <= i < event_json_items(l1.skip(1)).len() implies
                event_json_items(l1.skip(1))[i] == event_json_items(l2.skip(1))[i] by {
                assert(r1[1 + i] == event_json_items(l1.skip(1))[i]);
                assert(r2[1 + i] == event_json_items(l2.skip(1))[i]);
            };
            assert(event_json_items(l1.skip(1)) =~= event_json_items(l2.skip(1)));
            assert(ids_sized(l1.skip(1)));
            assert(ids_sized(l2.skip(1)));
            lemma_items_injective(l1.skip(1), l2.skip(1));
            assert(l1 =~= seq![l1[0]] + l1.skip(1));
            assert(l2 =~= seq![l2[0]] + l2.skip(1));
        }
    }
}

/// The response body determines the events exactly: two lists of events,
/// each with its 16 identifier bytes, that encode to the same body are the
/// same list — every object matches its event's identifier and title, and
/// no two lists are conflated.
pub proof fn lemma_event_list_json_injective(l1: Seq<EventData>, l2: Seq<EventData>)
    requires
        ids_sized(l1),
        ids_sized(l2),
        event_list_json(l1) == event_list_json(l2),
    ensures
        l1 == l2,
{
    let b1 = event_list_json(l1);
    let b2 = event_list_json(l2);
    assert(b1.len() == 2 + event_json_items(l1).len());
    assert(b2.len() == 2 + event_json_items(l2).len());
    assert forall|i: int| 0 <= i < event_json_items(l1).len() implies event_json_items(l1)[i]
        == event_json_items(l2)[i] by {
        assert(b1[1 + i] == event_json_items(l1)[i]);
        assert(b2[1 + i] == event_json_items(l2)[i]);
    };
    assert(event_json_items(l1) =~= event_json_items(l2));
    lemma_items_injective(l1, l2);
}

/// Every in-memory event has the 16 identifier bytes, so the encoding is
/// injective on whatever the library actually serves.
pub proof fn lemma_event_views_ids_sized(events: Seq<Event>)
    ensures
        ids_sized(event_views(events)),
{
    assert forall|i: int| 0 <= i < event_views(events).len() implies (#[trigger] event_views(
        events,
    )[i].id).len() == 16 by {
        assert(event_views(events)[i] == events[i]@);
    };
}

/// Relies on `String::push`: appends exactly the one character.
#[verifier::external_body]
fn push_char(out: &mut String, c: char)
    ensures
        final(out)@ == old(out)@.push(c),
{
    out.push(c);
}

/// The lower-case hexadecimal digit of a value below 16.
fn hex_digit_char(n: u8) -> (c: char)
    requires
        n < 16,
    ensures
        c == hex_digit(n as int),
{
    match n {
        0 => '0',
        1 => '1',
        2 => '2',
        3 => '3',
        4 => '4',
        5 => '5',
        6 => '6',
        7 => '7',
        8 => '8',
        9 => '9',
        10 => 'a',
        11 => 'b',
        12 => 'c',
        13 => 'd',
        14 => 'e',
        _ => 'f',
    }
}

/// Appends the two hexadecimal digits of one byte.
fn push_hex_byte(out: &mut String, b: u8)
    ensures
        final(out)@ == old(out)@ + hex_pair(b),
{
    push_char(out, hex_digit_char(b / 16));
    push_char(out, hex_digit_char(b % 16));
    proof {
        assert(out@ =~= old(out)@ + hex_pair(b));
    }
}

/// Appends the hexadecimal digits of the identifier bytes `from..to`.
fn push_hex_range(out: &mut String, id: &[u8; 16], from: usize, to: usize)
    requires
        from <= to <= 16,
    ensures
        final(out)@ == old(out)@ + hex_of(id@.subrange(from as int, to as int)),
{
    let mut i = from;
    while i < to
        invariant
            from <= i <= to <= 16,
            out@ == old(out)@ + hex_of(id@.subrange(from as int, i as int)),
        decreases to - i,
    {
        push_hex_byte(out, id[i]);
        proof {
            let whole = id@.subrange(from as int, i + 1 as int);
            assert(whole.drop_last() =~= id@.subrange(from as int, i as int));
            assert(whole.last() == id@[i as int]);
            assert(out@ =~= old(out)@ + hex_of(whole));
        }
        i += 1;
    }
}

/// Appends the canonical hyphenated form of the identifier.
fn push_uuid(out: &mut String, id: &[u8; 16])
    ensures
        final(out)@ == old(out)@ + uuid_str(id@),
{
    push_hex_range(out, id, 0, 4);
    push_char(out, '-');
    push_hex_range(out, id, 4, 6);
    push_char(out, '-');
    push_hex_range(out, id, 6, 8);
    push_char(out, '-');
    push_hex_range(out, id, 8, 10);
    push_char(out, '-');
    push_hex_range(out, id, 10, 16);
    proof {
        assert(out@ =~= old(out)@ + uuid_str(id@));
    }
}

/// Formats a 16-byte identifier in the canonical hyphenated form.
pub fn uuid_hyphenated(id: &[u8; 16]) -> (r: String)
    ensures
        r@ == uuid_str(id@),
{
    let mut out = String::new();
    push_uuid(&mut out, id);
    proof {
        assert(out@ =~= uuid_str(id@));
    }
    out
}

/// Appends the title, escaped for a JSON string.
fn push_escaped(out: &mut String, s: &str)
    ensures
        final(out)@ == old(out)@ + escaped(s@),
{
    let len = s.unicode_len();
    let mut i: usize = 0;
    while i < len
        invariant
            i <= len,
            len == s@.len(),
            out@ == old(out)@ + escaped(s@.subrange(0, i as int)),
        decreases len - i,
    {
        let c = s.get_char(i);
        if c == '"' {
            out.append("\\\"");
            proof {
                reveal_strlit("\\\"");
            }
        } else if c == '\\' {
            out.append("\\\\");
            proof {
                reveal_strlit("\\\\");
            }
        } else if c == '\u{8}' {
            out.append("\\b");
            proof {
                reveal_strlit("\\b");
            }
        } else if c == '\u{c}' {
            out.append("\\f");
            proof {
                reveal_strlit("\\f");
            }
        } else if c == '\n' {
            out.append("\\n");
            proof {
                reveal_strlit("\\n");
            }
        } else if c == '\r' {
            out.append("\\r");
            proof {
                reveal_strlit("\\r");
            }
        } else if c == '\t' {
            out.append("\\t");
            proof {
                reveal_strlit("\\t");
            }
        } else if (c as u32) < 32 {
            let n = c as u32;
            out.append("\\u00");
            push_char(out, hex_digit_char((n / 16) as u8));
            push_char(out, hex_digit_char((n % 16) as u8));
            proof {
                reveal_strlit("\\u00");
            }
        } else {
            push_char(out, c);
        }
        proof {
            let whole = s@.subrange(0, i + 1 as int);
            assert(whole.drop_last() =~= s@.subrange(0, i as int));
            assert(whole.last() == s@[i as int]);
            assert(out@ =~= old(out)@ + escaped(whole));
        }
        i += 1;
    }
    proof {
        assert(s@.subrange(0, len as int) =~= s@);
    }
}

/// Appends the JSON object of one event.
fn push_event_json(out: &mut String, e: &Event)
    ensures
        final(out)@ == old(out)@ + event_json(e@),
{
    out.append("{\"id\":\"");
    push_uuid(out, &e.id);
    out.append("\",\"title\":\"");
    push_escaped(out, e.title.as_str());
    out.append("\"}");
    proof {
        reveal_strlit("{\"id\":\"");
        reveal_strlit("\",\"title\":\"");
        reveal_strlit("\"}");
        assert(out@ =~= old(out)@ + event_json(e@));
    }
}

/// Encodes one event as its JSON object.
pub fn event_to_json(e: &Event) -> (r: String)
    ensures
        r@ == event_json(e@),
{
    let mut out = String::new();
    push_event_json(&mut out, e);
    proof {
        assert(out@ =~= event_json(e@));
    }
    out
}

/// Encodes the whole event list as a JSON array: exactly one object per
/// event, in order.
pub fn event_list_to_json(events: &Vec<Event>) -> (r: String)
    ensures
        r@ == event_list_json(event_views(events@)),
{
    let mut out = String::from_str("[");
    proof {
        reveal_strlit("[");
        assert(out@ =~= seq!['['] + event_json_items(event_views(events@.subrange(0, 0))));
    }
    let mut i: usize = 0;
    while i < events.len()
        invariant
            i <= events@.len(),
            out@ == seq!['['] + event_json_items(event_views(events@.subrange(0, i as int))),
        decreases events@.len() - i,
    {
        if i > 0 {
            out.append(",");
            proof {
                reveal_strlit(",");
            }
        }
        push_event_json(&mut out, &events[i]);
        proof {
            let whole = event_views(events@.subrange(0, i + 1 as int));
            assert(whole.drop_last() =~= event_views(events@.subrange(0, i as int)));
            assert(whole.last() == events@[i as int]@);
            if i == 0 {
                assert(event_json_items(whole) == event_json(whole[0]));
            }
            assert(out@ =~= seq!['['] + event_json_items(whole));
        }
        i += 1;
    }
    out.append("]");
    proof {
        reveal_strlit("]");
        assert(events@.subrange(0, events@.len() as int) =~= events@);
        assert(out@ =~= event_list_json(event_views(events@)));
    }
    out
}

} // verus!
