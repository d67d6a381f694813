//! The two datagrams of the protocol as mathematical values.
//!
//! A request is the marker byte followed by the names of the wanted tags,
//! each closed by a NUL. A reply is a run of entries packed end to end, each
//! a four-byte name, one length byte and that many bytes of value. The
//! datagram's end is the only end marker.

use vstd::prelude::*;

verus! {

/// The byte that opens a request.
pub const REQUEST_MARKER: u8 = 0x65;

/// The UDP port that requests are broadcast to.
pub const DISCOVERY_PORT: u16 = 3483;

/// The number of bytes in front of an entry's value: the name and the length.
pub const HEADER_LEN: usize = 5;

/// One entry of a reply.
pub struct Entry {
    pub name: Seq<u8>,
    pub value: Seq<u8>,
}

/// Whether `e` can be written as one entry: the name has four bytes and the
/// length of the value fits in one byte.
pub open spec fn entry_ok(e: Entry) -> bool {
    e.name.len() == 4 && e.value.len() <= 255
}

/// Whether every entry of `entries` can be written.
pub open spec fn entries_ok(entries: Seq<Entry>) -> bool {
    forall|i: int| 0 <= i < entries.len() ==> entry_ok(#[trigger] entries[i])
}

/// The bytes of one entry: name, length, value.
pub open spec fn entry_wire(e: Entry) -> Seq<u8> {
    e.name + seq![e.value.len() as u8] + e.value
}

/// The bytes of a reply that carries `entries` in this order.
pub open spec fn reply_wire(entries: Seq<Entry>) -> Seq<u8>
    decreases entries.len(),
{
    if entries.len() == 0 {
        Seq::empty()
    } else {
        entry_wire(entries[0]) + reply_wire(entries.drop_first())
    }
}

/// Whether a whole entry stands at the head of `buf`.
pub open spec fn has_entry(buf: Seq<u8>) -> bool {
    buf.len() >= HEADER_LEN && buf.len() >= HEADER_LEN + buf[4]
}

/// The entry at the head of `buf`.
pub open spec fn head_entry(buf: Seq<u8>) -> Entry
    recommends
        has_entry(buf),
{
    Entry {
        name: buf.subrange(0, 4),
        value: buf.subrange(HEADER_LEN as int, HEADER_LEN + buf[4]),
    }
}

/// The number of bytes that the entry at the head of `buf` takes.
pub open spec fn head_len(buf: Seq<u8>) -> int
    recommends
        has_entry(buf),
{
    HEADER_LEN + buf[4]
}

/// The entries that `buf` consists of, in order, or `None` where `buf` does
/// not divide into whole entries.
pub open spec fn parse_entries(buf: Seq<u8>) -> Option<Seq<Entry>>
    decreases buf.len(),
{
    if buf.len() == 0 {
        Some(Seq::empty())
    } else if !has_entry(buf) {
        None
    } else {
        match parse_entries(buf.skip(head_len(buf))) {
            Some(rest) => Some(seq![head_entry(buf)] + rest),
            None => None,
        }
    }
}

/// The bytes of a request for `names`: the marker, then each name and a NUL.
pub open spec fn request_wire(names: Seq<Seq<u8>>) -> Seq<u8>
    decreases names.len(),
{
    if names.len() == 0 {
        seq![REQUEST_MARKER]
    } else {
        request_wire(names.drop_last()) + names.last() + seq![0u8]
    }
}

/// The names that a responder reads out of the request `frame`, or `None`
/// where `frame` is not the marker followed by names of four bytes, each
/// closed by a NUL.
pub open spec fn read_request(frame: Seq<u8>) -> Option<Seq<Seq<u8>>>
    decreases frame.len(),
{
    if frame.len() == 1 {
        if frame[0] == REQUEST_MARKER {
            Some(Seq::empty())
        } else {
            None
        }
    } else if frame.len() >= 6 && frame.last() == 0 {
        match read_request(frame.take(frame.len() - 5)) {
            Some(names) => Some(names.push(frame.subrange(frame.len() - 5, frame.len() - 1))),
            None => None,
        }
    } else {
        None
    }
}

/// The entry at the head of an entry's bytes followed by anything is that
/// entry.
pub proof fn lemma_head_of_entry(e: Entry, tail: Seq<u8>)
    requires
        entry_ok(e),
    ensures
        has_entry(entry_wire(e) + tail),
        head_entry(entry_wire(e) + tail) == e,
        head_len(entry_wire(e) + tail) == entry_wire(e).len(),
        (entry_wire(e) + tail).skip(entry_wire(e).len() as int) == tail,
{
    let buf = entry_wire(e) + tail;
    assert(buf[4] == e.value.len() as u8);
    assert(head_entry(buf).name =~= e.name);
    assert(head_entry(buf).value =~= e.value);
    assert(buf.skip(entry_wire(e).len() as int) =~= tail);
}

/// Writing what was read gives the bytes that were read, and what was read
/// can be written.
pub proof fn lemma_wire_of_parse(buf: Seq<u8>)
    requires
        parse_entries(buf) is Some,
    ensures
        entries_ok(parse_entries(buf)->0),
        reply_wire(parse_entries(buf)->0) == buf,
    decreases buf.len(),
{
    if buf.len() != 0 {
        let rest_buf = buf.skip(head_len(buf));
        lemma_wire_of_parse(rest_buf);
        let rest = parse_entries(rest_buf)->0;
        let entries = seq![head_entry(buf)] + rest;
        assert(entries.drop_first() =~= rest);
        assert(entry_wire(head_entry(buf)) =~= buf.take(head_len(buf)));
        assert(buf.take(head_len(buf)) + rest_buf =~= buf);
    }
}

/// What stands in front of a part of a reply is read first, and the part
/// after it is read as if it stood alone.
pub proof fn lemma_parse_after_wire(entries: Seq<Entry>, tail: Seq<u8>)
    requires
        entries_ok(entries),
    ensures
        parse_entries(reply_wire(entries) + tail) == match parse_entries(tail) {
            Some(more) => Some(entries + more),
            None => None,
        },
    decreases entries.len(),
{
    if entries.len() == 0 {
        assert(reply_wire(entries) + tail =~= tail);
        if let Some(more) = parse_entries(tail) {
            assert(entries + more =~= more);
        }
    } else {
        let first = entries[0];
        let others = entries.drop_first();
        let rest = reply_wire(others) + tail;
        lemma_head_of_entry(first, rest);
        lemma_parse_after_wire(others, tail);
        assert(reply_wire(entries) + tail =~= entry_wire(first) + rest);
        if let Some(more) = parse_entries(tail) {
            assert(seq![first] + (others + more) =~= entries + more);
        }
    }
}

/// Reading back what was written gives the entries that were written.
pub proof fn lemma_parse_of_wire(entries: Seq<Entry>)
    requires
        entries_ok(entries),
    ensures
        parse_entries(reply_wire(entries)) == Some(entries),
{
    lemma_parse_after_wire(entries, Seq::empty());
    assert(reply_wire(entries) + Seq::<u8>::empty() =~= reply_wire(entries));
    assert(entries + Seq::<Entry>::empty() =~= entries);
}

/// A request has one byte for the marker and five for each name.
pub proof fn lemma_request_wire_len(names: Seq<Seq<u8>>)
    requires
        forall|i: int| 0 <= i < names.len() ==> (#[trigger] names[i]).len() == 4,
    ensures
        request_wire(names).len() == 1 + 5 * names.len(),
        request_wire(names)[0] == REQUEST_MARKER,
        names.len() > 0 ==> request_wire(names).last() == 0,
    decreases names.len(),
{
    if names.len() > 0 {
        lemma_request_wire_len(names.drop_last());
    }
}

/// A responder reads out of a request exactly the names that were written
/// into it, in their order.
pub proof fn lemma_read_of_request(names: Seq<Seq<u8>>)
    requires
        forall|i: int| 0 <= i < names.len() ==> (#[trigger] names[i]).len() == 4,
    ensures
        read_request(request_wire(names)) == Some(names),
    decreases names.len(),
{
    if names.len() == 0 {
        assert(names =~= Seq::empty());
    } else {
        let shorter = names.drop_last();
        let frame = request_wire(names);
        lemma_request_wire_len(names);
        lemma_request_wire_len(shorter);
        lemma_read_of_request(shorter);
        assert(frame.take(frame.len() - 5) =~= request_wire(shorter));
        assert(frame.subrange(frame.len() - 5, frame.len() - 1) =~= names.last());
        assert(shorter.push(names.last()) =~= names);
    }
}

} // verus!
