//! What holds of every request, every reply and every attempt.

use crate::attempt::{is_terminal, next, ActionView, EventView, Phase};
use crate::client::{reply_model, select, Discovered, DiscoveryError};
use crate::codec::{decode_model, reply_map, text_ok, DecodeError};
use crate::port::port_value;
use crate::tag::{json_tag, name_tag};
use crate::wire::{
    entries_ok, entry_ok, entry_wire, has_entry, lemma_parse_after_wire, lemma_parse_of_wire,
    lemma_read_of_request, lemma_wire_of_parse, parse_entries, read_request, reply_wire,
    request_wire, Entry,
};
use vstd::prelude::*;
use vstd::utf8::{decode_utf8, valid_utf8};

verus! {

/// Whether no two entries of `entries` carry the same name.
pub open spec fn distinct_names(entries: Seq<Entry>) -> bool {
    forall|i: int, j: int|
        0 <= i < j < entries.len() ==> (#[trigger] entries[i]).name != (#[trigger] entries[j]).name
}

/// Whether some entry of `entries` carries `name`.
pub open spec fn names_entry(entries: Seq<Entry>, name: Seq<u8>) -> bool {
    exists|i: int| 0 <= i < entries.len() && (#[trigger] entries[i]).name == name
}

/// Whether `entries[i]` is the last entry that carries its name.
pub open spec fn is_last_of_name(entries: Seq<Entry>, i: int) -> bool {
    &&& 0 <= i < entries.len()
    &&& forall|j: int| i < j < entries.len() ==> (#[trigger] entries[j]).name != entries[i].name
}

/// The reply of a responder that answers each requested name, in the order
/// of the request, with the value at the same place in `values`.
pub open spec fn answer(names: Seq<Seq<u8>>, values: Seq<Seq<u8>>) -> Seq<Entry> {
    Seq::new(names.len(), |i: int| Entry { name: names[i], value: values[i] })
}

/// The mapping holds exactly the wanted names that some entry carries.
pub proof fn lemma_reply_map_keys(names: Seq<Seq<u8>>, entries: Seq<Entry>, key: Seq<u8>)
    ensures
        reply_map(names, entries).contains_key(key) <==> names.contains(key) && names_entry(
            entries,
            key,
        ),
    decreases entries.len(),
{
    if entries.len() > 0 {
        let earlier = entries.drop_last();
        lemma_reply_map_keys(names, earlier, key);
        if names_entry(earlier, key) {
            let i = choose|i: int| 0 <= i < earlier.len() && (#[trigger] earlier[i]).name == key;
            assert(entries[i].name == key);
        }
        if names_entry(entries, key) {
            let i = choose|i: int| 0 <= i < entries.len() && (#[trigger] entries[i]).name == key;
            if i < earlier.len() {
                assert(earlier[i].name == key);
            }
        }
        if entries.last().name == key {
            assert(entries[entries.len() - 1].name == key);
        }
    }
}

/// The mapping gives a wanted name the value of the last entry that carries
/// it.
pub proof fn lemma_reply_map_value(names: Seq<Seq<u8>>, entries: Seq<Entry>, i: int)
    requires
        is_last_of_name(entries, i),
        names.contains(entries[i].name),
    ensures
        reply_map(names, entries).contains_key(entries[i].name),
        reply_map(names, entries)[entries[i].name] == entries[i].value,
    decreases entries.len(),
{
    if i < entries.len() - 1 {
        let earlier = entries.drop_last();
        assert(entries[entries.len() - 1].name != entries[i].name);
        assert forall|j: int| i < j < earlier.len() implies (#[trigger] earlier[j]).name
            != earlier[i].name by {
            assert(entries[j].name != entries[i].name);
        }
        lemma_reply_map_value(names, earlier, i);
    }
}

/// The grammar of a reply. The datagrams that divide into whole entries are
/// exactly those that some entries are written as, and they divide into
/// those entries and no others.
pub proof fn law_reading_inverts_writing(buf: Seq<u8>, entries: Seq<Entry>)
    ensures
        parse_entries(buf) == Some(entries) <==> entries_ok(entries) && reply_wire(entries) == buf,
{
    if parse_entries(buf) == Some(entries) {
        lemma_wire_of_parse(buf);
    }
    if entries_ok(entries) && reply_wire(entries) == buf {
        lemma_parse_of_wire(entries);
    }
}

/// Round trip. A request is read back as the names it was written from.
/// When a reply that is written from any entries is read for those names,
/// every requested name that an entry carries is found, with exactly the
/// bytes of the last entry that carries it.
pub proof fn law_round_trip(names: Seq<Seq<u8>>, entries: Seq<Entry>, i: int)
    requires
        forall|k: int| 0 <= k < names.len() ==> (#[trigger] names[k]).len() == 4,
        entries_ok(entries),
        text_ok(names, entries),
        is_last_of_name(entries, i),
        names.contains(entries[i].name),
    ensures
        read_request(request_wire(names)) == Some(names),
        decode_model(names, reply_wire(entries)) == Ok::<_, DecodeError>(
            reply_map(names, entries),
        ),
        reply_map(names, entries).contains_key(entries[i].name),
        reply_map(names, entries)[entries[i].name] == entries[i].value,
{
    lemma_read_of_request(names);
    lemma_parse_of_wire(entries);
    lemma_reply_map_value(names, entries, i);
}

/// Round trip with a responder that answers each requested name once, in
/// the order of the request: reading its reply gives every name its value.
pub proof fn law_round_trip_of_answer(names: Seq<Seq<u8>>, values: Seq<Seq<u8>>, i: int)
    requires
        names.len() == values.len(),
        names.no_duplicates(),
        forall|k: int| 0 <= k < names.len() ==> (#[trigger] names[k]).len() == 4,
        forall|k: int|
            0 <= k < values.len() ==> (#[trigger] values[k]).len() <= 255 && valid_utf8(values[k]),
        0 <= i < names.len(),
    ensures
        decode_model(names, reply_wire(answer(names, values))) matches Ok(reply)
            && reply.contains_key(names[i]) && reply[names[i]] == values[i],
{
    let entries = answer(names, values);
    assert(names.contains(entries[i].name));
    assert forall|k: int| 0 <= k < entries.len() implies entry_ok(#[trigger] entries[k])
        && valid_utf8(entries[k].value) by {
        assert(names[k].len() == 4);
        assert(values[k].len() <= 255);
    }
    law_round_trip(names, entries, i);
}

/// Order independence. Two replies that carry the same entries in
/// different orders, no name twice, read as the same mapping, or fail alike.
pub proof fn law_order_independent(names: Seq<Seq<u8>>, a: Seq<Entry>, b: Seq<Entry>)
    requires
        entries_ok(a),
        distinct_names(a),
        a.to_multiset() == b.to_multiset(),
    ensures
        decode_model(names, reply_wire(a)) == decode_model(names, reply_wire(b)),
        reply_model(names, reply_wire(a)) == reply_model(names, reply_wire(b)),
{
    a.to_multiset_ensures();
    b.to_multiset_ensures();
    assert(a.no_duplicates());
    a.lemma_multiset_has_no_duplicates();
    b.lemma_multiset_has_no_duplicates_conv();
    assert forall|j: int| 0 <= j < b.len() implies a.contains(#[trigger] b[j]) by {
        assert(b.contains(b[j]));
        assert(b.to_multiset().count(b[j]) > 0);
        assert(a.to_multiset().count(b[j]) > 0);
    }
    assert forall|j: int| 0 <= j < a.len() implies b.contains(#[trigger] a[j]) by {
        assert(a.contains(a[j]));
        assert(a.to_multiset().count(a[j]) > 0);
        assert(b.to_multiset().count(a[j]) > 0);
    }
    assert(entries_ok(b)) by {
        assert forall|j: int| 0 <= j < b.len() implies entry_ok(#[trigger] b[j]) by {
            assert(a.contains(b[j]));
        }
    }
    assert(distinct_names(b)) by {
        assert forall|i: int, j: int| 0 <= i < j < b.len() implies (#[trigger] b[i]).name != (
        #[trigger] b[j]).name by {
            assert(a.contains(b[i]));
            assert(a.contains(b[j]));
            let p = choose|p: int| 0 <= p < a.len() && a[p] == b[i];
            let q = choose|q: int| 0 <= q < a.len() && a[q] == b[j];
            if b[i].name == b[j].name {
                if p < q {
                    assert(a[p].name != a[q].name);
                } else if q < p {
                    assert(a[q].name != a[p].name);
                }
                assert(b[i] == b[j]);
            }
        }
    }
    lemma_parse_of_wire(a);
    lemma_parse_of_wire(b);
    assert(text_ok(names, a) == text_ok(names, b)) by {
        if text_ok(names, a) {
            assert forall|j: int|
                0 <= j < b.len() && names.contains((#[trigger] b[j]).name) implies valid_utf8(
                b[j].value,
            ) by {
                let p = choose|p: int| 0 <= p < a.len() && a[p] == b[j];
                assert(names.contains(a[p].name));
            }
        }
        if text_ok(names, b) {
            assert forall|j: int|
                0 <= j < a.len() && names.contains((#[trigger] a[j]).name) implies valid_utf8(
                a[j].value,
            ) by {
                let p = choose|p: int| 0 <= p < b.len() && b[p] == a[j];
                assert(names.contains(b[p].name));
            }
        }
    }
    let ma = reply_map(names, a);
    let mb = reply_map(names, b);
    assert forall|key: Seq<u8>| ma.contains_key(key) <==> mb.contains_key(key) by {
        lemma_reply_map_keys(names, a, key);
        lemma_reply_map_keys(names, b, key);
        if names_entry(a, key) {
            let p = choose|p: int| 0 <= p < a.len() && (#[trigger] a[p]).name == key;
            assert(b.contains(a[p]));
            let q = choose|q: int| 0 <= q < b.len() && b[q] == a[p];
            assert(b[q].name == key);
        }
        if names_entry(b, key) {
            let p = choose|p: int| 0 <= p < b.len() && (#[trigger] b[p]).name == key;
            assert(a.contains(b[p]));
            let q = choose|q: int| 0 <= q < a.len() && a[q] == b[p];
            assert(a[q].name == key);
        }
    }
    assert forall|key: Seq<u8>| ma.contains_key(key) implies ma[key] == mb[key] by {
        lemma_reply_map_keys(names, a, key);
        let p = choose|p: int| 0 <= p < a.len() && (#[trigger] a[p]).name == key;
        assert(b.contains(a[p]));
        let q = choose|q: int| 0 <= q < b.len() && b[q] == a[p];
        lemma_reply_map_value(names, a, p);
        lemma_reply_map_value(names, b, q);
    }
    assert(ma =~= mb);
}

/// Truncation. A reply that breaks off inside an entry, in the name, before
/// the length or short of the bytes that the length announces, is never read
/// in part: it is malformed, whatever stands before the break.
pub proof fn law_truncated_is_malformed(
    names: Seq<Seq<u8>>,
    entries: Seq<Entry>,
    broken: Entry,
    cut: int,
)
    requires
        entries_ok(entries),
        entry_ok(broken),
        0 < cut < entry_wire(broken).len(),
    ensures
        decode_model(names, reply_wire(entries) + entry_wire(broken).take(cut)) == Err::<
            Map<Seq<u8>, Seq<u8>>,
            _,
        >(DecodeError::TruncatedEntry),
        reply_model(names, reply_wire(entries) + entry_wire(broken).take(cut)) == Err::<
            Discovered,
            _,
        >(DiscoveryError::MalformedReply(DecodeError::TruncatedEntry)),
{
    let part = entry_wire(broken).take(cut);
    lemma_parse_after_wire(entries, part);
    if cut >= 5 {
        assert(part[4] == broken.value.len() as u8);
    }
    assert(!has_entry(part));
}

/// Missing port. A reply that can be read and in which no entry is named
/// `JSON` gives `MissingField`.
pub proof fn law_missing_port_tag(names: Seq<Seq<u8>>, entries: Seq<Entry>)
    requires
        entries_ok(entries),
        text_ok(names, entries),
        !names_entry(entries, json_tag()),
    ensures
        reply_model(names, reply_wire(entries)) == Err::<Discovered, _>(
            DiscoveryError::MissingField,
        ),
{
    lemma_parse_of_wire(entries);
    lemma_reply_map_keys(names, entries, json_tag());
}

/// Nothing is made up. Where a datagram yields a server, the datagram
/// divides into entries, the port is what the last `JSON` entry denotes, and
/// the name is the text of the last `NAME` entry; both names were asked for.
pub proof fn law_result_comes_from_reply(names: Seq<Seq<u8>>, buf: Seq<u8>)
    requires
        reply_model(names, buf) is Ok,
    ensures
        parse_entries(buf) matches Some(entries) && exists|i: int, j: int|
            {
                &&& is_last_of_name(entries, i)
                &&& is_last_of_name(entries, j)
                &&& (#[trigger] entries[i]).name == name_tag()
                &&& (#[trigger] entries[j]).name == json_tag()
                &&& valid_utf8(entries[i].value)
                &&& reply_model(names, buf)->Ok_0.hostname == decode_utf8(entries[i].value)
                &&& port_value(entries[j].value) == Some(reply_model(names, buf)->Ok_0.port)
            },
        names.contains(name_tag()),
        names.contains(json_tag()),
{
    let entries = parse_entries(buf)->0;
    let reply = reply_map(names, entries);
    assert(select(reply) is Ok);
    lemma_reply_map_keys(names, entries, name_tag());
    lemma_reply_map_keys(names, entries, json_tag());
    let i = lemma_last_of_name(entries, name_tag());
    let j = lemma_last_of_name(entries, json_tag());
    lemma_reply_map_value(names, entries, i);
    lemma_reply_map_value(names, entries, j);
    assert(entries[i].name == name_tag() && entries[j].name == json_tag());
}

/// Among the entries that carry `name` one is the last.
pub proof fn lemma_last_of_name(entries: Seq<Entry>, name: Seq<u8>) -> (i: int)
    requires
        names_entry(entries, name),
    ensures
        is_last_of_name(entries, i),
        entries[i].name == name,
    decreases entries.len(),
{
    if entries.last().name == name {
        entries.len() - 1
    } else {
        let earlier = entries.drop_last();
        let k = choose|k: int| 0 <= k < entries.len() && (#[trigger] entries[k]).name == name;
        assert(earlier[k].name == name);
        let i = lemma_last_of_name(earlier, name);
        assert forall|j: int| i < j < entries.len() implies (#[trigger] entries[j]).name
            != entries[i].name by {
            if j < earlier.len() {
                assert(earlier[j].name != earlier[i].name);
            }
        }
        i
    }
}

/// An attempt runs once. It never returns to `Idle`. Once it has ended it
/// stays as it is and asks for nothing. It hands out an outcome exactly
/// when it ends, and the outcome is that of the phase it ends in. It gives
/// up waiting only when the time allowed has gone by, and reads a reply
/// only while one is awaited.
pub proof fn law_attempt_runs_once(
    names: Seq<Seq<u8>>,
    timeout_ms: u64,
    phase: Phase,
    event: EventView,
)
    ensures
        ({
            let (after, action) = next(names, timeout_ms, phase, event);
            &&& phase != Phase::Idle ==> after != Phase::Idle
            &&& is_terminal(phase) ==> after == phase && action is Ignore
            &&& action is Finish <==> !is_terminal(phase) && is_terminal(after)
            &&& action is Broadcast <==> phase is Idle && after is Sent
            &&& action matches ActionView::Finish(outcome) ==> match after {
                Phase::Succeeded => outcome is Ok,
                Phase::Failed(e) => outcome == Err::<Discovered, _>(e),
                Phase::TimedOut => outcome == Err::<Discovered, _>(
                    DiscoveryError::Timeout,
                ),
                _ => false,
            }
            &&& after is TimedOut && !(phase is TimedOut) ==> phase is Sent && (
            event matches EventView::Waited(ms) && ms >= timeout_ms)
            &&& after is Succeeded && !(phase is Succeeded) ==> phase is Sent && (
            event matches EventView::Datagram(payload) && action == ActionView::Finish(
                reply_model(names, payload),
            ))
        }),
{
}

} // verus!
