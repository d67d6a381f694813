//! Writing requests and reading replies.

use crate::tag::{is_tag_name, json_tag, name_tag, same_name, uuid_tag, vers_tag, Tag};
use crate::text::is_text;
use crate::wire::{
    has_entry, head_entry, head_len, parse_entries, request_wire, Entry, HEADER_LEN,
    REQUEST_MARKER,
};
use vstd::prelude::*;
use vstd::slice::slice_subrange;
use vstd::slice::slice_to_vec;
use vstd::utf8::valid_utf8;

verus! {

/// Why a reply could not be read.
#[derive(Clone, Copy, Debug, PartialEq, Eq, Structural)]
pub enum DecodeError {
    /// The datagram does not divide into whole entries.
    TruncatedEntry,
    /// The value of a wanted tag is not well-formed UTF-8.
    InvalidEncoding,
}

/// The mapping that `entries` give for the wanted `names`: each wanted name
/// that occurs goes to the value of the last entry that carries it. Entries
/// with other names add nothing.
pub open spec fn reply_map(names: Seq<Seq<u8>>, entries: Seq<Entry>) -> Map<Seq<u8>, Seq<u8>>
    decreases entries.len(),
{
    if entries.len() == 0 {
        Map::empty()
    } else {
        let earlier = reply_map(names, entries.drop_last());
        let e = entries.last();
        if names.contains(e.name) {
            earlier.insert(e.name, e.value)
        } else {
            earlier
        }
    }
}

/// Whether every entry with a wanted name carries well-formed UTF-8.
pub open spec fn text_ok(names: Seq<Seq<u8>>, entries: Seq<Entry>) -> bool {
    forall|i: int|
        0 <= i < entries.len() && names.contains((#[trigger] entries[i]).name) ==> valid_utf8(
            entries[i].value,
        )
}

/// What reading the datagram `buf` for the wanted `names` gives.
///
/// The structure is judged first: bytes that do not divide into whole
/// entries are truncated, whatever they hold. Then the text of the wanted
/// entries, all of them, also those that a later entry overrides.
pub open spec fn decode_model(names: Seq<Seq<u8>>, buf: Seq<u8>) -> Result<
    Map<Seq<u8>, Seq<u8>>,
    DecodeError,
> {
    match parse_entries(buf) {
        None => Err(DecodeError::TruncatedEntry),
        Some(entries) => if text_ok(names, entries) {
            Ok(reply_map(names, entries))
        } else {
            Err(DecodeError::InvalidEncoding)
        },
    }
}

/// One entry as it was read from a reply.
#[derive(Debug, PartialEq, Eq)]
pub struct TlvEntry {
    pub name: [u8; 4],
    pub value: Vec<u8>,
}

impl View for TlvEntry {
    type V = Entry;

    open spec fn view(&self) -> Entry {
        Entry { name: self.name@, value: self.value@ }
    }
}

/// Reads the entry at the head of `buf`.
///
/// Returns the entry and the number of bytes it takes, or `None` where the
/// length byte is missing or claims more bytes than remain.
pub fn parse_entry(buf: &[u8]) -> (res: Option<(TlvEntry, usize)>)
    ensures
        res is Some <==> has_entry(buf@),
        res matches Some((entry, used)) ==> entry@ == head_entry(buf@) && used == head_len(buf@),
{
    if buf.len() < HEADER_LEN {
        return None;
    }
    let n: usize = buf[4] as usize;
    if buf.len() - HEADER_LEN < n {
        return None;
    }
    let name: [u8; 4] = [buf[0], buf[1], buf[2], buf[3]];
    let value = slice_to_vec(slice_subrange(buf, HEADER_LEN, HEADER_LEN + n));
    assert(name@ =~= buf@.subrange(0, 4));
    Some((TlvEntry { name, value }, HEADER_LEN + n))
}

/// The names of `tags`, in order.
pub open spec fn names_of(tags: Seq<Tag>) -> Seq<Seq<u8>> {
    tags.map_values(|t: Tag| t@)
}

/// The tags that a client asks a server for. There is at least one.
#[derive(Debug)]
pub struct DiscoveryRequest {
    tags: Vec<Tag>,
}

impl DiscoveryRequest {
    #[verifier::type_invariant]
    closed spec fn well_formed(self) -> bool {
        self.tags@.len() > 0
    }

    /// The wanted names, in the order in which they are asked for.
    pub closed spec fn names(&self) -> Seq<Seq<u8>> {
        names_of(self.tags@)
    }

    /// A request for `tags`, or `None` where there are none.
    pub fn new(tags: Vec<Tag>) -> (request: Option<DiscoveryRequest>)
        ensures
            request is Some <==> tags@.len() > 0,
            request matches Some(r) ==> r.names() == names_of(tags@),
    {
        if tags.len() == 0 {
            None
        } else {
            Some(DiscoveryRequest { tags })
        }
    }

    /// The request that this client sends: `NAME`, `JSON`, `UUID`, `VERS`.
    pub fn standard() -> (request: DiscoveryRequest)
        ensures
            request.names() == seq![name_tag(), json_tag(), uuid_tag(), vers_tag()],
    {
        let mut tags: Vec<Tag> = Vec::new();
        tags.push(Tag::name());
        tags.push(Tag::json());
        tags.push(Tag::uuid());
        tags.push(Tag::vers());
        assert(names_of(tags@) =~= seq![name_tag(), json_tag(), uuid_tag(), vers_tag()]);
        DiscoveryRequest { tags }
    }

    /// Whether `name` is one of the wanted names.
    pub fn wants(&self, name: &[u8; 4]) -> (wanted: bool)
        ensures
            wanted == self.names().contains(name@),
    {
        let mut i: usize = 0;
        while i < self.tags.len()
            invariant
                i <= self.tags.len(),
                forall|j: int| 0 <= j < i ==> self.names()[j] != name@,
            decreases self.tags.len() - i,
        {
            let bytes = self.tags[i].bytes();
            if same_name(&bytes, name) {
                assert(self.names()[i as int] == name@);
                return true;
            }
            i = i + 1;
        }
        false
    }
}

/// Writes the request datagram: the marker, then each wanted name followed
/// by a NUL, in the order of the request.
pub fn encode(request: &DiscoveryRequest) -> (frame: Vec<u8>)
    ensures
        frame@ == request_wire(request.names()),
        frame@.len() == 1 + 5 * request.names().len(),
        frame@[0] == REQUEST_MARKER,
        frame@.last() == 0,
        request.names().len() > 0,
        forall|i: int| 0 <= i < request.names().len() ==> is_tag_name(#[trigger] request.names()[i]),
{
    proof {
        use_type_invariant(request);
    }
    let ghost names = request.names();
    let mut frame: Vec<u8> = Vec::new();
    frame.push(REQUEST_MARKER);
    let mut i: usize = 0;
    assert(names.take(0) =~= Seq::empty());
    while i < request.tags.len()
        invariant
            names == request.names(),
            i <= request.tags.len(),
            request.tags@.len() == names.len(),
            frame@ == request_wire(names.take(i as int)),
            frame@.len() == 1 + 5 * i,
            frame@[0] == REQUEST_MARKER,
            i > 0 ==> frame@.last() == 0,
            forall|j: int| 0 <= j < i ==> is_tag_name(#[trigger] names[j]),
        decreases request.tags.len() - i,
    {
        let bytes = request.tags[i].bytes();
        let ghost before = frame@;
        frame.push(bytes[0]);
        frame.push(bytes[1]);
        frame.push(bytes[2]);
        frame.push(bytes[3]);
        frame.push(0);
        proof {
            let next = names.take(i + 1);
            assert(next.drop_last() =~= names.take(i as int));
            assert(next.last() == bytes@);
            assert(frame@ =~= before + bytes@ + seq![0u8]);
        }
        i = i + 1;
    }
    assert(names.take(i as int) =~= names);
    frame
}

/// The mapping that `entries` give when every name is wanted.
spec fn entries_map(entries: Seq<Entry>) -> Map<Seq<u8>, Seq<u8>>
    decreases entries.len(),
{
    if entries.len() == 0 {
        Map::empty()
    } else {
        entries_map(entries.drop_last()).insert(entries.last().name, entries.last().value)
    }
}

/// The entries of `kept` as mathematical values.
spec fn views_of(kept: Seq<TlvEntry>) -> Seq<Entry> {
    kept.map_values(|e: TlvEntry| e@)
}

/// What a reply says about the wanted tags: a mapping from tag name to the
/// bytes of the value. Every value is well-formed UTF-8.
#[derive(Debug)]
pub struct DiscoveryReply {
    kept: Vec<TlvEntry>,
}

impl View for DiscoveryReply {
    type V = Map<Seq<u8>, Seq<u8>>;

    closed spec fn view(&self) -> Map<Seq<u8>, Seq<u8>> {
        entries_map(views_of(self.kept@))
    }
}

impl DiscoveryReply {
    #[verifier::type_invariant]
    closed spec fn well_formed(self) -> bool {
        forall|i: int| 0 <= i < self.kept@.len() ==> valid_utf8(#[trigger] self.kept@[i].value@)
    }

    /// The value that the reply gives for `tag`, if it gives one.
    pub fn get(&self, tag: &Tag) -> (value: Option<&Vec<u8>>)
        ensures
            value is Some <==> self@.contains_key(tag@),
            value matches Some(v) ==> v@ == self@[tag@] && valid_utf8(v@),
    {
        proof {
            use_type_invariant(self);
        }
        let wanted = tag.bytes();
        let ghost all = views_of(self.kept@);
        let mut i: usize = self.kept.len();
        assert(all.take(i as int) =~= all);
        while i > 0
            invariant
                i <= self.kept.len(),
                all == views_of(self.kept@),
                wanted@ == tag@,
                self@.contains_key(tag@) <==> entries_map(all.take(i as int)).contains_key(tag@),
                self@.contains_key(tag@) ==> self@[tag@] == entries_map(all.take(i as int))[tag@],
                forall|j: int|
                    0 <= j < self.kept@.len() ==> valid_utf8(#[trigger] self.kept@[j].value@),
            decreases i,
        {
            let ghost upto = all.take(i as int);
            i = i - 1;
            assert(upto.drop_last() =~= all.take(i as int));
            assert(upto.last() == self.kept@[i as int]@);
            if same_name(&self.kept[i].name, &wanted) {
                return Some(&self.kept[i].value);
            }
        }
        None
    }

    /// Whether the reply gives a value for `tag`.
    pub fn contains(&self, tag: &Tag) -> (found: bool)
        ensures
            found == self@.contains_key(tag@),
    {
        self.get(tag).is_some()
    }
}

/// The view of what `decode` returns.
pub open spec fn decoded_view(res: Result<DiscoveryReply, DecodeError>) -> Result<
    Map<Seq<u8>, Seq<u8>>,
    DecodeError,
> {
    match res {
        Ok(reply) => Ok(reply@),
        Err(e) => Err(e),
    }
}

/// `done` followed by what the rest of the datagram parses into.
spec fn after(done: Seq<Entry>, rest: Option<Seq<Entry>>) -> Option<Seq<Entry>> {
    match rest {
        Some(more) => Some(done + more),
        None => None,
    }
}

/// Reads a reply datagram for the tags that `request` asked for.
///
/// The datagram is read entry by entry up to its end. Entries may come in
/// any order. An entry whose name was not asked for is passed over, whatever
/// its value holds. Where a name occurs more than once the last entry wins.
/// A datagram that does not divide into whole entries gives
/// `TruncatedEntry`; otherwise one in which the value of a wanted entry is
/// not well-formed UTF-8 gives `InvalidEncoding`.
pub fn decode(request: &DiscoveryRequest, buf: &[u8]) -> (res: Result<DiscoveryReply, DecodeError>)
    ensures
        decoded_view(res) == decode_model(request.names(), buf@),
{
    let ghost names = request.names();
    let mut kept: Vec<TlvEntry> = Vec::new();
    let mut pos: usize = 0;
    let mut text_good = true;
    let ghost mut done: Seq<Entry> = Seq::empty();
    proof {
        assert(buf@.skip(0) =~= buf@);
        match parse_entries(buf@) {
            Some(more) => {
                assert(done + more =~= more);
            },
            None => {},
        }
    }
    while pos < buf.len()
        invariant
            names == request.names(),
            pos <= buf.len(),
            parse_entries(buf@) == after(done, parse_entries(buf@.skip(pos as int))),
            text_good == text_ok(names, done),
            text_good ==> entries_map(views_of(kept@)) == reply_map(names, done),
            forall|i: int| 0 <= i < kept@.len() ==> valid_utf8(#[trigger] kept@[i].value@),
        decreases buf.len() - pos,
    {
        let rest = slice_subrange(buf, pos, buf.len());
        assert(rest@ =~= buf@.skip(pos as int));
        match parse_entry(rest) {
            None => {
                return Err(DecodeError::TruncatedEntry);
            },
            Some((entry, used)) => {
                let ghost e = entry@;
                let ghost longer = done.push(e);
                proof {
                    assert(longer.drop_last() =~= done);
                    assert(rest@.skip(used as int) =~= buf@.skip(pos + used));
                    match parse_entries(rest@.skip(used as int)) {
                        Some(more) => {
                            assert(done + (seq![e] + more) =~= longer + more);
                        },
                        None => {},
                    }
                    assert(text_ok(names, longer) == (text_ok(names, done) && (names.contains(
                        e.name,
                    ) ==> valid_utf8(e.value)))) by {
                        if text_ok(names, longer) {
                            assert(longer[done.len() as int] == e);
                            assert forall|i: int|
                                0 <= i < done.len() && names.contains(
                                    (#[trigger] done[i]).name,
                                ) implies valid_utf8(done[i].value) by {
                                assert(longer[i] == done[i]);
                            }
                        }
                    }
                }
                if request.wants(&entry.name) {
                    if is_text(entry.value.as_slice()) {
                        let ghost before = views_of(kept@);
                        kept.push(entry);
                        proof {
                            let now = views_of(kept@);
                            assert(now.drop_last() =~= before);
                            assert(now.last() == e);
                        }
                    } else {
                        text_good = false;
                    }
                }
                pos = pos + used;
                proof {
                    done = longer;
                }
            },
        }
    }
    proof {
        assert(buf@.skip(pos as int) =~= Seq::<u8>::empty());
        assert(done + Seq::<Entry>::empty() =~= done);
    }
    if !text_good {
        return Err(DecodeError::InvalidEncoding);
    }
    Ok(DiscoveryReply { kept })
}

} // verus!
