//! Four-character tag names.

use vstd::prelude::*;

verus! {

/// Whether `b` is a seven-bit ASCII code.
pub open spec fn is_ascii_byte(b: u8) -> bool {
    b < 0x80
}

/// Whether `s` can name a tag: four ASCII bytes.
pub open spec fn is_tag_name(s: Seq<u8>) -> bool {
    &&& s.len() == 4
    &&& forall|i: int| 0 <= i < 4 ==> is_ascii_byte(#[trigger] s[i])
}

/// The name of the tag that carries the server's name: `NAME`.
pub open spec fn name_tag() -> Seq<u8> {
    seq![0x4eu8, 0x41u8, 0x4du8, 0x45u8]
}

/// The name of the tag that carries the control port: `JSON`. Despite its
/// name the value is the port in decimal.
pub open spec fn json_tag() -> Seq<u8> {
    seq![0x4au8, 0x53u8, 0x4fu8, 0x4eu8]
}

/// The name of the tag that carries the server's identifier: `UUID`.
pub open spec fn uuid_tag() -> Seq<u8> {
    seq![0x55u8, 0x55u8, 0x49u8, 0x44u8]
}

/// The name of the tag that carries the server's version: `VERS`.
pub open spec fn vers_tag() -> Seq<u8> {
    seq![0x56u8, 0x45u8, 0x52u8, 0x53u8]
}

/// Whether two names of four bytes hold the same bytes.
pub fn same_name(a: &[u8; 4], b: &[u8; 4]) -> (same: bool)
    ensures
        same == (a@ == b@),
{
    let same = a[0] == b[0] && a[1] == b[1] && a[2] == b[2] && a[3] == b[3];
    proof {
        if same {
            assert(a@ =~= b@);
        }
    }
    same
}

/// A tag name: four ASCII characters.
#[derive(Clone, Copy, Debug)]
pub struct Tag {
    bytes: [u8; 4],
}

impl View for Tag {
    type V = Seq<u8>;

    closed spec fn view(&self) -> Seq<u8> {
        self.bytes@
    }
}

impl Tag {
    /// Every tag holds a tag name.
    #[verifier::type_invariant]
    closed spec fn well_formed(self) -> bool {
        is_tag_name(self.bytes@)
    }

    /// Makes a tag from four bytes, if all of them are ASCII.
    pub fn new(bytes: [u8; 4]) -> (tag: Option<Tag>)
        ensures
            tag is Some <==> is_tag_name(bytes@),
            tag matches Some(t) ==> t@ == bytes@,
    {
        if bytes[0] < 0x80 && bytes[1] < 0x80 && bytes[2] < 0x80 && bytes[3] < 0x80 {
            Some(Tag { bytes })
        } else {
            None
        }
    }

    /// The tag `NAME`.
    pub fn name() -> (tag: Tag)
        ensures
            tag@ == name_tag(),
    {
        let bytes: [u8; 4] = [0x4e, 0x41, 0x4d, 0x45];
        Tag { bytes }
    }

    /// The tag `JSON`.
    pub fn json() -> (tag: Tag)
        ensures
            tag@ == json_tag(),
    {
        let bytes: [u8; 4] = [0x4a, 0x53, 0x4f, 0x4e];
        Tag { bytes }
    }

    /// The tag `UUID`.
    pub fn uuid() -> (tag: Tag)
        ensures
            tag@ == uuid_tag(),
    {
        let bytes: [u8; 4] = [0x55, 0x55, 0x49, 0x44];
        Tag { bytes }
    }

    /// The tag `VERS`.
    pub fn vers() -> (tag: Tag)
        ensures
            tag@ == vers_tag(),
    {
        let bytes: [u8; 4] = [0x56, 0x45, 0x52, 0x53];
        Tag { bytes }
    }

    /// The four bytes of the name.
    pub fn bytes(&self) -> (bytes: [u8; 4])
        ensures
            bytes@ == self@,
            is_tag_name(bytes@),
    {
        proof {
            use_type_invariant(self);
        }
        self.bytes
    }
}

} // verus!
