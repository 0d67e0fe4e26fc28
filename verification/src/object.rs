//! The object codec: the kinds of object, the envelope that wraps a payload
//! with its kind and length, and the way back from envelope bytes to a typed
//! object.

use vstd::prelude::*;
use vstd::slice::{slice_subrange, slice_to_vec};
use crate::bytes::{
    append_bytes, bytes_eq, decimal, find_byte, lemma_decimal_digits, lemma_position_delimited,
    position, push_decimal, NUL, SPACE,
};
use crate::error::StoreError;
use crate::tree::codec::{
    all_well_formed, lemma_tree_round_trip, normalize_all, tree_payload, GitTree,
};
use crate::tree::entry::TreeEntry;
use crate::tree::order::canonical_order;
use crate::tree::parse::parse_entries;

verus! {

/// The kind tag of a blob: the ASCII bytes `blob`.
pub open spec fn blob_kind() -> Seq<u8> {
    seq![0x62u8, 0x6c, 0x6f, 0x62]
}

/// The kind tag of a tree: the ASCII bytes `tree`.
pub open spec fn tree_kind() -> Seq<u8> {
    seq![0x74u8, 0x72, 0x65, 0x65]
}

/// The tag `blob` as bytes.
pub fn blob_tag() -> (tag: &'static [u8])
    ensures
        tag@ == blob_kind(),
{
    let tag = "blob".as_bytes();
    proof {
        reveal_strlit("blob");
        vstd::utf8::is_ascii_chars_encode_utf8("blob"@);
        assert(tag@ =~= blob_kind());
    }
    tag
}

/// The tag `tree` as bytes.
pub fn tree_tag() -> (tag: &'static [u8])
    ensures
        tag@ == tree_kind(),
{
    let tag = "tree".as_bytes();
    proof {
        reveal_strlit("tree");
        vstd::utf8::is_ascii_chars_encode_utf8("tree"@);
        assert(tag@ =~= tree_kind());
    }
    tag
}

/// What every kind of object offers: a kind tag, a payload, and the way back
/// from a payload. The view of an object is what it stands for.
pub trait GitObject: View {
    /// The kind tag, which is written into the envelope as it is and never
    /// derived from the content.
    spec fn kind(&self) -> Seq<u8>;

    /// Whether the object is one that the format can hold.
    spec fn well_formed(&self) -> bool;

    /// The payload bytes of a well-formed object.
    spec fn payload(&self) -> Seq<u8>;

    /// What a payload of this kind stands for, or why it stands for nothing.
    spec fn decoded(data: Seq<u8>) -> Result<Self::V, StoreError>;

    /// Serializes the object into its payload bytes.
    fn serialize(&self) -> (out: Vec<u8>)
        requires
            self.well_formed(),
        ensures
            out@ == self.payload(),
    ;

    /// Replaces the object by what `data` stands for. On an error the object
    /// is left as it was.
    fn deserialize(&mut self, data: &[u8]) -> (done: Result<(), StoreError>)
        ensures
            match Self::decoded(data@) {
                Ok(value) => done is Ok && final(self)@ == value,
                Err(e) => done == Err::<(), StoreError>(e) && final(self)@ == old(self)@,
            },
    ;

    /// The kind tag.
    fn fmt(&self) -> (tag: &[u8])
        ensures
            tag@ == self.kind(),
    ;
}

/// Opaque file content.
#[derive(Debug, PartialEq, Eq)]
pub struct GitBlob {
    /// The content, byte for byte.
    pub blob_data: Vec<u8>,
}

impl View for GitBlob {
    type V = Seq<u8>;

    open spec fn view(&self) -> Seq<u8> {
        self.blob_data@
    }
}

impl GitObject for GitBlob {
    open spec fn kind(&self) -> Seq<u8> {
        blob_kind()
    }

    open spec fn well_formed(&self) -> bool {
        true
    }

    open spec fn payload(&self) -> Seq<u8> {
        self.blob_data@
    }

    open spec fn decoded(data: Seq<u8>) -> Result<Seq<u8>, StoreError> {
        Ok(data)
    }

    fn fmt(&self) -> (tag: &[u8]) {
        blob_tag()
    }

    fn serialize(&self) -> (out: Vec<u8>) {
        self.blob_data.clone()
    }

    fn deserialize(&mut self, data: &[u8]) -> (done: Result<(), StoreError>) {
        self.blob_data = slice_to_vec(data);
        Ok(())
    }
}

/// The envelope of a payload: the kind tag, a space, the payload's length in
/// decimal, a NUL, and the payload itself. These are the bytes that are
/// hashed and compressed.
pub open spec fn envelope(kind: Seq<u8>, payload: Seq<u8>) -> Seq<u8> {
    kind + seq![SPACE] + decimal(payload.len()) + seq![NUL] + payload
}

/// Encodes `object` into its envelope.
pub fn encode_object<T: GitObject>(object: &T) -> (bytes: Vec<u8>)
    requires
        object.well_formed(),
    ensures
        bytes@ == envelope(object.kind(), object.payload()),
{
    let serialized = object.serialize();
    let mut result: Vec<u8> = Vec::new();
    append_bytes(&mut result, object.fmt());
    result.push(SPACE);
    push_decimal(&mut result, serialized.len());
    result.push(NUL);
    append_bytes(&mut result, serialized.as_slice());
    assert(result@ =~= envelope(object.kind(), object.payload()));
    result
}

/// An object of either kind.
#[derive(Debug, PartialEq, Eq)]
pub enum GitObjectType {
    /// File content.
    Blob(GitBlob),
    /// A directory snapshot.
    Tree(GitTree),
}

/// What an object of either kind stands for.
pub enum ObjectView {
    /// The content of a blob.
    Blob(Seq<u8>),
    /// The entries of a tree, in the order in which it holds them.
    Tree(Seq<TreeEntry>),
}

impl View for GitObjectType {
    type V = ObjectView;

    open spec fn view(&self) -> ObjectView {
        match self {
            GitObjectType::Blob(blob) => ObjectView::Blob(blob@),
            GitObjectType::Tree(tree) => ObjectView::Tree(tree@),
        }
    }
}

/// What envelope bytes stand for, or why they stand for nothing.
///
/// The kind tag runs up to the first space and the header up to the first
/// NUL after that space; everything behind that NUL is the payload, whatever
/// it holds. The length field between the two is not consulted. An envelope
/// without the space or without the NUL is malformed; a tag other than `blob`
/// or `tree` is an unknown kind; a tree payload fails as `parse_entries` says.
pub open spec fn decode_envelope(bytes: Seq<u8>) -> Result<ObjectView, StoreError> {
    let space = position(bytes, SPACE);
    let header = bytes.skip(space + 1);
    let nul = position(header, NUL);
    let kind = bytes.take(space);
    let payload = header.skip(nul + 1);
    if space == bytes.len() || nul == header.len() {
        Err(StoreError::MalformedEnvelope)
    } else if kind == blob_kind() {
        Ok(ObjectView::Blob(payload))
    } else if kind == tree_kind() {
        match parse_entries(payload) {
            Ok(entries) => Ok(ObjectView::Tree(entries)),
            Err(e) => Err(e),
        }
    } else {
        Err(StoreError::UnknownObjectKind)
    }
}

/// Decodes envelope bytes into the object that they stand for. The leaves of
/// a tree come out in the order in which the payload holds them.
pub fn decode_object(bytes: &[u8]) -> (decoded: Result<GitObjectType, StoreError>)
    ensures
        match decode_envelope(bytes@) {
            Ok(value) => decoded matches Ok(object) && object@ == value,
            Err(e) => decoded matches Err(err) && err == e,
        },
{
    let space = find_byte(bytes, 0, SPACE);
    assert(bytes@.skip(0) =~= bytes@);
    if space == bytes.len() {
        return Err(StoreError::MalformedEnvelope);
    }
    let nul = find_byte(bytes, space + 1, NUL);
    if nul == bytes.len() {
        return Err(StoreError::MalformedEnvelope);
    }
    let object_type = slice_subrange(bytes, 0, space);
    let byte_contents = slice_subrange(bytes, nul + 1, bytes.len());
    assert(object_type@ =~= bytes@.take(space as int));
    assert(byte_contents@ =~= bytes@.skip(space + 1).skip(nul - space));
    if bytes_eq(object_type, blob_tag()) {
        let mut blob = GitBlob { blob_data: Vec::new() };
        match blob.deserialize(byte_contents) {
            Ok(()) => Ok(GitObjectType::Blob(blob)),
            Err(e) => Err(e),
        }
    } else if bytes_eq(object_type, tree_tag()) {
        let mut tree = GitTree { leaves: Vec::new() };
        match tree.deserialize(byte_contents) {
            Ok(()) => Ok(GitObjectType::Tree(tree)),
            Err(e) => Err(e),
        }
    } else {
        Err(StoreError::UnknownObjectKind)
    }
}

/// An envelope whose kind tag holds no space splits into that tag and its
/// payload, whatever bytes the payload holds.
pub proof fn lemma_envelope_splits(kind: Seq<u8>, payload: Seq<u8>)
    requires
        !kind.contains(SPACE),
    ensures
        ({
            let bytes = envelope(kind, payload);
            let space = position(bytes, SPACE);
            let header = bytes.skip(space + 1);
            let nul = position(header, NUL);
            &&& space < bytes.len()
            &&& nul < header.len()
            &&& bytes.take(space) == kind
            &&& header.skip(nul + 1) == payload
        }),
{
    let digits = decimal(payload.len());
    let bytes = envelope(kind, payload);
    let header = digits + seq![NUL] + payload;
    lemma_decimal_digits(payload.len());
    assert(!digits.contains(NUL));
    assert(bytes =~= kind + seq![SPACE] + header);
    lemma_position_delimited(kind, SPACE, header);
    lemma_position_delimited(digits, NUL, payload);
}

/// Decoding the envelope of a blob gives the blob back, for every content,
/// the empty one and one that holds NUL bytes included.
pub proof fn lemma_blob_round_trip(content: Seq<u8>)
    ensures
        decode_envelope(envelope(blob_kind(), content)) == Ok::<ObjectView, StoreError>(
            ObjectView::Blob(content),
        ),
{
    lemma_envelope_splits(blob_kind(), content);
}

/// Decoding the envelope of a tree gives the tree's entries back, in
/// canonical order and with each mode in six digits.
pub proof fn lemma_tree_object_round_trip(entries: Seq<TreeEntry>)
    requires
        all_well_formed(entries),
    ensures
        decode_envelope(envelope(tree_kind(), tree_payload(entries))) == Ok::<
            ObjectView,
            StoreError,
        >(ObjectView::Tree(normalize_all(canonical_order(entries)))),
{
    lemma_envelope_splits(tree_kind(), tree_payload(entries));
    lemma_tree_round_trip(entries);
    assert(blob_kind()[0] != tree_kind()[0]);
}

} // verus!
