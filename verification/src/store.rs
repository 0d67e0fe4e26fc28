//! The object store's two paths, as far as they compute: from an object to
//! the digest, the location and the bytes to be written, and from the bytes
//! that were read back to the object.

use vstd::prelude::*;
use vstd::string::{StrSliceExecFns, StringExecFns};
use crate::compression::{compress, decompress, zlib_decoded, zlib_encoded};
use crate::digest::{digest, digest_text, is_digest_text, MAX_HASHED_LEN};
use crate::error::StoreError;
use crate::hexadecimal::lemma_hex_is_ascii;
use crate::object::{
    decode_envelope, decode_object, encode_object, envelope, lemma_blob_round_trip, GitBlob,
    GitObject, GitObjectType, ObjectView,
};
use crate::tree::codec::GitTree;

verus! {

/// The directory that holds the object with this digest: `objects/` and the
/// digest's first two characters.
pub open spec fn storage_directory(digest: Seq<char>) -> Seq<char> {
    "objects/"@ + digest.take(2)
}

/// The file that holds the object with this digest: its directory, a slash,
/// and the digest's other thirty-eight characters.
pub open spec fn storage_path(digest: Seq<char>) -> Seq<char> {
    storage_directory(digest) + "/"@ + digest.skip(2)
}

/// Whether `text` has the form of a digest: forty lowercase hexadecimal
/// characters.
pub fn is_digest(text: &str) -> (valid: bool)
    ensures
        valid == is_digest_text(text@),
{
    if !text.is_ascii() {
        proof {
            if is_digest_text(text@) {
                lemma_hex_is_ascii(text@);
            }
        }
        return false;
    }
    let bytes = text.as_bytes();
    proof {
        vstd::utf8::is_ascii_chars_encode_utf8(text@);
    }
    if bytes.len() != 40 {
        return false;
    }
    let mut i: usize = 0;
    while i < 40
        invariant
            i <= 40,
            bytes@.len() == 40,
            text@.len() == 40,
            vstd::utf8::is_ascii_chars(text@),
            forall|k: int| 0 <= k < 40 ==> text@[k] as u8 == #[trigger] bytes@[k],
            forall|k: int|
                0 <= k < i ==> crate::hexadecimal::is_lower_hex_digit(#[trigger] text@[k]),
        decreases 40 - i,
    {
        let b = bytes[i];
        let ghost c = text@[i as int];
        assert(c as u8 == b);
        assert('\0' <= c <= '\u{7f}');
        if !((0x30 <= b && b <= 0x39) || (0x61 <= b && b <= 0x66)) {
            assert(!crate::hexadecimal::is_lower_hex_digit(c));
            return false;
        }
        i += 1;
    }
    true
}

/// The directory of the object with this digest, relative to the repository
/// root, or `None` where `digest` does not have the form of a digest.
pub fn object_directory(digest: &str) -> (directory: Option<String>)
    ensures
        is_digest_text(digest@) ==> (directory matches Some(d) && d@ == storage_directory(digest@)),
        !is_digest_text(digest@) ==> directory is None,
{
    if !is_digest(digest) {
        return None;
    }
    proof {
        lemma_hex_is_ascii(digest@);
    }
    let mut directory = String::from_str("objects/");
    directory.append(digest.substring_ascii(0, 2));
    assert(directory@ =~= storage_directory(digest@));
    Some(directory)
}

/// The file of the object with this digest, relative to the repository root,
/// or `None` where `digest` does not have the form of a digest.
pub fn object_path(digest: &str) -> (path: Option<String>)
    ensures
        is_digest_text(digest@) ==> (path matches Some(p) && p@ == storage_path(digest@)),
        !is_digest_text(digest@) ==> path is None,
{
    let mut path = match object_directory(digest) {
        Some(directory) => directory,
        None => {
            return None;
        },
    };
    proof {
        lemma_hex_is_ascii(digest@);
    }
    path.append("/");
    path.append(digest.substring_ascii(2, 40));
    assert(path@ =~= storage_path(digest@));
    Some(path)
}

/// What is to be written for one object, and where.
#[derive(Debug, PartialEq, Eq)]
pub struct StoredObject {
    /// The object's digest, as forty lowercase hexadecimal characters.
    pub digest: String,
    /// The directory to create if it is absent, relative to the repository
    /// root.
    pub directory: String,
    /// The file to write, relative to the repository root.
    pub path: String,
    /// The file's content: the compressed envelope.
    pub compressed: Vec<u8>,
}

impl StoredObject {
    /// The digest is that of `bytes`, the location is derived from the
    /// digest, and the content decompresses to `bytes`.
    pub open spec fn holds(&self, bytes: Seq<u8>) -> bool {
        &&& self.digest@ == digest_text(bytes)
        &&& self.directory@ == storage_directory(self.digest@)
        &&& self.path@ == storage_path(self.digest@)
        &&& zlib_decoded(self.compressed@) == Some(bytes)
    }

    /// Puts the location that belongs to `digest` beside the compressed
    /// bytes.
    pub fn new(digest: String, compressed: Vec<u8>) -> (stored: StoredObject)
        requires
            is_digest_text(digest@),
        ensures
            stored.digest@ == digest@,
            stored.directory@ == storage_directory(digest@),
            stored.path@ == storage_path(digest@),
            stored.compressed@ == compressed@,
    {
        let directory = object_directory(digest.as_str()).unwrap();
        let path = object_path(digest.as_str()).unwrap();
        StoredObject { digest, directory, path, compressed }
    }
}

/// Prepares `object` for writing: encodes it into its envelope, takes the
/// envelope's digest, derives the location from the digest and compresses the
/// envelope. Writing the same object again gives the same digest, the same
/// location and the same content. The result is `None` exactly where the
/// encoder reports a failure on the envelope.
pub fn write_object<T: GitObject>(object: &T) -> (stored: Option<StoredObject>)
    requires
        object.well_formed(),
        envelope(object.kind(), object.payload()).len() <= MAX_HASHED_LEN,
    ensures
        match zlib_encoded(envelope(object.kind(), object.payload())) {
            Some(stream) => stored matches Some(s) && s.compressed@ == stream,
            None => stored is None,
        },
        stored matches Some(s) ==> s.holds(envelope(object.kind(), object.payload())),
{
    let result = encode_object(object);
    let sha_string = digest(result.as_slice());
    match compress(result.as_slice()) {
        Some(compressed) => Some(StoredObject::new(sha_string, compressed)),
        None => None,
    }
}

/// What reading yields for what was found at an object's location: nothing
/// there is `ObjectNotFound`, bytes that do not decompress are
/// `CorruptStream`, and what decompresses is decoded as an envelope.
pub open spec fn read_outcome(found: Option<Seq<u8>>) -> Result<ObjectView, StoreError> {
    match found {
        None => Err(StoreError::ObjectNotFound),
        Some(bytes) => match zlib_decoded(bytes) {
            None => Err(StoreError::CorruptStream),
            Some(plain) => decode_envelope(plain),
        },
    }
}

/// Reconstructs the object from the content of the file at its location;
/// `None` says that there is no such file.
pub fn read_object(found: Option<&[u8]>) -> (object: Result<GitObjectType, StoreError>)
    ensures
        match read_outcome(
            match found {
                Some(bytes) => Some(bytes@),
                None => None,
            },
        ) {
            Ok(value) => object matches Ok(o) && o@ == value,
            Err(e) => object matches Err(err) && err == e,
        },
{
    let data = match found {
        Some(data) => data,
        None => {
            return Err(StoreError::ObjectNotFound);
        },
    };
    let decoded_bytes = match decompress(data) {
        Ok(bytes) => bytes,
        Err(e) => {
            return Err(e);
        },
    };
    decode_object(decoded_bytes.as_slice())
}

/// The paths of a tree's leaves, in the order in which the tree holds them.
pub fn ls_tree(tree: &GitTree) -> (paths: Vec<String>)
    ensures
        paths@.len() == tree.leaves@.len(),
        forall|i: int| 0 <= i < paths@.len() ==> (#[trigger] paths@[i])@ == tree.leaves@[i].path@,
{
    let mut paths: Vec<String> = Vec::new();
    let mut i: usize = 0;
    while i < tree.leaves.len()
        invariant
            i <= tree.leaves@.len(),
            paths@.len() == i,
            forall|k: int| 0 <= k < i ==> (#[trigger] paths@[k])@ == tree.leaves@[k].path@,
        decreases tree.leaves@.len() - i,
    {
        paths.push(tree.leaves[i].path.clone());
        i += 1;
    }
    paths
}

/// Writing the same content twice gives the same digest and the same
/// location both times.
pub proof fn lemma_write_is_repeatable(
    first: GitBlob,
    second: GitBlob,
    stored_first: StoredObject,
    stored_second: StoredObject,
)
    requires
        first@ == second@,
        stored_first.holds(envelope(first.kind(), first.payload())),
        stored_second.holds(envelope(second.kind(), second.payload())),
    ensures
        stored_first.digest@ == stored_second.digest@,
        stored_first.directory@ == stored_second.directory@,
        stored_first.path@ == stored_second.path@,
{
}

/// What was prepared for writing a blob reads back as that blob.
pub proof fn lemma_blob_reads_back(blob: GitBlob, stored: StoredObject)
    requires
        stored.holds(envelope(blob.kind(), blob.payload())),
    ensures
        read_outcome(Some(stored.compressed@)) == Ok::<ObjectView, StoreError>(
            ObjectView::Blob(blob@),
        ),
{
    lemma_blob_round_trip(blob@);
}

} // verus!
