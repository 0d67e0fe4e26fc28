//! One directory member: its mathematical model, its executable form and the
//! key by which members are ordered.

use vstd::prelude::*;
use vstd::utf8::encode_utf8;
use crate::bytes::{append_bytes, find_byte, lemma_position, lex_le, NUL, SPACE};
use crate::hexadecimal::{hex_bytes, hex_decode, is_hex_string, is_lower_hex_digit};

verus! {

/// The character appended to a directory's path when entries are ordered.
pub const SEPARATOR: char = '\\';

/// An ASCII digit from `0` to `7`.
pub open spec fn is_octal_digit(b: u8) -> bool {
    0x30 <= b <= 0x37
}

/// A file mode as it may be supplied: five or six octal digits.
pub open spec fn is_mode(mode: Seq<u8>) -> bool {
    &&& mode.len() == 5 || mode.len() == 6
    &&& forall|i: int| 0 <= i < mode.len() ==> is_octal_digit(#[trigger] mode[i])
}

/// The six-digit form of a mode: a five-digit mode gets a `0` in front.
pub open spec fn normal_mode(mode: Seq<u8>) -> Seq<u8> {
    if mode.len() == 5 {
        seq![0x30u8] + mode
    } else {
        mode
    }
}

/// A directory member: a file mode, a name, and the raw digest of the object
/// that the member refers to.
pub struct TreeEntry {
    /// The mode as ASCII octal digits.
    pub mode: Seq<u8>,
    /// The member's name.
    pub path: Seq<char>,
    /// The raw digest of the child object.
    pub digest: Seq<u8>,
}

impl TreeEntry {
    /// The name as it is written: its UTF-8 encoding.
    pub open spec fn path_bytes(self) -> Seq<u8> {
        encode_utf8(self.path)
    }

    /// The mode is five or six octal digits, the written name holds no NUL,
    /// and the digest is twenty bytes.
    pub open spec fn well_formed(self) -> bool {
        &&& is_mode(self.mode)
        &&& !self.path_bytes().contains(NUL)
        &&& self.digest.len() == 20
    }

    /// The same member with its mode in six digits.
    pub open spec fn normalized(self) -> TreeEntry {
        TreeEntry { mode: normal_mode(self.mode), path: self.path, digest: self.digest }
    }

    /// Whether the mode is of the regular-file family: its six-digit form
    /// starts with `10`.
    pub open spec fn is_regular_file(self) -> bool {
        let mode = normal_mode(self.mode);
        mode.len() >= 2 && mode[0] == 0x31 && mode[1] == 0x30
    }

    /// The name by which the member is ordered: its path, followed by the
    /// separator unless the member is a regular file.
    pub open spec fn sort_key(self) -> Seq<char> {
        if self.is_regular_file() {
            self.path
        } else {
            self.path.push(SEPARATOR)
        }
    }

    /// The written form of the sort key.
    pub open spec fn sort_key_bytes(self) -> Seq<u8> {
        encode_utf8(self.sort_key())
    }

    /// The member's bytes in a tree payload: the six-digit mode, a space, the
    /// name, a NUL and the raw digest.
    pub open spec fn encoded(self) -> Seq<u8> {
        normal_mode(self.mode) + seq![SPACE] + self.path_bytes() + seq![NUL] + self.digest
    }
}

/// Whether `a` may stand before `b` in canonical order: its sort key is at or
/// before that of `b`, byte by byte.
pub open spec fn entry_le(a: TreeEntry, b: TreeEntry) -> bool {
    lex_le(a.sort_key_bytes(), b.sort_key_bytes())
}

/// A directory member as a program holds it. The digest of the child object
/// is kept as hexadecimal text.
#[derive(Debug, PartialEq, Eq)]
pub struct GitTreeLeaf {
    /// The file mode as ASCII octal digits, five or six of them.
    pub mode: Vec<u8>,
    /// The member's name.
    pub path: String,
    /// The digest of the child object, as forty hexadecimal characters.
    pub sha_hash: String,
}

impl View for GitTreeLeaf {
    type V = TreeEntry;

    open spec fn view(&self) -> TreeEntry {
        TreeEntry { mode: self.mode@, path: self.path@, digest: hex_bytes(self.sha_hash@) }
    }
}

impl Clone for GitTreeLeaf {
    fn clone(&self) -> (copy: Self)
        ensures
            copy.mode@ == self.mode@,
            copy.path@ == self.path@,
            copy.sha_hash@ == self.sha_hash@,
            copy@ == self@,
    {
        GitTreeLeaf {
            mode: self.mode.clone(),
            path: self.path.clone(),
            sha_hash: self.sha_hash.clone(),
        }
    }
}

/// Whether `mode` is five or six octal digits.
pub fn is_valid_mode(mode: &[u8]) -> (valid: bool)
    ensures
        valid == is_mode(mode@),
{
    if mode.len() != 5 && mode.len() != 6 {
        return false;
    }
    let mut i: usize = 0;
    while i < mode.len()
        invariant
            i <= mode@.len(),
            forall|k: int| 0 <= k < i ==> is_octal_digit(#[trigger] mode@[k]),
        decreases mode@.len() - i,
    {
        if mode[i] < 0x30 || mode[i] > 0x37 {
            return false;
        }
        i += 1;
    }
    true
}

/// Whether a mode, a path and a digest text make a leaf: the mode is five or
/// six octal digits, the written path holds no NUL, and the digest text is
/// forty hexadecimal characters of either case.
pub open spec fn is_leaf(mode: Seq<u8>, path: Seq<char>, sha_hash: Seq<char>) -> bool {
    &&& is_mode(mode)
    &&& !encode_utf8(path).contains(NUL)
    &&& sha_hash.len() == 40
    &&& is_hex_string(sha_hash)
}

impl GitTreeLeaf {
    /// The leaf's fields make a leaf. A well-formed leaf stands for a
    /// well-formed entry.
    pub open spec fn well_formed(&self) -> bool {
        is_leaf(self.mode@, self.path@, self.sha_hash@)
    }

    /// The form in which parsing hands leaves out: a six-digit mode and
    /// lowercase digest text.
    pub open spec fn is_normal(&self) -> bool {
        &&& self.well_formed()
        &&& self.mode@.len() == 6
        &&& forall|i: int|
            0 <= i < self.sha_hash@.len() ==> is_lower_hex_digit(#[trigger] self.sha_hash@[i])
    }

    /// Whether the leaf is well formed: a mode of five or six octal digits,
    /// a path without NUL, and a digest of forty hexadecimal characters.
    pub fn is_valid(&self) -> (valid: bool)
        ensures
            valid == self.well_formed(),
    {
        if !is_valid_mode(self.mode.as_slice()) {
            return false;
        }
        let path_bytes = self.path.as_str().as_bytes();
        proof {
            lemma_position(path_bytes@, NUL);
            assert(path_bytes@.skip(0) =~= path_bytes@);
        }
        if find_byte(path_bytes, 0, NUL) != path_bytes.len() {
            return false;
        }
        match hex_decode(self.sha_hash.as_str()) {
            Some(digest) => digest.len() == 20,
            None => false,
        }
    }

    /// A leaf with the given mode, path and digest text, its mode brought to
    /// six digits, or `None` where the three do not make a well-formed leaf.
    pub fn new(mode: &[u8], path: String, sha_hash: String) -> (made: Option<GitTreeLeaf>)
        ensures
            made is Some <==> is_leaf(mode@, path@, sha_hash@),
            made matches Some(leaf) ==> leaf.well_formed() && leaf.mode@ == normal_mode(mode@)
                && leaf.path@ == path@ && leaf.sha_hash@ == sha_hash@,
    {
        if !is_valid_mode(mode) {
            return None;
        }
        let mut normal: Vec<u8> = Vec::new();
        if mode.len() == 5 {
            normal.push(0x30);
        }
        append_bytes(&mut normal, mode);
        assert(normal@ =~= normal_mode(mode@));
        let leaf = GitTreeLeaf { mode: normal, path, sha_hash };
        if leaf.is_valid() {
            Some(leaf)
        } else {
            None
        }
    }
}

/// The name by which `leaf` is ordered among the members of its tree: the
/// path of a regular file as it is, any other path with the separator
/// appended, so that a directory sorts as if its name ended in one.
pub fn tree_leaf_sort_key(leaf: &GitTreeLeaf) -> (key: String)
    ensures
        key@ == leaf@.sort_key(),
{
    let mode = &leaf.mode;
    let regular = mode.len() != 5 && mode.len() >= 2 && mode[0] == 0x31 && mode[1] == 0x30;
    let mut key = leaf.path.clone();
    if !regular {
        proof {
            reveal_strlit("\\");
            assert("\\"@ =~= seq![SEPARATOR]);
        }
        key.append("\\");
        assert(key@ =~= leaf.path@.push(SEPARATOR));
    }
    key
}

} // verus!
