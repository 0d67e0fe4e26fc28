//! Reading a tree payload: one entry after another, from the first byte to
//! the last.

use vstd::prelude::*;
use vstd::slice::{slice_subrange, slice_to_vec};
use vstd::utf8::{decode_utf8, valid_utf8};
use crate::bytes::{append_bytes, find_byte, lemma_position, position, NUL, SPACE};
use crate::error::StoreError;
use crate::hexadecimal::{hex_encode, lemma_hex_round_trip};
use crate::tree::entry::{is_mode, is_valid_mode, normal_mode, GitTreeLeaf, TreeEntry};

verus! {

/// The entry that `s` starts with and the number of bytes it takes, or the
/// reason why `s` starts with none.
///
/// The mode runs up to the first space and the path from there up to the
/// next NUL; twenty digest bytes follow. Where the payload ends before the
/// space, before the NUL or inside the digest, the entry is truncated. Where
/// the mode is not five or six octal digits, or the path is not UTF-8, the
/// entry is malformed.
pub open spec fn parse_entry(s: Seq<u8>) -> Result<(TreeEntry, int), StoreError> {
    let space = position(s, SPACE);
    let rest = s.skip(space + 1);
    let nul = position(rest, NUL);
    if space == s.len() {
        Err(StoreError::TruncatedTreeEntry)
    } else if !is_mode(s.take(space)) {
        Err(StoreError::MalformedEnvelope)
    } else if nul == rest.len() {
        Err(StoreError::TruncatedTreeEntry)
    } else if !valid_utf8(rest.take(nul)) {
        Err(StoreError::MalformedEnvelope)
    } else if rest.len() - (nul + 1) < 20 {
        Err(StoreError::TruncatedTreeEntry)
    } else {
        Ok(
            (
                TreeEntry {
                    mode: normal_mode(s.take(space)),
                    path: decode_utf8(rest.take(nul)),
                    digest: rest.subrange(nul + 1, nul + 21),
                },
                space + nul + 22,
            ),
        )
    }
}

/// An entry that parses takes at least one byte and no more than there are.
pub proof fn lemma_parse_entry_advances(s: Seq<u8>)
    ensures
        parse_entry(s) matches Ok((_, used)) ==> 0 < used <= s.len(),
{
    lemma_position(s, SPACE);
    lemma_position(s.skip(position(s, SPACE) + 1), NUL);
}

/// The entries that the payload `s` is made of, in the order in which they
/// are written, or the error of the first entry that does not parse. The
/// empty payload holds no entries.
pub open spec fn parse_entries(s: Seq<u8>) -> Result<Seq<TreeEntry>, StoreError>
    decreases s.len(),
{
    if s.len() == 0 {
        Ok(Seq::empty())
    } else {
        match parse_entry(s) {
            Err(e) => Err(e),
            Ok((entry, used)) => {
                proof {
                    lemma_parse_entry_advances(s);
                }
                match parse_entries(s.skip(used)) {
                    Err(e) => Err(e),
                    Ok(entries) => Ok(seq![entry] + entries),
                }
            },
        }
    }
}

/// The entries that a sequence of leaves stands for.
pub open spec fn entries_of(leaves: Seq<GitTreeLeaf>) -> Seq<TreeEntry> {
    Seq::new(leaves.len(), |i: int| leaves[i]@)
}

/// Calls `String::from_utf8`, which hands the bytes back as a string where
/// they are valid UTF-8 and fails otherwise. Trusted: it succeeds exactly on
/// valid UTF-8, with the characters that the bytes encode.
#[verifier::external_body]
fn string_from_utf8(bytes: Vec<u8>) -> (text: Option<String>)
    ensures
        text is Some <==> valid_utf8(bytes@),
        text matches Some(t) ==> t@ == decode_utf8(bytes@),
{
    String::from_utf8(bytes).ok()
}

/// Parses the entry that starts at `start_index` of `raw_bytes` and returns
/// it with the index of the byte after it.
///
/// The leaf comes out in normal form: its mode in six digits, its digest as
/// lowercase hexadecimal text. The errors are those of `parse_entry`.
pub fn tree_parse_one(raw_bytes: &[u8], start_index: usize) -> (parsed: Result<
    (GitTreeLeaf, usize),
    StoreError,
>)
    requires
        start_index <= raw_bytes@.len(),
    ensures
        match parse_entry(raw_bytes@.skip(start_index as int)) {
            Ok((entry, used)) => parsed matches Ok((leaf, next)) && leaf@ == entry
                && leaf.is_normal() && next == start_index + used,
            Err(e) => parsed matches Err(err) && err == e,
        },
{
    let ghost s = raw_bytes@.skip(start_index as int);
    let space = find_byte(raw_bytes, start_index, SPACE);
    if space == raw_bytes.len() {
        return Err(StoreError::TruncatedTreeEntry);
    }
    let mode_bytes = slice_subrange(raw_bytes, start_index, space);
    assert(mode_bytes@ =~= s.take(space - start_index));
    if !is_valid_mode(mode_bytes) {
        return Err(StoreError::MalformedEnvelope);
    }
    let ghost rest = s.skip(space - start_index + 1);
    assert(rest =~= raw_bytes@.skip(space + 1));
    let path_start = space + 1;
    let nul = find_byte(raw_bytes, path_start, NUL);
    if nul == raw_bytes.len() {
        return Err(StoreError::TruncatedTreeEntry);
    }
    let path_bytes = slice_to_vec(slice_subrange(raw_bytes, path_start, nul));
    assert(path_bytes@ =~= rest.take(nul - path_start));
    let path = match string_from_utf8(path_bytes) {
        Some(path) => path,
        None => {
            return Err(StoreError::MalformedEnvelope);
        },
    };
    let digest_start = nul + 1;
    if raw_bytes.len() - digest_start < 20 {
        return Err(StoreError::TruncatedTreeEntry);
    }
    let digest = slice_subrange(raw_bytes, digest_start, digest_start + 20);
    assert(digest@ =~= rest.subrange(nul - path_start + 1, nul - path_start + 21));
    let mut mode: Vec<u8> = Vec::new();
    if mode_bytes.len() == 5 {
        mode.push(0x30);
    }
    append_bytes(&mut mode, mode_bytes);
    assert(mode@ =~= normal_mode(mode_bytes@));
    let sha_hash = hex_encode(digest);
    proof {
        lemma_hex_round_trip(digest@);
        vstd::utf8::decode_utf8_encode_utf8(path_bytes@);
        lemma_position(rest, NUL);
        assert forall|i: int| 0 <= i < path_bytes@.len() implies path_bytes@[i] != NUL by {
            assert(path_bytes@[i] == rest[i]);
        }
    }
    let leaf = GitTreeLeaf { mode, path, sha_hash };
    Ok((leaf, digest_start + 20))
}

/// Parses a whole tree payload into its leaves, in the order in which they
/// are written. The payload must end exactly where an entry ends; the errors
/// are those of `parse_entries`.
pub fn tree_parse(raw_bytes: &[u8]) -> (parsed: Result<Vec<GitTreeLeaf>, StoreError>)
    ensures
        match parse_entries(raw_bytes@) {
            Ok(entries) => parsed matches Ok(leaves) && entries_of(leaves@) == entries
                && forall|i: int| 0 <= i < leaves@.len() ==> (#[trigger] leaves@[i]).is_normal(),
            Err(e) => parsed matches Err(err) && err == e,
        },
{
    let mut index: usize = 0;
    let mut result: Vec<GitTreeLeaf> = Vec::new();
    assert(raw_bytes@.skip(0) =~= raw_bytes@);
    assert(entries_of(result@) + Seq::<TreeEntry>::empty() =~= entries_of(result@));
    while index < raw_bytes.len()
        invariant
            index <= raw_bytes@.len(),
            forall|i: int| 0 <= i < result@.len() ==> (#[trigger] result@[i]).is_normal(),
            parse_entries(raw_bytes@) == match parse_entries(raw_bytes@.skip(index as int)) {
                Ok(entries) => Ok::<Seq<TreeEntry>, StoreError>(entries_of(result@) + entries),
                Err(e) => Err(e),
            },
        decreases raw_bytes@.len() - index,
    {
        let ghost s = raw_bytes@.skip(index as int);
        let ghost before = entries_of(result@);
        proof {
            lemma_parse_entry_advances(s);
        }
        match tree_parse_one(raw_bytes, index) {
            Err(e) => {
                return Err(e);
            },
            Ok((leaf, new_index)) => {
                let ghost entry = leaf@;
                assert(s.skip(new_index - index) =~= raw_bytes@.skip(new_index as int));
                result.push(leaf);
                proof {
                    assert(entries_of(result@) =~= before.push(entry));
                    match parse_entries(raw_bytes@.skip(new_index as int)) {
                        Ok(entries) => {
                            assert(before + (seq![entry] + entries) =~= before.push(entry)
                                + entries);
                        },
                        Err(_) => {},
                    }
                }
                index = new_index;
            },
        }
    }
    assert(raw_bytes@.skip(index as int).len() == 0);
    assert(entries_of(result@) + Seq::<TreeEntry>::empty() =~= entries_of(result@));
    Ok(result)
}

} // verus!
