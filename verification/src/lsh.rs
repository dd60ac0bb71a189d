//! Bucketing of fuzzy hashes, so that only files whose hashes can be similar
//! are compared with each other.

use crate::cluster::ascending_below;
use crate::group::{group_members, groups_of, key_views, label_by_key, labels_of, lists_of, GroupKey};
use crate::model::{records_of, FileRecord, SimpleFileInfo};
use crate::outside::{parse_u64, parsed_u64};
use crate::text::chars_of;
use vstd::prelude::*;
use vstd::string::{StrSliceExecFns, StringExecFns};

verus! {

/// The most characters of the first chunk that take part in the key.
pub const CHUNK_PREFIX: usize = 8;

/// The position of the first `:` in `s` at or after `from`, or the length of
/// `s` where there is none.
pub open spec fn colon_from(s: Seq<char>, from: int) -> int
    decreases s.len() - from,
{
    if from >= s.len() {
        s.len() as int
    } else if s[from] == ':' {
        from
    } else {
        colon_from(s, from + 1)
    }
}

/// The bucket key of a fuzzy hash `"<blocksize>:<chunk1>:<chunk2>"`: its
/// block size, 0 where that field is no number, and the first eight
/// characters of its first chunk. A hash with fewer than three fields has no
/// key.
pub open spec fn lsh_key(hash: Seq<char>) -> Option<(u64, Seq<char>)> {
    let first = colon_from(hash, 0);
    let second = colon_from(hash, first + 1);
    if first >= hash.len() || second >= hash.len() {
        None
    } else {
        let block_size = match parsed_u64(hash.subrange(0, first)) {
            Some(n) => n,
            None => 0u64,
        };
        let chunk = hash.subrange(first + 1, second);
        Some(
            (
                block_size,
                if chunk.len() <= CHUNK_PREFIX {
                    chunk
                } else {
                    chunk.take(CHUNK_PREFIX as int)
                },
            ),
        )
    }
}

/// For each file, the bucket key of its hash; none where it has no hash.
pub open spec fn lsh_keys(files: Seq<FileRecord>) -> Seq<Option<(u64, Seq<char>)>> {
    Seq::new(
        files.len(),
        |i: int|
            match files[i].fuzzy_hash {
                Some(hash) => lsh_key(hash),
                None => None,
            },
    )
}

/// The buckets of `files`: the positions of the files with the same key, for
/// each key in the order in which it first occurs.
pub open spec fn lsh_buckets(files: Seq<FileRecord>) -> Seq<Seq<usize>> {
    groups_of(labels_of(lsh_keys(files)))
}

/// The position of the first `:` at or after `from`.
fn find_colon(chars: &Vec<char>, from: usize) -> (at: usize)
    requires
        from <= chars@.len(),
    ensures
        at == colon_from(chars@, from as int),
        from <= at <= chars@.len(),
{
    let mut at = from;
    while at < chars.len() && chars[at] != ':'
        invariant
            from <= at <= chars@.len(),
            colon_from(chars@, from as int) == colon_from(chars@, at as int),
        decreases chars@.len() - at,
    {
        at = at + 1;
    }
    at
}

/// The bucket key of a fuzzy hash.
pub fn hash_key(hash: &str) -> (key: Option<GroupKey>)
    ensures
        (match key {
            Some(k) => Some(k@),
            None => None,
        }) == lsh_key(hash@),
{
    let chars = chars_of(hash);
    let first = find_colon(&chars, 0);
    if first >= chars.len() {
        return None;
    }
    let second = find_colon(&chars, first + 1);
    if second >= chars.len() {
        return None;
    }
    let block_size = match parse_u64(hash.substring_char(0, first)) {
        Some(n) => n,
        None => 0,
    };
    let chunk_len = second - (first + 1);
    let kept = if chunk_len <= CHUNK_PREFIX {
        chunk_len
    } else {
        CHUNK_PREFIX
    };
    let chunk = hash.substring_char(first + 1, first + 1 + kept);
    proof {
        let whole = hash@.subrange(first + 1, second as int);
        if chunk_len <= CHUNK_PREFIX {
            assert(chunk@ =~= whole);
        } else {
            assert(chunk@ =~= whole.take(CHUNK_PREFIX as int));
        }
    }
    Some(GroupKey { number: block_size, text: String::from_str(chunk) })
}

/// Puts the files into buckets by the block size of their fuzzy hash and the
/// start of its first chunk, so that files whose hashes cannot be similar
/// rarely share a bucket. A file without a hash, or with a hash of fewer
/// than three fields, is in no bucket. Each bucket lists the positions of its
/// files in ascending order; the buckets come in the order of their first
/// files.
pub fn compute_lsh_buckets(files: &[SimpleFileInfo]) -> (buckets: Vec<Vec<usize>>)
    ensures
        lists_of(buckets@) == lsh_buckets(records_of(files@)),
        forall|b: int|
            0 <= b < buckets@.len() ==> ascending_below(
                (#[trigger] buckets@[b])@,
                files@.len() as int,
            ),
{
    let ghost recs = records_of(files@);
    let mut keys: Vec<Option<GroupKey>> = Vec::new();
    let mut i: usize = 0;
    while i < files.len()
        invariant
            i <= files.len(),
            recs == records_of(files@),
            keys@.len() == i,
            forall|t: int|
                0 <= t < i ==> (match #[trigger] keys@[t] {
                    Some(k) => Some(k@),
                    None => None,
                }) == lsh_keys(recs)[t],
        decreases files.len() - i,
    {
        let key = match &files[i].ssdeep_hash {
            Some(hash) => hash_key(hash.as_str()),
            None => None,
        };
        keys.push(key);
        i = i + 1;
    }
    proof {
        assert(key_views(keys@) =~= lsh_keys(recs));
    }
    let labels = label_by_key(&keys);
    group_members(&labels)
}

} // verus!
