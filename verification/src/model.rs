//! The file record that every detector consumes.

use vstd::prelude::*;

verus! {

/// What a detector knows of one file: where it is, how large it is, and the
/// fuzzy hash of its content where one was computed. The path identifies the
/// file: two records are of one file where their paths are the same text.
#[derive(Clone, Debug)]
pub struct SimpleFileInfo {
    pub path: String,
    pub size_bytes: u64,
    pub ssdeep_hash: Option<String>,
}

/// The mathematical value of a file record.
pub struct FileRecord {
    pub path: Seq<char>,
    pub size_bytes: u64,
    pub fuzzy_hash: Option<Seq<char>>,
}

impl View for SimpleFileInfo {
    type V = FileRecord;

    open spec fn view(&self) -> FileRecord {
        FileRecord {
            path: self.path@,
            size_bytes: self.size_bytes,
            fuzzy_hash: match self.ssdeep_hash {
                Some(h) => Some(h@),
                None => None,
            },
        }
    }
}

/// The values of a list of file records, in order.
pub open spec fn records_of(files: Seq<SimpleFileInfo>) -> Seq<FileRecord> {
    files.map_values(|f: SimpleFileInfo| f@)
}

/// The sum of the sizes of `files`.
pub open spec fn total_size(files: Seq<FileRecord>) -> nat
    decreases files.len(),
{
    if files.len() == 0 {
        0
    } else {
        total_size(files.drop_last()) + files.last().size_bytes as nat
    }
}

/// Appending one record adds its size to the total.
pub proof fn total_size_push(files: Seq<FileRecord>, f: FileRecord)
    ensures
        total_size(files.push(f)) == total_size(files) + f.size_bytes,
{
    assert(files.push(f).drop_last() =~= files);
}

/// The total of a prefix never exceeds the total of the whole list.
pub proof fn total_size_prefix(files: Seq<FileRecord>, k: int)
    requires
        0 <= k <= files.len(),
    ensures
        total_size(files.take(k)) <= total_size(files),
    decreases files.len() - k,
{
    if k < files.len() {
        total_size_prefix(files, k + 1);
        assert(files.take(k + 1).drop_last() =~= files.take(k));
    } else {
        assert(files.take(k) =~= files);
    }
}

impl SimpleFileInfo {
    /// A record for the file at `path`.
    pub fn new(path: String, size_bytes: u64, ssdeep_hash: Option<String>) -> (f: SimpleFileInfo)
        ensures
            f.path == path,
            f.size_bytes == size_bytes,
            f.ssdeep_hash == ssdeep_hash,
    {
        SimpleFileInfo { path, size_bytes, ssdeep_hash }
    }

    /// An independent copy of the record.
    pub fn duplicate(&self) -> (copy: SimpleFileInfo)
        ensures
            copy == *self,
    {
        let ssdeep_hash = match &self.ssdeep_hash {
            Some(h) => Some(h.clone()),
            None => None,
        };
        SimpleFileInfo { path: self.path.clone(), size_bytes: self.size_bytes, ssdeep_hash }
    }

    /// Whether a fuzzy hash was computed for the file.
    pub fn has_hash(&self) -> (b: bool)
        ensures
            b == self@.fuzzy_hash.is_some(),
    {
        self.ssdeep_hash.is_some()
    }
}

/// The total size of `files`, which must fit in 64 bits.
pub fn sum_sizes(files: &[SimpleFileInfo]) -> (total: u64)
    requires
        total_size(records_of(files@)) <= u64::MAX,
    ensures
        total == total_size(records_of(files@)),
{
    let mut total: u64 = 0;
    let mut i: usize = 0;
    while i < files.len()
        invariant
            i <= files.len(),
            total == total_size(records_of(files@).take(i as int)),
            total_size(records_of(files@)) <= u64::MAX,
        decreases files.len() - i,
    {
        proof {
            let recs = records_of(files@);
            total_size_prefix(recs, i + 1);
            assert(recs.take(i + 1) =~= recs.take(i as int).push(recs[i as int]));
            total_size_push(recs.take(i as int), recs[i as int]);
        }
        total = total + files[i].size_bytes;
        i = i + 1;
    }
    proof {
        assert(records_of(files@).take(i as int) =~= records_of(files@));
    }
    total
}

} // verus!
