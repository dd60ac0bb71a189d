//! Directories that are known to take space: dependency caches, build
//! output, logs and the like.

use crate::cluster::ascending_below;
use crate::group::{group_members, groups_of, key_views, label_by_key, labels_of,
    lists_of, GroupKey};
use crate::model::{records_of, FileRecord, SimpleFileInfo};
use crate::outside::{
    file_name_of, parent_of, path_ends_with, path_file_name, path_has_prefix, path_has_suffix,
    path_parent, path_starts_with,
};
use crate::rank::{is_order, order_largest};
use crate::text::same_text;
use vstd::prelude::*;
use vstd::string::StringExecFns;

verus! {

/// The number of known directory names.
pub const KNOWN_DIRECTORIES: usize = 10;

/// The known directory names, each with what it holds and what to do about
/// it. Where a directory matches several entries, the first counts.
pub open spec fn consumer_table() -> Seq<(Seq<char>, Seq<char>, Seq<char>)> {
    seq![
        (
            "node_modules"@,
            "Node.js dependencies"@,
            "Consider using npm prune or clearing unused dependencies"@,
        ),
        (".git"@, "Git repository data"@, "Run git gc to clean up unnecessary files"@),
        ("target"@, "Rust build artifacts"@, "Run cargo clean to remove build artifacts"@),
        ("build"@, "Build output directory"@, "Clean build artifacts if not needed"@),
        ("dist"@, "Distribution files"@, "Remove old distribution builds"@),
        (".venv"@, "Python virtual environment"@, "Recreate virtual environment if needed"@),
        ("__pycache__"@, "Python cache files"@, "Safe to delete, will be regenerated"@),
        (".cache"@, "Application cache"@, "Review and clean old cache files"@),
        ("tmp"@, "Temporary files"@, "Clean up old temporary files"@),
        ("logs"@, "Log files"@, "Archive or delete old logs"@),
    ]
}

/// Entry `k` of the table of known directories.
pub fn table_entry(k: usize) -> (entry: (&'static str, &'static str, &'static str))
    requires
        k < KNOWN_DIRECTORIES,
    ensures
        (entry.0@, entry.1@, entry.2@) == consumer_table()[k as int],
{
    if k == 0 {
        (
            "node_modules",
            "Node.js dependencies",
            "Consider using npm prune or clearing unused dependencies",
        )
    } else if k == 1 {
        (".git", "Git repository data", "Run git gc to clean up unnecessary files")
    } else if k == 2 {
        ("target", "Rust build artifacts", "Run cargo clean to remove build artifacts")
    } else if k == 3 {
        ("build", "Build output directory", "Clean build artifacts if not needed")
    } else if k == 4 {
        ("dist", "Distribution files", "Remove old distribution builds")
    } else if k == 5 {
        (".venv", "Python virtual environment", "Recreate virtual environment if needed")
    } else if k == 6 {
        ("__pycache__", "Python cache files", "Safe to delete, will be regenerated")
    } else if k == 7 {
        (".cache", "Application cache", "Review and clean old cache files")
    } else if k == 8 {
        ("tmp", "Temporary files", "Clean up old temporary files")
    } else {
        ("logs", "Log files", "Archive or delete old logs")
    }
}

/// The last component of the directory `dir`, empty where it has none.
pub open spec fn dir_name(dir: Seq<char>) -> Seq<char> {
    match file_name_of(dir) {
        Some(name) => name,
        None => Seq::<char>::empty(),
    }
}

/// The directory `dir` is one that entry `k` of the table names: its last
/// component is the entry's name, or its path ends in it.
pub open spec fn entry_matches(dir: Seq<char>, k: int) -> bool {
    dir_name(dir) == consumer_table()[k].0 || path_ends_with(dir, consumer_table()[k].0)
}

/// The first entry from `from` on that names the directory `dir`.
pub open spec fn first_entry(dir: Seq<char>, from: int) -> Option<int>
    decreases KNOWN_DIRECTORIES - from,
{
    if from >= KNOWN_DIRECTORIES {
        None
    } else if entry_matches(dir, from) {
        Some(from)
    } else {
        first_entry(dir, from + 1)
    }
}

/// The size on record for the file at `path` among the first `upto` records:
/// that of the last record with this path.
pub open spec fn recorded_size(infos: Seq<FileRecord>, path: Seq<char>, upto: int) -> Option<u64>
    decreases upto,
{
    if upto <= 0 {
        None
    } else if infos[upto - 1].path == path {
        Some(infos[upto - 1].size_bytes)
    } else {
        recorded_size(infos, path, upto - 1)
    }
}

/// What the listed path `path` adds to the directory `dir`: the size on
/// record for it, where it lies under `dir` and there is a record of it.
pub open spec fn share_of(infos: Seq<FileRecord>, dir: Seq<char>, path: Seq<char>) -> Option<u64> {
    if path_starts_with(path, dir) {
        recorded_size(infos, path, infos.len() as int)
    } else {
        None
    }
}

/// The sum of the sizes, and the number, of the files on record among the
/// first `upto` of the listed paths at `members`, taken as content of `dir`.
pub open spec fn usage(
    paths: Seq<Seq<char>>,
    infos: Seq<FileRecord>,
    dir: Seq<char>,
    members: Seq<usize>,
    upto: int,
) -> (nat, nat)
    decreases upto,
{
    if upto <= 0 {
        (0, 0)
    } else {
        let before = usage(paths, infos, dir, members, upto - 1);
        match share_of(infos, dir, paths[members[upto - 1] as int]) {
            Some(size) => ((before.0 + size) as nat, (before.1 + 1) as nat),
            None => before,
        }
    }
}

/// The sum of the sizes on record of the first `upto` listed paths.
pub open spec fn listed_size(paths: Seq<Seq<char>>, infos: Seq<FileRecord>, upto: int) -> nat
    decreases upto,
{
    if upto <= 0 {
        0
    } else {
        listed_size(paths, infos, upto - 1) + (match recorded_size(
            infos,
            paths[upto - 1],
            infos.len() as int,
        ) {
            Some(size) => size as nat,
            None => 0,
        })
    }
}

/// The values of a list of paths.
pub open spec fn path_views(paths: Seq<String>) -> Seq<Seq<char>> {
    Seq::new(paths.len(), |i: int| paths[i]@)
}

/// For each listed path, its parent directory as a grouping key.
pub open spec fn dir_keys(paths: Seq<Seq<char>>) -> Seq<Option<(u64, Seq<char>)>> {
    Seq::new(
        paths.len(),
        |i: int|
            match parent_of(paths[i]) {
                Some(dir) => Some((0u64, dir)),
                None => None,
            },
    )
}

/// A directory that is known to take space.
#[derive(Clone, Debug)]
pub struct HiddenConsumer {
    pub path: String,
    pub pattern_type: String,
    pub total_size_bytes: u64,
    pub file_count: usize,
    pub recommendation: String,
}

/// The mathematical value of a hidden consumer.
pub struct HiddenConsumerView {
    pub path: Seq<char>,
    pub pattern_type: Seq<char>,
    pub total_size_bytes: u64,
    pub file_count: usize,
    pub recommendation: Seq<char>,
}

impl View for HiddenConsumer {
    type V = HiddenConsumerView;

    open spec fn view(&self) -> HiddenConsumerView {
        HiddenConsumerView {
            path: self.path@,
            pattern_type: self.pattern_type@,
            total_size_bytes: self.total_size_bytes,
            file_count: self.file_count,
            recommendation: self.recommendation@,
        }
    }
}

/// The values of a list of hidden consumers, in order.
pub open spec fn consumers_of(found: Seq<HiddenConsumer>) -> Seq<HiddenConsumerView> {
    Seq::new(found.len(), |k: int| found[k]@)
}

/// The directory that the listed paths at `members` share.
pub open spec fn dir_of(paths: Seq<Seq<char>>, members: Seq<usize>) -> Seq<char> {
    parent_of(paths[members[0] as int]).unwrap()
}

/// The directory of the paths at `members` is reported: the table names it
/// and files of a size above zero are on record under it.
pub open spec fn is_consumer(paths: Seq<Seq<char>>, infos: Seq<FileRecord>, members: Seq<usize>) -> bool {
    let dir = dir_of(paths, members);
    first_entry(dir, 0) is Some && usage(paths, infos, dir, members, members.len() as int).0 > 0
}

/// What is reported of the directory of the paths at `members`.
pub open spec fn consumer_summary(
    paths: Seq<Seq<char>>,
    infos: Seq<FileRecord>,
    members: Seq<usize>,
) -> HiddenConsumerView {
    let dir = dir_of(paths, members);
    let entry = consumer_table()[first_entry(dir, 0).unwrap()];
    let used = usage(paths, infos, dir, members, members.len() as int);
    HiddenConsumerView {
        path: dir,
        pattern_type: entry.1,
        total_size_bytes: used.0 as u64,
        file_count: used.1 as usize,
        recommendation: entry.2,
    }
}

/// Those of the first `upto` directories that are reported.
pub open spec fn consumers_among(
    paths: Seq<Seq<char>>,
    infos: Seq<FileRecord>,
    groups: Seq<Seq<usize>>,
    upto: int,
) -> Seq<Seq<usize>>
    decreases upto,
{
    if upto <= 0 {
        Seq::empty()
    } else if is_consumer(paths, infos, groups[upto - 1]) {
        consumers_among(paths, infos, groups, upto - 1).push(groups[upto - 1])
    } else {
        consumers_among(paths, infos, groups, upto - 1)
    }
}

/// The reported directories, in the order in which the listing first names
/// them, each as the positions of the listed paths in it.
pub open spec fn consumers_in(paths: Seq<Seq<char>>, infos: Seq<FileRecord>) -> Seq<Seq<usize>> {
    let groups = groups_of(labels_of(dir_keys(paths)));
    consumers_among(paths, infos, groups, groups.len() as int)
}

/// The size reported for each directory, in order.
pub open spec fn consumer_sizes(
    paths: Seq<Seq<char>>,
    infos: Seq<FileRecord>,
    dirs: Seq<Seq<usize>>,
) -> Seq<u64> {
    Seq::new(
        dirs.len(),
        |k: int| usage(paths, infos, dir_of(paths, dirs[k]), dirs[k], dirs[k].len() as int).0 as u64,
    )
}

/// `out` reports the known directories among the parents of `paths`, the
/// largest first and directories of the same size in the order in which the
/// listing first names them.
pub open spec fn reports_consumers(
    out: Seq<HiddenConsumerView>,
    paths: Seq<Seq<char>>,
    infos: Seq<FileRecord>,
) -> bool {
    let dirs = consumers_in(paths, infos);
    exists|order: Seq<usize>|
        {
            &&& #[trigger] is_order(order, consumer_sizes(paths, infos, dirs))
            &&& out.len() == dirs.len()
            &&& forall|r: int|
                0 <= r < out.len() ==> #[trigger] out[r] == consumer_summary(
                    paths,
                    infos,
                    dirs[order[r] as int],
                )
        }
}

/// The listed sizes add up monotonically.
pub proof fn listed_size_monotone(paths: Seq<Seq<char>>, infos: Seq<FileRecord>, a: int, b: int)
    requires
        0 <= a <= b,
    ensures
        listed_size(paths, infos, a) <= listed_size(paths, infos, b),
    decreases b - a,
{
    if a < b {
        listed_size_monotone(paths, infos, a, b - 1);
    }
}

/// What a directory uses is no more than the listed files hold, and it
/// counts no more files than it was given.
pub proof fn usage_bounded(
    paths: Seq<Seq<char>>,
    infos: Seq<FileRecord>,
    dir: Seq<char>,
    members: Seq<usize>,
    upto: int,
    bound: int,
)
    requires
        0 <= upto <= members.len(),
        forall|a: int| 0 <= a < upto ==> (#[trigger] members[a]) < bound,
        forall|a: int, b: int| 0 <= a < b < upto ==> (#[trigger] members[a]) < (#[trigger] members[b]),
        0 <= bound,
    ensures
        usage(paths, infos, dir, members, upto).0 <= listed_size(paths, infos, bound),
        usage(paths, infos, dir, members, upto).1 <= upto,
    decreases upto,
{
    if upto > 0 {
        let last = members[upto - 1] as int;
        assert forall|a: int| 0 <= a < upto - 1 implies (#[trigger] members[a]) < last by {
            assert(members[a] < members[upto - 1]);
        }
        usage_bounded(paths, infos, dir, members, upto - 1, last);
        listed_size_monotone(paths, infos, last + 1, bound);
    }
}

/// The size on record for the file at `path`.
fn lookup_size(infos: &[SimpleFileInfo], path: &String) -> (size: Option<u64>)
    ensures
        size == recorded_size(records_of(infos@), path@, infos@.len() as int),
{
    let ghost recs = records_of(infos@);
    let mut k: usize = infos.len();
    while k > 0
        invariant
            k <= infos.len(),
            recs == records_of(infos@),
            recorded_size(recs, path@, infos@.len() as int) == recorded_size(recs, path@, k as int),
        decreases k,
    {
        if infos[k - 1].path == *path {
            return Some(infos[k - 1].size_bytes);
        }
        k = k - 1;
    }
    None
}

/// The first entry of the table that names the directory `dir`.
fn find_entry(dir: &str) -> (entry: Option<usize>)
    ensures
        match entry {
            Some(k) => k < KNOWN_DIRECTORIES && first_entry(dir@, 0) == Some(k as int),
            None => first_entry(dir@, 0) is None,
        },
{
    let name = match path_file_name(dir) {
        Some(n) => n,
        None => String::new(),
    };
    let mut k: usize = 0;
    while k < KNOWN_DIRECTORIES
        invariant
            k <= KNOWN_DIRECTORIES,
            name@ == dir_name(dir@),
            first_entry(dir@, 0) == first_entry(dir@, k as int),
        decreases KNOWN_DIRECTORIES - k,
    {
        let entry = table_entry(k);
        if same_text(name.as_str(), entry.0) || path_has_suffix(dir, entry.0) {
            return Some(k);
        }
        k = k + 1;
    }
    None
}

/// The sum of the sizes, and the number, of the files on record among the
/// listed paths at `members`, taken as content of `dir`.
fn measure(paths: &[String], infos: &[SimpleFileInfo], dir: &str, members: &Vec<usize>) -> (used: (
    u64,
    usize,
))
    requires
        ascending_below(members@, paths@.len() as int),
        listed_size(path_views(paths@), records_of(infos@), paths@.len() as int) <= u64::MAX,
    ensures
        used.0 == usage(
            path_views(paths@),
            records_of(infos@),
            dir@,
            members@,
            members@.len() as int,
        ).0,
        used.1 == usage(
            path_views(paths@),
            records_of(infos@),
            dir@,
            members@,
            members@.len() as int,
        ).1,
{
    let ghost pv = path_views(paths@);
    let ghost recs = records_of(infos@);
    let mut total: u64 = 0;
    let mut count: usize = 0;
    let mut k: usize = 0;
    while k < members.len()
        invariant
            k <= members.len(),
            pv == path_views(paths@),
            recs == records_of(infos@),
            ascending_below(members@, paths@.len() as int),
            listed_size(pv, recs, paths@.len() as int) <= u64::MAX,
            total == usage(pv, recs, dir@, members@, k as int).0,
            count == usage(pv, recs, dir@, members@, k as int).1,
        decreases members.len() - k,
    {
        proof {
            usage_bounded(pv, recs, dir@, members@, k + 1, paths@.len() as int);
        }
        let path = &paths[members[k]];
        if path_has_prefix(path.as_str(), dir) {
            match lookup_size(infos, path) {
                Some(size) => {
                    total = total + size;
                    count = count + 1;
                },
                None => {},
            }
        }
        k = k + 1;
    }
    (total, count)
}

/// Whether the sizes on record of the listed paths add up in 64 bits.
pub fn listed_sizes_add_up(paths: &[String], file_infos: &[SimpleFileInfo]) -> (fits: bool)
    ensures
        fits == (listed_size(path_views(paths@), records_of(file_infos@), paths@.len() as int)
            <= u64::MAX),
{
    let ghost pv = path_views(paths@);
    let ghost recs = records_of(file_infos@);
    let mut total: u64 = 0;
    let mut i: usize = 0;
    while i < paths.len()
        invariant
            i <= paths.len(),
            pv == path_views(paths@),
            recs == records_of(file_infos@),
            total == listed_size(pv, recs, i as int),
        decreases paths.len() - i,
    {
        let size = match lookup_size(file_infos, &paths[i]) {
            Some(size) => size,
            None => 0,
        };
        if size > u64::MAX - total {
            proof {
                listed_size_monotone(pv, recs, i + 1, paths@.len() as int);
            }
            return false;
        }
        total = total + size;
        i = i + 1;
    }
    true
}

/// For each listed path, its parent directory as a grouping key.
fn dir_keys_of(paths: &[String]) -> (keys: Vec<Option<GroupKey>>)
    ensures
        key_views(keys@) == dir_keys(path_views(paths@)),
{
    let ghost pv = path_views(paths@);
    let mut keys: Vec<Option<GroupKey>> = Vec::new();
    let mut i: usize = 0;
    while i < paths.len()
        invariant
            i <= paths.len(),
            pv == path_views(paths@),
            keys@.len() == i,
            forall|t: int|
                0 <= t < i ==> (match #[trigger] keys@[t] {
                    Some(k) => Some(k@),
                    None => None,
                }) == dir_keys(pv)[t],
        decreases paths.len() - i,
    {
        let key = match path_parent(paths[i].as_str()) {
            Some(dir) => Some(GroupKey { number: 0, text: dir }),
            None => None,
        };
        keys.push(key);
        i = i + 1;
    }
    proof {
        assert(key_views(keys@) =~= dir_keys(pv));
    }
    keys
}

/// Finds the directories that are known to take space. The listed paths are
/// grouped by their parent directory. A directory is reported where the
/// table of known directories names it and the files on record in it have a
/// size above zero; it is reported under the first entry that names it, with
/// the sum and the number of those files. The largest directory comes first.
pub fn detect_hidden_consumers(paths: &[String], file_infos: &[SimpleFileInfo]) -> (found: Vec<
    HiddenConsumer,
>)
    requires
        listed_size(path_views(paths@), records_of(file_infos@), paths@.len() as int)
            <= u64::MAX,
    ensures
        reports_consumers(consumers_of(found@), path_views(paths@), records_of(file_infos@)),
{
    let ghost pv = path_views(paths@);
    let ghost recs = records_of(file_infos@);
    let keys = dir_keys_of(paths);
    let labels = label_by_key(&keys);
    let groups = group_members(&labels);
    let ghost lists = lists_of(groups@);
    let mut chosen: Vec<usize> = Vec::new();
    let mut entries: Vec<usize> = Vec::new();
    let mut sizes: Vec<u64> = Vec::new();
    let mut counts: Vec<usize> = Vec::new();
    let mut g: usize = 0;
    while g < groups.len()
        invariant
            g <= groups.len(),
            pv == path_views(paths@),
            recs == records_of(file_infos@),
            lists == lists_of(groups@),
            lists == groups_of(labels@),
            labels@ == labels_of(key_views(keys@)),
            key_views(keys@) == dir_keys(pv),
            keys@.len() == paths@.len(),
            labels@.len() == paths@.len(),
            listed_size(pv, recs, paths@.len() as int) <= u64::MAX,
            forall|k: int|
                0 <= k < groups@.len() ==> ascending_below(
                    (#[trigger] groups@[k])@,
                    labels@.len() as int,
                ),
            chosen@.len() == consumers_among(pv, recs, lists, g as int).len(),
            entries@.len() == chosen@.len(),
            sizes@.len() == chosen@.len(),
            counts@.len() == chosen@.len(),
            forall|k: int|
                0 <= k < chosen@.len() ==> {
                    let members = consumers_among(pv, recs, lists, g as int)[k];
                    &&& (#[trigger] chosen@[k]) < g
                    &&& groups@[chosen@[k] as int]@ == members
                    &&& entries@[k] < KNOWN_DIRECTORIES
                    &&& first_entry(dir_of(pv, members), 0) == Some(entries@[k] as int)
                    &&& sizes@[k] == usage(
                        pv,
                        recs,
                        dir_of(pv, members),
                        members,
                        members.len() as int,
                    ).0
                    &&& counts@[k] == usage(
                        pv,
                        recs,
                        dir_of(pv, members),
                        members,
                        members.len() as int,
                    ).1
                },
        decreases groups.len() - g,
    {
        let members = &groups[g];
        proof {
            crate::group::group_has_keyed_first(dir_keys(pv), g as int);
            assert(lists[g as int] == members@);
        }
        let first = members[0];
        match &keys[first] {
            Some(key) => {
                let dir = key.text.as_str();
                assert(dir@ == dir_of(pv, members@));
                match find_entry(dir) {
                    Some(entry) => {
                        let used = measure(paths, file_infos, dir, members);
                        if used.0 > 0 {
                            chosen.push(g);
                            entries.push(entry);
                            sizes.push(used.0);
                            counts.push(used.1);
                        }
                    },
                    None => {},
                }
            },
            None => {},
        }
        g = g + 1;
    }
    let ghost dirs = consumers_among(pv, recs, lists, groups@.len() as int);
    proof {
        assert(dirs == consumers_in(pv, recs));
        assert forall|k: int| 0 <= k < sizes@.len() implies sizes@[k] == consumer_sizes(
            pv,
            recs,
            dirs,
        )[k] by {
            assert(chosen@[k] < groups@.len());
        }
        assert(sizes@ =~= consumer_sizes(pv, recs, dirs));
    }
    let order = order_largest(&sizes);
    let mut found: Vec<HiddenConsumer> = Vec::new();
    let mut r: usize = 0;
    while r < order.len()
        invariant
            r <= order.len(),
            pv == path_views(paths@),
            recs == records_of(file_infos@),
            lists == lists_of(groups@),
            lists == groups_of(labels@),
            labels@ == labels_of(key_views(keys@)),
            key_views(keys@) == dir_keys(pv),
            keys@.len() == paths@.len(),
            labels@.len() == paths@.len(),
            is_order(order@, sizes@),
            chosen@.len() == dirs.len(),
            entries@.len() == chosen@.len(),
            sizes@.len() == chosen@.len(),
            counts@.len() == chosen@.len(),
            forall|k: int|
                0 <= k < chosen@.len() ==> {
                    let members = dirs[k];
                    &&& (#[trigger] chosen@[k]) < groups@.len()
                    &&& groups@[chosen@[k] as int]@ == members
                    &&& entries@[k] < KNOWN_DIRECTORIES
                    &&& first_entry(dir_of(pv, members), 0) == Some(entries@[k] as int)
                    &&& sizes@[k] == usage(
                        pv,
                        recs,
                        dir_of(pv, members),
                        members,
                        members.len() as int,
                    ).0
                    &&& counts@[k] == usage(
                        pv,
                        recs,
                        dir_of(pv, members),
                        members,
                        members.len() as int,
                    ).1
                },
            found@.len() == r,
            forall|t: int|
                0 <= t < r ==> (#[trigger] found@[t])@ == consumer_summary(
                    pv,
                    recs,
                    dirs[order@[t] as int],
                ),
        decreases order.len() - r,
    {
        let which = order[r];
        let members = &groups[chosen[which]];
        proof {
            crate::group::group_has_keyed_first(dir_keys(pv), chosen@[which as int] as int);
            assert(lists[chosen@[which as int] as int] == members@);
        }
        let first = members[0];
        let path = match &keys[first] {
            Some(key) => key.text.clone(),
            None => String::new(),
        };
        let entry = table_entry(entries[which]);
        let consumer = HiddenConsumer {
            path,
            pattern_type: String::from_str(entry.1),
            total_size_bytes: sizes[which],
            file_count: counts[which],
            recommendation: String::from_str(entry.2),
        };
        found.push(consumer);
        r = r + 1;
    }
    proof {
        let out = consumers_of(found@);
        assert(is_order(order@, consumer_sizes(pv, recs, dirs)));
        assert forall|t: int| 0 <= t < out.len() implies #[trigger] out[t] == consumer_summary(
            pv,
            recs,
            dirs[order@[t] as int],
        ) by {
            assert(found@[t]@ == consumer_summary(pv, recs, dirs[order@[t] as int]));
        }
    }
    found
}

} // verus!
