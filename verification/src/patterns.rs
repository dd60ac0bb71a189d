//! Series of files with numbered or dated names.

use crate::cluster::{ascending_below, picked_total_bounded, pick};
use crate::group::{group_members, groups_of, label_by_key, labels_of, GroupKey};
use crate::model::{records_of, total_size, total_size_push, FileRecord, SimpleFileInfo};
use crate::outside::{
    captured_group, compile_regex, file_name_of, path_file_name, pattern_captures, regex_captured,
    regex_captures, regex_compiles, text_of,
};
use crate::rank::{is_order, order_largest};
use vstd::prelude::*;
use vstd::string::StringExecFns;

verus! {

/// The fewest files that make a series.
pub const MIN_SERIES: usize = 3;

/// The most sample paths that a series keeps.
pub const MAX_SAMPLES: usize = 5;

/// Names that end in a run of two or more digits, with an optional `-` or
/// `_` before it and an optional extension after it.
pub open spec fn numbered_pattern() -> Seq<char> {
    "^(.+?)[-_]?(\\d{2,})(\\..+)?$"@
}

/// Names that end in a date of eight digits, its parts optionally set apart
/// by `-` or `_`, with an optional `-` or `_` before it and an optional
/// extension after it.
pub open spec fn dated_pattern() -> Seq<char> {
    "^(.+?)[-_]?(\\d{4}[-_]?\\d{2}[-_]?\\d{2})(\\..+)?$"@
}

/// The prefix and the extension that the capture groups of a match give:
/// group 1 and group 3, the extension being empty where group 3 took no part.
pub open spec fn parts_of(groups: Seq<Option<Seq<char>>>) -> Option<(Seq<char>, Seq<char>)> {
    if groups.len() > 1 && groups[1] is Some {
        Some(
            (
                groups[1]->0,
                if groups.len() > 3 && groups[3] is Some {
                    groups[3]->0
                } else {
                    Seq::<char>::empty()
                },
            ),
        )
    } else {
        None
    }
}

/// The prefix and extension of `name` where `captures` holds a match in it.
pub open spec fn parts_in(
    captures: Map<Seq<char>, Seq<Option<Seq<char>>>>,
    name: Seq<char>,
) -> Option<(Seq<char>, Seq<char>)> {
    if captures.dom().contains(name) {
        parts_of(captures[name])
    } else {
        None
    }
}

/// The prefix and extension of `name` where the expression `pattern`
/// compiles and matches it.
pub open spec fn parts_under(pattern: Seq<char>, name: Seq<char>) -> Option<(Seq<char>, Seq<char>)> {
    if !regex_compiles(pattern) {
        None
    } else {
        parts_in(pattern_captures(pattern), name)
    }
}

/// The value of an optional pair of strings.
pub open spec fn pair_of(parts: Option<(String, String)>) -> Option<(Seq<char>, Seq<char>)> {
    match parts {
        Some((a, b)) => Some((a@, b@)),
        None => None,
    }
}

/// The prefix and the extension of a matched name, from the text of capture
/// group 1 and that of capture group 3: nothing without group 1, and an
/// empty extension without group 3.
pub fn parts_from(first: Option<String>, third: Option<String>) -> (parts: Option<(String, String)>)
    ensures
        pair_of(parts) == (match text_of(first) {
            Some(prefix) => Some(
                (
                    prefix,
                    match text_of(third) {
                        Some(suffix) => suffix,
                        None => Seq::<char>::empty(),
                    },
                ),
            ),
            None => None,
        }),
{
    match first {
        Some(prefix) => {
            let suffix = match third {
                Some(s) => s,
                None => String::new(),
            };
            Some((prefix, suffix))
        },
        None => None,
    }
}

/// The prefix and extension of `name` where `re` matches it.
fn match_parts(re: &regex::Regex, name: &str) -> (parts: Option<(String, String)>)
    ensures
        pair_of(parts) == parts_in(regex_captured(*re), name@),
{
    match regex_captures(re, name) {
        Some(caps) => {
            let first = captured_group(&caps, 1);
            let third = captured_group(&caps, 3);
            parts_from(first, third)
        },
        None => None,
    }
}

/// The prefix and extension of `name` where the expression `pattern` compiles
/// and matches it.
fn detect_with(pattern: &str, name: &str) -> (parts: Option<(String, String)>)
    ensures
        pair_of(parts) == parts_under(pattern@, name@),
{
    match compile_regex(pattern) {
        Ok(re) => match_parts(&re, name),
        Err(_) => None,
    }
}

/// Splits a name such as `backup-001.tar` into what stands before its number
/// and its extension.
pub fn detect_numbered_pattern(filename: &str) -> (parts: Option<(String, String)>)
    ensures
        pair_of(parts) == parts_under(numbered_pattern(), filename@),
{
    detect_with("^(.+?)[-_]?(\\d{2,})(\\..+)?$", filename)
}

/// Splits a name such as `log-2024-01-01.txt` into what stands before its
/// date and its extension.
pub fn detect_dated_pattern(filename: &str) -> (parts: Option<(String, String)>)
    ensures
        pair_of(parts) == parts_under(dated_pattern(), filename@),
{
    detect_with("^(.+?)[-_]?(\\d{4}[-_]?\\d{2}[-_]?\\d{2})(\\..+)?$", filename)
}

/// The pattern that stands for a series: prefix, `*`, extension.
pub open spec fn template(parts: (Seq<char>, Seq<char>)) -> Seq<char> {
    parts.0 + "*"@ + parts.1
}

/// The series that the file name `name` belongs to: that of its number where
/// it has one, else that of its date.
pub open spec fn series_of_name(name: Seq<char>) -> Option<Seq<char>> {
    match parts_under(numbered_pattern(), name) {
        Some(parts) => Some(template(parts)),
        None => match parts_under(dated_pattern(), name) {
            Some(parts) => Some(template(parts)),
            None => None,
        },
    }
}

/// The series that the file at `path` belongs to, by its file name.
pub open spec fn series_of_path(path: Seq<char>) -> Option<(u64, Seq<char>)> {
    match file_name_of(path) {
        Some(name) => match series_of_name(name) {
            Some(pattern) => Some((0u64, pattern)),
            None => None,
        },
        None => None,
    }
}

/// For each file, the series it belongs to.
pub open spec fn series_keys(files: Seq<FileRecord>) -> Seq<Option<(u64, Seq<char>)>> {
    Seq::new(files.len(), |i: int| series_of_path(files[i].path))
}

/// A group of files with similar names.
#[derive(Clone, Debug)]
pub struct PatternGroup {
    pub pattern: String,
    pub count: usize,
    pub total_size_bytes: u64,
    pub sample_files: Vec<String>,
}

/// The mathematical value of a pattern group.
pub struct PatternGroupView {
    pub pattern: Seq<char>,
    pub count: usize,
    pub total_size_bytes: u64,
    pub sample_files: Seq<Seq<char>>,
}

impl View for PatternGroup {
    type V = PatternGroupView;

    open spec fn view(&self) -> PatternGroupView {
        PatternGroupView {
            pattern: self.pattern@,
            count: self.count,
            total_size_bytes: self.total_size_bytes,
            sample_files: Seq::new(self.sample_files@.len(), |k: int| self.sample_files@[k]@),
        }
    }
}

/// The values of a list of pattern groups, in order.
pub open spec fn pattern_groups_of(groups: Seq<PatternGroup>) -> Seq<PatternGroupView> {
    Seq::new(groups.len(), |k: int| groups[k]@)
}

/// What is reported of the series whose members are the files at `members`:
/// its pattern, the number of its files, the sum of their sizes, and the
/// paths of the first five.
pub open spec fn series_summary(files: Seq<FileRecord>, members: Seq<usize>) -> PatternGroupView {
    let key: (u64, Seq<char>) = series_of_path(files[members[0] as int].path).unwrap();
    PatternGroupView {
        pattern: key.1,
        count: members.len() as usize,
        total_size_bytes: total_size(pick(files, members)) as u64,
        sample_files: Seq::new(
            if members.len() < MAX_SAMPLES {
                members.len()
            } else {
                MAX_SAMPLES as nat
            },
            |k: int| files[members[k] as int].path,
        ),
    }
}

/// Those of the first `upto` groups that have at least three members.
pub open spec fn series_among(groups: Seq<Seq<usize>>, upto: int) -> Seq<Seq<usize>>
    decreases upto,
{
    if upto <= 0 {
        Seq::empty()
    } else if groups[upto - 1].len() >= MIN_SERIES {
        series_among(groups, upto - 1).push(groups[upto - 1])
    } else {
        series_among(groups, upto - 1)
    }
}

/// The series among `files`, in the order of their first files.
pub open spec fn series_in(files: Seq<FileRecord>) -> Seq<Seq<usize>> {
    let groups = groups_of(labels_of(series_keys(files)));
    series_among(groups, groups.len() as int)
}

/// The total size of each series, in order.
pub open spec fn series_sizes(files: Seq<FileRecord>, series: Seq<Seq<usize>>) -> Seq<u64> {
    Seq::new(series.len(), |k: int| total_size(pick(files, series[k])) as u64)
}

/// `out` reports the series among `files`, the largest total size first and
/// series of the same size in the order of their first files.
pub open spec fn reports_series(out: Seq<PatternGroupView>, files: Seq<FileRecord>) -> bool {
    let series = series_in(files);
    exists|order: Seq<usize>|
        {
            &&& #[trigger] is_order(order, series_sizes(files, series))
            &&& out.len() == series.len()
            &&& forall|r: int|
                0 <= r < out.len() ==> #[trigger] out[r] == series_summary(
                    files,
                    series[order[r] as int],
                )
        }
}

/// The series that a file name belongs to, given the two expressions.
fn series_key(
    name: &str,
    numbered: &Option<regex::Regex>,
    dated: &Option<regex::Regex>,
) -> (key: Option<String>)
    requires
        numbered is Some <==> regex_compiles(numbered_pattern()),
        numbered is Some ==> regex_captured(numbered->0) == pattern_captures(numbered_pattern()),
        dated is Some <==> regex_compiles(dated_pattern()),
        dated is Some ==> regex_captured(dated->0) == pattern_captures(dated_pattern()),
    ensures
        text_of(key) == series_of_name(name@),
{
    let by_number = match numbered {
        Some(re) => match_parts(re, name),
        None => None,
    };
    let parts = match by_number {
        Some(p) => Some(p),
        None => match dated {
            Some(re) => match_parts(re, name),
            None => None,
        },
    };
    match parts {
        Some((prefix, suffix)) => {
            let pattern = prefix.concat("*").concat(suffix.as_str());
            Some(pattern)
        },
        None => None,
    }
}

/// Compiles an expression, giving `None` where it does not compile.
fn compiled(pattern: &str) -> (re: Option<regex::Regex>)
    ensures
        re is Some <==> regex_compiles(pattern@),
        re is Some ==> regex_captured(re->0) == pattern_captures(pattern@),
{
    match compile_regex(pattern) {
        Ok(re) => Some(re),
        Err(_) => None,
    }
}

/// Builds the report of one series.
fn summarize(files: &[SimpleFileInfo], members: &Vec<usize>, pattern: String) -> (group:
    PatternGroup)
    requires
        members@.len() > 0,
        ascending_below(members@, files@.len() as int),
        total_size(records_of(files@)) <= u64::MAX,
        series_of_path(records_of(files@)[members@[0] as int].path) == Some((0u64, pattern@)),
    ensures
        group@ == series_summary(records_of(files@), members@),
{
    let ghost recs = records_of(files@);
    let mut total: u64 = 0;
    let mut samples: Vec<String> = Vec::new();
    let mut k: usize = 0;
    proof {
        picked_total_bounded(recs, members@, files@.len() as int);
        assert(pick(recs, members@.take(0)) =~= Seq::<FileRecord>::empty());
    }
    while k < members.len()
        invariant
            k <= members.len(),
            recs == records_of(files@),
            ascending_below(members@, files@.len() as int),
            total_size(pick(recs, members@)) <= u64::MAX,
            total == total_size(pick(recs, members@.take(k as int))),
            samples@.len() == (if k < MAX_SAMPLES {
                k
            } else {
                MAX_SAMPLES
            }),
            forall|t: int|
                0 <= t < samples@.len() ==> (#[trigger] samples@[t])@ == recs[members@[t] as int].path,
        decreases members.len() - k,
    {
        let file = &files[members[k]];
        proof {
            let whole = pick(recs, members@);
            assert(pick(recs, members@.take(k + 1)) =~= pick(recs, members@.take(k as int)).push(
                recs[members@[k as int] as int],
            ));
            total_size_push(pick(recs, members@.take(k as int)), recs[members@[k as int] as int]);
            assert(pick(recs, members@.take(k + 1)) =~= whole.take(k + 1));
            crate::model::total_size_prefix(whole, k + 1);
        }
        total = total + file.size_bytes;
        if k < MAX_SAMPLES {
            samples.push(file.path.clone());
        }
        k = k + 1;
    }
    proof {
        assert(members@.take(k as int) =~= members@);
    }
    let group = PatternGroup {
        pattern,
        count: members.len(),
        total_size_bytes: total,
        sample_files: samples,
    };
    proof {
        assert(group@.sample_files =~= series_summary(recs, members@).sample_files);
    }
    group
}

/// The total size of the files at `members`.
fn members_total(files: &[SimpleFileInfo], members: &Vec<usize>) -> (total: u64)
    requires
        ascending_below(members@, files@.len() as int),
        total_size(records_of(files@)) <= u64::MAX,
    ensures
        total == total_size(pick(records_of(files@), members@)),
{
    let ghost recs = records_of(files@);
    let mut total: u64 = 0;
    let mut k: usize = 0;
    proof {
        picked_total_bounded(recs, members@, files@.len() as int);
        assert(pick(recs, members@.take(0)) =~= Seq::<FileRecord>::empty());
    }
    while k < members.len()
        invariant
            k <= members.len(),
            recs == records_of(files@),
            ascending_below(members@, files@.len() as int),
            total_size(pick(recs, members@)) <= u64::MAX,
            total == total_size(pick(recs, members@.take(k as int))),
        decreases members.len() - k,
    {
        proof {
            let whole = pick(recs, members@);
            assert(pick(recs, members@.take(k + 1)) =~= pick(recs, members@.take(k as int)).push(
                recs[members@[k as int] as int],
            ));
            total_size_push(pick(recs, members@.take(k as int)), recs[members@[k as int] as int]);
            assert(pick(recs, members@.take(k + 1)) =~= whole.take(k + 1));
            crate::model::total_size_prefix(whole, k + 1);
        }
        total = total + files[members[k]].size_bytes;
        k = k + 1;
    }
    proof {
        assert(members@.take(k as int) =~= members@);
    }
    total
}

/// For each file, the series it belongs to.
fn series_keys_of(files: &[SimpleFileInfo]) -> (keys: Vec<Option<GroupKey>>)
    ensures
        crate::group::key_views(keys@) == series_keys(records_of(files@)),
{
    let numbered = compiled("^(.+?)[-_]?(\\d{2,})(\\..+)?$");
    let dated = compiled("^(.+?)[-_]?(\\d{4}[-_]?\\d{2}[-_]?\\d{2})(\\..+)?$");
    let ghost recs = records_of(files@);
    let mut keys: Vec<Option<GroupKey>> = Vec::new();
    let mut i: usize = 0;
    while i < files.len()
        invariant
            i <= files.len(),
            recs == records_of(files@),
            numbered is Some <==> regex_compiles(numbered_pattern()),
            numbered is Some ==> regex_captured(numbered->0) == pattern_captures(numbered_pattern()),
            dated is Some <==> regex_compiles(dated_pattern()),
            dated is Some ==> regex_captured(dated->0) == pattern_captures(dated_pattern()),
            keys@.len() == i,
            forall|t: int|
                0 <= t < i ==> (match #[trigger] keys@[t] {
                    Some(k) => Some(k@),
                    None => None,
                }) == series_of_path(recs[t].path),
        decreases files.len() - i,
    {
        let key = match path_file_name(files[i].path.as_str()) {
            Some(name) => match series_key(name.as_str(), &numbered, &dated) {
                Some(pattern) => Some(GroupKey { number: 0, text: pattern }),
                None => None,
            },
            None => None,
        };
        keys.push(key);
        i = i + 1;
    }
    proof {
        assert(crate::group::key_views(keys@) =~= series_keys(recs));
    }
    keys
}

/// Finds the series of files with numbered or dated names. Files whose names
/// differ only in the number or the date form a series; a series of fewer
/// than three files is dropped. Each series reports its pattern, the number
/// of its files, their total size and up to five sample paths. The series
/// with the largest total size comes first.
pub fn detect_pattern_groups(files: &[SimpleFileInfo]) -> (found: Vec<PatternGroup>)
    requires
        total_size(records_of(files@)) <= u64::MAX,
    ensures
        reports_series(pattern_groups_of(found@), records_of(files@)),
{
    let ghost recs = records_of(files@);
    let keys = series_keys_of(files);
    let labels = label_by_key(&keys);
    let groups = group_members(&labels);
    let ghost lists = crate::group::lists_of(groups@);
    let mut series: Vec<usize> = Vec::new();
    let mut sizes: Vec<u64> = Vec::new();
    let mut g: usize = 0;
    while g < groups.len()
        invariant
            g <= groups.len(),
            recs == records_of(files@),
            lists == crate::group::lists_of(groups@),
            labels@.len() == files@.len(),
            total_size(recs) <= u64::MAX,
            forall|k: int|
                0 <= k < groups@.len() ==> ascending_below(
                    (#[trigger] groups@[k])@,
                    labels@.len() as int,
                ),
            series@.len() == series_among(lists, g as int).len(),
            sizes@.len() == series@.len(),
            forall|k: int|
                0 <= k < series@.len() ==> (#[trigger] series@[k]) < g && groups@[series@[k] as int]@
                    == series_among(lists, g as int)[k],
            forall|k: int|
                0 <= k < series@.len() ==> #[trigger] sizes@[k] == total_size(
                    pick(recs, series_among(lists, g as int)[k]),
                ),
        decreases groups.len() - g,
    {
        if groups[g].len() >= MIN_SERIES {
            let total = members_total(files, &groups[g]);
            series.push(g);
            sizes.push(total);
        }
        g = g + 1;
    }
    let ghost chosen = series_among(lists, groups@.len() as int);
    proof {
        assert(lists == groups_of(labels@));
        assert(chosen == series_in(recs));
        assert(sizes@ =~= series_sizes(recs, chosen));
    }
    let order = order_largest(&sizes);
    let mut found: Vec<PatternGroup> = Vec::new();
    let mut r: usize = 0;
    while r < order.len()
        invariant
            r <= order.len(),
            recs == records_of(files@),
            lists == crate::group::lists_of(groups@),
            labels@ == labels_of(crate::group::key_views(keys@)),
            crate::group::key_views(keys@) == series_keys(recs),
            lists == groups_of(labels@),
            labels@.len() == files@.len(),
            keys@.len() == files@.len(),
            total_size(recs) <= u64::MAX,
            chosen == series_among(lists, groups@.len() as int),
            is_order(order@, sizes@),
            sizes@.len() == series@.len(),
            series@.len() == chosen.len(),
            forall|k: int|
                0 <= k < groups@.len() ==> ascending_below(
                    (#[trigger] groups@[k])@,
                    labels@.len() as int,
                ),
            forall|k: int|
                0 <= k < series@.len() ==> (#[trigger] series@[k]) < groups@.len()
                    && groups@[series@[k] as int]@ == chosen[k],
            found@.len() == r,
            forall|t: int|
                0 <= t < r ==> (#[trigger] found@[t])@ == series_summary(
                    recs,
                    chosen[order@[t] as int],
                ),
        decreases order.len() - r,
    {
        let which = order[r];
        let members = &groups[series[which]];
        proof {
            series_are_long(lists, groups@.len() as int, which as int);
            crate::group::group_has_keyed_first(series_keys(recs), series[which as int] as int);
        }
        let first = members[0];
        let pattern = match &keys[first] {
            Some(key) => key.text.clone(),
            None => String::new(),
        };
        let group = summarize(files, members, pattern);
        found.push(group);
        r = r + 1;
    }
    proof {
        let out = pattern_groups_of(found@);
        assert(is_order(order@, series_sizes(recs, chosen)));
        assert(out.len() == chosen.len());
        assert forall|t: int| 0 <= t < out.len() implies #[trigger] out[t] == series_summary(
            recs,
            chosen[order@[t] as int],
        ) by {
            assert(found@[t]@ == series_summary(recs, chosen[order@[t] as int]));
        }
    }
    found
}

/// Every series has at least three members.
proof fn series_are_long(groups: Seq<Seq<usize>>, upto: int, k: int)
    requires
        0 <= upto <= groups.len(),
        0 <= k < series_among(groups, upto).len(),
    ensures
        series_among(groups, upto)[k].len() >= MIN_SERIES,
    decreases upto,
{
    if upto > 0 {
        if k < series_among(groups, upto - 1).len() {
            series_are_long(groups, upto - 1, k);
        }
    }
}

} // verus!
