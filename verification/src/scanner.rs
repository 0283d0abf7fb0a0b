//! The rules of the scan: which directories are searched, which virtual
//! environments count as stale, how sizes and modification times are
//! summarised, and in which order the projects are listed.

use vstd::prelude::*;
use crate::model::Project;
use crate::text::lemma_filter_rejects_all;

verus! {

/// A virtual environment is listed when it was last modified at least this
/// many days ago.
pub const SCAN_DAYS: u64 = 30;

/// Nanoseconds in one day.
pub const NANOS_PER_DAY: i128 = 86_400_000_000_000;

/// The directory names whose contents do not count towards a project's
/// modification time.
pub open spec fn is_skipped_name(name: Seq<char>) -> bool {
    ||| name == ".git"@
    ||| name == ".venv"@
    ||| name == "__pycache__"@
    ||| name == "node_modules"@
    ||| name == "target"@
    ||| name == ".tox"@
    ||| name == ".mypy_cache"@
    ||| name == ".pytest_cache"@
}

fn same_text(a: &str, b: &str) -> (eq: bool)
    ensures
        eq == (a@ == b@),
{
    let a_owned = a.to_owned();
    let b_owned = b.to_owned();
    a_owned == b_owned
}

/// The directories left out of a project's modification time are exactly
/// those named `.git`, `.venv`, `__pycache__`, `node_modules`, `target`,
/// `.tox`, `.mypy_cache` and `.pytest_cache`.
pub proof fn law_skipped_names_are_the_eight(name: Seq<char>)
    ensures
        is_skipped_name(name) <==> set![
            ".git"@,
            ".venv"@,
            "__pycache__"@,
            "node_modules"@,
            "target"@,
            ".tox"@,
            ".mypy_cache"@,
            ".pytest_cache"@,
        ].contains(name),
{
}

/// Whether a directory with this name is left out when a project's
/// modification time is sought.
pub fn is_skipped_dir(name: &str) -> (skip: bool)
    ensures
        skip == is_skipped_name(name@),
        skip == set![
            ".git"@,
            ".venv"@,
            "__pycache__"@,
            "node_modules"@,
            "target"@,
            ".tox"@,
            ".mypy_cache"@,
            ".pytest_cache"@,
        ].contains(name@),
{
    proof {
        law_skipped_names_are_the_eight(name@);
    }
    same_text(name, ".git") || same_text(name, ".venv") || same_text(name, "__pycache__")
        || same_text(name, "node_modules") || same_text(name, "target") || same_text(name, ".tox")
        || same_text(name, ".mypy_cache") || same_text(name, ".pytest_cache")
}

/// Whether the walk descends into (or counts) an entry: every file does,
/// and every directory whose name is not skipped.
pub fn is_walked_entry(is_dir: bool, name: &str) -> (walked: bool)
    ensures
        walked == (!is_dir || !is_skipped_name(name@)),
{
    if is_dir {
        !is_skipped_dir(name)
    } else {
        true
    }
}

/// Whether a file name marks the directory holding it as a Python project.
pub fn is_project_file(name: &str) -> (marks: bool)
    ensures
        marks == (name@ == "pyproject.toml"@),
{
    same_text(name, "pyproject.toml")
}

/// The moment `days` days before `now`; both in nanoseconds since the epoch.
pub open spec fn stale_before(now: i128, days: u64) -> int {
    now - days * NANOS_PER_DAY
}

/// The inputs on which the stale limit can be computed: the span of `days`
/// days counted in seconds fits a `u64`, and the limit is a point in time
/// that a `SystemTime` can hold (its second fits an `i64`).
pub open spec fn stale_limit_representable(now: i128, days: u64) -> bool {
    &&& days * 86_400 <= u64::MAX
    &&& stale_before(now, days) >= i64::MIN * 1_000_000_000
}

/// Whether an environment last modified at `venv_modified` is stale at
/// `now`: it has not been modified for `days` days or more, that is, it was
/// last modified at or before the moment `days` days earlier.
pub fn is_stale(venv_modified: i128, now: i128, days: u64) -> (stale: bool)
    requires
        stale_limit_representable(now, days),
    ensures
        stale == (venv_modified <= stale_before(now, days)),
        stale == (now - venv_modified >= days * 86_400 * 1_000_000_000),
{
    let span: i128 = days as i128 * NANOS_PER_DAY;
    let limit: i128 = now - span;
    venv_modified <= limit
}

/// A project found by the scan, before it is measured: its directory, its
/// environment directory, when the environment was last modified, and the
/// position in which the scan found it (by which the caller finds its own
/// record of it again).
pub struct VenvCandidate {
    pub path: String,
    pub venv_path: String,
    pub venv_modified: i128,
    pub found_at: usize,
}

/// Whether a found project is listed: its environment is stale.
pub open spec fn is_listed_candidate(c: VenvCandidate, now: i128, days: u64) -> bool {
    c.venv_modified <= stale_before(now, days)
}

/// The found projects that the scan lists, in the order they were found:
/// those whose environment has not been modified for `days` days or more.
pub fn stale_candidates(candidates: Vec<VenvCandidate>, now: i128, days: u64) -> (listed: Vec<VenvCandidate>)
    requires
        stale_limit_representable(now, days),
    ensures
        listed@ == candidates@.filter(|c: VenvCandidate| is_listed_candidate(c, now, days)),
{
    let ghost orig = candidates@;
    let ghost keep = |c: VenvCandidate| is_listed_candidate(c, now, days);
    let mut rest = candidates;
    let mut listed: Vec<VenvCandidate> = Vec::new();
    let ghost mut k: int = 0;
    while rest.len() > 0
        invariant
            keep == (|c: VenvCandidate| is_listed_candidate(c, now, days)),
            stale_limit_representable(now, days),
            0 <= k <= orig.len(),
            rest@ == orig.skip(k),
            listed@ == orig.take(k).filter(keep),
        decreases rest@.len(),
    {
        let c = rest.remove(0);
        proof {
            assert(orig.take(k + 1) =~= orig.take(k).push(c));
            orig.take(k).lemma_filter_push(c, keep);
            assert(orig.skip(k + 1) =~= orig.skip(k).drop_first());
        }
        if is_stale(c.venv_modified, now, days) {
            listed.push(c);
        }
        proof {
            k = k + 1;
        }
    }
    assert(orig.take(k) =~= orig);
    listed
}

/// The newest of the modification times, or the epoch when there is none.
pub fn latest_modified(times: &Vec<i128>) -> (latest: i128)
    ensures
        times@.len() == 0 ==> latest == 0,
        times@.len() > 0 ==> times@.contains(latest),
        forall|i: int| 0 <= i < times@.len() ==> #[trigger] times@[i] <= latest,
{
    if times.len() == 0 {
        return 0;
    }
    let mut latest: i128 = times[0];
    let mut i: usize = 1;
    while i < times.len()
        invariant
            1 <= i <= times@.len(),
            times@.contains(latest),
            forall|j: int| 0 <= j < i ==> #[trigger] times@[j] <= latest,
        decreases times@.len() - i,
    {
        if times[i] > latest {
            latest = times[i];
        }
        i = i + 1;
    }
    latest
}

/// The sum of a sequence of sizes.
pub open spec fn sum_of(sizes: Seq<u64>) -> nat
    decreases sizes.len(),
{
    if sizes.len() == 0 {
        0
    } else {
        sum_of(sizes.drop_last()) + sizes.last() as nat
    }
}

proof fn lemma_sum_of_prefix(sizes: Seq<u64>, i: int)
    requires
        0 <= i <= sizes.len(),
    ensures
        sum_of(sizes.take(i)) <= sum_of(sizes),
    decreases sizes.len() - i,
{
    if i < sizes.len() {
        lemma_sum_of_prefix(sizes, i + 1);
        assert(sizes.take(i + 1).drop_last() =~= sizes.take(i));
    } else {
        assert(sizes.take(i) =~= sizes);
    }
}

proof fn lemma_sum_of_add(a: Seq<u64>, b: Seq<u64>)
    ensures
        sum_of(a + b) == sum_of(a) + sum_of(b),
    decreases b.len(),
{
    if b.len() > 0 {
        assert((a + b).drop_last() =~= a + b.drop_last());
        lemma_sum_of_add(a, b.drop_last());
    } else {
        assert(a + b =~= a);
    }
}

/// A file added anywhere among the others adds exactly its size to the
/// total.
pub proof fn law_sum_grows_by_added_size(sizes: Seq<u64>, i: int, size: u64)
    requires
        0 <= i <= sizes.len(),
    ensures
        sum_of(sizes.insert(i, size)) == sum_of(sizes) + size,
{
    let low = sizes.take(i);
    let high = sizes.skip(i);
    assert(sizes =~= low + high);
    assert(sizes.insert(i, size) =~= low.push(size) + high);
    lemma_sum_of_add(low, high);
    lemma_sum_of_add(low.push(size), high);
    assert(low.push(size).drop_last() =~= low);
}

/// The total does not depend on the order in which the sizes come: sizes
/// that are a rearrangement of each other add up to the same total.
pub proof fn law_sum_ignores_order(a: Seq<u64>, b: Seq<u64>)
    requires
        a.to_multiset() == b.to_multiset(),
    ensures
        sum_of(a) == sum_of(b),
    decreases a.len(),
{
    broadcast use vstd::seq_lib::to_multiset_len, vstd::seq_lib::to_multiset_contains,
        vstd::seq_lib::to_multiset_remove;

    if a.len() == 0 {
        assert(b.to_multiset().len() == 0);
        assert(b.len() == 0);
        assert(a =~= b);
    } else {
        let x = a.last();
        assert(a.to_multiset().count(x) > 0) by {
            assert(a.contains(x)) by {
                assert(a[a.len() - 1] == x);
            }
        }
        assert(b.contains(x));
        let k = choose|k: int| 0 <= k < b.len() && b[k] == x;
        assert(a.remove(a.len() - 1) =~= a.drop_last());
        assert(a.drop_last().to_multiset() == a.to_multiset().remove(x));
        assert(b.remove(k).to_multiset() == b.to_multiset().remove(x));
        law_sum_ignores_order(a.drop_last(), b.remove(k));
        assert(b.remove(k).insert(k, x) =~= b);
        law_sum_grows_by_added_size(b.remove(k), k, x);
    }
}

/// The total size of the files of a directory, from the sizes of its files.
/// The total must fit in a `u64`.
pub fn total_size(sizes: &Vec<u64>) -> (total: u64)
    requires
        sum_of(sizes@) <= u64::MAX,
    ensures
        total == sum_of(sizes@),
{
    let mut total: u64 = 0;
    let mut i: usize = 0;
    while i < sizes.len()
        invariant
            i <= sizes@.len(),
            sum_of(sizes@) <= u64::MAX,
            total == sum_of(sizes@.take(i as int)),
        decreases sizes@.len() - i,
    {
        proof {
            lemma_sum_of_prefix(sizes@, i + 1);
            assert(sizes@.take(i + 1).drop_last() =~= sizes@.take(i as int));
        }
        total = total + sizes[i];
        i = i + 1;
    }
    assert(sizes@.take(i as int) =~= sizes@);
    total
}

/// Whether the projects are ordered from the oldest modification time to the
/// newest.
pub open spec fn oldest_first(s: Seq<Project>) -> bool {
    forall|i: int, j: int| 0 <= i <= j < s.len() ==> s[i].last_modified <= s[j].last_modified
}

/// The test for projects last modified at `t`.
pub open spec fn modified_at(t: i128) -> spec_fn(Project) -> bool {
    |p: Project| p.last_modified == t
}

/// Orders the projects from the oldest modification time to the newest.
/// Projects with the same time keep their relative order.
pub fn sort_by_last_modified(projects: Vec<Project>) -> (sorted: Vec<Project>)
    ensures
        sorted@.len() == projects@.len(),
        oldest_first(sorted@),
        forall|t: i128| #[trigger] sorted@.filter(modified_at(t)) == projects@.filter(modified_at(t)),
{
    let ghost orig = projects@;
    let mut rest = projects;
    let mut sorted: Vec<Project> = Vec::new();
    let ghost mut k: int = 0;
    while rest.len() > 0
        invariant
            0 <= k <= orig.len(),
            rest@ == orig.skip(k),
            sorted@.len() == k,
            oldest_first(sorted@),
            forall|t: i128| #[trigger] sorted@.filter(modified_at(t)) == orig.take(k).filter(modified_at(t)),
        decreases rest@.len(),
    {
        let p = rest.remove(0);
        let key = p.last_modified;
        let mut pos: usize = 0;
        while pos < sorted.len() && sorted[pos].last_modified <= key
            invariant
                pos <= sorted@.len(),
                forall|i: int| 0 <= i < pos ==> #[trigger] sorted@[i].last_modified <= key,
            decreases sorted@.len() - pos,
        {
            pos = pos + 1;
        }
        let ghost before = sorted@;
        proof {
            assert forall|i: int| pos <= i < before.len() implies #[trigger] before[i].last_modified > key by {
                if pos < before.len() {
                    assert(before[pos as int].last_modified > key);
                }
            }
        }
        sorted.insert(pos, p);
        proof {
            let after = sorted@;
            let low = before.take(pos as int);
            let high = before.skip(pos as int);
            assert(before =~= low + high);
            assert(after =~= low.push(p) + high);
            assert(orig.take(k + 1) =~= orig.take(k).push(p));
            assert(orig.skip(k + 1) =~= orig.skip(k).drop_first());
            assert forall|t: i128| #[trigger] after.filter(modified_at(t)) == orig.take(k + 1).filter(
                modified_at(t),
            ) by {
                let f = modified_at(t);
                Seq::filter_distributes_over_add(low, high, f);
                Seq::filter_distributes_over_add(low.push(p), high, f);
                low.lemma_filter_push(p, f);
                orig.take(k).lemma_filter_push(p, f);
                if t == key {
                    lemma_filter_rejects_all(high, f);
                    assert(low.filter(f) + high.filter(f) =~= low.filter(f));
                    assert(low.filter(f).push(p) + high.filter(f) =~= low.filter(f).push(p));
                }
            }
            k = k + 1;
        }
    }
    assert(orig.take(k) =~= orig);
    sorted
}

} // verus!
