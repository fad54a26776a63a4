//! Which session log files to delete: by age, by count and by total size.

use vstd::prelude::*;
use vstd::relations::*;
use crate::sorting::insertion_sort;
use crate::text::{
    lemma_text_le_antisymmetric, lemma_text_le_total, lemma_text_le_transitive, text_before, text_eq,
    text_le, text_lt,
};

verus! {

/// Age past which session logs are deleted.
pub const LOG_RETENTION_MAX_AGE_DAYS: u64 = 7;

/// Number of session logs kept at most.
pub const LOG_RETENTION_MAX_FILES: usize = 20;

/// Total size of session logs kept at most.
pub const LOG_RETENTION_MAX_TOTAL_BYTES: u64 = 50 * 1024 * 1024;

/// Milliseconds in a day.
pub const DAY_MS: u64 = 86_400_000;

/// Limits on the session logs that are kept.
#[derive(Clone, Copy, Debug, PartialEq, Eq)]
pub struct LogRetentionPolicy {
    /// Files last written this many days ago or earlier are deleted.
    pub max_age_days: u64,
    /// At most this many files are kept.
    pub max_files: usize,
    /// At most this many bytes are kept; zero means no size limit. The
    /// newest file is kept whatever its size.
    pub max_total_bytes: u64,
}

impl Default for LogRetentionPolicy {
    fn default() -> (r: LogRetentionPolicy)
        ensures
            r.max_age_days == LOG_RETENTION_MAX_AGE_DAYS,
            r.max_files == LOG_RETENTION_MAX_FILES,
            r.max_total_bytes == LOG_RETENTION_MAX_TOTAL_BYTES,
    {
        LogRetentionPolicy {
            max_age_days: LOG_RETENTION_MAX_AGE_DAYS,
            max_files: LOG_RETENTION_MAX_FILES,
            max_total_bytes: LOG_RETENTION_MAX_TOTAL_BYTES,
        }
    }
}

/// A session log file found on disk.
#[derive(Clone, Debug, PartialEq, Eq)]
pub struct ManagedLogFile {
    /// Its path.
    pub path: String,
    /// When it was last written, in milliseconds since the Unix epoch.
    pub modified_at_ms: u64,
    /// Its size.
    pub size_bytes: u64,
}

impl ManagedLogFile {
    /// An exact copy.
    pub fn duplicate(&self) -> (r: ManagedLogFile)
        ensures
            r == *self,
    {
        ManagedLogFile { path: self.path.clone(), modified_at_ms: self.modified_at_ms, size_bytes: self.size_bytes }
    }
}

/// `x` may come before `y`: newer first, then by path.
pub open spec fn file_le(x: ManagedLogFile, y: ManagedLogFile) -> bool {
    x.modified_at_ms > y.modified_at_ms || (x.modified_at_ms == y.modified_at_ms && text_le(
        x.path@,
        y.path@,
    ))
}

/// `file_le` as a relation.
pub open spec fn file_leq() -> spec_fn(ManagedLogFile, ManagedLogFile) -> bool {
    |x: ManagedLogFile, y: ManagedLogFile| file_le(x, y)
}

/// The age limit in milliseconds, saturating.
pub open spec fn age_limit_ms(days: u64) -> int {
    if days as int * DAY_MS as int > u64::MAX as int {
        u64::MAX as int
    } else {
        days as int * DAY_MS as int
    }
}

/// The instant at or before which files count as expired; `None` when it
/// would lie before the epoch.
pub open spec fn cutoff_ms(policy: LogRetentionPolicy, now_ms: u64) -> Option<int> {
    if now_ms as int >= age_limit_ms(policy.max_age_days) {
        Some(now_ms as int - age_limit_ms(policy.max_age_days))
    } else {
        None
    }
}

/// `f` is expired for `cutoff`.
pub open spec fn is_expired(f: ManagedLogFile, cutoff: Option<int>) -> bool {
    cutoff matches Some(c) && f.modified_at_ms as int <= c
}

/// Whether a file is expired for `cutoff`, as a predicate.
pub open spec fn expired_by(cutoff: Option<int>) -> spec_fn(ManagedLogFile) -> bool {
    |f: ManagedLogFile| is_expired(f, cutoff)
}

/// Whether a file is not expired for `cutoff`, as a predicate.
pub open spec fn kept_by(cutoff: Option<int>) -> spec_fn(ManagedLogFile) -> bool {
    |f: ManagedLogFile| !is_expired(f, cutoff)
}

/// `a + b`, at most `u64::MAX`.
pub open spec fn sat_add(a: int, b: int) -> int {
    if a + b > u64::MAX as int {
        u64::MAX as int
    } else {
        a + b
    }
}

/// The files of `files`, from `i` on, that do not fit within `max` bytes
/// when `consumed` bytes are already taken; the first file always fits.
pub open spec fn over_budget(files: Seq<ManagedLogFile>, max: int, i: int, consumed: int) -> Seq<
    ManagedLogFile,
>
    decreases files.len() - i,
{
    if i < 0 || i >= files.len() {
        Seq::empty()
    } else {
        let next = sat_add(consumed, files[i].size_bytes as int);
        if i > 0 && next > max {
            seq![files[i]] + over_budget(files, max, i + 1, consumed)
        } else {
            over_budget(files, max, i + 1, next)
        }
    }
}

/// The files to delete from `sorted`, newest first: the expired ones, then
/// those past the count limit, then those past the size limit.
pub open spec fn planned(sorted: Seq<ManagedLogFile>, policy: LogRetentionPolicy, now_ms: u64) -> Seq<
    ManagedLogFile,
> {
    let cutoff = cutoff_ms(policy, now_ms);
    let expired = sorted.filter(expired_by(cutoff));
    let kept = sorted.filter(kept_by(cutoff));
    let n = if kept.len() > policy.max_files {
        policy.max_files as int
    } else {
        kept.len() as int
    };
    let by_size = if policy.max_total_bytes > 0 {
        over_budget(kept.take(n), policy.max_total_bytes as int, 0, 0)
    } else {
        Seq::empty()
    };
    expired + kept.skip(n) + by_size
}

/// `file_le` is a total preorder.
proof fn lemma_file_le_total_preorder()
    ensures
        forall|x: ManagedLogFile, y: ManagedLogFile| #[trigger] file_le(x, y) || #[trigger] file_le(y, x),
        forall|x: ManagedLogFile, y: ManagedLogFile, z: ManagedLogFile|
            #[trigger] file_le(x, y) && #[trigger] file_le(y, z) ==> file_le(x, z),
{
    assert forall|x: ManagedLogFile, y: ManagedLogFile| #[trigger] file_le(x, y) || #[trigger] file_le(y, x) by {
        lemma_text_le_total(x.path@, y.path@);
    }
    assert forall|x: ManagedLogFile, y: ManagedLogFile, z: ManagedLogFile|
        #[trigger] file_le(x, y) && #[trigger] file_le(y, z) implies file_le(x, z) by {
        if x.modified_at_ms == y.modified_at_ms && y.modified_at_ms == z.modified_at_ms {
            lemma_text_le_transitive(x.path@, y.path@, z.path@);
        }
    }
}

/// Sorts files newest first, then by path.
fn sort_files(v: Vec<ManagedLogFile>) -> (r: Vec<ManagedLogFile>)
    ensures
        r@.to_multiset() == v@.to_multiset(),
        sorted_by(r@, file_leq()),
{
    proof {
        lemma_file_le_total_preorder();
    }
    let before = |x: &ManagedLogFile, y: &ManagedLogFile| -> (r: bool)
        ensures
            r == file_le(*x, *y),
        {
            x.modified_at_ms > y.modified_at_ms || (x.modified_at_ms == y.modified_at_ms
                && text_before(x.path.as_str(), y.path.as_str()))
        };
    insertion_sort(v, before, Ghost(file_leq()))
}

/// The texts of the paths of `files`.
pub open spec fn path_set(files: Seq<ManagedLogFile>) -> Set<Seq<char>> {
    Set::new(|p: Seq<char>| exists|i: int| 0 <= i < files.len() && (#[trigger] files[i]).path@ == p)
}

/// The texts of `r`.
pub open spec fn text_set(r: Seq<String>) -> Set<Seq<char>> {
    Set::new(|p: Seq<char>| exists|i: int| 0 <= i < r.len() && (#[trigger] r[i])@ == p)
}

/// Each text of `r` comes strictly before the next: ascending, no repeats.
pub open spec fn strictly_ascending(r: Seq<String>) -> bool {
    forall|a: int, b: int| 0 <= a < b < r.len() ==> text_lt((#[trigger] r[a])@, (#[trigger] r[b])@)
}

/// The paths of `files`, ascending and each once.
fn sorted_unique_paths(files: &Vec<ManagedLogFile>) -> (r: Vec<String>)
    ensures
        strictly_ascending(r@),
        text_set(r@) == path_set(files@),
{
    let mut out: Vec<String> = Vec::new();
    let mut q: usize = 0;
    while q < files.len()
        invariant
            q <= files@.len(),
            strictly_ascending(out@),
            text_set(out@) == path_set(files@.take(q as int)),
        decreases files@.len() - q,
    {
        let p = &files[q].path;
        let mut pos: usize = 0;
        while pos < out.len() && !text_before(p.as_str(), out[pos].as_str())
            invariant
                pos <= out@.len(),
                forall|k: int| 0 <= k < pos ==> text_lt((#[trigger] out@[k])@, p@),
            decreases out@.len() - pos,
        {
            proof {
                lemma_text_le_total(p@, out@[pos as int]@);
            }
            pos = pos + 1;
        }
        let ghost before = out@;
        let ghost fq = files@.take(q + 1);
        proof {
            assert(fq[q as int] == files@[q as int]);
            assert forall|i: int| 0 <= i < q implies #[trigger] fq[i] == files@.take(q as int)[i] by {}
        }
        if pos < out.len() && text_eq(out[pos].as_str(), p.as_str()) {
            proof {
                assert(text_set(out@) =~= path_set(fq)) by {
                    assert forall|t: Seq<char>| path_set(fq).contains(t) implies text_set(out@).contains(t) by {
                        let i = choose|i: int| 0 <= i < fq.len() && (#[trigger] fq[i]).path@ == t;
                        if i == q {
                            assert(out@[pos as int]@ == t);
                        } else {
                            assert(files@.take(q as int)[i] == fq[i]);
                            assert(path_set(files@.take(q as int)).contains(t));
                        }
                    }
                    assert forall|t: Seq<char>| text_set(out@).contains(t) implies path_set(fq).contains(t) by {
                        assert(path_set(files@.take(q as int)).contains(t));
                        let i = choose|i: int| 0 <= i < q && (#[trigger] files@.take(q as int)[i]).path@ == t;
                        assert(fq[i].path@ == t);
                    }
                }
            }
        } else {
            out.insert(pos, p.clone());
            proof {
                if pos < before.len() {
                    assert(text_le(p@, before[pos as int]@));
                    assert(p@ != before[pos as int]@);
                }
                assert forall|a: int, b: int| 0 <= a < b < out@.len() implies text_lt((#[trigger] out@[a])@, (#[trigger] out@[b])@) by {
                    if b < pos {
                        assert(out@[a] == before[a] && out@[b] == before[b]);
                    } else if b == pos {
                        assert(out@[a] == before[a]);
                    } else if a < pos {
                        assert(out@[a] == before[a] && out@[b] == before[b - 1]);
                        if b - 1 > pos {
                            assert(text_lt(before[pos as int]@, before[b - 1]@));
                            lemma_text_le_transitive(p@, before[pos as int]@, before[b - 1]@);
                            if p@ == before[b - 1]@ {
                                lemma_text_le_antisymmetric(p@, before[pos as int]@);
                            }
                        }
                        lemma_text_le_transitive(before[a]@, p@, before[b - 1]@);
                        if before[a]@ == before[b - 1]@ {
                            lemma_text_le_antisymmetric(before[a]@, p@);
                        }
                    } else if a == pos {
                        assert(out@[b] == before[b - 1]);
                        if b - 1 > pos {
                            assert(text_lt(before[pos as int]@, before[b - 1]@));
                            lemma_text_le_transitive(p@, before[pos as int]@, before[b - 1]@);
                            if p@ == before[b - 1]@ {
                                lemma_text_le_antisymmetric(p@, before[pos as int]@);
                            }
                        }
                    } else {
                        assert(out@[a] == before[a - 1] && out@[b] == before[b - 1]);
                    }
                }
                assert(text_set(out@) =~= path_set(fq)) by {
                    assert forall|t: Seq<char>| path_set(fq).contains(t) implies text_set(out@).contains(t) by {
                        let i = choose|i: int| 0 <= i < fq.len() && (#[trigger] fq[i]).path@ == t;
                        if i == q {
                            assert(out@[pos as int]@ == t);
                        } else {
                            assert(files@.take(q as int)[i] == fq[i]);
                            assert(path_set(files@.take(q as int)).contains(t));
                            assert(text_set(before).contains(t));
                            let j = choose|j: int| 0 <= j < before.len() && (#[trigger] before[j])@ == t;
                            if j < pos {
                                assert(out@[j] == before[j]);
                            } else {
                                assert(out@[j + 1] == before[j]);
                            }
                        }
                    }
                    assert forall|t: Seq<char>| text_set(out@).contains(t) implies path_set(fq).contains(t) by {
                        let j = choose|j: int| 0 <= j < out@.len() && (#[trigger] out@[j])@ == t;
                        if j == pos {
                            assert(fq[q as int].path@ == t);
                        } else {
                            let bj = if j < pos { j } else { j - 1 };
                            assert(before[bj] == out@[j]);
                            assert(text_set(before).contains(t));
                            assert(path_set(files@.take(q as int)).contains(t));
                            let i = choose|i: int| 0 <= i < q && (#[trigger] files@.take(q as int)[i]).path@ == t;
                            assert(fq[i].path@ == t);
                        }
                    }
                }
            }
        }
        q = q + 1;
    }
    proof {
        assert(files@.take(files@.len() as int) =~= files@);
    }
    out
}

/// The paths of the session logs to delete from `files` under `policy` at
/// `now_ms`: the expired ones; of the rest, newest first, those past
/// `max_files`; then, when `max_total_bytes` is not zero, each later file
/// that would take the kept total past it. The newest kept file is never
/// deleted for its size. The paths come ascending, each once.
pub fn plan_log_deletions(files: Vec<ManagedLogFile>, policy: LogRetentionPolicy, now_ms: u64) -> (r: Vec<String>)
    ensures
        strictly_ascending(r@),
        exists|sorted: Seq<ManagedLogFile>|
            #![trigger sorted_by(sorted, file_leq())]
            sorted_by(sorted, file_leq()) && sorted.to_multiset() == files@.to_multiset()
                && text_set(r@) == path_set(planned(sorted, policy, now_ms)),
{
    let sorted = sort_files(files);
    let age: u64 = if policy.max_age_days > u64::MAX / DAY_MS {
        proof {
            assert(policy.max_age_days as int * DAY_MS as int > u64::MAX as int) by (nonlinear_arith)
                requires
                    policy.max_age_days > u64::MAX / DAY_MS,
                    DAY_MS == 86_400_000,
            ;
        }
        u64::MAX
    } else {
        proof {
            assert(policy.max_age_days as int * DAY_MS as int <= u64::MAX as int) by (nonlinear_arith)
                requires
                    policy.max_age_days <= u64::MAX / DAY_MS,
                    DAY_MS == 86_400_000,
            ;
        }
        policy.max_age_days * DAY_MS
    };
    let cutoff: Option<u64> = if now_ms >= age {
        Some(now_ms - age)
    } else {
        None
    };
    let ghost cut: Option<int> = cutoff_ms(policy, now_ms);
    proof {
        assert(age as int == age_limit_ms(policy.max_age_days));
    }
    let mut expired: Vec<ManagedLogFile> = Vec::new();
    let mut kept: Vec<ManagedLogFile> = Vec::new();
    let mut i: usize = 0;
    while i < sorted.len()
        invariant
            i <= sorted@.len(),
            cut == cutoff_ms(policy, now_ms),
            cutoff matches Some(c) ==> cut == Some(c as int),
            cutoff is None ==> cut is None,
            expired@ == sorted@.subrange(0, i as int).filter(expired_by(cut)),
            kept@ == sorted@.subrange(0, i as int).filter(kept_by(cut)),
        decreases sorted@.len() - i,
    {
        proof {
            reveal(Seq::filter);
            assert(sorted@.subrange(0, i + 1).drop_last() =~= sorted@.subrange(0, i as int));
        }
        let f = sorted[i].duplicate();
        let is_old = match cutoff {
            Some(c) => f.modified_at_ms <= c,
            None => false,
        };
        if is_old {
            expired.push(f);
        } else {
            kept.push(f);
        }
        i = i + 1;
    }
    proof {
        assert(sorted@.subrange(0, sorted@.len() as int) =~= sorted@);
    }
    let n: usize = if kept.len() > policy.max_files {
        policy.max_files
    } else {
        kept.len()
    };
    let mut marks: Vec<ManagedLogFile> = Vec::new();
    let mut j: usize = 0;
    while j < expired.len()
        invariant
            j <= expired@.len(),
            marks@ == expired@.take(j as int),
        decreases expired@.len() - j,
    {
        marks.push(expired[j].duplicate());
        proof {
            assert(expired@.take(j + 1) =~= expired@.take(j as int).push(expired@[j as int]));
        }
        j = j + 1;
    }
    let mut k: usize = n;
    while k < kept.len()
        invariant
            n <= k <= kept@.len(),
            marks@ == expired@ + kept@.subrange(n as int, k as int),
        decreases kept@.len() - k,
    {
        marks.push(kept[k].duplicate());
        proof {
            assert(kept@.subrange(n as int, k + 1) =~= kept@.subrange(n as int, k as int).push(kept@[k as int]));
        }
        k = k + 1;
    }
    let ghost base = marks@;
    proof {
        assert(expired@.take(expired@.len() as int) =~= expired@);
        assert(kept@.subrange(n as int, kept@.len() as int) =~= kept@.skip(n as int));
    }
    if policy.max_total_bytes > 0 {
        let ghost kt = kept@.take(n as int);
        let ghost max = policy.max_total_bytes as int;
        let mut consumed: u64 = 0;
        let mut b: usize = 0;
        proof {
            let e = Seq::<ManagedLogFile>::empty();
            assert(marks@ =~= base + e);
            assert(e + over_budget(kt, max, 0, 0) =~= over_budget(kt, max, 0, 0));
        }
        while b < n
            invariant
                b <= n <= kept@.len(),
                kt == kept@.take(n as int),
                max == policy.max_total_bytes as int,
                exists|acc: Seq<ManagedLogFile>|
                    #![trigger base + acc]
                    marks@ == base + acc && acc + over_budget(kt, max, b as int, consumed as int) == over_budget(kt, max, 0, 0),
            decreases n - b,
        {
            let f = &kept[b];
            let next: u64 = if consumed > u64::MAX - f.size_bytes {
                u64::MAX
            } else {
                consumed + f.size_bytes
            };
            let ghost acc0 = choose|acc: Seq<ManagedLogFile>|
                #![trigger base + acc]
                marks@ == base + acc && acc + over_budget(kt, max, b as int, consumed as int) == over_budget(kt, max, 0, 0);
            proof {
                assert(kt[b as int] == kept@[b as int]);
                assert(next as int == sat_add(consumed as int, kt[b as int].size_bytes as int));
            }
            if b > 0 && next > policy.max_total_bytes {
                marks.push(f.duplicate());
                proof {
                    let acc1 = acc0.push(kt[b as int]);
                    assert(marks@ =~= base + acc1);
                    assert(acc1 + over_budget(kt, max, b + 1, consumed as int) =~= acc0 + over_budget(kt, max, b as int, consumed as int));
                }
            } else {
                consumed = next;
                proof {
                    assert(marks@ == base + acc0);
                }
            }
            b = b + 1;
        }
        proof {
            let acc = choose|acc: Seq<ManagedLogFile>|
                #![trigger base + acc]
                marks@ == base + acc && acc + over_budget(kt, max, b as int, consumed as int) == over_budget(kt, max, 0, 0);
            assert(over_budget(kt, max, n as int, consumed as int) =~= Seq::<ManagedLogFile>::empty());
            assert(acc =~= over_budget(kt, max, 0, 0));
        }
    } else {
        proof {
            assert(marks@ =~= base + Seq::<ManagedLogFile>::empty());
        }
    }
    proof {
        assert(marks@ == planned(sorted@, policy, now_ms));
    }
    sorted_unique_paths(&marks)
}

} // verus!
