//! The walk of commits, newest first: the pairs of a commit and its
//! predecessor, the author filter, and the history of records built from it.
use vstd::prelude::*;
use crate::record::{
    count_kind, dirs_view, path_excluded, summarize, text_has_prefix, text_view, Commit,
    CommitView, DiffLine, LineKind,
};
use crate::stats::{empty_stats, stats_of, History};

verus! {

/// Options of one run: the repository, the author whose commits count, and
/// the path prefixes whose changes are left out.
pub struct Opts<'a> {
    pub repo: &'a str,
    pub author: &'a str,
    pub excluded_dirs: Vec<&'a str>,
}

/// One commit of the walk: its hash, its author's name and its summary where
/// it has them, and the changed lines of its diff against the next commit of
/// the walk, its predecessor. The lines of a commit that does not count are
/// never read, and may be left empty.
pub struct Revision {
    pub hash: String,
    pub author: Option<String>,
    pub summary: Option<String>,
    pub lines: Vec<DiffLine>,
}

/// What a revision holds.
pub struct RevisionView {
    pub hash: Seq<char>,
    pub author: Option<Seq<char>>,
    pub summary: Option<Seq<char>>,
    pub lines: Seq<(Seq<char>, LineKind)>,
}

impl View for Revision {
    type V = RevisionView;

    open spec fn view(&self) -> RevisionView {
        RevisionView {
            hash: self.hash@,
            author: text_view(self.author),
            summary: text_view(self.summary),
            lines: self.lines@.map_values(|l: DiffLine| l@),
        }
    }
}

/// A commit belongs to the author when its recorded name is exactly the
/// author's: no case folding, and a commit without a name belongs to nobody.
pub open spec fn author_is(name: Option<Seq<char>>, author: Seq<char>) -> bool {
    name == Some(author)
}

/// The records of the author's commits among the first `k` of the walk.
pub open spec fn records_upto(revs: Seq<RevisionView>, k: int, author: Seq<char>, dirs: Seq<Seq<char>>) -> Seq<CommitView>
    decreases k,
{
    if k <= 0 {
        Seq::empty()
    } else {
        let prev = records_upto(revs, k - 1, author, dirs);
        let r = revs[k - 1];
        if author_is(r.author, author) {
            prev.push(summarize(r.hash, r.summary, r.lines, dirs))
        } else {
            prev
        }
    }
}

/// The records of the author's commits in walk order. The last commit of the
/// walk, the root, has no predecessor to diff against and never counts.
pub open spec fn records_of(revs: Seq<RevisionView>, author: Seq<char>, dirs: Seq<Seq<char>>) -> Seq<CommitView> {
    records_upto(revs, revs.len() - 1, author, dirs)
}

/// The pairs of positions `(i, i + 1)` of a commit and its predecessor in a
/// walk of `n` commits: one for every commit but the last.
pub fn commit_pairs(n: usize) -> (r: Vec<(usize, usize)>)
    ensures
        r@.len() == if n == 0 {
            0
        } else {
            n - 1
        },
        forall|i: int| 0 <= i < r@.len() ==> #[trigger] r@[i] == (i as usize, (i + 1) as usize),
{
    let mut r: Vec<(usize, usize)> = Vec::new();
    if n == 0 {
        return r;
    }
    let mut i: usize = 0;
    while i + 1 < n
        invariant
            0 <= i < n,
            r@.len() == i,
            forall|j: int| 0 <= j < i ==> #[trigger] r@[j] == (j as usize, (j + 1) as usize),
        decreases n - i,
    {
        r.push((i, i + 1));
        i = i + 1;
    }
    r
}

/// Whether a commit's author name, if it has one, is exactly `author`.
pub fn author_matches(name: Option<&str>, author: &str) -> (r: bool)
    ensures
        r == author_is(
            match name {
                Some(s) => Some(s@),
                None => None,
            },
            author@,
        ),
{
    match name {
        Some(s) => crate::record::same_text(s, author),
        None => false,
    }
}

impl History {
    /// The records of the author's commits in a walk, newest first: each
    /// commit but the root whose author matches, summarized from its diff
    /// against its predecessor outside the excluded paths.
    pub fn from_log(revs: &Vec<Revision>, opts: &Opts) -> (r: History)
        requires
            forall|i: int| 0 <= i < revs@.len() ==> (#[trigger] revs@[i]).lines@.len() < u32::MAX,
        ensures
            r@ == records_of(
                revs@.map_values(|v: Revision| v@),
                opts.author@,
                dirs_view(opts.excluded_dirs@),
            ),
    {
        let ghost all = revs@.map_values(|v: Revision| v@);
        let ghost dirs = dirs_view(opts.excluded_dirs@);
        let pairs = commit_pairs(revs.len());
        let mut h = History::new();
        let mut k: usize = 0;
        while k < pairs.len()
            invariant
                0 <= k <= pairs@.len(),
                pairs@.len() == if revs@.len() == 0 {
                    0
                } else {
                    revs@.len() - 1
                },
                forall|i: int| 0 <= i < pairs@.len() ==> #[trigger] pairs@[i] == (i as usize, (i + 1) as usize),
                forall|i: int| 0 <= i < revs@.len() ==> (#[trigger] revs@[i]).lines@.len() < u32::MAX,
                all == revs@.map_values(|v: Revision| v@),
                dirs == dirs_view(opts.excluded_dirs@),
                h@ == records_upto(all, k as int, opts.author@, dirs),
            decreases pairs@.len() - k,
        {
            let (cur, _prev) = pairs[k];
            assert(cur == k);
            let rev = &revs[cur];
            let name: Option<&str> = match &rev.author {
                Some(s) => Some(s.as_str()),
                None => None,
            };
            if author_matches(name, opts.author) {
                let summary: Option<String> = match &rev.summary {
                    Some(s) => Some(s.clone()),
                    None => None,
                };
                let c = Commit::summarize(rev.hash.clone(), summary, &rev.lines, &opts.excluded_dirs);
                h.push(c);
            }
            k = k + 1;
        }
        h
    }
}

/// The sum, over the author's commits among the first `k` of the walk, of
/// the lines of one kind that each commit counts on its own.
pub open spec fn qualifying_total(revs: Seq<RevisionView>, k: int, author: Seq<char>, dirs: Seq<Seq<char>>, kind: LineKind) -> nat
    decreases k,
{
    if k <= 0 {
        0
    } else {
        qualifying_total(revs, k - 1, author, dirs, kind) + if author_is(revs[k - 1].author, author) {
            count_kind(revs[k - 1].lines, kind, dirs)
        } else {
            0nat
        }
    }
}

/// Totals are additive: the aggregate's added and deleted lines are the sums,
/// over the author's commits, of each commit's own counts.
pub proof fn lemma_totals_are_sums(revs: Seq<RevisionView>, author: Seq<char>, dirs: Seq<Seq<char>>)
    ensures
        stats_of(records_of(revs, author, dirs)).additions
            == qualifying_total(revs, revs.len() - 1, author, dirs, LineKind::Addition),
        stats_of(records_of(revs, author, dirs)).deletions
            == qualifying_total(revs, revs.len() - 1, author, dirs, LineKind::Deletion),
{
    lemma_totals_upto(revs, revs.len() - 1, author, dirs);
}

proof fn lemma_totals_upto(revs: Seq<RevisionView>, k: int, author: Seq<char>, dirs: Seq<Seq<char>>)
    ensures
        stats_of(records_upto(revs, k, author, dirs)).additions
            == qualifying_total(revs, k, author, dirs, LineKind::Addition),
        stats_of(records_upto(revs, k, author, dirs)).deletions
            == qualifying_total(revs, k, author, dirs, LineKind::Deletion),
    decreases k,
{
    if k > 0 {
        lemma_totals_upto(revs, k - 1, author, dirs);
        let prev = records_upto(revs, k - 1, author, dirs);
        let r = revs[k - 1];
        let c = summarize(r.hash, r.summary, r.lines, dirs);
        assert(prev.push(c).drop_last() =~= prev);
    }
}

/// Adding a prefix to the exclusion set only adds to the paths excluded.
proof fn lemma_excluded_grows(path: Seq<char>, dirs: Seq<Seq<char>>, p: Seq<char>)
    ensures
        path_excluded(path, dirs) ==> path_excluded(path, dirs.push(p)),
{
    if path_excluded(path, dirs) {
        let i = choose|i: int| 0 <= i < dirs.len() && text_has_prefix(path, #[trigger] dirs[i]);
        assert(dirs.push(p)[i] == dirs[i]);
    }
}

/// Adding a prefix to the exclusion set never raises the count of lines of
/// one kind.
proof fn lemma_count_shrinks(lines: Seq<(Seq<char>, LineKind)>, kind: LineKind, dirs: Seq<Seq<char>>, p: Seq<char>)
    ensures
        count_kind(lines, kind, dirs.push(p)) <= count_kind(lines, kind, dirs),
    decreases lines.len(),
{
    if lines.len() > 0 {
        lemma_count_shrinks(lines.drop_last(), kind, dirs, p);
        lemma_excluded_grows(lines.last().0, dirs, p);
    }
}

/// Exclusion is monotone: with one more excluded prefix the same commits
/// count, none of them gets more added or deleted lines or a larger size, and
/// the totals of added and deleted lines do not grow.
pub proof fn lemma_exclusion_monotone(revs: Seq<RevisionView>, author: Seq<char>, dirs: Seq<Seq<char>>, p: Seq<char>)
    ensures
        ({
            let fewer = records_of(revs, author, dirs.push(p));
            let more = records_of(revs, author, dirs);
            &&& fewer.len() == more.len()
            &&& forall|i: int| 0 <= i < fewer.len() ==> {
                &&& (#[trigger] fewer[i]).additions <= more[i].additions
                &&& fewer[i].deletions <= more[i].deletions
                &&& fewer[i].size() <= more[i].size()
            }
            &&& stats_of(fewer).additions <= stats_of(more).additions
            &&& stats_of(fewer).deletions <= stats_of(more).deletions
        }),
{
    lemma_records_shrink(revs, revs.len() - 1, author, dirs, p);
    lemma_stats_pointwise(records_of(revs, author, dirs.push(p)), records_of(revs, author, dirs));
}

proof fn lemma_records_shrink(revs: Seq<RevisionView>, k: int, author: Seq<char>, dirs: Seq<Seq<char>>, p: Seq<char>)
    ensures
        ({
            let fewer = records_upto(revs, k, author, dirs.push(p));
            let more = records_upto(revs, k, author, dirs);
            &&& fewer.len() == more.len()
            &&& forall|i: int| 0 <= i < fewer.len() ==> {
                &&& (#[trigger] fewer[i]).additions <= more[i].additions
                &&& fewer[i].deletions <= more[i].deletions
            }
        }),
    decreases k,
{
    if k > 0 {
        lemma_records_shrink(revs, k - 1, author, dirs, p);
        let r = revs[k - 1];
        lemma_count_shrinks(r.lines, LineKind::Addition, dirs, p);
        lemma_count_shrinks(r.lines, LineKind::Deletion, dirs, p);
    }
}

/// Totals of records that are each no larger are no larger.
proof fn lemma_stats_pointwise(s: Seq<CommitView>, t: Seq<CommitView>)
    requires
        s.len() == t.len(),
        forall|i: int| 0 <= i < s.len() ==> {
            &&& (#[trigger] s[i]).additions <= t[i].additions
            &&& s[i].deletions <= t[i].deletions
        },
    ensures
        stats_of(s).additions <= stats_of(t).additions,
        stats_of(s).deletions <= stats_of(t).deletions,
    decreases s.len(),
{
    if s.len() > 0 {
        let (a, b) = (s.drop_last(), t.drop_last());
        assert forall|i: int| 0 <= i < a.len() implies {
            &&& (#[trigger] a[i]).additions <= b[i].additions
            &&& a[i].deletions <= b[i].deletions
        } by {
            assert(a[i] == s[i] && b[i] == t[i]);
        }
        lemma_stats_pointwise(a, b);
        assert(s.last() == s[s.len() - 1] && t.last() == t[t.len() - 1]);
    }
}

/// Where no commit of the walk has the author's exact name, nothing counts:
/// no commits, no lines, and no largest commit.
pub proof fn lemma_no_author_empty(revs: Seq<RevisionView>, author: Seq<char>, dirs: Seq<Seq<char>>)
    requires
        forall|i: int| 0 <= i < revs.len() ==> !author_is((#[trigger] revs[i]).author, author),
    ensures
        stats_of(records_of(revs, author, dirs)) == empty_stats(),
{
    lemma_records_none(revs, revs.len() - 1, author, dirs);
}

proof fn lemma_records_none(revs: Seq<RevisionView>, k: int, author: Seq<char>, dirs: Seq<Seq<char>>)
    requires
        k <= revs.len(),
        forall|i: int| 0 <= i < revs.len() ==> !author_is((#[trigger] revs[i]).author, author),
    ensures
        records_upto(revs, k, author, dirs) == Seq::<CommitView>::empty(),
    decreases k,
{
    if k > 0 {
        lemma_records_none(revs, k - 1, author, dirs);
        assert(!author_is(revs[k - 1].author, author));
    }
}

/// A walk of a single commit, the root, counts nothing whoever the author is.
pub proof fn lemma_root_alone_empty(revs: Seq<RevisionView>, author: Seq<char>, dirs: Seq<Seq<char>>)
    requires
        revs.len() == 1,
    ensures
        stats_of(records_of(revs, author, dirs)) == empty_stats(),
{
    assert(records_of(revs, author, dirs) =~= Seq::<CommitView>::empty());
}

} // verus!
