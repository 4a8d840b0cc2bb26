//! The aggregate over the records of one author: totals and the largest
//! commit, folded one record at a time.
use vstd::prelude::*;
use crate::record::{Commit, CommitView};

verus! {

/// What the aggregate holds.
pub struct StatsView {
    pub commits: nat,
    pub additions: nat,
    pub deletions: nat,
    pub binary: nat,
    pub top: Option<CommitView>,
}

/// The aggregate before any record is folded in.
pub open spec fn empty_stats() -> StatsView {
    StatsView { commits: 0, additions: 0, deletions: 0, binary: 0, top: None }
}

impl StatsView {
    /// One fold step: counts the record, adds its lines, and makes it the
    /// largest only where it is strictly larger than the largest so far.
    pub open spec fn folded(self, c: CommitView) -> StatsView {
        StatsView {
            commits: self.commits + 1,
            additions: self.additions + c.additions,
            deletions: self.deletions + c.deletions,
            binary: self.binary + c.binary,
            top: match self.top {
                Some(t) => if c.size() > t.size() {
                    Some(c)
                } else {
                    Some(t)
                },
                None => Some(c),
            },
        }
    }
}

/// The aggregate of a sequence of records, folded in order.
pub open spec fn stats_of(s: Seq<CommitView>) -> StatsView
    decreases s.len(),
{
    if s.len() == 0 {
        empty_stats()
    } else {
        stats_of(s.drop_last()).folded(s.last())
    }
}

/// The position of the record that the fold keeps as the largest.
pub open spec fn largest_index(s: Seq<CommitView>) -> int
    decreases s.len(),
{
    if s.len() <= 1 {
        0
    } else {
        let j = largest_index(s.drop_last());
        if s.last().size() > s[j].size() {
            s.len() - 1
        } else {
            j
        }
    }
}

/// Running totals and the largest record seen; the largest is borrowed from
/// the history that was folded.
pub struct Stats<'a> {
    pub commits: u32,
    pub additions: u64,
    pub deletions: u64,
    pub binary: u64,
    pub top: Option<&'a Commit>,
}

impl<'a> View for Stats<'a> {
    type V = StatsView;

    open spec fn view(&self) -> StatsView {
        StatsView {
            commits: self.commits as nat,
            additions: self.additions as nat,
            deletions: self.deletions as nat,
            binary: self.binary as nat,
            top: match self.top {
                Some(c) => Some(c@),
                None => None,
            },
        }
    }
}

impl<'a> Stats<'a> {
    /// The aggregate with nothing folded in.
    pub fn new() -> (r: Stats<'a>)
        ensures
            r@ == empty_stats(),
    {
        Stats { commits: 0, additions: 0, deletions: 0, binary: 0, top: None }
    }

    /// Folds one more record into the aggregate.
    pub fn update(self, commit: &'a Commit) -> (r: Stats<'a>)
        requires
            self.commits < u32::MAX,
            self.additions + commit.additions <= u64::MAX,
            self.deletions + commit.deletions <= u64::MAX,
            self.binary + commit.binary <= u64::MAX,
        ensures
            r@ == self@.folded(commit@),
    {
        let top = match self.top {
            Some(t) => if commit.size() > t.size() {
                Some(commit)
            } else {
                Some(t)
            },
            None => Some(commit),
        };
        Stats {
            commits: self.commits + 1,
            additions: self.additions + commit.additions as u64,
            deletions: self.deletions + commit.deletions as u64,
            binary: self.binary + commit.binary as u64,
            top,
        }
    }
}

/// The records of one author's commits, in the order of the walk.
pub struct History {
    pub commits: Vec<Commit>,
}

impl View for History {
    type V = Seq<CommitView>;

    open spec fn view(&self) -> Seq<CommitView> {
        self.commits@.map_values(|c: Commit| c@)
    }
}

/// No total of a fold over `n` records exceeds `n` times the largest count
/// of one record.
proof fn lemma_totals_bounded(s: Seq<CommitView>)
    requires
        forall|i: int| 0 <= i < s.len() ==> (#[trigger] s[i]).additions <= u32::MAX
            && s[i].deletions <= u32::MAX && s[i].binary <= u32::MAX,
    ensures
        stats_of(s).commits == s.len(),
        stats_of(s).additions <= s.len() * u32::MAX,
        stats_of(s).deletions <= s.len() * u32::MAX,
        stats_of(s).binary <= s.len() * u32::MAX,
    decreases s.len(),
{
    if s.len() > 0 {
        lemma_totals_bounded(s.drop_last());
        assert(s.last() == s[s.len() - 1]);
        assert((s.len() - 1) * u32::MAX + u32::MAX == s.len() * u32::MAX) by (nonlinear_arith);
    }
}

/// Totals are additive: folding two histories one after the other gives the
/// sums of their separate commit counts and line totals.
pub proof fn lemma_totals_additive(a: Seq<CommitView>, b: Seq<CommitView>)
    ensures
        stats_of(a + b).commits == stats_of(a).commits + stats_of(b).commits,
        stats_of(a + b).additions == stats_of(a).additions + stats_of(b).additions,
        stats_of(a + b).deletions == stats_of(a).deletions + stats_of(b).deletions,
        stats_of(a + b).binary == stats_of(a).binary + stats_of(b).binary,
    decreases b.len(),
{
    if b.len() == 0 {
        assert(a + b =~= a);
    } else {
        assert((a + b).drop_last() =~= a + b.drop_last());
        assert((a + b).last() == b.last());
        lemma_totals_additive(a, b.drop_last());
    }
}

/// The largest record is absent exactly when nothing was folded in; otherwise
/// it is the first record whose size is the maximum: every record is at most
/// as large, and every earlier one is strictly smaller.
pub proof fn lemma_largest_is_first_max(s: Seq<CommitView>)
    ensures
        stats_of(s).commits == s.len(),
        stats_of(s).top is None <==> s.len() == 0,
        s.len() > 0 ==> {
            let k = largest_index(s);
            &&& 0 <= k < s.len()
            &&& stats_of(s).top == Some(s[k])
            &&& forall|j: int| 0 <= j < s.len() ==> (#[trigger] s[j]).size() <= s[k].size()
            &&& forall|j: int| 0 <= j < k ==> (#[trigger] s[j]).size() < s[k].size()
        },
    decreases s.len(),
{
    if s.len() > 0 {
        let p = s.drop_last();
        lemma_largest_is_first_max(p);
        if p.len() > 0 {
            let j = largest_index(p);
            assert(p[j] == s[j]);
            assert forall|i: int| 0 <= i < p.len() implies p[i] == s[i] by {}
        }
    }
}

/// Of two records of equal size, the fold keeps the earlier one as the
/// largest, whatever their added and deleted line counts: the later one is
/// never the one retained, and where their size is the maximum the one
/// retained is the earlier one or a record before it.
pub proof fn lemma_tie_keeps_first(s: Seq<CommitView>, i: int, j: int)
    requires
        0 <= i < j < s.len(),
        s[i].size() == s[j].size(),
    ensures
        largest_index(s) != j,
        (forall|k: int| 0 <= k < s.len() ==> (#[trigger] s[k]).size() <= s[i].size())
            ==> largest_index(s) <= i,
{
    lemma_largest_is_first_max(s);
    let m = largest_index(s);
    if m > i {
        assert(s[i].size() < s[m].size());
    }
}

impl History {
    /// An empty history.
    pub fn new() -> (r: History)
        ensures
            r@ == Seq::<CommitView>::empty(),
    {
        History { commits: Vec::new() }
    }

    /// Appends a record after those already held.
    pub fn push(&mut self, c: Commit)
        ensures
            final(self)@ == old(self)@.push(c@),
    {
        self.commits.push(c);
        assert(final(self)@ =~= old(self)@.push(c@));
    }

    /// The aggregate of all the records, folded in order.
    pub fn stats<'a>(&'a self) -> (r: Stats<'a>)
        requires
            self.commits@.len() <= u32::MAX,
        ensures
            r@ == stats_of(self@),
    {
        let ghost all = self@;
        let mut st = Stats::new();
        let mut i: usize = 0;
        while i < self.commits.len()
            invariant
                0 <= i <= self.commits@.len(),
                self.commits@.len() <= u32::MAX,
                all == self@,
                st@ == stats_of(all.take(i as int)),
            decreases self.commits@.len() - i,
        {
            proof {
                assert(all.take(i + 1).drop_last() =~= all.take(i as int));
                assert(all.take(i + 1).last() == self.commits@[i as int]@);
                lemma_totals_bounded(all.take(i as int));
                assert(i * u32::MAX + u32::MAX <= u32::MAX * u32::MAX) by (nonlinear_arith)
                    requires
                        i < u32::MAX,
                ;
            }
            st = st.update(&self.commits[i]);
            i = i + 1;
        }
        assert(all.take(self.commits@.len() as int) =~= all);
        st
    }
}

} // verus!
