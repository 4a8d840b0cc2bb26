//! Per-commit records: line classification, the path exclusion filter and
//! the summary of one commit's diff.
use vstd::prelude::*;
use vstd::utf8::{encode_utf8, encode_utf8_decode_utf8};

verus! {

/// What a changed line of a diff is.
#[derive(Clone, Copy, Debug, PartialEq, Eq, Structural)]
pub enum LineKind {
    Addition,
    Deletion,
    Binary,
    Other,
}

/// The kind of a line whose origin marker is `origin`: `+` for an added
/// line, `-` for a deleted one, `B` for a binary file.
pub open spec fn kind_of_origin(origin: char) -> LineKind {
    if origin == '+' {
        LineKind::Addition
    } else if origin == '-' {
        LineKind::Deletion
    } else if origin == 'B' {
        LineKind::Binary
    } else {
        LineKind::Other
    }
}

impl LineKind {
    /// Classifies a diff line by its origin marker.
    pub fn from_origin(origin: char) -> (r: LineKind)
        ensures
            r == kind_of_origin(origin),
    {
        if origin == '+' {
            LineKind::Addition
        } else if origin == '-' {
            LineKind::Deletion
        } else if origin == 'B' {
            LineKind::Binary
        } else {
            LineKind::Other
        }
    }
}

/// One changed line of a diff: the path of the file it belongs to, and its kind.
pub struct DiffLine {
    pub path: String,
    pub kind: LineKind,
}

impl View for DiffLine {
    type V = (Seq<char>, LineKind);

    open spec fn view(&self) -> (Seq<char>, LineKind) {
        (self.path@, self.kind)
    }
}

/// The text of each excluded prefix.
pub open spec fn dirs_view(dirs: Seq<&str>) -> Seq<Seq<char>> {
    Seq::new(dirs.len(), |i: int| dirs[i]@)
}

/// `p` is a prefix of `s`, compared on their UTF-8 encodings.
pub open spec fn text_has_prefix(s: Seq<char>, p: Seq<char>) -> bool {
    encode_utf8(p).is_prefix_of(encode_utf8(s))
}

/// A path is excluded when it starts with one of the prefixes, as text: the
/// prefix `docs` excludes `docs2/x` as well as `docs/x`.
pub open spec fn path_excluded(path: Seq<char>, dirs: Seq<Seq<char>>) -> bool {
    exists|i: int| 0 <= i < dirs.len() && text_has_prefix(path, #[trigger] dirs[i])
}

/// A line is counted under `kind` when it has that kind and its path is not
/// excluded.
pub open spec fn line_counts(line: (Seq<char>, LineKind), kind: LineKind, dirs: Seq<Seq<char>>) -> bool {
    line.1 == kind && !path_excluded(line.0, dirs)
}

/// The number of lines counted under `kind`.
pub open spec fn count_kind(lines: Seq<(Seq<char>, LineKind)>, kind: LineKind, dirs: Seq<Seq<char>>) -> nat
    decreases lines.len(),
{
    if lines.len() == 0 {
        0
    } else {
        count_kind(lines.drop_last(), kind, dirs) + if line_counts(lines.last(), kind, dirs) {
            1nat
        } else {
            0nat
        }
    }
}

/// The text of an optional string.
pub open spec fn text_view(s: Option<String>) -> Option<Seq<char>> {
    match s {
        Some(t) => Some(t@),
        None => None,
    }
}

/// The summary text that stands in for a missing one.
pub open spec fn placeholder_summary() -> Seq<char> {
    "<unknown summary>"@
}

/// A commit's summary, or the placeholder where it has none.
pub open spec fn summary_or_placeholder(summary: Option<Seq<char>>) -> Seq<char> {
    match summary {
        Some(s) => s,
        None => placeholder_summary(),
    }
}

/// What a commit record holds.
pub struct CommitView {
    pub hash: Seq<char>,
    pub summary: Seq<char>,
    pub additions: nat,
    pub deletions: nat,
    pub binary: nat,
}

impl CommitView {
    /// The size of a commit: the larger of its added and deleted line counts.
    pub open spec fn size(self) -> nat {
        if self.additions >= self.deletions {
            self.additions
        } else {
            self.deletions
        }
    }

    /// The record after one more line of kind `kind` at `path`.
    pub open spec fn with_line(self, path: Seq<char>, kind: LineKind, dirs: Seq<Seq<char>>) -> CommitView {
        if path_excluded(path, dirs) {
            self
        } else {
            match kind {
                LineKind::Addition => CommitView { additions: self.additions + 1, ..self },
                LineKind::Deletion => CommitView { deletions: self.deletions + 1, ..self },
                LineKind::Binary => CommitView { binary: self.binary + 1, ..self },
                LineKind::Other => self,
            }
        }
    }
}

/// The record of a commit with the given hash and summary whose diff against
/// its predecessor is `lines`.
pub open spec fn summarize(
    hash: Seq<char>,
    summary: Option<Seq<char>>,
    lines: Seq<(Seq<char>, LineKind)>,
    dirs: Seq<Seq<char>>,
) -> CommitView {
    CommitView {
        hash,
        summary: summary_or_placeholder(summary),
        additions: count_kind(lines, LineKind::Addition, dirs),
        deletions: count_kind(lines, LineKind::Deletion, dirs),
        binary: count_kind(lines, LineKind::Binary, dirs),
    }
}

/// The record of one commit: its hash, summary, and the lines that its diff
/// adds, deletes, and the binary changes, outside the excluded paths.
pub struct Commit {
    pub hash: String,
    pub summary: String,
    pub additions: u32,
    pub deletions: u32,
    pub binary: u32,
}

impl View for Commit {
    type V = CommitView;

    open spec fn view(&self) -> CommitView {
        CommitView {
            hash: self.hash@,
            summary: self.summary@,
            additions: self.additions as nat,
            deletions: self.deletions as nat,
            binary: self.binary as nat,
        }
    }
}

/// Compares two strings through their bytes.
pub fn same_text(a: &str, b: &str) -> (r: bool)
    ensures
        r == (a@ == b@),
{
    let x = a.as_bytes();
    let y = b.as_bytes();
    let ghost ea = encode_utf8(a@);
    let ghost eb = encode_utf8(b@);
    if x.len() != y.len() {
        return false;
    }
    let mut i: usize = 0;
    while i < x.len()
        invariant
            ea == encode_utf8(a@),
            eb == encode_utf8(b@),
            x@ == ea,
            y@ == eb,
            x@.len() == y@.len(),
            0 <= i <= x@.len(),
            forall|j: int| 0 <= j < i ==> x@[j] == y@[j],
        decreases x@.len() - i,
    {
        if x[i] != y[i] {
            assert(ea != eb);
            return false;
        }
        i = i + 1;
    }
    proof {
        assert(ea =~= eb);
        encode_utf8_decode_utf8(a@);
        encode_utf8_decode_utf8(b@);
    }
    true
}

/// Whether `s` starts with `p`, as text.
pub fn has_prefix(s: &str, p: &str) -> (r: bool)
    ensures
        r == text_has_prefix(s@, p@),
{
    let x = s.as_bytes();
    let y = p.as_bytes();
    if y.len() > x.len() {
        return false;
    }
    let mut i: usize = 0;
    while i < y.len()
        invariant
            x@ == encode_utf8(s@),
            y@ == encode_utf8(p@),
            y@.len() <= x@.len(),
            0 <= i <= y@.len(),
            forall|j: int| 0 <= j < i ==> x@[j] == y@[j],
        decreases y@.len() - i,
    {
        if x[i] != y[i] {
            return false;
        }
        i = i + 1;
    }
    assert(y@ =~= x@.subrange(0, y@.len() as int));
    true
}

/// Whether `path` lies under one of the excluded prefixes.
pub fn is_excluded(path: &str, excluded: &Vec<&str>) -> (r: bool)
    ensures
        r == path_excluded(path@, dirs_view(excluded@)),
{
    let ghost dirs = dirs_view(excluded@);
    let mut i: usize = 0;
    while i < excluded.len()
        invariant
            0 <= i <= excluded@.len(),
            dirs == dirs_view(excluded@),
            forall|j: int| 0 <= j < i ==> !text_has_prefix(path@, #[trigger] dirs[j]),
        decreases excluded@.len() - i,
    {
        if has_prefix(path, excluded[i]) {
            assert(text_has_prefix(path@, dirs[i as int]));
            return true;
        }
        i = i + 1;
    }
    false
}

impl Commit {
    /// A record with the given hash and summary and no lines counted yet.
    pub fn new(hash: String, summary: String) -> (r: Commit)
        ensures
            r@ == (CommitView { hash: hash@, summary: summary@, additions: 0, deletions: 0, binary: 0 }),
    {
        Commit { hash, summary, additions: 0, deletions: 0, binary: 0 }
    }

    /// A record for a commit whose summary may be missing: the placeholder
    /// `<unknown summary>` stands in for it.
    pub fn from_metadata(hash: String, summary: Option<String>) -> (r: Commit)
        ensures
            r@ == (CommitView {
                hash: hash@,
                summary: summary_or_placeholder(text_view(summary)),
                additions: 0,
                deletions: 0,
                binary: 0,
            }),
    {
        let text = match summary {
            Some(s) => s,
            None => "<unknown summary>".to_owned(),
        };
        Commit::new(hash, text)
    }

    /// The larger of the added and deleted line counts.
    pub fn size(&self) -> (r: u32)
        ensures
            r == self@.size(),
    {
        if self.additions >= self.deletions {
            self.additions
        } else {
            self.deletions
        }
    }

    /// Counts one changed line of the commit's diff: an addition, a deletion
    /// or a binary change, unless its path is excluded.
    pub fn count_line(&mut self, path: &str, kind: LineKind, excluded: &Vec<&str>)
        requires
            old(self).additions < u32::MAX,
            old(self).deletions < u32::MAX,
            old(self).binary < u32::MAX,
        ensures
            final(self)@ == old(self)@.with_line(path@, kind, dirs_view(excluded@)),
    {
        if is_excluded(path, excluded) {
            return;
        }
        match kind {
            LineKind::Addition => self.additions = self.additions + 1,
            LineKind::Deletion => self.deletions = self.deletions + 1,
            LineKind::Binary => self.binary = self.binary + 1,
            LineKind::Other => {},
        }
    }

    /// The record of a commit from its hash, its summary if it has one, and
    /// the lines of its diff against its predecessor.
    pub fn summarize(hash: String, summary: Option<String>, lines: &Vec<DiffLine>, excluded: &Vec<&str>) -> (r: Commit)
        requires
            lines@.len() < u32::MAX,
        ensures
            r@ == summarize(
                hash@,
                text_view(summary),
                lines@.map_values(|l: DiffLine| l@),
                dirs_view(excluded@),
            ),
    {
        let ghost dirs = dirs_view(excluded@);
        let ghost all = lines@.map_values(|l: DiffLine| l@);
        let ghost start = (CommitView {
            hash: hash@,
            summary: summary_or_placeholder(text_view(summary)),
            additions: 0,
            deletions: 0,
            binary: 0,
        });
        let mut c = Commit::from_metadata(hash, summary);
        let mut i: usize = 0;
        while i < lines.len()
            invariant
                0 <= i <= lines@.len(),
                lines@.len() < u32::MAX,
                dirs == dirs_view(excluded@),
                all == lines@.map_values(|l: DiffLine| l@),
                c@.hash == start.hash,
                c@.summary == start.summary,
                c.additions <= i,
                c.deletions <= i,
                c.binary <= i,
                c@.additions == count_kind(all.take(i as int), LineKind::Addition, dirs),
                c@.deletions == count_kind(all.take(i as int), LineKind::Deletion, dirs),
                c@.binary == count_kind(all.take(i as int), LineKind::Binary, dirs),
            decreases lines@.len() - i,
        {
            proof {
                assert(all.take(i + 1).drop_last() =~= all.take(i as int));
                assert(all.take(i + 1).last() == all[i as int]);
            }
            c.count_line(lines[i].path.as_str(), lines[i].kind, excluded);
            i = i + 1;
        }
        assert(all.take(lines@.len() as int) =~= all);
        c
    }
}

} // verus!
