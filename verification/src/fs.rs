//! The mount table and the rules that make it a legal hierarchy.

use itertools::Itertools;
use std::cmp::Ordering;
use vstd::prelude::*;

verus! {

/// The mount point of the root filesystem: the one-character path `/`.
pub open spec fn root_path() -> Seq<char> {
    seq!['/']
}

/// How many entries of `mounts` are the root path.
pub open spec fn root_count(mounts: Seq<Seq<char>>) -> nat {
    mounts.to_multiset().count(root_path())
}

/// A list of mount points is a legal hierarchy when exactly one of them is
/// the root and no mount point occurs twice.
pub open spec fn is_valid_hierarchy(mounts: Seq<Seq<char>>) -> bool {
    &&& root_count(mounts) == 1
    &&& mounts.no_duplicates()
}

/// The rule of the hierarchy that a list of mount points breaks.
#[derive(Debug, Clone, Copy, PartialEq, Eq, Structural)]
pub enum Violation {
    /// No filesystem is mounted at the root path.
    NoRoot,
    /// More than one filesystem is mounted at the root path.
    MultipleRoots,
    /// Two filesystems are mounted at one path that is not the root path.
    DuplicateMountPoint,
}

/// The first rule that a list of mount points breaks, if it breaks one: the
/// rule of the single root is judged before that of distinct mount points.
pub open spec fn hierarchy_verdict(mounts: Seq<Seq<char>>) -> Result<(), Violation> {
    if root_count(mounts) == 0 {
        Err(Violation::NoRoot)
    } else if root_count(mounts) > 1 {
        Err(Violation::MultipleRoots)
    } else if !mounts.no_duplicates() {
        Err(Violation::DuplicateMountPoint)
    } else {
        Ok(())
    }
}

/// The mount points of a list of descriptors, in the list's order.
pub open spec fn mount_points(fs: Seq<SupportedFS>) -> Seq<Seq<char>> {
    Seq::new(fs.len(), |i: int| fs[i]@)
}

/// The contents of a list of string slices, in the list's order.
pub open spec fn str_views(items: Seq<&str>) -> Seq<Seq<char>> {
    Seq::new(items.len(), |i: int| items[i]@)
}

/// Lexicographic order on strings by code point: the order of `str`.
pub open spec fn lex_le(a: Seq<char>, b: Seq<char>) -> bool
    decreases a.len(),
{
    if a.len() == 0 {
        true
    } else if b.len() == 0 {
        false
    } else if a[0] != b[0] {
        (a[0] as u32) < (b[0] as u32)
    } else {
        lex_le(a.drop_first(), b.drop_first())
    }
}

/// How two strings compare in that order.
pub open spec fn lex_order(a: Seq<char>, b: Seq<char>) -> Ordering {
    if a == b {
        Ordering::Equal
    } else if lex_le(a, b) {
        Ordering::Less
    } else {
        Ordering::Greater
    }
}

/// Every earlier entry is at most every later one.
pub open spec fn is_ascending(s: Seq<Seq<char>>) -> bool {
    forall|i: int, j: int| 0 <= i < j < s.len() ==> lex_le(#[trigger] s[i], #[trigger] s[j])
}

/// No entry equals the one right after it.
pub open spec fn no_adjacent_equal(s: Seq<Seq<char>>) -> bool {
    forall|i: int| 0 <= i < s.len() - 1 ==> #[trigger] s[i] != s[i + 1]
}

/// `s` with each run of consecutive equal entries collapsed to one entry.
pub open spec fn collapse_runs(s: Seq<Seq<char>>) -> Seq<Seq<char>>
    decreases s.len(),
{
    if s.len() <= 1 {
        s
    } else if s[s.len() - 2] == s.last() {
        collapse_runs(s.drop_last())
    } else {
        collapse_runs(s.drop_last()).push(s.last())
    }
}

/// Contains metadata and handles to one mounted filesystem, known by its
/// mount point.
#[derive(Debug, Eq, Hash, Ord)]
pub struct SupportedFS {
    mount_point: String,
}

impl PartialEq for SupportedFS {
    /// Two descriptors are equal when their mount points are.
    fn eq(&self, other: &Self) -> (equal: bool) {
        self.mount_point == other.mount_point
    }
}

impl vstd::std_specs::cmp::PartialEqSpecImpl for SupportedFS {
    open spec fn obeys_eq_spec() -> bool {
        true
    }

    open spec fn eq_spec(&self, other: &Self) -> bool {
        self@ == other@
    }
}

/// Compares two strings with `str::cmp`.
///
/// Believed of the std call: strings are ordered lexicographically by code
/// point.
#[verifier::external_body]
fn str_order(a: &str, b: &str) -> (order: Ordering)
    ensures
        order == lex_order(a@, b@),
{
    a.cmp(b)
}

impl PartialOrd for SupportedFS {
    /// Descriptors are ordered as their mount points are.
    fn partial_cmp(&self, other: &Self) -> (order: Option<Ordering>) {
        Some(str_order(self.mount_point.as_str(), other.mount_point.as_str()))
    }
}

impl vstd::std_specs::cmp::PartialOrdSpecImpl for SupportedFS {
    open spec fn obeys_partial_cmp_spec() -> bool {
        true
    }

    open spec fn partial_cmp_spec(&self, other: &Self) -> Option<Ordering> {
        Some(lex_order(self@, other@))
    }
}

impl View for SupportedFS {
    type V = Seq<char>;

    closed spec fn view(&self) -> Seq<char> {
        self.mount_point@
    }
}

impl SupportedFS {
    /// A descriptor of the filesystem mounted at `mount_point`.
    pub fn new(mount_point: String) -> (fs: Self)
        ensures
            fs@ == mount_point@,
    {
        SupportedFS { mount_point }
    }

    /// The path at which this filesystem is mounted.
    pub fn mount_point(&self) -> (path: &str)
        ensures
            path@ == self@,
    {
        self.mount_point.as_str()
    }

    /// Whether this descriptor denotes the root filesystem.
    pub fn is_root(&self) -> (root: bool)
        ensures
            root == (self@ == root_path()),
    {
        let path = self.mount_point.as_str();
        let root = path.unicode_len() == 1 && path.get_char(0) == '/';
        proof {
            if root {
                assert(self@ =~= root_path());
            }
        }
        root
    }
}

/// Contains the root filesystem and every other mounted filesystem, in the
/// order in which the caller supplied them.
pub struct VFS {
    fs: Vec<SupportedFS>,
}

impl View for VFS {
    type V = Seq<Seq<char>>;

    /// The mount points of the table, in the caller's order.
    closed spec fn view(&self) -> Seq<Seq<char>> {
        mount_points(self.fs@)
    }
}

/// Sorts string slices with `Itertools::sorted` and collects them with
/// `Itertools::collect_vec`.
///
/// Believed of the outside call: what comes out holds the same strings as
/// what went in, each as often, and in ascending order of `str`, which is
/// lexicographic by code point.
#[verifier::external_body]
fn sorted_strs<'a>(items: Vec<&'a str>) -> (sorted: Vec<&'a str>)
    ensures
        str_views(sorted@).to_multiset() == str_views(items@).to_multiset(),
        is_ascending(str_views(sorted@)),
{
    items.into_iter().sorted().collect_vec()
}

/// Drops consecutive repeats with `Itertools::dedup` and collects what is
/// left with `Itertools::collect_vec`.
///
/// Believed of the outside call: of each run of consecutive equal strings
/// one is kept, and the runs keep their order.
#[verifier::external_body]
fn dedup_strs<'a>(items: Vec<&'a str>) -> (kept: Vec<&'a str>)
    ensures
        str_views(kept@) == collapse_runs(str_views(items@)),
{
    items.into_iter().dedup().collect_vec()
}

/// Appending a mount point raises the number of roots by one if it is the
/// root path, and leaves it as it was otherwise.
pub proof fn lemma_root_count_push(mounts: Seq<Seq<char>>, point: Seq<char>)
    ensures
        root_count(mounts.push(point)) == root_count(mounts) + if point == root_path() {
            1nat
        } else {
            0nat
        },
{
    vstd::seq_lib::to_multiset_build(mounts, point);
    vstd::multiset::lemma_insert_increases_count_by_1(mounts.to_multiset(), point);
    vstd::multiset::lemma_insert_other_elements_unchanged(
        mounts.to_multiset(),
        point,
        root_path(),
    );
}

/// The empty list has no root entry.
pub proof fn lemma_root_count_empty()
    ensures
        root_count(Seq::empty()) == 0,
{
    vstd::seq_lib::to_multiset_len(Seq::<Seq<char>>::empty());
    vstd::multiset::lemma_multiset_empty_len(Seq::<Seq<char>>::empty().to_multiset());
}

/// The order on strings is antisymmetric.
pub proof fn lemma_lex_le_antisymmetric(a: Seq<char>, b: Seq<char>)
    requires
        lex_le(a, b),
        lex_le(b, a),
    ensures
        a == b,
    decreases a.len(),
{
    if a.len() == 0 {
        assert(a =~= b);
    } else {
        assert(a[0] == b[0]);
        lemma_lex_le_antisymmetric(a.drop_first(), b.drop_first());
        assert(a =~= seq![a[0]] + a.drop_first());
        assert(b =~= seq![b[0]] + b.drop_first());
    }
}

/// Collapsing runs never lengthens a list, and keeps its length exactly
/// when no entry equals its successor.
pub proof fn lemma_collapse_runs_len(s: Seq<Seq<char>>)
    ensures
        collapse_runs(s).len() <= s.len(),
        collapse_runs(s).len() == s.len() <==> no_adjacent_equal(s),
    decreases s.len(),
{
    if s.len() > 1 {
        let front = s.drop_last();
        lemma_collapse_runs_len(front);
        let n = s.len() - 1;
        assert(forall|i: int| 0 <= i < n ==> front[i] == s[i]);
        if s[n - 1] == s[n] {
            assert(!no_adjacent_equal(s)) by {
                assert(s[n - 1] == s[(n - 1) + 1]);
            }
        } else if no_adjacent_equal(front) {
            assert forall|i: int| 0 <= i < s.len() - 1 implies #[trigger] s[i] != s[i + 1] by {
                if i < n - 1 {
                    assert(front[i] != front[i + 1]);
                }
            }
        } else {
            let i = choose|i: int| 0 <= i < front.len() - 1 && #[trigger] front[i] == front[i + 1];
            assert(s[i] == s[i + 1]);
        }
    }
}

/// In an ascending list, equal entries stand side by side: the list is free
/// of duplicates exactly when no entry equals its successor.
pub proof fn lemma_ascending_duplicates_adjacent(s: Seq<Seq<char>>)
    requires
        is_ascending(s),
    ensures
        s.no_duplicates() <==> no_adjacent_equal(s),
{
    if no_adjacent_equal(s) {
        assert forall|i: int, j: int|
            0 <= i < s.len() && 0 <= j < s.len() && i != j implies s[i] != s[j] by {
            let lo = if i < j { i } else { j };
            let hi = if i < j { j } else { i };
            if s[lo] == s[hi] {
                assert(s[lo] != s[lo + 1]);
                if lo + 1 < hi {
                    assert(lex_le(s[lo], s[lo + 1]));
                    assert(lex_le(s[lo + 1], s[hi]));
                    lemma_lex_le_antisymmetric(s[lo], s[lo + 1]);
                }
            }
        }
    }
}

/// Whether a list is free of duplicates depends only on how often each
/// entry occurs in it.
pub proof fn lemma_no_duplicates_by_counts(a: Seq<Seq<char>>, b: Seq<Seq<char>>)
    requires
        a.to_multiset() == b.to_multiset(),
        a.no_duplicates(),
    ensures
        b.no_duplicates(),
{
    a.lemma_multiset_has_no_duplicates();
    b.lemma_multiset_has_no_duplicates_conv();
}

/// An entry that stands at two places of a list occurs in it at least twice.
pub proof fn lemma_two_places_count(mounts: Seq<Seq<char>>, i: int, j: int)
    requires
        0 <= i < mounts.len(),
        0 <= j < mounts.len(),
        i != j,
        mounts[i] == mounts[j],
    ensures
        mounts.to_multiset().count(mounts[i]) >= 2,
{
    broadcast use vstd::multiset::group_multiset_axioms;

    let rest = mounts.remove(i);
    let k = if j < i { j } else { j - 1 };
    assert(rest[k] == mounts[j]);
    assert(rest.contains(mounts[i]));
    vstd::seq_lib::to_multiset_contains(rest, mounts[i]);
    vstd::seq_lib::to_multiset_remove(mounts, i);
}

/// A list with no root entry has a root count of zero, and one with a root
/// entry has a root count of at least one.
pub proof fn lemma_root_count_zero(mounts: Seq<Seq<char>>)
    ensures
        root_count(mounts) == 0 <==> !mounts.contains(root_path()),
{
    vstd::seq_lib::to_multiset_contains(mounts, root_path());
}

/// A list with exactly one root entry, whose other mount points differ from
/// one another, is a valid hierarchy.
pub proof fn law_one_root_and_distinct_others_is_valid(mounts: Seq<Seq<char>>)
    requires
        root_count(mounts) == 1,
        forall|i: int, j: int|
            0 <= i < j < mounts.len() && mounts[i] != root_path() && mounts[j] != root_path()
                ==> mounts[i] != mounts[j],
    ensures
        is_valid_hierarchy(mounts),
{
    assert forall|i: int, j: int|
        0 <= i < mounts.len() && 0 <= j < mounts.len() && i != j implies mounts[i]
        != mounts[j] by {
        if mounts[i] == mounts[j] {
            if mounts[i] == root_path() {
                lemma_two_places_count(mounts, i, j);
            } else if i < j {
                assert(mounts[i] != mounts[j]);
            } else {
                assert(mounts[j] != mounts[i]);
            }
        }
    }
}

/// A list with no root entry, or with a root entry at two places, is not a
/// valid hierarchy.
pub proof fn law_root_count_not_one_is_invalid(mounts: Seq<Seq<char>>)
    requires
        !mounts.contains(root_path()) || exists|i: int, j: int|
            0 <= i < j < mounts.len() && mounts[i] == root_path() && mounts[j] == root_path(),
    ensures
        root_count(mounts) != 1,
        !is_valid_hierarchy(mounts),
{
    lemma_root_count_zero(mounts);
    if mounts.contains(root_path()) {
        let (i, j) = choose|i: int, j: int|
            0 <= i < j < mounts.len() && mounts[i] == root_path() && mounts[j] == root_path();
        lemma_two_places_count(mounts, i, j);
    }
}

/// A list in which one mount point stands at two places is not a valid
/// hierarchy, wherever the two places are.
pub proof fn law_duplicate_is_invalid(mounts: Seq<Seq<char>>, i: int, j: int)
    requires
        0 <= i < mounts.len(),
        0 <= j < mounts.len(),
        i != j,
        mounts[i] == mounts[j],
    ensures
        !is_valid_hierarchy(mounts),
{
}

/// Validity does not depend on the order of the list: two lists that hold
/// the same mount points, each as often, are both valid or both invalid.
pub proof fn law_validity_ignores_order(a: Seq<Seq<char>>, b: Seq<Seq<char>>)
    requires
        a.to_multiset() == b.to_multiset(),
    ensures
        is_valid_hierarchy(a) == is_valid_hierarchy(b),
{
    if a.no_duplicates() {
        lemma_no_duplicates_by_counts(a, b);
    }
    if b.no_duplicates() {
        lemma_no_duplicates_by_counts(b, a);
    }
}

impl VFS {
    /// A table of the given filesystems, in the given order. The table is not
    /// checked here: see [`VFS::check_valid`].
    pub fn new(fs: Vec<SupportedFS>) -> (vfs: Self)
        ensures
            vfs@ == mount_points(fs@),
    {
        Self { fs }
    }

    /// How many filesystems the table holds.
    pub fn len(&self) -> (n: usize)
        ensures
            n == self@.len(),
    {
        self.fs.len()
    }

    /// How many entries of the table are mounted at the root path.
    fn count_roots(&self) -> (roots: usize)
        ensures
            roots == root_count(self@),
    {
        let n = self.fs.len();
        let mut roots: usize = 0;
        let mut i: usize = 0;
        proof {
            lemma_root_count_empty();
            assert(self@.take(0) =~= Seq::empty());
        }
        while i < n
            invariant
                n == self.fs@.len(),
                i <= n,
                roots <= i,
                roots == root_count(self@.take(i as int)),
            decreases n - i,
        {
            proof {
                lemma_root_count_push(self@.take(i as int), self@[i as int]);
                assert(self@.take(i + 1) =~= self@.take(i as int).push(self@[i as int]));
            }
            if self.fs[i].is_root() {
                roots += 1;
            }
            i += 1;
        }
        proof {
            assert(self@.take(n as int) =~= self@);
        }
        roots
    }

    /// The mount points of the table as string slices, in the table's order.
    fn mount_point_strs(&self) -> (points: Vec<&str>)
        ensures
            str_views(points@) == self@,
    {
        let n = self.fs.len();
        let mut points: Vec<&str> = Vec::new();
        let mut i: usize = 0;
        while i < n
            invariant
                n == self.fs@.len(),
                i <= n,
                points@.len() == i,
                forall|k: int| 0 <= k < i ==> (#[trigger] points@[k])@ == self.fs@[k]@,
            decreases n - i,
        {
            points.push(self.fs[i].mount_point());
            i += 1;
        }
        proof {
            assert(str_views(points@) =~= self@);
        }
        points
    }

    /// Checks the rules of the hierarchy and names the first one that the
    /// table breaks. The table itself is left as it is.
    pub fn validate(&self) -> (verdict: Result<(), Violation>)
        ensures
            verdict == hierarchy_verdict(self@),
            verdict is Ok <==> is_valid_hierarchy(self@),
    {
        // there must be exactly 1 root
        let roots = self.count_roots();
        if roots == 0 {
            return Err(Violation::NoRoot);
        }
        if roots > 1 {
            return Err(Violation::MultipleRoots);
        }
        // there must be no mount points that are the same: sort and compare
        let points = self.mount_point_strs();
        let sorted = sorted_strs(points);
        let kept = dedup_strs(sorted);
        proof {
            let s = str_views(sorted@);
            lemma_collapse_runs_len(s);
            lemma_ascending_duplicates_adjacent(s);
            if s.no_duplicates() {
                lemma_no_duplicates_by_counts(s, self@);
            }
            if self@.no_duplicates() {
                lemma_no_duplicates_by_counts(self@, s);
            }
            vstd::seq_lib::to_multiset_len(s);
            vstd::seq_lib::to_multiset_len(self@);
        }
        if kept.len() != self.fs.len() {
            return Err(Violation::DuplicateMountPoint);
        }
        Ok(())
    }

    /// If there is exactly one root and no mount point occurs twice, the
    /// hierarchy is valid. The verdict depends on the mount points alone, and
    /// the table is left as it is: checking again gives the same verdict.
    pub fn check_valid(&self) -> (valid: bool)
        ensures
            valid == is_valid_hierarchy(self@),
    {
        match self.validate() {
            Ok(_) => true,
            Err(_) => false,
        }
    }
}

/// `contents` after `data` was written over it from place `offset` on: what
/// stood before `offset` stays, then comes `data`, then what stood behind
/// the written range, if anything did.
pub open spec fn overwritten(contents: Seq<u8>, offset: int, data: Seq<u8>) -> Seq<u8> {
    let end = offset + data.len();
    if end < contents.len() {
        contents.subrange(0, offset) + data + contents.subrange(end, contents.len() as int)
    } else {
        contents.subrange(0, offset) + data
    }
}

/// What an exact transfer of `requested` bytes makes of the outcome of one
/// plain transfer: success only where all of them went through; a short
/// transfer is a failure, and a failure stays the failure it was.
pub open spec fn spec_exact_transfer(
    requested: usize,
    outcome: Result<usize, &'static str>,
) -> Result<(), &'static str> {
    match outcome {
        Ok(moved) => if moved == requested {
            Ok(())
        } else {
            Err(SHORT_TRANSFER)
        },
        Err(error) => Err(error),
    }
}

/// The error of an exact transfer that moved fewer bytes than were asked
/// for.
pub const SHORT_TRANSFER: &'static str = "short transfer";

/// Decides whether one plain transfer satisfied an exact one.
pub fn exact_transfer(requested: usize, outcome: Result<usize, &'static str>) -> (exact: Result<
    (),
    &'static str,
>)
    ensures
        exact == spec_exact_transfer(requested, outcome),
        exact is Ok <==> outcome == Ok::<usize, &'static str>(requested),
{
    match outcome {
        Ok(moved) => if moved == requested {
            Ok(())
        } else {
            Err(SHORT_TRANSFER)
        },
        Err(error) => Err(error),
    }
}

/// What a file of a mounted filesystem offers when it is opened for
/// reading.
pub trait Readable {
    /// The bytes that the file holds.
    spec fn contents(&self) -> Seq<u8>;

    /// Read entire file to string. The contents are taken to be text in
    /// UTF-8.
    fn read_all(&self) -> (text: String)
        requires
            vstd::utf8::valid_utf8(self.contents()),
        ensures
            text@ == vstd::utf8::decode_utf8(self.contents()),
    ;

    /// Fills `buf` from its start with the bytes that the file holds from
    /// `offset` on, and returns how many bytes were read. An offset behind
    /// the end of the file is an error.
    fn read_at(&self, buf: &mut [u8], offset: u64) -> (read: Result<usize, &'static str>)
        ensures
            final(buf)@.len() == old(buf)@.len(),
            offset > self.contents().len() ==> read is Err,
            read is Ok ==> {
                let n = read->Ok_0;
                &&& n <= old(buf)@.len()
                &&& offset + n <= self.contents().len()
                &&& final(buf)@.subrange(0, n as int) == self.contents().subrange(
                    offset as int,
                    offset + n,
                )
            },
    ;

    /// Like `read_at`, but fills `buf` completely or fails: a short read is
    /// an error.
    fn read_exact_at(&self, buf: &mut [u8], offset: u64) -> (read: Result<(), &'static str>)
        ensures
            final(buf)@.len() == old(buf)@.len(),
            offset + old(buf)@.len() > self.contents().len() ==> read is Err,
            read is Ok ==> final(buf)@ == self.contents().subrange(
                offset as int,
                offset + old(buf)@.len(),
            ),
    {
        let requested = buf.len();
        let outcome = self.read_at(buf, offset);
        proof {
            if outcome == Ok::<usize, &'static str>(requested) {
                assert(final(buf)@ =~= final(buf)@.subrange(0, requested as int));
            }
        }
        exact_transfer(requested, outcome)
    }
}

/// What a file of a mounted filesystem offers when it is opened for
/// writing.
pub trait Writable {
    /// The bytes that the file holds.
    spec fn contents(&self) -> Seq<u8>;

    /// Rewrite file with new contents.
    fn rewrite(&mut self, buf: &[u8])
        ensures
            final(self).contents() == buf@,
    ;

    /// Writes `buf` from its start over the file from `offset` on, and
    /// returns how many bytes were written. An offset behind the end of the
    /// file is an error.
    fn write_at(&mut self, buf: &[u8], offset: u64) -> (written: Result<usize, &'static str>)
        ensures
            offset > old(self).contents().len() ==> written is Err,
            written is Ok ==> {
                let n = written->Ok_0;
                &&& n <= buf@.len()
                &&& final(self).contents() == overwritten(
                    old(self).contents(),
                    offset as int,
                    buf@.subrange(0, n as int),
                )
            },
    ;

    /// Like `write_at`, but writes all of `buf` or fails: a short write is
    /// an error.
    fn write_all_at(&mut self, buf: &[u8], offset: u64) -> (written: Result<(), &'static str>)
        ensures
            offset > old(self).contents().len() ==> written is Err,
            written is Ok ==> final(self).contents() == overwritten(
                old(self).contents(),
                offset as int,
                buf@,
            ),
    {
        let outcome = self.write_at(buf, offset);
        proof {
            assert(buf@ =~= buf@.subrange(0, buf@.len() as int));
        }
        exact_transfer(buf.len(), outcome)
    }
}

/// A file of the kernel's own filesystem.
pub struct NeutronFile {}

} // verus!
