//! What bx remembers of the files it wrote.

use crate::digest::{sha256, sha256_of};
use crate::fs::{Mode, Observed};
use crate::order::{is_text_before, lemma_text_order, text_before};
use crate::paths::{components, depth};
use crate::text::{same_bytes, same_text};
use vstd::prelude::*;

verus! {

/// A path as a config repo and the ledger spell it: `~`, `~/` and the rest, or
/// an absolute path outside the home.
#[derive(Debug, PartialEq, Eq)]
pub struct Portable {
    pub text: String,
}

impl View for Portable {
    type V = Seq<char>;

    open spec fn view(&self) -> Seq<char> {
        self.text@
    }
}

impl Clone for Portable {
    fn clone(&self) -> (r: Portable)
        ensures
            r == *self,
    {
        Portable { text: self.text.clone() }
    }
}

/// The SHA-256 of some content.
#[derive(Clone, Debug, PartialEq, Eq)]
pub struct ContentHash {
    pub bytes: Vec<u8>,
}

impl View for ContentHash {
    type V = Seq<u8>;

    open spec fn view(&self) -> Seq<u8> {
        self.bytes@
    }
}

impl ContentHash {
    /// The digest of some content.
    pub fn of(content: &[u8]) -> (r: ContentHash)
        ensures
            r@ == sha256_of(content@),
    {
        ContentHash { bytes: sha256(content) }
    }

    /// Whether two digests are the same.
    pub fn same(&self, other: &ContentHash) -> (r: bool)
        ensures
            r == (self@ == other@),
    {
        same_bytes(self.bytes.as_slice(), other.bytes.as_slice())
    }

    /// The digest again.
    pub fn copy(&self) -> (r: ContentHash)
        ensures
            r@ == self@,
    {
        ContentHash { bytes: vstd::slice::slice_to_vec(self.bytes.as_slice()) }
    }
}

/// A copy of what a write displaced, kept under its digest.
#[derive(Clone, Debug, PartialEq, Eq)]
pub struct RestoreRef {
    pub digest: ContentHash,
    pub mode: Mode,
    pub len: u64,
}

/// What a destination held before a write.
#[derive(Clone, Debug, PartialEq, Eq)]
pub enum Prior {
    /// Nothing: there was no file.
    Absent,
    /// These bytes, which are kept.
    Existed(RestoreRef),
}

/// How bx is attached to a target.
#[derive(Debug, PartialEq, Eq)]
pub enum Mechanism {
    /// bx owns the whole file.
    Own,
    /// bx owns a delimited region of it.
    Region { comment: char },
    /// bx owns one line of it.
    Include { line: String },
    /// bx owns a directory's mode.
    Dir,
    /// bx owns a checkout.
    Clone,
}

impl Clone for Mechanism {
    fn clone(&self) -> (r: Mechanism)
        ensures
            r == *self,
    {
        match self {
            Mechanism::Own => Mechanism::Own,
            Mechanism::Region { comment } => Mechanism::Region { comment: *comment },
            Mechanism::Include { line } => Mechanism::Include { line: line.clone() },
            Mechanism::Dir => Mechanism::Dir,
            Mechanism::Clone => Mechanism::Clone,
        }
    }
}

/// What the ledger holds of one target.
#[derive(Clone, Debug, PartialEq, Eq)]
pub struct LedgerEntry {
    /// The target.
    pub path: Portable,
    /// The digest of what bx last wrote there.
    pub written: ContentHash,
    /// The mode bx last left it at.
    pub mode: Mode,
    /// How bx is attached to it.
    pub mechanism: Mechanism,
    /// What was there before bx first wrote it, which is what handing it back
    /// restores.
    pub prior: Prior,
    /// The directories bx created for it.
    pub created_dirs: Vec<Portable>,
}

/// Whether two say the same of what was there.
pub open spec fn same_prior(a: Prior, b: Prior) -> bool {
    match (a, b) {
        (Prior::Absent, Prior::Absent) => true,
        (Prior::Existed(a), Prior::Existed(b)) => a.digest@ == b.digest@ && a.mode == b.mode
            && a.len == b.len,
        _ => false,
    }
}

impl Prior {
    /// What was there, again.
    pub fn copy(&self) -> (r: Prior)
        ensures
            same_prior(r, *self),
    {
        match self {
            Prior::Absent => Prior::Absent,
            Prior::Existed(reference) => Prior::Existed(
                RestoreRef {
                    digest: reference.digest.copy(),
                    mode: reference.mode,
                    len: reference.len,
                },
            ),
        }
    }
}

/// The digest of the bytes an observation holds.
pub open spec fn digest_of(observed: Observed) -> Option<Seq<u8>> {
    match observed.bytes {
        Some(bytes) => Some(sha256_of(bytes@)),
        None => None,
    }
}

/// Whether an observation holds exactly the bytes an entry records.
pub open spec fn as_written(observed: Observed, entry: LedgerEntry) -> bool {
    digest_of(observed) == Some(entry.written@)
}

/// Whether an observation holds exactly the bytes an entry records.
pub fn is_as_written(observed: &Observed, entry: &LedgerEntry) -> (r: bool)
    ensures
        r == as_written(*observed, *entry),
{
    match &observed.bytes {
        Some(bytes) => ContentHash::of(bytes.as_slice()).same(&entry.written),
        None => false,
    }
}

/// Some portable paths as texts.
pub open spec fn texts(paths: Seq<Portable>) -> Seq<Seq<char>> {
    Seq::new(paths.len(), |i: int| paths[i]@)
}

/// Where a path goes in a list that is deepest first: before the first that is
/// shallower.
pub open spec fn place_of(paths: Seq<Seq<char>>, path: Seq<char>) -> int
    decreases paths.len(),
{
    if paths.len() == 0 || components(paths[0]).len() < components(path).len() {
        0
    } else {
        1 + place_of(paths.drop_first(), path)
    }
}

/// A list of paths, deepest first, with one more of them.
pub open spec fn with_path(paths: Seq<Seq<char>>, path: Seq<char>) -> Seq<Seq<char>> {
    paths.insert(place_of(paths, path), path)
}

/// One list of paths, deepest first, with those of another that it lacks.
pub open spec fn merged(a: Seq<Seq<char>>, b: Seq<Seq<char>>) -> Seq<Seq<char>>
    decreases b.len(),
{
    if b.len() == 0 {
        a
    } else if a.contains(b[0]) {
        merged(a, b.drop_first())
    } else {
        merged(with_path(a, b[0]), b.drop_first())
    }
}

/// A path has a place in a list.
pub proof fn lemma_place(paths: Seq<Seq<char>>, path: Seq<char>)
    ensures
        0 <= place_of(paths, path) <= paths.len(),
    decreases paths.len(),
{
    if paths.len() > 0 {
        lemma_place(paths.drop_first(), path);
    }
}

fn find_place(paths: &Vec<Portable>, path: &str) -> (r: usize)
    ensures
        r == place_of(texts(paths@), path@),
{
    let deep = depth(path);
    let mut i: usize = 0;
    assert(texts(paths@).subrange(0, paths@.len() as int) =~= texts(paths@));
    while i < paths.len()
        invariant
            i <= paths.len(),
            deep == components(path@).len(),
            place_of(texts(paths@), path@) == i + place_of(
                texts(paths@).subrange(i as int, paths@.len() as int),
                path@,
            ),
        decreases paths.len() - i,
    {
        let ghost rest = texts(paths@).subrange(i as int, paths@.len() as int);
        assert(rest[0] == paths@[i as int]@);
        assert(rest.drop_first() =~= texts(paths@).subrange(i + 1, paths@.len() as int));
        if depth(paths[i].text.as_str()) < deep {
            return i;
        }
        i = i + 1;
    }
    i
}

/// Whether `paths` holds `path`.
pub fn holds_path(paths: &Vec<Portable>, path: &str) -> (r: bool)
    ensures
        r == texts(paths@).contains(path@),
{
    let mut i: usize = 0;
    while i < paths.len()
        invariant
            i <= paths.len(),
            forall|j: int| 0 <= j < i ==> texts(paths@)[j] != path@,
        decreases paths.len() - i,
    {
        if same_text(paths[i].text.as_str(), path) {
            assert(texts(paths@)[i as int] == path@);
            return true;
        }
        i = i + 1;
    }
    false
}

/// Adds to `paths` those of `more` that it lacks, each where it goes deepest
/// first: the order a reversal removes them in.
pub fn merge(paths: &mut Vec<Portable>, more: Vec<Portable>)
    ensures
        texts(final(paths)@) == merged(texts(old(paths)@), texts(more@)),
{
    let mut i: usize = 0;
    assert(texts(more@).subrange(0, more@.len() as int) =~= texts(more@));
    while i < more.len()
        invariant
            i <= more.len(),
            merged(
                texts(paths@),
                texts(more@).subrange(i as int, more@.len() as int),
            ) == merged(texts(old(paths)@), texts(more@)),
        decreases more.len() - i,
    {
        let ghost rest = texts(more@).subrange(i as int, more@.len() as int);
        let ghost before = paths@;
        assert(rest[0] == more@[i as int]@);
        assert(rest.drop_first() =~= texts(more@).subrange(i + 1, more@.len() as int));
        if !holds_path(paths, more[i].text.as_str()) {
            let at = find_place(paths, more[i].text.as_str());
            proof {
                lemma_place(texts(before), more@[i as int]@);
            }
            paths.insert(at, more[i].clone());
            assert(texts(paths@) =~= with_path(texts(before), more@[i as int]@));
        }
        i = i + 1;
    }
}

/// Whether the ledger's entry at `i` is the one for `target`.
pub open spec fn is_entry(entries: Seq<LedgerEntry>, target: Seq<char>, i: int) -> bool {
    0 <= i < entries.len() && entries[i].path@ == target
}

/// Where the ledger holds a target, if it does.
pub open spec fn position(entries: Seq<LedgerEntry>, target: Seq<char>) -> Option<int> {
    if exists|i: int| is_entry(entries, target, i) {
        Some(choose|i: int| is_entry(entries, target, i))
    } else {
        None
    }
}

/// Every target bx owns, in the order of their spellings, each once.
#[derive(Clone, Debug, PartialEq, Eq)]
pub struct Ledger {
    pub entries: Vec<LedgerEntry>,
}

impl Ledger {
    /// Whether the entries are in order, each target once.
    pub open spec fn wf(self) -> bool {
        forall|i: int, j: int|
            0 <= i < j < self.entries@.len() ==> text_before(
                (#[trigger] self.entries@[i]).path@,
                (#[trigger] self.entries@[j]).path@,
            )
    }

    /// A ledger of nothing.
    pub fn new() -> (r: Ledger)
        ensures
            r.entries@.len() == 0,
            r.wf(),
    {
        Ledger { entries: Vec::new() }
    }

    /// A target is held in one place.
    pub proof fn lemma_position(self, target: Seq<char>, i: int)
        requires
            self.wf(),
            is_entry(self.entries@, target, i),
        ensures
            position(self.entries@, target) == Some(i),
    {
        let k = choose|k: int| is_entry(self.entries@, target, k);
        assert(is_entry(self.entries@, target, k));
        lemma_text_order(target, target, target);
        if k < i {
            assert(text_before(self.entries@[k].path@, self.entries@[i].path@));
        }
        if i < k {
            assert(text_before(self.entries@[i].path@, self.entries@[k].path@));
        }
    }

    /// Where the ledger holds a target, if it does.
    pub fn find(&self, target: &str) -> (r: Option<usize>)
        requires
            self.wf(),
        ensures
            match r {
                Some(i) => i < self.entries@.len() && self.entries@[i as int].path@ == target@
                    && position(self.entries@, target@) == Some(i as int),
                None => position(self.entries@, target@) is None,
            },
    {
        let mut i: usize = 0;
        while i < self.entries.len()
            invariant
                i <= self.entries.len(),
                self.wf(),
                forall|j: int| 0 <= j < i ==> !is_entry(self.entries@, target@, j),
            decreases self.entries.len() - i,
        {
            if same_text(self.entries[i].path.text.as_str(), target) {
                proof {
                    self.lemma_position(target@, i as int);
                }
                return Some(i);
            }
            i = i + 1;
        }
        None
    }

    /// Drop a target, handing out what was held of it.
    pub fn forget(&mut self, target: &str) -> (r: Option<LedgerEntry>)
        requires
            old(self).wf(),
        ensures
            final(self).wf(),
            match position(old(self).entries@, target@) {
                Some(i) => 0 <= i < old(self).entries@.len() && r == Some(
                    old(self).entries@[i],
                ) && final(self).entries@ == old(self).entries@.remove(i),
                None => r is None && final(self).entries@ == old(self).entries@,
            },
            position(final(self).entries@, target@) is None,
    {
        match self.find(target) {
            Some(i) => {
                let ghost before = self.entries@;
                let out = self.entries.remove(i);
                proof {
                    lemma_text_order(target@, target@, target@);
                    assert forall|k: int| !is_entry(self.entries@, target@, k) by {
                        if is_entry(self.entries@, target@, k) {
                            if k < i {
                                assert(self.entries@[k] == before[k]);
                                assert(text_before(before[k].path@, before[i as int].path@));
                            } else {
                                assert(self.entries@[k] == before[k + 1]);
                                assert(text_before(before[i as int].path@, before[k + 1].path@));
                            }
                        }
                    }
                }
                Some(out)
            },
            None => None,
        }
    }

    /// Hold `entry`: in the place of the target's earlier one, whose claims and
    /// whose prior it keeps, or as a new one. What a second write displaces is
    /// bx's own, so the first prior is the one the user had.
    pub fn record(&mut self, entry: LedgerEntry)
        requires
            old(self).wf(),
        ensures
            final(self).wf(),
            recorded(old(self).entries@, entry, final(self).entries@),
    {
        match self.find(entry.path.text.as_str()) {
            Some(i) => {
                let ghost before = self.entries@;
                let LedgerEntry { path, written, mode, mechanism, created_dirs, .. } = entry;
                let held = self.entries.remove(i);
                let mut dirs = held.created_dirs;
                merge(&mut dirs, created_dirs);
                let kept = LedgerEntry {
                    path,
                    written,
                    mode,
                    mechanism,
                    prior: held.prior,
                    created_dirs: dirs,
                };
                self.entries.insert(i, kept);
                proof {
                    assert forall|j: int| 0 <= j < before.len() && j != i implies #[trigger] self.entries@[j]
                        == before[j] by {}
                }
            },
            None => {
                let mut k: usize = 0;
                while k < self.entries.len() && is_text_before(
                    self.entries[k].path.text.as_str(),
                    entry.path.text.as_str(),
                )
                    invariant
                        k <= self.entries.len(),
                        forall|j: int|
                            0 <= j < k ==> text_before(
                                (#[trigger] self.entries@[j]).path@,
                                entry.path@,
                            ),
                    decreases self.entries.len() - k,
                {
                    k = k + 1;
                }
                let ghost before = self.entries@;
                let ghost text = entry.path@;
                proof {
                    assert forall|j: int| k <= j < before.len() implies text_before(
                        text,
                        (#[trigger] before[j]).path@,
                    ) by {
                        assert(!is_entry(before, text, k as int));
                        assert(!is_entry(before, text, j));
                        lemma_text_order(before[k as int].path@, text, text);
                        if k < j {
                            lemma_text_order(text, before[k as int].path@, before[j].path@);
                        }
                    }
                }
                self.entries.insert(k, entry);
                proof {
                    assert(self.entries@ == before.insert(k as int, entry));
                    assert forall|i: int, j: int| 0 <= i < j < self.entries@.len() implies text_before(
                        (#[trigger] self.entries@[i]).path@,
                        (#[trigger] self.entries@[j]).path@,
                    ) by {
                        let a = if i < k { i } else { i - 1 };
                        let b = if j < k { j } else { j - 1 };
                        if i != k {
                            assert(self.entries@[i] == before[a]);
                        }
                        if j != k {
                            assert(self.entries@[j] == before[b]);
                        }
                    }
                }
            },
        }
    }
}

/// What recording `entry` makes of a ledger.
pub open spec fn recorded(
    before: Seq<LedgerEntry>,
    entry: LedgerEntry,
    after: Seq<LedgerEntry>,
) -> bool {
    match position(before, entry.path@) {
        Some(i) => {
            &&& after.len() == before.len()
            &&& forall|j: int| 0 <= j < before.len() && j != i ==> #[trigger] after[j] == before[j]
            &&& after[i].path == entry.path
            &&& after[i].written == entry.written
            &&& after[i].mode == entry.mode
            &&& after[i].mechanism == entry.mechanism
            &&& after[i].prior == before[i].prior
            &&& texts(after[i].created_dirs@) == merged(
                texts(before[i].created_dirs@),
                texts(entry.created_dirs@),
            )
        },
        None => exists|k: int| 0 <= k <= before.len() && after == #[trigger] before.insert(k, entry),
    }
}

/// Dropping a target keeps the prior of every other.
pub proof fn a_dropped_target_leaves_the_others_theirs(
    before: Ledger,
    i: int,
    after: Ledger,
    target: Seq<char>,
)
    requires
        before.wf(),
        after.wf(),
        0 <= i < before.entries@.len(),
        after.entries@ == before.entries@.remove(i),
        position(after.entries@, target) is Some,
    ensures
        position(before.entries@, target) is Some,
        after.entries@[position(after.entries@, target)->0].prior
            == before.entries@[position(before.entries@, target)->0].prior,
{
    let k = position(after.entries@, target)->0;
    assert(is_entry(after.entries@, target, k));
    let j = if k < i {
        k
    } else {
        k + 1
    };
    assert(after.entries@[k] == before.entries@[j]);
    before.lemma_position(target, j);
}

/// The ledger keeps the first prior it was given for a target: whatever is
/// recorded, every target held before is held after, with the prior it had.
pub proof fn the_first_prior_is_kept(
    before: Ledger,
    entry: LedgerEntry,
    after: Ledger,
    target: Seq<char>,
)
    requires
        before.wf(),
        after.wf(),
        recorded(before.entries@, entry, after.entries@),
        position(before.entries@, target) is Some,
    ensures
        position(after.entries@, target) is Some,
        after.entries@[position(after.entries@, target)->0].prior
            == before.entries@[position(before.entries@, target)->0].prior,
{
    let i = position(before.entries@, target)->0;
    assert(is_entry(before.entries@, target, i));
    match position(before.entries@, entry.path@) {
        Some(j) => {
            assert(is_entry(before.entries@, entry.path@, j));
            assert(is_entry(after.entries@, target, i));
            after.lemma_position(target, i);
        },
        None => {
            let k = choose|k: int|
                0 <= k <= before.entries@.len() && after.entries@
                    == #[trigger] before.entries@.insert(k, entry);
            let at = if i < k {
                i
            } else {
                i + 1
            };
            assert(after.entries@[at] == before.entries@[i]);
            after.lemma_position(target, at);
        },
    }
}

/// What is there is as bx wrote it only if it has bytes, and their digest is the
/// one the entry records.
pub proof fn only_the_recorded_bytes_are_as_written(observed: Observed, entry: LedgerEntry)
    ensures
        observed.bytes is None ==> !as_written(observed, entry),
        observed.bytes matches Some(bytes) ==> (as_written(observed, entry) <==> sha256_of(bytes@)
            == entry.written@),
{
}

proof fn lemma_place_is_after_the_deeper(paths: Seq<Seq<char>>, path: Seq<char>)
    ensures
        0 <= place_of(paths, path) <= paths.len(),
        forall|i: int|
            0 <= i < place_of(paths, path) ==> components(#[trigger] paths[i]).len() >= components(
                path,
            ).len(),
        place_of(paths, path) < paths.len() ==> components(paths[place_of(paths, path)]).len()
            < components(path).len(),
    decreases paths.len(),
{
    if paths.len() > 0 && components(paths[0]).len() >= components(path).len() {
        let rest = paths.drop_first();
        lemma_place_is_after_the_deeper(rest, path);
        assert forall|i: int| 0 <= i < place_of(paths, path) implies components(
            #[trigger] paths[i],
        ).len() >= components(path).len() by {
            if i > 0 {
                assert(rest[i - 1] == paths[i]);
            }
        }
    }
}

/// A path is put into a list once: behind every path that is as deep or deeper
/// up to the first that is not, and nowhere where it is in the list already.
pub proof fn a_path_is_put_behind_the_deeper_ones(paths: Seq<Seq<char>>, path: Seq<char>)
    ensures
        paths.contains(path) ==> merged(paths, seq![path]) == paths,
        !paths.contains(path) ==> exists|k: int|
            0 <= k <= paths.len() && merged(paths, seq![path]) == #[trigger] paths.insert(k, path)
                && (forall|i: int|
                0 <= i < k ==> components(#[trigger] paths[i]).len() >= components(path).len())
                && (k < paths.len() ==> components(paths[k]).len() < components(path).len()),
{
    reveal_with_fuel(merged, 2);
    assert(seq![path].drop_first() =~= Seq::<Seq<char>>::empty());
    lemma_place_is_after_the_deeper(paths, path);
    if !paths.contains(path) {
        let k = place_of(paths, path);
        assert(merged(paths, seq![path]) == paths.insert(k, path));
    }
}

/// A list is merged into another path by path, in its order.
pub proof fn lists_are_merged_path_by_path(
    paths: Seq<Seq<char>>,
    path: Seq<char>,
    more: Seq<Seq<char>>,
)
    ensures
        merged(paths, Seq::empty()) == paths,
        merged(paths, seq![path] + more) == merged(merged(paths, seq![path]), more),
{
    reveal_with_fuel(merged, 2);
    assert((seq![path] + more).drop_first() =~= more);
    assert(seq![path].drop_first() =~= Seq::<Seq<char>>::empty());
}

/// Merging two lists loses no path of either and adds none.
pub proof fn merged_lists_hold_both(a: Seq<Seq<char>>, b: Seq<Seq<char>>, path: Seq<char>)
    ensures
        merged(a, b).contains(path) <==> a.contains(path) || b.contains(path),
    decreases b.len(),
{
    if b.len() > 0 {
        let rest = b.drop_first();
        let mid = if a.contains(b[0]) {
            a
        } else {
            with_path(a, b[0])
        };
        merged_lists_hold_both(mid, rest, path);
        lemma_place(a, b[0]);
        let k = place_of(a, b[0]);
        if !a.contains(b[0]) {
            assert(mid[k] == b[0]);
            if a.contains(path) {
                let i = a.index_of(path);
                assert(mid[if i < k { i } else { i + 1 }] == path);
            }
            if mid.contains(path) && path != b[0] {
                let i = mid.index_of(path);
                assert(a[if i < k { i } else { i - 1 }] == path);
            }
        }
        if b.contains(path) && path != b[0] {
            let i = b.index_of(path);
            assert(rest[i - 1] == path);
        }
        if rest.contains(path) {
            let i = rest.index_of(path);
            assert(b[i + 1] == path);
        }
    }
}

/// What is recorded is what the ledger holds of the target: the digest, the mode
/// and the mechanism of the entry, the first prior, and the claims of both. What
/// it holds of any other target is as it was.
pub proof fn what_is_recorded_is_held(
    before: Ledger,
    entry: LedgerEntry,
    after: Ledger,
    claim: Seq<char>,
) -> (i: int)
    requires
        before.wf(),
        after.wf(),
        recorded(before.entries@, entry, after.entries@),
    ensures
        0 <= i < after.entries@.len(),
        after.entries@[i].path@ == entry.path@,
        after.entries@[i].written == entry.written,
        after.entries@[i].mode == entry.mode,
        after.entries@[i].mechanism == entry.mechanism,
        forall|j: int|
            0 <= j < before.entries@.len() && (#[trigger] before.entries@[j]).path@ == entry.path@
                ==> after.entries@[i].prior == before.entries@[j].prior && (texts(
                after.entries@[i].created_dirs@,
            ).contains(claim) <==> texts(before.entries@[j].created_dirs@).contains(claim) || texts(
                entry.created_dirs@,
            ).contains(claim)),
        (forall|j: int|
            0 <= j < before.entries@.len() ==> (#[trigger] before.entries@[j]).path@ != entry.path@)
            ==> after.entries@[i] == entry,
        forall|j: int|
            0 <= j < before.entries@.len() && (#[trigger] before.entries@[j]).path@ != entry.path@
                ==> after.entries@.contains(before.entries@[j]),
        forall|j: int|
            0 <= j < after.entries@.len() && (#[trigger] after.entries@[j]).path@ != entry.path@
                ==> before.entries@.contains(after.entries@[j]),
{
    let was = before.entries@;
    let now = after.entries@;
    match position(was, entry.path@) {
        Some(i) => {
            assert(is_entry(was, entry.path@, i));
            assert forall|j: int| 0 <= j < was.len() && (#[trigger] was[j]).path@ == entry.path@ implies j
                == i by {
                assert(is_entry(was, entry.path@, j));
                before.lemma_position(entry.path@, j);
            }
            merged_lists_hold_both(
                texts(was[i].created_dirs@),
                texts(entry.created_dirs@),
                claim,
            );
            assert forall|j: int| 0 <= j < was.len() && (#[trigger] was[j]).path@ != entry.path@ implies now.contains(
            was[j]) by {
                assert(now[j] == was[j]);
            }
            assert forall|j: int| 0 <= j < now.len() && (#[trigger] now[j]).path@ != entry.path@ implies was.contains(
            now[j]) by {
                assert(now[j] == was[j]);
            }
            i
        },
        None => {
            let k = choose|k: int| 0 <= k <= was.len() && now == #[trigger] was.insert(k, entry);
            assert forall|j: int| 0 <= j < was.len() implies (#[trigger] was[j]).path@
                != entry.path@ && now.contains(was[j]) by {
                assert(!is_entry(was, entry.path@, j));
                assert(now[if j < k { j } else { j + 1 }] == was[j]);
            }
            assert forall|j: int| 0 <= j < now.len() && (#[trigger] now[j]).path@ != entry.path@ implies was.contains(
            now[j]) by {
                assert(was[if j < k { j } else { j - 1 }] == now[j]);
            }
            k
        },
    }
}

/// Two say the same of what was there if and only if both say that there was
/// nothing, or both name the same digest, mode and length.
pub proof fn only_the_same_prior_is_the_same(a: Prior, b: Prior)
    ensures
        a is Absent ==> (same_prior(a, b) <==> b is Absent),
        a matches Prior::Existed(one) ==> (same_prior(a, b) <==> (b matches Prior::Existed(other)
            && one.digest@ == other.digest@ && one.mode == other.mode && one.len == other.len)),
{
}

} // verus!
