//! Package building rules: what each directory entry becomes, which encoded
//! candidate is kept, and where each operation's bytes go in the blob.
use vstd::prelude::*;

use crate::metadata::{Add, Check, Common, Operation, OperationKind, Patch, same_common};
use crate::names::{CleanName, Sha1Hash};
use crate::progress::{data_of, sum_of};
use crate::state::{
    lemma_str_lt_asymmetric, lemma_str_lt_total, lemma_str_lt_transitive, str_less, str_lt,
};

verus! {

/// What a name is in a directory listing.
#[derive(Debug, Clone, Copy, PartialEq, Eq, Structural)]
pub enum EntryKind {
    Absent,
    Dir,
    File,
}

/// What the builder does with one name of the previous and source trees.
#[derive(Debug, Clone, Copy, PartialEq, Eq, Structural)]
pub enum Planned {
    /// Present in neither tree
    Nothing,
    /// A new directory: create it, then walk it
    MkDir,
    /// A new file: add it
    Add,
    /// A directory that is gone: remove it
    RmDir,
    /// A file that is gone: remove it
    Rm,
    /// A directory in both trees: walk it
    Recurse,
    /// A file in both trees with the same size and content: check it
    Check,
    /// A file in both trees that changed: patch it
    Patch,
}

/// Why a package cannot be built.
#[derive(Debug, Clone, Copy, PartialEq, Eq, Structural)]
pub enum BuildError {
    /// A name is a file in one tree and a directory in the other
    TypeChange,
    /// No encoder kept a candidate
    NoCoder,
}

/// The builder's table: previous tree (rows) against source tree (columns).
pub open spec fn plan_of(previous: EntryKind, source: EntryKind, identical: bool) -> Result<
    Planned,
    BuildError,
> {
    match (previous, source) {
        (EntryKind::Absent, EntryKind::Absent) => Ok(Planned::Nothing),
        (EntryKind::Absent, EntryKind::Dir) => Ok(Planned::MkDir),
        (EntryKind::Absent, EntryKind::File) => Ok(Planned::Add),
        (EntryKind::Dir, EntryKind::Absent) => Ok(Planned::RmDir),
        (EntryKind::Dir, EntryKind::Dir) => Ok(Planned::Recurse),
        (EntryKind::File, EntryKind::Absent) => Ok(Planned::Rm),
        (EntryKind::File, EntryKind::File) => if identical {
            Ok(Planned::Check)
        } else {
            Ok(Planned::Patch)
        },
        _ => Err(BuildError::TypeChange),
    }
}

/// What to do with a name; `identical` tells whether a file has the same
/// size and content in both trees.
pub fn plan_entry(previous: EntryKind, source: EntryKind, identical: bool) -> (r: Result<
    Planned,
    BuildError,
>)
    ensures
        r == plan_of(previous, source, identical),
{
    match (previous, source) {
        (EntryKind::Absent, EntryKind::Absent) => Ok(Planned::Nothing),
        (EntryKind::Absent, EntryKind::Dir) => Ok(Planned::MkDir),
        (EntryKind::Absent, EntryKind::File) => Ok(Planned::Add),
        (EntryKind::Dir, EntryKind::Absent) => Ok(Planned::RmDir),
        (EntryKind::Dir, EntryKind::Dir) => Ok(Planned::Recurse),
        (EntryKind::File, EntryKind::Absent) => Ok(Planned::Rm),
        (EntryKind::File, EntryKind::File) => if identical {
            Ok(Planned::Check)
        } else {
            Ok(Planned::Patch)
        },
        _ => Err(BuildError::TypeChange),
    }
}

/// Building from two identical trees plans only checks and walks: no byte
/// is carried and nothing on disk changes.
pub proof fn lemma_identical_trees_only_check(kind: EntryKind)
    ensures
        kind == EntryKind::File ==> plan_of(kind, kind, true) == Ok::<Planned, BuildError>(
            Planned::Check,
        ),
        kind == EntryKind::Dir ==> plan_of(kind, kind, true) == Ok::<Planned, BuildError>(
            Planned::Recurse,
        ),
        kind == EntryKind::Absent ==> plan_of(kind, kind, true) == Ok::<Planned, BuildError>(
            Planned::Nothing,
        ),
{
}

/// Building from an empty previous tree plans only additions and new
/// directories.
pub proof fn lemma_complete_package_only_adds(kind: EntryKind, identical: bool)
    ensures
        kind == EntryKind::File ==> plan_of(EntryKind::Absent, kind, identical) == Ok::<
            Planned,
            BuildError,
        >(Planned::Add),
        kind == EntryKind::Dir ==> plan_of(EntryKind::Absent, kind, identical) == Ok::<
            Planned,
            BuildError,
        >(Planned::MkDir),
{
}

/// One name of a directory listing.
#[derive(Debug)]
pub struct DirEntry {
    pub name: String,
    pub kind: EntryKind,
}

/// One name of the previous and source listings walked in tandem.
#[derive(Debug)]
pub struct PairedEntry {
    pub name: String,
    pub previous: EntryKind,
    pub source: EntryKind,
}

/// A listing sorted by name, each name once.
pub open spec fn sorted_listing(l: Seq<DirEntry>) -> bool {
    forall|i: int, j: int| 0 <= i < j < l.len() ==> str_lt(#[trigger] l[i].name@, #[trigger] l[j].name@)
}

/// `n` is listed in `l`.
pub open spec fn listed(l: Seq<DirEntry>, n: Seq<char>) -> bool {
    exists|i: int| 0 <= i < l.len() && (#[trigger] l[i]).name@ == n
}

/// What `n` is in `l`: the kind of its first entry, or absent.
pub open spec fn kind_in(l: Seq<DirEntry>, n: Seq<char>) -> EntryKind
    decreases l.len(),
{
    if l.len() == 0 {
        EntryKind::Absent
    } else if l[0].name@ == n {
        l[0].kind
    } else {
        kind_in(l.drop_first(), n)
    }
}

proof fn lemma_kind_absent(l: Seq<DirEntry>, n: Seq<char>)
    requires
        !listed(l, n),
    ensures
        kind_in(l, n) == EntryKind::Absent,
    decreases l.len(),
{
    if l.len() > 0 {
        assert(l[0].name@ != n);
        assert(!listed(l.drop_first(), n)) by {
            if listed(l.drop_first(), n) {
                let k = choose|k: int| 0 <= k < l.len() - 1 && (#[trigger] l.drop_first()[k]).name@ == n;
                assert(l[k + 1] == l.drop_first()[k]);
            }
        }
        lemma_kind_absent(l.drop_first(), n);
    }
}

proof fn lemma_kind_at(l: Seq<DirEntry>, i: int)
    requires
        sorted_listing(l),
        0 <= i < l.len(),
    ensures
        listed(l, l[i].name@),
        kind_in(l, l[i].name@) == l[i].kind,
    decreases i,
{
    assert(listed(l, l[i].name@));
    if i > 0 {
        assert(str_lt(l[0].name@, l[i].name@));
        lemma_str_lt_asymmetric(l[0].name@, l[i].name@);
        let t = l.drop_first();
        assert(sorted_listing(t)) by {
            assert forall|a: int, b: int| 0 <= a < b < t.len() implies str_lt(
                #[trigger] t[a].name@,
                #[trigger] t[b].name@,
            ) by {
                assert(t[a] == l[a + 1]);
                assert(t[b] == l[b + 1]);
            }
        }
        assert(t[i - 1] == l[i]);
        lemma_kind_at(t, i - 1);
    }
}

fn clone_string(s: &String) -> (r: String)
    ensures
        r@ == s@,
{
    s.clone()
}

/// Names sorted by `str_lt`, each once.
spec fn sorted_names(v: Seq<Seq<char>>) -> bool {
    forall|a: int, b: int| 0 <= a < b < v.len() ==> str_lt(#[trigger] v[a], #[trigger] v[b])
}

proof fn lemma_all_before(v: Seq<Seq<char>>, n: Seq<char>)
    requires
        sorted_names(v),
        v.len() > 0,
        str_lt(v.last(), n),
    ensures
        forall|m: int| 0 <= m < v.len() ==> str_lt(#[trigger] v[m], n),
{
    assert forall|m: int| 0 <= m < v.len() implies str_lt(#[trigger] v[m], n) by {
        if m < v.len() - 1 {
            lemma_str_lt_transitive(v[m], v.last(), n);
        }
    }
}

/// A name after all names already walked, and before what is left of a
/// listing, is not in that listing.
proof fn lemma_not_listed(l: Seq<DirEntry>, idx: int, names: Seq<Seq<char>>, n: Seq<char>)
    requires
        sorted_listing(l),
        0 <= idx <= l.len(),
        forall|a: int| 0 <= a < idx ==> names.contains(#[trigger] l[a].name@),
        forall|m: int| 0 <= m < names.len() ==> str_lt(#[trigger] names[m], n),
        idx < l.len() ==> str_lt(n, l[idx].name@),
    ensures
        !listed(l, n),
{
    if listed(l, n) {
        let k = choose|k: int| 0 <= k < l.len() && (#[trigger] l[k]).name@ == n;
        if k < idx {
            assert(names.contains(l[k].name@));
            let m = choose|m: int| 0 <= m < names.len() && names[m] == l[k].name@;
            assert(str_lt(names[m], n));
            lemma_str_lt_asymmetric(names[m], n);
        } else {
            if k > idx {
                lemma_str_lt_transitive(n, l[idx].name@, l[k].name@);
            }
            lemma_str_lt_asymmetric(n, l[k].name@);
        }
    }
}

/// Walks the previous and source listings in tandem, by name: each name of
/// either listing comes once, in order, with what it is on each side.
pub fn pair_listings(previous: &[DirEntry], source: &[DirEntry]) -> (r: Vec<PairedEntry>)
    requires
        sorted_listing(previous@),
        sorted_listing(source@),
    ensures
        forall|i: int, j: int| 0 <= i < j < r@.len() ==> str_lt(#[trigger] r@[i].name@, #[trigger] r@[j].name@),
        forall|i: int|
            0 <= i < r@.len() ==> (#[trigger] r@[i]).previous == kind_in(previous@, r@[i].name@)
                && r@[i].source == kind_in(source@, r@[i].name@),
        forall|i: int| 0 <= i < r@.len() ==> listed(previous@, #[trigger] r@[i].name@) || listed(
            source@,
            r@[i].name@,
        ),
        forall|i: int| 0 <= i < previous@.len() ==> paired_names(r@).contains(#[trigger] previous@[i].name@),
        forall|i: int| 0 <= i < source@.len() ==> paired_names(r@).contains(#[trigger] source@[i].name@),
{
    let ghost p = previous@;
    let ghost s = source@;
    let mut out: Vec<PairedEntry> = Vec::new();
    let mut i: usize = 0;
    let mut j: usize = 0;
    while i < previous.len() || j < source.len()
        invariant
            p == previous@,
            s == source@,
            sorted_listing(p),
            sorted_listing(s),
            i <= p.len(),
            j <= s.len(),
            sorted_names(paired_names(out@)),
            forall|a: int|
                0 <= a < out@.len() ==> (#[trigger] out@[a]).previous == kind_in(p, out@[a].name@)
                    && out@[a].source == kind_in(s, out@[a].name@),
            forall|a: int| 0 <= a < out@.len() ==> listed(p, #[trigger] out@[a].name@) || listed(
                s,
                out@[a].name@,
            ),
            forall|a: int| 0 <= a < i ==> paired_names(out@).contains(#[trigger] p[a].name@),
            forall|a: int| 0 <= a < j ==> paired_names(out@).contains(#[trigger] s[a].name@),
            out@.len() > 0 ==> (i < p.len() ==> str_lt(out@.last().name@, p[i as int].name@)) && (j
                < s.len() ==> str_lt(out@.last().name@, s[j as int].name@)),
        decreases p.len() - i + s.len() - j,
    {
        let (take_prev, take_src) = choose_side(previous, source, i, j);
        let name = if take_prev {
            clone_string(&previous[i].name)
        } else {
            clone_string(&source[j].name)
        };
        let ghost n = name@;
        let ghost names = paired_names(out@);
        proof {
            if out@.len() > 0 {
                assert(names.last() == out@.last().name@);
                lemma_all_before(names, n);
            }
            if take_prev {
                lemma_kind_at(p, i as int);
            } else {
                lemma_not_listed(p, i as int, names, n);
                lemma_kind_absent(p, n);
            }
            if take_src {
                lemma_kind_at(s, j as int);
            } else {
                lemma_not_listed(s, j as int, names, n);
                lemma_kind_absent(s, n);
            }
        }
        let entry = PairedEntry {
            name,
            previous: if take_prev {
                previous[i].kind
            } else {
                EntryKind::Absent
            },
            source: if take_src {
                source[j].kind
            } else {
                EntryKind::Absent
            },
        };
        out.push(entry);
        proof {
            assert(paired_names(out@) =~= names.push(n));
            if names.len() > 0 {
                lemma_all_before(names, n);
            }
        }
        if take_prev {
            i = i + 1;
        }
        if take_src {
            j = j + 1;
        }
        proof {
            let nn = paired_names(out@);
            assert forall|a: int| 0 <= a < i implies nn.contains(#[trigger] p[a].name@) by {
                if take_prev && a == i - 1 {
                    assert(nn[nn.len() - 1] == n);
                } else {
                    let m = choose|m: int| 0 <= m < names.len() && names[m] == p[a].name@;
                    assert(nn[m] == names[m]);
                }
            }
            assert forall|a: int| 0 <= a < j implies nn.contains(#[trigger] s[a].name@) by {
                if take_src && a == j - 1 {
                    assert(nn[nn.len() - 1] == n);
                } else {
                    let m = choose|m: int| 0 <= m < names.len() && names[m] == s[a].name@;
                    assert(nn[m] == names[m]);
                }
            }
        }
    }
    proof {
        assert forall|a: int, b: int| 0 <= a < b < out@.len() implies str_lt(
            #[trigger] out@[a].name@,
            #[trigger] out@[b].name@,
        ) by {
            assert(paired_names(out@)[a] == out@[a].name@);
            assert(paired_names(out@)[b] == out@[b].name@);
        }
    }
    out
}

/// Which listing's head comes next: the previous one, the source one, or
/// both when they hold the same name.
fn choose_side(previous: &[DirEntry], source: &[DirEntry], i: usize, j: usize) -> (r: (bool, bool))
    requires
        i < previous@.len() || j < source@.len(),
        i <= previous@.len(),
        j <= source@.len(),
    ensures
        r.0 || r.1,
        r.0 ==> i < previous@.len(),
        r.1 ==> j < source@.len(),
        r.0 && r.1 ==> previous@[i as int].name@ == source@[j as int].name@,
        r.0 && !r.1 ==> j < source@.len() ==> str_lt(previous@[i as int].name@, source@[j as int].name@),
        !r.0 && r.1 ==> i < previous@.len() ==> str_lt(source@[j as int].name@, previous@[i as int].name@),
{
    if i < previous.len() && j < source.len() {
        let a = previous[i].name.as_str();
        let b = source[j].name.as_str();
        if str_less(a, b) {
            (true, false)
        } else if str_less(b, a) {
            (false, true)
        } else {
            proof {
                if a@ != b@ {
                    lemma_str_lt_total(a@, b@);
                }
            }
            (true, true)
        }
    } else if i < previous.len() {
        (true, false)
    } else {
        (false, true)
    }
}

/// The names of paired entries.
pub open spec fn paired_names(v: Seq<PairedEntry>) -> Seq<Seq<char>> {
    v.map_values(|e: PairedEntry| e.name@)
}

/// Walking two identical listings pairs every name with itself: each file
/// is checked and each directory walked, so a package between identical
/// trees carries no data.
pub proof fn lemma_identical_listings(l: Seq<DirEntry>, paired: Seq<PairedEntry>, k: int)
    requires
        sorted_listing(l),
        forall|i: int| 0 <= i < l.len() ==> (#[trigger] l[i]).kind != EntryKind::Absent,
        0 <= k < paired.len(),
        paired[k].previous == kind_in(l, paired[k].name@),
        paired[k].source == kind_in(l, paired[k].name@),
        listed(l, paired[k].name@),
    ensures
        plan_of(paired[k].previous, paired[k].source, true) is Ok,
        plan_of(paired[k].previous, paired[k].source, true)->Ok_0 == Planned::Check
            || plan_of(paired[k].previous, paired[k].source, true)->Ok_0 == Planned::Recurse,
{
    let n = paired[k].name@;
    let i = choose|i: int| 0 <= i < l.len() && (#[trigger] l[i]).name@ == n;
    lemma_kind_at(l, i);
}

/// Limits under which an encoder's output is kept.
#[derive(Debug, Clone, Copy, PartialEq, Eq, Structural)]
pub struct CoderLimits {
    /// Largest ratio `(encoded * 100) / unencoded` kept
    pub min_ratio: u64,
    /// Smallest unencoded size the encoder is tried on
    pub min_size: u64,
    /// Largest unencoded size the encoder is tried on
    pub max_size: u64,
}

/// One encoder's output for a slice.
#[derive(Debug, Clone, Copy, PartialEq, Eq, Structural)]
pub struct Candidate {
    /// Size of the encoded bytes
    pub data_size: u64,
    /// Size of the unencoded bytes
    pub final_size: u64,
}

/// The encoder is tried on a slice of `size` bytes.
pub open spec fn tries(l: CoderLimits, size: u64) -> bool {
    l.min_size <= size && size <= l.max_size
}

/// `(encoded * 100) / unencoded`, and 100 for empty unencoded bytes.
pub open spec fn ratio_of(c: Candidate) -> int {
    if c.final_size == 0 {
        100
    } else {
        (c.data_size * 100) / (c.final_size as int)
    }
}

/// The candidate is within its encoder's limits.
pub open spec fn kept(l: CoderLimits, c: Candidate) -> bool {
    tries(l, c.final_size) && ratio_of(c) <= l.min_ratio
}

/// Whether the encoder is to be tried on a slice of `size` bytes.
pub fn should_try(l: &CoderLimits, size: u64) -> (r: bool)
    ensures
        r == tries(*l, size),
{
    l.min_size <= size && size <= l.max_size
}

/// The candidate's ratio.
pub fn ratio(c: &Candidate) -> (r: u128)
    ensures
        r == ratio_of(*c),
{
    if c.final_size == 0 {
        100
    } else {
        (c.data_size as u128 * 100) / (c.final_size as u128)
    }
}

/// The smallest candidate among those kept; the first one on ties.
pub fn best_candidate(candidates: &[Candidate], limits: &[CoderLimits]) -> (r: Result<
    usize,
    BuildError,
>)
    requires
        candidates@.len() == limits@.len(),
    ensures
        match r {
            Ok(i) => {
                &&& i < candidates@.len()
                &&& kept(limits@[i as int], candidates@[i as int])
                &&& forall|j: int|
                    0 <= j < candidates@.len() && kept(limits@[j], #[trigger] candidates@[j])
                        ==> candidates@[i as int].data_size <= candidates@[j].data_size
                &&& forall|j: int|
                    0 <= j < i && kept(limits@[j], #[trigger] candidates@[j])
                        ==> candidates@[i as int].data_size < candidates@[j].data_size
            },
            Err(e) => e == BuildError::NoCoder && forall|j: int|
                0 <= j < candidates@.len() ==> !kept(limits@[j], #[trigger] candidates@[j]),
        },
{
    let mut best: Option<usize> = None;
    let mut i: usize = 0;
    while i < candidates.len()
        invariant
            i <= candidates@.len(),
            candidates@.len() == limits@.len(),
            match best {
                Some(b) => {
                    &&& b < i
                    &&& kept(limits@[b as int], candidates@[b as int])
                    &&& forall|j: int|
                        0 <= j < i && kept(limits@[j], #[trigger] candidates@[j])
                            ==> candidates@[b as int].data_size <= candidates@[j].data_size
                    &&& forall|j: int|
                        0 <= j < b && kept(limits@[j], #[trigger] candidates@[j])
                            ==> candidates@[b as int].data_size < candidates@[j].data_size
                },
                None => forall|j: int|
                    0 <= j < i ==> !kept(limits@[j], #[trigger] candidates@[j]),
            },
        decreases candidates@.len() - i,
    {
        let c = &candidates[i];
        let l = &limits[i];
        let keep = should_try(l, c.final_size) && ratio(c) <= l.min_ratio as u128;
        if keep {
            match best {
                Some(b) => {
                    if c.data_size < candidates[b].data_size {
                        best = Some(i);
                    }
                },
                None => {
                    best = Some(i);
                },
            }
        }
        i = i + 1;
    }
    match best {
        Some(b) => Ok(b),
        None => Err(BuildError::NoCoder),
    }
}

/// The operation a changed file becomes, given whether the best patcher is
/// the raw one (its output is the whole new file): a patch that is no
/// smaller than the file itself falls back to an addition.
pub fn changed_file_kind(best_patcher_is_raw: bool) -> (r: OperationKind)
    ensures
        best_patcher_is_raw <==> r == OperationKind::Add,
        !best_patcher_is_raw <==> r == OperationKind::Patch,
{
    if best_patcher_is_raw {
        OperationKind::Add
    } else {
        OperationKind::Patch
    }
}

/// Total bytes carried by operations.
pub open spec fn total_data(ops: Seq<Operation>) -> int {
    sum_of(ops, |o: Operation| data_of(o))
}

proof fn lemma_total_prefix(ops: Seq<Operation>, i: int)
    requires
        0 <= i < ops.len(),
    ensures
        total_data(ops.subrange(0, i + 1)) == total_data(ops.subrange(0, i)) + ops[i].spec_data_size(),
{
    assert(ops.subrange(0, i + 1).drop_last() =~= ops.subrange(0, i));
}

proof fn lemma_total_prefix_le(ops: Seq<Operation>, k: int)
    requires
        0 <= k <= ops.len(),
    ensures
        total_data(ops.subrange(0, k)) <= total_data(ops),
    decreases ops.len() - k,
{
    if k < ops.len() {
        lemma_total_prefix(ops, k);
        lemma_total_prefix_le(ops, k + 1);
    } else {
        assert(ops.subrange(0, k) =~= ops);
    }
}

/// Lays out the operations' bytes one after the other in the blob: each
/// carrying operation starts where the bytes of the ones before it end.
/// Returns the size of the blob.
pub fn assign_offsets(operations: &mut Vec<Operation>) -> (size: u64)
    requires
        total_data(old(operations)@) <= u64::MAX,
    ensures
        size == total_data(old(operations)@),
        final(operations)@.len() == old(operations)@.len(),
        forall|i: int|
            0 <= i < final(operations)@.len() ==> {
                &&& (#[trigger] final(operations)@[i]).spec_kind() == old(operations)@[i].spec_kind()
                &&& final(operations)@[i].spec_path() == old(operations)@[i].spec_path()
                &&& final(operations)@[i].spec_data_size() == old(operations)@[i].spec_data_size()
                &&& final(operations)@[i].spec_final_size() == old(operations)@[i].spec_final_size()
                &&& final(operations)@[i].carries_data() ==> final(operations)@[i].spec_data_offset()
                    == total_data(old(operations)@.subrange(0, i))
            },
{
    let ghost orig = operations@;
    let mut size: u64 = 0;
    let mut i: usize = 0;
    while i < operations.len()
        invariant
            i <= operations@.len(),
            operations@.len() == orig.len(),
            total_data(orig) <= u64::MAX,
            size == total_data(orig.subrange(0, i as int)),
            forall|j: int| i <= j < orig.len() ==> #[trigger] operations@[j] == orig[j],
            forall|j: int|
                0 <= j < i ==> {
                    &&& (#[trigger] operations@[j]).spec_kind() == orig[j].spec_kind()
                    &&& operations@[j].spec_path() == orig[j].spec_path()
                    &&& operations@[j].spec_data_size() == orig[j].spec_data_size()
                    &&& operations@[j].spec_final_size() == orig[j].spec_final_size()
                    &&& operations@[j].carries_data() ==> operations@[j].spec_data_offset()
                        == total_data(orig.subrange(0, j))
                },
        decreases orig.len() - i,
    {
        proof {
            lemma_total_prefix(orig, i as int);
            lemma_total_prefix_le(orig, i + 1);
        }
        let mut op = operations.remove(i);
        let ghost before = op;
        op.set_data_offset(size);
        let n = op.data_size();
        operations.insert(i, op);
        size = size + n;
        i = i + 1;
    }
    proof {
        assert(orig.subrange(0, orig.len() as int) =~= orig);
    }
    size
}

/// A package made of checks and directory walks carries no data: its blob
/// is empty.
pub proof fn lemma_checks_carry_nothing(ops: Seq<Operation>)
    requires
        forall|i: int| 0 <= i < ops.len() ==> !(#[trigger] ops[i]).carries_data(),
    ensures
        total_data(ops) == 0,
    decreases ops.len(),
{
    if ops.len() > 0 {
        let t = ops.drop_last();
        assert forall|i: int| 0 <= i < t.len() implies !(#[trigger] t[i]).carries_data() by {
            assert(t[i] == ops[i]);
        }
        lemma_checks_carry_nothing(t);
        assert(!ops[ops.len() - 1].carries_data());
    }
}

/// The output that the builder kept from one encoder: the encoder's name,
/// what it wrote (`data_*`) and what it read (`final_*`).
#[derive(Debug)]
pub struct Encoded {
    pub coder: CleanName,
    pub data_size: u64,
    pub data_sha1: Sha1Hash,
    pub final_size: u64,
    pub final_sha1: Sha1Hash,
}

/// The name of the encoder that copies its input.
pub open spec fn raw_name() -> Seq<char> {
    seq!['r', 'a', 'w']
}

/// A new file: its best compressed form, which decodes to the file.
pub fn added_file(common: Common, compressed: &Encoded) -> (r: Operation)
    ensures
        r matches Operation::Add(a) && same_common(a.common, common) && a.data_offset == 0
            && a.data_size == compressed.data_size && a.data_sha1@ == compressed.data_sha1@
            && a.data_compression@ == compressed.coder@ && a.final_offset == 0 && a.final_size
            == compressed.final_size && a.final_sha1@ == compressed.final_sha1@,
{
    Operation::Add(
        Add {
            common,
            data_offset: 0,
            data_size: compressed.data_size,
            data_sha1: compressed.data_sha1.clone(),
            data_compression: compressed.coder.clone(),
            final_offset: 0,
            final_size: compressed.final_size,
            final_sha1: compressed.final_sha1.clone(),
        },
    )
}

/// A changed file, from the best patch (`patch`, read from the new file) and
/// the best compression of that patch (`compressed`). When the best patcher
/// is the raw one, no patch beats the file itself: the file is added, as its
/// best compressed form, and reads back as the new file. Otherwise the
/// compressed patch applies to the local file (`local_size`, `local_sha1`).
pub fn changed_file(
    common: Common,
    local_size: u64,
    local_sha1: Sha1Hash,
    patch: &Encoded,
    compressed: &Encoded,
) -> (r: Operation)
    ensures
        patch.coder@ == raw_name() ==> (r matches Operation::Add(a) && same_common(
            a.common,
            common,
        ) && a.data_offset == 0 && a.data_size == compressed.data_size && a.data_sha1@
            == compressed.data_sha1@ && a.data_compression@ == compressed.coder@ && a.final_offset
            == 0 && a.final_size == patch.final_size && a.final_sha1@ == patch.final_sha1@),
        patch.coder@ != raw_name() ==> (r matches Operation::Patch(p) && same_common(
            p.common,
            common,
        ) && p.data_offset == 0 && p.data_size == compressed.data_size && p.data_sha1@
            == compressed.data_sha1@ && p.data_compression@ == compressed.coder@ && p.patch_type@
            == patch.coder@ && p.local_offset == 0 && p.local_size == local_size && p.local_sha1@
            == local_sha1@ && p.final_offset == 0 && p.final_size == patch.final_size
            && p.final_sha1@ == patch.final_sha1@),
{
    let raw = "raw";
    proof {
        reveal_strlit("raw");
        assert(raw@ =~= raw_name());
    }
    if patch.coder.as_str().to_owned() == raw.to_owned() {
        Operation::Add(
            Add {
                common,
                data_offset: 0,
                data_size: compressed.data_size,
                data_sha1: compressed.data_sha1.clone(),
                data_compression: compressed.coder.clone(),
                final_offset: 0,
                final_size: patch.final_size,
                final_sha1: patch.final_sha1.clone(),
            },
        )
    } else {
        Operation::Patch(
            Patch {
                common,
                data_offset: 0,
                data_size: compressed.data_size,
                data_sha1: compressed.data_sha1.clone(),
                data_compression: compressed.coder.clone(),
                patch_type: patch.coder.clone(),
                local_offset: 0,
                local_size,
                local_sha1,
                final_offset: 0,
                final_size: patch.final_size,
                final_sha1: patch.final_sha1.clone(),
            },
        )
    }
}

/// A file that did not change: a check of its size and hash.
pub fn unchanged_file(common: Common, size: u64, sha1: Sha1Hash) -> (r: Operation)
    ensures
        r matches Operation::Check(c) && same_common(c.common, common) && c.local_offset == 0
            && c.local_size == size && c.local_sha1@ == sha1@,
        !r.carries_data(),
{
    Operation::Check(Check { common, local_offset: 0, local_size: size, local_sha1: sha1 })
}

} // verus!
