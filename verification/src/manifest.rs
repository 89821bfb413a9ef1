//! The hardware manifest and the verification engine that diffs a stored
//! baseline against a live scan.
use vstd::prelude::*;

use crate::sys_info::linux::CpuInfo;

verus! {

/// The hardware identity of a machine.
#[derive(Debug, Clone, PartialEq)]
pub struct HardwareManifest {
    pub machine_id: String,
    pub motherboard_serial: Option<String>,
    /// The six quantised timing-ratio buckets of the CPU.
    pub cpu_timing_signature: [u64; 6],
    /// Stable CPU model identity read from `/proc/cpuinfo`.
    pub cpu_info: CpuInfo,
    pub ram_serials: Vec<String>,
    pub drive_serials: Vec<String>,
    pub gpu_uuids: Vec<String>,
    pub mac_addresses: Vec<String>,
}

/// Whether one scalar identifier kept its value between baseline and live scan.
#[derive(Debug, Clone, PartialEq)]
pub enum DiffStatus<T> {
    Unchanged,
    Modified { expected: T, actual: T },
}

/// The set difference of one collection of identifiers.
#[derive(Debug, Clone, PartialEq)]
pub struct CollectionDiff {
    pub unchanged: Vec<String>,
    pub added: Vec<String>,
    pub missing: Vec<String>,
}

/// The full comparison of a baseline manifest with a live one.
#[derive(Debug)]
pub struct ManifestDiff {
    pub is_identical: bool,
    pub motherboard: DiffStatus<Option<String>>,
    pub cpu: DiffStatus<[u64; 6]>,
    pub cpu_info: DiffStatus<CpuInfo>,
    pub ram: CollectionDiff,
    pub drives: CollectionDiff,
    pub gpus: CollectionDiff,
    pub macs: CollectionDiff,
}

/// The texts of a sequence of strings.
pub open spec fn str_views(v: Seq<String>) -> Seq<Seq<char>> {
    v.map_values(|s: String| s@)
}

/// The text of an optional string.
pub open spec fn opt_view(o: Option<String>) -> Option<Seq<char>> {
    match o {
        Some(s) => Some(s@),
        None => None,
    }
}

/// The elements of `items`, first occurrences only and in order, that occur in
/// `other` (when `present`) or do not occur in `other` (when `!present`).
pub open spec fn select(items: Seq<Seq<char>>, other: Seq<Seq<char>>, present: bool) -> Seq<
    Seq<char>,
>
    decreases items.len(),
{
    if items.len() == 0 {
        Seq::<Seq<char>>::empty()
    } else {
        let rest = select(items.drop_last(), other, present);
        let x = items.last();
        if items.drop_last().contains(x) || other.contains(x) != present {
            rest
        } else {
            rest.push(x)
        }
    }
}

/// `select` keeps no duplicates, and holds exactly the elements of `items`
/// whose membership in `other` is `present`.
pub proof fn lemma_select(items: Seq<Seq<char>>, other: Seq<Seq<char>>, present: bool)
    ensures
        select(items, other, present).no_duplicates(),
        forall|x: Seq<char>| #[trigger]
            select(items, other, present).contains(x) <==> (items.contains(x) && other.contains(
                x,
            ) == present),
    decreases items.len(),
{
    if items.len() > 0 {
        let init = items.drop_last();
        let x = items.last();
        lemma_select(init, other, present);
        let rest = select(init, other, present);
        assert forall|y: Seq<char>| items.contains(y) <==> (init.contains(y) || y == x) by {
            if items.contains(y) {
                let k = choose|k: int| 0 <= k < items.len() && items[k] == y;
                if k < items.len() - 1 {
                    assert(init[k] == y);
                }
            }
            if init.contains(y) {
                let k = choose|k: int| 0 <= k < init.len() && init[k] == y;
                assert(items[k] == y);
            }
            if y == x {
                assert(items[items.len() - 1] == y);
            }
        }
        if !(init.contains(x) || other.contains(x) != present) {
            let r = rest.push(x);
            assert forall|y: Seq<char>| r.contains(y) <==> (rest.contains(y) || y == x) by {
                if r.contains(y) {
                    let k = choose|k: int| 0 <= k < r.len() && r[k] == y;
                    if k < rest.len() {
                        assert(rest[k] == y);
                    }
                }
                if rest.contains(y) {
                    let k = choose|k: int| 0 <= k < rest.len() && rest[k] == y;
                    assert(r[k] == y);
                }
                if y == x {
                    assert(r[r.len() - 1] == y);
                }
            }
            assert forall|i: int, j: int| 0 <= i < r.len() && 0 <= j < r.len() && i != j implies r[i]
                != r[j] by {
                if i < rest.len() && j < rest.len() {
                } else if i < rest.len() {
                    assert(rest.contains(r[i]));
                } else {
                    assert(rest.contains(r[j]));
                }
            }
        }
    }
}

/// The elements of a sequence as a set.
pub open spec fn elems(s: Seq<Seq<char>>) -> Set<Seq<char>> {
    Set::new(|x: Seq<char>| s.contains(x))
}

/// Two buckets differ by at most one.
pub open spec fn within_one(a: u64, b: u64) -> bool {
    a <= b + 1 && b <= a + 1
}

/// Fuzzy signature match: every one of the six buckets differs by at most one.
pub open spec fn signatures_match(expected: [u64; 6], actual: [u64; 6]) -> bool {
    forall|i: int| 0 <= i < 6 ==> within_one(#[trigger] expected@[i], actual@[i])
}

/// The text of `CollectionDiff` sets: unchanged, added, missing.
pub open spec fn collection_diff_spec(baseline: Seq<Seq<char>>, live: Seq<Seq<char>>) -> (
    Seq<Seq<char>>,
    Seq<Seq<char>>,
    Seq<Seq<char>>,
) {
    (select(baseline, live, true), select(live, baseline, false), select(baseline, live, false))
}

/// Two collections agree when, taken as sets, they hold the same identifiers.
pub open spec fn collections_match(baseline: Seq<String>, live: Seq<String>) -> bool {
    elems(str_views(baseline)) == elems(str_views(live))
}

/// When a live manifest passes verification against a baseline: same
/// motherboard serial, CPU timing signature within one bucket per slot, same
/// CPU identity fields, and the same sets of RAM, drive, GPU and MAC identifiers.
/// The machine id does not take part.
pub open spec fn manifests_match(baseline: HardwareManifest, live: HardwareManifest) -> bool {
    &&& opt_view(baseline.motherboard_serial) == opt_view(live.motherboard_serial)
    &&& signatures_match(baseline.cpu_timing_signature, live.cpu_timing_signature)
    &&& baseline.cpu_info.fields() == live.cpu_info.fields()
    &&& collections_match(baseline.ram_serials@, live.ram_serials@)
    &&& collections_match(baseline.drive_serials@, live.drive_serials@)
    &&& collections_match(baseline.gpu_uuids@, live.gpu_uuids@)
    &&& collections_match(baseline.mac_addresses@, live.mac_addresses@)
}

impl CollectionDiff {
    /// Nothing was added and nothing is missing.
    pub open spec fn identical(&self) -> bool {
        self.added@.len() == 0 && self.missing@.len() == 0
    }

    /// The collection is unchanged: nothing was added and nothing is missing.
    pub fn is_identical(&self) -> (b: bool)
        ensures
            b == self.identical(),
    {
        self.added.len() == 0 && self.missing.len() == 0
    }

    /// This diff is the set difference of `baseline` and `live`.
    pub open spec fn describes(&self, baseline: Seq<String>, live: Seq<String>) -> bool {
        let d = collection_diff_spec(str_views(baseline), str_views(live));
        &&& str_views(self.unchanged@) == d.0
        &&& str_views(self.added@) == d.1
        &&& str_views(self.missing@) == d.2
    }
}

/// Whether `x` equals one of `items[0..end]`.
fn occurs_in(items: &[String], end: usize, x: &String) -> (b: bool)
    requires
        end <= items@.len(),
    ensures
        b == str_views(items@).take(end as int).contains(x@),
{
    let ghost v = str_views(items@).take(end as int);
    let mut k: usize = 0;
    while k < end
        invariant
            end <= items@.len(),
            v == str_views(items@).take(end as int),
            k <= end,
            forall|q: int| 0 <= q < k ==> v[q] != x@,
        decreases end - k,
    {
        if items[k] == *x {
            assert(v[k as int] == x@);
            return true;
        }
        k = k + 1;
    }
    false
}

/// The strings of `items` (first occurrences, in order) whose presence in
/// `other` is `present`.
fn select_strings(items: &[String], other: &[String], present: bool) -> (res: Vec<String>)
    ensures
        str_views(res@) == select(str_views(items@), str_views(other@), present),
{
    let ghost its = str_views(items@);
    let ghost oth = str_views(other@);
    let n = items.len();
    let mut res: Vec<String> = Vec::new();
    let mut i: usize = 0;
    assert(its.take(0) =~= Seq::<Seq<char>>::empty());
    assert(str_views(res@) =~= Seq::<Seq<char>>::empty());
    while i < n
        invariant
            n == items@.len(),
            its == str_views(items@),
            oth == str_views(other@),
            i <= n,
            str_views(res@) == select(its.take(i as int), oth, present),
        decreases n - i,
    {
        let seen = occurs_in(items, i, &items[i]);
        let inside = occurs_in(other, other.len(), &items[i]);
        let ghost next = its.take(i + 1);
        assert(next.drop_last() =~= its.take(i as int));
        assert(next.last() == items@[i as int]@);
        assert(str_views(other@).take(other@.len() as int) =~= oth);
        if !(seen || inside != present) {
            let ghost before = str_views(res@);
            res.push(items[i].clone());
            assert(str_views(res@) =~= before.push(items@[i as int]@));
        }
        i = i + 1;
    }
    assert(its.take(n as int) =~= its);
    res
}

/// Whether every bucket of the two signatures differs by at most one.
pub fn signatures_within_tolerance(expected: &[u64; 6], actual: &[u64; 6]) -> (b: bool)
    ensures
        b == signatures_match(*expected, *actual),
{
    let mut i: usize = 0;
    while i < 6
        invariant
            i <= 6,
            forall|k: int| 0 <= k < i ==> within_one(#[trigger] expected@[k], actual@[k]),
        decreases 6 - i,
    {
        let e = expected[i];
        let a = actual[i];
        let close = if e >= a {
            e - a <= 1
        } else {
            a - e <= 1
        };
        if !close {
            assert(!within_one(expected@[i as int], actual@[i as int]));
            return false;
        }
        i = i + 1;
    }
    true
}

fn copy_opt(o: &Option<String>) -> (res: Option<String>)
    ensures
        opt_view(res) == opt_view(*o),
{
    match o {
        Some(s) => Some(s.clone()),
        None => None,
    }
}

/// Sets of the results of `collection_diff_spec`.
pub proof fn lemma_collection_diff_sets(baseline: Seq<Seq<char>>, live: Seq<Seq<char>>)
    ensures
        elems(collection_diff_spec(baseline, live).0) == elems(baseline).intersect(elems(live)),
        elems(collection_diff_spec(baseline, live).1) == elems(live).difference(elems(baseline)),
        elems(collection_diff_spec(baseline, live).2) == elems(baseline).difference(elems(live)),
        collection_diff_spec(baseline, live).0.no_duplicates(),
        collection_diff_spec(baseline, live).1.no_duplicates(),
        collection_diff_spec(baseline, live).2.no_duplicates(),
        (collection_diff_spec(baseline, live).1.len() == 0 && collection_diff_spec(
            baseline,
            live,
        ).2.len() == 0) <==> elems(baseline) == elems(live),
{
    lemma_select(baseline, live, true);
    lemma_select(live, baseline, false);
    lemma_select(baseline, live, false);
    let d = collection_diff_spec(baseline, live);
    assert(elems(d.0) =~= elems(baseline).intersect(elems(live)));
    assert(elems(d.1) =~= elems(live).difference(elems(baseline)));
    assert(elems(d.2) =~= elems(baseline).difference(elems(live)));
    if d.1.len() == 0 && d.2.len() == 0 {
        assert forall|x: Seq<char>| baseline.contains(x) <==> live.contains(x) by {
            if baseline.contains(x) && !live.contains(x) {
                assert(d.2.contains(x));
            }
            if live.contains(x) && !baseline.contains(x) {
                assert(d.1.contains(x));
            }
        }
        assert(elems(baseline) =~= elems(live));
    }
    if elems(baseline) == elems(live) {
        if d.1.len() > 0 {
            let x = d.1[0];
            assert(d.1.contains(x));
            assert(elems(live).contains(x));
        }
        if d.2.len() > 0 {
            let x = d.2[0];
            assert(d.2.contains(x));
            assert(elems(baseline).contains(x));
        }
    }
}

/// Verification is reflexive: a manifest always matches itself.
pub proof fn lemma_match_reflexive(m: HardwareManifest)
    ensures
        manifests_match(m, m),
{
}

/// Verification is symmetric: swapping baseline and live scan gives the same verdict.
pub proof fn lemma_match_symmetric(a: HardwareManifest, b: HardwareManifest)
    ensures
        manifests_match(a, b) == manifests_match(b, a),
{
    if signatures_match(a.cpu_timing_signature, b.cpu_timing_signature) {
        assert forall|i: int| 0 <= i < 6 implies within_one(
            #[trigger] b.cpu_timing_signature@[i],
            a.cpu_timing_signature@[i],
        ) by {
            assert(within_one(a.cpu_timing_signature@[i], b.cpu_timing_signature@[i]));
        }
    }
    if signatures_match(b.cpu_timing_signature, a.cpu_timing_signature) {
        assert forall|i: int| 0 <= i < 6 implies within_one(
            #[trigger] a.cpu_timing_signature@[i],
            b.cpu_timing_signature@[i],
        ) by {
            assert(within_one(b.cpu_timing_signature@[i], a.cpu_timing_signature@[i]));
        }
    }
}

/// What a collection diff reports as added is exactly what the reverse diff
/// reports as missing, and both directions agree on what is unchanged (as a set).
pub proof fn lemma_diff_reverse(baseline: Seq<Seq<char>>, live: Seq<Seq<char>>)
    ensures
        collection_diff_spec(baseline, live).1 == collection_diff_spec(live, baseline).2,
        collection_diff_spec(baseline, live).2 == collection_diff_spec(live, baseline).1,
        elems(collection_diff_spec(baseline, live).0) == elems(
            collection_diff_spec(live, baseline).0,
        ),
{
    lemma_collection_diff_sets(baseline, live);
    lemma_collection_diff_sets(live, baseline);
    assert(elems(baseline).intersect(elems(live)) =~= elems(live).intersect(elems(baseline)));
}

/// Collections are compared as sets: reordering or repeating identifiers in
/// either collection changes neither which identifiers are reported as
/// unchanged, added or missing, nor the verdict.
pub proof fn lemma_diff_ignores_order_and_repeats(
    baseline: Seq<Seq<char>>,
    live: Seq<Seq<char>>,
    baseline2: Seq<Seq<char>>,
    live2: Seq<Seq<char>>,
)
    requires
        elems(baseline) == elems(baseline2),
        elems(live) == elems(live2),
    ensures
        elems(collection_diff_spec(baseline, live).0) == elems(
            collection_diff_spec(baseline2, live2).0,
        ),
        elems(collection_diff_spec(baseline, live).1) == elems(
            collection_diff_spec(baseline2, live2).1,
        ),
        elems(collection_diff_spec(baseline, live).2) == elems(
            collection_diff_spec(baseline2, live2).2,
        ),
        (collection_diff_spec(baseline, live).1.len() == 0 && collection_diff_spec(
            baseline,
            live,
        ).2.len() == 0) == (collection_diff_spec(baseline2, live2).1.len() == 0
            && collection_diff_spec(baseline2, live2).2.len() == 0),
{
    lemma_collection_diff_sets(baseline, live);
    lemma_collection_diff_sets(baseline2, live2);
}

/// Nothing was added to and nothing is missing from a collection.
pub open spec fn no_added_or_missing(baseline: Seq<Seq<char>>, live: Seq<Seq<char>>) -> bool {
    collection_diff_spec(baseline, live).1.len() == 0 && collection_diff_spec(baseline, live).2.len()
        == 0
}

/// The verdict of verification accounts for every component: a live scan
/// passes exactly when the motherboard serial is the same, every timing
/// bucket moved by at most one, the CPU identity fields are the same, and
/// none of the RAM, drive, GPU and MAC diffs reports an identifier as added or
/// missing. In particular, a live scan in which some MAC address (or RAM,
/// drive, GPU identifier) is present that the baseline lacks, or the other way
/// round, does not pass.
pub proof fn lemma_match_is_every_component_unchanged(a: HardwareManifest, b: HardwareManifest)
    ensures
        manifests_match(a, b) <==> {
            &&& opt_view(a.motherboard_serial) == opt_view(b.motherboard_serial)
            &&& forall|i: int|
                0 <= i < 6 ==> #[trigger] a.cpu_timing_signature@[i] <= b.cpu_timing_signature@[i]
                    + 1 && b.cpu_timing_signature@[i] <= a.cpu_timing_signature@[i] + 1
            &&& a.cpu_info.fields() == b.cpu_info.fields()
            &&& no_added_or_missing(str_views(a.ram_serials@), str_views(b.ram_serials@))
            &&& no_added_or_missing(str_views(a.drive_serials@), str_views(b.drive_serials@))
            &&& no_added_or_missing(str_views(a.gpu_uuids@), str_views(b.gpu_uuids@))
            &&& no_added_or_missing(str_views(a.mac_addresses@), str_views(b.mac_addresses@))
        },
        manifests_match(a, b) ==> forall|x: Seq<char>|
            #![trigger str_views(a.mac_addresses@).contains(x)]
            #![trigger str_views(b.mac_addresses@).contains(x)]
            str_views(a.mac_addresses@).contains(x) <==> str_views(b.mac_addresses@).contains(x),
{
    lemma_collection_diff_sets(str_views(a.ram_serials@), str_views(b.ram_serials@));
    lemma_collection_diff_sets(str_views(a.drive_serials@), str_views(b.drive_serials@));
    lemma_collection_diff_sets(str_views(a.gpu_uuids@), str_views(b.gpu_uuids@));
    lemma_collection_diff_sets(str_views(a.mac_addresses@), str_views(b.mac_addresses@));
    if manifests_match(a, b) {
        assert forall|x: Seq<char>| str_views(a.mac_addresses@).contains(x) <==> str_views(
            b.mac_addresses@,
        ).contains(x) by {
            assert(elems(str_views(a.mac_addresses@)).contains(x) == elems(
                str_views(b.mac_addresses@),
            ).contains(x));
        }
    }
}

/// The timing tolerance accepts every bucket that moved by one and rejects a
/// signature in which some bucket moved by two or more.
pub proof fn lemma_tolerance_bounds(expected: [u64; 6], actual: [u64; 6], i: int)
    requires
        0 <= i < 6,
    ensures
        (expected@[i] >= actual@[i] + 2 || actual@[i] >= expected@[i] + 2) ==> !signatures_match(
            expected,
            actual,
        ),
        (forall|k: int|
            0 <= k < 6 ==> #[trigger] expected@[k] == actual@[k] || expected@[k] == actual@[k] + 1
                || actual@[k] == expected@[k] + 1) ==> signatures_match(expected, actual),
{
    if expected@[i] >= actual@[i] + 2 || actual@[i] >= expected@[i] + 2 {
        assert(!within_one(expected@[i], actual@[i]));
    }
}

impl HardwareManifest {
    /// Compares this baseline manifest with a live manifest to detail all
    /// tampering or changes.
    pub fn compare(&self, live: &HardwareManifest) -> (res: ManifestDiff)
        ensures
            res.motherboard matches DiffStatus::Unchanged <==> opt_view(self.motherboard_serial)
                == opt_view(live.motherboard_serial),
            res.motherboard matches DiffStatus::Modified { expected, actual } ==> opt_view(
                expected,
            ) == opt_view(self.motherboard_serial) && opt_view(actual) == opt_view(
                live.motherboard_serial,
            ),
            res.cpu matches DiffStatus::Unchanged <==> signatures_match(
                self.cpu_timing_signature,
                live.cpu_timing_signature,
            ),
            res.cpu matches DiffStatus::Modified { expected, actual } ==> expected
                == self.cpu_timing_signature && actual == live.cpu_timing_signature,
            res.cpu_info matches DiffStatus::Unchanged <==> self.cpu_info.fields()
                == live.cpu_info.fields(),
            res.cpu_info matches DiffStatus::Modified { expected, actual } ==> expected.fields()
                == self.cpu_info.fields() && actual.fields() == live.cpu_info.fields(),
            res.ram.describes(self.ram_serials@, live.ram_serials@),
            res.drives.describes(self.drive_serials@, live.drive_serials@),
            res.gpus.describes(self.gpu_uuids@, live.gpu_uuids@),
            res.macs.describes(self.mac_addresses@, live.mac_addresses@),
            res.is_identical == manifests_match(*self, *live),
            res.is_identical == (res.motherboard is Unchanged && res.cpu is Unchanged
                && res.cpu_info is Unchanged && res.ram.identical() && res.drives.identical()
                && res.gpus.identical() && res.macs.identical()),
    {
        let mobo_same = match (&self.motherboard_serial, &live.motherboard_serial) {
            (Some(a), Some(b)) => *a == *b,
            (None, None) => true,
            _ => false,
        };
        let mobo_diff = if mobo_same {
            DiffStatus::Unchanged
        } else {
            DiffStatus::Modified {
                expected: copy_opt(&self.motherboard_serial),
                actual: copy_opt(&live.motherboard_serial),
            }
        };

        let cpu_same = signatures_within_tolerance(
            &self.cpu_timing_signature,
            &live.cpu_timing_signature,
        );
        let cpu_diff = if cpu_same {
            DiffStatus::Unchanged
        } else {
            DiffStatus::Modified {
                expected: self.cpu_timing_signature,
                actual: live.cpu_timing_signature,
            }
        };

        let info_same = self.cpu_info.same_as(&live.cpu_info);
        let info_diff = if info_same {
            DiffStatus::Unchanged
        } else {
            DiffStatus::Modified {
                expected: self.cpu_info.duplicate(),
                actual: live.cpu_info.duplicate(),
            }
        };

        let ram_diff = Self::compare_collections(
            self.ram_serials.as_slice(),
            live.ram_serials.as_slice(),
        );
        let drive_diff = Self::compare_collections(
            self.drive_serials.as_slice(),
            live.drive_serials.as_slice(),
        );
        let gpu_diff = Self::compare_collections(
            self.gpu_uuids.as_slice(),
            live.gpu_uuids.as_slice(),
        );
        let mac_diff = Self::compare_collections(
            self.mac_addresses.as_slice(),
            live.mac_addresses.as_slice(),
        );

        let is_identical = mobo_same && cpu_same && info_same && ram_diff.is_identical()
            && drive_diff.is_identical() && gpu_diff.is_identical() && mac_diff.is_identical();

        proof {
            lemma_collection_diff_sets(str_views(self.ram_serials@), str_views(live.ram_serials@));
            lemma_collection_diff_sets(
                str_views(self.drive_serials@),
                str_views(live.drive_serials@),
            );
            lemma_collection_diff_sets(str_views(self.gpu_uuids@), str_views(live.gpu_uuids@));
            lemma_collection_diff_sets(
                str_views(self.mac_addresses@),
                str_views(live.mac_addresses@),
            );
            assert(str_views(ram_diff.added@).len() == ram_diff.added@.len());
            assert(str_views(ram_diff.missing@).len() == ram_diff.missing@.len());
            assert(str_views(drive_diff.added@).len() == drive_diff.added@.len());
            assert(str_views(drive_diff.missing@).len() == drive_diff.missing@.len());
            assert(str_views(gpu_diff.added@).len() == gpu_diff.added@.len());
            assert(str_views(gpu_diff.missing@).len() == gpu_diff.missing@.len());
            assert(str_views(mac_diff.added@).len() == mac_diff.added@.len());
            assert(str_views(mac_diff.missing@).len() == mac_diff.missing@.len());
        }

        ManifestDiff {
            is_identical,
            motherboard: mobo_diff,
            cpu: cpu_diff,
            cpu_info: info_diff,
            ram: ram_diff,
            drives: drive_diff,
            gpus: gpu_diff,
            macs: mac_diff,
        }
    }

    /// Compares two collections of identifiers treating them as sets: what
    /// both hold, what only `live` holds, and what only `baseline` holds. Each
    /// result lists an identifier once, in the order of its first occurrence.
    pub fn compare_collections(baseline: &[String], live: &[String]) -> (res: CollectionDiff)
        ensures
            res.describes(baseline@, live@),
            res.identical() <==> collections_match(baseline@, live@),
    {
        let unchanged = select_strings(baseline, live, true);
        let added = select_strings(live, baseline, false);
        let missing = select_strings(baseline, live, false);
        proof {
            lemma_collection_diff_sets(str_views(baseline@), str_views(live@));
            assert(str_views(added@).len() == added@.len());
            assert(str_views(missing@).len() == missing@.len());
        }
        CollectionDiff { unchanged, added, missing }
    }
}

} // verus!
