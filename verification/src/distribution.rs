//! Cross-core analysis of the CPU fingerprint: the stable signature of each
//! core and the grouping of cores by signature.
use vstd::prelude::*;

use crate::sys_info::timing::{count_of, lemma_count_is_multiplicity, lemma_vote_index_range, vote_index};

verus! {

/// The bucket sequences of a list of signatures.
pub open spec fn sig_views(runs: Seq<[u64; 6]>) -> Seq<Seq<u64>> {
    runs.map_values(|r: [u64; 6]| r@)
}

/// Whether two signatures hold the same six buckets.
pub fn same_signature(a: &[u64; 6], b: &[u64; 6]) -> (r: bool)
    ensures
        r == (a@ == b@),
{
    let mut i: usize = 0;
    while i < 6
        invariant
            i <= 6,
            forall|k: int| 0 <= k < i ==> a@[k] == b@[k],
        decreases 6 - i,
    {
        if a[i] != b[i] {
            return false;
        }
        i = i + 1;
    }
    assert(a@ =~= b@);
    true
}

fn count_signature(runs: &Vec<[u64; 6]>, sig: &[u64; 6]) -> (c: usize)
    ensures
        c == count_of(sig_views(runs@), sig@),
{
    let ghost s = sig_views(runs@);
    let n = runs.len();
    let mut c: usize = 0;
    let mut i: usize = 0;
    assert(s.take(0) =~= Seq::<Seq<u64>>::empty());
    while i < n
        invariant
            n == runs.len(),
            s == sig_views(runs@),
            i <= n,
            c <= i,
            c == count_of(s.take(i as int), sig@),
        decreases n - i,
    {
        assert(s.take(i + 1).drop_last() =~= s.take(i as int));
        if same_signature(&runs[i], sig) {
            c = c + 1;
        }
        i = i + 1;
    }
    assert(s.take(n as int) =~= s);
    c
}

/// The stable signature of one core: the most frequent of its run
/// signatures (the first such in run order on a tie) and how many runs gave
/// it, or all-zero buckets and 0 when there are no runs.
pub fn majority_signature(runs: &Vec<[u64; 6]>) -> (res: ([u64; 6], usize))
    ensures
        runs@.len() == 0 ==> res.0@ == seq![0u64, 0, 0, 0, 0, 0] && res.1 == 0,
        runs@.len() > 0 ==> res.0@ == sig_views(runs@)[vote_index(
            sig_views(runs@),
            runs@.len() as int,
        )] && res.1 == count_of(sig_views(runs@), res.0@),
        res.1 == sig_views(runs@).to_multiset().count(res.0@),
{
    let n = runs.len();
    if n == 0 {
        let z = [0u64; 6];
        assert(z@ =~= seq![0u64, 0, 0, 0, 0, 0]);
        proof {
            lemma_count_is_multiplicity(sig_views(runs@), z@);
        }
        return (z, 0);
    }
    let ghost s = sig_views(runs@);
    let mut best: usize = 0;
    let mut best_count = count_signature(runs, &runs[0]);
    let mut i: usize = 1;
    while i < n
        invariant
            n == runs.len(),
            s == sig_views(runs@),
            1 <= i <= n,
            best < i,
            best == vote_index(s, i as int),
            best_count == count_of(s, s[best as int]),
        decreases n - i,
    {
        let c = count_signature(runs, &runs[i]);
        if c > best_count {
            best = i;
            best_count = c;
        }
        i = i + 1;
    }
    proof {
        lemma_count_is_multiplicity(s, s[best as int]);
    }
    (runs[best], best_count)
}

/// A group of cores sharing a signature: the signature's buckets and the
/// core indices, in the order given.
pub type GroupView = (Seq<u64>, Seq<usize>);

/// Index of the group holding `sig`, searching from `from`.
pub open spec fn find_group(groups: Seq<GroupView>, sig: Seq<u64>, from: int) -> Option<int>
    decreases groups.len() - from,
{
    if from < 0 || from >= groups.len() {
        None
    } else if groups[from].0 == sig {
        Some(from)
    } else {
        find_group(groups, sig, from + 1)
    }
}

/// Groups `(core, signature)` results by signature, groups in order of the
/// first core with each signature, cores in the order given.
pub open spec fn group_fold(results: Seq<(usize, Seq<u64>)>) -> Seq<GroupView>
    decreases results.len(),
{
    if results.len() == 0 {
        Seq::<GroupView>::empty()
    } else {
        let g = group_fold(results.drop_last());
        let r = results.last();
        match find_group(g, r.1, 0) {
            Some(k) => g.update(k, (g[k].0, g[k].1.push(r.0))),
            None => g.push((r.1, seq![r.0])),
        }
    }
}

/// Position at which a group of `size` cores enters a list sorted by
/// decreasing size, after every group at least as large.
pub open spec fn insert_position(sorted: Seq<GroupView>, size: nat, from: int) -> int
    decreases sorted.len() - from,
{
    if from < 0 || from >= sorted.len() {
        sorted.len() as int
    } else if sorted[from].1.len() < size {
        from
    } else {
        insert_position(sorted, size, from + 1)
    }
}

/// The groups ordered by decreasing number of cores; groups of equal size
/// keep their order.
pub open spec fn sort_groups(groups: Seq<GroupView>) -> Seq<GroupView>
    decreases groups.len(),
{
    if groups.len() == 0 {
        Seq::<GroupView>::empty()
    } else {
        let s = sort_groups(groups.drop_last());
        let g = groups.last();
        s.insert(insert_position(s, g.1.len(), 0), g)
    }
}

/// The cross-core summary: cores grouped by signature, largest group first.
pub open spec fn grouping_spec(results: Seq<(usize, Seq<u64>)>) -> Seq<GroupView> {
    sort_groups(group_fold(results))
}

/// A group held at run time.
#[derive(Debug)]
pub struct CoreGroup {
    pub signature: [u64; 6],
    pub cores: Vec<usize>,
}

impl View for CoreGroup {
    type V = GroupView;

    open spec fn view(&self) -> GroupView {
        (self.signature@, self.cores@)
    }
}

/// The views of groups.
pub open spec fn group_views(v: Seq<CoreGroup>) -> Seq<GroupView> {
    v.map_values(|g: CoreGroup| g@)
}

/// The views of per-core results.
pub open spec fn result_views(v: Seq<(usize, [u64; 6])>) -> Seq<(usize, Seq<u64>)> {
    v.map_values(|r: (usize, [u64; 6])| (r.0, r.1@))
}

proof fn lemma_find_group_found(groups: Seq<GroupView>, sig: Seq<u64>, from: int)
    requires
        0 <= from,
    ensures
        find_group(groups, sig, from) matches Some(k) ==> from <= k < groups.len() && groups[k].0
            == sig,
        find_group(groups, sig, from) is None ==> forall|j: int|
            from <= j < groups.len() ==> groups[j].0 != sig,
    decreases groups.len() - from,
{
    if from < groups.len() && groups[from].0 != sig {
        lemma_find_group_found(groups, sig, from + 1);
    }
}

fn find_group_exec(groups: &Vec<CoreGroup>, sig: &[u64; 6]) -> (res: Option<usize>)
    ensures
        match res {
            Some(k) => find_group(group_views(groups@), sig@, 0) == Some(k as int),
            None => find_group(group_views(groups@), sig@, 0) is None,
        },
{
    let ghost g = group_views(groups@);
    let n = groups.len();
    let mut i: usize = 0;
    while i < n
        invariant
            n == groups.len(),
            g == group_views(groups@),
            i <= n,
            find_group(g, sig@, 0) == find_group(g, sig@, i as int),
        decreases n - i,
    {
        if same_signature(&groups[i].signature, sig) {
            return Some(i);
        }
        i = i + 1;
    }
    None
}

fn insert_position_exec(sorted: &Vec<CoreGroup>, size: usize) -> (p: usize)
    ensures
        p as int == insert_position(group_views(sorted@), size as nat, 0),
        p <= sorted.len(),
{
    let ghost g = group_views(sorted@);
    let n = sorted.len();
    let mut i: usize = 0;
    while i < n
        invariant
            n == sorted.len(),
            g == group_views(sorted@),
            i <= n,
            insert_position(g, size as nat, 0) == insert_position(g, size as nat, i as int),
        decreases n - i,
    {
        if sorted[i].cores.len() < size {
            return i;
        }
        i = i + 1;
    }
    i
}

/// Groups the per-core stable signatures by signature, for the cross-core
/// summary: each group lists its cores in the order given, and the groups
/// come largest first (groups of equal size in order of their first core).
pub fn group_cores_by_signature(results: &Vec<(usize, [u64; 6])>) -> (res: Vec<CoreGroup>)
    ensures
        group_views(res@) == grouping_spec(result_views(results@)),
{
    let ghost rs = result_views(results@);
    let n = results.len();
    let mut groups: Vec<CoreGroup> = Vec::new();
    let mut i: usize = 0;
    assert(rs.take(0) =~= Seq::<(usize, Seq<u64>)>::empty());
    assert(group_views(groups@) =~= Seq::<GroupView>::empty());
    while i < n
        invariant
            n == results.len(),
            rs == result_views(results@),
            i <= n,
            group_views(groups@) == group_fold(rs.take(i as int)),
        decreases n - i,
    {
        assert(rs.take(i + 1).drop_last() =~= rs.take(i as int));
        let (core, sig) = results[i];
        assert(rs.take(i + 1).last() == (core, sig@));
        let ghost before = group_views(groups@);
        match find_group_exec(&groups, &sig) {
            Some(k) => {
                proof {
                    lemma_find_group_found(before, sig@, 0);
                }
                let mut taken = groups.remove(k);
                taken.cores.push(core);
                groups.insert(k, taken);
                assert(group_views(groups@) =~= before.update(
                    k as int,
                    (before[k as int].0, before[k as int].1.push(core)),
                ));
            },
            None => {
                let mut cores: Vec<usize> = Vec::new();
                cores.push(core);
                let g = CoreGroup { signature: sig, cores };
                assert(g@ == (sig@, seq![core]));
                groups.push(g);
                assert(group_views(groups@) =~= before.push((sig@, seq![core])));
            },
        }
        i = i + 1;
    }
    assert(rs.take(n as int) =~= rs);
    let ghost folded = group_views(groups@);
    let m = groups.len();
    let mut sorted: Vec<CoreGroup> = Vec::new();
    let mut rest = groups;
    assert(folded.take(0) =~= Seq::<GroupView>::empty());
    assert(group_views(sorted@) =~= Seq::<GroupView>::empty());
    assert(group_views(rest@) =~= folded.skip(0));
    let mut j: usize = 0;
    while j < m
        invariant
            m == folded.len(),
            j <= m,
            rest@.len() == m - j,
            group_views(rest@) == folded.skip(j as int),
            group_views(sorted@) == sort_groups(folded.take(j as int)),
        decreases m - j,
    {
        let ghost rv = group_views(rest@);
        let ghost raw = rest@;
        let g = rest.remove(0);
        assert(rest@ == raw.remove(0));
        assert(group_views(rest@) =~= rv.remove(0));
        assert(g@ == rv[0]);
        assert(g@ == folded[j as int]);
        assert(group_views(rest@) =~= folded.skip(j + 1));
        assert(folded.take(j + 1).drop_last() =~= folded.take(j as int));
        let p = insert_position_exec(&sorted, g.cores.len());
        let ghost sv = group_views(sorted@);
        let ghost gv = g@;
        sorted.insert(p, g);
        assert(group_views(sorted@) =~= sv.insert(p as int, gv));
        j = j + 1;
    }
    assert(folded.take(m as int) =~= folded);
    sorted
}

/// Group sizes never increase along the list.
pub open spec fn largest_first(s: Seq<GroupView>) -> bool {
    forall|a: int, b: int| #![trigger s[a], s[b]] 0 <= a < b < s.len() ==> s[b].1.len() <= s[a].1.len()
}

/// Inserting at `insert_position` keeps a list ordered by decreasing size.
proof fn lemma_insert_keeps_order(s: Seq<GroupView>, g: GroupView)
    requires
        largest_first(s),
    ensures
        largest_first(s.insert(insert_position(s, g.1.len(), 0), g)),
{
    let p = insert_position(s, g.1.len(), 0);
    lemma_insert_position(s, g.1.len(), 0);
    let t = s.insert(p, g);
    assert forall|a: int, b: int| #![trigger t[a], t[b]] 0 <= a < b < t.len() implies t[b].1.len()
        <= t[a].1.len() by {
        if b < p {
        } else if b == p {
            assert(t[a] == s[a]);
        } else if a < p {
            assert(t[b] == s[b - 1]);
            assert(t[a] == s[a]);
        } else if a == p {
            assert(t[b] == s[b - 1]);
            if p < s.len() {
                assert(s[b - 1].1.len() <= s[p].1.len());
            }
        } else {
            assert(t[a] == s[a - 1]);
            assert(t[b] == s[b - 1]);
        }
    }
}

/// `insert_position` lands after every group at least as large and before
/// the first smaller one.
proof fn lemma_insert_position(s: Seq<GroupView>, size: nat, from: int)
    requires
        0 <= from <= s.len(),
    ensures
        from <= insert_position(s, size, from) <= s.len(),
        forall|k: int| from <= k < insert_position(s, size, from) ==> #[trigger] s[k].1.len() >= size,
        insert_position(s, size, from) < s.len() ==> s[insert_position(s, size, from)].1.len() < size,
    decreases s.len() - from,
{
    if from < s.len() && s[from].1.len() >= size {
        lemma_insert_position(s, size, from + 1);
    }
}

/// The cross-core summary lists the largest group first: group sizes never
/// increase along the list.
pub proof fn lemma_groups_largest_first(results: Seq<(usize, Seq<u64>)>)
    ensures
        largest_first(grouping_spec(results)),
{
    lemma_sort_groups_ordered(group_fold(results));
}

proof fn lemma_sort_groups_ordered(groups: Seq<GroupView>)
    ensures
        largest_first(sort_groups(groups)),
    decreases groups.len(),
{
    if groups.len() > 0 {
        lemma_sort_groups_ordered(groups.drop_last());
        lemma_insert_keeps_order(sort_groups(groups.drop_last()), groups.last());
    }
}

/// Every core lands in a group with its signature: after grouping, each
/// result's core is listed in the (unique) group whose signature is the
/// result's signature, and no two groups share a signature.
pub proof fn lemma_group_fold_membership(results: Seq<(usize, Seq<u64>)>)
    ensures
        forall|a: int, b: int|
            0 <= a < b < group_fold(results).len() ==> #[trigger] group_fold(results)[a].0
                != #[trigger] group_fold(results)[b].0,
        forall|i: int|
            0 <= i < results.len() ==> exists|k: int|
                0 <= k < group_fold(results).len() && group_fold(results)[k].0 == (
                #[trigger] results[i]).1 && group_fold(results)[k].1.contains(results[i].0),
    decreases results.len(),
{
    if results.len() > 0 {
        let init = results.drop_last();
        let g = group_fold(init);
        let r = results.last();
        lemma_group_fold_membership(init);
        lemma_find_group_found(g, r.1, 0);
        let h = group_fold(results);
        assert forall|i: int| 0 <= i < results.len() implies exists|k: int|
            0 <= k < h.len() && h[k].0 == (#[trigger] results[i]).1 && h[k].1.contains(
                results[i].0,
            ) by {
            if i < results.len() - 1 {
                assert(init[i] == results[i]);
                let k = choose|k: int|
                    0 <= k < g.len() && g[k].0 == (#[trigger] init[i]).1 && g[k].1.contains(
                        init[i].0,
                    );
                assert(h[k].0 == g[k].0);
                let q = choose|q: int| 0 <= q < g[k].1.len() && g[k].1[q] == init[i].0;
                assert(h[k].1[q] == init[i].0);
            } else {
                match find_group(g, r.1, 0) {
                    Some(k) => {
                        assert(h[k].1[h[k].1.len() - 1] == r.0);
                    },
                    None => {
                        assert(h[g.len() as int].1[0] == r.0);
                    },
                }
            }
        }
    }
}

} // verus!
