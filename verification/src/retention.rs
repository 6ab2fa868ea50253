//! The retention policy: single survivor per category.
//!
//! Given one category's group of records, the survivor is the record with
//! the greatest creation time, ties broken deterministically towards the
//! lexicographically greatest id (and, among records that tie on both, the
//! earliest listed). Every other record is selected for removal — except
//! those whose id stands in the caller-supplied protected list, which are
//! silently preserved. Pure decision logic; no I/O.

use vstd::prelude::*;

use crate::inventory::{ContainerRecord, RecordModel};
use crate::text::{lex_lt, lemma_lex_lt_connected, lemma_lex_lt_trans, str_lex_lt};

verus! {

/// `a` strictly precedes `b` under the retention order: newer creation
/// time, or equal creation time and lexicographically greater id.
pub open spec fn strict_beats(a: RecordModel, b: RecordModel) -> bool {
    ||| a.created > b.created
    ||| (a.created == b.created && lex_lt(b.id, a.id))
}

/// `a` ranks at least as high as `b`: strictly, or tied on both keys.
pub open spec fn beats_eq(a: RecordModel, b: RecordModel) -> bool {
    ||| strict_beats(a, b)
    ||| (a.created == b.created && a.id == b.id)
}

/// The id stands in the protected list.
pub open spec fn is_protected(id: Seq<char>, prot: Seq<Seq<char>>) -> bool {
    exists|k: int| 0 <= k < prot.len() && prot[k] == id
}

/// `s` is the survivor of `g`: in bounds, ranking at least as high as every
/// record, and the earliest among records tied with it on both keys.
pub open spec fn valid_survivor(g: Seq<RecordModel>, s: int) -> bool {
    &&& 0 <= s < g.len()
    &&& forall|j: int| 0 <= j < g.len() ==> beats_eq(g[s], #[trigger] g[j])
    &&& forall|j: int| 0 <= j < s ==> strict_beats(g[s], #[trigger] g[j])
}

/// `j` must be removed: in the group, not the survivor, not protected.
pub open spec fn removal_candidate(
    g: Seq<RecordModel>,
    prot: Seq<Seq<char>>,
    s: int,
    j: int,
) -> bool {
    0 <= j < g.len() && j != s && !is_protected(g[j].id, prot)
}

/// `rem` lists, in increasing order, exactly the indices that must be
/// removed once `s` is the survivor.
pub open spec fn valid_removals(
    g: Seq<RecordModel>,
    prot: Seq<Seq<char>>,
    s: int,
    rem: Seq<int>,
) -> bool {
    &&& forall|k: int| 0 <= k < rem.len() ==> removal_candidate(g, prot, s, #[trigger] rem[k])
    &&& forall|k1: int, k2: int| 0 <= k1 < k2 < rem.len() ==> #[trigger] rem[k1] < #[trigger] rem[k2]
    &&& forall|j: int| removal_candidate(g, prot, s, j) ==> #[trigger] rem.contains(j)
}

/// A complete reconciliation decision for one category group.
pub open spec fn valid_plan(
    g: Seq<RecordModel>,
    prot: Seq<Seq<char>>,
    s: int,
    rem: Seq<int>,
) -> bool {
    valid_survivor(g, s) && valid_removals(g, prot, s, rem)
}

/// A sequence of executable indices, as mathematical integers.
pub open spec fn as_ints(v: Seq<usize>) -> Seq<int> {
    v.map_values(|x: usize| x as int)
}

/// Strict ranking carries through a tie-or-better: whatever `b` outranks,
/// anything strictly above `b` outranks strictly.
proof fn lemma_strict_beats_trans(a: RecordModel, b: RecordModel, c: RecordModel)
    requires
        strict_beats(a, b),
        beats_eq(b, c),
    ensures
        strict_beats(a, c),
{
    if a.created == b.created && b.created == c.created && lex_lt(b.id, a.id) && lex_lt(
        c.id,
        b.id,
    ) {
        lemma_lex_lt_trans(c.id, b.id, a.id);
    }
}

/// The retention order is total: two records are always comparable.
proof fn lemma_beats_total(a: RecordModel, b: RecordModel)
    requires
        !strict_beats(a, b),
    ensures
        beats_eq(b, a),
{
    if a.created == b.created {
        if !lex_lt(b.id, a.id) && !lex_lt(a.id, b.id) {
            lemma_lex_lt_connected(a.id, b.id);
        }
    }
}

/// Records ranked equal in both directions tie on both keys; in particular
/// they carry the same id, so they share one protection status.
pub proof fn lemma_mutual_beats_same_keys(a: RecordModel, b: RecordModel)
    requires
        beats_eq(a, b),
        beats_eq(b, a),
    ensures
        a.created == b.created,
        a.id == b.id,
{
    if lex_lt(a.id, b.id) && lex_lt(b.id, a.id) {
        lemma_lex_lt_trans(a.id, b.id, a.id);
        lemma_lex_lt_irrefl(a.id);
    }
}

proof fn lemma_lex_lt_irrefl(a: Seq<char>)
    ensures
        !lex_lt(a, a),
    decreases a.len(),
{
    if a.len() > 0 {
        lemma_lex_lt_irrefl(a.skip(1));
    }
}

/// Does `a` strictly precede `b` under the retention order?
fn record_strictly_beats(a: &ContainerRecord, b: &ContainerRecord) -> (r: bool)
    ensures
        r == strict_beats(a@, b@),
{
    if a.created > b.created {
        true
    } else if a.created == b.created {
        str_lex_lt(b.id.as_str(), a.id.as_str())
    } else {
        false
    }
}

/// Select the survivor of a non-empty group: the record with the greatest
/// creation time, ties towards the lexicographically greatest id, then the
/// earliest listed.
pub fn select_survivor_index(group: &Vec<ContainerRecord>) -> (s: usize)
    requires
        group.len() > 0,
    ensures
        valid_survivor(group.deep_view(), s as int),
{
    let ghost g = group.deep_view();
    let mut best: usize = 0;
    let mut i: usize = 1;
    while i < group.len()
        invariant
            g == group.deep_view(),
            g.len() == group.len(),
            best < i <= group.len(),
            forall|j: int| 0 <= j < i ==> beats_eq(g[best as int], #[trigger] g[j]),
            forall|j: int| 0 <= j < best ==> strict_beats(g[best as int], #[trigger] g[j]),
        decreases group.len() - i,
    {
        if record_strictly_beats(&group[i], &group[best]) {
            proof {
                assert forall|j: int| 0 <= j < i implies strict_beats(
                    g[i as int],
                    #[trigger] g[j],
                ) by {
                    lemma_strict_beats_trans(g[i as int], g[best as int], g[j]);
                }
            }
            best = i;
        } else {
            proof {
                lemma_beats_total(g[i as int], g[best as int]);
            }
        }
        i += 1;
    }
    best
}

/// Is this id on the protected list?
fn id_is_protected(id: &String, protected: &Vec<String>) -> (r: bool)
    ensures
        r == is_protected(id@, protected.deep_view()),
{
    let ghost prot = protected.deep_view();
    let mut k: usize = 0;
    while k < protected.len()
        invariant
            prot == protected.deep_view(),
            prot.len() == protected.len(),
            k <= protected.len(),
            forall|j: int| 0 <= j < k ==> prot[j] != id@,
        decreases protected.len() - k,
    {
        if protected[k].eq(id) {
            proof {
                assert(prot[k as int] == id@);
            }
            return true;
        }
        k += 1;
    }
    false
}

/// List, in increasing order, the indices of the group that must be
/// removed: everything but the survivor, excluding protected ids.
pub fn removal_indices(
    group: &Vec<ContainerRecord>,
    protected: &Vec<String>,
    survivor: usize,
) -> (rem: Vec<usize>)
    requires
        (survivor as int) < group.deep_view().len(),
    ensures
        valid_removals(
            group.deep_view(),
            protected.deep_view(),
            survivor as int,
            as_ints(rem@),
        ),
{
    let ghost g = group.deep_view();
    let ghost prot = protected.deep_view();
    let mut rem: Vec<usize> = Vec::new();
    let mut j: usize = 0;
    while j < group.len()
        invariant
            g == group.deep_view(),
            prot == protected.deep_view(),
            g.len() == group.len(),
            j <= group.len(),
            forall|k: int| 0 <= k < as_ints(rem@).len() ==> removal_candidate(
                g,
                prot,
                survivor as int,
                #[trigger] as_ints(rem@)[k],
            ) && as_ints(rem@)[k] < j,
            forall|k1: int, k2: int| 0 <= k1 < k2 < as_ints(rem@).len() ==> #[trigger] as_ints(
                rem@,
            )[k1] < #[trigger] as_ints(rem@)[k2],
            forall|i: int| 0 <= i < j && removal_candidate(g, prot, survivor as int, i)
                ==> #[trigger] as_ints(rem@).contains(i),
        decreases group.len() - j,
    {
        let is_surv = j == survivor;
        if !is_surv && !id_is_protected(&group[j].id, protected) {
            let ghost old_rem = rem@;
            rem.push(j);
            proof {
                assert(rem@ =~= old_rem.push(j));
                assert(as_ints(rem@) =~= as_ints(old_rem).push(j as int));
                assert forall|i: int|
                    0 <= i < j + 1 && removal_candidate(g, prot, survivor as int, i)
                    implies #[trigger] as_ints(rem@).contains(i) by {
                    if i < j {
                        assert(as_ints(old_rem).contains(i));
                        let k = choose|k: int|
                            0 <= k < as_ints(old_rem).len() && as_ints(old_rem)[k] == i;
                        assert(as_ints(rem@)[k] == i);
                    } else {
                        assert(as_ints(rem@)[as_ints(rem@).len() - 1] == i);
                    }
                }
            }
        } else {
            proof {
                assert forall|i: int|
                    0 <= i < j + 1 && removal_candidate(g, prot, survivor as int, i)
                    implies #[trigger] as_ints(rem@).contains(i) by {
                }
            }
        }
        j += 1;
    }
    rem
}

/// A record whose id is protected is never part of the removal set,
/// regardless of its creation time.
pub proof fn lemma_protected_never_removed(
    g: Seq<RecordModel>,
    prot: Seq<Seq<char>>,
    s: int,
    rem: Seq<int>,
    j: int,
)
    requires
        valid_plan(g, prot, s, rem),
        0 <= j < g.len(),
        is_protected(g[j].id, prot),
    ensures
        !rem.contains(j),
{
    if rem.contains(j) {
        let k = choose|k: int| 0 <= k < rem.len() && rem[k] == j;
        assert(removal_candidate(g, prot, s, rem[k]));
    }
}

/// After a pass, at most one unprotected record of the group survives: any
/// two indices that are neither removed nor protected are the same index,
/// namely the survivor's.
pub proof fn lemma_at_most_one_survivor(
    g: Seq<RecordModel>,
    prot: Seq<Seq<char>>,
    s: int,
    rem: Seq<int>,
    j1: int,
    j2: int,
)
    requires
        valid_plan(g, prot, s, rem),
        0 <= j1 < g.len(),
        0 <= j2 < g.len(),
        !rem.contains(j1),
        !rem.contains(j2),
        !is_protected(g[j1].id, prot),
        !is_protected(g[j2].id, prot),
    ensures
        j1 == j2 && j1 == s,
{
    assert(!removal_candidate(g, prot, s, j1));
    assert(!removal_candidate(g, prot, s, j2));
}

proof fn lemma_sorted_same_membership(a: Seq<int>, b: Seq<int>)
    requires
        forall|k1: int, k2: int| 0 <= k1 < k2 < a.len() ==> #[trigger] a[k1] < #[trigger] a[k2],
        forall|k1: int, k2: int| 0 <= k1 < k2 < b.len() ==> #[trigger] b[k1] < #[trigger] b[k2],
        forall|x: int|
            #![trigger a.contains(x)]
            #![trigger b.contains(x)]
            a.contains(x) <==> b.contains(x),
    ensures
        a == b,
    decreases a.len(),
{
    if a.len() == 0 {
        if b.len() > 0 {
            assert(b.contains(b[0]));
        }
        assert(a =~= b);
    } else {
        assert(a.contains(a.last()));
        assert(b.len() > 0);
        let ka = choose|k: int| 0 <= k < b.len() && b[k] == a.last();
        assert(b.last() >= a.last());
        assert(b.contains(b.last()));
        let kb = choose|k: int| 0 <= k < a.len() && a[k] == b.last();
        assert(a.last() >= b.last());
        assert(a.last() == b.last());
        assert forall|x: int|
            #![trigger a.drop_last().contains(x)]
            #![trigger b.drop_last().contains(x)]
            a.drop_last().contains(x) <==> b.drop_last().contains(x) by {
            lemma_drop_last_membership(a, x);
            lemma_drop_last_membership(b, x);
        }
        lemma_sorted_same_membership(a.drop_last(), b.drop_last());
        assert(a =~= a.drop_last().push(a.last()));
        assert(b =~= b.drop_last().push(b.last()));
    }
}

proof fn lemma_drop_last_membership(a: Seq<int>, x: int)
    requires
        a.len() > 0,
        forall|k1: int, k2: int| 0 <= k1 < k2 < a.len() ==> #[trigger] a[k1] < #[trigger] a[k2],
    ensures
        a.drop_last().contains(x) <==> (a.contains(x) && x < a.last()),
{
    if a.drop_last().contains(x) {
        let k = choose|k: int| 0 <= k < a.drop_last().len() && a.drop_last()[k] == x;
        assert(a[k] == x);
        assert(a.contains(x));
    }
    if a.contains(x) && x < a.last() {
        let k = choose|k: int| 0 <= k < a.len() && a[k] == x;
        assert(k != a.len() - 1);
        assert(a.drop_last()[k] == x);
        assert(a.drop_last().contains(x));
    }
}

/// The reconciliation decision is unique: the plan predicate pins both the
/// survivor and the removal set, so the outcome is a function of the group
/// and the protected list alone — independent, in particular, of anything
/// else a tick does.
pub proof fn lemma_plan_unique(
    g: Seq<RecordModel>,
    prot: Seq<Seq<char>>,
    s1: int,
    rem1: Seq<int>,
    s2: int,
    rem2: Seq<int>,
)
    requires
        valid_plan(g, prot, s1, rem1),
        valid_plan(g, prot, s2, rem2),
    ensures
        s1 == s2,
        rem1 == rem2,
{
    if s1 < s2 {
        assert(strict_beats(g[s2], g[s1]));
        assert(beats_eq(g[s1], g[s2]));
        lemma_mutual_beats_same_keys(g[s1], g[s2]);
        lemma_lex_lt_irrefl(g[s1].id);
    }
    if s2 < s1 {
        assert(strict_beats(g[s1], g[s2]));
        assert(beats_eq(g[s2], g[s1]));
        lemma_mutual_beats_same_keys(g[s1], g[s2]);
        lemma_lex_lt_irrefl(g[s1].id);
    }
    assert forall|x: int|
        #![trigger rem1.contains(x)]
        #![trigger rem2.contains(x)]
        rem1.contains(x) <==> rem2.contains(x) by {
        if rem1.contains(x) {
            let k = choose|k: int| 0 <= k < rem1.len() && rem1[k] == x;
            assert(removal_candidate(g, prot, s1, rem1[k]));
        }
        if rem2.contains(x) {
            let k = choose|k: int| 0 <= k < rem2.len() && rem2[k] == x;
            assert(removal_candidate(g, prot, s2, rem2[k]));
        }
    }
    lemma_sorted_same_membership(rem1, rem2);
}

/// Reconciliation is idempotent: run a pass, keep what it did not remove
/// (in listing order, witnessed by the index map `m`), and a second pass
/// over the survivors removes nothing.
pub proof fn lemma_reconcile_idempotent(
    g: Seq<RecordModel>,
    prot: Seq<Seq<char>>,
    s: int,
    rem: Seq<int>,
    g2: Seq<RecordModel>,
    m: Seq<int>,
    s2: int,
    rem2: Seq<int>,
)
    requires
        valid_plan(g, prot, s, rem),
        m.len() == g2.len(),
        forall|p: int| 0 <= p < m.len() ==> 0 <= #[trigger] m[p] < g.len() && !rem.contains(
            m[p],
        ) && g2[p] == g[m[p]],
        forall|p1: int, p2: int| 0 <= p1 < p2 < m.len() ==> #[trigger] m[p1] < #[trigger] m[p2],
        valid_plan(g2, prot, s2, rem2),
    ensures
        rem2.len() == 0,
{
    if rem2.len() > 0 {
        let j2 = rem2[0];
        assert(removal_candidate(g2, prot, s2, j2));
        let jj = m[j2];
        assert(g2[j2] == g[jj]);
        assert(!is_protected(g[jj].id, prot));
        assert(!removal_candidate(g, prot, s, jj));
        assert(jj == s);
        let ss = m[s2];
        assert(g2[s2] == g[ss]);
        assert(beats_eq(g2[s2], g2[j2]));
        assert(beats_eq(g[s], g[ss]));
        lemma_mutual_beats_same_keys(g[ss], g[s]);
        assert(!is_protected(g[ss].id, prot));
        assert(!removal_candidate(g, prot, s, ss));
        assert(ss == s);
        if j2 < s2 {
            assert(m[j2] < m[s2]);
        } else {
            assert(s2 < j2);
            assert(m[s2] < m[j2]);
        }
    }
}

/// The records standing at the given indices, in order.
pub open spec fn records_at(g: Seq<RecordModel>, idx: Seq<int>) -> Seq<RecordModel> {
    idx.map_values(|i: int| g[i])
}

/// The indices below `n` that are not in `rem`, in increasing order: the
/// positions a pass with removal set `rem` leaves standing.
pub open spec fn kept_indices(n: int, rem: Seq<int>) -> Seq<int>
    decreases n,
{
    if n <= 0 {
        Seq::<int>::empty()
    } else {
        let rest = kept_indices(n - 1, rem);
        if rem.contains(n - 1) {
            rest
        } else {
            rest.push(n - 1)
        }
    }
}

proof fn lemma_kept_indices_props(n: int, rem: Seq<int>)
    ensures
        forall|p: int| 0 <= p < kept_indices(n, rem).len() ==> 0 <= #[trigger] kept_indices(
            n,
            rem,
        )[p] < n && !rem.contains(kept_indices(n, rem)[p]),
        forall|p1: int, p2: int| 0 <= p1 < p2 < kept_indices(n, rem).len()
            ==> #[trigger] kept_indices(n, rem)[p1] < #[trigger] kept_indices(n, rem)[p2],
    decreases n,
{
    if n > 0 {
        lemma_kept_indices_props(n - 1, rem);
        let rest = kept_indices(n - 1, rem);
        let cur = kept_indices(n, rem);
        if !rem.contains(n - 1) {
            assert(cur == rest.push(n - 1));
            assert forall|p: int| 0 <= p < cur.len() implies 0 <= #[trigger] cur[p] < n
                && !rem.contains(cur[p]) by {
                if p < rest.len() {
                    assert(cur[p] == rest[p]);
                } else {
                    assert(cur[p] == n - 1);
                }
            }
            assert forall|p1: int, p2: int| 0 <= p1 < p2 < cur.len() implies #[trigger] cur[p1]
                < #[trigger] cur[p2] by {
                if p2 < rest.len() {
                    assert(cur[p1] == rest[p1] && cur[p2] == rest[p2]);
                } else {
                    assert(cur[p2] == n - 1);
                    assert(cur[p1] == rest[p1] && rest[p1] < n - 1);
                }
            }
        }
    }
}

/// What a pass leaves standing: the group's records at the kept indices.
pub open spec fn remaining_records(g: Seq<RecordModel>, rem: Seq<int>) -> Seq<RecordModel> {
    records_at(g, kept_indices(g.len() as int, rem))
}

/// Reconciliation is idempotent, stated over what a pass leaves standing:
/// a second pass over the remaining records, under the same protected
/// list, removes nothing.
pub proof fn lemma_second_pass_removes_nothing(
    g: Seq<RecordModel>,
    prot: Seq<Seq<char>>,
    s: int,
    rem: Seq<int>,
    s2: int,
    rem2: Seq<int>,
)
    requires
        valid_plan(g, prot, s, rem),
        valid_plan(remaining_records(g, rem), prot, s2, rem2),
    ensures
        rem2.len() == 0,
{
    let m = kept_indices(g.len() as int, rem);
    lemma_kept_indices_props(g.len() as int, rem);
    let g2 = remaining_records(g, rem);
    assert(g2.len() == m.len());
    assert(forall|p: int| 0 <= p < m.len() ==> #[trigger] g2[p] == g[m[p]]);
    lemma_reconcile_idempotent(g, prot, s, rem, g2, m, s2, rem2);
}

/// One category's reconciliation decision: the surviving record and the
/// records to remove, with the indices the decision was made over.
pub struct GroupPlan {
    /// Index of the survivor in the group; `None` exactly for an empty group.
    pub survivor_index: Option<usize>,
    /// Indices of the records to remove, increasing.
    pub removal_indices: Vec<usize>,
    /// Owned copies of the records to remove, in index order.
    pub removals: Vec<ContainerRecord>,
}

/// The plan `p` is the reconciliation decision for the group `g` under the
/// protected list `prot`: a survivor exactly when the group is non-empty, a
/// valid removal index set for that survivor, and the removal records drawn
/// from the group at those indices, in order.
pub open spec fn plan_decides(p: GroupPlan, g: Seq<RecordModel>, prot: Seq<Seq<char>>) -> bool {
    &&& (p.survivor_index is Some <==> g.len() > 0)
    &&& (g.len() == 0 ==> p.removal_indices@.len() == 0 && p.removals@.len() == 0)
    &&& (p.survivor_index matches Some(s) ==> valid_plan(g, prot, s as int, as_ints(p.removal_indices@)))
    &&& p.removals.deep_view() == records_at(g, as_ints(p.removal_indices@))
}

/// Decide one category group: survivor plus removal set, sparing protected
/// ids. An empty group yields an empty plan.
pub fn plan_group(group: &Vec<ContainerRecord>, protected: &Vec<String>) -> (p: GroupPlan)
    ensures
        plan_decides(p, group.deep_view(), protected.deep_view()),
{
    if group.len() == 0 {
        let p = GroupPlan {
            survivor_index: None,
            removal_indices: Vec::new(),
            removals: Vec::new(),
        };
        proof {
            assert(p.removals.deep_view() =~= records_at(
                group.deep_view(),
                as_ints(p.removal_indices@),
            ));
        }
        return p;
    }
    let s = select_survivor_index(group);
    let rem = removal_indices(group, protected, s);
    let ghost g = group.deep_view();
    proof {
        assert forall|k2: int| 0 <= k2 < rem@.len() implies 0 <= #[trigger] rem@[k2]
            < g.len() by {
            assert(as_ints(rem@)[k2] == rem@[k2] as int);
            assert(removal_candidate(g, protected.deep_view(), s as int, as_ints(rem@)[k2]));
        }
        assert(records_at(g, as_ints(rem@).take(0)) =~= Seq::<RecordModel>::empty());
    }
    let mut removals: Vec<ContainerRecord> = Vec::new();
    let mut k: usize = 0;
    while k < rem.len()
        invariant
            g == group.deep_view(),
            g.len() == group.len(),
            k <= rem.len(),
            forall|k2: int| 0 <= k2 < rem@.len() ==> 0 <= #[trigger] rem@[k2] < g.len(),
            removals.deep_view() == records_at(g, as_ints(rem@).take(k as int)),
        decreases rem.len() - k,
    {
        let idx = rem[k];
        let ghost old_removals = removals.deep_view();
        removals.push(group[idx].duplicate());
        proof {
            assert(removals.deep_view() =~= old_removals.push(g[rem@[k as int] as int]));
            assert(as_ints(rem@).take(k + 1).drop_last() =~= as_ints(rem@).take(k as int));
            assert(records_at(g, as_ints(rem@).take(k + 1)) =~= records_at(
                g,
                as_ints(rem@).take(k as int),
            ).push(g[rem@[k as int] as int]));
        }
        k += 1;
    }
    proof {
        assert(as_ints(rem@).take(rem@.len() as int) =~= as_ints(rem@));
    }
    GroupPlan { survivor_index: Some(s), removal_indices: rem, removals }
}

} // verus!
