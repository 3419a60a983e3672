use vstd::prelude::*;
use crate::fingerprint::{Token, same_fingerprint};
use crate::registry::Registry;
use crate::type_checker::FoundType;

verus! {

/// How two declarations of one name relate.
#[derive(PartialEq, Eq, Structural, Clone, Copy, Debug)]
pub enum Classification {
    /// Same name, same shape: the two could be merged into one declaration.
    IdenticalShape,
    /// Same name, different shapes: the name is ambiguous.
    NameCollision,
}

/// A pair of declarations of one name: the `first`-th and the `second`-th
/// occurrence of the registry's `group`-th name.
#[derive(PartialEq, Eq, Structural, Clone, Copy, Debug)]
pub struct DuplicateFinding {
    pub group: usize,
    pub first: usize,
    pub second: usize,
    pub classification: Classification,
}

pub open spec fn classify(a: Seq<Token>, b: Seq<Token>) -> Classification {
    if a == b {
        Classification::IdenticalShape
    } else {
        Classification::NameCollision
    }
}

pub open spec fn finding_of(g: int, occ: Seq<FoundType>, i: int, j: int) -> DuplicateFinding {
    DuplicateFinding {
        group: g as usize,
        first: i as usize,
        second: j as usize,
        classification: classify(occ[i].body@, occ[j].body@),
    }
}

/// The pairs `(i, m)` for `i < m < j`, in increasing `m`.
pub open spec fn row_findings(g: int, occ: Seq<FoundType>, i: int, j: int) -> Seq<
    DuplicateFinding,
>
    decreases j - i,
{
    if j <= i + 1 {
        Seq::empty()
    } else {
        row_findings(g, occ, i, j - 1).push(finding_of(g, occ, i, j - 1))
    }
}

/// The rows of the first `i` occurrences.
pub open spec fn rows_upto(g: int, occ: Seq<FoundType>, i: int) -> Seq<DuplicateFinding>
    decreases i,
{
    if i <= 0 {
        Seq::empty()
    } else {
        rows_upto(g, occ, i - 1) + row_findings(g, occ, i - 1, occ.len() as int)
    }
}

/// Every pair `i < j` of the occurrences of one name, ordered by `i`, then `j`.
pub open spec fn group_findings(g: int, occ: Seq<FoundType>) -> Seq<DuplicateFinding> {
    rows_upto(g, occ, occ.len() as int)
}

/// The findings of the first `n` names of the registry.
pub open spec fn findings_upto(reg: Registry, n: int) -> Seq<DuplicateFinding>
    decreases n,
{
    if n <= 0 {
        Seq::empty()
    } else {
        findings_upto(reg, n - 1) + group_findings(n - 1, reg.spec_group(n - 1))
    }
}

/// The findings of a registry: the names in first-seen order, each with all its pairs.
pub open spec fn all_findings(reg: Registry) -> Seq<DuplicateFinding> {
    findings_upto(reg, reg.spec_names().len() as int)
}

pub open spec fn count_class(f: Seq<DuplicateFinding>, c: Classification) -> nat
    decreases f.len(),
{
    if f.len() == 0 {
        0
    } else {
        count_class(f.subrange(0, f.len() - 1), c) + if f[f.len() - 1].classification == c {
            1nat
        } else {
            0nat
        }
    }
}

/// Some finding of `f` pairs the `i`-th occurrence with the `j`-th.
pub open spec fn has_pair(f: Seq<DuplicateFinding>, i: int, j: int) -> bool {
    exists|m: int| 0 <= m < f.len() && f[m].first == i && f[m].second == j
}

proof fn lemma_row(g: int, occ: Seq<FoundType>, i: int, j: int)
    ensures
        row_findings(g, occ, i, j).len() == if j > i + 1 {
            j - i - 1
        } else {
            0
        },
        forall|m: int|
            0 <= m < row_findings(g, occ, i, j).len() ==> #[trigger] row_findings(g, occ, i, j)[m]
                == finding_of(g, occ, i, i + 1 + m),
    decreases j - i,
{
    if j > i + 1 {
        lemma_row(g, occ, i, j - 1);
    }
}

proof fn lemma_rows_upto(g: int, occ: Seq<FoundType>, i: int)
    requires
        0 <= g <= usize::MAX,
        occ.len() <= usize::MAX,
        0 <= i <= occ.len(),
    ensures
        2 * rows_upto(g, occ, i).len() == i * (2 * occ.len() - i - 1),
        forall|m: int|
            #![trigger rows_upto(g, occ, i)[m]]
            0 <= m < rows_upto(g, occ, i).len() ==> {
                let f = rows_upto(g, occ, i)[m];
                &&& f.first < i
                &&& f.first < f.second < occ.len()
                &&& f == finding_of(g, occ, f.first as int, f.second as int)
            },
        forall|m1: int, m2: int|
            0 <= m1 < rows_upto(g, occ, i).len() && 0 <= m2 < rows_upto(g, occ, i).len() && m1
                != m2 ==> {
                let f1 = #[trigger] rows_upto(g, occ, i)[m1];
                let f2 = #[trigger] rows_upto(g, occ, i)[m2];
                f1.first != f2.first || f1.second != f2.second
            },
        forall|r: int, s: int|
            0 <= r < i && r < s < occ.len() ==> #[trigger] has_pair(rows_upto(g, occ, i), r, s),
    decreases i,
{
    let k = occ.len() as int;
    if i > 0 {
        lemma_rows_upto(g, occ, i - 1);
        lemma_row(g, occ, i - 1, k);
        let a = rows_upto(g, occ, i - 1);
        let b = row_findings(g, occ, i - 1, k);
        let all = rows_upto(g, occ, i);
        assert(all == a + b);
        let la = a.len() as int;
        assert(2 * la == (i - 1) * (2 * k - (i - 1) - 1));
        assert(b.len() == k - i);
        assert(2 * (la + (k - i)) == i * (2 * k - i - 1)) by (nonlinear_arith)
            requires
                2 * la == (i - 1) * (2 * k - (i - 1) - 1),
        ;
        assert forall|m: int| 0 <= m < all.len() implies {
            let f = #[trigger] all[m];
            &&& f.first < i
            &&& f.first < f.second < occ.len()
            &&& f == finding_of(g, occ, f.first as int, f.second as int)
        } by {
            if m < la {
                assert(all[m] == a[m]);
            } else {
                assert(all[m] == b[m - la]);
            }
        }
        assert forall|m1: int, m2: int|
            0 <= m1 < all.len() && 0 <= m2 < all.len() && m1 != m2 implies {
            let f1 = #[trigger] all[m1];
            let f2 = #[trigger] all[m2];
            f1.first != f2.first || f1.second != f2.second
        } by {
            if m1 < la {
                assert(all[m1] == a[m1]);
            } else {
                assert(all[m1] == b[m1 - la]);
            }
            if m2 < la {
                assert(all[m2] == a[m2]);
            } else {
                assert(all[m2] == b[m2 - la]);
            }
        }
        assert forall|r: int, s: int| 0 <= r < i && r < s < k implies #[trigger] has_pair(
            all,
            r,
            s,
        ) by {
            if r < i - 1 {
                assert(has_pair(a, r, s));
                let m = choose|m: int| 0 <= m < a.len() && a[m].first == r && a[m].second == s;
                assert(all[m] == a[m]);
            } else {
                let m = la + (s - r - 1);
                assert(all[m] == b[s - r - 1]);
            }
        }
    }
}

/// Each name with `k` occurrences yields exactly `k * (k - 1) / 2` findings:
/// every pair `i < j` of its occurrences appears once, and nothing else does.
pub proof fn lemma_pair_completeness(g: int, occ: Seq<FoundType>)
    requires
        0 <= g <= usize::MAX,
        occ.len() <= usize::MAX,
    ensures
        2 * group_findings(g, occ).len() == occ.len() * (occ.len() - 1),
        forall|m: int|
            #![trigger group_findings(g, occ)[m]]
            0 <= m < group_findings(g, occ).len() ==> {
                let f = group_findings(g, occ)[m];
                &&& f.first < f.second < occ.len()
                &&& f == finding_of(g, occ, f.first as int, f.second as int)
            },
        forall|m1: int, m2: int|
            0 <= m1 < group_findings(g, occ).len() && 0 <= m2 < group_findings(g, occ).len() && m1
                != m2 ==> {
                let f1 = #[trigger] group_findings(g, occ)[m1];
                let f2 = #[trigger] group_findings(g, occ)[m2];
                f1.first != f2.first || f1.second != f2.second
            },
        forall|i: int, j: int|
            0 <= i < j < occ.len() ==> #[trigger] has_pair(group_findings(g, occ), i, j),
{
    lemma_rows_upto(g, occ, occ.len() as int);
}

proof fn lemma_findings_upto(reg: Registry, n: int)
    requires
        0 <= n <= reg.spec_names().len() <= usize::MAX,
        forall|g: int| 0 <= g < n ==> #[trigger] reg.spec_group(g).len() <= usize::MAX,
    ensures
        forall|m: int|
            #![trigger findings_upto(reg, n)[m]]
            0 <= m < findings_upto(reg, n).len() ==> {
                let f = findings_upto(reg, n)[m];
                let occ = reg.spec_group(f.group as int);
                &&& f.group < n
                &&& f.first < f.second < occ.len()
                &&& f == finding_of(f.group as int, occ, f.first as int, f.second as int)
            },
    decreases n,
{
    if n > 0 {
        lemma_findings_upto(reg, n - 1);
        let occ = reg.spec_group(n - 1);
        lemma_pair_completeness(n - 1, occ);
        let a = findings_upto(reg, n - 1);
        let b = group_findings(n - 1, occ);
        let all = findings_upto(reg, n);
        assert forall|m: int| 0 <= m < all.len() implies {
            let f = #[trigger] all[m];
            let o = reg.spec_group(f.group as int);
            &&& f.group < n
            &&& f.first < f.second < o.len()
            &&& f == finding_of(f.group as int, o, f.first as int, f.second as int)
        } by {
            if m < a.len() {
                assert(all[m] == a[m]);
            } else {
                assert(all[m] == b[m - a.len()]);
            }
        }
    }
}

proof fn lemma_count_classes(f: Seq<DuplicateFinding>)
    ensures
        count_class(f, Classification::IdenticalShape) + count_class(
            f,
            Classification::NameCollision,
        ) == f.len(),
    decreases f.len(),
{
    if f.len() > 0 {
        lemma_count_classes(f.subrange(0, f.len() - 1));
    }
}

/// Every finding is exactly one of the two classes: an identical shape where
/// the two declarations have equal fingerprints, a name collision where they
/// do not. So the two counts add up to the number of findings.
pub proof fn lemma_classification_exhaustive(reg: Registry)
    requires
        reg.spec_names().len() <= usize::MAX,
        forall|g: int|
            0 <= g < reg.spec_names().len() ==> #[trigger] reg.spec_group(g).len() <= usize::MAX,
    ensures
        forall|m: int|
            #![trigger all_findings(reg)[m]]
            0 <= m < all_findings(reg).len() ==> {
                let f = all_findings(reg)[m];
                let occ = reg.spec_group(f.group as int);
                &&& f.group < reg.spec_names().len()
                &&& f.first < f.second < occ.len()
                &&& (f.classification == Classification::IdenticalShape) == (occ[f.first as int].body@
                    == occ[f.second as int].body@)
                &&& (f.classification == Classification::NameCollision) == (occ[f.first as int].body@
                    != occ[f.second as int].body@)
            },
        count_class(all_findings(reg), Classification::IdenticalShape) + count_class(
            all_findings(reg),
            Classification::NameCollision,
        ) == all_findings(reg).len(),
{
    lemma_findings_upto(reg, reg.spec_names().len() as int);
    lemma_count_classes(all_findings(reg));
}

/// The class of a pair does not depend on which of the two declarations was
/// seen first.
pub proof fn lemma_classification_symmetric(a: Seq<Token>, b: Seq<Token>)
    ensures
        classify(a, b) == classify(b, a),
{
}

/// All pairs of declarations that share a name, each classified. Whether a
/// declaration is exported takes no part: two module-local aliases of one name
/// in different files are reported like any other pair.
pub fn analyze(reg: &Registry) -> (r: Vec<DuplicateFinding>)
    requires
        reg.wf(),
    ensures
        r@ == all_findings(*reg),
{
    let mut out: Vec<DuplicateFinding> = Vec::new();
    let n = reg.name_count();
    let mut g: usize = 0;
    while g < n
        invariant
            reg.wf(),
            n == reg.spec_names().len(),
            g <= n,
            out@ == findings_upto(*reg, g as int),
        decreases n - g,
    {
        let occ = reg.group(g);
        let k = occ.len();
        let ghost base = out@;
        let mut i: usize = 0;
        while i < k
            invariant
                occ@ == reg.spec_group(g as int),
                k == occ@.len(),
                i <= k,
                g < n,
                out@ == base + rows_upto(g as int, occ@, i as int),
            decreases k - i,
        {
            let ghost head = out@;
            let mut j: usize = i + 1;
            assert(row_findings(g as int, occ@, i as int, j as int) =~= Seq::<
                DuplicateFinding,
            >::empty());
            assert(head =~= head + row_findings(g as int, occ@, i as int, j as int));
            while j < k
                invariant
                    occ@ == reg.spec_group(g as int),
                    k == occ@.len(),
                    i < k,
                    i + 1 <= j <= k,
                    out@ == head + row_findings(g as int, occ@, i as int, j as int),
                decreases k - j,
            {
                let same = same_fingerprint(&occ[i].body, &occ[j].body);
                let classification = if same {
                    Classification::IdenticalShape
                } else {
                    Classification::NameCollision
                };
                out.push(DuplicateFinding { group: g, first: i, second: j, classification });
                j = j + 1;
            }
            proof {
                assert(out@ =~= base + rows_upto(g as int, occ@, i + 1));
            }
            i = i + 1;
        }
        proof {
            assert(out@ =~= findings_upto(*reg, g + 1));
        }
        g = g + 1;
    }
    out
}

/// The number of identical-shape findings and of name collisions, in that order.
pub fn count_findings(findings: &Vec<DuplicateFinding>) -> (r: (usize, usize))
    ensures
        r.0 == count_class(findings@, Classification::IdenticalShape),
        r.1 == count_class(findings@, Classification::NameCollision),
        r.0 + r.1 == findings@.len(),
{
    let mut identical: usize = 0;
    let mut collisions: usize = 0;
    let mut i: usize = 0;
    while i < findings.len()
        invariant
            i <= findings@.len(),
            identical == count_class(findings@.subrange(0, i as int), Classification::IdenticalShape),
            collisions == count_class(findings@.subrange(0, i as int), Classification::NameCollision),
            identical + collisions == i,
        decreases findings@.len() - i,
    {
        proof {
            let cur = findings@.subrange(0, i + 1);
            assert(cur.subrange(0, i as int) =~= findings@.subrange(0, i as int));
        }
        match findings[i].classification {
            Classification::IdenticalShape => identical = identical + 1,
            Classification::NameCollision => collisions = collisions + 1,
        }
        i = i + 1;
    }
    assert(findings@.subrange(0, findings@.len() as int) =~= findings@);
    (identical, collisions)
}

/// The totals of a run.
#[derive(PartialEq, Eq, Structural, Clone, Copy, Debug)]
pub struct Summary {
    pub unique_names: usize,
    pub identical_shapes: usize,
    pub name_collisions: usize,
}

/// The number of distinct names, of identical shapes and of name collisions.
pub fn summarize(reg: &Registry, findings: &Vec<DuplicateFinding>) -> (r: Summary)
    requires
        reg.wf(),
    ensures
        r.unique_names == reg.spec_names().len(),
        r.identical_shapes == count_class(findings@, Classification::IdenticalShape),
        r.name_collisions == count_class(findings@, Classification::NameCollision),
{
    let (identical_shapes, name_collisions) = count_findings(findings);
    Summary { unique_names: reg.name_count(), identical_shapes, name_collisions }
}

} // verus!
