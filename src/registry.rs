use vstd::prelude::*;
use crate::type_checker::{FoundType, SourceModule, aliases, describes, extract_types};

verus! {

/// The declarations of `all` that carry the name `name`, in order.
pub open spec fn occurrences(all: Seq<FoundType>, name: Seq<char>) -> Seq<FoundType>
    decreases all.len(),
{
    if all.len() == 0 {
        Seq::empty()
    } else {
        let rest = occurrences(all.subrange(0, all.len() - 1), name);
        if all[all.len() - 1].name@ == name {
            rest.push(all[all.len() - 1])
        } else {
            rest
        }
    }
}

/// The distinct names of `all`, in the order in which each was first seen.
pub open spec fn first_seen(all: Seq<FoundType>) -> Seq<Seq<char>>
    decreases all.len(),
{
    if all.len() == 0 {
        Seq::empty()
    } else {
        let rest = first_seen(all.subrange(0, all.len() - 1));
        let n = all[all.len() - 1].name@;
        if rest.contains(n) {
            rest
        } else {
            rest.push(n)
        }
    }
}

proof fn lemma_unseen_has_no_occurrences(all: Seq<FoundType>, name: Seq<char>)
    requires
        !first_seen(all).contains(name),
    ensures
        occurrences(all, name) == Seq::<FoundType>::empty(),
    decreases all.len(),
{
    if all.len() > 0 {
        let pre = all.subrange(0, all.len() - 1);
        let rest = first_seen(pre);
        let n = all[all.len() - 1].name@;
        if rest.contains(name) {
            let i = choose|i: int| 0 <= i < rest.len() && rest[i] == name;
            if !rest.contains(n) {
                assert(rest.push(n)[i] == name);
            }
            assert(first_seen(all).contains(name));
        }
        if n == name && !rest.contains(n) {
            assert(rest.push(n)[rest.len() as int] == name);
        }
        lemma_unseen_has_no_occurrences(pre, name);
    }
}

/// Every declaration recorded so far, grouped by name.
pub struct Registry {
    names: Vec<String>,
    groups: Vec<Vec<FoundType>>,
    recorded: Ghost<Seq<FoundType>>,
}

impl Registry {
    /// Every declaration recorded, in the order of recording.
    pub closed spec fn all(&self) -> Seq<FoundType> {
        self.recorded@
    }

    pub closed spec fn wf(&self) -> bool {
        &&& self.names@.len() == self.groups@.len()
        &&& self.names@.len() == first_seen(self.recorded@).len()
        &&& forall|k: int|
            0 <= k < self.names@.len() ==> #[trigger] self.names@[k]@ == first_seen(
                self.recorded@,
            )[k]
        &&& forall|k: int|
            0 <= k < self.names@.len() ==> #[trigger] self.groups@[k]@ == occurrences(
                self.recorded@,
                self.names@[k]@,
            )
        &&& forall|i: int, j: int|
            0 <= i < self.names@.len() && 0 <= j < self.names@.len() && i != j
                ==> #[trigger] self.names@[i]@ != #[trigger] self.names@[j]@
    }

    /// The names seen, in first-seen order.
    pub open spec fn spec_names(&self) -> Seq<Seq<char>> {
        first_seen(self.all())
    }

    /// The declarations of the `k`-th name, in the order of recording.
    pub open spec fn spec_group(&self, k: int) -> Seq<FoundType> {
        occurrences(self.all(), self.spec_names()[k])
    }

    /// An empty registry.
    pub fn new() -> (r: Self)
        ensures
            r.wf(),
            r.all() == Seq::<FoundType>::empty(),
    {
        Registry { names: Vec::new(), groups: Vec::new(), recorded: Ghost(Seq::empty()) }
    }

    /// Records one declaration under its name.
    pub fn record(&mut self, decl: FoundType)
        requires
            old(self).wf(),
        ensures
            final(self).wf(),
            final(self).all() == old(self).all().push(decl),
    {
        let ghost all = self.recorded@;
        let ghost new_all = all.push(decl);
        proof {
            assert(new_all.subrange(0, new_all.len() - 1) =~= all);
        }
        let mut k: usize = 0;
        let mut found = false;
        while !found && k < self.names.len()
            invariant
                self.wf(),
                self.recorded@ == all,
                k <= self.names@.len(),
                found ==> k < self.names@.len() && self.names@[k as int]@ == decl.name@,
                forall|j: int| 0 <= j < k ==> self.names@[j]@ != decl.name@,
            decreases self.names@.len() - k + (if found { 0int } else { 1int }),
        {
            if self.names[k] == decl.name {
                found = true;
            } else {
                k = k + 1;
            }
        }
        if found {
            proof {
                assert(first_seen(all)[k as int] == decl.name@);
                assert(first_seen(all).contains(decl.name@));
                assert(first_seen(new_all) == first_seen(all));
                assert forall|j: int| 0 <= j < self.names@.len() && j != k implies occurrences(
                    new_all,
                    #[trigger] self.names@[j]@,
                ) == occurrences(all, self.names@[j]@) by {
                    assert(self.names@[j]@ != self.names@[k as int]@);
                }
            }
            self.groups[k].push(decl);
            self.recorded = Ghost(new_all);
            proof {
                assert(occurrences(new_all, decl.name@) == occurrences(all, decl.name@).push(decl));
                assert(self.groups@[k as int]@ == occurrences(new_all, self.names@[k as int]@));
                assert forall|j: int| 0 <= j < self.names@.len() implies #[trigger] self.groups@[j]@
                    == occurrences(self.recorded@, self.names@[j]@) by {
                    if j != k {
                        assert(self.names@[j]@ != self.names@[k as int]@);
                    }
                }
            }
        } else {
            let ghost name = decl.name@;
            proof {
                assert forall|j: int| 0 <= j < self.names@.len() implies first_seen(all)[j]
                    != name by {
                    assert(self.names@[j]@ == first_seen(all)[j]);
                }
                assert(!first_seen(all).contains(name));
                lemma_unseen_has_no_occurrences(all, name);
                assert(first_seen(new_all) == first_seen(all).push(name));
            }
            let n = decl.name.clone();
            self.names.push(n);
            self.groups.push(vec![decl]);
            self.recorded = Ghost(new_all);
            proof {
                assert(occurrences(new_all, name) =~= seq![decl]);
                let m = self.names@.len() - 1;
                assert(self.names@[m]@ == name);
                assert forall|j: int| 0 <= j < self.names@.len() implies #[trigger] self.groups@[j]@
                    == occurrences(self.recorded@, self.names@[j]@) by {
                    if j != m {
                        assert(self.names@[j]@ != name);
                    }
                }
                assert forall|j: int| 0 <= j < self.names@.len() implies #[trigger] self.names@[j]@
                    == first_seen(self.recorded@)[j] by {
                }
            }
        }
    }

    /// The positions, in first-seen order, of the names declared more than once.
    pub fn names_with_duplicates(&self) -> (r: Vec<usize>)
        requires
            self.wf(),
        ensures
            forall|i: int, j: int| 0 <= i < j < r@.len() ==> r@[i] < r@[j],
            forall|i: int|
                0 <= i < r@.len() ==> #[trigger] r@[i] < self.spec_names().len()
                    && self.spec_group(r@[i] as int).len() >= 2,
            forall|k: int|
                0 <= k < self.spec_names().len() && self.spec_group(k).len() >= 2 ==> r@.contains(
                    k as usize,
                ),
    {
        let mut r: Vec<usize> = Vec::new();
        let mut k: usize = 0;
        while k < self.groups.len()
            invariant
                self.wf(),
                k <= self.groups@.len(),
                forall|i: int, j: int| 0 <= i < j < r@.len() ==> r@[i] < r@[j],
                forall|i: int|
                    0 <= i < r@.len() ==> #[trigger] r@[i] < k && self.spec_group(r@[i] as int).len()
                        >= 2,
                forall|m: int| 0 <= m < k && self.spec_group(m).len() >= 2 ==> r@.contains(m as usize),
            decreases self.groups@.len() - k,
        {
            assert(self.groups@[k as int]@ == self.spec_group(k as int));
            let ghost before = r@;
            if self.groups[k].len() >= 2 {
                r.push(k);
                assert(r@[r@.len() - 1] == k);
            }
            assert forall|m: int|
                0 <= m < k + 1 && self.spec_group(m).len() >= 2 implies r@.contains(m as usize) by {
                if m < k {
                    let idx = choose|idx: int| 0 <= idx < before.len() && before[idx] == m as usize;
                    assert(r@[idx] == before[idx]);
                } else {
                    assert(r@[r@.len() - 1] == k);
                }
            }
            k = k + 1;
        }
        r
    }

    /// The number of distinct names recorded.
    pub fn name_count(&self) -> (r: usize)
        requires
            self.wf(),
        ensures
            r == self.spec_names().len(),
    {
        self.names.len()
    }

    /// The `k`-th name in first-seen order.
    pub fn name(&self, k: usize) -> (r: &String)
        requires
            self.wf(),
            k < self.spec_names().len(),
        ensures
            r@ == self.spec_names()[k as int],
    {
        &self.names[k]
    }

    /// The declarations of the `k`-th name, in the order of recording.
    pub fn group(&self, k: usize) -> (r: &Vec<FoundType>)
        requires
            self.wf(),
            k < self.spec_names().len(),
        ensures
            r@ == self.spec_group(k as int),
    {
        &self.groups[k]
    }
}

/// Records every top-level type alias of one file. A file that did not parse
/// (`None`) contributes nothing; the result says whether the file contributed.
pub fn register_file(registry: &mut Registry, parsed: Option<&SourceModule>, filename: &str) -> (r:
    bool)
    requires
        old(registry).wf(),
    ensures
        final(registry).wf(),
        r == parsed.is_some(),
        parsed.is_none() ==> final(registry).all() == old(registry).all(),
        parsed.is_some() ==> {
            let decls = aliases(parsed.unwrap().body@);
            &&& final(registry).all().len() == old(registry).all().len() + decls.len()
            &&& forall|i: int|
                0 <= i < old(registry).all().len() ==> #[trigger] final(registry).all()[i] == old(
                    registry,
                ).all()[i]
            &&& forall|k: int|
                0 <= k < decls.len() ==> describes(
                    #[trigger] final(registry).all()[old(registry).all().len() + k],
                    decls[k],
                    filename@,
                )
        },
{
    let module = match parsed {
        Some(m) => m,
        None => return false,
    };
    let mut list: Vec<FoundType> = Vec::new();
    extract_types(module, filename, &mut list);
    assert(list@.len() == aliases(module.body@).len());
    let ghost found = list@;
    let ghost start = registry.all();
    let total = list.len();
    let mut taken: usize = 0;
    while list.len() > 0
        invariant
            registry.wf(),
            total == found.len(),
            taken + list@.len() == found.len(),
            list@ == found.subrange(taken as int, found.len() as int),
            registry.all() == start + found.subrange(0, taken as int),
        decreases list@.len(),
    {
        let d = list.remove(0);
        registry.record(d);
        proof {
            assert(found.subrange(0, taken + 1) =~= found.subrange(0, taken as int).push(d));
            assert(list@ =~= found.subrange(taken + 1, found.len() as int));
        }
        taken = taken + 1;
    }
    assert(found.subrange(0, taken as int) =~= found);
    assert(registry.all() =~= start + found);
    assert forall|k: int| 0 <= k < aliases(module.body@).len() implies describes(
        #[trigger] registry.all()[start.len() + k],
        aliases(module.body@)[k],
        filename@,
    ) by {
        assert(registry.all()[start.len() + k] == found[k]);
        assert(found[0 + k] == found[k]);
    }
    true
}

} // verus!
