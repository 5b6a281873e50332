use vstd::prelude::*;

use crate::dependency_graph::LanternFileDependencyMap;

verus! {

/// `p` walks the graph against its edges: each module after the first depends
/// on the one before it.
pub open spec fn is_dependent_chain(g: LanternFileDependencyMap, p: Seq<usize>) -> bool {
    &&& p.len() >= 2
    &&& forall|i: int| 0 <= i < p.len() - 1 ==> g.spec_has_edge(#[trigger] p[i + 1] as int, p[i])
}

/// Module `x` depends, directly or through other modules, on module `c`.
pub open spec fn affects(g: LanternFileDependencyMap, c: usize, x: usize) -> bool {
    exists|p: Seq<usize>| #[trigger] is_dependent_chain(g, p) && p[0] == c && p.last() == x
}

/// Module `x` is reported as affected by a change of `c`.
pub open spec fn affected_module(g: LanternFileDependencyMap, c: usize, x: usize, entries_only: bool) -> bool {
    &&& x < g.symbols_map.modules@.len()
    &&& affects(g, c, x)
    &&& (!entries_only || g.symbols_map.modules@[x as int].is_entry)
}

pub open spec fn count_true(s: Seq<bool>) -> nat
    decreases s.len(),
{
    if s.len() == 0 {
        0
    } else {
        count_true(s.drop_last()) + if s.last() {
            1nat
        } else {
            0nat
        }
    }
}

proof fn lemma_count_true_le(s: Seq<bool>)
    ensures
        count_true(s) <= s.len(),
    decreases s.len(),
{
    if s.len() > 0 {
        lemma_count_true_le(s.drop_last());
    }
}

proof fn lemma_count_true_set(s: Seq<bool>, i: int)
    requires
        0 <= i < s.len(),
        !s[i],
    ensures
        count_true(s.update(i, true)) == count_true(s) + 1,
    decreases s.len(),
{
    let t = s.update(i, true);
    if i == s.len() - 1 {
        assert(t.drop_last() =~= s.drop_last());
    } else {
        assert(t.drop_last() =~= s.drop_last().update(i, true));
        lemma_count_true_set(s.drop_last(), i);
    }
}

proof fn lemma_extend_chain(g: LanternFileDependencyMap, c: usize, y: usize, x: usize)
    requires
        y == c || affects(g, c, y),
        g.spec_has_edge(x as int, y),
    ensures
        affects(g, c, x),
{
    if y == c {
        let p = seq![c, x];
        assert(is_dependent_chain(g, p));
    } else {
        let p = choose|p: Seq<usize>| #[trigger] is_dependent_chain(g, p) && p[0] == c && p.last() == y;
        let p2 = p.push(x);
        assert forall|i: int| 0 <= i < p2.len() - 1 implies g.spec_has_edge(#[trigger] p2[i + 1] as int, p2[i]) by {
            if i < p.len() - 1 {
                assert(p2[i + 1] == p[i + 1]);
            }
        }
        assert(is_dependent_chain(g, p2));
    }
}

impl LanternFileDependencyMap {
    /// The modules affected by a change of module `c`: those that depend on it,
    /// directly or not, and with `entries_only` only the entry points among them.
    pub fn affected_modules(&self, c: usize, entries_only: bool) -> (r: Vec<usize>)
        requires
            self.wf(),
            c < self.symbols_map.modules@.len(),
        ensures
            r@.no_duplicates(),
            forall|x: usize| #[trigger] r@.contains(x) <==> affected_module(*self, c, x, entries_only),
    {
        let n = self.symbols_map.modules.len();
        let mut seen: Vec<bool> = Vec::new();
        let mut found: Vec<bool> = Vec::new();
        let mut i: usize = 0;
        while i < n
            invariant
                i <= n,
                seen@.len() == i,
                found@.len() == i,
                forall|j: int| 0 <= j < i ==> !(#[trigger] seen@[j]),
                forall|j: int| 0 <= j < i ==> !(#[trigger] found@[j]),
            decreases n - i,
        {
            seen.push(false);
            found.push(false);
            i = i + 1;
        }
        proof {
            lemma_count_zero(seen@);
            lemma_count_true_set(seen@, c as int);
        }
        seen.set(c, true);
        let mut queue: Vec<usize> = Vec::new();
        queue.push(c);
        proof {
            assert forall|x: int| 0 <= x < n && #[trigger] seen@[x] implies queue@.contains(x as usize) by {
                assert(x == c as int);
                assert(queue@[0] == c);
            }
        }
        let mut res: Vec<usize> = Vec::new();
        let mut head: usize = 0;
        while head < queue.len()
            invariant
                self.wf(),
                n == self.symbols_map.modules@.len(),
                c < n,
                seen@.len() == n,
                found@.len() == n,
                head <= queue@.len(),
                queue@.len() == count_true(seen@),
                queue@.len() > 0,
                queue@[0] == c,
                forall|j: int| 0 <= j < queue@.len() ==> #[trigger] queue@[j] < n && seen@[queue@[j] as int],
                forall|j: int| 0 <= j < queue@.len() ==> (#[trigger] queue@[j] == c || affects(*self, c, queue@[j])),
                forall|x: int| 0 <= x < n && #[trigger] seen@[x] ==> queue@.contains(x as usize),
                forall|x: int| 0 <= x < n && #[trigger] found@[x] ==> affects(*self, c, x as usize),
                forall|j: int, y: usize|
                    0 <= j < head && #[trigger] self.spec_has_edge(y as int, queue@[j]) ==> found@[y as int] && seen@[y as int],
                forall|x: usize| #[trigger] res@.contains(x) <==> (x < n && found@[x as int] && (!entries_only
                    || self.symbols_map.modules@[x as int].is_entry)),
                res@.no_duplicates(),
            decreases n - head,
        {
            proof {
                lemma_count_true_le(seen@);
            }
            let cur = queue[head];
            let deps = self.dependents_of(cur);
            let ghost q0 = queue@;
            proof {
                assert forall|q: int| 0 <= q < deps@.len() implies #[trigger] deps@[q] < n by {
                    assert(deps@.contains(deps@[q]));
                }
            }
            let mut k: usize = 0;
            while k < deps.len()
                invariant
                    self.wf(),
                    n == self.symbols_map.modules@.len(),
                    c < n,
                    cur < n,
                    seen@.len() == n,
                    found@.len() == n,
                    head < queue@.len(),
                    queue@[head as int] == cur,
                    q0 == queue@.subrange(0, q0.len() as int),
                    q0.len() <= queue@.len(),
                    head < q0.len(),
                    queue@.len() == count_true(seen@),
                    queue@[0] == c,
                    k <= deps@.len(),
                    deps@.no_duplicates(),
                    forall|q: int| 0 <= q < deps@.len() ==> #[trigger] deps@[q] < n,
                    forall|x: usize| #[trigger] deps@.contains(x) <==> self.spec_has_edge(x as int, cur),
                    forall|j: int| 0 <= j < queue@.len() ==> #[trigger] queue@[j] < n && seen@[queue@[j] as int],
                    forall|j: int| 0 <= j < queue@.len() ==> (#[trigger] queue@[j] == c || affects(*self, c, queue@[j])),
                    forall|x: int| 0 <= x < n && #[trigger] seen@[x] ==> queue@.contains(x as usize),
                    forall|x: int| 0 <= x < n && #[trigger] found@[x] ==> affects(*self, c, x as usize),
                    forall|j: int, y: usize|
                        0 <= j < head && #[trigger] self.spec_has_edge(y as int, queue@[j]) ==> found@[y as int] && seen@[y as int],
                    forall|q: int| 0 <= q < k ==> found@[#[trigger] deps@[q] as int] && seen@[deps@[q] as int],
                    forall|x: usize| #[trigger] res@.contains(x) <==> (x < n && found@[x as int] && (!entries_only
                        || self.symbols_map.modules@[x as int].is_entry)),
                    res@.no_duplicates(),
                decreases deps@.len() - k,
            {
                let y = deps[k];
                proof {
                    assert(deps@.contains(y));
                    assert(self.spec_has_edge(y as int, cur));
                    assert(queue@[head as int] == cur);
                    lemma_extend_chain(*self, c, cur, y);
                }
                if !found[y] {
                    found.set(y, true);
                    if !entries_only || self.symbols_map.modules[y].is_entry {
                        let ghost r0 = res@;
                        res.push(y);
                        proof {
                            assert forall|x: usize| #[trigger] res@.contains(x) <==> (x == y || r0.contains(x)) by {
                                if r0.contains(x) {
                                    let i = choose|i: int| 0 <= i < r0.len() && r0[i] == x;
                                    assert(res@[i] == x);
                                }
                                if x == y {
                                    assert(res@[r0.len() as int] == y);
                                }
                            }
                            assert forall|a: int, b: int| 0 <= a < res@.len() && 0 <= b < res@.len() && a != b implies res@[a] != res@[b] by {
                                if a == r0.len() as int {
                                    assert(r0.contains(res@[b]));
                                } else if b == r0.len() as int {
                                    assert(r0.contains(res@[a]));
                                }
                            }
                        }
                    }
                }
                if !seen[y] {
                    proof {
                        lemma_count_true_set(seen@, y as int);
                    }
                    let ghost qq = queue@;
                    seen.set(y, true);
                    queue.push(y);
                    proof {
                        assert(queue@[qq.len() as int] == y);
                        assert forall|x: int| 0 <= x < n && #[trigger] seen@[x] implies queue@.contains(x as usize) by {
                            if x != y as int {
                                let i = choose|i: int| 0 <= i < qq.len() && qq[i] == x as usize;
                                assert(queue@[i] == x as usize);
                            }
                        }
                        assert(q0 =~= queue@.subrange(0, q0.len() as int));
                    }
                }
                k = k + 1;
            }
            proof {
                assert forall|j: int, y: usize|
                    0 <= j < head + 1 && #[trigger] self.spec_has_edge(y as int, queue@[j]) implies found@[y as int] && seen@[y as int] by {
                    if j == head as int {
                        assert(deps@.contains(y));
                        let q = choose|q: int| 0 <= q < deps@.len() && deps@[q] == y;
                    } else {
                        assert(queue@[j] == q0[j]);
                    }
                }
            }
            head = head + 1;
        }
        proof {
            assert forall|x: usize| affected_module(*self, c, x, entries_only) implies #[trigger] res@.contains(x) by {
                let p = choose|p: Seq<usize>| #[trigger] is_dependent_chain(*self, p) && p[0] == c && p.last() == x;
                self.lemma_chain_found(p, queue@, seen@, found@, (p.len() - 1) as int);
            }
        }
        res
    }

    proof fn lemma_chain_found(&self, p: Seq<usize>, queue: Seq<usize>, seen: Seq<bool>, found: Seq<bool>, i: int)
        requires
            is_dependent_chain(*self, p),
            1 <= i < p.len(),
            queue.len() > 0,
            queue[0] == p[0],
            seen.len() == self.symbols_map.modules@.len(),
            forall|x: int| 0 <= x < seen.len() && #[trigger] seen[x] ==> queue.contains(x as usize),
            forall|j: int, y: usize|
                0 <= j < queue.len() && #[trigger] self.spec_has_edge(y as int, queue[j]) ==> found[y as int] && seen[y as int],
        ensures
            found[p[i] as int] && seen[p[i] as int],
        decreases i,
    {
        let a = i - 1;
        assert(self.spec_has_edge(p[a + 1] as int, p[a]));
        if i == 1 {
            assert(self.spec_has_edge(p[1] as int, queue[0]));
        } else {
            self.lemma_chain_found(p, queue, seen, found, i - 1);
            let prev = p[i - 1];
            let b = i - 2;
            assert(self.spec_has_edge(p[b + 1] as int, p[b]));
            assert(queue.contains(prev));
            let j = choose|j: int| 0 <= j < queue.len() && queue[j] == prev;
            assert(self.spec_has_edge(p[i] as int, queue[j]));
        }
    }
}

impl LanternFileDependencyMap {
    /// The paths of the modules affected by a change of the file at
    /// `changed_file_path`: those that depend on it, directly or not, and with
    /// `entries_only` only the entry points among them. An unknown path affects
    /// nothing.
    pub fn get_affected(&self, changed_file_path: &String, entries_only: bool) -> (r: Vec<String>)
        requires
            self.wf(),
        ensures
            r@.no_duplicates(),
            self.symbols_map.spec_module_id(changed_file_path@) is None ==> r@.len() == 0,
            self.symbols_map.spec_module_id(changed_file_path@) matches Some(c) ==> forall|p: String|
                #[trigger] r@.contains(p) <==> exists|x: usize|
                    affected_module(*self, c as usize, x, entries_only)
                        && #[trigger] self.symbols_map.modules@[x as int].file_path == p,
    {
        let c = match self.symbols_map.get_module_id(changed_file_path.as_str()) {
            Some(c) => c,
            None => {
                return Vec::new();
            },
        };
        let ids = self.affected_modules(c, entries_only);
        proof {
            assert forall|j: int| 0 <= j < ids@.len() implies #[trigger] ids@[j] < self.symbols_map.modules@.len() by {
                assert(ids@.contains(ids@[j]));
            }
        }
        let mut r: Vec<String> = Vec::new();
        let mut i: usize = 0;
        while i < ids.len()
            invariant
                self.wf(),
                i <= ids@.len(),
                ids@.no_duplicates(),
                forall|x: usize| #[trigger] ids@.contains(x) <==> affected_module(*self, c, x, entries_only),
                r@.len() == i,
                forall|j: int| 0 <= j < i ==> #[trigger] r@[j] == self.symbols_map.modules@[ids@[j] as int].file_path,
                forall|j: int| 0 <= j < ids@.len() ==> #[trigger] ids@[j] < self.symbols_map.modules@.len(),
            decreases ids@.len() - i,
        {
            proof {
                assert(ids@.contains(ids@[i as int]));
            }
            r.push(self.symbols_map.modules[ids[i]].file_path.clone());
            i = i + 1;
        }
        proof {
            let m = self.symbols_map.modules@;
            assert forall|a: int, b: int| 0 <= a < r@.len() && 0 <= b < r@.len() && a != b implies r@[a] != r@[b] by {
                assert(m[ids@[a] as int].file_path@ != m[ids@[b] as int].file_path@);
            }
            assert forall|p: String| #[trigger] r@.contains(p) <==> exists|x: usize|
                affected_module(*self, c as usize, x, entries_only) && #[trigger] m[x as int].file_path == p by {
                if r@.contains(p) {
                    let j = choose|j: int| 0 <= j < r@.len() && r@[j] == p;
                    assert(ids@.contains(ids@[j]));
                }
                if exists|x: usize| affected_module(*self, c as usize, x, entries_only) && #[trigger] m[x as int].file_path == p {
                    let x = choose|x: usize| affected_module(*self, c as usize, x, entries_only) && #[trigger] m[x as int].file_path == p;
                    assert(ids@.contains(x));
                    let j = choose|j: int| 0 <= j < ids@.len() && ids@[j] == x;
                    assert(r@[j] == p);
                }
            }
        }
        r
    }
}

/// With `entries_only`, only entry points are affected.
pub proof fn lemma_affected_entries_only(g: LanternFileDependencyMap, c: usize, x: usize)
    requires
        affected_module(g, c, x, true),
    ensures
        g.symbols_map.modules@[x as int].is_entry,
{
}

proof fn lemma_count_zero(s: Seq<bool>)
    requires
        forall|j: int| 0 <= j < s.len() ==> !(#[trigger] s[j]),
    ensures
        count_true(s) == 0,
    decreases s.len(),
{
    if s.len() > 0 {
        lemma_count_zero(s.drop_last());
    }
}

} // verus!

verus! {

/// Some element of `v` is the path `p`.
pub open spec fn holds_path(v: Seq<String>, p: Seq<char>) -> bool {
    exists|j: int| 0 <= j < v.len() && #[trigger] v[j]@ == p
}

/// No path occurs twice in `v`.
pub open spec fn distinct_paths(v: Seq<String>) -> bool {
    forall|a: int, b: int| 0 <= a < v.len() && 0 <= b < v.len() && a != b ==> #[trigger] v[a]@ != #[trigger] v[b]@
}

fn position_of(v: &Vec<String>, p: &String) -> (r: Option<usize>)
    ensures
        r is Some <==> holds_path(v@, p@),
        r is Some ==> r->Some_0 < v@.len() && v@[r->Some_0 as int]@ == p@,
{
    let mut j: usize = 0;
    while j < v.len()
        invariant
            j <= v@.len(),
            forall|k: int| 0 <= k < j ==> v@[k]@ != p@,
        decreases v@.len() - j,
    {
        if v[j] == *p {
            return Some(j);
        }
        j = j + 1;
    }
    None
}

/// Adds to `acc` each path of `more` that it does not hold yet, in order: the
/// union of the two, each path once.
pub fn merge_paths(acc: &mut Vec<String>, more: &Vec<String>)
    requires
        distinct_paths(old(acc)@),
    ensures
        distinct_paths(final(acc)@),
        forall|p: Seq<char>| #[trigger] holds_path(final(acc)@, p) <==> (holds_path(old(acc)@, p) || holds_path(more@, p)),
{
    let ghost a0 = acc@;
    let mut i: usize = 0;
    while i < more.len()
        invariant
            i <= more@.len(),
            distinct_paths(acc@),
            forall|p: Seq<char>| #[trigger] holds_path(acc@, p) <==> (holds_path(a0, p) || holds_path(more@.subrange(0, i as int), p)),
        decreases more@.len() - i,
    {
        let ghost before = acc@;
        if position_of(acc, &more[i]).is_none() {
            acc.push(more[i].clone());
            proof {
                assert forall|a: int, b: int| 0 <= a < acc@.len() && 0 <= b < acc@.len() && a != b implies #[trigger] acc@[a]@ != #[trigger] acc@[b]@ by {
                    if a == before.len() as int {
                        assert(!holds_path(before, acc@[a]@));
                        assert(before[b] == acc@[b]);
                    } else if b == before.len() as int {
                        assert(!holds_path(before, acc@[b]@));
                        assert(before[a] == acc@[a]);
                    } else {
                        assert(before[a] == acc@[a] && before[b] == acc@[b]);
                    }
                }
            }
        }
        proof {
            let sub = more@.subrange(0, i + 1);
            assert forall|p: Seq<char>| #[trigger] holds_path(acc@, p) <==> (holds_path(a0, p) || holds_path(sub, p)) by {
                if holds_path(more@.subrange(0, i as int), p) {
                    let j = choose|j: int| 0 <= j < i && #[trigger] more@.subrange(0, i as int)[j]@ == p;
                    assert(sub[j] == more@[j]);
                }
                if holds_path(sub, p) {
                    let j = choose|j: int| 0 <= j < sub.len() && #[trigger] sub[j]@ == p;
                    if j < i {
                        assert(more@.subrange(0, i as int)[j] == sub[j]);
                    } else {
                        assert(holds_path(before, p) || acc@[before.len() as int]@ == p);
                    }
                }
                if holds_path(before, p) {
                    let j = choose|j: int| 0 <= j < before.len() && #[trigger] before[j]@ == p;
                    assert(acc@[j] == before[j]);
                }
                if holds_path(acc@, p) {
                    let j = choose|j: int| 0 <= j < acc@.len() && #[trigger] acc@[j]@ == p;
                    if j < before.len() {
                        assert(before[j] == acc@[j]);
                    } else {
                        assert(sub[i as int] == more@[i as int]);
                    }
                }
                if holds_path(before, p) || holds_path(sub, p) {
                    if !holds_path(acc@, p) {
                        if holds_path(sub, p) && !holds_path(before, p) {
                            let j = choose|j: int| 0 <= j < sub.len() && #[trigger] sub[j]@ == p;
                            if j == i as int {
                                assert(acc@[before.len() as int]@ == p);
                            }
                        }
                    }
                }
            }
        }
        i = i + 1;
    }
    proof {
        assert(more@.subrange(0, i as int) =~= more@);
    }
}

} // verus!
