//! The order of the stack ids of side stacks.
//!
//! The walk that assigns the ids hands a new id to every child of a branch
//! that has several children, and the counter from which the ids are taken
//! only falls.  So of two side stacks the one that the walk finds later has
//! the lower id.

use vstd::prelude::*;
use crate::outline;
use crate::stack;
use crate::stack::Marks;
use crate::stack::Stack;

verus! {

/// The branch starts a side stack: it is not pinned to the trunk, and it is
/// one of several children of its parent, or one of several roots.
pub open spec fn diverges(pinned: Seq<bool>, wide: Seq<bool>, x: int) -> bool {
    0 <= x < pinned.len() && !pinned[x] && wide[x]
}

/// `wide` says of every branch of the list whether the list holds several.
pub open spec fn wide_list(wide: Seq<bool>, list: Seq<usize>) -> bool {
    forall|k: int|
        0 <= k < list.len() ==> (#[trigger] list[k]) < wide.len() && wide[list[k] as int] == (
        list.len() > 1)
}

/// `wide` says of every child whether its parent has several children.
pub open spec fn wide_kids(wide: Seq<bool>, kids: Seq<Seq<usize>>) -> bool {
    forall|i: int| 0 <= i < kids.len() ==> wide_list(wide, #[trigger] kids[i])
}

/// Every branch of the walk is one of the first `n`.
pub open spec fn within(order: Seq<int>, n: int) -> bool {
    forall|r: int| 0 <= r < order.len() ==> 0 <= #[trigger] order[r] < n
}

/// The id of `y` lies below that of `x`, or the ids have run out: the
/// counter stops at the least number that fits a stack id.
pub open spec fn lies_below(ids: Seq<int>, y: int, x: int) -> bool {
    ids[y] < ids[x] || ids[y] == i64::MIN
}

/// Of two side stacks among the branches of the walk from row `from` on,
/// the one that comes later has the lower id.
pub open spec fn falling(
    pinned: Seq<bool>,
    wide: Seq<bool>,
    order: Seq<int>,
    ids: Seq<int>,
    from: int,
) -> bool {
    forall|a: int, b: int|
        from <= a < b < order.len() && diverges(pinned, wide, #[trigger] order[a]) && diverges(
            pinned,
            wide,
            #[trigger] order[b],
        ) ==> lies_below(ids, order[b], order[a])
}

/// The id of every side stack among the branches of the walk from row
/// `from` on is at least `low` and below `high`, unless the ids have run
/// out.
pub open spec fn between(
    pinned: Seq<bool>,
    wide: Seq<bool>,
    order: Seq<int>,
    ids: Seq<int>,
    from: int,
    low: int,
    high: int,
) -> bool {
    forall|r: int|
        from <= r < order.len() && diverges(pinned, wide, #[trigger] order[r]) ==> low
            <= ids[order[r]] && (ids[order[r]] < high || ids[order[r]] == i64::MIN)
}

/// The ids are as they were wherever the walk has not been.
pub open spec fn kept(order: Seq<int>, before: Seq<int>, after: Seq<int>) -> bool {
    &&& after.len() == before.len()
    &&& forall|i: int|
        0 <= i < before.len() && !order.contains(i) ==> #[trigger] after[i] == before[i]
}

/// Two parts of a walk in which no branch occurs twice have no branch in
/// common, and in neither does a branch occur twice.
pub proof fn lemma_parts(a: Seq<int>, b: Seq<int>)
    requires
        (a + b).no_duplicates(),
    ensures
        a.no_duplicates(),
        b.no_duplicates(),
        forall|r: int| 0 <= r < a.len() ==> !b.contains(#[trigger] a[r]),
        forall|r: int| 0 <= r < b.len() ==> !a.contains(#[trigger] b[r]),
{
    let all = a + b;
    assert forall|i: int, j: int| 0 <= i < a.len() && 0 <= j < a.len() && i != j implies a[i]
        != a[j] by {
        assert(all[i] == a[i] && all[j] == a[j]);
    }
    assert forall|i: int, j: int| 0 <= i < b.len() && 0 <= j < b.len() && i != j implies b[i]
        != b[j] by {
        assert(all[a.len() + i] == b[i] && all[a.len() + j] == b[j]);
    }
    assert forall|r: int| 0 <= r < a.len() implies !b.contains(#[trigger] a[r]) by {
        if b.contains(a[r]) {
            let q = choose|q: int| 0 <= q < b.len() && b[q] == a[r];
            assert(all[r] == a[r] && all[a.len() + q] == b[q]);
        }
    }
    assert forall|r: int| 0 <= r < b.len() implies !a.contains(#[trigger] b[r]) by {
        if a.contains(b[r]) {
            let q = choose|q: int| 0 <= q < a.len() && a[q] == b[r];
            assert(all[q] == a[q] && all[a.len() + r] == b[r]);
        }
    }
}

/// What the visit of a branch leaves: the branch bears the id it was handed,
/// or 0 if it is pinned; the ids of the side stacks below it lie between
/// the counter after the visit and the counter before it, the later the
/// lower; the counter has fallen by no more than there are branches below
/// it; and nothing else has changed.
pub proof fn lemma_visit_falls(
    kids: Seq<Seq<usize>>,
    pinned: Seq<bool>,
    wide: Seq<bool>,
    node: int,
    id: int,
    fuel: nat,
    m: Marks,
)
    requires
        m.ids.len() == kids.len(),
        m.counter >= i64::MIN,
        pinned.len() == kids.len(),
        wide.len() == kids.len(),
        wide_kids(wide, kids),
        outline::walk(kids, node, fuel).no_duplicates(),
        within(outline::walk(kids, node, fuel), kids.len() as int),
    ensures
        ({
            let order = outline::walk(kids, node, fuel);
            let after = stack::visit_spec(kids, pinned, node, id, fuel, m);
            &&& i64::MIN <= after.counter <= m.counter
            &&& after.counter >= m.counter - (order.len() - 1)
            &&& kept(order, m.ids, after.ids)
            &&& after.ids[node] == if pinned[node] {
                0
            } else {
                id
            }
            &&& between(pinned, wide, order, after.ids, 1, after.counter, m.counter)
            &&& falling(pinned, wide, order, after.ids, 1)
        }),
    decreases fuel, 0nat,
{
    let order = outline::walk(kids, node, fuel);
    let after = stack::visit_spec(kids, pinned, node, id, fuel, m);
    assert(order[0] == node);
    assert(0 <= node < kids.len());
    let own = if pinned[node] {
        0
    } else {
        id
    };
    let marked = Marks {
        ids: m.ids.update(node, own),
        shades: m.shades.update(node, m.shade),
        ..m
    };
    if fuel == 0 {
        assert(order =~= seq![node]);
        assert(kept(order, m.ids, after.ids)) by {
            assert forall|i: int| 0 <= i < m.ids.len() && !order.contains(i) implies after.ids[i]
                == m.ids[i] by {
                if i == node {
                    assert(order[0] == i);
                }
            }
        }
    } else {
        let list = kids[node];
        let below = outline::walk_all(kids, list, 0, (fuel - 1) as nat);
        assert(order =~= seq![node] + below);
        lemma_parts(seq![node], below);
        assert(!below.contains(node)) by {
            assert(seq![node][0] == node);
        }
        assert(within(below, kids.len() as int)) by {
            assert forall|r: int| 0 <= r < below.len() implies 0 <= #[trigger] below[r]
                < kids.len() by {
                assert(order[r + 1] == below[r]);
            }
        }
        assert(wide_list(wide, list));
        lemma_children_fall(kids, pinned, wide, list, own, 0, (fuel - 1) as nat, marked);
        assert(kept(order, m.ids, after.ids)) by {
            assert forall|i: int| 0 <= i < m.ids.len() && !order.contains(i) implies after.ids[i]
                == m.ids[i] by {
                if i == node {
                    assert(order[0] == i);
                }
                if below.contains(i) {
                    let q = choose|q: int| 0 <= q < below.len() && below[q] == i;
                    assert(order[q + 1] == i);
                }
            }
        }
        assert(between(pinned, wide, order, after.ids, 1, after.counter, m.counter)) by {
            assert forall|r: int|
                1 <= r < order.len() && diverges(pinned, wide, #[trigger] order[r]) implies after.counter
                <= after.ids[order[r]] && (after.ids[order[r]] < m.counter || after.ids[order[r]]
                == i64::MIN) by {
                assert(order[r] == below[r - 1]);
            }
        }
        assert(falling(pinned, wide, order, after.ids, 1)) by {
            assert forall|a: int, b: int|
                1 <= a < b < order.len() && diverges(pinned, wide, #[trigger] order[a])
                    && diverges(pinned, wide, #[trigger] order[b]) implies lies_below(
                after.ids,
                order[b],
                order[a],
            ) by {
                assert(order[a] == below[a - 1]);
                assert(order[b] == below[b - 1]);
            }
        }
    }
}

/// What the visits of the children from the `k`-th on leave: the ids of
/// the side stacks among them and below them lie between the counter after
/// the visits and the counter before them, the later the lower; the counter
/// has fallen by no more than there are branches in the walk; and nothing
/// else has changed.
pub proof fn lemma_children_fall(
    kids: Seq<Seq<usize>>,
    pinned: Seq<bool>,
    wide: Seq<bool>,
    list: Seq<usize>,
    own: int,
    k: int,
    fuel: nat,
    m: Marks,
)
    requires
        m.ids.len() == kids.len(),
        m.counter >= i64::MIN,
        pinned.len() == kids.len(),
        wide.len() == kids.len(),
        wide_kids(wide, kids),
        wide_list(wide, list),
        0 <= k,
        outline::walk_all(kids, list, k, fuel).no_duplicates(),
        within(outline::walk_all(kids, list, k, fuel), kids.len() as int),
    ensures
        ({
            let order = outline::walk_all(kids, list, k, fuel);
            let after = stack::visit_children(kids, pinned, list, own, k, fuel, m);
            &&& i64::MIN <= after.counter <= m.counter
            &&& after.counter >= m.counter - order.len()
            &&& kept(order, m.ids, after.ids)
            &&& between(pinned, wide, order, after.ids, 0, after.counter, m.counter)
            &&& falling(pinned, wide, order, after.ids, 0)
        }),
    decreases fuel, list.len() - k,
{
    let order = outline::walk_all(kids, list, k, fuel);
    let after = stack::visit_children(kids, pinned, list, own, k, fuel, m);
    if k < list.len() {
        let child = list[k] as int;
        let shade = if k > 0 {
            (m.shade + 1) % (crate::color_cycle::PALETTE_SIZE as int)
        } else {
            m.shade
        };
        let counter = if list.len() > 1 {
            stack::lower(m.counter)
        } else {
            m.counter
        };
        let id = if list.len() > 1 {
            counter
        } else {
            own
        };
        let start = Marks { counter, shade, ..m };
        let mid = stack::visit_spec(kids, pinned, child, id, fuel, start);
        let first = outline::walk(kids, child, fuel);
        let rest = outline::walk_all(kids, list, k + 1, fuel);
        assert(order =~= first + rest);
        lemma_parts(first, rest);
        assert(within(first, kids.len() as int)) by {
            assert forall|r: int| 0 <= r < first.len() implies 0 <= #[trigger] first[r]
                < kids.len() by {
                assert(order[r] == first[r]);
            }
        }
        assert(within(rest, kids.len() as int)) by {
            assert forall|r: int| 0 <= r < rest.len() implies 0 <= #[trigger] rest[r]
                < kids.len() by {
                assert(order[first.len() + r] == rest[r]);
            }
        }
        lemma_visit_falls(kids, pinned, wide, child, id, fuel, start);
        lemma_children_fall(kids, pinned, wide, list, own, k + 1, fuel, mid);
        assert(first[0] == child);
        assert(wide[child] == (list.len() > 1));
        let n = first.len() as int;
        // what the first visit wrote the later ones left
        assert forall|r: int| 0 <= r < n implies after.ids[#[trigger] first[r]] == mid.ids[first[r]] by {
            assert(!rest.contains(first[r]));
        }
        assert(kept(order, m.ids, after.ids)) by {
            assert forall|i: int| 0 <= i < m.ids.len() && !order.contains(i) implies after.ids[i]
                == m.ids[i] by {
                if first.contains(i) {
                    let q = choose|q: int| 0 <= q < first.len() && first[q] == i;
                    assert(order[q] == i);
                }
                if rest.contains(i) {
                    let q = choose|q: int| 0 <= q < rest.len() && rest[q] == i;
                    assert(order[n + q] == i);
                }
            }
        }
        assert forall|r: int|
            0 <= r < order.len() && diverges(pinned, wide, #[trigger] order[r]) implies mid.counter
            <= after.ids[order[r]] || r >= n by {
            if r < n {
                assert(order[r] == first[r]);
            }
        }
        assert(between(pinned, wide, order, after.ids, 0, after.counter, m.counter)) by {
            assert forall|r: int|
                0 <= r < order.len() && diverges(pinned, wide, #[trigger] order[r]) implies after.counter
                <= after.ids[order[r]] && (after.ids[order[r]] < m.counter || after.ids[order[r]]
                == i64::MIN) by {
                assert(counter <= m.counter);
                assert(mid.counter <= counter);
                if r == 0 {
                    assert(order[r] == first[r]);
                    assert(after.ids[first[0]] == mid.ids[first[0]]);
                    assert(mid.ids[child] == counter);
                } else if r < n {
                    assert(order[r] == first[r]);
                    assert(after.ids[first[r]] == mid.ids[first[r]]);
                    assert(diverges(pinned, wide, first[r]));
                } else {
                    assert(order[r] == rest[r - n]);
                    assert(diverges(pinned, wide, rest[r - n]));
                }
            }
        }
        assert(falling(pinned, wide, order, after.ids, 0)) by {
            assert forall|a: int, b: int|
                0 <= a < b < order.len() && diverges(pinned, wide, #[trigger] order[a])
                    && diverges(pinned, wide, #[trigger] order[b]) implies lies_below(
                after.ids,
                order[b],
                order[a],
            ) by {
                if a < n {
                    assert(order[a] == first[a]);
                } else {
                    assert(order[a] == rest[a - n]);
                }
                if b < n {
                    assert(order[b] == first[b]);
                } else {
                    assert(order[b] == rest[b - n]);
                }
            }
        }
    } else {
        assert(order =~= Seq::<int>::empty());
    }
}

/// The branch that stands `k` links above `x`.
pub open spec fn up(links: Seq<Option<usize>>, x: int, k: nat) -> Option<int>
    decreases k,
{
    if k == 0 {
        Some(x)
    } else {
        match up(links, x, (k - 1) as nat) {
            Some(a) => if 0 <= a < links.len() {
                match links[a] {
                    Some(p) => Some(p as int),
                    None => None,
                }
            } else {
                None
            },
            None => None,
        }
    }
}

/// The places of the list rise.
pub open spec fn rising(list: Seq<usize>) -> bool {
    forall|a: int, b: int| 0 <= a < b < list.len() ==> list[a] < list[b]
}

/// The children of a branch are listed in rising order.
pub proof fn lemma_kids_rise(links: Seq<Option<usize>>, parent: int, n: int)
    requires
        0 <= n <= links.len(),
        0 <= parent <= usize::MAX,
        n <= usize::MAX,
    ensures
        rising(stack::kids_upto(links, parent, n)),
    decreases n,
{
    if n > 0 {
        lemma_kids_rise(links, parent, n - 1);
        stack::lemma_kids_upto(links, parent, n - 1);
        let init = stack::kids_upto(links, parent, n - 1);
        let all = stack::kids_upto(links, parent, n);
        assert forall|a: int, b: int| 0 <= a < b < all.len() implies all[a] < all[b] by {
            if b < init.len() {
                assert(all[a] == init[a] && all[b] == init[b]);
            } else {
                assert(all[a] == init[a]);
                assert(init[a] < n - 1);
            }
        }
    }
}

/// The roots are listed in rising order.
pub proof fn lemma_roots_rise(links: Seq<Option<usize>>, n: int)
    requires
        0 <= n <= links.len(),
        n <= usize::MAX,
    ensures
        rising(stack::roots_upto(links, n)),
    decreases n,
{
    if n > 0 {
        lemma_roots_rise(links, n - 1);
        stack::lemma_roots_upto(links, n - 1);
        let init = stack::roots_upto(links, n - 1);
        let all = stack::roots_upto(links, n);
        assert forall|a: int, b: int| 0 <= a < b < all.len() implies all[a] < all[b] by {
            if b < init.len() {
                assert(all[a] == init[a] && all[b] == init[b]);
            } else {
                assert(all[a] == init[a]);
                assert(init[a] < n - 1);
            }
        }
    }
}

impl Stack {
    /// Every branch of the list is a branch of the stack and stands at
    /// depth `level`.
    pub open spec fn level_list(&self, list: Seq<usize>, level: int) -> bool {
        forall|j: int|
            0 <= j < list.len() ==> (#[trigger] list[j]) < self.branches@.len()
                && self.depths()[list[j] as int] == level
    }

    /// Whether each branch is one of several children of its parent, or
    /// one of several roots.
    pub open spec fn wide(&self) -> Seq<bool> {
        Seq::new(
            self.branches@.len(),
            |x: int|
                match self.links()[x] {
                    Some(p) => self.kids()[p as int].len() > 1,
                    None => self.roots@.len() > 1,
                },
        )
    }

    /// From every branch of a walk the links lead up to the branch that the
    /// walk starts from.
    pub proof fn lemma_walk_top(&self, c: int, fuel: nat, r: int)
        requires
            self.wf(),
            0 <= c < self.branches@.len(),
            0 <= r < outline::walk(self.kids(), c, fuel).len(),
        ensures
            ({
                let x = outline::walk(self.kids(), c, fuel)[r];
                &&& 0 <= x < self.branches@.len()
                &&& self.depths()[x] >= self.depths()[c]
                &&& up(self.links(), x, (self.depths()[x] - self.depths()[c]) as nat) == Some(c)
            }),
        decreases fuel, 0nat,
    {
        if r > 0 {
            let list = self.kids()[c];
            let level = self.depths()[c] + 1;
            self.lemma_child_is_lower(c);
            self.lemma_child_links(c);
            assert(self.level_list(list, level)) by {
                assert forall|j: int| 0 <= j < list.len() implies (#[trigger] list[j])
                    < self.branches@.len() && self.depths()[list[j] as int] == level by {
                    assert(self.branches@[c].children@[j] == list[j]);
                }
            }
            let below = outline::walk_all(self.kids(), list, 0, (fuel - 1) as nat);
            assert(outline::walk(self.kids(), c, fuel)[r] == below[r - 1]);
            let j = self.lemma_list_top(list, level, 0, (fuel - 1) as nat, r - 1);
            let x = below[r - 1];
            let d = (self.depths()[x] - level) as nat;
            assert(self.branches@[c].children@[j] == list[j]);
            assert(self.links()[list[j] as int] == Some(c as usize));
            assert(up(self.links(), x, d) == Some(list[j] as int));
            assert(((d + 1) - 1) as nat == d);
            assert(0 <= list[j] < self.links().len());
            assert(self.branches.len() == self.branches@.len());
            assert(c as usize as int == c);
            assert(up(self.links(), x, d + 1) == Some(c));
            assert((self.depths()[x] - self.depths()[c]) as nat == d + 1);
        }
    }

    /// From every branch of the walks of a list the links lead up to a
    /// branch of the list.
    pub proof fn lemma_list_top(
        &self,
        list: Seq<usize>,
        level: int,
        k: int,
        fuel: nat,
        r: int,
    ) -> (j: int)
        requires
            self.wf(),
            self.level_list(list, level),
            0 <= k,
            0 <= r < outline::walk_all(self.kids(), list, k, fuel).len(),
        ensures
            k <= j < list.len(),
            ({
                let x = outline::walk_all(self.kids(), list, k, fuel)[r];
                &&& 0 <= x < self.branches@.len()
                &&& self.depths()[x] >= level
                &&& up(self.links(), x, (self.depths()[x] - level) as nat) == Some(list[j] as int)
            }),
        decreases fuel, list.len() - k,
    {
        let first = outline::walk(self.kids(), list[k] as int, fuel);
        let rest = outline::walk_all(self.kids(), list, k + 1, fuel);
        assert(outline::walk_all(self.kids(), list, k, fuel) =~= first + rest);
        assert(list[k] < self.branches@.len());
        if r < first.len() {
            self.lemma_walk_top(list[k] as int, fuel, r);
            k
        } else {
            self.lemma_list_top(list, level, k + 1, fuel, r - first.len())
        }
    }

    /// No branch occurs twice in a walk.
    pub proof fn lemma_walk_distinct(&self, c: int, fuel: nat)
        requires
            self.wf(),
            0 <= c < self.branches@.len(),
        ensures
            outline::walk(self.kids(), c, fuel).no_duplicates(),
        decreases fuel, 0nat,
    {
        let order = outline::walk(self.kids(), c, fuel);
        if fuel > 0 {
            let n = self.branches@.len() as int;
            let list = self.kids()[c];
            let level = self.depths()[c] + 1;
            assert(self.branches.len() == self.branches@.len());
            self.lemma_child_is_lower(c);
            assert(self.kids_ok(c));
            lemma_kids_rise(self.links(), c, n);
            assert(self.level_list(list, level)) by {
                assert forall|j: int| 0 <= j < list.len() implies (#[trigger] list[j])
                    < self.branches@.len() && self.depths()[list[j] as int] == level by {
                    assert(self.branches@[c].children@[j] == list[j]);
                }
            }
            self.lemma_list_distinct(list, level, 0, (fuel - 1) as nat);
            self.lemma_walk_all_is_deeper(c, 0, (fuel - 1) as nat);
            let below = outline::walk_all(self.kids(), list, 0, (fuel - 1) as nat);
            assert(order =~= seq![c] + below);
            assert forall|i: int, j: int|
                0 <= i < order.len() && 0 <= j < order.len() && i != j implies order[i]
                != order[j] by {
                if i > 0 {
                    assert(order[i] == below[i - 1]);
                }
                if j > 0 {
                    assert(order[j] == below[j - 1]);
                }
            }
        } else {
            assert(order =~= seq![c]);
        }
    }

    /// No branch occurs twice in the walks of a list whose places rise.
    pub proof fn lemma_list_distinct(&self, list: Seq<usize>, level: int, k: int, fuel: nat)
        requires
            self.wf(),
            self.level_list(list, level),
            rising(list),
            0 <= k,
        ensures
            outline::walk_all(self.kids(), list, k, fuel).no_duplicates(),
        decreases fuel, list.len() - k,
    {
        let order = outline::walk_all(self.kids(), list, k, fuel);
        if k < list.len() {
            let first = outline::walk(self.kids(), list[k] as int, fuel);
            let rest = outline::walk_all(self.kids(), list, k + 1, fuel);
            assert(order =~= first + rest);
            assert(list[k] < self.branches@.len());
            self.lemma_walk_distinct(list[k] as int, fuel);
            self.lemma_list_distinct(list, level, k + 1, fuel);
            let m = first.len() as int;
            assert forall|a: int, b: int| 0 <= a < m && 0 <= b < rest.len() implies first[a]
                != rest[b] by {
                self.lemma_walk_top(list[k] as int, fuel, a);
                let j = self.lemma_list_top(list, level, k + 1, fuel, b);
                assert(list[k] < list[j]);
            }
            assert forall|i: int, j: int|
                0 <= i < order.len() && 0 <= j < order.len() && i != j implies order[i]
                != order[j] by {
                if i < m && j < m {
                    assert(order[i] == first[i] && order[j] == first[j]);
                } else if i >= m && j >= m {
                    assert(order[i] == rest[i - m] && order[j] == rest[j - m]);
                } else if i < m {
                    assert(order[i] == first[i] && order[j] == rest[j - m]);
                } else {
                    assert(order[j] == first[j] && order[i] == rest[i - m]);
                }
            }
        }
    }

    /// The outline names no branch twice.
    pub proof fn lemma_preorder_distinct(&self)
        requires
            self.wf(),
        ensures
            self.preorder().no_duplicates(),
    {
        let n = self.branches@.len();
        assert(self.branches.len() == self.branches@.len());
        lemma_roots_rise(self.links(), n as int);
        stack::lemma_roots_upto(self.links(), n as int);
        assert(self.level_list(self.roots@, 0)) by {
            assert forall|j: int| 0 <= j < self.roots@.len() implies (#[trigger] self.roots@[j])
                < self.branches@.len() && self.depths()[self.roots@[j] as int] == 0 by {
                assert(self.level_ok(self.roots@[j] as int));
            }
        }
        self.lemma_list_distinct(self.roots@, 0, 0, n as nat);
    }
}

/// A walk in which no branch occurs twice, over the first `n` branches, is
/// no longer than `n`.
pub proof fn lemma_walk_is_short(order: Seq<int>, n: int)
    requires
        0 <= n,
        order.no_duplicates(),
        within(order, n),
    ensures
        order.len() <= n,
{
    order.unique_seq_to_set();
    vstd::set_lib::lemma_int_range(0, n);
    assert(order.to_set().subset_of(vstd::set_lib::set_int_range(0, n))) by {
        assert forall|x: int| order.to_set().contains(x) implies vstd::set_lib::set_int_range(
            0,
            n,
        ).contains(x) by {
            assert(order.contains(x));
            let r = choose|r: int| 0 <= r < order.len() && order[r] == x;
            assert(0 <= order[r] < n);
        }
    }
    vstd::set_lib::lemma_len_subset(order.to_set(), vstd::set_lib::set_int_range(0, n));
}

/// Of two side stacks the one that the walk finds later has the lower id,
/// and the id of a side stack is below 0.  A branch starts a side stack
/// where it is one of several children, or one of several roots, and is not
/// the current branch or one of its ancestors; the walk finds the branches
/// in the order of the outline.  The ids of side stacks are distinct and
/// strictly ordered unless the ids have run out, which they have not in a
/// forest of no more branches than the greatest stack id counts.
pub proof fn lemma_later_side_stacks_lie_lower(before: &Stack, after: &Stack, current: Seq<char>)
    requires
        before.wf(),
        Stack::is_assignment(before, after, current),
    ensures
        before.preorder().no_duplicates(),
        forall|a: int, b: int|
            0 <= a < b < before.preorder().len() && diverges(
                stack::trunk(before.links(), before.place_of(current)),
                before.wide(),
                #[trigger] before.preorder()[a],
            ) && diverges(
                stack::trunk(before.links(), before.place_of(current)),
                before.wide(),
                #[trigger] before.preorder()[b],
            ) ==> lies_below(after.ids(), before.preorder()[b], before.preorder()[a]),
        forall|r: int|
            0 <= r < before.preorder().len() && diverges(
                stack::trunk(before.links(), before.place_of(current)),
                before.wide(),
                #[trigger] before.preorder()[r],
            ) ==> after.ids()[before.preorder()[r]] < 0,
        before.branches@.len() <= i64::MAX ==> forall|a: int, b: int|
            0 <= a < b < before.preorder().len() && diverges(
                stack::trunk(before.links(), before.place_of(current)),
                before.wide(),
                #[trigger] before.preorder()[a],
            ) && diverges(
                stack::trunk(before.links(), before.place_of(current)),
                before.wide(),
                #[trigger] before.preorder()[b],
            ) ==> after.ids()[before.preorder()[b]] < after.ids()[before.preorder()[a]],
{
    let n = before.branches@.len();
    let kids = before.kids();
    let pinned = stack::trunk(before.links(), before.place_of(current));
    let wide = before.wide();
    let order = before.preorder();
    assert(before.branches.len() == before.branches@.len());
    before.lemma_preorder_distinct();
    before.lemma_roots_are_branches(0);
    before.lemma_wf_in_range();
    stack::lemma_roots_upto(before.links(), n as int);
    assert(wide_kids(wide, kids)) by {
        assert forall|i: int| 0 <= i < kids.len() implies wide_list(wide, #[trigger] kids[i]) by {
            before.lemma_child_links(i);
            before.lemma_child_is_lower(i);
            assert forall|k: int| 0 <= k < kids[i].len() implies (#[trigger] kids[i][k])
                < wide.len() && wide[kids[i][k] as int] == (kids[i].len() > 1) by {
                assert(before.branches@[i].children@[k] == kids[i][k]);
            }
        }
    }
    assert(wide_list(wide, before.roots@));
    let start = stack::blank(n as nat);
    lemma_children_fall(kids, pinned, wide, before.roots@, 0, 0, n as nat, start);
    let marks = stack::assigned_marks(kids, before.roots@, pinned);
    assert(after.ids() == marks.ids);
    assert(falling(pinned, wide, order, marks.ids, 0));
    assert(between(pinned, wide, order, marks.ids, 0, marks.counter, 0));
    lemma_walk_is_short(order, n as int);
    if n <= i64::MAX {
        assert forall|a: int, b: int|
            0 <= a < b < order.len() && diverges(pinned, wide, #[trigger] order[a]) && diverges(
                pinned,
                wide,
                #[trigger] order[b],
            ) implies marks.ids[order[b]] < marks.ids[order[a]] by {
            assert(lies_below(marks.ids, order[b], order[a]));
            assert(marks.counter <= marks.ids[order[b]]);
        }
    }
}

} // verus!
