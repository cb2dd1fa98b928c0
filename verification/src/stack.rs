//! The stack: every local branch with its place in the forest of lineages.
//!
//! The branches are kept in one flat vector, in the order in which the
//! repository lists them, and point at each other by their place in it.  A
//! branch whose tracked parent is a local branch hangs below that parent; any
//! other branch is a root.  Children are never stored on their own account:
//! they are the inverse of the parent links.

use vstd::prelude::*;
use crate::branches;
use crate::color_cycle;
use crate::color_cycle::Color;
use crate::git::Git;
use crate::log_tree::LogCommit;
use crate::text;

verus! {

/// A branch of the stack.
#[derive(Debug)]
pub struct Branch {
    pub name: String,
    /// The id of the commit at the branch's tip, once it is known.
    pub sha: String,
    /// The upstream that the branch tracks, local or remote.
    pub parent: Option<String>,
    /// Where the parent stands in the stack, when it is a local branch.
    pub local_parent: Option<usize>,
    /// Where the branches stand that hang below this one.
    pub children: Vec<usize>,
    /// The number of parent links between the branch and its root.
    pub depth: usize,
    pub stack_id: i64,
    pub color: Color,
    /// The commits that the branch has and its parent has not, oldest first.
    pub commits: Vec<LogCommit>,
}

/// The forest of branches.
#[derive(Debug)]
pub struct Stack {
    pub branches: Vec<Branch>,
    /// Where the branches without a local parent stand.
    pub roots: Vec<usize>,
    /// The depth that no branch exceeds.
    pub height: usize,
}

/// The marks that a walk over the forest leaves on it.
pub ghost struct Marks {
    /// The stack id of each branch.
    pub ids: Seq<int>,
    /// The place in the palette of each branch's colour.
    pub shades: Seq<int>,
    /// The last stack id that was handed out.
    pub counter: int,
    /// The place in the palette on which the walk stands.
    pub shade: int,
}

/// The first place at or after `from` where `name` stands in `names`, or
/// their number.
pub open spec fn position(names: Seq<Seq<char>>, name: Seq<char>, from: int) -> int
    decreases names.len() - from,
{
    if from < 0 || from >= names.len() {
        names.len() as int
    } else if names[from] == name {
        from
    } else {
        position(names, name, from + 1)
    }
}

/// The parent link of the `i`-th local branch: the place of the first local
/// branch that bears the name of its tracked upstream.
pub open spec fn link_spec(
    edges: Seq<(Seq<char>, Seq<char>)>,
    locals: Seq<Seq<char>>,
    i: int,
) -> Option<usize> {
    match branches::upstream_of(edges, locals[i]) {
        None => None,
        Some(parent) => if position(locals, parent, 0) < locals.len() {
            Some(position(locals, parent, 0) as usize)
        } else {
            None
        },
    }
}

/// The parent links of all local branches.
pub open spec fn links_spec(edges: Seq<(Seq<char>, Seq<char>)>, locals: Seq<Seq<char>>) -> Seq<
    Option<usize>,
> {
    Seq::new(locals.len(), |i: int| link_spec(edges, locals, i))
}

/// The number of links between branch `i` and its root, if the root is
/// reached within `fuel` links.
pub open spec fn hops(links: Seq<Option<usize>>, i: int, fuel: nat) -> Option<nat>
    decreases fuel,
{
    if i < 0 || i >= links.len() {
        None
    } else {
        match links[i] {
            None => Some(0nat),
            Some(p) => if fuel == 0 {
                None
            } else {
                match hops(links, p as int, (fuel - 1) as nat) {
                    Some(d) => Some(d + 1),
                    None => None,
                }
            },
        }
    }
}

/// The links form a forest: from every branch a root is reached, within as
/// many links as there are branches.
pub open spec fn is_forest(links: Seq<Option<usize>>) -> bool {
    forall|i: int| 0 <= i < links.len() ==> (#[trigger] hops(links, i, links.len())) is Some
}

/// The branches among the first `n` whose parent link points at `parent`, in
/// rising order.
pub open spec fn kids_upto(links: Seq<Option<usize>>, parent: int, n: int) -> Seq<usize>
    decreases n,
{
    if n <= 0 {
        Seq::empty()
    } else {
        let init = kids_upto(links, parent, n - 1);
        if links[n - 1] == Some(parent as usize) {
            init.push((n - 1) as usize)
        } else {
            init
        }
    }
}

/// The branches among the first `n` that have no parent link, in rising
/// order.
pub open spec fn roots_upto(links: Seq<Option<usize>>, n: int) -> Seq<usize>
    decreases n,
{
    if n <= 0 {
        Seq::empty()
    } else {
        let init = roots_upto(links, n - 1);
        if links[n - 1] is None {
            init.push((n - 1) as usize)
        } else {
            init
        }
    }
}

/// Whether branch `i` is `start` or one of its ancestors, within `fuel`
/// links above it.
pub open spec fn on_trunk(links: Seq<Option<usize>>, start: Option<usize>, i: int, fuel: nat) -> bool
    decreases fuel,
{
    match start {
        None => false,
        Some(c) => c == i || (fuel > 0 && c < links.len() && on_trunk(
            links,
            links[c as int],
            i,
            (fuel - 1) as nat,
        )),
    }
}

/// The branches that the walk up from `start` pins.
pub open spec fn trunk(links: Seq<Option<usize>>, start: Option<usize>) -> Seq<bool> {
    Seq::new(links.len(), |i: int| on_trunk(links, start, i, links.len()))
}

/// The next stack id below `counter`.  The ids stop falling at the least
/// number that fits a stack id.
pub open spec fn lower(counter: int) -> int {
    if counter > i64::MIN {
        counter - 1
    } else {
        counter
    }
}

/// The marks after the walk has visited `node`, which was handed `id`, and
/// everything within `fuel` levels below it.  A pinned branch keeps the id 0
/// whatever it is handed; the branch takes the colour on which the walk
/// stands.
pub open spec fn visit_spec(
    kids: Seq<Seq<usize>>,
    pinned: Seq<bool>,
    node: int,
    id: int,
    fuel: nat,
    m: Marks,
) -> Marks
    decreases fuel, 0nat,
{
    if node < 0 || node >= m.ids.len() {
        m
    } else {
        let own = if pinned[node] {
            0
        } else {
            id
        };
        let marked = Marks {
            ids: m.ids.update(node, own),
            shades: m.shades.update(node, m.shade),
            ..m
        };
        if fuel == 0 {
            marked
        } else {
            visit_children(kids, pinned, kids[node], own, 0, (fuel - 1) as nat, marked)
        }
    }
}

/// The marks after the walk has visited the children from the `k`-th on.  An
/// only child is handed its parent's id.  Where there are several, the
/// counter falls by one for each child and the child is handed the new
/// value.  The colour moves on by one before every child but the first.
pub open spec fn visit_children(
    kids: Seq<Seq<usize>>,
    pinned: Seq<bool>,
    list: Seq<usize>,
    own: int,
    k: int,
    fuel: nat,
    m: Marks,
) -> Marks
    decreases fuel, list.len() - k,
{
    if k < 0 || k >= list.len() {
        m
    } else {
        let shade = if k > 0 {
            (m.shade + 1) % (color_cycle::PALETTE_SIZE as int)
        } else {
            m.shade
        };
        let counter = if list.len() > 1 {
            lower(m.counter)
        } else {
            m.counter
        };
        let id = if list.len() > 1 {
            counter
        } else {
            own
        };
        let after = visit_spec(
            kids,
            pinned,
            list[k] as int,
            id,
            fuel,
            Marks { counter, shade, ..m },
        );
        visit_children(kids, pinned, list, own, k + 1, fuel, after)
    }
}

/// The marks of a forest on which no walk has been yet.
pub open spec fn blank(n: nat) -> Marks {
    Marks { ids: Seq::new(n, |i: int| 0int), shades: Seq::new(n, |i: int| 0int), counter: 0, shade: 0 }
}

/// The marks that the assignment leaves: the walk starts from blank marks
/// and takes the roots as the children of one unseen branch with the id 0.
pub open spec fn assigned_marks(
    kids: Seq<Seq<usize>>,
    roots: Seq<usize>,
    pinned: Seq<bool>,
) -> Marks {
    visit_children(kids, pinned, roots, 0, 0, kids.len(), blank(kids.len()))
}

/// Whether `a` comes before `b` on display: the greater stack id first, so
/// that the trunk comes before the side stacks; within one stack the deeper
/// branch first, so that a stack reads from its tip to its root; and of two
/// branches with the same id and depth the one that the repository lists
/// first.
pub open spec fn shown_before(ids: Seq<int>, depths: Seq<int>, a: int, b: int) -> bool {
    ids[a] > ids[b] || (ids[a] == ids[b] && (depths[a] > depths[b] || (depths[a] == depths[b] && a
        < b)))
}

/// A root that is reached within some links is reached within more, after
/// as many.
pub proof fn lemma_hops_more_fuel(links: Seq<Option<usize>>, i: int, less: nat, more: nat)
    requires
        less <= more,
        hops(links, i, less) is Some,
    ensures
        hops(links, i, more) == hops(links, i, less),
    decreases less,
{
    if 0 <= i < links.len() {
        match links[i] {
            None => {},
            Some(p) => {
                lemma_hops_more_fuel(links, p as int, (less - 1) as nat, (more - 1) as nat);
            },
        }
    }
}

/// In a forest a branch stands one level below its parent.
pub proof fn lemma_hops_step(links: Seq<Option<usize>>, i: int)
    requires
        is_forest(links),
        0 <= i < links.len(),
        links[i] is Some,
    ensures
        0 <= links[i]->0 < links.len(),
        hops(links, i, links.len())->0 == hops(links, links[i]->0 as int, links.len())->0 + 1,
{
    let n = links.len();
    let p = links[i]->0 as int;
    assert(hops(links, i, n) is Some);
    assert(hops(links, p, (n - 1) as nat) is Some);
    lemma_hops_more_fuel(links, p, (n - 1) as nat, n);
}

/// The branches that `kids_upto` names are those, and only those, whose
/// link points at the parent.
pub proof fn lemma_kids_upto(links: Seq<Option<usize>>, parent: int, n: int)
    requires
        0 <= n <= links.len(),
        0 <= parent <= usize::MAX,
        n <= usize::MAX,
    ensures
        forall|k: int|
            0 <= k < kids_upto(links, parent, n).len() ==> {
                &&& (#[trigger] kids_upto(links, parent, n)[k]) < n
                &&& links[kids_upto(links, parent, n)[k] as int] == Some(parent as usize)
            },
        forall|j: usize|
            j < n && links[j as int] == Some(parent as usize) ==> #[trigger] kids_upto(
                links,
                parent,
                n,
            ).contains(j),
    decreases n,
{
    if n > 0 {
        lemma_kids_upto(links, parent, n - 1);
        let init = kids_upto(links, parent, n - 1);
        let all = kids_upto(links, parent, n);
        assert forall|j: usize|
            j < n && links[j as int] == Some(parent as usize) implies #[trigger] all.contains(
            j,
        ) by {
            if j < n - 1 {
                assert(init.contains(j));
                let k = choose|k: int| 0 <= k < init.len() && init[k] == j;
                assert(all[k] == j);
            } else {
                assert(all[all.len() - 1] == j);
            }
        }
    }
}

/// The walk changes neither how many branches bear marks nor the colour's
/// range, and it leaves the id 0 on every pinned branch that had it.
pub proof fn lemma_visit_keeps_trunk(
    kids: Seq<Seq<usize>>,
    pinned: Seq<bool>,
    node: int,
    id: int,
    fuel: nat,
    m: Marks,
)
    requires
        pinned.len() == m.ids.len(),
        forall|i: int| 0 <= i < m.ids.len() && pinned[i] ==> m.ids[i] == 0,
    ensures
        visit_spec(kids, pinned, node, id, fuel, m).ids.len() == m.ids.len(),
        forall|i: int|
            0 <= i < m.ids.len() && pinned[i] ==> visit_spec(kids, pinned, node, id, fuel, m).ids[i]
                == 0,
    decreases fuel, 0nat,
{
    if 0 <= node < m.ids.len() {
        let own = if pinned[node] {
            0
        } else {
            id
        };
        let marked = Marks {
            ids: m.ids.update(node, own),
            shades: m.shades.update(node, m.shade),
            ..m
        };
        if fuel > 0 {
            lemma_visit_children_keeps_trunk(
                kids,
                pinned,
                kids[node],
                own,
                0,
                (fuel - 1) as nat,
                marked,
            );
        }
    }
}

/// The walk over children leaves the id 0 on every pinned branch that had
/// it.
pub proof fn lemma_visit_children_keeps_trunk(
    kids: Seq<Seq<usize>>,
    pinned: Seq<bool>,
    list: Seq<usize>,
    own: int,
    k: int,
    fuel: nat,
    m: Marks,
)
    requires
        pinned.len() == m.ids.len(),
        forall|i: int| 0 <= i < m.ids.len() && pinned[i] ==> m.ids[i] == 0,
    ensures
        visit_children(kids, pinned, list, own, k, fuel, m).ids.len() == m.ids.len(),
        forall|i: int|
            0 <= i < m.ids.len() && pinned[i] ==> visit_children(
                kids,
                pinned,
                list,
                own,
                k,
                fuel,
                m,
            ).ids[i] == 0,
    decreases fuel, list.len() - k,
{
    if 0 <= k < list.len() {
        let shade = if k > 0 {
            (m.shade + 1) % (color_cycle::PALETTE_SIZE as int)
        } else {
            m.shade
        };
        let counter = if list.len() > 1 {
            lower(m.counter)
        } else {
            m.counter
        };
        let id = if list.len() > 1 {
            counter
        } else {
            own
        };
        let start = Marks { counter, shade, ..m };
        lemma_visit_keeps_trunk(kids, pinned, list[k] as int, id, fuel, start);
        let after = visit_spec(kids, pinned, list[k] as int, id, fuel, start);
        lemma_visit_children_keeps_trunk(kids, pinned, list, own, k + 1, fuel, after);
    }
}

/// The current branch and every ancestor of it bear the stack id 0 once the
/// ids are assigned, whatever the rest of the forest looks like.
pub proof fn lemma_trunk_is_zero(kids: Seq<Seq<usize>>, roots: Seq<usize>, pinned: Seq<bool>)
    requires
        pinned.len() == kids.len(),
    ensures
        assigned_marks(kids, roots, pinned).ids.len() == kids.len(),
        forall|i: int|
            0 <= i < kids.len() && pinned[i] ==> assigned_marks(kids, roots, pinned).ids[i] == 0,
{
    lemma_visit_children_keeps_trunk(kids, pinned, roots, 0, 0, kids.len(), blank(kids.len()));
}

/// No id is above 0 and none is below the counter, which is not above 0
/// either.
pub open spec fn in_bounds(m: Marks) -> bool {
    &&& m.counter <= 0
    &&& forall|i: int| 0 <= i < m.ids.len() ==> m.counter <= #[trigger] m.ids[i] <= 0
}

/// The walk keeps the ids between the counter and 0, and the counter never
/// rises.
pub proof fn lemma_visit_in_bounds(
    kids: Seq<Seq<usize>>,
    pinned: Seq<bool>,
    node: int,
    id: int,
    fuel: nat,
    m: Marks,
)
    requires
        in_bounds(m),
        m.counter <= id <= 0,
    ensures
        in_bounds(visit_spec(kids, pinned, node, id, fuel, m)),
        visit_spec(kids, pinned, node, id, fuel, m).counter <= m.counter,
    decreases fuel, 0nat,
{
    if 0 <= node < m.ids.len() {
        let own = if pinned[node] {
            0
        } else {
            id
        };
        let marked = Marks {
            ids: m.ids.update(node, own),
            shades: m.shades.update(node, m.shade),
            ..m
        };
        assert(in_bounds(marked));
        if fuel > 0 {
            lemma_visit_children_in_bounds(
                kids,
                pinned,
                kids[node],
                own,
                0,
                (fuel - 1) as nat,
                marked,
            );
        }
    }
}

/// The walk over children keeps the ids between the counter and 0, and the
/// counter never rises.
pub proof fn lemma_visit_children_in_bounds(
    kids: Seq<Seq<usize>>,
    pinned: Seq<bool>,
    list: Seq<usize>,
    own: int,
    k: int,
    fuel: nat,
    m: Marks,
)
    requires
        in_bounds(m),
        m.counter <= own <= 0,
    ensures
        in_bounds(visit_children(kids, pinned, list, own, k, fuel, m)),
        visit_children(kids, pinned, list, own, k, fuel, m).counter <= m.counter,
    decreases fuel, list.len() - k,
{
    if 0 <= k < list.len() {
        let shade = if k > 0 {
            (m.shade + 1) % (color_cycle::PALETTE_SIZE as int)
        } else {
            m.shade
        };
        let counter = if list.len() > 1 {
            lower(m.counter)
        } else {
            m.counter
        };
        let id = if list.len() > 1 {
            counter
        } else {
            own
        };
        let start = Marks { counter, shade, ..m };
        assert(in_bounds(start));
        lemma_visit_in_bounds(kids, pinned, list[k] as int, id, fuel, start);
        let after = visit_spec(kids, pinned, list[k] as int, id, fuel, start);
        lemma_visit_children_in_bounds(kids, pinned, list, own, k + 1, fuel, after);
    }
}

/// Once the ids are assigned no branch has an id above 0.  The trunk has
/// the 0; an id that is handed out where a branch has several children is
/// the counter after it has fallen, and so below 0 and below every id that
/// was handed out before it.
pub proof fn lemma_ids_never_positive(kids: Seq<Seq<usize>>, roots: Seq<usize>, pinned: Seq<bool>)
    ensures
        in_bounds(assigned_marks(kids, roots, pinned)),
        forall|counter: int| counter <= 0 ==> #[trigger] lower(counter) < 0,
        forall|counter: int| i64::MIN < counter ==> #[trigger] lower(counter) < counter,
{
    lemma_visit_children_in_bounds(kids, pinned, roots, 0, 0, kids.len(), blank(kids.len()));
}

/// The first place where `name` stands in `names`, or their number.
pub fn find_name(names: &Vec<String>, name: &str) -> (r: usize)
    ensures
        r == position(text::views(names@), name@, 0),
        r <= names@.len(),
{
    let mut i: usize = 0;
    while i < names.len() && *names[i].as_str() != *name
        invariant
            i <= names.len(),
            position(text::views(names@), name@, 0) == position(
                text::views(names@),
                name@,
                i as int,
            ),
        decreases names.len() - i,
    {
        i += 1;
    }
    i
}

/// The number of links between branch `i` and its root, or nothing where no
/// root is reached within as many links as there are branches.
pub fn count_hops(links: &Vec<Option<usize>>, i: usize) -> (r: Option<usize>)
    requires
        i < links@.len(),
        forall|j: int| 0 <= j < links@.len() && links@[j] is Some ==> links@[j]->0 < links@.len(),
    ensures
        r is Some <==> hops(links@, i as int, links@.len()) is Some,
        r is Some ==> r->0 == hops(links@, i as int, links@.len())->0,
        r is Some ==> r->0 <= links@.len(),
{
    let n = links.len();
    let mut cur: usize = i;
    let mut d: usize = 0;
    loop
        invariant
            n == links@.len(),
            cur < n,
            d <= n,
            forall|j: int| 0 <= j < links@.len() && links@[j] is Some ==> links@[j]->0 < links@.len(),
            hops(links@, i as int, n as nat) is Some <==> hops(links@, cur as int, (n - d) as nat) is Some,
            hops(links@, i as int, n as nat) is Some ==> hops(links@, i as int, n as nat)->0 == hops(
                links@,
                cur as int,
                (n - d) as nat,
            )->0 + d,
        decreases n - d,
    {
        match links[cur] {
            None => {
                return Some(d);
            },
            Some(p) => {
                if d == n {
                    return None;
                }
                cur = p;
                d += 1;
            },
        }
    }
}

impl Stack {
    /// The names of the branches.
    pub open spec fn names(&self) -> Seq<Seq<char>> {
        Seq::new(self.branches@.len(), |i: int| self.branches@[i].name@)
    }

    /// The parent links of the branches.
    pub open spec fn links(&self) -> Seq<Option<usize>> {
        Seq::new(self.branches@.len(), |i: int| self.branches@[i].local_parent)
    }

    /// The children of the branches.
    pub open spec fn kids(&self) -> Seq<Seq<usize>> {
        Seq::new(self.branches@.len(), |i: int| self.branches@[i].children@)
    }

    /// The depths of the branches.
    pub open spec fn depths(&self) -> Seq<int> {
        Seq::new(self.branches@.len(), |i: int| self.branches@[i].depth as int)
    }

    /// The stack ids of the branches.
    pub open spec fn ids(&self) -> Seq<int> {
        Seq::new(self.branches@.len(), |i: int| self.branches@[i].stack_id as int)
    }

    /// The places in the palette of the branches' colours.
    pub open spec fn shades(&self) -> Seq<int> {
        Seq::new(self.branches@.len(), |i: int| color_cycle::shade_of(self.branches@[i].color))
    }

    /// The stack is a forest: every parent link points into the stack, a
    /// branch stands one level below its parent and a root stands at depth
    /// 0, and the children and the roots are what the parent links say.
    pub open spec fn wf(&self) -> bool {
        let n = self.branches@.len();
        &&& forall|i: int| 0 <= i < n ==> #[trigger] self.level_ok(i)
        &&& forall|i: int| 0 <= i < n ==> #[trigger] self.kids_ok(i)
        &&& forall|i: int| 0 <= i < n ==> (#[trigger] self.depths()[i]) <= self.height
        &&& self.height <= n
        &&& self.roots@ == roots_upto(self.links(), n as int)
    }

    /// Branch `i` stands one level below its parent, or at depth 0 if it has
    /// none.
    pub open spec fn level_ok(&self, i: int) -> bool {
        match self.branches@[i].local_parent {
            Some(p) => p < self.branches@.len() && self.branches@[i].depth
                == self.branches@[p as int].depth + 1,
            None => self.branches@[i].depth == 0,
        }
    }

    /// The children of branch `i` are the branches whose link points at it.
    pub open spec fn kids_ok(&self, i: int) -> bool {
        self.branches@[i].children@ == kids_upto(self.links(), i, self.branches@.len() as int)
    }

    /// Every child and every root is a place of the stack.
    pub open spec fn in_range(&self) -> bool {
        &&& forall|k: int|
            0 <= k < self.roots@.len() ==> (#[trigger] self.roots@[k]) < self.branches@.len()
        &&& forall|i: int, k: int|
            0 <= i < self.branches@.len() && 0 <= k < self.branches@[i].children@.len()
                ==> (#[trigger] self.branches@[i].children@[k]) < self.branches@.len()
    }

    /// In a forest every child and every root is a place of the stack.
    pub proof fn lemma_wf_in_range(&self)
        requires
            self.wf(),
        ensures
            self.in_range(),
    {
        let n = self.branches@.len() as int;
        assert(self.branches.len() == self.branches@.len());
        assert forall|i: int, k: int|
            0 <= i < self.branches@.len() && 0 <= k
                < self.branches@[i].children@.len() implies (
        #[trigger] self.branches@[i].children@[k]) < self.branches@.len() by {
            lemma_kids_upto(self.links(), i, n);
            assert(self.kids_ok(i));
        }
        assert forall|k: int| 0 <= k < self.roots@.len() implies (#[trigger] self.roots@[k])
            < self.branches@.len() by {
            lemma_roots_upto(self.links(), n);
        }
    }

    /// In a forest a child stands one level below the branch it hangs from,
    /// and no deeper than the forest is high.
    pub proof fn lemma_child_is_lower(&self, i: int)
        requires
            self.wf(),
            0 <= i < self.branches@.len(),
        ensures
            forall|k: int|
                0 <= k < self.branches@[i].children@.len() ==> {
                    &&& (#[trigger] self.branches@[i].children@[k]) < self.branches@.len()
                    &&& self.branches@[self.branches@[i].children@[k] as int].depth
                        == self.branches@[i].depth + 1
                    &&& self.branches@[i].depth < self.height
                },
    {
        let n = self.branches@.len() as int;
        assert(self.branches.len() == self.branches@.len());
        lemma_kids_upto(self.links(), i, n);
        assert(self.kids_ok(i));
        assert forall|k: int| 0 <= k < self.branches@[i].children@.len() implies {
            &&& (#[trigger] self.branches@[i].children@[k]) < self.branches@.len()
            &&& self.branches@[self.branches@[i].children@[k] as int].depth
                == self.branches@[i].depth + 1
            &&& self.branches@[i].depth < self.height
        } by {
            let c = self.branches@[i].children@[k] as int;
            assert(self.links()[c] == Some(i as usize));
            assert(self.level_ok(c));
            assert(self.depths()[c] <= self.height);
        }
    }

    /// A stack of the same shape as a forest is a forest.
    pub proof fn lemma_same_shape_wf(&self, other: &Stack)
        requires
            other.wf(),
            self.same_shape(other),
        ensures
            self.wf(),
            self.links() == other.links(),
            self.kids() == other.kids(),
            self.names() == other.names(),
            self.depths() == other.depths(),
    {
        assert(self.links() =~= other.links());
        assert(self.kids() =~= other.kids());
        assert(self.names() =~= other.names());
        assert(self.depths() =~= other.depths());
        let n = self.branches@.len();
        assert forall|i: int| 0 <= i < n implies #[trigger] self.kids_ok(i) by {
            assert(other.kids_ok(i));
        }
        assert forall|i: int| 0 <= i < n implies #[trigger] self.level_ok(i) by {
            assert(other.level_ok(i));
        }
    }

    /// The two stacks differ in nothing but their stack ids and colours.
    pub open spec fn same_shape(&self, other: &Stack) -> bool {
        &&& self.roots == other.roots
        &&& self.height == other.height
        &&& self.branches@.len() == other.branches@.len()
        &&& forall|i: int|
            0 <= i < self.branches@.len() ==> {
                &&& (#[trigger] self.branches@[i]).name == other.branches@[i].name
                &&& self.branches@[i].sha == other.branches@[i].sha
                &&& self.branches@[i].parent == other.branches@[i].parent
                &&& self.branches@[i].local_parent == other.branches@[i].local_parent
                &&& self.branches@[i].children == other.branches@[i].children
                &&& self.branches@[i].depth == other.branches@[i].depth
                &&& self.branches@[i].commits == other.branches@[i].commits
            }
    }

    /// Where the branch of that name stands, if the stack has one.
    pub open spec fn place_of(&self, name: Seq<char>) -> Option<usize> {
        if position(self.names(), name, 0) < self.branches@.len() {
            Some(position(self.names(), name, 0) as usize)
        } else {
            None
        }
    }

    /// `after` is `before` with its stack ids and colours assigned for the
    /// current branch `current`.
    pub open spec fn is_assignment(before: &Stack, after: &Stack, current: Seq<char>) -> bool {
        let marks = assigned_marks(
            before.kids(),
            before.roots@,
            trunk(before.links(), before.place_of(current)),
        );
        &&& after.same_shape(before)
        &&& after.ids() == marks.ids
        &&& after.shades() == marks.shades
    }

    /// The forest of the repository's local branches.  Each branch hangs
    /// below the first local branch that bears the name of its tracked
    /// upstream; nothing is built where these links do not form a forest.
    /// All stack ids are 0 and no branch has commits yet.
    pub fn build(git: &Git) -> (r: Option<Stack>)
        ensures
            r is Some <==> is_forest(links_spec(git.edges(), git.locals())),
            r is Some ==> {
                &&& r->0.wf()
                &&& r->0.names() == git.locals()
                &&& r->0.links() == links_spec(git.edges(), git.locals())
                &&& forall|i: int|
                    0 <= i < r->0.branches@.len() ==> {
                        &&& (#[trigger] r->0.branches@[i]).parent is Some
                            <==> branches::upstream_of(git.edges(), git.locals()[i]) is Some
                        &&& r->0.branches@[i].parent is Some ==> r->0.branches@[i].parent->0@
                            == branches::upstream_of(git.edges(), git.locals()[i])->0
                        &&& r->0.branches@[i].stack_id == 0
                        &&& r->0.branches@[i].color == Color::Cyan
                        &&& r->0.branches@[i].sha@.len() == 0
                        &&& r->0.branches@[i].commits@.len() == 0
                    }
                &&& r->0.branches@.len() == 0 ==> r->0.height == 0
                &&& r->0.branches@.len() > 0 ==> exists|i: int|
                    0 <= i < r->0.branches@.len() && (#[trigger] r->0.branches@[i]).depth
                        == r->0.height
            },
    {
        let n = git.heads.len();
        let ghost edges = git.edges();
        let ghost locals = git.locals();
        let ghost want = links_spec(edges, locals);
        let mut links: Vec<Option<usize>> = Vec::new();
        let mut i: usize = 0;
        while i < n
            invariant
                i <= n,
                n == git.heads@.len(),
                edges == git.edges(),
                locals == git.locals(),
                want == links_spec(edges, locals),
                links@ =~= want.take(i as int),
                forall|j: int| 0 <= j < i && links@[j] is Some ==> links@[j]->0 < n,
            decreases n - i,
        {
            let link = match branches::find_upstream(&git.tracking, git.heads[i].as_str()) {
                None => None,
                Some(parent) => {
                    let k = find_name(&git.heads, parent.as_str());
                    if k < n {
                        Some(k)
                    } else {
                        None
                    }
                },
            };
            assert(link == link_spec(edges, locals, i as int));
            links.push(link);
            i += 1;
        }
        assert(links@ =~= want);

        let mut depths: Vec<usize> = Vec::new();
        let mut i: usize = 0;
        while i < n
            invariant
                i <= n,
                n == links@.len(),
                links@ == want,
                want == links_spec(git.edges(), git.locals()),
                depths@.len() == i,
                forall|j: int| 0 <= j < i ==> (#[trigger] depths@[j]) <= n,
                forall|j: int| 0 <= j < links@.len() && links@[j] is Some ==> links@[j]->0 < links@.len(),
                forall|j: int|
                    0 <= j < i ==> hops(links@, j, n as nat) == Some((#[trigger] depths@[j]) as nat),
            decreases n - i,
        {
            match count_hops(&links, i) {
                None => {
                    assert(hops(want, i as int, want.len()) is None);
                    return None;
                },
                Some(d) => {
                    depths.push(d);
                },
            }
            i += 1;
        }
        assert forall|j: int| 0 <= j < links@.len() implies (#[trigger] hops(
            links@,
            j,
            links@.len(),
        )) is Some by {
            assert(hops(links@, j, n as nat) == Some(depths@[j] as nat));
        }
        let mut list: Vec<Branch> = Vec::new();
        let mut i: usize = 0;
        while i < n
            invariant
                i <= n,
                n == links@.len(),
                n == git.heads@.len(),
                links@ == want,
                edges == git.edges(),
                locals == git.locals(),
                depths@.len() == n,
                forall|j: int| 0 <= j < n ==> (#[trigger] depths@[j]) <= n,
                list@.len() == i,
                forall|j: int|
                    0 <= j < i ==> {
                        &&& (#[trigger] list@[j]).name@ == locals[j]
                        &&& list@[j].local_parent == links@[j]
                        &&& list@[j].depth == depths@[j]
                        &&& list@[j].children@ == kids_upto(links@, j, n as int)
                        &&& list@[j].stack_id == 0
                        &&& list@[j].color == Color::Cyan
                        &&& list@[j].sha@.len() == 0
                        &&& list@[j].commits@.len() == 0
                        &&& list@[j].parent is Some <==> branches::upstream_of(edges, locals[j]) is Some
                        &&& list@[j].parent is Some ==> list@[j].parent->0@ == branches::upstream_of(
                            edges,
                            locals[j],
                        )->0
                    },
            decreases n - i,
        {
            let mut below: Vec<usize> = Vec::new();
            let mut j: usize = 0;
            while j < n
                invariant
                    j <= n,
                    n == links@.len(),
                    below@ == kids_upto(links@, i as int, j as int),
                decreases n - j,
            {
                if links[j] == Some(i) {
                    below.push(j);
                }
                j += 1;
            }
            let parent = match branches::find_upstream(&git.tracking, git.heads[i].as_str()) {
                None => None,
                Some(p) => Some(p.clone()),
            };
            list.push(
                Branch {
                    name: git.heads[i].clone(),
                    sha: String::new(),
                    parent,
                    local_parent: links[i],
                    children: below,
                    depth: depths[i],
                    stack_id: 0,
                    color: Color::Cyan,
                    commits: Vec::new(),
                },
            );
            i += 1;
        }
        let mut roots: Vec<usize> = Vec::new();
        let mut j: usize = 0;
        while j < n
            invariant
                j <= n,
                n == links@.len(),
                roots@ == roots_upto(links@, j as int),
            decreases n - j,
        {
            if links[j].is_none() {
                roots.push(j);
            }
            j += 1;
        }
        let mut height: usize = 0;
        let mut j: usize = 0;
        let ghost top: int = 0;
        while j < n
            invariant
                j <= n,
                n == depths@.len(),
                height <= n,
                j == 0 ==> height == 0,
                j > 0 ==> 0 <= top < j && depths@[top] == height,
                forall|k: int| 0 <= k < n ==> (#[trigger] depths@[k]) <= n,
                forall|k: int| 0 <= k < j ==> (#[trigger] depths@[k]) <= height,
            decreases n - j,
        {
            if depths[j] > height || j == 0 {
                height = depths[j];
                proof {
                    top = j as int;
                }
            }
            j += 1;
        }
        let stack = Stack { branches: list, roots, height };
        proof {
            assert(stack.links() =~= links@);
            assert(stack.names() =~= locals);
            if n > 0 {
                assert(stack.branches@[top].depth == stack.height);
            }
            assert forall|i: int| 0 <= i < n implies #[trigger] stack.kids_ok(i) by {}
            assert forall|i: int| 0 <= i < n implies #[trigger] stack.level_ok(i) by {
                assert(hops(links@, i, n as nat) == Some(depths@[i] as nat));
                if links@[i] is Some {
                    lemma_hops_step(links@, i);
                    let p = links@[i]->0 as int;
                    assert(hops(links@, p, n as nat) == Some(depths@[p] as nat));
                }
            }
        }
        Some(stack)
    }

    /// Where the branch of that name stands.
    pub fn find(&self, name: &str) -> (r: Option<usize>)
        ensures
            r == self.place_of(name@),
            r is Some ==> r->0 < self.branches@.len() && self.branches@[r->0 as int].name@ == name@,
    {
        let mut i: usize = 0;
        while i < self.branches.len() && *self.branches[i].name.as_str() != *name
            invariant
                i <= self.branches@.len(),
                position(self.names(), name@, 0) == position(self.names(), name@, i as int),
            decreases self.branches@.len() - i,
        {
            i += 1;
        }
        if i < self.branches.len() {
            Some(i)
        } else {
            None
        }
    }

    /// The branches that the walk up from `start` pins: `start` and its
    /// ancestors.
    pub fn pinned(&self, start: Option<usize>) -> (r: Vec<bool>)
        ensures
            r@ == trunk(self.links(), start),
    {
        let n = self.branches.len();
        let ghost links = self.links();
        let mut marks: Vec<bool> = Vec::new();
        let mut i: usize = 0;
        while i < n
            invariant
                i <= n,
                marks@.len() == i,
                forall|j: int| 0 <= j < i ==> !(#[trigger] marks@[j]),
            decreases n - i,
        {
            marks.push(false);
            i += 1;
        }
        let mut cur: Option<usize> = start;
        let mut fuel: usize = n;
        while cur.is_some()
            invariant
                n == self.branches@.len(),
                links == self.links(),
                marks@.len() == n,
                fuel <= n,
                forall|j: int|
                    0 <= j < n ==> (on_trunk(links, start, j, n as nat) <==> (#[trigger] marks@[j])
                        || on_trunk(links, cur, j, fuel as nat)),
            decreases fuel + (if cur is Some { 1nat } else { 0nat }),
        {
            let c = cur.unwrap();
            let ghost seen = marks@;
            let ghost here = cur;
            let ghost left = fuel;
            if c >= n {
                cur = None;
            } else {
                marks.set(c, true);
                if fuel == 0 {
                    cur = None;
                } else {
                    cur = self.branches[c].local_parent;
                    fuel -= 1;
                }
            }
            assert forall|j: int| 0 <= j < n implies (on_trunk(links, start, j, n as nat) <==> (
            #[trigger] marks@[j]) || on_trunk(links, cur, j, fuel as nat)) by {
                assert(on_trunk(links, start, j, n as nat) <==> seen[j] || on_trunk(
                    links,
                    here,
                    j,
                    left as nat,
                ));
                if c < n && left > 0 {
                    assert(links[c as int] == self.branches@[c as int].local_parent);
                }
            }
        }
        assert(marks@ =~= trunk(links, start));
        marks
    }

    /// The marks that the stack bears, with the state of a walk.
    pub open spec fn marks(&self, counter: i64, shade: usize) -> Marks {
        Marks { ids: self.ids(), shades: self.shades(), counter: counter as int, shade: shade as int }
    }

    fn visit(&mut self, pinned: &Vec<bool>, node: usize, id: i64, fuel: usize, walk: &mut (i64, usize))
        requires
            node < old(self).branches@.len(),
            pinned@.len() == old(self).branches@.len(),
            old(walk).1 < color_cycle::PALETTE_SIZE,
            old(self).in_range(),
        ensures
            final(self).same_shape(old(self)),
            final(walk).1 < color_cycle::PALETTE_SIZE,
            final(self).marks(final(walk).0, final(walk).1) == visit_spec(
                old(self).kids(),
                pinned@,
                node as int,
                id as int,
                fuel as nat,
                old(self).marks(old(walk).0, old(walk).1),
            ),
        decreases fuel, 0nat,
    {
        let ghost kids = self.kids();
        let ghost m = self.marks(walk.0, walk.1);
        let own: i64 = if pinned[node] {
            0
        } else {
            id
        };
        self.branches[node].stack_id = own;
        self.branches[node].color = Color::at(walk.1);
        let ghost marked = Marks {
            ids: m.ids.update(node as int, own as int),
            shades: m.shades.update(node as int, m.shade),
            ..m
        };
        assert(self.ids() =~= marked.ids);
        assert(self.shades() =~= marked.shades);
        assert(self.kids() =~= kids);
        if fuel > 0 {
            self.visit_all(pinned, Some(node), own, fuel - 1, walk);
        }
    }

    /// The children that a walk takes in turn: those of a branch, or the
    /// roots.
    pub open spec fn row(&self, from: Option<usize>) -> Seq<usize> {
        match from {
            Some(node) => self.branches@[node as int].children@,
            None => self.roots@,
        }
    }

    fn visit_all(
        &mut self,
        pinned: &Vec<bool>,
        from: Option<usize>,
        own: i64,
        fuel: usize,
        walk: &mut (i64, usize),
    )
        requires
            from is Some ==> from->0 < old(self).branches@.len(),
            pinned@.len() == old(self).branches@.len(),
            old(walk).1 < color_cycle::PALETTE_SIZE,
            old(self).in_range(),
        ensures
            final(self).same_shape(old(self)),
            final(walk).1 < color_cycle::PALETTE_SIZE,
            final(self).marks(final(walk).0, final(walk).1) == visit_children(
                old(self).kids(),
                pinned@,
                old(self).row(from),
                own as int,
                0,
                fuel as nat,
                old(self).marks(old(walk).0, old(walk).1),
            ),
        decreases fuel, 1nat,
    {
        let ghost start = *self;
        let ghost kids = self.kids();
        let ghost list = self.row(from);
        let ghost goal = visit_children(
            kids,
            pinned@,
            list,
            own as int,
            0,
            fuel as nat,
            self.marks(walk.0, walk.1),
        );
        let count = match from {
            Some(node) => self.branches[node].children.len(),
            None => self.roots.len(),
        };
        let mut k: usize = 0;
        while k < count
            invariant
                k <= count,
                count == list.len(),
                self.same_shape(&start),
                list == start.row(from),
                kids == start.kids(),
                from is Some ==> from->0 < start.branches@.len(),
                pinned@.len() == start.branches@.len(),
                walk.1 < color_cycle::PALETTE_SIZE,
                start.in_range(),
                visit_children(
                    kids,
                    pinned@,
                    list,
                    own as int,
                    k as int,
                    fuel as nat,
                    self.marks(walk.0, walk.1),
                ) == goal,
            decreases count - k,
        {
            let kid = match from {
                Some(node) => self.branches[node].children[k],
                None => self.roots[k],
            };
            assert(kid == list[k as int]);
            if k > 0 {
                walk.1 = (walk.1 + 1) % color_cycle::PALETTE_SIZE;
            }
            let id = if count > 1 {
                if walk.0 > i64::MIN {
                    walk.0 = walk.0 - 1;
                }
                walk.0
            } else {
                own
            };
            assert(self.kids() =~= kids);
            self.visit(pinned, kid, id, fuel, walk);
            assert(self.kids() =~= kids);
            k += 1;
        }
    }

    /// Assigns every branch its stack id and its colour, for the current
    /// branch `current`.  The current branch and its ancestors are pinned to
    /// the id 0.  The walk then goes through every root and, depth first,
    /// through what hangs below it: an only child takes its parent's id, and
    /// where a branch has several children the counter falls by one for each
    /// of them and gives that child its id, except that a pinned branch
    /// keeps the 0.  What the stack bore before does not matter.
    pub fn assign_stack_ids(&mut self, current: &str)
        requires
            old(self).wf(),
        ensures
            final(self).wf(),
            Stack::is_assignment(old(self), final(self), current@),
    {
        let ghost start = *self;
        let n = self.branches.len();
        let place = self.find(current);
        let pinned = self.pinned(place);
        self.wipe();
        let ghost wiped = *self;
        proof {
            wiped.lemma_same_shape_wf(&start);
            wiped.lemma_wf_in_range();
        }
        let mut walk: (i64, usize) = (0, 0);
        self.visit_all(&pinned, None, 0, n, &mut walk);
        proof {
            self.lemma_same_shape_wf(&start);
        }
    }

    /// Takes every mark off the stack.
    fn wipe(&mut self)
        ensures
            final(self).same_shape(old(self)),
            final(self).marks(0, 0) == blank(old(self).branches@.len()),
    {
        let ghost start = *self;
        let n = self.branches.len();
        let mut i: usize = 0;
        while i < n
            invariant
                i <= n,
                n == self.branches@.len(),
                self.same_shape(&start),
                forall|j: int|
                    0 <= j < i ==> (#[trigger] self.branches@[j]).stack_id == 0
                        && self.branches@[j].color == Color::Cyan,
            decreases n - i,
        {
            self.branches[i].stack_id = 0;
            self.branches[i].color = Color::Cyan;
            i += 1;
        }
        proof {
            assert(self.ids() =~= blank(n as nat).ids);
            assert(self.shades() =~= blank(n as nat).shades);
        }
    }

    /// The branches in the order in which they are shown: the trunk before
    /// the side stacks, every stack from its tip down to its root.
    pub fn display_order(&self) -> (r: Vec<usize>)
        ensures
            r@.len() == self.branches@.len(),
            forall|i: usize| i < self.branches@.len() ==> #[trigger] r@.contains(i),
            forall|k: int| 0 <= k < r@.len() ==> (#[trigger] r@[k]) < self.branches@.len(),
            forall|a: int, b: int|
                0 <= a < b < r@.len() ==> shown_before(
                    self.ids(),
                    self.depths(),
                    r@[a] as int,
                    r@[b] as int,
                ),
    {
        let n = self.branches.len();
        let ghost ids = self.ids();
        let ghost depths = self.depths();
        let mut order: Vec<usize> = Vec::new();
        let mut i: usize = 0;
        while i < n
            invariant
                i <= n,
                n == self.branches@.len(),
                ids == self.ids(),
                depths == self.depths(),
                order@.len() == i,
                forall|j: usize| j < i ==> #[trigger] order@.contains(j),
                forall|k: int| 0 <= k < order@.len() ==> (#[trigger] order@[k]) < i,
                forall|a: int, b: int|
                    0 <= a < b < order@.len() ==> shown_before(
                        ids,
                        depths,
                        order@[a] as int,
                        order@[b] as int,
                    ),
            decreases n - i,
        {
            let mut at: usize = 0;
            while at < order.len() && self.before(order[at], i)
                invariant
                    at <= order@.len(),
                    i < n,
                    n == self.branches@.len(),
                    ids == self.ids(),
                    depths == self.depths(),
                    forall|k: int| 0 <= k < order@.len() ==> (#[trigger] order@[k]) < i,
                    forall|k: int|
                        0 <= k < at ==> shown_before(ids, depths, (#[trigger] order@[k]) as int, i as int),
                decreases order@.len() - at,
            {
                at += 1;
            }
            let ghost before = order@;
            order.insert(at, i);
            proof {
                assert forall|j: usize| j < i + 1 implies #[trigger] order@.contains(j) by {
                    if j < i {
                        assert(before.contains(j));
                        let k = choose|k: int| 0 <= k < before.len() && before[k] == j;
                        if k < at {
                            assert(order@[k] == j);
                        } else {
                            assert(order@[k + 1] == j);
                        }
                    } else {
                        assert(order@[at as int] == j);
                    }
                }
                assert forall|a: int, b: int| 0 <= a < b < order@.len() implies shown_before(
                    ids,
                    depths,
                    order@[a] as int,
                    order@[b] as int,
                ) by {
                    let x = if a < at { a } else { a - 1 };
                    let y = if b < at { b } else { b - 1 };
                    if b == at {
                    } else if a == at {
                        // everything from `at` on is not before the new one
                        assert(before[y] < i);
                        if y > at {
                            assert(shown_before(ids, depths, before[at as int] as int, before[y] as int));
                        }
                    } else {
                        assert(order@[a] == before[x]);
                        assert(order@[b] == before[y]);
                    }
                }
            }
            i += 1;
        }
        order
    }

    /// Whether the branch at `a` is shown before the one at `b`.
    pub fn before(&self, a: usize, b: usize) -> (r: bool)
        requires
            a < self.branches@.len(),
            b < self.branches@.len(),
        ensures
            r == shown_before(self.ids(), self.depths(), a as int, b as int),
    {
        let x = &self.branches[a];
        let y = &self.branches[b];
        x.stack_id > y.stack_id || (x.stack_id == y.stack_id && (x.depth > y.depth || (x.depth
            == y.depth && a < b)))
    }

    /// Gives the branch at `place` its commits.
    pub fn set_commits(&mut self, place: usize, commits: Vec<LogCommit>)
        requires
            place < old(self).branches@.len(),
        ensures
            final(self).roots == old(self).roots,
            final(self).height == old(self).height,
            final(self).branches@.len() == old(self).branches@.len(),
            final(self).branches@[place as int].commits == commits,
            final(self).ids() == old(self).ids(),
            final(self).links() == old(self).links(),
            final(self).kids() == old(self).kids(),
            final(self).names() == old(self).names(),
            old(self).wf() ==> final(self).wf(),
            forall|i: int|
                0 <= i < old(self).branches@.len() && i != place ==> final(self).branches@[i] == old(
                    self,
                ).branches@[i],
    {
        self.branches[place].commits = commits;
        proof {
            assert(self.ids() =~= old(self).ids());
            assert(self.links() =~= old(self).links());
            assert(self.kids() =~= old(self).kids());
            assert(self.names() =~= old(self).names());
            if old(self).wf() {
                let n = self.branches@.len();
                assert forall|i: int| 0 <= i < n implies #[trigger] self.kids_ok(i) by {
                    assert(old(self).kids_ok(i));
                }
                assert forall|i: int| 0 <= i < n implies #[trigger] self.level_ok(i) by {
                    assert(old(self).level_ok(i));
                }
                assert(self.depths() =~= old(self).depths());
            }
        }
    }

    /// Records the commit at the tip of the branch at `place`.
    pub fn set_sha(&mut self, place: usize, sha: String)
        requires
            place < old(self).branches@.len(),
        ensures
            final(self).roots == old(self).roots,
            final(self).height == old(self).height,
            final(self).branches@.len() == old(self).branches@.len(),
            final(self).branches@[place as int].sha == sha,
            final(self).ids() == old(self).ids(),
            final(self).links() == old(self).links(),
            final(self).kids() == old(self).kids(),
            final(self).names() == old(self).names(),
            old(self).wf() ==> final(self).wf(),
            forall|i: int|
                0 <= i < old(self).branches@.len() && i != place ==> final(self).branches@[i] == old(
                    self,
                ).branches@[i],
    {
        self.branches[place].sha = sha;
        proof {
            assert(self.ids() =~= old(self).ids());
            assert(self.links() =~= old(self).links());
            assert(self.kids() =~= old(self).kids());
            assert(self.names() =~= old(self).names());
            if old(self).wf() {
                let n = self.branches@.len();
                assert forall|i: int| 0 <= i < n implies #[trigger] self.kids_ok(i) by {
                    assert(old(self).kids_ok(i));
                }
                assert forall|i: int| 0 <= i < n implies #[trigger] self.level_ok(i) by {
                    assert(old(self).level_ok(i));
                }
                assert(self.depths() =~= old(self).depths());
            }
        }
    }
}

/// A root is a branch of the stack.
pub proof fn lemma_roots_upto(links: Seq<Option<usize>>, n: int)
    requires
        0 <= n <= links.len(),
        n <= usize::MAX,
    ensures
        forall|k: int|
            0 <= k < roots_upto(links, n).len() ==> {
                &&& (#[trigger] roots_upto(links, n)[k]) < n
                &&& links[roots_upto(links, n)[k] as int] is None
            },
        forall|j: usize|
            j < n && links[j as int] is None ==> #[trigger] roots_upto(links, n).contains(j),
    decreases n,
{
    if n > 0 {
        lemma_roots_upto(links, n - 1);
        let init = roots_upto(links, n - 1);
        let all = roots_upto(links, n);
        assert forall|j: usize| j < n && links[j as int] is None implies #[trigger] all.contains(
            j,
        ) by {
            if j < n - 1 {
                assert(init.contains(j));
                let k = choose|k: int| 0 <= k < init.len() && init[k] == j;
                assert(all[k] == j);
            } else {
                assert(all[all.len() - 1] == j);
            }
        }
    }
}

/// Assigning the stack ids twice is the same as assigning them once: on a
/// forest that has not changed the second run ends with the ids and the
/// colours that the first one left.
pub proof fn lemma_assignment_idempotent(
    before: Stack,
    once: Stack,
    twice: Stack,
    current: Seq<char>,
)
    requires
        Stack::is_assignment(&before, &once, current),
        Stack::is_assignment(&once, &twice, current),
    ensures
        twice.ids() == once.ids(),
        twice.shades() == once.shades(),
        twice.same_shape(&before),
{
    assert(once.kids() =~= before.kids());
    assert(once.links() =~= before.links());
    assert(once.names() =~= before.names());
}

} // verus!
