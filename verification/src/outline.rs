//! The plain outline of a stack, and how to read it back.
//!
//! The outline has one line for each branch: the branch's name behind as
//! many bars as the branch is deep.  A root comes first and everything that
//! hangs below a branch follows it, child by child.  Reading the outline
//! gives every branch its name back and the branch it hangs from: the
//! nearest line above it that is less deep.

use vstd::prelude::*;
use vstd::string::StringExecFns;
use crate::indent;
use crate::stack::Stack;
use crate::text;

verus! {

/// What stands before a name once for every level of depth.
pub const UNIT: &'static str = "| ";

/// A line of an outline as it was read.
#[derive(Debug)]
pub struct OutlineRow {
    pub name: String,
    pub depth: usize,
    /// The row of the branch that this one hangs from.
    pub parent: Option<usize>,
}

/// The branches below and with `node`, in the order of the outline, for at
/// most `fuel` levels.
pub open spec fn walk(kids: Seq<Seq<usize>>, node: int, fuel: nat) -> Seq<int>
    decreases fuel, 0nat,
{
    seq![node] + if fuel == 0 || node < 0 || node >= kids.len() {
        Seq::empty()
    } else {
        walk_all(kids, kids[node], 0, (fuel - 1) as nat)
    }
}

/// The branches below and with those of `list` from the `k`-th on.
pub open spec fn walk_all(kids: Seq<Seq<usize>>, list: Seq<usize>, k: int, fuel: nat) -> Seq<int>
    decreases fuel, list.len() - k,
{
    if k < 0 || k >= list.len() {
        Seq::empty()
    } else {
        walk(kids, list[k] as int, fuel) + walk_all(kids, list, k + 1, fuel)
    }
}

/// The line of a branch: its name behind a bar for each level of depth.
pub open spec fn row_line(depth: int, name: Seq<char>) -> Seq<char> {
    indent::repeat_spec(UNIT@, depth as nat) + name
}

/// The number of bars that a line starts with.
pub open spec fn unit_count(line: Seq<char>) -> nat
    decreases line.len(),
{
    if line.len() >= 2 && line[0] == '|' && line[1] == ' ' {
        1 + unit_count(line.skip(2))
    } else {
        0
    }
}

/// The name on a line: what stands behind the bars.
pub open spec fn row_name(line: Seq<char>) -> Seq<char> {
    line.skip(2 * unit_count(line) as int)
}

/// The nearest of the first `j` rows that is less deep than `depth`.
pub open spec fn nearest_shallower(depths: Seq<int>, depth: int, j: int) -> Option<int>
    decreases j,
{
    if j <= 0 || j > depths.len() {
        None
    } else if depths[j - 1] < depth {
        Some(j - 1)
    } else {
        nearest_shallower(depths, depth, j - 1)
    }
}

/// The depths that the lines of an outline show.
pub open spec fn shown_depths(lines: Seq<Seq<char>>) -> Seq<int> {
    Seq::new(lines.len(), |r: int| unit_count(lines[r]) as int)
}

/// The row that row `r` of an outline hangs from.
pub open spec fn outline_parent(lines: Seq<Seq<char>>, r: int) -> Option<int> {
    nearest_shallower(shown_depths(lines), unit_count(lines[r]) as int, r)
}

impl Stack {
    /// The branches of the stack in the order of the outline: every root
    /// with what hangs below it.
    pub open spec fn preorder(&self) -> Seq<int> {
        walk_all(self.kids(), self.roots@, 0, self.branches@.len())
    }

    /// The lines of the given branches.
    pub open spec fn lines_of(&self, order: Seq<int>) -> Seq<Seq<char>> {
        Seq::new(order.len(), |r: int| row_line(self.depths()[order[r]], self.names()[order[r]]))
    }

    /// The outline of the stack.
    pub open spec fn outline_spec(&self) -> Seq<Seq<char>> {
        self.lines_of(self.preorder())
    }

    /// No name starts like a level of depth.
    pub open spec fn plain_names(&self) -> bool {
        forall|i: int| 0 <= i < self.branches@.len() ==> unit_count(#[trigger] self.names()[i]) == 0
    }

    fn outline_into(&self, node: usize, fuel: usize, out: &mut Vec<String>)
        requires
            self.in_range(),
            node < self.branches@.len(),
        ensures
            text::views(final(out)@) == text::views(old(out)@) + self.lines_of(
                walk(self.kids(), node as int, fuel as nat),
            ),
        decreases fuel, 0nat,
    {
        let ghost start = text::views(out@);
        let ghost kids = self.kids();
        let branch = &self.branches[node];
        let bars = indent::repeat(UNIT, branch.depth);
        out.push(text::concat(bars.as_str(), branch.name.as_str()));
        assert(text::views(out@) =~= start + self.lines_of(seq![node as int]));
        if fuel > 0 {
            self.outline_all(Some(node), fuel - 1, out);
            assert(text::views(out@) =~= start + self.lines_of(
                walk(kids, node as int, fuel as nat),
            ));
        } else {
            assert(walk(kids, node as int, 0) =~= seq![node as int]);
        }
    }

    fn outline_all(&self, from: Option<usize>, fuel: usize, out: &mut Vec<String>)
        requires
            self.in_range(),
            from is Some ==> from->0 < self.branches@.len(),
        ensures
            text::views(final(out)@) == text::views(old(out)@) + self.lines_of(
                walk_all(self.kids(), self.row(from), 0, fuel as nat),
            ),
        decreases fuel, 1nat,
    {
        let ghost start = text::views(out@);
        let ghost kids = self.kids();
        let ghost list = self.row(from);
        let ghost goal = walk_all(kids, list, 0, fuel as nat);
        let count = match from {
            Some(node) => self.branches[node].children.len(),
            None => self.roots.len(),
        };
        let ghost done: Seq<int> = Seq::empty();
        let mut k: usize = 0;
        assert(text::views(out@) =~= start + self.lines_of(done));
        while k < count
            invariant
                k <= count,
                count == list.len(),
                list == self.row(from),
                kids == self.kids(),
                self.in_range(),
                from is Some ==> from->0 < self.branches@.len(),
                text::views(out@) == start + self.lines_of(done),
                done + walk_all(kids, list, k as int, fuel as nat) == goal,
            decreases count - k,
        {
            let kid = match from {
                Some(node) => self.branches[node].children[k],
                None => self.roots[k],
            };
            assert(kid == list[k as int]);
            self.outline_into(kid, fuel, out);
            proof {
                let more = walk(kids, kid as int, fuel as nat);
                assert(self.lines_of(done + more) =~= self.lines_of(done) + self.lines_of(more));
                assert((done + more) + walk_all(kids, list, k + 1, fuel as nat) =~= done + (more
                    + walk_all(kids, list, k + 1, fuel as nat)));
                done = done + more;
            }
            k += 1;
        }
        assert(done + Seq::<int>::empty() =~= done);
    }

    /// The outline of the stack: a line for each branch, the name behind a
    /// bar for each level of depth, every root followed by what hangs below
    /// it.
    pub fn outline(&self) -> (r: Vec<String>)
        requires
            self.wf(),
        ensures
            text::views(r@) == self.outline_spec(),
    {
        proof {
            self.lemma_wf_in_range();
        }
        let mut out: Vec<String> = Vec::new();
        assert(text::views(out@) =~= Seq::empty());
        self.outline_all(None, self.branches.len(), &mut out);
        assert(text::views(out@) =~= self.outline_spec());
        out
    }
}

/// The number of bars that the characters start with.
pub fn count_units(v: &Vec<char>) -> (r: usize)
    ensures
        r == unit_count(v@),
        2 * r <= v@.len(),
{
    let mut n: usize = 0;
    assert(v@.skip(0) =~= v@);
    while 2 * n + 1 < v.len() && v[2 * n] == '|' && v[2 * n + 1] == ' '
        invariant
            2 * n <= v.len(),
            unit_count(v@) == n + unit_count(v@.skip(2 * n as int)),
        decreases v.len() - 2 * n,
    {
        proof {
            let rest = v@.skip(2 * n as int);
            assert(rest[0] == v@[2 * n as int]);
            assert(rest[1] == v@[2 * n + 1]);
            assert(rest.skip(2) =~= v@.skip(2 * (n + 1) as int));
        }
        n += 1;
    }
    proof {
        let rest = v@.skip(2 * n as int);
        if rest.len() >= 2 {
            assert(rest[0] == v@[2 * n as int]);
            assert(rest[1] == v@[2 * n + 1]);
        }
        assert(v@.skip(0) =~= v@);
    }
    n
}

/// Reads an outline: for every line the name on it, its depth, and the row
/// it hangs from, which is the nearest row above it that is less deep.
pub fn parse_outline(lines: &Vec<String>) -> (r: Vec<OutlineRow>)
    ensures
        r@.len() == lines@.len(),
        forall|i: int|
            0 <= i < r@.len() ==> {
                &&& (#[trigger] r@[i]).name@ == row_name(lines@[i]@)
                &&& r@[i].depth == unit_count(lines@[i]@)
                &&& (match outline_parent(text::views(lines@), i) {
                    Some(q) => r@[i].parent == Some(q as usize),
                    None => r@[i].parent is None,
                })
            },
{
    let ghost all = text::views(lines@);
    let ghost depths = shown_depths(all);
    let mut rows: Vec<OutlineRow> = Vec::new();
    let mut i: usize = 0;
    while i < lines.len()
        invariant
            i <= lines.len(),
            all == text::views(lines@),
            depths == shown_depths(all),
            rows@.len() == i,
            forall|k: int|
                0 <= k < i ==> {
                    &&& (#[trigger] rows@[k]).name@ == row_name(lines@[k]@)
                    &&& rows@[k].depth == unit_count(lines@[k]@)
                    &&& (match outline_parent(all, k) {
                        Some(q) => rows@[k].parent == Some(q as usize),
                        None => rows@[k].parent is None,
                    })
                },
        decreases lines.len() - i,
    {
        let v = text::chars_of(lines[i].as_str());
        let depth = count_units(&v);
        let name = text::substring(&v, 2 * depth, v.len());
        assert(v@.subrange(2 * depth as int, v.len() as int) =~= v@.skip(2 * depth as int));
        let mut j: usize = i;
        let mut parent: Option<usize> = None;
        while j > 0 && parent.is_none()
            invariant
                j <= i < lines.len(),
                all == text::views(lines@),
                depths == shown_depths(all),
                rows@.len() == i,
                forall|k: int| 0 <= k < i ==> (#[trigger] rows@[k]).depth == unit_count(lines@[k]@),
                parent is None ==> nearest_shallower(depths, depth as int, i as int)
                    == nearest_shallower(depths, depth as int, j as int),
                parent is Some ==> nearest_shallower(depths, depth as int, i as int) == Some(
                    parent->0 as int,
                ),
            decreases j + (if parent is None { 1nat } else { 0nat }),
        {
            assert(depths[j - 1] == rows@[j - 1].depth);
            if rows[j - 1].depth < depth {
                parent = Some(j - 1);
            } else {
                j -= 1;
            }
        }
        proof {
            assert(depth == unit_count(all[i as int]));
            assert(outline_parent(all, i as int) == nearest_shallower(
                depths,
                depth as int,
                i as int,
            ));
        }
        rows.push(OutlineRow { name, depth, parent });
        i += 1;
    }
    rows
}

/// A bar before a line adds one to the number of its bars.
pub proof fn lemma_unit_count_of_row(depth: nat, name: Seq<char>)
    requires
        unit_count(name) == 0,
    ensures
        unit_count(row_line(depth as int, name)) == depth,
        row_name(row_line(depth as int, name)) == name,
    decreases depth,
{
    reveal_strlit("| ");
    let unit = UNIT@;
    assert(unit.len() == 2 && unit[0] == '|' && unit[1] == ' ');
    if depth == 0 {
        assert(row_line(0, name) =~= name);
        assert(name.skip(0) =~= name);
    } else {
        lemma_repeat_front(unit, depth);
        lemma_repeat_len(unit, (depth - 1) as nat);
        let rest = row_line(depth - 1, name);
        let line = row_line(depth as int, name);
        assert(line =~= unit + rest);
        assert(line.skip(2) =~= rest);
        lemma_unit_count_of_row((depth - 1) as nat, name);
        assert(rest.len() >= 2 * (depth - 1));
        assert(line.skip(2 * depth as int) =~= rest.skip(2 * (depth - 1)));
    }
}

/// A text written several times over is as many times as long.
pub proof fn lemma_repeat_len(unit: Seq<char>, count: nat)
    ensures
        indent::repeat_spec(unit, count).len() == count * unit.len(),
    decreases count,
{
    if count > 0 {
        lemma_repeat_len(unit, (count - 1) as nat);
        assert(count * unit.len() == (count - 1) * unit.len() + unit.len()) by (nonlinear_arith);
    } else {
        assert(count * unit.len() == 0) by (nonlinear_arith)
            requires
                count == 0,
        ;
    }
}

/// A text written several times over starts with the text.
pub proof fn lemma_repeat_front(unit: Seq<char>, count: nat)
    requires
        count > 0,
    ensures
        indent::repeat_spec(unit, count) == unit + indent::repeat_spec(unit, (count - 1) as nat),
    decreases count,
{
    if count == 1 {
        assert(indent::repeat_spec(unit, 0) =~= Seq::empty());
        assert(indent::repeat_spec(unit, 1) =~= unit);
        assert(unit + Seq::<char>::empty() =~= unit);
    } else {
        lemma_repeat_front(unit, (count - 1) as nat);
        assert(indent::repeat_spec(unit, count) =~= unit + indent::repeat_spec(
            unit,
            (count - 1) as nat,
        ));
    }
}

/// What comes after the rows that are looked at does not matter.
pub proof fn lemma_nearest_ignores_rest(depths: Seq<int>, more: Seq<int>, depth: int, j: int)
    requires
        0 <= j <= depths.len(),
    ensures
        nearest_shallower(depths + more, depth, j) == nearest_shallower(depths, depth, j),
    decreases j,
{
    if j > 0 {
        assert((depths + more)[j - 1] == depths[j - 1]);
        if !(depths[j - 1] < depth) {
            lemma_nearest_ignores_rest(depths, more, depth, j - 1);
        }
    }
}

/// Rows that are not less deep are passed over.
pub proof fn lemma_nearest_skips_deeper(depths: Seq<int>, deeper: Seq<int>, depth: int)
    requires
        forall|k: int| 0 <= k < deeper.len() ==> #[trigger] deeper[k] >= depth,
    ensures
        nearest_shallower(depths + deeper, depth, (depths + deeper).len() as int)
            == nearest_shallower(depths, depth, depths.len() as int),
    decreases deeper.len(),
{
    let whole = depths + deeper;
    if deeper.len() > 0 {
        assert(whole[whole.len() - 1] == deeper[deeper.len() - 1]);
        lemma_nearest_skips_deeper(depths, deeper.drop_last(), depth);
        assert(depths + deeper.drop_last() =~= whole.drop_last());
        lemma_nearest_ignores_rest(
            whole.drop_last(),
            seq![deeper.last()],
            depth,
            whole.len() - 1,
        );
        assert(whole.drop_last() + seq![deeper.last()] =~= whole);
    } else {
        assert(whole =~= depths);
    }
}

impl Stack {
    /// The depths of the given branches.
    pub open spec fn depths_of(&self, order: Seq<int>) -> Seq<int> {
        Seq::new(order.len(), |r: int| self.depths()[order[r]])
    }

    /// Row `r` of `order` hangs from the row that the outline says: the
    /// nearest row above it that is less deep holds the parent of its
    /// branch, and there is no such row exactly when its branch is a root.
    pub open spec fn hangs_right(&self, order: Seq<int>, r: int) -> bool {
        match nearest_shallower(self.depths_of(order), self.depths()[order[r]], r) {
            Some(q) => self.links()[order[r]] == Some(order[q] as usize),
            None => self.links()[order[r]] is None,
        }
    }

    /// Every branch in a walk is a branch of the stack and at least as deep
    /// as the branch the walk starts from.
    pub proof fn lemma_walk_is_deeper(&self, node: int, fuel: nat)
        requires
            self.wf(),
            0 <= node < self.branches@.len(),
        ensures
            forall|r: int|
                0 <= r < walk(self.kids(), node, fuel).len() ==> {
                    &&& 0 <= (#[trigger] walk(self.kids(), node, fuel)[r]) < self.branches@.len()
                    &&& self.depths()[walk(self.kids(), node, fuel)[r]] >= self.depths()[node]
                },
        decreases fuel, 0nat,
    {
        let own = walk(self.kids(), node, fuel);
        if fuel > 0 {
            self.lemma_child_is_lower(node);
            self.lemma_walk_all_is_deeper(node, 0, (fuel - 1) as nat);
            let below = walk_all(self.kids(), self.kids()[node], 0, (fuel - 1) as nat);
            assert(own =~= seq![node] + below);
            assert forall|r: int| 0 <= r < own.len() implies {
                &&& 0 <= (#[trigger] own[r]) < self.branches@.len()
                &&& self.depths()[own[r]] >= self.depths()[node]
            } by {
                if r > 0 {
                    assert(own[r] == below[r - 1]);
                }
            }
        } else {
            assert(own =~= seq![node]);
        }
    }

    /// Every branch in the walks of the children of `node` is a branch of
    /// the stack and deeper than `node`.
    pub proof fn lemma_walk_all_is_deeper(&self, node: int, k: int, fuel: nat)
        requires
            self.wf(),
            0 <= node < self.branches@.len(),
            0 <= k,
        ensures
            forall|r: int|
                0 <= r < walk_all(self.kids(), self.kids()[node], k, fuel).len() ==> {
                    &&& 0 <= (#[trigger] walk_all(self.kids(), self.kids()[node], k, fuel)[r])
                        < self.branches@.len()
                    &&& self.depths()[walk_all(self.kids(), self.kids()[node], k, fuel)[r]]
                        > self.depths()[node]
                },
        decreases fuel, self.kids()[node].len() - k,
    {
        let list = self.kids()[node];
        let all = walk_all(self.kids(), list, k, fuel);
        if k < list.len() {
            self.lemma_child_is_lower(node);
            let kid = list[k] as int;
            assert(self.branches@[node].children@[k] == list[k]);
            self.lemma_walk_is_deeper(kid, fuel);
            self.lemma_walk_all_is_deeper(node, k + 1, fuel);
            let own = walk(self.kids(), kid, fuel);
            let after = walk_all(self.kids(), list, k + 1, fuel);
            assert(all =~= own + after);
            assert forall|r: int| 0 <= r < all.len() implies {
                &&& 0 <= (#[trigger] all[r]) < self.branches@.len()
                &&& self.depths()[all[r]] > self.depths()[node]
            } by {
                if r < own.len() {
                    assert(all[r] == own[r]);
                } else {
                    assert(all[r] == after[r - own.len()]);
                }
            }
        }
    }

    /// A walk hangs right wherever it is put: if the rows before it are
    /// such that its first row hangs right, all its rows do.
    pub proof fn lemma_walk_hangs_right(&self, before: Seq<int>, node: int, fuel: nat)
        requires
            self.wf(),
            0 <= node < self.branches@.len(),
            self.hangs_right(before.push(node), before.len() as int),
        ensures
            forall|r: int|
                before.len() <= r < (before + walk(self.kids(), node, fuel)).len()
                    ==> #[trigger] self.hangs_right(before + walk(self.kids(), node, fuel), r),
        decreases fuel, 0nat,
    {
        let own = walk(self.kids(), node, fuel);
        let whole = before + own;
        let start = before.len() as int;
        let head = before.push(node);
        assert(whole[start] == node);
        assert(self.hangs_right(whole, start)) by {
            let rest = own.skip(1);
            assert(whole =~= head + rest);
            assert(self.depths_of(whole) =~= self.depths_of(head) + self.depths_of(rest));
            lemma_nearest_ignores_rest(
                self.depths_of(head),
                self.depths_of(rest),
                self.depths()[node],
                start,
            );
            match nearest_shallower(self.depths_of(head), self.depths()[node], start) {
                Some(q) => {
                    self.lemma_nearest_is_before(self.depths_of(head), self.depths()[node], start);
                    assert(head[q] == whole[q]);
                },
                None => {},
            }
        }
        if fuel > 0 {
            self.lemma_walk_all_hangs_right(head, node, 0, (fuel - 1) as nat);
            assert(head + walk_all(self.kids(), self.kids()[node], 0, (fuel - 1) as nat)
                =~= whole);
        } else {
            assert(own =~= seq![node]);
        }
    }

    /// The row that is found stands before the place from which it was
    /// looked for.
    pub proof fn lemma_nearest_is_before(&self, depths: Seq<int>, depth: int, j: int)
        ensures
            nearest_shallower(depths, depth, j) is Some ==> 0 <= nearest_shallower(
                depths,
                depth,
                j,
            )->0 < j && depths[nearest_shallower(depths, depth, j)->0] < depth,
        decreases j,
    {
        if 0 < j <= depths.len() && !(depths[j - 1] < depth) {
            self.lemma_nearest_is_before(depths, depth, j - 1);
        }
    }

    /// The walks of the children of `node` from the `k`-th on hang right
    /// behind rows that end with the walks of the children before them.
    pub proof fn lemma_walk_all_hangs_right(&self, before: Seq<int>, node: int, k: int, fuel: nat)
        requires
            self.wf(),
            0 <= node < self.branches@.len(),
            0 <= k,
            nearest_shallower(
                self.depths_of(before),
                self.depths()[node] + 1,
                before.len() as int,
            ) is Some,
            before[nearest_shallower(
                self.depths_of(before),
                self.depths()[node] + 1,
                before.len() as int,
            )->0] == node,
        ensures
            forall|r: int|
                before.len() <= r < (before + walk_all(
                    self.kids(),
                    self.kids()[node],
                    k,
                    fuel,
                )).len() ==> #[trigger] self.hangs_right(
                    before + walk_all(self.kids(), self.kids()[node], k, fuel),
                    r,
                ),
        decreases fuel, self.kids()[node].len() - k,
    {
        let list = self.kids()[node];
        let rest = walk_all(self.kids(), list, k, fuel);
        let whole = before + rest;
        if k < list.len() {
            self.lemma_child_is_lower(node);
            let kid = list[k] as int;
            assert(self.branches@[node].children@[k] == list[k]);
            let level = self.depths()[node] + 1;
            assert(self.depths()[kid] == level);
            assert(self.links()[kid] == Some(node as usize)) by {
                assert(self.branches.len() == self.branches@.len());
                crate::stack::lemma_kids_upto(
                    self.links(),
                    node,
                    self.branches@.len() as int,
                );
                assert(self.kids_ok(node));
            }
            let own = walk(self.kids(), kid, fuel);
            let after = walk_all(self.kids(), list, k + 1, fuel);
            let q = nearest_shallower(self.depths_of(before), level, before.len() as int)->0;
            self.lemma_nearest_is_before(self.depths_of(before), level, before.len() as int);
            // the first row of the child hangs from `node`
            assert(self.hangs_right(before.push(kid), before.len() as int)) by {
                let head = before.push(kid);
                assert(self.depths_of(head) =~= self.depths_of(before) + seq![level]);
                lemma_nearest_ignores_rest(
                    self.depths_of(before),
                    seq![level],
                    level,
                    before.len() as int,
                );
                assert(head[q] == before[q]);
            }
            self.lemma_walk_hangs_right(before, kid, fuel);
            // the later children look past the rows of this child
            let next = before + own;
            self.lemma_walk_is_deeper(kid, fuel);
            assert(self.depths_of(next) =~= self.depths_of(before) + self.depths_of(own));
            lemma_nearest_skips_deeper(self.depths_of(before), self.depths_of(own), level);
            assert(next[q] == before[q]);
            self.lemma_walk_all_hangs_right(next, node, k + 1, fuel);
            assert(next + after =~= whole);
            assert forall|r: int| before.len() <= r < whole.len() implies #[trigger] self.hangs_right(
                whole,
                r,
            ) by {
                if r < next.len() {
                    self.lemma_hangs_right_ignores_rest(next, after, r);
                }
            }
        }
    }

    /// Whether a row hangs right does not depend on the rows behind it.
    pub proof fn lemma_hangs_right_ignores_rest(&self, rows: Seq<int>, more: Seq<int>, r: int)
        requires
            0 <= r < rows.len(),
            self.hangs_right(rows, r),
        ensures
            self.hangs_right(rows + more, r),
    {
        let whole = rows + more;
        assert(whole[r] == rows[r]);
        assert(self.depths_of(whole) =~= self.depths_of(rows) + self.depths_of(more));
        lemma_nearest_ignores_rest(
            self.depths_of(rows),
            self.depths_of(more),
            self.depths()[rows[r]],
            r,
        );
        self.lemma_nearest_is_before(self.depths_of(rows), self.depths()[rows[r]], r);
        match nearest_shallower(self.depths_of(rows), self.depths()[rows[r]], r) {
            Some(q) => {
                assert(whole[q] == rows[q]);
            },
            None => {},
        }
    }

    /// The walks of the roots from the `k`-th on hang right behind the
    /// walks of the roots before them.
    pub proof fn lemma_roots_hang_right(&self, before: Seq<int>, k: int)
        requires
            self.wf(),
            0 <= k,
            forall|r: int| 0 <= r < before.len() ==> #[trigger] self.hangs_right(before, r),
            forall|r: int|
                0 <= r < before.len() ==> 0 <= #[trigger] before[r] < self.branches@.len(),
        ensures
            forall|r: int|
                0 <= r < (before + walk_all(
                    self.kids(),
                    self.roots@,
                    k,
                    self.branches@.len(),
                )).len() ==> #[trigger] self.hangs_right(
                    before + walk_all(self.kids(), self.roots@, k, self.branches@.len()),
                    r,
                ),
        decreases self.roots@.len() - k,
    {
        let n = self.branches@.len();
        let rest = walk_all(self.kids(), self.roots@, k, n);
        let whole = before + rest;
        if k < self.roots@.len() {
            let root = self.roots@[k] as int;
            assert(self.branches.len() == self.branches@.len());
            crate::stack::lemma_roots_upto(self.links(), n as int);
            self.lemma_wf_in_range();
            assert(self.level_ok(root));
            assert(self.depths()[root] == 0);
            let own = walk(self.kids(), root, n);
            let after = walk_all(self.kids(), self.roots@, k + 1, n);
            assert(self.hangs_right(before.push(root), before.len() as int)) by {
                self.lemma_no_row_above_a_root(self.depths_of(before.push(root)), before.len() as int);
            }
            self.lemma_walk_hangs_right(before, root, n);
            self.lemma_walk_is_deeper(root, n);
            let next = before + own;
            assert forall|r: int| 0 <= r < next.len() implies #[trigger] self.hangs_right(
                next,
                r,
            ) by {
                if r < before.len() {
                    self.lemma_hangs_right_ignores_rest(before, own, r);
                }
            }
            self.lemma_roots_hang_right(next, k + 1);
            assert(next + after =~= whole);
        } else {
            assert(whole =~= before);
        }
    }

    /// Nothing is less deep than a root.
    pub proof fn lemma_no_row_above_a_root(&self, depths: Seq<int>, j: int)
        requires
            forall|r: int| 0 <= r < depths.len() ==> #[trigger] depths[r] >= 0,
        ensures
            nearest_shallower(depths, 0, j) is None,
        decreases j,
    {
        if 0 < j <= depths.len() {
            self.lemma_no_row_above_a_root(depths, j - 1);
        }
    }

    /// Reading the outline of a stack gives the stack back.  Every branch
    /// has a line.  Every line yields the depth and the name of its branch,
    /// and the row that the outline makes it hang from holds the branch's
    /// parent; a line hangs from no row exactly when its branch is a root.
    /// The names must not start like a level of depth, which no name
    /// without a blank does.
    pub proof fn lemma_outline_round_trip(&self)
        requires
            self.wf(),
            self.plain_names(),
        ensures
            self.outline_spec().len() == self.preorder().len(),
            forall|i: int| 0 <= i < self.branches@.len() ==> #[trigger] self.preorder().contains(i),
            forall|r: int|
                0 <= r < self.preorder().len() ==> {
                    let branch = #[trigger] self.preorder()[r];
                    let line = self.outline_spec()[r];
                    &&& 0 <= branch < self.branches@.len()
                    &&& row_name(line) == self.names()[branch]
                    &&& unit_count(line) == self.depths()[branch]
                    &&& match outline_parent(self.outline_spec(), r) {
                        Some(q) => 0 <= q < r && self.links()[branch] == Some(
                            self.preorder()[q] as usize,
                        ),
                        None => self.links()[branch] is None,
                    }
                },
    {
        let order = self.preorder();
        let lines = self.outline_spec();
        assert forall|i: int| 0 <= i < self.branches@.len() implies #[trigger] self.preorder().contains(
            i,
        ) by {
            self.lemma_every_branch_is_outlined(i);
        }
        self.lemma_roots_hang_right(Seq::empty(), 0);
        assert(Seq::<int>::empty() + order =~= order);
        self.lemma_roots_are_branches(0);
        assert forall|r: int| 0 <= r < order.len() implies {
            let branch = #[trigger] self.preorder()[r];
            let line = self.outline_spec()[r];
            &&& 0 <= branch < self.branches@.len()
            &&& row_name(line) == self.names()[branch]
            &&& unit_count(line) == self.depths()[branch]
        } by {
            let branch = order[r];
            lemma_unit_count_of_row(self.depths()[branch] as nat, self.names()[branch]);
        }
        assert(shown_depths(lines) =~= self.depths_of(order)) by {
            assert forall|r: int| 0 <= r < order.len() implies shown_depths(lines)[r]
                == self.depths_of(order)[r] by {
                let branch = order[r];
                lemma_unit_count_of_row(self.depths()[branch] as nat, self.names()[branch]);
            }
        }
        assert forall|r: int| 0 <= r < order.len() implies match outline_parent(
            self.outline_spec(),
            r,
        ) {
            Some(q) => 0 <= q < r && self.links()[#[trigger] self.preorder()[r]] == Some(
                self.preorder()[q] as usize,
            ),
            None => self.links()[self.preorder()[r]] is None,
        } by {
            assert(self.hangs_right(order, r));
            let branch = order[r];
            lemma_unit_count_of_row(self.depths()[branch] as nat, self.names()[branch]);
            self.lemma_nearest_is_before(self.depths_of(order), self.depths()[branch], r);
        }
    }

    /// Every branch in the outline is a branch of the stack.
    pub proof fn lemma_roots_are_branches(&self, k: int)
        requires
            self.wf(),
            0 <= k,
        ensures
            forall|r: int|
                0 <= r < walk_all(self.kids(), self.roots@, k, self.branches@.len()).len() ==> 0
                    <= (#[trigger] walk_all(self.kids(), self.roots@, k, self.branches@.len())[r])
                    < self.branches@.len(),
        decreases self.roots@.len() - k,
    {
        let n = self.branches@.len();
        let all = walk_all(self.kids(), self.roots@, k, n);
        if k < self.roots@.len() {
            self.lemma_wf_in_range();
            self.lemma_walk_is_deeper(self.roots@[k] as int, n);
            self.lemma_roots_are_branches(k + 1);
            let own = walk(self.kids(), self.roots@[k] as int, n);
            let after = walk_all(self.kids(), self.roots@, k + 1, n);
            assert(all =~= own + after);
            assert forall|r: int| 0 <= r < all.len() implies 0 <= (#[trigger] all[r]) < n by {
                if r < own.len() {
                    assert(all[r] == own[r]);
                } else {
                    assert(all[r] == after[r - own.len()]);
                }
            }
        }
    }
}

/// The branches lead from the first to the last, each to one of its
/// children.
pub open spec fn is_path(kids: Seq<Seq<usize>>, path: Seq<int>) -> bool {
    &&& path.len() > 0
    &&& forall|j: int|
        0 <= j < path.len() - 1 ==> {
            &&& 0 <= #[trigger] path[j] < kids.len()
            &&& 0 <= path[j + 1] <= usize::MAX
            &&& kids[path[j]].contains(path[j + 1] as usize)
        }
}

/// What the walk of one of the branches holds, the walk of all of them
/// holds.
pub proof fn lemma_walk_all_contains(
    kids: Seq<Seq<usize>>,
    list: Seq<usize>,
    from: int,
    k: int,
    fuel: nat,
    i: int,
)
    requires
        0 <= from <= k < list.len(),
        walk(kids, list[k] as int, fuel).contains(i),
    ensures
        walk_all(kids, list, from, fuel).contains(i),
    decreases k - from,
{
    let own = walk(kids, list[from] as int, fuel);
    let after = walk_all(kids, list, from + 1, fuel);
    let all = walk_all(kids, list, from, fuel);
    assert(all =~= own + after);
    if from == k {
        let r = choose|r: int| 0 <= r < own.len() && own[r] == i;
        assert(all[r] == i);
    } else {
        lemma_walk_all_contains(kids, list, from + 1, k, fuel, i);
        let r = choose|r: int| 0 <= r < after.len() && after[r] == i;
        assert(all[own.len() + r] == i);
    }
}

/// A walk holds the end of every path that starts where it starts and is
/// no longer than the walk goes down.
pub proof fn lemma_walk_contains(kids: Seq<Seq<usize>>, path: Seq<int>, fuel: nat)
    requires
        is_path(kids, path),
        path.len() <= fuel + 1,
    ensures
        walk(kids, path[0], fuel).contains(path.last()),
    decreases path.len(),
{
    let top = path[0];
    let own = walk(kids, top, fuel);
    if path.len() == 1 {
        assert(own[0] == path.last());
    } else {
        let rest = path.skip(1);
        assert(is_path(kids, rest)) by {
            assert forall|j: int| 0 <= j < rest.len() - 1 implies {
                &&& 0 <= #[trigger] rest[j] < kids.len()
                &&& 0 <= rest[j + 1] <= usize::MAX
                &&& kids[rest[j]].contains(rest[j + 1] as usize)
            } by {
                assert(rest[j] == path[j + 1]);
                assert(rest[j + 1] == path[j + 2]);
            }
        }
        lemma_walk_contains(kids, rest, (fuel - 1) as nat);
        assert(rest.last() == path.last());
        assert(rest[0] == path[1]);
        let child = path[1] as usize;
        assert(kids[top].contains(child));
        let m = choose|m: int| 0 <= m < kids[top].len() && kids[top][m] == child;
        lemma_walk_all_contains(kids, kids[top], 0, m, (fuel - 1) as nat, path.last());
        let below = walk_all(kids, kids[top], 0, (fuel - 1) as nat);
        assert(own =~= seq![top] + below);
        let r = choose|r: int| 0 <= r < below.len() && below[r] == path.last();
        assert(own[r + 1] == path.last());
    }
}

impl Stack {
    /// The path to a branch from the root it hangs from.
    pub proof fn lemma_root_path(&self, i: int) -> (path: Seq<int>)
        requires
            self.wf(),
            0 <= i < self.branches@.len(),
        ensures
            is_path(self.kids(), path),
            path.len() == self.depths()[i] + 1,
            path.last() == i,
            0 <= path[0] < self.branches@.len(),
            self.links()[path[0]] is None,
        decreases self.depths()[i],
    {
        let n = self.branches@.len() as int;
        assert(self.branches.len() == self.branches@.len());
        assert(self.level_ok(i));
        match self.links()[i] {
            None => seq![i],
            Some(parent) => {
                let p = parent as int;
                let above = self.lemma_root_path(p);
                let path = above.push(i);
                crate::stack::lemma_kids_upto(self.links(), p, n);
                assert(self.kids_ok(p));
                assert(self.kids()[p].contains(i as usize));
                assert forall|j: int| 0 <= j < path.len() - 1 implies {
                    &&& 0 <= #[trigger] path[j] < self.kids().len()
                    &&& 0 <= path[j + 1] <= usize::MAX
                    &&& self.kids()[path[j]].contains(path[j + 1] as usize)
                } by {
                    if j < above.len() - 1 {
                        assert(path[j] == above[j]);
                        assert(path[j + 1] == above[j + 1]);
                    } else {
                        assert(path[j] == p);
                        assert(path[j + 1] == i);
                    }
                }
                path
            },
        }
    }

    /// The outline leaves no branch out.
    pub proof fn lemma_every_branch_is_outlined(&self, i: int)
        requires
            self.wf(),
            0 <= i < self.branches@.len(),
        ensures
            self.preorder().contains(i),
    {
        let n = self.branches@.len();
        assert(self.branches.len() == self.branches@.len());
        let path = self.lemma_root_path(i);
        let root = path[0];
        crate::stack::lemma_roots_upto(self.links(), n as int);
        assert(self.roots@.contains(root as usize));
        let k = choose|k: int| 0 <= k < self.roots@.len() && self.roots@[k] == root as usize;
        assert(self.depths()[i] <= self.height);
        lemma_walk_contains(self.kids(), path, n);
        lemma_walk_all_contains(self.kids(), self.roots@, 0, k, n, i);
    }
}

} // verus!
