//! Reading the picture of a log back into the branches of the stack.
//!
//! The first line of a branch's label is its headline, and the headline
//! starts with the branch's name.  So the rows that are read from the
//! picture of a log name the branches that the log shows, and the row that a
//! row hangs from names the parent of its branch.

use vstd::prelude::*;
use crate::log_tree;
use crate::log_tree::LogBranch;
use crate::outline;
use crate::outline::OutlineRow;
use crate::picture;
use crate::stack::Stack;
use crate::text;
use crate::tree;
use crate::tree::Node;

verus! {

/// No character of the text is a blank.
pub open spec fn no_blank(s: Seq<char>) -> bool {
    forall|i: int| 0 <= i < s.len() ==> #[trigger] s[i] != ' '
}

/// The name of the branch on a headline: what stands before the first
/// blank.
pub open spec fn headline_branch(line: Seq<char>) -> Seq<char> {
    line.take(text::find_spec(line, ' ', 0))
}

/// The first `c` at or after `from` is where no place before it holds one.
pub proof fn lemma_find_first(s: Seq<char>, c: char, from: int, at: int)
    requires
        0 <= from <= at < s.len(),
        s[at] == c,
        forall|i: int| from <= i < at ==> #[trigger] s[i] != c,
    ensures
        text::find_spec(s, c, from) == at,
    decreases at - from,
{
    if from < at {
        assert(s[from] != c);
        lemma_find_first(s, c, from + 1, at);
    }
}

/// The headline of a branch whose name holds no blank starts with the name,
/// and the name ends where the first blank stands.
pub proof fn lemma_headline_branch(name: Seq<char>, commits: Seq<(Seq<char>, Seq<char>)>)
    requires
        no_blank(name),
    ensures
        headline_branch(log_tree::headline(name, commits)) == name,
{
    reveal_strlit(" - ");
    let line = log_tree::headline(name, commits);
    let n = name.len() as int;
    assert(" - "@[0] == ' ');
    assert(line[n] == ' ');
    assert forall|i: int| 0 <= i < n implies #[trigger] line[i] != ' ' by {
        assert(line[i] == name[i]);
    }
    lemma_find_first(line, ' ', 0, n);
    assert(line.take(n) =~= name);
}

/// The name of the branch on a headline.
pub fn branch_on(headline: &str) -> (r: String)
    ensures
        r@ == headline_branch(headline@),
{
    let v = text::chars_of(headline);
    let end = text::find(&v, ' ', 0);
    assert(v@.subrange(0, end as int) =~= v@.take(end as int));
    text::substring(&v, 0, end)
}

impl Stack {
    /// The headline of branch `b`.
    pub open spec fn head_of(&self, b: int) -> Seq<char> {
        log_tree::headline(self.names()[b], log_tree::log_commit_views(self.branches@[b].commits@))
    }

    /// The name of branch `b` holds no blank, and its headline is one line.
    pub open spec fn clear_head(&self, b: int) -> bool {
        no_blank(self.names()[b]) && picture::one_line(self.head_of(b))
    }

    /// Every branch has a name without a blank and a headline of one line.
    pub open spec fn clear_heads(&self) -> bool {
        forall|b: int| 0 <= b < self.branches@.len() ==> #[trigger] self.clear_head(b)
    }

    /// The link of a child points at the branch it hangs from.
    pub proof fn lemma_child_links(&self, i: int)
        requires
            self.wf(),
            0 <= i < self.branches@.len(),
        ensures
            forall|k: int|
                0 <= k < self.branches@[i].children@.len() ==> self.links()[(
                #[trigger] self.branches@[i].children@[k]) as int] == Some(i as usize),
    {
        let n = self.branches@.len() as int;
        assert(self.branches.len() == self.branches@.len());
        crate::stack::lemma_kids_upto(self.links(), i, n);
        assert(self.kids_ok(i));
    }
}

/// The branches that the nodes of a log tree show, in the order of its rows.
pub open spec fn places(node: Node<LogBranch<'_>>) -> Seq<int>
    decreases node, 0nat,
{
    seq![node.data.place as int] + places_below(node.children@, node.children@.len() as int)
}

/// The branches that the nodes of the first `n` of the trees show.
pub open spec fn places_below(kids: Seq<Node<LogBranch<'_>>>, n: int) -> Seq<int>
    decreases kids, n,
{
    if n <= 0 || n > kids.len() {
        Seq::empty()
    } else {
        places_below(kids, n - 1) + places(kids[n - 1])
    }
}

/// The first line of the label of a node is the headline of its branch.
pub proof fn lemma_first_line_is_headline(node: Node<LogBranch<'_>>, stack: &Stack, place: usize)
    requires
        place < stack.branches@.len(),
        log_tree::shows(node, stack, place),
        stack.clear_head(place as int),
    ensures
        picture::first_line(node.label@) == stack.head_of(place as int),
{
    reveal_strlit("\n");
    assert("\n"@ =~= seq!['\n']);
    let head = stack.head_of(place as int);
    assert(node.data.name_spec() == head);
    let rest = crate::indent::prefix_lines(node.data.data_spec(), "  "@);
    assert(node.label@ == head + seq!['\n'] + rest);
    picture::lemma_split_around(head, rest);
    picture::lemma_split_one_line(head);
    picture::lemma_split_pieces(rest);
}

/// Row `r` of the rows `said` tells of branch `b`: its headline, and how
/// far it stands below the branch at depth `base` that is shown at depth
/// `depth`.
pub open spec fn tells_of(
    stack: &Stack,
    said: Seq<(int, Seq<char>)>,
    r: int,
    b: int,
    depth: int,
    base: int,
) -> bool {
    &&& 0 <= b < stack.branches@.len()
    &&& said[r].1 == stack.head_of(b)
    &&& said[r].0 == depth + stack.depths()[b] - base
}

/// The rows of a log tree tell of the branches that its nodes show, and in
/// the tree every node but the first hangs from the node of its branch's
/// parent.
pub proof fn lemma_log_rows(
    node: Node<LogBranch<'_>>,
    stack: &Stack,
    place: usize,
    depth: int,
    at: int,
    up: Option<int>,
)
    requires
        stack.wf(),
        stack.clear_heads(),
        place < stack.branches@.len(),
        log_tree::shows(node, stack, place),
    ensures
        picture::rows(node, depth).len() == places(node).len(),
        picture::hangs(node, at, up).len() == places(node).len(),
        places(node)[0] == place,
        forall|r: int|
            0 <= r < places(node).len() ==> tells_of(
                stack,
                picture::rows(node, depth),
                r,
                #[trigger] places(node)[r],
                depth,
                stack.depths()[place as int],
            ),
        forall|r: int|
            0 < r < places(node).len() ==> match #[trigger] picture::hangs(node, at, up)[r] {
                Some(q) => at <= q < at + r && stack.links()[places(node)[r]] == Some(
                    places(node)[q - at] as usize,
                ),
                None => false,
            },
    decreases node, 0nat,
{
    let kids = node.children@;
    let n = kids.len() as int;
    let list = stack.branches@[place as int].children@;
    let said = picture::rows(node, depth);
    let order = places(node);
    let hung = picture::hangs(node, at, up);
    let base = stack.depths()[place as int];
    stack.lemma_child_is_lower(place as int);
    assert(stack.clear_head(place as int));
    lemma_first_line_is_headline(node, stack, place);
    picture::lemma_rows_of_tree(node, depth, at, up);
    assert forall|i: int| 0 <= i < kids.len() implies log_tree::shows(
        #[trigger] kids[i],
        stack,
        list[i],
    ) by {}
    lemma_log_rows_below(kids, stack, place, depth + 1, at + 1, at, n);
    let below = picture::rows_below(kids, depth + 1, n);
    let under = places_below(kids, n);
    let hung_below = picture::hangs_below(kids, at + 1, at, n);
    assert forall|r: int| 0 <= r < order.len() implies tells_of(
        stack,
        said,
        r,
        #[trigger] order[r],
        depth,
        base,
    ) by {
        if r > 0 {
            assert(order[r] == under[r - 1]);
            assert(said[r] == below[r - 1]);
            assert(tells_of(stack, below, r - 1, under[r - 1], depth + 1, base + 1));
        }
    }
    assert forall|r: int| 0 < r < order.len() implies match #[trigger] hung[r] {
        Some(q) => at <= q < at + r && stack.links()[order[r]] == Some(order[q - at] as usize),
        None => false,
    } by {
        assert(hung[r] == hung_below[r - 1]);
        assert(order[r] == under[r - 1]);
        match hung_below[r - 1] {
            Some(q) => {
                if q != at {
                    assert(order[q - at] == under[q - at - 1]);
                }
            },
            None => {},
        }
    }
}

/// The rows of the first `n` of the trees below a branch tell of the
/// branches that their nodes show, and every node hangs from the node of
/// its branch's parent: the first node of a tree from row `up`, where the
/// branch itself stands, every other from a row of its own tree.
pub proof fn lemma_log_rows_below(
    kids: Seq<Node<LogBranch<'_>>>,
    stack: &Stack,
    parent: usize,
    depth: int,
    start: int,
    up: int,
    n: int,
)
    requires
        stack.wf(),
        stack.clear_heads(),
        parent < stack.branches@.len(),
        kids.len() == stack.branches@[parent as int].children@.len(),
        forall|i: int|
            0 <= i < kids.len() ==> log_tree::shows(
                #[trigger] kids[i],
                stack,
                stack.branches@[parent as int].children@[i],
            ),
        0 <= n <= kids.len(),
        up < start,
    ensures
        picture::rows_below(kids, depth, n).len() == places_below(kids, n).len(),
        picture::hangs_below(kids, start, up, n).len() == places_below(kids, n).len(),
        forall|r: int|
            0 <= r < places_below(kids, n).len() ==> tells_of(
                stack,
                picture::rows_below(kids, depth, n),
                r,
                #[trigger] places_below(kids, n)[r],
                depth,
                stack.depths()[parent as int] + 1,
            ),
        forall|r: int|
            0 <= r < places_below(kids, n).len() ==> match #[trigger] picture::hangs_below(
                kids,
                start,
                up,
                n,
            )[r] {
                Some(q) => {
                    let b = places_below(kids, n)[r];
                    ||| q == up && stack.links()[b] == Some(parent)
                    ||| start <= q < start + r && stack.links()[b] == Some(
                        places_below(kids, n)[q - start] as usize,
                    )
                },
                None => false,
            },
    decreases kids, n,
{
    if n > 0 {
        let list = stack.branches@[parent as int].children@;
        let child = list[n - 1];
        let node = kids[n - 1];
        let base = stack.depths()[parent as int] + 1;
        stack.lemma_child_is_lower(parent as int);
        stack.lemma_child_links(parent as int);
        assert(list[n - 1] < stack.branches@.len());
        assert(stack.links()[child as int] == Some(parent));
        assert(stack.depths()[child as int] == base);
        lemma_log_rows_below(kids, stack, parent, depth, start, up, n - 1);
        let prev = picture::rows_below(kids, depth, n - 1);
        let prev_order = places_below(kids, n - 1);
        let prev_hung = picture::hangs_below(kids, start, up, n - 1);
        let first = start + prev_hung.len();
        assert(log_tree::shows(node, stack, child));
        lemma_log_rows(node, stack, child, depth, first, Some(up));
        let own = picture::rows(node, depth);
        let own_order = places(node);
        let own_hung = picture::hangs(node, first, Some(up));
        let all = picture::rows_below(kids, depth, n);
        let order = places_below(kids, n);
        let hung = picture::hangs_below(kids, start, up, n);
        assert(all == prev + own);
        assert(order == prev_order + own_order);
        assert(hung == prev_hung + own_hung);
        let m = prev.len() as int;
        assert forall|r: int| 0 <= r < order.len() implies tells_of(
            stack,
            all,
            r,
            #[trigger] order[r],
            depth,
            base,
        ) by {
            if r < m {
                assert(order[r] == prev_order[r]);
                assert(tells_of(stack, prev, r, prev_order[r], depth, base));
            } else {
                assert(order[r] == own_order[r - m]);
                assert(tells_of(stack, own, r - m, own_order[r - m], depth, base));
            }
        }
        assert forall|r: int| 0 <= r < order.len() implies match #[trigger] hung[r] {
            Some(q) => {
                let b = order[r];
                ||| q == up && stack.links()[b] == Some(parent)
                ||| start <= q < start + r && stack.links()[b] == Some(order[q - start] as usize)
            },
            None => false,
        } by {
            if r < m {
                assert(hung[r] == prev_hung[r]);
                assert(order[r] == prev_order[r]);
                match prev_hung[r] {
                    Some(q) => {
                        if q != up {
                            assert(order[q - start] == prev_order[q - start]);
                        }
                    },
                    None => {},
                }
            } else if r == m {
                assert(hung[r] == own_hung[0]);
                assert(order[r] == own_order[0]);
            } else {
                assert(hung[r] == own_hung[r - m]);
                assert(order[r] == own_order[r - m]);
                match own_hung[r - m] {
                    Some(q) => {
                        assert(order[q - start] == own_order[q - first]);
                    },
                    None => {},
                }
            }
        }
    }
}

/// Reading the picture of a log gives the branches that the log shows.
/// Every row bears the name of its branch before the first blank and stands
/// as deep as the branch stands below the branch at the root of the
/// picture; the row that it hangs from, the nearest row before it that is
/// less deep, is the row of its branch's parent, and only the first row
/// hangs from none.  For that every label must be one that a picture lets
/// be read back, every name without a blank and every headline one line.
pub proof fn lemma_log_picture_round_trip(node: Node<LogBranch<'_>>, stack: &Stack, place: usize)
    requires
        stack.wf(),
        stack.clear_heads(),
        place < stack.branches@.len(),
        log_tree::shows(node, stack, place),
        picture::plain(node),
    ensures
        picture::read_spec(tree::picture_spec(node)).len() == places(node).len(),
        places(node)[0] == place,
        forall|r: int|
            0 <= r < places(node).len() ==> {
                let said = picture::read_spec(tree::picture_spec(node));
                let b = #[trigger] places(node)[r];
                &&& 0 <= b < stack.branches@.len()
                &&& headline_branch(said[r].1) == stack.names()[b]
                &&& said[r].0 == stack.depths()[b] - stack.depths()[place as int]
                &&& match picture::row_parent(said, r) {
                    Some(q) => 0 <= q < r && stack.links()[b] == Some(places(node)[q] as usize),
                    None => r == 0,
                }
            },
{
    reveal_strlit(" - ");
    let head = stack.head_of(place as int);
    let name = stack.names()[place as int];
    assert(stack.clear_head(place as int));
    lemma_first_line_is_headline(node, stack, place);
    assert(picture::units(head) == 0) by {
        assert(" - "@[0] == ' ' && " - "@[1] == '-');
        if name.len() == 0 {
            assert(head[1] == '-');
        } else {
            assert(head[0] == name[0]);
            assert(name[0] != ' ');
            assert(head[0] != '\u{1b}');
        }
    }
    picture::lemma_picture_reads_back(node);
    picture::lemma_picture_hangs(node);
    lemma_log_rows(node, stack, place, 0, 0, None);
    let said = picture::rows(node, 0);
    let order = places(node);
    let hung = picture::hangs(node, 0, None);
    assert forall|r: int| 0 <= r < order.len() implies {
        let b = #[trigger] order[r];
        &&& 0 <= b < stack.branches@.len()
        &&& headline_branch(said[r].1) == stack.names()[b]
        &&& said[r].0 == stack.depths()[b] - stack.depths()[place as int]
        &&& match picture::row_parent(said, r) {
            Some(q) => 0 <= q < r && stack.links()[b] == Some(order[q] as usize),
            None => r == 0,
        }
    } by {
        let b = order[r];
        assert(tells_of(stack, said, r, b, 0, stack.depths()[place as int]));
        assert(stack.clear_head(b));
        lemma_headline_branch(
            stack.names()[b],
            log_tree::log_commit_views(stack.branches@[b].commits@),
        );
        assert(picture::row_parent(said, r) == hung[r]);
        if r > 0 {
            assert(hung[r] is Some);
        }
    }
}

/// What one of the first `n` trees shows, all of them show.
pub proof fn lemma_places_below_hold(kids: Seq<Node<LogBranch<'_>>>, m: int, n: int, b: int)
    requires
        0 <= m < n <= kids.len(),
        places(kids[m]).contains(b),
    ensures
        places_below(kids, n).contains(b),
    decreases n,
{
    let init = places_below(kids, n - 1);
    let own = places(kids[n - 1]);
    let all = places_below(kids, n);
    if m == n - 1 {
        let r = choose|r: int| 0 <= r < own.len() && own[r] == b;
        assert(all[init.len() + r] == b);
    } else {
        lemma_places_below_hold(kids, m, n - 1, b);
        let r = choose|r: int| 0 <= r < init.len() && init[r] == b;
        assert(all[r] == b);
    }
}

/// The log leaves out no branch that hangs, by however many links, below
/// the branch it starts from.
pub proof fn lemma_log_shows_every_branch(
    node: Node<LogBranch<'_>>,
    stack: &Stack,
    place: usize,
    path: Seq<int>,
)
    requires
        stack.wf(),
        place < stack.branches@.len(),
        log_tree::shows(node, stack, place),
        outline::is_path(stack.kids(), path),
        path[0] == place,
    ensures
        places(node).contains(path.last()),
    decreases path.len(),
{
    let order = places(node);
    if path.len() == 1 {
        assert(order[0] == path.last());
    } else {
        let kids = stack.kids();
        let rest = path.skip(1);
        assert(outline::is_path(kids, rest)) by {
            assert forall|j: int| 0 <= j < rest.len() - 1 implies {
                &&& 0 <= #[trigger] rest[j] < kids.len()
                &&& 0 <= rest[j + 1] <= usize::MAX
                &&& kids[rest[j]].contains(rest[j + 1] as usize)
            } by {
                assert(rest[j] == path[j + 1]);
                assert(rest[j + 1] == path[j + 2]);
            }
        }
        assert(rest.last() == path.last());
        assert(rest[0] == path[1]);
        let child = path[1] as usize;
        let list = stack.branches@[place as int].children@;
        assert(kids[path[0]] == list);
        assert(list.contains(child));
        let m = choose|m: int| 0 <= m < list.len() && list[m] == child;
        stack.lemma_child_is_lower(place as int);
        assert(list[m] < stack.branches@.len());
        let below = node.children@[m];
        assert(log_tree::shows(below, stack, list[m]));
        lemma_log_shows_every_branch(below, stack, child, rest);
        lemma_places_below_hold(node.children@, m, node.children@.len() as int, path.last());
        let under = places_below(node.children@, node.children@.len() as int);
        let r = choose|r: int| 0 <= r < under.len() && under[r] == path.last();
        assert(order[r + 1] == path.last());
    }
}

/// Reads the picture of a log: for every branch that it shows its name, how
/// deep it hangs below the branch at the root of the picture, and the row
/// it hangs from.
pub fn read_log(shown: &str) -> (r: Vec<OutlineRow>)
    ensures
        r@.len() == picture::read_spec(shown@).len(),
        forall|i: int|
            0 <= i < r@.len() ==> {
                &&& (#[trigger] r@[i]).name@ == headline_branch(picture::read_spec(shown@)[i].1)
                &&& r@[i].depth == picture::read_spec(shown@)[i].0
                &&& (match picture::row_parent(picture::read_spec(shown@), i) {
                    Some(q) => r@[i].parent == Some(q as usize),
                    None => r@[i].parent is None,
                })
            },
{
    let rows = picture::read_picture(shown);
    let ghost said = picture::read_spec(shown@);
    let mut out: Vec<OutlineRow> = Vec::new();
    let mut i: usize = 0;
    while i < rows.len()
        invariant
            i <= rows.len(),
            out@.len() == i,
            forall|k: int|
                0 <= k < i ==> {
                    &&& (#[trigger] out@[k]).name@ == headline_branch(rows@[k].name@)
                    &&& out@[k].depth == rows@[k].depth
                    &&& out@[k].parent == rows@[k].parent
                },
        decreases rows.len() - i,
    {
        let name = branch_on(rows[i].name.as_str());
        out.push(OutlineRow { name, depth: rows[i].depth, parent: rows[i].parent });
        i += 1;
    }
    assert forall|k: int| 0 <= k < out@.len() implies {
        &&& (#[trigger] out@[k]).name@ == headline_branch(said[k].1)
        &&& out@[k].depth == said[k].0
        &&& (match picture::row_parent(said, k) {
            Some(q) => out@[k].parent == Some(q as usize),
            None => out@[k].parent is None,
        })
    } by {
        assert(rows@[k].name@ == said[k].1);
    }
    out
}

} // verus!
