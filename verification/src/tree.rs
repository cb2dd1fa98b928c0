//! A tree of anything that has a label and children, and its picture.
//!
//! The picture grows upwards: the root stands on the last line and every
//! subtree above it.  Each node is drawn as a block, its first line behind a
//! connector: a tee where a sibling follows, a corner for the last child.
//! The lines of a subtree are indented under the connector of the node they
//! hang from.  Siblings take turns through the palette; an only child keeps
//! the colour of its parent.

use vstd::prelude::*;
use vstd::string::StringExecFns;
use crate::color_cycle;
use crate::color_cycle::Color;
use crate::color_cycle::ColorCycle;
use crate::indent;
use crate::text;

verus! {

/// The padding below a last child.
pub const SPACE: &'static str = "  ";

/// The bar that continues a level.
pub const PIPE: &'static str = "| ";

/// The bar beside a message.
pub const MSG_BAR: &'static str = "\u{2551} ";

/// The connector before a node that a sibling follows.
pub const HAS_NEIGHBOR: &'static str = "\u{251c}\u{2500}";

/// The connector before a last child in a picture that grows downwards.
pub const NO_NEIGHBOR: &'static str = "\u{2514}\u{2500}";

/// The connector before a last child in a picture that grows upwards.
pub const NO_NEIGHBOR_B: &'static str = "\u{250c}\u{2500}";

/// What a tree can be made of: a value that can say what hangs below it and
/// how it is labelled.
pub trait WithChildren: Sized {
    /// The label of the value.
    spec fn label_spec(&self) -> Seq<char>;

    /// The children of the value, in their order.
    spec fn children_spec(&self) -> Seq<Self>;

    /// The text that stands for the value in the picture; it may have
    /// several lines.
    fn label(&self) -> (r: String)
        ensures
            r@ == self.label_spec(),
    ;

    /// What hangs below the value.
    fn children(&self) -> (r: Vec<Self>)
        ensures
            r@ == self.children_spec(),
    ;
}

/// A value with the label it gave and the nodes of its children.
pub struct Node<T: WithChildren> {
    pub data: T,
    pub label: String,
    pub children: Vec<Node<T>>,
}

/// How many levels a tree is grown to at most.
pub const MAX_LEVELS: usize = usize::MAX;

/// A tree and the palette it is drawn with.
pub struct Tree<T: WithChildren> {
    pub root: Node<T>,
    pub color_cycle: ColorCycle,
}

/// The node is the tree that grows from `data` for at most `levels` levels:
/// it holds `data` and bears its label, and below it hang the trees that
/// grow from the children of `data`, one for each child and in their order,
/// each for one level less.  At level 0 nothing hangs below it.
pub open spec fn grown_from<T: WithChildren>(node: Node<T>, data: T, levels: nat) -> bool
    decreases levels,
{
    &&& node.data == data
    &&& node.label@ == data.label_spec()
    &&& if levels == 0 {
        node.children@.len() == 0
    } else {
        &&& node.children@.len() == data.children_spec().len()
        &&& forall|i: int|
            0 <= i < node.children@.len() ==> grown_from(
                #[trigger] node.children@[i],
                data.children_spec()[i],
                (levels - 1) as nat,
            )
    }
}

/// The connector before a node: a tee where a sibling follows, a corner
/// where none does.
pub open spec fn pointer(has_right_sib: bool) -> Seq<char> {
    if has_right_sib {
        HAS_NEIGHBOR@
    } else {
        NO_NEIGHBOR_B@
    }
}

/// The lines of a node: the first behind the connector, every further one
/// behind a bar in the node's colour.
pub open spec fn node_lines(lines: Seq<Seq<char>>, has_right_sib: bool, color: Color) -> Seq<
    Seq<char>,
> {
    Seq::new(
        lines.len(),
        |i: int|
            if i == 0 {
                pointer(has_right_sib) + lines[i]
            } else {
                color.paint_spec(PIPE@) + lines[i]
            },
    )
}

/// The block of a node: its lines in its colour, each behind the padding of
/// the level it stands on.
pub open spec fn block_spec(
    label: Seq<char>,
    padding: Seq<char>,
    has_right_sib: bool,
    color: Color,
) -> Seq<char> {
    indent::prefix_lines(
        color.paint_spec(
            text::join_spec(node_lines(text::split_spec(label, '\n'), has_right_sib, color), "\n"@),
        ),
        padding,
    )
}

/// The padding one level further in: a bar in the node's colour while
/// siblings follow, and blanks below the last child.
pub open spec fn deeper(padding: Seq<char>, has_right_sib: bool, color: Color) -> Seq<char> {
    padding + if has_right_sib {
        color.paint_spec(PIPE@)
    } else {
        SPACE@
    }
}

/// The place in the palette one step on.
pub open spec fn next_shade(shade: int) -> int {
    (shade + 1) % (color_cycle::PALETTE_SIZE as int)
}

/// The blocks of a node and of everything below it, the node's own first,
/// and the place in the palette at which the walk arrives.
pub open spec fn traverse_spec<T: WithChildren>(
    node: Node<T>,
    padding: Seq<char>,
    has_right_sib: bool,
    shade: int,
) -> (Seq<Seq<char>>, int)
    decreases node, 0nat,
{
    let color = color_cycle::palette()[shade];
    traverse_children(
        node.children@,
        deeper(padding, has_right_sib, color),
        0,
        shade,
        seq![block_spec(node.label@, padding, has_right_sib, color)],
    )
}

/// The blocks gathered so far and those of the children from the `k`-th on.
/// The colour moves on by one before every child but the first.
pub open spec fn traverse_children<T: WithChildren>(
    kids: Seq<Node<T>>,
    padding: Seq<char>,
    k: int,
    shade: int,
    blocks: Seq<Seq<char>>,
) -> (Seq<Seq<char>>, int)
    decreases kids, kids.len() - k,
{
    if k < 0 || k >= kids.len() {
        (blocks, shade)
    } else {
        let turned = if k > 0 {
            next_shade(shade)
        } else {
            shade
        };
        let (below, after) = traverse_spec(kids[k], padding, k < kids.len() - 1, turned);
        traverse_children(kids, padding, k + 1, after, blocks + below)
    }
}

/// The picture so far with the subtrees of the children from the `k`-th on
/// set above it, each with its blocks in reverse, so that a node stands
/// below what hangs from it.  The colour moves on by one before every child
/// but the first.
pub open spec fn stack_up<T: WithChildren>(
    kids: Seq<Node<T>>,
    k: int,
    shade: int,
    picture: Seq<char>,
) -> Seq<char>
    decreases kids.len() - k,
{
    if k < 0 || k >= kids.len() {
        picture
    } else {
        let turned = if k > 0 {
            next_shade(shade)
        } else {
            shade
        };
        let (blocks, after) = traverse_spec(kids[k], Seq::empty(), k < kids.len() - 1, turned);
        stack_up(
            kids,
            k + 1,
            after,
            text::join_spec(blocks.reverse(), "\n"@) + "\n"@ + picture,
        )
    }
}

/// The picture of a tree.
pub open spec fn picture_spec<T: WithChildren>(root: Node<T>) -> Seq<char> {
    stack_up(root.children@, 0, 0, root.label@)
}

/// The number of leaves below a node, the node itself if it is one.
pub open spec fn width_spec<T: WithChildren>(node: Node<T>) -> nat
    decreases node, 0nat,
{
    if node.children@.len() == 0 {
        1
    } else {
        widths(node.children@, node.children@.len() as int)
    }
}

/// The number of leaves below the first `n` nodes.
pub open spec fn widths<T: WithChildren>(kids: Seq<Node<T>>, n: int) -> nat
    decreases kids, n,
{
    if n <= 0 || n > kids.len() {
        0
    } else {
        widths(kids, n - 1) + width_spec(kids[n - 1])
    }
}

/// The strings in reverse order.
pub fn reversed(v: &Vec<String>) -> (r: Vec<String>)
    ensures
        text::views(r@) == text::views(v@).reverse(),
{
    let n = v.len();
    let mut out: Vec<String> = Vec::new();
    let mut k: usize = 0;
    while k < n
        invariant
            k <= n,
            n == v@.len(),
            text::views(out@) =~= text::views(v@).reverse().take(k as int),
        decreases n - k,
    {
        let ghost before = text::views(out@);
        out.push(v[n - 1 - k].clone());
        assert(text::views(out@) =~= before.push(v@[n - 1 - k]@));
        k += 1;
    }
    assert(text::views(out@) =~= text::views(v@).reverse());
    out
}

/// The block of a node.
pub fn block(label: &str, padding: &str, has_right_sib: bool, color: Color) -> (r: String)
    ensures
        r@ == block_spec(label@, padding@, has_right_sib, color),
{
    let lines = text::split(label, '\n');
    let bar = color.paint(PIPE);
    let mut body: Vec<String> = Vec::new();
    let mut i: usize = 0;
    while i < lines.len()
        invariant
            i <= lines.len(),
            bar@ == color.paint_spec(PIPE@),
            text::views(body@) =~= node_lines(text::views(lines@), has_right_sib, color).take(
                i as int,
            ),
        decreases lines.len() - i,
    {
        let ghost before = text::views(body@);
        let line = if i == 0 {
            text::concat(
                if has_right_sib {
                    HAS_NEIGHBOR
                } else {
                    NO_NEIGHBOR_B
                },
                lines[i].as_str(),
            )
        } else {
            text::concat(bar.as_str(), lines[i].as_str())
        };
        body.push(line);
        assert(text::views(body@) =~= before.push(
            node_lines(text::views(lines@), has_right_sib, color)[i as int],
        ));
        i += 1;
    }
    assert(text::views(body@) =~= node_lines(text::views(lines@), has_right_sib, color));
    let joined = text::join(&body, "\n");
    let painted = color.paint(joined.as_str());
    indent::prefix_each_line(painted.as_str(), padding)
}

impl<T: WithChildren> Node<T> {
    /// The tree that grows from a value: the value with its label, and
    /// below it the trees that grow from its children, in their order.
    pub fn from(data: T) -> (r: Self)
        ensures
            grown_from(r, data, MAX_LEVELS as nat),
    {
        Node::grow(data, MAX_LEVELS)
    }

    /// The tree that grows from a value, for at most so many levels below
    /// it.
    pub fn grow(data: T, levels: usize) -> (r: Self)
        ensures
            grown_from(r, data, levels as nat),
        decreases levels,
    {
        let label = data.label();
        let mut nodes: Vec<Node<T>> = Vec::new();
        if levels > 0 {
            let mut kids = data.children();
            let ghost all = kids@;
            let ghost n = all.len() as int;
            let mut rev: Vec<Node<T>> = Vec::new();
            while kids.len() > 0
                invariant
                    levels > 0,
                    n == all.len(),
                    kids@.len() <= n,
                    kids@ == all.take(kids@.len() as int),
                    rev@.len() == n - kids@.len(),
                    forall|j: int|
                        0 <= j < rev@.len() ==> grown_from(
                            #[trigger] rev@[j],
                            all[n - 1 - j],
                            (levels - 1) as nat,
                        ),
                decreases kids@.len(),
            {
                let ghost m = kids@.len() as int;
                let child = kids.pop().unwrap();
                assert(child == all[m - 1]);
                assert(kids@ =~= all.take(m - 1));
                rev.push(Node::grow(child, levels - 1));
            }
            while rev.len() > 0
                invariant
                    levels > 0,
                    n == all.len(),
                    rev@.len() + nodes@.len() == n,
                    forall|j: int|
                        0 <= j < rev@.len() ==> grown_from(
                            #[trigger] rev@[j],
                            all[n - 1 - j],
                            (levels - 1) as nat,
                        ),
                    forall|j: int|
                        0 <= j < nodes@.len() ==> grown_from(
                            #[trigger] nodes@[j],
                            all[j],
                            (levels - 1) as nat,
                        ),
                decreases rev@.len(),
            {
                let node = rev.pop().unwrap();
                nodes.push(node);
            }
        }
        Node { data, label, children: nodes }
    }

    /// The label of the node.
    pub fn to_string(&self) -> (r: String)
        ensures
            r@ == self.label@,
    {
        self.label.clone()
    }
}

impl<T: WithChildren> Tree<T> {
    /// The tree that grows from `root`.
    pub fn new(root: T) -> (r: Self)
        ensures
            grown_from(r.root, root, MAX_LEVELS as nat),
            r.color_cycle.wf(),
            r.color_cycle.position() == 0,
    {
        let root = Node::from(root);
        let color_cycle = ColorCycle::new();
        Self { root, color_cycle }
    }

    /// The tree with the given root.
    pub fn of(root: Node<T>) -> (r: Self)
        ensures
            r.root == root,
            r.color_cycle.wf(),
            r.color_cycle.position() == 0,
    {
        Self { root, color_cycle: ColorCycle::new() }
    }

    /// The picture of the tree, its root on the last line.
    pub fn to_string(&self) -> (r: String)
        ensures
            r@ == picture_spec(self.root),
    {
        self.dfs_stringify(&self.root)
    }

    /// The picture of the tree below `root`.
    pub fn dfs_stringify(&self, root: &Node<T>) -> (r: String)
        ensures
            r@ == picture_spec(*root),
    {
        let mut color_cycle = ColorCycle::new();
        let mut out = root.to_string();
        let count = root.children.len();
        let mut i: usize = 0;
        while i < count
            invariant
                i <= count,
                count == root.children@.len(),
                color_cycle.wf(),
                stack_up(root.children@, i as int, color_cycle.position(), out@) == picture_spec(
                    *root,
                ),
            decreases count - i,
        {
            let c = &root.children[i];
            proof {
                reveal_strlit("");
                assert(""@ =~= Seq::<char>::empty());
            }
            if i > 0 {
                color_cycle.advance();
            }
            let blocks = self.dfs_traverse_node(c, "", i + 1 < count, &mut color_cycle);
            let above = text::join(&reversed(&blocks), "\n");
            out = text::concat3(above.as_str(), "\n", out.as_str());
            i += 1;
        }
        out
    }

    /// The blocks of `node` and of everything below it, the node's own
    /// first.  The cycle is left where the walk arrived.
    pub fn dfs_traverse_node(
        &self,
        node: &Node<T>,
        padding: &str,
        has_right_sib: bool,
        color_cycle: &mut ColorCycle,
    ) -> (r: Vec<String>)
        requires
            old(color_cycle).wf(),
        ensures
            final(color_cycle).wf(),
            (text::views(r@), final(color_cycle).position()) == traverse_spec(
                *node,
                padding@,
                has_right_sib,
                old(color_cycle).position(),
            ),
        decreases node,
    {
        let ghost shade = color_cycle.position();
        let color = color_cycle.color();
        let label = node.to_string();
        let mut my_block: Vec<String> = Vec::new();
        my_block.push(block(label.as_str(), padding, has_right_sib, color));
        assert(text::views(my_block@) =~= seq![
            block_spec(node.label@, padding@, has_right_sib, color),
        ]);
        let ghost goal = traverse_spec(*node, padding@, has_right_sib, shade);
        let padding = if has_right_sib {
            text::concat(padding, color.paint(PIPE).as_str())
        } else {
            text::concat(padding, SPACE)
        };
        let count = node.children.len();
        let mut i: usize = 0;
        while i < count
            invariant
                i <= count,
                count == node.children@.len(),
                color_cycle.wf(),
                traverse_children(
                    node.children@,
                    padding@,
                    i as int,
                    color_cycle.position(),
                    text::views(my_block@),
                ) == goal,
            decreases count - i,
        {
            let c = &node.children[i];
            if i > 0 {
                color_cycle.advance();
            }
            let mut below = self.dfs_traverse_node(c, padding.as_str(), i + 1 < count, color_cycle);
            let ghost before = text::views(my_block@);
            let ghost added = text::views(below@);
            my_block.append(&mut below);
            assert(text::views(my_block@) =~= before + added);
            i += 1;
        }
        my_block
    }

    /// The number of leaves below `node`, or the greatest number there is
    /// where they are more.
    pub fn dfs_split_width(&self, node: &Node<T>) -> (r: usize)
        ensures
            r == if width_spec(*node) <= usize::MAX {
                width_spec(*node)
            } else {
                usize::MAX as nat
            },
        decreases node,
    {
        let count = node.children.len();
        if count == 0 {
            return 1;
        }
        let mut total: usize = 0;
        let mut i: usize = 0;
        while i < count
            invariant
                i <= count,
                count == node.children@.len(),
                total == if widths(node.children@, i as int) <= usize::MAX {
                    widths(node.children@, i as int)
                } else {
                    usize::MAX as nat
                },
            decreases count - i,
        {
            let w = self.dfs_split_width(&node.children[i]);
            total = total.saturating_add(w);
            i += 1;
        }
        total
    }
}

} // verus!
