use gr::tree::{Tree, WithChildren};

#[derive(Clone)]
struct TreeNode {
    name: String,
    children: Vec<TreeNode>,
}

impl WithChildren for TreeNode {
    fn label_spec(&self) -> vstd::seq::Seq<char> {
        unreachable!()
    }

    fn children_spec(&self) -> vstd::seq::Seq<Self> {
        unreachable!()
    }

    fn label(&self) -> String {
        self.name.clone()
    }

    fn children(&self) -> Vec<TreeNode> {
        self.children.clone()
    }
}

fn leaf(name: &str) -> TreeNode {
    TreeNode { name: String::from(name), children: vec![] }
}

fn test_tree() -> Tree<TreeNode> {
    Tree::new(TreeNode {
        name: String::from("root"),
        children: vec![
            TreeNode {
                name: String::from("a"),
                children: vec![
                    TreeNode { name: String::from("aa"), children: vec![] },
                    TreeNode {
                        name: String::from("ab\nababab\nXyzzzay\ndfkai"),
                        children: vec![TreeNode { name: String::from("aba"), children: vec![] }],
                    },
                    TreeNode { name: String::from("ac"), children: vec![] },
                ],
            },
            TreeNode {
                name: String::from("b"),
                children: vec![TreeNode { name: String::from("ba"), children: vec![] }],
            },
        ],
    })
}

#[test]
fn test_log_generates_tree() {
    let t = test_tree();
    assert!(t.to_string().len() > 0);
}

#[test]
fn test_tree_grows_from_labels_and_children_in_order() {
    let t = test_tree();
    assert_eq!(t.root.label, "root");
    assert_eq!(t.root.data.name, "root");
    let names = |nodes: &Vec<gr::tree::Node<TreeNode>>| -> Vec<String> {
        nodes.iter().map(|n| n.label.clone()).collect()
    };
    assert_eq!(names(&t.root.children), vec!["a", "b"]);
    assert_eq!(names(&t.root.children[0].children), vec!["aa", "ab\nababab\nXyzzzay\ndfkai", "ac"]);
    assert_eq!(names(&t.root.children[0].children[1].children), vec!["aba"]);
    assert_eq!(names(&t.root.children[1].children), vec!["ba"]);
    assert!(t.root.children[0].children[0].children.is_empty());
    let flat = gr::tree::Node::grow(test_tree().root.data, 1);
    assert_eq!(names(&flat.children), vec!["a", "b"]);
    assert!(flat.children[0].children.is_empty());
    assert!(gr::tree::Node::grow(leaf("x"), 0).children.is_empty());
}

#[test]
fn test_single_node_is_its_label() {
    let t = Tree::new(leaf("root"));
    assert_eq!(t.to_string(), "root");
    assert_eq!(t.dfs_split_width(&t.root), 1);
}

#[test]
fn test_chain_keeps_one_colour_and_grows_upwards() {
    let t = Tree::new(TreeNode {
        name: String::from("root"),
        children: vec![TreeNode { name: String::from("a"), children: vec![leaf("b")] }],
    });
    let cyan = "\u{1b}[36m";
    let reset = "\u{1b}[0m";
    let expected = format!(
        "  {cyan}\u{250c}\u{2500}b{reset}\n{cyan}\u{250c}\u{2500}a{reset}\nroot"
    );
    assert_eq!(t.to_string(), expected);
}

#[test]
fn test_siblings_take_turns_through_the_palette() {
    let t = Tree::new(TreeNode {
        name: String::from("root"),
        children: vec![TreeNode {
            name: String::from("a"),
            children: vec![leaf("x"), leaf("y")],
        }],
    });
    let cyan = "\u{1b}[36m";
    let magenta = "\u{1b}[35m";
    let reset = "\u{1b}[0m";
    let expected = format!(
        "  {magenta}\u{250c}\u{2500}y{reset}\n  {cyan}\u{251c}\u{2500}x{reset}\n{cyan}\u{250c}\u{2500}a{reset}\nroot"
    );
    assert_eq!(t.to_string(), expected);
    assert_eq!(t.dfs_split_width(&t.root), 2);
}

#[test]
fn test_children_of_the_root_take_turns_too() {
    let t = Tree::new(TreeNode { name: String::from("root"), children: vec![leaf("a"), leaf("b")] });
    let cyan = "\u{1b}[36m";
    let magenta = "\u{1b}[35m";
    let reset = "\u{1b}[0m";
    let expected = format!(
        "{magenta}\u{250c}\u{2500}b{reset}\n{cyan}\u{251c}\u{2500}a{reset}\nroot"
    );
    assert_eq!(t.to_string(), expected);
}

#[test]
fn test_further_lines_of_a_label_stand_behind_a_bar() {
    let t = Tree::new(TreeNode {
        name: String::from("root"),
        children: vec![leaf("a\nsecond")],
    });
    let cyan = "\u{1b}[36m";
    let reset = "\u{1b}[0m";
    let expected = format!(
        "{cyan}\u{250c}\u{2500}a\n{cyan}| {reset}second{reset}\nroot"
    );
    assert_eq!(t.to_string(), expected);
}
