use gr::color_cycle::Color;
use gr::git::Git;
use gr::stack::Stack;

fn chain() -> Git {
    Git::open(
        "true",
        "c",
        "root\na\nb\nc",
        "  root 1111111 base\n  a 2222222 [root] one\n  b 3333333 [a] two\n* c 4444444 [b] three",
        "origin",
    )
}

fn fork() -> Git {
    Git::open(
        "true",
        "a",
        "root\na\nb",
        "  root 1111111 [origin/root] base\n* a 2222222 [root] one\n  b 3333333 [root] two",
        "origin",
    )
}

fn wide() -> Git {
    // root -> a -> (x, y), root -> b -> (p, q), other (a second root)
    Git::open(
        "true",
        "x",
        "root\na\nb\nx\ny\np\nq\nother",
        "root 1111111 base\na 2222222 [root] .\nb 3333333 [root] .\nx 4444444 [a] .\ny 5555555 [a] .\np 6666666 [b] .\nq 7777777 [b] .\nother 8888888 lonely",
        "",
    )
}

fn ids(stack: &Stack) -> Vec<(String, i64)> {
    stack.branches.iter().map(|b| (b.name.clone(), b.stack_id)).collect()
}

fn depths(stack: &Stack) -> Vec<usize> {
    stack.branches.iter().map(|b| b.depth).collect()
}

fn id_of(stack: &Stack, name: &str) -> i64 {
    stack.branches[stack.find(name).unwrap()].stack_id
}

#[test]
fn test_linear_chain_is_one_stack() {
    let mut stack = Stack::build(&chain()).unwrap();
    stack.assign_stack_ids("c");
    assert_eq!(
        ids(&stack),
        vec![
            ("root".to_string(), 0),
            ("a".to_string(), 0),
            ("b".to_string(), 0),
            ("c".to_string(), 0)
        ]
    );
    assert_eq!(depths(&stack), vec![0, 1, 2, 3]);
    assert_eq!(stack.roots, vec![0]);
    assert_eq!(stack.height, 3);
}

#[test]
fn test_divergent_branch_gets_a_negative_id() {
    let mut stack = Stack::build(&fork()).unwrap();
    stack.assign_stack_ids("a");
    assert_eq!(id_of(&stack, "root"), 0);
    assert_eq!(id_of(&stack, "a"), 0);
    assert!(id_of(&stack, "b") < 0);
    assert_eq!(id_of(&stack, "b"), -2);
    assert_eq!(depths(&stack), vec![0, 1, 1]);
    assert_eq!(stack.branches[0].parent, Some("origin/root".to_string()));
    assert_eq!(stack.branches[0].local_parent, None);
    assert_eq!(stack.branches[0].children, vec![1, 2]);
}

#[test]
fn test_divergent_ids_fall_in_the_order_of_discovery() {
    let mut stack = Stack::build(&wide()).unwrap();
    stack.assign_stack_ids("x");
    assert_eq!(id_of(&stack, "root"), 0);
    assert_eq!(id_of(&stack, "a"), 0);
    assert_eq!(id_of(&stack, "x"), 0);
    let found = ["y", "b", "p", "q", "other"];
    for pair in found.windows(2) {
        assert!(id_of(&stack, pair[0]) < 0);
        assert!(id_of(&stack, pair[1]) < id_of(&stack, pair[0]));
    }
    assert_eq!(stack.roots, vec![0, 7]);
}

#[test]
fn test_assignment_is_idempotent() {
    let mut stack = Stack::build(&wide()).unwrap();
    stack.assign_stack_ids("x");
    let once = ids(&stack);
    let colors: Vec<Color> = stack.branches.iter().map(|b| b.color).collect();
    stack.assign_stack_ids("x");
    assert_eq!(ids(&stack), once);
    assert_eq!(stack.branches.iter().map(|b| b.color).collect::<Vec<Color>>(), colors);
}

#[test]
fn test_assignment_forgets_an_earlier_current_branch() {
    let mut stack = Stack::build(&wide()).unwrap();
    stack.assign_stack_ids("q");
    assert_eq!(id_of(&stack, "q"), 0);
    assert_eq!(id_of(&stack, "b"), 0);
    assert!(id_of(&stack, "x") < 0);
    stack.assign_stack_ids("x");
    let mut fresh = Stack::build(&wide()).unwrap();
    fresh.assign_stack_ids("x");
    assert_eq!(ids(&stack), ids(&fresh));
}

#[test]
fn test_unknown_current_branch_pins_nothing() {
    let mut stack = Stack::build(&fork()).unwrap();
    stack.assign_stack_ids("nowhere");
    assert_eq!(id_of(&stack, "root"), 0);
    assert_eq!(id_of(&stack, "a"), -1);
    assert_eq!(id_of(&stack, "b"), -2);
}

#[test]
fn test_branch_colours_advance_once_per_sibling() {
    let mut stack = Stack::build(&wide()).unwrap();
    stack.assign_stack_ids("x");
    let color_of = |name: &str| stack.branches[stack.find(name).unwrap()].color;
    assert_eq!(color_of("root"), Color::Cyan);
    assert_eq!(color_of("a"), Color::Cyan);
    assert_eq!(color_of("x"), Color::Cyan);
    assert_eq!(color_of("y"), Color::Magenta);
    assert_eq!(color_of("b"), Color::BrightGreen);
    assert_eq!(color_of("p"), Color::BrightGreen);
    assert_eq!(color_of("q"), Color::BrightRed);
    assert_eq!(color_of("other"), Color::Blue);
}

#[test]
fn test_display_order_keeps_the_trunk_together() {
    let mut stack = Stack::build(&wide()).unwrap();
    stack.assign_stack_ids("x");
    let names: Vec<String> =
        stack.display_order().into_iter().map(|i| stack.branches[i].name.clone()).collect();
    assert_eq!(names, vec!["x", "a", "root", "y", "b", "p", "q", "other"]);
    assert!(stack.before(3, 1));
    assert!(!stack.before(1, 3));
}

#[test]
fn test_cyclic_tracking_is_no_forest() {
    let git = Git::open("true", "x", "x\ny", "x 1111111 [y] one\ny 2222222 [x] two", "");
    assert!(Stack::build(&git).is_none());
    let own = Git::open("true", "x", "x", "x 1111111 [x] one", "");
    assert!(Stack::build(&own).is_none());
}

#[test]
fn test_empty_repository_is_an_empty_forest() {
    let stack = Stack::build(&Git::open("true", "", "", "", "")).unwrap();
    assert!(stack.branches.is_empty());
    assert!(stack.roots.is_empty());
    assert!(stack.display_order().is_empty());
    assert_eq!(stack.find("a"), None);
}

#[test]
fn test_pinned_marks_the_way_to_the_root() {
    let stack = Stack::build(&chain()).unwrap();
    assert_eq!(stack.pinned(Some(2)), vec![true, true, true, false]);
    assert_eq!(stack.pinned(None), vec![false, false, false, false]);
    assert_eq!(stack.pinned(Some(9)), vec![false, false, false, false]);
}

#[test]
fn test_side_stacks_found_later_have_lower_ids() {
    for current in ["x", "q", "other", "root", "nothing"] {
        let mut stack = Stack::build(&wide()).unwrap();
        stack.assign_stack_ids(current);
        let pinned = stack.pinned(stack.find(current));
        let order: Vec<usize> = gr::outline::parse_outline(&stack.outline())
            .iter()
            .map(|row| stack.find(&row.name).unwrap())
            .collect();
        assert_eq!(order.len(), stack.branches.len());
        let side: Vec<i64> = order
            .iter()
            .filter(|&&place| {
                let several = match stack.branches[place].local_parent {
                    Some(parent) => stack.branches[parent].children.len() > 1,
                    None => stack.roots.len() > 1,
                };
                several && !pinned[place]
            })
            .map(|&place| stack.branches[place].stack_id)
            .collect();
        assert!(side.len() >= 5);
        for pair in side.windows(2) {
            assert!(pair[0] < 0);
            assert!(pair[1] < pair[0]);
        }
    }
}
