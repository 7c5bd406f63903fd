use emma::buffer::{AbsChar, AbsLine, Buffer, BufferId};
use emma::pane_tree::{Internal, Node, Orientation, Pane, PaneId, PaneTree};

fn ids(tree: &PaneTree) -> Vec<String> {
    tree.panes().iter().map(|p| p.id().as_str().to_string()).collect()
}

fn active_id(tree: &PaneTree) -> String {
    tree.active().id().as_str().to_string()
}

#[test]
fn new_tree_has_one_active_pane() {
    let mut buf = Buffer::create_empty();
    let tree = PaneTree::new(&mut buf);
    let panes = tree.panes();
    assert_eq!(panes.len(), 1);
    assert!(panes[0].is_active());
    assert!(panes[0].show_info_bar());
    assert!(panes[0].is_cursor_visible());
    assert_eq!(panes[0].top_line(), AbsLine(0));
    assert!(panes[0].buffer_id().same(buf.id()));
    assert_eq!(buf.cursor(panes[0].id()), AbsChar(0));
    assert_eq!(tree.active_index(), 0);
}

#[test]
fn split_inserts_copy_after_active() {
    let mut buf = Buffer::create_empty();
    let mut tree = PaneTree::new(&mut buf);
    let first = active_id(&tree);
    tree.split(Orientation::Horizontal, &mut buf);
    let after_one = ids(&tree);
    assert_eq!(after_one.len(), 2);
    assert_eq!(after_one[0], first);
    // The active pane stays active; the copy is not.
    assert_eq!(active_id(&tree), first);
    assert!(!tree.panes()[1].is_active());
    assert!(tree.panes()[1].buffer_id().same(buf.id()));
    // The copy's cursor starts where the active pane's is.
    assert_eq!(buf.cursor(tree.panes()[1].id()), AbsChar(0));

    // A second split goes right after the active pane: [1, 3, 2].
    tree.split(Orientation::Horizontal, &mut buf);
    let after_two = ids(&tree);
    assert_eq!(after_two.len(), 3);
    assert_eq!(after_two[0], first);
    assert_eq!(after_two[2], after_one[1]);
    match tree.root() {
        Node::Internal(internal) => {
            assert_eq!(internal.orientation, Orientation::Horizontal);
            assert_eq!(internal.children.len(), 3);
        }
        Node::Leaf(_) => panic!("expected an internal node"),
    }

    // A vertical split of the active pane nests a new node.
    tree.split(Orientation::Vertical, &mut buf);
    assert_eq!(ids(&tree).len(), 4);
    match tree.root() {
        Node::Internal(internal) => {
            assert_eq!(internal.children.len(), 3);
            match &internal.children[0] {
                Node::Internal(inner) => {
                    assert_eq!(inner.orientation, Orientation::Vertical);
                    assert_eq!(inner.children.len(), 2);
                }
                Node::Leaf(_) => panic!("expected a nested node"),
            }
        }
        Node::Leaf(_) => panic!("expected an internal node"),
    }
    // Exactly one pane is active.
    assert_eq!(tree.panes().iter().filter(|p| p.is_active()).count(), 1);
}

#[test]
fn next_then_previous_restores_active() {
    let mut buf = Buffer::create_empty();
    let mut tree = PaneTree::new(&mut buf);
    tree.split(Orientation::Horizontal, &mut buf);
    tree.split(Orientation::Horizontal, &mut buf);
    let start = active_id(&tree);
    assert_eq!(tree.active_index(), 0);
    tree.make_next_pane_active();
    assert_eq!(tree.active_index(), 1);
    tree.make_previous_pane_active();
    assert_eq!(active_id(&tree), start);
    // Wrapping around both ways.
    tree.make_previous_pane_active();
    assert_eq!(tree.active_index(), 2);
    tree.make_next_pane_active();
    assert_eq!(tree.active_index(), 0);
    assert_eq!(tree.panes().iter().filter(|p| p.is_active()).count(), 1);
}

fn leaf(id: &str, active: bool) -> Node {
    Node::Leaf(Pane::from_parts(
        PaneId::from_string(id.to_string()),
        BufferId::from_string("buffer-x".to_string()),
        AbsLine(0),
        active,
        true,
        true,
    ))
}

#[test]
fn loading_keeps_one_active_pane() {
    let root = Node::Internal(Internal {
        orientation: Orientation::Vertical,
        children: vec![leaf("p1", false), leaf("p2", true), leaf("p3", true)],
    });
    let tree = PaneTree::from_root(root);
    let flags: Vec<bool> = tree.panes().iter().map(|p| p.is_active()).collect();
    assert_eq!(flags, vec![false, true, false]);

    let none_active = Node::Internal(Internal {
        orientation: Orientation::Horizontal,
        children: vec![leaf("p1", false), leaf("p2", false)],
    });
    let tree = PaneTree::from_root(none_active);
    let flags: Vec<bool> = tree.panes().iter().map(|p| p.is_active()).collect();
    assert_eq!(flags, vec![true, false]);
}

#[test]
fn set_pane_replaces_one_pane() {
    let mut buf = Buffer::create_empty();
    let mut tree = PaneTree::new(&mut buf);
    tree.split(Orientation::Vertical, &mut buf);
    let mut p = tree.panes()[1].clone();
    p.set_top_line(AbsLine(7));
    tree.set_pane(1, p);
    assert_eq!(tree.panes()[1].top_line(), AbsLine(7));
    assert_eq!(tree.panes()[0].top_line(), AbsLine(0));
}

#[test]
fn pane_for_widget() {
    let id = BufferId::from_string("buffer-minibuf".to_string());
    let pane = Pane::create_for_widget(id);
    assert!(pane.is_active());
    assert!(!pane.show_info_bar());
    assert!(pane.id().as_str().starts_with("pane-"));
    assert_eq!(pane.id().as_str().len(), 13);
}

/// The shape of a tree: leaves by their position in `names`, which maps
/// pane identifiers to small numbers in the order the panes were made.
#[derive(Debug, PartialEq)]
enum Shape {
    Leaf(usize, bool),
    Internal(Orientation, Vec<Shape>),
}

fn shape(node: &Node, names: &[String]) -> Shape {
    match node {
        Node::Leaf(p) => {
            let n = names.iter().position(|x| x == p.id().as_str()).unwrap() + 1;
            Shape::Leaf(n, p.is_active())
        }
        Node::Internal(i) => {
            Shape::Internal(i.orientation, i.children.iter().map(|c| shape(c, names)).collect())
        }
    }
}

#[allow(non_snake_case)]
fn I(o: Orientation, children: Vec<Shape>) -> Shape {
    Shape::Internal(o, children)
}

#[allow(non_snake_case)]
fn L(n: usize, active: bool) -> Shape {
    Shape::Leaf(n, active)
}

fn newest(tree: &PaneTree, names: &mut Vec<String>) {
    for id in ids(tree) {
        if !names.contains(&id) {
            names.push(id);
        }
    }
}

#[test]
fn test_tree() {
    let mut buf = Buffer::create_empty();
    let mut tree = PaneTree::new(&mut buf);
    let mut names = ids(&tree);

    // Horizontally split a node whose parent has no orientation.
    tree.split(Orientation::Horizontal, &mut buf);
    newest(&tree, &mut names);
    assert_eq!(
        shape(tree.root(), &names),
        I(Orientation::Horizontal, vec![L(1, true), L(2, false)])
    );

    // Horizontally split a node whose parent's orientation is already
    // horizontal. The "1" node is still active, so the new horizontal
    // layout is [1, 3, 2].
    tree.split(Orientation::Horizontal, &mut buf);
    newest(&tree, &mut names);
    assert_eq!(
        shape(tree.root(), &names),
        I(Orientation::Horizontal, vec![L(1, true), L(3, false), L(2, false)])
    );

    // Vertically split a node whose parent's orientation is horizontal:
    // the layout is [X, 3, 2], where X is a vertical layout of [1, 4].
    tree.split(Orientation::Vertical, &mut buf);
    newest(&tree, &mut names);
    assert_eq!(
        shape(tree.root(), &names),
        I(
            Orientation::Horizontal,
            vec![
                I(Orientation::Vertical, vec![L(1, true), L(4, false)]),
                L(3, false),
                L(2, false)
            ]
        )
    );

    // Split vertically again: X now holds [1, 5, 4].
    tree.split(Orientation::Vertical, &mut buf);
    newest(&tree, &mut names);
    assert_eq!(
        shape(tree.root(), &names),
        I(
            Orientation::Horizontal,
            vec![
                I(Orientation::Vertical, vec![L(1, true), L(5, false), L(4, false)]),
                L(3, false),
                L(2, false)
            ]
        )
    );
}
