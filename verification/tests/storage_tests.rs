use playground_ui::element::ElementGraph;
use playground_ui::internal_storage::{InternalElement, InternalElementStorage};
use playground_ui::command_processor::{process_ui_command, CommandReply, UiCommand};
use playground_ui::input::manager::InputManager;

type Storage = InternalElementStorage<&'static str, u8, (i32, i32)>;

#[test]
fn graph_add_and_move_child() {
    let mut g = ElementGraph::new();
    g.add_child(1, 2).unwrap();
    g.add_child(1, 3).unwrap();
    assert_eq!(g.get_children(1).unwrap(), &vec![2, 3]);
    assert_eq!(g.get_parent(2), Some(1));
    g.add_child(4, 2).unwrap();
    assert_eq!(g.get_children(1).unwrap(), &vec![3]);
    assert_eq!(g.get_children(4).unwrap(), &vec![2]);
    assert_eq!(g.get_parent(2), Some(4));
    g.remove_child(4, 2).unwrap();
    assert_eq!(g.get_parent(2), None);
    assert!(g.get_children(4).unwrap().is_empty());
}

#[test]
fn graph_remove_element_takes_the_subtree() {
    let mut g = ElementGraph::new();
    g.add_child(1, 2).unwrap();
    g.add_child(2, 3).unwrap();
    g.add_child(3, 4).unwrap();
    g.add_child(1, 5).unwrap();
    g.remove_element(2);
    assert_eq!(g.get_children(1).unwrap(), &vec![5]);
    assert_eq!(g.get_parent(2), None);
    assert_eq!(g.get_parent(3), None);
    assert_eq!(g.get_parent(4), None);
    assert!(g.get_children(2).is_none());
    assert!(g.get_children(3).is_none());
    assert_eq!(g.get_parent(5), Some(1));
}

#[test]
fn graph_depth_first_order() {
    let mut g = ElementGraph::new();
    g.add_child(1, 2).unwrap();
    g.add_child(1, 3).unwrap();
    g.add_child(2, 4).unwrap();
    let mut it = g.iter_depth_first(1);
    let mut order = Vec::new();
    while let Some(e) = it.next() {
        order.push(e);
    }
    assert_eq!(order, vec![1, 2, 4, 3]);
}

#[test]
fn element_children_without_duplicates() {
    let mut e: InternalElement<&str, u8, (i32, i32)> = InternalElement::new(1, "div", 0, 0, (0, 0));
    assert!(e.dirty && e.visible);
    e.dirty = false;
    e.add_child(5);
    e.add_child(5);
    assert_eq!(e.children, vec![5]);
    assert!(e.dirty);
    e.add_child(6);
    e.remove_child(5);
    assert_eq!(e.children, vec![6]);
    let e = e.with_parent(Some(9)).with_bounds((3, 4)).with_style(7, 2);
    assert_eq!(e.parent, Some(9));
    assert_eq!(e.bounds, (3, 4));
    assert_eq!((e.style, e.z_index), (7, 2));
}

#[test]
fn storage_first_element_is_root() {
    let mut s = Storage::new();
    let a = s.create_element("panel", 0, 0, (0, 0));
    let b = s.create_element("button", 0, 0, (0, 0));
    assert_ne!(a, b);
    assert_eq!(s.get_root(), Some(a));
    assert_eq!(s.get_dirty_elements(), vec![a, b]);
    assert_eq!(s.get_element(b).unwrap().element_type, "button");
    s.clear_dirty();
    assert!(s.get_dirty_elements().is_empty());
    assert!(!s.get_element(a).unwrap().dirty);
}

#[test]
fn storage_update_marks_dirty() {
    let mut s = Storage::new();
    let a = s.create_element("label", 0, 0, (0, 0));
    s.clear_dirty();
    assert!(s.update_element(a, |mut e| {
        e.text = Some("hi".to_string());
        e
    }));
    let e = s.get_element(a).unwrap();
    assert_eq!(e.text.as_deref(), Some("hi"));
    assert!(e.dirty);
    assert_eq!(s.get_dirty_elements(), vec![a]);
    assert!(!s.update_element(a + 1, |e| e));
}

#[test]
fn storage_remove_takes_children_and_unlinks() {
    let mut s = Storage::new();
    let root = s.create_element("root", 0, 0, (0, 0));
    let child = s.create_element("child", 0, 0, (0, 0));
    let grandchild = s.create_element("grandchild", 0, 0, (0, 0));
    let other = s.create_element("other", 0, 0, (0, 0));
    s.update_element(root, |mut e| {
        e.add_child(child);
        e.add_child(other);
        e
    });
    s.update_element(child, |mut e| {
        e.parent = Some(root);
        e.add_child(grandchild);
        e
    });
    s.update_z_order();
    assert_eq!(s.get_z_order().len(), 4);
    assert!(s.remove_element(child));
    assert!(s.get_element(child).is_none());
    assert!(s.get_element(grandchild).is_none());
    assert_eq!(s.get_element(root).unwrap().children, vec![other]);
    assert!(s.get_element(other).is_some());
    assert_eq!(s.get_z_order(), {
        let mut z = s.get_z_order();
        z.retain(|&x| x == root || x == other);
        z
    });
    assert_eq!(s.get_z_order().len(), 2);
    assert!(!s.remove_element(child));
    assert!(s.remove_element(root));
    assert_eq!(s.get_root(), None);
}

#[test]
fn storage_z_order_sorted() {
    let mut s = Storage::new();
    let a = s.create_element("a", 0, 5, (0, 0));
    let b = s.create_element("b", 0, -1, (0, 0));
    let c = s.create_element("c", 0, 3, (0, 0));
    s.update_z_order();
    assert_eq!(s.get_z_order(), vec![b, c, a]);
    s.set_root(Some(c));
    assert_eq!(s.get_root(), Some(c));
    s.clear();
    assert!(s.get_element(a).is_none());
    assert!(s.get_z_order().is_empty());
    assert_eq!(s.get_root(), None);
}

#[test]
fn commands_update_the_ui_state() {
    let mut s = Storage::new();
    let mut g = ElementGraph::new();
    let mut input = InputManager::new();
    let root = match process_ui_command(&mut s, &mut g, &mut input, UiCommand::CreateElement { element_type: "root", style: 0, z_index: 0, bounds: (0, 0), parent: None }) {
        Ok(CommandReply::Created(id)) => id,
        other => panic!("unexpected {:?}", other),
    };
    let child = match process_ui_command(&mut s, &mut g, &mut input, UiCommand::CreateElement { element_type: "child", style: 0, z_index: 0, bounds: (0, 0), parent: Some(root) }) {
        Ok(CommandReply::Created(id)) => id,
        other => panic!("unexpected {:?}", other),
    };
    assert_eq!(g.get_parent(child), Some(root));
    assert_eq!(process_ui_command(&mut s, &mut g, &mut input, UiCommand::UpdateStyle { id: child, style: 4, z_index: 9 }), Ok(CommandReply::Updated(child)));
    assert_eq!(s.get_element(child).unwrap().z_index, 9);
    assert_eq!(process_ui_command(&mut s, &mut g, &mut input, UiCommand::SetText { id: child, text: "hi".to_string() }), Ok(CommandReply::Updated(child)));
    assert_eq!(s.get_element(child).unwrap().text.as_deref(), Some("hi"));
    assert_eq!(process_ui_command(&mut s, &mut g, &mut input, UiCommand::SetVisible { id: child, visible: false }), Ok(CommandReply::Updated(child)));
    assert!(!s.get_element(child).unwrap().visible);
    assert_eq!(process_ui_command(&mut s, &mut g, &mut input, UiCommand::UpdateBounds { id: child, bounds: (3, 4) }), Ok(CommandReply::Updated(child)));
    assert_eq!(s.get_element(child).unwrap().bounds, (3, 4));
    assert_eq!(process_ui_command(&mut s, &mut g, &mut input, UiCommand::Focus { id: child }), Ok(CommandReply::Focused(child)));
    assert_eq!(input.get_focused_element(), Some(child));
    assert_eq!(process_ui_command(&mut s, &mut g, &mut input, UiCommand::Blur { id: child }), Ok(CommandReply::Blurred(child)));
    assert_eq!(input.get_focused_element(), None);
    assert_eq!(process_ui_command(&mut s, &mut g, &mut input, UiCommand::RemoveChild { parent: root, child }), Ok(CommandReply::ParentChild { parent: root, child }));
    assert_eq!(g.get_parent(child), None);
    assert_eq!(process_ui_command(&mut s, &mut g, &mut input, UiCommand::RemoveElement { id: child }), Ok(CommandReply::Removed(child)));
    assert_eq!(
        process_ui_command(&mut s, &mut g, &mut input, UiCommand::UpdateStyle { id: 0xa1a2a3a4b1b2c1c2d1d2d3d4d5d6d7d8, style: 1, z_index: 1 }),
        Err("Element a1a2a3a4-b1b2-c1c2-d1d2-d3d4d5d6d7d8 not found".to_string())
    );
    assert_eq!(process_ui_command(&mut s, &mut g, &mut input, UiCommand::Unsupported), Err("UI command not yet implemented".to_string()));
}
