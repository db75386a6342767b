use hirola::cell::ReactiveCell;
use hirola::effect::NodeRegistry;
use hirola::mixins::{raw_text, text, Identity, Mixin};

#[test]
fn unmount_disposes_last_registered_first() {
    let mut nodes = NodeRegistry::new();
    let other = nodes.create_node();
    let node = nodes.create_node();
    let e0 = nodes.spawn(node, 0);
    let x = nodes.spawn(other, 0);
    let e1 = nodes.spawn(node, 1);
    let e2 = nodes.spawn(node, 2);
    assert_eq!(nodes.unmount(node), vec![e2, e1, e0]);
    assert!(nodes.disposed(e0) && nodes.disposed(e1) && nodes.disposed(e2));
    assert!(!nodes.disposed(x));
    assert!(!nodes.mounted(node));
    assert!(nodes.mounted(other));
    assert_eq!(nodes.unmount(node), Vec::<usize>::new());
}

#[test]
fn dispose_is_idempotent_and_leaves_the_list() {
    let mut nodes = NodeRegistry::new();
    let node = nodes.create_node();
    let e0 = nodes.spawn(node, 0);
    let e1 = nodes.spawn(node, 0);
    let e2 = nodes.spawn(node, 0);
    nodes.dispose(e1);
    nodes.dispose(e1);
    assert!(nodes.disposed(e1));
    assert_eq!(nodes.unmount(node), vec![e2, e0]);
}

#[test]
fn disposed_effect_gets_no_value() {
    let mut cell = ReactiveCell::new(0u32);
    let sub = cell.subscribe();
    let mut nodes = NodeRegistry::new();
    let node = nodes.create_node();
    let e = nodes.spawn(node, sub);
    cell.set(7);
    cell.set(8);
    assert_eq!(nodes.poll(e, &mut cell), Some(7));
    nodes.dispose(e);
    assert_eq!(nodes.poll(e, &mut cell), None);
    assert_eq!(cell.take(sub), Some(8));
}

#[test]
fn raw_text_sets_node_text() {
    let mut nodes = NodeRegistry::new();
    let a = nodes.create_node();
    let b = nodes.create_node();
    let m = raw_text("Hello Counter!");
    Mixin::<Identity>::mixin(&m, &mut nodes, b);
    assert_eq!(nodes.text(b).as_str(), "Hello Counter!");
    assert_eq!(nodes.text(a).as_str(), "");
}

#[test]
fn test() {
    let world = "planet";
    let mut nodes = NodeRegistry::new();
    let p = nodes.create_node();
    raw_text(world).apply(&mut nodes, p);
    assert_eq!(nodes.text(p).as_str(), "planet");
}

#[test]
fn text_binding_follows_the_cell_until_unmount() {
    let mut cell = ReactiveCell::new(String::from("0"));
    let sub = cell.subscribe();
    let mut nodes = NodeRegistry::new();
    let node = nodes.create_node();
    let e = text(sub).bind(&mut nodes, node);
    assert!(!nodes.update_text(e, &mut cell));
    cell.set(String::from("1"));
    cell.set(String::from("2"));
    assert!(nodes.update_text(e, &mut cell));
    assert_eq!(nodes.text(node).as_str(), "1");
    assert!(nodes.update_text(e, &mut cell));
    assert_eq!(nodes.text(node).as_str(), "2");
    cell.set(String::from("3"));
    assert_eq!(nodes.unmount(node), vec![e]);
    assert!(!nodes.update_text(e, &mut cell));
    assert_eq!(nodes.text(node).as_str(), "2");
}

#[test]
fn text_mixin_registers_an_effect() {
    let mut nodes = NodeRegistry::new();
    let node = nodes.create_node();
    Mixin::<Identity>::mixin(&text(0), &mut nodes, node);
    assert_eq!(nodes.unmount(node), vec![0]);
}
