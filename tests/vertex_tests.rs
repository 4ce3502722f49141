use vertex_graph::vertex::Inner;
use vertex_graph::Vertex;

fn ids_of<T>(v: &Vertex<T>) -> Vec<String> {
    let mut edges = v.edges();
    let mut out = Vec::new();
    while let Some(n) = edges.next() {
        out.push(n.id().to_hex());
    }
    out.sort();
    out
}

#[test]
fn connect_is_directed() {
    let a = Vertex::new(1);
    let b = Vertex::new(2);
    let before = b.connects_to(&a);
    a.connect(&b);
    assert!(a.connects_to(&b));
    assert_eq!(b.connects_to(&a), before);
    assert!(!b.connects_to(&a));
    assert!(b.connected_from(&a));
    assert!(!a.connected_from(&b));
}

#[test]
fn link_connects_both_ways() {
    let a = Vertex::new("a");
    let b = Vertex::new("b");
    a.link(&b);
    assert!(a.connects_to(&b));
    assert!(b.connects_to(&a));
}

#[test]
fn connect_twice_keeps_one_entry() {
    let a = Vertex::new(1);
    let b = Vertex::new(2);
    a.connect(&b);
    a.connect(&b);
    assert_eq!(a.edges().count(), 1);
    assert!(a.connects_to(&b));
}

#[test]
fn edges_yield_each_neighbor_once() {
    let v = Vertex::new(0);
    let x = Vertex::new(1);
    let y = Vertex::new(2);
    let z = Vertex::new(3);
    v.connect(&x);
    v.connect(&y);
    v.connect(&z);
    let mut expected = vec![x.id().to_hex(), y.id().to_hex(), z.id().to_hex()];
    expected.sort();
    assert_eq!(ids_of(&v), expected);
    let mut values = Vec::new();
    let mut edges = v.edges();
    while let Some(n) = edges.next() {
        values.push(n.copy_inner());
    }
    values.sort();
    assert_eq!(values, vec![1, 2, 3]);
}

#[test]
fn edges_of_a_new_vertex_are_empty() {
    let v = Vertex::new(5u8);
    let mut edges = v.edges();
    assert!(edges.next().is_none());
    assert_eq!(v.edges().count(), 0);
}

#[test]
fn alice_and_bob() {
    let a = Vertex::new("alice");
    let b = Vertex::new("bob");
    a.connect(&b);
    assert_eq!(a.edges().count(), 1);
    assert_eq!(b.edges().count(), 0);
    assert!(a.connects_to(&b));
    assert!(!b.connects_to(&a));
}

#[test]
fn link_then_connect_counts() {
    let a = Vertex::new("a");
    let b = Vertex::new("b");
    let c = Vertex::new("c");
    a.link(&b);
    b.connect(&c);
    assert_eq!(a.edges().count(), 1);
    assert_eq!(b.edges().count(), 2);
    assert_eq!(c.edges().count(), 0);
}

#[test]
fn values_are_read_back() {
    let v = Vertex::new(42u32);
    assert_eq!(v.copy_inner(), 42);
    let s = Vertex::new(String::from("sigrid"));
    assert_eq!(s.clone_inner(), "sigrid");
}

#[test]
fn clones_share_the_vertex() {
    let a = Vertex::new(1);
    let a2 = a.clone();
    let b = Vertex::new(2);
    a2.connect(&b);
    assert!(a.connects_to(&b));
    assert!(a.id() == a2.id());
}

#[test]
fn ids_are_stable() {
    let a = Vertex::new(1);
    let first = a.id();
    a.connect(&Vertex::new(2));
    assert!(a.id() == first);
}

#[test]
fn a_neighbor_outlives_its_handle() {
    let a = Vertex::new(1);
    let b = Vertex::new(2);
    let b_id = b.id();
    a.connect(&b);
    drop(b);
    let mut edges = a.edges();
    let n = edges.next().unwrap();
    assert!(n.id() == b_id);
    assert_eq!(n.copy_inner(), 2);
}

#[test]
fn inner_record_starts_empty() {
    let inner = Inner::new(7);
    assert!(inner.neighbors().is_empty());
    let other = Vertex::new(8);
    assert!(!inner.connects_to_id(&other.id()));
}

#[test]
fn inner_record_inserts_edges() {
    let mut inner = Inner::new(7);
    let other = Vertex::new(8);
    inner.insert_edge(other.id(), other.clone());
    inner.insert_edge(other.id(), other.clone());
    assert!(inner.connects_to_id(&other.id()));
    assert!(!inner.connects_to_id(&inner.id()));
    let ns = inner.neighbors();
    assert_eq!(ns.len(), 1);
    assert!(ns[0].id() == other.id());
}
