use bees::common::config::{Node, Point};
use bees::forward::api::forward_path_list;
use bees::forward::dijkstra::Dijkstra;
use bees::forward::path_map::PathMap;
use bees::forward::routes::{path_text_of, update_router_map};

fn leaf(name: &str, addr: &str) -> Node {
    Node { name: name.to_string(), addr: addr.to_string(), next: None }
}

fn tree() -> Node {
    let c = leaf("c", "10.0.0.3:80");
    let d = leaf("d", "10.0.0.4:80");
    let b = Node { name: "b".to_string(), addr: "10.0.0.2:80".to_string(), next: Some(vec![Some(c), None, Some(d)]) };
    Node { name: "a".to_string(), addr: "10.0.0.1:80".to_string(), next: Some(vec![Some(b)]) }
}

fn addrs(p: &Vec<Point>) -> Vec<String> {
    p.iter().map(|x| x.addr.clone()).collect()
}

#[test]
fn root_platform_records_paths_from_the_root() {
    let mut map = PathMap::new();
    let report = update_router_map("10.0.0.1:80", &Some(tree()), &mut map);
    assert_eq!(report.is_root, Some(true));
    assert_eq!(map.len(), 4);
    assert_eq!(addrs(map.get("10.0.0.1:80").unwrap()), vec!["10.0.0.1:80"]);
    assert_eq!(addrs(map.get("10.0.0.2:80").unwrap()), vec!["10.0.0.1:80", "10.0.0.2:80"]);
    assert_eq!(addrs(map.get("10.0.0.4:80").unwrap()), vec!["10.0.0.1:80", "10.0.0.2:80", "10.0.0.4:80"]);
    assert!(map.get("10.0.0.9:80").is_none());
    let names: Vec<String> = report.rows.iter().map(|r| r.name.clone()).collect();
    assert_eq!(names, vec!["a", "b", "c", "d"]);
    assert_eq!(report.rows[2].path, "10.0.0.1:80:a-> 10.0.0.2:80:b-> 10.0.0.3:80:c");
}

#[test]
fn lower_platform_records_paths_towards_the_root() {
    let mut map = PathMap::new();
    let report = update_router_map("10.0.0.3:80", &Some(tree()), &mut map);
    assert_eq!(report.is_root, Some(false));
    assert_eq!(addrs(map.get("10.0.0.3:80").unwrap()), vec!["10.0.0.3:80", "10.0.0.2:80", "10.0.0.1:80"]);
    assert_eq!(report.rows[0].path, "10.0.0.1:80:a");
    assert_eq!(report.rows[1].path, "10.0.0.2:80:b-> 10.0.0.1:80:a");
}

#[test]
fn no_tree_leaves_the_table_empty() {
    let mut map = PathMap::new();
    let report = update_router_map("10.0.0.1:80", &None, &mut map);
    assert_eq!(report.is_root, None);
    assert!(report.rows.is_empty());
    assert_eq!(map.len(), 0);
}

#[test]
fn repeated_address_keeps_the_last_path() {
    let dup = leaf("dup", "10.0.0.1:80");
    let root = Node { name: "a".to_string(), addr: "10.0.0.1:80".to_string(), next: Some(vec![Some(dup)]) };
    let mut map = PathMap::new();
    update_router_map("10.0.0.1:80", &Some(root), &mut map);
    assert_eq!(map.len(), 1);
    let p = map.get("10.0.0.1:80").unwrap();
    assert_eq!(p.len(), 2);
    assert_eq!(p[1].name, "dup");
}

#[test]
fn path_list_joins_addresses() {
    let mut map = PathMap::new();
    update_router_map("10.0.0.1:80", &Some(tree()), &mut map);
    let mut list = forward_path_list(&map);
    list.sort();
    assert_eq!(
        list,
        vec![
            "10.0.0.1:80",
            "10.0.0.1:80,10.0.0.2:80",
            "10.0.0.1:80,10.0.0.2:80,10.0.0.3:80",
            "10.0.0.1:80,10.0.0.2:80,10.0.0.4:80",
        ]
    );
}

#[test]
fn path_text_formats_items() {
    let p = vec![Point::new("x".to_string(), "h1".to_string()), Point::new("y".to_string(), "h2".to_string())];
    assert_eq!(path_text_of(&p), "h1:x-> h2:y");
    assert_eq!(path_text_of(&vec![]), "");
}

#[test]
fn map_insert_overwrites_and_get_reads_back() {
    let mut map = PathMap::new();
    map.insert("k".to_string(), vec![Point::new("n".to_string(), "a".to_string())]);
    map.insert("j".to_string(), vec![]);
    map.insert("k".to_string(), vec![]);
    assert_eq!(map.len(), 2);
    assert!(map.get("k").unwrap().is_empty());
}

#[test]
fn graph_links_parent_and_children_both_ways() {
    let mut d = Dijkstra::new(PathMap::new());
    d.create_graph(&tree());
    assert_eq!(d.graph.len(), 4);
    let names = |k: &str| -> Vec<String> { d.graph.get(k).unwrap().iter().map(|p| p.name.clone()).collect() };
    assert_eq!(names("a"), vec!["b"]);
    assert_eq!(names("b"), vec!["d", "c", "a"]);
    assert_eq!(names("c"), vec!["b"]);
    assert_eq!(names("d"), vec!["b"]);
    assert_eq!(d.graph.get("d").unwrap()[0].addr, "10.0.0.2:80");
}

#[test]
fn graph_of_two_children() {
    let root = Node { name: "A".to_string(), addr: "a".to_string(), next: Some(vec![Some(leaf("B", "b")), Some(leaf("C", "c"))]) };
    let mut d = Dijkstra::new(PathMap::new());
    d.create_graph(&root);
    let a = d.graph.get("A").unwrap();
    assert_eq!((a[0].name.as_str(), a[0].addr.as_str(), a[1].name.as_str(), a[1].addr.as_str()), ("C", "c", "B", "b"));
    assert_eq!(a.len(), 2);
    assert_eq!(d.graph.get("B").unwrap()[0].name, "A");
    assert_eq!(d.graph.get("C").unwrap()[0].addr, "a");
}

#[test]
fn update_graph_puts_new_neighbour_first() {
    let mut d = Dijkstra::new(PathMap::new());
    let x = leaf("x", "1");
    let y = leaf("y", "2");
    let z = leaf("z", "3");
    d.update_graph(&x, &y);
    d.update_graph(&x, &z);
    let v = d.graph.get("x").unwrap();
    assert_eq!(v.len(), 2);
    assert_eq!(v[0].name, "z");
    assert_eq!(v[1].name, "y");
    assert!(d.graph.get("y").is_none());
}
