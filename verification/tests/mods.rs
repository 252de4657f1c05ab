use prune::mods::table::dependency_table;
use prune::mods::{ContentLibrary, DependencyError, ModGraph, ModLibrary, ModManifest};

fn manifest(name: &str, deps: &[&str]) -> ModManifest {
    ModManifest {
        name: name.to_string(),
        version: Some("0.1.0".to_string()),
        dependencies: deps
            .iter()
            .map(|d| (d.to_string(), "0.1.0".to_string()))
            .collect(),
        mod_library: Some(ModLibrary {
            wasm: ".build/runtime.wasm".to_string(),
        }),
        content_library: None,
    }
}

#[test]
fn dependency_order_includes_dependencies_before_active_mod() {
    let mut graph = ModGraph::new();
    graph.insert(manifest("undertale_preset", &[]));
    graph.insert(manifest("mad_dummy_example", &["undertale_preset"]));

    let order = graph.dependency_order("mad_dummy_example").expect("order");

    assert_eq!(order, vec!["undertale_preset", "mad_dummy_example"]);
}

#[test]
fn dependency_order_visits_each_mod_once_depth_first() {
    let mut graph = ModGraph::new();
    graph.insert(manifest("top", &["left", "right"]));
    graph.insert(manifest("left", &["base"]));
    graph.insert(manifest("right", &["base"]));
    graph.insert(manifest("base", &[]));
    graph.insert(manifest("unrelated", &[]));

    let order = graph.dependency_order("top").expect("order");
    assert_eq!(order, vec!["base", "left", "right", "top"]);
    assert_eq!(graph.dependency_order("base").unwrap(), vec!["base"]);
}

#[test]
fn dependency_order_reports_cycles_and_unknown_mods() {
    let mut graph = ModGraph::new();
    graph.insert(manifest("a", &["b"]));
    graph.insert(manifest("b", &["a"]));
    graph.insert(manifest("c", &["missing"]));
    graph.insert(manifest("d", &["d"]));

    let cyclic = graph.dependency_order("a").unwrap_err();
    assert_eq!(cyclic, DependencyError::Cyclic("a".to_string()));
    assert_eq!(cyclic.message(), "cyclic mod dependency involving a");

    let unknown = graph.dependency_order("c").unwrap_err();
    assert_eq!(unknown, DependencyError::Unknown("missing".to_string()));
    assert_eq!(unknown.message(), "unknown mod dependency missing");

    assert_eq!(
        graph.dependency_order("d").unwrap_err(),
        DependencyError::Cyclic("d".to_string())
    );
    assert_eq!(
        graph.dependency_order("zzz").unwrap_err(),
        DependencyError::Unknown("zzz".to_string())
    );
}

#[test]
fn graph_keeps_one_manifest_per_name_in_name_order() {
    let mut graph = ModGraph::new();
    graph.insert(manifest("b", &[]));
    graph.insert(manifest("a", &[]));
    graph.insert(manifest("c", &[]));
    let mut replacement = manifest("b", &["a"]);
    replacement.content_library = Some(ContentLibrary {
        wasm: "content.wasm".to_string(),
    });
    graph.insert(replacement.clone());

    let names: Vec<_> = graph.manifests().iter().map(|m| m.name.as_str()).collect();
    assert_eq!(names, vec!["a", "b", "c"]);
    assert_eq!(graph.get("b"), Some(&replacement));
    assert_eq!(graph.get("x"), None);
}

#[test]
fn graph_orders_names_as_strings_do() {
    let mut graph = ModGraph::new();
    let names = ["beta", "Alpha", "alpha", "alp", "ä", "z", "a-b", ""];
    for name in names {
        graph.insert(manifest(name, &[]));
    }
    let mut sorted: Vec<_> = names.iter().map(|s| s.to_string()).collect();
    sorted.sort();
    let listed: Vec<_> = graph.manifests().iter().map(|m| m.name.clone()).collect();
    assert_eq!(listed, sorted);
}

fn pairs(items: &[(&str, &str)]) -> Vec<(String, String)> {
    items.iter().map(|(n, v)| (n.to_string(), v.to_string())).collect()
}

#[test]
fn dependency_table_sorts_names_and_keeps_the_later_pair() {
    let table = dependency_table(&pairs(&[
        ("right", "1"),
        ("left", "1"),
        ("base", "1"),
        ("left", "2"),
    ]));
    assert_eq!(table, pairs(&[("base", "1"), ("left", "2"), ("right", "1")]));
    assert_eq!(dependency_table(&Vec::new()), Vec::new());
    assert_eq!(
        dependency_table(&pairs(&[("b", "1"), ("a", "1"), ("B", "1")])),
        pairs(&[("B", "1"), ("a", "1"), ("b", "1")])
    );
}

#[test]
fn graph_records_dependencies_in_name_order() {
    let mut graph = ModGraph::new();
    let mut top = manifest("top", &["right", "left", "right"]);
    top.dependencies[2].1 = "2.0.0".to_string();
    graph.insert(top);
    graph.insert(manifest("left", &["base"]));
    graph.insert(manifest("right", &["base"]));
    graph.insert(manifest("base", &[]));

    let stored = graph.get("top").expect("top");
    assert_eq!(
        stored.dependencies,
        pairs(&[("left", "0.1.0"), ("right", "2.0.0")])
    );
    assert_eq!(stored.version.as_deref(), Some("0.1.0"));
    assert_eq!(
        graph.dependency_order("top").unwrap(),
        vec!["base", "left", "right", "top"]
    );
}
