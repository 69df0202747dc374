use jl_ui::outline::{asset_sources, find_class_path, find_class_paths, find_id_path, Outline};

fn node(id: &str, class_name: &str, children: Vec<Outline>) -> Outline {
    Outline {
        id: id.to_string(),
        class_name: class_name.to_string(),
        texture: String::new(),
        animation: String::new(),
        children,
    }
}

fn asset(texture: &str, animation: &str, children: Vec<Outline>) -> Outline {
    Outline {
        id: String::new(),
        class_name: String::new(),
        texture: texture.to_string(),
        animation: animation.to_string(),
        children,
    }
}

fn sample() -> Vec<Outline> {
    vec![
        node("root", "panel", vec![
            node("title", "label big", vec![]),
            node("row", "panel", vec![node("ok", "button", vec![]), node("cancel", "button big", vec![])]),
        ]),
        node("footer", "button", vec![]),
    ]
}

#[test]
fn id_path_finds_nested_component() {
    assert_eq!(find_id_path(&sample(), "cancel"), Some(vec![0, 1, 1]));
    assert_eq!(find_id_path(&sample(), "root"), Some(vec![0]));
    assert_eq!(find_id_path(&sample(), "footer"), Some(vec![1]));
}

#[test]
fn id_path_missing_is_none() {
    assert_eq!(find_id_path(&sample(), "nope"), None);
    assert_eq!(find_id_path(&Vec::new(), "root"), None);
}

#[test]
fn id_path_prefers_document_order() {
    let tree = vec![node("a", "", vec![node("x", "", vec![])]), node("x", "", vec![])];
    assert_eq!(find_id_path(&tree, "x"), Some(vec![0, 0]));
}

#[test]
fn class_path_first_match() {
    assert_eq!(find_class_path(&sample(), "big"), Some(vec![0, 0]));
    assert_eq!(find_class_path(&sample(), "button"), Some(vec![0, 1, 0]));
    assert_eq!(find_class_path(&sample(), "bi"), None);
    assert_eq!(find_class_path(&sample(), ""), None);
}

#[test]
fn class_paths_all_in_document_order() {
    assert_eq!(find_class_paths(&sample(), "button"), vec![vec![0, 1, 0], vec![0, 1, 1], vec![1]]);
    assert_eq!(find_class_paths(&sample(), "panel"), vec![vec![0], vec![0, 1]]);
    assert_eq!(find_class_paths(&sample(), "missing"), Vec::<Vec<usize>>::new());
}

#[test]
fn asset_sources_in_document_order() {
    let tree = vec![
        asset("", "", vec![asset("a.png", "", vec![]), asset("", "walk", vec![asset("b.png", "", vec![])])]),
        asset("", "run", vec![]),
        asset("", "", vec![]),
    ];
    assert_eq!(asset_sources(&tree, false), vec!["a.png".to_string(), "b.png".to_string()]);
    assert_eq!(asset_sources(&tree, true), vec!["walk".to_string(), "run".to_string()]);
    assert_eq!(asset_sources(&Vec::new(), true), Vec::<String>::new());
}
