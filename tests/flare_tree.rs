use lati_flare::flare::{FlareTree, NodeValue};

#[test]
fn can_build_tree() {
    let mut root = FlareTree::from_dir(String::from("root"));
    root.append_child(FlareTree::from_file(String::from("child")));

    assert_eq!(
        root,
        FlareTree {
            name: String::from("root"),
            value: NodeValue::Dir {
                children: vec![FlareTree {
                    name: String::from("child"),
                    value: NodeValue::File { data: vec![] },
                }]
            },
        }
    )
}

fn build_test_tree() -> FlareTree {
    let mut root = FlareTree::from_dir(String::from("root"));
    root.append_child(FlareTree::from_file(String::from("root_file_1.txt")));
    root.append_child(FlareTree::from_file(String::from("root_file_2.txt")));
    let mut child1 = FlareTree::from_dir(String::from("child1"));
    child1.append_child(FlareTree::from_file(String::from("child1_file_1.txt")));
    let mut grand_child = FlareTree::from_dir(String::from("grandchild"));
    grand_child.append_child(FlareTree::from_file(String::from("grandchild_file.txt")));
    child1.append_child(grand_child);
    child1.append_child(FlareTree::from_file(String::from("child1_file_2.txt")));
    let mut child2 = FlareTree::from_dir(String::from("child2"));
    child2.append_child(FlareTree::from_file(String::from("child2_file.txt")));
    root.append_child(child1);
    root.append_child(child2);
    root
}

#[test]
fn can_get_elements_from_tree() {
    let tree = build_test_tree();
    let grandchild = tree.get_in(&vec!["child1", "grandchild", "grandchild_file.txt"]);
    assert_eq!(
        grandchild.expect("Grandchild not found!").name(),
        "grandchild_file.txt"
    );
}

#[test]
fn cant_get_missing_elements_from_tree() {
    let tree = build_test_tree();
    let missing = tree.get_in(&vec!["child1", "grandchild", "nonesuch"]);
    assert_eq!(missing, None);
    let missing2 = tree.get_in(&vec!["child1", "grandchild", "grandchild_file.txt", "files have no kids"]);
    assert_eq!(missing2, None);
    let missing3 = tree.get_in(&vec![]);
    assert_eq!(missing3, None);
}

#[test]
fn can_get_mut_elements_from_tree() {
    let mut tree = build_test_tree();
    let grandchild = tree.get_in_mut(&vec!["child1", "grandchild", "grandchild_file.txt"]).expect("Grandchild not found!");
    assert_eq!(grandchild.name(), "grandchild_file.txt");
    grandchild.name = String::from("fish");
    let grandchild2 = tree.get_in_mut(&vec!["child1", "grandchild", "fish"]);
    assert_eq!(grandchild2.expect("fish not found!").name(), "fish");

    let grandchild_dir = tree.get_in_mut(&vec!["child1", "grandchild"]).expect("Grandchild dir not found!");
    assert_eq!(grandchild_dir.name(), "grandchild");
    grandchild_dir.append_child(FlareTree::from_file(String::from("new_kid_on_the_block.txt")));
    let new_kid = tree.get_in_mut(&vec!["child1", "grandchild", "new_kid_on_the_block.txt"]).expect("New kid not found!");
    assert_eq!(new_kid.name(), "new_kid_on_the_block.txt");
}

#[test]
fn get_mut_misses_like_get() {
    let mut tree = build_test_tree();
    assert!(tree.get_in_mut(&vec![]).is_none());
    assert!(tree.get_in_mut(&vec!["child1", "nonesuch"]).is_none());
    assert!(tree.get_in_mut(&vec!["root_file_1.txt", "below"]).is_none());
    assert_eq!(tree, build_test_tree());
}

#[test]
fn first_of_equal_sibling_names_is_found() {
    let mut root = FlareTree::from_dir(String::from("root"));
    root.append_child(FlareTree::from_dir(String::from("twin")));
    root.append_child(FlareTree::from_file(String::from("twin")));
    let found = root.get_in(&vec!["twin"]).unwrap();
    assert!(matches!(found.value, NodeValue::Dir { .. }));
}

#[test]
fn append_to_file_does_nothing() {
    let mut file = FlareTree::from_file(String::from("f.txt"));
    file.append_child(FlareTree::from_file(String::from("g.txt")));
    assert_eq!(file, FlareTree::from_file(String::from("f.txt")));
}

#[test]
fn attach_data_overwrites_same_key() {
    let mut file = FlareTree::from_file(String::from("f.txt"));
    file.attach_data(String::from("loc"), serde_json::Value::from(3));
    file.attach_data(String::from("other"), serde_json::Value::from("x"));
    file.attach_data(String::from("loc"), serde_json::Value::from(5));
    match &file.value {
        NodeValue::File { data } => {
            assert_eq!(data.len(), 2);
            assert_eq!(data[0], (String::from("loc"), serde_json::Value::from(5)));
            assert_eq!(data[1], (String::from("other"), serde_json::Value::from("x")));
        }
        NodeValue::Dir { .. } => panic!("not a file"),
    }
    let mut dir = FlareTree::from_dir(String::from("d"));
    dir.attach_data(String::from("loc"), serde_json::Value::from(1));
    assert_eq!(dir, FlareTree::from_dir(String::from("d")));
}
