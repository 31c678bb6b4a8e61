use lati_flare::calculators::{named_toxicity_indicator_calculator, named_toxicity_indicator_calculators, Calculator, LocCalculator, ConstantCalculator, CountingCalculator, FileNameCalculator, NullCalculator};
use lati_flare::flare::{FlareTree, NodeValue};
use lati_flare::walker::{build_tree, walk_entries, EntryKind, ToxicityIndicatorCalculator, WalkEntry, WalkError};
use serde_json::Value;

fn entry(relative: &[&str], kind: EntryKind) -> WalkEntry {
    WalkEntry {
        path: format!("root/{}", relative.join("/")),
        relative: relative.iter().map(|s| s.to_string()).collect(),
        kind,
    }
}

fn simple_entries() -> Vec<WalkEntry> {
    vec![
        entry(&["a.txt"], EntryKind::File),
        entry(&["b.txt"], EntryKind::File),
        entry(&["sub"], EntryKind::Dir),
        entry(&["sub", "c.txt"], EntryKind::File),
    ]
}

fn to_json(t: &FlareTree) -> Value {
    let mut m = serde_json::Map::new();
    m.insert(String::from("name"), Value::from(t.name.clone()));
    match &t.value {
        NodeValue::Dir { children } => {
            m.insert(String::from("children"), Value::Array(children.iter().map(to_json).collect()));
        }
        NodeValue::File { data } => {
            let mut d = serde_json::Map::new();
            for (k, v) in data {
                d.insert(k.clone(), v.clone());
            }
            m.insert(String::from("data"), Value::Object(d));
        }
    }
    Value::Object(m)
}

fn parse(text: &str) -> Value {
    serde_json::from_str(text).unwrap()
}

#[test]
fn scanning_without_calculators_mirrors_entries() {
    let mut none: Vec<ConstantCalculator> = Vec::new();
    let tree = walk_entries(&simple_entries(), &mut none).unwrap();
    assert_eq!(
        to_json(&tree),
        parse(r#"{"name":"flare","children":[
            {"name":"a.txt","data":{}},
            {"name":"b.txt","data":{}},
            {"name":"sub","children":[{"name":"c.txt","data":{}}]}]}"#)
    );
}

#[test]
fn constant_calculator_marks_every_file() {
    let mut calcs = vec![ConstantCalculator::new(String::from("foo"), Value::from("bar"))];
    let tree = walk_entries(&simple_entries(), &mut calcs).unwrap();
    assert_eq!(
        to_json(&tree),
        parse(r#"{"name":"flare","children":[
            {"name":"a.txt","data":{"foo":"bar"}},
            {"name":"b.txt","data":{"foo":"bar"}},
            {"name":"sub","children":[{"name":"c.txt","data":{"foo":"bar"}}]}]}"#)
    );
}

#[test]
fn two_calculators_both_store_their_values() {
    let mut calcs = vec![
        Calculator::Constant(ConstantCalculator::new(String::from("foo"), Value::from("bar"))),
        Calculator::FileName(FileNameCalculator::new()),
    ];
    let tree = walk_entries(&simple_entries(), &mut calcs).unwrap();
    let file = tree.get_in(&["sub", "c.txt"]).unwrap();
    assert_eq!(
        to_json(file),
        parse(r#"{"name":"c.txt","data":{"foo":"bar","filename":"root/sub/c.txt"}}"#)
    );
    let mut reversed = vec![
        Calculator::FileName(FileNameCalculator::new()),
        Calculator::Constant(ConstantCalculator::new(String::from("foo"), Value::from("bar"))),
    ];
    let tree2 = walk_entries(&simple_entries(), &mut reversed).unwrap();
    assert_eq!(to_json(&tree), to_json(&tree2));
}

#[test]
fn failing_calculator_leaves_its_key_out() {
    let mut calcs = vec![
        Calculator::Null(NullCalculator::new(String::from("broken"))),
        Calculator::Constant(ConstantCalculator::new(String::from("foo"), Value::from("bar"))),
    ];
    let tree = walk_entries(&simple_entries(), &mut calcs).unwrap();
    assert_eq!(
        to_json(&tree),
        parse(r#"{"name":"flare","children":[
            {"name":"a.txt","data":{"foo":"bar"}},
            {"name":"b.txt","data":{"foo":"bar"}},
            {"name":"sub","children":[{"name":"c.txt","data":{"foo":"bar"}}]}]}"#)
    );
}

#[test]
fn counting_calculator_numbers_files_in_order() {
    let mut calcs = vec![CountingCalculator::new(String::from("file count"), 0)];
    let tree = walk_entries(&simple_entries(), &mut calcs).unwrap();
    assert_eq!(
        to_json(&tree),
        parse(r#"{"name":"flare","children":[
            {"name":"a.txt","data":{"file count":0}},
            {"name":"b.txt","data":{"file count":1}},
            {"name":"sub","children":[{"name":"c.txt","data":{"file count":2}}]}]}"#)
    );
    assert_eq!(calcs[0].current(), 3);
}

#[test]
fn counting_calculator_fails_at_the_top() {
    let mut calc = CountingCalculator::new(String::from("n"), u64::MAX);
    assert!(calc.calculate("x").is_err());
    assert_eq!(calc.current(), u64::MAX);
}

#[test]
fn output_document_survives_a_round_trip() {
    let mut calcs = vec![CountingCalculator::new(String::from("file count"), 0)];
    let tree = walk_entries(&simple_entries(), &mut calcs).unwrap();
    let doc = to_json(&tree);
    let text = serde_json::to_string_pretty(&doc).unwrap();
    let back: Value = serde_json::from_str(&text).unwrap();
    assert_eq!(back, doc);
}

#[test]
fn build_tree_merges_results_in_order() {
    let results = vec![
        vec![
            (String::from("foo"), Some(Value::from("bar"))),
            (String::from("gone"), None),
            (String::from("foo"), Some(Value::from("baz"))),
        ],
        vec![],
    ];
    let entries = vec![entry(&["x.txt"], EntryKind::File), entry(&["d"], EntryKind::Dir)];
    let tree = build_tree(&entries, results).unwrap();
    assert_eq!(
        to_json(&tree),
        parse(r#"{"name":"flare","children":[{"name":"x.txt","data":{"foo":"baz"}},{"name":"d","children":[]}]}"#)
    );
}

#[test]
fn other_entries_are_skipped() {
    let entries = vec![
        entry(&["pipe"], EntryKind::Other),
        entry(&["a.txt"], EntryKind::File),
    ];
    let mut none: Vec<ConstantCalculator> = Vec::new();
    let tree = walk_entries(&entries, &mut none).unwrap();
    assert_eq!(to_json(&tree), parse(r#"{"name":"flare","children":[{"name":"a.txt","data":{}}]}"#));
}

#[test]
fn missing_parent_is_an_error() {
    let entries = vec![entry(&["nodir", "a.txt"], EntryKind::File)];
    let mut none: Vec<ConstantCalculator> = Vec::new();
    assert_eq!(walk_entries(&entries, &mut none), Err(WalkError::MissingParent));
}

#[test]
fn empty_relative_path_is_an_error() {
    let entries = vec![entry(&[], EntryKind::Dir)];
    let mut none: Vec<ConstantCalculator> = Vec::new();
    assert_eq!(walk_entries(&entries, &mut none), Err(WalkError::EmptyPath));
}

#[test]
fn child_of_a_file_is_dropped() {
    let entries = vec![entry(&["a.txt"], EntryKind::File), entry(&["a.txt", "b"], EntryKind::File)];
    let mut none: Vec<ConstantCalculator> = Vec::new();
    let tree = walk_entries(&entries, &mut none).unwrap();
    assert_eq!(to_json(&tree), parse(r#"{"name":"flare","children":[{"name":"a.txt","data":{}}]}"#));
}

#[test]
fn registry_knows_only_loc() {
    match named_toxicity_indicator_calculator("loc") {
        Some(Calculator::Loc(c)) => assert_eq!(c.name(), "loc"),
        _ => panic!("loc calculator not found"),
    }
    assert!(named_toxicity_indicator_calculator("LOC").is_none());
    assert!(named_toxicity_indicator_calculator("").is_none());
    assert!(named_toxicity_indicator_calculator("filename").is_none());
    assert!(named_toxicity_indicator_calculator("nonesuch").is_none());
}

#[test]
fn calculator_names_resolve_all_or_nothing() {
    let names = vec![String::from("loc"), String::from("loc")];
    assert_eq!(named_toxicity_indicator_calculators(&names).map(|cs| cs.len()), Some(2));
    let bad = vec![String::from("loc"), String::from("nonesuch")];
    assert!(named_toxicity_indicator_calculators(&bad).is_none());
    assert_eq!(named_toxicity_indicator_calculators(&vec![]).map(|cs| cs.len()), Some(0));
}

#[test]
fn loc_calculator_fails_on_a_missing_file() {
    let mut c = LocCalculator::new();
    assert!(c.calculate("no/such/file.rs").is_err());
}

#[test]
fn walk_stops_calling_calculators_at_a_fatal_error() {
    let entries = vec![
        entry(&["x.txt"], EntryKind::File),
        entry(&["nodir", "a.txt"], EntryKind::File),
        entry(&["b.txt"], EntryKind::File),
    ];
    let mut calcs = vec![CountingCalculator::new(String::from("n"), 0)];
    assert_eq!(walk_entries(&entries, &mut calcs), Err(WalkError::MissingParent));
    assert_eq!(calcs[0].current(), 2);
}

#[test]
fn file_name_calculator_returns_the_path() {
    let mut c = FileNameCalculator::new();
    assert_eq!(c.calculate("some/where.rs"), Ok(Value::from("some/where.rs")));
    assert_eq!(c.name(), "filename");
}
