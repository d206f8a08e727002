use rbx_ripper::naming::{base_folder_name, candidate_name, choose_folder_name, folder_name};
use rbx_ripper::node::{count_items, count_total, parse_class_list, should_exclude, ExtractionSettings, Property, SourceNode};
use rbx_ripper::plan::{plan_extraction, PlannedFolder};
use rbx_ripper::progress::{finished_label, progress_label};
use rbx_ripper::record::node_record;

fn prop(name: &str, text: &str) -> Property {
    Property { name: Some(name.to_string()), text: Some(text.to_string()) }
}

fn node(class: &str, props: Vec<Property>, children: Vec<SourceNode>) -> SourceNode {
    SourceNode { class: Some(class.to_string()), properties: Some(props), children }
}

fn settings(ws: bool, scripts: bool, classes: &str) -> ExtractionSettings {
    ExtractionSettings::new(ws, scripts, classes)
}

fn paths(plan: &[PlannedFolder]) -> Vec<Vec<String>> {
    plan.iter().map(|f| f.path.clone()).collect()
}

fn prop_value(f: &PlannedFolder, key: &str) -> Option<String> {
    f.record.properties.iter().find(|(k, _)| k == key).map(|(_, v)| v.clone())
}

fn script_doc() -> Vec<SourceNode> {
    vec![node("Script", vec![prop("Name", "Init"), prop("Source", "print(1)")], vec![])]
}

#[test]
fn single_script_node_is_extracted() {
    let nodes = script_doc();
    let s = settings(false, false, "");
    assert_eq!(count_total(&nodes, &s), 1);
    let plan = plan_extraction(&nodes, &s, &vec![]);
    assert_eq!(paths(&plan), vec![vec!["Init [Script]".to_string()]]);
    let f = &plan[0];
    assert_eq!(f.record.properties.len(), 2);
    assert_eq!(prop_value(f, "ClassName").as_deref(), Some("Script"));
    assert_eq!(prop_value(f, "Name").as_deref(), Some("Init"));
    assert_eq!(prop_value(f, "Source"), None);
    assert_eq!(f.record.script.as_deref(), Some("print(1)"));
}

#[test]
fn excluded_scripts_give_nothing() {
    let nodes = script_doc();
    let s = settings(false, true, "");
    let total = count_total(&nodes, &s);
    assert_eq!(total, 0);
    assert!(plan_extraction(&nodes, &s, &vec![]).is_empty());
    assert_eq!(finished_label(total), "0 objects");
}

#[test]
fn same_named_siblings_get_numbered() {
    let nodes = vec![
        node("Part", vec![prop("Name", "Part")], vec![]),
        node("Part", vec![prop("Name", "Part")], vec![]),
    ];
    let plan = plan_extraction(&nodes, &settings(false, false, ""), &vec![]);
    assert_eq!(paths(&plan), vec![vec!["Part".to_string()], vec!["Part (1)".to_string()]]);
}

#[test]
fn numbering_skips_names_in_use() {
    let nodes = vec![
        node("Part", vec![prop("Name", "Part")], vec![]),
        node("Part", vec![prop("Name", "Part (1)")], vec![]),
        node("Part", vec![prop("Name", "Part")], vec![]),
    ];
    let existing = vec!["Part".to_string()];
    let plan = plan_extraction(&nodes, &settings(false, false, ""), &existing);
    assert_eq!(
        paths(&plan),
        vec![
            vec!["Part (1)".to_string()],
            vec!["Part (1) [Part]".to_string()],
            vec!["Part (2)".to_string()],
        ]
    );
}

#[test]
fn children_are_planned_below_their_parent() {
    let child_a = node("Part", vec![prop("Name", "Door")], vec![]);
    let child_b = node("Part", vec![prop("Name", "Door")], vec![]);
    let model = node("Model", vec![prop("Name", "House")], vec![child_a, child_b]);
    let nodes = vec![model];
    let s = settings(false, false, "");
    let plan = plan_extraction(&nodes, &s, &vec![]);
    assert_eq!(
        paths(&plan),
        vec![
            vec!["House [Model]".to_string()],
            vec!["House [Model]".to_string(), "Door [Part]".to_string()],
            vec!["House [Model]".to_string(), "Door [Part] (1)".to_string()],
        ]
    );
    assert_eq!(count_total(&nodes, &s), plan.len());
}

#[test]
fn excluded_class_drops_whole_subtree() {
    let inner = node("Part", vec![prop("Name", "Wheel")], vec![]);
    let car = node("Model", vec![prop("Name", "Car")], vec![inner]);
    let other = node("Part", vec![prop("Name", "Rock")], vec![]);
    let nodes = vec![car, other];
    let s = settings(false, false, " MODEL , ,decal");
    assert_eq!(count_total(&nodes, &s), 1);
    let plan = plan_extraction(&nodes, &s, &vec![]);
    assert_eq!(paths(&plan), vec![vec!["Rock [Part]".to_string()]]);
}

#[test]
fn workspace_is_excluded_by_name() {
    let ws = node("Workspace", vec![prop("Name", "Workspace")], vec![node("Part", vec![], vec![])]);
    let s = settings(true, false, "");
    assert!(should_exclude(&ws, &s));
    assert_eq!(count_items(&ws, &s), 0);
    let kept = settings(false, false, "");
    assert!(!should_exclude(&ws, &kept));
    assert_eq!(count_items(&ws, &kept), 2);
}

#[test]
fn workspace_rule_needs_exact_name() {
    let ws = node("Workspace", vec![prop("Name", "workspace")], vec![]);
    assert!(!should_exclude(&ws, &settings(true, false, "")));
}

#[test]
fn all_script_classes_are_excluded() {
    let s = settings(false, true, "");
    for c in ["Script", "LocalScript", "ModuleScript"] {
        assert!(should_exclude(&node(c, vec![], vec![]), &s));
    }
    assert!(!should_exclude(&node("script", vec![], vec![]), &s));
}

#[test]
fn class_list_is_trimmed_and_lowercased() {
    assert_eq!(parse_class_list(" Part, MeshPart ,,Decal,"), vec!["part", "meshpart", "decal"]);
    assert!(parse_class_list("").is_empty());
    assert!(parse_class_list(" , ").is_empty());
}

#[test]
fn missing_class_reads_unknown() {
    let n = SourceNode { class: None, properties: None, children: vec![] };
    assert_eq!(n.class_name(), "Unknown");
    assert!(should_exclude(&n, &settings(false, false, "unknown")));
    let r = node_record(&n);
    assert_eq!(r.display_name, "Unknown");
    assert_eq!(r.properties, vec![("ClassName".to_string(), "Unknown".to_string())]);
    assert_eq!(r.script, None);
}

#[test]
fn record_keeps_last_values() {
    let props = vec![
        prop("Name", "First"),
        Property { name: Some("Name".to_string()), text: None },
        prop("Size", "1"),
        prop("Size", "2"),
        prop("Name", "Second"),
        Property { name: None, text: Some("x".to_string()) },
        Property { name: Some("Anchored".to_string()), text: None },
    ];
    let r = node_record(&node("Part", props, vec![]));
    assert_eq!(r.display_name, "Second");
    let mut got = r.properties.clone();
    got.sort();
    assert_eq!(
        got,
        vec![
            ("ClassName".to_string(), "Part".to_string()),
            ("Name".to_string(), "Second".to_string()),
            ("Size".to_string(), "2".to_string()),
            ("Unknown".to_string(), "x".to_string()),
        ]
    );
}

#[test]
fn script_text_is_kept_verbatim() {
    let body = "local x = 1\r\n\tprint(\"é\")  \n";
    let r = node_record(&node("ModuleScript", vec![prop("Source", body)], vec![]));
    assert_eq!(r.script.as_deref(), Some(body));
    assert!(r.properties.iter().all(|(k, _)| k != "Source"));
    let empty = node_record(&node("Script", vec![Property { name: Some("Source".to_string()), text: None }], vec![]));
    assert_eq!(empty.script, None);
}

#[test]
fn folder_names_follow_the_class_rule() {
    assert_eq!(folder_name("Part", "Part"), "Part");
    assert_eq!(folder_name("PART", "Part"), "PART");
    assert_eq!(folder_name("Door", "Part"), "Door [Part]");
    assert_eq!(candidate_name("Door", 0), "Door");
    assert_eq!(candidate_name("Door", 12), "Door (12)");
}

#[test]
fn display_names_are_sanitized() {
    let n = node("Part", vec![prop("Name", "a/b:c*")], vec![]);
    assert_eq!(base_folder_name(&n), "abc [Part]");
    let dots = node("Folder", vec![prop("Name", "..")], vec![]);
    assert_eq!(base_folder_name(&dots), " [Folder]");
}

#[test]
fn choose_takes_first_free_candidate() {
    let taken = vec!["A".to_string(), "A (1)".to_string(), "A (3)".to_string()];
    assert_eq!(choose_folder_name("A", &taken), "A (2)");
    assert_eq!(choose_folder_name("B", &taken), "B");
}

#[test]
fn progress_reports_every_twentieth_and_last() {
    assert_eq!(progress_label(20, 45).as_deref(), Some("20 / 45"));
    assert_eq!(progress_label(21, 45), None);
    assert_eq!(progress_label(45, 45).as_deref(), Some("45 / 45"));
    assert_eq!(progress_label(7, 7).as_deref(), Some("7 / 7"));
    assert_eq!(finished_label(1234), "1234 objects");
}

#[test]
fn empty_document_counts_zero() {
    let nodes: Vec<SourceNode> = vec![];
    let s = settings(false, false, "");
    assert_eq!(count_total(&nodes, &s), 0);
    assert!(plan_extraction(&nodes, &s, &vec![]).is_empty());
}

#[test]
fn class_list_with_blank_entry() {
    assert_eq!(parse_class_list(" Part, ,MeshPart ,"), vec!["part", "meshpart"]);
}

#[test]
fn three_same_named_siblings_are_numbered_in_order() {
    let part = || node("Part", vec![prop("Name", "Part")], vec![]);
    let nodes = vec![node("Model", vec![], vec![part(), part(), part()])];
    let plan = plan_extraction(&nodes, &settings(false, false, ""), &vec![]);
    let names: Vec<String> = plan.iter().skip(1).map(|f| f.path[1].clone()).collect();
    assert_eq!(names, vec!["Part", "Part (1)", "Part (2)"]);
    assert!(plan.iter().skip(1).all(|f| f.base == "Part"));
}

#[test]
fn decimal_digits() {
    assert_eq!(rbx_ripper::text::decimal(0), "0");
    assert_eq!(rbx_ripper::text::decimal(9), "9");
    assert_eq!(rbx_ripper::text::decimal(10), "10");
    assert_eq!(rbx_ripper::text::decimal(usize::MAX), usize::MAX.to_string());
}
