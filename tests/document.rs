use rbx_ripper::node::{count_total, ExtractionSettings};
use rbx_ripper::plan::plan_extraction;
use rbx_ripper::xml::{build_tree, load_document, LoadError, XmlNode};

const PLACE: &str = r#"<roblox version="4">
  <Item class="Workspace" referent="RBX0">
    <Properties>
      <string name="Name">Workspace</string>
      <bool name="Archivable">true</bool>
    </Properties>
    <Item class="Part" referent="RBX1">
      <Properties><string name="Name">Part</string></Properties>
    </Item>
    <Item class="Part" referent="RBX2">
      <Properties><string name="Name">Part</string></Properties>
    </Item>
  </Item>
  <Item class="Script" referent="RBX3">
    <Properties>
      <string name="Name">Init</string>
      <ProtectedString name="Source">print(1)</ProtectedString>
    </Properties>
  </Item>
</roblox>"#;

fn element(tag: &str, class: Option<&str>, children: Vec<usize>) -> XmlNode {
    XmlNode {
        tag: tag.to_string(),
        is_element: true,
        class: class.map(|s| s.to_string()),
        name: None,
        text: None,
        children,
    }
}

#[test]
fn place_document_loads() {
    let items = load_document(PLACE).ok().unwrap();
    assert_eq!(items.len(), 2);
    assert_eq!(items[0].class.as_deref(), Some("Workspace"));
    assert_eq!(items[0].children.len(), 2);
    let props = items[1].properties.as_ref().unwrap();
    assert_eq!(props.len(), 2);
    assert_eq!(props[1].name.as_deref(), Some("Source"));
    assert_eq!(props[1].text.as_deref(), Some("print(1)"));
}

#[test]
fn place_document_plans_folders() {
    let items = load_document(PLACE).ok().unwrap();
    let s = ExtractionSettings::new(false, false, "");
    let plan = plan_extraction(&items, &s, &vec![]);
    let paths: Vec<Vec<String>> = plan.iter().map(|f| f.path.clone()).collect();
    assert_eq!(
        paths,
        vec![
            vec!["Workspace".to_string()],
            vec!["Workspace".to_string(), "Part".to_string()],
            vec!["Workspace".to_string(), "Part (1)".to_string()],
            vec!["Init [Script]".to_string()],
        ]
    );
    assert_eq!(count_total(&items, &s), 4);
    let ws = ExtractionSettings::new(true, false, "");
    assert_eq!(count_total(&items, &ws), 1);
    assert_eq!(plan_extraction(&items, &ws, &vec![]).len(), 1);
}

#[test]
fn broken_markup_is_a_syntax_error() {
    assert!(matches!(load_document("<roblox><Item></roblox>"), Err(LoadError::Syntax)));
    assert!(matches!(load_document(""), Err(LoadError::Syntax)));
}

#[test]
fn document_without_items_is_empty() {
    let items = load_document("<roblox version=\"4\"><Meta name=\"x\">y</Meta></roblox>").ok().unwrap();
    assert!(items.is_empty());
}

#[test]
fn tree_is_built_from_positions() {
    let nodes = vec![
        element("", None, vec![1]),
        element("roblox", None, vec![2, 3]),
        element("Item", Some("Model"), vec![4]),
        element("Meta", None, vec![]),
        element("Item", Some("Part"), vec![]),
    ];
    let items = build_tree(&nodes).ok().unwrap();
    assert_eq!(items.len(), 1);
    assert_eq!(items[0].class.as_deref(), Some("Model"));
    assert!(items[0].properties.is_none());
    assert_eq!(items[0].children.len(), 1);
    assert_eq!(items[0].children[0].class.as_deref(), Some("Part"));
}

#[test]
fn backward_child_is_malformed() {
    let nodes = vec![element("", None, vec![1]), element("Item", None, vec![0])];
    assert!(matches!(build_tree(&nodes), Err(LoadError::Malformed)));
    let empty: Vec<XmlNode> = vec![];
    assert!(matches!(build_tree(&empty), Err(LoadError::Malformed)));
}
