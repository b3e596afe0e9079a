use toolbox_core::descriptor::{parse_descriptor, Module};
use toolbox_core::registry::{discover_modules, FsEntry, FsNode, Registry};
use toolbox_core::Error;

fn file(text: &str) -> FsNode {
    FsNode::File { text: text.to_string() }
}

fn dir(entries: Vec<(&str, FsNode)>) -> FsNode {
    FsNode::Dir {
        entries: entries
            .into_iter()
            .map(|(name, node)| FsEntry { name: name.to_string(), node })
            .collect(),
    }
}

const ALPHA: &str = "id = \"m1\"\nname = \"Alpha\"\ncategory = \"Cat\"\n\n[actions]\nRun = \"echo hi\"\n";

#[test]
fn parses_full_descriptor() {
    let m = parse_descriptor(
        "id = \"m1\"\nname = \"Alpha\"\ndescription = \"d\"\ncategory = \"Cat\"\nscript_kind = \"bash\"\nenabled = true\n\n[actions]\nRun = \"echo hi\"\n",
        "modules/m1",
    )
    .expect("descriptor should parse");
    assert_eq!(m.id, "m1");
    assert_eq!(m.name, "Alpha");
    assert_eq!(m.description, "d");
    assert_eq!(m.category, "Cat");
    assert_eq!(m.script_kind, "bash");
    assert!(m.enabled);
    assert_eq!(m.root, "modules/m1");
    assert_eq!(m.actions, vec![("Run".to_string(), "echo hi".to_string())]);
}

#[test]
fn optional_fields_default() {
    let m = parse_descriptor("id = \"x\"\nname = \"N\"\n", "p").expect("minimal descriptor");
    assert_eq!(m.description, "");
    assert_eq!(m.category, "");
    assert_eq!(m.script_kind, "");
    assert!(!m.enabled);
    assert!(m.actions.is_empty());
}

#[test]
fn unknown_fields_are_ignored() {
    let m = parse_descriptor("id = \"x\"\nname = \"N\"\nextra = 7\n", "p");
    assert!(m.is_ok());
}

#[test]
fn empty_id_fails_with_descriptor_invalid() {
    let r = parse_descriptor("id = \"\"\nname = \"X\"\n", "modules/bad");
    match r {
        Err(Error::DescriptorInvalid(p)) => assert_eq!(p, "modules/bad"),
        _ => panic!("expected DescriptorInvalid"),
    }
}

#[test]
fn empty_name_fails() {
    assert!(parse_descriptor("id = \"x\"\nname = \"\"\n", "p").is_err());
}

#[test]
fn missing_id_fails() {
    assert!(parse_descriptor("name = \"X\"\n", "p").is_err());
}

#[test]
fn unparseable_text_fails() {
    assert!(parse_descriptor("id = [unclosed\n", "p").is_err());
}

#[test]
fn wrong_typed_fields_fail() {
    assert!(parse_descriptor("id = 3\nname = \"N\"\n", "p").is_err());
    assert!(parse_descriptor("id = \"x\"\nname = \"N\"\nenabled = \"yes\"\n", "p").is_err());
    assert!(parse_descriptor("id = \"x\"\nname = \"N\"\nactions = 4\n", "p").is_err());
    assert!(parse_descriptor("id = \"x\"\nname = \"N\"\n\n[actions]\nRun = 3\n", "p").is_err());
}

#[test]
fn absent_root_scans_to_empty() {
    let mods = discover_modules(&FsNode::Missing, "modules").expect("absence is not an error");
    assert!(mods.is_empty());
}

#[test]
fn descriptor_marks_a_leaf() {
    let tree = dir(vec![
        ("module.toml", file(ALPHA)),
        ("nested", dir(vec![(
            "module.toml",
            file("id = \"m2\"\nname = \"Beta\"\ncategory = \"Cat\"\n"),
        )])),
    ]);
    let mods = discover_modules(&tree, "modules").expect("scan should succeed");
    assert_eq!(mods.len(), 1);
    assert_eq!(mods[0].id, "m1");
    assert_eq!(mods[0].root, "modules");
}

#[test]
fn scan_collects_nested_modules_in_order() {
    let tree = dir(vec![
        ("a", dir(vec![("module.toml", file("id = \"a\"\nname = \"A\"\n"))])),
        ("b", dir(vec![("plain.txt", file("noise")), (
            "deep",
            dir(vec![("module.toml", file("id = \"b\"\nname = \"B\"\n"))]),
        )])),
    ]);
    let mods = discover_modules(&tree, "modules").expect("scan should succeed");
    assert_eq!(mods.len(), 2);
    assert_eq!(mods[0].root, "modules/a");
    assert_eq!(mods[1].root, "modules/b/deep");
}

#[test]
fn unreadable_node_aborts_with_scan_io() {
    let tree = dir(vec![("bad", FsNode::Unreadable)]);
    match discover_modules(&tree, "modules") {
        Err(Error::ScanIo(p)) => assert_eq!(p, "modules/bad"),
        _ => panic!("expected ScanIo"),
    }
}

#[test]
fn unreadable_descriptor_file_aborts_with_scan_io() {
    let tree = dir(vec![("m", dir(vec![("module.toml", FsNode::Unreadable)]))]);
    match discover_modules(&tree, "modules") {
        Err(Error::ScanIo(p)) => assert_eq!(p, "modules/m/module.toml"),
        _ => panic!("expected ScanIo"),
    }
}

#[test]
fn file_root_is_a_scan_failure() {
    match discover_modules(&file("not a directory"), "modules") {
        Err(Error::ScanIo(p)) => assert_eq!(p, "modules"),
        _ => panic!("expected ScanIo"),
    }
}

#[test]
fn bad_descriptor_aborts_scan_fail_fast() {
    let tree = dir(vec![
        ("a", dir(vec![("module.toml", file("id = \"\"\nname = \"X\"\n"))])),
        ("b", dir(vec![("module.toml", file(ALPHA))])),
    ]);
    match discover_modules(&tree, "modules") {
        Err(Error::DescriptorInvalid(p)) => assert_eq!(p, "modules/a"),
        _ => panic!("expected DescriptorInvalid"),
    }
}

#[test]
fn registry_remembers_its_root() {
    let reg = Registry::new("modules".to_string());
    assert_eq!(reg.modules_dir, "modules");
    let mods = reg.modules(&FsNode::Missing).expect("missing root is empty");
    assert!(mods.is_empty());
}

#[test]
fn module_values_round_trip_through_scan() {
    let tree = dir(vec![("m", dir(vec![("module.toml", file(ALPHA))]))]);
    let mods: Vec<Module> = discover_modules(&tree, "modules").expect("scan should succeed");
    assert_eq!(mods[0].actions, vec![("Run".to_string(), "echo hi".to_string())]);
    assert_eq!(mods[0].root, "modules/m");
}

#[test]
fn error_kind_labels() {
    assert_eq!(Error::Unimplemented.kind_label(), "unimplemented");
    assert_eq!(Error::DescriptorInvalid(String::new()).kind_label(), "descriptor invalid");
    assert_eq!(Error::ScanIo(String::new()).kind_label(), "scan io");
}
