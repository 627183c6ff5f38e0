use claudio::error::ClaudioError;
use claudio::preset::discovery::{discover_presets, discover_presets_scoped, is_json_file_name, path_less};
use claudio::preset::store::PresetStore;
use claudio::scope::Scope;

fn strings(v: &[&str]) -> Vec<String> {
    v.iter().map(|s| s.to_string()).collect()
}

#[test]
fn discovery_keeps_json_files_sorted_once() {
    let dirs = strings(&["/p", "/u"]);
    let listings = vec![strings(&["b.json", "a.json", "notes.txt", ".json", "x.JSON"]), strings(&["a.json"])];
    assert_eq!(discover_presets(&dirs, &listings), strings(&["/p/a.json", "/p/b.json", "/u/a.json"]));
}

#[test]
fn discovery_orders_by_path_components() {
    let dirs = strings(&["/a-b", "/a"]);
    let listings = vec![strings(&["x.json"]), strings(&["x.json"])];
    assert_eq!(discover_presets(&dirs, &listings), strings(&["/a/x.json", "/a-b/x.json"]));
    assert!(path_less("/a/x.json", "/a-b/x.json"));
    assert!(!path_less("/a-b/x.json", "/a/x.json"));
    assert!(!path_less("/a/x.json", "/a/x.json"));
}

#[test]
fn discovery_drops_duplicates_and_skips_unread_dirs() {
    let dirs = strings(&["/p", "/p", "/q"]);
    let listings = vec![strings(&["a.json"]), strings(&["a.json"]), vec![]];
    assert_eq!(discover_presets(&dirs, &listings), strings(&["/p/a.json"]));
    assert_eq!(discover_presets(&vec![], &vec![]), Vec::<String>::new());
}

#[test]
fn json_extension() {
    assert!(is_json_file_name("a.json"));
    assert!(is_json_file_name("..json"));
    assert!(is_json_file_name("a.b.json"));
    assert!(!is_json_file_name(".json"));
    assert!(!is_json_file_name("json"));
    assert!(!is_json_file_name("a.jsonl"));
}

#[test]
fn scoped_discovery_and_store() {
    let listings = vec![strings(&["z.json", "m.json"])];
    assert_eq!(
        discover_presets_scoped(Ok(strings(&["/d"])), &listings),
        Ok(strings(&["/d/m.json", "/d/z.json"]))
    );
    assert_eq!(discover_presets_scoped(Err(ClaudioError::ProjectRootNotFound), &listings), Err(ClaudioError::ProjectRootNotFound));
    let store = PresetStore::new(Scope::User, Ok(strings(&["/d"]))).unwrap();
    assert_eq!(store.discover_all(&listings), strings(&["/d/m.json", "/d/z.json"]));
}
