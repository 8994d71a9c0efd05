use graph_editor::app_state::{App, FileWrite, Modal, Page, Project};
use graph_editor::graph_def::GraphDef;

fn project(path: Option<&str>, text: &str) -> Project<u32> {
    Project { path: path.map(|p| p.to_string()), text: text.to_string(), scene: 7 }
}

#[test]
fn default_app_is_blank() {
    let a: App<u32> = Default::default();
    assert!(matches!(a.active, Page::Blank));
    assert!(a.recent.is_empty());
    assert!(a.modals.is_empty());
}

#[test]
fn new_without_stored_state_is_blank() {
    let a: App<u32> = App::new(None);
    assert!(matches!(a.active, Page::Blank));
    assert!(a.modals.is_empty());
}

#[test]
fn new_with_stored_state_restores_it() {
    let stored = App {
        active: Page::Project(project(Some("g.yaml"), "x")),
        recent: vec!["g.yaml".to_string()],
        modals: vec![Modal::FindFile],
    };
    let a = App::new(Some(stored));
    assert!(matches!(&a.active, Page::Project(p) if p.text == "x"));
    assert_eq!(a.recent, vec!["g.yaml".to_string()]);
    assert_eq!(a.modals, vec![Modal::FindFile]);
}

#[test]
fn save_on_blank_does_nothing() {
    let mut a: App<u32> = Default::default();
    assert_eq!(a.save_graph(), None);
    a.save_graph_as();
    assert!(a.modals.is_empty());
    assert!(matches!(a.active, Page::Blank));
}

#[test]
fn save_without_file_opens_save_dialog() {
    let mut a: App<u32> = Default::default();
    a.new_graph(project(None, "nodes: []"));
    assert_eq!(a.save_graph(), None);
    assert_eq!(a.modals, vec![Modal::SaveFile]);
    assert!(matches!(&a.active, Page::Project(p) if p.text == "nodes: []"));
}

#[test]
fn save_with_file_writes_text_there() {
    let mut a: App<u32> = Default::default();
    a.new_graph(project(Some("/tmp/g.yaml"), "edges: []"));
    assert_eq!(
        a.save_graph(),
        Some(FileWrite { path: "/tmp/g.yaml".to_string(), text: "edges: []".to_string() })
    );
    assert!(a.modals.is_empty());
}

#[test]
fn save_as_always_opens_dialog_for_a_project() {
    let mut a: App<u32> = Default::default();
    a.new_graph(project(Some("f"), "t"));
    a.save_graph_as();
    a.save_graph_as();
    assert_eq!(a.modals, vec![Modal::SaveFile, Modal::SaveFile]);
}

#[test]
fn close_graph_blanks_the_page() {
    let mut a: App<u32> = Default::default();
    a.new_graph(project(None, "t"));
    a.close_graph();
    assert!(matches!(a.active, Page::Blank));
    assert_eq!(a.save_graph(), None);
    assert!(a.modals.is_empty());
}

#[test]
fn new_graph_replaces_open_project() {
    let mut a: App<u32> = Default::default();
    a.new_graph(project(Some("old"), "old"));
    a.new_graph(project(None, "new"));
    assert!(matches!(&a.active, Page::Project(p) if p.text == "new" && p.path.is_none()));
}

#[test]
fn new_project_has_no_file() {
    let p = Project::new("text".to_string(), 3u8);
    assert!(p.path.is_none());
    assert_eq!(p.text, "text");
    assert_eq!(p.scene, 3);
}

#[test]
fn default_project_is_empty() {
    let p: Project<u8> = Default::default();
    assert!(p.path.is_none());
    assert!(p.text.is_empty());
    assert_eq!(p.scene, 0);
}

#[test]
fn starter_graph_has_four_nodes_and_three_edges() {
    let d = Project::<()>::starter_graph();
    assert_eq!(
        d.nodes(),
        &vec!["node 1".to_string(), "node 2".to_string(), "node 3".to_string(), "node 4".to_string()]
    );
    assert_eq!(
        d.edges(),
        &vec![
            ("node 1".to_string(), "node 2".to_string(), 1),
            ("node 1".to_string(), "node 3".to_string(), 2),
            ("node 2".to_string(), "node 4".to_string(), 1),
        ]
    );
}

#[test]
fn update_graph_builds_parsed_definition() {
    let p = project(None, "ignored");
    let d = GraphDef::new().with_nodes(vec!["a", "b"]).with_edges(vec![("a", "b", 2)]);
    let expected = (d.directed_graph(), d.undirected_graph());
    assert_eq!(p.update_graph(Some(d)), Some(expected));
    assert_eq!(p.update_graph(None), None);
}

#[test]
fn check_accepts_closed_and_refuses_open_graphs() {
    let p = project(None, "");
    let nodes = vec!["a".to_string(), "b".to_string()];
    assert!(p.check(&nodes, &vec![vec!["b".to_string()], vec!["a".to_string()]]));
    assert!(!p.check(&nodes, &vec![vec!["c".to_string()], vec![]]));
}

#[test]
fn smacof_changes_nothing() {
    let mut p = project(Some("f"), "t");
    p._smacof();
    assert_eq!(p.path.as_deref(), Some("f"));
    assert_eq!(p.text, "t");
}

#[test]
fn accept_rebuild_installs_only_consistent_graphs() {
    let mut p = project(Some("f"), "t");
    assert!(!p.accept_rebuild(99, false));
    assert_eq!(p.scene, 7);
    assert!(p.accept_rebuild(42, true));
    assert_eq!(p.scene, 42);
    assert_eq!(p.path.as_deref(), Some("f"));
    assert_eq!(p.text, "t");
}
