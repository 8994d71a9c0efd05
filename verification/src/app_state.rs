//! The editor's state: the open page, the recent files and the open dialogs,
//! with the decisions of opening, closing and saving a graph.
//!
//! A project keeps what these decisions read (its file path and its text) and
//! carries the rest of what is shown of it (the built graphs, their drawing)
//! as a scene of type `S`.

use vstd::prelude::*;
use crate::graph_def::{GraphDef, GraphOp, steps_of, directed_steps, undirected_steps};
use crate::graph_index::{neighbours_are_nodes, adjacency_closed, names_of, adjacency_names};

verus! {

/// A dialog shown over the page.
#[derive(Debug, Clone, Copy, PartialEq, Eq, Structural)]
pub enum Modal {
    FindFile,
    SaveFile,
}

/// An open graph: the file it was saved to, if any, its text, and its scene.
pub struct Project<S> {
    pub path: Option<String>,
    pub text: String,
    pub scene: S,
}

/// What the editor shows: nothing, or an open graph.
pub enum Page<S> {
    Blank,
    Project(Project<S>),
}

/// A write of `text` to the file at `path`, asked for by a save.
#[derive(Debug, PartialEq, Eq)]
pub struct FileWrite {
    pub path: String,
    pub text: String,
}

/// The editor: its page, the files it opened lately and the dialogs it shows.
pub struct App<S> {
    pub active: Page<S>,
    pub recent: Vec<String>,
    pub modals: Vec<Modal>,
}

/// What the editor is, as the specification sees it.
pub ghost struct AppView<S> {
    pub active: Page<S>,
    pub recent: Seq<String>,
    pub modals: Seq<Modal>,
}

impl<S> View for App<S> {
    type V = AppView<S>;

    open spec fn view(&self) -> AppView<S> {
        AppView { active: self.active, recent: self.recent@, modals: self.modals@ }
    }
}

/// The editor after opening the project `p`.
pub open spec fn after_new<S>(v: AppView<S>, p: Project<S>) -> AppView<S> {
    AppView { active: Page::Project(p), ..v }
}

/// The editor after closing its page.
pub open spec fn after_close<S>(v: AppView<S>) -> AppView<S> {
    AppView { active: Page::Blank, ..v }
}

/// The editor after "save as": with a project open, the save dialog is
/// queued; with none, nothing changes.
pub open spec fn after_save_as<S>(v: AppView<S>) -> AppView<S> {
    match v.active {
        Page::Blank => v,
        Page::Project(_) => AppView { modals: v.modals.push(Modal::SaveFile), ..v },
    }
}

/// The editor after "save": a project without a file goes through "save as";
/// otherwise nothing changes.
pub open spec fn after_save<S>(v: AppView<S>) -> AppView<S> {
    match v.active {
        Page::Project(p) => if p.path is None {
            after_save_as(v)
        } else {
            v
        },
        Page::Blank => v,
    }
}

/// The write that "save" asks for: the open project's text to its file, when
/// it has one.
pub open spec fn save_write<S>(v: AppView<S>) -> Option<(Seq<char>, Seq<char>)> {
    match v.active {
        Page::Project(p) => match p.path {
            Some(path) => Some((path@, p.text@)),
            None => None,
        },
        Page::Blank => None,
    }
}

/// The view of a requested write.
pub open spec fn write_view(w: Option<FileWrite>) -> Option<(Seq<char>, Seq<char>)> {
    match w {
        Some(f) => Some((f.path@, f.text@)),
        None => None,
    }
}

impl<S> Default for App<S> {
    fn default() -> (r: Self)
        ensures
            r@.active == Page::<S>::Blank,
            r@.recent == Seq::<String>::empty(),
            r@.modals == Seq::<Modal>::empty(),
    {
        App { active: Page::Blank, recent: Vec::new(), modals: Vec::new() }
    }
}

impl<S> App<S> {
    /// The editor as it was last stored, when a stored state could be read,
    /// and otherwise a blank editor.
    pub fn new(restored: Option<App<S>>) -> (r: Self)
        ensures
            match restored {
                Some(a) => r == a,
                None => r@.active == Page::<S>::Blank && r@.recent == Seq::<String>::empty()
                    && r@.modals == Seq::<Modal>::empty(),
            },
    {
        match restored {
            Some(a) => a,
            None => Self::default(),
        }
    }

    /// Opens the project `project` in place of the current page.
    pub fn new_graph(&mut self, project: Project<S>)
        ensures
            final(self)@ == after_new(old(self)@, project),
    {
        self.active = Page::Project(project);
    }

    /// Saves the open project: asks for its text to be written to its file
    /// when it has one, and otherwise queues the save dialog. With no project
    /// open, does nothing.
    pub fn save_graph(&mut self) -> (w: Option<FileWrite>)
        ensures
            write_view(w) == save_write(old(self)@),
            final(self)@ == after_save(old(self)@),
    {
        let write = match &self.active {
            Page::Blank => {
                return None;
            },
            Page::Project(p) => match &p.path {
                Some(path) => Some(FileWrite { path: path.clone(), text: p.text.clone() }),
                None => None,
            },
        };
        if write.is_none() {
            self.save_graph_as();
        }
        write
    }

    /// Queues the save dialog when a project is open.
    pub fn save_graph_as(&mut self)
        ensures
            final(self)@ == after_save_as(old(self)@),
    {
        match &self.active {
            Page::Blank => {},
            Page::Project(_) => {
                self.modals.push(Modal::SaveFile);
            },
        }
    }

    /// Closes the page.
    pub fn close_graph(&mut self)
        ensures
            final(self)@ == after_close(old(self)@),
    {
        self.active = Page::Blank;
    }
}

/// `r` is what rebuilding gives for the parse result `parsed`: both
/// construction sequences of the parsed definition, or nothing when the text
/// was no definition.
pub open spec fn plan_of(parsed: Option<GraphDef>, r: Option<(Vec<GraphOp>, Vec<GraphOp>)>) -> bool {
    match parsed {
        Some(d) => r matches Some(ops) && steps_of(ops.0@) == directed_steps(d@) && steps_of(ops.1@)
            == undirected_steps(d@),
        None => r is None,
    }
}

impl<S> Project<S> {
    /// A project that has never been saved, with the given text and scene.
    pub fn new(text: String, scene: S) -> (r: Self)
        ensures
            r.path is None,
            r.text == text,
            r.scene == scene,
    {
        Project { path: None, text, scene }
    }

    /// The graph a new project starts with: four nodes and three edges.
    pub fn starter_graph() -> (d: GraphDef)
        ensures
            d@.nodes == seq!["node 1"@, "node 2"@, "node 3"@, "node 4"@],
            d@.edges == seq![
                ("node 1"@, "node 2"@, 1i32),
                ("node 1"@, "node 3"@, 2i32),
                ("node 2"@, "node 4"@, 1i32),
            ],
    {
        let d = GraphDef::new().with_nodes(vec!["node 1", "node 2", "node 3", "node 4"]).with_edges(
            vec![("node 1", "node 2", 1), ("node 1", "node 3", 2), ("node 2", "node 4", 1)],
        );
        assert(d@.nodes =~= seq!["node 1"@, "node 2"@, "node 3"@, "node 4"@]);
        assert(d@.edges =~= seq![
            ("node 1"@, "node 2"@, 1i32),
            ("node 1"@, "node 3"@, 2i32),
            ("node 2"@, "node 4"@, 1i32),
        ]);
        d
    }

    /// The construction of the graphs that the project's text defines, given
    /// the result of parsing that text: both construction sequences of the
    /// definition, or `None` when the text is no definition.
    pub fn update_graph(&self, parsed: Option<GraphDef>) -> (r: Option<(Vec<GraphOp>, Vec<GraphOp>)>)
        ensures
            plan_of(parsed, r),
    {
        match parsed {
            Some(d) => Some(d.build()),
            None => None,
        }
    }

    /// Installs a rebuilt scene only when the rebuilt graph passed the
    /// consistency check; returns whether it was installed.
    pub fn accept_rebuild(&mut self, scene: S, consistent: bool) -> (installed: bool)
        ensures
            installed == consistent,
            consistent ==> final(self).scene == scene && final(self).path == old(self).path
                && final(self).text == old(self).text,
            !consistent ==> *final(self) == *old(self),
    {
        if consistent {
            self.scene = scene;
        }
        consistent
    }

    /// The stress-majorization layout, which does nothing yet.
    pub fn _smacof(&mut self)
        ensures
            *final(self) == *old(self),
    {
    }

    /// Whether a built graph is consistent: every neighbour it lists is one of
    /// its nodes. `nodes` are the graph's nodes and `adjacency[i]` the
    /// neighbours of `nodes[i]`.
    pub fn check(&self, nodes: &Vec<String>, adjacency: &Vec<Vec<String>>) -> (ok: bool)
        ensures
            ok == adjacency_closed(names_of(nodes@), adjacency_names(adjacency@)),
    {
        neighbours_are_nodes(nodes, adjacency)
    }
}

impl<S: Default> Default for Project<S> {
    fn default() -> (r: Self)
        ensures
            r.path is None,
            r.text@ == Seq::<char>::empty(),
            call_ensures(S::default, (), r.scene),
    {
        Project { path: None, text: String::new(), scene: S::default() }
    }
}

} // verus!
