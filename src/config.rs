use vstd::prelude::*;

verus! {

/// One command shown in a named pane.
pub struct Watch {
    pub name: String,
    /// The executable followed by its arguments.
    pub command: Vec<String>,
    /// Run the command through the interpreter that joins the synchronised-input group.
    pub broadcast: bool,
}

/// One output layout: where it goes and which panes it holds, in order.
pub struct Layout {
    pub path: String,
    pub watch: Vec<Watch>,
}

/// The whole configuration: the template's path and the layouts to produce.
pub struct Config {
    pub template: String,
    pub layout: Vec<Layout>,
}

pub ghost struct WatchView {
    pub name: Seq<char>,
    pub command: Seq<Seq<char>>,
    pub broadcast: bool,
}

pub ghost struct LayoutView {
    pub path: Seq<char>,
    pub watch: Seq<WatchView>,
}

/// The text of each string, in order.
pub open spec fn texts(v: Seq<String>) -> Seq<Seq<char>> {
    v.map_values(|s: String| s@)
}

impl View for Watch {
    type V = WatchView;

    open spec fn view(&self) -> WatchView {
        WatchView { name: self.name@, command: texts(self.command@), broadcast: self.broadcast }
    }
}

impl View for Layout {
    type V = LayoutView;

    open spec fn view(&self) -> LayoutView {
        LayoutView { path: self.path@, watch: self.watch@.map_values(|w: Watch| w@) }
    }
}

} // verus!
