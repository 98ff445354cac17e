//! The window manager's tree, and the layout that is read from it: for each
//! workspace the application windows that it holds.

use vstd::prelude::*;

verus! {

/// The kind of a node of the tree.
#[derive(Debug, Clone, Copy, PartialEq, Eq, Structural)]
pub enum NodeType {
    Root,
    Output,
    Con,
    FloatingCon,
    Workspace,
    DockArea,
    Unknown,
}

/// The properties of the client window that a node holds.
#[derive(Debug)]
pub struct WindowProperties {
    /// The application class, where the client states one.
    pub class: Option<String>,
}

/// A node of the window manager's tree: a container, a workspace or a
/// window.
#[derive(Debug)]
pub struct Node {
    /// The identifier by which the window manager addresses the node.
    pub id: i64,
    pub name: Option<String>,
    pub nodetype: NodeType,
    /// Present where the node holds a client window.
    pub window_properties: Option<WindowProperties>,
    /// The child nodes, in the window manager's order.
    pub nodes: Vec<Node>,
}

/// A window of the layout: what is needed to focus it and to colour it.
#[derive(Debug, PartialEq, Eq)]
pub struct WindowNode {
    pub id: i64,
    pub class: Option<String>,
}

/// A window as the contracts speak of it.
pub struct WindowView {
    pub id: i64,
    pub class: Option<Seq<char>>,
}

impl View for WindowNode {
    type V = WindowView;

    open spec fn view(&self) -> WindowView {
        WindowView { id: self.id, class: text_view(self.class) }
    }
}

/// The characters of an optional text.
pub open spec fn text_view(text: Option<String>) -> Option<Seq<char>> {
    match text {
        Some(s) => Some(s@),
        None => None,
    }
}

/// The class of the window manager's own status bar.
pub open spec fn bar_class() -> Seq<char> {
    "i3bar"@
}

/// A node that opens a workspace: all that lies below it belongs to the
/// workspace of its name.
pub open spec fn spec_is_workspace(node: Node) -> bool {
    node.nodetype == NodeType::Workspace
}

/// A node that counts as an application window: it holds a client window
/// whose class is not that of the status bar, is a plain container, and has
/// no child.
pub open spec fn spec_is_window(node: Node) -> bool {
    &&& node.window_properties matches Some(properties)
        && text_view(properties.class) != Some(bar_class())
    &&& node.nodetype == NodeType::Con
    &&& node.nodes@.len() == 0
}

/// The window that a node stands for in the layout.
pub open spec fn window_of(node: Node) -> WindowView {
    WindowView {
        id: node.id,
        class: match node.window_properties {
            Some(properties) => text_view(properties.class),
            None => None,
        },
    }
}

/// The workspace that the children of `node` lie in, where `node` itself is
/// reached in `workspace`.
pub open spec fn workspace_below(node: Node, workspace: Option<Seq<char>>) -> Option<Seq<char>> {
    if spec_is_workspace(node) {
        text_view(node.name)
    } else {
        workspace
    }
}

/// The windows at and below `node` in depth-first order, each with the name
/// of the nearest workspace above it; `workspace` is the one that `node`
/// itself is reached in. A window with no workspace above it is left out.
pub open spec fn tagged_windows(node: Node, workspace: Option<Seq<char>>) -> Seq<
    (Seq<char>, WindowView),
>
    decreases node, node.nodes@.len() + 1,
{
    let own = if spec_is_window(node) && workspace is Some {
        seq![(workspace->0, window_of(node))]
    } else {
        Seq::empty()
    };
    own + tagged_children(node, workspace_below(node, workspace), node.nodes@.len())
}

/// The tagged windows at and below the first `count` children of `node`.
pub open spec fn tagged_children(node: Node, workspace: Option<Seq<char>>, count: nat) -> Seq<
    (Seq<char>, WindowView),
>
    decreases node, count,
{
    if count == 0 || count > node.nodes@.len() {
        Seq::empty()
    } else {
        tagged_children(node, workspace, (count - 1) as nat) + tagged_windows(
            node.nodes@[count - 1],
            workspace,
        )
    }
}

fn is_workspace(node: &Node) -> (b: bool)
    ensures
        b == spec_is_workspace(*node),
{
    node.nodetype == NodeType::Workspace
}

fn is_window(node: &Node) -> (b: bool)
    ensures
        b == spec_is_window(*node),
{
    if let Some(properties) = &node.window_properties {
        let is_bar = match &properties.class {
            Some(class) => {
                let bar = String::from_str("i3bar");
                *class == bar
            },
            None => false,
        };
        if !is_bar && node.nodetype == NodeType::Con && node.nodes.is_empty() {
            return true;
        }
    }
    false
}

/// The tagged windows that a list of pairs stands for.
pub open spec fn tagged_view(pairs: Seq<(String, WindowNode)>) -> Seq<(Seq<char>, WindowView)> {
    pairs.map_values(|pair: (String, WindowNode)| (pair.0@, pair.1@))
}

fn find_workspaces_rec(node: &Node, workspace: Option<String>) -> (windows: Vec<
    (String, WindowNode),
>)
    ensures
        tagged_view(windows@) == tagged_windows(*node, text_view(workspace)),
    decreases node,
{
    let ghost reached = text_view(workspace);
    let mut workspace = workspace;
    let mut windows: Vec<(String, WindowNode)> = Vec::new();

    if is_workspace(node) {
        workspace = node.name.clone();
    } else if is_window(node) {
        if let Some(name) = &workspace {
            let class = match &node.window_properties {
                Some(properties) => properties.class.clone(),
                None => None,
            };
            windows.push((name.clone(), WindowNode { id: node.id, class }));
        }
    }
    let ghost own = tagged_view(windows@);
    assert(own =~= if spec_is_window(*node) && reached is Some {
        seq![(reached->0, window_of(*node))]
    } else {
        Seq::empty()
    });
    assert(text_view(workspace) == workspace_below(*node, reached));

    let mut i: usize = 0;
    while i < node.nodes.len()
        invariant
            i <= node.nodes@.len(),
            tagged_view(windows@) == own + tagged_children(*node, text_view(workspace), i as nat),
        decreases node.nodes@.len() - i,
    {
        let mut below = find_workspaces_rec(&node.nodes[i], workspace.clone());
        let ghost before = windows@;
        let ghost added = below@;
        windows.append(&mut below);
        assert(tagged_view(before + added) =~= tagged_view(before) + tagged_view(added));
        assert(own + tagged_children(*node, text_view(workspace), (i + 1) as nat) =~= own
            + tagged_children(*node, text_view(workspace), i as nat) + tagged_view(added));
        i = i + 1;
    }
    windows
}

/// The names that occur in `tagged`, each once, in the order in which they
/// first occur.
pub open spec fn workspace_names(tagged: Seq<(Seq<char>, WindowView)>) -> Seq<Seq<char>>
    decreases tagged.len(),
{
    if tagged.len() == 0 {
        Seq::empty()
    } else {
        let names = workspace_names(tagged.drop_last());
        if names.contains(tagged.last().0) {
            names
        } else {
            names.push(tagged.last().0)
        }
    }
}

/// The windows that `tagged` holds under `name`, in their order.
pub open spec fn windows_of(tagged: Seq<(Seq<char>, WindowView)>, name: Seq<char>) -> Seq<
    WindowView,
>
    decreases tagged.len(),
{
    if tagged.len() == 0 {
        Seq::empty()
    } else {
        let windows = windows_of(tagged.drop_last(), name);
        if tagged.last().0 == name {
            windows.push(tagged.last().1)
        } else {
            windows
        }
    }
}

/// The layout that `tagged` amounts to: one entry for each workspace, in
/// the order in which the workspaces are first met, with the windows of the
/// workspace in the order in which they are met.
pub open spec fn grouped(tagged: Seq<(Seq<char>, WindowView)>) -> Seq<(Seq<char>, Seq<WindowView>)> {
    Seq::new(
        workspace_names(tagged).len(),
        |i: int| (workspace_names(tagged)[i], windows_of(tagged, workspace_names(tagged)[i])),
    )
}

/// The layout of the tree below `node`.
pub open spec fn spec_find_workspaces(node: Node) -> Seq<(Seq<char>, Seq<WindowView>)> {
    grouped(tagged_windows(node, None))
}

/// The names of a layout are those under which a window is tagged, and none
/// occurs twice.
pub proof fn lemma_workspace_names(tagged: Seq<(Seq<char>, WindowView)>)
    ensures
        workspace_names(tagged).no_duplicates(),
        forall|name: Seq<char>| #[trigger]
            workspace_names(tagged).contains(name) <==> exists|i: int|
                0 <= i < tagged.len() && (#[trigger] tagged[i]).0 == name,
    decreases tagged.len(),
{
    if tagged.len() > 0 {
        let front = tagged.drop_last();
        let last = tagged.last();
        lemma_workspace_names(front);
        let names = workspace_names(front);
        assert forall|name: Seq<char>| #[trigger]
            workspace_names(tagged).contains(name) <==> exists|i: int|
                0 <= i < tagged.len() && (#[trigger] tagged[i]).0 == name by {
            if workspace_names(tagged).contains(name) {
                if names.contains(name) {
                    let i = choose|i: int| 0 <= i < front.len() && (#[trigger] front[i]).0 == name;
                    assert(tagged[i].0 == name);
                } else {
                    assert(!names.contains(last.0));
                    let k = choose|k: int|
                        0 <= k < workspace_names(tagged).len() && workspace_names(tagged)[k] == name;
                    assert(k == names.len());
                    assert(tagged[tagged.len() - 1].0 == name);
                }
            }
            if exists|i: int| 0 <= i < tagged.len() && (#[trigger] tagged[i]).0 == name {
                let i = choose|i: int| 0 <= i < tagged.len() && (#[trigger] tagged[i]).0 == name;
                if i < front.len() {
                    assert(front[i].0 == name);
                    assert(names.contains(name));
                    let k = choose|k: int| 0 <= k < names.len() && names[k] == name;
                    assert(workspace_names(tagged)[k] == name);
                } else {
                    assert(last.0 == name);
                    if names.contains(name) {
                    } else {
                        assert(workspace_names(tagged)[names.len() as int] == name);
                    }
                }
            }
        }
    }
}

/// Under a name that is none of the layout's, no window is tagged.
pub proof fn lemma_windows_of_absent(tagged: Seq<(Seq<char>, WindowView)>, name: Seq<char>)
    requires
        !workspace_names(tagged).contains(name),
    ensures
        windows_of(tagged, name) == Seq::<WindowView>::empty(),
    decreases tagged.len(),
{
    if tagged.len() > 0 {
        let front = tagged.drop_last();
        let names = workspace_names(front);
        if names.contains(name) {
            let k = choose|k: int| 0 <= k < names.len() && names[k] == name;
            assert(workspace_names(tagged)[k] == name);
        }
        if tagged.last().0 == name {
            if names.contains(name) {
            } else {
                assert(workspace_names(tagged)[names.len() as int] == name);
            }
        }
        lemma_windows_of_absent(front, name);
    }
}

/// What one more tagged window does to the layout: it is appended to the
/// entry of its workspace where there is one, and otherwise opens a new
/// entry at the end.
pub proof fn lemma_grouped_push(tagged: Seq<(Seq<char>, WindowView)>, name: Seq<char>, window: WindowView)
    ensures
        forall|k: int|
            0 <= k < grouped(tagged).len() && (#[trigger] grouped(tagged)[k]).0 == name ==> grouped(
                tagged.push((name, window)),
            ) == grouped(tagged).update(k, (name, grouped(tagged)[k].1.push(window))),
        (forall|k: int| 0 <= k < grouped(tagged).len() ==> (#[trigger] grouped(tagged)[k]).0 != name)
            ==> grouped(tagged.push((name, window))) == grouped(tagged).push((name, seq![window])),
{
    let more = tagged.push((name, window));
    let names = workspace_names(tagged);
    assert(more.drop_last() == tagged);
    assert(more.last() == (name, window));
    lemma_workspace_names(tagged);
    assert forall|k: int|
        0 <= k < grouped(tagged).len() && (#[trigger] grouped(tagged)[k]).0 == name implies grouped(more)
        == grouped(tagged).update(k, (name, grouped(tagged)[k].1.push(window))) by {
        assert(names[k] == name);
        assert(names.contains(name));
        assert(workspace_names(more) == names);
        assert forall|j: int| 0 <= j < names.len() && j != k implies windows_of(more, names[j])
            == windows_of(tagged, names[j]) by {
            assert(names[j] != names[k]);
        }
        assert(grouped(more) =~= grouped(tagged).update(
            k,
            (name, grouped(tagged)[k].1.push(window)),
        ));
    }
    if forall|k: int| 0 <= k < grouped(tagged).len() ==> (#[trigger] grouped(tagged)[k]).0 != name {
        if names.contains(name) {
            let k = choose|k: int| 0 <= k < names.len() && names[k] == name;
            assert(grouped(tagged)[k].0 == name);
        }
        assert(workspace_names(more) == names.push(name));
        lemma_windows_of_absent(tagged, name);
        assert forall|j: int| 0 <= j < names.len() implies windows_of(more, names[j]) == windows_of(
            tagged,
            names[j],
        ) by {
            assert(names.contains(names[j]));
        }
        assert(windows_of(more, name) =~= seq![window]);
        assert(grouped(more) =~= grouped(tagged).push((name, seq![window])));
    }
}

/// The windows of a list as the contracts speak of them.
pub open spec fn windows_view(windows: Seq<WindowNode>) -> Seq<WindowView> {
    windows.map_values(|window: WindowNode| window@)
}

/// The layout that a list of workspaces stands for.
pub open spec fn layout_view(layout: Seq<(String, Vec<WindowNode>)>) -> Seq<
    (Seq<char>, Seq<WindowView>),
> {
    layout.map_values(|entry: (String, Vec<WindowNode>)| (entry.0@, windows_view(entry.1@)))
}

/// Reads the layout from the tree below `node`: the workspaces in the order
/// in which a depth-first walk first meets a window of theirs, each with its
/// windows in the order of the walk.
pub fn find_workspaces(node: &Node) -> (layout: Vec<(String, Vec<WindowNode>)>)
    ensures
        layout_view(layout@) == spec_find_workspaces(*node),
{
    let pairs = find_workspaces_rec(node, None);
    let ghost tagged = tagged_view(pairs@);
    let mut layout: Vec<(String, Vec<WindowNode>)> = Vec::new();
    for pair in it: pairs
        invariant
            it.seq() == pairs@,
            tagged == tagged_view(pairs@),
            layout_view(layout@) == grouped(tagged.take(it.index() as int)),
    {
        let (workspace, window) = pair;
        let ghost done = tagged.take(it.index() as int);
        let ghost before = layout@;
        proof {
            assert(tagged[it.index() as int] == (workspace@, window@));
            assert(tagged.take(it.index() + 1) =~= done.push((workspace@, window@)));
            lemma_grouped_push(done, workspace@, window@);
            assert forall|k: int| 0 <= k < before.len() implies (#[trigger] grouped(done)[k]).0
                == before[k].0@ by {
                assert(layout_view(before)[k].0 == before[k].0@);
            }
        }
        let mut found: Option<usize> = None;
        let mut i: usize = 0;
        while i < layout.len() && found.is_none()
            invariant
                i <= layout@.len(),
                found is None ==> forall|k: int| 0 <= k < i ==> layout@[k].0@ != workspace@,
                found matches Some(k) ==> k < layout@.len() && layout@[k as int].0@ == workspace@,
            decreases layout@.len() - i + if found is None { 1nat } else { 0nat },
        {
            if layout[i].0 == workspace {
                found = Some(i);
            } else {
                i = i + 1;
            }
        }
        match found {
            Some(k) => {
                layout[k].1.push(window);
                proof {
                    assert(grouped(done)[k as int].0 == workspace@);
                    assert(layout_view(before)[k as int].1 == windows_view(before[k as int].1@));
                    assert(windows_view(layout@[k as int].1@) =~= windows_view(
                        before[k as int].1@,
                    ).push(window@));
                    assert(layout_view(layout@) =~= grouped(done).update(
                        k as int,
                        (workspace@, grouped(done)[k as int].1.push(window@)),
                    ));
                }
            },
            None => {
                let mut windows: Vec<WindowNode> = Vec::new();
                windows.push(window);
                layout.push((workspace, windows));
                proof {
                    assert(windows_view(windows@) =~= seq![window@]);
                    assert(layout_view(layout@) =~= grouped(done).push((workspace@, seq![window@])));
                }
            },
        }
    }
    proof {
        assert(tagged.take(tagged.len() as int) == tagged);
    }
    layout
}

} // verus!
