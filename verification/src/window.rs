//! The focus resolver: from a snapshot of the window tree to the application
//! and title of the window that holds the focus.

use crate::telegram_utils::{normalized_title, strip_message_counts};
use crate::text::{contains, occurs_in};
use vstd::prelude::*;

verus! {

/// The marker by which the messaging application is known: an application
/// whose identifier holds it decorates its titles with a badge.
pub const TELEGRAM_MARKER: &'static str = "telegram";

/// One node of the window tree, with what the resolver reads of it.
#[derive(Debug)]
pub struct WindowNode {
    /// The identifier by which the parent's focus order refers to this node.
    pub id: i64,
    /// The application identifier, where the window has one.
    pub app_id: Option<String>,
    /// The window class, which stands in where there is no application
    /// identifier.
    pub window_class: Option<String>,
    /// The title of the window.
    pub name: Option<String>,
    /// The identifiers of the children, most recently focused first.
    pub focus: Vec<i64>,
    /// The tiling children.
    pub nodes: Vec<WindowNode>,
    /// The floating children.
    pub floating_nodes: Vec<WindowNode>,
}

/// The application identifier of a node: its `app_id` where there is one, else
/// its window class, else none.
pub open spec fn app_id_of(node: WindowNode) -> Option<Seq<char>> {
    match node.app_id {
        Some(id) => Some(id@),
        None => match node.window_class {
            Some(class) => Some(class@),
            None => None,
        },
    }
}

/// Whether child `i` is the first of `children` with the identifier `id`.
pub open spec fn is_first_with_id(children: Seq<WindowNode>, id: i64, i: int) -> bool {
    &&& 0 <= i < children.len()
    &&& children[i].id == id
    &&& forall|j: int| 0 <= j < i ==> (#[trigger] children[j]).id != id
}

/// The first of `children` with the identifier `id`.
pub open spec fn child_with_id(children: Seq<WindowNode>, id: i64) -> Option<WindowNode> {
    if exists|i: int| is_first_with_id(children, id, i) {
        Some(children[choose|i: int| is_first_with_id(children, id, i)])
    } else {
        None
    }
}

/// The child through which the focus goes on: the one that the head of the
/// focus order names, looked for among the tiling children first and among the
/// floating children after them.
pub open spec fn focused_child(node: WindowNode) -> Option<WindowNode> {
    if node.focus@.len() == 0 {
        None
    } else {
        match child_with_id(node.nodes@, node.focus@[0]) {
            Some(child) => Some(child),
            None => child_with_id(node.floating_nodes@, node.focus@[0]),
        }
    }
}

/// The first node with an application identifier on the way from `node` down
/// along the focus order.
pub open spec fn focused_window(node: WindowNode) -> Option<WindowNode>
    decreases node,
{
    if app_id_of(node) is Some {
        Some(node)
    } else {
        match focused_child(node) {
            Some(child) => focused_window(child),
            None => None,
        }
    }
}

/// The application identifier of a node: its `app_id` where there is one, else
/// its window class.
pub fn get_app_id(node: &WindowNode) -> (id: Option<String>)
    ensures
        match id {
            Some(s) => app_id_of(*node) == Some(s@),
            None => app_id_of(*node) is None,
        },
{
    match &node.app_id {
        Some(id) => Some(id.clone()),
        None => match &node.window_class {
            Some(class) => Some(class.clone()),
            None => None,
        },
    }
}

/// Whether a node has an application identifier.
pub fn has_app_id(node: &WindowNode) -> (b: bool)
    ensures
        b == (app_id_of(*node) is Some),
{
    node.app_id.is_some() || node.window_class.is_some()
}

/// The first of `children` with the identifier `id`.
pub fn find_child(children: &Vec<WindowNode>, id: i64) -> (child: Option<&WindowNode>)
    ensures
        match child {
            Some(c) => child_with_id(children@, id) == Some(*c),
            None => child_with_id(children@, id) is None,
        },
{
    let mut i: usize = 0;
    while i < children.len()
        invariant
            i <= children.len(),
            forall|j: int| 0 <= j < i ==> (#[trigger] children@[j]).id != id,
        decreases children.len() - i,
    {
        if children[i].id == id {
            proof {
                assert(is_first_with_id(children@, id, i as int));
                let k = choose|k: int| is_first_with_id(children@, id, k);
                assert(k == i) by {
                    if k < i {
                        assert(children@[k].id != id);
                    } else if i < k {
                        assert(children@[i as int].id != id);
                    }
                }
            }
            return Some(&children[i]);
        }
        i += 1;
    }
    None
}

/// The node that holds the focus: the first node with an application
/// identifier on the way from the root down along the focus order.
pub fn get_active_telegram_node(node: &WindowNode) -> (found: Option<&WindowNode>)
    ensures
        match found {
            Some(n) => focused_window(*node) == Some(*n),
            None => focused_window(*node) is None,
        },
    decreases *node,
{
    if has_app_id(node) {
        return Some(node);
    }
    if node.focus.len() == 0 {
        return None;
    }
    let first = node.focus[0];
    match find_child(&node.nodes, first) {
        Some(child) => get_active_telegram_node(child),
        None => match find_child(&node.floating_nodes, first) {
            Some(child) => get_active_telegram_node(child),
            None => None,
        },
    }
}

/// The title under which a window is counted: without its badges where the
/// application identifier holds the marker of the messaging application, as
/// it is everywhere else.
pub open spec fn fixed_window_name(app_id: Seq<char>, name: Seq<char>) -> Seq<char> {
    if occurs_in(app_id, TELEGRAM_MARKER@) {
        normalized_title(name)
    } else {
        name
    }
}

/// Normalizes the title of a window of the messaging application and leaves
/// every other title as it is.
pub fn window_name_fixup(app_id: &String, name: String) -> (fixed: String)
    ensures
        fixed@ == fixed_window_name(app_id@, name@),
{
    if contains(app_id.as_str(), TELEGRAM_MARKER) {
        strip_message_counts(name)
    } else {
        name
    }
}

/// The sample that a snapshot of the window tree gives: the application
/// identifier and the title of the window that holds the focus. There is none
/// where no node on the focus order has an application identifier, and none
/// where the node that was found has no title.
pub open spec fn focus_sample(tree: WindowNode) -> Option<(Seq<char>, Seq<char>)> {
    match focused_window(tree) {
        Some(node) => match (app_id_of(node), node.name) {
            (Some(app_id), Some(name)) => Some((app_id, fixed_window_name(app_id, name@))),
            _ => None,
        },
        None => None,
    }
}

/// Resolves a snapshot of the window tree to the sample of this tick.
pub fn process(tree: &WindowNode) -> (sample: Option<(String, String)>)
    ensures
        match sample {
            Some((app_id, title)) => focus_sample(*tree) == Some((app_id@, title@)),
            None => focus_sample(*tree) is None,
        },
{
    match get_active_telegram_node(tree) {
        Some(node) => match (get_app_id(node), &node.name) {
            (Some(app_id), Some(name)) => {
                let fixed = window_name_fixup(&app_id, name.clone());
                Some((app_id, fixed))
            },
            _ => None,
        },
        None => None,
    }
}

} // verus!
