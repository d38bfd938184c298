use vstd::prelude::*;

use crate::selector::ast::view_strings;
use crate::text::{normalize, normalize_all, normalized, normalized_all, split_commas, split_normalized};

verus! {

pub type NodeHandle = u64;

/// The handle of the root of every tree.
pub const ROOT_HANDLE: NodeHandle = 0;

/// An element of the accessibility tree, with the values the selector engine reads.
///
/// `role`, `states`, `states_en_us` and `actions` are normalized: lower case, with
/// spaces replaced by underscores.
#[derive(Debug)]
pub struct ContextNode {
    pub handle: NodeHandle,
    pub jobject: i64,
    pub name: String,
    pub role: String,
    pub states: Vec<String>,
    pub states_en_us: Vec<String>,
    pub description: String,
    pub children: Vec<NodeHandle>,
    pub x: i32,
    pub y: i32,
    pub width: i32,
    pub height: i32,
    pub accessible_action: bool,
    pub accessible_text: bool,
    pub accessible_selection: bool,
    pub children_count: i32,
    pub index_in_parent: i32,
    pub parent: Option<NodeHandle>,
    pub depth: i32,
    pub text: String,
    pub actions: Vec<String>,
}

pub struct NodeV {
    pub handle: NodeHandle,
    pub jobject: i64,
    pub name: Seq<char>,
    pub role: Seq<char>,
    pub states: Seq<Seq<char>>,
    pub states_en_us: Seq<Seq<char>>,
    pub description: Seq<char>,
    pub children: Seq<NodeHandle>,
    pub x: i32,
    pub y: i32,
    pub width: i32,
    pub height: i32,
    pub accessible_action: bool,
    pub accessible_text: bool,
    pub accessible_selection: bool,
    pub children_count: i32,
    pub index_in_parent: i32,
    pub parent: Option<NodeHandle>,
    pub depth: i32,
    pub text: Seq<char>,
    pub actions: Seq<Seq<char>>,
}

pub open spec fn view_node(n: ContextNode) -> NodeV {
    NodeV {
        handle: n.handle,
        jobject: n.jobject,
        name: n.name@,
        role: n.role@,
        states: view_strings(n.states@),
        states_en_us: view_strings(n.states_en_us@),
        description: n.description@,
        children: n.children@,
        x: n.x,
        y: n.y,
        width: n.width,
        height: n.height,
        accessible_action: n.accessible_action,
        accessible_text: n.accessible_text,
        accessible_selection: n.accessible_selection,
        children_count: n.children_count,
        index_in_parent: n.index_in_parent,
        parent: n.parent,
        depth: n.depth,
        text: n.text@,
        actions: view_strings(n.actions@),
    }
}

impl View for ContextNode {
    type V = NodeV;

    open spec fn view(&self) -> NodeV {
        view_node(*self)
    }
}


/// What the Java Access Bridge reports of an element (its `AccessibleContextInfo`),
/// with the texts already decoded.
#[derive(Debug, Clone)]
pub struct NodeInfo {
    pub name: String,
    pub role: String,
    /// The states, separated by commas.
    pub states: String,
    /// The states in US English, separated by commas.
    pub states_en_us: String,
    pub description: String,
    pub x: i32,
    pub y: i32,
    pub width: i32,
    pub height: i32,
    /// Non-zero when the element has actions.
    pub accessible_action: i32,
    /// Non-zero when the element has text.
    pub accessible_text: i32,
    /// Non-zero when the element supports selection.
    pub accessible_selection: i32,
    pub children_count: i32,
    pub index_in_parent: i32,
}

/// An element as read from the application: its object, its info (`None` when the
/// bridge could not give it), its text, the names of its actions, and the elements
/// read as its children.
#[derive(Debug)]
pub struct RawNode {
    pub jobject: i64,
    pub info: Option<NodeInfo>,
    pub text: String,
    pub actions: Vec<String>,
    pub children: Vec<RawNode>,
}

/// A node with nothing known yet but its place in the tree.
pub open spec fn blank_node(jobject: i64, depth: i32, handle: NodeHandle, parent: Option<NodeHandle>, children: Seq<NodeHandle>) -> NodeV {
    NodeV {
        handle,
        jobject,
        name: seq![],
        role: seq![],
        states: seq![],
        states_en_us: seq![],
        description: seq![],
        children,
        x: 0,
        y: 0,
        width: 0,
        height: 0,
        accessible_action: false,
        accessible_text: false,
        accessible_selection: false,
        children_count: 0,
        index_in_parent: 0,
        parent,
        depth,
        text: seq![],
        actions: seq![],
    }
}

/// Node `n` brought up to date with what was read of its element: the info, when
/// there is one, replaces the described fields (role and states normalized, the
/// states split at commas); the text and the normalized action names replace the
/// old ones.
pub open spec fn refreshed(n: NodeV, r: RawNode) -> NodeV {
    let n1 = match r.info {
        Some(i) => NodeV {
            name: i.name@,
            role: normalized(i.role@),
            states: normalized_all(split_commas(i.states@)),
            states_en_us: normalized_all(split_commas(i.states_en_us@)),
            description: i.description@,
            x: i.x,
            y: i.y,
            width: i.width,
            height: i.height,
            accessible_action: i.accessible_action != 0,
            accessible_text: i.accessible_text != 0,
            accessible_selection: i.accessible_selection != 0,
            children_count: i.children_count,
            index_in_parent: i.index_in_parent,
            ..n
        },
        None => n,
    };
    NodeV { text: r.text@, actions: normalized_all(view_strings(r.actions@)), ..n1 }
}

/// The node built for element `r`.
pub open spec fn node_from(r: RawNode, depth: i32, handle: NodeHandle, parent: Option<NodeHandle>, children: Seq<NodeHandle>) -> NodeV {
    refreshed(blank_node(r.jobject, depth, handle, parent, children), r)
}

impl ContextNode {
    /// Brings the node up to date with what was read of its element.
    pub fn refresh_info(&mut self, r: &RawNode)
        ensures
            final(self)@ == refreshed(old(self)@, *r),
    {
        if let Some(info) = &r.info {
            self.name = info.name.clone();
            self.role = normalize(info.role.as_str());
            self.states = split_normalized(info.states.as_str());
            self.states_en_us = split_normalized(info.states_en_us.as_str());
            self.description = info.description.clone();
            self.x = info.x;
            self.y = info.y;
            self.width = info.width;
            self.height = info.height;
            self.accessible_action = info.accessible_action != 0;
            self.accessible_text = info.accessible_text != 0;
            self.accessible_selection = info.accessible_selection != 0;
            self.children_count = info.children_count;
            self.index_in_parent = info.index_in_parent;
        }
        self.text = r.text.clone();
        self.actions = normalize_all(&r.actions);
    }

    /// The node for element `r`, placed at `depth` under `parent` with the given
    /// handle and children.
    pub fn from_raw(r: &RawNode, depth: i32, handle: NodeHandle, parent: Option<NodeHandle>, children: Vec<NodeHandle>) -> (n: ContextNode)
        ensures
            n@ == node_from(*r, depth, handle, parent, children@),
    {
        let mut n = ContextNode {
            handle,
            jobject: r.jobject,
            name: String::new(),
            role: String::new(),
            states: Vec::new(),
            states_en_us: Vec::new(),
            description: String::new(),
            children,
            x: 0,
            y: 0,
            width: 0,
            height: 0,
            accessible_action: false,
            accessible_text: false,
            accessible_selection: false,
            children_count: 0,
            index_in_parent: 0,
            parent,
            depth,
            text: String::new(),
            actions: Vec::new(),
        };
        assert(view_strings(n.states@) =~= seq![]);
        assert(view_strings(n.states_en_us@) =~= seq![]);
        assert(view_strings(n.actions@) =~= seq![]);
        assert(n@ == blank_node(r.jobject, depth, handle, parent, children@));
        n.refresh_info(r);
        n
    }
}

/// Reading an element anew copies what its info says into the node, field by
/// field (the geometry, flags, counts, name and description as read), takes the
/// element's text, and leaves the node's place in the tree (handle, object, parent,
/// children, depth) as it was; without info, the described fields stay as they were.
pub proof fn law_refreshed_copies_info(n: NodeV, r: RawNode)
    ensures
        ({
            let m = refreshed(n, r);
            &&& m.handle == n.handle && m.jobject == n.jobject && m.parent == n.parent
            &&& m.children == n.children && m.depth == n.depth
            &&& m.text == r.text@
            &&& match r.info {
                Some(i) => {
                    &&& m.x == i.x && m.y == i.y && m.width == i.width && m.height == i.height
                    &&& m.name == i.name@ && m.description == i.description@
                    &&& m.accessible_action == (i.accessible_action != 0)
                    &&& m.accessible_text == (i.accessible_text != 0)
                    &&& m.accessible_selection == (i.accessible_selection != 0)
                    &&& m.children_count == i.children_count && m.index_in_parent == i.index_in_parent
                },
                None => {
                    &&& m.x == n.x && m.y == n.y && m.width == n.width && m.height == n.height
                    &&& m.name == n.name && m.description == n.description && m.role == n.role
                    &&& m.states == n.states && m.states_en_us == n.states_en_us
                    &&& m.accessible_action == n.accessible_action && m.accessible_text == n.accessible_text
                    &&& m.accessible_selection == n.accessible_selection
                    &&& m.children_count == n.children_count && m.index_in_parent == n.index_in_parent
                },
            }
        }),
{
}

/// The node built for an element sits where it is put (handle, object, depth,
/// parent, children) and holds what the element's info says; an element without
/// info gives a node with empty texts and zero geometry.
pub proof fn law_node_from_element(r: RawNode, depth: i32, handle: NodeHandle, parent: Option<NodeHandle>, children: Seq<NodeHandle>)
    ensures
        ({
            let m = node_from(r, depth, handle, parent, children);
            &&& m.handle == handle && m.jobject == r.jobject && m.depth == depth
            &&& m.parent == parent && m.children == children && m.text == r.text@
            &&& match r.info {
                Some(i) => {
                    &&& m.x == i.x && m.y == i.y && m.width == i.width && m.height == i.height
                    &&& m.name == i.name@ && m.description == i.description@
                    &&& m.children_count == i.children_count && m.index_in_parent == i.index_in_parent
                },
                None => {
                    &&& m.x == 0 && m.y == 0 && m.width == 0 && m.height == 0
                    &&& m.name.len() == 0 && m.description.len() == 0 && m.role.len() == 0
                    &&& m.children_count == 0 && m.index_in_parent == 0
                },
            }
        }),
{
}

} // verus!
