//! Construction of a directed-graph description of a machine, for diagram
//! export: one node per labelled state (the start state marked distinctly),
//! one shadow node per state that has an entry or exit hook, one edge per
//! transition labelled with its name and the event's label, and one edge per
//! hook between a state's real node and its shadow node. Rendering the
//! description (and writing it anywhere) is left to the caller.

use vstd::prelude::*;

use crate::machine::{EntryExit, TransitionTarget};

verus! {

/// The shape a node is drawn with.
#[derive(Debug, Clone, Copy, PartialEq, Eq, Structural)]
pub enum NodeShape {
    /// the renderer's default shape for a state
    Default,
    /// marks the start state
    Diamond,
    /// shadow nodes carrying hook annotations
    Plain,
}

/// A node of the diagram: the real node of a state, or the shadow node that
/// carries a state's entry or exit hook annotation.
#[derive(Debug, Clone, PartialEq, Eq)]
pub struct DotNode {
    pub state: u64,
    /// `None` for the state's real node; the hook's direction for a shadow
    /// node
    pub hook: Option<EntryExit>,
    pub shape: NodeShape,
    /// shadow nodes are drawn dashed
    pub dashed: bool,
    /// the state's label on a real node; a shadow node is labelled after its
    /// hook's direction
    pub label: Option<String>,
}

/// An edge of the diagram: a transition between two real nodes, or a hook's
/// edge between a state's real node and its shadow node.
#[derive(Debug, Clone, PartialEq, Eq)]
pub struct DotEdge {
    pub from_state: u64,
    pub from_hook: Option<EntryExit>,
    pub to_state: u64,
    pub to_hook: Option<EntryExit>,
    /// the display name of the transition or hook
    pub name: Option<String>,
    /// the label of the triggering event; `None` on hook edges
    pub event_label: Option<String>,
}

/// A machine's diagram.
#[derive(Debug, Clone, PartialEq, Eq)]
pub struct DotGraph {
    pub nodes: Vec<DotNode>,
    pub edges: Vec<DotEdge>,
    pub start_state: u64,
}

/// The label registered for `key` in a label list: the first entry's label,
/// if any.
pub open spec fn label_of(labels: Seq<(u64, String)>, key: u64) -> Option<String>
    decreases labels.len(),
{
    if labels.len() == 0 {
        None
    } else if labels.first().0 == key {
        Some(labels.first().1)
    } else {
        label_of(labels.drop_first(), key)
    }
}

/// The nodes one labelled state contributes: its real node, then a shadow
/// node for each hook direction registered for it.
pub open spec fn state_nodes(
    s: u64,
    label: String,
    hm: Map<(u64, EntryExit), (u64, Option<String>)>,
    start: u64,
) -> Seq<DotNode> {
    seq![
        DotNode {
            state: s,
            hook: None,
            shape: if s == start {
                NodeShape::Diamond
            } else {
                NodeShape::Default
            },
            dashed: false,
            label: Some(label),
        },
    ] + (if hm.contains_key((s, EntryExit::EntryTransition)) {
        seq![
            DotNode {
                state: s,
                hook: Some(EntryExit::EntryTransition),
                shape: NodeShape::Plain,
                dashed: true,
                label: None,
            },
        ]
    } else {
        Seq::empty()
    }) + (if hm.contains_key((s, EntryExit::ExitTransition)) {
        seq![
            DotNode {
                state: s,
                hook: Some(EntryExit::ExitTransition),
                shape: NodeShape::Plain,
                dashed: true,
                label: None,
            },
        ]
    } else {
        Seq::empty()
    })
}

/// The diagram's nodes: those of each labelled state, in list order.
pub open spec fn graph_nodes(
    labels: Seq<(u64, String)>,
    hm: Map<(u64, EntryExit), (u64, Option<String>)>,
    start: u64,
) -> Seq<DotNode>
    decreases labels.len(),
{
    if labels.len() == 0 {
        Seq::empty()
    } else {
        graph_nodes(labels.drop_last(), hm, start) + state_nodes(
            labels.last().0,
            labels.last().1,
            hm,
            start,
        )
    }
}

/// The edge one transition table entry contributes.
pub open spec fn transition_edge(
    key: (u64, u64),
    t: TransitionTarget,
    event_labels: Seq<(u64, String)>,
) -> DotEdge {
    DotEdge {
        from_state: key.0,
        from_hook: None,
        to_state: t.spec_endstate(),
        to_hook: None,
        name: t.spec_name(),
        event_label: label_of(event_labels, key.1),
    }
}

/// The edges of all transition table entries, in table order.
pub open spec fn transition_edges(
    entries: Seq<((u64, u64), TransitionTarget)>,
    event_labels: Seq<(u64, String)>,
) -> Seq<DotEdge>
    decreases entries.len(),
{
    if entries.len() == 0 {
        Seq::empty()
    } else {
        transition_edges(entries.drop_last(), event_labels).push(
            transition_edge(entries.last().0, entries.last().1, event_labels),
        )
    }
}

/// The edge one hook table entry contributes: an entry hook points from the
/// shadow node into the state, an exit hook from the state out to the shadow
/// node.
pub open spec fn hook_edge(key: (u64, EntryExit), name: Option<String>) -> DotEdge {
    if key.1 == EntryExit::EntryTransition {
        DotEdge {
            from_state: key.0,
            from_hook: Some(EntryExit::EntryTransition),
            to_state: key.0,
            to_hook: None,
            name,
            event_label: None,
        }
    } else {
        DotEdge {
            from_state: key.0,
            from_hook: None,
            to_state: key.0,
            to_hook: Some(EntryExit::ExitTransition),
            name,
            event_label: None,
        }
    }
}

/// The edges of all hook table entries, in table order.
pub open spec fn hook_edges(entries: Seq<((u64, EntryExit), (u64, Option<String>))>) -> Seq<
    DotEdge,
>
    decreases entries.len(),
{
    if entries.len() == 0 {
        Seq::empty()
    } else {
        hook_edges(entries.drop_last()).push(hook_edge(entries.last().0, entries.last().1.1))
    }
}

/// Clone an optional display name out of a table.
pub(crate) fn clone_opt_name(o: &Option<String>) -> (r: Option<String>)
    ensures
        r == *o,
{
    match o {
        None => None,
        Some(s) => Some(s.clone()),
    }
}

/// Look the label of `key` up in a label list.
pub fn lookup_label(labels: &Vec<(u64, String)>, key: u64) -> (r: Option<String>)
    ensures
        r == label_of(labels@, key),
{
    let n = labels.len();
    let mut i: usize = 0;
    proof {
        assert(labels@.skip(0) =~= labels@);
    }
    while i < n
        invariant
            i <= n,
            n == labels@.len(),
            label_of(labels@, key) == label_of(labels@.skip(i as int), key),
        decreases n - i,
    {
        let e = &labels[i];
        proof {
            assert(labels@.skip(i as int).first() == labels@[i as int]);
            assert(labels@.skip(i as int).drop_first() =~= labels@.skip(i as int + 1));
        }
        if e.0 == key {
            return Some(e.1.clone());
        }
        i = i + 1;
    }
    proof {
        assert(labels@.skip(n as int) =~= Seq::<(u64, String)>::empty());
    }
    None
}

} // verus!
