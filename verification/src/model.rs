use vstd::prelude::*;

use crate::attrs::{assoc_fold, AttrsView};
use crate::backend::trim_of;
use crate::event::EventView;
use crate::node::NodeView;

verus! {

// The read path is modelled as a small machine: a stack of open nodes is
// driven by one event at a time.  `step` is the transition, `run` folds a
// whole event sequence, and `parse_of` is the machine started on the empty
// stack.  The write path is modelled by `flat`, the flattening of a tree
// into the event sequence that the writer emits.

/// The effect of one event on the builder's stack.
pub ghost enum StepView {
    /// The reduction continues with this stack.
    Going(Seq<NodeView>),
    /// The document root is complete; the reduction stops.
    Finished(NodeView),
    /// The input ended before the tree was complete.
    Truncated,
}

/// The outcome of reducing a whole event sequence.
pub ghost enum ParseOutcome {
    /// A complete document root.
    Complete(NodeView),
    /// The input ended before the tree was complete.
    Truncated,
}

/// The node that a start or empty tag creates: raw attribute pairs are
/// reduced into a mapping (last value wins), content and childs are empty.
pub open spec fn fresh_node(name: Seq<char>, attributes: AttrsView) -> NodeView {
    NodeView {
        name,
        content: Seq::empty(),
        attributes: assoc_fold(attributes),
        childs: Seq::empty(),
    }
}

/// The stack with `c` appended to the childs of the innermost open node.
pub open spec fn push_child_top(stack: Seq<NodeView>, c: NodeView) -> Seq<NodeView>
    recommends
        stack.len() > 0,
{
    let top = stack.last();
    stack.update(stack.len() - 1, NodeView { childs: top.childs.push(c), ..top })
}

/// The stack with `t` appended to the content of the innermost open node.
pub open spec fn append_text_top(stack: Seq<NodeView>, t: Seq<char>) -> Seq<NodeView>
    recommends
        stack.len() > 0,
{
    let top = stack.last();
    stack.update(stack.len() - 1, NodeView { content: top.content + t, ..top })
}

/// One transition of the builder's stack machine.
///
/// A start tag opens a node; an empty tag attaches a leaf to the innermost
/// open node, or completes the document when none is open; an end tag
/// closes the innermost open node (a stray end tag is tolerated and changes
/// nothing); text is trimmed and, when anything remains, appended to the
/// innermost open node's content (text outside every node is discarded);
/// the end of input truncates the reduction; other events are ignored.
pub open spec fn step(stack: Seq<NodeView>, ev: EventView) -> StepView {
    match ev {
        EventView::Start { name, attributes } => StepView::Going(
            stack.push(fresh_node(name, attributes)),
        ),
        EventView::Empty { name, attributes } => {
            let c = fresh_node(name, attributes);
            if stack.len() == 0 {
                StepView::Finished(c)
            } else {
                StepView::Going(push_child_top(stack, c))
            }
        },
        EventView::End { .. } => {
            if stack.len() == 0 {
                StepView::Going(stack)
            } else if stack.len() == 1 {
                StepView::Finished(stack.last())
            } else {
                StepView::Going(push_child_top(stack.drop_last(), stack.last()))
            }
        },
        EventView::Text { text } => {
            let t = trim_of(text);
            if t.len() == 0 || stack.len() == 0 {
                StepView::Going(stack)
            } else {
                StepView::Going(append_text_top(stack, t))
            }
        },
        EventView::Eof => StepView::Truncated,
        EventView::Other => StepView::Going(stack),
    }
}

/// Runs the stack machine over an event sequence.  A sequence that runs out
/// of events without completing a root is truncated input.
pub open spec fn run(stack: Seq<NodeView>, events: Seq<EventView>) -> ParseOutcome
    decreases events.len(),
{
    if events.len() == 0 {
        ParseOutcome::Truncated
    } else {
        match step(stack, events.first()) {
            StepView::Going(s) => run(s, events.drop_first()),
            StepView::Finished(c) => ParseOutcome::Complete(c),
            StepView::Truncated => ParseOutcome::Truncated,
        }
    }
}

/// One machine step keeps every node on the stack well-formed, and a
/// completed root is well-formed.
pub proof fn lemma_step_wf(stack: Seq<NodeView>, ev: EventView)
    requires
        forall|i: int| 0 <= i < stack.len() ==> (#[trigger] stack[i]).wf(),
    ensures
        match step(stack, ev) {
            StepView::Going(s) => forall|i: int| 0 <= i < s.len() ==> (#[trigger] s[i]).wf(),
            StepView::Finished(c) => c.wf(),
            StepView::Truncated => true,
        },
{
    match ev {
        EventView::Start { name, attributes } => {
            lemma_fresh_node_wf(name, attributes);
        },
        EventView::Empty { name, attributes } => {
            lemma_fresh_node_wf(name, attributes);
            if stack.len() > 0 {
                lemma_push_child_top_wf(stack, fresh_node(name, attributes));
            }
        },
        EventView::End { .. } => {
            if stack.len() > 1 {
                let inner = stack.drop_last();
                assert(forall|i: int|
                    0 <= i < inner.len() ==> (#[trigger] inner[i]) == stack[i]);
                lemma_push_child_top_wf(inner, stack.last());
            }
        },
        EventView::Text { text } => {
            let t = trim_of(text);
            if t.len() != 0 && stack.len() > 0 {
                let top = stack.last();
                assert((NodeView { content: top.content + t, ..top }).wf() == top.wf());
            }
        },
        EventView::Eof => {},
        EventView::Other => {},
    }
}

/// A freshly created node is well-formed.
pub proof fn lemma_fresh_node_wf(name: Seq<char>, attributes: AttrsView)
    ensures
        fresh_node(name, attributes).wf(),
{
    crate::attrs::lemma_assoc_set_all_unique(Seq::empty(), attributes);
}

/// Attaching a well-formed child to the innermost open node keeps every
/// node on the stack well-formed.
pub proof fn lemma_push_child_top_wf(stack: Seq<NodeView>, c: NodeView)
    requires
        stack.len() > 0,
        forall|i: int| 0 <= i < stack.len() ==> (#[trigger] stack[i]).wf(),
        c.wf(),
    ensures
        forall|i: int|
            0 <= i < push_child_top(stack, c).len() ==> (#[trigger] push_child_top(stack, c)[
                i
            ]).wf(),
{
    let top = stack.last();
    let new_top = NodeView { childs: top.childs.push(c), ..top };
    crate::node::lemma_wf_childs(top.childs, 0);
    crate::node::lemma_wf_childs(new_top.childs, 0);
    assert(forall|j: int|
        0 <= j < top.childs.len() ==> (#[trigger] new_top.childs[j]) == top.childs[j]);
    assert(new_top.childs.last() == c);
    assert(new_top.wf());
}

/// Whether an event's tag name, if it has one, is non-empty.
pub open spec fn tag_name_nonempty(ev: EventView) -> bool {
    match ev {
        EventView::Start { name, .. } => name.len() > 0,
        EventView::Empty { name, .. } => name.len() > 0,
        _ => true,
    }
}

/// Whether every tag name in the sequence is non-empty.
pub open spec fn tags_nonempty(evs: Seq<EventView>) -> bool {
    forall|i: int| 0 <= i < evs.len() ==> tag_name_nonempty(#[trigger] evs[i])
}

/// One machine step on an event with a non-empty tag name keeps every name
/// on the stack non-empty, and a completed root carries non-empty names.
pub proof fn lemma_step_names(stack: Seq<NodeView>, ev: EventView)
    requires
        forall|i: int| 0 <= i < stack.len() ==> (#[trigger] stack[i]).names_nonempty(),
        tag_name_nonempty(ev),
    ensures
        match step(stack, ev) {
            StepView::Going(s) => forall|i: int|
                0 <= i < s.len() ==> (#[trigger] s[i]).names_nonempty(),
            StepView::Finished(c) => c.names_nonempty(),
            StepView::Truncated => true,
        },
{
    match ev {
        EventView::Start { name, attributes } => {
            lemma_fresh_node_names(name, attributes);
        },
        EventView::Empty { name, attributes } => {
            lemma_fresh_node_names(name, attributes);
            if stack.len() > 0 {
                lemma_push_child_top_names(stack, fresh_node(name, attributes));
            }
        },
        EventView::End { .. } => {
            if stack.len() > 1 {
                let inner = stack.drop_last();
                assert(forall|i: int|
                    0 <= i < inner.len() ==> (#[trigger] inner[i]) == stack[i]);
                lemma_push_child_top_names(inner, stack.last());
            }
        },
        EventView::Text { text } => {
            let t = trim_of(text);
            if t.len() != 0 && stack.len() > 0 {
                let top = stack.last();
                assert((NodeView { content: top.content + t, ..top }).names_nonempty()
                    == top.names_nonempty());
            }
        },
        EventView::Eof => {},
        EventView::Other => {},
    }
}

/// A freshly created node with a non-empty name carries non-empty names.
proof fn lemma_fresh_node_names(name: Seq<char>, attributes: AttrsView)
    requires
        name.len() > 0,
    ensures
        fresh_node(name, attributes).names_nonempty(),
{
}

/// Attaching a child with non-empty names to the innermost open node keeps
/// every name on the stack non-empty.
proof fn lemma_push_child_top_names(stack: Seq<NodeView>, c: NodeView)
    requires
        stack.len() > 0,
        forall|i: int| 0 <= i < stack.len() ==> (#[trigger] stack[i]).names_nonempty(),
        c.names_nonempty(),
    ensures
        forall|i: int|
            0 <= i < push_child_top(stack, c).len() ==> (#[trigger] push_child_top(stack, c)[
                i
            ]).names_nonempty(),
{
    let top = stack.last();
    let new_top = NodeView { childs: top.childs.push(c), ..top };
    crate::node::lemma_names_nonempty_childs(top.childs, 0);
    crate::node::lemma_names_nonempty_childs(new_top.childs, 0);
    assert(forall|j: int|
        0 <= j < top.childs.len() ==> (#[trigger] new_top.childs[j]) == top.childs[j]);
    assert(new_top.childs.last() == c);
    assert(new_top.names_nonempty());
}

/// The tree that reducing an event sequence yields, if any.
pub open spec fn parse_of(events: Seq<EventView>) -> ParseOutcome {
    run(Seq::empty(), events)
}

/// The event sequence that flattening a tree emits, depth-first: a leaf
/// without content becomes one self-closing tag; any other node becomes an
/// opening tag, its content as text when non-empty, its flattened childs in
/// order, and a matching closing tag.
pub open spec fn flat(n: NodeView) -> Seq<EventView>
    decreases n, 1int,
{
    if n.childs.len() == 0 && n.content.len() == 0 {
        seq![EventView::Empty { name: n.name, attributes: n.attributes }]
    } else {
        seq![EventView::Start { name: n.name, attributes: n.attributes }] + (
        if n.content.len() > 0 {
            seq![EventView::Text { text: n.content }]
        } else {
            Seq::empty()
        }) + flat_childs(n.childs, 0) + seq![EventView::End { name: n.name }]
    }
}

/// The flattening of every child from position `i` on, concatenated.
pub open spec fn flat_childs(cs: Seq<NodeView>, i: int) -> Seq<EventView>
    decreases cs, cs.len() - i,
{
    if i < 0 || i >= cs.len() {
        Seq::empty()
    } else {
        flat(cs[i]) + flat_childs(cs, i + 1)
    }
}

} // verus!
