use vstd::prelude::*;

use crate::attrs::{lemma_assoc_fold_identity, unique_keys};
use crate::event::EventView;
use crate::model::{
    append_text_top, flat, flat_childs, fresh_node, parse_of, push_child_top, run, ParseOutcome,
};
use crate::node::NodeView;

verus! {

/// A tree fit for the event-level round trip: every name is non-empty,
/// every attribute mapping has unique keys, and every content is invariant
/// under trimming.  Content with leading or trailing whitespace loses it
/// in a round trip, since the builder trims every text fragment.
pub open spec fn round_trippable(n: NodeView) -> bool
    decreases n, 1int,
{
    &&& n.name.len() > 0
    &&& unique_keys(n.attributes)
    &&& crate::backend::trim_of(n.content) == n.content
    &&& round_trippable_childs(n.childs, 0)
}

/// Round-trippability of every child from position `i` on.
pub open spec fn round_trippable_childs(cs: Seq<NodeView>, i: int) -> bool
    decreases cs, cs.len() - i,
{
    if i < 0 || i >= cs.len() {
        true
    } else {
        round_trippable(cs[i]) && round_trippable_childs(cs, i + 1)
    }
}

/// The stack with every child of `cs` from position `i` on appended to the
/// childs of the innermost open node.
spec fn append_childs_top(stack: Seq<NodeView>, cs: Seq<NodeView>, i: int) -> Seq<NodeView>
    recommends
        stack.len() > 0,
{
    let top = stack.last();
    stack.update(stack.len() - 1, NodeView { childs: top.childs + cs.skip(i), ..top })
}

/// Feeding the flattening of a round-trippable tree to the machine
/// attaches that tree as the newest child of the innermost open node and
/// goes on with the rest; over the empty stack, it completes with exactly
/// that tree.
proof fn lemma_run_flat(stack: Seq<NodeView>, n: NodeView, rest: Seq<EventView>)
    requires
        round_trippable(n),
    ensures
        stack.len() > 0 ==> run(stack, flat(n) + rest) == run(push_child_top(stack, n), rest),
        stack.len() == 0 ==> run(stack, flat(n) + rest) == ParseOutcome::Complete(n),
    decreases n, 1int,
{
    lemma_assoc_fold_identity(n.attributes);
    let evs = flat(n) + rest;
    if n.childs.len() == 0 && n.content.len() == 0 {
        assert(evs.first() == EventView::Empty { name: n.name, attributes: n.attributes });
        let c = fresh_node(n.name, n.attributes);
        assert(c.name == n.name);
        assert(c.attributes == n.attributes);
        assert(c.content =~= n.content);
        assert(c.childs =~= n.childs);
        assert(c =~= n);
        assert(evs.drop_first() =~= rest);
        if stack.len() > 0 {
            assert(run(stack, evs) == run(push_child_top(stack, c), evs.drop_first()));
        }
    } else {
        let endpart = seq![EventView::End { name: n.name }];
        let n0 = NodeView { childs: Seq::empty(), ..n };
        assert(evs.first() == EventView::Start { name: n.name, attributes: n.attributes });
        let s1 = stack.push(fresh_node(n.name, n.attributes));
        let tail1 = evs.drop_first();
        if n.content.len() > 0 {
            assert(tail1 =~= seq![EventView::Text { text: n.content }] + (flat_childs(n.childs, 0)
                + (endpart + rest)));
            assert(tail1.first() == EventView::Text { text: n.content });
            assert(tail1.drop_first() =~= flat_childs(n.childs, 0) + (endpart + rest));
            let s2 = append_text_top(s1, n.content);
            assert(s2 =~= stack.push(n0)) by {
                assert(s1.last() == fresh_node(n.name, n.attributes));
                assert(s2.last().name == n0.name);
                assert(s2.last().content =~= n0.content);
                assert(s2.last().attributes == n0.attributes);
                assert(s2.last().childs =~= n0.childs);
                assert(s2.last() =~= n0);
            }
            lemma_run_flat_childs(stack.push(n0), n.childs, 0, endpart + rest);
        } else {
            assert(tail1 =~= flat_childs(n.childs, 0) + (endpart + rest));
            assert(s1 =~= stack.push(n0)) by {
                let c = fresh_node(n.name, n.attributes);
                assert(c.name == n0.name);
                assert(c.content =~= n0.content);
                assert(c.attributes == n0.attributes);
                assert(c.childs =~= n0.childs);
                assert(c =~= n0);
            }
            lemma_run_flat_childs(stack.push(n0), n.childs, 0, endpart + rest);
        }
        let sdone = append_childs_top(stack.push(n0), n.childs, 0);
        assert(sdone =~= stack.push(n)) by {
            assert(sdone.last().name == n.name);
            assert(sdone.last().content =~= n.content);
            assert(sdone.last().attributes == n.attributes);
            assert(sdone.last().childs =~= n.childs) by {
                assert(n0.childs + n.childs.skip(0) =~= n.childs);
            }
            assert(sdone.last() =~= n);
            assert(forall|k: int| 0 <= k < stack.len() ==> sdone[k] == stack.push(n)[k]);
        }
        let evs_end = endpart + rest;
        assert(run(stack, evs) == run(s1, tail1));
        if n.content.len() > 0 {
            let s2 = append_text_top(s1, n.content);
            assert(run(s1, tail1) == run(s2, tail1.drop_first()));
            assert(run(s2, tail1.drop_first()) == run(sdone, evs_end));
        } else {
            assert(run(s1, tail1) == run(sdone, evs_end));
        }
        // The closing tag: over the empty stack only the root is open and
        // the reduction completes; otherwise the finished tree is handed
        // to its parent.
        assert(evs_end.first() == EventView::End { name: n.name });
        assert(evs_end.drop_first() =~= rest);
        assert(stack.push(n).last() == n);
        if stack.len() > 0 {
            assert(stack.push(n).len() >= 2);
            assert(stack.push(n).drop_last() =~= stack);
            assert(run(sdone, evs_end) == run(push_child_top(stack, n), rest));
            assert(run(stack, flat(n) + rest) == run(push_child_top(stack, n), rest));
        } else {
            assert(stack.push(n).len() == 1);
            assert(run(sdone, evs_end) == ParseOutcome::Complete(n));
        }
    }
}

/// Feeding the flattenings of the childs from position `i` on, in order,
/// appends them all to the childs of the innermost open node.
proof fn lemma_run_flat_childs(
    stack: Seq<NodeView>,
    cs: Seq<NodeView>,
    i: int,
    rest: Seq<EventView>,
)
    requires
        stack.len() > 0,
        0 <= i <= cs.len(),
        round_trippable_childs(cs, i),
    ensures
        run(stack, flat_childs(cs, i) + rest) == run(append_childs_top(stack, cs, i), rest),
    decreases cs, cs.len() - i,
{
    if i == cs.len() {
        assert(flat_childs(cs, i) + rest =~= rest);
        assert(append_childs_top(stack, cs, i) =~= stack) by {
            assert(stack.last().childs + cs.skip(i) =~= stack.last().childs);
            assert(append_childs_top(stack, cs, i).last() =~= stack.last());
        }
    } else {
        assert(flat_childs(cs, i) + rest =~= flat(cs[i]) + (flat_childs(cs, i + 1) + rest));
        lemma_run_flat(stack, cs[i], flat_childs(cs, i + 1) + rest);
        let s2 = push_child_top(stack, cs[i]);
        lemma_run_flat_childs(s2, cs, i + 1, rest);
        assert(append_childs_top(s2, cs, i + 1) =~= append_childs_top(stack, cs, i)) by {
            assert(stack.last().childs.push(cs[i]) + cs.skip(i + 1) =~= stack.last().childs
                + cs.skip(i));
            assert(append_childs_top(s2, cs, i + 1).last() =~= append_childs_top(
                stack,
                cs,
                i,
            ).last());
            assert(forall|k: int|
                0 <= k < stack.len() - 1 ==> append_childs_top(s2, cs, i + 1)[k] == stack[k]);
        }
    }
}

/// THE ROUND TRIP: parsing inverts flattening.  The event sequence that a
/// round-trippable tree flattens to reduces back to exactly that tree, so
/// writing a tree and reading it again loses nothing.
pub proof fn lemma_round_trip(n: NodeView)
    requires
        round_trippable(n),
    ensures
        parse_of(flat(n)) == ParseOutcome::Complete(n),
{
    lemma_run_flat(Seq::empty(), n, Seq::empty());
    assert(flat(n) + Seq::<EventView>::empty() =~= flat(n));
}

} // verus!
