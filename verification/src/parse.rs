use vstd::prelude::*;

use crate::attrs::attrs_view;
use crate::backend;
use crate::backend::RawEvent;
use crate::error::Error;
use crate::event::{events_view, EventView, XmlEvent};
use crate::model::{
    append_text_top, fresh_node, lemma_step_names, lemma_step_wf, parse_of, push_child_top, run,
    step, tags_nonempty, ParseOutcome, StepView,
};
use crate::node::{Node, NodeView};

verus! {

/// The views of the open nodes on the builder's stack, innermost last.
pub open spec fn stack_view(stack: Seq<Node>) -> Seq<NodeView> {
    stack.map_values(|n: Node| n@)
}

/// Applies one decoded event to the stack of open nodes, exactly as the
/// machine transition [`step`] describes: `None` while the reduction goes
/// on, the completed root or the truncation error when it stops.
fn apply_event(stack: &mut Vec<Node>, ev: &XmlEvent) -> (r: Option<Result<Node, Error>>)
    ensures
        match step(stack_view(old(stack)@), ev@) {
            StepView::Going(s) => r is None && stack_view(final(stack)@) == s,
            StepView::Finished(c) => r matches Some(res) && res matches Ok(n) && n@ == c,
            StepView::Truncated => r matches Some(res) && res matches Err(e) && e matches Error::Eof,
        },
{
    let ghost s0 = stack_view(stack@);
    match ev {
        XmlEvent::Start { name, attributes } => {
            let c = Node::from_tag(name.clone(), attributes);
            stack.push(c);
            proof {
                assert(stack_view(stack@) =~= s0.push(fresh_node(name@, attrs_view(attributes@))));
            }
            None
        },
        XmlEvent::Empty { name, attributes } => {
            let c = Node::from_tag(name.clone(), attributes);
            match stack.pop() {
                Some(mut parent) => {
                    parent.push_child(c);
                    stack.push(parent);
                    proof {
                        assert(stack_view(stack@) =~= push_child_top(
                            s0,
                            fresh_node(name@, attrs_view(attributes@)),
                        ));
                    }
                    None
                },
                None => Some(Ok(c)),
            }
        },
        XmlEvent::End { .. } => {
            match stack.pop() {
                Some(c) => {
                    match stack.pop() {
                        Some(mut parent) => {
                            parent.push_child(c);
                            stack.push(parent);
                            proof {
                                assert(stack_view(stack@) =~= push_child_top(
                                    s0.drop_last(),
                                    s0.last(),
                                ));
                            }
                            None
                        },
                        None => Some(Ok(c)),
                    }
                },
                None => {
                    // A stray closing tag: tolerated, nothing changes.
                    proof {
                        assert(stack_view(stack@) =~= s0);
                    }
                    None
                },
            }
        },
        XmlEvent::Text { text } => {
            let t = backend::trim_str(text.as_str());
            if t.is_empty() {
                proof {
                    assert(stack_view(stack@) =~= s0);
                }
                None
            } else {
                match stack.pop() {
                    Some(mut top) => {
                        top.append_content(t);
                        stack.push(top);
                        proof {
                            assert(stack_view(stack@) =~= append_text_top(s0, t@));
                        }
                        None
                    },
                    None => {
                        // Text outside of any node: discarded.
                        proof {
                            assert(stack_view(stack@) =~= s0);
                        }
                        None
                    },
                }
            }
        },
        XmlEvent::Eof => Some(Err(Error::Eof)),
        XmlEvent::Other => None,
    }
}

impl Node {
    /// Reduces a sequence of decoded parse events into a document tree,
    /// with an explicit stack and in a single pass, as [`parse_of`]
    /// describes it.
    ///
    /// # Errors
    ///
    /// This function will return an end-of-input error if the sequence
    /// ends, or reports the end of the input, before a complete tree was
    /// built.
    pub fn from_events(events: &Vec<XmlEvent>) -> (r: Result<Node, Error>)
        ensures
            match r {
                Ok(n) => parse_of(events_view(events@)) == ParseOutcome::Complete(n@) && n@.wf(),
                Err(e) => parse_of(events_view(events@)) == ParseOutcome::Truncated && e matches Error::Eof,
            },
            tags_nonempty(events_view(events@)) ==> (r matches Ok(n) ==> n@.names_nonempty()),
    {
        let mut stack: Vec<Node> = Vec::new();
        let ghost evs = events_view(events@);
        proof {
            assert(stack_view(stack@) =~= Seq::<NodeView>::empty());
            assert(evs.skip(0) =~= evs);
        }
        let n = events.len();
        for i in 0..n
            invariant
                n == events.len(),
                evs == events_view(events@),
                evs.len() == n,
                run(stack_view(stack@), evs.skip(i as int)) == parse_of(evs),
                forall|k: int|
                    0 <= k < stack_view(stack@).len() ==> (#[trigger] stack_view(stack@)[k]).wf(),
                tags_nonempty(evs) ==> forall|k: int|
                    0 <= k < stack_view(stack@).len() ==> (#[trigger] stack_view(
                        stack@,
                    )[k]).names_nonempty(),
        {
            let ghost s0 = stack_view(stack@);
            proof {
                assert(evs.skip(i as int).first() == evs[i as int]);
                assert(evs.skip(i as int).drop_first() =~= evs.skip(i + 1));
                assert(events@[i as int]@ == evs[i as int]);
                lemma_step_wf(s0, evs[i as int]);
                if tags_nonempty(evs) {
                    lemma_step_names(s0, evs[i as int]);
                }
            }
            match apply_event(&mut stack, &events[i]) {
                None => {},
                Some(res) => {
                    return res;
                },
            }
        }
        proof {
            assert(evs.skip(n as int) =~= Seq::<EventView>::empty());
        }
        Err(Error::Eof)
    }

    /// Parses the stream from a [`quick_xml::Reader`] to a [`Node`].
    ///
    /// Which events come is the tokenizer's affair; whatever they are,
    /// every one of them is decoded and fed to the same verified reduction
    /// whose exact contract [`Node::from_events`] states, so a returned
    /// tree is well-formed.  Every name in a returned tree comes verbatim
    /// from a tag the tokenizer handed over, so the names are non-empty
    /// whenever the tokenizer's are ([`Node::from_events`] states that
    /// implication over a known event sequence).
    ///
    /// # Errors
    ///
    /// This function will return an error if the tokenizer reports one
    /// (rendered to text), if a tag carries malformed attribute syntax, or
    /// if the stream ends before a complete tree was built; nothing else,
    /// and the parse aborts at the first such event.  A source that yields
    /// more events than a machine word counts is reported as truncated.
    pub fn read_from<R: std::io::BufRead>(reader: &mut quick_xml::Reader<R>) -> (r: Result<
        Node,
        Error,
    >)
        ensures
            r matches Ok(n) ==> n@.wf(),
            r matches Err(e) ==> (e matches Error::XmlError(_) || e matches Error::AttributeXmlError(_)
                || e matches Error::Eof),
    {
        let mut stack: Vec<Node> = Vec::new();
        let mut buf: Vec<u8> = Vec::new();
        for _fuel in 0..usize::MAX
            invariant
                forall|k: int|
                    0 <= k < stack_view(stack@).len() ==> (#[trigger] stack_view(stack@)[k]).wf(),
        {
            let raw = match backend::read_raw_event(reader, &mut buf) {
                Ok(raw) => raw,
                Err(msg) => {
                    return Err(Error::XmlError(msg));
                },
            };
            let ev = match raw {
                RawEvent::Start(e) => {
                    match decode_tag(&e) {
                        Ok((name, attributes)) => XmlEvent::Start { name, attributes },
                        Err(err) => {
                            return Err(err);
                        },
                    }
                },
                RawEvent::Empty(e) => {
                    match decode_tag(&e) {
                        Ok((name, attributes)) => XmlEvent::Empty { name, attributes },
                        Err(err) => {
                            return Err(err);
                        },
                    }
                },
                RawEvent::End(name) => XmlEvent::End { name },
                RawEvent::Text(text) => XmlEvent::Text { text },
                RawEvent::Eof => XmlEvent::Eof,
                RawEvent::Other => XmlEvent::Other,
            };
            proof {
                lemma_step_wf(stack_view(stack@), ev@);
            }
            match apply_event(&mut stack, &ev) {
                None => {},
                Some(res) => {
                    return res;
                },
            }
        }
        Err(Error::Eof)
    }
}

impl std::str::FromStr for Node {
    type Err = Error;

    /// Parses a textual document held in memory (see [`Node::read_from`]).
    fn from_str(s: &str) -> Result<Node, Error> {
        let mut reader = backend::reader_from_str(s);
        Node::read_from(&mut reader)
    }
}

/// Decodes a raw tag into its name and its attribute pairs, in document
/// order and duplicates included.  Malformed attribute syntax aborts with
/// the tokenizer's attribute error.
fn decode_tag(e: &quick_xml::events::BytesStart<'static>) -> (r: Result<
    (String, Vec<(String, String)>),
    Error,
>)
    ensures
        r matches Err(err) ==> err matches Error::AttributeXmlError(_),
{
    match backend::decode_tag(e) {
        Ok(parts) => Ok(parts),
        Err(err) => Err(Error::AttributeXmlError(err)),
    }
}

} // verus!
