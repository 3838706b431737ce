use vstd::prelude::*;

use crate::attrs::{attrs_view, AttrsView};

verus! {

// A decoded parse event.  The tokenizer reports tags, text runs and the end
// of the input; the tree builder reduces a sequence of these into one tree.
// Attribute pairs are carried raw, in document order, possibly with
// duplicate keys; reducing them into a node's mapping is the builder's job.

/// The view of a decoded parse event.
#[verifier::ext_equal]
pub ghost enum EventView {
    /// An opening tag with its raw attribute pairs.
    Start { name: Seq<char>, attributes: AttrsView },
    /// A self-closing tag with its raw attribute pairs.
    Empty { name: Seq<char>, attributes: AttrsView },
    /// A closing tag.
    End { name: Seq<char> },
    /// A run of character data, not yet trimmed.
    Text { text: Seq<char> },
    /// The end of the input.
    Eof,
    /// Any other event kind; the builder ignores it.
    Other,
}

/// A decoded parse event, the input of the tree builder.
#[derive(Debug, Clone, PartialEq, Eq)]
pub enum XmlEvent {
    /// An opening tag with its raw attribute pairs.
    Start { name: String, attributes: Vec<(String, String)> },
    /// A self-closing tag with its raw attribute pairs.
    Empty { name: String, attributes: Vec<(String, String)> },
    /// A closing tag.
    End { name: String },
    /// A run of character data, not yet trimmed.
    Text { text: String },
    /// The end of the input.
    Eof,
    /// Any other event kind; the builder ignores it.
    Other,
}

impl View for XmlEvent {
    type V = EventView;

    open spec fn view(&self) -> EventView {
        match self {
            XmlEvent::Start { name, attributes } => EventView::Start {
                name: name@,
                attributes: attrs_view(attributes@),
            },
            XmlEvent::Empty { name, attributes } => EventView::Empty {
                name: name@,
                attributes: attrs_view(attributes@),
            },
            XmlEvent::End { name } => EventView::End { name: name@ },
            XmlEvent::Text { text } => EventView::Text { text: text@ },
            XmlEvent::Eof => EventView::Eof,
            XmlEvent::Other => EventView::Other,
        }
    }
}

/// The view of a sequence of decoded events.
pub open spec fn events_view(s: Seq<XmlEvent>) -> Seq<EventView> {
    s.map_values(|e: XmlEvent| e@)
}

} // verus!
