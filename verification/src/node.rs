use vstd::prelude::*;
use vstd::string::StringExecFns;

use crate::attrs::{
    assoc_get, assoc_set, assoc_set_all, attrs_view, lemma_assoc_get_at, lemma_assoc_get_none,
    reduce_attrs, AttrsView,
};
use crate::error::{Error, ParseNodeError};
use crate::event::{events_view, EventView, XmlEvent};

verus! {

/// The mathematical model of a [`Node`]: a rose tree of names, text contents
/// and attribute mappings.
#[verifier::ext_equal]
pub ghost struct NodeView {
    /// The tag name.
    pub name: Seq<char>,
    /// The text directly inside this node, excluding the descendants' text.
    pub content: Seq<char>,
    /// The attribute mapping, as pairs with unique keys.
    pub attributes: AttrsView,
    /// The children, in document order.
    pub childs: Seq<NodeView>,
}

impl NodeView {
    /// Attribute keys are unique at this node and every descendant.
    pub open spec fn wf(self) -> bool
        decreases self, 1int,
    {
        crate::attrs::unique_keys(self.attributes) && wf_childs(self.childs, 0)
    }

    /// The name of this node and of every descendant is non-empty.
    pub open spec fn names_nonempty(self) -> bool
        decreases self, 1int,
    {
        self.name.len() > 0 && names_nonempty_childs(self.childs, 0)
    }
}

/// Non-empty names in every child from position `i` on.
pub open spec fn names_nonempty_childs(cs: Seq<NodeView>, i: int) -> bool
    decreases cs, cs.len() - i,
{
    if i < 0 || i >= cs.len() {
        true
    } else {
        cs[i].names_nonempty() && names_nonempty_childs(cs, i + 1)
    }
}

/// Every child from position `i` on has non-empty names exactly when each
/// one has.
pub proof fn lemma_names_nonempty_childs(cs: Seq<NodeView>, i: int)
    requires
        0 <= i <= cs.len(),
    ensures
        names_nonempty_childs(cs, i) <==> (forall|j: int|
            i <= j < cs.len() ==> (#[trigger] cs[j]).names_nonempty()),
    decreases cs.len() - i,
{
    if i < cs.len() {
        lemma_names_nonempty_childs(cs, i + 1);
    }
}

/// Well-formedness of every child from position `i` on.
pub open spec fn wf_childs(cs: Seq<NodeView>, i: int) -> bool
    decreases cs, cs.len() - i,
{
    if i < 0 || i >= cs.len() {
        true
    } else {
        cs[i].wf() && wf_childs(cs, i + 1)
    }
}

/// Every child from position `i` on is well-formed exactly when each one is.
pub proof fn lemma_wf_childs(cs: Seq<NodeView>, i: int)
    requires
        0 <= i <= cs.len(),
    ensures
        wf_childs(cs, i) <==> (forall|j: int| i <= j < cs.len() ==> (#[trigger] cs[j]).wf()),
    decreases cs.len() - i,
{
    if i < cs.len() {
        lemma_wf_childs(cs, i + 1);
    }
}

/// A high level tree representation of an XML DOM element.
#[derive(Debug, Default, PartialEq, Eq)]
pub struct Node {
    name: String,
    content: String,
    attributes: Vec<(String, String)>,
    childs: Vec<Node>,
}

/// The model of an executable node.
pub closed spec fn node_view(n: Node) -> NodeView
    decreases n, 1int,
{
    NodeView {
        name: n.name@,
        content: n.content@,
        attributes: attrs_view(n.attributes@),
        childs: childs_view(n.childs@, 0),
    }
}

/// The models of the children from position `i` on.
spec fn childs_view(s: Seq<Node>, i: int) -> Seq<NodeView>
    decreases s, s.len() - i,
{
    if i < 0 || i >= s.len() {
        Seq::empty()
    } else {
        seq![node_view(s[i])] + childs_view(s, i + 1)
    }
}

proof fn lemma_childs_view(s: Seq<Node>, i: int)
    requires
        0 <= i <= s.len(),
    ensures
        childs_view(s, i).len() == s.len() - i,
        forall|j: int|
            0 <= j < s.len() - i ==> childs_view(s, i)[j] == node_view(s[i + j]),
    decreases s.len() - i,
{
    if i < s.len() {
        lemma_childs_view(s, i + 1);
    }
}

impl View for Node {
    type V = NodeView;

    closed spec fn view(&self) -> NodeView {
        node_view(*self)
    }
}

/// The children of `cs` that carry the given name, in order.
pub open spec fn childs_named(cs: Seq<NodeView>, name: Seq<char>) -> Seq<NodeView>
    decreases cs.len(),
{
    if cs.len() == 0 {
        Seq::empty()
    } else if cs.first().name == name {
        seq![cs.first()] + childs_named(cs.drop_first(), name)
    } else {
        childs_named(cs.drop_first(), name)
    }
}

/// Unfolds the named-children selection one position at a time.
proof fn lemma_childs_named_skip(cs: Seq<NodeView>, name: Seq<char>, j: int)
    requires
        0 <= j < cs.len(),
    ensures
        childs_named(cs.skip(j), name) == if cs[j].name == name {
            seq![cs[j]] + childs_named(cs.skip(j + 1), name)
        } else {
            childs_named(cs.skip(j + 1), name)
        },
{
    assert(cs.skip(j).first() == cs[j]);
    assert(cs.skip(j).drop_first() =~= cs.skip(j + 1));
}

impl Node {
    /// Gets a [`NodeBuilder`] for a [`Node`] with a specified name.
    pub fn builder(name: &str) -> (r: NodeBuilder)
        ensures
            r@ == (NodeView {
                name: name@,
                content: Seq::<char>::empty(),
                attributes: Seq::empty(),
                childs: Seq::empty(),
            }),
    {
        NodeBuilder::new(name)
    }

    /// Builds the node that a start or empty tag creates: the given name,
    /// the raw attribute pairs reduced into a mapping, no content and no
    /// childs.
    pub(crate) fn from_tag(name: String, attributes: &Vec<(String, String)>) -> (n: Node)
        ensures
            n@ == crate::model::fresh_node(name@, attrs_view(attributes@)),
    {
        let n = Node {
            name,
            content: String::new(),
            attributes: reduce_attrs(attributes),
            childs: Vec::new(),
        };
        proof {
            lemma_childs_view(n.childs@, 0);
            assert(childs_view(n.childs@, 0) =~= Seq::<NodeView>::empty());
            assert(n@ =~= crate::model::fresh_node(n.name@, attrs_view(attributes@)));
        }
        n
    }

    /// Appends a finished child.
    pub(crate) fn push_child(&mut self, c: Node)
        ensures
            final(self)@ == (NodeView { childs: old(self)@.childs.push(c@), ..old(self)@ }),
    {
        let ghost oldv = self@;
        let ghost oldcs = self.childs@;
        proof {
            lemma_childs_view(oldcs, 0);
        }
        self.childs.push(c);
        proof {
            lemma_childs_view(self.childs@, 0);
            assert(childs_view(self.childs@, 0) =~= childs_view(oldcs, 0).push(c@));
            assert(self@ =~= (NodeView { childs: oldv.childs.push(c@), ..oldv }));
        }
    }

    /// Flattens the tree into the event sequence that writing emits,
    /// depth-first, exactly as [`crate::model::flat`] describes: a leaf
    /// without content becomes one self-closing tag, any other node an
    /// opening tag, its content, its childs and a closing tag.
    pub fn to_events(&self) -> (evs: Vec<XmlEvent>)
        ensures
            events_view(evs@) == crate::model::flat(self@),
        decreases *self,
    {
        let ghost me = self@;
        proof {
            lemma_childs_view(self.childs@, 0);
        }
        let mut evs: Vec<XmlEvent> = Vec::new();
        if self.childs.len() == 0 && self.content.as_str().is_empty() {
            evs.push(XmlEvent::Empty {
                name: self.name.clone(),
                attributes: crate::attrs::clone_attrs(&self.attributes),
            });
            proof {
                assert(events_view(evs@) =~= crate::model::flat(me));
            }
        } else {
            evs.push(XmlEvent::Start {
                name: self.name.clone(),
                attributes: crate::attrs::clone_attrs(&self.attributes),
            });
            if !self.content.as_str().is_empty() {
                evs.push(XmlEvent::Text { text: self.content.clone() });
            }
            let ghost pre = events_view(evs@);
            let ghost cs = me.childs;
            proof {
                if me.content.len() > 0 {
                    assert(pre =~= seq![
                        EventView::Start { name: me.name, attributes: me.attributes },
                    ] + seq![EventView::Text { text: me.content }]);
                } else {
                    assert(pre =~= seq![
                        EventView::Start { name: me.name, attributes: me.attributes },
                    ]);
                }
            }
            let n = self.childs.len();
            for i in 0..n
                invariant
                    n == self.childs.len(),
                    cs == me.childs,
                    cs.len() == n,
                    forall|k: int| 0 <= k < n ==> #[trigger] cs[k] == self.childs@[k]@,
                    events_view(evs@) + crate::model::flat_childs(cs, i as int) == pre
                        + crate::model::flat_childs(cs, 0),
            {
                let mut ce = self.childs[i].to_events();
                proof {
                    assert(events_view(evs@ + ce@) =~= events_view(evs@) + events_view(ce@));
                    assert(events_view(evs@) + (crate::model::flat(cs[i as int])
                        + crate::model::flat_childs(cs, i + 1)) =~= (events_view(evs@)
                        + crate::model::flat(cs[i as int])) + crate::model::flat_childs(
                        cs,
                        i + 1,
                    ));
                }
                evs.append(&mut ce);
            }
            proof {
                assert(crate::model::flat_childs(cs, n as int) =~= Seq::<EventView>::empty());
                assert(events_view(evs@) =~= pre + crate::model::flat_childs(cs, 0));
            }
            let ghost before_end = events_view(evs@);
            evs.push(XmlEvent::End { name: self.name.clone() });
            proof {
                assert(events_view(evs@) =~= before_end.push(EventView::End { name: me.name }));
                assert(crate::model::flat(me) =~= (pre + crate::model::flat_childs(cs, 0)).push(
                    EventView::End { name: me.name },
                ));
                assert(events_view(evs@) =~= crate::model::flat(me));
            }
        }
        evs
    }

    /// Appends a trimmed text fragment to the content.
    pub(crate) fn append_content(&mut self, t: &str)
        ensures
            final(self)@ == (NodeView { content: old(self)@.content + t@, ..old(self)@ }),
    {
        let ghost oldv = self@;
        self.content.append(t);
        proof {
            assert(self@ =~= (NodeView { content: oldv.content + t@, ..oldv }));
        }
    }
}

impl Clone for Node {
    /// A structural copy of the whole tree.
    fn clone(&self) -> (r: Self)
        ensures
            r@ == self@,
        decreases *self,
    {
        let mut cl: Vec<Node> = Vec::new();
        let n = self.childs.len();
        for i in 0..n
            invariant
                n == self.childs.len(),
                cl@.len() == i,
                forall|j: int| 0 <= j < i ==> (#[trigger] cl@[j])@ == self.childs@[j]@,
        {
            cl.push(self.childs[i].clone());
        }
        let r = Node {
            name: self.name.clone(),
            content: self.content.clone(),
            attributes: crate::attrs::clone_attrs(&self.attributes),
            childs: cl,
        };
        proof {
            lemma_childs_view(r.childs@, 0);
            lemma_childs_view(self.childs@, 0);
            assert(childs_view(r.childs@, 0) =~= childs_view(self.childs@, 0));
            assert(r@ =~= self@);
        }
        r
    }
}

impl Node {
    /// Gets the name of the current [`Node`].
    pub fn name(&self) -> (r: &str)
        ensures
            r@ == self@.name,
    {
        self.name.as_str()
    }

    /// Gets the content of the current [`Node`].
    pub fn content(&self) -> (r: &str)
        ensures
            r@ == self@.content,
    {
        self.content.as_str()
    }

    /// Gets the childs of the [`Node`].
    pub fn childs(&self) -> (r: &Vec<Node>)
        ensures
            r@.map_values(|c: Node| c@) == self@.childs,
    {
        proof {
            lemma_childs_view(self.childs@, 0);
            assert(self.childs@.map_values(|c: Node| c@) =~= childs_view(self.childs@, 0));
        }
        &self.childs
    }

    /// Searches for an attribute with the specified key and returns its
    /// value.
    ///
    /// # Errors
    ///
    /// This function will return an error if the [`Node`] has no attribute
    /// with the given key.
    pub fn attribute(&self, key: &str) -> (r: Result<&str, Error>)
        ensures
            match r {
                Ok(v) => assoc_get(self@.attributes, key@) == Some(v@),
                Err(e) => assoc_get(self@.attributes, key@) is None && (e matches Error::ParseNodeError(p)
                    && p matches ParseNodeError::MissingAttribute(k, n) && k@ == key@ && n@
                    == self@.name),
            },
    {
        let owned: String = key.to_owned();
        let ghost m = attrs_view(self.attributes@);
        let n = self.attributes.len();
        for j in 0..n
            invariant
                n == self.attributes.len(),
                m == attrs_view(self.attributes@),
                owned@ == key@,
                forall|i: int| 0 <= i < j ==> (#[trigger] m[i]).0 != key@,
        {
            if self.attributes[j].0 == owned {
                proof {
                    lemma_assoc_get_at(m, key@, j as int);
                }
                return Ok(self.attributes[j].1.as_str());
            }
        }
        proof {
            lemma_assoc_get_none(m, key@);
        }
        Err(Error::ParseNodeError(ParseNodeError::MissingAttribute(owned, self.name.clone())))
    }

    /// Checks if the [`Node`] has an attribute with the given key.
    pub fn has_attribute(&self, key: &str) -> (r: bool)
        ensures
            r == (assoc_get(self@.attributes, key@) is Some),
    {
        let owned: String = key.to_owned();
        let ghost m = attrs_view(self.attributes@);
        let n = self.attributes.len();
        for j in 0..n
            invariant
                n == self.attributes.len(),
                m == attrs_view(self.attributes@),
                owned@ == key@,
                forall|i: int| 0 <= i < j ==> (#[trigger] m[i]).0 != key@,
        {
            if self.attributes[j].0 == owned {
                proof {
                    lemma_assoc_get_at(m, key@, j as int);
                }
                return true;
            }
        }
        proof {
            lemma_assoc_get_none(m, key@);
        }
        false
    }

    /// Searches for a child with the given name.
    ///
    /// # Errors
    ///
    /// This function will return an error if the [`Node`] has no child with
    /// the given name.
    pub fn child_by_name<'a>(&'a self, name: &str) -> (r: Result<&'a Node, Error>)
        ensures
            match r {
                Ok(c) => childs_named(self@.childs, name@).len() > 0 && c@ == childs_named(
                    self@.childs,
                    name@,
                )[0],
                Err(e) => childs_named(self@.childs, name@).len() == 0 && (e matches Error::ParseNodeError(p)
                    && p matches ParseNodeError::MissingChild(m, n) && m@ == name@ && n@
                    == self@.name),
            },
    {
        let owned: String = name.to_owned();
        let ghost cs = self@.childs;
        proof {
            lemma_childs_view(self.childs@, 0);
            assert(cs.skip(0) =~= cs);
        }
        let n = self.childs.len();
        for j in 0..n
            invariant
                n == self.childs.len(),
                cs == self@.childs,
                cs.len() == n,
                owned@ == name@,
                forall|i: int| 0 <= i < n ==> #[trigger] cs[i] == self.childs@[i]@,
                childs_named(cs, name@) == childs_named(cs.skip(j as int), name@),
        {
            proof {
                lemma_childs_named_skip(cs, name@, j as int);
            }
            if self.childs[j].name == owned {
                return Ok(&self.childs[j]);
            }
        }
        proof {
            assert(cs.skip(n as int) =~= Seq::<NodeView>::empty());
        }
        Err(Error::ParseNodeError(ParseNodeError::MissingChild(owned, self.name.clone())))
    }

    /// Returns all childs that have the given name, in document order.
    pub fn childs_by_name<'a>(&'a self, name: &str) -> (r: Vec<&'a Node>)
        ensures
            r@.map_values(|c: &Node| c@) == childs_named(self@.childs, name@),
    {
        let owned: String = name.to_owned();
        let ghost cs = self@.childs;
        proof {
            lemma_childs_view(self.childs@, 0);
            assert(cs.skip(0) =~= cs);
        }
        let mut r: Vec<&'a Node> = Vec::new();
        let n = self.childs.len();
        for j in 0..n
            invariant
                n == self.childs.len(),
                cs == self@.childs,
                cs.len() == n,
                owned@ == name@,
                forall|i: int| 0 <= i < n ==> #[trigger] cs[i] == self.childs@[i]@,
                childs_named(cs, name@) == r@.map_values(|c: &Node| c@) + childs_named(
                    cs.skip(j as int),
                    name@,
                ),
        {
            proof {
                lemma_childs_named_skip(cs, name@, j as int);
            }
            if self.childs[j].name == owned {
                r.push(&self.childs[j]);
                proof {
                    assert(childs_named(cs, name@) =~= r@.map_values(|c: &Node| c@)
                        + childs_named(cs.skip(j + 1), name@));
                }
            }
        }
        proof {
            assert(cs.skip(n as int) =~= Seq::<NodeView>::empty());
            assert(childs_named(cs, name@) =~= r@.map_values(|c: &Node| c@));
        }
        r
    }

    /// Checks if the [`Node`] has childs.
    pub fn has_childs(&self) -> (r: bool)
        ensures
            r == (self@.childs.len() > 0),
    {
        proof {
            lemma_childs_view(self.childs@, 0);
        }
        !self.childs.is_empty()
    }

    /// Gets the amount of childs the [`Node`] has.
    pub fn child_count(&self) -> (r: usize)
        ensures
            r == self@.childs.len(),
    {
        proof {
            lemma_childs_view(self.childs@, 0);
        }
        self.childs.len()
    }
}

/// A builder for a [`Node`] struct.
#[derive(Debug, Default)]
pub struct NodeBuilder {
    name: String,
    content: String,
    attributes: Vec<(String, String)>,
    childs: Vec<Node>,
}

impl View for NodeBuilder {
    type V = NodeView;

    closed spec fn view(&self) -> NodeView {
        NodeView {
            name: self.name@,
            content: self.content@,
            attributes: attrs_view(self.attributes@),
            childs: childs_view(self.childs@, 0),
        }
    }
}

impl NodeBuilder {
    /// Creates a builder for a [`Node`] with the name set to the given
    /// parameter.
    pub fn new(name: &str) -> (r: Self)
        ensures
            r@ == (NodeView {
                name: name@,
                content: Seq::<char>::empty(),
                attributes: Seq::empty(),
                childs: Seq::empty(),
            }),
    {
        let r = NodeBuilder {
            name: name.to_owned(),
            content: String::new(),
            attributes: Vec::new(),
            childs: Vec::new(),
        };
        proof {
            lemma_childs_view(r.childs@, 0);
            assert(r@ =~= (NodeView {
                name: name@,
                content: Seq::<char>::empty(),
                attributes: Seq::empty(),
                childs: Seq::empty(),
            }));
        }
        r
    }

    /// Sets the name of the [`NodeBuilder`].
    pub fn name(self, name: &str) -> (r: Self)
        ensures
            r@ == (NodeView { name: name@, ..self@ }),
    {
        let r = NodeBuilder { name: name.to_owned(), ..self };
        proof {
            assert(r@ =~= (NodeView { name: name@, ..self@ }));
        }
        r
    }

    /// Sets the content of the [`NodeBuilder`].
    pub fn content(self, data: &str) -> (r: Self)
        ensures
            r@ == (NodeView { content: data@, ..self@ }),
    {
        let r = NodeBuilder { content: data.to_owned(), ..self };
        proof {
            assert(r@ =~= (NodeView { content: data@, ..self@ }));
        }
        r
    }

    /// Adds all key-value pairs of the given vector to the attributes of
    /// the [`NodeBuilder`], in order; on a duplicate key the last value
    /// wins.
    pub fn attributes(self, attributes: Vec<(String, String)>) -> (r: Self)
        ensures
            r@ == (NodeView {
                attributes: assoc_set_all(self@.attributes, attrs_view(attributes@)),
                ..self@
            }),
    {
        let mut r = self;
        let ghost before = r@;
        crate::attrs::extend_attrs(&mut r.attributes, &attributes);
        proof {
            assert(r@ =~= (NodeView {
                attributes: assoc_set_all(before.attributes, attrs_view(attributes@)),
                ..before
            }));
        }
        r
    }

    /// Adds a key-value pair as attribute to the [`NodeBuilder`],
    /// overwriting the value of an existing key.
    pub fn attribute(self, key: &str, value: &str) -> (r: Self)
        ensures
            r@ == (NodeView {
                attributes: assoc_set(self@.attributes, key@, value@),
                ..self@
            }),
    {
        let mut r = self;
        let ghost before = r@;
        crate::attrs::insert_attr(&mut r.attributes, key.to_owned(), value.to_owned());
        proof {
            assert(r@ =~= (NodeView {
                attributes: assoc_set(before.attributes, key@, value@),
                ..before
            }));
        }
        r
    }

    /// Adds all nodes of the given vector to the [`NodeBuilder`] as childs,
    /// in order.
    pub fn childs(self, childs: Vec<Node>) -> (r: Self)
        ensures
            r@ == (NodeView {
                childs: self@.childs + childs@.map_values(|c: Node| c@),
                ..self@
            }),
    {
        let mut r = self;
        let ghost before = r@;
        let ghost oldcs = r.childs@;
        let mut given = childs;
        r.childs.append(&mut given);
        proof {
            lemma_childs_view(oldcs, 0);
            lemma_childs_view(childs@, 0);
            lemma_childs_view(r.childs@, 0);
            assert(childs_view(r.childs@, 0) =~= childs_view(oldcs, 0) + childs@.map_values(
                |c: Node| c@,
            )) by {
                assert(childs@.map_values(|c: Node| c@) =~= childs_view(childs@, 0));
            }
            assert(r@ =~= (NodeView {
                childs: before.childs + childs@.map_values(|c: Node| c@),
                ..before
            }));
        }
        r
    }

    /// Adds a [`Node`] as a child to the [`NodeBuilder`].
    pub fn child(self, child: Node) -> (r: Self)
        ensures
            r@ == (NodeView { childs: self@.childs.push(child@), ..self@ }),
    {
        let mut r = self;
        let ghost before = r@;
        let ghost oldcs = r.childs@;
        proof {
            lemma_childs_view(oldcs, 0);
        }
        r.childs.push(child);
        proof {
            lemma_childs_view(r.childs@, 0);
            assert(childs_view(r.childs@, 0) =~= childs_view(oldcs, 0).push(child@));
            assert(r@ =~= (NodeView { childs: before.childs.push(child@), ..before }));
        }
        r
    }

    /// Adds a possible [`Node`] as a child to the [`NodeBuilder`]; nothing
    /// is added when none is given.
    pub fn option_child(self, child: Option<Node>) -> (r: Self)
        ensures
            r@ == match child {
                Some(c) => (NodeView { childs: self@.childs.push(c@), ..self@ }),
                None => self@,
            },
    {
        match child {
            Some(c) => self.child(c),
            None => self,
        }
    }

    /// Tries to add the result of a fallible conversion as a child to the
    /// [`NodeBuilder`].
    ///
    /// # Errors
    ///
    /// This function will return the error of the conversion, unchanged,
    /// when the conversion failed.
    pub fn try_child(self, child: Result<Node, Error>) -> (r: Result<Self, Error>)
        ensures
            match child {
                Ok(c) => r matches Ok(b) && b@ == (NodeView {
                    childs: self@.childs.push(c@),
                    ..self@
                }),
                Err(e) => r == Err::<NodeBuilder, Error>(e),
            },
    {
        match child {
            Ok(c) => Ok(self.child(c)),
            Err(e) => Err(e),
        }
    }

    /// Builds the node.
    pub fn build(self) -> (n: Node)
        ensures
            n@ == self@,
    {
        let n = Node {
            name: self.name,
            content: self.content,
            attributes: self.attributes,
            childs: self.childs,
        };
        proof {
            assert(n@ =~= self@);
        }
        n
    }
}

impl From<NodeBuilder> for Node {
    /// Builds the node, exactly as [`NodeBuilder::build`] does.
    fn from(builder: NodeBuilder) -> (n: Node) {
        Node {
            name: builder.name,
            content: builder.content,
            attributes: builder.attributes,
            childs: builder.childs,
        }
    }
}

impl vstd::std_specs::convert::FromSpecImpl<NodeBuilder> for Node {
    open spec fn obeys_from_spec() -> bool {
        true
    }

    closed spec fn from_spec(builder: NodeBuilder) -> Node {
        Node {
            name: builder.name,
            content: builder.content,
            attributes: builder.attributes,
            childs: builder.childs,
        }
    }
}

/// What [`Node::from`] returns, seen through the model: the node carries
/// exactly the builder's fields, as [`NodeBuilder::build`] does.
pub proof fn lemma_from_builder(builder: NodeBuilder)
    ensures
        (<Node as vstd::std_specs::convert::FromSpec<NodeBuilder>>::from_spec(builder))@
            == builder@,
{
    let n = <Node as vstd::std_specs::convert::FromSpec<NodeBuilder>>::from_spec(builder);
    assert(n@ =~= builder@);
}

} // verus!
