//! The SOAP envelope: typed access to its `Header` and `Body`.
use vstd::prelude::*;
use vstd::std_specs::convert::FromSpecImpl;
use crate::document::{read_xml, xml_document};
use crate::xml::{
    child_element_mut, child_replaced, element_at, find_child, lemma_child_replaced,
    lemma_find_child_first, lemma_find_child_is_first, lemma_find_child_none,
    lemma_find_child_update, node_matches, ElementView, NodeView, XmlElement, XmlNode, ENV_NS,
    XML_NS,
};

verus! {

/// An element of the envelope namespace, written with the prefix `env`.
pub open spec fn env_named(name: Seq<char>) -> ElementView {
    ElementView { prefix: Some("env"@), namespace: Some(ENV_NS@), ..ElementView::named(name) }
}

/// The namespace declarations of an envelope that the library builds.
pub open spec fn envelope_declarations() -> Seq<(Seq<char>, Seq<char>)> {
    seq![("xml"@, XML_NS@), ("env"@, ENV_NS@)]
}

/// An envelope with these declarations and one `Body` with these children.
pub open spec fn envelope_with(
    declarations: Seq<(Seq<char>, Seq<char>)>,
    body_children: Seq<NodeView>,
) -> ElementView {
    ElementView {
        namespaces: Some(declarations),
        children: seq![NodeView::Element(env_named("Body"@).with_children(body_children))],
        ..env_named("Envelope"@)
    }
}

/// The envelope with an empty `Body`.
pub open spec fn empty_envelope() -> ElementView {
    envelope_with(envelope_declarations(), Seq::empty())
}

/// Where the `Body` of an envelope stands among its children.
pub open spec fn body_index(e: ElementView) -> Option<int> {
    find_child(e.children, "Body"@, Some(ENV_NS@))
}

/// Where the `Header` of an envelope stands among its children.
pub open spec fn header_index(e: ElementView) -> Option<int> {
    find_child(e.children, "Header"@, Some(ENV_NS@))
}

/// The `Body` of an envelope that has one.
pub open spec fn body_of(e: ElementView) -> ElementView {
    element_at(e, body_index(e).unwrap())
}

/// How many children are `Body` elements of the envelope namespace.
pub open spec fn count_bodies(children: Seq<NodeView>) -> nat
    decreases children.len(),
{
    if children.len() == 0 {
        0
    } else {
        count_bodies(children.drop_last()) + if node_matches(
            children.last(),
            "Body"@,
            Some(ENV_NS@),
        ) {
            1nat
        } else {
            0nat
        }
    }
}

/// The shape of an envelope: the root is `Envelope` in the envelope
/// namespace and has exactly one `Body` child in that namespace.
pub open spec fn is_envelope(e: ElementView) -> bool {
    &&& e.name == "Envelope"@
    &&& e.namespace == Some(ENV_NS@)
    &&& count_bodies(e.children) == 1
}

/// Children among which a `Body` is counted have a `Body` to be found: an
/// envelope has the `Body` that the accessors ask for.
pub proof fn lemma_counted_body_is_found(children: Seq<NodeView>)
    requires
        count_bodies(children) >= 1,
    ensures
        find_child(children, "Body"@, Some(ENV_NS@)) is Some,
    decreases children.len(),
{
    if children.len() > 0 {
        if count_bodies(children.drop_last()) >= 1 {
            lemma_counted_body_is_found(children.drop_last());
        }
    }
}

/// The envelope after a `Header` was asked for: one that lacks it gets an
/// empty one as its first child.
pub open spec fn with_header(e: ElementView) -> ElementView {
    if header_index(e) is Some {
        e
    } else {
        e.with_children(seq![NodeView::Element(env_named("Header"@))] + e.children)
    }
}

/// Asking for the `Header` a second time adds nothing.
pub proof fn lemma_with_header_idempotent(e: ElementView)
    ensures
        header_index(with_header(e)) is Some,
        with_header(with_header(e)) == with_header(e),
{
    if header_index(e) is None {
        let c = seq![NodeView::Element(env_named("Header"@))] + e.children;
        assert(node_matches(c[0], "Header"@, Some(ENV_NS@)));
        lemma_find_child_first(c, "Header"@, Some(ENV_NS@), 0);
    }
}

/// Idempotent header insertion: an envelope whose `Header` was asked for
/// and changed in place, but for its name and namespace, has its `Header`
/// where it was. Asking again adds no child and gives that element.
pub proof fn lemma_header_stays(before: XmlElement, after: XmlElement, child: XmlElement)
    requires
        header_index(before@) is Some,
        child_replaced(before, after, header_index(before@).unwrap(), child),
        child@.name == "Header"@,
        child@.namespace == Some(ENV_NS@),
    ensures
        header_index(after@) == header_index(before@),
        with_header(after@) == after@,
        after@.children.len() == before@.children.len(),
        element_at(after@, header_index(after@).unwrap()) == child@,
{
    let at = header_index(before@).unwrap();
    lemma_find_child_is_first(before@.children, "Header"@, Some(ENV_NS@));
    lemma_child_replaced(before, after, at, child);
    lemma_find_child_update(
        before@.children,
        at,
        NodeView::Element(child@),
        "Header"@,
        Some(ENV_NS@),
    );
}

/// An element of the envelope namespace with the prefix `env` and nothing in it.
pub fn env_element(name: &str) -> (r: XmlElement)
    ensures
        r@ == env_named(name@),
{
    let mut e = XmlElement::new(name);
    e.prefix = Some(String::from_str("env"));
    e.namespace = Some(String::from_str(ENV_NS));
    e
}

/// A SOAP 1.2 envelope.
pub struct SoapMessage(pub XmlElement);

impl SoapMessage {
    /// Whether the envelope has a `Body` in the envelope namespace.
    pub open spec fn has_body(&self) -> bool {
        body_index(self.0@) is Some
    }

    /// An envelope with the declarations of `xml` and `env` and an empty `Body`.
    pub fn new() -> (r: SoapMessage)
        ensures
            r.0@ == empty_envelope(),
            is_envelope(r.0@),
            r.has_body(),
            body_of(r.0@).children.len() == 0,
    {
        let mut env = env_element("Envelope");
        let mut namespaces: Vec<(String, String)> = Vec::new();
        namespaces.push((String::from_str("xml"), String::from_str(XML_NS)));
        namespaces.push((String::from_str("env"), String::from_str(ENV_NS)));
        env.namespaces = Some(namespaces);
        let body = env_element("Body");
        env.children.push(XmlNode::Element(body));
        proof {
            assert(env@.namespaces.unwrap() =~= envelope_declarations());
            assert(env@.children =~= empty_envelope().children);
            lemma_envelope_with(envelope_declarations(), Seq::empty());
        }
        SoapMessage(env)
    }

    /// The `Body` of the envelope.
    pub fn get_body(&self) -> (r: &XmlElement)
        requires
            self.has_body(),
        ensures
            r@ == body_of(self.0@),
    {
        let name = String::from_str("Body");
        let ns = Some(String::from_str(ENV_NS));
        let i = self.0.child_index(&name, &ns).unwrap();
        self.0.children[i].as_element().unwrap()
    }

    /// The `Header` of the envelope, if it has one.
    pub fn get_headers(&self) -> (r: Option<&XmlElement>)
        ensures
            match r {
                Some(h) => header_index(self.0@) is Some && h@ == element_at(
                    self.0@,
                    header_index(self.0@).unwrap(),
                ),
                None => header_index(self.0@) is None,
            },
    {
        let name = String::from_str("Header");
        let ns = Some(String::from_str(ENV_NS));
        match self.0.child_index(&name, &ns) {
            Some(i) => self.0.children[i].as_element(),
            None => None,
        }
    }

    /// The `Body` of the envelope, to be changed in place: the envelope ends
    /// as it was but for what the caller makes of the `Body`.
    pub fn get_mut_body(&mut self) -> (r: &mut XmlElement)
        requires
            old(self).has_body(),
        ensures
            r@ == body_of(old(self).0@),
            child_replaced(
                old(self).0,
                final(self).0,
                body_index(old(self).0@).unwrap(),
                *final(r),
            ),
    {
        let name = String::from_str("Body");
        let ns = Some(String::from_str(ENV_NS));
        let i = self.0.child_index(&name, &ns).unwrap();
        child_element_mut(&mut self.0, i)
    }

    /// The `Header` of the envelope, to be changed in place. An envelope
    /// without one first gets an empty `Header` as its first child; the
    /// envelope ends as that made it, but for what the caller makes of the
    /// `Header`.
    pub fn get_mut_headers(&mut self) -> (r: &mut XmlElement)
        ensures
            header_index(with_header(old(self).0@)) is Some,
            r@ == element_at(
                with_header(old(self).0@),
                header_index(with_header(old(self).0@)).unwrap(),
            ),
            exists|before: XmlElement|
                before@ == with_header(old(self).0@) && #[trigger] child_replaced(
                    before,
                    final(self).0,
                    header_index(with_header(old(self).0@)).unwrap(),
                    *final(r),
                ),
    {
        let name = String::from_str("Header");
        let ns = Some(String::from_str(ENV_NS));
        proof {
            lemma_with_header_idempotent(self.0@);
        }
        if self.0.child_index(&name, &ns).is_none() {
            let h = env_element("Header");
            self.0.children.insert(0, XmlNode::Element(h));
            assert(self.0@.children =~= with_header(old(self).0@).children);
        }
        let i = self.0.child_index(&name, &ns).unwrap();
        child_element_mut(&mut self.0, i)
    }
}

/// An envelope made of one `Body` is an envelope, and that `Body` is the one found.
pub proof fn lemma_envelope_with(
    declarations: Seq<(Seq<char>, Seq<char>)>,
    body_children: Seq<NodeView>,
)
    ensures
        is_envelope(envelope_with(declarations, body_children)),
        body_index(envelope_with(declarations, body_children)) == Some(0int),
        body_of(envelope_with(declarations, body_children)).children == body_children,
{
    let e = envelope_with(declarations, body_children);
    assert(node_matches(e.children[0], "Body"@, Some(ENV_NS@)));
    assert(e.children.drop_last() =~= Seq::<NodeView>::empty());
    assert(count_bodies(e.children.drop_last()) == 0);
    lemma_find_child_first(e.children, "Body"@, Some(ENV_NS@), 0);
}

impl SoapMessage {
    /// An envelope whose `Body` holds this one element.
    pub fn with_body_child(child: XmlElement) -> (r: SoapMessage)
        ensures
            r.0@ == envelope_with(envelope_declarations(), seq![NodeView::Element(child@)]),
            is_envelope(r.0@),
            r.has_body(),
    {
        let mut msg = SoapMessage::new();
        let ghost empty = msg.0;
        let body = msg.get_mut_body();
        body.children.push(XmlNode::Element(child));
        proof {
            lemma_envelope_with(envelope_declarations(), Seq::empty());
            lemma_child_replaced(empty, msg.0, 0, *body);
            assert(body@.children =~= seq![NodeView::Element(child@)]);
            assert(msg.0@.children =~= envelope_with(
                envelope_declarations(),
                seq![NodeView::Element(child@)],
            ).children);
            lemma_envelope_with(envelope_declarations(), seq![NodeView::Element(child@)]);
        }
        msg
    }

    /// An envelope with an empty `Body` whose `Header` holds this one element.
    pub fn with_header_child(child: XmlElement) -> (r: SoapMessage)
        ensures
            r.0@ == empty_envelope().with_children(
                seq![
                    NodeView::Element(
                        env_named("Header"@).with_children(seq![NodeView::Element(child@)]),
                    ),
                    NodeView::Element(env_named("Body"@)),
                ],
            ),
            is_envelope(r.0@),
            r.has_body(),
    {
        let mut msg = SoapMessage::new();
        let header = msg.get_mut_headers();
        header.children.push(XmlNode::Element(child));
        proof {
            lemma_with_header_idempotent(empty_envelope());
            let shaped = with_header(empty_envelope());
            assert(header_index(empty_envelope()) is None) by {
                reveal_strlit("Header");
                reveal_strlit("Body");
                assert("Header"@.len() != "Body"@.len());
                assert(!node_matches(empty_envelope().children[0], "Header"@, Some(ENV_NS@)));
                lemma_find_child_none(empty_envelope().children, "Header"@, Some(ENV_NS@));
            }
            assert(node_matches(shaped.children[0], "Header"@, Some(ENV_NS@)));
            lemma_find_child_first(shaped.children, "Header"@, Some(ENV_NS@), 0);
            let before = choose|before: XmlElement|
                before@ == shaped && #[trigger] child_replaced(before, msg.0, 0, *header);
            lemma_child_replaced(before, msg.0, 0, *header);
            assert(header@.children =~= seq![NodeView::Element(child@)]);
            let wanted = seq![
                NodeView::Element(
                    env_named("Header"@).with_children(seq![NodeView::Element(child@)]),
                ),
                NodeView::Element(env_named("Body"@)),
            ];
            assert(env_named("Body"@).with_children(Seq::empty()) == env_named("Body"@));
            assert(msg.0@.children =~= wanted);
            assert(node_matches(wanted[1], "Body"@, Some(ENV_NS@)));
            assert(!node_matches(wanted[0], "Body"@, Some(ENV_NS@))) by {
                reveal_strlit("Header");
                reveal_strlit("Body");
                assert("Header"@.len() != "Body"@.len());
            }
            lemma_find_child_first(wanted, "Body"@, Some(ENV_NS@), 1);
            assert(wanted.drop_last() =~= seq![wanted[0]]);
            assert(wanted.drop_last().drop_last() =~= Seq::<NodeView>::empty());
            assert(count_bodies(wanted.drop_last().drop_last()) == 0);
            assert(count_bodies(wanted.drop_last()) == 0);
        }
        msg
    }
}

impl SoapMessage {
    /// An envelope whose `Body` holds the root element of this XML
    /// document; `None` where the bytes hold no document.
    pub fn from_body_bytes(bytes: &[u8]) -> (r: Option<SoapMessage>)
        ensures
            match xml_document(bytes@) {
                Some(child) => r is Some && r.unwrap().0@ == envelope_with(
                    envelope_declarations(),
                    seq![NodeView::Element(child)],
                ),
                None => r is None,
            },
    {
        match read_xml(bytes) {
            Some(child) => Some(SoapMessage::with_body_child(child)),
            None => None,
        }
    }

    /// An envelope with an empty `Body` whose `Header` holds the root
    /// element of this XML document; `None` where the bytes hold no document.
    pub fn from_header_bytes(bytes: &[u8]) -> (r: Option<SoapMessage>)
        ensures
            match xml_document(bytes@) {
                Some(child) => r is Some && r.unwrap().0@ == empty_envelope().with_children(
                    seq![
                        NodeView::Element(
                            env_named("Header"@).with_children(seq![NodeView::Element(child)]),
                        ),
                        NodeView::Element(env_named("Body"@)),
                    ],
                ),
                None => r is None,
            },
    {
        match read_xml(bytes) {
            Some(child) => Some(SoapMessage::with_header_child(child)),
            None => None,
        }
    }
}

impl From<XmlElement> for SoapMessage {
    fn from(value: XmlElement) -> (r: SoapMessage) {
        SoapMessage(value)
    }
}

impl FromSpecImpl<XmlElement> for SoapMessage {
    open spec fn obeys_from_spec() -> bool {
        true
    }

    open spec fn from_spec(value: XmlElement) -> SoapMessage {
        SoapMessage(value)
    }
}

impl From<SoapMessage> for XmlElement {
    fn from(val: SoapMessage) -> (r: XmlElement) {
        val.0
    }
}

impl FromSpecImpl<SoapMessage> for XmlElement {
    open spec fn obeys_from_spec() -> bool {
        true
    }

    open spec fn from_spec(val: SoapMessage) -> XmlElement {
        val.0
    }
}

impl Default for SoapMessage {
    fn default() -> (r: SoapMessage)
        ensures
            r.0@ == empty_envelope(),
    {
        SoapMessage::new()
    }
}

} // verus!
