//! A small XML element tree and its mathematical model.
use vstd::prelude::*;

verus! {

/// A child of an element.
#[derive(Debug)]
pub enum XmlNode {
    Element(XmlElement),
    Comment(String),
    CData(String),
    Text(String),
    ProcessingInstruction(String, Option<String>),
}

/// An XML element: its qualified name, the namespace declarations in scope,
/// its attributes and its children in document order.
#[derive(Debug)]
pub struct XmlElement {
    pub prefix: Option<String>,
    pub namespace: Option<String>,
    pub namespaces: Option<Vec<(String, String)>>,
    pub name: String,
    pub attributes: Vec<(String, String)>,
    pub children: Vec<XmlNode>,
}

/// The SOAP 1.2 envelope namespace.
pub const ENV_NS: &'static str = "http://www.w3.org/2003/05/soap-envelope";

/// The reserved XML namespace.
pub const XML_NS: &'static str = "http://www.w3.org/XML/1998/namespace";

/// The model of a list of string pairs.
pub open spec fn pairs_view(v: Seq<(String, String)>) -> Seq<(Seq<char>, Seq<char>)> {
    Seq::new(v.len(), |i: int| (v[i].0@, v[i].1@))
}

/// The model of an optional string.
pub open spec fn opt_view(o: Option<String>) -> Option<Seq<char>> {
    match o {
        Some(s) => Some(s@),
        None => None,
    }
}

/// The model of a node.
pub enum NodeView {
    Element(ElementView),
    Comment(Seq<char>),
    CData(Seq<char>),
    Text(Seq<char>),
    ProcessingInstruction(Seq<char>, Option<Seq<char>>),
}

/// The model of an element.
pub struct ElementView {
    pub prefix: Option<Seq<char>>,
    pub namespace: Option<Seq<char>>,
    pub namespaces: Option<Seq<(Seq<char>, Seq<char>)>>,
    pub name: Seq<char>,
    pub attributes: Seq<(Seq<char>, Seq<char>)>,
    pub children: Seq<NodeView>,
}

/// The model of a node.
pub open spec fn node_view(n: XmlNode) -> NodeView
    decreases n,
{
    match n {
        XmlNode::Element(e) => NodeView::Element(element_view(e)),
        XmlNode::Comment(s) => NodeView::Comment(s@),
        XmlNode::CData(s) => NodeView::CData(s@),
        XmlNode::Text(s) => NodeView::Text(s@),
        XmlNode::ProcessingInstruction(t, d) => NodeView::ProcessingInstruction(t@, opt_view(d)),
    }
}

/// The model of an element.
pub open spec fn element_view(e: XmlElement) -> ElementView
    decreases e,
{
    ElementView {
        prefix: opt_view(e.prefix),
        namespace: opt_view(e.namespace),
        namespaces: match e.namespaces {
            Some(n) => Some(pairs_view(n@)),
            None => None,
        },
        name: e.name@,
        attributes: pairs_view(e.attributes@),
        children: Seq::new(
            e.children.len() as nat,
            |i: int|
                if 0 <= i < e.children.len() {
                    node_view(e.children[i])
                } else {
                    NodeView::Text(Seq::empty())
                },
        ),
    }
}

impl View for XmlNode {
    type V = NodeView;

    open spec fn view(&self) -> NodeView {
        node_view(*self)
    }
}

impl View for XmlElement {
    type V = ElementView;

    open spec fn view(&self) -> ElementView {
        element_view(*self)
    }
}

impl ElementView {
    /// An element with the given local name and nothing else.
    pub open spec fn named(name: Seq<char>) -> ElementView {
        ElementView {
            prefix: None,
            namespace: None,
            namespaces: None,
            name: name,
            attributes: Seq::empty(),
            children: Seq::empty(),
        }
    }

    /// This element with other children.
    pub open spec fn with_children(self, children: Seq<NodeView>) -> ElementView {
        ElementView { children: children, ..self }
    }
}

/// Whether a node is an element with this local name and, where a
/// namespace is asked for, in that namespace.
pub open spec fn node_matches(n: NodeView, name: Seq<char>, ns: Option<Seq<char>>) -> bool {
    match n {
        NodeView::Element(e) => e.name == name && (ns is Some ==> e.namespace == ns),
        _ => false,
    }
}

/// The position of the first child that matches, if any.
pub open spec fn find_child(children: Seq<NodeView>, name: Seq<char>, ns: Option<Seq<char>>)
    -> Option<int>
    decreases children.len(),
{
    if children.len() == 0 {
        None
    } else {
        match find_child(children.drop_last(), name, ns) {
            Some(i) => Some(i),
            None => if node_matches(children.last(), name, ns) {
                Some(children.len() - 1)
            } else {
                None
            },
        }
    }
}

/// A matching child with no matching child before it is the one found.
pub proof fn lemma_find_child_first(
    children: Seq<NodeView>,
    name: Seq<char>,
    ns: Option<Seq<char>>,
    i: int,
)
    requires
        0 <= i < children.len(),
        node_matches(children[i], name, ns),
        forall|j: int| 0 <= j < i ==> !node_matches(#[trigger] children[j], name, ns),
    ensures
        find_child(children, name, ns) == Some(i),
    decreases children.len(),
{
    if i < children.len() - 1 {
        lemma_find_child_first(children.drop_last(), name, ns, i);
    } else {
        lemma_find_child_none(children.drop_last(), name, ns);
    }
}

/// Where no child matches, none is found.
pub proof fn lemma_find_child_none(children: Seq<NodeView>, name: Seq<char>, ns: Option<Seq<char>>)
    requires
        forall|j: int| 0 <= j < children.len() ==> !node_matches(#[trigger] children[j], name, ns),
    ensures
        find_child(children, name, ns) is None,
    decreases children.len(),
{
    if children.len() > 0 {
        lemma_find_child_none(children.drop_last(), name, ns);
    }
}

/// What is found is a matching child, and the first one; where nothing is
/// found no child matches.
pub proof fn lemma_find_child_is_first(
    children: Seq<NodeView>,
    name: Seq<char>,
    ns: Option<Seq<char>>,
)
    ensures
        match find_child(children, name, ns) {
            Some(i) => 0 <= i < children.len() && node_matches(children[i], name, ns)
                && forall|j: int| 0 <= j < i ==> !node_matches(#[trigger] children[j], name, ns),
            None => forall|j: int|
                0 <= j < children.len() ==> !node_matches(#[trigger] children[j], name, ns),
        },
    decreases children.len(),
{
    if children.len() > 0 {
        let front = children.drop_last();
        lemma_find_child_is_first(front, name, ns);
        match find_child(front, name, ns) {
            Some(i) => {
                assert(front[i] == children[i]);
                assert forall|j: int| 0 <= j < i implies !node_matches(
                    #[trigger] children[j],
                    name,
                    ns,
                ) by {
                    assert(front[j] == children[j]);
                }
            },
            None => {
                assert forall|j: int| 0 <= j < children.len() - 1 implies !node_matches(
                    #[trigger] children[j],
                    name,
                    ns,
                ) by {
                    assert(front[j] == children[j]);
                }
            },
        }
    }
}

/// A child put behind the others does not change which child is found first.
pub proof fn lemma_find_child_push(
    children: Seq<NodeView>,
    added: NodeView,
    name: Seq<char>,
    ns: Option<Seq<char>>,
)
    ensures
        find_child(children, name, ns) is Some ==> find_child(children.push(added), name, ns)
            == find_child(children, name, ns),
{
    assert(children.push(added).drop_last() =~= children);
}

/// A child replaced by one that matches exactly if it did does not change
/// which child is found first.
pub proof fn lemma_find_child_update(
    children: Seq<NodeView>,
    i: int,
    put: NodeView,
    name: Seq<char>,
    ns: Option<Seq<char>>,
)
    requires
        0 <= i < children.len(),
        node_matches(put, name, ns) == node_matches(children[i], name, ns),
    ensures
        find_child(children.update(i, put), name, ns) == find_child(children, name, ns),
{
    let changed = children.update(i, put);
    lemma_find_child_is_first(children, name, ns);
    match find_child(children, name, ns) {
        Some(k) => {
            assert forall|j: int| 0 <= j < k implies !node_matches(
                #[trigger] changed[j],
                name,
                ns,
            ) by {
                assert(!node_matches(children[j], name, ns));
            }
            lemma_find_child_first(changed, name, ns, k);
        },
        None => {
            assert forall|j: int| 0 <= j < changed.len() implies !node_matches(
                #[trigger] changed[j],
                name,
                ns,
            ) by {
                assert(!node_matches(children[j], name, ns));
            }
            lemma_find_child_none(changed, name, ns);
        },
    }
}

/// The value that an attribute list gives a key: that of the last entry with the key.
pub open spec fn attr_lookup(attrs: Seq<(Seq<char>, Seq<char>)>, key: Seq<char>) -> Option<
    Seq<char>,
>
    decreases attrs.len(),
{
    if attrs.len() == 0 {
        None
    } else if attrs.last().0 == key {
        Some(attrs.last().1)
    } else {
        attr_lookup(attrs.drop_last(), key)
    }
}

/// Two attribute lists are equal as mappings: every key has the same value, or none, in both.
pub open spec fn same_attributes(
    a: Seq<(Seq<char>, Seq<char>)>,
    b: Seq<(Seq<char>, Seq<char>)>,
) -> bool {
    forall|k: Seq<char>| #[trigger] attr_lookup(a, k) == attr_lookup(b, k)
}

proof fn lemma_lookup_none(attrs: Seq<(Seq<char>, Seq<char>)>, key: Seq<char>)
    requires
        forall|j: int| 0 <= j < attrs.len() ==> (#[trigger] attrs[j]).0 != key,
    ensures
        attr_lookup(attrs, key) is None,
    decreases attrs.len(),
{
    if attrs.len() > 0 {
        lemma_lookup_none(attrs.drop_last(), key);
    }
}

proof fn lemma_lookup_last(attrs: Seq<(Seq<char>, Seq<char>)>, key: Seq<char>, i: int)
    requires
        0 <= i < attrs.len(),
        attrs[i].0 == key,
        forall|j: int| i < j < attrs.len() ==> (#[trigger] attrs[j]).0 != key,
    ensures
        attr_lookup(attrs, key) == Some(attrs[i].1),
    decreases attrs.len(),
{
    if i < attrs.len() - 1 {
        lemma_lookup_last(attrs.drop_last(), key, i);
    }
}

/// Whether a namespace table declares this prefix.
pub open spec fn has_prefix(ns: Seq<(Seq<char>, Seq<char>)>, prefix: Seq<char>) -> bool {
    exists|i: int| 0 <= i < ns.len() && (#[trigger] ns[i]).0 == prefix
}

/// A namespace table after a declaration is put: a prefix that is already
/// declared keeps its first binding.
pub open spec fn ns_put(ns: Seq<(Seq<char>, Seq<char>)>, prefix: Seq<char>, uri: Seq<char>) -> Seq<
    (Seq<char>, Seq<char>),
> {
    if has_prefix(ns, prefix) {
        ns
    } else {
        ns.push((prefix, uri))
    }
}

/// Declares `prefix` for `uri` unless the prefix is declared already, and
/// says whether it was added.
pub fn namespace_put(ns: &mut Vec<(String, String)>, prefix: String, uri: String) -> (added: bool)
    ensures
        pairs_view(final(ns)@) == ns_put(pairs_view(old(ns)@), prefix@, uri@),
        added == !has_prefix(pairs_view(old(ns)@), prefix@),
{
    let mut i: usize = 0;
    while i < ns.len()
        invariant
            i <= ns.len(),
            *ns == *old(ns),
            forall|j: int| 0 <= j < i ==> (#[trigger] pairs_view(ns@)[j]).0 != prefix@,
        decreases ns.len() - i,
    {
        if ns[i].0 == prefix {
            assert(pairs_view(ns@)[i as int].0 == prefix@);
            return false;
        }
        i += 1;
    }
    ns.push((prefix, uri));
    assert(pairs_view(ns@) =~= pairs_view(old(ns)@).push((prefix@, uri@)));
    true
}

fn clone_opt(o: &Option<String>) -> (r: Option<String>)
    ensures
        opt_view(r) == opt_view(*o),
{
    match o {
        Some(s) => Some(s.clone()),
        None => None,
    }
}

/// A copy of a list of string pairs.
pub fn clone_pairs(v: &Vec<(String, String)>) -> (r: Vec<(String, String)>)
    ensures
        pairs_view(r@) == pairs_view(v@),
{
    let mut r: Vec<(String, String)> = Vec::new();
    let mut i: usize = 0;
    while i < v.len()
        invariant
            i <= v.len(),
            r.len() == i,
            r@ =~= v@.take(i as int),
        decreases v.len() - i,
    {
        r.push((v[i].0.clone(), v[i].1.clone()));
        i += 1;
    }
    assert(r@ =~= v@);
    r
}

/// The position of the last entry with this key, if any.
fn attr_position(attrs: &Vec<(String, String)>, key: &String) -> (r: Option<usize>)
    ensures
        match r {
            Some(i) => i < attrs.len() && attr_lookup(pairs_view(attrs@), key@) == Some(
                attrs[i as int].1@,
            ),
            None => attr_lookup(pairs_view(attrs@), key@) is None,
        },
{
    let mut i: usize = attrs.len();
    while i > 0
        invariant
            i <= attrs.len(),
            forall|j: int| i <= j < attrs.len() ==> (#[trigger] pairs_view(attrs@)[j]).0 != key@,
        decreases i,
    {
        i -= 1;
        if attrs[i].0 == *key {
            proof {
                lemma_lookup_last(pairs_view(attrs@), key@, i as int);
            }
            return Some(i);
        }
    }
    proof {
        lemma_lookup_none(pairs_view(attrs@), key@);
    }
    None
}

/// Whether every key of `a` has in `b` the value it has in `a`.
fn attrs_agree_on(a: &Vec<(String, String)>, b: &Vec<(String, String)>) -> (r: bool)
    ensures
        r == forall|j: int|
            0 <= j < a.len() ==> attr_lookup(pairs_view(a@), (#[trigger] pairs_view(a@)[j]).0)
                == attr_lookup(pairs_view(b@), pairs_view(a@)[j].0),
{
    let mut i: usize = 0;
    while i < a.len()
        invariant
            i <= a.len(),
            forall|j: int|
                0 <= j < i ==> attr_lookup(pairs_view(a@), (#[trigger] pairs_view(a@)[j]).0)
                    == attr_lookup(pairs_view(b@), pairs_view(a@)[j].0),
        decreases a.len() - i,
    {
        let pa = attr_position(a, &a[i].0);
        let pb = attr_position(b, &a[i].0);
        assert(pairs_view(a@)[i as int].0 == a[i as int].0@);
        let same = match (pa, pb) {
            (Some(x), Some(y)) => a[x].1 == b[y].1,
            (None, None) => true,
            _ => false,
        };
        if !same {
            return false;
        }
        i += 1;
    }
    true
}

/// Whether two attribute lists are equal as mappings.
pub fn attributes_equal(a: &Vec<(String, String)>, b: &Vec<(String, String)>) -> (r: bool)
    ensures
        r == same_attributes(pairs_view(a@), pairs_view(b@)),
{
    let r = attrs_agree_on(a, b) && attrs_agree_on(b, a);
    proof {
        let av = pairs_view(a@);
        let bv = pairs_view(b@);
        if r {
            assert forall|k: Seq<char>| #[trigger] attr_lookup(av, k) == attr_lookup(bv, k) by {
                if exists|j: int| 0 <= j < av.len() && (#[trigger] av[j]).0 == k {
                    let j = choose|j: int| 0 <= j < av.len() && (#[trigger] av[j]).0 == k;
                    assert(attr_lookup(av, av[j].0) == attr_lookup(bv, av[j].0));
                } else if exists|j: int| 0 <= j < bv.len() && (#[trigger] bv[j]).0 == k {
                    let j = choose|j: int| 0 <= j < bv.len() && (#[trigger] bv[j]).0 == k;
                    assert(attr_lookup(bv, bv[j].0) == attr_lookup(av, bv[j].0));
                } else {
                    lemma_lookup_none(av, k);
                    lemma_lookup_none(bv, k);
                }
            }
        }
    }
    r
}

impl XmlNode {
    /// A deep copy of this node.
    pub fn duplicate(&self) -> (r: XmlNode)
        ensures
            r@ == self@,
        decreases self,
    {
        match self {
            XmlNode::Element(e) => XmlNode::Element(e.duplicate()),
            XmlNode::Comment(s) => XmlNode::Comment(s.clone()),
            XmlNode::CData(s) => XmlNode::CData(s.clone()),
            XmlNode::Text(s) => XmlNode::Text(s.clone()),
            XmlNode::ProcessingInstruction(t, d) => XmlNode::ProcessingInstruction(
                t.clone(),
                clone_opt(d),
            ),
        }
    }

    /// This node as an element, if it is one.
    pub fn as_element(&self) -> (r: Option<&XmlElement>)
        ensures
            match r {
                Some(e) => self@ == NodeView::Element(e@) && *self == XmlNode::Element(*e),
                None => !(self@ is Element),
            },
    {
        match self {
            XmlNode::Element(e) => Some(e),
            _ => None,
        }
    }
}

impl Clone for XmlNode {
    fn clone(&self) -> (r: Self)
        ensures
            r@ == self@,
    {
        self.duplicate()
    }
}

impl XmlElement {
    /// An element with this local name and no prefix, namespace,
    /// declarations, attributes or children.
    pub fn new(name: &str) -> (r: XmlElement)
        ensures
            r@ == ElementView::named(name@),
    {
        let r = XmlElement {
            prefix: None,
            namespace: None,
            namespaces: None,
            name: String::from_str(name),
            attributes: Vec::new(),
            children: Vec::new(),
        };
        assert(r@.children =~= Seq::empty());
        assert(r@.attributes =~= Seq::empty());
        r
    }

    /// A deep copy of this element.
    pub fn duplicate(&self) -> (r: XmlElement)
        ensures
            r@ == self@,
        decreases self,
    {
        let mut kids: Vec<XmlNode> = Vec::new();
        let mut i: usize = 0;
        while i < self.children.len()
            invariant
                i <= self.children.len(),
                kids.len() == i,
                forall|j: int| 0 <= j < i ==> (#[trigger] kids[j])@ == self.children[j]@,
            decreases self.children.len() - i,
        {
            kids.push(self.children[i].duplicate());
            i += 1;
        }
        let namespaces = match &self.namespaces {
            Some(n) => Some(clone_pairs(n)),
            None => None,
        };
        let r = XmlElement {
            prefix: clone_opt(&self.prefix),
            namespace: clone_opt(&self.namespace),
            namespaces: namespaces,
            name: self.name.clone(),
            attributes: clone_pairs(&self.attributes),
            children: kids,
        };
        assert(r@.children =~= self@.children);
        r
    }

    /// The position of the first child element with this local name and,
    /// where `ns` is given, in that namespace.
    pub fn child_index(&self, name: &String, ns: &Option<String>) -> (r: Option<usize>)
        ensures
            match r {
                Some(i) => find_child(self@.children, name@, opt_view(*ns)) == Some(i as int)
                    && i < self.children.len() && self.children[i as int] is Element,
                None => find_child(self@.children, name@, opt_view(*ns)) is None,
            },
    {
        let mut i: usize = 0;
        while i < self.children.len()
            invariant
                i <= self.children.len(),
                self@.children.len() == self.children.len(),
                forall|j: int|
                    0 <= j < i ==> !node_matches(
                        #[trigger] self@.children[j],
                        name@,
                        opt_view(*ns),
                    ),
            decreases self.children.len() - i,
        {
            assert(self@.children[i as int] == self.children[i as int]@);
            let hit = match &self.children[i] {
                XmlNode::Element(e) => e.name == *name && match ns {
                    Some(n) => match &e.namespace {
                        Some(m) => *m == *n,
                        None => false,
                    },
                    None => true,
                },
                _ => false,
            };
            if hit {
                proof {
                    lemma_find_child_first(self@.children, name@, opt_view(*ns), i as int);
                }
                return Some(i);
            }
            i += 1;
        }
        proof {
            lemma_find_child_none(self@.children, name@, opt_view(*ns));
        }
        None
    }

    /// The first child element with this local name in this namespace.
    pub fn get_child(&self, name: &str, ns: &str) -> (r: Option<&XmlElement>)
        ensures
            match r {
                Some(e) => {
                    &&& find_child(self@.children, name@, Some(ns@)) is Some
                    &&& self@.children[find_child(self@.children, name@, Some(ns@)).unwrap()]
                        == NodeView::Element(e@)
                },
                None => find_child(self@.children, name@, Some(ns@)) is None,
            },
    {
        let n = String::from_str(name);
        let s = Some(String::from_str(ns));
        match self.child_index(&n, &s) {
            Some(i) => {
                assert(self@.children[i as int] == self.children[i as int]@);
                self.children[i].as_element()
            },
            None => None,
        }
    }
}

impl Clone for XmlElement {
    fn clone(&self) -> (r: Self)
        ensures
            r@ == self@,
    {
        self.duplicate()
    }
}

/// The element at a position that holds one.
pub open spec fn element_at(e: ElementView, i: int) -> ElementView {
    e.children[i]->Element_0
}

/// `after` is `before` with the child element at position `i` replaced by `child`.
pub open spec fn child_replaced(before: XmlElement, after: XmlElement, i: int, child: XmlElement) -> bool {
    &&& 0 <= i < before.children.len()
    &&& after.children@ == before.children@.update(i, XmlNode::Element(child))
    &&& after.prefix == before.prefix
    &&& after.namespace == before.namespace
    &&& after.namespaces == before.namespaces
    &&& after.name == before.name
    &&& after.attributes == before.attributes
}

/// In the model, replacing a child element replaces its model among the children.
pub proof fn lemma_child_replaced(before: XmlElement, after: XmlElement, i: int, child: XmlElement)
    requires
        child_replaced(before, after, i, child),
    ensures
        after@ == before@.with_children(before@.children.update(i, NodeView::Element(child@))),
{
    assert(after@.children =~= before@.children.update(i, NodeView::Element(child@)));
}

/// The child element at a position, to be changed in place.
pub fn child_element_mut(e: &mut XmlElement, i: usize) -> (r: &mut XmlElement)
    requires
        i < old(e).children.len(),
        old(e).children[i as int] is Element,
    ensures
        r@ == element_at(old(e)@, i as int),
        child_replaced(*old(e), *final(e), i as int, *final(r)),
{
    match &mut e.children[i] {
        XmlNode::Element(c) => c,
        _ => vstd::pervasive::unreached(),
    }
}

} // verus!
