//! Merging one element into another, one level deep.
use vstd::prelude::*;
use crate::message::{body_index, body_of, count_bodies, is_envelope, SoapMessage};
use crate::xml::{
    attributes_equal, child_element_mut, element_at, find_child, lemma_child_replaced,
    lemma_find_child_is_first, lemma_find_child_push, lemma_find_child_update, node_matches,
    same_attributes, ElementView, NodeView, XmlElement, XmlNode, ENV_NS,
};

verus! {

/// The accumulator after one child was merged into it. A child that is no
/// element is put behind the others. An element looks for the first child
/// of the accumulator with its local name and, if it has a namespace, that
/// namespace: where there is one with the same attributes, that one takes
/// over the element's children; else the element is put behind the others.
pub open spec fn merge_child(acc: ElementView, c: NodeView) -> ElementView {
    match c {
        NodeView::Element(e) => match find_child(acc.children, e.name, e.namespace) {
            Some(i) => {
                let a = element_at(acc, i);
                if same_attributes(a.attributes, e.attributes) {
                    acc.with_children(
                        acc.children.update(
                            i,
                            NodeView::Element(a.with_children(a.children + e.children)),
                        ),
                    )
                } else {
                    acc.with_children(acc.children.push(c))
                }
            },
            None => acc.with_children(acc.children.push(c)),
        },
        _ => acc.with_children(acc.children.push(c)),
    }
}

/// The accumulator after these children were merged into it in turn.
pub open spec fn merge_children(acc: ElementView, children: Seq<NodeView>) -> ElementView
    decreases children.len(),
{
    if children.len() == 0 {
        acc
    } else {
        merge_child(merge_children(acc, children.drop_last()), children.last())
    }
}

/// The accumulator after the children of `element` were merged into it.
pub open spec fn merge_model(acc: ElementView, element: ElementView) -> ElementView {
    merge_children(acc, element.children)
}

fn append_copies(target: &mut XmlElement, source: &XmlElement)
    ensures
        final(target)@ == old(target)@.with_children(old(target)@.children + source@.children),
{
    let mut j: usize = 0;
    assert(target@.children =~= old(target)@.children + source@.children.take(0));
    while j < source.children.len()
        invariant
            j <= source.children.len(),
            target@ == old(target)@.with_children(
                old(target)@.children + source@.children.take(j as int),
            ),
        decreases source.children.len() - j,
    {
        let ghost before = target@.children;
        target.children.push(source.children[j].duplicate());
        assert(source@.children[j as int] == source.children[j as int]@);
        assert(target@.children =~= before.push(source.children[j as int]@));
        assert(target@.children =~= old(target)@.children + source@.children.take(j + 1));
        j += 1;
    }
    assert(source@.children.take(source.children.len() as int) =~= source@.children);
}

fn push_copy(acc: &mut XmlElement, child: &XmlNode)
    ensures
        final(acc)@ == old(acc)@.with_children(old(acc)@.children.push(child@)),
{
    acc.children.push(child.duplicate());
    assert(acc@.children =~= old(acc)@.children.push(child@));
}

fn merge_node(acc: &mut XmlElement, child: &XmlNode)
    ensures
        final(acc)@ == merge_child(old(acc)@, child@),
{
    match child {
        XmlNode::Element(e) => {
            match acc.child_index(&e.name, &e.namespace) {
                Some(i) => {
                    assert(acc@.children[i as int] == acc.children[i as int]@);
                    let same = match &acc.children[i] {
                        XmlNode::Element(a) => attributes_equal(&a.attributes, &e.attributes),
                        _ => false,
                    };
                    if same {
                        let a = child_element_mut(acc, i);
                        append_copies(a, e);
                        proof {
                            lemma_child_replaced(*old(acc), *acc, i as int, *a);
                        }
                    } else {
                        push_copy(acc, child);
                    }
                },
                None => {
                    push_copy(acc, child);
                },
            }
        },
        _ => {
            push_copy(acc, child);
        },
    }
}

/// Merges copies of the children of `element` into `accumulator`, in their order.
pub fn merge_into(accumulator: &mut XmlElement, element: &XmlElement)
    ensures
        final(accumulator)@ == merge_model(old(accumulator)@, element@),
{
    let mut i: usize = 0;
    assert(element@.children.take(0) =~= Seq::<NodeView>::empty());
    while i < element.children.len()
        invariant
            i <= element.children.len(),
            accumulator@ == merge_children(old(accumulator)@, element@.children.take(i as int)),
        decreases element.children.len() - i,
    {
        assert(element@.children.take(i + 1).drop_last() =~= element@.children.take(i as int));
        assert(element@.children.take(i + 1).last() == element.children[i as int]@);
        merge_node(accumulator, &element.children[i]);
        i += 1;
    }
    assert(element@.children.take(element.children.len() as int) =~= element@.children);
}

/// Merges the children of `element` into `accumulator`, in their order.
pub fn merge_soap_enveloppe(accumulator: XmlElement, element: XmlElement) -> (r: XmlElement)
    ensures
        r@ == merge_model(accumulator@, element@),
{
    let mut acc = accumulator;
    merge_into(&mut acc, &element);
    acc
}

/// The envelope that takes the children of the root of `b` into the root of `a`.
pub fn merge_messages(a: SoapMessage, b: SoapMessage) -> (r: SoapMessage)
    ensures
        r.0@ == merge_model(a.0@, b.0@),
{
    SoapMessage(merge_soap_enveloppe(a.0, b.0))
}

/// A child replaced by one that is a `Body` exactly if it was leaves the
/// number of `Body` children as it is.
pub proof fn lemma_count_bodies_update(children: Seq<NodeView>, i: int, put: NodeView)
    requires
        0 <= i < children.len(),
        node_matches(put, "Body"@, Some(ENV_NS@)) == node_matches(
            children[i],
            "Body"@,
            Some(ENV_NS@),
        ),
    ensures
        count_bodies(children.update(i, put)) == count_bodies(children),
    decreases children.len(),
{
    let changed = children.update(i, put);
    if i == children.len() - 1 {
        assert(changed.drop_last() =~= children.drop_last());
    } else {
        lemma_count_bodies_update(children.drop_last(), i, put);
        assert(changed.drop_last() =~= children.drop_last().update(i, put));
    }
}

/// Whether a node is an element with the local name `Body`, in whatever namespace.
pub open spec fn named_body(n: NodeView) -> bool {
    node_matches(n, "Body"@, None)
}

/// The accumulator has its `Body` at place `at`, with these attributes and
/// children, and the name, the namespace and the number of `Body` children of `root`.
pub open spec fn body_stands(
    acc: ElementView,
    root: ElementView,
    at: int,
    attributes: Seq<(Seq<char>, Seq<char>)>,
    children: Seq<NodeView>,
) -> bool {
    &&& acc.name == root.name
    &&& acc.namespace == root.namespace
    &&& count_bodies(acc.children) == count_bodies(root.children)
    &&& body_index(acc) == Some(at)
    &&& element_at(acc, at).attributes == attributes
    &&& element_at(acc, at).children == children
}

/// One step of a merge, seen from the `Body` of the accumulator: a `Body`
/// of the envelope namespace with the same attributes hands its children
/// over; a node that is no element named `Body` leaves the `Body` as it is.
pub proof fn lemma_merge_child_body(
    acc: ElementView,
    c: NodeView,
    root: ElementView,
    at: int,
    attributes: Seq<(Seq<char>, Seq<char>)>,
    children: Seq<NodeView>,
)
    requires
        body_stands(acc, root, at, attributes, children),
    ensures
        node_matches(c, "Body"@, Some(ENV_NS@)) && same_attributes(
            attributes,
            c->Element_0.attributes,
        ) ==> body_stands(
            merge_child(acc, c),
            root,
            at,
            attributes,
            children + c->Element_0.children,
        ),
        !named_body(c) ==> body_stands(merge_child(acc, c), root, at, attributes, children),
{
    let body = "Body"@;
    let env = Some(ENV_NS@);
    lemma_find_child_is_first(acc.children, body, env);
    lemma_find_child_push(acc.children, c, body, env);
    assert(acc.children.push(c).drop_last() =~= acc.children);
    match c {
        NodeView::Element(e) => {
            lemma_find_child_is_first(acc.children, e.name, e.namespace);
            match find_child(acc.children, e.name, e.namespace) {
                Some(i) => {
                    let a = element_at(acc, i);
                    let put = NodeView::Element(a.with_children(a.children + e.children));
                    lemma_find_child_update(acc.children, i, put, body, env);
                    lemma_count_bodies_update(acc.children, i, put);
                },
                None => {},
            }
        },
        _ => {},
    }
}

/// A merge, seen from the `Body` of the accumulator, after the first `n`
/// children of the merged element.
proof fn lemma_merge_children_body(a: ElementView, children: Seq<NodeView>, at: int, n: int)
    requires
        body_index(a) is Some,
        0 <= at < children.len(),
        0 <= n <= children.len(),
        node_matches(children[at], "Body"@, Some(ENV_NS@)),
        same_attributes(body_of(a).attributes, children[at]->Element_0.attributes),
        forall|k: int| 0 <= k < children.len() && k != at ==> !named_body(#[trigger] children[k]),
    ensures
        body_stands(
            merge_children(a, children.take(n)),
            a,
            body_index(a).unwrap(),
            body_of(a).attributes,
            body_of(a).children + if n > at {
                children[at]->Element_0.children
            } else {
                Seq::empty()
            },
        ),
    decreases n,
{
    if n == 0 {
        assert(body_of(a).children + Seq::<NodeView>::empty() =~= body_of(a).children);
    } else {
        lemma_merge_children_body(a, children, at, n - 1);
        assert(children.take(n).drop_last() =~= children.take(n - 1));
        assert(children.take(n).last() == children[n - 1]);
        let before = body_of(a).children + if n - 1 > at {
            children[at]->Element_0.children
        } else {
            Seq::empty()
        };
        lemma_merge_child_body(
            merge_children(a, children.take(n - 1)),
            children[n - 1],
            a,
            body_index(a).unwrap(),
            body_of(a).attributes,
            before,
        );
        if n - 1 == at {
            assert(before =~= body_of(a).children);
        }
    }
}

/// The element has a `Body` of the envelope namespace and no other child
/// element with the local name `Body`.
pub open spec fn sole_body(e: ElementView) -> bool {
    &&& body_index(e) is Some
    &&& forall|k: int|
        0 <= k < e.children.len() && k != body_index(e).unwrap() ==> !named_body(
            #[trigger] e.children[k],
        )
}

/// Merging at the top: where `a` has a `Body`, `b` has one and no other
/// child named `Body`, and the two have the same attributes, the `Body` of
/// the merged envelope stands where that of `a` stood and holds the
/// children of the `Body` of `a` followed by those of the `Body` of `b`.
/// The root keeps its name, its namespace and the number of its `Body`
/// children: the merge of an envelope is an envelope.
pub proof fn lemma_merge_bodies(a: ElementView, b: ElementView)
    requires
        body_index(a) is Some,
        sole_body(b),
        same_attributes(body_of(a).attributes, body_of(b).attributes),
    ensures
        body_index(merge_model(a, b)) == body_index(a),
        body_of(merge_model(a, b)).children == body_of(a).children + body_of(b).children,
        body_of(merge_model(a, b)).attributes == body_of(a).attributes,
        merge_model(a, b).name == a.name,
        merge_model(a, b).namespace == a.namespace,
        count_bodies(merge_model(a, b).children) == count_bodies(a.children),
        is_envelope(a) ==> is_envelope(merge_model(a, b)),
{
    lemma_find_child_is_first(b.children, "Body"@, Some(ENV_NS@));
    lemma_merge_children_body(a, b.children, body_index(b).unwrap(), b.children.len() as int);
    assert(b.children.take(b.children.len() as int) =~= b.children);
}

} // verus!
