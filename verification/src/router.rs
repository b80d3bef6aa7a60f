//! Routing the operations of a request to handlers, and putting their
//! responses together.
use vstd::prelude::*;
use crate::document::{read_xml, write_xml, xml_document, xml_text};
use crate::fault::{fault_envelope, Language, SoapFault, SoapFaultCode};
use crate::lookup::{first_index, lemma_first_index};
use crate::merge::{lemma_merge_bodies, merge_into, merge_model, sole_body};
use crate::message::{body_index, body_of, header_index, is_envelope, SoapMessage};
use crate::xml::{
    element_at, pairs_view, same_attributes, XmlElement, ElementView, NodeView, ENV_NS,
};

verus! {

/// One operation of a request: the headers of the envelope and one child of its `Body`.
#[derive(Debug)]
pub struct SoapRequest {
    pub headers: XmlElement,
    pub body: XmlElement,
}

impl SoapRequest {
    /// The operation element as an XML document, for a handler that reads
    /// its input from bytes; `None` where the element cannot be written.
    pub fn body_bytes(&self) -> (r: Option<Vec<u8>>)
        ensures
            match r {
                Some(b) => xml_text(self.body@) == Some(b@),
                None => xml_text(self.body@) is None,
            },
    {
        write_xml(&self.body)
    }

    /// The headers as an XML document; `None` where they cannot be written.
    pub fn headers_bytes(&self) -> (r: Option<Vec<u8>>)
        ensures
            match r {
                Some(b) => xml_text(self.headers@) == Some(b@),
                None => xml_text(self.headers@) is None,
            },
    {
        write_xml(&self.headers)
    }
}

/// No key occurs twice.
pub open spec fn keys_distinct(keys: Seq<(Seq<char>, Seq<char>)>) -> bool {
    forall|i: int, j: int| 0 <= i < j < keys.len() ==> #[trigger] keys[i] != #[trigger] keys[j]
}

/// The key under which an operation element is looked up: its namespace,
/// empty where it has none, and its local name.
pub open spec fn operation_key(e: ElementView) -> (Seq<char>, Seq<char>) {
    (
        match e.namespace {
            Some(n) => n,
            None => Seq::empty(),
        },
        e.name,
    )
}

/// The headers that every request of an envelope gets: its `Header`, or an
/// empty `Header` of the envelope namespace where it has none.
pub open spec fn headers_model(envelope: ElementView) -> ElementView {
    match header_index(envelope) {
        Some(i) => element_at(envelope, i),
        None => ElementView { namespace: Some(ENV_NS@), ..ElementView::named("Header"@) },
    }
}

/// The requests that the children of a `Body` give rise to, in document
/// order: one for each element whose key has a route, with the place of
/// that route. Other nodes give none.
pub open spec fn dispatch_plan(
    keys: Seq<(Seq<char>, Seq<char>)>,
    headers: ElementView,
    children: Seq<NodeView>,
) -> Seq<(int, ElementView, ElementView)>
    decreases children.len(),
{
    if children.len() == 0 {
        Seq::empty()
    } else {
        let front = dispatch_plan(keys, headers, children.drop_last());
        match children.last() {
            NodeView::Element(e) => if first_index(keys, operation_key(e)) < keys.len() {
                front.push((first_index(keys, operation_key(e)), headers, e))
            } else {
                front
            },
            _ => front,
        }
    }
}

/// The model of a list of planned requests.
pub open spec fn requests_view(v: Seq<(usize, SoapRequest)>) -> Seq<
    (int, ElementView, ElementView),
> {
    Seq::new(v.len(), |i: int| (v[i].0 as int, v[i].1.headers@, v[i].1.body@))
}

/// The model of a list of envelopes.
pub open spec fn messages_view(v: Seq<SoapMessage>) -> Seq<ElementView> {
    Seq::new(v.len(), |i: int| v[i].0@)
}

/// The envelopes merged from the left: the first one takes in the others in turn.
pub open spec fn merge_all(responses: Seq<ElementView>) -> ElementView
    recommends
        responses.len() > 0,
    decreases responses.len(),
{
    if responses.len() <= 1 {
        responses[0]
    } else {
        merge_model(merge_all(responses.drop_last()), responses.last())
    }
}

/// Whether the root is `Envelope` in the envelope namespace.
pub open spec fn is_soap_root(e: ElementView) -> bool {
    e.name == "Envelope"@ && e.namespace == Some(ENV_NS@)
}

/// Accepts the root of a document as a SOAP envelope: the root is
/// `Envelope` in the envelope namespace and has a `Body` in it.
pub fn accept_envelope(root: XmlElement) -> (r: Result<SoapMessage, String>)
    ensures
        match r {
            Ok(m) => is_soap_root(root@) && body_index(root@) is Some && m.0@ == root@,
            Err(e) => if !is_soap_root(root@) {
                e@ == "Not a SOAP message"@
            } else {
                body_index(root@) is None && e@ == "Malformed SOAP Message"@
            },
        },
{
    let is_root = root.name == String::from_str("Envelope") && match &root.namespace {
        Some(n) => *n == String::from_str(ENV_NS),
        None => false,
    };
    if !is_root {
        return Err(String::from_str("Not a SOAP message"));
    }
    if root.get_child("Body", ENV_NS).is_none() {
        return Err(String::from_str("Malformed SOAP Message"));
    }
    Ok(SoapMessage(root))
}

/// The envelope that answers a request: the responses merged from the
/// left, or, where there is none, the fault that says that no operation
/// of the request has a route, with its reason in the language at `language`.
pub open spec fn response_model(responses: Seq<ElementView>, language: usize) -> ElementView {
    if responses.len() == 0 {
        fault_envelope(
            SoapFaultCode::Sender.name(),
            Seq::empty(),
            seq![(language, "No matching operation"@)],
            None,
        )
    } else {
        merge_all(responses)
    }
}

/// The document that answers a request, from the envelopes of its
/// handlers in the order of their operations; `None` where the answer
/// cannot be written as XML.
pub fn write_response(responses: Vec<SoapMessage>, language: Language) -> (r: Option<Vec<u8>>)
    ensures
        match r {
            Some(b) => xml_text(response_model(messages_view(responses@), language.index()))
                == Some(b@),
            None => xml_text(response_model(messages_view(responses@), language.index())) is None,
        },
{
    let merged = match merge_responses(responses) {
        Some(m) => m,
        None => unknown_operation_fault(language).into_message(),
    };
    write_xml(&merged.0)
}

/// The envelope that answers for one handler: its own, or the one that
/// reports its fault.
pub fn envelope_of(result: Result<SoapMessage, SoapFault>) -> (r: SoapMessage)
    ensures
        match result {
            Ok(m) => r.0@ == m.0@,
            Err(f) => r.0@ == fault_envelope(f.code().name(), f.sub_codes(), f.reason(), f.detail()),
        },
{
    match result {
        Ok(m) => m,
        Err(f) => f.into_message(),
    }
}

/// The fault that answers a request none of whose operations has a route.
pub fn unknown_operation_fault(language: Language) -> (r: SoapFault)
    ensures
        r.wf(),
        r.code() == SoapFaultCode::Sender,
        r.sub_codes() == Seq::<(Seq<char>, Seq<char>)>::empty(),
        r.reason() == seq![(language.index(), "No matching operation"@)],
        r.detail() is None,
{
    let mut reason: Vec<(Language, String)> = Vec::new();
    reason.push((language, String::from_str("No matching operation")));
    let sub_codes: Vec<(String, String)> = Vec::new();
    assert(crate::fault::reasons_view(reason@) =~= seq![
        (language.index(), "No matching operation"@),
    ]);
    assert(pairs_view(sub_codes@) =~= Seq::<(Seq<char>, Seq<char>)>::empty());
    SoapFault::new(SoapFaultCode::Sender, sub_codes, reason, None)
}

/// The response envelopes merged from the left; `None` where there is none.
pub fn merge_responses(responses: Vec<SoapMessage>) -> (r: Option<SoapMessage>)
    ensures
        r is None <==> responses.len() == 0,
        r is Some ==> r.unwrap().0@ == merge_all(messages_view(responses@)),
{
    if responses.len() == 0 {
        return None;
    }
    let ghost all = messages_view(responses@);
    let mut acc = responses[0].0.duplicate();
    let mut i: usize = 1;
    assert(all.take(1).len() == 1);
    while i < responses.len()
        invariant
            1 <= i <= responses.len(),
            all == messages_view(responses@),
            acc@ == merge_all(all.take(i as int)),
        decreases responses.len() - i,
    {
        assert(all.take(i + 1).drop_last() =~= all.take(i as int));
        assert(all.take(i + 1).last() == responses[i as int].0@);
        merge_into(&mut acc, &responses[i].0);
        i += 1;
    }
    assert(all.take(responses.len() as int) =~= all);
    Some(SoapMessage(acc))
}

/// The headers that the requests of this envelope get.
pub fn request_headers(message: &SoapMessage) -> (r: XmlElement)
    ensures
        r@ == headers_model(message.0@),
{
    match message.get_headers() {
        None => {
            let mut e = XmlElement::new("Header");
            e.namespace = Some(String::from_str(ENV_NS));
            e
        },
        Some(h) => h.duplicate(),
    }
}

/// A routing table from the qualified names of operations to handlers,
/// with a state that the handlers share.
#[derive(Clone)]
pub struct SoapRouter<S, H> {
    state: S,
    keys: Vec<(String, String)>,
    handlers: Vec<H>,
}

impl<S, H> SoapRouter<S, H> {
    /// The state.
    pub closed spec fn state_value(&self) -> S {
        self.state
    }

    /// The keys that have a route, each a namespace URI and a local name.
    pub closed spec fn route_keys(&self) -> Seq<(Seq<char>, Seq<char>)> {
        pairs_view(self.keys@)
    }

    /// The handlers, each at the place of its key.
    pub closed spec fn handlers(&self) -> Seq<H> {
        self.handlers@
    }

    /// Every key has one handler, and no key occurs twice.
    pub open spec fn wf(&self) -> bool {
        &&& self.handlers().len() == self.route_keys().len()
        &&& keys_distinct(self.route_keys())
    }

    /// A router without routes.
    pub fn new(state: S) -> (r: Self)
        ensures
            r.wf(),
            r.state_value() == state,
            r.route_keys() == Seq::<(Seq<char>, Seq<char>)>::empty(),
            r.handlers() == Seq::<H>::empty(),
    {
        let r = SoapRouter { state, keys: Vec::new(), handlers: Vec::new() };
        assert(pairs_view(r.keys@) =~= Seq::<(Seq<char>, Seq<char>)>::empty());
        r
    }

    /// The state.
    pub fn state(&self) -> (r: &S)
        ensures
            *r == self.state_value(),
    {
        &self.state
    }

    /// The place of the route of this key; the number of routes where it has none.
    pub fn route_position(&self, namespace: &String, element_name: &String) -> (r: usize)
        ensures
            r == first_index(self.route_keys(), (namespace@, element_name@)),
            r <= self.route_keys().len(),
    {
        let ghost all = pairs_view(self.keys@);
        let ghost key = (namespace@, element_name@);
        let mut i: usize = 0;
        assert(all.skip(0) =~= all);
        while i < self.keys.len() && !(self.keys[i].0 == *namespace && self.keys[i].1
            == *element_name)
            invariant
                i <= self.keys.len(),
                all == pairs_view(self.keys@),
                key == (namespace@, element_name@),
                first_index(all, key) == i + first_index(all.skip(i as int), key),
            decreases self.keys.len() - i,
        {
            assert(all.skip(i as int)[0] == all[i as int]);
            assert(all.skip(i as int).drop_first() =~= all.skip(i + 1));
            i += 1;
        }
        proof {
            if i < self.keys.len() {
                assert(all.skip(i as int)[0] == all[i as int]);
            }
        }
        i
    }

    /// Registers `handler` for the operation with this namespace and local
    /// name. A key that had a route keeps its place and gets the new handler.
    pub fn add_operation(self, namespace: String, element_name: String, handler: H) -> (r: Self)
        requires
            self.wf(),
        ensures
            r.wf(),
            r.state_value() == self.state_value(),
            first_index(self.route_keys(), (namespace@, element_name@)) < self.route_keys().len()
                ==> r.route_keys() == self.route_keys() && r.handlers() == self.handlers().update(
                first_index(self.route_keys(), (namespace@, element_name@)),
                handler,
            ),
            first_index(self.route_keys(), (namespace@, element_name@)) >= self.route_keys().len()
                ==> r.route_keys() == self.route_keys().push((namespace@, element_name@))
                && r.handlers() == self.handlers().push(handler),
            first_index(r.route_keys(), (namespace@, element_name@)) < r.route_keys().len(),
            r.handlers()[first_index(r.route_keys(), (namespace@, element_name@))] == handler,
    {
        let mut router = self;
        let i = router.route_position(&namespace, &element_name);
        proof {
            lemma_first_index(self.route_keys(), (namespace@, element_name@));
        }
        if i < router.keys.len() {
            router.handlers.set(i, handler);
        } else {
            router.keys.push((namespace, element_name));
            router.handlers.push(handler);
            assert(pairs_view(router.keys@) =~= pairs_view(self.keys@).push(
                (namespace@, element_name@),
            ));
        }
        proof {
            let keys = router.route_keys();
            let key = (namespace@, element_name@);
            lemma_first_index(keys, key);
            if i >= self.keys.len() {
                assert(keys[keys.len() - 1] == key);
                if first_index(keys, key) < keys.len() - 1 {
                    assert(keys[first_index(keys, key)] != keys[keys.len() - 1]);
                }
            }
        }
        router
    }

    /// The handler at a place of the table.
    pub fn handler(&self, i: usize) -> (r: &H)
        requires
            i < self.handlers().len(),
        ensures
            *r == self.handlers()[i as int],
    {
        &self.handlers[i]
    }

    /// Reads a request: the bytes hold an XML document whose root is a SOAP
    /// envelope with a `Body`.
    pub fn parse_request(&self, body: &[u8]) -> (r: Result<SoapMessage, String>)
        ensures
            match r {
                Ok(m) => xml_document(body@) == Some(m.0@) && is_soap_root(m.0@) && m.has_body(),
                Err(e) => match xml_document(body@) {
                    None => e@ == "Not an XML document"@,
                    Some(root) => if !is_soap_root(root) {
                        e@ == "Not a SOAP message"@
                    } else {
                        body_index(root) is None && e@ == "Malformed SOAP Message"@
                    },
                },
            },
    {
        match read_xml(body) {
            Some(root) => accept_envelope(root),
            None => Err(String::from_str("Not an XML document")),
        }
    }

    /// The requests of an envelope, in the order of their operations, each
    /// with the place of the route that takes it.
    pub fn dispatch(&self, message: &SoapMessage) -> (r: Vec<(usize, SoapRequest)>)
        requires
            self.wf(),
            message.has_body(),
        ensures
            requests_view(r@) == dispatch_plan(
                self.route_keys(),
                headers_model(message.0@),
                body_of(message.0@).children,
            ),
            forall|k: int| 0 <= k < r.len() ==> (#[trigger] r[k]).0 < self.handlers().len(),
    {
        let soap_body = message.get_body();
        let soap_headers = request_headers(message);
        let ghost keys = self.route_keys();
        let ghost children = soap_body@.children;
        let mut plan: Vec<(usize, SoapRequest)> = Vec::new();
        let mut i: usize = 0;
        assert(requests_view(plan@) =~= dispatch_plan(keys, soap_headers@, children.take(0)));
        while i < soap_body.children.len()
            invariant
                i <= soap_body.children.len(),
                self.wf(),
                keys == self.route_keys(),
                children == soap_body@.children,
                requests_view(plan@) == dispatch_plan(keys, soap_headers@, children.take(i as int)),
                forall|k: int| 0 <= k < plan.len() ==> (#[trigger] plan[k]).0 < self.handlers().len(),
            decreases soap_body.children.len() - i,
        {
            let ghost before = requests_view(plan@);
            assert(children.take(i + 1).drop_last() =~= children.take(i as int));
            assert(children.take(i + 1).last() == soap_body.children[i as int]@);
            if let Some(elem) = soap_body.children[i].as_element() {
                let namespace = match &elem.namespace {
                    Some(n) => n.clone(),
                    None => String::new(),
                };
                let at = self.route_position(&namespace, &elem.name);
                if at < self.keys.len() {
                    let request = SoapRequest {
                        headers: soap_headers.duplicate(),
                        body: elem.duplicate(),
                    };
                    plan.push((at, request));
                    assert(requests_view(plan@) =~= before.push(
                        (at as int, soap_headers@, elem@),
                    ));
                }
            }
            i += 1;
        }
        assert(children.take(soap_body.children.len() as int) =~= children);
        plan
    }
}

/// The children of the `Body`s of these envelopes, one envelope after the other.
pub open spec fn joined_bodies(responses: Seq<ElementView>) -> Seq<NodeView>
    decreases responses.len(),
{
    if responses.len() == 0 {
        Seq::empty()
    } else {
        joined_bodies(responses.drop_last()) + body_of(responses.last()).children
    }
}

/// Response order: where every response has a `Body` of the envelope
/// namespace and no other child named `Body`, and all these have the
/// attributes of the first, the `Body` of the merged envelope holds the
/// children of their `Body`s in the order of the responses. The merged
/// envelope has the root name and namespace of the first response, and is
/// an envelope where the first response is one.
pub proof fn lemma_merge_all_bodies(responses: Seq<ElementView>)
    requires
        responses.len() > 0,
        forall|i: int| 0 <= i < responses.len() ==> sole_body(#[trigger] responses[i]),
        forall|i: int|
            0 <= i < responses.len() ==> same_attributes(
                body_of(responses[0]).attributes,
                body_of(#[trigger] responses[i]).attributes,
            ),
    ensures
        body_index(merge_all(responses)) == body_index(responses[0]),
        body_of(merge_all(responses)).attributes == body_of(responses[0]).attributes,
        body_of(merge_all(responses)).children == joined_bodies(responses),
        merge_all(responses).name == responses[0].name,
        merge_all(responses).namespace == responses[0].namespace,
        is_envelope(responses[0]) ==> is_envelope(merge_all(responses)),
    decreases responses.len(),
{
    let front = responses.drop_last();
    if responses.len() == 1 {
        assert(front.len() == 0);
        assert(joined_bodies(front) =~= Seq::<NodeView>::empty());
        assert(responses.last() == responses[0]);
        assert(joined_bodies(responses) =~= body_of(responses[0]).children);
    } else {
        assert forall|i: int| 0 <= i < front.len() implies sole_body(#[trigger] front[i]) by {
            assert(front[i] == responses[i]);
        }
        assert forall|i: int| 0 <= i < front.len() implies same_attributes(
            body_of(front[0]).attributes,
            body_of(#[trigger] front[i]).attributes,
        ) by {
            assert(front[i] == responses[i]);
            assert(front[0] == responses[0]);
        }
        lemma_merge_all_bodies(front);
        assert(front[0] == responses[0]);
        assert(sole_body(responses[responses.len() - 1]));
        assert(same_attributes(
            body_of(responses[0]).attributes,
            body_of(responses[responses.len() - 1]).attributes,
        ));
        lemma_merge_bodies(merge_all(front), responses.last());
    }
}

/// The places, among the children of a `Body`, of the operations that have a route.
pub open spec fn routed_positions(keys: Seq<(Seq<char>, Seq<char>)>, children: Seq<NodeView>) -> Seq<
    int,
>
    decreases children.len(),
{
    if children.len() == 0 {
        Seq::empty()
    } else {
        let front = routed_positions(keys, children.drop_last());
        match children.last() {
            NodeView::Element(e) => if first_index(keys, operation_key(e)) < keys.len() {
                front.push(children.len() - 1)
            } else {
                front
            },
            _ => front,
        }
    }
}

/// Dispatch order: the requests of a plan are the routed operations of
/// the `Body`, each once and in document order, each with the headers of
/// the envelope and the place of the route of its key.
pub proof fn lemma_dispatch_order(
    keys: Seq<(Seq<char>, Seq<char>)>,
    headers: ElementView,
    children: Seq<NodeView>,
)
    ensures
        dispatch_plan(keys, headers, children).len() == routed_positions(keys, children).len(),
        forall|i: int|
            0 <= i < routed_positions(keys, children).len() ==> {
                let at = #[trigger] routed_positions(keys, children)[i];
                let planned = dispatch_plan(keys, headers, children)[i];
                &&& 0 <= at < children.len()
                &&& children[at] == NodeView::Element(planned.2)
                &&& planned.1 == headers
                &&& planned.0 == first_index(keys, operation_key(planned.2))
                &&& planned.0 < keys.len()
            },
        forall|i: int, j: int|
            0 <= i < j < routed_positions(keys, children).len() ==> #[trigger] routed_positions(
                keys,
                children,
            )[i] < #[trigger] routed_positions(keys, children)[j],
    decreases children.len(),
{
    if children.len() > 0 {
        let front = children.drop_last();
        lemma_dispatch_order(keys, headers, front);
        let at_front = routed_positions(keys, front);
        let at_all = routed_positions(keys, children);
        assert forall|i: int| 0 <= i < at_all.len() implies {
            let at = #[trigger] at_all[i];
            let planned = dispatch_plan(keys, headers, children)[i];
            &&& 0 <= at < children.len()
            &&& children[at] == NodeView::Element(planned.2)
            &&& planned.1 == headers
            &&& planned.0 == first_index(keys, operation_key(planned.2))
            &&& planned.0 < keys.len()
        } by {
            if i < at_front.len() {
                assert(at_all[i] == at_front[i]);
                assert(front[at_front[i]] == children[at_front[i]]);
            }
        }
        assert forall|i: int, j: int| 0 <= i < j < at_all.len() implies #[trigger] at_all[i]
            < #[trigger] at_all[j] by {
            assert(at_all[i] == at_front[i]);
            if j < at_front.len() {
                assert(at_all[j] == at_front[j]);
            }
        }
    }
}

} // verus!
