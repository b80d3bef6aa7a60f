//! SOAP 1.2 faults and their rendering as envelopes.
use vstd::prelude::*;
use crate::lookup::{first_index, lemma_first_index, lemma_first_index_push};
use crate::message::{
    body_of, env_element, env_named, envelope_declarations, envelope_with, is_envelope,
    lemma_envelope_with, SoapMessage,
};
use crate::prefix::{ascii_text, nth_prefix, PrefixGenerator};
use crate::xml::{
    attr_lookup, namespace_put, ns_put, pairs_view, XmlElement, ElementView, NodeView, XmlNode,
    ENV_NS, XML_NS,
};

verus! {

/// The ISO 639-3 code of the language that stands at `index` in the table
/// of the `isolang` crate; `None` where the table has no such place.
pub uninterp spec fn iso_639_3(index: usize) -> Option<Seq<char>>;

/// Wraps `isolang::Language::from_usize` and, on the language it gives,
/// `isolang::Language::to_639_3`: the three-letter code of the language at
/// this place of the table, or `None` where `from_usize` gives none.
#[verifier::external_body]
fn language_code(index: usize) -> (r: Option<String>)
    ensures
        match r {
            Some(s) => iso_639_3(index) == Some(s@),
            None => iso_639_3(index) is None,
        },
{
    match isolang::Language::from_usize(index) {
        Some(l) => Some(l.to_639_3().to_string()),
        None => None,
    }
}

/// An ISO 639 language, held as its place in the language table.
#[derive(Clone, Copy, Debug)]
pub struct Language {
    index: usize,
}

impl Language {
    /// The place of the language in the table.
    pub closed spec fn index(&self) -> usize {
        self.index
    }

    #[verifier::type_invariant]
    spec fn known(&self) -> bool {
        iso_639_3(self.index) is Some
    }

    /// The language at this place of the table, if there is one.
    pub fn from_index(index: usize) -> (r: Option<Language>)
        ensures
            r is Some <==> iso_639_3(index) is Some,
            r is Some ==> r.unwrap().index() == index,
    {
        match language_code(index) {
            Some(_) => Some(Language { index }),
            None => None,
        }
    }

    /// The place of the language in the table.
    pub fn to_index(&self) -> (r: usize)
        ensures
            r == self.index(),
    {
        self.index
    }

    /// The ISO 639-3 code of the language.
    pub fn to_639_3(&self) -> (r: String)
        ensures
            iso_639_3(self.index()) == Some(r@),
    {
        proof {
            use_type_invariant(self);
        }
        match language_code(self.index) {
            Some(s) => s,
            None => vstd::pervasive::unreached(),
        }
    }
}

/// The fault codes of SOAP 1.2.
#[derive(Clone, Copy, Debug, PartialEq, Eq, Structural)]
pub enum SoapFaultCode {
    VersionMismatch,
    MustUnderstand,
    DataEncodingUnknown,
    Sender,
    Receiver,
}

impl SoapFaultCode {
    /// The name that SOAP 1.2 gives the code.
    pub open spec fn name(&self) -> Seq<char> {
        match self {
            SoapFaultCode::VersionMismatch => "VersionMismatch"@,
            SoapFaultCode::MustUnderstand => "MustUnderstand"@,
            SoapFaultCode::DataEncodingUnknown => "DataEncodingUnknown"@,
            SoapFaultCode::Sender => "Sender"@,
            SoapFaultCode::Receiver => "Receiver"@,
        }
    }

    /// The name that SOAP 1.2 gives the code.
    pub fn to_string(&self) -> (r: String)
        ensures
            r@ == self.name(),
    {
        match self {
            SoapFaultCode::VersionMismatch => String::from_str("VersionMismatch"),
            SoapFaultCode::MustUnderstand => String::from_str("MustUnderstand"),
            SoapFaultCode::DataEncodingUnknown => String::from_str("DataEncodingUnknown"),
            SoapFaultCode::Sender => String::from_str("Sender"),
            SoapFaultCode::Receiver => String::from_str("Receiver"),
        }
    }
}

/// The languages and texts of a reason list.
pub open spec fn reasons_view(reason: Seq<(Language, String)>) -> Seq<(usize, Seq<char>)> {
    Seq::new(reason.len(), |i: int| (reason[i].0.index(), reason[i].1@))
}

/// Every language of the list has an ISO 639-3 code.
pub open spec fn languages_known(reasons: Seq<(usize, Seq<char>)>) -> bool {
    forall|i: int| 0 <= i < reasons.len() ==> iso_639_3((#[trigger] reasons[i]).0) is Some
}

/// No language occurs twice.
pub open spec fn languages_distinct(reasons: Seq<(usize, Seq<char>)>) -> bool {
    forall|i: int, j: int|
        0 <= i < j < reasons.len() ==> (#[trigger] reasons[i]).0 != (#[trigger] reasons[j]).0
}

/// A SOAP 1.2 fault.
#[derive(Debug)]
pub struct SoapFault {
    code: SoapFaultCode,
    sub_codes: Vec<(String, String)>,
    reason: Vec<(Language, String)>,
    detail: Option<XmlElement>,
}

impl SoapFault {
    /// The fault code.
    pub closed spec fn code(&self) -> SoapFaultCode {
        self.code
    }

    /// The subcodes, outermost first, each a namespace URI and a local name.
    pub closed spec fn sub_codes(&self) -> Seq<(Seq<char>, Seq<char>)> {
        pairs_view(self.sub_codes@)
    }

    /// The reasons, each the place of a language and a text.
    pub closed spec fn reason(&self) -> Seq<(usize, Seq<char>)> {
        reasons_view(self.reason@)
    }

    /// The detail element, if any.
    pub closed spec fn detail(&self) -> Option<ElementView> {
        match self.detail {
            Some(d) => Some(d@),
            None => None,
        }
    }

    /// A fault has at least one reason, and one reason for a language.
    pub open spec fn wf(&self) -> bool {
        &&& self.reason().len() > 0
        &&& languages_distinct(self.reason())
    }

    /// A fault of these parts. The reasons map languages to texts: there is
    /// at least one, and no language comes twice.
    pub fn new(
        code: SoapFaultCode,
        sub_codes: Vec<(String, String)>,
        reason: Vec<(Language, String)>,
        detail: Option<XmlElement>,
    ) -> (r: SoapFault)
        requires
            reason.len() > 0,
            languages_distinct(reasons_view(reason@)),
        ensures
            r.wf(),
            r.code() == code,
            r.sub_codes() == pairs_view(sub_codes@),
            r.reason() == reasons_view(reason@),
            r.detail() == match detail {
                Some(d) => Some(d@),
                None => None,
            },
    {
        SoapFault { code, sub_codes, reason, detail }
    }
}

/// The model of a list of strings.
pub open spec fn strings_view(v: Seq<String>) -> Seq<Seq<char>> {
    Seq::new(v.len(), |i: int| v[i]@)
}

/// The model of a list of nodes.
pub open spec fn nodes_view(v: Seq<XmlNode>) -> Seq<NodeView> {
    Seq::new(v.len(), |i: int| v[i]@)
}

/// The namespace URIs of the subcodes, each once, in the order in which
/// they first occur.
pub open spec fn distinct_uris(sub: Seq<(Seq<char>, Seq<char>)>) -> Seq<Seq<char>>
    decreases sub.len(),
{
    if sub.len() == 0 {
        Seq::empty()
    } else {
        let front = distinct_uris(sub.drop_last());
        if first_index(front, sub.last().0) < front.len() {
            front
        } else {
            front.push(sub.last().0)
        }
    }
}

/// The prefix of the URI at place `k`, counted from 0: `a`, `b`, ...
pub open spec fn prefix_text(k: int) -> Seq<char> {
    ascii_text(nth_prefix((k + 1) as nat))
}

/// A namespace table after the URIs were declared in turn, each under its prefix.
pub open spec fn declare_all(ns: Seq<(Seq<char>, Seq<char>)>, uris: Seq<Seq<char>>) -> Seq<
    (Seq<char>, Seq<char>),
>
    decreases uris.len(),
{
    if uris.len() == 0 {
        ns
    } else {
        ns_put(declare_all(ns, uris.drop_last()), prefix_text(uris.len() - 1), uris.last())
    }
}

/// A `Value` element that holds a text.
pub open spec fn value_model(text: Seq<char>) -> ElementView {
    env_named("Value"@).with_children(seq![NodeView::Text(text)])
}

/// The qualified name that a subcode is written as.
pub open spec fn subcode_text(uris: Seq<Seq<char>>, code: (Seq<char>, Seq<char>)) -> Seq<char> {
    prefix_text(first_index(uris, code.0)) + ":"@ + code.1
}

/// The chain of `Subcode` elements from subcode `k` on: nothing where there
/// is none left, else one `Subcode` that holds its `Value` and the rest of the chain.
pub open spec fn subcode_chain(
    sub: Seq<(Seq<char>, Seq<char>)>,
    uris: Seq<Seq<char>>,
    k: int,
) -> Seq<NodeView>
    decreases sub.len() - k,
{
    if k < 0 || k >= sub.len() {
        Seq::empty()
    } else {
        seq![
            NodeView::Element(
                env_named("Subcode"@).with_children(
                    seq![NodeView::Element(value_model(subcode_text(uris, sub[k])))]
                        + subcode_chain(sub, uris, k + 1),
                ),
            ),
        ]
    }
}

/// The `Code` element: the `Value` of the fault code, then the subcode chain.
pub open spec fn code_model(code: Seq<char>, sub: Seq<(Seq<char>, Seq<char>)>) -> ElementView {
    env_named("Code"@).with_children(
        seq![NodeView::Element(value_model("env:"@ + code))] + subcode_chain(
            sub,
            distinct_uris(sub),
            0,
        ),
    )
}

/// The `Text` element of one reason.
pub open spec fn reason_text_model(lang: Seq<char>, text: Seq<char>) -> ElementView {
    ElementView {
        attributes: seq![("xml:lang"@, lang)],
        children: seq![NodeView::Text(text)],
        ..env_named("Text"@)
    }
}

/// The `Reason` element: one `Text` for each reason, in their order.
pub open spec fn reason_model(reasons: Seq<(usize, Seq<char>)>) -> ElementView {
    env_named("Reason"@).with_children(
        Seq::new(
            reasons.len(),
            |i: int|
                NodeView::Element(
                    reason_text_model(iso_639_3(reasons[i].0).unwrap(), reasons[i].1),
                ),
        ),
    )
}

/// The `Fault` element: `Code`, `Reason` and, where there is one, the detail element.
pub open spec fn fault_model(
    code: Seq<char>,
    sub: Seq<(Seq<char>, Seq<char>)>,
    reasons: Seq<(usize, Seq<char>)>,
    detail: Option<ElementView>,
) -> ElementView {
    env_named("Fault"@).with_children(
        seq![NodeView::Element(code_model(code, sub)), NodeView::Element(reason_model(reasons))]
            + match detail {
            Some(d) => seq![NodeView::Element(d)],
            None => Seq::empty(),
        },
    )
}

/// The envelope of a fault: the prefixes of the subcode namespaces declared
/// beside `xml` and `env`, and a `Body` that holds the `Fault`.
pub open spec fn fault_envelope(
    code: Seq<char>,
    sub: Seq<(Seq<char>, Seq<char>)>,
    reasons: Seq<(usize, Seq<char>)>,
    detail: Option<ElementView>,
) -> ElementView {
    envelope_with(
        declare_all(envelope_declarations(), distinct_uris(sub)),
        seq![NodeView::Element(fault_model(code, sub, reasons, detail))],
    )
}

/// The namespace of every subcode is among the distinct URIs.
pub proof fn lemma_uri_declared(sub: Seq<(Seq<char>, Seq<char>)>, j: int)
    requires
        0 <= j < sub.len(),
    ensures
        first_index(distinct_uris(sub), sub[j].0) < distinct_uris(sub).len(),
    decreases sub.len(),
{
    let front = distinct_uris(sub.drop_last());
    lemma_first_index_push(front, sub.last().0, sub[j].0);
    lemma_first_index(front, sub[j].0);
    if j < sub.len() - 1 {
        lemma_uri_declared(sub.drop_last(), j);
    }
}

/// ISO language rendering: the `Text` of each reason carries as `xml:lang`
/// the ISO 639-3 code of the language of that reason.
pub proof fn lemma_reason_languages(reasons: Seq<(usize, Seq<char>)>, i: int)
    requires
        0 <= i < reasons.len(),
    ensures
        reason_model(reasons).children.len() == reasons.len(),
        reason_model(reasons).children[i] is Element,
        (reason_model(reasons).children[i]->Element_0).name == "Text"@,
        attr_lookup((reason_model(reasons).children[i]->Element_0).attributes, "xml:lang"@)
            == Some(iso_639_3(reasons[i].0).unwrap()),
{
    let t = reason_text_model(iso_639_3(reasons[i].0).unwrap(), reasons[i].1);
    assert(reason_model(reasons).children[i] == NodeView::Element(t));
    assert(t.attributes.drop_last() =~= Seq::<(Seq<char>, Seq<char>)>::empty());
    assert(t.attributes.last().0 == "xml:lang"@);
}

fn uri_position(uris: &Vec<String>, uri: &String) -> (r: usize)
    ensures
        r == first_index(strings_view(uris@), uri@),
        r <= uris.len(),
{
    let ghost all = strings_view(uris@);
    let mut i: usize = 0;
    assert(all.skip(0) =~= all);
    while i < uris.len() && !(uris[i] == *uri)
        invariant
            i <= uris.len(),
            all == strings_view(uris@),
            first_index(all, uri@) == i + first_index(all.skip(i as int), uri@),
        decreases uris.len() - i,
    {
        assert(all.skip(i as int)[0] == uris[i as int]@);
        assert(all.skip(i as int).drop_first() =~= all.skip(i + 1));
        i += 1;
    }
    proof {
        if i < uris.len() {
            assert(all.skip(i as int)[0] == uris[i as int]@);
        }
    }
    i
}

fn collect_uris(sub: &Vec<(String, String)>) -> (r: Vec<String>)
    ensures
        strings_view(r@) == distinct_uris(pairs_view(sub@)),
{
    let ghost all = pairs_view(sub@);
    let mut r: Vec<String> = Vec::new();
    let mut i: usize = 0;
    assert(strings_view(r@) =~= distinct_uris(all.take(0)));
    while i < sub.len()
        invariant
            i <= sub.len(),
            all == pairs_view(sub@),
            strings_view(r@) == distinct_uris(all.take(i as int)),
        decreases sub.len() - i,
    {
        let ghost front = strings_view(r@);
        assert(all.take(i + 1).drop_last() =~= all.take(i as int));
        assert(all.take(i + 1).last().0 == sub[i as int].0@);
        if uri_position(&r, &sub[i].0) >= r.len() {
            r.push(sub[i].0.clone());
            assert(strings_view(r@) =~= front.push(sub[i as int].0@));
        }
        i += 1;
    }
    assert(all.take(sub.len() as int) =~= all);
    r
}

fn declare_prefixes(namespaces: &mut Vec<(String, String)>, uris: &Vec<String>) -> (r: Vec<
    String,
>)
    ensures
        pairs_view(final(namespaces)@) == declare_all(
            pairs_view(old(namespaces)@),
            strings_view(uris@),
        ),
        r.len() == uris.len(),
        forall|k: int| 0 <= k < r.len() ==> (#[trigger] r[k])@ == prefix_text(k),
{
    let ghost all = strings_view(uris@);
    let mut pfgen = PrefixGenerator::new();
    let mut r: Vec<String> = Vec::new();
    let mut i: usize = 0;
    assert(all.take(0) =~= Seq::<Seq<char>>::empty());
    while i < uris.len()
        invariant
            i <= uris.len(),
            all == strings_view(uris@),
            pfgen.wf(),
            pfgen.state() == nth_prefix(i as nat),
            r.len() == i,
            forall|k: int| 0 <= k < r.len() ==> (#[trigger] r[k])@ == prefix_text(k),
            pairs_view(namespaces@) == declare_all(
                pairs_view(old(namespaces)@),
                all.take(i as int),
            ),
        decreases uris.len() - i,
    {
        let prefix = pfgen.next();
        assert(all.take(i + 1).drop_last() =~= all.take(i as int));
        assert(all.take(i + 1).last() == uris[i as int]@);
        namespace_put(namespaces, prefix.clone(), uris[i].clone());
        r.push(prefix);
        i += 1;
    }
    assert(all.take(uris.len() as int) =~= all);
    r
}

fn value_element(text: String) -> (r: XmlElement)
    ensures
        r@ == value_model(text@),
{
    let mut value = env_element("Value");
    value.children.push(XmlNode::Text(text));
    assert(value@.children =~= value_model(text@).children);
    value
}

fn subcode_elements(sub: &Vec<(String, String)>, uris: &Vec<String>, prefixes: &Vec<String>) -> (r:
    Vec<XmlNode>)
    requires
        strings_view(uris@) == distinct_uris(pairs_view(sub@)),
        prefixes.len() == uris.len(),
        forall|k: int| 0 <= k < prefixes.len() ==> (#[trigger] prefixes[k])@ == prefix_text(k),
    ensures
        nodes_view(r@) == subcode_chain(pairs_view(sub@), strings_view(uris@), 0),
{
    let ghost all = pairs_view(sub@);
    let ghost names = strings_view(uris@);
    let mut acc: Vec<XmlNode> = Vec::new();
    let mut k: usize = sub.len();
    assert(nodes_view(acc@) =~= subcode_chain(all, names, k as int));
    while k > 0
        invariant
            k <= sub.len(),
            all == pairs_view(sub@),
            names == strings_view(uris@),
            names == distinct_uris(all),
            prefixes.len() == uris.len(),
            forall|k: int| 0 <= k < prefixes.len() ==> (#[trigger] prefixes[k])@ == prefix_text(k),
            nodes_view(acc@) == subcode_chain(all, names, k as int),
        decreases k,
    {
        k -= 1;
        let ghost rest = nodes_view(acc@);
        proof {
            lemma_uri_declared(all, k as int);
        }
        let p = uri_position(uris, &sub[k].0);
        let text = prefixes[p].clone().concat(":").concat(sub[k].1.as_str());
        assert(text@ == subcode_text(names, all[k as int]));
        let mut subcode = env_element("Subcode");
        subcode.children.push(XmlNode::Element(value_element(text)));
        subcode.children.append(&mut acc);
        assert(subcode@.children =~= seq![NodeView::Element(value_model(text@))] + rest);
        acc.push(XmlNode::Element(subcode));
        assert(nodes_view(acc@) =~= subcode_chain(all, names, k as int));
    }
    acc
}

fn reason_element(reason: &Vec<(Language, String)>) -> (r: XmlElement)
    ensures
        r@ == reason_model(reasons_view(reason@)),
        languages_known(reasons_view(reason@)),
{
    let mut r = env_element("Reason");
    let mut i: usize = 0;
    while i < reason.len()
        invariant
            i <= reason.len(),
            r@.children == reason_model(reasons_view(reason@)).children.take(i as int),
            r@.with_children(Seq::empty()) == env_named("Reason"@),
            languages_known(reasons_view(reason@).take(i as int)),
        decreases reason.len() - i,
    {
        let ghost before = r@.children;
        let mut text = env_element("Text");
        let lang = reason[i].0.to_639_3();
        text.attributes.push((String::from_str("xml:lang"), lang));
        text.children.push(XmlNode::Text(reason[i].1.clone()));
        assert(text@.attributes =~= seq![("xml:lang"@, lang@)]);
        assert(text@.children =~= seq![NodeView::Text(reason[i as int].1@)]);
        assert(text@ == reason_text_model(lang@, reason[i as int].1@));
        r.children.push(XmlNode::Element(text));
        assert(r@.children =~= before.push(NodeView::Element(text@)));
        assert(r@.children =~= reason_model(reasons_view(reason@)).children.take(i + 1));
        i += 1;
    }
    assert(r@.children =~= reason_model(reasons_view(reason@)).children);
    assert(reasons_view(reason@).take(reason.len() as int) =~= reasons_view(reason@));
    r
}

/// The languages of a reason list.
pub open spec fn reason_languages(reasons: Seq<(usize, Seq<char>)>) -> Seq<usize> {
    Seq::new(reasons.len(), |i: int| reasons[i].0)
}

/// The text of the reason in the language at `preferred`; that of the
/// first reason where there is none in that language.
pub open spec fn chosen_reason(reasons: Seq<(usize, Seq<char>)>, preferred: usize) -> Seq<char>
    recommends
        reasons.len() > 0,
{
    let at = first_index(reason_languages(reasons), preferred);
    if at < reasons.len() {
        reasons[at].1
    } else {
        reasons[0].1
    }
}

impl SoapFault {
    /// One line that describes the fault: its code and its reason, in the
    /// preferred language where the fault has one in it.
    pub fn describe(&self, preferred: &Language) -> (r: String)
        requires
            self.wf(),
        ensures
            r@ == "SOAP Fault <"@ + self.code().name() + ".>: "@ + chosen_reason(
                self.reason(),
                preferred.index(),
            ),
    {
        let ghost reasons = self.reason();
        let ghost languages = reason_languages(reasons);
        let mut i: usize = 0;
        assert(languages.skip(0) =~= languages);
        while i < self.reason.len() && self.reason[i].0.to_index() != preferred.to_index()
            invariant
                i <= self.reason.len(),
                reasons == reasons_view(self.reason@),
                languages == reason_languages(reasons),
                first_index(languages, preferred.index()) == i + first_index(
                    languages.skip(i as int),
                    preferred.index(),
                ),
            decreases self.reason.len() - i,
        {
            assert(languages.skip(i as int)[0] == self.reason[i as int].0.index());
            assert(languages.skip(i as int).drop_first() =~= languages.skip(i + 1));
            i += 1;
        }
        let at = if i < self.reason.len() {
            i
        } else {
            0
        };
        proof {
            if i < self.reason.len() {
                assert(languages.skip(i as int)[0] == self.reason[i as int].0.index());
            }
            assert(reasons[at as int].1 == self.reason[at as int].1@);
        }
        String::from_str("SOAP Fault <").concat(self.code.to_string().as_str()).concat(
            ".>: ",
        ).concat(self.reason[at].1.as_str())
    }

    /// The envelope that reports this fault.
    pub fn into_message(self) -> (r: SoapMessage)
        ensures
            r.0@ == fault_envelope(
                self.code().name(),
                self.sub_codes(),
                self.reason(),
                self.detail(),
            ),
            is_envelope(r.0@),
            r.has_body(),
            body_of(r.0@).children == seq![
                NodeView::Element(
                    fault_model(
                        self.code().name(),
                        self.sub_codes(),
                        self.reason(),
                        self.detail(),
                    ),
                ),
            ],
            languages_known(self.reason()),
    {
        let mut namespaces: Vec<(String, String)> = Vec::new();
        namespaces.push((String::from_str("xml"), String::from_str(XML_NS)));
        namespaces.push((String::from_str("env"), String::from_str(ENV_NS)));
        assert(pairs_view(namespaces@) =~= envelope_declarations());
        let uris = collect_uris(&self.sub_codes);
        let prefixes = declare_prefixes(&mut namespaces, &uris);

        let mut code = env_element("Code");
        let code_text = String::from_str("env:").concat(self.code.to_string().as_str());
        code.children.push(XmlNode::Element(value_element(code_text)));
        let mut chain = subcode_elements(&self.sub_codes, &uris, &prefixes);
        let ghost chain_view = nodes_view(chain@);
        code.children.append(&mut chain);
        assert(code@.children =~= seq![NodeView::Element(value_model(code_text@))] + chain_view);
        assert(code@ == code_model(self.code().name(), self.sub_codes()));

        let reason = reason_element(&self.reason);

        let mut fault = env_element("Fault");
        fault.children.push(XmlNode::Element(code));
        fault.children.push(XmlNode::Element(reason));
        if let Some(det) = self.detail {
            fault.children.push(XmlNode::Element(det));
        }
        assert(fault@.children =~= fault_model(
            self.code().name(),
            self.sub_codes(),
            self.reason(),
            self.detail(),
        ).children);

        let mut body = env_element("Body");
        body.children.push(XmlNode::Element(fault));
        assert(body@.children =~= seq![NodeView::Element(fault@)]);

        let mut env = env_element("Envelope");
        env.namespaces = Some(namespaces);
        env.children.push(XmlNode::Element(body));
        assert(env@.children =~= seq![NodeView::Element(body@)]);
        proof {
            lemma_envelope_with(
                declare_all(envelope_declarations(), distinct_uris(self.sub_codes())),
                seq![NodeView::Element(fault@)],
            );
        }
        SoapMessage(env)
    }
}

} // verus!
