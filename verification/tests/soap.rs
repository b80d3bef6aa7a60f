use soap_router::fault::{Language, SoapFault, SoapFaultCode};
use soap_router::merge::{merge_messages, merge_soap_enveloppe};
use soap_router::message::SoapMessage;
use soap_router::document::{read_xml, write_xml};
use soap_router::router::{
    accept_envelope, envelope_of, merge_responses, request_headers, unknown_operation_fault,
    write_response, SoapRouter,
};
use soap_router::xml::{attributes_equal, namespace_put, XmlElement, XmlNode, ENV_NS, XML_NS};

const EXAMPLE_NS: &str = "http://www.example.org";

fn pairs(list: &[(&str, &str)]) -> Vec<(String, String)> {
    list.iter().map(|(a, b)| (a.to_string(), b.to_string())).collect()
}

fn node_to_model(n: &xmltree::XMLNode) -> XmlNode {
    match n {
        xmltree::XMLNode::Element(e) => XmlNode::Element(to_model(e)),
        xmltree::XMLNode::Comment(s) => XmlNode::Comment(s.clone()),
        xmltree::XMLNode::CData(s) => XmlNode::CData(s.clone()),
        xmltree::XMLNode::Text(s) => XmlNode::Text(s.clone()),
        xmltree::XMLNode::ProcessingInstruction(t, d) => {
            XmlNode::ProcessingInstruction(t.clone(), d.clone())
        }
    }
}

fn to_model(e: &xmltree::Element) -> XmlElement {
    let mut attributes: Vec<(String, String)> =
        e.attributes.iter().map(|(k, v)| (k.clone(), v.clone())).collect();
    attributes.sort();
    XmlElement {
        prefix: e.prefix.clone(),
        namespace: e.namespace.clone(),
        namespaces: e
            .namespaces
            .as_ref()
            .map(|n| n.0.iter().map(|(k, v)| (k.clone(), v.clone())).collect()),
        name: e.name.clone(),
        attributes,
        children: e.children.iter().map(node_to_model).collect(),
    }
}

fn node_from_model(n: &XmlNode) -> xmltree::XMLNode {
    match n {
        XmlNode::Element(e) => xmltree::XMLNode::Element(from_model(e)),
        XmlNode::Comment(s) => xmltree::XMLNode::Comment(s.clone()),
        XmlNode::CData(s) => xmltree::XMLNode::CData(s.clone()),
        XmlNode::Text(s) => xmltree::XMLNode::Text(s.clone()),
        XmlNode::ProcessingInstruction(t, d) => {
            xmltree::XMLNode::ProcessingInstruction(t.clone(), d.clone())
        }
    }
}

fn from_model(e: &XmlElement) -> xmltree::Element {
    let mut out = xmltree::Element::new(&e.name);
    out.prefix = e.prefix.clone();
    out.namespace = e.namespace.clone();
    out.namespaces = e.namespaces.as_ref().map(|list| {
        let mut ns = xmltree::Namespace::empty();
        for (prefix, uri) in list {
            ns.put(prefix.clone(), uri.clone());
        }
        ns
    });
    for (k, v) in &e.attributes {
        out.attributes.insert(k.clone(), v.clone());
    }
    out.children = e.children.iter().map(node_from_model).collect();
    out
}

fn parse(raw: &str) -> XmlElement {
    to_model(&xmltree::Element::parse(raw.as_bytes()).unwrap())
}

fn child_elements(e: &XmlElement) -> Vec<&XmlElement> {
    e.children.iter().filter_map(|n| n.as_element()).collect()
}

fn text_of(e: &XmlElement) -> String {
    match &e.children[0] {
        XmlNode::Text(t) => t.clone(),
        other => panic!("not a text: {:?}", other),
    }
}

fn stock_request(names: &[&str]) -> String {
    let mut operations = String::new();
    for name in names {
        operations.push_str(&format!(
            "<m:GetStockPrice><m:StockName>{}</m:StockName></m:GetStockPrice>",
            name
        ));
    }
    format!(
        r#"<?xml version="1.0"?>
        <soap:Envelope xmlns:soap="http://www.w3.org/2003/05/soap-envelope" xmlns:m="http://www.example.org">
            <soap:Header>
            </soap:Header>
            <soap:Body>{}</soap:Body>
        </soap:Envelope>"#,
        operations
    )
}

fn english() -> Language {
    Language::from_index(isolang::Language::Eng as usize).unwrap()
}

#[test]
fn test_merge_xml() {
    let xml1_raw = r#"<?xml version="1.0" ?>
        <soap:Envelope xmlns:soap="http://www.w3.org/2003/05/soap-envelope" xmlns:m="http://www.example.org">
            <soap:Header>
            </soap:Header>
            <soap:Body>
                <m:GetStockPrice>
                    <m:StockName>T</m:StockName>
                </m:GetStockPrice>
            </soap:Body>
        </soap:Envelope>
        "#;

    let xml2_raw = r#"<?xml version="1.0" ?>
        <soap:Envelope xmlns:soap="http://www.w3.org/2003/05/soap-envelope" xmlns:m="http://www.example.org">
            <soap:Header>
            </soap:Header>
            <soap:Body>
                <m:GetStockPrice>
                    <m:StockName>Y</m:StockName>
                </m:GetStockPrice>
            </soap:Body>
        </soap:Envelope>
        "#;
    let expected_raw = r#"<?xml version="1.0"?>
        <soap:Envelope xmlns:soap="http://www.w3.org/2003/05/soap-envelope" xmlns:m="http://www.example.org">
            <soap:Header>
            </soap:Header>
            <soap:Body>
                <m:GetStockPrice>
                    <m:StockName>T</m:StockName>
                </m:GetStockPrice>
                <m:GetStockPrice>
                    <m:StockName>Y</m:StockName>
                </m:GetStockPrice>
            </soap:Body>
        </soap:Envelope>
        "#;

    let xml1 = xmltree::Element::parse(xml1_raw.as_bytes()).unwrap();
    let xml2 = xmltree::Element::parse(xml2_raw.as_bytes()).unwrap();
    let expected = xmltree::Element::parse(expected_raw.as_bytes()).unwrap();

    assert_eq!(
        from_model(&merge_soap_enveloppe(to_model(&xml1), to_model(&xml2))),
        expected
    )
}

#[test]
fn test_router() {
    let response_raw = r#"<?xml version="1.0" ?>
        <soap:Envelope xmlns:soap="http://www.w3.org/2003/05/soap-envelope" xmlns:m="http://www.example.org">
            <soap:Header>
            </soap:Header>
            <soap:Body>
                <m:GetStockPriceResponse>
                    <m:StockPrice>3.60</m:StockPrice>
                </m:GetStockPriceResponse>
            </soap:Body>
        </soap:Envelope>
        "#;
    let handler = move || -> Result<SoapMessage, SoapFault> { Ok(SoapMessage(parse(response_raw))) };
    let router = SoapRouter::new(()).add_operation(
        "http://www.example.org".to_string(),
        "GetStockPrice".to_string(),
        handler,
    );

    let in_raw = r#"<?xml version="1.0"?>
            <soap:Envelope xmlns:soap="http://www.w3.org/2003/05/soap-envelope" xmlns:m="http://www.example.org">
                <soap:Header>
                </soap:Header>
                <soap:Body>
                    <m:GetStockPrice>
                        <m:StockName>T</m:StockName>
                    </m:GetStockPrice>
                    <m:GetStockPrice>
                        <m:StockName>Y</m:StockName>
                    </m:GetStockPrice>
                </soap:Body>
            </soap:Envelope>
            "#;
    let expected_raw = r#"<?xml version="1.0"?>
        <soap:Envelope xmlns:soap="http://www.w3.org/2003/05/soap-envelope" xmlns:m="http://www.example.org">
            <soap:Header>
            </soap:Header>
            <soap:Body>
                <m:GetStockPriceResponse>
                    <m:StockPrice>3.60</m:StockPrice>
                </m:GetStockPriceResponse>
                <m:GetStockPriceResponse>
                    <m:StockPrice>3.60</m:StockPrice>
                </m:GetStockPriceResponse>
            </soap:Body>
        </soap:Envelope>
        "#;
    let request = router.parse_request(in_raw.as_bytes());
    assert!(request.is_ok());
    let request = request.unwrap();
    let plan = router.dispatch(&request);
    assert_eq!(plan.len(), 2);
    let mut responses = Vec::new();
    for (at, _request) in &plan {
        responses.push(envelope_of((router.handler(*at))()));
    }
    let body = write_response(responses, english()).unwrap();

    let xml_body = xmltree::Element::parse(body.as_slice()).unwrap();
    let expected = xmltree::Element::parse(expected_raw.as_bytes()).unwrap();
    assert_eq!(xml_body, expected)
}

#[test]
fn new_envelope_has_the_soap_shape() {
    let m = SoapMessage::new();
    assert_eq!(m.0.name, "Envelope");
    assert_eq!(m.0.namespace.as_deref(), Some(ENV_NS));
    assert_eq!(m.0.prefix.as_deref(), Some("env"));
    assert_eq!(
        m.0.namespaces,
        Some(pairs(&[("xml", XML_NS), ("env", ENV_NS)]))
    );
    let bodies: Vec<&XmlElement> = child_elements(&m.0)
        .into_iter()
        .filter(|e| e.name == "Body" && e.namespace.as_deref() == Some(ENV_NS))
        .collect();
    assert_eq!(bodies.len(), 1);
    assert_eq!(m.0.children.len(), 1);
    assert!(m.get_headers().is_none());
}

#[test]
fn default_envelope_body_is_empty() {
    assert!(SoapMessage::new().get_body().children.is_empty());
    assert!(SoapMessage::default().get_body().children.is_empty());
}

#[test]
fn header_insertion_is_idempotent() {
    let mut m = SoapMessage::new();
    m.get_mut_headers()
        .children
        .push(XmlNode::Text("first".to_string()));
    assert_eq!(m.0.children.len(), 2);
    let again = m.get_mut_headers();
    assert_eq!(again.children.len(), 1);
    assert_eq!(text_of(again), "first");
    assert_eq!(m.0.children.len(), 2);
    let first = m.0.children[0].as_element().unwrap();
    assert_eq!(first.name, "Header");
    assert_eq!(first.namespace.as_deref(), Some(ENV_NS));
    assert_eq!(first.prefix.as_deref(), Some("env"));
    assert_eq!(m.0.children[1].as_element().unwrap().name, "Body");
    assert_eq!(text_of(m.get_headers().unwrap()), "first");
}

#[test]
fn body_is_changed_in_place() {
    let mut m = SoapMessage::new();
    m.get_mut_body()
        .children
        .push(XmlNode::Element(XmlElement::new("Ping")));
    assert_eq!(m.get_body().children.len(), 1);
    assert_eq!(child_elements(m.get_body())[0].name, "Ping");
    assert_eq!(m.0.children.len(), 1);
}

#[test]
fn envelope_wraps_one_body_child() {
    let m = SoapMessage::with_body_child(XmlElement::new("Pong"));
    assert_eq!(m.0.children.len(), 1);
    assert_eq!(child_elements(m.get_body())[0].name, "Pong");
    assert!(m.get_headers().is_none());
}

#[test]
fn envelope_wraps_one_header_child() {
    let m = SoapMessage::with_header_child(XmlElement::new("Token"));
    assert_eq!(m.0.children.len(), 2);
    assert_eq!(child_elements(m.get_headers().unwrap())[0].name, "Token");
    assert!(m.get_body().children.is_empty());
    assert_eq!(m.0.children[0].as_element().unwrap().name, "Header");
}

#[test]
fn conversions_keep_the_element() {
    let m = SoapMessage::from(XmlElement::new("Anything"));
    assert_eq!(m.0.name, "Anything");
    let e = XmlElement::from(SoapMessage::new());
    assert_eq!(e.name, "Envelope");
}

#[test]
fn get_child_asks_for_name_and_namespace() {
    let mut root = XmlElement::new("root");
    let mut plain = XmlElement::new("Body");
    plain.children.push(XmlNode::Text("plain".to_string()));
    let mut soap = XmlElement::new("Body");
    soap.namespace = Some(ENV_NS.to_string());
    soap.children.push(XmlNode::Text("soap".to_string()));
    root.children.push(XmlNode::Comment("c".to_string()));
    root.children.push(XmlNode::Element(plain));
    root.children.push(XmlNode::Element(soap));
    assert_eq!(text_of(root.get_child("Body", ENV_NS).unwrap()), "soap");
    assert!(root.get_child("Body", EXAMPLE_NS).is_none());
    assert!(root.get_child("Header", ENV_NS).is_none());
    assert_eq!(root.child_index(&"Body".to_string(), &None), Some(1));
    assert_eq!(
        root.child_index(&"Body".to_string(), &Some(ENV_NS.to_string())),
        Some(2)
    );
}

#[test]
fn attribute_lists_are_compared_as_mappings() {
    let a = pairs(&[("x", "1"), ("y", "2")]);
    let b = pairs(&[("y", "2"), ("x", "1")]);
    let c = pairs(&[("x", "1"), ("y", "3")]);
    let d = pairs(&[("x", "1")]);
    assert!(attributes_equal(&a, &b));
    assert!(!attributes_equal(&a, &c));
    assert!(!attributes_equal(&a, &d));
    assert!(!attributes_equal(&d, &a));
    assert!(attributes_equal(&Vec::new(), &Vec::new()));
}

#[test]
fn namespace_put_keeps_the_first_binding() {
    let mut ns = Vec::new();
    assert!(namespace_put(&mut ns, "a".to_string(), "u1".to_string()));
    assert!(!namespace_put(&mut ns, "a".to_string(), "u2".to_string()));
    assert!(namespace_put(&mut ns, "b".to_string(), "u2".to_string()));
    assert_eq!(ns, pairs(&[("a", "u1"), ("b", "u2")]));
}

#[test]
fn duplicate_is_a_deep_copy() {
    let source = parse(&stock_request(&["T", "Y"]));
    let copy = source.duplicate();
    assert_eq!(from_model(&copy), from_model(&source));
    let cloned = source.clone();
    assert_eq!(from_model(&cloned), from_model(&source));
}

#[test]
fn merge_appends_what_is_no_element_and_what_has_no_match() {
    let mut acc = XmlElement::new("acc");
    acc.children.push(XmlNode::Element(XmlElement::new("a")));
    let mut other = XmlElement::new("other");
    other.children.push(XmlNode::Text("t".to_string()));
    other.children.push(XmlNode::Comment("c".to_string()));
    other.children.push(XmlNode::Element(XmlElement::new("b")));
    let merged = merge_soap_enveloppe(acc, other);
    assert_eq!(merged.name, "acc");
    assert_eq!(merged.children.len(), 4);
    assert!(matches!(&merged.children[1], XmlNode::Text(t) if t == "t"));
    assert!(matches!(&merged.children[2], XmlNode::Comment(c) if c == "c"));
    assert_eq!(merged.children[3].as_element().unwrap().name, "b");
}

#[test]
fn merge_unifies_equal_attributes_and_keeps_others_apart() {
    let mut acc = XmlElement::new("acc");
    let mut first = XmlElement::new("item");
    first.attributes = pairs(&[("k", "1"), ("l", "2")]);
    first.children.push(XmlNode::Text("one".to_string()));
    acc.children.push(XmlNode::Element(first));

    let mut other = XmlElement::new("other");
    let mut same = XmlElement::new("item");
    same.attributes = pairs(&[("l", "2"), ("k", "1")]);
    same.children.push(XmlNode::Text("two".to_string()));
    let mut inner = XmlElement::new("item");
    inner.children.push(XmlNode::Text("deep".to_string()));
    same.children.push(XmlNode::Element(inner));
    let mut different = XmlElement::new("item");
    different.attributes = pairs(&[("k", "2")]);
    different.children.push(XmlNode::Text("three".to_string()));
    other.children.push(XmlNode::Element(same));
    other.children.push(XmlNode::Element(different));

    let merged = merge_soap_enveloppe(acc, other);
    assert_eq!(merged.children.len(), 2);
    let unified = merged.children[0].as_element().unwrap();
    assert_eq!(unified.children.len(), 3);
    assert!(matches!(&unified.children[0], XmlNode::Text(t) if t == "one"));
    assert!(matches!(&unified.children[1], XmlNode::Text(t) if t == "two"));
    assert_eq!(text_of(unified.children[2].as_element().unwrap()), "deep");
    let apart = merged.children[1].as_element().unwrap();
    assert_eq!(apart.attributes, pairs(&[("k", "2")]));
    assert_eq!(text_of(apart), "three");
}

#[test]
fn merge_matches_by_name_alone_without_a_namespace() {
    let mut acc = XmlElement::new("acc");
    let mut qualified = XmlElement::new("item");
    qualified.namespace = Some(EXAMPLE_NS.to_string());
    acc.children.push(XmlNode::Element(qualified));

    let mut other = XmlElement::new("other");
    let mut bare = XmlElement::new("item");
    bare.children.push(XmlNode::Text("x".to_string()));
    other.children.push(XmlNode::Element(bare));
    let mut foreign = XmlElement::new("item");
    foreign.namespace = Some("urn:other".to_string());
    other.children.push(XmlNode::Element(foreign));

    let merged = merge_soap_enveloppe(acc, other);
    assert_eq!(merged.children.len(), 2);
    assert_eq!(text_of(merged.children[0].as_element().unwrap()), "x");
    assert_eq!(
        merged.children[1].as_element().unwrap().namespace.as_deref(),
        Some("urn:other")
    );
}

#[test]
fn merged_bodies_are_joined_in_order() {
    let a = SoapMessage(parse(&stock_request(&["A", "B"])));
    let b = SoapMessage(parse(&stock_request(&["C"])));
    let mut expected: Vec<String> = Vec::new();
    for m in [&a, &b] {
        for op in child_elements(m.get_body()) {
            expected.push(text_of(child_elements(op)[0]));
        }
    }
    let merged = SoapMessage(merge_soap_enveloppe(a.0, b.0));
    let got: Vec<String> = child_elements(merged.get_body())
        .into_iter()
        .map(|op| text_of(child_elements(op)[0]))
        .collect();
    assert_eq!(got, expected);
    assert_eq!(got, vec!["A", "B", "C"]);
    assert_eq!(merged.0.name, "Envelope");
    assert_eq!(child_elements(&merged.0).len(), 2);
}

#[test]
fn language_codes_come_from_the_table() {
    assert_eq!(english().to_639_3(), "eng");
    let german = Language::from_index(isolang::Language::Deu as usize).unwrap();
    assert_eq!(german.to_639_3(), "deu");
    assert_eq!(german.to_index(), isolang::Language::Deu as usize);
    assert!(Language::from_index(usize::MAX).is_none());
}

#[test]
fn fault_codes_have_their_soap_names() {
    assert_eq!(SoapFaultCode::VersionMismatch.to_string(), "VersionMismatch");
    assert_eq!(SoapFaultCode::MustUnderstand.to_string(), "MustUnderstand");
    assert_eq!(
        SoapFaultCode::DataEncodingUnknown.to_string(),
        "DataEncodingUnknown"
    );
    assert_eq!(SoapFaultCode::Sender.to_string(), "Sender");
    assert_eq!(SoapFaultCode::Receiver.to_string(), "Receiver");
}

#[test]
fn fault_is_rendered_with_subcodes_and_reason() {
    let fault = SoapFault::new(
        SoapFaultCode::Sender,
        pairs(&[("urn:u1", "x"), ("urn:u2", "y")]),
        vec![(english(), "bad".to_string())],
        None,
    );
    let m = fault.into_message();
    assert_eq!(m.0.name, "Envelope");
    assert_eq!(m.0.namespace.as_deref(), Some(ENV_NS));
    assert_eq!(
        m.0.namespaces,
        Some(pairs(&[
            ("xml", XML_NS),
            ("env", ENV_NS),
            ("a", "urn:u1"),
            ("b", "urn:u2"),
        ]))
    );
    assert_eq!(m.0.children.len(), 1);
    let body = m.get_body();
    assert_eq!(body.children.len(), 1);
    let fault = child_elements(body)[0];
    assert_eq!(fault.name, "Fault");
    assert_eq!(fault.prefix.as_deref(), Some("env"));
    let parts = child_elements(fault);
    assert_eq!(parts.len(), 2);

    let code = parts[0];
    assert_eq!(code.name, "Code");
    let in_code = child_elements(code);
    assert_eq!(in_code.len(), 2);
    assert_eq!(in_code[0].name, "Value");
    assert_eq!(text_of(in_code[0]), "env:Sender");
    let outer = in_code[1];
    assert_eq!(outer.name, "Subcode");
    let in_outer = child_elements(outer);
    assert_eq!(in_outer.len(), 2);
    assert_eq!(in_outer[0].name, "Value");
    assert_eq!(text_of(in_outer[0]), "a:x");
    let inner = in_outer[1];
    assert_eq!(inner.name, "Subcode");
    let in_inner = child_elements(inner);
    assert_eq!(in_inner.len(), 1);
    assert_eq!(text_of(in_inner[0]), "b:y");

    let reason = parts[1];
    assert_eq!(reason.name, "Reason");
    let texts = child_elements(reason);
    assert_eq!(texts.len(), 1);
    assert_eq!(texts[0].name, "Text");
    assert_eq!(texts[0].attributes, pairs(&[("xml:lang", "eng")]));
    assert_eq!(text_of(texts[0]), "bad");
}

#[test]
fn fault_declares_each_namespace_once() {
    let fault = SoapFault::new(
        SoapFaultCode::Receiver,
        pairs(&[("urn:u1", "x"), ("urn:u2", "y"), ("urn:u1", "z")]),
        vec![(english(), "bad".to_string())],
        None,
    );
    let m = fault.into_message();
    assert_eq!(
        m.0.namespaces,
        Some(pairs(&[
            ("xml", XML_NS),
            ("env", ENV_NS),
            ("a", "urn:u1"),
            ("b", "urn:u2"),
        ]))
    );
    let code = child_elements(child_elements(m.get_body())[0])[0];
    assert_eq!(text_of(child_elements(code)[0]), "env:Receiver");
    let first = child_elements(code)[1];
    let second = child_elements(first)[1];
    let third = child_elements(second)[1];
    assert_eq!(text_of(child_elements(first)[0]), "a:x");
    assert_eq!(text_of(child_elements(second)[0]), "b:y");
    assert_eq!(text_of(child_elements(third)[0]), "a:z");
    assert_eq!(child_elements(third).len(), 1);
}

#[test]
fn fault_without_subcodes_has_a_bare_code() {
    let german = Language::from_index(isolang::Language::Deu as usize).unwrap();
    let mut detail = XmlElement::new("Trace");
    detail.children.push(XmlNode::Text("line 3".to_string()));
    let fault = SoapFault::new(
        SoapFaultCode::VersionMismatch,
        Vec::new(),
        vec![
            (english(), "bad".to_string()),
            (german, "schlecht".to_string()),
        ],
        Some(detail),
    );
    let m = fault.into_message();
    assert_eq!(m.0.namespaces, Some(pairs(&[("xml", XML_NS), ("env", ENV_NS)])));
    let parts = child_elements(child_elements(m.get_body())[0]);
    assert_eq!(parts.len(), 3);
    assert_eq!(child_elements(parts[0]).len(), 1);
    assert_eq!(text_of(child_elements(parts[0])[0]), "env:VersionMismatch");
    let texts = child_elements(parts[1]);
    assert_eq!(texts.len(), 2);
    assert_eq!(texts[0].attributes, pairs(&[("xml:lang", "eng")]));
    assert_eq!(text_of(texts[0]), "bad");
    assert_eq!(texts[1].attributes, pairs(&[("xml:lang", "deu")]));
    assert_eq!(text_of(texts[1]), "schlecht");
    assert_eq!(parts[2].name, "Trace");
    assert_eq!(text_of(parts[2]), "line 3");
}

#[test]
fn fault_is_described_in_the_preferred_language() {
    let german = Language::from_index(isolang::Language::Deu as usize).unwrap();
    let french = Language::from_index(isolang::Language::Fra as usize).unwrap();
    let fault = SoapFault::new(
        SoapFaultCode::Sender,
        Vec::new(),
        vec![
            (german, "schlecht".to_string()),
            (english(), "bad".to_string()),
        ],
        None,
    );
    assert_eq!(fault.describe(&english()), "SOAP Fault <Sender.>: bad");
    assert_eq!(fault.describe(&french), "SOAP Fault <Sender.>: schlecht");
}

#[test]
fn router_dispatches_two_operations_to_one_handler() {
    let router = SoapRouter::new(7u32).add_operation(
        EXAMPLE_NS.to_string(),
        "GetStockPrice".to_string(),
        "price",
    );
    assert_eq!(*router.state(), 7);
    let request = router
        .parse_request(stock_request(&["T", "Y"]).as_bytes())
        .unwrap();
    let plan = router.dispatch(&request);
    assert_eq!(plan.len(), 2);
    assert_eq!(plan[0].0, 0);
    assert_eq!(plan[1].0, 0);
    assert_eq!(*router.handler(plan[0].0), "price");
    assert_eq!(text_of(child_elements(&plan[0].1.body)[0]), "T");
    assert_eq!(text_of(child_elements(&plan[1].1.body)[0]), "Y");
    assert_eq!(plan[0].1.headers.name, "Header");
    assert_eq!(plan[1].1.headers.namespace.as_deref(), Some(ENV_NS));
}

#[test]
fn router_keeps_document_order_across_routes() {
    let router = SoapRouter::new(())
        .add_operation(EXAMPLE_NS.to_string(), "B".to_string(), 'b')
        .add_operation(EXAMPLE_NS.to_string(), "A".to_string(), 'a')
        .add_operation(String::new(), "Bare".to_string(), 'n');
    let raw = r#"<soap:Envelope xmlns:soap="http://www.w3.org/2003/05/soap-envelope" xmlns:m="http://www.example.org">
            <soap:Body>text<m:A/><m:Unknown/><Bare/><m:B/><!-- note --><m:A/></soap:Body>
        </soap:Envelope>"#;
    let request = router.parse_request(raw.as_bytes()).unwrap();
    let plan = router.dispatch(&request);
    let routes: Vec<char> = plan.iter().map(|(at, _)| *router.handler(*at)).collect();
    assert_eq!(routes, vec!['a', 'n', 'b', 'a']);
    let names: Vec<&str> = plan.iter().map(|(_, r)| r.body.name.as_str()).collect();
    assert_eq!(names, vec!["A", "Bare", "B", "A"]);
    assert_eq!(plan[0].1.headers.name, "Header");
    assert_eq!(plan[0].1.headers.namespace.as_deref(), Some(ENV_NS));
    assert!(plan[0].1.headers.prefix.is_none());
    assert!(plan[0].1.headers.children.is_empty());
}

#[test]
fn later_registration_replaces_the_handler() {
    let router = SoapRouter::new(())
        .add_operation("n".to_string(), "op".to_string(), 1)
        .add_operation("n".to_string(), "other".to_string(), 2)
        .add_operation("n".to_string(), "op".to_string(), 3);
    let first = router.route_position(&"n".to_string(), &"op".to_string());
    let second = router.route_position(&"n".to_string(), &"other".to_string());
    let none = router.route_position(&"n".to_string(), &"missing".to_string());
    assert_eq!(first, 0);
    assert_eq!(second, 1);
    assert_eq!(none, 2);
    assert_eq!(*router.handler(first), 3);
    assert_eq!(*router.handler(second), 2);
}

#[test]
fn unknown_operation_gets_a_sender_fault() {
    let router = SoapRouter::new(()).add_operation(
        EXAMPLE_NS.to_string(),
        "GetStockPrice".to_string(),
        (),
    );
    let raw = r#"<soap:Envelope xmlns:soap="http://www.w3.org/2003/05/soap-envelope" xmlns:m="http://www.example.org">
            <soap:Body><m:Unknown/></soap:Body>
        </soap:Envelope>"#;
    let request = router.parse_request(raw.as_bytes()).unwrap();
    let plan = router.dispatch(&request);
    assert!(plan.is_empty());
    assert!(merge_responses(Vec::new()).is_none());
    let answer = envelope_of(Err(unknown_operation_fault(english())));
    assert_eq!(answer.0.name, "Envelope");
    assert_eq!(answer.0.namespace.as_deref(), Some(ENV_NS));
    let fault = child_elements(answer.get_body())[0];
    assert_eq!(fault.name, "Fault");
    let parts = child_elements(fault);
    assert_eq!(text_of(child_elements(parts[0])[0]), "env:Sender");
    assert_eq!(text_of(child_elements(parts[1])[0]), "No matching operation");
    assert_eq!(
        child_elements(parts[1])[0].attributes,
        pairs(&[("xml:lang", "eng")])
    );
    let mut written = Vec::new();
    from_model(&answer.0).write(&mut written).unwrap();
    assert!(xmltree::Element::parse(written.as_slice()).is_ok());
}

#[test]
fn malformed_envelope_is_refused() {
    let router: SoapRouter<(), ()> = SoapRouter::new(());
    let refused = router.parse_request("<foo/>".as_bytes());
    assert_eq!(refused.err(), Some("Not a SOAP message".to_string()));
    let wrong_namespace = router.parse_request(
        r#"<e:Envelope xmlns:e="urn:other"><e:Body/></e:Envelope>"#.as_bytes(),
    );
    assert_eq!(wrong_namespace.err(), Some("Not a SOAP message".to_string()));
    let wrong_name = router.parse_request(
        r#"<e:Letter xmlns:e="http://www.w3.org/2003/05/soap-envelope"><e:Body/></e:Letter>"#
            .as_bytes(),
    );
    assert_eq!(wrong_name.err(), Some("Not a SOAP message".to_string()));
    let by_root = accept_envelope(parse("<foo/>"));
    assert_eq!(by_root.err(), Some("Not a SOAP message".to_string()));
}

#[test]
fn envelope_without_body_is_refused() {
    let router: SoapRouter<(), ()> = SoapRouter::new(());
    let refused = router.parse_request(
        r#"<e:Envelope xmlns:e="http://www.w3.org/2003/05/soap-envelope"><e:Header/><Body/></e:Envelope>"#
            .as_bytes(),
    );
    assert_eq!(refused.err(), Some("Malformed SOAP Message".to_string()));
}

#[test]
fn request_headers_are_copied_or_made_up() {
    let with = SoapMessage(parse(
        r#"<e:Envelope xmlns:e="http://www.w3.org/2003/05/soap-envelope"><e:Header><Token>t</Token></e:Header><e:Body/></e:Envelope>"#,
    ));
    let headers = request_headers(&with);
    assert_eq!(headers.prefix.as_deref(), Some("e"));
    assert_eq!(text_of(child_elements(&headers)[0]), "t");
    let without = SoapMessage::new();
    let headers = request_headers(&without);
    assert_eq!(headers.name, "Header");
    assert_eq!(headers.namespace.as_deref(), Some(ENV_NS));
    assert!(headers.children.is_empty());
}

#[test]
fn faults_are_merged_beside_responses() {
    let ok = SoapMessage::with_body_child(XmlElement::new("Done"));
    let failed = SoapFault::new(
        SoapFaultCode::Receiver,
        Vec::new(),
        vec![(english(), "down".to_string())],
        None,
    );
    let merged = merge_responses(vec![envelope_of(Ok(ok)), envelope_of(Err(failed))]).unwrap();
    assert_eq!(merged.0.children.len(), 1);
    let in_body = child_elements(merged.get_body());
    assert_eq!(in_body.len(), 2);
    assert_eq!(in_body[0].name, "Done");
    assert_eq!(in_body[1].name, "Fault");
}

#[test]
fn single_response_is_returned_as_it_is() {
    let only = SoapMessage(parse(&stock_request(&["T"])));
    let expected = from_model(&only.0);
    let merged = merge_responses(vec![only]).unwrap();
    assert_eq!(from_model(&merged.0), expected);
}

#[test]
fn request_that_is_no_xml_is_refused() {
    let router: SoapRouter<(), ()> = SoapRouter::new(());
    let refused = router.parse_request("no markup at all".as_bytes());
    assert_eq!(refused.err(), Some("Not an XML document".to_string()));
    let unclosed = router.parse_request("<a><b></a>".as_bytes());
    assert_eq!(unclosed.err(), Some("Not an XML document".to_string()));
    assert!(read_xml("".as_bytes()).is_none());
    assert!(read_xml("<!-- only a comment -->".as_bytes()).is_none());
    assert!(read_xml("<?xml version=\"1.0\"?>".as_bytes()).is_none());
    assert!(read_xml("   ".as_bytes()).is_none());
    assert!(read_xml(&[0xff, 0xfe, 0x00]).is_none());
}

#[test]
fn documents_are_read_as_xmltree_reads_them() {
    let raw = r#"<?xml version="1.0"?>
        <r:root xmlns:r="urn:r" b="2" a="1"><!-- c --><r:kid z="26">text</r:kid><![CDATA[raw]]><?pi data?></r:root>"#;
    let read = read_xml(raw.as_bytes()).unwrap();
    assert_eq!(
        from_model(&read),
        xmltree::Element::parse(raw.as_bytes()).unwrap()
    );
    assert_eq!(read.name, "root");
    assert_eq!(read.prefix.as_deref(), Some("r"));
    assert_eq!(read.namespace.as_deref(), Some("urn:r"));
    assert_eq!(read.attributes, pairs(&[("b", "2"), ("a", "1")]));
    assert_eq!(read.children.len(), 4);
    assert!(matches!(&read.children[0], XmlNode::Comment(c) if c == " c "));
    assert_eq!(text_of(read.children[1].as_element().unwrap()), "text");
    assert!(matches!(&read.children[2], XmlNode::Text(t) if t == "raw"));
    assert!(
        matches!(&read.children[3], XmlNode::ProcessingInstruction(t, d) if t == "pi" && d.as_deref() == Some("data"))
    );
}

#[test]
fn documents_are_written_as_xmltree_writes_them() {
    let message = SoapMessage::with_body_child(XmlElement::new("Ping"));
    let written = write_xml(&message.0).unwrap();
    let mut expected = Vec::new();
    from_model(&message.0).write(&mut expected).unwrap();
    assert_eq!(written, expected);
    let back = read_xml(written.as_slice()).unwrap();
    assert_eq!(back.name, "Envelope");
    assert_eq!(child_elements(SoapMessage(back).get_body())[0].name, "Ping");
}

#[test]
fn request_without_routed_operation_is_answered_with_a_fault() {
    let written = write_response(Vec::new(), english()).unwrap();
    let answer = SoapMessage(read_xml(written.as_slice()).unwrap());
    assert_eq!(answer.0.name, "Envelope");
    assert_eq!(answer.0.namespace.as_deref(), Some(ENV_NS));
    let fault = child_elements(answer.get_body())[0];
    assert_eq!(fault.name, "Fault");
    assert_eq!(fault.namespace.as_deref(), Some(ENV_NS));
    let parts = child_elements(fault);
    assert_eq!(text_of(child_elements(parts[0])[0]), "env:Sender");
    assert_eq!(text_of(child_elements(parts[1])[0]), "No matching operation");
}

#[test]
fn two_messages_merge_into_one() {
    let a = SoapMessage::with_body_child(XmlElement::new("One"));
    let b = SoapMessage::with_body_child(XmlElement::new("Two"));
    let merged = merge_messages(a, b);
    assert_eq!(merged.0.children.len(), 1);
    let names: Vec<&str> = child_elements(merged.get_body())
        .into_iter()
        .map(|e| e.name.as_str())
        .collect();
    assert_eq!(names, vec!["One", "Two"]);
}

#[test]
fn typed_response_is_wrapped_from_its_bytes() {
    let m = SoapMessage::from_body_bytes("<Price currency=\"EUR\">3.60</Price>".as_bytes()).unwrap();
    assert_eq!(m.0.children.len(), 1);
    let price = child_elements(m.get_body())[0];
    assert_eq!(price.name, "Price");
    assert_eq!(price.attributes, pairs(&[("currency", "EUR")]));
    assert_eq!(text_of(price), "3.60");
    assert!(SoapMessage::from_body_bytes("<Price".as_bytes()).is_none());

    let h = SoapMessage::from_header_bytes("<Token>t</Token>".as_bytes()).unwrap();
    assert_eq!(h.0.children.len(), 2);
    assert_eq!(text_of(child_elements(h.get_headers().unwrap())[0]), "t");
    assert!(h.get_body().children.is_empty());
    assert!(SoapMessage::from_header_bytes("".as_bytes()).is_none());
}

#[test]
fn request_parts_are_written_for_typed_handlers() {
    let router = SoapRouter::new(()).add_operation(
        EXAMPLE_NS.to_string(),
        "GetStockPrice".to_string(),
        (),
    );
    let request = router
        .parse_request(stock_request(&["T"]).as_bytes())
        .unwrap();
    let plan = router.dispatch(&request);
    let body = plan[0].1.body_bytes().unwrap();
    let read = xmltree::Element::parse(body.as_slice()).unwrap();
    assert_eq!(read.name, "GetStockPrice");
    assert_eq!(read.namespace.as_deref(), Some(EXAMPLE_NS));
    assert_eq!(read, from_model(&plan[0].1.body));
    let headers = plan[0].1.headers_bytes().unwrap();
    let read = xmltree::Element::parse(headers.as_slice()).unwrap();
    assert_eq!(read.name, "Header");
    assert_eq!(read.namespace.as_deref(), Some(ENV_NS));
}
