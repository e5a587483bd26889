//! Formulas inside XML and HTML documents.

use paperback::dom::dom_math_text;
use paperback::math::asciimath::{MathCache, MathThread};
use paperback::xml::{
    collect_xml_text, formula_sources, fragment, text_with_formulas, xml_fragment, XmlAttribute, XmlRecord,
    MATHML_NAMESPACE,
};

fn text_of(document: &roxmltree::Document) -> String {
    collect_xml_text(document.root_element(), &mut MathThread::new(), &mut MathCache::new())
}

fn formulas(document: &roxmltree::Document) -> Vec<String> {
    document
        .descendants()
        .filter(|n| n.is_element() && n.tag_name().name() == "math")
        .map(|n| xml_fragment(n))
        .collect()
}

#[test]
fn xml_fragment_resolves_inherited_prefixes_entities_and_foreign_namespaces() {
    let xml = r#"<body xmlns:m="http://www.w3.org/1998/Math/MathML" xmlns:q="http://www.w3.org/1998/Math/MathML" xmlns:extra="urn:extra"><m:math alttext="x &lt; &quot;y&quot;" extra:label="a &amp; b"><q:mi>x</q:mi><m:mo>&lt;</m:mo><mi xmlns="http://www.w3.org/1998/Math/MathML">y</mi><extra:note>foreign</extra:note></m:math></body>"#;
    let document = roxmltree::Document::parse(xml).unwrap();
    let fragment = xml_fragment(document.root_element().first_element_child().unwrap());
    let parsed = roxmltree::Document::parse(&fragment).unwrap();
    let math = parsed.root_element();
    assert_eq!(math.tag_name().namespace(), Some(MATHML_NAMESPACE));
    assert_eq!(math.attribute("alttext"), Some("x < \"y\""));
    assert_eq!(math.attribute(("urn:extra", "label")), Some("a & b"));
    let elements: Vec<_> = math.children().filter(|n| n.is_element()).collect();
    assert!(elements[..3].iter().all(|n| n.tag_name().namespace() == Some(MATHML_NAMESPACE)));
    assert_eq!(elements[1].text(), Some("<"));
    assert_eq!(elements[3].tag_name().namespace(), Some("urn:extra"));
}

#[test]
fn prefixed_math_in_xml_is_converted() {
    let xml = r#"<html><body><p xmlns:m="http://www.w3.org/1998/Math/MathML">Let <m:math><m:msqrt><m:mi>x</m:mi></m:msqrt></m:math>.</p></body></html>"#;
    let document = roxmltree::Document::parse(xml).unwrap();
    assert_eq!(text_of(&document), "Let sqrt(x).");
    let maths = formulas(&document);
    assert_eq!(maths.len(), 1);
    assert!(maths[0].contains(MATHML_NAMESPACE));
}

#[test]
fn prefixed_math_in_xml_table_keeps_inherited_namespaces() {
    let xml = r#"<html><body><div xmlns:m="http://www.w3.org/1998/Math/MathML"><table><tr><td><m:math><m:msqrt><m:mi>x</m:mi></m:msqrt></m:math></td></tr></table></div></body></html>"#;
    let document = roxmltree::Document::parse(xml).unwrap();
    assert_eq!(text_of(&document), "sqrt(x)");
    assert_eq!(formulas(&document).len(), 1);
}

#[test]
fn labels_read_formulas_and_plain_text() {
    let xml = "<h2> Square <math><msup><mi>x</mi><mn>2</mn></msup></math><!-- no --> <b>now</b> </h2>";
    let document = roxmltree::Document::parse(xml).unwrap();
    assert_eq!(text_of(&document), "Square x^2 now");
    let plain = roxmltree::Document::parse("<p> a <i>b</i> c </p>").unwrap();
    assert_eq!(text_of(&plain), "a b c");
}

#[test]
fn formula_without_output_reads_its_alternative() {
    let xml = "<p>See <math alttext='the  rule'><nonsense/></math>!</p>";
    let document = roxmltree::Document::parse(xml).unwrap();
    assert_eq!(text_of(&document), "See the rule!");
}

#[test]
fn fragment_of_an_unprefixed_element_declares_mathml() {
    let document = roxmltree::Document::parse("<math><mi a='1'>x</mi></math>").unwrap();
    assert_eq!(
        xml_fragment(document.root_element()),
        "<math xmlns=\"http://www.w3.org/1998/Math/MathML\"><mi a=\"1\">x</mi></math>"
    );
}

#[test]
fn attribute_prefixes_are_declared_once() {
    let xml = r#"<m xmlns:e="urn:e" e:a="1" e:b="&lt;2" xml:lang="en"/>"#;
    let document = roxmltree::Document::parse(xml).unwrap();
    assert_eq!(
        xml_fragment(document.root_element()),
        "<m xmlns=\"http://www.w3.org/1998/Math/MathML\" xmlns:e=\"urn:e\" e:a=\"1\" e:b=\"&lt;2\" xml:lang=\"en\"></m>"
    );
}

fn record(depth: usize, name: &str, text: Option<&str>) -> XmlRecord {
    XmlRecord {
        depth,
        is_element: text.is_none(),
        is_text: text.is_some(),
        name: name.to_string(),
        namespace: None,
        text: text.map(str::to_string),
        attributes: Vec::new(),
    }
}

#[test]
fn records_describe_a_tree() {
    let mut math = record(1, "math", None);
    math.attributes.push(XmlAttribute {
        namespace: Some("urn:n".to_string()),
        prefix: None,
        name: "k".to_string(),
        value: "v".to_string(),
    });
    let records = vec![math, record(2, "mi", None), record(3, "", Some("x<y")), record(2, "mo", None)];
    assert_eq!(
        fragment(&records),
        "<math xmlns=\"http://www.w3.org/1998/Math/MathML\" xmlns:attr=\"urn:n\" attr:k=\"v\"><mi>x&lt;y</mi><mo></mo></math>"
    );
}

#[test]
fn formula_texts_take_the_place_of_formulas() {
    let records = vec![
        record(1, "p", None),
        record(2, "", Some(" a ")),
        record(2, "math", None),
        record(3, "", Some("hidden")),
        record(2, "", Some(" b ")),
        record(2, "math", None),
    ];
    assert_eq!(text_with_formulas(&records, &vec![Some("x^2".to_string()), None]), "a x^2 b");
}

#[test]
fn html_formulas_are_read() {
    let html = scraper::Html::parse_document(
        "<p>Let <math alttext='no'><msqrt><mi>x</mi></msqrt></math> and <math alttext=' a  b '><mi>x</mi><nonsense></nonsense></math>.</p>",
    );
    let selector = scraper::Selector::parse("math").unwrap();
    let mut thread = MathThread::new();
    let mut cache = MathCache::new();
    let texts: Vec<_> =
        html.select(&selector).map(|e| dom_math_text(e, &mut thread, &mut cache)).collect();
    assert_eq!(texts, vec![Some("sqrt(x)".to_string()), Some("a b".to_string())]);
}

#[test]
fn html_fallback_is_the_raw_text() {
    // Markup that is too long for a conversion.
    let long = "a ".repeat(600 * 1024);
    let html = scraper::Html::parse_document(&format!("<math><mtext>{long}</mtext></math>"));
    let selector = scraper::Selector::parse("math").unwrap();
    let element = html.select(&selector).next().unwrap();
    let text = dom_math_text(element, &mut MathThread::new(), &mut MathCache::new()).unwrap();
    assert_eq!(text.len(), 2 * 600 * 1024 - 1);
}

#[test]
fn sources_of_formulas() {
    let xml = "<p>a <math alttext='alt'><mi>x</mi><mo>+</mo></math> b</p>";
    let document = roxmltree::Document::parse(xml).unwrap();
    let sources = formula_sources(document.root_element());
    assert_eq!(sources.len(), 1);
    assert!(sources[0].mathml.starts_with("<math xmlns="));
    assert_eq!(sources[0].alttext.as_deref(), Some("alt"));
    assert_eq!(sources[0].raw_text, "x+");
}

#[test]
fn namespace_of_the_root_is_never_written() {
    let xml = "<m\u{1680}n:math xmlns:m\u{1680}n=\"a&lt;b\"><m\u{1680}n:m\u{1680}i>x</m\u{1680}n:m\u{1680}i></m\u{1680}n:math>";
    let document = roxmltree::Document::parse(xml).unwrap();
    let text = xml_fragment(document.root_element());
    assert_eq!(
        text,
        "<math xmlns=\"http://www.w3.org/1998/Math/MathML\"><m\u{1680}i>x</m\u{1680}i></math>"
    );
    let parsed = roxmltree::Document::parse(&text).unwrap();
    let inner = parsed.root_element().first_element_child().unwrap();
    assert_eq!(inner.tag_name().name(), "m\u{1680}i");
    assert_eq!(inner.tag_name().namespace(), Some(MATHML_NAMESPACE));
}

#[test]
fn fragment_reads_back() {
    let xml = r#"<r xmlns="urn:r" xmlns:m="urn:math" xmlns:e="urn:e"><m:math e:k="&lt;&amp;&quot;" k="1">a &lt; b<!-- c --><m:mi e:x="2" xml:lang="en">c</m:mi><e:n/><n/></m:math></r>"#;
    let document = roxmltree::Document::parse(xml).unwrap();
    let math = document.root_element().first_element_child().unwrap();
    let text = xml_fragment(math);
    let parsed = roxmltree::Document::parse(&text).unwrap();
    let describe = |root: roxmltree::Node| -> Vec<String> {
        root.descendants()
            .filter(|n| !n.is_comment())
            .map(|n| {
                let attributes: Vec<_> =
                    n.attributes().map(|a| (a.namespace(), a.name(), a.value())).collect();
                let namespace = match n.tag_name().namespace() {
                    Some("urn:math") => Some(MATHML_NAMESPACE),
                    other => other,
                };
                format!("{:?} {} {:?} {:?}", namespace, n.tag_name().name(), attributes, n.text())
            })
            .collect()
    };
    assert_eq!(describe(parsed.root_element()), describe(math));
}
