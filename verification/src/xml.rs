//! MathML inside XML documents: isolated fragments, and text extraction that reads formulas.

use vstd::prelude::*;
use crate::html;
use crate::html::{escape, escape_attr, escape_for, Place};
use crate::math::asciimath;
use crate::math::asciimath::{math_text, MathCache, MathThread};
use crate::math::fallback;
use crate::text;
use crate::text::{same_text, trim_string, Trim};

verus! {

/// The namespace of MathML.
pub const MATHML_NAMESPACE: &'static str = "http://www.w3.org/1998/Math/MathML";

/// The namespace that is always bound to the prefix `xml`.
pub const XML_NAMESPACE: &'static str = "http://www.w3.org/XML/1998/namespace";

/// An attribute of an element.
pub struct XmlAttribute {
    pub namespace: Option<String>,
    /// The prefix that the document binds to the attribute's namespace at its element.
    pub prefix: Option<String>,
    pub name: String,
    pub value: String,
}

/// One node of a document, without its children. A list of records in document order describes a
/// forest: the records after a record that are deeper than it, up to the next that is not, are its
/// descendants.
pub struct XmlRecord {
    pub depth: usize,
    pub is_element: bool,
    pub is_text: bool,
    pub name: String,
    pub namespace: Option<String>,
    pub text: Option<String>,
    pub attributes: Vec<XmlAttribute>,
}

/// A node of a parsed document.
#[verifier::external_type_specification]
#[verifier::external_body]
pub struct ExNode<'a, 'input: 'a>(roxmltree::Node<'a, 'input>);

/// The node and its descendants, in document order.
pub uninterp spec fn node_records(node: roxmltree::Node<'_, '_>) -> Seq<XmlRecord>;

/// Reads a node and its descendants with `roxmltree::Node::descendants`, which starts at the node
/// itself.
#[verifier::external_body]
fn read_records(node: roxmltree::Node<'_, '_>) -> (r: Vec<XmlRecord>)
    ensures
        r@ == node_records(node),
        r@.len() > 0,
{
    node.descendants().map(|n| XmlRecord {
        depth: n.ancestors().count(),
        is_element: n.is_element(),
        is_text: n.is_text(),
        name: n.tag_name().name().to_string(),
        namespace: n.tag_name().namespace().map(str::to_string),
        text: n.text().map(str::to_string),
        attributes: n.attributes().map(|a| XmlAttribute {
            namespace: a.namespace().map(str::to_string),
            prefix: a.namespace().and_then(|ns| n.lookup_prefix(ns)).map(str::to_string),
            name: a.name().to_string(),
            value: a.value().to_string(),
        }).collect(),
    }).collect()
}

/// How many leading records of `s` are deeper than `depth`.
pub open spec fn deeper_run(s: Seq<XmlRecord>, depth: usize) -> nat
    decreases s.len(),
{
    if s.len() > 0 && s.first().depth > depth {
        1 + deeper_run(s.drop_first(), depth)
    } else {
        0
    }
}

proof fn lemma_deeper_run_fits(s: Seq<XmlRecord>, depth: usize)
    ensures
        deeper_run(s, depth) <= s.len(),
    decreases s.len(),
{
    if s.len() > 0 && s.first().depth > depth {
        lemma_deeper_run_fits(s.drop_first(), depth);
    }
}

/// The number of records of the first tree of a forest.
pub open spec fn first_tree_len(s: Seq<XmlRecord>) -> nat {
    1 + deeper_run(s.drop_first(), s.first().depth)
}

/// The descendants of the first record of a forest.
pub open spec fn first_inner(s: Seq<XmlRecord>) -> Seq<XmlRecord> {
    s.subrange(1, first_tree_len(s) as int)
}

/// A forest without its first tree.
pub open spec fn other_trees(s: Seq<XmlRecord>) -> Seq<XmlRecord> {
    s.skip(first_tree_len(s) as int)
}

/// The parts of a forest are smaller than the forest.
pub proof fn lemma_forest_parts(s: Seq<XmlRecord>)
    requires
        s.len() > 0,
    ensures
        1 <= first_tree_len(s) <= s.len(),
        first_inner(s).len() == first_tree_len(s) - 1,
        other_trees(s).len() == s.len() - first_tree_len(s),
{
    lemma_deeper_run_fits(s.drop_first(), s.first().depth);
}

/// The end of the tree whose root is `records[at]`, in the forest that ends at `end`.
fn tree_end(records: &Vec<XmlRecord>, at: usize, end: usize) -> (r: usize)
    requires
        at < end <= records@.len(),
    ensures
        at < r <= end,
        r == at + first_tree_len(records@.subrange(at as int, end as int)),
{
    let depth = records[at].depth;
    let mut i: usize = at + 1;
    let ghost forest = records@.subrange(at as int, end as int);
    proof {
        assert(forest.drop_first() =~= records@.subrange(i as int, end as int));
    }
    while i < end && records[i].depth > depth
        invariant
            at < i <= end <= records@.len(),
            forest == records@.subrange(at as int, end as int),
            forest.first().depth == depth,
            (i - at) + deeper_run(records@.subrange(i as int, end as int), depth)
                == first_tree_len(forest),
        decreases end - i,
    {
        proof {
            let rest = records@.subrange(i as int, end as int);
            assert(rest.drop_first() =~= records@.subrange(i + 1, end as int));
            assert(rest.first() == records@[i as int]);
        }
        i += 1;
    }
    proof {
        let rest = records@.subrange(i as int, end as int);
        assert(rest.len() > 0 ==> rest.first() == records@[i as int]);
    }
    i
}

/// The namespace that an element is written with: the fragment's own namespace is written as that of
/// MathML.
pub open spec fn written_namespace(
    namespace: Option<Seq<char>>,
    math_namespace: Option<Seq<char>>,
) -> Seq<char> {
    if namespace == math_namespace {
        MATHML_NAMESPACE@
    } else {
        match namespace {
            Some(ns) => ns,
            None => Seq::empty(),
        }
    }
}

/// An attribute in a namespace whose prefix has to be declared.
pub open spec fn needs_declaration(a: XmlAttribute) -> bool {
    a.namespace matches Some(ns) && ns@ != XML_NAMESPACE@
}

/// The prefix that an attribute is written with.
pub open spec fn written_prefix(a: XmlAttribute) -> Option<Seq<char>> {
    match a.namespace {
        None => None,
        Some(ns) => if ns@ == XML_NAMESPACE@ {
            Some("xml"@)
        } else {
            match a.prefix {
                Some(prefix) => Some(prefix@),
                None => Some("attr"@),
            }
        },
    }
}

/// One of `attributes` needs a declaration of `prefix`.
pub open spec fn needs_prefix(attributes: Seq<XmlAttribute>, prefix: Seq<char>) -> bool {
    exists|j: int|
        0 <= j < attributes.len() && #[trigger] needs_declaration(attributes[j]) && written_prefix(
            attributes[j],
        ) == Some(prefix)
}

/// The last of `attributes` declares its prefix: it is the first that needs the declaration.
pub open spec fn declares(attributes: Seq<XmlAttribute>) -> bool {
    &&& needs_declaration(attributes.last())
    &&& !needs_prefix(attributes.drop_last(), written_prefix(attributes.last())->0)
}

/// The last of `attributes` as it is written in a start tag.
pub open spec fn attribute_xml(attributes: Seq<XmlAttribute>) -> Seq<char> {
    let a = attributes.last();
    let declaration = if declares(attributes) {
        " xmlns:"@ + written_prefix(a)->0 + "=\""@ + html::escaped(
            a.namespace->0@,
            Place::Attribute,
        ) + "\""@
    } else {
        Seq::empty()
    };
    let prefix = match written_prefix(a) {
        Some(prefix) => prefix + ":"@,
        None => Seq::empty(),
    };
    declaration + " "@ + prefix + a.name@ + "=\""@ + html::escaped(a.value@, Place::XmlAttribute)
        + "\""@
}

/// `attributes` as they are written in a start tag.
pub open spec fn attributes_xml(attributes: Seq<XmlAttribute>) -> Seq<char>
    decreases attributes.len(),
{
    if attributes.len() == 0 {
        Seq::empty()
    } else {
        attributes_xml(attributes.drop_last()) + attribute_xml(attributes)
    }
}

/// The start tag of an element. Its namespace is declared where it differs from the inherited one.
pub open spec fn start_tag_xml(
    record: XmlRecord,
    namespace: Seq<char>,
    inherited: Seq<char>,
) -> Seq<char> {
    let declaration = if namespace == inherited {
        Seq::empty()
    } else {
        " xmlns=\""@ + html::escaped(namespace, Place::Attribute) + "\""@
    };
    "<"@ + record.name@ + declaration + attributes_xml(record.attributes@) + ">"@
}

/// The end tag of an element.
pub open spec fn end_tag_xml(record: XmlRecord) -> Seq<char> {
    "</"@ + record.name@ + ">"@
}

/// An element written with the content `inner`.
pub open spec fn element_xml(
    record: XmlRecord,
    math_namespace: Option<Seq<char>>,
    inherited: Seq<char>,
    inner: Seq<char>,
) -> Seq<char> {
    let namespace = written_namespace(text::text_view(record.namespace), math_namespace);
    start_tag_xml(record, namespace, inherited) + inner + end_tag_xml(record)
}

/// The text of a record; nodes without text have the empty text.
pub open spec fn own_text(record: XmlRecord) -> Seq<char> {
    match record.text {
        Some(t) => t@,
        None => Seq::empty(),
    }
}

/// A forest written as XML; comments and other nodes are left out.
pub open spec fn forest_xml(
    s: Seq<XmlRecord>,
    math_namespace: Option<Seq<char>>,
    inherited: Seq<char>,
) -> Seq<char>
    decreases s.len(),
{
    if s.len() == 0 {
        Seq::empty()
    } else {
        proof {
            lemma_forest_parts(s);
        }
        tree_xml(
            s.first(),
            math_namespace,
            inherited,
            forest_xml(
                first_inner(s),
                math_namespace,
                written_namespace(text::text_view(s.first().namespace), math_namespace),
            ),
        ) + forest_xml(other_trees(s), math_namespace, inherited)
    }
}

/// A node written as XML, with `inner` as what its children are written as.
pub open spec fn tree_xml(
    record: XmlRecord,
    math_namespace: Option<Seq<char>>,
    inherited: Seq<char>,
    inner: Seq<char>,
) -> Seq<char> {
    if record.is_text {
        html::escaped(own_text(record), Place::Content)
    } else if record.is_element {
        element_xml(record, math_namespace, inherited, inner)
    } else {
        Seq::empty()
    }
}

/// The first tree of a forest as a fragment that stands on its own.
pub open spec fn fragment_xml(s: Seq<XmlRecord>) -> Seq<char> {
    let math_namespace = text::text_view(s.first().namespace);
    tree_xml(
        s.first(),
        math_namespace,
        Seq::empty(),
        forest_xml(
            first_inner(s),
            math_namespace,
            written_namespace(math_namespace, math_namespace),
        ),
    )
}

/// Whether two optional texts are the same.
fn same_optional(a: &Option<String>, b: &Option<String>) -> (r: bool)
    ensures
        r == (text::text_view(*a) == text::text_view(*b)),
{
    match (a, b) {
        (Some(x), Some(y)) => same_text(x.as_str(), y.as_str()),
        (None, None) => true,
        _ => false,
    }
}

/// The prefix that an attribute in a namespace is written with, and whether it has to be declared.
fn attribute_prefix(a: &XmlAttribute) -> (r: Option<(String, bool)>)
    ensures
        match r {
            Some((prefix, declare)) => written_prefix(*a) == Some(prefix@) && declare
                == needs_declaration(*a),
            None => written_prefix(*a) is None && !needs_declaration(*a),
        },
{
    match &a.namespace {
        None => None,
        Some(ns) => if same_text(ns.as_str(), XML_NAMESPACE) {
            Some(("xml".to_owned(), false))
        } else {
            match &a.prefix {
                Some(prefix) => Some((prefix.clone(), true)),
                None => Some(("attr".to_owned(), true)),
            }
        },
    }
}

/// `prefix` is one of `prefixes`.
spec fn lists(prefixes: Seq<String>, prefix: Seq<char>) -> bool {
    exists|j: int| 0 <= j < prefixes.len() && #[trigger] prefixes[j]@ == prefix
}

/// Whether `prefix` is one of `prefixes`.
fn lists_prefix(prefixes: &Vec<String>, prefix: &str) -> (r: bool)
    ensures
        r == lists(prefixes@, prefix@),
{
    let mut i: usize = 0;
    while i < prefixes.len()
        invariant
            i <= prefixes.len(),
            forall|j: int| 0 <= j < i ==> #[trigger] prefixes@[j]@ != prefix@,
        decreases prefixes.len() - i,
    {
        if same_text(prefixes[i].as_str(), prefix) {
            return true;
        }
        i += 1;
    }
    false
}

proof fn lemma_lists_push(prefixes: Seq<String>, added: String, prefix: Seq<char>)
    ensures
        lists(prefixes.push(added), prefix) == (lists(prefixes, prefix) || added@ == prefix),
{
    let more = prefixes.push(added);
    if lists(prefixes, prefix) {
        let j = choose|j: int| 0 <= j < prefixes.len() && #[trigger] prefixes[j]@ == prefix;
        assert(more[j]@ == prefix);
    }
    if added@ == prefix {
        assert(more[prefixes.len() as int]@ == prefix);
    }
}

proof fn lemma_needs_prefix_push(
    attributes: Seq<XmlAttribute>,
    added: XmlAttribute,
    prefix: Seq<char>,
)
    ensures
        needs_prefix(attributes.push(added), prefix) == (needs_prefix(attributes, prefix) || (
        needs_declaration(added) && written_prefix(added) == Some(prefix))),
{
    let more = attributes.push(added);
    if needs_prefix(attributes, prefix) {
        let j = choose|j: int|
            0 <= j < attributes.len() && #[trigger] needs_declaration(attributes[j])
                && written_prefix(attributes[j]) == Some(prefix);
        assert(needs_declaration(more[j]));
    }
    if needs_declaration(added) && written_prefix(added) == Some(prefix) {
        assert(needs_declaration(more[attributes.len() as int]));
    }
}

/// Writes `attributes` to `output` as they stand in a start tag.
#[verifier::spinoff_prover]
#[verifier::rlimit(40)]
fn serialize_attributes(attributes: &Vec<XmlAttribute>, output: &mut String)
    ensures
        final(output)@ == old(output)@ + attributes_xml(attributes@),
{
    let mut declared: Vec<String> = Vec::new();
    let mut i: usize = 0;
    let ghost start = output@;
    proof {
        assert(start + attributes_xml(attributes@.take(0)) =~= start);
    }
    while i < attributes.len()
        invariant
            i <= attributes.len(),
            output@ == start + attributes_xml(attributes@.take(i as int)),
            forall|p: Seq<char>| #[trigger]
                lists(declared@, p) == needs_prefix(attributes@.take(i as int), p),
        decreases attributes.len() - i,
    {
        let a = &attributes[i];
        let ghost seen = attributes@.take(i as int);
        let ghost upto = attributes@.take(i + 1);
        let ghost before = output@;
        let ghost declared_before = declared@;
        proof {
            assert(upto =~= seen.push(*a));
            assert(upto.drop_last() =~= seen);
        }
        let prefix = attribute_prefix(a);
        if let Some((prefix, declare)) = &prefix {
            if *declare && !lists_prefix(&declared, prefix.as_str()) {
                let namespace = match &a.namespace {
                    Some(ns) => escape_attr(ns.as_str()),
                    None => String::new(),
                };
                output.append(" xmlns:");
                output.append(prefix.as_str());
                output.append("=\"");
                output.append(namespace.as_str());
                output.append("\"");
                declared.push(prefix.clone());
            }
        }
        proof {
            assert forall|p: Seq<char>| #[trigger]
                lists(declared@, p) == needs_prefix(upto, p) by {
                lemma_needs_prefix_push(seen, *a, p);
                assert(lists(declared_before, p) == needs_prefix(seen, p));
                if declared@ != declared_before {
                    let (added, _) = prefix->0;
                    lemma_lists_push(declared_before, added, p);
                }
            }
        }
        output.append(" ");
        if let Some((prefix, _)) = &prefix {
            output.append(prefix.as_str());
            output.append(":");
        }
        output.append(a.name.as_str());
        output.append("=\"");
        output.append(escape_for(a.value.as_str(), Place::XmlAttribute).as_str());
        output.append("\"");
        proof {
            assert(output@ =~= before + attribute_xml(upto));
            assert(output@ =~= start + attributes_xml(upto));
        }
        i += 1;
    }
    proof {
        assert(attributes@.take(attributes.len() as int) =~= attributes@);
    }
}

/// Writes the start tag of `record`, an element of `namespace`, to `output`.
fn serialize_start_tag(record: &XmlRecord, namespace: &str, inherited: &str, output: &mut String)
    ensures
        final(output)@ == old(output)@ + start_tag_xml(*record, namespace@, inherited@),
{
    let ghost start = output@;
    output.append("<");
    output.append(record.name.as_str());
    if !same_text(namespace, inherited) {
        output.append(" xmlns=\"");
        output.append(escape_attr(namespace).as_str());
        output.append("\"");
    }
    serialize_attributes(&record.attributes, output);
    output.append(">");
    proof {
        assert(output@ =~= start + start_tag_xml(*record, namespace@, inherited@));
    }
}

/// Writes the tree `records[at..end]` to `output`.
fn serialize_xml(
    records: &Vec<XmlRecord>,
    at: usize,
    end: usize,
    math_namespace: &Option<String>,
    inherited: &str,
    output: &mut String,
)
    requires
        at < end <= records@.len(),
    ensures
        final(output)@ == old(output)@ + tree_xml(
            records@[at as int],
            text::text_view(*math_namespace),
            inherited@,
            forest_xml(
                records@.subrange(at + 1, end as int),
                text::text_view(*math_namespace),
                written_namespace(
                    text::text_view(records@[at as int].namespace),
                    text::text_view(*math_namespace),
                ),
            ),
        ),
    decreases end - at,
{
    let record = &records[at];
    let ghost start = output@;
    let ghost math = text::text_view(*math_namespace);
    if record.is_text {
        let own = match &record.text {
            Some(t) => escape(t.as_str()),
            None => escape(""),
        };
        proof {
            reveal_strlit("");
            assert(""@ =~= Seq::<char>::empty());
        }
        output.append(own.as_str());
        return;
    }
    if !record.is_element {
        proof {
            assert(start =~= start + Seq::<char>::empty());
        }
        return;
    }
    let namespace = if same_optional(&record.namespace, math_namespace) {
        MATHML_NAMESPACE.to_owned()
    } else {
        match &record.namespace {
            Some(ns) => ns.clone(),
            None => String::new(),
        }
    };
    serialize_start_tag(record, namespace.as_str(), inherited, output);
    let ghost opened = output@;
    let ghost inner = records@.subrange(at + 1, end as int);
    let mut child: usize = at + 1;
    while child < end
        invariant
            at < child <= end <= records@.len(),
            math == text::text_view(*math_namespace),
            inner == records@.subrange(at + 1, end as int),
            opened + forest_xml(inner, math, namespace@) == output@ + forest_xml(
                records@.subrange(child as int, end as int),
                math,
                namespace@,
            ),
        decreases end - child,
    {
        let next = tree_end(records, child, end);
        let ghost before = output@;
        let ghost forest = records@.subrange(child as int, end as int);
        serialize_xml(records, child, next, math_namespace, namespace.as_str(), output);
        proof {
            assert(forest.first() == records@[child as int]);
            assert(first_inner(forest) =~= records@.subrange(child + 1, next as int));
            assert(other_trees(forest) =~= records@.subrange(next as int, end as int));
            assert(output@ + forest_xml(other_trees(forest), math, namespace@) =~= before
                + forest_xml(forest, math, namespace@));
        }
        child = next;
    }
    proof {
        assert(records@.subrange(end as int, end as int).len() == 0);
        assert(output@ =~= opened + forest_xml(inner, math, namespace@));
    }
    let ghost closed = output@;
    output.append("</");
    output.append(record.name.as_str());
    output.append(">");
    proof {
        let content = forest_xml(inner, math, namespace@);
        let tag = start_tag_xml(*record, namespace@, inherited@);
        assert(output@ =~= closed + end_tag_xml(*record));
        assert(start + tag + content + end_tag_xml(*record) =~= start + (tag + content
            + end_tag_xml(*record)));
    }
}

/// The tree `records[at..end]` as an isolated fragment.
fn fragment_at(records: &Vec<XmlRecord>, at: usize, end: usize) -> (r: String)
    requires
        at < end <= records@.len(),
        first_tree_len(records@.subrange(at as int, end as int)) == end - at,
    ensures
        r@ == fragment_xml(records@.subrange(at as int, end as int)),
{
    let mut output = String::new();
    serialize_xml(records, at, end, &records[at].namespace, "", &mut output);
    proof {
        reveal_strlit("");
        assert(""@ =~= Seq::<char>::empty());
        let tree = records@.subrange(at as int, end as int);
        assert(tree.first() == records@[at as int]);
        assert(first_inner(tree) =~= records@.subrange(at + 1, end as int));
        assert(output@ =~= fragment_xml(tree));
    }
    output
}

/// The first tree of `records` as an isolated fragment. Element prefixes are resolved: elements of
/// the root's namespace are written in the MathML namespace, others declare their own.
pub fn fragment(records: &Vec<XmlRecord>) -> (r: String)
    requires
        records@.len() > 0,
    ensures
        r@ == fragment_xml(records@),
{
    let end = tree_end(records, 0, records.len());
    proof {
        assert(records@.subrange(0, records@.len() as int) =~= records@);
        assert(records@.subrange(0, end as int) =~= first_tree(records@));
        lemma_first_tree_is_a_tree(records@);
    }
    fragment_at(records, 0, end)
}

/// Serializes an isolated MathML subtree. Working from the parsed tree expands entities and resolves
/// inherited and mixed MathML prefixes; string replacement cannot do either safely.
pub fn xml_fragment(node: roxmltree::Node<'_, '_>) -> (r: String)
    ensures
        r@ == fragment_xml(node_records(node)),
{
    fragment(&read_records(node))
}

/// The first tree of a forest.
pub open spec fn first_tree(s: Seq<XmlRecord>) -> Seq<XmlRecord> {
    s.take(first_tree_len(s) as int)
}

/// An element named `math`, in whatever namespace.
pub open spec fn is_math(record: XmlRecord) -> bool {
    record.is_element && record.name@ == "math"@
}

/// The formulas of a forest, in document order. Formulas inside a formula are part of it.
pub open spec fn formulas(s: Seq<XmlRecord>) -> Seq<Seq<XmlRecord>>
    decreases s.len(),
{
    if s.len() == 0 {
        Seq::empty()
    } else {
        proof {
            lemma_forest_parts(s);
        }
        let here = if is_math(s.first()) {
            seq![first_tree(s)]
        } else if s.first().is_text {
            Seq::empty()
        } else {
            formulas(first_inner(s))
        };
        here + formulas(other_trees(s))
    }
}

/// The text of a forest whose formulas read as `texts`, in order.
pub open spec fn forest_text(s: Seq<XmlRecord>, texts: Seq<Option<Seq<char>>>) -> Seq<char>
    decreases s.len(),
{
    if s.len() == 0 {
        Seq::empty()
    } else {
        proof {
            lemma_forest_parts(s);
        }
        if is_math(s.first()) {
            text::or_empty(texts.first()) + forest_text(other_trees(s), texts.drop_first())
        } else if s.first().is_text {
            own_text(s.first()) + forest_text(other_trees(s), texts)
        } else {
            let n = formulas(first_inner(s)).len() as int;
            forest_text(first_inner(s), texts.take(n)) + forest_text(
                other_trees(s),
                texts.skip(n),
            )
        }
    }
}

/// All text of a forest, formulas and annotations included.
pub open spec fn raw_text(s: Seq<XmlRecord>) -> Seq<char>
    decreases s.len(),
{
    if s.len() == 0 {
        Seq::empty()
    } else if s.last().is_text {
        raw_text(s.drop_last()) + own_text(s.last())
    } else {
        raw_text(s.drop_last())
    }
}

/// The value of the first of `attributes` with the local name `name`.
pub open spec fn attribute_value(attributes: Seq<XmlAttribute>, name: Seq<char>) -> Option<Seq<char>>
    decreases attributes.len(),
{
    if attributes.len() == 0 {
        None
    } else if attributes.first().name@ == name {
        Some(attributes.first().value@)
    } else {
        attribute_value(attributes.drop_first(), name)
    }
}

/// What the formula `m` reads as when MathCAT's rendering of it is `rendered`.
pub open spec fn formula_text(m: Seq<XmlRecord>, rendered: Option<Seq<char>>) -> Option<Seq<char>> {
    fallback::picked(
        rendered,
        attribute_value(m.first().attributes@, "alttext"@),
        raw_text(m),
    )
}

/// Reading the formulas `ms` in order leads from the cached renderings `before` to `after`, and they
/// read as `texts`.
pub open spec fn formulas_step(
    ready: Option<bool>,
    before: Map<Seq<char>, Option<Seq<char>>>,
    ms: Seq<Seq<XmlRecord>>,
    texts: Seq<Option<Seq<char>>>,
    after: Map<Seq<char>, Option<Seq<char>>>,
) -> bool
    decreases ms.len(),
{
    if ms.len() == 0 {
        texts.len() == 0 && after == before
    } else {
        &&& texts.len() == ms.len()
        &&& exists|between: Map<Seq<char>, Option<Seq<char>>>, rendered: Option<Seq<char>>|
            {
                &&& formulas_step(ready, before, ms.drop_last(), texts.drop_last(), between)
                &&& #[trigger] asciimath::asciimath_step(
                    ready,
                    between,
                    fragment_xml(ms.last()),
                    rendered,
                    after,
                )
                &&& ready == Some(true) ==> asciimath::renders(fragment_xml(ms.last()), rendered)
                &&& texts.last() == formula_text(ms.last(), rendered)
            }
    }
}

proof fn lemma_first_tree_is_a_tree(s: Seq<XmlRecord>)
    requires
        s.len() > 0,
    ensures
        first_tree_len(first_tree(s)) == first_tree_len(s),
        first_inner(first_tree(s)) == first_inner(s),
{
    lemma_forest_parts(s);
    let tree = first_tree(s);
    lemma_deeper_run_take(s.drop_first(), s.first().depth);
    assert(tree.drop_first() =~= s.drop_first().take(first_tree_len(s) - 1));
    assert(tree.first() == s.first());
    assert(first_inner(tree) =~= first_inner(s));
}

proof fn lemma_deeper_run_take(s: Seq<XmlRecord>, depth: usize)
    ensures
        deeper_run(s.take(deeper_run(s, depth) as int), depth) == deeper_run(s, depth),
    decreases s.len(),
{
    lemma_deeper_run_fits(s, depth);
    if s.len() > 0 && s.first().depth > depth {
        let n = deeper_run(s, depth) as int;
        lemma_deeper_run_take(s.drop_first(), depth);
        lemma_deeper_run_fits(s.drop_first(), depth);
        assert(s.take(n).drop_first() =~= s.drop_first().take(n - 1));
        assert(s.take(n).first() == s.first());
    }
}

/// Appends the ranges of the formulas of `records[from..end]` to `ranges`.
fn formula_ranges(
    records: &Vec<XmlRecord>,
    from: usize,
    end: usize,
    ranges: &mut Vec<(usize, usize)>,
)
    requires
        from <= end <= records@.len(),
    ensures
        final(ranges)@.len() == old(ranges)@.len() + formulas(
            records@.subrange(from as int, end as int),
        ).len(),
        forall|i: int|
            0 <= i < old(ranges)@.len() ==> #[trigger] final(ranges)@[i] == old(ranges)@[i],
        forall|i: int|
            #![trigger final(ranges)@[i]]
            old(ranges)@.len() <= i < final(ranges)@.len() ==> {
                let range = final(ranges)@[i];
                &&& range.0 < range.1 <= records@.len()
                &&& records@.subrange(range.0 as int, range.1 as int) == formulas(
                    records@.subrange(from as int, end as int),
                )[i - old(ranges)@.len()]
            },
    decreases end - from,
{
    let ghost whole = formulas(records@.subrange(from as int, end as int));
    let ghost start = ranges@;
    let mut at: usize = from;
    while at < end
        invariant
            from <= at <= end <= records@.len(),
            whole == formulas(records@.subrange(from as int, end as int)),
            start.len() <= ranges@.len(),
            whole.len() == (ranges@.len() - start.len()) + formulas(
                records@.subrange(at as int, end as int),
            ).len(),
            whole.skip(ranges@.len() - start.len()) == formulas(
                records@.subrange(at as int, end as int),
            ),
            forall|i: int| 0 <= i < start.len() ==> #[trigger] ranges@[i] == start[i],
            forall|i: int|
                #![trigger ranges@[i]]
                start.len() <= i < ranges@.len() ==> {
                    let range = ranges@[i];
                    &&& range.0 < range.1 <= records@.len()
                    &&& records@.subrange(range.0 as int, range.1 as int) == whole[i - start.len()]
                },
        decreases end - at,
    {
        let next = tree_end(records, at, end);
        let ghost forest = records@.subrange(at as int, end as int);
        let ghost before = ranges@;
        let ghost rest = formulas(other_trees(forest));
        proof {
            lemma_forest_parts(forest);
            assert(forest.first() == records@[at as int]);
            assert(first_inner(forest) =~= records@.subrange(at + 1, next as int));
            assert(other_trees(forest) =~= records@.subrange(next as int, end as int));
            assert(first_tree(forest) =~= records@.subrange(at as int, next as int));
        }
        let record = &records[at];
        if record.is_element && same_text(record.name.as_str(), "math") {
            ranges.push((at, next));
            proof {
                assert(formulas(forest) =~= seq![first_tree(forest)] + rest);
            }
        } else if !record.is_text {
            formula_ranges(records, at + 1, next, ranges);
            proof {
                assert(formulas(forest) =~= formulas(first_inner(forest)) + rest);
            }
        } else {
            proof {
                assert(formulas(forest) =~= rest);
            }
        }
        proof {
            let done = before.len() - start.len();
            let added = ranges@.len() - before.len();
            assert(whole.skip(done + added) =~= rest) by {
                assert forall|i: int| 0 <= i < rest.len() implies whole.skip(done + added)[i]
                    == rest[i] by {
                    assert(whole.skip(done)[added + i] == formulas(forest)[added + i]);
                }
            }
            assert forall|i: int|
                #![trigger ranges@[i]]
                start.len() <= i < ranges@.len() implies {
                let range = ranges@[i];
                &&& range.0 < range.1 <= records@.len()
                &&& records@.subrange(range.0 as int, range.1 as int) == whole[i - start.len()]
            } by {
                if i < before.len() {
                    assert(ranges@[i] == before[i]);
                } else {
                    assert(whole.skip(done)[i - before.len()] == whole[i - start.len()]);
                    assert(formulas(forest)[i - before.len()] == whole[i - start.len()]);
                }
            }
        }
        at = next;
    }
}

/// The value of the first attribute of `record` with the local name `name`.
fn attribute<'a>(record: &'a XmlRecord, name: &str) -> (r: Option<&'a str>)
    ensures
        text::str_view(r) == attribute_value(record.attributes@, name@),
{
    let attributes = &record.attributes;
    let mut i: usize = 0;
    proof {
        assert(attributes@.skip(0) =~= attributes@);
    }
    while i < attributes.len()
        invariant
            attributes@ == record.attributes@,
            i <= attributes.len(),
            attribute_value(attributes@.skip(i as int), name@) == attribute_value(
                attributes@,
                name@,
            ),
        decreases attributes.len() - i,
    {
        proof {
            assert(attributes@.skip(i as int).drop_first() =~= attributes@.skip(i + 1));
            assert(attributes@.skip(i as int).first() == attributes@[i as int]);
        }
        if same_text(attributes[i].name.as_str(), name) {
            return Some(attributes[i].value.as_str());
        }
        i += 1;
    }
    None
}

/// The text of `record`; nodes without text have the empty text.
fn text_of(record: &XmlRecord) -> (r: &str)
    ensures
        r@ == own_text(*record),
{
    match &record.text {
        Some(t) => t.as_str(),
        None => {
            proof {
                reveal_strlit("");
                assert(""@ =~= Seq::<char>::empty());
            }
            ""
        },
    }
}

/// All text of `records[from..end]`.
fn collect_element_text(records: &Vec<XmlRecord>, from: usize, end: usize) -> (r: String)
    requires
        from <= end <= records@.len(),
    ensures
        r@ == raw_text(records@.subrange(from as int, end as int)),
{
    let mut output = String::new();
    let mut i: usize = from;
    while i < end
        invariant
            from <= i <= end <= records@.len(),
            output@ == raw_text(records@.subrange(from as int, i as int)),
        decreases end - i,
    {
        proof {
            let seen = records@.subrange(from as int, i + 1);
            assert(seen.drop_last() =~= records@.subrange(from as int, i as int));
            assert(seen.last() == records@[i as int]);
        }
        if records[i].is_text {
            output.append(text_of(&records[i]));
        }
        i += 1;
    }
    output
}

/// What a formula is read from.
pub struct FormulaSource {
    /// The formula as an isolated fragment.
    pub mathml: String,
    /// The author's alternative text.
    pub alttext: Option<String>,
    /// All text inside the formula.
    pub raw_text: String,
}

impl FormulaSource {
    /// This is what the formula `m` is read from.
    pub open spec fn describes(self, m: Seq<XmlRecord>) -> bool {
        &&& self.mathml@ == fragment_xml(m)
        &&& text::text_view(self.alttext) == attribute_value(m.first().attributes@, "alttext"@)
        &&& self.raw_text@ == raw_text(m)
    }
}

/// What the formulas of a node are read from, in document order: a caller can fill a cache with what is
/// known of them before the node is read.
pub fn formula_sources(node: roxmltree::Node<'_, '_>) -> (r: Vec<FormulaSource>)
    ensures
        r@.len() == formulas(node_records(node)).len(),
        forall|k: int|
            0 <= k < r@.len() ==> (#[trigger] r@[k]).describes(formulas(node_records(node))[k]),
{
    let records = read_records(node);
    let mut ranges: Vec<(usize, usize)> = Vec::new();
    formula_ranges(&records, 0, records.len(), &mut ranges);
    let ghost ms = formulas(records@);
    proof {
        assert(records@.subrange(0, records@.len() as int) =~= records@);
    }
    let mut sources: Vec<FormulaSource> = Vec::new();
    let mut i: usize = 0;
    while i < ranges.len()
        invariant
            i <= ranges.len(),
            ranges@.len() == ms.len(),
            ms == formulas(records@),
            forall|k: int|
                #![trigger ranges@[k]]
                0 <= k < ranges@.len() ==> {
                    let range = ranges@[k];
                    &&& range.0 < range.1 <= records@.len()
                    &&& records@.subrange(range.0 as int, range.1 as int) == ms[k]
                },
            sources@.len() == i,
            forall|k: int| 0 <= k < i ==> (#[trigger] sources@[k]).describes(ms[k]),
        decreases ranges.len() - i,
    {
        let (from, end) = ranges[i];
        proof {
            lemma_formulas_are_trees(records@, i as int);
            assert(ms[i as int].first() == records@[from as int]);
        }
        let alttext = match attribute(&records[from], "alttext") {
            Some(alt) => Some(alt.to_owned()),
            None => None,
        };
        let source = FormulaSource {
            mathml: fragment_at(&records, from, end),
            alttext,
            raw_text: collect_element_text(&records, from, end),
        };
        sources.push(source);
        i += 1;
    }
    sources
}

/// What the formula `records[from..end]` reads as.
fn read_formula(
    records: &Vec<XmlRecord>,
    from: usize,
    end: usize,
    thread: &mut MathThread,
    cache: &mut MathCache,
) -> (r: Option<String>)
    requires
        from < end <= records@.len(),
        first_tree_len(records@.subrange(from as int, end as int)) == end - from,
        old(cache).wf(),
    ensures
        final(cache).wf(),
        final(thread).ready() is Some,
        old(thread).ready() is Some ==> final(thread).ready() == old(thread).ready(),
        ({
            let m = records@.subrange(from as int, end as int);
            exists|rendered: Option<Seq<char>>|
                {
                    &&& #[trigger] asciimath::asciimath_step(
                        final(thread).ready(),
                        old(cache)@,
                        fragment_xml(m),
                        rendered,
                        final(cache)@,
                    )
                    &&& final(thread).ready() == Some(true) ==> asciimath::renders(
                        fragment_xml(m),
                        rendered,
                    )
                    &&& text::text_view(r) == formula_text(m, rendered)
                }
        }),
{
    let ghost m = records@.subrange(from as int, end as int);
    let mathml = fragment_at(records, from, end);
    let raw = || -> (s: String)
        ensures
            s@ == raw_text(m),
        { collect_element_text(records, from, end) };
    proof {
        assert(m.first() == records@[from as int]);
    }
    let alttext = attribute(&records[from], "alttext");
    let ghost before = cache@;
    let r = math_text(mathml.as_str(), alttext, raw, thread, cache);
    proof {
        let rendered = choose|rendered: Option<Seq<char>>|
            {
                &&& #[trigger] asciimath::asciimath_step(
                    thread.ready(),
                    before,
                    mathml@,
                    rendered,
                    cache@,
                )
                &&& thread.ready() == Some(true) ==> asciimath::renders(mathml@, rendered)
                &&& fallback::picks(rendered, text::str_view(alttext), raw, text::text_view(r))
            };
        assert(text::text_view(r) == formula_text(m, rendered));
    }
    r
}

/// Reads the formulas of `records`, in document order.
pub fn read_formulas(
    records: &Vec<XmlRecord>,
    thread: &mut MathThread,
    cache: &mut MathCache,
) -> (texts: Vec<Option<String>>)
    requires
        old(cache).wf(),
    ensures
        final(cache).wf(),
        old(thread).ready() is Some ==> final(thread).ready() == old(thread).ready(),
        formulas(records@).len() == 0 ==> final(thread).ready() == old(thread).ready(),
        formulas(records@).len() > 0 ==> final(thread).ready() is Some,
        formulas_step(
            final(thread).ready(),
            old(cache)@,
            formulas(records@),
            text::text_views(texts@),
            final(cache)@,
        ),
{
    let mut ranges: Vec<(usize, usize)> = Vec::new();
    formula_ranges(records, 0, records.len(), &mut ranges);
    let ghost ms = formulas(records@);
    let ghost before = cache@;
    proof {
        assert(records@.subrange(0, records@.len() as int) =~= records@);
    }
    let mut texts: Vec<Option<String>> = Vec::new();
    let mut i: usize = 0;
    while i < ranges.len()
        invariant
            i <= ranges.len(),
            ranges@.len() == ms.len(),
            ms == formulas(records@),
            forall|k: int|
                #![trigger ranges@[k]]
                0 <= k < ranges@.len() ==> {
                    let range = ranges@[k];
                    &&& range.0 < range.1 <= records@.len()
                    &&& records@.subrange(range.0 as int, range.1 as int) == ms[k]
                },
            texts@.len() == i,
            cache.wf(),
            old(thread).ready() is Some ==> thread.ready() == old(thread).ready(),
            i == 0 ==> thread.ready() == old(thread).ready(),
            i > 0 ==> thread.ready() is Some,
            formulas_step(
                thread.ready(),
                before,
                ms.take(i as int),
                text::text_views(texts@),
                cache@,
            ),
        decreases ranges.len() - i,
    {
        let (from, end) = ranges[i];
        let ghost between = cache@;
        let ghost earlier = text::text_views(texts@);
        let ghost ready_before = thread.ready();
        proof {
            lemma_formulas_are_trees(records@, i as int);
        }
        let t = read_formula(records, from, end, thread, cache);
        texts.push(t);
        proof {
            let upto = ms.take(i + 1);
            let now = text::text_views(texts@);
            assert(upto.drop_last() =~= ms.take(i as int));
            assert(upto.last() == ms[i as int]);
            assert(now.drop_last() =~= earlier);
            let rendered = choose|rendered: Option<Seq<char>>|
                {
                    &&& #[trigger] asciimath::asciimath_step(
                        thread.ready(),
                        between,
                        fragment_xml(ms[i as int]),
                        rendered,
                        cache@,
                    )
                    &&& thread.ready() == Some(true) ==> asciimath::renders(
                        fragment_xml(ms[i as int]),
                        rendered,
                    )
                    &&& text::text_view(t) == formula_text(ms[i as int], rendered)
                };
            assert(formulas_step(
                thread.ready(),
                before,
                upto.drop_last(),
                now.drop_last(),
                between,
            ));
            assert(asciimath::asciimath_step(
                thread.ready(),
                between,
                fragment_xml(upto.last()),
                rendered,
                cache@,
            ));
        }
        i += 1;
    }
    proof {
        assert(ms.take(ms.len() as int) =~= ms);
    }
    texts
}

/// Every formula of a forest is one tree.
proof fn lemma_formulas_are_trees(s: Seq<XmlRecord>, i: int)
    requires
        0 <= i < formulas(s).len(),
    ensures
        formulas(s)[i].len() > 0,
        first_tree_len(formulas(s)[i]) == formulas(s)[i].len(),
        is_math(formulas(s)[i].first()),
    decreases s.len(),
{
    lemma_forest_parts(s);
    let rest = formulas(other_trees(s));
    if is_math(s.first()) {
        if i == 0 {
            lemma_first_tree_is_a_tree(s);
        } else {
            lemma_formulas_are_trees(other_trees(s), i - 1);
        }
    } else if s.first().is_text {
        assert(formulas(s) =~= rest);
        lemma_formulas_are_trees(other_trees(s), i);
    } else {
        let inner = formulas(first_inner(s));
        if i < inner.len() {
            lemma_formulas_are_trees(first_inner(s), i);
        } else {
            lemma_formulas_are_trees(other_trees(s), i - inner.len());
        }
    }
}

/// Appends the text of `records[from..end]`, whose formulas read as `texts[next..]`, to `output`.
/// Gives the position after the last of `texts` that it used.
fn append_text(
    records: &Vec<XmlRecord>,
    from: usize,
    end: usize,
    texts: &Vec<Option<String>>,
    next: usize,
    output: &mut String,
) -> (r: usize)
    requires
        from <= end <= records@.len(),
        next + formulas(records@.subrange(from as int, end as int)).len() <= texts@.len(),
    ensures
        r == next + formulas(records@.subrange(from as int, end as int)).len(),
        final(output)@ == old(output)@ + forest_text(
            records@.subrange(from as int, end as int),
            text::text_views(texts@).subrange(next as int, r as int),
        ),
    decreases end - from,
{
    let ghost views = text::text_views(texts@);
    let ghost whole = records@.subrange(from as int, end as int);
    let ghost last = next + formulas(whole).len();
    let ghost start = output@;
    let mut at: usize = from;
    let mut used: usize = next;
    while at < end
        invariant
            from <= at <= end <= records@.len(),
            views == text::text_views(texts@),
            whole == records@.subrange(from as int, end as int),
            next <= used <= last <= texts.len(),
            used + formulas(records@.subrange(at as int, end as int)).len() == last,
            start + forest_text(whole, views.subrange(next as int, last)) == output@ + forest_text(
                records@.subrange(at as int, end as int),
                views.subrange(used as int, last),
            ),
        decreases end - at,
    {
        let after = tree_end(records, at, end);
        let ghost forest = records@.subrange(at as int, end as int);
        let ghost before = output@;
        let ghost left = views.subrange(used as int, last);
        proof {
            lemma_forest_parts(forest);
            assert(forest.first() == records@[at as int]);
            assert(first_inner(forest) =~= records@.subrange(at + 1, after as int));
            assert(other_trees(forest) =~= records@.subrange(after as int, end as int));
        }
        let record = &records[at];
        if record.is_element && same_text(record.name.as_str(), "math") {
            proof {
                assert(left.first() == views[used as int]);
                assert(left.drop_first() =~= views.subrange(used + 1, last));
            }
            if let Some(t) = &texts[used] {
                output.append(t.as_str());
            }
            used += 1;
        } else if record.is_text {
            proof {
                assert(formulas(forest) =~= formulas(other_trees(forest)));
            }
            output.append(text_of(record));
        } else {
            proof {
                let n = formulas(first_inner(forest)).len() as int;
                assert(left.take(n) =~= views.subrange(used as int, used + n));
                assert(left.skip(n) =~= views.subrange(used + n, last));
            }
            used = append_text(records, at + 1, after, texts, used, output);
        }
        proof {
            let rest = forest_text(
                records@.subrange(after as int, end as int),
                views.subrange(used as int, last),
            );
            assert(output@ + rest =~= before + forest_text(forest, left));
        }
        at = after;
    }
    proof {
        assert(records@.subrange(end as int, end as int).len() == 0);
        assert(output@ =~= start + forest_text(whole, views.subrange(next as int, last)));
    }
    used
}

/// The text of `records` whose formulas read as `texts`, in document order, without white space at
/// its ends.
pub fn text_with_formulas(records: &Vec<XmlRecord>, texts: &Vec<Option<String>>) -> (r: String)
    requires
        texts@.len() == formulas(records@).len(),
    ensures
        r@ == text::trimmed(forest_text(records@, text::text_views(texts@)), Trim::Space),
{
    let mut output = String::new();
    proof {
        assert(records@.subrange(0, records@.len() as int) =~= records@);
    }
    let used = append_text(records, 0, records.len(), texts, 0, &mut output);
    proof {
        let views = text::text_views(texts@);
        assert(views.subrange(0, used as int) =~= views);
        assert(output@ =~= forest_text(records@, views));
    }
    trim_string(output.as_str())
}

/// Text extraction for headings, list labels and links: formulas are read as in the reading buffer,
/// rather than by the text of their tokens and annotations.
pub fn collect_xml_text(
    node: roxmltree::Node<'_, '_>,
    thread: &mut MathThread,
    cache: &mut MathCache,
) -> (r: String)
    requires
        old(cache).wf(),
    ensures
        final(cache).wf(),
        old(thread).ready() is Some ==> final(thread).ready() == old(thread).ready(),
        formulas(node_records(node)).len() == 0 ==> final(thread).ready() == old(thread).ready(),
        formulas(node_records(node)).len() > 0 ==> final(thread).ready() is Some,
        exists|texts: Seq<Option<Seq<char>>>|
            {
                &&& #[trigger] formulas_step(
                    final(thread).ready(),
                    old(cache)@,
                    formulas(node_records(node)),
                    texts,
                    final(cache)@,
                )
                &&& r@ == text::trimmed(forest_text(node_records(node), texts), Trim::Space)
            },
{
    let records = read_records(node);
    let texts = read_formulas(&records, thread, cache);
    proof {
        lemma_formulas_step_len(
            thread.ready(),
            old(cache)@,
            formulas(records@),
            text::text_views(texts@),
            cache@,
        );
    }
    text_with_formulas(&records, &texts)
}

proof fn lemma_formulas_step_len(
    ready: Option<bool>,
    before: Map<Seq<char>, Option<Seq<char>>>,
    ms: Seq<Seq<XmlRecord>>,
    texts: Seq<Option<Seq<char>>>,
    after: Map<Seq<char>, Option<Seq<char>>>,
)
    requires
        formulas_step(ready, before, ms, texts, after),
    ensures
        texts.len() == ms.len(),
{
}

/// In a start tag, a prefix is declared at most once.
pub proof fn law_prefix_is_declared_once(attributes: Seq<XmlAttribute>, i: int, j: int)
    requires
        0 <= j < i < attributes.len(),
        declares(attributes.take(i + 1)),
        declares(attributes.take(j + 1)),
    ensures
        written_prefix(attributes[i]) != written_prefix(attributes[j]),
{
    let seen = attributes.take(i + 1).drop_last();
    assert(seen =~= attributes.take(i));
    assert(seen[j] == attributes.take(j + 1).last());
    assert(needs_declaration(seen[j]));
}

/// In a start tag, the prefix of an attribute in a namespace other than that of `xml` is declared at
/// the attribute or before it.
pub proof fn law_needed_prefix_is_declared(attributes: Seq<XmlAttribute>, i: int)
    requires
        0 <= i < attributes.len(),
        needs_declaration(attributes[i]),
    ensures
        exists|k: int|
            0 <= k <= i && written_prefix(attributes[k]) == written_prefix(attributes[i])
                && #[trigger] declares(attributes.take(k + 1)),
    decreases i,
{
    let upto = attributes.take(i + 1);
    let prefix = written_prefix(attributes[i])->0;
    assert(upto.last() == attributes[i]);
    assert(upto.drop_last() =~= attributes.take(i));
    if needs_prefix(upto.drop_last(), prefix) {
        let seen = upto.drop_last();
        let k = choose|k: int|
            0 <= k < seen.len() && #[trigger] needs_declaration(seen[k]) && written_prefix(seen[k])
                == Some(prefix);
        assert(seen[k] == attributes[k]);
        law_needed_prefix_is_declared(attributes, k);
    } else {
        assert(declares(attributes.take(i + 1)));
    }
}

proof fn lemma_plain_text_needs_no_escape(s: Seq<char>, place: Place)
    requires
        forall|i: int|
            0 <= i < s.len() ==> #[trigger] s[i] != '&' && s[i] != '<' && s[i] != '>' && s[i]
                != '"',
    ensures
        html::escaped(s, place) == s,
    decreases s.len(),
{
    if s.len() > 0 {
        assert forall|i: int| 0 <= i < s.drop_last().len() implies #[trigger] s.drop_last()[i]
            != '&' && s.drop_last()[i] != '<' && s.drop_last()[i] != '>' && s.drop_last()[i]
            != '"' by {
            assert(s.drop_last()[i] == s[i]);
        }
        lemma_plain_text_needs_no_escape(s.drop_last(), place);
        assert(s[s.len() - 1] == s.last());
        assert(s =~= s.drop_last() + seq![s.last()]);
    }
}

/// The fragment of an element stands on its own: it starts with the element's start tag, which
/// declares the MathML namespace whatever prefix the document uses, and ends with its end tag.
pub proof fn law_fragment_declares_mathml(s: Seq<XmlRecord>)
    requires
        s.len() > 0,
        s.first().is_element,
        !s.first().is_text,
    ensures
        text::occurs_at(
            fragment_xml(s),
            "<"@ + s.first().name@ + " xmlns=\""@ + MATHML_NAMESPACE@ + "\""@,
            0,
        ),
        fragment_xml(s).len() >= end_tag_xml(s.first()).len(),
        text::occurs_at(
            fragment_xml(s),
            end_tag_xml(s.first()),
            fragment_xml(s).len() - end_tag_xml(s.first()).len(),
        ),
{
    let record = s.first();
    let math = text::text_view(record.namespace);
    let ns = MATHML_NAMESPACE@;
    let inner = forest_xml(first_inner(s), math, ns);
    reveal_strlit("http://www.w3.org/1998/Math/MathML");
    assert(ns.len() > 0);
    lemma_plain_text_needs_no_escape(ns, Place::Attribute);
    let head = "<"@ + record.name@ + " xmlns=\""@ + ns + "\""@;
    let tail = attributes_xml(record.attributes@) + ">"@ + inner + end_tag_xml(record);
    let out = fragment_xml(s);
    assert(start_tag_xml(record, ns, Seq::empty()) =~= head + attributes_xml(record.attributes@)
        + ">"@);
    assert(out =~= head + tail);
    assert(out.subrange(0, head.len() as int) =~= head);
    let start = out.len() - end_tag_xml(record).len();
    assert(out.subrange(start, out.len() as int) =~= end_tag_xml(record));
}

/// Text nodes have no descendants.
pub open spec fn texts_are_leaves(s: Seq<XmlRecord>) -> bool {
    forall|i: int|
        #![trigger s[i]]
        0 <= i < s.len() - 1 && s[i].is_text ==> s[i + 1].depth <= s[i].depth
}

proof fn lemma_raw_text_of_parts(a: Seq<XmlRecord>, b: Seq<XmlRecord>)
    ensures
        raw_text(a + b) == raw_text(a) + raw_text(b),
    decreases b.len(),
{
    if b.len() == 0 {
        assert(a + b =~= a);
        assert(raw_text(a) + raw_text(b) =~= raw_text(a));
    } else {
        lemma_raw_text_of_parts(a, b.drop_last());
        assert((a + b).drop_last() =~= a + b.drop_last());
        assert((a + b).last() == b.last());
        assert(raw_text(a + b) =~= raw_text(a) + raw_text(b));
    }
}

/// Text without formulas is read as it stands in the document.
pub proof fn law_text_without_formulas_is_kept(s: Seq<XmlRecord>)
    requires
        texts_are_leaves(s),
        formulas(s).len() == 0,
    ensures
        forest_text(s, Seq::empty()) == raw_text(s),
    decreases s.len(),
{
    let none = Seq::<Option<Seq<char>>>::empty();
    if s.len() > 0 {
        lemma_forest_parts(s);
        let inner = first_inner(s);
        let rest = other_trees(s);
        let root = seq![s.first()];
        assert(s =~= root + inner + rest);
        lemma_raw_text_of_parts(root + inner, rest);
        lemma_raw_text_of_parts(root, inner);
        assert(raw_text(root.drop_last()).len() == 0);
        assert(root.last() == s.first());
        assert(raw_text(root) =~= if s.first().is_text {
            own_text(s.first())
        } else {
            Seq::empty()
        });
        assert(texts_are_leaves(rest)) by {
            let n = first_tree_len(s) as int;
            assert forall|i: int| #![trigger rest[i]] 0 <= i < rest.len() - 1 && rest[i].is_text implies rest[i
                + 1].depth <= rest[i].depth by {
                assert(rest[i] == s[n + i]);
                assert(rest[i + 1] == s[n + i + 1]);
            }
        }
        law_text_without_formulas_is_kept(rest);
        if s.first().is_text {
            assert(s[0] == s.first());
            if s.len() > 1 {
                assert(s.drop_first().first() == s[1]);
            }
            assert(inner.len() == 0);
            assert(formulas(s) =~= formulas(rest));
            assert(forest_text(s, none) =~= raw_text(s));
        } else {
            assert(texts_are_leaves(inner)) by {
                assert forall|i: int|
                    #![trigger inner[i]]
                    0 <= i < inner.len() - 1 && inner[i].is_text implies inner[i + 1].depth
                    <= inner[i].depth by {
                    assert(inner[i] == s[i + 1]);
                    assert(inner[i + 1] == s[i + 2]);
                }
            }
            law_text_without_formulas_is_kept(inner);
            assert(none.take(0) =~= none);
            assert(none.skip(0) =~= none);
            assert(forest_text(s, none) =~= raw_text(s));
        }
    }
}

/// `b` starts at the level of the trees of `a`, or above it: put behind `a`, it adds trees of its own.
pub open spec fn adds_trees(a: Seq<XmlRecord>, b: Seq<XmlRecord>) -> bool {
    b.len() > 0 ==> forall|i: int| 0 <= i < a.len() ==> b.first().depth <= (#[trigger] a[i]).depth
}

/// `inner` lies below `root`.
pub open spec fn lies_below(root: XmlRecord, inner: Seq<XmlRecord>) -> bool {
    forall|i: int| 0 <= i < inner.len() ==> (#[trigger] inner[i]).depth > root.depth
}

proof fn lemma_deeper_run_stops(a: Seq<XmlRecord>, b: Seq<XmlRecord>, depth: usize)
    requires
        b.len() > 0 ==> b.first().depth <= depth,
    ensures
        deeper_run(a + b, depth) == deeper_run(a, depth),
    decreases a.len(),
{
    if a.len() == 0 {
        assert(a + b =~= b);
    } else {
        assert((a + b).first() == a.first());
        assert((a + b).drop_first() =~= a.drop_first() + b);
        lemma_deeper_run_stops(a.drop_first(), b, depth);
    }
}

proof fn lemma_deeper_run_all(inner: Seq<XmlRecord>, depth: usize)
    requires
        forall|i: int| 0 <= i < inner.len() ==> (#[trigger] inner[i]).depth > depth,
    ensures
        deeper_run(inner, depth) == inner.len(),
    decreases inner.len(),
{
    if inner.len() > 0 {
        assert(inner[0].depth > depth);
        let rest = inner.drop_first();
        assert forall|i: int| 0 <= i < rest.len() implies (#[trigger] rest[i]).depth > depth by {
            assert(rest[i] == inner[i + 1]);
        }
        lemma_deeper_run_all(rest, depth);
    }
}

proof fn lemma_added_trees(a: Seq<XmlRecord>, b: Seq<XmlRecord>)
    requires
        a.len() > 0,
        adds_trees(a, b),
    ensures
        (a + b).first() == a.first(),
        first_tree(a + b) == first_tree(a),
        first_inner(a + b) == first_inner(a),
        other_trees(a + b) == other_trees(a) + b,
        adds_trees(other_trees(a), b),
{
    lemma_forest_parts(a);
    assert((a + b).first() == a.first());
    assert((a + b).drop_first() =~= a.drop_first() + b);
    assert(a[0] == a.first());
    lemma_deeper_run_stops(a.drop_first(), b, a.first().depth);
    assert(first_tree_len(a + b) == first_tree_len(a));
    let n = first_tree_len(a) as int;
    assert(first_tree(a + b) =~= first_tree(a));
    assert(first_inner(a + b) =~= first_inner(a));
    assert(other_trees(a + b) =~= other_trees(a) + b);
    assert forall|i: int| b.len() > 0 && 0 <= i < other_trees(a).len() implies b.first().depth <= (
    #[trigger] other_trees(a)[i]).depth by {
        assert(other_trees(a)[i] == a[n + i]);
    }
}

/// The text of a sequence of trees is the text of each tree in order: the formulas of the first trees take
/// the first readings, and those of the trees behind them take the readings behind those.
pub proof fn law_text_of_trees_in_order(
    a: Seq<XmlRecord>,
    b: Seq<XmlRecord>,
    texts_a: Seq<Option<Seq<char>>>,
    texts_b: Seq<Option<Seq<char>>>,
)
    requires
        adds_trees(a, b),
        texts_a.len() == formulas(a).len(),
        texts_b.len() == formulas(b).len(),
    ensures
        formulas(a + b) == formulas(a) + formulas(b),
        forest_text(a + b, texts_a + texts_b) == forest_text(a, texts_a) + forest_text(b, texts_b),
    decreases a.len(),
{
    let texts = texts_a + texts_b;
    if a.len() == 0 {
        assert(a + b =~= b);
        assert(texts =~= texts_b);
        assert(formulas(a) + formulas(b) =~= formulas(b));
        assert(forest_text(a, texts_a) + forest_text(b, texts_b) =~= forest_text(b, texts_b));
    } else {
        lemma_forest_parts(a);
        lemma_added_trees(a, b);
        let rest = other_trees(a);
        if is_math(a.first()) {
            let after = texts_a.drop_first();
            assert(formulas(a).len() == 1 + formulas(rest).len());
            law_text_of_trees_in_order(rest, b, after, texts_b);
            assert(texts.first() == texts_a.first());
            assert(texts.drop_first() =~= after + texts_b);
            assert(formulas(a + b) =~= formulas(a) + formulas(b));
        } else if a.first().is_text {
            assert(formulas(a) =~= formulas(rest));
            law_text_of_trees_in_order(rest, b, texts_a, texts_b);
            assert(formulas(a + b) =~= formulas(a) + formulas(b));
        } else {
            let n = formulas(first_inner(a)).len() as int;
            assert(formulas(a).len() == n + formulas(rest).len());
            law_text_of_trees_in_order(rest, b, texts_a.skip(n), texts_b);
            assert(texts.take(n) =~= texts_a.take(n));
            assert(texts.skip(n) =~= texts_a.skip(n) + texts_b);
            assert(formulas(a + b) =~= formulas(a) + formulas(b));
        }
        assert(forest_text(a + b, texts) =~= forest_text(a, texts_a) + forest_text(b, texts_b));
    }
}

/// A formula is read as one: an element named `math`, in whatever namespace, contributes its reading and
/// nothing of what lies below it, not even another formula.
pub proof fn law_formula_stands_for_its_reading(
    root: XmlRecord,
    inner: Seq<XmlRecord>,
    reading: Option<Seq<char>>,
)
    requires
        root.is_element,
        root.name@ == "math"@,
        lies_below(root, inner),
    ensures
        formulas(seq![root] + inner) == seq![seq![root] + inner],
        reading matches Some(t) ==> forest_text(seq![root] + inner, seq![reading]) == t,
        reading is None ==> forest_text(seq![root] + inner, seq![reading]) == Seq::<char>::empty(),
{
    let s = seq![root] + inner;
    assert(s.first() == root);
    assert(s.drop_first() =~= inner);
    lemma_deeper_run_all(inner, root.depth);
    assert(first_tree(s) =~= s);
    assert(other_trees(s).len() == 0);
    assert(formulas(other_trees(s)).len() == 0);
    assert(formulas(s) =~= seq![s]);
    assert(forest_text(other_trees(s), seq![reading].drop_first()).len() == 0);
    assert(forest_text(s, seq![reading]) =~= text::or_empty(reading));
}

/// Any other element contributes what lies below it, with the readings of the formulas below it.
pub proof fn law_element_stands_for_its_content(
    root: XmlRecord,
    inner: Seq<XmlRecord>,
    texts: Seq<Option<Seq<char>>>,
)
    requires
        !(root.is_element && root.name@ == "math"@),
        !root.is_text,
        lies_below(root, inner),
        texts.len() == formulas(inner).len(),
    ensures
        formulas(seq![root] + inner) == formulas(inner),
        forest_text(seq![root] + inner, texts) == forest_text(inner, texts),
{
    let s = seq![root] + inner;
    assert(s.first() == root);
    assert(s.drop_first() =~= inner);
    lemma_deeper_run_all(inner, root.depth);
    assert(first_inner(s) =~= inner);
    assert(other_trees(s).len() == 0);
    assert(formulas(other_trees(s)).len() == 0);
    assert(formulas(s) =~= formulas(inner));
    let n = texts.len() as int;
    assert(texts.take(n) =~= texts);
    assert(forest_text(other_trees(s), texts.skip(n)).len() == 0);
    assert(forest_text(s, texts) =~= forest_text(inner, texts));
}

/// A text node contributes its text, and nothing contributes nothing.
pub proof fn law_text_stands_for_itself(root: XmlRecord)
    requires
        root.is_text,
        !root.is_element,
    ensures
        formulas(seq![root]).len() == 0,
        formulas(Seq::<XmlRecord>::empty()).len() == 0,
        root.text matches Some(t) ==> forest_text(seq![root], Seq::empty()) == t@,
        root.text is None ==> forest_text(seq![root], Seq::empty()) == Seq::<char>::empty(),
        forest_text(Seq::empty(), Seq::empty()) == Seq::<char>::empty(),
{
    let s = seq![root];
    assert(s.first() == root);
    assert(s.drop_first().len() == 0);
    assert(deeper_run(s.drop_first(), root.depth) == 0);
    assert(other_trees(s).len() == 0);
    assert(formulas(other_trees(s)).len() == 0);
    assert(formulas(s).len() == 0);
    let none = Seq::<Option<Seq<char>>>::empty();
    assert(forest_text(other_trees(s), none).len() == 0);
    assert(forest_text(s, none) =~= own_text(root));
}

/// If every formula reads as its own raw text, a forest reads as its raw text: each reading stands exactly
/// where its formula stands.
#[verifier::spinoff_prover]
#[verifier::rlimit(40)]
pub proof fn law_readings_stand_in_place(s: Seq<XmlRecord>, texts: Seq<Option<Seq<char>>>)
    requires
        texts_are_leaves(s),
        texts.len() == formulas(s).len(),
        forall|k: int|
            0 <= k < texts.len() ==> (#[trigger] texts[k]) == Some(raw_text(formulas(s)[k])),
    ensures
        forest_text(s, texts) == raw_text(s),
    decreases s.len(),
{
    if s.len() > 0 {
        lemma_forest_parts(s);
        let inner = first_inner(s);
        let rest = other_trees(s);
        let root = seq![s.first()];
        assert(s =~= root + inner + rest);
        assert(first_tree(s) =~= root + inner);
        lemma_raw_text_of_parts(root + inner, rest);
        lemma_raw_text_of_parts(root, inner);
        assert(raw_text(root.drop_last()).len() == 0);
        assert(root.last() == s.first());
        assert(raw_text(root) =~= if s.first().is_text {
            own_text(s.first())
        } else {
            Seq::empty()
        });
        assert(texts_are_leaves(rest)) by {
            let n = first_tree_len(s) as int;
            assert forall|i: int| #![trigger rest[i]] 0 <= i < rest.len() - 1
                && rest[i].is_text implies rest[i + 1].depth <= rest[i].depth by {
                assert(rest[i] == s[n + i]);
                assert(rest[i + 1] == s[n + i + 1]);
            }
        }
        if is_math(s.first()) {
            let after = texts.drop_first();
            assert(formulas(s) =~= seq![first_tree(s)] + formulas(rest));
            assert(texts[0] == Some(raw_text(formulas(s)[0])));
            assert forall|k: int| 0 <= k < after.len() implies (#[trigger] after[k]) == Some(
                raw_text(formulas(rest)[k]),
            ) by {
                assert(after[k] == texts[k + 1]);
                assert(formulas(s)[k + 1] == formulas(rest)[k]);
            }
            law_readings_stand_in_place(rest, after);
            assert(forest_text(s, texts) =~= raw_text(s));
        } else if s.first().is_text {
            assert(s[0] == s.first());
            if s.len() > 1 {
                assert(s.drop_first().first() == s[1]);
            }
            assert(inner.len() == 0);
            assert(formulas(s) =~= formulas(rest));
            law_readings_stand_in_place(rest, texts);
            assert(forest_text(s, texts) =~= raw_text(s));
        } else {
            assert(texts_are_leaves(inner)) by {
                assert forall|i: int|
                    #![trigger inner[i]]
                    0 <= i < inner.len() - 1 && inner[i].is_text implies inner[i + 1].depth
                    <= inner[i].depth by {
                    assert(inner[i] == s[i + 1]);
                    assert(inner[i + 1] == s[i + 2]);
                }
            }
            let n = formulas(inner).len() as int;
            assert(formulas(s) =~= formulas(inner) + formulas(rest));
            let first = texts.take(n);
            let after = texts.skip(n);
            assert forall|k: int| 0 <= k < first.len() implies (#[trigger] first[k]) == Some(
                raw_text(formulas(inner)[k]),
            ) by {
                assert(first[k] == texts[k]);
                assert(formulas(s)[k] == formulas(inner)[k]);
            }
            assert forall|k: int| 0 <= k < after.len() implies (#[trigger] after[k]) == Some(
                raw_text(formulas(rest)[k]),
            ) by {
                assert(after[k] == texts[n + k]);
                assert(formulas(s)[n + k] == formulas(rest)[k]);
            }
            law_readings_stand_in_place(inner, first);
            law_readings_stand_in_place(rest, after);
            assert(forest_text(s, texts) =~= raw_text(s));
        }
    }
}

/// Raw text is all text in document order: that of the parts of a sequence of records, one after the
/// other; a text node gives its text and any other node none of its own.
pub proof fn law_raw_text_is_all_text(a: Seq<XmlRecord>, b: Seq<XmlRecord>, record: XmlRecord)
    ensures
        raw_text(Seq::empty()) == Seq::<char>::empty(),
        raw_text(a + b) == raw_text(a) + raw_text(b),
        record.is_text ==> (record.text matches Some(t) ==> raw_text(seq![record]) == t@),
        !record.is_text || record.text is None ==> raw_text(seq![record]) == Seq::<char>::empty(),
{
    lemma_raw_text_of_parts(a, b);
    let s = seq![record];
    assert(s.last() == record);
    assert(raw_text(s.drop_last()).len() == 0);
    assert(raw_text(s) =~= if record.is_text {
        own_text(record)
    } else {
        Seq::empty()
    });
}

/// The value of an attribute is that of the first attribute with its local name; there is none exactly if
/// no attribute has the name.
pub proof fn law_first_attribute_counts(
    attributes: Seq<XmlAttribute>,
    name: Seq<char>,
    i: int,
)
    ensures
        0 <= i < attributes.len() && attributes[i].name@ == name && (forall|j: int|
            0 <= j < i ==> (#[trigger] attributes[j]).name@ != name) ==> attribute_value(
            attributes,
            name,
        ) == Some(attributes[i].value@),
        (forall|j: int| 0 <= j < attributes.len() ==> (#[trigger] attributes[j]).name@ != name)
            ==> attribute_value(attributes, name) is None,
    decreases attributes.len(),
{
    if attributes.len() > 0 {
        let rest = attributes.drop_first();
        assert(attributes[0] == attributes.first());
        law_first_attribute_counts(rest, name, i - 1);
        assert forall|j: int| 0 <= j < rest.len() implies rest[j] == #[trigger] attributes[j
            + 1] by {}
        if forall|j: int| 0 <= j < i ==> (#[trigger] attributes[j]).name@ != name {
            assert forall|j: int| 0 <= j < i - 1 && j < rest.len() implies (
            #[trigger] rest[j]).name@ != name by {
                assert(attributes[j + 1].name@ != name);
            }
        }
        if forall|j: int| 0 <= j < attributes.len() ==> (#[trigger] attributes[j]).name@ != name {
            assert forall|j: int| 0 <= j < rest.len() implies (#[trigger] rest[j]).name@
                != name by {
                assert(attributes[j + 1].name@ != name);
            }
        }
    }
}

/// A formula of a document reads as its AsciiMath if there is one, or else by its attribute `alttext`, or
/// else by all its text.
pub proof fn law_formula_of_a_document(m: Seq<XmlRecord>, rendered: Option<Seq<char>>)
    ensures
        rendered is Some ==> formula_text(m, rendered) == rendered,
        rendered is None ==> (attribute_value(m.first().attributes@, "alttext"@) matches Some(alt)
            ==> (text::normalized(alt) is Some ==> formula_text(m, rendered) == text::normalized(
            alt,
        ))),
        rendered is None && (attribute_value(m.first().attributes@, "alttext"@) matches Some(alt)
            ==> text::normalized(alt) is None) ==> formula_text(m, rendered) == text::normalized(
            raw_text(m),
        ),
{
}

/// `reading` is what the formula `m` reads as, where MathCAT is set up or not: from MathCAT's answer for
/// the fragment that is made of `m`, or from none.
pub open spec fn is_reading(
    ready: Option<bool>,
    m: Seq<XmlRecord>,
    reading: Option<Seq<char>>,
) -> bool {
    exists|rendered: Option<Seq<char>>|
        {
            &&& ready == Some(true) ==> asciimath::renders(fragment_xml(m), rendered)
            &&& ready != Some(true) ==> rendered is None
            &&& reading == #[trigger] formula_text(m, rendered)
        }
}

proof fn lemma_readings(
    ready: Option<bool>,
    before: Map<Seq<char>, Option<Seq<char>>>,
    ms: Seq<Seq<XmlRecord>>,
    texts: Seq<Option<Seq<char>>>,
    after: Map<Seq<char>, Option<Seq<char>>>,
)
    requires
        formulas_step(ready, before, ms, texts, after),
    ensures
        texts.len() == ms.len(),
        forall|k: int| 0 <= k < ms.len() ==> is_reading(ready, ms[k], #[trigger] texts[k]),
    decreases ms.len(),
{
    if ms.len() > 0 {
        let (between, rendered) = choose|
            between: Map<Seq<char>, Option<Seq<char>>>,
            rendered: Option<Seq<char>>,
        |
            {
                &&& formulas_step(ready, before, ms.drop_last(), texts.drop_last(), between)
                &&& #[trigger] asciimath::asciimath_step(
                    ready,
                    between,
                    fragment_xml(ms.last()),
                    rendered,
                    after,
                )
                &&& ready == Some(true) ==> asciimath::renders(fragment_xml(ms.last()), rendered)
                &&& texts.last() == formula_text(ms.last(), rendered)
            };
        lemma_readings(ready, before, ms.drop_last(), texts.drop_last(), between);
        assert(is_reading(ready, ms.last(), texts.last()));
        assert forall|k: int| 0 <= k < ms.len() implies is_reading(
            ready,
            ms[k],
            #[trigger] texts[k],
        ) by {
            if k < ms.len() - 1 {
                assert(texts.drop_last()[k] == texts[k]);
                assert(ms.drop_last()[k] == ms[k]);
            }
        }
    }
}

/// The formulas of a document are read one by one: the k-th reading is that of the k-th formula in document
/// order.
pub proof fn law_each_formula_is_read(
    records: Vec<XmlRecord>,
    thread: &mut MathThread,
    cache: &mut MathCache,
    texts: Vec<Option<String>>,
    k: int,
)
    requires
        call_ensures(read_formulas, (&records, thread, cache), texts),
    ensures
        texts@.len() == formulas(records@).len(),
        0 <= k < texts@.len() ==> is_reading(
            final(thread).ready(),
            formulas(records@)[k],
            text::text_view(texts@[k]),
        ),
{
    let views = text::text_views(texts@);
    lemma_readings(final(thread).ready(), old(cache)@, formulas(records@), views, final(cache)@);
    if 0 <= k < texts@.len() {
        assert(views[k] == text::text_view(texts@[k]));
    }
}

/// The text of a document is that of its records, each formula replaced by its reading where it stands,
/// without white space at the ends.
pub proof fn law_document_text(
    node: roxmltree::Node<'_, '_>,
    thread: &mut MathThread,
    cache: &mut MathCache,
    r: String,
)
    requires
        call_ensures(collect_xml_text, (node, thread, cache), r),
    ensures
        exists|texts: Seq<Option<Seq<char>>>|
            {
                &&& texts.len() == formulas(node_records(node)).len()
                &&& forall|k: int|
                    0 <= k < texts.len() ==> is_reading(
                        final(thread).ready(),
                        formulas(node_records(node))[k],
                        #[trigger] texts[k],
                    )
                &&& is_trimmed(#[trigger] forest_text(node_records(node), texts), r@)
            },
{
    let s = node_records(node);
    let texts = choose|texts: Seq<Option<Seq<char>>>|
        {
            &&& #[trigger] formulas_step(
                final(thread).ready(),
                old(cache)@,
                formulas(s),
                texts,
                final(cache)@,
            )
            &&& r@ == text::trimmed(forest_text(s, texts), Trim::Space)
        };
    lemma_readings(final(thread).ready(), old(cache)@, formulas(s), texts, final(cache)@);
    lemma_is_trimmed(forest_text(s, texts));
}

/// `t` is `s` without the white space at its ends.
pub open spec fn is_trimmed(s: Seq<char>, t: Seq<char>) -> bool {
    &&& t.len() > 0 ==> !text::is_space(t.first()) && !text::is_space(t.last())
    &&& exists|before: Seq<char>, after: Seq<char>|
        #![trigger text::all_accepted(before, Trim::Space), text::all_accepted(after, Trim::Space)]
        s == before + t + after && text::all_accepted(before, Trim::Space) && text::all_accepted(
            after,
            Trim::Space,
        )
}

proof fn lemma_is_trimmed(s: Seq<char>)
    ensures
        is_trimmed(s, text::trimmed(s, Trim::Space)),
{
    text::lemma_trimmed_ends(s, Trim::Space);
}

/// The text of records with known readings, without white space at the ends.
pub proof fn law_text_with_known_readings(
    records: Vec<XmlRecord>,
    texts: Vec<Option<String>>,
    r: String,
)
    requires
        call_ensures(text_with_formulas, (&records, &texts), r),
    ensures
        is_trimmed(forest_text(records@, text::text_views(texts@)), r@),
{
    lemma_is_trimmed(forest_text(records@, text::text_views(texts@)));
}

/// The elements of the fragment's own namespace are written in the MathML namespace; any other element
/// keeps its namespace, or has none. An attribute in the namespace of `xml` has the prefix `xml`, one in
/// another namespace has the prefix of the document, or `attr` where the document has none, and one
/// without a namespace has no prefix.
pub proof fn law_namespaces_are_kept(
    namespace: Option<Seq<char>>,
    math_namespace: Option<Seq<char>>,
    a: XmlAttribute,
)
    ensures
        MATHML_NAMESPACE@ == "http://www.w3.org/1998/Math/MathML"@,
        XML_NAMESPACE@ == "http://www.w3.org/XML/1998/namespace"@,
        namespace == math_namespace ==> written_namespace(namespace, math_namespace)
            == MATHML_NAMESPACE@,
        namespace != math_namespace ==> (namespace matches Some(ns) ==> written_namespace(
            namespace,
            math_namespace,
        ) == ns),
        namespace != math_namespace && namespace is None ==> written_namespace(
            namespace,
            math_namespace,
        ) == Seq::<char>::empty(),
        a.namespace is None ==> written_prefix(a) is None && !needs_declaration(a),
        a.namespace matches Some(ns) ==> {
            &&& needs_declaration(a) == (ns@ != XML_NAMESPACE@)
            &&& ns@ == XML_NAMESPACE@ ==> written_prefix(a) == Some("xml"@)
            &&& ns@ != XML_NAMESPACE@ ==> (a.prefix matches Some(prefix) ==> written_prefix(a)
                == Some(prefix@))
            &&& ns@ != XML_NAMESPACE@ && a.prefix is None ==> written_prefix(a) == Some("attr"@)
        },
{
}

/// The fragment of a node is that of its records, and what each formula is read from is its fragment, its
/// alternative text and its raw text, in document order.
pub proof fn law_sources_describe_the_formulas(
    records: Vec<XmlRecord>,
    written: String,
    node: roxmltree::Node<'_, '_>,
    node_fragment: String,
    sources: Vec<FormulaSource>,
    k: int,
)
    requires
        call_ensures(fragment, (&records,), written),
        call_ensures(xml_fragment, (node,), node_fragment),
        call_ensures(formula_sources, (node,), sources),
    ensures
        written@ == fragment_xml(records@),
        node_fragment@ == fragment_xml(node_records(node)),
        sources@.len() == formulas(node_records(node)).len(),
        0 <= k < sources@.len() ==> {
            let m = formulas(node_records(node))[k];
            &&& sources@[k].mathml@ == fragment_xml(m)
            &&& text::text_view(sources@[k].alttext) == attribute_value(
                m.first().attributes@,
                "alttext"@,
            )
            &&& sources@[k].raw_text@ == raw_text(m)
        },
{
}

/// The fragment of a text node is its text, escaped, and that of a comment or another node is empty.
pub proof fn law_fragment_of_other_nodes(s: Seq<XmlRecord>)
    requires
        s.len() > 0,
    ensures
        s.first().is_text ==> fragment_xml(s) == html::escaped(
            match s.first().text {
                Some(t) => t@,
                None => Seq::empty(),
            },
            Place::Content,
        ),
        !s.first().is_text && !s.first().is_element ==> fragment_xml(s) == Seq::<char>::empty(),
{
}

/// Trees are written one after the other.
pub proof fn law_trees_are_written_in_order(
    a: Seq<XmlRecord>,
    b: Seq<XmlRecord>,
    math_namespace: Option<Seq<char>>,
    inherited: Seq<char>,
)
    requires
        adds_trees(a, b),
    ensures
        forest_xml(Seq::empty(), math_namespace, inherited) == Seq::<char>::empty(),
        forest_xml(a + b, math_namespace, inherited) == forest_xml(a, math_namespace, inherited)
            + forest_xml(b, math_namespace, inherited),
    decreases a.len(),
{
    if a.len() == 0 {
        assert(a + b =~= b);
        assert(forest_xml(a, math_namespace, inherited) + forest_xml(b, math_namespace, inherited)
            =~= forest_xml(b, math_namespace, inherited));
    } else {
        lemma_forest_parts(a);
        lemma_added_trees(a, b);
        law_trees_are_written_in_order(other_trees(a), b, math_namespace, inherited);
        assert(forest_xml(a + b, math_namespace, inherited) =~= forest_xml(
            a,
            math_namespace,
            inherited,
        ) + forest_xml(b, math_namespace, inherited));
    }
}

/// An element is written as its start tag, its content and its end tag. The start tag declares the
/// element's namespace exactly if that differs from the one around it: the namespace of MathML for an
/// element of the fragment's own namespace, and its own, or none, for any other. The content is written
/// inside that namespace.
pub proof fn law_element_is_written_with_its_content(
    root: XmlRecord,
    inner: Seq<XmlRecord>,
    math_namespace: Option<Seq<char>>,
    inherited: Seq<char>,
    namespace: Seq<char>,
)
    requires
        root.is_element,
        !root.is_text,
        lies_below(root, inner),
        text::text_view(root.namespace) == math_namespace ==> namespace
            == "http://www.w3.org/1998/Math/MathML"@,
        text::text_view(root.namespace) != math_namespace ==> namespace == text::or_empty(
            text::text_view(root.namespace),
        ),
    ensures
        namespace == inherited ==> forest_xml(seq![root] + inner, math_namespace, inherited)
            == "<"@ + root.name@ + attributes_xml(root.attributes@) + ">"@ + forest_xml(
            inner,
            math_namespace,
            namespace,
        ) + "</"@ + root.name@ + ">"@,
        namespace != inherited ==> forest_xml(seq![root] + inner, math_namespace, inherited)
            == "<"@ + root.name@ + " xmlns=\""@ + html::escaped(namespace, Place::Attribute) + "\""@
            + attributes_xml(root.attributes@) + ">"@ + forest_xml(inner, math_namespace, namespace)
            + "</"@ + root.name@ + ">"@,
{
    let s = seq![root] + inner;
    assert(s.first() == root);
    assert(s.drop_first() =~= inner);
    lemma_deeper_run_all(inner, root.depth);
    assert(first_inner(s) =~= inner);
    assert(other_trees(s).len() == 0);
    assert(forest_xml(other_trees(s), math_namespace, inherited).len() == 0);
    let content = forest_xml(inner, math_namespace, namespace);
    assert(namespace == written_namespace(text::text_view(root.namespace), math_namespace));
    let out = forest_xml(s, math_namespace, inherited);
    assert(out =~= element_xml(root, math_namespace, inherited, content));
    if namespace == inherited {
        assert(out =~= "<"@ + root.name@ + attributes_xml(root.attributes@) + ">"@ + content
            + "</"@ + root.name@ + ">"@);
    } else {
        assert(out =~= "<"@ + root.name@ + " xmlns=\""@ + html::escaped(
            namespace,
            Place::Attribute,
        ) + "\""@ + attributes_xml(root.attributes@) + ">"@ + content + "</"@ + root.name@ + ">"@);
    }
}

/// Text is written escaped, and comments and other nodes are left out with all that lies below them. A
/// fragment is its tree, written with no namespace around it.
pub proof fn law_other_nodes_are_written(
    root: XmlRecord,
    inner: Seq<XmlRecord>,
    math_namespace: Option<Seq<char>>,
    inherited: Seq<char>,
    s: Seq<XmlRecord>,
)
    requires
        lies_below(root, inner),
        s.len() > 0,
    ensures
        root.is_text ==> (root.text matches Some(t) ==> forest_xml(
            seq![root] + inner,
            math_namespace,
            inherited,
        ) == html::escaped(t@, Place::Content)),
        root.is_text && root.text is None ==> forest_xml(
            seq![root] + inner,
            math_namespace,
            inherited,
        ) == Seq::<char>::empty(),
        !root.is_text && !root.is_element ==> forest_xml(
            seq![root] + inner,
            math_namespace,
            inherited,
        ) == Seq::<char>::empty(),
        fragment_xml(s) == forest_xml(
            first_tree(s),
            text::text_view(s.first().namespace),
            Seq::empty(),
        ),
{
    let t = seq![root] + inner;
    assert(t.first() == root);
    assert(t.drop_first() =~= inner);
    lemma_deeper_run_all(inner, root.depth);
    assert(other_trees(t).len() == 0);
    assert(forest_xml(other_trees(t), math_namespace, inherited).len() == 0);
    assert(html::escaped(Seq::empty(), Place::Content).len() == 0);
    if root.is_text {
        assert(forest_xml(t, math_namespace, inherited) =~= html::escaped(
            own_text(root),
            Place::Content,
        ));
    } else if !root.is_element {
        assert(forest_xml(t, math_namespace, inherited) =~= Seq::<char>::empty());
    }
    lemma_forest_parts(s);
    lemma_first_tree_is_a_tree(s);
    let tree = first_tree(s);
    let ns = text::text_view(s.first().namespace);
    assert(tree.first() == s.first());
    assert(other_trees(tree).len() == 0);
    assert(forest_xml(other_trees(tree), ns, Seq::empty()).len() == 0);
    assert(forest_xml(tree, ns, Seq::empty()) =~= fragment_xml(s));
}

/// An attribute is written behind the others, with its prefix if it has one and its value escaped. Its
/// prefix is declared with it exactly if it is in a namespace other than that of `xml` and no attribute
/// before it in such a namespace has the same prefix.
pub proof fn law_attributes_are_written_in_order(
    attributes: Seq<XmlAttribute>,
    a: XmlAttribute,
    declared: bool,
)
    requires
        declared <==> (a.namespace matches Some(ns) && ns@
            != "http://www.w3.org/XML/1998/namespace"@ && forall|j: int|
            #![trigger attributes[j]]
            0 <= j < attributes.len() && attributes[j].namespace is Some
                && attributes[j].namespace->0@ != "http://www.w3.org/XML/1998/namespace"@
                ==> written_prefix(attributes[j]) != written_prefix(a)),
    ensures
        attributes_xml(Seq::empty()) == Seq::<char>::empty(),
        ({
            let declaration = if declared {
                " xmlns:"@ + written_prefix(a)->0 + "=\""@ + html::escaped(
                    a.namespace->0@,
                    Place::Attribute,
                ) + "\""@
            } else {
                Seq::empty()
            };
            let prefix = match written_prefix(a) {
                Some(prefix) => prefix + ":"@,
                None => Seq::empty(),
            };
            attributes_xml(attributes.push(a)) == attributes_xml(attributes) + (declaration + " "@
                + prefix + a.name@ + "=\""@ + html::escaped(a.value@, Place::XmlAttribute) + "\""@)
        }),
{
    let more = attributes.push(a);
    assert(more.drop_last() =~= attributes);
    assert(more.last() == a);
    if needs_declaration(a) {
        let prefix = written_prefix(a)->0;
        if needs_prefix(attributes, prefix) {
            let j = choose|j: int|
                0 <= j < attributes.len() && #[trigger] needs_declaration(attributes[j])
                    && written_prefix(attributes[j]) == Some(prefix);
            assert(!declared);
        } else {
            assert forall|j: int|
                #![trigger attributes[j]]
                0 <= j < attributes.len() && attributes[j].namespace is Some
                    && attributes[j].namespace->0@
                    != "http://www.w3.org/XML/1998/namespace"@ implies written_prefix(
                attributes[j],
            ) != written_prefix(a) by {
                assert(needs_declaration(attributes[j]));
            }
        }
    }
    assert(declares(more) == declared);
}

} // verus!
