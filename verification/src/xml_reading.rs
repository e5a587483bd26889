//! What a reader of XML makes of a text: the part of XML 1.0 with namespaces that isolated fragments
//! are written in. It gives a meaning to what `xml` writes.

use vstd::prelude::*;
use crate::html;
use crate::html::Place;
use crate::text;
use crate::xml;
use crate::xml::{XmlAttribute, XmlRecord};

verus! {

/// An attribute as it is read.
pub struct ReadAttribute {
    pub namespace: Option<Seq<char>>,
    pub name: Seq<char>,
    pub value: Seq<char>,
}

/// What a reader reports, in order. Text is reported character by character.
pub enum XmlEvent {
    Start { name: Seq<char>, namespace: Seq<char>, attributes: Seq<ReadAttribute> },
    Text(Seq<char>),
    End { name: Seq<char> },
}

/// An attribute as it stands in a tag; declarations of namespaces are among them.
pub struct RawAttribute {
    pub name: Seq<char>,
    pub value: Seq<char>,
}

/// An element that is open, and the default namespace inside it.
pub struct Scope {
    pub name: Seq<char>,
    pub namespace: Seq<char>,
}

/// `t` starts with `prefix`.
pub open spec fn starts(t: Seq<char>, prefix: Seq<char>) -> bool {
    text::occurs_at(t, prefix, 0)
}

/// The character that `t` starts with, and what follows it. References to characters are expanded, and
/// the end of a line is read as a line feed.
pub open spec fn read_char(t: Seq<char>) -> Option<(char, Seq<char>)> {
    if t.len() == 0 || t[0] == '<' {
        None
    } else if t[0] == '\r' {
        Some(
            (
                '\n',
                if t.len() > 1 && t[1] == '\n' {
                    t.skip(2)
                } else {
                    t.skip(1)
                },
            ),
        )
    } else if t[0] != '&' {
        Some((t[0], t.skip(1)))
    } else if starts(t, "&amp;"@) {
        Some(('&', t.skip(5)))
    } else if starts(t, "&lt;"@) {
        Some(('<', t.skip(4)))
    } else if starts(t, "&gt;"@) {
        Some(('>', t.skip(4)))
    } else if starts(t, "&quot;"@) {
        Some(('"', t.skip(6)))
    } else {
        None
    }
}

/// White space that an attribute value holds as it is written is read as a space.
pub open spec fn is_line_space(c: char) -> bool {
    c == '\t' || c == '\n' || c == '\r'
}

/// The attribute value that `t` starts with, up to its closing quotation mark, and what follows that.
pub open spec fn read_value(t: Seq<char>) -> Option<(Seq<char>, Seq<char>)>
    decreases t.len(),
{
    if t.len() == 0 {
        None
    } else if t[0] == '"' {
        Some((Seq::empty(), t.skip(1)))
    } else {
        match read_char(t) {
            None => None,
            Some((c, rest)) => if rest.len() >= t.len() {
                None
            } else {
                match read_value(rest) {
                    None => None,
                    Some((value, after)) => Some(
                        (
                            seq![
                                if is_line_space(t[0]) {
                                    ' '
                                } else {
                                    c
                                },
                            ] + value,
                            after,
                        ),
                    ),
                }
            },
        }
    }
}

/// A character that can stand in the name of an element or attribute.
pub open spec fn is_name_char(c: char) -> bool {
    !text::is_xml_space(c) && c != '>' && c != '<' && c != '=' && c != '/' && c != '"' && c != '\''
        && c != '&'
}

/// The length of the name that `t` starts with.
pub open spec fn name_len(t: Seq<char>) -> nat
    decreases t.len(),
{
    if t.len() > 0 && is_name_char(t[0]) {
        1 + name_len(t.skip(1))
    } else {
        0
    }
}

/// The attributes that `t` starts with, up to the end of the tag, and what follows that.
pub open spec fn read_attributes(t: Seq<char>) -> Option<(Seq<RawAttribute>, Seq<char>)>
    decreases t.len(),
{
    if t.len() == 0 {
        None
    } else if t[0] == '>' {
        Some((Seq::empty(), t.skip(1)))
    } else if t[0] == ' ' {
        let named = t.skip(1);
        let n = name_len(named) as int;
        let after_name = named.skip(n);
        if n > 0 && starts(after_name, "=\""@) {
            match read_value(after_name.skip(2)) {
                None => None,
                Some((value, rest)) => if rest.len() >= t.len() {
                    None
                } else {
                    match read_attributes(rest) {
                        None => None,
                        Some((more, after)) => Some(
                            (seq![RawAttribute { name: named.take(n), value }] + more, after),
                        ),
                    }
                },
            }
        } else {
            None
        }
    } else {
        None
    }
}

/// The value of the attribute that is written `name`.
pub open spec fn lookup(raw: Seq<RawAttribute>, name: Seq<char>) -> Option<Seq<char>>
    decreases raw.len(),
{
    if raw.len() == 0 {
        None
    } else if raw.first().name == name {
        Some(raw.first().value)
    } else {
        lookup(raw.drop_first(), name)
    }
}

/// The position of the first colon of a name, or its length.
pub open spec fn colon(name: Seq<char>) -> int
    decreases name.len(),
{
    if name.len() == 0 || name[0] == ':' {
        0
    } else {
        1 + colon(name.skip(1))
    }
}

/// The attribute declares a namespace.
pub open spec fn is_declaration(name: Seq<char>) -> bool {
    name.take(colon(name)) == "xmlns"@
}

/// The attribute with its prefix resolved by the declarations of its tag.
pub open spec fn resolved(raw: Seq<RawAttribute>, attribute: RawAttribute) -> ReadAttribute {
    let at = colon(attribute.name);
    if at == attribute.name.len() {
        ReadAttribute { namespace: None, name: attribute.name, value: attribute.value }
    } else {
        let prefix = attribute.name.take(at);
        ReadAttribute {
            namespace: if prefix == "xml"@ {
                Some(xml::XML_NAMESPACE@)
            } else {
                lookup(raw, "xmlns:"@ + prefix)
            },
            name: attribute.name.skip(at + 1),
            value: attribute.value,
        }
    }
}

/// The attributes of `some`, which stand in a tag with `raw`, without the declarations of namespaces.
pub open spec fn resolved_all(raw: Seq<RawAttribute>, some: Seq<RawAttribute>) -> Seq<ReadAttribute>
    decreases some.len(),
{
    if some.len() == 0 {
        Seq::empty()
    } else if is_declaration(some.last().name) {
        resolved_all(raw, some.drop_last())
    } else {
        resolved_all(raw, some.drop_last()).push(resolved(raw, some.last()))
    }
}

/// The default namespace inside a tag.
pub open spec fn default_namespace(raw: Seq<RawAttribute>, inherited: Seq<char>) -> Seq<char> {
    match lookup(raw, "xmlns"@) {
        Some(namespace) => namespace,
        None => inherited,
    }
}

/// `events`, and then what is read after them.
pub open spec fn then_read(
    events: Seq<XmlEvent>,
    more: Option<Seq<XmlEvent>>,
) -> Option<Seq<XmlEvent>> {
    match more {
        Some(later) => Some(events + later),
        None => None,
    }
}

/// What a reader reports for `t` inside the elements that are open, the outermost of which is the
/// document. `None` if `t` is not well-formed.
pub open spec fn read(t: Seq<char>, open: Seq<Scope>) -> Option<Seq<XmlEvent>>
    decreases t.len(),
{
    if t.len() == 0 {
        if open.len() == 1 {
            Some(Seq::empty())
        } else {
            None
        }
    } else if t[0] != '<' {
        match read_char(t) {
            None => None,
            Some((c, rest)) => if rest.len() >= t.len() {
                None
            } else {
                then_read(seq![XmlEvent::Text(seq![c])], read(rest, open))
            },
        }
    } else if t.len() > 1 && t[1] == '/' {
        let n = name_len(t.skip(2)) as int;
        let name = t.skip(2).take(n);
        let after = t.skip(2).skip(n);
        if open.len() > 1 && name == open.last().name && after.len() > 0 && after[0] == '>'
            && after.len() < t.len() {
            then_read(seq![XmlEvent::End { name }], read(after.skip(1), open.drop_last()))
        } else {
            None
        }
    } else {
        let n = name_len(t.skip(1)) as int;
        let name = t.skip(1).take(n);
        match read_attributes(t.skip(1).skip(n)) {
            None => None,
            Some((raw, rest)) => if n == 0 || open.len() == 0 || rest.len() >= t.len() {
                None
            } else {
                let namespace = default_namespace(raw, open.last().namespace);
                then_read(
                    seq![
                        XmlEvent::Start { name, namespace, attributes: resolved_all(raw, raw) },
                    ],
                    read(rest, open.push(Scope { name, namespace })),
                )
            },
        }
    }
}

/// What a reader reports for the text of a document.
pub open spec fn read_document(t: Seq<char>) -> Option<Seq<XmlEvent>> {
    read(t, seq![Scope { name: Seq::empty(), namespace: Seq::empty() }])
}

/// A name without a prefix.
pub open spec fn is_local_name(name: Seq<char>) -> bool {
    &&& name.len() > 0
    &&& forall|i: int| 0 <= i < name.len() ==> is_name_char(#[trigger] name[i]) && name[i] != ':'
}

/// A text without line ends and tabs, which a reader of an attribute value would turn into spaces.
pub open spec fn is_one_line(s: Seq<char>) -> bool {
    forall|i: int| 0 <= i < s.len() ==> !is_line_space(#[trigger] s[i])
}

/// A namespace that can be declared.
pub open spec fn is_namespace(s: Seq<char>) -> bool {
    is_one_line(s) && !s.contains('<')
}

/// An attribute as a parsed document has it.
pub open spec fn is_proper_attribute(a: XmlAttribute) -> bool {
    &&& is_local_name(a.name@)
    &&& is_one_line(a.value@)
    &&& a.namespace is None ==> a.name@ != "xmlns"@
    &&& xml::needs_declaration(a) ==> {
        &&& is_namespace(a.namespace->0@)
        &&& is_local_name(xml::written_prefix(a)->0)
        &&& xml::written_prefix(a)->0 != "xml"@
        &&& xml::written_prefix(a)->0 != "xmlns"@
    }
}

/// The attributes of an element as a parsed document has them: two namespaces do not share a prefix.
pub open spec fn are_proper_attributes(attributes: Seq<XmlAttribute>) -> bool {
    &&& forall|i: int|
        0 <= i < attributes.len() ==> is_proper_attribute(#[trigger] attributes[i])
    &&& forall|i: int, j: int|
        #![trigger attributes[i], attributes[j]]
        0 <= i < attributes.len() && 0 <= j < attributes.len() && xml::needs_declaration(
            attributes[i],
        ) && xml::needs_declaration(attributes[j]) && xml::written_prefix(attributes[i])
            == xml::written_prefix(attributes[j]) ==> attributes[i].namespace->0@
            == attributes[j].namespace->0@
}

/// A record as a parsed document has it, without carriage returns in its text and line ends in its
/// attribute values. Its namespace can be declared, or need not be: `math_namespace` is never written.
pub open spec fn is_proper(record: XmlRecord, math_namespace: Option<Seq<char>>) -> bool {
    &&& record.is_text ==> !xml::own_text(record).contains('\r')
    &&& record.is_element ==> {
        &&& is_local_name(record.name@)
        &&& text::text_view(record.namespace) matches Some(ns) ==> (Some(ns) != math_namespace
            ==> is_namespace(ns))
        &&& are_proper_attributes(record.attributes@)
    }
}

/// Every record is as a parsed document has it.
pub open spec fn are_proper(s: Seq<XmlRecord>, math_namespace: Option<Seq<char>>) -> bool {
    forall|i: int| 0 <= i < s.len() ==> is_proper(#[trigger] s[i], math_namespace)
}

/// An attribute as a reader should report it.
pub open spec fn attribute_of(a: XmlAttribute) -> ReadAttribute {
    ReadAttribute { namespace: text::text_view(a.namespace), name: a.name@, value: a.value@ }
}

/// The attributes of an element as a reader should report them.
pub open spec fn attributes_of(attributes: Seq<XmlAttribute>) -> Seq<ReadAttribute>
    decreases attributes.len(),
{
    if attributes.len() == 0 {
        Seq::empty()
    } else {
        attributes_of(attributes.drop_last()).push(attribute_of(attributes.last()))
    }
}

/// The characters of a text, as a reader should report them.
pub open spec fn characters(s: Seq<char>) -> Seq<XmlEvent>
    decreases s.len(),
{
    if s.len() == 0 {
        Seq::empty()
    } else {
        seq![XmlEvent::Text(seq![s.first()])] + characters(s.drop_first())
    }
}

/// A node as a reader should report it, with `inner` for its children. Comments and other nodes are
/// left out.
pub open spec fn node_events(
    record: XmlRecord,
    math_namespace: Option<Seq<char>>,
    inner: Seq<XmlEvent>,
) -> Seq<XmlEvent> {
    if record.is_text {
        characters(xml::own_text(record))
    } else if record.is_element {
        let start = XmlEvent::Start {
            name: record.name@,
            namespace: xml::written_namespace(text::text_view(record.namespace), math_namespace),
            attributes: attributes_of(record.attributes@),
        };
        seq![start] + inner + seq![XmlEvent::End { name: record.name@ }]
    } else {
        Seq::empty()
    }
}

/// A forest as a reader should report it: every element with its local name, its attributes and its
/// content, in the MathML namespace if it is in the namespace `math_namespace` and in its own
/// otherwise.
pub open spec fn forest_events(
    s: Seq<XmlRecord>,
    math_namespace: Option<Seq<char>>,
) -> Seq<XmlEvent>
    decreases s.len(),
{
    if s.len() == 0 {
        Seq::empty()
    } else {
        proof {
            xml::lemma_forest_parts(s);
        }
        node_events(
            s.first(),
            math_namespace,
            forest_events(xml::first_inner(s), math_namespace),
        ) + forest_events(xml::other_trees(s), math_namespace)
    }
}

/// A character that a reader gets back from what is written for it in `place`.
spec fn survives(c: char, place: Place) -> bool {
    c != '\r' && (place == Place::Attribute ==> c != '<')
}

proof fn lemma_read_written_char(c: char, place: Place, rest: Seq<char>)
    requires
        survives(c, place),
    ensures
        read_char(place.writes(c) + rest) == Some((c, rest)),
        place.writes(c).len() > 0,
        (place.writes(c) + rest)[0] != '<',
        place != Place::Content ==> (place.writes(c) + rest)[0] != '"',
        !is_line_space(c) ==> !is_line_space((place.writes(c) + rest)[0]),
{
    html::reveal_entities();
    let written = place.writes(c);
    let t = written + rest;
    assert(t[0] == written[0]);
    assert(t.skip(written.len() as int) =~= rest);
    assert(t.subrange(0, written.len() as int) =~= written);
    if written[0] == '&' {
        assert(t[1] == written[1]);
        if starts(t, "&amp;"@) {
            assert(t.subrange(0, 5)[1] == 'a');
        }
        if starts(t, "&lt;"@) {
            assert(t.subrange(0, 4)[1] == 'l');
        }
        if starts(t, "&gt;"@) {
            assert(t.subrange(0, 4)[1] == 'g');
        }
        if starts(t, "&quot;"@) {
            assert(t.subrange(0, 6)[1] == 'q');
        }
    }
}

proof fn lemma_read_written_value(v: Seq<char>, place: Place, rest: Seq<char>)
    requires
        place != Place::Content,
        is_one_line(v),
        place == Place::Attribute ==> !v.contains('<'),
    ensures
        read_value(html::escaped(v, place) + seq!['"'] + rest) == Some((v, rest)),
    decreases v.len(),
{
    let t = html::escaped(v, place) + seq!['"'] + rest;
    if v.len() == 0 {
        assert(t[0] == '"');
        assert(t.skip(1) =~= rest);
    } else {
        let tail = v.drop_first();
        html::lemma_escaped_from_the_left(v, place);
        let more = html::escaped(tail, place) + seq!['"'] + rest;
        assert(t =~= place.writes(v.first()) + more);
        assert(v[0] == v.first());
        assert(v.contains(v[0]));
        lemma_read_written_char(v.first(), place, more);
        assert(is_one_line(tail)) by {
            assert forall|i: int| 0 <= i < tail.len() implies !is_line_space(#[trigger] tail[i]) by {
                assert(tail[i] == v[i + 1]);
            }
        }
        if tail.contains('<') {
            let i = choose|i: int| 0 <= i < tail.len() && tail[i] == '<';
            assert(v[i + 1] == '<');
        }
        lemma_read_written_value(tail, place, rest);
        assert(seq![v.first()] + tail =~= v);
    }
}

proof fn lemma_then_read_twice(
    a: Seq<XmlEvent>,
    b: Seq<XmlEvent>,
    more: Option<Seq<XmlEvent>>,
)
    ensures
        then_read(a, then_read(b, more)) == then_read(a + b, more),
{
    if let Some(later) = more {
        assert(a + (b + later) =~= (a + b) + later);
    }
}

proof fn lemma_read_written_text(v: Seq<char>, rest: Seq<char>, open: Seq<Scope>)
    requires
        !v.contains('\r'),
    ensures
        read(html::escaped(v, Place::Content) + rest, open) == then_read(
            characters(v),
            read(rest, open),
        ),
    decreases v.len(),
{
    let t = html::escaped(v, Place::Content) + rest;
    if v.len() == 0 {
        assert(t =~= rest);
        if let Some(later) = read(rest, open) {
            assert(characters(v) + later =~= later);
        }
    } else {
        let tail = v.drop_first();
        html::lemma_escaped_from_the_left(v, Place::Content);
        let more = html::escaped(tail, Place::Content) + rest;
        assert(t =~= Place::Content.writes(v.first()) + more);
        assert(v[0] == v.first());
        assert(v.contains(v[0]));
        lemma_read_written_char(v.first(), Place::Content, more);
        if tail.contains('\r') {
            let i = choose|i: int| 0 <= i < tail.len() && tail[i] == '\r';
            assert(v[i + 1] == '\r');
        }
        lemma_read_written_text(tail, rest, open);
        lemma_then_read_twice(
            seq![XmlEvent::Text(seq![v.first()])],
            characters(tail),
            read(rest, open),
        );
    }
}

/// A name as it stands in a tag: its prefix may be in front of it.
spec fn is_written_name(name: Seq<char>) -> bool {
    forall|i: int| 0 <= i < name.len() ==> is_name_char(#[trigger] name[i])
}

proof fn lemma_name_len(name: Seq<char>, rest: Seq<char>)
    requires
        is_written_name(name),
        rest.len() > 0,
        !is_name_char(rest[0]),
    ensures
        name_len(name + rest) == name.len(),
        (name + rest).take(name.len() as int) == name,
        (name + rest).skip(name.len() as int) == rest,
    decreases name.len(),
{
    let t = name + rest;
    assert(t.take(name.len() as int) =~= name);
    assert(t.skip(name.len() as int) =~= rest);
    if name.len() == 0 {
        assert(t[0] == rest[0]);
    } else {
        let tail = name.drop_first();
        assert(t.skip(1) =~= tail + rest);
        assert(t[0] == name[0]);
        assert forall|i: int| 0 <= i < tail.len() implies is_name_char(#[trigger] tail[i]) by {
            assert(tail[i] == name[i + 1]);
        }
        lemma_name_len(tail, rest);
    }
}

/// An attribute as it is written in a tag.
spec fn raw_xml(name: Seq<char>, value: Seq<char>, place: Place) -> Seq<char> {
    seq![' '] + name + seq!['=', '"'] + html::escaped(value, place) + seq!['"']
}

/// `raw`, and then the attributes that are read after them.
spec fn then_attributes(
    raw: Seq<RawAttribute>,
    more: Option<(Seq<RawAttribute>, Seq<char>)>,
) -> Option<(Seq<RawAttribute>, Seq<char>)> {
    match more {
        Some((later, after)) => Some((raw + later, after)),
        None => None,
    }
}

proof fn lemma_read_written_attribute(
    name: Seq<char>,
    value: Seq<char>,
    place: Place,
    rest: Seq<char>,
)
    requires
        place != Place::Content,
        name.len() > 0,
        is_written_name(name),
        is_one_line(value),
        place == Place::Attribute ==> !value.contains('<'),
    ensures
        read_attributes(raw_xml(name, value, place) + rest) == then_attributes(
            seq![RawAttribute { name, value }],
            read_attributes(rest),
        ),
{
    reveal_strlit("=\"");
    assert("=\""@ =~= seq!['=', '"']);
    let t = raw_xml(name, value, place) + rest;
    let quoted = html::escaped(value, place) + seq!['"'] + rest;
    let tail = seq!['=', '"'] + quoted;
    assert(t[0] == ' ');
    assert(t.skip(1) =~= name + tail);
    lemma_name_len(name, tail);
    assert(tail.subrange(0, 2) =~= seq!['=', '"']);
    assert(tail.skip(2) =~= quoted);
    lemma_read_written_value(value, place, rest);
    assert(t.len() > rest.len());
}

proof fn reveal_markup()
    ensures
        "xmlns"@ == seq!['x', 'm', 'l', 'n', 's'],
        "xmlns:"@ == seq!['x', 'm', 'l', 'n', 's', ':'],
        " xmlns:"@ == seq![' ', 'x', 'm', 'l', 'n', 's', ':'],
        " xmlns=\""@ == seq![' ', 'x', 'm', 'l', 'n', 's', '=', '"'],
        "xml"@ == seq!['x', 'm', 'l'],
        "=\""@ == seq!['=', '"'],
        "\""@ == seq!['"'],
        ":"@ == seq![':'],
        " "@ == seq![' '],
        "<"@ == seq!['<'],
        "</"@ == seq!['<', '/'],
        ">"@ == seq!['>'],
{
    reveal_strlit("xmlns");
    reveal_strlit("xmlns:");
    reveal_strlit(" xmlns:");
    reveal_strlit(" xmlns=\"");
    reveal_strlit("xml");
    reveal_strlit("=\"");
    reveal_strlit("\"");
    reveal_strlit(":");
    reveal_strlit(" ");
    reveal_strlit("<");
    reveal_strlit("</");
    reveal_strlit(">");
    assert("xmlns"@ =~= seq!['x', 'm', 'l', 'n', 's']);
    assert("xmlns:"@ =~= seq!['x', 'm', 'l', 'n', 's', ':']);
    assert(" xmlns:"@ =~= seq![' ', 'x', 'm', 'l', 'n', 's', ':']);
    assert(" xmlns=\""@ =~= seq![' ', 'x', 'm', 'l', 'n', 's', '=', '"']);
    assert("xml"@ =~= seq!['x', 'm', 'l']);
    assert("=\""@ =~= seq!['=', '"']);
    assert("\""@ =~= seq!['"']);
    assert(":"@ =~= seq![':']);
    assert(" "@ =~= seq![' ']);
    assert("<"@ =~= seq!['<']);
    assert("</"@ =~= seq!['<', '/']);
    assert(">"@ =~= seq!['>']);
}

/// The name of an attribute as it is written.
spec fn written_name(a: XmlAttribute) -> Seq<char> {
    match xml::written_prefix(a) {
        Some(prefix) => prefix + seq![':'] + a.name@,
        None => a.name@,
    }
}

/// The declaration of the prefix of an attribute.
spec fn declaration(a: XmlAttribute) -> RawAttribute {
    RawAttribute { name: "xmlns:"@ + xml::written_prefix(a)->0, value: a.namespace->0@ }
}

/// What is written for the last of `attributes`.
spec fn raw_last(attributes: Seq<XmlAttribute>) -> Seq<RawAttribute> {
    let a = attributes.last();
    let raw = RawAttribute { name: written_name(a), value: a.value@ };
    if xml::declares(attributes) {
        seq![declaration(a), raw]
    } else {
        seq![raw]
    }
}

/// What is written for `attributes`.
spec fn raw_all(attributes: Seq<XmlAttribute>) -> Seq<RawAttribute>
    decreases attributes.len(),
{
    if attributes.len() == 0 {
        Seq::empty()
    } else {
        raw_all(attributes.drop_last()) + raw_last(attributes)
    }
}

proof fn lemma_written_names(a: XmlAttribute)
    requires
        is_proper_attribute(a),
    ensures
        written_name(a).len() > 0,
        is_written_name(written_name(a)),
        xml::needs_declaration(a) ==> is_written_name(declaration(a).name),
{
    reveal_markup();
    let name = written_name(a);
    assert forall|i: int| 0 <= i < name.len() implies is_name_char(#[trigger] name[i]) by {
        if let Some(prefix) = xml::written_prefix(a) {
            if i < prefix.len() {
                assert(name[i] == prefix[i]);
            } else if i > prefix.len() {
                assert(name[i] == a.name@[i - prefix.len() - 1]);
            }
        }
    }
    if xml::needs_declaration(a) {
        let declared = declaration(a).name;
        let prefix = xml::written_prefix(a)->0;
        assert forall|i: int| 0 <= i < declared.len() implies is_name_char(
            #[trigger] declared[i],
        ) by {
            if i >= 6 {
                assert(declared[i] == prefix[i - 6]);
            }
        }
    }
}

proof fn lemma_then_attributes_twice(
    a: Seq<RawAttribute>,
    b: Seq<RawAttribute>,
    more: Option<(Seq<RawAttribute>, Seq<char>)>,
)
    ensures
        then_attributes(a, then_attributes(b, more)) == then_attributes(a + b, more),
{
    if let Some((later, after)) = more {
        assert(a + (b + later) =~= (a + b) + later);
    }
}

proof fn lemma_read_last_attribute(attributes: Seq<XmlAttribute>, rest: Seq<char>)
    requires
        attributes.len() > 0,
        is_proper_attribute(attributes.last()),
    ensures
        read_attributes(xml::attribute_xml(attributes) + rest) == then_attributes(
            raw_last(attributes),
            read_attributes(rest),
        ),
{
    reveal_markup();
    let a = attributes.last();
    lemma_written_names(a);
    let own = raw_xml(written_name(a), a.value@, Place::XmlAttribute);
    lemma_read_written_attribute(written_name(a), a.value@, Place::XmlAttribute, rest);
    let raw = RawAttribute { name: written_name(a), value: a.value@ };
    if xml::declares(attributes) {
        let d = declaration(a);
        let declared = raw_xml(d.name, d.value, Place::Attribute);
        assert(xml::attribute_xml(attributes) =~= declared + own);
        assert(xml::attribute_xml(attributes) + rest =~= declared + (own + rest));
        lemma_read_written_attribute(d.name, d.value, Place::Attribute, own + rest);
        lemma_then_attributes_twice(seq![d], seq![raw], read_attributes(rest));
        assert(seq![d] + seq![raw] =~= seq![d, raw]);
    } else {
        assert(xml::attribute_xml(attributes) =~= own);
    }
}

proof fn lemma_read_written_attributes(attributes: Seq<XmlAttribute>, rest: Seq<char>)
    requires
        forall|i: int|
            0 <= i < attributes.len() ==> is_proper_attribute(#[trigger] attributes[i]),
    ensures
        read_attributes(xml::attributes_xml(attributes) + rest) == then_attributes(
            raw_all(attributes),
            read_attributes(rest),
        ),
    decreases attributes.len(),
{
    if attributes.len() == 0 {
        assert(xml::attributes_xml(attributes) + rest =~= rest);
        if let Some((later, after)) = read_attributes(rest) {
            assert(raw_all(attributes) + later =~= later);
        }
    } else {
        let before = attributes.drop_last();
        let more = xml::attribute_xml(attributes) + rest;
        assert(attributes[attributes.len() - 1] == attributes.last());
        assert forall|i: int| 0 <= i < before.len() implies is_proper_attribute(
            #[trigger] before[i],
        ) by {
            assert(before[i] == attributes[i]);
        }
        lemma_read_written_attributes(before, more);
        lemma_read_last_attribute(attributes, rest);
        assert(xml::attributes_xml(attributes) + rest =~= xml::attributes_xml(before) + more);
        lemma_then_attributes_twice(raw_all(before), raw_last(attributes), read_attributes(rest));
    }
}

proof fn lemma_colon(prefix: Seq<char>, rest: Seq<char>)
    requires
        forall|i: int| 0 <= i < prefix.len() ==> #[trigger] prefix[i] != ':',
        rest.len() > 0 ==> rest[0] == ':',
    ensures
        colon(prefix + rest) == prefix.len(),
    decreases prefix.len(),
{
    let t = prefix + rest;
    if prefix.len() == 0 {
        assert(t =~= rest);
    } else {
        assert(t[0] == prefix[0]);
        assert(t.skip(1) =~= prefix.drop_first() + rest);
        assert forall|i: int| 0 <= i < prefix.drop_first().len() implies #[trigger] prefix.drop_first()[i]
            != ':' by {
            assert(prefix.drop_first()[i] == prefix[i + 1]);
        }
        lemma_colon(prefix.drop_first(), rest);
    }
}

/// Every attribute of `raw` that is written `name` has the value `value`, and there is one.
proof fn lemma_lookup(raw: Seq<RawAttribute>, name: Seq<char>, value: Seq<char>, at: int)
    requires
        0 <= at < raw.len(),
        raw[at].name == name,
        forall|i: int|
            0 <= i < raw.len() && (#[trigger] raw[i]).name == name ==> raw[i].value == value,
    ensures
        lookup(raw, name) == Some(value),
    decreases raw.len(),
{
    if raw.first().name == name {
        assert(raw[0].name == name);
    } else {
        let rest = raw.drop_first();
        assert(raw[0] == raw.first());
        assert forall|i: int| 0 <= i < rest.len() && (#[trigger] rest[i]).name == name implies rest[i].value
            == value by {
            assert(rest[i] == raw[i + 1]);
        }
        assert(rest[at - 1] == raw[at]);
        lemma_lookup(rest, name, value, at - 1);
    }
}

proof fn lemma_lookup_nothing(raw: Seq<RawAttribute>, name: Seq<char>)
    requires
        forall|i: int| 0 <= i < raw.len() ==> (#[trigger] raw[i]).name != name,
    ensures
        lookup(raw, name) is None,
    decreases raw.len(),
{
    if raw.len() > 0 {
        let rest = raw.drop_first();
        assert(raw[0] == raw.first());
        assert forall|i: int| 0 <= i < rest.len() implies (#[trigger] rest[i]).name != name by {
            assert(rest[i] == raw[i + 1]);
        }
        lemma_lookup_nothing(rest, name);
    }
}

/// The attribute itself, as it is written.
spec fn raw_own(a: XmlAttribute) -> RawAttribute {
    RawAttribute { name: written_name(a), value: a.value@ }
}

/// `raw` is written for `a`.
spec fn stands_for(raw: RawAttribute, a: XmlAttribute) -> bool {
    raw == raw_own(a) || (xml::needs_declaration(a) && raw == declaration(a))
}

/// `raw` is written for one of `attributes`.
spec fn stands_for_one(raw: RawAttribute, attributes: Seq<XmlAttribute>) -> bool {
    exists|i: int| 0 <= i < attributes.len() && #[trigger] stands_for(raw, attributes[i])
}

proof fn lemma_raw_sources(attributes: Seq<XmlAttribute>)
    ensures
        forall|k: int|
            0 <= k < raw_all(attributes).len() ==> stands_for_one(
                #[trigger] raw_all(attributes)[k],
                attributes,
            ),
    decreases attributes.len(),
{
    if attributes.len() > 0 {
        let before = attributes.drop_last();
        lemma_raw_sources(before);
        let all = raw_all(attributes);
        let earlier = raw_all(before);
        assert forall|k: int| 0 <= k < all.len() implies stands_for_one(
            #[trigger] all[k],
            attributes,
        ) by {
            if k < earlier.len() {
                assert(all[k] == earlier[k]);
                let i = choose|i: int|
                    0 <= i < before.len() && #[trigger] stands_for(earlier[k], before[i]);
                assert(stands_for(all[k], attributes[i]));
            } else {
                assert(all[k] == raw_last(attributes)[k - earlier.len()]);
                assert(stands_for(all[k], attributes[attributes.len() - 1]));
            }
        }
    }
}

proof fn lemma_declaration_is_written(attributes: Seq<XmlAttribute>, i: int) -> (k: int)
    requires
        0 <= i < attributes.len(),
        xml::declares(attributes.take(i + 1)),
    ensures
        0 <= k < raw_all(attributes).len(),
        raw_all(attributes)[k] == declaration(attributes[i]),
    decreases attributes.len(),
{
    let before = attributes.drop_last();
    let earlier = raw_all(before);
    if i == attributes.len() - 1 {
        assert(attributes.take(i + 1) =~= attributes);
        assert(raw_all(attributes)[earlier.len() as int] == raw_last(attributes)[0]);
        earlier.len() as int
    } else {
        assert(before.take(i + 1) =~= attributes.take(i + 1));
        let k = lemma_declaration_is_written(before, i);
        assert(raw_all(attributes)[k] == earlier[k]);
        k
    }
}

proof fn lemma_own_name(a: XmlAttribute)
    requires
        is_proper_attribute(a),
    ensures
        !is_declaration(written_name(a)),
        colon(written_name(a)) == (match xml::written_prefix(a) {
            Some(prefix) => prefix.len(),
            None => a.name@.len(),
        }),
        xml::written_prefix(a) matches Some(prefix) ==> {
            &&& written_name(a).take(prefix.len() as int) == prefix
            &&& written_name(a).skip(prefix.len() as int + 1) == a.name@
        },
{
    reveal_markup();
    let name = written_name(a);
    match xml::written_prefix(a) {
        Some(prefix) => {
            lemma_colon(prefix, seq![':'] + a.name@);
            assert(prefix + (seq![':'] + a.name@) =~= name);
            assert(name.take(prefix.len() as int) =~= prefix);
            assert(name.skip(prefix.len() as int + 1) =~= a.name@);
            if !xml::needs_declaration(a) {
                assert(prefix == "xml"@);
                assert("xml"@.len() != "xmlns"@.len());
            }
        },
        None => {
            lemma_colon(name, Seq::empty());
            assert(name + Seq::<char>::empty() =~= name);
            assert(name.take(name.len() as int) =~= name);
        },
    }
}

proof fn lemma_declaration_name(a: XmlAttribute)
    ensures
        is_declaration(declaration(a).name),
        is_declaration("xmlns"@),
        declaration(a).name != "xmlns"@,
{
    reveal_markup();
    let name = declaration(a).name;
    let prefix = xml::written_prefix(a)->0;
    lemma_colon("xmlns"@, seq![':'] + prefix);
    assert("xmlns"@ + (seq![':'] + prefix) =~= name);
    assert(name.take(5) =~= "xmlns"@);
    lemma_colon("xmlns"@, Seq::empty());
    assert("xmlns"@ + Seq::<char>::empty() =~= "xmlns"@);
    assert("xmlns"@.take(5) =~= "xmlns"@);
    assert(name.len() != 5);
}

/// The declaration of the default namespace, if there is one, in front of `attributes`.
spec fn raw_tag(namespace: Seq<char>, declared: bool, attributes: Seq<XmlAttribute>) -> Seq<
    RawAttribute,
> {
    if declared {
        seq![RawAttribute { name: "xmlns"@, value: namespace }] + raw_all(attributes)
    } else {
        raw_all(attributes)
    }
}

proof fn lemma_prefix_is_found(
    namespace: Seq<char>,
    declared: bool,
    attributes: Seq<XmlAttribute>,
    i: int,
)
    requires
        are_proper_attributes(attributes),
        0 <= i < attributes.len(),
        xml::needs_declaration(attributes[i]),
    ensures
        lookup(raw_tag(namespace, declared, attributes), declaration(attributes[i]).name) == Some(
            attributes[i].namespace->0@,
        ),
{
    let raw = raw_tag(namespace, declared, attributes);
    let all = raw_all(attributes);
    let shift: int = if declared {
        1
    } else {
        0
    };
    let name = declaration(attributes[i]).name;
    let value = attributes[i].namespace->0@;
    lemma_raw_sources(attributes);
    lemma_declaration_name(attributes[i]);
    xml::law_needed_prefix_is_declared(attributes, i);
    let j = choose|j: int|
        0 <= j <= i && xml::written_prefix(attributes[j]) == xml::written_prefix(attributes[i])
            && #[trigger] xml::declares(attributes.take(j + 1));
    assert(attributes.take(j + 1).last() == attributes[j]);
    let k = lemma_declaration_is_written(attributes, j);
    assert(raw[k + shift] == all[k]);
    assert forall|m: int| 0 <= m < raw.len() && (#[trigger] raw[m]).name == name implies raw[m].value
        == value by {
        if m >= shift {
            assert(raw[m] == all[m - shift]);
            let h = choose|h: int|
                0 <= h < attributes.len() && #[trigger] stands_for(all[m - shift], attributes[h]);
            assert(is_proper_attribute(attributes[h]));
            lemma_own_name(attributes[h]);
            if raw[m] != raw_own(attributes[h]) {
                let p = xml::written_prefix(attributes[i])->0;
                let q = xml::written_prefix(attributes[h])->0;
                assert(name.skip("xmlns:"@.len() as int) =~= p);
                assert(raw[m].name.skip("xmlns:"@.len() as int) =~= q);
                assert(xml::written_prefix(attributes[h]) == xml::written_prefix(attributes[i]));
            }
        }
    }
    lemma_lookup(raw, name, value, k + shift);
}

proof fn lemma_default_is_found(
    namespace: Seq<char>,
    inherited: Seq<char>,
    attributes: Seq<XmlAttribute>,
)
    requires
        are_proper_attributes(attributes),
    ensures
        default_namespace(
            raw_tag(namespace, namespace != inherited, attributes),
            inherited,
        ) == namespace,
{
    let raw = raw_tag(namespace, namespace != inherited, attributes);
    let all = raw_all(attributes);
    if namespace != inherited {
        assert(raw.first().name == "xmlns"@);
    } else {
        lemma_raw_sources(attributes);
        assert forall|m: int| 0 <= m < raw.len() implies (#[trigger] raw[m]).name != "xmlns"@ by {
            assert(raw[m] == all[m]);
            let h = choose|h: int|
                0 <= h < attributes.len() && #[trigger] stands_for(all[m], attributes[h]);
            assert(is_proper_attribute(attributes[h]));
            lemma_own_name(attributes[h]);
            lemma_declaration_name(attributes[h]);
        }
        lemma_lookup_nothing(raw, "xmlns"@);
    }
}

proof fn lemma_resolved_own(raw: Seq<RawAttribute>, a: XmlAttribute)
    requires
        is_proper_attribute(a),
        xml::needs_declaration(a) ==> lookup(raw, declaration(a).name) == Some(
            a.namespace->0@,
        ),
    ensures
        resolved(raw, raw_own(a)) == attribute_of(a),
{
    reveal_markup();
    lemma_own_name(a);
    if let Some(prefix) = xml::written_prefix(a) {
        assert(written_name(a).len() == prefix.len() + 1 + a.name@.len());
    }
}

proof fn lemma_resolved_all(
    raw: Seq<RawAttribute>,
    head: Seq<RawAttribute>,
    attributes: Seq<XmlAttribute>,
)
    requires
        forall|i: int|
            0 <= i < attributes.len() ==> is_proper_attribute(#[trigger] attributes[i]),
        forall|i: int|
            0 <= i < attributes.len() && xml::needs_declaration(#[trigger] attributes[i])
                ==> lookup(raw, declaration(attributes[i]).name) == Some(
                attributes[i].namespace->0@,
            ),
        resolved_all(raw, head).len() == 0,
    ensures
        resolved_all(raw, head + raw_all(attributes)) == attributes_of(attributes),
    decreases attributes.len(),
{
    if attributes.len() == 0 {
        assert(head + raw_all(attributes) =~= head);
        assert(resolved_all(raw, head) =~= Seq::empty());
    } else {
        let before = attributes.drop_last();
        let a = attributes.last();
        assert(attributes[attributes.len() - 1] == a);
        assert forall|i: int| 0 <= i < before.len() implies before[i] == #[trigger] attributes[i] by {}
        assert forall|i: int| 0 <= i < before.len() implies is_proper_attribute(
            #[trigger] before[i],
        ) by {
            assert(before[i] == attributes[i]);
        }
        assert forall|i: int| 0 <= i < before.len() && xml::needs_declaration(
            #[trigger] before[i],
        ) implies lookup(raw, declaration(before[i]).name) == Some(before[i].namespace->0@) by {
            assert(before[i] == attributes[i]);
        }
        lemma_resolved_all(raw, head, before);
        let base = head + raw_all(before);
        lemma_own_name(a);
        lemma_resolved_own(raw, a);
        let whole = head + raw_all(attributes);
        if xml::declares(attributes) {
            lemma_declaration_name(a);
            let with_declaration = base.push(declaration(a));
            assert(whole =~= with_declaration.push(raw_own(a)));
            assert(whole.drop_last() =~= with_declaration);
            assert(with_declaration.drop_last() =~= base);
            assert(with_declaration.last() == declaration(a));
            assert(resolved_all(raw, with_declaration) == resolved_all(raw, base));
        } else {
            assert(whole =~= base.push(raw_own(a)));
            assert(whole.drop_last() =~= base);
        }
        assert(whole.last() == raw_own(a));
        assert(resolved_all(raw, whole) == resolved_all(raw, base).push(resolved(raw, raw_own(a))));
    }
}

proof fn lemma_attributes_start_with_space(attributes: Seq<XmlAttribute>)
    ensures
        attributes.len() == 0 ==> xml::attributes_xml(attributes).len() == 0,
        attributes.len() > 0 ==> xml::attributes_xml(attributes).len() > 0
            && xml::attributes_xml(attributes)[0] == ' ',
    decreases attributes.len(),
{
    reveal_markup();
    if attributes.len() > 0 {
        let before = attributes.drop_last();
        lemma_attributes_start_with_space(before);
        assert(xml::attribute_xml(attributes)[0] == ' ');
        if before.len() == 0 {
            assert(xml::attributes_xml(attributes) =~= xml::attribute_xml(attributes));
        } else {
            assert(xml::attributes_xml(attributes)[0] == xml::attributes_xml(before)[0]);
        }
    }
}

/// What a start tag is read as.
spec fn start_event(record: XmlRecord, namespace: Seq<char>) -> XmlEvent {
    XmlEvent::Start {
        name: record.name@,
        namespace,
        attributes: attributes_of(record.attributes@),
    }
}

proof fn lemma_read_start_attributes(
    namespace: Seq<char>,
    inherited: Seq<char>,
    attributes: Seq<XmlAttribute>,
    rest: Seq<char>,
) -> (tail: Seq<char>)
    requires
        are_proper_attributes(attributes),
        is_namespace(namespace),
    ensures
        tail == (if namespace == inherited {
            Seq::empty()
        } else {
            raw_xml("xmlns"@, namespace, Place::Attribute)
        }) + (xml::attributes_xml(attributes) + (seq!['>'] + rest)),
        tail.len() > rest.len(),
        tail[0] == ' ' || tail[0] == '>',
        read_attributes(tail) == Some(
            (raw_tag(namespace, namespace != inherited, attributes), rest),
        ),
{
    reveal_markup();
    let closing = seq!['>'] + rest;
    assert(closing.skip(1) =~= rest);
    assert(read_attributes(closing) == Some((Seq::<RawAttribute>::empty(), rest)));
    let written = xml::attributes_xml(attributes) + closing;
    lemma_attributes_start_with_space(attributes);
    lemma_read_written_attributes(attributes, closing);
    assert(raw_all(attributes) + Seq::<RawAttribute>::empty() =~= raw_all(attributes));
    assert(read_attributes(written) == Some((raw_all(attributes), rest)));
    assert(written[0] == ' ' || written[0] == '>') by {
        if attributes.len() == 0 {
            assert(written =~= closing);
        }
    }
    if namespace == inherited {
        assert(Seq::<char>::empty() + written =~= written);
        written
    } else {
        let declared = raw_xml("xmlns"@, namespace, Place::Attribute);
        assert(is_written_name("xmlns"@));
        lemma_read_written_attribute("xmlns"@, namespace, Place::Attribute, written);
        assert((declared + written)[0] == ' ');
        declared + written
    }
}

proof fn lemma_read_start(
    record: XmlRecord,
    namespace: Seq<char>,
    inherited: Seq<char>,
    rest: Seq<char>,
    open: Seq<Scope>,
)
    requires
        is_local_name(record.name@),
        are_proper_attributes(record.attributes@),
        is_namespace(namespace),
        open.len() > 0,
        open.last().namespace == inherited,
    ensures
        read(xml::start_tag_xml(record, namespace, inherited) + rest, open) == then_read(
            seq![start_event(record, namespace)],
            read(rest, open.push(Scope { name: record.name@, namespace })),
        ),
{
    reveal_markup();
    let name = record.name@;
    let attributes = record.attributes@;
    let t = xml::start_tag_xml(record, namespace, inherited) + rest;
    let tail = lemma_read_start_attributes(namespace, inherited, attributes, rest);
    assert(t =~= seq!['<'] + (name + tail)) by {
        if namespace != inherited {
            assert(raw_xml("xmlns"@, namespace, Place::Attribute) =~= " xmlns=\""@ + html::escaped(
                namespace,
                Place::Attribute,
            ) + "\""@);
        }
    }
    assert(t.skip(1) =~= name + tail);
    assert(t[0] == '<');
    assert(t[1] == name[0]);
    assert(is_name_char(name[0]));
    lemma_name_len(name, tail);
    let raw = raw_tag(namespace, namespace != inherited, attributes);
    lemma_default_is_found(namespace, inherited, attributes);
    let head = if namespace != inherited {
        seq![RawAttribute { name: "xmlns"@, value: namespace }]
    } else {
        Seq::empty()
    };
    assert(raw =~= head + raw_all(attributes));
    assert forall|i: int| 0 <= i < attributes.len() && xml::needs_declaration(
        #[trigger] attributes[i],
    ) implies lookup(raw, declaration(attributes[i]).name) == Some(
        attributes[i].namespace->0@,
    ) by {
        lemma_prefix_is_found(namespace, namespace != inherited, attributes, i);
    }
    assert(resolved_all(raw, head).len() == 0) by {
        if namespace != inherited {
            if attributes.len() > 0 {
                lemma_declaration_name(attributes[0]);
            }
            lemma_colon("xmlns"@, Seq::empty());
            assert("xmlns"@ + Seq::<char>::empty() =~= "xmlns"@);
            assert("xmlns"@.take(5) =~= "xmlns"@);
            assert(head.last().name == "xmlns"@);
            assert(resolved_all(raw, head.drop_last()).len() == 0);
        }
    }
    lemma_resolved_all(raw, head, attributes);
}

proof fn lemma_read_end(record: XmlRecord, rest: Seq<char>, open: Seq<Scope>)
    requires
        is_local_name(record.name@),
        open.len() > 1,
        open.last().name == record.name@,
    ensures
        read(xml::end_tag_xml(record) + rest, open) == then_read(
            seq![XmlEvent::End { name: record.name@ }],
            read(rest, open.drop_last()),
        ),
{
    reveal_markup();
    let name = record.name@;
    let t = xml::end_tag_xml(record) + rest;
    let tail = seq!['>'] + rest;
    assert(t =~= seq!['<', '/'] + (name + tail));
    assert(t.skip(2) =~= name + tail);
    assert(t[0] == '<' && t[1] == '/');
    lemma_name_len(name, tail);
    assert(tail.skip(1) =~= rest);
}

proof fn lemma_written_namespace(record: XmlRecord, math_namespace: Option<Seq<char>>)
    requires
        is_proper(record, math_namespace),
        record.is_element,
    ensures
        is_namespace(
            xml::written_namespace(text::text_view(record.namespace), math_namespace),
        ),
{
    reveal_strlit("http://www.w3.org/1998/Math/MathML");
    let ns = xml::MATHML_NAMESPACE@;
    assert(is_one_line(ns));
    assert(!ns.contains('<'));
}

proof fn lemma_read_forest(
    s: Seq<XmlRecord>,
    math_namespace: Option<Seq<char>>,
    inherited: Seq<char>,
    rest: Seq<char>,
    open: Seq<Scope>,
)
    requires
        are_proper(s, math_namespace),
        open.len() > 0,
        open.last().namespace == inherited,
    ensures
        read(xml::forest_xml(s, math_namespace, inherited) + rest, open) == then_read(
            forest_events(s, math_namespace),
            read(rest, open),
        ),
    decreases s.len(), 1int,
{
    if s.len() == 0 {
        assert(xml::forest_xml(s, math_namespace, inherited) + rest =~= rest);
        if let Some(later) = read(rest, open) {
            assert(forest_events(s, math_namespace) + later =~= later);
        }
    } else {
        xml::lemma_forest_parts(s);
        let inner = xml::first_inner(s);
        let others = xml::other_trees(s);
        assert forall|i: int| 0 <= i < inner.len() implies is_proper(
            #[trigger] inner[i],
            math_namespace,
        ) by {
            assert(inner[i] == s[i + 1]);
        }
        assert forall|i: int| 0 <= i < others.len() implies is_proper(
            #[trigger] others[i],
            math_namespace,
        ) by {
            assert(others[i] == s[i + xml::first_tree_len(s)]);
        }
        let record = s.first();
        assert(s[0] == record);
        let namespace = xml::written_namespace(text::text_view(record.namespace), math_namespace);
        let later_xml = xml::forest_xml(others, math_namespace, inherited);
        let more = later_xml + rest;
        let inner_xml = xml::forest_xml(inner, math_namespace, namespace);
        let tree = xml::tree_xml(record, math_namespace, inherited, inner_xml);
        lemma_read_forest(others, math_namespace, inherited, rest, open);
        lemma_read_tree(s, math_namespace, inherited, more, open);
        assert(xml::forest_xml(s, math_namespace, inherited) + rest =~= tree + more);
        lemma_then_read_twice(
            node_events(record, math_namespace, forest_events(inner, math_namespace)),
            forest_events(others, math_namespace),
            read(rest, open),
        );
    }
}

proof fn lemma_read_tree(
    s: Seq<XmlRecord>,
    math_namespace: Option<Seq<char>>,
    inherited: Seq<char>,
    rest: Seq<char>,
    open: Seq<Scope>,
)
    requires
        s.len() > 0,
        is_proper(s.first(), math_namespace),
        are_proper(xml::first_inner(s), math_namespace),
        open.len() > 0,
        open.last().namespace == inherited,
    ensures
        ({
            let record = s.first();
            let inner = xml::first_inner(s);
            let namespace = xml::written_namespace(
                text::text_view(record.namespace),
                math_namespace,
            );
            read(
                xml::tree_xml(
                    record,
                    math_namespace,
                    inherited,
                    xml::forest_xml(inner, math_namespace, namespace),
                ) + rest,
                open,
            ) == then_read(
                node_events(record, math_namespace, forest_events(inner, math_namespace)),
                read(rest, open),
            )
        }),
    decreases s.len(), 0int,
{
    xml::lemma_forest_parts(s);
    let record = s.first();
    let inner = xml::first_inner(s);
    let namespace = xml::written_namespace(text::text_view(record.namespace), math_namespace);
    let inner_xml = xml::forest_xml(inner, math_namespace, namespace);
    let tree = xml::tree_xml(record, math_namespace, inherited, inner_xml);
    if record.is_text {
        lemma_read_written_text(xml::own_text(record), rest, open);
    } else if record.is_element {
        lemma_written_namespace(record, math_namespace);
        let inside = open.push(Scope { name: record.name@, namespace });
        assert(inside.drop_last() =~= open);
        let ending = xml::end_tag_xml(record) + rest;
        lemma_read_end(record, rest, inside);
        lemma_read_forest(inner, math_namespace, namespace, ending, inside);
        lemma_read_start(record, namespace, inherited, inner_xml + ending, open);
        assert(tree + rest =~= xml::start_tag_xml(record, namespace, inherited) + (inner_xml
            + ending));
        let start = seq![start_event(record, namespace)];
        let end = seq![XmlEvent::End { name: record.name@ }];
        let content = forest_events(inner, math_namespace);
        lemma_then_read_twice(content, end, read(rest, open));
        lemma_then_read_twice(start, content + end, read(rest, open));
        assert(start + (content + end) =~= start + content + end);
    } else {
        assert(tree + rest =~= rest);
        if let Some(later) = read(rest, open) {
            assert(Seq::<XmlEvent>::empty() + later =~= later);
        }
    }
}

/// Reading the fragment of an element gives the element back: the same elements by local name, with
/// the same attributes and the same text between them, in the same order. The elements of the root's
/// own namespace are in the MathML namespace; all others keep theirs. Comments are left out.
pub proof fn law_fragment_reads_back(s: Seq<XmlRecord>)
    requires
        s.len() > 0,
        s.first().is_element,
        !s.first().is_text,
        are_proper(xml::first_tree(s), text::text_view(s.first().namespace)),
    ensures
        read_document(xml::fragment_xml(s)) == Some(
            node_events(
                s.first(),
                text::text_view(s.first().namespace),
                forest_events(xml::first_inner(s), text::text_view(s.first().namespace)),
            ),
        ),
{
    xml::lemma_forest_parts(s);
    let tree = xml::first_tree(s);
    let inner = xml::first_inner(s);
    let math_namespace = text::text_view(s.first().namespace);
    assert(tree[0] == s.first());
    assert forall|i: int| 0 <= i < inner.len() implies is_proper(
            #[trigger] inner[i],
            math_namespace,
        ) by {
        assert(inner[i] == tree[i + 1]);
    }
    let document = seq![Scope { name: Seq::empty(), namespace: Seq::empty() }];
    lemma_read_tree(s, math_namespace, Seq::empty(), Seq::empty(), document);
    assert(xml::fragment_xml(s) + Seq::<char>::empty() =~= xml::fragment_xml(s));
    let events = node_events(s.first(), math_namespace, forest_events(inner, math_namespace));
    assert(read(Seq::empty(), document) == Some(Seq::<XmlEvent>::empty()));
    assert(events + Seq::<XmlEvent>::empty() =~= events);
}

} // verus!
