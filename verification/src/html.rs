//! Escaping of text and attribute values for HTML and XML.

use vstd::prelude::*;
use crate::text::to_chars;

verus! {

/// Where a text is written.
#[derive(Clone, Copy, PartialEq, Eq, Structural)]
pub enum Place {
    /// Text content.
    Content,
    /// A double-quoted attribute value.
    Attribute,
    /// A double-quoted attribute value of XML, where `<` may not stand either.
    XmlAttribute,
}

impl Place {
    /// How `c` is written in this place.
    pub open spec fn writes(self, c: char) -> Seq<char> {
        if c == '&' {
            "&amp;"@
        } else if c == '<' && self != Place::Attribute {
            "&lt;"@
        } else if c == '>' && self == Place::Content {
            "&gt;"@
        } else if c == '"' && self != Place::Content {
            "&quot;"@
        } else {
            seq![c]
        }
    }
}

/// `s` as it is written in `place`.
pub open spec fn escaped(s: Seq<char>, place: Place) -> Seq<char>
    decreases s.len(),
{
    if s.len() == 0 {
        Seq::empty()
    } else {
        escaped(s.drop_last(), place) + place.writes(s.last())
    }
}

/// Escapes `s` for `place`.
pub fn escape_for(s: &str, place: Place) -> (r: String)
    ensures
        r@ == escaped(s@, place),
{
    let chars = to_chars(s);
    let mut out = String::new();
    let mut i: usize = 0;
    while i < chars.len()
        invariant
            chars@ == s@,
            i <= chars.len(),
            out@ == escaped(s@.take(i as int), place),
        decreases chars.len() - i,
    {
        proof {
            assert(s@.take(i + 1).drop_last() == s@.take(i as int));
        }
        let ghost before = out@;
        let c = chars[i];
        if c == '&' {
            out.append("&amp;");
        } else if c == '<' && place != Place::Attribute {
            out.append("&lt;");
        } else if c == '>' && place == Place::Content {
            out.append("&gt;");
        } else if c == '"' && place != Place::Content {
            out.append("&quot;");
        } else {
            out.push(c);
        }
        proof {
            assert(out@ == before + place.writes(c));
        }
        i += 1;
    }
    proof {
        assert(s@.take(chars.len() as int) == s@);
    }
    out
}

/// Escapes `s` for text content.
pub fn escape(s: &str) -> (r: String)
    ensures
        r@ == escaped(s@, Place::Content),
{
    escape_for(s, Place::Content)
}

/// Escapes `s` for a double-quoted attribute value.
pub fn escape_attr(s: &str) -> (r: String)
    ensures
        r@ == escaped(s@, Place::Attribute),
{
    escape_for(s, Place::Attribute)
}

/// Reveals the characters of the entities that escaping writes.
pub proof fn reveal_entities()
    ensures
        "&amp;"@ == seq!['&', 'a', 'm', 'p', ';'],
        "&lt;"@ == seq!['&', 'l', 't', ';'],
        "&gt;"@ == seq!['&', 'g', 't', ';'],
        "&quot;"@ == seq!['&', 'q', 'u', 'o', 't', ';'],
{
    reveal_strlit("&amp;");
    reveal_strlit("&lt;");
    reveal_strlit("&gt;");
    reveal_strlit("&quot;");
    assert("&amp;"@ =~= seq!['&', 'a', 'm', 'p', ';']);
    assert("&lt;"@ =~= seq!['&', 'l', 't', ';']);
    assert("&gt;"@ =~= seq!['&', 'g', 't', ';']);
    assert("&quot;"@ =~= seq!['&', 'q', 'u', 'o', 't', ';']);
}

/// A character that would end or open markup in `place`.
pub open spec fn is_markup(c: char, place: Place) -> bool {
    match place {
        Place::Content => c == '<' || c == '>',
        Place::Attribute => c == '"',
        Place::XmlAttribute => c == '"' || c == '<',
    }
}

/// Escaped text cannot be taken for markup of the place it is written in.
pub proof fn law_escaped_text_has_no_markup(s: Seq<char>, place: Place)
    ensures
        forall|i: int|
            0 <= i < escaped(s, place).len() ==> !is_markup(#[trigger] escaped(s, place)[i], place),
    decreases s.len(),
{
    reveal_entities();
    if s.len() > 0 {
        law_escaped_text_has_no_markup(s.drop_last(), place);
        let before = escaped(s.drop_last(), place);
        let last = place.writes(s.last());
        assert forall|i: int| 0 <= i < escaped(s, place).len() implies !is_markup(
            #[trigger] escaped(s, place)[i],
            place,
        ) by {
            if i < before.len() {
                assert(escaped(s, place)[i] == before[i]);
            } else {
                assert(escaped(s, place)[i] == last[i - before.len()]);
            }
        }
    }
}

pub proof fn lemma_escaped_from_the_left(s: Seq<char>, place: Place)
    requires
        s.len() > 0,
    ensures
        escaped(s, place) == place.writes(s.first()) + escaped(s.drop_first(), place),
    decreases s.len(),
{
    let tail = s.drop_first();
    if tail.len() == 0 {
        assert(escaped(s.drop_last(), place).len() == 0);
        assert(escaped(tail, place).len() == 0);
        assert(s.last() == s.first());
        assert(escaped(s, place) =~= place.writes(s.first()) + escaped(tail, place));
    } else {
        lemma_escaped_from_the_left(s.drop_last(), place);
        assert(s.drop_last().drop_first() =~= tail.drop_last());
        assert(escaped(s, place) =~= place.writes(s.first()) + (escaped(tail.drop_last(), place)
            + place.writes(s.last())));
    }
}

/// Escaping loses nothing: different texts are written differently.
pub proof fn law_escaping_is_lossless(a: Seq<char>, b: Seq<char>, place: Place)
    requires
        escaped(a, place) == escaped(b, place),
    ensures
        a == b,
    decreases a.len(),
{
    reveal_entities();
    if a.len() > 0 {
        lemma_escaped_from_the_left(a, place);
        assert(escaped(a, place).len() > 0);
    }
    if b.len() > 0 {
        lemma_escaped_from_the_left(b, place);
        assert(escaped(b, place).len() > 0);
    }
    if a.len() > 0 && b.len() > 0 {
        let out = escaped(a, place);
        let first_a = place.writes(a.first());
        let first_b = place.writes(b.first());
        let rest_a = escaped(a.drop_first(), place);
        let rest_b = escaped(b.drop_first(), place);
        assert(out[0] == first_a[0]);
        assert(out[0] == first_b[0]);
        if first_a[0] == '&' {
            assert(first_a.len() >= 4);
            assert(first_b.len() >= 4);
            assert(out[1] == first_a[1]);
            assert(out[1] == first_b[1]);
        }
        assert(a.first() == b.first());
        assert(rest_a =~= out.skip(first_a.len() as int));
        assert(rest_b =~= out.skip(first_b.len() as int));
        law_escaping_is_lossless(a.drop_first(), b.drop_first(), place);
        assert(a =~= seq![a.first()] + a.drop_first());
        assert(b =~= seq![b.first()] + b.drop_first());
    }
}

/// Escaping works character by character.
pub proof fn law_escaping_works_on_parts(a: Seq<char>, b: Seq<char>, place: Place)
    ensures
        escaped(Seq::empty(), place) == Seq::<char>::empty(),
        escaped(a + b, place) == escaped(a, place) + escaped(b, place),
    decreases b.len(),
{
    if b.len() == 0 {
        assert(a + b =~= a);
        assert(escaped(a, place) + escaped(b, place) =~= escaped(a, place));
    } else {
        law_escaping_works_on_parts(a, b.drop_last(), place);
        assert((a + b).drop_last() =~= a + b.drop_last());
        assert((a + b).last() == b.last());
        assert(escaped(a + b, place) =~= escaped(a, place) + escaped(b, place));
    }
}

/// What each character is written as: `&` is always escaped, `<` everywhere but in a plain attribute
/// value, `>` in text content only, and the double quotation mark in attribute values only. Every other
/// character stands for itself.
pub proof fn law_each_character_is_written(c: char)
    ensures
        ({
            let content = escaped(seq![c], Place::Content);
            let value = escaped(seq![c], Place::Attribute);
            let xml_value = escaped(seq![c], Place::XmlAttribute);
            let itself = seq![c];
            &&& c == '&' ==> content == seq!['&', 'a', 'm', 'p', ';'] && value == content
                && xml_value == content
            &&& c == '<' ==> content == seq!['&', 'l', 't', ';'] && value == itself && xml_value
                == content
            &&& c == '>' ==> content == seq!['&', 'g', 't', ';'] && value == itself && xml_value
                == itself
            &&& c == '"' ==> content == itself && value == seq!['&', 'q', 'u', 'o', 't', ';']
                && xml_value == value
            &&& c != '&' && c != '<' && c != '>' && c != '"' ==> content == itself && value
                == itself && xml_value == itself
        }),
{
    reveal_entities();
    let s = seq![c];
    assert(s.drop_last().len() == 0);
    assert(s.last() == c);
    assert forall|place: Place| #[trigger] escaped(s, place) == place.writes(c) by {
        assert(escaped(s.drop_last(), place).len() == 0);
        assert(escaped(s, place) =~= place.writes(c));
    }
}

/// Each of the functions escapes for its own place.
pub proof fn law_places_of_escaping(
    s: &str,
    place: Place,
    r: String,
    content: String,
    value: String,
)
    requires
        call_ensures(escape_for, (s, place), r),
        call_ensures(escape, (s,), content),
        call_ensures(escape_attr, (s,), value),
    ensures
        r@ == escaped(s@, place),
        content@ == escaped(s@, Place::Content),
        value@ == escaped(s@, Place::Attribute),
{
}

} // verus!
