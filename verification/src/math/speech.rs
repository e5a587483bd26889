//! Speech for MathML, and the clean-up of MathML fragments for display.

use vstd::prelude::*;
use vstd::hash_map::StringHashMap;
use vstd::utf8;
use crate::math::asciimath;
use crate::math::asciimath::render_answer;
use crate::math::fallback;
use crate::math::mathcat;
use crate::math::mathcat::Engine;
use crate::text;
use crate::text::{collapse_whitespace, from_chars, is_xml_whitespace, replace_all, to_chars};

verus! {

/// `spoken` is the readable form of an answer that MathCAT gave for `mathml`.
pub open spec fn speaks(mathml: Seq<char>, spoken: Option<Seq<char>>) -> bool {
    exists|answer: Option<Seq<char>>| #[trigger]
        mathcat::speech_answer(mathml, answer) && spoken == asciimath::rendering(answer)
}

/// `spoken` was spoken for an expression that differs from `key` in white space at most.
pub open spec fn speaks_key(key: Seq<char>, spoken: Option<Seq<char>>) -> bool {
    exists|mathml: Seq<char>| text::collapsed(mathml) == key && #[trigger] speaks(mathml, spoken)
}

/// MathCAT with its speech rules loaded on a thread.
pub struct SpeechEngine {
    engine: Engine,
}

impl SpeechEngine {
    /// An engine exists only where the rules were loaded.
    #[verifier::type_invariant]
    spec fn is_loaded(self) -> bool {
        self.engine@.rules == Some("Rules"@)
    }

    /// Loads the embedded rules on the current thread; `None` when they cannot be loaded.
    pub fn load() -> (r: Option<SpeechEngine>)
        ensures
            mathcat::rules_answer("Rules"@, r is Some),
    {
        let mut engine = Engine::new();
        if engine.load_rules("Rules") {
            Some(SpeechEngine { engine })
        } else {
            None
        }
    }
}

/// Spoken renderings by expression. Math books repeat expressions heavily, and white space between
/// tags is insignificant, so expressions that differ only in indentation share an entry.
pub struct SpeechCache {
    entries: StringHashMap<Option<String>>,
}

impl View for SpeechCache {
    type V = Map<Seq<char>, Option<Seq<char>>>;

    closed spec fn view(&self) -> Map<Seq<char>, Option<Seq<char>>> {
        self.entries@.map_values(|v: Option<String>| text::text_view(v))
    }
}

impl SpeechCache {
    /// Every entry was spoken for an expression with the entry's key.
    pub open spec fn wf(&self) -> bool {
        forall|key: Seq<char>| #[trigger]
            self@.contains_key(key) ==> speaks_key(key, self@[key])
    }

    /// An empty cache.
    pub fn new() -> (r: Self)
        ensures
            r.wf(),
            r@ == Map::<Seq<char>, Option<Seq<char>>>::empty(),
    {
        let r = SpeechCache { entries: StringHashMap::new() };
        proof {
            assert(r@ =~= Map::<Seq<char>, Option<Seq<char>>>::empty());
        }
        r
    }

    /// What was spoken for `mathml`, or for an expression that differs from it in white space only.
    pub fn lookup(&self, mathml: &str) -> (r: Option<Option<String>>)
        ensures
            r is Some == self@.contains_key(text::collapsed(mathml@)),
            r matches Some(spoken) ==> text::text_view(spoken) == self@[text::collapsed(mathml@)],
    {
        let key = collapse_whitespace(mathml);
        match self.entries.get(key.as_str()) {
            Some(spoken) => Some(spoken.clone()),
            None => None,
        }
    }

    /// Stores what was spoken for `mathml`, replacing what was stored before.
    pub fn record(&mut self, mathml: &str, spoken: &Option<String>)
        requires
            old(self).wf(),
            speaks(mathml@, text::text_view(*spoken)),
        ensures
            final(self).wf(),
            final(self)@ == old(self)@.insert(text::collapsed(mathml@), text::text_view(*spoken)),
    {
        let key = collapse_whitespace(mathml);
        self.entries.insert(key, spoken.clone());
        proof {
            let after = old(self)@.insert(text::collapsed(mathml@), text::text_view(*spoken));
            assert(self@ =~= after);
        }
    }
}

impl SpeechCache {
    /// Takes over what `other` holds for `mathml`, if it holds anything.
    pub fn take_over(&mut self, other: &SpeechCache, mathml: &str)
        requires
            old(self).wf(),
            other.wf(),
        ensures
            final(self).wf(),
            final(self)@ == (if other@.contains_key(text::collapsed(mathml@)) {
                old(self)@.insert(text::collapsed(mathml@), other@[text::collapsed(mathml@)])
            } else {
                old(self)@
            }),
    {
        if let Some(spoken) = other.lookup(mathml) {
            let key = collapse_whitespace(mathml);
            let ghost view = text::text_view(spoken);
            self.entries.insert(key, spoken);
            proof {
                assert(self@ =~= old(self)@.insert(text::collapsed(mathml@), view));
            }
        }
    }
}

/// Speaks `mathml` without consulting a cache.
pub fn speak(mathml: &str, engine: &SpeechEngine) -> (r: Option<String>)
    ensures
        speaks(mathml@, text::text_view(r)),
        utf8::encode_utf8(mathml@).len() > mathcat::MAX_MATHML_BYTES ==> r is None,
{
    proof {
        use_type_invariant(engine);
    }
    let answer = engine.engine.spoken(mathml);
    let spoken = render_answer(&answer);
    proof {
        assert(mathcat::speech_answer(mathml@, text::text_view(answer)));
    }
    spoken
}

/// What speaking `mathml` leads to, from the cached renderings `before`, when it ends in `spoken`
/// with the cached renderings `after`.
pub open spec fn speech_step(
    before: Map<Seq<char>, Option<Seq<char>>>,
    mathml: Seq<char>,
    spoken: Option<Seq<char>>,
    after: Map<Seq<char>, Option<Seq<char>>>,
) -> bool {
    let key = text::collapsed(mathml);
    if before.contains_key(key) {
        spoken == before[key] && after == before
    } else {
        speaks(mathml, spoken) && after == before.insert(key, spoken)
    }
}

/// Spoken text for a MathML fragment, or `None` when MathCAT rejects the markup or has nothing to
/// say.
pub fn speak_mathml(mathml: &str, engine: &SpeechEngine, cache: &mut SpeechCache) -> (r: Option<
    String,
>)
    requires
        old(cache).wf(),
    ensures
        final(cache).wf(),
        speech_step(old(cache)@, mathml@, text::text_view(r), final(cache)@),
        speaks_key(text::collapsed(mathml@), text::text_view(r)),
        r matches Some(t) ==> text::is_readable(t@),
{
    if let Some(hit) = cache.lookup(mathml) {
        proof {
            lemma_speech_is_readable(text::collapsed(mathml@), text::text_view(hit));
        }
        return hit;
    }
    let spoken = speak(mathml, engine);
    cache.record(mathml, &spoken);
    proof {
        lemma_speech_is_readable(text::collapsed(mathml@), text::text_view(spoken));
    }
    spoken
}

proof fn lemma_speech_is_readable(key: Seq<char>, spoken: Option<Seq<char>>)
    requires
        speaks_key(key, spoken),
    ensures
        spoken matches Some(t) ==> text::is_readable(t),
{
    if spoken is Some {
        let source = choose|source: Seq<char>|
            text::collapsed(source) == key && #[trigger] speaks(source, spoken);
        let answer = choose|answer: Option<Seq<char>>| #[trigger]
            mathcat::speech_answer(source, answer) && spoken == asciimath::rendering(answer);
        text::law_normalized_is_readable(answer->0);
    }
}

/// Spoken rendering of a math element: speech when MathCAT accepts the markup, then the author's
/// alternative text, then the raw text. `None` when every source is empty.
pub fn spoken_math_text<F: FnOnce() -> String>(
    mathml: &str,
    alttext: Option<&str>,
    text_content: F,
    engine: &SpeechEngine,
    cache: &mut SpeechCache,
) -> (r: Option<String>)
    requires
        old(cache).wf(),
        call_requires(text_content, ()),
    ensures
        final(cache).wf(),
        exists|spoken: Option<Seq<char>>|
            {
                &&& #[trigger] speech_step(old(cache)@, mathml@, spoken, final(cache)@)
                &&& speaks_key(text::collapsed(mathml@), spoken)
                &&& fallback::picks(
                    spoken,
                    text::str_view(alttext),
                    text_content,
                    text::text_view(r),
                )
            },
        r matches Some(t) ==> text::is_readable(t@),
{
    let spoken = speak_mathml(mathml, engine, cache);
    let ghost view = text::text_view(spoken);
    let picked = fallback::pick_text(spoken, alttext, text_content);
    proof {
        fallback::law_fallback_is_readable(
            view,
            text::str_view(alttext),
            text_content,
            text::text_view(picked),
        );
    }
    picked
}

/// Something that was spoken: the expression and the text.
pub struct Utterance {
    pub mathml: Seq<char>,
    pub spoken: Option<Seq<char>>,
}

/// What is cached after these expressions were spoken, in this order and on any threads.
pub open spec fn cached_after(
    before: Map<Seq<char>, Option<Seq<char>>>,
    made: Seq<Utterance>,
) -> Map<Seq<char>, Option<Seq<char>>>
    decreases made.len(),
{
    if made.len() == 0 {
        before
    } else {
        let cached = cached_after(before, made.drop_last());
        let key = text::collapsed(made.last().mathml);
        if cached.contains_key(key) {
            cached
        } else {
            cached.insert(key, made.last().spoken)
        }
    }
}

/// The expression `made[k]` was spoken as `speak_mathml` speaks it.
pub open spec fn is_utterance(
    before: Map<Seq<char>, Option<Seq<char>>>,
    made: Seq<Utterance>,
    k: int,
) -> bool {
    speech_step(
        cached_after(before, made.take(k)),
        made[k].mathml,
        made[k].spoken,
        cached_after(before, made.take(k + 1)),
    )
}

/// Expressions that differ in white space only are spoken alike: once one of them was spoken, the
/// others repeat it, whatever else was spoken in between, and leave the cache as it is.
pub proof fn law_repeated_expression_is_spoken_alike(
    before: Map<Seq<char>, Option<Seq<char>>>,
    made: Seq<Utterance>,
    first: int,
    again: int,
)
    requires
        forall|k: int| 0 <= k < made.len() ==> #[trigger] is_utterance(before, made, k),
        0 <= first < again < made.len(),
        text::collapsed(made[again].mathml) == text::collapsed(made[first].mathml),
    ensures
        made[again].spoken == made[first].spoken,
        cached_after(before, made.take(again + 1)) == cached_after(before, made.take(again)),
{
    lemma_entry_stays(before, made, first, again);
    assert(is_utterance(before, made, again));
}

proof fn lemma_entry_stays(
    before: Map<Seq<char>, Option<Seq<char>>>,
    made: Seq<Utterance>,
    first: int,
    upto: int,
)
    requires
        forall|k: int| 0 <= k < made.len() ==> #[trigger] is_utterance(before, made, k),
        0 <= first < upto <= made.len(),
    ensures
        cached_after(before, made.take(upto)).contains_key(text::collapsed(made[first].mathml)),
        cached_after(before, made.take(upto))[text::collapsed(made[first].mathml)]
            == made[first].spoken,
    decreases upto,
{
    let last = upto - 1;
    assert(made.take(upto).drop_last() =~= made.take(last));
    assert(made.take(upto).last() == made[last]);
    assert(is_utterance(before, made, last));
    if last > first {
        lemma_entry_stays(before, made, first, last);
    }
}

/// The part of `s` before the first `c`, or all of `s` when there is no `c`.
pub open spec fn before_first(s: Seq<char>, c: char) -> Seq<char>
    decreases s.len(),
{
    if s.len() == 0 || s.first() == c {
        Seq::empty()
    } else {
        seq![s.first()] + before_first(s.drop_first(), c)
    }
}

/// What stands between the opening `<` of a fragment and its first colon.
pub open spec fn root_prefix(raw: Seq<char>) -> Seq<char> {
    before_first(raw.skip(1), ':')
}

/// A character that ends the name of a tag: the end of the tag, or XML's white space, which stands
/// before the attributes.
pub open spec fn ends_name(c: char) -> bool {
    c == '>' || text::is_xml_space(c)
}

/// A text that can be the prefix of a tag name.
pub open spec fn is_prefix_text(prefix: Seq<char>) -> bool {
    forall|i: int| 0 <= i < prefix.len() ==> !ends_name(#[trigger] prefix[i])
}

/// `raw` without `prefix` and its colon in every start tag and end tag.
pub open spec fn without_prefix(raw: Seq<char>, prefix: Seq<char>) -> Seq<char> {
    let starts = text::replaced(raw, seq!['<'] + prefix + seq![':'], seq!['<']);
    text::replaced(starts, seq!['<', '/'] + prefix + seq![':'], seq!['<', '/'])
}

/// What `normalize_fragment` makes of `raw`.
pub open spec fn normalized_fragment(raw: Seq<char>) -> Seq<char> {
    let prefix = root_prefix(raw);
    if is_prefix_text(prefix) {
        without_prefix(raw, prefix)
    } else {
        raw
    }
}

/// Strips the root element's namespace prefix from every tag; fragments without one stay as they
/// are, and so do other prefixes. Web browsers do not understand XML namespaces.
pub fn normalize_fragment(raw: String) -> (r: String)
    requires
        raw@.len() > 0,
        raw@[0] < '\u{80}',
    ensures
        r@ == normalized_fragment(raw@),
{
    let chars = to_chars(raw.as_str());
    let mut end: usize = 1;
    let mut plain = true;
    proof {
        assert(raw@.subrange(1, 1) + before_first(raw@.skip(1), ':') == root_prefix(raw@));
    }
    while end < chars.len() && chars[end] != ':'
        invariant
            chars@ == raw@,
            1 <= end <= chars.len(),
            raw@.subrange(1, end as int) + before_first(raw@.skip(end as int), ':') == root_prefix(
                raw@,
            ),
            plain == is_prefix_text(raw@.subrange(1, end as int)),
        decreases chars.len() - end,
    {
        let c = chars[end];
        proof {
            let seen = raw@.subrange(1, end as int);
            let more = raw@.subrange(1, end + 1);
            assert(more == seen.push(c));
            assert(raw@.skip(end as int).drop_first() == raw@.skip(end + 1));
            assert(seen + (seq![c] + before_first(raw@.skip(end + 1), ':')) == more + before_first(
                raw@.skip(end + 1),
                ':',
            ));
            assert(more[seen.len() as int] == c);
            assert forall|i: int| 0 <= i < seen.len() implies #[trigger] more[i] == seen[i] by {}
            assert(is_prefix_text(more) == (is_prefix_text(seen) && !ends_name(c))) by {
                if is_prefix_text(more) {
                    assert forall|i: int| 0 <= i < seen.len() implies !ends_name(
                        #[trigger] seen[i],
                    ) by {
                        assert(more[i] == seen[i]);
                    }
                }
            }
        }
        if c == '>' || is_xml_whitespace(c) {
            plain = false;
        }
        end += 1;
    }
    proof {
        let tail = raw@.skip(end as int);
        assert(tail.len() > 0 ==> tail.first() == raw@[end as int]);
        assert(raw@.subrange(1, end as int) == root_prefix(raw@));
    }
    if !plain {
        return raw;
    }
    let prefix = from_chars(&chars, 1, end);
    let mut start_tag = String::new();
    start_tag.push('<');
    start_tag.append(prefix.as_str());
    start_tag.push(':');
    let mut end_tag = String::new();
    end_tag.push('<');
    end_tag.push('/');
    end_tag.append(prefix.as_str());
    end_tag.push(':');
    proof {
        reveal_strlit("<");
        reveal_strlit("</");
        assert(start_tag@ == seq!['<'] + prefix@ + seq![':']);
        assert(end_tag@ == seq!['<', '/'] + prefix@ + seq![':']);
        assert("<"@ == seq!['<']);
        assert("</"@ == seq!['<', '/']);
    }
    let starts = replace_all(raw.as_str(), start_tag.as_str(), "<");
    replace_all(starts.as_str(), end_tag.as_str(), "</")
}

/// A fragment whose root tag has no prefix is left as it is: white space or `>` comes before the first
/// colon.
pub proof fn law_unprefixed_fragment_is_kept(raw: Seq<char>, end: int)
    requires
        1 <= end < raw.len(),
        ends_name(raw[end]),
        forall|i: int| 1 <= i < end ==> raw[i] != ':',
    ensures
        normalized_fragment(raw) == raw,
{
    let tail = raw.skip(1);
    assert(tail[end - 1] == raw[end]);
    assert forall|i: int| 0 <= i < end - 1 implies tail[i] != ':' by {
        assert(tail[i] == raw[i + 1]);
    }
    lemma_before_first_keeps(tail, ':', end - 1);
}

proof fn lemma_before_first_keeps(s: Seq<char>, c: char, at: int)
    requires
        0 <= at < s.len(),
        s[at] != c,
        forall|i: int| 0 <= i < at ==> s[i] != c,
    ensures
        before_first(s, c).contains(s[at]),
    decreases at,
{
    let rest = s.drop_first();
    let whole = before_first(s, c);
    assert(s.first() == s[0]);
    if at == 0 {
        assert(whole[0] == s[at]);
    } else {
        assert forall|i: int| 0 <= i < at - 1 implies rest[i] != c by {
            assert(rest[i] == s[i + 1]);
        }
        lemma_before_first_keeps(rest, c, at - 1);
        let part = before_first(rest, c);
        let k = choose|k: int| 0 <= k < part.len() && part[k] == s[at];
        assert(whole[k + 1] == s[at]);
    }
}

/// Prefixes other than the root's are not touched: a fragment in which no tag has the root's prefix
/// stays as it is.
pub proof fn law_other_prefixes_are_kept(raw: Seq<char>)
    requires
        forall|i: int| !text::occurs_at(raw, seq!['<'] + root_prefix(raw) + seq![':'], i),
        forall|i: int| !text::occurs_at(raw, seq!['<', '/'] + root_prefix(raw) + seq![':'], i),
    ensures
        normalized_fragment(raw) == raw,
{
    let prefix = root_prefix(raw);
    let start_tag = seq!['<'] + prefix + seq![':'];
    let end_tag = seq!['<', '/'] + prefix + seq![':'];
    text::law_replacing_nothing_changes_nothing(raw, start_tag, seq!['<']);
    text::law_replacing_nothing_changes_nothing(raw, end_tag, seq!['<', '/']);
}

/// `head` opens a tag: it starts with `<` and has no other.
spec fn opens_tag(head: Seq<char>) -> bool {
    head.len() > 0 && head[0] == '<' && forall|i: int| 0 < i < head.len() ==> head[i] != '<'
}

/// Text before the first `<` of a replaced text is text of the original.
proof fn lemma_leading_text_is_original(
    s: Seq<char>,
    head: Seq<char>,
    name: Seq<char>,
    part: Seq<char>,
)
    requires
        opens_tag(head),
        !part.contains('<'),
        text::occurs_at(text::replaced(s, head + name, head), part, 0),
    ensures
        text::occurs_at(s, part, 0),
    decreases s.len(),
{
    let pat = head + name;
    let out = text::replaced(s, pat, head);
    if part.len() == 0 {
        assert(s.subrange(0, 0) == part);
    } else if s.len() > 0 {
        assert(out.subrange(0, part.len() as int)[0] == part[0]);
        if text::occurs_at(s, pat, 0) {
            assert(out[0] == head[0]);
            assert(part.contains('<'));
        } else {
            let rest = text::replaced(s.skip(1), pat, head);
            let tail = part.drop_first();
            assert(out == seq![s.first()] + rest);
            assert(rest.subrange(0, tail.len() as int) =~= tail) by {
                assert forall|i: int| 0 <= i < tail.len() implies rest[i] == tail[i] by {
                    assert(out.subrange(0, part.len() as int)[i + 1] == part[i + 1]);
                }
            }
            assert(!tail.contains('<')) by {
                if tail.contains('<') {
                    let k = choose|k: int| 0 <= k < tail.len() && tail[k] == '<';
                    assert(part[k + 1] == '<');
                }
            }
            lemma_leading_text_is_original(s.skip(1), head, name, tail);
            assert(s.subrange(0, part.len() as int) =~= part) by {
                assert forall|i: int| 0 <= i < part.len() implies s[i] == part[i] by {
                    if i > 0 {
                        assert(s.skip(1).subrange(0, tail.len() as int)[i - 1] == tail[i - 1]);
                    }
                }
            }
        }
    }
}

/// Position `i` of `s` accounts for a `tag` in the text that is left once `name` was removed after
/// every `head`: either the tag stood there, or its start was a head whose name was removed.
spec fn tag_source(
    s: Seq<char>,
    head: Seq<char>,
    name: Seq<char>,
    tag: Seq<char>,
    i: int,
) -> bool {
    ||| text::occurs_at(s, tag, i) && !text::occurs_at(s, head + name, i)
    ||| tag.len() <= head.len() && tag == head.take(tag.len() as int)
    ||| tag.len() > head.len() && tag.take(head.len() as int) == head && text::occurs_at(
        s,
        head + name + tag.skip(head.len() as int),
        i,
    )
}

proof fn lemma_tag_of_result(
    s: Seq<char>,
    head: Seq<char>,
    name: Seq<char>,
    tag: Seq<char>,
    at: int,
) -> (i: int)
    requires
        opens_tag(head),
        opens_tag(tag),
        text::occurs_at(text::replaced(s, head + name, head), tag, at),
    ensures
        i >= 0,
        tag_source(s, head, name, tag, i),
    decreases s.len(),
{
    let pat = head + name;
    let out = text::replaced(s, pat, head);
    assert(out.subrange(at, at + tag.len())[0] == tag[0]);
    let found = text::occurs_at(s, pat, 0);
    let step: int = if found {
        pat.len() as int
    } else {
        1
    };
    let lead = if found {
        head
    } else {
        seq![s.first()]
    };
    let tail = s.skip(step);
    let rest = text::replaced(tail, pat, head);
    assert(out == lead + rest);
    if at >= lead.len() {
        assert(rest.subrange(at - lead.len(), at - lead.len() + tag.len()) =~= out.subrange(
            at,
            at + tag.len(),
        ));
        let i = lemma_tag_of_result(tail, head, name, tag, at - lead.len());
        lemma_occurs_in_tail(s, step, tag, i);
        lemma_occurs_in_tail(s, step, pat, i);
        lemma_occurs_in_tail(s, step, pat + tag.skip(head.len() as int), i);
        i + step
    } else {
        // The tag starts with `<`, and so does only the first character of what leads.
        assert(out[at] == lead[at]);
        assert(at == 0);
        assert forall|i: int| 0 <= i < tag.len() implies out[i] == tag[i] by {
            assert(out.subrange(0, tag.len() as int)[i] == tag[i]);
        }
        if tag.len() > lead.len() {
            let more = tag.skip(lead.len() as int);
            assert(tag.take(lead.len() as int) =~= lead);
            assert(rest.subrange(0, more.len() as int) =~= more) by {
                assert forall|i: int| 0 <= i < more.len() implies rest[i] == more[i] by {
                    assert(out[i + lead.len()] == tag[i + lead.len()]);
                }
            }
            assert(!more.contains('<'));
            lemma_leading_text_is_original(tail, head, name, more);
            let source = s.take(step) + more;
            assert(s.subrange(0, source.len() as int) =~= source) by {
                assert forall|i: int| 0 <= i < source.len() implies s[i] == source[i] by {
                    if i >= step {
                        assert(tail.subrange(0, more.len() as int)[i - step] == more[i - step]);
                    }
                }
            }
            if found {
                assert(s.take(step) == pat);
            } else {
                assert(source =~= tag);
            }
        } else {
            assert(tag =~= lead.take(tag.len() as int));
            if !found {
                assert(s.subrange(0, tag.len() as int) =~= tag);
            }
        }
        0
    }
}

proof fn lemma_occurs_in_tail(s: Seq<char>, step: int, pat: Seq<char>, i: int)
    requires
        0 <= step <= s.len(),
        i >= 0,
    ensures
        text::occurs_at(s.skip(step), pat, i) == text::occurs_at(s, pat, i + step),
{
    if i + step + pat.len() <= s.len() {
        assert(s.skip(step).subrange(i, i + pat.len()) =~= s.subrange(
            i + step,
            i + step + pat.len(),
        ));
    }
}

/// After a fragment that starts with a start tag was normalized, no start tag and no end tag has the
/// root's prefix, unless some tag wrote the prefix twice, as in `<m:m:mi>`.
pub proof fn law_root_prefix_is_stripped(raw: Seq<char>)
    requires
        raw.len() > 0,
        is_prefix_text(root_prefix(raw)),
        !root_prefix(raw).contains('<'),
        raw.len() > 1 ==> raw[1] != '/',
        forall|i: int| #![trigger raw[i]]
            {
                let name = root_prefix(raw) + seq![':'];
                &&& !text::occurs_at(raw, seq!['<'] + name + name, i)
                &&& !text::occurs_at(raw, seq!['<', '/'] + name + name, i)
                &&& !text::occurs_at(raw, seq!['<'] + name + seq!['/'] + name + name, i)
            },
    ensures
        forall|i: int|
            #![trigger normalized_fragment(raw)[i]]
            {
                let name = root_prefix(raw) + seq![':'];
                &&& !text::occurs_at(normalized_fragment(raw), seq!['<'] + name, i)
                &&& !text::occurs_at(normalized_fragment(raw), seq!['<', '/'] + name, i)
            },
{
    let prefix = root_prefix(raw);
    let name = prefix + seq![':'];
    let open = seq!['<'];
    let close = seq!['<', '/'];
    assert(open + prefix + seq![':'] =~= open + name);
    assert(close + prefix + seq![':'] =~= close + name);
    let starts = text::replaced(raw, open + name, open);
    let out = text::replaced(starts, close + name, close);
    assert(out == normalized_fragment(raw));
    assert(name[0] != '/' && name[0] != '<') by {
        if prefix.len() > 0 {
            assert(name[0] == prefix[0]);
            assert(prefix.contains(prefix[0]));
            assert(raw.skip(1).len() > 0);
            assert(prefix[0] == raw[1]);
        }
    }
    assert forall|i: int| 0 <= i < name.len() implies name[i] != '<' by {
        if i < prefix.len() {
            assert(prefix.contains(prefix[i]));
        }
    }
    let start_tag = open + name;
    let end_tag = close + name;
    assert(opens_tag(open) && opens_tag(close) && opens_tag(start_tag) && opens_tag(end_tag));
    assert(start_tag.skip(1) =~= name);
    assert(start_tag.take(1) =~= open);
    assert(end_tag.skip(2) =~= name);
    assert(end_tag.skip(1) =~= seq!['/'] + name);
    assert(start_tag[1] == name[0]);
    assert(start_tag.len() >= 2);
    // No start tag keeps the prefix after the first step.
    assert forall|i: int| !text::occurs_at(starts, start_tag, i) by {
        if text::occurs_at(starts, start_tag, i) {
            let k = lemma_tag_of_result(raw, open, name, start_tag, i);
            let _ = raw[k];
            assert(text::occurs_at(raw, open + name + name, k));
        }
    }
    // Removing the prefix from end tags brings no start tag with the prefix back.
    assert forall|i: int| !text::occurs_at(out, start_tag, i) by {
        if text::occurs_at(out, start_tag, i) {
            let k = lemma_tag_of_result(starts, close, name, start_tag, i);
            assert(!text::occurs_at(starts, start_tag, k));
            if start_tag.len() == close.len() {
                assert(close.take(2)[1] == '/');
            } else {
                assert(start_tag.take(2)[1] == name[0]);
            }
        }
    }
    // An end tag with the prefix would come from one that had it twice.
    assert forall|i: int| !text::occurs_at(out, end_tag, i) by {
        if text::occurs_at(out, end_tag, i) {
            let k = lemma_tag_of_result(starts, close, name, end_tag, i);
            assert(close + name + name =~= close + name + end_tag.skip(2));
            let twice = close + name + name;
            assert(text::occurs_at(starts, twice, k));
            assert(opens_tag(twice));
            let j = lemma_tag_of_result(raw, open, name, twice, k);
            let _ = raw[j];
            assert(twice.skip(1) =~= seq!['/'] + name + name);
            assert(open + name + twice.skip(1) =~= open + name + seq!['/'] + name + name);
        }
    }
}

/// Speech without a cache is the readable form of what MathCAT answered for that very expression.
pub proof fn law_speech_is_the_answer(mathml: &str, engine: SpeechEngine, r: Option<String>)
    requires
        call_ensures(speak, (mathml, &engine), r),
    ensures
        exists|answer: Option<Seq<char>>| #[trigger]
            mathcat::speech_answer(mathml@, answer) && (match answer {
                Some(text) => text::text_view(r) == text::normalized(text),
                None => r is None,
            }),
{
}

/// An engine exists exactly where MathCAT accepted the embedded rules.
pub proof fn law_engine_has_the_rules(r: Option<SpeechEngine>)
    requires
        call_ensures(SpeechEngine::load, (), r),
    ensures
        mathcat::rules_answer("Rules"@, r is Some),
{
}

/// An expression that was spoken before, but for white space, is spoken as it was then. Any other is
/// spoken as MathCAT answers for it, and remembered; nothing else is forgotten or changed.
pub proof fn law_expressions_are_spoken_once(
    mathml: &str,
    engine: SpeechEngine,
    cache: &mut SpeechCache,
    r: Option<String>,
    other: Seq<char>,
)
    requires
        call_ensures(speak_mathml, (mathml, &engine, cache), r),
    ensures
        ({
            let key = text::collapsed(mathml@);
            &&& old(cache)@.contains_key(key) ==> text::text_view(r) == old(cache)@[key]
            &&& !old(cache)@.contains_key(key) ==> exists|answer: Option<Seq<char>>| #[trigger]
                mathcat::speech_answer(mathml@, answer) && (match answer {
                    Some(text) => text::text_view(r) == text::normalized(text),
                    None => r is None,
                })
            &&& final(cache)@.contains_key(key) && final(cache)@[key] == text::text_view(r)
            &&& other != key ==> (final(cache)@.contains_key(other) <==> old(cache)@.contains_key(
                other,
            )) && final(cache)@[other] == old(cache)@[other]
        }),
{
}

/// What is stored for an expression is found again for every expression that differs from it in white
/// space only, and for no other.
pub proof fn law_stored_speech_is_found(
    cache: &mut SpeechCache,
    mathml: &str,
    spoken: Option<String>,
    after: SpeechCache,
    asked: &str,
    r: Option<Option<String>>,
)
    requires
        call_ensures(SpeechCache::record, (cache, mathml, &spoken), ()),
        *final(cache) == after,
        call_ensures(SpeechCache::lookup, (&after, asked), r),
    ensures
        text::collapsed(asked@) == text::collapsed(mathml@) ==> (r matches Some(found)
            && text::text_view(found) == text::text_view(spoken)),
        text::collapsed(asked@) != text::collapsed(mathml@) ==> (r is Some <==> old(cache)@.contains_key(text::collapsed(asked@))),
{
}

/// A formula is spoken as MathCAT speaks it whenever MathCAT has something to say, whatever its
/// alternative text and raw text are. Otherwise the alternative text is spoken, and where that is missing
/// or blank, the raw text.
pub proof fn law_formula_is_spoken_by_mathcat<F: FnOnce() -> String>(
    mathml: &str,
    alttext: Option<&str>,
    text_content: F,
    engine: SpeechEngine,
    cache: &mut SpeechCache,
    r: Option<String>,
)
    requires
        call_ensures(spoken_math_text::<F>, (mathml, alttext, text_content, &engine, cache), r),
    ensures
        ({
            let key = text::collapsed(mathml@);
            &&& old(cache)@.contains_key(key) && old(cache)@[key] is Some ==> text::text_view(r)
                == old(cache)@[key]
            &&& !old(cache)@.contains_key(key) ==> exists|answer: Option<Seq<char>>| #[trigger]
                mathcat::speech_answer(mathml@, answer) && (answer matches Some(text)
                    ==> (text::normalized(text) is Some ==> text::text_view(r) == text::normalized(
                    text,
                )))
            &&& old(cache)@.contains_key(key) && old(cache)@[key] is None ==> {
                &&& alttext matches Some(alt) ==> (text::normalized(alt@) is Some
                    ==> text::text_view(r) == text::normalized(alt@))
                &&& (alttext matches Some(alt) ==> text::normalized(alt@) is None)
                    ==> exists|raw: String| #[trigger]
                    call_ensures(text_content, (), raw) && text::text_view(r) == text::normalized(
                        raw@,
                    )
            }
        }),
{
}

proof fn lemma_before_first_is_the_prefix(prefix: Seq<char>, c: char, rest: Seq<char>)
    requires
        !prefix.contains(c),
    ensures
        before_first(prefix + seq![c] + rest, c) == prefix,
        before_first(prefix, c) == prefix,
    decreases prefix.len(),
{
    let whole = prefix + seq![c] + rest;
    if prefix.len() == 0 {
        assert(whole.first() == c);
    } else {
        let tail = prefix.drop_first();
        assert(prefix.contains(prefix[0]));
        assert(!tail.contains(c)) by {
            if tail.contains(c) {
                let i = choose|i: int| 0 <= i < tail.len() && tail[i] == c;
                assert(prefix[i + 1] == c);
            }
        }
        lemma_before_first_is_the_prefix(tail, c, rest);
        assert(whole.drop_first() =~= tail + seq![c] + rest);
        assert(seq![prefix.first()] + tail =~= prefix);
    }
}

/// The prefix of the root tag is taken out of every start tag and then out of every end tag, and nothing
/// else changes. A root tag whose name ends before the first colon, or a fragment without a colon, has no
/// prefix, and the fragment stays as it is.
pub proof fn law_prefix_is_taken_out_of_every_tag(
    raw: String,
    r: String,
    first: char,
    prefix: Seq<char>,
    rest: Seq<char>,
)
    requires
        call_ensures(normalize_fragment, (raw,), r),
        raw@.len() > 0,
    ensures
        raw@ == seq![first] + prefix + seq![':'] + rest && !prefix.contains(':') && !prefix.contains(
            '>',
        ) && !prefix.contains(' ') && !prefix.contains('\t') && !prefix.contains('\n')
            && !prefix.contains('\r') ==> r@ == text::replaced(
            text::replaced(raw@, seq!['<'] + prefix + seq![':'], seq!['<']),
            seq!['<', '/'] + prefix + seq![':'],
            seq!['<', '/'],
        ),
        raw@ == seq![first] + prefix + seq![':'] + rest && !prefix.contains(':') && (prefix.contains(
            '>',
        ) || prefix.contains(' ') || prefix.contains('\t') || prefix.contains('\n')
            || prefix.contains('\r')) ==> r@ == raw@,
        !raw@.contains(':') ==> r@ == raw@,
{
    if raw@ == seq![first] + prefix + seq![':'] + rest && !prefix.contains(':') {
        assert(raw@.skip(1) =~= prefix + seq![':'] + rest);
        lemma_before_first_is_the_prefix(prefix, ':', rest);
        if !is_prefix_text(prefix) {
            let i = choose|i: int| 0 <= i < prefix.len() && ends_name(#[trigger] prefix[i]);
            assert(prefix.contains(prefix[i]));
        }
        if is_prefix_text(prefix) {
            assert forall|c: char| ends_name(c) implies !prefix.contains(c) by {
                if prefix.contains(c) {
                    let i = choose|i: int| 0 <= i < prefix.len() && prefix[i] == c;
                    assert(!ends_name(prefix[i]));
                }
            }
        }
    }
    if !raw@.contains(':') {
        let whole = root_prefix(raw@);
        let tail = raw@.skip(1);
        assert(!tail.contains(':')) by {
            if tail.contains(':') {
                let i = choose|i: int| 0 <= i < tail.len() && tail[i] == ':';
                assert(raw@[i + 1] == ':');
            }
        }
        let start_tag = seq!['<'] + whole + seq![':'];
        let end_tag = seq!['<', '/'] + whole + seq![':'];
        lemma_no_colon_no_occurrence(raw@, start_tag);
        lemma_no_colon_no_occurrence(raw@, end_tag);
        text::law_replacing_nothing_changes_nothing(raw@, start_tag, seq!['<']);
        text::law_replacing_nothing_changes_nothing(raw@, end_tag, seq!['<', '/']);
    }
}

proof fn lemma_no_colon_no_occurrence(s: Seq<char>, pat: Seq<char>)
    requires
        !s.contains(':'),
        pat.len() > 0,
        pat.last() == ':',
    ensures
        forall|i: int| !text::occurs_at(s, pat, i),
{
    assert forall|i: int| !text::occurs_at(s, pat, i) by {
        if text::occurs_at(s, pat, i) {
            let part = s.subrange(i, i + pat.len());
            assert(part[pat.len() - 1] == ':');
            assert(s[i + pat.len() - 1] == ':');
        }
    }
}

/// A new cache is empty, and a cache takes over exactly what another holds for an expression.
pub proof fn law_speech_caches_share_their_entries(
    cache: &mut SpeechCache,
    other: SpeechCache,
    mathml: &str,
    empty: SpeechCache,
    key: Seq<char>,
)
    requires
        call_ensures(SpeechCache::take_over, (cache, &other, mathml), ()),
        call_ensures(SpeechCache::new, (), empty),
    ensures
        !empty@.contains_key(key),
        ({
            let own = text::collapsed(mathml@);
            &&& !other@.contains_key(own) ==> final(cache)@ == old(cache)@
            &&& other@.contains_key(own) ==> final(cache)@.contains_key(own) && final(cache)@[own]
                == other@[own]
            &&& key != own ==> (final(cache)@.contains_key(key) <==> old(cache)@.contains_key(key))
                && final(cache)@[key] == old(cache)@[key]
        }),
{
}

} // verus!
