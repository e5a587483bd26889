//! AsciiMath renderings of MathML, with a bounded cache of repeated expressions.

use vstd::prelude::*;
use vstd::hash_map::StringHashMap;
use vstd::utf8;
use crate::math::fallback;
use crate::math::mathcat;
use crate::math::mathcat::{Engine, Setup};
use crate::text;
use crate::text::normalized_text;

verus! {

/// The most text, in bytes of UTF-8, that a cache retains.
pub const MAX_CACHE_BYTES: usize = 8388608;

/// The bytes that one cached expression and its rendering take.
pub open spec fn entry_size(mathml: Seq<char>, rendered: Option<Seq<char>>) -> nat {
    utf8::encode_utf8(mathml).len() + match rendered {
        Some(text) => utf8::encode_utf8(text).len(),
        None => 0,
    }
}

/// The bytes that all entries of a cache take together.
pub open spec fn retained(entries: Map<Seq<char>, Option<Seq<char>>>) -> nat
    decreases entries.dom().len(),
    when entries.dom().finite()
{
    if entries.dom().len() == 0 {
        0
    } else {
        let key = entries.dom().choose();
        entry_size(key, entries[key]) + retained(entries.remove(key))
    }
}

/// What a conversion that ended in `answer` is rendered as.
pub open spec fn rendering(answer: Option<Seq<char>>) -> Option<Seq<char>> {
    match answer {
        Some(text) => text::normalized(text),
        None => None,
    }
}

/// `rendered` is the rendering of an answer that MathCAT gave for `mathml`.
pub open spec fn renders(mathml: Seq<char>, rendered: Option<Seq<char>>) -> bool {
    exists|answer: Option<Seq<char>>|
        #[trigger] mathcat::braille_answer(mathml, answer) && rendered == rendering(answer)
}

proof fn lemma_retained_remove(entries: Map<Seq<char>, Option<Seq<char>>>, key: Seq<char>)
    requires
        entries.dom().finite(),
        entries.contains_key(key),
    ensures
        retained(entries) == entry_size(key, entries[key]) + retained(entries.remove(key)),
    decreases entries.dom().len(),
{
    let first = entries.dom().choose();
    if first != key {
        let rest = entries.remove(first);
        lemma_retained_remove(rest, key);
        let other = entries.remove(key);
        lemma_retained_remove(other, first);
        assert(rest.remove(key) == other.remove(first));
    }
}

/// Renderings of recent expressions, so that a book's repeated formulas are converted once. What
/// is retained is bounded by `MAX_CACHE_BYTES`.
pub struct MathCache {
    entries: StringHashMap<Option<String>>,
    bytes: usize,
}

/// The view of a cache is its entries; the count of bytes follows from them.
impl View for MathCache {
    type V = Map<Seq<char>, Option<Seq<char>>>;

    closed spec fn view(&self) -> Map<Seq<char>, Option<Seq<char>>> {
        self.entries@.map_values(|v: Option<String>| text::text_view(v))
    }
}

/// The entries of a cache after an expression that it did not hold was rendered.
pub open spec fn recorded(
    entries: Map<Seq<char>, Option<Seq<char>>>,
    mathml: Seq<char>,
    rendered: Option<Seq<char>>,
) -> Map<Seq<char>, Option<Seq<char>>> {
    let size = entry_size(mathml, rendered);
    if size > MAX_CACHE_BYTES || entries.contains_key(mathml) {
        entries
    } else if retained(entries) + size > MAX_CACHE_BYTES {
        Map::empty().insert(mathml, rendered)
    } else {
        entries.insert(mathml, rendered)
    }
}

impl MathCache {
    /// The cache holds renderings of the expressions that they are stored under, and no more text
    /// than `MAX_CACHE_BYTES`.
    pub closed spec fn wf(&self) -> bool {
        &&& self@.dom().finite()
        &&& self.bytes == retained(self@)
        &&& self.bytes <= MAX_CACHE_BYTES
        &&& forall|key: Seq<char>| #[trigger]
            self@.contains_key(key) ==> renders(key, self@[key])
    }

    /// An empty cache.
    pub fn new() -> (r: Self)
        ensures
            r.wf(),
            r@ == Map::<Seq<char>, Option<Seq<char>>>::empty(),
    {
        let r = MathCache { entries: StringHashMap::new(), bytes: 0 };
        proof {
            assert(r@ =~= Map::<Seq<char>, Option<Seq<char>>>::empty());
        }
        r
    }

    /// The rendering stored for `mathml`, if there is one. White space in `mathml` counts: inside
    /// text and attribute values it can be significant.
    pub fn lookup(&self, mathml: &str) -> (r: Option<Option<String>>)
        ensures
            r is Some == self@.contains_key(mathml@),
            r matches Some(rendered) ==> text::text_view(rendered) == self@[mathml@],
    {
        match self.entries.get(mathml) {
            Some(rendered) => Some(rendered.clone()),
            None => None,
        }
    }

    /// Stores the rendering of `mathml`. A rendering already stored is kept; one too large for the
    /// cache is not stored; and when the bound would be exceeded, the older entries are dropped.
    pub fn record(&mut self, mathml: &str, rendered: &Option<String>)
        requires
            old(self).wf(),
            renders(mathml@, text::text_view(*rendered)),
        ensures
            final(self).wf(),
            final(self)@ == recorded(old(self)@, mathml@, text::text_view(*rendered)),
    {
        let key_bytes = mathml.as_bytes().len();
        let value_bytes = match rendered {
            Some(text) => text.as_str().as_bytes().len(),
            None => 0,
        };
        if value_bytes > MAX_CACHE_BYTES || key_bytes > MAX_CACHE_BYTES - value_bytes {
            return;
        }
        let size = key_bytes + value_bytes;
        if self.entries.contains_key(mathml) {
            return;
        }
        if self.bytes + size > MAX_CACHE_BYTES {
            self.entries.clear();
            self.bytes = 0;
            proof {
                assert(self@ =~= Map::<Seq<char>, Option<Seq<char>>>::empty());
            }
        }
        let ghost before = self@;
        self.bytes = self.bytes + size;
        self.entries.insert(mathml.to_owned(), rendered.clone());
        proof {
            let after = before.insert(mathml@, text::text_view(*rendered));
            assert(self@ =~= after);
            lemma_retained_remove(after, mathml@);
            assert(after.remove(mathml@) =~= before);
        }
    }
}

impl MathCache {
    /// Takes over what `other` holds for `mathml`, if it holds a rendering.
    pub fn take_over(&mut self, other: &MathCache, mathml: &str)
        requires
            old(self).wf(),
            other.wf(),
        ensures
            final(self).wf(),
            final(self)@ == (if other@.contains_key(mathml@) {
                recorded(old(self)@, mathml@, other@[mathml@])
            } else {
                old(self)@
            }),
    {
        if let Some(rendered) = other.lookup(mathml) {
            self.record(mathml, &rendered);
        }
    }
}

/// Loads the embedded rules and selects AsciiMath, a text notation that MathCAT offers as a
/// braille code. Says whether every step succeeded.
fn init(engine: &mut Engine) -> (ready: bool)
    ensures
        ready ==> mathcat::prepared() && final(engine)@ == mathcat::ascii_math_setup(),
        !ready ==> mathcat::preparation_failed(),
{
    engine.load_rules("Rules") && engine.set_language("en") && engine.set_braille_code("ASCIIMath")
}

/// Whether MathCAT is set up on a thread. MathCAT keeps its state per thread, so each thread that
/// renders formulas has one of these, and sets MathCAT up when it renders its first formula.
pub struct MathThread {
    ready: Option<bool>,
    engine: Engine,
}

impl MathThread {
    /// The outcome of setting MathCAT up, once it was tried.
    pub closed spec fn ready(&self) -> Option<bool> {
        self.ready
    }

    /// How MathCAT was set up last on the thread.
    pub closed spec fn setup(&self) -> Setup {
        self.engine@
    }

    /// A thread that counts as ready was prepared, and its settings were left alone since; one that
    /// counts as not ready failed.
    #[verifier::type_invariant]
    spec fn tells_the_truth(self) -> bool {
        match self.ready {
            Some(true) => mathcat::prepared() && self.engine@ == mathcat::ascii_math_setup(),
            Some(false) => mathcat::preparation_failed(),
            None => true,
        }
    }

    /// A thread on which MathCAT was not set up yet.
    pub fn new() -> (r: Self)
        ensures
            r.ready() is None,
    {
        MathThread { ready: None, engine: Engine::new() }
    }

    /// Sets MathCAT up at the first call; later calls repeat the first outcome.
    pub fn prepare(&mut self) -> (ready: bool)
        ensures
            final(self).ready() == Some(ready),
            old(self).ready() matches Some(before) ==> ready == before,
            ready ==> mathcat::prepared() && final(self).setup() == mathcat::ascii_math_setup(),
            !ready ==> mathcat::preparation_failed(),
    {
        proof {
            use_type_invariant(&*self);
        }
        match self.ready {
            Some(ready) => ready,
            None => {
                let mut engine = Engine::new();
                let ready = init(&mut engine);
                self.engine = engine;
                self.ready = Some(ready);
                ready
            },
        }
    }
}

/// Turns a MathCAT answer into readable text; `None` when there is nothing to read.
pub fn render_answer(answer: &Option<String>) -> (r: Option<String>)
    ensures
        text::text_view(r) == rendering(text::text_view(*answer)),
{
    match answer {
        Some(text) => normalized_text(text.as_str()),
        None => None,
    }
}

/// Converts `mathml` to AsciiMath on a thread that is set up, without consulting a cache.
pub fn render(mathml: &str, thread: &MathThread) -> (r: Option<String>)
    requires
        thread.ready() == Some(true),
    ensures
        renders(mathml@, text::text_view(r)),
        utf8::encode_utf8(mathml@).len() > mathcat::MAX_MATHML_BYTES ==> r is None,
{
    proof {
        use_type_invariant(thread);
    }
    let answer = thread.engine.ascii_math(mathml);
    let rendered = render_answer(&answer);
    proof {
        assert(mathcat::braille_answer(mathml@, text::text_view(answer)));
    }
    rendered
}

/// What rendering `mathml` leads to, from the outcome `ready` of setting MathCAT up and the cached
/// renderings `before`, when it ends in `rendered` with the cached renderings `after`.
pub open spec fn asciimath_step(
    ready: Option<bool>,
    before: Map<Seq<char>, Option<Seq<char>>>,
    mathml: Seq<char>,
    rendered: Option<Seq<char>>,
    after: Map<Seq<char>, Option<Seq<char>>>,
) -> bool {
    if ready != Some(true) {
        rendered is None && after == before
    } else if before.contains_key(mathml) {
        rendered == before[mathml] && after == before
    } else {
        renders(mathml, rendered) && after == recorded(before, mathml, rendered)
    }
}

/// AsciiMath for `mathml`, from the cache when it holds a rendering. `None` when MathCAT could not
/// be set up, rejects the expression, or renders it as nothing.
pub fn asciimath(mathml: &str, thread: &mut MathThread, cache: &mut MathCache) -> (r: Option<
    String,
>)
    requires
        old(cache).wf(),
    ensures
        final(cache).wf(),
        final(thread).ready() is Some,
        old(thread).ready() is Some ==> final(thread).ready() == old(thread).ready(),
        final(thread).ready() == Some(true) ==> mathcat::prepared(),
        final(thread).ready() == Some(false) ==> mathcat::preparation_failed(),
        asciimath_step(
            final(thread).ready(),
            old(cache)@,
            mathml@,
            text::text_view(r),
            final(cache)@,
        ),
        final(thread).ready() == Some(true) ==> final(thread).setup() == mathcat::ascii_math_setup()
            && renders(mathml@, text::text_view(r)),
        r matches Some(t) ==> text::is_readable(t@),
{
    if !thread.prepare() {
        return None;
    }
    if let Some(hit) = cache.lookup(mathml) {
        proof {
            lemma_renderings_are_readable(mathml@, text::text_view(hit));
        }
        return hit;
    }
    let rendered = render(mathml, thread);
    cache.record(mathml, &rendered);
    proof {
        lemma_renderings_are_readable(mathml@, text::text_view(rendered));
    }
    rendered
}

proof fn lemma_renderings_are_readable(mathml: Seq<char>, rendered: Option<Seq<char>>)
    requires
        renders(mathml, rendered),
    ensures
        rendered matches Some(t) ==> text::is_readable(t),
{
    if rendered is Some {
        let answer = choose|answer: Option<Seq<char>>| #[trigger]
            mathcat::braille_answer(mathml, answer) && rendered == rendering(answer);
        text::law_normalized_is_readable(answer->0);
    }
}

/// AsciiMath when conversion succeeds, then the author's alternative text, then the raw text. An
/// empty expression without a fallback gives nothing.
pub fn math_text<F: FnOnce() -> String>(
    mathml: &str,
    alttext: Option<&str>,
    text_content: F,
    thread: &mut MathThread,
    cache: &mut MathCache,
) -> (r: Option<String>)
    requires
        old(cache).wf(),
        call_requires(text_content, ()),
    ensures
        final(cache).wf(),
        final(thread).ready() is Some,
        old(thread).ready() is Some ==> final(thread).ready() == old(thread).ready(),
        exists|rendered: Option<Seq<char>>|
            {
                &&& #[trigger] asciimath_step(
                    final(thread).ready(),
                    old(cache)@,
                    mathml@,
                    rendered,
                    final(cache)@,
                )
                &&& final(thread).ready() == Some(true) ==> renders(mathml@, rendered)
                &&& fallback::picks(
                    rendered,
                    text::str_view(alttext),
                    text_content,
                    text::text_view(r),
                )
            },
        r matches Some(t) ==> text::is_readable(t@),
{
    let rendered = asciimath(mathml, thread, cache);
    let ghost view = text::text_view(rendered);
    let picked = fallback::pick_text(rendered, alttext, text_content);
    proof {
        fallback::law_fallback_is_readable(
            view,
            text::str_view(alttext),
            text_content,
            text::text_view(picked),
        );
    }
    picked
}

/// A cache never retains more than `MAX_CACHE_BYTES`, whatever was rendered before.
pub proof fn law_cache_is_bounded(cache: MathCache)
    requires
        cache.wf(),
    ensures
        retained(cache@) <= MAX_CACHE_BYTES,
{
}

/// What a cache holds for an expression was rendered from that very expression.
pub proof fn law_cached_renderings_are_genuine(cache: MathCache, mathml: Seq<char>)
    requires
        cache.wf(),
        cache@.contains_key(mathml),
    ensures
        renders(mathml, cache@[mathml]),
{
}

/// MathCAT answers `mathml` alike every time.
pub open spec fn answers_alike(mathml: Seq<char>) -> bool {
    forall|a: Option<Seq<char>>, b: Option<Seq<char>>| #[trigger]
        mathcat::braille_answer(mathml, a) && #[trigger] mathcat::braille_answer(mathml, b) ==> a
            == b
}

/// The result depends on the expression alone: as long as MathCAT answers an expression alike, every
/// thread that is set up renders it alike, whatever the caches held, kept or dropped.
pub proof fn law_result_depends_on_the_expression_alone(
    mathml: Seq<char>,
    one: MathCache,
    rendered: Option<Seq<char>>,
    one_after: Map<Seq<char>, Option<Seq<char>>>,
    other: MathCache,
    again: Option<Seq<char>>,
    other_after: Map<Seq<char>, Option<Seq<char>>>,
)
    requires
        answers_alike(mathml),
        one.wf(),
        asciimath_step(Some(true), one@, mathml, rendered, one_after),
        other.wf(),
        asciimath_step(Some(true), other@, mathml, again, other_after),
    ensures
        rendered == again,
{
    assert(renders(mathml, rendered) && renders(mathml, again));
}

/// An expression rendered twice in a row is converted once: the second rendering repeats the first
/// and leaves the cache as it is, unless the first was too large to keep.
pub proof fn law_repeated_expression_is_reused(
    ready: Option<bool>,
    before: Map<Seq<char>, Option<Seq<char>>>,
    mathml: Seq<char>,
    first: Option<Seq<char>>,
    between: Map<Seq<char>, Option<Seq<char>>>,
    second: Option<Seq<char>>,
    after: Map<Seq<char>, Option<Seq<char>>>,
)
    requires
        asciimath_step(ready, before, mathml, first, between),
        asciimath_step(ready, between, mathml, second, after),
        entry_size(mathml, first) <= MAX_CACHE_BYTES,
    ensures
        second == first,
        after == between,
{
}

/// A rendering: the expression and what it was rendered as.
pub struct Rendering {
    pub mathml: Seq<char>,
    pub rendered: Option<Seq<char>>,
}

/// What is cached after these renderings, made in this order on any threads.
pub open spec fn cached_after(
    before: Map<Seq<char>, Option<Seq<char>>>,
    made: Seq<Rendering>,
) -> Map<Seq<char>, Option<Seq<char>>>
    decreases made.len(),
{
    if made.len() == 0 {
        before
    } else {
        recorded(cached_after(before, made.drop_last()), made.last().mathml, made.last().rendered)
    }
}

/// The rendering `made[k]` was made as `asciimath` makes it on a thread that is set up.
pub open spec fn is_rendering(
    before: Map<Seq<char>, Option<Seq<char>>>,
    made: Seq<Rendering>,
    k: int,
) -> bool {
    asciimath_step(
        Some(true),
        cached_after(before, made.take(k)),
        made[k].mathml,
        made[k].rendered,
        cached_after(before, made.take(k + 1)),
    )
}

/// Storing the rendering `made[k]` drops the older entries.
pub open spec fn drops_entries(
    before: Map<Seq<char>, Option<Seq<char>>>,
    made: Seq<Rendering>,
    k: int,
) -> bool {
    let entries = cached_after(before, made.take(k));
    let size = entry_size(made[k].mathml, made[k].rendered);
    size <= MAX_CACHE_BYTES && !entries.contains_key(made[k].mathml) && retained(entries) + size
        > MAX_CACHE_BYTES
}

/// An expression is rendered alike whenever it comes again, whatever other expressions were rendered
/// in between and on whatever threads, until the cache drops its entries. Expressions that differ in
/// white space count as other expressions.
pub proof fn law_kept_rendering_is_reused(
    before: Map<Seq<char>, Option<Seq<char>>>,
    made: Seq<Rendering>,
    first: int,
    again: int,
)
    requires
        forall|k: int| 0 <= k < made.len() ==> #[trigger] is_rendering(before, made, k),
        0 <= first < again < made.len(),
        made[again].mathml == made[first].mathml,
        entry_size(made[first].mathml, made[first].rendered) <= MAX_CACHE_BYTES,
        forall|k: int| first < k < again ==> !(#[trigger] drops_entries(before, made, k)),
    ensures
        made[again].rendered == made[first].rendered,
{
    lemma_entry_stays(before, made, first, again);
    assert(is_rendering(before, made, again));
}

proof fn lemma_entry_stays(
    before: Map<Seq<char>, Option<Seq<char>>>,
    made: Seq<Rendering>,
    first: int,
    upto: int,
)
    requires
        forall|k: int| 0 <= k < made.len() ==> #[trigger] is_rendering(before, made, k),
        0 <= first < upto <= made.len(),
        entry_size(made[first].mathml, made[first].rendered) <= MAX_CACHE_BYTES,
        forall|k: int| first < k < upto ==> !(#[trigger] drops_entries(before, made, k)),
    ensures
        cached_after(before, made.take(upto)).contains_key(made[first].mathml),
        cached_after(before, made.take(upto))[made[first].mathml] == made[first].rendered,
    decreases upto,
{
    let last = upto - 1;
    assert(made.take(upto).drop_last() =~= made.take(last));
    assert(made.take(upto).last() == made[last]);
    assert(is_rendering(before, made, last));
    if last > first {
        lemma_entry_stays(before, made, first, last);
        assert(!drops_entries(before, made, last));
    }
}

/// A thread that counts as ready loaded the embedded rules, selected English and selected ASCIIMath, and
/// each of the three was accepted. Setting up is tried once.
pub proof fn law_ready_thread_speaks_ascii_math(thread: &mut MathThread, ready: bool)
    requires
        call_ensures(MathThread::prepare, (thread,), ready),
    ensures
        final(thread).ready() == Some(ready),
        old(thread).ready() is Some ==> old(thread).ready() == Some(ready),
        ready ==> mathcat::rules_answer("Rules"@, true),
        ready ==> mathcat::preference_answer("Language"@, "en"@, true),
        ready ==> mathcat::preference_answer("BrailleCode"@, "ASCIIMath"@, true),
        ready ==> final(thread).setup().rules == Some("Rules"@),
        ready ==> final(thread).setup().language == Some("en"@),
        ready ==> final(thread).setup().braille_code == Some("ASCIIMath"@),
        !ready ==> mathcat::rules_answer("Rules"@, false) || (mathcat::rules_answer("Rules"@, true)
            && mathcat::preference_answer("Language"@, "en"@, false)) || (mathcat::rules_answer(
            "Rules"@,
            true,
        ) && mathcat::preference_answer("Language"@, "en"@, true) && mathcat::preference_answer(
            "BrailleCode"@,
            "ASCIIMath"@,
            false,
        )),
{
}

/// A rendering without a cache is the readable form of what MathCAT answered for that very expression.
pub proof fn law_rendering_is_the_answer(mathml: &str, thread: MathThread, r: Option<String>)
    requires
        call_ensures(render, (mathml, &thread), r),
    ensures
        exists|answer: Option<Seq<char>>| #[trigger]
            mathcat::braille_answer(mathml@, answer) && (match answer {
                Some(text) => text::text_view(r) == text::normalized(text),
                None => r is None,
            }),
{
}

/// An expression that the cache holds reads as it is stored there, and the cache stays as it is. Any
/// other reads as the readable form of MathCAT's answer for it. Without MathCAT nothing is rendered or
/// stored.
pub proof fn law_expressions_are_rendered_once(
    mathml: &str,
    thread: &mut MathThread,
    cache: &mut MathCache,
    r: Option<String>,
)
    requires
        call_ensures(asciimath, (mathml, thread, cache), r),
    ensures
        final(thread).ready() is Some,
        old(thread).ready() is Some ==> final(thread).ready() == old(thread).ready(),
        final(thread).ready() == Some(false) ==> r is None && final(cache)@ == old(cache)@,
        final(thread).ready() == Some(true) && old(cache)@.contains_key(mathml@) ==> text::text_view(
            r,
        ) == old(cache)@[mathml@] && final(cache)@ == old(cache)@,
        final(thread).ready() == Some(true) ==> exists|answer: Option<Seq<char>>| #[trigger]
            mathcat::braille_answer(mathml@, answer) && (match answer {
                Some(text) => text::text_view(r) == text::normalized(text),
                None => r is None,
            }),
        final(thread).ready() == Some(true) && !old(cache)@.contains_key(mathml@) && bytes_of(
            mathml@,
        ) + bytes_of(text::or_empty(text::text_view(r))) <= 8 * 1024 * 1024 ==> final(cache)@.contains_key(mathml@) && final(cache)@[mathml@] == text::text_view(r),
{
    assert(utf8::encode_utf8(Seq::<char>::empty()).len() == 0);
}

/// The bytes that a text takes in UTF-8.
pub open spec fn bytes_of(s: Seq<char>) -> nat {
    utf8::encode_utf8(s).len()
}

/// A formula reads as its AsciiMath whenever MathCAT gave one for it, or the cache holds one,
/// whatever its alternative text and raw text are.
pub proof fn law_formula_reads_as_its_ascii_math<F: FnOnce() -> String>(
    mathml: &str,
    alttext: Option<&str>,
    text_content: F,
    thread: &mut MathThread,
    cache: &mut MathCache,
    r: Option<String>,
)
    requires
        call_ensures(math_text::<F>, (mathml, alttext, text_content, thread, cache), r),
    ensures
        final(thread).ready() == Some(true) && old(cache)@.contains_key(mathml@)
            && old(cache)@[mathml@] is Some ==> text::text_view(r) == old(cache)@[mathml@],
        final(thread).ready() == Some(true) ==> exists|answer: Option<Seq<char>>| #[trigger]
            mathcat::braille_answer(mathml@, answer) && (answer matches Some(text)
                ==> (text::normalized(text) is Some ==> text::text_view(r) == text::normalized(
                text,
            ))),
        final(thread).ready() != Some(true) ==> (alttext matches Some(alt) ==> (text::normalized(
            alt@,
        ) is Some ==> text::text_view(r) == text::normalized(alt@))),
        (final(thread).ready() != Some(true) || (old(cache)@.contains_key(mathml@)
            && old(cache)@[mathml@] is None)) && (alttext matches Some(alt) ==> text::normalized(
            alt@,
        ) is None) ==> exists|raw: String| #[trigger]
            call_ensures(text_content, (), raw) && text::text_view(r) == text::normalized(raw@),
{
}

/// A cache keeps what it holds: a rendering that is stored is never replaced, one that fits is stored
/// beside the others, one that would exceed 8 MiB of text together with them takes their place, and one
/// that exceeds it alone is not stored.
pub proof fn law_cache_makes_room(
    cache: &mut MathCache,
    mathml: &str,
    rendered: Option<String>,
    other: Seq<char>,
)
    requires
        old(cache).wf(),
        call_ensures(MathCache::record, (cache, mathml, &rendered), ()),
    ensures
        MAX_CACHE_BYTES == 8 * 1024 * 1024,
        ({
            let before = old(cache)@;
            let after = final(cache)@;
            let size = bytes_of(mathml@) + bytes_of(text::or_empty(text::text_view(rendered)));
            &&& before.contains_key(mathml@) ==> after == before
            &&& size > MAX_CACHE_BYTES ==> after == before
            &&& size <= MAX_CACHE_BYTES && !before.contains_key(mathml@) ==> {
                &&& after.contains_key(mathml@)
                &&& after[mathml@] == text::text_view(rendered)
                &&& other != mathml@ ==> (after.contains_key(other) <==> before.contains_key(other)
                    && retained(before) + size <= MAX_CACHE_BYTES)
                &&& other != mathml@ && after.contains_key(other) ==> after[other] == before[other]
            }
        }),
{
    assert(utf8::encode_utf8(Seq::<char>::empty()).len() == 0);
}

/// The text that a cache retains is all it holds: every entry counts with the bytes of its expression and
/// of its rendering.
pub proof fn law_every_entry_counts(
    entries: Map<Seq<char>, Option<Seq<char>>>,
    key: Seq<char>,
    rendered: Option<Seq<char>>,
)
    requires
        entries.dom().finite(),
        !entries.contains_key(key),
    ensures
        retained(Map::<Seq<char>, Option<Seq<char>>>::empty()) == 0,
        retained(entries.insert(key, rendered)) == retained(entries) + bytes_of(key) + bytes_of(
            text::or_empty(rendered),
        ),
{
    assert(utf8::encode_utf8(Seq::<char>::empty()).len() == 0);
    let more = entries.insert(key, rendered);
    lemma_retained_remove(more, key);
    assert(more.remove(key) =~= entries);
}

/// What is looked up is what was stored under that very expression.
pub proof fn law_lookup_finds_the_entry(
    cache: MathCache,
    mathml: &str,
    r: Option<Option<String>>,
)
    requires
        call_ensures(MathCache::lookup, (&cache, mathml), r),
    ensures
        r is None <==> !cache@.contains_key(mathml@),
        r matches Some(found) ==> text::text_view(found) == cache@[mathml@],
{
}

/// A new cache is empty and a new thread is not set up. A cache takes over what another holds for an
/// expression, if it does not hold the expression itself and has room for it; nothing else changes.
pub proof fn law_caches_share_their_entries(
    cache: &mut MathCache,
    other: MathCache,
    mathml: &str,
    empty: MathCache,
    thread: MathThread,
)
    requires
        call_ensures(MathCache::take_over, (cache, &other, mathml), ()),
        call_ensures(MathCache::new, (), empty),
        call_ensures(MathThread::new, (), thread),
    ensures
        !other@.contains_key(mathml@) ==> final(cache)@ == old(cache)@,
        old(cache)@.contains_key(mathml@) ==> final(cache)@ == old(cache)@,
        other@.contains_key(mathml@) && !old(cache)@.contains_key(mathml@) && bytes_of(mathml@)
            + bytes_of(text::or_empty(other@[mathml@])) <= 8 * 1024 * 1024 ==> final(
            cache)@.contains_key(mathml@) && final(cache)@[mathml@] == other@[mathml@],
        other@.contains_key(mathml@) && !old(cache)@.contains_key(mathml@) && retained(old(cache)@)
            + bytes_of(mathml@) + bytes_of(text::or_empty(other@[mathml@])) <= 8 * 1024 * 1024
            ==> final(cache)@ == old(cache)@.insert(mathml@, other@[mathml@]),
        forall|key: Seq<char>| !empty@.contains_key(key),
        thread.ready() is None,
{
    assert(utf8::encode_utf8(Seq::<char>::empty()).len() == 0);
}

/// What MathCAT answers is made readable; an error, or an answer that is all white space, gives nothing.
pub proof fn law_answers_are_made_readable(answer: Option<String>, r: Option<String>)
    requires
        call_ensures(render_answer, (&answer,), r),
    ensures
        answer is None ==> r is None,
        answer matches Some(text) ==> text::text_view(r) == text::normalized(text@),
{
}

} // verus!
