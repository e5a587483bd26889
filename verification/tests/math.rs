//! Formulas: AsciiMath, speech, fallbacks and fragments.

use paperback::math::asciimath::{asciimath, math_text, render, render_answer, MathCache, MathThread};
use paperback::math::fallback::pick_text;
use paperback::math::speech::{
    normalize_fragment, speak, speak_mathml, spoken_math_text, SpeechCache, SpeechEngine,
};

fn rendered(mathml: &str) -> Option<String> {
    asciimath(mathml, &mut MathThread::new(), &mut MathCache::new())
}

fn text(mathml: &str, alttext: Option<&str>, raw: &str) -> Option<String> {
    math_text(mathml, alttext, || raw.to_string(), &mut MathThread::new(), &mut MathCache::new())
}

#[test]
fn renders_asciimath_equation() {
    assert_eq!(rendered("<math><mi>x</mi><mo>=</mo><mn>1</mn></math>").as_deref(), Some("x = 1"));
}

#[test]
fn renders_asciimath_fraction() {
    assert_eq!(rendered("<math><mfrac><mi>a</mi><mi>b</mi></mfrac></math>").as_deref(), Some("a/b"));
}

#[test]
fn renders_asciimath_root() {
    assert_eq!(rendered("<math><msqrt><mi>x</mi></msqrt></math>").as_deref(), Some("sqrt(x)"));
}

#[test]
fn renders_asciimath_power() {
    assert_eq!(rendered("<math><msup><mi>x</mi><mn>2</mn></msup></math>").as_deref(), Some("x^2"));
}

#[test]
fn conversion_failure_uses_alttext_then_text_and_recovers() {
    assert_eq!(
        text("<math><broken", Some("  alternative\n text "), "raw").as_deref(),
        Some("alternative text")
    );
    assert_eq!(text("<math><broken", Some(" "), " raw\n text ").as_deref(), Some("raw text"));
    assert!(text("<math><broken", None, "").is_none());
    assert_eq!(rendered("<math><mi>y</mi></math>").as_deref(), Some("y"));
}

#[test]
fn each_worker_prepares_mathcat_and_reuses_expressions() {
    let mut cache = MathCache::new();
    for _ in 0..4 {
        let mut worker = MathThread::new();
        for _ in 0..3 {
            assert_eq!(
                asciimath("<math><msqrt><mn>2</mn></msqrt></math>", &mut worker, &mut cache).as_deref(),
                Some("sqrt(2)")
            );
        }
    }
    assert_eq!(
        cache.lookup("<math><msqrt><mn>2</mn></msqrt></math>"),
        Some(Some("sqrt(2)".to_string()))
    );
}

#[test]
fn failures_are_cached_too() {
    let mut cache = MathCache::new();
    assert_eq!(asciimath("<math><broken", &mut MathThread::new(), &mut cache), None);
    assert_eq!(cache.lookup("<math><broken"), Some(None));
    assert_eq!(cache.lookup("<math> <broken"), None);
}

#[test]
fn cache_drops_older_entries_when_it_is_full() {
    let mut thread = MathThread::new();
    let mut cache = MathCache::new();
    let large = "x".repeat(5 * 1024 * 1024);
    let other = "y".repeat(5 * 1024 * 1024);
    assert_eq!(asciimath(&large, &mut thread, &mut cache), None);
    assert_eq!(cache.lookup(&large), Some(None));
    assert_eq!(asciimath(&other, &mut thread, &mut cache), None);
    assert_eq!(cache.lookup(&large), None);
    assert_eq!(cache.lookup(&other), Some(None));
    // What is too large on its own leaves the cache as it is.
    let oversized = "z".repeat(8 * 1024 * 1024 + 1);
    assert_eq!(asciimath(&oversized, &mut thread, &mut cache), None);
    assert_eq!(cache.lookup(&oversized), None);
    assert_eq!(cache.lookup(&other), Some(None));
}

#[test]
fn dropped_expressions_are_rendered_alike_again() {
    let mut thread = MathThread::new();
    let mut cache = MathCache::new();
    let mathml = "<math><mfrac><mi>a</mi><mi>b</mi></mfrac></math>";
    let first = asciimath(mathml, &mut thread, &mut cache);
    let large = "x".repeat(8 * 1024 * 1024 - 8);
    assert_eq!(asciimath(&large, &mut thread, &mut cache), None);
    assert_eq!(cache.lookup(mathml), None);
    assert_eq!(asciimath(mathml, &mut MathThread::new(), &mut cache), first);
    assert_eq!(first.as_deref(), Some("a/b"));
}

#[test]
fn a_stored_rendering_is_kept() {
    let mut thread = MathThread::new();
    assert!(thread.prepare());
    let mathml = "<math><mi>x</mi></math>";
    let rendering = render(mathml, &thread);
    let mut cache = MathCache::new();
    cache.record(mathml, &rendering);
    cache.record(mathml, &render(mathml, &thread));
    assert_eq!(cache.lookup(mathml), Some(Some("x".to_string())));
}

#[test]
fn overlong_markup_is_not_rendered() {
    let engine = SpeechEngine::load().expect("embedded rules");
    let mathml = format!("<math><mtext>{}</mtext></math>", "a".repeat(1024 * 1024));
    let mut thread = MathThread::new();
    assert!(thread.prepare());
    assert_eq!(render(&mathml, &thread), None);
    assert_eq!(render("<math><mi>x</mi></math>", &thread).as_deref(), Some("x"));
    assert_eq!(speak(&mathml, &engine), None);
}

#[test]
fn answers_are_made_readable() {
    assert_eq!(render_answer(&Some(" x \n= 1 ".to_string())).as_deref(), Some("x = 1"));
    assert_eq!(render_answer(&Some("  ".to_string())), None);
    assert_eq!(render_answer(&None), None);
}

#[test]
fn sources_are_picked_in_order() {
    assert_eq!(pick_text(Some("r".into()), Some("a"), || "t".into()).as_deref(), Some("r"));
    assert_eq!(pick_text(None, Some(" a  b "), || unreachable!()).as_deref(), Some("a b"));
    assert_eq!(pick_text(None, Some(" "), || " t ".into()).as_deref(), Some("t"));
    assert_eq!(pick_text(None, None, || " ".into()), None);
}

#[test]
fn speaks_simple_expression() {
    let engine = SpeechEngine::load().expect("embedded rules");
    let spoken = speak_mathml(
        "<math><msqrt><mi>x</mi></msqrt></math>",
        &engine,
        &mut SpeechCache::new(),
    )
    .expect("MathCAT should speak a trivial expression");
    assert!(spoken.contains("square root"), "spoken text was: {spoken}");
}

#[test]
fn repeated_expressions_stay_available() {
    let engine = SpeechEngine::load().expect("embedded rules");
    let mut cache = SpeechCache::new();
    let mathml = "<math><mfrac><mi>a</mi><mi>b</mi></mfrac></math>";
    let first = speak_mathml(mathml, &engine, &mut cache);
    let second = speak_mathml(mathml, &engine, &mut cache);
    assert!(first.is_some());
    assert_eq!(first, second);
}

#[test]
fn indentation_does_not_matter_to_speech() {
    let engine = SpeechEngine::load().expect("embedded rules");
    let mut cache = SpeechCache::new();
    let spaced = "<math> <mi>x</mi> </math>";
    let spoken = speak(spaced, &engine);
    assert!(spoken.is_some());
    cache.record(spaced, &spoken);
    assert_eq!(cache.lookup("<math>\n\t<mi>x</mi>\n</math>"), Some(spoken));
    assert_eq!(cache.lookup("<math><mi>x</mi></math>"), None);
}

#[test]
fn speech_is_repeated_after_other_expressions() {
    let engine = SpeechEngine::load().expect("embedded rules");
    let mut cache = SpeechCache::new();
    let first = speak_mathml("<math> <mi>a</mi></math>", &engine, &mut cache);
    for other in ["<math><mi>b</mi></math>", "<math><nonsense", "<math><mn>2</mn></math>"] {
        let _ = speak_mathml(other, &engine, &mut cache);
    }
    assert_eq!(speak_mathml("<math>\n  <mi>a</mi></math>", &engine, &mut cache), first);
    assert_eq!(cache.lookup("<math> <mi>a</mi></math>"), Some(first));
}

#[test]
fn garbage_input_does_not_panic() {
    let engine = SpeechEngine::load().expect("embedded rules");
    let mut cache = SpeechCache::new();
    // Any result is fine as long as it returns; a later valid call must still work.
    let _ = speak_mathml("<math><nonsense", &engine, &mut cache);
    assert!(speak_mathml("<math><mn>2</mn></math>", &engine, &mut cache).is_some());
}

#[test]
fn speech_falls_back_to_the_author() {
    let engine = SpeechEngine::load().expect("embedded rules");
    let mut cache = SpeechCache::new();
    assert_eq!(
        spoken_math_text("<math><nonsense", Some(" a\nb "), || "raw".into(), &engine, &mut cache)
            .as_deref(),
        Some("a b")
    );
    assert_eq!(
        spoken_math_text("<math><nonsense", None, || " raw ".into(), &engine, &mut cache).as_deref(),
        Some("raw")
    );
    assert_eq!(spoken_math_text("<math><nonsense", None, String::new, &engine, &mut cache), None);
}

#[test]
fn normalize_fragment_strips_prefixes() {
    for (input, expected) in [
        ("<m:math><m:mi>x</m:mi></m:math>", "<math><mi>x</mi></math>"),
        ("<math:math><math:mi>x</math:mi></math:math>", "<math><mi>x</mi></math>"),
        ("<math><mi>x</mi></math>", "<math><mi>x</mi></math>"),
        (
            "<math xmlns=\"http://www.w3.org/1998/Math/MathML\"><mi>x</mi></math>",
            "<math xmlns=\"http://www.w3.org/1998/Math/MathML\"><mi>x</mi></math>",
        ),
    ] {
        assert_eq!(normalize_fragment(input.to_string()), expected);
    }
}

#[test]
fn normalize_fragment_keeps_other_prefixes() {
    assert_eq!(
        normalize_fragment("<m:math><s:title>x</s:title></m:math>".to_string()),
        "<math><s:title>x</s:title></math>"
    );
    // A prefix written twice is stripped once.
    assert_eq!(normalize_fragment("<m:math><m:m:mi/></m:math>".to_string()), "<math><m:mi/></math>");
}

#[test]
fn normalize_fragment_keeps_tags_that_end_in_white_space() {
    for space in [" ", "\n", "\t", "\r", "\r\n"] {
        let raw = format!("<math{space}xmlns:m=\"urn:m\"><mi>x</mi></math>");
        assert_eq!(normalize_fragment(raw.clone()), raw);
    }
}

#[test]
fn normalize_fragment_strips_every_name_that_xml_allows() {
    assert_eq!(
        normalize_fragment("<m\u{1680}n:math><m\u{1680}n:mi>x</m\u{1680}n:mi></m\u{1680}n:math>".to_string()),
        "<math><mi>x</mi></math>"
    );
}

#[test]
fn renderings_are_reused_after_other_expressions() {
    let mut thread = MathThread::new();
    let mut cache = MathCache::new();
    let first = asciimath("<math><mi>a</mi></math>", &mut thread, &mut cache);
    for other in ["<math> <mi>a</mi></math>", "<math><broken", "<math><mi>b</mi></math>"] {
        let _ = asciimath(other, &mut thread, &mut cache);
    }
    assert_eq!(asciimath("<math><mi>a</mi></math>", &mut MathThread::new(), &mut cache), first);
    assert_eq!(first.as_deref(), Some("a"));
}

#[test]
fn caches_take_over_entries() {
    let mut shared = MathCache::new();
    let x = "<math><mi>x</mi></math>";
    let rendering = asciimath(x, &mut MathThread::new(), &mut shared);
    assert_eq!(rendering.as_deref(), Some("x"));
    let mut local = MathCache::new();
    local.take_over(&shared, x);
    local.take_over(&shared, "<math/>");
    assert_eq!(local.lookup(x), Some(rendering));
    assert_eq!(local.lookup("<math/>"), None);

    let engine = SpeechEngine::load().expect("embedded rules");
    let mut spoken = SpeechCache::new();
    let speech = speak_mathml("<math> <mi>x</mi></math>", &engine, &mut spoken);
    let mut own = SpeechCache::new();
    own.take_over(&spoken, "<math>\n<mi>x</mi></math>");
    assert_eq!(own.lookup("<math> <mi>x</mi></math>"), Some(speech));
    own.take_over(&spoken, "<math/>");
    assert_eq!(own.lookup("<math/>"), None);
}
