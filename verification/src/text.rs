//! Character-level text helpers shared by the rest of the library.

use vstd::prelude::*;

verus! {

/// `String::push` appends one character to the end of the string.
pub assume_specification[ String::push ](s: &mut String, c: char)
    ensures
        final(s)@ == old(s)@.push(c),
;

/// The characters with the Unicode `White_Space` property.
pub open spec fn is_space(c: char) -> bool {
    ||| '\u{0009}' <= c <= '\u{000D}'
    ||| c == '\u{0020}'
    ||| c == '\u{0085}'
    ||| c == '\u{00A0}'
    ||| c == '\u{1680}'
    ||| '\u{2000}' <= c <= '\u{200A}'
    ||| '\u{2028}' <= c <= '\u{2029}'
    ||| c == '\u{202F}'
    ||| c == '\u{205F}'
    ||| c == '\u{3000}'
}

/// The characters that XML counts as white space.
pub open spec fn is_xml_space(c: char) -> bool {
    c == ' ' || c == '\t' || c == '\n' || c == '\r'
}

/// Quotation marks and the NUL that some callers leave around a path.
pub open spec fn is_wrapper(c: char) -> bool {
    c == '"' || c == '\'' || c == '\0'
}

/// The kinds of character that can be trimmed from the ends of a text.
#[derive(Clone, Copy, PartialEq, Eq, Structural)]
pub enum Trim {
    /// White space.
    Space,
    /// Quotation marks and NUL.
    Wrapper,
    /// The colon that ends the label of a control.
    Colon,
}

impl Trim {
    pub open spec fn accepts(self, c: char) -> bool {
        match self {
            Trim::Space => is_space(c),
            Trim::Wrapper => is_wrapper(c),
            Trim::Colon => c == ':',
        }
    }

    pub fn matches(self, c: char) -> (r: bool)
        ensures
            r == self.accepts(c),
    {
        match self {
            Trim::Space => is_whitespace(c),
            Trim::Wrapper => c == '"' || c == '\'' || c == '\0',
            Trim::Colon => c == ':',
        }
    }
}

/// Whether `c` has the Unicode `White_Space` property.
pub fn is_whitespace(c: char) -> (r: bool)
    ensures
        r == is_space(c),
{
    ('\u{0009}' <= c && c <= '\u{000D}') || c == '\u{0020}' || c == '\u{0085}' || c == '\u{00A0}'
        || c == '\u{1680}' || ('\u{2000}' <= c && c <= '\u{200A}') || ('\u{2028}' <= c && c
        <= '\u{2029}') || c == '\u{202F}' || c == '\u{205F}' || c == '\u{3000}'
}

/// Whether XML counts `c` as white space.
pub fn is_xml_whitespace(c: char) -> (r: bool)
    ensures
        r == is_xml_space(c),
{
    c == ' ' || c == '\t' || c == '\n' || c == '\r'
}

/// The characters of `s`, in order.
pub fn to_chars(s: &str) -> (r: Vec<char>)
    ensures
        r@ == s@,
{
    let mut out: Vec<char> = Vec::new();
    for c in it: s.chars()
        invariant
            out@ == it.seq().take(it.index() as int),
            it.seq() == s@,
    {
        out.push(c);
    }
    out
}

/// The text made of `chars[from..to]`.
pub fn from_chars(chars: &Vec<char>, from: usize, to: usize) -> (r: String)
    requires
        from <= to <= chars@.len(),
    ensures
        r@ == chars@.subrange(from as int, to as int),
{
    let mut out = String::new();
    let mut i: usize = from;
    while i < to
        invariant
            from <= i <= to <= chars@.len(),
            out@ == chars@.subrange(from as int, i as int),
        decreases to - i,
    {
        out.push(chars[i]);
        i += 1;
    }
    out
}

/// Whether two texts hold the same characters.
pub fn same_text(a: &str, b: &str) -> (r: bool)
    ensures
        r == (a@ == b@),
{
    a.to_owned() == b.to_owned()
}

/// `s` without its longest prefix of characters that `k` accepts.
pub open spec fn trim_start(s: Seq<char>, k: Trim) -> Seq<char>
    decreases s.len(),
{
    if s.len() > 0 && k.accepts(s.first()) {
        trim_start(s.drop_first(), k)
    } else {
        s
    }
}

/// `s` without its longest suffix of characters that `k` accepts.
pub open spec fn trim_end(s: Seq<char>, k: Trim) -> Seq<char>
    decreases s.len(),
{
    if s.len() > 0 && k.accepts(s.last()) {
        trim_end(s.drop_last(), k)
    } else {
        s
    }
}

/// `s` without the characters that `k` accepts at either end.
pub open spec fn trimmed(s: Seq<char>, k: Trim) -> Seq<char> {
    trim_end(trim_start(s, k), k)
}

/// Where the characters of `chars[from..]` that `k` accepts at the end start.
fn end_of_text(chars: &Vec<char>, from: usize, k: Trim) -> (to: usize)
    requires
        from <= chars@.len(),
    ensures
        from <= to <= chars@.len(),
        chars@.subrange(from as int, to as int) == trim_end(chars@.skip(from as int), k),
{
    let mut to: usize = chars.len();
    proof {
        assert(chars@.subrange(from as int, to as int) == chars@.skip(from as int));
    }
    while to > from && k.matches(chars[to - 1])
        invariant
            from <= to <= chars.len(),
            trim_end(chars@.subrange(from as int, to as int), k) == trim_end(
                chars@.skip(from as int),
                k,
            ),
        decreases to,
    {
        proof {
            assert(chars@.subrange(from as int, to as int).drop_last() == chars@.subrange(
                from as int,
                to - 1,
            ));
        }
        to -= 1;
    }
    to
}

/// `s` without the characters that `k` accepts at its end.
pub fn trim_end_matches(s: &str, k: Trim) -> (r: String)
    ensures
        r@ == trim_end(s@, k),
{
    let chars = to_chars(s);
    let to = end_of_text(&chars, 0, k);
    proof {
        assert(chars@.skip(0) == s@);
    }
    from_chars(&chars, 0, to)
}

/// `s` without the characters that `k` accepts at either end.
pub fn trim_matches(s: &str, k: Trim) -> (r: String)
    ensures
        r@ == trimmed(s@, k),
{
    let chars = to_chars(s);
    let mut from: usize = 0;
    proof {
        assert(s@.skip(0) == s@);
    }
    while from < chars.len() && k.matches(chars[from])
        invariant
            chars@ == s@,
            from <= chars.len(),
            trim_start(s@.skip(from as int), k) == trim_start(s@, k),
        decreases chars.len() - from,
    {
        proof {
            assert(s@.skip(from as int).drop_first() == s@.skip(from + 1));
        }
        from += 1;
    }
    proof {
        assert(s@.skip(from as int).len() > 0 ==> s@.skip(from as int).first() == s@[from as int]);
    }
    let to = end_of_text(&chars, from, k);
    from_chars(&chars, from, to)
}

/// `s` without leading and trailing white space.
pub fn trim_string(s: &str) -> (r: String)
    ensures
        r@ == trimmed(s@, Trim::Space),
{
    trim_matches(s, Trim::Space)
}

/// `s` with each run of white space replaced by one space.
pub open spec fn collapsed(s: Seq<char>) -> Seq<char>
    decreases s.len(),
{
    if s.len() == 0 {
        Seq::empty()
    } else if !is_space(s.last()) {
        collapsed(s.drop_last()).push(s.last())
    } else if s.len() >= 2 && is_space(s[s.len() - 2]) {
        collapsed(s.drop_last())
    } else {
        collapsed(s.drop_last()).push(' ')
    }
}

/// Replaces each run of white space by one space.
pub fn collapse_whitespace(s: &str) -> (r: String)
    ensures
        r@ == collapsed(s@),
{
    let chars = to_chars(s);
    let mut out = String::new();
    let mut i: usize = 0;
    while i < chars.len()
        invariant
            chars@ == s@,
            i <= chars.len(),
            out@ == collapsed(s@.take(i as int)),
        decreases chars.len() - i,
    {
        proof {
            assert(s@.take(i + 1).drop_last() == s@.take(i as int));
        }
        let c = chars[i];
        if !is_whitespace(c) {
            out.push(c);
        } else if i == 0 || !is_whitespace(chars[i - 1]) {
            out.push(' ');
        }
        i += 1;
    }
    proof {
        assert(s@.take(chars.len() as int) == s@);
    }
    out
}

/// The readable form of `s`: white space collapsed and trimmed, or `None` when nothing is left.
pub open spec fn normalized(s: Seq<char>) -> Option<Seq<char>> {
    let t = trimmed(collapsed(s), Trim::Space);
    if t.len() == 0 {
        None
    } else {
        Some(t)
    }
}

/// The view of an optional text.
pub open spec fn text_view(t: Option<String>) -> Option<Seq<char>> {
    match t {
        Some(s) => Some(s@),
        None => None,
    }
}

/// The views of a list of optional texts.
pub open spec fn text_views(ts: Seq<Option<String>>) -> Seq<Option<Seq<char>>> {
    ts.map_values(|t: Option<String>| text_view(t))
}

/// An optional text, or the empty text.
pub open spec fn or_empty(t: Option<Seq<char>>) -> Seq<char> {
    match t {
        Some(s) => s,
        None => Seq::empty(),
    }
}

/// The view of an optional borrowed text.
pub open spec fn str_view(t: Option<&str>) -> Option<Seq<char>> {
    match t {
        Some(s) => Some(s@),
        None => None,
    }
}

/// Collapses and trims white space; `None` when nothing is left.
pub fn normalized_text(s: &str) -> (r: Option<String>)
    ensures
        text_view(r) == normalized(s@),
{
    let text = trim_string(collapse_whitespace(s).as_str());
    if text.as_str().is_empty() {
        None
    } else {
        Some(text)
    }
}

/// Whether `pat` occurs in `s` at position `i`.
pub open spec fn occurs_at(s: Seq<char>, pat: Seq<char>, i: int) -> bool {
    0 <= i && i + pat.len() <= s.len() && s.subrange(i, i + pat.len()) == pat
}

/// `s` with every occurrence of `pat` replaced by `to`: occurrences are found from the left and
/// do not overlap.
pub open spec fn replaced(s: Seq<char>, pat: Seq<char>, to: Seq<char>) -> Seq<char>
    decreases s.len(),
{
    if s.len() == 0 || pat.len() == 0 {
        s
    } else if occurs_at(s, pat, 0) {
        to + replaced(s.skip(pat.len() as int), pat, to)
    } else {
        seq![s.first()] + replaced(s.skip(1), pat, to)
    }
}

/// Whether `pat` occurs in `chars` at position `i`.
fn pattern_at(chars: &Vec<char>, pat: &Vec<char>, i: usize) -> (r: bool)
    requires
        i <= chars@.len(),
    ensures
        r == occurs_at(chars@, pat@, i as int),
{
    if pat.len() > chars.len() - i {
        return false;
    }
    let mut j: usize = 0;
    while j < pat.len()
        invariant
            j <= pat.len(),
            i + pat.len() <= chars.len(),
            forall|k: int| 0 <= k < j ==> chars@[i + k] == pat@[k],
        decreases pat.len() - j,
    {
        if chars[i + j] != pat[j] {
            proof {
                assert(chars@.subrange(i as int, i + pat@.len())[j as int] != pat@[j as int]);
            }
            return false;
        }
        j += 1;
    }
    proof {
        assert(chars@.subrange(i as int, i + pat@.len()) =~= pat@);
    }
    true
}

/// Whether `s` starts with `prefix`.
pub fn starts_with(s: &str, prefix: &str) -> (r: bool)
    ensures
        r == occurs_at(s@, prefix@, 0),
{
    let chars = to_chars(s);
    let pattern = to_chars(prefix);
    pattern_at(&chars, &pattern, 0)
}

/// Replaces every occurrence of `pat`, found from the left without overlaps, by `to`.
pub fn replace_all(s: &str, pat: &str, to: &str) -> (r: String)
    requires
        pat@.len() > 0,
    ensures
        r@ == replaced(s@, pat@, to@),
{
    let chars = to_chars(s);
    let pattern = to_chars(pat);
    let mut out = String::new();
    let mut i: usize = 0;
    proof {
        assert(s@.skip(0) == s@);
    }
    while i < chars.len()
        invariant
            chars@ == s@,
            pattern@ == pat@,
            pat@.len() > 0,
            i <= chars.len(),
            out@ + replaced(s@.skip(i as int), pat@, to@) == replaced(s@, pat@, to@),
        decreases chars.len() - i,
    {
        let ghost rest = s@.skip(i as int);
        if pattern_at(&chars, &pattern, i) {
            proof {
                assert(rest.subrange(0, pat@.len() as int) == s@.subrange(i as int, i + pat@.len()));
                assert(rest.skip(pat@.len() as int) == s@.skip(i + pat@.len()));
            }
            out.append(to);
            i += pattern.len();
        } else {
            proof {
                if occurs_at(rest, pat@, 0) {
                    assert(rest.subrange(0, pat@.len() as int) == s@.subrange(
                        i as int,
                        i + pat@.len(),
                    ));
                }
                assert(rest.skip(1) == s@.skip(i + 1));
            }
            out.push(chars[i]);
            i += 1;
        }
    }
    proof {
        assert(s@.skip(chars.len() as int).len() == 0);
    }
    out
}

/// The last position in `s` of a character out of `set`, or -1.
pub open spec fn last_of(s: Seq<char>, set: Seq<char>) -> int
    decreases s.len(),
{
    if s.len() == 0 {
        -1
    } else if set.contains(s.last()) {
        s.len() - 1
    } else {
        last_of(s.drop_last(), set)
    }
}

/// Whether `c` is one of `set`.
pub fn is_one_of(c: char, set: &Vec<char>) -> (r: bool)
    ensures
        r == set@.contains(c),
{
    let mut i: usize = 0;
    while i < set.len()
        invariant
            i <= set.len(),
            forall|j: int| 0 <= j < i ==> set@[j] != c,
        decreases set.len() - i,
    {
        if set[i] == c {
            return true;
        }
        i += 1;
    }
    false
}

/// The position behind the last character of `chars` that is out of `set`, or 0.
pub fn after_last_of(chars: &Vec<char>, set: &Vec<char>) -> (r: usize)
    ensures
        r == last_of(chars@, set@) + 1,
        r <= chars@.len(),
{
    let mut i: usize = chars.len();
    proof {
        assert(chars@.take(i as int) == chars@);
    }
    while i > 0
        invariant
            i <= chars.len(),
            last_of(chars@, set@) == last_of(chars@.take(i as int), set@),
        decreases i,
    {
        proof {
            assert(chars@.take(i as int).drop_last() == chars@.take(i - 1));
        }
        if is_one_of(chars[i - 1], set) {
            return i;
        }
        i -= 1;
    }
    0
}

/// The decimal digit for `d`.
pub open spec fn digit(d: nat) -> char {
    (48 + d) as char
}

/// The decimal numeral of `n`.
pub open spec fn decimal(n: nat) -> Seq<char>
    decreases n,
{
    if n < 10 {
        seq![digit(n)]
    } else {
        decimal(n / 10).push(digit(n % 10))
    }
}

/// The decimal numeral of `n`.
pub fn decimal_text(n: u64) -> (r: String)
    ensures
        r@ == decimal(n as nat),
    decreases n,
{
    let d = (48 + (n % 10) as u8) as char;
    let mut out = if n < 10 {
        String::new()
    } else {
        decimal_text(n / 10)
    };
    out.push(d);
    out
}

/// The decimal numeral of `n`, with a minus sign where it is negative.
pub open spec fn signed_decimal(n: int) -> Seq<char> {
    if n < 0 {
        seq!['-'] + decimal((-n) as nat)
    } else {
        decimal(n as nat)
    }
}

/// The decimal numeral of `n`, with a minus sign where it is negative.
pub fn signed_decimal_text(n: i32) -> (r: String)
    ensures
        r@ == signed_decimal(n as int),
{
    if n < 0 {
        let mut out = String::new();
        out.push('-');
        out.append(decimal_text((-(n as i64)) as u64).as_str());
        out
    } else {
        decimal_text(n as u64)
    }
}

/// White space occurs in `s` only as single spaces.
pub open spec fn single_spaced(s: Seq<char>) -> bool {
    forall|i: int|
        #![trigger s[i]]
        0 <= i < s.len() && is_space(s[i]) ==> s[i] == ' ' && (i > 0 ==> !is_space(s[i - 1]))
}

/// Neither end of `s` is a character that `k` accepts.
pub open spec fn has_clean_ends(s: Seq<char>, k: Trim) -> bool {
    s.len() > 0 ==> !k.accepts(s.first()) && !k.accepts(s.last())
}

proof fn lemma_collapsed_shape(s: Seq<char>)
    ensures
        single_spaced(collapsed(s)),
        s.len() > 0 ==> collapsed(s).len() > 0 && is_space(collapsed(s).last()) == is_space(
            s.last(),
        ),
    decreases s.len(),
{
    if s.len() > 0 {
        lemma_collapsed_shape(s.drop_last());
    }
}

proof fn lemma_single_spaced_is_collapsed(s: Seq<char>)
    requires
        single_spaced(s),
    ensures
        collapsed(s) == s,
    decreases s.len(),
{
    if s.len() > 0 {
        let init = s.drop_last();
        assert(single_spaced(init)) by {
            assert forall|i: int| #![trigger init[i]] 0 <= i < init.len() && is_space(init[i]) implies init[i] == ' '
                && (i > 0 ==> !is_space(init[i - 1])) by {
                assert(init[i] == s[i]);
            }
        }
        lemma_single_spaced_is_collapsed(init);
        assert(s[s.len() - 1] == s.last());
        assert(s == init.push(s.last()));
    }
}

proof fn lemma_trim_start_part(s: Seq<char>, k: Trim) -> (from: int)
    ensures
        0 <= from <= s.len(),
        trim_start(s, k) == s.subrange(from, s.len() as int),
        from < s.len() ==> !k.accepts(s[from]),
    decreases s.len(),
{
    if s.len() > 0 && k.accepts(s.first()) {
        let rest = lemma_trim_start_part(s.drop_first(), k);
        assert(s.drop_first().subrange(rest, s.len() - 1) == s.subrange(
            rest + 1,
            s.len() as int,
        ));
        rest + 1
    } else {
        assert(s.subrange(0, s.len() as int) == s);
        0
    }
}

proof fn lemma_trim_end_part(s: Seq<char>, k: Trim) -> (to: int)
    ensures
        0 <= to <= s.len(),
        trim_end(s, k) == s.subrange(0, to),
        to > 0 ==> !k.accepts(s[to - 1]),
        s.len() > 0 && !k.accepts(s.first()) ==> to > 0,
    decreases s.len(),
{
    if s.len() > 0 && k.accepts(s.last()) {
        let to = lemma_trim_end_part(s.drop_last(), k);
        assert(s.drop_last().subrange(0, to) == s.subrange(0, to));
        to
    } else {
        assert(s.subrange(0, s.len() as int) == s);
        s.len() as int
    }
}

/// Trimming leaves a contiguous part of the text whose ends need no trimming.
pub proof fn lemma_trimmed_part(s: Seq<char>, k: Trim) -> (range: (int, int))
    ensures
        0 <= range.0 <= range.1 <= s.len(),
        trimmed(s, k) == s.subrange(range.0, range.1),
        has_clean_ends(trimmed(s, k), k),
{
    let from = lemma_trim_start_part(s, k);
    let tail = s.subrange(from, s.len() as int);
    let to = lemma_trim_end_part(tail, k);
    assert(tail.subrange(0, to) == s.subrange(from, from + to));
    let part = s.subrange(from, from + to);
    if part.len() > 0 {
        assert(part.first() == s[from]);
        assert(part.last() == tail[to - 1]);
    }
    (from, from + to)
}

/// A text whose ends need no trimming is its own trimmed form.
pub proof fn lemma_clean_ends_are_kept(s: Seq<char>, k: Trim)
    requires
        has_clean_ends(s, k),
    ensures
        trimmed(s, k) == s,
{
}

/// Characters that `k` accepts around a text whose ends need no trimming are trimmed away.
pub proof fn lemma_surroundings_are_trimmed(
    before: Seq<char>,
    s: Seq<char>,
    after: Seq<char>,
    k: Trim,
)
    requires
        s.len() > 0,
        has_clean_ends(s, k),
        forall|i: int| 0 <= i < before.len() ==> k.accepts(#[trigger] before[i]),
        forall|i: int| 0 <= i < after.len() ==> k.accepts(#[trigger] after[i]),
    ensures
        trimmed(before + s + after, k) == s,
    decreases before.len() + after.len(),
{
    let whole = before + s + after;
    if before.len() > 0 {
        assert(whole.first() == before[0]);
        assert(whole.drop_first() == before.drop_first() + s + after);
        lemma_surroundings_are_trimmed(before.drop_first(), s, after, k);
    } else if after.len() > 0 {
        assert(whole.first() == s[0]);
        assert(whole.last() == after.last());
        assert(whole.drop_last() == before + s + after.drop_last());
        assert(trim_start(whole, k) == whole);
        assert(whole.drop_last().first() == s[0]);
        assert(trim_start(whole.drop_last(), k) == whole.drop_last());
        lemma_surroundings_are_trimmed(before, s, after.drop_last(), k);
    } else {
        assert(whole == s);
        lemma_clean_ends_are_kept(s, k);
    }
}

/// A text to read out: it is not empty, starts and ends with visible characters, and holds white
/// space only as single spaces.
pub open spec fn is_readable(t: Seq<char>) -> bool {
    &&& t.len() > 0
    &&& has_clean_ends(t, Trim::Space)
    &&& single_spaced(t)
}

/// Normalized text is readable.
pub proof fn law_normalized_is_readable(s: Seq<char>)
    ensures
        normalized(s) matches Some(t) ==> is_readable(t),
{
    let c = collapsed(s);
    lemma_collapsed_shape(s);
    let (from, to) = lemma_trimmed_part(c, Trim::Space);
    let t = c.subrange(from, to);
    assert forall|i: int| #![trigger t[i]] 0 <= i < t.len() && is_space(t[i]) implies t[i] == ' ' && (i > 0
        ==> !is_space(t[i - 1])) by {
        assert(t[i] == c[from + i]);
        if i > 0 {
            assert(t[i - 1] == c[from + i - 1]);
        }
    }
}

/// Normalizing a text twice gives what normalizing it once gives.
pub proof fn law_normalizing_twice_changes_nothing(s: Seq<char>)
    ensures
        normalized(s) matches Some(t) ==> normalized(t) == Some(t),
{
    law_normalized_is_readable(s);
    if let Some(t) = normalized(s) {
        lemma_single_spaced_is_collapsed(t);
        lemma_clean_ends_are_kept(t, Trim::Space);
    }
}

/// A text in which the pattern does not occur is left as it is.
pub proof fn law_replacing_nothing_changes_nothing(s: Seq<char>, pat: Seq<char>, to: Seq<char>)
    requires
        forall|i: int| !occurs_at(s, pat, i),
    ensures
        replaced(s, pat, to) == s,
    decreases s.len(),
{
    if s.len() > 0 && pat.len() > 0 {
        let rest = s.skip(1);
        assert forall|i: int| !occurs_at(rest, pat, i) by {
            if occurs_at(rest, pat, i) {
                assert(rest.subrange(i, i + pat.len()) == s.subrange(i + 1, i + 1 + pat.len()));
                assert(occurs_at(s, pat, i + 1));
            }
        }
        law_replacing_nothing_changes_nothing(rest, pat, to);
        assert(seq![s.first()] + rest == s);
    }
}

/// Every character of `s` is one that `k` accepts.
pub open spec fn all_accepted(s: Seq<char>, k: Trim) -> bool {
    forall|i: int| 0 <= i < s.len() ==> k.accepts(#[trigger] s[i])
}

proof fn lemma_trim_start_cuts(s: Seq<char>, k: Trim) -> (cut: Seq<char>)
    ensures
        s == cut + trim_start(s, k),
        all_accepted(cut, k),
        trim_start(s, k).len() > 0 ==> !k.accepts(trim_start(s, k).first()),
    decreases s.len(),
{
    if s.len() > 0 && k.accepts(s.first()) {
        let cut = lemma_trim_start_cuts(s.drop_first(), k);
        let whole = seq![s.first()] + cut;
        assert(whole + trim_start(s, k) =~= seq![s.first()] + s.drop_first());
        assert(seq![s.first()] + s.drop_first() =~= s);
        whole
    } else {
        assert(Seq::<char>::empty() + s =~= s);
        Seq::empty()
    }
}

proof fn lemma_trim_end_cuts(s: Seq<char>, k: Trim) -> (cut: Seq<char>)
    ensures
        s == trim_end(s, k) + cut,
        all_accepted(cut, k),
        trim_end(s, k).len() > 0 ==> !k.accepts(trim_end(s, k).last()),
    decreases s.len(),
{
    if s.len() > 0 && k.accepts(s.last()) {
        let cut = lemma_trim_end_cuts(s.drop_last(), k);
        let whole = cut + seq![s.last()];
        assert(trim_end(s, k) + whole =~= s.drop_last() + seq![s.last()]);
        assert(s.drop_last() + seq![s.last()] =~= s);
        whole
    } else {
        assert(s + Seq::<char>::empty() =~= s);
        Seq::empty()
    }
}

/// What is left by trimming, between what it cuts off.
pub proof fn lemma_trimmed_ends(s: Seq<char>, k: Trim)
    ensures
        exists|before: Seq<char>, after: Seq<char>|
            #![trigger all_accepted(before, k), all_accepted(after, k)]
            s == before + trimmed(s, k) + after && all_accepted(before, k) && all_accepted(after, k),
        trimmed(s, k).len() > 0 ==> !k.accepts(trimmed(s, k).first()) && !k.accepts(
            trimmed(s, k).last(),
        ),
{
    let rest = trim_start(s, k);
    let before = lemma_trim_start_cuts(s, k);
    let after = lemma_trim_end_cuts(rest, k);
    let t = trimmed(s, k);
    assert(s =~= before + t + after);
    if t.len() > 0 {
        assert(rest.first() == t.first());
    }
}

/// Trimming cuts off accepted characters at both ends, all of them and nothing else: the text is what was
/// cut off in front, what is left, and what was cut off behind, and what is left starts and ends with
/// characters that are not accepted.
pub proof fn law_trimming_cuts_the_ends(s: &str, k: Trim, r: String)
    requires
        call_ensures(trim_matches, (s, k), r),
    ensures
        exists|before: Seq<char>, after: Seq<char>|
            #![trigger all_accepted(before, k), all_accepted(after, k)]
            s@ == before + r@ + after && all_accepted(before, k) && all_accepted(after, k),
        r@.len() > 0 ==> !k.accepts(r@.first()) && !k.accepts(r@.last()),
{
    lemma_trimmed_ends(s@, k);
}

/// Trimming white space cuts it off at both ends.
pub proof fn law_trimmed_string(s: &str, r: String)
    requires
        call_ensures(trim_string, (s,), r),
    ensures
        exists|before: Seq<char>, after: Seq<char>|
            #![trigger all_accepted(before, Trim::Space), all_accepted(after, Trim::Space)]
            s@ == before + r@ + after && all_accepted(before, Trim::Space) && all_accepted(
                after,
                Trim::Space,
            ),
        r@.len() > 0 ==> !is_space(r@.first()) && !is_space(r@.last()),
{
    lemma_trimmed_ends(s@, Trim::Space);
}

/// Trimming the end leaves the front alone and cuts off accepted characters behind, all of them and
/// nothing else.
pub proof fn law_trimming_cuts_the_end(s: &str, k: Trim, r: String)
    requires
        call_ensures(trim_end_matches, (s, k), r),
    ensures
        exists|after: Seq<char>| s@ == r@ + after && #[trigger] all_accepted(after, k),
        r@.len() > 0 ==> !k.accepts(r@.last()),
{
    let after = lemma_trim_end_cuts(s@, k);
    assert(all_accepted(after, k));
}

/// What counts as white space, and what is trimmed: the characters with Unicode's `White_Space` property;
/// double and single quotation marks and NUL; the colon; and for XML the four characters that XML names.
pub proof fn law_kinds_of_characters(c: char, space: bool, xml_space: bool)
    requires
        call_ensures(is_whitespace, (c,), space),
        call_ensures(is_xml_whitespace, (c,), xml_space),
    ensures
        space == Trim::Space.accepts(c),
        space <==> {
            let code = c as u32;
            ||| 9 <= code <= 13
            ||| code == 32
            ||| code == 133
            ||| code == 160
            ||| code == 5760
            ||| 8192 <= code <= 8202
            ||| code == 8232
            ||| code == 8233
            ||| code == 8239
            ||| code == 8287
            ||| code == 12288
        },
        Trim::Wrapper.accepts(c) <==> c as u32 == 34 || c as u32 == 39 || c as u32 == 0,
        Trim::Colon.accepts(c) <==> c as u32 == 58,
        xml_space <==> c as u32 == 9 || c as u32 == 10 || c as u32 == 13 || c as u32 == 32,
{
}

proof fn lemma_collapsed_of_parts(a: Seq<char>, b: Seq<char>)
    requires
        a.len() > 0 && b.len() > 0 ==> !(is_space(a.last()) && is_space(b.first())),
    ensures
        collapsed(a + b) == collapsed(a) + collapsed(b),
    decreases b.len(),
{
    if b.len() == 0 {
        assert(a + b =~= a);
        assert(collapsed(a) + collapsed(b) =~= collapsed(a));
    } else {
        let init = b.drop_last();
        assert((a + b).drop_last() =~= a + init);
        assert((a + b).last() == b.last());
        if init.len() > 0 {
            assert(init.first() == b.first());
            assert((a + b)[(a + b).len() - 2] == b[b.len() - 2]);
        } else if a.len() > 0 {
            assert((a + b)[(a + b).len() - 2] == a.last());
            assert(b.first() == b.last());
        }
        lemma_collapsed_of_parts(a, init);
        assert(collapsed(a + b) =~= collapsed(a) + collapsed(b));
    }
}

proof fn lemma_collapsed_run(run: Seq<char>)
    requires
        run.len() > 0,
        all_accepted(run, Trim::Space),
    ensures
        collapsed(run) == seq![' '],
    decreases run.len(),
{
    assert(Trim::Space.accepts(run[run.len() - 1]));
    if run.len() > 1 {
        assert(Trim::Space.accepts(run[run.len() - 2]));
        assert forall|i: int| 0 <= i < run.drop_last().len() implies Trim::Space.accepts(
            #[trigger] run.drop_last()[i],
        ) by {
            assert(run.drop_last()[i] == run[i]);
        }
        lemma_collapsed_run(run.drop_last());
    } else {
        assert(collapsed(run.drop_last()).len() == 0);
        assert(collapsed(run) =~= seq![' ']);
    }
}

/// Collapsing replaces each run of white space by one space and touches nothing else: it works on the
/// parts of a text one by one, turns a run of white space into a single space, and keeps a text without
/// white space.
pub proof fn law_runs_of_space_collapse(
    before: Seq<char>,
    run: Seq<char>,
    after: Seq<char>,
    word: Seq<char>,
)
    requires
        before.len() > 0 ==> !is_space(before.last()),
        run.len() > 0,
        all_accepted(run, Trim::Space),
        after.len() > 0 ==> !is_space(after.first()),
        forall|i: int| 0 <= i < word.len() ==> !is_space(#[trigger] word[i]),
    ensures
        collapsed(before + run + after) == collapsed(before) + seq![' '] + collapsed(after),
        collapsed(word) == word,
{
    assert(Trim::Space.accepts(run[0]));
    assert(Trim::Space.accepts(run[run.len() - 1]));
    lemma_collapsed_run(run);
    lemma_collapsed_of_parts(before, run);
    assert((before + run).last() == run.last());
    lemma_collapsed_of_parts(before + run, after);
    lemma_single_spaced_is_collapsed(word);
}

/// The readable form of a text is the text with its white space collapsed and cut off at the ends; there
/// is none exactly if the text is all white space.
pub proof fn law_readable_form(s: &str, collapsed_text: String, r: Option<String>)
    requires
        call_ensures(collapse_whitespace, (s,), collapsed_text),
        call_ensures(normalized_text, (s,), r),
    ensures
        collapsed_text@ == collapsed(s@),
        r is None <==> all_accepted(s@, Trim::Space),
        r matches Some(t) ==> is_readable(t@) && exists|before: Seq<char>, after: Seq<char>|
            #![trigger all_accepted(before, Trim::Space), all_accepted(after, Trim::Space)]
            collapsed(s@) == before + t@ + after && all_accepted(before, Trim::Space)
                && all_accepted(after, Trim::Space),
{
    let c = collapsed(s@);
    law_normalized_is_readable(s@);
    let rest = trim_start(c, Trim::Space);
    let before = lemma_trim_start_cuts(c, Trim::Space);
    let after = lemma_trim_end_cuts(rest, Trim::Space);
    let t = trimmed(c, Trim::Space);
    assert(c =~= before + t + after);
    lemma_spaces_stay_spaces(s@);
    if t.len() == 0 {
        assert forall|i: int| 0 <= i < c.len() implies Trim::Space.accepts(#[trigger] c[i]) by {
            if i < before.len() {
                assert(c[i] == before[i]);
            } else {
                assert(c[i] == after[i - before.len()]);
            }
        }
    } else {
        assert(c[before.len() as int] == t[0]);
        assert(!Trim::Space.accepts(c[before.len() as int]));
    }
}

proof fn lemma_spaces_stay_spaces(s: Seq<char>)
    ensures
        all_accepted(s, Trim::Space) <==> all_accepted(collapsed(s), Trim::Space),
    decreases s.len(),
{
    if s.len() > 0 {
        let init = s.drop_last();
        lemma_spaces_stay_spaces(init);
        let c = collapsed(s);
        let d = collapsed(init);
        if all_accepted(s, Trim::Space) {
            assert forall|i: int| 0 <= i < init.len() implies Trim::Space.accepts(
                #[trigger] init[i],
            ) by {
                assert(init[i] == s[i]);
            }
            assert(Trim::Space.accepts(s[s.len() - 1]));
            assert forall|i: int| 0 <= i < c.len() implies Trim::Space.accepts(#[trigger] c[i]) by {
                if i < d.len() {
                    assert(c[i] == d[i]);
                }
            }
        }
        if all_accepted(c, Trim::Space) {
            assert forall|i: int| 0 <= i < d.len() implies Trim::Space.accepts(#[trigger] d[i]) by {
                assert(d[i] == c[i]);
            }
            if !is_space(s.last()) {
                assert(c[c.len() - 1] == s.last());
                assert(Trim::Space.accepts(c[c.len() - 1]));
            }
            assert forall|i: int| 0 <= i < s.len() implies Trim::Space.accepts(#[trigger] s[i]) by {
                if i < init.len() {
                    assert(init[i] == s[i]);
                }
            }
        }
    }
}

pub proof fn lemma_first_occurrence(
    before: Seq<char>,
    pat: Seq<char>,
    after: Seq<char>,
    to: Seq<char>,
)
    requires
        pat.len() > 0,
        forall|i: int| 0 <= i < before.len() ==> !occurs_at(before + pat + after, pat, i),
    ensures
        replaced(before + pat + after, pat, to) == before + to + replaced(after, pat, to),
    decreases before.len(),
{
    let whole = before + pat + after;
    if before.len() == 0 {
        assert(whole.subrange(0, pat.len() as int) =~= pat);
        assert(whole.skip(pat.len() as int) =~= after);
        assert(replaced(whole, pat, to) =~= before + to + replaced(after, pat, to));
    } else {
        let rest = before.drop_first();
        let tail = rest + pat + after;
        assert(whole.skip(1) =~= tail);
        assert(!occurs_at(whole, pat, 0));
        assert forall|i: int| 0 <= i < rest.len() implies !occurs_at(tail, pat, i) by {
            if occurs_at(tail, pat, i) {
                assert(tail.subrange(i, i + pat.len()) =~= whole.subrange(
                    i + 1,
                    i + 1 + pat.len(),
                ));
                assert(occurs_at(whole, pat, i + 1));
            }
        }
        lemma_first_occurrence(rest, pat, after, to);
        assert(whole.first() == before.first());
        assert(seq![before.first()] + rest =~= before);
        assert(replaced(whole, pat, to) =~= before + to + replaced(after, pat, to));
    }
}

/// Replacing works from the left: what stands before the first occurrence is kept, the occurrence is
/// replaced, and what stands behind it is dealt with in the same way. A text without an occurrence is
/// kept.
pub proof fn law_occurrences_are_replaced_from_the_left(
    s: &str,
    pat: &str,
    to: &str,
    r: String,
    before: Seq<char>,
    after: Seq<char>,
)
    requires
        pat@.len() > 0,
        call_ensures(replace_all, (s, pat, to), r),
    ensures
        s@ == before + pat@ + after && (forall|i: int|
            0 <= i < before.len() ==> !occurs_at(s@, pat@, i)) ==> r@ == before + to@ + replaced(
            after,
            pat@,
            to@,
        ),
        (forall|i: int| !occurs_at(s@, pat@, i)) ==> r@ == s@,
{
    if s@ == before + pat@ + after && forall|i: int|
        0 <= i < before.len() ==> !occurs_at(s@, pat@, i) {
        lemma_first_occurrence(before, pat@, after, to@);
    }
    if forall|i: int| !occurs_at(s@, pat@, i) {
        law_replacing_nothing_changes_nothing(s@, pat@, to@);
    }
}

/// A pattern occurs at a place if its characters stand there, and a text starts with a prefix if its
/// first characters are those of the prefix.
pub proof fn law_prefix_is_compared(s: &str, prefix: &str, r: bool, i: int)
    requires
        call_ensures(starts_with, (s, prefix), r),
    ensures
        r <==> prefix@.len() <= s@.len() && forall|k: int|
            0 <= k < prefix@.len() ==> s@[k] == #[trigger] prefix@[k],
        occurs_at(s@, prefix@, i) <==> 0 <= i && i + prefix@.len() <= s@.len() && forall|k: int|
            0 <= k < prefix@.len() ==> s@[i + k] == #[trigger] prefix@[k],
{
    if prefix@.len() <= s@.len() {
        let part = s@.subrange(0, prefix@.len() as int);
        assert forall|k: int| 0 <= k < prefix@.len() implies part[k] == s@[k] by {}
        if forall|k: int| 0 <= k < prefix@.len() ==> s@[k] == #[trigger] prefix@[k] {
            assert(part =~= prefix@);
        }
    }
    if 0 <= i && i + prefix@.len() <= s@.len() {
        let part = s@.subrange(i, i + prefix@.len());
        assert forall|k: int| 0 <= k < prefix@.len() implies part[k] == s@[i + k] by {}
        if forall|k: int| 0 <= k < prefix@.len() ==> s@[i + k] == #[trigger] prefix@[k] {
            assert(part =~= prefix@);
        }
    }
}

/// The last position of one of several characters: one of them stands there, and none behind it; it is -1
/// if none of them occurs.
pub proof fn law_last_position(s: Seq<char>, set: Seq<char>)
    ensures
        -1 <= last_of(s, set) < s.len(),
        last_of(s, set) >= 0 ==> set.contains(s[last_of(s, set)]),
        forall|i: int| last_of(s, set) < i < s.len() ==> !set.contains(#[trigger] s[i]),
    decreases s.len(),
{
    if s.len() > 0 && !set.contains(s.last()) {
        law_last_position(s.drop_last(), set);
        assert forall|i: int| last_of(s, set) < i < s.len() implies !set.contains(
            #[trigger] s[i],
        ) by {
            if i < s.len() - 1 {
                assert(s.drop_last()[i] == s[i]);
            }
        }
    }
}

/// The number that a row of decimal digits stands for.
pub open spec fn digits_value(s: Seq<char>) -> int
    decreases s.len(),
{
    if s.len() == 0 {
        0
    } else {
        10 * digits_value(s.drop_last()) + (s.last() as int - '0' as int)
    }
}

/// `s` is a numeral: decimal digits without a leading zero, but for zero itself.
pub open spec fn is_numeral(s: Seq<char>) -> bool {
    &&& s.len() > 0
    &&& forall|i: int| 0 <= i < s.len() ==> '0' <= #[trigger] s[i] <= '9'
    &&& s.len() > 1 ==> s[0] != '0'
}

proof fn lemma_decimal_value(n: nat)
    ensures
        is_numeral(decimal(n)),
        digits_value(decimal(n)) == n,
        n > 0 ==> decimal(n)[0] != '0',
    decreases n,
{
    let d = digit(n % 10);
    assert(d as int == 48 + n % 10);
    if n < 10 {
        let s = seq![digit(n)];
        assert(digit(n) as int == 48 + n);
        assert(s.drop_last().len() == 0);
        assert(digits_value(s.drop_last()) == 0);
    } else {
        lemma_decimal_value(n / 10);
        let s = decimal(n);
        assert(s.drop_last() =~= decimal(n / 10));
        assert forall|i: int| 0 <= i < s.len() implies '0' <= #[trigger] s[i] <= '9' by {
            if i < s.len() - 1 {
                assert(s[i] == decimal(n / 10)[i]);
            }
        }
        assert(s[0] == decimal(n / 10)[0]);
    }
}

/// A number is written as the decimal numeral that stands for it, a negative one as a minus sign in front
/// of the numeral for its amount.
pub proof fn law_numerals_stand_for_their_numbers(n: u64, r: String, m: i32, signed: String)
    requires
        call_ensures(decimal_text, (n,), r),
        call_ensures(signed_decimal_text, (m,), signed),
    ensures
        is_numeral(r@),
        digits_value(r@) == n,
        m >= 0 ==> is_numeral(signed@) && digits_value(signed@) == m,
        m < 0 ==> signed@.len() > 0 && signed@[0] == '-' && is_numeral(signed@.skip(1))
            && digits_value(signed@.skip(1)) == -m,
{
    lemma_decimal_value(n as nat);
    if m >= 0 {
        lemma_decimal_value(m as nat);
    } else {
        lemma_decimal_value((-m) as nat);
        assert(signed@.skip(1) =~= decimal((-m) as nat));
    }
}

/// The small tools: a part of a text, the comparison of two texts, and the place behind the last of some
/// characters.
pub proof fn law_parts_of_texts(
    chars: Vec<char>,
    from: usize,
    to: usize,
    part: String,
    a: &str,
    b: &str,
    same: bool,
    listed: Vec<char>,
    behind: usize,
    c: char,
    found: bool,
    all: Vec<char>,
)
    requires
        from <= to <= chars@.len(),
        call_ensures(from_chars, (&chars, from, to), part),
        call_ensures(to_chars, (a,), all),
        call_ensures(same_text, (a, b), same),
        call_ensures(after_last_of, (&chars, &listed), behind),
        call_ensures(is_one_of, (c, &listed), found),
    ensures
        part@.len() == to - from,
        forall|i: int| 0 <= i < part@.len() ==> #[trigger] part@[i] == chars@[from + i],
        all@ == a@,
        same <==> a@.len() == b@.len() && forall|i: int|
            0 <= i < a@.len() ==> #[trigger] a@[i] == b@[i],
        found <==> exists|i: int| 0 <= i < listed@.len() && #[trigger] listed@[i] == c,
        behind <= chars@.len(),
        behind > 0 ==> listed@.contains(chars@[behind - 1]),
        forall|i: int| behind <= i < chars@.len() ==> !listed@.contains(#[trigger] chars@[i]),
{
    law_last_position(chars@, listed@);
    if a@.len() == b@.len() && forall|i: int| 0 <= i < a@.len() ==> #[trigger] a@[i] == b@[i] {
        assert(a@ =~= b@);
    }
}

} // verus!
