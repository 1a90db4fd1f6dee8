//! Text as sequences of characters: searching, trimming, splitting and joining.
//!
//! A `str` or `String` is modelled by its sequence of `char`s. The functions
//! here give each text operation that the rest of the library needs a direct
//! statement over such sequences.
use vstd::prelude::*;

verus! {

/// `String::push` appends one character at the end of the text.
pub assume_specification[ String::push ](s: &mut String, c: char)
    ensures
        final(s)@ == old(s)@.push(c),
;

/// `std::str::from_utf8` accepts exactly the valid UTF-8 byte sequences, and
/// gives the text that they encode.
#[verifier::external_body]
pub(crate) fn from_utf8(data: &[u8]) -> (r: Option<String>)
    ensures
        r is Some <==> vstd::utf8::valid_utf8(data@),
        r matches Some(text) ==> vstd::utf8::encode_utf8(text@) == data@,
{
    std::str::from_utf8(data).ok().map(|text| text.to_string())
}

/// What `String::from_utf8_lossy` makes of a byte sequence.
pub uninterp spec fn utf8_lossy(data: Seq<u8>) -> Seq<char>;

/// `String::from_utf8_lossy`: the text that valid UTF-8 encodes; elsewhere
/// replacement characters stand for what is not valid. The text depends on the
/// bytes alone.
#[verifier::external_body]
fn from_utf8_lossy(data: &[u8]) -> (r: String)
    ensures
        r@ == utf8_lossy(data@),
        vstd::utf8::valid_utf8(data@) ==> r@ == vstd::utf8::decode_utf8(data@),
{
    String::from_utf8_lossy(data).into_owned()
}

/// The text that bytes stand for: the one that they encode, and where they are no
/// UTF-8 one with replacement characters.
pub open spec fn shown_text(data: Seq<u8>) -> Seq<char> {
    if vstd::utf8::valid_utf8(data) {
        vstd::utf8::decode_utf8(data)
    } else {
        utf8_lossy(data)
    }
}

/// The text that bytes stand for.
pub fn show_bytes(data: &[u8]) -> (r: String)
    ensures
        r@ == shown_text(data@),
{
    from_utf8_lossy(data)
}

/// What `str::to_lowercase` makes of a text.
pub uninterp spec fn lowercase(original: Seq<char>) -> Seq<char>;

/// `str::to_lowercase`: the text in lower case, by the Unicode tables. The
/// result depends on the text alone.
#[verifier::external_body]
pub(crate) fn to_lowercase(original: &str) -> (r: String)
    ensures
        r@ == lowercase(original@),
{
    original.to_lowercase()
}

/// The texts held by a sequence of strings.
pub open spec fn views(strings: Seq<String>) -> Seq<Seq<char>> {
    Seq::new(strings.len(), |i: int| strings[i]@)
}

/// The text held by an optional string.
pub open spec fn opt_view(text: Option<String>) -> Option<Seq<char>> {
    match text {
        Some(text) => Some(text@),
        None => None,
    }
}

/// The text held by an optional string slice.
pub open spec fn opt_str_view(text: Option<&str>) -> Option<Seq<char>> {
    match text {
        Some(text) => Some(text@),
        None => None,
    }
}

/// The characters of `text`.
pub fn chars_of(text: &str) -> (r: Vec<char>)
    ensures
        r@ == text@,
{
    let mut out: Vec<char> = Vec::new();
    for c in it: text.chars()
        invariant
            it.seq() == text@,
            out@ == text@.take(it.index()),
    {
        proof {
            assert(text@.take(it.index() + 1) =~= text@.take(it.index()).push(text@[it.index()]));
        }
        out.push(c);
    }
    assert(text@.take(text@.len() as int) =~= text@);
    out
}

/// The text made of `chars`.
pub fn from_chars(chars: &[char]) -> (r: String)
    ensures
        r@ == chars@,
{
    let mut out = String::new();
    let mut i: usize = 0;
    while i < chars.len()
        invariant
            i <= chars@.len(),
            out@ == chars@.take(i as int),
        decreases chars@.len() - i,
    {
        assert(chars@.take(i + 1) =~= chars@.take(i as int).push(chars@[i as int]));
        out.push(chars[i]);
        i += 1;
    }
    assert(chars@.take(chars@.len() as int) =~= chars@);
    out
}

/// The text made of the characters `from..to` of `chars`.
pub fn from_range(chars: &[char], from: usize, to: usize) -> (r: String)
    requires
        from <= to <= chars@.len(),
    ensures
        r@ == chars@.subrange(from as int, to as int),
{
    let mut out = String::new();
    let mut i: usize = from;
    while i < to
        invariant
            from <= i <= to <= chars@.len(),
            out@ == chars@.subrange(from as int, i as int),
        decreases to - i,
    {
        assert(chars@.subrange(from as int, i + 1) =~= chars@.subrange(from as int, i as int).push(
            chars@[i as int],
        ));
        out.push(chars[i]);
        i += 1;
    }
    out
}

/// A copy of `text`.
pub fn copied(text: &str) -> (r: String)
    ensures
        r@ == text@,
{
    text.to_owned()
}

/// A text and another behind it.
pub fn chained(first: &str, second: &str) -> (r: String)
    ensures
        r@ == first@ + second@,
{
    let mut out = copied(first);
    out.append(second);
    out
}

/// Whether the two texts are equal.
pub fn same(a: &str, b: &str) -> (r: bool)
    ensures
        r == (a@ == b@),
{
    a.to_owned() == b.to_owned()
}

/// Whether `part` stands in `text` at character `at`.
pub open spec fn occurs_at(text: Seq<char>, part: Seq<char>, at: int) -> bool {
    &&& 0 <= at <= text.len() - part.len()
    &&& text.subrange(at, at + part.len()) == part
}

/// Whether `part` stands somewhere in `text`.
pub open spec fn contains(text: Seq<char>, part: Seq<char>) -> bool {
    exists|at: int| occurs_at(text, part, at)
}

/// Whether `part` stands in `text` at character `at`.
pub fn matches_at(text: &[char], part: &[char], at: usize) -> (r: bool)
    ensures
        r == occurs_at(text@, part@, at as int),
{
    if at > text.len() || part.len() > text.len() - at {
        return false;
    }
    let mut i: usize = 0;
    assert(text.len() <= usize::MAX);
    while i < part.len()
        invariant
            i <= part@.len(),
            at + part@.len() <= text@.len(),
            text@.len() <= usize::MAX,
            forall|j: int| 0 <= j < i ==> text@[at + j] == part@[j],
        decreases part@.len() - i,
    {
        if text[at + i] != part[i] {
            assert(text@.subrange(at as int, at + part@.len())[i as int] != part@[i as int]);
            return false;
        }
        i += 1;
    }
    assert(text@.subrange(at as int, at + part@.len()) =~= part@);
    true
}

/// Whether `text` starts with `prefix`.
pub fn starts_with(text: &str, prefix: &str) -> (r: bool)
    ensures
        r == prefix@.is_prefix_of(text@),
{
    let chars = chars_of(text);
    let part = chars_of(prefix);
    matches_at(&chars, &part, 0)
}

/// Whether `part` stands somewhere in `text`.
pub fn contains_text(text: &str, part: &str) -> (r: bool)
    ensures
        r == contains(text@, part@),
{
    let chars = chars_of(text);
    let part_chars = chars_of(part);
    let mut at: usize = 0;
    while at < chars.len()
        invariant
            chars@ == text@,
            part_chars@ == part@,
            at <= chars@.len(),
            forall|k: int| 0 <= k < at ==> !occurs_at(text@, part@, k),
        decreases chars@.len() - at,
    {
        if matches_at(&chars, &part_chars, at) {
            return true;
        }
        at += 1;
    }
    matches_at(&chars, &part_chars, at)
}

/// `text` without the leading `prefix`, where it has it.
pub fn strip_prefix(text: &str, prefix: &str) -> (r: Option<String>)
    ensures
        r is Some <==> prefix@.is_prefix_of(text@),
        r matches Some(rest) ==> rest@ == text@.skip(prefix@.len() as int),
{
    let chars = chars_of(text);
    let part = chars_of(prefix);
    if matches_at(&chars, &part, 0) {
        let rest = from_range(&chars, part.len(), chars.len());
        assert(rest@ =~= text@.skip(prefix@.len() as int));
        Some(rest)
    } else {
        None
    }
}

/// Whether the first text comes before the second, character by character.
pub open spec fn less(a: Seq<char>, b: Seq<char>) -> bool
    decreases a.len(),
{
    if b.len() == 0 {
        false
    } else if a.len() == 0 {
        true
    } else if a[0] != b[0] {
        a[0] < b[0]
    } else {
        less(a.skip(1), b.skip(1))
    }
}

/// No text comes before itself.
pub proof fn lemma_less_irreflexive(a: Seq<char>)
    ensures
        !less(a, a),
    decreases a.len(),
{
    if a.len() > 0 {
        lemma_less_irreflexive(a.skip(1));
    }
}

/// Of two texts at most one comes before the other.
pub proof fn lemma_less_asymmetric(a: Seq<char>, b: Seq<char>)
    requires
        less(a, b),
    ensures
        !less(b, a),
        a != b,
    decreases a.len(),
{
    lemma_less_irreflexive(a);
    if a.len() > 0 && b.len() > 0 && a[0] == b[0] {
        lemma_less_asymmetric(a.skip(1), b.skip(1));
    }
}

/// The order of texts is transitive.
pub proof fn lemma_less_transitive(a: Seq<char>, b: Seq<char>, c: Seq<char>)
    requires
        less(a, b),
        less(b, c),
    ensures
        less(a, c),
    decreases a.len(),
{
    if a.len() > 0 && b.len() > 0 && c.len() > 0 && a[0] == b[0] && b[0] == c[0] {
        lemma_less_transitive(a.skip(1), b.skip(1), c.skip(1));
    }
}

/// Two different texts are in one order or the other.
pub proof fn lemma_less_total(a: Seq<char>, b: Seq<char>)
    ensures
        less(a, b) || less(b, a) || a == b,
    decreases a.len(),
{
    if a.len() > 0 && b.len() > 0 && a[0] == b[0] {
        lemma_less_total(a.skip(1), b.skip(1));
        if a.skip(1) == b.skip(1) {
            assert(a =~= seq![a[0]] + a.skip(1));
            assert(b =~= seq![b[0]] + b.skip(1));
        }
    } else if a.len() == 0 && b.len() == 0 {
        assert(a =~= b);
    }
}

/// Whether the first text comes before the second, character by character.
pub fn comes_before(a: &str, b: &str) -> (r: bool)
    ensures
        r == less(a@, b@),
{
    let left = chars_of(a);
    let right = chars_of(b);
    let mut i: usize = 0;
    assert(a@.skip(0) =~= a@);
    assert(b@.skip(0) =~= b@);
    while i < left.len() && i < right.len()
        invariant
            left@ == a@,
            right@ == b@,
            i <= left@.len(),
            i <= right@.len(),
            less(a@.skip(i as int), b@.skip(i as int)) == less(a@, b@),
        decreases left@.len() - i,
    {
        if left[i] != right[i] {
            return left[i] < right[i];
        }
        assert(a@.skip(i as int).skip(1) =~= a@.skip(i + 1));
        assert(b@.skip(i as int).skip(1) =~= b@.skip(i + 1));
        i += 1;
    }
    i < right.len()
}

/// `text` with every leftmost, non-overlapping `from` replaced by `to`.
pub open spec fn replaced(text: Seq<char>, from: Seq<char>, to: Seq<char>) -> Seq<char>
    decreases text.len(),
{
    if from.len() == 0 || text.len() < from.len() {
        text
    } else if from.is_prefix_of(text) {
        to + replaced(text.skip(from.len() as int), from, to)
    } else {
        seq![text[0]] + replaced(text.skip(1), from, to)
    }
}

/// Whether two texts have no character in common.
pub open spec fn disjoint(a: Seq<char>, b: Seq<char>) -> bool {
    forall|i: int, j: int| 0 <= i < a.len() && 0 <= j < b.len() ==> a[i] != b[j]
}

/// What replaced text starts with, and has nothing in common with the
/// replacement, the text starts with.
proof fn lemma_replaced_start(text: Seq<char>, from: Seq<char>, to: Seq<char>, part: Seq<char>)
    requires
        to.len() > 0,
        disjoint(part, to),
        part.is_prefix_of(replaced(text, from, to)),
    ensures
        part.is_prefix_of(text),
    decreases text.len(),
{
    let all = replaced(text, from, to);
    if from.len() == 0 || text.len() < from.len() || part.len() == 0 {
        assert(part.is_prefix_of(text));
    } else if from.is_prefix_of(text) {
        assert(all[0] == to[0]);
        assert(part[0] == all[0]);
    } else {
        let rest = replaced(text.skip(1), from, to);
        let tail = part.skip(1);
        assert(part =~= all.take(part.len() as int));
        assert(tail =~= rest.take(tail.len() as int));
        lemma_replaced_start(text.skip(1), from, to, tail);
        assert(part[0] == text[0]);
        assert forall|i: int| 0 <= i < part.len() implies part[i] == text[i] by {
            if i > 0 {
                assert(tail[i - 1] == text.skip(1)[i - 1]);
            }
        }
        assert(part =~= text.take(part.len() as int));
    }
}

/// What stands in replaced text, and has nothing in common with the replacement,
/// stands in the text, and is not what was replaced.
pub proof fn lemma_replaced_keeps(text: Seq<char>, from: Seq<char>, to: Seq<char>, part: Seq<char>)
    requires
        to.len() > 0,
        part.len() > 0,
        disjoint(part, to),
        contains(replaced(text, from, to), part),
    ensures
        contains(text, part),
        part != from,
    decreases text.len(),
{
    let all = replaced(text, from, to);
    let at = choose|at: int| occurs_at(all, part, at);
    if from.len() == 0 || text.len() < from.len() {
        assert(occurs_at(text, part, at));
    } else if from.is_prefix_of(text) {
        let n = from.len() as int;
        let k = to.len() as int;
        let rest = replaced(text.skip(n), from, to);
        assert(part[0] == all[at]);
        if at < k {
            assert(all[at] == to[at]);
        }
        assert(rest.subrange(at - k, at - k + part.len()) =~= all.subrange(at, at + part.len()));
        assert(occurs_at(rest, part, at - k));
        lemma_replaced_keeps(text.skip(n), from, to, part);
        lemma_occurs_later(text, part, n);
    } else {
        let rest = replaced(text.skip(1), from, to);
        if at == 0 {
            assert(part =~= all.take(part.len() as int));
            lemma_replaced_start(text, from, to, part);
            assert(text.subrange(0, part.len() as int) =~= part);
            assert(occurs_at(text, part, 0));
        } else {
            assert(rest.subrange(at - 1, at - 1 + part.len()) =~= all.subrange(
                at,
                at + part.len(),
            ));
            assert(occurs_at(rest, part, at - 1));
            lemma_replaced_keeps(text.skip(1), from, to, part);
            lemma_occurs_later(text, part, 1);
        }
    }
}

/// What stands in the rest of a text stands in the text.
proof fn lemma_occurs_later(text: Seq<char>, part: Seq<char>, n: int)
    requires
        0 <= n <= text.len(),
        contains(text.skip(n), part),
    ensures
        contains(text, part),
{
    let rest = text.skip(n);
    let at = choose|at: int| occurs_at(rest, part, at);
    assert(text.subrange(n + at, n + at + part.len()) =~= rest.subrange(at, at + part.len()));
    assert(occurs_at(text, part, n + at));
}

/// `text` with every leftmost, non-overlapping `from` replaced by `to`.
pub fn replace(text: &str, from: &str, to: &str) -> (r: String)
    requires
        from@.len() > 0,
    ensures
        r@ == replaced(text@, from@, to@),
{
    let chars = chars_of(text);
    let part = chars_of(from);
    let mut out = String::new();
    let mut i: usize = 0;
    assert(text@.skip(0) =~= text@);
    while i < chars.len()
        invariant
            chars@ == text@,
            part@ == from@,
            from@.len() > 0,
            i <= chars@.len(),
            out@ + replaced(text@.skip(i as int), from@, to@) == replaced(text@, from@, to@),
        decreases chars@.len() - i,
    {
        let ghost rest = text@.skip(i as int);
        if matches_at(&chars, &part, i) {
            proof {
                assert(rest.subrange(0, from@.len() as int) =~= text@.subrange(
                    i as int,
                    i + from@.len(),
                ));
                assert(rest.skip(from@.len() as int) =~= text@.skip(i + from@.len()));
            }
            out.append(to);
            i += part.len();
        } else {
            proof {
                if from@.is_prefix_of(rest) {
                    assert(text@.subrange(i as int, i + from@.len()) =~= rest.subrange(
                        0,
                        from@.len() as int,
                    ));
                }
                assert(rest.skip(1) =~= text@.skip(i + 1));
                if rest.len() < from@.len() {
                    assert(replaced(rest, from@, to@) == rest);
                    assert(rest =~= seq![rest[0]] + rest.skip(1));
                    assert(replaced(rest.skip(1), from@, to@) == rest.skip(1));
                }
            }
            out.push(chars[i]);
            i += 1;
        }
    }
    assert(text@.skip(text@.len() as int).len() == 0);
    out
}

/// Whether `c` has the Unicode property White_Space.
pub open spec fn is_space(c: char) -> bool {
    ||| '\u{9}' <= c <= '\u{d}'
    ||| c == ' '
    ||| c == '\u{85}'
    ||| c == '\u{a0}'
    ||| c == '\u{1680}'
    ||| '\u{2000}' <= c <= '\u{200a}'
    ||| c == '\u{2028}'
    ||| c == '\u{2029}'
    ||| c == '\u{202f}'
    ||| c == '\u{205f}'
    ||| c == '\u{3000}'
}

/// Whether `c` has the Unicode property White_Space.
pub fn is_white_space(c: char) -> (r: bool)
    ensures
        r == is_space(c),
{
    ('\u{9}' <= c && c <= '\u{d}') || c == ' ' || c == '\u{85}' || c == '\u{a0}' || c == '\u{1680}'
        || ('\u{2000}' <= c && c <= '\u{200a}') || c == '\u{2028}' || c == '\u{2029}' || c
        == '\u{202f}' || c == '\u{205f}' || c == '\u{3000}'
}

/// `text` without its leading white space.
pub open spec fn trimmed_start(text: Seq<char>) -> Seq<char>
    decreases text.len(),
{
    if text.len() > 0 && is_space(text[0]) {
        trimmed_start(text.skip(1))
    } else {
        text
    }
}

/// `text` without its trailing white space.
pub open spec fn trimmed_end(text: Seq<char>) -> Seq<char>
    decreases text.len(),
{
    if text.len() > 0 && is_space(text.last()) {
        trimmed_end(text.drop_last())
    } else {
        text
    }
}

/// `text` without its leading and trailing white space.
pub open spec fn trimmed(text: Seq<char>) -> Seq<char> {
    trimmed_end(trimmed_start(text))
}

/// `text` without its leading white space.
pub fn trim_start(text: &str) -> (r: String)
    ensures
        r@ == trimmed_start(text@),
{
    let chars = chars_of(text);
    let mut i: usize = 0;
    assert(text@.skip(0) =~= text@);
    while i < chars.len() && is_white_space(chars[i])
        invariant
            chars@ == text@,
            i <= chars@.len(),
            trimmed_start(text@.skip(i as int)) == trimmed_start(text@),
        decreases chars@.len() - i,
    {
        assert(text@.skip(i as int).skip(1) =~= text@.skip(i + 1));
        i += 1;
    }
    let r = from_range(&chars, i, chars.len());
    assert(r@ =~= text@.skip(i as int));
    r
}

/// `text` without its trailing white space.
pub fn trim_end(text: &str) -> (r: String)
    ensures
        r@ == trimmed_end(text@),
{
    let chars = chars_of(text);
    let mut end: usize = chars.len();
    assert(text@.take(end as int) =~= text@);
    while end > 0 && is_white_space(chars[end - 1])
        invariant
            chars@ == text@,
            end <= chars@.len(),
            trimmed_end(text@.take(end as int)) == trimmed_end(text@),
        decreases end,
    {
        assert(text@.take(end as int).drop_last() =~= text@.take(end - 1));
        end -= 1;
    }
    let r = from_range(&chars, 0, end);
    assert(r@ =~= text@.take(end as int));
    r
}

/// `text` without its leading and trailing white space.
pub fn trim(text: &str) -> (r: String)
    ensures
        r@ == trimmed(text@),
{
    let start = trim_start(text);
    trim_end(&start)
}

/// `text` without the `c`s at its start.
pub open spec fn without_leading(text: Seq<char>, c: char) -> Seq<char>
    decreases text.len(),
{
    if text.len() > 0 && text[0] == c {
        without_leading(text.skip(1), c)
    } else {
        text
    }
}

/// `text` without the `c`s at its end.
pub open spec fn without_trailing(text: Seq<char>, c: char) -> Seq<char>
    decreases text.len(),
{
    if text.len() > 0 && text.last() == c {
        without_trailing(text.drop_last(), c)
    } else {
        text
    }
}

/// `text` without the copies of `suffix` at its end.
pub open spec fn without_suffixes(text: Seq<char>, suffix: Seq<char>) -> Seq<char>
    decreases text.len(),
{
    if suffix.len() > 0 && suffix.is_suffix_of(text) {
        without_suffixes(text.take(text.len() - suffix.len()), suffix)
    } else {
        text
    }
}

/// `text` without the `c`s at its start.
pub fn trim_leading(text: &str, c: char) -> (r: String)
    ensures
        r@ == without_leading(text@, c),
{
    let chars = chars_of(text);
    let mut i: usize = 0;
    assert(text@.skip(0) =~= text@);
    while i < chars.len() && chars[i] == c
        invariant
            chars@ == text@,
            i <= chars@.len(),
            without_leading(text@.skip(i as int), c) == without_leading(text@, c),
        decreases chars@.len() - i,
    {
        assert(text@.skip(i as int).skip(1) =~= text@.skip(i + 1));
        i += 1;
    }
    let r = from_range(&chars, i, chars.len());
    assert(r@ =~= text@.skip(i as int));
    r
}

/// `text` without the `c`s at its end.
pub fn trim_trailing(text: &str, c: char) -> (r: String)
    ensures
        r@ == without_trailing(text@, c),
{
    let chars = chars_of(text);
    let mut end: usize = chars.len();
    assert(text@.take(end as int) =~= text@);
    while end > 0 && chars[end - 1] == c
        invariant
            chars@ == text@,
            end <= chars@.len(),
            without_trailing(text@.take(end as int), c) == without_trailing(text@, c),
        decreases end,
    {
        assert(text@.take(end as int).drop_last() =~= text@.take(end - 1));
        end -= 1;
    }
    let r = from_range(&chars, 0, end);
    assert(r@ =~= text@.take(end as int));
    r
}

/// `text` without the copies of `suffix` at its end.
pub fn trim_suffixes(text: &str, suffix: &str) -> (r: String)
    ensures
        r@ == without_suffixes(text@, suffix@),
{
    let chars = chars_of(text);
    let part = chars_of(suffix);
    let mut end: usize = chars.len();
    assert(text@.take(end as int) =~= text@);
    while part.len() > 0 && end >= part.len() && matches_at(&chars, &part, end - part.len())
        invariant
            chars@ == text@,
            part@ == suffix@,
            end <= chars@.len(),
            without_suffixes(text@.take(end as int), suffix@) == without_suffixes(text@, suffix@),
        decreases end,
    {
        proof {
            let shown = text@.take(end as int);
            assert(shown.subrange(shown.len() - suffix@.len(), shown.len() as int) =~= text@.subrange(
                end - suffix@.len(),
                end as int,
            ));
            assert(shown.take(shown.len() - suffix@.len()) =~= text@.take(end - suffix@.len()));
        }
        end -= part.len();
    }
    proof {
        let shown = text@.take(end as int);
        if suffix@.len() > 0 && suffix@.is_suffix_of(shown) {
            assert(text@.subrange(end - suffix@.len(), end as int) =~= shown.subrange(
                shown.len() - suffix@.len(),
                shown.len() as int,
            ));
        }
    }
    let r = from_range(&chars, 0, end);
    assert(r@ =~= text@.take(end as int));
    r
}

/// The number of characters of `text` before the first `sep`.
pub open spec fn until(text: Seq<char>, sep: char) -> nat
    decreases text.len(),
{
    if text.len() == 0 || text[0] == sep {
        0
    } else {
        1 + until(text.skip(1), sep)
    }
}

/// `until` stays within the text, stops at a separator and at no earlier one.
pub proof fn lemma_until(text: Seq<char>, sep: char)
    ensures
        until(text, sep) <= text.len(),
        until(text, sep) < text.len() ==> text[until(text, sep) as int] == sep,
        forall|i: int| 0 <= i < until(text, sep) ==> text[i] != sep,
    decreases text.len(),
{
    if text.len() > 0 && text[0] != sep {
        let rest = text.skip(1);
        lemma_until(rest, sep);
        assert forall|i: int| 0 <= i < until(text, sep) implies text[i] != sep by {
            if i > 0 {
                assert(rest[i - 1] == text[i]);
            }
        }
    }
}

/// `until` is the position of the first separator.
pub proof fn lemma_until_is(text: Seq<char>, sep: char, at: int)
    requires
        0 <= at <= text.len(),
        forall|i: int| 0 <= i < at ==> text[i] != sep,
        at < text.len() ==> text[at] == sep,
    ensures
        until(text, sep) == at,
{
    lemma_until(text, sep);
    let found = until(text, sep) as int;
    if found < at {
        assert(text[found] != sep);
    } else if found > at {
        assert(text[at] != sep);
    }
}

/// The first position at or after `from` that holds `sep`, or the length.
pub fn find_from(chars: &[char], sep: char, from: usize) -> (r: usize)
    requires
        from <= chars@.len(),
    ensures
        from <= r <= chars@.len(),
        r == from + until(chars@.skip(from as int), sep),
{
    let mut i: usize = from;
    while i < chars.len() && chars[i] != sep
        invariant
            from <= i <= chars@.len(),
            forall|j: int| from <= j < i ==> chars@[j] != sep,
        decreases chars@.len() - i,
    {
        i += 1;
    }
    proof {
        lemma_until_is(chars@.skip(from as int), sep, i - from);
    }
    i
}

/// The pieces of `text` between the separators; `text` itself where it holds none.
pub open spec fn split(text: Seq<char>, sep: char) -> Seq<Seq<char>>
    decreases text.len(),
{
    let at = until(text, sep);
    if at >= text.len() {
        seq![text]
    } else {
        seq![text.take(at as int)] + split(text.skip(at as int + 1), sep)
    }
}

/// The pieces of `text` between the separators; `text` itself where it holds none.
pub fn split_on(text: &str, sep: char) -> (r: Vec<String>)
    ensures
        views(r@) == split(text@, sep),
{
    let chars = chars_of(text);
    let mut out: Vec<String> = Vec::new();
    let mut from: usize = 0;
    assert(text@.skip(0) =~= text@);
    loop
        invariant
            chars@ == text@,
            from <= chars@.len(),
            views(out@) + split(text@.skip(from as int), sep) == split(text@, sep),
        decreases chars@.len() - from,
    {
        let at = find_from(&chars, sep, from);
        let ghost rest = text@.skip(from as int);
        let ghost before = views(out@);
        let piece = from_range(&chars, from, at);
        assert(piece@ =~= rest.take(at - from));
        out.push(piece);
        assert(views(out@) =~= before.push(piece@));
        if at == chars.len() {
            assert(rest.take(at - from) =~= rest);
            assert(views(out@) =~= before + seq![rest]);
            return out;
        }
        assert(rest.skip(at - from + 1) =~= text@.skip(at + 1));
        assert(views(out@) + split(text@.skip(at + 1), sep) =~= before + (seq![rest.take(at - from)]
            + split(text@.skip(at + 1), sep)));
        from = at + 1;
    }
}

/// No piece holds the separator, and there is at least one.
pub proof fn lemma_split_pieces(text: Seq<char>, sep: char)
    ensures
        split(text, sep).len() > 0,
        forall|i: int| 0 <= i < split(text, sep).len() ==> !(#[trigger] split(text, sep)[i]).contains(sep),
    decreases text.len(),
{
    let at = until(text, sep);
    lemma_until(text, sep);
    if at < text.len() {
        let rest = text.skip(at as int + 1);
        lemma_split_pieces(rest, sep);
        let all = split(text, sep);
        assert forall|i: int| 0 <= i < all.len() implies !(#[trigger] all[i]).contains(sep) by {
            if i > 0 {
                assert(all[i] == split(rest, sep)[i - 1]);
            } else {
                assert(all[0] == text.take(at as int));
            }
        }
    }
}

/// More text without separators goes to the last piece.
pub proof fn lemma_split_append(text: Seq<char>, more: Seq<char>, sep: char)
    requires
        !more.contains(sep),
    ensures
        split(text + more, sep) == split(text, sep).drop_last().push(split(text, sep).last() + more),
    decreases text.len(),
{
    let whole = text + more;
    let at = until(text, sep) as int;
    lemma_until(text, sep);
    lemma_split_pieces(text, sep);
    if at >= text.len() {
        assert forall|i: int| 0 <= i < whole.len() implies whole[i] != sep by {
            if i >= text.len() {
                assert(more.contains(more[i - text.len()]));
            }
        }
        lemma_until_is(whole, sep, whole.len() as int);
        assert(split(whole, sep) =~= split(text, sep).drop_last().push(
            split(text, sep).last() + more,
        ));
    } else {
        let rest = text.skip(at + 1);
        lemma_until_is(whole, sep, at);
        lemma_split_append(rest, more, sep);
        lemma_split_pieces(rest, sep);
        assert(whole.take(at) =~= text.take(at));
        assert(whole.skip(at + 1) =~= rest + more);
        assert(split(text, sep).last() == split(rest, sep).last());
        assert(split(whole, sep) =~= split(text, sep).drop_last().push(
            split(text, sep).last() + more,
        ));
    }
}

/// A separator at the end opens an empty piece.
pub proof fn lemma_split_end(text: Seq<char>, sep: char)
    ensures
        split(text.push(sep), sep) == split(text, sep).push(seq![]),
    decreases text.len(),
{
    let whole = text.push(sep);
    let at = until(text, sep) as int;
    lemma_until(text, sep);
    lemma_until_is(whole, sep, at);
    if at >= text.len() {
        assert(whole.take(at) =~= text);
        assert(whole.skip(at + 1) =~= seq![]);
        lemma_until_is(whole.skip(at + 1), sep, 0);
        assert(split(whole.skip(at + 1), sep) =~= seq![Seq::<char>::empty()]);
        assert(split(whole, sep) =~= split(text, sep).push(seq![]));
    } else {
        let rest = text.skip(at + 1);
        lemma_split_end(rest, sep);
        assert(whole.take(at) =~= text.take(at));
        assert(whole.skip(at + 1) =~= rest.push(sep));
        assert(split(whole, sep) =~= split(text, sep).push(seq![]));
    }
}

/// The first of joined parts comes first.
pub proof fn lemma_joined_first(parts: Seq<Seq<char>>, sep: Seq<char>)
    requires
        parts.len() > 1,
    ensures
        joined(parts, sep) == parts[0] + sep + joined(parts.skip(1), sep),
    decreases parts.len(),
{
    if parts.len() == 2 {
        assert(parts.drop_last().len() == 1);
        assert(parts.skip(1)[0] == parts[1]);
        assert(joined(parts.drop_last(), sep) == parts[0]);
        assert(joined(parts.skip(1), sep) == parts[1]);
    } else {
        lemma_joined_first(parts.drop_last(), sep);
        assert(parts.drop_last().skip(1) =~= parts.skip(1).drop_last());
        assert(parts.skip(1).last() == parts.last());
        assert(joined(parts, sep) =~= parts[0] + sep + joined(parts.skip(1), sep));
    }
}

/// Parts that do not hold the separator come back when they are joined by it
/// and split again.
pub proof fn law_split_joined(parts: Seq<Seq<char>>, sep: char)
    requires
        parts.len() > 0,
        forall|i: int| 0 <= i < parts.len() ==> !(#[trigger] parts[i]).contains(sep),
    ensures
        split(joined(parts, seq![sep]), sep) == parts,
    decreases parts.len(),
{
    let whole = joined(parts, seq![sep]);
    if parts.len() == 1 {
        assert(!parts[0].contains(sep));
        lemma_until_is(whole, sep, whole.len() as int);
        assert(split(whole, sep) =~= parts);
    } else {
        let rest = parts.skip(1);
        lemma_joined_first(parts, seq![sep]);
        assert forall|i: int| 0 <= i < rest.len() implies !(#[trigger] rest[i]).contains(sep) by {
            assert(rest[i] == parts[i + 1]);
        }
        law_split_joined(rest, sep);
        let n = parts[0].len() as int;
        assert(!parts[0].contains(sep));
        assert forall|i: int| 0 <= i < n implies whole[i] != sep by {
            assert(whole[i] == parts[0][i]);
        }
        lemma_until_is(whole, sep, n);
        assert(whole.take(n) =~= parts[0]);
        assert(whole.skip(n + 1) =~= joined(rest, seq![sep]));
        assert(split(whole, sep) =~= parts);
    }
}

/// `line` without one trailing carriage return.
pub open spec fn without_cr(line: Seq<char>) -> Seq<char> {
    if line.len() > 0 && line.last() == '\r' {
        line.drop_last()
    } else {
        line
    }
}

/// The lines of `text`: each ends at a newline, with a carriage return before
/// it dropped. The last line may lack the newline; then it is kept whole, and
/// it is no line where it is empty.
pub open spec fn lines(text: Seq<char>) -> Seq<Seq<char>>
    decreases text.len(),
{
    let at = until(text, '\n');
    if text.len() == 0 {
        seq![]
    } else if at >= text.len() {
        seq![text]
    } else {
        seq![without_cr(text.take(at as int))] + lines(text.skip(at as int + 1))
    }
}

/// The lines of `text`, without their line endings.
pub fn split_lines(text: &str) -> (r: Vec<String>)
    ensures
        views(r@) == lines(text@),
{
    let chars = chars_of(text);
    let mut out: Vec<String> = Vec::new();
    let mut from: usize = 0;
    assert(text@.skip(0) =~= text@);
    while from < chars.len()
        invariant
            chars@ == text@,
            from <= chars@.len(),
            views(out@) + lines(text@.skip(from as int)) == lines(text@),
        decreases chars@.len() - from,
    {
        let at = find_from(&chars, '\n', from);
        let ghost rest = text@.skip(from as int);
        let ghost before = views(out@);
        if at == chars.len() {
            let piece = from_range(&chars, from, at);
            assert(piece@ =~= rest);
            out.push(piece);
            assert(views(out@) =~= before + seq![rest]);
            return out;
        }
        let ghost line = rest.take(at - from);
        let end = if at > from && chars[at - 1] == '\r' {
            at - 1
        } else {
            at
        };
        let piece = from_range(&chars, from, end);
        assert(line.len() > 0 ==> line.last() == chars@[at - 1]);
        assert(piece@ =~= without_cr(line));
        out.push(piece);
        assert(views(out@) =~= before.push(piece@));
        assert(rest.skip(at - from + 1) =~= text@.skip(at + 1));
        assert(views(out@) + lines(text@.skip(at + 1)) =~= before + (seq![without_cr(line)] + lines(
            text@.skip(at + 1),
        )));
        from = at + 1;
    }
    assert(views(out@) + seq![] =~= views(out@));
    out
}

/// The texts of `parts`, with `sep` between each two.
pub open spec fn joined(parts: Seq<Seq<char>>, sep: Seq<char>) -> Seq<char>
    decreases parts.len(),
{
    if parts.len() == 0 {
        seq![]
    } else if parts.len() == 1 {
        parts[0]
    } else {
        joined(parts.drop_last(), sep) + sep + parts.last()
    }
}

/// The texts of `parts`, with `sep` between each two.
pub fn join(parts: &[String], sep: &str) -> (r: String)
    ensures
        r@ == joined(views(parts@), sep@),
{
    let mut out = String::new();
    let mut i: usize = 0;
    while i < parts.len()
        invariant
            i <= parts@.len(),
            out@ == joined(views(parts@).take(i as int), sep@),
        decreases parts@.len() - i,
    {
        if i > 0 {
            out.append(sep);
        }
        out.append(&parts[i]);
        proof {
            let next = views(parts@).take(i + 1);
            assert(next.drop_last() =~= views(parts@).take(i as int));
            assert(next.last() == parts@[i as int]@);
        }
        i += 1;
    }
    assert(views(parts@).take(i as int) =~= views(parts@));
    out
}

/// The decimal digit for `d`.
pub open spec fn digit(d: nat) -> char {
    ('0' as nat + d) as char
}

/// `n` in decimal, without leading zeros.
pub open spec fn decimal(n: nat) -> Seq<char>
    decreases n,
{
    if n < 10 {
        seq![digit(n)]
    } else {
        decimal(n / 10).push(digit(n % 10))
    }
}

/// The decimal digits of a number are digits, and there is one at least.
pub proof fn lemma_decimal_digits(n: nat)
    ensures
        decimal(n).len() > 0,
        forall|i: int| 0 <= i < decimal(n).len() ==> '0' <= #[trigger] decimal(n)[i] <= '9',
    decreases n,
{
    if n >= 10 {
        lemma_decimal_digits(n / 10);
    }
}

/// The decimal digit for `d`.
fn digit_char(d: u64) -> (c: char)
    requires
        d < 10,
    ensures
        c == digit(d as nat),
{
    (48u8 + d as u8) as char
}

/// `n` in decimal, without leading zeros.
pub fn decimal_u64(n: u64) -> (r: String)
    ensures
        r@ == decimal(n as nat),
    decreases n,
{
    if n < 10 {
        let mut r = String::new();
        r.push(digit_char(n));
        assert(r@ =~= seq![digit(n as nat)]);
        r
    } else {
        let mut r = decimal_u64(n / 10);
        r.push(digit_char(n % 10));
        r
    }
}

/// `n` in decimal, without leading zeros.
pub fn decimal_usize(n: usize) -> (r: String)
    ensures
        r@ == decimal(n as nat),
{
    decimal_u64(n as u64)
}

/// `n` in decimal, with a minus sign where it is negative.
pub open spec fn signed_decimal(n: int) -> Seq<char> {
    if n < 0 {
        seq!['-'] + decimal((-n) as nat)
    } else {
        decimal(n as nat)
    }
}

/// `n` in decimal, with a minus sign where it is negative.
pub fn decimal_i32(n: i32) -> (r: String)
    ensures
        r@ == signed_decimal(n as int),
{
    if n < 0 {
        let mut out = String::new();
        out.push('-');
        let digits = decimal_u64((-(n as i64)) as u64);
        out.append(&digits);
        assert(out@ =~= seq!['-'] + digits@);
        out
    } else {
        decimal_u64(n as u64)
    }
}

/// The number of bytes that a text takes.
pub open spec fn size(text: Seq<char>) -> nat {
    vstd::utf8::encode_utf8(text).len()
}

/// The number of bytes that a text takes.
pub fn byte_len(text: &str) -> (r: usize)
    ensures
        r == size(text@),
{
    text.as_bytes().len()
}

/// The bytes of two texts, one behind the other, are those of both together.
pub proof fn lemma_encode_concat(a: Seq<char>, b: Seq<char>)
    ensures
        vstd::utf8::encode_utf8(a + b) == vstd::utf8::encode_utf8(a) + vstd::utf8::encode_utf8(b),
    decreases a.len(),
{
    if a.len() == 0 {
        assert(a + b =~= b);
    } else {
        lemma_encode_concat(a.drop_first(), b);
        assert((a + b).drop_first() =~= a.drop_first() + b);
        assert((a + b)[0] == a[0]);
        assert(vstd::utf8::encode_utf8(a + b) =~= vstd::utf8::encode_utf8(a)
            + vstd::utf8::encode_utf8(b));
    }
}

/// Whether `c` is an ASCII decimal digit.
pub open spec fn is_digit(c: char) -> bool {
    '0' <= c <= '9'
}

/// Whether `text` is one or more ASCII decimal digits.
pub open spec fn all_digits(text: Seq<char>) -> bool {
    text.len() > 0 && forall|i: int| 0 <= i < text.len() ==> is_digit(#[trigger] text[i])
}

/// The number that decimal digits stand for.
pub open spec fn digits_value(text: Seq<char>) -> nat
    decreases text.len(),
{
    if text.len() == 0 {
        0
    } else {
        digits_value(text.drop_last()) * 10 + ((text.last() as nat - '0' as nat) as nat)
    }
}

/// The unsigned number that `text` spells: decimal digits after an optional
/// plus sign.
pub open spec fn number(text: Seq<char>) -> Option<nat> {
    let digits = if text.len() > 0 && text[0] == '+' {
        text.skip(1)
    } else {
        text
    };
    if all_digits(digits) {
        Some(digits_value(digits))
    } else {
        None
    }
}

/// The number that `text` spells, where it spells one that `usize` can hold.
pub fn parse_usize(text: &str) -> (r: Option<usize>)
    ensures
        match number(text@) {
            Some(n) if n <= usize::MAX => r == Some(n as usize),
            _ => r is None,
        },
{
    let chars = chars_of(text);
    let start: usize = if chars.len() > 0 && chars[0] == '+' {
        1
    } else {
        0
    };
    let ghost digits = text@.skip(start as int);
    assert(text@.skip(0) =~= text@);
    if start == chars.len() {
        return None;
    }
    let mut value: usize = 0;
    let mut overflow = false;
    let mut i: usize = start;
    assert(digits.take(0) =~= seq![]);
    while i < chars.len()
        invariant
            chars@ == text@,
            start <= i <= chars@.len(),
            digits == text@.skip(start as int),
            start < chars@.len(),
            number(text@) is Some ==> all_digits(digits) && number(text@) == Some(
                digits_value(digits),
            ),
            all_digits(digits) ==> number(text@) is Some,
            forall|j: int| 0 <= j < i - start ==> is_digit(#[trigger] digits[j]),
            !overflow ==> value == digits_value(digits.take(i - start)),
            overflow ==> digits_value(digits.take(i - start)) > usize::MAX,
        decreases chars@.len() - i,
    {
        let c = chars[i];
        assert(c == digits[i - start]);
        if c < '0' || c > '9' {
            return None;
        }
        proof {
            let next = digits.take(i - start + 1);
            assert(next.drop_last() =~= digits.take(i - start));
            assert(next.last() == c);
        }
        let d: usize = (c as u32 - 48) as usize;
        if overflow {
        } else if value > (usize::MAX - d) / 10 {
            assert(value * 10 + d > usize::MAX);
            overflow = true;
        } else {
            value = value * 10 + d;
        }
        i += 1;
    }
    assert(digits.take(i - start) =~= digits);
    if overflow {
        None
    } else {
        Some(value)
    }
}

/// `c` in lower case, where it is an ASCII capital.
pub open spec fn ascii_lower(c: char) -> char {
    if 'A' <= c <= 'Z' {
        (c as u32 + 32) as char
    } else {
        c
    }
}

/// `text` with its ASCII capitals in lower case.
pub open spec fn ascii_lowered(text: Seq<char>) -> Seq<char> {
    Seq::new(text.len(), |i: int| ascii_lower(text[i]))
}

/// `text` with its ASCII capitals in lower case.
pub fn to_ascii_lower(text: &str) -> (r: String)
    ensures
        r@ == ascii_lowered(text@),
{
    let chars = chars_of(text);
    let mut out = String::new();
    let mut i: usize = 0;
    while i < chars.len()
        invariant
            chars@ == text@,
            i <= chars@.len(),
            out@ == ascii_lowered(text@).take(i as int),
        decreases chars@.len() - i,
    {
        let c = chars[i];
        let lower = if 'A' <= c && c <= 'Z' {
            (c as u8 + 32) as char
        } else {
            c
        };
        out.push(lower);
        i += 1;
        assert(out@ =~= ascii_lowered(text@).take(i as int));
    }
    assert(out@ =~= ascii_lowered(text@));
    out
}

/// The pieces of a text, with the separator between them again, are the text.
pub proof fn law_joined_split(text: Seq<char>, sep: char)
    ensures
        joined(split(text, sep), seq![sep]) == text,
    decreases text.len(),
{
    let at = until(text, sep) as int;
    lemma_until(text, sep);
    if at < text.len() {
        let rest = text.skip(at + 1);
        law_joined_split(rest, sep);
        lemma_split_pieces(rest, sep);
        let all = split(text, sep);
        assert(all.skip(1) =~= split(rest, sep));
        lemma_joined_first(all, seq![sep]);
        assert(all[0] == text.take(at));
        assert(text.take(at) + seq![sep] + rest =~= text);
    }
}

/// A number that is written in decimal reads back as it was.
pub proof fn law_decimal_reads_back(n: nat)
    ensures
        number(decimal(n)) == Some(n),
{
    lemma_decimal_value(n);
    lemma_decimal_digits(n);
    let shown = decimal(n);
    assert(all_digits(shown));
}

/// The value of the digits of a number is the number.
proof fn lemma_decimal_value(n: nat)
    ensures
        digits_value(decimal(n)) == n,
    decreases n,
{
    if n >= 10 {
        lemma_decimal_value(n / 10);
        assert(decimal(n).drop_last() =~= decimal(n / 10));
        assert(decimal(n).last() == digit(n % 10));
        assert(digit(n % 10) as nat == 48 + n % 10);
    } else {
        assert(decimal(n).drop_last() =~= seq![]);
        assert(decimal(n).last() == digit(n));
        assert(digit(n) as nat == 48 + n);
        assert(digits_value(decimal(n).drop_last()) == 0);
    }
}

/// Different numbers are written differently.
pub proof fn law_decimals_differ(a: nat, b: nat)
    ensures
        decimal(a) == decimal(b) ==> a == b,
{
    law_decimal_reads_back(a);
    law_decimal_reads_back(b);
}

/// Trimming takes white space away at both ends, and nothing else: what is left starts and
/// ends with none, and what was taken away is nothing but white space.
pub proof fn law_trimming_takes_white_space(text: Seq<char>)
    ensures
        exists|from: int, to: int| {
            &&& 0 <= from <= to <= text.len()
            &&& trimmed(text) == #[trigger] text.subrange(from, to)
            &&& forall|i: int| 0 <= i < from ==> is_space(#[trigger] text[i])
            &&& forall|i: int| to <= i < text.len() ==> is_space(#[trigger] text[i])
            &&& from < to ==> !is_space(text[from]) && !is_space(text[to - 1])
        },
{
    lemma_trimmed_start(text);
    let front = trimmed_start(text);
    lemma_trimmed_end(front);
    let from = text.len() - front.len();
    let to = from + trimmed_end(front).len();
    assert(trimmed(text) =~= text.subrange(from, to)) by {
        assert(front =~= text.skip(from));
    }
    assert forall|i: int| to <= i < text.len() implies is_space(#[trigger] text[i]) by {
        assert(front[i - from] == text[i]);
    }
    if from < to {
        assert(front[0] == text[from]);
        assert(front[to - 1 - from] == text[to - 1]);
    }
}

/// Trimming at the start takes white space away there.
proof fn lemma_trimmed_start(text: Seq<char>)
    ensures
        trimmed_start(text).len() <= text.len(),
        trimmed_start(text) == text.skip(text.len() - trimmed_start(text).len()),
        forall|i: int|
            0 <= i < text.len() - trimmed_start(text).len() ==> is_space(#[trigger] text[i]),
        trimmed_start(text).len() > 0 ==> !is_space(trimmed_start(text)[0]),
    decreases text.len(),
{
    if text.len() > 0 && is_space(text[0]) {
        let rest = text.skip(1);
        lemma_trimmed_start(rest);
        let n = text.len() - trimmed_start(text).len();
        assert(rest.skip(n - 1) =~= text.skip(n));
        assert forall|i: int| 0 <= i < n implies is_space(#[trigger] text[i]) by {
            if i > 0 {
                assert(rest[i - 1] == text[i]);
            }
        }
    } else {
        assert(text.skip(0) =~= text);
    }
}

/// Trimming at the end takes white space away there.
proof fn lemma_trimmed_end(text: Seq<char>)
    ensures
        trimmed_end(text).len() <= text.len(),
        trimmed_end(text) == text.take(trimmed_end(text).len() as int),
        forall|i: int| trimmed_end(text).len() <= i < text.len() ==> is_space(#[trigger] text[i]),
        trimmed_end(text).len() > 0 ==> !is_space(trimmed_end(text).last()),
    decreases text.len(),
{
    if text.len() > 0 && is_space(text.last()) {
        let rest = text.drop_last();
        lemma_trimmed_end(rest);
        let n = trimmed_end(text).len() as int;
        assert(rest.take(n) =~= text.take(n));
        assert forall|i: int| n <= i < text.len() implies is_space(#[trigger] text[i]) by {
            if i < rest.len() {
                assert(rest[i] == text[i]);
            }
        }
    } else {
        assert(text.take(text.len() as int) =~= text);
    }
}

/// Text is cut into lines at each line end, with or without a carriage return before it; what
/// stands behind the last line end is a line where it is not empty.
pub proof fn law_text_is_cut_at_line_ends(line: Seq<char>, rest: Seq<char>)
    requires
        !line.contains('\n'),
        line.len() > 0 ==> line.last() != '\r',
    ensures
        lines(line + seq!['\n'] + rest) == seq![line] + lines(rest),
        lines(line + seq!['\r', '\n'] + rest) == seq![line] + lines(rest),
        line.len() > 0 ==> lines(line) == seq![line],
        lines(seq![]) == Seq::<Seq<char>>::empty(),
{
    let n = line.len() as int;
    let plain = line + seq!['\n'] + rest;
    assert forall|i: int| 0 <= i < n implies line[i] != '\n' by {
        assert(line.contains(line[i]));
    }
    assert forall|i: int| 0 <= i < n implies plain[i] != '\n' by {
        assert(plain[i] == line[i]);
    }
    assert(plain[n] == '\n');
    lemma_until_is(plain, '\n', n);
    assert(plain.take(n) =~= line);
    assert(plain.skip(n + 1) =~= rest);
    let long = line + seq!['\r', '\n'] + rest;
    assert forall|i: int| 0 <= i < n + 1 implies long[i] != '\n' by {
        if i < n {
            assert(long[i] == line[i]);
        } else {
            assert(long[n] == '\r');
        }
    }
    assert(long[n + 1] == '\n');
    lemma_until_is(long, '\n', n + 1);
    assert(long.take(n + 1) =~= line.push('\r'));
    assert(line.push('\r').drop_last() =~= line);
    assert(long.skip(n + 2) =~= rest);
    lemma_until_is(line, '\n', n);
}

/// What is dropped at the start of a text, or at its end, is the given character, as often as
/// it stands there, and nothing else.
pub proof fn law_ends_are_dropped(c: char, n: nat, text: Seq<char>)
    requires
        text.len() > 0,
        text[0] != c,
        text.last() != c,
    ensures
        without_leading(Seq::new(n, |i: int| c) + text, c) == text,
        without_trailing(text + Seq::new(n, |i: int| c), c) == text,
    decreases n,
{
    let run = Seq::new(n, |i: int| c);
    if n == 0 {
        assert(run + text =~= text);
        assert(text + run =~= text);
    } else {
        let less = Seq::new((n - 1) as nat, |i: int| c);
        law_ends_are_dropped(c, (n - 1) as nat, text);
        assert((run + text).skip(1) =~= less + text);
        assert((text + run).drop_last() =~= text + less);
        assert((run + text)[0] == c);
        assert((text + run).last() == c);
    }
}

/// An ending is dropped as often as it stands at the end of a text.
pub proof fn law_endings_are_dropped(text: Seq<char>, suffix: Seq<char>)
    requires
        suffix.len() > 0,
    ensures
        without_suffixes(text + suffix, suffix) == without_suffixes(text, suffix),
        !suffix.is_suffix_of(text) ==> without_suffixes(text, suffix) == text,
        !suffix.is_suffix_of(without_suffixes(text, suffix)),
    decreases text.len(),
{
    let all = text + suffix;
    assert(all.skip(text.len() as int) =~= suffix);
    assert(suffix.is_suffix_of(all));
    assert(all.take(text.len() as int) =~= text);
    if suffix.is_suffix_of(text) {
        law_endings_are_dropped(text.take(text.len() - suffix.len()), suffix);
    }
}

/// Only text of digits, at least one, with or without a `+` before them, spells a number.
pub proof fn law_only_digits_spell_a_number(text: Seq<char>, at: int)
    requires
        0 < at < text.len(),
        !('0' <= text[at] <= '9'),
    ensures
        number(text) is None,
        number(seq![]) is None,
        number(seq!['+']) is None,
{
    if text[0] == '+' {
        assert(text.skip(1)[at - 1] == text[at]);
    }
    assert(seq!['+'].skip(1) =~= Seq::<char>::empty());
    if all_digits(text) {
        assert(is_digit(text[at]));
    }
    if all_digits(text.skip(1)) {
        assert(is_digit(text.skip(1)[at - 1]));
    }
}

/// A `+` before a number does not change it.
pub proof fn law_sign_does_not_count(n: nat)
    ensures
        number(seq!['+'] + decimal(n)) == Some(n),
{
    law_decimal_reads_back(n);
    lemma_decimal_digits(n);
    let shown = seq!['+'] + decimal(n);
    assert(shown.skip(1) =~= decimal(n));
    assert(all_digits(decimal(n)));
    if decimal(n)[0] == '+' {
        assert(is_digit(decimal(n)[0]));
    }
}

/// Capitals of ASCII become the letters that stand 32 places behind them, and nothing else
/// changes.
pub proof fn law_ascii_capitals_are_lowered(text: Seq<char>)
    ensures
        ascii_lowered(text).len() == text.len(),
        forall|i: int|
            0 <= i < text.len() ==> ('A' <= text[i] <= 'Z' ==> #[trigger] ascii_lowered(text)[i] as u32
                == text[i] as u32 + 32),
        forall|i: int|
            0 <= i < text.len() ==> (!('A' <= text[i] <= 'Z') ==> #[trigger] ascii_lowered(text)[i]
                == text[i]),
        ascii_lowered(ascii_lowered(text)) == ascii_lowered(text),
{
    let once = ascii_lowered(text);
    assert forall|i: int| 0 <= i < text.len() implies ascii_lowered(once)[i] == once[i] by {
        assert(!('A' <= once[i] <= 'Z'));
    }
    assert(ascii_lowered(once) =~= once);
}

} // verus!
