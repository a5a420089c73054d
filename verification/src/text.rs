//! Text handling for protocol lines: decoding a frame, trimming whitespace,
//! dropping NUL characters, and cutting a line at its first space.

use vstd::prelude::*;
use vstd::std_specs::iter::IteratorSpec;
use vstd::utf8::{decode_utf8, encode_utf8, valid_utf8};

verus! {

/// The characters that carry the Unicode `White_Space` property.
pub open spec fn is_whitespace(c: char) -> bool {
    let n = c as u32;
    ||| 0x09 <= n <= 0x0D
    ||| n == 0x20
    ||| n == 0x85
    ||| n == 0xA0
    ||| n == 0x1680
    ||| 0x2000 <= n <= 0x200A
    ||| n == 0x2028
    ||| n == 0x2029
    ||| n == 0x202F
    ||| n == 0x205F
    ||| n == 0x3000
}

/// `s` without its longest prefix of whitespace.
pub open spec fn trimmed_start(s: Seq<char>) -> Seq<char>
    decreases s.len(),
{
    if s.len() > 0 && is_whitespace(s.first()) {
        trimmed_start(s.drop_first())
    } else {
        s
    }
}

/// `s` without its longest suffix of whitespace.
pub open spec fn trimmed_end(s: Seq<char>) -> Seq<char>
    decreases s.len(),
{
    if s.len() > 0 && is_whitespace(s.last()) {
        trimmed_end(s.drop_last())
    } else {
        s
    }
}

/// `s` without surrounding whitespace.
pub open spec fn trimmed(s: Seq<char>) -> Seq<char> {
    trimmed_end(trimmed_start(s))
}

/// `s` without its NUL characters; the other characters keep their order.
pub open spec fn without_nul(s: Seq<char>) -> Seq<char> {
    s.filter(|c: char| c != '\0')
}

/// The text a received frame stands for once decoded: surrounding whitespace
/// is trimmed first, then every NUL that is left is dropped.
pub open spec fn cleaned(s: Seq<char>) -> Seq<char> {
    without_nul(trimmed(s))
}

/// The position of the first space in `s`, or the length of `s` if it has none.
pub open spec fn first_space(s: Seq<char>) -> int
    decreases s.len(),
{
    if s.len() == 0 || s.first() == ' ' {
        0
    } else {
        1 + first_space(s.drop_first())
    }
}

/// The part of `s` before its first space: all of `s` if it has no space.
pub open spec fn head(s: Seq<char>) -> Seq<char> {
    s.take(first_space(s))
}

/// The part of `s` after its first space: empty if it has no space.
pub open spec fn tail(s: Seq<char>) -> Seq<char> {
    if first_space(s) < s.len() {
        s.skip(first_space(s) + 1)
    } else {
        Seq::empty()
    }
}

/// The items of `parts` written one after another with `sep` between
/// neighbours.
pub open spec fn joined(parts: Seq<Seq<char>>, sep: Seq<char>) -> Seq<char>
    decreases parts.len(),
{
    if parts.len() == 0 {
        Seq::empty()
    } else if parts.len() == 1 {
        parts[0]
    } else {
        joined(parts.drop_last(), sep) + sep + parts.last()
    }
}

/// What a lossy UTF-8 decoding of `bytes` yields: the decoded characters, with
/// U+FFFD in place of each ill-formed part.
pub uninterp spec fn utf8_lossy(bytes: Seq<u8>) -> Seq<char>;

/// The text that a frame of bytes is decoded to. Well-formed UTF-8 is
/// decoded as it stands; any other frame is decoded leniently.
pub open spec fn decoded(frame: Seq<u8>) -> Seq<char> {
    if valid_utf8(frame) {
        decode_utf8(frame)
    } else {
        utf8_lossy(frame)
    }
}

/// The protocol line that a frame carries: its decoding, cleaned.
pub open spec fn line_of(frame: Seq<u8>) -> Seq<char> {
    cleaned(decoded(frame))
}

/// `first_space` stays within the sequence and points at a space, with no
/// space before it.
pub proof fn lemma_first_space(s: Seq<char>)
    ensures
        0 <= first_space(s) <= s.len(),
        first_space(s) < s.len() ==> s[first_space(s)] == ' ',
        forall|i: int| 0 <= i < first_space(s) ==> s[i] != ' ',
    decreases s.len(),
{
    if s.len() == 0 || s.first() == ' ' {
    } else {
        let r = s.drop_first();
        lemma_first_space(r);
        assert forall|i: int| 0 <= i < first_space(s) implies s[i] != ' ' by {
            if i > 0 {
                assert(s[i] == r[i - 1]);
            }
        }
    }
}

/// An index that holds a space, with none before it, is `first_space`.
pub proof fn lemma_first_space_is(s: Seq<char>, k: int)
    requires
        0 <= k <= s.len(),
        k < s.len() ==> s[k] == ' ',
        forall|i: int| 0 <= i < k ==> s[i] != ' ',
    ensures
        first_space(s) == k,
    decreases s.len(),
{
    if s.len() == 0 || s.first() == ' ' {
    } else {
        let r = s.drop_first();
        assert forall|i: int| 0 <= i < k - 1 implies r[i] != ' ' by {
            assert(r[i] == s[i + 1]);
        }
        lemma_first_space_is(r, k - 1);
    }
}

/// Trimming leaves neither leading nor trailing whitespace, and the result is
/// a contiguous part of the input.
pub proof fn lemma_trimmed_bounds(s: Seq<char>)
    ensures
        trimmed(s).len() <= s.len(),
        trimmed(s).len() > 0 ==> !is_whitespace(trimmed(s).first()) && !is_whitespace(
            trimmed(s).last(),
        ),
        exists|lo: int, hi: int| 0 <= lo <= hi <= s.len() && trimmed(s) == s.subrange(lo, hi),
{
    lemma_trimmed_start(s);
    let t = trimmed_start(s);
    lemma_trimmed_end(t);
    let lo = s.len() - t.len();
    let hi = lo + trimmed(s).len();
    assert(trimmed(s) =~= s.subrange(lo, hi));
    if trimmed(s).len() > 0 {
        assert(trimmed(s).first() == t.first());
    }
}

/// `trimmed_start` is a suffix of its input that does not begin with
/// whitespace.
pub proof fn lemma_trimmed_start(s: Seq<char>)
    ensures
        trimmed_start(s).len() <= s.len(),
        trimmed_start(s) == s.skip(s.len() - trimmed_start(s).len()),
        trimmed_start(s).len() > 0 ==> !is_whitespace(trimmed_start(s).first()),
        forall|i: int| 0 <= i < s.len() - trimmed_start(s).len() ==> is_whitespace(s[i]),
    decreases s.len(),
{
    if s.len() > 0 && is_whitespace(s.first()) {
        let r = s.drop_first();
        lemma_trimmed_start(r);
        assert(trimmed_start(s) =~= s.skip(s.len() - trimmed_start(s).len()));
        assert forall|i: int| 0 <= i < s.len() - trimmed_start(s).len() implies is_whitespace(
            s[i],
        ) by {
            if i > 0 {
                assert(s[i] == r[i - 1]);
            }
        }
    } else {
        assert(trimmed_start(s) =~= s.skip(0));
    }
}

/// `trimmed_end` is a prefix of its input that does not end with whitespace.
pub proof fn lemma_trimmed_end(s: Seq<char>)
    ensures
        trimmed_end(s).len() <= s.len(),
        trimmed_end(s) == s.take(trimmed_end(s).len() as int),
        trimmed_end(s).len() > 0 ==> !is_whitespace(trimmed_end(s).last()),
        forall|i: int| trimmed_end(s).len() <= i < s.len() ==> is_whitespace(s[i]),
    decreases s.len(),
{
    if s.len() > 0 && is_whitespace(s.last()) {
        let r = s.drop_last();
        lemma_trimmed_end(r);
        assert(trimmed_end(s) =~= s.take(trimmed_end(s).len() as int));
        assert forall|i: int| trimmed_end(s).len() <= i < s.len() implies is_whitespace(s[i]) by {
            if i < r.len() {
                assert(s[i] == r[i]);
            }
        }
    } else {
        assert(trimmed_end(s) =~= s.take(s.len() as int));
    }
}

/// Text that neither begins nor ends with whitespace is left as it is.
pub proof fn lemma_trimmed_fixed(s: Seq<char>)
    requires
        s.len() > 0 ==> !is_whitespace(s.first()) && !is_whitespace(s.last()),
    ensures
        trimmed(s) == s,
{
}

/// Trimming twice is trimming once.
pub proof fn lemma_trimmed_idempotent(s: Seq<char>)
    ensures
        trimmed(trimmed(s)) == trimmed(s),
{
    lemma_trimmed_bounds(s);
    lemma_trimmed_fixed(trimmed(s));
}

/// Text without NUL characters is left as it is.
pub proof fn lemma_without_nul_fixed(s: Seq<char>)
    requires
        forall|i: int| 0 <= i < s.len() ==> s[i] != '\0',
    ensures
        without_nul(s) == s,
    decreases s.len(),
{
    reveal(Seq::filter);
    if s.len() > 0 {
        lemma_without_nul_fixed(s.drop_last());
        assert(s.drop_last().push(s.last()) =~= s);
    }
}

/// Whether cleaning leaves `s` as it is: it holds no NUL and neither begins
/// nor ends with whitespace.
pub open spec fn is_clean(s: Seq<char>) -> bool {
    &&& forall|i: int| 0 <= i < s.len() ==> s[i] != '\0'
    &&& s.len() > 0 ==> !is_whitespace(s.first()) && !is_whitespace(s.last())
}

/// Clean text is left as it is by cleaning, and is the line of the frame
/// that encodes it.
pub proof fn lemma_clean_fixed(s: Seq<char>)
    requires
        is_clean(s),
    ensures
        cleaned(s) == s,
        line_of(encode_utf8(s)) == s,
{
    lemma_trimmed_fixed(s);
    lemma_without_nul_fixed(s);
    lemma_line_of_encoded(s);
}

/// A frame that is the UTF-8 encoding of a text carries that text, cleaned.
pub proof fn lemma_line_of_encoded(text: Seq<char>)
    ensures
        decoded(encode_utf8(text)) == text,
        line_of(encode_utf8(text)) == cleaned(text),
{
    vstd::utf8::encode_utf8_valid_utf8(text);
    vstd::utf8::encode_utf8_decode_utf8(text);
}

/// Tells whether `c` is a whitespace character.
pub fn char_is_whitespace(c: char) -> (r: bool)
    ensures
        r == is_whitespace(c),
{
    let n: u32 = c as u32;
    (0x09 <= n && n <= 0x0D) || n == 0x20 || n == 0x85 || n == 0xA0 || n == 0x1680 || (0x2000 <= n
        && n <= 0x200A) || n == 0x2028 || n == 0x2029 || n == 0x202F || n == 0x205F || n == 0x3000
}

/// `str` equality: two strings are equal when they hold the same characters.
pub assume_specification[ <str as PartialEq>::eq ](a: &str, b: &str) -> (r: bool)
    ensures
        r == (a@ == b@),
;

/// `String::push`: the character is appended, and nothing else changes.
pub assume_specification[ String::push ](s: &mut String, ch: char)
    ensures
        final(s)@ == old(s)@.push(ch),
;

/// `String::from_utf8_lossy`, with the result made an owned string. The
/// decoded text is a function of the bytes alone; for well-formed UTF-8 it is
/// the text that the bytes encode.
#[verifier::external_body]
pub(crate) fn decode(bytes: &[u8]) -> (s: String)
    ensures
        s@ == utf8_lossy(bytes@),
        valid_utf8(bytes@) ==> s@ == decode_utf8(bytes@),
{
    String::from_utf8_lossy(bytes).into_owned()
}

/// The characters of `s`, in order.
pub(crate) fn chars_of(s: &str) -> (v: Vec<char>)
    ensures
        v@ == s@,
{
    broadcast use vstd::string::group_string_axioms;

    let mut v: Vec<char> = Vec::new();
    let mut it = s.chars();
    loop
        invariant
            v@ + it.remaining() == s@,
        ensures
            v@ == s@,
        decreases s@.len() - v@.len(),
    {
        match it.next() {
            Some(c) => {
                v.push(c);
            },
            None => {
                break ;
            },
        }
    }
    v
}

/// The string made of the characters `chars[lo..hi]`.
pub(crate) fn string_of(chars: &Vec<char>, lo: usize, hi: usize) -> (s: String)
    requires
        lo <= hi <= chars.len(),
    ensures
        s@ == chars@.subrange(lo as int, hi as int),
{
    let mut s = String::new();
    let mut i: usize = lo;
    while i < hi
        invariant
            lo <= i <= hi <= chars.len(),
            s@ == chars@.subrange(lo as int, i as int),
        decreases hi - i,
    {
        s.push(chars[i]);
        i += 1;
    }
    s
}

/// The bounds of `chars` without surrounding whitespace.
pub(crate) fn trim_bounds(chars: &Vec<char>) -> (r: (usize, usize))
    ensures
        r.0 <= r.1 <= chars.len(),
        chars@.subrange(r.0 as int, r.1 as int) == trimmed(chars@),
{
    let n = chars.len();
    let mut lo: usize = 0;
    assert(chars@.skip(0) =~= chars@);
    while lo < n && char_is_whitespace(chars[lo])
        invariant
            lo <= n == chars.len(),
            trimmed_start(chars@.skip(lo as int)) == trimmed_start(chars@),
        decreases n - lo,
    {
        assert(chars@.skip(lo as int).drop_first() =~= chars@.skip(lo as int + 1));
        lo += 1;
    }
    assert(chars@.skip(lo as int) == trimmed_start(chars@));
    let ghost rest = chars@.skip(lo as int);
    let mut hi: usize = n;
    assert(rest.take(n - lo) =~= rest);
    while hi > lo && char_is_whitespace(chars[hi - 1])
        invariant
            lo <= hi <= n == chars.len(),
            rest == chars@.skip(lo as int),
            trimmed_end(rest.take(hi - lo)) == trimmed_end(rest),
        decreases hi - lo,
    {
        assert(rest.take(hi - lo).drop_last() =~= rest.take(hi - lo - 1));
        hi -= 1;
    }
    assert(rest.take(hi - lo) =~= chars@.subrange(lo as int, hi as int));
    (lo, hi)
}

/// `s` without surrounding whitespace.
pub fn trim(s: &str) -> (r: String)
    ensures
        r@ == trimmed(s@),
{
    let chars = chars_of(s);
    let (lo, hi) = trim_bounds(&chars);
    string_of(&chars, lo, hi)
}

/// `s` without its NUL characters.
pub fn strip_nul(s: &str) -> (r: String)
    ensures
        r@ == without_nul(s@),
{
    let chars = chars_of(s);
    let mut r = String::new();
    let mut i: usize = 0;
    while i < chars.len()
        invariant
            i <= chars.len(),
            r@ == without_nul(chars@.take(i as int)),
        decreases chars.len() - i,
    {
        proof {
            reveal(Seq::filter);
            assert(chars@.take(i + 1).drop_last() =~= chars@.take(i as int));
        }
        if chars[i] != '\0' {
            r.push(chars[i]);
        }
        i += 1;
    }
    assert(chars@.take(i as int) =~= chars@);
    r
}

/// The text that `text` stands for as a protocol line: trimmed, then without
/// NUL characters.
pub fn clean(text: &str) -> (r: String)
    ensures
        r@ == cleaned(text@),
{
    let t = trim(text);
    strip_nul(t.as_str())
}

/// The protocol line that a received frame carries: the frame is decoded
/// leniently as UTF-8, trimmed, and freed of NUL characters.
pub fn normalize(frame: &[u8]) -> (r: String)
    ensures
        r@ == line_of(frame@),
{
    let text = decode(frame);
    clean(text.as_str())
}

/// Cuts `chars[from..]` at its first space: the index of that space, or the
/// length of `chars` if no space follows `from`.
pub(crate) fn find_space(chars: &Vec<char>, from: usize) -> (k: usize)
    requires
        from <= chars.len(),
    ensures
        from <= k <= chars.len(),
        k - from == first_space(chars@.skip(from as int)),
{
    let mut k: usize = from;
    while k < chars.len() && chars[k] != ' '
        invariant
            from <= k <= chars.len(),
            forall|i: int| from <= i < k ==> chars@[i] != ' ',
        decreases chars.len() - k,
    {
        k += 1;
    }
    proof {
        lemma_first_space_is(chars@.skip(from as int), k - from);
    }
    k
}

/// The items of `parts` written one after another with `sep` between
/// neighbours.
pub fn join(parts: &Vec<String>, sep: &str) -> (r: String)
    ensures
        r@ == joined(parts.deep_view(), sep@),
{
    let mut r = String::new();
    let mut i: usize = 0;
    while i < parts.len()
        invariant
            i <= parts.len(),
            r@ == joined(parts.deep_view().take(i as int), sep@),
        decreases parts.len() - i,
    {
        proof {
            let p = parts.deep_view().take(i + 1);
            assert(p.drop_last() =~= parts.deep_view().take(i as int));
            assert(p.last() == parts[i as int]@);
        }
        if i > 0 {
            r.append(sep);
        }
        r.append(parts[i].as_str());
        i += 1;
    }
    assert(parts.deep_view().take(i as int) =~= parts.deep_view());
    r
}

} // verus!
