//! Characters and text: the classes of characters that the parsers rely on,
//! words, whitespace normalisation, title case and numbers written in
//! decimal digits.

use unicode_normalization::UnicodeNormalization;
use vstd::prelude::*;
use vstd::string::StringExecFns;

verus! {

/// Whether `c` has the Unicode property White_Space: the space, the
/// characters from the tab to the carriage return, the next line, the
/// no-break space, the ogham space mark, the spaces of fixed width from the
/// en quad to the hair space, the line and the paragraph separator, the
/// narrow no-break space, the medium mathematical space and the ideographic
/// space.
pub open spec fn is_whitespace_char(c: char) -> bool {
    ||| c == ' '
    ||| '\u{9}' <= c <= '\u{D}'
    ||| c == '\u{85}'
    ||| c == '\u{A0}'
    ||| c == '\u{1680}'
    ||| '\u{2000}' <= c <= '\u{200A}'
    ||| '\u{2028}' <= c <= '\u{2029}'
    ||| c == '\u{202F}'
    ||| c == '\u{205F}'
    ||| c == '\u{3000}'
}

/// `char::is_whitespace` of std: whether the character has the Unicode property
/// White_Space, which is the ten ranges of `is_whitespace_char`.
pub assume_specification[ char::is_whitespace ](c: char) -> (b: bool)
    ensures
        b == is_whitespace_char(c),
;

/// Whether `c` is a letter or a number in Unicode's general categories.
pub uninterp spec fn is_alphanumeric_char(c: char) -> bool;

/// `char::is_alphanumeric` of std: whether the character is alphabetic or
/// numeric by Unicode's tables. The tables are not restated; the answer is
/// named.
pub assume_specification[ char::is_alphanumeric ](c: char) -> (b: bool)
    ensures
        b == is_alphanumeric_char(c),
;

/// `String::push` of std: appends one character at the end of the string.
pub assume_specification[ String::push ](s: &mut String, c: char)
    ensures
        final(s)@ == old(s)@.push(c),
;

/// The uppercase mapping of one character, which may be several characters.
pub uninterp spec fn upper_chars(c: char) -> Seq<char>;

/// The lowercase mapping of one character, which may be several characters.
pub uninterp spec fn lower_chars(c: char) -> Seq<char>;

/// The lowercase form of a whole text.
pub uninterp spec fn lower_text(s: Seq<char>) -> Seq<char>;

/// The canonical decomposition (normalisation form D) of a text.
pub uninterp spec fn nfd_text(s: Seq<char>) -> Seq<char>;

/// `char::to_uppercase` of std, collected into a `String`: the character's
/// uppercase mapping by Unicode's tables.
#[verifier::external_body]
pub(crate) fn uppercase_of(c: char) -> (r: String)
    ensures
        r@ == upper_chars(c),
{
    c.to_uppercase().collect()
}

/// `char::to_lowercase` of std, collected into a `String`: the character's
/// lowercase mapping by Unicode's tables.
#[verifier::external_body]
pub(crate) fn lowercase_of(c: char) -> (r: String)
    ensures
        r@ == lower_chars(c),
{
    c.to_lowercase().collect()
}

/// `str::to_lowercase` of std: the text in lowercase. It is a function of the
/// text alone, and not of each character alone (a final sigma depends on its
/// neighbours), so it has a name of its own.
#[verifier::external_body]
pub(crate) fn lowercase_text(s: &str) -> (r: String)
    ensures
        r@ == lower_text(s@),
{
    s.to_lowercase()
}

/// `UnicodeNormalization::nfd` of unicode-normalization on a `&str`, collected
/// into a `String`: the text in normalisation form D.
#[verifier::external_body]
pub(crate) fn nfd_string(s: &str) -> (r: String)
    ensures
        r@ == nfd_text(s@),
{
    s.nfd().collect()
}

/// The characters of a text.
pub fn chars_of(s: &str) -> (v: Vec<char>)
    ensures
        v@ == s@,
{
    let mut v: Vec<char> = Vec::new();
    for c in it: s.chars()
        invariant
            v@ == it.seq().take(it.index() as int),
            it.seq() == s@,
    {
        v.push(c);
    }
    v
}

/// The text made of the characters `v[from..to]`.
pub fn text_of(v: &Vec<char>, from: usize, to: usize) -> (s: String)
    requires
        from <= to <= v.len(),
    ensures
        s@ == v@.subrange(from as int, to as int),
{
    let mut s = String::new();
    let mut i: usize = from;
    while i < to
        invariant
            from <= i <= to <= v.len(),
            s@ == v@.subrange(from as int, i as int),
        decreases to - i,
    {
        s.push(v[i]);
        assert(v@.subrange(from as int, i + 1) =~= v@.subrange(from as int, i as int).push(
            v@[i as int],
        ));
        i += 1;
    }
    s
}

/// Whether two texts are the same.
pub fn same_text(a: &str, b: &str) -> (eq: bool)
    ensures
        eq == (a@ == b@),
{
    let x = chars_of(a);
    let y = chars_of(b);
    if x.len() != y.len() {
        return false;
    }
    let mut i: usize = 0;
    while i < x.len()
        invariant
            i <= x.len(),
            x.len() == y.len(),
            x@ == a@,
            y@ == b@,
            forall|j: int| 0 <= j < i ==> x@[j] == y@[j],
        decreases x.len() - i,
    {
        if x[i] != y[i] {
            assert(a@[i as int] != b@[i as int]);
            return false;
        }
        i += 1;
    }
    assert(x@ =~= y@);
    true
}

/// Whether `pre` is how `s` begins.
pub fn starts_with(s: &Vec<char>, pre: &Vec<char>) -> (b: bool)
    ensures
        b == pre@.is_prefix_of(s@),
{
    if pre.len() > s.len() {
        return false;
    }
    let mut i: usize = 0;
    while i < pre.len()
        invariant
            i <= pre.len() <= s.len(),
            forall|j: int| 0 <= j < i ==> s@[j] == pre@[j],
        decreases pre.len() - i,
    {
        if s[i] != pre[i] {
            assert(s@.subrange(0, pre@.len() as int)[i as int] != pre@[i as int]);
            return false;
        }
        i += 1;
    }
    assert(pre@ =~= s@.subrange(0, pre@.len() as int));
    true
}

/// Whether `suf` is how `s` ends.
pub fn ends_with(s: &Vec<char>, suf: &Vec<char>) -> (b: bool)
    ensures
        b == suf@.is_suffix_of(s@),
{
    if suf.len() > s.len() {
        return false;
    }
    let off: usize = s.len() - suf.len();
    let mut i: usize = 0;
    while i < suf.len()
        invariant
            i <= suf.len() <= s.len(),
            off == s.len() - suf.len(),
            forall|j: int| 0 <= j < i ==> s@[off + j] == suf@[j],
        decreases suf.len() - i,
    {
        if s[off + i] != suf[i] {
            assert(s@.subrange(off as int, s@.len() as int)[i as int] != suf@[i as int]);
            return false;
        }
        i += 1;
    }
    assert(suf@ =~= s@.subrange(off as int, s@.len() as int));
    true
}

/// The words of a text: its maximal runs of characters that are not
/// whitespace, in order.
pub open spec fn words(s: Seq<char>) -> Seq<Seq<char>>
    decreases s.len(),
{
    if s.len() == 0 {
        Seq::empty()
    } else {
        let before = s.drop_last();
        let c = s.last();
        if is_whitespace_char(c) {
            words(before)
        } else if before.len() > 0 && !is_whitespace_char(before.last()) {
            let w = words(before);
            w.drop_last().push(w.last().push(c))
        } else {
            words(before).push(seq![c])
        }
    }
}

/// The words joined by single spaces.
pub open spec fn join_words(ws: Seq<Seq<char>>) -> Seq<char>
    decreases ws.len(),
{
    if ws.len() == 0 {
        Seq::empty()
    } else if ws.len() == 1 {
        ws[0]
    } else {
        join_words(ws.drop_last()) + seq![' '] + ws.last()
    }
}

/// A text with its whitespace normalised: no whitespace at either end, and
/// one space between two words.
pub open spec fn normalized(s: Seq<char>) -> Seq<char> {
    join_words(words(s))
}

/// The lowercase mappings of the characters of `s`, one after the other.
pub open spec fn lower_each(s: Seq<char>) -> Seq<char>
    decreases s.len(),
{
    if s.len() == 0 {
        Seq::empty()
    } else {
        lower_each(s.drop_last()) + lower_chars(s.last())
    }
}

/// A word in title case: its first character in uppercase, the others in
/// lowercase.
pub open spec fn title_word(w: Seq<char>) -> Seq<char> {
    if w.len() == 0 {
        Seq::empty()
    } else {
        upper_chars(w[0]) + lower_each(w.skip(1))
    }
}

/// A text in title case: its words, each in title case, joined by single
/// spaces.
pub open spec fn title_cased(s: Seq<char>) -> Seq<char> {
    join_words(words(s).map_values(|w: Seq<char>| title_word(w)))
}

/// A text that ends in a character that is no whitespace has a last word.
pub proof fn lemma_words_nonempty(s: Seq<char>)
    requires
        s.len() > 0,
        !is_whitespace_char(s.last()),
    ensures
        words(s).len() > 0,
        words(s).last().len() > 0,
    decreases s.len(),
{
    let before = s.drop_last();
    if before.len() > 0 && !is_whitespace_char(before.last()) {
        lemma_words_nonempty(before);
    }
}

/// A run of characters without whitespace is one word.
pub proof fn lemma_words_of_word(w: Seq<char>)
    requires
        w.len() > 0,
        forall|i: int| 0 <= i < w.len() ==> !is_whitespace_char(#[trigger] w[i]),
    ensures
        words(w) == seq![w],
    decreases w.len(),
{
    let before = w.drop_last();
    assert(!is_whitespace_char(w[w.len() - 1]));
    if before.len() > 0 {
        assert(before.last() == w[w.len() - 2]);
        assert forall|i: int| 0 <= i < before.len() implies !is_whitespace_char(
            #[trigger] before[i],
        ) by {
            assert(before[i] == w[i]);
        }
        lemma_words_of_word(before);
        let wb = words(before);
        assert(wb.drop_last() =~= Seq::<Seq<char>>::empty());
        assert(wb.last() == before);
        assert(before.push(w.last()) =~= w);
        assert(words(w) =~= seq![w]);
    } else {
        assert(seq![w.last()] =~= w);
        assert(words(before) =~= Seq::<Seq<char>>::empty());
        assert(words(w) =~= seq![w]);
    }
}

/// Whitespace parts words: the words of a text with a whitespace character
/// in it are the words before that character and then the words after it.
pub proof fn lemma_words_split(a: Seq<char>, c: char, b: Seq<char>)
    requires
        is_whitespace_char(c),
    ensures
        words(a + seq![c] + b) == words(a) + words(b),
    decreases b.len(),
{
    let s = a + seq![c] + b;
    if b.len() == 0 {
        assert(s.drop_last() =~= a);
        assert(s.last() == c);
        assert(words(a) + words(b) =~= words(a));
    } else {
        let b1 = b.drop_last();
        let d = b.last();
        let s1 = a + seq![c] + b1;
        assert(s.drop_last() =~= s1);
        assert(s.last() == d);
        lemma_words_split(a, c, b1);
        if b1.len() > 0 {
            assert(s1.last() == b1.last());
        } else {
            assert(s1.last() == c);
        }
        if is_whitespace_char(d) {
        } else if b1.len() > 0 && !is_whitespace_char(b1.last()) {
            lemma_words_nonempty(b1);
            let w = words(b1);
            assert(words(s) =~= words(a) + w.drop_last().push(w.last().push(d)));
        } else {
            assert(words(s) =~= words(a) + words(b1).push(seq![d]));
        }
    }
}

/// Appending to the last word appends to the joined text.
pub proof fn lemma_join_extend_last(ws: Seq<Seq<char>>, t: Seq<char>)
    requires
        ws.len() > 0,
    ensures
        join_words(ws.drop_last().push(ws.last() + t)) == join_words(ws) + t,
{
    let ws2 = ws.drop_last().push(ws.last() + t);
    assert(ws2.last() == ws.last() + t);
    assert(ws2.drop_last() =~= ws.drop_last());
    if ws.len() == 1 {
        assert(ws2[0] == ws[0] + t);
    } else {
        assert(join_words(ws2) =~= join_words(ws) + t);
    }
}

/// A further word is joined on after a space, unless it is the first.
pub proof fn lemma_join_push(ws: Seq<Seq<char>>, w: Seq<char>)
    ensures
        ws.len() == 0 ==> join_words(ws.push(w)) == w,
        ws.len() > 0 ==> join_words(ws.push(w)) == join_words(ws) + seq![' '] + w,
{
    let ws2 = ws.push(w);
    assert(ws2.drop_last() =~= ws);
    assert(ws2.last() == w);
}

/// Normalises whitespace: drops it at both ends, and replaces each run of it
/// between two words by one space.
pub fn normalize_spaces(input: &str) -> (output: String)
    ensures
        output@ == normalized(input@),
{
    let chars = chars_of(input);
    let mut output = String::new();
    let mut in_word = false;
    let mut any_word = false;
    let mut i: usize = 0;
    while i < chars.len()
        invariant
            i <= chars.len(),
            output@ == normalized(chars@.take(i as int)),
            in_word == (i > 0 && !is_whitespace_char(chars@[i - 1])),
            any_word == (words(chars@.take(i as int)).len() > 0),
        decreases chars.len() - i,
    {
        let c = chars[i];
        let ghost before = chars@.take(i as int);
        let ghost now = chars@.take(i + 1);
        proof {
            assert(now.drop_last() =~= before);
            assert(now.last() == c);
            if i > 0 {
                assert(before.last() == chars@[i - 1]);
            }
        }
        if c.is_whitespace() {
            in_word = false;
        } else if in_word {
            proof {
                lemma_words_nonempty(before);
                lemma_join_extend_last(words(before), seq![c]);
                assert(words(before).last() + seq![c] =~= words(before).last().push(c));
                assert(output@.push(c) =~= output@ + seq![c]);
            }
            output.push(c);
        } else {
            proof {
                lemma_join_push(words(before), seq![c]);
                assert(output@.push(' ').push(c) =~= output@ + seq![' '] + seq![c]);
                assert(Seq::<char>::empty().push(c) =~= seq![c]);
            }
            if any_word {
                output.push(' ');
            }
            output.push(c);
            in_word = true;
            any_word = true;
        }
        i += 1;
    }
    assert(chars@.take(chars@.len() as int) =~= chars@);
    output
}

/// Appending a character to a word appends its lowercase mapping to the word
/// in title case.
pub proof fn lemma_title_word_push(w: Seq<char>, c: char)
    requires
        w.len() > 0,
    ensures
        title_word(w.push(c)) == title_word(w) + lower_chars(c),
{
    let w2 = w.push(c);
    assert(w2.skip(1).drop_last() =~= w.skip(1));
    assert(w2.skip(1).last() == c);
    assert(title_word(w2) =~= title_word(w) + lower_chars(c));
}

/// Puts a text in title case: each word begins in uppercase and goes on in
/// lowercase, and the words are joined by single spaces.
pub fn to_title_case(s: &str) -> (output: String)
    ensures
        output@ == title_cased(s@),
{
    let chars = chars_of(s);
    let mut output = String::new();
    let mut in_word = false;
    let mut any_word = false;
    let mut i: usize = 0;
    let ghost f = |w: Seq<char>| title_word(w);
    while i < chars.len()
        invariant
            i <= chars.len(),
            f == (|w: Seq<char>| title_word(w)),
            output@ == join_words(words(chars@.take(i as int)).map_values(f)),
            in_word == (i > 0 && !is_whitespace_char(chars@[i - 1])),
            any_word == (words(chars@.take(i as int)).len() > 0),
        decreases chars.len() - i,
    {
        let c = chars[i];
        let ghost before = chars@.take(i as int);
        let ghost now = chars@.take(i + 1);
        let ghost wb = words(before);
        proof {
            assert(now.drop_last() =~= before);
            assert(now.last() == c);
            if i > 0 {
                assert(before.last() == chars@[i - 1]);
            }
        }
        if c.is_whitespace() {
            in_word = false;
        } else if in_word {
            let low = lowercase_of(c);
            proof {
                lemma_words_nonempty(before);
                lemma_title_word_push(wb.last(), c);
                lemma_join_extend_last(wb.map_values(f), lower_chars(c));
                assert(words(now).map_values(f) =~= wb.map_values(f).drop_last().push(
                    wb.map_values(f).last() + lower_chars(c),
                ));
            }
            output.append(low.as_str());
        } else {
            let up = uppercase_of(c);
            proof {
                lemma_join_push(wb.map_values(f), upper_chars(c));
                assert(seq![c].skip(1) =~= Seq::<char>::empty());
                assert(title_word(seq![c]) =~= upper_chars(c));
                assert(words(now).map_values(f) =~= wb.map_values(f).push(upper_chars(c)));
                assert(output@.push(' ') + upper_chars(c) =~= output@ + seq![' '] + upper_chars(c));
                assert(Seq::<char>::empty() + upper_chars(c) =~= upper_chars(c));
            }
            if any_word {
                output.push(' ');
            }
            output.append(up.as_str());
            in_word = true;
            any_word = true;
        }
        i += 1;
    }
    assert(chars@.take(chars@.len() as int) =~= chars@);
    output
}

/// Whether `c` is one of the decimal digits `0` to `9`.
pub open spec fn is_digit(c: char) -> bool {
    '0' <= c <= '9'
}

/// The number that a decimal digit stands for.
pub open spec fn digit_value(c: char) -> nat
    recommends
        is_digit(c),
{
    (c as int - '0' as int) as nat
}

/// The number that a decimal digit stands for, or `None` for another
/// character.
pub fn digit_of(c: char) -> (d: Option<u8>)
    ensures
        d is Some == is_digit(c),
        d is Some ==> d->0 == digit_value(c) && d->0 <= 9,
{
    if '0' <= c && c <= '9' {
        Some((c as u32 - '0' as u32) as u8)
    } else {
        None
    }
}

/// The number written by the decimal digits of `s`, read from left to right;
/// the other characters of `s` are passed over.
pub open spec fn digits_number(s: Seq<char>) -> nat
    decreases s.len(),
{
    if s.len() == 0 {
        0
    } else if is_digit(s.last()) {
        digits_number(s.drop_last()) * 10 + digit_value(s.last())
    } else {
        digits_number(s.drop_last())
    }
}

/// Where the first digit of `s` stands, or the length of `s` if it has none.
pub open spec fn first_digit(s: Seq<char>) -> int
    decreases s.len(),
{
    if s.len() == 0 {
        0
    } else if is_digit(s[0]) {
        0
    } else {
        1 + first_digit(s.drop_first())
    }
}

/// How many digits stand at the beginning of `s`.
pub open spec fn digit_run(s: Seq<char>) -> int
    decreases s.len(),
{
    if s.len() == 0 {
        0
    } else if is_digit(s[0]) {
        1 + digit_run(s.drop_first())
    } else {
        0
    }
}

/// The first number in `s`: what its first run of decimal digits writes,
/// reduced to 64 bits. `None` if `s` has no digit.
pub open spec fn first_number(s: Seq<char>) -> Option<u64> {
    let from = first_digit(s);
    if from >= s.len() {
        None
    } else {
        let run = digit_run(s.skip(from));
        Some((digits_number(s.subrange(from, from + run)) % 0x1_0000_0000_0000_0000) as u64)
    }
}

/// `first_digit` is the least position that holds a digit.
pub proof fn lemma_first_digit(s: Seq<char>)
    ensures
        0 <= first_digit(s) <= s.len(),
        forall|j: int| 0 <= j < first_digit(s) ==> !is_digit(#[trigger] s[j]),
        first_digit(s) < s.len() ==> is_digit(s[first_digit(s)]),
    decreases s.len(),
{
    if s.len() > 0 && !is_digit(s[0]) {
        let t = s.drop_first();
        lemma_first_digit(t);
        assert forall|j: int| 0 <= j < first_digit(s) implies !is_digit(#[trigger] s[j]) by {
            if j > 0 {
                assert(s[j] == t[j - 1]);
            }
        }
    }
}

/// `digit_run` is the length of the longest prefix made of digits.
pub proof fn lemma_digit_run(s: Seq<char>)
    ensures
        0 <= digit_run(s) <= s.len(),
        forall|j: int| 0 <= j < digit_run(s) ==> is_digit(#[trigger] s[j]),
        digit_run(s) < s.len() ==> !is_digit(s[digit_run(s)]),
    decreases s.len(),
{
    if s.len() > 0 && is_digit(s[0]) {
        let t = s.drop_first();
        lemma_digit_run(t);
        assert forall|j: int| 0 <= j < digit_run(s) implies is_digit(#[trigger] s[j]) by {
            if j > 0 {
                assert(s[j] == t[j - 1]);
            }
        }
    }
}

/// A position before which no digit stands, and which holds a digit or is
/// the end, is `first_digit`.
pub proof fn lemma_first_digit_is(s: Seq<char>, k: int)
    requires
        0 <= k <= s.len(),
        forall|j: int| 0 <= j < k ==> !is_digit(#[trigger] s[j]),
        k < s.len() ==> is_digit(s[k]),
    ensures
        first_digit(s) == k,
{
    lemma_first_digit(s);
    let f = first_digit(s);
    if f < k {
        assert(!is_digit(s[f]));
    } else if f > k {
        assert(is_digit(s[k]));
    }
}

/// A length up to which digits stand, and at which a character that is no
/// digit stands or the text ends, is `digit_run`.
pub proof fn lemma_digit_run_is(s: Seq<char>, k: int)
    requires
        0 <= k <= s.len(),
        forall|j: int| 0 <= j < k ==> is_digit(#[trigger] s[j]),
        k < s.len() ==> !is_digit(s[k]),
    ensures
        digit_run(s) == k,
{
    lemma_digit_run(s);
    let r = digit_run(s);
    if r < k {
        assert(is_digit(s[r]));
    } else if r > k {
        assert(!is_digit(s[k]));
    }
}

/// One more step of reading a number in 64 bits: the digits read so far,
/// reduced to 64 bits, stay right when a digit is appended with wrapping
/// arithmetic.
pub proof fn lemma_wrapping_step(before: nat, acc: u64, d: u8)
    requires
        acc == before % 0x1_0000_0000_0000_0000,
        d <= 9,
    ensures
        acc.wrapping_mul(10).wrapping_add(d as u64) == (before * 10 + d) % 0x1_0000_0000_0000_0000,
{
    let m = 0x1_0000_0000_0000_0000int;
    let b = before as int;
    let a = acc.wrapping_mul(10) as int;
    assert(a == (acc as int * 10) % m);
    vstd::arithmetic::div_mod::lemma_mul_mod_noop_left(b, 10, m);
    assert(a == (b * 10) % m);
    vstd::arithmetic::div_mod::lemma_add_mod_noop(b * 10, d as int, m);
    assert((d as int) % m == d);
    assert((a + d) % m == (b * 10 + d) % m);
    if a + d > u64::MAX {
        assert((a + d) % m == a + d - m);
    } else {
        assert((a + d) % m == a + d);
    }
}

/// The first number in a text: its first run of decimal digits, read in
/// 64 bits with wrapping arithmetic. `None` if the text has no digit.
pub fn extract_number(s: &str) -> (n: Option<u64>)
    ensures
        n == first_number(s@),
{
    let chars = chars_of(s);
    let mut i: usize = 0;
    while i < chars.len() && digit_of(chars[i]).is_none()
        invariant
            i <= chars.len(),
            forall|j: int| 0 <= j < i ==> !is_digit(#[trigger] chars@[j]),
        decreases chars.len() - i,
    {
        i += 1;
    }
    proof {
        lemma_first_digit_is(chars@, i as int);
    }
    if i >= chars.len() {
        return None;
    }
    let from = i;
    let mut num: u64 = 0;
    let ghost rest = chars@.skip(from as int);
    while i < chars.len() && digit_of(chars[i]).is_some()
        invariant
            from <= i <= chars.len(),
            rest == chars@.skip(from as int),
            forall|j: int| 0 <= j < i - from ==> is_digit(#[trigger] rest[j]),
            num == digits_number(chars@.subrange(from as int, i as int)) % 0x1_0000_0000_0000_0000,
        decreases chars.len() - i,
    {
        let d = digit_of(chars[i]).unwrap();
        proof {
            let now = chars@.subrange(from as int, i + 1);
            assert(now.drop_last() =~= chars@.subrange(from as int, i as int));
            assert(now.last() == chars@[i as int]);
            lemma_wrapping_step(digits_number(now.drop_last()), num, d);
            assert(rest[i - from] == chars@[i as int]);
        }
        num = num.wrapping_mul(10).wrapping_add(d as u64);
        i += 1;
    }
    proof {
        if i < chars.len() {
            assert(rest[i - from] == chars@[i as int]);
        }
        lemma_digit_run_is(rest, i - from);
    }
    Some(num)
}

/// The character that writes a number below ten.
pub open spec fn digit_char(d: nat) -> char
    recommends
        d < 10,
{
    if d == 0 {
        '0'
    } else if d == 1 {
        '1'
    } else if d == 2 {
        '2'
    } else if d == 3 {
        '3'
    } else if d == 4 {
        '4'
    } else if d == 5 {
        '5'
    } else if d == 6 {
        '6'
    } else if d == 7 {
        '7'
    } else if d == 8 {
        '8'
    } else {
        '9'
    }
}

/// A number written in decimal digits, without leading zeros.
pub open spec fn decimal_digits(n: nat) -> Seq<char>
    decreases n,
{
    if n < 10 {
        seq![digit_char(n)]
    } else {
        decimal_digits(n / 10).push(digit_char(n % 10))
    }
}

fn digit_to_char(d: u64) -> (c: char)
    requires
        d < 10,
    ensures
        c == digit_char(d as nat),
{
    if d == 0 {
        '0'
    } else if d == 1 {
        '1'
    } else if d == 2 {
        '2'
    } else if d == 3 {
        '3'
    } else if d == 4 {
        '4'
    } else if d == 5 {
        '5'
    } else if d == 6 {
        '6'
    } else if d == 7 {
        '7'
    } else if d == 8 {
        '8'
    } else {
        '9'
    }
}

fn push_decimal(n: u64, out: &mut Vec<char>)
    ensures
        final(out)@ == old(out)@ + decimal_digits(n as nat),
    decreases n,
{
    if n >= 10 {
        push_decimal(n / 10, out);
    }
    out.push(digit_to_char(n % 10));
}

/// A number in decimal digits.
pub fn decimal_chars(n: u64) -> (v: Vec<char>)
    ensures
        v@ == decimal_digits(n as nat),
{
    let mut v: Vec<char> = Vec::new();
    push_decimal(n, &mut v);
    v
}

/// Whether `actual` is `expected` cut short: a proper prefix of it. This is
/// how a number reads when the recognition lost its last digits.
pub open spec fn is_cut_short(expected: Seq<char>, actual: Seq<char>) -> bool {
    actual.len() < expected.len() && actual.is_prefix_of(expected)
}

/// Whether `actual` is `expected` without its end: shorter, and a prefix of
/// it.
pub fn is_ocr_misread(expected: &str, actual: &str) -> (b: bool)
    ensures
        b == is_cut_short(expected@, actual@),
{
    let e = chars_of(expected);
    let a = chars_of(actual);
    a.len() < e.len() && starts_with(&e, &a)
}

} // verus!
