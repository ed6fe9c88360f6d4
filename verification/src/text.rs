//! Strings as sequences of characters: comparing, cutting and splitting them.

use vstd::prelude::*;
use vstd::string::*;

verus! {

/// `String::push` appends the given character to the end of the string.
pub assume_specification[ String::push ](s: &mut String, c: char)
    ensures
        final(s)@ == old(s)@.push(c),
;

/// The texts that a sequence of strings holds.
pub open spec fn texts(s: Seq<String>) -> Seq<Seq<char>> {
    Seq::new(s.len(), |i: int| s[i]@)
}

/// The lowercase equivalent of a text, by Unicode's rules.
pub uninterp spec fn lowercase(s: Seq<char>) -> Seq<char>;

/// `str::to_lowercase` gives the lowercase equivalent of the string, which depends on
/// nothing but its characters.
#[verifier::external_body]
pub(crate) fn to_lowercase(s: &str) -> (r: String)
    ensures
        r@ == lowercase(s@),
{
    s.to_lowercase()
}

/// The uppercase equivalent of a character, by Unicode's rules: one or more characters.
pub uninterp spec fn uppercase(c: char) -> Seq<char>;

/// An ASCII character in uppercase: a lowercase letter is replaced, any other stays.
pub open spec fn ascii_uppercase(c: char) -> char {
    if c >= 'a' && c <= 'z' {
        (c as int - 'a' as int + 'A' as int) as char
    } else {
        c
    }
}

/// A character in uppercase.
pub open spec fn in_uppercase(c: char) -> Seq<char> {
    if c <= '\u{7f}' {
        seq![ascii_uppercase(c)]
    } else {
        uppercase(c)
    }
}

/// `char::to_uppercase` gives the characters of the uppercase equivalent of `c`, one or more,
/// which depend on nothing but `c`. An ASCII letter is mapped within ASCII, and any other ASCII
/// character to itself. Of a character beyond ASCII it is left unsaid whether the first character
/// of the result is its own uppercase equivalent.
#[verifier::external_body]
pub(crate) fn to_uppercase(c: char) -> (r: String)
    ensures
        r@ == uppercase(c),
        r@.len() >= 1,
        c <= '\u{7f}' ==> r@ == seq![ascii_uppercase(c)],
{
    c.to_uppercase().collect::<String>()
}

/// The text that bytes hold, with replacement characters for what is no UTF-8.
pub uninterp spec fn utf8_lossy(bytes: Seq<u8>) -> Seq<char>;

/// `String::from_utf8_lossy` decodes the bytes as UTF-8, with replacement characters for
/// invalid sequences. The result depends on nothing but the bytes, and valid UTF-8 is
/// decoded as it stands.
#[verifier::external_body]
pub(crate) fn from_utf8_lossy(bytes: &Vec<u8>) -> (r: String)
    ensures
        r@ == utf8_lossy(bytes@),
        vstd::utf8::valid_utf8(bytes@) ==> r@ == vstd::utf8::decode_utf8(bytes@),
{
    String::from_utf8_lossy(bytes).into_owned()
}

/// The characters of `s`, in order.
pub fn chars_of(s: &str) -> (r: Vec<char>)
    ensures
        r@ == s@,
{
    let mut out: Vec<char> = Vec::new();
    for c in it: s.chars()
        invariant
            out@ == it.seq().take(it.index() as int),
    {
        out.push(c);
    }
    out
}

/// The text of the characters from index `from` up to index `to`.
pub fn text_of(chars: &Vec<char>, from: usize, to: usize) -> (r: String)
    requires
        from <= to <= chars@.len(),
    ensures
        r@ == chars@.subrange(from as int, to as int),
{
    let mut out = String::new();
    let mut i: usize = from;
    while i < to
        invariant
            from <= i <= to <= chars@.len(),
            out@ == chars@.subrange(from as int, i as int),
        decreases to - i,
    {
        out.push(chars[i]);
        i = i + 1;
    }
    out
}

/// `a` followed by `b`.
pub fn concat2(a: &str, b: &str) -> (r: String)
    ensures
        r@ == a@ + b@,
{
    a.to_owned().concat(b)
}

/// Whether two strings hold the same characters.
pub fn same(a: &str, b: &str) -> (r: bool)
    ensures
        r == (a@ == b@),
{
    let mut x = a.chars();
    let mut y = b.chars();
    let ghost mut n: int = 0;
    loop
        invariant
            0 <= n <= a@.len(),
            n <= b@.len(),
            vstd::std_specs::iter::IteratorSpec::remaining(&x) == a@.skip(n),
            vstd::std_specs::iter::IteratorSpec::remaining(&y) == b@.skip(n),
            a@.take(n) == b@.take(n),
        decreases a@.len() - n,
    {
        match (x.next(), y.next()) {
            (None, None) => {
                assert(a@.take(n) == a@);
                assert(b@.take(n) == b@);
                return true;
            },
            (Some(p), Some(q)) => {
                if p != q {
                    assert(a@[n] == p);
                    return false;
                }
                assert(a@.take(n + 1) == a@.take(n).push(a@[n]));
                assert(b@.take(n + 1) == b@.take(n).push(b@[n]));
                proof {
                    n = n + 1;
                }
            },
            _ => {
                return false;
            },
        }
    }
}

/// Whether `s` begins with `prefix`.
pub fn starts_with(s: &str, prefix: &str) -> (r: bool)
    ensures
        r == prefix@.is_prefix_of(s@),
{
    let mut x = s.chars();
    let mut y = prefix.chars();
    let ghost mut n: int = 0;
    loop
        invariant
            0 <= n <= prefix@.len(),
            n <= s@.len(),
            vstd::std_specs::iter::IteratorSpec::remaining(&x) == s@.skip(n),
            vstd::std_specs::iter::IteratorSpec::remaining(&y) == prefix@.skip(n),
            s@.take(n) == prefix@.take(n),
        decreases prefix@.len() - n,
    {
        match y.next() {
            None => {
                assert(prefix@.take(n) == prefix@);
                return true;
            },
            Some(q) => {
                match x.next() {
                    None => {
                        return false;
                    },
                    Some(p) => {
                        if p != q {
                            assert(s@[n] == p && prefix@[n] == q);
                            assert(s@.subrange(0, prefix@.len() as int)[n] == p || prefix@.len()
                                > s@.len());
                            return false;
                        }
                        assert(s@.take(n + 1) == s@.take(n).push(s@[n]));
                        assert(prefix@.take(n + 1) == prefix@.take(n).push(prefix@[n]));
                        proof {
                            n = n + 1;
                        }
                    },
                }
            },
        }
    }
}

/// Whether `s` ends with `suffix`.
pub fn ends_with(s: &str, suffix: &str) -> (r: bool)
    ensures
        r == suffix@.is_suffix_of(s@),
{
    let n: usize = s.unicode_len();
    let m: usize = suffix.unicode_len();
    if m > n {
        return false;
    }
    let tail = s.substring_char(n - m, n);
    same(tail, suffix)
}

/// An ASCII letter or digit.
pub open spec fn alphanumeric(c: char) -> bool {
    (c >= '0' && c <= '9') || (c >= 'A' && c <= 'Z') || (c >= 'a' && c <= 'z')
}

/// A character that is alphabetic or numeric, by Unicode's tables.
pub uninterp spec fn unicode_alphanumeric(c: char) -> bool;

/// `char::is_alphanumeric` says whether a character is alphabetic or numeric, which depends on
/// nothing but the character. Of the ASCII characters the letters and digits are.
#[verifier::external_body]
pub(crate) fn is_unicode_alphanumeric(c: char) -> (r: bool)
    ensures
        r == unicode_alphanumeric(c),
        c <= '\u{7f}' ==> r == alphanumeric(c),
{
    c.is_alphanumeric()
}

/// A letter or a digit of any script.
pub open spec fn letter_or_digit(c: char) -> bool {
    if c <= '\u{7f}' {
        alphanumeric(c)
    } else {
        unicode_alphanumeric(c)
    }
}

/// Whether `c` is a letter or a digit of any script.
pub fn is_letter_or_digit(c: char) -> (r: bool)
    ensures
        r == letter_or_digit(c),
{
    is_unicode_alphanumeric(c)
}

/// A character with Unicode's `White_Space` property.
pub open spec fn white_space(c: char) -> bool {
    ||| c >= '\u{9}' && c <= '\u{d}'
    ||| c == ' '
    ||| c == '\u{85}'
    ||| c == '\u{a0}'
    ||| c == '\u{1680}'
    ||| c >= '\u{2000}' && c <= '\u{200a}'
    ||| c == '\u{2028}'
    ||| c == '\u{2029}'
    ||| c == '\u{202f}'
    ||| c == '\u{205f}'
    ||| c == '\u{3000}'
}

/// Whether `c` has Unicode's `White_Space` property.
pub fn is_white_space(c: char) -> (r: bool)
    ensures
        r == white_space(c),
{
    (c >= '\u{9}' && c <= '\u{d}') || c == ' ' || c == '\u{85}' || c == '\u{a0}' || c == '\u{1680}'
        || (c >= '\u{2000}' && c <= '\u{200a}') || c == '\u{2028}' || c == '\u{2029}' || c
        == '\u{202f}' || c == '\u{205f}' || c == '\u{3000}'
}

/// A text that nothing is left of once it is trimmed.
pub open spec fn blank(s: Seq<char>) -> bool {
    forall|i: int| 0 <= i < s.len() ==> white_space(#[trigger] s[i])
}

/// Whether `s` holds white space only.
pub fn is_blank(s: &str) -> (r: bool)
    ensures
        r == blank(s@),
{
    let chars = chars_of(s);
    let mut i: usize = 0;
    while i < chars.len()
        invariant
            chars@ == s@,
            i <= chars@.len(),
            forall|j: int| 0 <= j < i ==> white_space(#[trigger] s@[j]),
        decreases chars@.len() - i,
    {
        if !is_white_space(chars[i]) {
            assert(!white_space(s@[i as int]));
            return false;
        }
        i = i + 1;
    }
    true
}

/// The index of the first `c` in `s`, or the length of `s` where there is none.
pub open spec fn find(s: Seq<char>, c: char) -> int
    decreases s.len(),
{
    if s.len() == 0 || s[0] == c {
        0
    } else {
        1 + find(s.drop_first(), c)
    }
}

/// The first index is in range, holds `c`, and no earlier one does.
pub proof fn lemma_find(s: Seq<char>, c: char)
    ensures
        0 <= find(s, c) <= s.len(),
        find(s, c) < s.len() ==> s[find(s, c)] == c,
        forall|j: int| 0 <= j < find(s, c) ==> s[j] != c,
        find(s, c) < s.len() <==> s.contains(c),
    decreases s.len(),
{
    if s.len() != 0 && s[0] != c {
        lemma_find(s.drop_first(), c);
        assert forall|j: int| 0 <= j < find(s, c) implies s[j] != c by {
            if j > 0 {
                assert(s.drop_first()[j - 1] == s[j]);
            }
        }
        if s.contains(c) {
            let k = choose|k: int| 0 <= k < s.len() && s[k] == c;
            assert(s.drop_first()[k - 1] == c);
        }
    }
}

/// An index that holds `c` where no earlier one does is the first.
pub proof fn lemma_find_is(s: Seq<char>, c: char, k: int)
    requires
        0 <= k <= s.len(),
        k < s.len() ==> s[k] == c,
        forall|j: int| 0 <= j < k ==> s[j] != c,
    ensures
        find(s, c) == k,
{
    lemma_find(s, c);
}

/// The index of the first `c` in `chars` at or after `from`, or the length where there is none.
pub fn find_from(chars: &Vec<char>, from: usize, c: char) -> (r: usize)
    requires
        from <= chars@.len(),
    ensures
        from <= r <= chars@.len(),
        r == from + find(chars@.skip(from as int), c),
{
    let mut i: usize = from;
    while i < chars.len() && chars[i] != c
        invariant
            from <= i <= chars@.len(),
            forall|j: int| from <= j < i ==> chars@[j] != c,
        decreases chars@.len() - i,
    {
        i = i + 1;
    }
    proof {
        lemma_find_is(chars@.skip(from as int), c, i - from);
    }
    i
}

/// What follows the last `c` in `s`; all of `s` where there is none.
pub open spec fn after_last(s: Seq<char>, c: char) -> Seq<char>
    decreases s.len(),
{
    if s.len() == 0 || s.last() == c {
        Seq::empty()
    } else {
        after_last(s.drop_last(), c).push(s.last())
    }
}

proof fn lemma_after_last(s: Seq<char>, c: char, k: int)
    requires
        0 <= k <= s.len(),
        k > 0 ==> s[k - 1] == c,
        forall|j: int| k <= j < s.len() ==> s[j] != c,
    ensures
        after_last(s, c) == s.skip(k),
    decreases s.len(),
{
    if k < s.len() {
        lemma_after_last(s.drop_last(), c, k);
        assert(s.skip(k) == s.drop_last().skip(k).push(s.last()));
    }
}

/// What follows the last `c` in `s`.
pub fn text_after_last(s: &str, c: char) -> (r: String)
    ensures
        r@ == after_last(s@, c),
{
    let chars = chars_of(s);
    let mut k: usize = chars.len();
    while k > 0 && chars[k - 1] != c
        invariant
            k <= chars@.len(),
            forall|j: int| k <= j < chars@.len() ==> chars@[j] != c,
        decreases k,
    {
        k = k - 1;
    }
    proof {
        lemma_after_last(chars@, c, k as int);
    }
    text_of(&chars, k, chars.len())
}

/// A line without the carriage return that was part of its line ending.
pub open spec fn without_cr(line: Seq<char>) -> Seq<char> {
    if line.len() > 0 && line.last() == '\r' {
        line.drop_last()
    } else {
        line
    }
}

/// The lines of a text. A line ends with a line feed, or a carriage return and a line feed,
/// which are no part of it; the last line need not end.
pub open spec fn lines(s: Seq<char>) -> Seq<Seq<char>>
    decreases s.len(),
{
    if s.len() == 0 {
        Seq::empty()
    } else {
        let i = find(s, '\n');
        if 0 <= i < s.len() {
            seq![without_cr(s.take(i))] + lines(s.skip(i + 1))
        } else {
            seq![s]
        }
    }
}

/// The lines of `s`.
pub fn lines_of(s: &str) -> (r: Vec<String>)
    ensures
        texts(r@) == lines(s@),
{
    let chars = chars_of(s);
    let mut out: Vec<String> = Vec::new();
    let mut start: usize = 0;
    assert(chars@.skip(0) == chars@);
    assert(texts(out@) + lines(chars@) == lines(chars@));
    while start < chars.len()
        invariant
            start <= chars@.len(),
            texts(out@) + lines(chars@.skip(start as int)) == lines(chars@),
        decreases chars@.len() - start,
    {
        let end: usize = find_from(&chars, start, '\n');
        let ghost rest = chars@.skip(start as int);
        let ghost before = out@;
        if end < chars.len() {
            proof {
                lemma_find(rest, '\n');
            }
            assert(rest.take(end - start) == chars@.subrange(start as int, end as int));
            assert(rest.skip(end - start + 1) == chars@.skip(end + 1));
            let stop: usize = if end > start && chars[end - 1] == '\r' {
                end - 1
            } else {
                end
            };
            let line = text_of(&chars, start, stop);
            assert(line@ == without_cr(rest.take(end - start)));
            out.push(line);
            assert(texts(out@) == texts(before).push(line@));
            assert(texts(before) + (seq![line@] + lines(chars@.skip(end + 1))) == texts(out@)
                + lines(chars@.skip(end + 1)));
            start = end + 1;
        } else {
            let line = text_of(&chars, start, end);
            assert(line@ == rest);
            out.push(line);
            assert(texts(out@) == texts(before).push(line@));
            assert(texts(before) + seq![line@] == texts(out@));
            start = end;
            assert(chars@.skip(start as int).len() == 0);
        }
    }
    assert(chars@.skip(start as int).len() == 0);
    assert(texts(out@) + lines(chars@.skip(start as int)) == texts(out@));
    out
}

/// Two texts that are cut at the last `c` are equal only where both parts are.
pub proof fn lemma_cut_at_last(a: Seq<char>, x: Seq<char>, b: Seq<char>, y: Seq<char>, c: char)
    requires
        a + seq![c] + x == b + seq![c] + y,
        !x.contains(c),
        !y.contains(c),
    ensures
        a == b,
        x == y,
{
    let s = a + seq![c] + x;
    let t = b + seq![c] + y;
    assert(s.len() == a.len() + 1 + x.len());
    assert(t.len() == b.len() + 1 + y.len());
    assert(s[a.len() as int] == c);
    assert(t[b.len() as int] == c);
    if a.len() < b.len() {
        assert(s[b.len() as int] == x[b.len() - a.len() - 1]);
    } else if b.len() < a.len() {
        assert(t[a.len() as int] == y[a.len() - b.len() - 1]);
    }
    assert(a == s.take(a.len() as int));
    assert(b == t.take(b.len() as int));
    assert(x == s.skip((a.len() + 1) as int));
    assert(y == t.skip((b.len() + 1) as int));
}

/// Two texts that are cut at the first `c` are equal only where both parts are.
pub proof fn lemma_cut_at_first(a: Seq<char>, x: Seq<char>, b: Seq<char>, y: Seq<char>, c: char)
    requires
        a + seq![c] + x == b + seq![c] + y,
        !a.contains(c),
        !b.contains(c),
    ensures
        a == b,
        x == y,
{
    let s = a + seq![c] + x;
    let t = b + seq![c] + y;
    assert(s.len() == a.len() + 1 + x.len());
    assert(t.len() == b.len() + 1 + y.len());
    assert(s[a.len() as int] == c);
    assert(t[b.len() as int] == c);
    if a.len() < b.len() {
        assert(b[a.len() as int] == c);
    } else if b.len() < a.len() {
        assert(a[b.len() as int] == c);
    }
    assert(a == s.take(a.len() as int));
    assert(b == t.take(b.len() as int));
    assert(x == s.skip((a.len() + 1) as int));
    assert(y == t.skip((b.len() + 1) as int));
}

/// No line holds a line feed.
pub proof fn law_lines_hold_no_line_feed(s: Seq<char>)
    ensures
        forall|i: int| 0 <= i < lines(s).len() ==> !(#[trigger] lines(s)[i]).contains('\n'),
    decreases s.len(),
{
    if s.len() > 0 {
        let k = find(s, '\n');
        lemma_find(s, '\n');
        if k < s.len() {
            let rest = s.skip(k + 1);
            let first = without_cr(s.take(k));
            law_lines_hold_no_line_feed(rest);
            assert forall|i: int| 0 <= i < lines(s).len() implies !(
            #[trigger] lines(s)[i]).contains('\n') by {
                if i == 0 {
                    assert forall|j: int| 0 <= j < first.len() implies first[j] != '\n' by {
                        assert(first[j] == s[j]);
                    }
                } else {
                    assert(lines(s)[i] == lines(rest)[i - 1]);
                }
            }
        }
    }
}

/// Strings are read in their order, each for its own characters.
pub proof fn law_texts(s: Seq<String>, i: int)
    ensures
        texts(s).len() == s.len(),
        0 <= i < s.len() ==> texts(s)[i] == s[i]@,
{
}

/// The letters and digits of ASCII are those from 0 to 9, from A to Z and from a to z, by code
/// point. Beyond ASCII a character is a letter or a digit where Unicode's tables say so.
pub proof fn law_letters_and_digits(c: char)
    ensures
        alphanumeric(c) <==> (48 <= c as int <= 57 || 65 <= c as int <= 90 || 97 <= c as int
            <= 122),
        c as int <= 127 ==> (letter_or_digit(c) <==> (48 <= c as int <= 57 || 65 <= c as int <= 90
            || 97 <= c as int <= 122)),
        c as int > 127 ==> letter_or_digit(c) == unicode_alphanumeric(c),
{
}

/// In uppercase, a letter from a to z is the letter 32 code points before it, and any other
/// ASCII character is itself.
pub proof fn law_ascii_uppercase(c: char)
    ensures
        97 <= c as int <= 122 ==> in_uppercase(c).len() == 1 && in_uppercase(c)[0] as int == c as int
            - 32,
        c as int <= 127 && !(97 <= c as int <= 122) ==> in_uppercase(c) == seq![c],
        c as int > 127 ==> in_uppercase(c) == uppercase(c),
{
}

/// The characters with the `White_Space` property, by code point: there are 25 of them.
pub proof fn law_white_space(c: char)
    ensures
        white_space(c) <==> (9 <= c as int <= 13 || c as int == 32 || c as int == 133 || c as int
            == 160 || c as int == 5760 || 8192 <= c as int <= 8202 || c as int == 8232 || c as int
            == 8233 || c as int == 8239 || c as int == 8287 || c as int == 12288),
{
}

/// A text is blank where all its parts are, and a single character where it is white space.
pub proof fn law_blank(a: Seq<char>, b: Seq<char>, c: char)
    ensures
        blank(Seq::empty()),
        blank(seq![c]) <==> white_space(c),
        blank(a + b) <==> blank(a) && blank(b),
{
    if blank(seq![c]) {
        assert(white_space(seq![c][0]));
    }
    if blank(a + b) {
        assert forall|i: int| 0 <= i < a.len() implies white_space(#[trigger] a[i]) by {
            assert(white_space((a + b)[i]));
        }
        assert forall|i: int| 0 <= i < b.len() implies white_space(#[trigger] b[i]) by {
            assert(white_space((a + b)[a.len() + i]));
        }
    }
}

/// A text that holds one character that is not white space is not blank.
pub proof fn law_one_visible_character(s: Seq<char>, i: int)
    requires
        0 <= i < s.len(),
        !white_space(s[i]),
    ensures
        !blank(s),
{
}

/// The first `c` is found behind a text without it; where there is none, the end is.
pub proof fn law_find(a: Seq<char>, b: Seq<char>, c: char)
    requires
        !a.contains(c),
    ensures
        find(a + seq![c] + b, c) == a.len(),
        find(a, c) == a.len(),
{
    let s = a + seq![c] + b;
    assert forall|j: int| 0 <= j < a.len() implies s[j] != c by {
        assert(s[j] == a[j]);
    }
    assert forall|j: int| 0 <= j < a.len() implies a[j] != c by {
        assert(a.contains(a[j]));
    }
    assert(s[a.len() as int] == c);
    lemma_find_is(s, c, a.len() as int);
    lemma_find_is(a, c, a.len() as int);
}

/// A text without `c` is what follows the last `c`, whatever precedes that, and also where
/// nothing does.
pub proof fn law_after_last(a: Seq<char>, b: Seq<char>, c: char)
    requires
        !b.contains(c),
    ensures
        after_last(a + seq![c] + b, c) == b,
        after_last(b, c) == b,
{
    let s = a + seq![c] + b;
    let k = (a.len() + 1) as int;
    assert(s[k - 1] == c);
    assert forall|j: int| k <= j < s.len() implies s[j] != c by {
        assert(s[j] == b[j - k]);
    }
    lemma_after_last(s, c, k);
    assert(s.skip(k) == b);
    assert forall|j: int| 0 <= j < b.len() implies b[j] != c by {
        assert(b.contains(b[j]));
    }
    lemma_after_last(b, c, 0);
    assert(b.skip(0) == b);
}

/// A line that ends is followed by the lines of the rest. Neither a line feed nor a carriage
/// return before it is part of the line; the last line is one even if it does not end.
pub proof fn law_lines(line: Seq<char>, rest: Seq<char>)
    requires
        !line.contains('\n'),
    ensures
        lines(Seq::empty()) == Seq::<Seq<char>>::empty(),
        line.len() > 0 ==> lines(line) == seq![line],
        line.len() == 0 || line.last() != '\r' ==> lines(line + seq!['\n'] + rest) == seq![line]
            + lines(rest),
        lines(line + seq!['\r', '\n'] + rest) == seq![line] + lines(rest),
{
    law_find(line, rest, '\n');
    let s = line + seq!['\n'] + rest;
    assert(s.take(line.len() as int) == line);
    assert(s.skip((line.len() + 1) as int) == rest);
    let long = line.push('\r');
    assert forall|j: int| 0 <= j < long.len() implies long[j] != '\n' by {
        if j < line.len() {
            assert(line.contains(line[j]));
        }
    }
    law_find(long, rest, '\n');
    let t = long + seq!['\n'] + rest;
    assert(t == line + seq!['\r', '\n'] + rest);
    assert(t.take(long.len() as int) == long);
    assert(t.skip((long.len() + 1) as int) == rest);
    assert(long.drop_last() == line);
}

} // verus!
