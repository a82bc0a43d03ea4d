//! Character-level helpers shared by the name parser and the interface line
//! protocol: conversions between strings and character vectors, tokenising,
//! the CFTI escape convention and decimal rendering.

use vstd::prelude::*;
use vstd::string::*;

verus! {

/// Whether `c` carries the Unicode `White_Space` property: the controls from
/// tab to carriage return, the space, the next-line control, the no-break
/// space, and the spaces and line separators of the general punctuation and
/// ideographic blocks.
pub open spec fn unicode_whitespace(c: char) -> bool {
    let code = c as u32;
    ||| 0x09 <= code <= 0x0D
    ||| code == 0x20
    ||| code == 0x85
    ||| code == 0xA0
    ||| code == 0x1680
    ||| 0x2000 <= code <= 0x200A
    ||| code == 0x2028
    ||| code == 0x2029
    ||| code == 0x202F
    ||| code == 0x205F
    ||| code == 0x3000
}

/// The Unicode lowercase mapping of a whole string, as `str::to_lowercase`
/// computes it.
pub uninterp spec fn unicode_lowercase(s: Seq<char>) -> Seq<char>;

/// Trusted: calls `char::is_whitespace`, which tells whether a character
/// carries the Unicode `White_Space` property.
#[verifier::external_body]
pub(crate) fn is_whitespace(c: char) -> (r: bool)
    ensures
        r == unicode_whitespace(c),
{
    c.is_whitespace()
}

/// Trusted: calls `str::to_lowercase`. The result is named, not defined.
#[verifier::external_body]
pub(crate) fn lowercase(s: &str) -> (r: String)
    ensures
        r@ == unicode_lowercase(s@),
{
    s.to_lowercase()
}

/// Trusted: calls `String::push`, which appends one character.
#[verifier::external_body]
pub(crate) fn push_char(text: &mut String, c: char)
    ensures
        final(text)@ == old(text)@.push(c),
{
    text.push(c)
}

/// The characters of `s`, in order.
pub fn chars_of(s: &str) -> (chars: Vec<char>)
    ensures
        chars@ == s@,
{
    let mut chars: Vec<char> = Vec::new();
    for c in it: s.chars()
        invariant
            chars@ == it.seq().take(it.index()),
            it.seq() == s@,
    {
        chars.push(c);
    }
    chars
}

/// The string made of `chars[from..to]`.
pub fn string_of_range(chars: &Vec<char>, from: usize, to: usize) -> (text: String)
    requires
        from <= to <= chars.len(),
    ensures
        text@ == chars@.subrange(from as int, to as int),
{
    let mut text = String::new();
    let mut i: usize = from;
    while i < to
        invariant
            from <= i <= to <= chars.len(),
            text@ == chars@.subrange(from as int, i as int),
        decreases to - i,
    {
        push_char(&mut text, chars[i]);
        i += 1;
    }
    text
}

/// Whether `chars[from..to]` spells `word`.
pub fn range_is(chars: &Vec<char>, from: usize, to: usize, word: &str) -> (r: bool)
    requires
        from <= to <= chars.len(),
    ensures
        r == (chars@.subrange(from as int, to as int) == word@),
{
    let expected = chars_of(word);
    if expected.len() != to - from {
        assert(chars@.subrange(from as int, to as int).len() != word@.len());
        return false;
    }
    let mut i: usize = 0;
    while i < expected.len()
        invariant
            from <= to <= chars.len(),
            expected.len() == to - from,
            expected@ == word@,
            i <= expected.len(),
            forall|j: int| 0 <= j < i ==> chars@[from + j] == expected@[j],
        decreases expected.len() - i,
    {
        if chars[from + i] != expected[i] {
            assert(chars@.subrange(from as int, to as int)[i as int] != expected@[i as int]);
            return false;
        }
        i += 1;
    }
    assert(chars@.subrange(from as int, to as int) =~= expected@);
    true
}

/// Whether `text` is `word`.
pub fn text_is(text: &str, word: &str) -> (r: bool)
    ensures
        r == (text@ == word@),
{
    let chars = chars_of(text);
    assert(chars@.subrange(0, chars@.len() as int) == chars@);
    range_is(&chars, 0, chars.len(), word)
}

/// Position of the last `c` in `s`, or -1 when `s` holds none.
pub open spec fn last_index_of(s: Seq<char>, c: char) -> int
    decreases s.len(),
{
    if s.len() == 0 {
        -1
    } else if s.last() == c {
        s.len() - 1
    } else {
        last_index_of(s.drop_last(), c)
    }
}

/// `last_index_of` points at an occurrence, and nothing after it matches.
pub proof fn lemma_last_index_of(s: Seq<char>, c: char)
    ensures
        -1 <= last_index_of(s, c) < s.len(),
        last_index_of(s, c) >= 0 ==> s[last_index_of(s, c)] == c,
        forall|j: int| last_index_of(s, c) < j < s.len() ==> s[j] != c,
    decreases s.len(),
{
    if s.len() > 0 && s.last() != c {
        lemma_last_index_of(s.drop_last(), c);
        assert forall|j: int| last_index_of(s, c) < j < s.len() implies s[j] != c by {
            if j < s.len() - 1 {
                assert(s.drop_last()[j] == s[j]);
            }
        }
    }
}

/// Finds the last `c` in `chars`.
pub fn find_last(chars: &Vec<char>, c: char) -> (found: Option<usize>)
    ensures
        match found {
            Some(i) => i as int == last_index_of(chars@, c),
            None => last_index_of(chars@, c) == -1,
        },
{
    let mut i: usize = chars.len();
    assert(chars@.take(chars@.len() as int) == chars@);
    while i > 0
        invariant
            i <= chars.len(),
            last_index_of(chars@, c) == last_index_of(chars@.take(i as int), c),
        decreases i,
    {
        if chars[i - 1] == c {
            return Some(i - 1);
        }
        proof {
            assert(chars@.take(i as int).drop_last() == chars@.take(i - 1));
        }
        i -= 1;
    }
    None
}

/// What separates tokens: white space, and commas too when `commas` is set.
pub open spec fn separates(c: char, commas: bool) -> bool {
    unicode_whitespace(c) || (commas && c == ',')
}

/// First position at or after `i` that holds a separator, or the length.
pub open spec fn token_end(s: Seq<char>, i: int, commas: bool) -> int
    decreases s.len() - i,
{
    if i < 0 || i >= s.len() || separates(s[i], commas) {
        i
    } else {
        token_end(s, i + 1, commas)
    }
}

/// The maximal separator-free runs of `s` that start at or after `i`.
pub open spec fn tokens_from(s: Seq<char>, i: int, commas: bool) -> Seq<Seq<char>>
    decreases s.len() - i,
{
    if i < 0 || i >= s.len() {
        Seq::empty()
    } else if separates(s[i], commas) {
        tokens_from(s, i + 1, commas)
    } else {
        let end = token_end(s, i, commas);
        if i < end <= s.len() {
            seq![s.subrange(i, end)] + tokens_from(s, end, commas)
        } else {
            Seq::empty()
        }
    }
}

/// The tokens of `s`: its maximal runs of characters that are not separators.
pub open spec fn tokens(s: Seq<char>, commas: bool) -> Seq<Seq<char>> {
    tokens_from(s, 0, commas)
}

/// The views of a vector of strings.
pub open spec fn texts(words: Seq<String>) -> Seq<Seq<char>> {
    words.map_values(|w: String| w@)
}

/// Splits `s` into tokens at white space, and at commas too when `commas` is
/// set. Empty tokens are never produced.
pub fn split_tokens(s: &str, commas: bool) -> (words: Vec<String>)
    ensures
        texts(words@) == tokens(s@, commas),
{
    let chars = chars_of(s);
    let n = chars.len();
    let mut words: Vec<String> = Vec::new();
    let mut i: usize = 0;
    assert(texts(words@) + tokens_from(chars@, 0, commas) == tokens(chars@, commas));
    while i < n
        invariant
            i <= n == chars.len(),
            texts(words@) + tokens_from(chars@, i as int, commas) == tokens(chars@, commas),
        decreases n - i,
    {
        let c = chars[i];
        if is_whitespace(c) || (commas && c == ',') {
            i += 1;
        } else {
            let start = i;
            i += 1;
            while i < n && !(is_whitespace(chars[i]) || (commas && chars[i] == ','))
                invariant
                    start < i <= n == chars.len(),
                    token_end(chars@, start as int, commas) == token_end(chars@, i as int, commas),
                decreases n - i,
            {
                i += 1;
            }
            let word = string_of_range(&chars, start, i);
            proof {
                assert(token_end(chars@, start as int, commas) == i);
                assert(texts(words@.push(word)) == texts(words@).push(word@));
                assert(texts(words@).push(word@) + tokens_from(chars@, i as int, commas)
                    == texts(words@) + tokens_from(chars@, start as int, commas));
            }
            words.push(word);
        }
    }
    words
}

/// The character that a backslash followed by `c` stands for in the CFTI
/// convention, if it stands for one.
pub open spec fn cfti_literal(c: char) -> Option<char> {
    if c == 't' {
        Some('\t')
    } else if c == 'n' {
        Some('\n')
    } else if c == 'r' {
        Some('\r')
    } else if c == '\\' {
        Some('\\')
    } else {
        None
    }
}

/// What the CFTI convention decodes `s` to from position `i` on, read once
/// from left to right: a backslash followed by `t`, `n`, `r` or a backslash
/// is a tab, a line feed, a carriage return or one backslash; any other
/// character is itself.
pub open spec fn cfti_unescaped_from(s: Seq<char>, i: int) -> Seq<char>
    decreases s.len() - i,
{
    if i < 0 || i >= s.len() {
        Seq::empty()
    } else if s[i] == '\\' && i + 1 < s.len() && cfti_literal(s[i + 1]) is Some {
        seq![cfti_literal(s[i + 1])->0] + cfti_unescaped_from(s, i + 2)
    } else {
        seq![s[i]] + cfti_unescaped_from(s, i + 1)
    }
}

/// What the CFTI convention decodes `s` to.
pub open spec fn cfti_unescaped(s: Seq<char>) -> Seq<char> {
    cfti_unescaped_from(s, 0)
}

/// Decodes `s` by the CFTI convention.
pub fn cfti_unescape(s: &str) -> (out: String)
    ensures
        out@ == cfti_unescaped(s@),
{
    let chars = chars_of(s);
    let n = chars.len();
    let mut out = String::new();
    let mut i: usize = 0;
    assert(out@ + cfti_unescaped_from(chars@, 0) == cfti_unescaped(chars@));
    while i < n
        invariant
            i <= n == chars.len(),
            out@ + cfti_unescaped_from(chars@, i as int) == cfti_unescaped(chars@),
        decreases n - i,
    {
        let ghost before = out@;
        let c = chars[i];
        let literal = if c == '\\' && i + 1 < n {
            let next = chars[i + 1];
            if next == 't' {
                Some('\t')
            } else if next == 'n' {
                Some('\n')
            } else if next == 'r' {
                Some('\r')
            } else if next == '\\' {
                Some('\\')
            } else {
                None
            }
        } else {
            None
        };
        match literal {
            Some(decoded) => {
                push_char(&mut out, decoded);
                assert(before.push(decoded) + cfti_unescaped_from(chars@, i + 2) == before
                    + cfti_unescaped_from(chars@, i as int));
                i += 2;
            },
            None => {
                push_char(&mut out, c);
                assert(before.push(c) + cfti_unescaped_from(chars@, i + 1) == before
                    + cfti_unescaped_from(chars@, i as int));
                i += 1;
            },
        }
    }
    assert(cfti_unescaped_from(chars@, n as int) =~= Seq::empty());
    out
}

/// What the CFTI convention encodes one character as.
pub open spec fn cfti_escaped_char(c: char) -> Seq<char> {
    if c == '\\' {
        seq!['\\', '\\']
    } else if c == '\t' {
        seq!['\\', 't']
    } else if c == '\n' {
        seq!['\\', 'n']
    } else if c == '\r' {
        seq!['\\', 'r']
    } else {
        seq![c]
    }
}

/// What the CFTI convention encodes `s` as: each character by itself.
pub open spec fn cfti_escaped(s: Seq<char>) -> Seq<char>
    decreases s.len(),
{
    if s.len() == 0 {
        Seq::empty()
    } else {
        cfti_escaped(s.drop_last()) + cfti_escaped_char(s.last())
    }
}

/// Encoded text holds no tab, line feed or carriage return, so it cannot break
/// the line framing.
pub proof fn law_escaped_text_keeps_its_line(s: Seq<char>)
    ensures
        forall|i: int|
            0 <= i < cfti_escaped(s).len() ==> {
                let c = #[trigger] cfti_escaped(s)[i];
                c != '\t' && c != '\n' && c != '\r'
            },
    decreases s.len(),
{
    if s.len() > 0 {
        law_escaped_text_keeps_its_line(s.drop_last());
        let head = cfti_escaped(s.drop_last());
        let tail = cfti_escaped_char(s.last());
        assert forall|i: int| 0 <= i < cfti_escaped(s).len() implies {
            let c = #[trigger] cfti_escaped(s)[i];
            c != '\t' && c != '\n' && c != '\r'
        } by {
            if i < head.len() {
                assert(cfti_escaped(s)[i] == head[i]);
            } else {
                assert(cfti_escaped(s)[i] == tail[i - head.len()]);
            }
        }
    }
}

/// Decoding a text that follows another from the start of the second is
/// decoding the second alone.
proof fn lemma_unescaped_after(front: Seq<char>, back: Seq<char>, k: int)
    requires
        0 <= k <= back.len(),
    ensures
        cfti_unescaped_from(front + back, front.len() + k) == cfti_unescaped_from(back, k),
    decreases back.len() - k,
{
    let whole = front + back;
    if k < back.len() {
        assert(whole[front.len() + k] == back[k]);
        if k + 1 < back.len() {
            assert(whole[front.len() + k + 1] == back[k + 1]);
        }
        if back[k] == '\\' && k + 1 < back.len() && cfti_literal(back[k + 1]) is Some {
            lemma_unescaped_after(front, back, k + 2);
        } else {
            lemma_unescaped_after(front, back, k + 1);
        }
    }
}

/// An encoded text followed by any text decodes to the text that was
/// encoded, followed by what the rest decodes to.
proof fn lemma_escaped_reads_back_before(s: Seq<char>, rest: Seq<char>)
    ensures
        cfti_unescaped(cfti_escaped(s) + rest) == s + cfti_unescaped(rest),
    decreases s.len(),
{
    if s.len() == 0 {
        assert(cfti_escaped(s) + rest =~= rest);
        assert(s + cfti_unescaped(rest) =~= cfti_unescaped(rest));
    } else {
        let c = s.last();
        let code = cfti_escaped_char(c);
        let tail = code + rest;
        lemma_escaped_reads_back_before(s.drop_last(), tail);
        assert(cfti_escaped(s) + rest =~= cfti_escaped(s.drop_last()) + tail);
        lemma_unescaped_after(code, rest, 0);
        assert(tail[0] == code[0]);
        if code.len() == 2 {
            assert(tail[1] == code[1]);
        }
        assert(cfti_unescaped(tail) == seq![c] + cfti_unescaped(rest));
        assert(s.drop_last() + (seq![c] + cfti_unescaped(rest)) =~= s + cfti_unescaped(rest));
    }
}

/// What is encoded reads back: decoding the encoding of a text gives the
/// text.
pub proof fn law_escaped_text_reads_back(s: Seq<char>)
    ensures
        cfti_unescaped(cfti_escaped(s)) == s,
{
    lemma_escaped_reads_back_before(s, Seq::empty());
    assert(cfti_escaped(s) + Seq::<char>::empty() =~= cfti_escaped(s));
    assert(s + cfti_unescaped(Seq::<char>::empty()) =~= s);
}

/// Encodes `s` by the CFTI convention.
pub fn cfti_escape(s: &str) -> (out: String)
    ensures
        out@ == cfti_escaped(s@),
{
    let chars = chars_of(s);
    let mut out = String::new();
    let mut i: usize = 0;
    assert(chars@.take(0) == Seq::<char>::empty());
    while i < chars.len()
        invariant
            i <= chars.len(),
            out@ == cfti_escaped(chars@.take(i as int)),
        decreases chars.len() - i,
    {
        let c = chars[i];
        proof {
            assert(chars@.take(i + 1).drop_last() == chars@.take(i as int));
        }
        if c == '\\' {
            push_char(&mut out, '\\');
            push_char(&mut out, '\\');
        } else if c == '\t' {
            push_char(&mut out, '\\');
            push_char(&mut out, 't');
        } else if c == '\n' {
            push_char(&mut out, '\\');
            push_char(&mut out, 'n');
        } else if c == '\r' {
            push_char(&mut out, '\\');
            push_char(&mut out, 'r');
        } else {
            push_char(&mut out, c);
        }
        i += 1;
    }
    assert(chars@.take(chars@.len() as int) == chars@);
    out
}

/// The decimal digit for `d`.
pub open spec fn digit(d: nat) -> char {
    if d == 0 {
        '0'
    } else if d == 1 {
        '1'
    } else if d == 2 {
        '2'
    } else if d == 3 {
        '3'
    } else if d == 4 {
        '4'
    } else if d == 5 {
        '5'
    } else if d == 6 {
        '6'
    } else if d == 7 {
        '7'
    } else if d == 8 {
        '8'
    } else {
        '9'
    }
}

/// The decimal numeral of `n`, without leading zeros.
pub open spec fn decimal(n: nat) -> Seq<char>
    decreases n,
{
    if n < 10 {
        seq![digit(n)]
    } else {
        decimal(n / 10).push(digit(n % 10))
    }
}

fn digit_of(d: usize) -> (c: char)
    requires
        d < 10,
    ensures
        c == digit(d as nat),
{
    if d == 0 {
        '0'
    } else if d == 1 {
        '1'
    } else if d == 2 {
        '2'
    } else if d == 3 {
        '3'
    } else if d == 4 {
        '4'
    } else if d == 5 {
        '5'
    } else if d == 6 {
        '6'
    } else if d == 7 {
        '7'
    } else if d == 8 {
        '8'
    } else {
        '9'
    }
}

/// Appends the decimal numeral of `n` to `text`.
pub fn push_decimal(text: &mut String, n: usize)
    ensures
        final(text)@ == old(text)@ + decimal(n as nat),
    decreases n,
{
    if n >= 10 {
        push_decimal(text, n / 10);
    }
    push_char(text, digit_of(n % 10));
}

/// The words joined by single spaces.
pub open spec fn joined(words: Seq<Seq<char>>) -> Seq<char>
    decreases words.len(),
{
    if words.len() == 0 {
        Seq::empty()
    } else if words.len() == 1 {
        words[0]
    } else {
        joined(words.drop_last()) + seq![' '] + words.last()
    }
}

/// The words from position `from` on, joined by single spaces.
pub fn join_from(words: &Vec<String>, from: usize) -> (text: String)
    requires
        from <= words.len(),
    ensures
        text@ == joined(texts(words@).skip(from as int)),
{
    let mut text = String::new();
    let mut i: usize = from;
    let ghost all = texts(words@);
    assert(all.skip(from as int).take(0) == Seq::<Seq<char>>::empty());
    while i < words.len()
        invariant
            from <= i <= words.len(),
            all == texts(words@),
            text@ == joined(all.skip(from as int).take(i - from)),
        decreases words.len() - i,
    {
        proof {
            let next = all.skip(from as int).take(i + 1 - from);
            assert(next.drop_last() == all.skip(from as int).take(i - from));
            assert(next.last() == words@[i as int]@);
        }
        if i > from {
            push_char(&mut text, ' ');
        }
        text.append(words[i].as_str());
        i += 1;
    }
    assert(all.skip(from as int).take(words@.len() - from) == all.skip(from as int));
    text
}

} // verus!
