//! Strings as sequences of characters: the text operations that the commands
//! are built from, each stated over the characters of its arguments.

use vstd::prelude::*;
use vstd::string::StringExecFns;
use vstd::utf8::encode_utf8;
use vstd::utf8::valid_utf8;

verus! {

/// `String::push` appends one character at the end.
pub assume_specification[ std::string::String::push ](s: &mut std::string::String, c: char)
    ensures
        final(s)@ == old(s)@.push(c),
;

/// The characters of every string of a list, in order.
pub open spec fn texts(list: Seq<String>) -> Seq<Seq<char>> {
    list.map_values(|item: String| item@)
}

/// The characters of an optional string.
pub open spec fn opt_text(item: Option<String>) -> Option<Seq<char>> {
    match item {
        Some(text) => Some(text@),
        None => None,
    }
}

/// The characters of an optional string slice.
pub open spec fn opt_str(item: Option<&str>) -> Option<Seq<char>> {
    match item {
        Some(text) => Some(text@),
        None => None,
    }
}

/// The empty text.
pub fn empty_text() -> (text: String)
    ensures
        text@ == Seq::<char>::empty(),
{
    let text = String::new();
    assert(text@ =~= Seq::<char>::empty());
    text
}

/// Whether a character is a hexadecimal digit, small or capital.
pub open spec fn is_hex(c: char) -> bool {
    ('0' <= c && c <= '9') || ('a' <= c && c <= 'f') || ('A' <= c && c <= 'F')
}

/// A second optional text with the same characters.
pub fn copy_text(text: &Option<String>) -> (copy: Option<String>)
    ensures
        opt_text(copy) == opt_text(*text),
{
    match text {
        Some(t) => Some(t.clone()),
        None => None,
    }
}

/// A text, or an empty one where there is none.
pub open spec fn or_empty(text: Option<Seq<char>>) -> Seq<char> {
    match text {
        Some(t) => t,
        None => Seq::empty(),
    }
}

/// A text, or an empty one where there is none.
pub fn text_or_empty(text: &Option<String>) -> (result: String)
    ensures
        result@ == or_empty(opt_text(*text)),
{
    match text {
        Some(t) => t.clone(),
        None => empty_text(),
    }
}

/// A text, or an empty one where there is none.
pub fn str_or_empty(text: Option<&str>) -> (result: String)
    ensures
        result@ == or_empty(opt_str(text)),
{
    match text {
        Some(t) => String::from_str(t),
        None => empty_text(),
    }
}

/// The characters of `text`, as a list that can be indexed.
pub fn chars_of(text: &str) -> (chars: Vec<char>)
    ensures
        chars@ == text@,
{
    let mut chars: Vec<char> = Vec::new();
    for c in it: text.chars()
        invariant
            it.seq() == text@,
            chars@ == text@.subrange(0, it.index()),
    {
        chars.push(c);
    }
    assert(text@.subrange(0, text@.len() as int) == text@);
    chars
}

/// The string made of the characters from `start` up to `end`.
pub fn slice_text(chars: &Vec<char>, start: usize, end: usize) -> (text: String)
    requires
        start <= end <= chars@.len(),
    ensures
        text@ == chars@.subrange(start as int, end as int),
{
    let mut text = String::new();
    let mut i: usize = start;
    while i < end
        invariant
            start <= i <= end <= chars@.len(),
            text@ == chars@.subrange(start as int, i as int),
        decreases end - i,
    {
        text.push(chars[i]);
        i = i + 1;
    }
    text
}

/// The string made of all the characters of the list.
pub fn text_of(chars: &Vec<char>) -> (text: String)
    ensures
        text@ == chars@,
{
    slice_text(chars, 0, chars.len())
}

/// Whether two strings hold the same characters.
pub fn same(left: &str, right: &str) -> (equal: bool)
    ensures
        equal == (left@ == right@),
{
    let a = chars_of(left);
    let b = chars_of(right);
    if a.len() != b.len() {
        return false;
    }
    let mut i: usize = 0;
    while i < a.len()
        invariant
            i <= a@.len() == b@.len(),
            forall|k: int| 0 <= k < i ==> a@[k] == b@[k],
            a@ == left@,
            b@ == right@,
        decreases a.len() - i,
    {
        if a[i] != b[i] {
            return false;
        }
        i = i + 1;
    }
    assert(a@ =~= b@);
    true
}


/// Joins two texts.
pub fn cat2(a: &str, b: &str) -> (text: String)
    ensures
        text@ == a@ + b@,
{
    let mut text = String::from_str(a);
    text.append(b);
    text
}

/// Joins three texts.
pub fn cat3(a: &str, b: &str, c: &str) -> (text: String)
    ensures
        text@ == a@ + b@ + c@,
{
    let mut text = cat2(a, b);
    text.append(c);
    text
}

/// Joins four texts.
pub fn cat4(a: &str, b: &str, c: &str, d: &str) -> (text: String)
    ensures
        text@ == a@ + b@ + c@ + d@,
{
    let mut text = cat3(a, b, c);
    text.append(d);
    text
}

/// Joins five texts.
pub fn cat5(a: &str, b: &str, c: &str, d: &str, e: &str) -> (text: String)
    ensures
        text@ == a@ + b@ + c@ + d@ + e@,
{
    let mut text = cat4(a, b, c, d);
    text.append(e);
    text
}

/// The place of the first `c`, or the length of the text when it has none.
pub open spec fn first_at(s: Seq<char>, c: char) -> int
    decreases s.len(),
{
    if s.len() == 0 || s[0] == c {
        0
    } else {
        1 + first_at(s.drop_first(), c)
    }
}

/// The place of the last `c`, or -1 when the text has none.
pub open spec fn last_at(s: Seq<char>, c: char) -> int
    decreases s.len(),
{
    if s.len() == 0 || s.last() == c {
        s.len() - 1
    } else {
        last_at(s.drop_last(), c)
    }
}

/// What `first_at` says of the text: the place is the first that holds `c`.
pub proof fn lemma_first_at(s: Seq<char>, c: char)
    ensures
        0 <= first_at(s, c) <= s.len(),
        forall|k: int| 0 <= k < first_at(s, c) ==> s[k] != c,
        first_at(s, c) < s.len() ==> s[first_at(s, c)] == c,
    decreases s.len(),
{
    if s.len() > 0 && s[0] != c {
        lemma_first_at(s.drop_first(), c);
        assert forall|k: int| 0 <= k < first_at(s, c) implies s[k] != c by {
            if k > 0 {
                assert(s.drop_first()[k - 1] == s[k]);
            }
        }
    }
}

/// A place that holds `c` with no `c` before it is the first one.
pub proof fn lemma_first_at_is(s: Seq<char>, c: char, i: int)
    requires
        0 <= i <= s.len(),
        forall|k: int| 0 <= k < i ==> s[k] != c,
        i < s.len() ==> s[i] == c,
    ensures
        first_at(s, c) == i,
{
    lemma_first_at(s, c);
    let j = first_at(s, c);
    if j < i {
        assert(s[j] != c);
    } else if i < j {
        assert(s[i] != c);
    }
}

/// What `last_at` says of the text: the place is the last that holds `c`.
pub proof fn lemma_last_at(s: Seq<char>, c: char)
    ensures
        -1 <= last_at(s, c) < s.len(),
        forall|k: int| last_at(s, c) < k < s.len() ==> s[k] != c,
        last_at(s, c) >= 0 ==> s[last_at(s, c)] == c,
    decreases s.len(),
{
    if s.len() > 0 && s.last() != c {
        lemma_last_at(s.drop_last(), c);
        assert forall|k: int| last_at(s, c) < k < s.len() implies s[k] != c by {
            if k < s.len() - 1 {
                assert(s.drop_last()[k] == s[k]);
            }
        }
    }
}

/// A place that holds `c` with no `c` behind it is the last one.
pub proof fn lemma_last_at_is(s: Seq<char>, c: char, i: int)
    requires
        -1 <= i < s.len(),
        forall|k: int| i < k < s.len() ==> s[k] != c,
        i >= 0 ==> s[i] == c,
    ensures
        last_at(s, c) == i,
{
    lemma_last_at(s, c);
    let j = last_at(s, c);
    if j < i {
        assert(s[i] != c);
    } else if i < j {
        assert(s[j] != c);
    }
}

/// Finds the first `c`; the length of the text when it has none.
pub fn find_first(chars: &Vec<char>, c: char) -> (at: usize)
    ensures
        at == first_at(chars@, c),
        at <= chars@.len(),
{
    let mut i: usize = 0;
    while i < chars.len() && chars[i] != c
        invariant
            i <= chars@.len(),
            forall|k: int| 0 <= k < i ==> chars@[k] != c,
        decreases chars.len() - i,
    {
        i = i + 1;
    }
    proof {
        lemma_first_at_is(chars@, c, i as int);
    }
    i
}

/// Finds the last `c`.
pub fn find_last(chars: &Vec<char>, c: char) -> (at: Option<usize>)
    ensures
        match at {
            Some(i) => i < chars@.len() && i == last_at(chars@, c),
            None => last_at(chars@, c) == -1,
        },
{
    let mut i: usize = chars.len();
    while i > 0
        invariant
            i <= chars@.len(),
            forall|k: int| i <= k < chars@.len() ==> chars@[k] != c,
        decreases i,
    {
        if chars[i - 1] == c {
            proof {
                lemma_last_at_is(chars@, c, i - 1);
            }
            return Some(i - 1);
        }
        i = i - 1;
    }
    proof {
        lemma_last_at_is(chars@, c, -1);
    }
    None
}

/// The text before and behind the first `c`; nothing when there is no `c`.
pub open spec fn split_once_spec(s: Seq<char>, c: char) -> Option<(Seq<char>, Seq<char>)> {
    let i = first_at(s, c);
    if i < s.len() {
        Some((s.subrange(0, i), s.subrange(i + 1, s.len() as int)))
    } else {
        None
    }
}

/// The characters of an optional pair of strings.
pub open spec fn opt_pair(pair: Option<(String, String)>) -> Option<(Seq<char>, Seq<char>)> {
    match pair {
        Some((a, b)) => Some((a@, b@)),
        None => None,
    }
}

/// Splits a text at its first `c`.
pub fn split_once(text: &str, c: char) -> (parts: Option<(String, String)>)
    ensures
        opt_pair(parts) == split_once_spec(text@, c),
{
    let chars = chars_of(text);
    let i = find_first(&chars, c);
    if i < chars.len() {
        Some((slice_text(&chars, 0, i), slice_text(&chars, i + 1, chars.len())))
    } else {
        None
    }
}

/// The parts of a text between the separators; one more part than separators.
pub open spec fn split_all(s: Seq<char>, c: char) -> Seq<Seq<char>>
    decreases s.len(),
    via split_all_ends
{
    let i = first_at(s, c);
    if i < s.len() {
        seq![s.subrange(0, i)] + split_all(s.subrange(i + 1, s.len() as int), c)
    } else {
        seq![s]
    }
}

#[via_fn]
proof fn split_all_ends(s: Seq<char>, c: char) {
    lemma_first_at(s, c);
}

/// Splits a text at every separator.
pub fn split(text: &str, c: char) -> (parts: Vec<String>)
    ensures
        texts(parts@) == split_all(text@, c),
{
    let chars = chars_of(text);
    let ghost n = chars@.len() as int;
    let mut parts: Vec<String> = Vec::new();
    let mut start: usize = 0;
    let mut i: usize = 0;
    assert(chars@.subrange(0, n) =~= chars@);
    assert(texts(parts@) + split_all(chars@, c) =~= split_all(chars@, c));
    while i < chars.len()
        invariant
            start <= i <= chars@.len(),
            n == chars@.len(),
            chars@ == text@,
            texts(parts@) + split_all(chars@.subrange(start as int, n), c) == split_all(chars@, c),
            forall|k: int| start <= k < i ==> chars@[k] != c,
        decreases chars.len() - i,
    {
        if chars[i] == c {
            let ghost rest = chars@.subrange(start as int, n);
            let ghost done = texts(parts@);
            proof {
                assert forall|k: int| 0 <= k < i - start implies rest[k] != c by {
                    assert(chars@[start + k] != c);
                }
                lemma_first_at_is(rest, c, i - start);
                assert(rest.subrange(0, i - start) =~= chars@.subrange(start as int, i as int));
                assert(rest.subrange(i - start + 1, rest.len() as int) =~= chars@.subrange(i + 1, n));
            }
            parts.push(slice_text(&chars, start, i));
            start = i + 1;
            proof {
                let after = split_all(chars@.subrange(start as int, n), c);
                assert(texts(parts@) + after =~= done + (seq![rest.subrange(0, first_at(rest, c))] + after));
            }
        }
        i = i + 1;
    }
    let ghost rest = chars@.subrange(start as int, n);
    let ghost done = texts(parts@);
    proof {
        assert forall|k: int| 0 <= k < rest.len() implies rest[k] != c by {
            assert(chars@[start + k] != c);
        }
        lemma_first_at_is(rest, c, rest.len() as int);
    }
    parts.push(slice_text(&chars, start, chars.len()));
    assert(texts(parts@) =~= done + seq![rest]);
    parts
}

/// Whether the character has Unicode's `White_Space` property.
pub open spec fn is_space(c: char) -> bool {
    ||| 0x9 <= c as u32 <= 0xd
    ||| c as u32 == 0x20
    ||| c as u32 == 0x85
    ||| c as u32 == 0xa0
    ||| c as u32 == 0x1680
    ||| 0x2000 <= c as u32 <= 0x200a
    ||| c as u32 == 0x2028
    ||| c as u32 == 0x2029
    ||| c as u32 == 0x202f
    ||| c as u32 == 0x205f
    ||| c as u32 == 0x3000
}

/// Whether the character is white space.
pub fn whitespace(c: char) -> (space: bool)
    ensures
        space == is_space(c),
{
    let code: u32 = c as u32;
    (0x9 <= code && code <= 0xd) || code == 0x20 || code == 0x85 || code == 0xa0 || code == 0x1680
        || (0x2000 <= code && code <= 0x200a) || code == 0x2028 || code == 0x2029 || code == 0x202f
        || code == 0x205f || code == 0x3000
}

/// The text without the white space that it starts with.
pub open spec fn trim_start(s: Seq<char>) -> Seq<char>
    decreases s.len(),
{
    if s.len() > 0 && is_space(s[0]) {
        trim_start(s.drop_first())
    } else {
        s
    }
}

/// The text without the white space that it ends with.
pub open spec fn trim_end(s: Seq<char>) -> Seq<char>
    decreases s.len(),
{
    if s.len() > 0 && is_space(s.last()) {
        trim_end(s.drop_last())
    } else {
        s
    }
}

/// The text without the white space around it.
pub open spec fn trimmed(s: Seq<char>) -> Seq<char> {
    trim_end(trim_start(s))
}

/// Removes the white space around a text.
pub fn trim(text: &str) -> (inner: String)
    ensures
        inner@ == trimmed(text@),
{
    let chars = chars_of(text);
    let mut start: usize = 0;
    assert(chars@.subrange(0, chars@.len() as int) =~= chars@);
    while start < chars.len() && whitespace(chars[start])
        invariant
            start <= chars@.len(),
            trim_start(chars@) == trim_start(chars@.subrange(start as int, chars@.len() as int)),
        decreases chars.len() - start,
    {
        assert(chars@.subrange(start as int, chars@.len() as int).drop_first() =~= chars@.subrange(
            start + 1,
            chars@.len() as int,
        ));
        start = start + 1;
    }
    assert(trim_start(chars@) == chars@.subrange(start as int, chars@.len() as int));
    let mut end: usize = chars.len();
    while end > start && whitespace(chars[end - 1])
        invariant
            start <= end <= chars@.len(),
            trimmed(chars@) == trim_end(chars@.subrange(start as int, end as int)),
        decreases end,
    {
        assert(chars@.subrange(start as int, end as int).drop_last() =~= chars@.subrange(
            start as int,
            end - 1,
        ));
        end = end - 1;
    }
    slice_text(&chars, start, end)
}

/// Trimming a trimmed text changes nothing.
pub proof fn lemma_trimmed_again(s: Seq<char>)
    ensures
        trimmed(trimmed(s)) == trimmed(s),
{
    lemma_trim_start_ends(s);
    let inner = trim_start(s);
    lemma_trim_end_ends(inner);
    let both = trim_end(inner);
    if both.len() > 0 {
        assert(both[0] == inner[0]);
    }
}

proof fn lemma_trim_start_ends(s: Seq<char>)
    ensures
        trim_start(s).len() > 0 ==> !is_space(trim_start(s)[0]),
    decreases s.len(),
{
    if s.len() > 0 && is_space(s[0]) {
        lemma_trim_start_ends(s.drop_first());
    }
}

proof fn lemma_trim_end_ends(s: Seq<char>)
    ensures
        trim_end(s).len() > 0 ==> !is_space(trim_end(s).last()),
        trim_end(s).len() <= s.len(),
        trim_end(s) == s.subrange(0, trim_end(s).len() as int),
    decreases s.len(),
{
    if s.len() > 0 && is_space(s.last()) {
        lemma_trim_end_ends(s.drop_last());
    }
}

/// The trimmed text is a part of the text.
pub proof fn lemma_trimmed_part(s: Seq<char>) -> (start: int)
    ensures
        0 <= start,
        start + trimmed(s).len() <= s.len(),
        trimmed(s) == s.subrange(start, start + trimmed(s).len()),
{
    let start = s.len() - trim_start(s).len();
    lemma_trim_start_part(s);
    lemma_trim_end_ends(trim_start(s));
    assert(trimmed(s) =~= s.subrange(start, start + trimmed(s).len()));
    start
}

proof fn lemma_trim_start_part(s: Seq<char>)
    ensures
        trim_start(s).len() <= s.len(),
        trim_start(s) == s.subrange(s.len() - trim_start(s).len(), s.len() as int),
    decreases s.len(),
{
    if s.len() > 0 && is_space(s[0]) {
        lemma_trim_start_part(s.drop_first());
        assert(trim_start(s) =~= s.subrange(s.len() - trim_start(s).len(), s.len() as int));
    }
}

/// White space before a trimmed text is trimmed off.
pub proof fn lemma_trimmed_after_space(s: Seq<char>)
    requires
        trimmed(s) == s,
    ensures
        trimmed(seq![' '] + s) == s,
{
    let padded = seq![' '] + s;
    assert(padded.drop_first() =~= s);
    assert(is_space(padded[0]));
    assert(trim_start(padded) == trim_start(s));
}

/// The words of a text: its parts between white space.
pub open spec fn words(s: Seq<char>) -> Seq<Seq<char>>
    decreases s.len(),
{
    let inner = trim_start(s);
    if inner.len() == 0 || inner.len() > s.len() {
        Seq::empty()
    } else {
        let end = word_end(inner);
        if 0 < end <= inner.len() {
            seq![inner.subrange(0, end)] + words(inner.subrange(end, inner.len() as int))
        } else {
            Seq::empty()
        }
    }
}

/// The place of the first white space, or the length of the text.
pub open spec fn word_end(s: Seq<char>) -> int
    decreases s.len(),
{
    if s.len() == 0 || is_space(s[0]) {
        0
    } else {
        1 + word_end(s.drop_first())
    }
}

proof fn lemma_word_end(s: Seq<char>, i: int)
    requires
        0 <= i <= s.len(),
        forall|k: int| 0 <= k < i ==> !is_space(#[trigger] s[k]),
        i < s.len() ==> is_space(s[i]),
    ensures
        word_end(s) == i,
    decreases i,
{
    if i > 0 {
        let tail = s.drop_first();
        assert(!is_space(s[0]));
        assert forall|k: int| 0 <= k < i - 1 implies !is_space(#[trigger] tail[k]) by {
            assert(tail[k] == s[k + 1]);
        }
        lemma_word_end(tail, i - 1);
    }
}

/// Splits a text into its words.
pub fn split_words(text: &str) -> (parts: Vec<String>)
    ensures
        texts(parts@) == words(text@),
{
    let chars = chars_of(text);
    let ghost n = chars@.len() as int;
    let mut parts: Vec<String> = Vec::new();
    let mut at: usize = 0;
    assert(chars@.subrange(0, n) =~= chars@);
    assert(texts(parts@) + words(chars@) =~= words(chars@));
    while at < chars.len()
        invariant
            at <= chars@.len(),
            n == chars@.len(),
            chars@ == text@,
            texts(parts@) + words(chars@.subrange(at as int, n)) == words(chars@),
        decreases chars.len() - at,
    {
        let ghost rest = chars@.subrange(at as int, n);
        let mut start: usize = at;
        while start < chars.len() && whitespace(chars[start])
            invariant
                at <= start <= chars@.len(),
                n == chars@.len(),
                rest == chars@.subrange(at as int, n),
                trim_start(rest) == trim_start(chars@.subrange(start as int, n)),
            decreases chars.len() - start,
        {
            assert(chars@.subrange(start as int, n).drop_first() =~= chars@.subrange(start + 1, n));
            start = start + 1;
        }
        let ghost inner = chars@.subrange(start as int, n);
        assert(trim_start(rest) == inner);
        let mut end: usize = start;
        while end < chars.len() && !whitespace(chars[end])
            invariant
                start <= end <= chars@.len(),
                n == chars@.len(),
                inner == chars@.subrange(start as int, n),
                forall|k: int| 0 <= k < end - start ==> !is_space(#[trigger] inner[k]),
            decreases chars.len() - end,
        {
            assert(inner[end - start] == chars@[end as int]);
            end = end + 1;
        }
        proof {
            if end < n {
                assert(inner[end - start] == chars@[end as int]);
            }
            lemma_word_end(inner, end - start);
        }
        let ghost done = texts(parts@);
        if start < end {
            parts.push(slice_text(&chars, start, end));
            proof {
                assert(inner.subrange(0, end - start) =~= chars@.subrange(start as int, end as int));
                assert(inner.subrange(end - start, inner.len() as int) =~= chars@.subrange(
                    end as int,
                    n,
                ));
                let after = words(chars@.subrange(end as int, n));
                assert(texts(parts@) + after =~= done + (seq![inner.subrange(0, end - start)]
                    + after));
            }
            at = end;
        } else {
            proof {
                if start < n {
                    assert(inner[0] == chars@[start as int]);
                    assert(!is_space(inner[0]));
                }
                assert(words(rest) =~= Seq::<Seq<char>>::empty());
                assert(chars@.subrange(n, n) =~= Seq::<char>::empty());
                assert(words(Seq::<char>::empty()) =~= Seq::<Seq<char>>::empty());
            }
            at = chars.len();
        }
    }
    assert(chars@.subrange(at as int, n) =~= Seq::<char>::empty());
    assert(words(Seq::<char>::empty()) =~= Seq::<Seq<char>>::empty());
    assert(texts(parts@) + Seq::<Seq<char>>::empty() =~= texts(parts@));
    parts
}

/// Whether the text starts with `prefix`.
pub open spec fn starts(s: Seq<char>, prefix: Seq<char>) -> bool {
    prefix.len() <= s.len() && s.subrange(0, prefix.len() as int) == prefix
}

/// Whether the text ends with `suffix`.
pub open spec fn ends(s: Seq<char>, suffix: Seq<char>) -> bool {
    suffix.len() <= s.len() && s.subrange(s.len() - suffix.len(), s.len() as int) == suffix
}

/// Whether `part` stands in the text at place `i`.
pub open spec fn stands_at(s: Seq<char>, part: Seq<char>, i: int) -> bool {
    0 <= i && i + part.len() <= s.len() && s.subrange(i, i + part.len()) == part
}

/// Whether `part` stands anywhere in the text.
pub open spec fn holds(s: Seq<char>, part: Seq<char>) -> bool {
    exists|i: int| stands_at(s, part, i)
}

/// Tests whether `part` stands in the text at place `i`.
pub fn part_at(chars: &Vec<char>, part: &Vec<char>, i: usize) -> (yes: bool)
    ensures
        yes == stands_at(chars@, part@, i as int),
{
    let len: usize = chars.len();
    if i > len || len - i < part.len() {
        return false;
    }
    let mut k: usize = 0;
    while k < part.len()
        invariant
            k <= part@.len(),
            i + part@.len() <= chars@.len() == len,
            forall|m: int| 0 <= m < k ==> chars@[i + m] == part@[m],
        decreases part.len() - k,
    {
        if chars[i + k] != part[k] {
            assert(chars@.subrange(i as int, i + part@.len())[k as int] != part@[k as int]);
            return false;
        }
        k = k + 1;
    }
    assert(chars@.subrange(i as int, i + part@.len()) =~= part@);
    true
}

/// Tests whether a text starts with `prefix`.
pub fn starts_with(text: &str, prefix: &str) -> (yes: bool)
    ensures
        yes == starts(text@, prefix@),
{
    part_at(&chars_of(text), &chars_of(prefix), 0)
}

/// Tests whether a text ends with `suffix`.
pub fn ends_with(text: &str, suffix: &str) -> (yes: bool)
    ensures
        yes == ends(text@, suffix@),
{
    let chars = chars_of(text);
    let part = chars_of(suffix);
    if part.len() > chars.len() {
        return false;
    }
    part_at(&chars, &part, chars.len() - part.len())
}

/// Finds the first place from `from` on where `part` stands.
pub fn find_part(chars: &Vec<char>, part: &Vec<char>, from: usize) -> (at: Option<usize>)
    ensures
        match at {
            Some(i) => {
                &&& from <= i
                &&& i + part@.len() <= chars@.len()
                &&& stands_at(chars@, part@, i as int)
                &&& forall|k: int| from <= k < i ==> !stands_at(chars@, part@, k)
            },
            None => forall|k: int| from <= k ==> !stands_at(chars@, part@, k),
        },
{
    let mut i: usize = from;
    while i <= chars.len()
        invariant
            from <= i,
            i <= chars@.len() || i == from || i == chars@.len() + 1,
            forall|k: int| from <= k < i ==> !stands_at(chars@, part@, k),
        decreases chars.len() + 1 - i,
    {
        if part_at(chars, part, i) {
            return Some(i);
        }
        if i == chars.len() {
            return None;
        }
        i = i + 1;
    }
    None
}

/// Tests whether `part` stands anywhere in a text.
pub fn contains(text: &str, part: &str) -> (yes: bool)
    ensures
        yes == holds(text@, part@),
{
    find_part(&chars_of(text), &chars_of(part), 0).is_some()
}

/// Tests whether a text holds the character.
pub fn contains_char(text: &str, c: char) -> (yes: bool)
    ensures
        yes == text@.contains(c),
{
    let chars = chars_of(text);
    let i = find_first(&chars, c);
    proof {
        lemma_first_at(text@, c);
    }
    i < chars.len()
}

/// The character with an ASCII capital made small.
pub open spec fn ascii_lower(c: char) -> char {
    if 'A' <= c && c <= 'Z' {
        (c as u32 + 32) as char
    } else {
        c
    }
}

/// The character with an ASCII small letter made capital.
pub open spec fn ascii_upper(c: char) -> char {
    if 'a' <= c && c <= 'z' {
        (c as u32 - 32) as char
    } else {
        c
    }
}

/// The text with its ASCII capitals made small.
pub open spec fn lowered(s: Seq<char>) -> Seq<char> {
    s.map_values(|c: char| ascii_lower(c))
}

/// The text with its ASCII small letters made capital.
pub open spec fn raised(s: Seq<char>) -> Seq<char> {
    s.map_values(|c: char| ascii_upper(c))
}

/// Makes an ASCII capital small.
pub fn lower_char(c: char) -> (small: char)
    ensures
        small == ascii_lower(c),
{
    if 'A' <= c && c <= 'Z' {
        let small: u8 = c as u8 + 32;
        small as char
    } else {
        c
    }
}

/// Makes an ASCII small letter capital.
pub fn upper_char(c: char) -> (capital: char)
    ensures
        capital == ascii_upper(c),
{
    if 'a' <= c && c <= 'z' {
        let capital: u8 = c as u8 - 32;
        capital as char
    } else {
        c
    }
}

/// Makes the ASCII capitals of a text small.
pub fn to_ascii_lower(text: &str) -> (small: String)
    ensures
        small@ == lowered(text@),
{
    let chars = chars_of(text);
    let mut small = String::new();
    let mut i: usize = 0;
    while i < chars.len()
        invariant
            i <= chars@.len(),
            small@ == lowered(chars@.subrange(0, i as int)),
        decreases chars.len() - i,
    {
        small.push(lower_char(chars[i]));
        i = i + 1;
        assert(lowered(chars@.subrange(0, i as int)) =~= small@);
    }
    assert(chars@.subrange(0, i as int) =~= chars@);
    small
}

/// Makes the ASCII small letters of a text capital.
pub fn to_ascii_upper(text: &str) -> (capital: String)
    ensures
        capital@ == raised(text@),
{
    let chars = chars_of(text);
    let mut capital = String::new();
    let mut i: usize = 0;
    while i < chars.len()
        invariant
            i <= chars@.len(),
            capital@ == raised(chars@.subrange(0, i as int)),
        decreases chars.len() - i,
    {
        capital.push(upper_char(chars[i]));
        i = i + 1;
        assert(raised(chars@.subrange(0, i as int)) =~= capital@);
    }
    assert(chars@.subrange(0, i as int) =~= chars@);
    capital
}

/// Whether two texts are equal but for the case of ASCII letters.
pub fn same_ignoring_ascii_case(left: &str, right: &str) -> (equal: bool)
    ensures
        equal == (lowered(left@) == lowered(right@)),
{
    same(&to_ascii_lower(left), &to_ascii_lower(right))
}

/// What `str::to_lowercase` makes of a text, by Unicode's rules.
pub uninterp spec fn unicode_lower(s: Seq<char>) -> Seq<char>;

/// `str::to_lowercase`: the result depends on the text alone and is named
/// `unicode_lower`.
#[verifier::external_body]
pub(crate) fn to_lower(text: &str) -> (small: String)
    ensures
        small@ == unicode_lower(text@),
{
    text.to_lowercase()
}

/// What `str::to_uppercase` makes of a text, by Unicode's rules.
pub uninterp spec fn unicode_upper(s: Seq<char>) -> Seq<char>;

/// `str::to_uppercase`: the result depends on the text alone and is named
/// `unicode_upper`.
#[verifier::external_body]
pub(crate) fn to_upper(text: &str) -> (capital: String)
    ensures
        capital@ == unicode_upper(text@),
{
    text.to_uppercase()
}

/// `std::str::from_utf8`: the text that the bytes encode, or nothing where they
/// are not UTF-8.
#[verifier::external_body]
pub(crate) fn from_utf8(bytes: &[u8]) -> (text: Option<String>)
    ensures
        match text {
            Some(s) => encode_utf8(s@) == bytes@,
            None => !valid_utf8(bytes@),
        },
{
    std::str::from_utf8(bytes).ok().map(str::to_owned)
}

/// What the `Debug` form of a string is: in double quotes, escaped.
pub uninterp spec fn quoted_form(s: Seq<char>) -> Seq<char>;

/// `str`'s `Debug` form: the result depends on the text alone and is named
/// `quoted_form`.
#[verifier::external_body]
pub(crate) fn quoted(text: &str) -> (form: String)
    ensures
        form@ == quoted_form(text@),
{
    format!("{text:?}")
}

/// The texts in order with `sep` between each two.
pub open spec fn joined(parts: Seq<Seq<char>>, sep: Seq<char>) -> Seq<char>
    decreases parts.len(),
{
    if parts.len() == 0 {
        Seq::<char>::empty()
    } else if parts.len() == 1 {
        parts[0]
    } else {
        joined(parts.drop_last(), sep) + sep + parts.last()
    }
}

/// Joins the texts with `sep` between each two.
pub fn join(parts: &Vec<String>, sep: &str) -> (text: String)
    ensures
        text@ == joined(texts(parts@), sep@),
{
    let mut text = String::new();
    let mut i: usize = 0;
    while i < parts.len()
        invariant
            i <= parts@.len(),
            text@ == joined(texts(parts@).subrange(0, i as int), sep@),
        decreases parts.len() - i,
    {
        if i > 0 {
            text.append(sep);
        }
        text.append(parts[i].as_str());
        i = i + 1;
        let ghost front = texts(parts@).subrange(0, i as int);
        assert(front.drop_last() =~= texts(parts@).subrange(0, i - 1));
        assert(text@ =~= joined(front, sep@));
    }
    assert(texts(parts@).subrange(0, i as int) =~= texts(parts@));
    text
}

/// The character of a decimal digit.
pub open spec fn digit(n: int) -> char {
    (n + 48) as char
}

/// Whether the character is an ASCII decimal digit.
pub open spec fn is_digit(c: char) -> bool {
    '0' <= c && c <= '9'
}

/// The decimal digits of a number, the highest first.
pub open spec fn decimal(n: int) -> Seq<char>
    decreases n,
{
    if n < 10 {
        seq![digit(n)]
    } else {
        decimal(n / 10).push(digit(n % 10))
    }
}

/// The decimal digits of a number.
pub fn number(n: u64) -> (text: String)
    ensures
        text@ == decimal(n as int),
    decreases n,
{
    let low: u8 = (n % 10) as u8;
    let c: char = (low + 48) as char;
    let mut text = if n < 10 {
        String::new()
    } else {
        number(n / 10)
    };
    text.push(c);
    assert(n < 10 ==> text@ =~= seq![digit(n as int)]);
    text
}

/// The number that a list of decimal digits stands for.
pub open spec fn digits_value(s: Seq<char>) -> int
    decreases s.len(),
{
    if s.len() == 0 {
        0
    } else {
        digits_value(s.drop_last()) * 10 + (s.last() as u32 as int - 48)
    }
}

/// Whether all characters are decimal digits.
pub open spec fn all_digits(s: Seq<char>) -> bool {
    forall|i: int| 0 <= i < s.len() ==> is_digit(#[trigger] s[i])
}

/// The number below or at `max` that a text of digits, with an optional plus
/// sign before them, stands for.
pub open spec fn unsigned_value(s: Seq<char>, max: int) -> Option<int> {
    let body = if s.len() > 0 && s[0] == '+' {
        s.subrange(1, s.len() as int)
    } else {
        s
    };
    if body.len() > 0 && all_digits(body) && digits_value(body) <= max {
        Some(digits_value(body))
    } else {
        None
    }
}

proof fn lemma_digits_value_grows(s: Seq<char>, i: int)
    requires
        0 <= i <= s.len(),
        all_digits(s),
    ensures
        0 <= digits_value(s.subrange(0, i)) <= digits_value(s),
    decreases s.len(),
{
    if i == s.len() {
        assert(s.subrange(0, i) =~= s);
        if s.len() > 0 {
            assert(all_digits(s.drop_last()));
            lemma_digits_value_grows(s.drop_last(), s.len() - 1);
            assert(s.drop_last().subrange(0, s.len() - 1) =~= s.drop_last());
        }
    } else {
        assert(all_digits(s.drop_last()));
        lemma_digits_value_grows(s.drop_last(), i);
        assert(s.drop_last().subrange(0, i) =~= s.subrange(0, i));
    }
}

/// Reads a number as `u64`'s `FromStr` does, refusing one above `max`.
pub fn parse_up_to(text: &str, max: u64) -> (value: Option<u64>)
    ensures
        match value {
            Some(n) => unsigned_value(text@, max as int) == Some(n as int),
            None => unsigned_value(text@, max as int) is None,
        },
{
    let chars = chars_of(text);
    let start: usize = if chars.len() > 0 && chars[0] == '+' {
        1
    } else {
        0
    };
    if start == chars.len() {
        return None;
    }
    let ghost body = chars@.subrange(start as int, chars@.len() as int);
    assert(start == 0 ==> body =~= chars@);
    let mut n: u64 = 0;
    let mut i: usize = start;
    while i < chars.len()
        invariant
            start <= i <= chars@.len(),
            start < chars@.len(),
            chars@ == text@,
            start == (if chars@[0] == '+' { 1int } else { 0int }),
            body == chars@.subrange(start as int, chars@.len() as int),
            start == 0 ==> body == chars@,
            all_digits(body.subrange(0, i - start)),
            n == digits_value(body.subrange(0, i - start)),
            n <= max,
        decreases chars.len() - i,
    {
        let c = chars[i];
        assert(c == body[i - start]);
        if !('0' <= c && c <= '9') {
            assert(!is_digit(body[i - start]));
            return None;
        }
        let d: u64 = c as u64 - 48;
        let ghost longer = body.subrange(0, i - start + 1);
        assert(longer.drop_last() =~= body.subrange(0, i - start));
        assert(digits_value(longer) == n * 10 + d);
        if n > max / 10 || d > max - n * 10 {
            proof {
                if all_digits(body) {
                    lemma_digits_value_grows(body, i - start + 1);
                }
            }
            return None;
        }
        n = n * 10 + d;
        i = i + 1;
    }
    assert(body.subrange(0, i - start) =~= body);
    Some(n)
}

/// The number between the bounds of `i64` that a text of digits, with an
/// optional sign before them, stands for.
pub open spec fn signed_value(s: Seq<char>) -> Option<int> {
    if s.len() > 0 && s[0] == '-' {
        let body = s.subrange(1, s.len() as int);
        if body.len() > 0 && all_digits(body) && digits_value(body) <= -(i64::MIN as int) {
            Some(-digits_value(body))
        } else {
            None
        }
    } else {
        unsigned_value(s, i64::MAX as int)
    }
}

/// Reads a number as `i64`'s `FromStr` does.
pub fn parse_signed(text: &str) -> (value: Option<i64>)
    ensures
        match value {
            Some(n) => signed_value(text@) == Some(n as int),
            None => signed_value(text@) is None,
        },
{
    let chars = chars_of(text);
    if chars.len() > 0 && chars[0] == '-' {
        let body = slice_text(&chars, 1, chars.len());
        if chars.len() > 1 && chars[1] == '+' {
            assert(body@[0] == '+');
            assert(!is_digit(body@[0]));
            return None;
        }
        match parse_up_to(body.as_str(), 9223372036854775808) {
            Some(n) => {
                assert(body@.len() > 0);
                assert(body@[0] == chars@[1]);
                if n == 9223372036854775808 {
                    Some(i64::MIN)
                } else {
                    Some(-(n as i64))
                }
            },
            None => {
                assert(body@.len() > 0 ==> body@[0] == chars@[1]);
                None
            },
        }
    } else {
        match parse_up_to(text, i64::MAX as u64) {
            Some(n) => Some(n as i64),
            None => None,
        }
    }
}

/// Whether the first text comes before the second in the order of their
/// characters.
pub open spec fn before(a: Seq<char>, b: Seq<char>) -> bool
    decreases a.len(),
{
    if b.len() == 0 {
        false
    } else if a.len() == 0 {
        true
    } else if a[0] == b[0] {
        before(a.drop_first(), b.drop_first())
    } else {
        a[0] < b[0]
    }
}

/// Tests whether the first text comes before the second.
pub fn text_before(left: &str, right: &str) -> (yes: bool)
    ensures
        yes == before(left@, right@),
{
    let a = chars_of(left);
    let b = chars_of(right);
    let mut i: usize = 0;
    assert(a@.subrange(0, a@.len() as int) =~= a@);
    assert(b@.subrange(0, b@.len() as int) =~= b@);
    loop
        invariant
            i <= a@.len(),
            i <= b@.len(),
            before(a@, b@) == before(
                a@.subrange(i as int, a@.len() as int),
                b@.subrange(i as int, b@.len() as int),
            ),
            a@ == left@,
            b@ == right@,
        decreases a.len() - i,
    {
        let ghost rest_a = a@.subrange(i as int, a@.len() as int);
        let ghost rest_b = b@.subrange(i as int, b@.len() as int);
        if i == b.len() {
            return false;
        }
        if i == a.len() {
            return true;
        }
        if a[i] != b[i] {
            return a[i] < b[i];
        }
        assert(rest_a.drop_first() =~= a@.subrange(i + 1, a@.len() as int));
        assert(rest_b.drop_first() =~= b@.subrange(i + 1, b@.len() as int));
        i = i + 1;
    }
}

/// No text comes before itself.
pub proof fn lemma_before_irreflexive(a: Seq<char>)
    ensures
        !before(a, a),
    decreases a.len(),
{
    if a.len() > 0 {
        lemma_before_irreflexive(a.drop_first());
    }
}

/// The order of texts is transitive.
pub proof fn lemma_before_transitive(a: Seq<char>, b: Seq<char>, c: Seq<char>)
    requires
        before(a, b),
        before(b, c),
    ensures
        before(a, c),
    decreases a.len(),
{
    if a.len() > 0 && b.len() > 0 && c.len() > 0 && a[0] == b[0] && b[0] == c[0] {
        lemma_before_transitive(a.drop_first(), b.drop_first(), c.drop_first());
    }
}

/// Of two different texts one comes before the other.
pub proof fn lemma_before_total(a: Seq<char>, b: Seq<char>)
    ensures
        a == b || before(a, b) || before(b, a),
    decreases a.len(),
{
    if a.len() > 0 && b.len() > 0 && a[0] == b[0] {
        lemma_before_total(a.drop_first(), b.drop_first());
        if a.drop_first() == b.drop_first() {
            assert(a =~= seq![a[0]] + a.drop_first());
            assert(b =~= seq![b[0]] + b.drop_first());
        }
    } else if a.len() == 0 && b.len() == 0 {
        assert(a =~= b);
    }
}

proof fn lemma_decimal_digits(n: int)
    requires
        n >= 0,
    ensures
        all_digits(decimal(n)),
        decimal(n).len() > 0,
        digits_value(decimal(n)) == n,
    decreases n,
{
    if n < 10 {
        assert(decimal(n).drop_last() =~= Seq::<char>::empty());
        reveal_with_fuel(digits_value, 2);
    } else {
        lemma_decimal_digits(n / 10);
        assert(decimal(n).drop_last() =~= decimal(n / 10));
        assert(n == (n / 10) * 10 + n % 10) by (nonlinear_arith);
    }
}

/// A number that is written down reads back as itself.
pub proof fn law_numbers_read_back(n: int, max: int)
    requires
        0 <= n <= max,
    ensures
        unsigned_value(decimal(n), max) == Some(n),
{
    lemma_decimal_digits(n);
    assert(is_digit(decimal(n)[0]));
}

/// Trimming takes white space off the two ends of a text, all of it, and nothing
/// else.
pub proof fn law_trimming_takes_off_white_space(s: Seq<char>)
    ensures
        trimmed(s).len() > 0 ==> !is_space(trimmed(s)[0]) && !is_space(trimmed(s).last()),
        exists|i: int, j: int|
            0 <= i <= j <= s.len() && trimmed(s) == #[trigger] s.subrange(i, j) && (forall|k: int|
                0 <= k < i ==> is_space(#[trigger] s[k])) && (forall|k: int|
                j <= k < s.len() ==> is_space(#[trigger] s[k])),
{
    let front = trim_start(s);
    lemma_trim_start_cut(s);
    lemma_trim_end_cut(front);
    let i = s.len() - front.len();
    let j = i + trimmed(s).len();
    assert(trimmed(s) =~= s.subrange(i, j));
    assert forall|k: int| j <= k < s.len() implies is_space(#[trigger] s[k]) by {
        assert(front[k - i] == s[k]);
    }
}

proof fn lemma_trim_start_cut(s: Seq<char>)
    ensures
        trim_start(s).len() <= s.len(),
        trim_start(s) == s.subrange(s.len() - trim_start(s).len(), s.len() as int),
        forall|k: int| 0 <= k < s.len() - trim_start(s).len() ==> is_space(#[trigger] s[k]),
        trim_start(s).len() > 0 ==> !is_space(trim_start(s)[0]),
    decreases s.len(),
{
    if s.len() > 0 && is_space(s[0]) {
        let rest = s.drop_first();
        lemma_trim_start_cut(rest);
        let n = trim_start(s).len();
        assert(s.subrange(s.len() - n, s.len() as int) =~= rest.subrange(
            rest.len() - n,
            rest.len() as int,
        ));
        assert forall|k: int| 0 <= k < s.len() - n implies is_space(#[trigger] s[k]) by {
            if k > 0 {
                assert(rest[k - 1] == s[k]);
            }
        }
    } else {
        assert(s.subrange(0, s.len() as int) =~= s);
    }
}

proof fn lemma_trim_end_cut(s: Seq<char>)
    ensures
        trim_end(s).len() <= s.len(),
        trim_end(s) == s.subrange(0, trim_end(s).len() as int),
        forall|k: int| trim_end(s).len() <= k < s.len() ==> is_space(#[trigger] s[k]),
        trim_end(s).len() > 0 ==> !is_space(trim_end(s).last()),
    decreases s.len(),
{
    if s.len() > 0 && is_space(s.last()) {
        let front = s.drop_last();
        lemma_trim_end_cut(front);
        let n = trim_end(s).len() as int;
        assert(s.subrange(0, n) =~= front.subrange(0, n));
        assert forall|k: int| n <= k < s.len() implies is_space(#[trigger] s[k]) by {
            if k < front.len() {
                assert(front[k] == s[k]);
            }
        }
    } else {
        assert(s.subrange(0, s.len() as int) =~= s);
    }
}

/// A text that is parted at a character is what stands before its first place, the
/// character, and what stands behind it; it is parted exactly where it holds the
/// character.
pub proof fn law_texts_part_at_the_first_place(a: Seq<char>, c: char, b: Seq<char>)
    requires
        !a.contains(c),
    ensures
        split_once_spec(a + seq![c] + b, c) == Some((a, b)),
        split_once_spec(a, c) is None,
        split_all(a, c) == seq![a],
        split_all(a + seq![c] + b, c) == seq![a] + split_all(b, c),
{
    let whole = a + seq![c] + b;
    assert forall|k: int| 0 <= k < a.len() implies a[k] != c && whole[k] != c by {
        assert(a.contains(a[k]));
        assert(whole[k] == a[k]);
    }
    lemma_first_at_is(a, c, a.len() as int);
    lemma_first_at_is(whole, c, a.len() as int);
    assert(whole.subrange(0, a.len() as int) =~= a);
    assert(whole.subrange(a.len() as int + 1, whole.len() as int) =~= b);
}

/// Texts are joined in order, each once, with the separator between each two.
pub proof fn law_texts_are_joined_in_order(
    parts: Seq<Seq<char>>,
    last: Seq<char>,
    sep: Seq<char>,
)
    ensures
        joined(Seq::empty(), sep).len() == 0,
        joined(seq![last], sep) == last,
        parts.len() > 0 ==> joined(parts.push(last), sep) == joined(parts, sep) + sep + last,
{
    assert(parts.push(last).drop_last() =~= parts);
}

/// Only ASCII letters change with their case, and they change for good.
pub proof fn law_only_ascii_letters_change_case(s: Seq<char>, i: int)
    requires
        0 <= i < s.len(),
    ensures
        lowered(s).len() == s.len(),
        raised(s).len() == s.len(),
        lowered(lowered(s)) == lowered(s),
        raised(raised(s)) == raised(s),
        !('A' <= s[i] && s[i] <= 'Z') ==> lowered(s)[i] == s[i],
        !('a' <= s[i] && s[i] <= 'z') ==> raised(s)[i] == s[i],
        'A' <= s[i] && s[i] <= 'Z' ==> 'a' <= lowered(s)[i] && lowered(s)[i] <= 'z',
        'a' <= s[i] && s[i] <= 'z' ==> 'A' <= raised(s)[i] && raised(s)[i] <= 'Z',
        lowered(raised(s)) == lowered(s),
{
    assert(lowered(lowered(s)) =~= lowered(s));
    assert(raised(raised(s)) =~= raised(s));
    assert(lowered(raised(s)) =~= lowered(s));
}

proof fn lemma_words(s: Seq<char>, i: int)
    ensures
        0 <= i < words(s).len() ==> words(s)[i].len() > 0 && forall|k: int|
            0 <= k < words(s)[i].len() ==> !is_space(#[trigger] words(s)[i][k]),
    decreases s.len(),
{
    let inner = trim_start(s);
    lemma_trim_start_cut(s);
    if inner.len() > 0 {
        let end = word_end(inner);
        lemma_word_end_is(inner);
        let rest = inner.subrange(end, inner.len() as int);
        if i > 0 {
            lemma_words(rest, i - 1);
            if i < words(s).len() {
                assert(words(s)[i] == words(rest)[i - 1]);
            }
        } else if i == 0 {
            assert(words(s)[0] == inner.subrange(0, end));
        }
    }
}

proof fn lemma_word_end_is(s: Seq<char>)
    ensures
        0 <= word_end(s) <= s.len(),
        s.len() > 0 && !is_space(s[0]) ==> word_end(s) > 0,
        forall|k: int| 0 <= k < word_end(s) ==> !is_space(#[trigger] s[k]),
        word_end(s) < s.len() ==> is_space(s[word_end(s)]),
    decreases s.len(),
{
    if s.len() > 0 && !is_space(s[0]) {
        let rest = s.drop_first();
        lemma_word_end_is(rest);
        assert forall|k: int| 0 <= k < word_end(s) implies !is_space(#[trigger] s[k]) by {
            if k > 0 {
                assert(rest[k - 1] == s[k]);
            }
        }
    }
}

/// A word is not empty and holds no white space.
pub proof fn law_words_hold_no_white_space(s: Seq<char>, i: int)
    requires
        0 <= i < words(s).len(),
    ensures
        words(s)[i].len() > 0,
        forall|k: int| 0 <= k < words(s)[i].len() ==> !is_space(#[trigger] words(s)[i][k]),
{
    lemma_words(s, i);
}

} // verus!
