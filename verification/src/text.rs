//! Text as sequences of characters: the searching, splitting and trimming
//! that the rest of the library is built on.
use vstd::prelude::*;
use vstd::string::*;
use vstd::utf8::{decode_utf8, encode_utf8, valid_utf8};

verus! {

/// `String::push` appends the character to the end of the string.
pub assume_specification[ String::push ](s: &mut String, c: char)
    ensures
        final(s)@ == old(s)@.push(c),
;

/// What `str::to_lowercase` returns.
pub uninterp spec fn lowercase(s: Seq<char>) -> Seq<char>;

/// The lower-case letter of an upper-case letter from `A` to `Z`; any other
/// character as it is.
pub open spec fn lower_ascii(c: char) -> char {
    if 'A' <= c <= 'Z' {
        ((c as int) + 32) as char
    } else {
        c
    }
}

/// Whether the texts differ in the case of the letters from A to Z alone.
pub open spec fn same_letters(a: Seq<char>, b: Seq<char>) -> bool {
    a.len() == b.len() && forall|i: int|
        0 <= i < a.len() ==> lower_ascii(#[trigger] a[i]) == lower_ascii(b[i])
}

/// Whether the text is made of ASCII characters alone.
pub open spec fn all_ascii(s: Seq<char>) -> bool {
    forall|i: int| 0 <= i < s.len() ==> #[trigger] s[i] <= '\u{7f}'
}

/// The text with its letters from A to Z in lower case.
pub open spec fn ascii_lower(s: Seq<char>) -> Seq<char> {
    s.map_values(|c: char| lower_ascii(c))
}

/// `str::to_lowercase` returns the lower-case text of the string, by the rules
/// of Unicode: of ASCII text, that with its letters from A to Z in lower case.
/// What it makes of other characters is not said here.
pub assume_specification[ str::to_lowercase ](s: &str) -> (r: String)
    ensures
        r@ == lowercase(s@),
        all_ascii(s@) ==> r@ == ascii_lower(s@),
;

/// The lower-case text of a string.
pub open spec fn lower(s: Seq<char>) -> Seq<char> {
    if all_ascii(s) {
        ascii_lower(s)
    } else {
        lowercase(s)
    }
}

/// The lower-case text of a string.
pub fn to_lower(s: &str) -> (r: String)
    ensures
        r@ == lower(s@),
{
    s.to_lowercase()
}

/// ASCII texts have the same lower-case text where they differ in the case of
/// letters alone, and only there.
pub proof fn lemma_lower(a: Seq<char>, b: Seq<char>)
    requires
        all_ascii(a),
        all_ascii(b),
    ensures
        lower(a) == lower(b) <==> same_letters(a, b),
{
    if same_letters(a, b) {
        assert(lower(a) =~= lower(b));
    }
    if lower(a) == lower(b) {
        assert(lower(a).len() == lower(b).len());
        assert forall|i: int| 0 <= i < a.len() implies lower_ascii(#[trigger] a[i]) == lower_ascii(
            b[i],
        ) by {
            assert(lower(a)[i] == lower(b)[i]);
        }
    }
}

/// What `String::from_utf8_lossy` returns.
pub uninterp spec fn lossy_text(bytes: Seq<u8>) -> Seq<char>;

/// `String::from_utf8_lossy` reads the bytes as text; bytes that are valid
/// UTF-8 are read as the characters that they encode.
#[verifier::external_body]
pub(crate) fn text_of_bytes(bytes: &[u8]) -> (r: String)
    ensures
        r@ == lossy_text(bytes@),
        valid_utf8(bytes@) ==> r@ == decode_utf8(bytes@),
{
    String::from_utf8_lossy(bytes).into_owned()
}

/// The characters with the Unicode property `White_Space`.
pub open spec fn is_white(c: char) -> bool {
    ||| '\u{9}' <= c <= '\u{d}'
    ||| c == ' '
    ||| c == '\u{85}'
    ||| c == '\u{a0}'
    ||| c == '\u{1680}'
    ||| '\u{2000}' <= c <= '\u{200a}'
    ||| c == '\u{2028}'
    ||| c == '\u{2029}'
    ||| c == '\u{202f}'
    ||| c == '\u{205f}'
    ||| c == '\u{3000}'
}

/// Whether `c` is white space.
pub fn char_is_white(c: char) -> (r: bool)
    ensures
        r == is_white(c),
{
    ('\u{9}' <= c && c <= '\u{d}') || c == ' ' || c == '\u{85}' || c == '\u{a0}' || c == '\u{1680}'
        || ('\u{2000}' <= c && c <= '\u{200a}') || c == '\u{2028}' || c == '\u{2029}' || c
        == '\u{202f}' || c == '\u{205f}' || c == '\u{3000}'
}

/// The characters of `s`.
pub fn chars_of(s: &str) -> (r: Vec<char>)
    ensures
        r@ == s@,
{
    let mut out: Vec<char> = Vec::new();
    for c in it: s.chars()
        invariant
            it.seq() == s@,
            out@ == s@.take(it.index() as int),
    {
        out.push(c);
    }
    out
}

/// The string whose characters are `chars[from..to]`.
pub fn string_of(chars: &[char], from: usize, to: usize) -> (r: String)
    requires
        from <= to <= chars@.len(),
    ensures
        r@ == chars@.subrange(from as int, to as int),
{
    let mut out = String::new();
    let mut i: usize = from;
    while i < to
        invariant
            from <= i <= to <= chars@.len(),
            out@ == chars@.subrange(from as int, i as int),
        decreases to - i,
    {
        out.push(chars[i]);
        i += 1;
    }
    out
}

/// Whether the two texts are equal.
pub fn same(a: &str, b: &str) -> (r: bool)
    ensures
        r == (a@ == b@),
{
    a.to_owned() == b.to_owned()
}

/// Whether `pattern` stands in `s` at position `i`.
pub open spec fn occurs_at(s: Seq<char>, pattern: Seq<char>, i: int) -> bool {
    0 <= i && i + pattern.len() <= s.len() && s.subrange(i, i + pattern.len()) == pattern
}

/// The first position from `from` on at which `pattern` stands in `s`.
pub open spec fn find_from(s: Seq<char>, pattern: Seq<char>, from: int) -> Option<int>
    decreases s.len() + 1 - from,
{
    if from < 0 || from > s.len() {
        None
    } else if occurs_at(s, pattern, from) {
        Some(from)
    } else {
        find_from(s, pattern, from + 1)
    }
}

/// The first position at which `pattern` stands in `s`.
pub open spec fn find(s: Seq<char>, pattern: Seq<char>) -> Option<int> {
    find_from(s, pattern, 0)
}

/// Whether `pattern` stands anywhere in `s`.
pub open spec fn mentions(s: Seq<char>, pattern: Seq<char>) -> bool {
    find(s, pattern) is Some
}

/// Whether `s` begins with `prefix`.
pub open spec fn begins(s: Seq<char>, prefix: Seq<char>) -> bool {
    occurs_at(s, prefix, 0)
}

/// `s` without its first `n` characters.
pub open spec fn after(s: Seq<char>, n: int) -> Seq<char> {
    s.subrange(n, s.len() as int)
}

/// What `find_from` finds is the first position where the pattern stands.
pub proof fn lemma_find_from(s: Seq<char>, pattern: Seq<char>, from: int)
    requires
        0 <= from,
    ensures
        match find_from(s, pattern, from) {
            Some(i) => from <= i <= s.len() - pattern.len() && occurs_at(s, pattern, i) && forall|j: int|
                from <= j < i ==> !#[trigger] occurs_at(s, pattern, j),
            None => forall|j: int| from <= j ==> !#[trigger] occurs_at(s, pattern, j),
        },
    decreases s.len() + 1 - from,
{
    if from <= s.len() && !occurs_at(s, pattern, from) {
        lemma_find_from(s, pattern, from + 1);
    }
}

/// A position where the pattern stands, with none before it, is the one found.
pub proof fn lemma_find_is(s: Seq<char>, pattern: Seq<char>, from: int, i: int)
    requires
        0 <= from <= i,
        occurs_at(s, pattern, i),
        forall|j: int| from <= j < i ==> !#[trigger] occurs_at(s, pattern, j),
    ensures
        find_from(s, pattern, from) == Some(i),
{
    lemma_find_from(s, pattern, from);
}

/// Where the pattern stands nowhere, nothing is found.
pub proof fn lemma_find_none(s: Seq<char>, pattern: Seq<char>, from: int)
    requires
        0 <= from,
        forall|j: int| from <= j ==> !#[trigger] occurs_at(s, pattern, j),
    ensures
        find_from(s, pattern, from) is None,
{
    lemma_find_from(s, pattern, from);
}

/// Whether `pattern` stands in `s` at position `i`.
pub fn is_at(s: &[char], pattern: &[char], i: usize) -> (r: bool)
    requires
        i <= s@.len(),
    ensures
        r == occurs_at(s@, pattern@, i as int),
{
    let n: usize = s.len();
    if n - i < pattern.len() {
        return false;
    }
    let mut k: usize = 0;
    while k < pattern.len()
        invariant
            k <= pattern@.len(),
            i + pattern@.len() <= s@.len() == n,
            forall|m: int| 0 <= m < k ==> s@[i + m] == #[trigger] pattern@[m],
        decreases pattern@.len() - k,
    {
        if s[i + k] != pattern[k] {
            assert(s@.subrange(i as int, i + pattern@.len())[k as int] != pattern@[k as int]);
            return false;
        }
        k += 1;
    }
    assert(s@.subrange(i as int, i + pattern@.len()) =~= pattern@);
    true
}

/// The first position from `from` on at which `pattern` stands in `s`.
pub fn search(s: &[char], pattern: &[char], from: usize) -> (r: Option<usize>)
    requires
        from <= s@.len(),
    ensures
        match r {
            Some(i) => find_from(s@, pattern@, from as int) == Some(i as int),
            None => find_from(s@, pattern@, from as int) is None,
        },
{
    let mut i: usize = from;
    loop
        invariant
            from <= i <= s@.len(),
            find_from(s@, pattern@, i as int) == find_from(s@, pattern@, from as int),
        decreases s@.len() - i,
    {
        if is_at(s, pattern, i) {
            return Some(i);
        }
        if i == s.len() {
            assert(find_from(s@, pattern@, i + 1) is None);
            return None;
        }
        i += 1;
    }
}

/// The first position at which `pattern` stands in `s`.
pub fn find_text(s: &str, pattern: &str) -> (r: Option<usize>)
    ensures
        match r {
            Some(i) => find(s@, pattern@) == Some(i as int),
            None => find(s@, pattern@) is None,
        },
{
    search(chars_of(s).as_slice(), chars_of(pattern).as_slice(), 0)
}

/// Whether `pattern` stands anywhere in `s`.
pub fn contains(s: &str, pattern: &str) -> (r: bool)
    ensures
        r == mentions(s@, pattern@),
{
    find_text(s, pattern).is_some()
}

/// Whether `s` begins with `prefix`.
pub fn starts_with(s: &str, prefix: &str) -> (r: bool)
    ensures
        r == begins(s@, prefix@),
{
    is_at(chars_of(s).as_slice(), chars_of(prefix).as_slice(), 0)
}

/// `s[from..to]`, by characters.
pub fn part(s: &str, from: usize, to: usize) -> (r: String)
    requires
        from <= to <= s@.len(),
    ensures
        r@ == s@.subrange(from as int, to as int),
{
    s.substring_char(from, to).to_owned()
}

/// `s` without the prefix, where it begins with it.
pub fn strip_start(s: &str, prefix: &str) -> (r: Option<String>)
    ensures
        match r {
            Some(rest) => begins(s@, prefix@) && rest@ == after(s@, prefix@.len() as int),
            None => !begins(s@, prefix@),
        },
{
    if starts_with(s, prefix) {
        Some(part(s, prefix.unicode_len(), s.unicode_len()))
    } else {
        None
    }
}

/// The two texts, one after the other.
pub fn join2(a: &str, b: &str) -> (r: String)
    ensures
        r@ == a@ + b@,
{
    a.to_owned().concat(b)
}

/// `s` without the white space at its start.
pub open spec fn trim_start(s: Seq<char>) -> Seq<char>
    decreases s.len(),
{
    if s.len() > 0 && is_white(s[0]) {
        trim_start(s.drop_first())
    } else {
        s
    }
}

/// `s` without the white space at its end.
pub open spec fn trim_end(s: Seq<char>) -> Seq<char>
    decreases s.len(),
{
    if s.len() > 0 && is_white(s.last()) {
        trim_end(s.drop_last())
    } else {
        s
    }
}

/// `s` without the white space around it.
pub open spec fn trim(s: Seq<char>) -> Seq<char> {
    trim_end(trim_start(s))
}

/// `s` without the white space at its start.
pub fn trimmed_start(s: &str) -> (r: String)
    ensures
        r@ == trim_start(s@),
{
    let chars = chars_of(s);
    let mut i: usize = 0;
    assert(s@.subrange(0, s@.len() as int) =~= s@);
    while i < chars.len() && char_is_white(chars[i])
        invariant
            chars@ == s@,
            i <= chars@.len(),
            trim_start(s@) == trim_start(s@.subrange(i as int, s@.len() as int)),
        decreases chars@.len() - i,
    {
        assert(s@.subrange(i as int, s@.len() as int).drop_first() =~= s@.subrange(
            i + 1,
            s@.len() as int,
        ));
        i += 1;
    }
    string_of(chars.as_slice(), i, chars.len())
}

/// `s` without the white space at its end.
pub fn trimmed_end(s: &str) -> (r: String)
    ensures
        r@ == trim_end(s@),
{
    let chars = chars_of(s);
    let mut n: usize = chars.len();
    assert(s@.subrange(0, s@.len() as int) =~= s@);
    while n > 0 && char_is_white(chars[n - 1])
        invariant
            chars@ == s@,
            n <= chars@.len(),
            trim_end(s@) == trim_end(s@.subrange(0, n as int)),
        decreases n,
    {
        assert(s@.subrange(0, n as int).drop_last() =~= s@.subrange(0, n - 1));
        n -= 1;
    }
    string_of(chars.as_slice(), 0, n)
}

/// `s` without the white space around it.
pub fn trimmed(s: &str) -> (r: String)
    ensures
        r@ == trim(s@),
{
    trimmed_end(&trimmed_start(s))
}

/// What a list of strings holds.
pub open spec fn texts(strings: Seq<String>) -> Seq<Seq<char>> {
    strings.map_values(|s: String| s@)
}

/// A line without a carriage return at its end.
pub open spec fn without_cr(line: Seq<char>) -> Seq<char> {
    if line.len() > 0 && line.last() == '\r' {
        line.drop_last()
    } else {
        line
    }
}

/// The lines of a text: each ends at a line feed, or at a carriage return and
/// a line feed; the last one may have no end.
pub open spec fn lines(s: Seq<char>) -> Seq<Seq<char>>
    decreases s.len(),
{
    if s.len() == 0 {
        Seq::empty()
    } else {
        match find(s, "\n"@) {
            Some(i) => {
                proof {
                    lemma_find_from(s, "\n"@, 0);
                    reveal_strlit("\n");
                }
                seq![without_cr(s.take(i))] + lines(after(s, i + 1))
            },
            None => seq![s],
        }
    }
}

/// The texts, one after the other, with `separator` between them.
pub open spec fn joined(parts: Seq<Seq<char>>, separator: Seq<char>) -> Seq<char>
    decreases parts.len(),
{
    if parts.len() == 0 {
        Seq::empty()
    } else if parts.len() == 1 {
        parts[0]
    } else {
        joined(parts.drop_last(), separator) + separator + parts.last()
    }
}

/// The lines of a text.
pub fn split_lines(s: &str) -> (r: Vec<String>)
    ensures
        texts(r@) == lines(s@),
{
    let chars = chars_of(s);
    let newline = chars_of("\n");
    proof {
        reveal_strlit("\n");
    }
    let mut out: Vec<String> = Vec::new();
    let mut from: usize = 0;
    assert(after(s@, 0) =~= s@);
    assert(texts(out@) =~= Seq::<Seq<char>>::empty());
    assert(Seq::<Seq<char>>::empty() + lines(s@) =~= lines(s@));
    while from < chars.len()
        invariant
            chars@ == s@,
            newline@ == "\n"@,
            "\n"@.len() == 1,
            from <= chars@.len(),
            texts(out@) + lines(after(s@, from as int)) == lines(s@),
        decreases chars@.len() - from,
    {
        let ghost rest = after(s@, from as int);
        let ghost before = texts(out@);
        proof {
            lemma_find_shift(s@, "\n"@, from as int);
            lemma_find_from(s@, "\n"@, from as int);
        }
        match search(chars.as_slice(), newline.as_slice(), from) {
            Some(i) => {
                let mut to: usize = i;
                if to > from && chars[to - 1] == '\r' {
                    to -= 1;
                }
                let line = string_of(chars.as_slice(), from, to);
                assert(line@ =~= without_cr(rest.take(i - from)));
                out.push(line);
                from = i + 1;
                assert(after(s@, from as int) =~= after(rest, rest.len() - (s@.len() - from)));
                assert(texts(out@) =~= before.push(line@));
                assert(before.push(line@) + lines(after(s@, from as int)) =~= before + (seq![line@] + lines(
                    after(s@, from as int),
                )));
            },
            None => {
                let line = string_of(chars.as_slice(), from, chars.len());
                assert(line@ =~= rest);
                out.push(line);
                from = chars.len();
                assert(texts(out@) =~= before.push(rest));
                assert(after(s@, from as int) =~= Seq::empty());
                assert(before.push(rest) + Seq::<Seq<char>>::empty() =~= before + seq![rest]);
            },
        }
    }
    assert(after(s@, from as int) =~= Seq::empty());
    assert(texts(out@) + Seq::<Seq<char>>::empty() =~= texts(out@));
    out
}

/// What is found from a position on is what is found in the rest of the text.
pub proof fn lemma_find_shift(s: Seq<char>, pattern: Seq<char>, from: int)
    requires
        0 <= from <= s.len(),
    ensures
        match find_from(s, pattern, from) {
            Some(i) => find(after(s, from), pattern) == Some(i - from),
            None => find(after(s, from), pattern) is None,
        },
{
    let rest = after(s, from);
    lemma_find_from(s, pattern, from);
    lemma_find_from(rest, pattern, 0);
    assert forall|j: int| 0 <= j implies occurs_at(rest, pattern, j) == occurs_at(s, pattern, from + j) by {
        if j + pattern.len() <= rest.len() {
            assert(rest.subrange(j, j + pattern.len()) =~= s.subrange(
                from + j,
                from + j + pattern.len(),
            ));
        }
    }
    match find_from(s, pattern, from) {
        Some(i) => {
            assert(occurs_at(rest, pattern, i - from));
            assert forall|j: int| 0 <= j < i - from implies !#[trigger] occurs_at(rest, pattern, j) by {
                assert(!occurs_at(s, pattern, from + j));
            }
            lemma_find_is(rest, pattern, 0, i - from);
        },
        None => {
            assert forall|j: int| 0 <= j implies !#[trigger] occurs_at(rest, pattern, j) by {
                assert(!occurs_at(s, pattern, from + j));
            }
            lemma_find_none(rest, pattern, 0);
        },
    }
}

/// The strings, one after the other, with `separator` between them.
pub fn join(parts: &[String], separator: &str) -> (r: String)
    ensures
        r@ == joined(texts(parts@), separator@),
{
    let ghost views = texts(parts@);
    let mut out = String::new();
    let mut i: usize = 0;
    while i < parts.len()
        invariant
            views == texts(parts@),
            i <= parts@.len(),
            out@ == joined(views.take(i as int), separator@),
        decreases parts@.len() - i,
    {
        proof {
            assert(views.take(i + 1).drop_last() =~= views.take(i as int));
            assert(views.take(i + 1).last() == parts@[i as int]@);
        }
        if i > 0 {
            out.append(separator);
        }
        out.append(parts[i].as_str());
        proof {
            if i == 0 {
                assert(Seq::empty() + parts@[0]@ =~= parts@[0]@);
            }
        }
        i += 1;
    }
    assert(views.take(parts@.len() as int) =~= views);
    out
}

/// `s` with every `from` replaced by `to`, from left to right.
pub open spec fn replaced(s: Seq<char>, from: Seq<char>, to: Seq<char>) -> Seq<char>
    decreases s.len(),
{
    match find(s, from) {
        Some(i) => if from.len() == 0 {
            s
        } else {
            proof {
                lemma_find_from(s, from, 0);
            }
            s.take(i) + to + replaced(after(s, i + from.len()), from, to)
        },
        None => s,
    }
}

/// `s` with every `from` replaced by `to`, from left to right.
pub fn replace_all(s: &str, from: &str, to: &str) -> (r: String)
    requires
        from@.len() > 0,
    ensures
        r@ == replaced(s@, from@, to@),
{
    let chars = chars_of(s);
    let pattern = chars_of(from);
    let n: usize = chars.len();
    let mut out = String::new();
    let mut at: usize = 0;
    assert(after(s@, 0) =~= s@);
    assert(Seq::<char>::empty() + replaced(s@, from@, to@) =~= replaced(s@, from@, to@));
    loop
        invariant
            chars@ == s@,
            pattern@ == from@,
            from@.len() > 0,
            at <= chars@.len() == n,
            out@ + replaced(after(s@, at as int), from@, to@) == replaced(s@, from@, to@),
        decreases chars@.len() - at,
    {
        let ghost before = out@;
        let ghost rest = after(s@, at as int);
        proof {
            lemma_find_shift(s@, from@, at as int);
            lemma_find_from(s@, from@, at as int);
        }
        match search(chars.as_slice(), pattern.as_slice(), at) {
            Some(i) => {
                let head = string_of(chars.as_slice(), at, i);
                assert(head@ =~= rest.take(i - at));
                out.append(head.as_str());
                out.append(to);
                let ghost old_at = at;
                at = i + pattern.len();
                let ghost tail = replaced(after(s@, at as int), from@, to@);
                assert(after(s@, at as int) =~= after(rest, i - old_at + from@.len()));
                assert(before + head@ + to@ + tail =~= before + (head@ + to@ + tail));
            },
            None => {
                let tail = string_of(chars.as_slice(), at, n);
                assert(tail@ =~= rest);
                out.append(tail.as_str());
                return out;
            },
        }
    }
}

/// `s` without the characters `c` at its end.
pub open spec fn without_trailing(s: Seq<char>, c: char) -> Seq<char>
    decreases s.len(),
{
    if s.len() > 0 && s.last() == c {
        without_trailing(s.drop_last(), c)
    } else {
        s
    }
}

/// `s` without the characters `c` at its end.
pub fn strip_trailing(s: &str, c: char) -> (r: String)
    ensures
        r@ == without_trailing(s@, c),
{
    let chars = chars_of(s);
    let mut n: usize = chars.len();
    assert(s@.subrange(0, s@.len() as int) =~= s@);
    while n > 0 && chars[n - 1] == c
        invariant
            chars@ == s@,
            n <= chars@.len(),
            without_trailing(s@, c) == without_trailing(s@.subrange(0, n as int), c),
        decreases n,
    {
        assert(s@.subrange(0, n as int).drop_last() =~= s@.subrange(0, n - 1));
        n -= 1;
    }
    string_of(chars.as_slice(), 0, n)
}

/// What an optional string holds.
pub open spec fn option_text(s: Option<String>) -> Option<Seq<char>> {
    match s {
        Some(s) => Some(s@),
        None => None,
    }
}

/// What an optional text holds.
pub open spec fn option_str(s: Option<&str>) -> Option<Seq<char>> {
    match s {
        Some(s) => Some(s@),
        None => None,
    }
}

/// The optional text as a string.
pub fn owned(s: Option<&str>) -> (r: Option<String>)
    ensures
        option_text(r) == option_str(s),
{
    match s {
        Some(s) => Some(s.to_owned()),
        None => None,
    }
}

/// How many bytes the text takes in UTF-8.
pub open spec fn byte_len(s: Seq<char>) -> nat {
    encode_utf8(s).len()
}

/// How many bytes the character takes in UTF-8.
pub open spec fn char_bytes(c: char) -> nat {
    if c <= '\u{7f}' {
        1
    } else if c <= '\u{7ff}' {
        2
    } else if c <= '\u{ffff}' {
        3
    } else {
        4
    }
}

/// The bytes of two texts, one after the other, are those of both.
pub proof fn lemma_byte_len_add(a: Seq<char>, b: Seq<char>)
    ensures
        byte_len(a + b) == byte_len(a) + byte_len(b),
    decreases a.len(),
{
    if a.len() == 0 {
        assert(a + b =~= b);
    } else {
        assert((a + b).drop_first() =~= a.drop_first() + b);
        lemma_byte_len_add(a.drop_first(), b);
    }
}

/// One character more, and its bytes more.
pub proof fn lemma_byte_len_push(s: Seq<char>, c: char)
    ensures
        byte_len(s.push(c)) == byte_len(s) + char_bytes(c),
{
    broadcast use vstd::utf8::char_is_scalar;

    lemma_byte_len_add(s, seq![c]);
    assert(s.push(c) =~= s + seq![c]);
    assert(seq![c].drop_first() =~= Seq::empty());
    assert(encode_utf8(Seq::<char>::empty()) =~= Seq::empty());
    assert(encode_utf8(seq![c]) =~= vstd::utf8::encode_scalar(c as u32));
}

/// A longer beginning of a text takes more bytes.
pub proof fn lemma_byte_len_grows(s: Seq<char>, i: int, j: int)
    requires
        0 <= i <= j <= s.len(),
    ensures
        byte_len(s.take(i)) + (j - i) <= byte_len(s.take(j)),
    decreases j - i,
{
    if i < j {
        lemma_byte_len_grows(s, i, j - 1);
        lemma_byte_len_push(s.take(j - 1), s[j - 1]);
        assert(s.take(j) =~= s.take(j - 1).push(s[j - 1]));
    }
}

/// How many bytes the character takes in UTF-8.
pub fn width_of(c: char) -> (r: usize)
    ensures
        r == char_bytes(c),
{
    if c <= '\u{7f}' {
        1
    } else if c <= '\u{7ff}' {
        2
    } else if c <= '\u{ffff}' {
        3
    } else {
        4
    }
}

/// Where the first `i` characters of the text end, in bytes.
pub fn byte_offset(s: &str, i: usize) -> (r: usize)
    requires
        i <= s@.len(),
    ensures
        r == byte_len(s@.take(i as int)),
{
    let head = s.substring_char(0, i);
    assert(head@ =~= s@.take(i as int));
    head.as_bytes().len()
}

/// Whether the first `i` characters of the text end at byte `offset`.
pub open spec fn is_at_byte(s: Seq<char>, i: int, offset: int) -> bool {
    0 <= i <= s.len() && byte_len(s.take(i)) == offset
}

/// The number of characters that end at byte `offset`.
pub fn chars_before(s: &str, offset: usize) -> (r: Option<usize>)
    ensures
        match r {
            Some(i) => is_at_byte(s@, i as int, offset as int),
            None => forall|i: int| !#[trigger] is_at_byte(s@, i, offset as int),
        },
{
    let chars = chars_of(s);
    let total: usize = s.as_bytes().len();
    assert(s@.take(s@.len() as int) =~= s@);
    assert(encode_utf8(s@.take(0)).len() == 0);
    let mut i: usize = 0;
    let mut at: usize = 0;
    while i < chars.len() && at < offset
        invariant
            chars@ == s@,
            total == byte_len(s@),
            i <= chars@.len(),
            s@.take(s@.len() as int) == s@,
            at == byte_len(s@.take(i as int)),
            forall|k: int| 0 <= k < i ==> byte_len(#[trigger] s@.take(k)) < offset,
        decreases chars@.len() - i,
    {
        proof {
            lemma_byte_len_push(s@.take(i as int), s@[i as int]);
            assert(s@.take(i + 1) =~= s@.take(i as int).push(s@[i as int]));
            lemma_byte_len_grows(s@, i + 1, s@.len() as int);
        }
        at = at + width_of(chars[i]);
        i += 1;
    }
    if at == offset {
        Some(i)
    } else {
        assert forall|k: int| !#[trigger] is_at_byte(s@, k, offset as int) by {
            if i <= k <= s@.len() {
                lemma_byte_len_grows(s@, i as int, k);
            }
        }
        None
    }
}

/// What an optional list of names holds.
pub open spec fn option_names(names: Option<&Vec<String>>) -> Option<Seq<Seq<char>>> {
    match names {
        Some(names) => Some(texts(names@)),
        None => None,
    }
}

/// Whether the name is on the list.
pub fn is_listed(names: &Vec<String>, name: &str) -> (r: bool)
    ensures
        r == texts(names@).contains(name@),
{
    let ghost views = texts(names@);
    let mut i: usize = 0;
    while i < names.len()
        invariant
            views == texts(names@),
            i <= names@.len(),
            forall|k: int| 0 <= k < i ==> #[trigger] views[k] != name@,
        decreases names@.len() - i,
    {
        assert(views[i as int] == names@[i as int]@);
        if same(names[i].as_str(), name) {
            return true;
        }
        i += 1;
    }
    false
}

/// The names, and those of `more` that are not among them yet.
pub open spec fn with_new(names: Seq<Seq<char>>, more: Seq<Seq<char>>) -> Seq<Seq<char>>
    decreases more.len(),
{
    if more.len() == 0 {
        names
    } else {
        let before = with_new(names, more.drop_last());
        if before.contains(more.last()) {
            before
        } else {
            before.push(more.last())
        }
    }
}

/// The names on the list, where there is one.
pub open spec fn names_or_none(names: Option<Seq<Seq<char>>>) -> Seq<Seq<char>> {
    match names {
        Some(names) => names,
        None => Seq::empty(),
    }
}

/// Adds the names that are not on the list yet.
pub fn add_new(names: &mut Vec<String>, more: Option<&Vec<String>>)
    ensures
        texts(final(names)@) == with_new(texts(old(names)@), names_or_none(option_names(more))),
{
    if let Some(more) = more {
        let ghost start = texts(names@);
        let ghost views = texts(more@);
        let mut i: usize = 0;
        while i < more.len()
            invariant
                views == texts(more@),
                i <= more@.len(),
                texts(names@) == with_new(start, views.take(i as int)),
            decreases more@.len() - i,
        {
            proof {
                assert(views.take(i + 1).drop_last() =~= views.take(i as int));
                assert(views.take(i + 1).last() == more@[i as int]@);
            }
            if !is_listed(names, more[i].as_str()) {
                let ghost before = texts(names@);
                names.push(more[i].clone());
                assert(texts(names@) =~= before.push(more@[i as int]@));
            }
            i += 1;
        }
        assert(views.take(more@.len() as int) =~= views);
    }
}

/// Whether the text is made of white space alone.
pub open spec fn all_white(s: Seq<char>) -> bool {
    forall|i: int| 0 <= i < s.len() ==> is_white(#[trigger] s[i])
}

/// Taking the white space off a text leaves what stands from its first to its
/// last character that is none, and takes nothing else: nothing is left exactly
/// of a text that is white space alone.
pub proof fn law_trim_takes_white_space_alone(s: Seq<char>)
    ensures
        exists|i: int, j: int|
            0 <= i <= j <= s.len() && trim(s) == #[trigger] s.subrange(i, j) && all_white(s.take(i))
                && all_white(s.skip(j)),
        trim(s).len() > 0 ==> !is_white(trim(s)[0]) && !is_white(trim(s).last()),
        trim(s).len() == 0 <==> all_white(s),
{
    let i = lemma_trim_start(s);
    let t = trim_start(s);
    let n = lemma_trim_end(t);
    let j = i + n;
    assert(trim(s) =~= s.subrange(i, j));
    assert(all_white(s.skip(j))) by {
        assert forall|k: int| 0 <= k < s.skip(j).len() implies is_white(#[trigger] s.skip(j)[k]) by {
            assert(s.skip(j)[k] == t.skip(n)[k]);
        }
    }
    if trim(s).len() > 0 {
        assert(trim(s)[0] == t[0]);
        assert(s[i] == t[0]);
        assert(trim(s).last() == t[n - 1]);
    }
    if all_white(s) {
        if t.len() > 0 {
            assert(is_white(s[i]));
        }
    }
    if trim(s).len() == 0 {
        assert forall|k: int| 0 <= k < s.len() implies is_white(#[trigger] s[k]) by {
            if k < i {
                assert(s[k] == s.take(i)[k]);
            } else {
                assert(s[k] == s.skip(j)[k - j]);
            }
        }
    }
}

/// How many characters of white space a text begins with.
pub proof fn lemma_trim_start(s: Seq<char>) -> (i: int)
    ensures
        0 <= i <= s.len(),
        trim_start(s) == s.skip(i),
        all_white(s.take(i)),
        trim_start(s).len() > 0 ==> !is_white(trim_start(s)[0]),
    decreases s.len(),
{
    if s.len() > 0 && is_white(s[0]) {
        let rest = s.drop_first();
        let i = lemma_trim_start(rest);
        assert(rest.skip(i) =~= s.skip(i + 1));
        assert forall|k: int| 0 <= k < s.take(i + 1).len() implies is_white(
            #[trigger] s.take(i + 1)[k],
        ) by {
            if k > 0 {
                assert(s.take(i + 1)[k] == rest.take(i)[k - 1]);
            }
        }
        i + 1
    } else {
        assert(s.skip(0) =~= s);
        0
    }
}

proof fn lemma_trim_end(s: Seq<char>) -> (n: int)
    ensures
        0 <= n <= s.len(),
        trim_end(s) == s.take(n),
        all_white(s.skip(n)),
        n > 0 ==> !is_white(s[n - 1]),
    decreases s.len(),
{
    if s.len() > 0 && is_white(s.last()) {
        let rest = s.drop_last();
        let n = lemma_trim_end(rest);
        assert(rest.take(n) =~= s.take(n));
        assert forall|k: int| 0 <= k < s.skip(n).len() implies is_white(#[trigger] s.skip(n)[k]) by {
            if k < rest.len() - n {
                assert(s.skip(n)[k] == rest.skip(n)[k]);
            } else {
                assert(s.skip(n)[k] == s.last());
            }
        }
        n
    } else {
        assert(s.take(s.len() as int) =~= s);
        s.len() as int
    }
}

/// What is taken off the end of a text is that character alone, and none of it
/// is left there.
pub proof fn law_no_trailing_character_is_left(s: Seq<char>, c: char)
    ensures
        ({
            let n = without_trailing(s, c).len() as int;
            &&& n <= s.len()
            &&& without_trailing(s, c) == s.take(n)
            &&& n > 0 ==> s[n - 1] != c
            &&& forall|i: int| n <= i < s.len() ==> #[trigger] s[i] == c
        }),
    decreases s.len(),
{
    if s.len() > 0 && s.last() == c {
        let rest = s.drop_last();
        law_no_trailing_character_is_left(rest, c);
        let n = without_trailing(s, c).len() as int;
        assert(rest.take(n) =~= s.take(n));
        assert forall|i: int| n <= i < s.len() implies #[trigger] s[i] == c by {
            if i < rest.len() {
                assert(rest[i] == s[i]);
            }
        }
        if n > 0 {
            assert(rest[n - 1] == s[n - 1]);
        }
    } else {
        assert(s.take(s.len() as int) =~= s);
    }
}

/// The first of the parts stands first, with the separator behind it.
pub proof fn lemma_joined_first(parts: Seq<Seq<char>>, separator: Seq<char>)
    requires
        parts.len() > 1,
    ensures
        joined(parts, separator) == parts[0] + separator + joined(parts.drop_first(), separator),
    decreases parts.len(),
{
    let rest = parts.drop_first();
    let front = parts.drop_last();
    if parts.len() == 2 {
        assert(joined(front, separator) == parts[0]);
        assert(joined(rest, separator) == parts[1]);
    } else {
        lemma_joined_first(front, separator);
        assert(front.drop_first() =~= rest.drop_last());
        assert(joined(parts, separator) =~= parts[0] + separator + (joined(
            rest.drop_last(),
            separator,
        ) + separator + rest.last()));
    }
}

/// The lines of a text hold no line feed, and with line feeds between them they
/// are the text again, but for a line feed at its end. The text here has no
/// carriage return.
pub proof fn law_lines_join_back(s: Seq<char>)
    requires
        forall|i: int| 0 <= i < s.len() ==> #[trigger] s[i] != '\r',
    ensures
        forall|k: int, i: int|
            0 <= k < lines(s).len() && 0 <= i < lines(s)[k].len() ==> #[trigger] lines(s)[k][i]
                != '\n',
        s == joined(lines(s), "\n"@) || s == joined(lines(s), "\n"@) + "\n"@,
        s.len() == 0 ==> lines(s).len() == 0,
        s.len() > 0 ==> lines(s).len() > 0,
        s.len() > 0 && s.last() == '\n' ==> s == joined(lines(s), "\n"@) + "\n"@,
        s.len() > 0 && s.last() != '\n' ==> s == joined(lines(s), "\n"@),
    decreases s.len(),
{
    reveal_strlit("\n");
    let feed = "\n"@;
    lemma_find_from(s, feed, 0);
    if s.len() > 0 {
        match find(s, feed) {
            Some(i) => {
                let head = s.take(i);
                let rest = after(s, i + 1);
                assert(without_cr(head) == head) by {
                    if head.len() > 0 {
                        assert(head.last() == s[i - 1]);
                    }
                }
                law_lines_join_back(rest);
                let all = lines(s);
                assert(all == seq![head] + lines(rest));
                assert(s.subrange(i, i + 1) == feed);
                assert(s[i] == s.subrange(i, i + 1)[0]);
                assert(s =~= head + feed + rest);
                assert(all.drop_first() =~= lines(rest));
                assert forall|k: int, m: int|
                    0 <= k < all.len() && 0 <= m < all[k].len() implies #[trigger] all[k][m]
                    != '\n' by {
                    if k == 0 {
                        assert(!occurs_at(s, feed, m));
                        if s[m] == '\n' {
                            assert(s.subrange(m, m + 1) =~= feed);
                        }
                    } else {
                        assert(all[k][m] == lines(rest)[k - 1][m]);
                    }
                }
                if rest.len() == 0 {
                    assert(all =~= seq![head]);
                    assert(joined(all, feed) == head);
                    assert(s =~= head + feed);
                } else {
                    lemma_joined_first(all, feed);
                    assert(rest.last() == s.last());
                    assert(s =~= head + feed + rest);
                    assert(joined(all, feed) + feed =~= head + feed + (joined(lines(rest), feed)
                        + feed));
                }
            },
            None => {
                assert(joined(seq![s], feed) == s);
                assert forall|m: int| 0 <= m < s.len() implies s[m] != '\n' by {
                    assert(!occurs_at(s, feed, m));
                    if s[m] == '\n' {
                        assert(s.subrange(m, m + 1) =~= feed);
                    }
                }
            },
        }
    }
}

/// Whether the characters are the same, or the same letter from A to Z in the
/// other case.
pub open spec fn same_letter(a: char, b: char) -> bool {
    ||| a == b
    ||| 'A' <= a <= 'Z' && b as int == a as int + 32
    ||| 'A' <= b <= 'Z' && a as int == b as int + 32
}

/// Two texts agree but for the case of letters exactly where they are of one
/// length and agree so in each place.
pub proof fn law_letters_in_any_case(a: Seq<char>, b: Seq<char>)
    ensures
        same_letters(a, b) <==> a.len() == b.len() && forall|i: int|
            0 <= i < a.len() ==> same_letter(a[i], #[trigger] b[i]),
{
    assert forall|i: int| 0 <= i < a.len() && 0 <= i < b.len() implies (lower_ascii(a[i])
        == lower_ascii(#[trigger] b[i])) == same_letter(a[i], b[i]) by {
        lemma_same_letter(a[i], b[i]);
    }
    if same_letters(a, b) {
        assert forall|i: int| 0 <= i < a.len() implies same_letter(a[i], #[trigger] b[i]) by {
            assert(lower_ascii(a[i]) == lower_ascii(b[i]));
        }
    }
}

proof fn lemma_same_letter(a: char, b: char)
    ensures
        (lower_ascii(a) == lower_ascii(b)) == same_letter(a, b),
{
    if 'A' <= a <= 'Z' {
        assert(lower_ascii(a) as int == a as int + 32);
    }
    if 'A' <= b <= 'Z' {
        assert(lower_ascii(b) as int == b as int + 32);
    }
}

/// What stands before the first place of a pattern stays, the pattern itself is
/// replaced, and so it goes on behind it; a text that does not hold the pattern
/// stays as it is.
pub proof fn law_every_place_is_replaced(
    before: Seq<char>,
    pattern: Seq<char>,
    rest: Seq<char>,
    to: Seq<char>,
)
    requires
        pattern.len() > 0,
        forall|j: int|
            0 <= j < before.len() ==> !#[trigger] occurs_at(before + pattern + rest, pattern, j),
    ensures
        replaced(before + pattern + rest, pattern, to) == before + to + replaced(rest, pattern, to),
        find(rest, pattern) is None ==> replaced(rest, pattern, to) == rest,
{
    let s = before + pattern + rest;
    let n = before.len() as int;
    assert(s.subrange(n, n + pattern.len()) =~= pattern);
    lemma_find_is(s, pattern, 0, n);
    assert(s.take(n) =~= before);
    assert(after(s, n + pattern.len()) =~= rest);
}

/// White space is, in ASCII, the characters from tab to carriage return and the
/// space, and beyond it the ones that Unicode lists; nothing else is.
pub proof fn law_white_space_is_what_unicode_lists(c: char)
    ensures
        (c as int) < 128 ==> is_white(c) == (9 <= c as int <= 13 || c as int == 32),
        c as int >= 128 ==> is_white(c) == (seq![
            133int,
            160,
            5760,
            8232,
            8233,
            8239,
            8287,
            12288,
        ].contains(c as int) || 8192 <= c as int <= 8202),
{
    let listed = seq![133int, 160, 5760, 8232, 8233, 8239, 8287, 12288];
    assert(listed[0] == 133 && listed[1] == 160 && listed[2] == 5760 && listed[3] == 8232);
    assert(listed[4] == 8233 && listed[5] == 8239 && listed[6] == 8287 && listed[7] == 12288);
}

/// A line ends at its line feed, and a carriage return right before that is no
/// part of it; what follows is read on in the same way.
pub proof fn law_lines_end_either_way(line: Seq<char>, rest: Seq<char>)
    requires
        forall|i: int| 0 <= i < line.len() ==> #[trigger] line[i] != '\n',
    ensures
        lines(line + "\r\n"@ + rest) == seq![line] + lines(rest),
        line.len() == 0 || line.last() != '\r' ==> lines(line + "\n"@ + rest) == seq![line]
            + lines(rest),
{
    reveal_strlit("\n");
    reveal_strlit("\r\n");
    lemma_first_line(line.push('\r'), rest);
    assert(line.push('\r') + "\n"@ =~= line + "\r\n"@);
    assert(line.push('\r').drop_last() =~= line);
    lemma_first_line(line, rest);
}

proof fn lemma_first_line(line: Seq<char>, rest: Seq<char>)
    requires
        forall|i: int| 0 <= i < line.len() ==> #[trigger] line[i] != '\n',
    ensures
        lines(line + "\n"@ + rest) == seq![without_cr(line)] + lines(rest),
{
    reveal_strlit("\n");
    let all = line + "\n"@ + rest;
    let n = line.len() as int;
    assert(all.subrange(n, n + 1) =~= "\n"@);
    assert forall|j: int| 0 <= j < n implies !#[trigger] occurs_at(all, "\n"@, j) by {
        if occurs_at(all, "\n"@, j) {
            assert(all.subrange(j, j + 1)[0] == all[j]);
            assert(all[j] == line[j]);
        }
    }
    lemma_find_is(all, "\n"@, 0, n);
    assert(all.take(n) =~= line);
    assert(after(all, n + 1) =~= rest);
}

/// New names go behind those that are there, in their order; a list that is
/// missing adds none.
pub proof fn law_new_names_go_behind(names: Seq<Seq<char>>, more: Seq<Seq<char>>)
    ensures
        with_new(names, more).len() >= names.len(),
        with_new(names, more).take(names.len() as int) == names,
        more.no_duplicates() && (forall|i: int|
            0 <= i < more.len() ==> !names.contains(#[trigger] more[i])) ==> with_new(names, more)
            == names + more,
        names_or_none(Some(names)) == names,
        names_or_none(None).len() == 0,
    decreases more.len(),
{
    if more.len() > 0 {
        let rest = more.drop_last();
        law_new_names_go_behind(names, rest);
        let before = with_new(names, rest);
        assert(with_new(names, more).take(names.len() as int) =~= before.take(names.len() as int));
        if more.no_duplicates() && (forall|i: int|
            0 <= i < more.len() ==> !names.contains(#[trigger] more[i])) {
            assert forall|i: int| 0 <= i < rest.len() implies !names.contains(
                #[trigger] rest[i],
            ) by {
                assert(rest[i] == more[i]);
            }
            assert(before == names + rest);
            if before.contains(more.last()) {
                let k = choose|k: int| 0 <= k < before.len() && before[k] == more.last();
                if k < names.len() {
                    assert(names[k] == more[more.len() - 1]);
                    assert(names.contains(more[more.len() - 1]));
                } else {
                    assert(more[k - names.len()] == more[more.len() - 1]);
                }
                assert(false);
            }
            assert(with_new(names, more) =~= names + more);
        }
    } else {
        assert(with_new(names, more).take(names.len() as int) =~= names);
        assert(with_new(names, more) =~= names + more);
    }
}

} // verus!
