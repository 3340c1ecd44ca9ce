//! The names under which attachments are saved.
use crate::text::{chars_of, trim, trimmed};
use vstd::prelude::*;
use vstd::string::*;

verus! {

/// Whether the character is a control character.
pub open spec fn is_control(c: char) -> bool {
    c <= '\u{1f}' || '\u{7f}' <= c <= '\u{9f}'
}

/// Whether the character separates the parts of a path.
pub open spec fn is_separator(c: char) -> bool {
    c == '/' || c == '\\'
}

/// What follows the last separator.
pub open spec fn last_part(s: Seq<char>) -> Seq<char>
    decreases s.len(),
{
    if s.len() == 0 || is_separator(s.last()) {
        Seq::empty()
    } else {
        last_part(s.drop_last()).push(s.last())
    }
}

/// The characters that are no control characters.
pub open spec fn printable(s: Seq<char>) -> Seq<char> {
    s.filter(|c: char| !is_control(c))
}

/// The name of the file alone, without control characters; nothing where no
/// name is given.
pub open spec fn base_name(filename: Seq<char>) -> Option<Seq<char>> {
    if trim(filename).len() == 0 {
        None
    } else {
        Some(printable(last_part(trim(filename))))
    }
}

proof fn lemma_last_part(s: Seq<char>, i: int)
    requires
        0 <= i <= s.len(),
        forall|k: int| i <= k < s.len() ==> !is_separator(#[trigger] s[k]),
        i == 0 || is_separator(s[i - 1]),
    ensures
        last_part(s) == s.skip(i),
    decreases s.len(),
{
    if i == s.len() {
        assert(s.skip(i) =~= Seq::empty());
    } else {
        assert(!is_separator(s[s.len() - 1]));
        let shorter = s.drop_last();
        lemma_last_part(shorter, i);
        assert(s.skip(i) =~= shorter.skip(i).push(s.last()));
    }
}

/// The name of the file alone, without control characters; nothing where no
/// name is given.
pub fn attachment_base_name(filename: &str) -> (r: Option<String>)
    ensures
        match r {
            Some(name) => base_name(filename@) == Some(name@),
            None => base_name(filename@) is None,
        },
{
    let text = trimmed(filename);
    if text.as_str().is_empty() {
        return None;
    }
    let chars = chars_of(text.as_str());
    let n: usize = chars.len();
    let mut from: usize = n;
    while from > 0 && chars[from - 1] != '/' && chars[from - 1] != '\\'
        invariant
            chars@ == text@,
            from <= n == chars@.len(),
            forall|k: int| from <= k < n ==> !is_separator(#[trigger] chars@[k]),
        decreases from,
    {
        from -= 1;
    }
    proof {
        lemma_last_part(text@, from as int);
    }
    let ghost rest = text@.skip(from as int);
    let ghost keep = |c: char| !is_control(c);
    let mut name = String::new();
    let mut i: usize = from;
    assert(rest.take(0).filter(keep) =~= Seq::empty()) by {
        reveal(Seq::filter);
    }
    while i < n
        invariant
            chars@ == text@,
            rest == text@.skip(from as int),
            keep == (|c: char| !is_control(c)),
            from <= i <= n == chars@.len(),
            name@ == rest.take(i - from).filter(keep),
        decreases n - i,
    {
        let c: char = chars[i];
        proof {
            assert(rest.take(i - from + 1).drop_last() =~= rest.take(i - from));
            assert(rest.take(i - from + 1).last() == c);
            reveal(Seq::filter);
        }
        if !(c <= '\u{1f}' || ('\u{7f}' <= c && c <= '\u{9f}')) {
            name.push(c);
        }
        i += 1;
    }
    assert(rest.take(n - from) =~= rest);
    Some(name)
}

/// The name under which an attachment is saved. `safe` is its base name as the
/// file system takes it, where it has a base name.
pub fn sanitize_attachment_filename(safe: Option<&str>) -> (r: String)
    ensures
        r@ == match safe {
            Some(name) => if name@.len() > 0 {
                name@
            } else {
                "unnamed_attachment"@
            },
            None => "unnamed_attachment"@,
        },
{
    if let Some(name) = safe {
        if !name.is_empty() {
            return name.to_owned();
        }
    }
    "unnamed_attachment".to_owned()
}

proof fn lemma_last_part_is_clean(s: Seq<char>)
    ensures
        forall|i: int| 0 <= i < last_part(s).len() ==> !is_separator(#[trigger] last_part(s)[i]),
    decreases s.len(),
{
    if s.len() > 0 && !is_separator(s.last()) {
        lemma_last_part_is_clean(s.drop_last());
        let before = last_part(s.drop_last());
        assert forall|i: int| 0 <= i < last_part(s).len() implies !is_separator(
            #[trigger] last_part(s)[i],
        ) by {
            if i < before.len() {
                assert(last_part(s)[i] == before[i]);
            }
        }
    }
}

/// A base name leads to no other directory and holds no control character.
pub proof fn law_base_name_is_one_name(filename: Seq<char>)
    ensures
        base_name(filename) matches Some(name) ==> forall|i: int|
            0 <= i < name.len() ==> !is_separator(#[trigger] name[i]) && !is_control(name[i]),
{
    if let Some(name) = base_name(filename) {
        let last = last_part(trim(filename));
        lemma_last_part_is_clean(trim(filename));
        let keep = |c: char| !is_control(c);
        assert forall|i: int| 0 <= i < name.len() implies !is_separator(#[trigger] name[i])
            && !is_control(name[i]) by {
            last.lemma_filter_pred(keep, i);
            last.lemma_filter_contains_rev(keep, name[i]);
        }
    }
}

/// A name of printable characters alone is kept as it is, whatever directories
/// stand before it and whatever white space around it all; a name that says
/// nothing is none.
pub proof fn law_plain_name_is_kept(directory: Seq<char>, separator: char, name: Seq<char>)
    requires
        separator == '/' || separator == '\\',
        name.len() > 0,
        forall|i: int|
            0 <= i < name.len() ==> #[trigger] name[i] != '/' && name[i] != '\\' && name[i] as int
                >= 32 && !(127 <= name[i] as int <= 159) && !crate::text::is_white(name[i]),
        directory.len() > 0 ==> !crate::text::is_white(directory[0]),
    ensures
        base_name(directory.push(separator) + name) == Some(name),
        base_name(name) == Some(name),
        crate::text::all_white(directory) ==> base_name(directory) is None,
{
    let all = directory.push(separator) + name;
    lemma_trim_nothing(all);
    lemma_trim_nothing(name);
    assert(!crate::text::is_white(name[0]));
    assert(!crate::text::is_white(name[name.len() - 1]));
    assert(all.last() == name[name.len() - 1]);
    let n = directory.len() + 1;
    assert forall|k: int| n <= k < all.len() implies !is_separator(#[trigger] all[k]) by {
        assert(all[k] == name[k - n]);
    }
    assert(all[n - 1] == separator);
    lemma_last_part(all, n as int);
    assert(all.skip(n as int) =~= name);
    lemma_last_part(name, 0);
    assert(name.skip(0) =~= name);
    lemma_all_printable(name);
    crate::text::law_trim_takes_white_space_alone(directory);
}

proof fn lemma_trim_nothing(s: Seq<char>)
    requires
        s.len() > 0,
    ensures
        !crate::text::is_white(s[0]) && !crate::text::is_white(s.last()) ==> trim(s) == s,
{
}

proof fn lemma_all_printable(s: Seq<char>)
    requires
        forall|i: int| 0 <= i < s.len() ==> !is_control(#[trigger] s[i]),
    ensures
        printable(s) == s,
    decreases s.len(),
{
    reveal(Seq::filter);
    if s.len() > 0 {
        let rest = s.drop_last();
        assert forall|i: int| 0 <= i < rest.len() implies !is_control(#[trigger] rest[i]) by {
            assert(rest[i] == s[i]);
        }
        lemma_all_printable(rest);
        assert(!is_control(s[s.len() - 1]));
        assert(rest.push(s.last()) =~= s);
    } else {
        assert(printable(s) =~= s);
    }
}

} // verus!
