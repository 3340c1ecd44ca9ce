//! The order of texts, and the names of a set in that order.
use crate::text::{chars_of, same, texts};
use vstd::prelude::*;
use vstd::string::*;

verus! {

/// Whether `a` comes before `b` in the order of their characters.
pub open spec fn text_before(a: Seq<char>, b: Seq<char>) -> bool
    decreases a.len(),
{
    if b.len() == 0 {
        false
    } else if a.len() == 0 {
        true
    } else if a[0] == b[0] {
        text_before(a.drop_first(), b.drop_first())
    } else {
        a[0] < b[0]
    }
}

/// Whether `a` comes before `b` in the order of their characters.
pub fn comes_before(a: &str, b: &str) -> (r: bool)
    ensures
        r == text_before(a@, b@),
{
    let x = chars_of(a);
    let y = chars_of(b);
    let mut i: usize = 0;
    assert(a@.skip(0) =~= a@);
    assert(b@.skip(0) =~= b@);
    while i < x.len() && i < y.len()
        invariant
            x@ == a@,
            y@ == b@,
            i <= x@.len(),
            i <= y@.len(),
            text_before(a@.skip(i as int), b@.skip(i as int)) == text_before(a@, b@),
        decreases x@.len() - i,
    {
        proof {
            assert(a@.skip(i as int).drop_first() =~= a@.skip(i + 1));
            assert(b@.skip(i as int).drop_first() =~= b@.skip(i + 1));
        }
        if x[i] != y[i] {
            return x[i] < y[i];
        }
        i += 1;
    }
    i < y.len()
}

/// Of two texts that differ, one comes before the other.
pub proof fn lemma_before_total(a: Seq<char>, b: Seq<char>)
    ensures
        a == b || text_before(a, b) || text_before(b, a),
    decreases a.len(),
{
    if a.len() > 0 && b.len() > 0 {
        if a[0] == b[0] {
            lemma_before_total(a.drop_first(), b.drop_first());
            if a.drop_first() == b.drop_first() {
                assert(a =~= seq![a[0]] + a.drop_first());
                assert(b =~= seq![b[0]] + b.drop_first());
            }
        }
    } else if a.len() == 0 && b.len() == 0 {
        assert(a =~= b);
    }
}

/// The order goes on from one text to the next.
pub proof fn lemma_before_trans(a: Seq<char>, b: Seq<char>, c: Seq<char>)
    requires
        text_before(a, b),
        text_before(b, c),
    ensures
        text_before(a, c),
    decreases a.len(),
{
    if a.len() > 0 && a[0] == b[0] && b[0] == c[0] {
        lemma_before_trans(a.drop_first(), b.drop_first(), c.drop_first());
    }
}

proof fn lemma_before_irreflexive(a: Seq<char>)
    ensures
        !text_before(a, a),
    decreases a.len(),
{
    if a.len() > 0 {
        lemma_before_irreflexive(a.drop_first());
    }
}

/// Whether the names stand in their order, none of them twice.
pub open spec fn in_order(names: Seq<Seq<char>>) -> bool {
    forall|i: int, j: int|
        0 <= i < j < names.len() ==> text_before(#[trigger] names[i], #[trigger] names[j])
}

/// Whether the names are those of the set, in their order.
pub open spec fn lists(names: Seq<Seq<char>>, set: Set<Seq<char>>) -> bool {
    in_order(names) && names.to_set() == set
}

/// The names of the set, in their order.
pub open spec fn ordered(set: Set<Seq<char>>) -> Seq<Seq<char>> {
    choose|names: Seq<Seq<char>>| lists(names, set)
}

proof fn lemma_last_is_greatest(names: Seq<Seq<char>>, name: Seq<char>)
    requires
        in_order(names),
        names.contains(name),
    ensures
        name == names.last() || text_before(name, names.last()),
{
    let i = choose|i: int| 0 <= i < names.len() && names[i] == name;
    if i < names.len() - 1 {
        assert(text_before(names[i], names[names.len() - 1]));
    }
}

/// A set has its names in one order only.
proof fn lemma_one_order(a: Seq<Seq<char>>, b: Seq<Seq<char>>)
    requires
        in_order(a),
        in_order(b),
        forall|name: Seq<char>| a.contains(name) <==> b.contains(name),
    ensures
        a == b,
    decreases a.len(),
{
    if a.len() == 0 {
        if b.len() > 0 {
            assert(b.contains(b[0]));
        }
        assert(a =~= b);
    } else {
        assert(a.contains(a.last()));
        if b.len() == 0 {
            assert(b.contains(a.last()));
        }
        assert(b.contains(b.last()));
        lemma_last_is_greatest(a, b.last());
        lemma_last_is_greatest(b, a.last());
        if a.last() != b.last() {
            lemma_before_trans(a.last(), b.last(), a.last());
            lemma_before_irreflexive(a.last());
        }
        let x = a.drop_last();
        let y = b.drop_last();
        assert forall|i: int, j: int| 0 <= i < j < x.len() implies text_before(
            #[trigger] x[i],
            #[trigger] x[j],
        ) by {
            assert(text_before(a[i], a[j]));
        }
        assert forall|i: int, j: int| 0 <= i < j < y.len() implies text_before(
            #[trigger] y[i],
            #[trigger] y[j],
        ) by {
            assert(text_before(b[i], b[j]));
        }
        lemma_rest_is_same(a, b);
        lemma_rest_is_same(b, a);
        lemma_one_order(x, y);
        assert(a =~= x.push(a.last()));
        assert(b =~= y.push(b.last()));
    }
}

proof fn lemma_rest_is_same(a: Seq<Seq<char>>, b: Seq<Seq<char>>)
    requires
        a.len() > 0,
        b.len() > 0,
        in_order(a),
        a.last() == b.last(),
        forall|name: Seq<char>| a.contains(name) ==> b.contains(name),
    ensures
        forall|name: Seq<char>| a.drop_last().contains(name) ==> b.drop_last().contains(name),
{
    assert forall|name: Seq<char>| a.drop_last().contains(name) implies b.drop_last().contains(
        name,
    ) by {
        let i = choose|i: int| 0 <= i < a.drop_last().len() && a.drop_last()[i] == name;
        assert(a[i] == name);
        assert(text_before(a[i], a[a.len() - 1]));
        lemma_before_irreflexive(name);
        assert(a.contains(name));
        let k = choose|k: int| 0 <= k < b.len() && b[k] == name;
        assert(k < b.len() - 1);
        assert(b.drop_last()[k] == name);
    }
}

/// Names in their order are those of their set.
pub proof fn lemma_ordered(names: Seq<Seq<char>>, set: Set<Seq<char>>)
    requires
        lists(names, set),
    ensures
        ordered(set) == names,
{
    let other = ordered(set);
    assert(lists(other, set));
    assert forall|name: Seq<char>| names.contains(name) <==> other.contains(name) by {
        assert(names.to_set().contains(name) == other.to_set().contains(name));
    }
    lemma_one_order(names, other);
}

/// Puts a name among names in their order, unless it is among them.
pub fn put_name(names: &mut Vec<String>, name: &str)
    requires
        in_order(texts(old(names)@)),
    ensures
        in_order(texts(final(names)@)),
        forall|other: Seq<char>|
            texts(final(names)@).contains(other) <==> texts(old(names)@).contains(other) || other
                == name@,
{
    let ghost before = texts(names@);
    let n: usize = names.len();
    let mut i: usize = 0;
    while i < n && comes_before(names[i].as_str(), name)
        invariant
            before == texts(names@),
            i <= n == names@.len(),
            forall|k: int| 0 <= k < i ==> text_before(#[trigger] before[k], name@),
        ensures
            i < n ==> !text_before(before[i as int], name@),
        decreases n - i,
    {
        assert(before[i as int] == names@[i as int]@);
        i += 1;
    }
    if i < n && same(names[i].as_str(), name) {
        assert(before[i as int] == name@);
        return;
    }
    proof {
        if i < n {
            lemma_before_total(before[i as int], name@);
        }
        assert forall|k: int| i <= k < n implies text_before(name@, #[trigger] before[k]) by {
            if k > i {
                assert(text_before(before[i as int], before[k]));
                lemma_before_trans(name@, before[i as int], before[k]);
            }
        }
    }
    let entry = name.to_owned();
    names.insert(i, entry);
    let ghost after = texts(names@);
    proof {
        assert(after =~= before.insert(i as int, name@));
        assert forall|a: int, b: int| 0 <= a < b < after.len() implies text_before(
            #[trigger] after[a],
            #[trigger] after[b],
        ) by {
            let x = if a < i {
                a
            } else {
                a - 1
            };
            let y = if b < i {
                b
            } else {
                b - 1
            };
            if a == i {
                assert(after[b] == before[y]);
            } else if b == i {
                assert(after[a] == before[x]);
            } else {
                assert(after[a] == before[x] && after[b] == before[y]);
                assert(text_before(before[x], before[y]));
            }
        }
        assert forall|other: Seq<char>|
            after.contains(other) <==> before.contains(other) || other == name@ by {
            if before.contains(other) {
                let k = choose|k: int| 0 <= k < before.len() && before[k] == other;
                if k < i {
                    assert(after[k] == other);
                } else {
                    assert(after[k + 1] == other);
                }
            }
            assert(after[i as int] == name@);
            if after.contains(other) && other != name@ {
                let k = choose|k: int| 0 <= k < after.len() && after[k] == other;
                if k < i {
                    assert(before[k] == other);
                } else {
                    assert(before[k - 1] == other);
                }
            }
        }
    }
}

/// A text comes before another exactly where it goes on, at the first place
/// where they differ, with the character that is less, or where the other goes
/// on and it does not.
pub proof fn law_first_difference_decides(a: Seq<char>, b: Seq<char>, i: int)
    requires
        0 <= i <= a.len(),
        i <= b.len(),
        a.take(i) == b.take(i),
    ensures
        i < a.len() && i < b.len() && a[i] != b[i] ==> text_before(a, b) == (a[i] < b[i]),
        i == a.len() && i < b.len() ==> text_before(a, b),
        i == b.len() ==> !text_before(a, b),
    decreases i,
{
    if i > 0 {
        assert(a[0] == a.take(i)[0]);
        assert(b[0] == b.take(i)[0]);
        let x = a.drop_first();
        let y = b.drop_first();
        assert(x.take(i - 1) =~= a.take(i).drop_first());
        assert(y.take(i - 1) =~= b.take(i).drop_first());
        law_first_difference_decides(x, y, i - 1);
    }
}

} // verus!
