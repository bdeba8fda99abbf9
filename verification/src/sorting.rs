//! Stable sorting of items by a text and a number.

use vstd::prelude::*;

use crate::text::chars_less;

verus! {

/// An item with the text and the number that it is sorted by.
pub struct Keyed<T> {
    pub key: Vec<char>,
    pub minor: u32,
    pub item: T,
}

/// What an item is sorted by.
pub type SortKey = (Seq<char>, u32);

impl<T> Keyed<T> {
    /// What the item is sorted by.
    pub open spec fn sort_key(self) -> SortKey {
        (self.key@, self.minor)
    }
}

/// `a` comes before `b`: by text, then by number.
pub open spec fn key_less(a: SortKey, b: SortKey) -> bool {
    crate::text::lex_less(a.0, b.0) || (a.0 == b.0 && a.1 < b.1)
}

/// No item comes before one that stands further left.
pub open spec fn is_sorted<T>(s: Seq<Keyed<T>>) -> bool {
    forall|i: int, j: int|
        0 <= i < j < s.len() ==> !key_less(
            (#[trigger] s[j]).sort_key(),
            (#[trigger] s[i]).sort_key(),
        )
}

proof fn lemma_key_order(a: SortKey, b: SortKey, c: SortKey)
    ensures
        !key_less(a, a),
        !(key_less(a, b) && key_less(b, a)),
        key_less(a, b) && key_less(b, c) ==> key_less(a, c),
        !key_less(b, a) && !key_less(c, b) ==> !key_less(c, a),
        key_less(a, b) && !key_less(c, b) ==> !key_less(c, a),
{
    crate::text::lex_less_is_a_strict_order(a.0, b.0, c.0);
    crate::text::lex_less_is_a_strict_order(c.0, a.0, b.0);
    crate::text::lex_less_is_a_strict_order(b.0, c.0, a.0);
    crate::text::lex_less_is_a_strict_order(a.0, c.0, b.0);
}

fn comes_before<T>(a: &Keyed<T>, b: &Keyed<T>) -> (r: bool)
    ensures
        r == key_less(a.sort_key(), b.sort_key()),
{
    if chars_less(&a.key, &b.key) {
        return true;
    }
    if chars_less(&b.key, &a.key) {
        proof {
            crate::text::lex_less_is_a_strict_order(a.key@, b.key@, a.key@);
        }
        return false;
    }
    proof {
        crate::text::lex_less_is_a_strict_order(a.key@, b.key@, a.key@);
    }
    a.minor < b.minor
}

/// The place of `x` among the sorted items of `s`: after every item that does not come after
/// it.
pub open spec fn insert_position<T>(s: Seq<Keyed<T>>, x: Keyed<T>) -> int
    decreases s.len(),
{
    if s.len() > 0 && key_less(x.sort_key(), s.last().sort_key()) {
        insert_position(s.drop_last(), x)
    } else {
        s.len() as int
    }
}

/// `s` sorted: items are put in place one by one, from left to right, each after those that
/// are equal to it.
pub open spec fn sorted_seq<T>(s: Seq<Keyed<T>>) -> Seq<Keyed<T>>
    decreases s.len(),
{
    if s.len() == 0 {
        s
    } else {
        let rest = sorted_seq(s.drop_last());
        rest.insert(insert_position(rest, s.last()), s.last())
    }
}

proof fn lemma_insert_position<T>(s: Seq<Keyed<T>>, x: Keyed<T>)
    ensures
        0 <= insert_position(s, x) <= s.len(),
        forall|i: int|
            insert_position(s, x) <= i < s.len() ==> key_less(
                x.sort_key(),
                (#[trigger] s[i]).sort_key(),
            ),
        insert_position(s, x) > 0 ==> !key_less(
            x.sort_key(),
            s[insert_position(s, x) - 1].sort_key(),
        ),
    decreases s.len(),
{
    if s.len() > 0 && key_less(x.sort_key(), s.last().sort_key()) {
        lemma_insert_position(s.drop_last(), x);
        assert forall|i: int| insert_position(s, x) <= i < s.len() implies key_less(
            x.sort_key(),
            (#[trigger] s[i]).sort_key(),
        ) by {
            if i < s.len() - 1 {
                assert(s.drop_last()[i] == s[i]);
            }
        }
    }
}

proof fn lemma_insert_keeps_sorted<T>(s: Seq<Keyed<T>>, x: Keyed<T>)
    requires
        is_sorted(s),
    ensures
        0 <= insert_position(s, x) <= s.len(),
        is_sorted(s.insert(insert_position(s, x), x)),
{
    lemma_insert_position(s, x);
    let p = insert_position(s, x);
    let t = s.insert(p, x);
    assert forall|i: int, j: int| 0 <= i < j < t.len() implies !key_less(
        (#[trigger] t[j]).sort_key(),
        (#[trigger] t[i]).sort_key(),
    ) by {
        let old_i = if i < p {
            i
        } else {
            i - 1
        };
        let old_j = if j < p {
            j
        } else {
            j - 1
        };
        if i != p && j != p {
            assert(t[i] == s[old_i] && t[j] == s[old_j]);
        } else if i == p {
            assert(t[j] == s[j - 1]);
            lemma_key_order(x.sort_key(), s[j - 1].sort_key(), x.sort_key());
        } else {
            assert(t[i] == s[i]);
            if i < p - 1 {
                assert(!key_less(s[p - 1].sort_key(), s[i].sort_key()));
            }
            lemma_key_order(s[i].sort_key(), s[p - 1].sort_key(), x.sort_key());
        }
    }
}

/// Sorting puts every item in its place and keeps them all.
pub proof fn sorting_is_correct<T>(s: Seq<Keyed<T>>)
    ensures
        is_sorted(sorted_seq(s)),
        sorted_seq(s).len() == s.len(),
        sorted_seq(s).to_multiset() == s.to_multiset(),
    decreases s.len(),
{
    broadcast use vstd::seq_lib::group_to_multiset_ensures;

    if s.len() > 0 {
        let rest = sorted_seq(s.drop_last());
        let x = s.last();
        sorting_is_correct(s.drop_last());
        lemma_insert_keeps_sorted(rest, x);
        vstd::seq_lib::to_multiset_insert(rest, insert_position(rest, x), x);
        assert(s =~= s.drop_last().push(x));
        assert(s.drop_last().push(x).to_multiset() =~= s.drop_last().to_multiset().insert(x));
    }
}

/// Sorts items by text, then by number; equal items keep their order.
pub fn sort_keyed<T>(items: Vec<Keyed<T>>) -> (sorted: Vec<Keyed<T>>)
    ensures
        sorted@ == sorted_seq(items@),
        is_sorted(sorted@),
        sorted@.to_multiset() == items@.to_multiset(),
{
    let ghost all = items@;
    let mut sorted: Vec<Keyed<T>> = Vec::new();
    for x in it: items
        invariant
            it.seq() == all,
            sorted@ == sorted_seq(all.take(it.index() as int)),
    {
        let ghost rest = sorted@;
        let mut p: usize = sorted.len();
        assert(rest.take(rest.len() as int) =~= rest);
        while p > 0 && comes_before(&x, &sorted[p - 1])
            invariant
                p <= sorted@.len(),
                sorted@ == rest,
                insert_position(rest, x) == insert_position(rest.take(p as int), x),
            decreases p,
        {
            assert(rest.take(p as int).last() == rest[p - 1]);
            assert(rest.take(p as int).drop_last() =~= rest.take(p - 1));
            p = p - 1;
        }
        proof {
            if p > 0 {
                assert(rest.take(p as int).last() == rest[p - 1]);
            }
            let longer = all.take(it.index() as int + 1);
            assert(longer.drop_last() =~= all.take(it.index() as int));
            assert(longer.last() == x);
        }
        sorted.insert(p, x);
    }
    assert(all.take(all.len() as int) =~= all);
    proof {
        sorting_is_correct(all);
    }
    sorted
}

/// Sorting adds nothing: every item of the sorted list is one of those given.
pub proof fn sorting_adds_nothing<T>(s: Seq<Keyed<T>>, i: int)
    requires
        0 <= i < sorted_seq(s).len(),
    ensures
        s.contains(sorted_seq(s)[i]),
{
    sorting_is_correct(s);
    let x = sorted_seq(s)[i];
    sorted_seq(s).to_multiset_ensures();
    s.to_multiset_ensures();
    assert(sorted_seq(s).contains(x));
    assert(sorted_seq(s).to_multiset().count(x) > 0);
    assert(s.to_multiset().count(x) > 0);
}

/// Items with the same key keep their order.
pub proof fn equal_keys_keep_their_order<T>(
    s: Seq<Keyed<T>>,
    key: SortKey,
    pick: spec_fn(Keyed<T>) -> bool,
)
    requires
        forall|x: Keyed<T>| #[trigger] pick(x) == (x.sort_key() == key),
    ensures
        sorted_seq(s).filter(pick) == s.filter(pick),
    decreases s.len(),
{
    reveal(Seq::filter);
    if s.len() > 0 {
        let rest = sorted_seq(s.drop_last());
        let x = s.last();
        equal_keys_keep_their_order(s.drop_last(), key, pick);
        sorting_is_correct(s.drop_last());
        lemma_filter_insert(rest, x, key, pick);
    }
}

proof fn lemma_filter_insert<T>(
    rest: Seq<Keyed<T>>,
    x: Keyed<T>,
    key: SortKey,
    pick: spec_fn(Keyed<T>) -> bool,
)
    requires
        forall|y: Keyed<T>| #[trigger] pick(y) == (y.sort_key() == key),
    ensures
        0 <= insert_position(rest, x) <= rest.len(),
        rest.insert(insert_position(rest, x), x).filter(pick) == if pick(x) {
            rest.filter(pick).push(x)
        } else {
            rest.filter(pick)
        },
    decreases rest.len(),
{
    reveal(Seq::filter);
    let p = insert_position(rest, x);
    if rest.len() > 0 && key_less(x.sort_key(), rest.last().sort_key()) {
        let shorter = rest.drop_last();
        lemma_filter_insert(shorter, x, key, pick);
        assert(rest.insert(p, x).drop_last() =~= shorter.insert(p, x));
        assert(rest.insert(p, x).last() == rest.last());
        if pick(x) {
            crate::text::lex_less_is_a_strict_order(x.sort_key().0, x.sort_key().0, x.sort_key().0);
            assert(!pick(rest.last()));
        }
    } else {
        assert(rest.insert(p, x) =~= rest.push(x));
        assert(rest.push(x).drop_last() =~= rest);
    }
}

} // verus!
