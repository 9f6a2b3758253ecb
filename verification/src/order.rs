//! The order in which the subfolders of a directory are listed.
use crate::text::{
    lemma_common_prefix_len, lemma_equal_texts, lemma_text_lt_total, lemma_text_lt_transitive,
    lowercase_of, mismatch, text_lt,
};
use std::cmp::Ordering;
use vstd::prelude::*;
use vstd::seq_lib::{to_multiset_build, to_multiset_contains, to_multiset_len};

verus! {

/// A name is hidden when it begins with a period.
pub open spec fn is_hidden_name(name: Seq<char>) -> bool {
    name.len() > 0 && name[0] == '.'
}

/// The composite key by which names are ordered.
pub struct Key {
    pub hidden: bool,
    pub folded: Seq<char>,
    pub name: Seq<char>,
}

/// The key of a name: whether it is hidden, its lowercase form, and the name itself.
pub open spec fn key_of(name: Seq<char>) -> Key {
    Key { hidden: is_hidden_name(name), folded: lowercase_of(name), name }
}

/// Visible keys come before hidden ones; among keys of one group the
/// lowercase forms decide, and the names themselves where those are equal.
pub open spec fn key_lt(a: Key, b: Key) -> bool {
    if a.hidden != b.hidden {
        b.hidden
    } else if a.folded != b.folded {
        text_lt(a.folded, b.folded)
    } else {
        text_lt(a.name, b.name)
    }
}

/// `a` is listed strictly before `b`.
pub open spec fn name_lt(a: Seq<char>, b: Seq<char>) -> bool {
    key_lt(key_of(a), key_of(b))
}

/// No name of `names` is listed after a name that follows it.
pub open spec fn is_ordered(names: Seq<Seq<char>>) -> bool {
    forall|i: int, j: int| 0 <= i < j < names.len() ==> !name_lt(names[j], names[i])
}

/// No key comes before itself, and of two different keys exactly one comes first.
pub proof fn lemma_key_lt_total(a: Key, b: Key)
    ensures
        a == b ==> !key_lt(a, b) && !key_lt(b, a),
        a != b ==> (key_lt(a, b) <==> !key_lt(b, a)),
{
    lemma_text_lt_total(a.folded, b.folded);
    lemma_text_lt_total(a.name, b.name);
}

/// The order on keys is transitive.
pub proof fn lemma_key_lt_transitive(a: Key, b: Key, c: Key)
    requires
        key_lt(a, b),
        key_lt(b, c),
    ensures
        key_lt(a, c),
{
    lemma_text_lt_total(a.folded, b.folded);
    lemma_text_lt_total(b.folded, c.folded);
    lemma_text_lt_total(a.folded, c.folded);
    if a.hidden == b.hidden && b.hidden == c.hidden {
        if a.folded != b.folded && b.folded != c.folded {
            lemma_text_lt_transitive(a.folded, b.folded, c.folded);
        } else if a.folded == b.folded && b.folded == c.folded {
            lemma_text_lt_transitive(a.name, b.name, c.name);
        }
    }
}

/// The order on names is a strict total order: the comparison that sorts a
/// listing never contradicts itself.
pub proof fn lemma_name_lt_total_order(a: Seq<char>, b: Seq<char>, c: Seq<char>)
    ensures
        !name_lt(a, a),
        a != b ==> (name_lt(a, b) <==> !name_lt(b, a)),
        name_lt(a, b) && name_lt(b, c) ==> name_lt(a, c),
{
    lemma_key_lt_total(key_of(a), key_of(a));
    lemma_key_lt_total(key_of(a), key_of(b));
    if name_lt(a, b) && name_lt(b, c) {
        lemma_key_lt_transitive(key_of(a), key_of(b), key_of(c));
    }
}

/// The names settle their listed order: two ordered sequences that hold the
/// same names, each as often, are the same sequence.
pub proof fn lemma_ordered_unique(a: Seq<Seq<char>>, b: Seq<Seq<char>>)
    requires
        is_ordered(a),
        is_ordered(b),
        a.to_multiset() == b.to_multiset(),
    ensures
        a == b,
    decreases a.len(),
{
    to_multiset_len(a);
    to_multiset_len(b);
    if a.len() > 0 {
        let x = a.last();
        let y = b.last();
        to_multiset_contains(a, x);
        to_multiset_contains(a, y);
        to_multiset_contains(b, x);
        to_multiset_contains(b, y);
        assert(a.contains(x));
        assert(b.contains(y));
        let i = choose|i: int| 0 <= i < a.len() && a[i] == y;
        let j = choose|j: int| 0 <= j < b.len() && b[j] == x;
        assert(!name_lt(x, y)) by {
            if i < a.len() - 1 {
                assert(!name_lt(a[a.len() - 1], a[i]));
            }
            lemma_name_lt_total_order(x, y, y);
        }
        assert(!name_lt(y, x)) by {
            if j < b.len() - 1 {
                assert(!name_lt(b[b.len() - 1], b[j]));
            }
            lemma_name_lt_total_order(y, x, x);
        }
        lemma_name_lt_total_order(x, y, y);
        assert(x == y);
        let a0 = a.drop_last();
        let b0 = b.drop_last();
        assert(a == a0.push(x));
        assert(b == b0.push(y));
        to_multiset_build(a0, x);
        to_multiset_build(b0, y);
        assert(a0.to_multiset() =~= a.to_multiset().remove(x));
        assert(b0.to_multiset() =~= b.to_multiset().remove(y));
        assert(is_ordered(a0)) by {
            assert forall|p: int, q: int| 0 <= p < q < a0.len() implies !name_lt(a0[q], a0[p]) by {
                assert(!name_lt(a[q], a[p]));
            }
        }
        assert(is_ordered(b0)) by {
            assert forall|p: int, q: int| 0 <= p < q < b0.len() implies !name_lt(b0[q], b0[p]) by {
                assert(!name_lt(b[q], b[p]));
            }
        }
        lemma_ordered_unique(a0, b0);
    } else {
        assert(a =~= b);
    }
}

/// A key held in memory.
#[derive(Clone, Debug)]
pub struct SortKey {
    pub hidden: bool,
    pub folded: Vec<char>,
    pub name: Vec<char>,
}

impl View for SortKey {
    type V = Key;

    open spec fn view(&self) -> Key {
        Key { hidden: self.hidden, folded: self.folded@, name: self.name@ }
    }
}

/// Compares two texts lexicographically, character by character.
pub fn compare_text(a: &Vec<char>, b: &Vec<char>) -> (o: Ordering)
    ensures
        (o is Less) == text_lt(a@, b@),
        (o is Equal) == (a@ == b@),
        (o is Greater) == text_lt(b@, a@),
{
    let k = mismatch(a, b);
    proof {
        lemma_common_prefix_len(a@, b@);
        lemma_equal_texts(a@, b@);
        lemma_text_lt_total(a@, b@);
    }
    if k == a.len() {
        if k == b.len() {
            Ordering::Equal
        } else {
            Ordering::Less
        }
    } else if k == b.len() {
        Ordering::Greater
    } else if a[k] < b[k] {
        Ordering::Less
    } else {
        Ordering::Greater
    }
}

/// Compares two keys: by group, then by lowercase form, then by name.
pub fn compare_keys(a: &SortKey, b: &SortKey) -> (o: Ordering)
    ensures
        (o is Less) == key_lt(a@, b@),
        (o is Equal) == (a@ == b@),
        (o is Greater) == key_lt(b@, a@),
{
    proof {
        lemma_key_lt_total(a@, b@);
    }
    if a.hidden != b.hidden {
        if b.hidden {
            Ordering::Less
        } else {
            Ordering::Greater
        }
    } else {
        match compare_text(&a.folded, &b.folded) {
            Ordering::Less => Ordering::Less,
            Ordering::Greater => Ordering::Greater,
            Ordering::Equal => compare_text(&a.name, &b.name),
        }
    }
}

} // verus!
