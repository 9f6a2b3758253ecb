//! Strings as sequences of characters, and the lexicographic order on them.
use vstd::prelude::*;

verus! {

/// Characters are ordered by their code points.
pub open spec fn char_lt(a: char, b: char) -> bool {
    (a as int) < (b as int)
}

/// The number of leading positions at which `a` and `b` hold the same character.
pub open spec fn common_prefix_len(a: Seq<char>, b: Seq<char>) -> int
    decreases a.len(),
{
    if a.len() > 0 && b.len() > 0 && a[0] == b[0] {
        1 + common_prefix_len(a.skip(1), b.skip(1))
    } else {
        0
    }
}

/// `a` and `b` agree on their first `k` characters and no further.
pub open spec fn part_ways_at(a: Seq<char>, b: Seq<char>, k: int) -> bool {
    &&& 0 <= k <= a.len()
    &&& k <= b.len()
    &&& forall|i: int| 0 <= i < k ==> a[i] == b[i]
    &&& (k < a.len() && k < b.len() ==> a[k] != b[k])
}

/// `a` comes strictly before `b` in the lexicographic order: at the first
/// position where they part ways, `a` has ended or holds the smaller character.
pub open spec fn text_lt(a: Seq<char>, b: Seq<char>) -> bool {
    let k = common_prefix_len(a, b);
    k < b.len() && (k == a.len() || char_lt(a[k], b[k]))
}

/// `a` comes before `b` or equals it.
pub open spec fn text_le(a: Seq<char>, b: Seq<char>) -> bool {
    a == b || text_lt(a, b)
}

/// `common_prefix_len` is the one position at which two texts part ways.
pub proof fn lemma_common_prefix_len(a: Seq<char>, b: Seq<char>)
    ensures
        part_ways_at(a, b, common_prefix_len(a, b)),
        forall|k: int| part_ways_at(a, b, k) ==> k == common_prefix_len(a, b),
    decreases a.len(),
{
    if a.len() > 0 && b.len() > 0 && a[0] == b[0] {
        let a1 = a.skip(1);
        let b1 = b.skip(1);
        lemma_common_prefix_len(a1, b1);
        let n = common_prefix_len(a1, b1);
        assert forall|i: int| 0 <= i < n + 1 implies a[i] == b[i] by {
            if i > 0 {
                assert(a1[i - 1] == a[i]);
                assert(b1[i - 1] == b[i]);
            }
        }
        if n + 1 < a.len() && n + 1 < b.len() {
            assert(a1[n] == a[n + 1]);
            assert(b1[n] == b[n + 1]);
        }
        assert forall|k: int| part_ways_at(a, b, k) implies k == n + 1 by {
            assert(k > 0);
            assert forall|i: int| 0 <= i < k - 1 implies a1[i] == b1[i] by {
                assert(a1[i] == a[i + 1]);
                assert(b1[i] == b[i + 1]);
            }
            if k - 1 < a1.len() && k - 1 < b1.len() {
                assert(a1[k - 1] == a[k]);
                assert(b1[k - 1] == b[k]);
            }
            assert(part_ways_at(a1, b1, k - 1));
        }
    } else {
        assert forall|k: int| part_ways_at(a, b, k) implies k == 0 by {
            if k > 0 {
                assert(a[0] == b[0]);
            }
        }
    }
}

/// Two texts that part ways at both their ends are the same text.
pub proof fn lemma_equal_texts(a: Seq<char>, b: Seq<char>)
    ensures
        a == b <==> (common_prefix_len(a, b) == a.len() && a.len() == b.len()),
{
    lemma_common_prefix_len(a, b);
    if common_prefix_len(a, b) == a.len() && a.len() == b.len() {
        assert(a =~= b);
    }
    if a == b {
        assert(part_ways_at(a, b, a.len() as int));
    }
}

/// Of two different texts exactly one comes before the other.
pub proof fn lemma_text_lt_total(a: Seq<char>, b: Seq<char>)
    ensures
        a != b ==> (text_lt(a, b) <==> !text_lt(b, a)),
        a == b ==> !text_lt(a, b) && !text_lt(b, a),
{
    lemma_common_prefix_len(a, b);
    lemma_common_prefix_len(b, a);
    lemma_equal_texts(a, b);
    let k = common_prefix_len(a, b);
    assert(part_ways_at(b, a, k));
}

/// The lexicographic order is transitive.
pub proof fn lemma_text_lt_transitive(a: Seq<char>, b: Seq<char>, c: Seq<char>)
    requires
        text_lt(a, b),
        text_lt(b, c),
    ensures
        text_lt(a, c),
{
    lemma_common_prefix_len(a, b);
    lemma_common_prefix_len(b, c);
    lemma_common_prefix_len(a, c);
    let k1 = common_prefix_len(a, b);
    let k2 = common_prefix_len(b, c);
    let k = if k1 <= k2 { k1 } else { k2 };
    assert(part_ways_at(a, c, k));
}

/// A text never comes before one of its own prefixes.
pub proof fn lemma_prefix_not_after(p: Seq<char>, s: Seq<char>)
    requires
        p.is_prefix_of(s),
    ensures
        !text_lt(s, p),
        text_le(p, s),
{
    lemma_common_prefix_len(s, p);
    lemma_common_prefix_len(p, s);
    assert(part_ways_at(s, p, p.len() as int));
    assert(part_ways_at(p, s, p.len() as int));
    lemma_equal_texts(p, s);
}

/// The lowercase form that `str::to_lowercase` gives a text: Unicode's
/// lowercase mapping, under which a character may become several.
pub uninterp spec fn lowercase_of(s: Seq<char>) -> Seq<char>;

/// Calls `str::to_lowercase`. Trusted: the result is a function of the
/// characters of `s` alone, which `lowercase_of` names; nothing is claimed
/// of what that function is.
#[verifier::external_body]
pub(crate) fn lowercase(s: &str) -> (lower: String)
    ensures
        lower@ == lowercase_of(s@),
{
    s.to_lowercase()
}

/// Calls `String::push`. Trusted: the character is appended to the end of
/// the text and nothing else changes.
#[verifier::external_body]
pub(crate) fn push_char(text: &mut String, c: char)
    ensures
        final(text)@ == old(text)@.push(c),
{
    text.push(c)
}

/// Calls `String::pop`. Trusted: the last character is removed from the text
/// and returned, and an empty text stays as it is and returns `None`.
#[verifier::external_body]
pub(crate) fn pop_char(text: &mut String) -> (popped: Option<char>)
    ensures
        old(text)@.len() == 0 ==> popped is None && final(text)@ == old(text)@,
        old(text)@.len() > 0 ==> popped == Some(old(text)@.last())
            && final(text)@ == old(text)@.drop_last(),
{
    text.pop()
}

/// The characters of `s`, in order.
pub fn chars_of(s: &str) -> (chars: Vec<char>)
    ensures
        chars@ == s@,
{
    let mut chars: Vec<char> = Vec::new();
    let rest = s.chars();
    for c in it: rest
        invariant
            chars@ == it.seq().take(it.index@),
    {
        chars.push(c);
    }
    chars
}

/// The length of the longest common prefix of `a` and `b`.
pub fn mismatch(a: &Vec<char>, b: &Vec<char>) -> (k: usize)
    ensures
        k == common_prefix_len(a@, b@),
{
    let mut k: usize = 0;
    while k < a.len() && k < b.len() && a[k] == b[k]
        invariant
            k <= a.len(),
            k <= b.len(),
            forall|i: int| 0 <= i < k ==> a@[i] == b@[i],
        decreases a.len() - k,
    {
        k += 1;
    }
    proof {
        assert(part_ways_at(a@, b@, k as int));
        lemma_common_prefix_len(a@, b@);
    }
    k
}

/// Whether `s` begins with the whole of `p`.
pub fn starts_with(s: &Vec<char>, p: &Vec<char>) -> (yes: bool)
    ensures
        yes == p@.is_prefix_of(s@),
{
    let k = mismatch(s, p);
    proof {
        lemma_common_prefix_len(s@, p@);
        if k == p.len() {
            assert(p@ =~= s@.subrange(0, p@.len() as int));
        } else if p@.is_prefix_of(s@) {
            assert(part_ways_at(s@, p@, p@.len() as int));
        }
    }
    k == p.len()
}

} // verus!
