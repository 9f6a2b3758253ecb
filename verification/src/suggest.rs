//! Suggestions: what the prompt offers to append to the segment being typed.
use crate::listing::{texts, DirectoryListing};
use crate::order::{is_ordered, lemma_name_lt_total_order, name_lt};
use crate::path::{ends_with_separator, is_valid_path};
use crate::text::{
    chars_of, lemma_prefix_not_after, lowercase, lowercase_of, starts_with, text_le, text_lt,
};
use vstd::arithmetic::div_mod::{
    lemma_fundamental_div_mod, lemma_fundamental_div_mod_converse, lemma_mod_add_multiples_vanish,
    lemma_mod_bound, lemma_mod_pos_bound,
};
use vstd::prelude::*;

verus! {

/// The place among `n` names that `offset` selects: `offset` counted round
/// the listing, forwards from its start or, where negative, backwards from
/// its end. This is the remainder of `offset` by `n` that lies from 0 up to `n`.
pub open spec fn cycle_index(offset: int, n: int) -> int
    recommends
        n > 0,
{
    offset % n
}

/// Whether `name` completes `partial`: its lowercase form begins with the
/// lowercase form of `partial`.
pub open spec fn completes(name: Seq<char>, partial: Seq<char>) -> bool {
    lowercase_of(partial).is_prefix_of(lowercase_of(name))
}

/// What is left of `name` behind as many characters as `partial` has.
pub open spec fn remainder(name: Seq<char>, partial: Seq<char>) -> Seq<char> {
    if partial.len() <= name.len() {
        name.skip(partial.len() as int)
    } else {
        Seq::empty()
    }
}

/// `names[i]` is the first of `names` that completes `partial`.
pub open spec fn is_first_completion(names: Seq<Seq<char>>, partial: Seq<char>, i: int) -> bool {
    &&& 0 <= i < names.len()
    &&& completes(names[i], partial)
    &&& forall|j: int| 0 <= j < i ==> !completes(names[j], partial)
}

/// The remainder of the first of `names` that completes `partial`; empty
/// where none does.
pub open spec fn completion(names: Seq<Seq<char>>, partial: Seq<char>) -> Seq<char> {
    if exists|i: int| is_first_completion(names, partial, i) {
        let i = choose|i: int| is_first_completion(names, partial, i);
        remainder(names[i], partial)
    } else {
        Seq::empty()
    }
}

/// The suggestion for `partial` among `names` at `offset`. With nothing typed
/// it is the whole name that `offset` selects; with something typed it is the
/// completion of that, whatever `offset` is; among no names it is empty.
pub open spec fn suggestion(names: Seq<Seq<char>>, partial: Seq<char>, offset: int) -> Seq<char> {
    if names.len() == 0 {
        Seq::empty()
    } else if partial.len() == 0 {
        names[cycle_index(offset, names.len() as int)]
    } else {
        completion(names, partial)
    }
}

/// Where `names[i]` is the first name that completes `partial`, the
/// completion is its remainder.
pub proof fn lemma_completion_found(names: Seq<Seq<char>>, partial: Seq<char>, i: int)
    requires
        is_first_completion(names, partial, i),
    ensures
        completion(names, partial) == remainder(names[i], partial),
{
    let k = choose|k: int| is_first_completion(names, partial, k);
    assert(k == i) by {
        if k < i {
            assert(!completes(names[k], partial));
        }
        if i < k {
            assert(!completes(names[i], partial));
        }
    }
}

/// Where no name completes `partial`, the completion is empty.
pub proof fn lemma_completion_missing(names: Seq<Seq<char>>, partial: Seq<char>)
    requires
        forall|j: int| 0 <= j < names.len() ==> !completes(names[j], partial),
    ensures
        completion(names, partial) == Seq::<char>::empty(),
{
}

/// The place that an offset selects is a place of the listing, and is what
/// comes of reducing the offset by the number of names, adding that number,
/// and reducing again.
pub proof fn lemma_cycle_index_in_range(offset: int, n: int)
    requires
        n > 0,
    ensures
        0 <= cycle_index(offset, n) < n,
        cycle_index(offset, n) == ((offset % n) + n) % n,
        0 <= offset < n ==> cycle_index(offset, n) == offset,
        -n <= offset < 0 ==> cycle_index(offset, n) == offset + n,
{
    lemma_mod_bound(offset, n);
    lemma_mod_add_multiples_vanish(offset % n, n);
    lemma_fundamental_div_mod_converse(offset % n, n, 0, offset % n);
    if 0 <= offset < n {
        lemma_fundamental_div_mod_converse(offset, n, 0, offset);
    }
    if -n <= offset < 0 {
        lemma_fundamental_div_mod_converse(offset, n, -1, offset + n);
    }
}

/// A name that completes what was typed does not come before it: its
/// lowercase form is the lowercase form of what was typed, or comes after it.
pub proof fn lemma_completing_name_not_before(name: Seq<char>, partial: Seq<char>)
    requires
        completes(name, partial),
    ensures
        text_le(lowercase_of(partial), lowercase_of(name)),
        !text_lt(lowercase_of(name), lowercase_of(partial)),
{
    lemma_prefix_not_after(lowercase_of(partial), lowercase_of(name));
}

/// Where some name completes `partial`, one of them is the first to do so.
pub proof fn lemma_first_completion_exists(names: Seq<Seq<char>>, partial: Seq<char>, i: int) -> (k:
    int)
    requires
        0 <= i < names.len(),
        completes(names[i], partial),
    ensures
        is_first_completion(names, partial, k),
        k <= i,
    decreases i,
{
    if exists|j: int| 0 <= j < i && completes(names[j], partial) {
        let j = choose|j: int| 0 <= j < i && completes(names[j], partial);
        lemma_first_completion_exists(names, partial, j)
    } else {
        i
    }
}

/// Among no names there is nothing to suggest, whatever was typed and
/// whatever the offset.
pub proof fn lemma_nothing_among_no_names(partial: Seq<char>, offset: int)
    ensures
        suggestion(Seq::empty(), partial, offset) == Seq::<char>::empty(),
{
}

/// Cycling wraps round the listing. With nothing typed, an offset and the
/// same offset moved on by the number of names select the same suggestion,
/// and the offset -1 selects the last name.
pub proof fn lemma_cycling_wraps(names: Seq<Seq<char>>, offset: int)
    ensures
        suggestion(names, Seq::empty(), offset + names.len()) == suggestion(
            names,
            Seq::empty(),
            offset,
        ),
        suggestion(names, Seq::empty(), -1) == suggestion(names, Seq::empty(), names.len() - 1),
        names.len() > 0 ==> suggestion(names, Seq::empty(), -1) == names.last(),
{
    let n = names.len() as int;
    if n > 0 {
        lemma_mod_add_multiples_vanish(offset, n);
        lemma_fundamental_div_mod_converse(-1, n, -1, n - 1);
        lemma_fundamental_div_mod_converse(n - 1, n, 0, n - 1);
    }
}

/// A typed prefix is completed to the name it begins. Where `names` is
/// ordered, something was typed that is no longer than `names[i]`, the
/// lowercase form of `names[i]` begins with the lowercase form of what was
/// typed, and no name that is listed before `names[i]` does so too, the
/// suggestion is what is left of `names[i]` behind the typed characters,
/// whatever the offset.
pub proof fn lemma_prefix_completed(
    names: Seq<Seq<char>>,
    i: int,
    partial: Seq<char>,
    offset: int,
)
    requires
        is_ordered(names),
        0 <= i < names.len(),
        0 < partial.len() <= names[i].len(),
        completes(names[i], partial),
        forall|j: int|
            0 <= j < names.len() && completes(names[j], partial) ==> !name_lt(names[j], names[i]),
    ensures
        suggestion(names, partial, offset) == names[i].skip(partial.len() as int),
{
    let k = lemma_first_completion_exists(names, partial, i);
    lemma_completion_found(names, partial, k);
    if k < i {
        assert(!name_lt(names[i], names[k]));
        assert(!name_lt(names[k], names[i]));
        lemma_name_lt_total_order(names[k], names[i], names[i]);
    }
}

/// The place that `offset` selects among `n` names.
pub fn wrap_offset(offset: i64, n: usize) -> (index: usize)
    requires
        n > 0,
    ensures
        index == cycle_index(offset as int, n as int),
        index < n,
{
    if offset >= 0 {
        let index = (offset as u64 % n as u64) as usize;
        index
    } else {
        let back = (-(offset + 1)) as u64;
        let r = (back % n as u64) as usize;
        proof {
            let q = (back as int) / (n as int);
            lemma_fundamental_div_mod(back as int, n as int);
            lemma_mod_pos_bound(back as int, n as int);
            assert(offset as int == (-q - 1) * n + (n - 1 - r)) by (nonlinear_arith)
                requires
                    back as int == n * q + r,
                    offset as int == -(back as int) - 1,
            ;
            lemma_fundamental_div_mod_converse(offset as int, n as int, -q - 1, n - 1 - r);
        }
        n - 1 - r
    }
}

/// What is left of `name` behind as many characters as `partial` has.
pub fn rest_of(name: &str, partial: &str) -> (rest: String)
    ensures
        rest@ == remainder(name@, partial@),
{
    let skipped = partial.unicode_len();
    let len = name.unicode_len();
    if skipped <= len {
        name.substring_char(skipped, len).to_owned()
    } else {
        String::new()
    }
}

/// The suggestion for `last_input` among `names` at `offset`.
pub fn complete(names: &Vec<String>, last_input: &str, offset: i64) -> (guess: String)
    ensures
        guess@ == suggestion(texts(names@), last_input@, offset as int),
        names@.len() == 0 ==> guess@ == Seq::<char>::empty(),
{
    let n = names.len();
    if n == 0 {
        return String::new();
    }
    if last_input.is_empty() {
        return names[wrap_offset(offset, n)].clone();
    }
    let typed = chars_of(lowercase(last_input).as_str());
    let mut i: usize = 0;
    while i < n
        invariant
            n == names@.len(),
            i <= n,
            last_input@.len() > 0,
            typed@ == lowercase_of(last_input@),
            forall|j: int| 0 <= j < i ==> !completes(#[trigger] texts(names@)[j], last_input@),
        decreases n - i,
    {
        let folded = chars_of(lowercase(names[i].as_str()).as_str());
        if starts_with(&folded, &typed) {
            proof {
                assert(texts(names@)[i as int] == names@[i as int]@);
                assert(is_first_completion(texts(names@), last_input@, i as int));
                lemma_completion_found(texts(names@), last_input@, i as int);
            }
            return rest_of(names[i].as_str(), last_input);
        }
        proof {
            assert(texts(names@)[i as int] == names@[i as int]@);
        }
        i += 1;
    }
    proof {
        lemma_completion_missing(texts(names@), last_input@);
    }
    String::new()
}

/// The suggestion that `listing` holds for `partial_segment` at `offset`:
/// with nothing typed the whole name that `offset` selects, with something
/// typed what is left of the first name that begins with it, whatever the
/// case of the letters; and nothing where the listing is empty or no name
/// begins so.
pub fn suggest(listing: &DirectoryListing, partial_segment: &str, offset: i64) -> (guess: String)
    ensures
        guess@ == suggestion(listing@.names, partial_segment@, offset as int),
        listing@.names.len() == 0 ==> guess@ == Seq::<char>::empty(),
{
    complete(listing.ordered_names(), partial_segment, offset)
}

/// What `get_guess` answers when `path_valid` says whether the directory is
/// there: the suggestion among its subfolders where it is, nothing where it
/// is not.
pub fn guess_when(
    path_valid: bool,
    last_input: &str,
    sorted_subfolders: &Vec<String>,
    offset: i64,
) -> (guess: String)
    ensures
        guess@ == if path_valid {
            suggestion(texts(sorted_subfolders@), last_input@, offset as int)
        } else {
            Seq::<char>::empty()
        },
{
    if !path_valid || sorted_subfolders.len() == 0 {
        return String::new();
    }
    complete(sorted_subfolders, last_input, offset)
}

/// The suggestion for `last_input` among the subfolders of the directory at
/// `path`, or nothing where `path` is not a valid path when the call is made.
pub fn get_guess(path: &str, last_input: &str, sorted_subfolders: &Vec<String>, offset: i64) -> (guess:
    String)
    ensures
        guess@ == suggestion(texts(sorted_subfolders@), last_input@, offset as int) || guess@
            == Seq::<char>::empty(),
        !ends_with_separator(path@) ==> guess@ == Seq::<char>::empty(),
        sorted_subfolders@.len() == 0 ==> guess@ == Seq::<char>::empty(),
{
    guess_when(is_valid_path(path), last_input, sorted_subfolders, offset)
}

} // verus!
