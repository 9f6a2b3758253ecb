//! The text of the prompt as a path: the directory it names so far and the
//! segment that is still being typed.
use crate::text::chars_of;
use vstd::prelude::*;

verus! {

/// The character that parts the segments of a path.
pub const SEPARATOR: char = '/';

/// What `char::is_alphanumeric` says of a character: whether Unicode counts
/// it among the letters and digits.
pub uninterp spec fn unicode_alphanumeric(c: char) -> bool;

/// Calls `char::is_alphanumeric`. Trusted: the result is a function of the
/// character alone, which `unicode_alphanumeric` names.
#[verifier::external_body]
fn is_unicode_alphanumeric(c: char) -> (yes: bool)
    ensures
        yes == unicode_alphanumeric(c),
{
    c.is_alphanumeric()
}

/// Whether `c` may stand in a segment by itself, where `alphanumeric` is what
/// Unicode says of it: a letter, a digit, an underscore, a period or a hyphen.
/// Of the ASCII characters the letters and digits are `a` to `z`, `A` to `Z`
/// and `0` to `9`; of the others Unicode decides.
pub open spec fn name_char_when(c: char, alphanumeric: bool) -> bool {
    ||| 'a' <= c <= 'z'
    ||| 'A' <= c <= 'Z'
    ||| '0' <= c <= '9'
    ||| c == '_'
    ||| c == '.'
    ||| c == '-'
    ||| (c > '\x7f' && alphanumeric)
}

/// Whether `c` may stand in a segment by itself.
pub open spec fn is_name_char(c: char) -> bool {
    name_char_when(c, unicode_alphanumeric(c))
}

/// Whether the character at `i` is in place in the segment `s`: a name
/// character, or one half of an escaped space, which is a backslash with a
/// space right behind it.
pub open spec fn in_place(s: Seq<char>, i: int) -> bool {
    ||| is_name_char(s[i])
    ||| (s[i] == '\\' && i + 1 < s.len() && s[i + 1] == ' ')
    ||| (s[i] == ' ' && 0 < i && s[i - 1] == '\\')
}

/// Whether `s` is made of name characters and escaped spaces alone.
pub open spec fn is_segment(s: Seq<char>) -> bool {
    forall|i: int| 0 <= i < s.len() ==> in_place(s, i)
}

/// Whether `s` reads from its start as name characters and escaped spaces,
/// one after the other.
pub open spec fn is_token_run(s: Seq<char>) -> bool
    decreases s.len(),
{
    if s.len() == 0 {
        true
    } else if is_name_char(s[0]) {
        is_token_run(s.skip(1))
    } else if s.len() >= 2 && s[0] == '\\' && s[1] == ' ' {
        is_token_run(s.skip(2))
    } else {
        false
    }
}

/// A segment is a run of name characters and escaped spaces: every backslash
/// in it begins an escaped space and every space ends one.
pub proof fn lemma_segment_is_token_run(s: Seq<char>)
    ensures
        is_segment(s) == is_token_run(s),
    decreases s.len(),
{
    if s.len() > 0 {
        if is_name_char(s[0]) {
            let rest = s.skip(1);
            lemma_segment_is_token_run(rest);
            if is_segment(s) {
                assert forall|i: int| 0 <= i < rest.len() implies in_place(rest, i) by {
                    assert(in_place(s, i + 1));
                }
            }
            if is_segment(rest) {
                assert forall|i: int| 0 <= i < s.len() implies in_place(s, i) by {
                    if i > 0 {
                        assert(in_place(rest, i - 1));
                    }
                }
            }
        } else if s.len() >= 2 && s[0] == '\\' && s[1] == ' ' {
            let rest = s.skip(2);
            lemma_segment_is_token_run(rest);
            if is_segment(s) {
                assert forall|i: int| 0 <= i < rest.len() implies in_place(rest, i) by {
                    assert(in_place(s, i + 2));
                }
            }
            if is_segment(rest) {
                assert forall|i: int| 0 <= i < s.len() implies in_place(s, i) by {
                    if i > 1 {
                        assert(in_place(rest, i - 2));
                    }
                }
            }
        } else {
            assert(!in_place(s, 0));
        }
    }
}

/// The length of the longest prefix of `buffer` that ends in a separator;
/// 0 where `buffer` holds no separator.
pub open spec fn directory_len(buffer: Seq<char>) -> int
    decreases buffer.len(),
{
    if buffer.len() == 0 {
        0
    } else if buffer.last() == SEPARATOR {
        buffer.len() as int
    } else {
        directory_len(buffer.drop_last())
    }
}

/// The directory that `buffer` names: all of it up to and with its last separator.
pub open spec fn directory_part(buffer: Seq<char>) -> Seq<char> {
    buffer.take(directory_len(buffer))
}

/// What `buffer` holds behind its last separator.
pub open spec fn tail_part(buffer: Seq<char>) -> Seq<char> {
    buffer.skip(directory_len(buffer))
}

/// The segment that is being typed: what stands behind the last separator,
/// where that is a segment; empty where it is not, or where there is no separator.
pub open spec fn partial_part(buffer: Seq<char>) -> Seq<char> {
    if directory_len(buffer) > 0 && is_segment(tail_part(buffer)) {
        tail_part(buffer)
    } else {
        Seq::empty()
    }
}

/// The directory part ends in the last separator of the buffer: it is empty
/// or ends in a separator, and no separator stands behind it.
pub proof fn lemma_directory_len(buffer: Seq<char>)
    ensures
        0 <= directory_len(buffer) <= buffer.len(),
        directory_len(buffer) > 0 ==> buffer[directory_len(buffer) - 1] == SEPARATOR,
        forall|i: int| directory_len(buffer) <= i < buffer.len() ==> buffer[i] != SEPARATOR,
    decreases buffer.len(),
{
    if buffer.len() > 0 && buffer.last() != SEPARATOR {
        let shorter = buffer.drop_last();
        lemma_directory_len(shorter);
        assert forall|i: int| directory_len(buffer) <= i < buffer.len() implies buffer[i]
            != SEPARATOR by {
            if i < shorter.len() {
                assert(shorter[i] == buffer[i]);
            }
        }
    }
}

/// No prefix of the buffer that ends in a separator is longer than the directory part.
pub proof fn lemma_directory_part_longest(buffer: Seq<char>, prefix: Seq<char>)
    requires
        prefix.is_prefix_of(buffer),
        prefix.len() > 0,
        prefix.last() == SEPARATOR,
    ensures
        prefix.is_prefix_of(directory_part(buffer)),
{
    lemma_directory_len(buffer);
    assert(buffer[prefix.len() - 1] == prefix[prefix.len() - 1]);
    assert(prefix =~= directory_part(buffer).subrange(0, prefix.len() as int));
}

/// Whether `c` may stand in a segment by itself, where `alphanumeric` is what
/// Unicode says of it.
pub fn classify_char(c: char, alphanumeric: bool) -> (allowed: bool)
    ensures
        allowed == name_char_when(c, alphanumeric),
{
    ('a' <= c && c <= 'z') || ('A' <= c && c <= 'Z') || ('0' <= c && c <= '9') || c == '_' || c
        == '.' || c == '-' || (c > '\x7f' && alphanumeric)
}

/// Whether `c` may stand in a segment by itself.
pub fn check_name_char(c: char) -> (allowed: bool)
    ensures
        allowed == is_name_char(c),
{
    classify_char(c, is_unicode_alphanumeric(c))
}

/// The number of characters of `chars` up to and with its last separator.
pub fn split_point(chars: &Vec<char>) -> (k: usize)
    ensures
        k == directory_len(chars@),
        k <= chars.len(),
{
    let mut k: usize = chars.len();
    proof {
        assert(chars@.take(k as int) == chars@);
    }
    while k > 0 && chars[k - 1] != SEPARATOR
        invariant
            k <= chars.len(),
            directory_len(chars@) == directory_len(chars@.take(k as int)),
        decreases k,
    {
        proof {
            assert(chars@.take(k as int).drop_last() == chars@.take(k - 1));
        }
        k -= 1;
    }
    k
}

/// Whether what stands in `chars` from `start` on is a segment.
pub fn check_segment(chars: &Vec<char>, start: usize) -> (valid: bool)
    requires
        start <= chars.len(),
    ensures
        valid == is_segment(chars@.skip(start as int)),
{
    let ghost s = chars@.skip(start as int);
    let mut i: usize = start;
    while i < chars.len()
        invariant
            start <= i <= chars.len(),
            s == chars@.skip(start as int),
            forall|j: int| 0 <= j < i - start ==> in_place(s, j),
        decreases chars.len() - i,
    {
        let c = chars[i];
        let escapes = c == '\\' && i + 1 < chars.len() && chars[i + 1] == ' ';
        let escaped = c == ' ' && start < i && chars[i - 1] == '\\';
        if !(check_name_char(c) || escapes || escaped) {
            proof {
                assert(!in_place(s, i - start));
            }
            return false;
        }
        proof {
            assert(in_place(s, i - start));
        }
        i += 1;
    }
    true
}

/// The directory that `input` names so far: all of it up to and with its last
/// separator, nothing where it holds none.
pub fn get_path_from_input(input: &str) -> (path: &str)
    ensures
        path@ == directory_part(input@),
{
    let chars = chars_of(input);
    let k = split_point(&chars);
    input.substring_char(0, k)
}

/// The segment that is being typed at the end of `input`: what stands behind
/// its last separator, where that is made of name characters and escaped
/// spaces alone; nothing otherwise.
pub fn get_last_input(input: &str) -> (segment: &str)
    ensures
        segment@ == partial_part(input@),
{
    let chars = chars_of(input);
    let k = split_point(&chars);
    if k > 0 && check_segment(&chars, k) {
        input.substring_char(k, chars.len())
    } else {
        input.substring_char(0, 0)
    }
}

/// The two parts of the prompt's text.
#[derive(Clone, Debug)]
pub struct ParsedInput {
    pub directory_path: String,
    pub partial_segment: String,
}

/// Splits the prompt's text into the directory it names and the segment that
/// is being typed.
pub fn parse(buffer: &str) -> (parsed: ParsedInput)
    ensures
        parsed.directory_path@ == directory_part(buffer@),
        parsed.partial_segment@ == partial_part(buffer@),
{
    ParsedInput {
        directory_path: get_path_from_input(buffer).to_owned(),
        partial_segment: get_last_input(buffer).to_owned(),
    }
}

/// Whether `path` ends in a separator.
pub open spec fn ends_with_separator(path: Seq<char>) -> bool {
    path.len() > 0 && path.last() == SEPARATOR
}

/// Asks the file system whether `path` leads anywhere, with
/// `std::path::Path::exists`. The answer depends on what is on disk when the
/// call is made, so nothing is claimed of it.
#[verifier::external_body]
fn path_exists(path: &str) -> bool {
    std::path::Path::new(path).exists()
}

/// Whether `input` ends in a separator.
pub fn has_final_separator(input: &str) -> (yes: bool)
    ensures
        yes == ends_with_separator(input@),
{
    let chars = chars_of(input);
    chars.len() > 0 && chars[chars.len() - 1] == SEPARATOR
}

/// What `is_valid_path` answers for `input` when the file system says
/// `exists` of it.
pub fn is_valid_path_when(input: &str, exists: bool) -> (valid: bool)
    ensures
        valid == (ends_with_separator(input@) && exists),
{
    has_final_separator(input) && exists
}

/// Whether `input` ends in a separator and leads somewhere on disk. A text
/// without a final separator is never valid, and the disk is not asked about it.
pub fn is_valid_path(input: &str) -> (valid: bool)
    ensures
        valid ==> ends_with_separator(input@),
{
    if !has_final_separator(input) {
        return false;
    }
    is_valid_path_when(input, path_exists(input))
}

} // verus!
