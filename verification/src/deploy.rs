//! Text handling around a contract build: patching the tail of a source
//! file, and reading contract ids out of the build's report.

use vstd::prelude::*;
use vstd::string::StrSliceExecFns;

verus! {

/// Replaces the last `n` bytes of `content` by `patch`. Content shorter
/// than `n` bytes is left as it is, and the answer is `false`.
pub fn overwrite_tail(content: &mut Vec<u8>, patch: &[u8], n: usize) -> (done: bool)
    ensures
        done <==> n <= old(content)@.len(),
        done ==> final(content)@ == old(content)@.take(old(content)@.len() - n) + patch@,
        !done ==> final(content)@ == old(content)@,
{
    if content.len() >= n {
        let kept = content.len() - n;
        content.truncate(kept);
        content.extend_from_slice(patch);
        true
    } else {
        false
    }
}

/// The characters that separate words: the Unicode property `White_Space`.
pub open spec fn is_white_space(c: char) -> bool {
    let code = c as u32;
    ||| 0x09 <= code <= 0x0d
    ||| code == 0x20
    ||| code == 0x85
    ||| code == 0xa0
    ||| code == 0x1680
    ||| 0x2000 <= code <= 0x200a
    ||| code == 0x2028
    ||| code == 0x2029
    ||| code == 0x202f
    ||| code == 0x205f
    ||| code == 0x3000
}

/// Whether `c` separates words.
pub fn separates_words(c: char) -> (yes: bool)
    ensures
        yes == is_white_space(c),
{
    let code = c as u32;
    (0x09 <= code && code <= 0x0d) || code == 0x20 || code == 0x85 || code == 0xa0 || code
        == 0x1680 || (0x2000 <= code && code <= 0x200a) || code == 0x2028 || code == 0x2029 || code
        == 0x202f || code == 0x205f || code == 0x3000
}

/// The characters of `line`, one by one.
fn chars_of(line: &str) -> (chars: Vec<char>)
    ensures
        chars@ == line@,
{
    let mut chars: Vec<char> = Vec::new();
    for c in it: line.chars()
        invariant
            it.seq() == line@,
            chars@ == it.seq().take(it.index() as int),
    {
        chars.push(c);
    }
    chars
}

/// Whether `pattern` stands in `line` from index `at` on.
pub open spec fn stands_at(line: Seq<char>, pattern: Seq<char>, at: int) -> bool {
    &&& 0 <= at
    &&& at + pattern.len() <= line.len()
    &&& line.subrange(at, at + pattern.len()) == pattern
}

/// Whether `pattern` stands somewhere in `line`.
pub open spec fn has_run(line: Seq<char>, pattern: Seq<char>) -> bool {
    exists|at: int| stands_at(line, pattern, at)
}

/// The path separator that a qualified contract name holds.
pub open spec fn scope_mark() -> Seq<char> {
    seq![':', ':']
}

/// The indentation under which the report lists a contract's parts.
pub open spec fn indent_mark() -> Seq<char> {
    seq![' ', ' ', ' ', ' ', ' ', ' ']
}

/// A line of the report names a contract when it holds a path separator or
/// the indentation of a listed part.
pub open spec fn names_contract(line: Seq<char>) -> bool {
    has_run(line, scope_mark()) || has_run(line, indent_mark())
}

/// Where the last word of `line` ends: behind its last character that is
/// no white space, or at 0 where it has none.
pub open spec fn word_end(line: Seq<char>) -> int
    decreases line.len(),
{
    if line.len() == 0 || !is_white_space(line.last()) {
        line.len() as int
    } else {
        word_end(line.drop_last())
    }
}

/// Where the word that ends at `end` starts: behind the nearest white
/// space before `end`, or at 0 where there is none.
pub open spec fn word_start(line: Seq<char>, end: int) -> int
    decreases end,
{
    if end <= 0 || is_white_space(line[end - 1]) {
        end
    } else {
        word_start(line, end - 1)
    }
}

/// The last of the words of `line` that white space separates, if it has
/// a word at all.
pub open spec fn last_word(line: Seq<char>) -> Option<Seq<char>> {
    let end = word_end(line);
    if end == 0 {
        None
    } else {
        Some(line.subrange(word_start(line, end), end))
    }
}

/// The contract id that a line of the report gives: the last word of a
/// line that names a contract.
pub open spec fn contract_id_of(line: Seq<char>) -> Option<Seq<char>> {
    if names_contract(line) {
        last_word(line)
    } else {
        None
    }
}

/// Whether `pattern`, which is not empty, stands somewhere in `line`.
fn holds_run(line: &Vec<char>, pattern: &Vec<char>) -> (yes: bool)
    requires
        pattern@.len() > 0,
    ensures
        yes == has_run(line@, pattern@),
{
    if line.len() < pattern.len() {
        return false;
    }
    let last = line.len() - pattern.len();
    let mut at: usize = 0;
    while at <= last
        invariant
            last == line@.len() - pattern@.len(),
            pattern@.len() > 0,
            line@.len() <= usize::MAX,
            at <= last + 1,
            forall|a: int| 0 <= a < at ==> !stands_at(line@, pattern@, a),
        decreases last + 1 - at,
    {
        let mut k: usize = 0;
        while k < pattern.len() && line[at + k] == pattern[k]
            invariant
                k <= pattern@.len(),
                at + pattern@.len() <= line@.len() <= usize::MAX,
                forall|j: int| 0 <= j < k ==> line@[at + j] == pattern@[j],
            decreases pattern@.len() - k,
        {
            k += 1;
        }
        if k == pattern.len() {
            assert(line@.subrange(at as int, at + pattern@.len()) =~= pattern@);
            assert(stands_at(line@, pattern@, at as int));
            return true;
        }
        assert(!stands_at(line@, pattern@, at as int)) by {
            if stands_at(line@, pattern@, at as int) {
                assert(line@.subrange(at as int, at + pattern@.len())[k as int] == pattern@[k as int]);
            }
        }
        at += 1;
    }
    false
}

/// The path separator, as characters.
fn scope_chars() -> (mark: Vec<char>)
    ensures
        mark@ == scope_mark(),
{
    let mut mark: Vec<char> = Vec::new();
    mark.push(':');
    mark.push(':');
    mark
}

/// The indentation of a listed part, as characters.
fn indent_chars() -> (mark: Vec<char>)
    ensures
        mark@ == indent_mark(),
{
    let mut mark: Vec<char> = Vec::new();
    let mut i: usize = 0;
    while i < 6
        invariant
            i <= 6,
            mark@.len() == i,
            forall|j: int| 0 <= j < i ==> mark@[j] == ' ',
        decreases 6 - i,
    {
        mark.push(' ');
        i += 1;
    }
    mark
}

/// Reads the contract id off one line of a build report: the last word of
/// a line that holds `::` or six spaces in a row. Other lines, and lines
/// without a word, give none.
pub fn contract_id<'a>(line: &'a str) -> (id: Option<&'a str>)
    ensures
        id is Some <==> contract_id_of(line@) is Some,
        id is Some ==> Some(id->0@) == contract_id_of(line@),
{
    let chars = chars_of(line);
    if !holds_run(&chars, &scope_chars()) && !holds_run(&chars, &indent_chars()) {
        return None;
    }
    let mut end: usize = chars.len();
    assert(chars@.take(end as int) =~= chars@);
    while end > 0 && separates_words(chars[end - 1])
        invariant
            end <= chars@.len(),
            word_end(chars@) == word_end(chars@.take(end as int)),
        decreases end,
    {
        assert(chars@.take(end as int).drop_last() =~= chars@.take(end - 1));
        end -= 1;
    }
    if end == 0 {
        return None;
    }
    let mut start: usize = end;
    while start > 0 && !separates_words(chars[start - 1])
        invariant
            start <= end <= chars@.len(),
            word_start(chars@, end as int) == word_start(chars@, start as int),
        decreases start,
    {
        start -= 1;
    }
    Some(line.substring_char(start, end))
}

} // verus!
