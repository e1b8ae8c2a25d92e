//! Rewriting a file line by line: which lines name the old version, what
//! a line reads once the version is replaced, which lines to show around a
//! change, and the new content of the file. Reading, prompting and writing
//! are the caller's part.

use crate::text::{
    chars_of, find_in, is_text, join, lemma_find_sound, lowercase, lowered, matches_at, occurs_at,
    starts_with, string_of, trim, trimmed,
};
use vstd::prelude::*;

verus! {

/// `needle` occurs somewhere in `line`.
pub open spec fn contains(line: Seq<char>, needle: Seq<char>) -> bool {
    exists|i: int| occurs_at(line, needle, i)
}

/// `new` before the first character of `s`, after its last, and between
/// any two.
pub open spec fn interleaved(s: Seq<char>, new: Seq<char>) -> Seq<char>
    decreases s.len(),
{
    if s.len() == 0 {
        new
    } else {
        new + seq![s[0]] + interleaved(s.skip(1), new)
    }
}

/// `s` with every occurrence of `old` replaced by `new`, the occurrences
/// taken from left to right and never overlapping. The empty `old` occurs
/// before, after and between all characters.
pub open spec fn replaced(s: Seq<char>, old: Seq<char>, new: Seq<char>) -> Seq<char>
    decreases s.len(),
{
    if old.len() == 0 {
        interleaved(s, new)
    } else if s.len() == 0 {
        s
    } else if starts_with(s, old) {
        new + replaced(s.skip(old.len() as int), old, new)
    } else {
        seq![s[0]] + replaced(s.skip(1), old, new)
    }
}

/// The views of a sequence of strings.
pub open spec fn line_views(lines: Seq<String>) -> Seq<Seq<char>> {
    Seq::new(lines.len(), |i: int| lines[i]@)
}

/// `found` lists, in rising order, exactly the positions of the lines that
/// hold `needle`.
pub open spec fn lists_occurrences(
    found: Seq<usize>,
    lines: Seq<Seq<char>>,
    needle: Seq<char>,
) -> bool {
    &&& forall|k: int|
        0 <= k < found.len() ==> (#[trigger] found[k]) < lines.len() && contains(
            lines[found[k] as int],
            needle,
        )
    &&& forall|j: int, k: int| 0 <= j < k < found.len() ==> found[j] < found[k]
    &&& forall|i: int|
        0 <= i < lines.len() && contains(#[trigger] lines[i], needle) ==> found.contains(
            i as usize,
        )
}

/// The lines shown around the change at `line_idx`: from `context_lines`
/// before it to `context_lines` after it, within the file. The result is
/// the first line shown and the one after the last.
pub open spec fn window(line_idx: int, context_lines: int, line_count: int) -> (int, int) {
    (
        if line_idx >= context_lines {
            line_idx - context_lines
        } else {
            0
        },
        if line_idx + context_lines + 1 <= line_count {
            line_idx + context_lines + 1
        } else {
            line_count
        },
    )
}

/// The line at position `i` after the change: with the version replaced
/// where the line was accepted, as it was otherwise.
pub open spec fn updated_line(
    lines: Seq<Seq<char>>,
    accepted: Seq<usize>,
    old: Seq<char>,
    new: Seq<char>,
    i: int,
) -> Seq<char> {
    if accepted.contains(i as usize) {
        replaced(lines[i], old, new)
    } else {
        lines[i]
    }
}

/// The content of the file after the change: its lines with a line feed
/// between them, and one at the end where the file had one.
pub open spec fn updated_content(
    lines: Seq<Seq<char>>,
    accepted: Seq<usize>,
    old: Seq<char>,
    new: Seq<char>,
    trailing_newline: bool,
) -> Seq<char> {
    let body = join(
        Seq::new(lines.len(), |i: int| updated_line(lines, accepted, old, new, i)),
        '\n',
    );
    if trailing_newline {
        body.push('\n')
    } else {
        body
    }
}

/// An answer counts as yes when, trimmed and lowered, it is empty, `y` or
/// `yes`.
pub open spec fn is_yes(answer: Seq<char>) -> bool {
    answer.len() == 0 || answer == "y"@ || answer == "yes"@
}

/// An occurrence in the rest of a text is an occurrence in the text.
proof fn lemma_occurs_in_rest(s: Seq<char>, pat: Seq<char>, i: int)
    requires
        0 <= i <= s.len(),
    ensures
        starts_with(s.skip(i), pat) == occurs_at(s, pat, i),
{
    if i + pat.len() <= s.len() {
        assert(s.skip(i).subrange(0, pat.len() as int) =~= s.subrange(i, i + pat.len()));
    }
}

/// Tells whether `needle` occurs in `line`.
pub fn line_contains(line: &[char], needle: &[char]) -> (r: bool)
    ensures
        r == contains(line@, needle@),
{
    let r = find_in(line, needle);
    proof {
        lemma_find_sound(line@, needle@);
    }
    r.is_some()
}

/// Replaces every occurrence of `old` in `line` by `new`.
pub fn replace_in(line: &[char], old: &[char], new: &[char]) -> (out: Vec<char>)
    ensures
        out@ == replaced(line@, old@, new@),
{
    let mut out: Vec<char> = Vec::new();
    let mut i: usize = 0;
    if old.len() == 0 {
        proof {
            assert(line@.skip(0) =~= line@);
        }
        while i < line.len()
            invariant
                i <= line.len(),
                out@ + interleaved(line@.skip(i as int), new@) == interleaved(line@, new@),
            decreases line.len() - i,
        {
            let ghost before = out@;
            out.extend_from_slice(new);
            out.push(line[i]);
            proof {
                let t = line@.skip(i as int);
                assert(t.skip(1) =~= line@.skip(i + 1));
                assert(out@ + interleaved(line@.skip(i + 1), new@) =~= before + interleaved(
                    t,
                    new@,
                ));
            }
            i += 1;
        }
        let ghost before = out@;
        out.extend_from_slice(new);
        proof {
            assert(out@ =~= before + interleaved(line@.skip(i as int), new@));
        }
        return out;
    }
    proof {
        assert(line@.skip(0) =~= line@);
    }
    while i < line.len()
        invariant
            i <= line.len(),
            old@.len() > 0,
            out@ + replaced(line@.skip(i as int), old@, new@) == replaced(line@, old@, new@),
        decreases line.len() - i,
    {
        let ghost before = out@;
        let ghost t = line@.skip(i as int);
        proof {
            lemma_occurs_in_rest(line@, old@, i as int);
        }
        if matches_at(line, old, i) {
            out.extend_from_slice(new);
            proof {
                assert(t.skip(old@.len() as int) =~= line@.skip(i + old@.len()));
                assert(out@ + replaced(line@.skip(i + old@.len()), old@, new@) =~= before
                    + replaced(t, old@, new@));
            }
            i += old.len();
        } else {
            out.push(line[i]);
            proof {
                assert(t.skip(1) =~= line@.skip(i + 1));
                assert(out@ + replaced(line@.skip(i + 1), old@, new@) =~= before + replaced(
                    t,
                    old@,
                    new@,
                ));
            }
            i += 1;
        }
    }
    proof {
        assert(out@ =~= out@ + replaced(line@.skip(i as int), old@, new@));
    }
    out
}

/// The line `line` with every occurrence of `old_version` replaced by
/// `new_version`.
pub fn replace_version(line: &str, old_version: &str, new_version: &str) -> (out: String)
    ensures
        out@ == replaced(line@, old_version@, new_version@),
{
    let l = chars_of(line);
    let o = chars_of(old_version);
    let n = chars_of(new_version);
    let r = replace_in(l.as_slice(), o.as_slice(), n.as_slice());
    string_of(r.as_slice())
}

/// Lists the positions of the lines that hold `old_version`.
pub fn find_occurrences(lines: &Vec<String>, old_version: &str) -> (found: Vec<usize>)
    ensures
        lists_occurrences(found@, line_views(lines@), old_version@),
{
    let needle = chars_of(old_version);
    let mut found: Vec<usize> = Vec::new();
    let mut i: usize = 0;
    while i < lines.len()
        invariant
            i <= lines.len(),
            needle@ == old_version@,
            forall|k: int|
                0 <= k < found@.len() ==> (#[trigger] found@[k]) < i && contains(
                    line_views(lines@)[found@[k] as int],
                    needle@,
                ),
            forall|j: int, k: int| 0 <= j < k < found@.len() ==> found@[j] < found@[k],
            forall|j: int|
                0 <= j < i && contains(#[trigger] line_views(lines@)[j], needle@)
                    ==> found@.contains(j as usize),
        decreases lines.len() - i,
    {
        let line = chars_of(lines[i].as_str());
        let ghost before = found@;
        if line_contains(line.as_slice(), needle.as_slice()) {
            found.push(i);
            proof {
                assert(found@[before.len() as int] == i);
            }
        }
        proof {
            assert forall|j: int|
                0 <= j < i + 1 && contains(
                    #[trigger] line_views(lines@)[j],
                    needle@,
                ) implies found@.contains(j as usize) by {
                if j < i {
                    let k = choose|k: int| 0 <= k < before.len() && before[k] == j as usize;
                    assert(found@[k] == j as usize);
                } else {
                    assert(found@[before.len() as int] == j as usize);
                }
            }
        }
        i += 1;
    }
    found
}

/// The lines to show around the change at `line_idx`.
pub fn context_window(line_idx: usize, context_lines: usize, line_count: usize) -> (r: (
    usize,
    usize,
))
    ensures
        (r.0 as int, r.1 as int) == window(line_idx as int, context_lines as int, line_count as int),
{
    let start = if line_idx >= context_lines {
        line_idx - context_lines
    } else {
        0
    };
    let end = if line_idx < line_count && context_lines < line_count - line_idx {
        line_idx + context_lines + 1
    } else {
        line_count
    };
    (start, end)
}

/// Tells whether `i` is among the accepted positions.
fn is_accepted(accepted: &Vec<usize>, i: usize) -> (r: bool)
    ensures
        r == accepted@.contains(i),
{
    let mut k: usize = 0;
    while k < accepted.len()
        invariant
            k <= accepted.len(),
            forall|j: int| 0 <= j < k ==> accepted@[j] != i,
        decreases accepted.len() - k,
    {
        if accepted[k] == i {
            return true;
        }
        k += 1;
    }
    false
}

/// Writes the content of a file after a change: in the lines at the
/// accepted positions `old_version` gives way to `new_version`.
pub fn apply_changes(
    lines: &Vec<String>,
    accepted_lines: &Vec<usize>,
    old_version: &str,
    new_version: &str,
    trailing_newline: bool,
) -> (out: String)
    ensures
        out@ == updated_content(
            line_views(lines@),
            accepted_lines@,
            old_version@,
            new_version@,
            trailing_newline,
        ),
{
    let ghost now = Seq::new(
        lines@.len(),
        |i: int| updated_line(line_views(lines@), accepted_lines@, old_version@, new_version@, i),
    );
    let mut out = String::new();
    let mut i: usize = 0;
    proof {
        assert(now.take(0) =~= Seq::<Seq<char>>::empty());
    }
    while i < lines.len()
        invariant
            i <= lines.len(),
            now == Seq::new(
                lines@.len(),
                |i: int|
                    updated_line(line_views(lines@), accepted_lines@, old_version@, new_version@, i),
            ),
            out@ == join(now.take(i as int), '\n'),
        decreases lines.len() - i,
    {
        let ghost before = out@;
        if i > 0 {
            out.push('\n');
        }
        if is_accepted(accepted_lines, i) {
            let line = replace_version(lines[i].as_str(), old_version, new_version);
            out.append(line.as_str());
        } else {
            out.append(lines[i].as_str());
        }
        proof {
            let next = now.take(i + 1);
            assert(next.drop_last() =~= now.take(i as int));
            assert(next.last() == now[i as int]);
            assert(out@ =~= join(next, '\n'));
        }
        i += 1;
    }
    proof {
        assert(now.take(i as int) =~= now);
    }
    if trailing_newline {
        out.push('\n');
    }
    out
}

/// Tells whether a trimmed, lowered answer counts as yes.
pub fn is_affirmative(answer: &[char]) -> (r: bool)
    ensures
        r == is_yes(answer@),
{
    answer.len() == 0 || is_text(answer, "y") || is_text(answer, "yes")
}

/// Tells whether what was typed at the prompt accepts the change: nothing,
/// `y` or `yes`, in any case and with white space around it.
pub fn accepts(input: &str) -> (r: bool)
    ensures
        r == is_yes(lowered(trimmed(input@))),
{
    let typed = chars_of(input);
    let word = string_of(trim(typed.as_slice()));
    let answer = lowercase(word.as_str());
    is_affirmative(answer.as_slice())
}

} // verus!
