//! Character-sequence primitives shared by every grammar: classification,
//! lowering, first-occurrence search, prefix tests, splitting and runs.
//!
//! A version string is modelled as a `Seq<char>`; executable code works on
//! `&[char]` so that positions are character positions throughout.

use vstd::prelude::*;
use vstd::slice::slice_subrange;

verus! {

/// `c` is one of the ten ASCII digits.
pub open spec fn is_digit(c: char) -> bool {
    '0' <= c && c <= '9'
}

/// `c` is an ASCII letter or an ASCII digit.
pub open spec fn is_alnum(c: char) -> bool {
    is_digit(c) || ('a' <= c && c <= 'z') || ('A' <= c && c <= 'Z')
}

/// Every character of `s` is an ASCII digit (true of the empty sequence).
pub open spec fn all_digits(s: Seq<char>) -> bool {
    forall|i: int| 0 <= i < s.len() ==> is_digit(#[trigger] s[i])
}

/// The ASCII lower-case form of one character; anything but `A`..`Z` is kept.
pub open spec fn ascii_lower(c: char) -> char {
    if 'A' <= c && c <= 'Z' {
        ((c as u8) + 32) as char
    } else {
        c
    }
}

/// What `str::to_lowercase` returns for a given text.
pub uninterp spec fn unicode_lowercase(s: Seq<char>) -> Seq<char>;

/// The lower-case form of a text. Pure ASCII text is lowered letter by
/// letter; text with any other character is lowered as Unicode defines it.
pub open spec fn lowered(s: Seq<char>) -> Seq<char> {
    if vstd::utf8::is_ascii_chars(s) {
        Seq::new(s.len(), |i: int| ascii_lower(s[i]))
    } else {
        unicode_lowercase(s)
    }
}

/// `pat` occurs in `s` starting at position `i`.
pub open spec fn occurs_at(s: Seq<char>, pat: Seq<char>, i: int) -> bool {
    0 <= i && i + pat.len() <= s.len() && s.subrange(i, i + pat.len()) == pat
}

/// `i` is the position of the first occurrence of `pat` in `s`.
pub open spec fn is_first_occurrence(s: Seq<char>, pat: Seq<char>, i: int) -> bool {
    occurs_at(s, pat, i) && forall|j: int| 0 <= j < i ==> !occurs_at(s, pat, j)
}

/// The position of the first occurrence of `pat` in `s`, if there is one.
pub open spec fn find(s: Seq<char>, pat: Seq<char>) -> Option<int> {
    if exists|i: int| is_first_occurrence(s, pat, i) {
        Some(choose|i: int| is_first_occurrence(s, pat, i))
    } else {
        None
    }
}

/// `s` begins with `pat`.
pub open spec fn starts_with(s: Seq<char>, pat: Seq<char>) -> bool {
    occurs_at(s, pat, 0)
}

/// A first occurrence is what `find` reports.
pub proof fn lemma_find_first(s: Seq<char>, pat: Seq<char>, i: int)
    requires
        is_first_occurrence(s, pat, i),
    ensures
        find(s, pat) == Some(i),
{
    let k = choose|k: int| is_first_occurrence(s, pat, k);
    if k < i {
        assert(!occurs_at(s, pat, k));
    } else if i < k {
        assert(!occurs_at(s, pat, i));
    }
}

/// Without any occurrence `find` reports nothing.
pub proof fn lemma_find_absent(s: Seq<char>, pat: Seq<char>)
    requires
        forall|j: int| !occurs_at(s, pat, j),
    ensures
        find(s, pat) is None,
{
}

/// What `find` reports is a first occurrence, and `None` means no occurrence.
pub proof fn lemma_find_sound(s: Seq<char>, pat: Seq<char>)
    ensures
        match find(s, pat) {
            Some(i) => is_first_occurrence(s, pat, i),
            None => forall|j: int| !occurs_at(s, pat, j),
        },
{
    if find(s, pat) is None {
        assert forall|j: int| !occurs_at(s, pat, j) by {
            if occurs_at(s, pat, j) {
                lemma_first_exists(s, pat, j);
            }
        }
    }
}

/// Any occurrence is preceded by, or is, a first occurrence.
proof fn lemma_first_exists(s: Seq<char>, pat: Seq<char>, j: int)
    requires
        occurs_at(s, pat, j),
    ensures
        exists|i: int| is_first_occurrence(s, pat, i),
    decreases j,
{
    if exists|k: int| 0 <= k < j && occurs_at(s, pat, k) {
        let k = choose|k: int| 0 <= k < j && occurs_at(s, pat, k);
        lemma_first_exists(s, pat, k);
    } else {
        assert(is_first_occurrence(s, pat, j));
    }
}

/// Copies the characters of a string slice into a vector, in order.
pub fn chars_of(s: &str) -> (v: Vec<char>)
    ensures
        v@ == s@,
{
    let mut v: Vec<char> = Vec::new();
    for c in it: s.chars()
        invariant
            v@ == it.seq().take(it.index()),
            it.seq() == s@,
    {
        v.push(c);
    }
    v
}

/// `String::push` appends the one character it is given and changes nothing
/// else of the string.
pub assume_specification[ String::push ](s: &mut String, c: char)
    ensures
        final(s)@ == old(s)@.push(c),
;

/// `str::to_lowercase` depends on its argument alone; its result is the
/// text that [`unicode_lowercase`] names. Nothing more is claimed of it.
pub assume_specification[ str::to_lowercase ](s: &str) -> (r: String)
    ensures
        r@ == unicode_lowercase(s@),
;

/// Appends the characters of `cs` to `out`.
pub fn push_chars(out: &mut String, cs: &[char])
    ensures
        final(out)@ == old(out)@ + cs@,
{
    let mut i: usize = 0;
    while i < cs.len()
        invariant
            i <= cs.len(),
            out@ == old(out)@ + cs@.take(i as int),
        decreases cs.len() - i,
    {
        out.push(cs[i]);
        i += 1;
    }
}

/// Builds a `String` holding exactly the characters of `cs`.
pub fn string_of(cs: &[char]) -> (out: String)
    ensures
        out@ == cs@,
{
    let mut out = String::new();
    push_chars(&mut out, cs);
    out
}

/// Tells whether `c` is an ASCII digit.
pub fn is_ascii_digit(c: char) -> (r: bool)
    ensures
        r == is_digit(c),
{
    '0' <= c && c <= '9'
}

/// Tells whether `c` is an ASCII letter or digit.
pub fn is_ascii_alnum(c: char) -> (r: bool)
    ensures
        r == is_alnum(c),
{
    ('0' <= c && c <= '9') || ('a' <= c && c <= 'z') || ('A' <= c && c <= 'Z')
}

/// Lowers one ASCII character.
pub fn lower_ascii_char(c: char) -> (r: char)
    ensures
        r == ascii_lower(c),
{
    if 'A' <= c && c <= 'Z' {
        ((c as u8) + 32) as char
    } else {
        c
    }
}

/// The lower-case form of `s`, as characters.
pub fn lowercase(s: &str) -> (v: Vec<char>)
    ensures
        v@ == lowered(s@),
{
    if s.is_ascii() {
        let cs = chars_of(s);
        let mut v: Vec<char> = Vec::new();
        let mut i: usize = 0;
        while i < cs.len()
            invariant
                i <= cs.len(),
                cs@ == s@,
                v@.len() == i,
                forall|j: int| 0 <= j < i ==> v@[j] == ascii_lower(s@[j]),
            decreases cs.len() - i,
        {
            v.push(lower_ascii_char(cs[i]));
            i += 1;
        }
        assert(v@ =~= lowered(s@));
        v
    } else {
        let t = s.to_lowercase();
        chars_of(t.as_str())
    }
}

/// Tells whether `pat` occurs in `s` at position `i`.
pub fn matches_at(s: &[char], pat: &[char], i: usize) -> (r: bool)
    ensures
        r == occurs_at(s@, pat@, i as int),
{
    if pat.len() > s.len() || i > s.len() - pat.len() {
        return false;
    }
    let mut k: usize = 0;
    while k < pat.len()
        invariant
            k <= pat.len(),
            i + pat.len() <= s.len(),
            forall|j: int| 0 <= j < k ==> s@[i + j] == pat@[j],
        decreases pat.len() - k,
    {
        if s[i + k] != pat[k] {
            proof {
                let sub = s@.subrange(i as int, i + pat@.len());
                assert(sub[k as int] == s@[i + k]);
            }
            return false;
        }
        k += 1;
    }
    assert(s@.subrange(i as int, i + pat@.len()) =~= pat@);
    true
}

/// The position of the first occurrence of `pat` in `s`.
pub fn find_in(s: &[char], pat: &[char]) -> (r: Option<usize>)
    ensures
        position(r) == find(s@, pat@),
        r matches Some(i) ==> i + pat@.len() <= s@.len(),
{
    let mut i: usize = 0;
    while i < s.len()
        invariant
            i <= s.len(),
            forall|j: int| 0 <= j < i ==> !occurs_at(s@, pat@, j),
        decreases s.len() - i,
    {
        if matches_at(s, pat, i) {
            proof {
                lemma_find_first(s@, pat@, i as int);
            }
            return Some(i);
        }
        i += 1;
    }
    if matches_at(s, pat, i) {
        proof {
            lemma_find_first(s@, pat@, i as int);
        }
        return Some(i);
    }
    proof {
        lemma_find_absent(s@, pat@);
    }
    None
}

/// The characters of `s` from position `from` on.
pub fn tail<'a>(s: &'a [char], from: usize) -> (r: &'a [char])
    requires
        from <= s@.len(),
    ensures
        r@ == s@.skip(from as int),
{
    slice_subrange(s, from, s.len())
}

/// The first `to` characters of `s`.
pub fn head<'a>(s: &'a [char], to: usize) -> (r: &'a [char])
    requires
        to <= s@.len(),
    ensures
        r@ == s@.take(to as int),
{
    slice_subrange(s, 0, to)
}

/// A position as the mathematical integer it stands for.
pub open spec fn position(p: Option<usize>) -> Option<int> {
    match p {
        Some(i) => Some(i as int),
        None => None,
    }
}

/// The position of the first occurrence of the literal `pat` in `s`.
pub fn find_str(s: &[char], pat: &str) -> (r: Option<usize>)
    ensures
        position(r) == find(s@, pat@),
        r matches Some(i) ==> i + pat@.len() <= s@.len(),
{
    let p = chars_of(pat);
    find_in(s, p.as_slice())
}

/// Tells whether `s` begins with the literal `pat`.
pub fn has_prefix(s: &[char], pat: &str) -> (r: bool)
    ensures
        r == starts_with(s@, pat@),
{
    let p = chars_of(pat);
    matches_at(s, p.as_slice(), 0)
}

/// Tells whether `s` is exactly the literal `lit`.
pub fn is_text(s: &[char], lit: &str) -> (r: bool)
    ensures
        r == (s@ == lit@),
{
    let p = chars_of(lit);
    let r = p.len() == s.len() && matches_at(s, p.as_slice(), 0);
    proof {
        if p.len() == s.len() {
            assert(s@.subrange(0, s@.len() as int) =~= s@);
        }
    }
    r
}

/// The number of characters of the literal `lit`.
pub fn text_len(lit: &str) -> (n: usize)
    ensures
        n == lit@.len(),
{
    lit.unicode_len()
}

/// The characters of `s` that follow the literal `pat` found at position `p`.
pub fn tail_after<'a>(s: &'a [char], p: usize, pat: &str) -> (r: &'a [char])
    requires
        p + pat@.len() <= s@.len(),
    ensures
        r@ == s@.skip(p + pat@.len()),
{
    let n = s.len();
    let k = text_len(pat);
    slice_subrange(s, p + k, n)
}

/// The text `a` followed by the characters `x`.
pub fn text2(a: &str, x: &[char]) -> (out: String)
    ensures
        out@ == a@ + x@,
{
    let mut out = String::new();
    out.append(a);
    push_chars(&mut out, x);
    out
}

/// The text `a`, the characters `x`, then the text `b`.
pub fn text3(a: &str, x: &[char], b: &str) -> (out: String)
    ensures
        out@ == a@ + x@ + b@,
{
    let mut out = text2(a, x);
    out.append(b);
    out
}

/// The outcome of a check as plain values: the error is the text it carries.
pub open spec fn unit_outcome(r: Result<(), String>) -> Result<(), Seq<char>> {
    match r {
        Ok(_) => Ok(()),
        Err(e) => Err(e@),
    }
}

/// The outcome of a conversion as plain values.
pub open spec fn text_outcome(r: Result<String, String>) -> Result<Seq<char>, Seq<char>> {
    match r {
        Ok(s) => Ok(s@),
        Err(e) => Err(e@),
    }
}

/// The pieces of `s` between occurrences of `sep`. There is always at least
/// one piece; a separator at either end, or two in a row, give an empty piece.
pub open spec fn split(s: Seq<char>, sep: char) -> Seq<Seq<char>>
    decreases s.len(),
{
    if s.len() == 0 {
        seq![Seq::<char>::empty()]
    } else {
        let init = split(s.drop_last(), sep);
        if s.last() == sep {
            init.push(Seq::<char>::empty())
        } else {
            init.update(init.len() - 1, init.last().push(s.last()))
        }
    }
}

/// The pieces written one after another with `sep` between neighbours.
pub open spec fn join(pieces: Seq<Seq<char>>, sep: char) -> Seq<char>
    decreases pieces.len(),
{
    if pieces.len() == 0 {
        Seq::<char>::empty()
    } else if pieces.len() == 1 {
        pieces[0]
    } else {
        join(pieces.drop_last(), sep).push(sep) + pieces.last()
    }
}

/// `sep` does not occur in `s`.
pub open spec fn free_of(s: Seq<char>, sep: char) -> bool {
    forall|i: int| 0 <= i < s.len() ==> #[trigger] s[i] != sep
}

/// The number of digits that `s` begins with.
pub open spec fn digit_run(s: Seq<char>) -> nat
    decreases s.len(),
{
    if s.len() > 0 && is_digit(s[0]) {
        1 + digit_run(s.drop_first())
    } else {
        0
    }
}

/// The number of dots that `s` begins with.
pub open spec fn dot_run(s: Seq<char>) -> nat
    decreases s.len(),
{
    if s.len() > 0 && s[0] == '.' {
        1 + dot_run(s.drop_first())
    } else {
        0
    }
}

/// `c` is white space: one of the code points U+0009 to U+000D, U+0020,
/// U+0085, U+00A0, U+1680, U+2000 to U+200A, U+2028, U+2029, U+202F, U+205F
/// and U+3000.
pub open spec fn is_white_space(c: char) -> bool {
    ('\u{9}' <= c && c <= '\u{d}') || c == ' ' || c == '\u{85}' || c == '\u{a0}' || c
        == '\u{1680}' || ('\u{2000}' <= c && c <= '\u{200a}') || c == '\u{2028}' || c
        == '\u{2029}' || c == '\u{202f}' || c == '\u{205f}' || c == '\u{3000}'
}

/// The number of white-space characters that `s` begins with.
pub open spec fn leading_blanks(s: Seq<char>) -> nat
    decreases s.len(),
{
    if s.len() > 0 && is_white_space(s[0]) {
        1 + leading_blanks(s.drop_first())
    } else {
        0
    }
}

/// The number of white-space characters that `s` ends with.
pub open spec fn trailing_blanks(s: Seq<char>) -> nat
    decreases s.len(),
{
    if s.len() > 0 && is_white_space(s.last()) {
        1 + trailing_blanks(s.drop_last())
    } else {
        0
    }
}

/// `s` without the white space that it begins and ends with.
pub open spec fn trimmed(s: Seq<char>) -> Seq<char> {
    let rest = s.skip(leading_blanks(s) as int);
    rest.take(rest.len() - trailing_blanks(rest))
}

/// The views of a sequence of slices.
pub open spec fn piece_views(pieces: Seq<&[char]>) -> Seq<Seq<char>> {
    Seq::new(pieces.len(), |i: int| pieces[i]@)
}

/// Splitting always yields at least one piece.
pub proof fn lemma_split_nonempty(s: Seq<char>, sep: char)
    ensures
        split(s, sep).len() >= 1,
    decreases s.len(),
{
    if s.len() > 0 {
        lemma_split_nonempty(s.drop_last(), sep);
    }
}

/// Text without the separator is a single piece.
pub proof fn lemma_split_single(s: Seq<char>, sep: char)
    requires
        free_of(s, sep),
    ensures
        split(s, sep) == seq![s],
    decreases s.len(),
{
    if s.len() == 0 {
        assert(s =~= Seq::<char>::empty());
    } else {
        lemma_split_single(s.drop_last(), sep);
        assert(s.drop_last().push(s.last()) =~= s);
        assert(seq![s.drop_last()].update(0, s) =~= seq![s]);
    }
}

/// A separator followed by separator-free text adds that text as one more piece.
pub proof fn lemma_split_append(x: Seq<char>, y: Seq<char>, sep: char)
    requires
        free_of(y, sep),
    ensures
        split(x.push(sep) + y, sep) == split(x, sep).push(y),
    decreases y.len(),
{
    let z = x.push(sep) + y;
    if y.len() == 0 {
        assert(z =~= x.push(sep));
        assert(z.drop_last() =~= x);
        assert(y =~= Seq::<char>::empty());
    } else {
        let y0 = y.drop_last();
        lemma_split_append(x, y0, sep);
        assert(z.drop_last() =~= x.push(sep) + y0);
        assert(z.last() == y.last());
        assert(y0.push(y.last()) =~= y);
        let init = split(x, sep).push(y0);
        assert(init.update(init.len() - 1, init.last().push(y.last())) =~= split(x, sep).push(y));
    }
}

/// Joining the pieces of a split gives the text back.
pub proof fn lemma_join_split(s: Seq<char>, sep: char)
    ensures
        join(split(s, sep), sep) == s,
    decreases s.len(),
{
    if s.len() == 0 {
        assert(s =~= Seq::<char>::empty());
    } else {
        let s0 = s.drop_last();
        let c = s.last();
        lemma_join_split(s0, sep);
        lemma_split_nonempty(s0, sep);
        let init = split(s0, sep);
        assert(s0.push(c) =~= s);
        if c == sep {
            let now = init.push(Seq::<char>::empty());
            assert(now.drop_last() =~= init);
            assert(join(now, sep) =~= join(init, sep).push(sep));
        } else {
            let now = init.update(init.len() - 1, init.last().push(c));
            if init.len() == 1 {
                assert(join(now, sep) =~= init[0].push(c));
            } else {
                assert(now.drop_last() =~= init.drop_last());
                assert(join(now, sep) =~= join(init, sep).push(c));
            }
        }
    }
}

/// A run of `n` digits that ends the text, or is followed by a non-digit,
/// is the whole leading digit run.
pub proof fn lemma_digit_run(s: Seq<char>, n: int)
    requires
        0 <= n <= s.len(),
        forall|j: int| 0 <= j < n ==> is_digit(#[trigger] s[j]),
        n == s.len() || !is_digit(s[n]),
    ensures
        digit_run(s) == n,
    decreases n,
{
    if n > 0 {
        let t = s.drop_first();
        assert forall|j: int| 0 <= j < n - 1 implies is_digit(#[trigger] t[j]) by {
            assert(t[j] == s[j + 1]);
        }
        lemma_digit_run(t, n - 1);
    }
}

/// A run of `n` dots that ends the text, or is followed by another
/// character, is the whole leading run of dots.
pub proof fn lemma_dot_run(s: Seq<char>, n: int)
    requires
        0 <= n <= s.len(),
        forall|j: int| 0 <= j < n ==> #[trigger] s[j] == '.',
        n == s.len() || s[n] != '.',
    ensures
        dot_run(s) == n,
    decreases n,
{
    if n > 0 {
        let t = s.drop_first();
        assert forall|j: int| 0 <= j < n - 1 implies #[trigger] t[j] == '.' by {
            assert(t[j] == s[j + 1]);
        }
        lemma_dot_run(t, n - 1);
    }
}

/// The leading digit run lies within the text and holds digits only.
pub proof fn lemma_digit_run_bounds(s: Seq<char>)
    ensures
        digit_run(s) <= s.len(),
        all_digits(s.take(digit_run(s) as int)),
    decreases s.len(),
{
    if s.len() > 0 && is_digit(s[0]) {
        let t = s.drop_first();
        lemma_digit_run_bounds(t);
        let n = digit_run(s) as int;
        assert forall|i: int| 0 <= i < n implies is_digit(#[trigger] s.take(n)[i]) by {
            if i > 0 {
                assert(s.take(n)[i] == t.take(n - 1)[i - 1]);
            }
        }
    }
}

/// A run of `n` white-space characters that ends the text, or is followed
/// by another character, is all the white space that the text begins with.
pub proof fn lemma_leading_blanks(s: Seq<char>, n: int)
    requires
        0 <= n <= s.len(),
        forall|j: int| 0 <= j < n ==> is_white_space(#[trigger] s[j]),
        n == s.len() || !is_white_space(s[n]),
    ensures
        leading_blanks(s) == n,
    decreases n,
{
    if n > 0 {
        let t = s.drop_first();
        assert forall|j: int| 0 <= j < n - 1 implies is_white_space(#[trigger] t[j]) by {
            assert(t[j] == s[j + 1]);
        }
        lemma_leading_blanks(t, n - 1);
    }
}

/// A run of `n` white-space characters at the end of the text that is all
/// of the text, or follows another character, is all the white space that
/// the text ends with.
pub proof fn lemma_trailing_blanks(s: Seq<char>, n: int)
    requires
        0 <= n <= s.len(),
        forall|j: int| s.len() - n <= j < s.len() ==> is_white_space(#[trigger] s[j]),
        n == s.len() || !is_white_space(s[s.len() - n - 1]),
    ensures
        trailing_blanks(s) == n,
    decreases n,
{
    if n > 0 {
        let t = s.drop_last();
        assert forall|j: int| t.len() - (n - 1) <= j < t.len() implies is_white_space(
            #[trigger] t[j],
        ) by {
            assert(t[j] == s[j]);
        }
        if n - 1 < t.len() {
            assert(t[t.len() - (n - 1) - 1] == s[s.len() - n - 1]);
        }
        lemma_trailing_blanks(t, n - 1);
    }
}

/// Tells whether `c` is white space.
pub fn is_blank(c: char) -> (r: bool)
    ensures
        r == is_white_space(c),
{
    ('\u{9}' <= c && c <= '\u{d}') || c == ' ' || c == '\u{85}' || c == '\u{a0}' || c
        == '\u{1680}' || ('\u{2000}' <= c && c <= '\u{200a}') || c == '\u{2028}' || c
        == '\u{2029}' || c == '\u{202f}' || c == '\u{205f}' || c == '\u{3000}'
}

/// `s` without the white space that it begins and ends with.
pub fn trim<'a>(s: &'a [char]) -> (r: &'a [char])
    ensures
        r@ == trimmed(s@),
{
    let mut from: usize = 0;
    while from < s.len() && is_blank(s[from])
        invariant
            from <= s.len(),
            forall|j: int| 0 <= j < from ==> is_white_space(#[trigger] s@[j]),
        decreases s.len() - from,
    {
        from += 1;
    }
    proof {
        lemma_leading_blanks(s@, from as int);
    }
    let rest = slice_subrange(s, from, s.len());
    let mut to: usize = rest.len();
    while to > 0 && is_blank(rest[to - 1])
        invariant
            to <= rest.len(),
            forall|j: int| to <= j < rest@.len() ==> is_white_space(#[trigger] rest@[j]),
        decreases to,
    {
        to -= 1;
    }
    proof {
        lemma_trailing_blanks(rest@, rest@.len() - to);
    }
    slice_subrange(rest, 0, to)
}

/// The length of the leading digit run of `s`.
pub fn count_digits(s: &[char]) -> (n: usize)
    ensures
        n == digit_run(s@),
        n <= s@.len(),
{
    let mut i: usize = 0;
    while i < s.len() && is_ascii_digit(s[i])
        invariant
            i <= s.len(),
            forall|j: int| 0 <= j < i ==> is_digit(#[trigger] s@[j]),
        decreases s.len() - i,
    {
        i += 1;
    }
    proof {
        lemma_digit_run(s@, i as int);
    }
    i
}

/// The length of the leading run of dots of `s`.
pub fn count_dots(s: &[char]) -> (n: usize)
    ensures
        n == dot_run(s@),
        n <= s@.len(),
{
    let mut i: usize = 0;
    while i < s.len() && s[i] == '.'
        invariant
            i <= s.len(),
            forall|j: int| 0 <= j < i ==> #[trigger] s@[j] == '.',
        decreases s.len() - i,
    {
        i += 1;
    }
    proof {
        lemma_dot_run(s@, i as int);
    }
    i
}

/// Splits `s` at every occurrence of `sep`.
pub fn split_at<'a>(s: &'a [char], sep: char) -> (pieces: Vec<&'a [char]>)
    ensures
        piece_views(pieces@) == split(s@, sep),
        pieces@.len() >= 1,
{
    let mut pieces: Vec<&'a [char]> = Vec::new();
    let mut start: usize = 0;
    let mut i: usize = 0;
    proof {
        assert(s@.take(0) =~= Seq::<char>::empty());
        assert(piece_views(pieces@).push(s@.subrange(0, 0)) =~= split(s@.take(0), sep));
    }
    while i < s.len()
        invariant
            start <= i <= s.len(),
            piece_views(pieces@).push(s@.subrange(start as int, i as int)) == split(
                s@.take(i as int),
                sep,
            ),
        decreases s.len() - i,
    {
        let ghost before = piece_views(pieces@);
        let ghost open = s@.subrange(start as int, i as int);
        proof {
            assert(s@.take(i + 1).drop_last() =~= s@.take(i as int));
            assert(s@.take(i + 1).last() == s@[i as int]);
        }
        if s[i] == sep {
            pieces.push(slice_subrange(s, start, i));
            start = i + 1;
            proof {
                assert(piece_views(pieces@) =~= before.push(open));
                assert(s@.subrange(start as int, i + 1) =~= Seq::<char>::empty());
            }
        } else {
            proof {
                let init = before.push(open);
                assert(s@.subrange(start as int, i + 1) =~= open.push(s@[i as int]));
                assert(init.update(init.len() - 1, init.last().push(s@[i as int])) =~= before.push(
                    open.push(s@[i as int]),
                ));
            }
        }
        i += 1;
    }
    let ghost before = piece_views(pieces@);
    pieces.push(slice_subrange(s, start, i));
    proof {
        assert(s@.take(i as int) =~= s@);
        assert(piece_views(pieces@) =~= before.push(s@.subrange(start as int, i as int)));
    }
    pieces
}

} // verus!
