//! The validator: decides whether a version string follows a given grammar,
//! and says which rule it breaks where it does not.
//!
//! Each grammar is stated as a specification function from the text to a
//! verdict, the error being the reason as text. The executable functions
//! return exactly that verdict.

use crate::number::{parse_number, parse_u32};
use crate::schema::FileKind;
use crate::text::{
    all_digits, chars_of, count_digits, digit_run, find, find_str, has_prefix, head, is_alnum,
    is_ascii_alnum, is_ascii_digit, is_digit, lowercase, lowered, piece_views,
    position, push_chars, split, split_at, starts_with, tail, tail_after, text2, text3,
    unit_outcome,
};
use vstd::prelude::*;

verus! {

/// The name of the first, second or third release component.
pub open spec fn component_name(i: int) -> Seq<char> {
    if i == 0 {
        "major"@
    } else if i == 1 {
        "minor"@
    } else {
        "patch"@
    }
}

/// The first of three components that is not a number, if any.
pub open spec fn first_unreadable(parts: Seq<Seq<char>>) -> Option<int> {
    if parse_u32(parts[0]) is None {
        Some(0)
    } else if parse_u32(parts[1]) is None {
        Some(1)
    } else if parse_u32(parts[2]) is None {
        Some(2)
    } else {
        None
    }
}

/// The verdict of the three-component grammar: exactly three dot-separated
/// components, each a number.
pub open spec fn simple_verdict(v: Seq<char>) -> Result<(), Seq<char>> {
    let parts = split(v, '.');
    if parts.len() != 3 {
        Err("Invalid simple version: "@ + v + ". Expected format: major.minor.patch"@)
    } else {
        match first_unreadable(parts) {
            Some(i) => Err(
                "Invalid "@ + component_name(i) + " version component: "@ + parts[i],
            ),
            None => Ok(()),
        }
    }
}

/// The characters that a dot-separated piece may be made of.
#[derive(Debug, Clone, Copy, PartialEq, Eq, Structural)]
pub enum CharClass {
    /// ASCII digits.
    Digit,
    /// ASCII letters and digits.
    Alnum,
    /// ASCII letters, digits and the hyphen.
    Identifier,
}

/// `c` belongs to `class`.
pub open spec fn in_class(c: char, class: CharClass) -> bool {
    match class {
        CharClass::Digit => is_digit(c),
        CharClass::Alnum => is_alnum(c),
        CharClass::Identifier => is_alnum(c) || c == '-',
    }
}

/// `s` is non-empty and made of characters of `class` only.
pub open spec fn piece_in(s: Seq<char>, class: CharClass) -> bool {
    s.len() > 0 && forall|i: int| 0 <= i < s.len() ==> in_class(#[trigger] s[i], class)
}

/// Every dot-separated piece of `s` is non-empty and made of characters of
/// `class` only. The empty text has one piece, which is empty.
pub open spec fn pieces_in(s: Seq<char>, class: CharClass) -> bool {
    forall|k: int| 0 <= k < split(s, '.').len() ==> piece_in(#[trigger] split(s, '.')[k], class)
}

/// A local segment: dot-separated alphanumeric pieces.
pub open spec fn valid_local(s: Seq<char>) -> bool {
    pieces_in(s, CharClass::Alnum)
}

/// A release: dot-separated groups of digits.
pub open spec fn valid_release(s: Seq<char>) -> bool {
    pieces_in(s, CharClass::Digit)
}

/// A pre-release or build identifier: dot-separated pieces of letters,
/// digits and hyphens.
pub open spec fn valid_identifier(s: Seq<char>) -> bool {
    pieces_in(s, CharClass::Identifier)
}

/// A marker counts at position `i` only where the text starts there, or the
/// character before it is a dot or a digit.
pub open spec fn at_boundary(s: Seq<char>, i: int) -> bool {
    i <= 0 || s[i - 1] == '.' || is_digit(s[i - 1])
}

/// The first occurrence of `marker`, provided that it stands at a boundary.
/// Later occurrences are not considered.
pub open spec fn marker_at(s: Seq<char>, marker: Seq<char>) -> Option<int> {
    match find(s, marker) {
        Some(p) => if at_boundary(s, p) {
            Some(p)
        } else {
            None
        },
        None => None,
    }
}

/// The lesser of two positions, either of which may be missing.
pub open spec fn earliest(a: Option<int>, b: Option<int>) -> Option<int> {
    match (a, b) {
        (Some(x), Some(y)) => if y < x {
            Some(y)
        } else {
            Some(x)
        },
        (Some(x), None) => Some(x),
        (None, y) => y,
    }
}

/// The earliest pre-release marker that stands at a boundary.
pub open spec fn earliest_prerelease_marker(s: Seq<char>) -> Option<int> {
    earliest(
        earliest(
            earliest(
                earliest(
                    earliest(
                        earliest(marker_at(s, "alpha"@), marker_at(s, "beta"@)),
                        marker_at(s, "preview"@),
                    ),
                    marker_at(s, "rc"@),
                ),
                marker_at(s, "a"@),
            ),
            marker_at(s, "b"@),
        ),
        marker_at(s, "c"@),
    )
}

/// Where the release part of an extended version ends: at the earliest of
/// the pre-release markers that stand at a boundary, of `.post` and `.dev`,
/// and of `post` and `dev` written without their dot at a boundary; at the
/// end of the text where there is none.
pub open spec fn suffix_start(s: Seq<char>) -> int {
    match earliest(
        earliest(
            earliest(
                earliest(earliest_prerelease_marker(s), find(s, ".post"@)),
                find(s, ".dev"@),
            ),
            marker_at(s, "post"@),
        ),
        marker_at(s, "dev"@),
    ) {
        Some(p) => p,
        None => s.len() as int,
    }
}

/// `s` without its leading digits.
pub open spec fn skip_digits(s: Seq<char>) -> Seq<char> {
    s.skip(digit_run(s) as int)
}

/// `s` without a pre-release marker at its start and the digits after it.
/// The longer spellings are tried before their abbreviations.
pub open spec fn strip_prerelease(s: Seq<char>) -> Seq<char> {
    if starts_with(s, "alpha"@) {
        skip_digits(s.skip("alpha"@.len() as int))
    } else if starts_with(s, "beta"@) {
        skip_digits(s.skip("beta"@.len() as int))
    } else if starts_with(s, "preview"@) {
        skip_digits(s.skip("preview"@.len() as int))
    } else if starts_with(s, "rc"@) {
        skip_digits(s.skip("rc"@.len() as int))
    } else if starts_with(s, "a"@) {
        skip_digits(s.skip("a"@.len() as int))
    } else if starts_with(s, "b"@) {
        skip_digits(s.skip("b"@.len() as int))
    } else if starts_with(s, "c"@) {
        skip_digits(s.skip("c"@.len() as int))
    } else {
        s
    }
}

/// `s` without one marker at its start, written with or without its dot,
/// and the digits after it.
pub open spec fn strip_marked(s: Seq<char>, dotted: Seq<char>, bare: Seq<char>) -> Seq<char> {
    if starts_with(s, dotted) {
        skip_digits(s.skip(dotted.len() as int))
    } else if starts_with(s, bare) {
        skip_digits(s.skip(bare.len() as int))
    } else {
        s
    }
}

/// What is left of a suffix once a pre-release, then a post-release, then a
/// dev-release were taken from its start, each at most once.
pub open spec fn suffix_leftover(s: Seq<char>) -> Seq<char> {
    strip_marked(strip_marked(strip_prerelease(s), ".post"@, "post"@), ".dev"@, "dev"@)
}

/// The verdict on the suffix of an extended version: nothing may be left
/// over.
pub open spec fn suffixes_verdict(s: Seq<char>) -> Result<(), Seq<char>> {
    let rest = suffix_leftover(s);
    if rest.len() == 0 {
        Ok(())
    } else {
        Err("Invalid version suffix: "@ + rest)
    }
}

/// The verdict on an extended version without its epoch and local segment.
pub open spec fn main_verdict(s: Seq<char>) -> Result<(), Seq<char>> {
    if s.len() == 0 {
        Err("Version string cannot be empty"@)
    } else {
        let cut = suffix_start(s);
        if !valid_release(s.take(cut)) {
            Err("Invalid release version: "@ + s.take(cut))
        } else {
            suffixes_verdict(s.skip(cut))
        }
    }
}

/// The verdict on a lowered extended version without its epoch.
pub open spec fn local_verdict(s: Seq<char>) -> Result<(), Seq<char>> {
    match find(s, "+"@) {
        Some(p) => {
            let local = s.skip(p + "+"@.len());
            if !valid_local(local) {
                Err("Invalid local version: "@ + local)
            } else {
                main_verdict(s.take(p))
            }
        },
        None => main_verdict(s),
    }
}

/// The verdict of the extended grammar on a lowered text. An epoch is
/// what stands before the first `!` and must be digits; a local segment is
/// what follows the first `+` after that and must be dot-separated
/// alphanumeric pieces; the rest is a release of dot-separated digit groups
/// and a suffix of pre-, post- and dev-release in that order.
pub open spec fn lowered_python_verdict(low: Seq<char>) -> Result<(), Seq<char>> {
    match find(low, "!"@) {
        Some(p) => if !all_digits(low.take(p)) {
            Err("Invalid epoch: "@ + low.take(p))
        } else {
            local_verdict(low.skip(p + "!"@.len()))
        },
        None => local_verdict(low),
    }
}

/// The verdict of the extended grammar, which does not tell small letters
/// from capitals: an empty text is rejected, any other is lowered and
/// judged then.
pub open spec fn python_verdict(v: Seq<char>) -> Result<(), Seq<char>> {
    if v.len() == 0 {
        Err("Version string cannot be empty"@)
    } else {
        lowered_python_verdict(lowered(v))
    }
}

/// The verdict on the release of a semantic version: exactly three
/// dot-separated components, each a number.
pub open spec fn semver_release_verdict(release: Seq<char>) -> Result<(), Seq<char>> {
    let parts = split(release, '.');
    if parts.len() != 3 {
        Err("Invalid semver: "@ + release + ". Expected format: major.minor.patch"@)
    } else {
        match first_unreadable(parts) {
            Some(i) => Err("Invalid "@ + component_name(i) + " version: "@ + parts[i]),
            None => Ok(()),
        }
    }
}

/// The verdict on a semantic version without its build metadata: a release,
/// then, after the first `-`, a pre-release of identifier pieces.
pub open spec fn semver_core_verdict(s: Seq<char>) -> Result<(), Seq<char>> {
    match find(s, "-"@) {
        Some(p) => {
            let pre = s.skip(p + "-"@.len());
            match semver_release_verdict(s.take(p)) {
                Err(e) => Err(e),
                Ok(_) => if !valid_identifier(pre) {
                    Err("Invalid prerelease: "@ + pre)
                } else {
                    Ok(())
                },
            }
        },
        None => semver_release_verdict(s),
    }
}

/// The verdict of the semantic-version grammar. Build metadata is what
/// follows the first `+`; the text is not lowered.
pub open spec fn javascript_verdict(v: Seq<char>) -> Result<(), Seq<char>> {
    if v.len() == 0 {
        Err("Version string cannot be empty"@)
    } else {
        match find(v, "+"@) {
            Some(p) => {
                let build = v.skip(p + "+"@.len());
                if !valid_identifier(build) {
                    Err("Invalid build metadata: "@ + build)
                } else {
                    semver_core_verdict(v.take(p))
                }
            },
            None => semver_core_verdict(v),
        }
    }
}

/// The verdict of the grammar that `kind` names.
pub open spec fn verdict(v: Seq<char>, kind: FileKind) -> Result<(), Seq<char>> {
    match kind {
        FileKind::Any => Ok(()),
        FileKind::Simple => simple_verdict(v),
        FileKind::Python => python_verdict(v),
        FileKind::Semver => javascript_verdict(v),
    }
}

/// The name of a release component by its position.
fn name_of_component(i: usize) -> (r: &'static str)
    ensures
        r@ == component_name(i as int),
{
    if i == 0 {
        "major"
    } else if i == 1 {
        "minor"
    } else {
        "patch"
    }
}

/// Finds the first of three components that is not a number.
fn find_unreadable(parts: &Vec<&[char]>) -> (r: Option<usize>)
    requires
        parts@.len() == 3,
    ensures
        match r {
            Some(i) => i < 3 && first_unreadable(piece_views(parts@)) == Some(i as int),
            None => first_unreadable(piece_views(parts@)) is None,
        },
{
    if parse_number(parts[0]).is_none() {
        Some(0)
    } else if parse_number(parts[1]).is_none() {
        Some(1)
    } else if parse_number(parts[2]).is_none() {
        Some(2)
    } else {
        None
    }
}

/// Validates a version of three numeric components.
pub fn validate_simple(version: &str) -> (r: Result<(), String>)
    ensures
        unit_outcome(r) == simple_verdict(version@),
{
    let cs = chars_of(version);
    let parts = split_at(cs.as_slice(), '.');
    if parts.len() != 3 {
        return Err(
            text3(
                "Invalid simple version: ",
                cs.as_slice(),
                ". Expected format: major.minor.patch",
            ),
        );
    }
    match find_unreadable(&parts) {
        Some(i) => {
            let mut msg = String::from_str("Invalid ");
            msg.append(name_of_component(i));
            msg.append(" version component: ");
            push_chars(&mut msg, parts[i]);
            Err(msg)
        },
        None => Ok(()),
    }
}

/// Tells whether `c` belongs to `class`.
fn char_in(c: char, class: CharClass) -> (r: bool)
    ensures
        r == in_class(c, class),
{
    match class {
        CharClass::Digit => is_ascii_digit(c),
        CharClass::Alnum => is_ascii_alnum(c),
        CharClass::Identifier => is_ascii_alnum(c) || c == '-',
    }
}

/// Tells whether `s` is non-empty and made of characters of `class` only.
fn is_piece_in(s: &[char], class: CharClass) -> (r: bool)
    ensures
        r == piece_in(s@, class),
{
    if s.len() == 0 {
        return false;
    }
    let mut i: usize = 0;
    while i < s.len()
        invariant
            i <= s.len(),
            forall|j: int| 0 <= j < i ==> in_class(#[trigger] s@[j], class),
        decreases s.len() - i,
    {
        if !char_in(s[i], class) {
            return false;
        }
        i += 1;
    }
    true
}

/// Tells whether every dot-separated piece of `s` is non-empty and made of
/// characters of `class` only.
fn are_pieces_in(s: &[char], class: CharClass) -> (r: bool)
    ensures
        r == pieces_in(s@, class),
{
    let pieces = split_at(s, '.');
    let mut k: usize = 0;
    while k < pieces.len()
        invariant
            k <= pieces.len(),
            piece_views(pieces@) == split(s@, '.'),
            forall|j: int| 0 <= j < k ==> piece_in(#[trigger] split(s@, '.')[j], class),
        decreases pieces.len() - k,
    {
        if !is_piece_in(pieces[k], class) {
            proof {
                assert(piece_views(pieces@)[k as int] == pieces@[k as int]@);
            }
            return false;
        }
        proof {
            assert(piece_views(pieces@)[k as int] == pieces@[k as int]@);
        }
        k += 1;
    }
    true
}

/// Tells whether `local` is a valid local segment.
pub fn is_valid_local(local: &[char]) -> (r: bool)
    ensures
        r == valid_local(local@),
{
    are_pieces_in(local, CharClass::Alnum)
}

/// Tells whether `release` is dot-separated groups of digits.
pub fn is_valid_release(release: &[char]) -> (r: bool)
    ensures
        r == valid_release(release@),
{
    are_pieces_in(release, CharClass::Digit)
}

/// Tells whether `id` is dot-separated pieces of letters, digits and hyphens.
pub fn is_valid_semver_identifier(id: &[char]) -> (r: bool)
    ensures
        r == valid_identifier(id@),
{
    are_pieces_in(id, CharClass::Identifier)
}

/// Tells whether every character of `s` is a digit.
fn is_all_digits(s: &[char]) -> (r: bool)
    ensures
        r == all_digits(s@),
{
    let mut i: usize = 0;
    while i < s.len()
        invariant
            i <= s.len(),
            forall|j: int| 0 <= j < i ==> is_digit(#[trigger] s@[j]),
        decreases s.len() - i,
    {
        if !is_ascii_digit(s[i]) {
            return false;
        }
        i += 1;
    }
    true
}

/// The first occurrence of `marker` in `s`, provided that it stands at a
/// boundary.
pub fn marker_in(s: &[char], marker: &str) -> (r: Option<usize>)
    ensures
        position(r) == marker_at(s@, marker@),
        r matches Some(i) ==> i + marker@.len() <= s@.len(),
{
    match find_str(s, marker) {
        Some(p) => {
            if p == 0 || s[p - 1] == '.' || is_ascii_digit(s[p - 1]) {
                Some(p)
            } else {
                None
            }
        },
        None => None,
    }
}

/// The lesser of two positions, either of which may be missing.
pub fn earlier(a: Option<usize>, b: Option<usize>) -> (r: Option<usize>)
    ensures
        position(r) == earliest(position(a), position(b)),
        r == a || r == b,
{
    match (a, b) {
        (Some(x), Some(y)) => if y < x {
            Some(y)
        } else {
            Some(x)
        },
        (Some(x), None) => Some(x),
        (None, y) => y,
    }
}

/// The earliest pre-release marker of `s` that stands at a boundary.
pub fn first_prerelease_marker(s: &[char]) -> (r: Option<usize>)
    ensures
        position(r) == earliest_prerelease_marker(s@),
        r matches Some(i) ==> i <= s@.len(),
{
    let mut best = earlier(marker_in(s, "alpha"), marker_in(s, "beta"));
    best = earlier(best, marker_in(s, "preview"));
    best = earlier(best, marker_in(s, "rc"));
    best = earlier(best, marker_in(s, "a"));
    best = earlier(best, marker_in(s, "b"));
    best = earlier(best, marker_in(s, "c"));
    best
}

/// Splits an extended version, without epoch and local segment, into its
/// release and its suffix.
pub fn split_at_prerelease<'a>(version: &'a [char]) -> (r: (&'a [char], &'a [char]))
    ensures
        0 <= suffix_start(version@) <= version@.len(),
        r.0@ == version@.take(suffix_start(version@)),
        r.1@ == version@.skip(suffix_start(version@)),
{
    let mut best = first_prerelease_marker(version);
    best = earlier(best, find_str(version, ".post"));
    best = earlier(best, find_str(version, ".dev"));
    best = earlier(best, marker_in(version, "post"));
    best = earlier(best, marker_in(version, "dev"));
    match best {
        Some(p) => (head(version, p), tail(version, p)),
        None => {
            proof {
                assert(version@.take(version@.len() as int) =~= version@);
            }
            (version, tail(version, version.len()))
        },
    }
}

/// `s` without its leading digits.
fn skip_number<'a>(s: &'a [char]) -> (r: &'a [char])
    ensures
        r@ == skip_digits(s@),
{
    let n = count_digits(s);
    tail(s, n)
}

/// `s` without the literal `marker` at its start and the digits after it,
/// where it starts with `marker`.
fn skip_marker<'a>(s: &'a [char], marker: &str) -> (r: Option<&'a [char]>)
    ensures
        match r {
            Some(t) => starts_with(s@, marker@) && t@ == skip_digits(s@.skip(marker@.len() as int)),
            None => !starts_with(s@, marker@),
        },
{
    if has_prefix(s, marker) {
        Some(skip_number(tail_after(s, 0, marker)))
    } else {
        None
    }
}

/// `s` without a pre-release marker at its start and the digits after it.
fn skip_prerelease<'a>(s: &'a [char]) -> (r: &'a [char])
    ensures
        r@ == strip_prerelease(s@),
{
    if let Some(t) = skip_marker(s, "alpha") {
        t
    } else if let Some(t) = skip_marker(s, "beta") {
        t
    } else if let Some(t) = skip_marker(s, "preview") {
        t
    } else if let Some(t) = skip_marker(s, "rc") {
        t
    } else if let Some(t) = skip_marker(s, "a") {
        t
    } else if let Some(t) = skip_marker(s, "b") {
        t
    } else if let Some(t) = skip_marker(s, "c") {
        t
    } else {
        s
    }
}

/// `s` without one marker at its start, written with or without its dot,
/// and the digits after it.
fn skip_marked<'a>(s: &'a [char], dotted: &str, bare: &str) -> (r: &'a [char])
    ensures
        r@ == strip_marked(s@, dotted@, bare@),
{
    if let Some(t) = skip_marker(s, dotted) {
        t
    } else if let Some(t) = skip_marker(s, bare) {
        t
    } else {
        s
    }
}

/// Checks the suffix of an extended version: a pre-release, a post-release
/// and a dev-release, each optional, in this order, and nothing else.
pub fn parse_suffixes(suffix: &[char]) -> (r: Result<(), String>)
    ensures
        unit_outcome(r) == suffixes_verdict(suffix@),
{
    let rest = skip_prerelease(suffix);
    let rest = skip_marked(rest, ".post", "post");
    let rest = skip_marked(rest, ".dev", "dev");
    if rest.len() == 0 {
        Ok(())
    } else {
        Err(text2("Invalid version suffix: ", rest))
    }
}

/// Checks an extended version without its epoch and local segment.
pub fn parse_main_version(version: &[char]) -> (r: Result<(), String>)
    ensures
        unit_outcome(r) == main_verdict(version@),
{
    if version.len() == 0 {
        return Err(String::from_str("Version string cannot be empty"));
    }
    let (release, remainder) = split_at_prerelease(version);
    if !is_valid_release(release) {
        return Err(text2("Invalid release version: ", release));
    }
    parse_suffixes(remainder)
}

/// Checks a lowered extended version without its epoch.
fn validate_local_and_main(version: &[char]) -> (r: Result<(), String>)
    ensures
        unit_outcome(r) == local_verdict(version@),
{
    match find_str(version, "+") {
        Some(p) => {
            let local = tail_after(version, p, "+");
            if !is_valid_local(local) {
                return Err(text2("Invalid local version: ", local));
            }
            parse_main_version(head(version, p))
        },
        None => parse_main_version(version),
    }
}

/// Validates a version of the extended grammar.
pub fn validate_python(version: &str) -> (r: Result<(), String>)
    ensures
        unit_outcome(r) == python_verdict(version@),
{
    if version.is_empty() {
        return Err(String::from_str("Version string cannot be empty"));
    }
    let low = lowercase(version);
    validate_lowered_python(low.as_slice())
}

/// Validates a lowered version of the extended grammar.
pub fn validate_lowered_python(s: &[char]) -> (r: Result<(), String>)
    ensures
        unit_outcome(r) == lowered_python_verdict(s@),
{
    match find_str(s, "!") {
        Some(p) => {
            let epoch = head(s, p);
            if !is_all_digits(epoch) {
                return Err(text2("Invalid epoch: ", epoch));
            }
            validate_local_and_main(tail_after(s, p, "!"))
        },
        None => validate_local_and_main(s),
    }
}

/// Checks the release of a semantic version.
fn validate_semver_release(release: &[char]) -> (r: Result<(), String>)
    ensures
        unit_outcome(r) == semver_release_verdict(release@),
{
    let parts = split_at(release, '.');
    if parts.len() != 3 {
        return Err(text3("Invalid semver: ", release, ". Expected format: major.minor.patch"));
    }
    match find_unreadable(&parts) {
        Some(i) => {
            let mut msg = String::from_str("Invalid ");
            msg.append(name_of_component(i));
            msg.append(" version: ");
            push_chars(&mut msg, parts[i]);
            Err(msg)
        },
        None => Ok(()),
    }
}

/// Checks a semantic version without its build metadata.
fn validate_semver_core(version: &[char]) -> (r: Result<(), String>)
    ensures
        unit_outcome(r) == semver_core_verdict(version@),
{
    match find_str(version, "-") {
        Some(p) => {
            let pre = tail_after(version, p, "-");
            match validate_semver_release(head(version, p)) {
                Err(e) => Err(e),
                Ok(_) => {
                    if !is_valid_semver_identifier(pre) {
                        Err(text2("Invalid prerelease: ", pre))
                    } else {
                        Ok(())
                    }
                },
            }
        },
        None => validate_semver_release(version),
    }
}

/// Validates a version of the semantic-version grammar.
pub fn validate_javascript(version: &str) -> (r: Result<(), String>)
    ensures
        unit_outcome(r) == javascript_verdict(version@),
{
    if version.is_empty() {
        return Err(String::from_str("Version string cannot be empty"));
    }
    let cs = chars_of(version);
    let s = cs.as_slice();
    match find_str(s, "+") {
        Some(p) => {
            let build = tail_after(s, p, "+");
            if !is_valid_semver_identifier(build) {
                return Err(text2("Invalid build metadata: ", build));
            }
            validate_semver_core(head(s, p))
        },
        None => validate_semver_core(s),
    }
}

/// Validates a version against the grammar that `kind` names.
pub fn validate_version(version: &str, kind: FileKind) -> (r: Result<(), String>)
    ensures
        unit_outcome(r) == verdict(version@, kind),
{
    match kind {
        FileKind::Any => Ok(()),
        FileKind::Simple => validate_simple(version),
        FileKind::Python => validate_python(version),
        FileKind::Semver => validate_javascript(version),
    }
}

} // verus!
