//! The decomposer and the bumper: a version string is taken apart into
//! numbers, and the next version is computed from them and written in the
//! canonical extended form.

use crate::number::{
    decimal, number_or_zero, parse_number, parse_number_or_zero, parse_u32, push_decimal,
};
use crate::text::{
    chars_of, count_digits, count_dots, digit_run, dot_run, find, find_str, has_prefix, head,
    is_text, lowercase, lowered, piece_views, split, split_at, starts_with, tail, tail_after,
    text2, text3, text_outcome,
};
use crate::cast::{cast_version, casted};
use crate::schema::{FileKind, OnInvalidVersion};
use crate::version::{marker_at, marker_in, validate_version, verdict};
use vstd::prelude::*;

verus! {

/// The three kinds of pre-release, however they were spelled.
#[derive(Debug, Clone, Copy, PartialEq, Eq, Structural)]
pub enum PrereleaseKind {
    Alpha,
    Beta,
    Rc,
}

impl PrereleaseKind {
    /// The canonical name of the kind.
    pub open spec fn spec_name(self) -> Seq<char> {
        match self {
            PrereleaseKind::Alpha => "alpha"@,
            PrereleaseKind::Beta => "beta"@,
            PrereleaseKind::Rc => "rc"@,
        }
    }

    /// The letters that stand for the kind in a canonical version.
    pub open spec fn spec_prefix(self) -> Seq<char> {
        match self {
            PrereleaseKind::Alpha => "a"@,
            PrereleaseKind::Beta => "b"@,
            PrereleaseKind::Rc => "rc"@,
        }
    }

    /// The canonical name of the kind: `alpha`, `beta` or `rc`.
    pub fn name(self) -> (r: &'static str)
        ensures
            r@ == self.spec_name(),
    {
        match self {
            PrereleaseKind::Alpha => "alpha",
            PrereleaseKind::Beta => "beta",
            PrereleaseKind::Rc => "rc",
        }
    }
}

/// The letters that stand for a pre-release kind in a canonical version.
pub fn prerelease_prefix(kind: PrereleaseKind) -> (r: &'static str)
    ensures
        r@ == kind.spec_prefix(),
{
    match kind {
        PrereleaseKind::Alpha => "a",
        PrereleaseKind::Beta => "b",
        PrereleaseKind::Rc => "rc",
    }
}

/// A version taken apart. Epoch and local segment are not kept, and of the
/// release only its first three components.
#[derive(Debug, Clone, Copy, PartialEq, Eq)]
pub struct ParsedVersion {
    pub major: u32,
    pub minor: u32,
    pub patch: u32,
    pub prerelease: Option<(PrereleaseKind, u32)>,
    pub post: Option<u32>,
    pub dev: Option<u32>,
}

/// `s` without what stands before its first `!`, and without the `!`.
pub open spec fn without_epoch(s: Seq<char>) -> Seq<char> {
    match find(s, "!"@) {
        Some(p) => s.skip(p + "!"@.len()),
        None => s,
    }
}

/// `s` without its first `+` and what follows it.
pub open spec fn without_local(s: Seq<char>) -> Seq<char> {
    match find(s, "+"@) {
        Some(p) => s.take(p),
        None => s,
    }
}

/// `s` without epoch and local segment.
pub open spec fn stripped(s: Seq<char>) -> Seq<char> {
    without_local(without_epoch(s))
}

/// The lowered text without epoch and local segment.
pub open spec fn bare(v: Seq<char>) -> Seq<char> {
    stripped(lowered(v))
}

/// Where a post- or dev-release marker starts and how long it is: the first
/// occurrence of the spelling with a dot, else that of the spelling without.
pub open spec fn marked_cut(s: Seq<char>, dotted: Seq<char>, plain: Seq<char>) -> Option<
    (int, int),
> {
    match find(s, dotted) {
        Some(p) => Some((p, dotted.len() as int)),
        None => match find(s, plain) {
            Some(p) => Some((p, plain.len() as int)),
            None => None,
        },
    }
}

/// The number of a post- or dev-release: all that follows the marker, read
/// as a number, or zero where that is no number.
pub open spec fn marked_number(s: Seq<char>, dotted: Seq<char>, plain: Seq<char>) -> Option<u32> {
    match marked_cut(s, dotted, plain) {
        Some((p, n)) => Some(number_or_zero(s.skip(p + n))),
        None => None,
    }
}

/// `s` up to its post- or dev-release marker.
pub open spec fn before_marked(s: Seq<char>, dotted: Seq<char>, plain: Seq<char>) -> Seq<char> {
    match marked_cut(s, dotted, plain) {
        Some((p, n)) => s.take(p),
        None => s,
    }
}

/// The pre-release marker that counts: the first, in the order `alpha`,
/// `beta`, `preview`, `rc`, `a`, `b`, `c`, whose first occurrence stands at a
/// boundary. The result is its position, its kind and its length.
pub open spec fn prerelease_cut(s: Seq<char>) -> Option<(int, PrereleaseKind, int)> {
    if marker_at(s, "alpha"@) is Some {
        Some((marker_at(s, "alpha"@)->0, PrereleaseKind::Alpha, "alpha"@.len() as int))
    } else if marker_at(s, "beta"@) is Some {
        Some((marker_at(s, "beta"@)->0, PrereleaseKind::Beta, "beta"@.len() as int))
    } else if marker_at(s, "preview"@) is Some {
        Some((marker_at(s, "preview"@)->0, PrereleaseKind::Rc, "preview"@.len() as int))
    } else if marker_at(s, "rc"@) is Some {
        Some((marker_at(s, "rc"@)->0, PrereleaseKind::Rc, "rc"@.len() as int))
    } else if marker_at(s, "a"@) is Some {
        Some((marker_at(s, "a"@)->0, PrereleaseKind::Alpha, "a"@.len() as int))
    } else if marker_at(s, "b"@) is Some {
        Some((marker_at(s, "b"@)->0, PrereleaseKind::Beta, "b"@.len() as int))
    } else if marker_at(s, "c"@) is Some {
        Some((marker_at(s, "c"@)->0, PrereleaseKind::Rc, "c"@.len() as int))
    } else {
        None
    }
}

/// The number that the leading digits of `s` spell, or zero.
pub open spec fn leading_number(s: Seq<char>) -> u32 {
    number_or_zero(s.take(digit_run(s) as int))
}

/// The number that `s` spells after its leading dots, or zero.
pub open spec fn dotted_number(s: Seq<char>) -> u32 {
    number_or_zero(s.skip(dot_run(s) as int))
}

/// The pre-release written after a hyphen: `alpha`, `beta` or `rc`, then
/// dots, then the number.
pub open spec fn hyphen_prerelease(t: Seq<char>) -> Option<(PrereleaseKind, u32)> {
    if starts_with(t, "alpha"@) {
        Some((PrereleaseKind::Alpha, dotted_number(t.skip("alpha"@.len() as int))))
    } else if starts_with(t, "beta"@) {
        Some((PrereleaseKind::Beta, dotted_number(t.skip("beta"@.len() as int))))
    } else if starts_with(t, "rc"@) {
        Some((PrereleaseKind::Rc, dotted_number(t.skip("rc"@.len() as int))))
    } else {
        None
    }
}

/// The pre-release of a text that has lost its dev- and post-release. The
/// hyphenated spelling is looked for only where no marker counted.
pub open spec fn prerelease_of(s: Seq<char>) -> Option<(PrereleaseKind, u32)> {
    match prerelease_cut(s) {
        Some((p, kind, n)) => Some((kind, leading_number(s.skip(p + n)))),
        None => match find(s, "-"@) {
            Some(p) => hyphen_prerelease(s.skip(p + "-"@.len())),
            None => None,
        },
    }
}

/// The release of a text that has lost its dev- and post-release: what
/// stands before the pre-release marker, else before the first hyphen.
pub open spec fn release_of(s: Seq<char>) -> Seq<char> {
    match prerelease_cut(s) {
        Some((p, kind, n)) => s.take(p),
        None => match find(s, "-"@) {
            Some(p) => s.take(p),
            None => s,
        },
    }
}

/// The number of the release component at position `i`; a component that
/// is not written counts as zero.
pub open spec fn component_number(parts: Seq<Seq<char>>, i: int) -> Option<u32> {
    if i < parts.len() {
        parse_u32(parts[i])
    } else {
        Some(0u32)
    }
}

/// The decomposition of a lowered version string, or the reason why it has
/// none.
///
/// Epoch and local segment are dropped; the dev-release is cut off first,
/// then the post-release, then the pre-release; what is left is the
/// release, whose first three components are read as numbers.
pub open spec fn decomposed(low: Seq<char>) -> Result<ParsedVersion, Seq<char>> {
    let s0 = stripped(low);
    let s1 = before_marked(s0, ".dev"@, "dev"@);
    let s2 = before_marked(s1, ".post"@, "post"@);
    let parts = split(release_of(s2), '.');
    if component_number(parts, 0) is None {
        Err("Invalid major version: "@ + parts[0])
    } else if component_number(parts, 1) is None {
        Err("Invalid minor version: "@ + parts[1])
    } else if component_number(parts, 2) is None {
        Err("Invalid patch version: "@ + parts[2])
    } else {
        Ok(
            ParsedVersion {
                major: component_number(parts, 0)->0,
                minor: component_number(parts, 1)->0,
                patch: component_number(parts, 2)->0,
                prerelease: prerelease_of(s2),
                post: marked_number(s1, ".post"@, "post"@),
                dev: marked_number(s0, ".dev"@, "dev"@),
            },
        )
    }
}

/// The decomposition of a version string, in whatever case it is written,
/// or the reason why it has none.
pub open spec fn parsed(v: Seq<char>) -> Result<ParsedVersion, Seq<char>> {
    decomposed(lowered(v))
}

/// The outcome of a decomposition as plain values.
pub open spec fn parse_outcome(r: Result<ParsedVersion, String>) -> Result<
    ParsedVersion,
    Seq<char>,
> {
    match r {
        Ok(p) => Ok(p),
        Err(e) => Err(e@),
    }
}

/// Drops the epoch and the local segment of a lowered text.
pub fn strip_epoch_and_local<'a>(s: &'a [char]) -> (r: &'a [char])
    ensures
        r@ == stripped(s@),
{
    let s = match find_str(s, "!") {
        Some(p) => tail_after(s, p, "!"),
        None => s,
    };
    match find_str(s, "+") {
        Some(p) => head(s, p),
        None => s,
    }
}

/// Cuts a post- or dev-release off the end of `s`.
fn cut_marked<'a>(s: &'a [char], dotted: &str, plain: &str) -> (r: (&'a [char], Option<u32>))
    ensures
        r.0@ == before_marked(s@, dotted@, plain@),
        r.1 == marked_number(s@, dotted@, plain@),
{
    match find_str(s, dotted) {
        Some(p) => (head(s, p), Some(parse_number_or_zero(tail_after(s, p, dotted)))),
        None => match find_str(s, plain) {
            Some(p) => (head(s, p), Some(parse_number_or_zero(tail_after(s, p, plain)))),
            None => (s, None),
        },
    }
}

/// The number that the leading digits of `s` spell, or zero.
fn read_leading_number(s: &[char]) -> (n: u32)
    ensures
        n == leading_number(s@),
{
    let k = count_digits(s);
    parse_number_or_zero(head(s, k))
}

/// The number that `s` spells after its leading dots, or zero.
fn read_dotted_number(s: &[char]) -> (n: u32)
    ensures
        n == dotted_number(s@),
{
    let k = count_dots(s);
    parse_number_or_zero(tail(s, k))
}

/// Tries one pre-release marker.
fn try_marker<'a>(s: &'a [char], marker: &str) -> (r: Option<(&'a [char], u32)>)
    ensures
        match r {
            Some((release, n)) => {
                &&& marker_at(s@, marker@) is Some
                &&& release@ == s@.take(marker_at(s@, marker@)->0)
                &&& n == leading_number(s@.skip(marker_at(s@, marker@)->0 + marker@.len()))
            },
            None => marker_at(s@, marker@) is None,
        },
{
    match marker_in(s, marker) {
        Some(p) => Some((head(s, p), read_leading_number(tail_after(s, p, marker)))),
        None => None,
    }
}

/// Reads a pre-release written after a hyphen.
fn read_hyphen_prerelease(t: &[char]) -> (r: Option<(PrereleaseKind, u32)>)
    ensures
        r == hyphen_prerelease(t@),
{
    if has_prefix(t, "alpha") {
        Some((PrereleaseKind::Alpha, read_dotted_number(tail_after(t, 0, "alpha"))))
    } else if has_prefix(t, "beta") {
        Some((PrereleaseKind::Beta, read_dotted_number(tail_after(t, 0, "beta"))))
    } else if has_prefix(t, "rc") {
        Some((PrereleaseKind::Rc, read_dotted_number(tail_after(t, 0, "rc"))))
    } else {
        None
    }
}

/// Cuts the pre-release off a text that has lost its dev- and post-release.
fn cut_prerelease<'a>(s: &'a [char]) -> (r: (&'a [char], Option<(PrereleaseKind, u32)>))
    ensures
        r.0@ == release_of(s@),
        r.1 == prerelease_of(s@),
{
    if let Some((release, n)) = try_marker(s, "alpha") {
        (release, Some((PrereleaseKind::Alpha, n)))
    } else if let Some((release, n)) = try_marker(s, "beta") {
        (release, Some((PrereleaseKind::Beta, n)))
    } else if let Some((release, n)) = try_marker(s, "preview") {
        (release, Some((PrereleaseKind::Rc, n)))
    } else if let Some((release, n)) = try_marker(s, "rc") {
        (release, Some((PrereleaseKind::Rc, n)))
    } else if let Some((release, n)) = try_marker(s, "a") {
        (release, Some((PrereleaseKind::Alpha, n)))
    } else if let Some((release, n)) = try_marker(s, "b") {
        (release, Some((PrereleaseKind::Beta, n)))
    } else if let Some((release, n)) = try_marker(s, "c") {
        (release, Some((PrereleaseKind::Rc, n)))
    } else {
        match find_str(s, "-") {
            Some(p) => (head(s, p), read_hyphen_prerelease(tail_after(s, p, "-"))),
            None => (s, None),
        }
    }
}

/// Reads the release component at position `i`.
fn read_component(parts: &Vec<&[char]>, i: usize) -> (r: Option<u32>)
    ensures
        r == component_number(piece_views(parts@), i as int),
{
    if i < parts.len() {
        parse_number(parts[i])
    } else {
        Some(0)
    }
}

/// Takes a version string apart.
pub fn parse_version(version: &str) -> (r: Result<ParsedVersion, String>)
    ensures
        parse_outcome(r) == parsed(version@),
{
    let low = lowercase(version);
    decompose(low.as_slice())
}

/// Takes a lowered version string apart.
pub fn decompose(lowered: &[char]) -> (r: Result<ParsedVersion, String>)
    ensures
        parse_outcome(r) == decomposed(lowered@),
{
    let s0 = strip_epoch_and_local(lowered);
    let (s1, dev) = cut_marked(s0, ".dev", "dev");
    let (s2, post) = cut_marked(s1, ".post", "post");
    let (release, prerelease) = cut_prerelease(s2);
    let parts = split_at(release, '.');
    let major = match read_component(&parts, 0) {
        Some(n) => n,
        None => { return Err(text2("Invalid major version: ", parts[0])); },
    };
    let minor = match read_component(&parts, 1) {
        Some(n) => n,
        None => { return Err(text2("Invalid minor version: ", parts[1])); },
    };
    let patch = match read_component(&parts, 2) {
        Some(n) => n,
        None => { return Err(text2("Invalid patch version: ", parts[2])); },
    };
    Ok(ParsedVersion { major, minor, patch, prerelease, post, dev })
}

/// The canonical spelling of a release: three numbers with dots between.
pub open spec fn triple(major: nat, minor: nat, patch: nat) -> Seq<char> {
    decimal(major).push('.') + decimal(minor).push('.') + decimal(patch)
}

/// The canonical spelling of a pre-release, empty where there is none.
pub open spec fn prerelease_text(pre: Option<(PrereleaseKind, u32)>) -> Seq<char> {
    match pre {
        Some((kind, n)) => kind.spec_prefix() + decimal(n as nat),
        None => Seq::<char>::empty(),
    }
}

/// The canonical spelling of a post-release, empty where there is none.
pub open spec fn post_text(post: Option<u32>) -> Seq<char> {
    match post {
        Some(n) => ".post"@ + decimal(n as nat),
        None => Seq::<char>::empty(),
    }
}

/// The canonical spelling of a dev-release, empty where there is none.
pub open spec fn dev_text(dev: Option<u32>) -> Seq<char> {
    match dev {
        Some(n) => ".dev"@ + decimal(n as nat),
        None => Seq::<char>::empty(),
    }
}

/// The canonical spelling of a version: `major.minor.patch`, then the
/// pre-release as `a`, `b` or `rc` and its number, then `.post` and its
/// number, then `.dev` and its number, each only where it is present.
pub open spec fn canonical(p: ParsedVersion) -> Seq<char> {
    triple(p.major as nat, p.minor as nat, p.patch as nat) + prerelease_text(p.prerelease)
        + post_text(p.post) + dev_text(p.dev)
}

/// The pre-release kind that a keyword asks for.
pub open spec fn requested_kind(component: Seq<char>) -> Option<PrereleaseKind> {
    if component == "alpha"@ {
        Some(PrereleaseKind::Alpha)
    } else if component == "beta"@ {
        Some(PrereleaseKind::Beta)
    } else if component == "rc"@ {
        Some(PrereleaseKind::Rc)
    } else {
        None
    }
}

/// `word` is one of the nine keywords that name what to bump.
pub open spec fn is_keyword(word: Seq<char>) -> bool {
    word == "major"@ || word == "minor"@ || word == "patch"@ || word == "alpha"@ || word
        == "beta"@ || word == "rc"@ || word == "post"@ || word == "dev"@ || word == "release"@
}

/// The counter after `current`: one where there was none. There is no next
/// counter after the largest 32-bit number.
pub open spec fn next_counter(current: Option<u32>) -> Option<u32> {
    match current {
        Some(n) => if n == u32::MAX {
            None
        } else {
            Some((n + 1) as u32)
        },
        None => Some(1u32),
    }
}

/// The counter of the pre-release in `pre` if it is of `kind`.
pub open spec fn counter_of(pre: Option<(PrereleaseKind, u32)>, kind: PrereleaseKind) -> Option<
    u32,
> {
    match pre {
        Some((k, n)) => if k == kind {
            Some(n)
        } else {
            None
        },
        None => None,
    }
}

/// The reason given where a number cannot grow any more.
pub open spec fn too_large(component: Seq<char>) -> Seq<char> {
    "Cannot bump "@ + component + ": the number is too large"@
}

/// The reason given for a word that is no keyword.
pub open spec fn unknown_component(component: Seq<char>) -> Seq<char> {
    "Invalid component: "@ + component
        + ". Use major, minor, patch, release, alpha, beta, rc, post, or dev"@
}

/// The release of `p` without any suffix.
pub open spec fn released(p: ParsedVersion) -> ParsedVersion {
    ParsedVersion { prerelease: None, post: None, dev: None, ..p }
}

/// `p` has a pre-, post- or dev-release.
pub open spec fn has_suffix(p: ParsedVersion) -> bool {
    p.prerelease is Some || p.post is Some || p.dev is Some
}

/// The version that `make` builds from the next counter after `current`;
/// the reason `too_large` where there is no next counter.
pub open spec fn counted(
    current: Option<u32>,
    component: Seq<char>,
    make: spec_fn(u32) -> ParsedVersion,
) -> Result<ParsedVersion, Seq<char>> {
    match next_counter(current) {
        Some(n) => Ok(make(n)),
        None => Err(too_large(component)),
    }
}

/// The parts of the next version after `p` for a keyword.
///
/// `major` and `minor` count up, reset what follows and drop every suffix;
/// `patch` counts up unless a pre-, post- or dev-release is present, which
/// it drops instead; `release` drops every suffix; `alpha`, `beta` and `rc`
/// count the pre-release up where it is of that kind and start it at one
/// otherwise, and keep post- and dev-release as they are; `post` counts the
/// post-release up, keeps the pre-release and drops the dev-release; `dev`
/// counts the dev-release up and keeps pre- and post-release. A number that
/// is already the largest 32-bit number cannot be counted up.
pub open spec fn next_parts(p: ParsedVersion, component: Seq<char>) -> Result<
    ParsedVersion,
    Seq<char>,
> {
    if component == "major"@ {
        counted(
            Some(p.major),
            component,
            |n: u32| ParsedVersion { major: n, minor: 0, patch: 0, ..released(p) },
        )
    } else if component == "minor"@ {
        counted(
            Some(p.minor),
            component,
            |n: u32| ParsedVersion { minor: n, patch: 0, ..released(p) },
        )
    } else if component == "patch"@ {
        if has_suffix(p) {
            Ok(released(p))
        } else {
            counted(Some(p.patch), component, |n: u32| ParsedVersion { patch: n, ..released(p) })
        }
    } else if component == "release"@ {
        Ok(released(p))
    } else if requested_kind(component) is Some {
        let kind = requested_kind(component)->0;
        counted(
            counter_of(p.prerelease, kind),
            component,
            |n: u32| ParsedVersion { prerelease: Some((kind, n)), ..p },
        )
    } else if component == "post"@ {
        counted(p.post, component, |n: u32| ParsedVersion { post: Some(n), dev: None, ..p })
    } else if component == "dev"@ {
        counted(p.dev, component, |n: u32| ParsedVersion { dev: Some(n), ..p })
    } else {
        Err(unknown_component(component))
    }
}

/// The next version after `p` for a keyword, in its canonical spelling.
pub open spec fn bumped(p: ParsedVersion, component: Seq<char>) -> Result<Seq<char>, Seq<char>> {
    match next_parts(p, component) {
        Ok(q) => Ok(canonical(q)),
        Err(e) => Err(e),
    }
}

/// The next version after the one that `current` spells, for a keyword.
/// A text that cannot be taken apart fails with the decomposer's reason,
/// whatever the keyword.
pub open spec fn computed(current: Seq<char>, component: Seq<char>) -> Result<
    Seq<char>,
    Seq<char>,
> {
    match parsed(current) {
        Ok(p) => bumped(p, component),
        Err(e) => Err(e),
    }
}

/// The version that a bump target stands for: the target itself where it is
/// no keyword, else the next version for that keyword.
pub open spec fn target_text(current: Seq<char>, target: Seq<char>) -> Result<
    Seq<char>,
    Seq<char>,
> {
    if is_keyword(target) {
        computed(current, target)
    } else {
        Ok(target)
    }
}

/// Tells whether a bump target is a version of its own rather than one of
/// the nine keywords.
pub fn is_version_string(s: &str) -> (r: bool)
    ensures
        r == !is_keyword(s@),
{
    let cs = chars_of(s);
    let w = cs.as_slice();
    !(is_text(w, "major") || is_text(w, "minor") || is_text(w, "patch") || is_text(w, "alpha")
        || is_text(w, "beta") || is_text(w, "rc") || is_text(w, "post") || is_text(w, "dev")
        || is_text(w, "release"))
}

/// The counter after `current`.
fn count_up(current: Option<u32>, component: &[char]) -> (r: Result<u32, String>)
    ensures
        match r {
            Ok(n) => next_counter(current) == Some(n),
            Err(e) => next_counter(current) is None && e@ == too_large(component@),
        },
{
    match current {
        Some(n) => if n == 0xffff_ffff {
            Err(text3("Cannot bump ", component, ": the number is too large"))
        } else {
            Ok(n + 1)
        },
        None => Ok(1),
    }
}

/// The counter of the pre-release in `pre` if it is of `kind`.
fn counter_if(pre: Option<(PrereleaseKind, u32)>, kind: PrereleaseKind) -> (r: Option<u32>)
    ensures
        r == counter_of(pre, kind),
{
    match pre {
        Some((k, n)) => if k == kind {
            Some(n)
        } else {
            None
        },
        None => None,
    }
}

/// The pre-release kind that a keyword asks for.
fn kind_for(component: &[char]) -> (r: Option<PrereleaseKind>)
    ensures
        r == requested_kind(component@),
{
    if is_text(component, "alpha") {
        Some(PrereleaseKind::Alpha)
    } else if is_text(component, "beta") {
        Some(PrereleaseKind::Beta)
    } else if is_text(component, "rc") {
        Some(PrereleaseKind::Rc)
    } else {
        None
    }
}

/// Computes the parts of the next version after `p` for a keyword.
pub fn next_version(p: &ParsedVersion, component: &str) -> (r: Result<ParsedVersion, String>)
    ensures
        parse_outcome(r) == next_parts(*p, component@),
{
    let cs = chars_of(component);
    let w = cs.as_slice();
    let plain = ParsedVersion {
        major: p.major,
        minor: p.minor,
        patch: p.patch,
        prerelease: None,
        post: None,
        dev: None,
    };
    if is_text(w, "major") {
        let n = count_up(Some(p.major), w)?;
        Ok(ParsedVersion { major: n, minor: 0, patch: 0, ..plain })
    } else if is_text(w, "minor") {
        let n = count_up(Some(p.minor), w)?;
        Ok(ParsedVersion { minor: n, patch: 0, ..plain })
    } else if is_text(w, "patch") {
        if p.prerelease.is_some() || p.post.is_some() || p.dev.is_some() {
            Ok(plain)
        } else {
            let n = count_up(Some(p.patch), w)?;
            Ok(ParsedVersion { patch: n, ..plain })
        }
    } else if is_text(w, "release") {
        Ok(plain)
    } else if let Some(kind) = kind_for(w) {
        let n = count_up(counter_if(p.prerelease, kind), w)?;
        Ok(ParsedVersion { prerelease: Some((kind, n)), ..*p })
    } else if is_text(w, "post") {
        let n = count_up(p.post, w)?;
        Ok(ParsedVersion { post: Some(n), dev: None, ..*p })
    } else if is_text(w, "dev") {
        let n = count_up(p.dev, w)?;
        Ok(ParsedVersion { dev: Some(n), ..*p })
    } else {
        Err(
            text3(
                "Invalid component: ",
                w,
                ". Use major, minor, patch, release, alpha, beta, rc, post, or dev",
            ),
        )
    }
}

/// Writes a version in its canonical spelling.
pub fn serialize(p: &ParsedVersion) -> (out: String)
    ensures
        out@ == canonical(*p),
{
    let mut out = String::new();
    push_decimal(&mut out, p.major);
    out.push('.');
    push_decimal(&mut out, p.minor);
    out.push('.');
    push_decimal(&mut out, p.patch);
    let ghost base = out@;
    assert(base =~= triple(p.major as nat, p.minor as nat, p.patch as nat));
    match p.prerelease {
        Some((kind, n)) => {
            out.append(prerelease_prefix(kind));
            push_decimal(&mut out, n);
        },
        None => {},
    }
    assert(out@ =~= base + prerelease_text(p.prerelease));
    match p.post {
        Some(n) => {
            out.append(".post");
            push_decimal(&mut out, n);
        },
        None => {},
    }
    assert(out@ =~= base + prerelease_text(p.prerelease) + post_text(p.post));
    match p.dev {
        Some(n) => {
            out.append(".dev");
            push_decimal(&mut out, n);
        },
        None => {},
    }
    assert(out@ =~= canonical(*p));
    out
}

/// Computes the next version after `p` for a keyword.
pub fn bump_parsed(p: &ParsedVersion, component: &str) -> (r: Result<String, String>)
    ensures
        text_outcome(r) == bumped(*p, component@),
{
    match next_version(p, component) {
        Ok(q) => Ok(serialize(&q)),
        Err(e) => Err(e),
    }
}

/// Computes the next version after `current` for a keyword.
pub fn compute_new_version(current: &str, component: &str) -> (r: Result<String, String>)
    ensures
        text_outcome(r) == computed(current@, component@),
{
    match parse_version(current) {
        Ok(p) => bump_parsed(&p, component),
        Err(e) => Err(e),
    }
}

/// The version that a bump leads to: `target` itself where it spells a
/// version, the next version after `current` where it is a keyword.
pub fn target_version(current: &str, target: &str) -> (r: Result<String, String>)
    ensures
        text_outcome(r) == target_text(current@, target@),
{
    if is_version_string(target) {
        Ok(String::from_str(target))
    } else {
        compute_new_version(current, target)
    }
}

/// A reason with the version, the file and the grammar that it is about.
pub open spec fn file_reason(
    opening: Seq<char>,
    version: Seq<char>,
    middle: Seq<char>,
    src: Seq<char>,
    kind: FileKind,
    reason: Seq<char>,
) -> Seq<char> {
    opening + version + middle + src + "' (kind: "@ + kind.spec_name() + "): "@ + reason
}

/// The version to write into a file of grammar `kind`.
///
/// A version that the grammar accepts is used as it is. One that it rejects
/// is an error under `OnInvalidVersion::Error`; under
/// `OnInvalidVersion::Cast` it is cast to the grammar, and the result is
/// used if the grammar accepts it.
pub open spec fn file_version(
    version: Seq<char>,
    kind: FileKind,
    on_invalid: OnInvalidVersion,
    src: Seq<char>,
) -> Result<Seq<char>, Seq<char>> {
    match verdict(version, kind) {
        Ok(_) => Ok(version),
        Err(reason) => match on_invalid {
            OnInvalidVersion::Error => Err(
                file_reason("Invalid version '"@, version, "' for file '"@, src, kind, reason),
            ),
            OnInvalidVersion::Cast => match casted(version, kind) {
                Err(reason) => Err(
                    file_reason(
                        "Cannot cast version '"@,
                        version,
                        "' for file '"@,
                        src,
                        kind,
                        reason,
                    ),
                ),
                Ok(cast) => match verdict(cast, kind) {
                    Err(reason) => Err(
                        file_reason(
                            "Casted version '"@,
                            cast,
                            "' is still invalid for file '"@,
                            src,
                            kind,
                            reason,
                        ),
                    ),
                    Ok(_) => Ok(cast),
                },
            },
        },
    }
}

/// Writes a reason with the version, the file and the grammar.
fn write_file_reason(
    opening: &str,
    version: &str,
    middle: &str,
    src: &str,
    kind: FileKind,
    reason: &String,
) -> (out: String)
    ensures
        out@ == file_reason(opening@, version@, middle@, src@, kind, reason@),
{
    let mut out = String::from_str(opening);
    out.append(version);
    out.append(middle);
    out.append(src);
    out.append("' (kind: ");
    out.append(kind.name());
    out.append("): ");
    out.append(reason.as_str());
    out
}

/// Picks the version to write into the file `src` of grammar `kind`.
pub fn get_file_version(
    version: &str,
    kind: FileKind,
    on_invalid: OnInvalidVersion,
    src: &str,
) -> (r: Result<String, String>)
    ensures
        text_outcome(r) == file_version(version@, kind, on_invalid, src@),
{
    match validate_version(version, kind) {
        Ok(_) => Ok(String::from_str(version)),
        Err(reason) => match on_invalid {
            OnInvalidVersion::Error => Err(
                write_file_reason("Invalid version '", version, "' for file '", src, kind, &reason),
            ),
            OnInvalidVersion::Cast => match cast_version(version, kind) {
                Err(reason) => Err(
                    write_file_reason(
                        "Cannot cast version '",
                        version,
                        "' for file '",
                        src,
                        kind,
                        &reason,
                    ),
                ),
                Ok(cast) => match validate_version(cast.as_str(), kind) {
                    Err(reason) => Err(
                        write_file_reason(
                            "Casted version '",
                            cast.as_str(),
                            "' is still invalid for file '",
                            src,
                            kind,
                            &reason,
                        ),
                    ),
                    Ok(_) => Ok(cast),
                },
            },
        },
    }
}

} // verus!
