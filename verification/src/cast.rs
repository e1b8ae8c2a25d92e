//! The caster: writes a version in the closest form that another grammar
//! has, dropping what that grammar cannot say.

use crate::bump::{bare, before_marked, strip_epoch_and_local, stripped};
use crate::number::{parse_number, parse_u32};
use crate::schema::FileKind;
use crate::text::{
    count_digits, digit_run, find_str, has_prefix, head, lowercase, lowered, piece_views,
    position, push_chars, split, split_at, starts_with, tail, tail_after, text_outcome,
};
use crate::version::{
    earlier, earliest, earliest_prerelease_marker, first_prerelease_marker, marker_at, marker_in,
};
use vstd::prelude::*;

verus! {

/// Where the release of a version ends: at the earliest marker that stands
/// at a boundary, among the pre-release markers, `.post` and `.dev`, `post`
/// and `dev` written without their dot, and the hyphen; at the end of the
/// text where there is none.
pub open spec fn release_end(s: Seq<char>) -> int {
    match earliest(
        earliest(
            earliest(
                earliest(
                    earliest(earliest_prerelease_marker(s), marker_at(s, ".post"@)),
                    marker_at(s, ".dev"@),
                ),
                marker_at(s, "post"@),
            ),
            marker_at(s, "dev"@),
        ),
        marker_at(s, "-"@),
    ) {
        Some(p) => p,
        None => s.len() as int,
    }
}

/// Every piece is a number.
pub open spec fn all_numbers(parts: Seq<Seq<char>>) -> bool {
    forall|k: int| 0 <= k < parts.len() ==> parse_u32(#[trigger] parts[k]) is Some
}

/// `k` is the position of the first piece that is not a number.
pub open spec fn is_first_bad(parts: Seq<Seq<char>>, k: int) -> bool {
    &&& 0 <= k < parts.len()
    &&& parse_u32(parts[k]) is None
    &&& forall|j: int| 0 <= j < k ==> parse_u32(#[trigger] parts[j]) is Some
}

/// The first piece that is not a number, where there is one.
pub open spec fn first_bad(parts: Seq<Seq<char>>) -> Seq<char> {
    parts[choose|k: int| is_first_bad(parts, k)]
}

/// The piece at position `i` as it is written; `0` for one that is missing.
pub open spec fn component_text(parts: Seq<Seq<char>>, i: int) -> Seq<char> {
    if i < parts.len() {
        parts[i]
    } else {
        "0"@
    }
}

/// The first three pieces with dots between, zeros standing for missing
/// ones. Pieces are kept as they are written, leading zeros included.
pub open spec fn padded(parts: Seq<Seq<char>>) -> Seq<char> {
    component_text(parts, 0).push('.') + component_text(parts, 1).push('.') + component_text(
        parts,
        2,
    )
}

/// The release pieces of a version: the lowered text without epoch and
/// local segment, up to where its release ends, split at dots.
pub open spec fn release_parts(v: Seq<char>) -> Seq<Seq<char>> {
    split(bare(v).take(release_end(bare(v))), '.')
}

/// What casting a lowered text to the three-component grammar gives: the
/// release padded or cut to three pieces, provided that every piece of it
/// is a number. The release is what the text, without epoch and local
/// segment, holds up to its first suffix.
pub open spec fn lowered_simple_cast(low: Seq<char>) -> Result<Seq<char>, Seq<char>> {
    let s = stripped(low);
    let parts = split(s.take(release_end(s)), '.');
    if all_numbers(parts) {
        Ok(padded(parts))
    } else {
        Err("Cannot cast '"@ + s + "' to simple version: invalid part '"@ + first_bad(parts) + "'"@)
    }
}

/// What casting to the three-component grammar gives, in whatever case the
/// version is written.
pub open spec fn simple_cast(v: Seq<char>) -> Result<Seq<char>, Seq<char>> {
    lowered_simple_cast(lowered(v))
}

/// The leading digits of `s` as they are written; `0` where there are none.
pub open spec fn digits_or_zero(s: Seq<char>) -> Seq<char> {
    if digit_run(s) == 0 {
        "0"@
    } else {
        s.take(digit_run(s) as int)
    }
}

/// The hyphenated pre-release that a suffix without post- and dev-release
/// stands for; empty where it starts with no pre-release spelling.
pub open spec fn hyphenated(t: Seq<char>) -> Seq<char> {
    if starts_with(t, "alpha"@) {
        "-alpha."@ + digits_or_zero(t.skip("alpha"@.len() as int))
    } else if starts_with(t, "a"@) {
        "-alpha."@ + digits_or_zero(t.skip("a"@.len() as int))
    } else if starts_with(t, "beta"@) {
        "-beta."@ + digits_or_zero(t.skip("beta"@.len() as int))
    } else if starts_with(t, "b"@) {
        "-beta."@ + digits_or_zero(t.skip("b"@.len() as int))
    } else if starts_with(t, "rc"@) {
        "-rc."@ + digits_or_zero(t.skip("rc"@.len() as int))
    } else if starts_with(t, "c"@) {
        "-rc."@ + digits_or_zero(t.skip("c"@.len() as int))
    } else if starts_with(t, "preview"@) {
        "-rc."@ + digits_or_zero(t.skip("preview"@.len() as int))
    } else {
        Seq::<char>::empty()
    }
}

/// The pre-release of a semantic version that a suffix stands for. The
/// dev-release and then the post-release are cut off first, each where it
/// is first written with its dot, else without.
pub open spec fn semver_suffix(suffix: Seq<char>) -> Seq<char> {
    hyphenated(before_marked(before_marked(suffix, ".dev"@, "dev"@), ".post"@, "post"@))
}

/// What casting a lowered text to the semantic-version grammar gives: the
/// release padded or cut to three pieces, then the pre-release in
/// hyphenated form.
pub open spec fn lowered_semver_cast(low: Seq<char>) -> Result<Seq<char>, Seq<char>> {
    let s = stripped(low);
    let parts = split(s.take(release_end(s)), '.');
    if all_numbers(parts) {
        Ok(padded(parts) + semver_suffix(s.skip(release_end(s))))
    } else {
        Err("Cannot cast '"@ + s + "' to semver: invalid part '"@ + first_bad(parts) + "'"@)
    }
}

/// What casting to the semantic-version grammar gives, in whatever case
/// the version is written.
pub open spec fn semver_cast(v: Seq<char>) -> Result<Seq<char>, Seq<char>> {
    lowered_semver_cast(lowered(v))
}

/// What casting to the grammar that `kind` names gives. Casting to the
/// extended grammar, or to none, hands the text back as it is.
pub open spec fn casted(v: Seq<char>, kind: FileKind) -> Result<Seq<char>, Seq<char>> {
    match kind {
        FileKind::Any => Ok(v),
        FileKind::Simple => simple_cast(v),
        FileKind::Python => Ok(v),
        FileKind::Semver => semver_cast(v),
    }
}

/// Two first bad pieces are one and the same.
proof fn lemma_first_bad(parts: Seq<Seq<char>>, k: int)
    requires
        is_first_bad(parts, k),
    ensures
        first_bad(parts) == parts[k],
        !all_numbers(parts),
{
    let c = choose|c: int| is_first_bad(parts, c);
    if c < k {
        assert(parse_u32(parts[c]) is Some);
    } else if k < c {
        assert(parse_u32(parts[k]) is Some);
    }
}

/// Finds where the release of a version ends.
pub fn find_release_end(version: &[char]) -> (r: usize)
    ensures
        r == release_end(version@),
        r <= version@.len(),
{
    let mut best = first_prerelease_marker(version);
    best = earlier(best, marker_in(version, ".post"));
    best = earlier(best, marker_in(version, ".dev"));
    best = earlier(best, marker_in(version, "post"));
    best = earlier(best, marker_in(version, "dev"));
    best = earlier(best, marker_in(version, "-"));
    match best {
        Some(p) => p,
        None => version.len(),
    }
}

/// Finds the first piece that is not a number.
fn find_bad(parts: &Vec<&[char]>) -> (r: Option<usize>)
    ensures
        match r {
            Some(k) => is_first_bad(piece_views(parts@), k as int),
            None => all_numbers(piece_views(parts@)),
        },
{
    let mut k: usize = 0;
    while k < parts.len()
        invariant
            k <= parts.len(),
            forall|j: int| 0 <= j < k ==> parse_u32(#[trigger] piece_views(parts@)[j]) is Some,
        decreases parts.len() - k,
    {
        if parse_number(parts[k]).is_none() {
            return Some(k);
        }
        k += 1;
    }
    None
}

/// Appends the piece at position `i`, or a zero where it is missing.
fn push_component(out: &mut String, parts: &Vec<&[char]>, i: usize)
    ensures
        final(out)@ == old(out)@ + component_text(piece_views(parts@), i as int),
{
    if i < parts.len() {
        push_chars(out, parts[i]);
    } else {
        out.append("0");
    }
}

/// Writes the first three pieces with dots between.
fn write_padded(parts: &Vec<&[char]>) -> (out: String)
    ensures
        out@ == padded(piece_views(parts@)),
{
    let mut out = String::new();
    push_component(&mut out, parts, 0);
    out.push('.');
    push_component(&mut out, parts, 1);
    out.push('.');
    push_component(&mut out, parts, 2);
    assert(out@ =~= padded(piece_views(parts@)));
    out
}

/// The reason given for a release piece that is not a number.
fn invalid_part(version: &[char], target: &str, part: &[char]) -> (out: String)
    ensures
        out@ == "Cannot cast '"@ + version@ + target@ + part@ + "'"@,
{
    let mut out = String::from_str("Cannot cast '");
    push_chars(&mut out, version);
    out.append(target);
    push_chars(&mut out, part);
    out.append("'");
    out
}

/// Casts a version to three numeric components. Epoch, local segment and
/// every suffix are dropped; missing components become zero.
pub fn cast_to_simple(version: &str) -> (r: Result<String, String>)
    ensures
        text_outcome(r) == simple_cast(version@),
{
    let low = lowercase(version);
    cast_lowered_to_simple(low.as_slice())
}

/// Casts a lowered version to three numeric components.
pub fn cast_lowered_to_simple(lowered: &[char]) -> (r: Result<String, String>)
    ensures
        text_outcome(r) == lowered_simple_cast(lowered@),
{
    let s = strip_epoch_and_local(lowered);
    let end = find_release_end(s);
    let parts = split_at(head(s, end), '.');
    match find_bad(&parts) {
        Some(k) => {
            proof {
                lemma_first_bad(piece_views(parts@), k as int);
            }
            Err(invalid_part(s, "' to simple version: invalid part '", parts[k]))
        },
        None => Ok(write_padded(&parts)),
    }
}

/// Casts a version to the extended grammar: the text is handed back as it
/// is, and whether it conforms is left to the validator.
pub fn cast_to_python(version: &str) -> (r: Result<String, String>)
    ensures
        text_outcome(r) == Ok::<Seq<char>, Seq<char>>(version@),
{
    Ok(String::from_str(version))
}

/// `s` up to its post- or dev-release marker.
fn cut_before<'a>(s: &'a [char], dotted: &str, plain: &str) -> (r: &'a [char])
    ensures
        r@ == before_marked(s@, dotted@, plain@),
{
    match find_str(s, dotted) {
        Some(p) => head(s, p),
        None => match find_str(s, plain) {
            Some(p) => head(s, p),
            None => s,
        },
    }
}

/// Appends the leading digits of `s`, or a zero where there are none.
fn push_digits_or_zero(out: &mut String, s: &[char])
    ensures
        final(out)@ == old(out)@ + digits_or_zero(s@),
{
    let n = count_digits(s);
    if n == 0 {
        out.append("0");
    } else {
        push_chars(out, head(s, n));
    }
}

/// Appends a hyphenated pre-release where `t` starts with `marker`.
fn push_hyphenated(out: &mut String, t: &[char], marker: &str, name: &str) -> (done: bool)
    ensures
        done == starts_with(t@, marker@),
        done ==> final(out)@ == old(out)@ + (name@ + digits_or_zero(
            t@.skip(marker@.len() as int),
        )),
        !done ==> final(out)@ == old(out)@,
{
    if has_prefix(t, marker) {
        out.append(name);
        push_digits_or_zero(out, tail_after(t, 0, marker));
        assert(out@ =~= old(out)@ + (name@ + digits_or_zero(t@.skip(marker@.len() as int))));
        true
    } else {
        false
    }
}

/// Appends the pre-release of a semantic version that `suffix` stands for.
fn push_semver_suffix(out: &mut String, suffix: &[char])
    ensures
        final(out)@ == old(out)@ + semver_suffix(suffix@),
{
    let t = cut_before(cut_before(suffix, ".dev", "dev"), ".post", "post");
    if push_hyphenated(out, t, "alpha", "-alpha.") {
    } else if push_hyphenated(out, t, "a", "-alpha.") {
    } else if push_hyphenated(out, t, "beta", "-beta.") {
    } else if push_hyphenated(out, t, "b", "-beta.") {
    } else if push_hyphenated(out, t, "rc", "-rc.") {
    } else if push_hyphenated(out, t, "c", "-rc.") {
    } else if push_hyphenated(out, t, "preview", "-rc.") {
    } else {
        assert(out@ =~= old(out)@ + semver_suffix(suffix@));
    }
}

/// Casts a version to the semantic-version grammar. Epoch, local segment,
/// post- and dev-release are dropped; a pre-release is written in
/// hyphenated form; any other suffix is dropped.
pub fn cast_to_semver(version: &str) -> (r: Result<String, String>)
    ensures
        text_outcome(r) == semver_cast(version@),
{
    let low = lowercase(version);
    cast_lowered_to_semver(low.as_slice())
}

/// Casts a lowered version to the semantic-version grammar.
pub fn cast_lowered_to_semver(lowered: &[char]) -> (r: Result<String, String>)
    ensures
        text_outcome(r) == lowered_semver_cast(lowered@),
{
    let s = strip_epoch_and_local(lowered);
    let end = find_release_end(s);
    let parts = split_at(head(s, end), '.');
    match find_bad(&parts) {
        Some(k) => {
            proof {
                lemma_first_bad(piece_views(parts@), k as int);
            }
            Err(invalid_part(s, "' to semver: invalid part '", parts[k]))
        },
        None => {
            let mut out = write_padded(&parts);
            push_semver_suffix(&mut out, tail(s, end));
            Ok(out)
        },
    }
}

/// Casts a version to the grammar that `target_kind` names, losing what
/// that grammar cannot say.
pub fn cast_version(version: &str, target_kind: FileKind) -> (r: Result<String, String>)
    ensures
        text_outcome(r) == casted(version@, target_kind),
{
    match target_kind {
        FileKind::Any => Ok(String::from_str(version)),
        FileKind::Simple => cast_to_simple(version),
        FileKind::Python => cast_to_python(version),
        FileKind::Semver => cast_to_semver(version),
    }
}

} // verus!
