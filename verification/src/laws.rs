//! Laws that relate the validator, the bumper and the caster to one
//! another, proved from their specifications.

use crate::bump::{
    bare, before_marked, canonical, component_number, computed, dev_text, file_version,
    marked_number, next_parts, parsed, post_text, prerelease_cut, prerelease_of,
    prerelease_text, release_of, stripped, triple, ParsedVersion, PrereleaseKind,
};
use crate::schema::{FileKind, OnInvalidVersion};
use crate::cast::{
    all_numbers, casted, component_text, digits_or_zero, hyphenated, lowered_semver_cast,
    lowered_simple_cast, padded, release_end, release_parts, semver_cast, semver_suffix,
    simple_cast,
};
use crate::number::{
    decimal, decimal_value, lemma_decimal_value, lemma_parse_decimal, parse_u32,
};
use crate::text::{
    all_digits, digit_run, find, free_of, is_alnum, is_digit, join, lemma_digit_run,
    lemma_digit_run_bounds, lemma_find_absent, lemma_find_first, lemma_find_sound,
    lemma_join_split, lemma_split_append, lemma_split_nonempty, lemma_split_single, lowered,
    occurs_at, split, starts_with,
};
use crate::version::{
    earliest, earliest_prerelease_marker, first_unreadable, javascript_verdict, main_verdict,
    marker_at, piece_in, python_verdict, semver_release_verdict, simple_verdict, skip_digits,
    strip_marked, strip_prerelease, suffix_leftover, suffix_start, valid_release, verdict,
    CharClass,
};
use vstd::prelude::*;

verus! {

/// `s` holds digits and dots only.
pub open spec fn plain(s: Seq<char>) -> bool {
    forall|i: int| 0 <= i < s.len() ==> is_digit(#[trigger] s[i]) || s[i] == '.'
}

/// A pattern with a character that the text lacks occurs nowhere in it.
proof fn lemma_absent(s: Seq<char>, pat: Seq<char>, k: int)
    requires
        0 <= k < pat.len(),
        forall|i: int| 0 <= i < s.len() ==> #[trigger] s[i] != pat[k],
    ensures
        find(s, pat) is None,
        marker_at(s, pat) is None,
{
    assert forall|j: int| !occurs_at(s, pat, j) by {
        if occurs_at(s, pat, j) {
            assert(s.subrange(j, j + pat.len())[k] == s[j + k]);
        }
    }
    lemma_find_absent(s, pat);
}

/// Text of digits and dots holds none of the characters that start an
/// epoch, a local segment or a suffix.
proof fn lemma_plain_finds(s: Seq<char>)
    requires
        plain(s),
    ensures
        find(s, "!"@) is None,
        find(s, "+"@) is None,
        find(s, "-"@) is None,
        find(s, ".dev"@) is None,
        find(s, "dev"@) is None,
        find(s, ".post"@) is None,
        find(s, "post"@) is None,
        marker_at(s, ".dev"@) is None,
        marker_at(s, ".post"@) is None,
        marker_at(s, "-"@) is None,
        earliest_prerelease_marker(s) is None,
        prerelease_cut(s) is None,
{
    reveal_strlit("!");
    reveal_strlit("+");
    reveal_strlit("-");
    reveal_strlit(".dev");
    reveal_strlit("dev");
    reveal_strlit(".post");
    reveal_strlit("post");
    reveal_strlit("alpha");
    reveal_strlit("beta");
    reveal_strlit("preview");
    reveal_strlit("rc");
    reveal_strlit("a");
    reveal_strlit("b");
    reveal_strlit("c");
    lemma_absent(s, "!"@, 0);
    lemma_absent(s, "+"@, 0);
    lemma_absent(s, "-"@, 0);
    lemma_absent(s, ".dev"@, 1);
    lemma_absent(s, "dev"@, 0);
    lemma_absent(s, ".post"@, 1);
    lemma_absent(s, "post"@, 0);
    lemma_absent(s, "alpha"@, 0);
    lemma_absent(s, "beta"@, 0);
    lemma_absent(s, "preview"@, 0);
    lemma_absent(s, "rc"@, 0);
    lemma_absent(s, "a"@, 0);
    lemma_absent(s, "b"@, 0);
    lemma_absent(s, "c"@, 0);
}

/// Text of digits and dots is its own lowered, epoch-free, local-free form,
/// and all of it is release.
proof fn lemma_plain_is_release(s: Seq<char>)
    requires
        plain(s),
    ensures
        lowered(s) == s,
        bare(s) == s,
        release_end(s) == s.len(),
        before_marked(s, ".dev"@, "dev"@) == s,
        before_marked(s, ".post"@, "post"@) == s,
        marked_number(s, ".dev"@, "dev"@) is None,
        marked_number(s, ".post"@, "post"@) is None,
        release_of(s) == s,
        prerelease_of(s) is None,
{
    assert(vstd::utf8::is_ascii_chars(s));
    assert(lowered(s) =~= s);
    lemma_plain_finds(s);
}

/// Three pieces without a dot, written with dots between, split into
/// themselves.
proof fn lemma_split_three(a: Seq<char>, b: Seq<char>, c: Seq<char>)
    requires
        free_of(a, '.'),
        free_of(b, '.'),
        free_of(c, '.'),
    ensures
        split(a.push('.') + b.push('.') + c, '.') == seq![a, b, c],
{
    lemma_split_single(a, '.');
    lemma_split_append(a, b, '.');
    lemma_split_append(a.push('.') + b, c, '.');
    assert((a.push('.') + b).push('.') + c =~= a.push('.') + b.push('.') + c);
    assert(seq![a].push(b).push(c) =~= seq![a, b, c]);
}

/// Text that lacks a character still lacks it when more such text follows.
proof fn lemma_free_concat(x: Seq<char>, y: Seq<char>, c: char)
    requires
        free_of(x, c),
        free_of(y, c),
    ensures
        free_of(x + y, c),
{
    assert forall|i: int| 0 <= i < (x + y).len() implies #[trigger] (x + y)[i] != c by {
        if i < x.len() {
            assert((x + y)[i] == x[i]);
        } else {
            assert((x + y)[i] == y[i - x.len()]);
        }
    }
}

/// A number is written with digits only.
proof fn lemma_decimal_free(n: nat, c: char)
    requires
        !is_digit(c),
    ensures
        free_of(decimal(n), c),
        decimal(n).len() > 0,
        all_digits(decimal(n)),
        digit_run(decimal(n)) == decimal(n).len(),
{
    lemma_decimal_value(n);
    lemma_digit_run(decimal(n), decimal(n).len() as int);
}

/// A pattern stands first where it is written after text that lacks one of
/// its characters, provided that this character does not stand earlier in
/// the pattern itself.
proof fn lemma_first_at(x: Seq<char>, pat: Seq<char>, y: Seq<char>, i: int)
    requires
        0 <= i < pat.len(),
        free_of(x, pat[i]),
        forall|m: int| 0 <= m < i ==> pat[m] != pat[i],
    ensures
        find(x + pat + y, pat) == Some(x.len() as int),
{
    let s = x + pat + y;
    let n = x.len() as int;
    assert(s.subrange(n, n + pat.len()) =~= pat);
    assert forall|j: int| 0 <= j < n implies !occurs_at(s, pat, j) by {
        if occurs_at(s, pat, j) {
            assert(s.subrange(j, j + pat.len())[i] == s[j + i]);
            if j + i < n {
                assert(s[j + i] == x[j + i]);
            } else {
                assert(s[j + i] == pat[j + i - n]);
            }
        }
    }
    lemma_find_first(s, pat, n);
}

/// The canonical spelling of a post- or dev-release, for its marker.
spec fn marked_text(dotted: Seq<char>, n: Option<u32>) -> Seq<char> {
    match n {
        Some(k) => dotted + decimal(k as nat),
        None => Seq::<char>::empty(),
    }
}

/// A post- or dev-release written in canonical form after text that lacks
/// the first letter of its marker is cut off as it was written.
proof fn lemma_cut_marked(x: Seq<char>, dotted: Seq<char>, bare_marker: Seq<char>, n: Option<u32>)
    requires
        dotted.len() >= 2,
        bare_marker.len() >= 1,
        dotted[0] == '.',
        dotted[1] == bare_marker[0],
        bare_marker[0] != '.',
        free_of(x, bare_marker[0]),
    ensures
        before_marked(x + marked_text(dotted, n), dotted, bare_marker) == x,
        marked_number(x + marked_text(dotted, n), dotted, bare_marker) == n,
{
    let s = x + marked_text(dotted, n);
    match n {
        Some(k) => {
            let d = decimal(k as nat);
            assert(s =~= x + dotted + d);
            lemma_first_at(x, dotted, d, 1);
            assert(s.take(x.len() as int) =~= x);
            assert(s.skip((x.len() + dotted.len()) as int) =~= d);
            lemma_parse_decimal(k);
        },
        None => {
            assert(s =~= x);
            lemma_absent(x, dotted, 1);
            lemma_absent(x, bare_marker, 0);
        },
    }
}

/// The release of a canonical version: digits and dots, ending in a digit,
/// and split at its dots the three numbers as they are written.
proof fn lemma_triple_shape(major: u32, minor: u32, patch: u32)
    ensures
        plain(triple(major as nat, minor as nat, patch as nat)),
        triple(major as nat, minor as nat, patch as nat).len() > 0,
        is_digit(triple(major as nat, minor as nat, patch as nat).last()),
        split(triple(major as nat, minor as nat, patch as nat), '.') == seq![
            decimal(major as nat),
            decimal(minor as nat),
            decimal(patch as nat),
        ],
{
    let a = decimal(major as nat);
    let b = decimal(minor as nat);
    let c = decimal(patch as nat);
    let t = triple(major as nat, minor as nat, patch as nat);
    lemma_decimal_value(major as nat);
    lemma_decimal_value(minor as nat);
    lemma_decimal_value(patch as nat);
    assert(plain(t));
    assert(t.last() == c.last());
    lemma_split_three(a, b, c);
}

/// A pre-release written in canonical form after a release is cut off as
/// it was written.
proof fn lemma_cut_prerelease(base: Seq<char>, pre: Option<(PrereleaseKind, u32)>)
    requires
        plain(base),
        base.len() > 0,
        is_digit(base.last()),
    ensures
        release_of(base + prerelease_text(pre)) == base,
        prerelease_of(base + prerelease_text(pre)) == pre,
{
    let s = base + prerelease_text(pre);
    let n = base.len() as int;
    match pre {
        None => {
            assert(s =~= base);
            lemma_plain_finds(base);
        },
        Some((kind, k)) => {
            let d = decimal(k as nat);
            lemma_decimal_free(k as nat, 'a');
            lemma_decimal_free(k as nat, 'b');
            lemma_decimal_free(k as nat, 'e');
            lemma_decimal_free(k as nat, 'l');
            lemma_decimal_free(k as nat, 'p');
            lemma_decimal_free(k as nat, 'r');
            let marker = kind.spec_prefix();
            assert(s =~= base + marker + d);
            assert(s.take(n) =~= base);
            assert(s.skip(n + marker.len()) =~= d);
            assert(d.take(d.len() as int) =~= d);
            lemma_parse_decimal(k);
            assert(s[n - 1] == base.last());
            reveal_strlit("alpha");
            reveal_strlit("beta");
            reveal_strlit("preview");
            reveal_strlit("rc");
            reveal_strlit("a");
            reveal_strlit("b");
            reveal_strlit("c");
            match kind {
                PrereleaseKind::Alpha => {
                    lemma_free_concat(base + marker, d, 'l');
                    lemma_free_concat(base + marker, d, 'e');
                    lemma_free_concat(base + marker, d, 'p');
                    lemma_free_concat(base + marker, d, 'r');
                    lemma_absent(s, "alpha"@, 1);
                    lemma_absent(s, "beta"@, 1);
                    lemma_absent(s, "preview"@, 0);
                    lemma_absent(s, "rc"@, 0);
                    lemma_first_at(base, "a"@, d, 0);
                },
                PrereleaseKind::Beta => {
                    lemma_free_concat(base + marker, d, 'l');
                    lemma_free_concat(base + marker, d, 'e');
                    lemma_free_concat(base + marker, d, 'p');
                    lemma_free_concat(base + marker, d, 'r');
                    lemma_free_concat(base + marker, d, 'a');
                    lemma_absent(s, "alpha"@, 1);
                    lemma_absent(s, "beta"@, 1);
                    lemma_absent(s, "preview"@, 0);
                    lemma_absent(s, "rc"@, 0);
                    lemma_absent(s, "a"@, 0);
                    lemma_first_at(base, "b"@, d, 0);
                },
                PrereleaseKind::Rc => {
                    lemma_free_concat(base + marker, d, 'l');
                    lemma_free_concat(base + marker, d, 'e');
                    lemma_free_concat(base + marker, d, 'p');
                    lemma_absent(s, "alpha"@, 1);
                    lemma_absent(s, "beta"@, 1);
                    lemma_absent(s, "preview"@, 0);
                    lemma_first_at(base, "rc"@, d, 0);
                },
            }
        },
    }
}

/// The canonical spelling of a version holds digits, dots and the letters
/// of its markers only: it is its own lowered form, and has neither epoch
/// nor local segment.
proof fn lemma_canonical_is_bare(p: ParsedVersion)
    ensures
        bare(canonical(p)) == canonical(p),
{
    lemma_canonical_text(p);
}

/// The canonical spelling of a version is its own lowered form and holds
/// neither `!` nor `+`.
proof fn lemma_canonical_text(p: ParsedVersion)
    ensures
        lowered(canonical(p)) == canonical(p),
        find(canonical(p), "!"@) is None,
        find(canonical(p), "+"@) is None,
{
    let r = canonical(p);
    let base = triple(p.major as nat, p.minor as nat, p.patch as nat);
    let pre = prerelease_text(p.prerelease);
    let post = post_text(p.post);
    let dev = dev_text(p.dev);
    lemma_triple_shape(p.major, p.minor, p.patch);
    reveal_strlit("a");
    reveal_strlit("b");
    reveal_strlit("rc");
    reveal_strlit(".post");
    reveal_strlit(".dev");
    reveal_strlit("!");
    reveal_strlit("+");
    assert forall|i: int| 0 <= i < pre.len() implies is_lower_plain(#[trigger] pre[i]) by {
        let (kind, k) = p.prerelease->0;
        lemma_decimal_value(k as nat);
        let m = kind.spec_prefix();
        if i >= m.len() {
            assert(pre[i] == decimal(k as nat)[i - m.len()]);
        } else {
            assert(pre[i] == m[i]);
        }
    }
    assert forall|i: int| 0 <= i < post.len() implies is_lower_plain(#[trigger] post[i]) by {
        let k = p.post->0;
        lemma_decimal_value(k as nat);
        if i >= 5 {
            assert(post[i] == decimal(k as nat)[i - 5]);
        } else {
            assert(post[i] == ".post"@[i]);
        }
    }
    assert forall|i: int| 0 <= i < dev.len() implies is_lower_plain(#[trigger] dev[i]) by {
        let k = p.dev->0;
        lemma_decimal_value(k as nat);
        if i >= 4 {
            assert(dev[i] == decimal(k as nat)[i - 4]);
        } else {
            assert(dev[i] == ".dev"@[i]);
        }
    }
    assert forall|i: int| 0 <= i < r.len() implies is_lower_plain(#[trigger] r[i]) by {
        if i < base.len() {
            assert(r[i] == base[i]);
        } else if i < base.len() + pre.len() {
            assert(r[i] == pre[i - base.len()]);
        } else if i < base.len() + pre.len() + post.len() {
            assert(r[i] == post[i - base.len() - pre.len()]);
        } else {
            assert(r[i] == dev[i - base.len() - pre.len() - post.len()]);
        }
    }
    assert(vstd::utf8::is_ascii_chars(r));
    assert(lowered(r) =~= r);
    lemma_absent(r, "!"@, 0);
    lemma_absent(r, "+"@, 0);
}

/// `c` is a digit, a dot or a small ASCII letter.
spec fn is_lower_plain(c: char) -> bool {
    is_digit(c) || c == '.' || ('a' <= c && c <= 'z')
}

/// The release and pre-release of a canonical version hold neither `p`
/// nor `d`; with the post-release added there is still no `d`.
proof fn lemma_canonical_lacks(p: ParsedVersion)
    ensures
        free_of(
            triple(p.major as nat, p.minor as nat, p.patch as nat) + prerelease_text(p.prerelease),
            'p',
        ),
        free_of(
            triple(p.major as nat, p.minor as nat, p.patch as nat) + prerelease_text(p.prerelease)
                + post_text(p.post),
            'd',
        ),
{
    let base = triple(p.major as nat, p.minor as nat, p.patch as nat);
    let pre = prerelease_text(p.prerelease);
    let post = post_text(p.post);
    lemma_triple_shape(p.major, p.minor, p.patch);
    reveal_strlit("a");
    reveal_strlit("b");
    reveal_strlit("rc");
    reveal_strlit(".post");
    assert(free_of(base, 'p') && free_of(base, 'd'));
    assert(free_of(pre, 'p') && free_of(pre, 'd')) by {
        if p.prerelease is Some {
            let (kind, k) = p.prerelease->0;
            lemma_decimal_free(k as nat, 'p');
            lemma_decimal_free(k as nat, 'd');
            let m = kind.spec_prefix();
            assert(free_of(m, 'p') && free_of(m, 'd'));
            lemma_free_concat(m, decimal(k as nat), 'p');
            lemma_free_concat(m, decimal(k as nat), 'd');
        }
    }
    assert(free_of(post, 'd')) by {
        if p.post is Some {
            let k = p.post->0;
            lemma_decimal_free(k as nat, 'd');
            assert(free_of(".post"@, 'd'));
            lemma_free_concat(".post"@, decimal(k as nat), 'd');
        }
    }
    lemma_free_concat(base, pre, 'p');
    lemma_free_concat(base, pre, 'd');
    lemma_free_concat(base + pre, post, 'd');
}

/// A canonical dev-release is cut off as it was written.
proof fn lemma_cut_dev(x: Seq<char>, dev: Option<u32>)
    requires
        free_of(x, 'd'),
    ensures
        before_marked(x + dev_text(dev), ".dev"@, "dev"@) == x,
        marked_number(x + dev_text(dev), ".dev"@, "dev"@) == dev,
{
    reveal_strlit(".dev");
    reveal_strlit("dev");
    assert(dev_text(dev) == marked_text(".dev"@, dev));
    lemma_cut_marked(x, ".dev"@, "dev"@, dev);
}

/// A canonical post-release is cut off as it was written.
proof fn lemma_cut_post(x: Seq<char>, post: Option<u32>)
    requires
        free_of(x, 'p'),
    ensures
        before_marked(x + post_text(post), ".post"@, "post"@) == x,
        marked_number(x + post_text(post), ".post"@, "post"@) == post,
{
    reveal_strlit(".post");
    reveal_strlit("post");
    assert(post_text(post) == marked_text(".post"@, post));
    lemma_cut_marked(x, ".post"@, "post"@, post);
}

/// The three numbers of a canonical release are read as they were written.
proof fn lemma_triple_numbers(major: u32, minor: u32, patch: u32)
    ensures
        ({
            let parts = split(triple(major as nat, minor as nat, patch as nat), '.');
            &&& component_number(parts, 0) == Some(major)
            &&& component_number(parts, 1) == Some(minor)
            &&& component_number(parts, 2) == Some(patch)
        }),
{
    lemma_triple_shape(major, minor, patch);
    lemma_parse_decimal(major);
    lemma_parse_decimal(minor);
    lemma_parse_decimal(patch);
}

/// A version written in its canonical spelling is taken apart into the
/// parts it was written from.
pub proof fn lemma_parsed_canonical(p: ParsedVersion)
    ensures
        parsed(canonical(p)) == Ok::<ParsedVersion, Seq<char>>(p),
{
    let base = triple(p.major as nat, p.minor as nat, p.patch as nat);
    let pre = prerelease_text(p.prerelease);
    let post = post_text(p.post);
    lemma_canonical_is_bare(p);
    lemma_canonical_lacks(p);
    lemma_triple_shape(p.major, p.minor, p.patch);
    lemma_cut_dev(base + pre + post, p.dev);
    lemma_cut_post(base + pre, p.post);
    lemma_cut_prerelease(base, p.prerelease);
    lemma_triple_numbers(p.major, p.minor, p.patch);
}

/// What a bump gives is taken apart into the parts of the next version:
/// bumping is counting on the parts, then writing them in canonical form.
pub proof fn lemma_bump_then_parse(v: Seq<char>, component: Seq<char>)
    requires
        computed(v, component) is Ok,
    ensures
        parsed(v) is Ok,
        next_parts(parsed(v)->Ok_0, component) is Ok,
        parsed(computed(v, component)->Ok_0) == next_parts(parsed(v)->Ok_0, component),
{
    lemma_parsed_canonical(next_parts(parsed(v)->Ok_0, component)->Ok_0);
}

/// Dropping the suffixes twice gives what dropping them once gives: the
/// result of a bump to `release` is its own bump to `release`.
pub proof fn lemma_release_is_idempotent(v: Seq<char>)
    requires
        computed(v, "release"@) is Ok,
    ensures
        computed(computed(v, "release"@)->Ok_0, "release"@) == computed(v, "release"@),
{
    reveal_strlit("release");
    reveal_strlit("major");
    reveal_strlit("minor");
    reveal_strlit("patch");
    lemma_bump_then_parse(v, "release"@);
}

/// The release of `a` comes before that of `b`: the numbers major, minor
/// and patch, compared in this order.
pub open spec fn release_precedes(a: ParsedVersion, b: ParsedVersion) -> bool {
    a.major < b.major || (a.major == b.major && (a.minor < b.minor || (a.minor == b.minor
        && a.patch < b.patch)))
}

/// After a bump of `major` the release is greater: the major number has
/// grown by one, and minor and patch are zero.
pub proof fn lemma_major_bump_grows(v: Seq<char>)
    requires
        computed(v, "major"@) is Ok,
    ensures
        parsed(v) is Ok,
        parsed(computed(v, "major"@)->Ok_0) is Ok,
        ({
            let before = parsed(v)->Ok_0;
            let after = parsed(computed(v, "major"@)->Ok_0)->Ok_0;
            &&& release_precedes(before, after)
            &&& after.major == before.major + 1
            &&& after.minor == 0
            &&& after.patch == 0
            &&& after.prerelease is None && after.post is None && after.dev is None
        }),
{
    reveal_strlit("major");
    lemma_bump_then_parse(v, "major"@);
}

/// After a bump of `minor` the release is greater while the major number
/// stays: the minor number has grown by one, and patch is zero.
pub proof fn lemma_minor_bump_grows(v: Seq<char>)
    requires
        computed(v, "minor"@) is Ok,
    ensures
        parsed(v) is Ok,
        parsed(computed(v, "minor"@)->Ok_0) is Ok,
        ({
            let before = parsed(v)->Ok_0;
            let after = parsed(computed(v, "minor"@)->Ok_0)->Ok_0;
            &&& release_precedes(before, after)
            &&& after.major == before.major
            &&& after.minor == before.minor + 1
            &&& after.patch == 0
            &&& after.prerelease is None && after.post is None && after.dev is None
        }),
{
    reveal_strlit("major");
    reveal_strlit("minor");
    assert("minor"@[1] != "major"@[1]);
    lemma_bump_then_parse(v, "minor"@);
}

/// After a bump of `patch` on a version without suffix the patch number
/// has grown by one while major and minor stay. With a suffix the release
/// stays as it is and the suffix is gone.
pub proof fn lemma_patch_bump_grows(v: Seq<char>)
    requires
        computed(v, "patch"@) is Ok,
    ensures
        parsed(v) is Ok,
        parsed(computed(v, "patch"@)->Ok_0) is Ok,
        ({
            let before = parsed(v)->Ok_0;
            let after = parsed(computed(v, "patch"@)->Ok_0)->Ok_0;
            let suffixed = before.prerelease is Some || before.post is Some || before.dev is Some;
            &&& !suffixed ==> release_precedes(before, after)
            &&& after.major == before.major
            &&& after.minor == before.minor
            &&& !suffixed ==> after.patch == before.patch + 1
            &&& suffixed ==> after.patch == before.patch
            &&& after.prerelease is None && after.post is None && after.dev is None
        }),
{
    reveal_strlit("major");
    reveal_strlit("minor");
    reveal_strlit("patch");
    assert("patch"@[0] != "major"@[0]);
    assert("patch"@[0] != "minor"@[0]);
    lemma_bump_then_parse(v, "patch"@);
}

/// Three numbers with dots between are a valid version of the
/// three-component grammar, however many leading zeros they are written
/// with.
pub proof fn lemma_three_numbers_are_valid(a: Seq<char>, b: Seq<char>, c: Seq<char>)
    requires
        parse_u32(a) is Some,
        parse_u32(b) is Some,
        parse_u32(c) is Some,
    ensures
        simple_verdict(a.push('.') + b.push('.') + c) is Ok,
{
    lemma_split_three(a, b, c);
}

/// The three-component grammar and the release of the semantic-version
/// grammar accept the same texts.
pub proof fn lemma_semver_release_is_simple(s: Seq<char>)
    ensures
        semver_release_verdict(s) is Ok <==> simple_verdict(s) is Ok,
{
}

/// A version that the three-component grammar accepts is cast to that
/// grammar as itself.
pub proof fn lemma_valid_simple_cast_is_identity(s: Seq<char>)
    requires
        simple_verdict(s) is Ok,
    ensures
        simple_cast(s) == Ok::<Seq<char>, Seq<char>>(s),
{
    let parts = split(s, '.');
    lemma_join_split(s, '.');
    assert(parts.len() == 3);
    assert(first_unreadable(parts) is None);
    let joined = parts[0].push('.') + parts[1].push('.') + parts[2];
    assert(join(parts, '.') =~= joined) by {
        assert(parts.drop_last().drop_last() =~= seq![parts[0]]);
        assert(parts.drop_last().last() == parts[1]);
        assert(join(parts.drop_last().drop_last(), '.') == parts[0]);
        assert(join(parts.drop_last(), '.') == parts[0].push('.') + parts[1]);
    }
    assert(plain(s)) by {
        assert(all_digits(parts[0]) && all_digits(parts[1]) && all_digits(parts[2]));
    }
    lemma_plain_is_release(s);
    assert(s.take(s.len() as int) =~= s);
    assert(release_parts(s) == parts);
    assert(padded(parts) =~= joined);
}

/// The written form of a release component, present or not, is a number.
proof fn lemma_component_is_number(parts: Seq<Seq<char>>, i: int)
    requires
        all_numbers(parts),
        0 <= i,
    ensures
        parse_u32(component_text(parts, i)) is Some,
{
    if i < parts.len() {
        assert(parse_u32(parts[i]) is Some);
    } else {
        reveal_strlit("0");
        let zero = "0"@;
        assert(zero.drop_last() =~= Seq::<char>::empty());
        assert(decimal_value(zero.drop_last()) == 0);
        assert(decimal_value(zero) == 0);
    }
}

/// Casting to the three-component grammar succeeds exactly where every
/// piece of what the caster takes for the release is a number. What it
/// gives is three non-empty groups of digits with dots between, and the
/// three-component grammar accepts it.
pub proof fn lemma_simple_cast_is_three_groups(v: Seq<char>)
    ensures
        simple_cast(v) is Ok <==> all_numbers(release_parts(v)),
        simple_cast(v) is Ok ==> {
            let groups = split(simple_cast(v)->Ok_0, '.');
            &&& groups.len() == 3
            &&& forall|k: int|
                0 <= k < 3 ==> (#[trigger] groups[k]).len() > 0 && all_digits(groups[k])
            &&& simple_verdict(simple_cast(v)->Ok_0) is Ok
        },
{
    let parts = release_parts(v);
    if all_numbers(parts) {
        lemma_component_is_number(parts, 0);
        lemma_component_is_number(parts, 1);
        lemma_component_is_number(parts, 2);
        lemma_split_three(
            component_text(parts, 0),
            component_text(parts, 1),
            component_text(parts, 2),
        );
    }
}

/// `s` is a non-empty word of ASCII letters and digits.
pub open spec fn is_word(s: Seq<char>) -> bool {
    s.len() > 0 && forall|i: int| 0 <= i < s.len() ==> is_alnum(#[trigger] s[i])
}

/// A valid release followed by a hyphen, a word, a dot and a number is a
/// valid semantic version.
proof fn lemma_release_with_prerelease_is_valid(base: Seq<char>, word: Seq<char>, d: Seq<char>)
    requires
        plain(base),
        semver_release_verdict(base) is Ok,
        is_word(word),
        d.len() > 0,
        all_digits(d),
    ensures
        javascript_verdict(base + (seq!['-'] + word + seq!['.'] + d)) is Ok,
{
    reveal_strlit("+");
    reveal_strlit("-");
    let rest = seq!['-'] + word + seq!['.'] + d;
    let r = base + rest;
    let n = base.len() as int;
    assert forall|i: int| 0 <= i < r.len() implies #[trigger] r[i] != '+' by {
        if i < n {
            assert(r[i] == base[i]);
        } else if i == n {
        } else if i < n + 1 + word.len() {
            assert(r[i] == word[i - n - 1]);
        } else if i == n + 1 + word.len() {
        } else {
            assert(r[i] == d[i - n - 2 - word.len()]);
        }
    }
    lemma_absent(r, "+"@, 0);
    assert(r.subrange(n, n + 1) =~= "-"@);
    assert forall|j: int| 0 <= j < n implies !occurs_at(r, "-"@, j) by {
        if occurs_at(r, "-"@, j) {
            assert(r.subrange(j, j + 1)[0] == r[j]);
            assert(r[j] == base[j]);
        }
    }
    lemma_find_first(r, "-"@, n);
    assert(r.take(n) =~= base);
    let pre = r.skip(n + 1);
    assert(pre =~= word.push('.') + d);
    lemma_split_single(word, '.');
    lemma_split_append(word, d, '.');
    assert(split(pre, '.') =~= seq![word, d]);
}

/// The hyphenated pre-release of a cast is empty, or a hyphen, a word, a
/// dot and a number.
proof fn lemma_hyphenated_shape(t: Seq<char>)
    ensures
        hyphenated(t).len() == 0 || exists|word: Seq<char>, d: Seq<char>|
            is_word(word) && d.len() > 0 && all_digits(d) && hyphenated(t) == seq!['-'] + word
                + seq!['.'] + d,
{
    reveal_strlit("-alpha.");
    reveal_strlit("-beta.");
    reveal_strlit("-rc.");
    reveal_strlit("alpha");
    reveal_strlit("beta");
    reveal_strlit("rc");
    reveal_strlit("0");
    let h = hyphenated(t);
    if h.len() != 0 {
        let (word, x) = if starts_with_any_alpha(t) {
            ("alpha"@, alpha_rest(t))
        } else if starts_with_any_beta(t) {
            ("beta"@, beta_rest(t))
        } else {
            ("rc"@, rc_rest(t))
        };
        let d = digits_or_zero(x);
        lemma_digit_run_bounds(x);
        assert(d.len() > 0 && all_digits(d));
        assert(is_word(word));
        assert(h =~= seq!['-'] + word + seq!['.'] + d);
    }
}

/// `t` starts with a spelling of alpha.
spec fn starts_with_any_alpha(t: Seq<char>) -> bool {
    starts_with(t, "alpha"@) || starts_with(t, "a"@)
}

/// `t` starts with a spelling of beta, and with none of alpha.
spec fn starts_with_any_beta(t: Seq<char>) -> bool {
    !starts_with_any_alpha(t) && (starts_with(t, "beta"@) || starts_with(
        t,
        "b"@,
    ))
}

/// What follows the spelling of alpha that `t` starts with.
spec fn alpha_rest(t: Seq<char>) -> Seq<char> {
    if starts_with(t, "alpha"@) {
        t.skip("alpha"@.len() as int)
    } else {
        t.skip("a"@.len() as int)
    }
}

/// What follows the spelling of beta that `t` starts with.
spec fn beta_rest(t: Seq<char>) -> Seq<char> {
    if starts_with(t, "beta"@) {
        t.skip("beta"@.len() as int)
    } else {
        t.skip("b"@.len() as int)
    }
}

/// What follows the spelling of a release candidate that `t` starts with.
spec fn rc_rest(t: Seq<char>) -> Seq<char> {
    if starts_with(t, "rc"@) {
        t.skip("rc"@.len() as int)
    } else if starts_with(t, "c"@) {
        t.skip("c"@.len() as int)
    } else {
        t.skip("preview"@.len() as int)
    }
}

/// What a cast to the semantic-version grammar gives is a version that this
/// grammar accepts.
pub proof fn lemma_semver_cast_is_valid(v: Seq<char>)
    requires
        semver_cast(v) is Ok,
    ensures
        javascript_verdict(semver_cast(v)->Ok_0) is Ok,
{
    let parts = release_parts(v);
    let a = component_text(parts, 0);
    let b = component_text(parts, 1);
    let c = component_text(parts, 2);
    lemma_component_is_number(parts, 0);
    lemma_component_is_number(parts, 1);
    lemma_component_is_number(parts, 2);
    lemma_three_numbers_are_valid(a, b, c);
    let base = padded(parts);
    assert(plain(base));
    let suffix = semver_suffix(bare(v).skip(release_end(bare(v))));
    let rest = bare(v).skip(release_end(bare(v)));
    let t = before_marked(before_marked(rest, ".dev"@, "dev"@), ".post"@, "post"@);
    lemma_hyphenated_shape(t);
    if suffix.len() == 0 {
        assert(base + suffix =~= base);
        lemma_plain_finds(base);
    } else {
        let (word, d): (Seq<char>, Seq<char>) = choose|word: Seq<char>, d: Seq<char>|
            is_word(word) && d.len() > 0 && all_digits(d) && hyphenated(t) == seq!['-'] + word
                + seq!['.'] + d;
        lemma_release_with_prerelease_is_valid(base, word, d);
    }
}

/// A version that the file's grammar accepts is picked as it is, whatever
/// the policy on invalid versions: nothing is cast that conforms already.
pub proof fn lemma_valid_version_is_kept(
    version: Seq<char>,
    kind: FileKind,
    on_invalid: OnInvalidVersion,
    src: Seq<char>,
)
    requires
        verdict(version, kind) is Ok,
    ensures
        file_version(version, kind, on_invalid, src) == Ok::<Seq<char>, Seq<char>>(version),
{
}

/// The version picked for a file follows the file's grammar, whatever the
/// policy on invalid versions.
pub proof fn lemma_file_version_is_valid(
    version: Seq<char>,
    kind: FileKind,
    on_invalid: OnInvalidVersion,
    src: Seq<char>,
)
    requires
        file_version(version, kind, on_invalid, src) is Ok,
    ensures
        verdict(file_version(version, kind, on_invalid, src)->Ok_0, kind) is Ok,
{
}

/// Under the policy of casting, a version is picked for a file of the
/// three-component or the semantic-version grammar whenever the version
/// can be cast at all: what the cast gives is never rejected.
pub proof fn lemma_cast_is_accepted(version: Seq<char>, kind: FileKind, src: Seq<char>)
    requires
        kind == FileKind::Simple || kind == FileKind::Semver,
        casted(version, kind) is Ok,
    ensures
        file_version(version, kind, OnInvalidVersion::Cast, src) is Ok,
{
    if kind == FileKind::Simple {
        lemma_simple_cast_is_three_groups(version);
    } else {
        lemma_semver_cast_is_valid(version);
    }
}

/// A marker followed by a number lacks every character that is neither a
/// digit nor in the marker.
proof fn lemma_marked_lacks(marker: Seq<char>, n: Option<u32>, c: char)
    requires
        free_of(marker, c),
        !is_digit(c),
    ensures
        free_of(marked_text(marker, n), c),
{
    if n is Some {
        lemma_decimal_free(n->0 as nat, c);
        lemma_free_concat(marker, decimal(n->0 as nat), c);
    }
}

/// The canonical spelling of a pre-release lacks every character that is
/// neither a digit nor in its marker.
proof fn lemma_prerelease_lacks(pre: Option<(PrereleaseKind, u32)>, c: char)
    requires
        !is_digit(c),
        pre matches Some((kind, _)) ==> free_of(kind.spec_prefix(), c),
    ensures
        free_of(prerelease_text(pre), c),
{
    if pre is Some {
        let (kind, k) = pre->0;
        lemma_decimal_free(k as nat, c);
        lemma_free_concat(kind.spec_prefix(), decimal(k as nat), c);
    }
}

/// A canonical version lacks every character that is neither a digit nor a
/// dot nor in one of its markers.
proof fn lemma_canonical_lacks_char(p: ParsedVersion, c: char)
    requires
        !is_digit(c),
        c != '.',
        p.prerelease matches Some((kind, _)) ==> free_of(kind.spec_prefix(), c),
        p.post is Some ==> free_of(".post"@, c),
        p.dev is Some ==> free_of(".dev"@, c),
    ensures
        free_of(canonical(p), c),
{
    let base = triple(p.major as nat, p.minor as nat, p.patch as nat);
    let pre = prerelease_text(p.prerelease);
    let post = post_text(p.post);
    let dev = dev_text(p.dev);
    lemma_triple_shape(p.major, p.minor, p.patch);
    assert(free_of(base, c));
    lemma_prerelease_lacks(p.prerelease, c);
    assert(free_of(post, c)) by {
        if p.post is Some {
            lemma_marked_lacks(".post"@, p.post, c);
        }
    }
    assert(free_of(dev, c)) by {
        if p.dev is Some {
            lemma_marked_lacks(".dev"@, p.dev, c);
        }
    }
    lemma_free_concat(base, pre, c);
    lemma_free_concat(base + pre, post, c);
    lemma_free_concat(base + pre + post, dev, c);
}

/// The letters of a pre-release are `a`, `b`, `r` and `c`.
proof fn lemma_prefix_lacks(kind: PrereleaseKind, c: char)
    requires
        c != 'a' && c != 'b' && c != 'r' && c != 'c',
    ensures
        free_of(kind.spec_prefix(), c),
{
    reveal_strlit("a");
    reveal_strlit("b");
    reveal_strlit("rc");
}

/// The markers of post- and dev-release hold a dot and the letters of
/// `post` and of `dev`.
proof fn lemma_markers_lack(c: char)
    ensures
        c != '.' && c != 'p' && c != 'o' && c != 's' && c != 't' ==> free_of(".post"@, c),
        c != '.' && c != 'd' && c != 'e' && c != 'v' ==> free_of(".dev"@, c),
{
    reveal_strlit(".post");
    reveal_strlit(".dev");
}

/// A canonical version lacks every letter that is in none of its markers.
proof fn lemma_canonical_lacks_letter(p: ParsedVersion, c: char)
    requires
        !is_digit(c),
        c != '.',
        p.prerelease matches Some((kind, _)) ==> free_of(kind.spec_prefix(), c),
        p.post is Some ==> c != 'p' && c != 'o' && c != 's' && c != 't',
        p.dev is Some ==> c != 'd' && c != 'e' && c != 'v',
    ensures
        free_of(canonical(p), c),
{
    lemma_markers_lack(c);
    lemma_canonical_lacks_char(p, c);
}

/// A marker with a letter that a canonical version lacks stands nowhere in
/// it.
proof fn lemma_no_marker(p: ParsedVersion, marker: Seq<char>, k: int)
    requires
        0 <= k < marker.len(),
        free_of(canonical(p), marker[k]),
    ensures
        marker_at(canonical(p), marker) is None,
{
    lemma_absent(canonical(p), marker, k);
}

/// The longer spellings `alpha` and `preview` stand nowhere in a canonical
/// version, and `beta` does not either.
proof fn lemma_no_long_marker(p: ParsedVersion)
    ensures
        marker_at(canonical(p), "alpha"@) is None,
        marker_at(canonical(p), "beta"@) is None,
        marker_at(canonical(p), "preview"@) is None,
{
    reveal_strlit("alpha");
    reveal_strlit("beta");
    reveal_strlit("preview");
    assert forall|kind: PrereleaseKind| free_of(#[trigger] kind.spec_prefix(), 'l') && free_of(
        kind.spec_prefix(),
        'w',
    ) by {
        lemma_prefix_lacks(kind, 'l');
        lemma_prefix_lacks(kind, 'w');
    }
    lemma_canonical_lacks_letter(p, 'l');
    lemma_canonical_lacks_letter(p, 'w');
    lemma_no_marker(p, "alpha"@, 1);
    lemma_no_marker(p, "preview"@, 6);
    if p.prerelease matches Some((PrereleaseKind::Beta, _)) {
        reveal_strlit("b");
        lemma_canonical_lacks_letter(p, 'a');
        lemma_no_marker(p, "beta"@, 3);
    } else {
        reveal_strlit("a");
        reveal_strlit("rc");
        lemma_canonical_lacks_letter(p, 'b');
        lemma_no_marker(p, "beta"@, 0);
    }
}

/// The marker of the pre-release of a canonical version stands first
/// where the release ends, at a boundary.
proof fn lemma_own_marker(p: ParsedVersion)
    requires
        p.prerelease is Some,
    ensures
        p.prerelease matches Some((kind, _)) && marker_at(canonical(p), kind.spec_prefix())
            == Some(triple(p.major as nat, p.minor as nat, p.patch as nat).len() as int),
{
    let base = triple(p.major as nat, p.minor as nat, p.patch as nat);
    let (kind, k) = p.prerelease->0;
    let marker = kind.spec_prefix();
    let rest = decimal(k as nat) + post_text(p.post) + dev_text(p.dev);
    let r = canonical(p);
    lemma_triple_shape(p.major, p.minor, p.patch);
    reveal_strlit("a");
    reveal_strlit("b");
    reveal_strlit("rc");
    assert(r =~= base + marker + rest);
    assert(r[base.len() - 1] == base.last());
    lemma_first_at(base, marker, rest, 0);
}

/// In a canonical version without a pre-release no short marker stands.
proof fn lemma_short_markers_none(p: ParsedVersion)
    requires
        p.prerelease is None,
    ensures
        marker_at(canonical(p), "rc"@) is None,
        marker_at(canonical(p), "a"@) is None,
        marker_at(canonical(p), "b"@) is None,
        marker_at(canonical(p), "c"@) is None,
{
    reveal_strlit("rc");
    reveal_strlit("a");
    reveal_strlit("b");
    reveal_strlit("c");
    lemma_canonical_lacks_letter(p, 'a');
    lemma_canonical_lacks_letter(p, 'b');
    lemma_canonical_lacks_letter(p, 'c');
    lemma_no_marker(p, "rc"@, 1);
    lemma_no_marker(p, "a"@, 0);
    lemma_no_marker(p, "b"@, 0);
    lemma_no_marker(p, "c"@, 0);
}

/// In a canonical alpha no other short marker stands.
proof fn lemma_short_markers_alpha(p: ParsedVersion)
    requires
        p.prerelease matches Some((PrereleaseKind::Alpha, _)),
    ensures
        marker_at(canonical(p), "rc"@) is None,
        marker_at(canonical(p), "b"@) is None,
        marker_at(canonical(p), "c"@) is None,
{
    reveal_strlit("rc");
    reveal_strlit("a");
    reveal_strlit("b");
    reveal_strlit("c");
    lemma_canonical_lacks_letter(p, 'b');
    lemma_canonical_lacks_letter(p, 'c');
    lemma_no_marker(p, "rc"@, 1);
    lemma_no_marker(p, "b"@, 0);
    lemma_no_marker(p, "c"@, 0);
}

/// In a canonical beta no other short marker stands.
proof fn lemma_short_markers_beta(p: ParsedVersion)
    requires
        p.prerelease matches Some((PrereleaseKind::Beta, _)),
    ensures
        marker_at(canonical(p), "rc"@) is None,
        marker_at(canonical(p), "a"@) is None,
        marker_at(canonical(p), "c"@) is None,
{
    reveal_strlit("rc");
    reveal_strlit("a");
    reveal_strlit("b");
    reveal_strlit("c");
    lemma_canonical_lacks_letter(p, 'a');
    lemma_canonical_lacks_letter(p, 'c');
    lemma_no_marker(p, "rc"@, 1);
    lemma_no_marker(p, "a"@, 0);
    lemma_no_marker(p, "c"@, 0);
}

/// In a canonical release candidate `a` and `b` stand nowhere, and `c`
/// stands first behind an `r`, which is no boundary.
proof fn lemma_short_markers_rc(p: ParsedVersion)
    requires
        p.prerelease matches Some((PrereleaseKind::Rc, _)),
    ensures
        marker_at(canonical(p), "a"@) is None,
        marker_at(canonical(p), "b"@) is None,
        marker_at(canonical(p), "c"@) is None,
{
    let base = triple(p.major as nat, p.minor as nat, p.patch as nat);
    let (kind, k) = p.prerelease->0;
    let rest = decimal(k as nat) + post_text(p.post) + dev_text(p.dev);
    let r = canonical(p);
    reveal_strlit("rc");
    reveal_strlit("a");
    reveal_strlit("b");
    reveal_strlit("c");
    lemma_canonical_lacks_letter(p, 'a');
    lemma_canonical_lacks_letter(p, 'b');
    lemma_no_marker(p, "a"@, 0);
    lemma_no_marker(p, "b"@, 0);
    lemma_triple_shape(p.major, p.minor, p.patch);
    assert(r =~= base.push('r') + "c"@ + rest);
    lemma_first_at(base.push('r'), "c"@, rest, 0);
    assert(r[base.len() as int] == 'r');
}

/// In a canonical version the pre-release markers that stand at a boundary
/// all stand where the release ends, and there is one exactly where the
/// version has a pre-release.
proof fn lemma_canonical_prerelease_marker(p: ParsedVersion)
    ensures
        earliest_prerelease_marker(canonical(p)) == if p.prerelease is Some {
            Some(triple(p.major as nat, p.minor as nat, p.patch as nat).len() as int)
        } else {
            None
        },
{
    lemma_no_long_marker(p);
    match p.prerelease {
        None => {
            lemma_short_markers_none(p);
        },
        Some((kind, k)) => {
            lemma_own_marker(p);
            match kind {
                PrereleaseKind::Alpha => {
                    lemma_short_markers_alpha(p);
                },
                PrereleaseKind::Beta => {
                    lemma_short_markers_beta(p);
                },
                PrereleaseKind::Rc => {
                    lemma_short_markers_rc(p);
                },
            }
        },
    }
}

/// In a canonical version `.post` stands first where the post-release
/// starts, and nowhere without a post-release.
proof fn lemma_canonical_post_marker(p: ParsedVersion)
    ensures
        find(canonical(p), ".post"@) == if p.post is Some {
            Some(
                (triple(p.major as nat, p.minor as nat, p.patch as nat) + prerelease_text(
                    p.prerelease,
                )).len() as int,
            )
        } else {
            None
        },
        find(canonical(p), "post"@) == if p.post is Some {
            Some(
                (triple(p.major as nat, p.minor as nat, p.patch as nat) + prerelease_text(
                    p.prerelease,
                )).len() as int + 1,
            )
        } else {
            None
        },
{
    let head = triple(p.major as nat, p.minor as nat, p.patch as nat) + prerelease_text(
        p.prerelease,
    );
    let r = canonical(p);
    reveal_strlit(".post");
    reveal_strlit("post");
    match p.post {
        Some(k) => {
            let rest = decimal(k as nat) + dev_text(p.dev);
            lemma_canonical_lacks(p);
            assert(r =~= head + ".post"@ + rest);
            lemma_first_at(head, ".post"@, rest, 1);
            assert(r =~= head.push('.') + "post"@ + rest);
            lemma_free_concat(head, seq!['.'], 'p');
            assert(head.push('.') =~= head + seq!['.']);
            lemma_first_at(head.push('.'), "post"@, rest, 0);
        },
        None => {
            assert forall|kind: PrereleaseKind| free_of(#[trigger] kind.spec_prefix(), 'p') by {
                lemma_prefix_lacks(kind, 'p');
            }
            lemma_canonical_lacks_letter(p, 'p');
            lemma_absent(r, ".post"@, 1);
            lemma_absent(r, "post"@, 0);
        },
    }
}

/// In a canonical version `.dev` stands first where the dev-release
/// starts, and nowhere without a dev-release.
proof fn lemma_canonical_dev_marker(p: ParsedVersion)
    ensures
        find(canonical(p), ".dev"@) == if p.dev is Some {
            Some(
                (triple(p.major as nat, p.minor as nat, p.patch as nat) + prerelease_text(
                    p.prerelease,
                ) + post_text(p.post)).len() as int,
            )
        } else {
            None
        },
        find(canonical(p), "dev"@) == if p.dev is Some {
            Some(
                (triple(p.major as nat, p.minor as nat, p.patch as nat) + prerelease_text(
                    p.prerelease,
                ) + post_text(p.post)).len() as int + 1,
            )
        } else {
            None
        },
{
    let head = triple(p.major as nat, p.minor as nat, p.patch as nat) + prerelease_text(
        p.prerelease,
    ) + post_text(p.post);
    let r = canonical(p);
    reveal_strlit(".dev");
    reveal_strlit("dev");
    lemma_canonical_lacks(p);
    match p.dev {
        Some(k) => {
            let rest = decimal(k as nat);
            assert(r =~= head + ".dev"@ + rest);
            lemma_first_at(head, ".dev"@, rest, 1);
            assert(r =~= head.push('.') + "dev"@ + rest);
            lemma_free_concat(head, seq!['.'], 'd');
            assert(head.push('.') =~= head + seq!['.']);
            lemma_first_at(head.push('.'), "dev"@, rest, 0);
        },
        None => {
            assert(r =~= head);
            lemma_absent(r, ".dev"@, 1);
            lemma_absent(r, "dev"@, 0);
        },
    }
}

/// In a canonical version the release ends where its first suffix starts.
proof fn lemma_canonical_suffix_start(p: ParsedVersion)
    ensures
        suffix_start(canonical(p)) == triple(p.major as nat, p.minor as nat, p.patch as nat).len(),
{
    lemma_canonical_prerelease_marker(p);
    lemma_canonical_post_marker(p);
    lemma_canonical_dev_marker(p);
}

/// A number followed by nothing, or by something that is no digit, is all
/// of the leading digits.
proof fn lemma_skip_number(d: Seq<char>, rest: Seq<char>)
    requires
        all_digits(d),
        rest.len() == 0 || !is_digit(rest[0]),
    ensures
        skip_digits(d + rest) == rest,
{
    let s = d + rest;
    assert forall|j: int| 0 <= j < d.len() implies is_digit(#[trigger] s[j]) by {
        assert(s[j] == d[j]);
    }
    if rest.len() > 0 {
        assert(s[d.len() as int] == rest[0]);
    }
    lemma_digit_run(s, d.len() as int);
    assert(s.skip(d.len() as int) =~= rest);
}

/// A canonical pre-release is all that the validator takes as pre-release.
proof fn lemma_strip_canonical_prerelease(pre: Option<(PrereleaseKind, u32)>, rest: Seq<char>)
    requires
        rest.len() == 0 || rest[0] == '.',
    ensures
        strip_prerelease(prerelease_text(pre) + rest) == rest,
{
    let s = prerelease_text(pre) + rest;
    reveal_strlit("alpha");
    reveal_strlit("beta");
    reveal_strlit("preview");
    reveal_strlit("rc");
    reveal_strlit("a");
    reveal_strlit("b");
    reveal_strlit("c");
    match pre {
        None => {
            assert(s =~= rest);
            if rest.len() > 0 {
                assert forall|m: Seq<char>| m.len() > 0 && m[0] != '.' implies !starts_with(
                    rest,
                    m,
                ) by {
                    if starts_with(rest, m) {
                        assert(rest.subrange(0, m.len() as int)[0] == rest[0]);
                    }
                }
            }
        },
        Some((kind, k)) => {
            let d = decimal(k as nat);
            let marker = kind.spec_prefix();
            lemma_decimal_value(k as nat);
            assert(s =~= marker + (d + rest));
            assert(s.subrange(0, marker.len() as int) =~= marker);
            assert(s.skip(marker.len() as int) =~= d + rest);
            lemma_skip_number(d, rest);
            assert(is_digit(s[marker.len() as int])) by {
                assert(s[marker.len() as int] == d[0]);
            }
            assert forall|m: Seq<char>|
                m.len() > marker.len() && !is_digit(m[marker.len() as int]) implies !starts_with(
                    s,
                    m,
                ) by {
                if starts_with(s, m) {
                    let k = marker.len() as int;
                    assert(s.subrange(0, m.len() as int)[k] == s[k]);
                }
            }
            assert forall|m: Seq<char>| m.len() > 0 && m[0] != marker[0] implies !starts_with(
                s,
                m,
            ) by {
                if starts_with(s, m) {
                    assert(s.subrange(0, m.len() as int)[0] == s[0]);
                }
            }
        },
    }
}

/// A canonical post- or dev-release is all that the validator takes for
/// its marker, and where there is none, nothing is taken.
proof fn lemma_strip_canonical_marked(
    dotted: Seq<char>,
    bare_marker: Seq<char>,
    n: Option<u32>,
    rest: Seq<char>,
)
    requires
        dotted.len() >= 2,
        bare_marker.len() >= 1,
        dotted[0] == '.',
        bare_marker[0] != '.',
        rest.len() == 0 || (rest.len() >= 2 && rest[0] == '.' && rest[1] != dotted[1]),
    ensures
        strip_marked(marked_text(dotted, n) + rest, dotted, bare_marker) == rest,
{
    let s = marked_text(dotted, n) + rest;
    match n {
        Some(k) => {
            let d = decimal(k as nat);
            lemma_decimal_value(k as nat);
            assert(s =~= dotted + (d + rest));
            assert(s.subrange(0, dotted.len() as int) =~= dotted);
            assert(s.skip(dotted.len() as int) =~= d + rest);
            lemma_skip_number(d, rest);
        },
        None => {
            assert(s =~= rest);
            if starts_with(rest, dotted) {
                assert(rest.subrange(0, dotted.len() as int)[1] == rest[1]);
            }
            if starts_with(rest, bare_marker) {
                assert(rest.subrange(0, bare_marker.len() as int)[0] == rest[0]);
            }
        },
    }
}

/// The suffix of a canonical version leaves nothing over.
proof fn lemma_canonical_suffix_is_valid(p: ParsedVersion)
    ensures
        suffix_leftover(prerelease_text(p.prerelease) + (post_text(p.post) + dev_text(p.dev))).len()
            == 0,
{
    let post = post_text(p.post);
    let dev = dev_text(p.dev);
    reveal_strlit(".post");
    reveal_strlit("post");
    reveal_strlit(".dev");
    reveal_strlit("dev");
    assert(post == marked_text(".post"@, p.post));
    assert(dev == marked_text(".dev"@, p.dev));
    assert(dev.len() == 0 || (dev.len() >= 2 && dev[0] == '.' && dev[1] == 'd')) by {
        if p.dev is Some {
            assert(dev[0] == ".dev"@[0]);
            assert(dev[1] == ".dev"@[1]);
        }
    }
    assert((post + dev).len() == 0 || (post + dev)[0] == '.') by {
        if p.post is Some {
            assert((post + dev)[0] == ".post"@[0]);
        } else {
            assert(post + dev =~= dev);
        }
    }
    lemma_strip_canonical_prerelease(p.prerelease, post + dev);
    lemma_strip_canonical_marked(".post"@, "post"@, p.post, dev);
    assert(dev =~= dev + Seq::<char>::empty());
    lemma_strip_canonical_marked(".dev"@, "dev"@, p.dev, Seq::<char>::empty());
}

/// The release of a canonical version is three groups of digits.
proof fn lemma_canonical_release_is_valid(p: ParsedVersion)
    ensures
        triple(p.major as nat, p.minor as nat, p.patch as nat).len() > 0,
        valid_release(triple(p.major as nat, p.minor as nat, p.patch as nat)),
{
    lemma_triple_shape(p.major, p.minor, p.patch);
    lemma_decimal_value(p.major as nat);
    lemma_decimal_value(p.minor as nat);
    lemma_decimal_value(p.patch as nat);
}

/// A valid release followed by a suffix that leaves nothing over is valid,
/// provided that the release is found to end where the suffix begins.
proof fn lemma_main_verdict_of_parts(release: Seq<char>, suffix: Seq<char>)
    requires
        release.len() > 0,
        suffix_start(release + suffix) == release.len(),
        valid_release(release),
        suffix_leftover(suffix).len() == 0,
    ensures
        main_verdict(release + suffix) is Ok,
{
    let s = release + suffix;
    assert(s.take(release.len() as int) =~= release);
    assert(s.skip(release.len() as int) =~= suffix);
}

/// A canonical version is a valid release followed by a valid suffix.
proof fn lemma_canonical_main_is_valid(p: ParsedVersion)
    ensures
        main_verdict(canonical(p)) is Ok,
{
    let base = triple(p.major as nat, p.minor as nat, p.patch as nat);
    let suffix = prerelease_text(p.prerelease) + (post_text(p.post) + dev_text(p.dev));
    assert(canonical(p) =~= base + suffix);
    lemma_canonical_suffix_start(p);
    lemma_canonical_release_is_valid(p);
    lemma_canonical_suffix_is_valid(p);
    lemma_main_verdict_of_parts(base, suffix);
}

/// The extended grammar accepts every version in its canonical spelling.
pub proof fn lemma_canonical_is_valid(p: ParsedVersion)
    ensures
        python_verdict(canonical(p)) is Ok,
{
    lemma_canonical_text(p);
    lemma_canonical_main_is_valid(p);
    lemma_canonical_release_is_valid(p);
}

/// What a bump gives is a version that the extended grammar accepts.
pub proof fn lemma_bump_is_valid(v: Seq<char>, component: Seq<char>)
    requires
        computed(v, component) is Ok,
    ensures
        python_verdict(computed(v, component)->Ok_0) is Ok,
{
    lemma_canonical_is_valid(next_parts(parsed(v)->Ok_0, component)->Ok_0);
}

/// `pat` begins with a character that is neither a digit nor a dot, or
/// with a dot and then such a character: the shape of every marker.
pub open spec fn is_marker_shape(pat: Seq<char>) -> bool {
    &&& pat.len() >= 1
    &&& (!is_digit(pat[0]) && pat[0] != '.') || (pat[0] == '.' && pat.len() >= 2 && !is_digit(
        pat[1],
    ) && pat[1] != '.')
}

/// `s` starts with one of the spellings that begin a suffix of the
/// extended grammar.
pub open spec fn starts_suffix(s: Seq<char>) -> bool {
    starts_with(s, "alpha"@) || starts_with(s, "beta"@) || starts_with(s, "preview"@)
        || starts_with(s, "rc"@) || starts_with(s, "a"@) || starts_with(s, "b"@) || starts_with(
        s,
        "c"@,
    ) || starts_with(s, ".post"@) || starts_with(s, "post"@) || starts_with(s, ".dev"@)
        || starts_with(s, "dev"@)
}

/// Every marker has the shape of a marker.
proof fn lemma_marker_shapes()
    ensures
        is_marker_shape("alpha"@),
        is_marker_shape("beta"@),
        is_marker_shape("preview"@),
        is_marker_shape("rc"@),
        is_marker_shape("a"@),
        is_marker_shape("b"@),
        is_marker_shape("c"@),
        is_marker_shape(".post"@),
        is_marker_shape("post"@),
        is_marker_shape(".dev"@),
        is_marker_shape("dev"@),
        is_marker_shape("-"@),
{
    reveal_strlit("alpha");
    reveal_strlit("beta");
    reveal_strlit("preview");
    reveal_strlit("rc");
    reveal_strlit("a");
    reveal_strlit("b");
    reveal_strlit("c");
    reveal_strlit(".post");
    reveal_strlit("post");
    reveal_strlit(".dev");
    reveal_strlit("dev");
    reveal_strlit("-");
}

/// Text whose dot-separated pieces are all digits holds digits and dots
/// only.
proof fn lemma_digit_pieces_are_plain(s: Seq<char>)
    requires
        forall|k: int| 0 <= k < split(s, '.').len() ==> all_digits(#[trigger] split(s, '.')[k]),
    ensures
        plain(s),
    decreases s.len(),
{
    if s.len() > 0 {
        let s0 = s.drop_last();
        let init = split(s0, '.');
        lemma_split_nonempty(s0, '.');
        assert forall|k: int| 0 <= k < init.len() implies all_digits(#[trigger] init[k]) by {
            let piece = split(s, '.')[k];
            assert(all_digits(piece));
            if s.last() != '.' && k == init.len() - 1 {
                assert forall|i: int| 0 <= i < init[k].len() implies is_digit(
                    #[trigger] init[k][i],
                ) by {
                    assert(init[k][i] == piece[i]);
                }
            }
        }
        lemma_digit_pieces_are_plain(s0);
        if s.last() != '.' {
            let piece = split(s, '.')[init.len() - 1];
            assert(all_digits(piece));
            assert(piece[piece.len() - 1] == s.last());
        }
        assert forall|i: int| 0 <= i < s.len() implies is_digit(#[trigger] s[i]) || s[i] == '.' by {
            if i < s.len() - 1 {
                assert(s[i] == s0[i]);
            }
        }
    }
}

/// A release of non-empty groups of digits holds digits and dots only and
/// ends in a digit.
proof fn lemma_release_shape(release: Seq<char>)
    requires
        valid_release(release),
    ensures
        plain(release),
        release.len() > 0,
        is_digit(release.last()),
{
    let pieces = split(release, '.');
    lemma_split_nonempty(release, '.');
    assert forall|k: int| 0 <= k < pieces.len() implies all_digits(#[trigger] pieces[k]) by {
        assert(piece_in(pieces[k], CharClass::Digit));
    }
    lemma_digit_pieces_are_plain(release);
    assert(piece_in(pieces[pieces.len() - 1], CharClass::Digit));
    if release.len() > 0 && release.last() == '.' {
        assert(pieces[pieces.len() - 1].len() == 0);
    }
}

/// A release whose pieces are all numbers is a valid release.
proof fn lemma_numbers_are_a_release(release: Seq<char>)
    requires
        all_numbers(split(release, '.')),
    ensures
        valid_release(release),
{
    let pieces = split(release, '.');
    assert forall|k: int| 0 <= k < pieces.len() implies piece_in(
        #[trigger] pieces[k],
        CharClass::Digit,
    ) by {
        assert(parse_u32(pieces[k]) is Some);
    }
}

/// A position, where there is one, is `n` or later.
pub open spec fn at_or_after(position: Option<int>, n: int) -> bool {
    match position {
        Some(q) => q >= n,
        None => true,
    }
}

/// `s` ends in a digit and holds digits and dots only.
pub open spec fn is_release_text(s: Seq<char>) -> bool {
    plain(s) && s.len() > 0 && is_digit(s.last())
}

/// No marker stands in a release, nor across its end: in a release
/// followed by anything, a marker stands first where the release ends, or
/// later, or nowhere; it stands where the release ends if the rest starts
/// with it, and that is a boundary.
proof fn lemma_marker_after_release(release: Seq<char>, rest: Seq<char>, pat: Seq<char>)
    requires
        is_release_text(release),
        is_marker_shape(pat),
    ensures
        at_or_after(find(release + rest, pat), release.len() as int),
        at_or_after(marker_at(release + rest, pat), release.len() as int),
        starts_with(rest, pat) ==> find(release + rest, pat) == Some(release.len() as int)
            && marker_at(release + rest, pat) == Some(release.len() as int),
{
    let s = release + rest;
    let n = release.len() as int;
    assert forall|j: int| 0 <= j < n implies !occurs_at(s, pat, j) by {
        if occurs_at(s, pat, j) {
            let window = s.subrange(j, j + pat.len());
            assert(window[0] == s[j]);
            assert(s[j] == release[j]);
            if pat[0] == '.' {
                assert(window[1] == s[j + 1]);
                if j + 1 < n {
                    assert(s[j + 1] == release[j + 1]);
                } else {
                    assert(release[j] == release.last());
                }
            }
        }
    }
    lemma_find_sound(s, pat);
    if starts_with(rest, pat) {
        assert(s.subrange(n, n + pat.len()) =~= rest.subrange(0, pat.len() as int));
        lemma_find_first(s, pat, n);
        assert(s[n - 1] == release.last());
    }
}

/// `s` starts with one of the spellings of a pre-release.
pub open spec fn starts_prerelease(s: Seq<char>) -> bool {
    starts_with(s, "alpha"@) || starts_with(s, "beta"@) || starts_with(s, "preview"@)
        || starts_with(s, "rc"@) || starts_with(s, "a"@) || starts_with(s, "b"@) || starts_with(
        s,
        "c"@,
    )
}

/// The earlier of two positions at or after `n` is at or after `n`, and is
/// `n` where one of them is.
proof fn lemma_earliest_at_or_after(a: Option<int>, b: Option<int>, n: int)
    requires
        at_or_after(a, n),
        at_or_after(b, n),
    ensures
        at_or_after(earliest(a, b), n),
        a == Some(n) || b == Some(n) ==> earliest(a, b) == Some(n),
{
}

/// In a release followed by anything the earliest pre-release marker
/// stands where the release ends or later, and where it ends if the rest
/// starts with a pre-release.
proof fn lemma_prerelease_after_release(release: Seq<char>, rest: Seq<char>)
    requires
        is_release_text(release),
    ensures
        at_or_after(earliest_prerelease_marker(release + rest), release.len() as int),
        starts_prerelease(rest) ==> earliest_prerelease_marker(release + rest) == Some(
            release.len() as int,
        ),
{
    let s = release + rest;
    let n = release.len() as int;
    lemma_marker_shapes();
    lemma_marker_after_release(release, rest, "alpha"@);
    lemma_marker_after_release(release, rest, "beta"@);
    lemma_marker_after_release(release, rest, "preview"@);
    lemma_marker_after_release(release, rest, "rc"@);
    lemma_marker_after_release(release, rest, "a"@);
    lemma_marker_after_release(release, rest, "b"@);
    lemma_marker_after_release(release, rest, "c"@);
    let e1 = earliest(marker_at(s, "alpha"@), marker_at(s, "beta"@));
    lemma_earliest_at_or_after(marker_at(s, "alpha"@), marker_at(s, "beta"@), n);
    let e2 = earliest(e1, marker_at(s, "preview"@));
    lemma_earliest_at_or_after(e1, marker_at(s, "preview"@), n);
    let e3 = earliest(e2, marker_at(s, "rc"@));
    lemma_earliest_at_or_after(e2, marker_at(s, "rc"@), n);
    let e4 = earliest(e3, marker_at(s, "a"@));
    lemma_earliest_at_or_after(e3, marker_at(s, "a"@), n);
    let e5 = earliest(e4, marker_at(s, "b"@));
    lemma_earliest_at_or_after(e4, marker_at(s, "b"@), n);
    lemma_earliest_at_or_after(e5, marker_at(s, "c"@), n);
}

/// In a release followed by anything, `post` and `dev` in either spelling
/// stand where the release ends or later.
proof fn lemma_post_dev_after_release(release: Seq<char>, rest: Seq<char>)
    requires
        is_release_text(release),
    ensures
        at_or_after(find(release + rest, ".post"@), release.len() as int),
        at_or_after(find(release + rest, ".dev"@), release.len() as int),
        at_or_after(marker_at(release + rest, ".post"@), release.len() as int),
        at_or_after(marker_at(release + rest, ".dev"@), release.len() as int),
        at_or_after(marker_at(release + rest, "post"@), release.len() as int),
        at_or_after(marker_at(release + rest, "dev"@), release.len() as int),
        starts_with(rest, ".post"@) ==> find(release + rest, ".post"@) == Some(
            release.len() as int,
        ) && marker_at(release + rest, ".post"@) == Some(release.len() as int),
        starts_with(rest, ".dev"@) ==> find(release + rest, ".dev"@) == Some(release.len() as int)
            && marker_at(release + rest, ".dev"@) == Some(release.len() as int),
        starts_with(rest, "post"@) ==> marker_at(release + rest, "post"@) == Some(
            release.len() as int,
        ),
        starts_with(rest, "dev"@) ==> marker_at(release + rest, "dev"@) == Some(
            release.len() as int,
        ),
{
    lemma_marker_shapes();
    lemma_marker_after_release(release, rest, ".post"@);
    lemma_marker_after_release(release, rest, "post"@);
    lemma_marker_after_release(release, rest, ".dev"@);
    lemma_marker_after_release(release, rest, "dev"@);
}

/// In a release followed by a suffix the validator finds the release to
/// end where the suffix begins.
proof fn lemma_suffix_starts_after_release(release: Seq<char>, suffix: Seq<char>)
    requires
        is_release_text(release),
        suffix.len() == 0 || starts_suffix(suffix),
    ensures
        suffix_start(release + suffix) == release.len(),
{
    if suffix.len() == 0 {
        assert(release + suffix =~= release);
        lemma_plain_finds(release);
    } else {
        lemma_prerelease_after_release(release, suffix);
        lemma_post_dev_after_release(release, suffix);
    }
}

/// In a release followed by a suffix, or by a hyphen, the caster finds the
/// release to end where the suffix begins.
proof fn lemma_release_ends_before_suffix(release: Seq<char>, suffix: Seq<char>)
    requires
        is_release_text(release),
        suffix.len() == 0 || starts_suffix(suffix) || starts_with(suffix, "-"@),
    ensures
        release_end(release + suffix) == release.len(),
{
    if suffix.len() == 0 {
        assert(release + suffix =~= release);
        lemma_plain_finds(release);
    } else {
        lemma_prerelease_after_release(release, suffix);
        lemma_post_dev_after_release(release, suffix);
        lemma_marker_shapes();
        lemma_marker_after_release(release, suffix, "-"@);
    }
}

/// The extended grammar accepts a release of digit groups followed by
/// nothing, or by a suffix that starts with a pre-release marker, or with
/// `post` or `dev` written with or without their dot, and that is made of
/// a pre-release, a post-release and a dev-release in this order.
pub proof fn lemma_release_with_suffix_is_valid(release: Seq<char>, suffix: Seq<char>)
    requires
        valid_release(release),
        suffix.len() == 0 || starts_suffix(suffix),
        suffix_leftover(suffix).len() == 0,
    ensures
        main_verdict(release + suffix) is Ok,
{
    lemma_release_shape(release);
    lemma_suffix_starts_after_release(release, suffix);
    lemma_main_verdict_of_parts(release, suffix);
}

/// Casting to the three-component grammar never fails on a release of
/// numbers, whatever suffix follows it: a pre-release in any spelling, a
/// post- or dev-release with or without its dot, or a hyphen and anything.
/// Epoch and local segment are gone before; the cast is the release padded
/// or cut to three pieces.
pub proof fn lemma_cast_drops_any_suffix(low: Seq<char>, release: Seq<char>, suffix: Seq<char>)
    requires
        stripped(low) == release + suffix,
        all_numbers(split(release, '.')),
        suffix.len() == 0 || starts_suffix(suffix) || starts_with(suffix, "-"@),
    ensures
        lowered_simple_cast(low) == Ok::<Seq<char>, Seq<char>>(padded(split(release, '.'))),
        lowered_semver_cast(low) is Ok,
{
    lemma_numbers_are_a_release(release);
    lemma_release_shape(release);
    lemma_release_ends_before_suffix(release, suffix);
    assert((release + suffix).take(release.len() as int) =~= release);
}

} // verus!
