//! URI and path text: directories of URIs, relative paths between them,
//! reference resolution (done by the `iri-string` crate), and sniffing the
//! media type of a payload.
use vstd::prelude::*;
use vstd::string::StrSliceExecFns;
use crate::text::{
    chars_occur_at, chars_of, ends_with, has_suffix, occurs_at, push_chars, push_str, str_equal,
    string_of,
};

verus! {

/// `s` up to and including its last `/` from index `n` down; `s` itself
/// when there is none.
pub open spec fn dir_prefix(s: Seq<char>, n: int) -> Seq<char>
    decreases n,
{
    if n <= 0 {
        s
    } else if s[n - 1] == '/' {
        s.take(n)
    } else {
        dir_prefix(s, n - 1)
    }
}

/// The directory part of a URI: everything up to and including its last
/// `/`, or the whole URI when it has none.
pub open spec fn spec_dir_of(s: Seq<char>) -> Seq<char> {
    dir_prefix(s, s.len() as int)
}

/// Index just past the last `/` of `cs`, 0 when there is none.
fn dir_end(cs: &[char]) -> (r: usize)
    ensures
        r <= cs@.len(),
        r == 0 ==> spec_dir_of(cs@) == cs@,
        r > 0 ==> spec_dir_of(cs@) == cs@.take(r as int),
{
    let mut n = cs.len();
    while n > 0
        invariant
            n <= cs@.len(),
            dir_prefix(cs@, n as int) == dir_prefix(cs@, cs@.len() as int),
        decreases n,
    {
        if cs[n - 1] == '/' {
            return n;
        }
        n = n - 1;
    }
    0
}

/// The directory part of a URI, trailing slash included.
pub fn dir_of(uri: &str) -> (r: &str)
    ensures
        r@ == spec_dir_of(uri@),
{
    let cs = chars_of(uri);
    let end = dir_end(cs.as_slice());
    if end == 0 {
        uri
    } else {
        uri.substring_char(0, end)
    }
}

/// How many non-empty `/`-separated segments `s` has.
pub open spec fn nonempty_segments(s: Seq<char>) -> nat
    decreases s.len(),
{
    if s.len() == 0 {
        0
    } else {
        let starts = s.last() != '/' && (s.len() == 1 || s[s.len() - 2] == '/');
        nonempty_segments(s.drop_last()) + if starts {
            1nat
        } else {
            0nat
        }
    }
}

/// `../` repeated `n` times.
pub open spec fn ups(n: nat) -> Seq<char>
    decreases n,
{
    if n == 0 {
        Seq::empty()
    } else {
        ups((n - 1) as nat) + "../"@
    }
}

/// The path of `target` relative to the directory of `base`, both under
/// `prefix`: one `../` for each directory of `base` below the prefix, then
/// the rest of `target`; `.` when that is empty.
pub open spec fn spec_make_relative(base: Seq<char>, target: Seq<char>, prefix: Seq<char>) -> Seq<
    char,
> {
    let base_rest = spec_dir_of(base).skip(prefix.len() as int);
    let relative = ups(nonempty_segments(base_rest)) + target.skip(prefix.len() as int);
    if relative.len() == 0 {
        "."@
    } else {
        relative
    }
}

/// Counts the non-empty `/`-separated segments of `cs`.
fn count_nonempty_segments(cs: &[char]) -> (r: usize)
    ensures
        r == nonempty_segments(cs@),
{
    let mut count: usize = 0;
    let mut i: usize = 0;
    while i < cs.len()
        invariant
            i <= cs@.len(),
            count == nonempty_segments(cs@.take(i as int)),
            count <= i,
        decreases cs@.len() - i,
    {
        let starts = cs[i] != '/' && (i == 0 || cs[i - 1] == '/');
        assert(cs@.take(i + 1).drop_last() =~= cs@.take(i as int));
        if starts {
            count = count + 1;
        }
        i = i + 1;
    }
    assert(cs@.take(cs@.len() as int) =~= cs@);
    count
}

/// The path of `target` relative to the directory of `base`, where both
/// start with `prefix`, the directory they share (with its trailing
/// slash). Positions are counted in characters, which for URIs (ASCII) are
/// bytes.
pub fn make_relative(base: &str, target: &str, prefix: &str) -> (r: String)
    requires
        prefix@.len() <= spec_dir_of(base@).len(),
        prefix@.len() <= target@.len(),
    ensures
        r@ == spec_make_relative(base@, target@, prefix@),
{
    let base_dir = chars_of(dir_of(base));
    let target_chars = chars_of(target);
    let p = prefix.unicode_len();
    let base_rest = vstd::slice::slice_subrange(base_dir.as_slice(), p, base_dir.len());
    let target_rest = vstd::slice::slice_subrange(target_chars.as_slice(), p, target_chars.len());
    let up_count = count_nonempty_segments(base_rest);
    assert(base_rest@ =~= spec_dir_of(base@).skip(prefix@.len() as int));
    assert(target_rest@ =~= target@.skip(prefix@.len() as int));
    let mut relative = String::new();
    let mut k: usize = 0;
    while k < up_count
        invariant
            k <= up_count,
            relative@ == ups(k as nat),
        decreases up_count - k,
    {
        push_str(&mut relative, "../");
        k = k + 1;
    }
    let rest = string_of(target_rest);
    push_str(&mut relative, rest.as_str());
    if relative.unicode_len() == 0 {
        let mut dot = String::new();
        push_str(&mut dot, ".");
        return dot;
    }
    relative
}

/// The media type of a payload: binary glTF when it starts with `glTF`,
/// JSON when its first non-whitespace byte (or its first byte, when all are
/// whitespace) is `{`, and opaque bytes otherwise.
pub open spec fn spec_sniff_content_type(bytes: Seq<u8>) -> Seq<char> {
    if bytes.len() >= 4 && bytes.take(4) == seq![0x67u8, 0x6Cu8, 0x54u8, 0x46u8] {
        "model/gltf-binary"@
    } else {
        let t = first_non_whitespace(bytes, 0);
        if t < bytes.len() && bytes[t] == 0x7Bu8 {
            "application/json"@
        } else {
            "application/octet-stream"@
        }
    }
}

/// Whether `b` is ASCII whitespace: space, tab, line feed, form feed or
/// carriage return.
pub open spec fn is_ascii_whitespace(b: u8) -> bool {
    b == 0x20 || b == 0x09 || b == 0x0A || b == 0x0C || b == 0x0D
}

/// The index of the first non-whitespace byte at or after `i`; 0 when
/// there is none.
pub open spec fn first_non_whitespace(bytes: Seq<u8>, i: int) -> int
    decreases bytes.len() - i,
{
    if i >= bytes.len() || i < 0 {
        0
    } else if !is_ascii_whitespace(bytes[i]) {
        i
    } else {
        first_non_whitespace(bytes, i + 1)
    }
}

/// Tests `is_ascii_whitespace`.
fn whitespace_byte(b: u8) -> (r: bool)
    ensures
        r == is_ascii_whitespace(b),
{
    b == 0x20 || b == 0x09 || b == 0x0A || b == 0x0C || b == 0x0D
}

/// The media type to serve a payload with.
pub fn sniff_content_type(bytes: &[u8]) -> (r: &'static str)
    ensures
        r@ == spec_sniff_content_type(bytes@),
{
    if bytes.len() >= 4 && bytes[0] == 0x67u8 && bytes[1] == 0x6Cu8 && bytes[2] == 0x54u8
        && bytes[3] == 0x46u8 {
        assert(bytes@.take(4) =~= seq![0x67u8, 0x6Cu8, 0x54u8, 0x46u8]);
        return "model/gltf-binary";
    }
    assert(bytes@.len() >= 4 ==> bytes@.take(4) != seq![0x67u8, 0x6Cu8, 0x54u8, 0x46u8]) by {
        if bytes@.len() >= 4 && bytes@.take(4) == seq![0x67u8, 0x6Cu8, 0x54u8, 0x46u8] {
            assert(bytes@.take(4)[0] == bytes@[0]);
            assert(bytes@.take(4)[1] == bytes@[1]);
            assert(bytes@.take(4)[2] == bytes@[2]);
            assert(bytes@.take(4)[3] == bytes@[3]);
        }
    }
    let mut i: usize = 0;
    while i < bytes.len() && whitespace_byte(bytes[i])
        invariant
            i <= bytes@.len(),
            first_non_whitespace(bytes@, 0) == first_non_whitespace(bytes@, i as int),
        decreases bytes@.len() - i,
    {
        i = i + 1;
    }
    let t: usize = if i < bytes.len() {
        i
    } else {
        0
    };
    if t < bytes.len() && bytes[t] == 0x7Bu8 {
        "application/json"
    } else {
        "application/octet-stream"
    }
}

/// What the `iri-string` crate resolves `reference` to against the absolute
/// URI `base` (RFC 3986 section 5); none when `base` is not an absolute URI
/// or `reference` not a URI reference.
pub uninterp spec fn uri_resolution(base: Seq<char>, reference: Seq<char>) -> Option<Seq<char>>;

/// The same resolution followed by the crate's normalization (case,
/// percent-encoding and dot segments).
pub uninterp spec fn uri_normalized_resolution(base: Seq<char>, reference: Seq<char>) -> Option<
    Seq<char>,
>;

/// What the crate resolves a relative reference to against an absolute
/// URI; none when `base` is not an absolute URI or `relative` not a
/// relative reference.
pub uninterp spec fn uri_relative_resolution(base: Seq<char>, relative: Seq<char>) -> Option<
    Seq<char>,
>;

/// Whether the crate accepts `s` as an absolute URI (a scheme, no
/// fragment).
pub uninterp spec fn is_absolute_uri(s: Seq<char>) -> bool;

/// The path component of an absolute URI, as the crate parses it.
pub uninterp spec fn absolute_uri_path(s: Seq<char>) -> Option<Seq<char>>;

/// `UriReferenceStr::resolve_against`, written out with `to_string`.
#[verifier::external_body]
pub(crate) fn resolve_reference(base: &str, reference: &str) -> (r: Option<String>)
    ensures
        r matches Some(s) ==> uri_resolution(base@, reference@) == Some(s@),
        r is None ==> uri_resolution(base@, reference@) is None,
{
    let base = iri_string::types::UriAbsoluteStr::new(base).ok()?;
    let reference = iri_string::types::UriReferenceStr::new(reference).ok()?;
    Some(reference.resolve_against(base).to_string())
}

/// `UriReferenceStr::resolve_against` followed by `and_normalize`.
#[verifier::external_body]
pub(crate) fn resolve_reference_normalized(base: &str, reference: &str) -> (r: Option<String>)
    ensures
        r matches Some(s) ==> uri_normalized_resolution(base@, reference@) == Some(s@),
        r is None ==> uri_normalized_resolution(base@, reference@) is None,
{
    let base = iri_string::types::UriAbsoluteStr::new(base).ok()?;
    let reference = iri_string::types::UriReferenceStr::new(reference).ok()?;
    Some(reference.resolve_against(base).and_normalize().to_string())
}

/// `UriRelativeStr::resolve_against`, written out with `to_string`.
#[verifier::external_body]
pub(crate) fn resolve_relative(base: &str, relative: &str) -> (r: Option<String>)
    ensures
        r matches Some(s) ==> uri_relative_resolution(base@, relative@) == Some(s@),
        r is None ==> uri_relative_resolution(base@, relative@) is None,
{
    let base = iri_string::types::UriAbsoluteStr::new(base).ok()?;
    let relative = iri_string::types::UriRelativeStr::new(relative).ok()?;
    Some(relative.resolve_against(base).to_string())
}

/// `UriAbsoluteStr::new` succeeds.
#[verifier::external_body]
pub(crate) fn check_absolute_uri(s: &str) -> (r: bool)
    ensures
        r == is_absolute_uri(s@),
{
    iri_string::types::UriAbsoluteStr::new(s).is_ok()
}

/// `UriAbsoluteStr::path_str` of `s`; none when `s` is not an absolute URI.
#[verifier::external_body]
pub(crate) fn absolute_path_of(s: &str) -> (r: Option<String>)
    ensures
        r matches Some(p) ==> absolute_uri_path(s@) == Some(p@),
        r is None ==> absolute_uri_path(s@) is None,
{
    iri_string::types::UriAbsoluteStr::new(s).ok().map(|u| u.path_str().to_string())
}

/// The separator between an archive's path and a member's path: `.3tz/`.
pub open spec fn archive_separator() -> Seq<char> {
    ".3tz/"@
}

/// Splits a path at the first `.3tz/` into the archive's path (ending in
/// `.3tz`) and the member's path within it; `None` when the path names no
/// archive member.
pub fn split_archive_path(path: &str) -> (r: Option<(String, String)>)
    ensures
        r is None ==> forall|i: int| !occurs_at(path@, i, archive_separator()),
        r matches Some((archive, member)) ==> {
            let i = archive@.len() - 4;
            &&& occurs_at(path@, i, archive_separator())
            &&& forall|j: int| 0 <= j < i ==> !occurs_at(path@, j, archive_separator())
            &&& archive@ == path@.subrange(0, i + 4)
            &&& member@ == path@.subrange(i + 5, path@.len() as int)
        },
{
    proof {
        reveal_strlit(".3tz/");
    }
    let cs = chars_of(path);
    let sep = chars_of(".3tz/");
    let n = cs.len();
    let mut i: usize = 0;
    while i < n
        invariant
            cs@ == path@,
            sep@ == archive_separator(),
            sep@.len() == 5,
            n == cs@.len(),
            i <= n,
            forall|j: int| 0 <= j < i ==> !occurs_at(path@, j, archive_separator()),
        decreases n - i,
    {
        if chars_occur_at(cs.as_slice(), i, sep.as_slice()) {
            let archive = string_of(vstd::slice::slice_subrange(cs.as_slice(), 0, i + 4));
            let member = string_of(vstd::slice::slice_subrange(cs.as_slice(), i + 5, n));
            return Some((archive, member));
        }
        i = i + 1;
    }
    assert forall|j: int| !occurs_at(path@, j, archive_separator()) by {
        if 0 <= j && j >= n {
            assert(j + 5 > path@.len());
        }
    }
    None
}

/// Why a reference cannot be resolved to an absolute URI.
#[derive(Clone, Copy, Debug, PartialEq, Eq, Structural)]
pub enum UriError {
    /// The base is not an absolute URI or the reference is malformed.
    Unresolvable,
    /// The resolved URI is not an absolute URI.
    NotAbsolute,
}

/// `reference` resolved against `base` and normalized, when the result is
/// an absolute URI.
pub fn resolve_uri(base: &str, reference: &str) -> (r: Result<String, UriError>)
    ensures
        match uri_normalized_resolution(base@, reference@) {
            None => r == Err::<String, UriError>(UriError::Unresolvable),
            Some(s) => if is_absolute_uri(s) {
                r matches Ok(u) && u@ == s
            } else {
                r == Err::<String, UriError>(UriError::NotAbsolute)
            },
        },
{
    match resolve_reference_normalized(base, reference) {
        None => Err(UriError::Unresolvable),
        Some(s) => if check_absolute_uri(s.as_str()) {
            Ok(s)
        } else {
            Err(UriError::NotAbsolute)
        },
    }
}

/// Whether a model is binary glTF: its URI's path ends in `.glb` or its
/// bytes start with the `glTF` magic.
pub fn is_model_glb(uri: &str, bytes: &[u8]) -> (r: bool)
    ensures
        r == ((absolute_uri_path(uri@) matches Some(p) && has_suffix(p, ".glb"@)) || (bytes@.len()
            >= 4 && bytes@.take(4) == seq![0x67u8, 0x6Cu8, 0x54u8, 0x46u8])),
{
    let by_path = match absolute_path_of(uri) {
        Some(p) => ends_with(p.as_str(), ".glb"),
        None => false,
    };
    let by_magic = bytes.len() >= 4 && bytes[0] == 0x67u8 && bytes[1] == 0x6Cu8 && bytes[2]
        == 0x54u8 && bytes[3] == 0x46u8;
    proof {
        if bytes@.len() >= 4 {
            if bytes@.take(4) == seq![0x67u8, 0x6Cu8, 0x54u8, 0x46u8] {
                assert(bytes@.take(4)[0] == bytes@[0]);
                assert(bytes@.take(4)[1] == bytes@[1]);
                assert(bytes@.take(4)[2] == bytes@[2]);
                assert(bytes@.take(4)[3] == bytes@[3]);
            }
            if by_magic {
                assert(bytes@.take(4) =~= seq![0x67u8, 0x6Cu8, 0x54u8, 0x46u8]);
            }
        }
    }
    by_path || by_magic
}

/// `s` cut at every `/` (`str::split('/')`): empty text gives one empty
/// segment.
pub open spec fn split_slash(s: Seq<char>) -> Seq<Seq<char>>
    decreases s.len(),
{
    if s.len() == 0 {
        seq![Seq::empty()]
    } else {
        let init = split_slash(s.drop_last());
        if s.last() == '/' {
            init.push(Seq::empty())
        } else {
            init.drop_last().push(init.last().push(s.last()))
        }
    }
}

/// Segments joined with `/`.
pub open spec fn join_slash(segs: Seq<Seq<char>>) -> Seq<char>
    decreases segs.len(),
{
    if segs.len() == 0 {
        Seq::empty()
    } else if segs.len() == 1 {
        segs[0]
    } else {
        join_slash(segs.drop_last()) + "/"@ + segs.last()
    }
}

/// How many leading segments two segment lists share.
pub open spec fn shared_segments(a: Seq<Seq<char>>, b: Seq<Seq<char>>) -> nat
    decreases a.len(),
{
    if a.len() == 0 || b.len() == 0 || a[0] != b[0] {
        0
    } else {
        1 + shared_segments(a.drop_first(), b.drop_first())
    }
}

/// `resolved` relative to the directory of `base`: its segments after the
/// ones it shares with that directory, joined with `/`.
pub open spec fn spec_relative_to_base_dir(resolved: Seq<char>, base: Seq<char>) -> Seq<char> {
    let r = split_slash(resolved);
    join_slash(r.skip(shared_segments(split_slash(spec_dir_of(base)), r) as int))
}

proof fn lemma_split_nonempty(s: Seq<char>)
    ensures
        split_slash(s).len() >= 1,
    decreases s.len(),
{
    if s.len() > 0 {
        lemma_split_nonempty(s.drop_last());
    }
}

/// The views of character vectors.
pub open spec fn segs_view(v: Seq<Vec<char>>) -> Seq<Seq<char>> {
    v.map_values(|x: Vec<char>| x@)
}

/// Splits characters at every `/`.
fn split_chars(cs: &[char]) -> (r: Vec<Vec<char>>)
    ensures
        segs_view(r@) == split_slash(cs@),
{
    let mut done: Vec<Vec<char>> = Vec::new();
    let mut cur: Vec<char> = Vec::new();
    let mut i: usize = 0;
    assert(cs@.take(0) =~= Seq::<char>::empty());
    assert(segs_view(done@).push(cur@) =~= split_slash(cs@.take(0)));
    while i < cs.len()
        invariant
            i <= cs@.len(),
            segs_view(done@).push(cur@) == split_slash(cs@.take(i as int)),
        decreases cs@.len() - i,
    {
        let c = cs[i];
        assert(cs@.take(i + 1).drop_last() =~= cs@.take(i as int));
        if c == '/' {
            let ghost before = done@;
            let finished = cur;
            done.push(finished);
            cur = Vec::new();
            assert(segs_view(done@).push(cur@) =~= segs_view(before).push(finished@).push(
                Seq::empty(),
            ));
        } else {
            let ghost before_cur = cur@;
            cur.push(c);
            assert(segs_view(done@).push(cur@) =~= segs_view(done@).push(before_cur).drop_last().push(
                before_cur.push(c),
            ));
        }
        i = i + 1;
    }
    assert(cs@.take(cs@.len() as int) =~= cs@);
    let ghost before = done@;
    done.push(cur);
    assert(segs_view(done@) =~= segs_view(before).push(cur@));
    done
}

/// `resolved` made relative to the directory of `base_uri`: the segments of
/// `resolved` after those it shares, position by position, with that
/// directory.
pub fn uri_relative_to_base_dir(resolved: &str, base_uri: &str) -> (r: String)
    ensures
        r@ == spec_relative_to_base_dir(resolved@, base_uri@),
{
    let base_dir = chars_of(dir_of(base_uri));
    let base_segments = split_chars(base_dir.as_slice());
    let resolved_chars = chars_of(resolved);
    let resolved_segments = split_chars(resolved_chars.as_slice());
    let ghost bs = segs_view(base_segments@);
    let ghost rs = segs_view(resolved_segments@);
    let mut d: usize = 0;
    assert(bs.skip(0) =~= bs && rs.skip(0) =~= rs);
    while d < base_segments.len() && d < resolved_segments.len() && vec_chars_equal(
        &base_segments[d],
        &resolved_segments[d],
    )
        invariant
            bs == segs_view(base_segments@),
            rs == segs_view(resolved_segments@),
            d <= bs.len(),
            d <= rs.len(),
            shared_segments(bs, rs) == d + shared_segments(bs.skip(d as int), rs.skip(d as int)),
        decreases bs.len() - d,
    {
        assert(bs.skip(d as int).drop_first() =~= bs.skip(d + 1));
        assert(rs.skip(d as int).drop_first() =~= rs.skip(d + 1));
        assert(bs.skip(d as int)[0] == bs[d as int]);
        assert(rs.skip(d as int)[0] == rs[d as int]);
        d = d + 1;
    }
    proof {
        if d < bs.len() && d < rs.len() {
            assert(bs.skip(d as int)[0] == bs[d as int]);
            assert(rs.skip(d as int)[0] == rs[d as int]);
        }
    }
    let ghost tail = rs.skip(d as int);
    let mut out = String::new();
    let mut k: usize = d;
    while k < resolved_segments.len()
        invariant
            rs == segs_view(resolved_segments@),
            d <= k <= rs.len(),
            tail == rs.skip(d as int),
            out@ == join_slash(tail.take(k - d)),
        decreases rs.len() - k,
    {
        assert(tail.take(k + 1 - d).drop_last() =~= tail.take(k - d));
        if k > d {
            push_str(&mut out, "/");
        }
        push_chars(&mut out, resolved_segments[k].as_slice());
        k = k + 1;
        proof {
            assert(tail.take(k - d).last() == rs[k - 1]);
            if k - d == 1 {
                assert(out@ =~= join_slash(tail.take(k - d)));
            } else {
                assert(out@ =~= join_slash(tail.take(k - d)));
            }
        }
    }
    assert(tail.take(rs.len() - d) =~= tail);
    out
}

/// Joining the segments of a text gives the text back.
proof fn lemma_join_split(s: Seq<char>)
    ensures
        join_slash(split_slash(s)) == s,
    decreases s.len(),
{
    reveal_strlit("/");
    if s.len() == 0 {
        assert(join_slash(split_slash(s)) =~= s);
    } else {
        let d = s.drop_last();
        let c = s.last();
        lemma_join_split(d);
        lemma_split_nonempty(d);
        let x = split_slash(d);
        if c == '/' {
            assert(x.push(Seq::<char>::empty()).drop_last() =~= x);
            assert(join_slash(x.push(Seq::<char>::empty())) =~= d + "/"@ + Seq::<char>::empty());
            assert(d + "/"@ =~= s);
        } else {
            let y = x.drop_last().push(x.last().push(c));
            if x.len() == 1 {
                assert(y[0] == x[0].push(c));
                assert(join_slash(x) == x[0]);
                assert(s =~= d.push(c));
            } else {
                assert(y.drop_last() =~= x.drop_last());
                assert(join_slash(y) =~= join_slash(x.drop_last()) + "/"@ + x.last().push(c));
                assert(join_slash(x) == join_slash(x.drop_last()) + "/"@ + x.last());
                assert(join_slash(y) =~= join_slash(x).push(c));
                assert(s =~= d.push(c));
            }
        }
    }
}

/// Segments of a text that follows a directory: the directory's segments
/// but its trailing empty one, then the text's own.
proof fn lemma_split_append(a: Seq<char>, b: Seq<char>)
    requires
        a.len() > 0,
        a.last() == '/',
    ensures
        split_slash(a + b) == split_slash(a).drop_last() + split_slash(b),
    decreases b.len(),
{
    lemma_split_nonempty(a.drop_last());
    if b.len() == 0 {
        assert(a + b =~= a);
        assert(split_slash(a) == split_slash(a.drop_last()).push(Seq::<char>::empty()));
        assert(split_slash(a).drop_last() + split_slash(b) =~= split_slash(a));
    } else {
        let bd = b.drop_last();
        let c = b.last();
        lemma_split_append(a, bd);
        lemma_split_nonempty(bd);
        let p = split_slash(a).drop_last();
        let q = split_slash(bd);
        assert((a + b).drop_last() =~= a + bd);
        assert((a + b).last() == c);
        if c == '/' {
            assert((p + q).push(Seq::<char>::empty()) =~= p + q.push(Seq::<char>::empty()));
        } else {
            assert((p + q).drop_last().push((p + q).last().push(c)) =~= p + q.drop_last().push(
                q.last().push(c),
            ));
        }
    }
}

/// A directory's segments are shared, but for its trailing empty one, with
/// a list that continues them with a non-empty segment.
proof fn lemma_shared_dir(x: Seq<Seq<char>>, y: Seq<Seq<char>>)
    requires
        x.len() > 0,
        x.last() == Seq::<char>::empty(),
        y.len() > 0,
        y[0].len() > 0,
    ensures
        shared_segments(x, x.drop_last() + y) == x.len() - 1,
    decreases x.len(),
{
    let z = x.drop_last() + y;
    if x.len() == 1 {
        assert(z =~= y);
        assert(x[0] != y[0]);
    } else {
        assert(z[0] == x[0]);
        assert(z.drop_first() =~= x.drop_first().drop_last() + y);
        assert(x.drop_first().last() == x.last());
        lemma_shared_dir(x.drop_first(), y);
    }
}

/// The first segment of a text that starts with something other than `/`
/// is not empty.
proof fn lemma_first_segment(s: Seq<char>)
    requires
        s.len() > 0,
        s[0] != '/',
    ensures
        split_slash(s)[0].len() > 0,
    decreases s.len(),
{
    let d = s.drop_last();
    lemma_split_nonempty(d);
    if d.len() == 0 {
        assert(s.last() == s[0]);
        assert(split_slash(d) =~= seq![Seq::<char>::empty()]);
    } else {
        assert(d[0] == s[0]);
        lemma_first_segment(d);
        let x = split_slash(d);
        if s.last() != '/' && x.len() == 1 {
            assert(split_slash(s)[0] == x.last().push(s.last()));
        } else if s.last() != '/' {
            assert(split_slash(s)[0] == x[0]);
        } else {
            assert(split_slash(s)[0] == x[0]);
        }
    }
}

/// The directory of a text that holds a `/` ends with `/`.
proof fn lemma_dir_ends_with_slash(s: Seq<char>, n: int)
    requires
        0 <= n <= s.len(),
        exists|i: int| 0 <= i < n && s[i] == '/',
    ensures
        dir_prefix(s, n).len() > 0,
        dir_prefix(s, n).last() == '/',
    decreases n,
{
    if s[n - 1] != '/' {
        let i = choose|i: int| 0 <= i < n && s[i] == '/';
        assert(i < n - 1);
        lemma_dir_ends_with_slash(s, n - 1);
    }
}

/// A URI inside the directory of `base` comes out as its path below that
/// directory: for `rest` non-empty and not starting with `/`,
/// `uri_relative_to_base_dir(dir_of(base) + rest, base)` is `rest`.
pub proof fn lemma_relative_to_base_dir_of_child(base: Seq<char>, rest: Seq<char>)
    requires
        base.contains('/'),
        rest.len() > 0,
        rest[0] != '/',
    ensures
        spec_relative_to_base_dir(spec_dir_of(base) + rest, base) == rest,
{
    lemma_dir_ends_with_slash(base, base.len() as int);
    let d = spec_dir_of(base);
    lemma_split_append(d, rest);
    lemma_split_nonempty(d.drop_last());
    let x = split_slash(d);
    let y = split_slash(rest);
    lemma_split_nonempty(rest);
    lemma_first_segment(rest);
    assert(x == split_slash(d.drop_last()).push(Seq::<char>::empty()));
    lemma_shared_dir(x, y);
    assert((x.drop_last() + y).skip(x.len() - 1) =~= y);
    lemma_join_split(rest);
}

/// Whether two character vectors are equal.
fn vec_chars_equal(a: &Vec<char>, b: &Vec<char>) -> (r: bool)
    ensures
        r == (a@ == b@),
{
    if a.len() != b.len() {
        return false;
    }
    let r = chars_occur_at(a.as_slice(), 0, b.as_slice());
    assert(r == (a@ == b@)) by {
        assert(a@.subrange(0, b@.len() as int) =~= a@);
    }
    r
}

/// The URIs of a list with later repeats left out, first occurrences in
/// order.
pub open spec fn first_occurrences(s: Seq<Seq<char>>) -> Seq<Seq<char>>
    decreases s.len(),
{
    if s.len() == 0 {
        Seq::empty()
    } else {
        let init = first_occurrences(s.drop_last());
        if s.drop_last().contains(s.last()) {
            init
        } else {
            init.push(s.last())
        }
    }
}

/// A text is among the first occurrences exactly when it is in the list.
proof fn lemma_first_occurrences_contains(s: Seq<Seq<char>>, x: Seq<char>)
    ensures
        s.contains(x) <==> first_occurrences(s).contains(x),
    decreases s.len(),
{
    if s.len() > 0 {
        let d = s.drop_last();
        lemma_first_occurrences_contains(d, x);
        let init = first_occurrences(d);
        let last = s.last();
        let fo = first_occurrences(s);
        assert(fo == if d.contains(last) {
            init
        } else {
            init.push(last)
        });
        if d.contains(x) {
            let m = choose|m: int| 0 <= m < d.len() && d[m] == x;
            assert(s[m] == x);
            assert(s.contains(x));
            assert(init.contains(x));
            let k = choose|k: int| 0 <= k < init.len() && init[k] == x;
            assert(init.push(last)[k] == x);
            assert(fo.contains(x));
        } else if x == last {
            assert(s[s.len() - 1] == x);
            assert(s.contains(x));
            assert(init.push(last)[init.len() as int] == x);
            assert(fo.contains(x));
        } else {
            assert(!s.contains(x)) by {
                if s.contains(x) {
                    let m = choose|m: int| 0 <= m < s.len() && s[m] == x;
                    if m < s.len() - 1 {
                        assert(d[m] == x);
                    }
                }
            }
            assert(!init.contains(x));
            assert(!fo.contains(x)) by {
                if fo.contains(x) {
                    let m = choose|m: int| 0 <= m < fo.len() && fo[m] == x;
                    if !d.contains(last) && m == init.len() {
                        assert(fo[m] == last);
                    } else {
                        assert(init[m] == x);
                    }
                }
            }
        }
    }
}

/// The distinct URIs of a list, each at its first occurrence.
pub fn unique_in_order(uris: &[String]) -> (r: Vec<String>)
    ensures
        r@.map_values(|s: String| s@) == first_occurrences(uris@.map_values(|s: String| s@)),
{
    let ghost all = uris@.map_values(|s: String| s@);
    let mut out: Vec<String> = Vec::new();
    let mut i: usize = 0;
    while i < uris.len()
        invariant
            all == uris@.map_values(|s: String| s@),
            i <= uris@.len(),
            out@.map_values(|s: String| s@) == first_occurrences(all.take(i as int)),
        decreases uris@.len() - i,
    {
        let ghost prefix = all.take(i as int);
        assert(all.take(i + 1).drop_last() =~= prefix);
        assert(all.take(i + 1).last() == uris@[i as int]@);
        let mut seen = false;
        let mut j: usize = 0;
        while j < out.len()
            invariant
                i < uris@.len(),
                j <= out@.len(),
                seen <==> exists|m: int| 0 <= m < j && #[trigger] out@[m]@ == uris@[i as int]@,
            decreases out@.len() - j,
        {
            if str_equal(out[j].as_str(), uris[i].as_str()) {
                seen = true;
            }
            j = j + 1;
        }
        proof {
            let ov = out@.map_values(|s: String| s@);
            lemma_first_occurrences_contains(prefix, uris@[i as int]@);
            if seen {
                let m = choose|m: int| 0 <= m < out@.len() && #[trigger] out@[m]@ == uris@[i as int]@;
                assert(ov[m] == uris@[i as int]@);
                assert(ov.contains(uris@[i as int]@));
            } else {
                assert(!ov.contains(uris@[i as int]@)) by {
                    if ov.contains(uris@[i as int]@) {
                        let m = choose|m: int| 0 <= m < ov.len() && ov[m] == uris@[i as int]@;
                        assert(out@[m]@ == uris@[i as int]@);
                    }
                }
            }
        }
        if !seen {
            let ghost before = out@;
            out.push(uris[i].clone());
            assert(out@.map_values(|s: String| s@) =~= before.map_values(|s: String| s@).push(
                uris@[i as int]@,
            ));
        }
        i = i + 1;
    }
    assert(all.take(uris@.len() as int) =~= all);
    out
}

/// Why an image URI cannot be rewritten.
#[derive(Clone, Copy, Debug, PartialEq, Eq, Structural)]
pub enum RewriteError {
    /// The image URI is not a URI reference.
    Unresolvable,
    /// The resolved image URI is not an absolute URI.
    NotAbsolute,
    /// The GeoJSON's directory or the image lies outside the content root.
    OutsideRoot,
}

/// What `rewrite_image_uri` gives.
pub open spec fn spec_rewrite_image_uri(
    image_uri: Seq<char>,
    model_uri: Seq<char>,
    content_root_uri: Seq<char>,
    content_geojson_uri: Seq<char>,
) -> Result<Seq<char>, RewriteError> {
    match uri_normalized_resolution(model_uri, image_uri) {
        None => Err(RewriteError::Unresolvable),
        Some(abs) => if !is_absolute_uri(abs) {
            Err(RewriteError::NotAbsolute)
        } else {
            let prefix = spec_dir_of(content_root_uri);
            if prefix.len() > spec_dir_of(content_geojson_uri).len() || prefix.len() > abs.len() {
                Err(RewriteError::OutsideRoot)
            } else {
                Ok(spec_make_relative(content_geojson_uri, abs, prefix))
            }
        },
    }
}

/// Rewrites a URI that a model at `model_uri` refers to so that it is
/// relative to the GeoJSON file at `content_geojson_uri`, both served from
/// under the directory of `content_root_uri`.
pub fn rewrite_image_uri(
    image_uri: &str,
    model_uri: &str,
    content_root_uri: &str,
    content_geojson_uri: &str,
) -> (r: Result<String, RewriteError>)
    ensures
        match (r, spec_rewrite_image_uri(image_uri@, model_uri@, content_root_uri@, content_geojson_uri@)) {
            (Ok(a), Ok(b)) => a@ == b,
            (Err(e), Err(f)) => e == f,
            _ => false,
        },
{
    let abs = match resolve_reference_normalized(model_uri, image_uri) {
        Some(a) => a,
        None => {
            return Err(RewriteError::Unresolvable);
        },
    };
    if !check_absolute_uri(abs.as_str()) {
        return Err(RewriteError::NotAbsolute);
    }
    let prefix = dir_of(content_root_uri);
    let p = prefix.unicode_len();
    if p > dir_of(content_geojson_uri).unicode_len() || p > abs.as_str().unicode_len() {
        return Err(RewriteError::OutsideRoot);
    }
    Ok(make_relative(content_geojson_uri, abs.as_str(), prefix))
}

/// Rewrites the URI of every image that has one, as `rewrite_image_uri`
/// does; on an error the images are left as they were.
pub fn rewrite_uris_for_combining(
    images: &mut Vec<crate::gltf_types::Image>,
    content_root_uri: &str,
    content_geojson_uri: &str,
    model_uri: &str,
) -> (r: Result<(), RewriteError>)
    ensures
        final(images)@.len() == old(images)@.len(),
        r is Ok <==> forall|k: int|
            0 <= k < old(images)@.len() ==> ((#[trigger] old(images)@[k]).uri matches Some(u)
                ==> spec_rewrite_image_uri(u@, model_uri@, content_root_uri@, content_geojson_uri@)
                is Ok),
        r is Err ==> final(images)@ == old(images)@,
        r is Ok ==> forall|k: int|
            0 <= k < old(images)@.len() ==> {
                &&& (#[trigger] final(images)@[k]).mime_type == old(images)@[k].mime_type
                &&& final(images)@[k].buffer_view == old(images)@[k].buffer_view
                &&& final(images)@[k].name == old(images)@[k].name
                &&& match old(images)@[k].uri {
                    None => final(images)@[k].uri is None,
                    Some(u) => final(images)@[k].uri matches Some(v) && Ok::<Seq<char>, RewriteError>(v@)
                        == spec_rewrite_image_uri(
                        u@,
                        model_uri@,
                        content_root_uri@,
                        content_geojson_uri@,
                    ),
                }
            },
{
    let n = images.len();
    let mut rewritten: Vec<Option<String>> = Vec::new();
    let mut k: usize = 0;
    while k < n
        invariant
            n == images@.len(),
            k <= n,
            rewritten@.len() == k,
            forall|m: int|
                0 <= m < k ==> match (#[trigger] images@[m]).uri {
                    None => rewritten@[m] is None,
                    Some(u) => rewritten@[m] matches Some(v) && Ok::<Seq<char>, RewriteError>(v@)
                        == spec_rewrite_image_uri(
                        u@,
                        model_uri@,
                        content_root_uri@,
                        content_geojson_uri@,
                    ),
                },
        decreases n - k,
    {
        match &images[k].uri {
            None => {
                rewritten.push(None);
            },
            Some(u) => match rewrite_image_uri(
                u.as_str(),
                model_uri,
                content_root_uri,
                content_geojson_uri,
            ) {
                Ok(v) => {
                    rewritten.push(Some(v));
                },
                Err(e) => {
                    assert(old(images)@[k as int].uri matches Some(u) && spec_rewrite_image_uri(
                        u@,
                        model_uri@,
                        content_root_uri@,
                        content_geojson_uri@,
                    ) is Err);
                    return Err(e);
                },
            },
        }
        k = k + 1;
    }
    let ghost orig = images@;
    let mut j: usize = 0;
    while j < n
        invariant
            n == orig.len(),
            images@.len() == n,
            rewritten@.len() == n,
            j <= n,
            forall|m: int|
                0 <= m < n ==> match (#[trigger] orig[m]).uri {
                    None => rewritten@[m] is None,
                    Some(u) => rewritten@[m] matches Some(v) && Ok::<Seq<char>, RewriteError>(v@)
                        == spec_rewrite_image_uri(
                        u@,
                        model_uri@,
                        content_root_uri@,
                        content_geojson_uri@,
                    ),
                },
            forall|m: int| j <= m < n ==> #[trigger] images@[m] == orig[m],
            forall|m: int|
                0 <= m < j ==> {
                    &&& (#[trigger] images@[m]).mime_type == orig[m].mime_type
                    &&& images@[m].buffer_view == orig[m].buffer_view
                    &&& images@[m].name == orig[m].name
                    &&& images@[m].uri == rewritten@[m]
                },
        decreases n - j,
    {
        let mut img = images.remove(j);
        img.uri = match &rewritten[j] {
            Some(v) => Some(v.clone()),
            None => None,
        };
        images.insert(j, img);
        j = j + 1;
    }
    Ok(())
}

proof fn lemma_dir_prefix_shape(s: Seq<char>, n: int)
    requires
        0 <= n <= s.len(),
    ensures
        dir_prefix(s, n) == s || (dir_prefix(s, n).len() <= n && dir_prefix(s, n) == s.take(
            dir_prefix(s, n).len() as int,
        ) && dir_prefix(s, n).len() > 0 && s[dir_prefix(s, n).len() - 1] == '/' && forall|k: int|
            dir_prefix(s, n).len() <= k < n ==> #[trigger] s[k] != '/'),
        (forall|k: int| 0 <= k < n ==> #[trigger] s[k] != '/') ==> dir_prefix(s, n) == s,
    decreases n,
{
    if n > 0 && s[n - 1] != '/' {
        lemma_dir_prefix_shape(s, n - 1);
    }
}

/// The directory of a URI is the URI up to and including its last `/`:
/// a prefix of it that ends with `/` and leaves no `/` after it; a URI
/// without a `/` is its own directory.
pub proof fn lemma_dir_of_is_up_to_last_slash(s: Seq<char>)
    ensures
        spec_dir_of(s).is_prefix_of(s),
        (exists|i: int| 0 <= i < s.len() && s[i] == '/') ==> {
            &&& spec_dir_of(s).len() > 0
            &&& spec_dir_of(s).last() == '/'
            &&& forall|k: int| spec_dir_of(s).len() <= k < s.len() ==> #[trigger] s[k] != '/'
        },
        (forall|k: int| 0 <= k < s.len() ==> #[trigger] s[k] != '/') ==> spec_dir_of(s) == s,
{
    lemma_dir_prefix_shape(s, s.len() as int);
    if exists|i: int| 0 <= i < s.len() && s[i] == '/' {
        lemma_dir_ends_with_slash(s, s.len() as int);
        if spec_dir_of(s) == s {
            let i = choose|i: int| 0 <= i < s.len() && s[i] == '/';
            assert(s.last() == '/');
        }
    }
}

/// Keeping the first occurrences of a list keeps every element once: the
/// result holds exactly the list's elements, with no repeats.
pub proof fn lemma_first_occurrences_distinct(s: Seq<Seq<char>>)
    ensures
        first_occurrences(s).no_duplicates(),
        forall|x: Seq<char>| s.contains(x) <==> #[trigger] first_occurrences(s).contains(x),
    decreases s.len(),
{
    assert forall|x: Seq<char>| s.contains(x) <==> #[trigger] first_occurrences(s).contains(x) by {
        lemma_first_occurrences_contains(s, x);
    }
    if s.len() > 0 {
        let d = s.drop_last();
        lemma_first_occurrences_distinct(d);
        lemma_first_occurrences_contains(d, s.last());
    }
}

} // verus!
