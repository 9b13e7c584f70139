//! Normalized project-relative paths.

use vstd::prelude::*;
use vstd::string::*;
use vstd::utf8::*;
use crate::cache::location::path_join;
use crate::error::CliError;
use crate::ordering::Keyed;
use crate::text::{push_text_key, same_bytes, text_key};

verus! {

/// The byte that separates the names in a path.
pub const SLASH: u8 = 47;

/// The byte of a full stop.
pub const DOT: u8 = 46;

/// `String::from_utf8` gives the text that the bytes encode if and only if they
/// are valid UTF-8.
#[verifier::external_body]
pub(crate) fn text_from_utf8(bytes: Vec<u8>) -> (r: Option<String>)
    ensures
        match r {
            Some(text) => valid_utf8(bytes@) && text@ == decode_utf8(bytes@),
            None => !valid_utf8(bytes@),
        },
{
    String::from_utf8(bytes).ok()
}

/// The parts of a byte string between its slashes, empty parts included.
pub open spec fn segments(b: Seq<u8>) -> Seq<Seq<u8>>
    decreases b.len(),
{
    if b.len() == 0 {
        seq![Seq::<u8>::empty()]
    } else {
        let before = segments(b.drop_last());
        if b.last() == SLASH {
            before.push(Seq::empty())
        } else {
            before.drop_last().push(before.last().push(b.last()))
        }
    }
}

/// The nonempty parts of a byte string between its slashes.
pub open spec fn names(b: Seq<u8>) -> Seq<Seq<u8>> {
    segments(b).filter(|s: Seq<u8>| s.len() > 0)
}

/// The parts with one slash between neighbours.
pub open spec fn joined(parts: Seq<Seq<u8>>) -> Seq<u8>
    decreases parts.len(),
{
    if parts.len() == 0 {
        Seq::empty()
    } else if parts.len() == 1 {
        parts[0]
    } else {
        joined(parts.drop_last()).push(SLASH) + parts.last()
    }
}

/// A part that stands for a directory relative to its place.
pub open spec fn is_dot_name(s: Seq<u8>) -> bool {
    s == seq![DOT] || s == seq![DOT, DOT]
}

/// Some part of the path is `.` or `..`.
pub open spec fn has_dot_name(b: Seq<u8>) -> bool {
    exists|i: int| 0 <= i < segments(b).len() && is_dot_name(#[trigger] segments(b)[i])
}

/// Why a path is not accepted as project-relative, if it is not.
pub open spec fn rejection(b: Seq<u8>) -> Option<Seq<char>> {
    if b.len() == 0 || b[0] == SLASH {
        Some("path must be nonempty and relative"@)
    } else if has_dot_name(b) {
        Some("path may not contain '.' or '..' components"@)
    } else if !valid_utf8(joined(names(b))) {
        Some("path must be UTF-8"@)
    } else {
        None
    }
}

/// What reading the path `b` as a project-relative path gives.
pub open spec fn is_reading_of(b: Seq<u8>, r: Result<ProjectPath, CliError>) -> bool {
    match r {
        Ok(p) => rejection(b) is None && p.bytes() == joined(names(b)),
        Err(e) => rejection(b) is Some && e.is_relative_path(b, rejection(b)->0),
    }
}

/// A path that is its own normal form.
pub open spec fn is_normal(b: Seq<u8>) -> bool {
    rejection(b) is None && joined(names(b)) == b
}

pub(crate) proof fn lemma_segments_nonempty(b: Seq<u8>)
    ensures
        segments(b).len() > 0,
    decreases b.len(),
{
    if b.len() > 0 {
        lemma_segments_nonempty(b.drop_last());
    }
}

pub(crate) proof fn lemma_segments_slash(a: Seq<u8>, b: Seq<u8>)
    ensures
        segments(a.push(SLASH) + b) == segments(a) + segments(b),
    decreases b.len(),
{
    lemma_segments_nonempty(b);
    let whole = a.push(SLASH) + b;
    if b.len() == 0 {
        assert(whole =~= a.push(SLASH));
        assert(whole.drop_last() =~= a);
        assert(segments(whole) =~= segments(a) + segments(b));
    } else {
        let c = b.drop_last();
        lemma_segments_slash(a, c);
        lemma_segments_nonempty(c);
        assert(whole.drop_last() =~= a.push(SLASH) + c);
        assert(segments(whole) =~= segments(a) + segments(b));
    }
}

/// The bytes hold no slash.
pub open spec fn has_no_slash(s: Seq<u8>) -> bool {
    forall|i: int| 0 <= i < s.len() ==> #[trigger] s[i] != SLASH
}

pub(crate) proof fn lemma_segments_plain(b: Seq<u8>)
    requires
        has_no_slash(b),
    ensures
        segments(b) == seq![b],
    decreases b.len(),
{
    if b.len() > 0 {
        lemma_segments_plain(b.drop_last());
        assert(b.drop_last().push(b.last()) =~= b);
        assert(segments(b) =~= seq![b]);
    } else {
        assert(b =~= Seq::<u8>::empty());
    }
}

pub(crate) proof fn lemma_segments_of_joined(parts: Seq<Seq<u8>>)
    requires
        parts.len() > 0,
        forall|i: int| 0 <= i < parts.len() ==> has_no_slash(#[trigger] parts[i]),
    ensures
        segments(joined(parts)) == parts,
    decreases parts.len(),
{
    if parts.len() == 1 {
        lemma_segments_plain(parts[0]);
        assert(parts =~= seq![parts[0]]);
    } else {
        let init = parts.drop_last();
        assert forall|i: int| 0 <= i < init.len() implies has_no_slash(#[trigger] init[i]) by {
            assert(has_no_slash(parts[i]));
        }
        lemma_segments_of_joined(init);
        lemma_segments_slash(joined(init), parts.last());
        lemma_segments_plain(parts.last());
        assert(segments(joined(parts)) =~= parts);
    }
}

proof fn lemma_segments_have_no_slash(b: Seq<u8>)
    ensures
        forall|i: int| 0 <= i < segments(b).len() ==> has_no_slash(#[trigger] segments(b)[i]),
    decreases b.len(),
{
    if b.len() > 0 {
        lemma_segments_have_no_slash(b.drop_last());
        lemma_segments_nonempty(b.drop_last());
        let before = segments(b.drop_last());
        assert(has_no_slash(before[before.len() - 1]));
    }
}

pub(crate) proof fn lemma_filter_all<A>(s: Seq<A>, p: spec_fn(A) -> bool)
    requires
        forall|i: int| 0 <= i < s.len() ==> p(#[trigger] s[i]),
    ensures
        s.filter(p) == s,
    decreases s.len(),
{
    reveal(Seq::filter);
    if s.len() > 0 {
        lemma_filter_all(s.drop_last(), p);
        assert(s.drop_last().push(s.last()) =~= s);
    } else {
        assert(s.filter(p) =~= s);
    }
}

pub(crate) proof fn lemma_joined_nonempty(parts: Seq<Seq<u8>>)
    requires
        parts.len() > 0,
        forall|i: int| 0 <= i < parts.len() ==> (#[trigger] parts[i]).len() > 0,
    ensures
        joined(parts).len() > 0,
        joined(parts)[0] == parts[0][0],
    decreases parts.len(),
{
    if parts.len() > 1 {
        let init = parts.drop_last();
        assert(forall|i: int| 0 <= i < init.len() ==> init[i] == parts[i]);
        lemma_joined_nonempty(init);
    }
}

/// A nonempty path that does not begin with a slash has a name.
proof fn lemma_relative_has_name(b: Seq<u8>)
    requires
        b.len() > 0,
        b[0] != SLASH,
    ensures
        segments(b)[0].len() > 0,
    decreases b.len(),
{
    lemma_segments_nonempty(b.drop_last());
    if b.len() == 1 {
        assert(b.drop_last() =~= Seq::<u8>::empty());
    } else {
        lemma_relative_has_name(b.drop_last());
    }
}

/// Reading gives a normal form, and a normal form reads as itself.
pub proof fn normal_form_is_stable(b: Seq<u8>)
    requires
        rejection(b) is None,
    ensures
        is_normal(joined(names(b))),
        names(joined(names(b))) == names(b),
{
    let p = |s: Seq<u8>| s.len() > 0;
    let all = segments(b);
    let kept = names(b);
    lemma_segments_have_no_slash(b);
    lemma_segments_nonempty(b);
    lemma_relative_has_name(b);
    assert(kept.contains(all[0])) by {
        all.lemma_filter_contains(p, 0);
    }
    assert forall|i: int| 0 <= i < kept.len() implies has_no_slash(#[trigger] kept[i])
        && kept[i].len() > 0 && !is_dot_name(kept[i]) by {
        assert(kept.contains(kept[i]));
        all.lemma_filter_contains_rev(p, kept[i]);
        all.lemma_filter_pred(p, i);
        let j = all.index_of(kept[i]);
        assert(all[j] == kept[i]);
    }
    let c = joined(kept);
    lemma_segments_of_joined(kept);
    lemma_filter_all(kept, p);
    assert(names(c) == kept);
    lemma_joined_nonempty(kept);
    assert(has_no_slash(kept[0]));
    assert(!has_dot_name(c)) by {
        assert(segments(c) == kept);
    }
}

/// The text encodes exactly its bytes.
proof fn lemma_decode_bytes(b: Seq<u8>)
    requires
        valid_utf8(b),
    ensures
        encode_utf8(decode_utf8(b)) == b,
{
    decode_utf8_encode_utf8(b);
}

/// A normalized, UTF-8 project-relative source path using `/` separators.
#[derive(Debug, PartialEq, Eq, PartialOrd, Ord, Hash)]
pub struct ProjectPath {
    value: String,
}

impl Clone for ProjectPath {
    fn clone(&self) -> (r: Self)
        ensures
            r == *self,
    {
        proof {
            use_type_invariant(self);
        }
        ProjectPath { value: self.value.clone() }
    }
}

/// The parts of a byte string between its slashes.
pub(crate) fn segments_of(b: &[u8]) -> (r: Vec<Vec<u8>>)
    ensures
        r@.len() == segments(b@).len(),
        forall|i: int| 0 <= i < r@.len() ==> (#[trigger] r@[i])@ == segments(b@)[i],
        r@.len() > 0,
{
    let mut done: Vec<Vec<u8>> = Vec::new();
    let mut current: Vec<u8> = Vec::new();
    let mut i: usize = 0;
    assert(b@.take(0) =~= Seq::<u8>::empty());
    while i < b.len()
        invariant
            i <= b.len(),
            segments(b@.take(i as int)).len() == done@.len() + 1,
            forall|j: int|
                0 <= j < done@.len() ==> (#[trigger] done@[j])@ == segments(b@.take(i as int))[j],
            segments(b@.take(i as int)).last() == current@,
        decreases b.len() - i,
    {
        let c = b[i];
        let ghost before = segments(b@.take(i as int));
        assert(b@.take(i as int + 1).drop_last() =~= b@.take(i as int));
        if c == SLASH {
            done.push(current);
            current = Vec::new();
            assert(segments(b@.take(i as int + 1)) =~= before.push(Seq::empty()));
        } else {
            current.push(c);
        }
        i += 1;
    }
    assert(b@.take(b@.len() as int) =~= b@);
    done.push(current);
    done
}

/// Joins the nonempty parts with one slash between neighbours.
fn join_names(parts: &Vec<Vec<u8>>, all: Ghost<Seq<Seq<u8>>>) -> (r: Vec<u8>)
    requires
        parts@.len() == all@.len(),
        forall|i: int| 0 <= i < parts@.len() ==> (#[trigger] parts@[i])@ == all@[i],
    ensures
        r@ == joined(all@.filter(|s: Seq<u8>| s.len() > 0)),
{
    let ghost p = |s: Seq<u8>| s.len() > 0;
    let ghost all = all@;
    let mut out: Vec<u8> = Vec::new();
    let mut first = true;
    let mut i: usize = 0;
    proof {
        reveal(Seq::filter);
        assert(all.take(0) =~= Seq::<Seq<u8>>::empty());
    }
    while i < parts.len()
        invariant
            i <= parts.len(),
            parts@.len() == all.len(),
            p == (|s: Seq<u8>| s.len() > 0),
            forall|j: int| 0 <= j < parts@.len() ==> (#[trigger] parts@[j])@ == all[j],
            out@ == joined(all.take(i as int).filter(p)),
            first == (all.take(i as int).filter(p).len() == 0),
        decreases parts.len() - i,
    {
        let part = &parts[i];
        let ghost kept = all.take(i as int).filter(p);
        proof {
            assert(all.take(i as int + 1) =~= all.take(i as int).push(all[i as int]));
            all.take(i as int).lemma_filter_push(all[i as int], p);
        }
        if part.len() > 0 {
            let ghost more = kept.push(all[i as int]);
            assert(more.drop_last() =~= kept);
            if !first {
                out.push(SLASH);
            }
            let ghost mark = out@;
            let mut k: usize = 0;
            while k < part.len()
                invariant
                    k <= part.len(),
                    out@ == mark + part@.take(k as int),
                decreases part.len() - k,
            {
                out.push(part[k]);
                k += 1;
                assert(out@ =~= mark + part@.take(k as int));
            }
            assert(part@.take(part@.len() as int) =~= part@);
            assert(out@ =~= joined(more));
            first = false;
        }
        i += 1;
    }
    assert(all.take(all.len() as int) =~= all);
    out
}

/// Tells whether a part stands for a directory relative to its place.
fn dot_name(s: &Vec<u8>) -> (r: bool)
    ensures
        r == is_dot_name(s@),
{
    if s.len() == 1 && s[0] == DOT {
        assert(s@ =~= seq![DOT]);
        return true;
    }
    if s.len() == 2 && s[0] == DOT && s[1] == DOT {
        assert(s@ =~= seq![DOT, DOT]);
        return true;
    }
    false
}

pub(crate) fn any_dot_name(parts: &Vec<Vec<u8>>) -> (r: bool)
    ensures
        r == exists|i: int| 0 <= i < parts@.len() && is_dot_name((#[trigger] parts@[i])@),
{
    let mut i: usize = 0;
    while i < parts.len()
        invariant
            i <= parts.len(),
            forall|j: int| 0 <= j < i ==> !is_dot_name((#[trigger] parts@[j])@),
        decreases parts.len() - i,
    {
        if dot_name(&parts[i]) {
            return true;
        }
        i += 1;
    }
    false
}

/// Copies a byte string.
pub(crate) fn copied_bytes(b: &[u8]) -> (r: Vec<u8>)
    ensures
        r@ == b@,
{
    let mut r: Vec<u8> = Vec::new();
    let mut i: usize = 0;
    while i < b.len()
        invariant
            i <= b.len(),
            r@ == b@.take(i as int),
        decreases b.len() - i,
    {
        r.push(b[i]);
        i += 1;
        assert(r@ =~= b@.take(i as int));
    }
    assert(r@ =~= b@);
    r
}

/// The path begins at the root directory.
pub open spec fn is_absolute(b: Seq<u8>) -> bool {
    b.len() > 0 && b[0] == SLASH
}

/// A part that does not move away from its directory: an empty one or `.`.
pub open spec fn is_idle(s: Seq<u8>) -> bool {
    s.len() == 0 || s == seq![DOT]
}

/// The parts that move: all but the empty ones and `.`.
pub open spec fn steps(parts: Seq<Seq<u8>>) -> Seq<Seq<u8>> {
    parts.filter(|s: Seq<u8>| !is_idle(s))
}

/// The steps of `root` are the first steps of `source`.
pub open spec fn is_within(root: Seq<u8>, source: Seq<u8>) -> bool {
    let outer = steps(segments(root));
    let inner = steps(segments(source));
    outer.len() <= inner.len() && inner.take(outer.len() as int) == outer
}

/// What is left of the parts once the first `n` steps are gone.
pub open spec fn after_steps(parts: Seq<Seq<u8>>, n: nat) -> Seq<Seq<u8>>
    decreases parts.len(),
{
    if n == 0 || parts.len() == 0 {
        parts
    } else if is_idle(parts[0]) {
        after_steps(parts.drop_first(), n)
    } else {
        after_steps(parts.drop_first(), (n - 1) as nat)
    }
}

/// The parts without the idle ones at the front.
pub open spec fn trim_front(parts: Seq<Seq<u8>>) -> Seq<Seq<u8>>
    decreases parts.len(),
{
    if parts.len() > 0 && is_idle(parts[0]) {
        trim_front(parts.drop_first())
    } else {
        parts
    }
}

/// The parts without the idle ones at the end.
pub open spec fn trim_back(parts: Seq<Seq<u8>>) -> Seq<Seq<u8>>
    decreases parts.len(),
{
    if parts.len() > 0 && is_idle(parts.last()) {
        trim_back(parts.drop_last())
    } else {
        parts
    }
}

/// The part of `source` below `root`, as it is spelled in `source`, without idle
/// parts at its ends.
pub open spec fn remainder(root: Seq<u8>, source: Seq<u8>) -> Seq<u8> {
    joined(
        trim_back(trim_front(after_steps(segments(source), steps(segments(root)).len()))),
    )
}

pub(crate) fn idle(s: &Vec<u8>) -> (r: bool)
    ensures
        r == is_idle(s@),
{
    if s.len() == 0 {
        return true;
    }
    if s.len() == 1 && s[0] == DOT {
        assert(s@ =~= seq![DOT]);
        return true;
    }
    false
}

proof fn lemma_steps_front(parts: Seq<Seq<u8>>)
    requires
        parts.len() > 0,
    ensures
        is_idle(parts[0]) ==> steps(parts) == steps(parts.drop_first()),
        !is_idle(parts[0]) ==> steps(parts) == seq![parts[0]] + steps(parts.drop_first()),
{
    let p = |s: Seq<u8>| !is_idle(s);
    assert(parts =~= seq![parts[0]] + parts.drop_first());
    Seq::filter_distributes_over_add(seq![parts[0]], parts.drop_first(), p);
    reveal_with_fuel(Seq::filter, 2);
    let one = seq![parts[0]];
    assert(one.drop_last() =~= Seq::<Seq<u8>>::empty());
    if is_idle(parts[0]) {
        assert(one.filter(p) =~= Seq::<Seq<u8>>::empty());
        assert(steps(parts) =~= steps(parts.drop_first()));
    } else {
        assert(one.filter(p) =~= one);
        assert(steps(parts) =~= one + steps(parts.drop_first()));
    }
}

/// The path, as it is spelled, is the directory or lies in it.
pub open spec fn lies_in(path: Seq<u8>, directory: Seq<u8>) -> bool {
    is_absolute(path) == is_absolute(directory) && is_within(directory, path)
}

/// Tells whether a path, as it is spelled, is a directory or lies in it.
pub fn is_inside(path: &[u8], directory: &[u8]) -> (r: bool)
    ensures
        r == lies_in(path@, directory@),
{
    let path_absolute = path.len() > 0 && path[0] == SLASH;
    let directory_absolute = directory.len() > 0 && directory[0] == SLASH;
    let outer = segments_of(directory);
    let inner = segments_of(path);
    path_absolute == directory_absolute && strip_steps(
        &outer,
        &inner,
        Ghost(segments(directory@)),
        Ghost(segments(path@)),
    ).is_some()
}

/// The parts of two paths with a slash between them are those of the one and of the
/// other.
proof fn lemma_segments_concat(a: Seq<u8>, b: Seq<u8>)
    ensures
        segments(a.push(SLASH) + b) == segments(a) + segments(b),
    decreases b.len(),
{
    let whole = a.push(SLASH) + b;
    if b.len() == 0 {
        assert(whole =~= a.push(SLASH));
        assert(whole.drop_last() =~= a);
        assert(segments(whole) =~= segments(a) + segments(b));
    } else {
        let front = b.drop_last();
        lemma_segments_concat(a, front);
        lemma_segments_nonempty(front);
        assert(whole.drop_last() =~= a.push(SLASH) + front);
        let before = segments(a) + segments(front);
        assert(before.last() == segments(front).last());
        assert(before.drop_last() =~= segments(a) + segments(front).drop_last());
        assert(segments(whole) =~= segments(a) + segments(b));
    }
}

proof fn lemma_steps_concat(a: Seq<Seq<u8>>, b: Seq<Seq<u8>>)
    ensures
        steps(a + b) == steps(a) + steps(b),
{
    Seq::filter_distributes_over_add(a, b, |s: Seq<u8>| !is_idle(s));
}

/// What is named below a path that lies in a directory lies in that directory too.
pub proof fn names_stay_inside(base: Seq<u8>, name: Seq<u8>, directory: Seq<u8>)
    requires
        base.len() > 0,
        lies_in(base, directory),
    ensures
        lies_in(path_join(base, name), directory),
{
    let path = path_join(base, name);
    let outer = steps(segments(directory));
    let a = if base.last() == SLASH {
        base.drop_last()
    } else {
        base
    };
    lemma_segments_concat(a, name);
    lemma_steps_concat(segments(a), segments(name));
    assert(path =~= a.push(SLASH) + name);
    if base.last() == SLASH {
        assert(base =~= a.push(SLASH) + Seq::<u8>::empty());
        lemma_segments_concat(a, Seq::empty());
        lemma_steps_concat(segments(a), segments(Seq::<u8>::empty()));
        lemma_steps_front(segments(Seq::<u8>::empty()));
        assert(segments(Seq::<u8>::empty()).drop_first() =~= Seq::<Seq<u8>>::empty());
        reveal(Seq::filter);
        assert(steps(segments(base)) =~= steps(segments(a)));
    }
    assert(steps(segments(path)) == steps(segments(base)) + steps(segments(name)));
    assert(steps(segments(path)).take(outer.len() as int) =~= steps(segments(base)).take(
        outer.len() as int,
    ));
    assert(path[0] == base[0]);
}

/// Walks both paths step by step; gives the position in `inner` behind the last
/// step of `outer`, if the steps agree.
fn strip_steps(
    outer: &Vec<Vec<u8>>,
    inner: &Vec<Vec<u8>>,
    outer_parts: Ghost<Seq<Seq<u8>>>,
    inner_parts: Ghost<Seq<Seq<u8>>>,
) -> (r: Option<usize>)
    requires
        outer@.len() == outer_parts@.len(),
        inner@.len() == inner_parts@.len(),
        forall|i: int| 0 <= i < outer@.len() ==> (#[trigger] outer@[i])@ == outer_parts@[i],
        forall|i: int| 0 <= i < inner@.len() ==> (#[trigger] inner@[i])@ == inner_parts@[i],
    ensures
        match r {
            Some(at) => {
                &&& at <= inner@.len()
                &&& steps(outer_parts@).len() <= steps(inner_parts@).len()
                &&& steps(inner_parts@).take(steps(outer_parts@).len() as int) == steps(
                    outer_parts@,
                )
                &&& inner_parts@.skip(at as int) == after_steps(
                    inner_parts@,
                    steps(outer_parts@).len(),
                )
            },
            None => !(steps(outer_parts@).len() <= steps(inner_parts@).len() && steps(
                inner_parts@,
            ).take(steps(outer_parts@).len() as int) == steps(outer_parts@)),
        },
{
    let ghost ap = outer_parts@;
    let ghost bp = inner_parts@;
    let ghost so = steps(ap);
    let ghost si = steps(bp);
    let mut i: usize = 0;
    let mut j: usize = 0;
    let ghost mut done: nat = 0;
    proof {
        assert(ap.skip(0) =~= ap);
        assert(bp.skip(0) =~= bp);
    }
    while i < outer.len()
        invariant
            i <= outer.len(),
            j <= inner.len(),
            ap == outer_parts@,
            bp == inner_parts@,
            outer@.len() == ap.len(),
            inner@.len() == bp.len(),
            so == steps(ap),
            si == steps(bp),
            forall|k: int| 0 <= k < outer@.len() ==> (#[trigger] outer@[k])@ == ap[k],
            forall|k: int| 0 <= k < inner@.len() ==> (#[trigger] inner@[k])@ == bp[k],
            done <= so.len(),
            done <= si.len(),
            so.take(done as int) == si.take(done as int),
            so.skip(done as int) == steps(ap.skip(i as int)),
            si.skip(done as int) == steps(bp.skip(j as int)),
            after_steps(bp, so.len()) == after_steps(bp.skip(j as int), (so.len() - done) as nat),
        decreases outer.len() - i,
    {
        proof {
            let rest = ap.skip(i as int);
            assert(rest[0] == ap[i as int]);
            lemma_steps_front(rest);
            assert(rest.drop_first() =~= ap.skip(i as int + 1));
        }
        if idle(&outer[i]) {
            i += 1;
        } else {
            assert(so.skip(done as int)[0] == ap[i as int]);
            assert(so.skip(done as int).len() > 0);
            while j < inner.len() && idle(&inner[j])
                invariant
                    j <= inner.len(),
                    inner@.len() == bp.len(),
                    forall|k: int| 0 <= k < inner@.len() ==> (#[trigger] inner@[k])@ == bp[k],
                    si == steps(bp),
                    done < so.len(),
                    done <= si.len(),
                    si.skip(done as int) == steps(bp.skip(j as int)),
                    after_steps(bp, so.len()) == after_steps(
                        bp.skip(j as int),
                        (so.len() - done) as nat,
                    ),
                decreases inner.len() - j,
            {
                proof {
                    let rest = bp.skip(j as int);
                    assert(rest[0] == bp[j as int]);
                    lemma_steps_front(rest);
                    assert(rest.drop_first() =~= bp.skip(j as int + 1));
                }
                j += 1;
            }
            if j >= inner.len() {
                proof {
                    assert(bp.skip(j as int) =~= Seq::<Seq<u8>>::empty());
                    reveal(Seq::filter);
                    assert(si.skip(done as int).len() == 0);
                    assert(so.len() > si.len());
                }
                return None;
            }
            proof {
                let rest = bp.skip(j as int);
                assert(rest[0] == bp[j as int]);
                lemma_steps_front(rest);
                assert(rest.drop_first() =~= bp.skip(j as int + 1));
                assert(si.skip(done as int)[0] == bp[j as int]);
                assert(si.skip(done as int).len() > 0);
                assert(si[done as int] == bp[j as int]);
                assert(so[done as int] == ap[i as int]);
            }
            if !same_bytes(outer[i].as_slice(), inner[j].as_slice()) {
                proof {
                    if so.len() <= si.len() && si.take(so.len() as int) == so {
                        assert(si.take(so.len() as int)[done as int] == so[done as int]);
                    }
                }
                return None;
            }
            proof {
                assert(so.take(done as int + 1) =~= so.take(done as int).push(so[done as int]));
                assert(si.take(done as int + 1) =~= si.take(done as int).push(si[done as int]));
                assert(so.skip(done as int + 1) =~= so.skip(done as int).drop_first());
                assert(si.skip(done as int + 1) =~= si.skip(done as int).drop_first());
                assert(so.skip(done as int).drop_first() =~= steps(ap.skip(i as int + 1)));
                assert(si.skip(done as int).drop_first() =~= steps(bp.skip(j as int + 1)));
                done = done + 1;
            }
            i += 1;
            j += 1;
        }
    }
    proof {
        assert(ap.skip(ap.len() as int) =~= Seq::<Seq<u8>>::empty());
        reveal(Seq::filter);
        assert(so.skip(done as int).len() == 0);
        assert(done == so.len());
        assert(so.take(done as int) =~= so);
    }
    Some(j)
}

/// Joins the parts from a position on, without idle ones at either end.
fn trimmed_join(parts: &Vec<Vec<u8>>, start: usize, all: Ghost<Seq<Seq<u8>>>) -> (r: Vec<u8>)
    requires
        start <= parts@.len(),
        parts@.len() == all@.len(),
        forall|i: int| 0 <= i < parts@.len() ==> (#[trigger] parts@[i])@ == all@[i],
    ensures
        r@ == joined(trim_back(trim_front(all@.skip(start as int)))),
{
    let ghost all = all@;
    let ghost whole = trim_front(all.skip(start as int));
    let mut low = start;
    while low < parts.len() && idle(&parts[low])
        invariant
            low <= parts.len(),
            parts@.len() == all.len(),
            forall|i: int| 0 <= i < parts@.len() ==> (#[trigger] parts@[i])@ == all[i],
            trim_front(all.skip(low as int)) == whole,
        decreases parts.len() - low,
    {
        assert(all.skip(low as int)[0] == all[low as int]);
        assert(all.skip(low as int).drop_first() =~= all.skip(low as int + 1));
        low += 1;
    }
    proof {
        if low < parts.len() {
            assert(all.skip(low as int)[0] == all[low as int]);
        }
        assert(whole == all.skip(low as int));
        assert(all.subrange(low as int, all.len() as int) =~= whole);
    }
    let mut high = parts.len();
    while high > low && idle(&parts[high - 1])
        invariant
            low <= high <= parts.len(),
            parts@.len() == all.len(),
            forall|i: int| 0 <= i < parts@.len() ==> (#[trigger] parts@[i])@ == all[i],
            trim_back(all.subrange(low as int, high as int)) == trim_back(whole),
        decreases high,
    {
        let ghost now = all.subrange(low as int, high as int);
        assert(now.last() == all[high - 1]);
        assert(now.drop_last() =~= all.subrange(low as int, high - 1));
        high -= 1;
    }
    let ghost kept = all.subrange(low as int, high as int);
    proof {
        if high > low {
            assert(kept.last() == all[high - 1]);
        }
        assert(trim_back(kept) == kept);
    }
    let mut out: Vec<u8> = Vec::new();
    let mut i = low;
    assert(kept.take(0) =~= Seq::<Seq<u8>>::empty());
    while i < high
        invariant
            low <= i <= high <= parts.len(),
            parts@.len() == all.len(),
            forall|j: int| 0 <= j < parts@.len() ==> (#[trigger] parts@[j])@ == all[j],
            kept == all.subrange(low as int, high as int),
            out@ == joined(kept.take(i - low)),
        decreases high - i,
    {
        let part = &parts[i];
        let ghost more = kept.take(i - low + 1);
        assert(more.drop_last() =~= kept.take(i - low));
        assert(more.last() == part@);
        if i > low {
            out.push(SLASH);
        }
        let ghost mark = out@;
        let mut k: usize = 0;
        while k < part.len()
            invariant
                k <= part.len(),
                out@ == mark + part@.take(k as int),
            decreases part.len() - k,
        {
            out.push(part[k]);
            k += 1;
            assert(out@ =~= mark + part@.take(k as int));
        }
        assert(part@.take(part@.len() as int) =~= part@);
        assert(out@ =~= joined(more));
        i += 1;
    }
    assert(kept.take(kept.len() as int) =~= kept);
    out
}

pub(crate) fn rejected(b: &[u8], reason: &str) -> (r: Result<ProjectPath, CliError>)
    ensures
        r is Err,
        r->Err_0.is_relative_path(b@, reason@),
{
    Err(CliError::ProjectRelativePath { path: copied_bytes(b), reason: reason.to_owned() })
}

impl ProjectPath {
    #[verifier::type_invariant]
    spec fn normal(self) -> bool {
        is_normal(self.bytes())
    }

    /// The text of the path.
    pub closed spec fn view(self) -> Seq<char> {
        self.value@
    }

    /// The bytes of the path.
    pub open spec fn bytes(self) -> Seq<u8> {
        encode_utf8(self@)
    }

    /// Validates and normalizes a project-relative path, given by the bytes of its
    /// native spelling.
    pub fn new(path: &[u8]) -> (r: Result<Self, CliError>)
        ensures
            is_reading_of(path@, r),
    {
        if path.len() == 0 || path[0] == SLASH {
            return rejected(path, "path must be nonempty and relative");
        }
        let parts = segments_of(path);
        if any_dot_name(&parts) {
            proof {
                let i = choose|i: int|
                    0 <= i < parts@.len() && is_dot_name((#[trigger] parts@[i])@);
                assert(is_dot_name(segments(path@)[i]));
            }
            return rejected(path, "path may not contain '.' or '..' components");
        }
        assert(!has_dot_name(path@)) by {
            if has_dot_name(path@) {
                let i = choose|i: int|
                    0 <= i < segments(path@).len() && is_dot_name(#[trigger] segments(path@)[i]);
                assert(is_dot_name(parts@[i]@));
            }
        }
        let bytes = join_names(&parts, Ghost(segments(path@)));
        match text_from_utf8(bytes) {
            Some(value) => {
                proof {
                    lemma_decode_bytes(joined(names(path@)));
                    normal_form_is_stable(path@);
                }
                Ok(ProjectPath { value })
            },
            None => rejected(path, "path must be UTF-8"),
        }
    }

    /// Converts canonical, contained source and project-root paths to a normalized path.
    pub fn from_canonical_source(root: &[u8], source: &[u8]) -> (r: Result<Self, CliError>)
        ensures
            !is_absolute(root@) || !is_absolute(source@) ==> r is Err
                && r->Err_0.is_relative_path(
                source@,
                "root and source must be canonical absolute paths"@,
            ),
            is_absolute(root@) && is_absolute(source@) && !is_within(root@, source@) ==> (
            r matches Err(CliError::ProjectPathOutsideRoot { root: outer, path }) && outer@
                == root@ && path@ == source@),
            is_absolute(root@) && is_absolute(source@) && is_within(root@, source@)
                ==> is_reading_of(remainder(root@, source@), r),
    {
        if root.len() == 0 || root[0] != SLASH || source.len() == 0 || source[0] != SLASH {
            return rejected(source, "root and source must be canonical absolute paths");
        }
        let outer = segments_of(root);
        let inner = segments_of(source);
        let start = match strip_steps(
            &outer,
            &inner,
            Ghost(segments(root@)),
            Ghost(segments(source@)),
        ) {
            Some(start) => start,
            None => {
                return Err(
                    CliError::ProjectPathOutsideRoot {
                        root: copied_bytes(root),
                        path: copied_bytes(source),
                    },
                );
            },
        };
        let rest = trimmed_join(&inner, start, Ghost(segments(source@)));
        ProjectPath::new(rest.as_slice())
    }

    /// The stable slash-separated representation.
    pub fn as_str(&self) -> (r: &str)
        ensures
            r@ == self@,
            is_normal(self.bytes()),
    {
        proof {
            use_type_invariant(self);
        }
        self.value.as_str()
    }

    /// The slash-separated representation as an owned text.
    pub fn to_text(&self) -> (r: String)
        ensures
            r@ == self@,
    {
        self.value.clone()
    }
}

impl Keyed for ProjectPath {
    open spec fn key(&self) -> Seq<u64> {
        text_key(self@)
    }

    fn sort_key(&self) -> (k: Vec<u64>) {
        let mut k: Vec<u64> = Vec::new();
        push_text_key(&mut k, self.as_str());
        assert(k@ =~= self.key());
        k
    }
}

} // verus!
