//! Laws of identities: what an identity is computed from tells apart all that it identifies.

use vstd::prelude::*;
use vstd::bytes::*;
use vstd::string::*;
use vstd::utf8::*;
use crate::cache::fingerprint::{
    candidate_preimage, compatibility_preimage, input_preimage, inputs_part, omissions_part,
    package_preimage, part, parts, parts_do_not_run_together, parts_fit, text_bytes, InputView,
};
use crate::cache::location::{
    encoding_tag, hex, hex_digit, project_key_preimage, roots_are_hashed_apart,
};
use crate::cache::types::{CacheCompleteness, OmissionView};
use crate::package_assignment::records::{fields_fit, record, records_do_not_collide};
use crate::package_assignment::types::{
    identity_fields_ok, is_canonical_identity, lemma_fields_fit, ManifestInput, ManifestOutcome,
};
use crate::project::native::Platform;
use crate::text::bytes_determine_text;

verus! {

/// The text can be written behind its length.
pub open spec fn text_fits(s: Seq<char>) -> bool {
    encode_utf8(s).len() <= u64::MAX
}

proof fn lemma_part_splits(a: Seq<u8>, b: Seq<u8>, x: Seq<u8>, y: Seq<u8>)
    requires
        a.len() <= u64::MAX,
        b.len() <= u64::MAX,
        part(a) + x == part(b) + y,
    ensures
        a == b,
        x == y,
{
    lemma_auto_spec_u64_to_from_le_bytes();
    let s = part(a) + x;
    let t = part(b) + y;
    assert(spec_u64_to_le_bytes(a.len() as u64) =~= s.take(8));
    assert(spec_u64_to_le_bytes(b.len() as u64) =~= t.take(8));
    assert(a.len() as u64 == b.len() as u64);
    let n = a.len() as int;
    assert(a =~= s.subrange(8, 8 + n));
    assert(b =~= t.subrange(8, 8 + n));
    assert(x =~= s.skip(8 + n));
    assert(y =~= t.skip(8 + n));
}

/// A compatibility is told by its languages and by its packages.
pub proof fn compatibilities_are_told_apart(
    language: Seq<u8>,
    package: Seq<u8>,
    other_language: Seq<u8>,
    other_package: Seq<u8>,
)
    requires
        language.len() <= u64::MAX,
        package.len() <= u64::MAX,
        other_language.len() <= u64::MAX,
        other_package.len() <= u64::MAX,
        compatibility_preimage(language, package) == compatibility_preimage(
            other_language,
            other_package,
        ),
    ensures
        language == other_language,
        package == other_package,
{
    let head = encode_utf8("code2graph.cache.compatibility.v1\0"@);
    let a = part(language) + part(package);
    let b = part(other_language) + part(other_package);
    assert(a =~= (head + a).skip(head.len() as int));
    assert(b =~= (head + b).skip(head.len() as int));
    lemma_part_splits(language, other_language, part(package), part(other_package));
    assert(part(package) + Seq::<u8>::empty() =~= part(package));
    assert(part(other_package) + Seq::<u8>::empty() =~= part(other_package));
    lemma_part_splits(package, other_package, Seq::empty(), Seq::empty());
}

/// The texts of the source can be written behind their lengths.
pub open spec fn input_fits(v: InputView) -> bool {
    text_fits(v.path) && text_fits(v.language) && v.content_hash.len() <= u64::MAX
}

spec fn flat_inputs(rows: Seq<InputView>) -> Seq<Seq<u8>>
    decreases rows.len(),
{
    if rows.len() == 0 {
        Seq::empty()
    } else {
        flat_inputs(rows.drop_last()).push(encode_utf8(rows.last().path)).push(
            encode_utf8(rows.last().language),
        ).push(rows.last().content_hash)
    }
}

proof fn lemma_parts_push(bs: Seq<Seq<u8>>, b: Seq<u8>)
    ensures
        parts(bs.push(b)) == parts(bs) + part(b),
{
    assert(bs.push(b).drop_last() =~= bs);
}

proof fn lemma_flat_inputs(rows: Seq<InputView>)
    requires
        forall|i: int| 0 <= i < rows.len() ==> input_fits(#[trigger] rows[i]),
    ensures
        inputs_part(rows) == parts(flat_inputs(rows)),
        parts_fit(flat_inputs(rows)),
        flat_inputs(rows).len() == 3 * rows.len(),
        forall|i: int|
            0 <= i < rows.len() ==> flat_inputs(rows)[3 * i] == encode_utf8(
                (#[trigger] rows[i]).path,
            ) && flat_inputs(rows)[3 * i + 1] == encode_utf8(rows[i].language)
                && flat_inputs(rows)[3 * i + 2] == rows[i].content_hash,
    decreases rows.len(),
{
    if rows.len() > 0 {
        let rest = rows.drop_last();
        assert forall|i: int| 0 <= i < rest.len() implies input_fits(#[trigger] rest[i]) by {
            assert(rest[i] == rows[i]);
        }
        lemma_flat_inputs(rest);
        let v = rows[rows.len() - 1];
        assert(v == rows.last());
        let a = flat_inputs(rest);
        let p = encode_utf8(v.path);
        let l = encode_utf8(v.language);
        lemma_parts_push(a, p);
        lemma_parts_push(a.push(p), l);
        lemma_parts_push(a.push(p).push(l), v.content_hash);
        assert(inputs_part(rows) =~= parts(flat_inputs(rows)));
        let all = flat_inputs(rows);
        assert(parts_fit(all)) by {
            assert forall|i: int| 0 <= i < all.len() implies (#[trigger] all[i]).len()
                <= u64::MAX by {
                if i < a.len() {
                    assert(all[i] == a[i]);
                }
            }
        }
        assert forall|i: int| 0 <= i < rows.len() implies all[3 * i] == encode_utf8(
            (#[trigger] rows[i]).path,
        ) && all[3 * i + 1] == encode_utf8(rows[i].language) && all[3 * i + 2]
            == rows[i].content_hash by {
            if i < rest.len() {
                assert(rest[i] == rows[i]);
                assert(all[3 * i] == a[3 * i] && all[3 * i + 1] == a[3 * i + 1] && all[3 * i + 2]
                    == a[3 * i + 2]);
            }
        }
    }
}

/// The inputs of a project are told apart by every path, every language and every content, and
/// by how many there are.
pub proof fn inputs_are_told_apart(a: Seq<InputView>, b: Seq<InputView>)
    requires
        forall|i: int| 0 <= i < a.len() ==> input_fits(#[trigger] a[i]),
        forall|i: int| 0 <= i < b.len() ==> input_fits(#[trigger] b[i]),
        input_preimage(a) == input_preimage(b),
    ensures
        a == b,
{
    let head = encode_utf8("code2graph.cache.project-input.v1\0"@);
    assert(inputs_part(a) =~= (head + inputs_part(a)).skip(head.len() as int));
    assert(inputs_part(b) =~= (head + inputs_part(b)).skip(head.len() as int));
    lemma_flat_inputs(a);
    lemma_flat_inputs(b);
    parts_do_not_run_together(flat_inputs(a), flat_inputs(b));
    assert forall|i: int| 0 <= i < a.len() implies a[i] == b[i] by {
        bytes_determine_text(a[i].path, b[i].path);
        bytes_determine_text(a[i].language, b[i].language);
        assert(flat_inputs(a)[3 * i] == flat_inputs(b)[3 * i]);
        assert(flat_inputs(a)[3 * i + 1] == flat_inputs(b)[3 * i + 1]);
        assert(flat_inputs(a)[3 * i + 2] == flat_inputs(b)[3 * i + 2]);
    }
    assert(a =~= b);
}

/// The texts of the omission can be written behind their lengths.
pub open spec fn omission_fits(v: OmissionView) -> bool {
    text_fits(v.path) && text_fits(v.reason) && text_fits(v.detail)
}

spec fn flat_omissions(rows: Seq<OmissionView>) -> Seq<Seq<u8>>
    decreases rows.len(),
{
    if rows.len() == 0 {
        Seq::empty()
    } else {
        flat_omissions(rows.drop_last()).push(encode_utf8(rows.last().path)).push(
            encode_utf8(rows.last().reason),
        ).push(encode_utf8(rows.last().detail))
    }
}

proof fn lemma_flat_omissions(rows: Seq<OmissionView>)
    requires
        forall|i: int| 0 <= i < rows.len() ==> omission_fits(#[trigger] rows[i]),
    ensures
        omissions_part(rows) == parts(flat_omissions(rows)),
        parts_fit(flat_omissions(rows)),
        flat_omissions(rows).len() == 3 * rows.len(),
        forall|i: int|
            0 <= i < rows.len() ==> flat_omissions(rows)[3 * i] == encode_utf8(
                (#[trigger] rows[i]).path,
            ) && flat_omissions(rows)[3 * i + 1] == encode_utf8(rows[i].reason) && flat_omissions(
                rows,
            )[3 * i + 2] == encode_utf8(rows[i].detail),
    decreases rows.len(),
{
    if rows.len() > 0 {
        let rest = rows.drop_last();
        assert forall|i: int| 0 <= i < rest.len() implies omission_fits(#[trigger] rest[i]) by {
            assert(rest[i] == rows[i]);
        }
        lemma_flat_omissions(rest);
        let v = rows[rows.len() - 1];
        assert(v == rows.last());
        let a = flat_omissions(rest);
        let p = encode_utf8(v.path);
        let l = encode_utf8(v.reason);
        let d = encode_utf8(v.detail);
        lemma_parts_push(a, p);
        lemma_parts_push(a.push(p), l);
        lemma_parts_push(a.push(p).push(l), d);
        assert(omissions_part(rows) =~= parts(flat_omissions(rows)));
        let all = flat_omissions(rows);
        assert(parts_fit(all)) by {
            assert forall|i: int| 0 <= i < all.len() implies (#[trigger] all[i]).len()
                <= u64::MAX by {
                if i < a.len() {
                    assert(all[i] == a[i]);
                }
            }
        }
        assert forall|i: int| 0 <= i < rows.len() implies all[3 * i] == encode_utf8(
            (#[trigger] rows[i]).path,
        ) && all[3 * i + 1] == encode_utf8(rows[i].reason) && all[3 * i + 2] == encode_utf8(
            rows[i].detail,
        ) by {
            if i < rest.len() {
                assert(rest[i] == rows[i]);
                assert(all[3 * i] == a[3 * i] && all[3 * i + 1] == a[3 * i + 1] && all[3 * i + 2]
                    == a[3 * i + 2]);
            }
        }
    }
}

/// A candidate is told by its compatibility, by its inputs, by whether it is complete, and by
/// every omission with its path, its reason and its detail.
pub proof fn candidates_are_told_apart(
    compatibility: Seq<u8>,
    input: Seq<u8>,
    completeness: CacheCompleteness,
    omissions: Seq<OmissionView>,
    other_compatibility: Seq<u8>,
    other_input: Seq<u8>,
    other_completeness: CacheCompleteness,
    other_omissions: Seq<OmissionView>,
)
    requires
        compatibility.len() <= u64::MAX,
        input.len() <= u64::MAX,
        other_compatibility.len() <= u64::MAX,
        other_input.len() <= u64::MAX,
        forall|i: int| 0 <= i < omissions.len() ==> omission_fits(#[trigger] omissions[i]),
        forall|i: int|
            0 <= i < other_omissions.len() ==> omission_fits(#[trigger] other_omissions[i]),
        candidate_preimage(compatibility, input, completeness, omissions) == candidate_preimage(
            other_compatibility,
            other_input,
            other_completeness,
            other_omissions,
        ),
    ensures
        compatibility == other_compatibility,
        input == other_input,
        completeness == other_completeness,
        omissions == other_omissions,
{
    let head = encode_utf8("code2graph.cache.candidate.v1\0"@);
    let m = match completeness {
        CacheCompleteness::Complete => 1u8,
        CacheCompleteness::Partial => 0u8,
    };
    let n = match other_completeness {
        CacheCompleteness::Complete => 1u8,
        CacheCompleteness::Partial => 0u8,
    };
    let x = seq![m] + omissions_part(omissions);
    let y = seq![n] + omissions_part(other_omissions);
    let a = part(compatibility) + (part(input) + x);
    let b = part(other_compatibility) + (part(other_input) + y);
    assert(candidate_preimage(compatibility, input, completeness, omissions) == head + a);
    assert(candidate_preimage(
        other_compatibility,
        other_input,
        other_completeness,
        other_omissions,
    ) == head + b);
    assert(a =~= (head + a).skip(head.len() as int));
    assert(b =~= (head + b).skip(head.len() as int));
    lemma_part_splits(compatibility, other_compatibility, part(input) + x, part(other_input) + y);
    lemma_part_splits(input, other_input, x, y);
    assert(x[0] == m && y[0] == n);
    assert(omissions_part(omissions) =~= x.skip(1));
    assert(omissions_part(other_omissions) =~= y.skip(1));
    lemma_flat_omissions(omissions);
    lemma_flat_omissions(other_omissions);
    parts_do_not_run_together(flat_omissions(omissions), flat_omissions(other_omissions));
    assert forall|i: int| 0 <= i < omissions.len() implies omissions[i] == other_omissions[i] by {
        let f = flat_omissions(omissions);
        let g = flat_omissions(other_omissions);
        bytes_determine_text(omissions[i].path, other_omissions[i].path);
        bytes_determine_text(omissions[i].reason, other_omissions[i].reason);
        bytes_determine_text(omissions[i].detail, other_omissions[i].detail);
        assert(f[3 * i] == g[3 * i] && f[3 * i + 1] == g[3 * i + 1] && f[3 * i + 2] == g[3 * i
            + 2]);
    }
    assert(omissions =~= other_omissions);
}

proof fn lemma_texts_told_apart(a: Seq<Seq<char>>, b: Seq<Seq<char>>)
    requires
        forall|i: int| 0 <= i < a.len() ==> text_fits(#[trigger] a[i]),
        forall|i: int| 0 <= i < b.len() ==> text_fits(#[trigger] b[i]),
        parts(text_bytes(a)) == parts(text_bytes(b)),
    ensures
        a == b,
{
    let x = text_bytes(a);
    let y = text_bytes(b);
    assert(x.len() == a.len() && y.len() == b.len());
    assert forall|i: int| 0 <= i < x.len() implies (#[trigger] x[i]).len() <= u64::MAX by {
        assert(text_fits(a[i]));
    }
    assert forall|i: int| 0 <= i < y.len() implies (#[trigger] y[i]).len() <= u64::MAX by {
        assert(text_fits(b[i]));
    }
    parts_do_not_run_together(x, y);
    assert forall|i: int| 0 <= i < a.len() implies a[i] == b[i] by {
        assert(x[i] == y[i]);
        bytes_determine_text(a[i], b[i]);
    }
    assert(a =~= b);
}

/// A selection of packages is told by the records of its manifests and by those of its
/// assignments, and the two are not taken for each other.
pub proof fn package_selections_are_told_apart(
    manifests: Seq<Seq<char>>,
    assignments: Seq<Seq<char>>,
    other_manifests: Seq<Seq<char>>,
    other_assignments: Seq<Seq<char>>,
)
    requires
        forall|i: int| 0 <= i < manifests.len() ==> text_fits(#[trigger] manifests[i]),
        forall|i: int| 0 <= i < assignments.len() ==> text_fits(#[trigger] assignments[i]),
        forall|i: int| 0 <= i < other_manifests.len() ==> text_fits(#[trigger] other_manifests[i]),
        forall|i: int|
            0 <= i < other_assignments.len() ==> text_fits(#[trigger] other_assignments[i]),
        parts(text_bytes(manifests)).len() <= u64::MAX,
        parts(text_bytes(assignments)).len() <= u64::MAX,
        parts(text_bytes(other_manifests)).len() <= u64::MAX,
        parts(text_bytes(other_assignments)).len() <= u64::MAX,
        package_preimage(manifests, assignments) == package_preimage(
            other_manifests,
            other_assignments,
        ),
    ensures
        manifests == other_manifests,
        assignments == other_assignments,
{
    let head = encode_utf8("code2graph.cache.package-selection.v1\0"@);
    let a = seq![parts(text_bytes(manifests)), parts(text_bytes(assignments))];
    let b = seq![parts(text_bytes(other_manifests)), parts(text_bytes(other_assignments))];
    assert(parts(a) =~= (head + parts(a)).skip(head.len() as int));
    assert(parts(b) =~= (head + parts(b)).skip(head.len() as int));
    parts_do_not_run_together(a, b);
    assert(a[0] == b[0] && a[1] == b[1]);
    lemma_texts_told_apart(manifests, other_manifests);
    lemma_texts_told_apart(assignments, other_assignments);
}

/// Keys and digests are told apart by their hexadecimal notation.
pub proof fn hexadecimal_notation_is_lossless(a: Seq<u8>, b: Seq<u8>)
    requires
        hex(a) == hex(b),
    ensures
        a == b,
    decreases a.len(),
{
    lemma_hex_length(a);
    lemma_hex_length(b);
    if a.len() > 0 {
        let x = a.drop_last();
        let y = b.drop_last();
        let s = hex(a);
        let t = hex(b);
        assert(hex(x) =~= s.drop_last().drop_last());
        assert(hex(y) =~= t.drop_last().drop_last());
        hexadecimal_notation_is_lossless(x, y);
        let m = s.len();
        assert(s[m - 1] == hex_digit(a.last() % 16) && s[m - 2] == hex_digit(a.last() / 16));
        assert(t[m - 1] == hex_digit(b.last() % 16) && t[m - 2] == hex_digit(b.last() / 16));
        lemma_hex_digit(a.last() % 16, b.last() % 16);
        lemma_hex_digit(a.last() / 16, b.last() / 16);
        assert(a.last() == b.last());
        assert(a =~= x.push(a.last()));
        assert(b =~= y.push(b.last()));
    } else {
        assert(a =~= b);
    }
}

proof fn lemma_hex_length(a: Seq<u8>)
    ensures
        hex(a).len() == 2 * a.len(),
    decreases a.len(),
{
    if a.len() > 0 {
        lemma_hex_length(a.drop_last());
    }
}

proof fn lemma_hex_digit(a: u8, b: u8)
    requires
        a < 16,
        b < 16,
        hex_digit(a) == hex_digit(b),
    ensures
        a == b,
{
    assert(hex_digit(a) as u32 == if a < 10 {
        48 + a as u32
    } else {
        87 + a as u32
    });
    assert(hex_digit(b) as u32 == if b < 10 {
        48 + b as u32
    } else {
        87 + b as u32
    });
}

proof fn lemma_first_byte(s: Seq<char>, rest: Seq<u8>)
    requires
        s.len() > 0,
        is_ascii_chars(s),
    ensures
        encode_utf8(s).len() == s.len(),
        (encode_utf8(s) + rest)[0] == s[0] as u8,
{
    is_ascii_chars_encode_utf8(s);
}

/// Roots are told apart by their bytes and by the platform whose bytes they are.
pub proof fn roots_of_platforms_are_told_apart(
    platform: Platform,
    root: Seq<u8>,
    other_platform: Platform,
    other: Seq<u8>,
)
    requires
        root.len() <= u64::MAX,
        other.len() <= u64::MAX,
        project_key_preimage(platform, root) == project_key_preimage(other_platform, other),
    ensures
        platform == other_platform,
        root == other,
{
    reveal_strlit("unix\0");
    reveal_strlit("windows-utf16le\0");
    reveal_strlit("rust-osstr-encoded-bytes\0");
    let head = encode_utf8("code2graph.cache.project-key.v1\0"@);
    let a = encode_utf8(encoding_tag(platform)) + part(root);
    let b = encode_utf8(encoding_tag(other_platform)) + part(other);
    assert(a =~= (head + a).skip(head.len() as int));
    assert(b =~= (head + b).skip(head.len() as int));
    lemma_first_byte(encoding_tag(platform), part(root));
    lemma_first_byte(encoding_tag(other_platform), part(other));
    roots_are_hashed_apart(platform, root, other);
}

/// An identity is that of one source: it is accepted for no other path.
pub proof fn identities_belong_to_one_source(value: Seq<char>, path: Seq<char>, other: Seq<char>)
    requires
        encode_utf8(value).len() <= usize::MAX,
        is_canonical_identity(value, path),
        is_canonical_identity(value, other),
    ensures
        path == other,
{
    let a = choose|fields: Seq<Seq<char>>| #[trigger]
        record(fields) == value && identity_fields_ok(fields, path);
    let b = choose|fields: Seq<Seq<char>>| #[trigger]
        record(fields) == value && identity_fields_ok(fields, other);
    lemma_fields_fit(a);
    lemma_fields_fit(b);
    records_do_not_collide(a, b);
}

/// Manifests that differ in their path, their content, their parser or their package have
/// different records.
pub proof fn records_tell_manifests_apart(a: ManifestInput, b: ManifestInput)
    requires
        fields_fit(a.fields()),
        fields_fit(b.fields()),
        a.content_hash is Some,
        b.content_hash is Some,
        record(a.fields()) == record(b.fields()),
    ensures
        a.path@ == b.path@,
        a.content_hash->0@ == b.content_hash->0@,
        a.parser == b.parser,
        a.outcome is Parsed <==> b.outcome is Parsed,
        a.outcome matches ManifestOutcome::Parsed(p) ==> (b.outcome matches
            ManifestOutcome::Parsed(q) ==> p@ == q@),
{
    reveal_strlit("cargo");
    reveal_strlit("npm");
    reveal_strlit("go");
    reveal_strlit("pypi");
    reveal_strlit("parsed");
    reveal_strlit("failed");
    records_do_not_collide(a.fields(), b.fields());
    let x = a.fields();
    let y = b.fields();
    assert(x[1] == a.path@ && y[1] == b.path@);
    assert(x[2] == a.content_hash->0@ && y[2] == b.content_hash->0@);
    assert(x[3] == a.parser.spelling() && y[3] == b.parser.spelling());
    assert(x[3][0] == y[3][0]);
    assert(x[3].len() == y[3].len());
    assert(x[4][0] == y[4][0]);
    if a.outcome is Parsed && b.outcome is Parsed {
        assert(x[5] == y[5] && x[6] == y[6] && x[7] == y[7]);
    }
}

} // verus!
