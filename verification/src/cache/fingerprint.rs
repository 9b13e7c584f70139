//! Content digests: what is hashed, and how its parts are kept apart.

use vstd::bytes::{spec_u64_to_le_bytes, u64_to_le_bytes};
use vstd::prelude::*;
use vstd::string::*;
use vstd::utf8::*;
use crate::cache::types::{CacheCompleteness, CacheOmission, OmissionView};
use crate::graph::Language;
use crate::package_assignment::records::texts;
use crate::text::same_bytes;

verus! {

/// The BLAKE3 digest of a byte string.
pub uninterp spec fn blake3_of(bytes: Seq<u8>) -> Seq<u8>;

/// `blake3::hash` gives the digest of its input, which depends on the input's bytes
/// alone. What the digest is, and that digests of different inputs differ, is not
/// claimed.
#[verifier::external_body]
pub(crate) fn blake3_digest(bytes: &[u8]) -> (r: [u8; 32])
    ensures
        r@ == blake3_of(bytes@),
{
    *blake3::hash(bytes).as_bytes()
}

/// A byte string behind its length.
pub open spec fn part(b: Seq<u8>) -> Seq<u8> {
    spec_u64_to_le_bytes(b.len() as u64) + b
}

/// Byte strings one after the other, each behind its length.
pub open spec fn parts(bs: Seq<Seq<u8>>) -> Seq<u8>
    decreases bs.len(),
{
    if bs.len() == 0 {
        Seq::empty()
    } else {
        parts(bs.drop_last()) + part(bs.last())
    }
}

/// Every byte string has a length that fits in sixty-four bits.
pub open spec fn parts_fit(bs: Seq<Seq<u8>>) -> bool {
    forall|i: int| 0 <= i < bs.len() ==> (#[trigger] bs[i]).len() <= u64::MAX
}

proof fn lemma_parts_front(bs: Seq<Seq<u8>>)
    requires
        bs.len() > 0,
    ensures
        parts(bs) == part(bs[0]) + parts(bs.drop_first()),
    decreases bs.len(),
{
    if bs.len() == 1 {
        reveal_with_fuel(parts, 2);
        assert(bs.drop_last() =~= Seq::<Seq<u8>>::empty());
        assert(bs.drop_first() =~= Seq::<Seq<u8>>::empty());
        assert(parts(bs) =~= part(bs[0]) + parts(bs.drop_first()));
    } else {
        let init = bs.drop_last();
        lemma_parts_front(init);
        assert(init.drop_first() =~= bs.drop_first().drop_last());
        assert(bs.drop_first().last() == bs.last());
        assert(parts(bs) =~= part(bs[0]) + parts(bs.drop_first()));
    }
}

/// Different lists of parts are different byte strings: no part runs into the
/// next.
pub proof fn parts_do_not_run_together(a: Seq<Seq<u8>>, b: Seq<Seq<u8>>)
    requires
        parts_fit(a),
        parts_fit(b),
        parts(a) == parts(b),
    ensures
        a == b,
    decreases a.len(),
{
    vstd::bytes::lemma_auto_spec_u64_to_from_le_bytes();
    if a.len() == 0 && b.len() == 0 {
        assert(a =~= b);
    } else if a.len() == 0 {
        lemma_parts_front(b);
        assert(parts(a).len() == 0);
    } else if b.len() == 0 {
        lemma_parts_front(a);
        assert(parts(b).len() == 0);
    } else {
        lemma_parts_front(a);
        lemma_parts_front(b);
        let la = spec_u64_to_le_bytes(a[0].len() as u64);
        let lb = spec_u64_to_le_bytes(b[0].len() as u64);
        let pa = parts(a);
        assert(la =~= pa.take(8));
        assert(lb =~= parts(b).take(8));
        assert(a[0].len() as u64 == b[0].len() as u64);
        assert(a[0].len() == b[0].len());
        let n = a[0].len() as int;
        assert(a[0] =~= pa.subrange(8, 8 + n));
        assert(b[0] =~= parts(b).subrange(8, 8 + n));
        let ra = a.drop_first();
        let rb = b.drop_first();
        assert(parts(ra) =~= pa.skip(8 + n));
        assert(parts(rb) =~= parts(b).skip(8 + n));
        assert(parts_fit(ra)) by {
            assert forall|i: int| 0 <= i < ra.len() implies (#[trigger] ra[i]).len()
                <= u64::MAX by {
                assert(a[i + 1].len() <= u64::MAX);
            }
        }
        assert(parts_fit(rb)) by {
            assert forall|i: int| 0 <= i < rb.len() implies (#[trigger] rb[i]).len()
                <= u64::MAX by {
                assert(b[i + 1].len() <= u64::MAX);
            }
        }
        parts_do_not_run_together(ra, rb);
        assert(a =~= seq![a[0]] + ra);
        assert(b =~= seq![b[0]] + rb);
    }
}

/// Appends bytes.
pub(crate) fn append_bytes(out: &mut Vec<u8>, b: &[u8])
    ensures
        final(out)@ == old(out)@ + b@,
{
    let ghost start = out@;
    let mut i: usize = 0;
    while i < b.len()
        invariant
            i <= b.len(),
            out@ == start + b@.take(i as int),
        decreases b.len() - i,
    {
        out.push(b[i]);
        i += 1;
        assert(out@ =~= start + b@.take(i as int));
    }
    assert(b@.take(b@.len() as int) =~= b@);
}

/// Appends a byte string behind its length.
pub(crate) fn write_part(out: &mut Vec<u8>, value: &[u8])
    ensures
        final(out)@ == old(out)@ + part(value@),
{
    let ghost start = out@;
    let length = u64_to_le_bytes(value.len() as u64);
    append_bytes(out, length.as_slice());
    append_bytes(out, value);
    assert(out@ =~= start + part(value@));
}

/// The bytes of each text.
pub open spec fn text_bytes(v: Seq<Seq<char>>) -> Seq<Seq<u8>> {
    v.map_values(|s: Seq<char>| encode_utf8(s))
}

/// Appends texts, each behind its length.
fn write_texts(out: &mut Vec<u8>, v: &Vec<String>)
    ensures
        final(out)@ == old(out)@ + parts(text_bytes(texts(v@))),
{
    let ghost start = out@;
    let ghost all = text_bytes(texts(v@));
    let mut i: usize = 0;
    assert(all.take(0) =~= Seq::<Seq<u8>>::empty());
    while i < v.len()
        invariant
            i <= v.len(),
            all == text_bytes(texts(v@)),
            out@ == start + parts(all.take(i as int)),
        decreases v.len() - i,
    {
        let ghost more = all.take(i as int + 1);
        assert(more.drop_last() =~= all.take(i as int));
        assert(more.last() == encode_utf8(v@[i as int]@));
        write_part(out, v[i].as_str().as_bytes());
        i += 1;
        assert(out@ =~= start + parts(more));
    }
    assert(all.take(all.len() as int) =~= all);
}

/// What the compiled language support hashes: the tags of the languages.
pub open spec fn language_preimage(tags: Seq<Seq<char>>) -> Seq<u8> {
    encode_utf8("code2graph.cache.language-features.v1\0"@) + parts(text_bytes(tags))
}

/// Identity of the language support that facts were extracted with.
#[derive(Debug, Clone, Copy, PartialEq, Eq, Hash)]
pub struct LanguageFeatureFingerprint {
    pub bytes: [u8; 32],
}

/// The tags of all languages.
pub open spec fn all_tags() -> Seq<Seq<char>> {
    seq![
        Language::Rust.tag(),
        Language::Python.tag(),
        Language::TypeScript.tag(),
        Language::JavaScript.tag(),
        Language::Go.tag(),
        Language::Sql.tag(),
    ]
}

impl LanguageFeatureFingerprint {
    /// The fingerprint of the languages that this build supports.
    pub fn current() -> (r: Self)
        ensures
            r.bytes@ == blake3_of(language_preimage(all_tags())),
    {
        let mut tags: Vec<String> = Vec::new();
        tags.push(Language::Rust.as_str().to_owned());
        tags.push(Language::Python.as_str().to_owned());
        tags.push(Language::TypeScript.as_str().to_owned());
        tags.push(Language::JavaScript.as_str().to_owned());
        tags.push(Language::Go.as_str().to_owned());
        tags.push(Language::Sql.as_str().to_owned());
        assert(texts(tags@) =~= all_tags());
        let mut buffer: Vec<u8> = Vec::new();
        append_bytes(&mut buffer, "code2graph.cache.language-features.v1\0".as_bytes());
        write_texts(&mut buffer, &tags);
        assert(buffer@ =~= language_preimage(all_tags()));
        LanguageFeatureFingerprint { bytes: blake3_digest(buffer.as_slice()) }
    }

    /// Tells whether two fingerprints are equal.
    pub fn same(&self, other: &Self) -> (r: bool)
        ensures
            r == (self.bytes@ == other.bytes@),
    {
        same_bytes(self.bytes.as_slice(), other.bytes.as_slice())
    }
}

/// What a package selection hashes: the records of its manifests and of its
/// assignments, the two lists kept apart.
pub open spec fn package_preimage(
    manifests: Seq<Seq<char>>,
    assignments: Seq<Seq<char>>,
) -> Seq<u8> {
    encode_utf8("code2graph.cache.package-selection.v1\0"@) + parts(
        seq![parts(text_bytes(manifests)), parts(text_bytes(assignments))],
    )
}

/// Identity of the package selection that facts were enriched with.
#[derive(Debug, Clone, Copy, PartialEq, Eq, Hash)]
pub struct PackageFingerprint {
    pub bytes: [u8; 32],
}

impl PackageFingerprint {
    /// The fingerprint of a list of normalized records.
    pub fn from_normalized(records: &Vec<String>) -> (r: Self)
        ensures
            r.bytes@ == blake3_of(package_preimage(texts(records@), Seq::empty())),
    {
        let none: Vec<String> = Vec::new();
        assert(texts(none@) =~= Seq::<Seq<char>>::empty());
        PackageFingerprint::from_selection(records, &none)
    }

    /// The fingerprint of manifest records and per-source assignment records.
    pub fn from_selection(manifests: &Vec<String>, assignments: &Vec<String>) -> (r: Self)
        ensures
            r.bytes@ == blake3_of(package_preimage(texts(manifests@), texts(assignments@))),
    {
        let mut first: Vec<u8> = Vec::new();
        write_texts(&mut first, manifests);
        let mut second: Vec<u8> = Vec::new();
        write_texts(&mut second, assignments);
        let ghost a = parts(text_bytes(texts(manifests@)));
        let ghost b = parts(text_bytes(texts(assignments@)));
        assert(first@ =~= a);
        assert(second@ =~= b);
        let mut buffer: Vec<u8> = Vec::new();
        append_bytes(&mut buffer, "code2graph.cache.package-selection.v1\0".as_bytes());
        write_part(&mut buffer, first.as_slice());
        write_part(&mut buffer, second.as_slice());
        proof {
            reveal_with_fuel(parts, 3);
            assert(seq![a, b].drop_last() =~= seq![a]);
            assert(seq![a].drop_last() =~= Seq::<Seq<u8>>::empty());
            assert(buffer@ =~= package_preimage(texts(manifests@), texts(assignments@)));
        }
        PackageFingerprint { bytes: blake3_digest(buffer.as_slice()) }
    }

    /// Tells whether two fingerprints are equal.
    pub fn same(&self, other: &Self) -> (r: bool)
        ensures
            r == (self.bytes@ == other.bytes@),
    {
        same_bytes(self.bytes.as_slice(), other.bytes.as_slice())
    }
}

/// What a compatibility identity hashes.
pub open spec fn compatibility_preimage(language: Seq<u8>, package: Seq<u8>) -> Seq<u8> {
    encode_utf8("code2graph.cache.compatibility.v1\0"@) + (part(language) + part(package))
}

/// Identity of everything that must agree before cached facts can be reused.
#[derive(Debug, Clone, Copy, PartialEq, Eq, Hash)]
pub struct CompatibilityFingerprint {
    pub bytes: [u8; 32],
}

impl CompatibilityFingerprint {
    /// The identity of a language support and a package selection.
    pub fn new(language: LanguageFeatureFingerprint, package: PackageFingerprint) -> (r: Self)
        ensures
            r.bytes@ == blake3_of(compatibility_preimage(language.bytes@, package.bytes@)),
    {
        let mut buffer: Vec<u8> = Vec::new();
        append_bytes(&mut buffer, "code2graph.cache.compatibility.v1\0".as_bytes());
        write_part(&mut buffer, language.bytes.as_slice());
        write_part(&mut buffer, package.bytes.as_slice());
        assert(buffer@ =~= compatibility_preimage(language.bytes@, package.bytes@));
        CompatibilityFingerprint { bytes: blake3_digest(buffer.as_slice()) }
    }

    /// Tells whether two identities are equal.
    pub fn same(&self, other: &Self) -> (r: bool)
        ensures
            r == (self.bytes@ == other.bytes@),
    {
        same_bytes(self.bytes.as_slice(), other.bytes.as_slice())
    }
}

/// One source of a project: its path, its language and the digest of its content.
pub struct InputView {
    pub path: Seq<char>,
    pub language: Seq<char>,
    pub content_hash: Seq<u8>,
}

/// The parts of one source.
pub open spec fn input_part(row: InputView) -> Seq<u8> {
    part(encode_utf8(row.path)) + (part(encode_utf8(row.language)) + part(row.content_hash))
}

/// The parts of all sources in their order.
pub open spec fn inputs_part(rows: Seq<InputView>) -> Seq<u8>
    decreases rows.len(),
{
    if rows.len() == 0 {
        Seq::empty()
    } else {
        inputs_part(rows.drop_last()) + input_part(rows.last())
    }
}

/// What the digest of a project's sources hashes.
pub open spec fn input_preimage(rows: Seq<InputView>) -> Seq<u8> {
    encode_utf8("code2graph.cache.project-input.v1\0"@) + inputs_part(rows)
}

/// Digest of the sources of a project.
#[derive(Debug, Clone, Copy, PartialEq, Eq, Hash)]
pub struct ProjectInputDigest {
    pub bytes: [u8; 32],
}

/// Collects the sources of a project for their digest.
pub(crate) struct InputCollector {
    buffer: Vec<u8>,
}

impl InputCollector {
    /// What has been collected.
    pub closed spec fn collected(self) -> Seq<u8> {
        self.buffer@
    }

    /// Nothing collected yet.
    pub fn new() -> (r: Self)
        ensures
            r.collected() == input_preimage(Seq::empty()),
    {
        let mut buffer: Vec<u8> = Vec::new();
        append_bytes(&mut buffer, "code2graph.cache.project-input.v1\0".as_bytes());
        assert(buffer@ =~= input_preimage(Seq::empty()));
        InputCollector { buffer }
    }

    /// Adds one source.
    pub fn add_source(
        &mut self,
        path: &str,
        language: &str,
        content_hash: &[u8; 32],
        rows: Ghost<Seq<InputView>>,
    )
        requires
            old(self).collected() == input_preimage(rows@),
        ensures
            final(self).collected() == input_preimage(
                rows@.push(
                    InputView { path: path@, language: language@, content_hash: content_hash@ },
                ),
            ),
    {
        write_part(&mut self.buffer, path.as_bytes());
        write_part(&mut self.buffer, language.as_bytes());
        write_part(&mut self.buffer, content_hash.as_slice());
        proof {
            let row = InputView {
                path: path@,
                language: language@,
                content_hash: content_hash@,
            };
            let more = rows@.push(row);
            assert(more.drop_last() =~= rows@);
            assert(self.buffer@ =~= input_preimage(more));
        }
    }

    /// The digest of what has been collected.
    pub fn digest(&self) -> (r: ProjectInputDigest)
        ensures
            r.bytes@ == blake3_of(self.collected()),
    {
        ProjectInputDigest { bytes: blake3_digest(self.buffer.as_slice()) }
    }
}

/// The sources as the digest sees them.
pub open spec fn input_views(rows: Seq<(String, String, [u8; 32])>) -> Seq<InputView> {
    rows.map_values(
        |r: (String, String, [u8; 32])|
            InputView { path: r.0@, language: r.1@, content_hash: r.2@ },
    )
}

impl ProjectInputDigest {
    /// The digest of a list of sources, each given by path, language and content
    /// hash.
    pub fn from_inputs(rows: &Vec<(String, String, [u8; 32])>) -> (r: Self)
        ensures
            r.bytes@ == blake3_of(input_preimage(input_views(rows@))),
    {
        let mut collector = InputCollector::new();
        let ghost all = input_views(rows@);
        let mut i: usize = 0;
        assert(all.take(0) =~= Seq::<InputView>::empty());
        while i < rows.len()
            invariant
                i <= rows.len(),
                all == input_views(rows@),
                collector.collected() == input_preimage(all.take(i as int)),
            decreases rows.len() - i,
        {
            let row = &rows[i];
            collector.add_source(
                row.0.as_str(),
                row.1.as_str(),
                &row.2,
                Ghost(all.take(i as int)),
            );
            assert(all.take(i as int + 1) =~= all.take(i as int).push(all[i as int]));
            i += 1;
        }
        assert(all.take(all.len() as int) =~= all);
        collector.digest()
    }

    /// Tells whether two digests are equal.
    pub fn same(&self, other: &Self) -> (r: bool)
        ensures
            r == (self.bytes@ == other.bytes@),
    {
        same_bytes(self.bytes.as_slice(), other.bytes.as_slice())
    }
}

/// The parts of one omission.
pub open spec fn omission_part(o: OmissionView) -> Seq<u8> {
    part(encode_utf8(o.path)) + (part(encode_utf8(o.reason)) + part(encode_utf8(o.detail)))
}

/// The parts of all omissions in their order.
pub open spec fn omissions_part(rows: Seq<OmissionView>) -> Seq<u8>
    decreases rows.len(),
{
    if rows.len() == 0 {
        Seq::empty()
    } else {
        omissions_part(rows.drop_last()) + omission_part(rows.last())
    }
}

/// The texts of the omissions.
pub open spec fn omission_views(rows: Seq<CacheOmission>) -> Seq<OmissionView> {
    rows.map_values(|o: CacheOmission| o@)
}

/// What the identity of a candidate hashes.
pub open spec fn candidate_preimage(
    compatibility: Seq<u8>,
    input: Seq<u8>,
    completeness: CacheCompleteness,
    omissions: Seq<OmissionView>,
) -> Seq<u8> {
    encode_utf8("code2graph.cache.candidate.v1\0"@) + (part(compatibility) + (part(input) + (seq![
        match completeness {
            CacheCompleteness::Complete => 1u8,
            CacheCompleteness::Partial => 0u8,
        },
    ] + omissions_part(omissions))))
}

/// Identity of one indexed candidate.
#[derive(Debug, Clone, Copy, PartialEq, Eq, Hash)]
pub struct CandidateId {
    pub bytes: [u8; 32],
}

impl CandidateId {
    /// The identity of a candidate with these inputs and omissions.
    pub fn new(
        compatibility: CompatibilityFingerprint,
        input: ProjectInputDigest,
        completeness: CacheCompleteness,
        omissions: &Vec<CacheOmission>,
    ) -> (r: Self)
        ensures
            r.bytes@ == blake3_of(
                candidate_preimage(
                    compatibility.bytes@,
                    input.bytes@,
                    completeness,
                    omission_views(omissions@),
                ),
            ),
    {
        let mut buffer: Vec<u8> = Vec::new();
        append_bytes(&mut buffer, "code2graph.cache.candidate.v1\0".as_bytes());
        write_part(&mut buffer, compatibility.bytes.as_slice());
        write_part(&mut buffer, input.bytes.as_slice());
        match completeness {
            CacheCompleteness::Complete => buffer.push(1),
            CacheCompleteness::Partial => buffer.push(0),
        }
        let ghost start = buffer@;
        let ghost all = omission_views(omissions@);
        let mut i: usize = 0;
        assert(all.take(0) =~= Seq::<OmissionView>::empty());
        while i < omissions.len()
            invariant
                i <= omissions.len(),
                all == omission_views(omissions@),
                buffer@ == start + omissions_part(all.take(i as int)),
            decreases omissions.len() - i,
        {
            let ghost more = all.take(i as int + 1);
            assert(more.drop_last() =~= all.take(i as int));
            assert(more.last() == omissions@[i as int]@);
            write_part(&mut buffer, omissions[i].path.as_str().as_bytes());
            write_part(&mut buffer, omissions[i].reason.as_str().as_bytes());
            write_part(&mut buffer, omissions[i].detail.as_str().as_bytes());
            i += 1;
            assert(buffer@ =~= start + omissions_part(more));
        }
        proof {
            assert(all.take(all.len() as int) =~= all);
            assert(buffer@ =~= candidate_preimage(
                compatibility.bytes@,
                input.bytes@,
                completeness,
                all,
            ));
        }
        CandidateId { bytes: blake3_digest(buffer.as_slice()) }
    }

    /// Tells whether two identities are equal.
    pub fn same(&self, other: &Self) -> (r: bool)
        ensures
            r == (self.bytes@ == other.bytes@),
    {
        same_bytes(self.bytes.as_slice(), other.bytes.as_slice())
    }
}

} // verus!
