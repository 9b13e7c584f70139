//! Laws that span several functions, on concrete values.

use code2graph::cache::fingerprint::{PackageFingerprint, ProjectInputDigest};
use code2graph::cache::transaction::{next_stage, TransactionNext, TransactionStage};
use code2graph::cache::types::{
    CacheCompleteness, CacheError, CandidateCompleteness, ResolverCacheTier,
};
use code2graph::graph::Language;
use code2graph::package_assignment::records::{canonical_record, parse_canonical_record};
use code2graph::refresh::prepare::pool::{
    ordered_outcomes, IndexedOutcome, WorkerRegistry, WorkerSlot,
};
use code2graph::refresh::prepare::recovery::{bounded_detail, ExtractionOutcome};

fn texts(words: &[&str]) -> Vec<String> {
    words.iter().map(|word| (*word).to_owned()).collect()
}

#[test]
fn hashed_parts_do_not_run_together() {
    assert_ne!(
        PackageFingerprint::from_normalized(&texts(&["ab", "c"])),
        PackageFingerprint::from_normalized(&texts(&["a", "bc"]))
    );
    let row = |path: &str, language: &str| {
        ProjectInputDigest::from_inputs(&vec![(path.to_owned(), language.to_owned(), [1; 32])])
    };
    assert_ne!(row("ab", "c"), row("a", "bc"));
    assert_eq!(row("ab", "c"), row("ab", "c"));
}

#[test]
fn records_read_back_and_tell_their_fields_apart() {
    for fields in [texts(&[]), texts(&["", ""]), texts(&["a:b", "1:", "\u{e9}"])] {
        let record = canonical_record(&fields);
        assert_eq!(parse_canonical_record(&record), Some(fields));
    }
    assert_eq!(canonical_record(&texts(&["assignment", "\u{e9}"])), "10:assignment2:\u{e9}");
    assert_ne!(canonical_record(&texts(&["ab", "c"])), canonical_record(&texts(&["a", "bc"])));
    assert_eq!(parse_canonical_record("2:a"), None);
}

#[test]
fn language_tags_are_distinct_and_read_back() {
    let languages = [
        Language::Rust,
        Language::Python,
        Language::TypeScript,
        Language::JavaScript,
        Language::Go,
        Language::Sql,
    ];
    for language in languages {
        assert_eq!(Language::from_tag(language.as_str()), Some(language));
    }
    assert_eq!(Language::from_tag("klingon"), None);
}

#[test]
fn stored_spellings_read_back() {
    for tier in [ResolverCacheTier::Name, ResolverCacheTier::Scope, ResolverCacheTier::Dense] {
        assert_eq!(ResolverCacheTier::from_sql(tier.as_sql()), Ok(tier));
    }
    assert_eq!(ResolverCacheTier::from_sql("other"), Err(CacheError::Corrupt));
    for completeness in [CacheCompleteness::Complete, CacheCompleteness::Partial] {
        assert_eq!(CacheCompleteness::from_sql(completeness.as_sql()), Ok(completeness));
    }
    assert_eq!(CacheCompleteness::from_sql(2), Err(CacheError::Corrupt));
}

#[test]
fn slots_of_the_registry_are_independent() {
    let mut registry = WorkerRegistry::new(2);
    let (first, second) = (WorkerSlot { index: 0 }, WorkerSlot { index: 1 });
    first.set(&mut registry, "one");
    second.set(&mut registry, "two");
    first.clear(&mut registry);
    assert_eq!(registry.slots, [None, Some("two")]);
    WorkerSlot { index: 2 }.set(&mut registry, "three");
    assert_eq!(registry.slots.len(), 2);
}

#[test]
fn details_are_cut_at_a_character() {
    assert_eq!(bounded_detail("worker-extraction", "short"), "stage=worker-extraction error=short");
    let long = bounded_detail("s", &"\u{e9}".repeat(10_000));
    assert!(long.starts_with("stage=s error=\u{e9}"));
    assert!(long.len() < 10_000);
}

#[test]
fn transactions_keep_all_or_nothing() {
    let run = |went: &[Option<CacheError>]| {
        let mut stage = TransactionStage::Open;
        let mut stages = Vec::new();
        for failure in went {
            stages.push(stage);
            match next_stage(stage, *failure) {
                TransactionNext::Do(next) => stage = next,
                TransactionNext::Ended { failure } => return (failure, stages),
            }
        }
        panic!("the transaction did not end")
    };
    let (failure, stages) = run(&[None, None, None]);
    assert_eq!(failure, None);
    assert_eq!(stages.last(), Some(&TransactionStage::Commit));
    let (failure, stages) = run(&[None, Some(CacheError::Access), Some(CacheError::Corrupt)]);
    assert_eq!(failure, Some(CacheError::Access));
    assert!(!stages.contains(&TransactionStage::Commit));
    let (failure, stages) = run(&[None, None, Some(CacheError::LockContention), None]);
    assert_eq!(failure, Some(CacheError::LockContention));
    assert!(matches!(stages.last(), Some(TransactionStage::RollBack { .. })));
    let (failure, stages) = run(&[Some(CacheError::LockContention)]);
    assert_eq!(failure, Some(CacheError::LockContention));
    assert_eq!(stages, [TransactionStage::Open]);
}

#[test]
fn outcomes_in_any_order_are_put_in_plan_order() {
    let outcome = |index: usize| IndexedOutcome {
        index,
        outcome: Ok(ExtractionOutcome::Omitted { detail: format!("file {index}") }),
    };
    assert!(ordered_outcomes(Vec::new()).is_empty());
    let ordered = ordered_outcomes(vec![outcome(4), outcome(0), outcome(2)]);
    let indices: Vec<_> = ordered.iter().map(|outcome| outcome.index).collect();
    assert_eq!(indices, [0, 2, 4]);
    for found in ordered {
        let Ok(ExtractionOutcome::Omitted { detail }) = found.outcome else {
            panic!("the outcome was an omission")
        };
        assert_eq!(detail, format!("file {}", found.index));
    }
}

#[test]
fn both_spellings_of_completeness_agree() {
    assert_eq!(
        CacheCompleteness::from(CandidateCompleteness::Complete),
        CacheCompleteness::Complete
    );
    assert_eq!(
        CacheCompleteness::from(CandidateCompleteness::Partial),
        CacheCompleteness::Partial
    );
}
