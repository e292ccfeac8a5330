//! The built-in rules.

pub mod common;
pub mod r01_fallback;

pub use r01_fallback::FallbackMasksError;
pub mod r09_commented_code;
pub use r09_commented_code::CommentedCode;
pub mod r03_missing_doc;
pub use r03_missing_doc::MissingDoc;
pub mod r23_wrong_error_type;
pub use r23_wrong_error_type::WrongErrorTypePropagation;
pub mod r07_dead_code;
pub use r07_dead_code::DeadCode;
pub mod r02_bloat;
pub use r02_bloat::StructuralBloat;
pub mod r16_self_validating_test;
pub use r16_self_validating_test::SelfValidatingTest;
pub mod r14_hardcoded_secret;
pub use r14_hardcoded_secret::HardcodedSecret;
pub mod r15_missing_validation;
pub use r15_missing_validation::MissingInputValidation;
pub mod r04_simple_unit_test;
pub use r04_simple_unit_test::SimpleUnitTest;
pub mod r19_n_plus_one;
pub use r19_n_plus_one::NPlusOneQuery;
pub mod r24_hardcoded_path;
pub use r24_hardcoded_path::HardcodedPathOrUrl;
pub mod r18_async_missing_await;
pub use r18_async_missing_await::AsyncMissingAwait;
pub mod r06_over_engineering;
pub use r06_over_engineering::OverEngineering;
pub mod r28_overly_defensive;
pub use r28_overly_defensive::OverlyDefensiveHandling;
pub mod r05_shallow_integration;
pub use r05_shallow_integration::ShallowIntegration;
pub mod r20_resource_leak;
pub use r20_resource_leak::ResourceLeak;
pub mod r10_magic_number;
pub use r10_magic_number::MagicNumber;
pub mod r08_todo;
pub use r08_todo::TodoFixme;

use vstd::prelude::*;
use crate::finding::Severity;
use crate::finding::{Finding, FindingView};
use crate::parser::Language;
use crate::rule::{AnalysisContext, Rule, RuleError};

verus! {

/// The ids of the built-in rules, in registry order.
pub open spec fn registry_ids() -> Seq<Seq<char>> {
    seq![
        "R01"@,
        "R02"@,
        "R03"@,
        "R04"@,
        "R05"@,
        "R06"@,
        "R07"@,
        "R08"@,
        "R09"@,
        "R10"@,
        "R14"@,
        "R15"@,
        "R16"@,
        "R18"@,
        "R19"@,
        "R20"@,
        "R23"@,
        "R24"@,
        "R28"@,
    ]
}

/// The names of the built-in rules, in registry order.
pub open spec fn registry_names() -> Seq<Seq<char>> {
    seq![
        "fallback-masks-error"@,
        "structural-bloat"@,
        "missing-doc"@,
        "simple-unit-test"@,
        "shallow-integration-test"@,
        "over-engineering"@,
        "dead-code"@,
        "todo-fixme-accumulation"@,
        "commented-out-code"@,
        "magic-number"@,
        "hardcoded-secret"@,
        "missing-input-validation"@,
        "self-validating-test"@,
        "async-missing-await"@,
        "n-plus-one-query"@,
        "resource-leak"@,
        "wrong-error-type-propagation"@,
        "hardcoded-path-or-url"@,
        "overly-defensive-handling"@,
    ]
}

/// The severities of the built-in rules, in registry order.
pub open spec fn registry_severities() -> Seq<Severity> {
    seq![
        Severity::Error,
        Severity::Warning,
        Severity::Warning,
        Severity::Warning,
        Severity::Warning,
        Severity::Info,
        Severity::Warning,
        Severity::Info,
        Severity::Warning,
        Severity::Info,
        Severity::Error,
        Severity::Warning,
        Severity::Warning,
        Severity::Error,
        Severity::Warning,
        Severity::Warning,
        Severity::Warning,
        Severity::Warning,
        Severity::Info,
    ]
}

/// Each rule type's id, name and severity are those of its registry position,
/// the position at which `all_rules` places it.
pub proof fn lemma_registry_matches_rules()
    ensures
        forall|x: FallbackMasksError| x.spec_id() == registry_ids()[0] && x.spec_name() == registry_names()[0]
            && x.spec_severity() == registry_severities()[0],
        forall|x: StructuralBloat| x.spec_id() == registry_ids()[1] && x.spec_name() == registry_names()[1]
            && x.spec_severity() == registry_severities()[1],
        forall|x: MissingDoc| x.spec_id() == registry_ids()[2] && x.spec_name() == registry_names()[2]
            && x.spec_severity() == registry_severities()[2],
        forall|x: SimpleUnitTest| x.spec_id() == registry_ids()[3] && x.spec_name() == registry_names()[3]
            && x.spec_severity() == registry_severities()[3],
        forall|x: ShallowIntegration| x.spec_id() == registry_ids()[4] && x.spec_name() == registry_names()[4]
            && x.spec_severity() == registry_severities()[4],
        forall|x: OverEngineering| x.spec_id() == registry_ids()[5] && x.spec_name() == registry_names()[5]
            && x.spec_severity() == registry_severities()[5],
        forall|x: DeadCode| x.spec_id() == registry_ids()[6] && x.spec_name() == registry_names()[6]
            && x.spec_severity() == registry_severities()[6],
        forall|x: TodoFixme| x.spec_id() == registry_ids()[7] && x.spec_name() == registry_names()[7]
            && x.spec_severity() == registry_severities()[7],
        forall|x: CommentedCode| x.spec_id() == registry_ids()[8] && x.spec_name() == registry_names()[8]
            && x.spec_severity() == registry_severities()[8],
        forall|x: MagicNumber| x.spec_id() == registry_ids()[9] && x.spec_name() == registry_names()[9]
            && x.spec_severity() == registry_severities()[9],
        forall|x: HardcodedSecret| x.spec_id() == registry_ids()[10] && x.spec_name() == registry_names()[10]
            && x.spec_severity() == registry_severities()[10],
        forall|x: MissingInputValidation| x.spec_id() == registry_ids()[11] && x.spec_name() == registry_names()[11]
            && x.spec_severity() == registry_severities()[11],
        forall|x: SelfValidatingTest| x.spec_id() == registry_ids()[12] && x.spec_name() == registry_names()[12]
            && x.spec_severity() == registry_severities()[12],
        forall|x: AsyncMissingAwait| x.spec_id() == registry_ids()[13] && x.spec_name() == registry_names()[13]
            && x.spec_severity() == registry_severities()[13],
        forall|x: NPlusOneQuery| x.spec_id() == registry_ids()[14] && x.spec_name() == registry_names()[14]
            && x.spec_severity() == registry_severities()[14],
        forall|x: ResourceLeak| x.spec_id() == registry_ids()[15] && x.spec_name() == registry_names()[15]
            && x.spec_severity() == registry_severities()[15],
        forall|x: WrongErrorTypePropagation| x.spec_id() == registry_ids()[16] && x.spec_name() == registry_names()[16]
            && x.spec_severity() == registry_severities()[16],
        forall|x: HardcodedPathOrUrl| x.spec_id() == registry_ids()[17] && x.spec_name() == registry_names()[17]
            && x.spec_severity() == registry_severities()[17],
        forall|x: OverlyDefensiveHandling| x.spec_id() == registry_ids()[18] && x.spec_name() == registry_names()[18]
            && x.spec_severity() == registry_severities()[18],
{
}

/// The registry's ids are pairwise distinct.
pub proof fn lemma_registry_ids_distinct()
    ensures
        registry_ids().len() == 19,
        forall|i: int, j: int|
            0 <= i < j < 19 ==> #[trigger] registry_ids()[i] != #[trigger] registry_ids()[j],
{
    reveal_strlit("R01");
    reveal_strlit("R02");
    reveal_strlit("R03");
    reveal_strlit("R04");
    reveal_strlit("R05");
    reveal_strlit("R06");
    reveal_strlit("R07");
    reveal_strlit("R08");
    reveal_strlit("R09");
    reveal_strlit("R10");
    reveal_strlit("R14");
    reveal_strlit("R15");
    reveal_strlit("R16");
    reveal_strlit("R18");
    reveal_strlit("R19");
    reveal_strlit("R20");
    reveal_strlit("R23");
    reveal_strlit("R24");
    reveal_strlit("R28");
    assert forall|i: int, j: int| 0 <= i < j < 19 implies #[trigger] registry_ids()[i]
        != #[trigger] registry_ids()[j] by {
        assert(registry_ids()[i][2] != registry_ids()[j][2] || registry_ids()[i][1] != registry_ids()[j][1]);
    }
}

/// One of the built-in rules.
pub enum BuiltinRule {
    FallbackMasksError(FallbackMasksError),
    StructuralBloat(StructuralBloat),
    MissingDoc(MissingDoc),
    SimpleUnitTest(SimpleUnitTest),
    ShallowIntegration(ShallowIntegration),
    OverEngineering(OverEngineering),
    DeadCode(DeadCode),
    TodoFixme(TodoFixme),
    CommentedCode(CommentedCode),
    MagicNumber(MagicNumber),
    HardcodedSecret(HardcodedSecret),
    MissingInputValidation(MissingInputValidation),
    SelfValidatingTest(SelfValidatingTest),
    AsyncMissingAwait(AsyncMissingAwait),
    NPlusOneQuery(NPlusOneQuery),
    ResourceLeak(ResourceLeak),
    WrongErrorTypePropagation(WrongErrorTypePropagation),
    HardcodedPathOrUrl(HardcodedPathOrUrl),
    OverlyDefensiveHandling(OverlyDefensiveHandling),
}

impl Rule for BuiltinRule {
    open spec fn spec_id(&self) -> Seq<char> {
        match self {
            BuiltinRule::FallbackMasksError(x) => x.spec_id(),
            BuiltinRule::StructuralBloat(x) => x.spec_id(),
            BuiltinRule::MissingDoc(x) => x.spec_id(),
            BuiltinRule::SimpleUnitTest(x) => x.spec_id(),
            BuiltinRule::ShallowIntegration(x) => x.spec_id(),
            BuiltinRule::OverEngineering(x) => x.spec_id(),
            BuiltinRule::DeadCode(x) => x.spec_id(),
            BuiltinRule::TodoFixme(x) => x.spec_id(),
            BuiltinRule::CommentedCode(x) => x.spec_id(),
            BuiltinRule::MagicNumber(x) => x.spec_id(),
            BuiltinRule::HardcodedSecret(x) => x.spec_id(),
            BuiltinRule::MissingInputValidation(x) => x.spec_id(),
            BuiltinRule::SelfValidatingTest(x) => x.spec_id(),
            BuiltinRule::AsyncMissingAwait(x) => x.spec_id(),
            BuiltinRule::NPlusOneQuery(x) => x.spec_id(),
            BuiltinRule::ResourceLeak(x) => x.spec_id(),
            BuiltinRule::WrongErrorTypePropagation(x) => x.spec_id(),
            BuiltinRule::HardcodedPathOrUrl(x) => x.spec_id(),
            BuiltinRule::OverlyDefensiveHandling(x) => x.spec_id(),
        }
    }

    open spec fn spec_name(&self) -> Seq<char> {
        match self {
            BuiltinRule::FallbackMasksError(x) => x.spec_name(),
            BuiltinRule::StructuralBloat(x) => x.spec_name(),
            BuiltinRule::MissingDoc(x) => x.spec_name(),
            BuiltinRule::SimpleUnitTest(x) => x.spec_name(),
            BuiltinRule::ShallowIntegration(x) => x.spec_name(),
            BuiltinRule::OverEngineering(x) => x.spec_name(),
            BuiltinRule::DeadCode(x) => x.spec_name(),
            BuiltinRule::TodoFixme(x) => x.spec_name(),
            BuiltinRule::CommentedCode(x) => x.spec_name(),
            BuiltinRule::MagicNumber(x) => x.spec_name(),
            BuiltinRule::HardcodedSecret(x) => x.spec_name(),
            BuiltinRule::MissingInputValidation(x) => x.spec_name(),
            BuiltinRule::SelfValidatingTest(x) => x.spec_name(),
            BuiltinRule::AsyncMissingAwait(x) => x.spec_name(),
            BuiltinRule::NPlusOneQuery(x) => x.spec_name(),
            BuiltinRule::ResourceLeak(x) => x.spec_name(),
            BuiltinRule::WrongErrorTypePropagation(x) => x.spec_name(),
            BuiltinRule::HardcodedPathOrUrl(x) => x.spec_name(),
            BuiltinRule::OverlyDefensiveHandling(x) => x.spec_name(),
        }
    }

    open spec fn spec_severity(&self) -> Severity {
        match self {
            BuiltinRule::FallbackMasksError(x) => x.spec_severity(),
            BuiltinRule::StructuralBloat(x) => x.spec_severity(),
            BuiltinRule::MissingDoc(x) => x.spec_severity(),
            BuiltinRule::SimpleUnitTest(x) => x.spec_severity(),
            BuiltinRule::ShallowIntegration(x) => x.spec_severity(),
            BuiltinRule::OverEngineering(x) => x.spec_severity(),
            BuiltinRule::DeadCode(x) => x.spec_severity(),
            BuiltinRule::TodoFixme(x) => x.spec_severity(),
            BuiltinRule::CommentedCode(x) => x.spec_severity(),
            BuiltinRule::MagicNumber(x) => x.spec_severity(),
            BuiltinRule::HardcodedSecret(x) => x.spec_severity(),
            BuiltinRule::MissingInputValidation(x) => x.spec_severity(),
            BuiltinRule::SelfValidatingTest(x) => x.spec_severity(),
            BuiltinRule::AsyncMissingAwait(x) => x.spec_severity(),
            BuiltinRule::NPlusOneQuery(x) => x.spec_severity(),
            BuiltinRule::ResourceLeak(x) => x.spec_severity(),
            BuiltinRule::WrongErrorTypePropagation(x) => x.spec_severity(),
            BuiltinRule::HardcodedPathOrUrl(x) => x.spec_severity(),
            BuiltinRule::OverlyDefensiveHandling(x) => x.spec_severity(),
        }
    }

    open spec fn spec_total(&self) -> bool {
        true
    }

    open spec fn spec_languages(&self) -> Seq<Language> {
        match self {
            BuiltinRule::FallbackMasksError(x) => x.spec_languages(),
            BuiltinRule::StructuralBloat(x) => x.spec_languages(),
            BuiltinRule::MissingDoc(x) => x.spec_languages(),
            BuiltinRule::SimpleUnitTest(x) => x.spec_languages(),
            BuiltinRule::ShallowIntegration(x) => x.spec_languages(),
            BuiltinRule::OverEngineering(x) => x.spec_languages(),
            BuiltinRule::DeadCode(x) => x.spec_languages(),
            BuiltinRule::TodoFixme(x) => x.spec_languages(),
            BuiltinRule::CommentedCode(x) => x.spec_languages(),
            BuiltinRule::MagicNumber(x) => x.spec_languages(),
            BuiltinRule::HardcodedSecret(x) => x.spec_languages(),
            BuiltinRule::MissingInputValidation(x) => x.spec_languages(),
            BuiltinRule::SelfValidatingTest(x) => x.spec_languages(),
            BuiltinRule::AsyncMissingAwait(x) => x.spec_languages(),
            BuiltinRule::NPlusOneQuery(x) => x.spec_languages(),
            BuiltinRule::ResourceLeak(x) => x.spec_languages(),
            BuiltinRule::WrongErrorTypePropagation(x) => x.spec_languages(),
            BuiltinRule::HardcodedPathOrUrl(x) => x.spec_languages(),
            BuiltinRule::OverlyDefensiveHandling(x) => x.spec_languages(),
        }
    }

    open spec fn spec_findings(&self, ctx: AnalysisContext) -> Seq<FindingView> {
        match self {
            BuiltinRule::FallbackMasksError(x) => x.spec_findings(ctx),
            BuiltinRule::StructuralBloat(x) => x.spec_findings(ctx),
            BuiltinRule::MissingDoc(x) => x.spec_findings(ctx),
            BuiltinRule::SimpleUnitTest(x) => x.spec_findings(ctx),
            BuiltinRule::ShallowIntegration(x) => x.spec_findings(ctx),
            BuiltinRule::OverEngineering(x) => x.spec_findings(ctx),
            BuiltinRule::DeadCode(x) => x.spec_findings(ctx),
            BuiltinRule::TodoFixme(x) => x.spec_findings(ctx),
            BuiltinRule::CommentedCode(x) => x.spec_findings(ctx),
            BuiltinRule::MagicNumber(x) => x.spec_findings(ctx),
            BuiltinRule::HardcodedSecret(x) => x.spec_findings(ctx),
            BuiltinRule::MissingInputValidation(x) => x.spec_findings(ctx),
            BuiltinRule::SelfValidatingTest(x) => x.spec_findings(ctx),
            BuiltinRule::AsyncMissingAwait(x) => x.spec_findings(ctx),
            BuiltinRule::NPlusOneQuery(x) => x.spec_findings(ctx),
            BuiltinRule::ResourceLeak(x) => x.spec_findings(ctx),
            BuiltinRule::WrongErrorTypePropagation(x) => x.spec_findings(ctx),
            BuiltinRule::HardcodedPathOrUrl(x) => x.spec_findings(ctx),
            BuiltinRule::OverlyDefensiveHandling(x) => x.spec_findings(ctx),
        }
    }

    fn id(&self) -> (r: &'static str) {
        match self {
            BuiltinRule::FallbackMasksError(x) => x.id(),
            BuiltinRule::StructuralBloat(x) => x.id(),
            BuiltinRule::MissingDoc(x) => x.id(),
            BuiltinRule::SimpleUnitTest(x) => x.id(),
            BuiltinRule::ShallowIntegration(x) => x.id(),
            BuiltinRule::OverEngineering(x) => x.id(),
            BuiltinRule::DeadCode(x) => x.id(),
            BuiltinRule::TodoFixme(x) => x.id(),
            BuiltinRule::CommentedCode(x) => x.id(),
            BuiltinRule::MagicNumber(x) => x.id(),
            BuiltinRule::HardcodedSecret(x) => x.id(),
            BuiltinRule::MissingInputValidation(x) => x.id(),
            BuiltinRule::SelfValidatingTest(x) => x.id(),
            BuiltinRule::AsyncMissingAwait(x) => x.id(),
            BuiltinRule::NPlusOneQuery(x) => x.id(),
            BuiltinRule::ResourceLeak(x) => x.id(),
            BuiltinRule::WrongErrorTypePropagation(x) => x.id(),
            BuiltinRule::HardcodedPathOrUrl(x) => x.id(),
            BuiltinRule::OverlyDefensiveHandling(x) => x.id(),
        }
    }

    fn name(&self) -> (r: &'static str) {
        match self {
            BuiltinRule::FallbackMasksError(x) => x.name(),
            BuiltinRule::StructuralBloat(x) => x.name(),
            BuiltinRule::MissingDoc(x) => x.name(),
            BuiltinRule::SimpleUnitTest(x) => x.name(),
            BuiltinRule::ShallowIntegration(x) => x.name(),
            BuiltinRule::OverEngineering(x) => x.name(),
            BuiltinRule::DeadCode(x) => x.name(),
            BuiltinRule::TodoFixme(x) => x.name(),
            BuiltinRule::CommentedCode(x) => x.name(),
            BuiltinRule::MagicNumber(x) => x.name(),
            BuiltinRule::HardcodedSecret(x) => x.name(),
            BuiltinRule::MissingInputValidation(x) => x.name(),
            BuiltinRule::SelfValidatingTest(x) => x.name(),
            BuiltinRule::AsyncMissingAwait(x) => x.name(),
            BuiltinRule::NPlusOneQuery(x) => x.name(),
            BuiltinRule::ResourceLeak(x) => x.name(),
            BuiltinRule::WrongErrorTypePropagation(x) => x.name(),
            BuiltinRule::HardcodedPathOrUrl(x) => x.name(),
            BuiltinRule::OverlyDefensiveHandling(x) => x.name(),
        }
    }

    fn severity(&self) -> (r: Severity) {
        match self {
            BuiltinRule::FallbackMasksError(x) => x.severity(),
            BuiltinRule::StructuralBloat(x) => x.severity(),
            BuiltinRule::MissingDoc(x) => x.severity(),
            BuiltinRule::SimpleUnitTest(x) => x.severity(),
            BuiltinRule::ShallowIntegration(x) => x.severity(),
            BuiltinRule::OverEngineering(x) => x.severity(),
            BuiltinRule::DeadCode(x) => x.severity(),
            BuiltinRule::TodoFixme(x) => x.severity(),
            BuiltinRule::CommentedCode(x) => x.severity(),
            BuiltinRule::MagicNumber(x) => x.severity(),
            BuiltinRule::HardcodedSecret(x) => x.severity(),
            BuiltinRule::MissingInputValidation(x) => x.severity(),
            BuiltinRule::SelfValidatingTest(x) => x.severity(),
            BuiltinRule::AsyncMissingAwait(x) => x.severity(),
            BuiltinRule::NPlusOneQuery(x) => x.severity(),
            BuiltinRule::ResourceLeak(x) => x.severity(),
            BuiltinRule::WrongErrorTypePropagation(x) => x.severity(),
            BuiltinRule::HardcodedPathOrUrl(x) => x.severity(),
            BuiltinRule::OverlyDefensiveHandling(x) => x.severity(),
        }
    }

    fn languages(&self) -> (r: &'static [Language]) {
        match self {
            BuiltinRule::FallbackMasksError(x) => x.languages(),
            BuiltinRule::StructuralBloat(x) => x.languages(),
            BuiltinRule::MissingDoc(x) => x.languages(),
            BuiltinRule::SimpleUnitTest(x) => x.languages(),
            BuiltinRule::ShallowIntegration(x) => x.languages(),
            BuiltinRule::OverEngineering(x) => x.languages(),
            BuiltinRule::DeadCode(x) => x.languages(),
            BuiltinRule::TodoFixme(x) => x.languages(),
            BuiltinRule::CommentedCode(x) => x.languages(),
            BuiltinRule::MagicNumber(x) => x.languages(),
            BuiltinRule::HardcodedSecret(x) => x.languages(),
            BuiltinRule::MissingInputValidation(x) => x.languages(),
            BuiltinRule::SelfValidatingTest(x) => x.languages(),
            BuiltinRule::AsyncMissingAwait(x) => x.languages(),
            BuiltinRule::NPlusOneQuery(x) => x.languages(),
            BuiltinRule::ResourceLeak(x) => x.languages(),
            BuiltinRule::WrongErrorTypePropagation(x) => x.languages(),
            BuiltinRule::HardcodedPathOrUrl(x) => x.languages(),
            BuiltinRule::OverlyDefensiveHandling(x) => x.languages(),
        }
    }

    fn analyze(&self, ctx: &AnalysisContext) -> (r: Result<Vec<Finding>, RuleError>) {
        match self {
            BuiltinRule::FallbackMasksError(x) => x.analyze(ctx),
            BuiltinRule::StructuralBloat(x) => x.analyze(ctx),
            BuiltinRule::MissingDoc(x) => x.analyze(ctx),
            BuiltinRule::SimpleUnitTest(x) => x.analyze(ctx),
            BuiltinRule::ShallowIntegration(x) => x.analyze(ctx),
            BuiltinRule::OverEngineering(x) => x.analyze(ctx),
            BuiltinRule::DeadCode(x) => x.analyze(ctx),
            BuiltinRule::TodoFixme(x) => x.analyze(ctx),
            BuiltinRule::CommentedCode(x) => x.analyze(ctx),
            BuiltinRule::MagicNumber(x) => x.analyze(ctx),
            BuiltinRule::HardcodedSecret(x) => x.analyze(ctx),
            BuiltinRule::MissingInputValidation(x) => x.analyze(ctx),
            BuiltinRule::SelfValidatingTest(x) => x.analyze(ctx),
            BuiltinRule::AsyncMissingAwait(x) => x.analyze(ctx),
            BuiltinRule::NPlusOneQuery(x) => x.analyze(ctx),
            BuiltinRule::ResourceLeak(x) => x.analyze(ctx),
            BuiltinRule::WrongErrorTypePropagation(x) => x.analyze(ctx),
            BuiltinRule::HardcodedPathOrUrl(x) => x.analyze(ctx),
            BuiltinRule::OverlyDefensiveHandling(x) => x.analyze(ctx),
        }
    }
}

/// Every built-in rule, in registry order: rule `k` has the id, name and
/// severity at position `k` of the registry, and none of them can fail.
pub fn all_rules() -> (r: Vec<BuiltinRule>)
    ensures
        r@.len() == registry_ids().len(),
        forall|k: int|
            0 <= k < r@.len() ==> (#[trigger] r@[k]).spec_id() == registry_ids()[k]
                && r@[k].spec_name() == registry_names()[k]
                && r@[k].spec_severity() == registry_severities()[k]
                && r@[k].spec_total(),
{
    let v: Vec<BuiltinRule> = vec![
        BuiltinRule::FallbackMasksError(FallbackMasksError),
        BuiltinRule::StructuralBloat(StructuralBloat::default()),
        BuiltinRule::MissingDoc(MissingDoc),
        BuiltinRule::SimpleUnitTest(SimpleUnitTest),
        BuiltinRule::ShallowIntegration(ShallowIntegration),
        BuiltinRule::OverEngineering(OverEngineering),
        BuiltinRule::DeadCode(DeadCode),
        BuiltinRule::TodoFixme(TodoFixme),
        BuiltinRule::CommentedCode(CommentedCode),
        BuiltinRule::MagicNumber(MagicNumber),
        BuiltinRule::HardcodedSecret(HardcodedSecret),
        BuiltinRule::MissingInputValidation(MissingInputValidation),
        BuiltinRule::SelfValidatingTest(SelfValidatingTest),
        BuiltinRule::AsyncMissingAwait(AsyncMissingAwait),
        BuiltinRule::NPlusOneQuery(NPlusOneQuery),
        BuiltinRule::ResourceLeak(ResourceLeak),
        BuiltinRule::WrongErrorTypePropagation(WrongErrorTypePropagation),
        BuiltinRule::HardcodedPathOrUrl(HardcodedPathOrUrl),
        BuiltinRule::OverlyDefensiveHandling(OverlyDefensiveHandling),
    ];
    proof {
        lemma_registry_matches_rules();
    }
    v
}

} // verus!
