use vstd::prelude::*;

use crate::classify::{
    analyzer_coverage_note, compatibility_impact, coverage_note_text, impact_of, semantic_category_name,
    semantic_category_text, semantic_kind_name, semantic_kind_text, AnalysisCompleteness, BumpSeverity,
    ClassificationConfidence, DetectionLevel, SemanticChangeCategory, SemanticChangeKind,
};
use crate::assessment::{
    analysis_completeness, classification_confidence, compatibility_impact_from_outcome, completeness_of_semantic,
    confidence_of_api, copy_assessment, impact_of_outcome, SemanticChangeAssessment,
};
use crate::recommendation::{opt_text, ClassificationFinding, FindingAnalyzer, FindingCoverage, FindingEvidenceKey, FindingModel};
use crate::text::push_str;

verus! {

broadcast use vstd::string::group_string_axioms;

/// A change of a package's public surface, as an analyzer reports it.
pub struct SemanticChange {
    pub category: SemanticChangeCategory,
    pub kind: SemanticChangeKind,
    /// The kind of item that changed, as the analyzer names it.
    pub item_kind: String,
    pub item_path: String,
    pub before_signature: Option<String>,
    pub after_signature: Option<String>,
    pub file_path: String,
    pub summary: String,
    /// The release severity the change calls for.
    pub severity: BumpSeverity,
    /// The analyzer's explicit assessment of the change, when it made one.
    pub assessment: Option<SemanticChangeAssessment>,
}

/// The id of the findings of a change: the analyzer, the surface, the kind of
/// change, the item kind and the item path, joined by `/`.
pub open spec fn finding_id_text(analyzer_id: Seq<char>, c: SemanticChange) -> Seq<char> {
    analyzer_id + "/"@ + semantic_category_text(c.category) + "/"@ + semantic_kind_text(c.kind) + "/"@ + c.item_kind@
        + "/"@ + c.item_path@
}

/// The id of the findings of a change.
pub fn finding_id(analyzer_id: &str, change: &SemanticChange) -> (r: String)
    ensures
        r@ == finding_id_text(analyzer_id@, *change),
{
    let mut id = String::new();
    push_str(&mut id, analyzer_id);
    push_str(&mut id, "/");
    push_str(&mut id, semantic_category_name(change.category));
    push_str(&mut id, "/");
    push_str(&mut id, semantic_kind_name(change.kind));
    push_str(&mut id, "/");
    push_str(&mut id, change.item_kind.as_str());
    push_str(&mut id, "/");
    push_str(&mut id, change.item_path.as_str());
    id
}

/// The finding a change gives, before any comparison is recorded on it.
/// A change that the analyzer assessed takes its impact, bump, confidence,
/// analyzer, engine and coverage from the assessment (the engine's version,
/// or `1` when it names none). Otherwise package lifecycle changes are
/// conclusive (high confidence, complete coverage) and other changes are of
/// medium confidence and partial coverage.
pub open spec fn semantic_finding(
    id: Seq<char>,
    analyzer_id: Seq<char>,
    c: SemanticChange,
    level: DetectionLevel,
) -> FindingModel {
    let lifecycle = c.category == SemanticChangeCategory::Package;
    let base = FindingModel {
        id,
        rule_id: analyzer_id + "/"@ + semantic_category_text(c.category) + "/"@ + semantic_kind_text(c.kind) + "/"@
            + c.item_kind@,
        surface: semantic_category_text(c.category),
        change: semantic_kind_text(c.kind),
        impact: impact_of(c.category, c.kind),
        bump: c.severity,
        confidence: if lifecycle { ClassificationConfidence::High } else { ClassificationConfidence::Medium },
        analyzer_id,
        analyzer_engine: None,
        analyzer_version: "1"@,
        detection_level: level,
        completeness: if lifecycle { AnalysisCompleteness::Complete } else { AnalysisCompleteness::Partial },
        note: coverage_note_text(analyzer_id),
        fallback_reason: None,
        before: opt_text(c.before_signature),
        after: opt_text(c.after_signature),
        location: c.file_path@,
        comparisons: seq![],
        summary: c.summary@,
    };
    match c.assessment {
        None => base,
        Some(a) => FindingModel {
            impact: impact_of_outcome(a.outcome),
            bump: a.bump,
            confidence: confidence_of_api(a.confidence),
            analyzer_id: a.evidence.analyzer_id@,
            analyzer_engine: Some(a.evidence.engine@),
            analyzer_version: match a.evidence.engine_version {
                Some(v) => v@,
                None => "1"@,
            },
            completeness: completeness_of_semantic(a.evidence.completeness),
            note: a.evidence.note@,
            fallback_reason: opt_text(a.evidence.fallback_reason),
            ..base
        },
    }
}

/// The evidence key of a change.
pub open spec fn evidence_key_of(c: SemanticChange) -> FindingEvidenceKey {
    FindingEvidenceKey {
        before: c.before_signature,
        after: c.after_signature,
        location: c.file_path,
        summary: c.summary,
        assessment: c.assessment,
    }
}

impl FindingEvidenceKey {
    /// The evidence key of a change: its signatures, file, summary and assessment.
    pub fn from_change(change: &SemanticChange) -> (r: FindingEvidenceKey)
        ensures
            r == evidence_key_of(*change),
    {
        FindingEvidenceKey {
            before: copy_opt(&change.before_signature),
            after: copy_opt(&change.after_signature),
            location: change.file_path.clone(),
            summary: change.summary.clone(),
            assessment: copy_assessment(&change.assessment),
        }
    }
}

fn copy_opt(o: &Option<String>) -> (r: Option<String>)
    ensures
        r == *o,
{
    match o {
        Some(s) => Some(s.clone()),
        None => None,
    }
}

/// The finding a semantic change gives.
pub fn finding_from_semantic_change(
    id: String,
    analyzer_id: &str,
    change: &SemanticChange,
    detection_level: DetectionLevel,
) -> (f: ClassificationFinding)
    ensures
        f@ == semantic_finding(id@, analyzer_id@, *change, detection_level),
{
    let lifecycle = change.category == SemanticChangeCategory::Package;
    let surface = semantic_category_name(change.category);
    let change_name = semantic_kind_name(change.kind);
    let mut rule_id = String::new();
    push_str(&mut rule_id, analyzer_id);
    push_str(&mut rule_id, "/");
    push_str(&mut rule_id, surface);
    push_str(&mut rule_id, "/");
    push_str(&mut rule_id, change_name);
    push_str(&mut rule_id, "/");
    push_str(&mut rule_id, change.item_kind.as_str());
    let mut f = ClassificationFinding {
        id,
        rule_id,
        surface: surface.to_string(),
        change: change_name.to_string(),
        impact: compatibility_impact(change.category, change.kind),
        bump: change.severity,
        confidence: if lifecycle { ClassificationConfidence::High } else { ClassificationConfidence::Medium },
        analyzer: FindingAnalyzer { id: analyzer_id.to_string(), engine: None, version: "1".to_string() },
        coverage: FindingCoverage {
            detection_level,
            completeness: if lifecycle { AnalysisCompleteness::Complete } else { AnalysisCompleteness::Partial },
            note: analyzer_coverage_note(analyzer_id).to_string(),
            fallback_reason: None,
        },
        before: copy_opt(&change.before_signature),
        after: copy_opt(&change.after_signature),
        location: change.file_path.clone(),
        comparisons: Vec::new(),
        summary: change.summary.clone(),
    };
    if let Some(a) = &change.assessment {
        f.impact = compatibility_impact_from_outcome(a.outcome);
        f.bump = a.bump;
        f.confidence = classification_confidence(a.confidence);
        f.analyzer = FindingAnalyzer {
            id: a.evidence.analyzer_id.clone(),
            engine: Some(a.evidence.engine.clone()),
            version: match &a.evidence.engine_version {
                Some(v) => v.clone(),
                None => "1".to_string(),
            },
        };
        f.coverage = FindingCoverage {
            detection_level,
            completeness: analysis_completeness(a.evidence.completeness),
            note: a.evidence.note.clone(),
            fallback_reason: copy_opt(&a.evidence.fallback_reason),
        };
    }
    assert(f@.comparisons =~= seq![]);
    f
}

} // verus!
