use vstd::prelude::*;

use crate::classify::{
    bump_name, completeness_text, impact_text, AnalysisCompleteness, BumpSeverity, ClassificationConfidence,
    CompatibilityImpact, confidence_text,
};
use crate::text::push_str;

verus! {

broadcast use vstd::string::group_string_axioms;

/// What a semantic analyzer concluded about a change.
#[derive(Clone, Copy, Debug, PartialEq, Eq, Structural)]
pub enum SemanticAnalysisOutcome {
    Compatible,
    Additive,
    Breaking,
    Inconclusive,
}

/// How sure a semantic analyzer is of its conclusion.
#[derive(Clone, Copy, Debug, PartialEq, Eq, Structural)]
pub enum ApiConfidence {
    High,
    Medium,
    Low,
}

/// How much of the surface a semantic analyzer could check.
#[derive(Clone, Copy, Debug, PartialEq, Eq, Structural)]
pub enum SemanticAnalysisCompleteness {
    Complete,
    Partial,
    Unsupported,
}

/// Who assessed a change, with what engine, and how completely.
#[derive(Clone, Debug)]
pub struct SemanticAnalyzerEvidence {
    pub analyzer_id: String,
    pub engine: String,
    pub engine_version: Option<String>,
    pub completeness: SemanticAnalysisCompleteness,
    pub note: String,
    pub fallback_reason: Option<String>,
}

/// An analyzer's explicit assessment of a change.
#[derive(Clone, Debug)]
pub struct SemanticChangeAssessment {
    pub outcome: SemanticAnalysisOutcome,
    pub bump: BumpSeverity,
    pub confidence: ApiConfidence,
    pub evidence: SemanticAnalyzerEvidence,
}

/// The compatibility impact an outcome stands for.
pub open spec fn impact_of_outcome(o: SemanticAnalysisOutcome) -> CompatibilityImpact {
    match o {
        SemanticAnalysisOutcome::Compatible => CompatibilityImpact::Compatible,
        SemanticAnalysisOutcome::Additive => CompatibilityImpact::Additive,
        SemanticAnalysisOutcome::Breaking => CompatibilityImpact::Breaking,
        SemanticAnalysisOutcome::Inconclusive => CompatibilityImpact::Unknown,
    }
}

/// The compatibility impact an outcome stands for.
pub fn compatibility_impact_from_outcome(outcome: SemanticAnalysisOutcome) -> (r: CompatibilityImpact)
    ensures
        r == impact_of_outcome(outcome),
{
    match outcome {
        SemanticAnalysisOutcome::Compatible => CompatibilityImpact::Compatible,
        SemanticAnalysisOutcome::Additive => CompatibilityImpact::Additive,
        SemanticAnalysisOutcome::Breaking => CompatibilityImpact::Breaking,
        SemanticAnalysisOutcome::Inconclusive => CompatibilityImpact::Unknown,
    }
}

/// The classification confidence an analyzer's confidence stands for.
pub open spec fn confidence_of_api(c: ApiConfidence) -> ClassificationConfidence {
    match c {
        ApiConfidence::High => ClassificationConfidence::High,
        ApiConfidence::Medium => ClassificationConfidence::Medium,
        ApiConfidence::Low => ClassificationConfidence::Low,
    }
}

/// The classification confidence an analyzer's confidence stands for.
pub fn classification_confidence(confidence: ApiConfidence) -> (r: ClassificationConfidence)
    ensures
        r == confidence_of_api(confidence),
{
    match confidence {
        ApiConfidence::High => ClassificationConfidence::High,
        ApiConfidence::Medium => ClassificationConfidence::Medium,
        ApiConfidence::Low => ClassificationConfidence::Low,
    }
}

/// The analysis completeness an analyzer's completeness stands for.
pub open spec fn completeness_of_semantic(c: SemanticAnalysisCompleteness) -> AnalysisCompleteness {
    match c {
        SemanticAnalysisCompleteness::Complete => AnalysisCompleteness::Complete,
        SemanticAnalysisCompleteness::Partial => AnalysisCompleteness::Partial,
        SemanticAnalysisCompleteness::Unsupported => AnalysisCompleteness::Unsupported,
    }
}

/// The analysis completeness an analyzer's completeness stands for.
pub fn analysis_completeness(completeness: SemanticAnalysisCompleteness) -> (r: AnalysisCompleteness)
    ensures
        r == completeness_of_semantic(completeness),
{
    match completeness {
        SemanticAnalysisCompleteness::Complete => AnalysisCompleteness::Complete,
        SemanticAnalysisCompleteness::Partial => AnalysisCompleteness::Partial,
        SemanticAnalysisCompleteness::Unsupported => AnalysisCompleteness::Unsupported,
    }
}

fn copy_opt_string(o: &Option<String>) -> (r: Option<String>)
    ensures
        r == *o,
{
    match o {
        Some(s) => Some(s.clone()),
        None => None,
    }
}

impl SemanticChangeAssessment {
    /// A copy of the assessment.
    pub fn duplicate(&self) -> (r: SemanticChangeAssessment)
        ensures
            r == *self,
    {
        SemanticChangeAssessment {
            outcome: self.outcome,
            bump: self.bump,
            confidence: self.confidence,
            evidence: SemanticAnalyzerEvidence {
                analyzer_id: self.evidence.analyzer_id.clone(),
                engine: self.evidence.engine.clone(),
                engine_version: copy_opt_string(&self.evidence.engine_version),
                completeness: self.evidence.completeness,
                note: self.evidence.note.clone(),
                fallback_reason: copy_opt_string(&self.evidence.fallback_reason),
            },
        }
    }
}

/// A copy of an optional assessment.
pub fn copy_assessment(o: &Option<SemanticChangeAssessment>) -> (r: Option<SemanticChangeAssessment>)
    ensures
        r == *o,
{
    match o {
        Some(a) => Some(a.duplicate()),
        None => None,
    }
}

/// The name of an outcome.
pub open spec fn outcome_text(o: SemanticAnalysisOutcome) -> Seq<char> {
    impact_text(impact_of_outcome(o))
}

/// An optional text, or nothing.
pub open spec fn opt_or_empty(o: Option<String>) -> Seq<char> {
    match o {
        Some(s) => s@,
        None => Seq::empty(),
    }
}

/// The text by which an assessment takes part in a finding's evidence key:
/// its outcome, bump, confidence, analyzer, engine, engine version,
/// completeness, note and fallback reason, each followed by `;`.
pub open spec fn assessment_key_text(a: SemanticChangeAssessment) -> Seq<char> {
    outcome_text(a.outcome) + ";"@ + bump_name(a.bump) + ";"@ + confidence_text(confidence_of_api(a.confidence)) + ";"@
        + a.evidence.analyzer_id@ + ";"@ + a.evidence.engine@ + ";"@ + opt_or_empty(a.evidence.engine_version) + ";"@
        + completeness_text(completeness_of_semantic(a.evidence.completeness)) + ";"@ + a.evidence.note@ + ";"@
        + opt_or_empty(a.evidence.fallback_reason) + ";"@
}

fn push_opt(out: &mut String, o: &Option<String>)
    ensures
        final(out)@ == old(out)@ + opt_or_empty(*o),
{
    match o {
        Some(s) => push_str(out, s.as_str()),
        None => {
            assert(old(out)@ + Seq::<char>::empty() =~= old(out)@);
        },
    }
}

/// The text by which an assessment takes part in a finding's evidence key.
pub fn assessment_key(a: &SemanticChangeAssessment) -> (r: String)
    ensures
        r@ == assessment_key_text(*a),
{
    let mut out = String::new();
    push_str(&mut out, crate::classify::compatibility_impact_name(compatibility_impact_from_outcome(a.outcome)));
    push_str(&mut out, ";");
    push_str(&mut out, a.bump.label());
    push_str(&mut out, ";");
    push_str(&mut out, crate::classify::classification_confidence_name(classification_confidence(a.confidence)));
    push_str(&mut out, ";");
    push_str(&mut out, a.evidence.analyzer_id.as_str());
    push_str(&mut out, ";");
    push_str(&mut out, a.evidence.engine.as_str());
    push_str(&mut out, ";");
    push_opt(&mut out, &a.evidence.engine_version);
    push_str(&mut out, ";");
    push_str(&mut out, crate::classify::analysis_completeness_name(analysis_completeness(a.evidence.completeness)));
    push_str(&mut out, ";");
    push_str(&mut out, a.evidence.note.as_str());
    push_str(&mut out, ";");
    push_opt(&mut out, &a.evidence.fallback_reason);
    push_str(&mut out, ";");
    proof {
        reveal_strlit(";");
    }
    assert(out@ =~= assessment_key_text(*a));
    out
}

} // verus!
