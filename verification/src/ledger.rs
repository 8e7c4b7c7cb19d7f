//! Shared decision vocabulary: the four-class classification and the
//! confidence levels attached to a classification.
use vstd::prelude::*;

verus! {

/// The four process classes of the decision core.
#[derive(Debug, Clone, Copy, PartialEq, Eq, Structural)]
pub enum Classification {
    Useful,
    UsefulBad,
    Abandoned,
    Zombie,
}

/// Snake-case label of a classification.
pub open spec fn classification_label_spec(c: Classification) -> Seq<char> {
    match c {
        Classification::Useful => "useful"@,
        Classification::UsefulBad => "useful_bad"@,
        Classification::Abandoned => "abandoned"@,
        Classification::Zombie => "zombie"@,
    }
}

/// Name of a classification as its variant is written.
pub open spec fn classification_name(c: Classification) -> Seq<char> {
    match c {
        Classification::Useful => "Useful"@,
        Classification::UsefulBad => "UsefulBad"@,
        Classification::Abandoned => "Abandoned"@,
        Classification::Zombie => "Zombie"@,
    }
}

impl Classification {
    /// Name of the classification as its variant is written ("Useful",
    /// "UsefulBad", "Abandoned", "Zombie").
    pub fn name(&self) -> (s: &'static str)
        ensures
            s@ == classification_name(*self),
    {
        match self {
            Classification::Useful => "Useful",
            Classification::UsefulBad => "UsefulBad",
            Classification::Abandoned => "Abandoned",
            Classification::Zombie => "Zombie",
        }
    }

    /// Snake-case label ("useful", "useful_bad", "abandoned", "zombie").
    pub fn label(&self) -> (s: &'static str)
        ensures
            s@ == classification_label_spec(*self),
    {
        match self {
            Classification::Useful => "useful",
            Classification::UsefulBad => "useful_bad",
            Classification::Abandoned => "abandoned",
            Classification::Zombie => "zombie",
        }
    }
}

/// Confidence level attached to a classification.
#[derive(Debug, Clone, Copy, PartialEq, Eq, Structural)]
pub enum Confidence {
    VeryHigh,
    High,
    Medium,
    Low,
}

} // verus!
