//! Which evidence terms support a classification, the basis of the
//! flip-condition (what-if) analysis.
use crate::ledger::Classification;
use vstd::prelude::*;

verus! {

/// Sign of a log Bayes factor (abandoned versus useful): positive values
/// point toward abandoned, negative toward useful.
#[derive(Debug, Clone, Copy, PartialEq, Eq, Structural)]
pub enum EvidenceSign {
    Positive,
    Zero,
    Negative,
}

/// An evidence term supports the abandoned and zombie classes when it points
/// toward abandoned, and the useful classes when it points toward useful.
pub open spec fn supports_spec(sign: EvidenceSign, class: Classification) -> bool {
    match class {
        Classification::Abandoned | Classification::Zombie => sign == EvidenceSign::Positive,
        Classification::Useful | Classification::UsefulBad => sign == EvidenceSign::Negative,
    }
}

/// Whether an evidence term with the given sign supports the classification.
pub fn is_supporting(sign: EvidenceSign, class: Classification) -> (b: bool)
    ensures
        b == supports_spec(sign, class),
{
    match class {
        Classification::Abandoned | Classification::Zombie => sign == EvidenceSign::Positive,
        Classification::Useful | Classification::UsefulBad => sign == EvidenceSign::Negative,
    }
}

/// No evidence term supports both a useful class and an abandoned/zombie
/// class, and a neutral term supports none.
pub proof fn lemma_support_exclusive(sign: EvidenceSign, a: Classification, b: Classification)
    requires
        a == Classification::Useful || a == Classification::UsefulBad,
        b == Classification::Abandoned || b == Classification::Zombie,
    ensures
        !(supports_spec(sign, a) && supports_spec(sign, b)),
        sign == EvidenceSign::Zero ==> !supports_spec(sign, a) && !supports_spec(sign, b),
{
}


/// A term pointing toward abandoned supports exactly the abandoned and zombie
/// classes, one pointing toward useful exactly the two useful classes, and a
/// neutral term none; each class is supported by exactly one sign.
pub proof fn lemma_support_by_sign(sign: EvidenceSign, class: Classification)
    ensures
        supports_spec(EvidenceSign::Positive, class) <==> (class == Classification::Abandoned
            || class == Classification::Zombie),
        supports_spec(EvidenceSign::Negative, class) <==> (class == Classification::Useful
            || class == Classification::UsefulBad),
        !supports_spec(EvidenceSign::Zero, class),
        supports_spec(sign, class) ==> sign != EvidenceSign::Zero,
{
}

} // verus!
