//! The review-interval tier: how long after its last review a topic
//! becomes due again, and how that interval escalates on each review.
use vstd::prelude::*;

verus! {

/// The spacing interval between reviews of a topic. Tiers are ordered
/// `Day < Week < Month`; each successful review advances the tier one
/// step forward, and `Month` is terminal.
#[derive(Clone, Copy, Debug, PartialEq, Eq, PartialOrd, Ord, Structural)]
pub enum NextReviewGap {
    Day,
    Week,
    Month,
}

impl NextReviewGap {
    /// How many calendar days after the last review a topic of this
    /// tier becomes due.
    pub open spec fn spec_offset_days(self) -> int {
        match self {
            NextReviewGap::Day => 1,
            NextReviewGap::Week => 7,
            NextReviewGap::Month => 30,
        }
    }

    /// The tier one escalation step forward; `Month` is a fixed point.
    pub open spec fn spec_advanced(self) -> NextReviewGap {
        match self {
            NextReviewGap::Day => NextReviewGap::Week,
            NextReviewGap::Week => NextReviewGap::Month,
            NextReviewGap::Month => NextReviewGap::Month,
        }
    }

    /// The day offset of this tier: Day maps to 1, Week to 7, Month to 30.
    pub fn tier_offset_days(self) -> (r: u8)
        ensures
            r == self.spec_offset_days(),
    {
        match self {
            NextReviewGap::Day => 1,
            NextReviewGap::Week => 7,
            NextReviewGap::Month => 30,
        }
    }

    /// Advance the tier one step: Day to Week, Week to Month, Month stays.
    pub fn advanced(self) -> (r: NextReviewGap)
        ensures
            r == self.spec_advanced(),
    {
        match self {
            NextReviewGap::Day => NextReviewGap::Week,
            NextReviewGap::Week => NextReviewGap::Month,
            NextReviewGap::Month => NextReviewGap::Month,
        }
    }
}

/// The tier escalation path is exactly `Day -> Week -> Month`, with
/// `Month` a fixed point, and the day offsets are exactly 1, 7 and 30.
pub proof fn lemma_tier_escalation()
    ensures
        NextReviewGap::Day.spec_advanced() == NextReviewGap::Week,
        NextReviewGap::Week.spec_advanced() == NextReviewGap::Month,
        NextReviewGap::Month.spec_advanced() == NextReviewGap::Month,
        NextReviewGap::Day.spec_offset_days() == 1,
        NextReviewGap::Week.spec_offset_days() == 7,
        NextReviewGap::Month.spec_offset_days() == 30,
{
}

} // verus!
