//! The review topic: a named item with the timestamp of its last review
//! and its current review-interval tier.
//!
//! The due-date rule: a topic's next review day is the calendar date of
//! its last review plus its tier's day offset; `days_until_review` is the
//! signed distance in days from today to that day, and the topic is due
//! exactly when that distance is zero or negative. Reviewing a topic
//! advances its tier one step and stamps it with the current time.
use crate::clock::now_timestamp;
use crate::dates::{
    date_minus_days, date_plus_days, day_number, lemma_max_day_number_value, spec_max_day_number,
    Date,
};
use crate::text::{
    lemma_lex_le_antisymmetric, lemma_lex_le_total, lemma_lex_le_trans, lex_le, str_le,
};
use crate::tiers::NextReviewGap;
use crate::times::{spec_days_between, days_between, Timestamp};
use vstd::prelude::*;

verus! {

/// A topic the user periodically reviews. The name is the topic's key
/// within a collection; the other two fields drive the due-date rule.
#[derive(Clone, Debug, PartialEq, Eq)]
pub struct ReviewTopic {
    pub topic_name: String,
    pub last_reviewed: Timestamp,
    pub next_review_gap: NextReviewGap,
}

/// The mathematical value of a `ReviewTopic`: the name as a character
/// sequence, with the timestamp and tier as themselves.
pub struct ReviewTopicView {
    pub topic_name: Seq<char>,
    pub last_reviewed: Timestamp,
    pub next_review_gap: NextReviewGap,
}

impl View for ReviewTopic {
    type V = ReviewTopicView;

    open spec fn view(&self) -> ReviewTopicView {
        ReviewTopicView {
            topic_name: self.topic_name@,
            last_reviewed: self.last_reviewed,
            next_review_gap: self.next_review_gap,
        }
    }
}

/// The values of a sequence of topics, in order.
pub open spec fn spec_views(s: Seq<ReviewTopic>) -> Seq<ReviewTopicView> {
    s.map_values(|t: ReviewTopic| t@)
}

/// The value of a topic of a list is the corresponding entry of the
/// list's value.
pub broadcast proof fn lemma_spec_views_index(s: Seq<ReviewTopic>, i: int)
    requires
        0 <= i < s.len(),
    ensures
        (#[trigger] s[i]@) == spec_views(s)[i],
{
}

impl ReviewTopicView {
    /// A well-formed topic: a nonempty name and a valid timestamp.
    pub open spec fn wf(self) -> bool {
        &&& self.topic_name.len() > 0
        &&& self.last_reviewed.valid()
    }
}

/// The signed number of days from `today` until the topic's next review
/// day (the date of its last review plus its tier's offset). Zero or
/// negative exactly when the topic is due.
pub open spec fn spec_days_until(t: ReviewTopicView, today: Date) -> int {
    t.last_reviewed.date.spec_day_number() + t.next_review_gap.spec_offset_days()
        - today.spec_day_number()
}

/// Due on `today`: the next review day is today or already past.
pub open spec fn spec_is_due(t: ReviewTopicView, today: Date) -> bool {
    spec_days_until(t, today) <= 0
}

/// The display order on topics for a given day: most urgent first
/// (smallest `days_until_review`), ties broken by name.
pub open spec fn spec_topic_le(a: ReviewTopicView, b: ReviewTopicView, today: Date) -> bool {
    ||| spec_days_until(a, today) < spec_days_until(b, today)
    ||| (spec_days_until(a, today) == spec_days_until(b, today) && lex_le(
        a.topic_name,
        b.topic_name,
    ))
}

/// The display order is total.
pub proof fn lemma_topic_le_total(a: ReviewTopicView, b: ReviewTopicView, today: Date)
    ensures
        spec_topic_le(a, b, today) || spec_topic_le(b, a, today),
{
    lemma_lex_le_total(a.topic_name, b.topic_name);
}

/// The display order is transitive.
pub proof fn lemma_topic_le_trans(
    a: ReviewTopicView,
    b: ReviewTopicView,
    c: ReviewTopicView,
    today: Date,
)
    requires
        spec_topic_le(a, b, today),
        spec_topic_le(b, c, today),
    ensures
        spec_topic_le(a, c, today),
{
    if spec_days_until(a, today) == spec_days_until(b, today) && spec_days_until(b, today)
        == spec_days_until(c, today) {
        lemma_lex_le_trans(a.topic_name, b.topic_name, c.topic_name);
    }
}

/// Topics of equal urgency rank by name, strictly: of two distinct
/// names the lexicographically smaller one comes first, and never the
/// other way round.
pub proof fn lemma_tie_break_by_name(a: ReviewTopicView, b: ReviewTopicView, today: Date)
    requires
        spec_days_until(a, today) == spec_days_until(b, today),
        lex_le(a.topic_name, b.topic_name),
        a.topic_name != b.topic_name,
    ensures
        spec_topic_le(a, b, today),
        !spec_topic_le(b, a, today),
{
    if lex_le(b.topic_name, a.topic_name) {
        lemma_lex_le_antisymmetric(a.topic_name, b.topic_name);
    }
}

impl ReviewTopic {
    /// A new topic named `topic_name`, last reviewed at `now`, at the
    /// `Day` tier.
    pub fn new_at(topic_name: String, now: Timestamp) -> (r: ReviewTopic)
        requires
            topic_name@.len() > 0,
            now.valid(),
        ensures
            r@ == (ReviewTopicView {
                topic_name: topic_name@,
                last_reviewed: now,
                next_review_gap: NextReviewGap::Day,
            }),
            r@.wf(),
    {
        ReviewTopic { topic_name, last_reviewed: now, next_review_gap: NextReviewGap::Day }
    }

    /// A new topic named `topic_name`, last reviewed now, at the `Day`
    /// tier. Reads the clock; `new_at` is the same construction at a
    /// chosen time.
    pub fn new(topic_name: String) -> (r: ReviewTopic)
        requires
            topic_name@.len() > 0,
        ensures
            r@.topic_name == topic_name@,
            r@.next_review_gap == NextReviewGap::Day,
            r@.wf(),
    {
        let now = now_timestamp();
        ReviewTopic::new_at(topic_name, now)
    }

    /// Record a review at time `now`: the tier advances one step and the
    /// topic is stamped with `now`.
    pub fn review_at(&mut self, now: Timestamp)
        requires
            now.valid(),
        ensures
            final(self)@.topic_name == old(self)@.topic_name,
            final(self).next_review_gap == old(self).next_review_gap.spec_advanced(),
            final(self).last_reviewed == now,
            final(self)@.wf() <==> old(self)@.topic_name.len() > 0,
    {
        self.next_review_gap = self.next_review_gap.advanced();
        self.last_reviewed = now;
    }

    /// Record a review now: the tier advances one step and the topic is
    /// stamped with the current time, which is a valid timestamp.
    pub fn review(&mut self)
        ensures
            final(self)@.topic_name == old(self)@.topic_name,
            final(self).next_review_gap == old(self).next_review_gap.spec_advanced(),
            final(self).last_reviewed.valid(),
    {
        let now = now_timestamp();
        self.review_at(now);
    }

    /// The signed number of days from `today` until this topic's next
    /// review day.
    pub fn days_until_review_on(&self, today: &Date) -> (r: i64)
        requires
            self@.wf(),
            today.valid(),
        ensures
            r == spec_days_until(self@, *today),
    {
        proof {
            lemma_max_day_number_value();
        }
        let dn_last = day_number(&self.last_reviewed.date) as i64;
        let offset = self.next_review_gap.tier_offset_days() as i64;
        let dn_today = day_number(today) as i64;
        dn_last + offset - dn_today
    }

    /// The signed number of days until this topic's next review day,
    /// counted from today per the system clock. `days_until_review_on`
    /// is the same computation for a chosen day.
    pub fn days_until_review(&self) -> (r: i64)
        requires
            self@.wf(),
        ensures
            exists|today: Date| today.valid() && r == spec_days_until(self@, today),
    {
        let now = now_timestamp();
        let r = self.days_until_review_on(&now.date);
        proof {
            assert(now.date.valid() && r == spec_days_until(self@, now.date));
        }
        r
    }

    /// Whether the topic is due on `today`: true iff
    /// `days_until_review_on(today)` is zero or negative.
    pub fn is_time_to_review_on(&self, today: &Date) -> (r: bool)
        requires
            self@.wf(),
            today.valid(),
        ensures
            r == spec_is_due(self@, *today),
    {
        self.days_until_review_on(today) <= 0
    }

    /// Whether the topic is due today per the system clock: true iff
    /// the days until review are zero or negative.
    pub fn is_time_to_review(&self) -> (r: bool)
        requires
            self@.wf(),
        ensures
            exists|today: Date| today.valid() && r == spec_is_due(self@, today),
    {
        let now = now_timestamp();
        let r = self.is_time_to_review_on(&now.date);
        proof {
            assert(now.date.valid() && r == spec_is_due(self@, now.date));
        }
        r
    }

    /// Move the last-reviewed date `num` days forward (the time of day is
    /// kept); the topic is unchanged when that would leave the supported
    /// calendar range.
    pub fn add_days(&mut self, num: u64)
        requires
            old(self)@.wf(),
        ensures
            final(self)@.topic_name == old(self)@.topic_name,
            final(self).next_review_gap == old(self).next_review_gap,
            final(self)@.wf(),
            old(self).last_reviewed.date.spec_day_number() + num <= spec_max_day_number()
                ==> final(self).last_reviewed == (Timestamp {
                date: final(self).last_reviewed.date,
                ..old(self).last_reviewed
            }) && final(self).last_reviewed.date.spec_day_number()
                == old(self).last_reviewed.date.spec_day_number() + num,
            old(self).last_reviewed.date.spec_day_number() + num > spec_max_day_number()
                ==> *final(self) == *old(self),
    {
        let d = date_plus_days(&self.last_reviewed.date, num);
        self.last_reviewed.date = d;
    }

    /// Move the last-reviewed date `num` days back (the time of day is
    /// kept); the topic is unchanged when that would leave the supported
    /// calendar range.
    pub fn sub_days(&mut self, num: u64)
        requires
            old(self)@.wf(),
        ensures
            final(self)@.topic_name == old(self)@.topic_name,
            final(self).next_review_gap == old(self).next_review_gap,
            final(self)@.wf(),
            old(self).last_reviewed.date.spec_day_number() - num >= 0
                ==> final(self).last_reviewed == (Timestamp {
                date: final(self).last_reviewed.date,
                ..old(self).last_reviewed
            }) && final(self).last_reviewed.date.spec_day_number()
                == old(self).last_reviewed.date.spec_day_number() - num,
            old(self).last_reviewed.date.spec_day_number() - num < 0
                ==> *final(self) == *old(self),
    {
        let d = date_minus_days(&self.last_reviewed.date, num);
        self.last_reviewed.date = d;
    }

    /// The number of whole days from this topic's last review to `now`,
    /// truncating partial days towards zero (negative when the last
    /// review lies in the future).
    pub fn days_since_last_reviewed(&self, now: &Timestamp) -> (r: i64)
        requires
            self@.wf(),
            now.valid(),
        ensures
            r == spec_days_between(*now, self.last_reviewed),
    {
        days_between(now, &self.last_reviewed)
    }

    /// Whether this topic comes no later than `other` in the display
    /// order for `today`.
    pub fn comes_before_or_equal(&self, other: &ReviewTopic, today: &Date) -> (r: bool)
        requires
            self@.wf(),
            other@.wf(),
            today.valid(),
        ensures
            r == spec_topic_le(self@, other@, *today),
    {
        let da = self.days_until_review_on(today);
        let db = other.days_until_review_on(today);
        if da < db {
            true
        } else if da == db {
            str_le(self.topic_name.as_str(), other.topic_name.as_str())
        } else {
            false
        }
    }

    /// A copy of this topic with the same value.
    pub fn cloned(&self) -> (r: ReviewTopic)
        ensures
            r@ == self@,
    {
        ReviewTopic {
            topic_name: self.topic_name.clone(),
            last_reviewed: self.last_reviewed,
            next_review_gap: self.next_review_gap,
        }
    }
}

/// A topic is due exactly when its days-until-review count is zero or
/// negative.
pub proof fn lemma_due_iff_days_nonpositive(t: ReviewTopicView, today: Date)
    ensures
        spec_is_due(t, today) <==> spec_days_until(t, today) <= 0,
{
}

/// A freshly constructed topic (tier `Day`, last reviewed now) has one
/// day until review and is not yet due.
pub proof fn lemma_fresh_topic_not_due(name: Seq<char>, now: Timestamp)
    requires
        now.valid(),
    ensures
        spec_days_until(
            ReviewTopicView {
                topic_name: name,
                last_reviewed: now,
                next_review_gap: NextReviewGap::Day,
            },
            now.date,
        ) == 1,
        !spec_is_due(
            ReviewTopicView {
                topic_name: name,
                last_reviewed: now,
                next_review_gap: NextReviewGap::Day,
            },
            now.date,
        ),
{
}

} // verus!
