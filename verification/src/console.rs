//! The command surface: the commands a caller can issue, the decision
//! function that applies one command to the collection, and the values
//! the two tabular views are built from. The caller performs all I/O:
//! it parses arguments into a `Cli`, lets `apply_command` mutate the
//! collection, and then persists or prints according to the outcome.
use crate::dates::Date;
use crate::review_topics::{
    spec_days_until, spec_is_due, spec_views, ReviewTopic, ReviewTopicView,
};
use crate::storage::{spec_has_name, spec_sorted_by_urgency, spec_wf_topics, RenameError, Storage};
use crate::text::{ascii_chars, ascii_to_string, dec_digits, lemma_dec_digits_ascii,
    push_dec_digits};
use crate::tiers::NextReviewGap;
use crate::times::Timestamp;
use vstd::prelude::*;
use vstd::string::StringExecFns;

verus! {

broadcast use crate::review_topics::lemma_spec_views_index;

/// Which view to display.
#[derive(Clone, Copy, Debug, PartialEq, Eq, PartialOrd, Ord, Structural)]
pub enum CliState {
    /// Today's review topics.
    Today,
    /// All review topics.
    All,
}

/// The arguments of the edit (rename) command.
pub struct EditArgs {
    pub topic_name: String,
    pub new_topic_name: String,
}

/// One command against the collection.
pub enum Commands {
    View { view: CliState },
    Edit(EditArgs),
    Add { topic_name: String },
    Remove { topic_name: String },
    Review { topic_name: String },
}

/// A parsed command line.
pub struct Cli {
    pub command: Commands,
}

/// What the caller must do after a command was applied.
#[derive(Clone, Copy, Debug, PartialEq, Eq, Structural)]
pub enum CommandOutcome {
    /// The collection may have changed: persist it.
    Persist,
    /// Display the given view; the collection is unchanged.
    Show(CliState),
    /// The named topic was not found; the collection is unchanged.
    NotFound,
    /// A rename would duplicate an existing name; unchanged.
    DuplicateName,
    /// The given topic name was empty; unchanged.
    EmptyName,
}

/// The subsequence of due topics, in order.
pub open spec fn spec_due_topics(s: Seq<ReviewTopicView>, today: Date) -> Seq<ReviewTopicView>
    decreases s.len(),
{
    if s.len() == 0 {
        Seq::empty()
    } else {
        spec_due_topics(s.drop_last(), today) + if spec_is_due(s.last(), today) {
            seq![s.last()]
        } else {
            Seq::empty()
        }
    }
}

/// The topics of `review_list` that are due on `today`, in list order.
pub fn get_today_list(review_list: &Vec<ReviewTopic>, today: &Date) -> (r: Vec<ReviewTopic>)
    requires
        spec_wf_topics(spec_views(review_list@)),
        today.valid(),
    ensures
        spec_views(r@) == spec_due_topics(spec_views(review_list@), *today),
{
    let n = review_list.len();
    let mut out: Vec<ReviewTopic> = Vec::new();
    proof {
        assert(spec_views(out@) =~= Seq::<ReviewTopicView>::empty());
        assert(spec_views(review_list@).take(0) =~= Seq::<ReviewTopicView>::empty());
    }
    let mut i: usize = 0;
    while i < n
        invariant
            n == review_list@.len(),
            i <= n,
            today.valid(),
            spec_wf_topics(spec_views(review_list@)),
            spec_views(out@) == spec_due_topics(spec_views(review_list@).take(i as int), *today),
        decreases n - i,
    {
        let ghost taken = spec_views(review_list@).take(i as int + 1);
        proof {
            assert(taken.drop_last() =~= spec_views(review_list@).take(i as int));
            assert(taken.last() == spec_views(review_list@)[i as int]);
        }
        let ghost pre_out = spec_views(out@);
        if review_list[i].is_time_to_review_on(today) {
            let t = review_list[i].cloned();
            out.push(t);
            proof {
                assert(spec_views(out@) =~= pre_out.push(t@));
                assert(spec_views(out@) =~= spec_due_topics(taken, *today));
            }
        } else {
            proof {
                assert(spec_views(out@) =~= spec_due_topics(taken, *today));
            }
        }
        i = i + 1;
    }
    proof {
        assert(spec_views(review_list@).take(n as int) =~= spec_views(review_list@));
    }
    out
}

/// The "review in" label of the all-topics view: `Today` for a due
/// topic, else the positive day count followed by `Day` (for one day)
/// or `Days`.
pub open spec fn spec_review_label(t: ReviewTopicView, today: Date) -> Seq<char> {
    if spec_is_due(t, today) {
        "Today"@
    } else {
        ascii_chars(dec_digits(spec_days_until(t, today))) + if spec_days_until(t, today)
            == 1 {
            " Day"@
        } else {
            " Days"@
        }
    }
}

/// The "review in" label of `topic` for `today`.
pub fn review_label(topic: &ReviewTopic, today: &Date) -> (r: String)
    requires
        topic@.wf(),
        today.valid(),
    ensures
        r@ == spec_review_label(topic@, *today),
{
    if topic.is_time_to_review_on(today) {
        "Today".to_owned()
    } else {
        let days = topic.days_until_review_on(today);
        let mut digits: Vec<u8> = Vec::new();
        push_dec_digits(&mut digits, days as u64);
        proof {
            lemma_dec_digits_ascii(days as int);
            assert(digits@ =~= dec_digits(days as int));
        }
        let mut label = ascii_to_string(digits);
        if days == 1 {
            label.append(" Day");
        } else {
            label.append(" Days");
        }
        label
    }
}

impl Storage {
    /// Apply one command to the collection at time `now`, returning what
    /// the caller must do next. The collection changes only for a
    /// successful add, remove, rename or review, exactly as the
    /// corresponding collection operation specifies.
    pub fn apply_command(&mut self, command: Commands, now: &Timestamp) -> (r: CommandOutcome)
        requires
            now.valid(),
            spec_wf_topics(old(self)@.topics),
        ensures
            final(self)@.path == old(self)@.path,
            spec_wf_topics(final(self)@.topics),
            r is Show || r is NotFound || r is DuplicateName || r is EmptyName
                ==> final(self)@.topics == old(self)@.topics,
            command matches Commands::View { view } ==> r == CommandOutcome::Show(view),
            command matches Commands::Add { topic_name } ==> if topic_name@.len() == 0 {
                r == CommandOutcome::EmptyName
            } else if spec_has_name(old(self)@.topics, topic_name@) {
                r == CommandOutcome::Persist && final(self)@.topics == old(self)@.topics
            } else {
                r == CommandOutcome::Persist && final(self)@.topics.to_multiset()
                    == old(self)@.topics.to_multiset().insert(
                    ReviewTopicView {
                        topic_name: topic_name@,
                        last_reviewed: *now,
                        next_review_gap: NextReviewGap::Day,
                    },
                ) && spec_sorted_by_urgency(final(self)@.topics, now.date)
            },
            command matches Commands::Remove { topic_name } ==> if spec_has_name(
                old(self)@.topics,
                topic_name@,
            ) {
                r == CommandOutcome::Persist
            } else {
                r == CommandOutcome::NotFound
            },
            command matches Commands::Review { topic_name } ==> if spec_has_name(
                old(self)@.topics,
                topic_name@,
            ) {
                r == CommandOutcome::Persist
            } else {
                r == CommandOutcome::NotFound
            },
            command matches Commands::Edit(args) ==> if !spec_has_name(
                old(self)@.topics,
                args.topic_name@,
            ) {
                r == CommandOutcome::NotFound
            } else if args.new_topic_name@.len() == 0 {
                r == CommandOutcome::EmptyName
            } else if args.new_topic_name@ != args.topic_name@ && spec_has_name(
                old(self)@.topics,
                args.new_topic_name@,
            ) {
                r == CommandOutcome::DuplicateName
            } else {
                r == CommandOutcome::Persist
            },
    {
        match command {
            Commands::View { view } => CommandOutcome::Show(view),
            Commands::Add { topic_name } => {
                if topic_name.as_str().is_empty() {
                    CommandOutcome::EmptyName
                } else {
                    let topic = ReviewTopic::new_at(topic_name, *now);
                    self.add_review_topic_at(topic, &now.date);
                    CommandOutcome::Persist
                }
            },
            Commands::Remove { topic_name } => {
                match self.find_review_topic(topic_name) {
                    None => CommandOutcome::NotFound,
                    Some(t) => {
                        let t = t.cloned();
                        self.remove_review_topic(&t);
                        CommandOutcome::Persist
                    },
                }
            },
            Commands::Review { topic_name } => {
                if self.review_topic_at(topic_name, now) {
                    CommandOutcome::Persist
                } else {
                    CommandOutcome::NotFound
                }
            },
            Commands::Edit(args) => {
                if args.new_topic_name.as_str().is_empty() {
                    match self.find_review_topic(args.topic_name) {
                        None => CommandOutcome::NotFound,
                        Some(_) => CommandOutcome::EmptyName,
                    }
                } else {
                    match self.rename_review_topic(args.topic_name, args.new_topic_name) {
                        Ok(()) => CommandOutcome::Persist,
                        Err(RenameError::NotFound) => CommandOutcome::NotFound,
                        Err(RenameError::DuplicateName) => CommandOutcome::DuplicateName,
                    }
                }
            },
        }
    }
}

/// Today's list is exactly the collection filtered to its due topics,
/// in collection order.
pub proof fn lemma_due_topics_is_filter(s: Seq<ReviewTopicView>, today: Date)
    ensures
        spec_due_topics(s, today) == s.filter(|t: ReviewTopicView| spec_is_due(t, today)),
    decreases s.len(),
{
    reveal(Seq::filter);
    let f = |t: ReviewTopicView| spec_is_due(t, today);
    if s.len() > 0 {
        lemma_due_topics_is_filter(s.drop_last(), today);
        if spec_is_due(s.last(), today) {
            assert(spec_due_topics(s, today) =~= s.drop_last().filter(f).push(s.last()));
        } else {
            assert(spec_due_topics(s, today) =~= s.drop_last().filter(f));
        }
    } else {
        assert(spec_due_topics(s, today) =~= s.filter(f));
    }
}

} // verus!
