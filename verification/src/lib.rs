//! A minimal spaced-repetition scheduler: topics a user wants to review
//! periodically, each with the timestamp of its last review and a review
//! interval that escalates from a day to a week to a month, kept in a
//! collection ordered by urgency and persisted as a JSON record.
use vstd::prelude::*;

mod clock;
mod codec;
mod console;
mod dates;
mod review_topics;
mod storage;
mod text;
mod tiers;
mod times;

pub use clock::now_timestamp;
pub use codec::{find_previous_storage, load_storage, load_topics, LoadError};
pub use console::{get_today_list, review_label, Cli, CliState, CommandOutcome, Commands, EditArgs};
pub use dates::{
    date_minus_days, date_plus_days, day_number, days_in_month, is_leap_year, next_day, prev_day,
    Date,
};
pub use review_topics::{ReviewTopic, ReviewTopicView};
pub use storage::{PreviousStorage, RenameError, Storage, StorageView};
pub use tiers::NextReviewGap;
pub use times::{days_between, Timestamp};

verus! {

} // verus!
