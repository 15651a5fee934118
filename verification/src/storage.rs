//! The topic collection: an ordered list of review topics, unique by
//! name, with add (deduplicating), remove, find, rename and review-by-name
//! operations. Adding re-sorts the list by urgency (fewest days until
//! review first, ties broken by name), so the stored order already
//! reflects urgency.
use crate::clock::now_timestamp;
use crate::dates::Date;
use crate::review_topics::{
    lemma_spec_views_index, lemma_topic_le_total, lemma_topic_le_trans, spec_topic_le,
    spec_views, ReviewTopic, ReviewTopicView,
};
use crate::times::Timestamp;
use vstd::prelude::*;

verus! {

broadcast use {vstd::seq_lib::group_to_multiset_ensures, lemma_spec_views_index};

/// Whether the caller wants a prior save loaded into the new collection.
pub enum PreviousStorage {
    Yes,
    No,
}

/// The collection of review topics, together with the path its contents
/// are persisted at.
pub struct Storage {
    pub review_topic_list: Vec<ReviewTopic>,
    pub storage_file_path: String,
}

/// The mathematical value of a `Storage`: the topic values in storage
/// order, and the file path as a character sequence.
pub struct StorageView {
    pub topics: Seq<ReviewTopicView>,
    pub path: Seq<char>,
}

/// Some topic in `s` is named `name`.
pub open spec fn spec_has_name(s: Seq<ReviewTopicView>, name: Seq<char>) -> bool {
    exists|i: int| 0 <= i < s.len() && s[i].topic_name == name
}

/// Every topic in `s` is well-formed.
pub open spec fn spec_wf_topics(s: Seq<ReviewTopicView>) -> bool {
    forall|i: int| 0 <= i < s.len() ==> (#[trigger] s[i]).wf()
}

/// `s` is sorted by urgency for `today`: most urgent first, ties broken
/// by name.
pub open spec fn spec_sorted_by_urgency(s: Seq<ReviewTopicView>, today: Date) -> bool {
    forall|i: int, j: int| 0 <= i < j < s.len() ==> spec_topic_le(s[i], s[j], today)
}

impl View for Storage {
    type V = StorageView;

    open spec fn view(&self) -> StorageView {
        StorageView {
            topics: spec_views(self.review_topic_list@),
            path: self.storage_file_path@,
        }
    }
}

/// The position of the first topic named `name`, if any.
fn position_of_name(list: &Vec<ReviewTopic>, name: &String) -> (r: Option<usize>)
    ensures
        r matches Some(i) ==> 0 <= i < list@.len() && spec_views(list@)[i as int].topic_name
            == name@ && forall|j: int|
            0 <= j < i ==> spec_views(list@)[j].topic_name != name@,
        r is None ==> !spec_has_name(spec_views(list@), name@),
{
    let n = list.len();
    let mut i: usize = 0;
    while i < n
        invariant
            n == list@.len(),
            i <= n,
            forall|j: int| 0 <= j < i ==> spec_views(list@)[j].topic_name != name@,
        decreases n - i,
    {
        if list[i].topic_name == *name {
            return Some(i);
        }
        i = i + 1;
    }
    None
}

/// Insert `t` into the sorted list `out`, keeping it sorted.
fn insert_sorted(out: &mut Vec<ReviewTopic>, t: ReviewTopic, today: &Date)
    requires
        spec_wf_topics(spec_views(old(out)@)),
        spec_sorted_by_urgency(spec_views(old(out)@), *today),
        t@.wf(),
        today.valid(),
    ensures
        spec_views(final(out)@).to_multiset() == spec_views(old(out)@).to_multiset().insert(t@),
        spec_sorted_by_urgency(spec_views(final(out)@), *today),
        spec_wf_topics(spec_views(final(out)@)),
{
    let n = out.len();
    let mut k: usize = n;
    let mut i: usize = 0;
    let mut found = false;
    while i < n && !found
        invariant
            n == out@.len(),
            i <= n,
            t@.wf(),
            today.valid(),
            spec_wf_topics(spec_views(out@)),
            spec_sorted_by_urgency(spec_views(out@), *today),
            forall|j: int| 0 <= j < i ==> spec_topic_le(spec_views(out@)[j], t@, *today),
            !found ==> k == n,
            found ==> i < n && k == i && !spec_topic_le(spec_views(out@)[k as int], t@, *today),
        decreases n - i + (if found { 0int } else { 1int }),
    {
        if out[i].comes_before_or_equal(&t, today) {
            i = i + 1;
        } else {
            found = true;
            k = i;
        }
    }
    let ghost pre = spec_views(out@);
    out.insert(k, t);
    proof {
        let post = spec_views(out@);
        assert(post =~= pre.insert(k as int, t@)) by {
            pre.insert_ensures(k as int, t@);
            out@.insert_ensures(k as int, t);
        }
        if (k as int) < pre.len() {
            lemma_topic_le_total(pre[k as int], t@, *today);
        }
        assert forall|a: int, b: int| 0 <= a < b < post.len() implies spec_topic_le(
            post[a],
            post[b],
            *today,
        ) by {
            if a == k {
                // post[a] is t itself; everything after came from pre at or
                // past position k.
                if b - 1 > k {
                    lemma_topic_le_trans(t@, pre[k as int], pre[b - 1], *today);
                }
            } else if b == k {
                // everything before position k was found to come before t.
            } else if a < k && b > k {
                assert(spec_topic_le(pre[a], pre[b - 1], *today));
            }
        }
    }
}

/// Sort `list` by urgency for `today`. The topics are kept (as a
/// multiset); only their order changes.
fn sort_topics(list: &mut Vec<ReviewTopic>, today: &Date)
    requires
        spec_wf_topics(spec_views(old(list)@)),
        today.valid(),
    ensures
        spec_views(final(list)@).to_multiset() == spec_views(old(list)@).to_multiset(),
        spec_sorted_by_urgency(spec_views(final(list)@), *today),
        spec_wf_topics(spec_views(final(list)@)),
{
    let mut sorted_list: Vec<ReviewTopic> = Vec::new();
    proof {
        assert(spec_views(sorted_list@) =~= Seq::<ReviewTopicView>::empty());
    }
    while list.len() > 0
        invariant
            today.valid(),
            spec_wf_topics(spec_views(list@)),
            spec_wf_topics(spec_views(sorted_list@)),
            spec_sorted_by_urgency(spec_views(sorted_list@), *today),
            spec_views(list@).to_multiset().add(spec_views(sorted_list@).to_multiset())
                == spec_views(old(list)@).to_multiset(),
        decreases list@.len(),
    {
        let ghost pre = spec_views(list@);
        let t = match list.pop() {
            Some(t) => t,
            None => {
                proof {
                    assert(false);
                }
                unreached()
            },
        };
        proof {
            assert(pre =~= spec_views(list@).push(t@));
            assert(pre.to_multiset() == spec_views(list@).to_multiset().insert(t@));
        }
        insert_sorted(&mut sorted_list, t, today);
        proof {
            assert(spec_views(list@).to_multiset().add(spec_views(sorted_list@).to_multiset())
                =~= spec_views(old(list)@).to_multiset());
        }
    }
    proof {
        assert(spec_views(list@) =~= Seq::<ReviewTopicView>::empty());
        assert(spec_views(list@).to_multiset().add(spec_views(sorted_list@).to_multiset())
            =~= spec_views(sorted_list@).to_multiset());
    }
    *list = sorted_list;
}

impl Storage {
    /// An empty collection persisted at `file_path`, or at the default
    /// location when none is given. Loading a prior save is the caller's
    /// step: read the saved text and hand it to `load_storage`; the
    /// `find_prev_storage` flag records which behaviour the caller asked
    /// for.
    #[allow(unused_variables)]
    pub fn new(find_prev_storage: PreviousStorage, file_path: Option<String>) -> (r: Storage)
        ensures
            r@.topics.len() == 0,
            file_path matches Some(p) ==> r@.path == p@,
            file_path is None ==> r@.path == "./data/storage.json"@,
    {
        let storage_file_path = match file_path {
            Some(p) => p,
            None => "./data/storage.json".to_owned(),
        };
        let r = Storage { review_topic_list: Vec::new(), storage_file_path };
        proof {
            assert(r@.topics =~= Seq::<ReviewTopicView>::empty());
        }
        r
    }

    /// The topics, in storage order, as a fresh list.
    pub fn get_review_topic_list(&self) -> (r: Vec<ReviewTopic>)
        ensures
            spec_views(r@) == self@.topics,
    {
        let n = self.review_topic_list.len();
        let mut out: Vec<ReviewTopic> = Vec::new();
        let mut i: usize = 0;
        while i < n
            invariant
                n == self.review_topic_list@.len(),
                i <= n,
                spec_views(out@) == spec_views(self.review_topic_list@).take(i as int),
            decreases n - i,
        {
            let t = self.review_topic_list[i].cloned();
            let ghost pre_out = spec_views(out@);
            out.push(t);
            proof {
                assert(spec_views(out@) =~= pre_out.push(t@));
                assert(t@ == spec_views(self.review_topic_list@)[i as int]);
                assert(spec_views(out@) =~= spec_views(self.review_topic_list@).take(
                    i as int + 1,
                ));
            }
            i = i + 1;
        }
        proof {
            assert(spec_views(self.review_topic_list@).take(n as int) =~= self@.topics);
        }
        out
    }

    /// Replace the topics wholesale with `review_topic_list`.
    pub fn set_review_topic_list(&mut self, review_topic_list: Vec<ReviewTopic>)
        ensures
            final(self)@.topics == spec_views(review_topic_list@),
            final(self)@.path == old(self)@.path,
    {
        self.review_topic_list = review_topic_list;
    }

    /// Add a topic unless one of the same name is already present, in
    /// which case nothing changes (a silent no-op, not an error). After
    /// an insertion the whole list is re-sorted by urgency for `today`.
    pub fn add_review_topic_at(&mut self, review_topic: ReviewTopic, today: &Date)
        requires
            review_topic@.wf(),
            today.valid(),
            spec_wf_topics(old(self)@.topics),
        ensures
            final(self)@.path == old(self)@.path,
            spec_wf_topics(final(self)@.topics),
            spec_has_name(old(self)@.topics, review_topic@.topic_name) ==> final(self)@.topics
                == old(self)@.topics,
            !spec_has_name(old(self)@.topics, review_topic@.topic_name) ==> {
                &&& final(self)@.topics.to_multiset()
                    == old(self)@.topics.to_multiset().insert(review_topic@)
                &&& spec_sorted_by_urgency(final(self)@.topics, *today)
            },
    {
        match position_of_name(&self.review_topic_list, &review_topic.topic_name) {
            Some(_) => {
                // Duplicate name: adding is cancelled.
            },
            None => {
                let ghost pre = spec_views(self.review_topic_list@);
                self.review_topic_list.push(review_topic);
                proof {
                    assert(spec_views(self.review_topic_list@) =~= pre.push(review_topic@));
                }
                sort_topics(&mut self.review_topic_list, today);
            },
        }
    }

    /// Add a topic unless one of the same name is already present; the
    /// re-sort ranks urgency against today per the system clock.
    /// `add_review_topic_at` is the same operation for a chosen day.
    pub fn add_review_topic(&mut self, review_topic: ReviewTopic)
        requires
            review_topic@.wf(),
            spec_wf_topics(old(self)@.topics),
        ensures
            final(self)@.path == old(self)@.path,
            spec_wf_topics(final(self)@.topics),
            spec_has_name(old(self)@.topics, review_topic@.topic_name) ==> final(self)@.topics
                == old(self)@.topics,
            !spec_has_name(old(self)@.topics, review_topic@.topic_name) ==> {
                &&& final(self)@.topics.to_multiset()
                    == old(self)@.topics.to_multiset().insert(review_topic@)
                &&& exists|today: Date|
                    today.valid() && spec_sorted_by_urgency(final(self)@.topics, today)
            },
    {
        let now = now_timestamp();
        let ghost today = now.date;
        self.add_review_topic_at(review_topic, &now.date);
        proof {
            if !spec_has_name(old(self)@.topics, review_topic@.topic_name) {
                assert(today.valid() && spec_sorted_by_urgency(self@.topics, today));
            }
        }
    }

    /// Remove the topic that shares `review_topic`'s name, if present;
    /// nothing changes when the name is absent.
    pub fn remove_review_topic(&mut self, review_topic: &ReviewTopic)
        ensures
            final(self)@.path == old(self)@.path,
            !spec_has_name(old(self)@.topics, review_topic@.topic_name) ==> final(self)@.topics
                == old(self)@.topics,
            spec_has_name(old(self)@.topics, review_topic@.topic_name) ==> exists|i: int|
                {
                    &&& 0 <= i < old(self)@.topics.len()
                    &&& old(self)@.topics[i].topic_name == review_topic@.topic_name
                    &&& (forall|j: int|
                        0 <= j < i ==> old(self)@.topics[j].topic_name
                            != review_topic@.topic_name)
                    &&& final(self)@.topics == old(self)@.topics.remove(i)
                },
    {
        match position_of_name(&self.review_topic_list, &review_topic.topic_name) {
            Some(i) => {
                let ghost pre = spec_views(self.review_topic_list@);
                self.review_topic_list.remove(i);
                proof {
                    assert(spec_views(self.review_topic_list@) =~= pre.remove(i as int));
                }
            },
            None => {},
        }
    }

    /// The first topic named `review_topic_name`, if any.
    pub fn find_review_topic(&self, review_topic_name: String) -> (r: Option<&ReviewTopic>)
        ensures
            r is Some <==> spec_has_name(self@.topics, review_topic_name@),
            r matches Some(t) ==> exists|i: int|
                {
                    &&& 0 <= i < self@.topics.len()
                    &&& self@.topics[i].topic_name == review_topic_name@
                    &&& t@ == self@.topics[i]
                },
    {
        match position_of_name(&self.review_topic_list, &review_topic_name) {
            Some(i) => {
                let t = &self.review_topic_list[i];
                proof {
                    assert(t@ == self@.topics[i as int]);
                }
                Some(t)
            },
            None => None,
        }
    }

    /// Rename the first topic named `review_topic_name` to `new_name` and
    /// move it to the end of the list. Fails with `NotFound` when no topic
    /// has the old name, and with `DuplicateName` when a different topic
    /// already holds the new name (so a rename can never create a
    /// duplicate); in both failure cases the collection is unchanged.
    pub fn rename_review_topic(&mut self, review_topic_name: String, new_name: String) -> (r:
        Result<(), RenameError>)
        requires
            new_name@.len() > 0,
        ensures
            final(self)@.path == old(self)@.path,
            !spec_has_name(old(self)@.topics, review_topic_name@) ==> r == Result::<(),
                RenameError,
            >::Err(RenameError::NotFound) && final(self)@.topics == old(self)@.topics,
            spec_has_name(old(self)@.topics, review_topic_name@) && new_name@
                != review_topic_name@ && spec_has_name(old(self)@.topics, new_name@) ==> r
                == Result::<(), RenameError>::Err(RenameError::DuplicateName)
                && final(self)@.topics == old(self)@.topics,
            spec_has_name(old(self)@.topics, review_topic_name@) && (new_name@
                == review_topic_name@ || !spec_has_name(old(self)@.topics, new_name@)) ==> r
                == Result::<(), RenameError>::Ok(()) && exists|i: int|
                {
                    &&& 0 <= i < old(self)@.topics.len()
                    &&& old(self)@.topics[i].topic_name == review_topic_name@
                    &&& (forall|j: int|
                        0 <= j < i ==> old(self)@.topics[j].topic_name != review_topic_name@)
                    &&& final(self)@.topics == old(self)@.topics.remove(i).push(
                        ReviewTopicView {
                            topic_name: new_name@,
                            ..old(self)@.topics[i]
                        },
                    )
                },
    {
        match position_of_name(&self.review_topic_list, &review_topic_name) {
            None => Err(RenameError::NotFound),
            Some(i) => {
                if !(new_name == review_topic_name) && position_of_name(
                    &self.review_topic_list,
                    &new_name,
                ).is_some() {
                    return Err(RenameError::DuplicateName);
                }
                let ghost pre = spec_views(self.review_topic_list@);
                let mut t = self.review_topic_list.remove(i);
                proof {
                    assert(spec_views(self.review_topic_list@) =~= pre.remove(i as int));
                }
                t.topic_name = new_name;
                let ghost mid = spec_views(self.review_topic_list@);
                self.review_topic_list.push(t);
                proof {
                    assert(spec_views(self.review_topic_list@) =~= mid.push(t@));
                }
                Ok(())
            },
        }
    }

    /// Review the first topic named `topic_name` at time `now`: its tier
    /// advances one step, it is stamped with `now`, and it moves to the
    /// end of the list. Returns whether the topic was found; when it was
    /// not, the collection is unchanged.
    pub fn review_topic_at(&mut self, topic_name: String, now: &Timestamp) -> (found: bool)
        requires
            now.valid(),
        ensures
            final(self)@.path == old(self)@.path,
            !spec_has_name(old(self)@.topics, topic_name@) ==> !found && final(self)@.topics
                == old(self)@.topics,
            spec_has_name(old(self)@.topics, topic_name@) ==> found && exists|i: int|
                {
                    &&& 0 <= i < old(self)@.topics.len()
                    &&& old(self)@.topics[i].topic_name == topic_name@
                    &&& (forall|j: int|
                        0 <= j < i ==> old(self)@.topics[j].topic_name != topic_name@)
                    &&& final(self)@.topics == old(self)@.topics.remove(i).push(
                        ReviewTopicView {
                            topic_name: old(self)@.topics[i].topic_name,
                            last_reviewed: *now,
                            next_review_gap: old(self)@.topics[i].next_review_gap.spec_advanced(),
                        },
                    )
                },
    {
        match position_of_name(&self.review_topic_list, &topic_name) {
            None => false,
            Some(i) => {
                let ghost pre = spec_views(self.review_topic_list@);
                let mut t = self.review_topic_list.remove(i);
                proof {
                    assert(spec_views(self.review_topic_list@) =~= pre.remove(i as int));
                }
                t.review_at(*now);
                let ghost mid = spec_views(self.review_topic_list@);
                self.review_topic_list.push(t);
                proof {
                    assert(spec_views(self.review_topic_list@) =~= mid.push(t@));
                }
                true
            },
        }
    }

    /// Review the first topic named `topic_name` now, per the system
    /// clock. Returns whether the topic was found; when it was not, the
    /// collection is unchanged. `review_topic_at` is the same operation
    /// at a chosen time.
    pub fn review_topic(&mut self, topic_name: String) -> (found: bool)
        ensures
            final(self)@.path == old(self)@.path,
            !spec_has_name(old(self)@.topics, topic_name@) ==> !found && final(self)@.topics
                == old(self)@.topics,
            spec_has_name(old(self)@.topics, topic_name@) ==> found && exists|now: Timestamp|
                (#[trigger] now.valid()) && exists|i: int|
                {
                    &&& 0 <= i < old(self)@.topics.len()
                    &&& old(self)@.topics[i].topic_name == topic_name@
                    &&& (forall|j: int|
                        0 <= j < i ==> old(self)@.topics[j].topic_name != topic_name@)
                    &&& final(self)@.topics == old(self)@.topics.remove(i).push(
                        ReviewTopicView {
                            topic_name: old(self)@.topics[i].topic_name,
                            last_reviewed: now,
                            next_review_gap: old(self)@.topics[i].next_review_gap.spec_advanced(),
                        },
                    )
                },
    {
        let now = now_timestamp();
        let ghost pre = self@.topics;
        let found = self.review_topic_at(topic_name, &now);
        proof {
            if spec_has_name(pre, topic_name@) {
                let i = choose|i: int|
                    {
                        &&& 0 <= i < pre.len()
                        &&& pre[i].topic_name == topic_name@
                        &&& (forall|j: int| 0 <= j < i ==> pre[j].topic_name != topic_name@)
                        &&& self@.topics == pre.remove(i).push(
                            ReviewTopicView {
                                topic_name: pre[i].topic_name,
                                last_reviewed: now,
                                next_review_gap: pre[i].next_review_gap.spec_advanced(),
                            },
                        )
                    };
                assert(now.valid() && 0 <= i < pre.len() && pre[i].topic_name == topic_name@ && (
                forall|j: int| 0 <= j < i ==> pre[j].topic_name != topic_name@)
                    && self@.topics == pre.remove(i).push(
                    ReviewTopicView {
                        topic_name: pre[i].topic_name,
                        last_reviewed: now,
                        next_review_gap: pre[i].next_review_gap.spec_advanced(),
                    },
                ));
            }
        }
        found
    }
}

/// Why a rename was refused: the topic to rename was not found, or the
/// new name already belongs to a different topic.
#[derive(Clone, Copy, Debug, PartialEq, Eq, Structural)]
pub enum RenameError {
    NotFound,
    DuplicateName,
}

} // verus!
