//! The broker's topic registry: topic names map to topics, names unique.

use vstd::prelude::*;
use crate::protocol::codec::{eq_string, string_views};
use crate::topic::{
    ClientId, Subscription, Topic, TopicName, TopicPublishError, TopicSubscribeError,
    fresh_topic, publish_post, subscribe_post, unsubscribe_post,
};

verus! {

pub(crate) open spec fn names_unique(s: Seq<Topic>) -> bool {
    forall|i: int, j: int| 0 <= i < j < s.len()
        ==> (#[trigger] s[i]).spec_name() != (#[trigger] s[j]).spec_name()
}

pub(crate) open spec fn topics_has(s: Seq<Topic>, name: Seq<char>) -> bool {
    exists|i: int| 0 <= i < s.len() && (#[trigger] s[i]).spec_name() == name
}

pub(crate) open spec fn topics_idx(s: Seq<Topic>, name: Seq<char>) -> int {
    choose|i: int| 0 <= i < s.len() && (#[trigger] s[i]).spec_name() == name
}

pub(crate) proof fn lemma_topics_idx_props(s: Seq<Topic>, name: Seq<char>)
    requires
        topics_has(s, name),
    ensures
        0 <= topics_idx(s, name) < s.len(),
        s[topics_idx(s, name)].spec_name() == name,
{
}

pub(crate) proof fn lemma_topics_idx_unique(s: Seq<Topic>, name: Seq<char>, i: int)
    requires
        names_unique(s),
        0 <= i < s.len(),
        s[i].spec_name() == name,
    ensures
        topics_has(s, name),
        topics_idx(s, name) == i,
{
    assert(topics_has(s, name));
    lemma_topics_idx_props(s, name);
}

/// The registry: every topic the broker serves, each under its unique
/// name. All operations look a topic up by name and leave every other
/// topic untouched.
pub struct Broker {
    topics: Vec<Topic>,
}

impl Default for Broker {
    fn default() -> (b: Broker)
        ensures
            b.inv(),
            b.spec_topic_names() == Seq::<Seq<char>>::empty(),
            forall|n: Seq<char>| !b.has_topic(n),
    {
        let b = Broker { topics: Vec::new() };
        proof {
            assert(b.spec_topic_names() =~= Seq::<Seq<char>>::empty());
        }
        b
    }
}

impl Broker {
    /// Well-formedness: topic names are unique and every topic is
    /// well-formed.
    pub closed spec fn inv(&self) -> bool {
        &&& names_unique(self.topics@)
        &&& forall|i: int| 0 <= i < self.topics@.len() ==> (#[trigger] self.topics@[i]).inv()
    }

    pub closed spec fn has_topic(&self, name: Seq<char>) -> bool {
        topics_has(self.topics@, name)
    }

    /// The topic registered under `name`.
    pub closed spec fn spec_topic(&self, name: Seq<char>) -> Topic
        recommends
            self.has_topic(name),
    {
        self.topics@[topics_idx(self.topics@, name)]
    }

    /// The registered names, in registry order.
    pub closed spec fn spec_topic_names(&self) -> Seq<Seq<char>> {
        self.topics@.map_values(|t: Topic| t.spec_name())
    }

    /// A publish to `name` can assign its offset: either the topic does
    /// not exist, or it has not exhausted the 64-bit offset space.
    pub open spec fn publish_ok(&self, name: Seq<char>) -> bool {
        self.has_topic(name) ==> self.spec_topic(name).spec_next_offset() < u64::MAX
    }

    /// Looks the topic up by name.
    fn find_topic(&self, topic_name: &TopicName) -> (r: Option<usize>)
        requires
            names_unique(self.topics@),
        ensures
            match r {
                Some(i) => {
                    &&& i < self.topics@.len()
                    &&& self.topics@[i as int].spec_name() == topic_name@
                    &&& topics_has(self.topics@, topic_name@)
                    &&& topics_idx(self.topics@, topic_name@) == i
                },
                None => !topics_has(self.topics@, topic_name@),
            },
    {
        let mut i: usize = 0;
        while i < self.topics.len()
            invariant
                i <= self.topics@.len(),
                names_unique(self.topics@),
                forall|j: int| 0 <= j < i ==> (#[trigger] self.topics@[j]).spec_name()
                    != topic_name@,
            decreases self.topics@.len() - i,
        {
            if eq_string(self.topics[i].name(), topic_name) {
                proof {
                    lemma_topics_idx_unique(self.topics@, topic_name@, i as int);
                }
                return Some(i);
            }
            i = i + 1;
        }
        proof {
            assert(!topics_has(self.topics@, topic_name@));
        }
        None
    }

    /// Whether a publish to the named topic can still assign an offset:
    /// callers check this before publishing, since a topic that has
    /// exhausted the 64-bit offset space cannot take another record.
    pub fn can_assign_offset(&self, topic_name: &TopicName) -> (r: bool)
        requires
            self.inv(),
        ensures
            r == self.publish_ok(topic_name@),
    {
        match self.find_topic(topic_name) {
            None => true,
            Some(i) => self.topics[i].next_offset() < u64::MAX,
        }
    }

    /// Creates the topic and answers true; if a topic of that name
    /// already exists, answers false and changes nothing at all.
    pub fn add_topic(&mut self, topic_name: &TopicName, retention: u64) -> (r: bool)
        requires
            old(self).inv(),
        ensures
            final(self).inv(),
            r <==> !old(self).has_topic(topic_name@),
            !r ==> *final(self) == *old(self),
            r ==> {
                &&& final(self).has_topic(topic_name@)
                &&& fresh_topic(final(self).spec_topic(topic_name@), topic_name@, retention)
                &&& final(self).spec_topic_names() == old(self).spec_topic_names().push(
                    topic_name@,
                )
                &&& forall|n: Seq<char>| n != topic_name@ ==> (#[trigger] final(self).has_topic(n)
                    <==> old(self).has_topic(n))
                &&& forall|n: Seq<char>| n != topic_name@ && #[trigger] old(self).has_topic(n)
                    ==> final(self).spec_topic(n) == old(self).spec_topic(n)
            },
    {
        match self.find_topic(topic_name) {
            Some(_) => false,
            None => {
                let ghost pre = self.topics@;
                let t = Topic::new(topic_name.as_str(), retention);
                self.topics.push(t);
                proof {
                    let post = self.topics@;
                    let last = post.len() - 1;
                    assert forall|i: int| 0 <= i < pre.len()
                        implies #[trigger] post[i] == pre[i] by {}
                    assert(names_unique(post));
                    lemma_topics_idx_unique(post, topic_name@, last);
                    assert(final(self).spec_topic_names()
                        =~= old(self).spec_topic_names().push(topic_name@));
                    assert forall|n: Seq<char>| n != topic_name@
                        implies (#[trigger] self.has_topic(n) <==> topics_has(pre, n)) by {
                        if topics_has(post, n) {
                            lemma_topics_idx_props(post, n);
                            lemma_topics_idx_unique(pre, n, topics_idx(post, n));
                        }
                        if topics_has(pre, n) {
                            lemma_topics_idx_props(pre, n);
                            lemma_topics_idx_unique(post, n, topics_idx(pre, n));
                        }
                    }
                    assert forall|n: Seq<char>| n != topic_name@ && #[trigger] topics_has(pre, n)
                        implies self.spec_topic(n) == old(self).spec_topic(n) by {
                        lemma_topics_idx_props(pre, n);
                        lemma_topics_idx_unique(post, n, topics_idx(pre, n));
                    }
                }
                true
            },
        }
    }

    /// Removes the topic and answers true; false when no topic of that
    /// name exists. Subscriptions already drained from the removed topic
    /// keep whatever is in their queues; nothing more is enqueued.
    pub fn delete_topic(&mut self, topic_name: &TopicName) -> (r: bool)
        requires
            old(self).inv(),
        ensures
            final(self).inv(),
            r <==> old(self).has_topic(topic_name@),
            !r ==> *final(self) == *old(self),
            !final(self).has_topic(topic_name@),
            forall|n: Seq<char>| n != topic_name@ ==> (#[trigger] final(self).has_topic(n)
                <==> old(self).has_topic(n)),
            forall|n: Seq<char>| n != topic_name@ && #[trigger] old(self).has_topic(n)
                ==> final(self).spec_topic(n) == old(self).spec_topic(n),
    {
        match self.find_topic(topic_name) {
            None => {
                proof {
                    assert(!self.has_topic(topic_name@));
                }
                false
            },
            Some(i) => {
                let ghost pre = self.topics@;
                let ghost j = i as int;
                self.topics.remove(i);
                proof {
                    let post = self.topics@;
                    assert forall|k: int| 0 <= k < post.len()
                        implies #[trigger] post[k] == (if k < j {
                            pre[k]
                        } else {
                            pre[k + 1]
                        }) by {}
                    assert(names_unique(post));
                    assert forall|k: int| 0 <= k < post.len()
                        implies (#[trigger] post[k]).inv() by {}
                    assert(!topics_has(post, topic_name@));
                    assert forall|n: Seq<char>| n != topic_name@
                        implies (#[trigger] self.has_topic(n) <==> topics_has(pre, n)) by {
                        if topics_has(post, n) {
                            lemma_topics_idx_props(post, n);
                            let k = topics_idx(post, n);
                            if k < j {
                                lemma_topics_idx_unique(pre, n, k);
                            } else {
                                lemma_topics_idx_unique(pre, n, k + 1);
                            }
                        }
                        if topics_has(pre, n) {
                            lemma_topics_idx_props(pre, n);
                            let k = topics_idx(pre, n);
                            if k < j {
                                lemma_topics_idx_unique(post, n, k);
                            } else {
                                lemma_topics_idx_unique(post, n, k - 1);
                            }
                        }
                    }
                    assert forall|n: Seq<char>| n != topic_name@ && #[trigger] topics_has(pre, n)
                        implies self.spec_topic(n) == old(self).spec_topic(n) by {
                        lemma_topics_idx_props(pre, n);
                        let k = topics_idx(pre, n);
                        if k < j {
                            lemma_topics_idx_unique(post, n, k);
                        } else {
                            lemma_topics_idx_unique(post, n, k - 1);
                        }
                    }
                }
                true
            },
        }
    }

    /// A snapshot of the registered names. No ordering is promised to
    /// callers; this implementation lists them in registry order.
    pub fn list_topics(&self) -> (r: Vec<TopicName>)
        ensures
            string_views(r@) == self.spec_topic_names(),
    {
        let mut names: Vec<TopicName> = Vec::new();
        let mut i: usize = 0;
        while i < self.topics.len()
            invariant
                i <= self.topics@.len(),
                names@.len() == i,
                string_views(names@) == self.spec_topic_names().take(i as int),
            decreases self.topics@.len() - i,
        {
            names.push(self.topics[i].name().clone());
            proof {
                let lhs = string_views(names@);
                let rhs = self.spec_topic_names().take(i + 1 as int);
                assert(lhs.len() == rhs.len());
                assert forall|k: int| 0 <= k < lhs.len() implies lhs[k] == rhs[k] by {
                    if k < i {
                        assert(names@[k] == names@.drop_last()[k]);
                        assert(string_views(names@.drop_last())[k]
                            == self.spec_topic_names().take(i as int)[k]);
                    } else {
                        assert(names@[k] == names@.last());
                        assert(rhs[k] == self.spec_topic_names()[k]);
                    }
                }
                assert(lhs =~= rhs);
            }
            i = i + 1;
        }
        proof {
            assert(self.spec_topic_names().take(self.topics@.len() as int)
                =~= self.spec_topic_names());
        }
        names
    }

    /// Publishes the payload on the named topic; `TopicNotFound` names
    /// the topic when it does not exist, and nothing changes then.
    pub fn publish(&mut self, topic_name: &TopicName, message_payload: Vec<u8>) -> (r: Result<
        (),
        TopicPublishError,
    >)
        requires
            old(self).inv(),
            old(self).publish_ok(topic_name@),
        ensures
            final(self).inv(),
            r is Ok <==> old(self).has_topic(topic_name@),
            match r {
                Ok(()) => {
                    &&& final(self).has_topic(topic_name@)
                    &&& publish_post(
                        old(self).spec_topic(topic_name@),
                        final(self).spec_topic(topic_name@),
                        message_payload@,
                    )
                    &&& forall|n: Seq<char>| n != topic_name@
                        ==> (#[trigger] final(self).has_topic(n) <==> old(self).has_topic(n))
                    &&& forall|n: Seq<char>| n != topic_name@ && #[trigger] old(self).has_topic(n)
                        ==> final(self).spec_topic(n) == old(self).spec_topic(n)
                },
                Err(e) => {
                    &&& *final(self) == *old(self)
                    &&& e matches TopicPublishError::TopicNotFound(n) && n@ == topic_name@
                },
            },
    {
        match self.find_topic(topic_name) {
            None => Err(TopicPublishError::TopicNotFound(topic_name.clone())),
            Some(i) => {
                let ghost pre = self.topics@;
                let ghost j = i as int;
                let t = &mut self.topics[i];
                t.publish(message_payload);
                proof {
                    let post = self.topics@;
                    assert(post == pre.update(j, post[j]));
                    assert forall|k: int| 0 <= k < post.len() && k != j
                        implies #[trigger] post[k] == pre[k] by {}
                    assert(post[j].spec_name() == pre[j].spec_name());
                    assert(names_unique(post));
                    lemma_topics_idx_unique(post, topic_name@, j);
                    assert forall|n: Seq<char>| n != topic_name@
                        implies (#[trigger] self.has_topic(n) <==> topics_has(pre, n)) by {
                        if topics_has(post, n) {
                            lemma_topics_idx_props(post, n);
                            lemma_topics_idx_unique(pre, n, topics_idx(post, n));
                        }
                        if topics_has(pre, n) {
                            lemma_topics_idx_props(pre, n);
                            lemma_topics_idx_unique(post, n, topics_idx(pre, n));
                        }
                    }
                    assert forall|n: Seq<char>| n != topic_name@ && #[trigger] topics_has(pre, n)
                        implies self.spec_topic(n) == old(self).spec_topic(n) by {
                        lemma_topics_idx_props(pre, n);
                        lemma_topics_idx_unique(post, n, topics_idx(pre, n));
                    }
                }
                Ok(())
            },
        }
    }

    /// Opens a subscription on the named topic: the retained records from
    /// `from_offset` are replayed, then the queue receives what is
    /// published from now on. `TopicNotFound` names the topic when it
    /// does not exist, and nothing changes then.
    pub fn subscribe(
        &mut self,
        topic_name: &TopicName,
        client_id: ClientId,
        from_offset: Option<u64>,
    ) -> (r: Result<Subscription, TopicSubscribeError>)
        requires
            old(self).inv(),
        ensures
            final(self).inv(),
            r is Ok <==> old(self).has_topic(topic_name@),
            match r {
                Ok(s) => {
                    &&& final(self).has_topic(topic_name@)
                    &&& subscribe_post(
                        old(self).spec_topic(topic_name@),
                        final(self).spec_topic(topic_name@),
                        client_id,
                    )
                    &&& s.topic_name@ == topic_name@
                    &&& crate::topic::records_view(s.replay@)
                        == old(self).spec_topic(topic_name@).spec_replay(from_offset)
                    &&& forall|n: Seq<char>| n != topic_name@
                        ==> (#[trigger] final(self).has_topic(n) <==> old(self).has_topic(n))
                    &&& forall|n: Seq<char>| n != topic_name@ && #[trigger] old(self).has_topic(n)
                        ==> final(self).spec_topic(n) == old(self).spec_topic(n)
                },
                Err(e) => {
                    &&& *final(self) == *old(self)
                    &&& e matches TopicSubscribeError::TopicNotFound(n) && n@ == topic_name@
                },
            },
    {
        match self.find_topic(topic_name) {
            None => Err(TopicSubscribeError::TopicNotFound(topic_name.clone())),
            Some(i) => {
                let ghost pre = self.topics@;
                let ghost j = i as int;
                let t = &mut self.topics[i];
                let s = t.subscribe(client_id, from_offset);
                proof {
                    let post = self.topics@;
                    assert(post == pre.update(j, post[j]));
                    assert forall|k: int| 0 <= k < post.len() && k != j
                        implies #[trigger] post[k] == pre[k] by {}
                    assert(post[j].spec_name() == pre[j].spec_name());
                    assert(names_unique(post));
                    lemma_topics_idx_unique(post, topic_name@, j);
                    assert forall|n: Seq<char>| n != topic_name@
                        implies (#[trigger] self.has_topic(n) <==> topics_has(pre, n)) by {
                        if topics_has(post, n) {
                            lemma_topics_idx_props(post, n);
                            lemma_topics_idx_unique(pre, n, topics_idx(post, n));
                        }
                        if topics_has(pre, n) {
                            lemma_topics_idx_props(pre, n);
                            lemma_topics_idx_unique(post, n, topics_idx(pre, n));
                        }
                    }
                    assert forall|n: Seq<char>| n != topic_name@ && #[trigger] topics_has(pre, n)
                        implies self.spec_topic(n) == old(self).spec_topic(n) by {
                        lemma_topics_idx_props(pre, n);
                        lemma_topics_idx_unique(post, n, topics_idx(pre, n));
                    }
                }
                Ok(s)
            },
        }
    }

    /// Ends `client_id`'s subscription on the named topic; no record
    /// published afterwards reaches its queue. `TopicNotFound` names the
    /// topic when it does not exist, and nothing changes then.
    pub fn unsubscribe(&mut self, topic_name: &TopicName, client_id: ClientId) -> (r: Result<
        (),
        TopicSubscribeError,
    >)
        requires
            old(self).inv(),
        ensures
            final(self).inv(),
            r is Ok <==> old(self).has_topic(topic_name@),
            match r {
                Ok(()) => {
                    &&& final(self).has_topic(topic_name@)
                    &&& unsubscribe_post(
                        old(self).spec_topic(topic_name@),
                        final(self).spec_topic(topic_name@),
                        client_id,
                    )
                    &&& forall|n: Seq<char>| n != topic_name@
                        ==> (#[trigger] final(self).has_topic(n) <==> old(self).has_topic(n))
                    &&& forall|n: Seq<char>| n != topic_name@ && #[trigger] old(self).has_topic(n)
                        ==> final(self).spec_topic(n) == old(self).spec_topic(n)
                },
                Err(e) => {
                    &&& *final(self) == *old(self)
                    &&& e matches TopicSubscribeError::TopicNotFound(n) && n@ == topic_name@
                },
            },
    {
        match self.find_topic(topic_name) {
            None => Err(TopicSubscribeError::TopicNotFound(topic_name.clone())),
            Some(i) => {
                let ghost pre = self.topics@;
                let ghost j = i as int;
                let t = &mut self.topics[i];
                t.unsubscribe(client_id);
                proof {
                    let post = self.topics@;
                    assert(post == pre.update(j, post[j]));
                    assert forall|k: int| 0 <= k < post.len() && k != j
                        implies #[trigger] post[k] == pre[k] by {}
                    assert(post[j].spec_name() == pre[j].spec_name());
                    assert(names_unique(post));
                    lemma_topics_idx_unique(post, topic_name@, j);
                    assert forall|n: Seq<char>| n != topic_name@
                        implies (#[trigger] self.has_topic(n) <==> topics_has(pre, n)) by {
                        if topics_has(post, n) {
                            lemma_topics_idx_props(post, n);
                            lemma_topics_idx_unique(pre, n, topics_idx(post, n));
                        }
                        if topics_has(pre, n) {
                            lemma_topics_idx_props(pre, n);
                            lemma_topics_idx_unique(post, n, topics_idx(pre, n));
                        }
                    }
                    assert forall|n: Seq<char>| n != topic_name@ && #[trigger] topics_has(pre, n)
                        implies self.spec_topic(n) == old(self).spec_topic(n) by {
                        lemma_topics_idx_props(pre, n);
                        lemma_topics_idx_unique(post, n, topics_idx(pre, n));
                    }
                }
                Ok(())
            },
        }
    }
}

} // verus!
