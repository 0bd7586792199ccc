//! Topics: an append-only log with bounded retention and a subscriber
//! registry with live fan-out.
//!
//! A topic keeps the most recent `retention` published records for replay
//! and assigns each published record the next offset, starting at 0. Each
//! subscriber owns the receive half of an unbounded queue; the topic holds
//! the send half and enqueues every record published while the
//! subscription is live. The whole run of records ever enqueued on one
//! subscriber's queue is tracked by the ghost sequence [`sent_records`],
//! over which the topic's invariant speaks.

use vstd::prelude::*;
use tokio::sync::mpsc::{UnboundedSender, UnboundedReceiver};

verus! {

/// The name of a topic. Names compare byte-exact and are case-sensitive.
pub type TopicName = String;

/// Identifies one subscription instance: a 128-bit value chosen by the
/// client, carried on the wire as 16 raw bytes (a UUID in practice, though
/// the broker never inspects its version bits). Held here as the two
/// big-endian halves of those bytes.
#[derive(PartialEq, Eq, Structural, Clone, Copy, Debug, Hash)]
pub struct ClientId {
    pub hi: u64,
    pub lo: u64,
}

impl ClientId {
    pub fn new(hi: u64, lo: u64) -> (c: ClientId)
        ensures
            c == (ClientId { hi, lo }),
    {
        ClientId { hi, lo }
    }
}

/// One published message: its position in the topic's log and its payload.
#[derive(Clone, Debug)]
pub struct MessageRecord {
    pub offset: u64,
    pub payload: Vec<u8>,
}

impl MessageRecord {
    pub fn new(offset: u64, payload: Vec<u8>) -> (m: MessageRecord)
        ensures
            m.offset == offset,
            m.payload@ == payload@,
    {
        MessageRecord { offset, payload }
    }
}

/// The mathematical shape of a run of records: offset and payload pairs.
pub open spec fn records_view(s: Seq<MessageRecord>) -> Seq<(u64, Seq<u8>)> {
    s.map_values(|m: MessageRecord| (m.offset, m.payload@))
}

/// Copies a payload.
pub(crate) fn clone_payload(p: &Vec<u8>) -> (r: Vec<u8>)
    ensures
        r@ == p@,
{
    vstd::slice::slice_to_vec(p.as_slice())
}

// ---------------------------------------------------------------------------
// The subscriber queue: the send half of a tokio unbounded channel,
// modelled by the run of records ever sent on it.
// ---------------------------------------------------------------------------

#[verifier::external_type_specification]
#[verifier::external_body]
#[verifier::reject_recursive_types(T)]
pub struct ExUnboundedSender<T>(UnboundedSender<T>);

#[verifier::external_type_specification]
#[verifier::external_body]
#[verifier::reject_recursive_types(T)]
pub struct ExUnboundedReceiver<T>(UnboundedReceiver<T>);

/// The run of records ever sent on this handle's channel, in order. The
/// handle is never cloned in this crate, so the handle value stands for
/// the channel's send side.
pub uninterp spec fn sent_records(sender: UnboundedSender<MessageRecord>) -> Seq<(u64, Seq<u8>)>;

/// Relies on tokio::sync::mpsc::unbounded_channel: returns the two halves
/// of a fresh channel, on which nothing has been sent yet.
#[verifier::external_body]
fn new_subscriber_channel() -> (r: (
    UnboundedSender<MessageRecord>,
    UnboundedReceiver<MessageRecord>,
))
    ensures
        sent_records(r.0) == Seq::<(u64, Seq<u8>)>::empty(),
{
    tokio::sync::mpsc::unbounded_channel()
}

/// Relies on UnboundedSender::send: it never blocks, succeeds exactly when
/// the receive half is still open, and fails without effect otherwise.
/// Whether the receive half is open cannot be known here, so both outcomes
/// are stated.
#[verifier::external_body]
fn send_record(sender: &mut UnboundedSender<MessageRecord>, offset: u64, payload: Vec<u8>) -> (ok:
    bool)
    ensures
        ok ==> sent_records(*final(sender))
            == sent_records(*old(sender)).push((offset, payload@)),
        !ok ==> sent_records(*final(sender)) == sent_records(*old(sender)),
{
    sender.send(MessageRecord::new(offset, payload)).is_ok()
}

/// The topic-side record of one subscriber: the send half of its queue and
/// the offset its live run began at.
pub struct SubscriberHandle {
    sender: UnboundedSender<MessageRecord>,
    start: Ghost<int>,
}

impl SubscriberHandle {
    pub(crate) closed spec fn spec_start(&self) -> int {
        self.start@
    }

    pub(crate) closed spec fn spec_sent(&self) -> Seq<(u64, Seq<u8>)> {
        sent_records(self.sender)
    }

    fn new(sender: UnboundedSender<MessageRecord>, start: Ghost<int>) -> (h: SubscriberHandle)
        ensures
            h.spec_start() == start@,
            h.spec_sent() == sent_records(sender),
    {
        SubscriberHandle { sender, start }
    }
}

/// What a subscriber receives: the retained records replayed at
/// subscription time, then the receive half of the queue that the topic
/// feeds with every record published while the subscription is live.
pub struct Subscription {
    pub topic_name: TopicName,
    pub replay: Vec<MessageRecord>,
    pub receiver: UnboundedReceiver<MessageRecord>,
}

impl Subscription {
    pub fn new(
        topic_name: TopicName,
        replay: Vec<MessageRecord>,
        receiver: UnboundedReceiver<MessageRecord>,
    ) -> (s: Subscription)
        ensures
            s.topic_name@ == topic_name@,
            s.replay@ == replay@,
    {
        Subscription { topic_name, replay, receiver }
    }
}

/// Publishing to a topic that is not in the registry.
pub enum TopicPublishError {
    TopicNotFound(TopicName),
}

/// Subscribing to or unsubscribing from a topic that is not in the
/// registry.
pub enum TopicSubscribeError {
    TopicNotFound(TopicName),
}

// ---------------------------------------------------------------------------
// Subscriber lookup helpers over the registry sequence.
// ---------------------------------------------------------------------------

pub(crate) open spec fn ids_unique(s: Seq<(ClientId, SubscriberHandle)>) -> bool {
    forall|i: int, j: int| 0 <= i < j < s.len() ==> (#[trigger] s[i]).0 != (#[trigger] s[j]).0
}

pub(crate) open spec fn seq_has(s: Seq<(ClientId, SubscriberHandle)>, c: ClientId) -> bool {
    exists|i: int| 0 <= i < s.len() && (#[trigger] s[i]).0 == c
}

pub(crate) open spec fn seq_idx(s: Seq<(ClientId, SubscriberHandle)>, c: ClientId) -> int {
    choose|i: int| 0 <= i < s.len() && (#[trigger] s[i]).0 == c
}

pub(crate) proof fn lemma_seq_idx_props(s: Seq<(ClientId, SubscriberHandle)>, c: ClientId)
    requires
        seq_has(s, c),
    ensures
        0 <= seq_idx(s, c) < s.len(),
        s[seq_idx(s, c)].0 == c,
{
}

pub(crate) proof fn lemma_seq_idx_unique(s: Seq<(ClientId, SubscriberHandle)>, c: ClientId, i: int)
    requires
        ids_unique(s),
        0 <= i < s.len(),
        s[i].0 == c,
    ensures
        seq_has(s, c),
        seq_idx(s, c) == i,
{
    assert(seq_has(s, c));
    lemma_seq_idx_props(s, c);
}

/// One entry of the subscriber registry is coherent with the publish
/// history: its queue has been fed exactly the records from its start
/// offset up to the present, in order.
pub(crate) open spec fn sub_entry_inv(h: SubscriberHandle, hist: Seq<Seq<u8>>) -> bool {
    let st = h.spec_start();
    let sent = h.spec_sent();
    &&& 0 <= st <= hist.len()
    &&& sent.len() == hist.len() - st
    &&& forall|k: int| 0 <= k < sent.len()
        ==> (#[trigger] sent[k]) == (((st + k) as u64, hist[st + k]))
}

// ---------------------------------------------------------------------------
// The topic.
// ---------------------------------------------------------------------------

/// A topic as `AddTopic` creates it: named, with its retention, nothing
/// published yet and nobody subscribed.
pub open spec fn fresh_topic(t: Topic, name: Seq<char>, retention: u64) -> bool {
    &&& t.spec_name() == name
    &&& t.spec_retention() == retention
    &&& t.spec_next_offset() == 0
    &&& t.history() == Seq::<Seq<u8>>::empty()
    &&& t.spec_log() == Seq::<(u64, Seq<u8>)>::empty()
    &&& forall|c: ClientId| !t.has_subscriber(c)
}

/// How a publish changes a topic: the payload is appended to the history,
/// the next offset advances by one, the name and retention stay, no
/// subscriber appears, and every subscriber that stays has received
/// exactly this record beyond what it had.
pub open spec fn publish_post(pre: Topic, post: Topic, payload: Seq<u8>) -> bool {
    &&& post.spec_name() == pre.spec_name()
    &&& post.spec_retention() == pre.spec_retention()
    &&& post.spec_next_offset() == pre.spec_next_offset() + 1
    &&& post.history() == pre.history().push(payload)
    &&& forall|c: ClientId| #[trigger] post.has_subscriber(c) ==> pre.has_subscriber(c)
    &&& forall|c: ClientId| #[trigger] post.has_subscriber(c) ==> {
        &&& post.sub_sent(c) == pre.sub_sent(c).push(((pre.spec_next_offset(), payload)))
        &&& post.sub_start(c) == pre.sub_start(c)
    }
}

/// How a subscribe changes a topic: the log and history stay; `client_id`
/// is subscribed with a fresh, empty queue fed from the present onward;
/// every other subscription is untouched.
pub open spec fn subscribe_post(pre: Topic, post: Topic, client_id: ClientId) -> bool {
    &&& post.spec_name() == pre.spec_name()
    &&& post.spec_retention() == pre.spec_retention()
    &&& post.spec_next_offset() == pre.spec_next_offset()
    &&& post.history() == pre.history()
    &&& post.spec_log() == pre.spec_log()
    &&& post.has_subscriber(client_id)
    &&& post.sub_sent(client_id) == Seq::<(u64, Seq<u8>)>::empty()
    &&& post.sub_start(client_id) == pre.history().len()
    &&& forall|c: ClientId| c != client_id ==> (#[trigger] post.has_subscriber(c)
        <==> pre.has_subscriber(c))
    &&& forall|c: ClientId| c != client_id && #[trigger] pre.has_subscriber(c) ==> {
        &&& post.sub_sent(c) == pre.sub_sent(c)
        &&& post.sub_start(c) == pre.sub_start(c)
    }
}

/// How an unsubscribe changes a topic: the log and history stay;
/// `client_id` is no longer subscribed; every other subscription is
/// untouched.
pub open spec fn unsubscribe_post(pre: Topic, post: Topic, client_id: ClientId) -> bool {
    &&& post.spec_name() == pre.spec_name()
    &&& post.spec_retention() == pre.spec_retention()
    &&& post.spec_next_offset() == pre.spec_next_offset()
    &&& post.history() == pre.history()
    &&& post.spec_log() == pre.spec_log()
    &&& !post.has_subscriber(client_id)
    &&& forall|c: ClientId| c != client_id ==> (#[trigger] post.has_subscriber(c)
        <==> pre.has_subscriber(c))
    &&& forall|c: ClientId| c != client_id && #[trigger] pre.has_subscriber(c) ==> {
        &&& post.sub_sent(c) == pre.sub_sent(c)
        &&& post.sub_start(c) == pre.sub_start(c)
    }
}

/// A named, append-only stream with bounded retention.
pub struct Topic {
    pub topic_name: TopicName,
    retention: u64,
    next_offset: u64,
    log: std::collections::VecDeque<MessageRecord>,
    subscribers: Vec<(ClientId, SubscriberHandle)>,
    history: Ghost<Seq<Seq<u8>>>,
}

impl Topic {
    pub closed spec fn spec_name(&self) -> Seq<char> {
        self.topic_name@
    }

    pub closed spec fn spec_retention(&self) -> u64 {
        self.retention
    }

    pub closed spec fn spec_next_offset(&self) -> u64 {
        self.next_offset
    }

    /// Every payload ever published to this topic, in publish order.
    pub closed spec fn history(&self) -> Seq<Seq<u8>> {
        self.history@
    }

    /// The retained records, oldest first.
    pub closed spec fn spec_log(&self) -> Seq<(u64, Seq<u8>)> {
        records_view(self.log@)
    }

    pub closed spec fn has_subscriber(&self, c: ClientId) -> bool {
        seq_has(self.subscribers@, c)
    }

    /// The run of records enqueued on `c`'s live queue so far.
    pub closed spec fn sub_sent(&self, c: ClientId) -> Seq<(u64, Seq<u8>)>
        recommends
            self.has_subscriber(c),
    {
        self.subscribers@[seq_idx(self.subscribers@, c)].1.spec_sent()
    }

    /// The offset from which `c`'s live queue has been fed.
    pub closed spec fn sub_start(&self, c: ClientId) -> int
        recommends
            self.has_subscriber(c),
    {
        self.subscribers@[seq_idx(self.subscribers@, c)].1.spec_start()
    }

    pub closed spec fn spec_subscriber_count(&self) -> nat {
        self.subscribers@.len()
    }

    /// Well-formedness: the retained log is the most recent slice of the
    /// history, capped by the retention; offsets are assigned contiguously
    /// from 0; subscriber ids are unique; and every subscriber queue holds
    /// exactly the records published since its start.
    pub closed spec fn inv(&self) -> bool {
        let n = self.history@.len() as int;
        let llen = self.log@.len() as int;
        &&& self.next_offset == n
        &&& llen == vstd::math::min(self.retention as int, n)
        &&& forall|i: int| 0 <= i < llen
            ==> (#[trigger] self.log@[i]).offset == n - llen + i
        &&& forall|i: int| 0 <= i < llen
            ==> (#[trigger] self.log@[i]).payload@ == self.history@[n - llen + i]
        &&& ids_unique(self.subscribers@)
        &&& forall|i: int| 0 <= i < self.subscribers@.len()
            ==> sub_entry_inv((#[trigger] self.subscribers@[i]).1, self.history@)
    }

    pub fn new(topic_name: &str, retention: u64) -> (t: Topic)
        ensures
            t.inv(),
            fresh_topic(t, topic_name@, retention),
            t.spec_subscriber_count() == 0,
    {
        let t = Topic {
            topic_name: topic_name.to_owned(),
            retention,
            next_offset: 0,
            log: std::collections::VecDeque::new(),
            subscribers: Vec::new(),
            history: Ghost(Seq::empty()),
        };
        proof {
            assert(records_view(t.log@) =~= Seq::<(u64, Seq<u8>)>::empty());
        }
        t
    }

    /// The topic's name.
    pub fn name(&self) -> (r: &String)
        ensures
            r@ == self.spec_name(),
    {
        &self.topic_name
    }

    /// The offset the next published record will get; also the number of
    /// records ever published.
    pub fn next_offset(&self) -> (r: u64)
        ensures
            r == self.spec_next_offset(),
    {
        self.next_offset
    }

    pub fn retention(&self) -> (r: u64)
        ensures
            r == self.spec_retention(),
    {
        self.retention
    }

    /// A copy of the retained records, oldest first.
    pub fn retained_records(&self) -> (r: Vec<MessageRecord>)
        ensures
            records_view(r@) == self.spec_log(),
    {
        let mut out: Vec<MessageRecord> = Vec::new();
        let mut i: usize = 0;
        while i < self.log.len()
            invariant
                i <= self.log@.len(),
                out@.len() == i,
                records_view(out@) == records_view(self.log@.take(i as int)),
            decreases self.log@.len() - i,
        {
            let rec = &self.log[i];
            out.push(MessageRecord::new(rec.offset, clone_payload(&rec.payload)));
            proof {
                let lhs = records_view(out@);
                let rhs = records_view(self.log@.take(i + 1 as int));
                assert(lhs.len() == rhs.len());
                assert forall|j: int| 0 <= j < lhs.len() implies lhs[j] == rhs[j] by {
                    if j < i {
                        assert(out@[j] == out@.drop_last()[j]);
                        assert(records_view(out@.drop_last())[j]
                            == records_view(self.log@.take(i as int))[j]);
                        assert(self.log@.take(i as int)[j] == self.log@.take(i + 1 as int)[j]);
                    } else {
                        assert(out@[j] == out@.last());
                        assert(self.log@.take(i + 1 as int)[j] == self.log@[i as int]);
                    }
                }
                assert(lhs =~= rhs);
            }
            i = i + 1;
        }
        proof {
            assert(self.log@.take(self.log@.len() as int) =~= self.log@);
        }
        out
    }

    /// Publishes one payload: assigns it the next offset, appends it to
    /// the retained log (dropping the oldest record beyond the retention),
    /// and enqueues it on every live subscriber's queue. A subscriber
    /// whose queue is detected closed is pruned; every subscriber that
    /// remains has received exactly this record beyond what it had.
    /// Publishing never blocks on a slow subscriber.
    pub fn publish(&mut self, payload: Vec<u8>)
        requires
            old(self).inv(),
            old(self).spec_next_offset() < u64::MAX,
        ensures
            final(self).inv(),
            publish_post(*old(self), *final(self), payload@),
    {
        let ghost n0 = self.history@.len() as int;
        let ghost subs0 = self.subscribers@;
        let ghost rec = ((old(self).next_offset, payload@));
        let offset = self.next_offset;

        // Fan out to every live subscriber; prune the closed ones.
        let mut kept: Vec<(ClientId, SubscriberHandle)> = Vec::new();
        while self.subscribers.len() > 0
            invariant
                self.topic_name == old(self).topic_name,
                self.retention == old(self).retention,
                self.next_offset == old(self).next_offset,
                self.history@ == old(self).history@,
                self.log@ == old(self).log@,
                offset == old(self).next_offset,
                rec == ((old(self).next_offset, payload@)),
                subs0 == old(self).subscribers@,
                ids_unique(subs0),
                forall|i: int| 0 <= i < subs0.len()
                    ==> sub_entry_inv((#[trigger] subs0[i]).1, old(self).history@),
                self.subscribers@.len() <= subs0.len(),
                self.subscribers@ == subs0.take(self.subscribers@.len() as int),
                ids_unique(kept@),
                forall|i: int| 0 <= i < kept@.len() ==> seq_has(subs0, (#[trigger] kept@[i]).0),
                forall|i: int| 0 <= i < kept@.len() ==> !seq_has(
                    self.subscribers@,
                    (#[trigger] kept@[i]).0,
                ),
                forall|i: int| 0 <= i < kept@.len() ==> {
                    let e = #[trigger] kept@[i];
                    let o = subs0[seq_idx(subs0, e.0)].1;
                    &&& e.1.spec_start() == o.spec_start()
                    &&& e.1.spec_sent() == o.spec_sent().push(rec)
                },
            decreases self.subscribers@.len(),
        {
            let ghost cur = self.subscribers@.len() as int;
            let entry = self.subscribers.pop().unwrap();
            let c = entry.0;
            let mut h = entry.1;
            proof {
                assert(subs0.take(cur)[cur - 1] == subs0[cur - 1]);
                lemma_seq_idx_unique(subs0, c, cur - 1);
                assert(self.subscribers@ =~= subs0.take(cur - 1));
                assert forall|j: int| 0 <= j < self.subscribers@.len()
                    implies (#[trigger] self.subscribers@[j]).0 != c by {
                    assert(self.subscribers@[j] == subs0[j]);
                }
                assert(!seq_has(self.subscribers@, c));
            }
            let ok = send_record(&mut h.sender, offset, clone_payload(&payload));
            if ok {
                proof {
                    // The popped id is in neither the remaining prefix nor
                    // the kept list, so the kept ids stay unique.
                    assert(seq_has(subs0.take(cur), c));
                    assert(forall|i: int| 0 <= i < kept@.len()
                        ==> (#[trigger] kept@[i]).0 != c);
                }
                kept.push((c, h));
            }
        }
        self.subscribers = kept;

        // Assign the offset and retain the record, bounded by the
        // retention.
        let ghost hist1 = self.history@.push(payload@);
        self.next_offset = self.next_offset + 1;
        self.history = Ghost(hist1);
        let ghost log0 = self.log@;
        self.log.push_back(MessageRecord::new(offset, clone_payload(&payload)));
        if (self.log.len() as u64) > self.retention {
            self.log.pop_front();
        }

        proof {
            // The log is again the most recent retained slice.
            let llen = self.log@.len() as int;
            assert(llen == vstd::math::min(self.retention as int, n0 + 1));
            assert forall|i: int| 0 <= i < llen implies (#[trigger] self.log@[i]).offset == n0 + 1
                - llen + i && self.log@[i].payload@ == hist1[n0 + 1 - llen + i] by {
                if i < llen - 1 {
                    if log0.len() as int + 1 > self.retention as int {
                        assert(self.log@[i] == log0[i + 1]);
                    } else {
                        assert(self.log@[i] == log0[i]);
                    }
                    assert(hist1[n0 + 1 - llen + i] == old(self).history@[n0 + 1 - llen + i]);
                }
            }
            // Each kept entry is coherent with the extended history.
            assert forall|i: int| 0 <= i < self.subscribers@.len()
                implies sub_entry_inv((#[trigger] self.subscribers@[i]).1, hist1) by {
                let e = self.subscribers@[i];
                lemma_seq_idx_props(subs0, e.0);
                let o = subs0[seq_idx(subs0, e.0)].1;
                assert(sub_entry_inv(o, old(self).history@));
                let st = o.spec_start();
                assert forall|k: int| 0 <= k < e.1.spec_sent().len()
                    implies (#[trigger] e.1.spec_sent()[k]) == (((st + k) as u64, hist1[st + k]))
                    by {
                    if k < o.spec_sent().len() {
                        assert(e.1.spec_sent()[k] == o.spec_sent()[k]);
                        assert(hist1[st + k] == old(self).history@[st + k]);
                    } else {
                        assert(e.1.spec_sent()[k] == rec);
                        assert(st + k == n0);
                    }
                }
            }
            // Lift the per-entry facts to the per-id view.
            assert forall|c: ClientId| #[trigger] self.has_subscriber(c)
                implies old(self).has_subscriber(c) && self.sub_sent(c)
                    == old(self).sub_sent(c).push(rec) && self.sub_start(c)
                    == old(self).sub_start(c) by {
                lemma_seq_idx_props(self.subscribers@, c);
                let i = seq_idx(self.subscribers@, c);
                assert(seq_has(subs0, self.subscribers@[i].0));
                lemma_seq_idx_props(subs0, c);
            }
        }
    }

    /// The offset replay begins at: the requested offset, clamped to the
    /// retained window. Asking below the window replays whatever remains;
    /// asking beyond the end replays nothing. `None` asks for offset 0.
    pub open spec fn replay_start(&self, from_offset: Option<u64>) -> int {
        let n = self.history().len() as int;
        let first = n - self.spec_log().len() as int;
        let f0 = match from_offset {
            Option::None => 0,
            Option::Some(x) => x as int,
        };
        if f0 < first {
            first
        } else if f0 > n {
            n
        } else {
            f0
        }
    }

    /// The records a subscription beginning now replays: the retained
    /// records from the replay start to the end of the history, in offset
    /// order.
    pub open spec fn spec_replay(&self, from_offset: Option<u64>) -> Seq<(u64, Seq<u8>)> {
        let n = self.history().len() as int;
        let start = self.replay_start(from_offset);
        Seq::new((n - start) as nat, |k: int| (((start + k) as u64, self.history()[start + k])))
    }

    /// Opens a subscription for `client_id`: replays the retained records
    /// from `from_offset` (0 when absent) and registers a fresh queue that
    /// every later publish feeds. A subscription that already exists for
    /// the same id is replaced, so the new subscriber gets both the replay
    /// and the live records.
    pub fn subscribe(&mut self, client_id: ClientId, from_offset: Option<u64>) -> (s: Subscription)
        requires
            old(self).inv(),
        ensures
            final(self).inv(),
            subscribe_post(*old(self), *final(self), client_id),
            s.topic_name@ == old(self).spec_name(),
            records_view(s.replay@) == old(self).spec_replay(from_offset),
    {
        let (sender, receiver) = new_subscriber_channel();
        let ghost st = self.history@.len() as int;
        let handle = SubscriberHandle::new(sender, Ghost(st));

        // Replace semantics: drop any previous queue for this id, then
        // register the fresh one.
        self.unsubscribe(client_id);
        let ghost mid = *self;
        let ghost subs_mid = self.subscribers@;
        self.subscribers.push((client_id, handle));
        proof {
            let subs_new = self.subscribers@;
            let last = subs_new.len() - 1;
            assert forall|i: int| 0 <= i < subs_mid.len()
                implies #[trigger] subs_new[i] == subs_mid[i] by {}
            assert(ids_unique(subs_new));
            assert forall|i: int| 0 <= i < subs_new.len()
                implies sub_entry_inv((#[trigger] subs_new[i]).1, self.history@) by {}
            lemma_seq_idx_unique(subs_new, client_id, last);
            assert(self.sub_sent(client_id) =~= Seq::<(u64, Seq<u8>)>::empty());
            assert forall|c: ClientId| c != client_id
                implies (#[trigger] self.has_subscriber(c) <==> mid.has_subscriber(c)) by {
                if seq_has(subs_new, c) {
                    lemma_seq_idx_props(subs_new, c);
                    lemma_seq_idx_unique(subs_mid, c, seq_idx(subs_new, c));
                }
                if seq_has(subs_mid, c) {
                    lemma_seq_idx_props(subs_mid, c);
                    lemma_seq_idx_unique(subs_new, c, seq_idx(subs_mid, c));
                }
            }
            assert forall|c: ClientId| c != client_id && #[trigger] mid.has_subscriber(c)
                implies self.sub_sent(c) == mid.sub_sent(c)
                    && self.sub_start(c) == mid.sub_start(c) by {
                lemma_seq_idx_props(subs_mid, c);
                lemma_seq_idx_unique(subs_new, c, seq_idx(subs_mid, c));
            }
            assert forall|c: ClientId| c != client_id && #[trigger] old(self).has_subscriber(c)
                implies self.sub_sent(c) == old(self).sub_sent(c)
                    && self.sub_start(c) == old(self).sub_start(c) by {
                assert(mid.has_subscriber(c));
            }
        }

        // Replay the retained records from the requested offset.
        let ghost snap = *self;
        let from: u64 = match from_offset {
            Option::Some(x) => x,
            Option::None => 0,
        };
        let ghost target = snap.spec_replay(from_offset);
        let llen: usize = self.log.len();
        let mut replay: Vec<MessageRecord> = Vec::new();
        if llen == 0 {
            proof {
                assert(target.len() == 0);
                assert(records_view(replay@) =~= target);
            }
        } else {
            let first_off: u64 = self.log[0].offset;
            let start_idx: usize = if from <= first_off {
                0
            } else {
                let d: u64 = from - first_off;
                if d >= llen as u64 {
                    llen
                } else {
                    d as usize
                }
            };
            proof {
                assert(first_off == snap.history@.len() - llen);
                assert(snap.replay_start(from_offset) == first_off + start_idx);
                assert(target.len() == llen - start_idx);
            }
            let mut i: usize = start_idx;
            while i < llen
                invariant
                    *self == snap,
                    snap.inv(),
                    start_idx <= i <= llen,
                    llen == self.log@.len(),
                    target == snap.spec_replay(from_offset),
                    target.len() == llen - start_idx,
                    snap.replay_start(from_offset) == self.history@.len() - llen + start_idx,
                    replay@.len() == i - start_idx,
                    records_view(replay@) == target.take(i - start_idx),
                decreases llen - i,
            {
                let rec = &self.log[i];
                replay.push(MessageRecord::new(rec.offset, clone_payload(&rec.payload)));
                proof {
                    let m = i - start_idx;
                    let lhs = records_view(replay@);
                    let rhs = target.take(m + 1);
                    assert(lhs.len() == rhs.len());
                    assert forall|k: int| 0 <= k < lhs.len() implies lhs[k] == rhs[k] by {
                        if k < m {
                            assert(replay@[k] == replay@.drop_last()[k]);
                            assert(records_view(replay@.drop_last())[k] == target.take(m)[k]);
                        } else {
                            assert(replay@[k] == replay@.last());
                            assert(rhs[k] == target[m]);
                            assert(self.log@[i as int].offset == self.history@.len() - llen + i);
                        }
                    }
                    assert(lhs =~= rhs);
                }
                i = i + 1;
            }
            proof {
                assert(target.take(llen - start_idx) =~= target);
            }
        }
        proof {
            assert(old(self).spec_replay(from_offset) =~= snap.spec_replay(from_offset));
        }
        Subscription::new(self.topic_name.clone(), replay, receiver)
    }

    /// Removes `client_id`'s entry from the registry, if it has one.
    fn remove_subscriber(&mut self, client_id: ClientId)
        requires
            ids_unique(old(self).subscribers@),
        ensures
            final(self).topic_name == old(self).topic_name,
            final(self).retention == old(self).retention,
            final(self).next_offset == old(self).next_offset,
            final(self).history@ == old(self).history@,
            final(self).log@ == old(self).log@,
            final(self).subscribers@ == if seq_has(old(self).subscribers@, client_id) {
                old(self).subscribers@.remove(seq_idx(old(self).subscribers@, client_id))
            } else {
                old(self).subscribers@
            },
    {
        let mut i: usize = 0;
        while i < self.subscribers.len()
            invariant
                *self == *old(self),
                ids_unique(self.subscribers@),
                i <= self.subscribers@.len(),
                forall|j: int| 0 <= j < i ==> (#[trigger] self.subscribers@[j]).0 != client_id,
            decreases self.subscribers@.len() - i,
        {
            if self.subscribers[i].0 == client_id {
                proof {
                    lemma_seq_idx_unique(self.subscribers@, client_id, i as int);
                }
                self.subscribers.remove(i);
                return;
            }
            i = i + 1;
        }
        proof {
            assert(!seq_has(self.subscribers@, client_id));
        }
    }

    /// Ends `client_id`'s subscription: no record published after this
    /// call is enqueued for it. Unsubscribing an id that is not
    /// subscribed changes nothing: absence is not an error here.
    pub fn unsubscribe(&mut self, client_id: ClientId)
        requires
            old(self).inv(),
        ensures
            final(self).inv(),
            unsubscribe_post(*old(self), *final(self), client_id),
    {
        let ghost subs_old = self.subscribers@;
        self.remove_subscriber(client_id);
        proof {
            if seq_has(subs_old, client_id) {
                lemma_seq_idx_props(subs_old, client_id);
                let j = seq_idx(subs_old, client_id);
                let subs_new = self.subscribers@;
                assert forall|i: int| 0 <= i < subs_new.len()
                    implies #[trigger] subs_new[i] == (if i < j {
                        subs_old[i]
                    } else {
                        subs_old[i + 1]
                    }) by {}
                assert(ids_unique(subs_new));
                assert forall|i: int| 0 <= i < subs_new.len()
                    implies sub_entry_inv((#[trigger] subs_new[i]).1, self.history@) by {}
                assert(!seq_has(subs_new, client_id));
                assert forall|c: ClientId| c != client_id
                    implies (#[trigger] self.has_subscriber(c) <==> seq_has(subs_old, c)) by {
                    if seq_has(subs_new, c) {
                        lemma_seq_idx_props(subs_new, c);
                        let i = seq_idx(subs_new, c);
                        if i < j {
                            lemma_seq_idx_unique(subs_old, c, i);
                        } else {
                            lemma_seq_idx_unique(subs_old, c, i + 1);
                        }
                    }
                    if seq_has(subs_old, c) {
                        lemma_seq_idx_props(subs_old, c);
                        let i = seq_idx(subs_old, c);
                        if i < j {
                            lemma_seq_idx_unique(subs_new, c, i);
                        } else {
                            lemma_seq_idx_unique(subs_new, c, i - 1);
                        }
                    }
                }
                assert forall|c: ClientId| c != client_id && #[trigger] seq_has(subs_old, c)
                    implies self.sub_sent(c) == old(self).sub_sent(c) && self.sub_start(c)
                        == old(self).sub_start(c) by {
                    lemma_seq_idx_props(subs_old, c);
                    let i = seq_idx(subs_old, c);
                    if i < j {
                        lemma_seq_idx_unique(subs_new, c, i);
                    } else {
                        lemma_seq_idx_unique(subs_new, c, i - 1);
                    }
                }
            }
        }
    }

    /// How many subscriptions are currently live (diagnostic).
    pub fn list_live_subscribers(&self) -> (r: usize)
        ensures
            r == self.spec_subscriber_count(),
    {
        self.subscribers.len()
    }

    /// After any publish sequence `p_0 .. p_{n-1}` (the history), the log
    /// holds exactly the records with offsets `max(0, n - retention) ..
    /// n - 1`, in order, each carrying the payload published at its
    /// offset.
    pub proof fn lemma_log_matches_history(&self)
        requires
            self.inv(),
        ensures
            self.spec_log().len() == vstd::math::min(
                self.spec_retention() as int,
                self.history().len() as int,
            ),
            forall|i: int| 0 <= i < self.spec_log().len() ==> (#[trigger] self.spec_log()[i]) == ((
                (self.history().len() - self.spec_log().len() + i) as u64,
                self.history()[self.history().len() - self.spec_log().len() + i],
            )),
    {
        assert forall|i: int| 0 <= i < self.spec_log().len()
            implies (#[trigger] self.spec_log()[i]) == ((
                (self.history().len() - self.spec_log().len() + i) as u64,
                self.history()[self.history().len() - self.spec_log().len() + i],
            )) by {
            assert(self.spec_log()[i] == (self.log@[i].offset, self.log@[i].payload@));
        }
    }

    /// The offsets replayed to a new subscriber are contiguous and
    /// ascending, starting at the replay start.
    pub proof fn lemma_replay_offsets(&self, from_offset: Option<u64>)
        requires
            self.inv(),
        ensures
            forall|k: int| 0 <= k < self.spec_replay(from_offset).len()
                ==> (#[trigger] self.spec_replay(from_offset)[k]).0
                    == self.replay_start(from_offset) + k,
    {
    }

    /// The offsets enqueued on a live subscriber's queue are contiguous
    /// and ascending from its start: each successive record's offset is
    /// exactly one more than the previous one's.
    pub proof fn lemma_live_offsets_contiguous(&self, c: ClientId)
        requires
            self.inv(),
            self.has_subscriber(c),
        ensures
            forall|k: int| 0 <= k < self.sub_sent(c).len()
                ==> (#[trigger] self.sub_sent(c)[k]).0 == self.sub_start(c) + k,
            forall|k: int| 0 <= k && k + 1 < self.sub_sent(c).len()
                ==> (#[trigger] self.sub_sent(c)[k + 1]).0 == self.sub_sent(c)[k].0 + 1,
    {
        lemma_seq_idx_props(self.subscribers@, c);
        assert forall|k: int| 0 <= k && k + 1 < self.sub_sent(c).len()
            implies (#[trigger] self.sub_sent(c)[k + 1]).0 == self.sub_sent(c)[k].0 + 1 by {
            let st = self.sub_start(c);
            let i = seq_idx(self.subscribers@, c);
            assert(seq_has(self.subscribers@, c));
            lemma_seq_idx_props(self.subscribers@, c);
            assert(0 <= i < self.subscribers@.len());
            assert(sub_entry_inv(self.subscribers@[i].1, self.history@));
            let h = self.subscribers@[i].1;
            assert(self.sub_sent(c) == h.spec_sent());
            assert(st == h.spec_start());
            assert(h.spec_sent()[k] == (((st + k) as u64, self.history@[st + k])));
            assert(h.spec_sent()[k + 1] == (((st + k + 1) as u64, self.history@[st + k + 1])));
            assert(st + k + 1 <= u64::MAX);
        }
    }

    /// With retention 0 nothing is retained, so a new subscription
    /// replays nothing, whatever offset it asks from. Live delivery is
    /// untouched: publish enqueues on every current subscriber's queue
    /// regardless of the retention.
    pub proof fn lemma_retention_zero_no_replay(&self, from_offset: Option<u64>)
        requires
            self.inv(),
            self.spec_retention() == 0,
        ensures
            self.spec_log().len() == 0,
            self.spec_replay(from_offset).len() == 0,
    {
    }

    /// Once a client id is not subscribed, a publish never delivers to
    /// it: publishing adds no subscriber and enqueues only for current
    /// subscribers. So after an unsubscribe, any number of publishes
    /// deliver nothing further to that id's queue.
    pub proof fn lemma_unsubscribed_gets_nothing(pre: Topic, post: Topic, payload: Seq<u8>, c: ClientId)
        requires
            publish_post(pre, post, payload),
            !pre.has_subscriber(c),
        ensures
            !post.has_subscriber(c),
    {
    }

    /// Subscribing with no offset replays the same records as subscribing
    /// from offset 0.
    pub proof fn lemma_from_offset_default(&self)
        ensures
            self.spec_replay(Option::None) == self.spec_replay(Option::Some(0)),
    {
    }
}

} // verus!
