//! Delivery of payloads: the recipients of a payload, fixed when it arrived,
//! are attempted one after the other, and what happened to each is recorded.
//! One sender delivers one payload at a time, in the order of their arrival.

use crate::registry::PeerRegistry;
use vstd::prelude::*;

verus! {

/// What became of the attempt to hand the payload to one recipient.
#[derive(Clone, Copy, Debug, PartialEq, Eq, Structural)]
pub enum Outcome {
    /// The payload was enqueued on the recipient's sink.
    Sent,
    /// The sink refused the payload.
    Failed,
    /// The recipient had left the registry before its turn came.
    Absent,
}

impl Outcome {
    /// The outcome of one attempt: `None` where the recipient was not in
    /// the registry any more, else whether its sink took the payload.
    pub open spec fn of_attempt(attempt: Option<bool>) -> Outcome {
        match attempt {
            None => Outcome::Absent,
            Some(true) => Outcome::Sent,
            Some(false) => Outcome::Failed,
        }
    }

    /// Classifies one attempt. An absent recipient is skipped in silence; a
    /// sink that refused is a failure of that recipient alone.
    pub fn from_attempt(attempt: Option<bool>) -> (outcome: Outcome)
        ensures
            outcome == Outcome::of_attempt(attempt),
    {
        match attempt {
            None => Outcome::Absent,
            Some(true) => Outcome::Sent,
            Some(false) => Outcome::Failed,
        }
    }
}

/// The recipients among the first `outcomes.len()` of `recipients` whose
/// attempt ended as `wanted`, in the order of the attempts.
pub open spec fn recipients_with(
    recipients: Seq<u128>,
    outcomes: Seq<Outcome>,
    wanted: Outcome,
) -> Seq<u128>
    decreases outcomes.len(),
{
    if outcomes.len() == 0 {
        Seq::empty()
    } else {
        let earlier = recipients_with(recipients, outcomes.drop_last(), wanted);
        if outcomes.last() == wanted {
            earlier.push(recipients[outcomes.len() - 1])
        } else {
            earlier
        }
    }
}

/// One attempt that a sender made: the number of the payload, counted from
/// one in the order of arrival, the recipient, and what came of it.
pub struct Attempt {
    pub payload: nat,
    pub recipient: u128,
    pub outcome: Outcome,
}

/// The broadcasts of one sender. The recipients are the identities that
/// were registered when the current broadcast began; the outcomes recorded
/// so far belong to the first of them, in order. Beside them stands, for
/// proofs only, the history of all attempts the sender has made.
pub struct Delivery {
    recipients: Vec<u128>,
    outcomes: Vec<Outcome>,
    payloads: Ghost<nat>,
    history: Ghost<Seq<Attempt>>,
}

impl Delivery {
    /// No recipient occurs twice, there are no more outcomes than
    /// recipients, the history ends with the attempts of the current
    /// broadcast, and it never steps back to an earlier payload.
    pub closed spec fn wf(&self) -> bool {
        &&& self.outcomes@.len() <= self.recipients@.len()
        &&& self.recipients@.no_duplicates()
        &&& self.outcomes@.len() <= self.history@.len()
        &&& forall|k: int|
            0 <= k < self.outcomes@.len() ==> #[trigger] self.history@[self.history@.len()
                - self.outcomes@.len() + k] == (Attempt {
                payload: self.payloads@,
                recipient: self.recipients@[k],
                outcome: self.outcomes@[k],
            })
        &&& forall|i: int| 0 <= i < self.history@.len() ==> (#[trigger] self.history@[i]).payload <= self.payloads@
        &&& forall|i: int, j: int|
            0 <= i <= j < self.history@.len() ==> (#[trigger] self.history@[i]).payload <= (
            #[trigger] self.history@[j]).payload
    }

    /// The delivery set, in the order in which it is attempted.
    pub closed spec fn recipients(&self) -> Seq<u128> {
        self.recipients@
    }

    /// The outcomes recorded so far: `outcomes()[i]` is that of
    /// `recipients()[i]`.
    pub closed spec fn outcomes(&self) -> Seq<Outcome> {
        self.outcomes@
    }

    /// Every recipient has had its attempt.
    pub open spec fn finished(&self) -> bool {
        self.outcomes().len() == self.recipients().len()
    }

    /// The recipients that the payload has reached so far.
    pub open spec fn reached(&self) -> Seq<u128> {
        recipients_with(self.recipients(), self.outcomes(), Outcome::Sent)
    }

    /// The number of broadcasts begun so far.
    pub closed spec fn payloads(&self) -> nat {
        self.payloads@
    }

    /// Every attempt made so far, over all broadcasts, in the order in
    /// which the outcomes were recorded.
    pub closed spec fn history(&self) -> Seq<Attempt> {
        self.history@
    }

    /// In the history of one sender no attempt for a later payload stands
    /// before an attempt for an earlier one, and no attempt is for a payload
    /// that has not begun.
    pub proof fn lemma_attempts_follow_payload_order(self, first: int, second: int)
        requires
            self.wf(),
            0 <= first <= second < self.history().len(),
        ensures
            self.history()[first].payload <= self.history()[second].payload,
            self.history()[second].payload <= self.payloads(),
    {
    }

    /// Order is preserved: where one sender attempted delivery to the same
    /// recipient for two payloads, the attempt for the earlier payload was
    /// made before the attempt for the later one.
    pub proof fn lemma_order_preserved(self, earlier: int, later: int)
        requires
            self.wf(),
            0 <= earlier < self.history().len(),
            0 <= later < self.history().len(),
            self.history()[earlier].recipient == self.history()[later].recipient,
            self.history()[earlier].payload < self.history()[later].payload,
        ensures
            earlier < later,
    {
        if later <= earlier {
            self.lemma_attempts_follow_payload_order(later, earlier);
        }
    }

    /// The history ends with the attempts of the current broadcast: the
    /// outcome recorded for each recipient stands there under the number of
    /// the current payload.
    pub proof fn lemma_history_ends_with_current(self, turn: int)
        requires
            self.wf(),
            0 <= turn < self.outcomes().len(),
        ensures
            self.outcomes().len() <= self.history().len(),
            turn < self.recipients().len(),
            self.history()[self.history().len() - self.outcomes().len() + turn] == (Attempt {
                payload: self.payloads(),
                recipient: self.recipients()[turn],
                outcome: self.outcomes()[turn],
            }),
    {
    }

    /// A well-formed delivery has at most as many outcomes as recipients.
    pub proof fn lemma_wf_bounds(self)
        requires
            self.wf(),
        ensures
            self.outcomes().len() <= self.recipients().len(),
    {
    }

    /// A well-formed delivery names no recipient twice.
    pub proof fn lemma_wf_no_duplicates(self)
        requires
            self.wf(),
        ensures
            self.recipients().no_duplicates(),
    {
    }

    /// A sender that has delivered nothing yet: no broadcast is under way.
    pub fn new() -> (delivery: Delivery)
        ensures
            delivery.wf(),
            delivery.finished(),
            delivery.recipients() == Seq::<u128>::empty(),
            delivery.outcomes() == Seq::<Outcome>::empty(),
            delivery.payloads() == 0,
            delivery.history() == Seq::<Attempt>::empty(),
    {
        Delivery {
            recipients: Vec::new(),
            outcomes: Vec::new(),
            payloads: Ghost(0),
            history: Ghost(Seq::empty()),
        }
    }

    /// Begins the broadcast of the next payload, if the one before is
    /// finished: the delivery set is then exactly the set of identities
    /// registered now, the sender's among them, each once, and nothing has
    /// been attempted yet. While a broadcast is under way nothing changes
    /// and the answer is `false`.
    pub fn start<S>(&mut self, registry: &PeerRegistry<S>) -> (started: bool)
        requires
            old(self).wf(),
        ensures
            final(self).wf(),
            started == old(self).finished(),
            final(self).history() == old(self).history(),
            started ==> {
                &&& final(self).recipients().no_duplicates()
                &&& final(self).recipients().to_set() == registry@.dom()
                &&& final(self).recipients().len() == registry@.len()
                &&& final(self).outcomes() == Seq::<Outcome>::empty()
                &&& final(self).payloads() == old(self).payloads() + 1
            },
            !started ==> {
                &&& final(self).recipients() == old(self).recipients()
                &&& final(self).outcomes() == old(self).outcomes()
                &&& final(self).payloads() == old(self).payloads()
            },
    {
        if self.outcomes.len() == self.recipients.len() {
            self.recipients = registry.snapshot();
            self.outcomes = Vec::new();
            self.payloads = Ghost(self.payloads@ + 1);
            true
        } else {
            false
        }
    }

    /// The recipient whose turn it is, or `None` when all have had theirs.
    pub fn next_recipient(&self) -> (next: Option<u128>)
        requires
            self.wf(),
        ensures
            self.outcomes().len() <= self.recipients().len(),
            next == (if self.finished() {
                None
            } else {
                Some(self.recipients()[self.outcomes().len() as int])
            }),
    {
        let done: usize = self.outcomes.len();
        if done < self.recipients.len() {
            Some(self.recipients[done])
        } else {
            None
        }
    }

    /// Whether every recipient has had its attempt.
    pub fn is_finished(&self) -> (yes: bool)
        requires
            self.wf(),
        ensures
            yes == self.finished(),
    {
        self.outcomes.len() == self.recipients.len()
    }

    /// Records the outcome of the attempt on the current recipient and moves
    /// on to the next one, whatever the outcome was: a failure ends nothing
    /// and removes nobody. On a finished delivery nothing changes.
    pub fn record(&mut self, outcome: Outcome)
        requires
            old(self).wf(),
        ensures
            final(self).wf(),
            final(self).recipients() == old(self).recipients(),
            final(self).payloads() == old(self).payloads(),
            final(self).outcomes() == (if old(self).finished() {
                old(self).outcomes()
            } else {
                old(self).outcomes().push(outcome)
            }),
            final(self).history() == (if old(self).finished() {
                old(self).history()
            } else {
                old(self).history().push(
                    Attempt {
                        payload: old(self).payloads(),
                        recipient: old(self).recipients()[old(self).outcomes().len() as int],
                        outcome,
                    },
                )
            }),
    {
        let done: usize = self.outcomes.len();
        if done < self.recipients.len() {
            let ghost attempt = Attempt {
                payload: self.payloads@,
                recipient: self.recipients@[done as int],
                outcome,
            };
            self.outcomes.push(outcome);
            self.history = Ghost(self.history@.push(attempt));
            proof {
                let before = old(self).history@;
                let after = self.history@;
                assert forall|k: int| 0 <= k < self.outcomes@.len() implies #[trigger] after[after.len()
                    - self.outcomes@.len() + k] == (Attempt {
                    payload: self.payloads@,
                    recipient: self.recipients@[k],
                    outcome: self.outcomes@[k],
                }) by {
                    if k < done {
                        assert(after[after.len() - self.outcomes@.len() + k] == before[before.len()
                            - done + k]);
                    }
                }
                assert forall|i: int, j: int| 0 <= i <= j < after.len() implies (
                #[trigger] after[i]).payload <= (#[trigger] after[j]).payload by {
                    if j < before.len() {
                        assert(after[i] == before[i]);
                        assert(after[j] == before[j]);
                    } else if i < before.len() {
                        assert(after[i] == before[i]);
                    }
                }
            }
        }
    }

    /// The recipients whose attempt ended as `wanted`, in the order of the
    /// attempts.
    pub fn with_outcome(&self, wanted: Outcome) -> (ids: Vec<u128>)
        requires
            self.wf(),
        ensures
            ids@ == recipients_with(self.recipients(), self.outcomes(), wanted),
    {
        let mut ids: Vec<u128> = Vec::new();
        let mut i: usize = 0;
        while i < self.outcomes.len()
            invariant
                i <= self.outcomes@.len() <= self.recipients@.len(),
                ids@ == recipients_with(self.recipients@, self.outcomes@.take(i as int), wanted),
            decreases self.outcomes@.len() - i,
        {
            proof {
                let longer = self.outcomes@.take(i + 1);
                assert(longer.drop_last() =~= self.outcomes@.take(i as int));
                assert(longer.last() == self.outcomes@[i as int]);
            }
            if self.outcomes[i] == wanted {
                ids.push(self.recipients[i]);
            }
            i = i + 1;
        }
        proof {
            assert(self.outcomes@.take(i as int) =~= self.outcomes@);
        }
        ids
    }
}

/// An identity is among the recipients with outcome `wanted` exactly when
/// one of the attempts made was on it and ended so.
pub proof fn lemma_recipients_with_members(
    recipients: Seq<u128>,
    outcomes: Seq<Outcome>,
    wanted: Outcome,
    id: u128,
)
    requires
        outcomes.len() <= recipients.len(),
    ensures
        recipients_with(recipients, outcomes, wanted).contains(id) <==> exists|i: int|
            0 <= i < outcomes.len() && recipients[i] == id && #[trigger] outcomes[i] == wanted,
    decreases outcomes.len(),
{
    if outcomes.len() > 0 {
        let shorter = outcomes.drop_last();
        let earlier = recipients_with(recipients, shorter, wanted);
        let last = outcomes.len() - 1;
        lemma_recipients_with_members(recipients, shorter, wanted, id);
        if recipients_with(recipients, outcomes, wanted).contains(id) {
            if earlier.contains(id) {
                let i = choose|i: int|
                    0 <= i < shorter.len() && recipients[i] == id && #[trigger] shorter[i]
                        == wanted;
                assert(outcomes[i] == wanted);
            } else {
                assert(outcomes.last() == wanted);
                let full = earlier.push(recipients[last]);
                let k = choose|k: int| 0 <= k < full.len() && full[k] == id;
                assert(k == earlier.len());
                assert(outcomes[last] == wanted);
            }
        }
        if exists|i: int|
            0 <= i < outcomes.len() && recipients[i] == id && #[trigger] outcomes[i] == wanted {
            let i = choose|i: int|
                0 <= i < outcomes.len() && recipients[i] == id && #[trigger] outcomes[i] == wanted;
            if i < last {
                assert(shorter[i] == wanted);
                assert(earlier.contains(id));
                if outcomes.last() == wanted {
                    let k = choose|k: int| 0 <= k < earlier.len() && earlier[k] == id;
                    assert(earlier.push(recipients[last])[k] == id);
                }
            } else {
                let full = earlier.push(recipients[last]);
                assert(full[earlier.len() as int] == id);
            }
        }
    }
}

/// Without send failures a broadcast reaches every peer that was registered
/// when it began, the sender included, each exactly once: if every attempt
/// of a finished delivery ended as `Sent`, the recipients reached are the
/// delivery set itself, and that holds every registered identity.
pub proof fn lemma_broadcast_reaches_all_registered<S>(
    peers: Map<u128, S>,
    delivery: Delivery,
    sender: u128,
)
    requires
        delivery.wf(),
        delivery.recipients().to_set() == peers.dom(),
        delivery.finished(),
        forall|i: int| 0 <= i < delivery.outcomes().len() ==> delivery.outcomes()[i] == Outcome::Sent,
        peers.contains_key(sender),
    ensures
        delivery.reached() == delivery.recipients(),
        delivery.reached().no_duplicates(),
        delivery.reached().contains(sender),
        forall|id: u128| peers.contains_key(id) ==> delivery.reached().contains(id),
{
    lemma_all_sent(delivery.recipients(), delivery.outcomes());
    assert(delivery.recipients().take(delivery.outcomes().len() as int) =~= delivery.recipients());
    delivery.lemma_wf_no_duplicates();
    assert forall|id: u128| peers.contains_key(id) implies delivery.reached().contains(id) by {
        assert(delivery.recipients().to_set().contains(id));
    }
}

/// A registration does not disturb a broadcast in flight: every recipient
/// of a delivery that began before the newcomer registered is still
/// registered afterwards, and the delivery set does not grow by the newcomer.
pub proof fn lemma_registration_keeps_delivery<S>(
    peers: Map<u128, S>,
    delivery: Delivery,
    newcomer: u128,
    sink: S,
)
    requires
        delivery.wf(),
        delivery.recipients().to_set() == peers.dom(),
    ensures
        forall|i: int|
            0 <= i < delivery.recipients().len() ==> peers.insert(newcomer, sink).contains_key(
                #[trigger] delivery.recipients()[i],
            ),
        !peers.contains_key(newcomer) ==> !delivery.recipients().contains(newcomer),
{
    assert forall|i: int| 0 <= i < delivery.recipients().len() implies peers.insert(
        newcomer,
        sink,
    ).contains_key(#[trigger] delivery.recipients()[i]) by {
        assert(delivery.recipients().to_set().contains(delivery.recipients()[i]));
    }
    if !peers.contains_key(newcomer) && delivery.recipients().contains(newcomer) {
        assert(delivery.recipients().to_set().contains(newcomer));
    }
}

/// A failure is local: whatever happened to the other recipients, each
/// recipient whose own attempt ended as `Sent` has been reached.
pub proof fn lemma_failure_is_local(delivery: Delivery, turn: int)
    requires
        delivery.wf(),
        0 <= turn < delivery.outcomes().len(),
        delivery.outcomes()[turn] == Outcome::Sent,
    ensures
        turn < delivery.recipients().len(),
        delivery.reached().contains(delivery.recipients()[turn]),
{
    delivery.lemma_wf_bounds();
    lemma_recipients_with_members(
        delivery.recipients(),
        delivery.outcomes(),
        Outcome::Sent,
        delivery.recipients()[turn],
    );
}

/// Where every attempt made ended as `Sent`, the recipients reached are the
/// recipients attempted.
pub proof fn lemma_all_sent(recipients: Seq<u128>, outcomes: Seq<Outcome>)
    requires
        outcomes.len() <= recipients.len(),
        forall|i: int| 0 <= i < outcomes.len() ==> outcomes[i] == Outcome::Sent,
    ensures
        recipients_with(recipients, outcomes, Outcome::Sent) == recipients.take(
            outcomes.len() as int,
        ),
    decreases outcomes.len(),
{
    if outcomes.len() > 0 {
        lemma_all_sent(recipients, outcomes.drop_last());
        assert(recipients.take(outcomes.len() - 1).push(recipients[outcomes.len() - 1])
            =~= recipients.take(outcomes.len() as int));
    } else {
        assert(recipients.take(0) =~= Seq::<u128>::empty());
    }
}

} // verus!
