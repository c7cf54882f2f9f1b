//! The actor system's bookkeeping: the mailboxes (senders) of the running
//! actors, keyed by the actor's type, and the tasks that run them.
//!
//! Keys are the numbers that the runtime derives from each actor type; the
//! values (senders, task handles) are whatever the runtime stores.

use vstd::prelude::*;
use std::collections::HashMap;

verus! {

broadcast use vstd::std_specs::hash::group_hash_axioms;

/// Why a message could not be handed to an actor.
#[derive(Clone, Copy, PartialEq, Eq, Structural, Debug)]
pub enum ActorError {
    /// No sender is registered for the actor.
    SenderNotFound,
    /// The actor's mailbox refused the message.
    SendFailed,
}

/// The text that describes an error.
pub open spec fn error_text(e: ActorError) -> Seq<char> {
    match e {
        ActorError::SenderNotFound => "Sender not found"@,
        ActorError::SendFailed => "Failed to send message"@,
    }
}

impl ActorError {
    /// The text that describes the error.
    pub fn description(&self) -> (s: &'static str)
        ensures
            s@ == error_text(*self),
    {
        match self {
            ActorError::SenderNotFound => "Sender not found",
            ActorError::SendFailed => "Failed to send message",
        }
    }
}

/// The senders of the running actors, at most one per actor type.
pub struct ChannelContainer<S> {
    senders: HashMap<u64, S>,
}

impl<S> View for ChannelContainer<S> {
    type V = Map<u64, S>;

    /// The registered sender of each actor type.
    closed spec fn view(&self) -> Map<u64, S> {
        self.senders@
    }
}

impl<S> ChannelContainer<S> {
    /// A container with no sender.
    pub fn new() -> (c: Self)
        ensures
            c@ == Map::<u64, S>::empty(),
    {
        ChannelContainer { senders: HashMap::new() }
    }

    /// Registers `sender` as the mailbox of the actor type `key`, replacing
    /// any sender registered for it before.
    pub fn add_sender(&mut self, key: u64, sender: S)
        ensures
            final(self)@ == old(self)@.insert(key, sender),
    {
        self.senders.insert(key, sender);
    }

    /// The sender registered for the actor type `key`, if any.
    pub fn get_sender(&self, key: u64) -> (r: Option<&S>)
        ensures
            match r {
                Some(s) => self@.contains_key(key) && *s == self@[key],
                None => !self@.contains_key(key),
            },
    {
        self.senders.get(&key)
    }

    /// The sender through which a message for the actor type `key` goes;
    /// `SenderNotFound` where no sender is registered for it.
    pub fn message(&self, key: u64) -> (r: Result<&S, ActorError>)
        ensures
            match r {
                Ok(s) => self@.contains_key(key) && *s == self@[key],
                Err(e) => !self@.contains_key(key) && e == ActorError::SenderNotFound,
            },
    {
        match self.get_sender(key) {
            Some(s) => Ok(s),
            None => Err(ActorError::SenderNotFound),
        }
    }

    /// The sender through which a request for the actor type `key` goes;
    /// `SenderNotFound` (reported by the runtime as a not-found I/O error)
    /// where no sender is registered for it.
    pub fn request(&self, key: u64) -> (r: Result<&S, ActorError>)
        ensures
            match r {
                Ok(s) => self@.contains_key(key) && *s == self@[key],
                Err(e) => !self@.contains_key(key) && e == ActorError::SenderNotFound,
            },
    {
        self.message(key)
    }

    /// The number of registered senders.
    pub fn len(&self) -> (n: usize)
        ensures
            n == self@.len(),
    {
        self.senders.len()
    }
}

impl<S> Default for ChannelContainer<S> {
    fn default() -> (c: Self)
        ensures
            c@ == Map::<u64, S>::empty(),
    {
        ChannelContainer::new()
    }
}

/// After a sender is registered for an actor type, looking that type up gives
/// that sender, and every other type keeps the sender it had.
pub proof fn lemma_sender_read_after_write<S>(senders: Map<u64, S>, key: u64, sender: S, other: u64)
    ensures
        senders.insert(key, sender).contains_key(key),
        senders.insert(key, sender)[key] == sender,
        other != key ==> (senders.insert(key, sender).contains_key(other) == senders.contains_key(
            other,
        )),
        other != key && senders.contains_key(other) ==> senders.insert(key, sender)[other]
            == senders[other],
{
}

/// The senders after each `(key, sender)` of `history` was registered in turn,
/// starting from `senders`.
pub open spec fn registered_after<S>(senders: Map<u64, S>, history: Seq<(u64, S)>) -> Map<u64, S>
    decreases history.len(),
{
    if history.len() == 0 {
        senders
    } else {
        registered_after(senders.insert(history[0].0, history[0].1), history.drop_first())
    }
}

/// The sender last registered for `key` in `history`; where `history` never
/// registers `key`, the sender `senders` held for it, if any.
pub open spec fn last_registered<S>(senders: Map<u64, S>, history: Seq<(u64, S)>, key: u64) -> Option<S>
    decreases history.len(),
{
    if history.len() == 0 {
        if senders.contains_key(key) {
            Some(senders[key])
        } else {
            None
        }
    } else if history.last().0 == key {
        Some(history.last().1)
    } else {
        last_registered(senders, history.drop_last(), key)
    }
}

/// Registering one more sender after `history` inserts it into the result.
proof fn lemma_register_one_more<S>(senders: Map<u64, S>, history: Seq<(u64, S)>, entry: (u64, S))
    ensures
        registered_after(senders, history.push(entry)) == registered_after(senders, history).insert(
            entry.0,
            entry.1,
        ),
    decreases history.len(),
{
    if history.len() == 0 {
        assert(history.push(entry).drop_first() =~= Seq::<(u64, S)>::empty());
        assert(history.push(entry)[0] == entry);
        assert(registered_after(senders.insert(entry.0, entry.1), Seq::<(u64, S)>::empty())
            == senders.insert(entry.0, entry.1));
        assert(history =~= Seq::<(u64, S)>::empty());
    } else {
        assert(history.push(entry).drop_first() =~= history.drop_first().push(entry));
        assert(history.push(entry)[0] == history[0]);
        lemma_register_one_more(
            senders.insert(history[0].0, history[0].1),
            history.drop_first(),
            entry,
        );
    }
}

/// After any history of registrations, looking up an actor type gives the
/// sender last registered for it, or, where none was, what the container held
/// before the history.
pub proof fn lemma_lookup_after_history<S>(senders: Map<u64, S>, history: Seq<(u64, S)>, key: u64)
    ensures
        registered_after(senders, history).contains_key(key) <==> last_registered(
            senders,
            history,
            key,
        ) is Some,
        last_registered(senders, history, key) matches Some(s) ==> registered_after(
            senders,
            history,
        )[key] == s,
    decreases history.len(),
{
    if history.len() > 0 {
        let init = history.drop_last();
        assert(init.push(history.last()) =~= history);
        lemma_register_one_more(senders, init, history.last());
        lemma_lookup_after_history(senders, init, key);
    }
}

/// Starting from an empty container, a lookup after any history of
/// registrations gives the sender last registered for that actor type, and
/// nothing for a type that was never registered.
pub proof fn lemma_lookup_from_empty<S>(history: Seq<(u64, S)>, key: u64)
    ensures
        registered_after(Map::<u64, S>::empty(), history).contains_key(key) <==> exists|i: int|
            0 <= i < history.len() && (#[trigger] history[i]).0 == key,
        last_registered(Map::<u64, S>::empty(), history, key) matches Some(s) ==> registered_after(
            Map::<u64, S>::empty(),
            history,
        )[key] == s,
    decreases history.len(),
{
    lemma_lookup_after_history(Map::<u64, S>::empty(), history, key);
    if history.len() > 0 {
        let init = history.drop_last();
        lemma_lookup_from_empty(init, key);
        lemma_lookup_after_history(Map::<u64, S>::empty(), init, key);
        if history.last().0 != key {
            if exists|i: int| 0 <= i < history.len() && (#[trigger] history[i]).0 == key {
                let i = choose|i: int| 0 <= i < history.len() && (#[trigger] history[i]).0 == key;
                assert(i != history.len() - 1);
                assert(init[i] == history[i]);
            }
            if exists|i: int| 0 <= i < init.len() && (#[trigger] init[i]).0 == key {
                let i = choose|i: int| 0 <= i < init.len() && (#[trigger] init[i]).0 == key;
                assert(history[i] == init[i]);
            }
        } else {
            assert(history[history.len() - 1].0 == key);
        }
    }
}

/// The handles of the tasks that run the actors, at most one per actor type.
pub struct ActorsContainer<H> {
    actors: HashMap<u64, H>,
}

impl<H> View for ActorsContainer<H> {
    type V = Map<u64, H>;

    /// The handle of the task that runs each actor type.
    closed spec fn view(&self) -> Map<u64, H> {
        self.actors@
    }
}

impl<H> ActorsContainer<H> {
    /// A container with no task.
    pub fn new() -> (c: Self)
        ensures
            c@ == Map::<u64, H>::empty(),
    {
        ActorsContainer { actors: HashMap::new() }
    }

    /// Records `handle` as the task running the actor type `key`; a handle
    /// recorded for that type before is let go (its task keeps running, detached).
    pub fn add_actor(&mut self, key: u64, handle: H)
        ensures
            final(self)@ == old(self)@.insert(key, handle),
    {
        self.actors.insert(key, handle);
    }

    /// Hands out every recorded task, leaving the container empty, so that
    /// the tasks can be awaited.
    pub fn take_actors(&mut self) -> (tasks: HashMap<u64, H>)
        ensures
            tasks@ == old(self)@,
            final(self)@ == Map::<u64, H>::empty(),
    {
        let mut tasks: HashMap<u64, H> = HashMap::new();
        std::mem::swap(&mut tasks, &mut self.actors);
        tasks
    }

    /// The number of recorded tasks.
    pub fn len(&self) -> (n: usize)
        ensures
            n == self@.len(),
    {
        self.actors.len()
    }
}

impl<H> Default for ActorsContainer<H> {
    fn default() -> (c: Self)
        ensures
            c@ == Map::<u64, H>::empty(),
    {
        ActorsContainer::new()
    }
}

/// How an awaited actor task ended.
#[derive(Clone, Copy, PartialEq, Eq, Structural, Debug)]
pub enum TaskOutcome {
    /// The actor returned `Ok`.
    Finished,
    /// The actor returned an error.
    Failed,
    /// The task could not be joined (it panicked or was cancelled).
    JoinFailed,
}

/// What awaiting the actors does next after one task ended.
#[derive(Clone, Copy, PartialEq, Eq, Structural, Debug)]
pub enum AwaitStep {
    /// Go on with the next task.
    Continue,
    /// Report the actor's error, then go on with the next task.
    ReportAndContinue,
    /// Stop and return the join error; the tasks not yet awaited are let go.
    Abort,
}

/// The step that follows a task that ended with `outcome`.
pub open spec fn step_after(outcome: TaskOutcome) -> AwaitStep {
    match outcome {
        TaskOutcome::Finished => AwaitStep::Continue,
        TaskOutcome::Failed => AwaitStep::ReportAndContinue,
        TaskOutcome::JoinFailed => AwaitStep::Abort,
    }
}

/// Whether awaiting tasks that end with `outcomes`, in order, returns `Ok`.
pub open spec fn wait_succeeds(outcomes: Seq<TaskOutcome>) -> bool
    decreases outcomes.len(),
{
    if outcomes.len() == 0 {
        true
    } else if step_after(outcomes[0]) == AwaitStep::Abort {
        false
    } else {
        wait_succeeds(outcomes.drop_first())
    }
}

/// How many of the tasks that end with `outcomes` are awaited.
pub open spec fn tasks_awaited(outcomes: Seq<TaskOutcome>) -> nat
    decreases outcomes.len(),
{
    if outcomes.len() == 0 {
        0
    } else if step_after(outcomes[0]) == AwaitStep::Abort {
        1
    } else {
        1 + tasks_awaited(outcomes.drop_first())
    }
}

/// Awaiting the tasks returns `Ok` exactly when every task could be joined (an
/// actor's own error is only reported); every task is then awaited. Where a
/// task cannot be joined, the wait stops right after the first such task.
pub proof fn lemma_wait_outcome(outcomes: Seq<TaskOutcome>)
    ensures
        wait_succeeds(outcomes) <==> forall|i: int|
            0 <= i < outcomes.len() ==> #[trigger] outcomes[i] != TaskOutcome::JoinFailed,
        wait_succeeds(outcomes) ==> tasks_awaited(outcomes) == outcomes.len(),
        forall|k: int|
            0 <= k < outcomes.len() && outcomes[k] == TaskOutcome::JoinFailed && (forall|j: int|
                0 <= j < k ==> #[trigger] outcomes[j] != TaskOutcome::JoinFailed) ==> tasks_awaited(
                outcomes,
            ) == k + 1,
    decreases outcomes.len(),
{
    if outcomes.len() > 0 {
        let rest = outcomes.drop_first();
        lemma_wait_outcome(rest);
        assert forall|i: int| 0 <= i < rest.len() implies rest[i] == outcomes[i + 1] by {}
        if outcomes[0] != TaskOutcome::JoinFailed {
            assert((forall|i: int| 0 <= i < outcomes.len() ==> #[trigger] outcomes[i] != TaskOutcome::JoinFailed)
                <==> (forall|i: int| 0 <= i < rest.len() ==> #[trigger] rest[i] != TaskOutcome::JoinFailed)) by {
                if forall|i: int| 0 <= i < rest.len() ==> #[trigger] rest[i] != TaskOutcome::JoinFailed {
                    assert forall|i: int| 0 <= i < outcomes.len() implies #[trigger] outcomes[i] != TaskOutcome::JoinFailed by {
                        if i > 0 {
                            assert(outcomes[i] == rest[i - 1]);
                        }
                    }
                }
            }
            assert forall|k: int|
                0 <= k < outcomes.len() && outcomes[k] == TaskOutcome::JoinFailed && (forall|j: int|
                    0 <= j < k ==> #[trigger] outcomes[j] != TaskOutcome::JoinFailed) implies tasks_awaited(
                    outcomes,
                ) == k + 1 by {
                assert(k > 0);
                assert(rest[k - 1] == outcomes[k]);
                assert forall|j: int| 0 <= j < k - 1 implies #[trigger] rest[j] != TaskOutcome::JoinFailed by {
                    assert(rest[j] == outcomes[j + 1]);
                }
            }
        }
    }
}

/// The step that follows a task that ended with `outcome`: a failed actor is
/// reported and the others are still awaited; a task that cannot be joined
/// ends the wait with an error.
pub fn after_task(outcome: TaskOutcome) -> (step: AwaitStep)
    ensures
        step == step_after(outcome),
        outcome == TaskOutcome::Finished ==> step == AwaitStep::Continue,
        outcome == TaskOutcome::Failed ==> step == AwaitStep::ReportAndContinue,
        outcome == TaskOutcome::JoinFailed ==> step == AwaitStep::Abort,
{
    match outcome {
        TaskOutcome::Finished => AwaitStep::Continue,
        TaskOutcome::Failed => AwaitStep::ReportAndContinue,
        TaskOutcome::JoinFailed => AwaitStep::Abort,
    }
}

} // verus!
