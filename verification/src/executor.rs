//! Applying one operation to many repositories, with a bound on how many
//! are worked on at once.
//!
//! The batch itself runs nothing. It is a ledger with one slot for each
//! repository, and it decides which repository may be started next. Whoever
//! drives it starts the work, and reports each outcome when it is there. The
//! second half of this file says what holds of every run, whatever the order
//! in which work is started and outcomes come in.

use crate::error::GitOperationError;
use crate::workspace::GitRepository;
use vstd::prelude::*;
use vstd::string::*;

verus! {

/// How far the work on one repository has come.
pub enum Slot<T> {
    /// Not started.
    Waiting,
    /// Started, and not yet reported back.
    Running,
    /// Reported back, with this outcome.
    Done(Result<T, GitOperationError>),
}

/// Where a batch stands.
pub struct BatchState<T> {
    /// How many repositories may be worked on at once.
    pub limit: nat,
    /// The repositories of the batch, in the order in which they were handed in.
    pub repositories: Seq<GitRepository>,
    /// One slot for each repository, in the same order.
    pub slots: Seq<Slot<T>>,
    /// Why the batch was given up, where it was.
    pub aborted: Option<Seq<char>>,
}

/// How many of the slots are running.
pub open spec fn running<T>(slots: Seq<Slot<T>>) -> nat
    decreases slots.len(),
{
    if slots.len() == 0 {
        0
    } else {
        running(slots.drop_last()) + if slots.last() is Running {
            1nat
        } else {
            0nat
        }
    }
}

/// Whether a slot is waiting.
pub open spec fn has_waiting<T>(slots: Seq<Slot<T>>) -> bool {
    exists|i: int| 0 <= i < slots.len() && #[trigger] slots[i] is Waiting
}

/// Whether the slot at `at` is waiting and none before it is.
pub open spec fn is_first_waiting<T>(slots: Seq<Slot<T>>, at: int) -> bool {
    &&& 0 <= at < slots.len()
    &&& slots[at] is Waiting
    &&& forall|j: int| 0 <= j < at ==> !(#[trigger] slots[j] is Waiting)
}

/// The place of the first waiting slot, where there is one.
pub open spec fn first_waiting<T>(slots: Seq<Slot<T>>) -> int {
    choose|at: int| is_first_waiting(slots, at)
}

/// The state in which a batch over `repositories` starts: nothing is started.
pub open spec fn opening<T>(limit: nat, repositories: Seq<GitRepository>) -> BatchState<T> {
    BatchState {
        limit,
        repositories,
        slots: Seq::new(repositories.len(), |i: int| Slot::Waiting),
        aborted: None,
    }
}

/// Whether another repository may be started: the batch has not been given
/// up, fewer than the limit are running, and one is waiting.
pub open spec fn can_start<T>(s: BatchState<T>) -> bool {
    s.aborted is None && running(s.slots) < s.limit && has_waiting(s.slots)
}

/// The state after the batch is asked to start another repository: the
/// first that waits is running, if one may be started at all.
pub open spec fn after_start<T>(s: BatchState<T>) -> BatchState<T> {
    if can_start(s) {
        BatchState { slots: s.slots.update(first_waiting(s.slots), Slot::Running), ..s }
    } else {
        s
    }
}

/// Whether the batch waits for the outcome of the repository at `unit`.
pub open spec fn accepts<T>(s: BatchState<T>, unit: int) -> bool {
    0 <= unit < s.slots.len() && s.slots[unit] is Running
}

/// The state after an outcome is reported for the repository at `unit`: it
/// is kept in that slot, and no other slot changes. A report for a
/// repository that is not running changes nothing.
pub open spec fn after_outcome<T>(
    s: BatchState<T>,
    unit: int,
    outcome: Result<T, GitOperationError>,
) -> BatchState<T> {
    if accepts(s, unit) {
        BatchState { slots: s.slots.update(unit, Slot::Done(outcome)), ..s }
    } else {
        s
    }
}

/// The state after the batch is given up for `reason`: the first reason stays.
pub open spec fn after_abort<T>(s: BatchState<T>, reason: Seq<char>) -> BatchState<T> {
    if s.aborted is None {
        BatchState { aborted: Some(reason), ..s }
    } else {
        s
    }
}

/// Whether the batch is over: it was given up, or every repository has its outcome.
pub open spec fn is_over<T>(s: BatchState<T>) -> bool {
    s.aborted is Some || forall|i: int| 0 <= i < s.slots.len() ==> #[trigger] s.slots[i] is Done
}

/// What is reported for a unit of work that did not come back, or for a
/// batch that was given up: the reason, under a heading.
pub open spec fn fault_text(reason: Seq<char>) -> Seq<char> {
    "Task execution failed: "@ + reason
}

/// Changing one slot changes the count of running slots by that slot alone.
pub proof fn lemma_running_update<T>(slots: Seq<Slot<T>>, at: int, slot: Slot<T>)
    requires
        0 <= at < slots.len(),
    ensures
        running(slots.update(at, slot)) + (if slots[at] is Running {
            1nat
        } else {
            0nat
        }) == running(slots) + (if slot is Running {
            1nat
        } else {
            0nat
        }),
    decreases slots.len(),
{
    let updated = slots.update(at, slot);
    if at == slots.len() - 1 {
        assert(updated.drop_last() == slots.drop_last());
    } else {
        lemma_running_update(slots.drop_last(), at, slot);
        assert(updated.drop_last() == slots.drop_last().update(at, slot));
    }
}

/// There is one first waiting slot at most, and `first_waiting` names it.
pub proof fn lemma_first_waiting<T>(slots: Seq<Slot<T>>, at: int)
    requires
        is_first_waiting(slots, at),
    ensures
        has_waiting(slots),
        first_waiting(slots) == at,
{
    let chosen = first_waiting(slots);
    assert(is_first_waiting(slots, chosen));
    if chosen < at {
        assert(!(slots[chosen] is Waiting));
    } else if at < chosen {
        assert(!(slots[at] is Waiting));
    }
}

/// No slot runs where all slots are waiting or done.
pub proof fn lemma_running_none<T>(slots: Seq<Slot<T>>)
    requires
        forall|i: int| 0 <= i < slots.len() ==> !(#[trigger] slots[i] is Running),
    ensures
        running(slots) == 0,
    decreases slots.len(),
{
    if slots.len() > 0 {
        assert(slots.drop_last().len() == slots.len() - 1);
        assert forall|i: int| 0 <= i < slots.drop_last().len() implies !(
        #[trigger] slots.drop_last()[i] is Running) by {
            assert(slots.drop_last()[i] == slots[i]);
        }
        lemma_running_none(slots.drop_last());
        assert(!(slots[slots.len() - 1] is Running));
    }
}

/// The setting of a batch: how many repositories may be worked on at once.
pub struct BatchExecutor {
    concurrency_limit: usize,
}

/// One repository of a batch, and how far the work on it has come.
struct Unit<T> {
    repository: GitRepository,
    slot: Slot<T>,
}

/// The repositories of some units, in their order.
spec fn repositories_of<T>(units: Seq<Unit<T>>) -> Seq<GitRepository> {
    units.map_values(|unit: Unit<T>| unit.repository)
}

/// The slots of some units, in their order.
spec fn slots_of<T>(units: Seq<Unit<T>>) -> Seq<Slot<T>> {
    units.map_values(|unit: Unit<T>| unit.slot)
}

/// One batch: the repositories, and for each how far the work on it has come.
pub struct Batch<T> {
    limit: usize,
    units: Vec<Unit<T>>,
    aborted: Option<String>,
}

/// Counts the running units.
fn count_running<T>(units: &Vec<Unit<T>>) -> (count: usize)
    ensures
        count == running(slots_of(units@)),
{
    let mut count: usize = 0;
    let mut at: usize = 0;
    while at < units.len()
        invariant
            at <= units@.len(),
            count == running(slots_of(units@.take(at as int))),
            count <= at,
        decreases units@.len() - at,
    {
        proof {
            assert(slots_of(units@.take(at + 1)).drop_last() == slots_of(units@.take(at as int)));
            assert(slots_of(units@.take(at + 1)).last() == units@[at as int].slot);
        }
        match &units[at].slot {
            Slot::Running => {
                count += 1;
            },
            _ => {},
        }
        at += 1;
    }
    proof {
        assert(units@.take(at as int) == units@);
    }
    count
}

/// Finds the first waiting unit.
fn find_waiting<T>(units: &Vec<Unit<T>>) -> (found: Option<usize>)
    ensures
        match found {
            Some(at) => is_first_waiting(slots_of(units@), at as int),
            None => !has_waiting(slots_of(units@)),
        },
{
    let mut at: usize = 0;
    while at < units.len()
        invariant
            at <= units@.len(),
            forall|j: int| 0 <= j < at ==> !(#[trigger] slots_of(units@)[j] is Waiting),
        decreases units@.len() - at,
    {
        match &units[at].slot {
            Slot::Waiting => {
                assert(slots_of(units@)[at as int] is Waiting);
                return Some(at);
            },
            _ => {
                assert(!(slots_of(units@)[at as int] is Waiting));
            },
        }
        at += 1;
    }
    None
}

/// Puts `slot` in the place of the slot of the unit at `at`.
fn put<T>(units: &mut Vec<Unit<T>>, at: usize, slot: Slot<T>)
    requires
        at < old(units)@.len(),
    ensures
        repositories_of(final(units)@) == repositories_of(old(units)@),
        slots_of(final(units)@) == slots_of(old(units)@).update(at as int, slot),
{
    units[at].slot = slot;
    assert(repositories_of(units@) =~= repositories_of(old(units)@));
    assert(slots_of(units@) =~= slots_of(old(units)@).update(at as int, slot));
}

impl BatchExecutor {
    /// The limit that the executor was made with.
    pub closed spec fn limit(&self) -> nat {
        self.concurrency_limit as nat
    }

    /// An executor that lets `concurrency_limit` repositories be worked on at once.
    pub fn new(concurrency_limit: usize) -> (executor: Self)
        ensures
            executor.limit() == concurrency_limit,
    {
        BatchExecutor { concurrency_limit }
    }

    /// The limit that the executor was made with.
    pub fn concurrency_limit(&self) -> (limit: usize)
        ensures
            limit == self.limit(),
    {
        self.concurrency_limit
    }

    /// Opens a batch over `repositories`, with nothing started. A limit of
    /// zero is refused: no repository could ever be started.
    pub fn begin<T>(&self, repositories: Vec<GitRepository>) -> (batch: Result<
        Batch<T>,
        GitOperationError,
    >)
        ensures
            self.limit() == 0 ==> (batch matches Err(GitOperationError::OperationFailed(reason))
                && reason@ == "Concurrency limit must be positive"@),
            self.limit() > 0 ==> (batch matches Ok(opened) && opened@ == opening::<T>(
                self.limit(),
                repositories@,
            )),
    {
        if self.concurrency_limit == 0 {
            return Err(
                GitOperationError::OperationFailed(
                    String::from_str("Concurrency limit must be positive"),
                ),
            );
        }
        let mut units: Vec<Unit<T>> = Vec::new();
        let mut at: usize = 0;
        while at < repositories.len()
            invariant
                at <= repositories@.len(),
                units@.len() == at,
                forall|i: int|
                    0 <= i < at ==> (#[trigger] units@[i]).slot is Waiting && units@[i].repository
                        == repositories@[i],
            decreases repositories@.len() - at,
        {
            units.push(Unit { repository: repositories[at].clone(), slot: Slot::Waiting });
            at += 1;
        }
        proof {
            assert(slots_of(units@) =~= Seq::new(repositories@.len(), |i: int| Slot::<T>::Waiting));
            assert(repositories_of(units@) =~= repositories@);
            lemma_running_none(slots_of(units@));
        }
        Ok(Batch { limit: self.concurrency_limit, units, aborted: None })
    }
}

impl<T> View for Batch<T> {
    type V = BatchState<T>;

    closed spec fn view(&self) -> BatchState<T> {
        BatchState {
            limit: self.limit as nat,
            repositories: repositories_of(self.units@),
            slots: slots_of(self.units@),
            aborted: match self.aborted {
                Some(reason) => Some(reason@),
                None => None,
            },
        }
    }
}

impl<T> Batch<T> {
    #[verifier::type_invariant]
    closed spec fn keeps_the_bound(self) -> bool {
        running(slots_of(self.units@)) <= self.limit
    }

    /// How many repositories are being worked on. It never exceeds the limit.
    pub fn in_flight(&self) -> (count: usize)
        ensures
            count == running(self@.slots),
            count <= self@.limit,
            self@.slots.len() == self@.repositories.len(),
    {
        proof {
            use_type_invariant(self);
        }
        count_running(&self.units)
    }

    /// How many repositories the batch holds.
    pub fn len(&self) -> (count: usize)
        ensures
            count == self@.repositories.len(),
            count == self@.slots.len(),
    {
        self.units.len()
    }

    /// The repository at `unit`, if the batch has that many.
    pub fn repository(&self, unit: usize) -> (found: Option<&GitRepository>)
        ensures
            match found {
                Some(repo) => unit < self@.repositories.len() && *repo
                    == self@.repositories[unit as int],
                None => unit >= self@.repositories.len(),
            },
    {
        if unit < self.units.len() {
            Some(&self.units[unit].repository)
        } else {
            None
        }
    }

    /// Starts the next repository, if one may be started: that is the first
    /// that waits, and the driver is told its place. Nothing changes where
    /// the limit is reached, nothing waits, or the batch was given up.
    pub fn start_next(&mut self) -> (started: Option<usize>)
        ensures
            final(self)@ == after_start(old(self)@),
            can_start(old(self)@) ==> started == Some(first_waiting(old(self)@.slots) as usize)
                && is_first_waiting(old(self)@.slots, first_waiting(old(self)@.slots)),
            !can_start(old(self)@) ==> started is None,
    {
        proof {
            use_type_invariant(&*self);
        }
        if self.aborted.is_some() {
            return None;
        }
        if count_running(&self.units) >= self.limit {
            return None;
        }
        match find_waiting(&self.units) {
            None => None,
            Some(at) => {
                proof {
                    lemma_first_waiting(slots_of(self.units@), at as int);
                    lemma_running_update(slots_of(self.units@), at as int, Slot::Running);
                }
                let mut units: Vec<Unit<T>> = Vec::new();
                proof {
                    assert(slots_of(units@) =~= Seq::<Slot<T>>::empty());
                }
                std::mem::swap(&mut self.units, &mut units);
                put(&mut units, at, Slot::Running);
                std::mem::swap(&mut self.units, &mut units);
                Some(at)
            },
        }
    }

    /// Takes the outcome of the repository at `unit` and says whether it was
    /// waited for. It is kept for that repository alone.
    pub fn complete(&mut self, unit: usize, outcome: Result<T, GitOperationError>) -> (taken: bool)
        ensures
            final(self)@ == after_outcome(old(self)@, unit as int, outcome),
            taken == accepts(old(self)@, unit as int),
    {
        proof {
            use_type_invariant(&*self);
        }
        if unit >= self.units.len() {
            return false;
        }
        match &self.units[unit].slot {
            Slot::Running => {},
            _ => {
                return false;
            },
        }
        proof {
            lemma_running_update(slots_of(self.units@), unit as int, Slot::Done(outcome));
        }
        let mut units: Vec<Unit<T>> = Vec::new();
        proof {
            assert(slots_of(units@) =~= Seq::<Slot<T>>::empty());
        }
        std::mem::swap(&mut self.units, &mut units);
        put(&mut units, unit, Slot::Done(outcome));
        std::mem::swap(&mut self.units, &mut units);
        true
    }

    /// Takes the word that the work on the repository at `unit` broke off
    /// without an outcome: that becomes the outcome of this repository, a
    /// failure that carries the reason. No other repository is touched.
    pub fn fault(&mut self, unit: usize, reason: &str) -> (taken: bool)
        ensures
            exists|text: String|
                text@ == fault_text(reason@) && final(self)@ == #[trigger] after_outcome(
                    old(self)@,
                    unit as int,
                    Err(GitOperationError::OperationFailed(text)),
                ),
            taken == accepts(old(self)@, unit as int),
    {
        let text = String::from_str("Task execution failed: ").concat(reason);
        self.complete(unit, Err(GitOperationError::OperationFailed(text)))
    }

    /// Gives the batch up: work could not be started at all. Nothing more is
    /// started from here on, and the batch ends in this failure.
    pub fn abort(&mut self, reason: String)
        ensures
            final(self)@ == after_abort(old(self)@, reason@),
    {
        proof {
            use_type_invariant(&*self);
        }
        if self.aborted.is_none() {
            self.aborted = Some(reason);
        }
    }

    /// Whether the batch is over.
    pub fn is_finished(&self) -> (over: bool)
        ensures
            over == is_over(self@),
    {
        if self.aborted.is_some() {
            return true;
        }
        let mut at: usize = 0;
        while at < self.units.len()
            invariant
                self.aborted is None,
                at <= self.units@.len(),
                forall|i: int| 0 <= i < at ==> #[trigger] slots_of(self.units@)[i] is Done,
            decreases self.units@.len() - at,
        {
            match &self.units[at].slot {
                Slot::Done(_) => {
                    assert(slots_of(self.units@)[at as int] is Done);
                },
                _ => {
                    assert(!(slots_of(self.units@)[at as int] is Done));
                    return false;
                },
            }
            at += 1;
        }
        true
    }

    /// Ends a batch that is over and hands out what it holds. A batch that
    /// was given up ends in that failure. Any other gives one entry for each
    /// repository, in the order in which they were handed in: the name of
    /// the repository and its outcome.
    pub fn finish(self) -> (results: Result<
        Vec<(String, Result<T, GitOperationError>)>,
        GitOperationError,
    >)
        requires
            is_over(self@),
        ensures
            match self@.aborted {
                Some(reason) => results matches Err(GitOperationError::OperationFailed(text))
                    && text@ == fault_text(reason),
                None => results matches Ok(list) && list@.len() == self@.repositories.len()
                    && forall|i: int|
                    0 <= i < list@.len() ==> (#[trigger] list@[i]).0 == self@.repositories[i].name
                        && self@.slots[i] == Slot::Done(list@[i].1),
            },
    {
        let ghost all = self.units@;
        let Batch { limit: _, units, aborted } = self;
        match aborted {
            Some(reason) => {
                return Err(
                    GitOperationError::OperationFailed(
                        String::from_str("Task execution failed: ").concat(reason.as_str()),
                    ),
                );
            },
            None => {},
        }
        proof {
            assert forall|i: int| 0 <= i < all.len() implies (#[trigger] all[i]).slot is Done by {
                assert(slots_of(all)[i] is Done);
            }
        }
        let mut units = units;
        let mut backwards: Vec<(String, Result<T, GitOperationError>)> = Vec::new();
        while units.len() > 0
            invariant
                units@ == all.take(units@.len() as int),
                forall|i: int| 0 <= i < all.len() ==> (#[trigger] all[i]).slot is Done,
                backwards@.len() + units@.len() == all.len(),
                forall|i: int|
                    0 <= i < backwards@.len() ==> (#[trigger] backwards@[i]).0 == all[all.len() - 1
                        - i].repository.name && all[all.len() - 1 - i].slot == Slot::Done(
                        backwards@[i].1,
                    ),
            decreases units@.len(),
        {
            let ghost left = units@.len() - 1;
            let unit = units.pop();
            proof {
                assert(units@ =~= all.take(left as int));
                assert(all[left as int].slot is Done);
            }
            match unit {
                Some(Unit { repository, slot: Slot::Done(outcome) }) => {
                    backwards.push((repository.name, outcome));
                },
                _ => {
                    assert(false);
                },
            }
        }
        let ghost turned = backwards@;
        let mut list: Vec<(String, Result<T, GitOperationError>)> = Vec::new();
        while backwards.len() > 0
            invariant
                backwards@ == turned.take(backwards@.len() as int),
                list@.len() + backwards@.len() == turned.len(),
                forall|i: int|
                    0 <= i < list@.len() ==> #[trigger] list@[i] == turned[turned.len() - 1 - i],
            decreases backwards@.len(),
        {
            let ghost left = backwards@.len() - 1;
            match backwards.pop() {
                Some(entry) => {
                    proof {
                        assert(backwards@ =~= turned.take(left as int));
                    }
                    list.push(entry);
                },
                None => {},
            }
        }
        Ok(list)
    }
}

/// What can happen to a batch: the driver asks it to start a repository,
/// reports an outcome for the repository at some place, or gives the batch up.
pub enum BatchEvent<T> {
    /// The batch is asked to start the next repository.
    Start,
    /// An outcome is reported for the repository at this place.
    Outcome(int, Result<T, GitOperationError>),
    /// The batch is given up for this reason.
    Abort(Seq<char>),
}

/// The state after one event.
pub open spec fn after_event<T>(s: BatchState<T>, event: BatchEvent<T>) -> BatchState<T> {
    match event {
        BatchEvent::Start => after_start(s),
        BatchEvent::Outcome(unit, outcome) => after_outcome(s, unit, outcome),
        BatchEvent::Abort(reason) => after_abort(s, reason),
    }
}

/// The state after some events, one after the other.
pub open spec fn after_events<T>(s: BatchState<T>, events: Seq<BatchEvent<T>>) -> BatchState<T>
    decreases events.len(),
{
    if events.len() == 0 {
        s
    } else {
        after_event(after_events(s, events.drop_last()), events.last())
    }
}

/// Where a slot waits, one of them is the first.
pub proof fn lemma_has_first_waiting<T>(slots: Seq<Slot<T>>, at: int)
    requires
        0 <= at < slots.len(),
        slots[at] is Waiting,
    ensures
        has_waiting(slots),
        is_first_waiting(slots, first_waiting(slots)),
        first_waiting(slots) <= at,
    decreases at,
{
    if exists|j: int| 0 <= j < at && #[trigger] slots[j] is Waiting {
        let j = choose|j: int| 0 <= j < at && #[trigger] slots[j] is Waiting;
        lemma_has_first_waiting(slots, j);
    } else {
        assert(is_first_waiting(slots, at));
        lemma_first_waiting(slots, at);
    }
}

/// One event leaves the bound in force, and changes neither the limit nor
/// the repositories nor the number of slots.
pub proof fn lemma_event_keeps_the_bound<T>(s: BatchState<T>, event: BatchEvent<T>)
    requires
        running(s.slots) <= s.limit,
    ensures
        running(after_event(s, event).slots) <= s.limit,
        after_event(s, event).limit == s.limit,
        after_event(s, event).repositories == s.repositories,
        after_event(s, event).slots.len() == s.slots.len(),
{
    match event {
        BatchEvent::Start => {
            if can_start(s) {
                let at = choose|i: int| 0 <= i < s.slots.len() && #[trigger] s.slots[i] is Waiting;
                lemma_has_first_waiting(s.slots, at);
                lemma_running_update(s.slots, first_waiting(s.slots), Slot::Running);
            }
        },
        BatchEvent::Outcome(unit, outcome) => {
            if accepts(s, unit) {
                lemma_running_update(s.slots, unit, Slot::Done(outcome));
            }
        },
        BatchEvent::Abort(_) => {},
    }
}

/// The bound on concurrency. Whatever happens to a batch, in whatever order,
/// the number of repositories that are being worked on stays within the limit.
pub proof fn lemma_bound_is_kept<T>(s: BatchState<T>, events: Seq<BatchEvent<T>>)
    requires
        running(s.slots) <= s.limit,
    ensures
        running(after_events(s, events).slots) <= s.limit,
        after_events(s, events).limit == s.limit,
        after_events(s, events).repositories == s.repositories,
        after_events(s, events).slots.len() == s.slots.len(),
    decreases events.len(),
{
    if events.len() > 0 {
        lemma_bound_is_kept(s, events.drop_last());
        lemma_event_keeps_the_bound(after_events(s, events.drop_last()), events.last());
    }
}

/// The bound on concurrency, from the opening of a batch on: after any
/// events, no more repositories are being worked on than the limit allows.
pub proof fn lemma_never_more_than_the_limit<T>(
    limit: nat,
    repositories: Seq<GitRepository>,
    events: Seq<BatchEvent<T>>,
)
    ensures
        running(after_events(opening::<T>(limit, repositories), events).slots) <= limit,
        after_events(opening::<T>(limit, repositories), events).slots.len() == repositories.len(),
{
    let s = opening::<T>(limit, repositories);
    lemma_running_none(s.slots);
    lemma_bound_is_kept(s, events);
}

/// An outcome is taken once. Whatever happens to a batch, a repository that
/// has its outcome keeps exactly that outcome.
pub proof fn lemma_outcome_stays<T>(s: BatchState<T>, events: Seq<BatchEvent<T>>, unit: int)
    requires
        0 <= unit < s.slots.len(),
        s.slots[unit] is Done,
    ensures
        after_events(s, events).slots.len() == s.slots.len(),
        after_events(s, events).slots[unit] == s.slots[unit],
    decreases events.len(),
{
    if events.len() > 0 {
        let before = after_events(s, events.drop_last());
        lemma_outcome_stays(s, events.drop_last(), unit);
        match events.last() {
            BatchEvent::Start => {
                if can_start(before) {
                    let at = choose|i: int|
                        0 <= i < before.slots.len() && #[trigger] before.slots[i] is Waiting;
                    lemma_has_first_waiting(before.slots, at);
                }
            },
            BatchEvent::Outcome(_, _) => {},
            BatchEvent::Abort(_) => {},
        }
    }
}

/// A batch never gets stuck. While it is not over and its limit is not zero,
/// either a repository can be started, or one is being worked on, and its
/// outcome will be taken. So every batch can be driven to its end, where each
/// repository has its outcome, however many of the outcomes are failures.
pub proof fn lemma_batch_can_go_on<T>(s: BatchState<T>)
    requires
        s.limit > 0,
        !is_over(s),
    ensures
        can_start(s) || exists|unit: int| #[trigger] accepts(s, unit),
{
    if exists|unit: int| 0 <= unit < s.slots.len() && #[trigger] s.slots[unit] is Running {
        let unit = choose|unit: int| 0 <= unit < s.slots.len() && #[trigger] s.slots[unit] is Running;
        assert(accepts(s, unit));
    } else {
        lemma_running_none(s.slots);
        let at = choose|i: int| 0 <= i < s.slots.len() && !(#[trigger] s.slots[i] is Done);
        assert(!(s.slots[at] is Running));
        assert(s.slots[at] is Waiting);
    }
}

/// Whether two events are the same, or both report an outcome for the
/// repository at `unit`, whatever the two outcomes are.
pub open spec fn differ_only_for<T>(first: BatchEvent<T>, second: BatchEvent<T>, unit: int) -> bool {
    first == second || (first matches BatchEvent::Outcome(at, _) && second
        matches BatchEvent::Outcome(other, _) && at == unit && other == unit)
}

/// Whether two slots have come equally far.
pub open spec fn equally_far<T>(first: Slot<T>, second: Slot<T>) -> bool {
    (first is Waiting <==> second is Waiting) && (first is Running <==> second is Running)
}

/// Whether two states are the same but for what the slot at `unit` holds as outcome.
pub open spec fn same_but_for<T>(first: BatchState<T>, second: BatchState<T>, unit: int) -> bool {
    &&& first.limit == second.limit
    &&& first.aborted == second.aborted
    &&& first.repositories == second.repositories
    &&& first.slots.len() == second.slots.len()
    &&& forall|i: int|
        0 <= i < first.slots.len() ==> equally_far(#[trigger] first.slots[i], second.slots[i])
    &&& forall|i: int|
        0 <= i < first.slots.len() && i != unit ==> #[trigger] first.slots[i] == second.slots[i]
}

/// Slots that have come equally far, place by place, have equally many running.
pub proof fn lemma_equally_many_running<T>(first: Seq<Slot<T>>, second: Seq<Slot<T>>)
    requires
        first.len() == second.len(),
        forall|i: int| 0 <= i < first.len() ==> equally_far(#[trigger] first[i], second[i]),
    ensures
        running(first) == running(second),
    decreases first.len(),
{
    if first.len() > 0 {
        assert forall|i: int| 0 <= i < first.drop_last().len() implies equally_far(
            #[trigger] first.drop_last()[i],
            second.drop_last()[i],
        ) by {
            assert(equally_far(first[i], second[i]));
        }
        lemma_equally_many_running(first.drop_last(), second.drop_last());
        assert(equally_far(first[first.len() - 1], second[first.len() - 1]));
    }
}

/// One event keeps two states the same but for the outcome at `unit`, where
/// the event itself differs in nothing else.
pub proof fn lemma_event_stays_apart<T>(
    first: BatchState<T>,
    second: BatchState<T>,
    one: BatchEvent<T>,
    other: BatchEvent<T>,
    unit: int,
)
    requires
        same_but_for(first, second, unit),
        differ_only_for(one, other, unit),
    ensures
        same_but_for(after_event(first, one), after_event(second, other), unit),
{
    lemma_equally_many_running(first.slots, second.slots);
    match one {
        BatchEvent::Start => {
            if can_start(first) {
                let at = choose|i: int|
                    0 <= i < first.slots.len() && #[trigger] first.slots[i] is Waiting;
                lemma_has_first_waiting(first.slots, at);
                let place = first_waiting(first.slots);
                assert(equally_far(first.slots[place], second.slots[place]));
                assert forall|j: int| 0 <= j < place implies !(
                #[trigger] second.slots[j] is Waiting) by {
                    assert(equally_far(first.slots[j], second.slots[j]));
                }
                lemma_first_waiting(second.slots, place);
            } else if can_start(second) {
                let at = choose|i: int|
                    0 <= i < second.slots.len() && #[trigger] second.slots[i] is Waiting;
                assert(equally_far(first.slots[at], second.slots[at]));
                assert(first.slots[at] is Waiting);
            }
        },
        BatchEvent::Outcome(at, _) => {
            if 0 <= at < first.slots.len() {
                assert(equally_far(first.slots[at], second.slots[at]));
            }
        },
        BatchEvent::Abort(_) => {},
    }
}

/// A failure stays with its repository. Take two runs of one batch in
/// which the same things happen in the same order, but for the outcomes that
/// are reported for the repository at `unit`: say it succeeds in one run and
/// fails in the other. Then every other repository stands in both runs as
/// it does in the other, with the same outcome where it has one; and the
/// batch is as far in one run as in the other.
pub proof fn lemma_failure_stays_with_its_repository<T>(
    s: BatchState<T>,
    first: Seq<BatchEvent<T>>,
    second: Seq<BatchEvent<T>>,
    unit: int,
)
    requires
        first.len() == second.len(),
        forall|j: int| 0 <= j < first.len() ==> differ_only_for(#[trigger] first[j], second[j], unit),
    ensures
        same_but_for(after_events(s, first), after_events(s, second), unit),
        forall|i: int|
            0 <= i < s.slots.len() && i != unit ==> #[trigger] after_events(s, first).slots[i]
                == after_events(s, second).slots[i],
        is_over(after_events(s, first)) == is_over(after_events(s, second)),
    decreases first.len(),
{
    if first.len() > 0 {
        assert forall|j: int| 0 <= j < first.drop_last().len() implies differ_only_for(
            #[trigger] first.drop_last()[j],
            second.drop_last()[j],
            unit,
        ) by {
            assert(differ_only_for(first[j], second[j], unit));
        }
        lemma_failure_stays_with_its_repository(s, first.drop_last(), second.drop_last(), unit);
        assert(differ_only_for(first[first.len() - 1], second[first.len() - 1], unit));
        lemma_event_stays_apart(
            after_events(s, first.drop_last()),
            after_events(s, second.drop_last()),
            first.last(),
            second.last(),
            unit,
        );
    }
    let one = after_events(s, first);
    let other = after_events(s, second);
    assert(one.slots.len() == other.slots.len());
    if is_over(one) && one.aborted is None {
        assert forall|i: int| 0 <= i < other.slots.len() implies #[trigger] other.slots[i] is Done by {
            assert(equally_far(one.slots[i], other.slots[i]));
            assert(one.slots[i] is Done);
        }
    }
    if is_over(other) && other.aborted is None {
        assert forall|i: int| 0 <= i < one.slots.len() implies #[trigger] one.slots[i] is Done by {
            assert(equally_far(one.slots[i], other.slots[i]));
            assert(other.slots[i] is Done);
        }
    }
    if s.slots.len() != one.slots.len() {
        lemma_slots_stay_as_many(s, first);
    }
}

/// The number of slots does not change.
pub proof fn lemma_slots_stay_as_many<T>(s: BatchState<T>, events: Seq<BatchEvent<T>>)
    ensures
        after_events(s, events).slots.len() == s.slots.len(),
        after_events(s, events).repositories == s.repositories,
        after_events(s, events).limit == s.limit,
    decreases events.len(),
{
    if events.len() > 0 {
        lemma_slots_stay_as_many(s, events.drop_last());
        let before = after_events(s, events.drop_last());
        match events.last() {
            BatchEvent::Start => {
                if can_start(before) {
                    let at = choose|i: int|
                        0 <= i < before.slots.len() && #[trigger] before.slots[i] is Waiting;
                    lemma_has_first_waiting(before.slots, at);
                }
            },
            BatchEvent::Outcome(_, _) => {},
            BatchEvent::Abort(_) => {},
        }
    }
}

} // verus!
