use rand::Rng;
use vstd::prelude::*;

verus! {

/// Adversarial settings read by the delay policy.
#[derive(Clone, Copy, Debug)]
pub struct DelayParameters {
    /// Delay a fast-path proposal when a random trial succeeds.
    pub random_ddos: bool,
    /// Delay every fast-path proposal.
    pub ddos: bool,
    /// Chance of success of the random trial, in percent.
    pub ddos_chance: u64,
    /// Delay in milliseconds.
    pub network_delay: u64,
}

/// What the delay policy reads of an outgoing consensus message.
#[derive(Clone, Copy, Debug, PartialEq, Eq)]
pub enum MessageKind {
    Propose { fallback: u64 },
    Other,
}

/// A block proposal on the fast path: the only message that may be delayed.
pub open spec fn is_fast_proposal(kind: MessageKind) -> bool {
    kind matches MessageKind::Propose { fallback } && fallback == 0
}

/// Delay in milliseconds of a message of `kind`, where `draw` is a uniform
/// draw from 0 to 99 that decides the random trial. In random mode the trial
/// alone decides; the constant mode counts only when random mode is off.
pub open spec fn delay_spec(kind: MessageKind, parameters: DelayParameters, draw: u64) -> u64 {
    if is_fast_proposal(kind) && if parameters.random_ddos {
        draw < parameters.ddos_chance
    } else {
        parameters.ddos
    } {
        parameters.network_delay
    } else {
        0
    }
}

/// The time at which a message submitted at `now` with `delay` is due;
/// it stays at the largest time where the sum would not fit.
pub open spec fn due_at(now: u64, delay: u64) -> u64 {
    if now + delay <= u64::MAX {
        (now + delay) as u64
    } else {
        u64::MAX
    }
}

/// `k` is the first of the earliest due times in `dues`.
pub open spec fn is_first_min(dues: Seq<u64>, k: int) -> bool {
    &&& 0 <= k < dues.len()
    &&& forall|j: int| 0 <= j < dues.len() ==> dues[k] <= dues[j]
    &&& forall|j: int| 0 <= j < k ==> dues[k] < dues[j]
}

/// Whether a message of `kind` is a fast-path proposal.
pub fn fast_proposal(kind: &MessageKind) -> (r: bool)
    ensures
        r == is_fast_proposal(*kind),
{
    match kind {
        MessageKind::Propose { fallback } => *fallback == 0,
        MessageKind::Other => false,
    }
}

/// Delay of a message of `kind`, given the outcome `draw` of the random trial.
pub fn delay_for(kind: &MessageKind, parameters: &DelayParameters, draw: u64) -> (r: u64)
    ensures
        r == delay_spec(*kind, *parameters, draw),
{
    let trial = if parameters.random_ddos {
        draw < parameters.ddos_chance
    } else {
        parameters.ddos
    };
    if fast_proposal(kind) && trial {
        parameters.network_delay
    } else {
        0
    }
}

/// Relies on rand's thread_rng and Rng::gen_range: a uniform value of the
/// half-open range 0..100.
#[verifier::external_body]
fn percent_draw() -> (r: u64)
    ensures
        r < 100,
{
    rand::thread_rng().gen_range(0..100)
}

/// Delay of a message of `kind`; the random trial is drawn only when it
/// can matter.
pub fn delay(kind: &MessageKind, parameters: &DelayParameters) -> (r: u64)
    ensures
        exists|draw: u64| draw < 100 && r == delay_spec(*kind, *parameters, draw),
{
    let draw: u64 = if fast_proposal(kind) && parameters.random_ddos {
        percent_draw()
    } else {
        0
    };
    delay_for(kind, parameters, draw)
}

/// The time at which a message submitted at `now` with `delay` is due.
pub fn due_time(now: u64, delay: u64) -> (r: u64)
    ensures
        r == due_at(now, delay),
{
    if delay <= u64::MAX - now {
        now + delay
    } else {
        u64::MAX
    }
}

/// Messages waiting for their delay to elapse, each with the time it is due.
/// They leave in order of due time, not of submission.
pub struct Filter<T> {
    parameters: DelayParameters,
    pending: Vec<(u64, T)>,
}

impl<T> Filter<T> {
    /// Due times of the waiting messages, in submission order.
    pub closed spec fn dues(&self) -> Seq<u64> {
        self.pending@.map_values(|e: (u64, T)| e.0)
    }

    /// The waiting messages, in submission order.
    pub closed spec fn items(&self) -> Seq<T> {
        self.pending@.map_values(|e: (u64, T)| e.1)
    }

    /// Policy the scheduler was made with.
    pub closed spec fn parameters(&self) -> DelayParameters {
        self.parameters
    }

    /// An empty scheduler.
    pub fn new(parameters: DelayParameters) -> (r: Self)
        ensures
            r.parameters() == parameters,
            r.dues() == Seq::<u64>::empty(),
            r.items() == Seq::<T>::empty(),
    {
        let r = Filter { parameters, pending: Vec::new() };
        assert(r.dues() =~= Seq::<u64>::empty());
        assert(r.items() =~= Seq::<T>::empty());
        r
    }

    /// Number of waiting messages.
    pub fn len(&self) -> (r: usize)
        ensures
            r == self.dues().len(),
            r == self.items().len(),
    {
        self.pending.len()
    }

    /// Holds `item` back until `delay` milliseconds after `now`.
    pub fn schedule(&mut self, now: u64, delay: u64, item: T)
        ensures
            final(self).parameters() == old(self).parameters(),
            final(self).dues() == old(self).dues().push(due_at(now, delay)),
            final(self).items() == old(self).items().push(item),
    {
        let due = due_time(now, delay);
        self.pending.push((due, item));
        assert(self.dues() =~= old(self).dues().push(due_at(now, delay)));
        assert(self.items() =~= old(self).items().push(item));
    }

    /// Takes in a message of `kind` submitted at `now`, with the delay the
    /// policy gives it, and returns that delay.
    pub fn submit(&mut self, now: u64, kind: MessageKind, item: T) -> (r: u64)
        ensures
            exists|draw: u64| draw < 100 && r == delay_spec(kind, old(self).parameters(), draw),
            final(self).parameters() == old(self).parameters(),
            final(self).dues() == old(self).dues().push(due_at(now, r)),
            final(self).items() == old(self).items().push(item),
    {
        let d = delay(&kind, &self.parameters);
        self.schedule(now, d, item);
        d
    }

    /// Position of the first of the earliest due messages.
    fn first_due(&self) -> (r: usize)
        requires
            self.dues().len() > 0,
        ensures
            is_first_min(self.dues(), r as int),
    {
        let mut best: usize = 0;
        let mut i: usize = 1;
        while i < self.pending.len()
            invariant
                self.dues().len() == self.pending@.len(),
                1 <= i <= self.pending@.len(),
                best < i,
                forall|j: int| 0 <= j < i ==> self.dues()[best as int] <= self.dues()[j],
                forall|j: int| 0 <= j < best ==> self.dues()[best as int] < self.dues()[j],
            decreases self.pending@.len() - i,
        {
            assert(self.dues()[i as int] == self.pending@[i as int].0);
            assert(self.dues()[best as int] == self.pending@[best as int].0);
            if self.pending[i].0 < self.pending[best].0 {
                best = i;
            }
            i = i + 1;
        }
        best
    }

    /// The earliest due time among the waiting messages.
    pub fn next_due(&self) -> (r: Option<u64>)
        ensures
            self.dues().len() == 0 ==> r is None,
            self.dues().len() > 0 ==> (r matches Some(t) && exists|k: int|
                is_first_min(self.dues(), k) && t == self.dues()[k]),
    {
        if self.pending.len() == 0 {
            return None;
        }
        let k = self.first_due();
        assert(self.dues()[k as int] == self.pending@[k as int].0);
        Some(self.pending[k].0)
    }

    /// Releases the first of the earliest due messages if it is due at
    /// `now`; releases nothing while every message is due later.
    pub fn pop_ready(&mut self, now: u64) -> (r: Option<T>)
        ensures
            final(self).parameters() == old(self).parameters(),
            r is None <==> forall|j: int| 0 <= j < old(self).dues().len() ==> old(self).dues()[j] > now,
            r is None ==> final(self).dues() == old(self).dues(),
            r is None ==> final(self).items() == old(self).items(),
            r matches Some(x) ==> exists|k: int|
                {
                    &&& is_first_min(old(self).dues(), k)
                    &&& old(self).dues()[k] <= now
                    &&& x == old(self).items()[k]
                    &&& final(self).dues() == old(self).dues().remove(k)
                    &&& final(self).items() == old(self).items().remove(k)
                },
    {
        if self.pending.len() == 0 {
            return None;
        }
        let k = self.first_due();
        assert(self.dues()[k as int] == self.pending@[k as int].0);
        if self.pending[k].0 > now {
            return None;
        }
        let (_, item) = self.pending.remove(k);
        assert(self.dues() =~= old(self).dues().remove(k as int));
        assert(self.items() =~= old(self).items().remove(k as int));
        Some(item)
    }
}

/// With no adversarial mode on, a fast-path proposal gets no delay. With only
/// the constant mode on, it gets the configured delay, and it is not yet due at
/// any time before that delay has elapsed since its submission.
pub proof fn lemma_delay_modes(
    fallback: u64,
    parameters: DelayParameters,
    draw: u64,
    submitted: u64,
    t: u64,
)
    requires
        fallback == 0,
    ensures
        !parameters.random_ddos && !parameters.ddos ==> delay_spec(
            MessageKind::Propose { fallback },
            parameters,
            draw,
        ) == 0 && due_at(submitted, 0) == submitted,
        !parameters.random_ddos && parameters.ddos ==> delay_spec(MessageKind::Propose { fallback }, parameters, draw)
            == parameters.network_delay,
        submitted + parameters.network_delay <= u64::MAX && t < submitted + parameters.network_delay
            ==> due_at(submitted, parameters.network_delay) > t,
{
}

/// A message held back by `delay` from `submitted` is not among those due at
/// any time before that delay has elapsed, so `pop_ready` cannot release it
/// then.
pub proof fn lemma_not_due_before_delay(
    dues: Seq<u64>,
    held: int,
    submitted: u64,
    delay: u64,
    now: u64,
)
    requires
        0 <= held < dues.len(),
        dues[held] == due_at(submitted, delay),
        submitted + delay <= u64::MAX,
        now < submitted + delay,
    ensures
        forall|k: int| 0 <= k < dues.len() && dues[k] <= now ==> k != held,
{
}

/// A message that gets no delay, submitted before a delayed message falls
/// due, leaves before it: the delayed one is not the next to leave. Fallback
/// proposals and other messages always get no delay.
pub proof fn lemma_undelayed_overtakes(
    dues: Seq<u64>,
    delayed: int,
    undelayed: int,
    first_submitted: u64,
    delay: u64,
    second_submitted: u64,
    next: int,
)
    requires
        0 <= delayed < dues.len(),
        0 <= undelayed < dues.len(),
        dues[delayed] == due_at(first_submitted, delay),
        dues[undelayed] == due_at(second_submitted, 0),
        first_submitted + delay <= u64::MAX,
        second_submitted < first_submitted + delay,
        is_first_min(dues, next),
    ensures
        next != delayed,
        forall|kind: MessageKind, parameters: DelayParameters, draw: u64|
            !is_fast_proposal(kind) ==> delay_spec(kind, parameters, draw) == 0,
{
    assert(dues[undelayed] < dues[delayed]);
}

/// In random mode, whatever the constant mode says, a trial chance of zero never delays a fast-path
/// proposal, and a chance of one hundred always delays it by the configured
/// delay.
pub proof fn lemma_trial_chance_extremes(parameters: DelayParameters, draw: u64, fallback: u64)
    requires
        parameters.random_ddos,
        draw < 100,
        fallback == 0,
    ensures
        parameters.ddos_chance == 0 ==> delay_spec(MessageKind::Propose { fallback }, parameters, draw)
            == 0,
        parameters.ddos_chance == 100 ==> delay_spec(MessageKind::Propose { fallback }, parameters, draw)
            == parameters.network_delay,
{
}

} // verus!
