use vstd::prelude::*;

verus! {

/// Number of bytes in a payload digest.
pub const DIGEST_LEN: usize = 32;

/// Whether `d` is shaped like a digest.
pub open spec fn well_formed(d: Seq<u8>) -> bool {
    d.len() == DIGEST_LEN
}

/// Answer of `verify` as consensus sees it.
#[derive(Debug, PartialEq, Eq)]
pub enum PayloadStatus {
    Accept,
    Wait(Vec<u8>),
    Reject,
}

/// Mathematical counterpart of `PayloadStatus`.
pub enum StatusModel {
    Accept,
    Wait(Seq<u8>),
    Reject,
}

impl PayloadStatus {
    pub open spec fn model(&self) -> StatusModel {
        match self {
            PayloadStatus::Accept => StatusModel::Accept,
            PayloadStatus::Wait(d) => StatusModel::Wait(d@),
            PayloadStatus::Reject => StatusModel::Reject,
        }
    }
}

/// What `verify(d)` answers when the payloads in `available` are held.
pub open spec fn verify_model(available: Set<Seq<u8>>, d: Seq<u8>) -> StatusModel {
    if !well_formed(d) {
        StatusModel::Reject
    } else if available.contains(d) {
        StatusModel::Accept
    } else {
        StatusModel::Wait(d)
    }
}

/// Compares two byte strings.
pub fn same_bytes(a: &[u8], b: &[u8]) -> (r: bool)
    ensures
        r == (a@ == b@),
{
    if a.len() != b.len() {
        return false;
    }
    let mut i: usize = 0;
    while i < a.len()
        invariant
            a@.len() == b@.len(),
            0 <= i <= a@.len(),
            a@.subrange(0, i as int) == b@.subrange(0, i as int),
        decreases a@.len() - i,
    {
        if a[i] != b[i] {
            assert(a@[i as int] != b@[i as int]);
            return false;
        }
        assert(a@.subrange(0, i + 1) == a@.subrange(0, i as int).push(a@[i as int]));
        assert(b@.subrange(0, i + 1) == b@.subrange(0, i as int).push(b@[i as int]));
        i = i + 1;
    }
    assert(a@ == a@.subrange(0, a@.len() as int));
    assert(b@ == b@.subrange(0, b@.len() as int));
    true
}

/// Position of `d` among `list`, if it is there.
fn position(list: &Vec<Vec<u8>>, d: &[u8]) -> (r: Option<usize>)
    ensures
        r is None ==> forall|j: int| 0 <= j < list@.len() ==> list@[j]@ != d@,
        r matches Some(k) ==> k < list@.len() && list@[k as int]@ == d@ && forall|j: int|
            0 <= j < k ==> list@[j]@ != d@,
        r is Some <==> views(list@).contains(d@),
{
    let mut i: usize = 0;
    while i < list.len()
        invariant
            0 <= i <= list@.len(),
            forall|j: int| 0 <= j < i ==> list@[j]@ != d@,
        decreases list@.len() - i,
    {
        if same_bytes(list[i].as_slice(), d) {
            assert(views(list@)[i as int] == d@);
            return Some(i);
        }
        i = i + 1;
    }
    assert(!views(list@).contains(d@)) by {
        if views(list@).contains(d@) {
            let j = choose|j: int| 0 <= j < views(list@).len() && views(list@)[j] == d@;
            assert(list@[j]@ == d@);
        }
    }
    None
}


/// Which digests are held after a payload for `d` comes in.
pub open spec fn receive_model(available: Set<Seq<u8>>, collected: Set<Seq<u8>>, d: Seq<u8>) -> Set<Seq<u8>> {
    if well_formed(d) && !collected.contains(d) {
        available.insert(d)
    } else {
        available
    }
}

/// Which digests are held after `d` is garbage collected.
pub open spec fn collect_available(available: Set<Seq<u8>>, d: Seq<u8>) -> Set<Seq<u8>> {
    if well_formed(d) {
        available.remove(d)
    } else {
        available
    }
}

/// Which local payloads still wait for `get` after `d` is garbage collected.
pub open spec fn collect_queue(queue: Seq<Seq<u8>>, d: Seq<u8>) -> Seq<Seq<u8>> {
    if well_formed(d) {
        queue.remove_value(d)
    } else {
        queue
    }
}

/// Which digests count as discarded after `d` is garbage collected.
pub open spec fn collect_collected(collected: Set<Seq<u8>>, d: Seq<u8>) -> Set<Seq<u8>> {
    if well_formed(d) {
        collected.insert(d)
    } else {
        collected
    }
}

/// Maps the core's answer to a verify query onto what consensus sees.
pub fn payload_status(digest: &[u8], reply: Result<bool, MempoolError>) -> (r: PayloadStatus)
    ensures
        r.model() == match reply {
            Ok(true) => StatusModel::Accept,
            Ok(false) => StatusModel::Wait(digest@),
            Err(_) => StatusModel::Reject,
        },
{
    match reply {
        Ok(true) => PayloadStatus::Accept,
        Ok(false) => PayloadStatus::Wait(vstd::slice::slice_to_vec(digest)),
        Err(_) => PayloadStatus::Reject,
    }
}

/// Maps the core's answer to a get query onto the bytes consensus proposes:
/// the digest, or nothing when no payload is ready.
pub fn payload_bytes(reply: Option<Vec<u8>>) -> (r: Vec<u8>)
    ensures
        r@ == match reply {
            Some(d) => d@,
            None => Seq::<u8>::empty(),
        },
{
    match reply {
        Some(d) => d,
        None => Vec::new(),
    }
}

/// Views of a list of byte strings.
pub open spec fn views(list: Seq<Vec<u8>>) -> Seq<Seq<u8>> {
    list.map_values(|v: Vec<u8>| v@)
}

proof fn lemma_views_push(list: Seq<Vec<u8>>, x: Vec<u8>)
    ensures
        views(list.push(x)) == views(list).push(x@),
        views(list.push(x)).to_set() == views(list).to_set().insert(x@),
{
    assert(views(list.push(x)) =~= views(list).push(x@));
    let s = views(list).push(x@);
    assert forall|a: Seq<u8>| s.contains(a) <==> views(list).contains(a) || a == x@ by {
        if s.contains(a) && a != x@ {
            let i = choose|i: int| 0 <= i < s.len() && s[i] == a;
            assert(views(list)[i] == a);
        }
        if views(list).contains(a) {
            let i = choose|i: int| 0 <= i < views(list).len() && views(list)[i] == a;
            assert(s[i] == a);
        }
        if a == x@ {
            assert(s[s.len() - 1] == a);
        }
    }
    assert(s.to_set() =~= views(list).to_set().insert(x@));
}

proof fn lemma_views_remove(list: Seq<Vec<u8>>, k: int)
    requires
        0 <= k < list.len(),
        forall|i: int, j: int| 0 <= i < j < list.len() ==> list[i]@ != list[j]@,
    ensures
        views(list.remove(k)) == views(list).remove(k),
        views(list.remove(k)).to_set() == views(list).to_set().remove(list[k]@),
        forall|i: int, j: int|
            0 <= i < j < list.remove(k).len() ==> list.remove(k)[i]@ != list.remove(k)[j]@,
{
    let v = views(list);
    let r = v.remove(k);
    assert(views(list.remove(k)) =~= r);
    assert forall|a: Seq<u8>| r.contains(a) <==> v.contains(a) && a != list[k]@ by {
        if r.contains(a) {
            let i = choose|i: int| 0 <= i < r.len() && r[i] == a;
            if i < k {
                assert(v[i] == a);
                assert(list[i]@ != list[k]@);
            } else {
                assert(v[i + 1] == a);
                assert(list[k]@ != list[i + 1]@);
            }
        }
        if v.contains(a) && a != list[k]@ {
            let i = choose|i: int| 0 <= i < v.len() && v[i] == a;
            if i < k {
                assert(r[i] == a);
            } else {
                assert(i != k);
                assert(r[i - 1] == a);
            }
        }
    }
    assert(r.to_set() =~= v.to_set().remove(list[k]@));
    assert forall|i: int, j: int|
        0 <= i < j < list.remove(k).len() implies list.remove(k)[i]@ != list.remove(k)[j]@ by {
        let ii = if i < k { i } else { i + 1 };
        let jj = if j < k { j } else { j + 1 };
        assert(list.remove(k)[i] == list[ii]);
        assert(list.remove(k)[j] == list[jj]);
    }
}

/// Sizes the core is configured with.
#[derive(Clone, Copy, Debug)]
pub struct Parameters {
    pub queue_capacity: usize,
    pub max_payload_size: usize,
}

/// Why the core refused a payload or a query.
#[derive(Clone, Copy, Debug, PartialEq, Eq, Structural)]
pub enum MempoolError {
    MalformedDigest,
    PayloadTooBig,
    QueueFull,
}

/// A query from consensus to the core; the caller keeps the slot the
/// single reply goes to.
#[derive(Debug, PartialEq, Eq)]
pub enum ConsensusMessage {
    Get,
    Verify(Vec<u8>),
}

/// The core's single reply to a `ConsensusMessage`.
#[derive(Debug, PartialEq, Eq)]
pub enum CoreReply {
    Payload(Option<Vec<u8>>),
    Verified(Result<bool, MempoolError>),
}

/// Availability index of payload digests, owned by the core's processing loop.
pub struct MempoolCore {
    parameters: Parameters,
    available: Vec<Vec<u8>>,
    queue: Vec<Vec<u8>>,
    collected: Vec<Vec<u8>>,
}

impl MempoolCore {
    /// Digests whose payload is held and may be referenced.
    pub closed spec fn available(&self) -> Set<Seq<u8>> {
        views(self.available@).to_set()
    }

    /// Digests of local payloads not yet handed out by `get`, oldest first.
    pub closed spec fn queue(&self) -> Seq<Seq<u8>> {
        views(self.queue@)
    }

    /// Digests already ordered and discarded.
    pub closed spec fn collected(&self) -> Set<Seq<u8>> {
        views(self.collected@).to_set()
    }

    /// Sizes the core was made with.
    pub closed spec fn parameters(&self) -> Parameters {
        self.parameters
    }

    /// Every digest is well formed and listed once; each queued digest is
    /// held; no held digest is collected; the queue is within capacity.
    pub closed spec fn wf(&self) -> bool {
        &&& forall|j: int| 0 <= j < self.available@.len() ==> well_formed(#[trigger] self.available@[j]@)
        &&& forall|j: int| 0 <= j < self.collected@.len() ==> well_formed(#[trigger] self.collected@[j]@)
        &&& forall|i: int, j: int|
            0 <= i < j < self.available@.len() ==> self.available@[i]@ != self.available@[j]@
        &&& forall|i: int, j: int|
            0 <= i < j < self.queue@.len() ==> self.queue@[i]@ != self.queue@[j]@
        &&& forall|j: int| 0 <= j < self.queue@.len() ==> views(self.available@).contains(#[trigger] self.queue@[j]@)
        &&& forall|j: int| 0 <= j < self.available@.len() ==> !views(self.collected@).contains(#[trigger] self.available@[j]@)
        &&& self.queue@.len() <= self.parameters.queue_capacity
    }

    /// A well-formed core's queue holds no digest twice.
    pub proof fn lemma_queue_distinct(&self)
        requires
            self.wf(),
        ensures
            self.queue().no_duplicates(),
    {
        assert forall|i: int, j: int|
            0 <= i < self.queue().len() && 0 <= j < self.queue().len() && i != j implies self.queue()[i]
            != self.queue()[j] by {
            if i < j {
                assert(self.queue@[i]@ != self.queue@[j]@);
            } else {
                assert(self.queue@[j]@ != self.queue@[i]@);
            }
        }
    }

    /// In a well-formed core every held, queued or collected digest is well
    /// formed, and the queue is within its capacity.
    pub proof fn lemma_bounds(&self)
        requires
            self.wf(),
        ensures
            forall|d: Seq<u8>| self.available().contains(d) ==> well_formed(d),
            forall|d: Seq<u8>| self.collected().contains(d) ==> well_formed(d),
            forall|j: int| 0 <= j < self.queue().len() ==> well_formed(#[trigger] self.queue()[j]),
            self.queue().len() <= self.parameters().queue_capacity,
    {
        assert forall|d: Seq<u8>| self.available().contains(d) implies well_formed(d) by {
            let i = choose|i: int| 0 <= i < views(self.available@).len() && views(self.available@)[i] == d;
            assert(well_formed(self.available@[i]@));
        }
        assert forall|d: Seq<u8>| self.collected().contains(d) implies well_formed(d) by {
            let i = choose|i: int| 0 <= i < views(self.collected@).len() && views(self.collected@)[i] == d;
            assert(well_formed(self.collected@[i]@));
        }
        assert forall|j: int| 0 <= j < self.queue().len() implies well_formed(#[trigger] self.queue()[j]) by {
            let d = self.queue@[j]@;
            assert(views(self.available@).contains(d));
            let i = choose|i: int| 0 <= i < views(self.available@).len() && views(self.available@)[i] == d;
            assert(well_formed(self.available@[i]@));
        }
    }

    /// An empty index.
    pub fn new(parameters: Parameters) -> (r: Self)
        ensures
            r.wf(),
            r.parameters() == parameters,
            r.available() == Set::<Seq<u8>>::empty(),
            r.queue() == Seq::<Seq<u8>>::empty(),
            r.collected() == Set::<Seq<u8>>::empty(),
    {
        let r = MempoolCore { parameters, available: Vec::new(), queue: Vec::new(), collected: Vec::new() };
        assert(r.available() =~= Set::<Seq<u8>>::empty());
        assert(r.queue() =~= Seq::<Seq<u8>>::empty());
        assert(r.collected() =~= Set::<Seq<u8>>::empty());
        r
    }

    /// Records that the payload for `digest` has been stored. A digest that
    /// was already garbage collected, or is malformed, changes nothing.
    /// Returns whether the digest became available.
    pub fn receive_payload(&mut self, digest: &[u8]) -> (r: bool)
        requires
            old(self).wf(),
        ensures
            final(self).wf(),
            final(self).parameters() == old(self).parameters(),
            final(self).queue() == old(self).queue(),
            final(self).collected() == old(self).collected(),
            final(self).available() == receive_model(old(self).available(), old(self).collected(), digest@),
            r == (well_formed(digest@) && !old(self).collected().contains(digest@)
                && !old(self).available().contains(digest@)),
    {
        if digest.len() != DIGEST_LEN {
            return false;
        }
        if let Some(k) = position(&self.collected, digest) {
            assert(views(self.collected@)[k as int] == digest@);
            return false;
        }
        match position(&self.available, digest) {
            Some(k) => {
                assert(views(self.available@)[k as int] == digest@);
                assert(self.available().insert(digest@) =~= self.available());
                false
            },
            None => {
                let ghost before = self.available@;
                let v = vstd::slice::slice_to_vec(digest);
                proof {
                    lemma_views_push(before, v);
                }
                self.available.push(v);
                assert(self.available@ == before.push(v));
                assert forall|j: int| 0 <= j < self.queue@.len() implies views(self.available@).contains(#[trigger] self.queue@[j]@) by {
                    let x = self.queue@[j]@;
                    assert(views(before).contains(x));
                    let i = choose|i: int| 0 <= i < views(before).len() && views(before)[i] == x;
                    assert(views(self.available@)[i] == x);
                }
                assert forall|j: int| 0 <= j < self.available@.len() implies !views(self.collected@).contains(#[trigger] self.available@[j]@) by {
                    if j < before.len() {
                        assert(self.available@[j] == before[j]);
                    } else {
                        if views(self.collected@).contains(digest@) {
                            let i = choose|i: int| 0 <= i < views(self.collected@).len() && views(self.collected@)[i] == digest@;
                            assert(self.collected@[i]@ == digest@);
                        }
                    }
                }
                assert forall|i: int, j: int|
                    0 <= i < j < self.available@.len() implies self.available@[i]@ != self.available@[j]@ by {
                    if j == before.len() {
                        assert(before[i]@ != digest@);
                    } else {
                        assert(self.available@[i] == before[i]);
                        assert(self.available@[j] == before[j]);
                    }
                }
                assert(!old(self).collected().contains(digest@)) by {
                    if views(self.collected@).contains(digest@) {
                        let i = choose|i: int| 0 <= i < views(self.collected@).len() && views(self.collected@)[i] == digest@;
                        assert(self.collected@[i]@ == digest@);
                    }
                }
                assert(!old(self).available().contains(digest@)) by {
                    if views(before).contains(digest@) {
                        let i = choose|i: int| 0 <= i < views(before).len() && views(before)[i] == digest@;
                        assert(before[i]@ == digest@);
                    }
                }
                true
            },
        }
    }

    /// The core's answer to a verify query: whether the payload for
    /// `digest` is held.
    pub fn verify_digest(&self, digest: &[u8]) -> (r: Result<bool, MempoolError>)
        ensures
            !well_formed(digest@) ==> r == Err::<bool, MempoolError>(MempoolError::MalformedDigest),
            well_formed(digest@) ==> r == Ok::<bool, MempoolError>(self.available().contains(digest@)),
    {
        if digest.len() != DIGEST_LEN {
            return Err(MempoolError::MalformedDigest);
        }
        Ok(position(&self.available, digest).is_some())
    }

    /// Whether consensus may reference `digest`: `Reject` for a malformed
    /// digest, `Accept` when its payload is held, `Wait` otherwise.
    pub fn verify(&self, digest: &[u8]) -> (r: PayloadStatus)
        ensures
            r.model() == verify_model(self.available(), digest@),
    {
        payload_status(digest, self.verify_digest(digest))
    }

    /// Hands out the oldest local payload that has not been handed out yet.
    pub fn get(&mut self) -> (r: Option<Vec<u8>>)
        requires
            old(self).wf(),
        ensures
            final(self).wf(),
            final(self).parameters() == old(self).parameters(),
            final(self).available() == old(self).available(),
            final(self).collected() == old(self).collected(),
            old(self).queue().len() == 0 ==> r is None && final(self).queue() == old(self).queue(),
            old(self).queue().len() > 0 ==> (r matches Some(d) && d@ == old(self).queue()[0]
                && final(self).queue() == old(self).queue().drop_first()),
            r matches Some(d) ==> well_formed(d@),
    {
        if self.queue.len() == 0 {
            return None;
        }
        let ghost before = self.queue@;
        let d = self.queue.remove(0);
        assert(views(self.queue@) =~= views(before).drop_first());
        assert forall|i: int, j: int|
            0 <= i < j < self.queue@.len() implies self.queue@[i]@ != self.queue@[j]@ by {
            assert(self.queue@[i] == before[i + 1]);
            assert(self.queue@[j] == before[j + 1]);
        }
        assert forall|j: int| 0 <= j < self.queue@.len() implies views(self.available@).contains(#[trigger] self.queue@[j]@) by {
            assert(self.queue@[j] == before[j + 1]);
        }
        assert(views(self.available@).contains(d@));
        Some(d)
    }

    /// Takes in a payload of `size` bytes created locally under `digest`,
    /// to be handed out later by `get`. A digest that is already held or
    /// already collected is accepted and changes nothing.
    pub fn add_payload(&mut self, digest: &[u8], size: usize) -> (r: Result<(), MempoolError>)
        requires
            old(self).wf(),
        ensures
            final(self).wf(),
            final(self).parameters() == old(self).parameters(),
            final(self).collected() == old(self).collected(),
            !well_formed(digest@) ==> r == Err::<(), MempoolError>(MempoolError::MalformedDigest),
            well_formed(digest@) && size > old(self).parameters().max_payload_size ==> r == Err::<
                (),
                MempoolError,
            >(MempoolError::PayloadTooBig),
            ({
                let known = old(self).available().contains(digest@) || old(self).collected().contains(
                    digest@,
                );
                let full = old(self).queue().len() >= old(self).parameters().queue_capacity;
                well_formed(digest@) && size <= old(self).parameters().max_payload_size ==> if known {
                    r is Ok
                } else if full {
                    r == Err::<(), MempoolError>(MempoolError::QueueFull)
                } else {
                    r is Ok
                }
            }),
            r is Ok && !old(self).available().contains(digest@) && !old(self).collected().contains(
                digest@,
            ) ==> final(self).available() == old(self).available().insert(digest@)
                && final(self).queue() == old(self).queue().push(digest@),
            !(r is Ok && !old(self).available().contains(digest@) && !old(self).collected().contains(
                digest@,
            )) ==> final(self).available() == old(self).available() && final(self).queue()
                == old(self).queue(),
    {
        if digest.len() != DIGEST_LEN {
            return Err(MempoolError::MalformedDigest);
        }
        if size > self.parameters.max_payload_size {
            return Err(MempoolError::PayloadTooBig);
        }
        let held = position(&self.available, digest).is_some();
        let collected = position(&self.collected, digest).is_some();
        if held || collected {
            return Ok(());
        }
        if self.queue.len() >= self.parameters.queue_capacity {
            return Err(MempoolError::QueueFull);
        }
        self.receive_payload(digest);
        let ghost before = self.queue@;
        assert(views(before).len() == views(old(self).queue@).len());
        let v = vstd::slice::slice_to_vec(digest);
        proof {
            lemma_views_push(before, v);
        }
        self.queue.push(v);
        assert(self.queue@ == before.push(v));
        assert forall|i: int, j: int|
            0 <= i < j < self.queue@.len() implies self.queue@[i]@ != self.queue@[j]@ by {
            if j == before.len() {
                assert(self.queue@[i] == before[i]);
                assert(views(before)[i] == views(old(self).queue@)[i]);
                assert(views(old(self).available@).contains(old(self).queue@[i]@));
            } else {
                assert(self.queue@[i] == before[i]);
                assert(self.queue@[j] == before[j]);
            }
        }
        assert forall|j: int| 0 <= j < self.queue@.len() implies views(self.available@).contains(#[trigger] self.queue@[j]@) by {
            if j < before.len() {
                assert(self.queue@[j] == before[j]);
            } else {
                assert(self.available().contains(digest@));
            }
        }
        Ok(())
    }

    /// Drops the bookkeeping of an ordered digest. Collecting a digest that
    /// is not held is no error; a malformed digest changes nothing.
    pub fn garbage_collect(&mut self, digest: &[u8])
        requires
            old(self).wf(),
        ensures
            final(self).wf(),
            final(self).parameters() == old(self).parameters(),
            final(self).available() == collect_available(old(self).available(), digest@),
            final(self).queue() == collect_queue(old(self).queue(), digest@),
            final(self).collected() == collect_collected(old(self).collected(), digest@),
    {
        if digest.len() != DIGEST_LEN {
            return;
        }
        let ghost d = digest@;
        match position(&self.available, digest) {
            Some(k) => {
                proof {
                    lemma_views_remove(self.available@, k as int);
                }
                self.available.remove(k);
            },
            None => {
                assert(self.available().remove(d) =~= self.available());
            },
        }
        assert(!views(self.available@).contains(d));
        assert(self.available() == old(self).available().remove(d));
        let ghost q = self.queue@;
        proof {
            views(q).index_of_first_ensures(d);
        }
        match position(&self.queue, digest) {
            Some(k) => {
                assert(views(q).index_of_first(d) == Some(k as int)) by {
                    let idx = views(q).index_of_first(d).unwrap();
                    assert(views(q)[k as int] == d);
                    if idx < k {
                        assert(q[idx]@ == d);
                    }
                }
                proof {
                    lemma_views_remove(q, k as int);
                }
                self.queue.remove(k);
            },
            None => {},
        }
        assert(self.queue() == old(self).queue().remove_value(d));
        assert forall|j: int| 0 <= j < self.queue@.len() implies views(self.available@).contains(#[trigger] self.queue@[j]@) by {
            let x = self.queue@[j]@;
            assert(views(self.queue@)[j] == x);
            assert(views(q).remove_value(d).contains(x));
            assert(views(q).contains(x));
            assert(x != d) by {
                if x == d {
                    let k = views(q).index_of_first(d).unwrap();
                    let ii = if j < k { j } else { j + 1 };
                    assert(views(q).remove(k)[j] == views(q)[ii]);
                    assert(q[ii]@ == q[k]@);
                }
            }
            assert(old(self).available().contains(x)) by {
                let i = choose|i: int| 0 <= i < views(q).len() && views(q)[i] == x;
                assert(q[i]@ == x);
            }
            assert(self.available().contains(x));
        }
        match position(&self.collected, digest) {
            Some(k) => {
                assert(views(self.collected@)[k as int] == d);
                assert(self.collected().insert(d) =~= self.collected());
            },
            None => {
                let v = vstd::slice::slice_to_vec(digest);
                proof {
                    lemma_views_push(self.collected@, v);
                }
                self.collected.push(v);
            },
        }
        assert forall|j: int| 0 <= j < self.collected@.len() implies well_formed(#[trigger] self.collected@[j]@) by {
            if j < old(self).collected@.len() {
                assert(self.collected@[j] == old(self).collected@[j]);
            }
        }
        assert forall|j: int| 0 <= j < self.available@.len() implies !views(self.collected@).contains(#[trigger] self.available@[j]@) by {
            let x = self.available@[j]@;
            assert(views(self.available@)[j] == x);
            assert(self.available().contains(x));
            assert(!old(self).collected().contains(x)) by {
                if old(self).collected().contains(x) {
                    let i = choose|i: int| 0 <= i < views(old(self).available@).len() && views(old(self).available@)[i] == x;
                    assert(old(self).available@[i]@ == x);
                }
            }
            assert(!self.collected().contains(x));
        }
    }

    /// Answers one query from consensus.
    pub fn handle(&mut self, message: ConsensusMessage) -> (r: CoreReply)
        requires
            old(self).wf(),
        ensures
            final(self).wf(),
            final(self).parameters() == old(self).parameters(),
            final(self).available() == old(self).available(),
            final(self).collected() == old(self).collected(),
            match message {
                ConsensusMessage::Get => r matches CoreReply::Payload(p) && if old(self).queue().len()
                    == 0 {
                    p is None && final(self).queue() == old(self).queue()
                } else {
                    p matches Some(d) && d@ == old(self).queue()[0] && final(self).queue() == old(
                        self,
                    ).queue().drop_first()
                },
                ConsensusMessage::Verify(d) => final(self).queue() == old(self).queue() && r == CoreReply::Verified(
                    if well_formed(d@) {
                        Ok(old(self).available().contains(d@))
                    } else {
                        Err(MempoolError::MalformedDigest)
                    },
                ),
            },
    {
        match message {
            ConsensusMessage::Get => CoreReply::Payload(self.get()),
            ConsensusMessage::Verify(d) => CoreReply::Verified(self.verify_digest(d.as_slice())),
        }
    }
}

/// A digest never received is answered with `Wait` carrying the same
/// digest; once its payload has been received, the same query is accepted.
pub proof fn lemma_wait_then_accept(available: Set<Seq<u8>>, collected: Set<Seq<u8>>, d: Seq<u8>)
    requires
        well_formed(d),
        !available.contains(d),
        !collected.contains(d),
    ensures
        verify_model(available, d) == StatusModel::Wait(d),
        verify_model(receive_model(available, collected, d), d) == StatusModel::Accept,
{
}

/// A byte string of the wrong length is rejected whatever the core holds.
pub proof fn lemma_malformed_rejected(d: Seq<u8>)
    requires
        d.len() != DIGEST_LEN,
    ensures
        forall|available: Set<Seq<u8>>| verify_model(available, d) == StatusModel::Reject,
{
}

/// Collecting a digest twice changes nothing the second time, and after it
/// the digest is answered as unknown. The queue of a well-formed core holds
/// no digest twice.
pub proof fn lemma_collect_idempotent(
    available: Set<Seq<u8>>,
    queue: Seq<Seq<u8>>,
    collected: Set<Seq<u8>>,
    d: Seq<u8>,
)
    requires
        queue.no_duplicates(),
    ensures
        collect_available(collect_available(available, d), d) == collect_available(available, d),
        collect_queue(collect_queue(queue, d), d) == collect_queue(queue, d),
        collect_collected(collect_collected(collected, d), d) == collect_collected(collected, d),
        verify_model(collect_available(available, d), d) == if well_formed(d) {
            StatusModel::Wait(d)
        } else {
            StatusModel::Reject
        },
{
    if well_formed(d) {
        assert(available.remove(d).remove(d) =~= available.remove(d));
        assert(collected.insert(d).insert(d) =~= collected.insert(d));
        queue.index_of_first_ensures(d);
        let once = queue.remove_value(d);
        once.index_of_first_ensures(d);
        if queue.contains(d) {
            let k = queue.index_of_first(d).unwrap();
            assert(!once.contains(d)) by {
                if once.contains(d) {
                    let j = choose|j: int| 0 <= j < once.len() && once[j] == d;
                    if j < k {
                        assert(queue[j] == d);
                    } else {
                        assert(once[j] == queue[j + 1]);
                        assert(queue[j + 1] == d);
                        assert(queue[k] == d);
                    }
                }
            }
        }
    }
}

} // verus!
