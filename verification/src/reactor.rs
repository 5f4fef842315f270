//! The reactor's token tables: which computation waits for which
//! submission, and which results have arrived.
//!
//! The reactor mints a token for every submission, keeps the waker of the
//! computation that waits for it, records the result when the completion
//! is drained and hands the result out once. The ring is not held here: a
//! submission is handed out as a [`Submission`] for the caller to queue,
//! and drained completions are handed in as [`Completion`] values.

use crate::slots::{
    after_completion, after_drain, after_invalidate, after_submit, after_take, idle, issued,
    on_time_count, result_at, waits_on, woken, woken_by, Completion, Slot,
};
use rustc_hash::FxHashMap;
use std::task::Waker;
use vstd::prelude::*;

verus! {

/// `std::hash::BuildHasherDefault`, which builds a hasher by `H::default()`.
#[verifier::external_type_specification]
#[verifier::external_body]
#[verifier::reject_recursive_types(H)]
pub struct ExBuildHasherDefault<H>(std::hash::BuildHasherDefault<H>);

/// `rustc_hash::FxHasher`, the hasher of an `FxHashMap`.
#[verifier::external_type_specification]
#[verifier::external_body]
pub struct ExFxHasher(rustc_hash::FxHasher);

/// `FxHashMap::default`: a map that holds no key.
#[verifier::external_body]
fn index_new() -> (index: FxHashMap<i32, Vec<usize>>)
    ensures
        forall|fd: i32| !index@.contains_key(fd),
{
    FxHashMap::default()
}

/// `HashMap::remove` on an `FxHashMap`: the entry of `fd` leaves the map and
/// is handed out, if there was one; every other entry stays.
#[verifier::external_body]
fn index_remove(index: &mut FxHashMap<i32, Vec<usize>>, fd: i32) -> (entry: Option<Vec<usize>>)
    ensures
        final(index)@ == old(index)@.remove(fd),
        entry == (if old(index)@.contains_key(fd) {
            Some(old(index)@[fd])
        } else {
            None
        }),
{
    index.remove(&fd)
}

/// `HashMap::insert` on an `FxHashMap`: afterwards `fd` maps to `tokens`, and
/// every other entry is as before.
#[verifier::external_body]
fn index_insert(index: &mut FxHashMap<i32, Vec<usize>>, fd: i32, tokens: Vec<usize>)
    ensures
        final(index)@ == old(index)@.insert(fd, tokens),
{
    index.insert(fd, tokens);
}

/// The number of entries that the submission queue of the ring holds.
pub const SUBMISSION_DEPTH: u32 = 128;

/// The kernel operation that a submission asks for.
#[derive(Clone, Copy, Debug, PartialEq, Eq, Structural)]
pub enum Opcode {
    Read,
    Write,
    Accept,
    Fsync,
    Readv,
    Writev,
}

/// A submission entry in plain values: what to queue on the ring. `len` is
/// the buffer length of a read or write and the number of buffers of a
/// vectored one; `token` is the entry's user data.
#[derive(Clone, Copy, Debug, PartialEq, Eq, Structural)]
pub struct Submission {
    pub opcode: Opcode,
    pub fd: i32,
    pub len: u32,
    pub token: u64,
}

/// The length that an entry carries for a buffer of `len` bytes: the low 32
/// bits of `len`.
pub open spec fn entry_len(len: usize) -> u32 {
    len as u32
}

/// The entry never names more bytes than the buffer has, and names all of
/// them when their number fits in 32 bits.
pub proof fn lemma_entry_len_within_buffer(len: usize)
    ensures
        entry_len(len) <= len,
        len <= u32::MAX ==> entry_len(len) == len,
{
    let wide: u64 = len as u64;
    assert((wide as u32) as u64 <= wide) by (bit_vector);
    assert(wide as u32 == len as u32) by (bit_vector)
        requires
            wide == len as u64,
    ;
}

/// The slot that the two tables hold for one token.
pub open spec fn slot_of(waker: Option<(i32, Waker)>, result: Option<i32>) -> Slot {
    match waker {
        Some((fd, waker)) => Slot::Waiting { fd, waker },
        None => match result {
            Some(result) => Slot::Ready { result },
            None => Slot::Vacant,
        },
    }
}

/// Whether `token` occurs in `tokens`.
spec fn holds(tokens: Seq<usize>, token: int) -> bool {
    exists|i: int| 0 <= i < tokens.len() && #[trigger] tokens[i] == token
}

/// A list with one more token holds that token and what it held before.
proof fn lemma_holds_push(tokens: Seq<usize>, token: usize, t: int)
    ensures
        holds(tokens.push(token), t) <==> holds(tokens, t) || t == token,
{
    let longer = tokens.push(token);
    if holds(longer, t) {
        let i = choose|i: int| 0 <= i < longer.len() && #[trigger] longer[i] == t;
        if i < tokens.len() {
            assert(tokens[i] == t);
        }
    }
    if holds(tokens, t) {
        let i = choose|i: int| 0 <= i < tokens.len() && #[trigger] tokens[i] == t;
        assert(longer[i] == t);
    }
    if t == token {
        assert(longer[tokens.len() as int] == t);
    }
}

/// The list of `tokens` without `token`, in the same order.
fn without(tokens: &Vec<usize>, token: usize) -> (kept: Vec<usize>)
    ensures
        kept@ == tokens@.filter(|t: usize| t != token),
        forall|t: int| holds(kept@, t) <==> holds(tokens@, t) && t != token,
{
    let ghost keep = |t: usize| t != token;
    let mut kept: Vec<usize> = Vec::new();
    let mut i: usize = 0;
    while i < tokens.len()
        invariant
            i <= tokens.len(),
            keep == (|t: usize| t != token),
            kept@ == tokens@.take(i as int).filter(keep),
        decreases tokens.len() - i,
    {
        proof {
            assert(tokens@.take(i + 1) =~= tokens@.take(i as int).push(tokens@[i as int]));
            tokens@.take(i as int).lemma_filter_push(tokens@[i as int], keep);
        }
        if tokens[i] != token {
            kept.push(tokens[i]);
        }
        i += 1;
    }
    proof {
        assert(tokens@.take(i as int) =~= tokens@);
        assert forall|t: int| holds(kept@, t) <==> holds(tokens@, t) && t != token by {
            if holds(kept@, t) {
                let i = choose|i: int| 0 <= i < kept@.len() && #[trigger] kept@[i] == t;
                tokens@.lemma_filter_pred(keep, i);
                assert(kept@.contains(kept@[i]));
                tokens@.lemma_filter_contains_rev(keep, kept@[i]);
                let j = choose|j: int| 0 <= j < tokens@.len() && tokens@[j] == kept@[i];
                assert(tokens@[j] == t);
            }
            if holds(tokens@, t) && t != token {
                let j = choose|j: int| 0 <= j < tokens@.len() && #[trigger] tokens@[j] == t;
                tokens@.lemma_filter_contains(keep, j);
                let i = choose|i: int| 0 <= i < kept@.len() && kept@[i] == tokens@[j];
                assert(kept@[i] == t);
            }
        }
    }
    kept
}

/// The token tables of one thread's runtime.
pub struct Reactor {
    /// Descriptor to the tokens that wait on it.
    waker_mapping: FxHashMap<i32, Vec<usize>>,
    /// Token to the descriptor and waker of the computation that waits.
    wakers: Vec<Option<(i32, Waker)>>,
    /// Token to the result of its completion.
    tokens_completion_result: Vec<Option<i32>>,
}

impl View for Reactor {
    type V = Seq<Slot>;

    closed spec fn view(&self) -> Seq<Slot> {
        Seq::new(
            self.wakers@.len(),
            |t: int| slot_of(self.wakers@[t], self.tokens_completion_result@[t]),
        )
    }
}

impl Reactor {
    /// Whether the waker table binds `token` to `fd`.
    spec fn binds(&self, token: int, fd: i32) -> bool {
        &&& 0 <= token < self.wakers@.len()
        &&& self.wakers@[token] matches Some(entry)
        &&& entry.0 == fd
    }

    /// Whether the tables hold both a waker and a result for `token`.
    spec fn holds_both(&self, token: int) -> bool {
        self.wakers@[token] is Some && self.tokens_completion_result@[token] is Some
    }

    /// The tokens that the reverse index lists under `fd`.
    pub closed spec fn by_fd(&self, fd: i32) -> Seq<usize> {
        if self.waker_mapping@.contains_key(fd) {
            self.waker_mapping@[fd]@
        } else {
            Seq::empty()
        }
    }

    /// The tables agree with each other: they have one length, no token
    /// holds a waker and a result at once, and the reverse index lists a
    /// token under a descriptor exactly when the token waits on it.
    pub closed spec fn wf(&self) -> bool {
        &&& self.tokens_completion_result@.len() == self.wakers@.len()
        &&& forall|t: int| 0 <= t < self.wakers@.len() ==> !#[trigger] self.holds_both(t)
        &&& forall|fd: i32, t: int| #[trigger] holds(self.by_fd(fd), t) <==> self.binds(t, fd)
    }

    /// The reverse index lists a token under a descriptor if and only if the
    /// token's slot waits on that descriptor.
    pub proof fn lemma_by_fd_agrees(&self, fd: i32, token: usize)
        requires
            self.wf(),
        ensures
            self.by_fd(fd).contains(token) <==> token < self@.len() && waits_on(
                self@[token as int],
                fd,
            ),
    {
        let listed = self.by_fd(fd);
        assert(holds(listed, token as int) <==> self.binds(token as int, fd));
        if listed.contains(token) {
            let i = choose|i: int| 0 <= i < listed.len() && listed[i] == token;
            assert(listed[i] == token as int);
        }
        if holds(listed, token as int) {
            let i = choose|i: int| 0 <= i < listed.len() && #[trigger] listed[i] == token as int;
            assert(listed[i] == token);
        }
    }

    /// What closing `fd` makes of the reactor `before`: no slot waits on
    /// `fd`, the reverse index lists nothing under it, and nothing else has
    /// changed.
    pub open spec fn closes(&self, before: &Reactor, fd: i32) -> bool {
        &&& self@ == after_invalidate(before@, fd)
        &&& self.by_fd(fd) == Seq::<usize>::empty()
        &&& forall|other: i32| other != fd ==> self.by_fd(other) == before.by_fd(other)
    }

    /// Closing a descriptor a second time changes nothing: neither a slot
    /// nor an entry of the reverse index.
    pub proof fn lemma_unregister_fd_idempotent(
        before: &Reactor,
        once: &Reactor,
        twice: &Reactor,
        fd: i32,
    )
        requires
            once.closes(before, fd),
            twice.closes(once, fd),
        ensures
            twice@ == once@,
            forall|any: i32| twice.by_fd(any) == once.by_fd(any),
    {
        crate::slots::lemma_invalidate_idempotent(before@, fd);
    }

    /// A reactor that has issued no token.
    pub fn new() -> (reactor: Reactor)
        ensures
            reactor.wf(),
            reactor@ == Seq::<Slot>::empty(),
    {
        let reactor = Reactor {
            waker_mapping: index_new(),
            wakers: Vec::new(),
            tokens_completion_result: Vec::new(),
        };
        assert(reactor@ =~= Seq::<Slot>::empty());
        reactor
    }

    /// The number of tokens issued so far. The tokens are the numbers
    /// below it.
    pub fn tokens_issued(&self) -> (count: usize)
        ensures
            count == self@.len(),
    {
        self.wakers.len()
    }

    /// Mints the next token and records that `waker` waits on `fd` for it.
    fn register_waker(&mut self, fd: i32, waker: Waker) -> (token: u64)
        requires
            old(self).wf(),
        ensures
            final(self).wf(),
            token == old(self)@.len(),
            final(self)@ == after_submit(old(self)@, fd, waker),
    {
        let token = self.wakers.len();
        self.wakers.push(Some((fd, waker)));
        let mut tokens = match index_remove(&mut self.waker_mapping, fd) {
            Some(tokens) => tokens,
            None => Vec::new(),
        };
        tokens.push(token);
        index_insert(&mut self.waker_mapping, fd, tokens);
        self.tokens_completion_result.push(None);
        proof {
            assert(self@ =~= after_submit(old(self)@, fd, waker));
            assert(self.by_fd(fd) == old(self).by_fd(fd).push(token));
            assert forall|other: i32, t: int| #[trigger]
                holds(self.by_fd(other), t) <==> self.binds(t, other) by {
                assert(holds(old(self).by_fd(other), t) <==> old(self).binds(t, other));
                if other == fd {
                    lemma_holds_push(old(self).by_fd(fd), token, t);
                } else {
                    assert(self.by_fd(other) == old(self).by_fd(other));
                }
            }
            assert forall|t: int| 0 <= t < self.wakers@.len() implies !#[trigger] self.holds_both(
                t,
            ) by {
                if t < token {
                    assert(!old(self).holds_both(t));
                }
            }
        }
        token as u64
    }

    /// Prepares a read of up to `len` bytes from `fd`. The entry handed out
    /// is to be queued on the ring with the buffer's address.
    pub fn read(&mut self, fd: i32, waker: Waker, len: usize) -> (entry: Submission)
        requires
            old(self).wf(),
        ensures
            final(self).wf(),
            final(self)@ == after_submit(old(self)@, fd, waker),
            entry == (Submission {
                opcode: Opcode::Read,
                fd,
                len: entry_len(len),
                token: old(self)@.len() as u64,
            }),
    {
        let token = self.register_waker(fd, waker);
        Submission { opcode: Opcode::Read, fd, len: len as u32, token }
    }

    /// Prepares a write of `len` bytes to `fd`.
    pub fn write(&mut self, fd: i32, waker: Waker, len: usize) -> (entry: Submission)
        requires
            old(self).wf(),
        ensures
            final(self).wf(),
            final(self)@ == after_submit(old(self)@, fd, waker),
            entry == (Submission {
                opcode: Opcode::Write,
                fd,
                len: entry_len(len),
                token: old(self)@.len() as u64,
            }),
    {
        let token = self.register_waker(fd, waker);
        Submission { opcode: Opcode::Write, fd, len: len as u32, token }
    }

    /// Prepares a vectored read from `fd` into `bufs_len` buffers.
    pub fn readv(&mut self, fd: i32, waker: Waker, bufs_len: usize) -> (entry: Submission)
        requires
            old(self).wf(),
        ensures
            final(self).wf(),
            final(self)@ == after_submit(old(self)@, fd, waker),
            entry == (Submission {
                opcode: Opcode::Readv,
                fd,
                len: entry_len(bufs_len),
                token: old(self)@.len() as u64,
            }),
    {
        let token = self.register_waker(fd, waker);
        Submission { opcode: Opcode::Readv, fd, len: bufs_len as u32, token }
    }

    /// Prepares a vectored write to `fd` from `bufs_len` buffers.
    pub fn writev(&mut self, fd: i32, waker: Waker, bufs_len: usize) -> (entry: Submission)
        requires
            old(self).wf(),
        ensures
            final(self).wf(),
            final(self)@ == after_submit(old(self)@, fd, waker),
            entry == (Submission {
                opcode: Opcode::Writev,
                fd,
                len: entry_len(bufs_len),
                token: old(self)@.len() as u64,
            }),
    {
        let token = self.register_waker(fd, waker);
        Submission { opcode: Opcode::Writev, fd, len: bufs_len as u32, token }
    }

    /// Prepares an `fsync` of `fd`.
    pub fn fsync(&mut self, fd: i32, waker: Waker) -> (entry: Submission)
        requires
            old(self).wf(),
        ensures
            final(self).wf(),
            final(self)@ == after_submit(old(self)@, fd, waker),
            entry == (Submission {
                opcode: Opcode::Fsync,
                fd,
                len: 0,
                token: old(self)@.len() as u64,
            }),
    {
        let token = self.register_waker(fd, waker);
        Submission { opcode: Opcode::Fsync, fd, len: 0, token }
    }

    /// Prepares an `accept` on the listening socket `fd`.
    pub fn accept(&mut self, fd: i32, waker: Waker) -> (entry: Submission)
        requires
            old(self).wf(),
        ensures
            final(self).wf(),
            final(self)@ == after_submit(old(self)@, fd, waker),
            entry == (Submission {
                opcode: Opcode::Accept,
                fd,
                len: 0,
                token: old(self)@.len() as u64,
            }),
    {
        let token = self.register_waker(fd, waker);
        Submission { opcode: Opcode::Accept, fd, len: 0, token }
    }

    /// Forgets every computation that waits on `fd`, for a descriptor that
    /// is being closed. The kernel operations are not cancelled; their
    /// completions will be late.
    pub fn unregister_fd(&mut self, fd: i32)
        requires
            old(self).wf(),
        ensures
            final(self).wf(),
            final(self).closes(old(self), fd),
    {
        let ghost listed = old(self).by_fd(fd);
        if let Some(tokens) = index_remove(&mut self.waker_mapping, fd) {
            let mut i: usize = 0;
            while i < tokens.len()
                invariant
                    i <= tokens.len(),
                    old(self).wf(),
                    tokens@ == listed,
                    listed == old(self).by_fd(fd),
                    self.waker_mapping@ == old(self).waker_mapping@.remove(fd),
                    self.tokens_completion_result == old(self).tokens_completion_result,
                    self.wakers@.len() == old(self).wakers@.len(),
                    forall|t: int|
                        0 <= t < self.wakers@.len() ==> #[trigger] self.wakers@[t] == (if holds(
                            listed.take(i as int),
                            t,
                        ) {
                            None
                        } else {
                            old(self).wakers@[t]
                        }),
                decreases tokens.len() - i,
            {
                let token = tokens[i];
                proof {
                    assert(holds(listed, token as int)) by {
                        assert(listed[i as int] == token);
                    }
                    assert(old(self).binds(token as int, fd));
                    assert(listed.take(i + 1) =~= listed.take(i as int).push(token));
                    assert forall|t: int|
                        holds(listed.take(i + 1), t) <==> holds(listed.take(i as int), t) || t
                            == token by {
                        lemma_holds_push(listed.take(i as int), token, t);
                    }
                }
                self.wakers[token] = None;
                i += 1;
            }
            proof {
                assert(listed.take(i as int) =~= listed);
            }
        }
        proof {
            assert forall|t: int| 0 <= t < self@.len() implies #[trigger] self@[t]
                == after_invalidate(old(self)@, fd)[t] by {
                assert(holds(listed, t) <==> old(self).binds(t, fd));
                assert(!old(self).holds_both(t));
            }
            assert(self@ =~= after_invalidate(old(self)@, fd));
            assert forall|other: i32, t: int| #[trigger]
                holds(self.by_fd(other), t) <==> self.binds(t, other) by {
                assert(holds(old(self).by_fd(other), t) <==> old(self).binds(t, other));
                if other != fd {
                    assert(self.by_fd(other) == old(self).by_fd(other));
                }
            }
            assert forall|t: int| 0 <= t < self.wakers@.len() implies !#[trigger] self.holds_both(
                t,
            ) by {
                assert(!old(self).holds_both(t));
            }
        }
    }

    /// Drains one completion. If a computation still waits for the token,
    /// the result is recorded and the computation's waker is handed out, to
    /// be invoked once. A late completion is dropped.
    pub fn complete(&mut self, completion: Completion) -> (waker: Option<Waker>)
        requires
            old(self).wf(),
            issued(old(self)@, completion.token),
        ensures
            final(self).wf(),
            final(self)@ == after_completion(old(self)@, completion),
            waker == woken_by(old(self)@, completion),
    {
        proof {
            assert(self@.len() == self.wakers.len());
        }
        let token = completion.token as usize;
        match self.wakers[token].take() {
            None => {
                proof {
                    assert(self.wakers@ =~= old(self).wakers@);
                    assert(self@ =~= old(self)@);
                    assert forall|other: i32, t: int| #[trigger]
                        holds(self.by_fd(other), t) <==> self.binds(t, other) by {
                        assert(holds(old(self).by_fd(other), t) <==> old(self).binds(t, other));
                    }
                    assert forall|t: int| 0 <= t < self.wakers@.len() implies !#[trigger] self.holds_both(
                        t,
                    ) by {
                        assert(!old(self).holds_both(t));
                    }
                }
                None
            },
            Some((fd, waker)) => {
                proof {
                    assert(old(self).binds(token as int, fd));
                    assert(holds(old(self).by_fd(fd), token as int));
                }
                if let Some(tokens) = index_remove(&mut self.waker_mapping, fd) {
                    let kept = without(&tokens, token);
                    index_insert(&mut self.waker_mapping, fd, kept);
                }
                self.tokens_completion_result[token] = Some(completion.result);
                proof {
                    assert(self@ =~= after_completion(old(self)@, completion));
                    assert forall|other: i32, t: int| #[trigger]
                        holds(self.by_fd(other), t) <==> self.binds(t, other) by {
                        assert(holds(old(self).by_fd(other), t) <==> old(self).binds(t, other));
                        if other != fd {
                            assert(self.by_fd(other) == old(self).by_fd(other));
                        }
                    }
                    assert forall|t: int| 0 <= t < self.wakers@.len() implies !#[trigger] self.holds_both(
                        t,
                    ) by {
                        assert(!old(self).holds_both(t));
                    }
                }
                Some(waker)
            },
        }
    }

    /// Drains a batch of completions in order and hands out the wakers to
    /// invoke, one for each completion that was on time.
    pub fn wait(&mut self, completions: &[Completion]) -> (wakers: Vec<Waker>)
        requires
            old(self).wf(),
            forall|i: int|
                0 <= i < completions@.len() ==> issued(old(self)@, (#[trigger] completions@[i]).token),
        ensures
            final(self).wf(),
            final(self)@ == after_drain(old(self)@, completions@),
            final(self)@.len() == old(self)@.len(),
            wakers@ == woken(old(self)@, completions@),
            wakers@.len() == on_time_count(old(self)@, completions@),
    {
        let mut wakers: Vec<Waker> = Vec::new();
        let mut i: usize = 0;
        while i < completions.len()
            invariant
                i <= completions@.len(),
                self.wf(),
                self@.len() == old(self)@.len(),
                forall|i: int|
                    0 <= i < completions@.len() ==> issued(
                        old(self)@,
                        (#[trigger] completions@[i]).token,
                    ),
                self@ == after_drain(old(self)@, completions@.take(i as int)),
                wakers@ == woken(old(self)@, completions@.take(i as int)),
            decreases completions@.len() - i,
        {
            proof {
                assert(completions@.take(i + 1).drop_last() =~= completions@.take(i as int));
            }
            if let Some(waker) = self.complete(completions[i]) {
                wakers.push(waker);
            }
            i += 1;
        }
        proof {
            assert(completions@.take(i as int) =~= completions@);
            crate::slots::lemma_one_waker_per_on_time_completion(old(self)@, completions@);
        }
        wakers
    }

    /// Whether no computation waits for a completion: pumping the ring
    /// would resume nobody.
    pub fn is_idle(&self) -> (none_waits: bool)
        ensures
            none_waits == idle(self@),
    {
        let mut i: usize = 0;
        while i < self.wakers.len()
            invariant
                i <= self.wakers@.len(),
                forall|t: int| 0 <= t < i ==> (#[trigger] self.wakers@[t]) is None,
            decreases self.wakers@.len() - i,
        {
            if self.wakers[i].is_some() {
                proof {
                    assert(self@[i as int] is Waiting);
                }
                return false;
            }
            i += 1;
        }
        proof {
            assert forall|t: int| 0 <= t < self@.len() implies !((#[trigger] self@[t]) is Waiting) by {
                assert(self.wakers@[t] is None);
            }
        }
        true
    }

    /// Whether the completion of `token` has arrived and its result has not
    /// been consumed.
    pub fn is_token_completion(&self, token: u64) -> (arrived: bool)
        requires
            self.wf(),
            issued(self@, token),
        ensures
            arrived == (result_at(self@, token) is Some),
    {
        proof {
            assert(self@.len() == self.wakers.len());
            assert(!self.holds_both(token as int));
        }
        self.tokens_completion_result[token as usize].is_some()
    }

    /// Hands out the result of `token` if its completion has arrived, and
    /// forgets it: the next call for the same token finds none.
    pub fn take_token_result(&mut self, token: u64) -> (result: Option<i32>)
        requires
            old(self).wf(),
            issued(old(self)@, token),
        ensures
            final(self).wf(),
            result == result_at(old(self)@, token),
            final(self)@ == after_take(old(self)@, token),
    {
        proof {
            assert(self@.len() == self.wakers.len());
            assert(!self.holds_both(token as int));
        }
        let result = self.tokens_completion_result[token as usize].take();
        proof {
            if result is None {
                assert(self.tokens_completion_result@ =~= old(self).tokens_completion_result@);
            }
            assert(self@ =~= after_take(old(self)@, token));
            assert forall|fd: i32, t: int| #[trigger]
                holds(self.by_fd(fd), t) <==> self.binds(t, fd) by {
                assert(holds(old(self).by_fd(fd), t) <==> old(self).binds(t, fd));
            }
            assert forall|t: int| 0 <= t < self.wakers@.len() implies !#[trigger] self.holds_both(
                t,
            ) by {
                assert(!old(self).holds_both(t));
            }
        }
        result
    }
}

impl Default for Reactor {
    fn default() -> (reactor: Reactor)
        ensures
            reactor.wf(),
            reactor@ == Seq::<Slot>::empty(),
    {
        Reactor::new()
    }
}

} // verus!
