use futures_core::task::Poll;
use vstd::prelude::*;

verus! {

/// The one failure that belongs to the chain itself.
#[derive(Debug, Clone, Copy, PartialEq, Eq, Structural)]
pub enum ChainError {
    /// The chain was polled again after it had handed back its final value.
    ReEntryAfterCompletion,
}

/// A first computation followed by a second one that is built from its output.
///
/// Exactly one phase is occupied at a time: the first computation with the data
/// that is waiting for it, the second computation, or nothing at all once the
/// first has been released and before the second exists, and again after the
/// second has completed.
pub enum Chain<Fut1, Fut2, Data> {
    First(Fut1, Data),
    Second(Fut2),
    Empty,
}

impl<Fut1, Fut2, Data> Chain<Fut1, Fut2, Data> {
    /// The position of a state in the order `First`, `Second`, `Empty`.
    pub open spec fn phase(self) -> nat {
        match self {
            Chain::First(..) => 0,
            Chain::Second(..) => 1,
            Chain::Empty => 2,
        }
    }

    /// What every poll guarantees between the state `before` the call, the state
    /// `after` it and its result `r`, whatever the inner computations did.
    pub open spec fn poll_step<O>(before: Self, after: Self, r: Result<Poll<O>, ChainError>) -> bool {
        &&& before.phase() <= after.phase()
        &&& (before is Empty <==> r is Err)
        &&& (r is Err ==> r == Err::<Poll<O>, ChainError>(ChainError::ReEntryAfterCompletion) && after is Empty)
        &&& (r matches Ok(Poll::Ready(_)) ==> after is Empty)
        &&& (r matches Ok(Poll::Pending) ==> !(after is Empty))
        &&& (before is First && after is First ==> after->First_1 == before->First_1)
    }

    /// The step from `before` to `after` leaves the first phase: the first
    /// computation completed, and the continuation ran.
    pub open spec fn hands_off(before: Self, after: Self) -> bool {
        before is First && !(after is First)
    }

    /// `states` and `results` record a run of polls: the `k`-th poll took the
    /// chain from `states[k]` to `states[k + 1]` and returned `results[k]`.
    pub open spec fn is_run<O>(states: Seq<Self>, results: Seq<Result<Poll<O>, ChainError>>) -> bool {
        &&& states.len() == results.len() + 1
        &&& forall|k: int| 0 <= k < results.len() ==> Self::poll_step(states[k], states[k + 1], #[trigger] results[k])
    }

    /// The state and result that follow when a poll of the second computation
    /// gave `r2` and left that computation as `fut2`.
    pub open spec fn after_second<O>(r2: Poll<O>, fut2: Fut2, after: Self, r: Result<Poll<O>, ChainError>) -> bool {
        match r2 {
            Poll::Pending => after == Chain::<Fut1, Fut2, Data>::Second(fut2) && r == Ok::<Poll<O>, ChainError>(Poll::Pending),
            Poll::Ready(v) => after is Empty && r == Ok::<Poll<O>, ChainError>(Poll::Ready(v)),
        }
    }

    /// Starts a chain in its first phase; nothing is polled yet.
    pub fn new(fut1: Fut1, data: Data) -> (r: Self)
        ensures
            r == Chain::<Fut1, Fut2, Data>::First(fut1, data),
    {
        Chain::First(fut1, data)
    }

    /// Polls the second computation where it stands, and retires the chain once
    /// that computation is ready.
    fn poll_second_in_place<Cx, O2, P2>(&mut self, cx: &mut Cx, poll_second: P2) -> (r: Result<Poll<O2>, ChainError>)
        where
            P2: FnOnce(&mut Fut2, &mut Cx) -> Poll<O2>,
        requires
            *old(self) is Second,
            forall|x: &mut Fut2, y: &mut Cx| poll_second.requires((x, y)),
        ensures
            exists|x: &mut Fut2, y: &mut Cx, r2: Poll<O2>|
                poll_second.ensures((x, y), r2) && *x == (*old(self))->Second_0
                    && Self::after_second(r2, *final(x), *final(self), r),
    {
        let r2 = match self {
            Chain::Second(fut2) => poll_second(fut2, cx),
            _ => Poll::Pending,
        };
        match r2 {
            Poll::Ready(v) => {
                *self = Chain::Empty;
                Ok(Poll::Ready(v))
            },
            Poll::Pending => Ok(Poll::Pending),
        }
    }

    /// Releases the first computation and hands back the data that waited for it.
    fn release_first(fut1: Fut1, data: Data) -> (d: Data)
        ensures
            d == data,
    {
        let _released = fut1;
        data
    }

    /// Leaves the first phase: the first computation is released, the chain stands
    /// empty while the continuation builds the second computation from `output`
    /// and the data, and then holds that second computation.
    fn hand_off<O1, F>(&mut self, output: O1, async_op: F)
        where
            F: FnOnce(O1, Data) -> Fut2,
        requires
            *old(self) is First,
            async_op.requires((output, (*old(self))->First_1)),
        ensures
            exists|fut2: Fut2|
                async_op.ensures((output, (*old(self))->First_1), fut2)
                    && *final(self) == Chain::<Fut1, Fut2, Data>::Second(fut2),
    {
        let mut taken = Chain::Empty;
        core::mem::swap(self, &mut taken);
        if let Chain::First(fut1, data) = taken {
            let data = Self::release_first(fut1, data);
            let fut2 = async_op(output, data);
            *self = Chain::Second(fut2);
        }
    }

    /// Drives the chain one step with the context `cx`.
    ///
    /// In the first phase the first computation is polled with `poll_first`. If it
    /// is still pending, so is the chain, and nothing else is touched. If it is
    /// ready, the chain hands off (see above) by calling `async_op` once with its
    /// output and the data, and polls the new second computation at once. In the
    /// second phase the second computation is polled with `poll_second` and its
    /// answer is returned as it is; once that answer is ready the chain is spent,
    /// and any further poll fails with `ReEntryAfterCompletion`.
    pub fn poll<Cx, O1, O2, P1, P2, F>(
        &mut self,
        cx: &mut Cx,
        poll_first: P1,
        poll_second: P2,
        async_op: F,
    ) -> (r: Result<Poll<O2>, ChainError>)
        where
            P1: FnOnce(&mut Fut1, &mut Cx) -> Poll<O1>,
            P2: FnOnce(&mut Fut2, &mut Cx) -> Poll<O2>,
            F: FnOnce(O1, Data) -> Fut2,
        requires
            *old(self) is First ==> forall|x: &mut Fut1, y: &mut Cx|
                *x == (*old(self))->First_0 && *y == *old(cx) ==> poll_first.requires((x, y)),
            *old(self) is First ==> forall|x: &mut Fut1, y: &mut Cx, o: O1|
                *x == (*old(self))->First_0 && poll_first.ensures((x, y), Poll::Ready(o))
                    ==> async_op.requires((o, (*old(self))->First_1)),
            forall|x: &mut Fut2, y: &mut Cx| poll_second.requires((x, y)),
        ensures
            Self::poll_step(*old(self), *final(self), r),
            *old(self) is First ==> exists|x: &mut Fut1, y: &mut Cx, r1: Poll<O1>|
                poll_first.ensures((x, y), r1) && *x == (*old(self))->First_0 && match r1 {
                    Poll::Pending => r == Ok::<Poll<O2>, ChainError>(Poll::Pending)
                        && *final(self) == Chain::<Fut1, Fut2, Data>::First(*final(x), (*old(self))->First_1),
                    Poll::Ready(o) => exists|fut2: Fut2, x2: &mut Fut2, y2: &mut Cx, r2: Poll<O2>|
                        async_op.ensures((o, (*old(self))->First_1), fut2)
                            && poll_second.ensures((x2, y2), r2) && *x2 == fut2
                            && Self::after_second(r2, *final(x2), *final(self), r),
                },
            *old(self) is Second ==> exists|x: &mut Fut2, y: &mut Cx, r2: Poll<O2>|
                poll_second.ensures((x, y), r2) && *x == (*old(self))->Second_0
                    && Self::after_second(r2, *final(x), *final(self), r),
    {
        let r1 = match self {
            Chain::First(fut1, _) => poll_first(fut1, cx),
            Chain::Second(_) => {
                return self.poll_second_in_place(cx, poll_second);
            },
            Chain::Empty => {
                return Err(ChainError::ReEntryAfterCompletion);
            },
        };
        match r1 {
            Poll::Pending => Ok(Poll::Pending),
            Poll::Ready(output) => {
                self.hand_off(output, async_op);
                self.poll_second_in_place(cx, poll_second)
            },
        }
    }

    /// Along a run of polls the phase never goes back.
    pub proof fn lemma_phase_monotone<O>(states: Seq<Self>, results: Seq<Result<Poll<O>, ChainError>>, i: int, j: int)
        requires
            Self::is_run(states, results),
            0 <= i <= j < states.len(),
        ensures
            states[i].phase() <= states[j].phase(),
        decreases j - i,
    {
        if i < j {
            assert(Self::poll_step(states[j - 1], states[j], results[j - 1]));
            Self::lemma_phase_monotone(states, results, i, j - 1);
        }
    }

    /// Along a run of polls the chain leaves its first phase at most once, so the
    /// continuation, which runs only on that step, runs at most once.
    pub proof fn lemma_hand_off_at_most_once<O>(
        states: Seq<Self>,
        results: Seq<Result<Poll<O>, ChainError>>,
        i: int,
        j: int,
    )
        requires
            Self::is_run(states, results),
            0 <= i < results.len(),
            0 <= j < results.len(),
            Self::hands_off(states[i], states[i + 1]),
            Self::hands_off(states[j], states[j + 1]),
        ensures
            i == j,
    {
        assert(Self::poll_step(states[i], states[i + 1], results[i]));
        assert(Self::poll_step(states[j], states[j + 1], results[j]));
        if i < j {
            Self::lemma_phase_monotone(states, results, i + 1, j);
        } else if j < i {
            Self::lemma_phase_monotone(states, results, j + 1, i);
        }
    }

    /// Along a run of polls in which the first computation never completes, the
    /// chain stays in its first phase, every poll answers pending, and the data
    /// stays where it was, untouched.
    pub proof fn lemma_pending_keeps_data<O>(
        states: Seq<Self>,
        results: Seq<Result<Poll<O>, ChainError>>,
        k: int,
    )
        requires
            Self::is_run(states, results),
            states[0] is First,
            forall|m: int| 0 <= m < results.len() ==> !Self::hands_off(#[trigger] states[m], states[m + 1]),
            0 <= k < states.len(),
        ensures
            states[k] is First,
            states[k]->First_1 == states[0]->First_1,
            k < results.len() ==> results[k] == Ok::<Poll<O>, ChainError>(Poll::Pending),
        decreases k,
    {
        if k > 0 {
            Self::lemma_pending_keeps_data(states, results, k - 1);
            assert(Self::poll_step(states[k - 1], states[k], results[k - 1]));
            assert(!Self::hands_off(states[k - 1], states[k]));
        }
        if k < results.len() {
            assert(Self::poll_step(states[k], states[k + 1], results[k]));
            assert(!Self::hands_off(states[k], states[k + 1]));
        }
    }

    /// Once a poll has handed back the final value, the next poll reports
    /// re-entry and the chain stays spent.
    pub proof fn lemma_no_poll_after_ready<O>(
        s0: Self,
        s1: Self,
        s2: Self,
        r1: Result<Poll<O>, ChainError>,
        r2: Result<Poll<O>, ChainError>,
    )
        requires
            Self::poll_step(s0, s1, r1),
            Self::poll_step(s1, s2, r2),
            r1 matches Ok(Poll::Ready(_)),
        ensures
            r2 == Err::<Poll<O>, ChainError>(ChainError::ReEntryAfterCompletion),
            s2 is Empty,
    {
    }
}

} // verus!
