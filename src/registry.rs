use vstd::prelude::*;

verus! {

/// The elements of `s` whose send succeeded, in their order: `ok[i]` tells
/// whether `s[i]` was delivered to.
pub open spec fn survivors<C>(s: Seq<C>, ok: Seq<bool>) -> Seq<C>
    decreases s.len(),
{
    if s.len() == 0 {
        Seq::empty()
    } else {
        let rest = survivors(s.drop_last(), ok.drop_last());
        if ok.last() {
            rest.push(s.last())
        } else {
            rest
        }
    }
}

/// Number of failed sends in `ok`.
pub open spec fn failures(ok: Seq<bool>) -> nat
    decreases ok.len(),
{
    if ok.len() == 0 {
        0
    } else {
        failures(ok.drop_last()) + if ok.last() {
            0nat
        } else {
            1nat
        }
    }
}

/// A broadcast that reached every attempted connection but `failures(ok)`
/// of them leaves exactly the rest registered, so the next broadcast makes
/// that many fewer send attempts.
pub proof fn lemma_broadcast_prunes_failures<C>(s: Seq<C>, ok: Seq<bool>)
    requires
        s.len() == ok.len(),
    ensures
        survivors(s, ok).len() == s.len() - failures(ok),
        failures(ok) <= s.len(),
    decreases s.len(),
{
    if s.len() > 0 {
        lemma_broadcast_prunes_failures(s.drop_last(), ok.drop_last());
    }
}

/// The live subscriber connections, in order of registration.
pub struct Registry<C> {
    conns: Vec<C>,
}

impl<C> Registry<C> {
    /// The registered connections, oldest first.
    pub closed spec fn view(&self) -> Seq<C> {
        self.conns@
    }

    /// A registry with no connection.
    pub fn new() -> (r: Registry<C>)
        ensures
            r@ == Seq::<C>::empty(),
    {
        Registry { conns: Vec::new() }
    }

    /// Adds `conn` to the live set; it takes part in every later broadcast.
    pub fn register(&mut self, conn: C)
        ensures
            final(self)@ == old(self)@.push(conn),
    {
        self.conns.push(conn);
    }

    /// Number of live connections.
    pub fn len(&self) -> (r: usize)
        ensures
            r == self@.len(),
    {
        self.conns.len()
    }

    /// Starts a broadcast: hands out every live connection, in order, for one
    /// send attempt each. Connections registered before the broadcast is
    /// finished are kept but not part of this one.
    pub fn begin_broadcast(&mut self) -> (r: Vec<C>)
        ensures
            r@ == old(self)@,
            final(self)@ == Seq::<C>::empty(),
    {
        let mut out: Vec<C> = Vec::new();
        std::mem::swap(&mut out, &mut self.conns);
        out
    }

    /// Ends a broadcast: `delivered[i]` tells whether the send to
    /// `attempted[i]` succeeded. The connections that failed are dropped;
    /// those that succeeded come first, in their order, then those registered
    /// meanwhile.
    pub fn finish_broadcast(&mut self, attempted: Vec<C>, delivered: &Vec<bool>)
        requires
            attempted@.len() == delivered@.len(),
        ensures
            final(self)@ == survivors(attempted@, delivered@) + old(self)@,
    {
        let ghost all = attempted@;
        let ghost oks = delivered@;
        let mut rest = attempted;
        let mut kept_rev: Vec<C> = Vec::new();
        let ghost tail: Seq<C> = Seq::empty();
        assert(oks.subrange(0, rest@.len() as int) =~= oks);
        assert(all.subrange(0, rest@.len() as int) =~= all);
        assert(survivors(all, oks) + tail =~= survivors(all, oks));
        while rest.len() > 0
            invariant
                all.len() == oks.len(),
                oks == delivered@,
                rest@.len() <= all.len(),
                rest@ == all.subrange(0, rest@.len() as int),
                survivors(all, oks) == survivors(rest@, oks.subrange(0, rest@.len() as int)) + tail,
                kept_rev@.len() == tail.len(),
                forall|j: int| 0 <= j < tail.len() ==> #[trigger] kept_rev@[j] == tail[tail.len() - 1 - j],
            decreases rest@.len(),
        {
            let ghost n = rest@.len() as int;
            let ghost pre = rest@;
            let c = rest.pop().unwrap();
            let i = rest.len();
            proof {
                assert(pre.drop_last() =~= rest@);
                assert(oks.subrange(0, n).drop_last() =~= oks.subrange(0, i as int));
                assert(rest@ =~= all.subrange(0, i as int));
            }
            if delivered[i] {
                proof {
                    assert(survivors(all, oks) =~= survivors(rest@, oks.subrange(0, i as int)) + (
                    seq![c] + tail));
                    tail = seq![c] + tail;
                }
                kept_rev.push(c);
            }
        }
        proof {
            assert(survivors(all, oks) =~= tail);
        }
        let mut kept: Vec<C> = Vec::new();
        while kept_rev.len() > 0
            invariant
                kept_rev@.len() + kept@.len() == tail.len(),
                kept@ == tail.subrange(0, kept@.len() as int),
                forall|j: int| 0 <= j < kept_rev@.len() ==> #[trigger] kept_rev@[j] == tail[tail.len() - 1 - j],
            decreases kept_rev@.len(),
        {
            let c = kept_rev.pop().unwrap();
            kept.push(c);
            assert(kept@ =~= tail.subrange(0, kept@.len() as int));
        }
        kept.append(&mut self.conns);
        self.conns = kept;
    }
}

} // verus!
