use crate::backend::{
    applied_balance, applied_code, applied_exists, applied_nonce, applied_slot, balance_sem,
    code_sem, exists_sem, nonce_sem, slot_sem, Address, Apply, Log, MemoryAccount, MemoryBackend,
};
use crate::executor::{Location, RwSet};
use crate::uint::U256;
use vstd::prelude::*;

verus! {

/// One speculative transaction attempt, ready for commit-time validation:
/// its assigned serial position, the read-set/write-set it recorded, and
/// the changeset and logs its execution produced. A simulation attempt is
/// never published.
pub struct Candidate {
    pub position: usize,
    pub rw: RwSet,
    pub effects: Vec<Apply>,
    pub logs: Vec<Log>,
    pub simulation: bool,
}

/// An observed read agrees with an account list: the location holds the
/// value the transaction saw.
pub open spec fn read_matches(
    b: Seq<(Address, MemoryAccount)>,
    loc: Location,
    v: nat,
) -> bool {
    match loc {
        Location::Basic(a) => balance_sem(b, a@) == v,
        Location::Storage(a, k) => slot_sem(b, a@, k@) == v,
    }
}

/// Every observed read of a read-set agrees with an account list.
pub open spec fn reads_valid(b: Seq<(Address, MemoryAccount)>, reads: Seq<(Location, U256)>) -> bool {
    forall|i: int| 0 <= i < reads.len() ==> read_matches(b, (#[trigger] reads[i]).0, reads[i].1@)
}

/// Commit-time validation: a candidate may commit only if every location
/// in its read-set still holds, in the store as left by all
/// earlier-positioned commits, exactly the value the candidate observed.
pub fn validate_read_set(rw: &RwSet, backend: &MemoryBackend) -> (r: bool)
    requires
        backend.wf(),
    ensures
        r == reads_valid(backend.accounts@, rw.reads@),
{
    let mut i: usize = 0;
    while i < rw.reads.len()
        invariant
            i <= rw.reads@.len(),
            backend.wf(),
            forall|j: int|
                0 <= j < i ==> read_matches(
                    backend.accounts@,
                    (#[trigger] rw.reads@[j]).0,
                    rw.reads@[j].1@,
                ),
        decreases rw.reads@.len() - i,
    {
        let ok = match &rw.reads[i].0 {
            Location::Basic(a) => backend.balance(a).eq_value(&rw.reads[i].1),
            Location::Storage(a, k) => backend.storage(a, k).eq_value(&rw.reads[i].1),
        };
        if !ok {
            return false;
        }
        i += 1;
    }
    true
}

/// The address one changeset entry touches.
pub open spec fn apply_target(c: Apply) -> nat {
    match c {
        Apply::Modify { address, .. } => address@,
        Apply::Delete { address } => address@,
    }
}

/// Whether a changeset touches an address at all.
pub open spec fn touches(chs: Seq<Apply>, a: nat) -> bool {
    exists|i: int| 0 <= i < chs.len() && apply_target(#[trigger] chs[i]) == a
}

/// Appending entries that do not touch an address leaves that address's
/// outcome unchanged.
pub proof fn lemma_applied_append_frame(
    s0: Seq<(Address, MemoryAccount)>,
    d: Seq<Apply>,
    e: Seq<Apply>,
    de: bool,
    a: nat,
)
    requires
        !touches(e, a),
    ensures
        applied_exists(s0, d + e, de, a) == applied_exists(s0, d, de, a),
        applied_nonce(s0, d + e, de, a) == applied_nonce(s0, d, de, a),
        applied_balance(s0, d + e, de, a) == applied_balance(s0, d, de, a),
        applied_code(s0, d + e, de, a) == applied_code(s0, d, de, a),
        forall|k: nat| applied_slot(s0, d + e, de, a, k) == applied_slot(s0, d, de, a, k),
    decreases e.len(),
{
    if e.len() == 0 {
        assert(d + e =~= d);
    } else {
        let e1 = e.drop_last();
        assert(!touches(e1, a)) by {
            if touches(e1, a) {
                let i = choose|i: int| 0 <= i < e1.len() && apply_target(e1[i]) == a;
                assert(apply_target(e[i]) == a);
            }
        }
        assert(apply_target(e.last()) != a) by {
            assert(e[e.len() - 1] == e.last());
        }
        lemma_applied_append_frame(s0, d, e1, de, a);
        assert((d + e).drop_last() =~= d + e1);
        assert((d + e).last() == e.last());
        assert forall|k: nat|
            applied_slot(s0, d + e, de, a, k) == applied_slot(s0, d, de, a, k) by {
            assert(applied_slot(s0, d + e1, de, a, k) == applied_slot(s0, d, de, a, k));
        }
    }
}

/// The base-state reads of a changeset's semantics go only through the
/// semantic projections: a state that agrees pointwise with the fold of
/// `chs1` continues the fold. So applying `chs2` to it equals applying the
/// concatenation to the original base.
pub proof fn lemma_applied_compose(
    s0: Seq<(Address, MemoryAccount)>,
    s1: Seq<(Address, MemoryAccount)>,
    chs1: Seq<Apply>,
    chs2: Seq<Apply>,
    de: bool,
)
    requires
        forall|a: nat| exists_sem(s1, a) == applied_exists(s0, chs1, de, a),
        forall|a: nat| nonce_sem(s1, a) == applied_nonce(s0, chs1, de, a),
        forall|a: nat| balance_sem(s1, a) == applied_balance(s0, chs1, de, a),
        forall|a: nat| code_sem(s1, a) == applied_code(s0, chs1, de, a),
        forall|a: nat, k: nat| slot_sem(s1, a, k) == applied_slot(s0, chs1, de, a, k),
    ensures
        forall|a: nat| applied_exists(s1, chs2, de, a) == applied_exists(s0, chs1 + chs2, de, a),
        forall|a: nat| applied_nonce(s1, chs2, de, a) == applied_nonce(s0, chs1 + chs2, de, a),
        forall|a: nat| applied_balance(s1, chs2, de, a) == applied_balance(s0, chs1 + chs2, de, a),
        forall|a: nat| applied_code(s1, chs2, de, a) == applied_code(s0, chs1 + chs2, de, a),
        forall|a: nat, k: nat|
            applied_slot(s1, chs2, de, a, k) == applied_slot(s0, chs1 + chs2, de, a, k),
    decreases chs2.len(),
{
    if chs2.len() == 0 {
        assert(chs1 + chs2 =~= chs1);
        assert forall|a: nat|
            applied_exists(s1, chs2, de, a) == applied_exists(s0, chs1 + chs2, de, a)
                && applied_nonce(s1, chs2, de, a) == applied_nonce(s0, chs1 + chs2, de, a)
                && applied_balance(s1, chs2, de, a) == applied_balance(s0, chs1 + chs2, de, a)
                && applied_code(s1, chs2, de, a) == applied_code(s0, chs1 + chs2, de, a) by {
            assert(applied_exists(s1, chs2, de, a) == exists_sem(s1, a));
        }
        assert forall|a: nat, k: nat|
            applied_slot(s1, chs2, de, a, k) == applied_slot(s0, chs1 + chs2, de, a, k) by {
            assert(applied_slot(s1, chs2, de, a, k) == slot_sem(s1, a, k));
        }
    } else {
        let c2 = chs2.drop_last();
        lemma_applied_compose(s0, s1, chs1, c2, de);
        assert((chs1 + chs2).drop_last() =~= chs1 + c2);
        assert((chs1 + chs2).last() == chs2.last());
        assert forall|a: nat|
            applied_exists(s1, chs2, de, a) == applied_exists(s0, chs1 + chs2, de, a)
                && applied_nonce(s1, chs2, de, a) == applied_nonce(s0, chs1 + chs2, de, a)
                && applied_balance(s1, chs2, de, a) == applied_balance(s0, chs1 + chs2, de, a)
                && applied_code(s1, chs2, de, a) == applied_code(s0, chs1 + chs2, de, a) by {
            assert(applied_exists(s1, c2, de, a) == applied_exists(s0, chs1 + c2, de, a));
            assert(applied_nonce(s1, c2, de, a) == applied_nonce(s0, chs1 + c2, de, a));
            assert(applied_balance(s1, c2, de, a) == applied_balance(s0, chs1 + c2, de, a));
            assert(applied_code(s1, c2, de, a) == applied_code(s0, chs1 + c2, de, a));
        }
        assert forall|a: nat, k: nat|
            applied_slot(s1, chs2, de, a, k) == applied_slot(s0, chs1 + chs2, de, a, k) by {
            assert(applied_slot(s1, c2, de, a, k) == applied_slot(s0, chs1 + c2, de, a, k));
            assert(applied_code(s1, c2, de, a) == applied_code(s0, chs1 + c2, de, a));
            assert(applied_exists(s1, c2, de, a) == applied_exists(s0, chs1 + c2, de, a));
            assert(applied_nonce(s1, c2, de, a) == applied_nonce(s0, chs1 + c2, de, a));
            assert(applied_balance(s1, c2, de, a) == applied_balance(s0, chs1 + c2, de, a));
        }
    }
}

/// Two changesets with disjoint touch-sets commute: either order of
/// application yields the same outcome at every address.
pub proof fn lemma_apply_commutes(
    s0: Seq<(Address, MemoryAccount)>,
    c1: Seq<Apply>,
    c2: Seq<Apply>,
    de: bool,
)
    requires
        forall|a: nat| !(touches(c1, a) && touches(c2, a)),
    ensures
        forall|a: nat| applied_exists(s0, c1 + c2, de, a) == applied_exists(s0, c2 + c1, de, a),
        forall|a: nat| applied_nonce(s0, c1 + c2, de, a) == applied_nonce(s0, c2 + c1, de, a),
        forall|a: nat| applied_balance(s0, c1 + c2, de, a) == applied_balance(s0, c2 + c1, de, a),
        forall|a: nat| applied_code(s0, c1 + c2, de, a) == applied_code(s0, c2 + c1, de, a),
        forall|a: nat, k: nat|
            applied_slot(s0, c1 + c2, de, a, k) == applied_slot(s0, c2 + c1, de, a, k),
{
    assert forall|a: nat|
        applied_exists(s0, c1 + c2, de, a) == applied_exists(s0, c2 + c1, de, a) && applied_nonce(
            s0,
            c1 + c2,
            de,
            a,
        ) == applied_nonce(s0, c2 + c1, de, a) && applied_balance(s0, c1 + c2, de, a)
        == applied_balance(s0, c2 + c1, de, a) && applied_code(s0, c1 + c2, de, a) == applied_code(
            s0,
            c2 + c1,
            de,
            a,
        ) by {
        lemma_apply_commutes_at(s0, c1, c2, de, a);
    }
    assert forall|a: nat, k: nat|
        applied_slot(s0, c1 + c2, de, a, k) == applied_slot(s0, c2 + c1, de, a, k) by {
        lemma_apply_commutes_at(s0, c1, c2, de, a);
    }
}

/// One address of the commutation argument: the address is touched by at
/// most one of the two changesets, and the other one frames around it.
pub proof fn lemma_apply_commutes_at(
    s0: Seq<(Address, MemoryAccount)>,
    c1: Seq<Apply>,
    c2: Seq<Apply>,
    de: bool,
    a: nat,
)
    requires
        !(touches(c1, a) && touches(c2, a)),
    ensures
        applied_exists(s0, c1 + c2, de, a) == applied_exists(s0, c2 + c1, de, a),
        applied_nonce(s0, c1 + c2, de, a) == applied_nonce(s0, c2 + c1, de, a),
        applied_balance(s0, c1 + c2, de, a) == applied_balance(s0, c2 + c1, de, a),
        applied_code(s0, c1 + c2, de, a) == applied_code(s0, c2 + c1, de, a),
        forall|k: nat| applied_slot(s0, c1 + c2, de, a, k) == applied_slot(s0, c2 + c1, de, a, k),
{
    if !touches(c2, a) {
        lemma_applied_append_frame(s0, c1, c2, de, a);
        lemma_applied_prepend_frame(s0, c2, c1, de, a);
        assert forall|k: nat|
            applied_slot(s0, c1 + c2, de, a, k) == applied_slot(s0, c2 + c1, de, a, k) by {
            assert(applied_slot(s0, c1 + c2, de, a, k) == applied_slot(s0, c1, de, a, k));
            assert(applied_slot(s0, c2 + c1, de, a, k) == applied_slot(s0, c1, de, a, k));
        }
    } else {
        lemma_applied_append_frame(s0, c2, c1, de, a);
        lemma_applied_prepend_frame(s0, c1, c2, de, a);
        assert forall|k: nat|
            applied_slot(s0, c1 + c2, de, a, k) == applied_slot(s0, c2 + c1, de, a, k) by {
            assert(applied_slot(s0, c2 + c1, de, a, k) == applied_slot(s0, c2, de, a, k));
            assert(applied_slot(s0, c1 + c2, de, a, k) == applied_slot(s0, c2, de, a, k));
        }
    }
}

/// Prepending entries that do not touch an address leaves that address's
/// outcome unchanged.
pub proof fn lemma_applied_prepend_frame(
    s0: Seq<(Address, MemoryAccount)>,
    e: Seq<Apply>,
    d: Seq<Apply>,
    de: bool,
    a: nat,
)
    requires
        !touches(e, a),
    ensures
        applied_exists(s0, e + d, de, a) == applied_exists(s0, d, de, a),
        applied_nonce(s0, e + d, de, a) == applied_nonce(s0, d, de, a),
        applied_balance(s0, e + d, de, a) == applied_balance(s0, d, de, a),
        applied_code(s0, e + d, de, a) == applied_code(s0, d, de, a),
        forall|k: nat| applied_slot(s0, e + d, de, a, k) == applied_slot(s0, d, de, a, k),
    decreases d.len(),
{
    if d.len() == 0 {
        assert(e + d =~= e);
        lemma_applied_append_frame(s0, Seq::empty(), e, de, a);
        assert(Seq::<Apply>::empty() + e =~= e);
        assert forall|k: nat|
            applied_slot(s0, e + d, de, a, k) == applied_slot(s0, d, de, a, k) by {
            assert(applied_slot(s0, Seq::<Apply>::empty() + e, de, a, k) == applied_slot(
                s0,
                Seq::empty(),
                de,
                a,
                k,
            ));
            assert(applied_slot(s0, Seq::empty(), de, a, k) == slot_sem(s0, a, k));
            assert(applied_slot(s0, d, de, a, k) == slot_sem(s0, a, k));
        }
    } else {
        let d1 = d.drop_last();
        lemma_applied_prepend_frame(s0, e, d1, de, a);
        assert((e + d).drop_last() =~= e + d1);
        assert((e + d).last() == d.last());
        assert forall|k: nat|
            applied_slot(s0, e + d, de, a, k) == applied_slot(s0, d, de, a, k) by {
            assert(applied_slot(s0, e + d1, de, a, k) == applied_slot(s0, d1, de, a, k));
        }
    }
}

/// A candidate's read-set, judged against the fold of the effects already
/// committed before it.
pub open spec fn reads_valid_applied(
    s0: Seq<(Address, MemoryAccount)>,
    pre: Seq<Apply>,
    reads: Seq<(Location, U256)>,
) -> bool {
    forall|i: int|
        0 <= i < reads.len() ==> (match (#[trigger] reads[i]).0 {
            Location::Basic(a) => applied_balance(s0, pre, false, a@) == reads[i].1@,
            Location::Storage(a, k) => applied_slot(s0, pre, false, a@, k@) == reads[i].1@,
        })
}

/// Whether a candidate commits, given the effects committed before it.
pub open spec fn candidate_commits(
    s0: Seq<(Address, MemoryAccount)>,
    pre: Seq<Apply>,
    c: Candidate,
) -> bool {
    !c.simulation && reads_valid_applied(s0, pre, c.rw.reads@)
}

/// The concatenated effects of every candidate that commits, in position
/// order.
pub open spec fn committed_effects(
    s0: Seq<(Address, MemoryAccount)>,
    cands: Seq<Candidate>,
) -> Seq<Apply>
    decreases cands.len(),
{
    if cands.len() == 0 {
        Seq::empty()
    } else {
        let pre = committed_effects(s0, cands.drop_last());
        if candidate_commits(s0, pre, cands.last()) {
            pre + cands.last().effects@
        } else {
            pre
        }
    }
}

/// Commit a set of speculative candidates in position order: each one is
/// validated against the store as left by the earlier commits; a valid,
/// non-simulation candidate's effects are applied and become visible to
/// the later ones; a conflicting candidate is skipped (to be re-executed)
/// and a simulation candidate is never published. Returns which candidates
/// committed; the resulting store is exactly the fold of the committed
/// effects in position order.
pub fn mv_commit(backend: &mut MemoryBackend, candidates: Vec<Candidate>) -> (r: Vec<bool>)
    requires
        old(backend).wf(),
    ensures
        final(backend).wf(),
        r@.len() == candidates@.len(),
        forall|i: int|
            0 <= i < candidates@.len() ==> r@[i] == candidate_commits(
                old(backend).accounts@,
                committed_effects(old(backend).accounts@, candidates@.take(i)),
                candidates@[i],
            ),
        forall|a: nat|
            exists_sem(final(backend).accounts@, a) == applied_exists(
                old(backend).accounts@,
                committed_effects(old(backend).accounts@, candidates@),
                false,
                a,
            ),
        forall|a: nat|
            nonce_sem(final(backend).accounts@, a) == applied_nonce(
                old(backend).accounts@,
                committed_effects(old(backend).accounts@, candidates@),
                false,
                a,
            ),
        forall|a: nat|
            balance_sem(final(backend).accounts@, a) == applied_balance(
                old(backend).accounts@,
                committed_effects(old(backend).accounts@, candidates@),
                false,
                a,
            ),
        forall|a: nat|
            code_sem(final(backend).accounts@, a) == applied_code(
                old(backend).accounts@,
                committed_effects(old(backend).accounts@, candidates@),
                false,
                a,
            ),
        forall|a: nat, k: nat|
            slot_sem(final(backend).accounts@, a, k) == applied_slot(
                old(backend).accounts@,
                committed_effects(old(backend).accounts@, candidates@),
                false,
                a,
                k,
            ),
{
    let ghost s0 = backend.accounts@;
    let ghost full = candidates@;
    let mut rem = candidates;
    let total = rem.len();
    let mut r: Vec<bool> = Vec::new();
    let mut i: usize = 0;
    while rem.len() > 0
        invariant
            full.len() == total,
            i + rem@.len() == full.len(),
            rem@ == full.skip(i as int),
            r@.len() == i,
            backend.wf(),
            s0 == old(backend).accounts@,
            full == candidates@,
            forall|j: int|
                0 <= j < i ==> r@[j] == candidate_commits(
                    s0,
                    committed_effects(s0, full.take(j)),
                    full[j],
                ),
            forall|a: nat|
                exists_sem(backend.accounts@, a) == applied_exists(
                    s0,
                    committed_effects(s0, full.take(i as int)),
                    false,
                    a,
                ),
            forall|a: nat|
                nonce_sem(backend.accounts@, a) == applied_nonce(
                    s0,
                    committed_effects(s0, full.take(i as int)),
                    false,
                    a,
                ),
            forall|a: nat|
                balance_sem(backend.accounts@, a) == applied_balance(
                    s0,
                    committed_effects(s0, full.take(i as int)),
                    false,
                    a,
                ),
            forall|a: nat|
                code_sem(backend.accounts@, a) == applied_code(
                    s0,
                    committed_effects(s0, full.take(i as int)),
                    false,
                    a,
                ),
            forall|a: nat, k: nat|
                slot_sem(backend.accounts@, a, k) == applied_slot(
                    s0,
                    committed_effects(s0, full.take(i as int)),
                    false,
                    a,
                    k,
                ),
        decreases rem@.len(),
    {
        let ghost pre = committed_effects(s0, full.take(i as int));
        let ghost pre_backend = backend.accounts@;
        let c = rem.remove(0);
        proof {
            assert(c == full[i as int]);
            assert(rem@ =~= full.skip(i + 1 as int));
        }
        let valid = validate_read_set(&c.rw, backend);
        proof {
            assert forall|j: int|
                0 <= j < c.rw.reads@.len() implies (read_matches(
                pre_backend,
                (#[trigger] c.rw.reads@[j]).0,
                c.rw.reads@[j].1@,
            ) == (match c.rw.reads@[j].0 {
                Location::Basic(a) => applied_balance(s0, pre, false, a@) == c.rw.reads@[j].1@,
                Location::Storage(a, k) => applied_slot(s0, pre, false, a@, k@)
                    == c.rw.reads@[j].1@,
            })) by {}
            assert(valid == reads_valid_applied(s0, pre, full[i as int].rw.reads@));
        }
        let committed = if !c.simulation && valid {
            let Candidate { effects, logs, .. } = c;
            backend.apply(effects, logs, false);
            proof {
                lemma_applied_compose(s0, pre_backend, pre, full[i as int].effects@, false);
            }
            true
        } else {
            false
        };
        r.push(committed);
        proof {
            assert(full.take(i + 1 as int).drop_last() =~= full.take(i as int));
            assert(full.take(i + 1 as int).last() == full[i as int]);
            assert(committed == candidate_commits(s0, pre, full[i as int]));
            let ghost ce1 = committed_effects(s0, full.take(i + 1 as int));
            if committed {
                assert(ce1 == pre + full[i as int].effects@);
            } else {
                assert(ce1 == pre);
            }
            assert forall|j: int|
                0 <= j < i + 1 implies r@[j] == candidate_commits(
                s0,
                committed_effects(s0, full.take(j)),
                full[j],
            ) by {}
        }
        i += 1;
    }
    proof {
        assert(full.take(full.len() as int) =~= full);
    }
    r
}

} // verus!
