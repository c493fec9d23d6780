use crate::backend::{
    addr_in, addr_list_contains, balance_sem, clone_account, clone_accounts, code_sem,
    find_account, has_acct, lemma_acct_at, lemma_sem_congruence, nonce_sem, pair_in,
    pair_list_contains, set_slot, slot_sem, slot_val, slots_unique, upsert_acct, wf_accounts,
    Address, Apply, Log, MemoryAccount, MemoryBackend,
};
use crate::uint::U256;
use crate::util::clone_vec_copy;
use vstd::prelude::*;

verus! {

/// One snapshot boundary: the full pending overlay, deletion marks and
/// accessed sets at entry, the log length at entry, and the refund counter
/// at entry.
pub struct Checkpoint {
    pub pending: Vec<(Address, MemoryAccount)>,
    pub deletes: Vec<Address>,
    pub logs_len: usize,
    pub accessed_addrs: Vec<Address>,
    pub accessed_storage: Vec<(Address, U256)>,
    pub refund: i128,
}

/// The pending, checkpointable overlay of one transaction over a base
/// store: pending account mutations, deletion marks, pending logs, the
/// accessed-address/slot sets, and a stack of checkpoints mirroring the
/// call-stack depth.
pub struct MemoryStackSubstate {
    pub pending: Vec<(Address, MemoryAccount)>,
    pub deletes: Vec<Address>,
    pub logs: Vec<Log>,
    pub accessed_addrs: Vec<Address>,
    pub accessed_storage: Vec<(Address, U256)>,
    pub checkpoints: Vec<Checkpoint>,
}

/// A checkpoint records exactly the content of the substate (overlay,
/// deletion marks, accessed sets, log length) and a given refund counter.
pub open spec fn cp_matches(cp: Checkpoint, s: MemoryStackSubstate, refund: i128) -> bool {
    &&& wf_accounts(cp.pending@)
    &&& cp.pending@.len() == s.pending@.len()
    &&& forall|x: nat| has_acct(cp.pending@, x) == has_acct(s.pending@, x)
    &&& forall|x: nat| nonce_sem(cp.pending@, x) == nonce_sem(s.pending@, x)
    &&& forall|x: nat| balance_sem(cp.pending@, x) == balance_sem(s.pending@, x)
    &&& forall|x: nat| code_sem(cp.pending@, x) == code_sem(s.pending@, x)
    &&& forall|x: nat, k: nat| slot_sem(cp.pending@, x, k) == slot_sem(s.pending@, x, k)
    &&& cp.deletes@ == s.deletes@
    &&& cp.logs_len == s.logs@.len()
    &&& cp.accessed_addrs@ == s.accessed_addrs@
    &&& cp.accessed_storage@ == s.accessed_storage@
    &&& cp.refund == refund
}

impl MemoryStackSubstate {
    pub open spec fn wf(&self) -> bool {
        &&& wf_accounts(self.pending@)
        &&& forall|i: int|
            0 <= i < self.checkpoints@.len() ==> wf_accounts(
                (#[trigger] self.checkpoints@[i]).pending@,
            )
        &&& forall|i: int|
            0 <= i < self.checkpoints@.len() ==> (#[trigger] self.checkpoints@[i]).logs_len
                <= self.logs@.len()
        &&& forall|i: int, j: int|
            0 <= i < j < self.checkpoints@.len() ==> self.checkpoints@[i].logs_len
                <= self.checkpoints@[j].logs_len
    }

    pub fn new() -> (r: MemoryStackSubstate)
        ensures
            r.wf(),
            r.pending@.len() == 0,
            r.deletes@.len() == 0,
            r.logs@.len() == 0,
            r.accessed_addrs@.len() == 0,
            r.accessed_storage@.len() == 0,
            r.checkpoints@.len() == 0,
    {
        MemoryStackSubstate {
            pending: Vec::new(),
            deletes: Vec::new(),
            logs: Vec::new(),
            accessed_addrs: Vec::new(),
            accessed_storage: Vec::new(),
            checkpoints: Vec::new(),
        }
    }

    /// Push a snapshot of the whole substate (and the caller's refund
    /// counter): called on entering a nested call or create.
    pub fn checkpoint(&mut self, refund: i128)
        requires
            old(self).wf(),
        ensures
            final(self).wf(),
            final(self).checkpoints@.len() == old(self).checkpoints@.len() + 1,
            final(self).checkpoints@.drop_last() == old(self).checkpoints@,
            cp_matches(final(self).checkpoints@.last(), *old(self), refund),
            final(self).pending == old(self).pending,
            final(self).deletes == old(self).deletes,
            final(self).logs == old(self).logs,
            final(self).accessed_addrs == old(self).accessed_addrs,
            final(self).accessed_storage == old(self).accessed_storage,
    {
        let cp = Checkpoint {
            pending: clone_accounts(&self.pending),
            deletes: clone_vec_copy(&self.deletes),
            logs_len: self.logs.len(),
            accessed_addrs: clone_vec_copy(&self.accessed_addrs),
            accessed_storage: clone_vec_copy(&self.accessed_storage),
            refund,
        };
        proof {
            lemma_sem_congruence(cp.pending@, self.pending@);
        }
        self.checkpoints.push(cp);
        proof {
            assert(self.checkpoints@.drop_last() =~= old(self).checkpoints@);
        }
    }

    /// Pop and discard the innermost snapshot, keeping everything
    /// accumulated since it: the callee succeeded.
    pub fn commit_checkpoint(&mut self)
        requires
            old(self).wf(),
            old(self).checkpoints@.len() > 0,
        ensures
            final(self).wf(),
            final(self).checkpoints@ == old(self).checkpoints@.drop_last(),
            final(self).pending == old(self).pending,
            final(self).deletes == old(self).deletes,
            final(self).logs == old(self).logs,
            final(self).accessed_addrs == old(self).accessed_addrs,
            final(self).accessed_storage == old(self).accessed_storage,
    {
        let _ = self.checkpoints.pop();
        proof {
            assert(self.checkpoints@ =~= old(self).checkpoints@.drop_last());
        }
    }

    /// Pop the innermost snapshot and restore the substate to it,
    /// discarding everything accumulated since — as if the nested call had
    /// never executed. Returns the refund counter saved at the snapshot, to
    /// be restored alongside.
    pub fn revert_checkpoint(&mut self) -> (r: i128)
        requires
            old(self).wf(),
            old(self).checkpoints@.len() > 0,
        ensures
            final(self).wf(),
            final(self).checkpoints@ == old(self).checkpoints@.drop_last(),
            final(self).pending == old(self).checkpoints@.last().pending,
            final(self).deletes == old(self).checkpoints@.last().deletes,
            final(self).logs@ == old(self).logs@.take(
                old(self).checkpoints@.last().logs_len as int,
            ),
            final(self).accessed_addrs == old(self).checkpoints@.last().accessed_addrs,
            final(self).accessed_storage == old(self).checkpoints@.last().accessed_storage,
            r == old(self).checkpoints@.last().refund,
    {
        let cp = match self.checkpoints.pop() {
            Some(cp) => cp,
            None => Checkpoint {
                pending: Vec::new(),
                deletes: Vec::new(),
                logs_len: 0,
                accessed_addrs: Vec::new(),
                accessed_storage: Vec::new(),
                refund: 0,
            },
        };
        self.pending = cp.pending;
        self.deletes = cp.deletes;
        self.logs.truncate(cp.logs_len);
        self.accessed_addrs = cp.accessed_addrs;
        self.accessed_storage = cp.accessed_storage;
        proof {
            assert(self.checkpoints@ =~= old(self).checkpoints@.drop_last());
            assert forall|i: int, j: int|
                0 <= i < j < self.checkpoints@.len() implies self.checkpoints@[i].logs_len
                <= self.checkpoints@[j].logs_len by {
                assert(old(self).checkpoints@[i].logs_len <= old(self).checkpoints@[j].logs_len);
            }
            assert forall|i: int|
                0 <= i < self.checkpoints@.len() implies (#[trigger] self.checkpoints@[i]).logs_len
                <= self.logs@.len() by {
                assert(old(self).checkpoints@[i].logs_len <= old(
                    self,
                ).checkpoints@.last().logs_len);
            }
        }
        cp.refund
    }

    /// The number of unresolved checkpoints: the nesting depth.
    pub fn checkpoint_depth(&self) -> (r: usize)
        ensures
            r == self.checkpoints@.len(),
    {
        self.checkpoints.len()
    }
}

} // verus!

verus! {

// The effective state one transaction observes: its own pending overlay
// first, the base store beneath.

pub open spec fn eff_exists(
    s: MemoryStackSubstate,
    b: Seq<(Address, MemoryAccount)>,
    a: nat,
) -> bool {
    has_acct(s.pending@, a) || has_acct(b, a)
}

pub open spec fn eff_balance(
    s: MemoryStackSubstate,
    b: Seq<(Address, MemoryAccount)>,
    a: nat,
) -> nat {
    if has_acct(s.pending@, a) {
        balance_sem(s.pending@, a)
    } else {
        balance_sem(b, a)
    }
}

pub open spec fn eff_nonce(
    s: MemoryStackSubstate,
    b: Seq<(Address, MemoryAccount)>,
    a: nat,
) -> nat {
    if has_acct(s.pending@, a) {
        nonce_sem(s.pending@, a)
    } else {
        nonce_sem(b, a)
    }
}

pub open spec fn eff_code(s: MemoryStackSubstate, b: Seq<(Address, MemoryAccount)>, a: nat) -> Seq<
    u8,
> {
    if has_acct(s.pending@, a) {
        code_sem(s.pending@, a)
    } else {
        code_sem(b, a)
    }
}

pub open spec fn eff_slot(
    s: MemoryStackSubstate,
    b: Seq<(Address, MemoryAccount)>,
    a: nat,
    k: nat,
) -> nat {
    if has_acct(s.pending@, a) {
        slot_sem(s.pending@, a, k)
    } else {
        slot_sem(b, a, k)
    }
}

/// The frame every mutation of the overlay preserves: the checkpoint stack
/// is never touched by ordinary mutation, only by the three checkpoint
/// operations.
pub open spec fn frame_cps(s0: MemoryStackSubstate, s1: MemoryStackSubstate) -> bool {
    s1.checkpoints == s0.checkpoints
}

impl MemoryStackSubstate {
    /// Pull one account into the pending overlay, copying it from the base
    /// store on first touch.
    fn touched_account(&self, address: &Address, backend: &MemoryBackend) -> (r: MemoryAccount)
        requires
            self.wf(),
            backend.wf(),
        ensures
            r.nonce@ == eff_nonce(*self, backend.accounts@, address@),
            r.balance@ == eff_balance(*self, backend.accounts@, address@),
            r.code@ == eff_code(*self, backend.accounts@, address@),
            slots_unique(r.storage@),
            forall|k: nat| slot_val(r.storage@, k) == eff_slot(*self, backend.accounts@, address@, k),
    {
        match find_account(&self.pending, address) {
            Some(i) => {
                proof {
                    lemma_acct_at(self.pending@, address@, i as int);
                }
                clone_account(&self.pending[i].1)
            },
            None => backend.account(address),
        }
    }

    /// Write one account's balance in the overlay.
    pub fn set_balance(&mut self, address: &Address, value: U256, backend: &MemoryBackend)
        requires
            old(self).wf(),
            backend.wf(),
        ensures
            final(self).wf(),
            frame_cps(*old(self), *final(self)),
            final(self).deletes == old(self).deletes,
            final(self).logs == old(self).logs,
            final(self).accessed_addrs == old(self).accessed_addrs,
            final(self).accessed_storage == old(self).accessed_storage,
            forall|x: nat|
                eff_balance(*final(self), backend.accounts@, x) == if x == address@ {
                    value@
                } else {
                    eff_balance(*old(self), backend.accounts@, x)
                },
            forall|x: nat|
                eff_nonce(*final(self), backend.accounts@, x) == eff_nonce(
                    *old(self),
                    backend.accounts@,
                    x,
                ),
            forall|x: nat|
                eff_code(*final(self), backend.accounts@, x) == eff_code(
                    *old(self),
                    backend.accounts@,
                    x,
                ),
            forall|x: nat, k: nat|
                eff_slot(*final(self), backend.accounts@, x, k) == eff_slot(
                    *old(self),
                    backend.accounts@,
                    x,
                    k,
                ),
            forall|x: nat|
                eff_exists(*final(self), backend.accounts@, x) == (x == address@ || eff_exists(
                    *old(self),
                    backend.accounts@,
                    x,
                )),
    {
        let mut acct = self.touched_account(address, backend);
        acct.balance = value;
        upsert_acct(&mut self.pending, *address, acct);
    }

    /// Write one account's nonce in the overlay.
    pub fn set_nonce(&mut self, address: &Address, value: U256, backend: &MemoryBackend)
        requires
            old(self).wf(),
            backend.wf(),
        ensures
            final(self).wf(),
            frame_cps(*old(self), *final(self)),
            final(self).deletes == old(self).deletes,
            final(self).logs == old(self).logs,
            final(self).accessed_addrs == old(self).accessed_addrs,
            final(self).accessed_storage == old(self).accessed_storage,
            forall|x: nat|
                eff_nonce(*final(self), backend.accounts@, x) == if x == address@ {
                    value@
                } else {
                    eff_nonce(*old(self), backend.accounts@, x)
                },
            forall|x: nat|
                eff_balance(*final(self), backend.accounts@, x) == eff_balance(
                    *old(self),
                    backend.accounts@,
                    x,
                ),
            forall|x: nat|
                eff_code(*final(self), backend.accounts@, x) == eff_code(
                    *old(self),
                    backend.accounts@,
                    x,
                ),
            forall|x: nat, k: nat|
                eff_slot(*final(self), backend.accounts@, x, k) == eff_slot(
                    *old(self),
                    backend.accounts@,
                    x,
                    k,
                ),
            forall|x: nat|
                eff_exists(*final(self), backend.accounts@, x) == (x == address@ || eff_exists(
                    *old(self),
                    backend.accounts@,
                    x,
                )),
    {
        let mut acct = self.touched_account(address, backend);
        acct.nonce = value;
        upsert_acct(&mut self.pending, *address, acct);
    }

    /// Write one storage slot in the overlay.
    pub fn set_storage(&mut self, address: &Address, key: U256, value: U256, backend: &MemoryBackend)
        requires
            old(self).wf(),
            backend.wf(),
        ensures
            final(self).wf(),
            frame_cps(*old(self), *final(self)),
            final(self).deletes == old(self).deletes,
            final(self).logs == old(self).logs,
            final(self).accessed_addrs == old(self).accessed_addrs,
            final(self).accessed_storage == old(self).accessed_storage,
            forall|x: nat, k: nat|
                eff_slot(*final(self), backend.accounts@, x, k) == if x == address@ && k == key@ {
                    value@
                } else {
                    eff_slot(*old(self), backend.accounts@, x, k)
                },
            forall|x: nat|
                eff_balance(*final(self), backend.accounts@, x) == eff_balance(
                    *old(self),
                    backend.accounts@,
                    x,
                ),
            forall|x: nat|
                eff_nonce(*final(self), backend.accounts@, x) == eff_nonce(
                    *old(self),
                    backend.accounts@,
                    x,
                ),
            forall|x: nat|
                eff_code(*final(self), backend.accounts@, x) == eff_code(
                    *old(self),
                    backend.accounts@,
                    x,
                ),
            forall|x: nat|
                eff_exists(*final(self), backend.accounts@, x) == (x == address@ || eff_exists(
                    *old(self),
                    backend.accounts@,
                    x,
                )),
    {
        let mut acct = self.touched_account(address, backend);
        set_slot(&mut acct.storage, key, value);
        upsert_acct(&mut self.pending, *address, acct);
    }

    /// Append one log record.
    pub fn log(&mut self, address: Address, topics: Vec<U256>, data: Vec<u8>)
        requires
            old(self).wf(),
        ensures
            final(self).wf(),
            frame_cps(*old(self), *final(self)),
            final(self).pending == old(self).pending,
            final(self).deletes == old(self).deletes,
            final(self).accessed_addrs == old(self).accessed_addrs,
            final(self).accessed_storage == old(self).accessed_storage,
            final(self).logs@.len() == old(self).logs@.len() + 1,
            final(self).logs@.drop_last() == old(self).logs@,
            final(self).logs@.last().address == address,
            final(self).logs@.last().topics@ == topics@,
            final(self).logs@.last().data@ == data@,
    {
        self.logs.push(Log { address, topics, data });
        proof {
            assert(self.logs@.drop_last() =~= old(self).logs@);
        }
    }

    /// Mark one account for removal at the end of the transaction.
    pub fn set_deleted(&mut self, address: &Address)
        requires
            old(self).wf(),
        ensures
            final(self).wf(),
            frame_cps(*old(self), *final(self)),
            final(self).pending == old(self).pending,
            final(self).logs == old(self).logs,
            final(self).accessed_addrs == old(self).accessed_addrs,
            final(self).accessed_storage == old(self).accessed_storage,
            forall|x: nat|
                addr_in(final(self).deletes@, x) == (x == address@ || addr_in(
                    old(self).deletes@,
                    x,
                )),
            final(self).deletes@.len() >= old(self).deletes@.len(),
            !addr_in(old(self).deletes@, address@) ==> final(self).deletes@.len() == old(
                self,
            ).deletes@.len() + 1,
            addr_in(old(self).deletes@, address@) ==> final(self).deletes@ == old(self).deletes@,
    {
        let ghost d0 = self.deletes@;
        if !addr_list_contains(&self.deletes, address) {
            self.deletes.push(*address);
            proof {
                assert forall|x: nat|
                    addr_in(self.deletes@, x) == (x == address@ || addr_in(d0, x)) by {
                    if x == address@ {
                        assert(self.deletes@[self.deletes@.len() - 1] == *address);
                        assert(addr_in(self.deletes@, x));
                    }
                    if addr_in(self.deletes@, x) {
                        let i = choose|i: int|
                            0 <= i < self.deletes@.len() && self.deletes@[i]@ == x;
                        if i < self.deletes@.len() - 1 {
                            assert(self.deletes@[i] == d0[i]);
                        }
                    }
                    if addr_in(d0, x) {
                        let i = choose|i: int| 0 <= i < d0.len() && d0[i]@ == x;
                        assert(self.deletes@[i] == d0[i]);
                    }
                }
            }
        }
    }

    /// Whether an account is already marked for removal.
    pub fn deleted(&self, address: &Address) -> (r: bool)
        ensures
            r == addr_in(self.deletes@, address@),
    {
        addr_list_contains(&self.deletes, address)
    }

    /// Record an address as accessed (warm) for the rest of the
    /// transaction; the set shrinks only through a checkpoint revert.
    pub fn access_address(&mut self, address: &Address)
        requires
            old(self).wf(),
        ensures
            final(self).wf(),
            frame_cps(*old(self), *final(self)),
            final(self).pending == old(self).pending,
            final(self).deletes == old(self).deletes,
            final(self).logs == old(self).logs,
            final(self).accessed_storage == old(self).accessed_storage,
            forall|x: nat|
                addr_in(final(self).accessed_addrs@, x) == (x == address@ || addr_in(
                    old(self).accessed_addrs@,
                    x,
                )),
    {
        let ghost a0 = self.accessed_addrs@;
        if !addr_list_contains(&self.accessed_addrs, address) {
            self.accessed_addrs.push(*address);
            proof {
                assert forall|x: nat|
                    addr_in(self.accessed_addrs@, x) == (x == address@ || addr_in(a0, x)) by {
                    if x == address@ {
                        assert(self.accessed_addrs@[self.accessed_addrs@.len() - 1] == *address);
                        assert(addr_in(self.accessed_addrs@, x));
                    }
                    if addr_in(self.accessed_addrs@, x) {
                        let i = choose|i: int|
                            0 <= i < self.accessed_addrs@.len() && self.accessed_addrs@[i]@ == x;
                        if i < self.accessed_addrs@.len() - 1 {
                            assert(self.accessed_addrs@[i] == a0[i]);
                        }
                    }
                    if addr_in(a0, x) {
                        let i = choose|i: int| 0 <= i < a0.len() && a0[i]@ == x;
                        assert(self.accessed_addrs@[i] == a0[i]);
                    }
                }
            }
        }
    }

    /// Record a storage slot as accessed (warm).
    pub fn access_storage(&mut self, address: &Address, key: &U256)
        requires
            old(self).wf(),
        ensures
            final(self).wf(),
            frame_cps(*old(self), *final(self)),
            final(self).pending == old(self).pending,
            final(self).deletes == old(self).deletes,
            final(self).logs == old(self).logs,
            final(self).accessed_addrs == old(self).accessed_addrs,
            forall|x: nat, k: nat|
                pair_in(final(self).accessed_storage@, x, k) == ((x == address@ && k == key@)
                    || pair_in(old(self).accessed_storage@, x, k)),
    {
        let ghost a0 = self.accessed_storage@;
        if !pair_list_contains(&self.accessed_storage, address, key) {
            self.accessed_storage.push((*address, *key));
            proof {
                assert forall|x: nat, k: nat|
                    pair_in(self.accessed_storage@, x, k) == ((x == address@ && k == key@)
                        || pair_in(a0, x, k)) by {
                    if x == address@ && k == key@ {
                        assert(self.accessed_storage@[self.accessed_storage@.len() - 1]
                            == (*address, *key));
                        assert(pair_in(self.accessed_storage@, x, k));
                    }
                    if pair_in(self.accessed_storage@, x, k) {
                        let i = choose|i: int|
                            0 <= i < self.accessed_storage@.len() && self.accessed_storage@[i].0@
                                == x && self.accessed_storage@[i].1@ == k;
                        if i < self.accessed_storage@.len() - 1 {
                            assert(self.accessed_storage@[i] == a0[i]);
                        }
                    }
                    if pair_in(a0, x, k) {
                        let i = choose|i: int|
                            0 <= i < a0.len() && a0[i].0@ == x && a0[i].1@ == k;
                        assert(self.accessed_storage@[i] == a0[i]);
                    }
                }
            }
        }
    }
}

/// The changeset entry a pending overlay account turns into.
pub open spec fn is_modify_of(c: Apply, e: (Address, MemoryAccount)) -> bool {
    match c {
        Apply::Modify { address, nonce, balance, code, storage, reset_storage } => {
            &&& address == e.0
            &&& nonce == e.1.nonce
            &&& balance == e.1.balance
            &&& (match code {
                Some(cc) => cc@ == e.1.code@,
                None => false,
            })
            &&& storage@ == e.1.storage@
            &&& reset_storage == true
        },
        _ => false,
    }
}

impl MemoryStackSubstate {
    /// The terminal operation: consume the substate and hand its
    /// accumulated mutations and logs to the store. Only valid at top
    /// level, with every nested checkpoint resolved.
    pub fn deconstruct(self) -> (r: (Vec<Apply>, Vec<Log>))
        requires
            self.wf(),
            self.checkpoints@.len() == 0,
        ensures
            r.0@.len() == self.pending@.len() + self.deletes@.len(),
            forall|i: int|
                0 <= i < self.pending@.len() ==> is_modify_of(#[trigger] r.0@[i], self.pending@[i]),
            forall|j: int|
                0 <= j < self.deletes@.len() ==> #[trigger] r.0@[self.pending@.len() + j]
                    == (Apply::Delete { address: self.deletes@[j] }),
            r.1 == self.logs,
    {
        let MemoryStackSubstate { pending, deletes, logs, .. } = self;
        let mut changes: Vec<Apply> = Vec::new();
        let mut i: usize = 0;
        while i < pending.len()
            invariant
                i <= pending@.len(),
                changes@.len() == i,
                forall|j: int| 0 <= j < i ==> is_modify_of(#[trigger] changes@[j], pending@[j]),
            decreases pending@.len() - i,
        {
            let ghost pre = changes@;
            let address = pending[i].0;
            let acct = clone_account(&pending[i].1);
            let MemoryAccount { nonce, balance, storage, code } = acct;
            changes.push(Apply::Modify {
                address,
                nonce,
                balance,
                code: Some(code),
                storage,
                reset_storage: true,
            });
            proof {
                assert forall|j: int|
                    0 <= j < changes@.len() implies is_modify_of(
                    #[trigger] changes@[j],
                    pending@[j],
                ) by {
                    if j < changes@.len() - 1 {
                        assert(changes@[j] == pre[j]);
                        assert(is_modify_of(pre[j], pending@[j]));
                    }
                }
            }
            i += 1;
        }
        let mut j: usize = 0;
        while j < deletes.len()
            invariant
                j <= deletes@.len(),
                changes@.len() == pending@.len() + j,
                forall|i1: int|
                    0 <= i1 < pending@.len() ==> is_modify_of(
                        #[trigger] changes@[i1],
                        pending@[i1],
                    ),
                forall|j1: int|
                    0 <= j1 < j ==> #[trigger] changes@[pending@.len() + j1] == (Apply::Delete {
                        address: deletes@[j1],
                    }),
            decreases deletes@.len() - j,
        {
            let ghost pre = changes@;
            changes.push(Apply::Delete { address: deletes[j] });
            proof {
                assert forall|i1: int|
                    0 <= i1 < pending@.len() implies is_modify_of(
                    #[trigger] changes@[i1],
                    pending@[i1],
                ) by {
                    assert(changes@[i1] == pre[i1]);
                    assert(is_modify_of(pre[i1], pending@[i1]));
                }
                assert forall|j1: int|
                    0 <= j1 <= j implies #[trigger] changes@[pending@.len() + j1]
                    == (Apply::Delete { address: deletes@[j1] }) by {
                    if j1 < j {
                        assert(changes@[pending@.len() + j1] == pre[pending@.len() + j1]);
                    }
                }
            }
            j += 1;
        }
        (changes, logs)
    }
}

} // verus!
