use crate::backend::{
    addr_in, balance_sem, code_sem, find_account, has_acct, lemma_acct_at, nonce_sem, pair_in,
    slot_sem, slot_val, Address, Apply, Log, MemoryAccount, MemoryBackend,
};
use crate::costs::{
    log_cost_spec, sstore_cost, sstore_cost_spec, sstore_refund, sstore_refund_spec, suicide_cost,
    suicide_cost_spec, suicide_refund, Config, G_LOG, G_LOGDATA, G_LOGTOPIC, R_SUICIDE,
};
use crate::exit::{ExitError, ExitReason, ExitSucceed};
use crate::substate::{
    cp_matches, eff_balance, eff_code, eff_exists, eff_nonce, eff_slot, MemoryStackSubstate,
};
use crate::uint::U256;
use vstd::prelude::*;

verus! {

/// The gas bookkeeping of one execution, read-only to callers.
#[derive(Clone, Copy, Debug, PartialEq, Eq, Structural)]
pub struct GasSnapshot {
    pub gas_limit: usize,
    pub used_gas: usize,
    pub refund: i128,
}

/// A state location, for read-set/write-set recording: an account's basic
/// fields, or one storage slot.
#[derive(Clone, Copy, Debug, PartialEq, Eq, Structural)]
pub enum Location {
    Basic(Address),
    Storage(Address, U256),
}

/// The read-set and write-set one transaction accumulated: every location
/// it observed of the base snapshot, with the value it observed, and every
/// location it is about to mutate on commit.
#[derive(Debug)]
pub struct RwSet {
    pub reads: Vec<(Location, U256)>,
    pub writes: Vec<Location>,
}

/// One metered step the bytecode interpreter asks of the core. The
/// interpreter itself (opcode dispatch, memory, jumps) is an external
/// collaborator; these are the charge-bearing state effects it issues.
#[derive(Debug)]
pub enum RuntimeOp {
    /// An opcode-dispatch charge computed by the interpreter.
    ChargeGas { amount: usize },
    /// A storage write on the callee's storage.
    SStore { key: U256, value: U256 },
    /// A log emission by the callee.
    Log { topics: Vec<U256>, data: Vec<u8> },
    /// Self-destruct of the callee. The balance is cleared and the account
    /// marked for removal; the beneficiary credit is the surrounding
    /// interpreter's own balance op and is judged against the base snapshot
    /// for the existence surcharge.
    Suicide { target: Address },
    /// A frame fault the interpreter itself detected (an invalid jump or
    /// opcode, a stack over/underflow, a static-context violation): fails
    /// the frame with the reported error, consuming no further gas.
    Fail { error: ExitError },
}

/// The refund counter never strays further from zero than the largest
/// single refund constant for every unit of gas used and every deletion
/// mark, which keeps its arithmetic far from overflow.
pub open spec fn refund_bound(r: int, u: int, d: int) -> bool {
    -24000 * (1 + u + d) <= r <= 24000 * (1 + u + d)
}

/// Drives one transaction against its own base snapshot: dispatches the
/// metered operations, consults the gasometer before every charge-bearing
/// step, and accumulates all effects in its private substate.
pub struct StackExecutor {
    pub config: Config,
    pub backend: MemoryBackend,
    pub substate: MemoryStackSubstate,
    pub precompiles: Vec<Address>,
    pub gas_limit: usize,
    pub used_gas: usize,
    pub refund: i128,
    pub simulation: bool,
    pub rw: RwSet,
}

impl StackExecutor {
    pub open spec fn wf(&self) -> bool {
        &&& self.substate.wf()
        &&& self.backend.wf()
        &&& self.config.wf()
        &&& self.used_gas <= self.gas_limit
        &&& refund_bound(
            self.refund as int,
            self.used_gas as int,
            self.substate.deletes@.len() as int,
        )
        &&& forall|i: int|
            0 <= i < self.substate.checkpoints@.len() ==> refund_bound(
                (#[trigger] self.substate.checkpoints@[i]).refund as int,
                self.used_gas as int,
                self.substate.checkpoints@[i].deletes@.len() as int,
            )
    }

    /// A fresh executor: empty substate, nothing charged, nothing refunded.
    pub open spec fn fresh(&self) -> bool {
        &&& self.substate.pending@.len() == 0
        &&& self.substate.deletes@.len() == 0
        &&& self.substate.logs@.len() == 0
        &&& self.substate.accessed_addrs@.len() == 0
        &&& self.substate.accessed_storage@.len() == 0
        &&& self.substate.checkpoints@.len() == 0
        &&& self.used_gas == 0
        &&& self.refund == 0
        &&& self.rw.reads@.len() == 0
        &&& self.rw.writes@.len() == 0
    }

    pub fn new(
        backend: MemoryBackend,
        precompiles: Vec<Address>,
        gas_limit: usize,
        config: Config,
        simulation: bool,
    ) -> (r: StackExecutor)
        requires
            backend.wf(),
            config.wf(),
        ensures
            r.wf(),
            r.fresh(),
            r.backend == backend,
            r.precompiles == precompiles,
            r.config == config,
            r.gas_limit == gas_limit,
            r.simulation == simulation,
    {
        StackExecutor {
            config,
            backend,
            substate: MemoryStackSubstate::new(),
            precompiles,
            gas_limit,
            used_gas: 0,
            refund: 0,
            simulation,
            rw: RwSet { reads: Vec::new(), writes: Vec::new() },
        }
    }

    /// The precompile dispatch question: is this address one of the
    /// built-in, non-bytecode contracts of the injected table?
    pub fn is_precompile(&self, address: &Address) -> (r: bool)
        ensures
            r == addr_in(self.precompiles@, address@),
    {
        crate::backend::addr_list_contains(&self.precompiles, address)
    }

    /// Account a precompile invocation. The body of a precompiled contract
    /// is an external collaborator: it was run outside and reported its
    /// output bytes, its gas use and whether it failed. The core charges
    /// exactly the reported gas and treats a reported failure as a call
    /// failure of this frame, never as fatal; on success the reported
    /// output is handed back unchanged.
    pub fn precompile_call(
        &mut self,
        address: &Address,
        output: Vec<u8>,
        gas_used_reported: usize,
        failed: bool,
    ) -> (r: Result<Vec<u8>, ExitError>)
        requires
            old(self).wf(),
            addr_in(old(self).precompiles@, address@),
        ensures
            final(self).wf(),
            old(self).used_gas + gas_used_reported > old(self).gas_limit ==> (r is Err && r->Err_0
                == ExitError::OutOfGas && final(self).used_gas == old(self).used_gas),
            (old(self).used_gas + gas_used_reported <= old(self).gas_limit && failed) ==> (r is Err
                && r->Err_0 == ExitError::PrecompileFailure && final(self).used_gas == old(self).used_gas + gas_used_reported),
            (old(self).used_gas + gas_used_reported <= old(self).gas_limit && !failed) ==> (r is Ok
                && r->Ok_0@ == output@ && final(self).used_gas == old(self).used_gas
                + gas_used_reported),
            final(self).substate == old(self).substate,
            final(self).backend == old(self).backend,
            final(self).precompiles == old(self).precompiles,
            final(self).refund == old(self).refund,
            final(self).rw == old(self).rw,
            final(self).config == old(self).config,
            final(self).gas_limit == old(self).gas_limit,
            final(self).precompiles == old(self).precompiles,
            final(self).simulation == old(self).simulation,
    {
        match self.record_cost(gas_used_reported) {
            Ok(()) => {},
            Err(e) => {
                return Err(e);
            },
        }
        if failed {
            Err(ExitError::PrecompileFailure)
        } else {
            Ok(output)
        }
    }

    /// The gas snapshot: limit, used, accumulated refund.
    pub fn snapshot(&self) -> (r: GasSnapshot)
        ensures
            r.gas_limit == self.gas_limit,
            r.used_gas == self.used_gas,
            r.refund == self.refund,
    {
        GasSnapshot { gas_limit: self.gas_limit, used_gas: self.used_gas, refund: self.refund }
    }

    /// The accumulated read-set/write-set, for conflict inspection.
    pub fn rw_set(&self) -> (r: &RwSet)
        ensures
            r == &self.rw,
    {
        &self.rw
    }

    /// Charge gas, or fail with out-of-gas if the limit cannot cover it.
    /// Nothing changes on failure.
    pub fn record_cost(&mut self, cost: usize) -> (r: Result<(), ExitError>)
        requires
            old(self).wf(),
        ensures
            final(self).wf(),
            r is Ok <==> old(self).used_gas + cost <= old(self).gas_limit,
            r is Ok ==> final(self).used_gas == old(self).used_gas + cost,
            r is Err ==> r->Err_0 == ExitError::OutOfGas && final(self).used_gas == old(self).used_gas,
            final(self).substate == old(self).substate,
            final(self).backend == old(self).backend,
            final(self).precompiles == old(self).precompiles,
            final(self).refund == old(self).refund,
            final(self).rw == old(self).rw,
            final(self).gas_limit == old(self).gas_limit,
            final(self).config == old(self).config,
            final(self).precompiles == old(self).precompiles,
            final(self).simulation == old(self).simulation,
    {
        if cost <= self.gas_limit - self.used_gas {
            self.used_gas = self.used_gas + cost;
            Ok(())
        } else {
            Err(ExitError::OutOfGas)
        }
    }

    /// The effective balance this transaction observes: its own overlay
    /// first, the base snapshot beneath.
    pub fn balance(&self, address: &Address) -> (r: U256)
        requires
            self.wf(),
        ensures
            r@ == eff_balance(self.substate, self.backend.accounts@, address@),
    {
        match find_account(&self.substate.pending, address) {
            Some(i) => {
                proof {
                    lemma_acct_at(self.substate.pending@, address@, i as int);
                }
                self.substate.pending[i].1.balance
            },
            None => self.backend.balance(address),
        }
    }

    /// The effective value of one storage slot.
    pub fn storage_read(&self, address: &Address, key: &U256) -> (r: U256)
        requires
            self.wf(),
        ensures
            r@ == eff_slot(self.substate, self.backend.accounts@, address@, key@),
    {
        match find_account(&self.substate.pending, address) {
            Some(i) => {
                proof {
                    lemma_acct_at(self.substate.pending@, address@, i as int);
                }
                match crate::backend::find_slot(&self.substate.pending[i].1.storage, key) {
                    Some(j) => {
                        proof {
                            crate::backend::lemma_slot_at(
                                self.substate.pending@[i as int].1.storage@,
                                key@,
                                j as int,
                            );
                        }
                        self.substate.pending[i].1.storage[j].1
                    },
                    None => U256::zero(),
                }
            },
            None => self.backend.storage(address, key),
        }
    }
}

} // verus!

verus! {

impl StackExecutor {
    /// The slot's value at transaction start, from the base snapshot: the
    /// "original" of the storage metering rules.
    pub open spec fn sstore_original(&self, a: nat, k: nat) -> nat {
        slot_sem(self.backend.accounts@, a, k)
    }

    /// The slot's effective value now: the "current" of the storage
    /// metering rules.
    pub open spec fn sstore_current(&self, a: nat, k: nat) -> nat {
        eff_slot(self.substate, self.backend.accounts@, a, k)
    }

    /// One storage write: charge the metered cost, account the signed
    /// refund delta, write the overlay, and record the slot in the
    /// read-set and write-set.
    pub fn sstore_op(&mut self, address: &Address, key: U256, value: U256) -> (r: Result<
        (),
        ExitError,
    >)
        requires
            old(self).wf(),
        ensures
            final(self).wf(),
            r is Ok <==> old(self).used_gas + sstore_cost_spec(
                old(self).sstore_original(address@, key@),
                old(self).sstore_current(address@, key@),
                value@,
                old(self).config,
            ) <= old(self).gas_limit,
            r is Err ==> r->Err_0 == ExitError::OutOfGas && final(self).substate == old(self).substate && final(self).used_gas == old(self).used_gas && final(self).refund == old(self).refund && final(self).rw == old(self).rw,
            r is Ok ==> final(self).used_gas == old(self).used_gas + sstore_cost_spec(
                old(self).sstore_original(address@, key@),
                old(self).sstore_current(address@, key@),
                value@,
                old(self).config,
            ),
            r is Ok ==> final(self).refund == old(self).refund + sstore_refund_spec(
                old(self).sstore_original(address@, key@),
                old(self).sstore_current(address@, key@),
                value@,
                old(self).config,
            ),
            r is Ok ==> forall|x: nat, k: nat|
                eff_slot(final(self).substate, final(self).backend.accounts@, x, k) == if x
                    == address@ && k == key@ {
                    value@
                } else {
                    eff_slot(old(self).substate, old(self).backend.accounts@, x, k)
                },
            r is Ok ==> forall|x: nat|
                eff_balance(final(self).substate, final(self).backend.accounts@, x) == eff_balance(
                    old(self).substate,
                    old(self).backend.accounts@,
                    x,
                ),
            r is Ok ==> forall|x: nat|
                eff_nonce(final(self).substate, final(self).backend.accounts@, x) == eff_nonce(
                    old(self).substate,
                    old(self).backend.accounts@,
                    x,
                ),
            r is Ok ==> forall|x: nat|
                eff_code(final(self).substate, final(self).backend.accounts@, x) == eff_code(
                    old(self).substate,
                    old(self).backend.accounts@,
                    x,
                ),
            r is Ok ==> forall|x: nat|
                eff_exists(final(self).substate, final(self).backend.accounts@, x) == (x
                    == address@ || eff_exists(old(self).substate, old(self).backend.accounts@, x)),
            r is Ok ==> final(self).substate.deletes == old(self).substate.deletes && final(self).substate.logs == old(self).substate.logs && final(self).substate.accessed_addrs
                == old(self).substate.accessed_addrs && final(self).substate.accessed_storage
                == old(self).substate.accessed_storage,
            r is Ok ==> final(self).rw.writes@ == old(self).rw.writes@.push(
                Location::Storage(*address, key),
            ),
            r is Ok ==> final(self).rw.reads@.len() == old(self).rw.reads@.len() + 1 && final(self).rw.reads@.drop_last() == old(self).rw.reads@ && final(self).rw.reads@.last().0
                == Location::Storage(*address, key) && final(self).rw.reads@.last().1@ == old(self).sstore_original(address@, key@),
            final(self).substate.checkpoints == old(self).substate.checkpoints,
            final(self).backend == old(self).backend,
            final(self).config == old(self).config,
            final(self).gas_limit == old(self).gas_limit,
            final(self).precompiles == old(self).precompiles,
            final(self).simulation == old(self).simulation,
    {
        let original = self.backend.storage(address, &key);
        let current = self.storage_read(address, &key);
        let cost = sstore_cost(original, current, value, &self.config);
        match self.record_cost(cost) {
            Ok(()) => {},
            Err(e) => {
                return Err(e);
            },
        }
        let delta = sstore_refund(original, current, value, &self.config);
        let dlen = self.substate.deletes.len();
        proof {
            assert(-15000 <= delta <= 19200);
            assert(cost >= 800);
            assert(self.substate.deletes@.len() == dlen);
            assert(-24000 * (1 + usize::MAX as int + usize::MAX as int) <= self.refund
                <= 24000 * (1 + usize::MAX as int + usize::MAX as int));
        }
        self.refund = self.refund + delta as i128;
        self.substate.set_storage(address, key, value, &self.backend);
        self.rw.reads.push((Location::Storage(*address, key), original));
        self.rw.writes.push(Location::Storage(*address, key));
        proof {
            assert(self.rw.reads@.drop_last() =~= old(self).rw.reads@);
            assert(self.rw.writes@ =~= old(self).rw.writes@.push(Location::Storage(*address, key)));
        }
        Ok(())
    }

    /// One log emission: charge the log cost over topic count and data
    /// length, then append the record.
    pub fn log_op(&mut self, address: &Address, topics: Vec<U256>, data: Vec<u8>) -> (r: Result<
        (),
        ExitError,
    >)
        requires
            old(self).wf(),
        ensures
            final(self).wf(),
            r is Ok <==> (log_cost_spec(topics@.len(), data@.len()) <= usize::MAX && old(self).used_gas + log_cost_spec(topics@.len(), data@.len()) <= old(self).gas_limit),
            r is Err ==> r->Err_0 == ExitError::OutOfGas && final(self).substate == old(self).substate && final(self).used_gas == old(self).used_gas && final(self).refund == old(self).refund && final(self).rw == old(self).rw,
            r is Ok ==> final(self).used_gas == old(self).used_gas + log_cost_spec(
                topics@.len(),
                data@.len(),
            ),
            r is Ok ==> final(self).substate.logs@.len() == old(self).substate.logs@.len() + 1
                && final(self).substate.logs@.drop_last() == old(self).substate.logs@ && final(self).substate.logs@.last().address == *address && final(self).substate.logs@.last().topics@
                == topics@ && final(self).substate.logs@.last().data@ == data@,
            r is Ok ==> final(self).substate.pending == old(self).substate.pending && final(self).substate.deletes == old(self).substate.deletes && final(self).substate.accessed_addrs
                == old(self).substate.accessed_addrs && final(self).substate.accessed_storage
                == old(self).substate.accessed_storage && final(self).rw == old(self).rw,
            final(self).refund == old(self).refund,
            final(self).substate.checkpoints == old(self).substate.checkpoints,
            final(self).backend == old(self).backend,
            final(self).config == old(self).config,
            final(self).gas_limit == old(self).gas_limit,
            final(self).precompiles == old(self).precompiles,
            final(self).simulation == old(self).simulation,
    {
        let n128 = topics.len() as u128;
        let l128 = data.len() as u128;
        proof {
            assert((G_LOGDATA as u128) * l128 <= 8 * (u64::MAX as u128)) by (nonlinear_arith)
                requires
                    l128 <= u64::MAX,
            ;
            assert((G_LOGTOPIC as u128) * n128 <= 375 * (u64::MAX as u128)) by (nonlinear_arith)
                requires
                    n128 <= u64::MAX,
            ;
        }
        let total: u128 = G_LOG as u128 + (G_LOGDATA as u128) * l128 + (G_LOGTOPIC as u128) * n128;
        if total > usize::MAX as u128 {
            return Err(ExitError::OutOfGas);
        }
        match self.record_cost(total as usize) {
            Ok(()) => {},
            Err(e) => {
                return Err(e);
            },
        }
        self.substate.log(*address, topics, data);
        Ok(())
    }

    /// Self-destruct of `address` paying out toward `target`: charge the
    /// base cost plus the new-account top-up (existence judged against the
    /// base snapshot), grant the refund only on the first destruction of
    /// the address in this transaction, clear the balance and mark the
    /// account for removal.
    pub fn suicide_op(&mut self, address: &Address, target: &Address) -> (r: Result<(), ExitError>)
        requires
            old(self).wf(),
        ensures
            final(self).wf(),
            r is Ok <==> old(self).used_gas + suicide_cost_spec(
                eff_balance(old(self).substate, old(self).backend.accounts@, address@),
                has_acct(old(self).backend.accounts@, target@),
                old(self).config,
            ) <= old(self).gas_limit,
            r is Err ==> r->Err_0 == ExitError::OutOfGas && final(self).substate == old(self).substate && final(self).used_gas == old(self).used_gas && final(self).refund == old(self).refund && final(self).rw == old(self).rw,
            r is Ok ==> final(self).used_gas == old(self).used_gas + suicide_cost_spec(
                eff_balance(old(self).substate, old(self).backend.accounts@, address@),
                has_acct(old(self).backend.accounts@, target@),
                old(self).config,
            ),
            r is Ok ==> final(self).refund == old(self).refund + (if addr_in(
                old(self).substate.deletes@,
                address@,
            ) {
                0int
            } else {
                R_SUICIDE as int
            }),
            r is Ok ==> forall|x: nat|
                addr_in(final(self).substate.deletes@, x) == (x == address@ || addr_in(
                    old(self).substate.deletes@,
                    x,
                )),
            r is Ok ==> forall|x: nat|
                eff_balance(final(self).substate, final(self).backend.accounts@, x) == if x
                    == address@ {
                    0nat
                } else {
                    eff_balance(old(self).substate, old(self).backend.accounts@, x)
                },
            r is Ok ==> forall|x: nat, k: nat|
                eff_slot(final(self).substate, final(self).backend.accounts@, x, k) == eff_slot(
                    old(self).substate,
                    old(self).backend.accounts@,
                    x,
                    k,
                ),
            r is Ok ==> forall|x: nat|
                eff_nonce(final(self).substate, final(self).backend.accounts@, x) == eff_nonce(
                    old(self).substate,
                    old(self).backend.accounts@,
                    x,
                ),
            r is Ok ==> forall|x: nat|
                eff_code(final(self).substate, final(self).backend.accounts@, x) == eff_code(
                    old(self).substate,
                    old(self).backend.accounts@,
                    x,
                ),
            r is Ok ==> final(self).substate.logs == old(self).substate.logs && final(self).substate.accessed_addrs == old(self).substate.accessed_addrs && final(self).substate.accessed_storage == old(self).substate.accessed_storage,
            r is Ok ==> final(self).rw.writes@ == old(self).rw.writes@.push(
                Location::Basic(*address),
            ),
            r is Ok ==> final(self).rw.reads@.len() == old(self).rw.reads@.len() + 1 && final(self).rw.reads@.drop_last() == old(self).rw.reads@ && final(self).rw.reads@.last().0
                == Location::Basic(*address) && final(self).rw.reads@.last().1@ == eff_balance(
                old(self).substate,
                old(self).backend.accounts@,
                address@,
            ),
            final(self).substate.checkpoints == old(self).substate.checkpoints,
            final(self).backend == old(self).backend,
            final(self).config == old(self).config,
            final(self).gas_limit == old(self).gas_limit,
            final(self).precompiles == old(self).precompiles,
            final(self).simulation == old(self).simulation,
    {
        let value = self.balance(address);
        let texists = self.backend.exists_account(target);
        let cost = suicide_cost(value, texists, &self.config);
        match self.record_cost(cost) {
            Ok(()) => {},
            Err(e) => {
                return Err(e);
            },
        }
        let already = self.substate.deleted(address);
        let delta = suicide_refund(already);
        let dlen = self.substate.deletes.len();
        proof {
            assert(0 <= delta <= 24000);
            assert(self.substate.deletes@.len() == dlen);
            assert(-24000 * (1 + usize::MAX as int + usize::MAX as int) <= self.refund
                <= 24000 * (1 + usize::MAX as int + usize::MAX as int));
        }
        self.refund = self.refund + delta as i128;
        self.substate.set_deleted(address);
        self.substate.set_balance(address, U256::zero(), &self.backend);
        self.rw.reads.push((Location::Basic(*address), value));
        self.rw.writes.push(Location::Basic(*address));
        proof {
            assert(self.rw.reads@.drop_last() =~= old(self).rw.reads@);
            assert(self.rw.writes@ =~= old(self).rw.writes@.push(Location::Basic(*address)));
        }
        Ok(())
    }

    /// Push a snapshot of the substate and of the refund counter: entering
    /// a nested call.
    pub fn checkpoint(&mut self)
        requires
            old(self).wf(),
        ensures
            final(self).wf(),
            final(self).substate.checkpoints@.len() == old(self).substate.checkpoints@.len() + 1,
            final(self).substate.checkpoints@.drop_last() == old(self).substate.checkpoints@,
            cp_matches(
                final(self).substate.checkpoints@.last(),
                old(self).substate,
                old(self).refund,
            ),
            final(self).substate.pending == old(self).substate.pending,
            final(self).substate.deletes == old(self).substate.deletes,
            final(self).substate.logs == old(self).substate.logs,
            final(self).substate.accessed_addrs == old(self).substate.accessed_addrs,
            final(self).substate.accessed_storage == old(self).substate.accessed_storage,
            final(self).used_gas == old(self).used_gas,
            final(self).refund == old(self).refund,
            final(self).rw == old(self).rw,
            final(self).backend == old(self).backend,
            final(self).config == old(self).config,
            final(self).gas_limit == old(self).gas_limit,
            final(self).precompiles == old(self).precompiles,
            final(self).simulation == old(self).simulation,
    {
        let refund = self.refund;
        self.substate.checkpoint(refund);
        proof {
            let cps = self.substate.checkpoints@;
            assert forall|i: int|
                0 <= i < cps.len() implies refund_bound(
                (#[trigger] cps[i]).refund as int,
                self.used_gas as int,
                cps[i].deletes@.len() as int,
            ) by {
                if i < cps.len() - 1 {
                    assert(cps[i] == old(self).substate.checkpoints@[i]);
                } else {
                    assert(cps[i].refund == old(self).refund);
                    assert(cps[i].deletes@ == old(self).substate.deletes@);
                }
            }
        }
    }

    /// Pop and discard the innermost snapshot: the nested call succeeded,
    /// its effects and refund adjustments are kept.
    pub fn commit_checkpoint(&mut self)
        requires
            old(self).wf(),
            old(self).substate.checkpoints@.len() > 0,
        ensures
            final(self).wf(),
            final(self).substate.checkpoints@ == old(self).substate.checkpoints@.drop_last(),
            final(self).substate.pending == old(self).substate.pending,
            final(self).substate.deletes == old(self).substate.deletes,
            final(self).substate.logs == old(self).substate.logs,
            final(self).substate.accessed_addrs == old(self).substate.accessed_addrs,
            final(self).substate.accessed_storage == old(self).substate.accessed_storage,
            final(self).used_gas == old(self).used_gas,
            final(self).refund == old(self).refund,
            final(self).rw == old(self).rw,
            final(self).backend == old(self).backend,
            final(self).config == old(self).config,
            final(self).gas_limit == old(self).gas_limit,
            final(self).precompiles == old(self).precompiles,
            final(self).simulation == old(self).simulation,
    {
        self.substate.commit_checkpoint();
    }

    /// Pop the innermost snapshot and restore the substate and the refund
    /// counter to it: the nested call failed, every effect inside it —
    /// including its refund adjustments — is undone.
    pub fn revert_checkpoint(&mut self)
        requires
            old(self).wf(),
            old(self).substate.checkpoints@.len() > 0,
        ensures
            final(self).wf(),
            final(self).substate.checkpoints@ == old(self).substate.checkpoints@.drop_last(),
            final(self).substate.pending == old(self).substate.checkpoints@.last().pending,
            final(self).substate.deletes == old(self).substate.checkpoints@.last().deletes,
            final(self).substate.logs@ == old(self).substate.logs@.take(
                old(self).substate.checkpoints@.last().logs_len as int,
            ),
            final(self).substate.accessed_addrs == old(self).substate.checkpoints@.last().accessed_addrs,
            final(self).substate.accessed_storage == old(self).substate.checkpoints@.last().accessed_storage,
            final(self).refund == old(self).substate.checkpoints@.last().refund,
            final(self).used_gas == old(self).used_gas,
            final(self).rw == old(self).rw,
            final(self).backend == old(self).backend,
            final(self).config == old(self).config,
            final(self).gas_limit == old(self).gas_limit,
            final(self).precompiles == old(self).precompiles,
            final(self).simulation == old(self).simulation,
    {
        proof {
            assert(refund_bound(
                old(self).substate.checkpoints@.last().refund as int,
                old(self).used_gas as int,
                old(self).substate.checkpoints@.last().deletes@.len() as int,
            ));
        }
        let refund = self.substate.revert_checkpoint();
        self.refund = refund;
    }

    /// Terminal hand-off: consume the executor's substate and return the
    /// accumulated changeset and logs for [`MemoryBackend::apply`]. Only
    /// valid once every nested checkpoint has been resolved.
    pub fn deconstruct(self) -> (r: (Vec<Apply>, Vec<Log>))
        requires
            self.wf(),
            self.substate.checkpoints@.len() == 0,
        ensures
            r.0@.len() == self.substate.pending@.len() + self.substate.deletes@.len(),
            forall|i: int|
                0 <= i < self.substate.pending@.len() ==> crate::substate::is_modify_of(
                    #[trigger] r.0@[i],
                    self.substate.pending@[i],
                ),
            forall|j: int|
                0 <= j < self.substate.deletes@.len() ==> #[trigger] r.0@[self.substate.pending@.len()
                    + j] == (Apply::Delete { address: self.substate.deletes@[j] }),
            r.1 == self.substate.logs,
    {
        self.substate.deconstruct()
    }
}

} // verus!

verus! {

/// The model of one emitted log.
pub ghost struct LogModel {
    pub address: nat,
    pub topics: Seq<nat>,
    pub data: Seq<u8>,
}

/// The model state one call's metered operations fold over: the callee's
/// storage, all balances, the deletion marks, the emitted logs, and the
/// gas/refund counters.
pub ghost struct ExecSt {
    pub slots: Map<nat, nat>,
    pub balances: Map<nat, nat>,
    pub deleted: Set<nat>,
    pub logs: Seq<LogModel>,
    pub used: int,
    pub refund: int,
}

/// Charge `cost` gas against `limit`: out-of-gas when the cost itself
/// exceeds machine width or the limit cannot cover it.
pub open spec fn charge(limit: int, st: ExecSt, cost: int) -> Result<ExecSt, ExitError> {
    if cost > usize::MAX || st.used + cost > limit {
        Err(ExitError::OutOfGas)
    } else {
        Ok(
            ExecSt {
                slots: st.slots,
                balances: st.balances,
                deleted: st.deleted,
                logs: st.logs,
                used: st.used + cost,
                refund: st.refund,
            },
        )
    }
}

/// The meaning of one metered operation issued against callee `to`:
/// `b` is the base snapshot supplying the original slot values and account
/// existence.
pub open spec fn step_op(
    cfg: Config,
    b: Seq<(Address, MemoryAccount)>,
    to: nat,
    limit: int,
    st: ExecSt,
    op: RuntimeOp,
) -> Result<ExecSt, ExitError> {
    match op {
        RuntimeOp::ChargeGas { amount } => charge(limit, st, amount as int),
        RuntimeOp::SStore { key, value } => {
            match charge(
                limit,
                st,
                sstore_cost_spec(slot_sem(b, to, key@), st.slots[key@], value@, cfg),
            ) {
                Ok(st1) => Ok(
                    ExecSt {
                        slots: st1.slots.insert(key@, value@),
                        balances: st1.balances,
                        deleted: st1.deleted,
                        logs: st1.logs,
                        used: st1.used,
                        refund: st1.refund + sstore_refund_spec(
                            slot_sem(b, to, key@),
                            st.slots[key@],
                            value@,
                            cfg,
                        ),
                    },
                ),
                Err(e) => Err(e),
            }
        },
        RuntimeOp::Log { topics, data } => {
            match charge(limit, st, log_cost_spec(topics@.len(), data@.len())) {
                Ok(st1) => Ok(
                    ExecSt {
                        slots: st1.slots,
                        balances: st1.balances,
                        deleted: st1.deleted,
                        logs: st1.logs.push(
                            LogModel {
                                address: to,
                                topics: topics@.map_values(|t: U256| t@),
                                data: data@,
                            },
                        ),
                        used: st1.used,
                        refund: st1.refund,
                    },
                ),
                Err(e) => Err(e),
            }
        },
        RuntimeOp::Fail { error } => Err(error),
        RuntimeOp::Suicide { target } => {
            match charge(
                limit,
                st,
                suicide_cost_spec(st.balances[to], has_acct(b, target@), cfg),
            ) {
                Ok(st1) => Ok(
                    ExecSt {
                        slots: st1.slots,
                        balances: st1.balances.insert(to, 0),
                        deleted: st1.deleted.insert(to),
                        logs: st1.logs,
                        used: st1.used,
                        refund: st1.refund + (if st.deleted.contains(to) {
                            0int
                        } else {
                            R_SUICIDE as int
                        }),
                    },
                ),
                Err(e) => Err(e),
            }
        },
    }
}

/// Fold of a whole operation sequence, failing at the first failing step.
pub open spec fn run_ops(
    cfg: Config,
    b: Seq<(Address, MemoryAccount)>,
    to: nat,
    limit: int,
    st: ExecSt,
    ops: Seq<RuntimeOp>,
) -> Result<ExecSt, ExitError>
    decreases ops.len(),
{
    if ops.len() == 0 {
        Ok(st)
    } else {
        match run_ops(cfg, b, to, limit, st, ops.drop_last()) {
            Ok(st1) => step_op(cfg, b, to, limit, st1, ops.last()),
            Err(e) => Err(e),
        }
    }
}

/// An error of an earlier prefix decides the whole fold.
pub proof fn lemma_run_ops_propagate(
    cfg: Config,
    b: Seq<(Address, MemoryAccount)>,
    to: nat,
    limit: int,
    st: ExecSt,
    ops: Seq<RuntimeOp>,
    i: int,
)
    requires
        0 <= i <= ops.len(),
        run_ops(cfg, b, to, limit, st, ops.take(i)) is Err,
    ensures
        run_ops(cfg, b, to, limit, st, ops) == run_ops(cfg, b, to, limit, st, ops.take(i)),
    decreases ops.len() - i,
{
    if i == ops.len() {
        assert(ops.take(i) =~= ops);
    } else {
        assert(ops.take(i + 1).drop_last() =~= ops.take(i));
        lemma_run_ops_propagate(cfg, b, to, limit, st, ops, i + 1);
    }
}

/// The gas consumed when the fold stops: the whole fold's figure when
/// every step fits, else the figure just before the first failing step
/// (a failing charge consumes nothing).
pub open spec fn run_ops_used(
    cfg: Config,
    b: Seq<(Address, MemoryAccount)>,
    to: nat,
    limit: int,
    st: ExecSt,
    ops: Seq<RuntimeOp>,
) -> int
    decreases ops.len(),
{
    if ops.len() == 0 {
        st.used
    } else {
        match run_ops(cfg, b, to, limit, st, ops.drop_last()) {
            Ok(st1) => match step_op(cfg, b, to, limit, st1, ops.last()) {
                Ok(st2) => st2.used,
                Err(_) => st1.used,
            },
            Err(_) => run_ops_used(cfg, b, to, limit, st, ops.drop_last()),
        }
    }
}

/// Once a prefix fails, the consumed-gas figure of the whole sequence is
/// that prefix's.
pub proof fn lemma_run_ops_used_propagate(
    cfg: Config,
    b: Seq<(Address, MemoryAccount)>,
    to: nat,
    limit: int,
    st: ExecSt,
    ops: Seq<RuntimeOp>,
    i: int,
)
    requires
        0 <= i <= ops.len(),
        run_ops(cfg, b, to, limit, st, ops.take(i)) is Err,
    ensures
        run_ops_used(cfg, b, to, limit, st, ops) == run_ops_used(cfg, b, to, limit, st, ops.take(i)),
    decreases ops.len() - i,
{
    if i == ops.len() {
        assert(ops.take(i) =~= ops);
    } else {
        assert(ops.take(i + 1).drop_last() =~= ops.take(i));
        lemma_run_ops_propagate(cfg, b, to, limit, st, ops, i);
        lemma_run_ops_used_propagate(cfg, b, to, limit, st, ops, i + 1);
    }
}

/// The fold's metered operations destroy only the callee: the deletion
/// marks never grow past it.
pub proof fn lemma_run_ops_deleted(
    cfg: Config,
    b: Seq<(Address, MemoryAccount)>,
    to: nat,
    limit: int,
    st: ExecSt,
    ops: Seq<RuntimeOp>,
)
    requires
        forall|a: nat| st.deleted.contains(a) ==> a == to,
        run_ops(cfg, b, to, limit, st, ops) is Ok,
    ensures
        forall|a: nat|
            run_ops(cfg, b, to, limit, st, ops)->Ok_0.deleted.contains(a) ==> a == to,
    decreases ops.len(),
{
    if ops.len() != 0 {
        lemma_run_ops_deleted(cfg, b, to, limit, st, ops.drop_last());
    }
}

/// Per-byte data cost of a call transaction.
pub open spec fn data_cost(data: Seq<u8>, cfg: Config) -> int
    decreases data.len(),
{
    if data.len() == 0 {
        0
    } else {
        data_cost(data.drop_last(), cfg) + (if data.last() == 0 {
            cfg.gas_transaction_zero_data as int
        } else {
            cfg.gas_transaction_non_zero_data as int
        })
    }
}

/// Intrinsic gas of a call transaction: the base transaction cost plus the
/// per-byte data cost.
pub open spec fn intrinsic_gas(data: Seq<u8>, cfg: Config) -> int {
    cfg.gas_transaction_call + data_cost(data, cfg)
}

/// The model state at the start of the metered phase: the callee's storage
/// and all balances as the base snapshot has them, with the call's value
/// moved from caller to callee, and the intrinsic gas already charged.
pub open spec fn init_state(
    b: Seq<(Address, MemoryAccount)>,
    caller: nat,
    to: nat,
    value: nat,
    intrinsic: int,
) -> ExecSt {
    ExecSt {
        slots: Map::new(|k: nat| true, |k: nat| slot_sem(b, to, k)),
        balances: Map::new(
            |a: nat| true,
            |a: nat|
                if a == caller && a == to {
                    balance_sem(b, a)
                } else if a == caller {
                    (balance_sem(b, caller) - value) as nat
                } else if a == to {
                    (balance_sem(b, to) + value) as nat
                } else {
                    balance_sem(b, a)
                },
        ),
        deleted: Set::empty(),
        logs: Seq::empty(),
        used: intrinsic,
        refund: 0,
    }
}

/// The executor's concrete state denotes the model state.
pub open spec fn matches_model(ex: StackExecutor, to: nat, st: ExecSt) -> bool {
    &&& forall|k: nat| eff_slot(ex.substate, ex.backend.accounts@, to, k) == st.slots[k]
    &&& forall|a: nat| eff_balance(ex.substate, ex.backend.accounts@, a) == st.balances[a]
    &&& forall|a: nat| addr_in(ex.substate.deletes@, a) == st.deleted.contains(a)
    &&& ex.substate.logs@.len() == st.logs.len()
    &&& forall|i: int|
        0 <= i < st.logs.len() ==> (#[trigger] ex.substate.logs@[i]).address@ == st.logs[i].address
            && ex.substate.logs@[i].topics@.map_values(|t: U256| t@) == st.logs[i].topics
            && ex.substate.logs@[i].data@ == st.logs[i].data
    &&& ex.used_gas == st.used
    &&& ex.refund == st.refund
}

/// An address named by a pre-warmed access list.
pub open spec fn al_addr(al: Seq<(Address, Vec<U256>)>, x: nat) -> bool {
    exists|i: int| 0 <= i < al.len() && al[i].0@ == x
}

/// A storage slot named by a pre-warmed access list.
pub open spec fn al_slot(al: Seq<(Address, Vec<U256>)>, x: nat, k: nat) -> bool {
    exists|i: int, j: int|
        0 <= i < al.len() && 0 <= j < al[i].1@.len() && al[i].0@ == x && al[i].1@[j]@ == k
}

} // verus!

verus! {

impl StackExecutor {
    /// Run one call transaction: charge the intrinsic gas, warm the
    /// caller, the callee and the access list, transfer the value under a
    /// checkpoint, then dispatch the callee's metered operations. A frame
    /// failure reverts the checkpoint — gas stays consumed, every state
    /// effect and refund adjustment is undone. Succeeds exactly when the
    /// intrinsic gas fits, the caller can fund the value, and every metered
    /// operation fits in gas. The metered phase never alters nonces or
    /// code, as the contract states: the envelope-level nonce check and
    /// increment belong to the transaction-envelope processing outside
    /// this core, beside decoding and signature verification.
    pub fn transact_call(
        &mut self,
        caller: Address,
        address: Address,
        value: U256,
        data: Vec<u8>,
        gas_limit: usize,
        access_list: Vec<(Address, Vec<U256>)>,
        ops: Vec<RuntimeOp>,
    ) -> (r: (ExitReason, Vec<u8>))
        requires
            old(self).wf(),
            old(self).fresh(),
            caller@ != address@ ==> value@ + balance_sem(old(self).backend.accounts@, address@)
                < crate::uint::limit256(),
        ensures
            final(self).wf(),
            final(self).backend == old(self).backend,
            final(self).config == old(self).config,
            final(self).gas_limit == gas_limit,
            r.1@.len() == 0,
            intrinsic_gas(data@, old(self).config) > gas_limit ==> (r.0 == ExitReason::Error(
                ExitError::OutOfGas,
            ) && final(self).used_gas == 0 && final(self).substate.pending@.len() == 0 && final(self).substate.logs@.len() == 0 && final(self).substate.deletes@.len() == 0 && final(self).refund == 0 && final(self).substate.checkpoints@.len() == 0),
            (intrinsic_gas(data@, old(self).config) <= gas_limit && balance_sem(
                old(self).backend.accounts@,
                caller@,
            ) < value@) ==> (r.0 == ExitReason::Error(ExitError::OutOfFund) && final(self).used_gas
                == intrinsic_gas(data@, old(self).config) && final(self).substate.pending@.len()
                == 0 && final(self).substate.logs@.len() == 0 && final(self).substate.deletes@.len() == 0 && final(self).refund == 0 && final(self).substate.checkpoints@.len() == 0),
            (intrinsic_gas(data@, old(self).config) <= gas_limit && balance_sem(
                old(self).backend.accounts@,
                caller@,
            ) >= value@ && run_ops(
                old(self).config,
                old(self).backend.accounts@,
                address@,
                gas_limit as int,
                init_state(
                    old(self).backend.accounts@,
                    caller@,
                    address@,
                    value@,
                    intrinsic_gas(data@, old(self).config),
                ),
                ops@,
            ) is Ok) ==> (r.0 == ExitReason::Succeed(ExitSucceed::Stopped) && matches_model(
                *final(self),
                address@,
                run_ops(
                    old(self).config,
                    old(self).backend.accounts@,
                    address@,
                    gas_limit as int,
                    init_state(
                        old(self).backend.accounts@,
                        caller@,
                        address@,
                        value@,
                        intrinsic_gas(data@, old(self).config),
                    ),
                    ops@,
                )->Ok_0,
            ) && final(self).substate.checkpoints@.len() == 0),
            (intrinsic_gas(data@, old(self).config) <= gas_limit && balance_sem(
                old(self).backend.accounts@,
                caller@,
            ) >= value@ && run_ops(
                old(self).config,
                old(self).backend.accounts@,
                address@,
                gas_limit as int,
                init_state(
                    old(self).backend.accounts@,
                    caller@,
                    address@,
                    value@,
                    intrinsic_gas(data@, old(self).config),
                ),
                ops@,
            ) is Err) ==> (r.0 == ExitReason::Error(
                run_ops(
                    old(self).config,
                    old(self).backend.accounts@,
                    address@,
                    gas_limit as int,
                    init_state(
                        old(self).backend.accounts@,
                        caller@,
                        address@,
                        value@,
                        intrinsic_gas(data@, old(self).config),
                    ),
                    ops@,
                )->Err_0,
            ) && final(self).substate.pending@.len() == 0 && final(self).substate.logs@.len() == 0
                && final(self).substate.deletes@.len() == 0 && final(self).refund == 0 && final(self).used_gas == run_ops_used(
                old(self).config,
                old(self).backend.accounts@,
                address@,
                gas_limit as int,
                init_state(
                    old(self).backend.accounts@,
                    caller@,
                    address@,
                    value@,
                    intrinsic_gas(data@, old(self).config),
                ),
                ops@,
            ) && final(self).substate.checkpoints@.len() == 0),
            forall|a: nat|
                eff_nonce(final(self).substate, final(self).backend.accounts@, a) == nonce_sem(
                    old(self).backend.accounts@,
                    a,
                ),
            forall|a: nat|
                eff_code(final(self).substate, final(self).backend.accounts@, a) == code_sem(
                    old(self).backend.accounts@,
                    a,
                ),
            forall|x: nat, k: nat|
                x != address@ ==> eff_slot(
                    final(self).substate,
                    final(self).backend.accounts@,
                    x,
                    k,
                ) == slot_sem(old(self).backend.accounts@, x, k),
            intrinsic_gas(data@, old(self).config) <= gas_limit ==> addr_in(
                final(self).substate.accessed_addrs@,
                caller@,
            ),
            intrinsic_gas(data@, old(self).config) <= gas_limit ==> addr_in(
                final(self).substate.accessed_addrs@,
                address@,
            ),
            intrinsic_gas(data@, old(self).config) <= gas_limit ==> (forall|x: nat|
                al_addr(access_list@, x) ==> addr_in(final(self).substate.accessed_addrs@, x)),
            intrinsic_gas(data@, old(self).config) <= gas_limit ==> (forall|x: nat, k: nat|
                al_slot(access_list@, x, k) ==> pair_in(final(self).substate.accessed_storage@, x, k)),
    {
        let ghost b = self.backend.accounts@;
        let ghost cfg = self.config;
        self.gas_limit = gas_limit;
        // Intrinsic gas: base transaction cost plus per-byte data cost,
        // computed in a wide domain.
        let mut acc: u128 = self.config.gas_transaction_call as u128;
        let mut i: usize = 0;
        while i < data.len()
            invariant
                i <= data@.len(),
                acc == cfg.gas_transaction_call + data_cost(data@.take(i as int), cfg),
                acc <= usize::MAX as u128 + 100000 * (i as u128),
                cfg == self.config,
                cfg.wf(),
            decreases data@.len() - i,
        {
            proof {
                assert(data@.take(i + 1 as int).drop_last() =~= data@.take(i as int));
                assert(data@.take(i + 1 as int).last() == data@[i as int]);
            }
            if data[i] == 0 {
                acc = acc + self.config.gas_transaction_zero_data as u128;
            } else {
                acc = acc + self.config.gas_transaction_non_zero_data as u128;
            }
            i += 1;
        }
        proof {
            assert(data@.take(data@.len() as int) =~= data@);
        }
        if acc > gas_limit as u128 {
            return (ExitReason::Error(ExitError::OutOfGas), Vec::new());
        }
        let intrinsic = acc as usize;
        match self.record_cost(intrinsic) {
            Ok(()) => {},
            Err(_) => {
                proof {
                    assert(false);
                }
                return (ExitReason::Error(ExitError::OutOfGas), Vec::new());
            },
        }
        // Warm the caller, the callee and the pre-warmed access list.
        self.substate.access_address(&caller);
        self.substate.access_address(&address);
        let mut ai: usize = 0;
        while ai < access_list.len()
            invariant
                self.wf(),
                ai <= access_list@.len(),
                addr_in(self.substate.accessed_addrs@, caller@),
                addr_in(self.substate.accessed_addrs@, address@),
                forall|x: nat|
                    (exists|i1: int|
                        0 <= i1 < ai && (#[trigger] access_list@[i1]).0@ == x) ==> addr_in(
                        self.substate.accessed_addrs@,
                        x,
                    ),
                forall|x: nat, k: nat|
                    (exists|i1: int, j1: int|
                        0 <= i1 < ai && 0 <= j1 < access_list@[i1].1@.len()
                            && access_list@[i1].0@ == x && (#[trigger] access_list@[i1].1@[j1])@
                            == k) ==> pair_in(self.substate.accessed_storage@, x, k),
                self.substate.pending@.len() == 0,
                self.substate.deletes@.len() == 0,
                self.substate.logs@.len() == 0,
                self.substate.checkpoints@.len() == 0,
                self.used_gas == intrinsic,
                self.refund == 0,
                intrinsic as int == intrinsic_gas(data@, cfg),
                intrinsic <= gas_limit,
                cfg == self.config,
                b == self.backend.accounts@,
                self.backend == old(self).backend,
                self.config == old(self).config,
                self.simulation == old(self).simulation,
                self.gas_limit == gas_limit,
                self.rw == old(self).rw,
            decreases access_list@.len() - ai,
        {
            let entry_addr = access_list[ai].0;
            self.substate.access_address(&entry_addr);
            let mut aj: usize = 0;
            while aj < access_list[ai].1.len()
                invariant
                    self.wf(),
                    ai < access_list@.len(),
                    aj <= access_list@[ai as int].1@.len(),
                    entry_addr == access_list@[ai as int].0,
                    addr_in(self.substate.accessed_addrs@, caller@),
                    addr_in(self.substate.accessed_addrs@, address@),
                    forall|x: nat|
                        (exists|i1: int|
                            0 <= i1 < ai + 1 && (#[trigger] access_list@[i1]).0@ == x)
                            ==> addr_in(self.substate.accessed_addrs@, x),
                    forall|x: nat, k: nat|
                        (exists|i1: int, j1: int|
                            0 <= i1 < ai && 0 <= j1 < access_list@[i1].1@.len()
                                && access_list@[i1].0@ == x && (#[trigger] access_list@[i1].1@[j1])@
                                == k) ==> pair_in(self.substate.accessed_storage@, x, k),
                    forall|k: nat|
                        (exists|j1: int|
                            0 <= j1 < aj && (#[trigger] access_list@[ai as int].1@[j1])@ == k)
                            ==> pair_in(self.substate.accessed_storage@, entry_addr@, k),
                    self.substate.pending@.len() == 0,
                    self.substate.deletes@.len() == 0,
                    self.substate.logs@.len() == 0,
                    self.substate.checkpoints@.len() == 0,
                    self.used_gas == intrinsic,
                    self.refund == 0,
                    intrinsic as int == intrinsic_gas(data@, cfg),
                    intrinsic <= gas_limit,
                    cfg == self.config,
                    b == self.backend.accounts@,
                    self.backend == old(self).backend,
                    self.config == old(self).config,
                    self.simulation == old(self).simulation,
                    self.gas_limit == gas_limit,
                    self.rw == old(self).rw,
                decreases access_list@[ai as int].1@.len() - aj,
            {
                let key = access_list[ai].1[aj];
                self.substate.access_storage(&entry_addr, &key);
                aj += 1;
            }
            ai += 1;
        }
        // Transfer the value under a checkpoint.
        self.checkpoint();
        let ghost cp0 = self.substate.checkpoints@[0];
        let bc = self.balance(&caller);
        if !value.le(&bc) {
            self.revert_checkpoint();
            return (ExitReason::Error(ExitError::OutOfFund), Vec::new());
        }
        let ncb = match bc.checked_sub(&value) {
            Some(v) => v,
            None => U256::zero(),
        };
        self.substate.set_balance(&caller, ncb, &self.backend);
        let bt = self.balance(&address);
        proof {
            crate::uint::lemma_u256_bound(bc);
        }
        let nbt = match bt.checked_add(&value) {
            Some(v) => v,
            None => U256::zero(),
        };
        self.substate.set_balance(&address, nbt, &self.backend);
        self.rw.reads.push((Location::Basic(caller), bc));
        self.rw.writes.push(Location::Basic(caller));
        self.rw.writes.push(Location::Basic(address));
        let ghost st0 = init_state(b, caller@, address@, value@, intrinsic as int);
        proof {
            assert forall|a: nat|
                eff_balance(self.substate, b, a) == st0.balances[a] by {}
            assert forall|k: nat| eff_slot(self.substate, b, address@, k) == st0.slots[k] by {}
        }
        // Dispatch the callee's metered operations.
        let mut oi: usize = 0;
        while oi < ops.len()
            invariant
                self.wf(),
                oi <= ops@.len(),
                run_ops(cfg, b, address@, gas_limit as int, st0, ops@.take(oi as int)) is Ok,
                matches_model(
                    *self,
                    address@,
                    run_ops(cfg, b, address@, gas_limit as int, st0, ops@.take(oi as int))->Ok_0,
                ),
                forall|a: nat| eff_nonce(self.substate, b, a) == nonce_sem(b, a),
                forall|a: nat| eff_code(self.substate, b, a) == code_sem(b, a),
                forall|x: nat, k: nat|
                    x != address@ ==> eff_slot(self.substate, b, x, k) == slot_sem(b, x, k),
                self.substate.checkpoints@.len() == 1,
                self.substate.checkpoints@[0] == cp0,
                cp0.pending@.len() == 0,
                cp0.deletes@.len() == 0,
                cp0.logs_len == 0,
                cp0.refund == 0,
                self.backend == old(self).backend,
                self.config == old(self).config,
                self.simulation == old(self).simulation,
                self.gas_limit == gas_limit,
                cfg == self.config,
                b == self.backend.accounts@,
                intrinsic as int == intrinsic_gas(data@, cfg),
                intrinsic <= gas_limit,
                balance_sem(b, caller@) >= value@,
                st0 == init_state(b, caller@, address@, value@, intrinsic as int),
                addr_in(cp0.accessed_addrs@, caller@),
                addr_in(cp0.accessed_addrs@, address@),
                forall|x: nat| al_addr(access_list@, x) ==> addr_in(cp0.accessed_addrs@, x),
                forall|x: nat, k: nat|
                    al_slot(access_list@, x, k) ==> pair_in(cp0.accessed_storage@, x, k),
                addr_in(self.substate.accessed_addrs@, caller@),
                addr_in(self.substate.accessed_addrs@, address@),
                forall|x: nat|
                    al_addr(access_list@, x) ==> addr_in(self.substate.accessed_addrs@, x),
                forall|x: nat, k: nat|
                    al_slot(access_list@, x, k) ==> pair_in(
                        self.substate.accessed_storage@,
                        x,
                        k,
                    ),
            decreases ops@.len() - oi,
        {
            let ghost st_i = run_ops(cfg, b, address@, gas_limit as int, st0, ops@.take(oi as int))->Ok_0;
            let ghost pre_self = *self;
            proof {
                assert(ops@.take(oi + 1 as int).drop_last() =~= ops@.take(oi as int));
                assert(ops@.take(oi + 1 as int).last() == ops@[oi as int]);
                assert(matches_model(pre_self, address@, st_i));

            }
            let step: Result<(), ExitError> = match &ops[oi] {
                RuntimeOp::ChargeGas { amount } => self.record_cost(*amount),
                RuntimeOp::SStore { key, value } => self.sstore_op(&address, *key, *value),
                RuntimeOp::Log { topics, data } => self.log_op(
                    &address,
                    crate::util::clone_vec_copy(topics),
                    crate::util::clone_vec_copy(data),
                ),
                RuntimeOp::Suicide { target } => self.suicide_op(&address, target),
                RuntimeOp::Fail { error } => Err(*error),
            };
            match step {
                Ok(()) => {
                    proof {
                        let stn = run_ops(
                            cfg,
                            b,
                            address@,
                            gas_limit as int,
                            st0,
                            ops@.take(oi + 1 as int),
                        );
                        assert(stn == step_op(cfg, b, address@, gas_limit as int, st_i, ops@[oi as int]));
                        match ops@[oi as int] {
                            RuntimeOp::ChargeGas { amount } => {
                                assert(stn == charge(gas_limit as int, st_i, amount as int));
                                assert(stn is Ok);
                                assert(matches_model(*self, address@, stn->Ok_0));
                            },
                            RuntimeOp::SStore { key, value } => {
                                assert(stn is Ok);
                                assert forall|k: nat|
                                    eff_slot(self.substate, b, address@, k) == stn->Ok_0.slots[k]
                                    by {}
                                assert(matches_model(*self, address@, stn->Ok_0));
                            },
                            RuntimeOp::Log { topics, data } => {
                                assert(stn is Ok);
                                let lm = stn->Ok_0.logs.last();
                                assert(self.substate.logs@.last().topics@ == topics@);
                                assert(self.substate.logs@.last().topics@.map_values(
                                    |t: U256| t@,
                                ) == lm.topics);
                                assert forall|i1: int|
                                    0 <= i1 < stn->Ok_0.logs.len() implies (
                                #[trigger] self.substate.logs@[i1]).address@
                                    == stn->Ok_0.logs[i1].address
                                    && self.substate.logs@[i1].topics@.map_values(|t: U256| t@)
                                    == stn->Ok_0.logs[i1].topics && self.substate.logs@[i1].data@
                                    == stn->Ok_0.logs[i1].data by {
                                    if i1 < stn->Ok_0.logs.len() - 1 {
                                        assert(self.substate.logs@[i1] == self.substate.logs@.drop_last()[i1]);
                                        assert(stn->Ok_0.logs[i1] == st_i.logs[i1]);
                                    }
                                }
                                assert(matches_model(*self, address@, stn->Ok_0));
                            },
                            RuntimeOp::Suicide { target } => {
                                assert(stn is Ok);
                                assert(matches_model(*self, address@, stn->Ok_0));
                            },
                            RuntimeOp::Fail { .. } => {
                                assert(false);
                            },
                        }
                    }
                },
                Err(e) => {
                    proof {
                        let stn = run_ops(
                            cfg,
                            b,
                            address@,
                            gas_limit as int,
                            st0,
                            ops@.take(oi + 1 as int),
                        );
                        assert(stn == step_op(cfg, b, address@, gas_limit as int, st_i, ops@[oi as int]));
                        assert(stn is Err && stn->Err_0 == e);
                        lemma_run_ops_propagate(
                            cfg,
                            b,
                            address@,
                            gas_limit as int,
                            st0,
                            ops@,
                            oi + 1,
                        );
                        assert(run_ops_used(
                            cfg,
                            b,
                            address@,
                            gas_limit as int,
                            st0,
                            ops@.take(oi + 1 as int),
                        ) == st_i.used);
                        lemma_run_ops_used_propagate(
                            cfg,
                            b,
                            address@,
                            gas_limit as int,
                            st0,
                            ops@,
                            oi + 1,
                        );
                    }
                    self.revert_checkpoint();
                    return (ExitReason::Error(e), Vec::new());
                },
            }
            proof {
                assert(self.substate.accessed_addrs@ == pre_self.substate.accessed_addrs@);
                assert(self.substate.accessed_storage@ == pre_self.substate.accessed_storage@);
                assert forall|x: nat|
                    al_addr(access_list@, x) implies addr_in(
                    self.substate.accessed_addrs@,
                    x,
                ) by {
                    assert(addr_in(pre_self.substate.accessed_addrs@, x));
                }
                assert forall|x: nat, k: nat|
                    al_slot(access_list@, x, k) implies pair_in(
                    self.substate.accessed_storage@,
                    x,
                    k,
                ) by {
                    assert(pair_in(pre_self.substate.accessed_storage@, x, k));
                }
            }
            oi += 1;
        }
        proof {
            assert(ops@.take(ops@.len() as int) =~= ops@);
        }
        self.commit_checkpoint();
        proof {
            let stf = run_ops(cfg, b, address@, gas_limit as int, st0, ops@)->Ok_0;
            assert(matches_model(*self, address@, stf));
        }
        (ExitReason::Succeed(ExitSucceed::Stopped), Vec::new())
    }
}

} // verus!

verus! {

/// The fold reads the base snapshot only through its semantic
/// projections, so two bases that agree pointwise drive it identically.
pub proof fn lemma_run_ops_congruence(
    cfg: Config,
    b1: Seq<(Address, MemoryAccount)>,
    b2: Seq<(Address, MemoryAccount)>,
    to: nat,
    limit: int,
    st: ExecSt,
    ops: Seq<RuntimeOp>,
)
    requires
        forall|a: nat| has_acct(b1, a) == has_acct(b2, a),
        forall|a: nat, k: nat| slot_sem(b1, a, k) == slot_sem(b2, a, k),
    ensures
        run_ops(cfg, b1, to, limit, st, ops) == run_ops(cfg, b2, to, limit, st, ops),
        run_ops_used(cfg, b1, to, limit, st, ops) == run_ops_used(cfg, b2, to, limit, st, ops),
    decreases ops.len(),
{
    if ops.len() != 0 {
        lemma_run_ops_congruence(cfg, b1, b2, to, limit, st, ops.drop_last());
    }
}

/// The initial model state likewise: bases agreeing pointwise give the
/// same initial state.
pub proof fn lemma_init_state_congruence(
    b1: Seq<(Address, MemoryAccount)>,
    b2: Seq<(Address, MemoryAccount)>,
    caller: nat,
    to: nat,
    value: nat,
    intrinsic: int,
)
    requires
        forall|a: nat| balance_sem(b1, a) == balance_sem(b2, a),
        forall|a: nat, k: nat| slot_sem(b1, a, k) == slot_sem(b2, a, k),
    ensures
        init_state(b1, caller, to, value, intrinsic) == init_state(b2, caller, to, value, intrinsic),
{
    let s1 = init_state(b1, caller, to, value, intrinsic);
    let s2 = init_state(b2, caller, to, value, intrinsic);
    assert(s1.slots =~= s2.slots);
    assert(s1.balances =~= s2.balances);
    assert(s1.deleted =~= s2.deleted);
    assert(s1.logs == s2.logs);
}

} // verus!

verus! {

/// The protocol bound on nested call depth.
pub const CALL_STACK_LIMIT: usize = 1024;

/// The divisor of the end-of-transaction refund cap: at most this fraction
/// of the gas used is ever handed back.
pub const MAX_REFUND_QUOTIENT: usize = 2;

/// The refund actually applied at commit time: never negative (clawbacks
/// below zero apply as nothing) and never more than the protocol fraction
/// of the gas used.
pub open spec fn applied_refund(used: int, refund: int) -> int {
    if refund < 0 {
        0
    } else if refund > used / MAX_REFUND_QUOTIENT as int {
        used / MAX_REFUND_QUOTIENT as int
    } else {
        refund
    }
}

impl GasSnapshot {
    /// The gas a transaction is charged for at commit time: the gas used
    /// less the applied refund. Intermediate refund bookkeeping may be
    /// negative; the cap binds only here, at the end.
    pub fn effective_gas_used(&self) -> (r: usize)
        ensures
            r == self.used_gas - applied_refund(self.used_gas as int, self.refund as int),
            r <= self.used_gas,
    {
        let cap = self.used_gas / MAX_REFUND_QUOTIENT;
        let applied: usize = if self.refund < 0 {
            0
        } else if self.refund > cap as i128 {
            cap
        } else {
            self.refund as usize
        };
        self.used_gas - applied
    }
}

impl StackExecutor {
    /// Enter a nested call frame: refused with a call-depth failure at the
    /// protocol stack limit, else a checkpoint is pushed for the frame.
    pub fn enter_call(&mut self) -> (r: Result<(), ExitError>)
        requires
            old(self).wf(),
        ensures
            final(self).wf(),
            r is Ok <==> old(self).substate.checkpoints@.len() < CALL_STACK_LIMIT,
            r is Err ==> r->Err_0 == ExitError::CallTooDeep && final(self).substate == old(self).substate && final(self).used_gas == old(self).used_gas && final(self).refund == old(self).refund && final(self).rw == old(self).rw,
            r is Ok ==> final(self).substate.checkpoints@.len() == old(self).substate.checkpoints@.len() + 1,
            r is Ok ==> final(self).substate.checkpoints@.drop_last() == old(self).substate.checkpoints@,
            r is Ok ==> cp_matches(
                final(self).substate.checkpoints@.last(),
                old(self).substate,
                old(self).refund,
            ),
            r is Ok ==> final(self).substate.pending == old(self).substate.pending && final(self).substate.deletes == old(self).substate.deletes && final(self).substate.logs == old(self).substate.logs && final(self).substate.accessed_addrs == old(self).substate.accessed_addrs && final(self).substate.accessed_storage == old(self).substate.accessed_storage,
            final(self).used_gas == old(self).used_gas,
            final(self).refund == old(self).refund,
            final(self).rw == old(self).rw,
            final(self).backend == old(self).backend,
            final(self).precompiles == old(self).precompiles,
            final(self).config == old(self).config,
            final(self).gas_limit == old(self).gas_limit,
            final(self).simulation == old(self).simulation,
    {
        if self.substate.checkpoint_depth() >= CALL_STACK_LIMIT {
            return Err(ExitError::CallTooDeep);
        }
        self.checkpoint();
        Ok(())
    }
}

} // verus!
