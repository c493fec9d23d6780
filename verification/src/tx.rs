use crate::backend::{
    balance_sem, code_sem, exists_sem, has_acct, nonce_sem, slot_sem, Address, Apply,
    MemoryAccount,
};
use crate::executor::{
    init_state, intrinsic_gas, lemma_init_state_congruence, lemma_run_ops_congruence, run_ops,
    ExecSt, GasSnapshot, RuntimeOp, RwSet,
};
use crate::execution_storage::{ExecutionBackend, MemoryStorage};
use crate::exit::{ExitError, ExitReason, ExitSucceed};
use crate::uint::{limit256, U256};
use vstd::prelude::*;

verus! {

/// One already-decoded, already-signature-verified call transaction, as the
/// external decoder hands it over.
pub struct Transaction {
    pub caller: Address,
    pub to: Address,
    pub value: U256,
    pub data: Vec<u8>,
    pub gas_limit: usize,
    pub access_list: Vec<(Address, Vec<U256>)>,
}

/// The fold a transaction's metered phase denotes over a storage's own
/// store.
pub open spec fn tx_run(s: MemoryStorage, tx: Transaction, ops: Seq<RuntimeOp>) -> Result<
    ExecSt,
    ExitError,
> {
    run_ops(
        s.config,
        s.backend.accounts@,
        tx.to@,
        tx.gas_limit as int,
        init_state(
            s.backend.accounts@,
            tx.caller@,
            tx.to@,
            tx.value@,
            intrinsic_gas(tx.data@, s.config),
        ),
        ops,
    )
}

/// The gas the metered phase consumes when it stops, whether or not it
/// completes.
pub open spec fn tx_run_used(s: MemoryStorage, tx: Transaction, ops: Seq<RuntimeOp>) -> int {
    crate::executor::run_ops_used(
        s.config,
        s.backend.accounts@,
        tx.to@,
        tx.gas_limit as int,
        init_state(
            s.backend.accounts@,
            tx.caller@,
            tx.to@,
            tx.value@,
            intrinsic_gas(tx.data@, s.config),
        ),
        ops,
    )
}

/// Execute one call transaction against the store, then apply its
/// accumulated changeset: the serial (one at a time) execution path. On
/// any frame failure nothing of the store changes. The recorded read/
/// write-set is handed back read-only for diagnostics and conflict
/// inspection; its recording is stated per operation on the executor.
pub fn tx_execution_serial(
    execution_state: &mut MemoryStorage,
    tx: Transaction,
    ops: Vec<RuntimeOp>,
) -> (r: (ExitReason, GasSnapshot, RwSet))
    requires
        old(execution_state).wf_storage(),
        tx.caller@ != tx.to@ ==> tx.value@ + balance_sem(
            old(execution_state).backend.accounts@,
            tx.to@,
        ) < limit256(),
    ensures
        final(execution_state).wf_storage(),
        final(execution_state).config == old(execution_state).config,
        intrinsic_gas(tx.data@, old(execution_state).config) > tx.gas_limit ==> (r.0
            == ExitReason::Error(ExitError::OutOfGas) && r.1.used_gas == 0),
        (intrinsic_gas(tx.data@, old(execution_state).config) <= tx.gas_limit && balance_sem(
            old(execution_state).backend.accounts@,
            tx.caller@,
        ) < tx.value@) ==> (r.0 == ExitReason::Error(ExitError::OutOfFund) && r.1.used_gas
            == intrinsic_gas(tx.data@, old(execution_state).config)),
        (intrinsic_gas(tx.data@, old(execution_state).config) <= tx.gas_limit && balance_sem(
            old(execution_state).backend.accounts@,
            tx.caller@,
        ) >= tx.value@ && tx_run(*old(execution_state), tx, ops@) is Err) ==> (r.0
            == ExitReason::Error(tx_run(*old(execution_state), tx, ops@)->Err_0) && r.1.used_gas
            == tx_run_used(*old(execution_state), tx, ops@)),
        (intrinsic_gas(tx.data@, old(execution_state).config) <= tx.gas_limit && balance_sem(
            old(execution_state).backend.accounts@,
            tx.caller@,
        ) >= tx.value@ && tx_run(*old(execution_state), tx, ops@) is Ok) ==> (r.0
            == ExitReason::Succeed(ExitSucceed::Stopped) && r.1.used_gas == tx_run(
            *old(execution_state),
            tx,
            ops@,
        )->Ok_0.used && r.1.refund == tx_run(*old(execution_state), tx, ops@)->Ok_0.refund),
        (intrinsic_gas(tx.data@, old(execution_state).config) <= tx.gas_limit && balance_sem(
            old(execution_state).backend.accounts@,
            tx.caller@,
        ) >= tx.value@ && tx_run(*old(execution_state), tx, ops@) is Ok) ==> (forall|a: nat|
            balance_sem(final(execution_state).backend.accounts@, a) == (if tx_run(
                *old(execution_state),
                tx,
                ops@,
            )->Ok_0.deleted.contains(a) {
                0nat
            } else {
                tx_run(*old(execution_state), tx, ops@)->Ok_0.balances[a]
            })),
        (intrinsic_gas(tx.data@, old(execution_state).config) <= tx.gas_limit && balance_sem(
            old(execution_state).backend.accounts@,
            tx.caller@,
        ) >= tx.value@ && tx_run(*old(execution_state), tx, ops@) is Ok) ==> (forall|k: nat|
            slot_sem(final(execution_state).backend.accounts@, tx.to@, k) == (if tx_run(
                *old(execution_state),
                tx,
                ops@,
            )->Ok_0.deleted.contains(tx.to@) {
                0nat
            } else {
                tx_run(*old(execution_state), tx, ops@)->Ok_0.slots[k]
            })),
        (intrinsic_gas(tx.data@, old(execution_state).config) <= tx.gas_limit && balance_sem(
            old(execution_state).backend.accounts@,
            tx.caller@,
        ) >= tx.value@ && tx_run(*old(execution_state), tx, ops@) is Ok) ==> (forall|x: nat, k: nat|
            x != tx.to@ ==> slot_sem(final(execution_state).backend.accounts@, x, k) == slot_sem(
                old(execution_state).backend.accounts@,
                x,
                k,
            )),
        r.0 is Error || r.0 is Revert ==> (forall|a: nat|
            balance_sem(final(execution_state).backend.accounts@, a) == balance_sem(
                old(execution_state).backend.accounts@,
                a,
            )) && (forall|a: nat, k: nat|
            slot_sem(final(execution_state).backend.accounts@, a, k) == slot_sem(
                old(execution_state).backend.accounts@,
                a,
                k,
            )),
{
    run_transaction(execution_state, tx, ops, false)
}

/// The simulation variant: the executor runs in dry-run mode, so its
/// read-set/write-set is never published to the multiversion layer; this
/// serial demo path still applies the resulting changeset, as the solo
/// execution flow does.
pub fn tx_simulation_serial(
    execution_state: &mut MemoryStorage,
    tx: Transaction,
    ops: Vec<RuntimeOp>,
) -> (r: (ExitReason, GasSnapshot, RwSet))
    requires
        old(execution_state).wf_storage(),
        tx.caller@ != tx.to@ ==> tx.value@ + balance_sem(
            old(execution_state).backend.accounts@,
            tx.to@,
        ) < limit256(),
    ensures
        final(execution_state).wf_storage(),
        final(execution_state).config == old(execution_state).config,
        intrinsic_gas(tx.data@, old(execution_state).config) > tx.gas_limit ==> (r.0
            == ExitReason::Error(ExitError::OutOfGas) && r.1.used_gas == 0),
        (intrinsic_gas(tx.data@, old(execution_state).config) <= tx.gas_limit && balance_sem(
            old(execution_state).backend.accounts@,
            tx.caller@,
        ) < tx.value@) ==> (r.0 == ExitReason::Error(ExitError::OutOfFund) && r.1.used_gas
            == intrinsic_gas(tx.data@, old(execution_state).config)),
        (intrinsic_gas(tx.data@, old(execution_state).config) <= tx.gas_limit && balance_sem(
            old(execution_state).backend.accounts@,
            tx.caller@,
        ) >= tx.value@ && tx_run(*old(execution_state), tx, ops@) is Err) ==> (r.0
            == ExitReason::Error(tx_run(*old(execution_state), tx, ops@)->Err_0) && r.1.used_gas
            == tx_run_used(*old(execution_state), tx, ops@)),
        (intrinsic_gas(tx.data@, old(execution_state).config) <= tx.gas_limit && balance_sem(
            old(execution_state).backend.accounts@,
            tx.caller@,
        ) >= tx.value@ && tx_run(*old(execution_state), tx, ops@) is Ok) ==> (r.0
            == ExitReason::Succeed(ExitSucceed::Stopped) && r.1.used_gas == tx_run(
            *old(execution_state),
            tx,
            ops@,
        )->Ok_0.used && r.1.refund == tx_run(*old(execution_state), tx, ops@)->Ok_0.refund),
        (intrinsic_gas(tx.data@, old(execution_state).config) <= tx.gas_limit && balance_sem(
            old(execution_state).backend.accounts@,
            tx.caller@,
        ) >= tx.value@ && tx_run(*old(execution_state), tx, ops@) is Ok) ==> (forall|a: nat|
            balance_sem(final(execution_state).backend.accounts@, a) == (if tx_run(
                *old(execution_state),
                tx,
                ops@,
            )->Ok_0.deleted.contains(a) {
                0nat
            } else {
                tx_run(*old(execution_state), tx, ops@)->Ok_0.balances[a]
            })),
        (intrinsic_gas(tx.data@, old(execution_state).config) <= tx.gas_limit && balance_sem(
            old(execution_state).backend.accounts@,
            tx.caller@,
        ) >= tx.value@ && tx_run(*old(execution_state), tx, ops@) is Ok) ==> (forall|k: nat|
            slot_sem(final(execution_state).backend.accounts@, tx.to@, k) == (if tx_run(
                *old(execution_state),
                tx,
                ops@,
            )->Ok_0.deleted.contains(tx.to@) {
                0nat
            } else {
                tx_run(*old(execution_state), tx, ops@)->Ok_0.slots[k]
            })),
        (intrinsic_gas(tx.data@, old(execution_state).config) <= tx.gas_limit && balance_sem(
            old(execution_state).backend.accounts@,
            tx.caller@,
        ) >= tx.value@ && tx_run(*old(execution_state), tx, ops@) is Ok) ==> (forall|x: nat, k: nat|
            x != tx.to@ ==> slot_sem(final(execution_state).backend.accounts@, x, k) == slot_sem(
                old(execution_state).backend.accounts@,
                x,
                k,
            )),
        r.0 is Error || r.0 is Revert ==> (forall|a: nat|
            balance_sem(final(execution_state).backend.accounts@, a) == balance_sem(
                old(execution_state).backend.accounts@,
                a,
            )) && (forall|a: nat, k: nat|
            slot_sem(final(execution_state).backend.accounts@, a, k) == slot_sem(
                old(execution_state).backend.accounts@,
                a,
                k,
            )),
{
    run_transaction(execution_state, tx, ops, true)
}

/// The shared execute-deconstruct-apply round behind the two serial entry
/// points.
fn run_transaction(
    execution_state: &mut MemoryStorage,
    tx: Transaction,
    ops: Vec<RuntimeOp>,
    simulation: bool,
) -> (r: (ExitReason, GasSnapshot, RwSet))
    requires
        old(execution_state).wf_storage(),
        tx.caller@ != tx.to@ ==> tx.value@ + balance_sem(
            old(execution_state).backend.accounts@,
            tx.to@,
        ) < limit256(),
    ensures
        final(execution_state).wf_storage(),
        final(execution_state).config == old(execution_state).config,
        intrinsic_gas(tx.data@, old(execution_state).config) > tx.gas_limit ==> (r.0
            == ExitReason::Error(ExitError::OutOfGas) && r.1.used_gas == 0),
        (intrinsic_gas(tx.data@, old(execution_state).config) <= tx.gas_limit && balance_sem(
            old(execution_state).backend.accounts@,
            tx.caller@,
        ) < tx.value@) ==> (r.0 == ExitReason::Error(ExitError::OutOfFund) && r.1.used_gas
            == intrinsic_gas(tx.data@, old(execution_state).config)),
        (intrinsic_gas(tx.data@, old(execution_state).config) <= tx.gas_limit && balance_sem(
            old(execution_state).backend.accounts@,
            tx.caller@,
        ) >= tx.value@ && tx_run(*old(execution_state), tx, ops@) is Err) ==> (r.0
            == ExitReason::Error(tx_run(*old(execution_state), tx, ops@)->Err_0) && r.1.used_gas
            == tx_run_used(*old(execution_state), tx, ops@)),
        (intrinsic_gas(tx.data@, old(execution_state).config) <= tx.gas_limit && balance_sem(
            old(execution_state).backend.accounts@,
            tx.caller@,
        ) >= tx.value@ && tx_run(*old(execution_state), tx, ops@) is Ok) ==> (r.0
            == ExitReason::Succeed(ExitSucceed::Stopped) && r.1.used_gas == tx_run(
            *old(execution_state),
            tx,
            ops@,
        )->Ok_0.used && r.1.refund == tx_run(*old(execution_state), tx, ops@)->Ok_0.refund),
        (intrinsic_gas(tx.data@, old(execution_state).config) <= tx.gas_limit && balance_sem(
            old(execution_state).backend.accounts@,
            tx.caller@,
        ) >= tx.value@ && tx_run(*old(execution_state), tx, ops@) is Ok) ==> (forall|a: nat|
            balance_sem(final(execution_state).backend.accounts@, a) == (if tx_run(
                *old(execution_state),
                tx,
                ops@,
            )->Ok_0.deleted.contains(a) {
                0nat
            } else {
                tx_run(*old(execution_state), tx, ops@)->Ok_0.balances[a]
            })),
        (intrinsic_gas(tx.data@, old(execution_state).config) <= tx.gas_limit && balance_sem(
            old(execution_state).backend.accounts@,
            tx.caller@,
        ) >= tx.value@ && tx_run(*old(execution_state), tx, ops@) is Ok) ==> (forall|k: nat|
            slot_sem(final(execution_state).backend.accounts@, tx.to@, k) == (if tx_run(
                *old(execution_state),
                tx,
                ops@,
            )->Ok_0.deleted.contains(tx.to@) {
                0nat
            } else {
                tx_run(*old(execution_state), tx, ops@)->Ok_0.slots[k]
            })),
        (intrinsic_gas(tx.data@, old(execution_state).config) <= tx.gas_limit && balance_sem(
            old(execution_state).backend.accounts@,
            tx.caller@,
        ) >= tx.value@ && tx_run(*old(execution_state), tx, ops@) is Ok) ==> (forall|x: nat, k: nat|
            x != tx.to@ ==> slot_sem(final(execution_state).backend.accounts@, x, k) == slot_sem(
                old(execution_state).backend.accounts@,
                x,
                k,
            )),
        r.0 is Error || r.0 is Revert ==> (forall|a: nat|
            balance_sem(final(execution_state).backend.accounts@, a) == balance_sem(
                old(execution_state).backend.accounts@,
                a,
            )) && (forall|a: nat, k: nat|
            slot_sem(final(execution_state).backend.accounts@, a, k) == slot_sem(
                old(execution_state).backend.accounts@,
                a,
                k,
            )),
{
    let ghost s0 = execution_state.backend.accounts@;
    let ghost cfg = execution_state.config;
    let mut executor = execution_state.executor(simulation);
    let ghost bsnap = executor.backend.accounts@;
    proof {
        lemma_init_state_congruence(
            bsnap,
            s0,
            tx.caller@,
            tx.to@,
            tx.value@,
            intrinsic_gas(tx.data@, cfg),
        );
        lemma_run_ops_congruence(
            cfg,
            bsnap,
            s0,
            tx.to@,
            tx.gas_limit as int,
            init_state(s0, tx.caller@, tx.to@, tx.value@, intrinsic_gas(tx.data@, cfg)),
            ops@,
        );
    }
    let Transaction { caller, to, value, data, gas_limit, access_list } = tx;
    let (reason, _ret) = executor.transact_call(
        caller,
        to,
        value,
        data,
        gas_limit,
        access_list,
        ops,
    );
    let snap = executor.snapshot();
    let rw = RwSet {
        reads: crate::util::clone_vec_copy(&executor.rw.reads),
        writes: crate::util::clone_vec_copy(&executor.rw.writes),
    };
    let ghost exg = executor;
    let (effects, logs) = executor.deconstruct();
    proof {
        if !(reason is Succeed) {
            assert(effects@.len() == 0);
            assert(effects@ =~= Seq::<Apply>::empty());
        }
    }
    execution_state.backend.apply(effects, logs, false);
    proof {
        if reason is Succeed {
            let stf = tx_run(*old(execution_state), tx, ops@)->Ok_0;
            let pend = exg.substate.pending@;
            let dels = exg.substate.deletes@;
            let b1 = final(execution_state).backend.accounts@;
            assert forall|a: nat|
                balance_sem(b1, a) == (if stf.deleted.contains(a) {
                    0nat
                } else {
                    stf.balances[a]
                }) by {
                lemma_flush_at(s0, pend, dels, effects@, a);
            }
            assert forall|k: nat|
                slot_sem(b1, tx.to@, k) == (if stf.deleted.contains(tx.to@) {
                    0nat
                } else {
                    stf.slots[k]
                }) by {
                lemma_flush_at(s0, pend, dels, effects@, tx.to@);
            }
            assert(forall|a: nat| init_state(
                s0,
                tx.caller@,
                tx.to@,
                tx.value@,
                intrinsic_gas(tx.data@, cfg),
            ).deleted.contains(a) ==> a == tx.to@);
            crate::executor::lemma_run_ops_deleted(
                cfg,
                s0,
                tx.to@,
                tx.gas_limit as int,
                init_state(s0, tx.caller@, tx.to@, tx.value@, intrinsic_gas(tx.data@, cfg)),
                ops@,
            );
            assert forall|x: nat, k: nat|
                x != tx.to@ implies slot_sem(b1, x, k) == slot_sem(s0, x, k) by {
                lemma_flush_at(s0, pend, dels, effects@, x);
                assert(!stf.deleted.contains(x));
                assert(!crate::backend::addr_in(dels, x));
                if has_acct(pend, x) {
                    assert(crate::substate::eff_slot(exg.substate, exg.backend.accounts@, x, k)
                        == slot_sem(pend, x, k));
                }
            }
        }
    }
    (reason, snap, rw)
}

/// Install a contract account: debit the value from the creator, bump the
/// creator's nonce, and create the new account holding the given runtime
/// code (the outcome of the externally run init code) — all as one atomic
/// changeset. Fails, changing nothing, when the creator cannot fund the
/// value.
pub fn contract_deploy(
    execution_state: &mut MemoryStorage,
    caller: Address,
    value: U256,
    code: Vec<u8>,
    new_address: Address,
) -> (r: ExitReason)
    requires
        old(execution_state).wf_storage(),
        caller@ != new_address@,
        nonce_sem(old(execution_state).backend.accounts@, caller@) + 1 < limit256(),
    ensures
        final(execution_state).wf_storage(),
        final(execution_state).config == old(execution_state).config,
        balance_sem(old(execution_state).backend.accounts@, caller@) < value@ ==> (r
            == ExitReason::Error(ExitError::OutOfFund) && final(execution_state).backend == old(
            execution_state,
        ).backend),
        balance_sem(old(execution_state).backend.accounts@, caller@) >= value@ ==> {
            &&& r == ExitReason::Succeed(ExitSucceed::Stopped)
            &&& exists_sem(final(execution_state).backend.accounts@, new_address@)
            &&& nonce_sem(final(execution_state).backend.accounts@, new_address@) == 1
            &&& balance_sem(final(execution_state).backend.accounts@, new_address@) == value@
            &&& code_sem(final(execution_state).backend.accounts@, new_address@) == code@
            &&& (forall|k: nat|
                slot_sem(final(execution_state).backend.accounts@, new_address@, k) == 0)
            &&& nonce_sem(final(execution_state).backend.accounts@, caller@) == nonce_sem(
                old(execution_state).backend.accounts@,
                caller@,
            ) + 1
            &&& balance_sem(final(execution_state).backend.accounts@, caller@) == balance_sem(
                old(execution_state).backend.accounts@,
                caller@,
            ) - value@
            &&& (forall|a: nat|
                a != caller@ && a != new_address@ ==> balance_sem(
                    final(execution_state).backend.accounts@,
                    a,
                ) == balance_sem(old(execution_state).backend.accounts@, a))
            &&& (forall|a: nat, k: nat|
                a != caller@ && a != new_address@ ==> slot_sem(
                    final(execution_state).backend.accounts@,
                    a,
                    k,
                ) == slot_sem(old(execution_state).backend.accounts@, a, k))
        },
{
    let ghost s0 = execution_state.backend.accounts@;
    let bal = execution_state.backend.balance(&caller);
    if !value.le(&bal) {
        return ExitReason::Error(ExitError::OutOfFund);
    }
    let nonce = execution_state.backend.nonce(&caller);
    let new_nonce = match nonce.checked_add(&U256::one()) {
        Some(n) => n,
        None => U256::zero(),
    };
    let new_bal = match bal.checked_sub(&value) {
        Some(b) => b,
        None => U256::zero(),
    };
    let mut changes: Vec<Apply> = Vec::new();
    changes.push(
        Apply::Modify {
            address: caller,
            nonce: new_nonce,
            balance: new_bal,
            code: None,
            storage: Vec::new(),
            reset_storage: false,
        },
    );
    changes.push(
        Apply::Modify {
            address: new_address,
            nonce: U256::one(),
            balance: value,
            code: Some(code),
            storage: Vec::new(),
            reset_storage: true,
        },
    );
    let ghost m1 = changes@[0];
    let ghost m2 = changes@[1];
    let ghost chsv = changes@;
    execution_state.backend.apply(changes, Vec::new(), false);
    proof {
        let chs = seq![m1, m2];
        assert(chsv =~= chs);
        assert(chs.drop_last() =~= seq![m1]);
        assert(seq![m1].drop_last() =~= Seq::<Apply>::empty());
        crate::backend::lemma_address_eq(caller, new_address);
        assert(crate::backend::applied_exists(s0, chs, false, new_address@));
        assert(crate::backend::applied_nonce(s0, chs, false, new_address@) == 1);
        assert(crate::backend::applied_balance(s0, chs, false, new_address@) == value@);
        assert(crate::backend::applied_code(s0, chs, false, new_address@) == code@);
        assert forall|k: nat|
            crate::backend::applied_slot(s0, chs, false, new_address@, k) == 0 by {
            match m2 {
                Apply::Modify { storage, .. } => {
                    assert(storage@.len() == 0);
                    assert(crate::backend::delta_val(storage@, k) is None);
                },
                _ => {},
            }
        }
        assert(crate::backend::applied_nonce(s0, seq![m1], false, caller@) == nonce_sem(
            s0,
            caller@,
        ) + 1);
        assert(crate::backend::applied_nonce(s0, chs, false, caller@) == nonce_sem(s0, caller@)
            + 1);
        assert(crate::backend::applied_balance(s0, seq![m1], false, caller@) == balance_sem(
            s0,
            caller@,
        ) - value@);
        assert(crate::backend::applied_balance(s0, chs, false, caller@) == balance_sem(
            s0,
            caller@,
        ) - value@);
        assert forall|a: nat|
            a != caller@ && a != new_address@ implies crate::backend::applied_balance(
            s0,
            chs,
            false,
            a,
        ) == balance_sem(s0, a) by {
            assert(crate::backend::applied_balance(s0, Seq::empty(), false, a) == balance_sem(
                s0,
                a,
            ));
            assert(crate::backend::applied_balance(s0, seq![m1], false, a) == balance_sem(s0, a));
        }
        assert forall|a: nat, k: nat|
            a != caller@ && a != new_address@ implies crate::backend::applied_slot(
            s0,
            chs,
            false,
            a,
            k,
        ) == slot_sem(s0, a, k) by {
            assert(crate::backend::applied_slot(s0, Seq::empty(), false, a, k) == slot_sem(
                s0,
                a,
                k,
            ));
            assert(crate::backend::applied_slot(s0, seq![m1], false, a, k) == slot_sem(s0, a, k));
        }
    }
    ExitReason::Succeed(ExitSucceed::Stopped)
}

} // verus!

verus! {

/// On a unique-key delta list, the last-entry-wins lookup is the plain
/// association lookup.
pub proof fn lemma_delta_val_unique(st: Seq<(U256, U256)>, k: nat)
    requires
        crate::backend::slots_unique(st),
    ensures
        crate::backend::delta_val(st, k) == (if crate::backend::has_slot(st, k) {
            Some(crate::backend::slot_val(st, k))
        } else {
            None
        }),
    decreases st.len(),
{
    if st.len() != 0 {
        let st1 = st.drop_last();
        if st.last().0@ == k {
            crate::backend::lemma_slot_at(st, k, st.len() - 1);
        } else {
            lemma_delta_val_unique(st1, k);
            if crate::backend::has_slot(st1, k) {
                let j = crate::backend::slot_index(st1, k);
                assert(st[j] == st1[j]);
                crate::backend::lemma_slot_at(st1, k, j);
                crate::backend::lemma_slot_at(st, k, j);
            } else {
                if crate::backend::has_slot(st, k) {
                    let j = crate::backend::slot_index(st, k);
                    assert(j < st.len() - 1);
                    assert(st1[j] == st[j]);
                }
            }
        }
    }
}

/// What a deconstructed substate does to a store, at one address: a
/// deletion mark removes the account; a pending overlay entry replaces it
/// wholesale; everything else is untouched.
pub proof fn lemma_flush_at(
    s0: Seq<(Address, MemoryAccount)>,
    pending: Seq<(Address, MemoryAccount)>,
    deletes: Seq<Address>,
    changes: Seq<Apply>,
    a: nat,
)
    requires
        crate::backend::wf_accounts(pending),
        changes.len() == pending.len() + deletes.len(),
        forall|i: int|
            0 <= i < pending.len() ==> crate::substate::is_modify_of(
                #[trigger] changes[i],
                pending[i],
            ),
        forall|j: int|
            0 <= j < deletes.len() ==> #[trigger] changes[pending.len() + j] == (Apply::Delete {
                address: deletes[j],
            }),
    ensures
        crate::backend::addr_in(deletes, a) ==> (!crate::backend::applied_exists(
            s0,
            changes,
            false,
            a,
        ) && crate::backend::applied_balance(s0, changes, false, a) == 0
            && crate::backend::applied_nonce(s0, changes, false, a) == 0
            && crate::backend::applied_code(s0, changes, false, a) == Seq::<u8>::empty() && (forall|
            k: nat,
        |
            crate::backend::applied_slot(s0, changes, false, a, k) == 0)),
        (!crate::backend::addr_in(deletes, a) && has_acct(pending, a)) ==> (
        crate::backend::applied_exists(s0, changes, false, a)
            && crate::backend::applied_balance(s0, changes, false, a) == balance_sem(pending, a)
            && crate::backend::applied_nonce(s0, changes, false, a) == nonce_sem(pending, a)
            && crate::backend::applied_code(s0, changes, false, a) == code_sem(pending, a) && (
        forall|k: nat|
            crate::backend::applied_slot(s0, changes, false, a, k) == slot_sem(pending, a, k))),
        (!crate::backend::addr_in(deletes, a) && !has_acct(pending, a)) ==> (
        crate::backend::applied_exists(s0, changes, false, a) == exists_sem(s0, a)
            && crate::backend::applied_balance(s0, changes, false, a) == balance_sem(s0, a)
            && crate::backend::applied_nonce(s0, changes, false, a) == nonce_sem(s0, a)
            && crate::backend::applied_code(s0, changes, false, a) == code_sem(s0, a) && (forall|
            k: nat,
        |
            crate::backend::applied_slot(s0, changes, false, a, k) == slot_sem(s0, a, k))),
{
    let np = pending.len() as int;
    if crate::backend::addr_in(deletes, a) {
        let lastj = choose|j: int|
            0 <= j < deletes.len() && deletes[j]@ == a && (forall|j2: int|
                j < j2 < deletes.len() ==> deletes[j2]@ != a);
        assert(exists|j: int|
            0 <= j < deletes.len() && deletes[j]@ == a && (forall|j2: int|
                j < j2 < deletes.len() ==> deletes[j2]@ != a)) by {
            lemma_last_occurrence(deletes, a);
        }
        let t = np + lastj;
        assert(changes[t] == (Apply::Delete { address: deletes[lastj] }));
        let head = changes.take(t + 1);
        let tail = changes.skip(t + 1);
        assert(head + tail =~= changes);
        assert(!crate::multiversion::touches(tail, a)) by {
            if crate::multiversion::touches(tail, a) {
                let i = choose|i: int|
                    0 <= i < tail.len() && crate::multiversion::apply_target(tail[i]) == a;
                assert(tail[i] == changes[t + 1 + i]);
                let j2 = lastj + 1 + i;
                assert(changes[np + j2] == (Apply::Delete { address: deletes[j2] }));
                assert(t + 1 + i == np + j2);
            }
        }
        crate::multiversion::lemma_applied_append_frame(s0, head, tail, false, a);
        assert(head.last() == changes[t]);
        assert forall|k: nat|
            crate::backend::applied_slot(s0, changes, false, a, k) == 0 by {
            assert(crate::backend::applied_slot(s0, head, false, a, k) == 0);
        }
    } else if has_acct(pending, a) {
        let pi = crate::backend::acct_index(pending, a);
        crate::backend::lemma_acct_at(pending, a, pi);
        let t = pi;
        let head = changes.take(t + 1);
        let tail = changes.skip(t + 1);
        assert(head + tail =~= changes);
        assert(!crate::multiversion::touches(tail, a)) by {
            if crate::multiversion::touches(tail, a) {
                let i = choose|i: int|
                    0 <= i < tail.len() && crate::multiversion::apply_target(tail[i]) == a;
                let gi = t + 1 + i;
                assert(tail[i] == changes[gi]);
                if gi < np {
                    assert(crate::substate::is_modify_of(changes[gi], pending[gi]));
                    assert(pending[gi].0@ == a);
                    assert(pending[pi].0@ != pending[gi].0@);
                } else {
                    let j2 = gi - np;
                    assert(changes[np + j2] == (Apply::Delete { address: deletes[j2] }));
                    assert(crate::backend::addr_in(deletes, a));
                }
            }
        }
        crate::multiversion::lemma_applied_append_frame(s0, head, tail, false, a);
        assert(head.last() == changes[t]);
        assert(crate::substate::is_modify_of(changes[t], pending[t]));
        match changes[t] {
            Apply::Modify { address, nonce, balance, code, storage, reset_storage } => {
                assert(address@ == a);
                assert forall|k: nat|
                    crate::backend::applied_slot(s0, changes, false, a, k) == slot_sem(
                    pending,
                    a,
                    k,
                ) by {
                    lemma_delta_val_unique(storage@, k);
                    assert(crate::backend::applied_slot(s0, head, false, a, k) == slot_sem(
                        pending,
                        a,
                        k,
                    ));
                }
            },
            _ => {
                assert(false);
            },
        }
    } else {
        assert(!crate::multiversion::touches(changes, a)) by {
            if crate::multiversion::touches(changes, a) {
                let i = choose|i: int|
                    0 <= i < changes.len() && crate::multiversion::apply_target(changes[i]) == a;
                if i < np {
                    assert(crate::substate::is_modify_of(changes[i], pending[i]));
                    assert(pending[i].0@ == a);
                } else {
                    let j2 = i - np;
                    assert(changes[np + j2] == (Apply::Delete { address: deletes[j2] }));
                    assert(crate::backend::addr_in(deletes, a));
                }
            }
        }
        crate::multiversion::lemma_applied_append_frame(s0, Seq::empty(), changes, false, a);
        assert(Seq::<Apply>::empty() + changes =~= changes);
        assert forall|k: nat|
            crate::backend::applied_slot(s0, changes, false, a, k) == slot_sem(s0, a, k) by {
            assert(crate::backend::applied_slot(s0, Seq::empty(), false, a, k) == slot_sem(
                s0,
                a,
                k,
            ));
        }
    }
}

/// A membership witness can be taken at its last occurrence.
proof fn lemma_last_occurrence(deletes: Seq<Address>, a: nat)
    requires
        crate::backend::addr_in(deletes, a),
    ensures
        exists|j: int|
            0 <= j < deletes.len() && deletes[j]@ == a && (forall|j2: int|
                j < j2 < deletes.len() ==> deletes[j2]@ != a),
    decreases deletes.len(),
{
    let last = deletes.len() - 1;
    if deletes[last]@ == a {
        assert(0 <= last < deletes.len() && deletes[last]@ == a && (forall|j2: int|
            last < j2 < deletes.len() ==> deletes[j2]@ != a));
    } else {
        let d1 = deletes.drop_last();
        assert(crate::backend::addr_in(d1, a)) by {
            let i = choose|i: int| 0 <= i < deletes.len() && deletes[i]@ == a;
            assert(d1[i] == deletes[i]);
        }
        lemma_last_occurrence(d1, a);
        let j = choose|j: int|
            0 <= j < d1.len() && d1[j]@ == a && (forall|j2: int|
                j < j2 < d1.len() ==> d1[j2]@ != a);
        assert(deletes[j] == d1[j]);
        assert(0 <= j < deletes.len() && deletes[j]@ == a && (forall|j2: int|
            j < j2 < deletes.len() ==> deletes[j2]@ != a)) by {
            assert forall|j2: int| j < j2 < deletes.len() implies deletes[j2]@ != a by {
                if j2 < d1.len() {
                    assert(deletes[j2] == d1[j2]);
                }
            }
        }
    }
}

} // verus!
