use evm::backend::{Address, Apply, MemoryAccount, MemoryBackend};
use evm::execution_storage::{decode_hex, HexError, MemoryStorage};
use evm::executor::{GasSnapshot, Location, RuntimeOp, RwSet, StackExecutor};
use evm::exit::{ExitError, ExitReason, ExitSucceed};
use evm::multiversion::{mv_commit, validate_read_set, Candidate};
use evm::tx::{contract_deploy, tx_execution_serial, tx_simulation_serial, Transaction};
use evm::uint::U256;

fn u(v: u64) -> U256 {
    U256::from_u64(v)
}

fn addr(n: u32) -> Address {
    Address { hi: n, lo: 0 }
}

fn account(nonce: u64, balance: u64, code: Vec<u8>) -> MemoryAccount {
    MemoryAccount {
        nonce: u(nonce),
        balance: u(balance),
        storage: Vec::new(),
        code,
    }
}

fn demo_store() -> (MemoryStorage, Address, Address) {
    let storage = MemoryStorage::default();
    let x = Address { hi: 0x10000000, lo: 0 };
    let y = Address {
        hi: 0xe14de159,
        lo: 0x2b52481b94b99df4e9653654e14fffb6,
    };
    (storage, x, y)
}

#[test]
fn u256_arithmetic() {
    assert!(u(5).eq_value(&u(5)));
    assert!(!u(5).eq_value(&u(6)));
    assert!(U256::zero().is_zero());
    assert!(!U256::one().is_zero());
    assert!(u(3).le(&u(4)));
    assert!(!u(4).le(&u(3)));
    let (q, r) = u(65).div_rem_32();
    assert!(q.eq_value(&u(2)));
    assert_eq!(r, 1);
    let q8 = u(17).div_8();
    assert!(q8.eq_value(&u(2)));
    assert!(u(2).checked_add(&u(3)).unwrap().eq_value(&u(5)));
    assert!(u(5).checked_sub(&u(3)).unwrap().eq_value(&u(2)));
    assert!(u(3).checked_sub(&u(5)).is_none());
    let max = U256 { lo: u128::MAX, hi: u128::MAX };
    assert!(max.checked_add(&U256::one()).is_none());
}

#[test]
fn hex_decoding_through_default_store() {
    let (storage, x, _y) = demo_store();
    // The demo contract code comes from hex text; if decoding handed the
    // text back unchanged this would be twelve ASCII bytes instead.
    let code = storage.backend.code(&x);
    assert_eq!(code, vec![0x60, 0x01, 0x60, 0x01, 0x55, 0x00]);
}

#[test]
fn hex_decode_errors() {
    assert_eq!(decode_hex(&b"0ab".to_vec()), Err(HexError::OddLength));
    match decode_hex(&b"0axb".to_vec()) {
        Err(HexError::InvalidHexCharacter { c, index }) => {
            assert_eq!(c, 'x');
            assert_eq!(index, 2);
        }
        other => panic!("expected an invalid-character failure, got {:?}", other),
    }
    assert_eq!(decode_hex(&b"DEadBEef".to_vec()), Ok(vec![0xde, 0xad, 0xbe, 0xef]));
}

#[test]
fn apply_later_entries_win_and_delete() {
    let mut backend = MemoryBackend::new();
    let a = addr(1);
    let changes = vec![
        Apply::Modify {
            address: a,
            nonce: u(1),
            balance: u(10),
            code: None,
            storage: vec![(u(1), u(11))],
            reset_storage: false,
        },
        Apply::Modify {
            address: a,
            nonce: u(2),
            balance: u(20),
            code: None,
            storage: vec![(u(1), u(22))],
            reset_storage: false,
        },
    ];
    backend.apply(changes, Vec::new(), false);
    assert!(u(2).eq_value(&backend.nonce(&a)));
    assert!(u(20).eq_value(&backend.balance(&a)));
    assert!(u(22).eq_value(&backend.storage(&a, &u(1))));
    backend.apply(vec![Apply::Delete { address: a }], Vec::new(), false);
    assert!(!backend.exists_account(&a));
    assert!(backend.balance(&a).is_zero());
}

#[test]
fn apply_prunes_empty_accounts() {
    let mut backend = MemoryBackend::new();
    let a = addr(2);
    let make_empty = vec![Apply::Modify {
        address: a,
        nonce: u(0),
        balance: u(0),
        code: Some(Vec::new()),
        storage: vec![(u(9), u(9))],
        reset_storage: false,
    }];
    backend.apply(make_empty, Vec::new(), true);
    // With pruning on, the account left empty never materialises.
    assert!(!backend.exists_account(&a));
    assert!(backend.storage(&a, &u(9)).is_zero());
}

#[test]
fn checkpoint_revert_restores_everything() {
    let (storage, x, _y) = demo_store();
    let mut ex = storage.executor(false);
    ex.substate.access_address(&x);
    ex.substate.access_storage(&x, &u(1));
    ex.sstore_op(&x, u(1), u(100)).unwrap();
    let used_before = ex.snapshot().used_gas;
    let refund_before = ex.snapshot().refund;
    let accessed_addrs_before = ex.substate.accessed_addrs.len();
    let accessed_storage_before = ex.substate.accessed_storage.len();
    ex.checkpoint();
    ex.substate.access_address(&addr(55));
    ex.substate.access_storage(&addr(55), &u(9));
    // Arbitrary mutations inside the nested frame.
    ex.sstore_op(&x, u(1), u(0)).unwrap();
    ex.sstore_op(&x, u(2), u(7)).unwrap();
    ex.log_op(&x, vec![u(1)], vec![1, 2, 3]).unwrap();
    ex.suicide_op(&x, &addr(9)).unwrap();
    assert!(ex.substate.deleted(&x));
    ex.revert_checkpoint();
    // Byte for byte back to the state before the checkpoint.
    assert!(u(100).eq_value(&ex.storage_read(&x, &u(1))));
    assert!(ex.storage_read(&x, &u(2)).is_zero());
    assert_eq!(ex.substate.logs.len(), 0);
    assert!(!ex.substate.deleted(&x));
    assert_eq!(ex.snapshot().refund, refund_before);
    assert!(ex.snapshot().used_gas > used_before);
    assert_eq!(ex.substate.accessed_addrs.len(), accessed_addrs_before);
    assert_eq!(ex.substate.accessed_storage.len(), accessed_storage_before);
}

#[test]
fn checkpoint_commit_keeps_changes() {
    let (storage, x, _y) = demo_store();
    let mut ex = storage.executor(false);
    ex.checkpoint();
    ex.sstore_op(&x, u(3), u(33)).unwrap();
    ex.commit_checkpoint();
    assert!(u(33).eq_value(&ex.storage_read(&x, &u(3))));
}

#[test]
fn suicide_refund_granted_once_per_address() {
    let (storage, x, _y) = demo_store();
    let mut ex = storage.executor(false);
    ex.suicide_op(&x, &addr(9)).unwrap();
    assert_eq!(ex.snapshot().refund, 24000);
    // Destroying the same address again in the same transaction.
    ex.suicide_op(&x, &addr(9)).unwrap();
    assert_eq!(ex.snapshot().refund, 24000);
}

#[test]
fn end_to_end_call_with_storage_write() {
    let (storage, x, y) = demo_store();
    let mut ex = storage.executor(false);
    // Value 0 from Y to X; the callee's program writes slot 5 with the
    // ASCII-encoded digits of "98051".
    let slot_value = u(0x3938303531);
    let ops = vec![RuntimeOp::SStore { key: u(5), value: slot_value }];
    let (reason, ret) = ex.transact_call(y, x, U256::zero(), Vec::new(), 1_000_000, Vec::new(), ops);
    assert_eq!(reason, ExitReason::Succeed(ExitSucceed::Stopped));
    assert_eq!(ret.len(), 0);
    // Intrinsic 21000 plus the storage set cost of 20000.
    assert_eq!(ex.snapshot().used_gas, 41000);
    let (effects, logs) = ex.deconstruct();
    assert_eq!(logs.len(), 0);
    let mut found = false;
    for e in &effects {
        if let Apply::Modify { address, storage: deltas, reset_storage, .. } = e {
            if address.eq_addr(&x) {
                found = true;
                assert!(*reset_storage);
                assert_eq!(deltas.len(), 1);
                assert!(deltas[0].0.eq_value(&u(5)));
                assert!(deltas[0].1.eq_value(&slot_value));
            }
        }
    }
    assert!(found);
}

#[test]
fn transact_call_out_of_gas_and_fund() {
    let (storage, x, y) = demo_store();
    let mut ex = storage.executor(false);
    // A gas limit below the intrinsic cost.
    let (reason, _) = ex.transact_call(y, x, U256::zero(), Vec::new(), 20000, Vec::new(), Vec::new());
    assert_eq!(reason, ExitReason::Error(ExitError::OutOfGas));
    let mut ex2 = storage.executor(false);
    // More value than Y holds.
    let (reason2, _) = ex2.transact_call(
        y,
        x,
        u(10_000_001),
        Vec::new(),
        1_000_000,
        Vec::new(),
        Vec::new(),
    );
    assert_eq!(reason2, ExitReason::Error(ExitError::OutOfFund));
    let mut ex3 = storage.executor(false);
    // An op that cannot fit reverts the frame with out-of-gas.
    let ops = vec![RuntimeOp::ChargeGas { amount: 1_000_000 }];
    let (reason3, _) = ex3.transact_call(y, x, U256::zero(), Vec::new(), 30000, Vec::new(), ops);
    assert_eq!(reason3, ExitReason::Error(ExitError::OutOfGas));
    assert!(ex3.storage_read(&x, &u(5)).is_zero());
}

#[test]
fn transact_call_transfers_value() {
    let (storage, x, y) = demo_store();
    let mut ex = storage.executor(false);
    let (reason, _) = ex.transact_call(y, x, u(400), Vec::new(), 1_000_000, Vec::new(), Vec::new());
    assert_eq!(reason, ExitReason::Succeed(ExitSucceed::Stopped));
    assert!(u(10_000_000 - 400).eq_value(&ex.balance(&y)));
    assert!(u(10_000_000 + 400).eq_value(&ex.balance(&x)));
}

#[test]
fn conflict_detection_value_sensitive() {
    // A (position 0) writes slot 1 of X to 42. B (position 1) read that
    // slot during speculation.
    let mut backend = MemoryBackend::new();
    let x = addr(7);
    backend.insert_account(x, account(1, 0, Vec::new()));
    let a_candidate = |write: u64| Candidate {
        position: 0,
        rw: RwSet { reads: Vec::new(), writes: vec![Location::Storage(x, u(1))] },
        effects: vec![Apply::Modify {
            address: x,
            nonce: u(1),
            balance: u(0),
            code: None,
            storage: vec![(u(1), u(write))],
            reset_storage: false,
        }],
        logs: Vec::new(),
        simulation: false,
    };
    let b_candidate = |observed: u64| Candidate {
        position: 1,
        rw: RwSet {
            reads: vec![(Location::Storage(x, u(1)), u(observed))],
            writes: Vec::new(),
        },
        effects: Vec::new(),
        logs: Vec::new(),
        simulation: false,
    };
    // B observed a stale value: its validation must fail.
    let mut store1 = MemoryBackend::new();
    store1.insert_account(x, account(1, 0, Vec::new()));
    let flags = mv_commit(&mut store1, vec![a_candidate(42), b_candidate(0)]);
    assert_eq!(flags, vec![true, false]);
    // B happened to observe the very value A commits: validation passes.
    let mut store2 = MemoryBackend::new();
    store2.insert_account(x, account(1, 0, Vec::new()));
    let flags2 = mv_commit(&mut store2, vec![a_candidate(42), b_candidate(42)]);
    assert_eq!(flags2, vec![true, true]);
}

#[test]
fn serializable_commit_of_disjoint_writes() {
    let x = addr(11);
    let y = addr(12);
    let mk_store = || {
        let mut b = MemoryBackend::new();
        b.insert_account(x, account(1, 50, Vec::new()));
        b.insert_account(y, account(1, 60, Vec::new()));
        b
    };
    let c1 = || Candidate {
        position: 0,
        rw: RwSet { reads: vec![(Location::Basic(x), u(50))], writes: vec![Location::Basic(x)] },
        effects: vec![Apply::Modify {
            address: x,
            nonce: u(2),
            balance: u(55),
            code: None,
            storage: Vec::new(),
            reset_storage: false,
        }],
        logs: Vec::new(),
        simulation: false,
    };
    let c2 = || Candidate {
        position: 1,
        rw: RwSet { reads: vec![(Location::Basic(y), u(60))], writes: vec![Location::Basic(y)] },
        effects: vec![Apply::Modify {
            address: y,
            nonce: u(2),
            balance: u(66),
            code: None,
            storage: Vec::new(),
            reset_storage: false,
        }],
        logs: Vec::new(),
        simulation: false,
    };
    // Concurrent speculation against the same base, committed in position
    // order: both validate, and the result equals strictly sequential
    // execution in either submission order.
    let mut s_a = mk_store();
    assert_eq!(mv_commit(&mut s_a, vec![c1(), c2()]), vec![true, true]);
    let mut s_b = mk_store();
    assert_eq!(mv_commit(&mut s_b, vec![c2(), c1()]), vec![true, true]);
    for s in [&s_a, &s_b] {
        assert!(u(55).eq_value(&s.balance(&x)));
        assert!(u(66).eq_value(&s.balance(&y)));
    }
}

#[test]
fn simulation_candidates_never_publish() {
    let x = addr(13);
    let mut store = MemoryBackend::new();
    store.insert_account(x, account(1, 5, Vec::new()));
    let sim = Candidate {
        position: 0,
        rw: RwSet { reads: Vec::new(), writes: vec![Location::Basic(x)] },
        effects: vec![Apply::Modify {
            address: x,
            nonce: u(9),
            balance: u(9),
            code: None,
            storage: Vec::new(),
            reset_storage: false,
        }],
        logs: Vec::new(),
        simulation: true,
    };
    let flags = mv_commit(&mut store, vec![sim]);
    assert_eq!(flags, vec![false]);
    assert!(u(5).eq_value(&store.balance(&x)));
}

#[test]
fn validate_read_set_checks_each_entry() {
    let x = addr(14);
    let mut store = MemoryBackend::new();
    store.insert_account(x, account(1, 77, Vec::new()));
    let good = RwSet { reads: vec![(Location::Basic(x), u(77))], writes: Vec::new() };
    let bad = RwSet { reads: vec![(Location::Basic(x), u(78))], writes: Vec::new() };
    assert!(validate_read_set(&good, &store));
    assert!(!validate_read_set(&bad, &store));
}

#[test]
fn serial_execution_rounds_apply_effects() {
    let (mut storage, x, y) = demo_store();
    let tx = Transaction {
        caller: y,
        to: x,
        value: u(0),
        data: Vec::new(),
        gas_limit: 1_000_000,
        access_list: Vec::new(),
    };
    let ops = vec![RuntimeOp::SStore { key: u(5), value: u(123) }];
    let (reason, snap, rw) = tx_execution_serial(&mut storage, tx, ops);
    assert_eq!(reason, ExitReason::Succeed(ExitSucceed::Stopped));
    assert_eq!(snap.used_gas, 41000);
    // The recorded read/write-set is exposed after execution.
    assert!(rw.writes.iter().any(|w| matches!(w, Location::Storage(a, k) if a.eq_addr(&x) && k.eq_value(&u(5)))));
    // The write reached the root-of-truth store.
    assert!(u(123).eq_value(&storage.backend.storage(&x, &u(5))));
}

#[test]
fn simulation_round_still_returns_gas() {
    let (mut storage, x, y) = demo_store();
    let tx = Transaction {
        caller: y,
        to: x,
        value: u(0),
        data: vec![0, 1],
        gas_limit: 1_000_000,
        access_list: Vec::new(),
    };
    let (reason, snap, _rw) = tx_simulation_serial(&mut storage, tx, Vec::new());
    assert_eq!(reason, ExitReason::Succeed(ExitSucceed::Stopped));
    // Intrinsic of 21000 plus one zero byte (4) and one non-zero byte (16).
    assert_eq!(snap.used_gas, 21020);
}

#[test]
fn deploy_installs_account() {
    let (mut storage, _x, y) = demo_store();
    let target = addr(99);
    let reason = contract_deploy(&mut storage, y, u(1000), vec![0xfe], target);
    assert_eq!(reason, ExitReason::Succeed(ExitSucceed::Stopped));
    assert!(storage.backend.exists_account(&target));
    assert!(u(1000).eq_value(&storage.backend.balance(&target)));
    assert_eq!(storage.backend.code(&target), vec![0xfe]);
    assert!(u(2).eq_value(&storage.backend.nonce(&y)));
    assert!(u(10_000_000 - 1000).eq_value(&storage.backend.balance(&y)));
}

#[test]
fn deploy_without_funds_changes_nothing() {
    let (mut storage, _x, y) = demo_store();
    let target = addr(98);
    let reason = contract_deploy(&mut storage, y, u(10_000_001), vec![0xfe], target);
    assert_eq!(reason, ExitReason::Error(ExitError::OutOfFund));
    assert!(!storage.backend.exists_account(&target));
}

#[test]
fn executor_records_reads_and_writes() {
    let (storage, x, y) = demo_store();
    let mut ex: StackExecutor = storage.executor(false);
    let ops = vec![RuntimeOp::SStore { key: u(5), value: u(9) }];
    let (reason, _) = ex.transact_call(y, x, U256::zero(), Vec::new(), 1_000_000, Vec::new(), ops);
    assert_eq!(reason, ExitReason::Succeed(ExitSucceed::Stopped));
    let rw = ex.rw_set();
    assert!(rw.writes.iter().any(|w| matches!(w, Location::Storage(a, k) if a.eq_addr(&x) && k.eq_value(&u(5)))));
    assert!(rw.reads.iter().any(|(l, v)| matches!(l, Location::Storage(a, k) if a.eq_addr(&x) && k.eq_value(&u(5))) && v.is_zero()));
}

#[test]
fn precompile_dispatch_and_reported_gas() {
    let p = addr(33);
    let mut backend = MemoryBackend::new();
    backend.insert_account(p, account(1, 0, Vec::new()));
    let storage = evm::execution_storage::MemoryStorage::new(backend, vec![p]);
    let mut ex = storage.executor(false);
    assert!(ex.is_precompile(&p));
    assert!(!ex.is_precompile(&addr(34)));
    // The externally run precompile reported output and gas; the core
    // charges exactly the reported figure.
    let out = ex.precompile_call(&p, vec![7, 8], 123, false).unwrap();
    assert_eq!(out, vec![7, 8]);
    assert_eq!(ex.snapshot().used_gas, 123);
    // A reported failure is a call failure, after the gas charge.
    let failed = ex.precompile_call(&p, Vec::new(), 10, true);
    assert_eq!(failed, Err(ExitError::PrecompileFailure));
    assert_eq!(ex.snapshot().used_gas, 133);
}

#[test]
fn precompile_call_out_of_gas() {
    let p = addr(35);
    let mut backend = MemoryBackend::new();
    backend.insert_account(p, account(1, 0, Vec::new()));
    let storage = evm::execution_storage::MemoryStorage::new(backend, vec![p]);
    let mut ex = StackExecutor::new(
        storage.backend.snapshot(),
        vec![p],
        100,
        evm::costs::Config::istanbul(),
        false,
    );
    assert_eq!(
        ex.precompile_call(&p, Vec::new(), 101, false),
        Err(ExitError::OutOfGas)
    );
    assert_eq!(ex.snapshot().used_gas, 0);
}

#[test]
fn effective_gas_caps_the_refund() {
    // Refund below the cap applies in full.
    let s1 = GasSnapshot { gas_limit: 100000, used_gas: 50000, refund: 20000 };
    assert_eq!(s1.effective_gas_used(), 30000);
    // Refund above half the gas used is capped to that half.
    let s2 = GasSnapshot { gas_limit: 100000, used_gas: 50000, refund: 40000 };
    assert_eq!(s2.effective_gas_used(), 25000);
    // A refund left negative by clawbacks applies as nothing.
    let s3 = GasSnapshot { gas_limit: 100000, used_gas: 50000, refund: -5 };
    assert_eq!(s3.effective_gas_used(), 50000);
}

#[test]
fn call_depth_limit_is_enforced() {
    let (storage, _x, _y) = demo_store();
    let mut ex = storage.executor(false);
    for _ in 0..1024 {
        assert_eq!(ex.enter_call(), Ok(()));
    }
    assert_eq!(ex.enter_call(), Err(ExitError::CallTooDeep));
    // Unwinding one frame frees a slot again.
    ex.revert_checkpoint();
    assert_eq!(ex.enter_call(), Ok(()));
}

#[test]
fn failed_run_reports_gas_at_the_failing_step() {
    let (mut storage, x, y) = demo_store();
    let tx = Transaction {
        caller: y,
        to: x,
        value: u(0),
        data: Vec::new(),
        gas_limit: 30000,
        access_list: Vec::new(),
    };
    // One charge fits, the next cannot: gas stops at the figure before the
    // failing step (21000 intrinsic + 5000).
    let ops = vec![
        RuntimeOp::ChargeGas { amount: 5000 },
        RuntimeOp::ChargeGas { amount: 1_000_000 },
    ];
    let (reason, snap, rw) = tx_execution_serial(&mut storage, tx, ops);
    assert_eq!(reason, ExitReason::Error(ExitError::OutOfGas));
    assert_eq!(snap.used_gas, 26000);
}

#[test]
fn interpreter_fault_fails_the_frame() {
    let (storage, x, y) = demo_store();
    let mut ex = storage.executor(false);
    // The interpreter reports a fault mid-frame; earlier effects revert,
    // the reported kind comes back, gas stops at the pre-fault figure.
    let ops = vec![
        RuntimeOp::SStore { key: u(5), value: u(9) },
        RuntimeOp::Fail { error: ExitError::InvalidJump },
    ];
    let (reason, _) = ex.transact_call(y, x, U256::zero(), Vec::new(), 1_000_000, Vec::new(), ops);
    assert_eq!(reason, ExitReason::Error(ExitError::InvalidJump));
    assert!(ex.storage_read(&x, &u(5)).is_zero());
    assert_eq!(ex.snapshot().used_gas, 41000);
}

#[test]
fn default_store_has_no_precompiles() {
    let (storage, x, _y) = demo_store();
    assert_eq!(storage.precompiles.len(), 0);
    let ex = storage.executor(false);
    assert!(!ex.is_precompile(&x));
}
