use evm::costs::{
    call_callcode_stipend, call_cost, create2_cost, exp_cost, extcodecopy_cost, log_cost,
    new_cost, sha3_cost, sstore_cost, sstore_refund, suicide_cost, suicide_refund,
    verylowcopy_cost, xfer_cost, Config,
};
use evm::exit::ExitError;
use evm::uint::U256;

fn u(v: u64) -> U256 {
    U256::from_u64(v)
}

#[test]
fn verylowcopy_cost_exact_values() {
    // 3 + 3 * ceil(len/32)
    assert_eq!(verylowcopy_cost(u(0)), Ok(3));
    assert_eq!(verylowcopy_cost(u(1)), Ok(6));
    assert_eq!(verylowcopy_cost(u(32)), Ok(6));
    assert_eq!(verylowcopy_cost(u(33)), Ok(9));
}

#[test]
fn verylowcopy_cost_word_boundary() {
    // Flat inside a word, a strict jump right after the boundary.
    let at_boundary = verylowcopy_cost(u(64)).unwrap();
    assert_eq!(verylowcopy_cost(u(63)).unwrap(), at_boundary);
    assert!(verylowcopy_cost(u(65)).unwrap() > at_boundary);
}

#[test]
fn verylowcopy_cost_monotone_samples() {
    let mut last = 0;
    for len in 0..200u64 {
        let c = verylowcopy_cost(u(len)).unwrap();
        assert!(c >= last);
        last = c;
    }
}

#[test]
fn verylowcopy_cost_overflows_to_out_of_gas() {
    let huge = U256 { lo: 0, hi: u128::MAX };
    assert_eq!(verylowcopy_cost(huge), Err(ExitError::OutOfGas));
}

#[test]
fn exp_cost_zero_is_base() {
    let config = Config::istanbul();
    assert_eq!(exp_cost(U256::zero(), &config), Ok(10));
}

#[test]
fn exp_cost_steps_every_eight() {
    let config = Config::istanbul();
    // 10 + 50 * (p/8 + 1)
    assert_eq!(exp_cost(u(1), &config), Ok(60));
    assert_eq!(exp_cost(u(7), &config), Ok(60));
    assert_eq!(exp_cost(u(8), &config), Ok(110));
    assert_eq!(exp_cost(u(15), &config), Ok(110));
    assert_eq!(exp_cost(u(16), &config), Ok(160));
    assert_eq!(exp_cost(u(255), &config), Ok(10 + 50 * 32));
}

#[test]
fn exp_cost_huge_power_out_of_gas() {
    let config = Config::istanbul();
    let huge = U256 { lo: 0, hi: u128::MAX };
    assert_eq!(exp_cost(huge, &config), Err(ExitError::OutOfGas));
}

#[test]
fn sha3_and_create2_and_extcodecopy_costs() {
    let config = Config::istanbul();
    assert_eq!(sha3_cost(u(0)), Ok(30));
    assert_eq!(sha3_cost(u(32)), Ok(36));
    assert_eq!(create2_cost(u(0)), Ok(32000));
    assert_eq!(create2_cost(u(33)), Ok(32000 + 12));
    assert_eq!(extcodecopy_cost(u(0), &config), Ok(700));
    assert_eq!(extcodecopy_cost(u(1), &config), Ok(703));
}

#[test]
fn log_cost_exact() {
    // 375 + 8*len + 375*n
    assert_eq!(log_cost(0, u(0)), Ok(375));
    assert_eq!(log_cost(2, u(10)), Ok(375 + 80 + 750));
    let huge = U256 { lo: 0, hi: 1 };
    assert_eq!(log_cost(0, huge), Err(ExitError::OutOfGas));
}

#[test]
fn sstore_cost_net_metering() {
    // Net metering (the flag set): three-way comparison against the
    // original value; unchanged and dirty writes charge the no-op cost.
    let config = Config::istanbul();
    assert_eq!(sstore_cost(u(1), u(1), u(1), &config), 800);
    assert_eq!(sstore_cost(u(0), u(0), u(5), &config), 20000);
    assert_eq!(sstore_cost(u(3), u(3), u(5), &config), 5000);
    assert_eq!(sstore_cost(u(3), u(4), u(5), &config), 800);
}

#[test]
fn sstore_cost_legacy_metering() {
    // Legacy (the flag clear): set when zero becomes non-zero, reset
    // otherwise, judged on current and new alone.
    let mut config = Config::istanbul();
    config.has_reduced_sstore_gas_metering = false;
    assert_eq!(sstore_cost(u(0), u(0), u(5), &config), 20000);
    assert_eq!(sstore_cost(u(0), u(5), u(6), &config), 5000);
    assert_eq!(sstore_cost(u(0), u(5), u(0), &config), 5000);
    assert_eq!(sstore_cost(u(1), u(1), u(1), &config), 5000);
}

#[test]
fn sstore_refund_legacy_round_trip_nonzero() {
    let mut config = Config::istanbul();
    config.has_reduced_sstore_gas_metering = false;
    // original != 0, new != 0: away and back nets to zero.
    let away = sstore_refund(u(7), u(7), u(9), &config);
    let back = sstore_refund(u(7), u(9), u(7), &config);
    assert_eq!(away + back, 0);
}

#[test]
fn sstore_refund_legacy_clear_grants_refund() {
    let mut config = Config::istanbul();
    config.has_reduced_sstore_gas_metering = false;
    assert_eq!(sstore_refund(u(7), u(7), u(0), &config), 15000);
    assert_eq!(sstore_refund(u(7), u(7), u(9), &config), 0);
}

#[test]
fn sstore_refund_net_metering_cases() {
    let config = Config::istanbul();
    // No-op write.
    assert_eq!(sstore_refund(u(1), u(2), u(2), &config), 0);
    // Clean clear of the original slot.
    assert_eq!(sstore_refund(u(1), u(1), u(0), &config), 15000);
    // Reversing an earlier clear: clawback plus net-reset.
    assert_eq!(sstore_refund(u(1), u(0), u(1), &config), -15000 + 4200);
    // Restoring a slot that began zero.
    assert_eq!(sstore_refund(u(0), u(5), u(0), &config), 19200);
    // Dirty write back to a non-zero original.
    assert_eq!(sstore_refund(u(1), u(2), u(1), &config), 4200);
}

#[test]
fn sstore_refund_net_metering_round_trip_residue() {
    // Under net metering the away-and-back round trip does not net to
    // zero: it leaves the net-reset credit.
    let config = Config::istanbul();
    let away = sstore_refund(u(1), u(1), u(2), &config);
    let back = sstore_refund(u(1), u(2), u(1), &config);
    assert_eq!(away + back, 4200);
}

#[test]
fn suicide_refund_only_once() {
    assert_eq!(suicide_refund(false), 24000);
    assert_eq!(suicide_refund(true), 0);
}

#[test]
fn suicide_cost_eip161_topup_needs_value() {
    let config = Config::istanbul();
    // EIP-161: the top-up applies only when value actually moves.
    assert_eq!(suicide_cost(u(0), false, &config), 5000);
    assert_eq!(suicide_cost(u(1), false, &config), 30000);
    assert_eq!(suicide_cost(u(1), true, &config), 5000);
}

#[test]
fn suicide_cost_legacy_topup_on_new_target() {
    let mut config = Config::istanbul();
    config.empty_considered_exists = true;
    assert_eq!(suicide_cost(u(0), false, &config), 30000);
    assert_eq!(suicide_cost(u(0), true, &config), 5000);
}

#[test]
fn call_cost_components() {
    let config = Config::istanbul();
    assert_eq!(xfer_cost(true, true), 9000);
    assert_eq!(xfer_cost(false, true), 0);
    assert_eq!(new_cost(true, true, true, &config), 25000);
    assert_eq!(new_cost(true, true, false, &config), 0);
    assert_eq!(new_cost(false, true, true, &config), 0);
    assert_eq!(call_cost(u(1), true, true, true, &config), 700 + 9000 + 25000);
    assert_eq!(call_cost(u(0), true, true, true, &config), 700);
}

#[test]
fn call_stipend_needs_value() {
    assert_eq!(call_callcode_stipend(u(0)), 0);
    assert_eq!(call_callcode_stipend(u(1)), 2300);
}

#[test]
fn sstore_refund_write_write_write_back() {
    // Three writes: away, away again, and back to the original value.
    let config = Config::istanbul();
    let first = sstore_refund(u(7), u(7), u(8), &config);
    let second = sstore_refund(u(7), u(8), u(9), &config);
    let third = sstore_refund(u(7), u(9), u(7), &config);
    assert_eq!(first, 0);
    assert_eq!(second, 0);
    assert_eq!(third, 4200);
    assert_eq!(first + second + third, 4200);
}

#[test]
fn sstore_refund_net_round_trip_zero_original() {
    let config = Config::istanbul();
    let away = sstore_refund(u(0), u(0), u(5), &config);
    let back = sstore_refund(u(0), u(5), u(0), &config);
    assert_eq!(away + back, 19200);
}
