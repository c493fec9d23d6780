use crate::exit::ExitError;
use crate::uint::U256;
use vstd::prelude::*;

verus! {

// Schedule-independent gas constants.
pub const G_VERYLOW: usize = 3;
pub const G_COPY: usize = 3;
pub const G_SHA3: usize = 30;
pub const G_SHA3WORD: usize = 6;
pub const G_EXP: usize = 10;
pub const G_CREATE: usize = 32000;
pub const G_LOG: usize = 375;
pub const G_LOGDATA: usize = 8;
pub const G_LOGTOPIC: usize = 375;
pub const G_CALLVALUE: usize = 9000;
pub const G_CALLSTIPEND: usize = 2300;
pub const G_NEWACCOUNT: usize = 25000;
pub const G_SSET: usize = 20000;
pub const G_SRESET: usize = 5000;
pub const G_SNOOP: usize = 800;

// Refund constants; refunds are signed bookkeeping.
pub const R_SUICIDE: isize = 24000;
pub const R_SRESET: isize = 15000;
pub const R_NETSCLEAR: isize = 15000;
pub const R_NETSRESET: isize = 4200;
pub const R_NETSRESETCLEAR: isize = 19200;

/// The protocol-upgrade variant under which one execution runs: named gas
/// constants and feature flags, selected once per execution context and never
/// mutated.
#[derive(Clone, Copy, Debug, PartialEq, Eq, Structural)]
pub struct Config {
    /// Selects the net-gas-metering refund policy for storage writes.
    pub has_reduced_sstore_gas_metering: bool,
    /// When false, empty accounts are considered non-existent (EIP-161).
    pub empty_considered_exists: bool,
    /// Per-byte cost of the exponent of EXP.
    pub gas_expbyte: usize,
    /// Base cost of EXTCODECOPY.
    pub gas_extcode: usize,
    /// Base cost of a self-destruct.
    pub gas_suicide: usize,
    /// Top-up charged when a self-destruct pays out to a new account.
    pub gas_suicide_new_account: usize,
    /// Base cost of the CALL family.
    pub gas_call: usize,
    /// Intrinsic cost of a call transaction.
    pub gas_transaction_call: usize,
    /// Per zero byte of transaction data.
    pub gas_transaction_zero_data: usize,
    /// Per non-zero byte of transaction data.
    pub gas_transaction_non_zero_data: usize,
}

impl Config {
    /// Construction-time contract on a schedule: the fixed surcharges must
    /// not overflow machine-width gas arithmetic.
    pub open spec fn wf(&self) -> bool {
        &&& self.gas_suicide + self.gas_suicide_new_account <= usize::MAX
        &&& self.gas_call + G_CALLVALUE + G_NEWACCOUNT <= usize::MAX
        &&& self.gas_transaction_zero_data <= 100000
        &&& self.gas_transaction_non_zero_data <= 100000
    }

    /// The Istanbul schedule's field values.
    pub open spec fn istanbul_spec() -> Config {
        Config {
            has_reduced_sstore_gas_metering: true,
            empty_considered_exists: false,
            gas_expbyte: 50,
            gas_extcode: 700,
            gas_suicide: 5000,
            gas_suicide_new_account: 25000,
            gas_call: 700,
            gas_transaction_call: 21000,
            gas_transaction_zero_data: 4,
            gas_transaction_non_zero_data: 16,
        }
    }

    /// The Istanbul protocol-upgrade schedule.
    pub fn istanbul() -> (r: Config)
        ensures
            r == Config::istanbul_spec(),
            r == (Config {
                has_reduced_sstore_gas_metering: true,
                empty_considered_exists: false,
                gas_expbyte: 50,
                gas_extcode: 700,
                gas_suicide: 5000,
                gas_suicide_new_account: 25000,
                gas_call: 700,
                gas_transaction_call: 21000,
                gas_transaction_zero_data: 4,
                gas_transaction_non_zero_data: 16,
            }),
            r.wf(),
    {
        Config {
            has_reduced_sstore_gas_metering: true,
            empty_considered_exists: false,
            gas_expbyte: 50,
            gas_extcode: 700,
            gas_suicide: 5000,
            gas_suicide_new_account: 25000,
            gas_call: 700,
            gas_transaction_call: 21000,
            gas_transaction_zero_data: 4,
            gas_transaction_non_zero_data: 16,
        }
    }
}

/// Number of 32-byte words covering `len` bytes: `ceil(len / 32)` computed
/// by integer division, never floating point.
pub open spec fn words_of(len: nat) -> nat {
    if len % 32 == 0 {
        len / 32
    } else {
        len / 32 + 1
    }
}

pub open spec fn verylowcopy_cost_spec(len: nat) -> int {
    G_VERYLOW + G_COPY * words_of(len)
}

pub open spec fn extcodecopy_cost_spec(len: nat, config: Config) -> int {
    config.gas_extcode + G_COPY * words_of(len)
}

pub open spec fn sha3_cost_spec(len: nat) -> int {
    G_SHA3 + G_SHA3WORD * words_of(len)
}

pub open spec fn create2_cost_spec(len: nat) -> int {
    G_CREATE + G_SHA3WORD * words_of(len)
}

pub open spec fn log_cost_spec(n: nat, len: nat) -> int {
    G_LOG + G_LOGDATA * len + G_LOGTOPIC * n
}

pub open spec fn exp_cost_spec(power: nat, config: Config) -> int {
    if power == 0 {
        G_EXP as int
    } else {
        G_EXP + config.gas_expbyte * (power / 8 + 1)
    }
}

/// Refund for one storage write, given the slot's value at transaction start
/// (`original`), its value before the write (`current`) and the value being
/// written (`new`). Signed: a negative delta claws back a refund granted
/// earlier in the same transaction.
pub open spec fn sstore_refund_spec(original: nat, current: nat, new: nat, config: Config) -> int {
    if !config.has_reduced_sstore_gas_metering {
        if current != 0 && new == 0 {
            R_SRESET as int
        } else {
            0
        }
    } else {
        if current == new {
            0
        } else {
            if original == current && new == 0 {
                R_NETSCLEAR as int
            } else {
                (if original != 0 {
                    if current == 0 {
                        -(R_NETSCLEAR as int)
                    } else if new == 0 {
                        R_NETSCLEAR as int
                    } else {
                        0
                    }
                } else {
                    0
                }) + (if original == new {
                    if original == 0 {
                        R_NETSRESETCLEAR as int
                    } else {
                        R_NETSRESET as int
                    }
                } else {
                    0
                })
            }
        }
    }
}

pub open spec fn sstore_cost_spec(original: nat, current: nat, new: nat, config: Config) -> int {
    if config.has_reduced_sstore_gas_metering {
        if new == current {
            G_SNOOP as int
        } else {
            if original == current {
                if original == 0 {
                    G_SSET as int
                } else {
                    G_SRESET as int
                }
            } else {
                G_SNOOP as int
            }
        }
    } else {
        if current == 0 && new != 0 {
            G_SSET as int
        } else {
            G_SRESET as int
        }
    }
}

pub open spec fn suicide_cost_spec(value: nat, target_exists: bool, config: Config) -> int {
    config.gas_suicide + (if (if !config.empty_considered_exists {
        value != 0 && !target_exists
    } else {
        !target_exists
    }) {
        config.gas_suicide_new_account as int
    } else {
        0
    })
}

pub open spec fn xfer_cost_spec(is_call_or_callcode: bool, transfers_value: bool) -> int {
    if is_call_or_callcode && transfers_value {
        G_CALLVALUE as int
    } else {
        0
    }
}

pub open spec fn new_cost_spec(
    is_call_or_staticcall: bool,
    new_account: bool,
    transfers_value: bool,
    config: Config,
) -> int {
    if is_call_or_staticcall {
        if !config.empty_considered_exists {
            if transfers_value && new_account {
                G_NEWACCOUNT as int
            } else {
                0
            }
        } else if new_account {
            G_NEWACCOUNT as int
        } else {
            0
        }
    } else {
        0
    }
}

pub open spec fn call_cost_spec(
    value: nat,
    is_call_or_callcode: bool,
    is_call_or_staticcall: bool,
    new_account: bool,
    config: Config,
) -> int {
    config.gas_call + xfer_cost_spec(is_call_or_callcode, value != 0) + new_cost_spec(
        is_call_or_staticcall,
        new_account,
        value != 0,
        config,
    )
}

/// Refund for a self-destruct: the fixed refund the first time an account is
/// destroyed within a transaction, nothing on a repeat destruction.
pub fn suicide_refund(already_removed: bool) -> (r: isize)
    ensures
        r == if already_removed { 0int } else { R_SUICIDE as int },
{
    if already_removed {
        0
    } else {
        R_SUICIDE
    }
}

/// Refund delta of one storage write. Must be summed, never clamped, by the
/// caller: intermediate negative totals are valid bookkeeping.
pub fn sstore_refund(original: U256, current: U256, new: U256, config: &Config) -> (r: isize)
    ensures
        r == sstore_refund_spec(original@, current@, new@, *config),
{
    let zero = U256::zero();
    if !config.has_reduced_sstore_gas_metering {
        if !current.eq_value(&zero) && new.eq_value(&zero) {
            R_SRESET
        } else {
            0
        }
    } else {
        if current.eq_value(&new) {
            0
        } else {
            if original.eq_value(&current) && new.eq_value(&zero) {
                R_NETSCLEAR
            } else {
                let mut refund: isize = 0;
                if !original.eq_value(&zero) {
                    if current.eq_value(&zero) {
                        refund = refund - R_NETSCLEAR;
                    } else if new.eq_value(&zero) {
                        refund = refund + R_NETSCLEAR;
                    }
                }
                if original.eq_value(&new) {
                    if original.eq_value(&zero) {
                        refund = refund + R_NETSRESETCLEAR;
                    } else {
                        refund = refund + R_NETSRESET;
                    }
                }
                refund
            }
        }
    }
}

/// Cost of one storage write, from the original, current and new value of
/// the slot under the selected metering policy.
pub fn sstore_cost(original: U256, current: U256, new: U256, config: &Config) -> (r: usize)
    ensures
        r == sstore_cost_spec(original@, current@, new@, *config),
{
    let zero = U256::zero();
    if config.has_reduced_sstore_gas_metering {
        if new.eq_value(&current) {
            G_SNOOP
        } else {
            if original.eq_value(&current) {
                if original.eq_value(&zero) {
                    G_SSET
                } else {
                    G_SRESET
                }
            } else {
                G_SNOOP
            }
        }
    } else {
        if current.eq_value(&zero) && !new.eq_value(&zero) {
            G_SSET
        } else {
            G_SRESET
        }
    }
}

/// Extra gas forwarded to the callee of a value-carrying call, so that a
/// bare value transfer cannot run out of gas in the callee's base cost.
pub fn call_callcode_stipend(value: U256) -> (r: usize)
    ensures
        r == if value@ != 0 { G_CALLSTIPEND as int } else { 0int },
{
    if !value.is_zero() {
        G_CALLSTIPEND
    } else {
        0
    }
}

/// Base self-destruct cost plus the new-account top-up, charged under
/// EIP-161 semantics only when value actually moves to a new beneficiary.
pub fn suicide_cost(value: U256, target_exists: bool, config: &Config) -> (r: usize)
    requires
        config.wf(),
    ensures
        r == suicide_cost_spec(value@, target_exists, *config),
{
    let eip161 = !config.empty_considered_exists;
    let should_charge_topup = if eip161 {
        !value.is_zero() && !target_exists
    } else {
        !target_exists
    };
    let suicide_gas_topup = if should_charge_topup {
        config.gas_suicide_new_account
    } else {
        0
    };
    config.gas_suicide + suicide_gas_topup
}

/// Value-transfer surcharge of the CALL family: only call and callcode
/// semantics carry value.
pub fn xfer_cost(is_call_or_callcode: bool, transfers_value: bool) -> (r: usize)
    ensures
        r == xfer_cost_spec(is_call_or_callcode, transfers_value),
{
    if is_call_or_callcode && transfers_value {
        G_CALLVALUE
    } else {
        0
    }
}

/// New-account surcharge of the CALL family, gated by the EIP-161 existence
/// rule: under it the surcharge applies only when value is transferred.
pub fn new_cost(
    is_call_or_staticcall: bool,
    new_account: bool,
    transfers_value: bool,
    config: &Config,
) -> (r: usize)
    ensures
        r == new_cost_spec(is_call_or_staticcall, new_account, transfers_value, *config),
{
    let eip161 = !config.empty_considered_exists;
    if is_call_or_staticcall {
        if eip161 {
            if transfers_value && new_account {
                G_NEWACCOUNT
            } else {
                0
            }
        } else if new_account {
            G_NEWACCOUNT
        } else {
            0
        }
    } else {
        0
    }
}

/// Full cost of a CALL-family operation: base cost plus the value-transfer
/// and new-account surcharges.
pub fn call_cost(
    value: U256,
    is_call_or_callcode: bool,
    is_call_or_staticcall: bool,
    new_account: bool,
    config: &Config,
) -> (r: usize)
    requires
        config.wf(),
    ensures
        r == call_cost_spec(value@, is_call_or_callcode, is_call_or_staticcall, new_account, *config),
{
    let transfers_value = !value.is_zero();
    config.gas_call + xfer_cost(is_call_or_callcode, transfers_value) + new_cost(
        is_call_or_staticcall,
        new_account,
        transfers_value,
        config,
    )
}

/// Shared shape of the copy-style costs: `base + per_word * ceil(len / 32)`,
/// computed in the wide domain; overflow of machine-width gas is itself an
/// out-of-gas failure.
fn word_gas(base: usize, per_word: usize, len: &U256) -> (r: Result<usize, ExitError>)
    requires
        2 <= per_word <= 64000,
    ensures
        r is Ok <==> base + per_word * words_of(len@) <= usize::MAX,
        r is Ok ==> r->Ok_0 == base + per_word * words_of(len@),
        r is Err ==> r->Err_0 == ExitError::OutOfGas,
{
    let (wordd, wordr) = len.div_rem_32();
    if wordd.hi != 0 || wordd.lo > (u64::MAX - 1) as u128 {
        proof {
            assert(wordd@ >= u64::MAX - 1) by (nonlinear_arith)
                requires
                    wordd@ == wordd.lo + wordd.hi * crate::uint::base128(),
                    wordd.hi != 0 || wordd.lo > u64::MAX - 1,
            ;
            assert(per_word * words_of(len@) >= 2 * (u64::MAX - 1)) by (nonlinear_arith)
                requires
                    per_word >= 2,
                    words_of(len@) >= u64::MAX - 1,
            ;
        }
        return Err(ExitError::OutOfGas);
    }
    let words64: u64 = wordd.lo as u64 + if wordr == 0 { 0 } else { 1 };
    proof {
        assert(words64 == words_of(len@));
        assert((per_word as u128) * (words64 as u128) <= 64000 * (u64::MAX as u128))
            by (nonlinear_arith)
            requires
                per_word <= 64000,
                words64 <= u64::MAX,
        ;
    }
    let total: u128 = base as u128 + (per_word as u128) * (words64 as u128);
    if total > usize::MAX as u128 {
        Err(ExitError::OutOfGas)
    } else {
        Ok(total as usize)
    }
}

/// Cost of the very-low-tier copy operations.
pub fn verylowcopy_cost(len: U256) -> (r: Result<usize, ExitError>)
    ensures
        r is Ok <==> verylowcopy_cost_spec(len@) <= usize::MAX,
        r is Ok ==> r->Ok_0 == verylowcopy_cost_spec(len@),
        r is Err ==> r->Err_0 == ExitError::OutOfGas,
{
    word_gas(G_VERYLOW, G_COPY, &len)
}

/// Cost of EXTCODECOPY: its own base constant from the schedule, the common
/// word rounding otherwise.
pub fn extcodecopy_cost(len: U256, config: &Config) -> (r: Result<usize, ExitError>)
    ensures
        r is Ok <==> extcodecopy_cost_spec(len@, *config) <= usize::MAX,
        r is Ok ==> r->Ok_0 == extcodecopy_cost_spec(len@, *config),
        r is Err ==> r->Err_0 == ExitError::OutOfGas,
{
    word_gas(config.gas_extcode, G_COPY, &len)
}

/// Cost of SHA3 over `len` input bytes.
pub fn sha3_cost(len: U256) -> (r: Result<usize, ExitError>)
    ensures
        r is Ok <==> sha3_cost_spec(len@) <= usize::MAX,
        r is Ok ==> r->Ok_0 == sha3_cost_spec(len@),
        r is Err ==> r->Err_0 == ExitError::OutOfGas,
{
    word_gas(G_SHA3, G_SHA3WORD, &len)
}

/// Cost of CREATE2: the create base cost plus hashing the init code.
pub fn create2_cost(len: U256) -> (r: Result<usize, ExitError>)
    ensures
        r is Ok <==> create2_cost_spec(len@) <= usize::MAX,
        r is Ok ==> r->Ok_0 == create2_cost_spec(len@),
        r is Err ==> r->Err_0 == ExitError::OutOfGas,
{
    word_gas(G_CREATE, G_SHA3WORD, &len)
}

/// Cost of a LOG with `n` topics over `len` data bytes.
pub fn log_cost(n: u8, len: U256) -> (r: Result<usize, ExitError>)
    ensures
        r is Ok <==> log_cost_spec(n as nat, len@) <= usize::MAX,
        r is Ok ==> r->Ok_0 == log_cost_spec(n as nat, len@),
        r is Err ==> r->Err_0 == ExitError::OutOfGas,
{
    if len.hi != 0 || len.lo > (u64::MAX - 1) as u128 {
        proof {
            assert(len@ >= u64::MAX - 1) by (nonlinear_arith)
                requires
                    len@ == len.lo + len.hi * crate::uint::base128(),
                    len.hi != 0 || len.lo > u64::MAX - 1,
            ;
            assert(G_LOGDATA * len@ >= 8 * (u64::MAX - 1)) by (nonlinear_arith)
                requires
                    len@ >= u64::MAX - 1,
            ;
        }
        return Err(ExitError::OutOfGas);
    }
    let len64: u64 = len.lo as u64;
    proof {
        assert((G_LOGDATA as u128) * (len64 as u128) <= 8 * (u64::MAX as u128))
            by (nonlinear_arith)
            requires
                len64 <= u64::MAX,
        ;
        assert((G_LOGTOPIC as u128) * (n as u128) <= 375 * 255) by (nonlinear_arith)
            requires
                n <= 255,
        ;
    }
    let total: u128 = G_LOG as u128 + (G_LOGDATA as u128) * (len64 as u128) + (G_LOGTOPIC
        as u128) * (n as u128);
    if total > usize::MAX as u128 {
        Err(ExitError::OutOfGas)
    } else {
        Ok(total as usize)
    }
}

/// Cost of EXP: the base cost when the exponent is zero, else the base cost
/// plus the per-byte cost over the exponent's significant bytes, counted as
/// `power / 8 + 1`.
pub fn exp_cost(power: U256, config: &Config) -> (r: Result<usize, ExitError>)
    ensures
        r is Ok <==> exp_cost_spec(power@, *config) <= usize::MAX,
        r is Ok ==> r->Ok_0 == exp_cost_spec(power@, *config),
        r is Err ==> r->Err_0 == ExitError::OutOfGas,
{
    if power.is_zero() {
        return Ok(G_EXP);
    }
    if config.gas_expbyte == 0 {
        return Ok(G_EXP);
    }
    let q = power.div_8();
    if q.hi != 0 || q.lo >= u64::MAX as u128 {
        proof {
            assert(q@ >= u64::MAX) by (nonlinear_arith)
                requires
                    q@ == q.lo + q.hi * crate::uint::base128(),
                    q.hi != 0 || q.lo >= u64::MAX,
            ;
            assert(config.gas_expbyte * (power@ / 8 + 1) >= u64::MAX + 1) by (nonlinear_arith)
                requires
                    config.gas_expbyte >= 1,
                    power@ / 8 >= u64::MAX,
            ;
        }
        return Err(ExitError::OutOfGas);
    }
    let m: u64 = q.lo as u64 + 1;
    proof {
        assert((config.gas_expbyte as u128) * (m as u128) <= (u64::MAX as u128) * (u64::MAX
            as u128)) by (nonlinear_arith)
            requires
                config.gas_expbyte <= u64::MAX,
                m <= u64::MAX,
        ;
    }
    let total: u128 = G_EXP as u128 + (config.gas_expbyte as u128) * (m as u128);
    if total > usize::MAX as u128 {
        Err(ExitError::OutOfGas)
    } else {
        Ok(total as usize)
    }
}

} // verus!
