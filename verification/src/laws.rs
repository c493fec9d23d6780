use crate::costs::{
    exp_cost_spec, sstore_refund_spec, verylowcopy_cost_spec, words_of, Config,
};
use vstd::arithmetic::div_mod::{
    lemma_div_is_ordered, lemma_fundamental_div_mod_converse,
};
use vstd::prelude::*;

verus! {

/// Copy costs are monotonically non-decreasing in the length copied.
pub proof fn lemma_verylowcopy_cost_monotone(len1: nat, len2: nat)
    requires
        len1 <= len2,
    ensures
        verylowcopy_cost_spec(len1) <= verylowcopy_cost_spec(len2),
{
    lemma_words_of_monotone(len1, len2);
    assert(3 * words_of(len1) <= 3 * words_of(len2)) by (nonlinear_arith)
        requires
            words_of(len1) <= words_of(len2),
    ;
}

/// The word count is monotone in the byte length.
pub proof fn lemma_words_of_monotone(len1: nat, len2: nat)
    requires
        len1 <= len2,
    ensures
        words_of(len1) <= words_of(len2),
{
    lemma_div_is_ordered(len1 as int, len2 as int, 32);
    if len1 % 32 != 0 && len2 % 32 == 0 && len1 / 32 == len2 / 32 {
        lemma_fundamental_div_mod_converse(len2 as int, 32, (len2 / 32) as int, 0);
        assert(len1 < len2);
        assert(false);
    }
}

/// The copy cost is flat inside a 32-byte word and jumps exactly at the word
/// boundary: length `32k - 1` costs the same as `32k`, while `32k + 1` costs
/// strictly more.
pub proof fn lemma_verylowcopy_cost_word_boundary(k: nat)
    requires
        1 <= k,
    ensures
        verylowcopy_cost_spec((32 * k - 1) as nat) == verylowcopy_cost_spec(32 * k),
        verylowcopy_cost_spec(32 * k + 1) > verylowcopy_cost_spec(32 * k),
{
    let a = (32 * k - 1) as nat;
    let b = 32 * k;
    let c = 32 * k + 1;
    lemma_fundamental_div_mod_converse(a as int, 32, k as int - 1, 31);
    lemma_fundamental_div_mod_converse(b as int, 32, k as int, 0);
    lemma_fundamental_div_mod_converse(c as int, 32, k as int, 1);
    assert(words_of(a) == k);
    assert(words_of(b) == k);
    assert(words_of(c) == k + 1);
    assert(3 * words_of(b) < 3 * words_of(c)) by (nonlinear_arith)
        requires
            words_of(b) < words_of(c),
    ;
}

/// EXP cost takes a strict step upward every 8 increments of the exponent's
/// magnitude: `exp_cost(p + 8)` exceeds `exp_cost(p)` by exactly the per-byte
/// cost.
pub proof fn lemma_exp_cost_step(power: nat, config: Config)
    requires
        power >= 1,
        config.gas_expbyte >= 1,
    ensures
        exp_cost_spec(power + 8, config) == exp_cost_spec(power, config) + config.gas_expbyte,
        exp_cost_spec(power + 8, config) > exp_cost_spec(power, config),
{
    let q = power / 8;
    let r = power % 8;
    vstd::arithmetic::div_mod::lemma_fundamental_div_mod(power as int, 8);
    lemma_fundamental_div_mod_converse(power as int + 8, 8, q as int + 1, r as int);
    assert((power + 8) / 8 == q + 1);
    assert(config.gas_expbyte * ((q + 1) + 1) == config.gas_expbyte * (q + 1)
        + config.gas_expbyte) by (nonlinear_arith);
}

/// Under the legacy (pre-net-metering) refund policy, writing a slot whose
/// original and new values are both non-zero away and then back nets to the
/// refund of never having written it at all: zero.
pub proof fn lemma_sstore_refund_round_trip(original: nat, new: nat, config: Config)
    requires
        !config.has_reduced_sstore_gas_metering,
        original != 0,
        new != 0,
    ensures
        sstore_refund_spec(original, original, new, config) + sstore_refund_spec(
            original,
            new,
            original,
            config,
        ) == 0,
{
}

/// Under net metering, a degenerate round trip (writing the original value
/// twice) also nets to zero.
pub proof fn lemma_sstore_refund_round_trip_noop(original: nat, config: Config)
    requires
        config.has_reduced_sstore_gas_metering,
    ensures
        sstore_refund_spec(original, original, original, config) + sstore_refund_spec(
            original,
            original,
            original,
            config,
        ) == 0,
{
}

} // verus!

verus! {

/// Under net metering, the away-and-back round trip on a slot with a
/// non-zero original does not net to zero: it leaves exactly the net-reset
/// credit (the second write restored the original).
pub proof fn lemma_sstore_refund_net_round_trip_residue(original: nat, new: nat, config: Config)
    requires
        config.has_reduced_sstore_gas_metering,
        original != 0,
        new != 0,
        new != original,
    ensures
        sstore_refund_spec(original, original, new, config) + sstore_refund_spec(
            original,
            new,
            original,
            config,
        ) == crate::costs::R_NETSRESET as int,
{
}

/// The same round trip on a slot whose original is zero leaves exactly the
/// net-reset-clear credit.
pub proof fn lemma_sstore_refund_net_round_trip_residue_zero(new: nat, config: Config)
    requires
        config.has_reduced_sstore_gas_metering,
        new != 0,
    ensures
        sstore_refund_spec(0, 0, new, config) + sstore_refund_spec(0, new, 0, config)
            == crate::costs::R_NETSRESETCLEAR as int,
{
}

} // verus!
