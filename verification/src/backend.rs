use crate::uint::{base128, U256};
use crate::util::{clone_vec_copy, vec_set};
use vstd::prelude::*;

verus! {

/// A 160-bit account address, split into a 32-bit high part and a 128-bit
/// low part.
#[derive(Clone, Copy, Debug, PartialEq, Eq, Structural, Hash)]
pub struct Address {
    pub hi: u32,
    pub lo: u128,
}

impl View for Address {
    type V = nat;

    open spec fn view(&self) -> nat {
        (self.lo + self.hi * base128()) as nat
    }
}

/// Two addresses are structurally equal exactly when they denote the same
/// number.
pub proof fn lemma_address_eq(a: Address, b: Address)
    ensures
        (a@ == b@) <==> (a == b),
{
    if a@ == b@ && a.hi != b.hi {
        if a.hi > b.hi {
            assert(a.hi * base128() >= b.hi * base128() + base128()) by (nonlinear_arith)
                requires a.hi >= b.hi + 1,
            ;
        } else {
            assert(b.hi * base128() >= a.hi * base128() + base128()) by (nonlinear_arith)
                requires b.hi >= a.hi + 1,
            ;
        }
        assert(false);
    }
}

impl Address {
    pub fn new(hi: u32, lo: u128) -> (r: Address)
        ensures
            r == (Address { hi, lo }),
    {
        Address { hi, lo }
    }

    pub fn zero() -> (r: Address)
        ensures
            r@ == 0,
    {
        Address { hi: 0, lo: 0 }
    }

    pub fn eq_addr(&self, other: &Address) -> (r: bool)
        ensures
            r == (self@ == other@),
    {
        proof {
            lemma_address_eq(*self, *other);
        }
        self.hi == other.hi && self.lo == other.lo
    }
}

/// One log record: emitted in execution order, never mutated afterwards.
#[derive(Debug)]
pub struct Log {
    pub address: Address,
    pub topics: Vec<U256>,
    pub data: Vec<u8>,
}

/// Log records carry the same content.
pub open spec fn log_eq(a: Log, b: Log) -> bool {
    a.address@ == b.address@ && a.topics@ == b.topics@ && a.data@ == b.data@
}

/// One account record: a nonce, a balance, persistent storage and code.
/// Storage slots default to the all-zero value when absent.
#[derive(Debug)]
pub struct MemoryAccount {
    pub nonce: U256,
    pub balance: U256,
    pub storage: Vec<(U256, U256)>,
    pub code: Vec<u8>,
}

/// Account records carry the same content.
pub open spec fn acct_eq(a: MemoryAccount, b: MemoryAccount) -> bool {
    a.nonce == b.nonce && a.balance == b.balance && a.storage@ == b.storage@ && a.code@ == b.code@
}

pub fn clone_account(a: &MemoryAccount) -> (r: MemoryAccount)
    ensures
        acct_eq(*a, r),
{
    MemoryAccount {
        nonce: a.nonce,
        balance: a.balance,
        storage: clone_vec_copy(&a.storage),
        code: clone_vec_copy(&a.code),
    }
}

/// The default-empty account record standing for an absent account.
pub fn empty_account() -> (r: MemoryAccount)
    ensures
        r.nonce@ == 0,
        r.balance@ == 0,
        r.storage@.len() == 0,
        r.code@.len() == 0,
{
    MemoryAccount { nonce: U256::zero(), balance: U256::zero(), storage: Vec::new(), code: Vec::new() }
}

// Storage of one account: an association list from slot key to slot value,
// keys unique. A slot absent from the list holds zero.

pub open spec fn has_slot(st: Seq<(U256, U256)>, k: nat) -> bool {
    exists|i: int| 0 <= i < st.len() && st[i].0@ == k
}

pub open spec fn slot_index(st: Seq<(U256, U256)>, k: nat) -> int {
    choose|i: int| 0 <= i < st.len() && st[i].0@ == k
}

pub open spec fn slots_unique(st: Seq<(U256, U256)>) -> bool {
    forall|i: int, j: int| 0 <= i < j < st.len() ==> st[i].0@ != st[j].0@
}

/// The value a slot holds: the listed value when present, zero otherwise.
pub open spec fn slot_val(st: Seq<(U256, U256)>, k: nat) -> nat {
    if has_slot(st, k) {
        st[slot_index(st, k)].1@
    } else {
        0
    }
}

/// With unique keys, any occurrence of a key is the occurrence.
pub proof fn lemma_slot_at(st: Seq<(U256, U256)>, k: nat, i: int)
    requires
        slots_unique(st),
        0 <= i < st.len(),
        st[i].0@ == k,
    ensures
        has_slot(st, k),
        slot_index(st, k) == i,
        slot_val(st, k) == st[i].1@,
{
    assert(has_slot(st, k));
    let j = slot_index(st, k);
    if j != i {
        assert(st[i].0@ != st[j].0@);
    }
}

pub fn find_slot(st: &Vec<(U256, U256)>, key: &U256) -> (r: Option<usize>)
    ensures
        match r {
            Some(i) => i < st@.len() && st@[i as int].0@ == key@,
            None => !has_slot(st@, key@),
        },
{
    let mut i: usize = 0;
    while i < st.len()
        invariant
            i <= st@.len(),
            forall|j: int| 0 <= j < i ==> st@[j].0@ != key@,
        decreases st@.len() - i,
    {
        if st[i].0.eq_value(key) {
            return Some(i);
        }
        i += 1;
    }
    None
}

/// Write one slot: a zero value removes the entry, any other value replaces
/// or appends it. Pointwise, only the written key changes.
pub fn set_slot(st: &mut Vec<(U256, U256)>, key: U256, value: U256)
    requires
        slots_unique(old(st)@),
    ensures
        slots_unique(final(st)@),
        forall|k: nat|
            slot_val(final(st)@, k) == if k == key@ {
                value@
            } else {
                slot_val(old(st)@, k)
            },
{
    let ghost st0 = st@;
    let idx = find_slot(st, &key);
    if value.is_zero() {
        match idx {
            Some(i) => {
                st.remove(i);
                proof {
                    lemma_slot_at(st0, key@, i as int);
                    assert forall|k: nat|
                        slot_val(st@, k) == if k == key@ {
                            value@
                        } else {
                            slot_val(st0, k)
                        } by {
                        lemma_slot_pointwise_remove(st0, st@, i as int, k);
                    }
                }
            },
            None => {
            },
        }
    } else {
        match idx {
            Some(i) => {
                proof {
                    crate::uint::lemma_u256_eq(st0[i as int].0, key);
                }
                vec_set(st, i, (key, value));
                proof {
                    assert forall|k: nat|
                        slot_val(st@, k) == if k == key@ {
                            value@
                        } else {
                            slot_val(st0, k)
                        } by {
                        lemma_slot_pointwise_update(st0, st@, i as int, k);
                    }
                }
            },
            None => {
                st.push((key, value));
                proof {
                    assert forall|i1: int, j1: int|
                        0 <= i1 < j1 < st@.len() implies st@[i1].0@ != st@[j1].0@ by {
                        if j1 == st@.len() - 1 {
                            assert(st@[i1] == st0[i1]);
                        }
                    }
                    assert forall|k: nat|
                        slot_val(st@, k) == if k == key@ {
                            value@
                        } else {
                            slot_val(st0, k)
                        } by {
                        if k == key@ {
                            lemma_slot_at(st@, k, st@.len() - 1);
                        } else {
                            if has_slot(st0, k) {
                                let j = slot_index(st0, k);
                                assert(st@[j] == st0[j]);
                                lemma_slot_at(st@, k, j);
                                lemma_slot_at(st0, k, j);
                            } else {
                                assert(!has_slot(st@, k)) by {
                                    if has_slot(st@, k) {
                                        let j = slot_index(st@, k);
                                        assert(0 <= j < st@.len() && st@[j].0@ == k);
                                        assert(j != st@.len() - 1);
                                        assert(st@[j] == st0[j]);
                                    }
                                }
                            }
                        }
                    }
                }
            },
        }
    }
}

/// Removing one occurrence of a unique key changes only that key.
proof fn lemma_slot_pointwise_remove(st0: Seq<(U256, U256)>, st1: Seq<(U256, U256)>, i: int, k: nat)
    requires
        slots_unique(st0),
        0 <= i < st0.len(),
        st1 == st0.remove(i),
    ensures
        slots_unique(st1),
        slot_val(st1, k) == if k == st0[i].0@ {
            0nat
        } else {
            slot_val(st0, k)
        },
{
    assert forall|i1: int, j1: int| 0 <= i1 < j1 < st1.len() implies st1[i1].0@ != st1[j1].0@ by {
        let oi = if i1 < i { i1 } else { i1 + 1 };
        let oj = if j1 < i { j1 } else { j1 + 1 };
        assert(st1[i1] == st0[oi]);
        assert(st1[j1] == st0[oj]);
    }
    if k == st0[i].0@ {
        if has_slot(st1, k) {
            let j = slot_index(st1, k);
            let oj = if j < i { j } else { j + 1 };
            assert(st1[j] == st0[oj]);
            assert(st0[oj].0@ == st0[i].0@ && oj != i);
            assert(false);
        }
    } else {
        if has_slot(st0, k) {
            let j = slot_index(st0, k);
            assert(st0[j].0@ == k);
            assert(j != i);
            let nj = if j < i { j } else { j - 1 };
            assert(st1[nj] == st0[j]);
            lemma_slot_at(st1, k, nj);
            lemma_slot_at(st0, k, j);
        } else {
            if has_slot(st1, k) {
                let j = slot_index(st1, k);
                let oj = if j < i { j } else { j + 1 };
                assert(st1[j] == st0[oj]);
            }
        }
    }
}

// Accounts of a store or an overlay: an association list from address to
// account record, addresses unique.

pub open spec fn has_acct(s: Seq<(Address, MemoryAccount)>, a: nat) -> bool {
    exists|i: int| 0 <= i < s.len() && s[i].0@ == a
}

pub open spec fn acct_index(s: Seq<(Address, MemoryAccount)>, a: nat) -> int {
    choose|i: int| 0 <= i < s.len() && s[i].0@ == a
}

pub open spec fn addrs_unique(s: Seq<(Address, MemoryAccount)>) -> bool {
    forall|i: int, j: int| 0 <= i < j < s.len() ==> s[i].0@ != s[j].0@
}

pub open spec fn acct_at(s: Seq<(Address, MemoryAccount)>, a: nat) -> MemoryAccount {
    s[acct_index(s, a)].1
}

/// Well-formed account list: unique addresses, unique slot keys inside every
/// account.
pub open spec fn wf_accounts(s: Seq<(Address, MemoryAccount)>) -> bool {
    &&& addrs_unique(s)
    &&& forall|i: int| 0 <= i < s.len() ==> slots_unique(#[trigger] s[i].1.storage@)
}

/// With unique addresses, any occurrence of an address is the occurrence.
pub proof fn lemma_acct_at(s: Seq<(Address, MemoryAccount)>, a: nat, i: int)
    requires
        addrs_unique(s),
        0 <= i < s.len(),
        s[i].0@ == a,
    ensures
        has_acct(s, a),
        acct_index(s, a) == i,
        acct_at(s, a) == s[i].1,
{
    assert(has_acct(s, a));
    let j = acct_index(s, a);
    if j != i {
        assert(s[i].0@ != s[j].0@);
    }
}

// The semantic view of an account list: what each address's account holds,
// with an absent account reading as the default-empty record.

pub open spec fn exists_sem(s: Seq<(Address, MemoryAccount)>, a: nat) -> bool {
    has_acct(s, a)
}

pub open spec fn nonce_sem(s: Seq<(Address, MemoryAccount)>, a: nat) -> nat {
    if has_acct(s, a) {
        acct_at(s, a).nonce@
    } else {
        0
    }
}

pub open spec fn balance_sem(s: Seq<(Address, MemoryAccount)>, a: nat) -> nat {
    if has_acct(s, a) {
        acct_at(s, a).balance@
    } else {
        0
    }
}

pub open spec fn code_sem(s: Seq<(Address, MemoryAccount)>, a: nat) -> Seq<u8> {
    if has_acct(s, a) {
        acct_at(s, a).code@
    } else {
        Seq::empty()
    }
}

pub open spec fn slot_sem(s: Seq<(Address, MemoryAccount)>, a: nat, k: nat) -> nat {
    if has_acct(s, a) {
        slot_val(acct_at(s, a).storage@, k)
    } else {
        0
    }
}

pub fn find_account(s: &Vec<(Address, MemoryAccount)>, address: &Address) -> (r: Option<usize>)
    ensures
        match r {
            Some(i) => i < s@.len() && s@[i as int].0@ == address@,
            None => !has_acct(s@, address@),
        },
{
    let mut i: usize = 0;
    while i < s.len()
        invariant
            i <= s@.len(),
            forall|j: int| 0 <= j < i ==> s@[j].0@ != address@,
        decreases s@.len() - i,
    {
        if s[i].0.eq_addr(address) {
            return Some(i);
        }
        i += 1;
    }
    None
}

/// Insert or replace the record of one address. Pointwise, only that
/// address changes.
pub fn upsert_acct(s: &mut Vec<(Address, MemoryAccount)>, address: Address, account: MemoryAccount)
    requires
        wf_accounts(old(s)@),
        slots_unique(account.storage@),
    ensures
        wf_accounts(final(s)@),
        forall|x: nat| has_acct(final(s)@, x) == (x == address@ || has_acct(old(s)@, x)),
        acct_at(final(s)@, address@) == account,
        forall|x: nat|
            x != address@ && has_acct(old(s)@, x) ==> acct_at(final(s)@, x) == acct_at(old(s)@, x),
{
    let ghost s0 = s@;
    let idx = find_account(s, &address);
    match idx {
        Some(i) => {
            proof {
                lemma_address_eq(s0[i as int].0, address);
            }
            vec_set(s, i, (address, account));
            proof {
                assert forall|i1: int, j1: int|
                    0 <= i1 < j1 < s@.len() implies s@[i1].0@ != s@[j1].0@ by {
                    assert(s@[i1].0@ == s0[i1].0@);
                    assert(s@[j1].0@ == s0[j1].0@);
                }
                lemma_acct_at(s@, address@, i as int);
                assert forall|x: nat|
                    has_acct(s@, x) == (x == address@ || has_acct(s0, x)) by {
                    if has_acct(s@, x) && x != address@ {
                        let j = acct_index(s@, x);
                        assert(s@[j].0@ == s0[j].0@);
                    }
                    if has_acct(s0, x) && x != address@ {
                        let j = acct_index(s0, x);
                        assert(s@[j] == s0[j]);
                    }
                }
                assert forall|x: nat|
                    x != address@ && has_acct(s0, x) implies acct_at(s@, x) == acct_at(s0, x) by {
                    let j = acct_index(s0, x);
                    lemma_acct_at(s0, x, j);
                    assert(s@[j] == s0[j]);
                    lemma_acct_at(s@, x, j);
                }
                assert forall|i1: int|
                    0 <= i1 < s@.len() implies slots_unique(#[trigger] s@[i1].1.storage@) by {
                    if i1 != i as int {
                        assert(s@[i1] == s0[i1]);
                    }
                }
            }
        },
        None => {
            s.push((address, account));
            proof {
                let n = s@.len() - 1;
                assert forall|i1: int, j1: int|
                    0 <= i1 < j1 < s@.len() implies s@[i1].0@ != s@[j1].0@ by {
                    if j1 == n {
                        assert(s@[i1] == s0[i1]);
                    } else {
                        assert(s@[i1] == s0[i1] && s@[j1] == s0[j1]);
                    }
                }
                lemma_acct_at(s@, address@, n);
                assert forall|x: nat|
                    has_acct(s@, x) == (x == address@ || has_acct(s0, x)) by {
                    if has_acct(s@, x) && x != address@ {
                        let j = acct_index(s@, x);
                        assert(j != n);
                        assert(s@[j] == s0[j]);
                    }
                    if has_acct(s0, x) {
                        let j = acct_index(s0, x);
                        assert(s@[j] == s0[j]);
                    }
                }
                assert forall|x: nat|
                    x != address@ && has_acct(s0, x) implies acct_at(s@, x) == acct_at(s0, x) by {
                    let j = acct_index(s0, x);
                    lemma_acct_at(s0, x, j);
                    assert(s@[j] == s0[j]);
                    lemma_acct_at(s@, x, j);
                }
                assert forall|i1: int|
                    0 <= i1 < s@.len() implies slots_unique(#[trigger] s@[i1].1.storage@) by {
                    if i1 != n {
                        assert(s@[i1] == s0[i1]);
                    }
                }
            }
        },
    }
}

/// Remove the record of one address, if present. Pointwise, only that
/// address changes.
pub fn remove_acct(s: &mut Vec<(Address, MemoryAccount)>, address: &Address)
    requires
        wf_accounts(old(s)@),
    ensures
        wf_accounts(final(s)@),
        forall|x: nat| has_acct(final(s)@, x) == (x != address@ && has_acct(old(s)@, x)),
        forall|x: nat|
            x != address@ && has_acct(old(s)@, x) ==> acct_at(final(s)@, x) == acct_at(old(s)@, x),
{
    let ghost s0 = s@;
    let idx = find_account(s, address);
    match idx {
        Some(i) => {
            s.remove(i);
            proof {
                lemma_acct_remove_pointwise(s0, s@, i as int);
            }
        },
        None => {
        },
    }
}

/// Removing one occurrence of a unique address changes only that address.
proof fn lemma_acct_remove_pointwise(
    s0: Seq<(Address, MemoryAccount)>,
    s1: Seq<(Address, MemoryAccount)>,
    i: int,
)
    requires
        wf_accounts(s0),
        0 <= i < s0.len(),
        s1 == s0.remove(i),
    ensures
        wf_accounts(s1),
        forall|x: nat| has_acct(s1, x) == (x != s0[i].0@ && has_acct(s0, x)),
        forall|x: nat|
            x != s0[i].0@ && has_acct(s0, x) ==> acct_at(s1, x) == acct_at(s0, x),
{
    let a = s0[i].0@;
    assert forall|i1: int, j1: int| 0 <= i1 < j1 < s1.len() implies s1[i1].0@ != s1[j1].0@ by {
        let oi = if i1 < i { i1 } else { i1 + 1 };
        let oj = if j1 < i { j1 } else { j1 + 1 };
        assert(s1[i1] == s0[oi] && s1[j1] == s0[oj]);
    }
    assert forall|i1: int|
        0 <= i1 < s1.len() implies slots_unique(#[trigger] s1[i1].1.storage@) by {
        let oi = if i1 < i { i1 } else { i1 + 1 };
        assert(s1[i1] == s0[oi]);
    }
    assert forall|x: nat| has_acct(s1, x) == (x != a && has_acct(s0, x)) by {
        if has_acct(s1, x) {
            let j = acct_index(s1, x);
            let oj = if j < i { j } else { j + 1 };
            assert(s1[j] == s0[oj]);
            assert(oj != i ==> s0[oj].0@ != s0[i].0@ || oj == i);
            lemma_acct_at(s0, x, oj);
        }
        if x != a && has_acct(s0, x) {
            let j = acct_index(s0, x);
            assert(s0[j].0@ == x);
            assert(j != i);
            let nj = if j < i { j } else { j - 1 };
            assert(s1[nj] == s0[j]);
            assert(has_acct(s1, x));
        }
    }
    assert forall|x: nat|
        x != a && has_acct(s0, x) implies acct_at(s1, x) == acct_at(s0, x) by {
        let j = acct_index(s0, x);
        lemma_acct_at(s0, x, j);
        let nj = if j < i { j } else { j - 1 };
        assert(s1[nj] == s0[j]);
        lemma_acct_at(s1, x, nj);
    }
}

/// Replacing the entry of a unique key in place changes only that key.
proof fn lemma_slot_pointwise_update(st0: Seq<(U256, U256)>, st1: Seq<(U256, U256)>, i: int, k: nat)
    requires
        slots_unique(st0),
        0 <= i < st0.len(),
        st1.len() == st0.len(),
        st1[i].0@ == st0[i].0@,
        forall|j: int| 0 <= j < st0.len() && j != i ==> st1[j] == st0[j],
    ensures
        slots_unique(st1),
        slot_val(st1, k) == if k == st0[i].0@ {
            st1[i].1@
        } else {
            slot_val(st0, k)
        },
{
    assert forall|i1: int, j1: int| 0 <= i1 < j1 < st1.len() implies st1[i1].0@ != st1[j1].0@ by {
        assert(st1[i1].0@ == st0[i1].0@);
        assert(st1[j1].0@ == st0[j1].0@);
    }
    if k == st0[i].0@ {
        lemma_slot_at(st1, k, i);
    } else {
        if has_slot(st0, k) {
            let j = slot_index(st0, k);
            assert(j != i);
            lemma_slot_at(st1, k, j);
            lemma_slot_at(st0, k, j);
        } else {
            if has_slot(st1, k) {
                let j = slot_index(st1, k);
                assert(st1[j].0@ == st0[j].0@);
            }
        }
    }
}

} // verus!


verus! {

/// One entry of a changeset: the unit of account mutation handed from a
/// completed execution to the store.
#[derive(Debug)]
pub enum Apply {
    /// Set nonce and balance, optionally replace the code, and apply storage
    /// deltas (after an optional full reset of the storage).
    Modify {
        address: Address,
        nonce: U256,
        balance: U256,
        code: Option<Vec<u8>>,
        storage: Vec<(U256, U256)>,
        reset_storage: bool,
    },
    /// Remove the account outright.
    Delete { address: Address },
}

/// The last value a delta list assigns to a key, if any: later entries for
/// the same key win.
pub open spec fn delta_val(deltas: Seq<(U256, U256)>, k: nat) -> Option<nat>
    decreases deltas.len(),
{
    if deltas.len() == 0 {
        None
    } else if deltas.last().0@ == k {
        Some(deltas.last().1@)
    } else {
        delta_val(deltas.drop_last(), k)
    }
}

// The meaning of a changeset, pointwise per address (and slot key), as a
// fold over the entries in sequence order. `s0` is the account list the
// changeset is applied to and `de` the empty-account pruning flag.

/// Effective code after a changeset.
pub open spec fn applied_code(
    s0: Seq<(Address, MemoryAccount)>,
    chs: Seq<Apply>,
    de: bool,
    a: nat,
) -> Seq<u8>
    decreases chs.len(),
{
    if chs.len() == 0 {
        code_sem(s0, a)
    } else {
        let rest = chs.drop_last();
        match chs.last() {
            Apply::Delete { address } => if address@ == a {
                Seq::empty()
            } else {
                applied_code(s0, rest, de, a)
            },
            Apply::Modify { address, code, .. } => if address@ == a {
                match code {
                    Some(c) => c@,
                    None => applied_code(s0, rest, de, a),
                }
            } else {
                applied_code(s0, rest, de, a)
            },
        }
    }
}

/// Whether a modification leaves the account empty under the pruning rule:
/// zero nonce, zero balance and empty effective code.
pub open spec fn modify_prunes(
    s0: Seq<(Address, MemoryAccount)>,
    rest: Seq<Apply>,
    de: bool,
    a: nat,
    nonce: U256,
    balance: U256,
    code: Option<Vec<u8>>,
) -> bool {
    de && nonce@ == 0 && balance@ == 0 && (match code {
        Some(c) => c@.len() == 0,
        None => applied_code(s0, rest, de, a).len() == 0,
    })
}

/// Account existence after a changeset.
pub open spec fn applied_exists(
    s0: Seq<(Address, MemoryAccount)>,
    chs: Seq<Apply>,
    de: bool,
    a: nat,
) -> bool
    decreases chs.len(),
{
    if chs.len() == 0 {
        exists_sem(s0, a)
    } else {
        let rest = chs.drop_last();
        match chs.last() {
            Apply::Delete { address } => if address@ == a {
                false
            } else {
                applied_exists(s0, rest, de, a)
            },
            Apply::Modify { address, nonce, balance, code, .. } => if address@ == a {
                !modify_prunes(s0, rest, de, a, nonce, balance, code)
            } else {
                applied_exists(s0, rest, de, a)
            },
        }
    }
}

/// Nonce after a changeset.
pub open spec fn applied_nonce(
    s0: Seq<(Address, MemoryAccount)>,
    chs: Seq<Apply>,
    de: bool,
    a: nat,
) -> nat
    decreases chs.len(),
{
    if chs.len() == 0 {
        nonce_sem(s0, a)
    } else {
        let rest = chs.drop_last();
        match chs.last() {
            Apply::Delete { address } => if address@ == a {
                0
            } else {
                applied_nonce(s0, rest, de, a)
            },
            Apply::Modify { address, nonce, .. } => if address@ == a {
                nonce@
            } else {
                applied_nonce(s0, rest, de, a)
            },
        }
    }
}

/// Balance after a changeset.
pub open spec fn applied_balance(
    s0: Seq<(Address, MemoryAccount)>,
    chs: Seq<Apply>,
    de: bool,
    a: nat,
) -> nat
    decreases chs.len(),
{
    if chs.len() == 0 {
        balance_sem(s0, a)
    } else {
        let rest = chs.drop_last();
        match chs.last() {
            Apply::Delete { address } => if address@ == a {
                0
            } else {
                applied_balance(s0, rest, de, a)
            },
            Apply::Modify { address, balance, .. } => if address@ == a {
                balance@
            } else {
                applied_balance(s0, rest, de, a)
            },
        }
    }
}

/// Slot value after a changeset.
pub open spec fn applied_slot(
    s0: Seq<(Address, MemoryAccount)>,
    chs: Seq<Apply>,
    de: bool,
    a: nat,
    k: nat,
) -> nat
    decreases chs.len(),
{
    if chs.len() == 0 {
        slot_sem(s0, a, k)
    } else {
        let rest = chs.drop_last();
        match chs.last() {
            Apply::Delete { address } => if address@ == a {
                0
            } else {
                applied_slot(s0, rest, de, a, k)
            },
            Apply::Modify { address, nonce, balance, code, storage, reset_storage } => if address@
                == a {
                if modify_prunes(s0, rest, de, a, nonce, balance, code) {
                    0
                } else {
                    match delta_val(storage@, k) {
                        Some(v) => v,
                        None => if reset_storage {
                            0
                        } else {
                            applied_slot(s0, rest, de, a, k)
                        },
                    }
                }
            } else {
                applied_slot(s0, rest, de, a, k)
            },
        }
    }
}

/// The in-memory account state store: the root of truth, mutated only
/// through [`MemoryBackend::apply`], never piecemeal.
#[derive(Debug)]
pub struct MemoryBackend {
    pub accounts: Vec<(Address, MemoryAccount)>,
    pub logs: Vec<Log>,
}

impl MemoryBackend {
    pub open spec fn wf(&self) -> bool {
        wf_accounts(self.accounts@)
    }

    /// An empty store.
    pub fn new() -> (r: MemoryBackend)
        ensures
            r.wf(),
            r.accounts@.len() == 0,
            r.logs@.len() == 0,
    {
        MemoryBackend { accounts: Vec::new(), logs: Vec::new() }
    }

    /// Insert or replace one account wholesale; a setup operation, not part
    /// of the execution path.
    pub fn insert_account(&mut self, address: Address, account: MemoryAccount)
        requires
            old(self).wf(),
            slots_unique(account.storage@),
        ensures
            final(self).wf(),
            forall|x: nat|
                has_acct(final(self).accounts@, x) == (x == address@ || has_acct(
                    old(self).accounts@,
                    x,
                )),
            acct_at(final(self).accounts@, address@) == account,
            forall|x: nat|
                x != address@ && has_acct(old(self).accounts@, x) ==> acct_at(
                    final(self).accounts@,
                    x,
                ) == acct_at(old(self).accounts@, x),
            final(self).logs@ == old(self).logs@,
    {
        upsert_acct(&mut self.accounts, address, account);
    }

    pub fn exists_account(&self, address: &Address) -> (r: bool)
        ensures
            r == exists_sem(self.accounts@, address@),
    {
        match find_account(&self.accounts, address) {
            Some(_) => true,
            None => false,
        }
    }

    pub fn balance(&self, address: &Address) -> (r: U256)
        requires
            self.wf(),
        ensures
            r@ == balance_sem(self.accounts@, address@),
    {
        match find_account(&self.accounts, address) {
            Some(i) => {
                proof {
                    lemma_acct_at(self.accounts@, address@, i as int);
                }
                self.accounts[i].1.balance
            },
            None => U256::zero(),
        }
    }

    pub fn nonce(&self, address: &Address) -> (r: U256)
        requires
            self.wf(),
        ensures
            r@ == nonce_sem(self.accounts@, address@),
    {
        match find_account(&self.accounts, address) {
            Some(i) => {
                proof {
                    lemma_acct_at(self.accounts@, address@, i as int);
                }
                self.accounts[i].1.nonce
            },
            None => U256::zero(),
        }
    }

    /// The code of an account, empty when the account is absent.
    pub fn code(&self, address: &Address) -> (r: Vec<u8>)
        requires
            self.wf(),
        ensures
            r@ == code_sem(self.accounts@, address@),
    {
        match find_account(&self.accounts, address) {
            Some(i) => {
                proof {
                    lemma_acct_at(self.accounts@, address@, i as int);
                }
                clone_vec_copy(&self.accounts[i].1.code)
            },
            None => Vec::new(),
        }
    }

    /// The value of one storage slot, zero when absent.
    pub fn storage(&self, address: &Address, key: &U256) -> (r: U256)
        requires
            self.wf(),
        ensures
            r@ == slot_sem(self.accounts@, address@, key@),
    {
        match find_account(&self.accounts, address) {
            Some(i) => {
                proof {
                    lemma_acct_at(self.accounts@, address@, i as int);
                }
                match find_slot(&self.accounts[i].1.storage, key) {
                    Some(j) => {
                        proof {
                            lemma_slot_at(self.accounts@[i as int].1.storage@, key@, j as int);
                        }
                        self.accounts[i].1.storage[j].1
                    },
                    None => U256::zero(),
                }
            },
            None => U256::zero(),
        }
    }

    /// A copy of one account record, the default-empty record when absent.
    pub fn account(&self, address: &Address) -> (r: MemoryAccount)
        requires
            self.wf(),
        ensures
            r.nonce@ == nonce_sem(self.accounts@, address@),
            r.balance@ == balance_sem(self.accounts@, address@),
            r.code@ == code_sem(self.accounts@, address@),
            slots_unique(r.storage@),
            forall|k: nat| slot_val(r.storage@, k) == slot_sem(self.accounts@, address@, k),
    {
        match find_account(&self.accounts, address) {
            Some(i) => {
                proof {
                    lemma_acct_at(self.accounts@, address@, i as int);
                }
                clone_account(&self.accounts[i].1)
            },
            None => empty_account(),
        }
    }

    /// A deep copy of the store: the base snapshot a speculative execution
    /// runs against.
    pub fn snapshot(&self) -> (r: MemoryBackend)
        requires
            self.wf(),
        ensures
            r.wf(),
            r.accounts@.len() == self.accounts@.len(),
            forall|x: nat| has_acct(r.accounts@, x) == has_acct(self.accounts@, x),
            forall|x: nat| nonce_sem(r.accounts@, x) == nonce_sem(self.accounts@, x),
            forall|x: nat| balance_sem(r.accounts@, x) == balance_sem(self.accounts@, x),
            forall|x: nat| code_sem(r.accounts@, x) == code_sem(self.accounts@, x),
            forall|x: nat, k: nat|
                slot_sem(r.accounts@, x, k) == slot_sem(self.accounts@, x, k),
            r.logs@.len() == 0,
    {
        let mut accounts: Vec<(Address, MemoryAccount)> = Vec::new();
        let mut i: usize = 0;
        while i < self.accounts.len()
            invariant
                i <= self.accounts@.len(),
                accounts@.len() == i,
                forall|j: int| 0 <= j < i ==> (#[trigger] accounts@[j]).0 == self.accounts@[j].0,
                forall|j: int| 0 <= j < i ==> acct_eq((#[trigger] accounts@[j]).1, self.accounts@[j].1),
            decreases self.accounts@.len() - i,
        {
            let ghost pre = accounts@;
            let a = self.accounts[i].0;
            let acct = clone_account(&self.accounts[i].1);
            accounts.push((a, acct));
            proof {
                assert forall|j: int|
                    0 <= j < accounts@.len() implies (#[trigger] accounts@[j]).0
                    == self.accounts@[j].0 && acct_eq(accounts@[j].1, self.accounts@[j].1) by {
                    if j < accounts@.len() - 1 {
                        assert(accounts@[j] == pre[j]);
                        assert(acct_eq(pre[j].1, self.accounts@[j].1));
                        assert(pre[j].0 == self.accounts@[j].0);
                    } else {
                        assert(accounts@[j] == (a, acct));
                        assert(accounts@[j].0 == a);
                        assert(a == self.accounts@[i as int].0);
                    }
                }
            }
            i += 1;
        }
        let r = MemoryBackend { accounts, logs: Vec::new() };
        proof {
            lemma_sem_congruence(r.accounts@, self.accounts@);
        }
        r
    }
}

/// Two account lists that agree entry for entry (same addresses, equal
/// record contents) have the same semantics everywhere.
pub proof fn lemma_sem_congruence(
    s1: Seq<(Address, MemoryAccount)>,
    s2: Seq<(Address, MemoryAccount)>,
)
    requires
        wf_accounts(s2),
        s1.len() == s2.len(),
        forall|j: int| 0 <= j < s1.len() ==> (#[trigger] s1[j]).0 == s2[j].0,
        forall|j: int| 0 <= j < s1.len() ==> acct_eq((#[trigger] s1[j]).1, s2[j].1),
    ensures
        wf_accounts(s1),
        forall|x: nat| has_acct(s1, x) == has_acct(s2, x),
        forall|x: nat| nonce_sem(s1, x) == nonce_sem(s2, x),
        forall|x: nat| balance_sem(s1, x) == balance_sem(s2, x),
        forall|x: nat| code_sem(s1, x) == code_sem(s2, x),
        forall|x: nat, k: nat| slot_sem(s1, x, k) == slot_sem(s2, x, k),
{
    assert forall|i1: int, j1: int| 0 <= i1 < j1 < s1.len() implies s1[i1].0@ != s1[j1].0@ by {
        assert(acct_eq(s1[i1].1, s2[i1].1));
        assert(acct_eq(s1[j1].1, s2[j1].1));
        assert(s1[i1].0 == s2[i1].0 && s1[j1].0 == s2[j1].0);
    }
    assert forall|i1: int|
        0 <= i1 < s1.len() implies slots_unique(#[trigger] s1[i1].1.storage@) by {
        assert(acct_eq(s1[i1].1, s2[i1].1));
    }
    assert forall|x: nat| has_acct(s1, x) == has_acct(s2, x) by {
        if has_acct(s1, x) {
            let j = acct_index(s1, x);
            assert(acct_eq(s1[j].1, s2[j].1));
            assert(s2[j].0 == s1[j].0);
            assert(has_acct(s2, x));
        }
        if has_acct(s2, x) {
            let j = acct_index(s2, x);
            assert(acct_eq(s1[j].1, s2[j].1));
            assert(s1[j].0 == s2[j].0);
            assert(has_acct(s1, x));
        }
    }
    assert forall|x: nat|
        has_acct(s2, x) implies acct_eq(acct_at(s1, x), acct_at(s2, x)) by {
        let j = acct_index(s2, x);
        lemma_acct_at(s2, x, j);
        assert(acct_eq(s1[j].1, s2[j].1));
        assert(s1[j].0 == s2[j].0);
        lemma_acct_at(s1, x, j);
    }
    assert forall|x: nat, k: nat| slot_sem(s1, x, k) == slot_sem(s2, x, k) by {
        if has_acct(s2, x) {
            assert(acct_eq(acct_at(s1, x), acct_at(s2, x)));
        }
    }
}

} // verus!

verus! {

/// Effective code of a modification: the replacement when one is given,
/// else the code the account already has.
pub open spec fn mod_code(s: Seq<(Address, MemoryAccount)>, a: nat, code: Option<Vec<u8>>) -> Seq<
    u8,
> {
    match code {
        Some(c) => c@,
        None => code_sem(s, a),
    }
}

/// Whether a modification leaves the account empty under the pruning rule,
/// stated against the pre-state.
pub open spec fn step_prunes(
    s: Seq<(Address, MemoryAccount)>,
    de: bool,
    a: nat,
    nonce: U256,
    balance: U256,
    code: Option<Vec<u8>>,
) -> bool {
    de && nonce@ == 0 && balance@ == 0 && mod_code(s, a, code).len() == 0
}

// One changeset entry, pointwise against the pre-state.

pub open spec fn step_exists(s: Seq<(Address, MemoryAccount)>, c: Apply, de: bool, a: nat) -> bool {
    match c {
        Apply::Delete { address } => address@ != a && exists_sem(s, a),
        Apply::Modify { address, nonce, balance, code, .. } => if address@ == a {
            !step_prunes(s, de, a, nonce, balance, code)
        } else {
            exists_sem(s, a)
        },
    }
}

pub open spec fn step_nonce(s: Seq<(Address, MemoryAccount)>, c: Apply, de: bool, a: nat) -> nat {
    match c {
        Apply::Delete { address } => if address@ == a {
            0
        } else {
            nonce_sem(s, a)
        },
        Apply::Modify { address, nonce, .. } => if address@ == a {
            nonce@
        } else {
            nonce_sem(s, a)
        },
    }
}

pub open spec fn step_balance(s: Seq<(Address, MemoryAccount)>, c: Apply, de: bool, a: nat) -> nat {
    match c {
        Apply::Delete { address } => if address@ == a {
            0
        } else {
            balance_sem(s, a)
        },
        Apply::Modify { address, balance, .. } => if address@ == a {
            balance@
        } else {
            balance_sem(s, a)
        },
    }
}

pub open spec fn step_code(s: Seq<(Address, MemoryAccount)>, c: Apply, de: bool, a: nat) -> Seq<
    u8,
> {
    match c {
        Apply::Delete { address } => if address@ == a {
            Seq::empty()
        } else {
            code_sem(s, a)
        },
        Apply::Modify { address, code, .. } => if address@ == a {
            mod_code(s, a, code)
        } else {
            code_sem(s, a)
        },
    }
}

pub open spec fn step_slot(
    s: Seq<(Address, MemoryAccount)>,
    c: Apply,
    de: bool,
    a: nat,
    k: nat,
) -> nat {
    match c {
        Apply::Delete { address } => if address@ == a {
            0
        } else {
            slot_sem(s, a, k)
        },
        Apply::Modify { address, nonce, balance, code, storage, reset_storage } => if address@
            == a {
            if step_prunes(s, de, a, nonce, balance, code) {
                0
            } else {
                match delta_val(storage@, k) {
                    Some(v) => v,
                    None => if reset_storage {
                        0
                    } else {
                        slot_sem(s, a, k)
                    },
                }
            }
        } else {
            slot_sem(s, a, k)
        },
    }
}

/// Apply one changeset entry in place.
fn apply_change(accounts: &mut Vec<(Address, MemoryAccount)>, change: &Apply, delete_empty: bool)
    requires
        wf_accounts(old(accounts)@),
    ensures
        wf_accounts(final(accounts)@),
        forall|x: nat|
            exists_sem(final(accounts)@, x) == step_exists(old(accounts)@, *change, delete_empty, x),
        forall|x: nat|
            nonce_sem(final(accounts)@, x) == step_nonce(old(accounts)@, *change, delete_empty, x),
        forall|x: nat|
            balance_sem(final(accounts)@, x) == step_balance(
                old(accounts)@,
                *change,
                delete_empty,
                x,
            ),
        forall|x: nat|
            code_sem(final(accounts)@, x) == step_code(old(accounts)@, *change, delete_empty, x),
        forall|x: nat, k: nat|
            slot_sem(final(accounts)@, x, k) == step_slot(
                old(accounts)@,
                *change,
                delete_empty,
                x,
                k,
            ),
{
    let ghost s0 = accounts@;
    match change {
        Apply::Delete { address } => {
            remove_acct(accounts, address);
        },
        Apply::Modify { address, nonce, balance, code, storage, reset_storage } => {
            let mut acct = match find_account(accounts, address) {
                Some(i) => {
                    proof {
                        lemma_acct_at(s0, address@, i as int);
                    }
                    clone_account(&accounts[i].1)
                },
                None => empty_account(),
            };
            proof {
                assert forall|k: nat|
                    slot_val(acct.storage@, k) == slot_sem(s0, address@, k) by {
                    if !has_acct(s0, address@) {
                        if has_slot(acct.storage@, k) {
                            let j = slot_index(acct.storage@, k);
                            assert(0 <= j < acct.storage@.len());
                        }
                    }
                }
            }
            acct.nonce = *nonce;
            acct.balance = *balance;
            let ghost code_before = acct.code@;
            match code {
                Some(c) => {
                    acct.code = clone_vec_copy(c);
                },
                None => {
                },
            }
            if *reset_storage {
                acct.storage = Vec::new();
            }
            proof {
                if !has_acct(s0, address@) {
                    assert(code_sem(s0, address@) =~= Seq::<u8>::empty());
                }
                assert(mod_code(s0, address@, *code) =~= acct.code@);
            }
            let ghost base = acct.storage@;
            proof {
                assert forall|k: nat|
                    slot_val(base, k) == (if *reset_storage {
                        0nat
                    } else {
                        slot_sem(s0, address@, k)
                    }) by {
                    if *reset_storage && has_slot(base, k) {
                        let j = slot_index(base, k);
                        assert(0 <= j < base.len());
                    }
                }
            }
            let mut j: usize = 0;
            while j < storage.len()
                invariant
                    j <= storage@.len(),
                    slots_unique(acct.storage@),
                    acct.nonce == *nonce,
                    acct.balance == *balance,
                    acct.code@ == mod_code(s0, address@, *code),
                    forall|k: nat|
                        slot_val(acct.storage@, k) == (match delta_val(
                            storage@.take(j as int),
                            k,
                        ) {
                            Some(v) => v,
                            None => slot_val(base, k),
                        }),
                decreases storage@.len() - j,
            {
                let ghost stpre = acct.storage@;
                let (dk, dv) = storage[j];
                set_slot(&mut acct.storage, dk, dv);
                proof {
                    let t1 = storage@.take(j + 1 as int);
                    assert(t1.drop_last() =~= storage@.take(j as int));
                    assert(t1.last() == storage@[j as int]);
                    assert forall|k: nat|
                        slot_val(acct.storage@, k) == (match delta_val(t1, k) {
                            Some(v) => v,
                            None => slot_val(base, k),
                        }) by {
                        if k != dk@ {
                            assert(slot_val(acct.storage@, k) == slot_val(stpre, k));
                        }
                    }
                }
                j += 1;
            }
            proof {
                assert(storage@.take(storage@.len() as int) =~= storage@);
            }
            let prune = delete_empty && acct.nonce.is_zero() && acct.balance.is_zero()
                && acct.code.len() == 0;
            let ghost acct_snap = acct;
            if prune {
                remove_acct(accounts, address);
            } else {
                upsert_acct(accounts, *address, acct);
            }
            proof {
                let c = *change;
                let a0 = address@;
                assert(mod_code(s0, a0, *code) == acct_snap.code@);
                assert(step_prunes(s0, delete_empty, a0, *nonce, *balance, *code) == prune);
                if !prune {
                    lemma_address_eq(*address, *address);
                    assert(acct_at(accounts@, a0) == acct_snap);
                }
                assert forall|x: nat, k: nat|
                    slot_sem(accounts@, x, k) == step_slot(s0, c, delete_empty, x, k) by {
                    if x == a0 {
                        if !prune {
                            assert(slot_sem(accounts@, x, k) == slot_val(acct_snap.storage@, k));
                        }
                    } else {
                        if has_acct(s0, x) {
                            assert(acct_at(accounts@, x) == acct_at(s0, x));
                        } else {
                            assert(!has_acct(accounts@, x));
                        }
                    }
                }
                assert forall|x: nat|
                    code_sem(accounts@, x) == step_code(s0, c, delete_empty, x) by {
                    if x != a0 {
                        if has_acct(s0, x) {
                            assert(acct_at(accounts@, x) == acct_at(s0, x));
                        } else {
                            assert(!has_acct(accounts@, x));
                        }
                    } else {
                        if prune {
                            assert(!has_acct(accounts@, x));
                        }
                    }
                }
                assert forall|x: nat|
                    nonce_sem(accounts@, x) == step_nonce(s0, c, delete_empty, x) by {
                    if x != a0 {
                        if has_acct(s0, x) {
                            assert(acct_at(accounts@, x) == acct_at(s0, x));
                        } else {
                            assert(!has_acct(accounts@, x));
                        }
                    } else {
                        if prune {
                            assert(!has_acct(accounts@, x));
                        }
                    }
                }
                assert forall|x: nat|
                    balance_sem(accounts@, x) == step_balance(s0, c, delete_empty, x) by {
                    if x != a0 {
                        if has_acct(s0, x) {
                            assert(acct_at(accounts@, x) == acct_at(s0, x));
                        } else {
                            assert(!has_acct(accounts@, x));
                        }
                    } else {
                        if prune {
                            assert(!has_acct(accounts@, x));
                        }
                    }
                }
            }
        },
    }
}

} // verus!

verus! {

impl MemoryBackend {
    /// Apply a whole changeset and its logs as one atomic update: every
    /// entry in sequence order (later entries for the same address win),
    /// pruning accounts left empty when `delete_empty` is set, and appending
    /// the logs. The only mutator of the store.
    pub fn apply(&mut self, changes: Vec<Apply>, logs: Vec<Log>, delete_empty: bool)
        requires
            old(self).wf(),
        ensures
            final(self).wf(),
            forall|a: nat|
                exists_sem(final(self).accounts@, a) == applied_exists(
                    old(self).accounts@,
                    changes@,
                    delete_empty,
                    a,
                ),
            forall|a: nat|
                nonce_sem(final(self).accounts@, a) == applied_nonce(
                    old(self).accounts@,
                    changes@,
                    delete_empty,
                    a,
                ),
            forall|a: nat|
                balance_sem(final(self).accounts@, a) == applied_balance(
                    old(self).accounts@,
                    changes@,
                    delete_empty,
                    a,
                ),
            forall|a: nat|
                code_sem(final(self).accounts@, a) == applied_code(
                    old(self).accounts@,
                    changes@,
                    delete_empty,
                    a,
                ),
            forall|a: nat, k: nat|
                slot_sem(final(self).accounts@, a, k) == applied_slot(
                    old(self).accounts@,
                    changes@,
                    delete_empty,
                    a,
                    k,
                ),
            final(self).logs@ == old(self).logs@ + logs@,
    {
        let ghost s0 = self.accounts@;
        let de = delete_empty;
        let mut i: usize = 0;
        while i < changes.len()
            invariant
                i <= changes@.len(),
                wf_accounts(self.accounts@),
                forall|a: nat|
                    exists_sem(self.accounts@, a) == applied_exists(
                        s0,
                        changes@.take(i as int),
                        de,
                        a,
                    ),
                forall|a: nat|
                    nonce_sem(self.accounts@, a) == applied_nonce(
                        s0,
                        changes@.take(i as int),
                        de,
                        a,
                    ),
                forall|a: nat|
                    balance_sem(self.accounts@, a) == applied_balance(
                        s0,
                        changes@.take(i as int),
                        de,
                        a,
                    ),
                forall|a: nat|
                    code_sem(self.accounts@, a) == applied_code(s0, changes@.take(i as int), de, a),
                forall|a: nat, k: nat|
                    slot_sem(self.accounts@, a, k) == applied_slot(
                        s0,
                        changes@.take(i as int),
                        de,
                        a,
                        k,
                    ),
                self.logs@ == old(self).logs@,
            decreases changes@.len() - i,
        {
            let ghost pre = self.accounts@;
            apply_change(&mut self.accounts, &changes[i], de);
            proof {
                let t0 = changes@.take(i as int);
                let t1 = changes@.take(i + 1 as int);
                let c = changes@[i as int];
                assert(t1.drop_last() =~= t0);
                assert(t1.last() == c);
                lemma_applied_step(s0, pre, self.accounts@, t0, c, de);
            }
            i += 1;
        }
        proof {
            assert(changes@.take(changes@.len() as int) =~= changes@);
        }
        let mut logs = logs;
        self.logs.append(&mut logs);
    }
}

/// One fold step of the changeset semantics: applying one more entry to a
/// state that meets the fold of a prefix extends the fold by that entry.
proof fn lemma_applied_step(
    s0: Seq<(Address, MemoryAccount)>,
    pre: Seq<(Address, MemoryAccount)>,
    post: Seq<(Address, MemoryAccount)>,
    t0: Seq<Apply>,
    c: Apply,
    de: bool,
)
    requires
        forall|a: nat| exists_sem(pre, a) == applied_exists(s0, t0, de, a),
        forall|a: nat| nonce_sem(pre, a) == applied_nonce(s0, t0, de, a),
        forall|a: nat| balance_sem(pre, a) == applied_balance(s0, t0, de, a),
        forall|a: nat| code_sem(pre, a) == applied_code(s0, t0, de, a),
        forall|a: nat, k: nat| slot_sem(pre, a, k) == applied_slot(s0, t0, de, a, k),
        forall|a: nat| exists_sem(post, a) == step_exists(pre, c, de, a),
        forall|a: nat| nonce_sem(post, a) == step_nonce(pre, c, de, a),
        forall|a: nat| balance_sem(post, a) == step_balance(pre, c, de, a),
        forall|a: nat| code_sem(post, a) == step_code(pre, c, de, a),
        forall|a: nat, k: nat| slot_sem(post, a, k) == step_slot(pre, c, de, a, k),
    ensures
        forall|a: nat| exists_sem(post, a) == applied_exists(s0, t0.push(c), de, a),
        forall|a: nat| nonce_sem(post, a) == applied_nonce(s0, t0.push(c), de, a),
        forall|a: nat| balance_sem(post, a) == applied_balance(s0, t0.push(c), de, a),
        forall|a: nat| code_sem(post, a) == applied_code(s0, t0.push(c), de, a),
        forall|a: nat, k: nat| slot_sem(post, a, k) == applied_slot(s0, t0.push(c), de, a, k),
{
    let t1 = t0.push(c);
    assert(t1.drop_last() =~= t0);
    assert(t1.last() == c);
    assert forall|a: nat|
        code_sem(post, a) == applied_code(s0, t1, de, a) by {
        assert(step_code(pre, c, de, a) == applied_code(s0, t1, de, a));
    }
    assert forall|a: nat|
        exists_sem(post, a) == applied_exists(s0, t1, de, a) by {
        assert(step_exists(pre, c, de, a) == applied_exists(s0, t1, de, a));
    }
    assert forall|a: nat|
        nonce_sem(post, a) == applied_nonce(s0, t1, de, a) by {
        assert(step_nonce(pre, c, de, a) == applied_nonce(s0, t1, de, a));
    }
    assert forall|a: nat|
        balance_sem(post, a) == applied_balance(s0, t1, de, a) by {
        assert(step_balance(pre, c, de, a) == applied_balance(s0, t1, de, a));
    }
    assert forall|a: nat, k: nat|
        slot_sem(post, a, k) == applied_slot(s0, t1, de, a, k) by {
        assert(step_slot(pre, c, de, a, k) == applied_slot(s0, t1, de, a, k));
    }
}

} // verus!

verus! {

/// Membership of an address in a plain list used as a set.
pub open spec fn addr_in(s: Seq<Address>, a: nat) -> bool {
    exists|i: int| 0 <= i < s.len() && s[i]@ == a
}

/// Membership of an (address, slot key) pair in a plain list used as a set.
pub open spec fn pair_in(s: Seq<(Address, U256)>, a: nat, k: nat) -> bool {
    exists|i: int| 0 <= i < s.len() && s[i].0@ == a && s[i].1@ == k
}

pub fn addr_list_contains(s: &Vec<Address>, address: &Address) -> (r: bool)
    ensures
        r == addr_in(s@, address@),
{
    let mut i: usize = 0;
    while i < s.len()
        invariant
            i <= s@.len(),
            forall|j: int| 0 <= j < i ==> s@[j]@ != address@,
        decreases s@.len() - i,
    {
        if s[i].eq_addr(address) {
            return true;
        }
        i += 1;
    }
    false
}

pub fn pair_list_contains(s: &Vec<(Address, U256)>, address: &Address, key: &U256) -> (r: bool)
    ensures
        r == pair_in(s@, address@, key@),
{
    let mut i: usize = 0;
    while i < s.len()
        invariant
            i <= s@.len(),
            forall|j: int| 0 <= j < i ==> !(s@[j].0@ == address@ && s@[j].1@ == key@),
        decreases s@.len() - i,
    {
        if s[i].0.eq_addr(address) && s[i].1.eq_value(key) {
            return true;
        }
        i += 1;
    }
    false
}

/// A deep copy of an account list, entry for entry.
pub fn clone_accounts(v: &Vec<(Address, MemoryAccount)>) -> (r: Vec<(Address, MemoryAccount)>)
    ensures
        r@.len() == v@.len(),
        forall|j: int| 0 <= j < v@.len() ==> (#[trigger] r@[j]).0 == v@[j].0,
        forall|j: int| 0 <= j < v@.len() ==> acct_eq((#[trigger] r@[j]).1, v@[j].1),
{
    let mut r: Vec<(Address, MemoryAccount)> = Vec::new();
    let mut i: usize = 0;
    while i < v.len()
        invariant
            i <= v@.len(),
            r@.len() == i,
            forall|j: int| 0 <= j < i ==> (#[trigger] r@[j]).0 == v@[j].0,
            forall|j: int| 0 <= j < i ==> acct_eq((#[trigger] r@[j]).1, v@[j].1),
        decreases v@.len() - i,
    {
        let ghost pre = r@;
        let a = v[i].0;
        let acct = clone_account(&v[i].1);
        r.push((a, acct));
        proof {
            assert forall|j: int|
                0 <= j < r@.len() implies (#[trigger] r@[j]).0 == v@[j].0 && acct_eq(
                r@[j].1,
                v@[j].1,
            ) by {
                if j < r@.len() - 1 {
                    assert(r@[j] == pre[j]);
                    assert(acct_eq(pre[j].1, v@[j].1));
                    assert(pre[j].0 == v@[j].0);
                } else {
                    assert(r@[j] == (a, acct));
                }
            }
        }
        i += 1;
    }
    r
}

} // verus!
