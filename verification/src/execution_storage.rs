use crate::backend::{
    balance_sem, code_sem, exists_sem, nonce_sem, slot_sem, Address, Apply, Log, MemoryAccount,
    MemoryBackend,
};
use crate::costs::Config;
use crate::executor::StackExecutor;
use crate::uint::U256;
use vstd::prelude::*;

verus! {

/// The whole-transaction gas allowance the demo storage hands its
/// executors.
pub const DEFAULT_TX_GAS_LIMIT: usize = usize::MAX;

/// Decoding failures of hex text.
#[derive(Clone, Copy, Debug, PartialEq, Eq, Structural)]
pub enum HexError {
    /// A byte that is not a hex digit, with the character and its position.
    InvalidHexCharacter { c: char, index: usize },
    /// Hex text must come in digit pairs.
    OddLength,
}

pub open spec fn is_hex_digit(b: u8) -> bool {
    (48 <= b <= 57) || (65 <= b <= 70) || (97 <= b <= 102)
}

pub open spec fn hex_val(b: u8) -> u8 {
    if 48 <= b <= 57 {
        (b - 48) as u8
    } else if 65 <= b <= 70 {
        (b - 55) as u8
    } else {
        (b - 87) as u8
    }
}

/// Whether a byte string is well-formed hex: even length, digits only.
pub open spec fn hex_ok(s: Seq<u8>) -> bool {
    s.len() % 2 == 0 && (forall|i: int| 0 <= i < s.len() ==> is_hex_digit(#[trigger] s[i]))
}

/// The bytes that well-formed hex text denotes, two digits per byte.
pub open spec fn hex_decoded(s: Seq<u8>) -> Seq<u8> {
    Seq::new(s.len() / 2, |i: int| (hex_val(s[2 * i]) * 16 + hex_val(s[2 * i + 1])) as u8)
}

/// Position of the first byte that is not a hex digit.
pub open spec fn first_bad(s: Seq<u8>) -> int
    decreases s.len(),
{
    if s.len() == 0 {
        0
    } else if !is_hex_digit(s[0]) {
        0
    } else {
        1 + first_bad(s.drop_first())
    }
}

/// The error hex decoding reports for even-length input that holds a
/// non-digit: the first offending byte and its position.
pub open spec fn invalid_char_err(s: Seq<u8>) -> HexError {
    HexError::InvalidHexCharacter { c: s[first_bad(s)] as char, index: first_bad(s) as usize }
}

/// Relies on hex::decode: even-length digit-only input decodes two digits
/// per byte; odd length fails, and otherwise the first non-digit byte is
/// named. The outside error is mapped variant for variant onto
/// [`HexError`].
#[verifier::external_body]
fn hex_decode_bytes(data: &Vec<u8>) -> (r: Result<Vec<u8>, HexError>)
    ensures
        data@.len() % 2 != 0 ==> (r is Err && r->Err_0 == HexError::OddLength),
        hex_ok(data@) ==> (r is Ok && r->Ok_0@ == hex_decoded(data@)),
        (data@.len() % 2 == 0 && !hex_ok(data@)) ==> (r is Err && r->Err_0 == invalid_char_err(
            data@,
        )),
{
    match hex::decode(data.as_slice()) {
        Ok(v) => Ok(v),
        Err(e) => Err(
            match e {
                hex::FromHexError::InvalidHexCharacter { c, index } => HexError::InvalidHexCharacter {
                    c,
                    index,
                },
                hex::FromHexError::OddLength => HexError::OddLength,
                hex::FromHexError::InvalidStringLength => HexError::OddLength,
            },
        ),
    }
}

/// Decode hex text given as bytes: exactly the bytes it denotes when well
/// formed, the precise failure otherwise.
pub fn decode_hex(data: &Vec<u8>) -> (r: Result<Vec<u8>, HexError>)
    ensures
        data@.len() % 2 != 0 ==> (r is Err && r->Err_0 == HexError::OddLength),
        hex_ok(data@) ==> (r is Ok && r->Ok_0@ == hex_decoded(data@)),
        (data@.len() % 2 == 0 && !hex_ok(data@)) ==> (r is Err && r->Err_0 == invalid_char_err(
            data@,
        )),
        r is Ok <==> hex_ok(data@),
{
    hex_decode_bytes(data)
}

/// What one completed execution hands back for application to the store.
pub struct ExecutionResult {
    pub logs: Vec<Log>,
    pub effects: Vec<Apply>,
}

/// The state-backend contract: anything offering these operations, with
/// these meanings, can stand behind the executor in place of the in-memory
/// store. The spec functions name what the backend holds; each operation's
/// contract is stated over them.
pub trait ExecutionBackend {
    /// Well-formedness of the backend's state.
    spec fn wf(&self) -> bool;

    /// The accounts this backend holds.
    spec fn view_accounts(&self) -> Seq<(Address, MemoryAccount)>;

    /// The logs this backend has accumulated.
    spec fn view_logs(&self) -> Seq<Log>;

    /// The schedule this backend executes under.
    spec fn view_config(&self) -> Config;

    /// The injected precompile table.
    spec fn view_precompiles(&self) -> Seq<Address>;

    fn config(&self) -> (r: &Config)
        ensures
            *r == self.view_config(),
    ;

    fn precompiles(&self) -> (r: &Vec<Address>)
        ensures
            r@ == self.view_precompiles(),
    ;

    fn code(&self, address: Address) -> (r: Vec<u8>)
        requires
            self.wf(),
        ensures
            r@ == code_sem(self.view_accounts(), address@),
    ;

    /// Apply one completed execution's changeset and logs as one atomic
    /// update: the resulting accounts are exactly the fold of the entries in
    /// sequence order (later entries for the same address win), without
    /// empty-account pruning on this path; the logs are appended; the
    /// schedule never changes.
    fn apply_local_effect(&mut self, effect: Vec<Apply>, log: Vec<Log>)
        requires
            old(self).wf(),
        ensures
            final(self).wf(),
            final(self).view_config() == old(self).view_config(),
            final(self).view_precompiles() == old(self).view_precompiles(),
            forall|a: nat|
                exists_sem(final(self).view_accounts(), a) == crate::backend::applied_exists(
                    old(self).view_accounts(),
                    effect@,
                    false,
                    a,
                ),
            forall|a: nat|
                nonce_sem(final(self).view_accounts(), a) == crate::backend::applied_nonce(
                    old(self).view_accounts(),
                    effect@,
                    false,
                    a,
                ),
            forall|a: nat|
                balance_sem(final(self).view_accounts(), a) == crate::backend::applied_balance(
                    old(self).view_accounts(),
                    effect@,
                    false,
                    a,
                ),
            forall|a: nat|
                code_sem(final(self).view_accounts(), a) == crate::backend::applied_code(
                    old(self).view_accounts(),
                    effect@,
                    false,
                    a,
                ),
            forall|a: nat, k: nat|
                slot_sem(final(self).view_accounts(), a, k) == crate::backend::applied_slot(
                    old(self).view_accounts(),
                    effect@,
                    false,
                    a,
                    k,
                ),
            final(self).view_logs() == old(self).view_logs() + log@,
    ;

    fn backend(&self) -> (r: &MemoryBackend)
        ensures
            r.accounts@ == self.view_accounts(),
            r.logs@ == self.view_logs(),
    ;
}

/// The global execution state: the root-of-truth store, the injected
/// precompile table (the addresses that dispatch to built-in contracts;
/// their bodies are external collaborators), and the selected protocol
/// schedule.
pub struct MemoryStorage {
    pub backend: MemoryBackend,
    pub precompiles: Vec<Address>,
    pub config: Config,
}

impl MemoryStorage {
    pub open spec fn wf_storage(&self) -> bool {
        &&& self.backend.wf()
        &&& self.config.wf()
    }

    /// Wrap a store and a precompile lookup table, running them under the
    /// Istanbul schedule.
    pub fn new(backend: MemoryBackend, precompiles: Vec<Address>) -> (r: MemoryStorage)
        requires
            backend.wf(),
        ensures
            r.backend == backend,
            r.precompiles == precompiles,
            r.config == Config::istanbul_spec(),
            r.wf_storage(),
    {
        let config = Config::istanbul();
        MemoryStorage { backend, precompiles, config }
    }

    /// A fresh executor over a deep snapshot of the store, for one
    /// transaction attempt; `simulation` marks a dry run whose write-set is
    /// never published.
    pub fn executor(&self, simulation: bool) -> (r: StackExecutor)
        requires
            self.wf_storage(),
        ensures
            r.wf(),
            r.fresh(),
            r.simulation == simulation,
            r.gas_limit == DEFAULT_TX_GAS_LIMIT,
            r.config == self.config,
            forall|a: nat|
                crate::backend::has_acct(r.backend.accounts@, a) == crate::backend::has_acct(
                    self.backend.accounts@,
                    a,
                ),
            forall|a: nat|
                nonce_sem(r.backend.accounts@, a) == nonce_sem(self.backend.accounts@, a),
            forall|a: nat|
                balance_sem(r.backend.accounts@, a) == balance_sem(self.backend.accounts@, a),
            forall|a: nat| code_sem(r.backend.accounts@, a) == code_sem(self.backend.accounts@, a),
            forall|a: nat, k: nat|
                slot_sem(r.backend.accounts@, a, k) == slot_sem(self.backend.accounts@, a, k),
            r.precompiles@ == self.precompiles@,
    {
        StackExecutor::new(
            self.backend.snapshot(),
            crate::util::clone_vec_copy(&self.precompiles),
            DEFAULT_TX_GAS_LIMIT,
            self.config,
            simulation,
        )
    }
}

impl ExecutionBackend for MemoryStorage {
    open spec fn wf(&self) -> bool {
        self.wf_storage()
    }

    open spec fn view_accounts(&self) -> Seq<(Address, MemoryAccount)> {
        self.backend.accounts@
    }

    open spec fn view_logs(&self) -> Seq<Log> {
        self.backend.logs@
    }

    open spec fn view_config(&self) -> Config {
        self.config
    }

    open spec fn view_precompiles(&self) -> Seq<Address> {
        self.precompiles@
    }

    fn config(&self) -> (r: &Config) {
        &self.config
    }

    fn precompiles(&self) -> (r: &Vec<Address>) {
        &self.precompiles
    }

    fn code(&self, address: Address) -> (r: Vec<u8>) {
        self.backend.code(&address)
    }

    fn apply_local_effect(&mut self, effect: Vec<Apply>, log: Vec<Log>) {
        self.backend.apply(effect, log, false);
    }

    fn backend(&self) -> (r: &MemoryBackend) {
        &self.backend
    }
}

} // verus!

verus! {

/// The demo contract bytecode the default store installs, as hex text:
/// a tiny program that stores one into slot one and stops.
pub fn contract_bytecode() -> (r: Vec<u8>)
    ensures
        hex_ok(r@),
        hex_decoded(r@) =~= seq![0x60u8, 0x01u8, 0x60u8, 0x01u8, 0x55u8, 0x00u8],
{
    let mut v: Vec<u8> = Vec::new();
    v.push(54);
    v.push(48);
    v.push(48);
    v.push(49);
    v.push(54);
    v.push(48);
    v.push(48);
    v.push(49);
    v.push(53);
    v.push(53);
    v.push(48);
    v.push(48);
    proof {
        assert(hex_decoded(v@) =~= seq![0x60u8, 0x01u8, 0x60u8, 0x01u8, 0x55u8, 0x00u8]);
    }
    v
}

/// The two demo addresses of the default store.
pub fn demo_contract_address() -> (r: Address)
    ensures
        r == (Address { hi: 0x10000000u32, lo: 0u128 }),
{
    Address { hi: 0x10000000, lo: 0 }
}

pub fn demo_caller_address() -> (r: Address)
    ensures
        r == (Address { hi: 0xe14de159u32, lo: 0x2b52481b94b99df4e9653654e14fffb6u128 }),
{
    Address { hi: 0xe14de159, lo: 0x2b52481b94b99df4e9653654e14fffb6 }
}

impl MemoryStorage {
    /// The demo state: a contract account holding the demo bytecode and a
    /// plain caller account, each with nonce one and a ten-million balance.
    pub fn default() -> (r: MemoryStorage)
        ensures
            r.wf_storage(),
            r.config == Config::istanbul_spec(),
            r.precompiles@.len() == 0,
            forall|a: nat|
                exists_sem(r.backend.accounts@, a) == (a == (Address {
                    hi: 0x10000000u32,
                    lo: 0u128,
                })@ || a == (Address {
                    hi: 0xe14de159u32,
                    lo: 0x2b52481b94b99df4e9653654e14fffb6u128,
                })@),
            nonce_sem(r.backend.accounts@, (Address { hi: 0x10000000u32, lo: 0u128 })@) == 1,
            balance_sem(r.backend.accounts@, (Address { hi: 0x10000000u32, lo: 0u128 })@)
                == 10000000,
            code_sem(r.backend.accounts@, (Address { hi: 0x10000000u32, lo: 0u128 })@) == seq![
                0x60u8,
                0x01u8,
                0x60u8,
                0x01u8,
                0x55u8,
                0x00u8,
            ],
            forall|k: nat|
                slot_sem(r.backend.accounts@, (Address { hi: 0x10000000u32, lo: 0u128 })@, k) == 0,
            nonce_sem(
                r.backend.accounts@,
                (Address { hi: 0xe14de159u32, lo: 0x2b52481b94b99df4e9653654e14fffb6u128 })@,
            ) == 1,
            balance_sem(
                r.backend.accounts@,
                (Address { hi: 0xe14de159u32, lo: 0x2b52481b94b99df4e9653654e14fffb6u128 })@,
            ) == 10000000,
            code_sem(
                r.backend.accounts@,
                (Address { hi: 0xe14de159u32, lo: 0x2b52481b94b99df4e9653654e14fffb6u128 })@,
            ) == Seq::<u8>::empty(),
            forall|k: nat|
                slot_sem(
                    r.backend.accounts@,
                    (Address { hi: 0xe14de159u32, lo: 0x2b52481b94b99df4e9653654e14fffb6u128 })@,
                    k,
                ) == 0,
    {
        let mut backend = MemoryBackend::new();
        let hex_text = contract_bytecode();
        let code = match decode_hex(&hex_text) {
            Ok(c) => c,
            Err(_) => Vec::new(),
        };
        let contract = MemoryAccount {
            nonce: U256::one(),
            balance: U256::from_u64(10000000),
            storage: Vec::new(),
            code,
        };
        let caller = MemoryAccount {
            nonce: U256::one(),
            balance: U256::from_u64(10000000),
            storage: Vec::new(),
            code: Vec::new(),
        };
        let contract_addr = demo_contract_address();
        let caller_addr = demo_caller_address();
        backend.insert_account(contract_addr, contract);
        backend.insert_account(caller_addr, caller);
        proof {
            crate::backend::lemma_address_eq(contract_addr, caller_addr);
        }
        MemoryStorage::new(backend, Vec::new())
    }
}

} // verus!
