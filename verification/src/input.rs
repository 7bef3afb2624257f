//! Serializer for the input region of an sBPF program.
//!
//! The region starts with the number of accounts, holds one record per
//! account (a full record, or a one-byte back-reference to an earlier
//! account with the same key), and ends with the instruction data and the
//! program id. All multi-byte integers are little-endian.

use crate::text::{digit_char, digit_to_char, digit_value, push_str};
use vstd::prelude::*;

verus! {

/// Alignment, in bytes, that the buffer is rounded up to after the data of a
/// full account record.
pub const BPF_ALIGN_OF_U128: usize = 16;

/// Number of zero bytes reserved after the data of every full account so that
/// a program may grow the data in place.
pub const MAX_PERMITTED_DATA_INCREASE: usize = 10240;

/// First byte of a full (non-duplicate) account record.
pub const NON_DUP_MARKER: u8 = 0xff;

/// The sequence of `n` zero bytes.
pub open spec fn zeros(n: nat) -> Seq<u8> {
    Seq::new(n, |i: int| 0u8)
}

/// Byte `i` (0 is the least significant) of `v`.
pub open spec fn le_byte(v: u64, i: nat) -> u8 {
    ((v as int / vstd::arithmetic::power::pow(256, i)) % 256) as u8
}

/// The eight bytes of `v`, least significant first.
pub open spec fn le_bytes(v: u64) -> Seq<u8> {
    Seq::new(8, |i: int| le_byte(v, i as nat))
}

/// Number of zero bytes that round a buffer of length `len` up to the next
/// multiple of sixteen.
pub open spec fn align_padding(len: nat) -> nat {
    ((16 - len % 16) % 16) as nat
}

/// Append-only byte buffer.
pub struct Serializer {
    buffer: Vec<u8>,
}

impl View for Serializer {
    type V = Seq<u8>;

    closed spec fn view(&self) -> Seq<u8> {
        self.buffer@
    }
}

impl Serializer {
    /// An empty buffer.
    pub fn new() -> (s: Self)
        ensures
            s@ == Seq::<u8>::empty(),
    {
        Self { buffer: Vec::new() }
    }

    /// Appends one byte.
    pub fn write_u8(&mut self, value: u8)
        ensures
            final(self)@ == old(self)@.push(value),
    {
        self.buffer.push(value);
    }

    /// Appends `value` as eight little-endian bytes.
    #[verifier::rlimit(50)]
    pub fn write_u64(&mut self, value: u64)
        ensures
            final(self)@ == old(self)@ + le_bytes(value),
    {
        let ghost start = self.buffer@;
        let mut rest: u64 = value;
        let mut i: usize = 0;
        proof {
            vstd::arithmetic::power::lemma_pow0(256);
        }
        while i < 8
            invariant
                i <= 8,
                rest as int == value as int / vstd::arithmetic::power::pow(256, i as nat),
                self.buffer@.len() == start.len() + i,
                self.buffer@.subrange(0, start.len() as int) == start,
                forall|k: int|
                    0 <= k < i ==> #[trigger] self.buffer@[start.len() + k] == le_byte(
                        value,
                        k as nat,
                    ),
            decreases 8 - i,
        {
            let byte: u8 = (rest % 256) as u8;
            proof {
                lemma_pow256_step(value as int, i as nat);
            }
            self.buffer.push(byte);
            rest = rest / 256;
            i = i + 1;
        }
        assert forall|k: int| 0 <= k < 8 implies self.buffer@[start.len() + k] == le_bytes(
            value,
        )[k] by {
            assert(self.buffer@[start.len() + k] == le_byte(value, k as nat));
        }
        assert(self.buffer@ =~= start + le_bytes(value));
    }

    /// Appends `data` unchanged.
    pub fn write_all(&mut self, data: &[u8])
        ensures
            final(self)@ == old(self)@ + data@,
    {
        let ghost start = self.buffer@;
        self.buffer.extend_from_slice(data);
        assert(self.buffer@ =~= start + data@);
    }

    /// Appends `count` zero bytes.
    pub fn write_zeros(&mut self, count: usize)
        ensures
            final(self)@ == old(self)@ + zeros(count as nat),
    {
        let ghost start = self.buffer@;
        let mut i: usize = 0;
        while i < count
            invariant
                i <= count,
                self.buffer@ == start + zeros(i as nat),
            decreases count - i,
        {
            self.buffer.push(0u8);
            i = i + 1;
            assert(self.buffer@ =~= start + zeros(i as nat));
        }
    }

    /// Appends the data of an account, the realloc headroom, and the zero
    /// bytes that bring the whole buffer to a multiple of sixteen.
    #[verifier::rlimit(50)]
    pub fn write_account_data(&mut self, data: &[u8])
        ensures
            final(self)@ == old(self)@ + account_data_image(old(self)@.len(), data@),
            final(self)@.len() % 16 == 0,
    {
        let ghost start = self.buffer@;
        self.write_all(data);
        self.write_zeros(MAX_PERMITTED_DATA_INCREASE);
        let ghost padded = self.buffer@;
        let current_len: usize = self.buffer.len();
        let alignment_needed: usize = (BPF_ALIGN_OF_U128 - (current_len % BPF_ALIGN_OF_U128))
            % BPF_ALIGN_OF_U128;
        proof {
            assert(padded == start + data@ + zeros(10240));
            assert(current_len == start.len() + data@.len() + 10240);
            assert(alignment_needed as nat == align_padding(current_len as nat));
            assert((current_len + alignment_needed) % 16 == 0);
        }
        self.write_zeros(alignment_needed);
        proof {
            let padding = zeros(alignment_needed as nat);
            assert(self.buffer@ == padded + padding);
            assert(account_data_image(start.len(), data@) == data@ + zeros(10240) + padding);
            assert(start + data@ + zeros(10240) + padding =~= start + (data@ + zeros(10240)
                + padding));
        }
    }

    /// The bytes written so far.
    pub fn finish(self) -> (bytes: Vec<u8>)
        ensures
            bytes@ == self@,
    {
        self.buffer
    }
}

/// What `write_account_data` appends to a buffer that already holds `at`
/// bytes: the data, 10 240 zero bytes, and the alignment padding.
pub open spec fn account_data_image(at: nat, data: Seq<u8>) -> Seq<u8> {
    data + zeros(10240) + zeros(align_padding(at + data.len() + 10240))
}

proof fn lemma_pow256_step(v: int, i: nat)
    requires
        0 <= v,
    ensures
        vstd::arithmetic::power::pow(256, i) > 0,
        (v / vstd::arithmetic::power::pow(256, i)) / 256 == v / vstd::arithmetic::power::pow(
            256,
            i + 1,
        ),
{
    vstd::arithmetic::power::lemma_pow_positive(256, i);
    vstd::arithmetic::power::lemma_pow1(256);
    vstd::arithmetic::power::lemma_pow_adds(256, i, 1);
    let p = vstd::arithmetic::power::pow(256, i);
    vstd::arithmetic::div_mod::lemma_div_denominator(v, p, 256);
}

/// A 32-byte public key.
#[derive(Debug, Clone, Copy, PartialEq, Eq, Hash)]
pub struct Pubkey {
    pub bytes: [u8; 32],
}

impl View for Pubkey {
    type V = Seq<u8>;

    open spec fn view(&self) -> Seq<u8> {
        self.bytes@
    }
}

impl Pubkey {
    /// Whether two keys hold the same bytes.
    pub fn same(&self, other: &Pubkey) -> (eq: bool)
        ensures
            eq == (self@ == other@),
    {
        let mut i: usize = 0;
        while i < 32
            invariant
                i <= 32,
                self@.len() == 32,
                other@.len() == 32,
                self@.subrange(0, i as int) == other@.subrange(0, i as int),
            decreases 32 - i,
        {
            if self.bytes[i] != other.bytes[i] {
                assert(self@[i as int] != other@[i as int]);
                return false;
            }
            i = i + 1;
            assert(self@.subrange(0, i as int) =~= self@.subrange(0, i - 1).push(self@[i - 1]));
            assert(other@.subrange(0, i as int) =~= other@.subrange(0, i - 1).push(other@[i - 1]));
        }
        assert(self@ =~= self@.subrange(0, 32));
        assert(other@ =~= other@.subrange(0, 32));
        true
    }
}

/// An account as the program sees it.
#[derive(Debug, Clone, PartialEq, Eq)]
pub struct Account {
    pub key: Pubkey,
    pub owner: Pubkey,
    pub lamports: u64,
    pub data: Vec<u8>,
    pub is_signer: bool,
    pub is_writable: bool,
    pub executable: bool,
    pub rent_epoch: u64,
}

/// An account as a plain value.
pub struct AccountView {
    pub key: Seq<u8>,
    pub owner: Seq<u8>,
    pub lamports: u64,
    pub data: Seq<u8>,
    pub is_signer: bool,
    pub is_writable: bool,
    pub executable: bool,
    pub rent_epoch: u64,
}

impl View for Account {
    type V = AccountView;

    open spec fn view(&self) -> AccountView {
        AccountView {
            key: self.key@,
            owner: self.owner@,
            lamports: self.lamports,
            data: self.data@,
            is_signer: self.is_signer,
            is_writable: self.is_writable,
            executable: self.executable,
            rent_epoch: self.rent_epoch,
        }
    }
}

impl Account {
    /// An account with these fields.
    pub fn new(
        key: Pubkey,
        owner: Pubkey,
        lamports: u64,
        data: Vec<u8>,
        is_signer: bool,
        is_writable: bool,
        executable: bool,
        rent_epoch: u64,
    ) -> (a: Self)
        ensures
            a@ == (AccountView {
                key: key@,
                owner: owner@,
                lamports,
                data: data@,
                is_signer,
                is_writable,
                executable,
                rent_epoch,
            }),
    {
        Self { key, owner, lamports, data, is_signer, is_writable, executable, rent_epoch }
    }
}

/// An entry of the account list: a full account with its position in the
/// list, or a reference to the position of the first account with the same
/// key.
#[derive(Debug, Clone, PartialEq, Eq)]
pub enum SerializeAccount {
    Account(usize, Account),
    Duplicate(u8),
}

/// An entry of the account list as a plain value.
pub enum SerializeAccountView {
    Account(usize, AccountView),
    Duplicate(u8),
}

impl View for SerializeAccount {
    type V = SerializeAccountView;

    open spec fn view(&self) -> SerializeAccountView {
        match self {
            SerializeAccount::Account(i, a) => SerializeAccountView::Account(*i, a@),
            SerializeAccount::Duplicate(p) => SerializeAccountView::Duplicate(*p),
        }
    }
}

/// The views of a list of entries.
pub open spec fn entry_views(entries: Seq<SerializeAccount>) -> Seq<SerializeAccountView> {
    Seq::new(entries.len(), |i: int| entries[i]@)
}

/// What went wrong while the input of a program was prepared.
#[derive(Debug, Clone, PartialEq, Eq)]
pub enum DebuggerInputError {
    /// The file could not be written; the text says why.
    FileWriteError(String),
    /// The input could not be serialized.
    SerializationError(String),
    /// No account was provided for this key.
    MissingAccount(Pubkey),
}

/// A flag as a byte.
pub open spec fn flag(b: bool) -> u8 {
    if b {
        1
    } else {
        0
    }
}

/// The bytes of a full account record before its data: the marker, the
/// three flags, four zero bytes, key, owner, lamports and the length of the
/// data. With keys of 32 bytes these are 88 bytes.
pub open spec fn account_head(a: AccountView) -> Seq<u8> {
    seq![NON_DUP_MARKER, flag(a.is_signer), flag(a.is_writable), flag(a.executable)] + zeros(4)
        + a.key + a.owner + le_bytes(a.lamports) + le_bytes(a.data.len() as u64)
}

/// The record of an entry that is written to a buffer which already holds
/// `at` bytes. A reference is its position and seven zero bytes. A full
/// account is its head, its data with headroom and padding, and its rent
/// epoch.
pub open spec fn entry_image(at: nat, e: SerializeAccountView) -> Seq<u8> {
    match e {
        SerializeAccountView::Duplicate(position) => seq![position] + zeros(7),
        SerializeAccountView::Account(_, a) => account_head(a) + account_data_image(
            at + account_head(a).len(),
            a.data,
        ) + le_bytes(a.rent_epoch),
    }
}

/// The records of `entries`, in order, as they follow the eight bytes of
/// the account count.
pub open spec fn entries_image(entries: Seq<SerializeAccountView>) -> Seq<u8>
    decreases entries.len(),
{
    if entries.len() == 0 {
        Seq::empty()
    } else {
        let before = entries_image(entries.drop_last());
        before + entry_image(8 + before.len(), entries.last())
    }
}

/// The input region of a program: the number of accounts, their records,
/// the length of the instruction data, the instruction data, and the
/// program id.
pub open spec fn serialized(
    entries: Seq<SerializeAccountView>,
    instruction_data: Seq<u8>,
    program_id: Seq<u8>,
) -> Seq<u8> {
    le_bytes(entries.len() as u64) + entries_image(entries) + le_bytes(
        instruction_data.len() as u64,
    ) + instruction_data + program_id
}

/// The size of the record of an entry written at `at`: eight bytes for a
/// reference; for a full account the head of 88 bytes, the data, the
/// headroom of 10 240 bytes, the padding, and eight bytes of rent epoch.
pub open spec fn entry_size(at: nat, e: SerializeAccountView) -> nat {
    match e {
        SerializeAccountView::Duplicate(_) => 8,
        SerializeAccountView::Account(_, a) => 8 + 32 + 32 + 8 + 8 + a.data.len() + 10240
            + align_padding(at + 88 + a.data.len() + 10240) + 8,
    }
}

/// The sum of the sizes of the records of `entries`.
pub open spec fn entries_size(entries: Seq<SerializeAccountView>) -> nat
    decreases entries.len(),
{
    if entries.len() == 0 {
        0
    } else {
        let before = entries_size(entries.drop_last());
        before + entry_size(8 + before, entries.last())
    }
}

/// Whether every key of `entries` has 32 bytes.
pub open spec fn keys_have_32_bytes(entries: Seq<SerializeAccountView>) -> bool {
    forall|i: int|
        0 <= i < entries.len() ==> (#[trigger] entries[i] matches SerializeAccountView::Account(
            _,
            a,
        ) ==> a.key.len() == 32 && a.owner.len() == 32)
}

/// The records of a list of entries have the size that the sizes of the
/// entries add up to.
#[verifier::rlimit(50)]
pub proof fn lemma_entries_image_len(entries: Seq<SerializeAccountView>)
    requires
        keys_have_32_bytes(entries),
    ensures
        entries_image(entries).len() == entries_size(entries),
    decreases entries.len(),
{
    if entries.len() > 0 {
        let rest = entries.drop_last();
        assert forall|i: int| 0 <= i < rest.len() implies (#[trigger] rest[i]
            matches SerializeAccountView::Account(_, a) ==> a.key.len() == 32 && a.owner.len()
            == 32) by {
            assert(rest[i] == entries[i]);
        }
        lemma_entries_image_len(rest);
        let last = entries.last();
        assert(last == entries[entries.len() - 1]);
    }
}

/// The length of the input region is 8, the sizes of the entries, 8, the
/// length of the instruction data, and 32.
pub proof fn lemma_serialized_len(
    entries: Seq<SerializeAccountView>,
    instruction_data: Seq<u8>,
    program_id: Seq<u8>,
)
    requires
        keys_have_32_bytes(entries),
        program_id.len() == 32,
    ensures
        serialized(entries, instruction_data, program_id).len() == 8 + entries_size(entries) + 8
            + instruction_data.len() + 32,
{
    lemma_entries_image_len(entries);
}

/// After the data, headroom and padding of a full account, and so before
/// its rent epoch, the length of the buffer is a multiple of sixteen.
#[verifier::rlimit(50)]
pub proof fn lemma_account_aligned(entries: Seq<SerializeAccountView>, i: int)
    requires
        keys_have_32_bytes(entries),
        0 <= i < entries.len(),
        entries[i] is Account,
    ensures
        (8 + entries_image(entries.subrange(0, i + 1)).len() - 8) % 16 == 0,
{
    let upto = entries.subrange(0, i + 1);
    assert(upto.drop_last() =~= entries.subrange(0, i));
    assert(upto.last() == entries[i]);
    let before = entries_image(upto.drop_last());
    let a = entries[i]->Account_1;
    let at = 8 + before.len();
    let n = (at + 88 + a.data.len() + 10240) as nat;
    assert((n + align_padding(n)) % 16 == 0);
}

/// A reference to an earlier account is its position and seven zero bytes.
pub proof fn lemma_duplicate_image(at: nat, position: u8)
    ensures
        entry_image(at, SerializeAccountView::Duplicate(position)) == seq![
            position,
            0u8,
            0u8,
            0u8,
            0u8,
            0u8,
            0u8,
            0u8,
        ],
{
    assert(entry_image(at, SerializeAccountView::Duplicate(position)) =~= seq![
        position,
        0u8,
        0u8,
        0u8,
        0u8,
        0u8,
        0u8,
        0u8,
    ]);
}

/// A flag as a byte.
fn flag_byte(b: bool) -> (v: u8)
    ensures
        v == flag(b),
{
    if b {
        1
    } else {
        0
    }
}

/// Appends the head of a full account record.
#[verifier::rlimit(50)]
fn write_account_head(s: &mut Serializer, account: &Account)
    ensures
        final(s)@ == old(s)@ + account_head(account@),
{
    let ghost start = s@;
    s.write_u8(NON_DUP_MARKER);
    s.write_u8(flag_byte(account.is_signer));
    s.write_u8(flag_byte(account.is_writable));
    s.write_u8(flag_byte(account.executable));
    assert(s@ =~= start + seq![
        NON_DUP_MARKER,
        flag(account.is_signer),
        flag(account.is_writable),
        flag(account.executable),
    ]);
    s.write_zeros(4);
    s.write_all(account.key.bytes.as_slice());
    s.write_all(account.owner.bytes.as_slice());
    s.write_u64(account.lamports);
    s.write_u64(account.data.len() as u64);
    assert(s@ =~= start + account_head(account@));
}

/// Appends the record of an entry.
#[verifier::rlimit(50)]
fn write_entry(s: &mut Serializer, entry: &SerializeAccount)
    ensures
        final(s)@ == old(s)@ + entry_image(old(s)@.len(), entry@),
{
    let ghost start = s@;
    match entry {
        SerializeAccount::Account(_, account) => {
            write_account_head(s, account);
            s.write_account_data(account.data.as_slice());
            s.write_u64(account.rent_epoch);
            assert(s@ =~= start + (account_head(account@) + account_data_image(
                start.len() + account_head(account@).len(),
                account@.data,
            ) + le_bytes(account.rent_epoch)));
        },
        SerializeAccount::Duplicate(position) => {
            s.write_u8(*position);
            s.write_zeros(7);
            assert(s@ =~= start + (seq![*position] + zeros(7)));
        },
    }
}

/// Lays out the input region of a program: the number of accounts, one
/// record for each entry in the order given, the length of the instruction
/// data, the instruction data, and the program id.
#[verifier::rlimit(50)]
pub fn serialize_parameters(
    accounts: Vec<SerializeAccount>,
    instruction_data: &[u8],
    program_id: &Pubkey,
) -> (r: Result<Vec<u8>, DebuggerInputError>)
    ensures
        r matches Ok(bytes) && bytes@ == serialized(
            entry_views(accounts@),
            instruction_data@,
            program_id@,
        ),
{
    let ghost entries = entry_views(accounts@);
    let mut s: Serializer = Serializer::new();
    s.write_u64(accounts.len() as u64);
    let ghost header = s@;
    let mut i: usize = 0;
    while i < accounts.len()
        invariant
            i <= accounts.len(),
            entries == entry_views(accounts@),
            header.len() == 8,
            s@ == header + entries_image(entries.subrange(0, i as int)),
        decreases accounts.len() - i,
    {
        let ghost before = entries_image(entries.subrange(0, i as int));
        let ghost start = s@;
        proof {
            assert(entries.subrange(0, i + 1).drop_last() =~= entries.subrange(0, i as int));
            assert(entries.subrange(0, i + 1).last() == accounts@[i as int]@);
        }
        assert(start.len() == 8 + before.len());
        write_entry(&mut s, &accounts[i]);
        i = i + 1;
        assert(s@ =~= header + entries_image(entries.subrange(0, i as int)));
    }
    assert(entries.subrange(0, i as int) =~= entries);
    s.write_u64(instruction_data.len() as u64);
    s.write_all(instruction_data);
    s.write_all(program_id.bytes.as_slice());
    let bytes: Vec<u8> = s.finish();
    assert(bytes@ =~= serialized(entries, instruction_data@, program_id@));
    Ok(bytes)
}

/// An account that an instruction names: its key and how it is used.
#[derive(Debug, Clone, Copy, PartialEq, Eq)]
pub struct AccountMeta {
    pub pubkey: Pubkey,
    pub is_signer: bool,
    pub is_writable: bool,
}

/// An instruction for a program.
#[derive(Debug, Clone, PartialEq, Eq)]
pub struct Instruction {
    pub program_id: Pubkey,
    pub accounts: Vec<AccountMeta>,
    pub data: Vec<u8>,
}

/// The state of an account that is provided for an instruction.
#[derive(Debug, Clone, PartialEq, Eq)]
pub struct SolAccount {
    pub lamports: u64,
    pub data: Vec<u8>,
    pub owner: Pubkey,
    pub executable: bool,
    pub rent_epoch: u64,
}

/// The least position below `limit` whose account has `key`, or `limit` if
/// there is none.
pub open spec fn first_match(metas: Seq<AccountMeta>, key: Seq<u8>, limit: int) -> int
    decreases limit,
{
    if limit <= 0 {
        0
    } else {
        let j = first_match(metas, key, limit - 1);
        if j < limit - 1 {
            j
        } else if metas[limit - 1].pubkey@ == key {
            limit - 1
        } else {
            limit
        }
    }
}

/// The account provided for `key`: the last of `accounts` with that key.
pub open spec fn provided_for(accounts: Seq<(Pubkey, SolAccount)>, key: Seq<u8>) -> Option<int>
    decreases accounts.len(),
{
    if accounts.len() == 0 {
        None
    } else if accounts.last().0@ == key {
        Some(accounts.len() - 1)
    } else {
        provided_for(accounts.drop_last(), key)
    }
}

/// The entry for account `i` of an instruction: a reference to the first
/// account with the same key if there is an earlier one (the position is
/// narrowed to a byte), else the full account made of the flags of the
/// instruction and the state provided for the key; `None` if nothing is
/// provided.
pub open spec fn prepared_entry(
    metas: Seq<AccountMeta>,
    accounts: Seq<(Pubkey, SolAccount)>,
    i: int,
) -> Option<SerializeAccountView> {
    let first = first_match(metas, metas[i].pubkey@, i);
    if first < i {
        Some(SerializeAccountView::Duplicate((first % 256) as u8))
    } else {
        match provided_for(accounts, metas[i].pubkey@) {
            Some(k) => Some(
                SerializeAccountView::Account(
                    i as usize,
                    AccountView {
                        key: metas[i].pubkey@,
                        owner: accounts[k].1.owner@,
                        lamports: accounts[k].1.lamports,
                        data: accounts[k].1.data@,
                        is_signer: metas[i].is_signer,
                        is_writable: metas[i].is_writable,
                        executable: accounts[k].1.executable,
                        rent_epoch: accounts[k].1.rent_epoch,
                    },
                ),
            ),
            None => None,
        }
    }
}

/// Whether every account of the instruction before `limit` has an entry.
pub open spec fn all_prepared(
    metas: Seq<AccountMeta>,
    accounts: Seq<(Pubkey, SolAccount)>,
    limit: int,
) -> bool {
    forall|i: int| 0 <= i < limit ==> (#[trigger] prepared_entry(metas, accounts, i)) is Some
}

proof fn lemma_first_match(metas: Seq<AccountMeta>, key: Seq<u8>, limit: int)
    requires
        0 <= limit <= metas.len(),
    ensures
        0 <= first_match(metas, key, limit) <= limit,
        first_match(metas, key, limit) < limit ==> metas[first_match(metas, key, limit)].pubkey@
            == key,
        forall|j: int|
            0 <= j < first_match(metas, key, limit) ==> (#[trigger] metas[j]).pubkey@ != key,
    decreases limit,
{
    if limit > 0 {
        lemma_first_match(metas, key, limit - 1);
    }
}

/// The first account with a key is the least position that holds the key.
pub proof fn lemma_first_match_is_least(metas: Seq<AccountMeta>, i: int, j: int)
    requires
        0 <= j < i < metas.len(),
        metas[j].pubkey@ == metas[i].pubkey@,
    ensures
        first_match(metas, metas[i].pubkey@, i) <= j,
        metas[first_match(metas, metas[i].pubkey@, i)].pubkey@ == metas[i].pubkey@,
{
    lemma_first_match(metas, metas[i].pubkey@, i);
}

/// Where the key of account `i` stands at an earlier position, the least
/// such position being `j`, the entry of account `i` is a reference to `j`
/// and its record is the byte `j` and seven zero bytes.
pub proof fn lemma_duplicate_aliasing(
    metas: Seq<AccountMeta>,
    accounts: Seq<(Pubkey, SolAccount)>,
    i: int,
    j: int,
    at: nat,
)
    requires
        0 <= j < i < metas.len(),
        j < 256,
        metas[j].pubkey@ == metas[i].pubkey@,
        forall|k: int| 0 <= k < j ==> (#[trigger] metas[k]).pubkey@ != metas[i].pubkey@,
    ensures
        prepared_entry(metas, accounts, i) == Some(SerializeAccountView::Duplicate(j as u8)),
        entry_image(at, prepared_entry(metas, accounts, i)->0) == seq![
            j as u8,
            0u8,
            0u8,
            0u8,
            0u8,
            0u8,
            0u8,
            0u8,
        ],
{
    lemma_first_match(metas, metas[i].pubkey@, i);
    let first = first_match(metas, metas[i].pubkey@, i);
    assert(first == j);
    lemma_duplicate_image(at, j as u8);
}

/// The position of the first account before `limit` with the key of `key`.
fn find_first(metas: &[AccountMeta], key: &Pubkey, limit: usize) -> (j: usize)
    requires
        limit <= metas.len(),
    ensures
        j == first_match(metas@, key@, limit as int),
        j <= limit,
{
    let mut k: usize = 0;
    while k < limit
        invariant
            k <= limit <= metas.len(),
            first_match(metas@, key@, k as int) == k,
        decreases limit - k,
    {
        if metas[k].pubkey.same(key) {
            proof {
                lemma_first_found(metas@, key@, k as int, limit as int);
            }
            return k;
        }
        k = k + 1;
    }
    k
}

proof fn lemma_first_found(metas: Seq<AccountMeta>, key: Seq<u8>, k: int, limit: int)
    requires
        0 <= k < limit <= metas.len(),
        first_match(metas, key, k) == k,
        metas[k].pubkey@ == key,
    ensures
        first_match(metas, key, limit) == k,
    decreases limit,
{
    if limit > k + 1 {
        lemma_first_found(metas, key, k, limit - 1);
    }
}

/// The position of the account provided for `key`.
fn find_provided(accounts: &[(Pubkey, SolAccount)], key: &Pubkey) -> (r: Option<usize>)
    ensures
        match r {
            Some(k) => k < accounts@.len() && provided_for(accounts@, key@) == Some(k as int),
            None => provided_for(accounts@, key@) is None,
        },
{
    let mut i: usize = accounts.len();
    assert(accounts@.subrange(0, i as int) =~= accounts@);
    while i > 0
        invariant
            i <= accounts.len(),
            provided_for(accounts@, key@) == provided_for(accounts@.subrange(0, i as int), key@),
        decreases i,
    {
        i = i - 1;
        proof {
            let upto = accounts@.subrange(0, i + 1);
            assert(upto.drop_last() =~= accounts@.subrange(0, i as int));
            assert(upto.last() == accounts@[i as int]);
        }
        if accounts[i].0.same(key) {
            return Some(i);
        }
    }
    None
}

/// A copy of `data`.
fn copy_bytes(data: &[u8]) -> (v: Vec<u8>)
    ensures
        v@ == data@,
{
    let mut v: Vec<u8> = Vec::new();
    v.extend_from_slice(data);
    assert(v@ =~= data@);
    v
}

/// The entries for the accounts of an instruction, in the order in which
/// the instruction names them. An account whose key stands earlier in the
/// list becomes a reference to the first position of the key; every other
/// account takes its state from the last of `accounts` with its key. The
/// first account for which nothing is provided makes the call fail with its
/// key.
#[verifier::rlimit(50)]
pub fn prepare_accounts(metas: &[AccountMeta], accounts: &[(Pubkey, SolAccount)]) -> (r: Result<
    Vec<SerializeAccount>,
    DebuggerInputError,
>)
    ensures
        match r {
            Ok(entries) => {
                &&& all_prepared(metas@, accounts@, metas@.len() as int)
                &&& entries@.len() == metas@.len()
                &&& forall|i: int|
                    0 <= i < metas@.len() ==> Some((#[trigger] entries@[i])@) == prepared_entry(
                        metas@,
                        accounts@,
                        i,
                    )
            },
            Err(DebuggerInputError::MissingAccount(key)) => exists|i: int|
                0 <= i < metas@.len() && all_prepared(metas@, accounts@, i) && (
                #[trigger] prepared_entry(metas@, accounts@, i)) is None && key@
                    == metas@[i].pubkey@,
            Err(_) => false,
        },
{
    let mut entries: Vec<SerializeAccount> = Vec::new();
    let mut i: usize = 0;
    while i < metas.len()
        invariant
            i <= metas.len(),
            entries@.len() == i,
            all_prepared(metas@, accounts@, i as int),
            forall|k: int|
                0 <= k < i ==> Some((#[trigger] entries@[k])@) == prepared_entry(
                    metas@,
                    accounts@,
                    k,
                ),
        decreases metas.len() - i,
    {
        let meta: &AccountMeta = &metas[i];
        let first: usize = find_first(metas, &meta.pubkey, i);
        if first < i {
            entries.push(SerializeAccount::Duplicate((first % 256) as u8));
        } else {
            match find_provided(accounts, &meta.pubkey) {
                Some(k) => {
                    let provided: &SolAccount = &accounts[k].1;
                    let account: Account = Account::new(
                        meta.pubkey,
                        provided.owner,
                        provided.lamports,
                        copy_bytes(provided.data.as_slice()),
                        meta.is_signer,
                        meta.is_writable,
                        provided.executable,
                        provided.rent_epoch,
                    );
                    entries.push(SerializeAccount::Account(i, account));
                },
                None => {
                    assert(prepared_entry(metas@, accounts@, i as int) is None);
                    return Err(DebuggerInputError::MissingAccount(meta.pubkey));
                },
            }
        }
        i = i + 1;
    }
    Ok(entries)
}

/// The two lowercase hexadecimal digits of every byte, in order.
pub open spec fn hex_text(bytes: Seq<u8>) -> Seq<char>
    decreases bytes.len(),
{
    if bytes.len() == 0 {
        Seq::empty()
    } else {
        hex_text(bytes.drop_last()) + seq![
            digit_char((bytes.last() / 16) as nat),
            digit_char((bytes.last() % 16) as nat),
        ]
    }
}

/// The bytes that a text of hexadecimal digit pairs denotes, or `None` if
/// the text has an odd length or holds anything but hexadecimal digits.
pub open spec fn hex_bytes(text: Seq<char>) -> Option<Seq<u8>>
    decreases text.len(),
{
    if text.len() == 0 {
        Some(Seq::empty())
    } else if text.len() < 2 {
        None
    } else {
        let high = digit_value(text[text.len() - 2], 16);
        let low = digit_value(text[text.len() - 1], 16);
        match (hex_bytes(text.subrange(0, text.len() - 2)), high, low) {
            (Some(bytes), Some(h), Some(l)) => Some(bytes.push((h * 16 + l) as u8)),
            _ => None,
        }
    }
}

/// The contents of the file for the bytes of an input region: their
/// hexadecimal digits and a line feed.
pub open spec fn hex_file_contents(bytes: Seq<u8>) -> Seq<char> {
    hex_text(bytes) + seq!['\n']
}

/// The digit of a value below sixteen has that value.
pub proof fn lemma_digit_round_trip(d: nat)
    requires
        d < 16,
    ensures
        digit_value(digit_char(d), 16) == Some(d),
        digit_char(d) != '\n',
{
}

/// The text of a sequence of bytes has two characters for every byte, and
/// reading the pairs of digits gives back the bytes.
#[verifier::rlimit(50)]
pub proof fn lemma_hex_round_trip(bytes: Seq<u8>)
    ensures
        hex_text(bytes).len() == 2 * bytes.len(),
        hex_bytes(hex_text(bytes)) == Some(bytes),
        forall|i: int| 0 <= i < hex_text(bytes).len() ==> hex_text(bytes)[i] != '\n',
    decreases bytes.len(),
{
    if bytes.len() > 0 {
        let rest = bytes.drop_last();
        let b = bytes.last();
        lemma_hex_round_trip(rest);
        lemma_digit_round_trip((b / 16) as nat);
        lemma_digit_round_trip((b % 16) as nat);
        let text = hex_text(bytes);
        assert(text.subrange(0, text.len() - 2) =~= hex_text(rest));
        assert(text[text.len() - 2] == digit_char((b / 16) as nat));
        assert(text[text.len() - 1] == digit_char((b % 16) as nat));
        assert(rest.push(b) =~= bytes);
    }
}

/// The contents of the file end with one line feed, and what stands before
/// it reads back as the bytes.
pub proof fn lemma_hex_file_round_trip(bytes: Seq<u8>)
    ensures
        hex_file_contents(bytes).last() == '\n',
        hex_file_contents(bytes).drop_last() == hex_text(bytes),
        hex_bytes(hex_file_contents(bytes).drop_last()) == Some(bytes),
        forall|i: int|
            0 <= i < hex_file_contents(bytes).len() - 1 ==> hex_file_contents(bytes)[i] != '\n',
{
    lemma_hex_round_trip(bytes);
    assert(hex_file_contents(bytes).drop_last() =~= hex_text(bytes));
}

/// The two lowercase hexadecimal digits of every byte, and a line feed at
/// the end.
#[verifier::rlimit(50)]
pub fn hex_encode(bytes: &[u8]) -> (text: String)
    ensures
        text@ == hex_file_contents(bytes@),
{
    let mut text: String = String::new();
    let mut i: usize = 0;
    while i < bytes.len()
        invariant
            i <= bytes.len(),
            text@ == hex_text(bytes@.subrange(0, i as int)),
        decreases bytes.len() - i,
    {
        let b: u8 = bytes[i];
        proof {
            assert(bytes@.subrange(0, i + 1).drop_last() =~= bytes@.subrange(0, i as int));
        }
        text.push(digit_to_char(b / 16));
        text.push(digit_to_char(b % 16));
        i = i + 1;
        assert(text@ =~= hex_text(bytes@.subrange(0, i as int)));
    }
    assert(bytes@.subrange(0, i as int) =~= bytes@);
    text.push('\n');
    text
}

/// The name of the output file: `output_name`, with `.hex` at its end
/// unless it has an extension.
pub open spec fn output_file_name(output_name: Seq<char>, has_extension: bool) -> Seq<char> {
    if has_extension {
        output_name
    } else {
        output_name + ".hex"@
    }
}

/// The name of the output file for `output_name`, given whether that name
/// has an extension.
pub fn name_output_file(output_name: &str, has_extension: bool) -> (name: String)
    ensures
        name@ == output_file_name(output_name@, has_extension),
{
    let mut name: String = String::new();
    push_str(&mut name, output_name);
    if !has_extension {
        push_str(&mut name, ".hex");
    }
    assert(name@ =~= output_file_name(output_name@, has_extension));
    name
}

/// `Path::extension` of the standard library on `name`: whether the last
/// component of the path has an extension. Nothing is claimed of the
/// result: what counts as a component depends on the platform.
#[verifier::external_body]
fn has_extension(name: &str) -> (b: bool) {
    std::path::Path::new(name).extension().is_some()
}

/// The file that holds the input of a program: its name below the output
/// directory and its contents.
#[derive(Debug, Clone, PartialEq, Eq)]
pub struct HexFile {
    pub name: String,
    pub contents: String,
}

/// The name of the directory that the input files are written to.
pub fn output_directory() -> (name: &'static str)
    ensures
        name@ == ".dbg"@,
{
    ".dbg"
}

/// Prepares the input of a program for an instruction: the accounts of the
/// instruction become entries, the entries with the data and the program id
/// of the instruction become the input region, and the region becomes the
/// contents of a file, in hexadecimal. The call fails if an account of the
/// instruction is not provided.
pub fn generate(instruction: &Instruction, accounts: &[(Pubkey, SolAccount)], output_name: &str) -> (r:
    Result<HexFile, DebuggerInputError>)
    ensures
        match r {
            Ok(file) => {
                &&& all_prepared(instruction.accounts@, accounts@, instruction.accounts@.len() as int)
                &&& file.contents@ == hex_file_contents(
                    serialized(
                        Seq::new(
                            instruction.accounts@.len(),
                            |i: int| prepared_entry(instruction.accounts@, accounts@, i)->0,
                        ),
                        instruction.data@,
                        instruction.program_id@,
                    ),
                )
                &&& file.name@ == output_file_name(output_name@, true) || file.name@
                    == output_file_name(output_name@, false)
            },
            Err(DebuggerInputError::MissingAccount(key)) => exists|i: int|
                0 <= i < instruction.accounts@.len() && all_prepared(
                    instruction.accounts@,
                    accounts@,
                    i,
                ) && (#[trigger] prepared_entry(instruction.accounts@, accounts@, i)) is None
                    && key@ == instruction.accounts@[i].pubkey@,
            Err(_) => false,
        },
{
    let entries: Vec<SerializeAccount> = match prepare_accounts(
        instruction.accounts.as_slice(),
        accounts,
    ) {
        Ok(entries) => entries,
        Err(e) => {
            return Err(e);
        },
    };
    proof {
        assert(entry_views(entries@) =~= Seq::new(
            instruction.accounts@.len(),
            |i: int| prepared_entry(instruction.accounts@, accounts@, i)->0,
        ));
    }
    let bytes: Vec<u8> = match serialize_parameters(
        entries,
        instruction.data.as_slice(),
        &instruction.program_id,
    ) {
        Ok(bytes) => bytes,
        Err(e) => {
            return Err(e);
        },
    };
    let contents: String = hex_encode(bytes.as_slice());
    let name: String = name_output_file(output_name, has_extension(output_name));
    Ok(HexFile { name, contents })
}

} // verus!
