//! The RPC-facing data model and its pure logic: continuation tokens with an
//! exact textual round trip, fee estimation, the event query types, contract
//! class containers, and the translation of stored and user-submitted
//! transactions into executable form, including class decompression.

use vstd::prelude::*;
use vstd::string::{is_ascii, StringSliceAdditionalSpecFns, StrSliceExecFns};
use vstd::utf8::is_ascii_chars;

use crate::protocol::{BlockHash, BlockNumber};

verus! {

/// The error surface of the RPC layer's logic.
#[derive(Debug, Clone, Copy, PartialEq, Eq, Structural)]
pub enum RpcError {
    BlockNotFound,
    ContractNotFound,
    ContractError,
    InvalidContinuationToken,
    InternalServerError,
}

/// The position of an event in the chain: its block, the transaction within
/// the block, and the event within the transaction's output.
#[derive(Debug, Clone, Copy, PartialEq, Eq, Structural, Hash)]
pub struct EventIndex {
    pub block_number: u64,
    pub transaction_offset: u64,
    pub event_offset: u64,
}

/// A continuation token in its parsed form.
#[derive(Debug, Clone, Copy, PartialEq, Eq, Structural)]
pub struct ContinuationTokenAsStruct(pub EventIndex);

/// An opaque cursor into an event query, as handed to RPC clients.
///
/// The textual form is this crate's own: the three indices rendered to a fixed
/// width, bracketed and comma-separated. Clients never read the text; `new`
/// and `parse` round-trip it exactly.
#[derive(Debug, Clone, PartialEq, Eq, Hash)]
pub struct ContinuationToken(pub String);

/// Ten to the given power.
pub open spec fn pow10(e: nat) -> nat
    decreases e,
{
    if e == 0 {
        1
    } else {
        10 * pow10((e - 1) as nat)
    }
}

/// Twenty decimal digits cover every machine word.
pub proof fn lemma_pow10_20_covers_u64()
    ensures
        pow10(20) > u64::MAX,
{
    reveal_with_fuel(pow10, 21);
    assert(pow10(20) == 100000000000000000000);
}

/// The number, zero-padded to a fixed count of decimal digits, most
/// significant first.
pub open spec fn spec_dec_fixed(n: nat, width: nat) -> Seq<u8>
    decreases width,
{
    if width == 0 {
        Seq::empty()
    } else {
        spec_dec_fixed(n / 10, (width - 1) as nat) + seq![(48 + n % 10) as u8]
    }
}

/// A fixed-width decimal rendering is exactly as long as its width.
pub proof fn lemma_dec_fixed_len(n: nat, width: nat)
    ensures
        spec_dec_fixed(n, width).len() == width,
    decreases width,
{
    if width > 0 {
        lemma_dec_fixed_len(n / 10, (width - 1) as nat);
    }
}

/// Reads a fixed count of decimal digits at the position.
pub open spec fn spec_parse_dec_fixed(s: Seq<u8>, pos: int, width: nat) -> Option<nat>
    decreases width,
{
    if pos < 0 || pos + width > s.len() {
        None
    } else if width == 0 {
        Some(0)
    } else {
        let digit = s[pos + width - 1];
        if 48 <= digit <= 57 {
            match spec_parse_dec_fixed(s, pos, (width - 1) as nat) {
                None => None,
                Some(m) => Some(m * 10 + (digit - 48) as nat),
            }
        } else {
            None
        }
    }
}

/// Reading a fixed-width decimal rendering right after any prefix recovers the
/// number.
pub proof fn lemma_dec_fixed_round_trip(prefix: Seq<u8>, n: nat, width: nat, suffix: Seq<u8>)
    requires
        n < pow10(width),
    ensures
        spec_parse_dec_fixed(
            prefix + spec_dec_fixed(n, width) + suffix,
            prefix.len() as int,
            width,
        ) == Some(n),
    decreases width,
{
    let s = prefix + spec_dec_fixed(n, width) + suffix;
    lemma_dec_fixed_len(n, width);
    if width == 0 {
        assert(n == 0);
    } else {
        let last = (48 + n % 10) as u8;
        assert(spec_dec_fixed(n, width) == spec_dec_fixed(n / 10, (width - 1) as nat) + seq![
            last,
        ]);
        assert(s =~= prefix + spec_dec_fixed(n / 10, (width - 1) as nat) + (seq![last] + suffix));
        assert(n / 10 < pow10((width - 1) as nat)) by (nonlinear_arith)
            requires
                n < 10 * pow10((width - 1) as nat),
        ;
        lemma_dec_fixed_round_trip(prefix, n / 10, (width - 1) as nat, seq![last] + suffix);
        lemma_dec_fixed_len(n / 10, (width - 1) as nat);
        assert(s[prefix.len() + width - 1] == last);
        assert((n / 10) * 10 + (n % 10) == n);
    }
}

/// Appends the number as a fixed count of decimal digits, most significant
/// first.
pub fn push_dec_fixed(n: u64, width: u8, out: &mut Vec<u8>)
    ensures
        final(out)@ == old(out)@ + spec_dec_fixed(n as nat, width as nat),
    decreases width,
{
    if width == 0 {
        proof {
            assert(final(out)@ =~= old(out)@ + spec_dec_fixed(n as nat, 0));
        }
        return ;
    }
    push_dec_fixed(n / 10, width - 1, out);
    out.push(48 + ((n % 10) as u8));
    proof {
        assert(final(out)@ =~= old(out)@ + spec_dec_fixed(n as nat, width as nat));
    }
}

/// Reads a fixed count of decimal digits at the position, when the value fits
/// a machine word.
pub fn parse_dec_fixed(s: &Vec<u8>, pos: usize, width: usize) -> (r: Option<u64>)
    ensures
        match r {
            Some(v) => spec_parse_dec_fixed(s@, pos as int, width as nat) == Some(v as nat),
            None => spec_parse_dec_fixed(s@, pos as int, width as nat) is None
                || (spec_parse_dec_fixed(s@, pos as int, width as nat) matches Some(v) && v
                > u64::MAX),
        },
{
    if pos > s.len() || width > s.len() - pos {
        return None;
    }
    let mut value: u64 = 0;
    let mut k: usize = 0;
    while k < width
        invariant
            s@.len() <= usize::MAX,
            pos + width <= s@.len(),
            k <= width,
            spec_parse_dec_fixed(s@, pos as int, k as nat) == Some(value as nat),
        decreases width - k,
    {
        let digit = s[pos + k];
        if digit < 48 || digit > 57 {
            proof {
                lemma_parse_dec_fixed_bad_digit(s@, pos as int, width as nat, (k + 1) as nat);
            }
            return None;
        }
        let step = match value.checked_mul(10) {
            Some(v10) => v10.checked_add((digit - 48) as u64),
            None => None,
        };
        value = match step {
            Some(v) => v,
            None => {
                proof {
                    lemma_parse_dec_fixed_grows(s@, pos as int, width as nat, (k + 1) as nat);
                }
                return None;
            },
        };
        k = k + 1;
    }
    Some(value)
}

/// When the digit closing a parse window is malformed, every wider window
/// fails too.
proof fn lemma_parse_dec_fixed_bad_digit(s: Seq<u8>, pos: int, width: nat, bad: nat)
    requires
        bad <= width,
        bad > 0,
        pos >= 0,
        pos + width <= s.len(),
        !(48 <= s[pos + bad - 1] <= 57),
    ensures
        spec_parse_dec_fixed(s, pos, width) is None,
    decreases width,
{
    if width > bad {
        lemma_parse_dec_fixed_bad_digit(s, pos, (width - 1) as nat, bad);
    }
}

/// A parse window's value only grows as the window widens.
proof fn lemma_parse_dec_fixed_grows(s: Seq<u8>, pos: int, width: nat, k: nat)
    requires
        k <= width,
        pos >= 0,
        pos + width <= s.len(),
    ensures
        (match spec_parse_dec_fixed(s, pos, width) {
            Some(v) => spec_parse_dec_fixed(s, pos, k) matches Some(m) && m <= v,
            None => true,
        }),
    decreases width,
{
    if width > k {
        lemma_parse_dec_fixed_grows(s, pos, (width - 1) as nat, k);
    }
}

/// ASCII bytes as characters.
pub open spec fn bytes_as_chars(b: Seq<u8>) -> Seq<char> {
    Seq::new(b.len(), |i: int| b[i] as char)
}

/// Characters as ASCII bytes.
pub open spec fn chars_as_bytes(s: Seq<char>) -> Seq<u8> {
    Seq::new(s.len(), |i: int| s[i] as u8)
}

/// The textual form of a continuation token: the three indices, each as twenty
/// decimal digits, bracketed and comma-separated.
pub open spec fn spec_token_bytes(index: EventIndex) -> Seq<u8> {
    seq![91u8] + spec_dec_fixed(index.block_number as nat, 20) + seq![44u8] + spec_dec_fixed(
        index.transaction_offset as nat,
        20,
    ) + seq![44u8] + spec_dec_fixed(index.event_offset as nat, 20) + seq![93u8]
}

/// Reads a continuation token's bytes; only the exact 64-byte form is
/// accepted, and each index must fit a machine word.
pub open spec fn spec_parse_token(s: Seq<u8>) -> Option<EventIndex> {
    if s.len() != 64 || s[0] != 91u8 || s[21] != 44u8 || s[42] != 44u8 || s[63] != 93u8 {
        None
    } else {
        match (
            spec_parse_dec_fixed(s, 1, 20),
            spec_parse_dec_fixed(s, 22, 20),
            spec_parse_dec_fixed(s, 43, 20),
        ) {
            (Some(block_number), Some(transaction_offset), Some(event_offset)) => if block_number
                <= u64::MAX && transaction_offset <= u64::MAX && event_offset <= u64::MAX {
                Some(
                    EventIndex {
                        block_number: block_number as u64,
                        transaction_offset: transaction_offset as u64,
                        event_offset: event_offset as u64,
                    },
                )
            } else {
                None
            },
            _ => None,
        }
    }
}

/// A token's exact textual form parses back to its indices.
pub proof fn lemma_token_round_trip(index: EventIndex)
    ensures
        spec_parse_token(spec_token_bytes(index)) == Some(index),
{
    let s = spec_token_bytes(index);
    let b1 = spec_dec_fixed(index.block_number as nat, 20);
    let b2 = spec_dec_fixed(index.transaction_offset as nat, 20);
    let b3 = spec_dec_fixed(index.event_offset as nat, 20);
    lemma_dec_fixed_len(index.block_number as nat, 20);
    lemma_dec_fixed_len(index.transaction_offset as nat, 20);
    lemma_dec_fixed_len(index.event_offset as nat, 20);
    lemma_pow10_20_covers_u64();
    assert(s =~= seq![91u8] + b1 + (seq![44u8] + b2 + seq![44u8] + b3 + seq![93u8]));
    lemma_dec_fixed_round_trip(
        seq![91u8],
        index.block_number as nat,
        20,
        seq![44u8] + b2 + seq![44u8] + b3 + seq![93u8],
    );
    assert(s =~= (seq![91u8] + b1 + seq![44u8]) + b2 + (seq![44u8] + b3 + seq![93u8]));
    lemma_dec_fixed_round_trip(
        seq![91u8] + b1 + seq![44u8],
        index.transaction_offset as nat,
        20,
        seq![44u8] + b3 + seq![93u8],
    );
    assert(s =~= (seq![91u8] + b1 + seq![44u8] + b2 + seq![44u8]) + b3 + seq![93u8]);
    lemma_dec_fixed_round_trip(
        seq![91u8] + b1 + seq![44u8] + b2 + seq![44u8],
        index.event_offset as nat,
        20,
        seq![93u8],
    );
    assert(s.len() == 64);
    assert(s[0] == 91u8);
    assert(s[21] == 44u8);
    assert(s[42] == 44u8);
    assert(s[63] == 93u8);
}

/// Relies on `String::from_utf8`: ASCII bytes become the string of exactly
/// those characters.
#[verifier::external_body]
fn ascii_string_from_bytes(bytes: Vec<u8>) -> (r: String)
    requires
        forall|i: int| 0 <= i < bytes@.len() ==> bytes@[i] < 128,
    ensures
        r@ == bytes_as_chars(bytes@),
        is_ascii_chars(r@),
{
    match String::from_utf8(bytes) {
        Ok(s) => s,
        Err(_) => String::new(),
    }
}

impl ContinuationToken {
    /// Renders the parsed token into its textual form.
    pub fn new(ct: ContinuationTokenAsStruct) -> (r: Result<ContinuationToken, RpcError>)
        ensures
            r matches Ok(token) && token.0@ == bytes_as_chars(spec_token_bytes(ct.0)),
    {
        let mut bytes: Vec<u8> = Vec::new();
        bytes.push(91);
        push_dec_fixed(ct.0.block_number, 20, &mut bytes);
        bytes.push(44);
        push_dec_fixed(ct.0.transaction_offset, 20, &mut bytes);
        bytes.push(44);
        push_dec_fixed(ct.0.event_offset, 20, &mut bytes);
        bytes.push(93);
        proof {
            assert(bytes@ =~= spec_token_bytes(ct.0));
            lemma_dec_digits_ascii(ct.0);
        }
        Ok(ContinuationToken(ascii_string_from_bytes(bytes)))
    }

    /// Parses the token back into indices: exactly the strings that `new`
    /// produces — ASCII, bracketed, three twenty-digit numbers that fit a
    /// machine word — are accepted; everything else is an invalid token.
    pub fn parse(&self) -> (r: Result<ContinuationTokenAsStruct, RpcError>)
        ensures
            (match r {
                Ok(ct) => is_ascii_chars(self.0@) && spec_parse_token(chars_as_bytes(self.0@))
                    == Some(ct.0),
                Err(e) => e == RpcError::InvalidContinuationToken && (!is_ascii_chars(self.0@)
                    || spec_parse_token(chars_as_bytes(self.0@)) is None),
            }),
    {
        let text = self.0.as_str();
        if !text.is_ascii() {
            return Err(RpcError::InvalidContinuationToken);
        }
        let bytes = text.as_bytes_vec();
        proof {
            vstd::string::is_ascii_spec_bytes(text);
            assert(bytes@ =~= chars_as_bytes(self.0@));
        }
        if bytes.len() != 64 {
            return Err(RpcError::InvalidContinuationToken);
        }
        if bytes[0] != 91 || bytes[21] != 44 || bytes[42] != 44 || bytes[63] != 93 {
            return Err(RpcError::InvalidContinuationToken);
        }
        let block_number = match parse_dec_fixed(&bytes, 1, 20) {
            Some(v) => v,
            None => {
                return Err(RpcError::InvalidContinuationToken);
            },
        };
        let transaction_offset = match parse_dec_fixed(&bytes, 22, 20) {
            Some(v) => v,
            None => {
                return Err(RpcError::InvalidContinuationToken);
            },
        };
        let event_offset = match parse_dec_fixed(&bytes, 43, 20) {
            Some(v) => v,
            None => {
                return Err(RpcError::InvalidContinuationToken);
            },
        };
        Ok(
            ContinuationTokenAsStruct(
                EventIndex { block_number, transaction_offset, event_offset },
            ),
        )
    }
}

/// A token's digits are ASCII.
proof fn lemma_dec_digits_ascii(index: EventIndex)
    ensures
        forall|i: int|
            0 <= i < spec_token_bytes(index).len() ==> spec_token_bytes(index)[i] < 128,
{
    lemma_dec_fixed_ascii(index.block_number as nat, 20);
    lemma_dec_fixed_ascii(index.transaction_offset as nat, 20);
    lemma_dec_fixed_ascii(index.event_offset as nat, 20);
    lemma_dec_fixed_len(index.block_number as nat, 20);
    lemma_dec_fixed_len(index.transaction_offset as nat, 20);
    lemma_dec_fixed_len(index.event_offset as nat, 20);
}

/// Decimal digits are ASCII.
proof fn lemma_dec_fixed_ascii(n: nat, width: nat)
    ensures
        forall|i: int|
            0 <= i < spec_dec_fixed(n, width).len() ==> spec_dec_fixed(n, width)[i] < 128,
    decreases width,
{
    if width > 0 {
        lemma_dec_fixed_ascii(n / 10, (width - 1) as nat);
        lemma_dec_fixed_len(n / 10, (width - 1) as nat);
    }
}

/// An estimate of a transaction's fee: the gas it consumed, the gas price
/// used, and the resulting overall fee.
#[derive(Debug, Clone, Copy, PartialEq, Eq, Structural)]
pub struct FeeEstimate {
    pub gas_consumed: u128,
    pub gas_price: u128,
    pub overall_fee: u128,
}

impl Default for FeeEstimate {
    /// The zero estimate.
    fn default() -> (r: Self)
        ensures
            r == (FeeEstimate { gas_consumed: 0, gas_price: 0, overall_fee: 0 }),
    {
        FeeEstimate { gas_consumed: 0, gas_price: 0, overall_fee: 0 }
    }
}

impl FeeEstimate {
    /// The estimate for a fee at a gas price: the gas consumed is the fee
    /// divided by the price; a zero gas price yields the zero estimate.
    pub fn from(gas_price: u128, overall_fee: u128) -> (r: Self)
        ensures
            gas_price == 0 ==> r == (FeeEstimate { gas_consumed: 0, gas_price: 0, overall_fee: 0 }),
            gas_price != 0 ==> r == (FeeEstimate {
                gas_consumed: (overall_fee / gas_price) as u128,
                gas_price,
                overall_fee,
            }),
    {
        if gas_price == 0 {
            FeeEstimate { gas_consumed: 0, gas_price: 0, overall_fee: 0 }
        } else {
            FeeEstimate { gas_consumed: overall_fee / gas_price, gas_price, overall_fee }
        }
    }
}

/// A block identifier in an RPC request.
#[derive(Debug, Clone, Copy, PartialEq, Eq, Structural)]
pub enum BlockId {
    Number(BlockNumber),
    Hash(BlockHash),
    Latest,
    Pending,
}

/// An emitted event, reduced to the words the logic reads.
#[derive(Debug, Clone, PartialEq, Eq)]
pub struct Event {
    pub from_address: u64,
    pub keys: Vec<u64>,
    pub data: Vec<u64>,
}

/// One page of an event query's results, with the cursor to the next page when
/// more remain.
#[derive(Debug, Clone, PartialEq, Eq)]
pub struct EventsChunk {
    pub events: Vec<Event>,
    pub continuation_token: Option<ContinuationToken>,
}

/// An event query: a block range, a page cursor, a page size, and address and
/// key filters.
#[derive(Debug, Clone, PartialEq, Eq)]
pub struct EventFilter {
    pub from_block: Option<BlockId>,
    pub to_block: Option<BlockId>,
    pub continuation_token: Option<ContinuationToken>,
    pub chunk_size: u64,
    pub address: Option<u64>,
    pub keys: Vec<Vec<u64>>,
}

/// A flag modifying transaction simulation.
#[derive(Debug, Clone, Copy, PartialEq, Eq, Structural)]
pub enum SimulationFlag {
    SkipValidate,
    SkipFeeCharge,
}


/// The trace of a simulated transaction, reduced to its kind.
#[derive(Debug, Clone, Copy, PartialEq, Eq, Structural)]
pub enum TransactionTrace {
    Invoke,
    Declare,
    DeployAccount,
    L1Handler,
}

/// The outcome of simulating one transaction: its trace and its fee estimate.
#[derive(Debug, Clone, Copy, PartialEq, Eq, Structural)]
pub struct SimulatedTransaction {
    pub transaction_trace: TransactionTrace,
    pub fee_estimation: FeeEstimate,
}

/// A deprecated (Cairo-zero) contract class as an RPC client submits it: the
/// ABI and entry points pass through opaquely; the program travels compressed
/// and base64-encoded.
#[derive(Debug, Clone, PartialEq, Eq)]
pub struct DeprecatedContractClass {
    pub abi: Vec<u8>,
    pub compressed_program: String,
    pub entry_points_by_type: Vec<u8>,
}

/// A Sierra contract class, reduced to opaque payloads.
#[derive(Debug, Clone, PartialEq, Eq)]
pub struct ContractClass {
    pub sierra_program: Vec<u8>,
    pub entry_points_by_type: Vec<u8>,
    pub abi: Vec<u8>,
}

/// A contract class as the gateway serves it: deprecated or Sierra.
#[derive(Debug, Clone, PartialEq, Eq)]
pub enum GatewayContractClass {
    Cairo0(DeprecatedContractClass),
    Sierra(ContractClass),
}

/// A deprecated contract class in decompressed, executable form: the ABI and
/// entry points pass through; the program is the parsed class program.
#[derive(Debug)]
pub struct ExecutableDeprecatedClass {
    pub abi: Vec<u8>,
    pub program: starknet_api::deprecated_contract_class::Program,
    pub entry_points_by_type: Vec<u8>,
}

/// A declare transaction, versions zero and one.
#[derive(Debug, Clone, PartialEq, Eq)]
pub struct DeclareTransactionV0V1 {
    pub max_fee: u128,
    pub signature: Vec<(u64, u64)>,
    pub nonce: u64,
    pub class_hash: u64,
    pub sender_address: u64,
}

/// A declare transaction, version two.
#[derive(Debug, Clone, PartialEq, Eq)]
pub struct DeclareTransactionV2 {
    pub max_fee: u128,
    pub signature: Vec<(u64, u64)>,
    pub nonce: u64,
    pub class_hash: u64,
    pub compiled_class_hash: u64,
    pub sender_address: u64,
}

/// A stored declare transaction of any version.
#[derive(Debug, Clone, PartialEq, Eq)]
pub enum DeclareTransaction {
    V0(DeclareTransactionV0V1),
    V1(DeclareTransactionV0V1),
    V2(DeclareTransactionV2),
}

/// A legacy deploy transaction, opaque to execution.
#[derive(Debug, Clone, PartialEq, Eq)]
pub struct DeployTransaction {
    pub class_hash: u64,
    pub contract_address: u64,
}

/// A deploy-account transaction.
#[derive(Debug, Clone, PartialEq, Eq)]
pub struct DeployAccountTransaction {
    pub max_fee: u128,
    pub signature: Vec<(u64, u64)>,
    pub nonce: u64,
    pub class_hash: u64,
    pub contract_address_salt: u64,
    pub constructor_calldata: Vec<u64>,
}

/// An invoke transaction, version zero.
#[derive(Debug, Clone, PartialEq, Eq)]
pub struct InvokeTransactionV0 {
    pub max_fee: u128,
    pub version: u64,
    pub signature: Vec<(u64, u64)>,
    pub contract_address: u64,
    pub entry_point_selector: u64,
    pub calldata: Vec<u64>,
}

/// An invoke transaction, version one.
#[derive(Debug, Clone, PartialEq, Eq)]
pub struct InvokeTransactionV1 {
    pub max_fee: u128,
    pub version: u64,
    pub signature: Vec<(u64, u64)>,
    pub nonce: u64,
    pub sender_address: u64,
    pub calldata: Vec<u64>,
}

/// An invoke transaction as the RPC layer carries it.
#[derive(Debug, Clone, PartialEq, Eq)]
pub enum InvokeTransaction {
    Version0(InvokeTransactionV0),
    Version1(InvokeTransactionV1),
}

/// A stored invoke transaction: the version fields fall away.
#[derive(Debug, Clone, PartialEq, Eq)]
pub struct StoredInvokeTransactionV0 {
    pub max_fee: u128,
    pub signature: Vec<(u64, u64)>,
    pub contract_address: u64,
    pub entry_point_selector: u64,
    pub calldata: Vec<u64>,
}

/// A stored invoke transaction, version one: the version field falls away.
#[derive(Debug, Clone, PartialEq, Eq)]
pub struct StoredInvokeTransactionV1 {
    pub max_fee: u128,
    pub signature: Vec<(u64, u64)>,
    pub nonce: u64,
    pub sender_address: u64,
    pub calldata: Vec<u64>,
}

/// A stored invoke transaction of either version.
#[derive(Debug, Clone, PartialEq, Eq)]
pub enum StoredInvokeTransaction {
    V0(StoredInvokeTransactionV0),
    V1(StoredInvokeTransactionV1),
}

/// An L1 handler transaction, opaque to execution.
#[derive(Debug, Clone, PartialEq, Eq)]
pub struct L1HandlerTransaction {
    pub contract_address: u64,
    pub entry_point_selector: u64,
}

/// A transaction as it stands in storage.
#[derive(Debug, Clone, PartialEq, Eq)]
pub enum StoredTransaction {
    Declare(DeclareTransaction),
    Deploy(DeployTransaction),
    DeployAccount(DeployAccountTransaction),
    Invoke(StoredInvokeTransaction),
    L1Handler(L1HandlerTransaction),
}

/// A transaction in the form the execution layer takes.
#[derive(Debug)]
pub enum ExecutableTransactionInput {
    Invoke(StoredInvokeTransaction),
    DeclareV0(DeclareTransactionV0V1, ExecutableDeprecatedClass),
    DeclareV1(DeclareTransactionV0V1, ExecutableDeprecatedClass),
    Deploy(DeployAccountTransaction),
}

/// Strips the version field off an RPC invoke transaction.
pub fn stored_invoke_from_rpc(value: InvokeTransaction) -> (r: StoredInvokeTransaction)
    ensures
        (match value {
            InvokeTransaction::Version0(v0) => r == StoredInvokeTransaction::V0(
                (StoredInvokeTransactionV0 {
                    max_fee: v0.max_fee,
                    signature: v0.signature,
                    contract_address: v0.contract_address,
                    entry_point_selector: v0.entry_point_selector,
                    calldata: v0.calldata,
                }),
            ),
            InvokeTransaction::Version1(v1) => r == StoredInvokeTransaction::V1(
                (StoredInvokeTransactionV1 {
                    max_fee: v1.max_fee,
                    signature: v1.signature,
                    nonce: v1.nonce,
                    sender_address: v1.sender_address,
                    calldata: v1.calldata,
                }),
            ),
        }),
{
    match value {
        InvokeTransaction::Version0(v0) => {
            let InvokeTransactionV0 {
                max_fee,
                version: _,
                signature,
                contract_address,
                entry_point_selector,
                calldata,
            } = v0;
            StoredInvokeTransaction::V0(
                StoredInvokeTransactionV0 {
                    max_fee,
                    signature,
                    contract_address,
                    entry_point_selector,
                    calldata,
                },
            )
        },
        InvokeTransaction::Version1(v1) => {
            let InvokeTransactionV1 {
                max_fee,
                version: _,
                signature,
                nonce,
                sender_address,
                calldata,
            } = v1;
            StoredInvokeTransaction::V1(
                StoredInvokeTransactionV1 { max_fee, signature, nonce, sender_address, calldata },
            )
        },
    }
}

/// Turns a stored transaction into executable form, given the deprecated class
/// definition looked up for a version zero or one declare transaction.
///
/// Declare transactions of versions zero and one need their class definition:
/// without it the translation fails. Declare version two, legacy deploys and
/// L1 handler transactions are not executable. Deploy-account and invoke
/// transactions pass through.
pub fn stored_txn_to_executable_txn(
    stored_txn: StoredTransaction,
    deprecated_class: Option<ExecutableDeprecatedClass>,
) -> (r: Result<ExecutableTransactionInput, RpcError>)
    ensures
        (match stored_txn {
            StoredTransaction::Declare(declare) => (match declare {
                DeclareTransaction::V0(tx) => (match deprecated_class {
                    Some(class) => r matches Ok(e) && e == ExecutableTransactionInput::DeclareV0(
                        tx,
                        class,
                    ),
                    None => r == Err::<ExecutableTransactionInput, RpcError>(
                        RpcError::InternalServerError,
                    ),
                }),
                DeclareTransaction::V1(tx) => (match deprecated_class {
                    Some(class) => r matches Ok(e) && e == ExecutableTransactionInput::DeclareV1(
                        tx,
                        class,
                    ),
                    None => r == Err::<ExecutableTransactionInput, RpcError>(
                        RpcError::InternalServerError,
                    ),
                }),
                DeclareTransaction::V2(_) => r == Err::<ExecutableTransactionInput, RpcError>(
                    RpcError::InternalServerError,
                ),
            }),
            StoredTransaction::Deploy(_) => r == Err::<ExecutableTransactionInput, RpcError>(
                RpcError::InternalServerError,
            ),
            StoredTransaction::DeployAccount(tx) => r matches Ok(e) && e
                == ExecutableTransactionInput::Deploy(tx),
            StoredTransaction::Invoke(tx) => r matches Ok(e) && e
                == ExecutableTransactionInput::Invoke(tx),
            StoredTransaction::L1Handler(_) => r == Err::<ExecutableTransactionInput, RpcError>(
                RpcError::InternalServerError,
            ),
        }),
{
    match stored_txn {
        StoredTransaction::Declare(declare) => match declare {
            DeclareTransaction::V0(tx) => match deprecated_class {
                Some(class) => Ok(ExecutableTransactionInput::DeclareV0(tx, class)),
                None => Err(RpcError::InternalServerError),
            },
            DeclareTransaction::V1(tx) => match deprecated_class {
                Some(class) => Ok(ExecutableTransactionInput::DeclareV1(tx, class)),
                None => Err(RpcError::InternalServerError),
            },
            DeclareTransaction::V2(_) => Err(RpcError::InternalServerError),
        },
        StoredTransaction::Deploy(_) => Err(RpcError::InternalServerError),
        StoredTransaction::DeployAccount(tx) => Ok(ExecutableTransactionInput::Deploy(tx)),
        StoredTransaction::Invoke(tx) => Ok(ExecutableTransactionInput::Invoke(tx)),
        StoredTransaction::L1Handler(_) => Err(RpcError::InternalServerError),
    }
}

/// The class hash whose deprecated class definition a stored transaction needs
/// before it can execute.
pub fn required_deprecated_class_hash(stored_txn: &StoredTransaction) -> (r: Option<u64>)
    ensures
        (match stored_txn {
            StoredTransaction::Declare(declare) => (match declare {
                DeclareTransaction::V0(tx) => r == Some(tx.class_hash),
                DeclareTransaction::V1(tx) => r == Some(tx.class_hash),
                DeclareTransaction::V2(_) => r is None,
            }),
            _ => r is None,
        }),
{
    match stored_txn {
        StoredTransaction::Declare(DeclareTransaction::V0(tx)) => Some(tx.class_hash),
        StoredTransaction::Declare(DeclareTransaction::V1(tx)) => Some(tx.class_hash),
        _ => None,
    }
}

/// An execution failure, as the execution layer reports it.
#[derive(Debug, Clone, Copy, PartialEq, Eq, Structural)]
pub enum ExecutionError {
    /// The requested block lies past what the node has synchronized.
    NotSynced,
    /// The called contract does not exist at the requested state.
    ContractNotFound,
    /// The execution itself failed.
    ExecutionFailed,
}

/// Maps an execution failure onto the RPC error surface: an unsynchronized
/// block reads as an unknown block, a missing contract as such, and every
/// other execution failure as a contract error.
pub fn execution_error_to_rpc(value: ExecutionError) -> (r: RpcError)
    ensures
        value == ExecutionError::NotSynced ==> r == RpcError::BlockNotFound,
        value == ExecutionError::ContractNotFound ==> r == RpcError::ContractNotFound,
        value != ExecutionError::NotSynced && value != ExecutionError::ContractNotFound ==> r
            == RpcError::ContractError,
    {
    match value {
        ExecutionError::NotSynced => RpcError::BlockNotFound,
        ExecutionError::ContractNotFound => RpcError::ContractNotFound,
        ExecutionError::ExecutionFailed => RpcError::ContractError,
    }
}

/// What base64 decoding yields for a string: a function of the characters
/// alone.
pub uninterp spec fn base64_decoded(s: Seq<char>) -> Option<Seq<u8>>;

/// What gzip decompression yields for a byte sequence: a function of the bytes
/// alone.
pub uninterp spec fn gunzip_of(data: Seq<u8>) -> Option<Seq<u8>>;

/// Relies on base64's `Engine::decode` with the standard alphabet: whether and
/// to what a string decodes depends on its characters alone.
#[verifier::external_body]
fn base64_decode(input: &String) -> (r: Option<Vec<u8>>)
    ensures
        (match r {
            Some(decoded) => base64_decoded(input@) == Some(decoded@),
            None => base64_decoded(input@) is None,
        }),
{
    base64::Engine::decode(&base64::engine::general_purpose::STANDARD, input.as_str()).ok()
}

/// Relies on flate2's `GzDecoder` over an in-memory buffer: whether and to
/// what a gzip stream inflates depends on its bytes alone.
#[verifier::external_body]
fn gunzip(data: &Vec<u8>) -> (r: Option<Vec<u8>>)
    ensures
        (match r {
            Some(decompressed) => gunzip_of(data@) == Some(decompressed@),
            None => gunzip_of(data@) is None,
        }),
{
    let mut decoder = flate2::bufread::GzDecoder::new(data.as_slice());
    let mut decompressed = Vec::new();
    match std::io::Read::read_to_end(&mut decoder, &mut decompressed) {
        Ok(_) => Some(decompressed),
        Err(_) => None,
    }
}

/// The deprecated class program type of the execution layer's API.
#[verifier::external_type_specification]
#[verifier::external_body]
pub struct ExProgram(starknet_api::deprecated_contract_class::Program);

/// Whether serde_json parses the bytes as a class program: a function of the
/// bytes alone.
pub uninterp spec fn parses_as_program(bytes: Seq<u8>) -> bool;

/// Relies on serde_json's `from_slice` for
/// `starknet_api::deprecated_contract_class::Program`: whether the bytes parse
/// depends on the bytes alone; nothing is promised of the parsed value.
#[verifier::external_body]
fn parse_program(bytes: &Vec<u8>) -> (r: Option<
    starknet_api::deprecated_contract_class::Program,
>)
    ensures
        r is Some <==> parses_as_program(bytes@),
{
    serde_json::from_slice(bytes.as_slice()).ok()
}

/// The whole decompression pipeline succeeds on the string: it decodes from
/// base64, the decoded bytes inflate as a gzip stream, and the inflated bytes
/// parse as a class program.
pub open spec fn program_decompresses(s: Seq<char>) -> bool {
    &&& base64_decoded(s) is Some
    &&& gunzip_of(base64_decoded(s)->0) is Some
    &&& parses_as_program(gunzip_of(base64_decoded(s)->0)->0)
}

/// Decompresses a class program: one base64 decode of the string, one gzip
/// inflation of the result, then a parse of the inflated bytes into a program.
///
/// The input is decoded from base64 exactly once; a failing decode, a failing
/// inflation and an unparsable program each read as an internal error.
pub fn decompress_program(base64_compressed_program: &String) -> (r: Result<
    starknet_api::deprecated_contract_class::Program,
    RpcError,
>)
    ensures
        base64_decoded(base64_compressed_program@) is None ==> r == Err::<
            starknet_api::deprecated_contract_class::Program,
            RpcError,
        >(RpcError::InternalServerError),
        (match base64_decoded(base64_compressed_program@) {
            Some(compressed) => gunzip_of(compressed) is None ==> r == Err::<
                starknet_api::deprecated_contract_class::Program,
                RpcError,
            >(RpcError::InternalServerError),
            None => true,
        }),
        r matches Err(e) ==> e == RpcError::InternalServerError,
        r is Ok <==> program_decompresses(base64_compressed_program@),
{
    let compressed_data = match base64_decode(base64_compressed_program) {
        Some(data) => data,
        None => {
            return Err(RpcError::InternalServerError);
        },
    };
    let decompressed = match gunzip(&compressed_data) {
        Some(data) => data,
        None => {
            return Err(RpcError::InternalServerError);
        },
    };
    match parse_program(&decompressed) {
        Some(program) => Ok(program),
        None => Err(RpcError::InternalServerError),
    }
}

/// Turns a user-submitted deprecated class into executable form: the program
/// is decompressed and parsed; the ABI and entry points pass through.
pub fn user_deprecated_contract_class_to_sn_api(value: DeprecatedContractClass) -> (r: Result<
    ExecutableDeprecatedClass,
    RpcError,
>)
    ensures
        (match r {
            Ok(class) => {
                &&& class.abi@ == value.abi@
                &&& class.entry_points_by_type@ == value.entry_points_by_type@
            },
            Err(e) => e == RpcError::InternalServerError,
        }),
        r is Ok <==> program_decompresses(value.compressed_program@),
{
    let DeprecatedContractClass { abi, compressed_program, entry_points_by_type } = value;
    let program = match decompress_program(&compressed_program) {
        Ok(program) => program,
        Err(e) => {
            return Err(e);
        },
    };
    Ok(ExecutableDeprecatedClass { abi, program, entry_points_by_type })
}

/// A declare transaction as an RPC client submits it, version one: the class
/// travels with it in compressed form.
#[derive(Debug, Clone, PartialEq, Eq)]
pub struct BroadcastedDeclareV1Transaction {
    pub contract_class: DeprecatedContractClass,
    pub sender_address: u64,
    pub nonce: u64,
    pub max_fee: u128,
    pub signature: Vec<(u64, u64)>,
}

/// A declare transaction as an RPC client submits it, version two.
#[derive(Debug, Clone, PartialEq, Eq)]
pub struct BroadcastedDeclareV2Transaction {
    pub compiled_class_hash: u64,
    pub sender_address: u64,
    pub nonce: u64,
    pub max_fee: u128,
    pub signature: Vec<(u64, u64)>,
}

/// A declare transaction as an RPC client submits it.
#[derive(Debug, Clone, PartialEq, Eq)]
pub enum BroadcastedDeclareTransaction {
    V1(BroadcastedDeclareV1Transaction),
    V2(BroadcastedDeclareV2Transaction),
}

/// A transaction as an RPC client submits it.
#[derive(Debug, Clone, PartialEq, Eq)]
pub enum BroadcastedTransaction {
    Declare(BroadcastedDeclareTransaction),
    DeployAccount(DeployAccountTransaction),
    Invoke(InvokeTransaction),
}

/// Turns a user-submitted declare transaction into executable form: for
/// version one the class is decompressed and the class hash is left at its
/// default, which execution does not read; version two cannot execute yet.
pub fn executable_declare_from_broadcasted(value: BroadcastedDeclareTransaction) -> (r: Result<
    ExecutableTransactionInput,
    RpcError,
>)
    ensures
        (match value {
            BroadcastedDeclareTransaction::V1(tx) => {
                &&& (r matches Ok(e) ==> e matches ExecutableTransactionInput::DeclareV1(
                    declare,
                    class,
                ) && declare == (DeclareTransactionV0V1 {
                    max_fee: tx.max_fee,
                    signature: tx.signature,
                    nonce: tx.nonce,
                    class_hash: 0,
                    sender_address: tx.sender_address,
                }) && class.abi@ == tx.contract_class.abi@ && class.entry_points_by_type@
                    == tx.contract_class.entry_points_by_type@)
                &&& (r matches Err(e) ==> e == RpcError::InternalServerError)
                &&& (r is Ok <==> program_decompresses(tx.contract_class.compressed_program@))
            },
            BroadcastedDeclareTransaction::V2(_) => r == Err::<
                ExecutableTransactionInput,
                RpcError,
            >(RpcError::InternalServerError),
        }),
{
    match value {
        BroadcastedDeclareTransaction::V1(tx) => {
            let BroadcastedDeclareV1Transaction {
                contract_class,
                sender_address,
                nonce,
                max_fee,
                signature,
            } = tx;
            let class = match user_deprecated_contract_class_to_sn_api(contract_class) {
                Ok(class) => class,
                Err(e) => {
                    return Err(e);
                },
            };
            Ok(
                ExecutableTransactionInput::DeclareV1(
                    DeclareTransactionV0V1 {
                        max_fee,
                        signature,
                        nonce,
                        class_hash: 0,
                        sender_address,
                    },
                    class,
                ),
            )
        },
        BroadcastedDeclareTransaction::V2(_) => Err(RpcError::InternalServerError),
    }
}

/// Turns any user-submitted transaction into executable form: declares go
/// through class decompression, deploy-account transactions pass through, and
/// invokes drop their version field.
pub fn executable_txn_from_broadcasted(value: BroadcastedTransaction) -> (r: Result<
    ExecutableTransactionInput,
    RpcError,
>)
    ensures
        (match value {
            BroadcastedTransaction::Declare(declare) => (match declare {
                BroadcastedDeclareTransaction::V1(tx) => {
                    &&& (r matches Ok(e) ==> e matches ExecutableTransactionInput::DeclareV1(
                        declare_tx,
                        class,
                    ) && declare_tx == (DeclareTransactionV0V1 {
                        max_fee: tx.max_fee,
                        signature: tx.signature,
                        nonce: tx.nonce,
                        class_hash: 0,
                        sender_address: tx.sender_address,
                    }) && class.abi@ == tx.contract_class.abi@ && class.entry_points_by_type@
                        == tx.contract_class.entry_points_by_type@)
                    &&& (r matches Err(e) ==> e == RpcError::InternalServerError)
                    &&& (r is Ok <==> program_decompresses(tx.contract_class.compressed_program@))
                },
                BroadcastedDeclareTransaction::V2(_) => r == Err::<
                    ExecutableTransactionInput,
                    RpcError,
                >(RpcError::InternalServerError),
            }),
            BroadcastedTransaction::DeployAccount(tx) => r matches Ok(e) && e
                == ExecutableTransactionInput::Deploy(tx),
            BroadcastedTransaction::Invoke(tx) => r matches Ok(e) && e
                == ExecutableTransactionInput::Invoke(
                match tx {
                    InvokeTransaction::Version0(v0) => StoredInvokeTransaction::V0(
                        (StoredInvokeTransactionV0 {
                            max_fee: v0.max_fee,
                            signature: v0.signature,
                            contract_address: v0.contract_address,
                            entry_point_selector: v0.entry_point_selector,
                            calldata: v0.calldata,
                        }),
                    ),
                    InvokeTransaction::Version1(v1) => StoredInvokeTransaction::V1(
                        (StoredInvokeTransactionV1 {
                            max_fee: v1.max_fee,
                            signature: v1.signature,
                            nonce: v1.nonce,
                            sender_address: v1.sender_address,
                            calldata: v1.calldata,
                        }),
                    ),
                },
            ),
        }),
{
    match value {
        BroadcastedTransaction::Declare(declare) => executable_declare_from_broadcasted(declare),
        BroadcastedTransaction::DeployAccount(tx) => Ok(ExecutableTransactionInput::Deploy(tx)),
        BroadcastedTransaction::Invoke(tx) => Ok(
            ExecutableTransactionInput::Invoke(stored_invoke_from_rpc(tx)),
        ),
    }
}

} // verus!
