//! Identifiers and the block, transaction and account records.

use vstd::prelude::*;
use vstd::string::StringExecFns;

verus! {

/// Block hash (32 bytes).
#[derive(Debug, Clone, Copy, PartialEq, Eq, Hash)]
pub struct BlockHash(pub [u8; 32]);

/// Transaction hash (32 bytes).
#[derive(Debug, Clone, Copy, PartialEq, Eq, Hash)]
pub struct TxHash(pub [u8; 32]);

/// Account address (20 bytes).
#[derive(Debug, Clone, Copy, PartialEq, Eq, Hash)]
pub struct Address(pub [u8; 20]);

/// Balance amount.
pub type Balance = u128;

/// Gas amount.
pub type Gas = u64;

/// Block number.
pub type BlockNumber = u64;

/// Timestamp, in clock ticks.
pub type Timestamp = u64;

/// Transaction nonce.
pub type Nonce = u64;

/// Signature (64 bytes).
#[derive(Debug, Clone, Copy)]
pub struct Signature(pub [u8; 64]);

/// Public key (32 bytes).
#[derive(Debug, Clone, Copy, PartialEq, Eq)]
pub struct PublicKey(pub [u8; 32]);

/// A transfer, contract call or contract deployment.
#[derive(Debug, Clone)]
pub struct Transaction {
    /// Sender address.
    pub from: Address,
    /// Recipient address (`None` for contract creation).
    pub to: Option<Address>,
    /// Amount to transfer.
    pub value: Balance,
    /// Call data or deployment code.
    pub data: Vec<u8>,
    /// Gas limit.
    pub gas_limit: Gas,
    /// Gas price.
    pub gas_price: Balance,
    /// Nonce.
    pub nonce: Nonce,
    /// Signature.
    pub signature: Signature,
}

/// Block header: everything that determines a block's identity.
#[derive(Debug, Clone)]
pub struct BlockHeader {
    /// Block number.
    pub number: BlockNumber,
    /// Parent block hash; all zeros for a genesis block.
    pub parent_hash: BlockHash,
    /// Clock tick at which the block was proposed.
    pub timestamp: Timestamp,
    /// State root, computed by the execution layer.
    pub state_root: BlockHash,
    /// Transactions root, computed by the execution layer.
    pub transactions_root: BlockHash,
    /// Receipts root, computed by the execution layer.
    pub receipts_root: BlockHash,
    /// Block proposer.
    pub proposer: Address,
    /// Opaque extra data.
    pub extra_data: Vec<u8>,
}

/// A header and its ordered transactions.
#[derive(Debug, Clone)]
pub struct Block {
    /// Block header.
    pub header: BlockHeader,
    /// Transactions in this block.
    pub transactions: Vec<Transaction>,
}

/// Transaction receipt.
#[derive(Debug, Clone)]
pub struct Receipt {
    /// Transaction hash.
    pub tx_hash: TxHash,
    /// Block number.
    pub block_number: BlockNumber,
    /// Gas used.
    pub gas_used: Gas,
    /// Success status.
    pub success: bool,
    /// Logs emitted.
    pub logs: Vec<Log>,
    /// Contract address (if contract creation).
    pub contract_address: Option<Address>,
}

/// Event log.
#[derive(Debug, Clone)]
pub struct Log {
    /// Contract address that emitted the log.
    pub address: Address,
    /// Topics (indexed parameters).
    pub topics: Vec<[u8; 32]>,
    /// Data (non-indexed parameters).
    pub data: Vec<u8>,
}

/// Account state.
#[derive(Debug, Clone, Copy)]
pub struct Account {
    /// Account balance.
    pub balance: Balance,
    /// Transaction nonce.
    pub nonce: Nonce,
    /// Contract code hash (`None` for an externally owned account).
    pub code_hash: Option<BlockHash>,
    /// Storage root.
    pub storage_root: BlockHash,
}

impl Default for Account {
    fn default() -> (r: Self)
        ensures
            r.balance == 0,
            r.nonce == 0,
            r.code_hash.is_none(),
            r.storage_root.0@ == Seq::new(32, |i: int| 0u8),
    {
        let r = Account { balance: 0, nonce: 0, code_hash: None, storage_root: BlockHash([0u8; 32]) };
        assert(r.storage_root.0@ =~= Seq::new(32, |i: int| 0u8));
        r
    }
}

/// The all-zero hash, which a genesis block names as its parent.
pub open spec fn is_null_hash(h: Seq<u8>) -> bool {
    forall|i: int| 0 <= i < h.len() ==> h[i] == 0
}

/// The bincode encoding (fixed-width little-endian integers, byte arrays as
/// their raw bytes, a byte vector prefixed by its length) of the tuple of
/// header fields.
pub uninterp spec fn bincode_of_header(
    number: u64,
    parent_hash: Seq<u8>,
    timestamp: u64,
    state_root: Seq<u8>,
    transactions_root: Seq<u8>,
    receipts_root: Seq<u8>,
    proposer: Seq<u8>,
    extra_data: Seq<u8>,
) -> Seq<u8>;

/// The bytes a header's hash is computed over.
pub open spec fn header_bytes(h: BlockHeader) -> Seq<u8> {
    bincode_of_header(h.number, h.parent_hash.0@, h.timestamp, h.state_root.0@, h.transactions_root.0@,
        h.receipts_root.0@, h.proposer.0@, h.extra_data@)
}

/// Relies on bincode::serialize (bincode 1, default options) of the tuple of
/// header fields: a function of the field values alone. With no size limit and
/// every length known, serializing integers, byte arrays and a byte vector
/// cannot fail, so the error arm is never taken.
#[verifier::external_body]
fn bincode_header(h: &BlockHeader) -> (r: Vec<u8>)
    ensures
        r@ == bincode_of_header(h.number, h.parent_hash.0@, h.timestamp, h.state_root.0@,
            h.transactions_root.0@, h.receipts_root.0@, h.proposer.0@, h.extra_data@),
{
    let fields = (h.number, h.parent_hash.0, h.timestamp, h.state_root.0, h.transactions_root.0,
        h.receipts_root.0, h.proposer.0, &h.extra_data);
    match bincode::serialize(&fields) {
        Ok(v) => v,
        Err(_) => Vec::new(),
    }
}

/// The BLAKE3 digest of a byte string.
pub uninterp spec fn blake3_of(data: Seq<u8>) -> Seq<u8>;

/// Relies on blake3::hash: the 32-byte BLAKE3 digest of the input, a function of
/// the input bytes alone.
#[verifier::external_body]
fn blake3_digest(data: &[u8]) -> (r: [u8; 32])
    ensures
        r@ == blake3_of(data@),
{
    blake3::hash(data).into()
}

impl BlockHeader {
    /// The bytes the header's hash is computed over.
    pub fn encode_bytes(&self) -> (r: Vec<u8>)
        ensures
            r@ == header_bytes(*self),
    {
        bincode_header(self)
    }
}

/// The hash of a block with header `h`: the BLAKE3 digest of its framing.
pub open spec fn block_hash_of(h: BlockHeader) -> Seq<u8> {
    blake3_of(header_bytes(h))
}

impl Block {
    /// The block's hash, which depends on the header alone.
    pub fn hash(&self) -> (r: BlockHash)
        ensures
            r.0@ == block_hash_of(self.header),
    {
        let encoded = self.header.encode_bytes();
        BlockHash(blake3_digest(encoded.as_slice()))
    }
}

/// The lowercase hexadecimal digit for a value below sixteen.
pub open spec fn hex_digit(n: u8) -> char {
    if n < 10 {
        ('0' as u8 + n) as char
    } else {
        ('a' as u8 + (n - 10) as u8) as char
    }
}

/// Two lowercase hexadecimal digits per byte, most significant first.
pub open spec fn hex_of(b: Seq<u8>) -> Seq<char>
    decreases b.len(),
{
    if b.len() == 0 {
        Seq::empty()
    } else {
        hex_of(b.drop_last()) + seq![hex_digit(b.last() / 16), hex_digit(b.last() % 16)]
    }
}

fn hex_digit_str(n: u8) -> (r: &'static str)
    requires
        n < 16,
    ensures
        r@ == seq![hex_digit(n)],
{
    let r = if n == 0 { "0" } else if n == 1 { "1" } else if n == 2 { "2" } else if n == 3 { "3" }
        else if n == 4 { "4" } else if n == 5 { "5" } else if n == 6 { "6" } else if n == 7 { "7" }
        else if n == 8 { "8" } else if n == 9 { "9" } else if n == 10 { "a" } else if n == 11 { "b" }
        else if n == 12 { "c" } else if n == 13 { "d" } else if n == 14 { "e" } else { "f" };
    proof {
        reveal_strlit("0"); reveal_strlit("1"); reveal_strlit("2"); reveal_strlit("3");
        reveal_strlit("4"); reveal_strlit("5"); reveal_strlit("6"); reveal_strlit("7");
        reveal_strlit("8"); reveal_strlit("9"); reveal_strlit("a"); reveal_strlit("b");
        reveal_strlit("c"); reveal_strlit("d"); reveal_strlit("e"); reveal_strlit("f");
    }
    assert(r@ =~= seq![hex_digit(n)]);
    r
}

/// Encodes bytes as lowercase hexadecimal text.
pub fn encode(bytes: &[u8]) -> (r: String)
    ensures
        r@ == hex_of(bytes@),
{
    let mut s = String::new();
    let mut i: usize = 0;
    while i < bytes.len()
        invariant
            0 <= i <= bytes@.len(),
            s@ == hex_of(bytes@.subrange(0, i as int)),
        decreases bytes@.len() - i,
    {
        let b = bytes[i];
        let ghost prev = s@;
        s.append(hex_digit_str(b / 16));
        s.append(hex_digit_str(b % 16));
        let ghost sub = bytes@.subrange(0, i + 1);
        assert(sub.drop_last() =~= bytes@.subrange(0, i as int));
        assert(s@ =~= hex_of(sub));
        i = i + 1;
    }
    assert(bytes@.subrange(0, bytes@.len() as int) =~= bytes@);
    s
}

impl BlockHash {
    /// `0x` followed by the hash in lowercase hexadecimal.
    pub fn to_hex(&self) -> (r: String)
        ensures
            r@ == seq!['0', 'x'] + hex_of(self.0@),
    {
        let mut s = String::from_str("0x");
        proof { reveal_strlit("0x"); }
        let h = encode(self.0.as_slice());
        s.append(h.as_str());
        assert(s@ =~= seq!['0', 'x'] + hex_of(self.0@));
        s
    }
}

impl Address {
    /// `0x` followed by the address in lowercase hexadecimal.
    pub fn to_hex(&self) -> (r: String)
        ensures
            r@ == seq!['0', 'x'] + hex_of(self.0@),
    {
        let mut s = String::from_str("0x");
        proof { reveal_strlit("0x"); }
        let h = encode(self.0.as_slice());
        s.append(h.as_str());
        assert(s@ =~= seq!['0', 'x'] + hex_of(self.0@));
        s
    }
}

impl TxHash {
    /// `0x` followed by the hash in lowercase hexadecimal.
    pub fn to_hex(&self) -> (r: String)
        ensures
            r@ == seq!['0', 'x'] + hex_of(self.0@),
    {
        let mut s = String::from_str("0x");
        proof { reveal_strlit("0x"); }
        let h = encode(self.0.as_slice());
        s.append(h.as_str());
        assert(s@ =~= seq!['0', 'x'] + hex_of(self.0@));
        s
    }
}

} // verus!
