//! Stream updates of the ledger node and what the indexer keeps of them.

pub mod bu;
pub mod events;

use crate::db::mappers::blocks_microblocks::{shown_height, to_shown_height};
use crate::text::owned;
use crate::waves::events::{
    Append, BlockchainUpdated, Body, Rollback, StateUpdate, SubscribeEvent, Update,
};
use vstd::prelude::*;

verus! {

/// The Base58 text of a byte string, in the alphabet that the ledger uses.
pub uninterp spec fn base58(bytes: Seq<u8>) -> Seq<char>;

/// `bs58::encode(..).into_string()`: the text that it gives is a function of
/// the bytes alone.
#[verifier::external_body]
pub(crate) fn base58_encode(bytes: &Vec<u8>) -> (s: String)
    ensures
        s@ == base58(bytes@),
{
    bs58::encode(bytes).into_string()
}

/// Kind of a block record and of the update it came from.
#[derive(Clone, Copy, Debug, PartialEq, Eq, Structural)]
pub enum BlockType {
    Block,
    MicroBlock,
    Rollback,
    EMPTY,
}

impl BlockType {
    /// The name of the kind in the ledger.
    pub fn db_name(&self) -> (r: &'static str)
        ensures
            r@ == match *self {
                BlockType::Block => "block"@,
                BlockType::MicroBlock => "microblock"@,
                BlockType::Rollback => "rollback"@,
                BlockType::EMPTY => "EMPTY"@,
            },
    {
        match self {
            BlockType::Block => "block",
            BlockType::MicroBlock => "microblock",
            BlockType::Rollback => "rollback",
            BlockType::EMPTY => "EMPTY",
        }
    }

    /// The variant's name.
    pub fn to_string(&self) -> (r: String)
        ensures
            r@ == match *self {
                BlockType::Block => "Block"@,
                BlockType::MicroBlock => "MicroBlock"@,
                BlockType::Rollback => "Rollback"@,
                BlockType::EMPTY => "EMPTY"@,
            },
    {
        match self {
            BlockType::Block => owned("Block"),
            BlockType::MicroBlock => owned("MicroBlock"),
            BlockType::Rollback => owned("Rollback"),
            BlockType::EMPTY => owned("EMPTY"),
        }
    }
}

/// One update of the stream, as the analyzers read it.
#[derive(Clone, Debug)]
pub struct BlockchainUpdateInfo {
    pub uid: Option<i64>,
    pub height: Option<u32>,
    pub id: Option<String>,
    pub timestamp: Option<i64>,
    pub reference_block_id: Option<String>,
    pub state_updates: Option<StateUpdate>,
    pub transaction_ids: Vec<Vec<u8>>,
    pub transaction_state_updates: Vec<StateUpdate>,
    pub block_type: BlockType,
    pub rollback_data: Option<Rollback>,
}

/// Whether an event can be read: a block append carries its block, a
/// microblock append its signed microblock and the microblock in it.
pub open spec fn readable(event: Option<SubscribeEvent>) -> bool {
    match event {
        Some(SubscribeEvent { update: Some(bu) }) => match bu.update {
            Some(Update::Append(a)) => match a.body {
                Some(Body::Block(b)) => b.block is Some,
                Some(Body::MicroBlock(m)) => m.micro_block is Some
                    && m.micro_block->0.micro_block is Some,
                None => true,
            },
            _ => true,
        },
        _ => true,
    }
}

/// Tests whether an event can be read.
pub fn is_readable(event: &Option<SubscribeEvent>) -> (b: bool)
    ensures
        b == readable(*event),
{
    match event {
        Some(SubscribeEvent { update: Some(bu) }) => match &bu.update {
            Some(Update::Append(a)) => match &a.body {
                Some(Body::Block(b)) => b.block.is_some(),
                Some(Body::MicroBlock(m)) => match &m.micro_block {
                    Some(signed) => signed.micro_block.is_some(),
                    None => false,
                },
                None => true,
            },
            _ => true,
        },
        _ => true,
    }
}

/// The text of an optional identifier.
pub open spec fn text_of(s: Option<String>) -> Option<Seq<char>> {
    match s {
        Some(t) => Some(t@),
        None => None,
    }
}

impl BlockchainUpdateInfo {
    /// An update that says nothing.
    pub open spec fn is_default(&self) -> bool {
        &&& self.uid is None
        &&& self.height is None
        &&& self.id is None
        &&& self.timestamp is None
        &&& self.reference_block_id is None
        &&& self.state_updates is None
        &&& self.transaction_ids@.len() == 0
        &&& self.transaction_state_updates@.len() == 0
        &&& self.block_type == BlockType::EMPTY
        &&& self.rollback_data is None
    }

    pub fn default() -> (r: Self)
        ensures
            r.is_default(),
    {
        BlockchainUpdateInfo {
            uid: None,
            height: None,
            id: None,
            timestamp: None,
            reference_block_id: None,
            block_type: BlockType::EMPTY,
            state_updates: None,
            transaction_ids: Vec::new(),
            transaction_state_updates: Vec::new(),
            rollback_data: None,
        }
    }

    /// What `from` makes of one blockchain update.
    pub open spec fn reads(&self, bu: BlockchainUpdated) -> bool {
        &&& self.uid is None
        &&& self.height == Some(shown_height(bu.height))
        &&& match bu.update {
            Some(Update::Append(a)) => {
                &&& self.state_updates == a.state_update
                &&& self.transaction_ids == a.transaction_ids
                &&& self.transaction_state_updates == a.transaction_state_updates
                &&& self.rollback_data is None
                &&& match a.body {
                    Some(Body::Block(b)) => {
                        &&& self.block_type == BlockType::Block
                        &&& text_of(self.id) == Some(base58(bu.id@))
                        &&& match b.block->0.header {
                            Some(h) => self.timestamp == Some(h.timestamp) && text_of(
                                self.reference_block_id,
                            ) == Some(base58(h.reference@)),
                            None => self.timestamp is None && self.reference_block_id is None,
                        }
                    },
                    Some(Body::MicroBlock(m)) => {
                        &&& self.block_type == BlockType::MicroBlock
                        &&& text_of(self.id) == Some(base58(m.micro_block->0.total_block_id@))
                        &&& self.timestamp is None
                        &&& self.reference_block_id is None
                    },
                    None => {
                        &&& self.block_type == BlockType::EMPTY
                        &&& text_of(self.id) == Some(base58(bu.id@))
                        &&& self.timestamp is None
                        &&& self.reference_block_id is None
                    },
                }
            },
            Some(Update::Rollback(r)) => {
                &&& self.block_type == BlockType::Rollback
                &&& self.rollback_data == Some(r)
                &&& text_of(self.id) == Some(base58(bu.id@))
                &&& self.timestamp is None
                &&& self.reference_block_id is None
                &&& self.state_updates is None
                &&& self.transaction_ids@.len() == 0
                &&& self.transaction_state_updates@.len() == 0
            },
            None => {
                &&& self.block_type == BlockType::EMPTY
                &&& text_of(self.id) == Some(base58(bu.id@))
                &&& self.timestamp is None
                &&& self.reference_block_id is None
                &&& self.state_updates is None
                &&& self.transaction_ids@.len() == 0
                &&& self.transaction_state_updates@.len() == 0
                &&& self.rollback_data is None
            },
        }
    }

    /// Reads one event of the stream. Identifiers become Base58 text; a
    /// microblock is known by the identifier of the block it completes.
    pub fn from(event: Option<SubscribeEvent>) -> (r: Self)
        requires
            readable(event),
        ensures
            match event {
                Some(SubscribeEvent { update: Some(bu) }) => r.reads(bu),
                _ => r.is_default(),
            },
    {
        let mut block_data = BlockchainUpdateInfo::default();
        match event {
            Some(SubscribeEvent { update: Some(bu) }) => {
                let BlockchainUpdated { id, height, update } = bu;
                block_data.height = Some(to_shown_height(height));
                block_data.id = Some(base58_encode(&id));
                match update {
                    Some(Update::Append(a)) => {
                        let Append {
                            state_update,
                            body,
                            transaction_ids,
                            transaction_state_updates,
                        } = a;
                        block_data.state_updates = state_update;
                        block_data.transaction_ids = transaction_ids;
                        block_data.transaction_state_updates = transaction_state_updates;
                        match body {
                            Some(Body::Block(b)) => {
                                block_data.block_type = BlockType::Block;
                                let block = b.block.unwrap();
                                match &block.header {
                                    Some(h) => {
                                        block_data.timestamp = Some(h.timestamp);
                                        block_data.reference_block_id = Some(
                                            base58_encode(&h.reference),
                                        );
                                    },
                                    None => {},
                                }
                            },
                            Some(Body::MicroBlock(m)) => {
                                block_data.block_type = BlockType::MicroBlock;
                                let micro_block = m.micro_block.unwrap();
                                block_data.id = Some(base58_encode(&micro_block.total_block_id));
                            },
                            None => {},
                        }
                    },
                    Some(Update::Rollback(r)) => {
                        block_data.rollback_data = Some(r);
                        block_data.block_type = BlockType::Rollback;
                    },
                    None => {},
                }
            },
            _ => {},
        };
        block_data
    }
}

/// A ledger address as Base58 text.
#[derive(Debug)]
pub struct Address(pub String);

/// The bytes of a public key.
#[derive(Debug)]
pub struct RawPublicKey(pub Vec<u8>);

/// The bytes of an address between its two leading bytes and its checksum.
#[derive(Debug)]
pub struct RawAddress(pub Vec<u8>);

#[verifier::external_type_specification]
#[verifier::external_body]
pub struct ExBytesMut(bytes::BytesMut);

/// The bytes that a buffer holds, in order.
pub uninterp spec fn buffer_bytes(b: bytes::BytesMut) -> Seq<u8>;

/// The Keccak-256 digest of a message.
pub uninterp spec fn keccak256_digest(message: Seq<u8>) -> Seq<u8>;

/// The BLAKE2b digest of 32 bytes of a message.
pub uninterp spec fn blake2b256_digest(message: Seq<u8>) -> Seq<u8>;

/// `BytesMut::with_capacity`: a buffer that holds nothing.
#[verifier::external_body]
fn buffer_with_capacity(capacity: usize) -> (b: bytes::BytesMut)
    requires
        capacity <= 0x7fff_ffff,
    ensures
        buffer_bytes(b).len() == 0,
{
    bytes::BytesMut::with_capacity(capacity)
}

/// `BufMut::put_u8` on a `BytesMut`: the byte is appended.
#[verifier::external_body]
fn buffer_put_u8(b: &mut bytes::BytesMut, value: u8)
    ensures
        buffer_bytes(*final(b)) == buffer_bytes(*old(b)).push(value),
{
    bytes::BufMut::put_u8(b, value)
}

/// `BufMut::put_slice` on a `BytesMut`: the bytes are appended in order.
#[verifier::external_body]
fn buffer_put_slice(b: &mut bytes::BytesMut, src: &[u8])
    ensures
        buffer_bytes(*final(b)) == buffer_bytes(*old(b)) + src@,
{
    bytes::BufMut::put_slice(b, src)
}

/// The bytes of a `BytesMut`, copied out as they stand.
#[verifier::external_body]
fn buffer_to_vec(b: &bytes::BytesMut) -> (v: Vec<u8>)
    ensures
        v@ == buffer_bytes(*b),
{
    b.to_vec()
}

/// `sha3::Keccak256` over one message: a function of the message alone,
/// 32 bytes long.
#[verifier::external_body]
fn keccak256(message: &[u8]) -> (r: Vec<u8>)
    ensures
        r@ == keccak256_digest(message@),
        r@.len() == 32,
{
    let mut hasher = <sha3::Keccak256 as sha3::Digest>::new();
    sha3::Digest::input(&mut hasher, message);
    sha3::Digest::result(hasher).to_vec()
}

/// `blake2::VarBlake2b` with an output of 32 bytes over one message: a
/// function of the message alone, 32 bytes long.
#[verifier::external_body]
fn blake2b256(message: &[u8]) -> (r: Vec<u8>)
    ensures
        r@ == blake2b256_digest(message@),
        r@.len() == 32,
{
    let mut hasher = <blake2::VarBlake2b as blake2::digest::VariableOutput>::new(32).unwrap();
    blake2::digest::Input::input(&mut hasher, message);
    blake2::digest::VariableOutput::vec_result(hasher)
}

/// The first bytes of a vector.
fn prefix(v: &Vec<u8>, n: usize) -> (r: Vec<u8>)
    requires
        n <= v@.len(),
    ensures
        r@ == v@.subrange(0, n as int),
{
    let mut r: Vec<u8> = Vec::new();
    let mut i: usize = 0;
    while i < n
        invariant
            i <= n <= v@.len(),
            r@ == v@.subrange(0, i as int),
        decreases n - i,
    {
        r.push(v[i]);
        assert(v@.subrange(0, i as int).push(v@[i as int]) =~= v@.subrange(0, i + 1));
        i = i + 1;
    }
    r
}

/// Version byte of every address.
pub const ADDRESS_VERSION: u8 = 1;

/// The checksum of an address: the first four bytes of the Keccak-256
/// digest of the BLAKE2b digest of its first 22 bytes.
pub open spec fn checksum(body: Seq<u8>) -> Seq<u8> {
    keccak256_digest(blake2b256_digest(body.subrange(0, 22))).subrange(0, 4)
}

/// The bytes of the address of a chain with a given body: version, chain,
/// body, checksum.
pub open spec fn address_bytes(body: Seq<u8>, chain_id: u8) -> Seq<u8> {
    let head = seq![ADDRESS_VERSION, chain_id] + body;
    head + checksum(head)
}

/// The body of the address of a public key: the first 20 bytes of the
/// Keccak-256 digest of the BLAKE2b digest of the key.
pub open spec fn key_hash(key: Seq<u8>) -> Seq<u8> {
    keccak256_digest(blake2b256_digest(key)).subrange(0, 20)
}

fn assemble(body: &Vec<u8>, chain_id: u8) -> (r: Address)
    requires
        body@.len() >= 20,
    ensures
        r.0@ == base58(address_bytes(body@, chain_id)),
{
    let mut addr = buffer_with_capacity(26);
    buffer_put_u8(&mut addr, ADDRESS_VERSION);
    buffer_put_u8(&mut addr, chain_id);
    buffer_put_slice(&mut addr, body.as_slice());
    let ghost head = seq![ADDRESS_VERSION, chain_id] + body@;
    assert(buffer_bytes(addr) =~= head);
    let first = prefix(&buffer_to_vec(&addr), 22);
    let inner = blake2b256(first.as_slice());
    let outer = keccak256(inner.as_slice());
    let chks = prefix(&outer, 4);
    buffer_put_slice(&mut addr, chks.as_slice());
    Address(base58_encode(&buffer_to_vec(&addr)))
}

impl Address {
    /// The address of a chain whose body is given.
    pub fn from_raw_address(data: (RawAddress, u8)) -> (r: Address)
        requires
            data.0.0@.len() >= 20,
        ensures
            r.0@ == base58(address_bytes(data.0.0@, data.1)),
    {
        let (RawAddress(address), chain_id) = data;
        assemble(&address, chain_id)
    }

    /// The address of a public key on a chain.
    pub fn from_public_key(data: (RawPublicKey, u8)) -> (r: Address)
        ensures
            r.0@ == base58(address_bytes(key_hash(data.0.0@), data.1)),
    {
        let (RawPublicKey(pk), chain_id) = data;
        let inner = blake2b256(pk.as_slice());
        let outer = keccak256(inner.as_slice());
        let pkh = prefix(&outer, 20);
        assemble(&pkh, chain_id)
    }
}

} // verus!
