//! What the explorer's routes decide: what an identifier names, and what
//! each page holds.

pub mod neb;
pub mod tx;
pub mod utils;

use vstd::prelude::*;
use vstd::utf8::encode_utf8;
use crate::contract::{compile_and_verify, verified_abi, ContractError, ErrorKind, SolcJson};
use crate::db::{ContractRecord, ContractRecordView, IndexStore, StoreView};
use crate::render::{page, page_text};
use crate::text::{parse_u64, parsed_u64};
use crate::types::{hex_to_addr, hex_to_h256, prefixed_bytes, Address, H256};

verus! {

/// What an identifier in a route names.
#[derive(Clone, Copy, Debug, PartialEq, Eq)]
pub enum Id {
    Addr(Address),
    Tx(H256),
    Block(u64),
}

/// Whether `r` is what `id` names. An identifier of 42 bytes is an
/// address or nothing, one of 66 bytes a transaction hash or nothing, both
/// written in hexadecimal after `0x`; any other is a block number in
/// decimal, or nothing.
pub open spec fn names(id: Seq<char>, r: Option<Id>) -> bool {
    let len = encode_utf8(id).len() as usize;
    if len == 42 {
        match r {
            Some(Id::Addr(address)) => prefixed_bytes(id, 20) == Some(address.0@),
            Some(_) => false,
            None => prefixed_bytes(id, 20) is None,
        }
    } else if len == 66 {
        match r {
            Some(Id::Tx(hash)) => prefixed_bytes(id, 32) == Some(hash.0@),
            Some(_) => false,
            None => prefixed_bytes(id, 32) is None,
        }
    } else {
        match r {
            Some(Id::Block(n)) => parsed_u64(id) == Some(n),
            Some(_) => false,
            None => parsed_u64(id) is None,
        }
    }
}

impl Id {
    /// What `id` names.
    pub fn from(id: &str) -> (r: Option<Id>)
        ensures
            names(id@, r),
    {
        if id.len() == 42 {
            match hex_to_addr(id) {
                Some(address) => Some(Id::Addr(address)),
                None => None,
            }
        } else if id.len() == 66 {
            match hex_to_h256(id) {
                Some(hash) => Some(Id::Tx(hash)),
                None => None,
            }
        } else {
            match parse_u64(id) {
                Some(n) => Some(Id::Block(n)),
                None => None,
            }
        }
    }
}

/// The plain page that shows `innerhtml`: a message, in a fixed-width
/// font, with its blanks kept and its underscores shown as blanks.
pub fn error_page(innerhtml: &str) -> (html: String)
    ensures
        html@ == page_text(innerhtml@),
{
    page(innerhtml)
}

/// Why a contract was not registered.
#[derive(Debug)]
pub enum PostError {
    /// The identifier names no address.
    BadInput,
    /// The deployed code could not be verified.
    Contract(ContractError),
}

/// The address that `id` names, if it names one.
pub open spec fn address_named(id: Seq<char>) -> Option<Address> {
    if encode_utf8(id).len() as usize == 42 {
        match prefixed_bytes(id, 20) {
            Some(bytes) => Some(address_of(bytes)),
            None => None,
        }
    } else {
        None
    }
}

/// The address that holds `bytes`.
pub closed spec fn address_of(bytes: Seq<u8>) -> Address {
    choose|address: Address| address.0@ == bytes
}

/// An address is the address that holds its bytes.
pub proof fn lemma_address_of(address: Address)
    ensures
        address_of(address.0@) == address,
{
    let chosen = address_of(address.0@);
    assert(chosen.0@ == address.0@);
    assert(chosen.0 =~= address.0);
}

/// The address that `id` names, if it names one: the contract that a
/// posted source is to be verified for.
pub fn contract_address(id: &str) -> (r: Option<Address>)
    ensures
        r == address_named(id@),
{
    match Id::from(id) {
        Some(Id::Addr(address)) => {
            proof {
                lemma_address_of(address);
            }
            Some(address)
        },
        _ => None,
    }
}

/// The store after a contract was posted for the address named by `id`,
/// where `verified` is what verifying the deployed code gave: the store
/// with the contract's record registered where the code is the
/// contract's, and the store as it was otherwise.
pub open spec fn after_post(
    store: StoreView,
    id: Seq<char>,
    source: Seq<char>,
    compiler: Seq<char>,
    optimized: bool,
    name: Seq<char>,
    verified: Result<Seq<char>, ErrorKind>,
) -> StoreView {
    match (address_named(id), verified) {
        (Some(addr), Ok(abi)) => store.register(
            addr,
            ContractRecordView {
                source,
                compiler,
                optimized,
                name,
                abi,
                constructor: Seq::empty(),
            },
        ),
        _ => store,
    }
}

/// What posting a contract answers: the path of the address's page where
/// the contract was registered, and else why it was not.
pub open spec fn post_answer(id: Seq<char>, verified: Result<Seq<char>, ErrorKind>) -> Result<Seq<char>, Option<ErrorKind>> {
    match (address_named(id), verified) {
        (None, _) => Err(None),
        (Some(_), Ok(_)) => Ok("/"@ + id),
        (Some(_), Err(kind)) => Err(Some(kind)),
    }
}

/// Verifies the code `code`, deployed at the address named by `id`,
/// against the compiler's output for contract `contract_name` of the
/// source file `input`, and registers the contract where they agree. An
/// `id` that names no address is bad input, and nothing is looked at.
pub fn post_contract(
    db: &mut IndexStore,
    id: &str,
    contract_source: &str,
    contract_compiler: &str,
    contract_optimized: bool,
    contract_name: &str,
    compiled: &SolcJson,
    input: &str,
    code: &[u8],
) -> (r: Result<String, PostError>)
    requires
        old(db).wf(),
    ensures
        final(db).wf(),
        final(db)@ == after_post(
            old(db)@,
            id@,
            contract_source@,
            contract_compiler@,
            contract_optimized,
            contract_name@,
            verified_abi(*compiled, input@, contract_name@, code@),
        ),
        match r {
            Ok(path) => Ok::<Seq<char>, Option<ErrorKind>>(path@) == post_answer(
                id@,
                verified_abi(*compiled, input@, contract_name@, code@),
            ),
            Err(PostError::BadInput) => post_answer(
                id@,
                verified_abi(*compiled, input@, contract_name@, code@),
            ) == Err::<Seq<char>, Option<ErrorKind>>(None),
            Err(PostError::Contract(e)) => post_answer(
                id@,
                verified_abi(*compiled, input@, contract_name@, code@),
            ) == Err::<Seq<char>, Option<ErrorKind>>(Some(e.kind_of())),
        },
{
    let addr = match contract_address(id) {
        Some(addr) => addr,
        None => {
            return Err(PostError::BadInput);
        },
    };
    match compile_and_verify(compiled, input, contract_name, code) {
        Ok(abi) => {
            db.set_contract(
                addr,
                ContractRecord {
                    source: contract_source.to_owned(),
                    compiler: contract_compiler.to_owned(),
                    optimized: contract_optimized,
                    name: contract_name.to_owned(),
                    abi,
                    constructor: Vec::new(),
                },
            );
            let mut path = "/".to_owned();
            path.append(id);
            Ok(path)
        },
        Err(e) => Err(PostError::Contract(e)),
    }
}

} // verus!
