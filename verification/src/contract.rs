//! Contract verification and decoding: whether compiled code is the code
//! that is deployed, and what a call or a log says under a contract's
//! interface description.

use vstd::prelude::*;
use tiny_keccak::Hasher;
use rustc_hex::{FromHex, ToHex};
use vstd::slice::slice_subrange;
use vstd::utf8::encode_utf8;
use crate::abi::{
    abi_decoded, abi_events, abi_functions, abi_log_values, decode_values, event_views,
    function_views, is_plain_abi_text, is_plain_type_name, load_events, load_functions,
    log_value_views, parse_log, plain_abi_text, plain_event, plain_type_name, plain_type_names,
    AbiEvent, AbiEventView, AbiFunction, AbiFunctionView, LogValue,
};
use crate::types::{Log, H256};
use crate::text::{
    decimal, decimal_digits, join, joined, lemma_filter_keeps_all, push_char, texts,
};

verus! {

/// The error of `rustc_hex` for text that is no hexadecimal encoding.
#[verifier::external_type_specification]
#[verifier::external_body]
pub struct HexErrorDecl(rustc_hex::FromHexError);

/// Why a contract could not be verified, or a call or log not decoded.
#[derive(Debug)]
pub enum ContractError {
    /// The deployed code is too short to be compiler output.
    ContractInvalid,
    /// The compiler output holds no contract of the given name.
    ContractNotFound,
    /// No function of the interface has the selector of the call.
    FunctionNotFound,
    /// The compiled code is not the deployed code.
    CodeDoesNotMatch,
    /// No event of the interface has the signature of the log.
    EventNotFound,
    /// The interface description holds a type name of a shape that the
    /// decoder does not take.
    AbiRejected,
    /// The compiled code is no hexadecimal text.
    FromHex(rustc_hex::FromHexError),
    /// The interface description or the encoded data is malformed.
    EthAbi(ethabi::Error),
}

/// The kind of a [`ContractError`]: the error without what an outside
/// decoder said of it.
#[derive(Clone, Copy, Debug, PartialEq, Eq)]
pub enum ErrorKind {
    ContractInvalid,
    ContractNotFound,
    FunctionNotFound,
    CodeDoesNotMatch,
    EventNotFound,
    AbiRejected,
    FromHex,
    EthAbi,
}

impl ContractError {
    /// The kind of the error.
    pub open spec fn kind_of(self) -> ErrorKind {
        match self {
            ContractError::ContractInvalid => ErrorKind::ContractInvalid,
            ContractError::ContractNotFound => ErrorKind::ContractNotFound,
            ContractError::FunctionNotFound => ErrorKind::FunctionNotFound,
            ContractError::CodeDoesNotMatch => ErrorKind::CodeDoesNotMatch,
            ContractError::EventNotFound => ErrorKind::EventNotFound,
            ContractError::AbiRejected => ErrorKind::AbiRejected,
            ContractError::FromHex(_) => ErrorKind::FromHex,
            ContractError::EthAbi(_) => ErrorKind::EthAbi,
        }
    }

    /// The kind of the error.
    pub fn kind(&self) -> (kind: ErrorKind)
        ensures
            kind == self.kind_of(),
    {
        match self {
            ContractError::ContractInvalid => ErrorKind::ContractInvalid,
            ContractError::ContractNotFound => ErrorKind::ContractNotFound,
            ContractError::FunctionNotFound => ErrorKind::FunctionNotFound,
            ContractError::CodeDoesNotMatch => ErrorKind::CodeDoesNotMatch,
            ContractError::EventNotFound => ErrorKind::EventNotFound,
            ContractError::AbiRejected => ErrorKind::AbiRejected,
            ContractError::FromHex(_) => ErrorKind::FromHex,
            ContractError::EthAbi(_) => ErrorKind::EthAbi,
        }
    }
}

/// A check's result, with the error by its kind.
pub open spec fn checked(r: Result<(), ContractError>) -> Result<(), ErrorKind> {
    match r {
        Ok(_) => Ok(()),
        Err(e) => Err(e.kind_of()),
    }
}

/// A text or an error, with the text by its view and the error by its
/// kind.
pub open spec fn text_or_kind(r: Result<String, ContractError>) -> Result<Seq<char>, ErrorKind> {
    match r {
        Ok(text) => Ok(text@),
        Err(e) => Err(e.kind_of()),
    }
}

/// Lines or an error, with the lines by their views and the error by its
/// kind.
pub open spec fn lines_or_kind(r: Result<Vec<String>, ContractError>) -> Result<Seq<Seq<char>>, ErrorKind> {
    match r {
        Ok(lines) => Ok(texts(lines@)),
        Err(e) => Err(e.kind_of()),
    }
}

/// The first place in `s` at which `p` holds.
pub open spec fn first_index<T>(s: Seq<T>, p: spec_fn(T) -> bool) -> Option<int>
    decreases s.len(),
{
    if s.len() == 0 {
        None
    } else if p(s[0]) {
        Some(0)
    } else {
        match first_index(s.drop_first(), p) {
            Some(k) => Some(k + 1),
            None => None,
        }
    }
}

/// [`first_index`] is the place before which `p` holds nowhere and at
/// which it holds, and `None` where it holds nowhere.
pub proof fn lemma_first_index<T>(s: Seq<T>, p: spec_fn(T) -> bool)
    ensures
        match first_index(s, p) {
            Some(k) => 0 <= k < s.len() && p(s[k]) && forall|j: int| 0 <= j < k ==> !p(#[trigger] s[j]),
            None => forall|j: int| 0 <= j < s.len() ==> !p(#[trigger] s[j]),
        },
    decreases s.len(),
{
    if s.len() > 0 && !p(s[0]) {
        let rest = s.drop_first();
        lemma_first_index(rest, p);
        match first_index(rest, p) {
            Some(k) => {
                assert(rest[k] == s[k + 1]);
                assert forall|j: int| 0 <= j < k + 1 implies !p(#[trigger] s[j]) by {
                    if j > 0 {
                        assert(rest[j - 1] == s[j]);
                    }
                }
            },
            None => {
                assert forall|j: int| 0 <= j < s.len() implies !p(#[trigger] s[j]) by {
                    if j > 0 {
                        assert(rest[j - 1] == s[j]);
                    }
                }
            },
        }
    }
}

/// A place before which `p` holds nowhere and at which it holds is the
/// [`first_index`]; where `p` holds nowhere there is none.
pub proof fn lemma_first_index_is<T>(s: Seq<T>, p: spec_fn(T) -> bool, found: Option<int>)
    requires
        match found {
            Some(k) => 0 <= k < s.len() && p(s[k]) && forall|j: int| 0 <= j < k ==> !p(#[trigger] s[j]),
            None => forall|j: int| 0 <= j < s.len() ==> !p(#[trigger] s[j]),
        },
    ensures
        first_index(s, p) == found,
{
    lemma_first_index(s, p);
    match (first_index(s, p), found) {
        (Some(a), Some(b)) => {
            if a < b {
                assert(!p(s[a]));
            } else if b < a {
                assert(!p(s[b]));
            }
        },
        (Some(a), None) => {
            assert(!p(s[a]));
        },
        (None, Some(b)) => {
            assert(!p(s[b]));
        },
        (None, None) => {},
    }
}

/// One contract of the compiler's output.
#[derive(Clone, Debug)]
pub struct SolcContract {
    /// The interface description, as JSON text.
    pub abi: String,
    /// The runtime code, as hexadecimal text.
    pub binruntime: String,
}

/// The compiler's output: the contracts by their qualified name, in the
/// order in which they are listed, and the compiler's version.
#[derive(Clone, Debug)]
pub struct SolcJson {
    contracts: Vec<(String, SolcContract)>,
    version: String,
}

/// How many bytes at the end of compiled code hold the metadata hash and
/// its two marker bytes. They differ from build to build.
pub const METADATA_LEN: usize = 34;

/// Whether `c` is one of the blanks that hexadecimal text may hold.
pub open spec fn hex_blank(c: char) -> bool {
    c == ' ' || c == '\r' || c == '\n' || c == '\t'
}

/// The value of the hexadecimal digit `c`, of either case.
pub open spec fn hex_value(c: char) -> Option<int> {
    if '0' <= c <= '9' {
        Some(c as int - '0' as int)
    } else if 'a' <= c <= 'f' {
        Some(c as int - 'a' as int + 10)
    } else if 'A' <= c <= 'F' {
        Some(c as int - 'A' as int + 10)
    } else {
        None
    }
}

/// `text` without its blanks.
pub open spec fn hex_digits(text: Seq<char>) -> Seq<char> {
    text.filter(|c: char| !hex_blank(c))
}

/// Whether `text` encodes bytes: blanks apart, an even number of
/// hexadecimal digits and nothing else.
pub open spec fn hex_well_formed(text: Seq<char>) -> bool {
    let digits = hex_digits(text);
    &&& digits.len() % 2 == 0
    &&& forall|i: int| 0 <= i < digits.len() ==> hex_value(#[trigger] digits[i]) is Some
}

/// The bytes that `text` encodes, two digits to the byte, the high one
/// first.
pub open spec fn hex_bytes(text: Seq<char>) -> Seq<u8> {
    let digits = hex_digits(text);
    Seq::new(
        (digits.len() / 2) as nat,
        |i: int| (16 * hex_value(digits[2 * i])->0 + hex_value(digits[2 * i + 1])->0) as u8,
    )
}

/// The lower-case hexadecimal digit of value `v`.
pub open spec fn hex_digit(v: int) -> char {
    if v < 10 {
        ('0' as int + v) as char
    } else {
        ('a' as int + v - 10) as char
    }
}

/// The hexadecimal encoding of `bytes`: two lower-case digits to the byte,
/// the high one first.
pub open spec fn hex_text(bytes: Seq<u8>) -> Seq<char> {
    Seq::new(
        2 * bytes.len(),
        |i: int|
            if i % 2 == 0 {
                hex_digit(bytes[i / 2] as int / 16)
            } else {
                hex_digit(bytes[i / 2] as int % 16)
            },
    )
}

/// Hexadecimal text reads back as the bytes that it was written from.
pub proof fn lemma_hex_round_trip(bytes: Seq<u8>)
    ensures
        hex_well_formed(hex_text(bytes)),
        hex_bytes(hex_text(bytes)) == bytes,
{
    let text = hex_text(bytes);
    assert forall|v: int| 0 <= v < 16 implies !hex_blank(#[trigger] hex_digit(v)) && hex_value(
        hex_digit(v),
    ) == Some(v) by {}
    assert forall|i: int| 0 <= i < text.len() implies !hex_blank(#[trigger] text[i]) && hex_value(
        text[i],
    ) is Some by {
        let v = if i % 2 == 0 {
            bytes[i / 2] as int / 16
        } else {
            bytes[i / 2] as int % 16
        };
        assert(text[i] == hex_digit(v));
    }
    lemma_filter_keeps_all(text, |c: char| !hex_blank(c));
    assert(hex_digits(text) == text);
    assert forall|i: int| 0 <= i < bytes.len() implies #[trigger] hex_bytes(text)[i] == bytes[i] by {
        let hi = bytes[i] as int / 16;
        let lo = bytes[i] as int % 16;
        assert(text[2 * i] == hex_digit(hi));
        assert(text[2 * i + 1] == hex_digit(lo));
        assert(hex_value(hex_digit(hi)) == Some(hi));
        assert(hex_value(hex_digit(lo)) == Some(lo));
    }
    assert(hex_bytes(text) =~= bytes);
}

/// Decodes hexadecimal text, by `rustc_hex::FromHex::from_hex`. That
/// function walks the text once, skips blanks, takes digits of either case
/// two to the byte, and fails on any other character and on a digit left
/// over at the end.
#[verifier::external_body]
pub(crate) fn hex_decode(text: &str) -> (r: Result<Vec<u8>, rustc_hex::FromHexError>)
    ensures
        r is Ok <==> hex_well_formed(text@),
        r is Ok ==> r->Ok_0@ == hex_bytes(text@),
{
    text.from_hex::<Vec<u8>>()
}

/// Encodes bytes as hexadecimal text, by `rustc_hex::ToHex::to_hex`, which
/// writes for each byte its high and then its low four bits as one
/// lower-case digit each.
#[verifier::external_body]
pub(crate) fn hex_encode(bytes: &[u8]) -> (text: String)
    ensures
        text@ == hex_text(bytes@),
{
    bytes.to_hex::<String>()
}

/// The Keccak-256 digest of a byte string.
pub uninterp spec fn keccak256_digest(data: Seq<u8>) -> Seq<u8>;

/// The Keccak-256 digest of `data`, by `tiny_keccak`: a `Keccak::v256`
/// hasher that absorbs `data` and is squeezed into 32 bytes. The contract
/// claims that the digest depends on the data alone, and gives it the
/// name [`keccak256_digest`].
#[verifier::external_body]
pub(crate) fn keccak256(data: &[u8]) -> (digest: [u8; 32])
    ensures
        digest@ == keccak256_digest(data@),
{
    let mut sponge = tiny_keccak::Keccak::v256();
    sponge.update(data);
    let mut digest = [0u8; 32];
    sponge.finalize(&mut digest);
    digest
}

/// What comparing compiled code with deployed code gives. Deployed code
/// shorter than the metadata is invalid. Otherwise the two must have one
/// length and the same bytes before the metadata.
pub open spec fn bytecode_verdict(compiled: Seq<u8>, deployed: Seq<u8>) -> Result<(), ErrorKind> {
    if deployed.len() < METADATA_LEN {
        Err(ErrorKind::ContractInvalid)
    } else if compiled.len() != deployed.len() {
        Err(ErrorKind::CodeDoesNotMatch)
    } else if compiled.take(deployed.len() - METADATA_LEN) != deployed.take(
        deployed.len() - METADATA_LEN,
    ) {
        Err(ErrorKind::CodeDoesNotMatch)
    } else {
        Ok(())
    }
}

/// Compares compiled code with deployed code, the trailing metadata of
/// both left aside.
pub fn compare_bytecode(compiled: &[u8], deployed: &[u8]) -> (r: Result<(), ContractError>)
    ensures
        checked(r) == bytecode_verdict(compiled@, deployed@),
{
    if deployed.len() < METADATA_LEN {
        return Err(ContractError::ContractInvalid);
    }
    if compiled.len() != deployed.len() {
        return Err(ContractError::CodeDoesNotMatch);
    }
    let body: usize = deployed.len() - METADATA_LEN;
    let mut i: usize = 0;
    while i < body
        invariant
            i <= body,
            body == deployed@.len() - METADATA_LEN,
            compiled@.len() == deployed@.len(),
            forall|j: int| 0 <= j < i ==> compiled@[j] == deployed@[j],
        decreases body - i,
    {
        if compiled[i] != deployed[i] {
            proof {
                assert(compiled@.take(body as int)[i as int] != deployed@.take(body as int)[i as int]);
            }
            return Err(ContractError::CodeDoesNotMatch);
        }
        i += 1;
    }
    proof {
        assert(compiled@.take(body as int) =~= deployed@.take(body as int));
    }
    Ok(())
}

/// Code compares as equal whatever its metadata: two byte strings of one
/// length, 34 at least, that agree before their last 34 bytes are equal
/// code; two that differ at a place before the last 34 bytes are not; and
/// deployed code of less than 34 bytes is invalid whatever it holds and
/// whatever it is compared with.
pub proof fn lemma_metadata_is_ignored(compiled: Seq<u8>, deployed: Seq<u8>)
    ensures
        deployed.len() < 34 ==> bytecode_verdict(compiled, deployed) == Err::<(), ErrorKind>(
            ErrorKind::ContractInvalid,
        ),
        compiled.len() == deployed.len() && deployed.len() >= 34 && (forall|i: int|
            0 <= i < deployed.len() - 34 ==> compiled[i] == deployed[i]) ==> bytecode_verdict(
            compiled,
            deployed,
        ) == Ok::<(), ErrorKind>(()),
        compiled.len() == deployed.len() && deployed.len() >= 34 && (exists|i: int|
            0 <= i < deployed.len() - 34 && compiled[i] != deployed[i]) ==> bytecode_verdict(
            compiled,
            deployed,
        ) == Err::<(), ErrorKind>(ErrorKind::CodeDoesNotMatch),
{
    if compiled.len() == deployed.len() && deployed.len() >= 34 {
        let body = deployed.len() - 34;
        if forall|i: int| 0 <= i < body ==> compiled[i] == deployed[i] {
            assert(compiled.take(body) =~= deployed.take(body));
        }
        if exists|i: int| 0 <= i < body && compiled[i] != deployed[i] {
            let i = choose|i: int| 0 <= i < body && compiled[i] != deployed[i];
            assert(compiled.take(body)[i] != deployed.take(body)[i]);
        }
    }
}

/// What checking compiled code, given as text, against deployed code
/// gives. Deployed code shorter than the metadata is invalid, whatever the
/// compiled code is. Otherwise the compiled code must be hexadecimal text,
/// and then the bytes decide.
pub open spec fn code_verdict(binruntime: Seq<char>, code: Seq<u8>) -> Result<(), ErrorKind> {
    if code.len() < METADATA_LEN {
        Err(ErrorKind::ContractInvalid)
    } else if !hex_well_formed(binruntime) {
        Err(ErrorKind::FromHex)
    } else {
        bytecode_verdict(hex_bytes(binruntime), code)
    }
}

/// Checks the runtime code of a compiled contract against deployed code.
pub fn code_equals(contract: &SolcContract, code: &[u8]) -> (r: Result<(), ContractError>)
    ensures
        checked(r) == code_verdict(contract.binruntime@, code@),
{
    if code.len() < METADATA_LEN {
        return Err(ContractError::ContractInvalid);
    }
    match hex_decode(contract.binruntime.as_str()) {
        Ok(binruntime) => compare_bytecode(binruntime.as_slice(), code),
        Err(e) => Err(ContractError::FromHex(e)),
    }
}

impl SolcJson {
    /// The output of compiler `version` with `contracts`, each under its
    /// qualified name.
    pub fn new(contracts: Vec<(String, SolcContract)>, version: String) -> (out: SolcJson)
        ensures
            out.contracts() == contracts@,
            out.version() == version@,
    {
        SolcJson { contracts, version }
    }

    /// The contracts, each under its qualified name.
    pub closed spec fn contracts(&self) -> Seq<(String, SolcContract)> {
        self.contracts@
    }

    /// The compiler's version.
    pub closed spec fn version(&self) -> Seq<char> {
        self.version@
    }

    /// The place of the first contract that stands under `key`.
    pub open spec fn place_of(&self, key: Seq<char>) -> Option<int> {
        first_index(self.contracts(), |entry: (String, SolcContract)| entry.0@ == key)
    }

    /// The first contract that stands under `key`.
    pub fn get(&self, key: &String) -> (found: Option<&SolcContract>)
        ensures
            match found {
                Some(contract) => self.place_of(key@) is Some && *contract
                    == self.contracts()[self.place_of(key@)->0].1,
                None => self.place_of(key@) is None,
            },
    {
        let ghost under = |entry: (String, SolcContract)| entry.0@ == key@;
        let mut i: usize = 0;
        while i < self.contracts.len()
            invariant
                i <= self.contracts@.len(),
                under == |entry: (String, SolcContract)| entry.0@ == key@,
                forall|j: int| 0 <= j < i ==> !under(#[trigger] self.contracts@[j]),
            decreases self.contracts@.len() - i,
        {
            if self.contracts[i].0 == *key {
                proof {
                    lemma_first_index_is(self.contracts@, under, Some(i as int));
                }
                return Some(&self.contracts[i].1);
            }
            i += 1;
        }
        proof {
            lemma_first_index_is(self.contracts@, under, None);
        }
        None
    }

    /// The compiler's version.
    pub fn compiler_version(&self) -> (version: &String)
        ensures
            version@ == self.version(),
    {
        &self.version
    }
}

/// The name under which the compiler lists contract `name` of source file
/// `input`: the file, a colon, the name.
pub open spec fn qualified_name(input: Seq<char>, name: Seq<char>) -> Seq<char> {
    input + seq![':'] + name
}

/// What verifying deployed code against the compiler's output gives: the
/// interface description of the first contract that the output lists
/// under the qualified name, where the code is that contract's. Where the
/// output lists none under the name, the contract is not found; where the
/// code is not the contract's, the error is that of [`code_verdict`].
pub open spec fn verified_abi(compiled: SolcJson, input: Seq<char>, name: Seq<char>, code: Seq<u8>) -> Result<Seq<char>, ErrorKind> {
    match compiled.place_of(qualified_name(input, name)) {
        None => Err(ErrorKind::ContractNotFound),
        Some(i) => match code_verdict(compiled.contracts()[i].1.binruntime@, code) {
            Ok(_) => Ok(compiled.contracts()[i].1.abi@),
            Err(kind) => Err(kind),
        },
    }
}

/// Checks deployed code against the compiler's output for the contract
/// `contractname` of source file `input`, and gives the contract's
/// interface description.
pub fn compile_and_verify(compiled: &SolcJson, input: &str, contractname: &str, code: &[u8]) -> (r:
    Result<String, ContractError>)
    ensures
        text_or_kind(r) == verified_abi(*compiled, input@, contractname@, code@),
{
    let mut key = input.to_owned();
    push_char(&mut key, ':');
    key.append(contractname);
    assert(key@ =~= qualified_name(input@, contractname@));
    match compiled.get(&key) {
        Some(contract) => match code_equals(contract, code) {
            Ok(()) => Ok(contract.abi.clone()),
            Err(e) => Err(e),
        },
        None => Err(ContractError::ContractNotFound),
    }
}

/// How the compiler is run on one source file.
#[derive(Debug)]
pub struct CompilerRun {
    /// The compiler binary.
    pub program: String,
    /// Where the source is written.
    pub input: String,
    /// Where the compiler leaves its output.
    pub output: String,
    /// The compiler's arguments.
    pub args: Vec<String>,
}

/// How compiler `compiler` of directory `solc_path` is run in the working
/// directory `work_dir`: on `contract.sol` there, with the interface
/// description and the runtime code asked for as combined JSON, left in
/// `combined.json` there, and with the optimizer where `optimized`.
pub fn compiler_run(solc_path: &str, compiler: &str, work_dir: &str, optimized: bool) -> (run:
    CompilerRun)
    ensures
        run.program@ == solc_path@ + "/"@ + compiler@,
        run.input@ == work_dir@ + "/contract.sol"@,
        run.output@ == work_dir@ + "/combined.json"@,
        texts(run.args@) == if optimized {
            seq![
                run.input@,
                "-o"@,
                work_dir@,
                "--combined-json"@,
                "abi,bin-runtime"@,
                "--optimize"@,
            ]
        } else {
            seq![run.input@, "-o"@, work_dir@, "--combined-json"@, "abi,bin-runtime"@]
        },
{
    let mut program = solc_path.to_owned();
    program.append("/");
    program.append(compiler);
    let mut input = work_dir.to_owned();
    input.append("/contract.sol");
    let mut output = work_dir.to_owned();
    output.append("/combined.json");
    let mut args: Vec<String> = Vec::new();
    args.push(input.clone());
    args.push("-o".to_owned());
    args.push(work_dir.to_owned());
    args.push("--combined-json".to_owned());
    args.push("abi,bin-runtime".to_owned());
    if optimized {
        args.push("--optimize".to_owned());
    }
    proof {
        if optimized {
            assert(texts(args@) =~= seq![
                input@,
                "-o"@,
                work_dir@,
                "--combined-json"@,
                "abi,bin-runtime"@,
                "--optimize"@,
            ]);
        } else {
            assert(texts(args@) =~= seq![
                input@,
                "-o"@,
                work_dir@,
                "--combined-json"@,
                "abi,bin-runtime"@,
            ]);
        }
    }
    CompilerRun { program, input, output, args }
}

/// The canonical signature of a function or event: its name, then the
/// canonical names of its parameter types between parentheses, with commas
/// between them.
pub open spec fn signature_text(name: Seq<char>, types: Seq<Seq<char>>) -> Seq<char> {
    name + seq!['('] + joined(types, seq![',']) + seq![')']
}

/// The hash of a signature: the Keccak-256 digest of its canonical text
/// in UTF-8.
pub open spec fn signature_hash(name: Seq<char>, types: Seq<Seq<char>>) -> Seq<u8> {
    keccak256_digest(encode_utf8(signature_text(name, types)))
}

/// The selector of a function: the first four bytes of the hash of its
/// signature.
pub open spec fn selector(name: Seq<char>, types: Seq<Seq<char>>) -> Seq<u8> {
    signature_hash(name, types).take(4)
}

/// The hash of the signature of `name` with parameters of the types
/// `params`, each given by its canonical name.
pub fn long_signature(name: &str, params: &[String]) -> (hash: [u8; 32])
    ensures
        hash@ == signature_hash(name@, texts(params@)),
{
    let types = join(params, ",");
    let mut text = name.to_owned();
    text.append("(");
    text.append(types.as_str());
    text.append(")");
    proof {
        reveal_strlit("(");
        reveal_strlit(")");
        reveal_strlit(",");
        assert("("@ =~= seq!['(']);
        assert(")"@ =~= seq![')']);
        assert(","@ =~= seq![',']);
    }
    keccak256(text.as_str().as_bytes())
}

/// The selector of function `name` with parameters of the types `params`,
/// each given by its canonical name.
pub fn short_signature(name: &str, params: &[String]) -> (sig: [u8; 4])
    ensures
        sig@ == selector(name@, texts(params@)),
{
    let hash = long_signature(name, params);
    let sig = [hash[0], hash[1], hash[2], hash[3]];
    assert(sig@ =~= hash@.take(4));
    sig
}

/// The selector is a function of the signature: any two selectors of
/// one name and one list of parameter types are the same four bytes,
/// whenever and wherever they were derived.
pub proof fn lemma_selector_is_stable(name: Seq<char>, types: Seq<Seq<char>>, a: [u8; 4], b: [u8; 4])
    requires
        a@ == selector(name, types),
        b@ == selector(name, types),
    ensures
        a == b,
{
    assert(a =~= b);
}

/// Whether a call with `input` is a call of `f`: the input begins with the
/// selector of `f`.
pub open spec fn selects(f: AbiFunctionView, input: Seq<u8>) -> bool {
    input.len() >= 4 && input.take(4) == selector(f.name, f.inputs)
}

/// The place of the first of `functions` that `input` calls: the first in
/// the order of the list, where several have the selector.
pub open spec fn selected(functions: Seq<AbiFunctionView>, input: Seq<u8>) -> Option<int> {
    first_index(functions, |f: AbiFunctionView| selects(f, input))
}

/// The first of `functions` that `input` calls.
pub fn select_function(functions: &Vec<AbiFunction>, input: &[u8]) -> (found: Option<usize>)
    ensures
        match found {
            Some(k) => k < functions@.len() && input@.len() >= 4 && selected(
                function_views(functions@),
                input@,
            ) == Some(k as int),
            None => selected(function_views(functions@), input@) is None,
        },
{
    let ghost fs = function_views(functions@);
    let ghost called = |f: AbiFunctionView| selects(f, input@);
    if input.len() < 4 {
        proof {
            lemma_first_index_is(fs, called, None);
        }
        return None;
    }
    let mut i: usize = 0;
    while i < functions.len()
        invariant
            i <= functions@.len(),
            input@.len() >= 4,
            fs == function_views(functions@),
            called == |f: AbiFunctionView| selects(f, input@),
            forall|j: int| 0 <= j < i ==> !called(#[trigger] fs[j]),
        decreases functions@.len() - i,
    {
        let f = &functions[i];
        let sig = short_signature(f.name.as_str(), f.inputs.as_slice());
        if input[0] == sig[0] && input[1] == sig[1] && input[2] == sig[2] && input[3] == sig[3] {
            proof {
                assert(input@.take(4) =~= sig@);
                lemma_first_index_is(fs, called, Some(i as int));
            }
            return Some(i);
        }
        proof {
            assert(input@.take(4) != sig@) by {
                if input@.take(4) == sig@ {
                    assert(input@.take(4)[0] == sig@[0]);
                    assert(input@.take(4)[1] == sig@[1]);
                    assert(input@.take(4)[2] == sig@[2]);
                    assert(input@.take(4)[3] == sig@[3]);
                }
            }
        }
        i += 1;
    }
    proof {
        lemma_first_index_is(fs, called, None);
    }
    None
}

/// The line that shows decoded value `value` at place `i` of a call.
pub open spec fn call_value_line(i: int, value: Seq<char>) -> Seq<char> {
    "  ["@ + decimal_digits(i as nat) + "]  "@ + value
}

/// What is shown of a call of function `name` with the decoded `values`:
/// the function's name, then the values, one to the line, each with its
/// place.
pub open spec fn call_lines(name: Seq<char>, values: Seq<Seq<char>>) -> Seq<Seq<char>> {
    seq!["function "@ + name] + Seq::new(values.len(), |i: int| call_value_line(i, values[i]))
}

/// What is shown of a call of function `name` with the decoded `values`.
pub fn describe_call(name: &str, values: &Vec<String>) -> (lines: Vec<String>)
    ensures
        texts(lines@) == call_lines(name@, texts(values@)),
{
    let mut lines: Vec<String> = Vec::new();
    let mut head = "function ".to_owned();
    head.append(name);
    lines.push(head);
    let mut i: usize = 0;
    while i < values.len()
        invariant
            i <= values@.len(),
            lines@.len() == i + 1,
            lines@[0]@ == "function "@ + name@,
            forall|j: int| 0 <= j < i ==> (#[trigger] lines@[j + 1])@ == call_value_line(j, values@[j]@),
        decreases values@.len() - i,
    {
        let mut line = "  [".to_owned();
        line.append(decimal(i as u128).as_str());
        line.append("]  ");
        line.append(values[i].as_str());
        lines.push(line);
        i += 1;
    }
    proof {
        let shown = call_lines(name@, texts(values@));
        assert(texts(lines@).len() == shown.len());
        assert forall|k: int| 0 <= k < shown.len() implies texts(lines@)[k] == shown[k] by {
            if k > 0 {
                assert(lines@[(k - 1) + 1]@ == call_value_line(k - 1, values@[k - 1]@));
            }
        }
        assert(texts(lines@) =~= shown);
    }
    lines
}

/// Whether each of `names` is a plain type name.
pub fn all_plain_type_names(names: &Vec<String>) -> (plain: bool)
    ensures
        plain == plain_type_names(texts(names@)),
{
    let mut i: usize = 0;
    while i < names.len()
        invariant
            i <= names@.len(),
            forall|j: int| 0 <= j < i ==> plain_type_name(#[trigger] texts(names@)[j]),
        decreases names@.len() - i,
    {
        if !is_plain_type_name(names[i].as_str()) {
            assert(!plain_type_name(texts(names@)[i as int]));
            return false;
        }
        i += 1;
    }
    true
}

/// What decoding a call with `input` under `functions` gives. The call is
/// that of the first function whose selector begins the input; where
/// there is none, no function is found. The rest of the input is decoded
/// under that function's parameter types, whose names must be plain, and
/// the outcome is [`call_lines`] of what was decoded.
pub open spec fn call_text_under(functions: Seq<AbiFunctionView>, input: Seq<u8>) -> Result<Seq<Seq<char>>, ErrorKind> {
    match selected(functions, input) {
        None => Err(ErrorKind::FunctionNotFound),
        Some(k) => if !plain_type_names(functions[k].inputs) {
            Err(ErrorKind::AbiRejected)
        } else {
            match abi_decoded(functions[k].inputs, input.skip(4)) {
                Some(values) => Ok(call_lines(functions[k].name, values)),
                None => Err(ErrorKind::EthAbi),
            }
        },
    }
}

/// Decodes a call with `input` under `functions`.
pub fn decode_call(functions: &Vec<AbiFunction>, input: &[u8]) -> (r: Result<Vec<String>, ContractError>)
    ensures
        lines_or_kind(r) == call_text_under(function_views(functions@), input@),
{
    let ghost fs = function_views(functions@);
    match select_function(functions, input) {
        None => Err(ContractError::FunctionNotFound),
        Some(k) => {
            let f = &functions[k];
            proof {
                assert(fs[k as int].inputs == texts(f.inputs@));
            }
            if !all_plain_type_names(&f.inputs) {
                return Err(ContractError::AbiRejected);
            }
            let rest = slice_subrange(input, 4, input.len());
            assert(rest@ == input@.skip(4));
            match decode_values(&f.inputs, rest) {
                Ok(values) => Ok(describe_call(f.name.as_str(), &values)),
                Err(e) => Err(ContractError::EthAbi(e)),
            }
        },
    }
}

/// What decoding a call with `input` under the interface description
/// `abi` gives. A description of a shape that is not taken is rejected,
/// and one that is malformed is an error; else the outcome is
/// [`call_text_under`] the functions of the description.
pub open spec fn call_text(abi: Seq<char>, input: Seq<u8>) -> Result<Seq<Seq<char>>, ErrorKind> {
    if !plain_abi_text(abi) {
        Err(ErrorKind::AbiRejected)
    } else {
        match abi_functions(abi) {
            Some(functions) => call_text_under(functions, input),
            None => Err(ErrorKind::EthAbi),
        }
    }
}

/// Decodes a call with `input` under the interface description `abistr`.
pub fn call_to_string(abistr: &str, input: &[u8]) -> (r: Result<Vec<String>, ContractError>)
    ensures
        lines_or_kind(r) == call_text(abistr@, input@),
{
    if !is_plain_abi_text(abistr) {
        return Err(ContractError::AbiRejected);
    }
    match load_functions(abistr) {
        Ok(functions) => decode_call(&functions, input),
        Err(e) => Err(ContractError::EthAbi(e)),
    }
}

/// Whether a log with `topics` is one of event `e`: its first topic is
/// the hash of the event's signature.
pub open spec fn emits(e: AbiEventView, topics: Seq<H256>) -> bool {
    topics.len() > 0 && e.signature == topics[0]
}

/// The place of the first of `events` that a log with `topics` is one of.
pub open spec fn emitted(events: Seq<AbiEventView>, topics: Seq<H256>) -> Option<int> {
    first_index(events, |e: AbiEventView| emits(e, topics))
}

/// The first of `events` that a log with `topics` is one of.
pub fn select_event(events: &Vec<AbiEvent>, topics: &Vec<H256>) -> (found: Option<usize>)
    ensures
        match found {
            Some(k) => k < events@.len() && emitted(event_views(events@), topics@) == Some(
                k as int,
            ),
            None => emitted(event_views(events@), topics@) is None,
        },
{
    let ghost es = event_views(events@);
    let ghost left = |e: AbiEventView| emits(e, topics@);
    if topics.len() == 0 {
        proof {
            lemma_first_index_is(es, left, None);
        }
        return None;
    }
    let mut i: usize = 0;
    while i < events.len()
        invariant
            i <= events@.len(),
            topics@.len() > 0,
            es == event_views(events@),
            left == |e: AbiEventView| emits(e, topics@),
            forall|j: int| 0 <= j < i ==> !left(#[trigger] es[j]),
        decreases events@.len() - i,
    {
        if events[i].signature.same(&topics[0]) {
            proof {
                lemma_first_index_is(es, left, Some(i as int));
            }
            return Some(i);
        }
        i += 1;
    }
    proof {
        lemma_first_index_is(es, left, None);
    }
    None
}

/// The line that shows the decoded parameter `name` of a log.
pub open spec fn log_value_line(name: Seq<char>, value: Seq<char>) -> Seq<char> {
    "  ["@ + name + "] "@ + value
}

/// What is shown of a log of event `name` with the decoded `values`: the
/// event's name, then the parameters, one to the line, each with its
/// name.
pub open spec fn log_lines(name: Seq<char>, values: Seq<(Seq<char>, Seq<char>)>) -> Seq<Seq<char>> {
    seq!["event "@ + name] + Seq::new(
        values.len(),
        |i: int| log_value_line(values[i].0, values[i].1),
    )
}

/// What is shown of a log of event `name` with the decoded `values`.
pub fn describe_log(name: &str, values: &Vec<LogValue>) -> (lines: Vec<String>)
    ensures
        texts(lines@) == log_lines(name@, log_value_views(values@)),
{
    let mut lines: Vec<String> = Vec::new();
    let mut head = "event ".to_owned();
    head.append(name);
    lines.push(head);
    let mut i: usize = 0;
    while i < values.len()
        invariant
            i <= values@.len(),
            lines@.len() == i + 1,
            lines@[0]@ == "event "@ + name@,
            forall|j: int|
                0 <= j < i ==> (#[trigger] lines@[j + 1])@ == log_value_line(
                    values@[j].name@,
                    values@[j].value@,
                ),
        decreases values@.len() - i,
    {
        let mut line = "  [".to_owned();
        line.append(values[i].name.as_str());
        line.append("] ");
        line.append(values[i].value.as_str());
        lines.push(line);
        i += 1;
    }
    proof {
        let shown = log_lines(name@, log_value_views(values@));
        assert(texts(lines@).len() == shown.len());
        assert forall|k: int| 0 <= k < shown.len() implies texts(lines@)[k] == shown[k] by {
            if k > 0 {
                assert(lines@[(k - 1) + 1]@ == log_value_line(
                    values@[k - 1].name@,
                    values@[k - 1].value@,
                ));
            }
        }
        assert(texts(lines@) =~= shown);
    }
    lines
}

/// Whether the type of each parameter of `event` has a plain name.
pub fn is_plain_event(event: &AbiEvent) -> (plain: bool)
    ensures
        plain == plain_event(event@),
{
    let mut i: usize = 0;
    while i < event.inputs.len()
        invariant
            i <= event.inputs@.len(),
            forall|j: int| 0 <= j < i ==> plain_type_name((#[trigger] event@.inputs[j]).kind),
        decreases event.inputs@.len() - i,
    {
        if !is_plain_type_name(event.inputs[i].kind.as_str()) {
            assert(!plain_type_name(event@.inputs[i as int].kind));
            return false;
        }
        i += 1;
    }
    true
}

/// What decoding a log with `topics` and `data` under `events` gives.
/// The log is one of the first event whose signature hash is its first
/// topic; where there is none, or the log has no topic, no event is
/// found. Topics and data are decoded under that event, whose type names
/// must be plain, and the outcome is [`log_lines`] of what was decoded.
pub open spec fn log_text_under(events: Seq<AbiEventView>, topics: Seq<H256>, data: Seq<u8>) -> Result<Seq<Seq<char>>, ErrorKind> {
    match emitted(events, topics) {
        None => Err(ErrorKind::EventNotFound),
        Some(k) => if !plain_event(events[k]) {
            Err(ErrorKind::AbiRejected)
        } else {
            match abi_log_values(events[k], topics, data) {
                Some(values) => Ok(log_lines(events[k].name, values)),
                None => Err(ErrorKind::EthAbi),
            }
        },
    }
}

/// Decodes a log under `events`.
pub fn decode_log(events: &Vec<AbiEvent>, txlog: &Log) -> (r: Result<Vec<String>, ContractError>)
    ensures
        lines_or_kind(r) == log_text_under(event_views(events@), txlog.topics@, txlog.data@),
{
    match select_event(events, &txlog.topics) {
        None => Err(ContractError::EventNotFound),
        Some(k) => {
            let event = &events[k];
            proof {
                assert(event_views(events@)[k as int] == event@);
            }
            if !is_plain_event(event) {
                return Err(ContractError::AbiRejected);
            }
            match parse_log(event, &txlog.topics, txlog.data.as_slice()) {
                Ok(values) => Ok(describe_log(event.name.as_str(), &values)),
                Err(e) => Err(ContractError::EthAbi(e)),
            }
        },
    }
}

/// What decoding a log with `topics` and `data` under the interface
/// description `abi` gives. A description of a shape that is not taken is
/// rejected, and one that is malformed is an error; else the outcome is
/// [`log_text_under`] the events of the description.
pub open spec fn log_text(abi: Seq<char>, topics: Seq<H256>, data: Seq<u8>) -> Result<Seq<Seq<char>>, ErrorKind> {
    if !plain_abi_text(abi) {
        Err(ErrorKind::AbiRejected)
    } else {
        match abi_events(abi) {
            Some(events) => log_text_under(events, topics, data),
            None => Err(ErrorKind::EthAbi),
        }
    }
}

/// Decodes a log under the interface description `abistr`.
pub fn log_to_string(abistr: &str, txlog: &Log) -> (r: Result<Vec<String>, ContractError>)
    ensures
        lines_or_kind(r) == log_text(abistr@, txlog.topics@, txlog.data@),
{
    if !is_plain_abi_text(abistr) {
        return Err(ContractError::AbiRejected);
    }
    match load_events(abistr) {
        Ok(events) => decode_log(&events, txlog),
        Err(e) => Err(ContractError::EthAbi(e)),
    }
}

} // verus!
