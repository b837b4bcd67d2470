//! A contract's interface description: its functions and events as plain
//! values, and the calls into `ethabi` that read the description and
//! decode data under it.
//!
//! `ethabi` reads type names with index arithmetic that holds only for
//! names of the usual shape: it cuts a name at its last `[` and assumes
//! that one is there, it counts characters where it cuts bytes, and it
//! adds the sizes that a name states to offsets into the data without a
//! look at their sum. So every text is looked over before it is handed
//! on, and a type name of another shape is never read.
//!
//! In JSON, `ethabi` reads as a type name the string that stands for the
//! key `type`, and no other. [`is_plain_abi_text`] holds these strings to
//! the shape and lets every other string be. What it refuses is a
//! description with a type name outside ASCII, with a `]` that closes no
//! `[digits`, with more than sixteen array suffixes in a row, or with an
//! escape that spells a character by its number.
//!
//! Before data is decoded, each type name is looked over once more, by
//! [`is_plain_type_name`], as `ethabi` writes it. A value of a type of no
//! size takes no room in the data, so that no end of the data would end
//! the reading of an array of them: a name that spells such a type is not
//! decoded under. Nor is one that states a number of ten digits or more:
//! on a machine whose addresses have 64 bits the sums then stay in range.

use vstd::prelude::*;
use ethabi::param_type::{Reader, Writer};
use crate::types::H256;

verus! {

/// The error of `ethabi`.
#[verifier::external_type_specification]
#[verifier::external_body]
pub struct AbiErrorDecl(ethabi::Error);

/// The most digits that a number in a type name may have.
pub const MAX_DIGITS: u8 = 9;

/// The most array suffixes that may follow one another.
pub const MAX_GROUPS: u8 = 16;

/// Whether `c` is a decimal digit.
pub open spec fn is_digit(c: char) -> bool {
    '0' <= c <= '9'
}

/// Whether `c`, after a backslash, spells one character of JSON by
/// itself.
pub open spec fn is_plain_escape(c: char) -> bool {
    c == '"' || c == '\\' || c == '/' || c == 'b' || c == 'f' || c == 'n' || c == 'r' || c == 't'
}

/// Whether `c` is a letter of the names of the elementary types:
/// `address`, `bool`, `bytes`, `int`, `string`, `uint`.
pub open spec fn is_type_letter(c: char) -> bool {
    c == 'a' || c == 'b' || c == 'd' || c == 'e' || c == 'g' || c == 'i' || c == 'l' || c == 'n'
        || c == 'o' || c == 'r' || c == 's' || c == 't' || c == 'u' || c == 'y'
}

/// Where a reader of JSON stands in a text.
#[derive(Clone, Copy, Debug, PartialEq, Eq)]
pub enum JsonLex {
    /// Between strings. `held` tells that the string before was the key
    /// `type`, or may have been: the next string is held to the shape of
    /// type names.
    Between { held: bool },
    /// In a string that is let be. `word` tells how many letters of
    /// `type` the string is so far, and is 5 where it is something else;
    /// `escaped` that the last character was a backslash; `spelled` that
    /// the string holds an escape that spells a character by its number.
    Text { word: u8, escaped: bool, spelled: bool },
    /// In a string that is held to the shape of type names, with `groups`
    /// array suffixes just closed. `word` and `escaped` are as above.
    Name { word: u8, groups: u8, escaped: bool },
    /// In an array suffix of such a string, after its `[` and some
    /// digits, with `groups` suffixes closed just before it.
    Suffix { groups: u8 },
    /// A type name is not of the shape that is taken.
    Refused,
}

/// How many letters of the word `type` a string is after `c`, where it
/// was `word` of them before; 5 where it is something else.
pub open spec fn word_after(word: u8, c: char) -> u8 {
    if word == 0 && c == 't' {
        1
    } else if word == 1 && c == 'y' {
        2
    } else if word == 2 && c == 'p' {
        3
    } else if word == 3 && c == 'e' {
        4
    } else {
        5
    }
}

/// The reader of JSON after `c`.
///
/// A string begins and ends at a double quote; in it, a backslash takes
/// the next character with it. The string after the key `type` is held
/// to the shape of type names, and so is the string after one that may
/// spell that key by the numbers of its characters. A string that is
/// held is ASCII; after a backslash it holds one of the characters that
/// spell a character by themselves; `[` opens an array suffix, which
/// holds digits only and ends at `]`; a `]` stands nowhere else; and few
/// suffixes follow one another. Every other string is let be.
pub open spec fn json_step(state: JsonLex, c: char) -> JsonLex {
    match state {
        JsonLex::Refused => JsonLex::Refused,
        JsonLex::Between { held } => if c == '"' {
            if held {
                JsonLex::Name { word: 0, groups: 0, escaped: false }
            } else {
                JsonLex::Text { word: 0, escaped: false, spelled: false }
            }
        } else {
            JsonLex::Between { held }
        },
        JsonLex::Text { word, escaped, spelled } => if escaped {
            JsonLex::Text { word: 5, escaped: false, spelled: spelled || c == 'u' }
        } else if c == '"' {
            JsonLex::Between { held: word == 4 || spelled }
        } else if c == '\\' {
            JsonLex::Text { word: 5, escaped: true, spelled }
        } else {
            JsonLex::Text { word: word_after(word, c), escaped: false, spelled }
        },
        JsonLex::Name { word, groups, escaped } => if c as u32 >= 128 {
            JsonLex::Refused
        } else if escaped {
            if is_plain_escape(c) {
                JsonLex::Name { word: 5, groups: 0, escaped: false }
            } else {
                JsonLex::Refused
            }
        } else if c == '"' {
            JsonLex::Between { held: word == 4 }
        } else if c == '\\' {
            JsonLex::Name { word: 5, groups: 0, escaped: true }
        } else if c == '[' {
            if groups < MAX_GROUPS {
                JsonLex::Suffix { groups }
            } else {
                JsonLex::Refused
            }
        } else if c == ']' {
            JsonLex::Refused
        } else {
            JsonLex::Name { word: word_after(word, c), groups: 0, escaped: false }
        },
        JsonLex::Suffix { groups } => if is_digit(c) {
            JsonLex::Suffix { groups }
        } else if c == ']' {
            JsonLex::Name { word: 5, groups: (groups + 1) as u8, escaped: false }
        } else {
            JsonLex::Refused
        },
    }
}

/// The reader of JSON after `text`, from `state`.
pub open spec fn json_lex(state: JsonLex, text: Seq<char>) -> JsonLex
    decreases text.len(),
{
    if text.len() == 0 {
        state
    } else {
        json_step(json_lex(state, text.drop_last()), text.last())
    }
}

/// Whether `text` is JSON of which every type name is of the shape that
/// is taken.
pub open spec fn plain_abi_text(text: Seq<char>) -> bool {
    json_lex(JsonLex::Between { held: false }, text) != JsonLex::Refused
}

/// Where a reader stands in a lone type name.
#[derive(Clone, Copy, Debug, PartialEq, Eq)]
pub enum NameLex {
    /// In the name, with `run` digits just read and `groups` array
    /// suffixes just closed. `zero` tells that the digits just read are
    /// zeros only, and `open` that the last character opened a tuple or
    /// parted two of its members.
    Name { run: u8, groups: u8, zero: bool, open: bool },
    /// In an array suffix, after its `[` and `digits` digits, with
    /// `groups` suffixes closed just before it. `zero` tells that the
    /// digits are zeros only.
    Suffix { digits: u8, groups: u8, zero: bool },
    /// The name is not of the shape that is decoded under.
    Refused,
}

/// The reader at the start of a lone type name.
pub open spec fn name_start() -> NameLex {
    NameLex::Name { run: 0, groups: 0, zero: false, open: false }
}

/// The reader of a lone type name after `c`.
///
/// The name is written as `ethabi` writes type names: in the letters of
/// the elementary types, digits, array suffixes, and parentheses and
/// commas for tuples. An array suffix holds digits only and ends at `]`,
/// and a `]` stands nowhere else. Numbers are short, and few suffixes
/// follow one another. No number is zero, no member of a tuple is empty,
/// and the word `tuple`, which `ethabi` reads as a tuple without
/// members, is not written in these letters: so the name spells no type
/// of no size.
pub open spec fn name_step(state: NameLex, c: char) -> NameLex {
    match state {
        NameLex::Name { run, groups, zero, open } => if is_digit(c) {
            if run < MAX_DIGITS {
                NameLex::Name {
                    run: (run + 1) as u8,
                    groups: 0,
                    zero: (run == 0 || zero) && c == '0',
                    open: false,
                }
            } else {
                NameLex::Refused
            }
        } else if run > 0 && zero {
            NameLex::Refused
        } else if c == '[' {
            if groups < MAX_GROUPS {
                NameLex::Suffix { digits: 0, groups, zero: false }
            } else {
                NameLex::Refused
            }
        } else if c == '(' {
            NameLex::Name { run: 0, groups: 0, zero: false, open: true }
        } else if c == ',' {
            if open {
                NameLex::Refused
            } else {
                NameLex::Name { run: 0, groups: 0, zero: false, open: true }
            }
        } else if c == ')' {
            if open {
                NameLex::Refused
            } else {
                name_start()
            }
        } else if is_type_letter(c) {
            name_start()
        } else {
            NameLex::Refused
        },
        NameLex::Suffix { digits, groups, zero } => if is_digit(c) {
            if digits < MAX_DIGITS {
                NameLex::Suffix {
                    digits: (digits + 1) as u8,
                    groups,
                    zero: (digits == 0 || zero) && c == '0',
                }
            } else {
                NameLex::Refused
            }
        } else if c == ']' {
            if digits > 0 && zero {
                NameLex::Refused
            } else {
                NameLex::Name { run: 0, groups: (groups + 1) as u8, zero: false, open: false }
            }
        } else {
            NameLex::Refused
        },
        NameLex::Refused => NameLex::Refused,
    }
}

/// The reader of a lone type name after `text`, from `state`.
pub open spec fn name_lex(state: NameLex, text: Seq<char>) -> NameLex
    decreases text.len(),
{
    if text.len() == 0 {
        state
    } else {
        name_step(name_lex(state, text.drop_last()), text.last())
    }
}

/// Whether the reader stands in a name that may end here: not after a
/// number that is zero.
pub open spec fn name_may_end(state: NameLex) -> bool {
    match state {
        NameLex::Name { run, zero, .. } => !(run > 0 && zero),
        _ => false,
    }
}

/// Whether `text` is a type name of the shape that is decoded under: the
/// reader ends in the name.
pub open spec fn plain_type_name(text: Seq<char>) -> bool {
    name_may_end(name_lex(name_start(), text))
}

/// Whether each of `names` is a plain type name.
pub open spec fn plain_type_names(names: Seq<Seq<char>>) -> bool {
    forall|i: int| 0 <= i < names.len() ==> plain_type_name(#[trigger] names[i])
}

/// The reader of JSON keeps count within its bounds.
pub open spec fn json_bounded(state: JsonLex) -> bool {
    match state {
        JsonLex::Name { groups, .. } => groups <= MAX_GROUPS,
        JsonLex::Suffix { groups } => groups < MAX_GROUPS,
        _ => true,
    }
}

/// The reader of a lone type name keeps count within its bounds.
pub open spec fn name_bounded(state: NameLex) -> bool {
    match state {
        NameLex::Name { run, groups, .. } => run <= MAX_DIGITS && groups <= MAX_GROUPS,
        NameLex::Suffix { digits, groups, .. } => digits <= MAX_DIGITS && groups < MAX_GROUPS,
        _ => true,
    }
}

/// Whether `c` is a decimal digit.
fn digit(c: char) -> (is: bool)
    ensures
        is == is_digit(c),
{
    '0' <= c && c <= '9'
}

/// How many letters of the word `type` a string is after `c`.
fn next_word(word: u8, c: char) -> (next: u8)
    ensures
        next == word_after(word, c),
{
    if word == 0 && c == 't' {
        1
    } else if word == 1 && c == 'y' {
        2
    } else if word == 2 && c == 'p' {
        3
    } else if word == 3 && c == 'e' {
        4
    } else {
        5
    }
}

/// The reader of JSON after `c`.
fn json_next(state: JsonLex, c: char) -> (next: JsonLex)
    requires
        json_bounded(state),
    ensures
        next == json_step(state, c),
        json_bounded(next),
{
    match state {
        JsonLex::Refused => JsonLex::Refused,
        JsonLex::Between { held } => if c == '"' {
            if held {
                JsonLex::Name { word: 0, groups: 0, escaped: false }
            } else {
                JsonLex::Text { word: 0, escaped: false, spelled: false }
            }
        } else {
            JsonLex::Between { held }
        },
        JsonLex::Text { word, escaped, spelled } => if escaped {
            JsonLex::Text { word: 5, escaped: false, spelled: spelled || c == 'u' }
        } else if c == '"' {
            JsonLex::Between { held: word == 4 || spelled }
        } else if c == '\\' {
            JsonLex::Text { word: 5, escaped: true, spelled }
        } else {
            JsonLex::Text { word: next_word(word, c), escaped: false, spelled }
        },
        JsonLex::Name { word, groups, escaped } => if c as u32 >= 128 {
            JsonLex::Refused
        } else if escaped {
            if c == '"' || c == '\\' || c == '/' || c == 'b' || c == 'f' || c == 'n' || c == 'r'
                || c == 't' {
                JsonLex::Name { word: 5, groups: 0, escaped: false }
            } else {
                JsonLex::Refused
            }
        } else if c == '"' {
            JsonLex::Between { held: word == 4 }
        } else if c == '\\' {
            JsonLex::Name { word: 5, groups: 0, escaped: true }
        } else if c == '[' {
            if groups < MAX_GROUPS {
                JsonLex::Suffix { groups }
            } else {
                JsonLex::Refused
            }
        } else if c == ']' {
            JsonLex::Refused
        } else {
            JsonLex::Name { word: next_word(word, c), groups: 0, escaped: false }
        },
        JsonLex::Suffix { groups } => if digit(c) {
            JsonLex::Suffix { groups }
        } else if c == ']' {
            JsonLex::Name { word: 5, groups: groups + 1, escaped: false }
        } else {
            JsonLex::Refused
        },
    }
}

/// The reader of a lone type name after `c`.
fn name_next(state: NameLex, c: char) -> (next: NameLex)
    requires
        name_bounded(state),
    ensures
        next == name_step(state, c),
        name_bounded(next),
{
    match state {
        NameLex::Name { run, groups, zero, open } => if digit(c) {
            if run < MAX_DIGITS {
                NameLex::Name {
                    run: run + 1,
                    groups: 0,
                    zero: (run == 0 || zero) && c == '0',
                    open: false,
                }
            } else {
                NameLex::Refused
            }
        } else if run > 0 && zero {
            NameLex::Refused
        } else if c == '[' {
            if groups < MAX_GROUPS {
                NameLex::Suffix { digits: 0, groups, zero: false }
            } else {
                NameLex::Refused
            }
        } else if c == '(' {
            NameLex::Name { run: 0, groups: 0, zero: false, open: true }
        } else if c == ',' {
            if open {
                NameLex::Refused
            } else {
                NameLex::Name { run: 0, groups: 0, zero: false, open: true }
            }
        } else if c == ')' {
            if open {
                NameLex::Refused
            } else {
                NameLex::Name { run: 0, groups: 0, zero: false, open: false }
            }
        } else if c == 'a' || c == 'b' || c == 'd' || c == 'e' || c == 'g' || c == 'i' || c == 'l'
            || c == 'n' || c == 'o' || c == 'r' || c == 's' || c == 't' || c == 'u' || c == 'y' {
            NameLex::Name { run: 0, groups: 0, zero: false, open: false }
        } else {
            NameLex::Refused
        },
        NameLex::Suffix { digits, groups, zero } => if digit(c) {
            if digits < MAX_DIGITS {
                NameLex::Suffix {
                    digits: digits + 1,
                    groups,
                    zero: (digits == 0 || zero) && c == '0',
                }
            } else {
                NameLex::Refused
            }
        } else if c == ']' {
            if digits > 0 && zero {
                NameLex::Refused
            } else {
                NameLex::Name { run: 0, groups: groups + 1, zero: false, open: false }
            }
        } else {
            NameLex::Refused
        },
        NameLex::Refused => NameLex::Refused,
    }
}

/// Whether `text` is JSON of which every type name is of the shape that
/// is taken.
pub fn is_plain_abi_text(text: &str) -> (plain: bool)
    ensures
        plain == plain_abi_text(text@),
{
    let ghost start = JsonLex::Between { held: false };
    let mut at = JsonLex::Between { held: false };
    for c in it: text.chars()
        invariant
            it.seq() == text@,
            json_bounded(at),
            at == json_lex(start, text@.take(it.index() as int)),
    {
        proof {
            assert(text@.take(it.index() + 1).drop_last() =~= text@.take(it.index() as int));
        }
        at = json_next(at, c);
    }
    proof {
        assert(text@.take(text@.len() as int) =~= text@);
    }
    match at {
        JsonLex::Refused => false,
        _ => true,
    }
}

/// Whether `text` is a type name of the shape that is decoded under.
pub fn is_plain_type_name(text: &str) -> (plain: bool)
    ensures
        plain == plain_type_name(text@),
{
    let mut at = NameLex::Name { run: 0, groups: 0, zero: false, open: false };
    for c in it: text.chars()
        invariant
            it.seq() == text@,
            name_bounded(at),
            at == name_lex(name_start(), text@.take(it.index() as int)),
    {
        proof {
            assert(text@.take(it.index() + 1).drop_last() =~= text@.take(it.index() as int));
        }
        at = name_next(at, c);
    }
    proof {
        assert(text@.take(text@.len() as int) =~= text@);
    }
    match at {
        NameLex::Name { run, zero, .. } => !(run > 0 && zero),
        _ => false,
    }
}

/// A function of a contract: its name and the canonical names of its
/// parameter types, in order.
#[derive(Debug)]
pub struct AbiFunction {
    pub name: String,
    pub inputs: Vec<String>,
}

/// The mathematical value of an [`AbiFunction`].
pub struct AbiFunctionView {
    pub name: Seq<char>,
    pub inputs: Seq<Seq<char>>,
}

impl View for AbiFunction {
    type V = AbiFunctionView;

    open spec fn view(&self) -> AbiFunctionView {
        AbiFunctionView { name: self.name@, inputs: self.inputs@.map_values(|t: String| t@) }
    }
}

/// A parameter of an event: its name, the canonical name of its type, and
/// whether it travels as a topic.
#[derive(Debug)]
pub struct AbiEventParam {
    pub name: String,
    pub kind: String,
    pub indexed: bool,
}

/// The mathematical value of an [`AbiEventParam`].
pub struct AbiEventParamView {
    pub name: Seq<char>,
    pub kind: Seq<char>,
    pub indexed: bool,
}

impl View for AbiEventParam {
    type V = AbiEventParamView;

    open spec fn view(&self) -> AbiEventParamView {
        AbiEventParamView { name: self.name@, kind: self.kind@, indexed: self.indexed }
    }
}

/// An event of a contract, with the hash of its signature: the first
/// topic of the logs that it leaves.
#[derive(Debug)]
pub struct AbiEvent {
    pub name: String,
    pub inputs: Vec<AbiEventParam>,
    pub anonymous: bool,
    pub signature: H256,
}

/// The mathematical value of an [`AbiEvent`].
pub struct AbiEventView {
    pub name: Seq<char>,
    pub inputs: Seq<AbiEventParamView>,
    pub anonymous: bool,
    pub signature: H256,
}

impl View for AbiEvent {
    type V = AbiEventView;

    open spec fn view(&self) -> AbiEventView {
        AbiEventView {
            name: self.name@,
            inputs: self.inputs@.map_values(|p: AbiEventParam| p@),
            anonymous: self.anonymous,
            signature: self.signature,
        }
    }
}

/// A parameter of a log as decoded: its name and its value as text.
#[derive(Debug)]
pub struct LogValue {
    pub name: String,
    pub value: String,
}

impl View for LogValue {
    type V = (Seq<char>, Seq<char>);

    open spec fn view(&self) -> (Seq<char>, Seq<char>) {
        (self.name@, self.value@)
    }
}

/// The views of `functions`, in order.
pub open spec fn function_views(functions: Seq<AbiFunction>) -> Seq<AbiFunctionView> {
    functions.map_values(|f: AbiFunction| f@)
}

/// The views of `events`, in order.
pub open spec fn event_views(events: Seq<AbiEvent>) -> Seq<AbiEventView> {
    events.map_values(|e: AbiEvent| e@)
}

/// The views of `values`, in order.
pub open spec fn log_value_views(values: Seq<LogValue>) -> Seq<(Seq<char>, Seq<char>)> {
    values.map_values(|v: LogValue| v@)
}

/// Whether the type of each parameter of `event` has a plain name.
pub open spec fn plain_event(event: AbiEventView) -> bool {
    forall|i: int| 0 <= i < event.inputs.len() ==> plain_type_name((#[trigger] event.inputs[i]).kind)
}

/// The functions that `ethabi` reads from an interface description, in
/// the order in which it lists them; `None` where it takes the
/// description for malformed.
pub uninterp spec fn abi_functions(abi: Seq<char>) -> Option<Seq<AbiFunctionView>>;

/// The events that `ethabi` reads from an interface description, in the
/// order in which it lists them; `None` where it takes the description
/// for malformed.
pub uninterp spec fn abi_events(abi: Seq<char>) -> Option<Seq<AbiEventView>>;

/// The values that `ethabi` decodes from `data` under the types named, as
/// it prints them for debugging; `None` where it takes a name or the data
/// for malformed.
pub uninterp spec fn abi_decoded(types: Seq<Seq<char>>, data: Seq<u8>) -> Option<Seq<Seq<char>>>;

/// The parameters that `ethabi` reads from a log under `event`, by name,
/// each value as it prints it for debugging; `None` where the log is not
/// one of that event.
pub uninterp spec fn abi_log_values(event: AbiEventView, topics: Seq<H256>, data: Seq<u8>) -> Option<
    Seq<(Seq<char>, Seq<char>)>,
>;

/// Reads the functions of an interface description: `ethabi::Contract::load`
/// on the text, then `Contract::functions`, which walks the functions by
/// name and, under one name, in the order of the description. Of each
/// function the name is kept, and of each parameter the name of its type
/// as `ethabi::param_type::Writer::write` gives it. The contract claims
/// that the outcome depends on the text alone, and gives it the name
/// [`abi_functions`]; it is called on plain text only.
#[verifier::external_body]
pub(crate) fn load_functions(abi: &str) -> (r: Result<Vec<AbiFunction>, ethabi::Error>)
    requires
        plain_abi_text(abi@),
    ensures
        r is Ok ==> abi_functions(abi@) == Some(function_views(r->Ok_0@)),
        r is Err ==> abi_functions(abi@) is None,
{
    let contract = ethabi::Contract::load(abi.as_bytes())?;
    Ok(contract.functions().map(|f| AbiFunction {
        name: f.name.clone(),
        inputs: f.inputs.iter().map(|p| Writer::write(&p.kind)).collect(),
    }).collect())
}

/// Reads the events of an interface description: `ethabi::Contract::load`
/// on the text, then `Contract::events`, which walks the events by name
/// and, under one name, in the order of the description. Of each event
/// the name, the parameters and `Event::signature` are kept, the type of a
/// parameter by the name that `Writer::write` gives it. The contract
/// claims that the outcome depends on the text alone, and gives it the
/// name [`abi_events`]; it is called on plain text only.
#[verifier::external_body]
pub(crate) fn load_events(abi: &str) -> (r: Result<Vec<AbiEvent>, ethabi::Error>)
    requires
        plain_abi_text(abi@),
    ensures
        r is Ok ==> abi_events(abi@) == Some(event_views(r->Ok_0@)),
        r is Err ==> abi_events(abi@) is None,
{
    let contract = ethabi::Contract::load(abi.as_bytes())?;
    Ok(contract.events().map(|e| AbiEvent {
        name: e.name.clone(),
        inputs: e.inputs.iter().map(|p| AbiEventParam {
            name: p.name.clone(),
            kind: Writer::write(&p.kind),
            indexed: p.indexed,
        }).collect(),
        anonymous: e.anonymous,
        signature: H256(e.signature().0),
    }).collect())
}

/// Decodes `data` under the types named: `ethabi::param_type::Reader::read`
/// on each name, then `ethabi::decode`, which takes one value for each
/// type from the front of `data` and lets the rest be. Each value is
/// given as `ethabi::Token` prints for debugging. The contract claims that
/// the outcome depends on the names and the data alone, and gives it the
/// name [`abi_decoded`]; it is called on plain type names only.
#[verifier::external_body]
pub(crate) fn decode_values(types: &Vec<String>, data: &[u8]) -> (r: Result<Vec<String>, ethabi::Error>)
    requires
        plain_type_names(crate::text::texts(types@)),
    ensures
        r is Ok ==> abi_decoded(crate::text::texts(types@), data@) == Some(
            crate::text::texts(r->Ok_0@),
        ),
        r is Err ==> abi_decoded(crate::text::texts(types@), data@) is None,
{
    let mut kinds = Vec::new();
    for name in types {
        kinds.push(Reader::read(name)?);
    }
    let tokens = ethabi::decode(&kinds, data)?;
    Ok(tokens.iter().map(|t| format!("{:?}", t)).collect())
}

/// Reads a log under `event`: `ethabi::Event::parse_log` on an event of
/// that name and those parameters, each type read from its name by
/// `Reader::read`. It fails unless the event is anonymous or the first
/// topic is the event's signature, and unless topics and data decode
/// under the types. Each value is given as `ethabi::Token` prints for
/// debugging. The contract claims that the outcome depends on the event,
/// the topics and the data alone, and gives it the name
/// [`abi_log_values`]; it is called on events with plain type names only.
#[verifier::external_body]
pub(crate) fn parse_log(event: &AbiEvent, topics: &Vec<H256>, data: &[u8]) -> (r: Result<
    Vec<LogValue>,
    ethabi::Error,
>)
    requires
        plain_event(event@),
    ensures
        r is Ok ==> abi_log_values(event@, topics@, data@) == Some(log_value_views(r->Ok_0@)),
        r is Err ==> abi_log_values(event@, topics@, data@) is None,
{
    let mut inputs = Vec::new();
    for p in &event.inputs {
        let kind = Reader::read(&p.kind)?;
        inputs.push(ethabi::EventParam { name: p.name.clone(), kind, indexed: p.indexed });
    }
    let event = ethabi::Event { name: event.name.clone(), inputs, anonymous: event.anonymous };
    let topics = topics.iter().map(|t| ethabi::Hash::from(t.0)).collect();
    let log = event.parse_log(ethabi::RawLog { topics, data: data.to_vec() })?;
    Ok(log.params.into_iter().map(|p| LogValue { name: p.name, value: format!("{:?}", p.value) }).collect())
}

} // verus!
