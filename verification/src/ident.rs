//! Identity handles of agents, and fresh ids for tasks.

use vstd::arithmetic::power::pow;
use vstd::prelude::*;
use vstd::string::*;

verus! {

/// The handle under which the layer that runs the agents knows one agent.
/// To the stores it is a value to keep and to compare, nothing more.
#[derive(Clone, Copy, Debug, PartialEq, Eq, Hash, Structural)]
pub struct ThreadId {
    bits: u128,
}

impl ThreadId {
    /// The 128 bits of the handle.
    pub closed spec fn value(self) -> u128 {
        self.bits
    }

    /// The handle with the given bits.
    pub fn from_u128(bits: u128) -> (id: Self)
        ensures
            id.value() == bits,
    {
        ThreadId { bits }
    }

    /// The 128 bits of the handle.
    pub fn as_u128(&self) -> (bits: u128)
        ensures
            bits == self.value(),
    {
        self.bits
    }

    /// A handle drawn at random.
    pub fn new() -> (id: Self)
        ensures
            is_random_uuid(id.value()),
    {
        ThreadId { bits: random_uuid() }
    }
}

/// `bits` has the version and variant marks of a random UUID.
pub open spec fn is_random_uuid(bits: u128) -> bool {
    bits & 0x0000_0000_0000_f000_c000_0000_0000_0000 == 0x0000_0000_0000_4000_8000_0000_0000_0000
}

/// The 128 bits of a random UUID, from `uuid::Uuid::new_v4` and
/// `uuid::Uuid::as_u128`.
///
/// Trusted: the bits are drawn at random, so all that is claimed of them is
/// what `new_v4` sets in every UUID it makes: version 4 and the RFC variant.
#[verifier::external_body]
pub(crate) fn random_uuid() -> (bits: u128)
    ensures
        is_random_uuid(bits),
{
    uuid::Uuid::new_v4().as_u128()
}

/// The digit for a number below sixteen.
pub open spec fn hex_digit(nibble: int) -> char {
    "0123456789abcdef"@[nibble]
}

/// The 32 lower-case hexadecimal digits of `bits`, the most significant
/// first.
pub open spec fn simple_hex(bits: u128) -> Seq<char> {
    Seq::new(32, |i: int| hex_digit((bits as int / pow(16, (31 - i) as nat)) % 16))
}

/// The simple form of the UUID with the given bits, from
/// `uuid::Uuid::from_u128`, `uuid::Uuid::as_simple` and the `Display` of
/// `uuid::fmt::Simple`.
///
/// Trusted: the text is taken to be the 32 lower-case hexadecimal digits of
/// the bits without hyphens, the most significant digit first.
#[verifier::external_body]
pub(crate) fn uuid_simple(bits: u128) -> (text: String)
    ensures
        text@ == simple_hex(bits),
{
    uuid::Uuid::from_u128(bits).as_simple().to_string()
}

/// The id of the task that is numbered `bits`: `task-` and the number in
/// hexadecimal digits.
pub open spec fn task_id_text(bits: u128) -> Seq<char> {
    "task-"@ + simple_hex(bits)
}

/// The id of the task that is numbered `bits`.
pub fn task_id_from(bits: u128) -> (id: String)
    ensures
        id@ == task_id_text(bits),
{
    let digits = uuid_simple(bits);
    "task-".to_owned().concat(digits.as_str())
}

/// An id for a new task, numbered at random.
pub fn fresh_task_id() -> (id: String)
    ensures
        exists|bits: u128| is_random_uuid(bits) && id@ == #[trigger] task_id_text(bits),
{
    let bits = random_uuid();
    task_id_from(bits)
}

} // verus!
