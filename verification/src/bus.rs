//! What travels over the serial link: command bytes, sent with the
//! data/command line low, and data bytes, sent with it high; beside them
//! the reset line and the pauses that the controller asks for.

use vstd::prelude::*;
use crate::color::{high_byte, low_byte, split_word};

verus! {

/// One step on the link.
#[derive(Clone, Copy, Debug, PartialEq, Eq, Structural)]
pub enum BusOp {
    /// Drive the reset line high.
    ResetHigh,
    /// Drive the reset line low.
    ResetLow,
    /// Wait for this many milliseconds.
    DelayMs(u8),
    /// Send one byte as a command.
    Command(u8),
    /// Send one byte as data.
    Data(u8),
}

/// Each byte as one data step.
pub open spec fn data_ops(bytes: Seq<u8>) -> Seq<BusOp> {
    Seq::new(bytes.len(), |i: int| BusOp::Data(bytes[i]))
}

/// The bytes of a run of 16-bit words, upper byte first.
pub open spec fn be_bytes(words: Seq<u16>) -> Seq<u8> {
    Seq::new(
        2 * words.len(),
        |i: int|
            if i % 2 == 0 {
                high_byte(words[i / 2])
            } else {
                low_byte(words[i / 2])
            },
    )
}

/// A command byte followed by its parameters.
pub open spec fn command_ops(command: u8, params: Seq<u8>) -> Seq<BusOp> {
    seq![BusOp::Command(command)] + data_ops(params)
}

/// Appends a command and its parameter bytes to `ops`.
pub fn emit_command(ops: &mut Vec<BusOp>, command: u8, params: &Vec<u8>)
    ensures
        final(ops)@ == old(ops)@ + command_ops(command, params@),
{
    let ghost before = ops@;
    ops.push(BusOp::Command(command));
    let mut i: usize = 0;
    while i < params.len()
        invariant
            i <= params.len(),
            ops@ == before + command_ops(command, params@.take(i as int)),
        decreases params.len() - i,
    {
        ops.push(BusOp::Data(params[i]));
        i += 1;
        assert(ops@ =~= before + command_ops(command, params@.take(i as int)));
    }
    assert(params@.take(i as int) =~= params@);
}

/// The bytes of `words`, upper byte first.
pub fn words_to_bytes(words: &Vec<u16>) -> (bytes: Vec<u8>)
    ensures
        bytes@ == be_bytes(words@),
{
    let mut bytes: Vec<u8> = Vec::new();
    let mut i: usize = 0;
    while i < words.len()
        invariant
            i <= words.len(),
            bytes@ == be_bytes(words@.take(i as int)),
        decreases words.len() - i,
    {
        let pair = split_word(words[i]);
        bytes.push(pair.0);
        bytes.push(pair.1);
        i += 1;
        assert(bytes@ =~= be_bytes(words@.take(i as int)));
    }
    assert(words@.take(i as int) =~= words@);
    bytes
}

} // verus!
