//! Linear disassembly of a code section into addressed instruction records.

use iced_x86::{Decoder, DecoderOptions, Formatter, NasmFormatter};
use vstd::prelude::*;
use vstd::slice::slice_subrange;

verus! {

/// The length in bytes of the first instruction that a 64-bit x86 decoder
/// reads from `code`.
pub uninterp spec fn x86_len(code: Seq<u8>) -> nat;

/// The mnemonic of the first 64-bit x86 instruction in `code`.
pub uninterp spec fn x86_mnemonic(code: Seq<u8>) -> Seq<char>;

/// The operands, in NASM syntax and separated by commas, of the first 64-bit
/// x86 instruction in `code` when it sits at address `ip`.
pub uninterp spec fn x86_operands(code: Seq<u8>, ip: u64) -> Seq<char>;

/// Relies on iced_x86::Decoder::decode and Instruction::len: the decoder
/// consumes at least one byte of non-empty input, at most all of it, and never
/// more than the 15 bytes of the longest instruction.
#[verifier::external_body]
fn decoded_length(code: &[u8]) -> (r: usize)
    requires
        code@.len() > 0,
    ensures
        r == x86_len(code@),
        1 <= r <= code@.len(),
        r <= 15,
{
    Decoder::new(64, code, DecoderOptions::NONE).decode().len()
}

/// Relies on iced_x86::Decoder::decode and the `Debug` text of the decoded
/// instruction's `Mnemonic`.
#[verifier::external_body]
fn decoded_mnemonic(code: &[u8]) -> (r: String)
    ensures
        r@ == x86_mnemonic(code@),
{
    format!("{:?}", Decoder::new(64, code, DecoderOptions::NONE).decode().mnemonic())
}

/// Relies on iced_x86::NasmFormatter::format_all_operands, applied to the
/// instruction that iced_x86::Decoder::decode reads at `ip`.
#[verifier::external_body]
fn decoded_operands(code: &[u8], ip: u64) -> (r: String)
    ensures
        r@ == x86_operands(code@, ip),
{
    let instruction = Decoder::with_ip(64, code, ip, DecoderOptions::NONE).decode();
    let mut text = String::new();
    NasmFormatter::new().format_all_operands(&instruction, &mut text);
    text
}

/// The pieces of `s` between commas, and the piece after the last comma
/// still being read.
pub open spec fn split_state(s: Seq<char>) -> (Seq<Seq<char>>, Seq<char>)
    decreases s.len(),
{
    if s.len() == 0 {
        (Seq::empty(), Seq::empty())
    } else {
        let (done, cur) = split_state(s.drop_last());
        if s.last() == ',' {
            (done.push(cur), Seq::empty())
        } else {
            (done, cur.push(s.last()))
        }
    }
}

/// `s` cut at every comma; an empty `s` gives one empty piece.
pub open spec fn split_commas(s: Seq<char>) -> Seq<Seq<char>> {
    split_state(s).0.push(split_state(s).1)
}

/// The operands listed in `s`: none for empty text, else the pieces between
/// commas.
pub open spec fn operand_list(s: Seq<char>) -> Seq<Seq<char>> {
    if s.len() == 0 {
        Seq::empty()
    } else {
        split_commas(s)
    }
}

pub open spec fn strings_view(v: Seq<String>) -> Seq<Seq<char>> {
    v.map_values(|x: String| x@)
}

proof fn lemma_split_tail(s: Seq<char>, start: int)
    requires
        0 <= start <= s.len(),
        forall|k: int| start <= k < s.len() ==> s[k] != ',',
        start == 0 || s[start - 1] == ',',
    ensures
        split_state(s).1 == s.subrange(start, s.len() as int),
    decreases s.len(),
{
    if s.len() > start {
        lemma_split_tail(s.drop_last(), start);
        assert(s.drop_last().subrange(start, s.len() - 1).push(s.last()) =~= s.subrange(start, s.len() as int));
    } else if s.len() > 0 {
        assert(s.subrange(start, s.len() as int) =~= Seq::<char>::empty());
    }
}

/// Cuts a list of operands at its commas; empty text lists no operand.
pub fn split_operands(text: &str) -> (r: Vec<String>)
    ensures
        strings_view(r@) == operand_list(text@),
{
    let n = text.unicode_len();
    if n == 0 {
        let r: Vec<String> = Vec::new();
        assert(strings_view(r@) =~= Seq::<Seq<char>>::empty());
        return r;
    }
    let mut pieces: Vec<String> = Vec::new();
    let mut start: usize = 0;
    let mut i: usize = 0;
    while i < n
        invariant
            n == text@.len(),
            0 <= start <= i <= n,
            strings_view(pieces@) == split_state(text@.take(i as int)).0,
            start == 0 || text@[start - 1] == ',',
            forall|k: int| start <= k < i ==> text@[k] != ',',
        decreases n - i,
    {
        let ghost before = text@.take(i as int);
        proof {
            lemma_split_tail(before, start as int);
        }
        assert(text@.take(i + 1).drop_last() =~= before);
        if text.get_char(i) == ',' {
            let piece = String::from_str(text.substring_char(start, i));
            assert(before.subrange(start as int, i as int) =~= text@.subrange(start as int, i as int));
            pieces.push(piece);
            assert(strings_view(pieces@) =~= split_state(text@.take(i + 1)).0);
            start = i + 1;
        }
        i += 1;
    }
    proof {
        lemma_split_tail(text@.take(n as int), start as int);
    }
    assert(text@.take(n as int) =~= text@);
    let last = String::from_str(text.substring_char(start, n));
    pieces.push(last);
    assert(strings_view(pieces@) =~= split_commas(text@));
    pieces
}

/// One decoded instruction and the address it was decoded at.
#[derive(Clone, Debug, PartialEq, Eq)]
pub struct DecodedInstruction {
    pub address: u64,
    pub name: String,
    pub operands: Vec<String>,
    pub length: usize,
}

/// The mathematical value of a `DecodedInstruction`.
pub ghost struct InstructionModel {
    pub address: u64,
    pub name: Seq<char>,
    pub operands: Seq<Seq<char>>,
    pub length: nat,
}

impl View for DecodedInstruction {
    type V = InstructionModel;

    open spec fn view(&self) -> InstructionModel {
        InstructionModel {
            address: self.address,
            name: self.name@,
            operands: strings_view(self.operands@),
            length: self.length as nat,
        }
    }
}

pub open spec fn instructions_view(v: Seq<DecodedInstruction>) -> Seq<InstructionModel> {
    v.map_values(|x: DecodedInstruction| x@)
}

/// The instruction decoded from the start of `code` at address `ip`.
pub open spec fn instruction_model(code: Seq<u8>, ip: u64) -> InstructionModel {
    InstructionModel {
        address: ip,
        name: x86_mnemonic(code),
        operands: operand_list(x86_operands(code, ip)),
        length: x86_len(code),
    }
}

/// The instructions that linear decoding reads from `code` starting at
/// offset `pos`, where offset 0 sits at address `base`: each step decodes at
/// the cursor and moves it on by the instruction's length.
pub open spec fn decode_from(code: Seq<u8>, base: u64, pos: nat) -> Seq<InstructionModel>
    decreases code.len() - pos,
{
    if pos >= code.len() || base + pos > u64::MAX {
        Seq::empty()
    } else {
        let rest = code.subrange(pos as int, code.len() as int);
        let n = x86_len(rest);
        if n == 0 || pos + n > code.len() {
            Seq::empty()
        } else {
            seq![instruction_model(rest, (base + pos) as u64)] + decode_from(code, base, pos + n)
        }
    }
}

/// The instructions of a code section that starts at address `base`.
pub open spec fn decode_section(code: Seq<u8>, base: u64) -> Seq<InstructionModel> {
    decode_from(code, base, 0)
}

/// Whether `a` lies in the bytes of `i`.
pub open spec fn covers(i: InstructionModel, a: u64) -> bool {
    i.address <= a < i.address + i.length
}

/// Instructions of at least one byte, each ending at or before the next one
/// starts.
pub open spec fn instructions_wf(t: Seq<InstructionModel>) -> bool {
    &&& forall|k: int| 0 <= k < t.len() ==> (#[trigger] t[k]).length >= 1
    &&& forall|k: int| 0 <= k < t.len() - 1 ==> #[trigger] t[k].address + t[k].length <= t[k + 1].address
}

/// Decodes one instruction at offset `pos` of `code`.
fn decode_at(code: &[u8], pos: usize, ip: u64) -> (r: DecodedInstruction)
    requires
        pos < code@.len(),
    ensures
        r@ == instruction_model(code@.subrange(pos as int, code@.len() as int), ip),
        1 <= r.length <= code@.len() - pos,
{
    let rest = slice_subrange(code, pos, code.len());
    let length = decoded_length(rest);
    let name = decoded_mnemonic(rest);
    let text = decoded_operands(rest, ip);
    let operands = split_operands(text.as_str());
    DecodedInstruction { address: ip, name, operands, length }
}

/// Disassembles a code section that starts at address `base`, from its first
/// byte to its last, one instruction after the other.
pub fn index_instructions(code: &[u8], base: u64) -> (r: Vec<DecodedInstruction>)
    requires
        base + code@.len() <= u64::MAX + 1,
    ensures
        instructions_view(r@) == decode_section(code@, base),
        code@.len() > 0 ==> r@.len() > 0,
        r@.len() > 0 ==> r@.last().address + r@.last().length == base + code@.len(),
{
    let mut out: Vec<DecodedInstruction> = Vec::new();
    let mut pos: usize = 0;
    while pos < code.len()
        invariant
            base + code@.len() <= u64::MAX + 1,
            0 <= pos <= code@.len(),
            pos > 0 ==> out@.len() > 0,
            out@.len() > 0 ==> out@.last().address + out@.last().length == base + pos,
            instructions_view(out@) + decode_from(code@, base, pos as nat) == decode_section(code@, base),
        decreases code@.len() - pos,
    {
        let ip = base + pos as u64;
        let instr = decode_at(code, pos, ip);
        let n = instr.length;
        let ghost prev = out@;
        out.push(instr);
        proof {
            let rest = code@.subrange(pos as int, code@.len() as int);
            assert(decode_from(code@, base, pos as nat) == seq![instruction_model(rest, ip)] + decode_from(
                code@,
                base,
                (pos + n) as nat,
            ));
            assert(instructions_view(out@) =~= instructions_view(prev).push(instr@));
            assert(instructions_view(out@) + decode_from(code@, base, (pos + n) as nat) =~= instructions_view(prev)
                + decode_from(code@, base, pos as nat));
        }
        pos = pos + n;
    }
    assert(decode_from(code@, base, pos as nat) == Seq::<InstructionModel>::empty());
    assert(instructions_view(out@) =~= instructions_view(out@) + Seq::<InstructionModel>::empty());
    out
}

proof fn lemma_decode_from_wf(code: Seq<u8>, base: u64, pos: nat)
    ensures
        instructions_wf(decode_from(code, base, pos)),
        forall|k: int|
            0 <= k < decode_from(code, base, pos).len() - 1 ==> #[trigger] decode_from(code, base, pos)[k].address
                + decode_from(code, base, pos)[k].length == decode_from(code, base, pos)[k + 1].address,
        decode_from(code, base, pos).len() > 0 ==> decode_from(code, base, pos)[0].address == base + pos,
    decreases code.len() - pos,
{
    let t = decode_from(code, base, pos);
    if pos < code.len() && base + pos <= u64::MAX {
        let rest = code.subrange(pos as int, code.len() as int);
        let n = x86_len(rest);
        if n > 0 && pos + n <= code.len() {
            lemma_decode_from_wf(code, base, pos + n);
            let tail = decode_from(code, base, pos + n);
            assert forall|k: int| 0 <= k < t.len() - 1 implies #[trigger] t[k].address + t[k].length
                == t[k + 1].address by {
                if k > 0 {
                    assert(t[k] == tail[k - 1]);
                    assert(t[k + 1] == tail[k]);
                }
            }
            assert forall|k: int| 0 <= k < t.len() implies (#[trigger] t[k]).length >= 1 by {
                if k > 0 {
                    assert(t[k] == tail[k - 1]);
                }
            }
        }
    }
}

/// Linear decoding yields instructions of at least one byte whose addresses
/// strictly increase, the first at the section's start and each one ending
/// where the next begins, so that no two of them overlap.
pub proof fn lemma_decoded_in_order(code: Seq<u8>, base: u64)
    ensures
        instructions_wf(decode_section(code, base)),
        decode_section(code, base).len() > 0 ==> decode_section(code, base)[0].address == base,
        forall|k: int|
            0 <= k < decode_section(code, base).len() - 1 ==> #[trigger] decode_section(code, base)[k].address
                + decode_section(code, base)[k].length == decode_section(code, base)[k + 1].address,
        forall|k: int|
            0 <= k < decode_section(code, base).len() - 1 ==> #[trigger] decode_section(code, base)[k].address
                < decode_section(code, base)[k + 1].address,
{
    lemma_decode_from_wf(code, base, 0);
}

} // verus!
