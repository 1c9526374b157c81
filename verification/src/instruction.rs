//! Decoded machine-code instructions: the opcode table (mnemonic and operand
//! arity), byte-exact decoding with variable-width pool indices, and the raw
//! hexadecimal rendering.
use vstd::prelude::*;

use crate::errors::DumpError;
use crate::ksm_reader::{be_bytes_val, KSMFileReader};
use crate::text::{fill_chars, hex_chars_w, push_fill, push_hex};

verus! {

/// The operand arity of each opcode, `None` for an opcode outside the table.
pub open spec fn spec_arity(opcode: u8) -> Option<u8> {
    if opcode == 0x4c || opcode == 0x53 || opcode == 0x5a || opcode == 0x5d || opcode == 0xcd {
        Some(2u8)
    } else if opcode == 0x34 || opcode == 0x36 || opcode == 0x37 || opcode == 0x3a || opcode == 0x3b
        || opcode == 0x4d || opcode == 0x4e || opcode == 0x57 || opcode == 0x58 || opcode == 0x59
        || opcode == 0x5b || opcode == 0x5c || opcode == 0x5e || opcode == 0xce || opcode == 0xf0 {
        Some(1u8)
    } else if (0x31 <= opcode && opcode <= 0x62) {
        Some(0u8)
    } else {
        None
    }
}

/// The mnemonic of each opcode; `bogus` for one outside the table.
pub open spec fn spec_mnemonic(opcode: u8) -> Seq<char> {
    if opcode == 0x31 {
        "eof"@
    } else if opcode == 0x32 {
        "eop"@
    } else if opcode == 0x33 {
        "nop"@
    } else if opcode == 0x34 {
        "sto"@
    } else if opcode == 0x35 {
        "uns"@
    } else if opcode == 0x36 {
        "gmb"@
    } else if opcode == 0x37 {
        "smb"@
    } else if opcode == 0x38 {
        "gidx"@
    } else if opcode == 0x39 {
        "sidx"@
    } else if opcode == 0x3a {
        "bfa"@
    } else if opcode == 0x3b {
        "jmp"@
    } else if opcode == 0x3c {
        "add"@
    } else if opcode == 0x3d {
        "sub"@
    } else if opcode == 0x3e {
        "mul"@
    } else if opcode == 0x3f {
        "div"@
    } else if opcode == 0x40 {
        "pow"@
    } else if opcode == 0x41 {
        "cgt"@
    } else if opcode == 0x42 {
        "clt"@
    } else if opcode == 0x43 {
        "cge"@
    } else if opcode == 0x44 {
        "cle"@
    } else if opcode == 0x45 {
        "ceq"@
    } else if opcode == 0x46 {
        "cne"@
    } else if opcode == 0x47 {
        "neg"@
    } else if opcode == 0x48 {
        "bool"@
    } else if opcode == 0x49 {
        "not"@
    } else if opcode == 0x4a {
        "and"@
    } else if opcode == 0x4b {
        "or"@
    } else if opcode == 0x4c {
        "call"@
    } else if opcode == 0x4d {
        "ret"@
    } else if opcode == 0x4e {
        "push"@
    } else if opcode == 0x4f {
        "pop"@
    } else if opcode == 0x50 {
        "dup"@
    } else if opcode == 0x51 {
        "swap"@
    } else if opcode == 0x52 {
        "eval"@
    } else if opcode == 0x53 {
        "addt"@
    } else if opcode == 0x54 {
        "rmvt"@
    } else if opcode == 0x55 {
        "wait"@
    } else if opcode == 0x56 {
        "endw"@
    } else if opcode == 0x57 {
        "gmet"@
    } else if opcode == 0x58 {
        "stol"@
    } else if opcode == 0x59 {
        "stog"@
    } else if opcode == 0x5a {
        "bscp"@
    } else if opcode == 0x5b {
        "escp"@
    } else if opcode == 0x5c {
        "stoe"@
    } else if opcode == 0x5d {
        "phdl"@
    } else if opcode == 0x5e {
        "btr"@
    } else if opcode == 0x5f {
        "exst"@
    } else if opcode == 0x60 {
        "argb"@
    } else if opcode == 0x61 {
        "targ"@
    } else if opcode == 0x62 {
        "tcan"@
    } else if opcode == 0xce {
        "prl"@
    } else if opcode == 0xcd {
        "pdrl"@
    } else if opcode == 0xf0 {
        "lbrt"@
    } else {
        "bogus"@
    }
}

/// The opcode that resets the synthetic label of the following instruction.
pub open spec fn spec_is_label_reset(opcode: u8) -> bool {
    opcode == 0xf0
}

/// The size in bytes of an encoded instruction: the opcode byte plus one
/// index of `width` bytes per operand.
pub open spec fn spec_instr_size(arity: int, width: int) -> int {
    1 + arity * width
}

/// One decoded instruction: the opcode, the pool index width its operands
/// were encoded with, and its operand pool indices in order.
#[derive(Debug)]
pub struct Instr {
    pub opcode: u8,
    pub operand_width: u8,
    pub num_operands: u8,
    pub operands: Vec<u32>,
}

impl Instr {
    /// A structurally sound instruction: at most two operands, an index
    /// width between one and four bytes, one stored index per operand.
    pub open spec fn wf(&self) -> bool {
        &&& self.num_operands <= 2
        &&& 1 <= self.operand_width <= 4
        &&& self.operands@.len() == self.num_operands
    }

    /// Bundles the parts of an instruction.
    pub fn new(opcode: u8, operand_width: u8, num_operands: u8, operands: Vec<u32>) -> (r: Instr)
        ensures
            r.opcode == opcode,
            r.operand_width == operand_width,
            r.num_operands == num_operands,
            r.operands == operands,
    {
        Instr { opcode, operand_width, num_operands, operands }
    }

    /// The mnemonic of this instruction's opcode.
    pub fn get_mnemonic(&self) -> (r: &'static str)
        ensures
            r@ == spec_mnemonic(self.opcode),
    {
        match self.opcode {
            0x31 => "eof",
            0x32 => "eop",
            0x33 => "nop",
            0x34 => "sto",
            0x35 => "uns",
            0x36 => "gmb",
            0x37 => "smb",
            0x38 => "gidx",
            0x39 => "sidx",
            0x3a => "bfa",
            0x3b => "jmp",
            0x3c => "add",
            0x3d => "sub",
            0x3e => "mul",
            0x3f => "div",
            0x40 => "pow",
            0x41 => "cgt",
            0x42 => "clt",
            0x43 => "cge",
            0x44 => "cle",
            0x45 => "ceq",
            0x46 => "cne",
            0x47 => "neg",
            0x48 => "bool",
            0x49 => "not",
            0x4a => "and",
            0x4b => "or",
            0x4c => "call",
            0x4d => "ret",
            0x4e => "push",
            0x4f => "pop",
            0x50 => "dup",
            0x51 => "swap",
            0x52 => "eval",
            0x53 => "addt",
            0x54 => "rmvt",
            0x55 => "wait",
            0x56 => "endw",
            0x57 => "gmet",
            0x58 => "stol",
            0x59 => "stog",
            0x5a => "bscp",
            0x5b => "escp",
            0x5c => "stoe",
            0x5d => "phdl",
            0x5e => "btr",
            0x5f => "exst",
            0x60 => "argb",
            0x61 => "targ",
            0x62 => "tcan",
            0xce => "prl",
            0xcd => "pdrl",
            0xf0 => "lbrt",
            _ => "bogus",
        }
    }

    /// The operand arity of an opcode, or 255 for an opcode outside the
    /// table; decoding treats the latter as an error, never as an arity.
    pub fn opcode_num_operands(opcode: u8) -> (r: u8)
        ensures
            r == match spec_arity(opcode) {
                Some(n) => n,
                None => 255u8,
            },
    {
        match opcode {
            0x4c | 0x53 | 0x5a | 0x5d | 0xcd => 2,
            0x34 | 0x36 | 0x37 | 0x3a | 0x3b | 0x4d | 0x4e | 0x57 | 0x58 | 0x59 | 0x5b | 0x5c
                | 0x5e | 0xce | 0xf0 => 1,
            _ => {
                if 0x31 <= opcode && opcode <= 0x62 {
                    0
                } else {
                    255
                }
            },
        }
    }

    /// The size in bytes of this instruction as encoded.
    pub fn size(&self) -> (r: u8)
        requires
            self.wf(),
        ensures
            r == spec_instr_size(self.num_operands as int, self.operand_width as int),
    {
        proof {
            assert(self.operand_width * self.num_operands <= 8) by (nonlinear_arith)
                requires
                    self.operand_width <= 4,
                    self.num_operands <= 2,
            ;
        }
        1 + self.operand_width * self.num_operands
    }

    /// How many operands this instruction carries.
    pub fn num_operands(&self) -> (r: usize)
        ensures
            r == self.num_operands,
    {
        self.num_operands as usize
    }

    /// The raw bytes of this instruction as hexadecimal text: the opcode in
    /// two digits, each operand in twice-the-width digits, every field
    /// followed by a space, left aligned to a fixed column.
    pub fn raw_str(&self) -> (r: String)
        requires
            self.wf(),
        ensures
            r@ == spec_raw_str(self.opcode, self.operand_width as nat, self.operands@),
    {
        let mut raw = String::new();
        push_hex(&mut raw, self.opcode as u64, 2);
        crate::text::push_char(&mut raw, ' ');
        let digits = (self.operand_width * 2) as usize;
        let mut k: usize = 0;
        while k < self.operands.len()
            invariant
                self.wf(),
                k <= self.operands@.len(),
                digits == self.operand_width * 2,
                raw@ == hex_chars_w(self.opcode as nat, 2) + seq![' '] + spec_operands_hex(
                    self.operands@.take(k as int),
                    self.operand_width as nat,
                ),
            decreases self.operands@.len() - k,
        {
            let op = self.operands[k];
            push_hex(&mut raw, op as u64, digits);
            crate::text::push_char(&mut raw, ' ');
            proof {
                let taken = self.operands@.take((k + 1) as int);
                assert(taken.drop_last() =~= self.operands@.take(k as int));
                assert(taken.last() == self.operands@[k as int]);
                assert(raw@ =~= hex_chars_w(self.opcode as nat, 2) + seq![' ']
                    + spec_operands_hex(taken, self.operand_width as nat));
            }
            k = k + 1;
        }
        assert(self.operands@.take(self.operands@.len() as int) =~= self.operands@);
        let width = (self.operand_width * 6 + 3) as usize;
        let cur = raw.as_str().unicode_len();
        if cur < width {
            push_fill(&mut raw, width - cur, ' ');
        }
        crate::text::push_char(&mut raw, ' ');
        assert(raw@ =~= spec_raw_str(self.opcode, self.operand_width as nat, self.operands@));
        raw
    }

    /// The opcode byte.
    pub fn get_opcode(&self) -> (r: u8)
        ensures
            r == self.opcode,
    {
        self.opcode
    }

    /// The operand pool indices in order.
    pub fn get_operands(&self) -> (r: &Vec<u32>)
        ensures
            r == self.operands,
    {
        &self.operands
    }

    /// Decodes one instruction at the cursor: the opcode byte, then as many
    /// pool indices as the opcode's arity dictates, each `arg_address_bytes`
    /// wide. An opcode outside the table is an error, not an arity.
    pub fn read(reader: &mut KSMFileReader) -> (r: Result<Instr, DumpError>)
        requires
            old(reader).wf(),
            1 <= old(reader).arg_address_bytes <= 4,
        ensures
            final(reader).wf(),
            final(reader).same_source(old(reader)),
            r is Ok <==> (old(reader).current_index < old(reader).contents@.len()
                && spec_arity(old(reader).contents@[old(reader).current_index as int]) is Some
                && old(reader).current_index + spec_instr_size(
                spec_arity(old(reader).contents@[old(reader).current_index as int]).unwrap() as int,
                old(reader).arg_address_bytes as int,
            ) <= old(reader).contents@.len()),
            r matches Ok(instr) ==> {
                &&& instr.wf()
                &&& instr.opcode == old(reader).contents@[old(reader).current_index as int]
                &&& instr.operand_width == old(reader).arg_address_bytes
                &&& Some(instr.num_operands) == spec_arity(instr.opcode)
                &&& forall|k: int|
                    0 <= k < instr.num_operands ==> #[trigger] instr.operands@[k] == be_bytes_val(
                        old(reader).contents@,
                        old(reader).current_index + 1 + k * old(reader).arg_address_bytes,
                        old(reader).arg_address_bytes as nat,
                    )
                &&& final(reader).current_index == old(reader).current_index + spec_instr_size(
                    instr.num_operands as int,
                    instr.operand_width as int,
                )
            },
            r matches Err(e) ==> {
                &&& (old(reader).current_index >= old(reader).contents@.len() ==> e
                    == DumpError::UnexpectedEndOfInput)
                &&& (old(reader).current_index < old(reader).contents@.len() ==> (
                if spec_arity(old(reader).contents@[old(reader).current_index as int]) is None {
                    e == DumpError::UnknownOpcode(
                        old(reader).contents@[old(reader).current_index as int],
                    )
                } else {
                    e == DumpError::UnexpectedEndOfInput
                }))
            },
    {
        let ghost s = old(reader).contents@;
        let ghost i = old(reader).current_index as int;
        let ghost w = old(reader).arg_address_bytes as int;
        let opcode = reader.next()?;
        let num_operands = Instr::opcode_num_operands(opcode);
        if num_operands == 255 {
            return Err(DumpError::UnknownOpcode(opcode));
        }
        let mut operands: Vec<u32> = Vec::new();
        let mut k: u8 = 0;
        while k < num_operands
            invariant
                reader.wf(),
                reader.same_source(old(reader)),
                num_operands <= 2,
                1 <= w <= 4,
                w == old(reader).arg_address_bytes,
                i == old(reader).current_index,
                s == old(reader).contents@,
                0 <= i < s.len(),
                opcode == s[i],
                spec_arity(opcode) == Some(num_operands),
                k <= num_operands,
                s == reader.contents@,
                reader.current_index == i + 1 + k * w,
                i + 1 + k * w <= s.len(),
                operands@.len() == k,
                forall|m: int|
                    0 <= m < k ==> #[trigger] operands@[m] == be_bytes_val(
                        s,
                        i + 1 + m * w,
                        w as nat,
                    ),
            decreases num_operands - k,
        {
            let op = match reader.read_argument_address() {
                Ok(v) => v,
                Err(e) => {
                    proof {
                        assert(i + 1 + k * w + w > s.len());
                        assert((k + 1) as int * w == k * w + w) by (nonlinear_arith);
                        assert((k + 1) * w <= num_operands * w) by (nonlinear_arith)
                            requires
                                k + 1 <= num_operands,
                                w >= 1,
                        ;
                    }
                    return Err(e);
                },
            };
            operands.push(op);
            proof {
                assert((k + 1) as int * w == k * w + w) by (nonlinear_arith);
            }
            k = k + 1;
        }
        proof {
            assert(k * w == num_operands * w);
        }
        Ok(Instr::new(opcode, reader.get_address_bytes(), num_operands, operands))
    }
}

/// The hexadecimal text of a list of operands, each in `width * 2` digits
/// followed by a space.
pub open spec fn spec_operands_hex(operands: Seq<u32>, width: nat) -> Seq<char>
    decreases operands.len(),
{
    if operands.len() == 0 {
        Seq::empty()
    } else {
        spec_operands_hex(operands.drop_last(), width) + hex_chars_w(
            operands.last() as nat,
            width * 2,
        ) + seq![' ']
    }
}

/// The raw-byte text of an instruction: opcode and operands in hexadecimal,
/// left aligned to a column of `width * 6 + 3` characters, then one space.
pub open spec fn spec_raw_str(opcode: u8, width: nat, operands: Seq<u32>) -> Seq<char> {
    let body = hex_chars_w(opcode as nat, 2) + seq![' '] + spec_operands_hex(operands, width);
    let column = width * 6 + 3;
    if body.len() < column {
        body + fill_chars((column - body.len()) as nat, ' ') + seq![' ']
    } else {
        body + seq![' ']
    }
}

} // verus!
