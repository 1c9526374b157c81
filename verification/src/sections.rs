//! The sections of a machine-code file: the argument pool with its
//! byte-offset index scheme, the typed code sections, and the debug
//! line-mapping section.
use vstd::prelude::*;

use crate::argument::{spec_decode_value, spec_value_len, value_wf, Argument};
use crate::errors::DumpError;
use crate::instruction::{spec_arity, spec_instr_size, spec_is_label_reset, Instr};
use crate::ksm_reader::{be_bytes_val, KSMFileReader};

verus! {

/// The `%` marker byte that opens every section tag.
pub open spec fn marker_byte() -> u8 {
    0x25
}

/// The pool indices of consecutive pool entries chain: each entry's index is
/// the previous entry's index plus the previous entry's encoded length.
pub open spec fn pool_chained(args: Seq<Argument>) -> bool {
    forall|j: int|
        0 <= j < args.len() - 1 ==> (#[trigger] args[j + 1].address) == args[j].address
            + spec_value_len(args[j].value@)
}

/// Every encoded constant value occupies at least its tag byte.
pub proof fn lemma_value_len_positive(v: crate::argument::SpecValue)
    ensures
        spec_value_len(v) >= 1,
{
}

/// The index invariant of a parsed pool: indices strictly increase, so each
/// index resolves to at most one entry.
pub proof fn lemma_pool_indices_strictly_increase(args: Seq<Argument>)
    requires
        pool_chained(args),
    ensures
        forall|j: int, k: int|
            0 <= j < k < args.len() ==> (#[trigger] args[j].address) < (#[trigger] args[k].address),
{
    assert forall|j: int, k: int|
        0 <= j < k < args.len() implies (#[trigger] args[j].address) < (
    #[trigger] args[k].address) by {
        lemma_pool_increase_to(args, j, k);
    }
}

proof fn lemma_pool_increase_to(args: Seq<Argument>, j: int, k: int)
    requires
        pool_chained(args),
        0 <= j < k < args.len(),
    ensures
        args[j].address < args[k].address,
    decreases k - j,
{
    lemma_value_len_positive(args[k - 1].value@);
    assert(args[(k - 1) + 1].address == args[k - 1].address + spec_value_len(args[k - 1].value@));
    if j < k - 1 {
        lemma_pool_increase_to(args, j, k - 1);
    }
}

/// The pool's index scheme is a bijection: an entry's byte-offset index
/// resolves back to that entry alone, since chained indices are unique.
pub proof fn lemma_pool_index_round_trip(args: Seq<Argument>, j: int, k: int)
    requires
        pool_chained(args),
        0 <= j < args.len(),
        0 <= k < args.len(),
        args[j].address == args[k].address,
    ensures
        j == k,
{
    lemma_pool_indices_strictly_increase(args);
}

/// Where scanning pool entries from byte offset `i` first meets a `%` marker
/// at an entry boundary, or `None` where the buffer ends or an entry is
/// malformed before that.
pub open spec fn args_end(s: Seq<u8>, i: int) -> Option<int>
    decreases s.len() - i,
{
    if i >= s.len() {
        None
    } else if s[i] == marker_byte() {
        Some(i)
    } else {
        match spec_decode_value(s, i) {
            Option::None => None,
            Option::Some(v) => if i + spec_value_len(v) <= s.len() {
                args_end(s, i + spec_value_len(v))
            } else {
                None
            },
        }
    }
}

/// Some pool entry carries the byte-offset index `addr`.
pub open spec fn pool_has(args: Seq<Argument>, addr: u32) -> bool {
    exists|j: int| 0 <= j < args.len() && (#[trigger] args[j]).address == addr
}

/// Every operand of every instruction of the section resolves in the pool.
pub open spec fn operands_resolve(instrs: Seq<Instr>, args: Seq<Argument>) -> bool {
    forall|i: int, k: int|
        0 <= i < instrs.len() && 0 <= k < (#[trigger] instrs[i]).operands@.len() ==> pool_has(
            args,
            #[trigger] instrs[i].operands@[k],
        )
}

/// A single pool entry holds a string constant containing `symbol` as a
/// substring.
pub open spec fn arg_matches(arg: Argument, symbol: Seq<char>) -> bool {
    match arg.value@ {
        crate::argument::SpecValue::Str(text) => crate::text::spec_contains_sub(text, symbol),
        crate::argument::SpecValue::StrValue(text) => crate::text::spec_contains_sub(text, symbol),
        _ => false,
    }
}

/// Some pool entry carries the byte-offset index `addr` and holds a string
/// constant containing `symbol` as a substring.
pub open spec fn operand_matches(args: Seq<Argument>, addr: u32, symbol: Seq<char>) -> bool {
    exists|j: int| 0 <= j < args.len() && (#[trigger] args[j]).address == addr && arg_matches(
        args[j],
        symbol,
    )
}

/// Checks every pool entry carrying index `addr` against `symbol`; true iff
/// none of them holds a matching string constant.
fn operand_no_match_check(argument_section: &ArgumentSection, addr: u32, symbol: &String) -> (r:
    bool)
    ensures
        r == !operand_matches(argument_section.argument_list@, addr, symbol@),
{
    let n = argument_section.argument_list.len();
    let mut j: usize = 0;
    while j < n
        invariant
            n == argument_section.argument_list@.len(),
            j <= n,
            forall|m: int|
                0 <= m < j ==> !((#[trigger] argument_section.argument_list@[m]).address == addr
                    && arg_matches(argument_section.argument_list@[m], symbol@)),
        decreases n - j,
    {
        let argument = &argument_section.argument_list[j];
        if argument.get_address() == addr {
            let matched = match argument.get_value() {
                crate::argument::Value::String(text) => crate::text::contains_substring(
                    text,
                    symbol,
                ),
                crate::argument::Value::StringValue(text) => crate::text::contains_substring(
                    text,
                    symbol,
                ),
                _ => false,
            };
            if matched {
                return false;
            }
        }
        j = j + 1;
    }
    true
}

proof fn lemma_first_occ_absent(s: Seq<char>, c: char)
    requires
        !s.contains(c),
    ensures
        crate::text::first_occ(s, c) == s.len(),
{
    lemma_char_index_absent(s, c, 0);
}

proof fn lemma_char_index_absent(s: Seq<char>, c: char, k: int)
    requires
        0 <= k <= s.len(),
        !s.contains(c),
    ensures
        crate::text::char_index_from(s, c, k) == s.len(),
    decreases s.len() - k,
{
    if k < s.len() {
        assert(s[k] != c);
        lemma_char_index_absent(s, c, k + 1);
    }
}

/// The prefix sums of instruction sizes grow with the prefix, and bound the
/// number of instructions.
pub proof fn lemma_instrs_size_mono_pub(instrs: Seq<Instr>, j: int, k: int)
    requires
        instrs_wf(instrs),
        0 <= j <= k <= instrs.len(),
    ensures
        instrs_size(instrs, j) <= instrs_size(instrs, k),
        j <= instrs_size(instrs, k),
{
    lemma_instrs_size_mono(instrs, j, k);
}

/// Appending an instruction leaves the size of every existing prefix
/// unchanged.
pub proof fn lemma_instrs_size_push_pub(instrs: Seq<Instr>, x: Instr, j: int)
    requires
        0 <= j <= instrs.len(),
    ensures
        instrs_size(instrs.push(x), j) == instrs_size(instrs, j),
{
    lemma_instrs_size_push(instrs, x, j);
}

/// The count of real instructions among a prefix is at most the prefix
/// length.
pub proof fn lemma_real_count_bounds_pub(instrs: Seq<Instr>, j: int)
    requires
        0 <= j <= instrs.len(),
    ensures
        0 <= real_count(instrs, j) <= j,
{
    lemma_real_count_bounds(instrs, j);
}

/// The count of real instructions grows with the prefix.
pub proof fn lemma_real_count_mono_pub(instrs: Seq<Instr>, j: int, k: int)
    requires
        0 <= j <= k <= instrs.len(),
    ensures
        real_count(instrs, j) <= real_count(instrs, k),
    decreases k,
{
    if j < k {
        lemma_real_count_mono_pub(instrs, j, k - 1);
    }
}

/// The byte-offset index map of a pool: each entry's index mapped to its
/// position, a later duplicate index (impossible in a chained pool) winning.
pub open spec fn addr_map(args: Seq<Argument>) -> Map<u32, usize>
    decreases args.len(),
{
    if args.len() == 0 {
        Map::empty()
    } else {
        addr_map(args.drop_last()).insert(args.last().address, (args.len() - 1) as usize)
    }
}

/// The index map holds exactly the entries' indices, each mapped to a
/// position carrying that index.
pub proof fn lemma_addr_map_props(args: Seq<Argument>)
    requires
        args.len() <= usize::MAX,
    ensures
        forall|addr: u32| #[trigger] addr_map(args).contains_key(addr) <==> pool_has(args, addr),
        forall|addr: u32|
            #[trigger] addr_map(args).contains_key(addr) ==> 0 <= addr_map(args)[addr]
                < args.len() && args[addr_map(args)[addr] as int].address == addr,
    decreases args.len(),
{
    if args.len() > 0 {
        assert(args.drop_last().len() <= usize::MAX);
        lemma_addr_map_props(args.drop_last());
        assert forall|addr: u32| #[trigger] addr_map(args).contains_key(addr) implies pool_has(
            args,
            addr,
        ) by {
            if addr == args.last().address {
                assert(args[args.len() - 1].address == addr);
            } else {
                assert(addr_map(args.drop_last()).contains_key(addr));
                let j = choose|j: int|
                    0 <= j < args.drop_last().len() && (#[trigger] args.drop_last()[j]).address
                        == addr;
                assert(args[j].address == addr);
            }
        }
        assert forall|addr: u32| pool_has(args, addr) implies #[trigger] addr_map(
            args,
        ).contains_key(addr) by {
            let j = choose|j: int| 0 <= j < args.len() && (#[trigger] args[j]).address == addr;
            if j < args.len() - 1 {
                assert(args.drop_last()[j].address == addr);
                assert(pool_has(args.drop_last(), addr));
            }
        }
        assert forall|addr: u32| #[trigger] addr_map(args).contains_key(addr) implies 0 <= addr_map(
            args,
        )[addr] < args.len() && args[addr_map(args)[addr] as int].address == addr by {
            if addr == args.last().address {
                assert(addr_map(args)[addr] == args.len() - 1);
                assert(args[args.len() - 1].address == addr);
            } else {
                assert(addr_map(args)[addr] == addr_map(args.drop_last())[addr]);
                assert(addr_map(args.drop_last()).contains_key(addr));
                let ix = addr_map(args.drop_last())[addr] as int;
                assert(0 <= ix < args.drop_last().len());
                assert(args.drop_last()[ix].address == addr);
                assert(args.drop_last()[ix] == args[ix]);
            }
        }
    }
}

/// The argument section: the declared pool index width and the decoded pool
/// entries in file order, each carrying its own byte-offset index.
#[derive(Debug)]
pub struct ArgumentSection {
    pub addr_bytes: u8,
    pub argument_list: Vec<Argument>,
    pub addr_to_index: std::collections::HashMap<u32, usize>,
}

impl ArgumentSection {
    /// A sound parsed pool: a one-to-four byte index width, chained indices,
    /// and well-formed values.
    pub open spec fn wf(&self) -> bool {
        &&& 1 <= self.addr_bytes <= 4
        &&& pool_chained(self.argument_list@)
        &&& self.addr_to_index@ == addr_map(self.argument_list@)
        &&& forall|j: int|
            0 <= j < self.argument_list@.len() ==> value_wf(
                (#[trigger] self.argument_list@[j]).value@,
            )
    }

    /// Bundles a pool index width and a list of pool entries, building the
    /// byte-offset index map for constant-time lookup.
    pub fn new(addr_bytes: u8, argument_list: Vec<Argument>) -> (r: ArgumentSection)
        ensures
            r.addr_bytes == addr_bytes,
            r.argument_list == argument_list,
            r.addr_to_index@ == addr_map(argument_list@),
    {
        broadcast use vstd::std_specs::hash::group_hash_axioms;

        let mut addr_to_index: std::collections::HashMap<u32, usize> =
            std::collections::HashMap::new();
        let n = argument_list.len();
        let mut j: usize = 0;
        while j < n
            invariant
                n == argument_list@.len(),
                j <= n,
                addr_to_index@ == addr_map(argument_list@.take(j as int)),
            decreases n - j,
        {
            let addr = argument_list[j].get_address();
            addr_to_index.insert(addr, j);
            proof {
                let taken = argument_list@.take((j + 1) as int);
                assert(taken.drop_last() =~= argument_list@.take(j as int));
                assert(taken.last() == argument_list@[j as int]);
            }
            j = j + 1;
        }
        proof {
            assert(argument_list@.take(n as int) =~= argument_list@);
        }
        ArgumentSection { addr_bytes, argument_list, addr_to_index }
    }

    /// Resolves a pool byte-offset index to the position of its entry, or a
    /// dangling-reference error where no entry has that index. One lookup in
    /// the map the pool was built with.
    pub fn get_index(&self, addr: u32) -> (r: Result<usize, DumpError>)
        requires
            self.addr_to_index@ == addr_map(self.argument_list@),
        ensures
            r is Ok <==> exists|j: int|
                0 <= j < self.argument_list@.len() && (#[trigger] self.argument_list@[j]).address
                    == addr,
            r matches Ok(ix) ==> ix < self.argument_list@.len()
                && self.argument_list@[ix as int].address == addr,
            r matches Err(e) ==> e == DumpError::DanglingReference,
    {
        broadcast use vstd::std_specs::hash::group_hash_axioms;

        let _pool_len = self.argument_list.len();
        proof {
            lemma_addr_map_props(self.argument_list@);
        }
        match self.addr_to_index.get(&addr) {
            Some(ix) => Ok(*ix),
            None => Err(DumpError::DanglingReference),
        }
    }

    /// The pool byte-offset index of the entry at a position, or an error
    /// where the position is out of range.
    pub fn get_addr(&self, index: usize) -> (r: Result<u32, DumpError>)
        ensures
            r is Ok <==> index < self.argument_list@.len(),
            r matches Ok(a) ==> a == self.argument_list@[index as int].address,
            r matches Err(e) ==> e == DumpError::DanglingReference,
    {
        if index < self.argument_list.len() {
            Ok(self.argument_list[index].get_address())
        } else {
            Err(DumpError::DanglingReference)
        }
    }

    /// The entry at a pool byte-offset index; the index must resolve. One
    /// lookup in the map the pool was built with.
    pub fn get_argument(&self, addr: u32) -> (r: &Argument)
        requires
            self.addr_to_index@ == addr_map(self.argument_list@),
            exists|j: int|
                0 <= j < self.argument_list@.len() && (#[trigger] self.argument_list@[j]).address
                    == addr,
        ensures
            r.address == addr,
            exists|j: int|
                0 <= j < self.argument_list@.len() && r == #[trigger] self.argument_list@[j],
    {
        broadcast use vstd::std_specs::hash::group_hash_axioms;

        let _pool_len = self.argument_list.len();
        proof {
            lemma_addr_map_props(self.argument_list@);
        }
        match self.addr_to_index.get(&addr) {
            Some(ix) => &self.argument_list[*ix],
            None => {
                // The map mirrors the list, so the entry the caller names
                // cannot be missing.
                proof {
                    assert(false);
                }
                &self.argument_list[0]
            },
        }
    }

    /// The declared width in bytes of a pool index.
    pub fn get_addr_bytes(&self) -> (r: u8)
        ensures
            r == self.addr_bytes,
    {
        self.addr_bytes
    }

    /// The pool entries in file order.
    pub fn get_argument_list(&self) -> (r: &Vec<Argument>)
        ensures
            r == self.argument_list,
    {
        &self.argument_list
    }

    /// Decodes the argument section at the cursor: one index-width byte,
    /// then pool entries back to back until the next `%` marker. Entry
    /// indices chain from the section's base offset.
    pub fn read(reader: &mut KSMFileReader) -> (r: Result<ArgumentSection, DumpError>)
        requires
            old(reader).wf(),
            6 <= old(reader).current_index,
            old(reader).contents@.len() < 0xffff0000,
        ensures
            final(reader).wf(),
            final(reader).contents == old(reader).contents,
            final(reader).debug_range_bytes == old(reader).debug_range_bytes,
            r is Ok <==> (old(reader).current_index < old(reader).contents@.len() && 1 <= old(
                reader,
            ).contents@[old(reader).current_index as int] <= 4 && args_end(
                old(reader).contents@,
                old(reader).current_index + 1,
            ) is Some),
            r matches Ok(sec) ==> {
                &&& sec.wf()
                &&& sec.addr_bytes == old(reader).contents@[old(reader).current_index as int]
                &&& final(reader).arg_address_bytes == sec.addr_bytes
                &&& Some(final(reader).current_index as int) == args_end(
                    old(reader).contents@,
                    old(reader).current_index + 1,
                )
                &&& (sec.argument_list@.len() > 0 ==> sec.argument_list@[0].address == old(
                    reader,
                ).current_index + 1 - 4)
                &&& (sec.argument_list@.len() > 0 ==> final(reader).current_index
                    == sec.argument_list@.last().address + 4 + spec_value_len(
                    sec.argument_list@.last().value@,
                ))
                &&& (sec.argument_list@.len() == 0 ==> final(reader).current_index == old(
                    reader,
                ).current_index + 1)
                &&& forall|j: int|
                    0 <= j < sec.argument_list@.len() ==> Some(
                        (#[trigger] sec.argument_list@[j]).value@,
                    ) == spec_decode_value(
                        old(reader).contents@,
                        sec.argument_list@[j].address + 4,
                    )
            },
    {
        let ghost s = old(reader).contents@;
        let addr_bytes = reader.next()?;
        if addr_bytes < 1 || addr_bytes > 4 {
            return Err(DumpError::MalformedSectionStructure);
        }
        reader.set_address_bytes(addr_bytes);
        let ghost start = old(reader).current_index + 1;
        let mut argument_list: Vec<Argument> = Vec::new();
        loop
            invariant
                reader.wf(),
                reader.contents == old(reader).contents,
                reader.debug_range_bytes == old(reader).debug_range_bytes,
                reader.arg_address_bytes == addr_bytes,
                1 <= addr_bytes <= 4,
                s == reader.contents@,
                s.len() < 0xffff0000,
                start <= reader.current_index <= s.len(),
                start == old(reader).current_index + 1,
                6 <= old(reader).current_index,
                args_end(s, start) == args_end(s, reader.current_index as int),
                pool_chained(argument_list@),
                argument_list@.len() == 0 ==> reader.current_index == start,
                argument_list@.len() > 0 ==> {
                    &&& argument_list@[0].address == start - 4
                    &&& reader.current_index == argument_list@.last().address + 4 + spec_value_len(
                        argument_list@.last().value@,
                    )
                },
                forall|j: int|
                    0 <= j < argument_list@.len() ==> value_wf(
                        (#[trigger] argument_list@[j]).value@,
                    ),
                forall|j: int|
                    0 <= j < argument_list@.len() ==> Some(
                        (#[trigger] argument_list@[j]).value@,
                    ) == spec_decode_value(s, argument_list@[j].address + 4),
            ensures
                reader.wf(),
                reader.contents == old(reader).contents,
                reader.debug_range_bytes == old(reader).debug_range_bytes,
                reader.arg_address_bytes == addr_bytes,
                Some(reader.current_index as int) == args_end(s, start),
                pool_chained(argument_list@),
                argument_list@.len() > 0 ==> argument_list@[0].address == start - 4,
                forall|j: int|
                    0 <= j < argument_list@.len() ==> value_wf(
                        (#[trigger] argument_list@[j]).value@,
                    ),
                forall|j: int|
                    0 <= j < argument_list@.len() ==> Some(
                        (#[trigger] argument_list@[j]).value@,
                    ) == spec_decode_value(s, argument_list@[j].address + 4),
            decreases s.len() - reader.current_index,
        {
            let b = reader.peek()?;
            if b == 0x25 {
                break ;
            }
            let ghost pos = reader.current_index as int;
            let arg = Argument::read(reader)?;
            proof {
                lemma_value_len_positive(arg.value@);
                assert(args_end(s, pos) == args_end(s, pos + spec_value_len(arg.value@)));
            }
            let ghost prev = argument_list@;
            argument_list.push(arg);
            proof {
                assert(argument_list@.last() == arg);
                assert(forall|j: int|
                    0 <= j < prev.len() ==> argument_list@[j] == #[trigger] prev[j]);
                assert(pool_chained(argument_list@)) by {
                    assert forall|j: int|
                        0 <= j < argument_list@.len() - 1 implies (
                    #[trigger] argument_list@[j + 1].address) == argument_list@[j].address
                        + spec_value_len(argument_list@[j].value@) by {
                        if j < prev.len() - 1 {
                            assert(prev[j + 1].address == prev[j].address + spec_value_len(
                                prev[j].value@,
                            ));
                        }
                    }
                }
            }
        }
        Ok(ArgumentSection::new(addr_bytes, argument_list))
    }
}

/// The role of a code section: a user function, initialization code, or the
/// main body.
#[derive(PartialEq, Eq, Debug, Copy, Clone, Structural)]
pub enum SectionType {
    FUNCTION,
    INITIALIZATION,
    MAIN,
}

/// The sum of the encoded sizes of the first `j` instructions.
pub open spec fn instrs_size(instrs: Seq<Instr>, j: int) -> int
    decreases j,
{
    if j <= 0 {
        0
    } else {
        instrs_size(instrs, j - 1) + spec_instr_size(
            instrs[j - 1].num_operands as int,
            instrs[j - 1].operand_width as int,
        )
    }
}

/// How many of the first `j` instructions are real (not label-reset markers).
pub open spec fn real_count(instrs: Seq<Instr>, j: int) -> int
    decreases j,
{
    if j <= 0 {
        0
    } else {
        real_count(instrs, j - 1) + if spec_is_label_reset(instrs[j - 1].opcode) {
            0int
        } else {
            1int
        }
    }
}

/// All instructions of a section are structurally sound.
pub open spec fn instrs_wf(instrs: Seq<Instr>) -> bool {
    forall|j: int| 0 <= j < instrs.len() ==> (#[trigger] instrs[j]).wf()
}

proof fn lemma_instrs_size_push(instrs: Seq<Instr>, x: Instr, j: int)
    requires
        0 <= j <= instrs.len(),
    ensures
        instrs_size(instrs.push(x), j) == instrs_size(instrs, j),
    decreases j,
{
    if j > 0 {
        lemma_instrs_size_push(instrs, x, j - 1);
        assert(instrs.push(x)[j - 1] == instrs[j - 1]);
    }
}

proof fn lemma_real_count_push(instrs: Seq<Instr>, x: Instr, j: int)
    requires
        0 <= j <= instrs.len(),
    ensures
        real_count(instrs.push(x), j) == real_count(instrs, j),
    decreases j,
{
    if j > 0 {
        lemma_real_count_push(instrs, x, j - 1);
        assert(instrs.push(x)[j - 1] == instrs[j - 1]);
    }
}

proof fn lemma_real_count_bounds(instrs: Seq<Instr>, j: int)
    requires
        0 <= j <= instrs.len(),
    ensures
        0 <= real_count(instrs, j) <= j,
    decreases j,
{
    if j > 0 {
        lemma_real_count_bounds(instrs, j - 1);
    }
}

proof fn lemma_instrs_size_mono(instrs: Seq<Instr>, j: int, k: int)
    requires
        instrs_wf(instrs),
        0 <= j <= k <= instrs.len(),
    ensures
        instrs_size(instrs, j) <= instrs_size(instrs, k),
        j <= instrs_size(instrs, k),
    decreases k,
{
    if k > 0 {
        if j <= k - 1 {
            lemma_instrs_size_mono(instrs, j, k - 1);
        } else {
            lemma_instrs_size_mono(instrs, j - 1, k - 1);
        }
        assert(spec_instr_size(
            instrs[k - 1].num_operands as int,
            instrs[k - 1].operand_width as int,
        ) >= 1) by (nonlinear_arith)
            requires
                instrs[k - 1].num_operands >= 0,
                instrs[k - 1].operand_width >= 1,
        ;
    }
}

/// The instruction `instr` is exactly what decoding `s` at offset `i` with
/// pool index width `w` yields.
pub open spec fn instr_decodes_at(s: Seq<u8>, i: int, w: int, instr: Instr) -> bool {
    &&& 0 <= i < s.len()
    &&& instr.opcode == s[i]
    &&& Some(instr.num_operands) == spec_arity(instr.opcode)
    &&& instr.operand_width == w
    &&& i + spec_instr_size(instr.num_operands as int, w) <= s.len()
    &&& forall|k: int|
        0 <= k < instr.num_operands ==> (#[trigger] instr.operands@[k]) == be_bytes_val(
            s,
            i + 1 + k * w,
            w as nat,
        )
}

/// Where scanning instructions from offset `i` first meets a `%` marker at
/// an instruction boundary, or `None` where the buffer ends or an opcode is
/// unknown or cut short before that.
pub open spec fn code_end(s: Seq<u8>, i: int, w: int) -> Option<int>
    decreases s.len() - i,
{
    if i < 0 || w < 1 || i >= s.len() {
        None
    } else if s[i] == marker_byte() {
        Some(i)
    } else {
        match spec_arity(s[i]) {
            Option::None => None,
            Option::Some(a) => if i + spec_instr_size(a as int, w) <= s.len() && spec_instr_size(
                a as int,
                w,
            ) >= 1 {
                code_end(s, i + spec_instr_size(a as int, w), w)
            } else {
                None
            },
        }
    }
}

/// How many consecutive two-byte groups beginning with a `%` marker start at
/// offset `i`.
pub open spec fn marker_repeat_count(s: Seq<u8>, i: int) -> int
    decreases s.len() - i,
{
    if i < 0 || i >= s.len() || s[i] != marker_byte() {
        0
    } else if i + 2 >= s.len() {
        1
    } else {
        1 + marker_repeat_count(s, i + 2)
    }
}

/// The repeat count of marker groups is never negative.
pub proof fn lemma_marker_count_nonneg(s: Seq<u8>, i: int)
    ensures
        marker_repeat_count(s, i) >= 0,
    decreases s.len() - i,
{
    if 0 <= i && i < s.len() && s[i] == marker_byte() && i + 2 < s.len() {
        lemma_marker_count_nonneg(s, i + 2);
    }
}

/// The section type that a repeat count of the `%F` marker group denotes.
pub open spec fn spec_section_type(repeats: int) -> SectionType {
    if repeats == 0 {
        SectionType::FUNCTION
    } else if repeats == 1 {
        SectionType::INITIALIZATION
    } else {
        SectionType::MAIN
    }
}

/// The trailing marker bytes a code section of each type consumes after its
/// instructions.
pub open spec fn spec_trailing_bytes(t: SectionType) -> int {
    match t {
        SectionType::FUNCTION => 4,
        SectionType::INITIALIZATION => 2,
        SectionType::MAIN => 0,
    }
}

/// A whole code section decodes at offset `i`: the `%F` marker with at most
/// two repeated groups, instructions up to a `%` marker, and the trailing
/// marker bytes of the section's type within bounds.
pub open spec fn spec_code_section_ok(s: Seq<u8>, i: int, w: int) -> bool {
    let c = marker_repeat_count(s, i + 2);
    let body = i + 2 + 2 * c;
    &&& i + 2 <= s.len()
    &&& s[i] == marker_byte()
    &&& s[i + 1] == 0x46
    &&& c <= 2
    &&& body < s.len()
    &&& code_end(s, body, w) is Some
    &&& code_end(s, body, w).unwrap() + spec_trailing_bytes(spec_section_type(c)) <= s.len()
}

/// Where a code section decodes successfully, the cursor ends after its
/// trailing marker bytes.
pub open spec fn spec_code_section_end(s: Seq<u8>, i: int, w: int) -> int {
    let c = marker_repeat_count(s, i + 2);
    code_end(s, i + 2 + 2 * c, w).unwrap() + spec_trailing_bytes(spec_section_type(c))
}

/// The code section `sec` is exactly what decoding `s` at offset `i` with
/// pool index width `w` yields: its type from the marker repeats, each
/// instruction byte-exact at its chained offset, and no instruction missing
/// (the scan from the body start ends exactly after the last one).
pub open spec fn code_section_decodes_at(s: Seq<u8>, i: int, w: int, sec: CodeSection) -> bool {
    let c = marker_repeat_count(s, i + 2);
    let body = i + 2 + 2 * c;
    &&& spec_code_section_ok(s, i, w)
    &&& sec.section_type == spec_section_type(c)
    &&& sec.size as int == 6 + instrs_size(sec.instructions@, sec.instructions@.len() as int)
    &&& code_end(s, body, w) == Some(
        body + instrs_size(sec.instructions@, sec.instructions@.len() as int),
    )
    &&& forall|j: int|
        0 <= j < sec.instructions@.len() ==> instr_decodes_at(
            s,
            body + instrs_size(sec.instructions@, j),
            w,
            #[trigger] sec.instructions@[j],
        )
}

/// Where the cursor stands after decoding a run of code sections one after
/// another from offset `i`.
pub open spec fn secs_end(s: Seq<u8>, i: int, w: int, secs: Seq<CodeSection>) -> int
    decreases secs.len(),
{
    if secs.len() == 0 {
        i
    } else {
        secs_end(s, spec_code_section_end(s, i, w), w, secs.drop_first())
    }
}

/// The run of code sections is exactly what decoding `s` from offset `i`
/// yields, one section after another.
pub open spec fn code_sections_decode(s: Seq<u8>, i: int, w: int, secs: Seq<CodeSection>) -> bool
    decreases secs.len(),
{
    if secs.len() == 0 {
        true
    } else {
        &&& code_section_decodes_at(s, i, w, secs[0])
        &&& code_sections_decode(s, spec_code_section_end(s, i, w), w, secs.drop_first())
    }
}

/// Appending a section moves the chain's end to the end of that section.
#[verifier::rlimit(30)]
pub proof fn lemma_secs_end_push(s: Seq<u8>, i: int, w: int, secs: Seq<CodeSection>, x: CodeSection)
    ensures
        secs_end(s, i, w, secs.push(x)) == spec_code_section_end(s, secs_end(s, i, w, secs), w),
    decreases secs.len(),
{
    let pushed = secs.push(x);
    let e = spec_code_section_end(s, i, w);
    assert(pushed.len() == secs.len() + 1);
    if secs.len() == 0 {
        assert(pushed.drop_first() =~= Seq::<CodeSection>::empty());
        assert(secs_end(s, i, w, pushed) == secs_end(s, e, w, pushed.drop_first()));
        assert(secs_end(s, e, w, pushed.drop_first()) == e);
        assert(secs_end(s, i, w, secs) == i);
    } else {
        assert(pushed.drop_first() =~= secs.drop_first().push(x));
        assert(pushed[0] == secs[0]);
        assert(secs_end(s, i, w, pushed) == secs_end(s, e, w, pushed.drop_first()));
        assert(secs_end(s, i, w, secs) == secs_end(s, e, w, secs.drop_first()));
        lemma_secs_end_push(s, e, w, secs.drop_first(), x);
    }
}

/// Appending a section that decodes at the chain's end extends the chain.
#[verifier::rlimit(30)]
pub proof fn lemma_secs_decode_push(
    s: Seq<u8>,
    i: int,
    w: int,
    secs: Seq<CodeSection>,
    x: CodeSection,
)
    requires
        code_sections_decode(s, i, w, secs),
        code_section_decodes_at(s, secs_end(s, i, w, secs), w, x),
    ensures
        code_sections_decode(s, i, w, secs.push(x)),
    decreases secs.len(),
{
    let pushed = secs.push(x);
    let e = spec_code_section_end(s, i, w);
    assert(pushed.len() == secs.len() + 1);
    if secs.len() == 0 {
        assert(pushed.drop_first() =~= Seq::<CodeSection>::empty());
        assert(pushed[0] == x);
        assert(secs_end(s, i, w, secs) == i);
        assert(code_sections_decode(s, e, w, pushed.drop_first()));
    } else {
        assert(pushed.drop_first() =~= secs.drop_first().push(x));
        assert(pushed[0] == secs[0]);
        assert(code_sections_decode(s, e, w, secs.drop_first()));
        assert(secs_end(s, i, w, secs) == secs_end(s, e, w, secs.drop_first()));
        lemma_secs_decode_push(s, e, w, secs.drop_first(), x);
        assert(code_sections_decode(s, e, w, pushed.drop_first()));
    }
}

/// Where the instruction scan of a code body ends, it ends at a marker
/// inside the buffer, at or past where it started.
pub proof fn lemma_code_end_bounds(s: Seq<u8>, i: int, w: int)
    ensures
        code_end(s, i, w) matches Some(e) ==> i <= e < s.len() && s[e] == marker_byte(),
    decreases s.len() - i,
{
    if !(i < 0 || w < 1 || i >= s.len()) && s[i] != marker_byte() {
        match spec_arity(s[i]) {
            Option::Some(a) => {
                if i + spec_instr_size(a as int, w) <= s.len() && spec_instr_size(a as int, w)
                    >= 1 {
                    lemma_code_end_bounds(s, i + spec_instr_size(a as int, w), w);
                }
            },
            Option::None => {},
        }
    }
}

/// Whether the section stream at offset `i` scans cleanly: code sections in
/// marker order up to a `%D` marker, then a debug section filling the rest
/// of the buffer.
pub open spec fn spec_sections_ok(s: Seq<u8>, i: int, w: int) -> bool
    decreases s.len() - i,
    via spec_sections_ok_decreases
{
    if i < 0 || i + 2 > s.len() {
        false
    } else if s[i] == marker_byte() && s[i + 1] == 0x44 {
        &&& i + 3 <= s.len()
        &&& 1 <= s[i + 2] <= 4
        &&& debug_entries_fill(s, i + 3, s[i + 2] as int)
    } else {
        &&& spec_code_section_ok(s, i, w)
        &&& spec_sections_ok(s, spec_code_section_end(s, i, w), w)
    }
}

#[via_fn]
proof fn spec_sections_ok_decreases(s: Seq<u8>, i: int, w: int) {
    if !(i < 0 || i + 2 > s.len()) && !(s[i] == marker_byte() && s[i + 1] == 0x44) {
        if spec_code_section_ok(s, i, w) {
            lemma_marker_count_nonneg(s, i + 2);
            lemma_code_end_bounds(s, i + 2 + 2 * marker_repeat_count(s, i + 2), w);
        }
    }
}

/// A code section: its type, its decoded instructions, its total encoded
/// size (six marker bytes plus the instruction bytes), the byte offset of
/// each instruction within the section body, and the count of real (non
/// label-reset) instructions.
#[derive(Debug)]
pub struct CodeSection {
    pub section_type: SectionType,
    pub instructions: Vec<Instr>,
    pub size: u32,
    pub index_to_offset: Vec<u32>,
    pub num_real_instructions: u32,
}

impl CodeSection {
    /// A sound code section: sound instructions, one chained offset per
    /// instruction, and a faithful real-instruction count.
    pub open spec fn wf(&self) -> bool {
        &&& instrs_wf(self.instructions@)
        &&& self.index_to_offset@.len() == self.instructions@.len()
        &&& forall|j: int|
            0 <= j < self.instructions@.len() ==> (#[trigger] self.index_to_offset@[j]) as int
                == instrs_size(self.instructions@, j)
        &&& self.num_real_instructions as int == real_count(
            self.instructions@,
            self.instructions@.len() as int,
        )
    }

    /// Bundles a section from its parts, deriving the per-instruction
    /// offsets and the real-instruction count.
    pub fn new(section_type: SectionType, instructions: Vec<Instr>, size: u32) -> (r: CodeSection)
        requires
            instrs_wf(instructions@),
            instrs_size(instructions@, instructions@.len() as int) <= 0xfffffff0,
        ensures
            r.section_type == section_type,
            r.instructions == instructions,
            r.size == size,
            r.wf(),
    {
        let mut index_to_offset: Vec<u32> = Vec::new();
        let mut offset: u32 = 0;
        let mut num_real_instructions: u32 = 0;
        let n = instructions.len();
        proof {
            lemma_instrs_size_mono(instructions@, n as int, n as int);
        }
        let mut idx: usize = 0;
        while idx < n
            invariant
                n == instructions@.len(),
                n <= 0xfffffff0,
                idx <= n,
                instrs_wf(instructions@),
                instrs_size(instructions@, n as int) <= 0xfffffff0,
                offset as int == instrs_size(instructions@, idx as int),
                num_real_instructions as int == real_count(instructions@, idx as int),
                num_real_instructions <= idx,
                index_to_offset@.len() == idx,
                forall|j: int|
                    0 <= j < idx ==> (#[trigger] index_to_offset@[j]) as int == instrs_size(
                        instructions@,
                        j,
                    ),
            decreases n - idx,
        {
            proof {
                lemma_instrs_size_mono(instructions@, idx as int + 1, n as int);
                lemma_instrs_size_mono(instructions@, idx as int, idx as int + 1);
                lemma_real_count_bounds(instructions@, idx as int);
            }
            index_to_offset.push(offset);
            let sz = instructions[idx].size();
            offset = offset + sz as u32;
            if instructions[idx].get_opcode() != 0xf0 {
                num_real_instructions = num_real_instructions + 1;
            }
            idx = idx + 1;
        }
        CodeSection { section_type, instructions, size, index_to_offset, num_real_instructions }
    }

    /// Reads the section-type marker: `%F`, then zero, one or two further
    /// `%`-led marker groups for a function, initialization or main section.
    /// Three or more is a format error.
    pub fn read_section_type(reader: &mut KSMFileReader) -> (r: Result<SectionType, DumpError>)
        requires
            old(reader).wf(),
        ensures
            final(reader).wf(),
            final(reader).same_source(old(reader)),
            r is Ok <==> (old(reader).current_index + 2 <= old(reader).contents@.len() && old(
                reader,
            ).contents@[old(reader).current_index as int] == marker_byte() && old(
                reader,
            ).contents@[old(reader).current_index + 1] == 0x46 && marker_repeat_count(
                old(reader).contents@,
                old(reader).current_index + 2,
            ) <= 2 && old(reader).current_index + 2 + 2 * marker_repeat_count(
                old(reader).contents@,
                old(reader).current_index + 2,
            ) < old(reader).contents@.len()),
            r matches Ok(t) ==> {
                &&& t == spec_section_type(
                    marker_repeat_count(old(reader).contents@, old(reader).current_index + 2),
                )
                &&& final(reader).current_index == old(reader).current_index + 2 + 2
                    * marker_repeat_count(old(reader).contents@, old(reader).current_index + 2)
            },
            r matches Err(e) ==> (e == DumpError::UnexpectedEndOfInput
                || e == DumpError::UnknownSectionMarker),
    {
        let ghost s = old(reader).contents@;
        let ghost i = old(reader).current_index as int;
        let b0 = reader.next()?;
        if b0 != 0x25 {
            return Err(DumpError::UnknownSectionMarker);
        }
        let b1 = reader.next()?;
        if b1 != 0x46 {
            return Err(DumpError::UnknownSectionMarker);
        }
        let mut tries: usize = 0;
        loop
            invariant
                reader.wf(),
                reader.same_source(old(reader)),
                s == reader.contents@,
                i == old(reader).current_index,
                reader.current_index == i + 2 + 2 * tries,
                reader.current_index <= s.len(),
                marker_repeat_count(s, i + 2) == tries + marker_repeat_count(
                    s,
                    reader.current_index as int,
                ),
            ensures
                reader.wf(),
                reader.same_source(old(reader)),
                reader.current_index == i + 2 + 2 * tries,
                tries == marker_repeat_count(s, i + 2),
                reader.current_index < s.len(),
            decreases s.len() - reader.current_index,
        {
            let b = reader.peek()?;
            if b != 0x25 {
                break ;
            }
            let ghost cur = reader.current_index as int;
            reader.pop(2)?;
            proof {
                if cur + 2 >= s.len() {
                    assert(marker_repeat_count(s, cur) == 1);
                    assert(marker_repeat_count(s, cur + 2) == 0);
                }
            }
            tries = tries + 1;
        }
        if tries == 0 {
            Ok(SectionType::FUNCTION)
        } else if tries == 1 {
            Ok(SectionType::INITIALIZATION)
        } else if tries == 2 {
            Ok(SectionType::MAIN)
        } else {
            Err(DumpError::UnknownSectionMarker)
        }
    }

    /// Decodes one code section: the type marker, instructions back to back
    /// until the next `%` marker, then the trailing marker bytes the type
    /// dictates. The section's size is the six marker bytes plus the
    /// instruction bytes.
    #[verifier::rlimit(60)]
    pub fn read(reader: &mut KSMFileReader) -> (r: Result<CodeSection, DumpError>)
        requires
            old(reader).wf(),
            1 <= old(reader).arg_address_bytes <= 4,
            old(reader).contents@.len() < 0xffff0000,
        ensures
            final(reader).wf(),
            final(reader).same_source(old(reader)),
            r is Ok <==> spec_code_section_ok(
                old(reader).contents@,
                old(reader).current_index as int,
                old(reader).arg_address_bytes as int,
            ),
            r matches Ok(sec) ==> {
                &&& sec.wf()
                &&& sec.size as int == 6 + instrs_size(
                    sec.instructions@,
                    sec.instructions@.len() as int,
                )
                &&& forall|j: int|
                    0 <= j < sec.instructions@.len() ==> (#[trigger] sec.instructions@[j]).wf()
                        && sec.instructions@[j].operand_width == old(reader).arg_address_bytes
                &&& final(reader).current_index >= old(reader).current_index + 2
                &&& final(reader).current_index as int == spec_code_section_end(
                    old(reader).contents@,
                    old(reader).current_index as int,
                    old(reader).arg_address_bytes as int,
                )
                &&& code_section_decodes_at(
                    old(reader).contents@,
                    old(reader).current_index as int,
                    old(reader).arg_address_bytes as int,
                    sec,
                )
            },
    {
        let ghost s = old(reader).contents@;
        let ghost w = old(reader).arg_address_bytes as int;
        let mut size: u32 = 6;
        let mut instructions: Vec<Instr> = Vec::new();
        let section_type = CodeSection::read_section_type(reader)?;
        proof {
            lemma_marker_count_nonneg(s, old(reader).current_index + 2);
        }
        let ghost body_start = reader.current_index as int;
        let ghost repeats = marker_repeat_count(s, old(reader).current_index + 2);
        loop
            invariant
                reader.wf(),
                reader.same_source(old(reader)),
                s == reader.contents@,
                s.len() < 0xffff0000,
                1 <= w <= 4,
                w == old(reader).arg_address_bytes,
                0 <= body_start <= reader.current_index <= s.len(),
                body_start == old(reader).current_index + 2 + 2 * marker_repeat_count(
                    s,
                    old(reader).current_index + 2,
                ),
                code_end(s, body_start, w) == code_end(s, reader.current_index as int, w),
                instrs_wf(instructions@),
                size as int == 6 + instrs_size(instructions@, instructions@.len() as int),
                instrs_size(instructions@, instructions@.len() as int) == reader.current_index
                    - body_start,
                forall|j: int|
                    0 <= j < instructions@.len() ==> (#[trigger] instructions@[j]).operand_width
                        == w,
                forall|j: int|
                    0 <= j < instructions@.len() ==> instr_decodes_at(
                        s,
                        body_start + instrs_size(instructions@, j),
                        w,
                        #[trigger] instructions@[j],
                    ),
            ensures
                reader.wf(),
                reader.same_source(old(reader)),
                instrs_wf(instructions@),
                size as int == 6 + instrs_size(instructions@, instructions@.len() as int),
                instrs_size(instructions@, instructions@.len() as int) <= s.len(),
                instrs_size(instructions@, instructions@.len() as int) == reader.current_index
                    - body_start,
                code_end(s, body_start, w) == Some(reader.current_index as int),
                forall|j: int|
                    0 <= j < instructions@.len() ==> (#[trigger] instructions@[j]).operand_width
                        == w,
                forall|j: int|
                    0 <= j < instructions@.len() ==> instr_decodes_at(
                        s,
                        body_start + instrs_size(instructions@, j),
                        w,
                        #[trigger] instructions@[j],
                    ),
            decreases s.len() - reader.current_index,
        {
            let b = match reader.peek() {
                Ok(b) => b,
                Err(e) => {
                    proof {
                        assert(code_end(s, reader.current_index as int, w) is None);
                    }
                    return Err(e);
                },
            };
            if b == 0x25 {
                break ;
            }
            let ghost pos = reader.current_index as int;
            let ghost prev = instructions@;
            let instr = match Instr::read(reader) {
                Ok(instr) => instr,
                Err(e) => {
                    proof {
                        assert((spec_arity(s[pos]) matches Some(a) ==> spec_instr_size(
                            a as int,
                            w,
                        ) >= 1) && (spec_arity(s[pos]) matches Some(a) ==> pos + spec_instr_size(
                            a as int,
                            w,
                        ) > s.len())) by {
                            if spec_arity(s[pos]) is Some {
                                let a = spec_arity(s[pos]).unwrap();
                                assert(a as int * w >= 0) by (nonlinear_arith)
                                    requires
                                        a >= 0,
                                        w >= 1,
                                ;
                            }
                        }
                        assert(code_end(s, pos, w) is None);
                    }
                    return Err(e);
                },
            };
            let sz = instr.size();
            size = size + sz as u32;
            instructions.push(instr);
            proof {
                assert(spec_instr_size(instr.num_operands as int, w) >= 1) by (nonlinear_arith)
                    requires
                        instr.num_operands >= 0,
                        w >= 1,
                ;
                assert(code_end(s, pos, w) == code_end(s, reader.current_index as int, w));
                assert(forall|j: int|
                    0 <= j < prev.len() ==> instructions@[j] == #[trigger] prev[j]);
                assert forall|j: int| 0 <= j <= prev.len() implies instrs_size(instructions@, j)
                    == instrs_size(prev, j) by {
                    lemma_instrs_size_push(prev, instr, j);
                }
                assert(instrs_size(instructions@, instructions@.len() as int) == instrs_size(
                    prev,
                    prev.len() as int,
                ) + spec_instr_size(instr.num_operands as int, w));
            }
        }
        proof {
            assert(section_type == spec_section_type(repeats));
        }
        if section_type == SectionType::FUNCTION {
            reader.pop(4)?;
        } else if section_type == SectionType::INITIALIZATION {
            reader.pop(2)?;
        }
        proof {
            lemma_instrs_size_mono(instructions@, 0, instructions@.len() as int);
        }
        Ok(CodeSection::new(section_type, instructions, size))
    }

    /// True iff some instruction operand of this section resolves to a
    /// string constant that contains `symbol` as a substring. An operand
    /// that resolves to no pool entry is a dangling reference.
    pub fn contains(&self, symbol: &String, argument_section: &ArgumentSection) -> (r: Result<
        bool,
        DumpError,
    >)
        requires
            argument_section.addr_to_index@ == addr_map(argument_section.argument_list@),
        ensures
            r matches Ok(b) ==> (b <==> exists|i: int, k: int|
                0 <= i < self.instructions@.len() && 0 <= k
                    < (#[trigger] self.instructions@[i]).operands@.len() && operand_matches(
                    argument_section.argument_list@,
                    #[trigger] self.instructions@[i].operands@[k],
                    symbol@,
                )),
            operands_resolve(self.instructions@, argument_section.argument_list@) ==> r is Ok,
            r matches Err(e) ==> e == DumpError::DanglingReference && !operands_resolve(
                self.instructions@,
                argument_section.argument_list@,
            ),
    {
        let n = self.instructions.len();
        let mut i: usize = 0;
        while i < n
            invariant
                argument_section.addr_to_index@ == addr_map(argument_section.argument_list@),
                n == self.instructions@.len(),
                i <= n,
                forall|a: int, b: int|
                    0 <= a < i && 0 <= b < (#[trigger] self.instructions@[a]).operands@.len()
                        ==> !operand_matches(
                        argument_section.argument_list@,
                        #[trigger] self.instructions@[a].operands@[b],
                        symbol@,
                    ),
            decreases n - i,
        {
            let instruction = &self.instructions[i];
            let m = instruction.operands.len();
            let mut k: usize = 0;
            while k < m
                invariant
                    argument_section.addr_to_index@ == addr_map(argument_section.argument_list@),
                    n == self.instructions@.len(),
                    i < n,
                    instruction == &self.instructions@[i as int],
                    m == instruction.operands@.len(),
                    k <= m,
                    forall|b: int|
                        0 <= b < k ==> !operand_matches(
                            argument_section.argument_list@,
                            #[trigger] instruction.operands@[b],
                            symbol@,
                        ),
                decreases m - k,
            {
                let operand = instruction.operands[k];
                match argument_section.get_index(operand) {
                    Ok(_) => {},
                    Err(e) => {
                        proof {
                            assert(!pool_has(argument_section.argument_list@, operand));
                            assert(!operands_resolve(
                                self.instructions@,
                                argument_section.argument_list@,
                            ));
                        }
                        return Err(e);
                    },
                };
                if !operand_no_match_check(argument_section, operand, symbol) {
                    return Ok(true);
                }
                k = k + 1;
            }
            i = i + 1;
        }
        Ok(false)
    }

    /// The name a function section displays: the label text of a leading
    /// label-reset instruction, stripped of a backtick-delimited suffix and
    /// preceded by one space; empty where the section has no such leading
    /// instruction or its label has no text.
    pub fn get_function_name(&self, argument_section: &ArgumentSection) -> (r: Result<
        String,
        DumpError,
    >)
        requires
            argument_section.addr_to_index@ == addr_map(argument_section.argument_list@),
        ensures
            r is Err <==> (self.instructions@.len() > 0 && spec_is_label_reset(
                self.instructions@[0].opcode,
            ) && self.instructions@[0].operands@.len() > 0 && !pool_has(
                argument_section.argument_list@,
                self.instructions@[0].operands@[0],
            )),
            r matches Err(e) ==> e == DumpError::DanglingReference,
            r matches Ok(name) ==> {
                if self.instructions@.len() > 0 && spec_is_label_reset(self.instructions@[0].opcode)
                    && self.instructions@[0].operands@.len() > 0 {
                    exists|j: int|
                        0 <= j < argument_section.argument_list@.len() && (
                        #[trigger] argument_section.argument_list@[j]).address
                            == self.instructions@[0].operands@[0] && (match crate::argument::spec_repr(
                            argument_section.argument_list@[j].value@,
                        ) {
                            Option::Some(rep) => name@ == seq![' '] + rep.take(
                                crate::text::first_occ(rep, '`'),
                            ),
                            Option::None => name@ =~= Seq::<char>::empty(),
                        })
                } else {
                    name@ =~= Seq::<char>::empty()
                }
            },
    {
        if self.instructions.len() == 0 {
            return Ok(String::new());
        }
        let first = &self.instructions[0];
        if first.get_opcode() != 0xf0 || first.operands.len() == 0 {
            return Ok(String::new());
        }
        let operand = first.operands[0];
        let ix = match argument_section.get_index(operand) {
            Ok(ix) => ix,
            Err(e) => {
                return Err(e);
            },
        };
        let argument = &argument_section.argument_list[ix];
        let label = match argument.get_repr() {
            Some(label) => label,
            None => {
                return Ok(String::new());
            },
        };
        let stem = crate::text::prefix_before_char(&label, '`');
        proof {
            if !label@.contains('`') {
                lemma_first_occ_absent(label@, '`');
            }
        }
        let mut name = String::new();
        crate::text::push_char(&mut name, ' ');
        crate::text::push_string(&mut name, &stem);
        Ok(name)
    }

    /// The section's type.
    pub fn get_type(&self) -> (r: SectionType)
        ensures
            r == self.section_type,
    {
        self.section_type
    }

    /// The decoded instructions in order.
    pub fn get_instructions(&self) -> (r: &Vec<Instr>)
        ensures
            r == self.instructions,
    {
        &self.instructions
    }

    /// The section's total encoded size in bytes.
    pub fn size(&self) -> (r: u32)
        ensures
            r == self.size,
    {
        self.size
    }

    /// How many real (non label-reset) instructions the section holds.
    pub fn number_real_instructions(&self) -> (r: u32)
        ensures
            r == self.num_real_instructions,
    {
        self.num_real_instructions
    }

    /// The byte offset of the instruction at `index` within the section
    /// body.
    pub fn get_offset(&self, index: usize) -> (r: u32)
        requires
            self.wf(),
            index < self.instructions@.len(),
        ensures
            r as int == instrs_size(self.instructions@, index as int),
    {
        self.index_to_offset[index]
    }
}

/// One debug entry: a source line number and the address ranges attributed
/// to it.
#[derive(Debug)]
pub struct DebugEntry {
    pub line_number: u16,
    pub number_ranges: usize,
    pub ranges: Vec<(u32, u32)>,
}

impl DebugEntry {
    /// Bundles a line number and its ranges.
    pub fn new(line_number: u16, number_ranges: usize, ranges: Vec<(u32, u32)>) -> (r: DebugEntry)
        ensures
            r.line_number == line_number,
            r.number_ranges == number_ranges,
            r.ranges == ranges,
    {
        DebugEntry { line_number, number_ranges, ranges }
    }

    /// Decodes one debug entry: a two-byte big-endian line number, a one-byte
    /// range count, then that many (start, end) pairs of range addresses.
    pub fn read(reader: &mut KSMFileReader) -> (r: Result<DebugEntry, DumpError>)
        requires
            old(reader).wf(),
            1 <= old(reader).debug_range_bytes <= 4,
        ensures
            final(reader).wf(),
            final(reader).same_source(old(reader)),
            r is Ok <==> (old(reader).current_index + 3 <= old(reader).contents@.len() && old(
                reader,
            ).current_index + 3 + old(reader).contents@[old(reader).current_index + 2] * 2 * old(
                reader,
            ).debug_range_bytes <= old(reader).contents@.len()),
            r matches Ok(entry) ==> {
                &&& entry.line_number as int == be_bytes_val(
                    old(reader).contents@,
                    old(reader).current_index as int,
                    2,
                )
                &&& entry.number_ranges == old(reader).contents@[old(reader).current_index + 2]
                &&& entry.ranges@.len() == entry.number_ranges
                &&& final(reader).current_index == old(reader).current_index + 3
                    + entry.number_ranges * 2 * old(reader).debug_range_bytes
                &&& forall|k: int|
                    0 <= k < entry.ranges@.len() ==> {
                        &&& (#[trigger] entry.ranges@[k]).0 == be_bytes_val(
                            old(reader).contents@,
                            old(reader).current_index + 3 + k * 2 * old(reader).debug_range_bytes,
                            old(reader).debug_range_bytes as nat,
                        )
                        &&& entry.ranges@[k].1 == be_bytes_val(
                            old(reader).contents@,
                            old(reader).current_index + 3 + k * 2 * old(reader).debug_range_bytes
                                + old(reader).debug_range_bytes,
                            old(reader).debug_range_bytes as nat,
                        )
                    }
            },
            r matches Err(e) ==> e == DumpError::UnexpectedEndOfInput,
    {
        let ghost s = old(reader).contents@;
        let ghost i = old(reader).current_index as int;
        let ghost w = old(reader).debug_range_bytes as int;
        let line_number = reader.read_uint16_be()?;
        let number_ranges = reader.next()? as usize;
        let mut ranges: Vec<(u32, u32)> = Vec::new();
        let mut k: usize = 0;
        proof {
            assert(0int * 2 * w == 0) by (nonlinear_arith);
        }
        while k < number_ranges
            invariant
                reader.wf(),
                reader.same_source(old(reader)),
                s == reader.contents@,
                i == old(reader).current_index,
                1 <= w <= 4,
                w == old(reader).debug_range_bytes,
                number_ranges <= 255,
                number_ranges == s[i + 2],
                i + 3 <= s.len(),
                k <= number_ranges,
                reader.current_index == i + 3 + k * 2 * w,
                ranges@.len() == k,
                forall|m: int|
                    0 <= m < k ==> {
                        &&& (#[trigger] ranges@[m]).0 == be_bytes_val(s, i + 3 + m * 2 * w, w as nat)
                        &&& ranges@[m].1 == be_bytes_val(s, i + 3 + m * 2 * w + w, w as nat)
                    },
            decreases number_ranges - k,
        {
            let range_start = match reader.read_debug_range_address() {
                Ok(v) => v,
                Err(e) => {
                    proof {
                        lemma_range_step_bound(number_ranges as int, k as int, w);
                    }
                    return Err(e);
                },
            };
            let range_end = match reader.read_debug_range_address() {
                Ok(v) => v,
                Err(e) => {
                    proof {
                        lemma_range_step_bound(number_ranges as int, k as int, w);
                    }
                    return Err(e);
                },
            };
            ranges.push((range_start, range_end));
            proof {
                assert((k + 1) as int * 2 * w == k * 2 * w + 2 * w) by (nonlinear_arith);
            }
            k = k + 1;
        }
        proof {
            assert(k * 2 * w == number_ranges * 2 * w);
        }
        Ok(DebugEntry::new(line_number, number_ranges, ranges))
    }
}

proof fn lemma_range_step_bound(n: int, k: int, w: int)
    requires
        0 <= k < n,
        1 <= w,
    ensures
        k * 2 * w + 2 * w <= n * 2 * w,
        (k + 1) * 2 * w == k * 2 * w + 2 * w,
{
    assert((k + 1) * 2 * w == k * 2 * w + 2 * w) by (nonlinear_arith);
    assert((k + 1) * 2 * w <= n * 2 * w) by (nonlinear_arith)
        requires
            k + 1 <= n,
            w >= 1,
    ;
}

/// The debug entry `e` is exactly what decoding `s` at offset `i` with
/// range-address width `w` yields.
pub open spec fn debug_entry_decodes_at(s: Seq<u8>, i: int, w: int, e: DebugEntry) -> bool {
    &&& 0 <= i
    &&& i + 3 <= s.len()
    &&& e.line_number as int == be_bytes_val(s, i, 2)
    &&& e.number_ranges == s[i + 2]
    &&& e.ranges@.len() == e.number_ranges
    &&& forall|k: int|
        0 <= k < e.ranges@.len() ==> {
            &&& (#[trigger] e.ranges@[k]).0 == be_bytes_val(s, i + 3 + k * 2 * w, w as nat)
            &&& e.ranges@[k].1 == be_bytes_val(s, i + 3 + k * 2 * w + w, w as nat)
        }
}

/// The encoded size of a debug entry: line number, range count, and the
/// range address pairs.
pub open spec fn spec_entry_size(e: DebugEntry, w: int) -> int {
    3 + e.number_ranges * 2 * w
}

/// The summed encoded sizes of a run of debug entries.
pub open spec fn entries_total(entries: Seq<DebugEntry>, w: int) -> int
    decreases entries.len(),
{
    if entries.len() == 0 {
        0
    } else {
        spec_entry_size(entries[0], w) + entries_total(entries.drop_first(), w)
    }
}

/// The run of debug entries is exactly what decoding `s` from offset `i`
/// yields, one after another.
pub open spec fn debug_entries_decode(s: Seq<u8>, i: int, w: int, entries: Seq<DebugEntry>) -> bool
    decreases entries.len(),
{
    if entries.len() == 0 {
        true
    } else {
        &&& debug_entry_decodes_at(s, i, w, entries[0])
        &&& debug_entries_decode(s, i + spec_entry_size(entries[0], w), w, entries.drop_first())
    }
}

proof fn lemma_entries_total_push(entries: Seq<DebugEntry>, w: int, x: DebugEntry)
    ensures
        entries_total(entries.push(x), w) == entries_total(entries, w) + spec_entry_size(x, w),
    decreases entries.len(),
{
    let pushed = entries.push(x);
    assert(pushed.len() == entries.len() + 1);
    assert(entries_total(pushed, w) == spec_entry_size(pushed[0], w) + entries_total(
        pushed.drop_first(),
        w,
    ));
    if entries.len() == 0 {
        assert(pushed.drop_first() =~= Seq::<DebugEntry>::empty());
        assert(entries_total(pushed.drop_first(), w) == 0);
        assert(pushed[0] == x);
    } else {
        assert(pushed.drop_first() =~= entries.drop_first().push(x));
        assert(pushed[0] == entries[0]);
        lemma_entries_total_push(entries.drop_first(), w, x);
        assert(entries_total(entries, w) == spec_entry_size(entries[0], w) + entries_total(
            entries.drop_first(),
            w,
        ));
    }
}

proof fn lemma_entries_decode_push(s: Seq<u8>, i: int, w: int, entries: Seq<DebugEntry>, x: DebugEntry)
    requires
        debug_entries_decode(s, i, w, entries),
        debug_entry_decodes_at(s, i + entries_total(entries, w), w, x),
    ensures
        debug_entries_decode(s, i, w, entries.push(x)),
    decreases entries.len(),
{
    let pushed = entries.push(x);
    assert(pushed.len() == entries.len() + 1);
    if entries.len() == 0 {
        assert(pushed.drop_first() =~= Seq::<DebugEntry>::empty());
        assert(pushed[0] == x);
        assert(entries_total(entries, w) == 0);
        assert(debug_entries_decode(s, i + spec_entry_size(x, w), w, pushed.drop_first()));
    } else {
        assert(pushed.drop_first() =~= entries.drop_first().push(x));
        assert(pushed[0] == entries[0]);
        assert(debug_entries_decode(
            s,
            i + spec_entry_size(entries[0], w),
            w,
            entries.drop_first(),
        ));
        assert(entries_total(entries, w) == spec_entry_size(entries[0], w) + entries_total(
            entries.drop_first(),
            w,
        ));
        lemma_entries_decode_push(
            s,
            i + spec_entry_size(entries[0], w),
            w,
            entries.drop_first(),
            x,
        );
        assert(debug_entries_decode(s, i + spec_entry_size(pushed[0], w), w, pushed.drop_first()));
    }
}

/// The largest line number among the first `j` debug entries.
pub open spec fn entries_max_line(entries: Seq<DebugEntry>, j: int) -> int
    decreases j,
{
    if j <= 0 {
        0
    } else if entries[j - 1].line_number as int > entries_max_line(entries, j - 1) {
        entries[j - 1].line_number as int
    } else {
        entries_max_line(entries, j - 1)
    }
}

/// Whether a whole run of debug entries fills `s` from offset `i` exactly to
/// the end of the buffer.
pub open spec fn debug_entries_fill(s: Seq<u8>, i: int, w: int) -> bool
    decreases s.len() - i,
{
    if i >= s.len() {
        i == s.len()
    } else if i + 3 > s.len() {
        false
    } else if i + 3 + s[i + 2] * 2 * w <= s.len() && s[i + 2] * 2 * w >= 0 {
        debug_entries_fill(s, i + 3 + s[i + 2] * 2 * w, w)
    } else {
        false
    }
}

/// The first range of the list that contains the address, in list order.
pub open spec fn range_covering(ranges: Seq<(u32, u32)>, addr: u32) -> Option<(u32, u32)>
    decreases ranges.len(),
{
    if ranges.len() == 0 {
        None
    } else if ranges[0].0 <= addr && addr <= ranges[0].1 {
        Some(ranges[0])
    } else {
        range_covering(ranges.drop_first(), addr)
    }
}

/// The first (entry, range) pair whose range contains the address, scanning
/// entries and their ranges in file order: the line number and the range.
pub open spec fn find_covering(entries: Seq<DebugEntry>, addr: u32) -> Option<(u16, (u32, u32))>
    decreases entries.len(),
{
    if entries.len() == 0 {
        None
    } else {
        match range_covering(entries[0].ranges@, addr) {
            Option::Some(rg) => Some((entries[0].line_number, rg)),
            Option::None => find_covering(entries.drop_first(), addr),
        }
    }
}

/// The debug section: the declared range-address width, the largest line
/// number seen, and the entries in file order.
#[derive(Debug)]
pub struct DebugSection {
    pub range_size: u8,
    pub max_line_number: u16,
    pub debug_entries: Vec<DebugEntry>,
}

impl DebugSection {
    /// Bundles the parts of a debug section.
    pub fn new(range_size: u8, max_line_number: u16, debug_entries: Vec<DebugEntry>) -> (r:
        DebugSection)
        ensures
            r.range_size == range_size,
            r.max_line_number == max_line_number,
            r.debug_entries == debug_entries,
    {
        DebugSection { range_size, max_line_number, debug_entries }
    }

    /// Decodes the debug section at the cursor: the `%D` marker, a one-byte
    /// range-address width, then debug entries until the end of the buffer.
    pub fn read(reader: &mut KSMFileReader) -> (r: Result<DebugSection, DumpError>)
        requires
            old(reader).wf(),
        ensures
            final(reader).wf(),
            final(reader).contents == old(reader).contents,
            final(reader).arg_address_bytes == old(reader).arg_address_bytes,
            r is Ok <==> (old(reader).current_index + 3 <= old(reader).contents@.len() && old(
                reader,
            ).contents@[old(reader).current_index as int] == marker_byte() && old(
                reader,
            ).contents@[old(reader).current_index + 1] == 0x44 && 1 <= old(reader).contents@[old(
                reader,
            ).current_index + 2] <= 4 && debug_entries_fill(
                old(reader).contents@,
                old(reader).current_index + 3,
                old(reader).contents@[old(reader).current_index + 2] as int,
            )),
            r matches Ok(sec) ==> {
                &&& old(reader).current_index + 3 <= old(reader).contents@.len()
                &&& old(reader).contents@[old(reader).current_index as int] == marker_byte()
                &&& old(reader).contents@[old(reader).current_index + 1] == 0x44
                &&& sec.range_size == old(reader).contents@[old(reader).current_index + 2]
                &&& 1 <= sec.range_size <= 4
                &&& debug_entries_fill(
                    old(reader).contents@,
                    old(reader).current_index + 3,
                    sec.range_size as int,
                )
                &&& final(reader).current_index == old(reader).contents@.len()
                &&& sec.max_line_number as int == entries_max_line(
                    sec.debug_entries@,
                    sec.debug_entries@.len() as int,
                )
                &&& debug_entries_decode(
                    old(reader).contents@,
                    old(reader).current_index + 3,
                    sec.range_size as int,
                    sec.debug_entries@,
                )
                &&& old(reader).current_index + 3 + entries_total(
                    sec.debug_entries@,
                    sec.range_size as int,
                ) == old(reader).contents@.len()
                &&& forall|j: int|
                    0 <= j < sec.debug_entries@.len() ==> (
                    #[trigger] sec.debug_entries@[j]).ranges@.len()
                        == sec.debug_entries@[j].number_ranges
            },
    {
        let ghost s = old(reader).contents@;
        let b0 = reader.next()?;
        let b1 = if b0 == 0x25 {
            reader.next()?
        } else {
            return Err(DumpError::UnknownSectionMarker);
        };
        if b1 != 0x44 {
            return Err(DumpError::UnknownSectionMarker);
        }
        let range_size = reader.next()?;
        if range_size < 1 || range_size > 4 {
            return Err(DumpError::MalformedSectionStructure);
        }
        let mut debug_entries: Vec<DebugEntry> = Vec::new();
        let mut max_line_number: u16 = 0;
        reader.set_range_bytes(range_size);
        loop
            invariant
                reader.wf(),
                reader.contents == old(reader).contents,
                reader.arg_address_bytes == old(reader).arg_address_bytes,
                reader.debug_range_bytes == range_size,
                1 <= range_size <= 4,
                s == reader.contents@,
                old(reader).current_index + 3 <= s.len(),
                range_size == s[old(reader).current_index + 2],
                reader.current_index <= s.len(),
                debug_entries_fill(s, reader.current_index as int, range_size as int)
                    == debug_entries_fill(s, old(reader).current_index + 3, range_size as int),
                debug_entries_decode(
                    s,
                    old(reader).current_index + 3,
                    range_size as int,
                    debug_entries@,
                ),
                reader.current_index == old(reader).current_index + 3 + entries_total(
                    debug_entries@,
                    range_size as int,
                ),
                max_line_number as int == entries_max_line(
                    debug_entries@,
                    debug_entries@.len() as int,
                ),
                forall|j: int|
                    0 <= j < debug_entries@.len() ==> (#[trigger] debug_entries@[j]).ranges@.len()
                        == debug_entries@[j].number_ranges,
            ensures
                reader.wf(),
                reader.contents == old(reader).contents,
                reader.arg_address_bytes == old(reader).arg_address_bytes,
                reader.current_index == s.len(),
                debug_entries_fill(s, old(reader).current_index + 3, range_size as int),
                debug_entries_decode(
                    s,
                    old(reader).current_index + 3,
                    range_size as int,
                    debug_entries@,
                ),
                reader.current_index == old(reader).current_index + 3 + entries_total(
                    debug_entries@,
                    range_size as int,
                ),
                max_line_number as int == entries_max_line(
                    debug_entries@,
                    debug_entries@.len() as int,
                ),
                forall|j: int|
                    0 <= j < debug_entries@.len() ==> (#[trigger] debug_entries@[j]).ranges@.len()
                        == debug_entries@[j].number_ranges,
            decreases s.len() - reader.current_index,
        {
            if reader.eof() {
                break ;
            }
            let ghost prev = debug_entries@;
            let ghost pos = reader.current_index as int;
            let entry = match DebugEntry::read(reader) {
                Ok(entry) => entry,
                Err(e) => {
                    proof {
                        assert(!debug_entries_fill(s, pos, range_size as int));
                    }
                    return Err(e);
                },
            };
            proof {
                assert(s[pos + 2] * 2 * range_size as int >= 0) by (nonlinear_arith)
                    requires
                        s[pos + 2] >= 0,
                        range_size >= 1,
                ;
                assert(debug_entries_fill(s, pos, range_size as int) == debug_entries_fill(
                    s,
                    pos + 3 + s[pos + 2] * 2 * range_size,
                    range_size as int,
                ));
            }
            if entry.line_number > max_line_number {
                max_line_number = entry.line_number;
            }
            proof {
                assert(debug_entry_decodes_at(s, pos, range_size as int, entry));
                lemma_entries_decode_push(
                    s,
                    old(reader).current_index + 3,
                    range_size as int,
                    prev,
                    entry,
                );
                lemma_entries_total_push(prev, range_size as int, entry);
            }
            debug_entries.push(entry);
            proof {
                assert(forall|j: int|
                    0 <= j < prev.len() ==> debug_entries@[j] == #[trigger] prev[j]);
                assert forall|j: int| 0 <= j <= prev.len() implies entries_max_line(
                    debug_entries@,
                    j,
                ) == entries_max_line(prev, j) by {
                    lemma_entries_max_push(prev, entry, j);
                }
                assert(reader.current_index - pos >= 3);
            }
        }
        Ok(DebugSection::new(range_size, max_line_number, debug_entries))
    }

    /// Finds the first debug entry and range whose span contains the
    /// address, scanning entries and their ranges in file order.
    pub fn find(&self, addr: u32) -> (r: Option<(&DebugEntry, (u32, u32))>)
        ensures
            r is Some <==> find_covering(self.debug_entries@, addr) is Some,
            r matches Some((entry, range)) ==> {
                &&& range.0 <= addr <= range.1
                &&& find_covering(self.debug_entries@, addr) == Some((entry.line_number, range))
                &&& exists|j: int|
                    0 <= j < self.debug_entries@.len() && entry == &(
                    #[trigger] self.debug_entries@[j])
            },
    {
        let n = self.debug_entries.len();
        let ghost entries = self.debug_entries@;
        proof {
            assert(entries.skip(0) =~= entries);
        }
        let mut j: usize = 0;
        while j < n
            invariant
                n == self.debug_entries@.len(),
                entries == self.debug_entries@,
                j <= n,
                find_covering(entries, addr) == find_covering(entries.skip(j as int), addr),
            decreases n - j,
        {
            let entry = &self.debug_entries[j];
            let m = entry.ranges.len();
            proof {
                assert(entries.skip(j as int)[0] == entries[j as int]);
                assert(entry.ranges@.skip(0) =~= entry.ranges@);
            }
            let mut k: usize = 0;
            while k < m
                invariant
                    n == self.debug_entries@.len(),
                    entries == self.debug_entries@,
                    j < n,
                    entry == &self.debug_entries@[j as int],
                    m == entry.ranges@.len(),
                    k <= m,
                    find_covering(entries, addr) == find_covering(entries.skip(j as int), addr),
                    range_covering(entry.ranges@, addr) == range_covering(
                        entry.ranges@.skip(k as int),
                        addr,
                    ),
                decreases m - k,
            {
                proof {
                    assert(entry.ranges@.skip(k as int)[0] == entry.ranges@[k as int]);
                    assert(entry.ranges@.skip(k as int).drop_first() =~= entry.ranges@.skip(
                        k as int + 1,
                    ));
                }
                let (range_start, range_end) = entry.ranges[k];
                if addr >= range_start && addr <= range_end {
                    proof {
                        assert(entry.ranges@[k as int] == (range_start, range_end));
                        assert(range_covering(entry.ranges@.skip(k as int), addr) == Some(
                            (range_start, range_end),
                        ));
                        assert(entries.skip(j as int)[0] == entries[j as int]);
                        assert(find_covering(entries.skip(j as int), addr) == Some(
                            (entry.line_number, (range_start, range_end)),
                        ));
                        assert(entry == &self.debug_entries@[j as int]);
                    }
                    return Some((entry, (range_start, range_end)));
                }
                k = k + 1;
            }
            proof {
                assert(entry.ranges@.skip(m as int) =~= Seq::<(u32, u32)>::empty());
                assert(range_covering(entry.ranges@, addr) is None);
                assert(entries.skip(j as int).drop_first() =~= entries.skip(j as int + 1));
            }
            j = j + 1;
        }
        proof {
            assert(entries.skip(n as int) =~= Seq::<DebugEntry>::empty());
        }
        None
    }

    /// The declared width in bytes of a range address.
    pub fn get_range_bytes(&self) -> (r: u8)
        ensures
            r == self.range_size,
    {
        self.range_size
    }

    /// The debug entries in file order.
    pub fn get_debug_entries(&self) -> (r: &Vec<DebugEntry>)
        ensures
            r == self.debug_entries,
    {
        &self.debug_entries
    }

    /// The largest line number among the entries.
    pub fn get_max_line_number(&self) -> (r: u16)
        ensures
            r == self.max_line_number,
    {
        self.max_line_number
    }
}

proof fn lemma_entries_max_push(entries: Seq<DebugEntry>, x: DebugEntry, j: int)
    requires
        0 <= j <= entries.len(),
    ensures
        entries_max_line(entries.push(x), j) == entries_max_line(entries, j),
    decreases j,
{
    if j > 0 {
        lemma_entries_max_push(entries, x, j - 1);
        assert(entries.push(x)[j - 1] == entries[j - 1]);
    }
}

} // verus!
