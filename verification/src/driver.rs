//! The assembler driver and the disassembler.
//!
//! `drive` specifies the single linear pass of assembly: one program
//! counter and one label table threaded through the lines, each line parsed
//! by `line_spec`, each failure aborting the run with its 1-based line
//! number. `disasm` specifies the byte-stream scan of disassembly, which
//! never fails: unknown opcode bytes are skipped and a truncated final
//! instruction keeps whatever operand bytes remain.
use vstd::prelude::*;
use vstd::string::StringExecFns;
use crate::error::CompileError;
use crate::error::ParseError;
use crate::instruction::AddressView;
use crate::instruction::Instruction;
use crate::instruction::InstructionAddress;
use crate::instruction::InstructionView;
use crate::instruction::lemma_line_spec_len;
use crate::instruction::line_spec;
use crate::instruction::render_line;
use crate::instruction::views_of;
use crate::labels::LabelTable;
use crate::ops::OpCode;
use crate::ops::OpcodeTable;
use crate::ops::canonical_entries;
use crate::ops::find_by_code;
use crate::ops::lemma_find_by_code_mem;
use crate::ops::operand_width;
use crate::ops::wf_entries;
use crate::ops::wf_entry;
use crate::ops::width_of;
use crate::text::replace_crlf;
use crate::text::split_on;
use crate::text::split_string;
use crate::text::strip_crlf;
use crate::text::trim_str;
use crate::text::trimmed;

verus! {

// ---------------------------------------------------------------------------
// The driver's specification
// ---------------------------------------------------------------------------
/// The program counter after an instruction with `n` operand bytes,
/// wrapping around the 16-bit address space.
pub open spec fn next_pc(pc: u16, n: nat) -> u16 {
    ((pc + 1 + n) % 0x10000) as u16
}

/// Resolve one parsed instruction's address against the running state.
///
/// A label declaration binds the label to the current program counter and
/// takes that counter as its address; a line without an address token also
/// takes the counter; an explicit numeric address is kept, and on the first
/// line it overrides the origin the counter continues from. The counter
/// then advances by the instruction's size. Returns the resolved
/// instruction, the next counter, and the updated label table.
pub open spec fn drive_step(
    iv: InstructionView,
    pc: u16,
    labels: Map<Seq<char>, u16>,
    first: bool,
) -> (InstructionView, u16, Map<Seq<char>, u16>) {
    match iv.address {
        AddressView::LabelReference(name) => (
            InstructionView {
                mnemonic: iv.mnemonic,
                mode: iv.mode,
                code: iv.code,
                operands: iv.operands,
                address: AddressView::Resolved(pc),
            },
            next_pc(pc, iv.operands.len()),
            labels.insert(name, pc),
        ),
        AddressView::Unresolved => (
            InstructionView {
                mnemonic: iv.mnemonic,
                mode: iv.mode,
                code: iv.code,
                operands: iv.operands,
                address: AddressView::Resolved(pc),
            },
            next_pc(pc, iv.operands.len()),
            labels,
        ),
        AddressView::Resolved(a) => (
            iv,
            if first {
                next_pc(a, iv.operands.len())
            } else {
                next_pc(pc, iv.operands.len())
            },
            labels,
        ),
    }
}

/// Assembly of `lines[i..]` from program counter `pc` and the labels bound
/// so far: the resolved instructions of every remaining line, or the first
/// failure with its 1-based line number.
pub open spec fn drive(
    table: Seq<OpCode>,
    lines: Seq<Seq<char>>,
    i: nat,
    pc: u16,
    labels: Map<Seq<char>, u16>,
) -> Result<Seq<InstructionView>, (int, ParseError)>
    decreases lines.len() - i,
{
    if i >= lines.len() {
        Ok(Seq::empty())
    } else {
        match line_spec(table, labels, lines[i as int]) {
            Err(k) => Err((i as int + 1, k)),
            Ok(iv) => {
                let step = drive_step(iv, pc, labels, i == 0);
                match drive(table, lines, i + 1, step.1, step.2) {
                    Err(e) => Err(e),
                    Ok(rest) => Ok(seq![step.0] + rest),
                }
            },
        }
    }
}

// ---------------------------------------------------------------------------
// Serialization
// ---------------------------------------------------------------------------
/// An instruction's bytes: the opcode byte, then the operand bytes.
pub open spec fn encode_one(iv: InstructionView) -> Seq<u8> {
    seq![iv.code] + iv.operands
}

/// The byte stream of a whole instruction sequence.
pub open spec fn program_bytes(s: Seq<InstructionView>) -> Seq<u8>
    decreases s.len(),
{
    if s.len() == 0 {
        Seq::empty()
    } else {
        encode_one(s[0]) + program_bytes(s.drop_first())
    }
}

pub proof fn lemma_program_bytes_push(s: Seq<InstructionView>, x: InstructionView)
    ensures
        program_bytes(s.push(x)) == program_bytes(s) + encode_one(x),
    decreases s.len(),
{
    if s.len() == 0 {
        assert(s.push(x)[0] == x);
        assert(s.push(x).drop_first() =~= Seq::<InstructionView>::empty());
        assert(program_bytes(Seq::<InstructionView>::empty()) == Seq::<u8>::empty());
        assert(program_bytes(s.push(x)) == encode_one(x) + Seq::<u8>::empty());
        assert(program_bytes(s) == Seq::<u8>::empty());
        assert(encode_one(x) + Seq::<u8>::empty() =~= Seq::<u8>::empty() + encode_one(x));
        assert(program_bytes(s.push(x)) =~= program_bytes(s) + encode_one(x));
    } else {
        assert(s.push(x).drop_first() =~= s.drop_first().push(x));
        assert(s.push(x)[0] == s[0]);
        lemma_program_bytes_push(s.drop_first(), x);
        assert(program_bytes(s.push(x)) == encode_one(s[0]) + program_bytes(
            s.drop_first().push(x),
        ));
        assert(program_bytes(s) == encode_one(s[0]) + program_bytes(s.drop_first()));
        assert(encode_one(s[0]) + (program_bytes(s.drop_first()) + encode_one(x)) =~= (encode_one(
            s[0],
        ) + program_bytes(s.drop_first())) + encode_one(x));
    }
}

// ---------------------------------------------------------------------------
// The disassembler's specification
// ---------------------------------------------------------------------------
/// Disassembly of `bytes[i..]`: whenever `bytes[i]` is a known opcode byte,
/// one rendered line whose address is `origin + i` (mod 2^16) and whose
/// operands are the following bytes as far as they exist, scanning on past
/// the consumed bytes; an unknown byte is skipped silently.
pub open spec fn disasm(t: Seq<OpCode>, bytes: Seq<u8>, origin: u16, i: nat) -> Seq<Seq<char>>
    decreases bytes.len() - i,
{
    if i >= bytes.len() {
        Seq::empty()
    } else {
        match find_by_code(t, bytes[i as int]) {
            None => disasm(t, bytes, origin, i + 1),
            Some(e) => {
                let w = operand_width(e.mode);
                let stop: nat = if i + 1 + w <= bytes.len() {
                    i + 1 + w
                } else {
                    bytes.len()
                };
                let iv = InstructionView {
                    mnemonic: seq![e.m0, e.m1, e.m2],
                    mode: e.mode,
                    code: e.code,
                    operands: bytes.subrange(i as int + 1, stop as int),
                    address: AddressView::Resolved(((origin + i) % 0x10000) as u16),
                };
                seq![render_line(iv)] + disasm(t, bytes, origin, stop)
            },
        }
    }
}

// ---------------------------------------------------------------------------
// The assembler value
// ---------------------------------------------------------------------------
/// One assembly run: the normalised source text, the instructions of the
/// last successful compilation, and the origin address.
pub struct Asm6502 {
    pub input: String,
    pub instructions: Vec<Instruction>,
    pub memory_start: u16,
}

/// One executable driver step: resolve the parsed instruction's address
/// against the running state, exactly as `drive_step` describes, and
/// return the next program counter.
fn drive_one(ins: &mut Instruction, labels: &mut LabelTable, pc: u16, first: bool) -> (pc2: u16)
    requires
        old(ins)@.operands.len() <= 2,
    ensures
        ({
            let step = drive_step(old(ins)@, pc, old(labels)@, first);
            &&& final(ins)@ == step.0
            &&& pc2 == step.1
            &&& final(labels)@ == step.2
        }),
{
    let mut pc_base: u16 = pc;
    let mut resolve_to: Option<u16> = None;
    match &ins.address {
        InstructionAddress::LabelReference(name) => {
            let nm = String::from_str(name.as_str());
            labels.insert(nm, pc);
            resolve_to = Some(pc);
        },
        InstructionAddress::Unresolved => {
            resolve_to = Some(pc);
        },
        InstructionAddress::Resolved(a) => {
            if first {
                pc_base = *a;
            }
        },
    }
    if let Some(v) = resolve_to {
        ins.address = InstructionAddress::Resolved(v);
    }
    let sz = ins.operands.len();
    let pc2: u16 = (((pc_base as u32) + 1 + (sz as u32)) % 0x10000) as u16;
    proof {
        assert(pc2 == next_pc(pc_base, sz as nat));
    }
    pc2
}

/// Copy a vector of instructions value for value.
fn copy_instructions(v: &Vec<Instruction>) -> (r: Vec<Instruction>)
    ensures
        views_of(r@) == views_of(v@),
{
    let mut r: Vec<Instruction> = Vec::new();
    let mut i: usize = 0;
    while i < v.len()
        invariant
            i <= v@.len(),
            r@.len() == i,
            forall|k: int| 0 <= k < i ==> #[trigger] r@[k]@ == v@[k]@,
        decreases v@.len() - i,
    {
        r.push(v[i].duplicate());
        i += 1;
    }
    proof {
        assert(views_of(r@) =~~= views_of(v@));
    }
    r
}

impl Asm6502 {
    /// The origin: the address the first emitted byte is assigned.
    pub open spec fn origin(&self) -> u16 {
        self.memory_start
    }

    /// A run over `data`, with CRLF line endings normalised to LF and the
    /// whole input trimmed, starting at origin `memory_start`.
    pub fn new(data: String, memory_start: u16) -> (r: Asm6502)
        ensures
            r.input@ == trimmed(strip_crlf(data@)),
            r.instructions@ == Seq::<Instruction>::empty(),
            r.origin() == memory_start,
    {
        let replaced = replace_crlf(data.as_str());
        let normal = trim_str(replaced.as_str());
        Asm6502 { input: normal, instructions: Vec::new(), memory_start }
    }

    /// Assemble the input, one pass, line by line, exactly as `drive`
    /// describes: every line becomes one instruction with a resolved
    /// address, or the first failing line aborts the run with its 1-based
    /// line number and nothing is kept.
    #[verifier::rlimit(100)]
    pub fn compile(&mut self) -> (r: Result<Vec<Instruction>, CompileError>)
        ensures
            ({
                let res = drive(
                    canonical_entries(),
                    split_on(old(self).input@, '\n'),
                    0,
                    old(self).origin(),
                    Map::empty(),
                );
                match r {
                    Ok(v) => {
                        &&& res is Ok
                        &&& views_of(v@) == res->Ok_0
                        &&& views_of(final(self).instructions@) == res->Ok_0
                        &&& final(self).input == old(self).input
                        &&& final(self).origin() == old(self).origin()
                    },
                    Err(e) => {
                        &&& res is Err
                        &&& res->Err_0 == (e.line as int, e.kind)
                        &&& *final(self) == *old(self)
                    },
                }
            }),
    {
        let table = OpcodeTable::new();
        let lines_vec = split_string(self.input.as_str(), '\n');
        let ghost lines = lines_vec.deep_view();
        let mut labels = LabelTable::new();
        let mut result: Vec<Instruction> = Vec::new();
        let mut pc: u16 = self.memory_start;
        let mut i: usize = 0;
        proof {
            assert(views_of(result@) =~~= Seq::<InstructionView>::empty());
            assert(views_of(result@) + drive(canonical_entries(), lines, 0, pc, labels@)->Ok_0
                =~~= drive(canonical_entries(), lines, 0, pc, labels@)->Ok_0);
        }
        while i < lines_vec.len()
            invariant
                i <= lines_vec@.len(),
                lines == lines_vec.deep_view(),
                lines == split_on(old(self).input@, '\n'),
                lines.len() == lines_vec@.len(),
                table.entries@ == canonical_entries(),
                *self == *old(self),
                drive(canonical_entries(), lines, 0, old(self).origin(), Map::empty()) == match
                    drive(canonical_entries(), lines, i as nat, pc, labels@) {
                    Ok(rest) => Ok::<_, (int, ParseError)>(views_of(result@) + rest),
                    Err(e) => Err::<Seq<InstructionView>, _>(e),
                },
            decreases lines_vec@.len() - i,
        {
            proof {
                assert(lines[i as int] == lines_vec@[i as int]@);
            }
            let line = &lines_vec[i];
            let ghost pc_prev = pc;
            let ghost labels_prev = labels@;
            match Instruction::from_source_line(&table, &labels, line.as_str()) {
                Err(k) => {
                    proof {
                        assert(line_spec(canonical_entries(), labels@, lines[i as int]) == Err::<
                            InstructionView,
                            _,
                        >(k));
                        assert(drive(canonical_entries(), lines, i as nat, pc, labels@) == Err::<
                            Seq<InstructionView>,
                            _,
                        >((i as int + 1, k)));
                    }
                    return Err(CompileError::new(i + 1, k));
                },
                Ok(mut ins) => {
                    let ghost iv = ins@;
                    proof {
                        lemma_line_spec_len(table.entries@, labels@, lines[i as int]);
                        assert(line_spec(canonical_entries(), labels_prev, lines[i as int])
                            == Ok::<_, ParseError>(iv));
                        let step0 = drive_step(iv, pc_prev, labels_prev, i == 0);
                        assert(drive(canonical_entries(), lines, i as nat, pc_prev, labels_prev)
                            == match drive(
                            canonical_entries(),
                            lines,
                            (i + 1) as nat,
                            step0.1,
                            step0.2,
                        ) {
                            Err(e) => Err::<Seq<InstructionView>, _>(e),
                            Ok(rest) => Ok::<_, (int, ParseError)>(seq![step0.0] + rest),
                        });
                    }
                    let first = i == 0;
                    let pc2 = drive_one(&mut ins, &mut labels, pc, first);
                    let ghost step = drive_step(iv, pc_prev, labels_prev, i == 0);
                    proof {
                        assert(ins@ == step.0);
                        assert(pc2 == step.1);
                        assert(labels@ == step.2);
                    }
                    let ghost prev_views = views_of(result@);
                    result.push(ins);
                    proof {
                        assert(views_of(result@) =~~= prev_views.push(step.0));
                        assert(prev_views.push(step.0) + drive(
                            canonical_entries(),
                            lines,
                            (i + 1) as nat,
                            pc2,
                            labels@,
                        )->Ok_0 =~~= prev_views + (seq![step.0] + drive(
                            canonical_entries(),
                            lines,
                            (i + 1) as nat,
                            pc2,
                            labels@,
                        )->Ok_0));
                    }
                    pc = pc2;
                    i += 1;
                },
            }
        }
        proof {
            assert(views_of(result@) + Seq::<InstructionView>::empty() =~~= views_of(result@));
        }
        let copies = copy_instructions(&result);
        self.instructions = copies;
        Ok(result)
    }

    /// Disassemble a byte stream from `memory_start`, exactly as `disasm`
    /// describes. Never fails: unknown opcode bytes are skipped and a
    /// truncated final instruction is rendered from the bytes that remain.
    pub fn decompile(input: Vec<u8>, memory_start: u16) -> (r: Vec<String>)
        ensures
            r.deep_view() == disasm(canonical_entries(), input@, memory_start, 0),
    {
        let table = OpcodeTable::new();
        let mut r: Vec<String> = Vec::new();
        let mut i: usize = 0;
        proof {
            assert(r.deep_view() =~~= Seq::<Seq<char>>::empty());
            assert(r.deep_view() + disasm(canonical_entries(), input@, memory_start, 0) =~~= disasm(
                canonical_entries(),
                input@,
                memory_start,
                0,
            ));
        }
        while i < input.len()
            invariant
                i <= input@.len(),
                table.entries@ == canonical_entries(),
                wf_entries(table.entries@),
                disasm(canonical_entries(), input@, memory_start, 0) == r.deep_view() + disasm(
                    canonical_entries(),
                    input@,
                    memory_start,
                    i as nat,
                ),
            decreases input@.len() - i,
        {
            let b = input[i];
            match table.lookup_by_opcode(b) {
                None => {
                    i += 1;
                },
                Some(e) => {
                    proof {
                        lemma_find_by_code_mem(table.entries@, b);
                        let idx = choose|idx: int|
                            0 <= idx < table.entries@.len() && table.entries@[idx] == e;
                        assert(wf_entry(table.entries@[idx]));
                    }
                    let w = width_of(e.mode);
                    let rem = input.len() - i - 1;
                    let take_n = if w <= rem {
                        w
                    } else {
                        rem
                    };
                    let stop = i + 1 + take_n;
                    let mut ops: Vec<u8> = Vec::new();
                    let mut j: usize = i + 1;
                    while j < stop
                        invariant
                            i + 1 <= j <= stop <= input@.len(),
                            ops@ == input@.subrange(i + 1, j as int),
                        decreases stop - j,
                    {
                        ops.push(input[j]);
                        proof {
                            assert(input@.subrange(i + 1, j + 1) =~= input@.subrange(
                                i + 1,
                                j as int,
                            ).push(input@[j as int]));
                        }
                        j += 1;
                    }
                    let mn = e.mnemonic_string();
                    let addr: u16 = (((memory_start as u64) + ((i as u64) % 0x10000)) % 0x10000)
                        as u16;
                    proof {
                        vstd::arithmetic::div_mod::lemma_add_mod_noop_right(
                            memory_start as int,
                            i as int,
                            0x10000,
                        );
                        assert(addr == ((memory_start + i as nat) % 0x10000) as u16);
                    }
                    let ins = Instruction {
                        mnemonic: mn,
                        mode: e.mode,
                        code: e.code,
                        operands: ops,
                        address: InstructionAddress::Resolved(addr),
                    };
                    let line = ins.render();
                    let ghost prev = r.deep_view();
                    r.push(line);
                    proof {
                        let ghost w_spec = operand_width(e.mode);
                        let ghost stop_spec: nat = if i + 1 + w_spec <= input@.len() {
                            (i + 1 + w_spec) as nat
                        } else {
                            input@.len()
                        };
                        assert(stop as nat == stop_spec);
                        let iv_spec = InstructionView {
                            mnemonic: seq![e.m0, e.m1, e.m2],
                            mode: e.mode,
                            code: e.code,
                            operands: input@.subrange(i + 1, stop_spec as int),
                            address: AddressView::Resolved(
                                ((memory_start + i as nat) % 0x10000) as u16,
                            ),
                        };
                        assert(ins@.mnemonic =~= iv_spec.mnemonic);
                        assert(ins@.operands =~= iv_spec.operands);
                        assert(ins@ == iv_spec);
                        assert(r.deep_view() =~~= prev.push(render_line(iv_spec)));
                        assert(prev.push(render_line(iv_spec)) + disasm(
                            canonical_entries(),
                            input@,
                            memory_start,
                            stop as nat,
                        ) =~~= prev + (seq![render_line(iv_spec)] + disasm(
                            canonical_entries(),
                            input@,
                            memory_start,
                            stop as nat,
                        )));
                    }
                    i = stop;
                },
            }
        }
        r
    }
}

/// Assemble `input` from origin `offset` into its final byte stream: the
/// concatenated encodings of the compiled instructions, or the compile
/// error of the first failing line.
pub fn assemble(input: String, offset: u16) -> (r: Result<Vec<u8>, CompileError>)
    ensures
        ({
            let res = drive(
                canonical_entries(),
                split_on(trimmed(strip_crlf(input@)), '\n'),
                0,
                offset,
                Map::empty(),
            );
            match r {
                Ok(bytes) => res is Ok && bytes@ == program_bytes(res->Ok_0),
                Err(e) => res is Err && res->Err_0 == (e.line as int, e.kind),
            }
        }),
{
    let mut run = Asm6502::new(input, offset);
    match run.compile() {
        Err(e) => Err(e),
        Ok(instrs) => {
            let ghost ivs = views_of(instrs@);
            let mut bytes: Vec<u8> = Vec::new();
            let mut i: usize = 0;
            proof {
                assert(bytes@ =~= program_bytes(ivs.take(0)));
            }
            while i < instrs.len()
                invariant
                    i <= instrs@.len(),
                    ivs == views_of(instrs@),
                    bytes@ == program_bytes(ivs.take(i as int)),
                decreases instrs@.len() - i,
            {
                let mut one = instrs[i].to_bytes();
                bytes.append(&mut one);
                proof {
                    assert(ivs.take(i + 1) =~= ivs.take(i as int).push(ivs[i as int]));
                    lemma_program_bytes_push(ivs.take(i as int), ivs[i as int]);
                    assert(encode_one(ivs[i as int]) == seq![instrs@[i as int].code]
                        + instrs@[i as int].operands@);
                }
                i += 1;
            }
            proof {
                assert(ivs.take(instrs@.len() as int) =~= ivs);
            }
            Ok(bytes)
        },
    }
}

} // verus!
