//! Laws the assembler and disassembler obey, stated over the same
//! specification functions the public contracts use.
use vstd::prelude::*;
use crate::error::ParseError;
use crate::instruction::AddressView;
use crate::instruction::InstructionView;
use crate::instruction::render_line;
use crate::instruction::render_operand;
use crate::instruction::lemma_line_spec_wf;
use crate::instruction::value_spec;
use crate::instruction::wf_instruction;
use crate::ops::AddressingMode;
use crate::ops::OpCode;
use crate::ops::contains_code;
use crate::ops::distinct_codes;
use crate::ops::find_by_code;
use crate::ops::find_opcode;
use crate::ops::lemma_find_opcode_mem;
use crate::ops::lemma_find_by_code_mem;
use crate::ops::mnemonic_matches;
use crate::ops::operand_width;
use crate::driver::disasm;
use crate::driver::drive;
use crate::driver::drive_step;
use crate::driver::encode_one;
use crate::driver::lemma_program_bytes_push;
use crate::driver::next_pc;
use crate::driver::program_bytes;
use crate::instruction::line_spec;
use crate::text::all_digits;
use crate::text::digits_value;
use crate::text::le_bytes;
use crate::text::nonempty_parts;
use crate::text::split_on;

verus! {

// ---------------------------------------------------------------------------
// Byte-stream bookkeeping
// ---------------------------------------------------------------------------
/// Every instruction contributes at least its opcode byte.
pub proof fn lemma_program_bytes_len(s: Seq<InstructionView>)
    ensures
        program_bytes(s).len() >= s.len(),
    decreases s.len(),
{
    if s.len() > 0 {
        lemma_program_bytes_len(s.drop_first());
    }
}

/// The byte stream splits at any instruction boundary.
pub proof fn lemma_program_bytes_split(s: Seq<InstructionView>, k: int)
    requires
        0 <= k <= s.len(),
    ensures
        program_bytes(s) == program_bytes(s.take(k)) + program_bytes(s.skip(k)),
    decreases k,
{
    if k == 0 {
        assert(s.take(0) =~= Seq::<InstructionView>::empty());
        assert(s.skip(0) =~= s);
        assert(program_bytes(s.take(0)) == Seq::<u8>::empty());
        assert(program_bytes(s.take(0)) + program_bytes(s) =~= program_bytes(s));
    } else {
        lemma_program_bytes_split(s, k - 1);
        assert(s.take(k) =~= s.take(k - 1).push(s[k - 1]));
        lemma_program_bytes_push(s.take(k - 1), s[k - 1]);
        assert(s.skip(k - 1)[0] == s[k - 1]);
        assert(s.skip(k - 1).drop_first() =~= s.skip(k));
        assert(program_bytes(s.skip(k - 1)) == encode_one(s[k - 1]) + program_bytes(s.skip(k)));
        assert((program_bytes(s.take(k - 1)) + encode_one(s[k - 1])) + program_bytes(s.skip(k))
            =~= program_bytes(s.take(k - 1)) + (encode_one(s[k - 1]) + program_bytes(s.skip(k))));
    }
}

// ---------------------------------------------------------------------------
// Label resolution is single-pass
// ---------------------------------------------------------------------------
/// A bare operand token is resolved against the labels bound on earlier
/// lines and nothing else: if the name is bound, its two little-endian
/// address bytes are the operand's value; if it is not bound yet — a
/// forward reference — the parse fails with `UnknownLabel`.
pub proof fn lemma_label_resolution(labels: Map<Seq<char>, u16>, name: Seq<char>)
    requires
        name.len() > 0,
        name[0] != '$',
        name[0] != '#',
    ensures
        labels.contains_key(name) ==> value_spec(labels, name) == Ok::<_, ParseError>(
            (le_bytes(labels[name]), true),
        ),
        !labels.contains_key(name) ==> value_spec(labels, name) == Err::<(Seq<u8>, bool), _>(
            ParseError::UnknownLabel,
        ),
{
}

// ---------------------------------------------------------------------------
// Program counter monotonicity
// ---------------------------------------------------------------------------
/// The line carries an explicit numeric address token.
pub open spec fn line_has_explicit_address(line: Seq<char>) -> bool {
    let parts = nonempty_parts(split_on(line, '\t'));
    parts.len() > 1 && all_digits(parts[0], 16) && digits_value(parts[0], 16) <= 0xFFFF
}

/// A parsed line carries an already-resolved address exactly when the
/// line's first field is an explicit numeric address token.
proof fn lemma_line_spec_address(
    t: Seq<OpCode>,
    labels: Map<Seq<char>, u16>,
    line: Seq<char>,
)
    ensures
        line_spec(t, labels, line) matches Ok(iv) ==> ((iv.address is Resolved)
            <==> line_has_explicit_address(line)),
{
}

/// Prepending one instruction at `pc` shifts every later address by that
/// instruction's size.
proof fn lemma_prefix_addresses(
    step0: InstructionView,
    rest: Seq<InstructionView>,
    instrs: Seq<InstructionView>,
    pc: u16,
    pc2: u16,
)
    requires
        instrs == seq![step0] + rest,
        step0.address == AddressView::Resolved(pc),
        pc2 == pc + 1 + step0.operands.len(),
        forall|k: int|
            0 <= k < rest.len() ==> (#[trigger] rest[k]).address == AddressView::Resolved(
                (pc2 + program_bytes(rest.take(k)).len()) as u16,
            ),
    ensures
        forall|k: int|
            0 <= k < instrs.len() ==> (#[trigger] instrs[k]).address == AddressView::Resolved(
                (pc + program_bytes(instrs.take(k)).len()) as u16,
            ),
{
    assert forall|k: int| 0 <= k < instrs.len() implies (#[trigger] instrs[k]).address
        == AddressView::Resolved((pc + program_bytes(instrs.take(k)).len()) as u16) by {
        if k == 0 {
            assert(instrs.take(0) =~= Seq::<InstructionView>::empty());
            assert(program_bytes(instrs.take(0)) == Seq::<u8>::empty());
            assert(instrs[0] == step0);
        } else {
            assert(instrs[k] == rest[k - 1]);
            assert(rest[k - 1].address == AddressView::Resolved(
                (pc2 + program_bytes(rest.take(k - 1)).len()) as u16,
            ));
            assert(instrs.take(k) =~= seq![step0] + rest.take(k - 1));
            assert((seq![step0] + rest.take(k - 1))[0] == step0);
            assert((seq![step0] + rest.take(k - 1)).drop_first() =~= rest.take(k - 1));
            assert(program_bytes(instrs.take(k)) == encode_one(step0) + program_bytes(
                rest.take(k - 1),
            ));
            assert(encode_one(step0).len() == 1 + step0.operands.len());
        }
    }
}

#[verifier::rlimit(100)]
proof fn lemma_drive_addresses(
    t: Seq<OpCode>,
    lines: Seq<Seq<char>>,
    i: nat,
    pc: u16,
    labels: Map<Seq<char>, u16>,
    instrs: Seq<InstructionView>,
)
    requires
        i <= lines.len(),
        drive(t, lines, i, pc, labels) == Ok::<_, (int, ParseError)>(instrs),
        forall|j: int| i <= j < lines.len() ==> !line_has_explicit_address(#[trigger] lines[j]),
        pc + program_bytes(instrs).len() <= 0x10000,
    ensures
        instrs.len() == lines.len() - i,
        forall|k: int|
            0 <= k < instrs.len() ==> (#[trigger] instrs[k]).address == AddressView::Resolved(
                (pc + program_bytes(instrs.take(k)).len()) as u16,
            ),
    decreases lines.len() - i,
{
    if i >= lines.len() {
    } else {
        let iv = line_spec(t, labels, lines[i as int])->Ok_0;
        let step = drive_step(iv, pc, labels, i == 0);
        let rest = drive(t, lines, i + 1, step.1, step.2)->Ok_0;
        assert(instrs == seq![step.0] + rest);
        assert(!line_has_explicit_address(lines[i as int]));
        lemma_line_spec_address(t, labels, lines[i as int]);
        assert(!(iv.address is Resolved));
        assert(step.0.address == AddressView::Resolved(pc));
        assert(step.0.operands == iv.operands);
        let n = iv.operands.len();
        assert(step.1 == next_pc(pc, n));
        assert(instrs[0] == step.0);
        assert(instrs.drop_first() =~= rest);
        assert(program_bytes(instrs) == encode_one(step.0) + program_bytes(rest));
        assert(encode_one(step.0).len() == 1 + n);
        lemma_program_bytes_len(rest);
        if rest.len() == 0 {
            assert(instrs.len() == 1);
            lemma_drive_addresses(t, lines, (i + 1) as nat, step.1, step.2, rest);
            assert(instrs.take(0) =~= Seq::<InstructionView>::empty());
            assert(program_bytes(instrs.take(0)) == Seq::<u8>::empty());
            assert(instrs[0] == step.0);
        } else {
            assert(program_bytes(rest).len() >= 1);
            assert(pc + 1 + n < 0x10000);
            assert(step.1 == pc + 1 + n);
            lemma_drive_addresses(t, lines, (i + 1) as nat, step.1, step.2, rest);
            lemma_prefix_addresses(step.0, rest, instrs, pc, step.1);
        }
    }
}

/// Program counter monotonicity: in a program without explicit address
/// tokens, the driver assigns the origin to the first instruction and to
/// every later instruction the address exactly `1 + operand byte count`
/// past its predecessor's, as long as the program fits below the top of
/// the 16-bit address space.
#[verifier::rlimit(100)]
pub proof fn lemma_program_counter_monotonic(
    t: Seq<OpCode>,
    lines: Seq<Seq<char>>,
    origin: u16,
    instrs: Seq<InstructionView>,
)
    requires
        drive(t, lines, 0, origin, Map::empty()) == Ok::<_, (int, ParseError)>(instrs),
        forall|j: int| 0 <= j < lines.len() ==> !line_has_explicit_address(#[trigger] lines[j]),
        origin + program_bytes(instrs).len() <= 0x10000,
    ensures
        instrs.len() == lines.len(),
        forall|k: int|
            0 <= k < instrs.len() ==> (#[trigger] instrs[k]).address == AddressView::Resolved(
                (origin + program_bytes(instrs.take(k)).len()) as u16,
            ),
        forall|k: int|
            #![trigger instrs[k]]
            0 <= k < instrs.len() - 1 ==> instrs[k + 1].address == AddressView::Resolved(
                (instrs[k].address->Resolved_0 + 1 + instrs[k].operands.len()) as u16,
            ),
{
    lemma_drive_addresses(t, lines, 0, origin, Map::empty(), instrs);
    assert forall|k: int|
        #![trigger instrs[k]]
        0 <= k < instrs.len() - 1 implies instrs[k + 1].address == AddressView::Resolved(
        (instrs[k].address->Resolved_0 + 1 + instrs[k].operands.len()) as u16,
    ) by {
        let off_k = program_bytes(instrs.take(k)).len();
        let off_k1 = program_bytes(instrs.take(k + 1)).len();
        assert(instrs.take(k + 1) =~= instrs.take(k).push(instrs[k]));
        lemma_program_bytes_push(instrs.take(k), instrs[k]);
        assert(off_k1 == off_k + 1 + instrs[k].operands.len());
        lemma_program_bytes_split(instrs, k);
        lemma_program_bytes_len(instrs.skip(k));
        assert(instrs.skip(k).len() >= 2);
        assert(origin + off_k + 2 <= 0x10000);
        assert(instrs[k].address->Resolved_0 == origin + off_k);
        lemma_program_bytes_split(instrs, k + 1);
        lemma_program_bytes_len(instrs.skip(k + 1));
        assert(origin + off_k1 + 1 <= 0x10000);
    }
}

// ---------------------------------------------------------------------------
// Decoding finds the encoded row again
// ---------------------------------------------------------------------------
/// The instruction's opcode byte decodes, through the table, back to the
/// mnemonic and mode it was encoded with (the mode possibly reading as
/// `Relative` where a branch was written with a zero-page-shaped operand,
/// which renders identically).
pub open spec fn decode_consistent(t: Seq<OpCode>, iv: InstructionView) -> bool {
    match find_by_code(t, iv.code) {
        Some(e) => mnemonic_matches(e, iv.mnemonic) && (e.mode == iv.mode || (e.mode
            == AddressingMode::Relative && iv.mode == AddressingMode::ZeroPage)),
        None => false,
    }
}

/// A row of the table makes its opcode byte found in the table.
proof fn lemma_contains_code(t: Seq<OpCode>, e: OpCode)
    requires
        t.contains(e),
    ensures
        contains_code(t, e.code),
    decreases t.len(),
{
    if t.len() > 0 && t[0] != e {
        let i = choose|i: int| 0 <= i < t.len() && t[i] == e;
        assert(t.drop_first()[i - 1] == e);
        lemma_contains_code(t.drop_first(), e);
    }
}

/// In a table whose opcode bytes are distinct, looking a row's own byte up
/// finds exactly that row.
proof fn lemma_find_by_code_unique(t: Seq<OpCode>, e: OpCode)
    requires
        distinct_codes(t),
        t.contains(e),
    ensures
        find_by_code(t, e.code) == Some(e),
    decreases t.len(),
{
    if t.len() > 0 {
        if t[0] == e {
        } else {
            let i = choose|i: int| 0 <= i < t.len() && t[i] == e;
            assert(t.drop_first()[i - 1] == e);
            lemma_contains_code(t.drop_first(), e);
            assert(t[0].code != e.code);
            lemma_find_by_code_unique(t.drop_first(), e);
        }
    }
}

/// A line parsed against a table with distinct opcode bytes is
/// decode-consistent: its opcode byte decodes back to the row that
/// resolution selected.
proof fn lemma_line_spec_decode(
    t: Seq<OpCode>,
    labels: Map<Seq<char>, u16>,
    line: Seq<char>,
)
    requires
        distinct_codes(t),
    ensures
        line_spec(t, labels, line) matches Ok(iv) ==> decode_consistent(t, iv),
{
    if line_spec(t, labels, line) is Ok {
        let iv = line_spec(t, labels, line)->Ok_0;
        let e = find_opcode(t, iv.mnemonic, iv.mode, iv.operands.len())->Some_0;
        lemma_find_opcode_mem(t, iv.mnemonic, iv.mode, iv.operands.len());
        lemma_find_by_code_unique(t, e);
    }
}

/// Every instruction a successful assembly run produces is well formed:
/// its operand byte count matches the width its addressing mode implies.
pub proof fn lemma_drive_wf(
    t: Seq<OpCode>,
    lines: Seq<Seq<char>>,
    i: nat,
    pc: u16,
    labels: Map<Seq<char>, u16>,
    instrs: Seq<InstructionView>,
)
    requires
        drive(t, lines, i, pc, labels) == Ok::<_, (int, ParseError)>(instrs),
    ensures
        forall|k: int| 0 <= k < instrs.len() ==> wf_instruction(#[trigger] instrs[k]),
    decreases lines.len() - i,
{
    if i < lines.len() {
        let iv = line_spec(t, labels, lines[i as int])->Ok_0;
        let step = drive_step(iv, pc, labels, i == 0);
        let rest = drive(t, lines, i + 1, step.1, step.2)->Ok_0;
        assert(instrs == seq![step.0] + rest);
        lemma_line_spec_wf(t, labels, lines[i as int]);
        assert(step.0.mode == iv.mode);
        assert(step.0.operands == iv.operands);
        assert(wf_instruction(step.0));
        lemma_drive_wf(t, lines, i + 1, step.1, step.2, rest);
        assert(instrs[0] == step.0);
        assert(forall|k: int| 1 <= k < instrs.len() ==> instrs[k] == rest[k - 1]);
    }
}

/// Every instruction a successful assembly run produces is
/// decode-consistent with the table it was encoded from, as long as that
/// table's opcode bytes are distinct — which `OpcodeTable::codes_distinct`
/// decides for a concrete table.
pub proof fn lemma_drive_decode_consistent(
    t: Seq<OpCode>,
    lines: Seq<Seq<char>>,
    i: nat,
    pc: u16,
    labels: Map<Seq<char>, u16>,
    instrs: Seq<InstructionView>,
)
    requires
        distinct_codes(t),
        drive(t, lines, i, pc, labels) == Ok::<_, (int, ParseError)>(instrs),
    ensures
        forall|k: int| 0 <= k < instrs.len() ==> decode_consistent(t, #[trigger] instrs[k]),
    decreases lines.len() - i,
{
    if i < lines.len() {
        let iv = line_spec(t, labels, lines[i as int])->Ok_0;
        let step = drive_step(iv, pc, labels, i == 0);
        let rest = drive(t, lines, i + 1, step.1, step.2)->Ok_0;
        assert(instrs == seq![step.0] + rest);
        lemma_line_spec_decode(t, labels, lines[i as int]);
        assert(step.0.mnemonic == iv.mnemonic);
        assert(step.0.mode == iv.mode);
        assert(step.0.code == iv.code);
        assert(decode_consistent(t, step.0));
        lemma_drive_decode_consistent(t, lines, i + 1, step.1, step.2, rest);
        assert(instrs[0] == step.0);
        assert(forall|k: int| 1 <= k < instrs.len() ==> instrs[k] == rest[k - 1]);
    }
}

// ---------------------------------------------------------------------------
// Round trip
// ---------------------------------------------------------------------------
proof fn lemma_disasm_program(
    t: Seq<OpCode>,
    all: Seq<InstructionView>,
    k: nat,
    origin: u16,
)
    requires
        forall|j: int| 0 <= j < all.len() ==> wf_instruction(#[trigger] all[j]),
        forall|j: int| 0 <= j < all.len() ==> decode_consistent(t, #[trigger] all[j]),
        forall|j: int|
            0 <= j < all.len() ==> (#[trigger] all[j]).address == AddressView::Resolved(
                (origin + program_bytes(all.take(j)).len()) as u16,
            ),
        origin + program_bytes(all).len() <= 0x10000,
        k <= all.len(),
    ensures
        disasm(t, program_bytes(all), origin, program_bytes(all.take(k as int)).len()) == Seq::new(
            (all.len() - k) as nat,
            |j: int| render_line(all[k + j]),
        ),
    decreases all.len() - k,
{
    let bytes = program_bytes(all);
    let off = program_bytes(all.take(k as int)).len();
    lemma_program_bytes_split(all, k as int);
    if k == all.len() {
        assert(all.take(k as int) =~= all);
        assert(off == bytes.len());
        assert(disasm(t, bytes, origin, off) =~~= Seq::new(
            (all.len() - k) as nat,
            |j: int| render_line(all[k + j]),
        ));
    } else {
        let iv = all[k as int];
        let e = find_by_code(t, iv.code)->Some_0;
        assert(decode_consistent(t, iv));
        let tail = all.skip(k as int);
        assert(tail[0] == iv);
        assert(tail.drop_first() =~= all.skip(k as int + 1));
        assert(program_bytes(tail) == encode_one(iv) + program_bytes(all.skip(k as int + 1)));
        assert(bytes == program_bytes(all.take(k as int)) + program_bytes(tail));
        lemma_program_bytes_len(all.skip(k as int + 1));
        let w = operand_width(e.mode);
        assert(operand_width(AddressingMode::Relative) == operand_width(AddressingMode::ZeroPage));
        assert(w == iv.operands.len());
        assert(encode_one(iv).len() == 1 + w);
        assert(off + 1 + w <= bytes.len());
        assert(bytes[off as int] == encode_one(iv)[0]);
        assert(bytes[off as int] == iv.code);
        lemma_find_by_code_mem(t, iv.code);
        assert(e.code == iv.code);
        // the decoded instruction the disassembler renders at this offset
        assert(bytes.subrange(off as int + 1, off as int + 1 + w) =~= iv.operands);
        let decoded = InstructionView {
            mnemonic: seq![e.m0, e.m1, e.m2],
            mode: e.mode,
            code: e.code,
            operands: bytes.subrange(off as int + 1, off as int + 1 + w),
            address: AddressView::Resolved(((origin + off) % 0x10000) as u16),
        };
        assert(origin + off < 0x10000);
        assert(((origin + off) % 0x10000) == origin + off);
        assert(iv.address == AddressView::Resolved((origin + off) as u16));
        assert(decoded.address == iv.address);
        assert(decoded.mnemonic =~= iv.mnemonic);
        assert(render_operand(decoded.mode, decoded.operands) == render_operand(
            iv.mode,
            iv.operands,
        ));
        assert(render_line(decoded) == render_line(iv));
        let stop: nat = (off + 1 + w) as nat;
        assert(disasm(t, bytes, origin, off) == seq![render_line(decoded)] + disasm(
            t,
            bytes,
            origin,
            stop,
        ));
        assert(all.take(k as int + 1) =~= all.take(k as int).push(iv));
        lemma_program_bytes_push(all.take(k as int), iv);
        assert(program_bytes(all.take(k as int + 1)).len() == stop);
        lemma_disasm_program(t, all, k + 1, origin);
        assert(seq![render_line(iv)] + Seq::new(
            (all.len() - k - 1) as nat,
            |j: int| render_line(all[k + 1 + j]),
        ) =~~= Seq::new((all.len() - k) as nat, |j: int| render_line(all[k + j])));
    }
}

/// Round trip: an instruction sequence with fully resolved, sequential
/// addresses and table-consistent opcodes disassembles, from its own byte
/// stream and origin, to exactly its own rendered lines — addresses as
/// four hexadecimal digits, operands in the mode's syntax.
pub proof fn lemma_round_trip(t: Seq<OpCode>, instrs: Seq<InstructionView>, origin: u16)
    requires
        forall|j: int| 0 <= j < instrs.len() ==> wf_instruction(#[trigger] instrs[j]),
        forall|j: int| 0 <= j < instrs.len() ==> decode_consistent(t, #[trigger] instrs[j]),
        forall|j: int|
            0 <= j < instrs.len() ==> (#[trigger] instrs[j]).address == AddressView::Resolved(
                (origin + program_bytes(instrs.take(j)).len()) as u16,
            ),
        origin + program_bytes(instrs).len() <= 0x10000,
    ensures
        disasm(t, program_bytes(instrs), origin, 0) == Seq::new(
            instrs.len(),
            |k: int| render_line(instrs[k]),
        ),
{
    assert(instrs.take(0) =~= Seq::<InstructionView>::empty());
    assert(program_bytes(instrs.take(0)).len() == 0);
    lemma_disasm_program(t, instrs, 0, origin);
    assert(Seq::new((instrs.len() - 0) as nat, |j: int| render_line(instrs[0 + j])) =~~= Seq::new(
        instrs.len(),
        |k: int| render_line(instrs[k]),
    ));
}

/// Round trip for assembly output: whatever a successful run produces —
/// from a program without explicit address tokens, against a table with
/// distinct opcode bytes, fitting below the top of the address space —
/// disassembles, from its own byte stream and origin, to exactly its own
/// rendered lines. The width, decode-consistency and sequential-address
/// premises of `lemma_round_trip` all hold of the run's output itself.
pub proof fn lemma_compile_round_trip(
    t: Seq<OpCode>,
    lines: Seq<Seq<char>>,
    origin: u16,
    instrs: Seq<InstructionView>,
)
    requires
        distinct_codes(t),
        drive(t, lines, 0, origin, Map::empty()) == Ok::<_, (int, ParseError)>(instrs),
        forall|j: int| 0 <= j < lines.len() ==> !line_has_explicit_address(#[trigger] lines[j]),
        origin + program_bytes(instrs).len() <= 0x10000,
    ensures
        disasm(t, program_bytes(instrs), origin, 0) == Seq::new(
            instrs.len(),
            |k: int| render_line(instrs[k]),
        ),
{
    lemma_drive_wf(t, lines, 0, origin, Map::empty(), instrs);
    lemma_drive_decode_consistent(t, lines, 0, origin, Map::empty(), instrs);
    lemma_drive_addresses(t, lines, 0, origin, Map::empty(), instrs);
    lemma_round_trip(t, instrs, origin);
}

} // verus!
