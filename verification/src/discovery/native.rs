use iced_x86::{Decoder, DecoderOptions};
use super::pe::PeImage;
use crate::errors::ReconstructError;
use std::collections::HashMap;
use vstd::prelude::*;

verus! {

/// One step by which the game decodes a header value.
#[derive(Clone, Copy, Debug, PartialEq, Eq, Hash, Structural)]
pub enum TransformOp {
    Add(u32),
    Sub(u32),
    Xor(u32),
    ShiftRight(u32),
    ShiftRightArithmetic(u32),
    ShiftLeft(u32),
}

/// A decoded header value: header word `index` put through `operations` in order.
#[derive(Clone, Debug, PartialEq, Eq, Hash)]
pub struct HeaderExpression {
    pub index: usize,
    pub operations: Vec<TransformOp>,
}

/// `value` after one step; shifts take their amount modulo 32, as the processor does.
pub open spec fn apply_op(value: u32, op: TransformOp) -> u32 {
    match op {
        TransformOp::Add(operand) => value.wrapping_add(operand),
        TransformOp::Sub(operand) => value.wrapping_sub(operand),
        TransformOp::Xor(operand) => value ^ operand,
        TransformOp::ShiftRight(operand) => value >> (operand % 32),
        TransformOp::ShiftRightArithmetic(operand) => ((value as i32) >> operand) as u32,
        TransformOp::ShiftLeft(operand) => value << (operand % 32),
    }
}

/// `value` after the first `n` steps of `ops`.
pub open spec fn apply_ops(value: u32, ops: Seq<TransformOp>, n: nat) -> u32
    decreases n,
{
    if n == 0 {
        value
    } else {
        apply_op(apply_ops(value, ops, (n - 1) as nat), ops[n - 1])
    }
}

/// The value of header word `index` of `values` after the steps `ops`; `None` when the
/// word is missing.
pub open spec fn expression_value(index: usize, ops: Seq<TransformOp>, values: Seq<u32>) -> Option<u32> {
    if index < values.len() {
        Some(apply_ops(values[index as int], ops, ops.len()))
    } else {
        None
    }
}

proof fn lemma_apply_ops_append(value: u32, a: Seq<TransformOp>, b: Seq<TransformOp>, n: nat)
    requires
        n <= b.len(),
    ensures
        apply_ops(value, a + b, a.len() + n) == apply_ops(apply_ops(value, a, a.len()), b, n),
    decreases n,
{
    if n == 0 {
        lemma_apply_ops_prefix(value, a, a + b, a.len());
    } else {
        lemma_apply_ops_append(value, a, b, (n - 1) as nat);
        assert((a + b)[a.len() + n - 1] == b[n - 1]);
    }
}

proof fn lemma_apply_ops_prefix(value: u32, a: Seq<TransformOp>, c: Seq<TransformOp>, n: nat)
    requires
        n <= a.len(),
        n <= c.len(),
        forall|i: int| 0 <= i < n ==> a[i] == c[i],
    ensures
        apply_ops(value, c, n) == apply_ops(value, a, n),
    decreases n,
{
    if n > 0 {
        lemma_apply_ops_prefix(value, a, c, (n - 1) as nat);
    }
}

/// Running the steps `a` and then the steps `b` over a header word is running `a` and then
/// running `b` over the word that `a` gives; the value is missing exactly when the word is,
/// and with no steps it is the word itself.
pub proof fn lemma_expression_split(index: usize, a: Seq<TransformOp>, b: Seq<TransformOp>, values: Seq<u32>)
    ensures
        expression_value(index, a + b, values) == match expression_value(index, a, values) {
            Some(v) => expression_value(0, b, seq![v]),
            None => None,
        },
        expression_value(index, a + b, values) is None <==> index >= values.len(),
        expression_value(index, Seq::empty(), values) == (if index < values.len() {
            Some(values[index as int])
        } else {
            None
        }),
{
    if index < values.len() {
        lemma_apply_ops_append(values[index as int], a, b, b.len());
        assert((a + b).len() == a.len() + b.len());
    }
}

/// Whether every arithmetic shift of `ops` shifts by less than 32 bits.
pub open spec fn shifts_in_range(ops: Seq<TransformOp>) -> bool {
    forall|i: int|
        0 <= i < ops.len() ==> (#[trigger] ops[i] matches TransformOp::ShiftRightArithmetic(o)
            ==> o < 32)
}

fn apply(value: u32, op: TransformOp) -> (r: u32)
    requires
        op matches TransformOp::ShiftRightArithmetic(o) ==> o < 32,
    ensures
        r == apply_op(value, op),
{
    match op {
        TransformOp::Add(operand) => value.wrapping_add(operand),
        TransformOp::Sub(operand) => value.wrapping_sub(operand),
        TransformOp::Xor(operand) => value ^ operand,
        TransformOp::ShiftRight(operand) => value >> (operand % 32),
        TransformOp::ShiftRightArithmetic(operand) => {
            let signed = #[verifier::truncate] (value as i32);
            #[verifier::truncate] ((signed >> operand) as u32)
        },
        TransformOp::ShiftLeft(operand) => value << (operand % 32),
    }
}

impl HeaderExpression {
    /// The value of the expression over the header words `values`; `None` when the word is
    /// missing.
    pub fn evaluate(&self, values: &[u32]) -> (r: Option<u32>)
        requires
            shifts_in_range(self.operations@),
        ensures
            r == expression_value(self.index, self.operations@, values@),
    {
        if self.index >= values.len() {
            return None;
        }
        let mut value = values[self.index];
        let mut i: usize = 0;
        while i < self.operations.len()
            invariant
                i <= self.operations@.len(),
                self.index < values@.len(),
                shifts_in_range(self.operations@),
                value == apply_ops(values@[self.index as int], self.operations@, i as nat),
            decreases self.operations.len() - i,
        {
            let op = self.operations[i];
            assert(self.operations@[i as int] matches TransformOp::ShiftRightArithmetic(o) ==> o < 32);
            value = apply(value, op);
            i = i + 1;
        }
        Some(value)
    }
}


/// The facts about one decoded x86-64 instruction that the analysis reads. Kinds and
/// registers carry iced-x86's own numbering of `Mnemonic`, `OpKind`, `Register` and
/// `FlowControl`; registers are given as the full register they belong to, except
/// `memory_index`.
#[derive(Clone, Copy, Debug, PartialEq, Eq, Structural)]
pub struct DecodedInstruction {
    pub length: usize,
    pub next_ip: u64,
    pub mnemonic: u32,
    pub op0_kind: u32,
    pub op1_kind: u32,
    pub op0_register: u32,
    pub op1_register: u32,
    pub op1_immediate: u64,
    pub memory_base: u32,
    pub memory_index: u32,
    pub memory_displacement: u64,
    pub ip_relative: bool,
    pub ip_rel_address: u64,
    pub flow_control: u32,
}

/// iced-x86's number for `Mnemonic::Add`.
pub const MNEMONIC_ADD: u32 = 7;
/// iced-x86's number for `Mnemonic::Lea`.
pub const MNEMONIC_LEA: u32 = 374;
/// iced-x86's number for `Mnemonic::Mov`.
pub const MNEMONIC_MOV: u32 = 414;
/// iced-x86's number for `Mnemonic::Movsxd`.
pub const MNEMONIC_MOVSXD: u32 = 451;
/// iced-x86's number for `Mnemonic::Movzx`.
pub const MNEMONIC_MOVZX: u32 = 454;
/// iced-x86's number for `Mnemonic::Sar`.
pub const MNEMONIC_SAR: u32 = 678;
/// iced-x86's number for `Mnemonic::Shl`.
pub const MNEMONIC_SHL: u32 = 712;
/// iced-x86's number for `Mnemonic::Shr`.
pub const MNEMONIC_SHR: u32 = 715;
/// iced-x86's number for `Mnemonic::Sub`.
pub const MNEMONIC_SUB: u32 = 740;
/// iced-x86's number for `Mnemonic::Xor`.
pub const MNEMONIC_XOR: u32 = 1518;
/// iced-x86's number for `OpKind::Register`.
pub const OPERAND_REGISTER: u32 = 0;
/// iced-x86's number for `OpKind::Immediate8`, the first of its immediate kinds.
pub const OPERAND_IMMEDIATE_FIRST: u32 = 6;
/// iced-x86's number for `OpKind::Immediate32to64`, the last of its immediate kinds.
pub const OPERAND_IMMEDIATE_LAST: u32 = 14;
/// iced-x86's number for `OpKind::Memory`.
pub const OPERAND_MEMORY: u32 = 24;
/// iced-x86's number for `FlowControl::Return`.
pub const FLOW_RETURN: u32 = 4;
/// iced-x86's number for `Register::None`.
pub const REGISTER_NONE: u32 = 0;
/// How many 32-bit words of the header the analysis follows.
pub const MAX_HEADER_FIELDS: u64 = 4096;

/// What iced-x86's 64-bit decoder makes of `code[position..end]` when the first byte
/// stands at address `ip`.
pub uninterp spec fn decoded_instruction(code: Seq<u8>, position: usize, end: usize, ip: u64) -> DecodedInstruction;

/// Decodes one instruction with iced-x86's `Decoder::with_ip` in 64-bit mode from
/// `code[position..end]`, the first byte standing at `ip`. The decoder reads at least the
/// first byte of a non-empty input and never past its end, so the length lies between one
/// and the bytes left; iced-x86 numbers its registers below 256.
#[verifier::external_body]
pub(crate) fn decode_instruction(code: &[u8], position: usize, end: usize, ip: u64) -> (r: DecodedInstruction)
    requires
        position < end <= code@.len(),
    ensures
        r == decoded_instruction(code@, position, end, ip),
        1 <= r.length <= end - position,
        r.op0_register < 256 && r.op1_register < 256 && r.memory_base < 256,
{
    let i = Decoder::with_ip(64, &code[position..end], ip, DecoderOptions::NONE).decode();
    DecodedInstruction {
        length: i.len(), next_ip: i.next_ip(), mnemonic: i.mnemonic() as u32,
        op0_kind: i.op0_kind() as u32, op1_kind: i.op1_kind() as u32,
        op0_register: i.op0_register().full_register() as u32,
        op1_register: i.op1_register().full_register() as u32,
        op1_immediate: i.try_immediate(1).unwrap_or(0), memory_base: i.memory_base().full_register() as u32,
        memory_index: i.memory_index() as u32, memory_displacement: i.memory_displacement64(),
        ip_relative: i.is_ip_rel_memory_operand(), ip_rel_address: i.ip_rel_memory_address(),
        flow_control: i.flow_control() as u32,
    }
}

/// Whether `kind` is one of iced-x86's immediate operand kinds.
pub open spec fn immediate_kind(kind: u32) -> bool {
    OPERAND_IMMEDIATE_FIRST <= kind <= OPERAND_IMMEDIATE_LAST
}

/// Whether `kind` is one of iced-x86's immediate operand kinds.
pub fn is_immediate(kind: u32) -> (r: bool)
    ensures
        r == immediate_kind(kind),
{
    OPERAND_IMMEDIATE_FIRST <= kind && kind <= OPERAND_IMMEDIATE_LAST
}


/// A header expression as a value: the word index and the steps.
pub type ExpressionModel = (usize, Seq<TransformOp>);

impl View for HeaderExpression {
    type V = ExpressionModel;

    open spec fn view(&self) -> ExpressionModel {
        (self.index, self.operations@)
    }
}

/// What the analysis knows of a register.
#[derive(Clone, Debug)]
pub enum SymbolicValue {
    /// It points at the header.
    HeaderPointer,
    /// It holds a decoded header word.
    Header(HeaderExpression),
    /// It holds a constant.
    Constant(u32),
    /// It holds an address offset computed by `lea`.
    Offset(u32),
}

/// What the analysis knows of a register, as a value.
pub enum SymbolicModel {
    HeaderPointer,
    Header(ExpressionModel),
    Constant(u32),
    Offset(u32),
}

impl View for SymbolicValue {
    type V = SymbolicModel;

    open spec fn view(&self) -> SymbolicModel {
        match self {
            SymbolicValue::HeaderPointer => SymbolicModel::HeaderPointer,
            SymbolicValue::Header(e) => SymbolicModel::Header(e@),
            SymbolicValue::Constant(v) => SymbolicModel::Constant(*v),
            SymbolicValue::Offset(v) => SymbolicModel::Offset(*v),
        }
    }
}

/// A copy of `e`.
pub fn copy_expression(e: &HeaderExpression) -> (r: HeaderExpression)
    ensures
        r@ == e@,
{
    let mut operations: Vec<TransformOp> = Vec::new();
    let mut i: usize = 0;
    while i < e.operations.len()
        invariant
            i <= e.operations@.len(),
            operations@ == e.operations@.take(i as int),
        decreases e.operations.len() - i,
    {
        operations.push(e.operations[i]);
        i = i + 1;
        assert(operations@ =~= e.operations@.take(i as int));
    }
    assert(e.operations@.take(i as int) =~= e.operations@);
    HeaderExpression { index: e.index, operations }
}

/// A copy of `v`.
pub fn copy_symbolic(v: &SymbolicValue) -> (r: SymbolicValue)
    ensures
        r@ == v@,
{
    match v {
        SymbolicValue::HeaderPointer => SymbolicValue::HeaderPointer,
        SymbolicValue::Header(e) => SymbolicValue::Header(copy_expression(e)),
        SymbolicValue::Constant(c) => SymbolicValue::Constant(*c),
        SymbolicValue::Offset(o) => SymbolicValue::Offset(*o),
    }
}

/// Whether `a` and `b` are the same expression.
pub fn same_expression(a: &HeaderExpression, b: &HeaderExpression) -> (r: bool)
    ensures
        r == (a@ == b@),
{
    if a.index != b.index || a.operations.len() != b.operations.len() {
        return false;
    }
    let mut i: usize = 0;
    while i < a.operations.len()
        invariant
            i <= a.operations@.len(),
            a.operations@.len() == b.operations@.len(),
            a.operations@.take(i as int) == b.operations@.take(i as int),
        decreases a.operations.len() - i,
    {
        if a.operations[i] != b.operations[i] {
            assert(a.operations@[i as int] != b.operations@[i as int]);
            assert(a.operations@ != b.operations@);
            return false;
        }
        assert(a.operations@.take(i + 1) =~= a.operations@.take(i as int).push(a.operations@[i as int]));
        assert(b.operations@.take(i + 1) =~= b.operations@.take(i as int).push(b.operations@[i as int]));
        i = i + 1;
    }
    assert(a.operations@.take(i as int) =~= a.operations@);
    assert(b.operations@.take(i as int) =~= b.operations@);
    true
}

/// The register map `m` with each value taken as a value.
pub open spec fn register_model(m: Map<u32, SymbolicValue>) -> Map<u32, SymbolicModel> {
    m.map_values(|v: SymbolicValue| v@)
}


broadcast use vstd::std_specs::hash::group_hash_axioms;

/// `o` with its value taken as a value.
pub open spec fn option_model(o: Option<SymbolicValue>) -> Option<SymbolicModel> {
    match o {
        Some(v) => Some(v@),
        None => None,
    }
}

/// What `registers` holds for `r`, if anything.
pub open spec fn lookup(registers: Map<u32, SymbolicModel>, r: u32) -> Option<SymbolicModel> {
    if registers.contains_key(r) {
        Some(registers[r])
    } else {
        None
    }
}

/// What the second operand of `insn` is known to hold: a tracked register, an immediate, a
/// load of the header pointer itself, or a load of a header word through a register that
/// points at the header.
pub open spec fn source_model(
    insn: DecodedInstruction,
    header_global: u64,
    registers: Map<u32, SymbolicModel>,
) -> Option<SymbolicModel> {
    if insn.op1_kind == OPERAND_REGISTER {
        lookup(registers, insn.op1_register)
    } else if immediate_kind(insn.op1_kind) {
        Some(SymbolicModel::Constant(insn.op1_immediate as u32))
    } else if insn.op1_kind == OPERAND_MEMORY {
        if insn.ip_relative && insn.ip_rel_address == header_global {
            Some(SymbolicModel::HeaderPointer)
        } else if !(lookup(registers, insn.memory_base) == Some(SymbolicModel::HeaderPointer))
            || insn.memory_index != REGISTER_NONE {
            None
        } else if insn.memory_displacement % 4 != 0 || insn.memory_displacement / 4
            >= MAX_HEADER_FIELDS {
            None
        } else {
            Some(SymbolicModel::Header(((insn.memory_displacement / 4) as usize, Seq::empty())))
        }
    } else {
        None
    }
}

/// What the second operand of `insn` is known to hold.
pub fn symbolic_source(
    insn: &DecodedInstruction,
    header_global: u64,
    registers: &HashMap<u32, SymbolicValue>,
) -> (r: Option<SymbolicValue>)
    ensures
        option_model(r) == source_model(*insn, header_global, register_model(registers@)),
{
    if insn.op1_kind == OPERAND_REGISTER {
        match registers.get(&insn.op1_register) {
            Some(v) => Some(copy_symbolic(v)),
            None => None,
        }
    } else if is_immediate(insn.op1_kind) {
        Some(SymbolicValue::Constant(#[verifier::truncate] (insn.op1_immediate as u32)))
    } else if insn.op1_kind == OPERAND_MEMORY {
        if insn.ip_relative && insn.ip_rel_address == header_global {
            return Some(SymbolicValue::HeaderPointer);
        }
        let points_at_header = match registers.get(&insn.memory_base) {
            Some(SymbolicValue::HeaderPointer) => true,
            _ => false,
        };
        if !points_at_header || insn.memory_index != REGISTER_NONE {
            return None;
        }
        let displacement = insn.memory_displacement;
        if displacement % 4 != 0 || displacement / 4 >= MAX_HEADER_FIELDS {
            return None;
        }
        Some(SymbolicValue::Header(HeaderExpression { index: (displacement / 4) as usize, operations: Vec::new() }))
    } else {
        None
    }
}


/// The expressions held by `s`, as a set of values.
pub open spec fn expression_set(s: Seq<HeaderExpression>) -> Set<ExpressionModel> {
    s.map_values(|e: HeaderExpression| e@).to_set()
}

/// Whether no two entries of `s` are the same expression.
pub open spec fn distinct_expressions(s: Seq<HeaderExpression>) -> bool {
    forall|i: int, j: int| 0 <= i < j < s.len() ==> s[i]@ != s[j]@
}

/// Adds `e` to `expressions` unless the same expression is there already.
pub fn insert_expression(expressions: &mut Vec<HeaderExpression>, e: &HeaderExpression)
    requires
        distinct_expressions(old(expressions)@),
    ensures
        distinct_expressions(final(expressions)@),
        expression_set(final(expressions)@) == expression_set(old(expressions)@).insert(e@),
{
    let ghost before = expressions@;
    let mut i: usize = 0;
    while i < expressions.len()
        invariant
            i <= expressions@.len(),
            expressions@ == before,
            distinct_expressions(before),
            forall|j: int| 0 <= j < i ==> expressions@[j]@ != e@,
        decreases expressions.len() - i,
    {
        if same_expression(&expressions[i], e) {
            assert(before.map_values(|x: HeaderExpression| x@)[i as int] == e@);
            assert(expression_set(before).contains(e@));
            assert(expression_set(before).insert(e@) =~= expression_set(before));
            return;
        }
        i = i + 1;
    }
    expressions.push(copy_expression(e));
    assert forall|a: int, b: int| 0 <= a < b < expressions@.len() implies expressions@[a]@
        != expressions@[b]@ by {
        if b == before.len() {
            assert(before[a]@ != e@);
        } else {
            assert(before[a]@ != before[b]@);
        }
    }
    assert(expressions@.map_values(|x: HeaderExpression| x@) =~= before.map_values(
        |x: HeaderExpression| x@,
    ).push(e@));
    assert(expression_set(expressions@) =~= expression_set(before).insert(e@)) by {
        before.map_values(|x: HeaderExpression| x@).lemma_push_to_set_commute(e@);
    }
}

/// Whether `mnemonic` is one of the arithmetic steps the analysis follows.
pub open spec fn arithmetic_mnemonic(mnemonic: u32) -> bool {
    mnemonic == MNEMONIC_ADD || mnemonic == MNEMONIC_SUB || mnemonic == MNEMONIC_XOR || mnemonic
        == MNEMONIC_SHR || mnemonic == MNEMONIC_SAR || mnemonic == MNEMONIC_SHL
}

/// The step that arithmetic `mnemonic` with `operand` adds to an expression.
pub open spec fn operation_for(mnemonic: u32, operand: u32) -> TransformOp {
    if mnemonic == MNEMONIC_ADD {
        TransformOp::Add(operand)
    } else if mnemonic == MNEMONIC_SUB {
        TransformOp::Sub(operand)
    } else if mnemonic == MNEMONIC_XOR {
        TransformOp::Xor(operand)
    } else if mnemonic == MNEMONIC_SHR {
        TransformOp::ShiftRight(operand)
    } else if mnemonic == MNEMONIC_SAR {
        TransformOp::ShiftRightArithmetic(operand)
    } else {
        TransformOp::ShiftLeft(operand)
    }
}

/// What an arithmetic instruction does to what its destination is known to hold.
pub enum ArithmeticOutcome {
    /// The destination now holds `expression` put through one more step with `operand`.
    Extend(ExpressionModel, u32),
    /// The destination keeps what it holds.
    Keep,
    /// Nothing is known of the destination any more.
    Forget,
}

/// The outcome of arithmetic `mnemonic` on a destination known to hold `destination`,
/// with a source known to hold `source`.
pub open spec fn arithmetic_outcome(
    mnemonic: u32,
    destination: Option<SymbolicModel>,
    source: Option<SymbolicModel>,
) -> ArithmeticOutcome {
    let add_or_sub = mnemonic == MNEMONIC_ADD || mnemonic == MNEMONIC_SUB;
    let add_or_xor = mnemonic == MNEMONIC_ADD || mnemonic == MNEMONIC_XOR;
    match (destination, source) {
        (Some(SymbolicModel::Header(e)), Some(SymbolicModel::Constant(o))) => ArithmeticOutcome::Extend(e, o),
        (Some(SymbolicModel::Header(e)), Some(SymbolicModel::Offset(o))) => if add_or_sub {
            ArithmeticOutcome::Extend(e, o)
        } else {
            ArithmeticOutcome::Forget
        },
        (Some(SymbolicModel::Header(e)), None) => if add_or_sub {
            ArithmeticOutcome::Keep
        } else {
            ArithmeticOutcome::Forget
        },
        (Some(SymbolicModel::Constant(o)), Some(SymbolicModel::Header(e))) => if add_or_xor {
            ArithmeticOutcome::Extend(e, o)
        } else {
            ArithmeticOutcome::Forget
        },
        _ => ArithmeticOutcome::Forget,
    }
}

/// The constant or offset that `registers` holds for `base`, and zero otherwise.
pub open spec fn lea_base(registers: Map<u32, SymbolicModel>, base: u32) -> u32 {
    match lookup(registers, base) {
        Some(SymbolicModel::Constant(v)) => v,
        Some(SymbolicModel::Offset(v)) => v,
        _ => 0,
    }
}

/// The registers and recovered expressions after `insn`: `lea` records an offset, the
/// moves copy what their source is known to hold, and arithmetic on a header word adds a
/// step to its expression and records the new expression.
pub open spec fn process_model(
    insn: DecodedInstruction,
    header_global: u64,
    registers: Map<u32, SymbolicModel>,
    expressions: Set<ExpressionModel>,
) -> (Map<u32, SymbolicModel>, Set<ExpressionModel>) {
    let m = insn.mnemonic;
    let d = insn.op0_register;
    if m == MNEMONIC_LEA && insn.op0_kind == OPERAND_REGISTER && insn.op1_kind == OPERAND_MEMORY
        && !insn.ip_relative {
        let offset = lea_base(registers, insn.memory_base).wrapping_add(
            insn.memory_displacement as u32,
        );
        (registers.insert(d, SymbolicModel::Offset(offset)), expressions)
    } else if (m == MNEMONIC_MOV || m == MNEMONIC_MOVSXD || m == MNEMONIC_MOVZX) && insn.op0_kind
        == OPERAND_REGISTER {
        match source_model(insn, header_global, registers) {
            Some(v) => (registers.insert(d, v), expressions),
            None => (registers.remove(d), expressions),
        }
    } else if !arithmetic_mnemonic(m) || insn.op0_kind != OPERAND_REGISTER {
        (registers, expressions)
    } else {
        match arithmetic_outcome(m, lookup(registers, d), source_model(insn, header_global, registers)) {
            ArithmeticOutcome::Extend(e, o) => {
                let extended = (e.0, e.1.push(operation_for(m, o)));
                (registers.insert(d, SymbolicModel::Header(extended)), expressions.insert(extended))
            },
            ArithmeticOutcome::Keep => (registers, expressions),
            ArithmeticOutcome::Forget => (registers.remove(d), expressions),
        }
    }
}

fn operation(mnemonic: u32, operand: u32) -> (r: TransformOp)
    ensures
        r == operation_for(mnemonic, operand),
{
    if mnemonic == MNEMONIC_ADD {
        TransformOp::Add(operand)
    } else if mnemonic == MNEMONIC_SUB {
        TransformOp::Sub(operand)
    } else if mnemonic == MNEMONIC_XOR {
        TransformOp::Xor(operand)
    } else if mnemonic == MNEMONIC_SHR {
        TransformOp::ShiftRight(operand)
    } else if mnemonic == MNEMONIC_SAR {
        TransformOp::ShiftRightArithmetic(operand)
    } else {
        TransformOp::ShiftLeft(operand)
    }
}

/// Follows one instruction: updates what the registers are known to hold and records each
/// header expression that an arithmetic step produces.
pub fn process_instruction(
    insn: &DecodedInstruction,
    header_global: u64,
    registers: &mut HashMap<u32, SymbolicValue>,
    expressions: &mut Vec<HeaderExpression>,
)
    requires
        distinct_expressions(old(expressions)@),
    ensures
        distinct_expressions(final(expressions)@),
        (register_model(final(registers)@), expression_set(final(expressions)@)) == process_model(
            *insn,
            header_global,
            register_model(old(registers)@),
            expression_set(old(expressions)@),
        ),
{
    let ghost regs0 = register_model(registers@);
    let mnemonic = insn.mnemonic;
    let destination = insn.op0_register;
    if mnemonic == MNEMONIC_LEA && insn.op0_kind == OPERAND_REGISTER && insn.op1_kind
        == OPERAND_MEMORY && !insn.ip_relative {
        let displacement = #[verifier::truncate] (insn.memory_displacement as u32);
        let base_offset = match registers.get(&insn.memory_base) {
            Some(SymbolicValue::Constant(value)) => *value,
            Some(SymbolicValue::Offset(value)) => *value,
            _ => 0,
        };
        registers.insert(destination, SymbolicValue::Offset(base_offset.wrapping_add(displacement)));
        assert(register_model(registers@) =~= regs0.insert(
            destination,
            SymbolicModel::Offset(base_offset.wrapping_add(displacement)),
        ));
        return;
    }
    if (mnemonic == MNEMONIC_MOV || mnemonic == MNEMONIC_MOVSXD || mnemonic == MNEMONIC_MOVZX)
        && insn.op0_kind == OPERAND_REGISTER {
        let source = symbolic_source(insn, header_global, registers);
        match source {
            Some(value) => {
                let ghost vm = value@;
                registers.insert(destination, value);
                assert(register_model(registers@) =~= regs0.insert(destination, vm));
            },
            None => {
                registers.remove(&destination);
                assert(register_model(registers@) =~= regs0.remove(destination));
            },
        }
        return;
    }
    if !(mnemonic == MNEMONIC_ADD || mnemonic == MNEMONIC_SUB || mnemonic == MNEMONIC_XOR
        || mnemonic == MNEMONIC_SHR || mnemonic == MNEMONIC_SAR || mnemonic == MNEMONIC_SHL)
        || insn.op0_kind != OPERAND_REGISTER {
        return;
    }
    let source = symbolic_source(insn, header_global, registers);
    let add_or_sub = mnemonic == MNEMONIC_ADD || mnemonic == MNEMONIC_SUB;
    let add_or_xor = mnemonic == MNEMONIC_ADD || mnemonic == MNEMONIC_XOR;
    let current = match registers.get(&destination) {
        Some(v) => Some(copy_symbolic(v)),
        None => None,
    };
    assert(option_model(current) == lookup(regs0, destination));
    let pair: Option<(HeaderExpression, u32)> = match (current, source) {
        (Some(SymbolicValue::Header(e)), Some(SymbolicValue::Constant(o))) => Some((e, o)),
        (Some(SymbolicValue::Header(e)), Some(SymbolicValue::Offset(o))) => if add_or_sub {
            Some((e, o))
        } else {
            None
        },
        (Some(SymbolicValue::Header(e)), None) => if add_or_sub {
            return;
        } else {
            None
        },
        (Some(SymbolicValue::Constant(o)), Some(SymbolicValue::Header(e))) => if add_or_xor {
            Some((e, o))
        } else {
            None
        },
        _ => None,
    };
    match pair {
        Some((e, o)) => {
            let mut extended = e;
            extended.operations.push(operation(mnemonic, o));
            insert_expression(expressions, &extended);
            let ghost em = extended@;
            registers.insert(destination, SymbolicValue::Header(extended));
            assert(register_model(registers@) =~= regs0.insert(destination, SymbolicModel::Header(em)));
        },
        None => {
            registers.remove(&destination);
            assert(register_model(registers@) =~= regs0.remove(destination));
        },
    }
}


/// The address of the byte at `pos` of a run that starts at `start`, whose first byte
/// stands at `ip`.
pub open spec fn ip_at(ip: u64, start: int, pos: int) -> u64 {
    ip.wrapping_add((pos - start) as u64)
}

/// The instruction that the decoder finds at `pos` of the run `code[start..end]` whose
/// first byte stands at `ip`.
pub open spec fn instruction_at(code: Seq<u8>, start: int, end: int, ip: u64, pos: int) -> DecodedInstruction {
    decoded_instruction(code, pos as usize, end as usize, ip_at(ip, start, pos))
}

/// Whether the run `code[start..end]` can be decoded from `pos` on.
pub open spec fn in_run(code: Seq<u8>, start: int, end: int, pos: int) -> bool {
    0 <= start <= pos < end <= code.len()
}

/// The registers before `insn` in a window on the header: an access to a small
/// displacement through `header_register` shows that it points at the header.
pub open spec fn mark_header_register(
    insn: DecodedInstruction,
    header_register: u32,
    registers: Map<u32, SymbolicModel>,
) -> Map<u32, SymbolicModel> {
    if insn.memory_base == header_register && insn.memory_index == REGISTER_NONE
        && insn.memory_displacement < MAX_HEADER_FIELDS * 4 {
        registers.insert(header_register, SymbolicModel::HeaderPointer)
    } else {
        registers
    }
}

/// The registers and expressions after following the window `code[start..end]` (first byte
/// at `ip`) from `pos` to its end.
pub open spec fn window_from(
    code: Seq<u8>,
    start: int,
    end: int,
    ip: u64,
    pos: int,
    header_register: u32,
    header_global: u64,
    registers: Map<u32, SymbolicModel>,
    expressions: Set<ExpressionModel>,
) -> (Map<u32, SymbolicModel>, Set<ExpressionModel>)
    decreases end - pos,
{
    if !in_run(code, start, end, pos) {
        (registers, expressions)
    } else {
        let insn = instruction_at(code, start, end, ip, pos);
        let (r, e) = process_model(
            insn,
            header_global,
            mark_header_register(insn, header_register, registers),
            expressions,
        );
        if insn.length == 0 || pos + insn.length > end {
            (r, e)
        } else {
            window_from(code, start, end, ip, pos + insn.length, header_register, header_global, r, e)
        }
    }
}

/// The expressions after following the window of up to 0x400 bytes at `start_ip`, with
/// `header_register` holding the header pointer loaded from `header_global`. A start that
/// no section maps, or that lies past the end of the file, gives an empty window.
pub open spec fn window_model(
    dll: Seq<u8>,
    pe: PeImage,
    start_ip: u64,
    header_register: u32,
    header_global: u64,
    expressions: Set<ExpressionModel>,
) -> Set<ExpressionModel> {
    match pe.file_offset_of(start_ip) {
        None => expressions,
        Some(offset) => {
            let end = if offset + 0x400 < dll.len() {
                offset + 0x400
            } else {
                dll.len() as int
            };
            window_from(
                dll,
                offset as int,
                end,
                start_ip,
                offset as int,
                header_register,
                header_global,
                Map::empty(),
                expressions,
            ).1
        },
    }
}

/// Follows the instructions in the window of up to 0x400 bytes at `start_ip`, where
/// `header_register` holds the header pointer, and adds the expressions they compute.
pub fn scan_header_window(
    dll: &[u8],
    pe: &PeImage,
    start_ip: u64,
    header_register: u32,
    header_global: u64,
    expressions: &mut Vec<HeaderExpression>,
)
    requires
        distinct_expressions(old(expressions)@),
    ensures
        distinct_expressions(final(expressions)@),
        expression_set(final(expressions)@) == window_model(
            dll@,
            *pe,
            start_ip,
            header_register,
            header_global,
            expression_set(old(expressions)@),
        ),
{
    let offset = match pe.va_to_file_offset(start_ip) {
        Some(offset) => offset,
        None => return ,
    };
    let end = if offset < dll.len() && dll.len() - offset > 0x400 {
        offset + 0x400
    } else {
        dll.len()
    };
    if offset > end {
        return ;
    }
    let ghost e0 = expression_set(expressions@);
    let ghost target = window_from(dll@, offset as int, end as int, start_ip, offset as int, header_register, header_global, Map::empty(), e0);
    let mut registers: HashMap<u32, SymbolicValue> = HashMap::new();
    assert(register_model(registers@) =~= Map::empty());
    let mut pos = offset;
    while pos < end
        invariant
            offset <= pos <= end <= dll@.len(),
            distinct_expressions(expressions@),
            target == window_from(dll@, offset as int, end as int, start_ip, pos as int, header_register, header_global, register_model(registers@), expression_set(expressions@)),
        decreases end - pos,
    {
        let insn = decode_instruction(dll, pos, end, start_ip.wrapping_add((pos - offset) as u64));
        let ghost before = register_model(registers@);
        if insn.memory_base == header_register && insn.memory_index == REGISTER_NONE
            && insn.memory_displacement < MAX_HEADER_FIELDS * 4 {
            registers.insert(header_register, SymbolicValue::HeaderPointer);
            assert(register_model(registers@) =~= before.insert(header_register, SymbolicModel::HeaderPointer));
        }
        assert(register_model(registers@) == mark_header_register(insn, header_register, before));
        process_instruction(&insn, header_global, &mut registers, expressions);
        pos = pos + insn.length;
    }
    proof {
        assert(expression_set(expressions@) == window_model(dll@, *pe, start_ip, header_register, header_global, e0));
    }
}


/// The end of the executable range `range` clipped to a file of `len` bytes.
pub open spec fn clipped_end(range: (usize, usize, u64), len: int) -> int {
    if range.1 < len {
        range.1 as int
    } else {
        len
    }
}

/// The registers holding the header's address and the globals it was stored into, after
/// `insn`: `lea reg, [header]` marks `reg`, a store of a marked register into a global
/// records the global, and writing a register or returning forgets.
pub open spec fn global_step(
    insn: DecodedInstruction,
    header_va: u64,
    registers: Set<u32>,
    globals: Set<u64>,
) -> (Set<u32>, Set<u64>) {
    if insn.mnemonic == MNEMONIC_LEA && insn.op0_kind == OPERAND_REGISTER && insn.ip_relative
        && insn.ip_rel_address == header_va {
        (registers.insert(insn.op0_register), globals)
    } else {
        let g = if insn.mnemonic == MNEMONIC_MOV && insn.op0_kind == OPERAND_MEMORY && insn.op1_kind
            == OPERAND_REGISTER && insn.ip_relative && registers.contains(insn.op1_register) {
            globals.insert(insn.ip_rel_address)
        } else {
            globals
        };
        let r = if insn.op0_kind == OPERAND_REGISTER {
            registers.remove(insn.op0_register)
        } else {
            registers
        };
        (if insn.flow_control == FLOW_RETURN {
            Set::empty()
        } else {
            r
        }, g)
    }
}

/// The state of the search for the header global after the run from `pos` to `end`.
pub open spec fn global_from(
    code: Seq<u8>,
    start: int,
    end: int,
    ip: u64,
    pos: int,
    header_va: u64,
    registers: Set<u32>,
    globals: Set<u64>,
) -> (Set<u32>, Set<u64>)
    decreases end - pos,
{
    if !in_run(code, start, end, pos) {
        (registers, globals)
    } else {
        let insn = instruction_at(code, start, end, ip, pos);
        let (r, g) = global_step(insn, header_va, registers, globals);
        if insn.length == 0 || pos + insn.length > end {
            (r, g)
        } else {
            global_from(code, start, end, ip, pos + insn.length, header_va, r, g)
        }
    }
}

/// The globals into which the code of the first `n` executable ranges stores the header's
/// address; each range starts with no marked register.
pub open spec fn header_globals(
    code: Seq<u8>,
    ranges: Seq<(usize, usize, u64)>,
    n: nat,
    header_va: u64,
) -> Set<u64>
    decreases n,
{
    if n == 0 || n > ranges.len() {
        Set::empty()
    } else {
        let found = header_globals(code, ranges, (n - 1) as nat, header_va);
        let range = ranges[n - 1];
        let end = clipped_end(range, code.len() as int);
        if range.0 > end {
            found
        } else {
            global_from(code, range.0 as int, end, range.2, range.0 as int, header_va, Set::empty(), found).1
        }
    }
}

fn global_range(
    dll: &[u8],
    start: usize,
    end: usize,
    va: u64,
    header_va: u64,
    found: &mut Vec<u64>,
)
    requires
        start <= end <= dll@.len(),
        old(found)@.no_duplicates(),
    ensures
        final(found)@.no_duplicates(),
        final(found)@.to_set() == global_from(dll@, start as int, end as int, va, start as int, header_va, Set::empty(), old(found)@.to_set()).1,
{
    let ghost target = global_from(dll@, start as int, end as int, va, start as int, header_va, Set::empty(), found@.to_set());
    let mut registers: std::collections::HashSet<u32> = std::collections::HashSet::new();
    let mut pos = start;
    while pos < end
        invariant
            start <= pos <= end <= dll@.len(),
            found@.no_duplicates(),
            target == global_from(dll@, start as int, end as int, va, pos as int, header_va, registers@, found@.to_set()),
        decreases end - pos,
    {
        let insn = decode_instruction(dll, pos, end, va.wrapping_add((pos - start) as u64));
        let ghost regs0 = registers@;
        let ghost found0 = found@;
        if insn.mnemonic == MNEMONIC_LEA && insn.op0_kind == OPERAND_REGISTER && insn.ip_relative
            && insn.ip_rel_address == header_va {
            registers.insert(insn.op0_register);
        } else {
            if insn.mnemonic == MNEMONIC_MOV && insn.op0_kind == OPERAND_MEMORY && insn.op1_kind
                == OPERAND_REGISTER && insn.ip_relative && registers.contains(&insn.op1_register) {
                push_new_u64(found, insn.ip_rel_address);
            }
            if insn.op0_kind == OPERAND_REGISTER {
                registers.remove(&insn.op0_register);
            }
            if insn.flow_control == FLOW_RETURN {
                registers.clear();
            }
            assert(registers@ =~= global_step(insn, header_va, regs0, found0.to_set()).0);
        }
        pos = pos + insn.length;
    }
}

/// Adds `value` to `values` unless it is there already.
pub fn push_new_u64(values: &mut Vec<u64>, value: u64)
    requires
        old(values)@.no_duplicates(),
    ensures
        final(values)@.no_duplicates(),
        final(values)@.to_set() == old(values)@.to_set().insert(value),
{
    let mut i: usize = 0;
    while i < values.len()
        invariant
            i <= values@.len(),
            values@.no_duplicates(),
            forall|j: int| 0 <= j < i ==> values@[j] != value,
        decreases values.len() - i,
    {
        if values[i] == value {
            assert(values@.to_set().insert(value) =~= values@.to_set());
            return;
        }
        i = i + 1;
    }
    let ghost before = values@;
    values.push(value);
    assert(values@.to_set() =~= before.to_set().insert(value)) by {
        before.lemma_push_to_set_commute(value);
    }
}

/// The one global into which the native code stores the address `header_va`; an error
/// when there is none or more than one.
pub fn find_header_global(dll: &[u8], pe: &PeImage, header_va: u64) -> (r: Result<u64, ReconstructError>)
    ensures
        ({
            let ranges = pe.executable_ranges_spec();
            let globals = header_globals(dll@, ranges, ranges.len(), header_va);
            &&& globals.finite()
            &&& r matches Ok(g) ==> globals == set![g]
            &&& r matches Err(e) ==> e == ReconstructError::HeaderPointerCount(globals.len() as u64) && globals.len() != 1
        }),
{
    let ranges = pe.executable_mapped_ranges();
    let mut found: Vec<u64> = Vec::new();
    let mut k: usize = 0;
    while k < ranges.len()
        invariant
            k <= ranges@.len(),
            ranges@ == pe.executable_ranges_spec(),
            found@.no_duplicates(),
            found@.to_set() == header_globals(dll@, ranges@, k as nat, header_va),
        decreases ranges.len() - k,
    {
        let (start, section_end, va) = ranges[k];
        let end = if section_end < dll.len() { section_end } else { dll.len() };
        if start <= end {
            global_range(dll, start, end, va, header_va, &mut found);
        }
        k = k + 1;
    }
    proof {
        found@.unique_seq_to_set();
    }
    if found.len() != 1 {
        return Err(ReconstructError::HeaderPointerCount(found.len() as u64));
    }
    proof {
        assert(found@.to_set() =~= set![found@[0]]);
    }
    Ok(found[0])
}


/// Whether `insn` loads the pointer held by `global` into a register.
pub open spec fn loads_global(insn: DecodedInstruction, global: u64) -> bool {
    insn.mnemonic == MNEMONIC_MOV && insn.op0_kind == OPERAND_REGISTER && insn.op1_kind
        == OPERAND_MEMORY && insn.ip_relative && insn.ip_rel_address == global
}

/// The loads of `global` in the run from `pos` to `end`, appended to `seeds`: the address
/// after each load and the register it fills.
pub open spec fn seeds_from(
    code: Seq<u8>,
    start: int,
    end: int,
    ip: u64,
    pos: int,
    global: u64,
    seeds: Seq<(u64, u32)>,
) -> Seq<(u64, u32)>
    decreases end - pos,
{
    if !in_run(code, start, end, pos) {
        seeds
    } else {
        let insn = instruction_at(code, start, end, ip, pos);
        let s = if loads_global(insn, global) {
            seeds.push((insn.next_ip, insn.op0_register))
        } else {
            seeds
        };
        if insn.length == 0 || pos + insn.length > end {
            s
        } else {
            seeds_from(code, start, end, ip, pos + insn.length, global, s)
        }
    }
}

/// The loads of `global` in the first `n` executable ranges, in order.
pub open spec fn header_seeds(code: Seq<u8>, ranges: Seq<(usize, usize, u64)>, n: nat, global: u64) -> Seq<(u64, u32)>
    decreases n,
{
    if n == 0 || n > ranges.len() {
        Seq::empty()
    } else {
        let seeds = header_seeds(code, ranges, (n - 1) as nat, global);
        let range = ranges[n - 1];
        let end = clipped_end(range, code.len() as int);
        if range.0 > end {
            seeds
        } else {
            seeds_from(code, range.0 as int, end, range.2, range.0 as int, global, seeds)
        }
    }
}

/// The expressions after following the windows of the first `n` loads of `seeds`.
pub open spec fn windows_model(
    dll: Seq<u8>,
    pe: PeImage,
    seeds: Seq<(u64, u32)>,
    n: nat,
    global: u64,
) -> Set<ExpressionModel>
    decreases n,
{
    if n == 0 || n > seeds.len() {
        Set::empty()
    } else {
        window_model(dll, pe, seeds[n - 1].0, seeds[n - 1].1, global, windows_model(dll, pe, seeds, (n - 1) as nat, global))
    }
}

/// Every expression that the code computes from the header whose pointer is held by
/// `global`: the union over each load of `global` of what the window after it computes.
pub open spec fn global_expressions(dll: Seq<u8>, pe: PeImage, global: u64) -> Set<ExpressionModel> {
    let ranges = pe.executable_ranges_spec();
    let seeds = header_seeds(dll, ranges, ranges.len(), global);
    windows_model(dll, pe, seeds, seeds.len(), global)
}

fn seeds_range(dll: &[u8], start: usize, end: usize, va: u64, global: u64, seeds: &mut Vec<(u64, u32)>)
    requires
        start <= end <= dll@.len(),
    ensures
        final(seeds)@ == seeds_from(dll@, start as int, end as int, va, start as int, global, old(seeds)@),
{
    let ghost target = seeds_from(dll@, start as int, end as int, va, start as int, global, seeds@);
    let mut pos = start;
    while pos < end
        invariant
            start <= pos <= end <= dll@.len(),
            target == seeds_from(dll@, start as int, end as int, va, pos as int, global, seeds@),
        decreases end - pos,
    {
        let insn = decode_instruction(dll, pos, end, va.wrapping_add((pos - start) as u64));
        if insn.mnemonic == MNEMONIC_MOV && insn.op0_kind == OPERAND_REGISTER && insn.op1_kind
            == OPERAND_MEMORY && insn.ip_relative && insn.ip_rel_address == global {
            seeds.push((insn.next_ip, insn.op0_register));
        }
        pos = pos + insn.length;
    }
}

/// The expressions that the code computes from the header whose pointer `global` holds.
pub fn collect_global_expressions(dll: &[u8], pe: &PeImage, global: u64) -> (r: Vec<HeaderExpression>)
    ensures
        distinct_expressions(r@),
        expression_set(r@) == global_expressions(dll@, *pe, global),
{
    let ranges = pe.executable_mapped_ranges();
    let mut seeds: Vec<(u64, u32)> = Vec::new();
    let mut k: usize = 0;
    while k < ranges.len()
        invariant
            k <= ranges@.len(),
            ranges@ == pe.executable_ranges_spec(),
            seeds@ == header_seeds(dll@, ranges@, k as nat, global),
        decreases ranges.len() - k,
    {
        let (start, section_end, va) = ranges[k];
        let end = if section_end < dll.len() { section_end } else { dll.len() };
        if start <= end {
            seeds_range(dll, start, end, va, global, &mut seeds);
        }
        k = k + 1;
    }
    let mut expressions: Vec<HeaderExpression> = Vec::new();
    assert(expression_set(expressions@) =~= Set::empty());
    let mut j: usize = 0;
    while j < seeds.len()
        invariant
            j <= seeds@.len(),
            distinct_expressions(expressions@),
            expression_set(expressions@) == windows_model(dll@, *pe, seeds@, j as nat, global),
        decreases seeds.len() - j,
    {
        let (ip, register) = seeds[j];
        scan_header_window(dll, pe, ip, register, global, &mut expressions);
        j = j + 1;
    }
    expressions
}


/// Whether `a` sorts no later than `b`: by header word, then by the number of steps.
pub open spec fn expression_key_le(a: ExpressionModel, b: ExpressionModel) -> bool {
    a.0 < b.0 || (a.0 == b.0 && a.1.len() <= b.1.len())
}

/// Whether `s` is ordered by header word, then by the number of steps.
pub open spec fn sorted_expressions(s: Seq<HeaderExpression>) -> bool {
    forall|i: int, j: int| 0 <= i < j < s.len() ==> expression_key_le(s[i]@, s[j]@)
}

proof fn lemma_insert_expression_set(s: Seq<HeaderExpression>, p: int, e: HeaderExpression)
    requires
        0 <= p <= s.len(),
    ensures
        expression_set(s.insert(p, e)) == expression_set(s).insert(e@),
{
    let t = s.insert(p, e);
    let ms = s.map_values(|x: HeaderExpression| x@);
    let mt = t.map_values(|x: HeaderExpression| x@);
    assert forall|x: ExpressionModel| expression_set(t).contains(x) implies expression_set(
        s,
    ).insert(e@).contains(x) by {
        let k = choose|k: int| 0 <= k < mt.len() && mt[k] == x;
        if k < p {
            assert(ms[k] == x);
        } else if k > p {
            assert(ms[k - 1] == x);
        }
    }
    assert forall|x: ExpressionModel| expression_set(s).insert(e@).contains(x) implies expression_set(
        t,
    ).contains(x) by {
        if x == e@ {
            assert(mt[p] == x);
        } else {
            let k = choose|k: int| 0 <= k < ms.len() && ms[k] == x;
            if k < p {
                assert(mt[k] == x);
            } else {
                assert(mt[k + 1] == x);
            }
        }
    }
    assert(expression_set(t) =~= expression_set(s).insert(e@));
}

proof fn lemma_take_expression_set(s: Seq<HeaderExpression>, i: int)
    requires
        0 <= i < s.len(),
    ensures
        expression_set(s.take(i + 1)) == expression_set(s.take(i)).insert(s[i]@),
{
    let f = |x: HeaderExpression| x@;
    assert(s.take(i + 1).map_values(f) =~= s.take(i).map_values(f).push(s[i]@));
    s.take(i).map_values(f).lemma_push_to_set_commute(s[i]@);
}

fn expression_key_less_equal(a: &HeaderExpression, b: &HeaderExpression) -> (r: bool)
    ensures
        r == expression_key_le(a@, b@),
{
    a.index < b.index || (a.index == b.index && a.operations.len() <= b.operations.len())
}

/// `v` ordered by header word, then by the number of steps; equal keys keep their order.
pub fn sort_expressions(v: &Vec<HeaderExpression>) -> (r: Vec<HeaderExpression>)
    requires
        distinct_expressions(v@),
    ensures
        distinct_expressions(r@),
        sorted_expressions(r@),
        expression_set(r@) == expression_set(v@),
{
    let mut r: Vec<HeaderExpression> = Vec::new();
    let mut i: usize = 0;
    assert(expression_set(r@) =~= expression_set(v@.take(0)));
    while i < v.len()
        invariant
            i <= v@.len(),
            distinct_expressions(v@),
            distinct_expressions(r@),
            sorted_expressions(r@),
            expression_set(r@) == expression_set(v@.take(i as int)),
        decreases v.len() - i,
    {
        let e = copy_expression(&v[i]);
        let mut p: usize = 0;
        while p < r.len() && expression_key_less_equal(&r[p], &e)
            invariant
                p <= r@.len(),
                forall|k: int| 0 <= k < p ==> expression_key_le(#[trigger] r@[k]@, e@),
            decreases r.len() - p,
        {
            p = p + 1;
        }
        let ghost before = r@;
        proof {
            assert(!expression_set(before).contains(e@)) by {
                if expression_set(before).contains(e@) {
                    let mv = v@.take(i as int).map_values(|x: HeaderExpression| x@);
                    let k = choose|k: int| 0 <= k < mv.len() && mv[k] == e@;
                    assert(v@[k]@ == v@[i as int]@);
                }
            }
            assert forall|k: int| 0 <= k < before.len() implies before[k]@ != e@ by {
                let mb = before.map_values(|x: HeaderExpression| x@);
                assert(mb[k] == before[k]@);
            }
            if p < before.len() {
                assert(!expression_key_le(before[p as int]@, e@));
            }
        }
        r.insert(p, e);
        proof {
            lemma_insert_expression_set(before, p as int, e);
            lemma_take_expression_set(v@, i as int);
            assert forall|a: int, b: int| 0 <= a < b < r@.len() implies r@[a]@ != r@[b]@
                && expression_key_le(r@[a]@, r@[b]@) by {
                if b < p {
                    assert(r@[a] == before[a] && r@[b] == before[b]);
                } else if b == p {
                    assert(r@[a] == before[a]);
                } else if a < p {
                    assert(r@[a] == before[a] && r@[b] == before[b - 1]);
                } else if a == p {
                    assert(r@[b] == before[b - 1]);
                    assert(expression_key_le(before[p as int]@, before[b - 1]@));
                } else {
                    assert(r@[a] == before[a - 1] && r@[b] == before[b - 1]);
                }
            }
        }
        i = i + 1;
    }
    assert(v@.take(v@.len() as int) =~= v@);
    r
}

/// How the extraction for the header at virtual address `header_va` comes out: an error
/// unless exactly one global holds the header's address, an error when the code computes
/// nothing from it, and otherwise every computed expression once, ordered by header word
/// and then by the number of steps.
pub open spec fn extraction_outcome(
    dll: Seq<u8>,
    pe: PeImage,
    header_va: u64,
    r: Result<Vec<HeaderExpression>, ReconstructError>,
) -> bool {
    let ranges = pe.executable_ranges_spec();
    let globals = header_globals(dll, ranges, ranges.len(), header_va);
    if globals.len() != 1 {
        r == Err::<Vec<HeaderExpression>, ReconstructError>(ReconstructError::HeaderPointerCount(globals.len() as u64))
    } else {
        let expressions = global_expressions(dll, pe, globals.choose());
        if expressions.is_empty() {
            r == Err::<Vec<HeaderExpression>, ReconstructError>(ReconstructError::NoHeaderExpressions)
        } else {
            r matches Ok(v) && expression_set(v@) == expressions && distinct_expressions(v@)
                && sorted_expressions(v@)
        }
    }
}

/// The expressions by which the game's native code decodes the words of the `MHY\0`
/// header at `header_file_offset`.
pub fn extract_header_expressions(dll: &[u8], pe: &PeImage, header_file_offset: usize) -> (r: Result<Vec<HeaderExpression>, ReconstructError>)
    ensures
        pe.va_of_offset(header_file_offset) is None ==> r == Err::<Vec<HeaderExpression>, ReconstructError>(ReconstructError::HeaderNotMapped),
        pe.va_of_offset(header_file_offset) matches Some(va) ==> extraction_outcome(dll@, *pe, va, r),
{
    let header_va = match pe.file_offset_to_va(header_file_offset) {
        Some(va) => va,
        None => return Err(ReconstructError::HeaderNotMapped),
    };
    let header_global = match find_header_global(dll, pe, header_va) {
        Ok(g) => g,
        Err(e) => return Err(e),
    };
    proof {
        let ranges = pe.executable_ranges_spec();
        let globals = header_globals(dll@, ranges, ranges.len(), header_va);
        assert(globals.len() == 1) by {
            assert(globals == set![header_global]);
        }
        assert(globals.contains(header_global));
        assert(globals.choose() == header_global) by {
            assert(globals.contains(globals.choose()));
        }
    }
    let expressions = collect_global_expressions(dll, pe, header_global);
    if expressions.len() == 0 {
        assert(expression_set(expressions@) =~= Set::empty());
        return Err(ReconstructError::NoHeaderExpressions);
    }
    assert(expression_set(expressions@).contains(expressions@[0]@)) by {
        assert(expressions@.map_values(|x: HeaderExpression| x@)[0] == expressions@[0]@);
    }
    Ok(sort_expressions(&expressions))
}


/// The state of the search for globals that hold a header's address: the registers loaded
/// with an address by `lea`, the globals loaded at least once and at least twice, and the
/// stores of a `lea`-loaded address into a global, as (address, global), each once, in the
/// order found.
pub struct StoreScan {
    pub addresses: Map<u32, u64>,
    pub loaded: Set<u64>,
    pub loaded_twice: Set<u64>,
    pub stores: Seq<(u64, u64)>,
}

/// `stores` with `store` appended unless it is there already.
pub open spec fn add_store(stores: Seq<(u64, u64)>, store: (u64, u64)) -> Seq<(u64, u64)> {
    if stores.contains(store) {
        stores
    } else {
        stores.push(store)
    }
}

/// The search state after `insn`.
pub open spec fn store_step(insn: DecodedInstruction, s: StoreScan) -> StoreScan {
    let a = insn.ip_rel_address;
    let load = insn.mnemonic == MNEMONIC_MOV && insn.op0_kind == OPERAND_REGISTER && insn.op1_kind
        == OPERAND_MEMORY && insn.ip_relative;
    let loaded = if load {
        s.loaded.insert(a)
    } else {
        s.loaded
    };
    let loaded_twice = if load && s.loaded.contains(a) {
        s.loaded_twice.insert(a)
    } else {
        s.loaded_twice
    };
    if insn.mnemonic == MNEMONIC_LEA && insn.op0_kind == OPERAND_REGISTER && insn.ip_relative {
        StoreScan { addresses: s.addresses.insert(insn.op0_register, a), loaded, loaded_twice, stores: s.stores }
    } else {
        let stores = if insn.mnemonic == MNEMONIC_MOV && insn.op0_kind == OPERAND_MEMORY
            && insn.op1_kind == OPERAND_REGISTER && insn.ip_relative && s.addresses.contains_key(
            insn.op1_register,
        ) {
            add_store(s.stores, (s.addresses[insn.op1_register], a))
        } else {
            s.stores
        };
        let kept = if insn.op0_kind == OPERAND_REGISTER {
            s.addresses.remove(insn.op0_register)
        } else {
            s.addresses
        };
        let addresses = if insn.flow_control == FLOW_RETURN {
            Map::empty()
        } else {
            kept
        };
        StoreScan { addresses, loaded, loaded_twice, stores }
    }
}

/// The search state after the run from `pos` to `end`.
pub open spec fn store_from(code: Seq<u8>, start: int, end: int, ip: u64, pos: int, s: StoreScan) -> StoreScan
    decreases end - pos,
{
    if !in_run(code, start, end, pos) {
        s
    } else {
        let insn = instruction_at(code, start, end, ip, pos);
        let next = store_step(insn, s);
        if insn.length == 0 || pos + insn.length > end {
            next
        } else {
            store_from(code, start, end, ip, pos + insn.length, next)
        }
    }
}

/// The search state after the first `n` executable ranges; each range starts with no
/// register holding an address.
pub open spec fn store_scan(code: Seq<u8>, ranges: Seq<(usize, usize, u64)>, n: nat) -> StoreScan
    decreases n,
{
    if n == 0 || n > ranges.len() {
        StoreScan { addresses: Map::empty(), loaded: Set::empty(), loaded_twice: Set::empty(), stores: Seq::empty() }
    } else {
        let s = store_scan(code, ranges, (n - 1) as nat);
        let range = ranges[n - 1];
        let end = clipped_end(range, code.len() as int);
        if range.0 > end {
            s
        } else {
            store_from(code, range.0 as int, end, range.2, range.0 as int, StoreScan { addresses: Map::empty(), ..s })
        }
    }
}

fn add_store_exec(stores: &mut Vec<(u64, u64)>, store: (u64, u64))
    ensures
        final(stores)@ == add_store(old(stores)@, store),
{
    let mut i: usize = 0;
    while i < stores.len()
        invariant
            i <= stores@.len(),
            forall|j: int| 0 <= j < i ==> stores@[j] != store,
        decreases stores.len() - i,
    {
        let (a, b) = stores[i];
        if a == store.0 && b == store.1 {
            assert(stores@[i as int] == store);
            return;
        }
        i = i + 1;
    }
    stores.push(store);
}

fn store_range(
    dll: &[u8],
    start: usize,
    end: usize,
    va: u64,
    loaded: &mut std::collections::HashSet<u64>,
    loaded_twice: &mut std::collections::HashSet<u64>,
    stores: &mut Vec<(u64, u64)>,
)
    requires
        start <= end <= dll@.len(),
    ensures
        ({
            let s = store_from(dll@, start as int, end as int, va, start as int, StoreScan {
                addresses: Map::empty(),
                loaded: old(loaded)@,
                loaded_twice: old(loaded_twice)@,
                stores: old(stores)@,
            });
            &&& final(loaded)@ == s.loaded
            &&& final(loaded_twice)@ == s.loaded_twice
            &&& final(stores)@ == s.stores
        }),
{
    let ghost target = store_from(dll@, start as int, end as int, va, start as int, StoreScan {
        addresses: Map::empty(),
        loaded: loaded@,
        loaded_twice: loaded_twice@,
        stores: stores@,
    });
    let mut addresses: HashMap<u32, u64> = HashMap::new();
    let mut pos = start;
    while pos < end
        invariant
            start <= pos <= end <= dll@.len(),
            target == store_from(dll@, start as int, end as int, va, pos as int, StoreScan {
                addresses: addresses@,
                loaded: loaded@,
                loaded_twice: loaded_twice@,
                stores: stores@,
            }),
        decreases end - pos,
    {
        let insn = decode_instruction(dll, pos, end, va.wrapping_add((pos - start) as u64));
        let ghost s0 = StoreScan { addresses: addresses@, loaded: loaded@, loaded_twice: loaded_twice@, stores: stores@ };
        let a = insn.ip_rel_address;
        if insn.mnemonic == MNEMONIC_MOV && insn.op0_kind == OPERAND_REGISTER && insn.op1_kind
            == OPERAND_MEMORY && insn.ip_relative {
            if loaded.contains(&a) {
                loaded_twice.insert(a);
            }
            loaded.insert(a);
        }
        if insn.mnemonic == MNEMONIC_LEA && insn.op0_kind == OPERAND_REGISTER && insn.ip_relative {
            addresses.insert(insn.op0_register, a);
        } else {
            if insn.mnemonic == MNEMONIC_MOV && insn.op0_kind == OPERAND_MEMORY && insn.op1_kind
                == OPERAND_REGISTER && insn.ip_relative {
                match addresses.get(&insn.op1_register) {
                    Some(target_address) => {
                        let t = *target_address;
                        add_store_exec(stores, (t, a));
                    },
                    None => {},
                }
            }
            if insn.op0_kind == OPERAND_REGISTER {
                addresses.remove(&insn.op0_register);
            }
            if insn.flow_control == FLOW_RETURN {
                addresses.clear();
            }
        }
        proof {
            let s1 = store_step(insn, s0);
            assert(addresses@ =~= s1.addresses);
            assert(loaded@ =~= s1.loaded);
            assert(loaded_twice@ =~= s1.loaded_twice);
        }
        pos = pos + insn.length;
    }
}


/// The candidate that the store `store` gives: the file offset of the stored address and
/// the expressions computed from the global, when the global is loaded at least twice, the
/// address lies in the file, and at least eight expressions are computed.
pub open spec fn candidate_for(
    dll: Seq<u8>,
    pe: PeImage,
    store: (u64, u64),
    loaded_twice: Set<u64>,
) -> Option<(usize, Set<ExpressionModel>)> {
    if !loaded_twice.contains(store.1) {
        None
    } else {
        match pe.file_offset_of(store.0) {
            None => None,
            Some(offset) => if offset >= dll.len() {
                None
            } else {
                let expressions = global_expressions(dll, pe, store.1);
                if expressions.len() < 8 {
                    None
                } else {
                    Some((offset, expressions))
                }
            },
        }
    }
}

/// The candidates of the first `n` stores, in order.
pub open spec fn raw_candidates(
    dll: Seq<u8>,
    pe: PeImage,
    stores: Seq<(u64, u64)>,
    loaded_twice: Set<u64>,
    n: nat,
) -> Seq<(usize, Set<ExpressionModel>)>
    decreases n,
{
    if n == 0 || n > stores.len() {
        Seq::empty()
    } else {
        let found = raw_candidates(dll, pe, stores, loaded_twice, (n - 1) as nat);
        match candidate_for(dll, pe, stores[n - 1], loaded_twice) {
            Some(c) => found.push(c),
            None => found,
        }
    }
}

/// Every candidate header that the native code stores into a global, in the order the
/// stores are found.
pub open spec fn header_candidates(dll: Seq<u8>, pe: PeImage) -> Seq<(usize, Set<ExpressionModel>)> {
    let ranges = pe.executable_ranges_spec();
    let scan = store_scan(dll, ranges, ranges.len());
    raw_candidates(dll, pe, scan.stores, scan.loaded_twice, scan.stores.len())
}

/// The expressions of the first of the first `n` candidates at file offset `offset`.
pub open spec fn first_at_offset(
    raw: Seq<(usize, Set<ExpressionModel>)>,
    offset: usize,
    n: nat,
) -> Option<Set<ExpressionModel>>
    decreases n,
{
    if n == 0 || n > raw.len() {
        None
    } else {
        match first_at_offset(raw, offset, (n - 1) as nat) {
            Some(e) => Some(e),
            None => if raw[n - 1].0 == offset {
                Some(raw[n - 1].1)
            } else {
                None
            },
        }
    }
}

/// Whether some entry of `r` stands at file offset `offset`.
pub open spec fn holds_offset(r: Seq<(usize, Vec<HeaderExpression>)>, offset: usize) -> bool {
    exists|k: int| 0 <= k < r.len() && r[k].0 == offset
}

/// Whether `r` lists the candidates `raw` by file offset, once each: offsets strictly
/// increase, every offset of `raw` occurs, and each entry holds the expressions of the first
/// candidate at its offset, once each and ordered.
pub open spec fn candidates_listed(
    r: Seq<(usize, Vec<HeaderExpression>)>,
    raw: Seq<(usize, Set<ExpressionModel>)>,
) -> bool {
    &&& forall|i: int, j: int| 0 <= i < j < r.len() ==> r[i].0 < r[j].0
    &&& forall|k: int|
        0 <= k < r.len() ==> first_at_offset(raw, #[trigger] r[k].0, raw.len()) == Some(
            expression_set(r[k].1@),
        ) && distinct_expressions(r[k].1@) && sorted_expressions(r[k].1@)
    &&& forall|offset: usize|
        #[trigger] first_at_offset(raw, offset, raw.len()) is Some ==> holds_offset(r, offset)
}

proof fn lemma_first_at_offset_push(raw: Seq<(usize, Set<ExpressionModel>)>, c: (usize, Set<ExpressionModel>), offset: usize)
    ensures
        first_at_offset(raw.push(c), offset, raw.len() + 1) == (match first_at_offset(raw, offset, raw.len()) {
            Some(e) => Some(e),
            None => if c.0 == offset {
                Some(c.1)
            } else {
                None
            },
        }),
{
    lemma_first_at_offset_prefix(raw, c, offset, raw.len());
}

proof fn lemma_first_at_offset_prefix(raw: Seq<(usize, Set<ExpressionModel>)>, c: (usize, Set<ExpressionModel>), offset: usize, n: nat)
    requires
        n <= raw.len(),
    ensures
        first_at_offset(raw.push(c), offset, n) == first_at_offset(raw, offset, n),
    decreases n,
{
    if n > 0 {
        lemma_first_at_offset_prefix(raw, c, offset, (n - 1) as nat);
        assert(raw.push(c)[n - 1] == raw[n - 1]);
    }
}

proof fn lemma_distinct_expression_count(v: Seq<HeaderExpression>)
    requires
        distinct_expressions(v),
    ensures
        expression_set(v).len() == v.len(),
        expression_set(v).finite(),
{
    let m = v.map_values(|x: HeaderExpression| x@);
    assert(m.no_duplicates()) by {
        assert forall|i: int, j: int| 0 <= i < m.len() && 0 <= j < m.len() && i != j implies m[i] != m[j] by {
            if i < j {
                assert(v[i]@ != v[j]@);
            } else {
                assert(v[j]@ != v[i]@);
            }
        }
    }
    m.unique_seq_to_set();
}

/// Adds the candidate at `offset` to the list `r`, ordered by offset, unless an earlier
/// candidate stands at that offset.
fn add_candidate(
    r: &mut Vec<(usize, Vec<HeaderExpression>)>,
    offset: usize,
    expressions: Vec<HeaderExpression>,
    Ghost(raw): Ghost<Seq<(usize, Set<ExpressionModel>)>>,
)
    requires
        candidates_listed(old(r)@, raw),
        distinct_expressions(expressions@),
        sorted_expressions(expressions@),
    ensures
        candidates_listed(final(r)@, raw.push((offset, expression_set(expressions@)))),
{
    let ghost c = (offset, expression_set(expressions@));
    let ghost before = r@;
    let mut p: usize = 0;
    while p < r.len() && r[p].0 < offset
        invariant
            p <= r@.len(),
            r@ == before,
            forall|k: int| 0 <= k < p ==> (#[trigger] r@[k]).0 < offset,
        decreases r.len() - p,
    {
        p = p + 1;
    }
    if p < r.len() && r[p].0 == offset {
        proof {
            assert(first_at_offset(raw, offset, raw.len()) is Some);
            assert forall|o: usize| #[trigger] first_at_offset(raw.push(c), o, raw.len() + 1) is Some implies holds_offset(r@, o) by {
                lemma_first_at_offset_push(raw, c, o);
                if first_at_offset(raw, o, raw.len()) is None {
                    assert(r@[p as int].0 == o);
                }
            }
            assert forall|k: int| 0 <= k < r@.len() implies first_at_offset(raw.push(c), #[trigger] r@[k].0, raw.len() + 1) == Some(expression_set(r@[k].1@)) by {
                lemma_first_at_offset_push(raw, c, r@[k].0);
            }
        }
        return;
    }
    proof {
        assert(first_at_offset(raw, offset, raw.len()) is None) by {
            if first_at_offset(raw, offset, raw.len()) is Some {
                assert(holds_offset(before, offset));
                let k = choose|k: int| 0 <= k < before.len() && before[k].0 == offset;
                if k < p {
                    assert(before[k].0 < offset);
                } else if k > p {
                    assert(before[p as int].0 < before[k].0);
                }
            }
        }
    }
    r.insert(p, (offset, expressions));
    proof {
        assert forall|i: int, j: int| 0 <= i < j < r@.len() implies r@[i].0 < r@[j].0 by {
            if j < p {
                assert(r@[i] == before[i] && r@[j] == before[j]);
            } else if j == p {
                assert(r@[i] == before[i]);
            } else if i < p {
                assert(r@[i] == before[i] && r@[j] == before[j - 1]);
            } else if i == p {
                assert(r@[j] == before[j - 1]);
            } else {
                assert(r@[i] == before[i - 1] && r@[j] == before[j - 1]);
            }
        }
        assert forall|k: int| 0 <= k < r@.len() implies first_at_offset(raw.push(c), #[trigger] r@[k].0, raw.len() + 1) == Some(expression_set(r@[k].1@)) && distinct_expressions(r@[k].1@) && sorted_expressions(r@[k].1@) by {
            lemma_first_at_offset_push(raw, c, r@[k].0);
            if k < p {
                assert(r@[k] == before[k]);
            } else if k > p {
                assert(r@[k] == before[k - 1]);
            }
        }
        assert forall|o: usize| #[trigger] first_at_offset(raw.push(c), o, raw.len() + 1) is Some implies holds_offset(r@, o) by {
            lemma_first_at_offset_push(raw, c, o);
            if first_at_offset(raw, o, raw.len()) is Some {
                let k = choose|k: int| 0 <= k < before.len() && before[k].0 == o;
                if k < p {
                    assert(r@[k] == before[k]);
                } else {
                    assert(r@[k + 1] == before[k]);
                }
            } else {
                assert(r@[p as int].0 == o);
            }
        }
    }
}

/// The candidate headers that the native code stores into a global: for each, the file
/// offset of the stored address and the expressions the code computes from that global,
/// ordered by offset, one per offset.
pub fn find_header_candidates(dll: &[u8], pe: &PeImage) -> (r: Vec<(usize, Vec<HeaderExpression>)>)
    ensures
        candidates_listed(r@, header_candidates(dll@, *pe)),
{
    let ranges = pe.executable_mapped_ranges();
    let mut loaded: std::collections::HashSet<u64> = std::collections::HashSet::new();
    let mut loaded_twice: std::collections::HashSet<u64> = std::collections::HashSet::new();
    let mut stores: Vec<(u64, u64)> = Vec::new();
    let mut k: usize = 0;
    while k < ranges.len()
        invariant
            k <= ranges@.len(),
            ranges@ == pe.executable_ranges_spec(),
            ({
                let s = store_scan(dll@, ranges@, k as nat);
                &&& loaded@ == s.loaded
                &&& loaded_twice@ == s.loaded_twice
                &&& stores@ == s.stores
            }),
        decreases ranges.len() - k,
    {
        let (start, section_end, va) = ranges[k];
        let end = if section_end < dll.len() { section_end } else { dll.len() };
        if start <= end {
            store_range(dll, start, end, va, &mut loaded, &mut loaded_twice, &mut stores);
        }
        k = k + 1;
    }
    let mut result: Vec<(usize, Vec<HeaderExpression>)> = Vec::new();
    let mut j: usize = 0;
    while j < stores.len()
        invariant
            j <= stores@.len(),
            candidates_listed(result@, raw_candidates(dll@, *pe, stores@, loaded_twice@, j as nat)),
        decreases stores.len() - j,
    {
        let ghost raw = raw_candidates(dll@, *pe, stores@, loaded_twice@, j as nat);
        let (target, global) = stores[j];
        if loaded_twice.contains(&global) {
            match pe.va_to_file_offset(target) {
                Some(offset) => {
                    if offset < dll.len() {
                        let expressions = collect_global_expressions(dll, pe, global);
                        proof {
                            lemma_distinct_expression_count(expressions@);
                        }
                        if expressions.len() >= 8 {
                            let sorted = sort_expressions(&expressions);
                            add_candidate(&mut result, offset, sorted, Ghost(raw));
                        }
                    }
                },
                None => {},
            }
        }
        j = j + 1;
    }
    result
}

} // verus!
