//! The x86-64 instruction table.
use crate::actions::{Bits, Generic as G};
use crate::machine::{action_is, expand_slots, is_expansion, lemma_expand_slots_keep, Entry, Action, Immediate, InstrBuilder, InstrDef, MachineSpec, Param, Reg, RegClass, Slot, Var};
use crate::select::{has_single_form, lemma_home_from_eq, lemma_single_forms_kept, realizes_alone, single_step};
use vstd::prelude::*;

verus! {

pub const RAX: u8 = 0;
pub const RBX: u8 = 1;
pub const RCX: u8 = 2;
pub const RDX: u8 = 3;
pub const RBP: u8 = 4;
pub const RSI: u8 = 5;
pub const RDI: u8 = 6;
pub const RSP: u8 = 7;
pub const R8: u8 = 8;
pub const R9: u8 = 9;
pub const R10: u8 = 10;
pub const R11: u8 = 11;
pub const R12: u8 = 12;
pub const R13: u8 = 13;
pub const R14: u8 = 14;
pub const R15: u8 = 15;
pub const CF: u8 = 16;
pub const OF: u8 = 17;
pub const ZF: u8 = 18;
pub const SF: u8 = 19;
pub const XMM0: u8 = 20;
pub const XMM1: u8 = 21;
pub const XMM2: u8 = 22;
pub const XMM3: u8 = 23;
pub const XMM4: u8 = 24;
pub const XMM5: u8 = 25;
pub const XMM6: u8 = 26;
pub const XMM7: u8 = 27;

/// The general-purpose registers that forms may allocate: RAX to RSP and R9 to
/// R15. Registers do not overlap; flag aliasing is expressed by the forms.
pub const INT_REG_MASK: u64 = 0xFEFF;

/// XMM0 to XMM7.
pub const FP_REG_MASK: u64 = 0x0FF0_0000;

/// Address computations are 32 bits wide.
pub const MEM_OPERAND_SIZE: Bits = 32;

/// Relies on typenum's `U1`, whose `Unsigned::to_usize` is 1: the number of
/// shared outputs of the address variant set.
#[verifier::external_body]
fn address_outputs() -> (r: usize)
    ensures
        r == 1,
{
    <typenum::consts::U1 as typenum::Unsigned>::to_usize()
}

fn int_reg() -> (r: Param)
    ensures
        r == int_param(),
{
    Param::Class(RegClass { mask: INT_REG_MASK })
}

fn fp_reg() -> (r: Param)
    ensures
        r == Param::Class(RegClass { mask: FP_REG_MASK }),
{
    Param::Class(RegClass { mask: FP_REG_MASK })
}

fn int_reg_slot() -> (r: Slot)
    ensures
        r == int_slot(),
{
    Slot::Param(int_reg())
}

fn fp_reg_slot() -> (r: Slot)
    ensures
        r == fp_slot(),
{
    Slot::Param(fp_reg())
}

fn fixed(id: u8) -> (r: Reg)
    ensures
        r == (Reg { id }),
{
    Reg { id }
}

fn imm(bits: u8) -> (r: Param)
    requires
        1 <= bits <= 64,
    ensures
        crate::machine::valid_param(r),
        r == Param::Imm(Immediate { bits }),
{
    Param::Imm(Immediate { bits })
}

/// A builder with room for one more form's worth of slots.
pub open spec fn room(b: InstrBuilder) -> bool {
    b.wf() && !b.open && b.next <= 400 && records_imm_ok(b)
}

/// The immediate widths that x86-64 forms use.
pub open spec fn imm_width_ok(bits: u8) -> bool {
    bits == 3 || bits == 8 || bits == 16 || bits == 32
}

/// A slot is not an immediate of another width.
pub open spec fn imm_ok_slot(k: Slot) -> bool {
    match k {
        Slot::Param(Param::Imm(i)) => imm_width_ok(i.bits),
        _ => true,
    }
}

/// Every declaration of the builder respects the immediate widths.
pub open spec fn records_imm_ok(b: InstrBuilder) -> bool {
    forall|i: int| 0 <= i < b.records@.len() ==> (#[trigger] b.records@[i].entry matches Entry::Define(_, kind) ==> imm_ok_slot(kind))
}

/// Every slot of the form respects the immediate widths.
pub open spec fn form_imm_ok(f: InstrDef) -> bool {
    forall|s: int| 0 <= s < f.slots@.len() ==> imm_ok_slot(#[trigger] f.slots@[s])
}

/// Every slot of every form respects the immediate widths.
pub open spec fn table_imm_ok(forms: Seq<InstrDef>) -> bool {
    forall|f: int, s: int| 0 <= f < forms.len() && 0 <= s < forms[f].slots@.len() ==> imm_ok_slot(#[trigger] forms[f].slots@[s])
}

/// Closes the form that `b` declares, keeping the immediate widths.
fn add_built(m: &mut MachineSpec, name: &'static str, b: &InstrBuilder)
    requires
        old(m).wf(),
        b.wf(),
        records_imm_ok(*b),
        table_imm_ok(old(m).forms@),
    ensures
        final(m).wf(),
        table_imm_ok(final(m).forms@),
        final(m).forms@.len() == old(m).forms@.len() + b.form_count(),
        forall|i: int| 0 <= i < old(m).forms@.len() ==> #[trigger] final(m).forms@[i] == old(m).forms@[i],
{
    m.instr(name, b);
    proof {
        let p = |k: Slot| imm_ok_slot(k);
        assert forall|f: int, s: int| 0 <= f < m.forms@.len() && 0 <= s < m.forms@[f].slots@.len() implies imm_ok_slot(#[trigger] m.forms@[f].slots@[s]) by {
            if f >= old(m).forms@.len() {
                let i = f - old(m).forms@.len();
                assert(is_expansion(m.forms@[old(m).forms@.len() + i], *b, i as usize));
                lemma_expand_slots_keep(b.records@, i as usize, b.next as nat, b.records@.len(), p);
                assert(p(expand_slots(b.records@, i as usize, b.next as nat, b.records@.len())[s]));
            }
        }
    }
}

/// Adds a form written out directly, keeping the immediate widths.
fn add_direct(m: &mut MachineSpec, f: InstrDef)
    requires
        old(m).wf(),
        f.wf(),
        form_imm_ok(f),
        table_imm_ok(old(m).forms@),
    ensures
        final(m).wf(),
        table_imm_ok(final(m).forms@),
        final(m).forms@ == old(m).forms@.push(f),
        forall|i: int| 0 <= i < old(m).forms@.len() ==> #[trigger] final(m).forms@[i] == old(m).forms@[i],
{
    m.add_form(f);
    assert forall|g: int, s: int| 0 <= g < m.forms@.len() && 0 <= s < m.forms@[g].slots@.len() implies imm_ok_slot(#[trigger] m.forms@[g].slots@[s]) by {
        if g < old(m).forms@.len() {
            assert(m.forms@[g] == old(m).forms@[g]);
        }
    }
}

/// The builder grew by at most `k` slots and still has room.
pub open spec fn grew(before: InstrBuilder, after: InstrBuilder, k: int) -> bool {
    after.wf() && !after.open && before.next <= after.next && after.next <= before.next + k && after.sets@
        == before.sets@ && records_imm_ok(after)
}

/// The builder grew by at most `k` slots and now holds the five-way address
/// variant set.
pub open spec fn grew_memory(before: InstrBuilder, after: InstrBuilder, k: int) -> bool {
    after.wf() && !after.open && before.next <= after.next && after.next <= before.next + k && after.sets@
        =~= seq![5usize] && records_imm_ok(after)
}

/// A memory operand: a variant set whose one output is the address, computed as
/// a bare register, base + index, base + displacement, base + index +
/// displacement, or base + (index << scale) + displacement. Every step writes an
/// internal output, so the address folds into the instruction only when nothing
/// else needs it.
fn memory(b: &mut InstrBuilder) -> (out: Var)
    requires
        room(*old(b)),
        old(b).sets@.len() == 0,
    ensures
        grew_memory(*old(b), *final(b), 16),
        out.0 < final(b).next,
{
    let outs = b.variants(address_outputs());
    let out = outs[0];
    b.param_into(out, int_reg());

    b.or();
    let base = b.param(int_reg());
    let index = b.param(int_reg());
    b.action_into(out, G::Add(MEM_OPERAND_SIZE), vec![base, index]);

    b.or();
    let base = b.param(int_reg());
    let disp = b.param(imm(MEM_OPERAND_SIZE));
    b.action_into(out, G::Add(MEM_OPERAND_SIZE), vec![base, disp]);

    b.or();
    let base = b.param(int_reg());
    let index = b.param(int_reg());
    let disp = b.param(imm(MEM_OPERAND_SIZE));
    let intermediate = b.action(G::Add(MEM_OPERAND_SIZE), vec![base, index]);
    b.action_into(out, G::Add(MEM_OPERAND_SIZE), vec![intermediate, disp]);

    b.or();
    let base = b.param(int_reg());
    let index = b.param(int_reg());
    let scale = b.param(imm(3));
    let shifted_index = b.action(G::ShiftL(MEM_OPERAND_SIZE), vec![index, scale]);
    let disp = b.param(imm(MEM_OPERAND_SIZE));
    let intermediate = b.action(G::Add(MEM_OPERAND_SIZE), vec![base, shifted_index]);
    b.action_into(out, G::Add(MEM_OPERAND_SIZE), vec![intermediate, disp]);
    b.finish_variants();
    out
}

/// A load of `size` bits from a memory operand.
fn load(b: &mut InstrBuilder, size: Bits) -> (out: Var)
    requires
        room(*old(b)),
        old(b).sets@.len() == 0,
    ensures
        grew_memory(*old(b), *final(b), 17),
        out.0 < final(b).next,
{
    let addr = memory(b);
    b.action(G::Load { out: size, mem_size: MEM_OPERAND_SIZE }, vec![addr])
}

/// A store of `size` bits of `value`; the address is the form's memory operand.
fn store(b: &mut InstrBuilder, size: Bits, value: Var)
    requires
        room(*old(b)),
        value.0 < old(b).next,
    ensures
        grew(*old(b), *final(b), 1),
{
    b.action(G::Store { input: size, mem_size: MEM_OPERAND_SIZE }, vec![value]);
}

/// An arithmetic operation that sets the carry, overflow, zero and sign flags.
fn arith(b: &mut InstrBuilder, op: G, overflow_s: G, overflow_u: G, left: Var, right: Var) -> (out: Var)
    requires
        room(*old(b)),
        left.0 < old(b).next,
        right.0 < old(b).next,
    ensures
        grew(*old(b), *final(b), 5),
        out.0 < final(b).next,
{
    let out = b.action(op, vec![left, right]);
    b.action_to_reg(fixed(CF), overflow_u, vec![out]);
    b.action_to_reg(fixed(OF), overflow_s, vec![out]);
    b.action_to_reg(fixed(ZF), G::IsZero, vec![out]);
    b.action_to_reg(fixed(SF), G::LtZero, vec![out]);
    out
}

/// An arithmetic operation that also reads the carry flag.
fn arith_carry(b: &mut InstrBuilder, op: G, overflow_s: G, overflow_u: G, left: Var, right: Var) -> (out: Var)
    requires
        room(*old(b)),
        left.0 < old(b).next,
        right.0 < old(b).next,
    ensures
        grew(*old(b), *final(b), 6),
        out.0 < final(b).next,
{
    let carry = b.param(Param::Reg(fixed(CF)));
    let out = b.action(op, vec![left, right, carry]);
    b.action_to_reg(fixed(CF), overflow_u, vec![out]);
    b.action_to_reg(fixed(OF), overflow_s, vec![out]);
    b.action_to_reg(fixed(ZF), G::IsZero, vec![out]);
    b.action_to_reg(fixed(SF), G::LtZero, vec![out]);
    out
}

/// A bitwise operation: clears carry and overflow, sets zero and sign.
fn arith_logical(b: &mut InstrBuilder, op: G, left: Var, right: Var) -> (out: Var)
    requires
        room(*old(b)),
        left.0 < old(b).next,
        right.0 < old(b).next,
    ensures
        grew(*old(b), *final(b), 5),
        out.0 < final(b).next,
{
    let out = b.action(op, vec![left, right]);
    b.action_to_reg(fixed(CF), G::Clear, vec![]);
    b.action_to_reg(fixed(OF), G::Clear, vec![]);
    b.action_to_reg(fixed(ZF), G::IsZero, vec![out]);
    b.action_to_reg(fixed(SF), G::LtZero, vec![out]);
    out
}

/// A signed multiply: carry and overflow from the truncation, zero and sign
/// left undefined.
fn integer_smul(b: &mut InstrBuilder, op: G, size: Bits, cf_action: G, of_action: G, left: Var, right: Var) -> (out: Var)
    requires
        room(*old(b)),
        left.0 < old(b).next,
        right.0 < old(b).next,
    ensures
        grew(*old(b), *final(b), 5),
        out.0 < final(b).next,
{
    let out = b.action(op, vec![left, right]);
    b.action_to_reg(fixed(CF), cf_action, vec![out]);
    b.action_to_reg(fixed(OF), of_action, vec![out]);
    b.action_to_reg(fixed(ZF), G::Undefined(size), vec![out]);
    b.action_to_reg(fixed(SF), G::Undefined(size), vec![out]);
    out
}

/// An unsigned multiply into RAX, which also leaves RDX and the zero and sign
/// flags undefined.
fn integer_umul(b: &mut InstrBuilder, op: G, size: Bits, cf_action: G, of_action: G, left: Var, right: Var) -> (out: Var)
    requires
        room(*old(b)),
        left.0 < old(b).next,
        right.0 < old(b).next,
    ensures
        grew(*old(b), *final(b), 7),
        out.0 < final(b).next,
{
    let out = b.action(op, vec![left, right]);
    let dest = b.param(Param::Reg(fixed(RAX)));
    b.eq(dest, out);
    b.action_to_reg(fixed(CF), cf_action, vec![out]);
    b.action_to_reg(fixed(OF), of_action, vec![out]);
    b.action_to_reg(fixed(ZF), G::Undefined(size), vec![out]);
    b.action_to_reg(fixed(SF), G::Undefined(size), vec![out]);
    b.action_to_reg(fixed(RDX), G::Undefined(size), vec![out]);
    out
}

/// `dest = op(src)`, with `dest` a parameter slot.
fn move_to(b: &mut InstrBuilder, op: G, dest: Var, src: Var)
    requires
        room(*old(b)),
        dest.0 < old(b).next,
        src.0 < old(b).next,
    ensures
        grew(*old(b), *final(b), 1),
{
    let out = b.action(op, vec![src]);
    b.eq(dest, out);
}


/// Any general-purpose register.
pub open spec fn int_param() -> Param {
    Param::Class(RegClass { mask: INT_REG_MASK })
}

/// A general-purpose register slot.
pub open spec fn int_slot() -> Slot {
    Slot::Param(int_param())
}

/// A vector register slot.
pub open spec fn fp_slot() -> Slot {
    Slot::Param(Param::Class(RegClass { mask: FP_REG_MASK }))
}

pub open spec fn flag(id: u8) -> Slot {
    Slot::Fixed(Reg { id })
}

/// The register form of a flag-setting operation: `left = op(left, right)`
/// with carry, overflow, zero and sign flags written from the result.
pub open spec fn flag_arith_shape(f: InstrDef, right: Param, op: G, overflow_s: G, overflow_u: G) -> bool {
    &&& f.slots@ == seq![int_slot(), Slot::Param(right), Slot::Out, flag(CF), flag(OF), flag(ZF), flag(SF)]
    &&& f.eqs@ == seq![(Var(0), Var(2))]
    &&& f.actions@.len() == 5
    &&& action_is(f.actions@[0], op, seq![Var(0), Var(1)], Var(2))
    &&& action_is(f.actions@[1], overflow_u, seq![Var(2)], Var(3))
    &&& action_is(f.actions@[2], overflow_s, seq![Var(2)], Var(4))
    &&& action_is(f.actions@[3], G::IsZero, seq![Var(2)], Var(5))
    &&& action_is(f.actions@[4], G::LtZero, seq![Var(2)], Var(6))
}

fn arith_rr(name: &'static str, right: Param, op: G, overflow_s: G, overflow_u: G) -> (f: InstrDef)
    requires
        crate::machine::valid_param(right),
        imm_ok_slot(Slot::Param(right)),
    ensures
        f.wf(),
        f.name == name,
        flag_arith_shape(f, right, op, overflow_s, overflow_u),
        realizes_alone(f, op, 2),
        form_imm_ok(f),
{
    let f = InstrDef {
        name,
        variant: 0,
        slots: vec![int_reg_slot(), Slot::Param(right), Slot::Out, Slot::Fixed(fixed(CF)), Slot::Fixed(fixed(OF)), Slot::Fixed(fixed(ZF)), Slot::Fixed(fixed(SF))],
        actions: vec![
            Action { op, inputs: vec![Var(0), Var(1)], out: Var(2) },
            Action { op: overflow_u, inputs: vec![Var(2)], out: Var(3) },
            Action { op: overflow_s, inputs: vec![Var(2)], out: Var(4) },
            Action { op: G::IsZero, inputs: vec![Var(2)], out: Var(5) },
            Action { op: G::LtZero, inputs: vec![Var(2)], out: Var(6) },
        ],
        eqs: vec![(Var(0), Var(2))],
    };
    proof {
        assert(f.eqs@[0].1.0 == 2);
        lemma_home_from_eq(f, 2, 0);
        assert(single_step(f, f.actions@[0], op, 2));
        assert(f.slots@ =~= seq![int_slot(), Slot::Param(right), Slot::Out, flag(CF), flag(OF), flag(ZF), flag(SF)]);
        assert(f.eqs@ =~= seq![(Var(0), Var(2))]);
        assert(f.actions@[0].inputs@ =~= seq![Var(0), Var(1)]);
        assert(f.actions@[1].inputs@ =~= seq![Var(2)]);
        assert(f.actions@[2].inputs@ =~= seq![Var(2)]);
        assert(f.actions@[3].inputs@ =~= seq![Var(2)]);
        assert(f.actions@[4].inputs@ =~= seq![Var(2)]);
    }
    f
}

fn arith_carry_rr(name: &'static str, op: G, overflow_s: G, overflow_u: G) -> (f: InstrDef)
    ensures
        f.wf(),
        f.name == name,
        realizes_alone(f, op, 3),
        form_imm_ok(f),
{
    let f = InstrDef {
        name,
        variant: 0,
        slots: vec![int_reg_slot(), int_reg_slot(), Slot::Param(Param::Reg(fixed(CF))), Slot::Out, Slot::Fixed(fixed(CF)), Slot::Fixed(fixed(OF)), Slot::Fixed(fixed(ZF)), Slot::Fixed(fixed(SF))],
        actions: vec![
            Action { op, inputs: vec![Var(0), Var(1), Var(2)], out: Var(3) },
            Action { op: overflow_u, inputs: vec![Var(3)], out: Var(4) },
            Action { op: overflow_s, inputs: vec![Var(3)], out: Var(5) },
            Action { op: G::IsZero, inputs: vec![Var(3)], out: Var(6) },
            Action { op: G::LtZero, inputs: vec![Var(3)], out: Var(7) },
        ],
        eqs: vec![(Var(0), Var(3))],
    };
    proof {
        assert(f.eqs@[0].1.0 == 3);
        lemma_home_from_eq(f, 3, 0);
        assert(single_step(f, f.actions@[0], op, 3));
    }
    f
}

fn logical_rr(name: &'static str, op: G) -> (f: InstrDef)
    ensures
        f.wf(),
        f.name == name,
        realizes_alone(f, op, 2),
        form_imm_ok(f),
{
    let f = InstrDef {
        name,
        variant: 0,
        slots: vec![int_reg_slot(), int_reg_slot(), Slot::Out, Slot::Fixed(fixed(CF)), Slot::Fixed(fixed(OF)), Slot::Fixed(fixed(ZF)), Slot::Fixed(fixed(SF))],
        actions: vec![
            Action { op, inputs: vec![Var(0), Var(1)], out: Var(2) },
            Action { op: G::Clear, inputs: vec![], out: Var(3) },
            Action { op: G::Clear, inputs: vec![], out: Var(4) },
            Action { op: G::IsZero, inputs: vec![Var(2)], out: Var(5) },
            Action { op: G::LtZero, inputs: vec![Var(2)], out: Var(6) },
        ],
        eqs: vec![(Var(0), Var(2))],
    };
    proof {
        assert(f.eqs@[0].1.0 == 2);
        lemma_home_from_eq(f, 2, 0);
        assert(single_step(f, f.actions@[0], op, 2));
    }
    f
}

fn smul_rr(name: &'static str, op: G, size: Bits, cf_action: G, of_action: G) -> (f: InstrDef)
    ensures
        f.wf(),
        f.name == name,
        realizes_alone(f, op, 2),
        form_imm_ok(f),
{
    let f = InstrDef {
        name,
        variant: 0,
        slots: vec![int_reg_slot(), int_reg_slot(), Slot::Out, Slot::Fixed(fixed(CF)), Slot::Fixed(fixed(OF)), Slot::Fixed(fixed(ZF)), Slot::Fixed(fixed(SF))],
        actions: vec![
            Action { op, inputs: vec![Var(0), Var(1)], out: Var(2) },
            Action { op: cf_action, inputs: vec![Var(2)], out: Var(3) },
            Action { op: of_action, inputs: vec![Var(2)], out: Var(4) },
            Action { op: G::Undefined(size), inputs: vec![Var(2)], out: Var(5) },
            Action { op: G::Undefined(size), inputs: vec![Var(2)], out: Var(6) },
        ],
        eqs: vec![(Var(0), Var(2))],
    };
    proof {
        assert(f.eqs@[0].1.0 == 2);
        lemma_home_from_eq(f, 2, 0);
        assert(single_step(f, f.actions@[0], op, 2));
    }
    f
}

/// `mul`: RAX = left * right, with RDX and the zero and sign flags left
/// undefined.
fn umul_r(name: &'static str, size: Bits) -> (f: InstrDef)
    ensures
        f.wf(),
        f.name == name,
        realizes_alone(f, G::UMul(size), 2),
        form_imm_ok(f),
{
    let f = InstrDef {
        name,
        variant: 0,
        slots: vec![
            int_reg_slot(),
            int_reg_slot(),
            Slot::Out,
            Slot::Param(Param::Reg(fixed(RAX))),
            Slot::Fixed(fixed(CF)),
            Slot::Fixed(fixed(OF)),
            Slot::Fixed(fixed(ZF)),
            Slot::Fixed(fixed(SF)),
            Slot::Fixed(fixed(RDX)),
        ],
        actions: vec![
            Action { op: G::UMul(size), inputs: vec![Var(0), Var(1)], out: Var(2) },
            Action { op: G::IsNonZero, inputs: vec![Var(2)], out: Var(4) },
            Action { op: G::IsNonZero, inputs: vec![Var(2)], out: Var(5) },
            Action { op: G::Undefined(size), inputs: vec![Var(2)], out: Var(6) },
            Action { op: G::Undefined(size), inputs: vec![Var(2)], out: Var(7) },
            Action { op: G::Undefined(size), inputs: vec![Var(2)], out: Var(8) },
        ],
        eqs: vec![(Var(3), Var(2))],
    };
    proof {
        assert(f.eqs@[0].1.0 == 2);
        lemma_home_from_eq(f, 2, 0);
        assert(single_step(f, f.actions@[0], G::UMul(size), 2));
    }
    f
}

/// A vector operation `left = op(left, right)` that touches no flags.
fn fp_rr(name: &'static str, op: G) -> (f: InstrDef)
    ensures
        f.wf(),
        f.name == name,
        realizes_alone(f, op, 2),
        form_imm_ok(f),
{
    let f = InstrDef {
        name,
        variant: 0,
        slots: vec![fp_reg_slot(), fp_reg_slot(), Slot::Out],
        actions: vec![Action { op, inputs: vec![Var(0), Var(1)], out: Var(2) }],
        eqs: vec![(Var(0), Var(2))],
    };
    proof {
        assert(f.eqs@[0].1.0 == 2);
        lemma_home_from_eq(f, 2, 0);
        assert(single_step(f, f.actions@[0], op, 2));
    }
    f
}

/// `dest = op(src)`, touching no flags.
fn move_r(name: &'static str, op: G, dest: Param, src: Param) -> (f: InstrDef)
    requires
        crate::machine::valid_param(dest),
        crate::machine::valid_param(src),
        imm_ok_slot(Slot::Param(dest)),
        imm_ok_slot(Slot::Param(src)),
    ensures
        f.wf(),
        f.name == name,
        realizes_alone(f, op, 1),
        form_imm_ok(f),
{
    let f = InstrDef {
        name,
        variant: 0,
        slots: vec![Slot::Param(dest), Slot::Param(src), Slot::Out],
        actions: vec![Action { op, inputs: vec![Var(1)], out: Var(2) }],
        eqs: vec![(Var(0), Var(2))],
    };
    proof {
        assert(f.eqs@[0].1.0 == 2);
        lemma_home_from_eq(f, 2, 0);
        assert(single_step(f, f.actions@[0], op, 1));
    }
    f
}

/// `test r, r`: clears carry and overflow, and sets the zero and sign flags
/// from the register.
fn test_r(name: &'static str) -> (f: InstrDef)
    ensures
        f.wf(),
        f.name == name,
        realizes_alone(f, G::IsZero, 1),
        realizes_alone(f, G::LtZero, 1),
        form_imm_ok(f),
{
    let f = InstrDef {
        name,
        variant: 0,
        slots: vec![int_reg_slot(), Slot::Fixed(fixed(CF)), Slot::Fixed(fixed(OF)), Slot::Fixed(fixed(ZF)), Slot::Fixed(fixed(SF))],
        actions: vec![
            Action { op: G::Clear, inputs: vec![], out: Var(1) },
            Action { op: G::Clear, inputs: vec![], out: Var(2) },
            Action { op: G::IsZero, inputs: vec![Var(0)], out: Var(3) },
            Action { op: G::LtZero, inputs: vec![Var(0)], out: Var(4) },
        ],
        eqs: vec![],
    };
    proof {
        assert(single_step(f, f.actions@[2], G::IsZero, 1));
        assert(single_step(f, f.actions@[3], G::LtZero, 1));
    }
    f
}

/// `test r, r` followed by `setnz`: a register receives whether the source is
/// non-zero; the flags are those of the test.
fn setnz_r(name: &'static str) -> (f: InstrDef)
    ensures
        f.wf(),
        f.name == name,
        realizes_alone(f, G::IsNonZero, 1),
        form_imm_ok(f),
{
    let f = InstrDef {
        name,
        variant: 0,
        slots: vec![int_reg_slot(), int_reg_slot(), Slot::Out, Slot::Fixed(fixed(CF)), Slot::Fixed(fixed(OF)), Slot::Fixed(fixed(ZF)), Slot::Fixed(fixed(SF))],
        actions: vec![
            Action { op: G::IsNonZero, inputs: vec![Var(1)], out: Var(2) },
            Action { op: G::Clear, inputs: vec![], out: Var(3) },
            Action { op: G::Clear, inputs: vec![], out: Var(4) },
            Action { op: G::IsZero, inputs: vec![Var(1)], out: Var(5) },
            Action { op: G::LtZero, inputs: vec![Var(1)], out: Var(6) },
        ],
        eqs: vec![(Var(0), Var(2))],
    };
    proof {
        assert(f.eqs@[0].1.0 == 2);
        lemma_home_from_eq(f, 2, 0);
        assert(single_step(f, f.actions@[0], G::IsNonZero, 1));
    }
    f
}

/// The base + displacement alternative of a load into a register: the
/// address `base + disp` is internal and feeds the load, whose result is tied
/// to the destination.
pub open spec fn base_disp_load_shape(f: InstrDef, size: Bits) -> bool {
    &&& f.slots@ == seq![int_slot(), int_slot(), Slot::Param(Param::Imm(Immediate { bits: MEM_OPERAND_SIZE })), Slot::Out, Slot::Out]
    &&& f.eqs@ == seq![(Var(0), Var(4))]
    &&& f.actions@.len() == 2
    &&& action_is(f.actions@[0], G::Add(MEM_OPERAND_SIZE), seq![Var(1), Var(2)], Var(3))
    &&& action_is(f.actions@[1], G::Load { out: size, mem_size: MEM_OPERAND_SIZE }, seq![Var(3)], Var(4))
}

/// `mov r, m`: a load into a register, for alternative `alt` of the memory
/// operand (bare register, base + index, base + displacement, base + index +
/// displacement, base + (index << scale) + displacement).
fn load_form(name: &'static str, size: Bits, alt: usize) -> (f: InstrDef)
    ensures
        f.wf(),
        f.name == name,
        f.variant == (if alt < 4 { alt } else { 4 }),
        alt == 0 ==> realizes_alone(f, G::Load { out: size, mem_size: MEM_OPERAND_SIZE }, 1),
        alt == 2 ==> base_disp_load_shape(f, size),
        form_imm_ok(f),
{
    let ld = G::Load { out: size, mem_size: MEM_OPERAND_SIZE };
    let f = match alt {
        0 => InstrDef { name, variant: 0, slots: vec![int_reg_slot(), int_reg_slot(), Slot::Out], actions: vec![Action { op: ld, inputs: vec![Var(1)], out: Var(2) }], eqs: vec![(Var(0), Var(2))] },
        1 => InstrDef { name, variant: 1, slots: vec![int_reg_slot(), int_reg_slot(), int_reg_slot(), Slot::Out, Slot::Out], actions: vec![Action { op: G::Add(MEM_OPERAND_SIZE), inputs: vec![Var(1), Var(2)], out: Var(3) }, Action { op: ld, inputs: vec![Var(3)], out: Var(4) }], eqs: vec![(Var(0), Var(4))] },
        2 => InstrDef { name, variant: 2, slots: vec![int_reg_slot(), int_reg_slot(), Slot::Param(imm(MEM_OPERAND_SIZE)), Slot::Out, Slot::Out], actions: vec![Action { op: G::Add(MEM_OPERAND_SIZE), inputs: vec![Var(1), Var(2)], out: Var(3) }, Action { op: ld, inputs: vec![Var(3)], out: Var(4) }], eqs: vec![(Var(0), Var(4))] },
        3 => InstrDef { name, variant: 3, slots: vec![int_reg_slot(), int_reg_slot(), int_reg_slot(), Slot::Param(imm(MEM_OPERAND_SIZE)), Slot::Out, Slot::Out, Slot::Out], actions: vec![Action { op: G::Add(MEM_OPERAND_SIZE), inputs: vec![Var(1), Var(2)], out: Var(4) }, Action { op: G::Add(MEM_OPERAND_SIZE), inputs: vec![Var(4), Var(3)], out: Var(5) }, Action { op: ld, inputs: vec![Var(5)], out: Var(6) }], eqs: vec![(Var(0), Var(6))] },
        _ => InstrDef { name, variant: 4, slots: vec![int_reg_slot(), int_reg_slot(), int_reg_slot(), Slot::Param(imm(3)), Slot::Out, Slot::Param(imm(MEM_OPERAND_SIZE)), Slot::Out, Slot::Out, Slot::Out], actions: vec![Action { op: G::ShiftL(MEM_OPERAND_SIZE), inputs: vec![Var(2), Var(3)], out: Var(4) }, Action { op: G::Add(MEM_OPERAND_SIZE), inputs: vec![Var(1), Var(4)], out: Var(6) }, Action { op: G::Add(MEM_OPERAND_SIZE), inputs: vec![Var(6), Var(5)], out: Var(7) }, Action { op: ld, inputs: vec![Var(7)], out: Var(8) }], eqs: vec![(Var(0), Var(8))] },
    };
    proof {
        if alt == 0 {
            lemma_home_from_eq(f, 2, 0);
            assert(single_step(f, f.actions@[0], ld, 1));
        }
        if alt == 2 {
            assert(f.slots@ =~= seq![int_slot(), int_slot(), Slot::Param(Param::Imm(Immediate { bits: MEM_OPERAND_SIZE })), Slot::Out, Slot::Out]);
            assert(f.eqs@ =~= seq![(Var(0), Var(4))]);
            assert(f.actions@[0].inputs@ =~= seq![Var(1), Var(2)]);
            assert(f.actions@[1].inputs@ =~= seq![Var(3)]);
        }
    }
    f
}

/// `mov m, r` or `mov m, imm`: a store of `src`, for alternative `alt` of the
/// memory operand.
fn store_form(name: &'static str, size: Bits, src_param: Param, alt: usize) -> (f: InstrDef)
    requires
        crate::machine::valid_param(src_param),
        imm_ok_slot(Slot::Param(src_param)),
    ensures
        f.wf(),
        f.name == name,
        f.variant == (if alt < 4 { alt } else { 4 }),
        alt == 0 ==> realizes_alone(f, G::Store { input: size, mem_size: MEM_OPERAND_SIZE }, 1),
        form_imm_ok(f),
{
    let st = G::Store { input: size, mem_size: MEM_OPERAND_SIZE };
    let src = Slot::Param(src_param);
    let f = match alt {
        0 => InstrDef { name, variant: 0, slots: vec![int_reg_slot(), src, Slot::Out], actions: vec![Action { op: st, inputs: vec![Var(1)], out: Var(2) }], eqs: vec![] },
        1 => InstrDef { name, variant: 1, slots: vec![int_reg_slot(), int_reg_slot(), Slot::Out, src, Slot::Out], actions: vec![Action { op: G::Add(MEM_OPERAND_SIZE), inputs: vec![Var(0), Var(1)], out: Var(2) }, Action { op: st, inputs: vec![Var(3)], out: Var(4) }], eqs: vec![] },
        2 => InstrDef { name, variant: 2, slots: vec![int_reg_slot(), Slot::Param(imm(MEM_OPERAND_SIZE)), Slot::Out, src, Slot::Out], actions: vec![Action { op: G::Add(MEM_OPERAND_SIZE), inputs: vec![Var(0), Var(1)], out: Var(2) }, Action { op: st, inputs: vec![Var(3)], out: Var(4) }], eqs: vec![] },
        3 => InstrDef { name, variant: 3, slots: vec![int_reg_slot(), int_reg_slot(), Slot::Param(imm(MEM_OPERAND_SIZE)), Slot::Out, Slot::Out, src, Slot::Out], actions: vec![Action { op: G::Add(MEM_OPERAND_SIZE), inputs: vec![Var(0), Var(1)], out: Var(3) }, Action { op: G::Add(MEM_OPERAND_SIZE), inputs: vec![Var(3), Var(2)], out: Var(4) }, Action { op: st, inputs: vec![Var(5)], out: Var(6) }], eqs: vec![] },
        _ => InstrDef { name, variant: 4, slots: vec![int_reg_slot(), int_reg_slot(), Slot::Param(imm(3)), Slot::Out, Slot::Param(imm(MEM_OPERAND_SIZE)), Slot::Out, Slot::Out, src, Slot::Out], actions: vec![Action { op: G::ShiftL(MEM_OPERAND_SIZE), inputs: vec![Var(1), Var(2)], out: Var(3) }, Action { op: G::Add(MEM_OPERAND_SIZE), inputs: vec![Var(0), Var(3)], out: Var(5) }, Action { op: G::Add(MEM_OPERAND_SIZE), inputs: vec![Var(5), Var(4)], out: Var(6) }, Action { op: st, inputs: vec![Var(7)], out: Var(8) }], eqs: vec![] },
    };
    proof {
        if alt == 0 {
            assert(single_step(f, f.actions@[0], st, 1));
        }
    }
    f
}

/// Register-register, register-memory, memory-register, register-immediate and
/// memory-immediate forms of a flag-setting arithmetic operation of one width.
fn arith_variants(m: &mut MachineSpec, size: Bits, op: G, overflow_s: G, overflow_u: G, names: [&'static str; 5])
    requires
        old(m).wf(),
        table_imm_ok(old(m).forms@),
    ensures
        final(m).wf(),
        table_imm_ok(final(m).forms@),
        final(m).forms@.len() == old(m).forms@.len() + 17,
        forall|i: int| 0 <= i < old(m).forms@.len() ==> #[trigger] final(m).forms@[i] == old(m).forms@[i],
        final(m).forms@[old(m).forms@.len() as int].name == names[0],
        realizes_alone(final(m).forms@[old(m).forms@.len() as int], op, 2),
        flag_arith_shape(final(m).forms@[old(m).forms@.len() as int], int_param(), op, overflow_s, overflow_u),
{
    add_direct(m, arith_rr(names[0], int_reg(), op, overflow_s, overflow_u));

    let mut b = InstrBuilder::new();
    let left = b.param(int_reg());
    let right = load(&mut b, size);
    let out = arith(&mut b, op, overflow_s, overflow_u, left, right);
    b.eq(out, left);
    add_built(m, names[1], &b);

    let mut b = InstrBuilder::new();
    let left = load(&mut b, size);
    let right = b.param(int_reg());
    let out = arith(&mut b, op, overflow_s, overflow_u, left, right);
    store(&mut b, size, out);
    add_built(m, names[2], &b);

    let mut b = InstrBuilder::new();
    let left = b.param(int_reg());
    let right = b.param(imm(32));
    let out = arith(&mut b, op, overflow_s, overflow_u, left, right);
    b.eq(left, out);
    add_built(m, names[3], &b);

    let mut b = InstrBuilder::new();
    let left = load(&mut b, size);
    let right = b.param(imm(32));
    let out = arith(&mut b, op, overflow_s, overflow_u, left, right);
    store(&mut b, size, out);
    add_built(m, names[4], &b);
}

/// The five forms of an arithmetic operation that also reads the carry flag.
fn arith_variants_carry(m: &mut MachineSpec, size: Bits, op: G, overflow_s: G, overflow_u: G, names: [&'static str; 5])
    requires
        old(m).wf(),
        table_imm_ok(old(m).forms@),
    ensures
        final(m).wf(),
        table_imm_ok(final(m).forms@),
        final(m).forms@.len() == old(m).forms@.len() + 17,
        forall|i: int| 0 <= i < old(m).forms@.len() ==> #[trigger] final(m).forms@[i] == old(m).forms@[i],
        final(m).forms@[old(m).forms@.len() as int].name == names[0],
        realizes_alone(final(m).forms@[old(m).forms@.len() as int], op, 3),
{
    add_direct(m, arith_carry_rr(names[0], op, overflow_s, overflow_u));

    let mut b = InstrBuilder::new();
    let left = b.param(int_reg());
    let right = load(&mut b, size);
    let out = arith_carry(&mut b, op, overflow_s, overflow_u, left, right);
    b.eq(out, left);
    add_built(m, names[1], &b);

    let mut b = InstrBuilder::new();
    let left = load(&mut b, size);
    let right = b.param(int_reg());
    let out = arith_carry(&mut b, op, overflow_s, overflow_u, left, right);
    store(&mut b, size, out);
    add_built(m, names[2], &b);

    let mut b = InstrBuilder::new();
    let left = b.param(int_reg());
    let right = b.param(imm(32));
    let out = arith_carry(&mut b, op, overflow_s, overflow_u, left, right);
    b.eq(left, out);
    add_built(m, names[3], &b);

    let mut b = InstrBuilder::new();
    let left = load(&mut b, size);
    let right = b.param(imm(32));
    let out = arith_carry(&mut b, op, overflow_s, overflow_u, left, right);
    store(&mut b, size, out);
    add_built(m, names[4], &b);
}

/// The five forms of a bitwise operation.
fn arith_variants_logical(m: &mut MachineSpec, size: Bits, op: G, names: [&'static str; 5])
    requires
        old(m).wf(),
        table_imm_ok(old(m).forms@),
    ensures
        final(m).wf(),
        table_imm_ok(final(m).forms@),
        final(m).forms@.len() == old(m).forms@.len() + 17,
        forall|i: int| 0 <= i < old(m).forms@.len() ==> #[trigger] final(m).forms@[i] == old(m).forms@[i],
        final(m).forms@[old(m).forms@.len() as int].name == names[0],
        realizes_alone(final(m).forms@[old(m).forms@.len() as int], op, 2),
{
    add_direct(m, logical_rr(names[0], op));

    let mut b = InstrBuilder::new();
    let left = b.param(int_reg());
    let right = load(&mut b, size);
    let out = arith_logical(&mut b, op, left, right);
    b.eq(out, left);
    add_built(m, names[1], &b);

    let mut b = InstrBuilder::new();
    let left = load(&mut b, size);
    let right = b.param(int_reg());
    let out = arith_logical(&mut b, op, left, right);
    store(&mut b, size, out);
    add_built(m, names[2], &b);

    let mut b = InstrBuilder::new();
    let left = b.param(int_reg());
    let right = b.param(imm(32));
    let out = arith_logical(&mut b, op, left, right);
    b.eq(left, out);
    add_built(m, names[3], &b);

    let mut b = InstrBuilder::new();
    let left = load(&mut b, size);
    let right = b.param(imm(32));
    let out = arith_logical(&mut b, op, left, right);
    store(&mut b, size, out);
    add_built(m, names[4], &b);
}

/// Register-register and register-memory forms of a vector-register operation
/// that touches no flags.
fn arith_variants_fp(m: &mut MachineSpec, size: Bits, op: G, names: [&'static str; 2])
    requires
        old(m).wf(),
        table_imm_ok(old(m).forms@),
    ensures
        final(m).wf(),
        table_imm_ok(final(m).forms@),
        final(m).forms@.len() == old(m).forms@.len() + 6,
        forall|i: int| 0 <= i < old(m).forms@.len() ==> #[trigger] final(m).forms@[i] == old(m).forms@[i],
        final(m).forms@[old(m).forms@.len() as int].name == names[0],
        realizes_alone(final(m).forms@[old(m).forms@.len() as int], op, 2),
{
    add_direct(m, fp_rr(names[0], op));

    let mut b = InstrBuilder::new();
    let left = b.param(fp_reg());
    let right = load(&mut b, size);
    let out = b.action(op, vec![left, right]);
    b.eq(out, left);
    add_built(m, names[1], &b);
}

/// Shift forms: by CL or by an 8-bit immediate, on a register or in memory.
fn arith_variants_shift(m: &mut MachineSpec, size: Bits, op: G, overflow: G, carry: G, names: [&'static str; 4])
    requires
        old(m).wf(),
        table_imm_ok(old(m).forms@),
    ensures
        final(m).wf(),
        table_imm_ok(final(m).forms@),
        final(m).forms@.len() == old(m).forms@.len() + 12,
        forall|i: int| 0 <= i < old(m).forms@.len() ==> #[trigger] final(m).forms@[i] == old(m).forms@[i],
        final(m).forms@[old(m).forms@.len() as int].name == names[0],
        realizes_alone(final(m).forms@[old(m).forms@.len() as int], op, 2),
{
    add_direct(m, arith_rr(names[0], Param::Reg(fixed(RCX)), op, overflow, carry));

    let mut b = InstrBuilder::new();
    let left = load(&mut b, size);
    let right = b.param(Param::Reg(fixed(RCX)));
    let out = arith(&mut b, op, overflow, carry, left, right);
    store(&mut b, size, out);
    add_built(m, names[1], &b);

    let mut b = InstrBuilder::new();
    let left = b.param(int_reg());
    let right = b.param(imm(8));
    let out = arith(&mut b, op, overflow, carry, left, right);
    b.eq(left, out);
    add_built(m, names[2], &b);

    let mut b = InstrBuilder::new();
    let left = load(&mut b, size);
    let right = b.param(imm(8));
    let out = arith(&mut b, op, overflow, carry, left, right);
    store(&mut b, size, out);
    add_built(m, names[3], &b);
}

/// Signed multiply forms. The three-operand forms write a destination that
/// need not be the first source.
fn signed_multiply_variants(m: &mut MachineSpec, size: Bits, op: G, overflow: G, carry: G, names: [&'static str; 4])
    requires
        old(m).wf(),
        table_imm_ok(old(m).forms@),
    ensures
        final(m).wf(),
        table_imm_ok(final(m).forms@),
        final(m).forms@.len() == old(m).forms@.len() + 12,
        forall|i: int| 0 <= i < old(m).forms@.len() ==> #[trigger] final(m).forms@[i] == old(m).forms@[i],
        final(m).forms@[old(m).forms@.len() as int].name == names[0],
        realizes_alone(final(m).forms@[old(m).forms@.len() as int], op, 2),
{
    add_direct(m, smul_rr(names[0], op, size, overflow, carry));

    let mut b = InstrBuilder::new();
    let left = b.param(int_reg());
    let right = load(&mut b, size);
    let out = integer_smul(&mut b, op, size, overflow, carry, left, right);
    b.eq(out, left);
    add_built(m, names[1], &b);

    let mut b = InstrBuilder::new();
    let dest = b.param(int_reg());
    let left = b.param(int_reg());
    let right = b.param(imm(32));
    let out = integer_smul(&mut b, op, size, overflow, carry, left, right);
    b.eq(dest, out);
    add_built(m, names[2], &b);

    let mut b = InstrBuilder::new();
    let dest = b.param(int_reg());
    let left = load(&mut b, size);
    let right = b.param(imm(32));
    let out = integer_smul(&mut b, op, size, overflow, carry, left, right);
    b.eq(dest, out);
    add_built(m, names[3], &b);
}

/// Integer moves of one width: register to register, load, store, and an
/// immediate into a register or to memory. 64-bit immediates are 32 bits wide.
fn move_variants(m: &mut MachineSpec, size: Bits, names: [&'static str; 5])
    requires
        old(m).wf(),
        table_imm_ok(old(m).forms@),
        size == 8 || size == 16 || size == 32 || size == 64,
    ensures
        final(m).wf(),
        table_imm_ok(final(m).forms@),
        final(m).forms@.len() == old(m).forms@.len() + 17,
        forall|i: int| 0 <= i < old(m).forms@.len() ==> #[trigger] final(m).forms@[i] == old(m).forms@[i],
        final(m).forms@[old(m).forms@.len() as int].name == names[0],
        realizes_alone(final(m).forms@[old(m).forms@.len() as int], G::Move(size), 1),
        realizes_alone(final(m).forms@[old(m).forms@.len() + 1int], G::Load { out: size, mem_size: MEM_OPERAND_SIZE }, 1),
        final(m).forms@[old(m).forms@.len() + 3int].name == names[1],
        base_disp_load_shape(final(m).forms@[old(m).forms@.len() + 3int], size),
        realizes_alone(final(m).forms@[old(m).forms@.len() + 6int], G::Store { input: size, mem_size: MEM_OPERAND_SIZE }, 1),
{
    let imm_bits: u8 = if size == 64 { 32 } else { size };

    add_direct(m, move_r(names[0], G::Move(size), int_reg(), int_reg()));

    let ghost n1 = m.forms@.len();
    let mut alt: usize = 0;
    while alt < 5
        invariant
            m.wf(),
            table_imm_ok(m.forms@),
            alt <= 5,
            m.forms@.len() == n1 + alt,
            forall|i: int| 0 <= i < old(m).forms@.len() ==> #[trigger] m.forms@[i] == old(m).forms@[i],
            n1 == old(m).forms@.len() + 1,
            m.forms@[old(m).forms@.len() as int].name == names[0],
            realizes_alone(m.forms@[old(m).forms@.len() as int], G::Move(size), 1),
            alt > 0 ==> m.forms@[n1 as int].name == names[1],
            alt > 0 ==> realizes_alone(m.forms@[n1 as int], G::Load { out: size, mem_size: MEM_OPERAND_SIZE }, 1),
            alt > 2 ==> m.forms@[n1 + 2int].name == names[1],
            alt > 2 ==> base_disp_load_shape(m.forms@[n1 + 2int], size),
        decreases 5 - alt,
    {
        add_direct(m, load_form(names[1], size, alt));
        alt += 1;
    }
    let ghost n2 = m.forms@.len();
    let ghost snap = m.forms@;
    let mut alt: usize = 0;
    while alt < 5
        invariant
            m.wf(),
            table_imm_ok(m.forms@),
            alt <= 5,
            m.forms@.len() == n2 + alt,
            snap.len() == n2,
            forall|i: int| 0 <= i < n2 ==> #[trigger] m.forms@[i] == snap[i],
            n2 == old(m).forms@.len() + 6,
            alt > 0 ==> realizes_alone(m.forms@[n2 as int], G::Store { input: size, mem_size: MEM_OPERAND_SIZE }, 1),
        decreases 5 - alt,
    {
        add_direct(m, store_form(names[2], size, int_reg(), alt));
        alt += 1;
    }

    let mut b = InstrBuilder::new();
    let dest = b.param(int_reg());
    let src = b.param(imm(imm_bits));
    move_to(&mut b, G::Move(size), dest, src);
    add_built(m, names[3], &b);

    let mut b = InstrBuilder::new();
    memory(&mut b);
    let src = b.param(imm(imm_bits));
    store(&mut b, size, src);
    add_built(m, names[4], &b);
}

/// Moves between general-purpose and vector registers, and between vector
/// registers and memory.
fn move_transfer_variants(m: &mut MachineSpec, size: Bits, names: [&'static str; 4])
    requires
        old(m).wf(),
        table_imm_ok(old(m).forms@),
    ensures
        final(m).wf(),
        table_imm_ok(final(m).forms@),
        final(m).forms@.len() == old(m).forms@.len() + 12,
        forall|i: int| 0 <= i < old(m).forms@.len() ==> #[trigger] final(m).forms@[i] == old(m).forms@[i],
        final(m).forms@[old(m).forms@.len() as int].name == names[0],
        realizes_alone(final(m).forms@[old(m).forms@.len() as int], G::Move(size), 1),
{
    add_direct(m, move_r(names[0], G::Move(size), fp_reg(), int_reg()));

    let mut b = InstrBuilder::new();
    let dest = b.param(fp_reg());
    let value = load(&mut b, size);
    b.eq(dest, value);
    add_built(m, names[1], &b);

    let mut b = InstrBuilder::new();
    let dest = b.param(int_reg());
    let src = b.param(fp_reg());
    move_to(&mut b, G::Move(size), dest, src);
    add_built(m, names[2], &b);

    let mut b = InstrBuilder::new();
    memory(&mut b);
    let src = b.param(fp_reg());
    store(&mut b, size, src);
    add_built(m, names[3], &b);
}

/// Moves of whole vector registers: register to register, load and store.
fn move_packed_variants(m: &mut MachineSpec, size: Bits, names: [&'static str; 3])
    requires
        old(m).wf(),
        table_imm_ok(old(m).forms@),
    ensures
        final(m).wf(),
        table_imm_ok(final(m).forms@),
        final(m).forms@.len() == old(m).forms@.len() + 11,
        forall|i: int| 0 <= i < old(m).forms@.len() ==> #[trigger] final(m).forms@[i] == old(m).forms@[i],
        final(m).forms@[old(m).forms@.len() as int].name == names[0],
        realizes_alone(final(m).forms@[old(m).forms@.len() as int], G::Move(size), 1),
{
    add_direct(m, move_r(names[0], G::Move(size), fp_reg(), fp_reg()));

    let mut b = InstrBuilder::new();
    let dest = b.param(fp_reg());
    let value = load(&mut b, size);
    b.eq(dest, value);
    add_built(m, names[1], &b);

    let mut b = InstrBuilder::new();
    memory(&mut b);
    let src = b.param(fp_reg());
    store(&mut b, size, src);
    add_built(m, names[2], &b);
}

/// Unsigned multiply of a register by a register or by memory, into RAX.
fn unsigned_multiply_variants(m: &mut MachineSpec, size: Bits, names: [&'static str; 2])
    requires
        old(m).wf(),
        table_imm_ok(old(m).forms@),
    ensures
        final(m).wf(),
        table_imm_ok(final(m).forms@),
        final(m).forms@.len() == old(m).forms@.len() + 6,
        forall|i: int| 0 <= i < old(m).forms@.len() ==> #[trigger] final(m).forms@[i] == old(m).forms@[i],
        final(m).forms@[old(m).forms@.len() as int].name == names[0],
        realizes_alone(final(m).forms@[old(m).forms@.len() as int], G::UMul(size), 2),
{
    add_direct(m, umul_r(names[0], size));

    let mut b = InstrBuilder::new();
    let left = b.param(int_reg());
    let right = load(&mut b, size);
    integer_umul(&mut b, G::UMul(size), size, G::IsNonZero, G::IsNonZero, left, right);
    add_built(m, names[1], &b);
}

/// Comparisons: a subtraction whose result is discarded and whose flags stay.
fn compare_variants(m: &mut MachineSpec)
    requires
        old(m).wf(),
        table_imm_ok(old(m).forms@),
    ensures
        final(m).wf(),
        table_imm_ok(final(m).forms@),
        final(m).forms@.len() == old(m).forms@.len() + 11,
        forall|i: int| 0 <= i < old(m).forms@.len() ==> #[trigger] final(m).forms@[i] == old(m).forms@[i],
{
    let mut b = InstrBuilder::new();
    let left = b.param(int_reg());
    let right = b.param(int_reg());
    arith(&mut b, G::Sub(32), G::SubOverflowS(32), G::SubOverflowU(32), left, right);
    add_built(m, "cmp r32, r32", &b);

    let mut b = InstrBuilder::new();
    let left = b.param(int_reg());
    let right = load(&mut b, 32);
    arith(&mut b, G::Sub(32), G::SubOverflowS(32), G::SubOverflowU(32), left, right);
    add_built(m, "cmp r32, m32", &b);

    let mut b = InstrBuilder::new();
    let left = load(&mut b, 32);
    let right = b.param(int_reg());
    arith(&mut b, G::Sub(32), G::SubOverflowS(32), G::SubOverflowU(32), left, right);
    add_built(m, "cmp m32, r32", &b);
}

/// Zero and sign tests of a register on their own.
fn flag_test_variants(m: &mut MachineSpec)
    requires
        old(m).wf(),
        table_imm_ok(old(m).forms@),
    ensures
        final(m).wf(),
        table_imm_ok(final(m).forms@),
        final(m).forms@.len() == old(m).forms@.len() + 2,
        forall|i: int| 0 <= i < old(m).forms@.len() ==> #[trigger] final(m).forms@[i] == old(m).forms@[i],
        realizes_alone(final(m).forms@[old(m).forms@.len() as int], G::IsZero, 1),
        realizes_alone(final(m).forms@[old(m).forms@.len() as int], G::LtZero, 1),
        realizes_alone(final(m).forms@[old(m).forms@.len() + 1int], G::IsNonZero, 1),
{
    add_direct(m, test_r("test r64, r64"));
    add_direct(m, setnz_r("setnz r64"));
}

/// Address computation into a register, touching no flags.
fn lea_variants(m: &mut MachineSpec)
    requires
        old(m).wf(),
        table_imm_ok(old(m).forms@),
    ensures
        final(m).wf(),
        table_imm_ok(final(m).forms@),
        final(m).forms@.len() == old(m).forms@.len() + 5,
        forall|i: int| 0 <= i < old(m).forms@.len() ==> #[trigger] final(m).forms@[i] == old(m).forms@[i],
{
    let mut b = InstrBuilder::new();
    let dest = b.param(int_reg());
    let addr = memory(&mut b);
    b.eq(dest, addr);
    add_built(m, "lea r32, m", &b);
}

/// The operations that a front end may emit for this target, with their
/// number of inputs. Side effects (clears, undefined values, overflow and
/// truncation tests of a result) are not operations of their own.
pub open spec fn front_end_op(g: G, n: nat) -> bool {
    let int_width = |b: Bits| b == 32 || b == 64;
    match g {
        G::Add(b) => int_width(b) && n == 2,
        G::Sub(b) => int_width(b) && n == 2,
        G::And(b) => int_width(b) && n == 2,
        G::Or(b) => int_width(b) && n == 2,
        G::Xor(b) => int_width(b) && n == 2,
        G::SMul(b) => int_width(b) && n == 2,
        G::UMul(b) => int_width(b) && n == 2,
        G::ShiftL(b) => int_width(b) && n == 2,
        G::ShiftArithR(b) => int_width(b) && n == 2,
        G::ShiftLogicalR(b) => int_width(b) && n == 2,
        G::AddWithCarry(b) => int_width(b) && n == 3,
        G::SubWithCarry(b) => int_width(b) && n == 3,
        G::AddFp(b) => int_width(b) && n == 2,
        G::SubFp(b) => int_width(b) && n == 2,
        G::MulFp(b) => int_width(b) && n == 2,
        G::DivFp(b) => int_width(b) && n == 2,
        G::MaxFp(b) => int_width(b) && n == 2,
        G::MinFp(b) => int_width(b) && n == 2,
        G::SqrtFp(b) => int_width(b) && n == 2,
        G::PackedAnd(b) => int_width(b) && n == 2,
        G::PackedOr(b) => int_width(b) && n == 2,
        G::PackedXor(b) => int_width(b) && n == 2,
        G::Move(b) => (b == 8 || b == 16 || b == 32 || b == 64) && n == 1,
        G::Load { out, mem_size } => (out == 8 || out == 16 || out == 32 || out == 64) && mem_size == MEM_OPERAND_SIZE && n == 1,
        G::Store { input, mem_size } => (input == 8 || input == 16 || input == 32 || input == 64) && mem_size == MEM_OPERAND_SIZE
            && n == 1,
        G::IsZero => n == 1,
        G::IsNonZero => n == 1,
        G::LtZero => n == 1,
        _ => false,
    }
}

/// Every front-end operation has a single-operation form, given one for each
/// operation and width.
proof fn lemma_front_end_floor(forms: Seq<InstrDef>)
    requires
        has_single_form(forms, G::Add(32), 2),
        has_single_form(forms, G::Add(64), 2),
        has_single_form(forms, G::AddWithCarry(32), 3),
        has_single_form(forms, G::AddWithCarry(64), 3),
        has_single_form(forms, G::AddFp(32), 2),
        has_single_form(forms, G::AddFp(64), 2),
        has_single_form(forms, G::And(32), 2),
        has_single_form(forms, G::And(64), 2),
        has_single_form(forms, G::PackedAnd(32), 2),
        has_single_form(forms, G::PackedAnd(64), 2),
        has_single_form(forms, G::PackedOr(32), 2),
        has_single_form(forms, G::PackedOr(64), 2),
        has_single_form(forms, G::PackedXor(32), 2),
        has_single_form(forms, G::PackedXor(64), 2),
        has_single_form(forms, G::DivFp(32), 2),
        has_single_form(forms, G::DivFp(64), 2),
        has_single_form(forms, G::MaxFp(32), 2),
        has_single_form(forms, G::MaxFp(64), 2),
        has_single_form(forms, G::MinFp(32), 2),
        has_single_form(forms, G::MinFp(64), 2),
        has_single_form(forms, G::MulFp(32), 2),
        has_single_form(forms, G::MulFp(64), 2),
        has_single_form(forms, G::SqrtFp(32), 2),
        has_single_form(forms, G::SqrtFp(64), 2),
        has_single_form(forms, G::Or(32), 2),
        has_single_form(forms, G::Or(64), 2),
        has_single_form(forms, G::Xor(32), 2),
        has_single_form(forms, G::Xor(64), 2),
        has_single_form(forms, G::Sub(32), 2),
        has_single_form(forms, G::Sub(64), 2),
        has_single_form(forms, G::SubWithCarry(32), 3),
        has_single_form(forms, G::SubWithCarry(64), 3),
        has_single_form(forms, G::SubFp(32), 2),
        has_single_form(forms, G::SubFp(64), 2),
        has_single_form(forms, G::ShiftArithR(32), 2),
        has_single_form(forms, G::ShiftArithR(64), 2),
        has_single_form(forms, G::ShiftL(32), 2),
        has_single_form(forms, G::ShiftL(64), 2),
        has_single_form(forms, G::ShiftLogicalR(32), 2),
        has_single_form(forms, G::ShiftLogicalR(64), 2),
        has_single_form(forms, G::SMul(32), 2),
        has_single_form(forms, G::SMul(64), 2),
        has_single_form(forms, G::Move(8), 1),
        has_single_form(forms, G::Load { out: 8, mem_size: MEM_OPERAND_SIZE }, 1),
        has_single_form(forms, G::Store { input: 8, mem_size: MEM_OPERAND_SIZE }, 1),
        has_single_form(forms, G::Move(16), 1),
        has_single_form(forms, G::Load { out: 16, mem_size: MEM_OPERAND_SIZE }, 1),
        has_single_form(forms, G::Store { input: 16, mem_size: MEM_OPERAND_SIZE }, 1),
        has_single_form(forms, G::Move(32), 1),
        has_single_form(forms, G::Load { out: 32, mem_size: MEM_OPERAND_SIZE }, 1),
        has_single_form(forms, G::Store { input: 32, mem_size: MEM_OPERAND_SIZE }, 1),
        has_single_form(forms, G::Move(64), 1),
        has_single_form(forms, G::Load { out: 64, mem_size: MEM_OPERAND_SIZE }, 1),
        has_single_form(forms, G::Store { input: 64, mem_size: MEM_OPERAND_SIZE }, 1),
        has_single_form(forms, G::Move(32), 1),
        has_single_form(forms, G::Move(64), 1),
        has_single_form(forms, G::Move(32), 1),
        has_single_form(forms, G::Move(64), 1),
        has_single_form(forms, G::UMul(32), 2),
        has_single_form(forms, G::UMul(64), 2),
        has_single_form(forms, G::IsZero, 1),
        has_single_form(forms, G::LtZero, 1),
        has_single_form(forms, G::IsNonZero, 1),
    ensures
        forall|g: G, n: nat| front_end_op(g, n) ==> has_single_form(forms, g, n),
{
}

/// The x86-64 machine specification: every form of the table, with the index
/// from each operation to the forms that use it.
/// A load form named `mov r32, m32` with the base + displacement shape.
pub open spec fn mov_load_witness(forms: Seq<InstrDef>, f: int) -> bool {
    0 <= f < forms.len() && forms[f].name == "mov r32, m32" && base_disp_load_shape(forms[f], 32)
}

proof fn lemma_mov_load_kept(before: Seq<InstrDef>, after: Seq<InstrDef>)
    requires
        before.len() <= after.len(),
        forall|i: int| 0 <= i < before.len() ==> after[i] == before[i],
    ensures
        (exists|f: int| 0 <= f < before.len() && #[trigger] before[f].name == "mov r32, m32" && base_disp_load_shape(before[f], 32))
            ==> exists|f: int| 0 <= f < after.len() && #[trigger] after[f].name == "mov r32, m32" && base_disp_load_shape(after[f], 32),
{
    if exists|f: int| 0 <= f < before.len() && #[trigger] before[f].name == "mov r32, m32" && base_disp_load_shape(before[f], 32) {
        let f = choose|f: int| 0 <= f < before.len() && #[trigger] before[f].name == "mov r32, m32" && base_disp_load_shape(before[f], 32);
        assert(after[f] == before[f]);
    }
}

/// Part 1 of the table.
fn table_part_1(m: &mut MachineSpec)
    requires
        old(m).wf(),
        table_imm_ok(old(m).forms@),
    ensures
        final(m).wf(),
        table_imm_ok(final(m).forms@),
        final(m).forms@.len() == old(m).forms@.len() + 114,
        forall|i: int| 0 <= i < old(m).forms@.len() ==> #[trigger] final(m).forms@[i] == old(m).forms@[i],
        final(m).forms@[old(m).forms@.len() as int].name == "add r32, r32",
        flag_arith_shape(final(m).forms@[old(m).forms@.len() as int], int_param(), G::Add(32), G::AddOverflowS(32), G::AddOverflowU(32)),
        has_single_form(final(m).forms@, G::Add(32), 2),
        has_single_form(final(m).forms@, G::Add(64), 2),
        has_single_form(final(m).forms@, G::AddWithCarry(32), 3),
        has_single_form(final(m).forms@, G::AddWithCarry(64), 3),
        has_single_form(final(m).forms@, G::AddFp(32), 2),
        has_single_form(final(m).forms@, G::AddFp(64), 2),
        has_single_form(final(m).forms@, G::And(32), 2),
        has_single_form(final(m).forms@, G::And(64), 2),
{
    let ghost i0 = m.forms@.len() as int;
    arith_variants(m, 32, G::Add(32), G::AddOverflowS(32), G::AddOverflowU(32), ["add r32, r32", "add r32, m32", "add m32, r32", "add r32, i32", "add m32, i32"]);
    let ghost i1 = m.forms@.len() as int;
    arith_variants(m, 64, G::Add(64), G::AddOverflowS(64), G::AddOverflowU(64), ["add r64, r64", "add r64, m64", "add m64, r64", "add r64, i32", "add m64, i32"]);
    let ghost i2 = m.forms@.len() as int;
    arith_variants_carry(m, 32, G::AddWithCarry(32), G::AddWithCarryOverflowS(32), G::AddWithCarryOverflowU(32), ["adc r32, r32", "adc r32, m32", "adc m32, r32", "adc r32, i32", "adc m32, i32"]);
    let ghost i3 = m.forms@.len() as int;
    arith_variants_carry(m, 64, G::AddWithCarry(64), G::AddWithCarryOverflowS(64), G::AddWithCarryOverflowU(64), ["adc r64, r64", "adc r64, m64", "adc m64, r64", "adc r64, i32", "adc m64, i32"]);
    let ghost i4 = m.forms@.len() as int;
    arith_variants_fp(m, 32, G::AddFp(32), ["addss r32, r32", "addss r32, m32"]);
    let ghost i5 = m.forms@.len() as int;
    arith_variants_fp(m, 64, G::AddFp(64), ["addsd r64, r64", "addsd r64, m64"]);
    let ghost i6 = m.forms@.len() as int;
    arith_variants_logical(m, 32, G::And(32), ["and r32, r32", "and r32, m32", "and m32, r32", "and r32, i32", "and m32, i32"]);
    let ghost i7 = m.forms@.len() as int;
    arith_variants_logical(m, 64, G::And(64), ["and r64, r64", "and r64, m64", "and m64, r64", "and r64, i32", "and m64, i32"]);
    proof {
        assert(realizes_alone(m.forms@[i0], G::Add(32), 2));
        assert(realizes_alone(m.forms@[i1], G::Add(64), 2));
        assert(realizes_alone(m.forms@[i2], G::AddWithCarry(32), 3));
        assert(realizes_alone(m.forms@[i3], G::AddWithCarry(64), 3));
        assert(realizes_alone(m.forms@[i4], G::AddFp(32), 2));
        assert(realizes_alone(m.forms@[i5], G::AddFp(64), 2));
        assert(realizes_alone(m.forms@[i6], G::And(32), 2));
        assert(realizes_alone(m.forms@[i7], G::And(64), 2));
    }
}

/// Part 2 of the table.
fn table_part_2(m: &mut MachineSpec)
    requires
        old(m).wf(),
        table_imm_ok(old(m).forms@),
    ensures
        final(m).wf(),
        table_imm_ok(final(m).forms@),
        final(m).forms@.len() == old(m).forms@.len() + 48,
        forall|i: int| 0 <= i < old(m).forms@.len() ==> #[trigger] final(m).forms@[i] == old(m).forms@[i],
        has_single_form(final(m).forms@, G::PackedAnd(32), 2),
        has_single_form(final(m).forms@, G::PackedAnd(64), 2),
        has_single_form(final(m).forms@, G::PackedOr(32), 2),
        has_single_form(final(m).forms@, G::PackedOr(64), 2),
        has_single_form(final(m).forms@, G::PackedXor(32), 2),
        has_single_form(final(m).forms@, G::PackedXor(64), 2),
        has_single_form(final(m).forms@, G::DivFp(32), 2),
        has_single_form(final(m).forms@, G::DivFp(64), 2),
{
    let ghost i0 = m.forms@.len() as int;
    arith_variants_fp(m, 32, G::PackedAnd(32), ["andps r128, r128", "andps r128, m128"]);
    let ghost i1 = m.forms@.len() as int;
    arith_variants_fp(m, 64, G::PackedAnd(64), ["andpd r128, r128", "andpd r128, m128"]);
    let ghost i2 = m.forms@.len() as int;
    arith_variants_fp(m, 32, G::PackedOr(32), ["orps r128, r128", "orps r128, m128"]);
    let ghost i3 = m.forms@.len() as int;
    arith_variants_fp(m, 64, G::PackedOr(64), ["orpd r128, r128", "orpd r128, m128"]);
    let ghost i4 = m.forms@.len() as int;
    arith_variants_fp(m, 32, G::PackedXor(32), ["xorps r128, r128", "xorps r128, m128"]);
    let ghost i5 = m.forms@.len() as int;
    arith_variants_fp(m, 64, G::PackedXor(64), ["xorpd r128, r128", "xorpd r128, m128"]);
    let ghost i6 = m.forms@.len() as int;
    arith_variants_fp(m, 32, G::DivFp(32), ["divss r32, r32", "divss r32, m32"]);
    let ghost i7 = m.forms@.len() as int;
    arith_variants_fp(m, 64, G::DivFp(64), ["divsd r64, r64", "divsd r64, m64"]);
    proof {
        assert(realizes_alone(m.forms@[i0], G::PackedAnd(32), 2));
        assert(realizes_alone(m.forms@[i1], G::PackedAnd(64), 2));
        assert(realizes_alone(m.forms@[i2], G::PackedOr(32), 2));
        assert(realizes_alone(m.forms@[i3], G::PackedOr(64), 2));
        assert(realizes_alone(m.forms@[i4], G::PackedXor(32), 2));
        assert(realizes_alone(m.forms@[i5], G::PackedXor(64), 2));
        assert(realizes_alone(m.forms@[i6], G::DivFp(32), 2));
        assert(realizes_alone(m.forms@[i7], G::DivFp(64), 2));
    }
}

/// Part 3 of the table.
fn table_part_3(m: &mut MachineSpec)
    requires
        old(m).wf(),
        table_imm_ok(old(m).forms@),
    ensures
        final(m).wf(),
        table_imm_ok(final(m).forms@),
        final(m).forms@.len() == old(m).forms@.len() + 48,
        forall|i: int| 0 <= i < old(m).forms@.len() ==> #[trigger] final(m).forms@[i] == old(m).forms@[i],
        has_single_form(final(m).forms@, G::MaxFp(32), 2),
        has_single_form(final(m).forms@, G::MaxFp(64), 2),
        has_single_form(final(m).forms@, G::MinFp(32), 2),
        has_single_form(final(m).forms@, G::MinFp(64), 2),
        has_single_form(final(m).forms@, G::MulFp(32), 2),
        has_single_form(final(m).forms@, G::MulFp(64), 2),
        has_single_form(final(m).forms@, G::SqrtFp(32), 2),
        has_single_form(final(m).forms@, G::SqrtFp(64), 2),
{
    let ghost i0 = m.forms@.len() as int;
    arith_variants_fp(m, 32, G::MaxFp(32), ["maxss r32, r32", "maxss r32, m32"]);
    let ghost i1 = m.forms@.len() as int;
    arith_variants_fp(m, 64, G::MaxFp(64), ["maxsd r64, r64", "maxsd r64, m64"]);
    let ghost i2 = m.forms@.len() as int;
    arith_variants_fp(m, 32, G::MinFp(32), ["minss r32, r32", "minss r32, m32"]);
    let ghost i3 = m.forms@.len() as int;
    arith_variants_fp(m, 64, G::MinFp(64), ["minsd r64, r64", "minsd r64, m64"]);
    let ghost i4 = m.forms@.len() as int;
    arith_variants_fp(m, 32, G::MulFp(32), ["mulss r32, r32", "mulss r32, m32"]);
    let ghost i5 = m.forms@.len() as int;
    arith_variants_fp(m, 64, G::MulFp(64), ["mulsd r64, r64", "mulsd r64, m64"]);
    let ghost i6 = m.forms@.len() as int;
    arith_variants_fp(m, 32, G::SqrtFp(32), ["sqrtss r32, r32", "sqrtss r32, m32"]);
    let ghost i7 = m.forms@.len() as int;
    arith_variants_fp(m, 64, G::SqrtFp(64), ["sqrtsd r64, r64", "sqrtsd r64, m64"]);
    proof {
        assert(realizes_alone(m.forms@[i0], G::MaxFp(32), 2));
        assert(realizes_alone(m.forms@[i1], G::MaxFp(64), 2));
        assert(realizes_alone(m.forms@[i2], G::MinFp(32), 2));
        assert(realizes_alone(m.forms@[i3], G::MinFp(64), 2));
        assert(realizes_alone(m.forms@[i4], G::MulFp(32), 2));
        assert(realizes_alone(m.forms@[i5], G::MulFp(64), 2));
        assert(realizes_alone(m.forms@[i6], G::SqrtFp(32), 2));
        assert(realizes_alone(m.forms@[i7], G::SqrtFp(64), 2));
    }
}

/// Part 4 of the table.
fn table_part_4(m: &mut MachineSpec)
    requires
        old(m).wf(),
        table_imm_ok(old(m).forms@),
    ensures
        final(m).wf(),
        table_imm_ok(final(m).forms@),
        final(m).forms@.len() == old(m).forms@.len() + 136,
        forall|i: int| 0 <= i < old(m).forms@.len() ==> #[trigger] final(m).forms@[i] == old(m).forms@[i],
        has_single_form(final(m).forms@, G::Or(32), 2),
        has_single_form(final(m).forms@, G::Or(64), 2),
        has_single_form(final(m).forms@, G::Xor(32), 2),
        has_single_form(final(m).forms@, G::Xor(64), 2),
        has_single_form(final(m).forms@, G::Sub(32), 2),
        has_single_form(final(m).forms@, G::Sub(64), 2),
        has_single_form(final(m).forms@, G::SubWithCarry(32), 3),
        has_single_form(final(m).forms@, G::SubWithCarry(64), 3),
{
    let ghost i0 = m.forms@.len() as int;
    arith_variants_logical(m, 32, G::Or(32), ["or r32, r32", "or r32, m32", "or m32, r32", "or r32, i32", "or m32, i32"]);
    let ghost i1 = m.forms@.len() as int;
    arith_variants_logical(m, 64, G::Or(64), ["or r64, r64", "or r64, m64", "or m64, r64", "or r64, i32", "or m64, i32"]);
    let ghost i2 = m.forms@.len() as int;
    arith_variants_logical(m, 32, G::Xor(32), ["xor r32, r32", "xor r32, m32", "xor m32, r32", "xor r32, i32", "xor m32, i32"]);
    let ghost i3 = m.forms@.len() as int;
    arith_variants_logical(m, 64, G::Xor(64), ["xor r64, r64", "xor r64, m64", "xor m64, r64", "xor r64, i32", "xor m64, i32"]);
    let ghost i4 = m.forms@.len() as int;
    arith_variants(m, 32, G::Sub(32), G::SubOverflowS(32), G::SubOverflowU(32), ["sub r32, r32", "sub r32, m32", "sub m32, r32", "sub r32, i32", "sub m32, i32"]);
    let ghost i5 = m.forms@.len() as int;
    arith_variants(m, 64, G::Sub(64), G::SubOverflowS(64), G::SubOverflowU(64), ["sub r64, r64", "sub r64, m64", "sub m64, r64", "sub r64, i32", "sub m64, i32"]);
    let ghost i6 = m.forms@.len() as int;
    arith_variants_carry(m, 32, G::SubWithCarry(32), G::SubWithCarryOverflowS(32), G::SubWithCarryOverflowU(32), ["sbb r32, r32", "sbb r32, m32", "sbb m32, r32", "sbb r32, i32", "sbb m32, i32"]);
    let ghost i7 = m.forms@.len() as int;
    arith_variants_carry(m, 64, G::SubWithCarry(64), G::SubWithCarryOverflowS(64), G::SubWithCarryOverflowU(64), ["sbb r64, r64", "sbb r64, m64", "sbb m64, r64", "sbb r64, i32", "sbb m64, i32"]);
    proof {
        assert(realizes_alone(m.forms@[i0], G::Or(32), 2));
        assert(realizes_alone(m.forms@[i1], G::Or(64), 2));
        assert(realizes_alone(m.forms@[i2], G::Xor(32), 2));
        assert(realizes_alone(m.forms@[i3], G::Xor(64), 2));
        assert(realizes_alone(m.forms@[i4], G::Sub(32), 2));
        assert(realizes_alone(m.forms@[i5], G::Sub(64), 2));
        assert(realizes_alone(m.forms@[i6], G::SubWithCarry(32), 3));
        assert(realizes_alone(m.forms@[i7], G::SubWithCarry(64), 3));
    }
}

/// Part 5 of the table.
fn table_part_5(m: &mut MachineSpec)
    requires
        old(m).wf(),
        table_imm_ok(old(m).forms@),
    ensures
        final(m).wf(),
        table_imm_ok(final(m).forms@),
        final(m).forms@.len() == old(m).forms@.len() + 84,
        forall|i: int| 0 <= i < old(m).forms@.len() ==> #[trigger] final(m).forms@[i] == old(m).forms@[i],
        has_single_form(final(m).forms@, G::SubFp(32), 2),
        has_single_form(final(m).forms@, G::SubFp(64), 2),
        has_single_form(final(m).forms@, G::ShiftArithR(32), 2),
        has_single_form(final(m).forms@, G::ShiftArithR(64), 2),
        has_single_form(final(m).forms@, G::ShiftL(32), 2),
        has_single_form(final(m).forms@, G::ShiftL(64), 2),
        has_single_form(final(m).forms@, G::ShiftLogicalR(32), 2),
        has_single_form(final(m).forms@, G::ShiftLogicalR(64), 2),
{
    let ghost i0 = m.forms@.len() as int;
    arith_variants_fp(m, 32, G::SubFp(32), ["subss r32, r32", "subss r32, m32"]);
    let ghost i1 = m.forms@.len() as int;
    arith_variants_fp(m, 64, G::SubFp(64), ["subsd r64, r64", "subsd r64, m64"]);
    let ghost i2 = m.forms@.len() as int;
    arith_variants_shift(m, 32, G::ShiftArithR(32), G::Undefined(32), G::ShiftArithRUnderflowS(32), ["sar r32, cl", "sar m32, cl", "sar r32, i8", "sar m32, i8"]);
    let ghost i3 = m.forms@.len() as int;
    arith_variants_shift(m, 64, G::ShiftArithR(64), G::Undefined(64), G::ShiftArithRUnderflowS(64), ["sar r64, cl", "sar m64, cl", "sar r64, i8", "sar m64, i8"]);
    let ghost i4 = m.forms@.len() as int;
    arith_variants_shift(m, 32, G::ShiftL(32), G::Undefined(32), G::ShiftLOverflow(32), ["shl r32, cl", "shl m32, cl", "shl r32, i8", "shl m32, i8"]);
    let ghost i5 = m.forms@.len() as int;
    arith_variants_shift(m, 64, G::ShiftL(64), G::Undefined(64), G::ShiftLOverflow(64), ["shl r64, cl", "shl m64, cl", "shl r64, i8", "shl m64, i8"]);
    let ghost i6 = m.forms@.len() as int;
    arith_variants_shift(m, 32, G::ShiftLogicalR(32), G::Undefined(32), G::ShiftLogicalRUnderflowU(32), ["shr r32, cl", "shr m32, cl", "shr r32, i8", "shr m32, i8"]);
    let ghost i7 = m.forms@.len() as int;
    arith_variants_shift(m, 64, G::ShiftLogicalR(64), G::Undefined(64), G::ShiftLogicalRUnderflowU(64), ["shr r64, cl", "shr m64, cl", "shr r64, i8", "shr m64, i8"]);
    proof {
        assert(realizes_alone(m.forms@[i0], G::SubFp(32), 2));
        assert(realizes_alone(m.forms@[i1], G::SubFp(64), 2));
        assert(realizes_alone(m.forms@[i2], G::ShiftArithR(32), 2));
        assert(realizes_alone(m.forms@[i3], G::ShiftArithR(64), 2));
        assert(realizes_alone(m.forms@[i4], G::ShiftL(32), 2));
        assert(realizes_alone(m.forms@[i5], G::ShiftL(64), 2));
        assert(realizes_alone(m.forms@[i6], G::ShiftLogicalR(32), 2));
        assert(realizes_alone(m.forms@[i7], G::ShiftLogicalR(64), 2));
    }
}

/// Part 6 of the table.
fn table_part_6(m: &mut MachineSpec)
    requires
        old(m).wf(),
        table_imm_ok(old(m).forms@),
    ensures
        final(m).wf(),
        table_imm_ok(final(m).forms@),
        final(m).forms@.len() == old(m).forms@.len() + 116,
        forall|i: int| 0 <= i < old(m).forms@.len() ==> #[trigger] final(m).forms@[i] == old(m).forms@[i],
        exists|f: int| 0 <= f < final(m).forms@.len() && #[trigger] final(m).forms@[f].name == "mov r32, m32" && base_disp_load_shape(final(m).forms@[f], 32),
        has_single_form(final(m).forms@, G::SMul(32), 2),
        has_single_form(final(m).forms@, G::SMul(64), 2),
        has_single_form(final(m).forms@, G::Move(8), 1),
        has_single_form(final(m).forms@, G::Load { out: 8, mem_size: MEM_OPERAND_SIZE }, 1),
        has_single_form(final(m).forms@, G::Store { input: 8, mem_size: MEM_OPERAND_SIZE }, 1),
        has_single_form(final(m).forms@, G::Move(16), 1),
        has_single_form(final(m).forms@, G::Load { out: 16, mem_size: MEM_OPERAND_SIZE }, 1),
        has_single_form(final(m).forms@, G::Store { input: 16, mem_size: MEM_OPERAND_SIZE }, 1),
        has_single_form(final(m).forms@, G::Move(32), 1),
        has_single_form(final(m).forms@, G::Load { out: 32, mem_size: MEM_OPERAND_SIZE }, 1),
        has_single_form(final(m).forms@, G::Store { input: 32, mem_size: MEM_OPERAND_SIZE }, 1),
        has_single_form(final(m).forms@, G::Move(64), 1),
        has_single_form(final(m).forms@, G::Load { out: 64, mem_size: MEM_OPERAND_SIZE }, 1),
        has_single_form(final(m).forms@, G::Store { input: 64, mem_size: MEM_OPERAND_SIZE }, 1),
        has_single_form(final(m).forms@, G::Move(32), 1),
        has_single_form(final(m).forms@, G::Move(64), 1),
{
    let ghost i0 = m.forms@.len() as int;
    signed_multiply_variants(m, 32, G::SMul(32), G::MulTrunc(32), G::MulTrunc(32), ["imul r32, r32", "imul r32, m32", "imul r32, r32, imm32", "imul r32, m32, imm32"]);
    let ghost i1 = m.forms@.len() as int;
    signed_multiply_variants(m, 64, G::SMul(64), G::MulTrunc(64), G::MulTrunc(64), ["imul r64, r64", "imul r64, m64", "imul r64, r64, imm32", "imul r64, m64, imm32"]);
    let ghost i2 = m.forms@.len() as int;
    move_variants(m, 8, ["mov r8, r8", "mov r8, m8", "mov m8, r8", "mov r8, i8", "mov m8, i8"]);
    let ghost i3 = m.forms@.len() as int;
    move_variants(m, 16, ["mov r16, r16", "mov r16, m16", "mov m16, r16", "mov r16, i16", "mov m16, i16"]);
    let ghost i4 = m.forms@.len() as int;
    move_variants(m, 32, ["mov r32, r32", "mov r32, m32", "mov m32, r32", "mov r32, i32", "mov m32, i32"]);
    let ghost i5 = m.forms@.len() as int;
    move_variants(m, 64, ["mov r64, r64", "mov r64, m64", "mov m64, r64", "mov r64, i32", "mov m64, i32"]);
    let ghost i6 = m.forms@.len() as int;
    move_transfer_variants(m, 32, ["movd f32, r32", "movd f32, m32", "movd r32, f32", "movd m32, f32"]);
    let ghost i7 = m.forms@.len() as int;
    move_transfer_variants(m, 64, ["movq f64, r64", "movq f64, m64", "movq r64, f64", "movq m64, f64"]);
    proof {
        assert(realizes_alone(m.forms@[i0], G::SMul(32), 2));
        assert(realizes_alone(m.forms@[i1], G::SMul(64), 2));
        assert(realizes_alone(m.forms@[i2], G::Move(8), 1));
        assert(realizes_alone(m.forms@[i2 + 1int], G::Load { out: 8, mem_size: MEM_OPERAND_SIZE }, 1));
        assert(realizes_alone(m.forms@[i2 + 6int], G::Store { input: 8, mem_size: MEM_OPERAND_SIZE }, 1));
        assert(realizes_alone(m.forms@[i3], G::Move(16), 1));
        assert(realizes_alone(m.forms@[i3 + 1int], G::Load { out: 16, mem_size: MEM_OPERAND_SIZE }, 1));
        assert(realizes_alone(m.forms@[i3 + 6int], G::Store { input: 16, mem_size: MEM_OPERAND_SIZE }, 1));
        assert(realizes_alone(m.forms@[i4], G::Move(32), 1));
        assert(realizes_alone(m.forms@[i4 + 1int], G::Load { out: 32, mem_size: MEM_OPERAND_SIZE }, 1));
        assert(realizes_alone(m.forms@[i4 + 6int], G::Store { input: 32, mem_size: MEM_OPERAND_SIZE }, 1));
        assert(realizes_alone(m.forms@[i5], G::Move(64), 1));
        assert(realizes_alone(m.forms@[i5 + 1int], G::Load { out: 64, mem_size: MEM_OPERAND_SIZE }, 1));
        assert(realizes_alone(m.forms@[i5 + 6int], G::Store { input: 64, mem_size: MEM_OPERAND_SIZE }, 1));
        assert(realizes_alone(m.forms@[i6], G::Move(32), 1));
        assert(realizes_alone(m.forms@[i7], G::Move(64), 1));
        assert(mov_load_witness(m.forms@, i4 + 3));
    }
}

/// Part 7 of the table.
fn table_part_7(m: &mut MachineSpec)
    requires
        old(m).wf(),
        table_imm_ok(old(m).forms@),
    ensures
        final(m).wf(),
        table_imm_ok(final(m).forms@),
        final(m).forms@.len() == old(m).forms@.len() + 52,
        forall|i: int| 0 <= i < old(m).forms@.len() ==> #[trigger] final(m).forms@[i] == old(m).forms@[i],
        has_single_form(final(m).forms@, G::Move(32), 1),
        has_single_form(final(m).forms@, G::Move(64), 1),
        has_single_form(final(m).forms@, G::UMul(32), 2),
        has_single_form(final(m).forms@, G::UMul(64), 2),
        has_single_form(final(m).forms@, G::IsZero, 1),
        has_single_form(final(m).forms@, G::LtZero, 1),
        has_single_form(final(m).forms@, G::IsNonZero, 1),
{
    let ghost i0 = m.forms@.len() as int;
    move_packed_variants(m, 32, ["movaps f128, f128", "movaps f128, m128", "movaps m128, f128"]);
    let ghost i1 = m.forms@.len() as int;
    move_packed_variants(m, 64, ["movapd f128, f128", "movapd f128, m128", "movapd m128, f128"]);
    let ghost i2 = m.forms@.len() as int;
    unsigned_multiply_variants(m, 32, ["mul r32", "mul m32"]);
    let ghost i3 = m.forms@.len() as int;
    unsigned_multiply_variants(m, 64, ["mul r64", "mul m64"]);
    let ghost i4 = m.forms@.len() as int;
    compare_variants(m);
    let ghost i5 = m.forms@.len() as int;
    lea_variants(m);
    let ghost i6 = m.forms@.len() as int;
    flag_test_variants(m);
    proof {
        assert(realizes_alone(m.forms@[i0], G::Move(32), 1));
        assert(realizes_alone(m.forms@[i1], G::Move(64), 1));
        assert(realizes_alone(m.forms@[i2], G::UMul(32), 2));
        assert(realizes_alone(m.forms@[i3], G::UMul(64), 2));
        assert(realizes_alone(m.forms@[i6], G::IsZero, 1));
        assert(realizes_alone(m.forms@[i6], G::LtZero, 1));
        assert(realizes_alone(m.forms@[i6 + 1int], G::IsNonZero, 1));
    }
}

/// The x86-64 machine specification: every form of the table, with the index
/// from each operation to the forms that use it. Every operation a front end
/// may emit has a form that realises it alone; the first form is the
/// flag-setting `add r32, r32`; `mov r32, m32` has a base + displacement
/// alternative; immediates are 3, 8, 16 or 32 bits wide; the general-purpose
/// and vector register classes are disjoint.
#[verifier::rlimit(100)]
pub fn spec() -> (r: MachineSpec)
    ensures
        r.wf(),
        table_imm_ok(r.forms@),
        r.forms@.len() == 598,
        forall|g: G, n: nat| front_end_op(g, n) ==> has_single_form(r.forms@, g, n),
        r.forms@[0].name == "add r32, r32",
        flag_arith_shape(r.forms@[0], int_param(), G::Add(32), G::AddOverflowS(32), G::AddOverflowU(32)),
        exists|f: int| 0 <= f < r.forms@.len() && #[trigger] r.forms@[f].name == "mov r32, m32" && base_disp_load_shape(r.forms@[f], 32),
        INT_REG_MASK & FP_REG_MASK == 0,
{
    let mut m = MachineSpec::new();
    let ghost s0 = m.forms@;
    table_part_1(&mut m);
    let ghost s1 = m.forms@;
    table_part_2(&mut m);
    let ghost s2 = m.forms@;
    table_part_3(&mut m);
    let ghost s3 = m.forms@;
    table_part_4(&mut m);
    let ghost s4 = m.forms@;
    table_part_5(&mut m);
    let ghost s5 = m.forms@;
    table_part_6(&mut m);
    let ghost s6 = m.forms@;
    table_part_7(&mut m);
    let ghost s7 = m.forms@;
    proof {
        assert forall|i: int| 0 <= i < s0.len() implies #[trigger] m.forms@[i] == s0[i] by {}
        lemma_single_forms_kept(s0, m.forms@);
        lemma_mov_load_kept(s0, m.forms@);
        assert forall|i: int| 0 <= i < s1.len() implies #[trigger] m.forms@[i] == s1[i] by {}
        lemma_single_forms_kept(s1, m.forms@);
        lemma_mov_load_kept(s1, m.forms@);
        assert forall|i: int| 0 <= i < s2.len() implies #[trigger] m.forms@[i] == s2[i] by {}
        lemma_single_forms_kept(s2, m.forms@);
        lemma_mov_load_kept(s2, m.forms@);
        assert forall|i: int| 0 <= i < s3.len() implies #[trigger] m.forms@[i] == s3[i] by {}
        lemma_single_forms_kept(s3, m.forms@);
        lemma_mov_load_kept(s3, m.forms@);
        assert forall|i: int| 0 <= i < s4.len() implies #[trigger] m.forms@[i] == s4[i] by {}
        lemma_single_forms_kept(s4, m.forms@);
        lemma_mov_load_kept(s4, m.forms@);
        assert forall|i: int| 0 <= i < s5.len() implies #[trigger] m.forms@[i] == s5[i] by {}
        lemma_single_forms_kept(s5, m.forms@);
        lemma_mov_load_kept(s5, m.forms@);
        assert forall|i: int| 0 <= i < s6.len() implies #[trigger] m.forms@[i] == s6[i] by {}
        lemma_single_forms_kept(s6, m.forms@);
        lemma_mov_load_kept(s6, m.forms@);
        lemma_front_end_floor(m.forms@);
        assert(INT_REG_MASK & FP_REG_MASK == 0) by (bit_vector);
    }
    m
}

} // verus!
