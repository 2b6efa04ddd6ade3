use isel::actions::Generic;
use isel::select::{select, Env, Home, Instr, Match, SelectError};
use isel::x64;
use isel::{MachineSpec, Param, Reg, Slot, Var};

fn ins(out: usize, op: Generic, inputs: &[usize]) -> Instr {
    Instr { out: Var(out), op, inputs: inputs.iter().map(|&v| Var(v)).collect() }
}

fn reg(id: u8) -> Home {
    Home::Reg(Reg { id })
}

fn env(homes: Vec<Home>, live_out: &[usize]) -> Env {
    Env { homes, live_out: live_out.iter().map(|&v| Var(v)).collect() }
}

fn chosen<'a>(spec: &'a MachineSpec, m: &Match) -> &'a str {
    let costs: Vec<u64> = Vec::new();
    let i = m.best(&costs).expect("a selected match has candidates");
    spec.forms[m.candidates[i].form].name
}

fn names(spec: &MachineSpec, m: &Match) -> Vec<&'static str> {
    m.candidates.iter().map(|c| spec.forms[c.form].name).collect()
}

#[test]
fn x64_is_correct() {
    let spec = x64::spec();
    assert_eq!(spec.forms.len(), 598);
    for name in ["add r32, r32", "mov r64, m64", "lea r32, m", "cmp m32, r32", "mul m64", "movapd m128, f128"] {
        assert!(spec.forms.iter().any(|f| f.name == name), "{name}");
    }
    // Each memory form expands into one form per addressing mode.
    assert_eq!(spec.forms.iter().filter(|f| f.name == "add r32, m32").count(), 5);
    assert_eq!(spec.forms.iter().filter(|f| f.name == "add r32, r32").count(), 1);
    for (i, f) in spec.forms.iter().enumerate() {
        for a in &f.actions {
            let e = spec.lookup(a.op).expect("every operation is indexed");
            assert!(spec.index[e].forms.contains(i));
        }
    }
}

#[test]
fn add_then_is_zero_fuses_into_one_add() {
    let spec = x64::spec();
    let prog = vec![ins(2, Generic::Add(32), &[0, 1]), ins(3, Generic::IsZero, &[2])];
    let e = env(vec![reg(x64::RBX), reg(x64::RSI)], &[3]);
    let m = select(&spec, &prog, 0, &e).unwrap();
    assert_eq!(m.len, 2);
    assert_eq!(names(&spec, &m), vec!["add r32, r32"]);
    assert_eq!(chosen(&spec, &m), "add r32, r32");
}

#[test]
fn reused_sum_keeps_flag_fusion_with_real_output() {
    let spec = x64::spec();
    let prog = vec![
        ins(2, Generic::Add(32), &[0, 1]),
        ins(3, Generic::IsZero, &[2]),
        ins(4, Generic::Store { input: 32, mem_size: 32 }, &[2]),
    ];
    let e = env(vec![reg(x64::RBX), reg(x64::RSI)], &[3]);
    let m = select(&spec, &prog, 0, &e).unwrap();
    assert_eq!(m.len, 2);
    assert_eq!(chosen(&spec, &m), "add r32, r32");
    // The store is then matched on its own, with the sum in a register.
    let e2 = env(vec![reg(x64::RBX), reg(x64::RSI), reg(x64::RBX), Home::Elsewhere], &[3]);
    let m2 = select(&spec, &prog, 2, &e2).unwrap();
    assert_eq!(m2.len, 1);
    assert_eq!(chosen(&spec, &m2), "mov m32, r32");
}

#[test]
fn reused_sum_without_flag_form_falls_back_to_two_instructions() {
    let spec = x64::spec();
    // An unsigned-overflow test on a sum that is also stored: the add still
    // fuses, since the add form exposes both a register result and the flag.
    let prog = vec![
        ins(2, Generic::Add(32), &[0, 1]),
        ins(3, Generic::LtZero, &[2]),
        ins(4, Generic::Store { input: 32, mem_size: 32 }, &[2]),
    ];
    let e = env(vec![reg(x64::RBX), reg(x64::RSI)], &[3]);
    let m = select(&spec, &prog, 0, &e).unwrap();
    assert_eq!(m.len, 2);
    // A flag that no add form produces after its result: the match stops at
    // the add and the test is selected on its own.
    let prog = vec![ins(2, Generic::Add(32), &[0, 1]), ins(3, Generic::IsNonZero, &[2]), ins(4, Generic::Store { input: 32, mem_size: 32 }, &[2])];
    let m = select(&spec, &prog, 0, &e).unwrap();
    assert_eq!(m.len, 1);
    assert_eq!(chosen(&spec, &m), "add r32, r32");
    // The sum now has a register; the test is selected on its own, then the store.
    let e2 = env(vec![reg(x64::RBX), reg(x64::RSI), reg(x64::RBX)], &[3]);
    let m2 = select(&spec, &prog, 1, &e2).unwrap();
    assert_eq!(m2.len, 1);
    assert_eq!(chosen(&spec, &m2), "setnz r64");
    let e3 = env(vec![reg(x64::RBX), reg(x64::RSI), reg(x64::RBX), reg(x64::RCX)], &[3]);
    let m3 = select(&spec, &prog, 2, &e3).unwrap();
    assert_eq!(m3.len, 1);
    assert_eq!(chosen(&spec, &m3), "mov m32, r32");
}

#[test]
fn zero_test_alone_is_realizable() {
    let spec = x64::spec();
    let prog = vec![ins(1, Generic::IsZero, &[0])];
    let e = env(vec![reg(x64::RBX)], &[1]);
    let m = select(&spec, &prog, 0, &e).unwrap();
    assert_eq!(m.len, 1);
    assert_eq!(chosen(&spec, &m), "test r64, r64");
    let prog = vec![ins(1, Generic::LtZero, &[0])];
    assert_eq!(chosen(&spec, &select(&spec, &prog, 0, &e).unwrap()), "test r64, r64");
}

#[test]
fn live_left_operand_is_not_overwritten() {
    let spec = x64::spec();
    // %0 is read again after the add: the two-operand add would overwrite it,
    // so only the address form, which writes a separate register, remains.
    let prog = vec![ins(2, Generic::Add(32), &[0, 1]), ins(3, Generic::Xor(32), &[0, 2])];
    let e = env(vec![reg(x64::RBX), reg(x64::RSI)], &[3]);
    let m = select(&spec, &prog, 0, &e).unwrap();
    assert_eq!(m.len, 1);
    assert_eq!(names(&spec, &m), vec!["lea r32, m"]);
}

#[test]
fn sign_extended_immediate_must_keep_its_value() {
    let spec = x64::spec();
    let prog = vec![ins(2, Generic::Add(64), &[0, 1])];
    let e = env(vec![reg(x64::RBX), Home::Imm(0x7FFF_FFFF)], &[2]);
    assert!(names(&spec, &select(&spec, &prog, 0, &e).unwrap()).contains(&"add r64, i32"));
    let e = env(vec![reg(x64::RBX), Home::Imm(0x8000_0000)], &[2]);
    let m = select(&spec, &prog, 0, &e).unwrap();
    assert!(!names(&spec, &m).contains(&"add r64, i32"));
    assert!(names(&spec, &m).contains(&"add r64, r64"));
}

#[test]
fn address_add_folds_into_load() {
    let spec = x64::spec();
    let prog = vec![ins(2, Generic::Add(32), &[0, 1]), ins(3, Generic::Load { out: 32, mem_size: 32 }, &[2])];
    let e = env(vec![reg(x64::RBX), Home::Imm(16)], &[3]);
    let m = select(&spec, &prog, 0, &e).unwrap();
    assert_eq!(m.len, 2);
    assert_eq!(chosen(&spec, &m), "mov r32, m32");
    // With a policy that prefers fewer register operands, the base +
    // displacement alternative of the memory operand wins.
    let costs: Vec<u64> = spec
        .forms
        .iter()
        .map(|f| f.slots.iter().filter(|s| matches!(s, Slot::Param(Param::Class(_)))).count() as u64)
        .collect();
    let best = &spec.forms[m.candidates[m.best(&costs).unwrap()].form];
    assert_eq!(best.name, "mov r32, m32");
    assert_eq!(best.variant, 2);
}

#[test]
fn reused_address_is_computed_into_a_register() {
    let spec = x64::spec();
    let prog = vec![
        ins(2, Generic::Add(32), &[0, 1]),
        ins(3, Generic::Load { out: 32, mem_size: 32 }, &[2]),
        ins(4, Generic::Store { input: 32, mem_size: 32 }, &[2]),
    ];
    let e = env(vec![reg(x64::RBX), Home::Imm(16)], &[3]);
    let m = select(&spec, &prog, 0, &e).unwrap();
    assert_eq!(m.len, 1);
    let all = names(&spec, &m);
    assert!(all.contains(&"add r32, i32"));
    assert!(all.contains(&"lea r32, m"));
}

#[test]
fn live_flag_is_not_clobbered() {
    let spec = x64::spec();
    // %9 sits in ZF and is needed after the add: every flag-setting add is
    // rejected and the address form, which touches no flags, is chosen.
    let mut homes = vec![reg(x64::RBX), reg(x64::RSI)];
    homes.resize(9, Home::Elsewhere);
    homes.push(reg(x64::ZF));
    let prog = vec![ins(2, Generic::Add(32), &[0, 1])];
    let e = env(homes, &[2, 9]);
    let m = select(&spec, &prog, 0, &e).unwrap();
    assert_eq!(m.len, 1);
    assert_eq!(names(&spec, &m), vec!["lea r32, m"]);
}

#[test]
fn dead_flag_may_be_clobbered() {
    let spec = x64::spec();
    let mut homes = vec![reg(x64::RBX), reg(x64::RSI)];
    homes.resize(9, Home::Elsewhere);
    homes.push(reg(x64::ZF));
    let prog = vec![ins(2, Generic::Add(32), &[0, 1])];
    let e = env(homes, &[2]);
    let m = select(&spec, &prog, 0, &e).unwrap();
    assert_eq!(chosen(&spec, &m), "add r32, r32");
}

#[test]
fn multiply_with_live_rdx_is_unrealizable() {
    let spec = x64::spec();
    let mut homes = vec![reg(x64::RBX), reg(x64::RSI)];
    homes.resize(9, Home::Elsewhere);
    homes.push(reg(x64::RDX));
    let prog = vec![ins(2, Generic::UMul(32), &[0, 1])];
    let e = env(homes.clone(), &[2, 9]);
    assert!(matches!(select(&spec, &prog, 0, &e), Err(SelectError::Unrealizable)));
    let e = env(homes, &[2]);
    assert_eq!(chosen(&spec, &select(&spec, &prog, 0, &e).unwrap()), "mul r32");
}

#[test]
fn single_operations_always_match() {
    let spec = x64::spec();
    let e = env(vec![reg(x64::RBX), reg(x64::RSI), reg(x64::RCX), reg(x64::XMM1), reg(x64::XMM2), Home::Imm(7)], &[9]);
    let cases: Vec<(Generic, Vec<usize>)> = vec![
        (Generic::Add(32), vec![0, 1]),
        (Generic::Add(64), vec![0, 1]),
        (Generic::Sub(64), vec![0, 1]),
        (Generic::And(32), vec![0, 1]),
        (Generic::Or(64), vec![0, 5]),
        (Generic::Xor(32), vec![0, 1]),
        (Generic::ShiftL(32), vec![0, 2]),
        (Generic::ShiftArithR(64), vec![0, 5]),
        (Generic::ShiftLogicalR(32), vec![0, 2]),
        (Generic::SMul(64), vec![0, 1]),
        (Generic::UMul(64), vec![0, 1]),
        (Generic::Move(8), vec![0]),
        (Generic::Move(64), vec![5]),
        (Generic::Load { out: 64, mem_size: 32 }, vec![0]),
        (Generic::AddFp(64), vec![3, 4]),
        (Generic::SqrtFp(32), vec![3, 4]),
        (Generic::AddWithCarry(32), vec![0, 1, 2]),
        (Generic::IsZero, vec![0]),
        (Generic::IsNonZero, vec![0]),
        (Generic::LtZero, vec![0]),
    ];
    for (op, inputs) in cases {
        let prog = vec![ins(9, op, &inputs)];
        let m = select(&spec, &prog, 0, &e).unwrap_or_else(|_| panic!("{op:?}"));
        assert_eq!(m.len, 1);
    }
    // A store's own output is never read.
    let e = env(vec![reg(x64::RBX)], &[]);
    for size in [8, 16, 32, 64] {
        let prog = vec![ins(9, Generic::Store { input: size, mem_size: 32 }, &[0])];
        let m = select(&spec, &prog, 0, &e).unwrap();
        assert_eq!(m.len, 1);
    }
}

#[test]
fn selection_is_deterministic() {
    let spec = x64::spec();
    let prog = vec![
        ins(2, Generic::Add(32), &[0, 1]),
        ins(3, Generic::IsZero, &[2]),
        ins(4, Generic::Load { out: 32, mem_size: 32 }, &[0]),
    ];
    let e = env(vec![reg(x64::RBX), reg(x64::RSI)], &[3, 4]);
    let a = select(&spec, &prog, 0, &e).unwrap();
    let c = select(&spec, &prog, 0, &e).unwrap();
    assert_eq!(a.len, c.len);
    assert_eq!(names(&spec, &a), names(&spec, &c));
    for (x, y) in a.candidates.iter().zip(c.candidates.iter()) {
        assert_eq!(x.bind, y.bind);
        assert_eq!(x.next, y.next);
    }
}

#[test]
fn end_of_stream_and_unknown_operation() {
    let spec = x64::spec();
    let e = env(vec![reg(x64::RBX)], &[]);
    let prog = vec![ins(1, Generic::OverflowSigned, &[0])];
    assert!(matches!(select(&spec, &prog, 1, &e), Err(SelectError::EndOfStream)));
    assert!(matches!(select(&spec, &prog, 0, &e), Err(SelectError::Unrealizable)));
}

#[test]
fn immediate_must_fit() {
    let spec = x64::spec();
    let prog = vec![ins(2, Generic::ShiftL(32), &[0, 1])];
    let e = env(vec![reg(x64::RBX), Home::Imm(3)], &[2]);
    let m = select(&spec, &prog, 0, &e).unwrap();
    assert!(names(&spec, &m).contains(&"shl r32, i8"));
    let e = env(vec![reg(x64::RBX), Home::Imm(300)], &[2]);
    let m = select(&spec, &prog, 0, &e).unwrap();
    assert!(!names(&spec, &m).contains(&"shl r32, i8"));
    assert!(names(&spec, &m).contains(&"shl r32, cl"));
}

#[test]
fn table_is_the_same_on_every_call() {
    let a = x64::spec();
    let b = x64::spec();
    assert_eq!(a.forms.len(), b.forms.len());
    for (f, g) in a.forms.iter().zip(b.forms.iter()) {
        assert_eq!(f.name, g.name);
        assert_eq!(f.variant, g.variant);
        assert_eq!(f.slots, g.slots);
        assert_eq!(f.eqs, g.eqs);
        assert_eq!(f.actions.len(), g.actions.len());
        for (x, y) in f.actions.iter().zip(g.actions.iter()) {
            assert_eq!((x.op, &x.inputs, x.out), (y.op, &y.inputs, y.out));
        }
    }
}
