use isel::actions::Generic;
use isel::bitset::BitSet;
use isel::select::{select, Candidate, Env, Home, Instr, Match};
use isel::{Immediate, InstrBuilder, MachineSpec, Param, Reg, RegClass, Slot, Var};

fn class(ids: &[u8]) -> RegClass {
    let mut c = RegClass::empty();
    for &id in ids {
        c = c.with(Reg { id });
    }
    c
}

#[test]
fn bitset_insert_and_contains() {
    let mut s = BitSet::new();
    assert!(!s.contains(0));
    s.insert(3);
    s.insert(64);
    s.insert(200);
    assert!(s.contains(3) && s.contains(64) && s.contains(200));
    assert!(!s.contains(2) && !s.contains(65) && !s.contains(199) && !s.contains(1000));
    assert_eq!(s.words.len(), 4);
    s.insert(3);
    assert!(s.contains(3));
}

#[test]
fn register_class_membership() {
    let c = class(&[0, 5, 63]);
    assert_eq!(c.mask, 1 | (1 << 5) | (1 << 63));
    assert!(c.contains(Reg { id: 5 }));
    assert!(!c.contains(Reg { id: 4 }));
    assert!(!c.contains(Reg { id: 64 }));
    assert!(!RegClass::empty().contains(Reg { id: 0 }));
}

#[test]
fn builder_expands_each_alternative() {
    let mut b = InstrBuilder::new();
    let dest = b.param(Param::Class(class(&[0, 1])));
    let outs = b.variants(1);
    b.param_into(outs[0], Param::Class(class(&[0, 1])));
    b.or();
    let base = b.param(Param::Class(class(&[0, 1])));
    let disp = b.param(Param::Imm(Immediate { bits: 8 }));
    b.action_into(outs[0], Generic::Add(32), vec![base, disp]);
    b.finish_variants();
    let v = b.action(Generic::Load { out: 32, mem_size: 32 }, vec![outs[0]]);
    b.eq(dest, v);
    assert_eq!(b.next, 5);
    let forms = b.forms("ld");
    assert_eq!(forms.len(), 2);
    // Alternative 0: the address is a register parameter.
    assert!(matches!(forms[0].slots[1], Slot::Param(_)));
    assert!(matches!(forms[0].slots[2], Slot::Unused));
    assert_eq!(forms[0].actions.len(), 1);
    // Alternative 1: the address is computed by an add.
    assert!(matches!(forms[1].slots[1], Slot::Out));
    assert!(matches!(forms[1].slots[3], Slot::Param(Param::Imm(Immediate { bits: 8 }))));
    assert_eq!(forms[1].actions.len(), 2);
    assert_eq!(forms[1].actions[0].op, Generic::Add(32));
    assert_eq!(forms[1].variant, 1);
    assert_eq!(forms[1].eqs, vec![(dest, v)]);

    let mut m = MachineSpec::new();
    m.instr("ld", &b);
    assert_eq!(m.forms.len(), 2);
    let e = m.lookup(Generic::Add(32)).unwrap();
    assert!(!m.index[e].forms.contains(0) && m.index[e].forms.contains(1));
    assert!(m.lookup(Generic::Sub(32)).is_none());
}

#[test]
fn fixed_register_outputs_and_form_without_variants() {
    let mut b = InstrBuilder::new();
    let l = b.param(Param::Class(class(&[0, 1, 2])));
    let r = b.param(Param::Class(class(&[0, 1, 2])));
    let out = b.action(Generic::Sub(32), vec![l, r]);
    b.action_to_reg(Reg { id: 9 }, Generic::IsZero, vec![out]);
    let forms = b.forms("cmp");
    assert_eq!(forms.len(), 1);
    assert!(matches!(forms[0].slots[3], Slot::Fixed(Reg { id: 9 })));
    assert_eq!(forms[0].actions[1].out, Var(3));
}

fn best_of(forms: &[usize], costs: &[u64]) -> Option<usize> {
    let m = Match {
        len: 1,
        candidates: forms.iter().map(|&f| Candidate { form: f, next: 0, bind: Vec::new() }).collect(),
    };
    m.best(&costs.to_vec())
}

#[test]
fn best_takes_lowest_cost_first_in_order() {
    assert_eq!(best_of(&[], &[]), None);
    assert_eq!(best_of(&[0, 1, 2], &[5, 3, 3]), Some(1));
    assert_eq!(best_of(&[0, 2], &[5, 3, 1]), Some(1));
    // A form without a cost counts as the most expensive.
    assert_eq!(best_of(&[4, 0], &[7]), Some(1));
    assert_eq!(best_of(&[4, 5], &[]), Some(0));
}

#[test]
fn reused_variable_must_keep_its_slot() {
    // A two-step form: t = add(a, b); u = add(t, c). The second instruction
    // reads the first one's output through another slot: no match of length 2.
    let mut b = InstrBuilder::new();
    let cl = Param::Class(class(&[0, 1, 2, 3]));
    let a = b.param(cl);
    let x = b.param(cl);
    let c = b.param(cl);
    let d = b.param(cl);
    let t = b.action(Generic::Add(32), vec![a, x]);
    let u = b.action(Generic::Add(32), vec![t, c]);
    b.eq(d, u);
    let mut single = InstrBuilder::new();
    let p = single.param(cl);
    let q = single.param(cl);
    let o = single.action(Generic::Add(32), vec![p, q]);
    single.eq(p, o);
    let mut m = MachineSpec::new();
    m.instr("add3", &b);
    m.instr("add", &single);
    let env = Env {
        homes: vec![Home::Reg(Reg { id: 0 }), Home::Reg(Reg { id: 1 }), Home::Reg(Reg { id: 2 })],
        live_out: vec![Var(4)],
    };
    let fused = vec![
        Instr { out: Var(3), op: Generic::Add(32), inputs: vec![Var(0), Var(1)] },
        Instr { out: Var(4), op: Generic::Add(32), inputs: vec![Var(3), Var(2)] },
    ];
    let r = select(&m, &fused, 0, &env).unwrap();
    assert_eq!(r.len, 2);
    assert_eq!(r.candidates.len(), 1);
    assert_eq!(r.candidates[0].form, 0);
    let swapped = vec![
        Instr { out: Var(3), op: Generic::Add(32), inputs: vec![Var(0), Var(1)] },
        Instr { out: Var(4), op: Generic::Add(32), inputs: vec![Var(2), Var(3)] },
    ];
    let r = select(&m, &swapped, 0, &env).unwrap();
    assert_eq!(r.len, 1);
}

#[test]
fn two_scratch_registers_cannot_share_one_free_register() {
    let cl = Param::Class(class(&[0, 1]));
    let mut b = InstrBuilder::new();
    let dest = b.param(cl);
    let _scratch = b.param(cl);
    let x = b.param(cl);
    let out = b.action(Generic::Move(32), vec![x]);
    b.eq(dest, out);
    let mut one = InstrBuilder::new();
    let dest = one.param(cl);
    let x = one.param(cl);
    let out = one.action(Generic::Move(32), vec![x]);
    one.eq(dest, out);
    let mut m = MachineSpec::new();
    m.instr("needs two", &b);
    let prog = vec![Instr { out: Var(1), op: Generic::Move(32), inputs: vec![Var(0)] }];
    // %0 sits in register 0 and is needed afterwards; only register 1 is free.
    let env = Env { homes: vec![Home::Reg(Reg { id: 0 })], live_out: vec![Var(0), Var(1)] };
    assert!(select(&m, &prog, 0, &env).is_err());
    m.instr("needs one", &one);
    let r = select(&m, &prog, 0, &env).unwrap();
    assert_eq!(r.candidates.len(), 1);
    assert_eq!(m.forms[r.candidates[0].form].name, "needs one");
}
