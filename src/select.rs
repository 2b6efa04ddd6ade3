//! The query/match engine: from a cursor into a Low IR stream, find the
//! longest run of instructions that one instruction form can realise and still
//! be emitted, and the forms that do it.
use crate::actions::Generic;
use crate::machine::{Action, InstrDef, MachineSpec, Param, Reg, RegClass, Slot, Var};
use vstd::prelude::*;

verus! {

/// One Low IR instruction: `out = op(inputs)`.
pub struct Instr {
    pub out: Var,
    pub op: Generic,
    pub inputs: Vec<Var>,
}

/// Where a value defined before the cursor currently lives.
#[derive(Copy, Clone, Debug, PartialEq, Eq, Structural)]
pub enum Home {
    /// Not in a register and not a known constant (for instance on the stack).
    Elsewhere,
    Reg(Reg),
    /// A constant with this value.
    Imm(u64),
}

/// What the location allocator knows when a match is made: the home of each
/// variable defined so far (indexed by the variable's number) and the variables
/// that must survive the end of the stream.
pub struct Env {
    pub homes: Vec<Home>,
    pub live_out: Vec<Var>,
}

/// A partial binding from a form's slots to Low IR variables.
pub type Binding = Seq<Option<Var>>;

pub open spec fn is_param(k: Slot) -> bool {
    k is Param
}

/// `v` is already the output of a step of the form that the binding matched.
pub open spec fn produced(form: InstrDef, b: Binding, v: Var) -> bool {
    exists|t: int| 0 <= t < b.len() && b[t] == Some(v) && !is_param(#[trigger] form.slots@[t])
}

/// Binding the input slot `s` to `v`: a slot already bound must hold `v`; an
/// unbound one must be a parameter, and a value produced inside the match can
/// only be read through the slot that produced it.
pub open spec fn bind_input(form: InstrDef, b: Binding, s: Var, v: Var) -> Option<Binding> {
    if s.0 >= b.len() {
        None
    } else {
        match b[s.0 as int] {
            Some(w) => if w == v {
                Some(b)
            } else {
                None
            },
            None => if is_param(form.slots@[s.0 as int]) && !produced(form, b, v) {
                Some(b.update(s.0 as int, Some(v)))
            } else {
                None
            },
        }
    }
}

/// Binds each slot of `ss` to the variable at the same position of `vs`, from
/// left to right.
pub open spec fn bind_all(form: InstrDef, b: Binding, ss: Seq<Var>, vs: Seq<Var>) -> Option<Binding>
    decreases ss.len(),
{
    if ss.len() == 0 || vs.len() == 0 {
        Some(b)
    } else {
        match bind_input(form, b, ss[0], vs[0]) {
            Some(b2) => bind_all(form, b2, ss.drop_first(), vs.drop_first()),
            None => None,
        }
    }
}

/// Matching instruction `ins` against step `a`: same operation, same number of
/// inputs, inputs bound consistently, and the step's output slot taken by the
/// instruction's output.
pub open spec fn try_action(form: InstrDef, b: Binding, a: Action, ins: Instr) -> Option<Binding> {
    if a.op == ins.op && a.inputs@.len() == ins.inputs@.len() && a.out.0 < b.len() && b[a.out.0 as int]
        is None && !is_param(form.slots@[a.out.0 as int]) {
        match bind_all(form, b, a.inputs@, ins.inputs@) {
            Some(b2) => if b2[a.out.0 as int] is None {
                Some(b2.update(a.out.0 as int, Some(ins.out)))
            } else {
                None
            },
            None => None,
        }
    } else {
        None
    }
}

/// The first step at or after `j` that `ins` matches, and the state after it.
pub open spec fn find_step(form: InstrDef, b: Binding, ins: Instr, j: int) -> Option<(int, Binding)>
    decreases form.actions@.len() - j,
{
    if j < 0 || j >= form.actions@.len() {
        None
    } else {
        match try_action(form, b, form.actions@[j], ins) {
            Some(b2) => Some((j + 1, b2)),
            None => find_step(form, b, ins, j + 1),
        }
    }
}

/// A candidate's state is the index of its next unconsumed step and its binding.
pub open spec fn advance(form: InstrDef, st: (int, Binding), ins: Instr) -> Option<(int, Binding)> {
    find_step(form, st.1, ins, st.0)
}

pub open spec fn initial(form: InstrDef) -> (int, Binding) {
    (0, Seq::new(form.slots@.len(), |s: int| None))
}

/// The state of `form` after matching the `k` instructions from `c`.
pub open spec fn run(form: InstrDef, prog: Seq<Instr>, c: int, k: nat) -> Option<(int, Binding)>
    decreases k,
{
    if k == 0 {
        Some(initial(form))
    } else {
        match run(form, prog, c, (k - 1) as nat) {
            Some(st) => advance(form, st, prog[c + k - 1]),
            None => None,
        }
    }
}


fn is_param_slot(k: &Slot) -> (r: bool)
    ensures
        r == is_param(*k),
{
    match k {
        Slot::Param(_) => true,
        _ => false,
    }
}

fn produced_exec(form: &InstrDef, b: &Vec<Option<Var>>, v: Var) -> (r: bool)
    requires
        b@.len() == form.slots@.len(),
    ensures
        r == produced(*form, b@, v),
{
    let mut t: usize = 0;
    while t < b.len()
        invariant
            t <= b@.len(),
            b@.len() == form.slots@.len(),
            forall|u: int| 0 <= u < t ==> !(b@[u] == Some(v) && !is_param(#[trigger] form.slots@[u])),
        decreases b@.len() - t,
    {
        if b[t] == Some(v) && !is_param_slot(&form.slots[t]) {
            return true;
        }
        t += 1;
    }
    false
}

proof fn lemma_bind_all_len(form: InstrDef, b: Binding, ss: Seq<Var>, vs: Seq<Var>)
    ensures
        bind_all(form, b, ss, vs) is Some ==> bind_all(form, b, ss, vs)->Some_0.len() == b.len(),
    decreases ss.len(),
{
    if ss.len() > 0 && vs.len() > 0 {
        if let Some(b2) = bind_input(form, b, ss[0], vs[0]) {
            lemma_bind_all_len(form, b2, ss.drop_first(), vs.drop_first());
        }
    }
}

/// Binds the inputs of step `a` to those of `ins`, in place; `false` when they
/// cannot be bound (the binding is then of no further use).
fn bind_all_exec(form: &InstrDef, b: &mut Vec<Option<Var>>, a: &Action, ins: &Instr) -> (ok: bool)
    requires
        old(b)@.len() == form.slots@.len(),
        a.inputs@.len() == ins.inputs@.len(),
    ensures
        final(b)@.len() == form.slots@.len(),
        ok == bind_all(*form, old(b)@, a.inputs@, ins.inputs@) is Some,
        ok ==> bind_all(*form, old(b)@, a.inputs@, ins.inputs@) == Some(final(b)@),
{
    let n = a.inputs.len();
    let mut i: usize = 0;
    assert(a.inputs@.skip(0) =~= a.inputs@);
    assert(ins.inputs@.skip(0) =~= ins.inputs@);
    while i < n
        invariant
            n == a.inputs@.len(),
            n == ins.inputs@.len(),
            i <= n,
            b@.len() == form.slots@.len(),
            bind_all(*form, old(b)@, a.inputs@, ins.inputs@) == bind_all(
                *form,
                b@,
                a.inputs@.skip(i as int),
                ins.inputs@.skip(i as int),
            ),
        decreases n - i,
    {
        let s = a.inputs[i];
        let v = ins.inputs[i];
        let ghost cur = b@;
        assert(a.inputs@.skip(i as int)[0] == s);
        assert(ins.inputs@.skip(i as int)[0] == v);
        assert(a.inputs@.skip(i as int).drop_first() =~= a.inputs@.skip(i + 1));
        assert(ins.inputs@.skip(i as int).drop_first() =~= ins.inputs@.skip(i + 1));
        if s.0 >= b.len() {
            return false;
        }
        match b[s.0] {
            Some(w) => {
                if w != v {
                    return false;
                }
            },
            None => {
                if !is_param_slot(&form.slots[s.0]) || produced_exec(form, b, v) {
                    return false;
                }
                b.set(s.0, Some(v));
            },
        }
        assert(bind_input(*form, cur, s, v) == Some(b@));
        i += 1;
    }
    assert(a.inputs@.skip(n as int).len() == 0);
    true
}

/// Matches `ins` against step `a`, as `try_action` says.
fn try_action_exec(form: &InstrDef, b: &Vec<Option<Var>>, a: &Action, ins: &Instr) -> (r: Option<Vec<Option<Var>>>)
    requires
        b@.len() == form.slots@.len(),
    ensures
        match r {
            Some(b2) => try_action(*form, b@, *a, *ins) == Some(b2@),
            None => try_action(*form, b@, *a, *ins) is None,
        },
{
    if a.op == ins.op && a.inputs.len() == ins.inputs.len() && a.out.0 < b.len() && b[a.out.0].is_none()
        && !is_param_slot(&form.slots[a.out.0]) {
        let mut b2 = b.clone();
        assert(b2@ =~= b@);
        if !bind_all_exec(form, &mut b2, a, ins) {
            return None;
        }
        if b2[a.out.0].is_some() {
            return None;
        }
        b2.set(a.out.0, Some(ins.out));
        Some(b2)
    } else {
        None
    }
}

proof fn lemma_find_step_uses(form: InstrDef, b: Binding, ins: Instr, j: int)
    requires
        find_step(form, b, ins, j) is Some,
    ensures
        form.uses(ins.op),
        find_step(form, b, ins, j)->Some_0.1.len() == b.len(),
    decreases form.actions@.len() - j,
{
    if j >= 0 && j < form.actions@.len() {
        match try_action(form, b, form.actions@[j], ins) {
            Some(b2) => {
                lemma_bind_all_len(form, b, form.actions@[j].inputs@, ins.inputs@);
            },
            None => {
                lemma_find_step_uses(form, b, ins, j + 1);
            },
        }
    }
}

/// Advances a candidate over one more instruction, as `advance` says.
fn advance_exec(form: &InstrDef, next: usize, b: &Vec<Option<Var>>, ins: &Instr) -> (r: Option<(usize, Vec<Option<Var>>)>)
    requires
        b@.len() == form.slots@.len(),
    ensures
        match r {
            Some(st) => advance(*form, (next as int, b@), *ins) == Some((st.0 as int, st.1@)),
            None => advance(*form, (next as int, b@), *ins) is None,
        },
{
    let mut j: usize = next;
    while j < form.actions.len()
        invariant
            next <= j,
            b@.len() == form.slots@.len(),
            find_step(*form, b@, *ins, next as int) == find_step(*form, b@, *ins, j as int),
        decreases form.actions@.len() - j,
    {
        match try_action_exec(form, b, &form.actions[j], ins) {
            Some(b2) => {
                return Some((j + 1, b2));
            },
            None => {},
        }
        j += 1;
    }
    None
}


/// Where `v` lives before the match.
pub open spec fn home_of(env: Env, v: Var) -> Home {
    if v.0 < env.homes@.len() {
        env.homes@[v.0 as int]
    } else {
        Home::Elsewhere
    }
}

/// Some instruction at or after position `from` reads `v`.
pub open spec fn read_from(prog: Seq<Instr>, from: int, v: Var) -> bool {
    exists|i: int, k: int| from <= i < prog.len() && 0 <= k < prog[i].inputs@.len() && #[trigger] prog[i].inputs@[k] == v
}

/// `v` must survive a match that ends before position `from`.
pub open spec fn needed_after(prog: Seq<Instr>, from: int, env: Env, v: Var) -> bool {
    read_from(prog, from, v) || env.live_out@.contains(v)
}

/// Register `r` holds a value (other than `skip`) that must survive the match.
pub open spec fn occupied(prog: Seq<Instr>, from: int, env: Env, r: Reg, skip: Option<Var>) -> bool {
    exists|w: int|
        0 <= w < env.homes@.len() && #[trigger] env.homes@[w] == Home::Reg(r) && needed_after(prog, from, env, Var(w as usize))
            && skip != Some(Var(w as usize))
}

/// Some register of the class holds nothing that must survive the match.
pub open spec fn class_free(prog: Seq<Instr>, from: int, env: Env, c: RegClass) -> bool {
    exists|r: Reg| c.has(r) && !occupied(prog, from, env, r, None)
}

/// The constant `x` fits in a `bits`-bit immediate, which the machine
/// sign-extends: its top bit must be clear.
pub open spec fn fits(x: u64, bits: u8) -> bool {
    bits >= 65 || (bits >= 1 && (x >> ((bits - 1) as u64)) == 0)
}

/// The allocator can give parameter `p` the value `v`: a fixed register that
/// `v` is in or that is free, a register of the class (where `v` is, or a free
/// one), or an immediate that holds `v`.
pub open spec fn param_ok(p: Param, v: Var, prog: Seq<Instr>, from: int, env: Env) -> bool {
    match p {
        Param::Reg(r) => home_of(env, v) == Home::Reg(r) || !occupied(prog, from, env, r, Some(v)),
        Param::Class(c) => (match home_of(env, v) {
            Home::Reg(r) => c.has(r),
            _ => false,
        }) || class_free(prog, from, env, c),
        Param::Imm(i) => match home_of(env, v) {
            Home::Imm(x) => fits(x, i.bits),
            _ => false,
        },
    }
}

/// The allocator can fill parameter `p`, which no Low IR value is bound to.
pub open spec fn scratch_ok(p: Param, prog: Seq<Instr>, from: int, env: Env) -> bool {
    match p {
        Param::Reg(r) => !occupied(prog, from, env, r, None),
        Param::Class(c) => class_free(prog, from, env, c),
        Param::Imm(_) => true,
    }
}

/// An equality ties slot `s` to a parameter slot, which gives it a location.
pub open spec fn has_home(form: InstrDef, s: int) -> bool {
    exists|j: int|
        0 <= j < form.eqs@.len() && ((#[trigger] form.eqs@[j].0.0 == s && is_param(form.slots@[form.eqs@[j].1.0 as int]))
            || (form.eqs@[j].1.0 == s && is_param(form.slots@[form.eqs@[j].0.0 as int])))
}

/// An equality ties slot `s` to an output slot: the step's result overwrites
/// the value that the slot was read from.
pub open spec fn tied_to_output(form: InstrDef, s: int) -> bool {
    exists|j: int|
        0 <= j < form.eqs@.len() && ((#[trigger] form.eqs@[j].0.0 == s && form.slots@[form.eqs@[j].1.0 as int] is Out)
            || (form.eqs@[j].1.0 == s && form.slots@[form.eqs@[j].0.0 as int] is Out))
}

/// Slot `s` allows the form to be emitted for a match that ends before `from`.
pub open spec fn slot_ok(form: InstrDef, b: Binding, s: int, prog: Seq<Instr>, from: int, env: Env) -> bool {
    match form.slots@[s] {
        Slot::Param(p) => match b[s] {
            Some(v) => param_ok(p, v, prog, from, env) && (tied_to_output(form, s) ==> !needed_after(prog, from, env, v)),
            None => scratch_ok(p, prog, from, env),
        },
        Slot::Out => match b[s] {
            Some(v) => has_home(form, s) || !needed_after(prog, from, env, v),
            None => true,
        },
        Slot::Fixed(r) => !occupied(prog, from, env, r, None),
        Slot::Unused => true,
    }
}

/// The form, with binding `b`, can be emitted for a match that ends before
/// `from`: every parameter can be placed, no internal output is needed later,
/// and no written register holds a value that is needed later.
pub open spec fn emittable(form: InstrDef, b: Binding, prog: Seq<Instr>, from: int, env: Env) -> bool {
    &&& forall|s: int| 0 <= s < form.slots@.len() ==> #[trigger] slot_ok(form, b, s, prog, from, env)
    &&& regs_suffice(form, b, prog, from, env)
}

/// Slot `s` takes a register of class `c` that must be free: it is bound to
/// no value, or to one that is not already in a register of the class.
pub open spec fn needs_fresh(form: InstrDef, b: Binding, s: int, env: Env, c: RegClass) -> bool {
    &&& form.slots@[s] == Slot::Param(Param::Class(c))
    &&& match b[s] {
        None => true,
        Some(v) => !(match home_of(env, v) {
            Home::Reg(r) => c.has(r),
            _ => false,
        }),
    }
}

/// How many of the first `k` slots need a free register of class `c`.
pub open spec fn fresh_count(form: InstrDef, b: Binding, env: Env, c: RegClass, k: nat) -> nat
    decreases k,
{
    if k == 0 {
        0
    } else {
        fresh_count(form, b, env, c, (k - 1) as nat) + if needs_fresh(form, b, k - 1, env, c) {
            1nat
        } else {
            0nat
        }
    }
}

/// How many registers numbered below `k` belong to class `c` and hold nothing
/// needed after the match.
pub open spec fn free_count(prog: Seq<Instr>, from: int, env: Env, c: RegClass, k: nat) -> nat
    decreases k,
{
    if k == 0 {
        0
    } else {
        free_count(prog, from, env, c, (k - 1) as nat) + if c.has(Reg { id: (k - 1) as u8 }) && !occupied(
            prog,
            from,
            env,
            Reg { id: (k - 1) as u8 },
            None,
        ) {
            1nat
        } else {
            0nat
        }
    }
}

/// The slots that need free registers of one class get distinct ones: for
/// every class a slot uses, no more slots need a free register of it than
/// there are free registers in it.
pub open spec fn regs_suffice(form: InstrDef, b: Binding, prog: Seq<Instr>, from: int, env: Env) -> bool {
    forall|s: int|
        0 <= s < form.slots@.len() ==> (#[trigger] form.slots@[s] matches Slot::Param(Param::Class(c)) ==> fresh_count(
            form,
            b,
            env,
            c,
            form.slots@.len(),
        ) <= free_count(prog, from, env, c, 64))
}

/// Whether `v` must survive a match that ends before `from`.
fn is_needed(prog: &Vec<Instr>, from: usize, env: &Env, v: Var) -> (found: bool)
    ensures
        found == needed_after(prog@, from as int, *env, v),
{
    let mut found = false;
    let mut i: usize = from;
    while i < prog.len() && !found
        invariant
            from <= i,
            found ==> read_from(prog@, from as int, v),
            !found ==> forall|i2: int, k: int|
                from <= i2 < i && 0 <= k < prog@[i2].inputs@.len() ==> #[trigger] prog@[i2].inputs@[k] != v,
        decreases prog@.len() - i,
    {
        let mut k: usize = 0;
        while k < prog[i].inputs.len() && !found
            invariant
                from <= i < prog@.len(),
                k <= prog@[i as int].inputs@.len(),
                found ==> read_from(prog@, from as int, v),
                !found ==> forall|k2: int| 0 <= k2 < k ==> prog@[i as int].inputs@[k2] != v,
                !found ==> forall|i2: int, k2: int|
                    from <= i2 < i && 0 <= k2 < prog@[i2].inputs@.len() ==> #[trigger] prog@[i2].inputs@[k2] != v,
            decreases prog@[i as int].inputs@.len() - k,
        {
            if prog[i].inputs[k] == v {
                found = true;
            }
            k += 1;
        }
        i += 1;
    }
    if !found {
        let mut j: usize = 0;
        while j < env.live_out.len() && !found
            invariant
                j <= env.live_out@.len(),
                found ==> env.live_out@.contains(v),
                !found ==> forall|j2: int| 0 <= j2 < j ==> env.live_out@[j2] != v,
            decreases env.live_out@.len() - j,
        {
            if env.live_out[j] == v {
                found = true;
            }
            j += 1;
        }
    }
    found
}

/// For each home index, whether that variable must survive a match that ends
/// before `from`.
fn needed_table(prog: &Vec<Instr>, from: usize, env: &Env) -> (r: Vec<bool>)
    ensures
        r@.len() == env.homes@.len(),
        forall|w: int| 0 <= w < r@.len() ==> r@[w] == needed_after(prog@, from as int, *env, Var(w as usize)),
{
    let mut r: Vec<bool> = Vec::new();
    let mut w: usize = 0;
    while w < env.homes.len()
        invariant
            w <= env.homes@.len(),
            r@.len() == w,
            forall|u: int| 0 <= u < w ==> r@[u] == needed_after(prog@, from as int, *env, Var(u as usize)),
        decreases env.homes@.len() - w,
    {
        let found = is_needed(prog, from, env, Var(w));
        r.push(found);
        w += 1;
    }
    r
}

fn occupied_exec(env: &Env, needed: &Vec<bool>, r: Reg, skip: Option<Var>, prog: &Vec<Instr>, from: usize) -> (o: bool)
    requires
        needed@.len() == env.homes@.len(),
        forall|w: int| 0 <= w < needed@.len() ==> needed@[w] == needed_after(prog@, from as int, *env, Var(w as usize)),
    ensures
        o == occupied(prog@, from as int, *env, r, skip),
{
    let mut w: usize = 0;
    while w < env.homes.len()
        invariant
            w <= env.homes@.len(),
            needed@.len() == env.homes@.len(),
            forall|w2: int| 0 <= w2 < needed@.len() ==> needed@[w2] == needed_after(prog@, from as int, *env, Var(w2 as usize)),
            forall|w2: int|
                0 <= w2 < w ==> !(#[trigger] env.homes@[w2] == Home::Reg(r) && needed_after(prog@, from as int, *env, Var(w2 as usize))
                    && skip != Some(Var(w2 as usize))),
        decreases env.homes@.len() - w,
    {
        if env.homes[w] == Home::Reg(r) && needed[w] && skip != Some(Var(w)) {
            return true;
        }
        w += 1;
    }
    false
}

fn class_free_exec(env: &Env, needed: &Vec<bool>, c: RegClass, prog: &Vec<Instr>, from: usize) -> (o: bool)
    requires
        needed@.len() == env.homes@.len(),
        forall|w: int| 0 <= w < needed@.len() ==> needed@[w] == needed_after(prog@, from as int, *env, Var(w as usize)),
    ensures
        o == class_free(prog@, from as int, *env, c),
{
    let mut id: u8 = 0;
    while id < 64
        invariant
            id <= 64,
            needed@.len() == env.homes@.len(),
            forall|w: int| 0 <= w < needed@.len() ==> needed@[w] == needed_after(prog@, from as int, *env, Var(w as usize)),
            forall|r: Reg| r.id < id ==> !(c.has(r) && !occupied(prog@, from as int, *env, r, None)),
        decreases 64 - id,
    {
        let r = Reg { id };
        if c.contains(r) && !occupied_exec(env, needed, r, None, prog, from) {
            return true;
        }
        proof {
            assert forall|r2: Reg| r2.id < id + 1 implies !(c.has(r2) && !occupied(prog@, from as int, *env, r2, None)) by {
                if r2.id == id {
                    assert(r2 == r);
                }
            }
        }
        id += 1;
    }
    false
}


/// The facts about `needed` that the exec checks rely on.
pub open spec fn needed_for(needed: Seq<bool>, prog: Seq<Instr>, from: int, env: Env) -> bool {
    &&& needed.len() == env.homes@.len()
    &&& forall|w: int| 0 <= w < needed.len() ==> needed[w] == needed_after(prog, from, env, Var(w as usize))
}

fn home_of_exec(env: &Env, v: Var) -> (h: Home)
    ensures
        h == home_of(*env, v),
{
    if v.0 < env.homes.len() {
        env.homes[v.0]
    } else {
        Home::Elsewhere
    }
}

fn param_ok_exec(p: Param, v: Var, env: &Env, needed: &Vec<bool>, prog: &Vec<Instr>, from: usize) -> (o: bool)
    requires
        needed_for(needed@, prog@, from as int, *env),
    ensures
        o == param_ok(p, v, prog@, from as int, *env),
{
    let h = home_of_exec(env, v);
    match p {
        Param::Reg(r) => h == Home::Reg(r) || !occupied_exec(env, needed, r, Some(v), prog, from),
        Param::Class(c) => {
            let here = match h {
                Home::Reg(r) => c.contains(r),
                _ => false,
            };
            here || class_free_exec(env, needed, c, prog, from)
        },
        Param::Imm(i) => match h {
            Home::Imm(x) => i.bits >= 65 || (i.bits >= 1 && (x >> ((i.bits - 1) as u64)) == 0),
            _ => false,
        },
    }
}

fn scratch_ok_exec(p: Param, env: &Env, needed: &Vec<bool>, prog: &Vec<Instr>, from: usize) -> (o: bool)
    requires
        needed_for(needed@, prog@, from as int, *env),
    ensures
        o == scratch_ok(p, prog@, from as int, *env),
{
    match p {
        Param::Reg(r) => !occupied_exec(env, needed, r, None, prog, from),
        Param::Class(c) => class_free_exec(env, needed, c, prog, from),
        Param::Imm(_) => true,
    }
}

fn has_home_exec(form: &InstrDef, s: usize) -> (o: bool)
    requires
        form.wf(),
    ensures
        o == has_home(*form, s as int),
{
    let mut j: usize = 0;
    while j < form.eqs.len()
        invariant
            form.wf(),
            j <= form.eqs@.len(),
            forall|j2: int|
                0 <= j2 < j ==> !((#[trigger] form.eqs@[j2].0.0 == s && is_param(form.slots@[form.eqs@[j2].1.0 as int]))
                    || (form.eqs@[j2].1.0 == s && is_param(form.slots@[form.eqs@[j2].0.0 as int]))),
        decreases form.eqs@.len() - j,
    {
        let (a, b) = form.eqs[j];
        if (a.0 == s && is_param_slot(&form.slots[b.0])) || (b.0 == s && is_param_slot(&form.slots[a.0])) {
            return true;
        }
        j += 1;
    }
    false
}

fn tied_to_output_exec(form: &InstrDef, s: usize) -> (o: bool)
    requires
        form.wf(),
    ensures
        o == tied_to_output(*form, s as int),
{
    let mut j: usize = 0;
    while j < form.eqs.len()
        invariant
            form.wf(),
            j <= form.eqs@.len(),
            forall|j2: int|
                0 <= j2 < j ==> !((#[trigger] form.eqs@[j2].0.0 == s && form.slots@[form.eqs@[j2].1.0 as int] is Out)
                    || (form.eqs@[j2].1.0 == s && form.slots@[form.eqs@[j2].0.0 as int] is Out)),
        decreases form.eqs@.len() - j,
    {
        let (a, b) = form.eqs[j];
        let ta = match form.slots[b.0] {
            Slot::Out => true,
            _ => false,
        };
        let tb = match form.slots[a.0] {
            Slot::Out => true,
            _ => false,
        };
        if (a.0 == s && ta) || (b.0 == s && tb) {
            return true;
        }
        j += 1;
    }
    false
}

/// Whether the form with binding `b` can be emitted, as `emittable` says.
fn emittable_exec(form: &InstrDef, b: &Vec<Option<Var>>, env: &Env, needed: &Vec<bool>, prog: &Vec<Instr>, from: usize) -> (o: bool)
    requires
        form.wf(),
        b@.len() == form.slots@.len(),
        needed_for(needed@, prog@, from as int, *env),
    ensures
        o == emittable(*form, b@, prog@, from as int, *env),
{
    let mut s: usize = 0;
    while s < form.slots.len()
        invariant
            form.wf(),
            b@.len() == form.slots@.len(),
            needed_for(needed@, prog@, from as int, *env),
            s <= form.slots@.len(),
            forall|s2: int| 0 <= s2 < s ==> #[trigger] slot_ok(*form, b@, s2, prog@, from as int, *env),
        decreases form.slots@.len() - s,
    {
        let ok = match form.slots[s] {
            Slot::Param(p) => match b[s] {
                Some(v) => param_ok_exec(p, v, env, needed, prog, from) && (!tied_to_output_exec(form, s)
                    || !needed_after_exec(env, needed, v, prog, from)),
                None => scratch_ok_exec(p, env, needed, prog, from),
            },
            Slot::Out => match b[s] {
                Some(v) => has_home_exec(form, s) || !needed_after_exec(env, needed, v, prog, from),
                None => true,
            },
            Slot::Fixed(r) => !occupied_exec(env, needed, r, None, prog, from),
            Slot::Unused => true,
        };
        if !ok {
            assert(!slot_ok(*form, b@, s as int, prog@, from as int, *env));
            return false;
        }
        s += 1;
    }
    regs_suffice_exec(form, b, env, needed, prog, from)
}

fn needs_fresh_exec(form: &InstrDef, b: &Vec<Option<Var>>, s: usize, env: &Env, c: RegClass) -> (o: bool)
    requires
        b@.len() == form.slots@.len(),
        s < form.slots@.len(),
    ensures
        o == needs_fresh(*form, b@, s as int, *env, c),
{
    let same = match form.slots[s] {
        Slot::Param(Param::Class(d)) => d == c,
        _ => false,
    };
    if !same {
        return false;
    }
    match b[s] {
        None => true,
        Some(v) => !(match home_of_exec(env, v) {
            Home::Reg(r) => c.contains(r),
            _ => false,
        }),
    }
}

fn fresh_count_exec(form: &InstrDef, b: &Vec<Option<Var>>, env: &Env, c: RegClass) -> (n: usize)
    requires
        b@.len() == form.slots@.len(),
    ensures
        n == fresh_count(*form, b@, *env, c, form.slots@.len()),
{
    let mut n: usize = 0;
    let mut s: usize = 0;
    while s < form.slots.len()
        invariant
            b@.len() == form.slots@.len(),
            s <= form.slots@.len(),
            n == fresh_count(*form, b@, *env, c, s as nat),
            n <= s,
        decreases form.slots@.len() - s,
    {
        if needs_fresh_exec(form, b, s, env, c) {
            n += 1;
        }
        s += 1;
    }
    n
}

fn free_count_exec(env: &Env, needed: &Vec<bool>, c: RegClass, prog: &Vec<Instr>, from: usize) -> (n: usize)
    requires
        needed_for(needed@, prog@, from as int, *env),
    ensures
        n == free_count(prog@, from as int, *env, c, 64),
{
    let mut n: usize = 0;
    let mut id: u8 = 0;
    while id < 64
        invariant
            needed_for(needed@, prog@, from as int, *env),
            id <= 64,
            n == free_count(prog@, from as int, *env, c, id as nat),
            n <= id,
        decreases 64 - id,
    {
        let r = Reg { id };
        if c.contains(r) && !occupied_exec(env, needed, r, None, prog, from) {
            n += 1;
        }
        id += 1;
    }
    n
}

fn regs_suffice_exec(form: &InstrDef, b: &Vec<Option<Var>>, env: &Env, needed: &Vec<bool>, prog: &Vec<Instr>, from: usize) -> (o: bool)
    requires
        b@.len() == form.slots@.len(),
        needed_for(needed@, prog@, from as int, *env),
    ensures
        o == regs_suffice(*form, b@, prog@, from as int, *env),
{
    let mut s: usize = 0;
    while s < form.slots.len()
        invariant
            b@.len() == form.slots@.len(),
            needed_for(needed@, prog@, from as int, *env),
            s <= form.slots@.len(),
            forall|s2: int|
                0 <= s2 < s ==> (#[trigger] form.slots@[s2] matches Slot::Param(Param::Class(c)) ==> fresh_count(
                    *form,
                    b@,
                    *env,
                    c,
                    form.slots@.len(),
                ) <= free_count(prog@, from as int, *env, c, 64)),
        decreases form.slots@.len() - s,
    {
        match form.slots[s] {
            Slot::Param(Param::Class(c)) => {
                if fresh_count_exec(form, b, env, c) > free_count_exec(env, needed, c, prog, from) {
                    return false;
                }
            },
            _ => {},
        }
        s += 1;
    }
    true
}

fn needed_after_exec(env: &Env, needed: &Vec<bool>, v: Var, prog: &Vec<Instr>, from: usize) -> (o: bool)
    requires
        needed_for(needed@, prog@, from as int, *env),
    ensures
        o == needed_after(prog@, from as int, *env, v),
{
    if v.0 < needed.len() {
        needed[v.0]
    } else {
        is_needed(prog, from, env, v)
    }
}


/// Form `f` matches the `k` instructions from `c` and can then be emitted.
pub open spec fn accepts(spec: MachineSpec, f: int, prog: Seq<Instr>, c: int, k: nat, env: Env) -> bool {
    &&& 0 <= f < spec.forms@.len()
    &&& run(spec.forms@[f], prog, c, k) is Some
    &&& emittable(spec.forms@[f], run(spec.forms@[f], prog, c, k)->Some_0.1, prog, c + k, env)
}

/// Some form realises the `k` instructions from `c` at once.
pub open spec fn realizable(spec: MachineSpec, prog: Seq<Instr>, c: int, k: nat, env: Env) -> bool {
    exists|f: int| accepts(spec, f, prog, c, k, env)
}

/// A form still in the candidate set, with its matching state.
pub struct Candidate {
    pub form: usize,
    pub next: usize,
    pub bind: Vec<Option<Var>>,
}

/// The outcome of one selection: how many instructions from the cursor the
/// match consumes, and every form that can realise them, in table order.
pub struct Match {
    pub len: usize,
    pub candidates: Vec<Candidate>,
}

#[derive(Copy, Clone, Debug, PartialEq, Eq, Structural)]
pub enum SelectError {
    /// The cursor is past the last instruction.
    EndOfStream,
    /// No form realises the instruction at the cursor and can be emitted.
    Unrealizable,
}

/// Each entry of `cands` is a form with its state after `k` instructions from
/// `c`, in increasing form order.
pub open spec fn states_of(spec: MachineSpec, cands: Seq<Candidate>, prog: Seq<Instr>, c: int, k: nat) -> bool {
    &&& forall|i: int|
        0 <= i < cands.len() ==> (#[trigger] cands[i]).form < spec.forms@.len() && run(spec.forms@[cands[i].form as int], prog, c, k)
            == Some((cands[i].next as int, cands[i].bind@))
    &&& forall|i: int, j: int| 0 <= i < j < cands.len() ==> (#[trigger] cands[i]).form < (#[trigger] cands[j]).form
}

/// `cands` lists every form below `upto` that is still structurally consistent
/// after `k` instructions from `c`.
pub open spec fn lists_alive(spec: MachineSpec, cands: Seq<Candidate>, prog: Seq<Instr>, c: int, k: nat, upto: int) -> bool {
    &&& states_of(spec, cands, prog, c, k)
    &&& forall|f: int|
        0 <= f < upto && f < spec.forms@.len() && (#[trigger] run(spec.forms@[f], prog, c, k)) is Some ==> exists|i: int|
            0 <= i < cands.len() && (#[trigger] cands[i]).form == f
}

/// `cands` lists exactly the forms below `upto` that accept the `k`
/// instructions from `c`.
pub open spec fn lists_accepted(spec: MachineSpec, cands: Seq<Candidate>, prog: Seq<Instr>, c: int, k: nat, env: Env, upto: int) -> bool {
    &&& states_of(spec, cands, prog, c, k)
    &&& forall|i: int| 0 <= i < cands.len() ==> accepts(spec, (#[trigger] cands[i]).form as int, prog, c, k, env)
    &&& forall|f: int|
        0 <= f < upto && #[trigger] accepts(spec, f, prog, c, k, env) ==> exists|i: int|
            0 <= i < cands.len() && (#[trigger] cands[i]).form == f
}

fn empty_binding(n: usize) -> (b: Vec<Option<Var>>)
    ensures
        b@ == Seq::new(n as nat, |s: int| None::<Var>),
{
    let mut b: Vec<Option<Var>> = Vec::new();
    while b.len() < n
        invariant
            b@.len() <= n,
            forall|s: int| 0 <= s < b@.len() ==> b@[s] == None::<Var>,
        decreases n - b@.len(),
    {
        b.push(None);
    }
    assert(b@ =~= Seq::new(n as nat, |s: int| None::<Var>));
    b
}

/// Steps 1 and 2: the forms that match the instruction at the cursor.
fn initial_candidates(spec: &MachineSpec, prog: &Vec<Instr>, c: usize) -> (r: Vec<Candidate>)
    requires
        spec.wf(),
        c < prog@.len(),
    ensures
        lists_alive(*spec, r@, prog@, c as int, 1, spec.forms@.len() as int),
{
    let ins = &prog[c];
    let mut r: Vec<Candidate> = Vec::new();
    match spec.lookup(ins.op) {
        None => {
            assert forall|f: int| 0 <= f < spec.forms@.len() implies run(spec.forms@[f], prog@, c as int, 1) is None by {
                let form = spec.forms@[f];
                assert(run(form, prog@, c as int, 0) == Some(initial(form)));
                if run(form, prog@, c as int, 1) is Some {
                    lemma_find_step_uses(form, initial(form).1, prog@[c as int], 0);
                    let j = choose|j: int| 0 <= j < form.actions@.len() && form.actions@[j].op == ins.op;
                    assert(spec.forms@[f].actions@[j] == form.actions@[j]);
                }
            }
        },
        Some(e) => {
            let mut f: usize = 0;
            while f < spec.forms.len()
                invariant
                    spec.wf(),
                    c < prog@.len(),
                    *ins == prog@[c as int],
                    e < spec.index@.len(),
                    spec.index@[e as int].op == ins.op,
                    f <= spec.forms@.len(),
                    forall|i: int| 0 <= i < r@.len() ==> (#[trigger] r@[i]).form < f,
                    lists_alive(*spec, r@, prog@, c as int, 1, f as int),
                decreases spec.forms@.len() - f,
            {
                let form = &spec.forms[f];
                assert(form.wf());
                let ghost before = r@;
                if spec.index[e].forms.contains(f) {
                    let b = empty_binding(form.slots.len());
                    assert(run(*form, prog@, c as int, 0) == Some(initial(*form)));
                    match advance_exec(form, 0, &b, ins) {
                        Some(st) => {
                            r.push(Candidate { form: f, next: st.0, bind: st.1 });
                            assert(r@[r@.len() - 1].form == f);
                        },
                        None => {},
                    }
                } else {
                    proof {
                        assert(run(*form, prog@, c as int, 0) == Some(initial(*form)));
                        if run(*form, prog@, c as int, 1) is Some {
                            lemma_find_step_uses(*form, initial(*form).1, prog@[c as int], 0);
                        }
                    }
                }
                assert forall|g: int|
                    0 <= g < f + 1 && g < spec.forms@.len() && (#[trigger] run(spec.forms@[g], prog@, c as int, 1)) is Some
                        implies exists|i: int| 0 <= i < r@.len() && (#[trigger] r@[i]).form == g by {
                    if g < f {
                        let i = choose|i: int| 0 <= i < before.len() && (#[trigger] before[i]).form == g;
                        assert(r@[i] == before[i]);
                    } else {
                        assert(r@[r@.len() - 1].form == g);
                    }
                }
                f += 1;
            }
        },
    }
    r
}


/// Step 4: the candidates that also match the instruction at `c + k`, found
/// through the precomputed set of forms that use its operation and then by the
/// binding check.
fn refine(spec: &MachineSpec, cands: &Vec<Candidate>, prog: &Vec<Instr>, c: usize, k: usize) -> (r: Vec<Candidate>)
    requires
        spec.wf(),
        c + k < prog@.len(),
        lists_alive(*spec, cands@, prog@, c as int, k as nat, spec.forms@.len() as int),
    ensures
        lists_alive(*spec, r@, prog@, c as int, (k + 1) as nat, spec.forms@.len() as int),
{
    let n = prog.len();
    let ins = &prog[c + k];
    let mut r: Vec<Candidate> = Vec::new();
    let entry = spec.lookup(ins.op);
    let mut i: usize = 0;
    while i < cands.len()
        invariant
            spec.wf(),
            c + k < prog@.len(),
            *ins == prog@[c + k],
            lists_alive(*spec, cands@, prog@, c as int, k as nat, spec.forms@.len() as int),
            i <= cands@.len(),
            entry matches Some(e) ==> e < spec.index@.len() && spec.index@[e as int].op == ins.op,
            entry is None ==> forall|e: int| 0 <= e < spec.index@.len() ==> spec.index@[e].op != ins.op,
            states_of(*spec, r@, prog@, c as int, (k + 1) as nat),
            forall|j: int, i2: int| 0 <= j < r@.len() && i <= i2 < cands@.len() ==> (#[trigger] r@[j]).form < (#[trigger] cands@[i2]).form,
            forall|i2: int|
                0 <= i2 < i && run(spec.forms@[(#[trigger] cands@[i2]).form as int], prog@, c as int, (k + 1) as nat) is Some ==> exists|j: int|
                    0 <= j < r@.len() && (#[trigger] r@[j]).form == cands@[i2].form,
        decreases cands@.len() - i,
    {
        let cand = &cands[i];
        let f = cand.form;
        let form = &spec.forms[f];
        assert(form.wf());
        let ghost kk = (k + 1) as nat;
        assert(run(*form, prog@, c as int, k as nat) == Some((cand.next as int, cand.bind@)));
        assert(run(*form, prog@, c as int, kk) == advance(*form, (cand.next as int, cand.bind@), prog@[c + k]));
        proof {
            lemma_run_len(*form, prog@, c as int, k as nat);
        }
        let ghost before = r@;
        let in_mask = match entry {
            Some(e) => spec.index[e].forms.contains(f),
            None => false,
        };
        if in_mask {
            match advance_exec(form, cand.next, &cand.bind, ins) {
                Some(st) => {
                    r.push(Candidate { form: f, next: st.0, bind: st.1 });
                    assert(r@[r@.len() - 1].form == f);
                },
                None => {},
            }
        } else {
            proof {
                if run(*form, prog@, c as int, kk) is Some {
                    lemma_find_step_uses(*form, cand.bind@, prog@[c + k], cand.next as int);
                    let j = choose|j: int| 0 <= j < form.actions@.len() && form.actions@[j].op == ins.op;
                    assert(spec.forms@[f as int].actions@[j] == form.actions@[j]);
                }
            }
        }
        assert forall|i2: int|
            0 <= i2 < i + 1 && run(spec.forms@[(#[trigger] cands@[i2]).form as int], prog@, c as int, (k + 1) as nat) is Some implies exists|j: int|
                0 <= j < r@.len() && (#[trigger] r@[j]).form == cands@[i2].form by {
            if i2 < i {
                let j = choose|j: int| 0 <= j < before.len() && (#[trigger] before[j]).form == cands@[i2].form;
                assert(r@[j] == before[j]);
            } else {
                assert(r@[r@.len() - 1].form == cands@[i2].form);
            }
        }
        assert forall|j: int, i2: int| 0 <= j < r@.len() && i + 1 <= i2 < cands@.len() implies (#[trigger] r@[j]).form < (#[trigger] cands@[i2]).form by {
            if j < before.len() {
                assert(r@[j] == before[j]);
            }
        }
        i += 1;
    }
    assert forall|g: int|
        0 <= g < spec.forms@.len() && g < spec.forms@.len() && (#[trigger] run(spec.forms@[g], prog@, c as int, (k + 1) as nat)) is Some implies exists|j: int|
            0 <= j < r@.len() && (#[trigger] r@[j]).form == g by {
        assert(run(spec.forms@[g], prog@, c as int, k as nat) is Some);
        let i2 = choose|i2: int| 0 <= i2 < cands@.len() && (#[trigger] cands@[i2]).form == g;
    }
    r
}

proof fn lemma_run_len(form: InstrDef, prog: Seq<Instr>, c: int, k: nat)
    ensures
        run(form, prog, c, k) is Some ==> run(form, prog, c, k)->Some_0.1.len() == form.slots@.len(),
    decreases k,
{
    if k > 0 {
        lemma_run_len(form, prog, c, (k - 1) as nat);
        if let Some(st) = run(form, prog, c, (k - 1) as nat) {
            if advance(form, st, prog[c + k - 1]) is Some {
                lemma_find_step_uses(form, st.1, prog[c + k - 1], st.0);
            }
        }
    }
}

/// Step 6: the listed candidates that can be emitted after `k` instructions.
fn filter_accepted(spec: &MachineSpec, cands: &Vec<Candidate>, prog: &Vec<Instr>, c: usize, k: usize, env: &Env) -> (r: Vec<Candidate>)
    requires
        spec.wf(),
        c + k <= prog@.len(),
        lists_alive(*spec, cands@, prog@, c as int, k as nat, spec.forms@.len() as int),
    ensures
        lists_accepted(*spec, r@, prog@, c as int, k as nat, *env, spec.forms@.len() as int),
{
    let n = prog.len();
    let from = c + k;
    let needed = needed_table(prog, from, env);
    let mut r: Vec<Candidate> = Vec::new();
    let mut i: usize = 0;
    while i < cands.len()
        invariant
            spec.wf(),
            c + k <= prog@.len(),
            lists_alive(*spec, cands@, prog@, c as int, k as nat, spec.forms@.len() as int),
            needed_for(needed@, prog@, (c + k) as int, *env),
            from == c + k,
            i <= cands@.len(),
            states_of(*spec, r@, prog@, c as int, k as nat),
            forall|j: int| 0 <= j < r@.len() ==> accepts(*spec, (#[trigger] r@[j]).form as int, prog@, c as int, k as nat, *env),
            forall|j: int, i2: int| 0 <= j < r@.len() && i <= i2 < cands@.len() ==> (#[trigger] r@[j]).form < (#[trigger] cands@[i2]).form,
            forall|i2: int|
                0 <= i2 < i && accepts(*spec, (#[trigger] cands@[i2]).form as int, prog@, c as int, k as nat, *env) ==> exists|j: int|
                    0 <= j < r@.len() && (#[trigger] r@[j]).form == cands@[i2].form,
        decreases cands@.len() - i,
    {
        let cand = &cands[i];
        let form = &spec.forms[cand.form];
        assert(form.wf());
        proof {
            lemma_run_len(*form, prog@, c as int, k as nat);
        }
        let ghost before = r@;
        if emittable_exec(form, &cand.bind, env, &needed, prog, from) {
            r.push(Candidate { form: cand.form, next: cand.next, bind: cand.bind.clone() });
            assert(r@[r@.len() - 1].bind@ =~= cand.bind@);
            assert(r@[r@.len() - 1].form == cand.form);
        }
        assert forall|i2: int|
            0 <= i2 < i + 1 && accepts(*spec, (#[trigger] cands@[i2]).form as int, prog@, c as int, k as nat, *env) implies exists|j: int|
                0 <= j < r@.len() && (#[trigger] r@[j]).form == cands@[i2].form by {
            if i2 < i {
                let j = choose|j: int| 0 <= j < before.len() && (#[trigger] before[j]).form == cands@[i2].form;
                assert(r@[j] == before[j]);
            } else {
                assert(r@[r@.len() - 1].form == cands@[i2].form);
            }
        }
        assert forall|j: int, i2: int| 0 <= j < r@.len() && i + 1 <= i2 < cands@.len() implies (#[trigger] r@[j]).form < (#[trigger] cands@[i2]).form by {
            if j < before.len() {
                assert(r@[j] == before[j]);
            }
        }
        i += 1;
    }
    assert forall|g: int| 0 <= g < spec.forms@.len() && #[trigger] accepts(*spec, g, prog@, c as int, k as nat, *env) implies exists|j: int|
            0 <= j < r@.len() && (#[trigger] r@[j]).form == g by {
        assert(run(spec.forms@[g], prog@, c as int, k as nat) is Some);
        let i2 = choose|i2: int| 0 <= i2 < cands@.len() && (#[trigger] cands@[i2]).form == g;
    }
    r
}


/// What `select` returns for a cursor `c`: the longest greedy match length
/// and the forms that realise it.
pub open spec fn select_ok(spec: MachineSpec, prog: Seq<Instr>, c: int, env: Env, m: Match) -> bool {
    &&& c < prog.len()
    &&& 1 <= m.len
    &&& c + m.len <= prog.len()
    &&& forall|j: nat| 1 <= j <= m.len ==> #[trigger] realizable(spec, prog, c, j, env)
    &&& (c + m.len == prog.len() || !realizable(spec, prog, c, (m.len + 1) as nat, env))
    &&& lists_accepted(spec, m.candidates@, prog, c, m.len as nat, env, spec.forms@.len() as int)
}

proof fn lemma_accepted_realizable(spec: MachineSpec, cands: Seq<Candidate>, prog: Seq<Instr>, c: int, k: nat, env: Env)
    requires
        lists_accepted(spec, cands, prog, c, k, env, spec.forms@.len() as int),
    ensures
        realizable(spec, prog, c, k, env) == (cands.len() > 0),
{
    if cands.len() > 0 {
        assert(accepts(spec, cands[0].form as int, prog, c, k, env));
    }
    if realizable(spec, prog, c, k, env) {
        let f = choose|f: int| accepts(spec, f, prog, c, k, env);
        assert(exists|i: int| 0 <= i < cands.len() && (#[trigger] cands[i]).form == f);
    }
}

/// Selects the next instruction at cursor `c` (steps 1 to 6): the candidate
/// set starts with the forms that match the instruction at `c` and is refined
/// one instruction at a time for as long as some candidate can still be
/// emitted. The match never rewinds: it stops at the first length that no form
/// can emit, and keeps the length before it.
pub fn select(spec: &MachineSpec, prog: &Vec<Instr>, c: usize, env: &Env) -> (r: Result<Match, SelectError>)
    requires
        spec.wf(),
    ensures
        match r {
            Ok(m) => select_ok(*spec, prog@, c as int, *env, m),
            Err(SelectError::EndOfStream) => c >= prog@.len(),
            Err(SelectError::Unrealizable) => c < prog@.len() && !realizable(*spec, prog@, c as int, 1, *env),
        },
{
    let n = prog.len();
    if c >= n {
        return Err(SelectError::EndOfStream);
    }
    let mut cands = initial_candidates(spec, prog, c);
    let mut acc = filter_accepted(spec, &cands, prog, c, 1, env);
    proof {
        lemma_accepted_realizable(*spec, acc@, prog@, c as int, 1, *env);
    }
    if acc.len() == 0 {
        return Err(SelectError::Unrealizable);
    }
    let mut len: usize = 1;
    let mut stopped = false;
    while c + len < n && !stopped
        invariant
            spec.wf(),
            n == prog@.len(),
            c < n,
            1 <= len,
            c + len <= n,
            lists_alive(*spec, cands@, prog@, c as int, len as nat, spec.forms@.len() as int),
            lists_accepted(*spec, acc@, prog@, c as int, len as nat, *env, spec.forms@.len() as int),
            forall|j: nat| 1 <= j <= len ==> #[trigger] realizable(*spec, prog@, c as int, j, *env),
            stopped ==> !realizable(*spec, prog@, c as int, (len + 1) as nat, *env),
        decreases n - len, if stopped { 0int } else { 1int },
    {
        let next = refine(spec, &cands, prog, c, len);
        let next_acc = filter_accepted(spec, &next, prog, c, len + 1, env);
        proof {
            lemma_accepted_realizable(*spec, next_acc@, prog@, c as int, (len + 1) as nat, *env);
        }
        if next_acc.len() == 0 {
            stopped = true;
        } else {
            cands = next;
            acc = next_acc;
            len = len + 1;
        }
    }
    Ok(Match { len, candidates: acc })
}


/// The cost of form `f` in a target's cost table; a form without an entry
/// costs the most.
pub open spec fn cost_of(costs: Seq<u64>, f: int) -> u64 {
    if 0 <= f < costs.len() {
        costs[f]
    } else {
        u64::MAX
    }
}

impl Match {
    /// Step 7, with the policy given as data: the candidate whose form has the
    /// lowest cost, the first in table order among equal costs.
    pub fn best(&self, costs: &Vec<u64>) -> (r: Option<usize>)
        ensures
            match r {
                None => self.candidates@.len() == 0,
                Some(i) => {
                    &&& i < self.candidates@.len()
                    &&& forall|j: int|
                        0 <= j < self.candidates@.len() ==> cost_of(costs@, self.candidates@[i as int].form as int) <= cost_of(
                            costs@,
                            #[trigger] self.candidates@[j].form as int,
                        )
                    &&& forall|j: int|
                        0 <= j < i ==> cost_of(costs@, self.candidates@[i as int].form as int) < cost_of(
                            costs@,
                            #[trigger] self.candidates@[j].form as int,
                        )
                },
            },
    {
        if self.candidates.len() == 0 {
            return None;
        }
        let mut bi: usize = 0;
        let mut bc: u64 = cost_exec(costs, self.candidates[0].form);
        let mut j: usize = 1;
        while j < self.candidates.len()
            invariant
                1 <= j <= self.candidates@.len(),
                bi < j,
                bc == cost_of(costs@, self.candidates@[bi as int].form as int),
                forall|j2: int| 0 <= j2 < j ==> bc <= cost_of(costs@, #[trigger] self.candidates@[j2].form as int),
                forall|j2: int| 0 <= j2 < bi ==> bc < cost_of(costs@, #[trigger] self.candidates@[j2].form as int),
            decreases self.candidates@.len() - j,
        {
            let cj = cost_exec(costs, self.candidates[j].form);
            if cj < bc {
                bi = j;
                bc = cj;
            }
            j += 1;
        }
        Some(bi)
    }
}

fn cost_exec(costs: &Vec<u64>, f: usize) -> (r: u64)
    ensures
        r == cost_of(costs@, f as int),
{
    if f < costs.len() {
        costs[f]
    } else {
        u64::MAX
    }
}

pub open spec fn strictly_sorted(s: Seq<usize>) -> bool {
    forall|x: int, y: int| 0 <= x < y < s.len() ==> s[x] < s[y]
}

proof fn lemma_sorted_prefix(a: Seq<usize>, b: Seq<usize>, i: int)
    requires
        strictly_sorted(a),
        strictly_sorted(b),
        forall|v: usize| a.contains(v) == b.contains(v),
        0 <= i <= a.len(),
        i <= b.len(),
    ensures
        forall|j: int| 0 <= j < i ==> a[j] == b[j],
    decreases i,
{
    if i > 0 {
        let j = i - 1;
        lemma_sorted_prefix(a, b, j);
        assert(a.contains(a[j]));
        assert(b.contains(b[j]));
        let p = choose|y: int| 0 <= y < b.len() && b[y] == a[j];
        let q = choose|x: int| 0 <= x < a.len() && a[x] == b[j];
        if p < j {
            assert(a[p] == b[p]);
        }
        if q < j {
            assert(a[q] == b[q]);
        }
    }
}

proof fn lemma_sorted_same(a: Seq<usize>, b: Seq<usize>)
    requires
        strictly_sorted(a),
        strictly_sorted(b),
        forall|v: usize| a.contains(v) == b.contains(v),
    ensures
        a == b,
{
    let n = if a.len() < b.len() { a.len() } else { b.len() };
    lemma_sorted_prefix(a, b, n as int);
    if a.len() > n {
        assert(a.contains(a[n as int]));
        let p = choose|y: int| 0 <= y < b.len() && b[y] == a[n as int];
        assert(a[p] == b[p]);
    }
    if b.len() > n {
        assert(b.contains(b[n as int]));
        let q = choose|x: int| 0 <= x < a.len() && a[x] == b[n as int];
        assert(a[q] == b[q]);
    }
    assert(a =~= b);
}

/// The forms of a candidate list, in order.
pub open spec fn forms_of(cands: Seq<Candidate>) -> Seq<usize> {
    cands.map_values(|x: Candidate| x.form)
}

/// Determinism: two results that `select` may return for the same table,
/// stream, cursor and allocator state are the same match: the same length and
/// the same candidate forms in the same order, with the same states.
pub proof fn lemma_select_deterministic(spec: MachineSpec, prog: Seq<Instr>, c: int, env: Env, m1: Match, m2: Match)
    requires
        select_ok(spec, prog, c, env, m1),
        select_ok(spec, prog, c, env, m2),
    ensures
        m1.len == m2.len,
        m1.candidates@.len() == m2.candidates@.len(),
        forall|i: int|
            0 <= i < m1.candidates@.len() ==> (#[trigger] m1.candidates@[i]).form == m2.candidates@[i].form
                && m1.candidates@[i].next == m2.candidates@[i].next && m1.candidates@[i].bind@ == m2.candidates@[i].bind@,
{
    if m1.len < m2.len {
        assert(realizable(spec, prog, c, (m1.len + 1) as nat, env));
    }
    if m2.len < m1.len {
        assert(realizable(spec, prog, c, (m2.len + 1) as nat, env));
    }
    let a = m1.candidates@;
    let b = m2.candidates@;
    let fa = forms_of(a);
    let fb = forms_of(b);
    assert forall|v: usize| fa.contains(v) implies fb.contains(v) by {
        let x = choose|x: int| 0 <= x < fa.len() && fa[x] == v;
        assert(a[x].form == v);
        assert(accepts(spec, a[x].form as int, prog, c, m1.len as nat, env));
        let y = choose|y: int| 0 <= y < b.len() && (#[trigger] b[y]).form == v;
        assert(fb[y] == v);
    }
    assert forall|v: usize| fb.contains(v) implies fa.contains(v) by {
        let y = choose|y: int| 0 <= y < fb.len() && fb[y] == v;
        assert(b[y].form == v);
        assert(accepts(spec, b[y].form as int, prog, c, m2.len as nat, env));
        let x = choose|x: int| 0 <= x < a.len() && (#[trigger] a[x]).form == v;
        assert(fa[x] == v);
    }
    assert(strictly_sorted(fa)) by {
        assert forall|x: int, y: int| 0 <= x < y < fa.len() implies fa[x] < fa[y] by {
            assert(a[x].form < a[y].form);
        }
    }
    assert(strictly_sorted(fb)) by {
        assert forall|x: int, y: int| 0 <= x < y < fb.len() implies fb[x] < fb[y] by {
            assert(b[x].form < b[y].form);
        }
    }
    lemma_sorted_same(fa, fb);
    assert forall|i: int| 0 <= i < a.len() implies (#[trigger] a[i]).form == b[i].form && a[i].next == b[i].next && a[i].bind@ == b[i].bind@ by {
        assert(fa[i] == fb[i]);
        assert(run(spec.forms@[a[i].form as int], prog, c, m1.len as nat) == Some((a[i].next as int, a[i].bind@)));
        assert(run(spec.forms@[b[i].form as int], prog, c, m2.len as nat) == Some((b[i].next as int, b[i].bind@)));
    }
}

/// Single-operation floor: where some form realises the instruction at the
/// cursor on its own and can be emitted, selection cannot fail there; when that
/// instruction is the last of the stream the match consumes exactly it, and
/// that form is among the candidates.
pub proof fn lemma_single_op_floor(spec: MachineSpec, prog: Seq<Instr>, c: int, env: Env, f: int, m: Match)
    requires
        0 <= c < prog.len(),
        accepts(spec, f, prog, c, 1, env),
    ensures
        realizable(spec, prog, c, 1, env),
        select_ok(spec, prog, c, env, m) && c + 1 == prog.len() ==> m.len == 1 && exists|i: int|
            0 <= i < m.candidates@.len() && (#[trigger] m.candidates@[i]).form == f,
{
    if select_ok(spec, prog, c, env, m) && c + 1 == prog.len() {
        assert(f < spec.forms@.len());
    }
}

/// Clobber rejection: no form that `select` offers writes a register, as a
/// side effect or as a fixed output location, that holds a value still needed
/// after the match; no operand that the form overwrites with its result holds
/// a value needed after the match; and no output that the form keeps internal
/// is needed after the match.
pub proof fn lemma_no_live_value_lost(spec: MachineSpec, prog: Seq<Instr>, c: int, env: Env, m: Match, i: int, s: int)
    requires
        select_ok(spec, prog, c, env, m),
        0 <= i < m.candidates@.len(),
        0 <= s < spec.forms@[m.candidates@[i].form as int].slots@.len(),
    ensures
        ({
            let form = spec.forms@[m.candidates@[i].form as int];
            let b = m.candidates@[i].bind@;
            let end = c + m.len;
            &&& form.slots@[s] matches Slot::Fixed(r) ==> !occupied(prog, end, env, r, None)
            &&& form.slots@[s] matches Slot::Param(Param::Reg(r)) ==> (b[s] is None ==> !occupied(prog, end, env, r, None))
            &&& (form.slots@[s] is Out && b[s] is Some && !has_home(form, s)) ==> !needed_after(prog, end, env, b[s]->Some_0)
            &&& (form.slots@[s] is Param && b[s] is Some && tied_to_output(form, s)) ==> !needed_after(prog, end, env, b[s]->Some_0)
        }),
{
    let cand = m.candidates@[i];
    assert(accepts(spec, cand.form as int, prog, c, m.len as nat, env));
    assert(slot_ok(spec.forms@[cand.form as int], cand.bind@, s, prog, c + m.len, env));
}

/// Step `a` of form `f` performs `g` on `n` parameter slots and puts its
/// result, through distinct input slots, in a fixed register or in a slot
/// tied to a parameter (a store's
/// result is never read, and may stay internal).
pub open spec fn single_step(f: InstrDef, a: Action, g: Generic, n: nat) -> bool {
    &&& a.op == g
    &&& a.inputs@.len() == n
    &&& forall|k: int| 0 <= k < n ==> a.inputs@[k].0 < f.slots@.len() && is_param(#[trigger] f.slots@[a.inputs@[k].0 as int])
    &&& forall|k1: int, k2: int| 0 <= k1 < k2 < n ==> a.inputs@[k1] != a.inputs@[k2]
    &&& a.out.0 < f.slots@.len()
    &&& !is_param(f.slots@[a.out.0 as int])
    &&& (f.slots@[a.out.0 as int] is Fixed || has_home(f, a.out.0 as int) || g is Store)
}

/// Form `f` can realise an instruction `g` with `n` inputs on its own.
pub open spec fn realizes_alone(f: InstrDef, g: Generic, n: nat) -> bool {
    exists|j: int| 0 <= j < f.actions@.len() && #[trigger] single_step(f, f.actions@[j], g, n)
}

/// Some form of the table realises `g` with `n` inputs on its own.
pub open spec fn has_single_form(forms: Seq<InstrDef>, g: Generic, n: nat) -> bool {
    exists|f: int| 0 <= f < forms.len() && #[trigger] realizes_alone(forms[f], g, n)
}

/// A table that only grew keeps its single-operation forms.
pub proof fn lemma_single_forms_kept(before: Seq<InstrDef>, after: Seq<InstrDef>)
    requires
        before.len() <= after.len(),
        forall|i: int| 0 <= i < before.len() ==> after[i] == before[i],
    ensures
        forall|g: Generic, n: nat| #[trigger] has_single_form(before, g, n) ==> has_single_form(after, g, n),
{
    assert forall|g: Generic, n: nat| #[trigger] has_single_form(before, g, n) implies has_single_form(after, g, n) by {
        let f = choose|f: int| 0 <= f < before.len() && #[trigger] realizes_alone(before[f], g, n);
        assert(after[f] == before[f]);
    }
}

/// Equality `j` of the form gives slot `s` a home.
pub proof fn lemma_home_from_eq(form: InstrDef, s: int, j: int)
    requires
        0 <= j < form.eqs@.len(),
        form.eqs@[j].1.0 == s,
        is_param(form.slots@[form.eqs@[j].0.0 as int]),
    ensures
        has_home(form, s),
{
    assert(form.eqs@[j].0.0 == s && is_param(form.slots@[form.eqs@[j].1.0 as int]) || form.eqs@[j].1.0 == s && is_param(form.slots@[form.eqs@[j].0.0 as int]));
}

proof fn lemma_bind_all_fresh(form: InstrDef, b: Binding, ss: Seq<Var>, vs: Seq<Var>)
    requires
        ss.len() == vs.len(),
        b.len() == form.slots@.len(),
        forall|k: int| 0 <= k < ss.len() ==> (#[trigger] ss[k]).0 < b.len() && is_param(form.slots@[ss[k].0 as int]) && b[ss[k].0 as int] is None,
        forall|k1: int, k2: int| 0 <= k1 < k2 < ss.len() ==> ss[k1] != ss[k2],
        forall|t: int| 0 <= t < b.len() && b[t] is Some ==> is_param(#[trigger] form.slots@[t]),
    ensures
        bind_all(form, b, ss, vs) is Some,
        bind_all(form, b, ss, vs)->Some_0.len() == b.len(),
        forall|t: int|
            0 <= t < b.len() && bind_all(form, b, ss, vs)->Some_0[t] is Some ==> is_param(#[trigger] form.slots@[t]),
    decreases ss.len(),
{
    if ss.len() > 0 {
        let s0 = ss[0];
        assert(s0.0 < b.len() && is_param(form.slots@[s0.0 as int]) && b[s0.0 as int] is None);
        assert(!produced(form, b, vs[0]));
        let b2 = b.update(s0.0 as int, Some(vs[0]));
        assert(bind_input(form, b, s0, vs[0]) == Some(b2));
        let rest = ss.drop_first();
        assert forall|k: int| 0 <= k < rest.len() implies (#[trigger] rest[k]).0 < b2.len() && is_param(form.slots@[rest[k].0 as int]) && b2[rest[k].0 as int] is None by {
            assert(rest[k] == ss[k + 1]);
            assert(ss[0] != ss[k + 1]);
        }
        assert forall|k1: int, k2: int| 0 <= k1 < k2 < rest.len() implies rest[k1] != rest[k2] by {
            assert(rest[k1] == ss[k1 + 1] && rest[k2] == ss[k2 + 1]);
        }
        lemma_bind_all_fresh(form, b2, rest, vs.drop_first());
    }
}

proof fn lemma_find_step_reaches(form: InstrDef, b: Binding, ins: Instr, j0: int, j: int)
    requires
        0 <= j0 <= j < form.actions@.len(),
        try_action(form, b, form.actions@[j], ins) is Some,
    ensures
        find_step(form, b, ins, j0) is Some,
    decreases j - j0,
{
    if j0 < j && try_action(form, b, form.actions@[j0], ins) is None {
        lemma_find_step_reaches(form, b, ins, j0 + 1, j);
    }
}

/// A form that realises an operation on its own matches any instruction of
/// that operation with that number of inputs: the candidate survives the
/// first step of selection.
pub proof fn lemma_single_form_matches(f: InstrDef, prog: Seq<Instr>, c: int)
    requires
        0 <= c < prog.len(),
        f.wf(),
        realizes_alone(f, prog[c].op, prog[c].inputs@.len()),
    ensures
        run(f, prog, c, 1) is Some,
{
    let ins = prog[c];
    let j = choose|j: int| 0 <= j < f.actions@.len() && #[trigger] single_step(f, f.actions@[j], ins.op, ins.inputs@.len());
    let a = f.actions@[j];
    let b = initial(f).1;
    assert(run(f, prog, c, 0) == Some(initial(f)));
    lemma_bind_all_fresh(f, b, a.inputs@, ins.inputs@);
    let b2 = bind_all(f, b, a.inputs@, ins.inputs@)->Some_0;
    assert(b2[a.out.0 as int] is None);
    assert(try_action(f, b, a, ins) is Some);
    lemma_find_step_reaches(f, b, ins, 0, j);
}

} // verus!
