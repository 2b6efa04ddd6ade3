//! The machine-specification model: registers, parameter constraints,
//! instruction forms, and the builder that declares them.
use crate::actions::Generic;
use crate::bitset::{lemma_set_bit, lemma_zero_word, word_bit, BitSet};
use vstd::prelude::*;

verus! {

/// A virtual register. In a Low IR stream it names the output of exactly one
/// instruction; inside an instruction form it names one slot of the form.
#[derive(Copy, Clone, Debug, PartialEq, Eq, Structural)]
pub struct Var(pub usize);

/// A named, fixed-size machine register, identified by a small number.
#[derive(Copy, Clone, Debug, PartialEq, Eq, Structural)]
pub struct Reg {
    pub id: u8,
}

/// A set of interchangeable registers: register `r` belongs to the class when
/// bit `r.id` of `mask` is set.
#[derive(Copy, Clone, Debug, PartialEq, Eq, Structural)]
pub struct RegClass {
    pub mask: u64,
}

impl RegClass {
    pub open spec fn has(self, r: Reg) -> bool {
        r.id < 64 && word_bit(self.mask, r.id as u64)
    }

    /// The class without registers.
    pub fn empty() -> (r: RegClass)
        ensures
            forall|x: Reg| !r.has(x),
    {
        let r = RegClass { mask: 0 };
        assert forall|x: Reg| !r.has(x) by {
            if x.id < 64 {
                lemma_zero_word(x.id as u64);
            }
        }
        r
    }

    /// This class with register `reg` added.
    pub fn with(self, reg: Reg) -> (r: RegClass)
        requires
            reg.id < 64,
        ensures
            forall|x: Reg| r.has(x) == (x == reg || self.has(x)),
    {
        let r = RegClass { mask: self.mask | (1u64 << (reg.id as u64)) };
        assert forall|x: Reg| r.has(x) == (x == reg || self.has(x)) by {
            if x.id < 64 {
                lemma_set_bit(self.mask, reg.id as u64, x.id as u64);
            }
        }
        r
    }

    /// Whether `reg` belongs to the class.
    pub fn contains(&self, reg: Reg) -> (r: bool)
        ensures
            r == self.has(reg),
    {
        reg.id < 64 && (self.mask >> (reg.id as u64)) & 1u64 == 1u64
    }
}

/// An immediate operand of the given width.
#[derive(Copy, Clone, Debug, PartialEq, Eq, Structural)]
pub struct Immediate {
    pub bits: u8,
}

/// The widths an immediate slot may declare.
pub open spec fn valid_imm_bits(bits: u8) -> bool {
    1 <= bits <= 64
}

/// The constraint on a parameter slot.
#[derive(Copy, Clone, Debug, PartialEq, Eq, Structural)]
pub enum Param {
    /// Exactly this register.
    Reg(Reg),
    /// Any register of the class.
    Class(RegClass),
    /// A constant that fits in the width.
    Imm(Immediate),
}

pub open spec fn valid_param(p: Param) -> bool {
    match p {
        Param::Imm(i) => valid_imm_bits(i.bits),
        _ => true,
    }
}

pub open spec fn slot_valid(k: Slot) -> bool {
    match k {
        Slot::Param(p) => valid_param(p),
        _ => true,
    }
}

/// What a slot of an instruction form is.
#[derive(Copy, Clone, Debug, PartialEq, Eq, Structural)]
pub enum Slot {
    /// An input (or output location) filled from outside the form.
    Param(Param),
    /// The output of an action with no location of its own: it is internal
    /// unless an equality ties it to a parameter slot.
    Out,
    /// The output of an action written into a fixed register (a flag, or a
    /// clobbered register).
    Fixed(Reg),
    /// A slot that belongs to another alternative of a variant set.
    Unused,
}

/// One operation step of a form: `out = op(inputs)`.
pub struct Action {
    pub op: Generic,
    pub inputs: Vec<Var>,
    pub out: Var,
}

/// A named instruction form: slots, operation steps in order, and equality
/// constraints between slots that must receive the same location.
pub struct InstrDef {
    pub name: &'static str,
    /// Which combination of variant alternatives this form was expanded from.
    pub variant: usize,
    pub slots: Vec<Slot>,
    pub actions: Vec<Action>,
    pub eqs: Vec<(Var, Var)>,
}

pub open spec fn vars_below(vs: Seq<Var>, n: int) -> bool {
    forall|i: int| 0 <= i < vs.len() ==> vs[i].0 < n
}

pub open spec fn action_below(a: Action, n: int) -> bool {
    a.out.0 < n && vars_below(a.inputs@, n)
}

impl InstrDef {
    /// Every slot that a step or an equality names exists.
    pub open spec fn wf(&self) -> bool {
        &&& forall|j: int| 0 <= j < self.actions@.len() ==> action_below(self.actions@[j], self.slots@.len() as int)
        &&& forall|j: int|
            0 <= j < self.eqs@.len() ==> self.eqs@[j].0.0 < self.slots@.len() && self.eqs@[j].1.0
                < self.slots@.len()
        &&& forall|s: int| 0 <= s < self.slots@.len() ==> slot_valid(#[trigger] self.slots@[s])
    }

    /// Whether some step of the form performs `op`.
    pub open spec fn uses(&self, op: Generic) -> bool {
        exists|j: int| 0 <= j < self.actions@.len() && self.actions@[j].op == op
    }
}

/// A copy of a list of variables.
pub fn copy_vars(v: &Vec<Var>) -> (r: Vec<Var>)
    ensures
        r@ == v@,
{
    let mut r: Vec<Var> = Vec::new();
    let mut i: usize = 0;
    while i < v.len()
        invariant
            i <= v@.len(),
            r@ == v@.subrange(0, i as int),
        decreases v@.len() - i,
    {
        r.push(v[i]);
        i += 1;
        assert(r@ =~= v@.subrange(0, i as int));
    }
    assert(r@ =~= v@);
    r
}

impl Action {
    pub fn copy(&self) -> (r: Action)
        ensures
            r.op == self.op,
            r.inputs@ == self.inputs@,
            r.out == self.out,
    {
        Action { op: self.op, inputs: copy_vars(&self.inputs), out: self.out }
    }
}


/// One declaration recorded by the builder.
pub enum Entry {
    /// Slot `.0` is of kind `.1`.
    Define(Var, Slot),
    /// An operation step.
    Act(Action),
    /// Two slots receive the same location.
    Same(Var, Var),
}

/// A declaration with the part of the form it belongs to: the common part, or
/// alternative `alt` of variant set `set`.
pub struct Record {
    pub common: bool,
    pub set: usize,
    pub alt: usize,
    pub entry: Entry,
}

/// Declares one instruction form step by step. Slots are numbered in order of
/// declaration; the slots of a variant set's alternatives share that numbering,
/// and each alternative later becomes a form of its own in which the slots of
/// the other alternatives are unused.
pub struct InstrBuilder {
    pub next: usize,
    pub records: Vec<Record>,
    /// For each variant set, how many alternatives it has.
    pub sets: Vec<usize>,
    /// Whether the last variant set is still open.
    pub open: bool,
}

pub open spec fn entry_below(e: Entry, n: int) -> bool {
    match e {
        Entry::Define(v, k) => v.0 < n && slot_valid(k),
        Entry::Act(a) => action_below(a, n),
        Entry::Same(a, b) => a.0 < n && b.0 < n,
    }
}

impl InstrBuilder {
    pub open spec fn wf(&self) -> bool {
        &&& forall|i: int| 0 <= i < self.records@.len() ==> entry_below(self.records@[i].entry, self.next as int)
        &&& self.open ==> self.sets@.len() > 0
        &&& self.sets@.len() <= 1
        &&& forall|i: int| 0 <= i < self.sets@.len() ==> self.sets@[i] >= 1
    }

    /// The record that a declaration made now gets.
    pub open spec fn tag(&self, e: Entry) -> Record {
        if self.open {
            Record { common: false, set: (self.sets@.len() - 1) as usize, alt: (self.sets@.last() - 1) as usize, entry: e }
        } else {
            Record { common: true, set: 0, alt: 0, entry: e }
        }
    }

    /// A builder with no slots.
    pub fn new() -> (r: InstrBuilder)
        ensures
            r.wf(),
            r.next == 0,
            r.records@.len() == 0,
            r.sets@.len() == 0,
            !r.open,
    {
        InstrBuilder { next: 0, records: Vec::new(), sets: Vec::new(), open: false }
    }

    fn record(&mut self, e: Entry)
        requires
            old(self).wf(),
            entry_below(e, old(self).next as int),
        ensures
            final(self).wf(),
            final(self).records@ == old(self).records@.push(old(self).tag(e)),
            final(self).next == old(self).next,
            final(self).sets@ == old(self).sets@,
            final(self).open == old(self).open,
    {
        let r = if self.open {
            let k = self.sets.len() - 1;
            let a = self.sets[k];
            Record { common: false, set: k, alt: a - 1, entry: e }
        } else {
            Record { common: true, set: 0, alt: 0, entry: e }
        };
        self.records.push(r);
    }
}


impl InstrBuilder {
    /// Declares a parameter slot with constraint `p`.
    pub fn param(&mut self, p: Param) -> (r: Var)
        requires
            old(self).wf(),
            valid_param(p),
            old(self).next < usize::MAX,
        ensures
            final(self).wf(),
            r == Var(old(self).next),
            final(self).next == old(self).next + 1,
            final(self).records@ == old(self).records@.push(old(self).tag(Entry::Define(r, Slot::Param(p)))),
            final(self).sets@ == old(self).sets@,
            final(self).open == old(self).open,
    {
        let r = Var(self.next);
        self.next = self.next + 1;
        self.record(Entry::Define(r, Slot::Param(p)));
        r
    }

    /// Declares that the already allocated slot `out` is a parameter with
    /// constraint `p` (a variant set's output that one alternative takes
    /// directly from a parameter).
    pub fn param_into(&mut self, out: Var, p: Param)
        requires
            old(self).wf(),
            valid_param(p),
            out.0 < old(self).next,
        ensures
            final(self).wf(),
            final(self).next == old(self).next,
            final(self).records@ == old(self).records@.push(old(self).tag(Entry::Define(out, Slot::Param(p)))),
            final(self).sets@ == old(self).sets@,
            final(self).open == old(self).open,
    {
        self.record(Entry::Define(out, Slot::Param(p)));
    }

    /// Declares the step `r = op(inputs)` with a fresh output slot `r`.
    pub fn action(&mut self, op: Generic, inputs: Vec<Var>) -> (r: Var)
        requires
            old(self).wf(),
            vars_below(inputs@, old(self).next as int),
            old(self).next < usize::MAX,
        ensures
            final(self).wf(),
            r == Var(old(self).next),
            final(self).next == old(self).next + 1,
            final(self).records@ == old(self).records@.push(old(self).tag(Entry::Define(r, Slot::Out))).push(
                old(self).tag(Entry::Act(Action { op, inputs, out: r })),
            ),
            final(self).sets@ == old(self).sets@,
            final(self).open == old(self).open,
    {
        let r = Var(self.next);
        self.next = self.next + 1;
        self.record(Entry::Define(r, Slot::Out));
        self.record(Entry::Act(Action { op, inputs, out: r }));
        r
    }

    /// Declares the step `out = op(inputs)` into the already allocated slot `out`.
    pub fn action_into(&mut self, out: Var, op: Generic, inputs: Vec<Var>)
        requires
            old(self).wf(),
            vars_below(inputs@, old(self).next as int),
            out.0 < old(self).next,
        ensures
            final(self).wf(),
            final(self).next == old(self).next,
            final(self).records@ == old(self).records@.push(old(self).tag(Entry::Define(out, Slot::Out))).push(
                old(self).tag(Entry::Act(Action { op, inputs, out })),
            ),
            final(self).sets@ == old(self).sets@,
            final(self).open == old(self).open,
    {
        self.record(Entry::Define(out, Slot::Out));
        self.record(Entry::Act(Action { op, inputs, out }));
    }

    /// Declares the step `reg = op(inputs)`: a side effect on a fixed register.
    pub fn action_to_reg(&mut self, reg: Reg, op: Generic, inputs: Vec<Var>)
        requires
            old(self).wf(),
            vars_below(inputs@, old(self).next as int),
            old(self).next < usize::MAX,
        ensures
            final(self).wf(),
            final(self).next == old(self).next + 1,
            final(self).records@ == old(self).records@.push(
                old(self).tag(Entry::Define(Var(old(self).next), Slot::Fixed(reg))),
            ).push(old(self).tag(Entry::Act(Action { op, inputs, out: Var(old(self).next) }))),
            final(self).sets@ == old(self).sets@,
            final(self).open == old(self).open,
    {
        let r = Var(self.next);
        self.next = self.next + 1;
        self.record(Entry::Define(r, Slot::Fixed(reg)));
        self.record(Entry::Act(Action { op, inputs, out: r }));
    }

    /// Declares that slots `a` and `b` receive the same location.
    pub fn eq(&mut self, a: Var, b: Var)
        requires
            old(self).wf(),
            a.0 < old(self).next,
            b.0 < old(self).next,
        ensures
            final(self).wf(),
            final(self).next == old(self).next,
            final(self).records@ == old(self).records@.push(old(self).tag(Entry::Same(a, b))),
            final(self).sets@ == old(self).sets@,
            final(self).open == old(self).open,
    {
        self.record(Entry::Same(a, b));
    }

    /// Opens the form's variant set with `n` shared outputs and starts its
    /// first alternative. The outputs are slots that each alternative defines.
    /// A form has at most one variant set.
    pub fn variants(&mut self, n: usize) -> (r: Vec<Var>)
        requires
            old(self).wf(),
            old(self).sets@.len() == 0,
            old(self).next + n <= usize::MAX,
        ensures
            final(self).wf(),
            final(self).open,
            final(self).next == old(self).next + n,
            r@.len() == n,
            forall|i: int| 0 <= i < n ==> r@[i] == Var((old(self).next + i) as usize),
            final(self).records@ == old(self).records@,
            final(self).sets@ == old(self).sets@.push(1),
    {
        let mut r: Vec<Var> = Vec::new();
        let mut i: usize = 0;
        while i < n
            invariant
                i <= n,
                self.next == old(self).next + i,
                self.records@ == old(self).records@,
                self.sets@ == old(self).sets@,
                self.open == old(self).open,
                old(self).next + n <= usize::MAX,
                old(self).wf(),
                r@.len() == i,
                forall|k: int| 0 <= k < i ==> r@[k] == Var((old(self).next + k) as usize),
            decreases n - i,
        {
            r.push(Var(self.next));
            self.next = self.next + 1;
            i += 1;
        }
        self.sets.push(1);
        self.open = true;
        assert forall|k: int| 0 <= k < self.records@.len() implies entry_below(
            self.records@[k].entry,
            self.next as int,
        ) by {
            assert(entry_below(old(self).records@[k].entry, old(self).next as int));
            match self.records@[k].entry {
                Entry::Act(a) => {
                    assert(forall|j: int| 0 <= j < a.inputs@.len() ==> a.inputs@[j].0 < old(self).next);
                },
                _ => {},
            }
        }
        r
    }

    /// Starts the next alternative of the open variant set.
    pub fn or(&mut self)
        requires
            old(self).wf(),
            old(self).open,
            old(self).sets@.last() < usize::MAX,
        ensures
            final(self).wf(),
            final(self).open,
            final(self).next == old(self).next,
            final(self).records@ == old(self).records@,
            final(self).sets@ == old(self).sets@.update(
                old(self).sets@.len() - 1,
                (old(self).sets@.last() + 1) as usize,
            ),
    {
        let k = self.sets.len() - 1;
        let a = self.sets[k];
        self.sets.set(k, a + 1);
    }

    /// Closes the open variant set.
    pub fn finish_variants(&mut self)
        requires
            old(self).wf(),
        ensures
            final(self).wf(),
            !final(self).open,
            final(self).next == old(self).next,
            final(self).records@ == old(self).records@,
            final(self).sets@ == old(self).sets@,
    {
        self.open = false;
    }

    /// The form for alternative `alt` of the variant set (any value when the
    /// form has none).
    fn expand(&self, name: &'static str, alt: usize, variant: usize) -> (r: InstrDef)
        requires
            self.wf(),
        ensures
            r.wf(),
            r.name == name,
            r.variant == variant,
            is_expansion(r, *self, alt),
    {
        let mut slots: Vec<Slot> = Vec::new();
        while slots.len() < self.next
            invariant
                slots@.len() <= self.next,
                forall|s: int| 0 <= s < slots@.len() ==> slots@[s] == Slot::Unused,
            decreases self.next - slots@.len(),
        {
            slots.push(Slot::Unused);
        }
        assert(slots@ =~= expand_slots(self.records@, alt, self.next as nat, 0));
        let mut actions: Vec<Action> = Vec::new();
        let mut eqs: Vec<(Var, Var)> = Vec::new();
        let mut i: usize = 0;
        while i < self.records.len()
            invariant
                self.wf(),
                i <= self.records@.len(),
                slots@.len() == self.next,
                slots@ == expand_slots(self.records@, alt, self.next as nat, i as nat),
                eqs@ == expand_eqs(self.records@, alt, i as nat),
                actions@.len() == expand_actions(self.records@, alt, i as nat).len(),
                forall|j: int| 0 <= j < actions@.len() ==> same_action(actions@[j], #[trigger] expand_actions(self.records@, alt, i as nat)[j]),
                forall|j: int| 0 <= j < actions@.len() ==> action_below(actions@[j], self.next as int),
                forall|j: int| 0 <= j < eqs@.len() ==> eqs@[j].0.0 < self.next && eqs@[j].1.0 < self.next,
                forall|s: int| 0 <= s < slots@.len() ==> slot_valid(#[trigger] slots@[s]),
            decreases self.records@.len() - i,
        {
            let rec = &self.records[i];
            assert(entry_below(rec.entry, self.next as int));
            let ghost prev_actions = expand_actions(self.records@, alt, i as nat);
            let inc = rec.common || (rec.set == 0 && rec.alt == alt);
            if inc {
                match &rec.entry {
                    Entry::Define(v, k) => {
                        slots.set(v.0, *k);
                    },
                    Entry::Act(a) => {
                        actions.push(a.copy());
                    },
                    Entry::Same(a, b) => {
                        eqs.push((*a, *b));
                    },
                }
            }
            i += 1;
            assert forall|j: int| 0 <= j < actions@.len() implies same_action(actions@[j], #[trigger] expand_actions(self.records@, alt, i as nat)[j]) by {
                if j < prev_actions.len() {
                    assert(expand_actions(self.records@, alt, i as nat)[j] == prev_actions[j]);
                }
            }
        }
        InstrDef { name, variant, slots, actions, eqs }
    }

    /// Every form that the builder declares: one per alternative of its
    /// variant set, in order, or a single form when it has none.
    pub fn forms(&self, name: &'static str) -> (r: Vec<InstrDef>)
        requires
            self.wf(),
        ensures
            r@.len() == self.form_count(),
            forall|i: int|
                0 <= i < r@.len() ==> (#[trigger] r@[i]).wf() && r@[i].name == name && r@[i].variant == i && is_expansion(
                    r@[i],
                    *self,
                    i as usize,
                ),
    {
        let n: usize = if self.sets.len() == 0 { 1 } else { self.sets[0] };
        let mut r: Vec<InstrDef> = Vec::new();
        let mut i: usize = 0;
        while i < n
            invariant
                self.wf(),
                n == self.form_count(),
                i <= n,
                r@.len() == i,
                forall|j: int|
                    0 <= j < r@.len() ==> (#[trigger] r@[j]).wf() && r@[j].name == name && r@[j].variant == j && is_expansion(
                        r@[j],
                        *self,
                        j as usize,
                    ),
            decreases n - i,
        {
            let f = self.expand(name, i, i);
            r.push(f);
            i += 1;
        }
        r
    }

    /// How many forms the builder declares.
    pub open spec fn form_count(&self) -> nat {
        if self.sets@.len() == 0 {
            1
        } else {
            self.sets@[0] as nat
        }
    }
}

/// Whether a declaration belongs to the form for alternative `alt`.
pub open spec fn included(rec: Record, alt: usize) -> bool {
    rec.common || (rec.set == 0 && rec.alt == alt)
}

/// The slots of the form for alternative `alt` after the first `k`
/// declarations: each slot has the kind that the last included declaration
/// gave it, and is unused if none did.
pub open spec fn expand_slots(recs: Seq<Record>, alt: usize, next: nat, k: nat) -> Seq<Slot>
    decreases k,
{
    if k == 0 || k > recs.len() {
        Seq::new(next, |s: int| Slot::Unused)
    } else {
        let prev = expand_slots(recs, alt, next, (k - 1) as nat);
        let rec = recs[k - 1];
        if included(rec, alt) {
            match rec.entry {
                Entry::Define(v, kind) => if v.0 < prev.len() {
                    prev.update(v.0 as int, kind)
                } else {
                    prev
                },
                _ => prev,
            }
        } else {
            prev
        }
    }
}

/// The steps of the form for alternative `alt` among the first `k`
/// declarations, in order.
pub open spec fn expand_actions(recs: Seq<Record>, alt: usize, k: nat) -> Seq<Action>
    decreases k,
{
    if k == 0 || k > recs.len() {
        Seq::empty()
    } else {
        let prev = expand_actions(recs, alt, (k - 1) as nat);
        let rec = recs[k - 1];
        if included(rec, alt) {
            match rec.entry {
                Entry::Act(a) => prev.push(a),
                _ => prev,
            }
        } else {
            prev
        }
    }
}

/// The equalities of the form for alternative `alt` among the first `k`
/// declarations, in order.
pub open spec fn expand_eqs(recs: Seq<Record>, alt: usize, k: nat) -> Seq<(Var, Var)>
    decreases k,
{
    if k == 0 || k > recs.len() {
        Seq::empty()
    } else {
        let prev = expand_eqs(recs, alt, (k - 1) as nat);
        let rec = recs[k - 1];
        if included(rec, alt) {
            match rec.entry {
                Entry::Same(a, b) => prev.push((a, b)),
                _ => prev,
            }
        } else {
            prev
        }
    }
}

pub open spec fn same_action(x: Action, y: Action) -> bool {
    x.op == y.op && x.inputs@ == y.inputs@ && x.out == y.out
}

/// `f` is the form that builder `b` declares for alternative `alt`.
pub open spec fn is_expansion(f: InstrDef, b: InstrBuilder, alt: usize) -> bool {
    let n = b.records@.len();
    &&& f.slots@ == expand_slots(b.records@, alt, b.next as nat, n)
    &&& f.eqs@ == expand_eqs(b.records@, alt, n)
    &&& f.actions@.len() == expand_actions(b.records@, alt, n).len()
    &&& forall|j: int| 0 <= j < f.actions@.len() ==> same_action(f.actions@[j], #[trigger] expand_actions(b.records@, alt, n)[j])
}

/// The forms that use one operation, as a set of form indices.
pub struct OpEntry {
    pub op: Generic,
    pub forms: BitSet,
}

/// A target's table of instruction forms, with an index from each operation
/// to the set of forms that contain it.
pub struct MachineSpec {
    pub forms: Vec<InstrDef>,
    pub index: Vec<OpEntry>,
}

impl MachineSpec {
    /// Every form is well formed, and the index lists each operation once, with
    /// exactly the forms that use it; every operation of every form is listed.
    pub open spec fn wf(&self) -> bool {
        &&& forall|f: int| 0 <= f < self.forms@.len() ==> (#[trigger] self.forms@[f]).wf()
        &&& forall|e: int, f: int|
            0 <= e < self.index@.len() ==> (#[trigger] self.index@[e].forms.has(f) == (0 <= f
                < self.forms@.len() && self.forms@[f].uses(self.index@[e].op)))
        &&& forall|f: int, j: int|
            0 <= f < self.forms@.len() && 0 <= j < self.forms@[f].actions@.len() ==> exists|e: int|
                0 <= e < self.index@.len() && #[trigger] self.index@[e].op == (
                #[trigger] self.forms@[f].actions@[j]).op
        &&& forall|e1: int, e2: int|
            0 <= e1 < self.index@.len() && 0 <= e2 < self.index@.len() && e1 != e2 ==> #[trigger] self.index@[e1].op
                != #[trigger] self.index@[e2].op
    }

    /// The table without forms.
    pub fn new() -> (r: MachineSpec)
        ensures
            r.wf(),
            r.forms@.len() == 0,
    {
        MachineSpec { forms: Vec::new(), index: Vec::new() }
    }

    /// The index entry for `op`, if any form uses it.
    pub fn lookup(&self, op: Generic) -> (r: Option<usize>)
        ensures
            match r {
                Some(e) => e < self.index@.len() && self.index@[e as int].op == op,
                None => forall|e: int| 0 <= e < self.index@.len() ==> self.index@[e].op != op,
            },
    {
        let mut e: usize = 0;
        while e < self.index.len()
            invariant
                e <= self.index@.len(),
                forall|k: int| 0 <= k < e ==> self.index@[k].op != op,
            decreases self.index@.len() - e,
        {
            if self.index[e].op == op {
                return Some(e);
            }
            e += 1;
        }
        None
    }

    /// Appends one form and records its operations in the index.
    pub fn add_form(&mut self, f: InstrDef)
        requires
            old(self).wf(),
            f.wf(),
        ensures
            final(self).wf(),
            final(self).forms@ == old(self).forms@.push(f),
            forall|i: int| 0 <= i < old(self).forms@.len() ==> #[trigger] final(self).forms@[i] == old(self).forms@[i],
    {
        let n = self.forms.len();
        let mut j: usize = 0;
        while j < f.actions.len()
            invariant
                self.forms@ == old(self).forms@,
                n == self.forms@.len(),
                j <= f.actions@.len(),
                forall|g: int| 0 <= g < self.forms@.len() ==> (#[trigger] self.forms@[g]).wf(),
                forall|e: int, g: int|
                    0 <= e < self.index@.len() ==> (#[trigger] self.index@[e].forms.has(g) == ((0
                        <= g < n && self.forms@[g].uses(self.index@[e].op)) || (g == n && exists|k: int|
                        0 <= k < j && f.actions@[k].op == self.index@[e].op))),
                forall|g: int, k: int|
                    0 <= g < self.forms@.len() && 0 <= k < self.forms@[g].actions@.len() ==> exists|e: int|
                        0 <= e < self.index@.len() && #[trigger] self.index@[e].op == (
                        #[trigger] self.forms@[g].actions@[k]).op,
                forall|k: int|
                    0 <= k < j ==> exists|e: int|
                        0 <= e < self.index@.len() && #[trigger] self.index@[e].op == (
                        #[trigger] f.actions@[k]).op,
                forall|e1: int, e2: int|
                    0 <= e1 < self.index@.len() && 0 <= e2 < self.index@.len() && e1 != e2 ==> #[trigger] self.index@[e1].op
                        != #[trigger] self.index@[e2].op,
            decreases f.actions@.len() - j,
        {
            let op = f.actions[j].op;
            let ghost old_index = self.index@;
            match self.lookup(op) {
                Some(e) => {
                    let mut ent = self.index.remove(e);
                    ent.forms.insert(n);
                    self.index.insert(e, ent);
                    assert(self.index@ =~= old_index.update(e as int, ent));
                    assert forall|e2: int, g: int| 0 <= e2 < self.index@.len() implies
                        #[trigger] self.index@[e2].forms.has(g) == ((0 <= g < n && self.forms@[g].uses(
                        self.index@[e2].op)) || (g == n && exists|k: int|
                        0 <= k < j + 1 && f.actions@[k].op == self.index@[e2].op)) by {
                        if g == n && self.index@[e2].op == op {
                            assert(f.actions@[j as int].op == op);
                        }
                        if g == n && e2 != e {
                            if exists|k: int| 0 <= k < j + 1 && f.actions@[k].op == self.index@[e2].op {
                                let k = choose|k: int| 0 <= k < j + 1 && f.actions@[k].op == self.index@[e2].op;
                                if k == j {
                                    assert(old_index[e as int].op == op);
                                }
                            }
                        }
                    }
                    assert forall|g: int, k: int|
                        0 <= g < self.forms@.len() && 0 <= k < self.forms@[g].actions@.len() implies exists|e2: int|
                            0 <= e2 < self.index@.len() && #[trigger] self.index@[e2].op == (
                            #[trigger] self.forms@[g].actions@[k]).op by {
                        let e2 = choose|e2: int| 0 <= e2 < old_index.len() && #[trigger] old_index[e2].op == self.forms@[g].actions@[k].op;
                        assert(self.index@[e2].op == old_index[e2].op);
                    }
                    assert forall|k: int| 0 <= k < j + 1 implies exists|e2: int|
                            0 <= e2 < self.index@.len() && #[trigger] self.index@[e2].op == (
                            #[trigger] f.actions@[k]).op by {
                        if k == j {
                            assert(self.index@[e as int].op == f.actions@[k].op);
                        } else {
                            let e2 = choose|e2: int| 0 <= e2 < old_index.len() && #[trigger] old_index[e2].op == f.actions@[k].op;
                            assert(self.index@[e2].op == old_index[e2].op);
                        }
                    }
                },
                None => {
                    let mut b = BitSet::new();
                    b.insert(n);
                    let ent = OpEntry { op, forms: b };
                    self.index.push(ent);
                    assert(self.index@ =~= old_index.push(ent));
                    assert forall|e2: int, g: int| 0 <= e2 < self.index@.len() implies
                        #[trigger] self.index@[e2].forms.has(g) == ((0 <= g < n && self.forms@[g].uses(
                        self.index@[e2].op)) || (g == n && exists|k: int|
                        0 <= k < j + 1 && f.actions@[k].op == self.index@[e2].op)) by {
                        if e2 == old_index.len() {
                            assert(f.actions@[j as int].op == op);
                            if 0 <= g < n && self.forms@[g].uses(op) {
                                let k = choose|k: int| 0 <= k < self.forms@[g].actions@.len() && self.forms@[g].actions@[k].op == op;
                                let e3 = choose|e3: int| 0 <= e3 < old_index.len() && #[trigger] old_index[e3].op == self.forms@[g].actions@[k].op;
                                assert(false);
                            }
                            if g == n {
                                assert(exists|k: int| 0 <= k < j + 1 && f.actions@[k].op == self.index@[e2].op);
                            }
                        } else {
                            if g == n && exists|k: int| 0 <= k < j + 1 && f.actions@[k].op == self.index@[e2].op {
                                let k = choose|k: int| 0 <= k < j + 1 && f.actions@[k].op == self.index@[e2].op;
                                if k == j {
                                    assert(old_index[e2].op == op);
                                }
                            }
                        }
                    }
                    assert forall|g: int, k: int|
                        0 <= g < self.forms@.len() && 0 <= k < self.forms@[g].actions@.len() implies exists|e2: int|
                            0 <= e2 < self.index@.len() && #[trigger] self.index@[e2].op == (
                            #[trigger] self.forms@[g].actions@[k]).op by {
                        let e2 = choose|e2: int| 0 <= e2 < old_index.len() && #[trigger] old_index[e2].op == self.forms@[g].actions@[k].op;
                        assert(self.index@[e2].op == old_index[e2].op);
                    }
                    assert forall|k: int| 0 <= k < j + 1 implies exists|e2: int|
                            0 <= e2 < self.index@.len() && #[trigger] self.index@[e2].op == (
                            #[trigger] f.actions@[k]).op by {
                        if k == j {
                            assert(self.index@[old_index.len() as int].op == f.actions@[k].op);
                        } else {
                            let e2 = choose|e2: int| 0 <= e2 < old_index.len() && #[trigger] old_index[e2].op == f.actions@[k].op;
                            assert(self.index@[e2].op == old_index[e2].op);
                        }
                    }
                },
            }
            j += 1;
        }
        let ghost old_forms = self.forms@;
        self.forms.push(f);
        assert forall|e: int, g: int| 0 <= e < self.index@.len() implies (#[trigger] self.index@[e].forms.has(g) == (0 <= g
                < self.forms@.len() && self.forms@[g].uses(self.index@[e].op))) by {
            if g == n {
                assert(self.forms@[g] == f);
            } else if 0 <= g < n {
                assert(self.forms@[g] == old_forms[g]);
            }
        }
        assert forall|g: int, k: int|
            0 <= g < self.forms@.len() && 0 <= k < self.forms@[g].actions@.len() implies exists|e: int|
                0 <= e < self.index@.len() && #[trigger] self.index@[e].op == (
                #[trigger] self.forms@[g].actions@[k]).op by {
            if g == n {
                assert(self.forms@[g] == f);
            } else {
                assert(self.forms@[g] == old_forms[g]);
            }
        }
    }

    /// Closes the form that `b` declares under `name`: adds one form per
    /// alternative of its variant set, in order.
    pub fn instr(&mut self, name: &'static str, b: &InstrBuilder)
        requires
            old(self).wf(),
            b.wf(),
        ensures
            final(self).wf(),
            final(self).forms@.len() == old(self).forms@.len() + b.form_count(),
            final(self).forms@.subrange(0, old(self).forms@.len() as int) == old(self).forms@,
            forall|i: int| 0 <= i < old(self).forms@.len() ==> #[trigger] final(self).forms@[i] == old(self).forms@[i],
            forall|i: int|
                0 <= i < b.form_count() ==> (#[trigger] final(self).forms@[old(self).forms@.len() + i]).name == name
                    && final(self).forms@[old(self).forms@.len() + i].variant == i && is_expansion(
                    final(self).forms@[old(self).forms@.len() + i],
                    *b,
                    i as usize,
                ),
    {
        let mut fs = b.forms(name);
        let ghost orig = fs@;
        let ghost n0 = self.forms@.len();
        let mut i: usize = 0;
        while fs.len() > 0
            invariant
                self.wf(),
                orig.len() == b.form_count(),
                i <= orig.len(),
                fs@ == orig.subrange(i as int, orig.len() as int),
                n0 == old(self).forms@.len(),
                self.forms@.len() == n0 + i,
                self.forms@.subrange(0, n0 as int) == old(self).forms@,
                forall|j: int| 0 <= j < orig.len() ==> (#[trigger] orig[j]).wf() && orig[j].name == name && orig[j].variant == j && is_expansion(orig[j], *b, j as usize),
                forall|j: int| 0 <= j < i ==> #[trigger] self.forms@[n0 + j] == orig[j],
            decreases fs@.len(),
        {
            let ghost before = self.forms@;
            let f = fs.remove(0);
            assert(f == orig[i as int]);
            self.add_form(f);
            assert(self.forms@.subrange(0, n0 as int) =~= before.subrange(0, n0 as int));
            assert forall|j: int| 0 <= j < i + 1 implies #[trigger] self.forms@[n0 + j] == orig[j] by {
                if j < i {
                    assert(self.forms@[n0 + j] == before[n0 + j]);
                }
            }
            assert(fs@ =~= orig.subrange(i + 1, orig.len() as int));
            i += 1;
        }
    }
}



/// Step `a` is `out = op(inputs)`.
pub open spec fn action_is(a: Action, op: Generic, inputs: Seq<Var>, out: Var) -> bool {
    a.op == op && a.inputs@ == inputs && a.out == out
}

/// A property of slot kinds that every declaration of a builder has holds of
/// every slot of the forms it declares.
pub proof fn lemma_expand_slots_keep(recs: Seq<Record>, alt: usize, n: nat, k: nat, p: spec_fn(Slot) -> bool)
    requires
        p(Slot::Unused),
        forall|i: int| 0 <= i < recs.len() ==> (#[trigger] recs[i].entry matches Entry::Define(_, kind) ==> p(kind)),
    ensures
        forall|s: int| 0 <= s < expand_slots(recs, alt, n, k).len() ==> p(#[trigger] expand_slots(recs, alt, n, k)[s]),
    decreases k,
{
    let e = expand_slots(recs, alt, n, k);
    if k > 0 && k <= recs.len() {
        lemma_expand_slots_keep(recs, alt, n, (k - 1) as nat, p);
        let prev = expand_slots(recs, alt, n, (k - 1) as nat);
        assert(recs[k - 1].entry matches Entry::Define(_, kind) ==> p(kind));
        assert forall|s: int| 0 <= s < e.len() implies p(#[trigger] e[s]) by {
            assert(p(prev[s]));
        }
    } else {
        assert forall|s: int| 0 <= s < e.len() implies p(#[trigger] e[s]) by {
            assert(e[s] == Slot::Unused);
        }
    }
}

} // verus!
