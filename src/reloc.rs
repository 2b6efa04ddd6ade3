//! Code buffer with relocations: a form whose target is not known yet is
//! emitted as a zero-filled placeholder of the form's fixed size, and
//! overwritten in place once the target is known.
use vstd::prelude::*;

verus! {

/// A placeholder waiting for its final encoding.
pub struct Reloc {
    /// Where the placeholder starts in the buffer.
    pub offset: usize,
    /// The form whose encoding goes there.
    pub form: usize,
    /// The encoded size of that form.
    pub size: usize,
    /// The arguments already known when the placeholder was emitted.
    pub args: Vec<u64>,
}

/// Emitted machine code and the placeholders still open in it.
pub struct CodeBuffer {
    pub bytes: Vec<u8>,
    pub relocs: Vec<Reloc>,
}

/// `n` zero bytes.
pub open spec fn zeros(n: nat) -> Seq<u8> {
    Seq::new(n, |i: int| 0u8)
}

/// `b` with the bytes from `off` on overwritten by `code`.
pub open spec fn patched(b: Seq<u8>, off: int, code: Seq<u8>) -> Seq<u8> {
    b.subrange(0, off) + code + b.subrange(off + code.len(), b.len() as int)
}

impl CodeBuffer {
    /// An empty buffer.
    pub fn new() -> (r: CodeBuffer)
        ensures
            r.bytes@.len() == 0,
            r.relocs@.len() == 0,
    {
        CodeBuffer { bytes: Vec::new(), relocs: Vec::new() }
    }

    /// Appends the encoding of a fully known form.
    pub fn emit(&mut self, code: &Vec<u8>)
        ensures
            final(self).bytes@ == old(self).bytes@ + code@,
            final(self).relocs@ == old(self).relocs@,
    {
        let mut i: usize = 0;
        while i < code.len()
            invariant
                i <= code@.len(),
                self.bytes@ == old(self).bytes@ + code@.subrange(0, i as int),
                self.relocs@ == old(self).relocs@,
            decreases code@.len() - i,
        {
            self.bytes.push(code[i]);
            i += 1;
            assert(self.bytes@ =~= old(self).bytes@ + code@.subrange(0, i as int));
        }
        assert(code@.subrange(0, code@.len() as int) =~= code@);
    }

    /// Appends `size` zero bytes in place of `form`'s encoding, records the
    /// placeholder and returns its number.
    pub fn emit_placeholder(&mut self, form: usize, size: usize, args: Vec<u64>) -> (r: usize)
        ensures
            final(self).bytes@ == old(self).bytes@ + zeros(size as nat),
            r == old(self).relocs@.len(),
            final(self).relocs@ == old(self).relocs@.push(Reloc { offset: old(self).bytes@.len() as usize, form, size, args }),
    {
        let offset = self.bytes.len();
        let mut i: usize = 0;
        while i < size
            invariant
                i <= size,
                self.bytes@ == old(self).bytes@ + zeros(i as nat),
                self.relocs@ == old(self).relocs@,
            decreases size - i,
        {
            self.bytes.push(0u8);
            i += 1;
            assert(self.bytes@ =~= old(self).bytes@ + zeros(i as nat));
        }
        let r = self.relocs.len();
        self.relocs.push(Reloc { offset, form, size, args });
        r
    }

    /// Overwrites placeholder `k` with the final encoding `code`, which has the
    /// form's size. The buffer's length does not change.
    pub fn patch(&mut self, k: usize, code: &Vec<u8>)
        requires
            k < old(self).relocs@.len(),
            code@.len() == old(self).relocs@[k as int].size,
            old(self).relocs@[k as int].offset + code@.len() <= old(self).bytes@.len(),
        ensures
            final(self).bytes@ == patched(old(self).bytes@, old(self).relocs@[k as int].offset as int, code@),
            final(self).bytes@.len() == old(self).bytes@.len(),
            final(self).relocs@ == old(self).relocs@,
    {
        let off = self.relocs[k].offset;
        let n = self.bytes.len();
        let mut i: usize = 0;
        while i < code.len()
            invariant
                i <= code@.len(),
                off == old(self).relocs@[k as int].offset,
                off + code@.len() <= old(self).bytes@.len(),
                self.relocs@ == old(self).relocs@,
                self.bytes@.len() == old(self).bytes@.len(),
                n == old(self).bytes@.len(),
                self.bytes@ == patched(old(self).bytes@, off as int, code@.subrange(0, i as int)),
            decreases code@.len() - i,
        {
            self.bytes.set(off + i, code[i]);
            i += 1;
            assert(self.bytes@ =~= patched(old(self).bytes@, off as int, code@.subrange(0, i as int)));
        }
        assert(code@.subrange(0, code@.len() as int) =~= code@);
    }
}

/// Relocation round trip: emitting a zero placeholder of the final encoding's
/// size and patching it afterwards gives the same bytes as emitting the final
/// encoding directly, whatever was emitted before and after, and the length
/// never changes.
pub proof fn lemma_relocation_round_trip(before: Seq<u8>, code: Seq<u8>, after: Seq<u8>)
    ensures
        patched(before + zeros(code.len()) + after, before.len() as int, code) == before + code + after,
        (before + zeros(code.len()) + after).len() == (before + code + after).len(),
{
    assert(patched(before + zeros(code.len()) + after, before.len() as int, code) =~= before + code + after);
}

} // verus!
