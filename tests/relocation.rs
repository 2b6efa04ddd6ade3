use isel::reloc::CodeBuffer;

#[test]
fn placeholder_then_patch_equals_direct_encoding() {
    let target = vec![0xE9, 0x10, 0x20, 0x30, 0x40];
    let mut patched = CodeBuffer::new();
    patched.emit(&vec![0x90, 0x90]);
    let k = patched.emit_placeholder(7, target.len(), vec![1, 2]);
    assert_eq!(patched.bytes, vec![0x90, 0x90, 0, 0, 0, 0, 0]);
    patched.emit(&vec![0xC3]);
    let len_before = patched.bytes.len();
    assert_eq!(patched.relocs[k].offset, 2);
    assert_eq!(patched.relocs[k].form, 7);
    assert_eq!(patched.relocs[k].args, vec![1, 2]);
    patched.patch(k, &target);
    assert_eq!(patched.bytes.len(), len_before);

    let mut direct = CodeBuffer::new();
    direct.emit(&vec![0x90, 0x90]);
    direct.emit(&target);
    direct.emit(&vec![0xC3]);
    assert_eq!(patched.bytes, direct.bytes);
}

#[test]
fn empty_placeholder_changes_nothing() {
    let mut b = CodeBuffer::new();
    b.emit(&vec![1, 2, 3]);
    let k = b.emit_placeholder(0, 0, Vec::new());
    b.patch(k, &Vec::new());
    assert_eq!(b.bytes, vec![1, 2, 3]);
}
