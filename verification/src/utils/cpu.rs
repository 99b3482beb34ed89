//! What the kernel makes of the answers of the processor: identification
//! leaves, the time stamp counter, model specific registers, and the
//! orders in which bytes are compared and moved.

use vstd::prelude::*;

verus! {

/// The four registers that the identification instruction fills.
#[derive(Debug, Clone, Copy, PartialEq, Eq, Structural)]
pub struct CpuidResult {
    pub eax: u32,
    pub ebx: u32,
    pub ecx: u32,
    pub edx: u32,
}

/// First leaf of the range in which a hypervisor describes itself.
pub const HYPERVISOR_LEAVES: u32 = 0x4000_0000;

/// Distance between two places at which a hypervisor may describe itself.
pub const HYPERVISOR_STEP: u32 = 0x100;

/// Number of such places.
pub const HYPERVISOR_PLACES: usize = 256;

/// The twelve bytes by which KVM makes itself known.
pub open spec fn kvm_signature() -> Seq<u8> {
    seq![75u8, 86, 77, 75, 86, 77, 75, 86, 77, 0, 0, 0]
}

/// The bytes of `x`, lowest first.
pub open spec fn le_bytes(x: u32) -> Seq<u8> {
    seq![
        (x & 0xff) as u8,
        ((x >> 8) & 0xff) as u8,
        ((x >> 16) & 0xff) as u8,
        ((x >> 24) & 0xff) as u8,
    ]
}

/// The signature that a leaf holds: the bytes of three of its registers.
pub open spec fn signature_of(id: CpuidResult) -> Seq<u8> {
    le_bytes(id.ebx) + le_bytes(id.ecx) + le_bytes(id.edx)
}

/// Whether leaf 1 says that a hypervisor is there: bit 31 of the third
/// register.
pub fn in_hypervisor(id: &CpuidResult) -> (r: bool)
    ensures
        r == (id.ecx & 0x8000_0000 != 0),
{
    (id.ecx & 0x8000_0000) != 0
}

/// The signature that a leaf holds.
pub fn signature(id: &CpuidResult) -> (s: Vec<u8>)
    ensures
        s@ == signature_of(*id),
{
    let mut s: Vec<u8> = Vec::new();
    let regs = [id.ebx, id.ecx, id.edx];
    let mut i: usize = 0;
    while i < 3
        invariant
            i <= 3,
            regs@ == seq![id.ebx, id.ecx, id.edx],
            s@ == if i == 0 {
                Seq::<u8>::empty()
            } else if i == 1 {
                le_bytes(id.ebx)
            } else if i == 2 {
                le_bytes(id.ebx) + le_bytes(id.ecx)
            } else {
                signature_of(*id)
            },
        decreases 3 - i,
    {
        let x = regs[i];
        let ghost before = s@;
        assert((x & 0xff) <= 0xff && ((x >> 8) & 0xff) <= 0xff && ((x >> 16) & 0xff) <= 0xff && ((x
            >> 24) & 0xff) <= 0xff) by (bit_vector);
        s.push((x & 0xff) as u8);
        s.push(((x >> 8) & 0xff) as u8);
        s.push(((x >> 16) & 0xff) as u8);
        s.push(((x >> 24) & 0xff) as u8);
        assert(s@ =~= before + le_bytes(x));
        i = i + 1;
    }
    s
}

/// Whether a leaf holds the signature of KVM.
pub fn is_kvm(id: &CpuidResult) -> (r: bool)
    ensures
        r == (signature_of(*id) == kvm_signature()),
{
    let s = signature(id);
    let ok = s[0] == 75 && s[1] == 86 && s[2] == 77 && s[3] == 75 && s[4] == 86 && s[5] == 77 && s[6]
        == 75 && s[7] == 86 && s[8] == 77 && s[9] == 0 && s[10] == 0 && s[11] == 0;
    proof {
        if ok {
            assert(s@ =~= kvm_signature());
        }
    }
    ok
}

/// Leaf `i` of `leaves` is the first that holds the signature of KVM.
pub open spec fn first_kvm(leaves: Seq<CpuidResult>, i: int) -> bool {
    &&& 0 <= i < leaves.len()
    &&& signature_of(leaves[i]) == kvm_signature()
    &&& forall|j: int| 0 <= j < i ==> signature_of(#[trigger] leaves[j]) != kvm_signature()
}

/// The leaf at which KVM describes itself, given whether a hypervisor is
/// there and the leaves found at the places where one may describe
/// itself, the first at `HYPERVISOR_LEAVES` and each `HYPERVISOR_STEP`
/// after the one before: the first that holds the signature of KVM. Zero
/// where no hypervisor is there or none of the leaves holds it.
pub fn kvm_base(hypervisor: bool, leaves: &Vec<CpuidResult>) -> (base: u32)
    requires
        leaves@.len() <= HYPERVISOR_PLACES,
    ensures
        base != 0 ==> hypervisor && exists|i: int|
            #[trigger] first_kvm(leaves@, i) && base == HYPERVISOR_LEAVES + i * HYPERVISOR_STEP,
        base == 0 ==> !hypervisor || forall|i: int|
            0 <= i < leaves@.len() ==> signature_of(#[trigger] leaves@[i]) != kvm_signature(),
{
    if !hypervisor {
        return 0;
    }
    let mut i: usize = 0;
    while i < leaves.len()
        invariant
            hypervisor,
            i <= leaves@.len(),
            leaves@.len() <= HYPERVISOR_PLACES,
            forall|j: int| 0 <= j < i ==> signature_of(#[trigger] leaves@[j]) != kvm_signature(),
        decreases leaves@.len() - i,
    {
        if is_kvm(&leaves[i]) {
            let base: u32 = HYPERVISOR_LEAVES + (i as u32) * HYPERVISOR_STEP;
            assert(first_kvm(leaves@, i as int) && base == HYPERVISOR_LEAVES + (i as int)
                * HYPERVISOR_STEP);
            return base;
        }
        i = i + 1;
    }
    0
}

/// The 64 bits that the two halves of a counter or of a model specific
/// register make.
pub fn join_halves(high: u32, low: u32) -> (r: u64)
    ensures
        r == high * 0x1_0000_0000 + low,
{
    let h = high as u64;
    let l = low as u64;
    assert(h <= 0xffff_ffff && l <= 0xffff_ffff ==> (h << 32) | l == h * 0x1_0000_0000 + l)
        by (bit_vector);
    (h << 32) | l
}

/// The two halves, high and low, in which a model specific register is
/// written.
pub fn split_halves(value: u64) -> (r: (u32, u32))
    ensures
        r.0 * 0x1_0000_0000 + r.1 == value,
{
    let high = value >> 32;
    let low = value & 0xffff_ffff;
    assert(high <= 0xffff_ffff && low <= 0xffff_ffff && high * 0x1_0000_0000 + low == value)
        by (bit_vector)
        requires
            high == value >> 32,
            low == value & 0xffff_ffff,
    ;
    (high as u32, low as u32)
}

/// Compares the first `n` bytes of `a` and of `b`: zero where they are the
/// same, else the difference of the first two bytes that differ.
pub fn compare_bytes(a: &[u8], b: &[u8], n: usize) -> (r: i32)
    requires
        n <= a@.len(),
        n <= b@.len(),
    ensures
        r == 0 <==> a@.subrange(0, n as int) == b@.subrange(0, n as int),
        r != 0 ==> exists|i: int|
            0 <= i < n && r == a@[i] - b@[i] && a@[i] != b@[i] && forall|j: int|
                0 <= j < i ==> a@[j] == b@[j],
{
    let mut i: usize = 0;
    while i < n
        invariant
            i <= n,
            n <= a@.len(),
            n <= b@.len(),
            forall|j: int| 0 <= j < i ==> a@[j] == b@[j],
        decreases n - i,
    {
        let va = a[i];
        let vb = b[i];
        if va != vb {
            assert(a@.subrange(0, n as int)[i as int] != b@.subrange(0, n as int)[i as int]);
            return va as i32 - vb as i32;
        }
        i = i + 1;
    }
    assert(a@.subrange(0, n as int) =~= b@.subrange(0, n as int));
    0
}

/// Whether bytes may be moved from `src` to `dest` lowest first: the
/// destination begins before the source or behind its `n` bytes.
pub fn moves_forward(dest: usize, src: usize, n: usize) -> (r: bool)
    requires
        src + n <= usize::MAX,
    ensures
        r == (dest < src || dest >= src + n),
{
    dest < src || dest >= src + n
}

/// Whether memory-mapped registers can be read and written `width` bytes
/// at a time.
pub fn is_mmio_width(width: usize) -> (r: bool)
    ensures
        r == (width == 1 || width == 2 || width == 4 || width == 8),
{
    width == 1 || width == 2 || width == 4 || width == 8
}

} // verus!
