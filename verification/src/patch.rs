//! Redirecting `call rel32` instructions in a loaded image.
//!
//! The scan walks the image byte by byte. Wherever it finds the opcode of a
//! near call whose destination is the address of a hooked function, it
//! rewrites the displacement so that the call lands on the replacement.
//! Patching happens in place while the scan goes on, so the bytes that the
//! scan reads after a patch are the patched ones.
use vstd::prelude::*;

verus! {

/// The opcode of a near relative call, `call rel32`.
pub const CALL_OPCODE: u8 = 0xE8;

/// A hooked function: the address that calls of it land on, and the address
/// of the function that stands in for it.
pub struct Replacement {
    pub name: String,
    /// The address that calls of the hooked function jump to; 0 for none.
    pub rva: usize,
    /// The address of the replacement, where there is one.
    pub replacement: Option<usize>,
}

/// One rewritten call site: the offset of its opcode in the image and the
/// address it now calls.
#[derive(Clone, Copy, Debug, PartialEq, Eq, Structural)]
pub struct Patch {
    pub offset: usize,
    pub target: usize,
}

/// What a scan did: the patches in the order they were made, and the offset
/// of the call site at which it stopped because the matching replacement had
/// no target.
pub struct ScanOutcome {
    pub patches: Vec<Patch>,
    pub missing: Option<usize>,
}

/// The four little-endian bytes of a 32-bit value.
pub open spec fn le_bytes32(v: u32) -> Seq<u8> {
    seq![(v % 256) as u8, ((v / 256) % 256) as u8, ((v / 65536) % 256) as u8, (v / 16777216) as u8]
}

/// The 32-bit value of four little-endian bytes.
pub open spec fn le32(b0: u8, b1: u8, b2: u8, b3: u8) -> u32 {
    (b0 + 256 * b1 + 65536 * b2 + 16777216 * b3) as u32
}

/// A 32-bit value read as a two's complement signed number.
pub open spec fn signed32(v: u32) -> int {
    if v < 0x8000_0000 {
        v as int
    } else {
        v - 0x1_0000_0000
    }
}

/// An integer taken modulo the size of the address space, for values at
/// most one address space away from it.
pub open spec fn wrap_usize(x: int) -> usize {
    if x > usize::MAX {
        (x - (usize::MAX + 1)) as usize
    } else if x < 0 {
        (x + (usize::MAX + 1)) as usize
    } else {
        x as usize
    }
}

/// Where a relative call lands: the address of the next instruction plus
/// the signed displacement, in address arithmetic.
pub open spec fn call_destination(next: usize, disp: u32) -> usize {
    wrap_usize(next + signed32(disp))
}

/// The displacement that makes a call whose next instruction is at `next`
/// land on `target`: their difference modulo 2^32.
pub open spec fn rel32(next: int, target: int) -> u32 {
    ((target - next) % 0x1_0000_0000) as u32
}

/// The five bytes of a call at address `at` to address `target`.
pub open spec fn call_bytes(at: int, target: int) -> Seq<u8> {
    seq![CALL_OPCODE] + le_bytes32(rel32(at + 5, target))
}

/// `img` with `bytes` written over it from offset `p` on.
pub open spec fn write_at(img: Seq<u8>, p: int, bytes: Seq<u8>) -> Seq<u8> {
    img.subrange(0, p) + bytes + img.subrange(p + bytes.len(), img.len() as int)
}

/// The destination of the call whose opcode stands at offset `p` of an image
/// loaded at `base`.
pub open spec fn site_destination(img: Seq<u8>, base: int, p: int) -> usize {
    call_destination((base + p + 5) as usize, le32(img[p + 1], img[p + 2], img[p + 3], img[p + 4]))
}

/// Whether offset `p` holds the opcode of a call whose displacement lies
/// inside the image.
pub open spec fn is_call_site(img: Seq<u8>, p: int) -> bool {
    0 <= p && p + 5 <= img.len() && img[p] == CALL_OPCODE
}

/// The image, the patches made and the failure, if any, after the first `k`
/// replacements have been tried at the call site at `p`, whose destination is
/// `dest`.
pub open spec fn site_after(
    img: Seq<u8>,
    base: int,
    p: int,
    dest: usize,
    repls: Seq<Replacement>,
    k: int,
) -> (Seq<u8>, Seq<Patch>, Option<usize>)
    decreases k,
{
    if k <= 0 {
        (img, seq![], None)
    } else {
        let prev = site_after(img, base, p, dest, repls, k - 1);
        if prev.2 is Some {
            prev
        } else {
            let r = repls[k - 1];
            if r.rva != 0 && dest == r.rva {
                match r.replacement {
                    None => (prev.0, prev.1, Some(p as usize)),
                    Some(t) => (
                        write_at(prev.0, p, call_bytes(base + p, t as int)),
                        prev.1.push(Patch { offset: p as usize, target: t }),
                        None,
                    ),
                }
            } else {
                prev
            }
        }
    }
}

/// The image, the patches made and the failure, if any, after the scan has
/// passed the first `n` offsets of an image loaded at `base`.
pub open spec fn scan_after(img0: Seq<u8>, base: int, repls: Seq<Replacement>, n: int) -> (
    Seq<u8>,
    Seq<Patch>,
    Option<usize>,
)
    decreases n,
{
    if n <= 0 {
        (img0, seq![], None)
    } else {
        let prev = scan_after(img0, base, repls, n - 1);
        let p = n - 1;
        if prev.2 is Some {
            prev
        } else if is_call_site(prev.0, p) {
            let site = site_after(
                prev.0,
                base,
                p,
                site_destination(prev.0, base, p),
                repls,
                repls.len() as int,
            );
            (site.0, prev.1 + site.1, site.2)
        } else {
            prev
        }
    }
}

/// The whole scan of the memory from `base` on, over its first `scan_len`
/// offsets: the module's image, whose last call sites may take their
/// displacement from the bytes that follow it.
pub open spec fn scan_image(img: Seq<u8>, base: int, repls: Seq<Replacement>, scan_len: int) -> (
    Seq<u8>,
    Seq<Patch>,
    Option<usize>,
) {
    scan_after(img, base, repls, scan_len)
}

proof fn lemma_le_bytes32_roundtrip(v: u32)
    ensures
        le_bytes32(v).len() == 4,
        le32(le_bytes32(v)[0], le_bytes32(v)[1], le_bytes32(v)[2], le_bytes32(v)[3]) == v,
{
    let b = le_bytes32(v);
    assert(b[0] + 256 * b[1] + 65536 * b[2] + 16777216 * b[3] == v) by (nonlinear_arith)
        requires
            b[0] == v % 256,
            b[1] == (v / 256) % 256,
            b[2] == (v / 65536) % 256,
            b[3] == v / 16777216,
            v < 0x1_0000_0000,
    ;
}

/// The little-endian value of four bytes.
pub fn read_le32(b0: u8, b1: u8, b2: u8, b3: u8) -> (v: u32)
    ensures
        v == le32(b0, b1, b2, b3),
        v as int == b0 + 256 * b1 + 65536 * b2 + 16777216 * b3,
{
    b0 as u32 + (b1 as u32) * 256 + (b2 as u32) * 65536 + (b3 as u32) * 16777216
}

/// The address that a call lands on, given the address of the instruction
/// after it and its displacement.
pub fn destination(next: usize, disp: u32) -> (d: usize)
    ensures
        d == call_destination(next, disp),
{
    if disp < 0x8000_0000 {
        next.wrapping_add(disp as usize)
    } else {
        let back: u64 = 0x1_0000_0000u64 - disp as u64;
        next.wrapping_sub(back as usize)
    }
}

/// The displacement from the instruction after a call, at `next`, to
/// `target`: their difference truncated to 32 bits.
pub fn displacement(next: usize, target: usize) -> (rel: u32)
    ensures
        rel == rel32(next as int, target as int),
{
    if target >= next {
        let d: u64 = (target - next) as u64;
        (d % 0x1_0000_0000) as u32
    } else {
        let d: u64 = (next - target) as u64;
        let m: u64 = d % 0x1_0000_0000;
        assert((target - next) % 0x1_0000_0000 == if m == 0 { 0 } else { 0x1_0000_0000 - m })
            by (nonlinear_arith)
            requires
                d == next - target,
                m == d % 0x1_0000_0000,
                d > 0,
        ;
        if m == 0 {
            0
        } else {
            (0x1_0000_0000u64 - m) as u32
        }
    }
}

/// The five bytes of a `call rel32` at address `at` that lands on `target`.
pub fn call_instruction(at: usize, target: usize) -> (bytes: Vec<u8>)
    requires
        at + 5 <= usize::MAX,
    ensures
        bytes@ == call_bytes(at as int, target as int),
{
    let rel = displacement(at + 5, target);
    let mut bytes: Vec<u8> = Vec::new();
    bytes.push(CALL_OPCODE);
    bytes.push((rel % 256) as u8);
    bytes.push(((rel / 256) % 256) as u8);
    bytes.push(((rel / 65536) % 256) as u8);
    bytes.push((rel / 16777216) as u8);
    assert(bytes@ =~= call_bytes(at as int, target as int));
    bytes
}


/// Writes the call at offset `p` of `image` into it, in place.
fn write_call(image: &mut Vec<u8>, base: usize, p: usize, target: usize)
    requires
        p + 5 <= old(image).len(),
        base + old(image).len() <= usize::MAX,
    ensures
        final(image)@ == write_at(old(image)@, p as int, call_bytes(base + p, target as int)),
        final(image).len() == old(image).len(),
{
    let bytes = call_instruction(base + p, target);
    let mut i: usize = 0;
    while i < 5
        invariant
            0 <= i <= 5,
            bytes@ == call_bytes(base + p, target as int),
            p + 5 <= old(image).len(),
            image.len() == old(image).len(),
            forall|j: int| 0 <= j < image.len() && !(p <= j < p + i) ==> image@[j] == old(image)@[j],
            forall|j: int| p <= j < p + i ==> image@[j] == bytes@[j - p],
        decreases 5 - i,
    {
        image.set(p + i, bytes[i]);
        i = i + 1;
    }
    assert(image@ =~= write_at(old(image)@, p as int, call_bytes(base + p, target as int)));
}

/// Tries every replacement, in order, at the call site at offset `p`,
/// whose destination is `dest`, and patches the site for each match.
fn patch_site(
    image: &mut Vec<u8>,
    base: usize,
    p: usize,
    dest: usize,
    repls: &Vec<Replacement>,
    patches: &mut Vec<Patch>,
) -> (missing: Option<usize>)
    requires
        p + 5 <= old(image).len(),
        base + old(image).len() <= usize::MAX,
    ensures
        final(image).len() == old(image).len(),
        final(image)@ == site_after(old(image)@, base as int, p as int, dest, repls@, repls.len() as int).0,
        final(patches)@ == old(patches)@ + site_after(old(image)@, base as int, p as int, dest, repls@, repls.len() as int).1,
        missing == site_after(old(image)@, base as int, p as int, dest, repls@, repls.len() as int).2,
{
    let ghost im_p = image@;
    let ghost before = patches@;
    let ghost site_patches: Seq<Patch> = seq![];
    let mut k: usize = 0;
    while k < repls.len()
        invariant
            0 <= k <= repls.len(),
            im_p == old(image)@,
            before == old(patches)@,
            p + 5 <= old(image).len(),
            image.len() == old(image).len(),
            base + old(image).len() <= usize::MAX,
            site_after(im_p, base as int, p as int, dest, repls@, k as int) == (
                image@,
                site_patches,
                None::<usize>,
            ),
            patches@ == before + site_patches,
        decreases repls.len() - k,
    {
        let r = &repls[k];
        if r.rva != 0 && dest == r.rva {
            match r.replacement {
                None => {
                    proof {
                        lemma_site_failure_stays(im_p, base as int, p as int, dest, repls@, (k + 1) as int, repls.len() as int);
                    }
                    return Some(p);
                },
                Some(t) => {
                    write_call(image, base, p, t);
                    patches.push(Patch { offset: p, target: t });
                    proof {
                        site_patches = site_patches.push(Patch { offset: p, target: t });
                    }
                    assert(patches@ =~= before + site_patches);
                },
            }
        }
        k = k + 1;
    }
    None
}

/// Scans an image loaded at `base` and redirects, in place, every call whose
/// destination is the address of a hooked function to its replacement.
///
/// `image` holds the memory from `base` on: the module's image, of
/// `scan_len` bytes, followed by the bytes after it that can be read (up to
/// four), from which a call site among the last four offsets of the module
/// takes its displacement. Offsets `0..scan_len` are visited in increasing
/// order; at each call site the replacements are tried in order, and each
/// one whose address matches the destination found before the site was
/// patched rewrites the call. A call site whose displacement would lie past
/// the end of `image` is not read. The scan stops at the first matching
/// replacement without a target and reports its offset.
pub fn patch_image(image: &mut Vec<u8>, base: usize, scan_len: usize, repls: &Vec<Replacement>) -> (out: ScanOutcome)
    requires
        base + old(image).len() <= usize::MAX,
        scan_len <= old(image).len(),
    ensures
        final(image)@ == scan_image(old(image)@, base as int, repls@, scan_len as int).0,
        out.patches@ == scan_image(old(image)@, base as int, repls@, scan_len as int).1,
        out.missing == scan_image(old(image)@, base as int, repls@, scan_len as int).2,
{
    let n = image.len();
    let ghost img0 = image@;
    let mut patches: Vec<Patch> = Vec::new();
    let mut p: usize = 0;
    while p < scan_len
        invariant
            0 <= p <= scan_len,
            scan_len <= n,
            n == old(image).len(),
            img0 == old(image)@,
            image.len() == n,
            base + n <= usize::MAX,
            scan_after(img0, base as int, repls@, p as int) == (image@, patches@, None::<usize>),
        decreases scan_len - p,
    {
        if n - p >= 5 && image[p] == CALL_OPCODE {
            let disp = read_le32(image[p + 1], image[p + 2], image[p + 3], image[p + 4]);
            let dest = destination(base + p + 5, disp);
            let ghost im_p = image@;
            let ghost before = patches@;
            assert(dest == site_destination(im_p, base as int, p as int));
            let missing = patch_site(image, base, p, dest, repls, &mut patches);
            assert(scan_after(img0, base as int, repls@, p as int) == (im_p, before, None::<usize>));
            if missing.is_some() {
                proof {
                    lemma_scan_failure_stays(img0, base as int, repls@, (p + 1) as int, scan_len as int);
                }
                return ScanOutcome { patches, missing };
            }
        }
        p = p + 1;
    }
    ScanOutcome { patches, missing: None }
}

/// Once a site has failed, trying further replacements changes nothing.
proof fn lemma_site_failure_stays(
    img: Seq<u8>,
    base: int,
    p: int,
    dest: usize,
    repls: Seq<Replacement>,
    k: int,
    m: int,
)
    requires
        k <= m,
        site_after(img, base, p, dest, repls, k).2 is Some,
    ensures
        site_after(img, base, p, dest, repls, m) == site_after(img, base, p, dest, repls, k),
    decreases m - k,
{
    if k < m {
        lemma_site_failure_stays(img, base, p, dest, repls, k, m - 1);
    }
}

/// Once the scan has failed, later offsets change nothing.
proof fn lemma_scan_failure_stays(img0: Seq<u8>, base: int, repls: Seq<Replacement>, k: int, m: int)
    requires
        0 <= k <= m,
        scan_after(img0, base, repls, k).2 is Some,
    ensures
        scan_after(img0, base, repls, m) == scan_after(img0, base, repls, k),
    decreases m - k,
{
    if k < m {
        lemma_scan_failure_stays(img0, base, repls, k, m - 1);
    }
}


/// Whether offset `i` lies inside one of the rewritten calls.
pub open spec fn covered(ps: Seq<Patch>, i: int) -> bool {
    exists|k: int| 0 <= k < ps.len() && #[trigger] ps[k].offset <= i < ps[k].offset + 5
}

/// Whether no patch made after the `k`-th one overlaps it.
pub open spec fn survives(ps: Seq<Patch>, k: int) -> bool {
    forall|j: int|
        k < j < ps.len() ==> #[trigger] ps[j].offset + 5 <= ps[k].offset || ps[k].offset + 5
            <= ps[j].offset
}

/// Whether `img` holds, at the patch's offset, a call to the patch's target.
pub open spec fn patch_holds(img: Seq<u8>, base: int, pt: Patch) -> bool {
    &&& pt.offset + 5 <= img.len()
    &&& img.subrange(pt.offset as int, pt.offset + 5) == call_bytes(base + pt.offset, pt.target as int)
}

/// Whether `pt` redirects to the target of a hooked function that has one.
pub open spec fn from_replacement(repls: Seq<Replacement>, pt: Patch) -> bool {
    exists|j: int|
        0 <= j < repls.len() && (#[trigger] repls[j]).rva != 0 && repls[j].replacement == Some(
            pt.target,
        )
}

/// What a run of patches leaves: the length is kept, bytes outside every
/// rewritten call are those of `img0`, every patch that no later one overlaps
/// holds, and every patch lies inside the image and comes from a replacement.
pub open spec fn patched_from(
    img0: Seq<u8>,
    img: Seq<u8>,
    base: int,
    ps: Seq<Patch>,
    repls: Seq<Replacement>,
) -> bool {
    &&& img.len() == img0.len()
    &&& forall|i: int| 0 <= i < img.len() && !covered(ps, i) ==> img[i] == img0[i]
    &&& forall|k: int| 0 <= k < ps.len() && survives(ps, k) ==> patch_holds(img, base, #[trigger] ps[k])
    &&& forall|k: int| 0 <= k < ps.len() ==> #[trigger] ps[k].offset + 5 <= img.len()
    &&& forall|k: int| 0 <= k < ps.len() ==> from_replacement(repls, #[trigger] ps[k])
}

proof fn lemma_patch_step_untouched(img0: Seq<u8>, img: Seq<u8>, ps: Seq<Patch>, p: int, bytes: Seq<u8>, np: Patch)
    requires
        img.len() == img0.len(),
        forall|i: int| 0 <= i < img.len() && !covered(ps, i) ==> img[i] == img0[i],
        0 <= p,
        p + 5 <= img.len(),
        bytes.len() == 5,
        np.offset == p,
    ensures
        forall|i: int|
            0 <= i < img.len() && !covered(ps.push(np), i) ==> write_at(img, p, bytes)[i] == img0[i],
{
    let img2 = write_at(img, p, bytes);
    let ps2 = ps.push(np);
    assert forall|i: int| 0 <= i < img.len() && !covered(ps2, i) implies img2[i] == img0[i] by {
        assert(ps2[ps.len() as int] == np);
        if p <= i < p + 5 {
            assert(ps2[ps.len() as int].offset <= i < ps2[ps.len() as int].offset + 5);
        }
        if covered(ps, i) {
            let k = choose|k: int| 0 <= k < ps.len() && #[trigger] ps[k].offset <= i < ps[k].offset + 5;
            assert(ps2[k] == ps[k]);
            assert(ps2[k].offset <= i < ps2[k].offset + 5);
        }
    }
}

proof fn lemma_patch_step_survivors(img: Seq<u8>, base: int, ps: Seq<Patch>, p: int, np: Patch)
    requires
        forall|k: int| 0 <= k < ps.len() && survives(ps, k) ==> patch_holds(img, base, #[trigger] ps[k]),
        0 <= p,
        p + 5 <= img.len(),
        np.offset == p,
    ensures
        forall|k: int|
            0 <= k < ps.len() + 1 && survives(ps.push(np), k) ==> patch_holds(
                write_at(img, p, call_bytes(base + p, np.target as int)),
                base,
                #[trigger] ps.push(np)[k],
            ),
{
    let bytes = call_bytes(base + p, np.target as int);
    let img2 = write_at(img, p, bytes);
    let ps2 = ps.push(np);
    assert(bytes.len() == 5);
    assert forall|k: int| 0 <= k < ps2.len() && survives(ps2, k) implies patch_holds(img2, base, #[trigger] ps2[k]) by {
        if k == ps.len() {
            assert(img2.subrange(p, p + 5) =~= bytes);
        } else {
            assert(ps2[k] == ps[k]);
            assert forall|jj: int| k < jj < ps.len() implies #[trigger] ps[jj].offset + 5 <= ps[k].offset || ps[k].offset + 5 <= ps[jj].offset by {
                assert(ps2[jj] == ps[jj]);
            }
            assert(survives(ps, k));
            assert(ps2[ps.len() as int] == np);
            let o = ps[k].offset as int;
            assert(img2.subrange(o, o + 5) =~= img.subrange(o, o + 5));
        }
    }
}

proof fn lemma_patch_step(
    img0: Seq<u8>,
    img: Seq<u8>,
    base: int,
    ps: Seq<Patch>,
    repls: Seq<Replacement>,
    p: int,
    j: int,
)
    requires
        patched_from(img0, img, base, ps, repls),
        0 <= p,
        p + 5 <= img.len(),
        p <= usize::MAX,
        0 <= j < repls.len(),
        repls[j].rva != 0,
        repls[j].replacement is Some,
    ensures
        patched_from(
            img0,
            write_at(img, p, call_bytes(base + p, repls[j].replacement->0 as int)),
            base,
            ps.push(Patch { offset: p as usize, target: repls[j].replacement->0 }),
            repls,
        ),
{
    let t = repls[j].replacement->0;
    let bytes = call_bytes(base + p, t as int);
    let img2 = write_at(img, p, bytes);
    let np = Patch { offset: p as usize, target: t };
    let ps2 = ps.push(np);
    assert(bytes.len() == 5);
    assert(img2.len() == img.len());
    lemma_patch_step_untouched(img0, img, ps, p, bytes, np);
    lemma_patch_step_survivors(img, base, ps, p, np);
    assert forall|k: int| 0 <= k < ps2.len() implies #[trigger] ps2[k].offset + 5 <= img2.len() && from_replacement(repls, ps2[k]) by {
        if k < ps.len() {
            assert(ps2[k] == ps[k]);
        } else {
            assert(repls[j].replacement == Some(ps2[k].target));
        }
    }
}

proof fn lemma_site_patched(
    img0: Seq<u8>,
    img: Seq<u8>,
    base: int,
    ps: Seq<Patch>,
    p: int,
    dest: usize,
    repls: Seq<Replacement>,
    k: int,
)
    requires
        patched_from(img0, img, base, ps, repls),
        0 <= p,
        p + 5 <= img.len(),
        p <= usize::MAX,
        k <= repls.len(),
    ensures
        patched_from(
            img0,
            site_after(img, base, p, dest, repls, k).0,
            base,
            ps + site_after(img, base, p, dest, repls, k).1,
            repls,
        ),
    decreases k,
{
    if k <= 0 {
        assert(ps + seq![] =~= ps);
    } else {
        lemma_site_patched(img0, img, base, ps, p, dest, repls, k - 1);
        let prev = site_after(img, base, p, dest, repls, k - 1);
        if prev.2 is None {
            let r = repls[k - 1];
            if r.rva != 0 && dest == r.rva {
                if let Some(t) = r.replacement {
                    lemma_patch_step(img0, prev.0, base, ps + prev.1, repls, p, k - 1);
                    assert((ps + prev.1).push(Patch { offset: p as usize, target: t }) =~= ps
                        + prev.1.push(Patch { offset: p as usize, target: t }));
                }
            }
        }
    }
}

proof fn lemma_scan_patched(img0: Seq<u8>, base: int, repls: Seq<Replacement>, n: int)
    requires
        n <= img0.len(),
        img0.len() <= usize::MAX,
    ensures
        patched_from(
            img0,
            scan_after(img0, base, repls, n).0,
            base,
            scan_after(img0, base, repls, n).1,
            repls,
        ),
    decreases n,
{
    if n <= 0 {
    } else {
        lemma_scan_patched(img0, base, repls, n - 1);
        let prev = scan_after(img0, base, repls, n - 1);
        let p = n - 1;
        if prev.2 is None && is_call_site(prev.0, p) {
            lemma_site_patched(
                img0,
                prev.0,
                base,
                prev.1,
                p,
                site_destination(prev.0, base, p),
                repls,
                repls.len() as int,
            );
            let site = site_after(
                prev.0,
                base,
                p,
                site_destination(prev.0, base, p),
                repls,
                repls.len() as int,
            );
            assert(prev.1 + site.1 == scan_after(img0, base, repls, n).1);
        }
    }
}

/// The scan changes no byte outside the calls it rewrote, keeps the length
/// of the image, leaves every rewritten call that no later patch overlaps as
/// a call to its patch's target, and only ever redirects to the target of a
/// hooked function.
pub proof fn lemma_scan_effect(img: Seq<u8>, base: int, repls: Seq<Replacement>, scan_len: int)
    requires
        img.len() <= usize::MAX,
        0 <= scan_len <= img.len(),
    ensures
        patched_from(
            img,
            scan_image(img, base, repls, scan_len).0,
            base,
            scan_image(img, base, repls, scan_len).1,
            repls,
        ),
{
    lemma_scan_patched(img, base, repls, scan_len);
}

/// A call written by `call_instruction` lands on its target whenever the
/// target lies within a signed 32-bit displacement of the next instruction.
pub proof fn lemma_call_lands_on_target(at: usize, target: usize)
    requires
        at + 5 <= usize::MAX,
        -0x8000_0000 <= target - (at + 5) < 0x8000_0000,
    ensures
        call_destination(
            (at + 5) as usize,
            le32(
                call_bytes(at as int, target as int)[1],
                call_bytes(at as int, target as int)[2],
                call_bytes(at as int, target as int)[3],
                call_bytes(at as int, target as int)[4],
            ),
        ) == target,
{
    let rel = rel32(at + 5, target as int);
    lemma_le_bytes32_roundtrip(rel);
    let b = call_bytes(at as int, target as int);
    assert(b[1] == le_bytes32(rel)[0] && b[2] == le_bytes32(rel)[1] && b[3] == le_bytes32(rel)[2]
        && b[4] == le_bytes32(rel)[3]);
    let d = target - (at + 5);
    assert(signed32(rel) == d) by (nonlinear_arith)
        requires
            rel == d % 0x1_0000_0000,
            -0x8000_0000 <= d < 0x8000_0000,
            signed32(rel) == if rel < 0x8000_0000 { rel as int } else { rel - 0x1_0000_0000 },
    ;
}


/// Whether the rewritten call `pt` shares a byte with the five bytes from
/// offset `p` on.
pub open spec fn overlaps(pt: Patch, p: int) -> bool {
    pt.offset < p + 5 && p < pt.offset + 5
}

/// Whether no patch touches the five bytes from offset `p` on.
pub open spec fn untouched(ps: Seq<Patch>, p: int) -> bool {
    forall|k: int| 0 <= k < ps.len() ==> !overlaps(#[trigger] ps[k], p)
}

/// Whether offset `p` holds a call that lands on the address of a hooked
/// function.
pub open spec fn hooked_call(img: Seq<u8>, base: int, repls: Seq<Replacement>, p: int) -> bool {
    &&& is_call_site(img, p)
    &&& exists|j: int|
        0 <= j < repls.len() && (#[trigger] repls[j]).rva != 0 && site_destination(img, base, p)
            == repls[j].rva
}

proof fn lemma_site_shape(
    img: Seq<u8>,
    base: int,
    p: int,
    dest: usize,
    repls: Seq<Replacement>,
    k: int,
)
    requires
        0 <= p,
        p + 5 <= img.len(),
        p <= usize::MAX,
        k <= repls.len(),
    ensures
        site_after(img, base, p, dest, repls, k).0.len() == img.len(),
        forall|i: int|
            0 <= i < img.len() && !(p <= i < p + 5) ==> site_after(img, base, p, dest, repls, k).0[i]
                == img[i],
        site_after(img, base, p, dest, repls, k).1.len() == 0 ==> site_after(
            img,
            base,
            p,
            dest,
            repls,
            k,
        ).0 == img,
        forall|m: int|
            0 <= m < site_after(img, base, p, dest, repls, k).1.len() ==> (#[trigger] site_after(
                img,
                base,
                p,
                dest,
                repls,
                k,
            ).1[m]).offset == p,
        site_after(img, base, p, dest, repls, k).2 is None ==> (forall|j: int|
            0 <= j < k && (#[trigger] repls[j]).rva != 0 && dest == repls[j].rva
                ==> site_after(img, base, p, dest, repls, k).1.len() > 0),
    decreases k,
{
    if k > 0 {
        lemma_site_shape(img, base, p, dest, repls, k - 1);
        let prev = site_after(img, base, p, dest, repls, k - 1);
        if prev.2 is None {
            let r = repls[k - 1];
            if r.rva != 0 && dest == r.rva {
                if let Some(t) = r.replacement {
                    let bytes = call_bytes(base + p, t as int);
                    assert(bytes.len() == 5);
                    let cur = site_after(img, base, p, dest, repls, k);
                    assert(cur.1 == prev.1.push(Patch { offset: p as usize, target: t }));
                    assert forall|m: int| 0 <= m < cur.1.len() implies (#[trigger] cur.1[m]).offset == p by {
                        if m < prev.1.len() {
                            assert(cur.1[m] == prev.1[m]);
                        }
                    }
                }
            }
        }
    }
}

proof fn lemma_hooked_call_same_bytes(a: Seq<u8>, b: Seq<u8>, base: int, repls: Seq<Replacement>, q: int)
    requires
        a.len() == b.len(),
        0 <= q,
        q + 5 <= a.len(),
        forall|i: int| q <= i < q + 5 ==> a[i] == b[i],
    ensures
        hooked_call(a, base, repls, q) == hooked_call(b, base, repls, q),
{
    assert(a[q] == b[q] && a[q + 1] == b[q + 1] && a[q + 2] == b[q + 2] && a[q + 3] == b[q + 3]
        && a[q + 4] == b[q + 4]);
    assert(site_destination(a, base, q) == site_destination(b, base, q));
}

proof fn lemma_site_keeps_completeness(
    img: Seq<u8>,
    ps: Seq<Patch>,
    base: int,
    repls: Seq<Replacement>,
    p: int,
)
    requires
        0 <= p,
        p + 5 <= img.len(),
        img.len() <= usize::MAX,
        forall|q: int| 0 <= q < p && untouched(ps, q) ==> !hooked_call(img, base, repls, q),
        site_after(img, base, p, site_destination(img, base, p), repls, repls.len() as int).2 is None,
    ensures
        ({
            let site = site_after(img, base, p, site_destination(img, base, p), repls, repls.len() as int);
            forall|q: int|
                0 <= q <= p && untouched(ps + site.1, q) ==> !hooked_call(site.0, base, repls, q)
        }),
{
    let dest = site_destination(img, base, p);
    let site = site_after(img, base, p, dest, repls, repls.len() as int);
    lemma_site_shape(img, base, p, dest, repls, repls.len() as int);
    let all = ps + site.1;
    assert forall|q: int| 0 <= q <= p && untouched(all, q) implies !hooked_call(site.0, base, repls, q) by {
        assert forall|kk: int| 0 <= kk < ps.len() implies !overlaps(#[trigger] ps[kk], q) by {
            assert(all[kk] == ps[kk]);
            assert(!overlaps(all[kk], q));
        }
        assert(untouched(ps, q));
        if site.1.len() > 0 {
            assert(all[ps.len() as int] == site.1[0]);
            assert(!overlaps(all[ps.len() as int], q));
            assert(site.1[0].offset == p);
            assert(q + 5 <= p);
            assert(!hooked_call(img, base, repls, q));
            lemma_hooked_call_same_bytes(site.0, img, base, repls, q);
        } else {
            assert(site.0 == img);
            if q < p {
                assert(!hooked_call(img, base, repls, q));
            } else if hooked_call(img, base, repls, q) {
                let j = choose|j: int|
                    0 <= j < repls.len() && (#[trigger] repls[j]).rva != 0 && site_destination(
                        img,
                        base,
                        q,
                    ) == repls[j].rva;
                assert(repls[j].rva != 0 && dest == repls[j].rva);
                assert(site.1.len() > 0);
            }
        }
    }
}

proof fn lemma_scan_complete(img0: Seq<u8>, base: int, repls: Seq<Replacement>, n: int)
    requires
        0 <= n <= img0.len(),
        img0.len() <= usize::MAX,
    ensures
        scan_after(img0, base, repls, n).0.len() == img0.len(),
        scan_after(img0, base, repls, n).2 is None ==> forall|q: int|
            0 <= q < n && untouched(scan_after(img0, base, repls, n).1, q) ==> !hooked_call(
                scan_after(img0, base, repls, n).0,
                base,
                repls,
                q,
            ),
    decreases n,
{
    if n > 0 {
        lemma_scan_complete(img0, base, repls, n - 1);
        let prev = scan_after(img0, base, repls, n - 1);
        let p = n - 1;
        if prev.2 is None {
            if is_call_site(prev.0, p) {
                let dest = site_destination(prev.0, base, p);
                lemma_site_shape(prev.0, base, p, dest, repls, repls.len() as int);
                let site = site_after(prev.0, base, p, dest, repls, repls.len() as int);
                if site.2 is None {
                    lemma_site_keeps_completeness(prev.0, prev.1, base, repls, p);
                }
            }
        }
    }
}

/// When the scan finishes, no call of a hooked function is left in the
/// image outside the calls it rewrote: every scanned offset whose five bytes
/// no patch touched holds no call that lands on the address of a hooked
/// function.
pub proof fn lemma_scan_redirects_every_hooked_call(
    img: Seq<u8>,
    base: int,
    repls: Seq<Replacement>,
    scan_len: int,
)
    requires
        img.len() <= usize::MAX,
        0 <= scan_len <= img.len(),
        scan_image(img, base, repls, scan_len).2 is None,
    ensures
        forall|q: int|
            0 <= q < scan_len && untouched(scan_image(img, base, repls, scan_len).1, q)
                ==> !hooked_call(scan_image(img, base, repls, scan_len).0, base, repls, q),
{
    lemma_scan_complete(img, base, repls, scan_len);
}


proof fn lemma_site_no_match(
    img: Seq<u8>,
    base: int,
    p: int,
    dest: usize,
    repls: Seq<Replacement>,
    k: int,
)
    requires
        k <= repls.len(),
        forall|j: int| 0 <= j < repls.len() && (#[trigger] repls[j]).rva != 0 ==> dest != repls[j].rva,
    ensures
        site_after(img, base, p, dest, repls, k) == (img, Seq::<Patch>::empty(), None::<usize>),
    decreases k,
{
    if k > 0 {
        lemma_site_no_match(img, base, p, dest, repls, k - 1);
        let r = repls[k - 1];
        assert(!(r.rva != 0 && dest == r.rva));
    }
}

/// Scanning an image that holds no call of a hooked function changes
/// nothing and makes no patch.
proof fn lemma_scan_identity(img: Seq<u8>, base: int, repls: Seq<Replacement>, n: int)
    requires
        0 <= n <= img.len(),
        forall|q: int| 0 <= q < n ==> !hooked_call(img, base, repls, q),
    ensures
        scan_after(img, base, repls, n) == (img, Seq::<Patch>::empty(), None::<usize>),
    decreases n,
{
    if n > 0 {
        lemma_scan_identity(img, base, repls, n - 1);
        let p = n - 1;
        if is_call_site(img, p) {
            let dest = site_destination(img, base, p);
            assert(!hooked_call(img, base, repls, p));
            assert forall|j: int| 0 <= j < repls.len() && (#[trigger] repls[j]).rva != 0 implies dest
                != repls[j].rva by {
                if dest == repls[j].rva {
                    assert(hooked_call(img, base, repls, p));
                }
            }
            lemma_site_no_match(img, base, p, dest, repls, repls.len() as int);
            assert(Seq::<Patch>::empty() + Seq::<Patch>::empty() =~= Seq::<Patch>::empty());
        }
    }
}

/// Whether offset `q` is where a patch that no later patch overlaps put
/// its call.
pub open spec fn surviving_site(ps: Seq<Patch>, q: int) -> bool {
    exists|k: int| 0 <= k < ps.len() && survives(ps, k) && (#[trigger] ps[k]).offset == q
}

proof fn lemma_surviving_site_not_hooked(
    img0: Seq<u8>,
    img: Seq<u8>,
    base: int,
    ps: Seq<Patch>,
    repls: Seq<Replacement>,
    q: int,
)
    requires
        0 <= base,
        base + img.len() <= usize::MAX,
        patched_from(img0, img, base, ps, repls),
        surviving_site(ps, q),
        forall|j: int, k: int|
            0 <= j < repls.len() && 0 <= k < repls.len() && (#[trigger] repls[k]).rva != 0
                ==> (#[trigger] repls[j]).replacement != Some(repls[k].rva),
        forall|k: int|
            0 <= k < ps.len() ==> -0x8000_0000 <= (#[trigger] ps[k]).target - (base + ps[k].offset
                + 5) < 0x8000_0000,
    ensures
        !hooked_call(img, base, repls, q),
{
    let k = choose|k: int| 0 <= k < ps.len() && survives(ps, k) && (#[trigger] ps[k]).offset == q;
    let pt = ps[k];
    assert(patch_holds(img, base, pt));
    assert(pt.offset + 5 <= img.len());
    let at = (base + q) as usize;
    let t = pt.target;
    let bytes = call_bytes(at as int, t as int);
    assert(img.subrange(q, q + 5) == bytes);
    assert(img[q + 1] == bytes[1] && img[q + 2] == bytes[2] && img[q + 3] == bytes[3] && img[q + 4]
        == bytes[4]) by {
        assert(img.subrange(q, q + 5)[1] == img[q + 1]);
        assert(img.subrange(q, q + 5)[2] == img[q + 2]);
        assert(img.subrange(q, q + 5)[3] == img[q + 3]);
        assert(img.subrange(q, q + 5)[4] == img[q + 4]);
    }
    lemma_call_lands_on_target(at, t);
    assert(site_destination(img, base, q) == t);
    assert(from_replacement(repls, pt));
    let j = choose|j: int|
        0 <= j < repls.len() && (#[trigger] repls[j]).rva != 0 && repls[j].replacement == Some(
            pt.target,
        );
    if hooked_call(img, base, repls, q) {
        let j2 = choose|j2: int|
            0 <= j2 < repls.len() && (#[trigger] repls[j2]).rva != 0 && site_destination(img, base, q)
                == repls[j2].rva;
        assert(repls[j].replacement == Some(repls[j2].rva));
    }
}

/// A second scan of an image that a first scan patched to the end makes no
/// patch and changes nothing, provided that no replacement's address is
/// itself the address of a hooked function, that every patch's target lies
/// within a 32-bit displacement of its call, and that no offset among the
/// rewritten bytes, other than where a surviving patch put its call, holds a
/// call to the address of a hooked function (as a 0xE8 byte just before a
/// patched site could, once the new displacement follows it).
pub proof fn lemma_rescan_patches_nothing(img: Seq<u8>, base: int, repls: Seq<Replacement>, scan_len: int)
    requires
        0 <= base,
        base + img.len() <= usize::MAX,
        0 <= scan_len <= img.len(),
        scan_image(img, base, repls, scan_len).2 is None,
        forall|j: int, k: int|
            0 <= j < repls.len() && 0 <= k < repls.len() && (#[trigger] repls[k]).rva != 0
                ==> (#[trigger] repls[j]).replacement != Some(repls[k].rva),
        forall|k: int|
            0 <= k < scan_image(img, base, repls, scan_len).1.len() ==> -0x8000_0000 <= (
            #[trigger] scan_image(img, base, repls, scan_len).1[k]).target - (base + scan_image(
                img,
                base,
                repls,
                scan_len,
            ).1[k].offset + 5) < 0x8000_0000,
        forall|q: int|
            0 <= q < scan_len && !untouched(scan_image(img, base, repls, scan_len).1, q)
                && !surviving_site(scan_image(img, base, repls, scan_len).1, q) ==> !hooked_call(
                scan_image(img, base, repls, scan_len).0,
                base,
                repls,
                q,
            ),
    ensures
        scan_image(scan_image(img, base, repls, scan_len).0, base, repls, scan_len) == (
            scan_image(img, base, repls, scan_len).0,
            Seq::<Patch>::empty(),
            None::<usize>,
        ),
{
    let first = scan_image(img, base, repls, scan_len);
    let img1 = first.0;
    let ps = first.1;
    lemma_scan_effect(img, base, repls, scan_len);
    lemma_scan_redirects_every_hooked_call(img, base, repls, scan_len);
    assert forall|q: int| 0 <= q < scan_len implies !hooked_call(img1, base, repls, q) by {
        if !untouched(ps, q) && surviving_site(ps, q) {
            lemma_surviving_site_not_hooked(img, img1, base, ps, repls, q);
        }
    }
    lemma_scan_identity(img1, base, repls, scan_len);
}

} // verus!
