use ell_http::patch::{call_instruction, destination, displacement, patch_image, read_le32, Patch, Replacement};

fn repl(name: &str, rva: usize, replacement: Option<usize>) -> Replacement {
    Replacement { name: name.to_string(), rva, replacement }
}

#[test]
fn call_instruction_encodes_forward_call() {
    // call at 0x1000 to 0x2000: next instruction at 0x1005, displacement 0xFFB
    assert_eq!(call_instruction(0x1000, 0x2000), vec![0xE8, 0xFB, 0x0F, 0x00, 0x00]);
}

#[test]
fn call_instruction_encodes_backward_call() {
    // call at 0x2000 to 0x1000: displacement -0x1005
    assert_eq!(call_instruction(0x2000, 0x1000), vec![0xE8, 0xFB, 0xEF, 0xFF, 0xFF]);
}

#[test]
fn displacement_wraps_to_32_bits() {
    assert_eq!(displacement(0x1005, 0x2000), 0xFFB);
    assert_eq!(displacement(0x2005, 0x1000), 0xFFFF_EFFB);
    assert_eq!(displacement(10, 10), 0);
}

#[test]
fn read_le32_is_little_endian() {
    assert_eq!(read_le32(0x78, 0x56, 0x34, 0x12), 0x1234_5678);
}

#[test]
fn destination_follows_signed_displacement() {
    assert_eq!(destination(0x1005, 0xFFB), 0x2000);
    assert_eq!(destination(0x2005, 0xFFFF_EFFB), 0x1000);
    assert_eq!(destination(0, 0xFFFF_FFFF), usize::MAX);
}

#[test]
fn call_lands_on_target_round_trip() {
    for (at, target) in [(0x1000usize, 0x2000usize), (0x5000, 0x10), (0x40_0000, 0x40_0000)] {
        let bytes = call_instruction(at, target);
        let disp = read_le32(bytes[1], bytes[2], bytes[3], bytes[4]);
        assert_eq!(destination(at + 5, disp), target);
    }
}

#[test]
fn patch_image_redirects_matching_call() {
    // image at 0x1000: nop, call to 0x95CC30, nop
    let base = 0x1000usize;
    let mut image = vec![0x90u8];
    image.extend(call_instruction(base + 1, 0x0095_CC30));
    image.push(0x90);
    let repls = vec![repl("ell_http_open", 0x0095_CC30, Some(0x7000_0000))];
    let n = image.len();
    let out = patch_image(&mut image, base, n, &repls);
    assert_eq!(out.missing, None);
    assert_eq!(out.patches, vec![Patch { offset: 1, target: 0x7000_0000 }]);
    let mut expected = vec![0x90u8];
    expected.extend(call_instruction(base + 1, 0x7000_0000));
    expected.push(0x90);
    assert_eq!(image, expected);
}

#[test]
fn patch_image_leaves_other_calls() {
    let base = 0x40_0000usize;
    let mut image = call_instruction(base, 0x1234);
    image.extend(vec![0x00, 0x01, 0x02]);
    let before = image.clone();
    let repls = vec![repl("ell_http_connect", 0x0095_CC18, Some(0x5555))];
    let n = image.len();
    let out = patch_image(&mut image, base, n, &repls);
    assert!(out.patches.is_empty());
    assert_eq!(out.missing, None);
    assert_eq!(image, before);
}

#[test]
fn patch_image_skips_zero_rva_and_truncated_sites() {
    let base = 0usize;
    // a call whose destination is 0 only matches a replacement with a non-zero address
    let mut image = call_instruction(base, 0);
    // an opcode too close to the end to hold a displacement
    image.extend(vec![0xE8, 0x00]);
    let before = image.clone();
    let repls = vec![repl("ell_http_status_callback", 0, None)];
    let n = image.len();
    let out = patch_image(&mut image, base, n, &repls);
    assert!(out.patches.is_empty());
    assert_eq!(out.missing, None);
    assert_eq!(image, before);
}

#[test]
fn patch_image_stops_at_replacement_without_target() {
    let base = 0x1000usize;
    let mut image = vec![0x90u8, 0x90];
    image.extend(call_instruction(base + 2, 0x0095_CC10));
    let repls = vec![repl("ell_http_close_handle", 0x0095_CC10, None)];
    let n = image.len();
    let out = patch_image(&mut image, base, n, &repls);
    assert_eq!(out.missing, Some(2));
    assert!(out.patches.is_empty());
}

#[test]
fn patch_image_applies_every_matching_replacement_in_order() {
    let base = 0x2000usize;
    let mut image = call_instruction(base, 0x0095_CC30);
    let repls = vec![repl("first", 0x0095_CC30, Some(0x1111)), repl("second", 0x0095_CC30, Some(0x2222))];
    let n = image.len();
    let out = patch_image(&mut image, base, n, &repls);
    assert_eq!(out.patches, vec![Patch { offset: 0, target: 0x1111 }, Patch { offset: 0, target: 0x2222 }]);
    assert_eq!(image, call_instruction(base, 0x2222));
}

#[test]
fn patch_image_keeps_bytes_outside_patches() {
    let base = 0x3000usize;
    let mut image = vec![1u8, 2, 3];
    image.extend(call_instruction(base + 3, 0x0095_CC70));
    image.extend(vec![4u8, 5, 6]);
    let repls = vec![repl("ell_http_send_request", 0x0095_CC70, Some(0x9999))];
    let n = image.len();
    let out = patch_image(&mut image, base, n, &repls);
    assert_eq!(out.patches.len(), 1);
    assert_eq!(image.len(), 11);
    assert_eq!(&image[..3], &[1, 2, 3]);
    assert_eq!(&image[8..], &[4, 5, 6]);
    assert_eq!(&image[3..8], call_instruction(base + 3, 0x9999).as_slice());
}

#[test]
fn patch_image_leaves_no_hooked_call() {
    let base = 0x1000usize;
    let hooked = 0x0095_CC58usize;
    let mut image = call_instruction(base, hooked);
    image.extend(vec![0x90u8, 0x90]);
    image.extend(call_instruction(base + 7, 0x1234));
    image.extend(call_instruction(base + 12, hooked));
    let repls = vec![repl("ell_http_query_option", hooked, Some(0x6000))];
    let n = image.len();
    let out = patch_image(&mut image, base, n, &repls);
    assert_eq!(out.missing, None);
    assert_eq!(out.patches, vec![Patch { offset: 0, target: 0x6000 }, Patch { offset: 12, target: 0x6000 }]);
    for p in 0..image.len() - 4 {
        if image[p] == 0xE8 {
            let disp = read_le32(image[p + 1], image[p + 2], image[p + 3], image[p + 4]);
            assert_ne!(destination(base + p + 5, disp), hooked);
        }
    }
}

#[test]
fn patch_image_reads_displacement_past_module_end() {
    // the module's last byte is a call opcode; its displacement lies in the
    // four readable bytes that follow the module
    let base = 0x1000usize;
    let mut image = vec![0x90u8, 0x90];
    image.extend(call_instruction(base + 2, 0x0095_CC30));
    let module_len = 3;
    let repls = vec![repl("ell_http_open", 0x0095_CC30, Some(0x7000_0000))];
    let out = patch_image(&mut image, base, module_len, &repls);
    assert_eq!(out.missing, None);
    assert_eq!(out.patches, vec![Patch { offset: 2, target: 0x7000_0000 }]);
    let mut expected = vec![0x90u8, 0x90];
    expected.extend(call_instruction(base + 2, 0x7000_0000));
    assert_eq!(image, expected);
}

#[test]
fn patch_image_does_not_scan_past_module_end() {
    // a call site that starts after the module's last byte is not visited
    let base = 0x1000usize;
    let mut image = vec![0x90u8, 0x90];
    image.extend(call_instruction(base + 2, 0x0095_CC30));
    let before = image.clone();
    let repls = vec![repl("ell_http_open", 0x0095_CC30, Some(0x7000_0000))];
    let out = patch_image(&mut image, base, 2, &repls);
    assert!(out.patches.is_empty());
    assert_eq!(image, before);
}

#[test]
fn patch_image_twice_patches_nothing_more() {
    let base = 0x1000usize;
    let hooked = 0x0095_CC58usize;
    let mut image = call_instruction(base, hooked);
    image.extend(vec![0x90u8, 0x90]);
    image.extend(call_instruction(base + 7, 0x1234));
    image.extend(call_instruction(base + 12, hooked));
    let repls = vec![repl("ell_http_query_option", hooked, Some(0x6000))];
    let n = image.len();
    let first = patch_image(&mut image, base, n, &repls);
    assert_eq!(first.patches.len(), 2);
    let once = image.clone();
    let second = patch_image(&mut image, base, n, &repls);
    assert!(second.patches.is_empty());
    assert_eq!(second.missing, None);
    assert_eq!(image, once);
}
