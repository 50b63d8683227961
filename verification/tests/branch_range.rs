use isa_encodings::constraints::BranchRange;

#[test]
fn branch_range() {
    // ARM T1 branch.
    let t1 = BranchRange { origin: 4, bits: 9 };
    assert!(t1.contains(0, 0));
    assert!(t1.contains(0, 2));
    assert!(t1.contains(2, 0));
    assert!(t1.contains(1000, 1000));

    // Forward limit.
    assert!(t1.contains(1000, 1258));
    assert!(!t1.contains(1000, 1260));

    // Backward limit
    assert!(t1.contains(1000, 748));
    assert!(!t1.contains(1000, 746));
}

#[test]
fn branch_range_exact_limits() {
    // With origin 4 and 9 bits the displacement runs from -256 to 255.
    let t1 = BranchRange { origin: 4, bits: 9 };
    assert!(t1.contains(1000, 1000 + 4 + 255));
    assert!(!t1.contains(1000, 1000 + 4 + 256));
    assert!(t1.contains(1000, 1000 + 4 - 256));
    assert!(!t1.contains(1000, 1000 + 4 - 257));
}

#[test]
fn branch_range_moves_along_with_the_code() {
    let t1 = BranchRange { origin: 4, bits: 9 };
    let pairs: [(u32, u32); 6] =
        [(1000, 1258), (1000, 1260), (1000, 748), (1000, 746), (0, 0), (2, 0)];
    let shifts: [u32; 5] = [0, 1, 4096, 0x8000_0000, 0xffff_fff0];
    for (branch, dest) in pairs {
        for k in shifts {
            assert_eq!(
                t1.contains(branch, dest),
                t1.contains(branch.wrapping_add(k), dest.wrapping_add(k))
            );
        }
    }
}

#[test]
fn branch_range_wraps_at_32_bits() {
    // A branch just below the top of the address space to a destination just
    // above zero is a short forward branch.
    let near = BranchRange { origin: 0, bits: 8 };
    assert!(near.contains(0xffff_fff0, 0x0000_0010));
    assert!(near.contains(0x0000_0010, 0xffff_fff0));
    assert!(!near.contains(0xffff_ff00, 0x0000_0010));
}

#[test]
fn branch_range_one_bit_and_full_width() {
    let one = BranchRange { origin: 0, bits: 1 };
    assert!(one.contains(10, 10));
    assert!(one.contains(10, 9));
    assert!(!one.contains(10, 11));
    assert!(!one.contains(10, 8));

    let full = BranchRange { origin: 2, bits: 32 };
    assert!(full.contains(0, 0x7fff_ffff));
    assert!(full.contains(0x1234, 0xffff_0000));
}
