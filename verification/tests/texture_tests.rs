use raytracer::texture::{build_permutation, lattice_hashes};

#[test]
fn default_permutation_table() {
    let t = build_permutation(None);
    assert_eq!(t.len(), 256);
    assert_eq!(t[0], 151);
    assert_eq!(t[255], 180);
}

#[test]
fn seeded_permutation_holds_each_byte_once() {
    for seed in [0u64, 1, 42, 12345] {
        let t = build_permutation(Some(seed));
        let mut seen = [0u32; 256];
        for v in &t {
            seen[*v as usize] += 1;
        }
        assert!(seen.iter().all(|c| *c == 1));
    }
    assert_eq!(
        build_permutation(Some(7)),
        build_permutation(Some(7))
    );
}

#[test]
fn lattice_hashes_of_the_default_table() {
    let t = build_permutation(None);
    // a = t[0] = 151, b = t[1] = 160
    let expected = (t[151], t[152], t[160], t[161]);
    assert_eq!(lattice_hashes(&t, 0, 0), expected);
    // -1 wraps to 255 and 256 wraps to 0
    let a = t[255] as usize;
    let b = t[0] as usize;
    let expected = (t[a % 256], t[(a + 1) % 256], t[b % 256], t[(b + 1) % 256]);
    assert_eq!(lattice_hashes(&t, -1, 256), expected);
}

#[test]
fn seeded_permutation_is_shuffled() {
    let identity: Vec<u8> = (0..=255u8).collect();
    let a = build_permutation(Some(3));
    let b = build_permutation(Some(4));
    assert_ne!(a, identity);
    assert_ne!(a, b);
}
