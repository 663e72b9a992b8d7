use cryptokitties::identifier::id_preimage;

#[test]
fn id_preimage_lays_out_seed_sender_nonce() {
    let mut seed = [0u8; 32];
    for (i, b) in seed.iter_mut().enumerate() {
        *b = i as u8;
    }
    let bytes = id_preimage(&seed, 0x0102, 0x0a0b0c0d0e0f1011);
    assert_eq!(bytes.len(), 48);
    assert_eq!(&bytes[..32], &seed[..]);
    assert_eq!(&bytes[32..40], &[2, 1, 0, 0, 0, 0, 0, 0]);
    assert_eq!(&bytes[40..48], &[0x11, 0x10, 0x0f, 0x0e, 0x0d, 0x0c, 0x0b, 0x0a]);
}

#[test]
fn id_preimage_differs_by_nonce() {
    let seed = [7u8; 32];
    assert_ne!(id_preimage(&seed, 1, 0), id_preimage(&seed, 1, 1));
    assert_eq!(id_preimage(&seed, 1, u64::MAX)[40..48], [0xff; 8]);
}
