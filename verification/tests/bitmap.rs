use beryl::utils::Bitmap;

#[test]
fn bitmap_set_test_unset() {
    let mut bytes = vec![0u8; 2];
    let mut bitmap = Bitmap::new(&mut bytes);
    assert_eq!(bitmap.len(), 16);
    assert!(!bitmap.test(9));
    bitmap.set(9);
    assert!(bitmap.test(9));
    assert!(!bitmap.test(8));
    assert!(!bitmap.test(10));
    bitmap.unset(9);
    assert!(!bitmap.test(9));
}

#[test]
fn bitmap_bit_order_is_least_significant_first() {
    let mut bytes = vec![0u8; 2];
    {
        let mut bitmap = Bitmap::new(&mut bytes);
        bitmap.set(0);
        bitmap.set(15);
    }
    assert_eq!(bytes, vec![0x01u8, 0x80u8]);
}
