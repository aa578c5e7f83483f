use snifferlauncher::widget::{
    fnv1a, BTN_CAMERA, BTN_CONTACTS, BTN_LIST, BTN_SETTINGS, FNV_OFFSET_BASIS, HEADER, ROOT,
};

#[test]
fn fnv1a_of_empty_is_offset_basis() {
    assert_eq!(fnv1a(b""), FNV_OFFSET_BASIS);
    assert_eq!(fnv1a(b""), 0xcbf2_9ce4_8422_2325);
}

#[test]
fn fnv1a_known_vectors() {
    assert_eq!(fnv1a(b"a"), 0xaf63_dc4c_8601_ec8c);
    assert_eq!(fnv1a(b"foobar"), 0x8594_4171_f739_67e8);
}

#[test]
fn fnv1a_declared_widget_ids() {
    assert_eq!(fnv1a(b"root"), 0xa354_fd1f_f0c4_67c5);
    assert_eq!(fnv1a(b"header"), 0x3a50_6cb5_0176_1960);
    assert_eq!(fnv1a(b"btn-list"), 0x55e9_fde6_9534_ba3a);
    assert_eq!(fnv1a(b"btn-settings"), 0xc666_8786_8874_299b);
    assert_eq!(fnv1a(b"btn-contacts"), 0xddfd_b0d7_ab14_0fd7);
    assert_eq!(fnv1a(b"btn-camera"), 0x8e7a_235e_0d18_851d);
}

#[test]
fn fnv1a_declared_widget_ids_are_distinct() {
    let names: [&[u8]; 6] = [
        b"root",
        b"header",
        b"btn-list",
        b"btn-settings",
        b"btn-contacts",
        b"btn-camera",
    ];
    let ids: Vec<u64> = names.iter().map(|n| fnv1a(n)).collect();
    for i in 0..ids.len() {
        for j in (i + 1)..ids.len() {
            assert_ne!(ids[i], ids[j]);
        }
    }
}

#[test]
fn fnv1a_is_a_left_fold() {
    // Hashing "ab" continues from the hash of "a".
    let a = fnv1a(b"a");
    let step = (a ^ u64::from(b'b')).wrapping_mul(0x0000_0100_0000_01B3);
    assert_eq!(fnv1a(b"ab"), step);
}

#[test]
fn declared_id_constants() {
    assert_eq!(ROOT, fnv1a(b"root"));
    assert_eq!(HEADER, fnv1a(b"header"));
    assert_eq!(BTN_LIST, fnv1a(b"btn-list"));
    assert_eq!(BTN_SETTINGS, fnv1a(b"btn-settings"));
    assert_eq!(BTN_CONTACTS, fnv1a(b"btn-contacts"));
    assert_eq!(BTN_CAMERA, fnv1a(b"btn-camera"));
}
