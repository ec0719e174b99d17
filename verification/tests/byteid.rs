use swarm::byteid::{ByteId, BYTE_ID_LEN};

#[test]
fn byte_test() {
    let a = [0u8; BYTE_ID_LEN];
    let mut b = [0u8; BYTE_ID_LEN];
    b[BYTE_ID_LEN / 2] = 9;
    let id_a = ByteId(a);
    let id_b = ByteId(b);

    assert_eq!(id_a.byte(0), 0u8);
    assert_eq!(id_a.byte(BYTE_ID_LEN), 0u8);
    assert_eq!(id_b.byte(BYTE_ID_LEN / 2), 9u8);
}

#[test]
fn set_byte_test() {
    let a = [0u8; BYTE_ID_LEN];
    let mut id_a = ByteId(a);

    id_a.set_byte(0, 9);
    assert_eq!(id_a.byte(0), 9u8);

    id_a.set_byte(BYTE_ID_LEN, 9);
    assert_eq!(id_a.byte(BYTE_ID_LEN), 9u8);
}

#[test]
fn bitand_test() {
    let data = [0u8; BYTE_ID_LEN];
    let mut id_a = ByteId(data.clone());
    let mut id_b = ByteId(data);

    id_a.set_byte(3, 0b1010_1010);
    id_b.set_byte(3, 0b0101_0111);
    let id_c = id_a.bitand(&id_b);

    assert_eq!(id_c.byte(3), 0b0000_0010);
}

#[test]
fn bitor_test() {
    let data = [0u8; BYTE_ID_LEN];
    let mut id_a = ByteId(data.clone());
    let mut id_b = ByteId(data);

    id_a.set_byte(3, 0b1010_1010);
    id_b.set_byte(3, 0b0101_0111);
    let id_c = id_a.bitor(&id_b);

    assert_eq!(id_c.byte(3), 0b1111_1111);
}

#[test]
fn bitxor_test() {
    let data = [0u8; BYTE_ID_LEN];
    let mut id_a = ByteId(data.clone());
    let mut id_b = ByteId(data);

    id_a.set_byte(3, 0b1010_1010);
    id_b.set_byte(3, 0b0101_0111);
    let id_c = id_a.bitxor(&id_b);

    assert_eq!(id_c.byte(3), 0b1111_1101);
}

#[test]
fn not_test() {
    let data = [0u8; BYTE_ID_LEN];
    let mut id_b = ByteId(data);

    id_b.set_byte(3, 0b0000_1111);
    let id_c = id_b.not();

    assert_eq!(id_c.byte(3), 0b1111_0000);
}

#[test]
fn equal_test() {
    let id_a = ByteId::random_id();
    let id_b = ByteId::random_id();
    let id_c = id_a.clone();

    assert!(id_c == id_a);
    assert!(!(id_b == id_a));
}

#[test]
fn show_test() {
    println!("{:?}", ByteId::random_id());
}
