use alkanes_stake::id::AlkaneId;
use alkanes_stake::parcel::{partition, AlkaneTransfer};

#[test]
fn id_bytes_layout() {
    let id = AlkaneId::new(2, 0x0102);
    let bytes = id.to_bytes();
    assert_eq!(bytes.len(), 32);
    assert_eq!(bytes[0], 2);
    assert!(bytes[1..16].iter().all(|b| *b == 0));
    assert_eq!(bytes[16], 0x02);
    assert_eq!(bytes[17], 0x01);
    let mut expected = 2u128.to_le_bytes().to_vec();
    expected.extend_from_slice(&0x0102u128.to_le_bytes());
    assert_eq!(bytes, expected);
}

#[test]
fn id_bytes_round_trip() {
    for id in [AlkaneId::new(0, 0), AlkaneId::new(u128::MAX, 1), AlkaneId::new(12345, u128::MAX - 7)] {
        assert_eq!(AlkaneId::from_bytes(&id.to_bytes()), Some(id));
    }
}

#[test]
fn id_from_longer_and_shorter_bytes() {
    let mut bytes = AlkaneId::new(5, 6).to_bytes();
    bytes.extend_from_slice(&[9, 9, 9]);
    assert_eq!(AlkaneId::from_bytes(&bytes), Some(AlkaneId::new(5, 6)));
    assert_eq!(AlkaneId::from_bytes(&bytes[..31].to_vec()), None);
    assert_eq!(AlkaneId::from_bytes(&vec![]), None);
}

#[test]
fn partition_keeps_order_and_sums() {
    let a = AlkaneId::new(2, 1);
    let b = AlkaneId::new(2, 2);
    let ts = vec![
        AlkaneTransfer { id: a, value: 3 },
        AlkaneTransfer { id: b, value: 4 },
        AlkaneTransfer { id: a, value: 5 },
    ];
    let p = partition(&ts, a);
    assert_eq!(p.matching, vec![ts[0], ts[2]]);
    assert_eq!(p.others, vec![ts[1]]);
    assert_eq!(p.total, Some(8));
    let q = partition(&vec![AlkaneTransfer { id: a, value: u128::MAX }, AlkaneTransfer { id: a, value: 1 }], a);
    assert_eq!(q.total, None);
}
