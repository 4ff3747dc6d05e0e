use irys_shadows::account::AccountDiff;
use irys_shadows::address::Address;
use irys_shadows::pledge::TxId;
use irys_shadows::rlp::DecodeError;
use irys_shadows::shadow::{
    DataShadow, MiningAddressPledgeShadow, PartitionPledgeShadow, PartitionUnPledgeShadow,
    ShadowTx, ShadowTxType, ShadowTxTypeId, ShadowTxTypeIdDecodeError, Shadows, SlashShadow,
    TransferShadow, UnpledgeAllShadow,
};
use irys_shadows::uint256::UInt256;
use irys_shadows::wire::EncodeError;

fn every_wire_operation() -> Vec<ShadowTxType> {
    vec![
        ShadowTxType::Null,
        ShadowTxType::Transfer(TransferShadow {
            to: Address::new([0xab; 20]),
            amount: UInt256::from_u64(40),
        }),
        ShadowTxType::Transfer(TransferShadow {
            to: Address::new([0; 20]),
            amount: UInt256::from_be_bytes([0xff; 32]),
        }),
        ShadowTxType::Data(DataShadow { fee: UInt256::zero() }),
        ShadowTxType::Data(DataShadow { fee: UInt256::from_u64(1024) }),
        ShadowTxType::MiningAddressPledge(MiningAddressPledgeShadow {
            value: UInt256::from_u64(u64::MAX),
        }),
        ShadowTxType::PartitionPledge(PartitionPledgeShadow {
            quantity: UInt256::from_u64(5),
            part_hash: TxId::new([7; 32]),
            height: 10,
        }),
        ShadowTxType::PartitionPledge(PartitionPledgeShadow {
            quantity: UInt256::from_be_bytes([0x80; 32]),
            part_hash: TxId::new([0; 32]),
            height: u64::MAX,
        }),
        ShadowTxType::PartitionUnPledge(PartitionUnPledgeShadow { part_hash: TxId::new([1; 32]) }),
        ShadowTxType::UnpledgeAll(UnpledgeAllShadow {}),
        ShadowTxType::Slash(SlashShadow { slashed_addr: Address::new([0x11; 20]) }),
    ]
}

fn empty_diff() -> AccountDiff {
    AccountDiff {
        balance: None,
        nonce: None,
        stake: None,
        commitments: None,
        last_tx: None,
        mining_permission: None,
    }
}

#[test]
fn every_operation_is_read_back_from_its_wire_form() {
    for op in every_wire_operation() {
        let mut bytes = Vec::new();
        assert_eq!(op.encode(&mut bytes), Ok(()));
        assert_eq!(bytes.len(), op.length());
        let (decoded, rest) = ShadowTxType::decode(&bytes).unwrap();
        assert_eq!(decoded, op);
        assert!(rest.is_empty());
    }
}

#[test]
fn decoding_leaves_what_follows() {
    for op in every_wire_operation() {
        let mut bytes = Vec::new();
        op.encode(&mut bytes).unwrap();
        bytes.extend_from_slice(&[0xde, 0xad]);
        let (decoded, rest) = ShadowTxType::decode(&bytes).unwrap();
        assert_eq!(decoded, op);
        assert_eq!(rest, &[0xde, 0xad]);
    }
}

#[test]
fn encoding_appends_to_what_is_there() {
    let mut bytes = vec![1, 2, 3];
    ShadowTxType::Null.encode(&mut bytes).unwrap();
    assert_eq!(bytes, vec![1, 2, 3, 0]);
}

#[test]
fn the_type_byte_comes_first() {
    let expected: [u8; 11] = [0, 1, 1, 2, 2, 3, 4, 4, 5, 6, 7];
    for (op, tag) in every_wire_operation().iter().zip(expected.iter()) {
        let mut bytes = Vec::new();
        op.encode(&mut bytes).unwrap();
        assert_eq!(bytes[0], *tag);
        assert_eq!(op.type_id().unwrap().to_u8(), *tag);
    }
}

#[test]
fn wire_forms_byte_for_byte() {
    let mut bytes = Vec::new();
    ShadowTxType::Null.encode(&mut bytes).unwrap();
    assert_eq!(bytes, vec![0x00]);

    let mut bytes = Vec::new();
    ShadowTxType::UnpledgeAll(UnpledgeAllShadow {}).encode(&mut bytes).unwrap();
    assert_eq!(bytes, vec![0x06, 0xc0]);

    let mut bytes = Vec::new();
    ShadowTxType::Data(DataShadow { fee: UInt256::from_u64(1024) }).encode(&mut bytes).unwrap();
    assert_eq!(bytes, vec![0x02, 0xc3, 0x82, 0x04, 0x00]);

    let mut bytes = Vec::new();
    ShadowTxType::Data(DataShadow { fee: UInt256::zero() }).encode(&mut bytes).unwrap();
    assert_eq!(bytes, vec![0x02, 0xc1, 0x80]);

    let mut bytes = Vec::new();
    ShadowTxType::Data(DataShadow { fee: UInt256::from_u64(0x7f) }).encode(&mut bytes).unwrap();
    assert_eq!(bytes, vec![0x02, 0xc1, 0x7f]);

    let mut bytes = Vec::new();
    ShadowTxType::Data(DataShadow { fee: UInt256::from_u64(0x80) }).encode(&mut bytes).unwrap();
    assert_eq!(bytes, vec![0x02, 0xc2, 0x81, 0x80]);

    let mut bytes = Vec::new();
    ShadowTxType::Slash(SlashShadow { slashed_addr: Address::new([0x11; 20]) })
        .encode(&mut bytes)
        .unwrap();
    let mut expected = vec![0x07, 0xd5, 0x94];
    expected.extend_from_slice(&[0x11; 20]);
    assert_eq!(bytes, expected);
}

#[test]
fn a_long_list_has_its_length_in_a_byte_of_its_own() {
    let op = ShadowTxType::PartitionPledge(PartitionPledgeShadow {
        quantity: UInt256::from_be_bytes([0x80; 32]),
        part_hash: TxId::new([0; 32]),
        height: u64::MAX,
    });
    let mut bytes = Vec::new();
    op.encode(&mut bytes).unwrap();
    // 33 + 33 + 9 bytes of fields
    assert_eq!(&bytes[..3], &[0x04, 0xf8, 75]);
    assert_eq!(bytes.len(), 78);
}

#[test]
fn an_unknown_type_byte_is_named_in_the_error() {
    for byte in [8u8, 9, 0x7f, 0x80, 0xc0, 0xff] {
        let bytes = vec![byte, 0xc0];
        assert_eq!(
            ShadowTxType::decode(&bytes).unwrap_err(),
            DecodeError::UnknownShadowTypeId(byte)
        );
        assert_eq!(
            ShadowTxTypeId::try_from(byte).unwrap_err(),
            ShadowTxTypeIdDecodeError::UnknownShadowTypeId(byte)
        );
    }
}

#[test]
fn the_bytes_zero_to_seven_name_the_types() {
    let types = [
        ShadowTxTypeId::Null,
        ShadowTxTypeId::Transfer,
        ShadowTxTypeId::Data,
        ShadowTxTypeId::MiningAddressPledge,
        ShadowTxTypeId::PartitionPledge,
        ShadowTxTypeId::PartitionUnPledge,
        ShadowTxTypeId::UnpledgeAll,
        ShadowTxTypeId::Slash,
    ];
    for (byte, id) in types.iter().enumerate() {
        assert_eq!(ShadowTxTypeId::try_from(byte as u8), Ok(*id));
        assert_eq!(id.to_u8(), byte as u8);
    }
}

#[test]
fn a_diff_has_no_wire_form() {
    let op = ShadowTxType::Diff(empty_diff());
    let mut bytes = vec![9, 9];
    assert_eq!(op.encode(&mut bytes), Err(EncodeError::NoWireForm));
    assert_eq!(bytes, vec![9, 9]);
    assert_eq!(op.length(), 0);
    assert_eq!(op.type_id(), None);

    let tx = ShadowTx { tx_id: TxId::new([1; 32]), address: Address::new([2; 20]), tx: op };
    assert_eq!(tx.encode(&mut bytes), Err(EncodeError::NoWireForm));
    assert_eq!(bytes, vec![9, 9]);
    assert_eq!(tx.length(), 0);

    let shadows = Shadows::new(vec![
        ShadowTx { tx_id: TxId::new([1; 32]), address: Address::new([2; 20]), tx: ShadowTxType::Null },
        tx,
    ]);
    assert_eq!(shadows.encode(&mut bytes), Err(EncodeError::NoWireForm));
    assert_eq!(bytes, vec![9, 9]);
    assert_eq!(shadows.length(), Err(EncodeError::NoWireForm));
}

#[test]
fn every_transaction_is_read_back_from_its_wire_form() {
    for (i, op) in every_wire_operation().into_iter().enumerate() {
        let tx = ShadowTx {
            tx_id: TxId::new([i as u8; 32]),
            address: Address::new([0xa0 + i as u8; 20]),
            tx: op,
        };
        let mut bytes = Vec::new();
        assert_eq!(tx.encode(&mut bytes), Ok(()));
        assert_eq!(bytes.len(), tx.length());
        let (decoded, rest) = ShadowTx::decode(&bytes).unwrap();
        assert_eq!(decoded, tx);
        assert!(rest.is_empty());
    }
}

#[test]
fn a_null_transaction_byte_for_byte() {
    let tx = ShadowTx {
        tx_id: TxId::new([0x22; 32]),
        address: Address::new([0x33; 20]),
        tx: ShadowTxType::Null,
    };
    let mut bytes = Vec::new();
    tx.encode(&mut bytes).unwrap();
    let mut expected = vec![0xf7, 0xa0];
    expected.extend_from_slice(&[0x22; 32]);
    expected.push(0x94);
    expected.extend_from_slice(&[0x33; 20]);
    expected.push(0x00);
    assert_eq!(bytes, expected);
}

#[test]
fn a_block_of_transactions_is_read_back_in_order() {
    let txs: Vec<ShadowTx> = every_wire_operation()
        .into_iter()
        .enumerate()
        .map(|(i, op)| ShadowTx {
            tx_id: TxId::new([i as u8; 32]),
            address: Address::new([i as u8; 20]),
            tx: op,
        })
        .collect();
    let shadows = Shadows::new(txs.clone());
    let mut bytes = Vec::new();
    assert_eq!(shadows.encode(&mut bytes), Ok(()));
    assert_eq!(shadows.length(), Ok(bytes.len()));
    bytes.push(0x55);
    let (decoded, rest) = Shadows::decode(&bytes).unwrap();
    assert_eq!(rest, &[0x55]);
    assert_eq!(decoded.len(), txs.len());
    assert_eq!(decoded.into_inner(), txs);
}

#[test]
fn an_empty_block_is_the_empty_list() {
    let shadows = Shadows::new(Vec::new());
    let mut bytes = Vec::new();
    shadows.encode(&mut bytes).unwrap();
    assert_eq!(bytes, vec![0xc0]);
    let (decoded, rest) = Shadows::decode(&bytes).unwrap();
    assert!(decoded.is_empty());
    assert!(rest.is_empty());
}

fn data_with_fee_bytes(fee: &[u8]) -> Vec<u8> {
    let mut bytes = vec![0x02, 0xc0 + fee.len() as u8];
    bytes.extend_from_slice(fee);
    bytes
}

#[test]
fn malformed_input_is_refused_with_its_reason() {
    // nothing at all
    assert_eq!(ShadowTxType::decode(&[]).unwrap_err(), DecodeError::InputTooShort);
    // the type byte alone
    assert_eq!(ShadowTxType::decode(&[0x02]).unwrap_err(), DecodeError::InputTooShort);
    // a list that ends early
    assert_eq!(ShadowTxType::decode(&[0x02, 0xc3, 0x82]).unwrap_err(), DecodeError::InputTooShort);
    // a string where the list of fields belongs
    assert_eq!(ShadowTxType::decode(&[0x02, 0x80]).unwrap_err(), DecodeError::UnexpectedString);
    // a list where a number belongs
    assert_eq!(
        ShadowTxType::decode(&data_with_fee_bytes(&[0xc0])).unwrap_err(),
        DecodeError::UnexpectedList
    );
    // a number with a zero byte in front
    assert_eq!(
        ShadowTxType::decode(&data_with_fee_bytes(&[0x82, 0x00, 0x01])).unwrap_err(),
        DecodeError::LeadingZero
    );
    // zero written as a byte
    assert_eq!(
        ShadowTxType::decode(&data_with_fee_bytes(&[0x00])).unwrap_err(),
        DecodeError::LeadingZero
    );
    // a byte below 0x80 with a length in front
    assert_eq!(
        ShadowTxType::decode(&data_with_fee_bytes(&[0x81, 0x05])).unwrap_err(),
        DecodeError::NonCanonicalSingleByte
    );
    // a number of 33 bytes
    let mut fee = vec![0xa1];
    fee.extend_from_slice(&[0x01; 33]);
    assert_eq!(
        ShadowTxType::decode(&data_with_fee_bytes(&fee)).unwrap_err(),
        DecodeError::Overflow
    );
    // a short length in the long form
    assert_eq!(
        ShadowTxType::decode(&[0x02, 0xf8, 0x01, 0x05]).unwrap_err(),
        DecodeError::NonCanonicalSize
    );
    // a length with a zero byte in front
    assert_eq!(
        ShadowTxType::decode(&[0x02, 0xf9, 0x00, 0x40]).unwrap_err(),
        DecodeError::LeadingZero
    );
    // fields that do not fill the list
    assert_eq!(
        ShadowTxType::decode(&[0x02, 0xc2, 0x05, 0x06]).unwrap_err(),
        DecodeError::ListLengthMismatch
    );
    // fields in a list that should be empty
    assert_eq!(
        ShadowTxType::decode(&[0x06, 0xc1, 0x05]).unwrap_err(),
        DecodeError::ListLengthMismatch
    );
    // an address of 19 bytes
    let mut slash = vec![0x07, 0xd4, 0x93];
    slash.extend_from_slice(&[0x11; 19]);
    assert_eq!(ShadowTxType::decode(&slash).unwrap_err(), DecodeError::UnexpectedLength);
}

#[test]
fn a_height_of_nine_bytes_overflows() {
    // a quantity of one byte, a partition of 33 and a height of ten
    let mut bytes = vec![0x04, 0xc0 + 44, 0x05, 0xa0];
    bytes.extend_from_slice(&[0x07; 32]);
    bytes.push(0x89);
    bytes.extend_from_slice(&[0x01; 9]);
    assert_eq!(bytes.len(), 2 + 44);
    assert_eq!(ShadowTxType::decode(&bytes).unwrap_err(), DecodeError::Overflow);
}

#[test]
fn a_broken_transaction_in_a_block_fails_the_block() {
    let good = ShadowTx {
        tx_id: TxId::new([1; 32]),
        address: Address::new([2; 20]),
        tx: ShadowTxType::Null,
    };
    let shadows = Shadows::new(vec![good.clone(), good]);
    let mut bytes = Vec::new();
    shadows.encode(&mut bytes).unwrap();
    // the last byte is the second transaction's type byte
    let last = bytes.len() - 1;
    bytes[last] = 0x09;
    assert_eq!(Shadows::decode(&bytes).unwrap_err(), DecodeError::UnknownShadowTypeId(9));
}

#[test]
fn what_is_accepted_is_the_wire_form_of_what_is_returned() {
    // every wire form, with each of its bytes changed in turn
    let mut state: u64 = 0x9e37_79b9_7f4a_7c15;
    for (i, op) in every_wire_operation().into_iter().enumerate() {
        let tx = ShadowTx {
            tx_id: TxId::new([i as u8; 32]),
            address: Address::new([0xa0 + i as u8; 20]),
            tx: op,
        };
        let mut bytes = Vec::new();
        tx.encode(&mut bytes).unwrap();
        for at in 0..bytes.len() {
            for _ in 0..8 {
                state ^= state << 13;
                state ^= state >> 7;
                state ^= state << 17;
                let mut changed = bytes.clone();
                changed[at] = (state >> 16) as u8;
                if let Ok((read, rest)) = ShadowTx::decode(&changed) {
                    let mut again = Vec::new();
                    read.encode(&mut again).unwrap();
                    assert_eq!(again, &changed[..changed.len() - rest.len()]);
                }
                if let Ok((read, rest)) = ShadowTxType::decode(&changed) {
                    let mut again = Vec::new();
                    read.encode(&mut again).unwrap();
                    assert_eq!(again, &changed[..changed.len() - rest.len()]);
                }
            }
        }
        // cut short, nothing is read
        for end in 0..bytes.len() {
            assert!(ShadowTx::decode(&bytes[..end]).is_err());
        }
    }
}

#[test]
fn the_default_operation_is_null() {
    assert_eq!(ShadowTxType::default(), ShadowTxType::Null);
}

#[test]
fn an_identifier_in_compact_form_is_its_bytes() {
    let id = TxId::new([0x5a; 32]);
    let mut buf = vec![0xff];
    assert_eq!(id.to_compact(&mut buf), 32);
    assert_eq!(buf.len(), 33);
    assert_eq!(&buf[1..], &[0x5a; 32]);
    buf.push(0x77);
    let (read, rest) = TxId::from_compact(&buf[1..], 0);
    assert_eq!(read, id);
    assert_eq!(rest, &[0x77]);
    assert_eq!(TxId::from([0x5a; 32]), id);
}
