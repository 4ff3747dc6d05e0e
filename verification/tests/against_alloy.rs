use alloy_primitives::{Address as AlloyAddress, B256, U256};
use alloy_rlp::{Decodable, Encodable, Header};
use irys_shadows::address::Address;
use irys_shadows::pledge::TxId;
use irys_shadows::rlp::{
    decode_fixed, decode_header, decode_u64, decode_uint256, encode_bytes, encode_header,
    encode_u64, encode_uint256, DecodeError,
};
use irys_shadows::shadow::{PartitionPledgeShadow, ShadowTx, ShadowTxType, TransferShadow};
use irys_shadows::uint256::UInt256;

fn alloy<T: Encodable + ?Sized>(value: &T) -> Vec<u8> {
    let mut out = Vec::new();
    value.encode(&mut out);
    out
}

fn kind(e: alloy_rlp::Error) -> Option<DecodeError> {
    match e {
        alloy_rlp::Error::Overflow => Some(DecodeError::Overflow),
        alloy_rlp::Error::LeadingZero => Some(DecodeError::LeadingZero),
        alloy_rlp::Error::InputTooShort => Some(DecodeError::InputTooShort),
        alloy_rlp::Error::NonCanonicalSingleByte => Some(DecodeError::NonCanonicalSingleByte),
        alloy_rlp::Error::NonCanonicalSize => Some(DecodeError::NonCanonicalSize),
        alloy_rlp::Error::UnexpectedLength => Some(DecodeError::UnexpectedLength),
        alloy_rlp::Error::UnexpectedString => Some(DecodeError::UnexpectedString),
        alloy_rlp::Error::UnexpectedList => Some(DecodeError::UnexpectedList),
        alloy_rlp::Error::ListLengthMismatch { .. } => Some(DecodeError::ListLengthMismatch),
        _ => None,
    }
}

fn sample_numbers() -> Vec<u64> {
    vec![0, 1, 0x7f, 0x80, 0xff, 0x100, 1024, 0xffff, 0x1_0000, 0x1234_5678, u64::MAX - 1, u64::MAX]
}

#[test]
fn numbers_of_64_bits_are_encoded_alike() {
    for x in sample_numbers() {
        let mut mine = Vec::new();
        encode_u64(&mut mine, x);
        assert_eq!(mine, alloy(&x), "{x}");
    }
}

#[test]
fn numbers_of_256_bits_are_encoded_alike() {
    let mut samples: Vec<[u8; 32]> = sample_numbers()
        .into_iter()
        .map(|x| UInt256::from_u64(x).to_be_bytes())
        .collect();
    samples.push([0xff; 32]);
    samples.push([0x80; 32]);
    let mut high = [0u8; 32];
    high[0] = 1;
    samples.push(high);
    let mut mid = [0u8; 32];
    mid[17] = 0x7f;
    samples.push(mid);
    for bytes in samples {
        let mut mine = Vec::new();
        encode_uint256(&mut mine, &UInt256::from_be_bytes(bytes));
        assert_eq!(mine, alloy(&U256::from_be_bytes(bytes)));
    }
}

#[test]
fn from_u64_agrees_with_the_outside_number() {
    for x in sample_numbers() {
        assert_eq!(UInt256::from_u64(x).to_be_bytes(), U256::from(x).to_be_bytes::<32>());
    }
}

#[test]
fn identifiers_and_addresses_are_encoded_alike() {
    let mut mine = Vec::new();
    encode_bytes(&mut mine, TxId::new([0x42; 32]).as_slice());
    assert_eq!(mine, alloy(&B256::from([0x42; 32])));
    let mut mine = Vec::new();
    encode_bytes(&mut mine, Address::new([0x42; 20]).as_slice());
    assert_eq!(mine, alloy(&AlloyAddress::from([0x42; 20])));
}

#[test]
fn byte_strings_are_encoded_alike() {
    for len in [0usize, 1, 2, 55, 56, 57, 255, 256, 257, 70000] {
        for fill in [0x00u8, 0x7f, 0x80, 0xff] {
            let s = vec![fill; len];
            let mut mine = Vec::new();
            encode_bytes(&mut mine, &s);
            assert_eq!(mine, alloy(&s[..]), "{len} bytes of {fill}");
        }
    }
}

#[test]
fn headers_are_encoded_alike() {
    for list in [false, true] {
        for len in [0usize, 1, 55, 56, 255, 256, 65535, 65536, 1 << 24, 1 << 40] {
            let mut mine = Vec::new();
            encode_header(&mut mine, list, len);
            let mut theirs = Vec::new();
            Header { list, payload_length: len }.encode(&mut theirs);
            assert_eq!(mine, theirs);
        }
    }
}

fn tricky_inputs() -> Vec<Vec<u8>> {
    let mut inputs: Vec<Vec<u8>> = vec![
        vec![],
        vec![0x00],
        vec![0x05],
        vec![0x7f],
        vec![0x80],
        vec![0x81],
        vec![0x81, 0x00],
        vec![0x81, 0x7f],
        vec![0x81, 0x80],
        vec![0x82, 0x00, 0x01],
        vec![0x82, 0x01, 0x00],
        vec![0x82, 0x01],
        vec![0x88, 1, 2, 3, 4, 5, 6, 7, 8],
        vec![0x89, 1, 2, 3, 4, 5, 6, 7, 8, 9],
        vec![0xb7],
        vec![0xb8],
        vec![0xb8, 0x00],
        vec![0xb8, 0x37],
        vec![0xb8, 0x38],
        vec![0xb9, 0x00, 0x38],
        vec![0xb9, 0x01],
        vec![0xbf, 0xff, 0xff, 0xff, 0xff, 0xff, 0xff, 0xff, 0xff],
        vec![0xc0],
        vec![0xc1],
        vec![0xc1, 0x05],
        vec![0xf7],
        vec![0xf8, 0x01, 0x05],
        vec![0xf8, 0x38],
        vec![0xff, 0, 0, 0, 0, 0, 0, 0, 1],
    ];
    let mut long = vec![0xb8, 0x38];
    long.extend_from_slice(&[0x01; 56]);
    inputs.push(long);
    let mut wide = vec![0xa0];
    wide.extend_from_slice(&[0x01; 32]);
    inputs.push(wide);
    let mut too_wide = vec![0xa1];
    too_wide.extend_from_slice(&[0x01; 33]);
    inputs.push(too_wide);
    let mut address = vec![0x94];
    address.extend_from_slice(&[0x00; 20]);
    inputs.push(address);
    inputs
}

#[test]
fn headers_are_decoded_alike() {
    for input in tricky_inputs() {
        let mut slice = &input[..];
        let theirs = Header::decode(&mut slice);
        match (decode_header(&input), theirs) {
            (Ok(mine), Ok(theirs)) => {
                assert_eq!(mine.list, theirs.list);
                assert_eq!(mine.payload_length, theirs.payload_length);
                assert_eq!(mine.header_length, input.len() - slice.len());
            }
            (Err(mine), Err(theirs)) => assert_eq!(Some(mine), kind(theirs), "{input:?}"),
            (mine, theirs) => panic!("{input:?}: {mine:?} against {theirs:?}"),
        }
    }
}

#[test]
fn numbers_of_64_bits_are_decoded_alike() {
    for input in tricky_inputs() {
        let mut slice = &input[..];
        let theirs = u64::decode(&mut slice);
        match (decode_u64(&input), theirs) {
            (Ok((mine, rest)), Ok(theirs)) => {
                assert_eq!(mine, theirs);
                assert_eq!(rest, slice);
            }
            (Err(mine), Err(theirs)) => assert_eq!(Some(mine), kind(theirs), "{input:?}"),
            (mine, theirs) => panic!("{input:?}: {mine:?} against {theirs:?}"),
        }
    }
}

#[test]
fn numbers_of_256_bits_are_decoded_alike() {
    for input in tricky_inputs() {
        let mut slice = &input[..];
        let theirs = U256::decode(&mut slice);
        match (decode_uint256(&input), theirs) {
            (Ok((mine, rest)), Ok(theirs)) => {
                assert_eq!(mine.to_be_bytes(), theirs.to_be_bytes::<32>());
                assert_eq!(rest, slice);
            }
            (Err(mine), Err(theirs)) => assert_eq!(Some(mine), kind(theirs), "{input:?}"),
            (mine, theirs) => panic!("{input:?}: {mine:?} against {theirs:?}"),
        }
    }
}

#[test]
fn fixed_strings_are_decoded_alike() {
    for input in tricky_inputs() {
        let mut slice = &input[..];
        let theirs = <[u8; 20]>::decode(&mut slice);
        match (decode_fixed::<20>(&input), theirs) {
            (Ok((mine, rest)), Ok(theirs)) => {
                assert_eq!(mine, theirs);
                assert_eq!(rest, slice);
            }
            (Err(mine), Err(theirs)) => assert_eq!(Some(mine), kind(theirs), "{input:?}"),
            (mine, theirs) => panic!("{input:?}: {mine:?} against {theirs:?}"),
        }
    }
}

/// Byte strings from a fixed sequence of pseudo-random numbers. The first
/// byte is drawn from the values at which the encoding changes its form.
fn many_inputs() -> Vec<Vec<u8>> {
    let firsts: [u8; 24] = [
        0x00, 0x01, 0x7f, 0x80, 0x81, 0x82, 0x88, 0x89, 0x94, 0xa0, 0xa1, 0xb7, 0xb8, 0xb9, 0xbf,
        0xc0, 0xc1, 0xc2, 0xf7, 0xf8, 0xf9, 0xff, 0x05, 0x83,
    ];
    let mut state: u64 = 0x2545_f491_4f6c_dd1d;
    let mut next = move || {
        state ^= state << 13;
        state ^= state >> 7;
        state ^= state << 17;
        state
    };
    let mut inputs = Vec::new();
    for _ in 0..40_000 {
        let len = (next() % 70) as usize;
        let mut input = Vec::with_capacity(len + 1);
        input.push(firsts[(next() % 24) as usize]);
        for i in 0..len {
            let byte = next();
            // short lengths and zero bytes in front come up often
            input.push(if i < 2 && byte % 3 == 0 { (byte >> 8) as u8 % 0x40 } else { (byte >> 8) as u8 });
        }
        inputs.push(input);
    }
    inputs
}

#[test]
fn the_decoders_agree_on_many_inputs() {
    for input in many_inputs() {
        let mut slice = &input[..];
        match (decode_header(&input), Header::decode(&mut slice)) {
            (Ok(mine), Ok(theirs)) => {
                assert_eq!((mine.list, mine.payload_length), (theirs.list, theirs.payload_length));
                assert_eq!(mine.header_length, input.len() - slice.len());
            }
            (Err(mine), Err(theirs)) => assert_eq!(Some(mine), kind(theirs), "{input:?}"),
            (mine, theirs) => panic!("{input:?}: {mine:?} against {theirs:?}"),
        }
        let mut slice = &input[..];
        match (decode_u64(&input), u64::decode(&mut slice)) {
            (Ok((mine, rest)), Ok(theirs)) => assert_eq!((mine, rest), (theirs, slice)),
            (Err(mine), Err(theirs)) => assert_eq!(Some(mine), kind(theirs), "{input:?}"),
            (mine, theirs) => panic!("{input:?}: {mine:?} against {theirs:?}"),
        }
        let mut slice = &input[..];
        match (decode_uint256(&input), U256::decode(&mut slice)) {
            (Ok((mine, rest)), Ok(theirs)) => {
                assert_eq!((mine.to_be_bytes(), rest), (theirs.to_be_bytes::<32>(), slice))
            }
            (Err(mine), Err(theirs)) => assert_eq!(Some(mine), kind(theirs), "{input:?}"),
            (mine, theirs) => panic!("{input:?}: {mine:?} against {theirs:?}"),
        }
        let mut slice = &input[..];
        match (decode_fixed::<32>(&input), <[u8; 32]>::decode(&mut slice)) {
            (Ok((mine, rest)), Ok(theirs)) => assert_eq!((mine, rest), (theirs, slice)),
            (Err(mine), Err(theirs)) => assert_eq!(Some(mine), kind(theirs), "{input:?}"),
            (mine, theirs) => panic!("{input:?}: {mine:?} against {theirs:?}"),
        }
    }
}

#[test]
fn the_encoders_agree_on_many_numbers() {
    for input in many_inputs().into_iter().take(5_000) {
        let mut bytes = [0u8; 32];
        let start = 32usize.saturating_sub(input.len());
        for (i, b) in input.iter().take(32).enumerate() {
            bytes[start + i] = *b;
        }
        let mut mine = Vec::new();
        encode_uint256(&mut mine, &UInt256::from_be_bytes(bytes));
        assert_eq!(mine, alloy(&U256::from_be_bytes(bytes)));
        let (back, rest) = decode_uint256(&mine).unwrap();
        assert_eq!(back.to_be_bytes(), bytes);
        assert!(rest.is_empty());

        let mut low = [0u8; 8];
        low.copy_from_slice(&bytes[24..]);
        let x = u64::from_be_bytes(low);
        let mut mine = Vec::new();
        encode_u64(&mut mine, x);
        assert_eq!(mine, alloy(&x));
        assert_eq!(decode_u64(&mine).unwrap(), (x, &[][..]));
        assert_eq!(UInt256::from_u64(x).to_be_bytes(), U256::from(x).to_be_bytes::<32>());
    }
}

#[test]
fn a_transaction_is_the_list_that_the_outside_encoder_builds() {
    let pledge = PartitionPledgeShadow {
        quantity: UInt256::from_u64(123_456_789),
        part_hash: TxId::new([0x0c; 32]),
        height: 77,
    };
    let tx = ShadowTx {
        tx_id: TxId::new([0x0a; 32]),
        address: Address::new([0x0b; 20]),
        tx: ShadowTxType::PartitionPledge(pledge),
    };
    let mut mine = Vec::new();
    tx.encode(&mut mine).unwrap();

    let mut fields = Vec::new();
    U256::from(123_456_789u64).encode(&mut fields);
    B256::from([0x0c; 32]).encode(&mut fields);
    77u64.encode(&mut fields);
    let mut operation = vec![0x04];
    Header { list: true, payload_length: fields.len() }.encode(&mut operation);
    operation.extend_from_slice(&fields);

    let mut payload = Vec::new();
    B256::from([0x0a; 32]).encode(&mut payload);
    AlloyAddress::from([0x0b; 20]).encode(&mut payload);
    payload.extend_from_slice(&operation);
    let mut theirs = Vec::new();
    Header { list: true, payload_length: payload.len() }.encode(&mut theirs);
    theirs.extend_from_slice(&payload);

    assert_eq!(mine, theirs);
}

#[test]
fn a_transfer_is_the_list_that_the_outside_encoder_builds() {
    let op = ShadowTxType::Transfer(TransferShadow {
        to: Address::new([0x99; 20]),
        amount: UInt256::from_be_bytes([0xee; 32]),
    });
    let mut mine = Vec::new();
    op.encode(&mut mine).unwrap();

    let mut fields = Vec::new();
    AlloyAddress::from([0x99; 20]).encode(&mut fields);
    U256::from_be_bytes([0xee; 32]).encode(&mut fields);
    let mut theirs = vec![0x01];
    Header { list: true, payload_length: fields.len() }.encode(&mut theirs);
    theirs.extend_from_slice(&fields);
    assert_eq!(mine, theirs);
}

#[test]
fn checked_arithmetic_agrees_with_the_outside_number() {
    let samples: Vec<[u8; 32]> = vec![
        [0; 32],
        [0xff; 32],
        [0x80; 32],
        [0x7f; 32],
        UInt256::from_u64(1).to_be_bytes(),
        UInt256::from_u64(u64::MAX).to_be_bytes(),
    ];
    for a in samples.iter() {
        for b in samples.iter() {
            let (x, y) = (UInt256::from_be_bytes(*a), UInt256::from_be_bytes(*b));
            let (p, q) = (U256::from_be_bytes(*a), U256::from_be_bytes(*b));
            assert_eq!(
                x.checked_add(&y).map(|r| r.to_be_bytes()),
                p.checked_add(q).map(|r| r.to_be_bytes::<32>())
            );
            assert_eq!(
                x.checked_sub(&y).map(|r| r.to_be_bytes()),
                p.checked_sub(q).map(|r| r.to_be_bytes::<32>())
            );
            assert_eq!(x.is_equal(&y), p == q);
            assert_eq!(x.cmp(&y), p.cmp(&q));
        }
    }
}
