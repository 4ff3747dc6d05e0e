use irys_shadows::address::Address;
use irys_shadows::irys_ext::{exit_after, NodeExitReason, ReloadPayload};
use irys_shadows::pledge::{Pledge, TxId, TXID_LENGTH};
use irys_shadows::shadow::{ShadowTx, ShadowTxType, Shadows};
use irys_shadows::uint256::UInt256;

#[test]
fn numbers_of_256_bits_hold_their_bytes() {
    assert_eq!(UInt256::zero().to_be_bytes(), [0; 32]);
    assert!(UInt256::zero().is_zero());
    assert!(!UInt256::from_u64(1).is_zero());
    let mut bytes = [0u8; 32];
    bytes[31] = 0x2a;
    assert_eq!(UInt256::from_u64(42).to_be_bytes(), bytes);
    bytes[24] = 0x01;
    assert_eq!(UInt256::from_u64(0x0100_0000_0000_002a).to_be_bytes(), bytes);
    assert_eq!(UInt256::from_be_bytes(bytes), UInt256::from_u64(0x0100_0000_0000_002a));
    assert_eq!(UInt256::from_u64(u64::MAX).to_be_bytes()[23..], [0, 255, 255, 255, 255, 255, 255, 255, 255]);
    assert!(UInt256::from_u64(7).is_equal(&UInt256::from_u64(7)));
    assert!(!UInt256::from_u64(7).is_equal(&UInt256::from_u64(8)));
    assert_eq!(UInt256::default(), UInt256::zero());
}

#[test]
fn checked_arithmetic_on_numbers_of_256_bits() {
    let max = UInt256::from_be_bytes([0xff; 32]);
    let one = UInt256::from_u64(1);
    assert_eq!(UInt256::from_u64(60).checked_add(&UInt256::from_u64(40)), Some(UInt256::from_u64(100)));
    assert_eq!(UInt256::from_u64(u64::MAX).checked_add(&one).unwrap().to_be_bytes()[23], 1);
    assert_eq!(max.checked_add(&one), None);
    assert_eq!(max.checked_add(&UInt256::zero()), Some(max));
    assert_eq!(UInt256::from_u64(100).checked_sub(&UInt256::from_u64(40)), Some(UInt256::from_u64(60)));
    assert_eq!(UInt256::from_u64(40).checked_sub(&UInt256::from_u64(100)), None);
    assert_eq!(max.checked_sub(&max), Some(UInt256::zero()));
    assert_eq!(UInt256::zero().checked_sub(&one), None);
}

#[test]
fn numbers_are_ordered_by_their_value() {
    let mut high = [0u8; 32];
    high[0] = 1;
    assert!(UInt256::from_u64(u64::MAX) < UInt256::from_be_bytes(high));
    assert!(UInt256::from_u64(1) < UInt256::from_u64(256));
    assert!(UInt256::zero() < UInt256::from_u64(1));
}

#[test]
fn identifiers_are_compared_byte_by_byte() {
    let a = TxId::new([1; 32]);
    let mut bytes = [1u8; 32];
    bytes[31] = 2;
    let b = TxId::new(bytes);
    assert!(a.is_equal(&a));
    assert!(!a.is_equal(&b));
    assert!(a < b);
    assert_eq!(a.as_slice(), &[1; 32]);
    assert_eq!(TXID_LENGTH, 32);
    assert_eq!(TxId::default(), TxId::new([0; 32]));
    let x = Address::new([1; 20]);
    assert!(x.is_equal(&Address::from([1; 20])));
    assert!(!x.is_equal(&Address::new([2; 20])));
    assert_eq!(x.as_slice(), &[1; 20]);
}

#[test]
fn the_order_of_identifiers_is_that_of_their_bytes() {
    let mut samples: Vec<[u8; 32]> = vec![[0; 32], [1; 32], [0xff; 32]];
    let mut low = [1u8; 32];
    low[31] = 0;
    samples.push(low);
    let mut high = [1u8; 32];
    high[0] = 2;
    samples.push(high);
    let mut mid = [1u8; 32];
    mid[16] = 0x80;
    samples.push(mid);
    for a in samples.iter() {
        for b in samples.iter() {
            let (x, y) = (TxId::new(*a), TxId::new(*b));
            assert_eq!(x.is_before(&y), a < b);
            assert_eq!(x.is_before(&y), x < y);
            let (p, q) = (UInt256::from_be_bytes(*a), UInt256::from_be_bytes(*b));
            assert_eq!(p.is_less_than(&q), p < q);
        }
    }
    assert!(UInt256::from_u64(3).is_less_than(&UInt256::from_u64(4)));
    assert!(!UInt256::from_u64(4).is_less_than(&UInt256::from_u64(4)));
    assert!(!UInt256::from_u64(5).is_less_than(&UInt256::from_u64(4)));
}

#[test]
fn random_identifiers_differ() {
    let a = TxId::random().unwrap();
    let b = TxId::random().unwrap();
    assert_ne!(a, b);
    let x = Address::random().unwrap();
    let y = Address::random().unwrap();
    assert_ne!(x, y);
}

#[test]
fn a_pledge_holds_what_it_was_made_of() {
    let pledge = Pledge::new(TxId::new([1; 32]), UInt256::from_u64(5), TxId::new([2; 32]), 9, 3);
    assert_eq!(pledge.tx_id(), TxId::new([1; 32]));
    assert_eq!(pledge.quantity(), UInt256::from_u64(5));
    assert_eq!(pledge.dest_hash(), TxId::new([2; 32]));
    assert_eq!(pledge.height(), 9);
    assert_eq!(pledge.tx_type(), 3);
    assert_eq!(Pledge::default().height(), 0);
}

fn null(tag: u8) -> ShadowTx {
    ShadowTx { tx_id: TxId::new([tag; 32]), address: Address::new([tag; 20]), tx: ShadowTxType::Null }
}

#[test]
fn a_list_of_shadows_keeps_its_order() {
    let mut shadows = Shadows::new(vec![null(1), null(2)]);
    shadows.push(null(3));
    assert_eq!(shadows.len(), 3);
    assert!(!shadows.is_empty());
    assert_eq!(shadows.get(2), &null(3));
    let ids: Vec<u8> = shadows.iter().map(|tx| tx.tx_id.0[0]).collect();
    assert_eq!(ids, vec![1, 2, 3]);
    assert_eq!(shadows.as_slice().len(), 3);
    assert_eq!(shadows.clone(), shadows);
    assert_eq!(Shadows::from(vec![null(1)]), Shadows::new(vec![null(1)]));
    assert!(Shadows::default().is_empty());
    assert_eq!(shadows.into_inner(), vec![null(1), null(2), null(3)]);
}

#[test]
fn the_memory_estimate_grows_with_the_list() {
    let one = std::mem::size_of::<ShadowTx>();
    let mut list = Vec::with_capacity(10);
    list.push(null(1));
    list.push(null(2));
    let shadows = Shadows::new(list);
    assert_eq!(shadows.size(), 2 * one);
    assert!(shadows.total_size() >= 10 * one);
    assert_eq!(Shadows::default().size(), 0);
}

#[test]
fn a_command_that_has_run_ends_the_node_normally() {
    assert_eq!(exit_after::<String>(Ok(())), Ok(NodeExitReason::Normal));
    assert_eq!(exit_after(Err("broken".to_string())), Err("broken".to_string()));
    assert!(!NodeExitReason::Normal.is_reload());
    assert!(NodeExitReason::Reload(ReloadPayload::ReloadConfig(vec![1, 2])).is_reload());

    let command = irys_shadows::recover::Command::new(irys_shadows::recover::Subcommands::StorageTries);
    assert_eq!(command.into_subcommand(), irys_shadows::recover::Subcommands::StorageTries);
    assert_eq!(command.execute::<String>(Ok(())), Ok(NodeExitReason::Normal));
    assert_eq!(command.execute(Err(7)), Err(7));

    let tables = irys_shadows::test_vectors::Subcommands::Tables { names: vec!["Headers".to_string()] };
    let command = irys_shadows::test_vectors::Command::new(tables);
    assert_eq!(command.execute::<String>(Ok(())), Ok(NodeExitReason::Normal));
    let tables = irys_shadows::test_vectors::Subcommands::Tables { names: vec![] };
    match irys_shadows::test_vectors::Command::new(tables).into_subcommand() {
        irys_shadows::test_vectors::Subcommands::Tables { names } => assert!(names.is_empty()),
    }
}
