use snarkvm_debug::kernel::{DpcError, KernelParameters, TransactionKernel};

fn params() -> KernelParameters {
    KernelParameters {
        network_id: 1,
        num_input_records: 2,
        num_output_records: 2,
        serial_number_size: 3,
        commitment_size: 2,
        memo_size: 4,
    }
}

fn kernel() -> TransactionKernel {
    TransactionKernel {
        network_id: 1,
        serial_numbers: vec![vec![1, 2, 3], vec![4, 5, 6]],
        commitments: vec![vec![7, 8], vec![9, 10]],
        value_balance: -2,
        memo: vec![0xaa, 0xbb, 0xcc, 0xdd],
    }
}

#[test]
fn valid_kernel_fits_the_network() {
    assert!(kernel().is_valid(&params()));
    let mut k = kernel();
    k.network_id = 2;
    assert!(!k.is_valid(&params()));
    let mut k = kernel();
    k.serial_numbers.pop();
    assert!(!k.is_valid(&params()));
    let mut k = kernel();
    k.commitments.push(vec![0, 0]);
    assert!(!k.is_valid(&params()));
}

#[test]
fn parts_of_the_wrong_size_are_refused() {
    let mut k = kernel();
    k.serial_numbers[1] = vec![4, 5];
    assert!(!k.is_valid(&params()));
    assert_eq!(k.to_bytes_le(&params()), Err(DpcError::InvalidKernel(1, 2, 2)));
    let mut k = kernel();
    k.commitments[0] = vec![7, 8, 9];
    assert_eq!(k.to_signature_message(&params()), Err(DpcError::InvalidKernel(1, 2, 2)));
    let mut k = kernel();
    k.memo.pop();
    assert!(!k.is_valid(&params()));
}

#[test]
fn signature_message_is_the_encoding() {
    let bytes = kernel().to_signature_message(&params()).unwrap();
    let expected: Vec<u8> = vec![
        1, 1, 2, 3, 4, 5, 6, 7, 8, 9, 10, 0xfe, 0xff, 0xff, 0xff, 0xff, 0xff, 0xff, 0xff, 0xaa, 0xbb, 0xcc, 0xdd,
    ];
    assert_eq!(bytes, expected);
    assert_eq!(kernel().to_bytes_le(&params()).unwrap(), expected);
}

#[test]
fn invalid_kernel_is_refused() {
    let mut k = kernel();
    k.network_id = 3;
    k.commitments.push(vec![1, 1]);
    assert_eq!(k.to_signature_message(&params()), Err(DpcError::InvalidKernel(3, 2, 3)));
    assert_eq!(k.to_bytes_le(&params()), Err(DpcError::InvalidKernel(3, 2, 3)));
    assert_eq!(k.output_serial_number_nonce_inputs(&params()), Err(DpcError::InvalidKernel(3, 2, 3)));
}

#[test]
fn kernel_round_trip() {
    let bytes = kernel().to_bytes_le(&params()).unwrap();
    let back = TransactionKernel::from_bytes_le(&bytes, &params()).unwrap();
    assert_eq!(back, kernel());
    let mut longer = bytes.clone();
    longer.push(99);
    assert_eq!(TransactionKernel::from_bytes_le(&longer, &params()).unwrap(), kernel());
}

#[test]
fn value_balance_extremes_round_trip() {
    for balance in [i64::MIN, -1, 0, 1, i64::MAX] {
        let mut k = kernel();
        k.value_balance = balance;
        let bytes = k.to_bytes_le(&params()).unwrap();
        assert_eq!(TransactionKernel::from_bytes_le(&bytes, &params()).unwrap().value_balance, balance);
    }
}

#[test]
fn short_bytes_end_too_soon() {
    let bytes = kernel().to_bytes_le(&params()).unwrap();
    assert_eq!(TransactionKernel::from_bytes_le(&bytes[..bytes.len() - 1], &params()), Err(DpcError::UnexpectedEof));
    assert_eq!(TransactionKernel::from_bytes_le(&[], &params()), Err(DpcError::UnexpectedEof));
}

#[test]
fn nonce_inputs_carry_the_position() {
    let inputs = kernel().output_serial_number_nonce_inputs(&params()).unwrap();
    assert_eq!(inputs, vec![vec![2, 1, 2, 3, 4, 5, 6], vec![3, 1, 2, 3, 4, 5, 6]]);
}

#[test]
fn nonce_positions_wrap_at_a_byte() {
    let p = KernelParameters {
        network_id: 0,
        num_input_records: 255,
        num_output_records: 2,
        serial_number_size: 0,
        commitment_size: 0,
        memo_size: 0,
    };
    let k = TransactionKernel {
        network_id: 0,
        serial_numbers: vec![vec![]; 255],
        commitments: vec![vec![], vec![]],
        value_balance: 0,
        memo: vec![],
    };
    let inputs = k.output_serial_number_nonce_inputs(&p).unwrap();
    assert_eq!(inputs, vec![vec![255], vec![0]]);
}
