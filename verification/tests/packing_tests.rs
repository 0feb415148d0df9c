use pow_miner::error::EngineError;
use pow_miner::packing::{
    encode_packed, push_minimal_uint, solidity_pack_bytes_uint, solidity_pack_bytes_uint_into,
    solidity_pack_uint_address, Token, UnsupportedToken,
};
use pow_miner::uint256::Uint256;

#[test]
fn prefix_of_nonce_one_and_the_zero_address() {
    let prefix = solidity_pack_uint_address(Uint256::from_u64(1), &[0u8; 20]).unwrap();
    let mut expected = vec![0u8; 52];
    expected[31] = 1;
    assert_eq!(prefix, expected);
}

#[test]
fn prefix_is_32_bytes_of_nonce_then_the_address() {
    let nonce = Uint256 { limbs: [4, 3, 2, 1] };
    let address: Vec<u8> = (100u8..120).collect();
    let prefix = solidity_pack_uint_address(nonce, &address).unwrap();
    assert_eq!(prefix.len(), 52);
    assert_eq!(Uint256::from_big_endian(&prefix[..32]).unwrap().limbs, nonce.limbs);
    assert_eq!(&prefix[32..], &address[..]);
}

#[test]
fn a_short_address_is_rejected() {
    let r = solidity_pack_uint_address(Uint256::from_u64(1), &[0u8; 19]);
    assert_eq!(r.unwrap_err(), EngineError::EncodingFailure);
    let r = solidity_pack_uint_address(Uint256::from_u64(1), &[]);
    assert_eq!(r.unwrap_err(), EngineError::EncodingFailure);
}

#[test]
fn a_long_address_is_rejected() {
    let r = solidity_pack_uint_address(Uint256::from_u64(1), &[0u8; 21]);
    assert_eq!(r.unwrap_err(), EngineError::EncodingFailure);
}

#[test]
fn pack_bytes_uint_keeps_the_bytes_as_they_are() {
    let packed = solidity_pack_bytes_uint(vec![1, 2, 3], Uint256::from_u64(0xff00));
    let mut expected = vec![1u8, 2, 3];
    expected.extend_from_slice(&[0u8; 30]);
    expected.extend_from_slice(&[0xff, 0]);
    assert_eq!(packed, expected);
}

#[test]
fn pack_bytes_uint_into_appends() {
    let mut out = vec![9u8, 9];
    solidity_pack_bytes_uint_into(&[1], Uint256::from_u64(2), &mut out);
    assert_eq!(out.len(), 2 + 1 + 32);
    assert_eq!(&out[..3], &[9, 9, 1]);
    assert_eq!(out[34], 2);
    assert!(out[3..34].iter().all(|b| *b == 0));
}

#[test]
fn encode_packed_strips_leading_zero_bytes_of_integers() {
    let tokens = vec![
        Token::Uint(Uint256::from_u64(0x0102)),
        Token::Uint(Uint256::zero()),
        Token::Uint(Uint256::from_u64(255)),
        Token::Uint(Uint256 { limbs: [0, 1, 0, 0] }),
    ];
    let packed = encode_packed(&tokens).unwrap();
    assert_eq!(packed, vec![1, 2, 0, 255, 1, 0, 0, 0, 0, 0, 0, 0, 0]);
}

#[test]
fn encode_packed_of_the_largest_integer_keeps_all_32_bytes() {
    let packed = encode_packed(&[Token::Uint(Uint256::max_value())]).unwrap();
    assert_eq!(packed, vec![0xffu8; 32]);
}

#[test]
fn encode_packed_keeps_addresses_and_bytes() {
    let tokens = vec![
        Token::Address([7u8; 20]),
        Token::Bytes(vec![0, 0, 9]),
        Token::Bytes(vec![]),
        Token::Uint(Uint256::from_u64(1)),
    ];
    let packed = encode_packed(&tokens).unwrap();
    let mut expected = vec![7u8; 20];
    expected.extend_from_slice(&[0, 0, 9, 1]);
    assert_eq!(packed, expected);
}

#[test]
fn encode_packed_of_nothing_is_empty() {
    assert_eq!(encode_packed(&[]).unwrap(), Vec::<u8>::new());
}

#[test]
fn encode_packed_reports_the_first_unsupported_token() {
    let tokens = vec![
        Token::Bytes(vec![1]),
        Token::Other,
        Token::Uint(Uint256::from_u64(1)),
        Token::Other,
    ];
    assert_eq!(encode_packed(&tokens).unwrap_err(), UnsupportedToken { index: 1 });
}

#[test]
fn push_minimal_uint_appends() {
    let mut out = vec![5u8];
    push_minimal_uint(&Uint256::from_u64(0x01_0000), &mut out);
    assert_eq!(out, vec![5, 1, 0, 0]);
    push_minimal_uint(&Uint256::zero(), &mut out);
    assert_eq!(out, vec![5, 1, 0, 0, 0]);
}
