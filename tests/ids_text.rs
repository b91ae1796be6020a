use orbital_vault::ids::{alkane_id_to_bytes, bytes_to_nft_id, AssetId};
use orbital_vault::text::{format_id, parse_id};

#[test]
fn keys_are_block_then_tx_little_endian() {
    let id = AssetId { block: 2, tx: 0x0102 };
    let b = alkane_id_to_bytes(&id);
    let mut want = vec![0u8; 32];
    want[0] = 2;
    want[16] = 0x02;
    want[17] = 0x01;
    assert_eq!(b, want);
    assert_eq!(bytes_to_nft_id(&b), Some(id));
    assert_eq!(bytes_to_nft_id(&b[..31]), None);
}

#[test]
fn identifiers_render_and_parse_as_text() {
    assert_eq!(format_id(&AssetId { block: 2, tx: 57751 }), b"2:57751".to_vec());
    assert_eq!(format_id(&AssetId { block: 0, tx: 10 }), b"0:10".to_vec());
    assert_eq!(parse_id(&b"2:57751".to_vec()), Some(AssetId { block: 2, tx: 57751 }));
    let max = format!("{}:{}", u128::MAX, 1).into_bytes();
    assert_eq!(parse_id(&max), Some(AssetId { block: u128::MAX, tx: 1 }));
    let over = b"340282366920938463463374607431768211456:1".to_vec();
    assert_eq!(parse_id(&over), None);
    assert_eq!(parse_id(&b"2:".to_vec()), None);
    assert_eq!(parse_id(&b":2".to_vec()), None);
    assert_eq!(parse_id(&b"2:3:4".to_vec()), None);
    assert_eq!(parse_id(&b"a:1".to_vec()), None);
    assert_eq!(parse_id(&b"27".to_vec()), None);
}
