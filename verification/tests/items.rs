use tx_assembly::address::{crc32, ByronAddress};
use tx_assembly::cbor::decode::{decode_item, from_bytes};
use tx_assembly::cbor::encode::to_bytes;
use tx_assembly::cbor::item::Cbor;
use tx_assembly::certificates::{Certificate, CommitteeHotAuth, MIRToStakeCredentials};
use tx_assembly::codec::{Codec, DecodeError};
use tx_assembly::hex::{from_hex, to_hex};
use tx_assembly::pool::RewardAddress;
use tx_assembly::primitives::{
    BigNum, Credential, DeltaCoin, FixedBytes, Hash28, Int, Text128, UnitInterval,
};
use tx_assembly::text::read::from_text;
use tx_assembly::text::write::to_text;

fn h(text: &str) -> Vec<u8> {
    from_hex(text).unwrap()
}

#[test]
fn hex_text() {
    let bytes = vec![0u8, 1, 0xab, 0xff];
    let text = to_hex(&bytes);
    assert_eq!(text, "0001abff");
    assert_eq!(from_hex(&text), Some(bytes));
    assert_eq!(from_hex("0g"), None);
    assert_eq!(from_hex("ABC"), None);
    assert_eq!(from_hex("AbCd"), Some(vec![0xab, 0xcd]));
    assert_eq!(from_hex(""), Some(vec![]));
    assert_eq!(from_hex("\u{e9}\u{e9}"), None);
}

#[test]
fn shortest_heads() {
    assert_eq!(to_bytes(&Cbor::Uint(0)), h("00"));
    assert_eq!(to_bytes(&Cbor::Uint(23)), h("17"));
    assert_eq!(to_bytes(&Cbor::Uint(24)), h("1818"));
    assert_eq!(to_bytes(&Cbor::Uint(255)), h("18ff"));
    assert_eq!(to_bytes(&Cbor::Uint(256)), h("190100"));
    assert_eq!(to_bytes(&Cbor::Uint(65535)), h("19ffff"));
    assert_eq!(to_bytes(&Cbor::Uint(65536)), h("1a00010000"));
    assert_eq!(to_bytes(&Cbor::Uint(4294967296)), h("1b0000000100000000"));
    assert_eq!(to_bytes(&Cbor::Uint(u64::MAX)), h("1bffffffffffffffff"));
    assert_eq!(to_bytes(&Cbor::Nint(0)), h("20"));
    assert_eq!(to_bytes(&Cbor::Nint(499)), h("3901f3"));
    assert_eq!(to_bytes(&Cbor::Bytes(vec![1, 2])), h("420102"));
    assert_eq!(to_bytes(&Cbor::Text(b"a".to_vec())), h("6161"));
    assert_eq!(to_bytes(&Cbor::Array(vec![Cbor::Uint(1), Cbor::Array(vec![])])), h("820180"));
    assert_eq!(
        to_bytes(&Cbor::Pairs(vec![(Cbor::Uint(1), Cbor::Simple(22))])),
        h("a101f6")
    );
    assert_eq!(
        to_bytes(&Cbor::Tag(258, Box::new(Cbor::Array(vec![])))),
        h("d9010280")
    );
    assert_eq!(to_bytes(&Cbor::Simple(20)), h("f4"));
    assert_eq!(to_bytes(&Cbor::Simple(21)), h("f5"));
}

#[test]
fn reader_takes_other_widths_and_lengths() {
    assert_eq!(from_bytes(&h("1800")), Some(Cbor::Uint(0)));
    assert_eq!(from_bytes(&h("1b0000000000000001")), Some(Cbor::Uint(1)));
    assert_eq!(
        from_bytes(&h("9f0102ff")),
        Some(Cbor::Array(vec![Cbor::Uint(1), Cbor::Uint(2)]))
    );
    assert_eq!(
        from_bytes(&h("bf0102ff")),
        Some(Cbor::Pairs(vec![(Cbor::Uint(1), Cbor::Uint(2))]))
    );
    assert_eq!(from_bytes(&h("5f4201024103ff")), Some(Cbor::Bytes(vec![1, 2, 3])));
    assert_eq!(from_bytes(&h("7f61616162ff")), Some(Cbor::Text(b"ab".to_vec())));
    assert_eq!(from_bytes(&h("5fff")), Some(Cbor::Bytes(vec![])));
    assert_eq!(
        from_bytes(&h("c1d81e820102")),
        Some(Cbor::Tag(
            1,
            Box::new(Cbor::Tag(30, Box::new(Cbor::Array(vec![Cbor::Uint(1), Cbor::Uint(2)]))))
        ))
    );
    assert_eq!(decode_item(&h("0102"), 0), Some((Cbor::Uint(1), 1)));
    assert_eq!(decode_item(&h("0102"), 1), Some((Cbor::Uint(2), 2)));
    assert_eq!(decode_item(&h("0102"), 2), None);
}

#[test]
fn reader_refuses_what_is_not_an_item() {
    assert_eq!(from_bytes(&[]), None);
    assert_eq!(from_bytes(&h("0102")), None);
    assert_eq!(from_bytes(&h("1c")), None);
    assert_eq!(from_bytes(&h("18")), None);
    assert_eq!(from_bytes(&h("1f")), None);
    assert_eq!(from_bytes(&h("3f")), None);
    assert_eq!(from_bytes(&h("df00")), None);
    assert_eq!(from_bytes(&h("4201")), None);
    assert_eq!(from_bytes(&h("8201")), None);
    assert_eq!(from_bytes(&h("a101")), None);
    assert_eq!(from_bytes(&h("9f01")), None);
    assert_eq!(from_bytes(&h("bf01ff")), None);
    assert_eq!(from_bytes(&h("ff")), None);
    assert_eq!(from_bytes(&h("f8ff")), None);
    assert_eq!(from_bytes(&h("f93c00")), None);
    assert_eq!(from_bytes(&h("5f6161ff")), None);
    assert_eq!(from_bytes(&h("5f5f4101ffff")), None);
    assert_eq!(from_bytes(&h("9b8000000000000000")), None);
    // Text must be UTF-8, chunk by chunk.
    assert_eq!(from_bytes(&h("62c3a9")), Some(Cbor::Text("\u{e9}".as_bytes().to_vec())));
    assert_eq!(from_bytes(&h("61ff")), None);
    assert_eq!(from_bytes(&h("62c328")), None);
    assert_eq!(from_bytes(&h("7f61c361a9ff")), None);
}

#[test]
fn text_form_of_items() {
    let item = Cbor::Array(vec![
        Cbor::Uint(0),
        Cbor::Uint(18446744073709551615),
        Cbor::Nint(0),
        Cbor::Nint(18446744073709551615),
        Cbor::Bytes(vec![0xde, 0xad]),
        Cbor::Text(b"hi there".to_vec()),
        Cbor::Text(b"say \"hi\"".to_vec()),
        Cbor::Text("\u{e9}".as_bytes().to_vec()),
        Cbor::Array(vec![]),
        Cbor::Pairs(vec![]),
        Cbor::Pairs(vec![(Cbor::Uint(1), Cbor::Text(vec![])), (Cbor::Nint(1), Cbor::Simple(22))]),
        Cbor::Tag(258, Box::new(Cbor::Array(vec![Cbor::Simple(20), Cbor::Simple(21)]))),
        Cbor::Simple(0),
        Cbor::Simple(23),
    ]);
    let text = String::from_utf8(to_text(&item)).unwrap();
    assert_eq!(
        text,
        "[0,18446744073709551615,-1,-18446744073709551616,{\"bytes\":\"dead\"},\"hi there\",\
         {\"text\":\"7361792022686922\"},{\"text\":\"c3a9\"},[],{\"map\":[]},\
         {\"map\":[[1,\"\"],[-2,null]]},{\"tag\":[258,[false,true]]},{\"simple\":0},\
         {\"simple\":23}]"
    );
    assert_eq!(from_text(text.as_bytes()), Some(item));
}

#[test]
fn text_form_is_read_strictly() {
    assert_eq!(from_text(b"7"), Some(Cbor::Uint(7)));
    assert_eq!(from_text(b"18446744073709551616"), None);
    assert_eq!(from_text(b"-18446744073709551617"), None);
    assert_eq!(from_text(b"-0"), None);
    assert_eq!(from_text(b"07"), None);
    assert_eq!(from_text(b"123456789012345678901"), None);
    assert_eq!(from_text(b""), None);
    assert_eq!(from_text(b" 7"), None);
    assert_eq!(from_text(b"7 "), None);
    assert_eq!(from_text(b"[1, 2]"), None);
    assert_eq!(from_text(b"[1,]"), None);
    assert_eq!(from_text(b"[1"), None);
    assert_eq!(from_text(b"\"a\\\"b\""), None);
    assert_eq!(from_text(b"\"abc"), None);
    assert_eq!(from_text(b"tru"), None);
    assert_eq!(from_text(b"nul"), None);
    assert_eq!(from_text(b"{\"bytes\":\"abc\"}"), None);
    assert_eq!(from_text(b"{\"bytes\":\"AB\"}"), Some(Cbor::Bytes(vec![0xab])));
    assert_eq!(from_text(b"{\"text\":\"ff\"}"), None);
    assert_eq!(from_text(b"{\"text\":\"61\"}"), Some(Cbor::Text(b"a".to_vec())));
    assert_eq!(from_text(b"{\"simple\":24}"), None);
    assert_eq!(from_text(b"{\"simple\":22}"), Some(Cbor::Simple(22)));
    assert_eq!(from_text(b"{\"other\":1}"), None);
    assert_eq!(from_text(b"{\"map\":[[1]]}"), None);
    assert_eq!(from_text(b"{\"map\":[[1,2],]}"), None);
    assert_eq!(from_text(b"{\"tag\":[1]}"), None);
    assert_eq!(
        from_text(b"{\"tag\":[1,[]]}"),
        Some(Cbor::Tag(1, Box::new(Cbor::Array(vec![]))))
    );
}

#[test]
fn certificate_in_all_three_forms() {
    let cold = Credential::from_keyhash(&Hash28 { bytes: [1; 28] });
    let hot = Credential::from_scripthash(&Hash28 { bytes: [2; 28] });
    let cert = Certificate::new_committee_hot_auth(&CommitteeHotAuth::new(&cold, &hot));
    let bytes = cert.to_bytes();
    let mut expected = h("830e8200581c");
    expected.extend_from_slice(&[1; 28]);
    expected.extend_from_slice(&h("8201581c"));
    expected.extend_from_slice(&[2; 28]);
    assert_eq!(bytes, expected);
    assert_eq!(cert.to_hex(), to_hex(&expected));
    let ones = "01".repeat(28);
    let twos = "02".repeat(28);
    assert_eq!(
        cert.to_json().unwrap(),
        format!("[14,[0,{{\"bytes\":\"{ones}\"}}],[1,{{\"bytes\":\"{twos}\"}}]]")
    );
    assert_eq!(Certificate::from_bytes(vec![0x80]), Err(DecodeError::WrongShape));
    assert_eq!(Certificate::from_bytes(vec![0x18]), Err(DecodeError::NotAnItem));
    assert_eq!(Certificate::from_hex("8"), Err(DecodeError::NotHex));
    assert_eq!(Certificate::from_hex("80"), Err(DecodeError::WrongShape));
    assert_eq!(Certificate::from_json("[14"), Err(DecodeError::NotText));
    assert_eq!(Certificate::from_json("[99]"), Err(DecodeError::WrongShape));
    assert_eq!(CommitteeHotAuth::from_bytes(h("820e00")), Err(DecodeError::WrongShape));
    assert!(cert.as_committee_hot_key_registration().is_some());
    assert!(cert.as_stake_delegation().is_none());
}

#[test]
fn values_out_of_range() {
    assert_eq!(Hash28::from_bytes(vec![0; 27]), Err(DecodeError::OutOfRange));
    assert_eq!(FixedBytes::<4>::new(vec![0; 5]), Err(DecodeError::OutOfRange));
    assert_eq!(Text128::new("a".repeat(129)), Err(DecodeError::OutOfRange));
    assert!(Text128::new("a".repeat(128)).is_ok());
    assert!(Text128::new("\u{e9}".repeat(64)).is_ok());
    assert_eq!(Text128::new("\u{e9}".repeat(65)), Err(DecodeError::OutOfRange));
    let mut long = h("7881");
    long.extend_from_slice(&[0x61; 129]);
    assert_eq!(Text128::from_bytes(long), Err(DecodeError::WrongShape));
}

#[test]
fn numbers_and_intervals() {
    assert_eq!(BigNum::from(7).to_bytes(), h("07"));
    assert_eq!(Int::new(&BigNum::from(7)).to_bytes(), h("07"));
    assert_eq!(Int { value: -8 }.to_bytes(), h("27"));
    assert_eq!(Int::from_bytes(h("27")), Ok(Int { value: -8 }));
    assert_eq!(
        Int::from_bytes(h("3bffffffffffffffff")),
        Ok(Int { value: -18446744073709551616 })
    );
    assert_eq!(
        UnitInterval::new(&BigNum::from(1), &BigNum::from(2)).to_bytes(),
        h("d81e820102")
    );
    assert_eq!(UnitInterval::from_bytes(h("d81f820102")), Err(DecodeError::WrongShape));
    assert_eq!(
        RewardAddress::new(1, &Credential::from_keyhash(&Hash28 { bytes: [9; 28] })).to_bytes()
            [0..3],
        [0x58, 0x1d, 0xe1]
    );
    assert_eq!(
        RewardAddress::new(0, &Credential::from_scripthash(&Hash28 { bytes: [9; 28] }))
            .to_address_bytes()[0],
        0xf0
    );
}

#[test]
fn amounts_by_credential() {
    let a = Credential::from_keyhash(&Hash28 { bytes: [1; 28] });
    let b = Credential::from_keyhash(&Hash28 { bytes: [2; 28] });
    let one = DeltaCoin::new(&BigNum::from(1));
    let two = DeltaCoin::new(&BigNum::from(2));
    let mut amounts = MIRToStakeCredentials::new();
    assert_eq!(amounts.insert(&a, &one), None);
    assert_eq!(amounts.insert(&b, &one), None);
    assert_eq!(amounts.insert(&a, &two), Some(one));
    assert_eq!(amounts.len(), 2);
    assert_eq!(amounts.entries, vec![(a, two), (b, one)]);
}

#[test]
fn checksum_of_the_check_string() {
    assert_eq!(crc32(b"123456789"), 0xCBF43926);
    assert_eq!(crc32(b""), 0);
}

#[test]
fn first_era_address() {
    let addr = ByronAddress::new(&Hash28 { bytes: [7; 28] }, &Cbor::Pairs(vec![]), 0);
    assert_eq!(addr.root(), Some(Hash28 { bytes: [7; 28] }));
    assert_eq!(addr.address_type(), Some(0));
    assert_eq!(addr.attributes(), vec![0xa0]);
    let not_one = ByronAddress::new(&Hash28 { bytes: [7; 28] }, &Cbor::Uint(1), 0);
    assert_eq!(not_one.root(), None);
    assert_eq!(not_one.attributes(), Vec::<u8>::new());
    assert_eq!(ByronAddress::from_bytes(not_one.to_bytes()), Err(DecodeError::WrongShape));
    let bytes = addr.to_bytes();
    assert_eq!(&bytes[0..5], &[0x82, 0xd8, 0x18, 0x58, 0x21]);
    assert_eq!(&bytes[5..8], &[0x83, 0x58, 0x1c]);
    let payload = &bytes[5..38];
    let crc = crc32(payload);
    assert_eq!(bytes[38], 0x1a);
    assert_eq!(bytes[39..43], crc.to_be_bytes());
    assert_eq!(ByronAddress::from_bytes(bytes.clone()), Ok(addr));
    let mut wrong = bytes.clone();
    wrong[42] ^= 1;
    assert_eq!(ByronAddress::from_bytes(wrong), Err(DecodeError::WrongShape));
}
