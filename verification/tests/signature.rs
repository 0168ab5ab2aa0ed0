use cfx_transaction::signature::{
    address_from_digest, is_low_s, public_of_recovered, signature_of_signed,
};
use cfx_transaction::{
    privkey_to_address, public_to_address, recover, sign, Action, CurveError, Error, Secret,
    Signature, Transaction, TransactionWithSignature, U256,
};

const HALF_ORDER: &str = "7fffffffffffffffffffffffffffffff5d576e7357a4501ddfe92f46681b20a0";
const KEY: &str = "46b9e861b63d3509c88b7817275a30d22d62c8cd8fa6486ddee35ef0d8e0495f";

fn bytes32(text: &str) -> [u8; 32] {
    let mut out = [0u8; 32];
    out.copy_from_slice(&hex::decode(text).unwrap());
    out
}

fn one() -> [u8; 32] {
    let mut key = [0u8; 32];
    key[31] = 1;
    key
}

fn oracle() -> [u8; 20] {
    let mut address = [0u8; 20];
    for (i, byte) in address.iter_mut().enumerate() {
        *byte = i as u8 + 1;
    }
    address
}

fn sample() -> Transaction {
    Transaction {
        nonce: U256::from_u64(0),
        gas_price: U256::from_u64(1),
        gas: U256::from_u64(500_000),
        action: Action::Call(oracle()),
        value: U256::from_u64(0),
        storage_limit: 1000,
        epoch_height: 100,
        chain_id: 1,
        data: vec![],
    }
}

fn public_of(key: &[u8; 32]) -> [u8; 64] {
    let secret = secp256k1::SecretKey::from_secret_bytes(*key).unwrap();
    let public = secp256k1::PublicKey::from_secret_key(&secret).serialize_uncompressed();
    let mut out = [0u8; 64];
    out.copy_from_slice(&public[1..]);
    out
}

#[test]
fn errors_render_with_their_detail() {
    assert_eq!(Error::InvalidSecret.to_string(), "Crypto error (Invalid secret)");
    assert_eq!(Error::InvalidPublic.to_string(), "Crypto error (Invalid public)");
    assert_eq!(Error::InvalidSignature.to_string(), "Crypto error (Invalid EC signature)");
    assert_eq!(Error::InvalidMessage.to_string(), "Crypto error (Invalid AES message)");
    assert_eq!(Error::Custom(String::from("odd")).to_string(), "Crypto error (odd)");
    assert_eq!(Error::Custom(String::new()).to_string(), "Crypto error ()");
}

#[test]
fn curve_errors_keep_their_kind() {
    assert_eq!(Error::from(CurveError::InvalidMessage), Error::InvalidMessage);
    assert_eq!(Error::from(CurveError::InvalidPublicKey), Error::InvalidPublic);
    assert_eq!(Error::from(CurveError::InvalidSecretKey), Error::InvalidSecret);
    for other in [
        CurveError::IncorrectSignature,
        CurveError::InvalidSignature,
        CurveError::InvalidSharedSecret,
        CurveError::InvalidRecoveryId,
        CurveError::InvalidTweak,
        CurveError::NotEnoughMemory,
        CurveError::InvalidPublicKeySum,
        CurveError::InvalidParityValue,
        CurveError::InvalidEllSwift,
    ] {
        assert_eq!(Error::from(other), Error::InvalidSignature);
    }
}

#[test]
fn secret_from_bytes_holds_the_bytes() {
    let secret = Secret::from(bytes32(KEY));
    assert_eq!(secret.as_bytes(), &bytes32(KEY));
}

#[test]
fn secret_from_text() {
    let secret = Secret::from_str(KEY).unwrap();
    assert_eq!(secret.as_bytes(), &bytes32(KEY));
    let prefixed = Secret::from_str(&format!("0x{}", KEY)).unwrap();
    assert_eq!(prefixed.as_bytes(), &bytes32(KEY));
}

#[test]
fn secret_parses_from_text() {
    let secret = KEY.parse::<Secret>().ok().unwrap();
    assert_eq!(secret.as_bytes(), &bytes32(KEY));
    assert!(matches!("zz".parse::<Secret>(), Err(Error::Custom(_))));
}

#[test]
fn secret_from_bad_text_is_a_custom_error() {
    assert!(matches!(Secret::from_str(""), Err(Error::Custom(_))));
    assert!(matches!(Secret::from_str("12"), Err(Error::Custom(_))));
    assert!(matches!(Secret::from_str(&format!("{}00", KEY)), Err(Error::Custom(_))));
    let bad = KEY.replace('4', "g");
    match Secret::from_str(&bad) {
        Err(Error::Custom(detail)) => assert!(!detail.is_empty()),
        _ => panic!("a digit that is none was accepted"),
    }
}

#[test]
fn secret_from_read_keeps_both_cases() {
    assert_eq!(Secret::from_read(Ok([3; 32])).ok().unwrap().as_bytes(), &[3u8; 32]);
    match Secret::from_read(Err(String::from("no"))) {
        Err(e) => assert_eq!(e, Error::Custom(String::from("no"))),
        Ok(_) => panic!("a refusal became a key"),
    }
}

#[test]
fn wiping_a_secret_leaves_zeros() {
    let mut secret = Secret::from(bytes32(KEY));
    secret.wipe();
    assert_eq!(secret.as_bytes(), &[0u8; 32]);
}

#[test]
fn signature_parts() {
    let mut r = [0u8; 32];
    let mut s = [0u8; 32];
    for i in 0..32 {
        r[i] = i as u8;
        s[i] = 0x80 + i as u8;
    }
    let sig = Signature::from_rsv(&r, &s, 1);
    assert_eq!(sig.r(), &r[..]);
    assert_eq!(sig.s(), &s[..]);
    assert_eq!(sig.v(), 1);
    assert_eq!(sig.as_bytes().len(), 65);
    assert_eq!(&sig.as_bytes()[..32], &r[..]);
    assert_eq!(&sig.as_bytes()[32..64], &s[..]);
    assert_eq!(sig.as_bytes()[64], 1);
}

#[test]
fn low_s_is_at_most_half_the_order() {
    let half = bytes32(HALF_ORDER);
    assert!(is_low_s(&half));
    let mut above = half;
    above[31] += 1;
    assert!(!is_low_s(&above));
    let mut below = half;
    below[31] -= 1;
    assert!(is_low_s(&below));
    assert!(is_low_s(&[0u8; 32]));
    assert!(!is_low_s(&[0xff; 32]));
    let mut first = [0u8; 32];
    first[0] = 0x80;
    assert!(!is_low_s(&first));
    let mut mixed = [0xffu8; 32];
    mixed[0] = 0x7f;
    mixed[16] = 0x5c;
    assert!(is_low_s(&mixed));
}

#[test]
fn signature_of_refused_key_is_invalid_secret() {
    assert!(matches!(signature_of_signed(None), Err(Error::InvalidSecret)));
}

#[test]
fn signature_with_high_recovery_id_is_refused() {
    assert!(matches!(signature_of_signed(Some(([1; 64], 2))), Err(Error::InvalidSignature)));
    assert!(matches!(signature_of_signed(Some(([1; 64], 3))), Err(Error::InvalidSignature)));
}

#[test]
fn signature_with_high_s_is_refused() {
    let mut compact = [1u8; 64];
    compact[32] = 0x80;
    assert!(matches!(signature_of_signed(Some((compact, 0))), Err(Error::InvalidSignature)));
}

#[test]
fn signature_is_compact_bytes_and_id() {
    let mut compact = [0u8; 64];
    for i in 0..64 {
        compact[i] = i as u8;
    }
    let sig = signature_of_signed(Some((compact, 1))).ok().unwrap();
    assert_eq!(&sig.as_bytes()[..64], &compact[..]);
    assert_eq!(sig.v(), 1);
}

#[test]
fn zero_secret_cannot_sign() {
    let secret = Secret::from([0u8; 32]);
    assert!(matches!(sign(&secret, &sample().hash()), Err(Error::InvalidSecret)));
    assert!(matches!(sample().sign(&secret), Err(Error::InvalidSecret)));
    assert_eq!(
        hex::encode(sample().hash()),
        "7a10008fc3f48ee5df3e97af50f8e9481741215ee112c56d0ee7570e1719d40a"
    );
    assert_eq!(privkey_to_address([0u8; 32]), Err(String::from("Crypto error (Invalid secret)")));
}

#[test]
fn secret_above_the_order_cannot_sign() {
    let secret = Secret::from([0xff; 32]);
    assert!(matches!(sign(&secret, &[1u8; 32]), Err(Error::InvalidSecret)));
}

#[test]
fn signature_is_pinned() {
    let sig = sign(&Secret::from(one()), &sample().hash()).ok().unwrap();
    assert_eq!(
        hex::encode(sig.r()),
        "b9c6c17bd1c513c9d59479887966e05570eb56aea6a8977f7794f319abb3d96f"
    );
    assert_eq!(
        hex::encode(sig.s()),
        "22ddceb5da1207a0d20c26dcff131055640397081e898e0b225bada613826823"
    );
    assert_eq!(sig.v(), 1);
    let sig = sign(&Secret::from(bytes32(KEY)), &sample().hash()).ok().unwrap();
    assert_eq!(
        hex::encode(sig.r()),
        "65b7b0748f3f854f8f1be48ceadadbfe21c634146b75c0df34a3e420677f37b0"
    );
    assert_eq!(
        hex::encode(sig.s()),
        "0679121ff82a98412bf2ac2421ae72762c8f7b5fa45e93294e2bc6df0578fb4c"
    );
    assert_eq!(sig.v(), 1);
}

#[test]
fn signing_twice_gives_the_same_signature() {
    let secret = Secret::from(bytes32(KEY));
    let first = sign(&secret, &sample().hash()).ok().unwrap();
    let second = sign(&secret, &sample().hash()).ok().unwrap();
    assert_eq!(first.as_bytes()[..], second.as_bytes()[..]);
}

#[test]
fn signature_shape() {
    for seed in 1..40u8 {
        let secret = Secret::from([seed; 32]);
        let mut tx = sample();
        tx.epoch_height = seed as u64;
        let sig = sign(&secret, &tx.hash()).ok().unwrap();
        assert_eq!(sig.as_bytes().len(), 65);
        assert_eq!(sig.r().len(), 32);
        assert_eq!(sig.s().len(), 32);
        assert!(sig.v() <= 1);
        assert!(is_low_s(sig.s()));
    }
}

#[test]
fn signed_transaction_is_pinned() {
    let signed = sample().sign(&Secret::from(one())).ok().unwrap();
    assert_eq!(signed.unsigned, sample());
    assert_eq!(signed.v, 1);
    assert_eq!(
        hex::encode(signed.r.to_big_endian()),
        "b9c6c17bd1c513c9d59479887966e05570eb56aea6a8977f7794f319abb3d96f"
    );
    assert_eq!(
        hex::encode(signed.s.to_big_endian()),
        "22ddceb5da1207a0d20c26dcff131055640397081e898e0b225bada613826823"
    );
    assert_eq!(
        signed.into_hex_string(),
        "f86580018307a120940102030405060708090a0b0c0d0e0f1011121314808203e864018001a0b9c6c1\
         7bd1c513c9d59479887966e05570eb56aea6a8977f7794f319abb3d96fa022ddceb5da1207a0d20c26\
         dcff131055640397081e898e0b225bada613826823"
    );
    assert_eq!(signed.into_hex_string(), hex::encode(signed.rlp_bytes()));
    let sender = public_to_address(&signed.recover_public().ok().unwrap());
    assert_eq!(hex::encode(sender), "1e5f4552091a69125d5dfcb7b8c2659029395bdf");
}

#[test]
fn envelope_renders_its_signature_in_65_bytes() {
    let signed = TransactionWithSignature {
        unsigned: sample(),
        v: 1,
        r: U256::from_u64(5),
        s: U256::from_u64(0x0102),
    };
    let sig = signed.signature();
    let mut expected = [0u8; 65];
    expected[31] = 5;
    expected[62] = 1;
    expected[63] = 2;
    expected[64] = 1;
    assert_eq!(sig.as_bytes(), &expected);
    let again = TransactionWithSignature::new(sample(), &sig);
    assert_eq!(again, signed);
}

#[test]
fn recovering_gives_the_public_key_of_the_signer() {
    for key in [one(), bytes32(KEY), [7u8; 32]] {
        let digest = sample().hash();
        let sig = sign(&Secret::from(key), &digest).ok().unwrap();
        let public = recover(&sig, &digest).ok().unwrap();
        assert_eq!(public, public_of(&key));
        assert_eq!(public_to_address(&public), public_to_address(&public_of(&key)));
        let signed = sample().sign(&Secret::from(key)).ok().unwrap();
        assert_eq!(signed.recover_public().ok().unwrap(), public_of(&key));
    }
}

#[test]
fn recovered_key_is_pinned() {
    let digest = sample().hash();
    let sig = sign(&Secret::from(bytes32(KEY)), &digest).ok().unwrap();
    assert_eq!(
        hex::encode(recover(&sig, &digest).ok().unwrap()),
        "2500e7f3fbddf2842903f544ddc87494ce95029ace4e257d54ba77f2bc1f3a88\
         37a9461c4f1c57fecc499753381e772a128a5820a924a2fa05162eb662987a9f"
    );
}

#[test]
fn recovering_with_a_corrupted_signature_fails() {
    let digest = sample().hash();
    let sig = sign(&Secret::from(bytes32(KEY)), &digest).ok().unwrap();
    let good_r = bytes32(&hex::encode(sig.r()));
    let good_s = bytes32(&hex::encode(sig.s()));
    let bad = Signature::from_rsv(&[0xff; 32], &good_s, sig.v());
    assert!(matches!(recover(&bad, &digest), Err(Error::InvalidSignature)));
    let bad = Signature::from_rsv(&good_r, &[0xff; 32], sig.v());
    assert!(matches!(recover(&bad, &digest), Err(Error::InvalidSignature)));
    let bad = Signature::from_rsv(&[0; 32], &[0; 32], 0);
    assert!(matches!(recover(&bad, &digest), Err(Error::InvalidSignature)));
    for v in [4u8, 5, 27, 28, 255] {
        let bad = Signature::from_rsv(&good_r, &good_s, v);
        assert!(matches!(recover(&bad, &digest), Err(Error::InvalidSignature)));
    }
    let mut flipped = good_r;
    flipped[31] ^= 1;
    let other = Signature::from_rsv(&flipped, &good_s, sig.v());
    match recover(&other, &digest) {
        Ok(public) => assert_ne!(public, public_of(&bytes32(KEY))),
        Err(e) => assert_eq!(e, Error::InvalidSignature),
    }
}

#[test]
fn recovered_public_drops_the_prefix() {
    let mut key = [0u8; 65];
    for i in 0..65 {
        key[i] = i as u8;
    }
    let public = public_of_recovered(Some(key)).ok().unwrap();
    assert_eq!(public[0], 1);
    assert_eq!(public[63], 64);
    assert!(matches!(public_of_recovered(None), Err(Error::InvalidSignature)));
}

#[test]
fn address_is_pinned() {
    assert_eq!(
        hex::encode(public_to_address(&public_of(&one()))),
        "1e5f4552091a69125d5dfcb7b8c2659029395bdf"
    );
    assert_eq!(
        hex::encode(public_to_address(&public_of(&bytes32(KEY)))),
        "1be45681ac6c53d5a40475f7526bac1fe7590fb8"
    );
}

#[test]
fn address_takes_the_last_bytes_of_the_digest() {
    let mut digest = [0u8; 32];
    for i in 0..32 {
        digest[i] = 0xa0 + i as u8;
    }
    let address = address_from_digest(&digest);
    assert_eq!(address[0], 0x1c);
    assert_eq!(&address[1..], &digest[13..]);
    assert_eq!(address_from_digest(&[0; 32])[0], 0x10);
    assert_eq!(address_from_digest(&[0xff; 32])[0], 0x1f);
}

#[test]
fn address_has_the_user_tag() {
    for seed in 1..60u8 {
        let address = public_to_address(&public_of(&[seed; 32]));
        assert_eq!(address[0] & 0xf0, 0x10);
    }
    assert_eq!(public_to_address(&[0u8; 64])[0] & 0xf0, 0x10);
}

#[test]
fn address_of_private_key() {
    assert_eq!(
        privkey_to_address(one()).map(hex::encode),
        Ok(String::from("1e5f4552091a69125d5dfcb7b8c2659029395bdf"))
    );
    assert_eq!(
        privkey_to_address(bytes32(KEY)).map(hex::encode),
        Ok(String::from("1be45681ac6c53d5a40475f7526bac1fe7590fb8"))
    );
    for seed in 1..20u8 {
        assert_eq!(
            privkey_to_address([seed; 32]),
            Ok(public_to_address(&public_of(&[seed; 32])))
        );
    }
}
