use giralnet::crypto::{aes_decrypt, aes_encrypt, generate_aes_key, rsa_decrypt, rsa_encrypt};
use giralnet::errors::CryptoError;
use rsa::pkcs8::{EncodePrivateKey, EncodePublicKey, LineEnding};

fn test_keypair(bits: usize) -> (Vec<u8>, Vec<u8>) {
    let key = rsa::RsaPrivateKey::new(&mut rand::rngs::OsRng, bits).expect("keygen");
    let priv_der = key.to_pkcs8_der().expect("pkcs8").as_bytes().to_vec();
    let pub_pem = key
        .to_public_key()
        .to_public_key_pem(LineEnding::LF)
        .expect("pem")
        .into_bytes();
    (priv_der, pub_pem)
}

#[test]
fn aes_round_trip() {
    let key = generate_aes_key();
    let plaintext = b"attack at dawn".to_vec();
    let (ciphertext, nonce) = aes_encrypt(&key, &plaintext);
    assert_eq!(nonce.len(), 12);
    assert_eq!(ciphertext.len(), plaintext.len() + 16);
    let back = aes_decrypt(&key, &nonce, &ciphertext).unwrap();
    assert_eq!(back, plaintext);
}

#[test]
fn aes_rejects_tampered_ciphertext() {
    let key = generate_aes_key();
    let (mut ciphertext, nonce) = aes_encrypt(&key, b"payload");
    ciphertext[0] ^= 1;
    assert_eq!(aes_decrypt(&key, &nonce, &ciphertext), Err(CryptoError::Decrypt));
}

#[test]
fn aes_rejects_wrong_key() {
    let key = generate_aes_key();
    let other = generate_aes_key();
    let (ciphertext, nonce) = aes_encrypt(&key, b"payload");
    assert_eq!(aes_decrypt(&other, &nonce, &ciphertext), Err(CryptoError::Decrypt));
}

#[test]
fn rsa_round_trip() {
    let (priv_der, pub_pem) = test_keypair(1024);
    let session_key = generate_aes_key();
    let sealed = rsa_encrypt(&pub_pem, &session_key).unwrap();
    let back = rsa_decrypt(&priv_der, &sealed).unwrap();
    assert_eq!(back, session_key.to_vec());
}

#[test]
fn rsa_rejects_wrong_key() {
    let (_, pub_pem) = test_keypair(1024);
    let (other_priv, _) = test_keypair(1024);
    let sealed = rsa_encrypt(&pub_pem, b"0123456789abcdef0123456789abcdef").unwrap();
    assert_eq!(rsa_decrypt(&other_priv, &sealed), Err(CryptoError::Decrypt));
}

#[test]
fn rsa_rejects_garbage() {
    let (priv_der, pub_pem) = test_keypair(1024);
    assert!(rsa_encrypt(b"not a pem", b"k").is_err());
    assert_eq!(rsa_decrypt(&priv_der, &[1, 2, 3]), Err(CryptoError::Decrypt));
    assert!(rsa_encrypt(&pub_pem, &[0u8; 1024]).is_err());
}

#[test]
fn generated_keys_transport_a_session_key() {
    let (priv_der, pub_pem) = giralnet::crypto::generate_rsa_keys().unwrap();
    let session_key = generate_aes_key();
    let sealed = rsa_encrypt(&pub_pem, &session_key).unwrap();
    let back = rsa_decrypt(&priv_der, &sealed).unwrap();
    assert_eq!(back, session_key.to_vec());
}
