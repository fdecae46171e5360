use rustty::config::crypto::{decrypt_data, encrypt_data, seal_framed};
use rustty::config::vault::{generate_master_key, make_noise, master_key_from_hex, noise_length};
use rustty::icmp::ping_reply_seen;

#[test]
fn vault_round_trip_and_tampering() {
    let key = [7u8; 32];
    let plain = b"{\"root_nodes\":[]}".to_vec();
    let sealed = encrypt_data(&key, &plain).unwrap();
    assert_eq!(sealed.len(), 12 + plain.len() + 16);
    assert_eq!(decrypt_data(&key, &sealed).unwrap(), plain);

    let mut tampered = sealed.clone();
    tampered[20] ^= 1;
    assert_eq!(
        decrypt_data(&key, &tampered).unwrap_err(),
        "Falha na descriptografia! A chave mestra não foi encontrada ou o arquivo está corrompido."
    );
    assert_eq!(decrypt_data(&[8u8; 32], &sealed).is_err(), true);
    assert_eq!(decrypt_data(&key, &vec![0u8; 11]).unwrap_err(), "Dados corrompidos ou inválidos.");
}

#[test]
fn sealing_puts_the_nonce_first() {
    let key = [1u8; 32];
    let nonce = [9u8; 12];
    let framed = seal_framed(&key, &nonce, &vec![1, 2, 3]).unwrap();
    assert_eq!(&framed[..12], &nonce);
    assert_eq!(decrypt_data(&key, &framed).unwrap(), vec![1, 2, 3]);
}

#[test]
fn ping_output_is_read_per_line() {
    let linux = "PING 10.0.0.1 (10.0.0.1) 56(84) bytes of data.\n64 bytes from 10.0.0.1: icmp_seq=1 ttl=64 time=0.05 ms\n";
    assert!(ping_reply_seen(linux, true));
    assert!(!ping_reply_seen(linux, false));
    let windows_unreachable = "Reply from 10.0.0.9: Destination host unreachable.\r\n";
    assert!(!ping_reply_seen(windows_unreachable, true));
    let portuguese = "Resposta de 10.0.0.1: bytes=32 tempo<1ms TTL=128\r\n";
    assert!(ping_reply_seen(portuguese, true));
    assert!(!ping_reply_seen("Request timed out.\r\n", true));
}

#[test]
fn master_key_hex_is_read_back() {
    let stored = "000102030405060708090a0b0c0d0e0f101112131415161718191A1B1C1D1E1Fffee";
    let key = master_key_from_hex(stored).unwrap();
    let expected: Vec<u8> = (0u8..32).collect();
    assert_eq!(key.to_vec(), expected);

    assert_eq!(master_key_from_hex("abc").unwrap_err(), "Chave corrompida no cofre do sistema");
    assert_eq!(master_key_from_hex("zz").unwrap_err(), "Chave corrompida no cofre do sistema");
    assert_eq!(
        master_key_from_hex("00ff").unwrap_err(),
        "Chave mestra com menos de 32 bytes no cofre do sistema"
    );
}

#[test]
fn generated_master_key_round_trips() {
    let (key, text) = generate_master_key();
    assert_eq!(text.len(), 64);
    assert!(text.chars().all(|c| c.is_ascii_hexdigit() && !c.is_ascii_uppercase()));
    assert_eq!(master_key_from_hex(&text).unwrap(), key);
}

#[test]
fn noise_padding_sizes() {
    assert_eq!(noise_length(0), 512);
    assert_eq!(noise_length(3583), 4095);
    assert_eq!(noise_length(3584), 512);
    assert_eq!(noise_length(u32::MAX), u32::MAX % 3584 + 512);
    let noise = make_noise();
    assert!(noise.len() >= 1024 && noise.len() < 8192 && noise.len() % 2 == 0);
    assert!(noise.chars().all(|c| c.is_ascii_hexdigit()));
}

#[test]
fn stored_vault_is_28_bytes_longer() {
    let key = [1u8; 32];
    for n in [0usize, 1, 100] {
        let plain = vec![7u8; n];
        assert_eq!(encrypt_data(&key, &plain).unwrap().len(), n + 28);
    }
}
