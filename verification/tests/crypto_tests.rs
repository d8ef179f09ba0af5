use envmesh::crypto::Crypto;
use envmesh::errors::MeshError;
use envmesh::peers::{PeerEvent, PeerRegistry};

#[test]
fn test_encrypt_decrypt() {
    let crypto = Crypto::new("test_password").unwrap();
    let plaintext = b"Hello, World!";

    let encrypted = crypto.encrypt(plaintext).unwrap();
    let decrypted = crypto.decrypt(&encrypted).unwrap();

    assert_eq!(plaintext, decrypted.as_slice());
}

#[test]
fn ciphertext_differs_and_carries_nonce() {
    let crypto = Crypto::new("pw").unwrap();
    let blob = crypto.encrypt(b"secret").unwrap();
    // 12-byte nonce, then ciphertext with its 16-byte tag
    assert_eq!(blob.len(), b"secret".len() + 28);
    assert_ne!(&blob[12..], b"secret");
    // two seals of the same plaintext draw different nonces
    let blob2 = crypto.encrypt(b"secret").unwrap();
    assert_ne!(blob[..12], blob2[..12]);
}

#[test]
fn decrypt_rejects_short_and_tampered_blobs() {
    let crypto = Crypto::new("pw").unwrap();
    let err = crypto.decrypt(&[0u8; 5]).unwrap_err();
    assert!(matches!(err, MeshError::StoreFailed(_)));
    let mut blob = crypto.encrypt(b"secret").unwrap();
    let last = blob.len() - 1;
    blob[last] ^= 0x40;
    assert!(crypto.decrypt(&blob).is_err());
    // and a different key does not open it
    let other = Crypto::new("other-password").unwrap();
    let blob = crypto.encrypt(b"secret").unwrap();
    assert!(other.decrypt(&blob).is_err());
}

#[test]
fn error_descriptions_are_stable() {
    assert_eq!(MeshError::Timeout.describe(), "timeout");
    assert_eq!(MeshError::ConnectFailed("x".to_string()).describe(), "connect failed");
    assert_eq!(MeshError::TransportFailed("x".to_string()).describe(), "transport failed");
    assert_eq!(MeshError::Serialization.describe(), "serialization error");
    assert_eq!(MeshError::StoreFailed("x".to_string()).describe(), "store failed");
    assert_eq!(MeshError::NoServerAvailable.describe(), "no server available");
    assert_eq!(MeshError::ElectionFailed("x".to_string()).describe(), "election failed");
}

#[test]
fn peer_registry_tracks_discovery_and_expiry() {
    let mut reg = PeerRegistry::new();
    assert!(reg
        .apply_event(PeerEvent::PeerDiscovered {
            id: "a".to_string(),
            address: "addr-1".to_string(),
        })
        .is_none());
    assert!(reg
        .apply_event(PeerEvent::PeerDiscovered {
            id: "b".to_string(),
            address: "addr-2".to_string(),
        })
        .is_none());
    // re-discovery updates the address in place
    reg.apply_event(PeerEvent::PeerDiscovered {
        id: "a".to_string(),
        address: "addr-3".to_string(),
    });
    assert_eq!(
        reg.get_connected_peers(),
        vec![
            ("a".to_string(), "addr-3".to_string()),
            ("b".to_string(), "addr-2".to_string()),
        ]
    );
    // payloads come back out and change nothing
    let payload = reg.apply_event(PeerEvent::MessageReceived { data: vec![1, 2, 3] });
    assert_eq!(payload, Some(vec![1, 2, 3]));
    // expiry removes the one entry
    reg.apply_event(PeerEvent::PeerExpired { id: "a".to_string() });
    assert_eq!(
        reg.get_connected_peers(),
        vec![("b".to_string(), "addr-2".to_string())]
    );
    // expiring an unknown peer is a no-op
    reg.apply_event(PeerEvent::PeerExpired { id: "zzz".to_string() });
    assert_eq!(reg.get_connected_peers().len(), 1);
}
