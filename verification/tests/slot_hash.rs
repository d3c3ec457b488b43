use redis_cluster_async::hash::{command_key, slot_for_key, slot_for_packed_command, sub_key};

/// Bitwise CRC-16/XMODEM, written out independently of the library.
fn reference_crc(data: &[u8]) -> u16 {
    let mut crc: u16 = 0;
    for byte in data {
        crc ^= (*byte as u16) << 8;
        for _ in 0..8 {
            crc = if crc & 0x8000 != 0 { (crc << 1) ^ 0x1021 } else { crc << 1 };
        }
    }
    crc
}

fn pack(args: &[&[u8]]) -> Vec<u8> {
    let mut cmd = redis::Cmd::new();
    for arg in args {
        cmd.arg(*arg);
    }
    cmd.get_packed_command()
}

#[test]
fn slot() {
    assert_eq!(
        slot_for_packed_command(&[
            42, 50, 13, 10, 36, 54, 13, 10, 69, 88, 73, 83, 84, 83, 13, 10, 36, 49, 54, 13, 10,
            244, 93, 23, 40, 126, 127, 253, 33, 89, 47, 185, 204, 171, 249, 96, 139, 13, 10
        ]),
        Some(964)
    );
    assert_eq!(
        slot_for_packed_command(&[
            42, 54, 13, 10, 36, 51, 13, 10, 83, 69, 84, 13, 10, 36, 49, 54, 13, 10, 36, 241,
            197, 111, 180, 254, 5, 175, 143, 146, 171, 39, 172, 23, 164, 145, 13, 10, 36, 52,
            13, 10, 116, 114, 117, 101, 13, 10, 36, 50, 13, 10, 78, 88, 13, 10, 36, 50, 13, 10,
            80, 88, 13, 10, 36, 55, 13, 10, 49, 56, 48, 48, 48, 48, 48, 13, 10
        ]),
        Some(8352)
    );

    assert_eq!(
        slot_for_packed_command(&[
            42, 54, 13, 10, 36, 51, 13, 10, 83, 69, 84, 13, 10, 36, 49, 54, 13, 10, 169, 233,
            247, 59, 50, 247, 100, 232, 123, 140, 2, 101, 125, 221, 66, 170, 13, 10, 36, 52,
            13, 10, 116, 114, 117, 101, 13, 10, 36, 50, 13, 10, 78, 88, 13, 10, 36, 50, 13, 10,
            80, 88, 13, 10, 36, 55, 13, 10, 49, 56, 48, 48, 48, 48, 48, 13, 10
        ]),
        Some(5210),
    );
}

#[test]
fn checksum_matches_the_check_value() {
    // "123456789" is the customary check input; XMODEM gives 0x31c3.
    assert_eq!(slot_for_key(b"123456789"), 0x31c3 % 16384);
    assert_eq!(reference_crc(b"123456789"), 0x31c3);
}

#[test]
fn plain_keys_hash_whole() {
    for key in [&b"test"[..], b"mystream", b"", b"a}b", b"user:1000", &[0u8, 255, 17][..]] {
        let cmd = pack(&[b"GET", key]);
        assert_eq!(slot_for_packed_command(&cmd), Some(reference_crc(key) % 16384));
        assert_eq!(slot_for_key(key), reference_crc(key) % 16384);
    }
}

#[test]
fn known_slots() {
    assert_eq!(slot_for_key(b"foo"), 12182);
    assert_eq!(slot_for_key(b"bar"), 5061);
    assert_eq!(slot_for_key(b"test"), 6918);
}

#[test]
fn hash_tag_decides_the_slot() {
    let cmd = pack(&[b"GET", b"{user1000}.following"]);
    assert_eq!(slot_for_packed_command(&cmd), Some(reference_crc(b"user1000") % 16384));
    assert_eq!(slot_for_key(b"{user1000}.followers"), slot_for_key(b"user1000"));
    assert_eq!(slot_for_key(b"pre{tag}post"), slot_for_key(b"tag"));
    assert_eq!(sub_key(b"pre{tag}post"), b"tag");
    // Only the first `{` and the first `}` after it count.
    assert_eq!(sub_key(b"foo{{bar}}zap"), b"{bar");
    assert_eq!(sub_key(b"foo{bar}{zap}"), b"bar");
    assert_eq!(sub_key(b"}foo{bar}"), b"bar");
}

#[test]
fn empty_hash_tag_is_ignored() {
    let cmd = pack(&[b"GET", b"{}x"]);
    assert_eq!(command_key(&cmd), Some(b"{}x".to_vec()));
    assert_eq!(slot_for_packed_command(&cmd), Some(reference_crc(b"{}x") % 16384));
    assert_ne!(slot_for_packed_command(&cmd), Some(reference_crc(b"") % 16384));
    assert_eq!(sub_key(b"{}x"), b"{}x");
    assert_eq!(sub_key(b"foo{}{bar}"), b"foo{}{bar}");
}

#[test]
fn unterminated_hash_tag_is_ignored() {
    assert_eq!(sub_key(b"foo{bar"), b"foo{bar");
    assert_eq!(sub_key(b"foo}bar{"), b"foo}bar{");
    assert_eq!(sub_key(b"{"), b"{");
    assert_eq!(sub_key(b""), b"");
}

#[test]
fn stream_command_routes_by_its_key() {
    let cmd = pack(&[b"XTRIM", b"mystream", b"MAXLEN", b"~"]);
    assert_eq!(command_key(&cmd), Some(b"mystream".to_vec()));
    assert_eq!(slot_for_packed_command(&cmd), Some(reference_crc(b"mystream") % 16384));
}

#[test]
fn commands_without_a_key_have_no_slot() {
    assert_eq!(slot_for_packed_command(&pack(&[b"PING"])), None);
    assert_eq!(command_key(&pack(&[b"PING"])), None);
    // Not an array.
    assert_eq!(slot_for_packed_command(b"+OK\r\n"), None);
    assert_eq!(slot_for_packed_command(b":12\r\n"), None);
    // Second element is not a bulk string.
    assert_eq!(slot_for_packed_command(b"*2\r\n$3\r\nGET\r\n:5\r\n"), None);
    // Does not decode.
    assert_eq!(slot_for_packed_command(b""), None);
    assert_eq!(slot_for_packed_command(b"*2\r\n$3\r\nGET\r\n"), None);
    assert_eq!(slot_for_packed_command(b"garbage"), None);
}
