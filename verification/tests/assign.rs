use proxy_connect::{
    assign_ipv4_from_extention, assign_ipv6_from_extention, assign_rand_ipv4, assign_rand_ipv6,
    rand_ipv4, rand_ipv6, Extensions, Ipv4Cidr, Ipv6Cidr, NetworkError,
};
use std::str::FromStr;

/// MurmurHash3, the variant for x64 with 128 bits.
fn murmurhash3_x64_128(bytes: &[u8], seed: u64) -> (u64, u64) {
    const C1: u64 = 0x87c3_7b91_1142_53d5;
    const C2: u64 = 0x4cf5_ad43_2745_937f;
    fn read(bytes: &[u8]) -> u64 {
        bytes.iter().rev().fold(0, |word, byte| (word << 8) | u64::from(*byte))
    }
    fn mix1(k: u64) -> u64 {
        k.wrapping_mul(C1).rotate_left(31).wrapping_mul(C2)
    }
    fn mix2(k: u64) -> u64 {
        k.wrapping_mul(C2).rotate_left(33).wrapping_mul(C1)
    }
    fn fmix(mut k: u64) -> u64 {
        k = (k ^ (k >> 33)).wrapping_mul(0xff51_afd7_ed55_8ccd);
        k = (k ^ (k >> 33)).wrapping_mul(0xc4ce_b9fe_1a85_ec53);
        k ^ (k >> 33)
    }
    let (mut h1, mut h2) = (seed, seed);
    let blocks = bytes.chunks_exact(16);
    let tail = blocks.remainder();
    for block in blocks {
        h1 ^= mix1(read(&block[..8]));
        h1 = h1.rotate_left(27).wrapping_add(h2).wrapping_mul(5).wrapping_add(0x52dc_e729);
        h2 ^= mix2(read(&block[8..]));
        h2 = h2.rotate_left(31).wrapping_add(h1).wrapping_mul(5).wrapping_add(0x3849_5ab5);
    }
    h2 ^= mix2(read(&tail[tail.len().min(8)..]));
    h1 ^= mix1(read(&tail[..tail.len().min(8)]));
    h1 ^= bytes.len() as u64;
    h2 ^= bytes.len() as u64;
    h1 = h1.wrapping_add(h2);
    h2 = h2.wrapping_add(h1);
    h1 = fmix(h1);
    h2 = fmix(h2);
    h1 = h1.wrapping_add(h2);
    h2 = h2.wrapping_add(h1);
    (h1, h2)
}

fn ipv4(text: &str) -> Ipv4Cidr {
    let cidr = cidr::Ipv4Cidr::from_str(text).unwrap();
    Ipv4Cidr::new(cidr.first_address().into(), cidr.network_length()).unwrap()
}

fn ipv6(text: &str) -> Ipv6Cidr {
    let cidr = cidr::Ipv6Cidr::from_str(text).unwrap();
    Ipv6Cidr::new(cidr.first_address().into(), cidr.network_length()).unwrap()
}

#[test]
fn murmur_of_known_texts() {
    assert_eq!(murmurhash3_x64_128(b"", 0), (0, 0));
    assert_eq!(murmurhash3_x64_128(b"hello", 0), (0xcbd8_a7b3_41bd_9b02, 0x5b1e_906a_48ae_1d19));
}

#[test]
fn test_generate_ipv6_from_cidr() {
    let cidr = ipv6("2001:db8::/48");
    let session_len = 32;
    let mut sessions = Vec::new();

    for x in 0..session_len {
        let s = x.to_string();
        sessions.push(Extensions::Session(murmurhash3_x64_128(
            s.as_bytes(),
            s.len() as u64,
        )));
    }

    let mut result = Vec::new();
    for x in &mut sessions {
        result.push(assign_ipv6_from_extention(&cidr, x.clone()));
    }

    let mut check = Vec::new();
    for x in &mut sessions {
        check.push(assign_ipv6_from_extention(&cidr, x.clone()));
    }

    for x in &result {
        assert!(check.contains(x), "IP {} not found in check", x);
    }
}

#[test]
fn test_generate_ipv4_from_cidr() {
    let cidr = ipv4("192.168.0.0/16");
    let session_len = 32;
    let mut sessions = Vec::new();

    for x in 0..session_len {
        let s = x.to_string();
        sessions.push(Extensions::Session(murmurhash3_x64_128(
            s.as_bytes(),
            s.len() as u64,
        )));
    }

    let mut result = Vec::new();
    for x in &mut sessions {
        result.push(assign_ipv4_from_extention(&cidr, x.clone()));
    }

    let mut check = Vec::new();
    for x in &mut sessions {
        check.push(assign_ipv4_from_extention(&cidr, x.clone()));
    }

    for x in &result {
        assert!(check.contains(x), "IP {} not found in check", x);
    }
}

#[test]
fn sessions_differ_in_a_large_block() {
    let cidr = ipv6("2001:db8::/48");
    let mut seen = Vec::new();
    for x in 0..32 {
        let s = x.to_string();
        let id = murmurhash3_x64_128(s.as_bytes(), s.len() as u64);
        let address = assign_ipv6_from_extention(&cidr, Extensions::Session(id));
        assert_eq!(address >> 80, 0x2001_0db8_0000);
        assert!(!seen.contains(&address));
        seen.push(address);
    }
}

#[test]
fn ipv4_session_counts_from_the_first_address() {
    let cidr = ipv4("192.168.0.0/16");
    let assign = |a, b| assign_ipv4_from_extention(&cidr, Extensions::Session((a, b)));
    assert_eq!(assign(0, 0), 0xc0a8_0000);
    assert_eq!(assign(5, 9), 0xc0a8_0005);
    // The last address is never used.
    assert_eq!(assign(0xfffe, 0), 0xc0a8_fffe);
    assert_eq!(assign(0xffff, 0), 0xc0a8_0000);
    assert_eq!(assign(0x1_0000, 0), 0xc0a8_0001);
    // Of the identifier, only the low 32 bits of the high half matter.
    assert_eq!(assign(0xabcd_0000_0005, u64::MAX), 0xc0a8_0005);
}

#[test]
fn ipv4_session_at_the_extreme_lengths() {
    let half = Ipv4Cidr::new(0x8000_0000, 1).unwrap();
    assert_eq!(assign_ipv4_from_extention(&half, Extensions::Session((0x7fff_fffe, 0))), 0xffff_fffe);
    assert_eq!(assign_ipv4_from_extention(&half, Extensions::Session((0x7fff_ffff, 0))), 0x8000_0000);
    let pair = Ipv4Cidr::new(0x0a00_0002, 31).unwrap();
    assert_eq!(assign_ipv4_from_extention(&pair, Extensions::Session((77, 0))), 0x0a00_0002);
}

#[test]
fn ipv6_session_counts_from_the_first_address() {
    let cidr = ipv6("2001:db8::/64");
    let base = 0x2001_0db8_u128 << 96;
    let assign = |a, b| assign_ipv6_from_extention(&cidr, Extensions::Session((a, b)));
    assert_eq!(assign(0, 7), base + 7);
    // 2^64 is one more than the capacity of the block.
    assert_eq!(assign(1, 0), base + 1);
    assert_eq!(assign(3, 4), base + 7);
    assert_eq!(assign(0, u64::MAX), base);
    assert_eq!(assign(0, u64::MAX - 1), base + u128::from(u64::MAX) - 1);
}

#[test]
fn ipv6_session_at_the_extreme_lengths() {
    let half = Ipv6Cidr::new(1 << 127, 1).unwrap();
    assert_eq!(
        assign_ipv6_from_extention(&half, Extensions::Session((u64::MAX >> 1, u64::MAX - 1))),
        u128::MAX - 1,
    );
    let pair = Ipv6Cidr::new(2, 127).unwrap();
    assert_eq!(assign_ipv6_from_extention(&pair, Extensions::Session((1, 2))), 2);
}

#[test]
fn block_of_one_address_gives_it() {
    let v4 = ipv4("192.168.0.1/32");
    let v6 = ipv6("2001:db8::1/128");
    for extention in [Extensions::Session((5, 0)), Extensions::Session((1, 2)), Extensions::Absent] {
        assert_eq!(assign_ipv4_from_extention(&v4, extention), 0xc0a8_0001);
        assert_eq!(assign_ipv6_from_extention(&v6, extention), (0x2001_0db8_u128 << 96) + 1);
    }
    assert_eq!(assign_rand_ipv4(0xc0a8_0001, 32), 0xc0a8_0001);
    assert_eq!(assign_rand_ipv6(7, 128), 7);
}

#[test]
fn block_of_all_addresses() {
    let v4 = ipv4("0.0.0.0/0");
    let v6 = ipv6("::/0");
    let assign_v4 = |a, b| assign_ipv4_from_extention(&v4, Extensions::Session((a, b)));
    let assign_v6 = |a, b| assign_ipv6_from_extention(&v6, Extensions::Session((a, b)));
    assert_eq!(assign_v4(0xdead_beef, 3), 0xdead_beef);
    assert_eq!(assign_v4(0xffff_fffe, 3), 0xffff_fffe);
    assert_eq!(assign_v4(0xffff_ffff, 3), 0);
    assert_eq!(assign_v6(3, 4), (3 << 64) + 4);
    assert_eq!(assign_v6(u64::MAX, u64::MAX), 0);
    assert_ne!(assign_rand_ipv6(0, 0), assign_rand_ipv6(0, 0));
}

#[test]
fn random_number_fills_the_host_part() {
    assert_eq!(rand_ipv4(0xc0a8_1234, 16, 0xdead_beef), 0xc0a8_beef);
    assert_eq!(rand_ipv4(0xc0a8_1234, 1, 0xdead_beef), 0xdead_beef);
    assert_eq!(rand_ipv4(0x0a00_0000, 31, 0xffff_ffff), 0x0a00_0001);
    assert_eq!(rand_ipv6(0x2001_0db8_u128 << 96, 96, u128::MAX), (0x2001_0db8_u128 << 96) + 0xffff_ffff);
    assert_eq!(rand_ipv6(3, 127, 0), 2);
    assert_eq!(rand_ipv4(0xc0a8_1234, 0, 0xdead_beef), 0xdead_beef);
    assert_eq!(rand_ipv4(0xc0a8_1234, 32, 0xdead_beef), 0xc0a8_1234);
    assert_eq!(rand_ipv6(7, 0, u128::MAX), u128::MAX);
    assert_eq!(rand_ipv6(7, 128, u128::MAX), 7);
}

#[test]
fn random_addresses_stay_in_their_block() {
    let v4 = ipv4("192.168.0.0/16");
    let v6 = ipv6("2001:db8::/48");
    let mut seen_v4 = Vec::new();
    let mut seen_v6 = Vec::new();
    for _ in 0..64 {
        let a = assign_ipv4_from_extention(&v4, Extensions::Absent);
        assert_eq!(a >> 16, 0xc0a8);
        seen_v4.push(a);
        let b = assign_rand_ipv4(0xc0a8_1234, 16);
        assert_eq!(b >> 16, 0xc0a8);
        seen_v4.push(b);
        let c = assign_ipv6_from_extention(&v6, Extensions::Absent);
        assert_eq!(c >> 80, 0x2001_0db8_0000);
        seen_v6.push(c);
        let d = assign_rand_ipv6(0x2001_0db8_u128 << 96, 48);
        assert_eq!(d >> 80, 0x2001_0db8_0000);
        seen_v6.push(d);
    }
    assert!(seen_v4.iter().any(|a| *a != seen_v4[0]));
    assert!(seen_v6.iter().any(|a| *a != seen_v6[0]));
}

#[test]
fn blocks_start_at_their_first_address() {
    let cidr = Ipv4Cidr::new(0xc0a8_0100, 24).unwrap();
    assert_eq!((cidr.first_address(), cidr.network_length()), (0xc0a8_0100, 24));
    assert_eq!(Ipv4Cidr::new(0xc0a8_0101, 24), Err(NetworkError::InvalidHostPart));
    assert_eq!(Ipv4Cidr::new(0xc0a8_0100, 33), Err(NetworkError::LengthTooLong));
    assert!(Ipv4Cidr::new(0xc0a8_0101, 32).is_ok());
    assert!(Ipv4Cidr::new(0, 0).is_ok());
    assert_eq!(Ipv4Cidr::new(1, 0), Err(NetworkError::InvalidHostPart));

    let cidr = Ipv6Cidr::new(0x2001_0db8_u128 << 96, 32).unwrap();
    assert_eq!((cidr.first_address(), cidr.network_length()), (0x2001_0db8_u128 << 96, 32));
    assert_eq!(Ipv6Cidr::new(1, 127), Err(NetworkError::InvalidHostPart));
    assert_eq!(Ipv6Cidr::new(0, 129), Err(NetworkError::LengthTooLong));
    assert!(Ipv6Cidr::new(1, 128).is_ok());
}
