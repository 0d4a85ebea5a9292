use hgecko::hash::{hash_bytes, hash_token, temp_name};

#[test]
fn hash_of_empty_input_is_seed() {
    assert_eq!(hash_bytes(b""), 1234);
}

#[test]
fn hash_exact_values() {
    assert_eq!(hash_bytes(b"a"), 0x7b6c51f6);
    assert_eq!(hash_bytes(b"src/main.asm"), 0x61e76893);
}

#[test]
fn token_exact_values() {
    assert_eq!(temp_name(b""), b"cneaaaaa".to_vec());
    assert_eq!(temp_name(b"a"), b"gpbfmglh".to_vec());
    assert_eq!(temp_name(b"src/main.asm"), b"djighobg".to_vec());
}

#[test]
fn same_path_same_token() {
    let a = temp_name(b"codes/heap/alloc_hook.asm");
    let b = temp_name(b"codes/heap/alloc_hook.asm");
    assert_eq!(a, b);
}

#[test]
fn token_is_eight_lowercase_letters() {
    let t = temp_name(b"whatever/path/you/like.asm");
    assert_eq!(t.len(), 8);
    for c in t {
        assert!((b'a'..=b'p').contains(&c));
    }
}

#[test]
fn zero_hash_maps_to_all_a() {
    assert_eq!(hash_token(0), b"aaaaaaaa".to_vec());
}

#[test]
fn token_spreads_nibbles_low_first() {
    // nibble k of the hash selects character k of the token
    let t = hash_token(0x76543210);
    assert_eq!(t, vec![b'a', b'b', b'c', b'd', b'e', b'f', b'g', b'h']);
}

#[test]
fn collisions_are_rare_over_synthetic_paths() {
    let mut tokens: Vec<Vec<u8>> = Vec::new();
    for i in 0..10_000u32 {
        let path = format!("src/codes/file_{}.asm", i);
        tokens.push(temp_name(path.as_bytes()));
    }
    tokens.sort();
    let mut collisions = 0usize;
    for w in tokens.windows(2) {
        if w[0] == w[1] {
            collisions += 1;
        }
    }
    // fewer than 1 in 10,000 over 10,000 distinct paths
    assert!(collisions < 1);
}
