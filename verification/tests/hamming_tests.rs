use algokit::hc7::HammingCode7;
use algokit::hc15::HammingCode15;
use rand::Rng;

#[test]
fn hc7() {
    let mut rng = rand::thread_rng();
    let byte = rng.gen::<u8>() & 0xf;
    let mut bytes = [byte];

    HammingCode7::encode(&mut bytes);
    bytes[0] ^= 1 << (rng.gen::<usize>() % 7);
    HammingCode7::decode(&mut bytes);
    assert_eq!(bytes[0], byte);
}

#[test]
fn hc15() {
    let mut rng = rand::thread_rng();
    let byte = rng.gen::<u16>() & 0x7ff;
    let mut bytes = [byte];

    HammingCode15::encode(&mut bytes);
    bytes[0] ^= 1 << (rng.gen::<usize>() % 15);
    HammingCode15::decode(&mut bytes);
    assert_eq!(bytes[0], byte);
}

#[test]
fn hc7_all_bytes_all_flips() {
    for b in 0u8..16 {
        let mut clean = [b];
        HammingCode7::encode(&mut clean);
        let coded = clean[0];
        let mut un = [coded];
        HammingCode7::decode(&mut un);
        assert_eq!(un[0], b);
        for k in 0..7 {
            let mut flipped = [coded ^ (1 << k)];
            HammingCode7::decode(&mut flipped);
            assert_eq!(flipped[0], b);
        }
    }
}

#[test]
fn hc15_all_words_all_flips() {
    for b in 0u16..0x800 {
        let mut clean = [b];
        HammingCode15::encode(&mut clean);
        let coded = clean[0];
        for k in 0..15 {
            let mut flipped = [coded ^ (1 << k)];
            HammingCode15::decode(&mut flipped);
            assert_eq!(flipped[0], b);
        }
    }
}
