//! Lower-bit extraction of field elements, and identifier recovery from
//! bits, across the three circuit modes.
use bytecode::field::Field;
use bytecode::identifier::Identifier;
use bytecode::mode::{Count, Mode};

/// A small deterministic generator for sample values.
struct Rng(u128);

impl Rng {
    fn next(&mut self) -> u128 {
        self.0 = self
            .0
            .wrapping_mul(6364136223846793005)
            .wrapping_add(1442695040888963407);
        self.0
    }
}

const ITERATIONS: u64 = 100;

fn check_to_lower_k_bits_le(k: usize, mode: Mode) {
    let mut rng = Rng(k as u128 + 1);
    for _ in 0..ITERATIONS {
        // Sample a value of the requested width.
        let value: u128 = if k == 128 {
            rng.next()
        } else {
            rng.next() % (1u128 << k)
        };
        let expected: Vec<bool> = (0..k).map(|i| (value >> i) & 1 == 1).collect();

        // Construct the value as a field element from its bytes.
        let mut field_bytes = value.to_le_bytes().to_vec();
        field_bytes.resize(32, 0u8);
        let candidate = Field::from_bytes_le(&field_bytes).unwrap();

        let bits = candidate.to_lower_bits_le(k).unwrap();
        assert_eq!(bits.len(), k);
        for (i, (e, c)) in expected.iter().zip(bits.iter()).enumerate() {
            assert_eq!(*e, *c, "LSB+{}", i);
        }

        // The circuit cost and output mode of the extraction.
        match mode {
            Mode::Constant => {
                assert_eq!(
                    Field::count(&(mode, k as u64)),
                    Count::is(k as u64, 0, 0, 0)
                );
                assert_eq!(Field::output_mode(&mode), Mode::Constant);
            }
            _ => {
                assert_eq!(
                    Field::count(&(mode, k as u64)),
                    Count::is(0, 0, k as u64, k as u64 + 1)
                );
                assert_eq!(Field::output_mode(&mode), Mode::Private);
            }
        }
    }
}

// 8 bits

#[test]
fn test_to_8_bits_constant() {
    check_to_lower_k_bits_le(8, Mode::Constant);
}

#[test]
fn test_to_8_bits_public() {
    check_to_lower_k_bits_le(8, Mode::Public);
}

#[test]
fn test_to_8_bits_private() {
    check_to_lower_k_bits_le(8, Mode::Private);
}

// 16 bits

#[test]
fn test_to_16_bits_constant() {
    check_to_lower_k_bits_le(16, Mode::Constant);
}

#[test]
fn test_to_16_bits_public() {
    check_to_lower_k_bits_le(16, Mode::Public);
}

#[test]
fn test_to_16_bits_private() {
    check_to_lower_k_bits_le(16, Mode::Private);
}

// 32 bits

#[test]
fn test_to_32_bits_constant() {
    check_to_lower_k_bits_le(32, Mode::Constant);
}

#[test]
fn test_to_32_bits_public() {
    check_to_lower_k_bits_le(32, Mode::Public);
}

#[test]
fn test_to_32_bits_private() {
    check_to_lower_k_bits_le(32, Mode::Private);
}

// 64 bits

#[test]
fn test_to_64_bits_constant() {
    check_to_lower_k_bits_le(64, Mode::Constant);
}

#[test]
fn test_to_64_bits_public() {
    check_to_lower_k_bits_le(64, Mode::Public);
}

#[test]
fn test_to_64_bits_private() {
    check_to_lower_k_bits_le(64, Mode::Private);
}

// 128 bits

#[test]
fn test_to_128_bits_constant() {
    check_to_lower_k_bits_le(128, Mode::Constant);
}

#[test]
fn test_to_128_bits_public() {
    check_to_lower_k_bits_le(128, Mode::Public);
}

#[test]
fn test_to_128_bits_private() {
    check_to_lower_k_bits_le(128, Mode::Private);
}

// Width and range failures are fatal, named conditions.

#[test]
fn test_to_lower_bits_failures() {
    let f = Field::from_u128(256);
    assert_eq!(
        f.to_lower_bits_le(8),
        Err(bytecode::errors::Halt::UpperBitsNonzero { bits: 8 })
    );
    assert_eq!(
        f.to_lower_bits_le(254),
        Err(bytecode::errors::Halt::ExcessiveBitWidth { bits: 254 })
    );
    assert_eq!(f.to_lower_bits_le(9).unwrap().len(), 9);
    let be = f.to_lower_bits_be(9).unwrap();
    assert_eq!(be[0], true);
    assert!(be[1..].iter().all(|b| !b));
}

fn sample_identifiers() -> Vec<Identifier> {
    let names: Vec<&[u8]> = vec![
        b"a",
        b"z9",
        b"message",
        b"foo_bar",
        b"owner",
        b"a_very_long_identifier_name_x31",
    ];
    names
        .into_iter()
        .map(|n| Identifier::new(n.to_vec()).unwrap())
        .collect()
}

#[test]
fn test_from_bits_le() {
    for id in sample_identifiers() {
        let bits = id.to_bits_le();
        let candidate = Identifier::from_bits_le(&bits).unwrap();
        assert_eq!(candidate, id);
    }
}

#[test]
fn test_from_bits_be() {
    for id in sample_identifiers() {
        let bits = id.to_bits_be();
        let candidate = Identifier::from_bits_be(&bits).unwrap();
        assert_eq!(candidate, id);
    }
}
