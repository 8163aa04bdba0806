use bitbuf::{BitBuf, BitBufError};

struct Sequence(u64);

impl Sequence {
    fn next(&mut self) -> u64 {
        self.0 = self.0.wrapping_mul(6364136223846793005).wrapping_add(1442695040888963407);
        let high = self.0 >> 32;
        self.0 = self.0.wrapping_mul(6364136223846793005).wrapping_add(1442695040888963407);
        (high << 32) | (self.0 >> 32)
    }
}

fn pack(bits: &[bool]) -> Vec<u8> {
    let mut bytes = vec![0u8; bits.len() / 8];
    for (i, bit) in bits.iter().enumerate() {
        if *bit {
            bytes[i / 8] |= 1 << (i % 8);
        }
    }
    bytes
}

fn store(bits: &mut [bool], pos: usize, value: u64, width: usize) {
    for i in 0..width {
        bits[pos + i] = (value >> i) & 1 == 1;
    }
    if pos % 8 == 0 {
        let end = pos + width;
        for bit in bits.iter_mut().take((end + 7) / 8 * 8).skip(end) {
            *bit = false;
        }
    }
}

fn value_of(bits: &[bool], pos: usize, width: usize) -> u64 {
    let mut value = 0u64;
    for i in 0..width {
        if bits[pos + i] {
            value |= 1 << i;
        }
    }
    value
}

#[test]
fn writes_at_any_offset_and_width_follow_the_bit_model() {
    let capacity = 16 * 8;
    let mut seq = Sequence(0x0123_4567_89AB_CDEF);
    for _ in 0..100 {
        let mut buf = BitBuf::with_len(16).unwrap();
        let mut bits = vec![false; capacity];
        let fill: Vec<u8> = (0..16).map(|_| seq.next() as u8).collect();
        buf.write_u8_slice(&fill).unwrap();
        for (k, byte) in fill.iter().enumerate() {
            store(&mut bits, 8 * k, *byte as u64, 8);
        }
        for _ in 0..40 {
            let pos = (seq.next() % (capacity as u64 + 1)) as usize;
            let width = 1 + (seq.next() % 64) as usize;
            let value = seq.next();
            buf.set_bit_pos(pos).unwrap();
            let done = match seq.next() % 4 {
                0 if width <= 8 => buf.write_u8_part(value as u8, width as u8),
                1 if width <= 16 => buf.write_u16_part(value as u16, width as u8),
                2 if width <= 32 => buf.write_u32_part(value as u32, width as u8),
                _ => buf.write_u64_part(value, width as u8),
            };
            if pos + width > capacity {
                assert_eq!(done, Err(BitBufError::OutOfBounds));
                assert_eq!(buf.bit_pos(), pos);
            } else {
                assert_eq!(done, Ok(()));
                assert_eq!(buf.bit_pos(), pos + width);
                store(&mut bits, pos, value, width);
            }
            assert_eq!(buf.clone().to_vec(), pack(&bits));
        }
    }
}

#[test]
fn reads_at_any_offset_and_width_follow_the_bit_model() {
    let capacity = 16 * 8;
    let mut seq = Sequence(0x0F1E_2D3C_4B5A_6978);
    for _ in 0..100 {
        let mut buf = BitBuf::with_len(16).unwrap();
        let mut bits = vec![false; capacity];
        let fill: Vec<u8> = (0..16).map(|_| seq.next() as u8).collect();
        buf.write_u8_slice(&fill).unwrap();
        for (k, byte) in fill.iter().enumerate() {
            store(&mut bits, 8 * k, *byte as u64, 8);
        }
        for _ in 0..40 {
            let pos = (seq.next() % (capacity as u64 + 1)) as usize;
            let width = 1 + (seq.next() % 64) as usize;
            buf.set_bit_pos(pos).unwrap();
            let got = match seq.next() % 4 {
                0 if width <= 8 => buf.read_u8_part(width as u8).map(u64::from),
                1 if width <= 16 => buf.read_u16_part(width as u8).map(u64::from),
                2 if width <= 32 => buf.read_u32_part(width as u8).map(u64::from),
                _ => buf.read_u64_part(width as u8),
            };
            if pos + width > capacity {
                assert_eq!(got, Err(BitBufError::OutOfBounds));
                assert_eq!(buf.bit_pos(), pos);
            } else {
                assert_eq!(got, Ok(value_of(&bits, pos, width)));
                assert_eq!(buf.bit_pos(), pos + width);
            }
        }
        assert_eq!(buf.to_vec(), fill);
    }
}
