//! End-to-end hashing scenarios: gradient fixtures, bit order, luma
//! weighting, channel handling, and degenerate geometry.
use fast_dhash::Dhash;

/// A 9x8 single-channel image strictly decreasing left to right: every cell
/// exceeds its right neighbour, so every bit of the hash is set.
#[test]
fn gradient_all_ones() {
    let mut bytes = Vec::new();
    for _y in 0..8 {
        for x in 0..9u32 {
            bytes.push((80 - 10 * x) as u8);
        }
    }
    let hash = Dhash::new(&bytes, 9, 8, 1);
    assert_eq!(hash.hash, 0xffff_ffff_ffff_ffff);
}

/// A 9x8 single-channel image strictly increasing left to right: no cell
/// exceeds its right neighbour, so the hash is zero.
#[test]
fn gradient_all_zeros() {
    let mut bytes = Vec::new();
    for _y in 0..8 {
        for x in 0..9u32 {
            bytes.push((10 * x) as u8);
        }
    }
    let hash = Dhash::new(&bytes, 9, 8, 1);
    assert_eq!(hash.hash, 0x0000_0000_0000_0000);
}

/// The same gradients with cells wider than one pixel.
#[test]
fn gradient_wide_cells() {
    let mut down = Vec::new();
    let mut up = Vec::new();
    for _y in 0..16 {
        for x in 0..18u32 {
            down.push((200 - 10 * x) as u8);
            up.push((10 * x) as u8);
        }
    }
    assert_eq!(Dhash::new(&down, 18, 16, 1).hash, 0xffff_ffff_ffff_ffff);
    assert_eq!(Dhash::new(&up, 18, 16, 1).hash, 0);
}

/// Bit `row*8 + col` is the least-significant-first packing: an image where
/// only the first comparison of row 0 fires sets exactly bit 0.
#[test]
fn bit_order_lsb_first() {
    let mut bytes = vec![0u8; 72];
    bytes[0] = 1;
    let hash = Dhash::new(&bytes, 9, 8, 1);
    assert_eq!(hash.hash, 1);
}

/// Green weighs more than red under the BT.601 luma weights: a green first
/// column against red columns sets exactly the first bit of every row.
#[test]
fn luma_weights_rgb() {
    let mut bytes = Vec::new();
    for _y in 0..8 {
        for x in 0..9 {
            if x == 0 {
                bytes.extend_from_slice(&[0, 255, 0]);
            } else {
                bytes.extend_from_slice(&[255, 0, 0]);
            }
        }
    }
    let hash = Dhash::new(&bytes, 9, 8, 3);
    assert_eq!(hash.hash, 0x0101_0101_0101_0101);
}

/// An alpha channel beyond the first three channels is never read.
#[test]
fn alpha_channel_ignored() {
    let mut rgb = Vec::new();
    let mut rgba = Vec::new();
    let mut alpha = 0u8;
    for _y in 0..8 {
        for x in 0..9 {
            let pixel = if x == 0 { [0, 255, 0] } else { [255, 0, 0] };
            rgb.extend_from_slice(&pixel);
            rgba.extend_from_slice(&pixel);
            rgba.push(alpha);
            alpha = alpha.wrapping_add(37);
        }
    }
    let three = Dhash::new(&rgb, 9, 8, 3);
    let four = Dhash::new(&rgba, 9, 8, 4);
    assert_eq!(three.hash, four.hash);
}

/// With two channels the buffer counts as grayscale plus alpha: only the
/// first channel is summed.
#[test]
fn two_channels_use_first() {
    let mut bytes = Vec::new();
    let mut alpha = 255u8;
    for _y in 0..8 {
        for x in 0..9u32 {
            bytes.push((80 - 10 * x) as u8);
            bytes.push(alpha);
            alpha = alpha.wrapping_sub(11);
        }
    }
    let hash = Dhash::new(&bytes, 9, 8, 2);
    assert_eq!(hash.hash, 0xffff_ffff_ffff_ffff);
}

/// Images narrower than the grid keep working: empty cells sum to zero and
/// every comparison ties.
#[test]
fn degenerate_narrow() {
    let bytes = vec![200u8; 12];
    let hash = Dhash::new(&bytes, 4, 3, 1);
    assert_eq!(hash.hash, 0);
}

/// A wide but very short image also resolves its empty cells to zero.
#[test]
fn degenerate_short() {
    let bytes = vec![200u8; 500];
    let hash = Dhash::new(&bytes, 100, 5, 1);
    assert_eq!(hash.hash, 0);
}

/// A one-pixel image is accepted and hashes to zero.
#[test]
fn degenerate_single_pixel() {
    let bytes = vec![123u8; 3];
    let hash = Dhash::new(&bytes, 1, 1, 3);
    assert_eq!(hash.hash, 0);
}

/// Declaring 10x10x3 while supplying 50 bytes is the fatal length mismatch:
/// the checked entry point reports it every time.
#[test]
fn mismatched_length_rejected() {
    let bytes = vec![0u8; 50];
    assert!(Dhash::try_new(&bytes, 10, 10, 3).is_none());
}

/// Zero channels never match any buffer, even an empty one.
#[test]
fn zero_channels_rejected() {
    let bytes: Vec<u8> = Vec::new();
    assert!(Dhash::try_new(&bytes, 10, 10, 0).is_none());
}

/// A matching geometry makes the checked entry point agree with `new`.
#[test]
fn try_new_matches_new() {
    let mut bytes = Vec::new();
    for _y in 0..8 {
        for x in 0..9u32 {
            bytes.push((80 - 10 * x) as u8);
        }
    }
    let checked = Dhash::try_new(&bytes, 9, 8, 1).unwrap();
    let direct = Dhash::new(&bytes, 9, 8, 1);
    assert_eq!(checked.hash, direct.hash);
}
