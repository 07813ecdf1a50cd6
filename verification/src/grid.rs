//! The grid reducer: partitions the pixel bytes into a 9-column by 8-row grid
//! of cells and sums each cell's intensity.
//!
//! Multi-channel buffers are reduced through the luma weights of ITU-R BT.601;
//! to keep the arithmetic exact, every weight is scaled by 1000, so a pixel
//! contributes `299*r + 587*g + 114*b` instead of `0.299*r + 0.587*g +
//! 0.114*b`.  Within one hash computation every cell carries the same scale,
//! so the pairwise cell comparisons are unchanged.  Single-channel buffers are
//! already grayscale and contribute their raw byte.
use vstd::prelude::*;

verus! {

/// Scaled luma of one RGB pixel: 1000 times the BT.601 weighted intensity.
pub open spec fn luma_value(r: u8, g: u8, b: u8) -> int {
    299 * r + 587 * g + 114 * b
}

/// Byte offset of the first channel of the pixel at `(img_y, img_x)`.
pub open spec fn pixel_offset(img_y: int, img_x: int, width: int, channel_count: int) -> int {
    (img_y * width + img_x) * channel_count
}

/// Sum of the scaled lumas of the `n` pixels in column `img_x`, rows `y0`
/// through `y0 + n - 1`.
pub open spec fn rgb_col_sum(
    bytes: Seq<u8>,
    width: int,
    channel_count: int,
    img_x: int,
    y0: int,
    n: nat,
) -> int
    decreases n,
{
    if n == 0 {
        0
    } else {
        let i = pixel_offset(y0 + n - 1, img_x, width, channel_count);
        rgb_col_sum(bytes, width, channel_count, img_x, y0, (n - 1) as nat) + luma_value(
            bytes[i],
            bytes[i + 1],
            bytes[i + 2],
        )
    }
}

/// Sum of the scaled lumas over the cell of `m` columns starting at `x0` and
/// `cell_height` rows starting at `y0`.
pub open spec fn rgb_cell_sum(
    bytes: Seq<u8>,
    width: int,
    channel_count: int,
    x0: int,
    y0: int,
    cell_height: nat,
    m: nat,
) -> int
    decreases m,
{
    if m == 0 {
        0
    } else {
        rgb_cell_sum(bytes, width, channel_count, x0, y0, cell_height, (m - 1) as nat)
            + rgb_col_sum(bytes, width, channel_count, x0 + m - 1, y0, cell_height)
    }
}

/// Sum of the raw first-channel bytes of the `n` pixels in column `img_x`,
/// rows `y0` through `y0 + n - 1`.
pub open spec fn gray_col_sum(
    bytes: Seq<u8>,
    width: int,
    channel_count: int,
    img_x: int,
    y0: int,
    n: nat,
) -> int
    decreases n,
{
    if n == 0 {
        0
    } else {
        let i = pixel_offset(y0 + n - 1, img_x, width, channel_count);
        gray_col_sum(bytes, width, channel_count, img_x, y0, (n - 1) as nat) + bytes[i]
    }
}

/// Sum of the raw first-channel bytes over the cell of `m` columns starting at
/// `x0` and `cell_height` rows starting at `y0`.
pub open spec fn gray_cell_sum(
    bytes: Seq<u8>,
    width: int,
    channel_count: int,
    x0: int,
    y0: int,
    cell_height: nat,
    m: nat,
) -> int
    decreases m,
{
    if m == 0 {
        0
    } else {
        gray_cell_sum(bytes, width, channel_count, x0, y0, cell_height, (m - 1) as nat)
            + gray_col_sum(bytes, width, channel_count, x0 + m - 1, y0, cell_height)
    }
}

/// Intensity of the grid cell in row `gy`, column `gx`: the luma-weighted sum
/// for buffers of three or more channels, the raw byte sum otherwise.
pub open spec fn cell_intensity(
    bytes: Seq<u8>,
    width: int,
    channel_count: int,
    cell_width: nat,
    cell_height: nat,
    gy: int,
    gx: int,
) -> int {
    if channel_count >= 3 {
        rgb_cell_sum(
            bytes,
            width,
            channel_count,
            gx * cell_width,
            gy * cell_height,
            cell_height,
            cell_width,
        )
    } else {
        gray_cell_sum(
            bytes,
            width,
            channel_count,
            gx * cell_width,
            gy * cell_height,
            cell_height,
            cell_width,
        )
    }
}

pub proof fn lemma_rgb_col_sum_bounds(
    bytes: Seq<u8>,
    width: int,
    channel_count: int,
    img_x: int,
    y0: int,
    n: nat,
)
    ensures
        0 <= rgb_col_sum(bytes, width, channel_count, img_x, y0, n) <= 255000 * n,
    decreases n,
{
    if n > 0 {
        lemma_rgb_col_sum_bounds(bytes, width, channel_count, img_x, y0, (n - 1) as nat);
    }
}

pub proof fn lemma_rgb_cell_sum_bounds(
    bytes: Seq<u8>,
    width: int,
    channel_count: int,
    x0: int,
    y0: int,
    cell_height: nat,
    m: nat,
)
    ensures
        0 <= rgb_cell_sum(bytes, width, channel_count, x0, y0, cell_height, m) <= 255000 * (
        cell_height * m),
    decreases m,
{
    if m > 0 {
        lemma_rgb_cell_sum_bounds(bytes, width, channel_count, x0, y0, cell_height, (m - 1) as nat);
        lemma_rgb_col_sum_bounds(bytes, width, channel_count, x0 + m - 1, y0, cell_height);
        assert(255000 * (cell_height * (m - 1)) + 255000 * cell_height == 255000 * (cell_height
            * m)) by (nonlinear_arith);
    }
}

pub proof fn lemma_gray_col_sum_bounds(
    bytes: Seq<u8>,
    width: int,
    channel_count: int,
    img_x: int,
    y0: int,
    n: nat,
)
    ensures
        0 <= gray_col_sum(bytes, width, channel_count, img_x, y0, n) <= 255 * n,
    decreases n,
{
    if n > 0 {
        lemma_gray_col_sum_bounds(bytes, width, channel_count, img_x, y0, (n - 1) as nat);
    }
}

pub proof fn lemma_gray_cell_sum_bounds(
    bytes: Seq<u8>,
    width: int,
    channel_count: int,
    x0: int,
    y0: int,
    cell_height: nat,
    m: nat,
)
    ensures
        0 <= gray_cell_sum(bytes, width, channel_count, x0, y0, cell_height, m) <= 255 * (
        cell_height * m),
    decreases m,
{
    if m > 0 {
        lemma_gray_cell_sum_bounds(
            bytes,
            width,
            channel_count,
            x0,
            y0,
            cell_height,
            (m - 1) as nat,
        );
        lemma_gray_col_sum_bounds(bytes, width, channel_count, x0 + m - 1, y0, cell_height);
        assert(255 * (cell_height * (m - 1)) + 255 * cell_height == 255 * (cell_height * m))
            by (nonlinear_arith);
    }
}

/// A cell with no columns or no rows covers no pixels, so its intensity is 0.
pub proof fn lemma_cell_intensity_degenerate(
    bytes: Seq<u8>,
    width: int,
    channel_count: int,
    cell_width: nat,
    cell_height: nat,
    gy: int,
    gx: int,
)
    requires
        cell_width == 0 || cell_height == 0,
    ensures
        cell_intensity(bytes, width, channel_count, cell_width, cell_height, gy, gx) == 0,
{
    if cell_width != 0 {
        lemma_rgb_cell_sum_zero_height(
            bytes,
            width,
            channel_count,
            gx * cell_width,
            gy * cell_height,
            cell_width,
        );
        lemma_gray_cell_sum_zero_height(
            bytes,
            width,
            channel_count,
            gx * cell_width,
            gy * cell_height,
            cell_width,
        );
    }
}

proof fn lemma_rgb_cell_sum_zero_height(
    bytes: Seq<u8>,
    width: int,
    channel_count: int,
    x0: int,
    y0: int,
    m: nat,
)
    ensures
        rgb_cell_sum(bytes, width, channel_count, x0, y0, 0, m) == 0,
    decreases m,
{
    if m > 0 {
        lemma_rgb_cell_sum_zero_height(bytes, width, channel_count, x0, y0, (m - 1) as nat);
    }
}

proof fn lemma_gray_cell_sum_zero_height(
    bytes: Seq<u8>,
    width: int,
    channel_count: int,
    x0: int,
    y0: int,
    m: nat,
)
    ensures
        gray_cell_sum(bytes, width, channel_count, x0, y0, 0, m) == 0,
    decreases m,
{
    if m > 0 {
        lemma_gray_cell_sum_zero_height(bytes, width, channel_count, x0, y0, (m - 1) as nat);
    }
}

/// The whole cell grid holds at most `len` bytes' worth of pixels: a cell is
/// one seventy-second of a buffer of at least `width * 8*cell_height *
/// channel_count` bytes.
proof fn lemma_cell_pixel_budget(width: int, cw: int, ch: int, cc: int, len: int)
    by (nonlinear_arith)
    requires
        0 <= cw,
        0 <= ch,
        1 <= cc,
        9 * cw <= width,
        width * (8 * ch) * cc <= len,
    ensures
        72 * (cw * ch) <= len,
{
}

/// Every channel byte of an in-range pixel lies inside the buffer.
proof fn lemma_pixel_in_bounds(width: int, y_max: int, cc: int, len: int, img_y: int, img_x: int)
    by (nonlinear_arith)
    requires
        0 <= img_y < y_max,
        0 <= img_x < width,
        1 <= cc,
        width * y_max * cc <= len,
    ensures
        0 <= img_y * width,
        img_y * width + img_x < len,
        (img_y * width + img_x) * cc + cc <= len,
        img_y * width + img_x <= (img_y * width + img_x) * cc,
{
}

/// Reduces a multi-channel buffer: each grid cell sums the scaled lumas of its
/// pixels.  The grid comes back as 72 accumulators in row-major order.
#[verifier::loop_isolation(false)]
#[verifier::rlimit(60)]
pub fn from_rgb_bytes(
    bytes: &[u8],
    width: usize,
    cell_width: usize,
    cell_height: usize,
    channel_count: usize,
) -> (grid: Vec<u128>)
    requires
        channel_count >= 3,
        9 * cell_width <= width,
        8 * cell_height <= usize::MAX,
        width * (8 * cell_height) * channel_count <= bytes@.len(),
    ensures
        grid@.len() == 72,
        forall|gy: int, gx: int|
            0 <= gy < 8 && 0 <= gx < 9 ==> grid@[gy * 9 + gx] == #[trigger] rgb_cell_sum(
                bytes@,
                width as int,
                channel_count as int,
                gx * cell_width,
                gy * cell_height,
                cell_height as nat,
                cell_width as nat,
            ),
{
    let len = bytes.len();
    proof {
        lemma_cell_pixel_budget(
            width as int,
            cell_width as int,
            cell_height as int,
            channel_count as int,
            bytes@.len() as int,
        );
    }
    let mut grid: Vec<u128> = Vec::new();
    for k in 0..72usize
        invariant
            grid@.len() == k,
    {
        grid.push(0);
    }
    for gy in 0..8usize
        invariant
            grid@.len() == 72,
            forall|ry: int, rx: int|
                0 <= ry < gy && 0 <= rx < 9 ==> grid@[ry * 9 + rx] == #[trigger] rgb_cell_sum(
                    bytes@,
                    width as int,
                    channel_count as int,
                    rx * cell_width,
                    ry * cell_height,
                    cell_height as nat,
                    cell_width as nat,
                ),
    {
        for gx in 0..9usize
            invariant
                grid@.len() == 72,
                forall|ry: int, rx: int|
                    0 <= ry < gy && 0 <= rx < 9 ==> grid@[ry * 9 + rx] == #[trigger] rgb_cell_sum(
                        bytes@,
                        width as int,
                        channel_count as int,
                        rx * cell_width,
                        ry * cell_height,
                        cell_height as nat,
                        cell_width as nat,
                    ),
                forall|rx: int|
                    0 <= rx < gx ==> grid@[gy * 9 + rx] == #[trigger] rgb_cell_sum(
                        bytes@,
                        width as int,
                        channel_count as int,
                        rx * cell_width,
                        gy * cell_height,
                        cell_height as nat,
                        cell_width as nat,
                    ),
        {
            proof {
                assert(gx * cell_width <= 8 * cell_width && gy * cell_height <= 7
                    * cell_height) by (nonlinear_arith)
                    requires
                        0 <= gx <= 8,
                        0 <= gy <= 7,
                        0 <= cell_width,
                        0 <= cell_height,
                ;
            }
            let x0 = gx * cell_width;
            let y0 = gy * cell_height;
            let mut acc: u128 = 0;
            for dx in 0..cell_width
                invariant
                    acc == rgb_cell_sum(
                        bytes@,
                        width as int,
                        channel_count as int,
                        x0 as int,
                        y0 as int,
                        cell_height as nat,
                        dx as nat,
                    ),
            {
                let img_x = x0 + dx;
                for dy in 0..cell_height
                    invariant
                        acc == rgb_cell_sum(
                            bytes@,
                            width as int,
                            channel_count as int,
                            x0 as int,
                            y0 as int,
                            cell_height as nat,
                            dx as nat,
                        ) + rgb_col_sum(
                            bytes@,
                            width as int,
                            channel_count as int,
                            img_x as int,
                            y0 as int,
                            dy as nat,
                        ),
                {
                    let img_y = y0 + dy;
                    proof {
                        assert(img_y < 8 * cell_height && img_x < width) by (nonlinear_arith)
                            requires
                                img_x == x0 + dx,
                                img_y == y0 + dy,
                                x0 == gx * cell_width,
                                y0 == gy * cell_height,
                                0 <= gx <= 8,
                                0 <= gy <= 7,
                                0 <= dx < cell_width,
                                0 <= dy < cell_height,
                                9 * cell_width <= width,
                        ;
                        lemma_pixel_in_bounds(
                            width as int,
                            8 * cell_height as int,
                            channel_count as int,
                            bytes@.len() as int,
                            img_y as int,
                            img_x as int,
                        );
                        lemma_rgb_cell_sum_bounds(
                            bytes@,
                            width as int,
                            channel_count as int,
                            x0 as int,
                            y0 as int,
                            cell_height as nat,
                            dx as nat,
                        );
                        lemma_rgb_col_sum_bounds(
                            bytes@,
                            width as int,
                            channel_count as int,
                            img_x as int,
                            y0 as int,
                            dy as nat,
                        );
                        assert(255000 * (cell_height as int * dx as int) + 255000 * dy as int
                            + 255000 <= 255000 * (cell_width as int * cell_height as int))
                            by (nonlinear_arith)
                            requires
                                0 <= dx < cell_width,
                                0 <= dy < cell_height,
                        ;
                    }
                    let i = (img_y * width + img_x) * channel_count;
                    let r = bytes[i];
                    let g = bytes[i + 1];
                    let b = bytes[i + 2];
                    acc = acc + 299u128 * (r as u128) + 587u128 * (g as u128) + 114u128 * (b
                        as u128);
                }
            }
            grid.set(gy * 9 + gx, acc);
        }
    }
    grid
}

/// Reduces a one- or two-channel buffer: each grid cell sums the raw bytes of
/// its pixels' first channel.  The grid comes back as 72 accumulators in
/// row-major order.
#[verifier::loop_isolation(false)]
#[verifier::rlimit(60)]
pub fn from_luma_bytes(
    bytes: &[u8],
    width: usize,
    cell_width: usize,
    cell_height: usize,
    channel_count: usize,
) -> (grid: Vec<u128>)
    requires
        channel_count >= 1,
        9 * cell_width <= width,
        8 * cell_height <= usize::MAX,
        width * (8 * cell_height) * channel_count <= bytes@.len(),
    ensures
        grid@.len() == 72,
        forall|gy: int, gx: int|
            0 <= gy < 8 && 0 <= gx < 9 ==> grid@[gy * 9 + gx] == #[trigger] gray_cell_sum(
                bytes@,
                width as int,
                channel_count as int,
                gx * cell_width,
                gy * cell_height,
                cell_height as nat,
                cell_width as nat,
            ),
{
    let len = bytes.len();
    proof {
        lemma_cell_pixel_budget(
            width as int,
            cell_width as int,
            cell_height as int,
            channel_count as int,
            bytes@.len() as int,
        );
    }
    let mut grid: Vec<u128> = Vec::new();
    for k in 0..72usize
        invariant
            grid@.len() == k,
    {
        grid.push(0);
    }
    for gy in 0..8usize
        invariant
            grid@.len() == 72,
            forall|ry: int, rx: int|
                0 <= ry < gy && 0 <= rx < 9 ==> grid@[ry * 9 + rx] == #[trigger] gray_cell_sum(
                    bytes@,
                    width as int,
                    channel_count as int,
                    rx * cell_width,
                    ry * cell_height,
                    cell_height as nat,
                    cell_width as nat,
                ),
    {
        for gx in 0..9usize
            invariant
                grid@.len() == 72,
                forall|ry: int, rx: int|
                    0 <= ry < gy && 0 <= rx < 9 ==> grid@[ry * 9 + rx] == #[trigger] gray_cell_sum(
                        bytes@,
                        width as int,
                        channel_count as int,
                        rx * cell_width,
                        ry * cell_height,
                        cell_height as nat,
                        cell_width as nat,
                    ),
                forall|rx: int|
                    0 <= rx < gx ==> grid@[gy * 9 + rx] == #[trigger] gray_cell_sum(
                        bytes@,
                        width as int,
                        channel_count as int,
                        rx * cell_width,
                        gy * cell_height,
                        cell_height as nat,
                        cell_width as nat,
                    ),
        {
            proof {
                assert(gx * cell_width <= 8 * cell_width && gy * cell_height <= 7
                    * cell_height) by (nonlinear_arith)
                    requires
                        0 <= gx <= 8,
                        0 <= gy <= 7,
                        0 <= cell_width,
                        0 <= cell_height,
                ;
            }
            let x0 = gx * cell_width;
            let y0 = gy * cell_height;
            let mut acc: u128 = 0;
            for dx in 0..cell_width
                invariant
                    acc == gray_cell_sum(
                        bytes@,
                        width as int,
                        channel_count as int,
                        x0 as int,
                        y0 as int,
                        cell_height as nat,
                        dx as nat,
                    ),
            {
                let img_x = x0 + dx;
                for dy in 0..cell_height
                    invariant
                        acc == gray_cell_sum(
                            bytes@,
                            width as int,
                            channel_count as int,
                            x0 as int,
                            y0 as int,
                            cell_height as nat,
                            dx as nat,
                        ) + gray_col_sum(
                            bytes@,
                            width as int,
                            channel_count as int,
                            img_x as int,
                            y0 as int,
                            dy as nat,
                        ),
                {
                    let img_y = y0 + dy;
                    proof {
                        assert(img_y < 8 * cell_height && img_x < width) by (nonlinear_arith)
                            requires
                                img_x == x0 + dx,
                                img_y == y0 + dy,
                                x0 == gx * cell_width,
                                y0 == gy * cell_height,
                                0 <= gx <= 8,
                                0 <= gy <= 7,
                                0 <= dx < cell_width,
                                0 <= dy < cell_height,
                                9 * cell_width <= width,
                        ;
                        lemma_pixel_in_bounds(
                            width as int,
                            8 * cell_height as int,
                            channel_count as int,
                            bytes@.len() as int,
                            img_y as int,
                            img_x as int,
                        );
                        lemma_gray_cell_sum_bounds(
                            bytes@,
                            width as int,
                            channel_count as int,
                            x0 as int,
                            y0 as int,
                            cell_height as nat,
                            dx as nat,
                        );
                        lemma_gray_col_sum_bounds(
                            bytes@,
                            width as int,
                            channel_count as int,
                            img_x as int,
                            y0 as int,
                            dy as nat,
                        );
                        assert(255 * (cell_height as int * dx as int) + 255 * dy as int + 255 <= 255
                            * (cell_width as int * cell_height as int)) by (nonlinear_arith)
                            requires
                                0 <= dx < cell_width,
                                0 <= dy < cell_height,
                        ;
                    }
                    let i = (img_y * width + img_x) * channel_count;
                    let v = bytes[i];
                    acc = acc + (v as u128);
                }
            }
            grid.set(gy * 9 + gx, acc);
        }
    }
    grid
}

} // verus!
