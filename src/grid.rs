use vstd::prelude::*;

verus! {

/// One grid cell: channel sums while pixels accumulate, channel means once averaged.
#[derive(Debug, Clone, Copy)]
pub struct RGB {
    pub r: usize,
    pub g: usize,
    pub b: usize,
}

/// Why a grid could not be built.
#[derive(Debug, Clone, Copy, PartialEq, Eq)]
pub enum GridError {
    /// A dimension or the cell size is zero, or the cell size does not divide a dimension.
    InvalidDimensions,
}

/// A screen reduced to square cells of `pixels_per_cell` pixels a side, rows stored contiguously.
pub struct LEDCalculator {
    screen_size: (usize, usize),
    pixels_per_cell: usize,
    pub grid: Vec<RGB>,
}

/// Dimensions that a grid can be built from.
pub open spec fn valid_dimensions(width: nat, height: nat, cell_size: nat) -> bool {
    &&& cell_size > 0
    &&& width > 0
    &&& height > 0
    &&& width % cell_size == 0
    &&& height % cell_size == 0
}

pub open spec fn is_black(c: RGB) -> bool {
    c.r == 0 && c.g == 0 && c.b == 0
}

pub open spec fn add_rgb(c: RGB, r: usize, g: usize, b: usize) -> RGB {
    RGB { r: (c.r + r) as usize, g: (c.g + g) as usize, b: (c.b + b) as usize }
}

pub open spec fn div_rgb(c: RGB, d: nat) -> RGB {
    RGB { r: (c.r as nat / d) as usize, g: (c.g as nat / d) as usize, b: (c.b as nat / d) as usize }
}

/// The cell `(x, y)` at position `pos` of a clockwise walk around a
/// `gw` by `gh` grid that starts at the top-left corner.
pub open spec fn perimeter_point(gw: int, gh: int, pos: int) -> (int, int) {
    if pos < gw {
        (pos, 0)
    } else if pos < gw + gh {
        (gw - 1, pos - gw)
    } else if pos < 2 * gw + gh {
        (2 * gw + gh - pos - 1, gh - 1)
    } else {
        (0, 2 * (gw + gh) - pos - 1)
    }
}

/// The low byte of one channel of a cell: `ch` is 0 for red, 1 for green, 2 for blue.
pub open spec fn channel_byte(c: RGB, ch: int) -> u8 {
    if ch == 0 {
        (c.r % 256) as u8
    } else if ch == 1 {
        (c.g % 256) as u8
    } else {
        (c.b % 256) as u8
    }
}

/// The row-major index of the cell that covers pixel number `j` of a frame
/// `width` pixels wide, with cells `cs` pixels a side.
pub open spec fn pixel_cell(width: int, cs: int, j: int) -> int {
    (j % width) / cs + ((j / width) / cs) * (width / cs)
}

/// The sum of channel `ch` over those of the first `n` pixels of a packed
/// four-bytes-per-pixel frame that fall in cell `cell`.
pub open spec fn channel_sum(data: Seq<u8>, width: int, cs: int, cell: int, ch: int, n: int) -> int
    decreases n,
{
    if n <= 0 {
        0
    } else {
        channel_sum(data, width, cs, cell, ch, n - 1) + if pixel_cell(width, cs, n - 1) == cell {
            data[4 * (n - 1) + ch] as int
        } else {
            0
        }
    }
}

/// The channel sums of cell `cell` over the first `n` pixels of a frame.
pub open spec fn cell_sums(data: Seq<u8>, width: int, cs: int, cell: int, n: int) -> RGB {
    RGB {
        r: channel_sum(data, width, cs, cell, 0, n) as usize,
        g: channel_sum(data, width, cs, cell, 1, n) as usize,
        b: channel_sum(data, width, cs, cell, 2, n) as usize,
    }
}

proof fn lemma_channel_sum_bound(data: Seq<u8>, width: int, cs: int, cell: int, ch: int, n: int)
    requires
        0 <= ch < 4,
        0 <= n,
        4 * n <= data.len(),
    ensures
        0 <= channel_sum(data, width, cs, cell, ch, n) <= 255 * n,
    decreases n,
{
    if n > 0 {
        lemma_channel_sum_bound(data, width, cs, cell, ch, n - 1);
    }
}

proof fn lemma_index_in_grid(x: int, y: int, gw: int, gh: int)
    requires
        0 <= x < gw,
        0 <= y < gh,
    ensures
        0 <= x + y * gw < gw * gh,
{
    assert(0 <= x + y * gw < gw * gh) by (nonlinear_arith)
        requires
            0 <= x < gw,
            0 <= y < gh,
    ;
}

proof fn lemma_quotient_pos(n: int, d: int)
    requires
        n > 0,
        d > 0,
        n % d == 0,
    ensures
        n / d > 0,
{
    vstd::arithmetic::div_mod::lemma_fundamental_div_mod(n, d);
    assert(n / d > 0) by (nonlinear_arith)
        requires
            n > 0,
            d > 0,
            n == d * (n / d),
    ;
}

proof fn lemma_cell_of_pixel(x: int, y: int, cs: int, width: int, height: int)
    requires
        cs > 0,
        0 <= x < width,
        0 <= y < height,
        width % cs == 0,
        height % cs == 0,
    ensures
        0 <= x / cs < width / cs,
        0 <= y / cs < height / cs,
{
    vstd::arithmetic::div_mod::lemma_div_is_ordered(x, width - 1, cs);
    vstd::arithmetic::div_mod::lemma_div_is_ordered(y, height - 1, cs);
    vstd::arithmetic::div_mod::lemma_fundamental_div_mod(width, cs);
    vstd::arithmetic::div_mod::lemma_fundamental_div_mod(height, cs);
    vstd::arithmetic::div_mod::lemma_fundamental_div_mod(width - 1, cs);
    vstd::arithmetic::div_mod::lemma_fundamental_div_mod(height - 1, cs);
    vstd::arithmetic::div_mod::lemma_div_pos_is_pos(x, cs);
    vstd::arithmetic::div_mod::lemma_div_pos_is_pos(y, cs);
    assert((width - 1) / cs < width / cs) by (nonlinear_arith)
        requires
            cs > 0,
            width >= 1,
            width == cs * (width / cs),
            width - 1 == cs * ((width - 1) / cs) + (width - 1) % cs,
            0 <= (width - 1) % cs < cs,
    ;
    assert((height - 1) / cs < height / cs) by (nonlinear_arith)
        requires
            cs > 0,
            height >= 1,
            height == cs * (height / cs),
            height - 1 == cs * ((height - 1) / cs) + (height - 1) % cs,
            0 <= (height - 1) % cs < cs,
    ;
}

/// Reduces a packed four-bytes-per-pixel frame (red, green, blue, one byte
/// ignored) to a grid of per-cell channel sums, or `InvalidDimensions` where
/// the grid cannot be built.
pub fn reduce_frame(width: usize, height: usize, pixels_per_cell: usize, data: &Vec<u8>) -> (r:
    Result<LEDCalculator, GridError>)
    requires
        width * height <= usize::MAX,
        2 * (width + height) <= usize::MAX,
        255 * (width * height) <= usize::MAX,
        data@.len() == 4 * (width * height),
    ensures
        r is Err <==> !valid_dimensions(width as nat, height as nat, pixels_per_cell as nat),
        r is Err ==> r == Err::<LEDCalculator, GridError>(GridError::InvalidDimensions),
        r matches Ok(c) ==> {
            &&& c.wf()
            &&& c.width() == width
            &&& c.height() == height
            &&& c.cell_size() == pixels_per_cell
            &&& forall|k: int|
                0 <= k < c.cells().len() ==> #[trigger] c.cells()[k] == cell_sums(
                    data@,
                    width as int,
                    pixels_per_cell as int,
                    k,
                    width * height,
                )
        },
{
    let mut calc = match LEDCalculator::new(width, height, pixels_per_cell) {
        Ok(c) => c,
        Err(e) => {
            return Err(e);
        },
    };
    let ghost w = width as int;
    let ghost cs = pixels_per_cell as int;
    let n: usize = width * height;
    let mut j: usize = 0;
    assert forall|k: int| 0 <= k < calc.cells().len() implies #[trigger] calc.cells()[k]
        == cell_sums(data@, w, cs, k, 0) by {
        assert(is_black(calc.cells()[k]));
    }
    while j < n
        invariant
            calc.wf(),
            calc.width() == width,
            calc.height() == height,
            calc.cell_size() == pixels_per_cell,
            w == width,
            cs == pixels_per_cell,
            n == width * height,
            j <= n,
            255 * n <= usize::MAX,
            data@.len() == 4 * n,
            forall|k: int|
                0 <= k < calc.cells().len() ==> #[trigger] calc.cells()[k] == cell_sums(
                    data@,
                    w,
                    cs,
                    k,
                    j as int,
                ),
        decreases n - j,
    {
        let x: usize = j % width;
        let y: usize = j / width;
        proof {
            vstd::arithmetic::div_mod::lemma_fundamental_div_mod(j as int, w);
            assert(y < height) by (nonlinear_arith)
                requires
                    j < width * height,
                    j == width * y + x,
                    x >= 0,
                    width > 0,
            ;
            let k0 = calc.cell_index(x as int, y as int);
            lemma_cell_of_pixel(x as int, y as int, cs, w, height as int);
            lemma_index_in_grid(
                x as int / cs,
                y as int / cs,
                calc.grid_width() as int,
                calc.grid_height() as int,
            );
            lemma_channel_sum_bound(data@, w, cs, k0, 0, j as int);
            lemma_channel_sum_bound(data@, w, cs, k0, 1, j as int);
            lemma_channel_sum_bound(data@, w, cs, k0, 2, j as int);
            assert(255 * j + 255 <= 255 * n) by (nonlinear_arith)
                requires
                    j < n,
            ;
        }
        let ghost before = calc.cells();
        calc.saturate(
            x,
            y,
            data[4 * j] as usize,
            data[4 * j + 1] as usize,
            data[4 * j + 2] as usize,
        );
        proof {
            let k0 = pixel_cell(w, cs, j as int);
            assert forall|k: int| 0 <= k < calc.cells().len() implies #[trigger] calc.cells()[k]
                == cell_sums(data@, w, cs, k, j + 1) by {
                lemma_channel_sum_bound(data@, w, cs, k, 0, j + 1);
                lemma_channel_sum_bound(data@, w, cs, k, 1, j + 1);
                lemma_channel_sum_bound(data@, w, cs, k, 2, j + 1);
                if k != k0 {
                    assert(calc.cells()[k] == before[k]);
                }
            }
        }
        j = j + 1;
    }
    Ok(calc)
}

/// How many of `0, 1, ..., m - 1` fall in block `c` of blocks `cs` wide.
pub open spec fn block_count(cs: int, c: int, m: int) -> int
    decreases m,
{
    if m <= 0 {
        0
    } else {
        block_count(cs, c, m - 1) + if (m - 1) / cs == c {
            1int
        } else {
            0int
        }
    }
}

/// How many of the first `n` pixels of a frame `width` pixels wide fall in cell `cell`.
pub open spec fn pixel_count(width: int, cs: int, cell: int, n: int) -> int
    decreases n,
{
    if n <= 0 {
        0
    } else {
        pixel_count(width, cs, cell, n - 1) + if pixel_cell(width, cs, n - 1) == cell {
            1int
        } else {
            0int
        }
    }
}

proof fn lemma_div_range(x: int, cs: int, c: int)
    requires
        x >= 0,
        cs > 0,
        c >= 0,
    ensures
        (x / cs == c) <==> (c * cs <= x < c * cs + cs),
{
    vstd::arithmetic::div_mod::lemma_fundamental_div_mod(x, cs);
    if c * cs <= x < c * cs + cs {
        vstd::arithmetic::div_mod::lemma_fundamental_div_mod_converse(x, cs, c, x - c * cs);
    }
    if x / cs == c {
        assert(c * cs <= x < c * cs + cs) by (nonlinear_arith)
            requires
                x == cs * c + x % cs,
                0 <= x % cs < cs,
        ;
    }
}

proof fn lemma_block_count(cs: int, c: int, m: int)
    requires
        cs > 0,
        c >= 0,
        m >= 0,
    ensures
        block_count(cs, c, m) == (if m <= c * cs {
            0
        } else if m >= c * cs + cs {
            cs
        } else {
            m - c * cs
        }),
    decreases m,
{
    if m > 0 {
        lemma_block_count(cs, c, m - 1);
        lemma_div_range(m - 1, cs, c);
    }
}

proof fn lemma_cell_split(a: int, b: int, c: int, d: int, gw: int)
    requires
        0 <= a < gw,
        0 <= c < gw,
        b >= 0,
        d >= 0,
        a + b * gw == c + d * gw,
    ensures
        a == c,
        b == d,
{
    vstd::arithmetic::div_mod::lemma_fundamental_div_mod_converse(a + b * gw, gw, b, a);
    vstd::arithmetic::div_mod::lemma_fundamental_div_mod_converse(c + d * gw, gw, d, c);
}

proof fn lemma_pixel_count(width: int, cs: int, cx: int, cy: int, n: int)
    requires
        cs > 0,
        width > 0,
        width % cs == 0,
        0 <= cx < width / cs,
        cy >= 0,
        n >= 0,
    ensures
        pixel_count(width, cs, cx + cy * (width / cs), n) == cs * block_count(cs, cy, n / width)
            + if (n / width) / cs == cy {
            block_count(cs, cx, n % width)
        } else {
            0
        },
    decreases n,
{
    if n > 0 {
        let gw = width / cs;
        let j = n - 1;
        lemma_pixel_count(width, cs, cx, cy, j);
        vstd::arithmetic::div_mod::lemma_fundamental_div_mod(j, width);
        let y = j / width;
        let m = j % width;
        vstd::arithmetic::div_mod::lemma_div_pos_is_pos(j, width);
        lemma_cell_of_pixel(m, 0, cs, width, cs);
        vstd::arithmetic::div_mod::lemma_div_pos_is_pos(y, cs);
        if pixel_cell(width, cs, j) == cx + cy * gw {
            lemma_cell_split(m / cs, y / cs, cx, cy, gw);
        }
        if m + 1 < width {
            vstd::arithmetic::div_mod::lemma_fundamental_div_mod_converse(n, width, y, m + 1);
        } else {
            assert(n == (y + 1) * width + 0) by (nonlinear_arith)
                requires
                    j == width * y + m,
                    m + 1 == width,
                    n == j + 1,
            ;
            vstd::arithmetic::div_mod::lemma_fundamental_div_mod_converse(n, width, y + 1, 0);
            lemma_block_count(cs, cx, width);
            lemma_block_count(cs, cx, m);
            lemma_div_range(m, cs, cx);
            vstd::arithmetic::div_mod::lemma_fundamental_div_mod(width, cs);
            assert(cx * cs + cs <= width) by (nonlinear_arith)
                requires
                    cx < gw,
                    width == cs * gw + 0,
                    cs > 0,
            ;
            assert(cs * block_count(cs, cy, y + 1) == cs * block_count(cs, cy, y) + if y / cs
                == cy {
                cs
            } else {
                0
            }) by (nonlinear_arith)
                requires
                    block_count(cs, cy, y + 1) == block_count(cs, cy, y) + if y / cs == cy {
                        1int
                    } else {
                        0int
                    },
            ;
        }
    }
}

/// Every cell of a frame covers exactly `cs²` of its pixels, so dividing a
/// cell's channel sums by `cs²`, as `average` does, yields the arithmetic mean
/// of the pixels that the cell covers.
pub proof fn lemma_cell_covers_cs_squared(width: nat, height: nat, cs: nat, cell: int)
    requires
        valid_dimensions(width, height, cs),
        0 <= cell < (width / cs) * (height / cs),
    ensures
        pixel_count(width as int, cs as int, cell, (width * height) as int) == cs * cs,
{
    let w = width as int;
    let h = height as int;
    let c = cs as int;
    let gw = w / c;
    let gh = h / c;
    lemma_quotient_pos(w, c);
    vstd::arithmetic::div_mod::lemma_fundamental_div_mod(cell, gw);
    let cx = cell % gw;
    let cy = cell / gw;
    vstd::arithmetic::div_mod::lemma_div_pos_is_pos(cell, gw);
    assert(cy < gh) by (nonlinear_arith)
        requires
            cell == gw * cy + cx,
            0 <= cx,
            cell < gw * gh,
            gw > 0,
    ;
    assert(cell == cx + cy * gw) by (nonlinear_arith)
        requires
            cell == gw * cy + cx,
    ;
    lemma_pixel_count(w, c, cx, cy, w * h);
    vstd::arithmetic::div_mod::lemma_fundamental_div_mod_converse(w * h, w, h, 0);
    vstd::arithmetic::div_mod::lemma_fundamental_div_mod(h, c);
    assert(cy * c + c <= h) by (nonlinear_arith)
        requires
            cy < gh,
            h == c * gh + 0,
            c > 0,
    ;
    lemma_block_count(c, cy, h);
    lemma_block_count(c, cx, 0);
}

proof fn lemma_uniform_sum(data: Seq<u8>, width: int, cs: int, cell: int, ch: int, v: int, n: int)
    requires
        0 <= n,
        forall|j: int|
            0 <= j < n && #[trigger] pixel_cell(width, cs, j) == cell ==> data[4 * j + ch] == v,
    ensures
        channel_sum(data, width, cs, cell, ch, n) == v * pixel_count(width, cs, cell, n),
    decreases n,
{
    if n > 0 {
        lemma_uniform_sum(data, width, cs, cell, ch, v, n - 1);
        assert(v * pixel_count(width, cs, cell, n) == v * pixel_count(width, cs, cell, n - 1) + if pixel_cell(width, cs, n - 1) == cell {
            v
        } else {
            0
        }) by (nonlinear_arith)
            requires
                pixel_count(width, cs, cell, n) == pixel_count(width, cs, cell, n - 1) + if pixel_cell(width, cs, n - 1) == cell {
                    1int
                } else {
                    0int
                },
        ;
    }
}

/// A cell whose pixels all carry the same value of a channel has that value
/// as the channel's mean: its sum divided by `cs²` is the value itself.
pub proof fn lemma_uniform_cell_mean(
    data: Seq<u8>,
    width: nat,
    height: nat,
    cs: nat,
    cell: int,
    ch: int,
    v: u8,
)
    requires
        valid_dimensions(width, height, cs),
        0 <= cell < (width / cs) * (height / cs),
        0 <= ch < 3,
        data.len() == 4 * (width * height),
        forall|j: int|
            0 <= j < width * height && #[trigger] pixel_cell(width as int, cs as int, j) == cell
                ==> data[4 * j + ch] == v,
    ensures
        channel_sum(data, width as int, cs as int, cell, ch, (width * height) as int) / (cs * cs as int)
            == v,
{
    let n = (width * height) as int;
    lemma_uniform_sum(data, width as int, cs as int, cell, ch, v as int, n);
    lemma_cell_covers_cs_squared(width, height, cs, cell);
    let d = cs * cs as int;
    assert(d > 0) by (nonlinear_arith)
        requires
            cs > 0,
            d == cs * cs,
    ;
    vstd::arithmetic::div_mod::lemma_div_multiples_vanish(v as int, d);
    assert(v * d == d * v) by (nonlinear_arith);
}

impl Clone for LEDCalculator {
    /// A copy with the same dimensions and the same cells.
    fn clone(&self) -> (r: Self)
        ensures
            r.same_shape(self),
            r.cells() == self.cells(),
    {
        let mut grid: Vec<RGB> = Vec::with_capacity(self.grid.len());
        let mut i: usize = 0;
        while i < self.grid.len()
            invariant
                i <= self.grid@.len(),
                grid@ == self.grid@.subrange(0, i as int),
            decreases self.grid@.len() - i,
        {
            grid.push(self.grid[i]);
            i = i + 1;
            assert(grid@ =~= self.grid@.subrange(0, i as int));
        }
        assert(grid@ =~= self.grid@);
        LEDCalculator { screen_size: self.screen_size, pixels_per_cell: self.pixels_per_cell, grid }
    }
}

impl LEDCalculator {
    pub closed spec fn width(&self) -> nat {
        self.screen_size.0 as nat
    }

    pub closed spec fn height(&self) -> nat {
        self.screen_size.1 as nat
    }

    pub closed spec fn cell_size(&self) -> nat {
        self.pixels_per_cell as nat
    }

    pub open spec fn grid_width(&self) -> nat {
        self.width() / self.cell_size()
    }

    pub open spec fn grid_height(&self) -> nat {
        self.height() / self.cell_size()
    }

    pub closed spec fn cells(&self) -> Seq<RGB> {
        self.grid@
    }

    /// The number of border cells, counted as the walk counts them.
    pub open spec fn perimeter(&self) -> nat {
        2 * (self.grid_width() + self.grid_height())
    }

    /// Dimensions valid, sizes in range of `usize`, one cell per grid position.
    pub open spec fn wf(&self) -> bool {
        &&& valid_dimensions(self.width(), self.height(), self.cell_size())
        &&& self.width() * self.height() <= usize::MAX
        &&& 2 * (self.width() + self.height()) <= usize::MAX
        &&& self.cells().len() == self.grid_width() * self.grid_height()
    }

    /// The row-major index of the cell that covers pixel `(x, y)`.
    pub open spec fn cell_index(&self, x: int, y: int) -> int {
        x / (self.cell_size() as int) + (y / (self.cell_size() as int)) * (self.grid_width() as int)
    }

    pub open spec fn same_shape(&self, other: &LEDCalculator) -> bool {
        &&& self.width() == other.width()
        &&& self.height() == other.height()
        &&& self.cell_size() == other.cell_size()
    }

    /// The cell that LED `i` of `count` shows: its position along the border
    /// is `i` times the integer spacing `perimeter / count`.
    pub open spec fn led_cell(&self, count: nat, i: nat) -> RGB {
        let gw = self.grid_width() as int;
        let pos = (i * (self.perimeter() / count)) as int;
        let p = perimeter_point(gw, self.grid_height() as int, pos);
        self.cells()[p.0 + p.1 * gw]
    }

    /// The bytes of `count` LEDs: red, green and blue of each in walk order.
    pub open spec fn led_bytes(&self, count: nat) -> Seq<u8> {
        Seq::new(3 * count, |k: int| channel_byte(self.led_cell(count, (k / 3) as nat), k % 3))
    }

    /// A zeroed grid of `(width / pixels_per_cell) * (height / pixels_per_cell)`
    /// cells, or `InvalidDimensions` where a size is zero or not a multiple of
    /// the cell size.
    pub fn new(width: usize, height: usize, pixels_per_cell: usize) -> (r: Result<
        LEDCalculator,
        GridError,
    >)
        requires
            width * height <= usize::MAX,
            2 * (width + height) <= usize::MAX,
        ensures
            r is Err <==> !valid_dimensions(width as nat, height as nat, pixels_per_cell as nat),
            r is Err ==> r == Err::<LEDCalculator, GridError>(GridError::InvalidDimensions),
            r matches Ok(c) ==> {
                &&& c.wf()
                &&& c.width() == width
                &&& c.height() == height
                &&& c.cell_size() == pixels_per_cell
                &&& c.cells().len() == (width / pixels_per_cell) * (height / pixels_per_cell)
                &&& forall|i: int| 0 <= i < c.cells().len() ==> is_black(#[trigger] c.cells()[i])
            },
    {
        if pixels_per_cell == 0 || width == 0 || height == 0 || width % pixels_per_cell != 0
            || height % pixels_per_cell != 0 {
            return Err(GridError::InvalidDimensions);
        }
        let gw: usize = width / pixels_per_cell;
        let gh: usize = height / pixels_per_cell;
        assert(gw * gh <= width * height) by (nonlinear_arith)
            requires
                gw <= width,
                gh <= height,
        ;
        let n: usize = gw * gh;
        let mut grid: Vec<RGB> = Vec::with_capacity(n);
        let mut i: usize = 0;
        while i < n
            invariant
                i <= n,
                grid@.len() == i,
                forall|k: int| 0 <= k < i ==> is_black(#[trigger] grid@[k]),
            decreases n - i,
        {
            grid.push(RGB { r: 0, g: 0, b: 0 });
            i = i + 1;
        }
        Ok(LEDCalculator { screen_size: (width, height), pixels_per_cell, grid })
    }

    /// Adds a pixel's channel values to the cell that covers pixel `(x, y)`.
    pub fn saturate(&mut self, x: usize, y: usize, r: usize, g: usize, b: usize)
        requires
            old(self).wf(),
            x < old(self).width(),
            y < old(self).height(),
            old(self).cells()[old(self).cell_index(x as int, y as int)].r + r <= usize::MAX,
            old(self).cells()[old(self).cell_index(x as int, y as int)].g + g <= usize::MAX,
            old(self).cells()[old(self).cell_index(x as int, y as int)].b + b <= usize::MAX,
        ensures
            final(self).wf(),
            final(self).same_shape(old(self)),
            0 <= old(self).cell_index(x as int, y as int) < old(self).cells().len(),
            final(self).cells() == old(self).cells().update(
                old(self).cell_index(x as int, y as int),
                add_rgb(old(self).cells()[old(self).cell_index(x as int, y as int)], r, g, b),
            ),
    {
        let cs = self.pixels_per_cell;
        let gw = self.screen_size.0 / cs;
        proof {
            lemma_cell_of_pixel(
                x as int,
                y as int,
                cs as int,
                self.width() as int,
                self.height() as int,
            );
            lemma_index_in_grid(
                (x / cs) as int,
                (y / cs) as int,
                self.grid_width() as int,
                self.grid_height() as int,
            );
            assert(self.grid_width() * self.grid_height() <= self.width() * self.height())
                by (nonlinear_arith)
                requires
                    self.grid_width() <= self.width(),
                    self.grid_height() <= self.height(),
            ;
        }
        let idx = x / cs + (y / cs) * gw;
        let mut cell = self.grid[idx];
        cell.r = cell.r + r;
        cell.g = cell.g + g;
        cell.b = cell.b + b;
        self.grid.set(idx, cell);
    }

    /// Divides every cell's sums by the number of pixels in a cell, `pixels_per_cell²`.
    pub fn average(&mut self)
        requires
            old(self).wf(),
        ensures
            final(self).wf(),
            final(self).same_shape(old(self)),
            final(self).cells().len() == old(self).cells().len(),
            forall|i: int|
                0 <= i < final(self).cells().len() ==> #[trigger] final(self).cells()[i] == div_rgb(
                    old(self).cells()[i],
                    old(self).cell_size() * old(self).cell_size(),
                ),
    {
        let cs = self.pixels_per_cell;
        proof {
            let w = self.width() as int;
            let h = self.height() as int;
            let c = cs as int;
            vstd::arithmetic::div_mod::lemma_mod_is_zero(w as nat, c as nat);
            vstd::arithmetic::div_mod::lemma_mod_is_zero(h as nat, c as nat);
            assert(0 < c * c <= w * h) by (nonlinear_arith)
                requires
                    0 < c <= w,
                    c <= h,
            ;
        }
        let d = cs * cs;
        let n = self.grid.len();
        let mut i: usize = 0;
        while i < n
            invariant
                i <= n,
                n == old(self).cells().len(),
                d == old(self).cell_size() * old(self).cell_size(),
                d > 0,
                self.screen_size == old(self).screen_size,
                self.pixels_per_cell == old(self).pixels_per_cell,
                self.grid@.len() == n,
                forall|k: int| 0 <= k < i ==> #[trigger] self.grid@[k] == div_rgb(old(self).grid@[k], d as nat),
                forall|k: int| i <= k < n ==> #[trigger] self.grid@[k] == old(self).grid@[k],
            decreases n - i,
        {
            let cell = self.grid[i];
            self.grid.set(i, RGB { r: cell.r / d, g: cell.g / d, b: cell.b / d });
            i = i + 1;
        }
    }

    /// Appends the red, green and blue low bytes of `count` border cells,
    /// walking clockwise from the top-left corner in steps of `perimeter / count`.
    pub fn write(&self, count: usize, buf: &mut Vec<u8>)
        requires
            self.wf(),
        ensures
            final(buf)@ == old(buf)@ + self.led_bytes(count as nat),
    {
        let gw: usize = self.screen_size.0 / self.pixels_per_cell;
        let gh: usize = self.screen_size.1 / self.pixels_per_cell;
        proof {
            lemma_quotient_pos(self.width() as int, self.cell_size() as int);
            lemma_quotient_pos(self.height() as int, self.cell_size() as int);
        }
        let perimeter: usize = 2 * (gw + gh);
        let mut i: usize = 0;
        while i < count
            invariant
                self.wf(),
                i <= count,
                gw == self.grid_width(),
                gh == self.grid_height(),
                gw > 0,
                gh > 0,
                perimeter == self.perimeter(),
                buf@ == old(buf)@ + self.led_bytes(count as nat).subrange(0, 3 * i as int),
            decreases count - i,
        {
            let idx: usize = perimeter / count;
            proof {
                vstd::arithmetic::div_mod::lemma_fundamental_div_mod(
                    perimeter as int,
                    count as int,
                );
                assert(i * idx < perimeter) by (nonlinear_arith)
                    requires
                        i < count,
                        perimeter > 0,
                        idx >= 0,
                        perimeter == count * idx + perimeter % count,
                        perimeter % count >= 0,
                ;
            }
            let pos: usize = i * idx;
            let x: usize;
            let y: usize;
            if pos < gw {
                x = pos;
                y = 0;
            } else if pos < gw + gh {
                x = gw - 1;
                y = pos - gw;
            } else if pos < 2 * gw + gh {
                x = 2 * gw + gh - pos - 1;
                y = gh - 1;
            } else {
                x = 0;
                y = 2 * (gw + gh) - pos - 1;
            }
            proof {
                lemma_index_in_grid(x as int, y as int, gw as int, gh as int);
                assert(gw * gh <= self.width() * self.height()) by (nonlinear_arith)
                    requires
                        gw <= self.width(),
                        gh <= self.height(),
                ;
            }
            let cell = self.grid[x + y * gw];
            assert(cell == self.led_cell(count as nat, i as nat));
            buf.push((cell.r % 256) as u8);
            buf.push((cell.g % 256) as u8);
            buf.push((cell.b % 256) as u8);
            proof {
                let all = self.led_bytes(count as nat);
                assert(all[3 * i as int] == channel_byte(cell, 0));
                assert(all[3 * i as int + 1] == channel_byte(cell, 1));
                assert(all[3 * i as int + 2] == channel_byte(cell, 2));
                assert(buf@ =~= old(buf)@ + all.subrange(0, 3 * (i + 1) as int));
            }
            i = i + 1;
        }
        assert(self.led_bytes(count as nat).subrange(0, 3 * count as int) =~= self.led_bytes(
            count as nat,
        ));
    }
}

} // verus!
