use vstd::prelude::*;
use crate::array2d::Array2d;

verus! {

/// Side length, in pixels, of the square blocks an image is rendered in.
pub const BLOCK_SIZE: u32 = 32;

/// A rectangle of the image: its top-left pixel and its extent.
#[derive(Clone, Copy, Debug, PartialEq, Eq, Structural)]
pub struct RenderBlock {
    pub pos_x: u32,
    pub pos_y: u32,
    pub size_x: u32,
    pub size_y: u32,
}

/// Number of blocks needed to cover `res` pixels along one axis.
pub open spec fn blocks_along(res: nat) -> nat {
    if res % 32 == 0 { res / 32 } else { res / 32 + 1 }
}

/// The block in column `bx` and row `by` of the tiling of a `res_x` by `res_y` image.
pub open spec fn block_at(res_x: nat, res_y: nat, bx: nat, by: nat) -> RenderBlock {
    let x = bx * 32;
    let y = by * 32;
    RenderBlock {
        pos_x: x as u32,
        pos_y: y as u32,
        size_x: (if res_x - x < 32 { res_x - x } else { 32 }) as u32,
        size_y: (if res_y - y < 32 { res_y - y } else { 32 }) as u32,
    }
}

/// `blocks` is the tiling of a `res_x` by `res_y` image, column of blocks after
/// column of blocks, each column from top to bottom.
pub open spec fn is_tiling(blocks: Seq<RenderBlock>, res_x: nat, res_y: nat) -> bool {
    let nx = blocks_along(res_x);
    let ny = blocks_along(res_y);
    &&& blocks.len() == nx * ny
    &&& forall|bx: nat, by: nat| bx < nx && by < ny ==>
        blocks[(bx * ny + by) as int] == #[trigger] block_at(res_x, res_y, bx, by)
}

/// Whether pixel `(x, y)` lies inside block `b`.
pub open spec fn block_contains(b: RenderBlock, x: int, y: int) -> bool {
    &&& b.pos_x <= x < b.pos_x + b.size_x
    &&& b.pos_y <= y < b.pos_y + b.size_y
}

proof fn lemma_blocks_along(res: nat)
    ensures
        blocks_along(res) * 32 >= res,
        blocks_along(res) * 32 < res + 32,
        blocks_along(res) <= res,
{
}

/// Cuts a `res_x` by `res_y` image into blocks of at most `BLOCK_SIZE` pixels
/// on a side, column of blocks after column of blocks.
pub fn render_blocks(res_x: u32, res_y: u32) -> (res: Vec<RenderBlock>)
    ensures
        is_tiling(res@, res_x as nat, res_y as nat),
{
    let nx: u32 = if res_x % BLOCK_SIZE == 0 { res_x / BLOCK_SIZE } else { res_x / BLOCK_SIZE + 1 };
    let ny: u32 = if res_y % BLOCK_SIZE == 0 { res_y / BLOCK_SIZE } else { res_y / BLOCK_SIZE + 1 };
    proof {
        lemma_blocks_along(res_x as nat);
        lemma_blocks_along(res_y as nat);
    }
    let ghost gny = ny as nat;
    let mut tasks: Vec<RenderBlock> = Vec::new();
    let mut bx: u32 = 0;
    while bx < nx
        invariant
            nx == blocks_along(res_x as nat),
            ny == blocks_along(res_y as nat),
            gny == ny as nat,
            nx * 32 < res_x + 32,
            ny * 32 < res_y + 32,
            bx <= nx,
            tasks@.len() == bx * gny,
            forall|i: int, j: int| 0 <= i < bx && 0 <= j < gny ==>
                #[trigger] tasks@[i * gny + j] == block_at(res_x as nat, res_y as nat, i as nat, j as nat),
        decreases nx - bx,
    {
        let x: u32 = bx * BLOCK_SIZE;
        let mut by: u32 = 0;
        while by < ny
            invariant
                nx == blocks_along(res_x as nat),
                ny == blocks_along(res_y as nat),
                gny == ny as nat,
                nx * 32 < res_x + 32,
                ny * 32 < res_y + 32,
                bx < nx,
                x == bx * 32,
                by <= ny,
                tasks@.len() == bx * gny + by,
                forall|i: int, j: int| 0 <= i && 0 <= j && ((i < bx && j < gny) || (i == bx && j < by)) ==>
                    #[trigger] tasks@[i * gny + j] == block_at(res_x as nat, res_y as nat, i as nat, j as nat),
            decreases ny - by,
        {
            let y: u32 = by * BLOCK_SIZE;
            let sx: u32 = if res_x - x < BLOCK_SIZE { res_x - x } else { BLOCK_SIZE };
            let sy: u32 = if res_y - y < BLOCK_SIZE { res_y - y } else { BLOCK_SIZE };
            let ghost before = tasks@;
            tasks.push(RenderBlock { pos_x: x, pos_y: y, size_x: sx, size_y: sy });
            proof {
                assert forall|i: int, j: int| 0 <= i && 0 <= j && ((i < bx && j < gny) || (i == bx && j < by + 1)) implies
                    #[trigger] tasks@[i * gny + j] == block_at(res_x as nat, res_y as nat, i as nat, j as nat) by {
                    lemma_row_major_lt(i, j, bx as int, by as int, gny as int);
                    if i == bx && j == by {
                        assert(tasks@[i * gny + j] == tasks@[before.len() as int]);
                    } else {
                        assert(tasks@[i * gny + j] == before[i * gny + j]);
                    }
                }
            }
            by = by + 1;
        }
        proof {
            assert((bx + 1) * gny == bx * gny + gny) by (nonlinear_arith);
        }
        bx = bx + 1;
    }
    tasks
}

/// Row-major positions of earlier cells come first.
proof fn lemma_row_major_lt(i: int, j: int, bx: int, by: int, n: int)
    requires
        0 <= i,
        0 <= j,
        (i < bx && j < n) || (i == bx && j <= by),
        0 <= by < n,
    ensures
        0 <= i * n + j <= bx * n + by,
        (i * n + j == bx * n + by) ==> (i == bx && j == by),
{
    assert(0 <= i * n) by (nonlinear_arith)
        requires 0 <= i, 0 <= n;
    if i < bx {
        assert(i * n + n <= bx * n) by (nonlinear_arith)
            requires i + 1 <= bx, n >= 0;
    }
}

/// Pixel `(x, y)` of a `res_x` by `res_y` image lies in the block in column
/// `x / 32` and row `y / 32` of its tiling, and in no other block of it.
pub proof fn lemma_tiling_covers(res_x: nat, res_y: nat, x: int, y: int)
    requires
        res_x <= u32::MAX,
        res_y <= u32::MAX,
        0 <= x < res_x,
        0 <= y < res_y,
    ensures
        0 <= x / 32 < blocks_along(res_x),
        0 <= y / 32 < blocks_along(res_y),
        block_contains(block_at(res_x, res_y, (x / 32) as nat, (y / 32) as nat), x, y),
        forall|bx: int, by: int|
            0 <= bx < blocks_along(res_x) && 0 <= by < blocks_along(res_y) &&
            #[trigger] block_contains(block_at(res_x, res_y, bx as nat, by as nat), x, y)
            ==> bx == x / 32 && by == y / 32,
{
    lemma_blocks_along(res_x);
    lemma_blocks_along(res_y);
}

/// The blocks of a tiling lie inside the image and are not empty.
pub proof fn lemma_block_inside(res_x: nat, res_y: nat, bx: nat, by: nat)
    requires
        res_x * res_y <= u32::MAX,
        bx < blocks_along(res_x),
        by < blocks_along(res_y),
    ensures
        block_at(res_x, res_y, bx, by).pos_x == bx * 32,
        block_at(res_x, res_y, bx, by).pos_y == by * 32,
        1 <= block_at(res_x, res_y, bx, by).size_x <= 32,
        1 <= block_at(res_x, res_y, bx, by).size_y <= 32,
        block_at(res_x, res_y, bx, by).pos_x + block_at(res_x, res_y, bx, by).size_x <= res_x,
        block_at(res_x, res_y, bx, by).pos_y + block_at(res_x, res_y, bx, by).size_y <= res_y,
{
    lemma_blocks_along(res_x);
    lemma_blocks_along(res_y);
    assert(res_x <= u32::MAX) by (nonlinear_arith)
        requires res_x * res_y <= u32::MAX, res_y >= 1, res_x >= 0;
    assert(res_y <= u32::MAX) by (nonlinear_arith)
        requires res_x * res_y <= u32::MAX, res_x >= 1, res_y >= 0;
}

/// Every pixel of block `(bx, by)` of the tiling of a `res_x` by `res_y` image
/// holds the matching pixel of `img`.
pub open spec fn block_written<T>(im: Seq<T>, img: Array2d<T>, res_x: nat, res_y: nat, bx: nat, by: nat) -> bool {
    let b = block_at(res_x, res_y, bx, by);
    forall|lx: int, ly: int| 0 <= lx < b.size_x && 0 <= ly < b.size_y ==>
        #[trigger] im[(b.pos_y + ly) * res_x + (b.pos_x + lx)] == img.cell(lx, ly)
}

/// Two cells of a grid `w` wide with columns below `w` share a storage position only if they are the same cell.
pub proof fn lemma_index_injective(w: int, x1: int, y1: int, x2: int, y2: int)
    requires
        0 <= x1 < w,
        0 <= x2 < w,
        0 <= y1,
        0 <= y2,
        y1 * w + x1 == y2 * w + x2,
    ensures
        x1 == x2,
        y1 == y2,
{
    if y1 < y2 {
        assert(y1 * w + w <= y2 * w) by (nonlinear_arith)
            requires y1 + 1 <= y2, w >= 0;
    } else if y2 < y1 {
        assert(y2 * w + w <= y1 * w) by (nonlinear_arith)
            requires y2 + 1 <= y1, w >= 0;
    }
}

/// Writing the pixel `(px, py)` of block `(bx, by)` leaves every other block as it was.
proof fn lemma_write_keeps_block<T>(
    before: Seq<T>,
    after: Seq<T>,
    img: Array2d<T>,
    res_x: nat,
    res_y: nat,
    bx: nat,
    by: nat,
    px: int,
    py: int,
    v: T,
)
    requires
        res_x * res_y <= u32::MAX,
        before.len() == res_x * res_y,
        bx < blocks_along(res_x),
        by < blocks_along(res_y),
        block_written(before, img, res_x, res_y, bx, by),
        0 <= px < res_x,
        0 <= py < res_y,
        !block_contains(block_at(res_x, res_y, bx, by), px, py),
        after == before.update(py * res_x + px, v),
    ensures
        block_written(after, img, res_x, res_y, bx, by),
{
    let b = block_at(res_x, res_y, bx, by);
    lemma_block_inside(res_x, res_y, bx, by);
    assert forall|lx: int, ly: int| 0 <= lx < b.size_x && 0 <= ly < b.size_y implies
        #[trigger] after[(b.pos_y + ly) * res_x + (b.pos_x + lx)] == img.cell(lx, ly) by {
        let qx = b.pos_x + lx;
        let qy = b.pos_y + ly;
        lemma_index_in_grid(res_x as int, res_y as int, qx, qy);
        lemma_index_in_grid(res_x as int, res_y as int, px, py);
        if qy * res_x + qx == py * res_x + px {
            lemma_index_injective(res_x as int, qx, qy, px, py);
            assert(block_contains(b, px, py));
        }
        assert(after[qy * res_x + qx] == before[qy * res_x + qx]);
    }
}

/// A cell inside a `w` by `h` grid has its storage position below `w * h`.
pub proof fn lemma_index_in_grid(w: int, h: int, x: int, y: int)
    requires
        0 <= x < w,
        0 <= y < h,
    ensures
        0 <= y * w + x < w * h,
{
    assert(0 <= y * w + x < w * h) by (nonlinear_arith)
        requires 0 <= x < w, 0 <= y < h;
}

/// Block `(bx, by)` of the assembled image holds the pixels of its own block image.
pub open spec fn block_done<T>(im: Seq<T>, images: Seq<Array2d<T>>, res_x: nat, res_y: nat, bx: nat, by: nat) -> bool {
    block_written(im, images[(bx * blocks_along(res_y) + by) as int], res_x, res_y, bx, by)
}

/// Every block that comes before block `(bx, by)` in the tiling order is done.
pub open spec fn blocks_done_before<T>(im: Seq<T>, images: Seq<Array2d<T>>, res_x: nat, res_y: nat, bx: nat, by: nat) -> bool {
    forall|i: nat, j: nat| i < blocks_along(res_x) && j < blocks_along(res_y) && (i < bx || (i == bx && j < by)) ==>
        #[trigger] block_done(im, images, res_x, res_y, i, j)
}

/// The pixels of block `(bx, by)` up to local pixel `(lx, ly)`, column after column, are written.
pub open spec fn block_partial<T>(im: Seq<T>, img: Array2d<T>, res_x: nat, res_y: nat, bx: nat, by: nat, lx: int, ly: int) -> bool {
    let b = block_at(res_x, res_y, bx, by);
    forall|i: int, j: int| 0 <= i < b.size_x && 0 <= j < b.size_y && (i < lx || (i == lx && j < ly)) ==>
        #[trigger] im[(b.pos_y + j) * res_x + (b.pos_x + i)] == img.cell(i, j)
}

/// Writing local pixel `(lx, ly)` of block `(bx, by)` keeps what is done and extends the block's progress.
proof fn lemma_write_step<T>(
    before: Seq<T>,
    after: Seq<T>,
    images: Seq<Array2d<T>>,
    res_x: nat,
    res_y: nat,
    bx: nat,
    by: nat,
    lx: int,
    ly: int,
)
    requires
        res_x * res_y <= u32::MAX,
        before.len() == res_x * res_y,
        bx < blocks_along(res_x),
        by < blocks_along(res_y),
        0 <= lx < block_at(res_x, res_y, bx, by).size_x,
        0 <= ly < block_at(res_x, res_y, bx, by).size_y,
        blocks_done_before(before, images, res_x, res_y, bx, by),
        block_partial(before, images[(bx * blocks_along(res_y) + by) as int], res_x, res_y, bx, by, lx, ly),
        after == before.update(
            (block_at(res_x, res_y, bx, by).pos_y + ly) * res_x + (block_at(res_x, res_y, bx, by).pos_x + lx),
            images[(bx * blocks_along(res_y) + by) as int].cell(lx, ly),
        ),
    ensures
        blocks_done_before(after, images, res_x, res_y, bx, by),
        block_partial(after, images[(bx * blocks_along(res_y) + by) as int], res_x, res_y, bx, by, lx, ly + 1),
{
    let b = block_at(res_x, res_y, bx, by);
    let img = images[(bx * blocks_along(res_y) + by) as int];
    let px = b.pos_x + lx;
    let py = b.pos_y + ly;
    lemma_block_inside(res_x, res_y, bx, by);
    lemma_index_in_grid(res_x as int, res_y as int, px, py);
    assert(res_x <= u32::MAX && res_y <= u32::MAX) by (nonlinear_arith)
        requires res_x * res_y <= u32::MAX, px < res_x, py < res_y, 0 <= px, 0 <= py;
    lemma_tiling_covers(res_x, res_y, px, py);
    assert forall|i: nat, j: nat| i < blocks_along(res_x) && j < blocks_along(res_y) && (i < bx || (i == bx && j < by)) implies
        #[trigger] block_done(after, images, res_x, res_y, i, j) by {
        assert(block_done(before, images, res_x, res_y, i, j));
        if block_contains(block_at(res_x, res_y, i, j), px, py) {
            assert(i == bx && j == by);
        }
        lemma_write_keeps_block(before, after, images[(i * blocks_along(res_y) + j) as int], res_x, res_y, i, j, px, py,
            img.cell(lx, ly));
    }
    assert forall|i: int, j: int| 0 <= i < b.size_x && 0 <= j < b.size_y && (i < lx || (i == lx && j < ly + 1)) implies
        #[trigger] after[(b.pos_y + j) * res_x + (b.pos_x + i)] == img.cell(i, j) by {
        let qx = b.pos_x + i;
        let qy = b.pos_y + j;
        lemma_index_in_grid(res_x as int, res_y as int, qx, qy);
        if i != lx || j != ly {
            if qy * res_x + qx == py * res_x + px {
                lemma_index_injective(res_x as int, qx, qy, px, py);
            }
            assert(after[qy * res_x + qx] == before[qy * res_x + qx]);
        }
    }
}

/// Places every block image at its block's position in a `res_x` by `res_y`
/// image first filled with `fill`.
pub fn assemble_blocks<T: Copy>(
    res_x: u32,
    res_y: u32,
    blocks: &Vec<RenderBlock>,
    images: &Vec<Array2d<T>>,
    fill: T,
) -> (im: Array2d<T>)
    requires
        res_x * res_y <= u32::MAX,
        is_tiling(blocks@, res_x as nat, res_y as nat),
        images@.len() == blocks@.len(),
        forall|k: int| 0 <= k < images@.len() ==> {
            &&& (#[trigger] images@[k]).inv()
            &&& images@[k].spec_width() == blocks@[k].size_x
            &&& images@[k].spec_height() == blocks@[k].size_y
        },
    ensures
        im.inv(),
        im.spec_width() == res_x,
        im.spec_height() == res_y,
        forall|bx: nat, by: nat| bx < blocks_along(res_x as nat) && by < blocks_along(res_y as nat) ==>
            #[trigger] block_done(im.cells(), images@, res_x as nat, res_y as nat, bx, by),
        forall|x: int, y: int| 0 <= x < res_x && 0 <= y < res_y ==>
            #[trigger] im.cell(x, y) == images@[(x / 32) * blocks_along(res_y as nat) + y / 32].cell(x % 32, y % 32),
{
    let nx: u32 = if res_x % BLOCK_SIZE == 0 { res_x / BLOCK_SIZE } else { res_x / BLOCK_SIZE + 1 };
    let ny: u32 = if res_y % BLOCK_SIZE == 0 { res_y / BLOCK_SIZE } else { res_y / BLOCK_SIZE + 1 };
    let ghost gx = res_x as nat;
    let ghost gy = res_y as nat;
    let n_img = images.len();
    let mut im = Array2d::with_size(res_x, res_y, fill);
    let mut bx: u32 = 0;
    let mut k: usize = 0;
    while bx < nx
        invariant
            nx == blocks_along(gx),
            ny == blocks_along(gy),
            gx == res_x,
            gy == res_y,
            res_x * res_y <= u32::MAX,
            is_tiling(blocks@, gx, gy),
            images@.len() == blocks@.len(),
            forall|k: int| 0 <= k < images@.len() ==> {
                &&& (#[trigger] images@[k]).inv()
                &&& images@[k].spec_width() == blocks@[k].size_x
                &&& images@[k].spec_height() == blocks@[k].size_y
            },
            im.inv(),
            im.spec_width() == res_x,
            im.spec_height() == res_y,
            bx <= nx,
            k == bx * ny,
            n_img == images@.len(),
            blocks_done_before(im.cells(), images@, gx, gy, bx as nat, 0),
        decreases nx - bx,
    {
        let mut by: u32 = 0;
        while by < ny
            invariant
                nx == blocks_along(gx),
                ny == blocks_along(gy),
                gx == res_x,
                gy == res_y,
                res_x * res_y <= u32::MAX,
                is_tiling(blocks@, gx, gy),
                images@.len() == blocks@.len(),
                forall|k: int| 0 <= k < images@.len() ==> {
                    &&& (#[trigger] images@[k]).inv()
                    &&& images@[k].spec_width() == blocks@[k].size_x
                    &&& images@[k].spec_height() == blocks@[k].size_y
                },
                im.inv(),
                im.spec_width() == res_x,
                im.spec_height() == res_y,
                bx < nx,
                by <= ny,
                k == bx * ny + by,
                n_img == images@.len(),
                blocks_done_before(im.cells(), images@, gx, gy, bx as nat, by as nat),
            decreases ny - by,
        {
            proof {
                lemma_block_inside(gx, gy, bx as nat, by as nat);
                assert(bx * ny + by < nx * ny) by (nonlinear_arith)
                    requires bx < nx, by < ny;
                assert(blocks@[bx * ny + by] == block_at(gx, gy, bx as nat, by as nat));
            }
            let b = blocks[k];
            let img = &images[k];
            let mut lx: u32 = 0;
            while lx < b.size_x
                invariant
                    nx == blocks_along(gx),
                    ny == blocks_along(gy),
                    gx == res_x,
                    gy == res_y,
                    res_x * res_y <= u32::MAX,
                    im.inv(),
                    im.spec_width() == res_x,
                    im.spec_height() == res_y,
                    bx < nx,
                    by < ny,
                    k == bx * ny + by,
                    k < n_img,
                    n_img == images@.len(),
                    b == block_at(gx, gy, bx as nat, by as nat),
                    *img == images@[k as int],
                    img.inv(),
                    img.spec_width() == b.size_x,
                    img.spec_height() == b.size_y,
                    b.pos_x + b.size_x <= res_x,
                    b.pos_y + b.size_y <= res_y,
                    lx <= b.size_x,
                    blocks_done_before(im.cells(), images@, gx, gy, bx as nat, by as nat),
                    block_partial(im.cells(), *img, gx, gy, bx as nat, by as nat, lx as int, 0),
                decreases b.size_x - lx,
            {
                let mut ly: u32 = 0;
                while ly < b.size_y
                    invariant
                        nx == blocks_along(gx),
                        ny == blocks_along(gy),
                        gx == res_x,
                        gy == res_y,
                        res_x * res_y <= u32::MAX,
                        im.inv(),
                        im.spec_width() == res_x,
                        im.spec_height() == res_y,
                        bx < nx,
                        by < ny,
                        k == bx * ny + by,
                        k < n_img,
                        n_img == images@.len(),
                        b == block_at(gx, gy, bx as nat, by as nat),
                        *img == images@[k as int],
                        img.inv(),
                        img.spec_width() == b.size_x,
                        img.spec_height() == b.size_y,
                        b.pos_x + b.size_x <= res_x,
                        b.pos_y + b.size_y <= res_y,
                        lx < b.size_x,
                        ly <= b.size_y,
                        blocks_done_before(im.cells(), images@, gx, gy, bx as nat, by as nat),
                        block_partial(im.cells(), *img, gx, gy, bx as nat, by as nat, lx as int, ly as int),
                    decreases b.size_y - ly,
                {
                    let x: u32 = b.pos_x + lx;
                    let y: u32 = b.pos_y + ly;
                    proof {
                        lemma_index_in_grid(img.spec_width() as int, img.spec_height() as int, lx as int, ly as int);
                        lemma_index_in_grid(res_x as int, res_y as int, x as int, y as int);
                    }
                    let ghost before = im.cells();
                    let v: T = *img.at(lx, ly);
                    *im.at_mut(x, y) = v;
                    proof {
                        lemma_write_step(before, im.cells(), images@, gx, gy, bx as nat, by as nat, lx as int, ly as int);
                    }
                    ly = ly + 1;
                }
                lx = lx + 1;
            }
            proof {
                assert(block_done(im.cells(), images@, gx, gy, bx as nat, by as nat));
            }
            k = k + 1;
            by = by + 1;
        }
        proof {
            assert(bx * ny + ny == (bx + 1) * ny) by (nonlinear_arith);
        }
        bx = bx + 1;
    }
    proof {
        assert forall|x: int, y: int| 0 <= x < res_x && 0 <= y < res_y implies
            #[trigger] im.cell(x, y) == images@[(x / 32) * blocks_along(gy) + y / 32].cell(x % 32, y % 32) by {
            lemma_pixel_of_block(im.cells(), images@, gx, gy, x, y);
        }
    }
    im
}

/// Once every block is done, each pixel holds the matching pixel of the block that covers it.
proof fn lemma_pixel_of_block<T>(im: Seq<T>, images: Seq<Array2d<T>>, res_x: nat, res_y: nat, x: int, y: int)
    requires
        res_x <= u32::MAX,
        res_y <= u32::MAX,
        0 <= x < res_x,
        0 <= y < res_y,
        forall|bx: nat, by: nat| bx < blocks_along(res_x) && by < blocks_along(res_y) ==>
            #[trigger] block_done(im, images, res_x, res_y, bx, by),
    ensures
        im[y * res_x + x] == images[(x / 32) * blocks_along(res_y) + y / 32].cell(x % 32, y % 32),
{
    lemma_tiling_covers(res_x, res_y, x, y);
    let bx = (x / 32) as nat;
    let by = (y / 32) as nat;
    assert(block_done(im, images, res_x, res_y, bx, by));
    let b = block_at(res_x, res_y, bx, by);
    let lx = x % 32;
    let ly = y % 32;
    assert(b.pos_x + lx == x && b.pos_y + ly == y);
    assert(im[(b.pos_y + ly) * res_x + (b.pos_x + lx)] == images[(bx * blocks_along(res_y) + by) as int].cell(lx, ly));
}

} // verus!
