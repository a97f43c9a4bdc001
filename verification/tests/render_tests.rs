use raytracer::array2d::Array2d;
use raytracer::render::{assemble_blocks, render_blocks, RenderBlock, BLOCK_SIZE};

#[test]
fn blocks_of_a_70_by_40_image() {
    let blocks = render_blocks(70, 40);
    assert_eq!(BLOCK_SIZE, 32);
    assert_eq!(blocks.len(), 6);
    let expected = [
        RenderBlock { pos_x: 0, pos_y: 0, size_x: 32, size_y: 32 },
        RenderBlock { pos_x: 0, pos_y: 32, size_x: 32, size_y: 8 },
        RenderBlock { pos_x: 32, pos_y: 0, size_x: 32, size_y: 32 },
        RenderBlock { pos_x: 32, pos_y: 32, size_x: 32, size_y: 8 },
        RenderBlock { pos_x: 64, pos_y: 0, size_x: 6, size_y: 32 },
        RenderBlock { pos_x: 64, pos_y: 32, size_x: 6, size_y: 8 },
    ];
    assert_eq!(blocks.as_slice(), &expected);
}

#[test]
fn blocks_of_an_exact_multiple() {
    let blocks = render_blocks(64, 32);
    assert_eq!(blocks.len(), 2);
    assert!(blocks.iter().all(|b| b.size_x == 32 && b.size_y == 32));
}

#[test]
fn blocks_of_an_empty_image() {
    assert!(render_blocks(0, 10).is_empty());
    assert!(render_blocks(10, 0).is_empty());
}

#[test]
fn blocks_cover_each_pixel_once() {
    let (w, h) = (70u32, 40u32);
    let blocks = render_blocks(w, h);
    for x in 0..w {
        for y in 0..h {
            let n = blocks
                .iter()
                .filter(|b| b.pos_x <= x && x < b.pos_x + b.size_x && b.pos_y <= y && y < b.pos_y + b.size_y)
                .count();
            assert_eq!(n, 1);
        }
    }
}

#[test]
fn assembled_image_holds_block_pixels() {
    let (w, h) = (70u32, 40u32);
    let blocks = render_blocks(w, h);
    let images: Vec<Array2d<u32>> = blocks
        .iter()
        .map(|b| {
            let mut cells = Vec::new();
            for ly in 0..b.size_y {
                for lx in 0..b.size_x {
                    cells.push((b.pos_x + lx) * 1000 + (b.pos_y + ly));
                }
            }
            Array2d::from_cells(b.size_x, b.size_y, cells)
        })
        .collect();
    let im = assemble_blocks(w, h, &blocks, &images, 0u32);
    assert_eq!(im.width(), w);
    assert_eq!(im.height(), h);
    for x in 0..w {
        for y in 0..h {
            assert_eq!(*im.at(x, y), x * 1000 + y);
        }
    }
}
