use bevy_pixel_map::arena::{Arena, Entity};
use bevy_pixel_map::chunk::{chunk_deleter, chunk_texture_update, Chunk};
use bevy_pixel_map::tile::{Color, Tile};
use bevy_pixel_map::util::IVec2;

fn white() -> Color {
    Color::rgba_u8(255, 255, 255, 255)
}

fn green() -> Color {
    Color::rgba_u8(0, 255, 0, 255)
}

fn marked_tile() -> Tile {
    let mut tile = Tile::from_color(white());
    tile.set_pixel(IVec2::new(1, 5), green());
    tile
}

/// Index of the first byte of pixel `(px, py)` of the slot at `(tx, ty)`.
fn byte_at(tx: usize, ty: usize, px: usize, py: usize) -> usize {
    (((15 - ty) * 8 + py) * 128 + tx * 8 + px) * 4
}

/// Whether byte `b` lies in the block of the slot at `(tx, ty)`.
fn in_block(b: usize, tx: usize, ty: usize) -> bool {
    let row = b / 512;
    let col = (b % 512) / 4;
    col / 8 == tx && row / 8 == 15 - ty
}

#[test]
fn new_chunk_is_empty_and_transparent() {
    let chunk = Chunk::new();
    assert_eq!(chunk.image_data().len(), 16 * 16 * 8 * 8 * 4);
    assert!(chunk.image_data().iter().all(|b| *b == 0));
    assert!(chunk.dirty_tiles().is_empty());
    for x in 0..16 {
        for y in 0..16 {
            assert_eq!(chunk.get_tile(IVec2::new(x, y)), None);
        }
    }
}

#[test]
fn get_tile_outside_the_chunk_is_none() {
    let mut arena = Arena::new();
    let mut chunk = Chunk::new();
    chunk.set_tile(IVec2::new(0, 0), marked_tile(), None, &mut arena);
    assert_eq!(chunk.get_tile(IVec2::new(-1, 0)), None);
    assert_eq!(chunk.get_tile(IVec2::new(0, -1)), None);
    assert_eq!(chunk.get_tile(IVec2::new(16, 0)), None);
    assert_eq!(chunk.get_tile(IVec2::new(0, 16)), None);
    assert_eq!(chunk.get_tile(IVec2::new(0, 0)), Some(Entity { id: 0 }));
}

#[test]
fn set_tile_creates_and_installs() {
    let mut arena = Arena::new();
    let mut chunk = Chunk::new();
    chunk.set_tile(IVec2::new(3, 2), marked_tile(), None, &mut arena);
    assert_eq!(chunk.get_tile(IVec2::new(3, 2)), Some(Entity { id: 0 }));
    assert_eq!(chunk.get_tile(IVec2::new(2, 3)), None);
    assert_eq!(arena.get_tile(Entity { id: 0 }), Some(&marked_tile()));
    assert_eq!(chunk.dirty_tiles(), &vec![IVec2::new(3, 2)]);
}

#[test]
fn set_tile_outside_the_chunk_creates_nothing() {
    let mut arena = Arena::new();
    let mut chunk = Chunk::new();
    chunk.set_tile(IVec2::new(16, 2), marked_tile(), None, &mut arena);
    chunk.set_tile(IVec2::new(2, -1), marked_tile(), None, &mut arena);
    assert_eq!(arena.len(), 0);
    assert!(chunk.dirty_tiles().is_empty());
}

#[test]
fn set_tile_tombstones_the_previous_occupant() {
    let mut arena = Arena::new();
    let mut chunk = Chunk::new();
    chunk.set_tile(IVec2::new(4, 4), marked_tile(), None, &mut arena);
    chunk.set_tile(IVec2::new(4, 4), Tile::from_color(green()), None, &mut arena);
    assert_eq!(chunk.get_tile(IVec2::new(4, 4)), Some(Entity { id: 1 }));
    assert!(arena.is_deleting(Entity { id: 0 }));
    assert!(arena.contains(Entity { id: 0 }));
    assert!(!arena.is_deleting(Entity { id: 1 }));
    assert_eq!(chunk.dirty_tiles(), &vec![IVec2::new(4, 4)]);
}

#[test]
fn set_tile_entity_installs_an_existing_tile() {
    let mut arena = Arena::new();
    let mut chunk = Chunk::new();
    let first = arena.spawn_tile(marked_tile(), None);
    let second = arena.spawn_tile(Tile::from_color(green()), None);
    chunk.set_tile_entity(IVec2::new(15, 0), first, &mut arena);
    assert_eq!(chunk.get_tile(IVec2::new(15, 0)), Some(first));
    chunk.set_tile_entity(IVec2::new(15, 0), second, &mut arena);
    assert_eq!(chunk.get_tile(IVec2::new(15, 0)), Some(second));
    assert!(arena.is_deleting(first));
    assert!(!arena.is_deleting(second));
    chunk.set_tile_entity(IVec2::new(15, 16), first, &mut arena);
    chunk.set_tile_entity(IVec2::new(-1, 0), first, &mut arena);
    assert_eq!(chunk.dirty_tiles(), &vec![IVec2::new(15, 0)]);
}

#[test]
fn delete_tile_tombstones_and_empties_the_slot() {
    let mut arena = Arena::new();
    let mut chunk = Chunk::new();
    chunk.set_tile(IVec2::new(1, 1), marked_tile(), None, &mut arena);
    chunk.update_texture(&arena);
    chunk.delete_tile(IVec2::new(1, 1), &mut arena);
    assert_eq!(chunk.get_tile(IVec2::new(1, 1)), None);
    assert!(arena.is_deleting(Entity { id: 0 }));
    assert!(arena.contains(Entity { id: 0 }));
    assert_eq!(chunk.dirty_tiles(), &vec![IVec2::new(1, 1)]);
}

#[test]
fn delete_tile_on_an_empty_slot_changes_nothing() {
    let mut arena = Arena::new();
    let mut chunk = Chunk::new();
    chunk.delete_tile(IVec2::new(1, 1), &mut arena);
    chunk.delete_tile(IVec2::new(-1, 40), &mut arena);
    chunk.delete_unmarked(IVec2::new(1, 1), &mut arena);
    assert!(chunk.dirty_tiles().is_empty());
    assert_eq!(arena.len(), 0);
}

#[test]
fn delete_unmarked_destroys_at_once() {
    let mut arena = Arena::new();
    let mut chunk = Chunk::new();
    chunk.set_tile(IVec2::new(1, 1), marked_tile(), None, &mut arena);
    chunk.delete_unmarked(IVec2::new(1, 1), &mut arena);
    assert_eq!(chunk.get_tile(IVec2::new(1, 1)), None);
    assert!(!arena.contains(Entity { id: 0 }));
    assert_eq!(chunk_deleter(&mut arena), 0);
}

#[test]
fn update_tile_twice_lists_the_slot_once() {
    let mut chunk = Chunk::new();
    chunk.update_tile(IVec2::new(7, 9));
    chunk.update_tile(IVec2::new(7, 9));
    assert_eq!(chunk.dirty_tiles(), &vec![IVec2::new(7, 9)]);
    chunk.update_tile(IVec2::new(9, 7));
    chunk.update_tile(IVec2::new(7, 9));
    assert_eq!(chunk.dirty_tiles(), &vec![IVec2::new(7, 9), IVec2::new(9, 7)]);
}

#[test]
fn update_tile_outside_the_chunk_is_ignored() {
    let mut chunk = Chunk::new();
    chunk.update_tile(IVec2::new(16, 0));
    chunk.update_tile(IVec2::new(0, 16));
    chunk.update_tile(IVec2::new(-1, 3));
    chunk.update_tile(IVec2::new(3, -1));
    assert!(chunk.dirty_tiles().is_empty());
}

#[test]
fn update_texture_paints_one_block_with_rows_flipped() {
    let mut arena = Arena::new();
    let mut chunk = Chunk::new();
    chunk.set_tile(IVec2::new(3, 2), marked_tile(), None, &mut arena);
    assert!(chunk.update_texture(&arena));
    assert!(chunk.dirty_tiles().is_empty());
    let data = chunk.image_data();
    for b in 0..data.len() {
        if !in_block(b, 3, 2) {
            assert_eq!(data[b], 0);
        }
    }
    for px in 0..8 {
        for py in 0..8 {
            let at = byte_at(3, 2, px, py);
            let expected = if px == 1 && py == 5 { [0, 255, 0, 255] } else { [255, 255, 255, 255] };
            assert_eq!(&data[at..at + 4], &expected);
        }
    }
    // Slot (3, 2) is the third row of tiles from the bottom: texture rows 104 to 111.
    assert_eq!(byte_at(3, 2, 0, 0), (104 * 128 + 24) * 4);
    assert_eq!(byte_at(3, 2, 1, 5), (109 * 128 + 25) * 4);
    assert_eq!(&data[55908..55912], &[0, 255, 0, 255]);
}

#[test]
fn update_texture_leaves_other_blocks_alone() {
    let mut arena = Arena::new();
    let mut chunk = Chunk::new();
    chunk.set_tile(IVec2::new(0, 0), Tile::from_color(green()), None, &mut arena);
    chunk.update_texture(&arena);
    let before = chunk.image_data().clone();
    chunk.set_tile(IVec2::new(3, 2), marked_tile(), None, &mut arena);
    assert!(chunk.update_texture(&arena));
    let after = chunk.image_data();
    for b in 0..after.len() {
        if !in_block(b, 3, 2) {
            assert_eq!(after[b], before[b]);
        }
    }
    let corner = byte_at(0, 0, 0, 0);
    assert_eq!(corner, 120 * 128 * 4);
    assert_eq!(&after[corner..corner + 4], &[0, 255, 0, 255]);
}

#[test]
fn update_texture_clears_the_block_of_an_empty_slot() {
    let mut arena = Arena::new();
    let mut chunk = Chunk::new();
    chunk.set_tile(IVec2::new(0, 0), Tile::from_color(green()), None, &mut arena);
    chunk.set_tile(IVec2::new(15, 15), marked_tile(), None, &mut arena);
    chunk.update_texture(&arena);
    let before = chunk.image_data().clone();
    chunk.delete_tile(IVec2::new(15, 15), &mut arena);
    assert!(chunk.update_texture(&arena));
    let after = chunk.image_data();
    for b in 0..after.len() {
        if in_block(b, 15, 15) {
            assert_eq!(after[b], 0);
        } else {
            assert_eq!(after[b], before[b]);
        }
    }
    assert_eq!(byte_at(15, 15, 0, 0), 120 * 4);
}

#[test]
fn update_texture_without_dirty_slots_publishes_nothing() {
    let arena = Arena::new();
    let mut chunk = Chunk::new();
    assert!(!chunk.update_texture(&arena));
    assert!(chunk.image_data().iter().all(|b| *b == 0));
}

#[test]
fn update_texture_skips_an_occupant_that_is_gone() {
    let mut arena = Arena::new();
    let mut chunk = Chunk::new();
    chunk.set_tile(IVec2::new(2, 2), marked_tile(), None, &mut arena);
    chunk.update_texture(&arena);
    let before = chunk.image_data().clone();
    arena.despawn(Entity { id: 0 });
    chunk.update_tile(IVec2::new(2, 2));
    assert!(chunk.update_texture(&arena));
    assert_eq!(chunk.image_data(), &before);
    assert!(chunk.dirty_tiles().is_empty());
}

#[test]
fn update_texture_follows_pixel_edits() {
    let mut arena = Arena::new();
    let mut chunk = Chunk::new();
    chunk.set_tile(IVec2::new(5, 6), Tile::from_color(white()), None, &mut arena);
    chunk.update_texture(&arena);
    arena.set_tile_pixel(Entity { id: 0 }, IVec2::new(7, 0), green());
    chunk.update_tile(IVec2::new(5, 6));
    chunk.update_texture(&arena);
    let at = byte_at(5, 6, 7, 0);
    assert_eq!(&chunk.image_data()[at..at + 4], &[0, 255, 0, 255]);
    let next = byte_at(5, 6, 6, 0);
    assert_eq!(&chunk.image_data()[next..next + 4], &[255, 255, 255, 255]);
}

#[test]
fn chunk_texture_update_reports_repainted_chunks() {
    let mut arena = Arena::new();
    let mut chunks = vec![Chunk::new(), Chunk::new(), Chunk::new()];
    chunks[0].set_tile(IVec2::new(0, 0), marked_tile(), None, &mut arena);
    chunks[2].set_tile(IVec2::new(1, 0), marked_tile(), None, &mut arena);
    assert_eq!(chunk_texture_update(&mut chunks, &arena), vec![0, 2]);
    assert!(chunks.iter().all(|chunk| chunk.dirty_tiles().is_empty()));
    assert!(chunks[1].image_data().iter().all(|b| *b == 0));
    let at = byte_at(1, 0, 1, 5);
    assert_eq!(&chunks[2].image_data()[at..at + 4], &[0, 255, 0, 255]);
    assert_eq!(chunk_texture_update(&mut chunks, &arena), Vec::<usize>::new());
}

#[test]
fn chunk_deleter_destroys_tombstoned_tiles_only() {
    let mut arena = Arena::new();
    let keep = arena.spawn_tile(marked_tile(), None);
    let drop_a = arena.spawn_tile(marked_tile(), None);
    let empty = arena.spawn_empty();
    let drop_b = arena.spawn_tile(marked_tile(), None);
    arena.mark_deleting(drop_a);
    arena.mark_deleting(drop_b);
    assert_eq!(chunk_deleter(&mut arena), 2);
    assert!(arena.contains(keep));
    assert!(arena.contains(empty));
    assert!(!arena.contains(drop_a));
    assert!(!arena.contains(drop_b));
    assert_eq!(chunk_deleter(&mut arena), 0);
    assert_eq!(arena.len(), 4);
}
