use bevy_pixel_map::arena::{Arena, Entity};
use bevy_pixel_map::multi_tile::{multi_tile_delete, MultiTile, MultiTileMarker};
use bevy_pixel_map::plugin::PixelPlugin;
use bevy_pixel_map::tile::{Color, Image, Tile};
use bevy_pixel_map::tilemap::{tilemap_event_system, Tilemap};
use bevy_pixel_map::util::IVec2;

fn red() -> Color {
    Color::rgba_u8(255, 0, 0, 255)
}

fn picture(width: usize, height: usize) -> Image {
    let mut data = Vec::new();
    for y in 0..height {
        for x in 0..width {
            data.push(x as u8);
            data.push(y as u8);
            data.push(0);
            data.push(255);
        }
    }
    Image::new(width, height, data).unwrap()
}

#[test]
fn from_color_counts_cells_per_axis() {
    let composite = MultiTile::from_color(red(), 24, 16);
    assert_eq!(composite.size, IVec2::new(3, 2));
    assert_eq!(composite.pos, IVec2::new(0, 0));
    assert!(composite.entities.is_empty());
    assert_eq!(composite.pixels.len(), 16);
    assert!(composite.pixels.iter().all(|row| row == &vec![red(); 24]));
}

#[test]
fn from_color_drops_partial_cells() {
    assert_eq!(MultiTile::from_color(red(), 15, 9).size, IVec2::new(1, 1));
    assert_eq!(MultiTile::from_color(red(), 7, 64).size, IVec2::new(0, 8));
    assert_eq!(MultiTile::from_color(red(), 0, 0).size, IVec2::new(0, 0));
}

#[test]
fn from_image_reads_every_pixel() {
    let composite = MultiTile::from_image(&picture(16, 24));
    assert_eq!(composite.size, IVec2::new(2, 3));
    assert_eq!(composite.pixels.len(), 24);
    for y in 0..24 {
        assert_eq!(composite.pixels[y].len(), 16);
        for x in 0..16 {
            assert_eq!(composite.pixels[y][x], Color::rgba_u8(x as u8, y as u8, 0, 255));
        }
    }
}

#[test]
fn get_tile_cuts_out_a_block() {
    let composite = MultiTile::from_image(&picture(16, 24));
    let tile = composite.get_tile(IVec2::new(1, 2)).unwrap();
    for x in 0..8 {
        for y in 0..8 {
            assert_eq!(
                tile.get_pixel(IVec2::new(x, y)),
                Some(Color::rgba_u8(8 + x as u8, 16 + y as u8, 0, 255))
            );
        }
    }
}

#[test]
fn get_tile_outside_the_composite_is_none() {
    let composite = MultiTile::from_image(&picture(16, 24));
    assert!(composite.get_tile(IVec2::new(0, 0)).is_some());
    assert!(composite.get_tile(IVec2::new(1, 2)).is_some());
    assert!(composite.get_tile(IVec2::new(2, 0)).is_none());
    assert!(composite.get_tile(IVec2::new(0, 3)).is_none());
    assert!(composite.get_tile(IVec2::new(-1, 0)).is_none());
    assert!(composite.get_tile(IVec2::new(0, -1)).is_none());
}

#[test]
fn place_creates_one_tile_per_cell() {
    let mut arena = Arena::new();
    let mut tilemap = Tilemap::new();
    let composite = MultiTile::from_image(&picture(16, 16));
    let entity = composite.place(IVec2::new(0, 0), &mut tilemap, &mut arena);
    assert_eq!(entity, Entity { id: 0 });
    assert_eq!(arena.len(), 5);
    let stored = arena.get_multi_tile(entity).unwrap();
    assert_eq!(stored.pos, IVec2::new(0, 0));
    assert_eq!(stored.size, IVec2::new(2, 2));
    assert_eq!(
        stored.entities,
        vec![Entity { id: 1 }, Entity { id: 2 }, Entity { id: 3 }, Entity { id: 4 }]
    );
    for id in 1..5 {
        assert_eq!(arena.marker(Entity { id }), Some(MultiTileMarker { entity }));
    }
    tilemap_event_system(&mut tilemap, &mut arena);
    assert_eq!(tilemap.get_tile(IVec2::new(0, 0)), Some(Entity { id: 1 }));
    assert_eq!(tilemap.get_tile(IVec2::new(0, 1)), Some(Entity { id: 2 }));
    assert_eq!(tilemap.get_tile(IVec2::new(1, 0)), Some(Entity { id: 3 }));
    assert_eq!(tilemap.get_tile(IVec2::new(1, 1)), Some(Entity { id: 4 }));
    assert_eq!(tilemap.get_tile(IVec2::new(2, 0)), None);
    assert_eq!(tilemap.chunk_count(), 1);
}

#[test]
fn place_flips_the_rows_of_the_picture() {
    let mut arena = Arena::new();
    let mut tilemap = Tilemap::new();
    let source = MultiTile::from_image(&picture(16, 16));
    let top_left = source.get_tile(IVec2::new(0, 0)).unwrap();
    let bottom_left = source.get_tile(IVec2::new(0, 1)).unwrap();
    let top_right = source.get_tile(IVec2::new(1, 0)).unwrap();
    source.place(IVec2::new(15, -1), &mut tilemap, &mut arena);
    tilemap_event_system(&mut tilemap, &mut arena);
    let lower = tilemap.get_tile(IVec2::new(15, -1)).unwrap();
    let upper = tilemap.get_tile(IVec2::new(15, 0)).unwrap();
    let upper_right = tilemap.get_tile(IVec2::new(16, 0)).unwrap();
    assert_eq!(arena.get_tile(lower), Some(&bottom_left));
    assert_eq!(arena.get_tile(upper), Some(&top_left));
    assert_eq!(arena.get_tile(upper_right), Some(&top_right));
    // The four cells lie in four chunks.
    assert_eq!(tilemap.chunk_count(), 4);
}

#[test]
fn place_without_cells_creates_only_the_composite() {
    let mut arena = Arena::new();
    let mut tilemap = Tilemap::new();
    let entity = MultiTile::from_color(red(), 7, 7).place(
        IVec2::new(i32::MAX, i32::MAX),
        &mut tilemap,
        &mut arena,
    );
    assert_eq!(arena.len(), 1);
    assert_eq!(tilemap.pending(), 0);
    assert_eq!(arena.get_multi_tile(entity).unwrap().pos, IVec2::new(i32::MAX, i32::MAX));
}

#[test]
fn tombstoning_one_cell_removes_the_whole_composite() {
    let plugin = PixelPlugin;
    let mut arena = Arena::new();
    let mut tilemap = Tilemap::new();
    let composite = MultiTile::from_color(red(), 16, 16).place(
        IVec2::new(0, 0),
        &mut tilemap,
        &mut arena,
    );
    plugin.tick(&mut tilemap, &mut arena);
    let cells = [IVec2::new(0, 0), IVec2::new(1, 0), IVec2::new(0, 1), IVec2::new(1, 1)];
    let tiles: Vec<Entity> = cells.iter().map(|c| tilemap.get_tile(*c).unwrap()).collect();
    assert_eq!(tiles.len(), 4);

    tilemap.delete_tile(IVec2::new(1, 0));
    plugin.tick(&mut tilemap, &mut arena);
    assert!(!arena.contains(composite));
    assert!(!arena.contains(tiles[1]));
    assert_eq!(tilemap.get_tile(IVec2::new(1, 0)), None);
    assert_eq!(tilemap.pending(), 3);

    plugin.tick(&mut tilemap, &mut arena);
    for (cell, tile) in cells.iter().zip(tiles.iter()) {
        assert_eq!(tilemap.get_tile(*cell), None);
        assert!(!arena.contains(*tile));
    }
    assert_eq!(tilemap.pending(), 0);
    let chunk = tilemap.chunk(tilemap.get_chunk(IVec2::new(0, 0)).unwrap()).unwrap();
    assert!(chunk.image_data().iter().all(|b| *b == 0));
}

#[test]
fn a_tile_placed_over_a_cell_survives_the_composite() {
    let plugin = PixelPlugin;
    let mut arena = Arena::new();
    let mut tilemap = Tilemap::new();
    let composite = MultiTile::from_color(red(), 16, 16).place(
        IVec2::new(0, 0),
        &mut tilemap,
        &mut arena,
    );
    plugin.tick(&mut tilemap, &mut arena);
    let covered = tilemap.get_tile(IVec2::new(1, 1)).unwrap();

    let white = Tile::from_color(Color::rgba_u8(255, 255, 255, 255));
    let other = tilemap.set_tile(&mut arena, IVec2::new(1, 1), white, None);
    plugin.tick(&mut tilemap, &mut arena);
    assert!(!arena.contains(composite));
    assert!(!arena.contains(covered));
    assert_eq!(tilemap.get_tile(IVec2::new(1, 1)), Some(other));

    plugin.tick(&mut tilemap, &mut arena);
    plugin.tick(&mut tilemap, &mut arena);
    assert_eq!(tilemap.get_tile(IVec2::new(0, 0)), None);
    assert_eq!(tilemap.get_tile(IVec2::new(1, 0)), None);
    assert_eq!(tilemap.get_tile(IVec2::new(0, 1)), None);
    assert_eq!(tilemap.get_tile(IVec2::new(1, 1)), Some(other));
    assert!(arena.contains(other));
    assert_eq!(arena.get_tile(other), Some(&white));
}

#[test]
fn multi_tile_delete_handles_one_composite_per_origin() {
    let mut arena = Arena::new();
    let mut tilemap = Tilemap::new();
    let first = MultiTile::from_color(red(), 8, 8).place(IVec2::new(4, 4), &mut tilemap, &mut arena);
    let second = MultiTile::from_color(red(), 8, 8).place(IVec2::new(4, 4), &mut tilemap, &mut arena);
    let third = MultiTile::from_color(red(), 8, 8).place(IVec2::new(5, 4), &mut tilemap, &mut arena);
    tilemap_event_system(&mut tilemap, &mut arena);
    // The second placement at (4, 4) replaced and tombstoned the first one's tile.
    let first_tile = arena.get_multi_tile(first).unwrap().entities[0];
    let second_tile = arena.get_multi_tile(second).unwrap().entities[0];
    let third_tile = arena.get_multi_tile(third).unwrap().entities[0];
    assert!(arena.is_deleting(first_tile));
    arena.mark_deleting(second_tile);
    arena.mark_deleting(third_tile);
    multi_tile_delete(&mut tilemap, &mut arena);
    assert!(!arena.contains(first));
    assert!(arena.contains(second));
    assert!(!arena.contains(third));
}

#[test]
fn multi_tile_delete_ignores_plain_tiles() {
    let mut arena = Arena::new();
    let mut tilemap = Tilemap::new();
    let plain = tilemap.set_tile(
        &mut arena,
        IVec2::new(0, 0),
        Tile::from_color(red()),
        None,
    );
    tilemap_event_system(&mut tilemap, &mut arena);
    tilemap.delete_tile(IVec2::new(0, 0));
    tilemap_event_system(&mut tilemap, &mut arena);
    assert!(arena.is_deleting(plain));
    multi_tile_delete(&mut tilemap, &mut arena);
    assert_eq!(tilemap.pending(), 0);
    assert!(arena.contains(plain));
}

#[test]
fn tick_runs_the_passes_in_order() {
    let plugin = PixelPlugin;
    let mut arena = Arena::new();
    let mut tilemap = Tilemap::new();
    let loc = IVec2::new(0, 15);
    let entity = tilemap.set_tile(&mut arena, loc, Tile::from_color(red()), None);
    assert_eq!(plugin.tick(&mut tilemap, &mut arena), vec![0]);
    let chunk = tilemap.chunk(tilemap.get_chunk(loc).unwrap()).unwrap();
    assert_eq!(&chunk.image_data()[0..4], &[255, 0, 0, 255]);
    assert_eq!(&chunk.image_data()[32..36], &[0, 0, 0, 0]);
    assert_eq!(plugin.tick(&mut tilemap, &mut arena), Vec::<usize>::new());

    tilemap.delete_tile(loc);
    assert_eq!(plugin.tick(&mut tilemap, &mut arena), vec![0]);
    assert!(!arena.contains(entity));
    let chunk = tilemap.chunk(tilemap.get_chunk(loc).unwrap()).unwrap();
    assert!(chunk.image_data().iter().all(|b| *b == 0));
}
