use bevy_pixel_map::arena::{Arena, Entity};
use bevy_pixel_map::multi_tile::{MultiTile, MultiTileMarker};
use bevy_pixel_map::tile::{Color, Tile};
use bevy_pixel_map::util::IVec2;

fn red() -> Tile {
    Tile::from_color(Color::rgba_u8(255, 0, 0, 255))
}

#[test]
fn handles_count_upward_and_are_not_reused() {
    let mut arena = Arena::new();
    assert_eq!(arena.len(), 0);
    let a = arena.spawn_tile(red(), None);
    let b = arena.spawn_empty();
    assert_eq!(a, Entity { id: 0 });
    assert_eq!(b, Entity { id: 1 });
    assert!(arena.despawn(a));
    let c = arena.spawn_tile(red(), None);
    assert_eq!(c, Entity { id: 2 });
    assert_eq!(arena.len(), 3);
    assert!(!arena.contains(a));
    assert!(arena.contains(b));
    assert!(arena.contains(c));
    assert!(!arena.contains(Entity { id: 3 }));
}

#[test]
fn spawned_tile_keeps_pixels_and_marker() {
    let mut arena = Arena::new();
    let owner = arena.spawn_empty();
    let marker = MultiTileMarker { entity: owner };
    let e = arena.spawn_tile(red(), Some(marker));
    assert_eq!(arena.get_tile(e), Some(&red()));
    assert_eq!(arena.marker(e), Some(marker));
    assert!(!arena.is_deleting(e));
    assert_eq!(arena.get_tile(owner), None);
    assert_eq!(arena.marker(owner), None);
    assert_eq!(arena.get_tile(Entity { id: 9 }), None);
}

#[test]
fn mark_deleting_keeps_the_tile_alive() {
    let mut arena = Arena::new();
    let e = arena.spawn_tile(red(), None);
    arena.mark_deleting(e);
    assert!(arena.is_deleting(e));
    assert!(arena.contains(e));
    assert_eq!(arena.get_tile(e), Some(&red()));
    arena.mark_deleting(Entity { id: 5 });
    assert_eq!(arena.len(), 1);
}

#[test]
fn mark_deleting_ignores_what_is_no_tile() {
    let mut arena = Arena::new();
    let empty = arena.spawn_empty();
    arena.mark_deleting(empty);
    assert!(!arena.is_deleting(empty));
    assert!(arena.contains(empty));
}

#[test]
fn despawn_destroys_once() {
    let mut arena = Arena::new();
    let e = arena.spawn_tile(red(), None);
    assert!(arena.despawn(e));
    assert!(!arena.despawn(e));
    assert!(!arena.contains(e));
    assert_eq!(arena.get_tile(e), None);
    assert!(!arena.is_deleting(e));
    assert!(!arena.despawn(Entity { id: 7 }));
}

#[test]
fn set_tile_pixel_paints_a_live_tile() {
    let mut arena = Arena::new();
    let e = arena.spawn_tile(red(), None);
    let blue = Color::rgba_u8(0, 0, 255, 255);
    arena.set_tile_pixel(e, IVec2::new(2, 3), blue);
    let mut expected = red();
    expected.set_pixel(IVec2::new(2, 3), blue);
    assert_eq!(arena.get_tile(e), Some(&expected));
    arena.set_tile_pixel(e, IVec2::new(8, 3), blue);
    assert_eq!(arena.get_tile(e), Some(&expected));
    arena.set_tile_pixel(Entity { id: 4 }, IVec2::new(0, 0), blue);
    assert_eq!(arena.len(), 1);
}

#[test]
fn insert_multi_tile_needs_an_empty_object() {
    let mut arena = Arena::new();
    let holder = arena.spawn_empty();
    let tile = arena.spawn_tile(red(), None);
    let composite = MultiTile::from_color(Color::none(), 8, 8);
    arena.insert_multi_tile(tile, composite.clone());
    assert!(arena.get_multi_tile(tile).is_none());
    assert_eq!(arena.get_tile(tile), Some(&red()));
    arena.insert_multi_tile(Entity { id: 10 }, composite.clone());
    assert_eq!(arena.len(), 2);
    assert!(arena.get_multi_tile(holder).is_none());
    arena.insert_multi_tile(holder, composite);
    let stored = arena.get_multi_tile(holder).unwrap();
    assert_eq!(stored.size, IVec2::new(1, 1));
    assert!(arena.contains(holder));
}
