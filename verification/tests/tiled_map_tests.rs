use snes_gfx::tiled_map::TiledMap;

#[test]
fn tiled_map_describes_a_fixed_32_by_32_grid() {
    let map = TiledMap::new(100, 200, 8, 8);
    assert_eq!(map.width, 32);
    assert_eq!(map.height, 32);
    assert_eq!(map.tileheight, 8);
    assert_eq!(map.tilewidth, 8);
    assert_eq!(map.tiledversion, "1.11");
    assert_eq!(map.file_type, "map");
    assert_eq!(map.orientation, "orthogonal");
    assert_eq!(map.nextobjectid, 0);
    assert!(map.data.is_empty());
    assert!(map.layers.is_empty());
    assert!(map.properties.is_empty());
    assert!(map.tilesets.is_empty());
}
