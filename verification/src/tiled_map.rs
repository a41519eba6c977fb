//! A map description in the layout an external map editor consumes:
//! a fixed 32x32 orthogonal grid with its tile dimensions, ready to be
//! serialized by the surrounding application.
use vstd::prelude::*;

verus! {

/// A tileset reference of the map description.
pub struct Tileset {
    pub layer_type: String,
}

/// The top-level map description: a 32x32 orthogonal map whose tile
/// dimensions come from the caller.
pub struct TiledMap {
    pub tiledversion: String,
    pub file_type: String,
    pub data: Vec<u32>,
    pub width: u32,
    pub height: u32,
    pub tileheight: u32,
    pub tilewidth: u32,
    pub orientation: String,
    pub nextobjectid: u32,
    pub layers: Vec<u32>,
    pub properties: Vec<u32>,
    pub tilesets: Vec<u32>,
}

impl TiledMap {
    /// Builds an empty 32x32 orthogonal map description with the given
    /// tile dimensions.
    pub fn new(width: u32, height: u32, tileheight: u32, tilewidth: u32) -> (r: TiledMap)
        ensures
            r.tiledversion@ == "1.11"@,
            r.file_type@ == "map"@,
            r.data@ == Seq::<u32>::empty(),
            r.width == 32u32,
            r.height == 32u32,
            r.tileheight == tileheight,
            r.tilewidth == tilewidth,
            r.orientation@ == "orthogonal"@,
            r.nextobjectid == 0u32,
            r.layers@ == Seq::<u32>::empty(),
            r.properties@ == Seq::<u32>::empty(),
            r.tilesets@ == Seq::<u32>::empty(),
    {
        let r = TiledMap {
            tiledversion: "1.11".to_owned(),
            file_type: "map".to_owned(),
            data: Vec::new(),
            width: 32,
            height: 32,
            tileheight,
            tilewidth,
            orientation: "orthogonal".to_owned(),
            nextobjectid: 0,
            layers: Vec::new(),
            properties: Vec::new(),
            tilesets: Vec::new(),
        };
        assert(r.data@ =~= Seq::<u32>::empty());
        assert(r.layers@ =~= Seq::<u32>::empty());
        assert(r.properties@ =~= Seq::<u32>::empty());
        assert(r.tilesets@ =~= Seq::<u32>::empty());
        r
    }
}

} // verus!
