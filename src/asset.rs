use vstd::prelude::*;

verus! {

/// How a texture is sampled outside the unit square.
#[derive(PartialEq, Eq, Structural, Clone, Copy, Debug)]
pub enum WrapMode {
    ClampToEdge,
    Repeat,
    MirrorRepeat,
}

/// A decoded texture: 8-bit RGBA pixels, row by row.
pub struct EqTexture {
    pub width: u32,
    pub height: u32,
    pub data: Vec<u8>,
    pub wrap_u: WrapMode,
    pub wrap_v: WrapMode,
}

/// A material that draws one texture without runtime lighting.
pub struct EqMaterial {
    /// The label of the texture.
    pub texture: String,
    pub unlit: bool,
}

/// The buffers of one triangle-list primitive. Coordinates are the bit
/// patterns of 32-bit floats and are carried through untouched.
pub struct Geometry {
    pub positions: Vec<[u32; 3]>,
    pub normals: Vec<[u32; 3]>,
    /// Absent when the source has no texture coordinates.
    pub uvs: Option<Vec<[u32; 2]>>,
    pub indices: Vec<u32>,
}

/// One drawable part of a mesh: the label of its geometry and the label of
/// its material.
pub struct EqPrimitive {
    pub mesh: String,
    pub material: String,
}

impl View for EqPrimitive {
    type V = (Seq<char>, Seq<char>);

    open spec fn view(&self) -> (Seq<char>, Seq<char>) {
        (self.mesh@, self.material@)
    }
}

/// A mesh: its primitives in draw order.
pub struct EqMesh {
    pub primitives: Vec<EqPrimitive>,
}

/// The node of one mesh in a world's scene: placed at the mesh's center,
/// with one leaf per primitive.
pub struct EqNode {
    pub translation: [u32; 3],
    /// The label of the mesh.
    pub mesh: String,
    pub children: Vec<EqPrimitive>,
}

/// The scene of a world: a root at the origin over one node per mesh.
pub struct EqScene {
    pub children: Vec<EqNode>,
}

/// A name paired with the label of the asset it names.
pub struct Named {
    pub name: String,
    pub label: String,
}

impl View for Named {
    type V = (Seq<char>, Seq<char>);

    open spec fn view(&self) -> (Seq<char>, Seq<char>) {
        (self.name@, self.label@)
    }
}

/// The descriptive record of one world.
pub struct EqWld {
    /// Labels of the meshes, in declaration order.
    pub meshes: Vec<String>,
    /// Each mesh label paired with itself, as the lookup table by label. Rows
    /// keep declaration order; a repeated mesh name gives a repeated row.
    pub named_meshes: Vec<Named>,
    /// Labels of the materials that were built, in declaration order.
    pub materials: Vec<String>,
    /// Material names paired with their labels, in declaration order. A
    /// repeated name gives a repeated row with the same label, so a lookup by
    /// name finds one label either way.
    pub named_materials: Vec<Named>,
    /// The label of the world's scene.
    pub scene: String,
}

/// The top-level result of loading an archive.
pub struct EqArchive {
    /// Bitmap entry names paired with their texture labels, in archive order;
    /// a repeated entry name gives a repeated row.
    pub named_sources: Vec<Named>,
    /// World entry names paired with their world labels, in archive order;
    /// a repeated entry name gives a repeated row.
    pub named_wlds: Vec<Named>,
}

pub enum Asset {
    Texture(EqTexture),
    Material(EqMaterial),
    Geometry(Geometry),
    Mesh(EqMesh),
    Scene(EqScene),
    World(EqWld),
}

pub struct LabeledAsset {
    pub label: String,
    pub asset: Asset,
}

/// The labels of a sequence of registered assets, in order.
pub open spec fn labels_of(s: Seq<LabeledAsset>) -> Seq<Seq<char>> {
    s.map_values(|a: LabeledAsset| a.label@)
}

/// The views of a sequence of strings.
pub open spec fn strs(s: Seq<String>) -> Seq<Seq<char>> {
    s.map_values(|x: String| x@)
}

pub open spec fn prims(s: Seq<EqPrimitive>) -> Seq<(Seq<char>, Seq<char>)> {
    s.map_values(|x: EqPrimitive| x@)
}

pub open spec fn nameds(s: Seq<Named>) -> Seq<(Seq<char>, Seq<char>)> {
    s.map_values(|x: Named| x@)
}

} // verus!
