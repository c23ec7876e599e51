use vstd::prelude::*;
use vstd::string::*;
use crate::asset::{
    Asset, EqMaterial, EqMesh, EqNode, EqPrimitive, EqScene, EqWld, Geometry, LabeledAsset, Named,
    labels_of, nameds, prims, strs,
};
use crate::texture::{bmp_rgba8, texture_from};
use crate::label::{
    material_label, material_label_spec, mesh_label, mesh_label_spec, primitive_label,
    primitive_label_spec, scene_label, scene_label_spec, texture_label, texture_label_spec, wld_label,
    wld_label_spec,
};

verus! {

/// A material as the world decoder describes it.
pub struct MaterialDesc {
    pub name: Option<String>,
    /// The file name of the base-color texture, if any.
    pub texture: Option<String>,
}

/// One sub-mesh as the world decoder describes it. Coordinates are the bit
/// patterns of 32-bit floats.
pub struct PrimitiveDesc {
    /// The position of the primitive in its mesh.
    pub index: usize,
    pub positions: Vec<[u32; 3]>,
    pub normals: Vec<[u32; 3]>,
    pub uvs: Vec<[u32; 2]>,
    pub indices: Vec<u32>,
    /// The name of the material the primitive is drawn with.
    pub material: Option<String>,
}

/// A mesh as the world decoder describes it.
pub struct MeshDesc {
    pub name: Option<String>,
    /// The bit patterns of the center's three 32-bit float coordinates.
    pub center: [u32; 3],
    pub primitives: Vec<PrimitiveDesc>,
}

/// A decoded world: its materials and meshes in declaration order.
pub struct WorldDesc {
    pub materials: Vec<MaterialDesc>,
    pub meshes: Vec<MeshDesc>,
}

/// A name that may be missing, read as the empty name when it is.
pub open spec fn name_or_empty(o: Option<String>) -> Seq<char> {
    match o {
        Some(s) => s@,
        None => Seq::empty(),
    }
}

/// A material is built when it has a name and a texture that the archive holds.
pub open spec fn material_kept(m: MaterialDesc, textures: Seq<Seq<char>>) -> bool {
    &&& m.name is Some
    &&& m.texture is Some
    &&& textures.contains(m.texture->Some_0@)
}

/// The name-indexed materials of a world: each built material's name with its label.
pub open spec fn named_materials_spec(
    wld: Seq<char>,
    ms: Seq<MaterialDesc>,
    textures: Seq<Seq<char>>,
) -> Seq<(Seq<char>, Seq<char>)>
    decreases ms.len(),
{
    if ms.len() == 0 {
        seq![]
    } else {
        let prev = named_materials_spec(wld, ms.drop_last(), textures);
        let m = ms.last();
        if material_kept(m, textures) {
            prev.push((m.name->Some_0@, material_label_spec(wld, m.name->Some_0@)))
        } else {
            prev
        }
    }
}

/// Whether `name` is a key of a name-indexed table.
pub open spec fn resolves(named: Seq<(Seq<char>, Seq<char>)>, name: Seq<char>) -> bool {
    exists|i: int| 0 <= i < named.len() && (#[trigger] named[i]).0 == name
}

/// A primitive is kept when its material resolves in the world's named materials.
pub open spec fn primitive_kept(p: PrimitiveDesc, named: Seq<(Seq<char>, Seq<char>)>) -> bool {
    p.material is Some && resolves(named, p.material->Some_0@)
}

/// The primitives that a mesh keeps, as (geometry label, material label), in order.
pub open spec fn kept_primitives(
    wld: Seq<char>,
    mesh: Seq<char>,
    ps: Seq<PrimitiveDesc>,
    named: Seq<(Seq<char>, Seq<char>)>,
) -> Seq<(Seq<char>, Seq<char>)>
    decreases ps.len(),
{
    if ps.len() == 0 {
        seq![]
    } else {
        let prev = kept_primitives(wld, mesh, ps.drop_last(), named);
        let p = ps.last();
        if primitive_kept(p, named) {
            prev.push(
                (
                    primitive_label_spec(wld, mesh, p.index as nat),
                    material_label_spec(wld, p.material->Some_0@),
                ),
            )
        } else {
            prev
        }
    }
}

/// The labels a mesh registers: one geometry per kept primitive, then the mesh.
pub open spec fn mesh_registry_labels(
    wld: Seq<char>,
    m: MeshDesc,
    named: Seq<(Seq<char>, Seq<char>)>,
) -> Seq<Seq<char>> {
    kept_primitives(wld, name_or_empty(m.name), m.primitives@, named).map_values(
        |p: (Seq<char>, Seq<char>)| p.0,
    ).push(mesh_label_spec(wld, name_or_empty(m.name)))
}

pub open spec fn meshes_registry_labels(
    wld: Seq<char>,
    ms: Seq<MeshDesc>,
    named: Seq<(Seq<char>, Seq<char>)>,
) -> Seq<Seq<char>>
    decreases ms.len(),
{
    if ms.len() == 0 {
        seq![]
    } else {
        meshes_registry_labels(wld, ms.drop_last(), named) + mesh_registry_labels(
            wld,
            ms.last(),
            named,
        )
    }
}

/// The labels of a world's meshes, in declaration order.
pub open spec fn mesh_labels_spec(wld: Seq<char>, ms: Seq<MeshDesc>) -> Seq<Seq<char>> {
    ms.map_values(|m: MeshDesc| mesh_label_spec(wld, name_or_empty(m.name)))
}

/// Everything a world registers, in order: its materials, its meshes with
/// their geometry, its scene and the world record itself.
pub open spec fn world_registry_labels(
    wld: Seq<char>,
    d: WorldDesc,
    textures: Seq<Seq<char>>,
) -> Seq<Seq<char>> {
    let named = named_materials_spec(wld, d.materials@, textures);
    named.map_values(|p: (Seq<char>, Seq<char>)| p.1) + meshes_registry_labels(
        wld,
        d.meshes@,
        named,
    ) + seq![scene_label_spec(wld), wld_label_spec(wld)]
}

/// Whether `names` holds `n`.
pub fn contains_name(names: &Vec<String>, n: &String) -> (r: bool)
    ensures
        r == strs(names@).contains(n@),
{
    let mut i: usize = 0;
    while i < names.len()
        invariant
            i <= names.len(),
            forall|j: int| 0 <= j < i ==> names@[j]@ != n@,
        decreases names.len() - i,
    {
        if names[i] == *n {
            assert(strs(names@)[i as int] == n@);
            return true;
        }
        i = i + 1;
    }
    proof {
        if strs(names@).contains(n@) {
            let k = choose|k: int| 0 <= k < strs(names@).len() && strs(names@)[k] == n@;
            assert(names@[k]@ == n@);
        }
    }
    false
}

/// Whether `n` is a key of the name-indexed table `named`.
pub fn has_name(named: &Vec<Named>, n: &String) -> (r: bool)
    ensures
        r == resolves(nameds(named@), n@),
{
    let mut i: usize = 0;
    while i < named.len()
        invariant
            i <= named.len(),
            forall|j: int| 0 <= j < i ==> named@[j].name@ != n@,
        decreases named.len() - i,
    {
        if named[i].name == *n {
            assert(nameds(named@)[i as int].0 == n@);
            return true;
        }
        i = i + 1;
    }
    proof {
        if resolves(nameds(named@), n@) {
            let k = choose|k: int| 0 <= k < nameds(named@).len() && (#[trigger] nameds(named@)[k]).0 == n@;
            assert(named@[k].name@ == n@);
        }
    }
    false
}

fn copy_items<T: Copy>(v: &Vec<T>) -> (r: Vec<T>)
    ensures
        r@ == v@,
{
    let mut r: Vec<T> = Vec::new();
    let mut i: usize = 0;
    while i < v.len()
        invariant
            i <= v.len(),
            r@ == v@.subrange(0, i as int),
        decreases v.len() - i,
    {
        r.push(v[i]);
        i = i + 1;
        assert(r@ =~= v@.subrange(0, i as int));
    }
    assert(r@ =~= v@);
    r
}

/// The buffers of a primitive; texture coordinates are left out when there are none.
pub fn build_geometry(p: &PrimitiveDesc) -> (g: Geometry)
    ensures
        geometry_from(g, *p),
{
    let uvs = if p.uvs.len() > 0 {
        Some(copy_items(&p.uvs))
    } else {
        None
    };
    Geometry {
        positions: copy_items(&p.positions),
        normals: copy_items(&p.normals),
        uvs,
        indices: copy_items(&p.indices),
    }
}


/// The record of a world built from `d`, as `load_wld` registers it.
pub open spec fn world_matches(
    r: EqWld,
    wld: Seq<char>,
    d: WorldDesc,
    textures: Seq<Seq<char>>,
) -> bool {
    let named = named_materials_spec(wld, d.materials@, textures);
    &&& nameds(r.named_materials@) == named
    &&& strs(r.materials@) == named.map_values(|p: (Seq<char>, Seq<char>)| p.1)
    &&& strs(r.meshes@) == mesh_labels_spec(wld, d.meshes@)
    &&& nameds(r.named_meshes@) == mesh_labels_spec(wld, d.meshes@).map_values(
        |l: Seq<char>| (l, l),
    )
    &&& r.scene@ == scene_label_spec(wld)
}

/// Whether `g` holds the buffers of `p`, with no texture coordinates when
/// `p` has none.
pub open spec fn geometry_from(g: Geometry, p: PrimitiveDesc) -> bool {
    &&& g.positions@ == p.positions@
    &&& g.normals@ == p.normals@
    &&& g.indices@ == p.indices@
    &&& p.uvs.len() == 0 ==> g.uvs is None
    &&& p.uvs.len() > 0 ==> g.uvs is Some && g.uvs->Some_0@ == p.uvs@
}

/// What one registered asset holds, described by what it is built from.
pub enum Expected {
    /// The texture decoded from these bitmap bytes.
    Texture(Seq<u8>),
    /// An unlit material drawing the texture with this label.
    Material(Seq<char>),
    /// The buffers of this primitive.
    Geometry(PrimitiveDesc),
    /// A mesh with these (geometry label, material label) primitives.
    Mesh(Seq<(Seq<char>, Seq<char>)>),
    /// The scene of world `w` over meshes `ms`, with material table `named`.
    Scene(Seq<char>, Seq<MeshDesc>, Seq<(Seq<char>, Seq<char>)>),
    /// The record of world `w` built from `d` against the texture set.
    World(Seq<char>, WorldDesc, Seq<Seq<char>>),
}

/// Whether the registered asset `a` holds what `x` describes.
pub open spec fn meets(a: LabeledAsset, x: Expected) -> bool {
    match x {
        Expected::Texture(bytes) => {
            &&& a.asset is Texture
            &&& bmp_rgba8(bytes) is Some
            &&& texture_from(
                a.asset->Texture_0,
                bmp_rgba8(bytes)->Some_0.0,
                bmp_rgba8(bytes)->Some_0.1,
                bmp_rgba8(bytes)->Some_0.2,
            )
        },
        Expected::Material(texture) => {
            &&& a.asset is Material
            &&& a.asset->Material_0.texture@ == texture
            &&& a.asset->Material_0.unlit
        },
        Expected::Geometry(p) => a.asset is Geometry && geometry_from(a.asset->Geometry_0, p),
        Expected::Mesh(ps) => a.asset is Mesh && prims(a.asset->Mesh_0.primitives@) == ps,
        Expected::Scene(w, ms, named) => a.asset is Scene && scene_matches(
            a.asset->Scene_0.children@,
            w,
            ms,
            named,
        ),
        Expected::World(w, d, t) => a.asset is World && world_matches(a.asset->World_0, w, d, t),
    }
}

/// Whether each asset of `s` holds what the matching entry of `x` describes.
pub open spec fn all_meet(s: Seq<LabeledAsset>, x: Seq<Expected>) -> bool {
    &&& s.len() == x.len()
    &&& forall|k: int| 0 <= k < s.len() ==> meets(#[trigger] s[k], x[k])
}

/// The assets registered since position `base` of `reg`.
pub open spec fn since(reg: Seq<LabeledAsset>, base: int) -> Seq<LabeledAsset> {
    reg.subrange(base, reg.len() as int)
}

/// A registry that grew from `before` to `after` keeps meeting its description.
pub proof fn lemma_meet_extend(
    before: Seq<LabeledAsset>,
    after: Seq<LabeledAsset>,
    base: int,
    x: Seq<Expected>,
    y: Seq<Expected>,
)
    requires
        0 <= base <= before.len() <= after.len(),
        after.subrange(0, before.len() as int) == before,
        all_meet(since(before, base), x),
        all_meet(since(after, before.len() as int), y),
    ensures
        all_meet(since(after, base), x + y),
{
    let s = since(after, base);
    assert forall|k: int| 0 <= k < s.len() implies meets(#[trigger] s[k], (x + y)[k]) by {
        if k < x.len() {
            assert(s[k] == after.subrange(0, before.len() as int)[base + k]);
            assert(since(before, base)[k] == before[base + k]);
        } else {
            assert(since(after, before.len() as int)[k - x.len()] == s[k]);
        }
    }
}

/// What a world's materials register, in order.
pub open spec fn materials_expected(ms: Seq<MaterialDesc>, textures: Seq<Seq<char>>) -> Seq<Expected>
    decreases ms.len(),
{
    if ms.len() == 0 {
        seq![]
    } else {
        let prev = materials_expected(ms.drop_last(), textures);
        if material_kept(ms.last(), textures) {
            prev.push(Expected::Material(texture_label_spec(ms.last().texture->Some_0@)))
        } else {
            prev
        }
    }
}

/// The geometry of each primitive a mesh keeps, in order.
pub open spec fn kept_geometries(
    ps: Seq<PrimitiveDesc>,
    named: Seq<(Seq<char>, Seq<char>)>,
) -> Seq<Expected>
    decreases ps.len(),
{
    if ps.len() == 0 {
        seq![]
    } else {
        let prev = kept_geometries(ps.drop_last(), named);
        if primitive_kept(ps.last(), named) {
            prev.push(Expected::Geometry(ps.last()))
        } else {
            prev
        }
    }
}

/// What a mesh registers: its kept geometries, then the mesh record.
pub open spec fn mesh_expected(
    wld: Seq<char>,
    m: MeshDesc,
    named: Seq<(Seq<char>, Seq<char>)>,
) -> Seq<Expected> {
    kept_geometries(m.primitives@, named).push(
        Expected::Mesh(kept_primitives(wld, name_or_empty(m.name), m.primitives@, named)),
    )
}

pub open spec fn meshes_expected(
    wld: Seq<char>,
    ms: Seq<MeshDesc>,
    named: Seq<(Seq<char>, Seq<char>)>,
) -> Seq<Expected>
    decreases ms.len(),
{
    if ms.len() == 0 {
        seq![]
    } else {
        meshes_expected(wld, ms.drop_last(), named) + mesh_expected(wld, ms.last(), named)
    }
}

/// What a world registers, in the order of `world_registry_labels`.
pub open spec fn world_expected(wld: Seq<char>, d: WorldDesc, textures: Seq<Seq<char>>) -> Seq<
    Expected,
> {
    let named = named_materials_spec(wld, d.materials@, textures);
    materials_expected(d.materials@, textures) + meshes_expected(wld, d.meshes@, named) + seq![
        Expected::Scene(wld, d.meshes@, named),
        Expected::World(wld, d, textures),
    ]
}

/// Whether `nodes` are the scene nodes of the meshes `ms`, in order: each
/// at its mesh's center, with the primitives that mesh keeps as leaves.
pub open spec fn scene_matches(
    nodes: Seq<EqNode>,
    wld: Seq<char>,
    ms: Seq<MeshDesc>,
    named: Seq<(Seq<char>, Seq<char>)>,
) -> bool {
    &&& nodes.len() == ms.len()
    &&& forall|i: int|
        0 <= i < ms.len() ==> {
            let n = #[trigger] nodes[i];
            &&& n.translation == ms[i].center
            &&& n.mesh@ == mesh_label_spec(wld, name_or_empty(ms[i].name))
            &&& prims(n.children@) == kept_primitives(
                wld,
                name_or_empty(ms[i].name),
                ms[i].primitives@,
                named,
            )
        }
}

/// Registers an unlit material drawing the texture `texture_name` under
/// `label`, and returns the label as the material's handle.
pub fn load_material(reg: &mut Vec<LabeledAsset>, label: String, texture_name: &str) -> (r: String)
    ensures
        r@ == label@,
        final(reg)@.len() == old(reg)@.len() + 1,
        final(reg)@.drop_last() == old(reg)@,
        labels_of(final(reg)@) == labels_of(old(reg)@).push(label@),
        final(reg)@.last().asset is Material,
        final(reg)@.last().asset->Material_0.texture@ == texture_label_spec(texture_name@),
        final(reg)@.last().asset->Material_0.unlit,
{
    let texture = texture_label(texture_name);
    let handle = label.clone();
    reg.push(LabeledAsset { label, asset: Asset::Material(EqMaterial { texture, unlit: true }) });
    assert(final(reg)@.drop_last() =~= old(reg)@);
    assert(labels_of(final(reg)@) =~= labels_of(old(reg)@).push(handle@));
    handle
}

/// Builds the materials of a world whose textures the archive holds, in
/// declaration order, and returns them as a list of labels and as a table by name.
pub fn load_materials(
    reg: &mut Vec<LabeledAsset>,
    wld_name: &str,
    ms: &Vec<MaterialDesc>,
    textures: &Vec<String>,
) -> (r: (Vec<String>, Vec<Named>))
    ensures
        nameds(r.1@) == named_materials_spec(wld_name@, ms@, strs(textures@)),
        strs(r.0@) == named_materials_spec(wld_name@, ms@, strs(textures@)).map_values(
            |p: (Seq<char>, Seq<char>)| p.1,
        ),
        labels_of(final(reg)@) == labels_of(old(reg)@) + strs(r.0@),
        final(reg)@.len() >= old(reg)@.len(),
        final(reg)@.subrange(0, old(reg)@.len() as int) == old(reg)@,
        forall|k: int|
            old(reg)@.len() <= k < final(reg)@.len() ==> {
                let a = #[trigger] final(reg)@[k].asset;
                &&& a is Material
                &&& a->Material_0.unlit
                &&& strs(textures@).map_values(|x: Seq<char>| texture_label_spec(x)).contains(
                    a->Material_0.texture@,
                )
            },
        all_meet(
            since(final(reg)@, old(reg)@.len() as int),
            materials_expected(ms@, strs(textures@)),
        ),
{
    let ghost w = wld_name@;
    let ghost t = strs(textures@);
    assert(since(reg@, old(reg)@.len() as int).len() == 0);
    let mut materials: Vec<String> = Vec::new();
    let mut named: Vec<Named> = Vec::new();
    let mut i: usize = 0;
    while i < ms.len()
        invariant
            i <= ms.len(),
            w == wld_name@,
            t == strs(textures@),
            nameds(named@) == named_materials_spec(w, ms@.subrange(0, i as int), t),
            strs(materials@) == nameds(named@).map_values(|p: (Seq<char>, Seq<char>)| p.1),
            labels_of(reg@) == labels_of(old(reg)@) + strs(materials@),
            reg@.len() >= old(reg)@.len(),
            reg@.subrange(0, old(reg)@.len() as int) == old(reg)@,
            forall|k: int|
                old(reg)@.len() <= k < reg@.len() ==> {
                    let a = #[trigger] reg@[k].asset;
                    &&& a is Material
                    &&& a->Material_0.unlit
                    &&& t.map_values(|x: Seq<char>| texture_label_spec(x)).contains(
                        a->Material_0.texture@,
                    )
                },
            all_meet(
                since(reg@, old(reg)@.len() as int),
                materials_expected(ms@.subrange(0, i as int), t),
            ),
        decreases ms.len() - i,
    {
        let m = &ms[i];
        assert(ms@.subrange(0, i + 1).drop_last() =~= ms@.subrange(0, i as int));
        assert(ms@.subrange(0, i + 1).last() == ms@[i as int]);
        match (&m.name, &m.texture) {
            (Some(name), Some(tex)) => {
                if contains_name(textures, tex) {
                    let label = material_label(wld_name, name.as_str());
                    let ghost before = reg@;
                    let handle = load_material(reg, label, tex.as_str());
                    proof {
                        let tl = t.map_values(|x: Seq<char>| texture_label_spec(x));
                        let ti = choose|ti: int| 0 <= ti < t.len() && t[ti] == tex@;
                        assert(tl[ti] == texture_label_spec(tex@));
                        assert(reg@.len() == before.len() + 1);
                        assert(reg@.subrange(0, old(reg)@.len() as int) =~= before.subrange(
                            0,
                            old(reg)@.len() as int,
                        ));
                        assert forall|k: int| old(reg)@.len() <= k < reg@.len() - 1 implies #[trigger] reg@[k]
                            == before[k] by {
                            assert(reg@.drop_last()[k] == reg@[k]);
                        }
                        assert(reg@.subrange(0, before.len() as int) =~= before);
                        let y = seq![Expected::Material(texture_label_spec(tex@))];
                        assert(since(reg@, before.len() as int) =~= seq![reg@.last()]);
                        assert(all_meet(since(reg@, before.len() as int), y));
                        lemma_meet_extend(
                            before,
                            reg@,
                            old(reg)@.len() as int,
                            materials_expected(ms@.subrange(0, i as int), t),
                            y,
                        );
                    }
                    let ghost old_named = nameds(named@);
                    let ghost old_materials = strs(materials@);
                    materials.push(handle.clone());
                    named.push(Named { name: name.clone(), label: handle });
                    assert(nameds(named@) =~= old_named.push((name@, material_label_spec(w, name@))));
                    assert(strs(materials@) =~= old_materials.push(material_label_spec(w, name@)));
                    assert(strs(materials@) =~= nameds(named@).map_values(|p: (Seq<char>, Seq<char>)| p.1));
                    assert(labels_of(reg@) =~= labels_of(old(reg)@) + strs(materials@));
                }
            },
            _ => {},
        }
        i = i + 1;
    }
    assert(ms@.subrange(0, ms.len() as int) =~= ms@);
    (materials, named)
}

/// Builds one mesh: registers the geometry of each primitive whose material
/// resolves in `named`, then the mesh, and returns the mesh's scene node. The
/// mesh and its node list the same primitives in the same order.
pub fn load_mesh(
    reg: &mut Vec<LabeledAsset>,
    wld_name: &str,
    m: &MeshDesc,
    named: &Vec<Named>,
) -> (node: EqNode)
    ensures
        node.translation == m.center,
        node.mesh@ == mesh_label_spec(wld_name@, name_or_empty(m.name)),
        prims(node.children@) == kept_primitives(
            wld_name@,
            name_or_empty(m.name),
            m.primitives@,
            nameds(named@),
        ),
        labels_of(final(reg)@) == labels_of(old(reg)@) + mesh_registry_labels(
            wld_name@,
            *m,
            nameds(named@),
        ),
        final(reg)@.len() > old(reg)@.len(),
        final(reg)@.subrange(0, old(reg)@.len() as int) == old(reg)@,
        forall|k: int|
            old(reg)@.len() <= k < final(reg)@.len() ==> !((#[trigger] final(reg)@[k]).asset is Texture),
        final(reg)@.last().label@ == node.mesh@,
        final(reg)@.last().asset is Mesh,
        prims(final(reg)@.last().asset->Mesh_0.primitives@) == prims(node.children@),
        all_meet(since(final(reg)@, old(reg)@.len() as int), mesh_expected(wld_name@, *m, nameds(named@))),
{
    proof {
        reveal_strlit("");
    }
    assert(since(reg@, old(reg)@.len() as int).len() == 0);
    let mesh_name: &str = match &m.name {
        Some(n) => n.as_str(),
        None => "",
    };
    assert(mesh_name@ == name_or_empty(m.name));
    let ghost w = wld_name@;
    let ghost mn = mesh_name@;
    let ghost nm = nameds(named@);
    let ghost ps = m.primitives@;
    let mut primitives: Vec<EqPrimitive> = Vec::new();
    let mut children: Vec<EqPrimitive> = Vec::new();
    let mut i: usize = 0;
    while i < m.primitives.len()
        invariant
            i <= m.primitives.len(),
            w == wld_name@,
            mn == mesh_name@,
            nm == nameds(named@),
            ps == m.primitives@,
            prims(children@) == kept_primitives(w, mn, ps.subrange(0, i as int), nm),
            prims(primitives@) == prims(children@),
            labels_of(reg@) == labels_of(old(reg)@) + prims(children@).map_values(
                |p: (Seq<char>, Seq<char>)| p.0,
            ),
            reg@.len() >= old(reg)@.len(),
            reg@.subrange(0, old(reg)@.len() as int) == old(reg)@,
            forall|k: int| old(reg)@.len() <= k < reg@.len() ==> !((#[trigger] reg@[k]).asset is Texture),
            all_meet(since(reg@, old(reg)@.len() as int), kept_geometries(ps.subrange(0, i as int), nm)),
        decreases m.primitives.len() - i,
    {
        let p = &m.primitives[i];
        assert(ps.subrange(0, i + 1).drop_last() =~= ps.subrange(0, i as int));
        assert(ps.subrange(0, i + 1).last() == ps[i as int]);
        match &p.material {
            Some(material_name) => {
                if has_name(named, material_name) {
                    let label = primitive_label(wld_name, mesh_name, p.index);
                    let geometry = build_geometry(p);
                    let ghost old_reg = reg@;
                    let ghost old_children = prims(children@);
                    reg.push(LabeledAsset { label: label.clone(), asset: Asset::Geometry(geometry) });
                    assert(reg@.subrange(0, old(reg)@.len() as int) =~= old_reg.subrange(0, old(reg)@.len() as int));
                    assert(forall|k: int| 0 <= k < old_reg.len() ==> reg@[k] == old_reg[k]);
                    proof {
                        assert(reg@.subrange(0, old_reg.len() as int) =~= old_reg);
                        let y = seq![Expected::Geometry(*p)];
                        assert(since(reg@, old_reg.len() as int) =~= seq![reg@.last()]);
                        assert(all_meet(since(reg@, old_reg.len() as int), y));
                        lemma_meet_extend(
                            old_reg,
                            reg@,
                            old(reg)@.len() as int,
                            kept_geometries(ps.subrange(0, i as int), nm),
                            y,
                        );
                    }
                    let material = material_label(wld_name, material_name.as_str());
                    primitives.push(EqPrimitive { mesh: label.clone(), material: material.clone() });
                    children.push(EqPrimitive { mesh: label, material });
                    assert(prims(children@) =~= old_children.push(
                        (primitive_label_spec(w, mn, p.index as nat), material_label_spec(w, material_name@)),
                    ));
                    assert(prims(primitives@) =~= prims(children@));
                    assert(labels_of(reg@) =~= labels_of(old_reg).push(
                        primitive_label_spec(w, mn, p.index as nat),
                    ));
                    assert(labels_of(reg@) =~= labels_of(old(reg)@) + prims(children@).map_values(
                        |p: (Seq<char>, Seq<char>)| p.0,
                    ));
                }
            },
            None => {},
        }
        i = i + 1;
    }
    assert(ps.subrange(0, ps.len() as int) =~= ps);
    let label = mesh_label(wld_name, mesh_name);
    let ghost before = reg@;
    reg.push(LabeledAsset { label: label.clone(), asset: Asset::Mesh(EqMesh { primitives }) });
    assert(reg@.subrange(0, old(reg)@.len() as int) =~= before.subrange(0, old(reg)@.len() as int));
    assert(forall|k: int| 0 <= k < before.len() ==> reg@[k] == before[k]);
    assert(labels_of(reg@) =~= labels_of(before).push(label@));
    assert(labels_of(reg@) =~= labels_of(old(reg)@) + mesh_registry_labels(w, *m, nm));
    proof {
        assert(reg@.subrange(0, before.len() as int) =~= before);
        let y = seq![Expected::Mesh(kept_primitives(w, mn, ps, nm))];
        assert(since(reg@, before.len() as int) =~= seq![reg@.last()]);
        assert(all_meet(since(reg@, before.len() as int), y));
        lemma_meet_extend(before, reg@, old(reg)@.len() as int, kept_geometries(ps, nm), y);
    }
    EqNode { translation: m.center, mesh: label, children }
}

/// Builds one world: its materials, then its meshes and their scene nodes,
/// then registers the scene and the world record. Returns the world's label.
pub fn load_wld(
    reg: &mut Vec<LabeledAsset>,
    wld_name: &str,
    d: &WorldDesc,
    textures: &Vec<String>,
) -> (r: String)
    ensures
        r@ == wld_label_spec(wld_name@),
        labels_of(final(reg)@) == labels_of(old(reg)@) + world_registry_labels(
            wld_name@,
            *d,
            strs(textures@),
        ),
        final(reg)@.len() >= old(reg)@.len() + 2,
        final(reg)@.subrange(0, old(reg)@.len() as int) == old(reg)@,
        forall|k: int|
            old(reg)@.len() <= k < final(reg)@.len() ==> !((#[trigger] final(reg)@[k]).asset is Texture),
        final(reg)@.last().asset is World,
        world_matches(final(reg)@.last().asset->World_0, wld_name@, *d, strs(textures@)),
        final(reg)@.len() >= 2,
        final(reg)@[final(reg)@.len() - 2].asset is Scene,
        scene_matches(
            final(reg)@[final(reg)@.len() - 2].asset->Scene_0.children@,
            wld_name@,
            d.meshes@,
            named_materials_spec(wld_name@, d.materials@, strs(textures@)),
        ),
        all_meet(since(final(reg)@, old(reg)@.len() as int), world_expected(wld_name@, *d, strs(textures@))),
{
    let ghost w = wld_name@;
    let (materials, named_materials) = load_materials(reg, wld_name, &d.materials, textures);
    let ghost nm = nameds(named_materials@);
    let ghost after_materials = labels_of(reg@);
    assert(forall|k: int| old(reg)@.len() <= k < reg@.len() ==> !((#[trigger] reg@[k]).asset is Texture));
    let ghost ms = d.meshes@;
    let ghost me = materials_expected(d.materials@, strs(textures@));
    assert(me + meshes_expected(w, ms.subrange(0, 0), nm) =~= me);
    let mut meshes: Vec<String> = Vec::new();
    let mut named_meshes: Vec<Named> = Vec::new();
    let mut children: Vec<EqNode> = Vec::new();
    let mut i: usize = 0;
    while i < d.meshes.len()
        invariant
            i <= d.meshes.len(),
            w == wld_name@,
            ms == d.meshes@,
            nm == nameds(named_materials@),
            strs(meshes@) == mesh_labels_spec(w, ms.subrange(0, i as int)),
            nameds(named_meshes@) == strs(meshes@).map_values(|l: Seq<char>| (l, l)),
            labels_of(reg@) == after_materials + meshes_registry_labels(w, ms.subrange(0, i as int), nm),
            scene_matches(children@, w, ms.subrange(0, i as int), nm),
            reg@.len() >= old(reg)@.len(),
            reg@.subrange(0, old(reg)@.len() as int) == old(reg)@,
            forall|k: int| old(reg)@.len() <= k < reg@.len() ==> !((#[trigger] reg@[k]).asset is Texture),
            me == materials_expected(d.materials@, strs(textures@)),
            all_meet(since(reg@, old(reg)@.len() as int), me + meshes_expected(w, ms.subrange(0, i as int), nm)),
        decreases d.meshes.len() - i,
    {
        assert(ms.subrange(0, i + 1).drop_last() =~= ms.subrange(0, i as int));
        assert(ms.subrange(0, i + 1).last() == ms[i as int]);
        let ghost before_mesh = reg@;
        let node = load_mesh(reg, wld_name, &d.meshes[i], &named_materials);
        assert(forall|k: int| 0 <= k < before_mesh.len() ==> reg@[k] == reg@.subrange(0, before_mesh.len() as int)[k]);
        assert(reg@.subrange(0, old(reg)@.len() as int) =~= before_mesh.subrange(0, old(reg)@.len() as int));
        proof {
            lemma_meet_extend(
                before_mesh,
                reg@,
                old(reg)@.len() as int,
                me + meshes_expected(w, ms.subrange(0, i as int), nm),
                mesh_expected(w, ms[i as int], nm),
            );
            assert(me + meshes_expected(w, ms.subrange(0, i as int), nm) + mesh_expected(w, ms[i as int], nm)
                =~= me + meshes_expected(w, ms.subrange(0, i + 1), nm));
        }
        let ghost old_meshes = strs(meshes@);
        let ghost old_named = nameds(named_meshes@);
        meshes.push(node.mesh.clone());
        named_meshes.push(Named { name: node.mesh.clone(), label: node.mesh.clone() });
        let ghost old_children = children@;
        children.push(node);
        assert(children@ == old_children.push(node));
        assert forall|j: int| 0 <= j < i + 1 implies #[trigger] children@[j] == (if j < i {
            old_children[j]
        } else {
            node
        }) by {}
        assert(scene_matches(children@, w, ms.subrange(0, i + 1), nm)) by {
            let sub = ms.subrange(0, i + 1);
            assert forall|j: int| 0 <= j < sub.len() implies {
                let n = #[trigger] children@[j];
                &&& n.translation == sub[j].center
                &&& n.mesh@ == mesh_label_spec(w, name_or_empty(sub[j].name))
                &&& prims(n.children@) == kept_primitives(
                    w,
                    name_or_empty(sub[j].name),
                    sub[j].primitives@,
                    nm,
                )
            } by {
                if j < i {
                    assert(sub[j] == ms.subrange(0, i as int)[j]);
                    assert(children@[j] == old_children[j]);
                } else {
                    assert(sub[j] == ms[i as int]);
                }
            }
        }
        assert(strs(meshes@) =~= old_meshes.push(mesh_label_spec(w, name_or_empty(ms[i as int].name))));
        assert(strs(meshes@) =~= mesh_labels_spec(w, ms.subrange(0, i + 1)));
        assert(nameds(named_meshes@) =~= old_named.push((node.mesh@, node.mesh@)));
        assert(nameds(named_meshes@) =~= strs(meshes@).map_values(|l: Seq<char>| (l, l)));
        assert(labels_of(reg@) =~= after_materials + meshes_registry_labels(w, ms.subrange(0, i + 1), nm));
        i = i + 1;
    }
    assert(ms.subrange(0, ms.len() as int) =~= ms);
    let scene = scene_label(wld_name);
    let ghost before_scene = reg@;
    reg.push(LabeledAsset { label: scene.clone(), asset: Asset::Scene(EqScene { children }) });
    let label = wld_label(wld_name);
    let ghost before_world = reg@;
    let wld = EqWld { meshes, named_meshes, materials, named_materials, scene };
    reg.push(LabeledAsset { label: label.clone(), asset: Asset::World(wld) });
    assert(labels_of(before_world) =~= labels_of(before_scene).push(scene_label_spec(w)));
    assert(labels_of(reg@) =~= labels_of(before_world).push(wld_label_spec(w)));
    assert(labels_of(reg@) =~= labels_of(old(reg)@) + world_registry_labels(w, *d, strs(textures@)));
    assert(reg@[reg@.len() - 2] == before_world.last());
    assert(reg@.subrange(0, old(reg)@.len() as int) =~= before_scene.subrange(0, old(reg)@.len() as int));
    assert(forall|k: int| 0 <= k < before_scene.len() ==> reg@[k] == before_scene[k]);
    proof {
        let x0 = me + meshes_expected(w, ms, nm);
        let ys = seq![Expected::Scene(w, ms, nm)];
        let yw = seq![Expected::World(w, *d, strs(textures@))];
        assert(before_world.subrange(0, before_scene.len() as int) =~= before_scene);
        assert(since(before_world, before_scene.len() as int) =~= seq![before_world.last()]);
        assert(all_meet(since(before_world, before_scene.len() as int), ys));
        lemma_meet_extend(before_scene, before_world, old(reg)@.len() as int, x0, ys);
        assert(reg@.subrange(0, before_world.len() as int) =~= before_world);
        assert(since(reg@, before_world.len() as int) =~= seq![reg@.last()]);
        assert(all_meet(since(reg@, before_world.len() as int), yw));
        lemma_meet_extend(before_world, reg@, old(reg)@.len() as int, x0 + ys, yw);
        assert(x0 + ys + yw =~= world_expected(w, *d, strs(textures@)));
    }
    label
}

} // verus!
