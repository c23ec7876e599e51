use eq_assets::archive::{
    entry_kind, load_eq_archive, ArchiveEntry, EntryContent, EntryKind, EqAssetsLoader, LoadError,
};
use eq_assets::asset::{Asset, LabeledAsset, WrapMode};
use eq_assets::label::{material_label, mesh_label, primitive_label, texture_label, wld_label};
use eq_assets::texture::{build_texture, load_bmp};
use eq_assets::world::{
    build_geometry, load_mesh, load_wld, MaterialDesc, MeshDesc, PrimitiveDesc, WorldDesc,
};

fn u32_le(v: u32) -> [u8; 4] {
    v.to_le_bytes()
}

/// A 1x1, 24-bit bitmap holding one red pixel.
fn red_pixel_bmp() -> Vec<u8> {
    let mut b = vec![b'B', b'M'];
    b.extend_from_slice(&u32_le(58));
    b.extend_from_slice(&[0, 0, 0, 0]);
    b.extend_from_slice(&u32_le(54));
    b.extend_from_slice(&u32_le(40));
    b.extend_from_slice(&u32_le(1));
    b.extend_from_slice(&u32_le(1));
    b.extend_from_slice(&[1, 0, 24, 0]);
    b.extend_from_slice(&u32_le(0));
    b.extend_from_slice(&u32_le(4));
    b.extend_from_slice(&u32_le(2835));
    b.extend_from_slice(&u32_le(2835));
    b.extend_from_slice(&u32_le(0));
    b.extend_from_slice(&u32_le(0));
    b.extend_from_slice(&[0, 0, 255, 0]);
    b
}

fn primitive(index: usize, material: Option<&str>) -> PrimitiveDesc {
    PrimitiveDesc {
        index,
        positions: vec![[0, 0, 0], [1, 0, 0], [0, 1, 0]],
        normals: vec![[0, 0, 1], [0, 0, 1], [0, 0, 1]],
        uvs: vec![],
        indices: vec![0, 1, 2],
        material: material.map(|m| m.to_string()),
    }
}

fn one_mesh_world() -> WorldDesc {
    WorldDesc {
        materials: vec![MaterialDesc {
            name: Some("M1".to_string()),
            texture: Some("T1".to_string()),
        }],
        meshes: vec![MeshDesc {
            name: Some("Mesh1".to_string()),
            center: [1, 2, 3],
            primitives: vec![primitive(0, Some("M1"))],
        }],
    }
}

fn labels(reg: &[LabeledAsset]) -> Vec<String> {
    reg.iter().map(|a| a.label.clone()).collect()
}

#[test]
fn labels_nest_by_owner() {
    assert_eq!(wld_label("z1.wld"), "World[z1.wld]");
    assert_eq!(texture_label("tex.bmp"), "Texture[tex.bmp]");
    assert_eq!(material_label("z1.wld", "M1"), "World[z1.wld]/Material[M1]");
    assert_eq!(mesh_label("z1.wld", "Mesh1"), "World[z1.wld]/Mesh[Mesh1]");
    assert_eq!(primitive_label("z1.wld", "Mesh1", 0), "World[z1.wld]/Mesh[Mesh1]/Primitive[0]");
    assert_eq!(
        primitive_label("z1.wld", "Mesh1", 1207),
        "World[z1.wld]/Mesh[Mesh1]/Primitive[1207]"
    );
    assert!(primitive_label("w", "m", 3).starts_with(&mesh_label("w", "m")));
    assert!(mesh_label("w", "m").starts_with(&wld_label("w")));
}

#[test]
fn entries_are_classified_by_type() {
    assert_eq!(entry_kind("tex.bmp"), EntryKind::Bitmap);
    assert_eq!(entry_kind("z1.wld"), EntryKind::World);
    assert_eq!(entry_kind("readme.txt"), EntryKind::Unknown);
    assert_eq!(entry_kind("bmp"), EntryKind::Unknown);
    assert_eq!(entry_kind("a.b.bmp"), EntryKind::Bitmap);
    assert_eq!(entry_kind("z1.bmp.wld"), EntryKind::World);
    assert_eq!(entry_kind("tex.bmp.txt"), EntryKind::Unknown);
    assert_eq!(entry_kind(""), EntryKind::Unknown);
}

#[test]
fn loader_extensions() {
    let loader = EqAssetsLoader;
    assert_eq!(loader.extensions(), &["s3d", "eqg"]);
}

#[test]
fn texture_is_mirrored_rgba() {
    let t = build_texture(2, 1, vec![1, 2, 3, 4, 5, 6, 7, 8]);
    assert_eq!(t.width, 2);
    assert_eq!(t.height, 1);
    assert_eq!(t.data, vec![1, 2, 3, 4, 5, 6, 7, 8]);
    assert_eq!(t.wrap_u, WrapMode::MirrorRepeat);
    assert_eq!(t.wrap_v, WrapMode::MirrorRepeat);
}

#[test]
fn bitmap_decodes_to_rgba8() {
    let mut reg = Vec::new();
    let label = load_bmp(&mut reg, "tex.bmp", &red_pixel_bmp());
    assert_eq!(label, Some("Texture[tex.bmp]".to_string()));
    assert_eq!(reg.len(), 1);
    match &reg[0].asset {
        Asset::Texture(t) => {
            assert_eq!((t.width, t.height), (1, 1));
            assert_eq!(t.data, vec![255, 0, 0, 255]);
        }
        _ => panic!("not a texture"),
    }
}

#[test]
fn bad_bitmap_fails_the_load() {
    let mut reg = Vec::new();
    assert_eq!(load_bmp(&mut reg, "bad.bmp", &[1, 2, 3]), None);
    assert!(reg.is_empty());
    let entries = vec![
        ArchiveEntry { name: "readme.txt".to_string(), content: EntryContent::Other },
        ArchiveEntry { name: "bad.bmp".to_string(), content: EntryContent::Bitmap(vec![1, 2, 3]) },
    ];
    match load_eq_archive(&entries) {
        Err(e) => assert_eq!(e, LoadError::Bitmap("bad.bmp".to_string())),
        Ok(_) => panic!("load should fail"),
    }
}

#[test]
fn single_bitmap_archive() {
    let entries = vec![ArchiveEntry {
        name: "tex.bmp".to_string(),
        content: EntryContent::Bitmap(red_pixel_bmp()),
    }];
    let load = load_eq_archive(&entries).unwrap();
    assert_eq!(load.archive.named_sources.len(), 1);
    assert_eq!(load.archive.named_sources[0].name, "tex.bmp");
    assert_eq!(load.archive.named_sources[0].label, "Texture[tex.bmp]");
    assert!(load.archive.named_wlds.is_empty());
}

#[test]
fn world_with_present_texture() {
    let mut reg = Vec::new();
    let textures = vec!["T1".to_string()];
    let label = load_wld(&mut reg, "z1.wld", &one_mesh_world(), &textures);
    assert_eq!(label, "World[z1.wld]");
    let wld = match &reg.last().unwrap().asset {
        Asset::World(w) => w,
        _ => panic!("not a world"),
    };
    assert_eq!(wld.named_materials.len(), 1);
    assert_eq!(wld.named_materials[0].name, "M1");
    assert_eq!(wld.named_materials[0].label, "World[z1.wld]/Material[M1]");
    assert_eq!(wld.materials, vec!["World[z1.wld]/Material[M1]".to_string()]);
    assert_eq!(wld.named_meshes.len(), 1);
    assert_eq!(wld.named_meshes[0].name, "World[z1.wld]/Mesh[Mesh1]");
    let mesh = reg
        .iter()
        .find(|a| a.label == "World[z1.wld]/Mesh[Mesh1]")
        .map(|a| match &a.asset {
            Asset::Mesh(m) => m,
            _ => panic!("not a mesh"),
        })
        .unwrap();
    assert_eq!(mesh.primitives.len(), 1);
    assert_eq!(mesh.primitives[0].mesh, "World[z1.wld]/Mesh[Mesh1]/Primitive[0]");
    assert_eq!(mesh.primitives[0].material, "World[z1.wld]/Material[M1]");
    let scene = reg
        .iter()
        .find(|a| a.label == "World[z1.wld]/Map")
        .map(|a| match &a.asset {
            Asset::Scene(s) => s,
            _ => panic!("not a scene"),
        })
        .unwrap();
    assert_eq!(scene.children.len(), 1);
    assert_eq!(scene.children[0].translation, [1, 2, 3]);
    assert_eq!(scene.children[0].children.len(), 1);
    assert_eq!(
        labels(&reg),
        vec![
            "World[z1.wld]/Material[M1]",
            "World[z1.wld]/Mesh[Mesh1]/Primitive[0]",
            "World[z1.wld]/Mesh[Mesh1]",
            "World[z1.wld]/Map",
            "World[z1.wld]",
        ]
    );
}

#[test]
fn world_with_missing_texture() {
    let mut reg = Vec::new();
    let textures: Vec<String> = vec![];
    load_wld(&mut reg, "z1.wld", &one_mesh_world(), &textures);
    let wld = match &reg.last().unwrap().asset {
        Asset::World(w) => w,
        _ => panic!("not a world"),
    };
    assert!(wld.named_materials.is_empty());
    assert!(wld.materials.is_empty());
    let mesh = reg
        .iter()
        .find(|a| a.label == "World[z1.wld]/Mesh[Mesh1]")
        .map(|a| match &a.asset {
            Asset::Mesh(m) => m,
            _ => panic!("not a mesh"),
        })
        .unwrap();
    assert!(mesh.primitives.is_empty());
    let scene = reg
        .iter()
        .find(|a| a.label == "World[z1.wld]/Map")
        .map(|a| match &a.asset {
            Asset::Scene(s) => s,
            _ => panic!("not a scene"),
        })
        .unwrap();
    assert_eq!(scene.children.len(), 1);
    assert!(scene.children[0].children.is_empty());
}

#[test]
fn unknown_entry_is_skipped() {
    let entries = vec![
        ArchiveEntry { name: "readme.txt".to_string(), content: EntryContent::Bitmap(vec![1, 2]) },
        ArchiveEntry { name: "tex.bmp".to_string(), content: EntryContent::Bitmap(red_pixel_bmp()) },
    ];
    let load = load_eq_archive(&entries).unwrap();
    assert_eq!(load.archive.named_sources.len(), 1);
    assert_eq!(load.archive.named_sources[0].name, "tex.bmp");
    assert!(load.archive.named_wlds.is_empty());
    assert!(labels(&load.assets).iter().all(|l| !l.contains("readme")));
}

#[test]
fn mesh_list_and_scene_leaves_agree() {
    let mut reg = Vec::new();
    let textures = vec!["T1".to_string()];
    let world = one_mesh_world();
    let (_, named) =
        eq_assets::world::load_materials(&mut reg, "z1.wld", &world.materials, &textures);
    let m = MeshDesc {
        name: Some("Mesh1".to_string()),
        center: [0, 0, 0],
        primitives: vec![
            primitive(0, Some("M1")),
            primitive(1, Some("missing")),
            primitive(2, None),
            primitive(3, Some("M1")),
        ],
    };
    let node = load_mesh(&mut reg, "z1.wld", &m, &named);
    let mesh = match &reg.last().unwrap().asset {
        Asset::Mesh(m) => m,
        _ => panic!("not a mesh"),
    };
    let leaves: Vec<String> = node.children.iter().map(|p| p.mesh.clone()).collect();
    let listed: Vec<String> = mesh.primitives.iter().map(|p| p.mesh.clone()).collect();
    assert_eq!(leaves, listed);
    assert_eq!(
        leaves,
        vec!["World[z1.wld]/Mesh[Mesh1]/Primitive[0]", "World[z1.wld]/Mesh[Mesh1]/Primitive[3]"]
    );
}

#[test]
fn geometry_omits_empty_uvs() {
    let g = build_geometry(&primitive(0, None));
    assert!(g.uvs.is_none());
    assert_eq!(g.positions, vec![[0, 0, 0], [1, 0, 0], [0, 1, 0]]);
    assert_eq!(g.indices, vec![0, 1, 2]);
    let mut p = primitive(0, None);
    p.uvs = vec![[5, 6], [7, 8], [9, 10]];
    assert_eq!(build_geometry(&p).uvs, Some(vec![[5, 6], [7, 8], [9, 10]]));
}

fn full_archive() -> Vec<ArchiveEntry> {
    vec![
        ArchiveEntry { name: "T1".to_string(), content: EntryContent::Other },
        ArchiveEntry { name: "t1.bmp".to_string(), content: EntryContent::Bitmap(red_pixel_bmp()) },
        ArchiveEntry {
            name: "z1.wld".to_string(),
            content: EntryContent::World(WorldDesc {
                materials: vec![
                    MaterialDesc { name: Some("M1".to_string()), texture: Some("t1.bmp".to_string()) },
                    MaterialDesc { name: Some("M2".to_string()), texture: Some("nope.bmp".to_string()) },
                ],
                meshes: vec![
                    MeshDesc {
                        name: Some("A".to_string()),
                        center: [0, 0, 0],
                        primitives: vec![primitive(0, Some("M1")), primitive(1, Some("M2"))],
                    },
                    MeshDesc {
                        name: Some("B".to_string()),
                        center: [0, 0, 0],
                        primitives: vec![primitive(0, Some("M1"))],
                    },
                ],
            }),
        },
    ]
}

#[test]
fn labels_are_unique_in_a_load() {
    let load = load_eq_archive(&full_archive()).unwrap();
    let mut ls = labels(&load.assets);
    let n = ls.len();
    ls.sort();
    ls.dedup();
    assert_eq!(ls.len(), n);
    assert_eq!(n, 8);
}

#[test]
fn loading_twice_gives_the_same_labels() {
    let a = load_eq_archive(&full_archive()).unwrap();
    let b = load_eq_archive(&full_archive()).unwrap();
    assert_eq!(labels(&a.assets), labels(&b.assets));
    assert_eq!(a.archive.named_wlds.len(), 1);
    assert_eq!(a.archive.named_wlds[0].label, b.archive.named_wlds[0].label);
}

#[test]
fn missing_texture_material_is_not_used() {
    let load = load_eq_archive(&full_archive()).unwrap();
    let ls = labels(&load.assets);
    assert!(ls.contains(&"World[z1.wld]/Material[M1]".to_string()));
    assert!(!ls.contains(&"World[z1.wld]/Material[M2]".to_string()));
    assert!(!ls.contains(&"World[z1.wld]/Mesh[A]/Primitive[1]".to_string()));
    for a in &load.assets {
        if let Asset::Mesh(m) = &a.asset {
            assert!(m.primitives.iter().all(|p| p.material != "World[z1.wld]/Material[M2]"));
        }
    }
}

#[test]
fn texture_type_is_the_last_segment() {
    let entries = vec![ArchiveEntry {
        name: "a.b.bmp".to_string(),
        content: EntryContent::Bitmap(red_pixel_bmp()),
    }];
    let load = load_eq_archive(&entries).unwrap();
    assert_eq!(load.archive.named_sources.len(), 1);
    assert_eq!(load.archive.named_sources[0].label, "Texture[a.b.bmp]");
}

#[test]
fn first_failing_entry_names_the_error() {
    let entries = vec![
        ArchiveEntry { name: "z1.wld".to_string(), content: EntryContent::BrokenWorld },
        ArchiveEntry { name: "bad.bmp".to_string(), content: EntryContent::Bitmap(vec![1, 2, 3]) },
    ];
    match load_eq_archive(&entries) {
        Err(e) => assert_eq!(e, LoadError::World("z1.wld".to_string())),
        Ok(_) => panic!("load should fail"),
    }
}

#[test]
fn missing_texture_world_in_an_archive() {
    let entries = vec![ArchiveEntry {
        name: "z1.wld".to_string(),
        content: EntryContent::World(one_mesh_world()),
    }];
    let load = load_eq_archive(&entries).unwrap();
    assert_eq!(load.archive.named_wlds.len(), 1);
    for a in &load.assets {
        match &a.asset {
            Asset::World(w) => assert!(w.named_materials.is_empty() && w.materials.is_empty()),
            Asset::Mesh(m) => assert!(m.primitives.is_empty()),
            Asset::Scene(s) => {
                assert_eq!(s.children.len(), 1);
                assert!(s.children[0].children.is_empty());
            }
            Asset::Material(_) | Asset::Geometry(_) | Asset::Texture(_) => panic!("unexpected asset"),
        }
    }
}
