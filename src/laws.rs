use vstd::prelude::*;
use crate::archive::{
    ArchiveEntry, ArchiveLoad, EntryKind, archive_expected, archive_matches, archive_registry_labels,
    entry_kind_spec, is_texture_entry, is_world_entry, texture_names, world_names,
};
use crate::asset::{Asset, labels_of, nameds, prims, strs};
use crate::label::{decimal, digit_char, material_label_spec, primitive_label_spec};
use crate::world::{
    Expected, meets,
    PrimitiveDesc, WorldDesc, kept_primitives, material_kept, name_or_empty, named_materials_spec,
    primitive_kept, resolves,
};

verus! {

proof fn lemma_middle(a: Seq<char>, x: Seq<char>, y: Seq<char>, b: Seq<char>)
    requires
        a + x + b == a + y + b,
    ensures
        x == y,
{
    assert((a + x + b).len() == a.len() + x.len() + b.len());
    assert((a + y + b).len() == a.len() + y.len() + b.len());
    assert(x.len() == y.len());
    assert(x =~= (a + x + b).subrange(a.len() as int, (a.len() + x.len()) as int));
    assert(y =~= (a + y + b).subrange(a.len() as int, (a.len() + y.len()) as int));
}

/// Within one world, material labels differ when the names do.
pub proof fn lemma_material_label_injective(w: Seq<char>, n1: Seq<char>, n2: Seq<char>)
    requires
        material_label_spec(w, n1) == material_label_spec(w, n2),
    ensures
        n1 == n2,
{
    let a = "World["@ + w + "]"@ + "/Material["@;
    assert(material_label_spec(w, n1) =~= a + n1 + "]"@);
    assert(material_label_spec(w, n2) =~= a + n2 + "]"@);
    lemma_middle(a, n1, n2, "]"@);
}

proof fn lemma_digit_injective(a: nat, b: nat)
    requires
        a < 10,
        b < 10,
        digit_char(a) == digit_char(b),
    ensures
        a == b,
{
}

proof fn lemma_decimal_len(n: nat)
    ensures
        decimal(n).len() >= 1,
        n >= 10 ==> decimal(n).len() >= 2,
    decreases n,
{
    if n >= 10 {
        lemma_decimal_len(n / 10);
    }
}

/// Different numbers have different decimal digits.
pub proof fn lemma_decimal_injective(a: nat, b: nat)
    requires
        decimal(a) == decimal(b),
    ensures
        a == b,
    decreases a,
{
    lemma_decimal_len(a);
    lemma_decimal_len(b);
    if a < 10 && b < 10 {
        assert(decimal(a)[0] == digit_char(a));
        assert(decimal(b)[0] == digit_char(b));
        lemma_digit_injective(a, b);
    } else if a >= 10 && b >= 10 {
        let da = decimal(a);
        let db = decimal(b);
        assert(da.last() == digit_char(a % 10));
        assert(db.last() == digit_char(b % 10));
        lemma_digit_injective(a % 10, b % 10);
        assert(da.drop_last() =~= decimal(a / 10));
        assert(db.drop_last() =~= decimal(b / 10));
        lemma_decimal_injective(a / 10, b / 10);
        assert(a == 10 * (a / 10) + a % 10);
        assert(b == 10 * (b / 10) + b % 10);
    }
}

/// Within one mesh, primitive labels differ when the indices do.
pub proof fn lemma_primitive_label_injective(w: Seq<char>, m: Seq<char>, i1: nat, i2: nat)
    requires
        primitive_label_spec(w, m, i1) == primitive_label_spec(w, m, i2),
    ensures
        i1 == i2,
{
    let a = "World["@ + w + "]"@ + "/Mesh["@ + m + "]"@ + "/Primitive["@;
    assert(primitive_label_spec(w, m, i1) =~= a + decimal(i1) + "]"@);
    assert(primitive_label_spec(w, m, i2) =~= a + decimal(i2) + "]"@);
    lemma_middle(a, decimal(i1), decimal(i2), "]"@);
    lemma_decimal_injective(i1, i2);
}

/// Every entry of a world's material table is a built material's name and label.
pub proof fn lemma_named_materials_source(
    w: Seq<char>,
    ms: Seq<crate::world::MaterialDesc>,
    t: Seq<Seq<char>>,
    i: int,
)
    requires
        0 <= i < named_materials_spec(w, ms, t).len(),
    ensures
        exists|j: int|
            0 <= j < ms.len() && material_kept(#[trigger] ms[j], t) && named_materials_spec(w, ms, t)[i]
                == (ms[j].name->Some_0@, material_label_spec(w, ms[j].name->Some_0@)),
    decreases ms.len(),
{
    let prev = named_materials_spec(w, ms.drop_last(), t);
    if i < prev.len() {
        lemma_named_materials_source(w, ms.drop_last(), t, i);
        let j = choose|j: int|
            0 <= j < ms.drop_last().len() && material_kept(#[trigger] ms.drop_last()[j], t)
                && prev[i] == (ms.drop_last()[j].name->Some_0@, material_label_spec(
                w,
                ms.drop_last()[j].name->Some_0@,
            ));
        assert(ms[j] == ms.drop_last()[j]);
    } else {
        assert(ms[ms.len() - 1] == ms.last());
    }
}

/// Every primitive a mesh keeps is one of its primitives whose material resolves.
pub proof fn lemma_kept_primitive_source(
    w: Seq<char>,
    mesh: Seq<char>,
    ps: Seq<PrimitiveDesc>,
    named: Seq<(Seq<char>, Seq<char>)>,
    i: int,
)
    requires
        0 <= i < kept_primitives(w, mesh, ps, named).len(),
    ensures
        exists|j: int|
            0 <= j < ps.len() && primitive_kept(#[trigger] ps[j], named) && kept_primitives(
                w,
                mesh,
                ps,
                named,
            )[i] == (primitive_label_spec(w, mesh, ps[j].index as nat), material_label_spec(
                w,
                ps[j].material->Some_0@,
            )),
    decreases ps.len(),
{
    let prev = kept_primitives(w, mesh, ps.drop_last(), named);
    if i < prev.len() {
        lemma_kept_primitive_source(w, mesh, ps.drop_last(), named, i);
        let j = choose|j: int|
            0 <= j < ps.drop_last().len() && primitive_kept(#[trigger] ps.drop_last()[j], named)
                && prev[i] == (primitive_label_spec(w, mesh, ps.drop_last()[j].index as nat),
                material_label_spec(w, ps.drop_last()[j].material->Some_0@));
        assert(ps[j] == ps.drop_last()[j]);
    } else {
        assert(ps[ps.len() - 1] == ps.last());
    }
}

/// A material whose texture the archive does not hold is in neither the
/// ordered nor the named materials of its world, and no primitive of any
/// mesh of the world is drawn with it.
pub proof fn lemma_missing_texture_omits_material(
    w: Seq<char>,
    d: WorldDesc,
    textures: Seq<Seq<char>>,
    k: int,
)
    requires
        0 <= k < d.materials@.len(),
        d.materials@[k].name is Some,
        d.materials@[k].texture is Some,
        !textures.contains(d.materials@[k].texture->Some_0@),
        forall|i: int, j: int|
            0 <= i < j < d.materials@.len() && d.materials@[i].name is Some
                && d.materials@[j].name is Some ==> d.materials@[i].name->Some_0@
                != d.materials@[j].name->Some_0@,
    ensures
        ({
            let named = named_materials_spec(w, d.materials@, textures);
            let n = d.materials@[k].name->Some_0@;
            let l = material_label_spec(w, n);
            &&& !resolves(named, n)
            &&& !named.map_values(|p: (Seq<char>, Seq<char>)| p.1).contains(l)
            &&& forall|mi: int|
                0 <= mi < d.meshes@.len() ==> !(#[trigger] kept_primitives(
                    w,
                    name_or_empty(d.meshes@[mi].name),
                    d.meshes@[mi].primitives@,
                    named,
                )).map_values(|p: (Seq<char>, Seq<char>)| p.1).contains(l)
        }),
{
    let ms = d.materials@;
    let named = named_materials_spec(w, ms, textures);
    let n = ms[k].name->Some_0@;
    let l = material_label_spec(w, n);
    assert forall|i: int| 0 <= i < named.len() implies named[i].0 != n && named[i].1 != l by {
        lemma_named_materials_source(w, ms, textures, i);
        let j = choose|j: int|
            0 <= j < ms.len() && material_kept(#[trigger] ms[j], textures) && named[i] == (
            ms[j].name->Some_0@, material_label_spec(w, ms[j].name->Some_0@));
        if named[i].1 == l {
            lemma_material_label_injective(w, ms[j].name->Some_0@, n);
        }
        if j != k {
            assert(ms[j].name->Some_0@ != n);
        }
    }
    let labels = named.map_values(|p: (Seq<char>, Seq<char>)| p.1);
    if labels.contains(l) {
        let i = choose|i: int| 0 <= i < labels.len() && labels[i] == l;
        assert(named[i].1 == l);
    }
    assert forall|mi: int| 0 <= mi < d.meshes@.len() implies !(#[trigger] kept_primitives(
        w,
        name_or_empty(d.meshes@[mi].name),
        d.meshes@[mi].primitives@,
        named,
    )).map_values(|p: (Seq<char>, Seq<char>)| p.1).contains(l) by {
        let mesh = name_or_empty(d.meshes@[mi].name);
        let ps = d.meshes@[mi].primitives@;
        let kept = kept_primitives(w, mesh, ps, named);
        let kl = kept.map_values(|p: (Seq<char>, Seq<char>)| p.1);
        if kl.contains(l) {
            let i = choose|i: int| 0 <= i < kl.len() && kl[i] == l;
            lemma_kept_primitive_source(w, mesh, ps, named, i);
            let j = choose|j: int|
                0 <= j < ps.len() && primitive_kept(#[trigger] ps[j], named) && kept[i] == (
                primitive_label_spec(w, mesh, ps[j].index as nat),
                material_label_spec(w, ps[j].material->Some_0@),
            );
            lemma_material_label_injective(w, ps[j].material->Some_0@, n);
        }
    }
}

/// A primitive whose material does not resolve is not among the primitives
/// its mesh keeps, which are both the mesh's primitive list and the leaves
/// of its scene node.
pub proof fn lemma_omitted_primitive_absent(
    w: Seq<char>,
    mesh: Seq<char>,
    ps: Seq<PrimitiveDesc>,
    named: Seq<(Seq<char>, Seq<char>)>,
    k: int,
)
    requires
        0 <= k < ps.len(),
        !primitive_kept(ps[k], named),
        forall|i: int, j: int| 0 <= i < j < ps.len() ==> ps[i].index != ps[j].index,
    ensures
        !kept_primitives(w, mesh, ps, named).map_values(|p: (Seq<char>, Seq<char>)| p.0).contains(
            primitive_label_spec(w, mesh, ps[k].index as nat),
        ),
{
    let kept = kept_primitives(w, mesh, ps, named);
    let kl = kept.map_values(|p: (Seq<char>, Seq<char>)| p.0);
    let l = primitive_label_spec(w, mesh, ps[k].index as nat);
    if kl.contains(l) {
        let i = choose|i: int| 0 <= i < kl.len() && kl[i] == l;
        lemma_kept_primitive_source(w, mesh, ps, named, i);
        let j = choose|j: int|
            0 <= j < ps.len() && primitive_kept(#[trigger] ps[j], named) && kept[i] == (
            primitive_label_spec(w, mesh, ps[j].index as nat),
            material_label_spec(w, ps[j].material->Some_0@),
        );
        lemma_primitive_label_injective(w, mesh, ps[j].index as nat, ps[k].index as nat);
        if j < k {
            assert(ps[j].index != ps[k].index);
        } else if k < j {
            assert(ps[k].index != ps[j].index);
        }
    }
}

/// Whether two assets are of one kind and hold the same values.
pub open spec fn same_content(a: Asset, b: Asset) -> bool {
    match (a, b) {
        (Asset::Texture(x), Asset::Texture(y)) => x.width == y.width && x.height == y.height
            && x.data@ == y.data@ && x.wrap_u == y.wrap_u && x.wrap_v == y.wrap_v,
        (Asset::Material(x), Asset::Material(y)) => x.texture@ == y.texture@ && x.unlit == y.unlit,
        (Asset::Geometry(x), Asset::Geometry(y)) => {
            &&& x.positions@ == y.positions@
            &&& x.normals@ == y.normals@
            &&& x.indices@ == y.indices@
            &&& x.uvs is None <==> y.uvs is None
            &&& x.uvs is Some ==> x.uvs->Some_0@ == y.uvs->Some_0@
        },
        (Asset::Mesh(x), Asset::Mesh(y)) => prims(x.primitives@) == prims(y.primitives@),
        (Asset::Scene(x), Asset::Scene(y)) => {
            &&& x.children@.len() == y.children@.len()
            &&& forall|i: int|
                0 <= i < x.children@.len() ==> {
                    let n = #[trigger] x.children@[i];
                    let m = y.children@[i];
                    &&& n.translation == m.translation
                    &&& n.mesh@ == m.mesh@
                    &&& prims(n.children@) == prims(m.children@)
                }
        },
        (Asset::World(x), Asset::World(y)) => {
            &&& strs(x.meshes@) == strs(y.meshes@)
            &&& nameds(x.named_meshes@) == nameds(y.named_meshes@)
            &&& strs(x.materials@) == strs(y.materials@)
            &&& nameds(x.named_materials@) == nameds(y.named_materials@)
            &&& x.scene@ == y.scene@
        },
        _ => false,
    }
}

proof fn lemma_meets_determines(a: crate::asset::LabeledAsset, b: crate::asset::LabeledAsset, x: Expected)
    requires
        meets(a, x),
        meets(b, x),
    ensures
        same_content(a.asset, b.asset),
{
    match x {
        Expected::Scene(w, ms, named) => {
            let sa = a.asset->Scene_0;
            let sb = b.asset->Scene_0;
            assert forall|i: int| 0 <= i < sa.children@.len() implies {
                let n = #[trigger] sa.children@[i];
                let m = sb.children@[i];
                &&& n.translation == m.translation
                &&& n.mesh@ == m.mesh@
                &&& prims(n.children@) == prims(m.children@)
            } by {}
        },
        _ => {},
    }
}

/// Loading the same entries twice registers the same labels, in the same
/// order, each with the same contents, and gives the same name tables.
pub proof fn lemma_load_deterministic(es: Seq<ArchiveEntry>, r1: ArchiveLoad, r2: ArchiveLoad)
    requires
        archive_matches(r1, es),
        archive_matches(r2, es),
    ensures
        labels_of(r1.assets@) == labels_of(r2.assets@),
        r1.assets@.len() == r2.assets@.len(),
        forall|k: int|
            0 <= k < r1.assets@.len() ==> same_content(
                (#[trigger] r1.assets@[k]).asset,
                r2.assets@[k].asset,
            ),
        nameds(r1.archive.named_sources@) == nameds(r2.archive.named_sources@),
        nameds(r1.archive.named_wlds@) == nameds(r2.archive.named_wlds@),
{
    let x = archive_expected(es, texture_names(es));
    assert forall|k: int| 0 <= k < r1.assets@.len() implies same_content(
        (#[trigger] r1.assets@[k]).asset,
        r2.assets@[k].asset,
    ) by {
        lemma_meets_determines(r1.assets@[k], r2.assets@[k], x[k]);
    }
}

proof fn lemma_skip_entry(
    a: Seq<ArchiveEntry>,
    e: ArchiveEntry,
    b: Seq<ArchiveEntry>,
    t: Seq<Seq<char>>,
)
    requires
        !is_texture_entry(e),
        !is_world_entry(e),
    ensures
        texture_names(a + seq![e] + b) == texture_names(a + b),
        world_names(a + seq![e] + b) == world_names(a + b),
        archive_registry_labels(a + seq![e] + b, t) == archive_registry_labels(a + b, t),
        archive_expected(a + seq![e] + b, t) == archive_expected(a + b, t),
    decreases b.len(),
{
    let x = a + seq![e] + b;
    let y = a + b;
    if b.len() == 0 {
        assert(x.drop_last() =~= a);
        assert(x.last() == e);
        assert(y =~= a);
    } else {
        lemma_skip_entry(a, e, b.drop_last(), t);
        assert(x.drop_last() =~= a + seq![e] + b.drop_last());
        assert(y.drop_last() =~= a + b.drop_last());
        assert(x.last() == b.last());
        assert(y.last() == b.last());
    }
}

/// An entry of an unknown type changes nothing: loading the archive with it
/// and without it registers the same labels with the same contents and gives
/// the same name tables.
pub proof fn lemma_unknown_entry_ignored(
    a: Seq<ArchiveEntry>,
    e: ArchiveEntry,
    b: Seq<ArchiveEntry>,
    r1: ArchiveLoad,
    r2: ArchiveLoad,
)
    requires
        entry_kind_spec(e.name@) == EntryKind::Unknown,
        archive_matches(r1, a + seq![e] + b),
        archive_matches(r2, a + b),
    ensures
        labels_of(r1.assets@) == labels_of(r2.assets@),
        r1.assets@.len() == r2.assets@.len(),
        forall|k: int|
            0 <= k < r1.assets@.len() ==> same_content(
                (#[trigger] r1.assets@[k]).asset,
                r2.assets@[k].asset,
            ),
        nameds(r1.archive.named_sources@) == nameds(r2.archive.named_sources@),
        nameds(r1.archive.named_wlds@) == nameds(r2.archive.named_wlds@),
{
    let x = a + seq![e] + b;
    let y = a + b;
    lemma_skip_entry(a, e, b, texture_names(y));
    let xs = archive_expected(y, texture_names(y));
    assert forall|k: int| 0 <= k < r1.assets@.len() implies same_content(
        (#[trigger] r1.assets@[k]).asset,
        r2.assets@[k].asset,
    ) by {
        lemma_meets_determines(r1.assets@[k], r2.assets@[k], xs[k]);
    }
}

} // verus!
