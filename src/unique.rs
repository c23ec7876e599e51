use vstd::prelude::*;
use crate::label::{
    decimal, material_label_spec, texture_label_spec, mesh_label_spec, plain_name, primitive_label_spec, scene_label_spec,
    wld_label_spec,
};
use crate::archive::{
    ArchiveEntry, ArchiveLoad, archive_matches, archive_registry_labels, is_texture_entry,
    is_world_entry, texture_names,
};
use crate::asset::labels_of;
use crate::laws::{
    lemma_kept_primitive_source, lemma_material_label_injective, lemma_named_materials_source,
    lemma_primitive_label_injective,
};
use crate::world::{
    MaterialDesc, MeshDesc, PrimitiveDesc, WorldDesc, kept_primitives, material_kept,
    named_materials_spec, world_registry_labels, mesh_registry_labels, meshes_registry_labels,
    name_or_empty,
};

verus! {

/// No label occurs twice.
pub open spec fn distinct(s: Seq<Seq<char>>) -> bool {
    forall|i: int, j: int| 0 <= i < j < s.len() ==> s[i] != s[j]
}

proof fn lemma_distinct_concat(a: Seq<Seq<char>>, b: Seq<Seq<char>>)
    requires
        distinct(a),
        distinct(b),
        forall|i: int, j: int| 0 <= i < a.len() && 0 <= j < b.len() ==> a[i] != b[j],
    ensures
        distinct(a + b),
{
    let s = a + b;
    assert forall|i: int, j: int| 0 <= i < j < s.len() implies s[i] != s[j] by {
        if j < a.len() {
            assert(s[i] == a[i] && s[j] == a[j]);
        } else if i < a.len() {
            assert(s[i] == a[i] && s[j] == b[j - a.len()]);
        } else {
            assert(s[i] == b[i - a.len()] && s[j] == b[j - a.len()]);
        }
    }
}

/// Two names that end at the first `c` are equal, and so is what follows.
proof fn lemma_split(p: Seq<char>, q: Seq<char>, x: Seq<char>, y: Seq<char>, c: char)
    requires
        p + seq![c] + x == q + seq![c] + y,
        forall|i: int| 0 <= i < p.len() ==> p[i] != c,
        forall|i: int| 0 <= i < q.len() ==> q[i] != c,
    ensures
        p == q,
        x == y,
{
    let s = p + seq![c] + x;
    let t = q + seq![c] + y;
    if p.len() < q.len() {
        assert(s[p.len() as int] == c);
        assert(t[p.len() as int] == q[p.len() as int]);
    } else if q.len() < p.len() {
        assert(t[q.len() as int] == c);
        assert(s[q.len() as int] == p[q.len() as int]);
    }
    assert(p =~= s.subrange(0, p.len() as int));
    assert(q =~= t.subrange(0, q.len() as int));
    assert(x =~= s.subrange((p.len() + 1) as int, s.len() as int));
    assert(y =~= t.subrange((q.len() + 1) as int, t.len() as int));
}

proof fn lemma_cancel_left(a: Seq<char>, x: Seq<char>, y: Seq<char>)
    requires
        a + x == a + y,
    ensures
        x == y,
{
    assert(x =~= (a + x).subrange(a.len() as int, (a + x).len() as int));
    assert(y =~= (a + y).subrange(a.len() as int, (a + y).len() as int));
}

/// A label below a world names that world alone.
pub proof fn lemma_world_owner(w1: Seq<char>, w2: Seq<char>, x1: Seq<char>, x2: Seq<char>)
    requires
        plain_name(w1),
        plain_name(w2),
        wld_label_spec(w1) + x1 == wld_label_spec(w2) + x2,
    ensures
        w1 == w2,
        x1 == x2,
{
    reveal_strlit("]");
    let a = "World["@;
    assert(wld_label_spec(w1) + x1 =~= a + (w1 + seq![']'] + x1));
    assert(wld_label_spec(w2) + x2 =~= a + (w2 + seq![']'] + x2));
    lemma_cancel_left(a, w1 + seq![']'] + x1, w2 + seq![']'] + x2);
    lemma_split(w1, w2, x1, x2, ']');
}

/// A label below a mesh names that mesh alone.
pub proof fn lemma_mesh_owner(
    w: Seq<char>,
    m1: Seq<char>,
    m2: Seq<char>,
    x1: Seq<char>,
    x2: Seq<char>,
)
    requires
        plain_name(m1),
        plain_name(m2),
        mesh_label_spec(w, m1) + x1 == mesh_label_spec(w, m2) + x2,
    ensures
        m1 == m2,
        x1 == x2,
{
    reveal_strlit("]");
    let a = wld_label_spec(w) + "/Mesh["@;
    assert(mesh_label_spec(w, m1) + x1 =~= a + (m1 + seq![']'] + x1));
    assert(mesh_label_spec(w, m2) + x2 =~= a + (m2 + seq![']'] + x2));
    lemma_cancel_left(a, m1 + seq![']'] + x1, m2 + seq![']'] + x2);
    lemma_split(m1, m2, x1, x2, ']');
}

/// Whether `l` starts with `base`.
pub open spec fn has_prefix(l: Seq<char>, base: Seq<char>) -> bool {
    base.len() <= l.len() && l.subrange(0, base.len() as int) == base
}

proof fn lemma_prefix_split(l: Seq<char>, base: Seq<char>)
    requires
        has_prefix(l, base),
    ensures
        l == base + l.subrange(base.len() as int, l.len() as int),
{
    assert(l =~= base + l.subrange(base.len() as int, l.len() as int));
}

/// A label that lies below two meshes of a world lies below one mesh.
pub proof fn lemma_mesh_prefix_owner(l: Seq<char>, w: Seq<char>, m1: Seq<char>, m2: Seq<char>)
    requires
        plain_name(m1),
        plain_name(m2),
        has_prefix(l, mesh_label_spec(w, m1)),
        has_prefix(l, mesh_label_spec(w, m2)),
    ensures
        m1 == m2,
{
    lemma_prefix_split(l, mesh_label_spec(w, m1));
    lemma_prefix_split(l, mesh_label_spec(w, m2));
    lemma_mesh_owner(
        w,
        m1,
        m2,
        l.subrange(mesh_label_spec(w, m1).len() as int, l.len() as int),
        l.subrange(mesh_label_spec(w, m2).len() as int, l.len() as int),
    );
}

/// A label that lies below two worlds lies below one world.
pub proof fn lemma_world_prefix_owner(l: Seq<char>, w1: Seq<char>, w2: Seq<char>)
    requires
        plain_name(w1),
        plain_name(w2),
        has_prefix(l, wld_label_spec(w1)),
        has_prefix(l, wld_label_spec(w2)),
    ensures
        w1 == w2,
{
    lemma_prefix_split(l, wld_label_spec(w1));
    lemma_prefix_split(l, wld_label_spec(w2));
    lemma_world_owner(
        w1,
        w2,
        l.subrange(wld_label_spec(w1).len() as int, l.len() as int),
        l.subrange(wld_label_spec(w2).len() as int, l.len() as int),
    );
}

proof fn lemma_primitive_below_mesh(w: Seq<char>, m: Seq<char>, i: nat)
    ensures
        has_prefix(primitive_label_spec(w, m, i), mesh_label_spec(w, m)),
        primitive_label_spec(w, m, i).len() > mesh_label_spec(w, m).len(),
{
    let l = primitive_label_spec(w, m, i);
    let b = mesh_label_spec(w, m);
    assert(l =~= b + ("/Primitive["@ + decimal(i) + "]"@));
    assert(l.subrange(0, b.len() as int) =~= b);
    reveal_strlit("]");
}

/// The primitives a mesh keeps have distinct labels when their indices differ.
proof fn lemma_kept_distinct(
    w: Seq<char>,
    mesh: Seq<char>,
    ps: Seq<PrimitiveDesc>,
    named: Seq<(Seq<char>, Seq<char>)>,
)
    requires
        forall|i: int, j: int| 0 <= i < j < ps.len() ==> ps[i].index != ps[j].index,
    ensures
        distinct(kept_primitives(w, mesh, ps, named).map_values(|p: (Seq<char>, Seq<char>)| p.0)),
    decreases ps.len(),
{
    if ps.len() > 0 {
        let prev_ps = ps.drop_last();
        assert forall|i: int, j: int| 0 <= i < j < prev_ps.len() implies prev_ps[i].index
            != prev_ps[j].index by {
            assert(prev_ps[i] == ps[i] && prev_ps[j] == ps[j]);
        }
        lemma_kept_distinct(w, mesh, prev_ps, named);
        let prev = kept_primitives(w, mesh, prev_ps, named);
        let pl = prev.map_values(|p: (Seq<char>, Seq<char>)| p.0);
        let all = kept_primitives(w, mesh, ps, named).map_values(|p: (Seq<char>, Seq<char>)| p.0);
        let last = ps.last();
        let ll = primitive_label_spec(w, mesh, last.index as nat);
        assert forall|i: int| 0 <= i < pl.len() implies pl[i] != ll by {
            lemma_kept_primitive_source(w, mesh, prev_ps, named, i);
            let j = choose|j: int|
                0 <= j < prev_ps.len() && crate::world::primitive_kept(#[trigger] prev_ps[j], named)
                    && prev[i] == (primitive_label_spec(w, mesh, prev_ps[j].index as nat),
                    crate::label::material_label_spec(w, prev_ps[j].material->Some_0@));
            if pl[i] == ll {
                lemma_primitive_label_injective(w, mesh, prev_ps[j].index as nat, last.index as nat);
                assert(ps[j].index != ps[ps.len() - 1].index);
            }
        }
        if all.len() > pl.len() {
            assert(all =~= pl.push(ll));
        } else {
            assert(all =~= pl);
        }
    }
}

/// Primitive indices differ within each mesh.
pub open spec fn indices_distinct(m: MeshDesc) -> bool {
    forall|a: int, b: int|
        0 <= a < b < m.primitives@.len() ==> m.primitives@[a].index != m.primitives@[b].index
}

/// Mesh names are plain and differ within the world.
pub open spec fn meshes_well_named(ms: Seq<MeshDesc>) -> bool {
    &&& forall|j: int| 0 <= j < ms.len() ==> plain_name(name_or_empty(#[trigger] ms[j].name))
    &&& forall|i: int, j: int|
        0 <= i < j < ms.len() ==> name_or_empty(ms[i].name) != name_or_empty(ms[j].name)
    &&& forall|j: int| 0 <= j < ms.len() ==> indices_distinct(#[trigger] ms[j])
}

proof fn lemma_mesh_block(w: Seq<char>, m: MeshDesc, named: Seq<(Seq<char>, Seq<char>)>)
    requires
        indices_distinct(m),
    ensures
        distinct(mesh_registry_labels(w, m, named)),
        forall|k: int|
            0 <= k < mesh_registry_labels(w, m, named).len() ==> has_prefix(
                #[trigger] mesh_registry_labels(w, m, named)[k],
                mesh_label_spec(w, name_or_empty(m.name)),
            ),
{
    let mn = name_or_empty(m.name);
    let ps = m.primitives@;
    let kept = kept_primitives(w, mn, ps, named);
    let kl = kept.map_values(|p: (Seq<char>, Seq<char>)| p.0);
    let b = mesh_label_spec(w, mn);
    let all = mesh_registry_labels(w, m, named);
    lemma_kept_distinct(w, mn, ps, named);
    assert forall|k: int| 0 <= k < kl.len() implies has_prefix(kl[k], b) && kl[k].len() > b.len() by {
        lemma_kept_primitive_source(w, mn, ps, named, k);
        let j = choose|j: int|
            0 <= j < ps.len() && crate::world::primitive_kept(#[trigger] ps[j], named) && kept[k] == (
            primitive_label_spec(w, mn, ps[j].index as nat),
            crate::label::material_label_spec(w, ps[j].material->Some_0@),
        );
        lemma_primitive_below_mesh(w, mn, ps[j].index as nat);
    }
    assert(all == kl.push(b));
    assert(b.subrange(0, b.len() as int) =~= b);
    assert forall|k: int| 0 <= k < all.len() implies has_prefix(#[trigger] all[k], b) by {
        if k < kl.len() {
            assert(all[k] == kl[k]);
        }
    }
    assert forall|i: int, j: int| 0 <= i < j < all.len() implies all[i] != all[j] by {
        if j < kl.len() {
            assert(all[i] == kl[i] && all[j] == kl[j]);
        } else {
            assert(all[i] == kl[i]);
            assert(all[j] == b);
        }
    }
}

/// The labels of a world's meshes and their primitives are distinct, and
/// each lies below one of the meshes.
pub proof fn lemma_meshes_block(w: Seq<char>, ms: Seq<MeshDesc>, named: Seq<(Seq<char>, Seq<char>)>)
    requires
        meshes_well_named(ms),
    ensures
        distinct(meshes_registry_labels(w, ms, named)),
        forall|k: int|
            #![trigger meshes_registry_labels(w, ms, named)[k]]
            0 <= k < meshes_registry_labels(w, ms, named).len() ==> exists|j: int|
                0 <= j < ms.len() && has_prefix(
                    meshes_registry_labels(w, ms, named)[k],
                    mesh_label_spec(w, name_or_empty(#[trigger] ms[j].name)),
                ),
    decreases ms.len(),
{
    if ms.len() > 0 {
        let prev_ms = ms.drop_last();
        assert(meshes_well_named(prev_ms)) by {
            assert forall|j: int| 0 <= j < prev_ms.len() implies plain_name(
                name_or_empty(#[trigger] prev_ms[j].name),
            ) by {
                assert(prev_ms[j] == ms[j]);
            }
            assert forall|j: int| 0 <= j < prev_ms.len() implies indices_distinct(
                #[trigger] prev_ms[j],
            ) by {
                assert(prev_ms[j] == ms[j]);
            }
            assert forall|i: int, j: int| 0 <= i < j < prev_ms.len() implies name_or_empty(
                prev_ms[i].name,
            ) != name_or_empty(prev_ms[j].name) by {
                assert(prev_ms[i] == ms[i] && prev_ms[j] == ms[j]);
            }
        }
        lemma_meshes_block(w, prev_ms, named);
        let last = ms.last();
        assert(last == ms[ms.len() - 1]);
        lemma_mesh_block(w, last, named);
        let prev = meshes_registry_labels(w, prev_ms, named);
        let blk = mesh_registry_labels(w, last, named);
        let lb = mesh_label_spec(w, name_or_empty(last.name));
        assert forall|i: int, j: int| 0 <= i < prev.len() && 0 <= j < blk.len() implies prev[i]
            != blk[j] by {
            let jm = choose|jm: int|
                0 <= jm < prev_ms.len() && has_prefix(
                    prev[i],
                    mesh_label_spec(w, name_or_empty(#[trigger] prev_ms[jm].name)),
                );
            assert(prev_ms[jm] == ms[jm]);
            assert(has_prefix(blk[j], lb));
            if prev[i] == blk[j] {
                lemma_mesh_prefix_owner(
                    prev[i],
                    w,
                    name_or_empty(ms[jm].name),
                    name_or_empty(last.name),
                );
            }
        }
        lemma_distinct_concat(prev, blk);
        let all = meshes_registry_labels(w, ms, named);
        assert(all == prev + blk);
        assert forall|k: int| #![trigger all[k]] 0 <= k < all.len() implies exists|j: int|
            0 <= j < ms.len() && has_prefix(
                all[k],
                mesh_label_spec(w, name_or_empty(#[trigger] ms[j].name)),
            ) by {
            if k < prev.len() {
                assert(all[k] == prev[k]);
                let jm = choose|jm: int|
                    0 <= jm < prev_ms.len() && has_prefix(
                        prev[k],
                        mesh_label_spec(w, name_or_empty(#[trigger] prev_ms[jm].name)),
                    );
                assert(prev_ms[jm] == ms[jm]);
            } else {
                assert(all[k] == blk[k - prev.len()]);
                assert(has_prefix(blk[k - prev.len()], lb));
            }
        }
    }
}

/// Material names differ within the world.
pub open spec fn materials_well_named(ms: Seq<MaterialDesc>) -> bool {
    forall|i: int, j: int|
        0 <= i < j < ms.len() && ms[i].name is Some && ms[j].name is Some
            ==> ms[i].name->Some_0@ != ms[j].name->Some_0@
}

proof fn lemma_materials_distinct(w: Seq<char>, ms: Seq<MaterialDesc>, t: Seq<Seq<char>>)
    requires
        materials_well_named(ms),
    ensures
        distinct(named_materials_spec(w, ms, t).map_values(|p: (Seq<char>, Seq<char>)| p.1)),
    decreases ms.len(),
{
    if ms.len() > 0 {
        let prev_ms = ms.drop_last();
        assert(materials_well_named(prev_ms)) by {
            assert forall|i: int, j: int|
                0 <= i < j < prev_ms.len() && prev_ms[i].name is Some
                    && prev_ms[j].name is Some implies prev_ms[i].name->Some_0@
                != prev_ms[j].name->Some_0@ by {
                assert(prev_ms[i] == ms[i] && prev_ms[j] == ms[j]);
            }
        }
        lemma_materials_distinct(w, prev_ms, t);
        let prev = named_materials_spec(w, prev_ms, t);
        let pl = prev.map_values(|p: (Seq<char>, Seq<char>)| p.1);
        let all = named_materials_spec(w, ms, t).map_values(|p: (Seq<char>, Seq<char>)| p.1);
        let last = ms.last();
        if material_kept(last, t) {
            let ll = material_label_spec(w, last.name->Some_0@);
            assert forall|i: int| 0 <= i < pl.len() implies pl[i] != ll by {
                lemma_named_materials_source(w, prev_ms, t, i);
                let j = choose|j: int|
                    0 <= j < prev_ms.len() && material_kept(#[trigger] prev_ms[j], t) && prev[i] == (
                    prev_ms[j].name->Some_0@, material_label_spec(w, prev_ms[j].name->Some_0@));
                if pl[i] == ll {
                    lemma_material_label_injective(w, prev_ms[j].name->Some_0@, last.name->Some_0@);
                    assert(ms[j] == prev_ms[j]);
                    assert(ms[ms.len() - 1] == last);
                }
            }
            assert(all =~= pl.push(ll));
        } else {
            assert(all =~= pl);
        }
    }
}

proof fn lemma_label_chars(w: Seq<char>, n: Seq<char>, m: Seq<char>)
    ensures
        ({
            let b = wld_label_spec(w);
            let l = b.len() as int;
            let ml = material_label_spec(w, n);
            let hl = mesh_label_spec(w, m);
            let sl = scene_label_spec(w);
            &&& ml.len() > l + 3 && ml[l + 2] == 'a' && ml[l + 3] == 't' && has_prefix(ml, b)
            &&& hl.len() > l + 2 && hl[l + 2] == 'e' && has_prefix(hl, b)
            &&& sl.len() == l + 4 && sl[l + 2] == 'a' && sl[l + 3] == 'p' && has_prefix(sl, b)
            &&& has_prefix(b, b)
        }),
{
    reveal_strlit("/Material[");
    reveal_strlit("/Mesh[");
    reveal_strlit("/Map");
    reveal_strlit("]");
    let b = wld_label_spec(w);
    let l = b.len() as int;
    let ml = material_label_spec(w, n);
    let hl = mesh_label_spec(w, m);
    let sl = scene_label_spec(w);
    assert(ml =~= b + ("/Material["@ + n + "]"@));
    assert(hl =~= b + ("/Mesh["@ + m + "]"@));
    assert(sl =~= b + "/Map"@);
    assert(ml[l + 2] == ("/Material["@ + n + "]"@)[2]);
    assert(ml[l + 3] == ("/Material["@ + n + "]"@)[3]);
    assert(hl[l + 2] == ("/Mesh["@ + m + "]"@)[2]);
    assert(sl[l + 2] == "/Map"@[2]);
    assert(sl[l + 3] == "/Map"@[3]);
    assert(ml.subrange(0, l) =~= b);
    assert(hl.subrange(0, l) =~= b);
    assert(sl.subrange(0, l) =~= b);
    assert(b.subrange(0, l) =~= b);
}

proof fn lemma_prefix_trans(a: Seq<char>, b: Seq<char>, c: Seq<char>)
    requires
        has_prefix(a, b),
        has_prefix(b, c),
    ensures
        has_prefix(a, c),
{
    assert(a.subrange(0, c.len() as int) =~= b.subrange(0, c.len() as int));
}

/// The labels a world registers are distinct and all lie below the world's label.
pub proof fn lemma_world_block(w: Seq<char>, d: WorldDesc, t: Seq<Seq<char>>)
    requires
        materials_well_named(d.materials@),
        meshes_well_named(d.meshes@),
    ensures
        distinct(world_registry_labels(w, d, t)),
        forall|k: int|
            0 <= k < world_registry_labels(w, d, t).len() ==> has_prefix(
                #[trigger] world_registry_labels(w, d, t)[k],
                wld_label_spec(w),
            ),
{
    let b = wld_label_spec(w);
    let l = b.len() as int;
    let named = named_materials_spec(w, d.materials@, t);
    let ml = named.map_values(|p: (Seq<char>, Seq<char>)| p.1);
    let hs = meshes_registry_labels(w, d.meshes@, named);
    let sl = scene_label_spec(w);
    let tail = seq![sl, b];
    lemma_materials_distinct(w, d.materials@, t);
    lemma_meshes_block(w, d.meshes@, named);
    lemma_label_chars(w, Seq::empty(), Seq::empty());
    // every material label reads "/Mat" after the world's label
    assert forall|i: int| 0 <= i < ml.len() implies #[trigger] ml[i].len() > l + 3 && ml[i][l + 2]
        == 'a' && ml[i][l + 3] == 't' && has_prefix(ml[i], b) by {
        lemma_named_materials_source(w, d.materials@, t, i);
        let j = choose|j: int|
            0 <= j < d.materials@.len() && material_kept(#[trigger] d.materials@[j], t)
                && named[i] == (d.materials@[j].name->Some_0@, material_label_spec(
                w,
                d.materials@[j].name->Some_0@,
            ));
        lemma_label_chars(w, d.materials@[j].name->Some_0@, Seq::empty());
    }
    // every mesh or primitive label reads "/Me" after the world's label
    assert forall|i: int| 0 <= i < hs.len() implies #[trigger] hs[i].len() > l + 2 && hs[i][l + 2]
        == 'e' && has_prefix(hs[i], b) by {
        let j = choose|j: int|
            0 <= j < d.meshes@.len() && has_prefix(
                hs[i],
                mesh_label_spec(w, name_or_empty(#[trigger] d.meshes@[j].name)),
            );
        let mb = mesh_label_spec(w, name_or_empty(d.meshes@[j].name));
        lemma_label_chars(w, Seq::empty(), name_or_empty(d.meshes@[j].name));
        assert(hs[i][l + 2] == hs[i].subrange(0, mb.len() as int)[l + 2]);
        lemma_prefix_trans(hs[i], mb, b);
    }
    assert forall|i: int, j: int| 0 <= i < ml.len() && 0 <= j < hs.len() implies ml[i]
        != hs[j] by {
        assert(ml[i].len() > l + 3 && ml[i][l + 2] == 'a');
        assert(hs[j].len() > l + 2 && hs[j][l + 2] == 'e');
        assert(ml[i][l + 2] != hs[j][l + 2]);
    }
    lemma_distinct_concat(ml, hs);
    let front = ml + hs;
    assert forall|i: int| 0 <= i < front.len() implies #[trigger] front[i].len() > l + 2
        && front[i] != sl && front[i] != b && has_prefix(front[i], b) by {
        if i < ml.len() {
            assert(front[i] == ml[i]);
            assert(ml[i].len() > l + 3 && ml[i][l + 3] == 't');
            assert(front[i][l + 3] != sl[l + 3]);
        } else {
            assert(front[i] == hs[i - ml.len()]);
            assert(hs[i - ml.len()].len() > l + 2 && hs[i - ml.len()][l + 2] == 'e');
            assert(front[i][l + 2] != sl[l + 2]);
        }
    }
    assert(sl != b);
    lemma_distinct_concat(front, tail);
    let all = world_registry_labels(w, d, t);
    assert(all == front + tail);
    assert forall|k: int| 0 <= k < all.len() implies has_prefix(#[trigger] all[k], b) by {
        if k < front.len() {
            assert(all[k] == front[k]);
        } else if k == front.len() {
            assert(all[k] == sl);
        } else {
            assert(all[k] == b);
        }
    }
}

/// Entry names are plain and differ, and each world names its materials,
/// meshes and primitives apart.
pub open spec fn archive_well_named(es: Seq<ArchiveEntry>) -> bool {
    &&& forall|j: int| 0 <= j < es.len() ==> plain_name((#[trigger] es[j]).name@)
    &&& forall|i: int, j: int| 0 <= i < j < es.len() ==> es[i].name@ != es[j].name@
    &&& forall|j: int|
        0 <= j < es.len() && is_world_entry(#[trigger] es[j]) ==> materials_well_named(
            es[j].content->World_0.materials@,
        ) && meshes_well_named(es[j].content->World_0.meshes@)
}

/// Whether label `l` belongs to entry `e`.
pub open spec fn owned_by(l: Seq<char>, e: ArchiveEntry) -> bool {
    ||| is_texture_entry(e) && l == texture_label_spec(e.name@)
    ||| is_world_entry(e) && has_prefix(l, wld_label_spec(e.name@))
}

proof fn lemma_owner_unique(l: Seq<char>, e1: ArchiveEntry, e2: ArchiveEntry)
    requires
        plain_name(e1.name@),
        plain_name(e2.name@),
        owned_by(l, e1),
        owned_by(l, e2),
    ensures
        e1.name@ == e2.name@,
{
    reveal_strlit("Texture[");
    reveal_strlit("World[");
    reveal_strlit("]");
    let n1 = e1.name@;
    let n2 = e2.name@;
    if is_texture_entry(e1) && l == texture_label_spec(n1) && is_texture_entry(e2) && l
        == texture_label_spec(n2) {
        let a = "Texture["@;
        assert(texture_label_spec(n1) =~= a + (n1 + seq![']'] + Seq::<char>::empty()));
        assert(texture_label_spec(n2) =~= a + (n2 + seq![']'] + Seq::<char>::empty()));
        lemma_cancel_left(a, n1 + seq![']'] + Seq::<char>::empty(), n2 + seq![']'] + Seq::<char>::empty());
        lemma_split(n1, n2, Seq::<char>::empty(), Seq::<char>::empty(), ']');
    } else if is_world_entry(e1) && has_prefix(l, wld_label_spec(n1)) && is_world_entry(e2)
        && has_prefix(l, wld_label_spec(n2)) {
        lemma_world_prefix_owner(l, n1, n2);
    } else {
        // a texture label starts with 'T', a world's labels with 'W'
        let (tn, wn) = if is_texture_entry(e1) && l == texture_label_spec(n1) {
            (n1, n2)
        } else {
            (n2, n1)
        };
        assert(texture_label_spec(tn)[0] == 'T');
        assert(wld_label_spec(wn)[0] == 'W');
        assert(l.subrange(0, wld_label_spec(wn).len() as int)[0] == l[0]);
    }
}

proof fn lemma_archive_labels(es: Seq<ArchiveEntry>, t: Seq<Seq<char>>)
    requires
        archive_well_named(es),
    ensures
        distinct(archive_registry_labels(es, t)),
        forall|k: int|
            #![trigger archive_registry_labels(es, t)[k]]
            0 <= k < archive_registry_labels(es, t).len() ==> exists|j: int|
                0 <= j < es.len() && owned_by(archive_registry_labels(es, t)[k], #[trigger] es[j]),
    decreases es.len(),
{
    if es.len() > 0 {
        let prev_es = es.drop_last();
        assert(archive_well_named(prev_es)) by {
            assert forall|j: int| 0 <= j < prev_es.len() implies plain_name(
                (#[trigger] prev_es[j]).name@,
            ) by {
                assert(prev_es[j] == es[j]);
            }
            assert forall|i: int, j: int| 0 <= i < j < prev_es.len() implies prev_es[i].name@
                != prev_es[j].name@ by {
                assert(prev_es[i] == es[i] && prev_es[j] == es[j]);
            }
            assert forall|j: int|
                0 <= j < prev_es.len() && is_world_entry(#[trigger] prev_es[j]) implies materials_well_named(
                prev_es[j].content->World_0.materials@,
            ) && meshes_well_named(prev_es[j].content->World_0.meshes@) by {
                assert(prev_es[j] == es[j]);
            }
        }
        lemma_archive_labels(prev_es, t);
        let e = es.last();
        assert(e == es[es.len() - 1]);
        let prev = archive_registry_labels(prev_es, t);
        let blk: Seq<Seq<char>> = if is_texture_entry(e) {
            seq![texture_label_spec(e.name@)]
        } else if is_world_entry(e) {
            world_registry_labels(e.name@, e.content->World_0, t)
        } else {
            seq![]
        };
        if is_world_entry(e) {
            lemma_world_block(e.name@, e.content->World_0, t);
        }
        assert(distinct(blk));
        assert forall|k: int| 0 <= k < blk.len() implies owned_by(#[trigger] blk[k], e) by {}
        assert forall|i: int, k: int| 0 <= i < prev.len() && 0 <= k < blk.len() implies prev[i]
            != blk[k] by {
            let j = choose|j: int| 0 <= j < prev_es.len() && owned_by(prev[i], #[trigger] prev_es[j]);
            assert(prev_es[j] == es[j]);
            assert(owned_by(blk[k], e));
            if prev[i] == blk[k] {
                lemma_owner_unique(prev[i], es[j], e);
            }
        }
        lemma_distinct_concat(prev, blk);
        let all = archive_registry_labels(es, t);
        if is_texture_entry(e) {
            assert(all =~= prev + blk);
        } else if is_world_entry(e) {
            assert(all =~= prev + blk);
        } else {
            assert(all =~= prev + blk);
        }
        assert forall|k: int| #![trigger all[k]] 0 <= k < all.len() implies exists|j: int|
            0 <= j < es.len() && owned_by(all[k], #[trigger] es[j]) by {
            if k < prev.len() {
                assert(all[k] == prev[k]);
                let j = choose|j: int| 0 <= j < prev_es.len() && owned_by(prev[k], #[trigger] prev_es[j]);
                assert(prev_es[j] == es[j]);
            } else {
                assert(all[k] == blk[k - prev.len()]);
                assert(owned_by(blk[k - prev.len()], e));
            }
        }
    }
}

/// Every label that loading an archive registers is registered once, when
/// the entry names are plain and differ and each world tells its materials,
/// meshes and primitives apart.
pub proof fn lemma_labels_unique(es: Seq<ArchiveEntry>, r: ArchiveLoad)
    requires
        archive_matches(r, es),
        archive_well_named(es),
    ensures
        distinct(labels_of(r.assets@)),
{
    lemma_archive_labels(es, texture_names(es));
}

} // verus!
