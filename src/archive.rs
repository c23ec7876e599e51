use vstd::prelude::*;
use vstd::string::*;
use crate::asset::{Asset, EqArchive, LabeledAsset, Named, labels_of, nameds, strs};
use crate::label::{texture_label_spec, wld_label_spec};
use crate::texture::{bmp_rgba8, load_bmp, texture_from};
use crate::world::{
    Expected, WorldDesc, all_meet, lemma_meet_extend, load_wld, since, world_expected,
    world_registry_labels,
};

verus! {

/// How an archive entry is handled, by the type in its file name.
#[derive(PartialEq, Eq, Structural, Clone, Copy, Debug)]
pub enum EntryKind {
    Bitmap,
    World,
    Unknown,
}

/// An archive entry with its content in the form the loader takes: bitmap
/// bytes, a decoded world, a world whose bytes did not decode, or nothing
/// for an entry of another type.
pub enum EntryContent {
    Bitmap(Vec<u8>),
    World(WorldDesc),
    BrokenWorld,
    Other,
}

pub struct ArchiveEntry {
    pub name: String,
    pub content: EntryContent,
}

/// Why an archive could not be loaded.
#[derive(PartialEq, Eq, Debug)]
pub enum LoadError {
    /// The named bitmap entry does not decode.
    Bitmap(String),
    /// The named world entry does not decode.
    World(String),
}

/// Everything one archive load produces: the archive record and every
/// labeled asset, in the order they were built.
pub struct ArchiveLoad {
    pub archive: EqArchive,
    pub assets: Vec<LabeledAsset>,
}

/// Whether the file name `s` has the type `t`: the text after its last dot.
pub open spec fn has_type(s: Seq<char>, t: Seq<char>) -> bool {
    exists|k: int|
        0 <= k < s.len() && s[k] == '.' && (forall|j: int| k < j < s.len() ==> s[j] != '.')
            && #[trigger] s.subrange(k + 1, s.len() as int) == t
}

pub open spec fn entry_kind_spec(s: Seq<char>) -> EntryKind {
    if has_type(s, "bmp"@) {
        EntryKind::Bitmap
    } else if has_type(s, "wld"@) {
        EntryKind::World
    } else {
        EntryKind::Unknown
    }
}

/// Whether `s` from position `from` on reads `t`.
fn rest_is(s: &str, from: usize, t: &str) -> (r: bool)
    requires
        from <= s@.len(),
    ensures
        r == (s@.subrange(from as int, s@.len() as int) == t@),
{
    let n = s.unicode_len();
    let m = t.unicode_len();
    if n - from != m {
        proof {
            assert(s@.subrange(from as int, s@.len() as int).len() != t@.len());
        }
        return false;
    }
    let mut i: usize = 0;
    while i < m
        invariant
            n == s@.len(),
            m == t@.len(),
            n - from == m,
            from <= n,
            i <= m,
            forall|j: int| 0 <= j < i ==> s@[from + j] == t@[j],
        decreases m - i,
    {
        if s.get_char(from + i) != t.get_char(i) {
            assert(s@.subrange(from as int, s@.len() as int)[i as int] != t@[i as int]);
            return false;
        }
        i = i + 1;
    }
    assert(s@.subrange(from as int, s@.len() as int) =~= t@);
    true
}

/// The position of the last dot in `name`, if any.
fn last_dot(name: &str) -> (r: Option<usize>)
    ensures
        r is Some ==> {
            let k = r->Some_0 as int;
            &&& 0 <= k < name@.len()
            &&& k < usize::MAX
            &&& name@[k] == '.'
            &&& forall|j: int| k < j < name@.len() ==> name@[j] != '.'
        },
        r is None ==> forall|j: int| 0 <= j < name@.len() ==> name@[j] != '.',
{
    let n = name.unicode_len();
    let mut last: Option<usize> = None;
    let mut i: usize = 0;
    while i < n
        invariant
            n == name@.len(),
            i <= n,
            last is Some ==> {
                let k = last->Some_0 as int;
                &&& 0 <= k < i
                &&& name@[k] == '.'
                &&& forall|j: int| k < j < i ==> name@[j] != '.'
            },
            last is None ==> forall|j: int| 0 <= j < i ==> name@[j] != '.',
        decreases n - i,
    {
        if name.get_char(i) == '.' {
            last = Some(i);
        }
        i = i + 1;
    }
    last
}

/// The kind of an entry by its file name: the text after the last dot is
/// `bmp` for a bitmap and `wld` for a world; any other name is unknown.
pub fn entry_kind(name: &str) -> (r: EntryKind)
    ensures
        r == entry_kind_spec(name@),
{
    let k = match last_dot(name) {
        Some(k) => k,
        None => {
            return EntryKind::Unknown;
        },
    };
    let ghost s = name@;
    proof {
        // the last dot is unique, so the type is the text after it
        assert forall|t: Seq<char>| has_type(s, t) <==> s.subrange(k + 1, s.len() as int) == t by {
            if has_type(s, t) {
                let k2 = choose|k2: int|
                    0 <= k2 < s.len() && s[k2] == '.' && (forall|j: int| k2 < j < s.len() ==> s[j] != '.')
                        && #[trigger] s.subrange(k2 + 1, s.len() as int) == t;
                assert(k2 == k);
            }
            if s.subrange(k + 1, s.len() as int) == t {
                assert(s[k as int] == '.');
            }
        }
    }
    if rest_is(name, k + 1, "bmp") {
        EntryKind::Bitmap
    } else if rest_is(name, k + 1, "wld") {
        EntryKind::World
    } else {
        EntryKind::Unknown
    }
}


pub open spec fn is_texture_entry(e: ArchiveEntry) -> bool {
    entry_kind_spec(e.name@) == EntryKind::Bitmap && e.content is Bitmap
}

pub open spec fn is_world_entry(e: ArchiveEntry) -> bool {
    entry_kind_spec(e.name@) == EntryKind::World && e.content is World
}

/// Whether entry `e`, if it is a bitmap or a world, decodes.
pub open spec fn decodes(e: ArchiveEntry) -> bool {
    &&& is_texture_entry(e) ==> bmp_rgba8(e.content->Bitmap_0@) is Some
    &&& !(entry_kind_spec(e.name@) == EntryKind::World && e.content is BrokenWorld)
}

/// The error that the entry `e`, which does not decode, fails the load with.
pub open spec fn error_for(e: ArchiveEntry) -> LoadError {
    if is_texture_entry(e) {
        LoadError::Bitmap(e.name)
    } else {
        LoadError::World(e.name)
    }
}

/// The names of the bitmap entries, in archive order: the archive's texture set.
pub open spec fn texture_names(es: Seq<ArchiveEntry>) -> Seq<Seq<char>>
    decreases es.len(),
{
    if es.len() == 0 {
        seq![]
    } else {
        let prev = texture_names(es.drop_last());
        if is_texture_entry(es.last()) {
            prev.push(es.last().name@)
        } else {
            prev
        }
    }
}

/// The names of the world entries, in archive order.
pub open spec fn world_names(es: Seq<ArchiveEntry>) -> Seq<Seq<char>>
    decreases es.len(),
{
    if es.len() == 0 {
        seq![]
    } else {
        let prev = world_names(es.drop_last());
        if is_world_entry(es.last()) {
            prev.push(es.last().name@)
        } else {
            prev
        }
    }
}

/// The labels that loading the entries registers, in order, given the
/// archive's texture set.
pub open spec fn archive_registry_labels(
    es: Seq<ArchiveEntry>,
    textures: Seq<Seq<char>>,
) -> Seq<Seq<char>>
    decreases es.len(),
{
    if es.len() == 0 {
        seq![]
    } else {
        let prev = archive_registry_labels(es.drop_last(), textures);
        let e = es.last();
        if is_texture_entry(e) {
            prev.push(texture_label_spec(e.name@))
        } else if is_world_entry(e) {
            prev + world_registry_labels(e.name@, e.content->World_0, textures)
        } else {
            prev
        }
    }
}

pub open spec fn sources_spec(es: Seq<ArchiveEntry>) -> Seq<(Seq<char>, Seq<char>)> {
    texture_names(es).map_values(|n: Seq<char>| (n, texture_label_spec(n)))
}

pub open spec fn wlds_spec(es: Seq<ArchiveEntry>) -> Seq<(Seq<char>, Seq<char>)> {
    world_names(es).map_values(|n: Seq<char>| (n, wld_label_spec(n)))
}

/// Whether `a` is the texture decoded from the bitmap entry `e`.
pub open spec fn texture_of_entry(a: LabeledAsset, e: ArchiveEntry) -> bool {
    &&& is_texture_entry(e)
    &&& a.label@ == texture_label_spec(e.name@)
    &&& a.asset is Texture
    &&& bmp_rgba8(e.content->Bitmap_0@) is Some
    &&& {
        let (w, h, data) = bmp_rgba8(e.content->Bitmap_0@)->Some_0;
        texture_from(a.asset->Texture_0, w, h, data)
    }
}

/// Whether every texture in `assets` was decoded from one of the entries `es`.
pub open spec fn textures_from_entries(assets: Seq<LabeledAsset>, es: Seq<ArchiveEntry>) -> bool {
    forall|k: int|
        0 <= k < assets.len() && (#[trigger] assets[k]).asset is Texture ==> exists|j: int|
            0 <= j < es.len() && texture_of_entry(assets[k], #[trigger] es[j])
}

/// What loading the entries registers, position by position, given the
/// archive's texture set: the order of `archive_registry_labels`.
pub open spec fn archive_expected(es: Seq<ArchiveEntry>, textures: Seq<Seq<char>>) -> Seq<Expected>
    decreases es.len(),
{
    if es.len() == 0 {
        seq![]
    } else {
        let prev = archive_expected(es.drop_last(), textures);
        let e = es.last();
        if is_texture_entry(e) {
            prev.push(Expected::Texture(e.content->Bitmap_0@))
        } else if is_world_entry(e) {
            prev + world_expected(e.name@, e.content->World_0, textures)
        } else {
            prev
        }
    }
}

/// Whether `r` is what loading `es` produces.
pub open spec fn archive_matches(r: ArchiveLoad, es: Seq<ArchiveEntry>) -> bool {
    &&& nameds(r.archive.named_sources@) == sources_spec(es)
    &&& nameds(r.archive.named_wlds@) == wlds_spec(es)
    &&& labels_of(r.assets@) == archive_registry_labels(es, texture_names(es))
    &&& textures_from_entries(r.assets@, es)
    &&& all_meet(r.assets@, archive_expected(es, texture_names(es)))
}

fn collect_texture_names(entries: &Vec<ArchiveEntry>) -> (r: Vec<String>)
    ensures
        strs(r@) == texture_names(entries@),
{
    let mut r: Vec<String> = Vec::new();
    let mut i: usize = 0;
    while i < entries.len()
        invariant
            i <= entries.len(),
            strs(r@) == texture_names(entries@.subrange(0, i as int)),
        decreases entries.len() - i,
    {
        let e = &entries[i];
        assert(entries@.subrange(0, i + 1).drop_last() =~= entries@.subrange(0, i as int));
        assert(entries@.subrange(0, i + 1).last() == entries@[i as int]);
        let ghost before = strs(r@);
        if entry_kind(e.name.as_str()) == EntryKind::Bitmap {
            match &e.content {
                EntryContent::Bitmap(_) => {
                    r.push(e.name.clone());
                    assert(strs(r@) =~= before.push(e.name@));
                },
                _ => {},
            }
        }
        i = i + 1;
    }
    assert(entries@.subrange(0, entries.len() as int) =~= entries@);
    r
}

/// Loads every entry of an archive in order: bitmap entries become textures,
/// world entries become worlds built against the archive's texture set, and
/// entries of any other type are skipped. Fails at the first bitmap or
/// world that does not decode, naming its entry.
pub fn load_eq_archive(entries: &Vec<ArchiveEntry>) -> (r: Result<ArchiveLoad, LoadError>)
    ensures
        r is Ok <==> forall|i: int| 0 <= i < entries@.len() ==> decodes(#[trigger] entries@[i]),
        r is Ok ==> archive_matches(r->Ok_0, entries@),
        r is Err ==> exists|i: int|
            0 <= i < entries@.len() && !decodes(#[trigger] entries@[i])
                && (forall|j: int| 0 <= j < i ==> decodes(entries@[j]))
                && r->Err_0 == error_for(entries@[i]),
{
    let textures = collect_texture_names(entries);
    let ghost t = strs(textures@);
    let ghost es = entries@;
    let mut assets: Vec<LabeledAsset> = Vec::new();
    let mut named_sources: Vec<Named> = Vec::new();
    let mut named_wlds: Vec<Named> = Vec::new();
    let mut i: usize = 0;
    while i < entries.len()
        invariant
            i <= entries.len(),
            es == entries@,
            t == strs(textures@),
            t == texture_names(es),
            nameds(named_sources@) == sources_spec(es.subrange(0, i as int)),
            nameds(named_wlds@) == wlds_spec(es.subrange(0, i as int)),
            labels_of(assets@) == archive_registry_labels(es.subrange(0, i as int), t),
            forall|j: int| 0 <= j < i ==> decodes(#[trigger] es[j]),
            textures_from_entries(assets@, es),
            all_meet(assets@, archive_expected(es.subrange(0, i as int), t)),
        decreases entries.len() - i,
    {
        let e = &entries[i];
        let ghost sub = es.subrange(0, i + 1);
        assert(sub.drop_last() =~= es.subrange(0, i as int));
        assert(sub.last() == es[i as int]);
        let ghost old_sources = nameds(named_sources@);
        let ghost old_wlds = nameds(named_wlds@);
        let kind = entry_kind(e.name.as_str());
        match &e.content {
            EntryContent::Bitmap(bytes) => {
                if kind == EntryKind::Bitmap {
                    let ghost before = assets@;
                    let slice = bytes.as_slice();
                    assert(slice@ == bytes@);
                    match load_bmp(&mut assets, e.name.as_str(), slice) {
                        Some(label) => {
                            assert forall|k: int|
                                0 <= k < assets@.len() && (#[trigger] assets@[k]).asset is Texture implies exists|j: int|
                                0 <= j < es.len() && texture_of_entry(assets@[k], #[trigger] es[j]) by {
                                if k < before.len() {
                                    assert(assets@[k] == assets@.drop_last()[k]);
                                    assert(before[k].asset is Texture);
                                } else {
                                    assert(k == assets@.len() - 1);
                                    assert(es[i as int] == *e);
                                    assert(is_texture_entry(es[i as int]));
                                    assert(es[i as int].content->Bitmap_0@ == bytes@);
                                    assert(texture_of_entry(assets@[k], es[i as int]));
                                }
                            }
                            proof {
                                let y = seq![Expected::Texture(bytes@)];
                                assert(assets@.subrange(0, before.len() as int) =~= before);
                                assert(since(assets@, before.len() as int) =~= seq![assets@.last()]);
                                assert(all_meet(since(assets@, before.len() as int), y));
                                assert(since(before, 0) =~= before);
                                lemma_meet_extend(before, assets@, 0, archive_expected(es.subrange(0, i as int), t), y);
                                assert(since(assets@, 0) =~= assets@);
                                assert(es[i as int] == *e);
                            }
                            named_sources.push(Named { name: e.name.clone(), label });
                            assert(nameds(named_sources@) =~= old_sources.push(
                                (e.name@, texture_label_spec(e.name@)),
                            ));
                            assert(nameds(named_sources@) =~= sources_spec(sub));
                        },
                        None => {
                            return Err(LoadError::Bitmap(e.name.clone()));
                        },
                    }
                }
            },
            EntryContent::World(desc) => {
                if kind == EntryKind::World {
                    let ghost before = assets@;
                    let label = load_wld(&mut assets, e.name.as_str(), desc, &textures);
                    assert forall|k: int|
                        0 <= k < assets@.len() && (#[trigger] assets@[k]).asset is Texture implies exists|j: int|
                        0 <= j < es.len() && texture_of_entry(assets@[k], #[trigger] es[j]) by {
                        if k < before.len() {
                            assert(assets@[k] == assets@.subrange(0, before.len() as int)[k]);
                            assert(before[k].asset is Texture);
                        }
                    }
                    proof {
                        assert(since(before, 0) =~= before);
                        lemma_meet_extend(
                            before,
                            assets@,
                            0,
                            archive_expected(es.subrange(0, i as int), t),
                            world_expected(e.name@, *desc, t),
                        );
                        assert(since(assets@, 0) =~= assets@);
                        assert(es[i as int] == *e);
                    }
                    named_wlds.push(Named { name: e.name.clone(), label });
                    assert(nameds(named_wlds@) =~= old_wlds.push((e.name@, wld_label_spec(e.name@))));
                    assert(nameds(named_wlds@) =~= wlds_spec(sub));
                }
            },
            EntryContent::BrokenWorld => {
                if kind == EntryKind::World {
                    return Err(LoadError::World(e.name.clone()));
                }
            },
            EntryContent::Other => {},
        }
        assert(nameds(named_sources@) =~= sources_spec(sub));
        assert(nameds(named_wlds@) =~= wlds_spec(sub));
        i = i + 1;
    }
    assert(es.subrange(0, es.len() as int) =~= es);
    Ok(ArchiveLoad { archive: EqArchive { named_sources, named_wlds }, assets })
}

/// The loader of Everquest archives.
pub struct EqAssetsLoader;

impl EqAssetsLoader {
    /// The file types of the archives the loader reads.
    pub fn extensions(&self) -> (r: &'static [&'static str])
        ensures
            r@.len() == 2,
            r@[0]@ == "s3d"@,
            r@[1]@ == "eqg"@,
    {
        &["s3d", "eqg"]
    }

    /// Loads the entries of one archive; see `load_eq_archive`.
    pub fn load(&self, entries: &Vec<ArchiveEntry>) -> (r: Result<ArchiveLoad, LoadError>)
        ensures
            r is Ok <==> forall|i: int| 0 <= i < entries@.len() ==> decodes(#[trigger] entries@[i]),
            r is Ok ==> archive_matches(r->Ok_0, entries@),
            r is Err ==> exists|i: int|
                0 <= i < entries@.len() && !decodes(#[trigger] entries@[i])
                    && (forall|j: int| 0 <= j < i ==> decodes(entries@[j]))
                    && r->Err_0 == error_for(entries@[i]),
    {
        load_eq_archive(entries)
    }
}

} // verus!
