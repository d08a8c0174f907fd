//! The group codec: the recursive mapping between a group node (children,
//! material-to-color-to-tile-list table, optional opaque sub-trees) and a
//! compound tag node.
//!
//! Inside a material's tile list, each element is an integer array: length 1
//! is a color marker that updates the scan's current color, any other length
//! is a tile handed to the tile codec. Materials and colors keep insertion
//! order, so a well-formed value re-encodes deterministically.

use vstd::prelude::*;
use vstd::string::StringExecFns;

use crate::primitives::spec_color_to_int;
use crate::primitives::spec_int_to_color;
use crate::primitives::LittleColor;
use crate::primitives::ParseError;
use crate::tag::compound_view;
use crate::tag::entries_view;
use crate::tag::lemma_list_view;
use crate::tag::list_view;
use crate::tag::spec_lookup;
use crate::tag::tag_view;
use crate::tag::TagCompound;
use crate::tag::TagEntryModel;
use crate::tag::TagModel;
use crate::tag::TagNode;
use crate::tile::spec_decode_tile;
use crate::tile::spec_encode_tile;
use crate::tile::tile_view;
use crate::tile::LittleTile;
use crate::tile::TileModel;

verus! {

broadcast use vstd::std_specs::vec::group_vec_axioms;

/// The tiles of one color within one material, in insertion order.
#[derive(Debug, Clone, PartialEq)]
pub struct ColorBucket {
    pub color: LittleColor,
    pub tiles: Vec<LittleTile>,
}

/// The color buckets of one material, in insertion order.
#[derive(Debug, Clone, PartialEq)]
pub struct MaterialEntry {
    pub material: String,
    pub buckets: Vec<ColorBucket>,
}

/// A recursive sub-assembly: a grid scale, owned child groups, the
/// material-keyed tile table, and two optional opaque sub-trees passed
/// through verbatim.
#[derive(Debug)]
pub struct LittleGroup {
    pub grid: u16,
    pub children: Vec<LittleGroup>,
    pub tiles: Vec<MaterialEntry>,
    pub structure: Option<TagCompound>,
    pub extension: Option<TagCompound>,
}

/// The mathematical value of a color bucket.
pub struct BucketModel {
    pub color: LittleColor,
    pub tiles: Seq<TileModel>,
}

/// The mathematical value of a material entry.
pub struct MaterialModel {
    pub name: Seq<char>,
    pub buckets: Seq<BucketModel>,
}

/// The mathematical value of a group.
pub struct GroupModel {
    pub grid: u16,
    pub children: Seq<GroupModel>,
    pub tiles: Seq<MaterialModel>,
    pub structure: Option<Seq<TagEntryModel>>,
    pub extension: Option<Seq<TagEntryModel>>,
}

/// The mathematical values of a sequence of tiles, in order.
pub open spec fn tiles_view(ts: Seq<LittleTile>) -> Seq<TileModel> {
    Seq::new(ts.len(), |i: int| tile_view(ts[i]))
}

/// The mathematical value of an executable color bucket.
pub open spec fn bucket_view(b: ColorBucket) -> BucketModel {
    BucketModel { color: b.color, tiles: tiles_view(b.tiles@) }
}

/// The mathematical values of a sequence of color buckets, in order.
pub open spec fn buckets_view(bs: Seq<ColorBucket>) -> Seq<BucketModel> {
    Seq::new(bs.len(), |i: int| bucket_view(bs[i]))
}

/// The mathematical value of an executable material entry.
pub open spec fn material_view(m: MaterialEntry) -> MaterialModel {
    MaterialModel { name: m.material@, buckets: buckets_view(m.buckets@) }
}

/// The mathematical values of a sequence of material entries, in order.
pub open spec fn materials_view(ms: Seq<MaterialEntry>) -> Seq<MaterialModel> {
    Seq::new(ms.len(), |i: int| material_view(ms[i]))
}

/// The mathematical value an executable group stands for.
pub open spec fn group_view(g: LittleGroup) -> GroupModel
    decreases g,
{
    GroupModel {
        grid: g.grid,
        children: {
            proof {
                vstd::std_specs::vec::axiom_vec_decreases_to_view(g.children);
            }
            groups_view(g.children@)
        },
        tiles: materials_view(g.tiles@),
        structure: match g.structure {
            Option::Some(c) => Option::Some(compound_view(c)),
            Option::None => Option::None,
        },
        extension: match g.extension {
            Option::Some(c) => Option::Some(compound_view(c)),
            Option::None => Option::None,
        },
    }
}

/// The mathematical values of a sequence of executable groups, in order.
pub open spec fn groups_view(gs: Seq<LittleGroup>) -> Seq<GroupModel>
    decreases gs,
{
    if gs.len() == 0 {
        Seq::empty()
    } else {
        seq![group_view(gs[0])] + groups_view(gs.drop_first())
    }
}

/// A group-sequence view maps each group in place.
pub proof fn lemma_groups_view(gs: Seq<LittleGroup>)
    ensures
        groups_view(gs).len() == gs.len(),
        forall|i: int|
            0 <= i < gs.len() ==> #[trigger] groups_view(gs)[i] == group_view(gs[i]),
    decreases gs.len(),
{
    if gs.len() > 0 {
        lemma_groups_view(gs.drop_first());
    }
}

impl BucketModel {
    /// A bucket always holds at least one tile, each of them well-formed.
    pub open spec fn wf(self) -> bool {
        &&& self.tiles.len() > 0
        &&& forall|i: int| 0 <= i < self.tiles.len() ==> #[trigger] self.tiles[i].wf()
    }

    /// Every tile of the bucket is well-formed.
    pub open spec fn tiles_wf(self) -> bool {
        forall|i: int| 0 <= i < self.tiles.len() ==> #[trigger] self.tiles[i].wf()
    }
}

impl MaterialModel {
    /// Buckets are well-formed and no two share a color.
    pub open spec fn wf(self) -> bool {
        &&& forall|i: int| 0 <= i < self.buckets.len() ==> #[trigger] self.buckets[i].wf()
        &&& forall|i: int, j: int|
            0 <= i < j < self.buckets.len() ==> self.buckets[i].color != self.buckets[j].color
    }

    /// Every tile of the material is well-formed.
    pub open spec fn tiles_wf(self) -> bool {
        forall|i: int| 0 <= i < self.buckets.len() ==> #[trigger] self.buckets[i].tiles_wf()
    }
}

impl GroupModel {
    /// Well-formedness of a whole group tree: all tiles well-formed, every
    /// bucket nonempty, and colors distinct within each material.
    pub open spec fn wf(self) -> bool
        decreases self,
    {
        &&& forall|i: int| 0 <= i < self.tiles.len() ==> #[trigger] self.tiles[i].wf()
        &&& groups_wf(self.children)
    }

    /// Every tile of the group tree is well-formed: what encoding needs.
    pub open spec fn tiles_wf(self) -> bool
        decreases self,
    {
        &&& forall|i: int| 0 <= i < self.tiles.len() ==> #[trigger] self.tiles[i].tiles_wf()
        &&& groups_tiles_wf(self.children)
    }
}

/// Well-formedness of a sequence of groups.
pub open spec fn groups_wf(gs: Seq<GroupModel>) -> bool
    decreases gs,
{
    if gs.len() == 0 {
        true
    } else {
        gs[0].wf() && groups_wf(gs.drop_first())
    }
}

/// Every tile of a sequence of groups is well-formed.
pub open spec fn groups_tiles_wf(gs: Seq<GroupModel>) -> bool
    decreases gs,
{
    if gs.len() == 0 {
        true
    } else {
        gs[0].tiles_wf() && groups_tiles_wf(gs.drop_first())
    }
}

/// Group-sequence well-formedness holds exactly elementwise.
pub proof fn lemma_groups_wf(gs: Seq<GroupModel>)
    ensures
        groups_wf(gs) <==> (forall|i: int| 0 <= i < gs.len() ==> #[trigger] gs[i].wf()),
        groups_tiles_wf(gs) <==> (forall|i: int|
            0 <= i < gs.len() ==> #[trigger] gs[i].tiles_wf()),
    decreases gs.len(),
{
    if gs.len() > 0 {
        let d = gs.drop_first();
        lemma_groups_wf(d);
        if groups_wf(gs) {
            assert forall|i: int| 0 <= i < gs.len() implies #[trigger] gs[i].wf() by {
                if i > 0 {
                    assert(d[i - 1] == gs[i]);
                    assert(d[i - 1].wf());
                }
            }
        }
        if forall|i: int| 0 <= i < gs.len() ==> #[trigger] gs[i].wf() {
            assert forall|i: int| 0 <= i < d.len() implies #[trigger] d[i].wf() by {
                assert(gs[i + 1].wf());
                assert(d[i] == gs[i + 1]);
            }
            assert(gs[0].wf());
            assert(groups_wf(d));
            assert(groups_wf(gs));
        }
        if groups_tiles_wf(gs) {
            assert forall|i: int| 0 <= i < gs.len() implies #[trigger] gs[i].tiles_wf() by {
                if i > 0 {
                    assert(d[i - 1] == gs[i]);
                    assert(d[i - 1].tiles_wf());
                }
            }
        }
        if forall|i: int| 0 <= i < gs.len() ==> #[trigger] gs[i].tiles_wf() {
            assert forall|i: int| 0 <= i < d.len() implies #[trigger] d[i].tiles_wf() by {
                assert(gs[i + 1].tiles_wf());
                assert(d[i] == gs[i + 1]);
            }
            assert(gs[0].tiles_wf());
            assert(groups_tiles_wf(d));
            assert(groups_tiles_wf(gs));
        }
    }
}

/// A well-formed group tree has all its tiles well-formed.
pub proof fn lemma_wf_tiles_wf(g: GroupModel)
    requires
        g.wf(),
    ensures
        g.tiles_wf(),
    decreases g,
{
    lemma_groups_wf(g.children);
    assert forall|i: int| 0 <= i < g.children.len() implies #[trigger] g.children[i].tiles_wf() by {
        lemma_wf_tiles_wf(g.children[i]);
    }
    assert forall|i: int| 0 <= i < g.tiles.len() implies #[trigger] g.tiles[i].tiles_wf() by {
        let m = g.tiles[i];
        assert(m.wf());
        assert forall|k: int| 0 <= k < m.buckets.len() implies #[trigger] m.buckets[k].tiles_wf()
            by {
            assert(m.buckets[k].wf());
        }
    }
}

// ------------------------------------------------------------------
// A size measure on tag values, driving the recursion of the decoder.
// ------------------------------------------------------------------

/// A structural size of a tag value; children are strictly smaller.
pub open spec fn tag_msize(t: TagModel) -> nat
    decreases t,
{
    match t {
        TagModel::List(items) => 1 + list_msize(items),
        TagModel::Compound(es) => 1 + entries_msize(es),
        _ => 1,
    }
}

/// The summed size of a sequence of tag values.
pub open spec fn list_msize(items: Seq<TagModel>) -> nat
    decreases items,
{
    if items.len() == 0 {
        0
    } else {
        tag_msize(items[0]) + list_msize(items.drop_first())
    }
}

/// The summed size of a sequence of compound entries.
pub open spec fn entries_msize(es: Seq<TagEntryModel>) -> nat
    decreases es,
{
    if es.len() == 0 {
        0
    } else {
        1 + tag_msize(es[0].value) + entries_msize(es.drop_first())
    }
}

/// Every tag value has positive size.
pub proof fn lemma_tag_msize_pos(t: TagModel)
    ensures
        tag_msize(t) >= 1,
{
}

/// A found entry's value is strictly smaller than the entry sequence.
pub proof fn lemma_lookup_msize(es: Seq<TagEntryModel>, name: Seq<char>)
    ensures
        spec_lookup(es, name) matches Some(v) ==> tag_msize(v) < entries_msize(es),
    decreases es.len(),
{
    if es.len() > 0 && es[0].name != name {
        lemma_lookup_msize(es.drop_first(), name);
    }
}

/// An element of a sequence is no larger than the whole sequence.
pub proof fn lemma_list_elem_msize(items: Seq<TagModel>, i: int)
    requires
        0 <= i < items.len(),
    ensures
        tag_msize(items[i]) <= list_msize(items),
    decreases i,
{
    if i > 0 {
        lemma_list_elem_msize(items.drop_first(), i - 1);
    }
}

// ------------------------------------------------------------------
// The decoder, at the level of mathematical values.
// ------------------------------------------------------------------

/// The first index in `acc` holding the given color, or -1.
pub open spec fn spec_bucket_idx(acc: Seq<BucketModel>, c: LittleColor) -> int
    decreases acc.len(),
{
    if acc.len() == 0 {
        -1
    } else if acc[0].color == c {
        0
    } else {
        let r = spec_bucket_idx(acc.drop_first(), c);
        if r == -1 {
            -1
        } else {
            r + 1
        }
    }
}

/// Appends a tile to the bucket of its color, or opens a new bucket at the
/// end when the color has none yet.
pub open spec fn spec_bucket_add(acc: Seq<BucketModel>, c: LittleColor, t: TileModel) -> Seq<
    BucketModel,
> {
    let i = spec_bucket_idx(acc, c);
    if i == -1 {
        acc.push(BucketModel { color: c, tiles: seq![t] })
    } else {
        acc.update(i, BucketModel { color: c, tiles: acc[i].tiles.push(t) })
    }
}

/// The bucket index is -1 exactly when the color is absent, and otherwise
/// points at the first bucket of that color.
pub proof fn lemma_bucket_idx(acc: Seq<BucketModel>, c: LittleColor)
    ensures
        spec_bucket_idx(acc, c) == -1 ==> forall|j: int|
            0 <= j < acc.len() ==> #[trigger] acc[j].color != c,
        spec_bucket_idx(acc, c) != -1 ==> {
            let i = spec_bucket_idx(acc, c);
            &&& 0 <= i < acc.len()
            &&& acc[i].color == c
            &&& forall|j: int| 0 <= j < i ==> #[trigger] acc[j].color != c
        },
    decreases acc.len(),
{
    if acc.len() > 0 && acc[0].color != c {
        lemma_bucket_idx(acc.drop_first(), c);
        let d = acc.drop_first();
        let r = spec_bucket_idx(d, c);
        if r == -1 {
            assert forall|j: int| 0 <= j < acc.len() implies #[trigger] acc[j].color != c by {
                if j > 0 {
                    assert(d[j - 1] == acc[j]);
                }
            }
        } else {
            assert(acc[r + 1] == d[r]);
            assert forall|j: int| 0 <= j < r + 1 implies #[trigger] acc[j].color != c by {
                if j > 0 {
                    assert(d[j - 1] == acc[j]);
                }
            }
        }
    }
}

/// The scan of one material's flat tile list: a one-element integer array
/// updates the current color, any other integer array is a tile appended to
/// the current color's bucket, and any other tag kind fails.
pub open spec fn spec_decode_items(
    items: Seq<TagModel>,
    cur: LittleColor,
    acc: Seq<BucketModel>,
) -> Option<Seq<BucketModel>>
    decreases items.len(),
{
    if items.len() == 0 {
        Some(acc)
    } else {
        match items[0] {
            TagModel::IntArray(a) => {
                if a.len() == 1 {
                    spec_decode_items(items.drop_first(), spec_int_to_color(a[0]), acc)
                } else {
                    match spec_decode_tile(a) {
                        Some(t) => spec_decode_items(
                            items.drop_first(),
                            cur,
                            spec_bucket_add(acc, cur, t),
                        ),
                        None => None,
                    }
                }
            },
            _ => None,
        }
    }
}

/// What the per-material tile table decodes to: each entry must be a list,
/// scanned with a fresh all-zero current color.
pub open spec fn spec_decode_materials(mats: Seq<TagEntryModel>) -> Option<Seq<MaterialModel>>
    decreases mats.len(),
{
    if mats.len() == 0 {
        Some(Seq::empty())
    } else {
        match mats[0].value {
            TagModel::List(items) => {
                let head = spec_decode_items(
                    items,
                    LittleColor { r: 0, g: 0, b: 0, a: 0 },
                    Seq::empty(),
                );
                let rest = spec_decode_materials(mats.drop_first());
                match (head, rest) {
                    (Some(buckets), Some(ms)) => Some(
                        seq![MaterialModel { name: mats[0].name, buckets }] + ms,
                    ),
                    _ => None,
                }
            },
            _ => None,
        }
    }
}

/// What a group's compound entries decode to: a required integer `grid`, an
/// optional child list of compounds, optional opaque `s` and `e` compounds,
/// and a required tile table `t`. Unknown entries are ignored.
pub open spec fn spec_decode_group(es: Seq<TagEntryModel>) -> Option<GroupModel>
    decreases entries_msize(es),
{
    match spec_lookup(es, "grid"@) {
        Some(TagModel::Int(grid)) => {
            let children = match spec_lookup(es, "c"@) {
                Option::None => Some(Seq::<GroupModel>::empty()),
                Option::Some(TagModel::List(items)) => {
                    proof {
                        lemma_lookup_msize(es, "c"@);
                    }
                    spec_decode_children(items)
                },
                Option::Some(_) => None,
            };
            let structure = match spec_lookup(es, "s"@) {
                Option::None => Some(Option::<Seq<TagEntryModel>>::None),
                Option::Some(TagModel::Compound(sc)) => Some(Option::Some(sc)),
                Option::Some(_) => None,
            };
            let extension = match spec_lookup(es, "e"@) {
                Option::None => Some(Option::<Seq<TagEntryModel>>::None),
                Option::Some(TagModel::Compound(ec)) => Some(Option::Some(ec)),
                Option::Some(_) => None,
            };
            let tiles = match spec_lookup(es, "t"@) {
                Option::Some(TagModel::Compound(mats)) => spec_decode_materials(mats),
                _ => None,
            };
            match (children, structure, extension, tiles) {
                (Some(c), Some(s), Some(e), Some(t)) => Some(
                    GroupModel {
                        grid: grid as u16,
                        children: c,
                        tiles: t,
                        structure: s,
                        extension: e,
                    },
                ),
                _ => None,
            }
        },
        _ => None,
    }
}

/// What a child list decodes to: every element must be a compound that
/// itself decodes as a group.
pub open spec fn spec_decode_children(items: Seq<TagModel>) -> Option<Seq<GroupModel>>
    decreases list_msize(items),
{
    if items.len() == 0 {
        Some(Seq::empty())
    } else {
        match items[0] {
            TagModel::Compound(ces) => {
                let head = {
                    proof {
                        lemma_tag_msize_pos(items[0]);
                    }
                    spec_decode_group(ces)
                };
                let rest = {
                    proof {
                        lemma_tag_msize_pos(items[0]);
                    }
                    spec_decode_children(items.drop_first())
                };
                match (head, rest) {
                    (Some(h), Some(r)) => Some(seq![h] + r),
                    _ => None,
                }
            },
            _ => None,
        }
    }
}

// ------------------------------------------------------------------
// The encoder, at the level of mathematical values.
// ------------------------------------------------------------------

/// The color marker written before a bucket's tiles.
pub open spec fn spec_marker(c: LittleColor) -> TagModel {
    TagModel::IntArray(seq![spec_color_to_int(c)])
}

/// The tile arrays of one bucket, in order.
pub open spec fn spec_encode_tiles(ts: Seq<TileModel>) -> Seq<TagModel> {
    Seq::new(ts.len(), |i: int| TagModel::IntArray(spec_encode_tile(ts[i])))
}

/// The flat tile list of one material: per bucket, a color marker followed
/// by that color's tile arrays.
pub open spec fn spec_encode_buckets(bs: Seq<BucketModel>) -> Seq<TagModel>
    decreases bs,
{
    if bs.len() == 0 {
        Seq::empty()
    } else {
        (seq![spec_marker(bs[0].color)] + spec_encode_tiles(bs[0].tiles)) + spec_encode_buckets(
            bs.drop_first(),
        )
    }
}

/// The entries of the per-material tile table, in order.
pub open spec fn spec_encode_materials(ms: Seq<MaterialModel>) -> Seq<TagEntryModel>
    decreases ms,
{
    if ms.len() == 0 {
        Seq::empty()
    } else {
        seq![
            TagEntryModel { name: ms[0].name, value: TagModel::List(spec_encode_buckets(ms[0].buckets)) },
        ] + spec_encode_materials(ms.drop_first())
    }
}

/// The compound entries a group encodes to: `grid`, `c`, the optional `s`
/// and `e` sub-trees, then `t`.
pub open spec fn spec_group_entries(g: GroupModel) -> Seq<TagEntryModel>
    decreases g,
{
    let base = seq![
        TagEntryModel { name: "grid"@, value: TagModel::Int(g.grid as i32) },
        TagEntryModel { name: "c"@, value: TagModel::List(spec_encode_children(g.children)) },
    ];
    let with_s = match g.structure {
        Option::Some(sc) => base.push(TagEntryModel { name: "s"@, value: TagModel::Compound(sc) }),
        Option::None => base,
    };
    let with_e = match g.extension {
        Option::Some(ec) => with_s.push(
            TagEntryModel { name: "e"@, value: TagModel::Compound(ec) },
        ),
        Option::None => with_s,
    };
    with_e.push(
        TagEntryModel { name: "t"@, value: TagModel::Compound(spec_encode_materials(g.tiles)) },
    )
}

/// The tag value a whole group encodes to.
pub open spec fn spec_encode_group(g: GroupModel) -> TagModel {
    TagModel::Compound(spec_group_entries(g))
}

/// The child-list elements a sequence of groups encodes to.
pub open spec fn spec_encode_children(gs: Seq<GroupModel>) -> Seq<TagModel>
    decreases gs,
{
    if gs.len() == 0 {
        Seq::empty()
    } else {
        seq![TagModel::Compound(spec_group_entries(gs[0]))] + spec_encode_children(gs.drop_first())
    }
}

// ------------------------------------------------------------------
// The round-trip law: decoding an encoded well-formed group tree
// returns exactly that tree.
// ------------------------------------------------------------------

/// A lookup finds the first entry bearing the name.
pub proof fn lemma_lookup_in(es: Seq<TagEntryModel>, name: Seq<char>, k: int)
    requires
        0 <= k < es.len(),
        es[k].name == name,
        forall|j: int| 0 <= j < k ==> es[j].name != name,
    ensures
        spec_lookup(es, name) == Some(es[k].value),
    decreases k,
{
    if k > 0 {
        let d = es.drop_first();
        assert forall|j: int| 0 <= j < k - 1 implies d[j].name != name by {
            assert(d[j] == es[j + 1]);
        }
        assert(d[k - 1] == es[k]);
        lemma_lookup_in(d, name, k - 1);
    }
}

/// A lookup misses when no entry bears the name.
pub proof fn lemma_lookup_absent(es: Seq<TagEntryModel>, name: Seq<char>)
    requires
        forall|j: int| 0 <= j < es.len() ==> es[j].name != name,
    ensures
        spec_lookup(es, name) is None,
    decreases es.len(),
{
    if es.len() > 0 {
        let d = es.drop_first();
        assert forall|j: int| 0 <= j < d.len() implies d[j].name != name by {
            assert(d[j] == es[j + 1]);
        }
        lemma_lookup_absent(d, name);
    }
}

/// An encoded tile array is never mistaken for a color marker.
pub proof fn lemma_encode_tile_len(t: TileModel)
    ensures
        spec_encode_tile(t).len() >= 6,
{
}

/// Scanning the tile arrays of one bucket appends each decoded tile to the
/// final bucket of the accumulator, then goes on with the rest of the list.
proof fn lemma_scan_tiles(ts: Seq<TileModel>, cur: LittleColor, acc: Seq<BucketModel>, tail: Seq<
    TagModel,
>)
    requires
        forall|i: int| 0 <= i < ts.len() ==> #[trigger] ts[i].wf(),
        acc.len() > 0,
        acc[acc.len() - 1].color == cur,
        forall|j: int| 0 <= j < acc.len() - 1 ==> #[trigger] acc[j].color != cur,
    ensures
        spec_decode_items(spec_encode_tiles(ts) + tail, cur, acc) == spec_decode_items(
            tail,
            cur,
            acc.update(
                acc.len() - 1,
                BucketModel { color: cur, tiles: acc[acc.len() - 1].tiles + ts },
            ),
        ),
    decreases ts.len(),
{
    let last = acc.len() - 1;
    if ts.len() == 0 {
        assert(spec_encode_tiles(ts) + tail =~= tail);
        assert(acc[last].tiles + ts =~= acc[last].tiles);
        assert(BucketModel { color: cur, tiles: acc[last].tiles + ts } == acc[last]);
        assert(acc.update(last, BucketModel { color: cur, tiles: acc[last].tiles + ts }) =~= acc);
    } else {
        let t0 = ts[0];
        let items = spec_encode_tiles(ts) + tail;
        assert(items[0] == TagModel::IntArray(spec_encode_tile(t0)));
        lemma_encode_tile_len(t0);
        crate::tile::lemma_tile_round_trip(t0);
        lemma_bucket_idx(acc, cur);
        assert(spec_bucket_idx(acc, cur) == last);
        let acc1 = spec_bucket_add(acc, cur, t0);
        assert(acc1 == acc.update(last, BucketModel { color: cur, tiles: acc[last].tiles.push(t0) }));
        assert(items.drop_first() =~= spec_encode_tiles(ts.drop_first()) + tail);
        assert forall|i: int| 0 <= i < ts.drop_first().len() implies #[trigger] ts.drop_first()[i].wf() by {
            assert(ts.drop_first()[i] == ts[i + 1]);
            assert(ts[i + 1].wf());
        }
        assert forall|j: int| 0 <= j < acc1.len() - 1 implies #[trigger] acc1[j].color != cur by {
            assert(acc1[j] == acc[j]);
        }
        lemma_scan_tiles(ts.drop_first(), cur, acc1, tail);
        assert(acc1[last].tiles + ts.drop_first() =~= acc[last].tiles + ts);
        assert(acc1.update(
            last,
            BucketModel { color: cur, tiles: acc1[last].tiles + ts.drop_first() },
        ) =~= acc.update(last, BucketModel { color: cur, tiles: acc[last].tiles + ts }));
    }
}

/// Scanning the encoded buckets of one material appends exactly those
/// buckets to the accumulator, whatever the current color was before.
proof fn lemma_scan_buckets(bs: Seq<BucketModel>, cur: LittleColor, acc: Seq<BucketModel>)
    requires
        forall|i: int| 0 <= i < bs.len() ==> #[trigger] bs[i].wf(),
        forall|i: int, j: int| 0 <= i < j < bs.len() ==> bs[i].color != bs[j].color,
        forall|i: int, j: int|
            0 <= i < acc.len() && 0 <= j < bs.len() ==> acc[i].color != bs[j].color,
    ensures
        spec_decode_items(spec_encode_buckets(bs), cur, acc) == Some(acc + bs),
    decreases bs.len(),
{
    if bs.len() == 0 {
        assert(acc + bs =~= acc);
    } else {
        let b0 = bs[0];
        let c0 = b0.color;
        let ts = b0.tiles;
        let rest = bs.drop_first();
        let enc = spec_encode_buckets(bs);
        assert(b0.wf());
        assert(enc.len() > 0);
        assert(enc[0] == spec_marker(c0));
        crate::primitives::lemma_color_bijection();
        assert(spec_int_to_color(spec_color_to_int(c0)) == c0);
        assert(enc.drop_first() =~= spec_encode_tiles(ts) + spec_encode_buckets(rest));

        // the first tile array opens the bucket of the marked color
        let items1 = spec_encode_tiles(ts) + spec_encode_buckets(rest);
        assert(items1[0] == TagModel::IntArray(spec_encode_tile(ts[0])));
        lemma_encode_tile_len(ts[0]);
        assert(ts[0].wf());
        crate::tile::lemma_tile_round_trip(ts[0]);
        lemma_bucket_idx(acc, c0);
        assert(spec_bucket_idx(acc, c0) == -1) by {
            if spec_bucket_idx(acc, c0) != -1 {
                let i = spec_bucket_idx(acc, c0);
                assert(acc[i].color != bs[0].color);
            }
        }
        let acc1 = acc.push(BucketModel { color: c0, tiles: seq![ts[0]] });
        assert(spec_bucket_add(acc, c0, ts[0]) == acc1);
        assert(items1.drop_first() =~= spec_encode_tiles(ts.drop_first()) + spec_encode_buckets(
            rest,
        ));

        // the remaining tile arrays extend that bucket
        assert forall|i: int| 0 <= i < ts.drop_first().len() implies #[trigger] ts.drop_first()[i].wf() by {
            assert(ts.drop_first()[i] == ts[i + 1]);
            assert(ts[i + 1].wf());
        }
        assert forall|j: int| 0 <= j < acc1.len() - 1 implies #[trigger] acc1[j].color != c0 by {
            assert(acc1[j] == acc[j]);
            assert(acc[j].color != bs[0].color);
        }
        lemma_scan_tiles(ts.drop_first(), c0, acc1, spec_encode_buckets(rest));
        let acc2 = acc1.update(
            acc1.len() - 1,
            BucketModel { color: c0, tiles: acc1[acc1.len() - 1].tiles + ts.drop_first() },
        );
        assert(acc1[acc1.len() - 1].tiles =~= seq![ts[0]]);
        assert(acc1[acc1.len() - 1].tiles + ts.drop_first() =~= ts);
        assert(BucketModel { color: c0, tiles: acc1[acc1.len() - 1].tiles + ts.drop_first() }
            == b0);
        assert(acc2 =~= acc.push(b0));

        // chain the unfoldings of the scan
        assert(spec_decode_items(enc, cur, acc) == spec_decode_items(items1, c0, acc));
        assert(spec_decode_items(items1, c0, acc) == spec_decode_items(
            items1.drop_first(),
            c0,
            acc1,
        ));
        assert(spec_decode_items(items1.drop_first(), c0, acc1) == spec_decode_items(
            spec_encode_buckets(rest),
            c0,
            acc2,
        ));

        // the rest of the list carries the remaining buckets
        assert forall|i: int| 0 <= i < rest.len() implies #[trigger] rest[i].wf() by {
            assert(rest[i] == bs[i + 1]);
            assert(bs[i + 1].wf());
        }
        assert forall|i: int, j: int| 0 <= i < j < rest.len() implies rest[i].color
            != rest[j].color by {
            assert(rest[i] == bs[i + 1]);
            assert(rest[j] == bs[j + 1]);
        }
        assert forall|i: int, j: int|
            0 <= i < acc.push(b0).len() && 0 <= j < rest.len() implies acc.push(b0)[i].color
            != rest[j].color by {
            assert(rest[j] == bs[j + 1]);
            if i < acc.len() {
                assert(acc.push(b0)[i] == acc[i]);
            } else {
                assert(acc.push(b0)[i] == bs[0]);
            }
        }
        lemma_scan_buckets(rest, c0, acc.push(b0));
        assert(spec_decode_items(spec_encode_buckets(rest), c0, acc.push(b0)) == Some(
            acc.push(b0) + rest,
        ));
        assert(acc.push(b0) + rest =~= acc + bs);
    }
}

/// Decoding the encoded tile table of well-formed materials returns
/// exactly those materials.
proof fn lemma_materials_round_trip(ms: Seq<MaterialModel>)
    requires
        forall|i: int| 0 <= i < ms.len() ==> #[trigger] ms[i].wf(),
    ensures
        spec_decode_materials(spec_encode_materials(ms)) == Some(ms),
    decreases ms.len(),
{
    if ms.len() > 0 {
        let m0 = ms[0];
        assert(m0.wf());
        let enc = spec_encode_materials(ms);
        assert(enc[0].value == TagModel::List(spec_encode_buckets(m0.buckets)));
        lemma_scan_buckets(m0.buckets, LittleColor { r: 0, g: 0, b: 0, a: 0 }, Seq::empty());
        assert(Seq::<BucketModel>::empty() + m0.buckets =~= m0.buckets);
        assert forall|i: int| 0 <= i < ms.drop_first().len() implies #[trigger] ms.drop_first()[i].wf() by {
            assert(ms.drop_first()[i] == ms[i + 1]);
            assert(ms[i + 1].wf());
        }
        lemma_materials_round_trip(ms.drop_first());
        assert(enc.drop_first() =~= spec_encode_materials(ms.drop_first()));
        assert(MaterialModel { name: ms[0].name, buckets: m0.buckets } == m0);
        assert(seq![m0] + ms.drop_first() =~= ms);
    }
}

/// The five field names of an encoded group are pairwise distinct.
proof fn lemma_field_names_distinct()
    ensures
        "grid"@ != "c"@,
        "grid"@ != "s"@,
        "grid"@ != "e"@,
        "grid"@ != "t"@,
        "c"@ != "s"@,
        "c"@ != "e"@,
        "c"@ != "t"@,
        "s"@ != "e"@,
        "s"@ != "t"@,
        "e"@ != "t"@,
{
    reveal_strlit("grid");
    reveal_strlit("c");
    reveal_strlit("s");
    reveal_strlit("e");
    reveal_strlit("t");
    assert("grid"@.len() == 4);
    assert("c"@.len() == 1 && "c"@[0] == 'c');
    assert("s"@.len() == 1 && "s"@[0] == 's');
    assert("e"@.len() == 1 && "e"@[0] == 'e');
    assert("t"@.len() == 1 && "t"@[0] == 't');
}

/// Round-trip law for the group codec: decoding an encoded well-formed
/// group returns exactly that group.
pub proof fn lemma_group_round_trip(g: GroupModel)
    requires
        g.wf(),
    ensures
        spec_decode_group(spec_group_entries(g)) == Some(g),
    decreases g,
{
    lemma_field_names_distinct();
    let es = spec_group_entries(g);
    let centry = TagEntryModel {
        name: "c"@,
        value: TagModel::List(spec_encode_children(g.children)),
    };
    let tentry = TagEntryModel {
        name: "t"@,
        value: TagModel::Compound(spec_encode_materials(g.tiles)),
    };

    // locate each field in the encoded entry list
    lemma_lookup_in(es, "grid"@, 0);
    lemma_lookup_in(es, "c"@, 1);
    match (g.structure, g.extension) {
        (Option::None, Option::None) => {
            assert(es =~= seq![
                TagEntryModel { name: "grid"@, value: TagModel::Int(g.grid as i32) },
                centry,
                tentry,
            ]);
            lemma_lookup_absent(es, "s"@);
            lemma_lookup_absent(es, "e"@);
            lemma_lookup_in(es, "t"@, 2);
        },
        (Option::Some(sc), Option::None) => {
            lemma_lookup_in(es, "s"@, 2);
            lemma_lookup_absent(es, "e"@);
            lemma_lookup_in(es, "t"@, 3);
        },
        (Option::None, Option::Some(ec)) => {
            lemma_lookup_absent(es, "s"@);
            lemma_lookup_in(es, "e"@, 2);
            lemma_lookup_in(es, "t"@, 3);
        },
        (Option::Some(sc), Option::Some(ec)) => {
            lemma_lookup_in(es, "s"@, 2);
            lemma_lookup_in(es, "e"@, 3);
            lemma_lookup_in(es, "t"@, 4);
        },
    }

    // the grid survives the cast round trip
    assert(((g.grid as i32) as u16) == g.grid);

    // children and materials round-trip by induction
    lemma_children_round_trip(g.children);
    assert(forall|i: int| 0 <= i < g.tiles.len() ==> #[trigger] g.tiles[i].wf());
    lemma_materials_round_trip(g.tiles);
}

/// Decoding an encoded child list of well-formed groups returns exactly
/// those groups.
pub proof fn lemma_children_round_trip(gs: Seq<GroupModel>)
    requires
        groups_wf(gs),
    ensures
        spec_decode_children(spec_encode_children(gs)) == Some(gs),
    decreases gs,
{
    if gs.len() > 0 {
        let enc = spec_encode_children(gs);
        assert(enc[0] == TagModel::Compound(spec_group_entries(gs[0])));
        lemma_group_round_trip(gs[0]);
        lemma_children_round_trip(gs.drop_first());
        assert(enc.drop_first() =~= spec_encode_children(gs.drop_first()));
        assert(seq![gs[0]] + gs.drop_first() =~= gs);
    }
}

// ------------------------------------------------------------------
// Whatever decodes, decodes to a well-formed group tree.
// ------------------------------------------------------------------

/// Buckets as the scan maintains them: nonempty, well-formed tiles,
/// pairwise distinct colors.
pub open spec fn spec_buckets_wf(bs: Seq<BucketModel>) -> bool {
    &&& forall|i: int| 0 <= i < bs.len() ==> #[trigger] bs[i].wf()
    &&& forall|i: int, j: int| 0 <= i < j < bs.len() ==> bs[i].color != bs[j].color
}

/// The scan of a material's tile list keeps its buckets well-formed.
proof fn lemma_decode_items_wf(items: Seq<TagModel>, cur: LittleColor, acc: Seq<BucketModel>)
    requires
        spec_buckets_wf(acc),
    ensures
        spec_decode_items(items, cur, acc) matches Some(bs) ==> spec_buckets_wf(bs),
    decreases items.len(),
{
    if items.len() > 0 {
        match items[0] {
            TagModel::IntArray(a) => {
                if a.len() == 1 {
                    lemma_decode_items_wf(items.drop_first(), spec_int_to_color(a[0]), acc);
                } else {
                    match spec_decode_tile(a) {
                        Some(t) => {
                            crate::tile::lemma_decode_tile_wf(a);
                            lemma_bucket_idx(acc, cur);
                            let acc1 = spec_bucket_add(acc, cur, t);
                            let idx = spec_bucket_idx(acc, cur);
                            if idx == -1 {
                                assert forall|i: int| 0 <= i < acc1.len() implies #[trigger] acc1[i].wf() by {
                                    if i < acc.len() {
                                        assert(acc1[i] == acc[i]);
                                    } else {
                                        assert(acc1[i] == (BucketModel {
                                            color: cur,
                                            tiles: seq![t],
                                        }));
                                        assert(acc1[i].tiles[0] == t);
                                    }
                                }
                            } else {
                                let nb = BucketModel { color: cur, tiles: acc[idx].tiles.push(t) };
                                assert forall|i: int| 0 <= i < acc1.len() implies #[trigger] acc1[i].wf() by {
                                    if i == idx {
                                        assert(acc1[i] == nb);
                                        assert(acc[idx].wf());
                                        assert forall|k: int|
                                            0 <= k < nb.tiles.len() implies #[trigger] nb.tiles[k].wf() by {
                                            if k < acc[idx].tiles.len() {
                                                assert(nb.tiles[k] == acc[idx].tiles[k]);
                                            } else {
                                                assert(nb.tiles[k] == t);
                                            }
                                        }
                                    } else {
                                        assert(acc1[i] == acc[i]);
                                    }
                                }
                                assert forall|i: int, j: int|
                                    0 <= i < j < acc1.len() implies acc1[i].color
                                    != acc1[j].color by {
                                    assert(acc1[i].color == acc[i].color);
                                    assert(acc1[j].color == acc[j].color);
                                }
                            }
                            assert(spec_buckets_wf(acc1));
                            lemma_decode_items_wf(items.drop_first(), cur, acc1);
                        },
                        None => {},
                    }
                }
            },
            _ => {},
        }
    }
}

/// Whatever the tile table decodes to is made of well-formed materials.
proof fn lemma_decode_materials_wf(mats: Seq<TagEntryModel>)
    ensures
        spec_decode_materials(mats) matches Some(ms) ==> forall|i: int|
            0 <= i < ms.len() ==> #[trigger] ms[i].wf(),
    decreases mats.len(),
{
    if mats.len() > 0 {
        match mats[0].value {
            TagModel::List(items) => {
                lemma_decode_items_wf(
                    items,
                    LittleColor { r: 0, g: 0, b: 0, a: 0 },
                    Seq::empty(),
                );
                lemma_decode_materials_wf(mats.drop_first());
                match (
                    spec_decode_items(items, LittleColor { r: 0, g: 0, b: 0, a: 0 }, Seq::empty()),
                    spec_decode_materials(mats.drop_first()),
                ) {
                    (Some(buckets), Some(rest)) => {
                        let m0 = MaterialModel { name: mats[0].name, buckets };
                        let ms = seq![m0] + rest;
                        assert forall|i: int| 0 <= i < ms.len() implies #[trigger] ms[i].wf() by {
                            if i == 0 {
                                assert(ms[0] == m0);
                            } else {
                                assert(ms[i] == rest[i - 1]);
                                assert(rest[i - 1].wf());
                            }
                        }
                    },
                    _ => {},
                }
            },
            _ => {},
        }
    }
}

/// Whatever a compound decodes to is a well-formed group tree.
pub proof fn lemma_decode_group_wf(es: Seq<TagEntryModel>)
    ensures
        spec_decode_group(es) matches Some(g) ==> g.wf(),
    decreases entries_msize(es),
{
    match spec_lookup(es, "grid"@) {
        Some(TagModel::Int(_)) => {
            match spec_lookup(es, "c"@) {
                Option::Some(TagModel::List(items)) => {
                    lemma_lookup_msize(es, "c"@);
                    lemma_decode_children_wf(items);
                },
                _ => {},
            }
            match spec_lookup(es, "t"@) {
                Option::Some(TagModel::Compound(mats)) => {
                    lemma_decode_materials_wf(mats);
                },
                _ => {},
            }
        },
        _ => {},
    }
}

/// Whatever a child list decodes to is a sequence of well-formed groups.
pub proof fn lemma_decode_children_wf(items: Seq<TagModel>)
    ensures
        spec_decode_children(items) matches Some(gs) ==> groups_wf(gs),
    decreases list_msize(items),
{
    if items.len() > 0 {
        match items[0] {
            TagModel::Compound(ces) => {
                lemma_tag_msize_pos(items[0]);
                lemma_decode_group_wf(ces);
                lemma_decode_children_wf(items.drop_first());
                match (spec_decode_group(ces), spec_decode_children(items.drop_first())) {
                    (Some(h), Some(r)) => {
                        let gs = seq![h] + r;
                        assert(gs[0] == h);
                        assert(gs.drop_first() =~= r);
                        assert(groups_wf(gs));
                    },
                    _ => {},
                }
            },
            _ => {},
        }
    }
}

/// An encoded child list maps each group in place.
pub proof fn lemma_encode_children(gs: Seq<GroupModel>)
    ensures
        spec_encode_children(gs).len() == gs.len(),
        forall|i: int|
            0 <= i < gs.len() ==> #[trigger] spec_encode_children(gs)[i] == TagModel::Compound(
                spec_group_entries(gs[i]),
            ),
    decreases gs.len(),
{
    if gs.len() > 0 {
        lemma_encode_children(gs.drop_first());
    }
}

// ------------------------------------------------------------------
// Appended entries: what lets the blueprint share the root compound.
// ------------------------------------------------------------------

/// A name that is none of the five field names the group encoder writes.
pub open spec fn avoids_group_names(name: Seq<char>) -> bool {
    &&& name != "grid"@
    &&& name != "c"@
    &&& name != "s"@
    &&& name != "e"@
    &&& name != "t"@
}

/// Every entry the group encoder writes bears one of the five field names.
pub proof fn lemma_group_entry_names(g: GroupModel)
    ensures
        forall|j: int|
            0 <= j < spec_group_entries(g).len() ==> !avoids_group_names(
                #[trigger] spec_group_entries(g)[j].name,
            ),
{
    let es = spec_group_entries(g);
    assert forall|j: int| 0 <= j < es.len() implies !avoids_group_names(es[j].name) by {
        match (g.structure, g.extension) {
            (Option::None, Option::None) => {
                assert(es.len() == 3);
            },
            (Option::Some(sc), Option::None) => {
                assert(es.len() == 4);
            },
            (Option::None, Option::Some(ec)) => {
                assert(es.len() == 4);
            },
            (Option::Some(sc), Option::Some(ec)) => {
                assert(es.len() == 5);
            },
        }
    }
}

/// Looking a name up in a concatenation scans the left entries first.
pub proof fn lemma_lookup_append(a: Seq<TagEntryModel>, b: Seq<TagEntryModel>, name: Seq<char>)
    ensures
        spec_lookup(a + b, name) == (match spec_lookup(a, name) {
            Some(v) => Some(v),
            None => spec_lookup(b, name),
        }),
    decreases a.len(),
{
    if a.len() == 0 {
        assert(a + b =~= b);
    } else {
        assert((a + b)[0] == a[0]);
        assert((a + b).drop_first() =~= a.drop_first() + b);
        lemma_lookup_append(a.drop_first(), b, name);
    }
}

/// A name that avoids the five group field names is never found among a
/// group's encoded entries.
pub proof fn lemma_lookup_avoids(g: GroupModel, name: Seq<char>)
    requires
        avoids_group_names(name),
    ensures
        spec_lookup(spec_group_entries(g), name) is None,
{
    let es = spec_group_entries(g);
    lemma_group_entry_names(g);
    assert forall|j: int| 0 <= j < es.len() implies es[j].name != name by {
        assert(!avoids_group_names(es[j].name));
    }
    lemma_lookup_absent(es, name);
}

/// Entries appended after a group's own never change what it decodes to.
pub proof fn lemma_decode_group_append(es: Seq<TagEntryModel>, extra: Seq<TagEntryModel>)
    requires
        forall|k: int| 0 <= k < extra.len() ==> avoids_group_names(#[trigger] extra[k].name),
    ensures
        spec_decode_group(es + extra) == spec_decode_group(es),
{
    lemma_lookup_append(es, extra, "grid"@);
    lemma_lookup_append(es, extra, "c"@);
    lemma_lookup_append(es, extra, "s"@);
    lemma_lookup_append(es, extra, "e"@);
    lemma_lookup_append(es, extra, "t"@);
    assert forall|k: int| 0 <= k < extra.len() implies extra[k].name != "grid"@ by {
        assert(avoids_group_names(extra[k].name));
    }
    assert forall|k: int| 0 <= k < extra.len() implies extra[k].name != "c"@ by {
        assert(avoids_group_names(extra[k].name));
    }
    assert forall|k: int| 0 <= k < extra.len() implies extra[k].name != "s"@ by {
        assert(avoids_group_names(extra[k].name));
    }
    assert forall|k: int| 0 <= k < extra.len() implies extra[k].name != "e"@ by {
        assert(avoids_group_names(extra[k].name));
    }
    assert forall|k: int| 0 <= k < extra.len() implies extra[k].name != "t"@ by {
        assert(avoids_group_names(extra[k].name));
    }
    lemma_lookup_absent(extra, "grid"@);
    lemma_lookup_absent(extra, "c"@);
    lemma_lookup_absent(extra, "s"@);
    lemma_lookup_absent(extra, "e"@);
    lemma_lookup_absent(extra, "t"@);
}

// ------------------------------------------------------------------
// The executable decoder.
// ------------------------------------------------------------------

/// Appends a tile to the bucket of its color, opening a new bucket at the
/// end when that color has none yet.
fn bucket_add(buckets: &mut Vec<ColorBucket>, c: LittleColor, t: LittleTile)
    ensures
        buckets_view(final(buckets)@) == spec_bucket_add(
            buckets_view(old(buckets)@),
            c,
            tile_view(t),
        ),
{
    let ghost bv = buckets_view(old(buckets)@);
    proof {
        lemma_bucket_idx(bv, c);
    }
    let mut k: usize = 0;
    #[verifier::loop_isolation(false)]
    while k < buckets.len()
        invariant
            k <= buckets@.len(),
            buckets@ == old(buckets)@,
            forall|j: int| 0 <= j < k ==> #[trigger] bv[j].color != c,
        decreases buckets@.len() - k,
    {
        if buckets[k].color == c {
            proof {
                assert(bv[k as int].color == c);
                assert(spec_bucket_idx(bv, c) == k as int);
            }
            let mut b = buckets.remove(k);
            b.tiles.push(t);
            buckets.insert(k, b);
            proof {
                let nb = BucketModel {
                    color: c,
                    tiles: bv[k as int].tiles.push(tile_view(t)),
                };
                assert(tiles_view(buckets@[k as int].tiles@) =~= bv[k as int].tiles.push(
                    tile_view(t),
                ));
                assert(bucket_view(buckets@[k as int]) == nb);
                assert(buckets_view(buckets@) =~= bv.update(k as int, nb));
            }
            return;
        }
        k = k + 1;
    }
    proof {
        assert(spec_bucket_idx(bv, c) == -1) by {
            lemma_bucket_idx(bv, c);
            if spec_bucket_idx(bv, c) != -1 {
                let i = spec_bucket_idx(bv, c);
                assert(bv[i].color != c);
            }
        }
    }
    let mut tv: Vec<LittleTile> = Vec::new();
    tv.push(t);
    buckets.push(ColorBucket { color: c, tiles: tv });
    proof {
        assert(tiles_view(buckets@[buckets@.len() - 1].tiles@) =~= seq![tile_view(t)]);
        assert(buckets_view(buckets@) =~= bv.push(
            BucketModel { color: c, tiles: seq![tile_view(t)] },
        ));
    }
}

impl LittleGroup {
    /// Decodes a compound tag node into a group. Fails with `InvalidFormat`
    /// exactly when a required field is missing, a field has the wrong tag
    /// kind, or a nested tile or child group is malformed; unknown entries
    /// are ignored.
    pub fn try_from(nbt: &TagCompound) -> (r: Result<LittleGroup, ParseError>)
        ensures
            match r {
                Ok(g) => {
                    &&& spec_decode_group(compound_view(*nbt)) == Some(group_view(g))
                    &&& group_view(g).wf()
                },
                Err(e) => {
                    &&& e == ParseError::InvalidFormat
                    &&& spec_decode_group(compound_view(*nbt)) is None
                },
            },
        decreases entries_msize(compound_view(*nbt)),
    {
        let ghost es = compound_view(*nbt);

        // grid: required integer
        let grid_i: i32 = match nbt.get("grid") {
            Some(TagNode::Int(v)) => *v,
            Some(other) => {
                proof {
                    crate::tag::lemma_tag_view_kind(*other);
                }
                return Err(ParseError::InvalidFormat);
            },
            None => {
                return Err(ParseError::InvalidFormat);
            },
        };
        let grid: u16 = #[verifier::truncate] (grid_i as u16);

        // children: optional list of compounds, each a group
        let mut children: Vec<LittleGroup> = Vec::new();
        let ghost spec_children = match spec_lookup(es, "c"@) {
            Option::None => Some(Seq::<GroupModel>::empty()),
            Option::Some(TagModel::List(items)) => spec_decode_children(items),
            Option::Some(_) => None,
        };
        match nbt.get("c") {
            None => {
                proof {
                    assert(groups_view(children@) =~= Seq::<GroupModel>::empty());
                }
            },
            Some(TagNode::List(items)) => {
                proof {
                    lemma_lookup_msize(es, "c"@);
                    lemma_list_view(items@);
                }
                let ghost lv = list_view(items@);
                proof {
                    assert(lv.skip(0) =~= lv);
                    assert(groups_view(children@) =~= Seq::<GroupModel>::empty());
                }
                let mut i: usize = 0;
                #[verifier::loop_isolation(false)]
                while i < items.len()
                    invariant
                        i <= items@.len(),
                        spec_decode_children(lv) == (match spec_decode_children(
                            lv.skip(i as int),
                        ) {
                            Some(rest) => Some(groups_view(children@) + rest),
                            None => None::<Seq<GroupModel>>,
                        }),
                    decreases items@.len() - i,
                {
                    proof {
                        assert(lv.skip(i as int)[0] == lv[i as int]);
                        assert(lv.skip(i as int).drop_first() =~= lv.skip(i + 1 as int));
                    }
                    match &items[i] {
                        TagNode::Compound(child) => {
                            proof {
                                lemma_list_elem_msize(lv, i as int);
                                vstd::std_specs::vec::axiom_vec_index_decreases(*items, i as int);
                            }
                            let g = match LittleGroup::try_from(child) {
                                Ok(g) => g,
                                Err(e) => {
                                    return Err(e);
                                },
                            };
                            let ghost old_children = children@;
                            children.push(g);
                            proof {
                                lemma_groups_view(old_children);
                                lemma_groups_view(children@);
                                assert(groups_view(children@) =~= groups_view(old_children).push(
                                    group_view(g),
                                ));
                                assert forall|rest: Seq<GroupModel>|
                                    true implies (groups_view(old_children) + (seq![group_view(g)]
                                    + rest)) =~= (groups_view(children@) + rest) by {}
                            }
                        },
                        other => {
                            proof {
                                crate::tag::lemma_tag_view_kind(*other);
                            }
                            return Err(ParseError::InvalidFormat);
                        },
                    }
                    i = i + 1;
                }
                proof {
                    assert(lv.skip(i as int).len() == 0);
                    assert(groups_view(children@) + Seq::<GroupModel>::empty() =~= groups_view(
                        children@,
                    ));
                }
            },
            Some(other) => {
                proof {
                    crate::tag::lemma_tag_view_kind(*other);
                }
                return Err(ParseError::InvalidFormat);
            },
        }
        proof {
            assert(spec_children == Some(groups_view(children@)));
        }

        // structure and extension: optional opaque compounds
        let structure: Option<TagCompound> = match nbt.get("s") {
            None => None,
            Some(TagNode::Compound(c)) => Some(c.deep_clone()),
            Some(other) => {
                proof {
                    crate::tag::lemma_tag_view_kind(*other);
                }
                return Err(ParseError::InvalidFormat);
            },
        };
        let extension: Option<TagCompound> = match nbt.get("e") {
            None => None,
            Some(TagNode::Compound(c)) => Some(c.deep_clone()),
            Some(other) => {
                proof {
                    crate::tag::lemma_tag_view_kind(*other);
                }
                return Err(ParseError::InvalidFormat);
            },
        };

        // tiles: required per-material table
        let mut tiles: Vec<MaterialEntry> = Vec::new();
        match nbt.get("t") {
            Some(TagNode::Compound(mt)) => {
                let ghost mats = compound_view(*mt);
                proof {
                    crate::tag::lemma_entries_view(mt.entries@);
                    assert(mats.skip(0) =~= mats);
                    assert(materials_view(tiles@) =~= Seq::<MaterialModel>::empty());
                }
                let mut mi: usize = 0;
                #[verifier::loop_isolation(false)]
                while mi < mt.entries.len()
                    invariant
                        mi <= mt.entries@.len(),
                        spec_decode_materials(mats) == (match spec_decode_materials(
                            mats.skip(mi as int),
                        ) {
                            Some(rest) => Some(materials_view(tiles@) + rest),
                            None => None::<Seq<MaterialModel>>,
                        }),
                    decreases mt.entries@.len() - mi,
                {
                    proof {
                        assert(mats.skip(mi as int)[0] == mats[mi as int]);
                        assert(mats.skip(mi as int).drop_first() =~= mats.skip(mi + 1 as int));
                    }
                    let mat_name = mt.entries[mi].name.clone();
                    match &mt.entries[mi].value {
                        TagNode::List(flat) => {
                            proof {
                                lemma_list_view(flat@);
                            }
                            let ghost fl = list_view(flat@);
                            let mut buckets: Vec<ColorBucket> = Vec::new();
                            let mut cur = LittleColor::default_color();
                            proof {
                                assert(fl.skip(0) =~= fl);
                                assert(buckets_view(buckets@) =~= Seq::<BucketModel>::empty());
                            }
                            let mut fi: usize = 0;
                            #[verifier::loop_isolation(false)]
                            while fi < flat.len()
                                invariant
                                    fi <= flat@.len(),
                                    spec_decode_items(
                                        fl,
                                        LittleColor { r: 0, g: 0, b: 0, a: 0 },
                                        Seq::empty(),
                                    ) == spec_decode_items(
                                        fl.skip(fi as int),
                                        cur,
                                        buckets_view(buckets@),
                                    ),
                                decreases flat@.len() - fi,
                            {
                                proof {
                                    assert(fl.skip(fi as int)[0] == fl[fi as int]);
                                    assert(fl.skip(fi as int).drop_first() =~= fl.skip(
                                        fi + 1 as int,
                                    ));
                                }
                                match &flat[fi] {
                                    TagNode::IntArray(ar) => {
                                        if ar.len() == 1 {
                                            cur = match LittleColor::try_from(ar[0]) {
                                                Ok(c) => c,
                                                Err(e) => {
                                                    return Err(e);
                                                },
                                            };
                                        } else {
                                            let tile = match LittleTile::try_from(
                                                crate::tag::copy_vec(ar),
                                            ) {
                                                Ok(t) => t,
                                                Err(e) => {
                                                    return Err(e);
                                                },
                                            };
                                            bucket_add(&mut buckets, cur, tile);
                                        }
                                    },
                                    other => {
                                        proof {
                                            crate::tag::lemma_tag_view_kind(*other);
                                        }
                                        return Err(ParseError::InvalidFormat);
                                    },
                                }
                                fi = fi + 1;
                            }
                            proof {
                                assert(fl.skip(fi as int).len() == 0);
                            }
                            let ghost old_tiles = tiles@;
                            tiles.push(MaterialEntry { material: mat_name, buckets });
                            proof {
                                assert(materials_view(tiles@) =~= materials_view(old_tiles).push(
                                    material_view(tiles@[tiles@.len() - 1]),
                                ));
                                assert(material_view(tiles@[tiles@.len() - 1])
                                    == (MaterialModel {
                                    name: mats[mi as int].name,
                                    buckets: buckets_view(buckets@),
                                }));
                                assert forall|rest: Seq<MaterialModel>|
                                    true implies (materials_view(old_tiles) + (seq![
                                    MaterialModel {
                                        name: mats[mi as int].name,
                                        buckets: buckets_view(buckets@),
                                    },
                                ] + rest)) =~= (materials_view(tiles@) + rest) by {}
                            }
                        },
                        other => {
                            proof {
                                crate::tag::lemma_tag_view_kind(*other);
                            }
                            return Err(ParseError::InvalidFormat);
                        },
                    }
                    mi = mi + 1;
                }
                proof {
                    assert(mats.skip(mi as int).len() == 0);
                    assert(materials_view(tiles@) + Seq::<MaterialModel>::empty()
                        =~= materials_view(tiles@));
                }
            },
            Some(other) => {
                proof {
                    crate::tag::lemma_tag_view_kind(*other);
                }
                return Err(ParseError::InvalidFormat);
            },
            None => {
                return Err(ParseError::InvalidFormat);
            },
        }

        let g = LittleGroup { grid, children, tiles, structure, extension };
        proof {
            assert(spec_decode_group(es) == Some(group_view(g)));
            lemma_decode_group_wf(es);
        }
        Ok(g)
    }
}

// ------------------------------------------------------------------
// The executable encoder.
// ------------------------------------------------------------------

/// Appending a bucket extends the flat list by its marker and tile arrays.
proof fn lemma_encode_buckets_snoc(bs: Seq<BucketModel>, b: BucketModel)
    ensures
        spec_encode_buckets(bs.push(b)) == spec_encode_buckets(bs) + (seq![spec_marker(b.color)]
            + spec_encode_tiles(b.tiles)),
    decreases bs.len(),
{
    if bs.len() == 0 {
        assert(bs.push(b)[0] == b);
        assert(bs.push(b).drop_first() =~= Seq::<BucketModel>::empty());
        assert(spec_encode_buckets(Seq::<BucketModel>::empty()) =~= Seq::<TagModel>::empty());
        assert(spec_encode_buckets(bs.push(b)) =~= spec_encode_buckets(bs) + (seq![
            spec_marker(b.color),
        ] + spec_encode_tiles(b.tiles)));
    } else {
        let e1 = seq![spec_marker(bs[0].color)] + spec_encode_tiles(bs[0].tiles);
        let eb = seq![spec_marker(b.color)] + spec_encode_tiles(b.tiles);
        assert(bs.push(b)[0] == bs[0]);
        assert(bs.push(b).drop_first() =~= bs.drop_first().push(b));
        lemma_encode_buckets_snoc(bs.drop_first(), b);
        assert(spec_encode_buckets(bs.push(b)) == e1 + (spec_encode_buckets(bs.drop_first())
            + eb));
        assert(spec_encode_buckets(bs) == e1 + spec_encode_buckets(bs.drop_first()));
        assert(e1 + (spec_encode_buckets(bs.drop_first()) + eb) =~= (e1 + spec_encode_buckets(
            bs.drop_first(),
        )) + eb);
    }
}

/// Appending a material extends the tile table by one entry.
proof fn lemma_encode_materials_snoc(ms: Seq<MaterialModel>, m: MaterialModel)
    ensures
        spec_encode_materials(ms.push(m)) == spec_encode_materials(ms).push(
            TagEntryModel { name: m.name, value: TagModel::List(spec_encode_buckets(m.buckets)) },
        ),
    decreases ms.len(),
{
    if ms.len() == 0 {
        assert(ms.push(m)[0] == m);
        assert(ms.push(m).drop_first() =~= Seq::<MaterialModel>::empty());
        assert(spec_encode_materials(Seq::<MaterialModel>::empty()) =~= Seq::<
            TagEntryModel,
        >::empty());
        assert(spec_encode_materials(ms.push(m)) =~= spec_encode_materials(ms).push(
            TagEntryModel { name: m.name, value: TagModel::List(spec_encode_buckets(m.buckets)) },
        ));
    } else {
        let e1 = seq![
            TagEntryModel {
                name: ms[0].name,
                value: TagModel::List(spec_encode_buckets(ms[0].buckets)),
            },
        ];
        let em = TagEntryModel {
            name: m.name,
            value: TagModel::List(spec_encode_buckets(m.buckets)),
        };
        assert(ms.push(m)[0] == ms[0]);
        assert(ms.push(m).drop_first() =~= ms.drop_first().push(m));
        lemma_encode_materials_snoc(ms.drop_first(), m);
        assert(spec_encode_materials(ms.push(m)) == e1 + spec_encode_materials(
            ms.drop_first(),
        ).push(em));
        assert(spec_encode_materials(ms) == e1 + spec_encode_materials(ms.drop_first()));
        assert(e1 + spec_encode_materials(ms.drop_first()).push(em) =~= (e1
            + spec_encode_materials(ms.drop_first())).push(em));
    }
}

impl LittleGroup {
    /// Encodes a group into a compound tag node: `grid`, the child list,
    /// the optional opaque sub-trees, then the per-material tile table with
    /// a color marker before each color's tile arrays. Never fails for
    /// values whose tiles are well-formed; the fallible interface mirrors
    /// the rest of the codec.
    pub fn try_into(&self) -> (r: Result<TagCompound, ParseError>)
        requires
            group_view(*self).tiles_wf(),
        ensures
            r matches Ok(c) && compound_view(c) == spec_group_entries(group_view(*self)),
        decreases *self,
    {
        let ghost gm = group_view(*self);
        let mut nbt = TagCompound::new();
        nbt.insert(String::from_str("grid"), TagNode::Int(self.grid as i32));

        // children
        proof {
            lemma_groups_view(self.children@);
            lemma_groups_wf(gm.children);
        }
        let mut clist: Vec<TagNode> = Vec::new();
        let mut i: usize = 0;
        #[verifier::loop_isolation(false)]
        while i < self.children.len()
            invariant
                i <= self.children@.len(),
                clist@.len() == i,
                forall|j: int|
                    0 <= j < i ==> #[trigger] tag_view(clist@[j]) == TagModel::Compound(
                        spec_group_entries(group_view(self.children@[j])),
                    ),
            decreases self.children@.len() - i,
        {
            proof {
                vstd::std_specs::vec::axiom_vec_index_decreases(self.children, i as int);
                assert(gm.children[i as int] == group_view(self.children@[i as int]));
                assert(gm.children[i as int].tiles_wf());
            }
            let child_nbt = match LittleGroup::try_into(&self.children[i]) {
                Ok(c) => c,
                Err(e) => {
                    return Err(e);
                },
            };
            clist.push(TagNode::Compound(child_nbt));
            i = i + 1;
        }
        proof {
            lemma_encode_children(gm.children);
            lemma_list_view(clist@);
            assert(list_view(clist@) =~= spec_encode_children(gm.children));
        }
        nbt.insert(String::from_str("c"), TagNode::List(clist));

        // optional opaque sub-trees
        match &self.structure {
            Some(sc) => {
                nbt.insert(String::from_str("s"), TagNode::Compound(sc.deep_clone()));
            },
            None => {},
        }
        match &self.extension {
            Some(ec) => {
                nbt.insert(String::from_str("e"), TagNode::Compound(ec.deep_clone()));
            },
            None => {},
        }

        // per-material tile table
        let mut mt = TagCompound::new();
        let mut mi: usize = 0;
        proof {
            assert(materials_view(self.tiles@).take(0) =~= Seq::<MaterialModel>::empty());
        }
        #[verifier::loop_isolation(false)]
        while mi < self.tiles.len()
            invariant
                mi <= self.tiles@.len(),
                compound_view(mt) == spec_encode_materials(
                    materials_view(self.tiles@).take(mi as int),
                ),
            decreases self.tiles@.len() - mi,
        {
            let m = &self.tiles[mi];
            let ghost mv = material_view(*m);
            proof {
                assert(gm.tiles[mi as int] == mv);
                assert(mv.tiles_wf());
            }
            let mut flat: Vec<TagNode> = Vec::new();
            let mut bi: usize = 0;
            proof {
                assert(mv.buckets.take(0) =~= Seq::<BucketModel>::empty());
                assert(list_view(flat@) =~= spec_encode_buckets(mv.buckets.take(0)));
            }
            #[verifier::loop_isolation(false)]
            while bi < m.buckets.len()
                invariant
                    bi <= m.buckets@.len(),
                    list_view(flat@) == spec_encode_buckets(mv.buckets.take(bi as int)),
                decreases m.buckets@.len() - bi,
            {
                let b = &m.buckets[bi];
                let ghost bm = bucket_view(*b);
                proof {
                    assert(mv.buckets[bi as int] == bm);
                    assert(bm.tiles_wf());
                }
                let c_val = match b.color.try_into() {
                    Ok(v) => v,
                    Err(e) => {
                        return Err(e);
                    },
                };
                let mut marker: Vec<i32> = Vec::new();
                marker.push(c_val);
                let ghost flat_before = flat@;
                flat.push(TagNode::IntArray(marker));
                proof {
                    lemma_list_view(flat_before);
                    lemma_list_view(flat@);
                    assert(marker@ =~= seq![spec_color_to_int(bm.color)]);
                    assert(list_view(flat@) =~= list_view(flat_before).push(spec_marker(bm.color)));
                }
                let mut ti: usize = 0;
                proof {
                    assert(spec_encode_tiles(bm.tiles).take(0) =~= Seq::<TagModel>::empty());
                    assert(list_view(flat@) =~= spec_encode_buckets(mv.buckets.take(bi as int)) + (
                    seq![spec_marker(bm.color)] + spec_encode_tiles(bm.tiles).take(0)));
                }
                #[verifier::loop_isolation(false)]
                while ti < b.tiles.len()
                    invariant
                        ti <= b.tiles@.len(),
                        list_view(flat@) == spec_encode_buckets(mv.buckets.take(bi as int)) + (seq![
                            spec_marker(bm.color),
                        ] + spec_encode_tiles(bm.tiles).take(ti as int)),
                    decreases b.tiles@.len() - ti,
                {
                    proof {
                        assert(bm.tiles[ti as int] == tile_view(b.tiles@[ti as int]));
                        assert(bm.tiles[ti as int].wf());
                    }
                    let arr = match b.tiles[ti].duplicate().try_into() {
                        Ok(a) => a,
                        Err(e) => {
                            return Err(e);
                        },
                    };
                    let ghost flat_before2 = flat@;
                    flat.push(TagNode::IntArray(arr));
                    proof {
                        lemma_list_view(flat_before2);
                        lemma_list_view(flat@);
                        assert(list_view(flat@) =~= list_view(flat_before2).push(
                            TagModel::IntArray(spec_encode_tile(bm.tiles[ti as int])),
                        ));
                        assert(spec_encode_tiles(bm.tiles).take(ti + 1 as int)
                            =~= spec_encode_tiles(bm.tiles).take(ti as int).push(
                            TagModel::IntArray(spec_encode_tile(bm.tiles[ti as int])),
                        ));
                        assert(list_view(flat@) =~= spec_encode_buckets(mv.buckets.take(bi as int))
                            + (seq![spec_marker(bm.color)] + spec_encode_tiles(bm.tiles).take(
                            ti + 1 as int,
                        )));
                    }
                    ti = ti + 1;
                }
                proof {
                    assert(spec_encode_tiles(bm.tiles).take(ti as int) =~= spec_encode_tiles(
                        bm.tiles,
                    ));
                    lemma_encode_buckets_snoc(mv.buckets.take(bi as int), bm);
                    assert(mv.buckets.take(bi + 1 as int) =~= mv.buckets.take(bi as int).push(bm));
                    assert(list_view(flat@) =~= spec_encode_buckets(mv.buckets.take(bi + 1 as int)));
                }
                bi = bi + 1;
            }
            proof {
                assert(mv.buckets.take(bi as int) =~= mv.buckets);
            }
            let ghost mt_before = compound_view(mt);
            mt.insert(m.material.clone(), TagNode::List(flat));
            proof {
                lemma_encode_materials_snoc(materials_view(self.tiles@).take(mi as int), mv);
                assert(materials_view(self.tiles@).take(mi + 1 as int) =~= materials_view(
                    self.tiles@,
                ).take(mi as int).push(mv));
                assert(compound_view(mt) =~= spec_encode_materials(
                    materials_view(self.tiles@).take(mi + 1 as int),
                ));
            }
            mi = mi + 1;
        }
        proof {
            assert(materials_view(self.tiles@).take(mi as int) =~= materials_view(self.tiles@));
        }
        nbt.insert(String::from_str("t"), TagNode::Compound(mt));
        proof {
            assert(compound_view(nbt) =~= spec_group_entries(gm));
        }
        Ok(nbt)
    }
}

} // verus!
