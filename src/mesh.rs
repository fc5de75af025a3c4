//! Export-ready meshes: surfaces expanded to triangles, rigid skins,
//! skeleton trees, joint numbering and bit-exact vertex merging.

use vstd::prelude::*;

use crate::cinf::Cinf;
use crate::cmdl::Cmdl;
use crate::cskr::{Cskr, VertexGroup};
use crate::error::{Error, Field};
use crate::ancs::Ancs;
use crate::cinf::Bone;
use crate::gx::{batch_views, decode_display_list, Batch, SkinAttributes, TablesView, Vec2Bits, Vec3Bits, Vertex, VertexSources};
use crate::pak::{lookup, Pak};
use crate::cmdl::{cmdl_read, cmdl_result};
use crate::cinf::{cinf_read, cinf_result};
use crate::cskr::skin_from;
use crate::reader::Reader;

verus! {

/// The vertices of all runs, one after the other.
pub open spec fn concat_runs(runs: Seq<Seq<Vertex>>) -> Seq<Vertex>
    decreases runs.len(),
{
    if runs.len() == 0 {
        Seq::empty()
    } else {
        concat_runs(runs.drop_last()) + runs.last()
    }
}

/// A surface's expanded triangles and the textures its material uses.
pub struct CanonicalMeshSurface {
    pub texture_indices: Vec<u32>,
    pub vertices: Vec<Vertex>,
}

/// A joint of the exported skeleton and the joints below it.
pub struct CanonicalMeshBone {
    pub name: String,
    pub id: u32,
    pub position: Vec3Bits,
    pub children: Vec<CanonicalMeshBone>,
}

pub struct CanonicalMeshSkin {
    pub skeleton: CanonicalMeshBone,
    pub skin: Cskr,
}

/// A model's surfaces ready for export, with the texture ids of its material
/// set and, for a character, its skin and skeleton.
pub struct CanonicalMesh {
    pub skin: Option<CanonicalMeshSkin>,
    pub surfaces: Vec<CanonicalMeshSurface>,
    pub texture_ids: Vec<u32>,
}

/// One vertex of an export buffer; every float is kept as its bit pattern,
/// so equality is equality of bits.
#[derive(Clone, Copy, Debug, PartialEq, Eq, Structural)]
pub struct ExportVertex {
    pub position: Vec3Bits,
    pub normal: Vec3Bits,
    pub texcoord: Vec2Bits,
    pub joint: u32,
    pub weight: u32,
}

/// The distinct vertices of `v`, in the order in which each first appears.
pub open spec fn distinct_in_order(v: Seq<ExportVertex>) -> Seq<ExportVertex>
    decreases v.len(),
{
    if v.len() == 0 {
        Seq::empty()
    } else {
        let d = distinct_in_order(v.drop_last());
        if d.contains(v.last()) {
            d
        } else {
            d.push(v.last())
        }
    }
}

/// Per-vertex bone ids and weights for a rigid skin: each group's single
/// weight repeated once for each vertex the group covers.
pub open spec fn rigid_tables(g: Seq<(Seq<crate::cskr::Weight>, u32)>) -> (Seq<u32>, Seq<u32>)
    decreases g.len(),
{
    if g.len() == 0 {
        (Seq::empty(), Seq::empty())
    } else {
        let (b, w) = rigid_tables(g.drop_last());
        let last = g.last();
        (
            b + Seq::new(last.1 as nat, |i: int| last.0[0].bone_id),
            w + Seq::new(last.1 as nat, |i: int| last.0[0].weight),
        )
    }
}

pub open spec fn all_rigid(g: Seq<(Seq<crate::cskr::Weight>, u32)>) -> bool {
    forall|i: int| 0 <= i < g.len() ==> (#[trigger] g[i]).1 == 0 || g[i].0.len() == 1
}

/// Builds the per-vertex bone ids and weights of a skin; a group that gives
/// its vertices more or fewer than one weight is not supported.
pub fn rigid_skin_tables(skin: &Cskr) -> (r: Result<SkinAttributes, Error>)
    ensures
        all_rigid(crate::cskr::group_views(skin.vertex_groups@)) ==> (r is Ok && (r->Ok_0.bone_ids@,
            r->Ok_0.weights@) == rigid_tables(crate::cskr::group_views(skin.vertex_groups@))),
        !all_rigid(crate::cskr::group_views(skin.vertex_groups@)) ==> (r is Err && r->Err_0
            == Error::UnsupportedFormat),
{
    let ghost gv = crate::cskr::group_views(skin.vertex_groups@);
    let mut bone_ids: Vec<u32> = Vec::new();
    let mut weights: Vec<u32> = Vec::new();
    let mut i: usize = 0;
    while i < skin.vertex_groups.len()
        invariant
            i <= skin.vertex_groups@.len(),
            gv == crate::cskr::group_views(skin.vertex_groups@),
            all_rigid(gv.take(i as int)),
            (bone_ids@, weights@) == rigid_tables(gv.take(i as int)),
        decreases skin.vertex_groups@.len() - i,
    {
        let g: &VertexGroup = &skin.vertex_groups[i];
        let ghost before = (bone_ids@, weights@);
        if g.vertex_count > 0 {
            if g.weights.len() != 1 {
                assert(!((#[trigger] gv[i as int]).1 == 0 || gv[i as int].0.len() == 1));
                return Err(Error::UnsupportedFormat);
            }
            let bone_id = g.weights[0].bone_id;
            let weight = g.weights[0].weight;
            let mut k: u32 = 0;
            while k < g.vertex_count
                invariant
                    k <= g.vertex_count,
                    g.weights@.len() == 1,
                    bone_id == g.weights@[0].bone_id,
                    weight == g.weights@[0].weight,
                    bone_ids@ == before.0 + Seq::new(k as nat, |j: int| bone_id),
                    weights@ == before.1 + Seq::new(k as nat, |j: int| weight),
                decreases g.vertex_count - k,
            {
                bone_ids.push(bone_id);
                weights.push(weight);
                assert(before.0 + Seq::new((k + 1) as nat, |j: int| bone_id) =~= before.0 + Seq::new(k as nat, |j: int| bone_id) + seq![bone_id]);
                assert(before.1 + Seq::new((k + 1) as nat, |j: int| weight) =~= before.1 + Seq::new(k as nat, |j: int| weight) + seq![weight]);
                k = k + 1;
            }
            proof {
                assert(gv[i as int] == g.view_pair());
                assert(Seq::new(g.vertex_count as nat, |j: int| bone_id) =~= Seq::new(g.vertex_count as nat, |j: int| gv[i as int].0[0].bone_id));
                assert(Seq::new(g.vertex_count as nat, |j: int| weight) =~= Seq::new(g.vertex_count as nat, |j: int| gv[i as int].0[0].weight));
            }
        } else {
            proof {
                assert(bone_ids@ =~= before.0 + Seq::new(0, |j: int| gv[i as int].0[0].bone_id));
                assert(weights@ =~= before.1 + Seq::new(0, |j: int| gv[i as int].0[0].weight));
            }
        }
        proof {
            let t = gv.take(i + 1);
            assert(t.drop_last() =~= gv.take(i as int));
            assert(t.last() == gv[i as int]);
            assert forall|j: int| 0 <= j < i + 1 implies (#[trigger] t[j]).1 == 0 || t[j].0.len() == 1 by {
                if j < i {
                    assert(t[j] == gv.take(i as int)[j]);
                }
            }
        }
        i = i + 1;
    }
    assert(gv.take(skin.vertex_groups@.len() as int) =~= gv);
    Ok(SkinAttributes { bone_ids, weights })
}

/// The position of `v` within `u`, which holds it.
pub open spec fn position_in(u: Seq<ExportVertex>, v: ExportVertex) -> int {
    choose|k: int| 0 <= k < u.len() && u[k] == v
}

/// For each vertex of `v`, where its copy stands among the distinct vertices.
pub open spec fn index_buffer(v: Seq<ExportVertex>) -> Seq<int> {
    Seq::new(v.len(), |i: int| position_in(distinct_in_order(v), v[i]))
}

pub open spec fn no_duplicates(u: Seq<ExportVertex>) -> bool {
    forall|i: int, j: int| 0 <= i < j < u.len() ==> u[i] != u[j]
}

proof fn lemma_distinct_props(v: Seq<ExportVertex>)
    ensures
        no_duplicates(distinct_in_order(v)),
        forall|i: int| 0 <= i < v.len() ==> distinct_in_order(v).contains(#[trigger] v[i]),
        forall|k: int| 0 <= k < distinct_in_order(v).len() ==> v.contains(#[trigger] distinct_in_order(v)[k]),
    decreases v.len(),
{
    if v.len() > 0 {
        let p = v.drop_last();
        lemma_distinct_props(p);
        let d = distinct_in_order(p);
        assert forall|i: int| 0 <= i < v.len() implies distinct_in_order(v).contains(#[trigger] v[i]) by {
            if i < v.len() - 1 {
                assert(p[i] == v[i]);
                if !d.contains(v.last()) {
                    let k = choose|k: int| 0 <= k < d.len() && d[k] == v[i];
                    assert(d.push(v.last())[k] == v[i]);
                }
            } else {
                if !d.contains(v.last()) {
                    assert(d.push(v.last())[d.len() as int] == v[i]);
                }
            }
        }
        assert forall|k: int| 0 <= k < distinct_in_order(v).len() implies v.contains(#[trigger] distinct_in_order(v)[k]) by {
            if k < d.len() {
                assert(p.contains(d[k]));
                let i = choose|i: int| 0 <= i < p.len() && p[i] == d[k];
                assert(v[i] == d[k]);
            } else {
                assert(v[v.len() - 1] == v.last());
            }
        }
    }
}

/// Merges vertices that are equal bit for bit: the distinct vertices in order
/// of first appearance, and for each input vertex the 16-bit index of its
/// copy. More than 65536 distinct vertices cannot be indexed.
pub fn dedup_vertices(vertices: &Vec<ExportVertex>) -> (r: Result<(Vec<ExportVertex>, Vec<u16>), Error>)
    ensures
        distinct_in_order(vertices@).len() > 65536 ==> (r is Err && r->Err_0 == Error::IndexOverflow),
        distinct_in_order(vertices@).len() <= 65536 ==> (r is Ok && {
            let (u, idx) = r->Ok_0;
            &&& u@ == distinct_in_order(vertices@)
            &&& no_duplicates(u@)
            &&& idx@.len() == vertices@.len()
            &&& forall|i: int| 0 <= i < vertices@.len() ==> idx@[i] < u@.len() && u@[#[trigger] idx@[i] as int] == vertices@[i]
            &&& forall|i: int| 0 <= i < vertices@.len() ==> #[trigger] idx@[i] as int == index_buffer(vertices@)[i]
        }),
{
    let mut unique: Vec<ExportVertex> = Vec::new();
    let mut indices: Vec<u16> = Vec::new();
    let mut i: usize = 0;
    while i < vertices.len()
        invariant
            i <= vertices@.len(),
            unique@ == distinct_in_order(vertices@.take(i as int)),
            unique@.len() <= 65536,
            indices@.len() == i,
            forall|j: int| 0 <= j < i ==> indices@[j] < unique@.len() && unique@[#[trigger] indices@[j] as int] == vertices@[j],
        decreases vertices@.len() - i,
    {
        let v = vertices[i];
        proof {
            assert(vertices@.take(i + 1).drop_last() =~= vertices@.take(i as int));
            assert(vertices@.take(i + 1).last() == v);
        }
        match find_vertex(&unique, &v) {
            Some(k) => {
                indices.push(k as u16);
                assert(indices@[i as int] == k as u16);
            },
            None => {
                if unique.len() == 65536 {
                    proof {
                        lemma_distinct_prefix_grows(vertices@, (i + 1) as int);
                    }
                    return Err(Error::IndexOverflow);
                }
                let k = unique.len();
                unique.push(v);
                indices.push(k as u16);
                assert(unique@[k as int] == v);
            },
        }
        assert forall|j: int| 0 <= j < i + 1 implies indices@[j] < unique@.len() && unique@[#[trigger] indices@[j] as int] == vertices@[j] by {
            if j < i {
                assert(unique@[indices@[j] as int] == vertices@[j]);
            }
        }
        i = i + 1;
    }
    proof {
        assert(vertices@.take(vertices@.len() as int) =~= vertices@);
        lemma_distinct_props(vertices@);
        assert forall|i: int| 0 <= i < vertices@.len() implies #[trigger] indices@[i] as int == index_buffer(vertices@)[i] by {
            let k = indices@[i] as int;
            assert(unique@[k] == vertices@[i]);
            let c = position_in(unique@, vertices@[i]);
            assert(0 <= c < unique@.len() && unique@[c] == vertices@[i]);
            if c < k {
                assert(unique@[c] != unique@[k]);
            }
            if k < c {
                assert(unique@[k] != unique@[c]);
            }
        }
    }
    Ok((unique, indices))
}

proof fn lemma_distinct_absorbs(a: Seq<ExportVertex>, b: Seq<ExportVertex>)
    requires
        forall|i: int| 0 <= i < b.len() ==> distinct_in_order(a).contains(#[trigger] b[i]),
    ensures
        distinct_in_order(a + b) == distinct_in_order(a),
    decreases b.len(),
{
    if b.len() == 0 {
        assert(a + b =~= a);
    } else {
        let p = b.drop_last();
        lemma_distinct_absorbs(a, p);
        assert((a + b).drop_last() =~= a + p);
        assert((a + b).last() == b[b.len() - 1]);
    }
}

/// Feeding the same vertices to the merge twice adds no distinct vertex, and
/// the index buffer of the doubled input is the first index buffer twice.
pub proof fn lemma_dedup_repeat(v: Seq<ExportVertex>)
    ensures
        distinct_in_order(v + v) == distinct_in_order(v),
        index_buffer(v + v) == index_buffer(v) + index_buffer(v),
{
    lemma_distinct_props(v);
    lemma_distinct_absorbs(v, v);
    let w = v + v;
    assert forall|i: int| 0 <= i < w.len() implies #[trigger] index_buffer(w)[i] == (index_buffer(v) + index_buffer(v))[i] by {
        if i < v.len() {
            assert(w[i] == v[i]);
        } else {
            assert(w[i] == v[i - v.len()]);
        }
    }
    assert(index_buffer(w) =~= index_buffer(v) + index_buffer(v));
}

fn find_vertex(u: &Vec<ExportVertex>, v: &ExportVertex) -> (r: Option<usize>)
    ensures
        match r {
            Some(k) => k < u@.len() && u@[k as int] == *v,
            None => !u@.contains(*v),
        },
{
    let mut k: usize = 0;
    while k < u.len()
        invariant
            k <= u@.len(),
            forall|m: int| 0 <= m < k ==> u@[m] != *v,
        decreases u@.len() - k,
    {
        if u[k] == *v {
            return Some(k);
        }
        k = k + 1;
    }
    None
}

/// The distinct vertices of a prefix are never more than those of the whole.
proof fn lemma_distinct_prefix_grows(v: Seq<ExportVertex>, n: int)
    requires
        0 <= n <= v.len(),
    ensures
        distinct_in_order(v.take(n)).len() <= distinct_in_order(v).len(),
    decreases v.len() - n,
{
    if n < v.len() {
        lemma_distinct_prefix_grows(v, n + 1);
        assert(v.take(n + 1).drop_last() =~= v.take(n));
    } else {
        assert(v.take(n) =~= v);
    }
}

/// The tables that a model's surfaces read, under a material's attribute mask.
pub open spec fn model_tables(cmdl: &Cmdl, flags: u32, skin: Option<(Seq<u32>, Seq<u32>)>) -> TablesView {
    TablesView {
        attr_flags: flags,
        positions: cmdl.position_data@,
        normals: cmdl.normal_data@,
        uvs: cmdl.uv_float_data@,
        skin,
    }
}

/// The expanded triangles of surface `i` under material set `set`.
pub open spec fn surface_triangles(cmdl: &Cmdl, set: int, skin: Option<(Seq<u32>, Seq<u32>)>, i: int) -> Result<
    Seq<Vertex>,
    Error,
> {
    let materials = cmdl.materials@[set].materials@;
    let surface = cmdl.surfaces@[i];
    if surface.material_index >= materials.len() {
        Err(Error::UnexpectedFormat { context: Field::SurfaceMaterial, value: surface.material_index })
    } else {
        let flags = materials[surface.material_index as int].vertex_attr_flags;
        match decode_display_list(surface.display_list.data@, model_tables(cmdl, flags, skin)) {
            Ok(runs) => Ok(concat_runs(runs)),
            Err(e) => Err(e),
        }
    }
}

pub open spec fn skin_view(skin: Option<&SkinAttributes>) -> Option<(Seq<u32>, Seq<u32>)> {
    match skin {
        Some(t) => Some((t.bone_ids@, t.weights@)),
        None => None,
    }
}

fn concat_batches(batches: &Vec<Batch>) -> (r: Vec<Vertex>)
    ensures
        r@ == concat_runs(batch_views(batches@)),
{
    let ghost views = batch_views(batches@);
    let mut out: Vec<Vertex> = Vec::new();
    let mut k: usize = 0;
    while k < batches.len()
        invariant
            k <= batches@.len(),
            views == batch_views(batches@),
            out@ == concat_runs(views.take(k as int)),
        decreases batches@.len() - k,
    {
        let ghost before = out@;
        let b = &batches[k];
        let mut j: usize = 0;
        while j < b.vertices.len()
            invariant
                j <= b.vertices@.len(),
                out@ == before + b.vertices@.take(j as int),
            decreases b.vertices@.len() - j,
        {
            out.push(b.vertices[j]);
            assert(before + b.vertices@.take(j + 1) =~= before + b.vertices@.take(j as int) + seq![b.vertices@[j as int]]);
            j = j + 1;
        }
        proof {
            assert(b.vertices@.take(j as int) =~= b.vertices@);
            assert(views.take(k + 1).drop_last() =~= views.take(k as int));
            assert(views.take(k + 1).last() == b.vertices@);
        }
        k = k + 1;
    }
    assert(views.take(batches@.len() as int) =~= views);
    out
}

/// Decodes every surface of a model under material set `set`.
fn build_surfaces(cmdl: &Cmdl, set: usize, skin: Option<&SkinAttributes>) -> (r: Result<Vec<CanonicalMeshSurface>, Error>)
    requires
        set < cmdl.materials@.len(),
    ensures
        ({
            let sk = skin_view(skin);
            match r {
                Ok(v) => {
                    &&& v@.len() == cmdl.surfaces@.len()
                    &&& forall|i: int|
                        0 <= i < v@.len() ==> surface_triangles(cmdl, set as int, sk, i) == Ok::<Seq<Vertex>, Error>(
                            (#[trigger] v@[i]).vertices@,
                        ) && v@[i].texture_indices@
                            == cmdl.materials@[set as int].materials@[cmdl.surfaces@[i].material_index as int].texture_indices@
                },
                Err(e) => exists|i: int|
                    0 <= i < cmdl.surfaces@.len() && surface_triangles(cmdl, set as int, sk, i) == Err::<Seq<Vertex>, Error>(e),
            }
        }),
{
    let ghost sk = skin_view(skin);
    let material_set = &cmdl.materials[set];
    let mut surfaces: Vec<CanonicalMeshSurface> = Vec::new();
    let mut i: usize = 0;
    while i < cmdl.surfaces.len()
        invariant
            i <= cmdl.surfaces@.len(),
            set < cmdl.materials@.len(),
            *material_set == cmdl.materials@[set as int],
            sk == skin_view(skin),
            surfaces@.len() == i,
            forall|j: int|
                0 <= j < i ==> surface_triangles(cmdl, set as int, sk, j) == Ok::<Seq<Vertex>, Error>(
                    (#[trigger] surfaces@[j]).vertices@,
                ) && surfaces@[j].texture_indices@
                    == cmdl.materials@[set as int].materials@[cmdl.surfaces@[j].material_index as int].texture_indices@,
        decreases cmdl.surfaces@.len() - i,
    {
        let surface = &cmdl.surfaces[i];
        if surface.material_index as usize >= material_set.materials.len() {
            assert(surface_triangles(cmdl, set as int, sk, i as int) == Err::<Seq<Vertex>, Error>(
                Error::UnexpectedFormat { context: Field::SurfaceMaterial, value: surface.material_index },
            ));
            assert(exists|j: int|
                0 <= j < cmdl.surfaces@.len() && surface_triangles(cmdl, set as int, sk, j) == Err::<Seq<Vertex>, Error>(
                    Error::UnexpectedFormat { context: Field::SurfaceMaterial, value: surface.material_index },
                ));
            return Err(Error::UnexpectedFormat { context: Field::SurfaceMaterial, value: surface.material_index });
        }
        let material = &material_set.materials[surface.material_index as usize];
        let src = VertexSources {
            attr_flags: material.vertex_attr_flags,
            positions: cmdl.position_data.as_slice(),
            normals: cmdl.normal_data.as_slice(),
            uvs: cmdl.uv_float_data.as_slice(),
            skin,
        };
        assert(src@ == model_tables(cmdl, material.vertex_attr_flags, sk));
        let batches = match surface.display_list.parse(&src) {
            Ok(b) => b,
            Err(e) => {
                assert(surface_triangles(cmdl, set as int, sk, i as int) == Err::<Seq<Vertex>, Error>(e));
                assert(exists|j: int|
                    0 <= j < cmdl.surfaces@.len() && surface_triangles(cmdl, set as int, sk, j) == Err::<Seq<Vertex>, Error>(e));
                return Err(e);
            },
        };
        let vertices = concat_batches(&batches);
        let texture_indices = vstd::slice::slice_to_vec(material.texture_indices.as_slice());
        surfaces.push(CanonicalMeshSurface { texture_indices, vertices });
        i = i + 1;
    }
    Ok(surfaces)
}

/// A skinned mesh can be built from `cmdl`, `cinf` and the skin groups
/// `groups` under material set `set`: the skeleton has a build order and
/// its tree builds, the skin is rigid, the set exists, every surface decodes.
pub open spec fn skinned_ok(cmdl: &Cmdl, cinf: &Cinf, groups: Seq<(Seq<crate::cskr::Weight>, u32)>, set: int) -> bool {
    &&& cinf.build_order_ids@.len() > 0
    &&& tree_ok(cinf, cinf.build_order_ids@[0], cinf.bones@.len())
    &&& all_rigid(groups)
    &&& 0 <= set < cmdl.materials@.len()
    &&& forall|i: int|
        0 <= i < cmdl.surfaces@.len() ==> #[trigger] surface_triangles(cmdl, set, Some(rigid_tables(groups)), i) is Ok
}

/// Mesh `m` is the skinned mesh of `cmdl`, `cinf` and `groups` under set
/// `set`: every corner carries its position's bone and weight from the rigid
/// skin, with the set's textures and the skeleton rooted at the build order.
pub open spec fn skinned_mesh(cmdl: &Cmdl, cinf: &Cinf, groups: Seq<(Seq<crate::cskr::Weight>, u32)>, set: int, m: CanonicalMesh) -> bool {
    let tables = rigid_tables(groups);
    &&& m.skin is Some
    &&& m.skin->Some_0.skeleton.id == cinf.build_order_ids@[0]
    &&& crate::cskr::group_views(m.skin->Some_0.skin.vertex_groups@) == groups
    &&& m.texture_ids@ == cmdl.materials@[set].texture_ids@
    &&& m.surfaces@.len() == cmdl.surfaces@.len()
    &&& forall|i: int|
        0 <= i < m.surfaces@.len() ==> surface_triangles(cmdl, set, Some(tables), i) == Ok::<Seq<Vertex>, Error>(
            (#[trigger] m.surfaces@[i]).vertices@,
        )
    &&& forall|i: int|
        0 <= i < m.surfaces@.len() ==> (#[trigger] m.surfaces@[i]).texture_indices@
            == cmdl.materials@[set].materials@[cmdl.surfaces@[i].material_index as int].texture_indices@
}

impl CanonicalMesh {
    /// The surfaces of a static model under one of its material sets.
    pub fn from_cmdl(cmdl: &Cmdl, material_set_index: usize) -> (r: Result<CanonicalMesh, Error>)
        ensures
            material_set_index >= cmdl.materials@.len() ==> (r is Err && r->Err_0 == Error::MissingResource),
            r is Ok ==> {
                let m = r->Ok_0;
                &&& material_set_index < cmdl.materials@.len()
                &&& m.skin is None
                &&& m.texture_ids@ == cmdl.materials@[material_set_index as int].texture_ids@
                &&& m.surfaces@.len() == cmdl.surfaces@.len()
                &&& forall|i: int|
                    0 <= i < m.surfaces@.len() ==> surface_triangles(cmdl, material_set_index as int, None, i)
                        == Ok::<Seq<Vertex>, Error>((#[trigger] m.surfaces@[i]).vertices@)
                &&& forall|i: int|
                    0 <= i < m.surfaces@.len() ==> (#[trigger] m.surfaces@[i]).texture_indices@
                        == cmdl.materials@[material_set_index as int].materials@[cmdl.surfaces@[i].material_index as int].texture_indices@
            },
            r is Err && material_set_index < cmdl.materials@.len() ==> exists|i: int|
                0 <= i < cmdl.surfaces@.len() && surface_triangles(cmdl, material_set_index as int, None, i)
                    == Err::<Seq<Vertex>, Error>(r->Err_0),
    {
        if material_set_index >= cmdl.materials.len() {
            return Err(Error::MissingResource);
        }
        let surfaces = build_surfaces(cmdl, material_set_index, None)?;
        let texture_ids = vstd::slice::slice_to_vec(cmdl.materials[material_set_index].texture_ids.as_slice());
        Ok(CanonicalMesh { skin: None, surfaces, texture_ids })
    }

    /// The surfaces of a skinned model under one of its material sets, each
    /// vertex carrying the bone and weight that the rigid skin gives its
    /// position, with the skeleton rooted at the first bone of the build order.
    #[verifier::rlimit(100)]
    pub fn from_skinned_cmdl(cmdl: &Cmdl, cinf: &Cinf, skin: Cskr, material_set_index: usize) -> (r: Result<
        CanonicalMesh,
        Error,
    >)
        ensures
            cinf.build_order_ids@.len() == 0 ==> (r is Err && r->Err_0 == (Error::UnexpectedFormat {
                context: Field::Skeleton,
                value: 0,
            })),
            r is Ok <==> skinned_ok(cmdl, cinf, crate::cskr::group_views(skin.vertex_groups@), material_set_index as int),
            cinf.build_order_ids@.len() > 0 && tree_ok(cinf, cinf.build_order_ids@[0], cinf.bones@.len()) && !all_rigid(
                crate::cskr::group_views(skin.vertex_groups@),
            ) ==> (r is Err && r->Err_0 == Error::UnsupportedFormat),
            r is Ok ==> skinned_mesh(cmdl, cinf, crate::cskr::group_views(skin.vertex_groups@), material_set_index as int, r->Ok_0),
    {
        if cinf.build_order_ids.len() == 0 {
            return Err(Error::UnexpectedFormat { context: Field::Skeleton, value: 0 });
        }
        let skeleton = CanonicalMeshBone::from_skeleton(cinf, cinf.build_order_ids[0])?;
        let tables = rigid_skin_tables(&skin)?;
        if material_set_index >= cmdl.materials.len() {
            return Err(Error::MissingResource);
        }
        let ghost groups = crate::cskr::group_views(skin.vertex_groups@);
        assert(skin_view(Some(&tables)) == Some(rigid_tables(groups)));
        let surfaces = build_surfaces(cmdl, material_set_index, Some(&tables))?;
        assert forall|i: int| 0 <= i < cmdl.surfaces@.len() implies #[trigger] surface_triangles(
            cmdl,
            material_set_index as int,
            Some(rigid_tables(groups)),
            i,
        ) is Ok by {
            assert(surface_triangles(cmdl, material_set_index as int, Some(rigid_tables(groups)), i) == Ok::<Seq<Vertex>, Error>(surfaces@[i].vertices@));
        }
        let texture_ids = vstd::slice::slice_to_vec(cmdl.materials[material_set_index].texture_ids.as_slice());
        Ok(CanonicalMesh { skin: Some(CanonicalMeshSkin { skeleton, skin }), surfaces, texture_ids })
    }

    /// The surfaces, skin and skeleton of one character of an animated
    /// character resource, with its model, skin and skeleton taken from `pak`
    /// by the ids that the character names.
    pub fn from_ancs(pak: &Pak, ancs: &Ancs, character_index: usize, material_set_index: usize) -> (r: Result<
        CanonicalMesh,
        Error,
    >)
        ensures
            character_index >= ancs.character_set.characters@.len() ==> (r is Err && r->Err_0 == Error::MissingResource),
            r is Ok ==> r->Ok_0.skin is Some,
            character_index < ancs.character_set.characters@.len() ==> {
                let c = ancs.character_set.characters@[character_index as int];
                let model = lookup(pak, c.model_id, "CMDL"@);
                let skeleton = lookup(pak, c.skeleton_id, "CINF"@);
                let skin = lookup(pak, c.skin_id, "CSKR"@);
                &&& (model is None ==> r is Err && r->Err_0 == Error::MissingResource)
                &&& (model matches Some(Err(e)) ==> r is Err && r->Err_0 == e)
                &&& (model matches Some(Ok(b)) ==> match cmdl_result(b) {
                    Err(e) => r is Err && r->Err_0 == e,
                    Ok(_) => {
                        &&& (skeleton is None ==> r is Err && r->Err_0 == Error::MissingResource)
                        &&& (skeleton matches Some(Err(e)) ==> r is Err && r->Err_0 == e)
                        &&& (skeleton matches Some(Ok(k)) ==> match cinf_result(k) {
                            Err(e) => r is Err && r->Err_0 == e,
                            Ok(_) => {
                                &&& (skin is None ==> r is Err && r->Err_0 == Error::MissingResource)
                                &&& (skin matches Some(Err(e)) ==> r is Err && r->Err_0 == e)
                                &&& (skin matches Some(Ok(w)) ==> (skin_from(w) matches Err(e) ==> r is Err && r->Err_0 == e))
                            },
                        })
                    },
                })
            },
            r is Ok ==> {
                let c = ancs.character_set.characters@[character_index as int];
                &&& lookup(pak, c.model_id, "CMDL"@) matches Some(Ok(b)) && cmdl_result(b) is Ok
                &&& lookup(pak, c.skeleton_id, "CINF"@) matches Some(Ok(k)) && cinf_result(k) is Ok
                &&& lookup(pak, c.skin_id, "CSKR"@) matches Some(Ok(w)) && skin_from(w) is Ok
            },
            character_index < ancs.character_set.characters@.len() ==> {
                let c = ancs.character_set.characters@[character_index as int];
                match (
                    lookup(pak, c.model_id, "CMDL"@),
                    lookup(pak, c.skeleton_id, "CINF"@),
                    lookup(pak, c.skin_id, "CSKR"@),
                ) {
                    (Some(Ok(b)), Some(Ok(k)), Some(Ok(w))) => (cmdl_result(b) is Ok && cinf_result(k) is Ok && skin_from(w)
                        is Ok) ==> {
                        let groups = skin_from(w)->Ok_0;
                        &&& (!all_rigid(groups) ==> r is Err)
                        &&& exists|cm: Cmdl, cf: Cinf|
                            #![trigger cmdl_read(b, cm), cinf_read(k, cf)]
                            cmdl_read(b, cm) && cinf_read(k, cf) && (r is Ok <==> skinned_ok(
                                &cm,
                                &cf,
                                groups,
                                material_set_index as int,
                            )) && (r is Ok ==> skinned_mesh(&cm, &cf, groups, material_set_index as int, r->Ok_0))
                    },
                    _ => true,
                }
            },
    {
        if character_index >= ancs.character_set.characters.len() {
            return Err(Error::MissingResource);
        }
        let character = &ancs.character_set.characters[character_index];
        let cmdl_data = match pak.data_with_fourcc(character.model_id, "CMDL")? {
            Some(d) => d,
            None => return Err(Error::MissingResource),
        };
        let cmdl = Cmdl::read_from(cmdl_data.as_slice())?;
        let skeleton_data = match pak.data_with_fourcc(character.skeleton_id, "CINF")? {
            Some(d) => d,
            None => return Err(Error::MissingResource),
        };
        let mut sr = Reader::new(skeleton_data.as_slice());
        let cinf = Cinf::read_from(&mut sr)?;
        let skin_data = match pak.data_with_fourcc(character.skin_id, "CSKR")? {
            Some(d) => d,
            None => return Err(Error::MissingResource),
        };
        let mut kr = Reader::new(skin_data.as_slice());
        let skin = Cskr::read_from(&mut kr)?;
        let ghost groups = crate::cskr::group_views(skin.vertex_groups@);
        let r = Self::from_skinned_cmdl(&cmdl, &cinf, skin, material_set_index);
        proof {
            assert(cmdl_read(cmdl_data@, cmdl) && cinf_read(skeleton_data@, cinf));
        }
        r
    }
}

/// The first bone record with id `id`, if there is one.
pub open spec fn first_bone(bones: Seq<Bone>, id: u32) -> Option<int> {
    if exists|j: int| 0 <= j < bones.len() && bones[j].bone_id == id {
        Some(choose|j: int| 0 <= j < bones.len() && bones[j].bone_id == id && forall|i: int| 0 <= i < j ==> bones[i].bone_id != id)
    } else {
        None
    }
}

pub open spec fn has_name(cinf: &Cinf, id: u32) -> bool {
    exists|k: int| 0 <= k < cinf.bone_names@.len() && cinf.bone_names@[k].id == id
}

/// Bone `id` is a bone whose record names `parent` as its parent.
pub open spec fn is_child(cinf: &Cinf, id: u32, parent: u32) -> bool {
    exists|j: int| 0 <= j < cinf.bones@.len() && cinf.bones@[j].bone_id == id && cinf.bones@[j].parent_bone_id == parent
}

/// The joint tree below bone `id` can be built within `fuel` levels: the bone
/// and its name exist, and so do the trees of its linked children.
#[verifier::opaque]
pub open spec fn tree_ok(cinf: &Cinf, id: u32, fuel: nat) -> bool
    decreases fuel,
{
    match first_bone(cinf.bones@, id) {
        None => false,
        Some(j) => fuel > 0 && has_name(cinf, id) && forall|k: int|
            0 <= k < cinf.bones@[j].linked_bones@.len() && is_child(cinf, cinf.bones@[j].linked_bones@[k], id)
                ==> tree_ok(cinf, #[trigger] cinf.bones@[j].linked_bones@[k], (fuel - 1) as nat),
    }
}

proof fn lemma_first_bone(bones: Seq<Bone>, id: u32, i: int)
    requires
        0 <= i < bones.len(),
        bones[i].bone_id == id,
        forall|m: int| 0 <= m < i ==> bones[m].bone_id != id,
    ensures
        first_bone(bones, id) == Some(i),
{
    let c = first_bone(bones, id)->Some_0;
    if c < i {
        assert(bones[c].bone_id != id);
    }
    if c > i {
        assert(bones[i].bone_id != id);
    }
}

/// The first bone name record with id `id`, if there is one.
pub open spec fn first_name(cinf: &Cinf, id: u32) -> Option<int> {
    if exists|k: int| 0 <= k < cinf.bone_names@.len() && cinf.bone_names@[k].id == id {
        Some(choose|k: int|
            0 <= k < cinf.bone_names@.len() && cinf.bone_names@[k].id == id && forall|m: int| 0 <= m < k ==> cinf.bone_names@[m].id != id)
    } else {
        None
    }
}

/// The linked bones in `ls` that name `parent` as their parent, in order.
pub open spec fn kids(cinf: &Cinf, ls: Seq<u32>, parent: u32) -> Seq<u32>
    decreases ls.len(),
{
    if ls.len() == 0 {
        Seq::empty()
    } else if is_child(cinf, ls.last(), parent) {
        kids(cinf, ls.drop_last(), parent).push(ls.last())
    } else {
        kids(cinf, ls.drop_last(), parent)
    }
}

/// Joint `b` is the tree below bone `id`: the bone's id, position and first
/// name, and one child for each linked bone that names it as its parent,
/// each the tree below that bone.
pub open spec fn tree_built(cinf: &Cinf, id: u32, fuel: nat, b: CanonicalMeshBone) -> bool
    decreases fuel,
{
    let j = first_bone(cinf.bones@, id)->Some_0;
    let ks = kids(cinf, cinf.bones@[j].linked_bones@, id);
    &&& fuel > 0
    &&& b.id == id
    &&& b.position == cinf.bones@[j].position
    &&& b.name@ == cinf.bone_names@[first_name(cinf, id)->Some_0].name@
    &&& b.children@.len() == ks.len()
    &&& forall|k: int| 0 <= k < ks.len() ==> tree_built(cinf, ks[k], (fuel - 1) as nat, #[trigger] b.children@[k])
}

fn find_bone(bones: &Vec<Bone>, id: u32) -> (r: Option<usize>)
    ensures
        match r {
            Some(i) => i < bones@.len() && first_bone(bones@, id) == Some(i as int),
            None => first_bone(bones@, id) is None,
        },
{
    let mut i: usize = 0;
    while i < bones.len()
        invariant
            i <= bones@.len(),
            forall|j: int| 0 <= j < i ==> (#[trigger] bones@[j]).bone_id != id,
        decreases bones@.len() - i,
    {
        if bones[i].bone_id == id {
            proof {
                lemma_first_bone(bones@, id, i as int);
            }
            return Some(i);
        }
        i = i + 1;
    }
    None
}

fn find_child(bones: &Vec<Bone>, id: u32, parent: u32) -> (r: bool)
    ensures
        r <==> exists|j: int| 0 <= j < bones@.len() && (#[trigger] bones@[j]).bone_id == id && bones@[j].parent_bone_id == parent,
{
    let mut i: usize = 0;
    while i < bones.len()
        invariant
            i <= bones@.len(),
            forall|j: int| 0 <= j < i ==> !((#[trigger] bones@[j]).bone_id == id && bones@[j].parent_bone_id == parent),
        decreases bones@.len() - i,
    {
        if bones[i].bone_id == id && bones[i].parent_bone_id == parent {
            return true;
        }
        i = i + 1;
    }
    false
}

fn find_name(cinf: &Cinf, id: u32) -> (r: Option<String>)
    ensures
        r is Some <==> has_name(cinf, id),
        r is Some ==> first_name(cinf, id) is Some && r->Some_0@ == cinf.bone_names@[first_name(cinf, id)->Some_0].name@,
{
    let mut k: usize = 0;
    while k < cinf.bone_names.len()
        invariant
            k <= cinf.bone_names@.len(),
            forall|m: int| 0 <= m < k ==> (#[trigger] cinf.bone_names@[m]).id != id,
        decreases cinf.bone_names@.len() - k,
    {
        if cinf.bone_names[k].id == id {
            proof {
                let c = first_name(cinf, id)->Some_0;
                if c < k {
                    assert(cinf.bone_names@[c].id != id);
                }
                if c > k {
                    assert(cinf.bone_names@[k as int].id != id);
                }
            }
            return Some(cinf.bone_names[k].name.clone());
        }
        k = k + 1;
    }
    None
}

/// The bone ids of the joint tree below `b`, each joint after the joints
/// below it, or `None` when the tree is deeper than `fuel`.
pub open spec fn joints_of(b: CanonicalMeshBone, fuel: nat) -> Option<Seq<u32>>
    decreases fuel, b.children@.len() + 1,
{
    if fuel == 0 {
        None
    } else {
        match children_joints(b.children@, (fuel - 1) as nat) {
            Some(v) => Some(v.push(b.id)),
            None => None,
        }
    }
}

/// The joint orders of the trees `cs`, one after the other.
pub open spec fn children_joints(cs: Seq<CanonicalMeshBone>, fuel: nat) -> Option<Seq<u32>>
    decreases fuel + 1, cs.len(),
{
    if cs.len() == 0 {
        Some(Seq::empty())
    } else {
        match (children_joints(cs.drop_last(), fuel), joints_of(cs.last(), fuel)) {
            (Some(a), Some(b)) => Some(a + b),
            _ => None,
        }
    }
}

impl CanonicalMeshBone {
    /// The joint for bone `bone_id` and, below it, the linked bones that name
    /// it as their parent; `depth_left` bounds the nesting so that a cycle in
    /// malformed data ends in an error.
    #[verifier::rlimit(80)]
    fn interpret_bone(cinf: &Cinf, bone_id: u32, depth_left: usize) -> (r: Result<CanonicalMeshBone, Error>)
        ensures
            r is Ok <==> tree_ok(cinf, bone_id, depth_left as nat),
            r is Err ==> r->Err_0 is UnexpectedFormat,
            first_bone(cinf.bones@, bone_id) is None ==> (r is Err && r->Err_0 == (Error::UnexpectedFormat {
                context: Field::Skeleton,
                value: bone_id,
            })),
            r is Ok ==> {
                let j = first_bone(cinf.bones@, bone_id)->Some_0;
                &&& r->Ok_0.id == bone_id
                &&& r->Ok_0.position == cinf.bones@[j].position
            },
            r is Ok ==> tree_built(cinf, bone_id, depth_left as nat, r->Ok_0),
        decreases depth_left,
    {
        let bi = match find_bone(&cinf.bones, bone_id) {
            Some(i) => i,
            None => {
                proof {
                    reveal(tree_ok);
                }
                return Err(Error::UnexpectedFormat { context: Field::Skeleton, value: bone_id });
            },
        };
        if depth_left == 0 {
            proof {
                reveal(tree_ok);
            }
            return Err(Error::UnexpectedFormat { context: Field::Skeleton, value: bone_id });
        }
        let bone = &cinf.bones[bi];
        let name = match find_name(cinf, bone_id) {
            Some(n) => n,
            None => {
                proof {
                    reveal(tree_ok);
                }
                return Err(Error::UnexpectedFormat { context: Field::Skeleton, value: bone_id });
            },
        };
        let mut children: Vec<CanonicalMeshBone> = Vec::new();
        let mut k: usize = 0;
        while k < bone.linked_bones.len()
            invariant
                k <= bone.linked_bones@.len(),
                depth_left > 0,
                bi < cinf.bones@.len(),
                first_bone(cinf.bones@, bone_id) == Some(bi as int),
                *bone == cinf.bones@[bi as int],
                forall|m: int|
                    0 <= m < k && is_child(cinf, bone.linked_bones@[m], bone_id) ==> tree_ok(
                        cinf,
                        #[trigger] bone.linked_bones@[m],
                        (depth_left - 1) as nat,
                    ),
                children@.len() == kids(cinf, bone.linked_bones@.take(k as int), bone_id).len(),
                forall|m: int|
                    0 <= m < children@.len() ==> tree_built(
                        cinf,
                        kids(cinf, bone.linked_bones@.take(k as int), bone_id)[m],
                        (depth_left - 1) as nat,
                        #[trigger] children@[m],
                    ),
            decreases bone.linked_bones@.len() - k,
        {
            let linked = bone.linked_bones[k];
            let ghost ls = bone.linked_bones@;
            proof {
                assert(ls.take(k + 1).drop_last() =~= ls.take(k as int));
                assert(ls.take(k + 1).last() == linked);
            }
            if find_child(&cinf.bones, linked, bone_id) {
                match Self::interpret_bone(cinf, linked, depth_left - 1) {
                    Ok(c) => {
                        children.push(c);
                        proof {
                            let before = kids(cinf, ls.take(k as int), bone_id);
                            assert(kids(cinf, ls.take(k + 1), bone_id) == before.push(linked));
                            assert forall|m: int| 0 <= m < children@.len() implies tree_built(
                                cinf,
                                kids(cinf, ls.take(k + 1), bone_id)[m],
                                (depth_left - 1) as nat,
                                #[trigger] children@[m],
                            ) by {
                                if m < before.len() {
                                    assert(children@[m] == children@.drop_last()[m]);
                                }
                            }
                        }
                    },
                    Err(e) => {
                        proof {
                            reveal(tree_ok);
                            assert(is_child(cinf, bone.linked_bones@[k as int], bone_id));
                            assert(!tree_ok(cinf, cinf.bones@[bi as int].linked_bones@[k as int], (depth_left - 1) as nat));
                            let j = first_bone(cinf.bones@, bone_id)->Some_0;
                            assert(j == bi);
                            if tree_ok(cinf, bone_id, depth_left as nat) {
                                assert(tree_ok(cinf, cinf.bones@[j].linked_bones@[k as int], (depth_left - 1) as nat));
                            }
                        }
                        return Err(e);
                    },
                }
            }
            k = k + 1;
        }
        proof {
            reveal(tree_ok);
        }
        proof {
            assert(bone.linked_bones@.take(bone.linked_bones@.len() as int) =~= bone.linked_bones@);
        }
        let result = CanonicalMeshBone { name, id: bone_id, position: bone.position, children };
        assert(tree_built(cinf, bone_id, depth_left as nat, result));
        Ok(result)
    }

    /// The skeleton as a tree of named joints rooted at bone `root_id`; fails
    /// when that bone, or a bone's name, is missing, or the links nest deeper
    /// than there are bones.
    pub fn from_skeleton(cinf: &Cinf, root_id: u32) -> (r: Result<CanonicalMeshBone, Error>)
        ensures
            r is Ok <==> tree_ok(cinf, root_id, cinf.bones@.len()),
            r is Err ==> r->Err_0 is UnexpectedFormat,
            first_bone(cinf.bones@, root_id) is None ==> (r is Err && r->Err_0 == (Error::UnexpectedFormat {
                context: Field::Skeleton,
                value: root_id,
            })),
            r is Ok ==> r->Ok_0.id == root_id && r->Ok_0.position == cinf.bones@[first_bone(cinf.bones@, root_id)->Some_0].position,
            r is Ok ==> tree_built(cinf, root_id, cinf.bones@.len(), r->Ok_0),
    {
        Self::interpret_bone(cinf, root_id, cinf.bones.len())
    }

    /// Appends the ids of this joint's subtree, each joint after the joints
    /// below it: the order in which joints are numbered for export.
    fn collect_joint_ids(&self, out: &mut Vec<u32>, depth_left: usize) -> (r: Result<(), Error>)
        ensures
            match joints_of(*self, depth_left as nat) {
                Some(v) => r is Ok && final(out)@ == old(out)@ + v,
                None => r is Err,
            },
        decreases depth_left,
    {
        if depth_left == 0 {
            return Err(Error::UnexpectedFormat { context: Field::Skeleton, value: self.id });
        }
        let ghost start = old(out)@;
        let ghost cs = self.children@;
        let ghost f = (depth_left - 1) as nat;
        let mut k: usize = 0;
        while k < self.children.len()
            invariant
                start == old(out)@,
                cs == self.children@,
                f == depth_left - 1,
                k <= cs.len(),
                children_joints(cs.take(k as int), f) is Some,
                out@ == start + children_joints(cs.take(k as int), f)->Some_0,
            decreases cs.len() - k,
        {
            let ghost before = out@;
            let r = self.children[k].collect_joint_ids(out, depth_left - 1);
            proof {
                assert(cs.take(k + 1).drop_last() =~= cs.take(k as int));
                assert(cs.take(k + 1).last() == cs[k as int]);
            }
            if r.is_err() {
                proof {
                    lemma_joints_prefix(cs, f, (k + 1) as nat);
                }
                return r;
            }
            assert(out@ =~= start + children_joints(cs.take(k + 1), f)->Some_0);
            k = k + 1;
        }
        assert(cs.take(cs.len() as int) =~= cs);
        out.push(self.id);
        Ok(())
    }

    /// The bone ids of the skeleton in joint order: every joint after the
    /// joints below it, the root last.
    pub fn joint_ids(&self) -> (r: Result<Vec<u32>, Error>)
        ensures
            match joints_of(*self, usize::MAX as nat) {
                Some(v) => r is Ok && r->Ok_0@ == v,
                None => r is Err,
            },
    {
        let mut out: Vec<u32> = Vec::new();
        self.collect_joint_ids(&mut out, usize::MAX)?;
        assert(out@ =~= Seq::<u32>::empty() + joints_of(*self, usize::MAX as nat)->Some_0);
        Ok(out)
    }
}

/// When a prefix of the children has no joint order, neither has the whole.
proof fn lemma_joints_prefix(cs: Seq<CanonicalMeshBone>, f: nat, k: nat)
    requires
        k <= cs.len(),
        children_joints(cs.take(k as int), f) is None,
    ensures
        children_joints(cs, f) is None,
    decreases cs.len() - k,
{
    if k < cs.len() {
        assert(cs.take(k as int + 1).drop_last() =~= cs.take(k as int));
        lemma_joints_prefix(cs, f, k + 1);
    } else {
        assert(cs.take(k as int) =~= cs);
    }
}

/// The export joint of bone `bone_id`: its first place in the joint order.
/// Joints are numbered with 8 bits, so a place past 255 cannot be used.
pub fn joint_index(order: &Vec<u32>, bone_id: u32) -> (r: Result<u8, Error>)
    ensures
        match r {
            Ok(j) => j < order@.len() && order@[j as int] == bone_id && forall|k: int| 0 <= k < j ==> order@[k] != bone_id,
            Err(Error::MissingResource) => forall|k: int| 0 <= k < order@.len() ==> order@[k] != bone_id,
            Err(Error::IndexOverflow) => exists|j: int|
                256 <= j < order@.len() && order@[j] == bone_id && forall|k: int| 0 <= k < j ==> order@[k] != bone_id,
            Err(_) => false,
        },
{
    let mut k: usize = 0;
    while k < order.len()
        invariant
            k <= order@.len(),
            forall|m: int| 0 <= m < k ==> order@[m] != bone_id,
        decreases order@.len() - k,
    {
        if order[k] == bone_id {
            if k > 255 {
                return Err(Error::IndexOverflow);
            }
            return Ok(k as u8);
        }
        k = k + 1;
    }
    Err(Error::MissingResource)
}

} // verus!
