//! Static model resources: material sets, attribute tables and surfaces.

use vstd::prelude::*;

use crate::error::{Error, Field};
use crate::gx::{DisplayList, Vec3Bits};
use crate::reader::{be_u16, be_u32, u16_at, u32_at, u32_list, Reader};

verus! {

/// The magic number that a model resource begins with.
pub const CMDL_MAGIC: u32 = 0xdeadbabe;

/// The model format version that is understood.
pub const CMDL_VERSION: u32 = 2;

/// `n` rounded up to a multiple of 32.
pub open spec fn round_up_32(n: int) -> int {
    if n % 32 == 0 {
        n
    } else {
        n + 32 - n % 32
    }
}

/// One stage of a material's texture environment.
#[derive(Clone, Copy, Debug, PartialEq, Eq, Structural)]
pub struct TevStage {
    pub color_in: u32,
    pub alpha_in: u32,
    pub color_op: u32,
    pub alpha_op: u32,
    pub alpha_konst: u8,
    pub color_konst: u8,
    pub rasterized_color: u8,
}

/// The texture and texture-coordinate inputs of one stage.
#[derive(Clone, Copy, Debug, PartialEq, Eq, Structural)]
pub struct TevTextureInput {
    pub texture_tev_input: u8,
    pub tex_coord_tev_input: u8,
}

pub open spec fn tev_stage_at(s: Seq<u8>) -> TevStage {
    TevStage {
        color_in: be_u32(s),
        alpha_in: be_u32(s.skip(4)),
        color_op: be_u32(s.skip(8)),
        alpha_op: be_u32(s.skip(12)),
        alpha_konst: s[17],
        color_konst: s[18],
        rasterized_color: s[19],
    }
}

pub open spec fn tev_input_at(s: Seq<u8>) -> TevTextureInput {
    TevTextureInput { texture_tev_input: s[2], tex_coord_tev_input: s[3] }
}

/// Where a material's constant colours would start: after its flags,
/// texture list, attribute mask and group index.
pub open spec fn konsts_at(s: Seq<u8>) -> int {
    16 + 4 * be_u32(s.skip(4))
}

/// Where a material's blend factors stand: after the constant colours,
/// present when flag bit 3 is set.
pub open spec fn blend_at(s: Seq<u8>) -> int {
    if be_u32(s) & 0x8 != 0 {
        konsts_at(s) + 4 + 4 * be_u32(s.skip(konsts_at(s)))
    } else {
        konsts_at(s)
    }
}

/// Where the colour channel list starts: after the blend factors and the
/// indirect texture slot, present when flag bit 10 is set.
pub open spec fn channels_at(s: Seq<u8>) -> int {
    if be_u32(s) & 0x400 != 0 {
        blend_at(s) + 8
    } else {
        blend_at(s) + 4
    }
}

/// Where the stage count stands; the stages and their texture inputs follow.
pub open spec fn stages_at(s: Seq<u8>) -> int {
    channels_at(s) + 4 + 4 * be_u32(s.skip(channels_at(s)))
}

/// A material: its flags, textures, attribute-presence mask and stages.
pub struct Material {
    pub flags: u32,
    pub texture_indices: Vec<u32>,
    pub vertex_attr_flags: u32,
    pub group_index: u32,
    pub konsts: Vec<u32>,
    pub blend_dst_factor: u16,
    pub blend_src_factor: u16,
    pub reflection_indirect_texture_slot: Option<u32>,
    pub color_channel_flags: Vec<u32>,
    pub tev_stages: Vec<TevStage>,
    pub tev_texture_inputs: Vec<TevTextureInput>,
    pub tev_texgen_flags: Vec<u32>,
}

/// The textures of a material set and its materials.
pub struct MaterialSet {
    pub texture_ids: Vec<u32>,
    pub materials: Vec<Material>,
}

/// A surface: its centre, its material and its display list.
pub struct Surface {
    pub center: Vec3Bits,
    pub material_index: u32,
    pub normal_divisor: u16,
    pub reflective_normal: Vec3Bits,
    pub display_list: DisplayList,
}

/// A static model resource.
pub struct Cmdl {
    pub flags: u32,
    /// The bit patterns of the bounding box: minimum x, y, z, then maximum x, y, z.
    pub bounds: Vec<u32>,
    pub materials: Vec<MaterialSet>,
    pub position_data: Vec<u8>,
    pub normal_data: Vec<u8>,
    pub color_data: Vec<u8>,
    pub uv_float_data: Vec<u8>,
    pub uv_short_data: Vec<u8>,
    pub surfaces: Vec<Surface>,
}

impl TevStage {
    pub fn read_from(r: &mut Reader) -> (res: Result<TevStage, Error>)
        requires
            old(r).wf(),
        ensures
            final(r).wf(),
            final(r).data == old(r).data,
            ({
                let s = old(r)@;
                if s.len() < 20 {
                    res is Err && res->Err_0 == Error::Truncated
                } else {
                    &&& res is Ok
                    &&& res->Ok_0 == tev_stage_at(s)
                    &&& final(r)@ == s.skip(20)
                }
            }),
    {
        let ghost s = old(r)@;
        if r.remaining() < 20 {
            return Err(Error::Truncated);
        }
        let color_in = r.read_u32()?;
        let alpha_in = r.read_u32()?;
        assert(s.skip(4).skip(4) =~= s.skip(8));
        let color_op = r.read_u32()?;
        assert(s.skip(8).skip(4) =~= s.skip(12));
        let alpha_op = r.read_u32()?;
        assert(s.skip(12).skip(4) =~= s.skip(16));
        let _padding = r.read_u8()?;
        let alpha_konst = r.read_u8()?;
        let color_konst = r.read_u8()?;
        let rasterized_color = r.read_u8()?;
        assert(r@ =~= s.skip(20));
        Ok(TevStage { color_in, alpha_in, color_op, alpha_op, alpha_konst, color_konst, rasterized_color })
    }
}

impl TevTextureInput {
    pub fn read_from(r: &mut Reader) -> (res: Result<TevTextureInput, Error>)
        requires
            old(r).wf(),
        ensures
            final(r).wf(),
            final(r).data == old(r).data,
            ({
                let s = old(r)@;
                if s.len() < 4 {
                    res is Err && res->Err_0 == Error::Truncated
                } else {
                    &&& res is Ok
                    &&& res->Ok_0 == tev_input_at(s)
                    &&& final(r)@ == s.skip(4)
                }
            }),
    {
        let ghost s = old(r)@;
        if r.remaining() < 4 {
            return Err(Error::Truncated);
        }
        let _ = r.read_u16()?;
        let texture_tev_input = r.read_u8()?;
        let tex_coord_tev_input = r.read_u8()?;
        assert(r@ =~= s.skip(4));
        Ok(TevTextureInput { texture_tev_input, tex_coord_tev_input })
    }
}

fn read_tev_stages(r: &mut Reader, count: u32) -> (res: Result<Vec<TevStage>, Error>)
    requires
        old(r).wf(),
    ensures
        final(r).wf(),
        final(r).data == old(r).data,
        res is Ok ==> {
            &&& old(r)@.len() >= 20 * count
            &&& res->Ok_0@ == Seq::new(count as nat, |i: int| tev_stage_at(old(r)@.skip(20 * i)))
            &&& final(r)@ == old(r)@.skip(20 * count)
        },
        res is Err ==> old(r)@.len() < 20 * count && res->Err_0 == Error::Truncated,
{
    let ghost s = old(r)@;
    let mut v: Vec<TevStage> = Vec::new();
    let mut i: u32 = 0;
    while i < count
        invariant
            r.wf(),
            r.data == old(r).data,
            s == old(r)@,
            i <= count,
            s.len() >= 20 * i,
            r@ == s.skip(20 * i),
            v@ == Seq::new(i as nat, |j: int| tev_stage_at(s.skip(20 * j))),
        decreases count - i,
    {
        let t = TevStage::read_from(r)?;
        assert(s.skip(20 * i).skip(20) =~= s.skip(20 * (i + 1)));
        v.push(t);
        assert(v@ =~= Seq::new((i + 1) as nat, |j: int| tev_stage_at(s.skip(20 * j))));
        i = i + 1;
    }
    Ok(v)
}

fn read_tev_inputs(r: &mut Reader, count: u32) -> (res: Result<Vec<TevTextureInput>, Error>)
    requires
        old(r).wf(),
    ensures
        final(r).wf(),
        final(r).data == old(r).data,
        res is Ok ==> {
            &&& old(r)@.len() >= 4 * count
            &&& res->Ok_0@ == Seq::new(count as nat, |i: int| tev_input_at(old(r)@.skip(4 * i)))
            &&& final(r)@ == old(r)@.skip(4 * count)
        },
        res is Err ==> old(r)@.len() < 4 * count && res->Err_0 == Error::Truncated,
{
    let ghost s = old(r)@;
    let mut v: Vec<TevTextureInput> = Vec::new();
    let mut i: u32 = 0;
    while i < count
        invariant
            r.wf(),
            r.data == old(r).data,
            s == old(r)@,
            i <= count,
            s.len() >= 4 * i,
            r@ == s.skip(4 * i),
            v@ == Seq::new(i as nat, |j: int| tev_input_at(s.skip(4 * j))),
        decreases count - i,
    {
        let t = TevTextureInput::read_from(r)?;
        assert(s.skip(4 * i).skip(4) =~= s.skip(4 * (i + 1)));
        v.push(t);
        assert(v@ =~= Seq::new((i + 1) as nat, |j: int| tev_input_at(s.skip(4 * j))));
        i = i + 1;
    }
    Ok(v)
}

/// The part of a material after its colour channels: the stage count, the
/// stages, their texture inputs and the texture-coordinate generator flags.
fn read_material_stages(r: &mut Reader) -> (res: Result<(Vec<TevStage>, Vec<TevTextureInput>, Vec<u32>), Error>)
    requires
        old(r).wf(),
    ensures
        final(r).wf(),
        final(r).data == old(r).data,
        res is Ok ==> {
            let t = old(r)@;
            let ts = be_u32(t) as int;
            let (stages, inputs, texgens) = res->Ok_0;
            &&& t.len() >= 4 + 24 * ts
            &&& stages@ == Seq::new(ts as nat, |i: int| tev_stage_at(t.skip(4 + 20 * i)))
            &&& inputs@ == Seq::new(ts as nat, |i: int| tev_input_at(t.skip(4 + 20 * ts + 4 * i)))
            &&& texgens@ == u32_list(t.skip(4 + 24 * ts))
            &&& t.len() >= stages_len(t)
            &&& final(r)@ == t.skip(stages_len(t))
        },
        res is Err ==> old(r)@.len() < stages_len(old(r)@) && res->Err_0 == Error::Truncated,
{
    let ghost t = old(r)@;
    let count = r.read_u32()?;
    let ghost ts = count as int;
    let stages = read_tev_stages(r, count)?;
    proof {
        assert forall|i: int| 0 <= i < ts implies #[trigger] t.skip(4).skip(20 * i) =~= t.skip(4 + 20 * i) by {}
        assert(stages@ =~= Seq::new(ts as nat, |i: int| tev_stage_at(t.skip(4 + 20 * i))));
        assert(t.skip(4).skip(20 * ts) =~= t.skip(4 + 20 * ts));
    }
    let inputs = read_tev_inputs(r, count)?;
    proof {
        let b = 4 + 20 * ts;
        assert forall|i: int| 0 <= i < ts implies #[trigger] t.skip(b).skip(4 * i) =~= t.skip(b + 4 * i) by {}
        assert(inputs@ =~= Seq::new(ts as nat, |i: int| tev_input_at(t.skip(4 + 20 * ts + 4 * i))));
        assert(t.skip(b).skip(4 * ts) =~= t.skip(4 + 24 * ts));
    }
    let texgens = r.read_u32_list()?;
    assert(t.skip(4 + 24 * ts).skip(4 + 4 * texgens@.len() as int) =~= t.skip(stages_len(t)));
    Ok((stages, inputs, texgens))
}

/// Material `m` holds what the record at the start of `s` says.
#[verifier::opaque]
pub open spec fn material_read(s: Seq<u8>, m: Material) -> bool {
    let n = be_u32(s.skip(4)) as int;
    let t = s.skip(stages_at(s));
    let ts = be_u32(t) as int;
    &&& s.len() >= stages_at(s) + 4 + 24 * ts
    &&& m.flags == be_u32(s)
    &&& m.texture_indices@ == u32_list(s.skip(4))
    &&& m.vertex_attr_flags == be_u32(s.skip(8 + 4 * n))
    &&& m.group_index == be_u32(s.skip(12 + 4 * n))
    &&& m.konsts@ == (if m.flags & 0x8 != 0 { u32_list(s.skip(konsts_at(s))) } else { Seq::empty() })
    &&& m.blend_dst_factor == be_u16(s.skip(blend_at(s)))
    &&& m.blend_src_factor == be_u16(s.skip(blend_at(s) + 2))
    &&& m.reflection_indirect_texture_slot == (if m.flags & 0x400 != 0 {
        Some(be_u32(s.skip(blend_at(s) + 4)))
    } else {
        None
    })
    &&& m.color_channel_flags@ == u32_list(s.skip(channels_at(s)))
    &&& m.tev_stages@ == Seq::new(ts as nat, |i: int| tev_stage_at(t.skip(4 + 20 * i)))
    &&& m.tev_texture_inputs@ == Seq::new(ts as nat, |i: int| tev_input_at(t.skip(4 + 20 * ts + 4 * i)))
    &&& m.tev_texgen_flags@ == u32_list(t.skip(4 + 24 * ts))
}

/// The bytes a stage list at the start of `t` takes: the count, the stages,
/// their texture inputs and the generator flag list.
pub open spec fn stages_len(t: Seq<u8>) -> int {
    4 + 24 * be_u32(t) + 4 + 4 * be_u32(t.skip(4 + 24 * be_u32(t)))
}

/// Where a material record ends.
pub open spec fn material_end(s: Seq<u8>) -> int {
    stages_at(s) + stages_len(s.skip(stages_at(s)))
}

/// A material's flags, texture list, attribute mask, group index and, when
/// flag bit 3 is set, its constant colours.
fn read_material_prefix(r: &mut Reader) -> (res: Result<(u32, Vec<u32>, u32, u32, Vec<u32>), Error>)
    requires
        old(r).wf(),
    ensures
        final(r).wf(),
        final(r).data == old(r).data,
        res is Ok ==> {
            let s = old(r)@;
            let (flags, textures, attrs, group, konsts) = res->Ok_0;
            let n = be_u32(s.skip(4)) as int;
            &&& s.len() >= blend_at(s)
            &&& flags == be_u32(s)
            &&& textures@ == u32_list(s.skip(4))
            &&& attrs == be_u32(s.skip(8 + 4 * n))
            &&& group == be_u32(s.skip(12 + 4 * n))
            &&& konsts@ == (if flags & 0x8 != 0 { u32_list(s.skip(konsts_at(s))) } else { Seq::empty() })
            &&& final(r)@ == s.skip(blend_at(s))
        },
        res is Err ==> old(r)@.len() < blend_at(old(r)@) && res->Err_0 == Error::Truncated,
{
    let ghost s = old(r)@;
    let flags = r.read_u32()?;
    let texture_indices = r.read_u32_list()?;
    let ghost n = texture_indices@.len() as int;
    let vertex_attr_flags = r.read_u32()?;
    let group_index = r.read_u32()?;
    proof {
        assert(s.skip(4).skip(4 + 4 * n) =~= s.skip(8 + 4 * n));
        assert(s.skip(8 + 4 * n).skip(4) =~= s.skip(12 + 4 * n));
        assert(s.skip(12 + 4 * n).skip(4) =~= s.skip(konsts_at(s)));
    }
    let mut konsts: Vec<u32> = Vec::new();
    if flags & 0x8 != 0 {
        konsts = r.read_u32_list()?;
        assert(s.skip(konsts_at(s)).skip(4 + 4 * konsts@.len() as int) =~= s.skip(blend_at(s)));
    }
    Ok((flags, texture_indices, vertex_attr_flags, group_index, konsts))
}

/// The two blend factors and, when flag bit 10 is set, the indirect texture slot.
fn read_blend(r: &mut Reader, flags: u32) -> (res: Result<(u16, u16, Option<u32>), Error>)
    requires
        old(r).wf(),
    ensures
        final(r).wf(),
        final(r).data == old(r).data,
        res is Ok ==> {
            let t = old(r)@;
            let (dst, src, slot) = res->Ok_0;
            &&& dst == be_u16(t)
            &&& src == be_u16(t.skip(2))
            &&& slot == (if flags & 0x400 != 0 { Some(be_u32(t.skip(4))) } else { None })
            &&& t.len() >= (if flags & 0x400 != 0 { 8int } else { 4 })
            &&& final(r)@ == t.skip(if flags & 0x400 != 0 { 8int } else { 4 })
        },
        res is Err ==> old(r)@.len() < (if flags & 0x400 != 0 { 8int } else { 4 }) && res->Err_0 == Error::Truncated,
{
    let ghost t = old(r)@;
    let dst = r.read_u16()?;
    let src = r.read_u16()?;
    assert(t.skip(2).skip(2) =~= t.skip(4));
    let mut slot: Option<u32> = None;
    if flags & 0x400 != 0 {
        slot = Some(r.read_u32()?);
        assert(t.skip(4).skip(4) =~= t.skip(8));
    }
    Ok((dst, src, slot))
}

impl Material {
    /// Decodes a material; which optional fields are present depends on its flags.
    pub fn read_from(r: &mut Reader) -> (res: Result<Material, Error>)
        requires
            old(r).wf(),
        ensures
            final(r).wf(),
            final(r).data == old(r).data,
            res is Ok <==> old(r)@.len() >= material_end(old(r)@),
            res is Ok ==> material_read(old(r)@, res->Ok_0) && final(r)@ == old(r)@.skip(material_end(old(r)@)),
            res is Err ==> res->Err_0 == Error::Truncated,
    {
        let ghost s = old(r)@;
        let (flags, texture_indices, vertex_attr_flags, group_index, konsts) = read_material_prefix(r)?;
        let (blend_dst_factor, blend_src_factor, reflection_indirect_texture_slot) = read_blend(r, flags)?;
        proof {
            let b = blend_at(s);
            if flags & 0x400 != 0 {
                assert(s.skip(b).skip(8) =~= s.skip(channels_at(s)));
            } else {
                assert(s.skip(b).skip(4) =~= s.skip(channels_at(s)));
            }
            assert(s.skip(b).skip(2) =~= s.skip(b + 2));
            assert(s.skip(b).skip(4) =~= s.skip(b + 4));
        }
        let color_channel_flags = r.read_u32_list()?;
        assert(s.skip(channels_at(s)).skip(4 + 4 * color_channel_flags@.len() as int) =~= s.skip(stages_at(s)));
        let (tev_stages, tev_texture_inputs, tev_texgen_flags) = read_material_stages(r)?;
        assert(s.skip(stages_at(s)).skip(stages_len(s.skip(stages_at(s)))) =~= s.skip(material_end(s)));
        proof {
            reveal(material_read);
        }
        Ok(Material {
            flags,
            texture_indices,
            vertex_attr_flags,
            group_index,
            konsts,
            blend_dst_factor,
            blend_src_factor,
            reflection_indirect_texture_slot,
            color_channel_flags,
            tev_stages,
            tev_texture_inputs,
            tev_texgen_flags,
        })
    }
}

/// The material end offsets of a material set.
pub open spec fn set_ends(s: Seq<u8>) -> Seq<u32> {
    u32_list(s.skip(4 + 4 * be_u32(s)))
}

/// Where a material set's material records start.
pub open spec fn set_body(s: Seq<u8>) -> int {
    8 + 4 * be_u32(s) + 4 * be_u32(s.skip(4 + 4 * be_u32(s)))
}

/// The start of material `i`'s record, relative to the records' start.
pub open spec fn material_start(ends: Seq<u32>, i: int) -> int {
    if i == 0 {
        0
    } else {
        ends[i - 1] as int
    }
}

/// Materials `i` on of a set whose records start at `q`, the previous one
/// ending at `last`: the end offsets must not decrease, must fit, and each
/// record must decode.
pub open spec fn materials_from(s: Seq<u8>, q: int, ends: Seq<u32>, i: int, last: u32) -> Result<(), Error>
    decreases ends.len() - i,
{
    if i < 0 || i >= ends.len() {
        Ok(())
    } else if ends[i] < last {
        Err(Error::UnexpectedFormat { context: Field::MaterialOffsets, value: ends[i] })
    } else if s.len() < q + ends[i] {
        Err(Error::Truncated)
    } else if ends[i] - last < material_end(s.subrange(q + last, q + ends[i])) {
        Err(Error::Truncated)
    } else {
        materials_from(s, q, ends, i + 1, ends[i])
    }
}

/// Whether a material set can be read, and if not, why.
pub open spec fn material_set_result(s: Seq<u8>) -> Result<(), Error> {
    if s.len() < 4 || s.len() < 4 + 4 * be_u32(s) {
        Err(Error::Truncated)
    } else if s.len() < set_body(s) {
        Err(Error::Truncated)
    } else {
        materials_from(s, set_body(s), set_ends(s), 0, 0)
    }
}

/// Set `m` holds what the record at the start of `s` says.
#[verifier::opaque]
pub open spec fn material_set_read(s: Seq<u8>, m: MaterialSet) -> bool {
    let ends = set_ends(s);
    let q = set_body(s);
    &&& m.texture_ids@ == u32_list(s)
    &&& m.materials@.len() == ends.len()
    &&& forall|i: int|
        0 <= i < ends.len() ==> material_read(
            s.subrange(q + material_start(ends, i), q + ends[i]),
            #[trigger] m.materials@[i],
        )
}

impl MaterialSet {
    /// Decodes a material set: texture ids, the end offset of each material,
    /// then the materials themselves.
    pub fn read_from(r: &mut Reader) -> (res: Result<MaterialSet, Error>)
        requires
            old(r).wf(),
        ensures
            final(r).wf(),
            final(r).data == old(r).data,
            match material_set_result(old(r)@) {
                Ok(_) => res is Ok && material_set_read(old(r)@, res->Ok_0),
                Err(e) => res is Err && res->Err_0 == e,
            },
    {
        let ghost s = old(r)@;
        let texture_ids = r.read_u32_list()?;
        let ghost n = texture_ids@.len() as int;
        assert(s.skip(4).skip(4 * n) =~= s.skip(4 + 4 * n));
        let ends = r.read_u32_list()?;
        let ghost q = set_body(s);
        assert(s.skip(4 + 4 * n).skip(4 + 4 * ends@.len() as int) =~= s.skip(q));
        let mut materials: Vec<Material> = Vec::new();
        let mut last: u32 = 0;
        let mut i: usize = 0;
        while i < ends.len()
            invariant
                r.wf(),
                r.data == old(r).data,
                s == old(r)@,
                q == set_body(s),
                s.len() >= q,
                texture_ids@ == u32_list(s),
                ends@ == set_ends(s),
                i <= ends@.len(),
                last == material_start(ends@, i as int),
                s.len() >= q + last,
                r@ == s.skip(q + last),
                material_set_result(s) == materials_from(s, q, ends@, i as int, last),
                materials@.len() == i,
                forall|j: int|
                    0 <= j < i ==> material_read(
                        s.subrange(q + material_start(ends@, j), q + ends@[j]),
                        #[trigger] materials@[j],
                    ),
            decreases ends@.len() - i,
        {
            let end = ends[i];
            if end < last {
                return Err(Error::UnexpectedFormat { context: Field::MaterialOffsets, value: end });
            }
            let bytes = r.read_bytes((end - last) as usize)?;
            assert(bytes@ =~= s.subrange(q + last, q + end));
            let mut mr = Reader::new(bytes);
            let m = Material::read_from(&mut mr)?;
            materials.push(m);
            assert(s.skip(q + last).skip(end - last) =~= s.skip(q + end));
            last = end;
            i = i + 1;
        }
        proof {
            reveal(material_set_read);
        }
        Ok(MaterialSet { texture_ids, materials })
    }
}

/// Whether a surface section holds its header and reaches its display list.
pub open spec fn surface_fits(s: Seq<u8>) -> bool {
    s.len() >= 48 && s.len() >= round_up_32(48 + be_u32(s.skip(28)))
}

/// Surface `f` holds what section `s` says.
#[verifier::opaque]
pub open spec fn surface_read(s: Seq<u8>, f: Surface) -> bool {
    &&& f.center == (Vec3Bits { x: be_u32(s), y: be_u32(s.skip(4)), z: be_u32(s.skip(8)) })
    &&& f.material_index == be_u32(s.skip(12))
    &&& f.normal_divisor == be_u16(s.skip(16))
    &&& f.reflective_normal == (Vec3Bits { x: be_u32(s.skip(32)), y: be_u32(s.skip(36)), z: be_u32(s.skip(40)) })
    &&& f.display_list.data@ == s.skip(round_up_32(48 + be_u32(s.skip(28))))
}

impl Surface {
    /// Decodes a surface section: a 48-byte header, extra data that is
    /// skipped, padding to a 32-byte boundary, then the display list.
    pub fn read_from(r: &mut Reader) -> (res: Result<Surface, Error>)
        requires
            old(r).wf(),
        ensures
            final(r).wf(),
            final(r).data == old(r).data,
            surface_fits(old(r)@) ==> res is Ok && surface_read(old(r)@, res->Ok_0),
            !surface_fits(old(r)@) ==> res is Err && res->Err_0 == Error::Truncated,
    {
        let ghost s = old(r)@;
        let data = r.read_to_end();
        if data.len() < 48 {
            return Err(Error::Truncated);
        }
        let cx = u32_at(data, 0);
        let cy = u32_at(data, 4);
        let cz = u32_at(data, 8);
        let material_index = u32_at(data, 12);
        let normal_divisor = u16_at(data, 16);
        let extra_data_size = u32_at(data, 28);
        let nx = u32_at(data, 32);
        let ny = u32_at(data, 36);
        let nz = u32_at(data, 40);
        let header_size = 48 + extra_data_size as u64;
        let start = if header_size % 32 == 0 {
            header_size
        } else {
            header_size + 32 - header_size % 32
        };
        if (data.len() as u64) < start {
            return Err(Error::Truncated);
        }
        let list = &data[start as usize..data.len()];
        assert(list@ =~= s.skip(start as int));
        proof {
            reveal(surface_read);
        }
        Ok(Surface {
            center: Vec3Bits { x: cx, y: cy, z: cz },
            material_index,
            normal_divisor,
            reflective_normal: Vec3Bits { x: nx, y: ny, z: nz },
            display_list: DisplayList { data: vstd::slice::slice_to_vec(list) },
        })
    }
}

/// What the fixed part of a model header says.
pub open spec fn header_facts(s: Seq<u8>, flags: u32, bounds: Seq<u32>, material_set_count: u32) -> bool {
    &&& s.len() >= 44
    &&& be_u32(s) == CMDL_MAGIC
    &&& be_u32(s.skip(4)) == CMDL_VERSION
    &&& flags == be_u32(s.skip(8))
    &&& bounds.len() == 6
    &&& forall|i: int| 0 <= i < 6 ==> #[trigger] bounds[i] == be_u32(s.skip(12 + 4 * i))
    &&& material_set_count == be_u32(s.skip(40))
}

/// The size that the model header of `s` declares for section `k`.
pub open spec fn section_size(s: Seq<u8>, k: int) -> int {
    be_u32(s.skip(44 + 4 * k)) as int
}

/// Where section `k` starts: the header is padded to 32 bytes, and so is
/// every section before `k`.
pub open spec fn section_start(s: Seq<u8>, k: nat) -> int
    decreases k,
{
    if k == 0 {
        round_up_32(44 + 4 * be_u32(s.skip(36)))
    } else {
        section_start(s, (k - 1) as nat) + round_up_32(section_size(s, k - 1))
    }
}

/// The bytes of section `k`, without its padding.
pub open spec fn model_section(s: Seq<u8>, k: int) -> Seq<u8> {
    s.subrange(section_start(s, k as nat), section_start(s, k as nat) + section_size(s, k))
}

pub open spec fn sections_read(s: Seq<u8>, sections: Seq<&[u8]>) -> bool {
    forall|j: int| 0 <= j < sections.len() ==> (#[trigger] sections[j])@ == model_section(s, j)
}

proof fn lemma_sections_grow(s: Seq<u8>, j: nat, k: nat)
    requires
        j <= k,
    ensures
        section_start(s, j) <= section_start(s, k),
    decreases k - j,
{
    if j < k {
        lemma_sections_grow(s, j, (k - 1) as nat);
        assert(round_up_32(section_size(s, k - 1)) >= 0);
    }
}

/// Material sets `k` on, up to `msc`: each must have a section and decode.
pub open spec fn sets_from(s: Seq<u8>, k: int, msc: int, sc: int) -> Result<(), Error>
    decreases msc - k,
{
    if k >= msc {
        Ok(())
    } else if k >= sc {
        Err(Error::UnexpectedFormat { context: Field::ModelSections, value: sc as u32 })
    } else {
        match material_set_result(model_section(s, k)) {
            Err(e) => Err(e),
            Ok(_) => sets_from(s, k + 1, msc, sc),
        }
    }
}

/// Surfaces `j` on, up to `c`, in sections from `first` on: each must have a
/// section that holds it.
pub open spec fn surfaces_from(s: Seq<u8>, first: int, j: int, c: int, sc: int) -> Result<(), Error>
    decreases c - j,
{
    if j >= c {
        Ok(())
    } else if first + j >= sc {
        Err(Error::UnexpectedFormat { context: Field::ModelSections, value: sc as u32 })
    } else if !surface_fits(model_section(s, first + j)) {
        Err(Error::Truncated)
    } else {
        surfaces_from(s, first, j + 1, c, sc)
    }
}

/// Whether a model can be read, and if not, why.
pub open spec fn cmdl_result(s: Seq<u8>) -> Result<(), Error> {
    let sc = be_u32(s.skip(36)) as int;
    let msc = be_u32(s.skip(40)) as int;
    let u: int = if be_u32(s.skip(8)) & 4 != 0 { 1 } else { 0 };
    let table = model_section(s, msc + 4 + u);
    if s.len() < 4 {
        Err(Error::Truncated)
    } else if be_u32(s) != CMDL_MAGIC {
        Err(Error::UnexpectedFormat { context: Field::ModelMagic, value: be_u32(s) })
    } else if s.len() < 8 {
        Err(Error::Truncated)
    } else if be_u32(s.skip(4)) != CMDL_VERSION {
        Err(Error::UnexpectedFormat { context: Field::ModelVersion, value: be_u32(s.skip(4)) })
    } else if s.len() < 44 + 4 * sc || s.len() < section_start(s, sc as nat) {
        Err(Error::Truncated)
    } else {
        match sets_from(s, 0, msc, sc) {
            Err(e) => Err(e),
            Ok(_) => if msc + 4 + u >= sc {
                Err(Error::UnexpectedFormat { context: Field::ModelSections, value: sc as u32 })
            } else if table.len() < 4 || table.len() < 4 + 4 * be_u32(table) {
                Err(Error::Truncated)
            } else {
                surfaces_from(s, msc + 5 + u, 0, be_u32(table) as int, sc)
            },
        }
    }
}

/// A model's header: magic and version, flags, bounds, the section and
/// material-set counts, the section sizes, and the padding after them.
fn read_header(r: &mut Reader) -> (res: Result<(u32, Vec<u32>, u32, u32, Vec<u32>), Error>)
    requires
        old(r).wf(),
        old(r).pos == 0,
    ensures
        final(r).wf(),
        final(r).data == old(r).data,
        ({
            let s = old(r).data@;
            let sc = be_u32(s.skip(36)) as int;
            match res {
                Ok((flags, bounds, section_count, msc, sizes)) => {
                    &&& header_facts(s, flags, bounds@, msc)
                    &&& section_count == sc
                    &&& sizes@.len() == sc
                    &&& forall|k: int| 0 <= k < sc ==> #[trigger] sizes@[k] == section_size(s, k)
                    &&& s.len() >= 44 + 4 * sc
                    &&& 0 <= section_start(s, 0) <= s.len()
                    &&& final(r)@ == s.skip(section_start(s, 0))
                },
                Err(e) => {
                    ||| s.len() < 4 && e == Error::Truncated
                    ||| s.len() >= 4 && be_u32(s) != CMDL_MAGIC && e == (Error::UnexpectedFormat { context: Field::ModelMagic, value: be_u32(s) })
                    ||| s.len() >= 4 && be_u32(s) == CMDL_MAGIC && s.len() < 8 && e == Error::Truncated
                    ||| s.len() >= 8 && be_u32(s) == CMDL_MAGIC && be_u32(s.skip(4)) != CMDL_VERSION && e == (Error::UnexpectedFormat {
                        context: Field::ModelVersion,
                        value: be_u32(s.skip(4)),
                    })
                    ||| s.len() >= 8 && be_u32(s) == CMDL_MAGIC && be_u32(s.skip(4)) == CMDL_VERSION && (s.len() < 44 + 4 * sc
                        || s.len() < section_start(s, 0)) && e == Error::Truncated
                },
            }
        }),
{
    let ghost s = old(r).data@;
    assert(old(r)@ =~= s);
    let magic = r.read_u32()?;
    if magic != CMDL_MAGIC {
        return Err(Error::UnexpectedFormat { context: Field::ModelMagic, value: magic });
    }
    let version = r.read_u32()?;
    if version != CMDL_VERSION {
        return Err(Error::UnexpectedFormat { context: Field::ModelVersion, value: version });
    }
    let flags = r.read_u32()?;
    assert(s.skip(4).skip(4) =~= s.skip(8));
    assert(s.skip(8).skip(4) =~= s.skip(12));
    let bounds = r.read_u32_array(6)?;
    proof {
        assert(s.skip(12).skip(24) =~= s.skip(36));
        assert forall|i: int| 0 <= i < 6 implies #[trigger] bounds@[i] == be_u32(s.skip(12 + 4 * i)) by {
            assert(s.skip(12).skip(4 * i) =~= s.skip(12 + 4 * i));
        }
    }
    let section_count = r.read_u32()?;
    assert(s.skip(36).skip(4) =~= s.skip(40));
    let material_set_count = r.read_u32()?;
    assert(header_facts(s, flags, bounds@, material_set_count));
    assert(s.skip(40).skip(4) =~= s.skip(44));
    let section_sizes = r.read_u32_array(section_count as usize)?;
    proof {
        assert forall|k: int| 0 <= k < section_count implies #[trigger] section_sizes@[k] == section_size(s, k) by {
            assert(s.skip(44).skip(4 * k) =~= s.skip(44 + 4 * k));
        }
        assert(s.skip(44).skip(4 * section_count) =~= s.skip(44 + 4 * section_count));
    }
    let header_size = 44 + 4 * section_count as u64;
    if header_size % 32 != 0 {
        r.skip_bytes((32 - header_size % 32) as usize)?;
    }
    assert(r@ =~= s.skip(section_start(s, 0)));
    Ok((flags, bounds, section_count, material_set_count, section_sizes))
}

fn read_sections<'a>(r: &mut Reader<'a>, sizes: &Vec<u32>) -> (res: Result<Vec<&'a [u8]>, Error>)
    requires
        old(r).wf(),
        sizes@.len() == be_u32(old(r).data@.skip(36)),
        forall|k: int| 0 <= k < sizes@.len() ==> #[trigger] sizes@[k] == section_size(old(r).data@, k),
        0 <= section_start(old(r).data@, 0) <= old(r).data@.len(),
        old(r)@ == old(r).data@.skip(section_start(old(r).data@, 0)),
    ensures
        final(r).wf(),
        final(r).data == old(r).data,
        ({
            let s = old(r).data@;
            match res {
                Ok(v) => s.len() >= section_start(s, sizes@.len()) && v@.len() == sizes@.len() && sections_read(s, v@),
                Err(e) => s.len() < section_start(s, sizes@.len()) && e == Error::Truncated,
            }
        }),
{
    let ghost s = old(r).data@;
    let mut sections: Vec<&[u8]> = Vec::new();
    let mut i: usize = 0;
    while i < sizes.len()
        invariant
            r.wf(),
            r.data == old(r).data,
            s == old(r).data@,
            i <= sizes@.len(),
            forall|k: int| 0 <= k < sizes@.len() ==> #[trigger] sizes@[k] == section_size(s, k),
            0 <= section_start(s, i as nat) <= s.len(),
            r@ == s.skip(section_start(s, i as nat)),
            sections@.len() == i,
            sections_read(s, sections@),
        decreases sizes@.len() - i,
    {
        let size = sizes[i] as u64;
        let padded = if size % 32 == 0 {
            size
        } else {
            size + 32 - size % 32
        };
        let ghost start = section_start(s, i as nat);
        assert(section_start(s, (i + 1) as nat) == start + padded);
        if (r.remaining() as u64) < padded {
            proof {
                lemma_sections_grow(s, (i + 1) as nat, sizes@.len() as nat);
            }
            return Err(Error::Truncated);
        }
        let chunk = r.read_bytes(padded as usize)?;
        let section = &chunk[0..size as usize];
        assert(section@ =~= model_section(s, i as int));
        sections.push(section);
        proof {
            assert forall|j: int| 0 <= j < sections@.len() implies (#[trigger] sections@[j])@ == model_section(s, j) by {
                if j < i {
                    assert(sections@[j] == sections@.drop_last()[j]);
                }
            }
        }
        i = i + 1;
    }
    Ok(sections)
}

fn read_sets(sections: &Vec<&[u8]>, msc: u32, Ghost(s): Ghost<Seq<u8>>) -> (res: Result<Vec<MaterialSet>, Error>)
    requires
        sections_read(s, sections@),
    ensures
        match sets_from(s, 0, msc as int, sections@.len() as int) {
            Ok(_) => res is Ok && res->Ok_0@.len() == msc && forall|k: int|
                0 <= k < msc ==> material_set_read(model_section(s, k), #[trigger] res->Ok_0@[k]),
            Err(e) => res is Err && res->Err_0 == e,
        },
{
    let mut materials: Vec<MaterialSet> = Vec::new();
    let mut k: u32 = 0;
    while k < msc
        invariant
            sections_read(s, sections@),
            k <= msc,
            materials@.len() == k,
            sets_from(s, 0, msc as int, sections@.len() as int) == sets_from(s, k as int, msc as int, sections@.len() as int),
            forall|j: int| 0 <= j < k ==> material_set_read(model_section(s, j), #[trigger] materials@[j]),
        decreases msc - k,
    {
        if k as usize >= sections.len() {
            return Err(Error::UnexpectedFormat { context: Field::ModelSections, value: sections.len() as u32 });
        }
        let section = sections[k as usize];
        assert(section@ == model_section(s, k as int));
        let mut mr = Reader::new(section);
        let m = MaterialSet::read_from(&mut mr)?;
        materials.push(m);
        k = k + 1;
    }
    Ok(materials)
}

fn read_surfaces(sections: &Vec<&[u8]>, first: usize, count: u32, Ghost(s): Ghost<Seq<u8>>) -> (res: Result<Vec<Surface>, Error>)
    requires
        sections_read(s, sections@),
    ensures
        match surfaces_from(s, first as int, 0, count as int, sections@.len() as int) {
            Ok(_) => res is Ok && res->Ok_0@.len() == count && forall|j: int|
                0 <= j < count ==> surface_read(model_section(s, first + j), #[trigger] res->Ok_0@[j]),
            Err(e) => res is Err && res->Err_0 == e,
        },
{
    let mut surfaces: Vec<Surface> = Vec::new();
    let mut j: u32 = 0;
    while j < count
        invariant
            sections_read(s, sections@),
            j <= count,
            surfaces@.len() == j,
            surfaces_from(s, first as int, 0, count as int, sections@.len() as int) == surfaces_from(
                s,
                first as int,
                j as int,
                count as int,
                sections@.len() as int,
            ),
            forall|i: int| 0 <= i < j ==> surface_read(model_section(s, first + i), #[trigger] surfaces@[i]),
        decreases count - j,
    {
        if first >= sections.len() || j as usize >= sections.len() - first {
            return Err(Error::UnexpectedFormat { context: Field::ModelSections, value: sections.len() as u32 });
        }
        let section = sections[first + j as usize];
        assert(section@ == model_section(s, first + j));
        let mut sr = Reader::new(section);
        let f = Surface::read_from(&mut sr)?;
        surfaces.push(f);
        j = j + 1;
    }
    Ok(surfaces)
}

/// Model `m` holds what the model resource `s` says: its header fields, every
/// section in its place, every material set and surface as their sections say.
pub open spec fn cmdl_read(s: Seq<u8>, m: Cmdl) -> bool {
    let msc = be_u32(s.skip(40)) as int;
    let u: int = if m.flags & 4 != 0 { 1 } else { 0 };
    &&& be_u32(s) == CMDL_MAGIC
    &&& be_u32(s.skip(4)) == CMDL_VERSION
    &&& m.flags == be_u32(s.skip(8))
    &&& m.bounds@.len() == 6
    &&& forall|i: int| 0 <= i < 6 ==> #[trigger] m.bounds@[i] == be_u32(s.skip(12 + 4 * i))
    &&& m.materials@.len() == be_u32(s.skip(40))
    &&& (m.flags & 4 == 0 ==> m.uv_short_data@.len() == 0)
    &&& forall|k: int| 0 <= k < msc ==> material_set_read(model_section(s, k), #[trigger] m.materials@[k])
    &&& m.position_data@ == model_section(s, msc)
    &&& m.normal_data@ == model_section(s, msc + 1)
    &&& m.color_data@ == model_section(s, msc + 2)
    &&& m.uv_float_data@ == model_section(s, msc + 3)
    &&& (m.flags & 4 != 0 ==> m.uv_short_data@ == model_section(s, msc + 4))
    &&& m.surfaces@.len() == be_u32(model_section(s, msc + 4 + u))
    &&& forall|i: int| 0 <= i < m.surfaces@.len() ==> surface_read(model_section(s, msc + 5 + u + i), #[trigger] m.surfaces@[i])
}

/// Takes the next section, or fails when the model declared too few.
fn next_section<'a>(sections: &Vec<&'a [u8]>, next: &mut usize, section_count: u32) -> (r: Result<&'a [u8], Error>)
    requires
        sections@.len() == section_count,
    ensures
        match r {
            Ok(b) => *old(next) < sections@.len() && b == sections@[*old(next) as int] && *final(next) == *old(next)
                + 1,
            Err(e) => *old(next) >= sections@.len() && e == (Error::UnexpectedFormat {
                context: Field::ModelSections,
                value: section_count,
            }),
        },
{
    if *next >= sections.len() {
        return Err(Error::UnexpectedFormat { context: Field::ModelSections, value: section_count });
    }
    let b = sections[*next];
    *next = *next + 1;
    Ok(b)
}

impl Cmdl {
    /// Decodes a model: its header, then its sections in their fixed order
    /// (material sets, positions, normals, colours, float texture
    /// coordinates, short texture coordinates when flag bit 2 is set, the
    /// surface table, then one section per surface).
    #[verifier::rlimit(100)]
    pub fn read_from(data: &[u8]) -> (res: Result<Cmdl, Error>)
        ensures
            data@.len() < 4 ==> res is Err && res->Err_0 == Error::Truncated,
            data@.len() >= 4 && be_u32(data@) != CMDL_MAGIC ==> (res is Err && res->Err_0
                == (Error::UnexpectedFormat { context: Field::ModelMagic, value: be_u32(data@) })),
            data@.len() >= 8 && be_u32(data@) == CMDL_MAGIC && be_u32(data@.skip(4)) != CMDL_VERSION ==> (res is Err
                && res->Err_0 == (Error::UnexpectedFormat {
                context: Field::ModelVersion,
                value: be_u32(data@.skip(4)),
            })),
            res is Ok ==> cmdl_read(data@, res->Ok_0),
            match cmdl_result(data@) {
                Ok(_) => res is Ok,
                Err(e) => res is Err && res->Err_0 == e,
            },
    {
        let ghost s = data@;
        let mut r = Reader::new(data);
        proof {
            lemma_sections_grow(s, 0, be_u32(s.skip(36)) as nat);
        }
        let (flags, bounds, section_count, material_set_count, section_sizes) = read_header(&mut r)?;
        let sections = read_sections(&mut r, &section_sizes)?;
        let materials = read_sets(&sections, material_set_count, Ghost(s))?;
        let mut next: usize = material_set_count as usize;
        let ghost msc = material_set_count as int;
        let position_data = vstd::slice::slice_to_vec(next_section(&sections, &mut next, section_count)?);
        let normal_data = vstd::slice::slice_to_vec(next_section(&sections, &mut next, section_count)?);
        let color_data = vstd::slice::slice_to_vec(next_section(&sections, &mut next, section_count)?);
        let uv_float_data = vstd::slice::slice_to_vec(next_section(&sections, &mut next, section_count)?);
        let uv_short_data = if flags & 4 != 0 {
            vstd::slice::slice_to_vec(next_section(&sections, &mut next, section_count)?)
        } else {
            Vec::new()
        };
        let ghost u: int = if flags & 4 != 0 { 1 } else { 0 };
        let table = next_section(&sections, &mut next, section_count)?;
        assert(table@ == model_section(s, msc + 4 + u));
        let mut tr = Reader::new(table);
        let surface_count = tr.read_u32()?;
        let surface_ends = tr.read_u32_array(surface_count as usize)?;
        let surfaces = read_surfaces(&sections, next, surface_count, Ghost(s))?;
        Ok(Cmdl {
            flags,
            bounds,
            materials,
            position_data,
            normal_data,
            color_data,
            uv_float_data,
            uv_short_data,
            surfaces,
        })
    }
}

} // verus!
