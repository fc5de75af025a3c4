//! Display lists: vertex records indexed into attribute tables, and the
//! triangle lists, strips and fans they are assembled into.

use vstd::prelude::*;

use crate::error::{Error, Field};
use crate::reader::{be_u16, be_u32, u16_at, u32_at, Reader};

verus! {

/// Three 32-bit IEEE-754 values, kept as their bit patterns.
#[derive(Clone, Copy, Debug, PartialEq, Eq, Structural)]
pub struct Vec3Bits {
    pub x: u32,
    pub y: u32,
    pub z: u32,
}

/// Two 32-bit IEEE-754 values, kept as their bit patterns.
#[derive(Clone, Copy, Debug, PartialEq, Eq, Structural)]
pub struct Vec2Bits {
    pub s: u32,
    pub t: u32,
}

/// A vertex normal as stored: three floats, or three signed integers that
/// still have to be scaled to unit length.
#[derive(Clone, Copy, Debug, PartialEq, Eq, Structural)]
pub enum Normal {
    Direct(Vec3Bits),
    Packed { x: i16, y: i16, z: i16 },
}

/// One decoded vertex record.
#[derive(Clone, Copy, Debug, PartialEq, Eq, Structural)]
pub struct Vertex {
    pub position: Vec3Bits,
    pub normal: Normal,
    pub texcoord: Option<Vec2Bits>,
    /// The bone that the vertex follows; zero on a mesh without a skin.
    pub bone_id: u32,
    /// The bit pattern of the vertex's bone weight; zero on a mesh without a skin.
    pub weight: u32,
}

/// Per-vertex bone ids and weight bit patterns, indexed like the positions.
pub struct SkinAttributes {
    pub bone_ids: Vec<u32>,
    pub weights: Vec<u32>,
}

/// The attribute tables that a display list's indices point into, and the
/// material's attribute-presence mask.
pub struct VertexSources<'a> {
    pub attr_flags: u32,
    pub positions: &'a [u8],
    pub normals: &'a [u8],
    pub uvs: &'a [u8],
    pub skin: Option<&'a SkinAttributes>,
}

/// The attribute tables and mask as plain sequences.
pub struct TablesView {
    pub attr_flags: u32,
    pub positions: Seq<u8>,
    pub normals: Seq<u8>,
    pub uvs: Seq<u8>,
    pub skin: Option<(Seq<u32>, Seq<u32>)>,
}

impl<'a> View for VertexSources<'a> {
    type V = TablesView;

    open spec fn view(&self) -> TablesView {
        TablesView {
            attr_flags: self.attr_flags,
            positions: self.positions@,
            normals: self.normals@,
            uvs: self.uvs@,
            skin: match self.skin {
                Some(sk) => Some((sk.bone_ids@, sk.weights@)),
                None => None,
            },
        }
    }
}

#[derive(Clone, Copy, Debug, PartialEq, Eq, Structural)]
pub enum Primitive {
    Triangles,
    TriangleStrip,
    TriangleFan,
}

/// One primitive run, expanded to triangles: every three vertices form one.
pub struct Batch {
    pub vertices: Vec<Vertex>,
}

/// A surface's raw display list.
pub struct DisplayList {
    pub data: Vec<u8>,
}

pub open spec fn primitive_of(opcode: u8) -> Option<Primitive> {
    let p = opcode & 0xf8;
    if p == 0x90 {
        Some(Primitive::Triangles)
    } else if p == 0x98 {
        Some(Primitive::TriangleStrip)
    } else if p == 0xa0 {
        Some(Primitive::TriangleFan)
    } else {
        None
    }
}

pub open spec fn has_tex0(flags: u32) -> bool {
    flags & 0x300 != 0
}

pub open spec fn has_tex1(flags: u32) -> bool {
    flags & 0xc00 != 0
}

pub open spec fn has_tex2(flags: u32) -> bool {
    flags & 0x3000 != 0
}

/// The error, if any, that an attribute mask and vertex format give before
/// any vertex is read: positions and normals must be present, and colours,
/// texture coordinates 3 to 6, and coordinate set 0 under vertex format 2
/// are not supported.
pub open spec fn attribute_error(flags: u32, format: u8) -> Option<Error> {
    if flags & 0x3 == 0 || flags & 0xc == 0 || flags & 0x30 != 0 || flags & 0xc0 != 0 || (has_tex0(flags) && format == 2) || flags
        & 0xc000 != 0 || flags & 0x30000 != 0 || flags & 0xc0000 != 0 || flags & 0x300000 != 0 {
        Some(Error::UnsupportedFormat)
    } else {
        None
    }
}

/// Bytes per vertex record: one 16-bit index per attribute that is read.
pub open spec fn record_len(flags: u32) -> nat {
    2 * (2 + (if has_tex0(flags) { 1nat } else { 0 }) + (if has_tex1(flags) { 1nat } else { 0 })
        + (if has_tex2(flags) { 1nat } else { 0 }))
}

pub open spec fn vec3_at(table: Seq<u8>, off: int) -> Vec3Bits {
    Vec3Bits {
        x: be_u32(table.skip(off)),
        y: be_u32(table.skip(off + 4)),
        z: be_u32(table.skip(off + 8)),
    }
}

/// The vertex that record `rec` describes, or `None` when an index points
/// past the end of its table.
pub open spec fn vertex_at(rec: Seq<u8>, format: u8, t: TablesView) -> Option<Vertex> {
    let flags = t.attr_flags;
    let pi = be_u16(rec) as int;
    let ni = be_u16(rec.skip(2)) as int;
    let ti = be_u16(rec.skip(4)) as int;
    let skin_ok = match t.skin {
        Some((b, w)) => pi < b.len() && pi < w.len(),
        None => true,
    };
    let normal_ok = if format == 0 {
        12 * ni + 12 <= t.normals.len()
    } else {
        6 * ni + 6 <= t.normals.len()
    };
    let tex_ok = !has_tex0(flags) || 8 * ti + 8 <= t.uvs.len();
    if 12 * pi + 12 <= t.positions.len() && skin_ok && normal_ok && tex_ok {
        Some(
            Vertex {
                position: vec3_at(t.positions, 12 * pi),
                normal: if format == 0 {
                    Normal::Direct(vec3_at(t.normals, 12 * ni))
                } else {
                    Normal::Packed {
                        x: be_u16(t.normals.skip(6 * ni)) as i16,
                        y: be_u16(t.normals.skip(6 * ni + 2)) as i16,
                        z: be_u16(t.normals.skip(6 * ni + 4)) as i16,
                    }
                },
                texcoord: if has_tex0(flags) {
                    Some(Vec2Bits { s: be_u32(t.uvs.skip(8 * ti)), t: be_u32(t.uvs.skip(8 * ti + 4)) })
                } else {
                    None
                },
                bone_id: match t.skin {
                    Some((b, w)) => b[pi],
                    None => 0,
                },
                weight: match t.skin {
                    Some((b, w)) => w[pi],
                    None => 0,
                },
            },
        )
    } else {
        None
    }
}

/// Corner `c` of triangle `t` of a triangle list.
pub open spec fn list_corner(v: Seq<Vertex>, t: int, c: int) -> Vertex {
    v[3 * t + c]
}

/// Corner `c` of triangle `t` of a strip: the first two corners swap on
/// every other triangle.
pub open spec fn strip_corner(v: Seq<Vertex>, t: int, c: int) -> Vertex {
    if c == 2 {
        v[t + 2]
    } else if (t % 2 == 0) == (c == 0) {
        v[t]
    } else {
        v[t + 1]
    }
}

/// Corner `c` of triangle `t` of a fan: the first vertex is every triangle's pivot.
pub open spec fn fan_corner(v: Seq<Vertex>, t: int, c: int) -> Vertex {
    if c == 0 {
        v[0]
    } else {
        v[t + c]
    }
}

pub open spec fn triangle_count(kind: Primitive, n: nat) -> nat {
    match kind {
        Primitive::Triangles => n / 3,
        _ => if n >= 3 { (n - 2) as nat } else { 0 },
    }
}

/// The vertices of the triangles that `kind` makes of `v`, three per triangle.
pub open spec fn assemble(kind: Primitive, v: Seq<Vertex>) -> Seq<Vertex> {
    Seq::new(
        3 * triangle_count(kind, v.len()),
        |i: int|
            match kind {
                Primitive::Triangles => list_corner(v, i / 3, i % 3),
                Primitive::TriangleStrip => strip_corner(v, i / 3, i % 3),
                Primitive::TriangleFan => fan_corner(v, i / 3, i % 3),
            },
    )
}

/// A strip or a fan of k >= 3 vertices makes k - 2 triangles. Strip
/// triangle t is made of vertices t, t + 1 and t + 2, with the first two in
/// stored order for even t and swapped for odd t; every fan triangle starts
/// at the first vertex and continues with vertices t + 1 and t + 2.
pub proof fn lemma_strip_fan_reconstruction(v: Seq<Vertex>)
    requires
        v.len() >= 3,
    ensures
        assemble(Primitive::TriangleStrip, v).len() == 3 * (v.len() - 2),
        assemble(Primitive::TriangleFan, v).len() == 3 * (v.len() - 2),
        forall|t: int|
            0 <= t < v.len() - 2 ==> {
                &&& #[trigger] assemble(Primitive::TriangleStrip, v)[3 * t] == (if t % 2 == 0 { v[t] } else { v[t + 1] })
                &&& assemble(Primitive::TriangleStrip, v)[3 * t + 1] == (if t % 2 == 0 { v[t + 1] } else { v[t] })
                &&& assemble(Primitive::TriangleStrip, v)[3 * t + 2] == v[t + 2]
            },
        forall|t: int|
            0 <= t < v.len() - 2 ==> {
                &&& #[trigger] assemble(Primitive::TriangleFan, v)[3 * t] == v[0]
                &&& assemble(Primitive::TriangleFan, v)[3 * t + 1] == v[t + 1]
                &&& assemble(Primitive::TriangleFan, v)[3 * t + 2] == v[t + 2]
            },
{
    assert forall|t: int| 0 <= t < v.len() - 2 implies {
        &&& #[trigger] assemble(Primitive::TriangleStrip, v)[3 * t] == (if t % 2 == 0 { v[t] } else { v[t + 1] })
        &&& assemble(Primitive::TriangleStrip, v)[3 * t + 1] == (if t % 2 == 0 { v[t + 1] } else { v[t] })
        &&& assemble(Primitive::TriangleStrip, v)[3 * t + 2] == v[t + 2]
        &&& assemble(Primitive::TriangleFan, v)[3 * t] == v[0]
        &&& assemble(Primitive::TriangleFan, v)[3 * t + 1] == v[t + 1]
        &&& assemble(Primitive::TriangleFan, v)[3 * t + 2] == v[t + 2]
    } by {
        assert((3 * t) / 3 == t && (3 * t) % 3 == 0);
        assert((3 * t + 1) / 3 == t && (3 * t + 1) % 3 == 1);
        assert((3 * t + 2) / 3 == t && (3 * t + 2) % 3 == 2);
    }
}

/// Expands the vertex records of one primitive run into triangles.
pub fn assemble_triangles(kind: Primitive, v: &Vec<Vertex>) -> (r: Vec<Vertex>)
    ensures
        r@ == assemble(kind, v@),
{
    let n = v.len();
    let count: usize = match kind {
        Primitive::Triangles => n / 3,
        _ => if n >= 3 { n - 2 } else { 0 },
    };
    let mut out: Vec<Vertex> = Vec::new();
    let mut t: usize = 0;
    while t < count
        invariant
            t <= count,
            count == triangle_count(kind, v@.len()),
            n == v@.len(),
            out@.len() == 3 * t,
            forall|i: int| 0 <= i < 3 * t ==> #[trigger] out@[i] == assemble(kind, v@)[i],
        decreases count - t,
    {
        let (a, b, c) = match kind {
            Primitive::Triangles => (v[3 * t], v[3 * t + 1], v[3 * t + 2]),
            Primitive::TriangleStrip => if t % 2 == 0 {
                (v[t], v[t + 1], v[t + 2])
            } else {
                (v[t + 1], v[t], v[t + 2])
            },
            Primitive::TriangleFan => (v[0], v[t + 1], v[t + 2]),
        };
        out.push(a);
        out.push(b);
        out.push(c);
        proof {
            let ti = t as int;
            assert((3 * ti) / 3 == ti && (3 * ti) % 3 == 0);
            assert((3 * ti + 1) / 3 == ti && (3 * ti + 1) % 3 == 1);
            assert((3 * ti + 2) / 3 == ti && (3 * ti + 2) % 3 == 2);
        }
        t = t + 1;
    }
    assert(out@ =~= assemble(kind, v@));
    out
}

/// What one primitive run at the start of `s` decodes to, for the opcode
/// that introduced it: its triangles and the bytes it takes.
pub open spec fn decode_batch(s: Seq<u8>, opcode: u8, src: TablesView) -> Result<
    (Seq<Vertex>, nat),
    Error,
> {
    let format = opcode & 0x07;
    let flags = src.attr_flags;
    match primitive_of(opcode) {
        None => Err(Error::UnexpectedFormat { context: Field::PrimitiveType, value: (opcode & 0xf8) as u32 }),
        Some(kind) => if format > 2 {
            Err(Error::UnsupportedFormat)
        } else if s.len() < 2 {
            Err(Error::Truncated)
        } else {
            let count = be_u16(s) as nat;
            let n = record_len(flags);
            if count > 0 && attribute_error(flags, format) is Some {
                Err(attribute_error(flags, format)->Some_0)
            } else if s.len() < 2 + count * n {
                Err(Error::Truncated)
            } else if exists|i: int|
                0 <= i < count && #[trigger] vertex_at(s.skip(2 + i * n), format, src) is None {
                Err(Error::Truncated)
            } else if kind == Primitive::Triangles && count % 3 != 0 {
                Err(Error::UnexpectedFormat { context: Field::VertexCount, value: count as u32 })
            } else {
                let records = Seq::new(count, |i: int| vertex_at(s.skip(2 + i * n), format, src)->Some_0);
                Ok((assemble(kind, records), 2 + count * n))
            }
        },
    }
}

/// The triangle runs of a display list: opcodes, each followed by its run,
/// up to a zero opcode.
pub open spec fn decode_display_list(s: Seq<u8>, src: TablesView) -> Result<Seq<Seq<Vertex>>, Error>
    decreases s.len(),
{
    if s.len() == 0 {
        Err(Error::Truncated)
    } else if s[0] == 0 {
        Ok(Seq::empty())
    } else {
        match decode_batch(s.skip(1), s[0], src) {
            Err(e) => Err(e),
            Ok((tris, used)) => if 0 < used && 1 + used <= s.len() {
                match decode_display_list(s.skip(1 + used as int), src) {
                    Ok(rest) => Ok(seq![tris] + rest),
                    Err(e) => Err(e),
                }
            } else {
                Err(Error::Truncated)
            },
        }
    }
}

/// A display list that holds one strip (opcode 0x98) or fan (opcode 0xa0)
/// run of k >= 3 vertex records in vertex format 0, then the zero opcode,
/// decodes to exactly one run of k - 2 triangles, assembled from its
/// records as a strip or a fan.
pub proof fn lemma_single_run(s: Seq<u8>, t: TablesView)
    requires
        s.len() >= 3,
        s[0] == 0x98 || s[0] == 0xa0,
        be_u16(s.skip(1)) >= 3,
        attribute_error(t.attr_flags, 0) is None,
        s.len() == 4 + be_u16(s.skip(1)) * record_len(t.attr_flags),
        s[s.len() - 1] == 0,
        forall|i: int|
            0 <= i < be_u16(s.skip(1)) ==> #[trigger] vertex_at(s.skip(1).skip(2 + i * record_len(t.attr_flags)), 0, t) is Some,
    ensures
        ({
            let k = be_u16(s.skip(1)) as nat;
            let n = record_len(t.attr_flags);
            let kind = if s[0] == 0x98 { Primitive::TriangleStrip } else { Primitive::TriangleFan };
            let recs = Seq::new(k, |i: int| vertex_at(s.skip(1).skip(2 + i * n), 0, t)->Some_0);
            &&& decode_display_list(s, t) == Ok::<Seq<Seq<Vertex>>, Error>(seq![assemble(kind, recs)])
            &&& assemble(kind, recs).len() == 3 * (k - 2)
        }),
{
    let k = be_u16(s.skip(1)) as nat;
    let n = record_len(t.attr_flags);
    let op = s[0];
    assert(0x98u8 & 0xf8u8 == 0x98u8 && 0x98u8 & 0x07u8 == 0u8) by (bit_vector);
    assert(0xa0u8 & 0xf8u8 == 0xa0u8 && 0xa0u8 & 0x07u8 == 0u8) by (bit_vector);
    let b = s.skip(1);
    assert(k * n >= 0) by (nonlinear_arith)
        requires k >= 0, n >= 0;
    assert(b.len() >= 2 + k * n);
    assert(!exists|i: int| 0 <= i < k && #[trigger] vertex_at(b.skip(2 + i * n), 0, t) is None);
    let used = 2 + k * n;
    let rest = s.skip(1 + used as int);
    assert(rest.len() == 1);
    assert(rest[0] == s[s.len() - 1]);
    assert(decode_display_list(rest, t) == Ok::<Seq<Seq<Vertex>>, Error>(Seq::empty()));
    let kind = if s[0] == 0x98 { Primitive::TriangleStrip } else { Primitive::TriangleFan };
    let recs = Seq::new(k, |i: int| vertex_at(b.skip(2 + i * n), 0, t)->Some_0);
    assert(decode_batch(b, op, t) == Ok::<(Seq<Vertex>, nat), Error>((assemble(kind, recs), used)));
    assert(seq![assemble(kind, recs)] + Seq::<Seq<Vertex>>::empty() =~= seq![assemble(kind, recs)]);
}

pub open spec fn prepend_batches(done: Seq<Seq<Vertex>>, rest: Result<Seq<Seq<Vertex>>, Error>) -> Result<
    Seq<Seq<Vertex>>,
    Error,
> {
    match rest {
        Ok(r) => Ok(done + r),
        Err(e) => Err(e),
    }
}

pub open spec fn batch_views(b: Seq<Batch>) -> Seq<Seq<Vertex>> {
    b.map_values(|x: Batch| x.vertices@)
}



fn vec3_from(t: &[u8], off: usize) -> (r: Vec3Bits)
    requires
        off + 12 <= t@.len(),
    ensures
        r == vec3_at(t@, off as int),
{
    let len = t.len();
    assert(off + 12 <= len);
    Vec3Bits { x: u32_at(t, off), y: u32_at(t, off + 4), z: u32_at(t, off + 8) }
}

fn read_vertex(r: &mut Reader, format: u8, src: &VertexSources) -> (res: Result<Vertex, Error>)
    requires
        old(r).wf(),
        old(r)@.len() >= record_len(src.attr_flags),
        format <= 2,
    ensures
        final(r).wf(),
        final(r).data == old(r).data,
        final(r)@ == old(r)@.skip(record_len(src.attr_flags) as int),
        match vertex_at(old(r)@, format, src@) {
            Some(v) => res == Ok::<Vertex, Error>(v),
            None => res == Err::<Vertex, Error>(Error::Truncated),
        },
{
    let ghost rec = old(r)@;
    let flags = src.attr_flags;
    let pi = r.read_u16()? as usize;
    let ni = r.read_u16()? as usize;
    assert(rec.skip(2).skip(2) =~= rec.skip(4));
    let mut ti: usize = 0;
    if flags & 0x300 != 0 {
        ti = r.read_u16()? as usize;
    }
    if flags & 0xc00 != 0 {
        r.read_u16()?;
    }
    if flags & 0x3000 != 0 {
        r.read_u16()?;
    }
    assert(r@ =~= rec.skip(record_len(flags) as int));
    if 12 * pi + 12 > src.positions.len() {
        return Err(Error::Truncated);
    }
    let (bone_id, weight) = match src.skin {
        Some(sk) => {
            if pi >= sk.bone_ids.len() || pi >= sk.weights.len() {
                return Err(Error::Truncated);
            }
            (sk.bone_ids[pi], sk.weights[pi])
        },
        None => (0u32, 0u32),
    };
    let normal = if format == 0 {
        if 12 * ni + 12 > src.normals.len() {
            return Err(Error::Truncated);
        }
        Normal::Direct(vec3_from(src.normals, 12 * ni))
    } else {
        if 6 * ni + 6 > src.normals.len() {
            return Err(Error::Truncated);
        }
        Normal::Packed {
            x: u16_at(src.normals, 6 * ni) as i16,
            y: u16_at(src.normals, 6 * ni + 2) as i16,
            z: u16_at(src.normals, 6 * ni + 4) as i16,
        }
    };
    let texcoord = if flags & 0x300 != 0 {
        if 8 * ti + 8 > src.uvs.len() {
            return Err(Error::Truncated);
        }
        Some(Vec2Bits { s: u32_at(src.uvs, 8 * ti), t: u32_at(src.uvs, 8 * ti + 4) })
    } else {
        None
    };
    Ok(Vertex { position: vec3_from(src.positions, 12 * pi), normal, texcoord, bone_id, weight })
}

fn attribute_check(flags: u32, format: u8) -> (r: Result<(), Error>)
    ensures
        match attribute_error(flags, format) {
            Some(e) => r == Err::<(), Error>(e),
            None => r is Ok,
        },
{
    if flags & 0x3 == 0 || flags & 0xc == 0 || flags & 0x30 != 0 || flags & 0xc0 != 0 || (flags & 0x300 != 0 && format == 2) || flags
        & 0xc000 != 0 || flags & 0x30000 != 0 || flags & 0xc0000 != 0 || flags & 0x300000 != 0 {
        return Err(Error::UnsupportedFormat);
    }
    Ok(())
}

fn record_len_of(flags: u32) -> (n: usize)
    ensures
        n == record_len(flags),
{
    let mut n: usize = 4;
    if flags & 0x300 != 0 {
        n = n + 2;
    }
    if flags & 0xc00 != 0 {
        n = n + 2;
    }
    if flags & 0x3000 != 0 {
        n = n + 2;
    }
    n
}

impl DisplayList {
    /// Decodes the primitive run that follows `opcode`.
    fn parse_batch(r: &mut Reader, opcode: u8, src: &VertexSources) -> (res: Result<Batch, Error>)
        requires
            old(r).wf(),
        ensures
            final(r).wf(),
            final(r).data == old(r).data,
            match decode_batch(old(r)@, opcode, src@) {
                Ok((tris, used)) => res is Ok && res->Ok_0.vertices@ == tris && final(r)@ == old(r)@.skip(
                    used as int,
                ),
                Err(e) => res is Err && res->Err_0 == e,
            },
    {
        let ghost s = old(r)@;
        let kind = if opcode & 0xf8 == 0x90 {
            Primitive::Triangles
        } else if opcode & 0xf8 == 0x98 {
            Primitive::TriangleStrip
        } else if opcode & 0xf8 == 0xa0 {
            Primitive::TriangleFan
        } else {
            return Err(Error::UnexpectedFormat { context: Field::PrimitiveType, value: (opcode & 0xf8) as u32 });
        };
        let format = opcode & 0x07;
        if format > 2 {
            return Err(Error::UnsupportedFormat);
        }
        let count = r.read_u16()? as usize;
        let flags = src.attr_flags;
        if count > 0 {
            attribute_check(flags, format)?;
        }
        let n = record_len_of(flags);
        if r.remaining() / n < count {
            proof {
                assert(s.len() - 2 < count * n) by (nonlinear_arith)
                    requires (r@.len() as int / n as int) < count, n > 0, r@.len() == s.len() - 2;
            }
            return Err(Error::Truncated);
        }
        proof {
            assert(count * n <= s.len() - 2) by (nonlinear_arith)
                requires (r@.len() as int / n as int) >= count, n > 0, r@.len() == s.len() - 2;
        }
        let ghost full = Seq::new(count as nat, |i: int| vertex_at(s.skip(2 + i * n), format, src@)->Some_0);
        let mut records: Vec<Vertex> = Vec::new();
        let mut i: usize = 0;
        while i < count
            invariant
                r.wf(),
                r.data == old(r).data,
                i <= count,
                n == record_len(flags),
                flags == src.attr_flags,
                format <= 2,
                format == opcode & 0x07,
                primitive_of(opcode) == Some(kind),
                count > 0 ==> attribute_error(flags, format) is None,
                full == Seq::new(count as nat, |j: int| vertex_at(s.skip(2 + j * n), format, src@)->Some_0),
                count == be_u16(s),
                s == old(r)@,
                s.len() >= 2 + count * n,
                r@ == s.skip(2 + i * n),
                records@.len() == i,
                forall|j: int| 0 <= j < i ==> #[trigger] vertex_at(s.skip(2 + j * n), format, src@) is Some,
                forall|j: int| 0 <= j < i ==> #[trigger] records@[j] == full[j],
            decreases count - i,
        {
            proof {
                assert(i * n + n <= count * n) by (nonlinear_arith)
                    requires i < count;
                assert((i + 1) * n == i * n + n) by (nonlinear_arith);
            }
            let ghost at = 2 + i * n;
            let v = read_vertex(r, format, src);
            match v {
                Ok(v) => {
                    records.push(v);
                    assert(records@[i as int] == full[i as int]);
                },
                Err(e) => {
                    assert(vertex_at(s.skip(at), format, src@) is None);
                    assert(e == Error::Truncated);
                    assert(decode_batch(s, opcode, src@) == Err::<(Seq<Vertex>, nat), Error>(Error::Truncated));
                    return Err(e);
                },
            }
            assert(s.skip(2 + i * n).skip(n as int) =~= s.skip(2 + (i + 1) * n));
            i = i + 1;
        }
        assert(records@ =~= full);
        if kind == Primitive::Triangles && count % 3 != 0 {
            return Err(Error::UnexpectedFormat { context: Field::VertexCount, value: count as u32 });
        }
        let vertices = assemble_triangles(kind, &records);
        Ok(Batch { vertices })
    }

    /// Decodes every primitive run of the list, up to its zero opcode.
    pub fn parse(&self, src: &VertexSources) -> (res: Result<Vec<Batch>, Error>)
        ensures
            match decode_display_list(self.data@, src@) {
                Ok(b) => res is Ok && batch_views(res->Ok_0@) == b,
                Err(e) => res is Err && res->Err_0 == e,
            },
    {
        let mut r = Reader::new(self.data.as_slice());
        let mut batches: Vec<Batch> = Vec::new();
        loop
            invariant
                r.wf(),
                decode_display_list(self.data@, src@) == prepend_batches(
                    batch_views(batches@),
                    decode_display_list(r@, src@),
                ),
            decreases r@.len(),
        {
            let ghost before = r@;
            let opcode = r.read_u8()?;
            if opcode == 0 {
                assert(batch_views(batches@) + Seq::<Seq<Vertex>>::empty() =~= batch_views(batches@));
                return Ok(batches);
            }
            let b = Self::parse_batch(&mut r, opcode, src)?;
            proof {
                let (tris, used) = decode_batch(before.skip(1), opcode, src@)->Ok_0;
                assert(before.skip(1).skip(used as int) =~= before.skip(1 + used as int));
                assert(batch_views(batches@.push(b)) =~= batch_views(batches@) + seq![tris]);
                match decode_display_list(r@, src@) {
                    Ok(rest) => {
                        assert(batch_views(batches@) + (seq![tris] + rest) =~= batch_views(batches@)
                            + seq![tris] + rest);
                    },
                    Err(_) => {},
                }
            }
            batches.push(b);
        }
    }
}

} // verus!
