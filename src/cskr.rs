//! Skin resources: groups of vertices that share bone weights.

use vstd::prelude::*;

use crate::error::Error;
use crate::reader::{be_u32, Reader};

verus! {

/// A bone and the bit pattern of its weight.
#[derive(Clone, Copy, Debug, PartialEq, Eq, Structural)]
pub struct Weight {
    pub bone_id: u32,
    pub weight: u32,
}

/// A run of vertices that share one list of bone weights.
pub struct VertexGroup {
    pub weights: Vec<Weight>,
    pub vertex_count: u32,
}

/// A skin resource: vertex groups in the order of the vertices they cover.
pub struct Cskr {
    pub vertex_groups: Vec<VertexGroup>,
}

/// What a vertex group record decodes to: its weights, its vertex count and
/// the bytes it takes; `None` when the bytes run out.
pub open spec fn group_at(s: Seq<u8>) -> Option<(Seq<Weight>, u32, nat)> {
    if s.len() < 4 {
        None
    } else {
        let n = be_u32(s) as nat;
        if s.len() < 8 + 8 * n {
            None
        } else {
            Some(
                (
                    Seq::new(
                        n,
                        |i: int|
                            Weight { bone_id: be_u32(s.skip(4 + 8 * i)), weight: be_u32(s.skip(8 + 8 * i)) },
                    ),
                    be_u32(s.skip(4 + 8 * n as int)),
                    8 + 8 * n,
                ),
            )
        }
    }
}

/// The groups that follow, read while fewer than `need` vertices are covered.
pub open spec fn groups_from(s: Seq<u8>, need: int) -> Result<Seq<(Seq<Weight>, u32)>, Error>
    decreases s.len(),
{
    if need <= 0 {
        if need == 0 {
            Ok(Seq::empty())
        } else {
            Err(Error::InconsistentSkin)
        }
    } else {
        match group_at(s) {
            None => Err(Error::Truncated),
            Some((w, c, used)) => if 0 < used <= s.len() {
                match groups_from(s.skip(used as int), need - c) {
                    Ok(rest) => Ok(seq![(w, c)] + rest),
                    Err(e) => Err(e),
                }
            } else {
                Err(Error::Truncated)
            },
        }
    }
}

/// What a skin resource decodes to: a declared vertex total, then groups
/// until their vertex counts reach it; overshooting it is an inconsistency.
pub open spec fn skin_from(s: Seq<u8>) -> Result<Seq<(Seq<Weight>, u32)>, Error> {
    if s.len() < 4 {
        Err(Error::Truncated)
    } else {
        groups_from(s.skip(4), be_u32(s) as int)
    }
}

pub open spec fn total_vertices(g: Seq<(Seq<Weight>, u32)>) -> int
    decreases g.len(),
{
    if g.len() == 0 {
        0
    } else {
        g[0].1 + total_vertices(g.skip(1))
    }
}

impl VertexGroup {
    pub open spec fn view_pair(&self) -> (Seq<Weight>, u32) {
        (self.weights@, self.vertex_count)
    }

    pub fn read_from(r: &mut Reader) -> (res: Result<VertexGroup, Error>)
        requires
            old(r).wf(),
        ensures
            final(r).wf(),
            final(r).data == old(r).data,
            match group_at(old(r)@) {
                Some((w, c, used)) => res is Ok && res->Ok_0.view_pair() == (w, c) && final(r)@ == old(r)@.skip(
                    used as int,
                ),
                None => res is Err && res->Err_0 == Error::Truncated,
            },
    {
        let ghost s = old(r)@;
        let n = r.read_u32()?;
        if (r.remaining() as u64) < 8 * (n as u64) + 4 {
            return Err(Error::Truncated);
        }
        let mut weights: Vec<Weight> = Vec::new();
        let mut i: u32 = 0;
        while i < n
            invariant
                r.wf(),
                r.data == old(r).data,
                s == old(r)@,
                s.len() >= 8 + 8 * n,
                n == be_u32(s),
                i <= n,
                r@ == s.skip(4 + 8 * i),
                weights@.len() == i,
                forall|j: int|
                    0 <= j < i ==> #[trigger] weights@[j] == (Weight {
                        bone_id: be_u32(s.skip(4 + 8 * j)),
                        weight: be_u32(s.skip(8 + 8 * j)),
                    }),
            decreases n - i,
        {
            let bone_id = r.read_u32()?;
            assert(s.skip(4 + 8 * i).skip(4) =~= s.skip(8 + 8 * i));
            let weight = r.read_u32()?;
            assert(s.skip(8 + 8 * i).skip(4) =~= s.skip(4 + 8 * (i + 1)));
            weights.push(Weight { bone_id, weight });
            i = i + 1;
        }
        let vertex_count = r.read_u32()?;
        assert(s.skip(4 + 8 * n).skip(4) =~= s.skip(8 + 8 * n));
        assert(weights@ =~= group_at(s)->Some_0.0);
        Ok(VertexGroup { weights, vertex_count })
    }
}

pub open spec fn group_views(g: Seq<VertexGroup>) -> Seq<(Seq<Weight>, u32)> {
    g.map_values(|x: VertexGroup| x.view_pair())
}

pub open spec fn prepend_groups(done: Seq<(Seq<Weight>, u32)>, rest: Result<Seq<(Seq<Weight>, u32)>, Error>) -> Result<
    Seq<(Seq<Weight>, u32)>,
    Error,
> {
    match rest {
        Ok(x) => Ok(done + x),
        Err(e) => Err(e),
    }
}

impl Cskr {
    /// Decodes a skin resource; the groups' vertex counts must add up to the
    /// declared total.
    pub fn read_from(r: &mut Reader) -> (res: Result<Cskr, Error>)
        requires
            old(r).wf(),
        ensures
            final(r).wf(),
            final(r).data == old(r).data,
            match skin_from(old(r)@) {
                Ok(g) => res is Ok && group_views(res->Ok_0.vertex_groups@) == g,
                Err(e) => res is Err && res->Err_0 == e,
            },
    {
        let ghost s = old(r)@;
        let declared = r.read_u32()?;
        let mut covered: u64 = 0;
        let mut vertex_groups: Vec<VertexGroup> = Vec::new();
        while covered < declared as u64
            invariant
                r.wf(),
                r.data == old(r).data,
                s == old(r)@,
                s.len() >= 4,
                declared == be_u32(s),
                covered <= declared,
                skin_from(s) == prepend_groups(group_views(vertex_groups@), groups_from(r@, declared - covered)),
            decreases r@.len(),
        {
            let ghost before = r@;
            let g = VertexGroup::read_from(r)?;
            let ghost gv = g.view_pair();
            proof {
                let (w, c, used) = group_at(before)->Some_0;
                assert(group_views(vertex_groups@.push(g)) =~= group_views(vertex_groups@) + seq![gv]);
                match groups_from(r@, declared - covered - c) {
                    Ok(rest) => {
                        assert(group_views(vertex_groups@) + (seq![gv] + rest) =~= group_views(vertex_groups@)
                            + seq![gv] + rest);
                    },
                    Err(_) => {},
                }
            }
            let vc = g.vertex_count as u64;
            vertex_groups.push(g);
            if covered + vc > declared as u64 {
                return Err(Error::InconsistentSkin);
            }
            covered = covered + vc;
        }
        assert(group_views(vertex_groups@) + Seq::empty() =~= group_views(vertex_groups@));
        Ok(Cskr { vertex_groups })
    }
}

/// A skin that decodes has groups whose vertex counts add up exactly to its
/// declared total; one that does not decode failed for running out of bytes
/// or for a sum that passes the total, never by truncating or padding.
pub proof fn lemma_skin_consistency(s: Seq<u8>)
    ensures
        skin_from(s) is Ok ==> total_vertices(skin_from(s)->Ok_0) == be_u32(s),
        skin_from(s) is Err ==> skin_from(s)->Err_0 == Error::Truncated || skin_from(s)->Err_0
            == Error::InconsistentSkin,
{
    if s.len() >= 4 {
        lemma_groups_total(s.skip(4), be_u32(s) as int);
    }
}

proof fn lemma_groups_total(s: Seq<u8>, need: int)
    ensures
        groups_from(s, need) is Ok ==> total_vertices(groups_from(s, need)->Ok_0) == need,
        groups_from(s, need) is Err ==> groups_from(s, need)->Err_0 == Error::Truncated || groups_from(s, need)->Err_0
            == Error::InconsistentSkin,
    decreases s.len(),
{
    if need > 0 {
        match group_at(s) {
            None => {},
            Some((w, c, used)) => if 0 < used <= s.len() {
                lemma_groups_total(s.skip(used as int), need - c);
                match groups_from(s.skip(used as int), need - c) {
                    Ok(rest) => {
                        let all = seq![(w, c)] + rest;
                        assert(all.skip(1) =~= rest);
                    },
                    Err(_) => {},
                }
            },
        }
    }
}

} // verus!
