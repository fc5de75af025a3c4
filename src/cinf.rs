//! Skeleton resources: bones, their build order and their names.

use vstd::prelude::*;

use crate::error::Error;
use crate::gx::Vec3Bits;
use crate::reader::{be_u32, c_string, u32_list, Reader};

verus! {

/// A bone: its id, its parent's id, its position and the bones linked to it.
pub struct Bone {
    pub bone_id: u32,
    pub parent_bone_id: u32,
    pub position: Vec3Bits,
    pub linked_bones: Vec<u32>,
}

/// A bone's name.
pub struct BoneName {
    pub name: String,
    pub id: u32,
}

/// A skeleton resource.
pub struct Cinf {
    pub bones: Vec<Bone>,
    pub build_order_ids: Vec<u32>,
    pub bone_names: Vec<BoneName>,
}

/// Where bone record `i` of skeleton `s` starts: each is 24 bytes and then
/// its linked-bone ids.
pub open spec fn bone_at(s: Seq<u8>, i: nat) -> int
    decreases i,
{
    if i == 0 {
        4
    } else {
        let p = bone_at(s, (i - 1) as nat);
        p + 24 + 4 * be_u32(s.skip(p + 20))
    }
}

/// Bone `b` holds what the record at the start of `s` says.
pub open spec fn bone_read(s: Seq<u8>, b: Bone) -> bool {
    let n = be_u32(s.skip(20)) as int;
    &&& s.len() >= 24 + 4 * n
    &&& b.bone_id == be_u32(s)
    &&& b.parent_bone_id == be_u32(s.skip(4))
    &&& b.position == (Vec3Bits { x: be_u32(s.skip(8)), y: be_u32(s.skip(12)), z: be_u32(s.skip(16)) })
    &&& b.linked_bones@ == u32_list(s.skip(20))
}

/// A bone record fits at the start of `s`.
pub open spec fn bone_fits(s: Seq<u8>) -> bool {
    s.len() >= 24 && s.len() >= 24 + 4 * be_u32(s.skip(20))
}

/// A bone name record at the start of `s`: a string and an id; the bytes it
/// takes, or why it cannot be read.
pub open spec fn bone_name_len(s: Seq<u8>) -> Result<nat, Error> {
    match c_string(s) {
        Err(e) => Err(e),
        Ok((_, a)) => if s.len() < a + 4 {
            Err(Error::Truncated)
        } else {
            Ok(a + 4)
        },
    }
}

/// `c` bone name records from position `p` on: where the last ends.
pub open spec fn names_from(s: Seq<u8>, p: int, c: nat) -> Result<int, Error>
    decreases c,
{
    if c == 0 {
        Ok(p)
    } else if p < 0 || p > s.len() {
        Err(Error::Truncated)
    } else {
        match bone_name_len(s.skip(p)) {
            Err(e) => Err(e),
            Ok(n) => names_from(s, p + n, (c - 1) as nat),
        }
    }
}

/// Bone name `x` holds what the record at the start of `s` says.
pub open spec fn bone_name_read(s: Seq<u8>, x: BoneName) -> bool {
    &&& x.name@ == c_string(s)->Ok_0.0
    &&& x.id == be_u32(s.skip(c_string(s)->Ok_0.1 as int))
}

proof fn lemma_names_step(s: Seq<u8>, p: int, i: nat)
    requires
        names_from(s, p, i) is Ok,
        0 <= names_from(s, p, i)->Ok_0 <= s.len(),
        bone_name_len(s.skip(names_from(s, p, i)->Ok_0)) is Ok,
    ensures
        names_from(s, p, i + 1) == Ok::<int, Error>(
            names_from(s, p, i)->Ok_0 + bone_name_len(s.skip(names_from(s, p, i)->Ok_0))->Ok_0,
        ),
    decreases i,
{
    reveal_with_fuel(names_from, 2);
    if i > 0 {
        let m = bone_name_len(s.skip(p))->Ok_0;
        assert(names_from(s, p, i) == names_from(s, p + m, (i - 1) as nat));
        lemma_names_step(s, p + m, (i - 1) as nat);
        assert(names_from(s, p, i + 1) == names_from(s, p + m, i));
    }
}

/// Whether a skeleton can be read, and if not, why: every bone record must
/// fit, then the build-order list, then every name record must decode.
pub open spec fn cinf_result(s: Seq<u8>) -> Result<(), Error> {
    let e = bone_at(s, be_u32(s) as nat);
    let m = be_u32(s.skip(e));
    if s.len() < 4 || s.len() < e {
        Err(Error::Truncated)
    } else if s.len() < e + 4 || s.len() < e + 4 + 4 * m || s.len() < e + 8 + 4 * m {
        Err(Error::Truncated)
    } else {
        match names_from(s, e + 8 + 4 * m, be_u32(s.skip(e + 4 + 4 * m)) as nat) {
            Err(x) => Err(x),
            Ok(_) => Ok(()),
        }
    }
}

proof fn lemma_bones_grow(s: Seq<u8>, j: nat, k: nat)
    requires
        j <= k,
    ensures
        bone_at(s, j) <= bone_at(s, k),
    decreases k - j,
{
    if j < k {
        lemma_bones_grow(s, j, (k - 1) as nat);
    }
}

impl Bone {
    pub fn read_from(r: &mut Reader) -> (res: Result<Bone, Error>)
        requires
            old(r).wf(),
        ensures
            final(r).wf(),
            final(r).data == old(r).data,
            old(r)@.len() < 24 ==> res is Err && res->Err_0 == Error::Truncated,
            res is Ok ==> bone_read(old(r)@, res->Ok_0) && final(r)@ == old(r)@.skip(
                24 + 4 * be_u32(old(r)@.skip(20)),
            ),
            old(r)@.len() >= 24 && old(r)@.len() < 24 + 4 * be_u32(old(r)@.skip(20)) ==> res is Err,
            res is Ok <==> bone_fits(old(r)@),
            res is Err ==> res->Err_0 == Error::Truncated,
    {
        let ghost s = old(r)@;
        if r.remaining() < 24 {
            return Err(Error::Truncated);
        }
        let bone_id = r.read_u32()?;
        let parent_bone_id = r.read_u32()?;
        assert(s.skip(4).skip(4) =~= s.skip(8));
        let x = r.read_u32()?;
        assert(s.skip(8).skip(4) =~= s.skip(12));
        let y = r.read_u32()?;
        assert(s.skip(12).skip(4) =~= s.skip(16));
        let z = r.read_u32()?;
        assert(s.skip(16).skip(4) =~= s.skip(20));
        let linked_bones = r.read_u32_list()?;
        let ghost n = linked_bones@.len() as int;
        assert(s.skip(20).skip(4 + 4 * n) =~= s.skip(24 + 4 * n));
        Ok(Bone { bone_id, parent_bone_id, position: Vec3Bits { x, y, z }, linked_bones })
    }
}

impl BoneName {
    pub fn read_from(r: &mut Reader) -> (res: Result<BoneName, Error>)
        requires
            old(r).wf(),
        ensures
            final(r).wf(),
            final(r).data == old(r).data,
            match bone_name_len(old(r)@) {
                Ok(n) => res is Ok && n <= old(r)@.len() && final(r)@ == old(r)@.skip(n as int),
                Err(e) => res is Err && res->Err_0 == e,
            },
            res is Ok ==> bone_name_read(old(r)@, res->Ok_0),
            res is Ok ==> {
                let s = old(r)@;
                let k = res->Ok_0.name@.len() as int;
                &&& k < s.len() && s[k] == 0
                &&& s.len() >= k + 5
                &&& res->Ok_0.name@ == crate::reader::ascii_chars(s.take(k))
                &&& res->Ok_0.id == be_u32(s.skip(k + 1))
                &&& final(r)@ == s.skip(k + 5)
            },
    {
        let name = r.read_ascii_c_string()?;
        let id = r.read_u32()?;
        assert(old(r)@.skip(name@.len() as int + 1).skip(4) =~= old(r)@.skip(name@.len() as int + 5));
        Ok(BoneName { name, id })
    }
}

/// Skeleton `c` holds what the skeleton resource `s` says.
pub open spec fn cinf_read(s: Seq<u8>, c: Cinf) -> bool {
    let count = be_u32(s) as nat;
    &&& c.bones@.len() == count
    &&& forall|i: int| 0 <= i < count ==> bone_read(s.skip(bone_at(s, i as nat)), #[trigger] c.bones@[i])
    &&& c.build_order_ids@ == u32_list(s.skip(bone_at(s, count)))
    &&& c.bone_names@.len() == be_u32(s.skip(bone_at(s, count) + 4 + 4 * be_u32(s.skip(bone_at(s, count)))))
    &&& forall|i: int|
        0 <= i < c.bone_names@.len() ==> bone_name_read(
            s.skip(names_from(s, bone_at(s, count) + 8 + 4 * be_u32(s.skip(bone_at(s, count))), i as nat)->Ok_0),
            #[trigger] c.bone_names@[i],
        )
}

impl Cinf {
    /// Decodes a skeleton: bones, the build order, then the bones' names,
    /// each list preceded by its count.
    pub fn read_from(r: &mut Reader) -> (res: Result<Cinf, Error>)
        requires
            old(r).wf(),
        ensures
            final(r).wf(),
            final(r).data == old(r).data,
            old(r)@.len() < 4 ==> res is Err && res->Err_0 == Error::Truncated,
            res is Ok ==> cinf_read(old(r)@, res->Ok_0),
            match cinf_result(old(r)@) {
                Ok(_) => res is Ok,
                Err(e) => res is Err && res->Err_0 == e,
            },
    {
        let ghost s = old(r)@;
        let bone_count = r.read_u32()?;
        let mut bones: Vec<Bone> = Vec::new();
        let mut i: u32 = 0;
        while i < bone_count
            invariant
                r.wf(),
                r.data == old(r).data,
                s == old(r)@,
                old(r)@.len() >= 4,
                bone_count == be_u32(old(r)@),
                i <= bone_count,
                bones@.len() == i,
                0 <= bone_at(s, i as nat) <= s.len(),
                r@ == s.skip(bone_at(s, i as nat)),
                forall|j: int| 0 <= j < i ==> bone_read(s.skip(bone_at(s, j as nat)), #[trigger] bones@[j]),
            decreases bone_count - i,
        {
            let ghost at = bone_at(s, i as nat);
            proof {
                lemma_bones_grow(s, (i + 1) as nat, bone_count as nat);
            }
            let b = Bone::read_from(r)?;
            proof {
                let n = be_u32(s.skip(at).skip(20)) as int;
                assert(s.skip(at).skip(20) =~= s.skip(at + 20));
                assert(s.skip(at).skip(24 + 4 * n) =~= s.skip(bone_at(s, (i + 1) as nat)));
            }
            bones.push(b);
            i = i + 1;
        }
        let ghost e = bone_at(s, bone_count as nat);
        let build_order_ids = r.read_u32_list()?;
        let ghost m = build_order_ids@.len() as int;
        assert(s.skip(e).skip(4 + 4 * m) =~= s.skip(e + 4 + 4 * m));
        let name_count = r.read_u32()?;
        assert(s.skip(e + 4 + 4 * m).skip(4) =~= s.skip(e + 8 + 4 * m));
        let ghost mut pos: int = e + 8 + 4 * m;
        let mut bone_names: Vec<BoneName> = Vec::new();
        let mut i: u32 = 0;
        while i < name_count
            invariant
                r.wf(),
                r.data == old(r).data,
                s == old(r)@,
                old(r)@.len() >= 4,
                bones@.len() == be_u32(old(r)@),
                forall|j: int| 0 <= j < bones@.len() ==> bone_read(s.skip(bone_at(s, j as nat)), #[trigger] bones@[j]),
                build_order_ids@ == u32_list(s.skip(bone_at(s, be_u32(s) as nat))),
                name_count == be_u32(s.skip(bone_at(s, be_u32(s) as nat) + 4 + 4 * be_u32(s.skip(bone_at(s, be_u32(s) as nat))))),
                i <= name_count,
                bone_names@.len() == i,
                0 <= pos <= s.len(),
                r@ == s.skip(pos),
                names_from(s, e + 8 + 4 * m, i as nat) == Ok::<int, Error>(pos),
                forall|j: int| 0 <= j < i ==> bone_name_read(s.skip(names_from(s, e + 8 + 4 * m, j as nat)->Ok_0), #[trigger] bone_names@[j]),
                cinf_result(s) == (match names_from(s, pos, (name_count - i) as nat) {
                    Err(x) => Err(x),
                    Ok(_) => Ok::<(), Error>(()),
                }),
            decreases name_count - i,
        {
            let ghost before = pos;
            let nm = BoneName::read_from(r)?;
            proof {
                lemma_names_step(s, e + 8 + 4 * m, i as nat);
                let n = bone_name_len(s.skip(before))->Ok_0;
                assert(s.skip(before).skip(n as int) =~= s.skip(before + n));
                pos = before + n;
            }
            bone_names.push(nm);
            i = i + 1;
        }
        Ok(Cinf { bones, build_order_ids, bone_names })
    }
}

} // verus!
