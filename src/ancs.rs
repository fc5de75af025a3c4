//! Animated character resources: characters, their state databases, and
//! the animation set with its nested meta-animations.

use vstd::prelude::*;

use crate::error::{Error, Field};
use crate::reader::{be_u16, be_u32, c_string, fixed_string, Reader};

verus! {

/// How deeply meta-animations may nest before the input is taken as malformed.
pub const MAX_META_DEPTH: u32 = 64;

/// The tag that a state database begins with: "PAS4" in ASCII.
pub const PAS4_TAG: u32 = 0x50415334;

/// The type of an animation-state parameter; it decides how its values are stored.
#[derive(Clone, Copy, Debug, PartialEq, Eq, Structural)]
pub enum ParmKind {
    I32,
    U32,
    F32,
    Bool,
    Enum,
}

/// A parameter value; a float is kept as its bit pattern.
#[derive(Clone, Copy, Debug, PartialEq, Eq, Structural)]
pub enum ParmValue {
    I32(i32),
    U32(u32),
    F32(u32),
    Bool(bool),
    Enum(u32),
}

pub struct ParmInfo {
    pub kind: ParmKind,
    pub function: u32,
    pub weight: u32,
    pub min: ParmValue,
    pub max: ParmValue,
}

pub struct AnimInfo {
    pub id: u32,
    pub parm_values: Vec<ParmValue>,
}

pub struct AnimState {
    pub kind: u32,
    pub parm_infos: Vec<ParmInfo>,
    pub anim_infos: Vec<AnimInfo>,
}

pub struct PasDatabase {
    pub default_anim_state: u32,
    pub anim_states: Vec<AnimState>,
}

pub struct AnimationName {
    pub id: u32,
    pub name: String,
}

pub struct ParticleResourceData {
    pub generic_particle_ids: Vec<u32>,
    pub swoosh_particle_ids: Vec<u32>,
    pub electric_particle_ids: Vec<u32>,
}

pub struct AnimationAabb {
    pub name: String,
    /// Bit patterns of minimum x, y, z, then maximum x, y, z.
    pub bounds: Vec<u32>,
}

pub struct EffectComponent {
    pub name: String,
    pub particle_asset_type: String,
    pub particle_asset_id: u32,
    pub bone_name: String,
    pub scale: u32,
    pub parented: u32,
    pub flags: u32,
}

pub struct Effect {
    pub name: String,
    pub components: Vec<EffectComponent>,
}

/// A character: its model, skin and skeleton, and what animates it.
pub struct Character {
    pub id: u32,
    pub version: u16,
    pub name: String,
    pub model_id: u32,
    pub skin_id: u32,
    pub skeleton_id: u32,
    pub animations: Vec<AnimationName>,
    pub pas_database: PasDatabase,
    pub particle_resource_data: ParticleResourceData,
    pub animation_aabbs: Vec<AnimationAabb>,
    pub effects: Vec<Effect>,
    pub frozen_model_id: u32,
    pub frozen_skin_id: u32,
    pub animation_ids: Vec<u32>,
}

pub struct CharacterSet {
    pub version: u16,
    pub characters: Vec<Character>,
}

pub struct CharAnimTime {
    pub time: u32,
    pub differential_state: u32,
}

/// One weighted alternative of a random meta-animation.
pub struct RandomChoice {
    pub animation: MetaAnimation,
    pub probability: u32,
}

/// How an animation is played: a clip, a weighted random choice among
/// nested meta-animations, or a sequence of them.
pub enum MetaAnimation {
    Play { animation_id: u32, primitive_id: u32, primitive_name: String, char_anim_time: CharAnimTime },
    Random(Vec<RandomChoice>),
    Sequence(Vec<MetaAnimation>),
}

pub struct Animation {
    pub name: String,
    pub meta_animation: MetaAnimation,
}

pub enum MetaTransition {
    Animation(MetaAnimation),
    Transition { unknown1: u32, unknown2: u32, unknown3: bool, unknown4: bool, unknown5: u32 },
    PhaseTransition { unknown1: u32, unknown2: u32, unknown3: bool, unknown4: bool, unknown5: u32 },
    Snap,
}

pub struct Transition {
    pub unknown: u32,
    pub animation_id_a: u32,
    pub animation_id_b: u32,
    pub meta_transition: MetaTransition,
}

pub struct AdditiveAnimation {
    pub animation_id: u32,
    pub fade_in_time: u32,
    pub fade_out_time: u32,
}

pub struct HalfTransition {
    pub animation_id: u32,
    pub meta_transition: MetaTransition,
}

pub struct AnimationResource {
    pub animation_id: u32,
    pub event_id: u32,
}

pub struct AnimationSet {
    pub version: u16,
    pub animations: Vec<Animation>,
    pub transitions: Vec<Transition>,
    pub default_transition: MetaTransition,
    pub additive_animations: Vec<AdditiveAnimation>,
    pub default_additive_fade_in_time: Option<u32>,
    pub default_additive_fade_out_time: Option<u32>,
    pub half_transitions: Vec<HalfTransition>,
    pub animation_resources: Vec<AnimationResource>,
}

/// An animated character resource.
pub struct Ancs {
    pub character_set: CharacterSet,
    pub animation_set: AnimationSet,
}

pub open spec fn parm_kind_of(tag: u32) -> Option<ParmKind> {
    if tag == 0 {
        Some(ParmKind::I32)
    } else if tag == 1 {
        Some(ParmKind::U32)
    } else if tag == 2 {
        Some(ParmKind::F32)
    } else if tag == 3 {
        Some(ParmKind::Bool)
    } else if tag == 4 {
        Some(ParmKind::Enum)
    } else {
        None
    }
}

/// The bytes a value of kind `k` takes, and the value they hold.
pub open spec fn parm_value_of(k: ParmKind, s: Seq<u8>) -> (nat, ParmValue) {
    match k {
        ParmKind::I32 => (4, ParmValue::I32(be_u32(s) as i32)),
        ParmKind::U32 => (4, ParmValue::U32(be_u32(s))),
        ParmKind::F32 => (4, ParmValue::F32(be_u32(s))),
        ParmKind::Bool => (1, ParmValue::Bool(s[0] != 0)),
        ParmKind::Enum => (4, ParmValue::Enum(be_u32(s))),
    }
}

pub open spec fn value_kind(v: ParmValue) -> ParmKind {
    match v {
        ParmValue::I32(_) => ParmKind::I32,
        ParmValue::U32(_) => ParmKind::U32,
        ParmValue::F32(_) => ParmKind::F32,
        ParmValue::Bool(_) => ParmKind::Bool,
        ParmValue::Enum(_) => ParmKind::Enum,
    }
}

/// What a record at the start of `s` takes when it is `n` bytes of fixed layout.
pub open spec fn fixed_len(s: Seq<u8>, n: int) -> Result<nat, Error> {
    if s.len() < n {
        Err(Error::Truncated)
    } else {
        Ok(n as nat)
    }
}

/// How a read of a record ends: the bytes the record takes as `spec` says,
/// or the error it gives.
pub open spec fn outcome<T>(res: Result<T, Error>, spec: Result<nat, Error>, before: Seq<u8>, after: Seq<u8>) -> bool {
    match spec {
        Ok(n) => res is Ok && n <= before.len() && after == before.skip(n as int),
        Err(e) => res is Err && res->Err_0 == e,
    }
}

/// `c` records from position `p` of `s` on, each read as `item` says: where
/// the last one ends, or the first error.
pub open spec fn items_from(s: Seq<u8>, p: int, c: nat, item: spec_fn(Seq<u8>) -> Result<nat, Error>) -> Result<int, Error>
    decreases c,
{
    if c == 0 {
        Ok(p)
    } else if p < 0 || p > s.len() {
        Err(Error::Truncated)
    } else {
        match item(s.skip(p)) {
            Err(e) => Err(e),
            Ok(n) => items_from(s, p + n, (c - 1) as nat, item),
        }
    }
}

/// A count word and then that many records, each read as `item` says.
#[verifier::opaque]
pub open spec fn counted(s: Seq<u8>, item: spec_fn(Seq<u8>) -> Result<nat, Error>) -> Result<nat, Error> {
    if s.len() < 4 {
        Err(Error::Truncated)
    } else {
        match items_from(s, 4, be_u32(s) as nat, item) {
            Err(e) => Err(e),
            Ok(e) => Ok(e as nat),
        }
    }
}

/// A zero-terminated string's length in bytes, terminator included.
pub open spec fn c_len(s: Seq<u8>) -> Result<nat, Error> {
    match c_string(s) {
        Err(e) => Err(e),
        Ok((_, n)) => Ok(n),
    }
}

/// `first` and then, from where it ends, `rest`.
pub open spec fn then(s: Seq<u8>, first: Result<nat, Error>, rest: spec_fn(Seq<u8>) -> Result<nat, Error>) -> Result<nat, Error> {
    match first {
        Err(e) => Err(e),
        Ok(n) => if n > s.len() {
            Err(Error::Truncated)
        } else {
            match rest(s.skip(n as int)) {
                Err(e) => Err(e),
                Ok(m) => Ok(n + m),
            }
        },
    }
}

pub open spec fn value_len(k: ParmKind) -> int {
    if k == ParmKind::Bool {
        1
    } else {
        4
    }
}

pub open spec fn parm_info_len(s: Seq<u8>) -> Result<nat, Error> {
    if s.len() < 4 {
        Err(Error::Truncated)
    } else {
        match parm_kind_of(be_u32(s)) {
            None => Err(Error::UnexpectedFormat { context: Field::ParmKind, value: be_u32(s) }),
            Some(k) => fixed_len(s, 12 + 2 * value_len(k)),
        }
    }
}

/// The value bytes of each animation record for `c` parameter records from `p` on.
pub open spec fn parm_total(s: Seq<u8>, p: int, c: nat) -> int
    decreases c,
{
    if c == 0 {
        0
    } else {
        let k = parm_kind_of(be_u32(s.skip(p)))->Some_0;
        value_len(k) + parm_total(s, p + 12 + 2 * value_len(k), (c - 1) as nat)
    }
}

pub open spec fn kinds_total(ps: Seq<ParmInfo>) -> int
    decreases ps.len(),
{
    if ps.len() == 0 {
        0
    } else {
        kinds_total(ps.drop_last()) + value_len(ps.last().kind)
    }
}

pub open spec fn parm_info_item() -> spec_fn(Seq<u8>) -> Result<nat, Error> {
    |u: Seq<u8>| parm_info_len(u)
}

/// An animation record: an id and `t` bytes of parameter values.
pub open spec fn anim_info_item(t: int) -> spec_fn(Seq<u8>) -> Result<nat, Error> {
    |u: Seq<u8>| fixed_len(u, 4 + t)
}

pub open spec fn anim_state_item() -> spec_fn(Seq<u8>) -> Result<nat, Error> {
    |u: Seq<u8>| anim_state_len(u)
}

pub open spec fn anim_state_len(s: Seq<u8>) -> Result<nat, Error> {
    let pc = be_u32(s.skip(4)) as nat;
    let ac = be_u32(s.skip(8)) as nat;
    let t = parm_total(s, 12, pc);
    if s.len() < 12 {
        Err(Error::Truncated)
    } else {
        match items_from(s, 12, pc, parm_info_item()) {
            Err(e) => Err(e),
            Ok(e1) => match items_from(s, e1, ac, anim_info_item(t)) {
                Err(e) => Err(e),
                Ok(e2) => Ok(e2 as nat),
            },
        }
    }
}

#[verifier::opaque]
pub open spec fn pas_len(s: Seq<u8>) -> Result<nat, Error> {
    if s.len() < 4 {
        Err(Error::Truncated)
    } else if be_u32(s) != PAS4_TAG {
        Err(Error::UnexpectedFormat { context: Field::StateDatabaseTag, value: be_u32(s) })
    } else if s.len() < 12 {
        Err(Error::Truncated)
    } else {
        match items_from(s, 12, be_u32(s.skip(4)) as nat, anim_state_item()) {
            Err(e) => Err(e),
            Ok(e) => Ok(e as nat),
        }
    }
}

proof fn lemma_skip2(s: Seq<u8>, a: int, b: int)
    requires
        0 <= a <= s.len(),
        0 <= b <= s.len() - a,
    ensures
        s.skip(a).skip(b) == s.skip(a + b),
{
    assert(s.skip(a).skip(b) =~= s.skip(a + b));
}

/// Where record `i` of a list of records from position `p` on starts.
pub open spec fn item_at(s: Seq<u8>, p: int, i: nat, item: spec_fn(Seq<u8>) -> Result<nat, Error>) -> int {
    items_from(s, p, i, item)->Ok_0
}

proof fn lemma_items_step(s: Seq<u8>, p: int, i: nat, item: spec_fn(Seq<u8>) -> Result<nat, Error>)
    requires
        items_from(s, p, i, item) is Ok,
        0 <= items_from(s, p, i, item)->Ok_0 <= s.len(),
        item(s.skip(items_from(s, p, i, item)->Ok_0)) is Ok,
    ensures
        items_from(s, p, i + 1, item) == Ok::<int, Error>(
            items_from(s, p, i, item)->Ok_0 + item(s.skip(items_from(s, p, i, item)->Ok_0))->Ok_0,
        ),
    decreases i,
{
    reveal_with_fuel(items_from, 2);
    if i > 0 {
        let m = item(s.skip(p))->Ok_0;
        assert(items_from(s, p, i, item) == items_from(s, p + m, (i - 1) as nat, item));
        lemma_items_step(s, p + m, (i - 1) as nat, item);
        assert(items_from(s, p, i + 1, item) == items_from(s, p + m, i, item));
    }
}

/// Parameter record `p` holds what the record at the start of `s` says.
pub open spec fn parm_info_read(s: Seq<u8>, p: ParmInfo) -> bool {
    &&& parm_kind_of(be_u32(s)) == Some(p.kind)
    &&& p.function == be_u32(s.skip(4))
    &&& p.weight == be_u32(s.skip(8))
    &&& p.min == parm_value_of(p.kind, s.skip(12)).1
    &&& p.max == parm_value_of(p.kind, s.skip(12 + value_len(p.kind))).1
}

/// Animation record `a` holds an id and one value for each of `infos`.
pub open spec fn anim_info_read(s: Seq<u8>, infos: Seq<ParmInfo>, a: AnimInfo) -> bool {
    &&& a.id == be_u32(s)
    &&& a.parm_values@.len() == infos.len()
    &&& forall|i: int|
        0 <= i < infos.len() ==> #[trigger] a.parm_values@[i] == parm_value_of(infos[i].kind, s.skip(4 + kinds_total(infos.take(i)))).1
}

/// Animation state `st` holds what the record at the start of `s` says.
pub open spec fn anim_state_read(s: Seq<u8>, st: AnimState) -> bool {
    let pc = be_u32(s.skip(4)) as nat;
    let ac = be_u32(s.skip(8)) as nat;
    let t = parm_total(s, 12, pc);
    let e1 = items_from(s, 12, pc, parm_info_item())->Ok_0;
    &&& st.kind == be_u32(s)
    &&& st.parm_infos@.len() == pc
    &&& st.anim_infos@.len() == ac
    &&& forall|i: int|
        0 <= i < pc ==> parm_info_read(s.skip(item_at(s, 12, i as nat, parm_info_item())), #[trigger] st.parm_infos@[i])
    &&& forall|i: int|
        0 <= i < ac ==> anim_info_read(s.skip(item_at(s, e1, i as nat, anim_info_item(t))), st.parm_infos@, #[trigger] st.anim_infos@[i])
}

/// State database `db` holds what the record at the start of `s` says.
pub open spec fn pas_read(s: Seq<u8>, db: PasDatabase) -> bool {
    &&& be_u32(s) == PAS4_TAG
    &&& db.default_anim_state == be_u32(s.skip(8))
    &&& db.anim_states@.len() == be_u32(s.skip(4))
    &&& forall|i: int|
        0 <= i < db.anim_states@.len() ==> anim_state_read(s.skip(item_at(s, 12, i as nat, anim_state_item())), #[trigger] db.anim_states@[i])
}

proof fn lemma_kinds_prefix(ps: Seq<ParmInfo>, i: int)
    requires
        0 <= i <= ps.len(),
    ensures
        kinds_total(ps.take(i)) <= kinds_total(ps),
        kinds_total(ps.take(i)) >= 0,
    decreases ps.len() - i,
{
    if i < ps.len() {
        lemma_kinds_prefix(ps, i + 1);
        assert(ps.take(i + 1).drop_last() =~= ps.take(i));
    } else {
        assert(ps.take(i) =~= ps);
    }
    lemma_kinds_nonneg(ps.take(i));
}

proof fn lemma_kinds_nonneg(ps: Seq<ParmInfo>)
    ensures
        kinds_total(ps) >= 0,
    decreases ps.len(),
{
    if ps.len() > 0 {
        lemma_kinds_nonneg(ps.drop_last());
    }
}

impl ParmKind {
    pub fn read_from(r: &mut Reader) -> (res: Result<ParmKind, Error>)
        requires
            old(r).wf(),
        ensures
            final(r).wf(),
            final(r).data == old(r).data,
            old(r)@.len() < 4 ==> res is Err && res->Err_0 == Error::Truncated,
            old(r)@.len() >= 4 ==> match parm_kind_of(be_u32(old(r)@)) {
                Some(k) => res == Ok::<ParmKind, Error>(k) && final(r)@ == old(r)@.skip(4),
                None => res == Err::<ParmKind, Error>(
                    Error::UnexpectedFormat { context: Field::ParmKind, value: be_u32(old(r)@) },
                ),
            },
    {
        let tag = r.read_u32()?;
        if tag == 0 {
            Ok(ParmKind::I32)
        } else if tag == 1 {
            Ok(ParmKind::U32)
        } else if tag == 2 {
            Ok(ParmKind::F32)
        } else if tag == 3 {
            Ok(ParmKind::Bool)
        } else if tag == 4 {
            Ok(ParmKind::Enum)
        } else {
            Err(Error::UnexpectedFormat { context: Field::ParmKind, value: tag })
        }
    }
}

impl ParmValue {
    /// Reads a value stored as kind `kind` says.
    pub fn read_with_kind(r: &mut Reader, kind: ParmKind) -> (res: Result<ParmValue, Error>)
        requires
            old(r).wf(),
        ensures
            final(r).wf(),
            final(r).data == old(r).data,
            ({
                let (n, v) = parm_value_of(kind, old(r)@);
                if old(r)@.len() < n {
                    res == Err::<ParmValue, Error>(Error::Truncated)
                } else {
                    res == Ok::<ParmValue, Error>(v) && final(r)@ == old(r)@.skip(n as int)
                }
            }),
    {
        match kind {
            ParmKind::I32 => Ok(ParmValue::I32(r.read_i32()?)),
            ParmKind::U32 => Ok(ParmValue::U32(r.read_u32()?)),
            ParmKind::F32 => Ok(ParmValue::F32(r.read_u32()?)),
            ParmKind::Bool => Ok(ParmValue::Bool(r.read_u8()? != 0)),
            ParmKind::Enum => Ok(ParmValue::Enum(r.read_u32()?)),
        }
    }
}

impl ParmInfo {
    pub fn read_from(r: &mut Reader) -> (res: Result<ParmInfo, Error>)
        requires
            old(r).wf(),
        ensures
            final(r).wf(),
            final(r).data == old(r).data,
            res is Ok ==> parm_info_read(old(r)@, res->Ok_0),
            res is Ok ==> value_kind(res->Ok_0.min) == res->Ok_0.kind && value_kind(res->Ok_0.max) == res->Ok_0.kind,
            outcome(res, parm_info_len(old(r)@), old(r)@, final(r)@),
    {
        let ghost s = old(r)@;
        let kind = ParmKind::read_from(r)?;
        let function = r.read_u32()?;
        assert(s.skip(4).skip(4) =~= s.skip(8));
        let weight = r.read_u32()?;
        assert(s.skip(8).skip(4) =~= s.skip(12));
        let ghost v = value_len(kind);
        let min = ParmValue::read_with_kind(r, kind)?;
        assert(s.skip(12).skip(v) =~= s.skip(12 + v));
        let max = ParmValue::read_with_kind(r, kind)?;
        assert(s.skip(12 + v).skip(v) =~= s.skip(12 + 2 * v));
        Ok(ParmInfo { kind, function, weight, min, max })
    }
}

impl AnimInfo {
    /// Reads an id and then one value for each parameter, of that parameter's kind.
    pub fn read_with_parms(r: &mut Reader, parm_infos: &Vec<ParmInfo>) -> (res: Result<AnimInfo, Error>)
        requires
            old(r).wf(),
        ensures
            final(r).wf(),
            final(r).data == old(r).data,
            res is Ok ==> {
                let a = res->Ok_0;
                &&& a.id == be_u32(old(r)@)
                &&& a.parm_values@.len() == parm_infos@.len()
                &&& forall|i: int| 0 <= i < parm_infos@.len() ==> value_kind(#[trigger] a.parm_values@[i]) == parm_infos@[i].kind
            },
            res is Ok ==> anim_info_read(old(r)@, parm_infos@, res->Ok_0),
            outcome(res, fixed_len(old(r)@, 4 + kinds_total(parm_infos@)), old(r)@, final(r)@),
    {
        let ghost s = old(r)@;
        proof {
            lemma_kinds_prefix(parm_infos@, 0);
        }
        let id = r.read_u32()?;
        let mut parm_values: Vec<ParmValue> = Vec::new();
        let mut i: usize = 0;
        while i < parm_infos.len()
            invariant
                r.wf(),
                r.data == old(r).data,
                i <= parm_infos@.len(),
                parm_values@.len() == i,
                forall|j: int| 0 <= j < i ==> value_kind(#[trigger] parm_values@[j]) == parm_infos@[j].kind,
                s == old(r)@,
                s.len() >= 4,
                0 <= kinds_total(parm_infos@.take(i as int)) <= kinds_total(parm_infos@),
                4 + kinds_total(parm_infos@.take(i as int)) <= s.len(),
                r@ == s.skip(4 + kinds_total(parm_infos@.take(i as int))),
                id == be_u32(s),
                forall|j: int|
                    0 <= j < i ==> #[trigger] parm_values@[j] == parm_value_of(
                        parm_infos@[j].kind,
                        s.skip(4 + kinds_total(parm_infos@.take(j))),
                    ).1,
            decreases parm_infos@.len() - i,
        {
            let ghost at = 4 + kinds_total(parm_infos@.take(i as int));
            proof {
                assert(parm_infos@.take(i + 1).drop_last() =~= parm_infos@.take(i as int));
                lemma_kinds_prefix(parm_infos@, i + 1);
            }
            let v = ParmValue::read_with_kind(r, parm_infos[i].kind)?;
            proof {
                lemma_skip2(s, at, value_len(parm_infos@[i as int].kind));
            }
            parm_values.push(v);
            i = i + 1;
        }
        assert(parm_infos@.take(parm_infos@.len() as int) =~= parm_infos@);
        Ok(AnimInfo { id, parm_values })
    }
}

impl AnimState {
    pub fn read_from(r: &mut Reader) -> (res: Result<AnimState, Error>)
        requires
            old(r).wf(),
        ensures
            final(r).wf(),
            final(r).data == old(r).data,
            res is Ok ==> {
                let a = res->Ok_0;
                &&& a.kind == be_u32(old(r)@)
                &&& a.parm_infos@.len() == be_u32(old(r)@.skip(4))
                &&& a.anim_infos@.len() == be_u32(old(r)@.skip(8))
                &&& forall|i: int| 0 <= i < a.anim_infos@.len() ==> (#[trigger] a.anim_infos@[i]).parm_values@.len() == a.parm_infos@.len()
            },
            outcome(res, anim_state_len(old(r)@), old(r)@, final(r)@),
            res is Ok ==> anim_state_read(old(r)@, res->Ok_0),
    {
        let ghost s = old(r)@;
        let kind = r.read_u32()?;
        let parm_info_count = r.read_u32()?;
        assert(s.skip(4).skip(4) =~= s.skip(8));
        let anim_info_count = r.read_u32()?;
        assert(s.skip(8).skip(4) =~= s.skip(12));
        let ghost mut pos: int = 12;
        let mut parm_infos: Vec<ParmInfo> = Vec::new();
        let mut i: u32 = 0;
        while i < parm_info_count
            invariant
                r.wf(),
                r.data == old(r).data,
                s == old(r)@,
                s.len() >= 12,
                parm_info_count == be_u32(s.skip(4)),
                anim_info_count == be_u32(s.skip(8)),
                kind == be_u32(s),
                i <= parm_info_count,
                parm_infos@.len() == i,
                0 <= pos <= s.len(),
                r@ == s.skip(pos),
                items_from(s, 12, parm_info_count as nat, parm_info_item()) == items_from(
                    s,
                    pos,
                    (parm_info_count - i) as nat,
                    parm_info_item(),
                ),
                kinds_total(parm_infos@) + parm_total(s, pos, (parm_info_count - i) as nat) == parm_total(
                    s,
                    12,
                    parm_info_count as nat,
                ),
                items_from(s, 12, i as nat, parm_info_item()) == Ok::<int, Error>(pos),
                forall|j: int|
                    0 <= j < i ==> parm_info_read(s.skip(item_at(s, 12, j as nat, parm_info_item())), #[trigger] parm_infos@[j]),
            decreases parm_info_count - i,
        {
            let ghost before = pos;
            let p = ParmInfo::read_from(r)?;
            proof {
                lemma_items_step(s, 12, i as nat, parm_info_item());
                let n = parm_info_len(s.skip(before))->Ok_0;
                lemma_skip2(s, before, n as int);
                pos = before + n as int;
                assert(parm_infos@.push(p).drop_last() =~= parm_infos@);
            }
            parm_infos.push(p);
            i = i + 1;
        }
        let ghost e1 = pos;
        let ghost t = parm_total(s, 12, parm_info_count as nat);
        proof {
            lemma_kinds_nonneg(parm_infos@);
        }
        let mut anim_infos: Vec<AnimInfo> = Vec::new();
        let mut i: u32 = 0;
        while i < anim_info_count
            invariant
                r.wf(),
                r.data == old(r).data,
                s == old(r)@,
                s.len() >= 12,
                parm_info_count == be_u32(s.skip(4)),
                anim_info_count == be_u32(s.skip(8)),
                kind == be_u32(s),
                parm_infos@.len() == parm_info_count,
                t == parm_total(s, 12, parm_info_count as nat),
                kinds_total(parm_infos@) == t,
                t >= 0,
                items_from(s, 12, parm_info_count as nat, parm_info_item()) == Ok::<int, Error>(e1),
                i <= anim_info_count,
                anim_infos@.len() == i,
                forall|j: int| 0 <= j < i ==> (#[trigger] anim_infos@[j]).parm_values@.len() == parm_infos@.len(),
                0 <= pos <= s.len(),
                r@ == s.skip(pos),
                items_from(s, e1, anim_info_count as nat, anim_info_item(t)) == items_from(
                    s,
                    pos,
                    (anim_info_count - i) as nat,
                    anim_info_item(t),
                ),
                items_from(s, e1, i as nat, anim_info_item(t)) == Ok::<int, Error>(pos),
                forall|j: int|
                    0 <= j < parm_info_count ==> parm_info_read(s.skip(item_at(s, 12, j as nat, parm_info_item())), #[trigger] parm_infos@[j]),
                forall|j: int|
                    0 <= j < i ==> anim_info_read(s.skip(item_at(s, e1, j as nat, anim_info_item(t))), parm_infos@, #[trigger] anim_infos@[j]),
            decreases anim_info_count - i,
        {
            let ghost before = pos;
            let a = AnimInfo::read_with_parms(r, &parm_infos)?;
            proof {
                lemma_items_step(s, e1, i as nat, anim_info_item(t));
                assert(s.skip(before).len() == s.len() - before);
                if s.skip(before).len() < 4 + t {
                    assert(fixed_len(s.skip(before), 4 + kinds_total(parm_infos@)) is Err);
                }
                lemma_skip2(s, before, 4 + t);
                pos = before + 4 + t;
            }
            anim_infos.push(a);
            i = i + 1;
        }
        Ok(AnimState { kind, parm_infos, anim_infos })
    }
}

impl PasDatabase {
    pub fn read_from(r: &mut Reader) -> (res: Result<PasDatabase, Error>)
        requires
            old(r).wf(),
        ensures
            final(r).wf(),
            final(r).data == old(r).data,
            old(r)@.len() >= 4 && be_u32(old(r)@) != PAS4_TAG ==> (res is Err && res->Err_0 == (Error::UnexpectedFormat {
                context: Field::StateDatabaseTag,
                value: be_u32(old(r)@),
            })),
            res is Ok ==> {
                &&& be_u32(old(r)@) == PAS4_TAG
                &&& res->Ok_0.anim_states@.len() == be_u32(old(r)@.skip(4))
                &&& res->Ok_0.default_anim_state == be_u32(old(r)@.skip(8))
            },
            outcome(res, pas_len(old(r)@), old(r)@, final(r)@),
            res is Ok ==> pas_read(old(r)@, res->Ok_0),
    {
        proof {
            reveal(pas_len);
        }
        let ghost s = old(r)@;
        let tag = r.read_u32()?;
        if tag != PAS4_TAG {
            return Err(Error::UnexpectedFormat { context: Field::StateDatabaseTag, value: tag });
        }
        let count = r.read_u32()?;
        assert(s.skip(4).skip(4) =~= s.skip(8));
        let default_anim_state = r.read_u32()?;
        assert(s.skip(8).skip(4) =~= s.skip(12));
        let ghost mut pos: int = 12;
        let mut anim_states: Vec<AnimState> = Vec::new();
        let mut i: u32 = 0;
        while i < count
            invariant
                r.wf(),
                r.data == old(r).data,
                old(r)@.len() >= 12,
                be_u32(old(r)@) == PAS4_TAG,
                count == be_u32(old(r)@.skip(4)),
                default_anim_state == be_u32(old(r)@.skip(8)),
                i <= count,
                anim_states@.len() == i,
                s == old(r)@,
                0 <= pos <= s.len(),
                r@ == s.skip(pos),
                items_from(s, 12, count as nat, anim_state_item()) == items_from(s, pos, (count - i) as nat, anim_state_item()),
                items_from(s, 12, i as nat, anim_state_item()) == Ok::<int, Error>(pos),
                forall|j: int|
                    0 <= j < i ==> anim_state_read(s.skip(item_at(s, 12, j as nat, anim_state_item())), #[trigger] anim_states@[j]),
            decreases count - i,
        {
            proof {
                reveal(pas_len);
            }
            let ghost before = pos;
            let a = AnimState::read_from(r)?;
            proof {
                lemma_items_step(s, 12, i as nat, anim_state_item());
                let n = anim_state_len(s.skip(before))->Ok_0;
                lemma_skip2(s, before, n as int);
                pos = before + n as int;
            }
            anim_states.push(a);
            i = i + 1;
        }
        Ok(PasDatabase { default_anim_state, anim_states })
    }
}

/// An animation name record: an id, before version 10 an unused string, and the name.
pub open spec fn anim_name_len(s: Seq<u8>, v: u16) -> Result<nat, Error> {
    if s.len() < 4 {
        Err(Error::Truncated)
    } else if v < 10 {
        match c_len(s.skip(4)) {
            Err(e) => Err(e),
            Ok(a) => match c_len(s.skip(4 + a as int)) {
                Err(e) => Err(e),
                Ok(b) => Ok(4 + a + b),
            },
        }
    } else {
        match c_len(s.skip(4)) {
            Err(e) => Err(e),
            Ok(a) => Ok(4 + a),
        }
    }
}

pub open spec fn anim_name_item(v: u16) -> spec_fn(Seq<u8>) -> Result<nat, Error> {
    |u: Seq<u8>| anim_name_len(u, v)
}

/// A count-prefixed list of words.
pub open spec fn list_len(s: Seq<u8>) -> Result<nat, Error> {
    if s.len() < 4 || s.len() < 4 + 4 * be_u32(s) {
        Err(Error::Truncated)
    } else {
        Ok((4 + 4 * be_u32(s)) as nat)
    }
}

/// The particle id lists; from version 6 a word stands before the last one.
#[verifier::opaque]
pub open spec fn particle_len(s: Seq<u8>, v: u16) -> Result<nat, Error> {
    match list_len(s) {
        Err(e) => Err(e),
        Ok(a) => match list_len(s.skip(a as int)) {
            Err(e) => Err(e),
            Ok(b) => {
                let c = a + b + (if v >= 6 { 4nat } else { 0 });
                if s.len() < c {
                    Err(Error::Truncated)
                } else {
                    match list_len(s.skip(c as int)) {
                        Err(e) => Err(e),
                        Ok(d) => Ok(c + d),
                    }
                }
            },
        }
    }
}

pub open spec fn aabb_len(s: Seq<u8>) -> Result<nat, Error> {
    match c_len(s) {
        Err(e) => Err(e),
        Ok(a) => if s.len() < a + 24 {
            Err(Error::Truncated)
        } else {
            Ok(a + 24)
        },
    }
}

pub open spec fn aabb_item() -> spec_fn(Seq<u8>) -> Result<nat, Error> {
    |u: Seq<u8>| aabb_len(u)
}

pub open spec fn component_len(s: Seq<u8>) -> Result<nat, Error> {
    match c_len(s) {
        Err(e) => Err(e),
        Ok(a) => match fixed_string(s.skip(a as int), 4) {
            Err(e) => Err(e),
            Ok(_) => if s.len() < a + 8 {
                Err(Error::Truncated)
            } else {
                match c_len(s.skip(a as int + 8)) {
                    Err(e) => Err(e),
                    Ok(b) => if s.len() < a + 8 + b + 12 {
                        Err(Error::Truncated)
                    } else {
                        Ok(a + 8 + b + 12)
                    },
                }
            },
        },
    }
}

pub open spec fn component_item() -> spec_fn(Seq<u8>) -> Result<nat, Error> {
    |u: Seq<u8>| component_len(u)
}

pub open spec fn effect_len(s: Seq<u8>) -> Result<nat, Error> {
    match c_len(s) {
        Err(e) => Err(e),
        Ok(a) => if s.len() < a + 4 {
            Err(Error::Truncated)
        } else {
            match items_from(s, a as int + 4, be_u32(s.skip(a as int)) as nat, component_item()) {
                Err(e) => Err(e),
                Ok(e) => Ok(e as nat),
            }
        },
    }
}

pub open spec fn effect_item() -> spec_fn(Seq<u8>) -> Result<nat, Error> {
    |u: Seq<u8>| effect_len(u)
}

/// A character record up to its version-dependent tail: id, version, name,
/// model, skin and skeleton ids, animation names, state database, particle
/// lists and a word; where that part ends, or why it cannot be read.
pub open spec fn char_head(s: Seq<u8>) -> Result<int, Error> {
    let v = be_u16(s.skip(4));
    if s.len() < 6 {
        Err(Error::Truncated)
    } else if v > 6 {
        Err(Error::UnexpectedFormat { context: Field::CharacterVersion, value: v as u32 })
    } else {
        match c_len(s.skip(6)) {
            Err(e) => Err(e),
            Ok(a) => if s.len() < 18 + a {
                Err(Error::Truncated)
            } else {
                let p: int = 18 + a as int;
                match counted(s.skip(p), anim_name_item(v)) {
                    Err(e) => Err(e),
                    Ok(b) => match pas_len(s.skip(p + b as int)) {
                        Err(e) => Err(e),
                        Ok(c) => match particle_len(s.skip(p + b as int + c as int), v) {
                            Err(e) => Err(e),
                            Ok(d) => if s.len() < p + b + c + d + 4 {
                                Err(Error::Truncated)
                            } else {
                                Ok(p + b + c + d + 4)
                            },
                        },
                    },
                }
            },
        }
    }
}

/// The version-dependent tail of a character record at the start of `t`:
/// where the frozen ids and the animation ids stand and where it ends.
pub open spec fn char_tail(t: Seq<u8>, v: u16) -> Result<(int, int, nat), Error> {
    let effects: Result<int, Error> = if v >= 2 {
        match counted(t, aabb_item()) {
            Err(e) => Err(e),
            Ok(e1) => match counted(t.skip(e1 as int), effect_item()) {
                Err(e) => Err(e),
                Ok(f) => Ok(e1 as int + f as int),
            },
        }
    } else {
        Ok(0)
    };
    match effects {
        Err(e) => Err(e),
        Ok(q5) => if v >= 4 && t.len() < q5 + 8 {
            Err(Error::Truncated)
        } else {
            let q6: int = if v >= 4 { q5 + 8 } else { q5 };
            if v >= 5 {
                match list_len(t.skip(q6)) {
                    Err(e) => Err(e),
                    Ok(g) => Ok((q5, q6, (q6 + g) as nat)),
                }
            } else {
                Ok((q5, q6, q6 as nat))
            }
        },
    }
}

/// Where a character's fields stand, from the version-dependent tail on:
/// the frozen ids (from version 4), the animation ids (from version 5), and
/// the record's end; or why the record cannot be read.
pub open spec fn character_layout(s: Seq<u8>) -> Result<(int, int, nat), Error> {
    match char_head(s) {
        Err(e) => Err(e),
        Ok(q4) => match char_tail(s.skip(q4), be_u16(s.skip(4))) {
            Err(e) => Err(e),
            Ok((q5, q6, n)) => Ok((q4 + q5, q4 + q6, (q4 + n) as nat)),
        },
    }
}

pub open spec fn character_len(s: Seq<u8>) -> Result<nat, Error> {
    match character_layout(s) {
        Err(e) => Err(e),
        Ok((_, _, n)) => Ok(n),
    }
}

pub open spec fn character_item() -> spec_fn(Seq<u8>) -> Result<nat, Error> {
    |u: Seq<u8>| character_len(u)
}

/// Animation name `x` holds what the record at the start of `s` says.
pub open spec fn anim_name_read(s: Seq<u8>, v: u16, x: AnimationName) -> bool {
    let at: int = if v < 10 { 4 + c_len(s.skip(4))->Ok_0 as int } else { 4 };
    &&& x.id == be_u32(s)
    &&& x.name@ == c_string(s.skip(at))->Ok_0.0
}

/// The count-prefixed animation names at the start of `t`.
pub open spec fn names_read(t: Seq<u8>, v: u16, xs: Seq<AnimationName>) -> bool {
    &&& xs.len() == be_u32(t)
    &&& forall|i: int| 0 <= i < xs.len() ==> anim_name_read(t.skip(item_at(t, 4, i as nat, anim_name_item(v))), v, #[trigger] xs[i])
}

/// Particle lists `pr` hold what the record at the start of `s` says.
pub open spec fn particle_read(s: Seq<u8>, v: u16, pr: ParticleResourceData) -> bool {
    let a = list_len(s)->Ok_0 as int;
    let b = list_len(s.skip(a))->Ok_0 as int;
    let c = a + b + (if v >= 6 { 4int } else { 0 });
    &&& pr.generic_particle_ids@ == crate::reader::u32_list(s)
    &&& pr.swoosh_particle_ids@ == crate::reader::u32_list(s.skip(a))
    &&& pr.electric_particle_ids@ == crate::reader::u32_list(s.skip(c))
}

pub open spec fn aabb_read(s: Seq<u8>, x: AnimationAabb) -> bool {
    let a = c_len(s)->Ok_0 as int;
    &&& x.name@ == c_string(s)->Ok_0.0
    &&& x.bounds@.len() == 6
    &&& forall|i: int| 0 <= i < 6 ==> #[trigger] x.bounds@[i] == be_u32(s.skip(a + 4 * i))
}

pub open spec fn component_read(s: Seq<u8>, c: EffectComponent) -> bool {
    let a = c_len(s)->Ok_0 as int;
    let b = c_len(s.skip(a + 8))->Ok_0 as int;
    &&& c.name@ == c_string(s)->Ok_0.0
    &&& fixed_string(s.skip(a), 4) == Ok::<Seq<char>, Error>(c.particle_asset_type@)
    &&& c.particle_asset_id == be_u32(s.skip(a + 4))
    &&& c.bone_name@ == c_string(s.skip(a + 8))->Ok_0.0
    &&& c.scale == be_u32(s.skip(a + 8 + b))
    &&& c.parented == be_u32(s.skip(a + 12 + b))
    &&& c.flags == be_u32(s.skip(a + 16 + b))
}

pub open spec fn effect_read(s: Seq<u8>, e: Effect) -> bool {
    let a = c_len(s)->Ok_0 as int;
    &&& e.name@ == c_string(s)->Ok_0.0
    &&& e.components@.len() == be_u32(s.skip(a))
    &&& forall|i: int|
        0 <= i < e.components@.len() ==> component_read(s.skip(item_at(s, a + 4, i as nat, component_item())), #[trigger] e.components@[i])
}

pub open spec fn aabbs_read(t: Seq<u8>, xs: Seq<AnimationAabb>) -> bool {
    &&& xs.len() == be_u32(t)
    &&& forall|i: int| 0 <= i < xs.len() ==> aabb_read(t.skip(item_at(t, 4, i as nat, aabb_item())), #[trigger] xs[i])
}

pub open spec fn effects_read(t: Seq<u8>, xs: Seq<Effect>) -> bool {
    &&& xs.len() == be_u32(t)
    &&& forall|i: int| 0 <= i < xs.len() ==> effect_read(t.skip(item_at(t, 4, i as nat, effect_item())), #[trigger] xs[i])
}

/// Character `c` holds what the record at the start of `s` says, every field
/// at its place on the wire.
pub open spec fn character_read(s: Seq<u8>, c: Character) -> bool {
    let (q5, q6, _) = character_layout(s)->Ok_0;
    let a = c.name@.len() as int;
    let v = c.version;
    let p = 18 + c_len(s.skip(6))->Ok_0 as int;
    let b = counted(s.skip(p), anim_name_item(v))->Ok_0 as int;
    let c2 = pas_len(s.skip(p + b))->Ok_0 as int;
    let d = particle_len(s.skip(p + b + c2), v)->Ok_0 as int;
    let t = s.skip(char_head(s)->Ok_0);
    &&& c.id == be_u32(s)
    &&& c.version == character_version(s)
    &&& c.version <= 6
    &&& c.name@ == crate::reader::ascii_chars(s.skip(6).take(a))
    &&& c.model_id == be_u32(s.skip(7 + a))
    &&& c.skin_id == be_u32(s.skip(11 + a))
    &&& c.skeleton_id == be_u32(s.skip(15 + a))
    &&& names_read(s.skip(p), v, c.animations@)
    &&& pas_read(s.skip(p + b), c.pas_database)
    &&& particle_read(s.skip(p + b + c2), v, c.particle_resource_data)
    &&& (v >= 2 ==> aabbs_read(t, c.animation_aabbs@) && effects_read(
        t.skip(counted(t, aabb_item())->Ok_0 as int),
        c.effects@,
    ))
    &&& (v < 2 ==> c.animation_aabbs@.len() == 0 && c.effects@.len() == 0)
    &&& (v >= 4 ==> c.frozen_model_id == be_u32(s.skip(q5)) && c.frozen_skin_id == be_u32(s.skip(q5 + 4)))
    &&& (v < 4 ==> c.frozen_model_id == 0 && c.frozen_skin_id == 0)
    &&& (v >= 5 ==> c.animation_ids@ == crate::reader::u32_list(s.skip(q6)))
    &&& (v < 5 ==> c.animation_ids@.len() == 0)
}

/// Reads a zero-terminated string, with the bytes it takes as `c_len` says.
fn read_text(r: &mut Reader) -> (res: Result<String, Error>)
    requires
        old(r).wf(),
    ensures
        final(r).wf(),
        final(r).data == old(r).data,
        outcome(res, c_len(old(r)@), old(r)@, final(r)@),
        res is Ok ==> c_string(old(r)@) == Ok::<(Seq<char>, nat), Error>((res->Ok_0@, c_len(old(r)@)->Ok_0)),
{
    r.read_ascii_c_string()
}

fn read_words(r: &mut Reader) -> (res: Result<Vec<u32>, Error>)
    requires
        old(r).wf(),
    ensures
        final(r).wf(),
        final(r).data == old(r).data,
        outcome(res, list_len(old(r)@), old(r)@, final(r)@),
        res is Ok ==> res->Ok_0@ == crate::reader::u32_list(old(r)@),
{
    r.read_u32_list()
}

impl AnimationName {
    /// Reads an animation's id and name; before version 10 an unused string
    /// stands between them.
    pub fn read_with_version(r: &mut Reader, version: u16) -> (res: Result<AnimationName, Error>)
        requires
            old(r).wf(),
        ensures
            final(r).wf(),
            final(r).data == old(r).data,
            res is Ok ==> res->Ok_0.id == be_u32(old(r)@),
            res is Ok ==> anim_name_read(old(r)@, version, res->Ok_0),
            outcome(res, anim_name_len(old(r)@, version), old(r)@, final(r)@),
    {
        let ghost s = old(r)@;
        let id = r.read_u32()?;
        let ghost mut pos: int = 4;
        if version < 10 {
            let _ = read_text(r)?;
            proof {
                let a = c_len(s.skip(4))->Ok_0;
                lemma_skip2(s, 4, a as int);
                pos = 4 + a as int;
            }
        }
        let name = read_text(r)?;
        proof {
            let b = c_len(s.skip(pos))->Ok_0;
            lemma_skip2(s, pos, b as int);
        }
        Ok(AnimationName { id, name })
    }
}

impl ParticleResourceData {
    /// Reads the particle id lists; from version 6 a word that is not kept
    /// stands before the last list.
    pub fn read_with_version(r: &mut Reader, version: u16) -> (res: Result<ParticleResourceData, Error>)
        requires
            old(r).wf(),
        ensures
            final(r).wf(),
            final(r).data == old(r).data,
            res is Ok ==> particle_read(old(r)@, version, res->Ok_0),
            outcome(res, particle_len(old(r)@, version), old(r)@, final(r)@),
    {
        proof {
            reveal(particle_len);
        }
        let ghost s = old(r)@;
        let generic_particle_ids = read_words(r)?;
        let ghost a = list_len(s)->Ok_0 as int;
        let swoosh_particle_ids = read_words(r)?;
        proof {
            let b = list_len(s.skip(a))->Ok_0 as int;
            lemma_skip2(s, a, b);
        }
        let ghost ab = a + list_len(s.skip(a))->Ok_0;
        if version >= 6 {
            let _ = r.read_u32()?;
            proof {
                lemma_skip2(s, ab, 4);
            }
        }
        let electric_particle_ids = read_words(r)?;
        proof {
            let c = ab + (if version >= 6 { 4int } else { 0 });
            let d = list_len(s.skip(c))->Ok_0 as int;
            lemma_skip2(s, c, d);
        }
        Ok(ParticleResourceData { generic_particle_ids, swoosh_particle_ids, electric_particle_ids })
    }
}

impl AnimationAabb {
    pub fn read_from(r: &mut Reader) -> (res: Result<AnimationAabb, Error>)
        requires
            old(r).wf(),
        ensures
            final(r).wf(),
            final(r).data == old(r).data,
            outcome(res, aabb_len(old(r)@), old(r)@, final(r)@),
            res is Ok ==> aabb_read(old(r)@, res->Ok_0),
    {
        let ghost s = old(r)@;
        let name = read_text(r)?;
        let ghost a = c_len(s)->Ok_0 as int;
        let bounds = r.read_u32_array(6)?;
        proof {
            lemma_skip2(s, a, 24);
            assert forall|i: int| 0 <= i < 6 implies #[trigger] bounds@[i] == be_u32(s.skip(a + 4 * i)) by {
                lemma_skip2(s, a, 4 * i);
            }
        }
        Ok(AnimationAabb { name, bounds })
    }
}

impl EffectComponent {
    #[verifier::rlimit(60)]
    pub fn read_from(r: &mut Reader) -> (res: Result<EffectComponent, Error>)
        requires
            old(r).wf(),
        ensures
            final(r).wf(),
            final(r).data == old(r).data,
            outcome(res, component_len(old(r)@), old(r)@, final(r)@),
            res is Ok ==> component_read(old(r)@, res->Ok_0),
    {
        let ghost s = old(r)@;
        let name = read_text(r)?;
        let ghost a = c_len(s)->Ok_0 as int;
        let particle_asset_type = r.read_fixed_capacity_ascii_c_string(4)?;
        proof {
            lemma_skip2(s, a, 4);
        }
        let particle_asset_id = r.read_u32()?;
        proof {
            lemma_skip2(s, a, 8);
            assert(s.skip(a + 4).skip(4) =~= s.skip(a + 8));
        }
        let bone_name = read_text(r)?;
        let ghost b = c_len(s.skip(a + 8))->Ok_0 as int;
        proof {
            lemma_skip2(s, a + 8, b);
        }
        let scale = r.read_u32()?;
        proof {
            assert(s.skip(a + 8 + b).skip(4) =~= s.skip(a + 12 + b));
        }
        let parented = r.read_u32()?;
        proof {
            assert(s.skip(a + 12 + b).skip(4) =~= s.skip(a + 16 + b));
        }
        let flags = r.read_u32()?;
        proof {
            assert(s.skip(a + 16 + b).skip(4) =~= s.skip(a + 20 + b));
        }
        Ok(EffectComponent { name, particle_asset_type, particle_asset_id, bone_name, scale, parented, flags })
    }
}

impl Effect {
    pub fn read_from(r: &mut Reader) -> (res: Result<Effect, Error>)
        requires
            old(r).wf(),
        ensures
            final(r).wf(),
            final(r).data == old(r).data,
            outcome(res, effect_len(old(r)@), old(r)@, final(r)@),
            res is Ok ==> effect_read(old(r)@, res->Ok_0),
    {
        let ghost s = old(r)@;
        let name = read_text(r)?;
        let ghost a = c_len(s)->Ok_0 as int;
        let count = r.read_u32()?;
        proof {
            lemma_skip2(s, a, 4);
        }
        let ghost mut pos: int = a + 4;
        let mut components: Vec<EffectComponent> = Vec::new();
        let mut i: u32 = 0;
        while i < count
            invariant
                r.wf(),
                r.data == old(r).data,
                s == old(r)@,
                count == be_u32(s.skip(a)),
                a == c_len(s)->Ok_0,
                c_len(s) is Ok,
                s.len() >= a + 4,
                i <= count,
                components@.len() == i,
                0 <= pos <= s.len(),
                r@ == s.skip(pos),
                items_from(s, a + 4, count as nat, component_item()) == items_from(s, pos, (count - i) as nat, component_item()),
                items_from(s, a + 4, i as nat, component_item()) == Ok::<int, Error>(pos),
                name@ == c_string(s)->Ok_0.0,
                forall|j: int| 0 <= j < i ==> component_read(s.skip(item_at(s, a + 4, j as nat, component_item())), #[trigger] components@[j]),
            decreases count - i,
        {
            let ghost before = pos;
            let c = EffectComponent::read_from(r)?;
            proof {
                lemma_items_step(s, a + 4, i as nat, component_item());
                let n = component_len(s.skip(before))->Ok_0;
                lemma_skip2(s, before, n as int);
                pos = before + n as int;
            }
            components.push(c);
            i = i + 1;
        }
        Ok(Effect { name, components })
    }
}

fn read_animation_names(r: &mut Reader, version: u16) -> (res: Result<Vec<AnimationName>, Error>)
    requires
        old(r).wf(),
    ensures
        final(r).wf(),
        final(r).data == old(r).data,
        res is Ok ==> res->Ok_0@.len() == be_u32(old(r)@),
        outcome(res, counted(old(r)@, anim_name_item(version)), old(r)@, final(r)@),
        res is Ok ==> names_read(old(r)@, version, res->Ok_0@),
{
    proof {
        reveal(counted);
    }
    let ghost s = old(r)@;
    let count = r.read_u32()?;
    let ghost mut pos: int = 4;
    let mut v: Vec<AnimationName> = Vec::new();
    let mut i: u32 = 0;
    while i < count
        invariant
            r.wf(),
            r.data == old(r).data,
            s == old(r)@,
            s.len() >= 4,
            count == be_u32(s),
            i <= count,
            v@.len() == i,
            0 <= pos <= s.len(),
            r@ == s.skip(pos),
            items_from(s, 4, count as nat, anim_name_item(version)) == items_from(s, pos, (count - i) as nat, anim_name_item(version)),
            items_from(s, 4, i as nat, anim_name_item(version)) == Ok::<int, Error>(pos),
            v@.len() == i,
            forall|j: int| 0 <= j < i ==> anim_name_read(s.skip(item_at(s, 4, j as nat, anim_name_item(version))), version, #[trigger] v@[j]),
        decreases count - i,
    {
        proof {
            reveal(counted);
        }
        let ghost before = pos;
        let x = AnimationName::read_with_version(r, version)?;
        proof {
            lemma_items_step(s, 4, i as nat, anim_name_item(version));
            let n = anim_name_len(s.skip(before), version)->Ok_0;
            lemma_skip2(s, before, n as int);
            pos = before + n;
        }
        v.push(x);
        i = i + 1;
    }
    Ok(v)
}

fn read_aabbs(r: &mut Reader) -> (res: Result<Vec<AnimationAabb>, Error>)
    requires
        old(r).wf(),
    ensures
        final(r).wf(),
        final(r).data == old(r).data,
        outcome(res, counted(old(r)@, aabb_item()), old(r)@, final(r)@),
        res is Ok ==> aabbs_read(old(r)@, res->Ok_0@),
{
    proof {
        reveal(counted);
    }
    let ghost s = old(r)@;
    let count = r.read_u32()?;
    let ghost mut pos: int = 4;
    let mut v: Vec<AnimationAabb> = Vec::new();
    let mut i: u32 = 0;
    while i < count
        invariant
            r.wf(),
            r.data == old(r).data,
            s == old(r)@,
            s.len() >= 4,
            count == be_u32(s),
            i <= count,
            0 <= pos <= s.len(),
            r@ == s.skip(pos),
            items_from(s, 4, count as nat, aabb_item()) == items_from(s, pos, (count - i) as nat, aabb_item()),
            items_from(s, 4, i as nat, aabb_item()) == Ok::<int, Error>(pos),
            v@.len() == i,
            forall|j: int| 0 <= j < i ==> aabb_read(s.skip(item_at(s, 4, j as nat, aabb_item())), #[trigger] v@[j]),
        decreases count - i,
    {
        proof {
            reveal(counted);
        }
        let ghost before = pos;
        let x = AnimationAabb::read_from(r)?;
        proof {
            lemma_items_step(s, 4, i as nat, aabb_item());
            let n = aabb_len(s.skip(before))->Ok_0;
            lemma_skip2(s, before, n as int);
            pos = before + n;
        }
        v.push(x);
        i = i + 1;
    }
    Ok(v)
}

fn read_effects(r: &mut Reader) -> (res: Result<Vec<Effect>, Error>)
    requires
        old(r).wf(),
    ensures
        final(r).wf(),
        final(r).data == old(r).data,
        outcome(res, counted(old(r)@, effect_item()), old(r)@, final(r)@),
        res is Ok ==> effects_read(old(r)@, res->Ok_0@),
{
    proof {
        reveal(counted);
    }
    let ghost s = old(r)@;
    let count = r.read_u32()?;
    let ghost mut pos: int = 4;
    let mut v: Vec<Effect> = Vec::new();
    let mut i: u32 = 0;
    while i < count
        invariant
            r.wf(),
            r.data == old(r).data,
            s == old(r)@,
            s.len() >= 4,
            count == be_u32(s),
            i <= count,
            0 <= pos <= s.len(),
            r@ == s.skip(pos),
            items_from(s, 4, count as nat, effect_item()) == items_from(s, pos, (count - i) as nat, effect_item()),
            items_from(s, 4, i as nat, effect_item()) == Ok::<int, Error>(pos),
            v@.len() == i,
            forall|j: int| 0 <= j < i ==> effect_read(s.skip(item_at(s, 4, j as nat, effect_item())), #[trigger] v@[j]),
        decreases count - i,
    {
        proof {
            reveal(counted);
        }
        let ghost before = pos;
        let x = Effect::read_from(r)?;
        proof {
            lemma_items_step(s, 4, i as nat, effect_item());
            let n = effect_len(s.skip(before))->Ok_0;
            lemma_skip2(s, before, n as int);
            pos = before + n;
        }
        v.push(x);
        i = i + 1;
    }
    Ok(v)
}


struct CharacterHead {
    id: u32,
    version: u16,
    name: String,
    model_id: u32,
    skin_id: u32,
    skeleton_id: u32,
    animations: Vec<AnimationName>,
    pas_database: PasDatabase,
    particle_resource_data: ParticleResourceData,
}

#[verifier::rlimit(100)]
fn read_character_head(r: &mut Reader) -> (res: Result<CharacterHead, Error>)
    requires
        old(r).wf(),
    ensures
        final(r).wf(),
        final(r).data == old(r).data,
        match char_head(old(r)@) {
            Ok(q4) => res is Ok && q4 <= old(r)@.len() && final(r)@ == old(r)@.skip(q4),
            Err(e) => res is Err && res->Err_0 == e,
        },
        res is Ok ==> {
            let s = old(r)@;
            let c = res->Ok_0;
            let a = c.name@.len() as int;
            &&& c.id == be_u32(s)
            &&& c.version == character_version(s)
            &&& c.version <= 6
            &&& c.name@ == crate::reader::ascii_chars(s.skip(6).take(a))
            &&& c.model_id == be_u32(s.skip(7 + a))
            &&& c.skin_id == be_u32(s.skip(11 + a))
            &&& c.skeleton_id == be_u32(s.skip(15 + a))
            &&& c.animations@.len() == be_u32(s.skip(19 + a))
            &&& {
                let p = 18 + c_len(s.skip(6))->Ok_0 as int;
                let b = counted(s.skip(p), anim_name_item(c.version))->Ok_0 as int;
                let c2 = pas_len(s.skip(p + b))->Ok_0 as int;
                &&& names_read(s.skip(p), c.version, c.animations@)
                &&& pas_read(s.skip(p + b), c.pas_database)
                &&& particle_read(s.skip(p + b + c2), c.version, c.particle_resource_data)
            }
        },
{
    let ghost s = old(r)@;
    let id = r.read_u32()?;
    let version = r.read_u16()?;
    assert(s.skip(4).skip(2) =~= s.skip(6));
    if version > 6 {
        return Err(Error::UnexpectedFormat { context: Field::CharacterVersion, value: version as u32 });
    }
    let name = r.read_ascii_c_string()?;
    let ghost a = c_len(s.skip(6))->Ok_0 as int;
    proof {
        lemma_skip2(s, 6, a);
    }
    let model_id = r.read_u32()?;
    assert(s.skip(6 + a).skip(4) =~= s.skip(10 + a));
    let skin_id = r.read_u32()?;
    assert(s.skip(10 + a).skip(4) =~= s.skip(14 + a));
    let skeleton_id = r.read_u32()?;
    assert(s.skip(14 + a).skip(4) =~= s.skip(18 + a));
    let ghost p = 18 + a;
    let animations = read_animation_names(r, version)?;
    let ghost b = counted(s.skip(p), anim_name_item(version))->Ok_0 as int;
    proof {
        lemma_skip2(s, p, b);
    }
    let pas_database = PasDatabase::read_from(r)?;
    let ghost c = pas_len(s.skip(p + b))->Ok_0 as int;
    proof {
        lemma_skip2(s, p + b, c);
    }
    let particle_resource_data = ParticleResourceData::read_with_version(r, version)?;
    let ghost d = particle_len(s.skip(p + b + c), version)->Ok_0 as int;
    proof {
        lemma_skip2(s, p + b + c, d);
    }
    let _ = r.read_u32()?;
    assert(s.skip(p + b + c + d).skip(4) =~= s.skip(p + b + c + d + 4));
    Ok(CharacterHead {
        id,
        version,
        name,
        model_id,
        skin_id,
        skeleton_id,
        animations,
        pas_database,
        particle_resource_data,
    })
}

fn read_character_tail(r: &mut Reader, version: u16) -> (res: Result<
    (Vec<AnimationAabb>, Vec<Effect>, u32, u32, Vec<u32>),
    Error,
>)
    requires
        old(r).wf(),
    ensures
        final(r).wf(),
        final(r).data == old(r).data,
        match char_tail(old(r)@, version) {
            Ok((q5, q6, n)) => res is Ok && n <= old(r)@.len() && final(r)@ == old(r)@.skip(n as int) && {
                let t = old(r)@;
                let (aabbs, effects, fm, fs, ids) = res->Ok_0;
                &&& (version < 2 ==> aabbs@.len() == 0 && effects@.len() == 0)
                &&& (version >= 2 ==> aabbs_read(t, aabbs@) && effects_read(t.skip(counted(t, aabb_item())->Ok_0 as int), effects@))
                &&& (version >= 4 ==> fm == be_u32(t.skip(q5)) && fs == be_u32(t.skip(q5 + 4)))
                &&& (version < 4 ==> fm == 0 && fs == 0)
                &&& (version >= 5 ==> ids@ == crate::reader::u32_list(t.skip(q6)))
                &&& (version < 5 ==> ids@.len() == 0)
            },
            Err(e) => res is Err && res->Err_0 == e,
        },
{
    let ghost t = old(r)@;
    let ghost mut q5: int = 0;
    let mut animation_aabbs: Vec<AnimationAabb> = Vec::new();
    let mut effects: Vec<Effect> = Vec::new();
    if version >= 2 {
        animation_aabbs = read_aabbs(r)?;
        let ghost e1 = counted(t, aabb_item())->Ok_0 as int;
        effects = read_effects(r)?;
        proof {
            let f = counted(t.skip(e1), effect_item())->Ok_0 as int;
            lemma_skip2(t, e1, f);
            q5 = e1 + f;
        }
    }
    assert(r@ == t.skip(q5));
    let mut frozen_model_id: u32 = 0;
    let mut frozen_skin_id: u32 = 0;
    let ghost mut q6: int = q5;
    if version >= 4 {
        frozen_model_id = r.read_u32()?;
        assert(t.skip(q5).skip(4) =~= t.skip(q5 + 4));
        frozen_skin_id = r.read_u32()?;
        assert(t.skip(q5 + 4).skip(4) =~= t.skip(q5 + 8));
        proof {
            q6 = q5 + 8;
        }
    }
    let mut animation_ids: Vec<u32> = Vec::new();
    if version >= 5 {
        animation_ids = read_words(r)?;
        proof {
            let g = list_len(t.skip(q6))->Ok_0 as int;
            lemma_skip2(t, q6, g);
        }
    }
    Ok((animation_aabbs, effects, frozen_model_id, frozen_skin_id, animation_ids))
}

/// The version of a character record, after its 4-byte id.
pub open spec fn character_version(s: Seq<u8>) -> u16 {
    be_u16(s.skip(4))
}

impl Character {
    /// Decodes a character; versions above 6 are not understood, and fields
    /// appear from versions 2, 4 and 5 on.
    pub fn read_from(r: &mut Reader) -> (res: Result<Character, Error>)
        requires
            old(r).wf(),
        ensures
            final(r).wf(),
            final(r).data == old(r).data,
            outcome(res, character_len(old(r)@), old(r)@, final(r)@),
            res is Ok ==> character_read(old(r)@, res->Ok_0),
    {
        let ghost s = old(r)@;
        let h = read_character_head(r)?;
        let ghost q4 = char_head(s)->Ok_0;
        let (animation_aabbs, effects, frozen_model_id, frozen_skin_id, animation_ids) = read_character_tail(r, h.version)?;
        proof {
            let (a5, a6, n) = char_tail(s.skip(q4), h.version)->Ok_0;
            lemma_skip2(s, q4, n as int);
            if h.version >= 4 {
                lemma_skip2(s, q4, a5);
                lemma_skip2(s, q4, a5 + 4);
            }
            if h.version >= 5 {
                lemma_skip2(s, q4, a6);
            }
        }
        Ok(Character {
            id: h.id,
            version: h.version,
            name: h.name,
            model_id: h.model_id,
            skin_id: h.skin_id,
            skeleton_id: h.skeleton_id,
            animations: h.animations,
            pas_database: h.pas_database,
            particle_resource_data: h.particle_resource_data,
            animation_aabbs,
            effects,
            frozen_model_id,
            frozen_skin_id,
            animation_ids,
        })
    }
}

impl CharacterSet {
    pub fn read_from(r: &mut Reader) -> (res: Result<CharacterSet, Error>)
        requires
            old(r).wf(),
        ensures
            final(r).wf(),
            final(r).data == old(r).data,
            outcome(res, character_set_len(old(r)@), old(r)@, final(r)@),
            res is Ok ==> res->Ok_0.version == 1 && res->Ok_0.characters@.len() == be_u32(old(r)@.skip(2)),
            res is Ok ==> forall|i: int| 0 <= i < res->Ok_0.characters@.len() ==> (#[trigger] res->Ok_0.characters@[i]).version <= 6,
            res is Ok ==> character_set_read(old(r)@, res->Ok_0),
    {
        let ghost s = old(r)@;
        let version = r.read_u16()?;
        if version != 1 {
            return Err(Error::UnexpectedFormat { context: Field::CharacterSetVersion, value: version as u32 });
        }
        let count = r.read_u32()?;
        assert(s.skip(2).skip(4) =~= s.skip(6));
        let ghost mut pos: int = 6;
        let mut characters: Vec<Character> = Vec::new();
        let mut i: u32 = 0;
        while i < count
            invariant
                r.wf(),
                r.data == old(r).data,
                s == old(r)@,
                s.len() >= 6,
                be_u16(s) == 1,
                version == 1,
                count == be_u32(s.skip(2)),
                i <= count,
                characters@.len() == i,
                forall|j: int| 0 <= j < i ==> (#[trigger] characters@[j]).version <= 6,
                0 <= pos <= s.len(),
                r@ == s.skip(pos),
                items_from(s, 6, count as nat, character_item()) == items_from(s, pos, (count - i) as nat, character_item()),
                items_from(s, 6, i as nat, character_item()) == Ok::<int, Error>(pos),
                forall|j: int| 0 <= j < i ==> character_read(s.skip(item_at(s, 6, j as nat, character_item())), #[trigger] characters@[j]),
            decreases count - i,
        {
            let ghost before = pos;
            let c = Character::read_from(r)?;
            proof {
                lemma_items_step(s, 6, i as nat, character_item());
                let n = character_len(s.skip(before))->Ok_0;
                lemma_skip2(s, before, n as int);
                pos = before + n as int;
            }
            characters.push(c);
            i = i + 1;
        }
        Ok(CharacterSet { version, characters })
    }
}

/// Character set `cs` holds what the record at the start of `s` says.
pub open spec fn character_set_read(s: Seq<u8>, cs: CharacterSet) -> bool {
    &&& cs.version == 1
    &&& cs.characters@.len() == be_u32(s.skip(2))
    &&& forall|i: int|
        0 <= i < cs.characters@.len() ==> character_read(s.skip(item_at(s, 6, i as nat, character_item())), #[trigger] cs.characters@[i])
}

pub open spec fn character_set_len(s: Seq<u8>) -> Result<nat, Error> {
    if s.len() < 2 {
        Err(Error::Truncated)
    } else if be_u16(s) != 1 {
        Err(Error::UnexpectedFormat { context: Field::CharacterSetVersion, value: be_u16(s) as u32 })
    } else if s.len() < 6 {
        Err(Error::Truncated)
    } else {
        match items_from(s, 6, be_u32(s.skip(2)) as nat, character_item()) {
            Err(e) => Err(e),
            Ok(e) => Ok(e as nat),
        }
    }
}

/// A meta-animation nested `depth` levels deep: a clip, or a count and that
/// many nested meta-animations (each followed by a weight in a random choice).
pub open spec fn meta_len(s: Seq<u8>, depth: nat) -> Result<nat, Error>
    decreases MAX_META_DEPTH + 2 - depth, 0nat,
{
    if depth > MAX_META_DEPTH {
        Err(Error::UnexpectedFormat { context: Field::MetaAnimationDepth, value: depth as u32 })
    } else if s.len() < 4 {
        Err(Error::Truncated)
    } else if be_u32(s) == 0 {
        if s.len() < 12 {
            Err(Error::Truncated)
        } else {
            match c_len(s.skip(12)) {
                Err(e) => Err(e),
                Ok(a) => if s.len() < 20 + a {
                    Err(Error::Truncated)
                } else {
                    Ok(20 + a)
                },
            }
        }
    } else if be_u32(s) == 3 || be_u32(s) == 4 {
        if s.len() < 8 {
            Err(Error::Truncated)
        } else {
            match meta_list(s, 8, be_u32(s.skip(4)) as nat, depth + 1, be_u32(s) == 3) {
                Err(e) => Err(e),
                Ok(e) => Ok(e as nat),
            }
        }
    } else {
        Err(Error::UnexpectedFormat { context: Field::MetaAnimationKind, value: be_u32(s) })
    }
}

/// `c` nested meta-animations from position `p` on, each followed by a
/// 4-byte weight when `weighted`: where the last ends.
pub open spec fn meta_list(s: Seq<u8>, p: int, c: nat, depth: nat, weighted: bool) -> Result<int, Error>
    decreases MAX_META_DEPTH + 2 - depth, c + 1,
{
    if c == 0 {
        Ok(p)
    } else if p < 0 || p > s.len() || depth > MAX_META_DEPTH + 1 {
        Err(Error::Truncated)
    } else {
        match meta_len(s.skip(p), depth) {
            Err(e) => Err(e),
            Ok(n) => {
                let w: int = if weighted { 4 } else { 0 };
                if s.len() < p + n + w {
                    Err(Error::Truncated)
                } else {
                    meta_list(s, p + n + w, (c - 1) as nat, depth, weighted)
                }
            },
        }
    }
}

impl MetaAnimation {
    /// Decodes a meta-animation nested `depth` levels deep: a clip (kind 0),
    /// a random choice (kind 3) or a sequence (kind 4).
    pub fn read_nested(r: &mut Reader, depth: u32) -> (res: Result<MetaAnimation, Error>)
        requires
            old(r).wf(),
        ensures
            final(r).wf(),
            final(r).data == old(r).data,
            outcome(res, meta_len(old(r)@, depth as nat), old(r)@, final(r)@),
            res is Ok ==> match res->Ok_0 {
                MetaAnimation::Play { animation_id, primitive_id, .. } => be_u32(old(r)@) == 0 && animation_id
                    == be_u32(old(r)@.skip(4)) && primitive_id == be_u32(old(r)@.skip(8)),
                MetaAnimation::Random(v) => be_u32(old(r)@) == 3 && v@.len() == be_u32(old(r)@.skip(4)),
                MetaAnimation::Sequence(v) => be_u32(old(r)@) == 4 && v@.len() == be_u32(old(r)@.skip(4)),
            },
        decreases MAX_META_DEPTH + 1 - depth,
    {
        let ghost s = old(r)@;
        if depth > MAX_META_DEPTH {
            return Err(Error::UnexpectedFormat { context: Field::MetaAnimationDepth, value: depth });
        }
        let kind = r.read_u32()?;
        if kind == 0 {
            let animation_id = r.read_u32()?;
            assert(s.skip(4).skip(4) =~= s.skip(8));
            let primitive_id = r.read_u32()?;
            assert(s.skip(8).skip(4) =~= s.skip(12));
            let primitive_name = r.read_ascii_c_string()?;
            let ghost a = c_len(s.skip(12))->Ok_0 as int;
            proof {
                lemma_skip2(s, 12, a);
            }
            let time = r.read_u32()?;
            assert(s.skip(12 + a).skip(4) =~= s.skip(16 + a));
            let differential_state = r.read_u32()?;
            assert(s.skip(16 + a).skip(4) =~= s.skip(20 + a));
            Ok(MetaAnimation::Play {
                animation_id,
                primitive_id,
                primitive_name,
                char_anim_time: CharAnimTime { time, differential_state },
            })
        } else if kind == 3 || kind == 4 {
            let count = r.read_u32()?;
            assert(s.skip(4).skip(4) =~= s.skip(8));
            let weighted = kind == 3;
            let ghost mut pos: int = 8;
            let mut pairs: Vec<RandomChoice> = Vec::new();
            let mut items: Vec<MetaAnimation> = Vec::new();
            let mut i: u32 = 0;
            while i < count
                invariant
                    r.wf(),
                    r.data == old(r).data,
                    s == old(r)@,
                    s.len() >= 8,
                    depth <= MAX_META_DEPTH,
                    be_u32(s) == kind,
                    kind == 3 || kind == 4,
                    weighted == (kind == 3),
                    count == be_u32(s.skip(4)),
                    i <= count,
                    weighted ==> pairs@.len() == i,
                    !weighted ==> items@.len() == i,
                    0 <= pos <= s.len(),
                    r@ == s.skip(pos),
                    meta_list(s, 8, count as nat, (depth + 1) as nat, weighted) == meta_list(
                        s,
                        pos,
                        (count - i) as nat,
                        (depth + 1) as nat,
                        weighted,
                    ),
                decreases count - i,
            {
                let ghost before = pos;
                let animation = MetaAnimation::read_nested(r, depth + 1)?;
                let ghost n = meta_len(s.skip(before), (depth + 1) as nat)->Ok_0 as int;
                proof {
                    lemma_skip2(s, before, n);
                    pos = before + n;
                }
                if weighted {
                    let probability = r.read_u32()?;
                    proof {
                        lemma_skip2(s, before + n, 4);
                        pos = before + n + 4;
                    }
                    pairs.push(RandomChoice { animation, probability });
                } else {
                    items.push(animation);
                }
                i = i + 1;
            }
            if weighted {
                Ok(MetaAnimation::Random(pairs))
            } else {
                Ok(MetaAnimation::Sequence(items))
            }
        } else {
            Err(Error::UnexpectedFormat { context: Field::MetaAnimationKind, value: kind })
        }
    }

    /// Decodes a meta-animation at the outermost level.
    pub fn read_from(r: &mut Reader) -> (res: Result<MetaAnimation, Error>)
        requires
            old(r).wf(),
        ensures
            final(r).wf(),
            final(r).data == old(r).data,
            outcome(res, meta_len(old(r)@, 0), old(r)@, final(r)@),
            res is Ok ==> meta_shape(old(r)@, res->Ok_0),
            res is Ok ==> match res->Ok_0 {
                MetaAnimation::Play { animation_id, primitive_id, .. } => be_u32(old(r)@) == 0 && animation_id
                    == be_u32(old(r)@.skip(4)) && primitive_id == be_u32(old(r)@.skip(8)),
                MetaAnimation::Random(v) => be_u32(old(r)@) == 3 && v@.len() == be_u32(old(r)@.skip(4)),
                MetaAnimation::Sequence(v) => be_u32(old(r)@) == 4 && v@.len() == be_u32(old(r)@.skip(4)),
            },
    {
        MetaAnimation::read_nested(r, 0)
    }
}

/// A meta-transition: a kind, then a meta-animation (kind 0), a 14-byte
/// blend description (kinds 1 and 2), or nothing (kind 3).
pub open spec fn meta_transition_len(s: Seq<u8>) -> Result<nat, Error> {
    if s.len() < 4 {
        Err(Error::Truncated)
    } else if be_u32(s) == 0 {
        match meta_len(s.skip(4), 0) {
            Err(e) => Err(e),
            Ok(n) => Ok(4 + n),
        }
    } else if be_u32(s) == 1 || be_u32(s) == 2 {
        fixed_len(s, 18)
    } else if be_u32(s) == 3 {
        Ok(4)
    } else {
        Err(Error::UnexpectedFormat { context: Field::MetaTransitionKind, value: be_u32(s) })
    }
}

impl MetaTransition {
    pub fn read_from(r: &mut Reader) -> (res: Result<MetaTransition, Error>)
        requires
            old(r).wf(),
        ensures
            final(r).wf(),
            final(r).data == old(r).data,
            outcome(res, meta_transition_len(old(r)@), old(r)@, final(r)@),
            res is Ok ==> meta_transition_read(old(r)@, res->Ok_0),
            res is Ok ==> match res->Ok_0 {
                MetaTransition::Animation(_) => be_u32(old(r)@) == 0,
                MetaTransition::Transition { unknown2, .. } => be_u32(old(r)@) == 1 && unknown2 == be_u32(old(r)@.skip(8)),
                MetaTransition::PhaseTransition { unknown2, .. } => be_u32(old(r)@) == 2 && unknown2 == be_u32(old(r)@.skip(8)),
                MetaTransition::Snap => be_u32(old(r)@) == 3,
            },
    {
        let ghost s = old(r)@;
        let kind = r.read_u32()?;
        if kind == 0 {
            let m = MetaAnimation::read_from(r)?;
            proof {
                lemma_skip2(s, 4, meta_len(s.skip(4), 0)->Ok_0 as int);
            }
            assert(meta_transition_read(s, MetaTransition::Animation(m)));
            Ok(MetaTransition::Animation(m))
        } else if kind == 1 || kind == 2 {
            if r.remaining() < 14 {
                return Err(Error::Truncated);
            }
            let unknown1 = r.read_u32()?;
            assert(s.skip(4).skip(4) =~= s.skip(8));
            let unknown2 = r.read_u32()?;
            assert(s.skip(8).skip(4) =~= s.skip(12));
            let unknown3 = r.read_u8()? != 0;
            let unknown4 = r.read_u8()? != 0;
            assert(s.skip(12).skip(1).skip(1) =~= s.skip(14));
            let unknown5 = r.read_u32()?;
            assert(r@ =~= s.skip(18));
            if kind == 1 {
                Ok(MetaTransition::Transition { unknown1, unknown2, unknown3, unknown4, unknown5 })
            } else {
                Ok(MetaTransition::PhaseTransition { unknown1, unknown2, unknown3, unknown4, unknown5 })
            }
        } else if kind == 3 {
            Ok(MetaTransition::Snap)
        } else {
            Err(Error::UnexpectedFormat { context: Field::MetaTransitionKind, value: kind })
        }
    }
}

/// Meta-animation `m` has the kind and leading fields of the record at the
/// start of `s`.
pub open spec fn meta_shape(s: Seq<u8>, m: MetaAnimation) -> bool {
    match m {
        MetaAnimation::Play { animation_id, primitive_id, .. } => be_u32(s) == 0 && animation_id == be_u32(s.skip(4))
            && primitive_id == be_u32(s.skip(8)),
        MetaAnimation::Random(v) => be_u32(s) == 3 && v@.len() == be_u32(s.skip(4)),
        MetaAnimation::Sequence(v) => be_u32(s) == 4 && v@.len() == be_u32(s.skip(4)),
    }
}

/// Meta-transition `m` has the kind and fields of the record at the start of `s`.
pub open spec fn meta_transition_read(s: Seq<u8>, m: MetaTransition) -> bool {
    match m {
        MetaTransition::Animation(a) => be_u32(s) == 0 && meta_shape(s.skip(4), a),
        MetaTransition::Transition { unknown1, unknown2, unknown3, unknown4, unknown5 } => be_u32(s) == 1 && unknown1
            == be_u32(s.skip(4)) && unknown2 == be_u32(s.skip(8)) && unknown3 == (s[12] != 0) && unknown4 == (s[13] != 0)
            && unknown5 == be_u32(s.skip(14)),
        MetaTransition::PhaseTransition { unknown1, unknown2, unknown3, unknown4, unknown5 } => be_u32(s) == 2
            && unknown1 == be_u32(s.skip(4)) && unknown2 == be_u32(s.skip(8)) && unknown3 == (s[12] != 0) && unknown4 == (
        s[13] != 0) && unknown5 == be_u32(s.skip(14)),
        MetaTransition::Snap => be_u32(s) == 3,
    }
}

pub open spec fn animation_read(s: Seq<u8>, a: Animation) -> bool {
    a.name@ == c_string(s)->Ok_0.0 && meta_shape(s.skip(c_len(s)->Ok_0 as int), a.meta_animation)
}

pub open spec fn transition_read(s: Seq<u8>, t: Transition) -> bool {
    &&& t.unknown == be_u32(s)
    &&& t.animation_id_a == be_u32(s.skip(4))
    &&& t.animation_id_b == be_u32(s.skip(8))
    &&& meta_transition_read(s.skip(12), t.meta_transition)
}

pub open spec fn half_read(s: Seq<u8>, h: HalfTransition) -> bool {
    h.animation_id == be_u32(s) && meta_transition_read(s.skip(4), h.meta_transition)
}

pub open spec fn additive_read(s: Seq<u8>, a: AdditiveAnimation) -> bool {
    a.animation_id == be_u32(s) && a.fade_in_time == be_u32(s.skip(4)) && a.fade_out_time == be_u32(s.skip(8))
}

pub open spec fn resource_read(s: Seq<u8>, a: AnimationResource) -> bool {
    a.animation_id == be_u32(s) && a.event_id == be_u32(s.skip(4))
}

pub open spec fn animation_len(s: Seq<u8>) -> Result<nat, Error> {
    match c_len(s) {
        Err(e) => Err(e),
        Ok(a) => match meta_len(s.skip(a as int), 0) {
            Err(e) => Err(e),
            Ok(n) => Ok(a + n),
        },
    }
}

pub open spec fn animation_item() -> spec_fn(Seq<u8>) -> Result<nat, Error> {
    |u: Seq<u8>| animation_len(u)
}

pub open spec fn transition_len(s: Seq<u8>) -> Result<nat, Error> {
    if s.len() < 12 {
        Err(Error::Truncated)
    } else {
        match meta_transition_len(s.skip(12)) {
            Err(e) => Err(e),
            Ok(n) => Ok(12 + n),
        }
    }
}

pub open spec fn transition_item() -> spec_fn(Seq<u8>) -> Result<nat, Error> {
    |u: Seq<u8>| transition_len(u)
}

pub open spec fn half_len(s: Seq<u8>) -> Result<nat, Error> {
    if s.len() < 4 {
        Err(Error::Truncated)
    } else {
        match meta_transition_len(s.skip(4)) {
            Err(e) => Err(e),
            Ok(n) => Ok(4 + n),
        }
    }
}

pub open spec fn half_item() -> spec_fn(Seq<u8>) -> Result<nat, Error> {
    |u: Seq<u8>| half_len(u)
}

pub open spec fn fixed12(s: Seq<u8>) -> Result<nat, Error> {
    fixed_len(s, 12)
}

pub open spec fn fixed8(s: Seq<u8>) -> Result<nat, Error> {
    fixed_len(s, 8)
}

fn read_animation(r: &mut Reader) -> (res: Result<Animation, Error>)
    requires
        old(r).wf(),
    ensures
        final(r).wf(),
        final(r).data == old(r).data,
        outcome(res, animation_len(old(r)@), old(r)@, final(r)@),
        res is Ok ==> animation_read(old(r)@, res->Ok_0),
{
    let ghost s = old(r)@;
    let name = r.read_ascii_c_string()?;
    let ghost a = c_len(s)->Ok_0 as int;
    let meta_animation = MetaAnimation::read_from(r)?;
    proof {
        lemma_skip2(s, a, meta_len(s.skip(a), 0)->Ok_0 as int);
    }
    Ok(Animation { name, meta_animation })
}

fn read_transition(r: &mut Reader) -> (res: Result<Transition, Error>)
    requires
        old(r).wf(),
    ensures
        final(r).wf(),
        final(r).data == old(r).data,
        outcome(res, transition_len(old(r)@), old(r)@, final(r)@),
        res is Ok ==> transition_read(old(r)@, res->Ok_0),
{
    let ghost s = old(r)@;
    if r.remaining() < 12 {
        return Err(Error::Truncated);
    }
    let unknown = r.read_u32()?;
    let animation_id_a = r.read_u32()?;
    assert(s.skip(4).skip(4) =~= s.skip(8));
    let animation_id_b = r.read_u32()?;
    assert(r@ =~= s.skip(12));
    let meta_transition = MetaTransition::read_from(r)?;
    proof {
        lemma_skip2(s, 12, meta_transition_len(s.skip(12))->Ok_0 as int);
    }
    Ok(Transition { unknown, animation_id_a, animation_id_b, meta_transition })
}

fn read_half_transition(r: &mut Reader) -> (res: Result<HalfTransition, Error>)
    requires
        old(r).wf(),
    ensures
        final(r).wf(),
        final(r).data == old(r).data,
        outcome(res, half_len(old(r)@), old(r)@, final(r)@),
        res is Ok ==> half_read(old(r)@, res->Ok_0),
{
    let ghost s = old(r)@;
    let animation_id = r.read_u32()?;
    let meta_transition = MetaTransition::read_from(r)?;
    proof {
        lemma_skip2(s, 4, meta_transition_len(s.skip(4))->Ok_0 as int);
    }
    Ok(HalfTransition { animation_id, meta_transition })
}

fn read_additive(r: &mut Reader) -> (res: Result<AdditiveAnimation, Error>)
    requires
        old(r).wf(),
    ensures
        final(r).wf(),
        final(r).data == old(r).data,
        outcome(res, fixed12(old(r)@), old(r)@, final(r)@),
        res is Ok ==> additive_read(old(r)@, res->Ok_0),
{
    let ghost s = old(r)@;
    if r.remaining() < 12 {
        return Err(Error::Truncated);
    }
    let animation_id = r.read_u32()?;
    let fade_in_time = r.read_u32()?;
    assert(s.skip(4).skip(4) =~= s.skip(8));
    let fade_out_time = r.read_u32()?;
    assert(r@ =~= s.skip(12));
    Ok(AdditiveAnimation { animation_id, fade_in_time, fade_out_time })
}

fn read_resource(r: &mut Reader) -> (res: Result<AnimationResource, Error>)
    requires
        old(r).wf(),
    ensures
        final(r).wf(),
        final(r).data == old(r).data,
        outcome(res, fixed8(old(r)@), old(r)@, final(r)@),
        res is Ok ==> resource_read(old(r)@, res->Ok_0),
{
    let ghost s = old(r)@;
    if r.remaining() < 8 {
        return Err(Error::Truncated);
    }
    let animation_id = r.read_u32()?;
    let event_id = r.read_u32()?;
    assert(r@ =~= s.skip(8));
    Ok(AnimationResource { animation_id, event_id })
}

pub open spec fn fixed12_item() -> spec_fn(Seq<u8>) -> Result<nat, Error> {
    |u: Seq<u8>| fixed12(u)
}

pub open spec fn fixed8_item() -> spec_fn(Seq<u8>) -> Result<nat, Error> {
    |u: Seq<u8>| fixed8(u)
}

fn read_animations(r: &mut Reader) -> (res: Result<Vec<Animation>, Error>)
    requires
        old(r).wf(),
    ensures
        final(r).wf(),
        final(r).data == old(r).data,
        outcome(res, counted(old(r)@, animation_item()), old(r)@, final(r)@),
        res is Ok ==> res->Ok_0@.len() == be_u32(old(r)@),
        res is Ok ==> forall|i: int|
            0 <= i < res->Ok_0@.len() ==> animation_read(old(r)@.skip(item_at(old(r)@, 4, i as nat, animation_item())), #[trigger] res->Ok_0@[i]),
{
    proof {
        reveal(counted);
    }
    let ghost s = old(r)@;
    let count = r.read_u32()?;
    let ghost mut pos: int = 4;
    let mut v: Vec<Animation> = Vec::new();
    let mut i: u32 = 0;
    while i < count
        invariant
            r.wf(),
            r.data == old(r).data,
            s == old(r)@,
            s.len() >= 4,
            count == be_u32(s),
            i <= count,
            v@.len() == i,
            0 <= pos <= s.len(),
            r@ == s.skip(pos),
            items_from(s, 4, count as nat, animation_item()) == items_from(s, pos, (count - i) as nat, animation_item()),
            items_from(s, 4, i as nat, animation_item()) == Ok::<int, Error>(pos),
            forall|j: int| 0 <= j < i ==> animation_read(s.skip(item_at(s, 4, j as nat, animation_item())), #[trigger] v@[j]),
        decreases count - i,
    {
        proof {
            reveal(counted);
        }
        let ghost before = pos;
        let x = read_animation(r)?;
        proof {
            lemma_items_step(s, 4, i as nat, animation_item());
            let n = animation_len(s.skip(before))->Ok_0;
            lemma_skip2(s, before, n as int);
            pos = before + n as int;
        }
        v.push(x);
        i = i + 1;
    }
    Ok(v)
}

fn read_transitions(r: &mut Reader) -> (res: Result<Vec<Transition>, Error>)
    requires
        old(r).wf(),
    ensures
        final(r).wf(),
        final(r).data == old(r).data,
        outcome(res, counted(old(r)@, transition_item()), old(r)@, final(r)@),
        res is Ok ==> res->Ok_0@.len() == be_u32(old(r)@),
        res is Ok ==> forall|i: int|
            0 <= i < res->Ok_0@.len() ==> transition_read(old(r)@.skip(item_at(old(r)@, 4, i as nat, transition_item())), #[trigger] res->Ok_0@[i]),
{
    proof {
        reveal(counted);
    }
    let ghost s = old(r)@;
    let count = r.read_u32()?;
    let ghost mut pos: int = 4;
    let mut v: Vec<Transition> = Vec::new();
    let mut i: u32 = 0;
    while i < count
        invariant
            r.wf(),
            r.data == old(r).data,
            s == old(r)@,
            s.len() >= 4,
            count == be_u32(s),
            i <= count,
            v@.len() == i,
            0 <= pos <= s.len(),
            r@ == s.skip(pos),
            items_from(s, 4, count as nat, transition_item()) == items_from(s, pos, (count - i) as nat, transition_item()),
            items_from(s, 4, i as nat, transition_item()) == Ok::<int, Error>(pos),
            forall|j: int| 0 <= j < i ==> transition_read(s.skip(item_at(s, 4, j as nat, transition_item())), #[trigger] v@[j]),
        decreases count - i,
    {
        proof {
            reveal(counted);
        }
        let ghost before = pos;
        let x = read_transition(r)?;
        proof {
            lemma_items_step(s, 4, i as nat, transition_item());
            let n = transition_len(s.skip(before))->Ok_0;
            lemma_skip2(s, before, n as int);
            pos = before + n as int;
        }
        v.push(x);
        i = i + 1;
    }
    Ok(v)
}

fn read_additive_animations(r: &mut Reader) -> (res: Result<Vec<AdditiveAnimation>, Error>)
    requires
        old(r).wf(),
    ensures
        final(r).wf(),
        final(r).data == old(r).data,
        outcome(res, counted(old(r)@, fixed12_item()), old(r)@, final(r)@),
        res is Ok ==> res->Ok_0@.len() == be_u32(old(r)@),
        res is Ok ==> forall|i: int|
            0 <= i < res->Ok_0@.len() ==> additive_read(old(r)@.skip(item_at(old(r)@, 4, i as nat, fixed12_item())), #[trigger] res->Ok_0@[i]),
{
    proof {
        reveal(counted);
    }
    let ghost s = old(r)@;
    let count = r.read_u32()?;
    let ghost mut pos: int = 4;
    let mut v: Vec<AdditiveAnimation> = Vec::new();
    let mut i: u32 = 0;
    while i < count
        invariant
            r.wf(),
            r.data == old(r).data,
            s == old(r)@,
            s.len() >= 4,
            count == be_u32(s),
            i <= count,
            v@.len() == i,
            0 <= pos <= s.len(),
            r@ == s.skip(pos),
            items_from(s, 4, count as nat, fixed12_item()) == items_from(s, pos, (count - i) as nat, fixed12_item()),
            items_from(s, 4, i as nat, fixed12_item()) == Ok::<int, Error>(pos),
            forall|j: int| 0 <= j < i ==> additive_read(s.skip(item_at(s, 4, j as nat, fixed12_item())), #[trigger] v@[j]),
        decreases count - i,
    {
        proof {
            reveal(counted);
        }
        let ghost before = pos;
        let x = read_additive(r)?;
        proof {
            lemma_items_step(s, 4, i as nat, fixed12_item());
            let n = fixed12(s.skip(before))->Ok_0;
            lemma_skip2(s, before, n as int);
            pos = before + n as int;
        }
        v.push(x);
        i = i + 1;
    }
    Ok(v)
}

fn read_half_transitions(r: &mut Reader) -> (res: Result<Vec<HalfTransition>, Error>)
    requires
        old(r).wf(),
    ensures
        final(r).wf(),
        final(r).data == old(r).data,
        outcome(res, counted(old(r)@, half_item()), old(r)@, final(r)@),
        res is Ok ==> res->Ok_0@.len() == be_u32(old(r)@),
        res is Ok ==> forall|i: int|
            0 <= i < res->Ok_0@.len() ==> half_read(old(r)@.skip(item_at(old(r)@, 4, i as nat, half_item())), #[trigger] res->Ok_0@[i]),
{
    proof {
        reveal(counted);
    }
    let ghost s = old(r)@;
    let count = r.read_u32()?;
    let ghost mut pos: int = 4;
    let mut v: Vec<HalfTransition> = Vec::new();
    let mut i: u32 = 0;
    while i < count
        invariant
            r.wf(),
            r.data == old(r).data,
            s == old(r)@,
            s.len() >= 4,
            count == be_u32(s),
            i <= count,
            v@.len() == i,
            0 <= pos <= s.len(),
            r@ == s.skip(pos),
            items_from(s, 4, count as nat, half_item()) == items_from(s, pos, (count - i) as nat, half_item()),
            items_from(s, 4, i as nat, half_item()) == Ok::<int, Error>(pos),
            forall|j: int| 0 <= j < i ==> half_read(s.skip(item_at(s, 4, j as nat, half_item())), #[trigger] v@[j]),
        decreases count - i,
    {
        proof {
            reveal(counted);
        }
        let ghost before = pos;
        let x = read_half_transition(r)?;
        proof {
            lemma_items_step(s, 4, i as nat, half_item());
            let n = half_len(s.skip(before))->Ok_0;
            lemma_skip2(s, before, n as int);
            pos = before + n as int;
        }
        v.push(x);
        i = i + 1;
    }
    Ok(v)
}

fn read_animation_resources(r: &mut Reader) -> (res: Result<Vec<AnimationResource>, Error>)
    requires
        old(r).wf(),
    ensures
        final(r).wf(),
        final(r).data == old(r).data,
        outcome(res, counted(old(r)@, fixed8_item()), old(r)@, final(r)@),
        res is Ok ==> res->Ok_0@.len() == be_u32(old(r)@),
        res is Ok ==> forall|i: int|
            0 <= i < res->Ok_0@.len() ==> resource_read(old(r)@.skip(item_at(old(r)@, 4, i as nat, fixed8_item())), #[trigger] res->Ok_0@[i]),
{
    proof {
        reveal(counted);
    }
    let ghost s = old(r)@;
    let count = r.read_u32()?;
    let ghost mut pos: int = 4;
    let mut v: Vec<AnimationResource> = Vec::new();
    let mut i: u32 = 0;
    while i < count
        invariant
            r.wf(),
            r.data == old(r).data,
            s == old(r)@,
            s.len() >= 4,
            count == be_u32(s),
            i <= count,
            v@.len() == i,
            0 <= pos <= s.len(),
            r@ == s.skip(pos),
            items_from(s, 4, count as nat, fixed8_item()) == items_from(s, pos, (count - i) as nat, fixed8_item()),
            items_from(s, 4, i as nat, fixed8_item()) == Ok::<int, Error>(pos),
            forall|j: int| 0 <= j < i ==> resource_read(s.skip(item_at(s, 4, j as nat, fixed8_item())), #[trigger] v@[j]),
        decreases count - i,
    {
        proof {
            reveal(counted);
        }
        let ghost before = pos;
        let x = read_resource(r)?;
        proof {
            lemma_items_step(s, 4, i as nat, fixed8_item());
            let n = fixed8(s.skip(before))->Ok_0;
            lemma_skip2(s, before, n as int);
            pos = before + n as int;
        }
        v.push(x);
        i = i + 1;
    }
    Ok(v)
}

/// An animation set up to its version-dependent tail: the version, the
/// animations, the transitions and the default transition; where that part
/// ends, or why it cannot be read.
pub open spec fn anim_set_head(s: Seq<u8>) -> Result<int, Error> {
    let v = be_u16(s);
    if s.len() < 2 {
        Err(Error::Truncated)
    } else if v < 2 || v > 4 {
        Err(Error::UnexpectedFormat { context: Field::AnimationSetVersion, value: v as u32 })
    } else {
        match counted(s.skip(2), animation_item()) {
            Err(e) => Err(e),
            Ok(a) => match counted(s.skip(2 + a as int), transition_item()) {
                Err(e) => Err(e),
                Ok(b) => match meta_transition_len(s.skip(2 + a as int + b as int)) {
                    Err(e) => Err(e),
                    Ok(c) => Ok(2 + a as int + b as int + c as int),
                },
            },
        }
    }
}

/// One of the counts that end a version-2 set: it must be zero.
pub open spec fn empty_count(s: Seq<u8>) -> Result<nat, Error> {
    if s.len() < 4 {
        Err(Error::Truncated)
    } else if be_u32(s) != 0 {
        Err(Error::UnexpectedFormat { context: Field::AnimationSetCount, value: be_u32(s) })
    } else {
        Ok(4)
    }
}

/// The tail of an animation set of version `v` at the start of `t`: for
/// version 2 three zero counts; otherwise the additive animations, from
/// version 4 the default fade times, the half transitions and the resources.
pub open spec fn anim_set_tail(t: Seq<u8>, v: u16) -> Result<nat, Error> {
    if v == 2 {
        match empty_count(t) {
            Err(e) => Err(e),
            Ok(_) => match empty_count(t.skip(4)) {
                Err(e) => Err(e),
                Ok(_) => match empty_count(t.skip(8)) {
                    Err(e) => Err(e),
                    Ok(_) => Ok(12),
                },
            },
        }
    } else {
        match counted(t, fixed12_item()) {
            Err(e) => Err(e),
            Ok(d) => {
                let f: int = if v >= 4 { 8 } else { 0 };
                if t.len() < d + f {
                    Err(Error::Truncated)
                } else {
                    match counted(t.skip(d + f), half_item()) {
                        Err(e) => Err(e),
                        Ok(h) => match counted(t.skip(d + f + h), fixed8_item()) {
                            Err(e) => Err(e),
                            Ok(g) => Ok((d + f + h + g) as nat),
                        },
                    }
                }
            },
        }
    }
}

pub open spec fn anim_set_len(s: Seq<u8>) -> Result<nat, Error> {
    match anim_set_head(s) {
        Err(e) => Err(e),
        Ok(p) => match anim_set_tail(s.skip(p), be_u16(s)) {
            Err(e) => Err(e),
            Ok(n) => Ok((p + n) as nat),
        },
    }
}

/// The animations, transitions and default transition of the animation set
/// at the start of `s`, each as its record says.
pub open spec fn anim_set_head_read(s: Seq<u8>, anims: Seq<Animation>, trans: Seq<Transition>, default: MetaTransition) -> bool {
    let h2 = s.skip(2);
    let na = counted(h2, animation_item())->Ok_0 as int;
    let tr = s.skip(2 + na);
    let nt = counted(tr, transition_item())->Ok_0 as int;
    &&& anims.len() == be_u32(h2)
    &&& forall|i: int| 0 <= i < anims.len() ==> animation_read(h2.skip(item_at(h2, 4, i as nat, animation_item())), #[trigger] anims[i])
    &&& trans.len() == be_u32(tr)
    &&& forall|i: int| 0 <= i < trans.len() ==> transition_read(tr.skip(item_at(tr, 4, i as nat, transition_item())), #[trigger] trans[i])
    &&& meta_transition_read(s.skip(2 + na + nt), default)
}

/// Animation set `a` holds what the record at the start of `s` says.
pub open spec fn anim_set_read(s: Seq<u8>, a: AnimationSet) -> bool {
    let t = s.skip(anim_set_head(s)->Ok_0);
    let d = counted(t, fixed12_item())->Ok_0 as int;
    let f: int = if a.version >= 4 { 8 } else { 0 };
    let hl = counted(t.skip(d + f), half_item())->Ok_0 as int;
    let h2 = s.skip(2);
    let na = counted(h2, animation_item())->Ok_0 as int;
    let tr = s.skip(2 + na);
    let nt = counted(tr, transition_item())->Ok_0 as int;
    &&& anim_set_head_read(s, a.animations@, a.transitions@, a.default_transition)
    &&& (a.version != 2 ==> {
        &&& a.additive_animations@.len() == be_u32(t)
        &&& (forall|i: int|
            0 <= i < a.additive_animations@.len() ==> additive_read(t.skip(item_at(t, 4, i as nat, fixed12_item())), #[trigger] a.additive_animations@[i]))
        &&& a.half_transitions@.len() == be_u32(t.skip(d + f))
        &&& (forall|i: int|
            0 <= i < a.half_transitions@.len() ==> half_read(
                t.skip(d + f).skip(item_at(t.skip(d + f), 4, i as nat, half_item())),
                #[trigger] a.half_transitions@[i],
            ))
        &&& a.animation_resources@.len() == be_u32(t.skip(d + f + hl))
        &&& (forall|i: int|
            0 <= i < a.animation_resources@.len() ==> resource_read(
                t.skip(d + f + hl).skip(item_at(t.skip(d + f + hl), 4, i as nat, fixed8_item())),
                #[trigger] a.animation_resources@[i],
            ))
    })
    &&& a.version == be_u16(s)
    &&& 2 <= a.version <= 4
    &&& a.animations@.len() == be_u32(s.skip(2))
    &&& (a.version == 2 ==> a.additive_animations@.len() == 0 && a.half_transitions@.len() == 0
        && a.animation_resources@.len() == 0)
    &&& (a.version == 4 ==> a.default_additive_fade_in_time == Some(be_u32(t.skip(d))) && a.default_additive_fade_out_time
        == Some(be_u32(t.skip(d + 4))))
    &&& (a.version != 4 ==> a.default_additive_fade_in_time is None && a.default_additive_fade_out_time is None)
}

/// Reads one of the three counts that a version-2 animation set ends with;
/// only zero is understood.
fn read_empty_count(r: &mut Reader) -> (res: Result<(), Error>)
    requires
        old(r).wf(),
    ensures
        final(r).wf(),
        final(r).data == old(r).data,
        outcome(res, empty_count(old(r)@), old(r)@, final(r)@),
{
    let count = r.read_u32()?;
    if count != 0 {
        return Err(Error::UnexpectedFormat { context: Field::AnimationSetCount, value: count });
    }
    Ok(())
}

fn read_anim_set_head(r: &mut Reader) -> (res: Result<(u16, Vec<Animation>, Vec<Transition>, MetaTransition), Error>)
    requires
        old(r).wf(),
    ensures
        final(r).wf(),
        final(r).data == old(r).data,
        match anim_set_head(old(r)@) {
            Ok(p) => res is Ok && p <= old(r)@.len() && final(r)@ == old(r)@.skip(p) && res->Ok_0.0 == be_u16(old(r)@)
                && res->Ok_0.1@.len() == be_u32(old(r)@.skip(2)) && anim_set_head_read(
                old(r)@,
                res->Ok_0.1@,
                res->Ok_0.2@,
                res->Ok_0.3,
            ),
            Err(e) => res is Err && res->Err_0 == e,
        },
{
    let ghost s = old(r)@;
    let version = r.read_u16()?;
    if version < 2 || version > 4 {
        return Err(Error::UnexpectedFormat { context: Field::AnimationSetVersion, value: version as u32 });
    }
    let animations = read_animations(r)?;
    let ghost a = counted(s.skip(2), animation_item())->Ok_0 as int;
    proof {
        lemma_skip2(s, 2, a);
    }
    let transitions = read_transitions(r)?;
    let ghost b = counted(s.skip(2 + a), transition_item())->Ok_0 as int;
    assert(s.skip(2).skip(a) =~= s.skip(2 + a));
    proof {
        lemma_skip2(s, 2 + a, b);
    }
    let default_transition = MetaTransition::read_from(r)?;
    proof {
        lemma_skip2(s, 2 + a + b, meta_transition_len(s.skip(2 + a + b))->Ok_0 as int);
    }
    Ok((version, animations, transitions, default_transition))
}

impl AnimationSet {
    /// Decodes an animation set of version 2, 3 or 4; version 2 ends after
    /// three counts that must be zero, and version 4 adds default fade times.
    #[verifier::rlimit(100)]
    pub fn read_from(r: &mut Reader) -> (res: Result<AnimationSet, Error>)
        requires
            old(r).wf(),
        ensures
            final(r).wf(),
            final(r).data == old(r).data,
            outcome(res, anim_set_len(old(r)@), old(r)@, final(r)@),
            res is Ok ==> anim_set_read(old(r)@, res->Ok_0),
    {
        let ghost s = old(r)@;
        let (version, animations, transitions, default_transition) = read_anim_set_head(r)?;
        let ghost p = anim_set_head(s)->Ok_0;
        let ghost t = s.skip(p);
        if version == 2 {
            read_empty_count(r)?;
            proof {
                lemma_skip2(t, 0, 4);
                assert(t.skip(0) =~= t);
            }
            read_empty_count(r)?;
            assert(t.skip(4).skip(4) =~= t.skip(8));
            read_empty_count(r)?;
            proof {
                assert(t.skip(8).skip(4) =~= t.skip(12));
                lemma_skip2(s, p, 12);
            }
            return Ok(AnimationSet {
                version,
                animations,
                transitions,
                default_transition,
                additive_animations: Vec::new(),
                default_additive_fade_in_time: None,
                default_additive_fade_out_time: None,
                half_transitions: Vec::new(),
                animation_resources: Vec::new(),
            });
        }
        let additive_animations = read_additive_animations(r)?;
        let ghost d = counted(t, fixed12_item())->Ok_0 as int;
        let mut default_additive_fade_in_time: Option<u32> = None;
        let mut default_additive_fade_out_time: Option<u32> = None;
        let ghost mut f: int = 0;
        if version >= 4 {
            default_additive_fade_in_time = Some(r.read_u32()?);
            assert(t.skip(d).skip(4) =~= t.skip(d + 4));
            default_additive_fade_out_time = Some(r.read_u32()?);
            assert(t.skip(d + 4).skip(4) =~= t.skip(d + 8));
            proof {
                f = 8;
            }
        }
        let half_transitions = read_half_transitions(r)?;
        let ghost h = counted(t.skip(d + f), half_item())->Ok_0 as int;
        proof {
            lemma_skip2(t, d + f, h);
        }
        let animation_resources = read_animation_resources(r)?;
        proof {
            let g = counted(t.skip(d + f + h), fixed8_item())->Ok_0 as int;
            lemma_skip2(t, d + f + h, g);
            lemma_skip2(s, p, d + f + h + g);
        }
        Ok(AnimationSet {
            version,
            animations,
            transitions,
            default_transition,
            additive_animations,
            default_additive_fade_in_time,
            default_additive_fade_out_time,
            half_transitions,
            animation_resources,
        })
    }
}

/// An animated character resource: a version that must be 1, the character
/// set, then the animation set.
pub open spec fn ancs_result(s: Seq<u8>) -> Result<(), Error> {
    if s.len() < 2 {
        Err(Error::Truncated)
    } else if be_u16(s) != 1 {
        Err(Error::UnexpectedFormat { context: Field::AnimationResourceVersion, value: be_u16(s) as u32 })
    } else {
        match character_set_len(s.skip(2)) {
            Err(e) => Err(e),
            Ok(n) => match anim_set_len(s.skip(2 + n as int)) {
                Err(e) => Err(e),
                Ok(_) => Ok(()),
            },
        }
    }
}

impl Ancs {
    /// Decodes an animated character resource: a version that must be 1,
    /// then the character set and the animation set.
    pub fn read_from(data: &[u8]) -> (res: Result<Ancs, Error>)
        ensures
            match ancs_result(data@) {
                Ok(_) => res is Ok,
                Err(e) => res is Err && res->Err_0 == e,
            },
            res is Ok ==> res->Ok_0.character_set.version == 1,
            res is Ok ==> 2 <= res->Ok_0.animation_set.version <= 4,
            res is Ok ==> character_set_read(data@.skip(2), res->Ok_0.character_set),
            res is Ok ==> anim_set_read(data@.skip(2 + character_set_len(data@.skip(2))->Ok_0 as int), res->Ok_0.animation_set),
            res is Ok ==> forall|i: int|
                0 <= i < res->Ok_0.character_set.characters@.len() ==> (#[trigger] res->Ok_0.character_set.characters@[i]).version <= 6,
    {
        let ghost s = data@;
        let mut r = Reader::new(data);
        let version = r.read_u16()?;
        if version != 1 {
            return Err(Error::UnexpectedFormat { context: Field::AnimationResourceVersion, value: version as u32 });
        }
        let character_set = CharacterSet::read_from(&mut r)?;
        proof {
            lemma_skip2(s, 2, character_set_len(s.skip(2))->Ok_0 as int);
        }
        let animation_set = AnimationSet::read_from(&mut r)?;
        Ok(Ancs { character_set, animation_set })
    }
}

} // verus!
