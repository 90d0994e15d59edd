//! The bind group layout of a render pipeline, merged from the bind group
//! tables of its vertex and fragment entry points, and the helpers that the
//! generated constants use.
use vstd::prelude::*;
use vstd::slice::slice_subrange;
use crate::entry::{BindGroupsPlan, BindingEdit, BindingType, MAX_SETS, Stage};

verus! {

/// The larger of two sizes.
pub fn __const_max(a: usize, b: usize) -> (r: usize)
    ensures
        r == if a > b {
            a
        } else {
            b
        },
{
    if a > b {
        a
    } else {
        b
    }
}

/// The first `len` elements of `array`.
pub fn __const_slice<const N: usize, T>(array: &[T; N], len: usize) -> (r: &[T])
    requires
        len <= N,
    ensures
        r@ == array@.subrange(0, len as int),
{
    slice_subrange(array.as_slice(), 0, len)
}

/// The number of bindings a descriptor set has room for.
pub const MAX_BINDINGS: usize = 8;

/// The shader stages that see a binding.
#[derive(Debug, Clone, Copy, PartialEq, Eq, Structural)]
pub struct ShaderStages {
    pub vertex: bool,
    pub fragment: bool,
}

/// The resource of a layout entry; `Unset` for an entry no edit reached
/// (which the layout gives an external-texture placeholder).
#[derive(Debug, Clone, Copy, PartialEq, Eq, Structural)]
pub enum EntryType {
    Unset,
    Bound(BindingType),
}

/// One entry of a bind group layout.
#[derive(Debug, Clone, Copy, PartialEq, Eq, Structural)]
pub struct LayoutEntry {
    pub binding: u32,
    pub visibility: ShaderStages,
    pub ty: EntryType,
}

pub open spec fn initial_entry() -> LayoutEntry {
    LayoutEntry {
        binding: 0,
        visibility: ShaderStages { vertex: false, fragment: false },
        ty: EntryType::Unset,
    }
}

pub open spec fn with_stage(v: ShaderStages, stage: Stage) -> ShaderStages {
    match stage {
        Stage::Vertex => ShaderStages { vertex: true, fragment: v.fragment },
        Stage::Fragment => ShaderStages { vertex: v.vertex, fragment: true },
    }
}

/// Entry `b` after the edits `edits`, made by a stage `stage`, in order.
pub open spec fn apply_edits(e: LayoutEntry, b: nat, edits: Seq<BindingEdit>, stage: Stage) -> LayoutEntry
    decreases edits.len(),
{
    if edits.len() == 0 {
        e
    } else {
        let before = apply_edits(e, b, edits.drop_last(), stage);
        let last = edits.last();
        if last.binding == b {
            LayoutEntry {
                binding: last.binding,
                visibility: with_stage(before.visibility, stage),
                ty: EntryType::Bound(last.ty->Ok_0),
            }
        } else {
            before
        }
    }
}

/// Entry `b` of set `s` in the pipeline: the vertex stage's edits of the set,
/// then the fragment stage's.
pub open spec fn merged_entry(vertex: BindGroupsPlan, fragment: BindGroupsPlan, s: int, b: nat) -> LayoutEntry {
    apply_edits(
        apply_edits(initial_entry(), b, vertex.sets@[s]@, vertex.stage),
        b,
        fragment.sets@[s]@,
        fragment.stage,
    )
}

pub open spec fn max_nat(a: nat, b: nat) -> nat {
    if a > b {
        a
    } else {
        b
    }
}

/// A stage's table that the layout can be built from: every edit binds a
/// known resource at a binding, and no set has more edits, than a set has
/// room for.
pub open spec fn table_fits(p: BindGroupsPlan) -> bool {
    &&& p.sets@.len() == MAX_SETS
    &&& p.total <= MAX_BINDINGS
    &&& forall|s: int| 0 <= s < MAX_SETS ==> (#[trigger] p.sets@[s])@.len() <= MAX_BINDINGS
    &&& forall|s: int, k: int|
        0 <= s < MAX_SETS && 0 <= k < p.sets@[s]@.len() ==> {
            &&& (#[trigger] p.sets@[s]@[k]).binding < MAX_BINDINGS
            &&& p.sets@[s]@[k].ty is Ok
        }
}

fn apply_set(e: LayoutEntry, b: u32, edits: &Vec<BindingEdit>, stage: Stage) -> (r: LayoutEntry)
    requires
        forall|k: int| 0 <= k < edits@.len() ==> (#[trigger] edits@[k]).ty is Ok,
    ensures
        r == apply_edits(e, b as nat, edits@, stage),
{
    let mut cur = e;
    let mut k: usize = 0;
    assert(edits@.subrange(0, 0) =~= Seq::<BindingEdit>::empty());
    while k < edits.len()
        invariant
            k <= edits@.len(),
            forall|j: int| 0 <= j < edits@.len() ==> (#[trigger] edits@[j]).ty is Ok,
            cur == apply_edits(e, b as nat, edits@.subrange(0, k as int), stage),
        decreases edits@.len() - k,
    {
        let ghost next = edits@.subrange(0, k + 1);
        assert(next.drop_last() =~= edits@.subrange(0, k as int));
        assert(next.last() == edits@[k as int]);
        let edit = &edits[k];
        if edit.binding == b {
            let ty = match &edit.ty {
                Ok(t) => *t,
                Err(_) => {
                    assert(false);
                    BindingType::UniformBuffer
                },
            };
            let visibility = match stage {
                Stage::Vertex => ShaderStages { vertex: true, fragment: cur.visibility.fragment },
                Stage::Fragment => ShaderStages { vertex: cur.visibility.vertex, fragment: true },
            };
            cur = LayoutEntry { binding: edit.binding, visibility, ty: EntryType::Bound(ty) };
        }
        k = k + 1;
    }
    assert(edits@.subrange(0, k as int) =~= edits@);
    cur
}

/// The bind group layouts of a pipeline: as many sets as the larger of the
/// two stages' totals, each as long as the longer of the two stages' edit
/// lists for it, every entry with the edits of both stages applied.
pub fn pipeline_bind_groups(vertex: &BindGroupsPlan, fragment: &BindGroupsPlan) -> (r: Vec<Vec<LayoutEntry>>)
    requires
        table_fits(*vertex),
        table_fits(*fragment),
    ensures
        r@.len() == max_nat(vertex.total as nat, fragment.total as nat),
        forall|s: int|
            0 <= s < r@.len() ==> (#[trigger] r@[s])@.len() == max_nat(
                vertex.sets@[s]@.len(),
                fragment.sets@[s]@.len(),
            ),
        forall|s: int, b: int|
            0 <= s < r@.len() && 0 <= b < r@[s]@.len() ==> #[trigger] r@[s]@[b] == merged_entry(
                *vertex,
                *fragment,
                s,
                b as nat,
            ),
{
    let size = __const_max(vertex.total, fragment.total);
    let mut out: Vec<Vec<LayoutEntry>> = Vec::new();
    let mut s: usize = 0;
    while s < size
        invariant
            table_fits(*vertex),
            table_fits(*fragment),
            size == max_nat(vertex.total as nat, fragment.total as nat),
            size <= MAX_SETS,
            s <= size,
            out@.len() == s,
            forall|t: int|
                0 <= t < s ==> (#[trigger] out@[t])@.len() == max_nat(
                    vertex.sets@[t]@.len(),
                    fragment.sets@[t]@.len(),
                ),
            forall|t: int, b: int|
                0 <= t < s && 0 <= b < out@[t]@.len() ==> #[trigger] out@[t]@[b] == merged_entry(
                    *vertex,
                    *fragment,
                    t,
                    b as nat,
                ),
        decreases size - s,
    {
        let ve = &vertex.sets[s];
        let fe = &fragment.sets[s];
        let len = __const_max(ve.len(), fe.len());
        let mut set: Vec<LayoutEntry> = Vec::new();
        let mut b: usize = 0;
        while b < len
            invariant
                table_fits(*vertex),
                table_fits(*fragment),
                s < MAX_SETS,
                ve == &vertex.sets@[s as int],
                fe == &fragment.sets@[s as int],
                len <= MAX_BINDINGS,
                b <= len,
                set@.len() == b,
                forall|c: int| 0 <= c < b ==> #[trigger] set@[c] == merged_entry(*vertex, *fragment, s as int, c as nat),
            decreases len - b,
        {
            assert forall|k: int| 0 <= k < ve@.len() implies (#[trigger] ve@[k]).ty is Ok by {
                assert(vertex.sets@[s as int]@[k].ty is Ok);
            }
            assert forall|k: int| 0 <= k < fe@.len() implies (#[trigger] fe@[k]).ty is Ok by {
                assert(fragment.sets@[s as int]@[k].ty is Ok);
            }
            let init = LayoutEntry {
                binding: 0,
                visibility: ShaderStages { vertex: false, fragment: false },
                ty: EntryType::Unset,
            };
            let after_vertex = apply_set(init, b as u32, ve, vertex.stage);
            let entry = apply_set(after_vertex, b as u32, fe, fragment.stage);
            set.push(entry);
            b = b + 1;
        }
        out.push(set);
        s = s + 1;
    }
    out
}

/// Across the two stages, a binding is seen by exactly the stages whose
/// parameters bind it, and it binds what the last edit (the fragment
/// stage's, if any) gives.
pub proof fn lemma_merged_visibility(
    vertex: BindGroupsPlan,
    fragment: BindGroupsPlan,
    s: int,
    b: nat,
)
    requires
        table_fits(vertex),
        table_fits(fragment),
        0 <= s < MAX_SETS,
    ensures
        ({
            let e = merged_entry(vertex, fragment, s, b);
            let in_v = exists|k: int| 0 <= k < vertex.sets@[s]@.len() && (#[trigger] vertex.sets@[s]@[k]).binding == b;
            let in_f = exists|k: int| 0 <= k < fragment.sets@[s]@.len() && (#[trigger] fragment.sets@[s]@[k]).binding == b;
            &&& e.visibility.vertex == ((in_v && vertex.stage == Stage::Vertex) || (in_f && fragment.stage == Stage::Vertex))
            &&& e.visibility.fragment == ((in_v && vertex.stage == Stage::Fragment) || (in_f && fragment.stage == Stage::Fragment))
            &&& (in_v || in_f) <==> e.ty is Bound
            &&& (in_v || in_f) ==> e.binding == b
        }),
{
    lemma_apply_edits(initial_entry(), b, vertex.sets@[s]@, vertex.stage);
    lemma_apply_edits(apply_edits(initial_entry(), b, vertex.sets@[s]@, vertex.stage), b, fragment.sets@[s]@, fragment.stage);
}

/// What a run of edits does to one entry: the stage is added when some edit
/// names the entry's binding, which the entry then takes, with a resource.
proof fn lemma_apply_edits(e: LayoutEntry, b: nat, edits: Seq<BindingEdit>, stage: Stage)
    ensures
        ({
            let r = apply_edits(e, b, edits, stage);
            let hit = exists|k: int| 0 <= k < edits.len() && (#[trigger] edits[k]).binding == b;
            &&& r.visibility == if hit { with_stage(e.visibility, stage) } else { e.visibility }
            &&& hit ==> r.ty is Bound && r.binding == b
            &&& !hit ==> r == e
            &&& hit ==> last_naming(edits, b, r)
        }),
    decreases edits.len(),
{
    if edits.len() > 0 {
        let rest = edits.drop_last();
        lemma_apply_edits(e, b, rest, stage);
        let hit_rest = exists|k: int| 0 <= k < rest.len() && (#[trigger] rest[k]).binding == b;
        let hit = exists|k: int| 0 <= k < edits.len() && (#[trigger] edits[k]).binding == b;
        if hit_rest {
            let k = choose|k: int| 0 <= k < rest.len() && (#[trigger] rest[k]).binding == b;
            assert(edits[k] == rest[k]);
        }
        if hit && !hit_rest {
            let k = choose|k: int| 0 <= k < edits.len() && (#[trigger] edits[k]).binding == b;
            if k < rest.len() {
                assert(rest[k] == edits[k]);
            }
        }
        if edits.last().binding == b {
            assert(edits[edits.len() - 1] == edits.last());
        } else if hit_rest {
            let r0 = apply_edits(e, b, rest, stage);
            let k = choose|k: int|
                0 <= k < rest.len() && (#[trigger] rest[k]).binding == b && r0.ty == EntryType::Bound(rest[k].ty->Ok_0)
                    && forall|j: int| k < j < rest.len() ==> (#[trigger] rest[j]).binding != b;
            assert(edits[k] == rest[k]);
            assert forall|j: int| k < j < edits.len() implies (#[trigger] edits[j]).binding != b by {
                if j < rest.len() {
                    assert(edits[j] == rest[j]);
                } else {
                    assert(edits[j] == edits.last());
                }
            }
        }
    }
}

/// The entry binds the resource of the last edit among `edits` that names
/// binding `b`.
pub open spec fn last_naming(edits: Seq<BindingEdit>, b: nat, r: LayoutEntry) -> bool {
    exists|k: int|
        0 <= k < edits.len() && (#[trigger] edits[k]).binding == b && r.ty == EntryType::Bound(edits[k].ty->Ok_0)
            && forall|j: int| k < j < edits.len() ==> (#[trigger] edits[j]).binding != b
}

/// Across the two stages, a binding binds the resource of the last edit
/// that names it: the fragment stage's last such edit if it has one, else
/// the vertex stage's; which edit comes first in a stage's list does not
/// matter.
pub proof fn lemma_merged_resource(vertex: BindGroupsPlan, fragment: BindGroupsPlan, s: int, b: nat)
    requires
        table_fits(vertex),
        table_fits(fragment),
        0 <= s < MAX_SETS,
    ensures
        ({
            let e = merged_entry(vertex, fragment, s, b);
            let fe = fragment.sets@[s]@;
            let ve = vertex.sets@[s]@;
            let in_f = exists|k: int| 0 <= k < fe.len() && (#[trigger] fe[k]).binding == b;
            let in_v = exists|k: int| 0 <= k < ve.len() && (#[trigger] ve[k]).binding == b;
            &&& in_f ==> last_naming(fe, b, e)
            &&& !in_f && in_v ==> last_naming(ve, b, e)
            &&& !in_f && !in_v ==> e.ty == EntryType::Unset
        }),
{
    let after_v = apply_edits(initial_entry(), b, vertex.sets@[s]@, vertex.stage);
    lemma_apply_edits(initial_entry(), b, vertex.sets@[s]@, vertex.stage);
    lemma_apply_edits(after_v, b, fragment.sets@[s]@, fragment.stage);
}

} // verus!
