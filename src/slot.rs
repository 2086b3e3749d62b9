//! Slot names: the short folder names under the deployment root that the
//! game loader walks in ascending order.
use vstd::prelude::*;
use crate::descriptor::ModData;
use crate::registry::mods_view;
use crate::descriptor::ModView;
use crate::text::{char_from_u32, is_scalar_value, push_char};

verus! {

/// The character one code point above `c`, or `c` itself where no scalar
/// value follows it.
pub open spec fn next_char(c: char) -> char {
    if (c as u32) < 0x10FFFF && is_scalar_value((c as u32 + 1) as u32) {
        ((c as u32 + 1) as u32) as char
    } else {
        c
    }
}

/// Every character of `s` moved up by one code point, each on its own: no
/// carry from one position to the next and no change of length.
pub open spec fn next_name(s: Seq<char>) -> Seq<char> {
    s.map_values(|c: char| next_char(c))
}

/// Moves a character up by one code point, keeping it where that is no
/// character.
pub fn add1_char(c: char) -> (r: char)
    ensures
        r == next_char(c),
{
    let n = c as u32;
    if n < 0x10FFFF {
        match char_from_u32(n + 1) {
            Some(d) => d,
            None => c,
        }
    } else {
        c
    }
}

/// Moves every character of `s` up by one code point, independently.
pub fn add1_str(s: &str) -> (r: String)
    ensures
        r@ == next_name(s@),
{
    let len = s.unicode_len();
    let mut r = String::new();
    let mut i: usize = 0;
    while i < len
        invariant
            len == s@.len(),
            i <= len,
            r@ == next_name(s@.subrange(0, i as int)),
        decreases len - i,
    {
        let c = s.get_char(i);
        push_char(&mut r, add1_char(c));
        assert(next_name(s@.subrange(0, i + 1)) =~= next_name(s@.subrange(0, i as int)).push(
            next_char(c),
        ));
        i = i + 1;
    }
    assert(s@.subrange(0, len as int) =~= s@);
    r
}

/// Number of code points; one flag per code point marks a taken slot.
pub const CODE_POINTS: usize = 0x110000;

/// Searching upward from `c` for a free one-character slot: the first free
/// character, or `None` where incrementing stops at a taken one.
pub open spec fn slot_search(used: Seq<bool>, c: char) -> Option<char>
    decreases 0x110000 - (c as u32) as int,
{
    if !used[c as u32 as int] {
        Some(c)
    } else if next_char(c) == c {
        None
    } else if (c as u32) < 0x10FFFF {
        slot_search(used, next_char(c))
    } else {
        None
    }
}

/// The slots taken under a deployment root, one flag per code point; only
/// one-character names can ever be handed out, so only they are recorded.
pub struct SlotTable {
    used: Vec<bool>,
}

impl SlotTable {
    pub closed spec fn flags(&self) -> Seq<bool> {
        self.used@
    }

    pub open spec fn wf(&self) -> bool {
        self.flags().len() == CODE_POINTS
    }

    /// Whether `c` names a taken slot.
    pub open spec fn taken(&self, c: char) -> bool {
        self.flags()[c as u32 as int]
    }

    /// The table of a deployment root holding directories with these names:
    /// a slot is taken exactly when one of them is that one character.
    pub fn from_names(existing: &Vec<String>) -> (r: SlotTable)
        ensures
            r.wf(),
            forall|k: int|
                0 <= k < CODE_POINTS && #[trigger] r.flags()[k] ==> exists|i: int|
                    0 <= i < existing@.len() && (#[trigger] existing@[i]@).len() == 1
                        && existing@[i]@[0] as u32 as int == k,
            forall|i: int|
                0 <= i < existing@.len() && (#[trigger] existing@[i]@).len() == 1 ==> r.taken(
                    existing@[i]@[0],
                ),
    {
        let mut used: Vec<bool> = Vec::new();
        while used.len() < CODE_POINTS
            invariant
                used@.len() <= CODE_POINTS,
                forall|k: int| 0 <= k < used@.len() ==> !used@[k],
            decreases CODE_POINTS - used.len(),
        {
            used.push(false);
        }
        let mut i: usize = 0;
        while i < existing.len()
            invariant
                i <= existing@.len(),
                used@.len() == CODE_POINTS,
                forall|k: int|
                    0 <= k < CODE_POINTS && #[trigger] used@[k] ==> exists|j: int|
                        0 <= j < i && (#[trigger] existing@[j]@).len() == 1 && existing@[j]@[0] as u32
                            as int == k,
                forall|j: int|
                    0 <= j < i && (#[trigger] existing@[j]@).len() == 1 ==> (existing@[j]@[0] as u32)
                        < 0x110000 && used@[existing@[j]@[0] as u32 as int],
            decreases existing.len() - i,
        {
            let name = existing[i].as_str();
            let ghost before = used@;
            assert(name@ == existing@[i as int]@);
            if name.unicode_len() == 1 {
                let c = name.get_char(0);
                used.set(c as u32 as usize, true);
                assert(existing@[i as int]@ =~= seq![c]);
                assert(used@ == before.update(c as u32 as int, true));
                assert forall|j: int|
                    0 <= j < i + 1 && (#[trigger] existing@[j]@).len() == 1 implies (existing@[j]@[0] as u32)
                        < 0x110000 && used@[existing@[j]@[0] as u32 as int] by {
                    let x = existing@[j]@[0];
                    if j < i {
                        assert(before[x as u32 as int]);
                        assert(used@[x as u32 as int]);
                    } else {
                        assert(x == c);
                        assert(used@[c as u32 as int]);
                    }
                }
                assert forall|k: int| 0 <= k < CODE_POINTS && #[trigger] used@[k] implies exists|j: int|
                    0 <= j < i + 1 && (#[trigger] existing@[j]@).len() == 1 && existing@[j]@[0] as u32
                        as int == k by {
                    if k != c as u32 as int {
                        assert(before[k]);
                    } else {
                        assert(existing@[i as int]@.len() == 1);
                    }
                }
            }
            i = i + 1;
        }
        let ghost u = used@;
        let r = SlotTable { used };
        assert(r.flags() == u);
        r
    }

    /// Hands out the first free slot name, searching upward from "a" with
    /// `add1_str`, and marks it taken; `None` where the names run out.
    pub fn allocate(&mut self) -> (r: Option<String>)
        requires
            old(self).wf(),
        ensures
            final(self).wf(),
            match slot_search(old(self).flags(), 'a') {
                Some(c) => r matches Some(s) && s@ == seq![c] && final(self).flags() == old(
                    self,
                ).flags().update(c as u32 as int, true),
                None => r is None && final(self).flags() == old(self).flags(),
            },
    {
        let mut c: char = 'a';
        let mut cand = String::new();
        push_char(&mut cand, 'a');
        while self.used[c as u32 as usize]
            invariant
                self.wf(),
                self.flags() == old(self).flags(),
                cand@ == seq![c],
                slot_search(self.flags(), c) == slot_search(self.flags(), 'a'),
            decreases 0x110000 - c as u32,
        {
            let next = add1_str(cand.as_str());
            assert(next@ =~= seq![next_char(c)]);
            if next == cand {
                assert(next_char(c) == next@[0]);
                return None;
            }
            assert(next_char(c) != c);
            assert((((c as u32 + 1) as u32) as char) as u32 == c as u32 + 1);
            c = next.as_str().get_char(0);
            cand = next;
        }
        self.used.set(c as u32 as usize, true);
        Some(cand)
    }
}

/// Where one mod of a deployment goes: the mod's position in the list and
/// its slot, or `None` where no slot name was left for it.
#[derive(Clone, Debug)]
pub struct Placement {
    pub index: usize,
    pub slot: Option<String>,
}

pub open spec fn placement_view(p: Placement) -> (int, Option<Seq<char>>) {
    (
        p.index as int,
        match p.slot {
            Some(s) => Some(s@),
            None => None,
        },
    )
}

pub open spec fn placements_view(v: Seq<Placement>) -> Seq<(int, Option<Seq<char>>)> {
    v.map_values(|p: Placement| placement_view(p))
}

/// The placements of the last `k` mods of the list, walked from the bottom
/// up, with the slot flags they leave: each enabled mod takes the first free
/// slot from "a" upward.
pub open spec fn plan_spec(mods: Seq<ModView>, used: Seq<bool>, k: nat) -> (
    Seq<(int, Option<Seq<char>>)>,
    Seq<bool>,
)
    decreases k,
{
    if k == 0 || k > mods.len() {
        (Seq::empty(), used)
    } else {
        let prev = plan_spec(mods, used, (k - 1) as nat);
        let i = mods.len() - k;
        if mods[i].enabled {
            match slot_search(prev.1, 'a') {
                Some(c) => (prev.0.push((i, Some(seq![c]))), prev.1.update(c as u32 as int, true)),
                None => (prev.0.push((i, None)), prev.1),
            }
        } else {
            prev
        }
    }
}

/// Plans a deployment: walks the list from the bottom (lowest priority) to
/// the top and gives each enabled mod the next free slot, so that the mod at
/// the top gets the last slot and wins conflicts in the loader.
pub fn plan_deployment(mods: &Vec<ModData>, slots: &mut SlotTable) -> (r: Vec<Placement>)
    requires
        old(slots).wf(),
    ensures
        final(slots).wf(),
        (placements_view(r@), final(slots).flags()) == plan_spec(
            mods_view(mods@),
            old(slots).flags(),
            mods@.len(),
        ),
{
    let ghost mv = mods_view(mods@);
    let mut r: Vec<Placement> = Vec::new();
    let mut k: usize = 0;
    assert(placements_view(r@) =~= Seq::<(int, Option<Seq<char>>)>::empty());
    while k < mods.len()
        invariant
            k <= mods@.len(),
            mv == mods_view(mods@),
            slots.wf(),
            (placements_view(r@), slots.flags()) == plan_spec(mv, old(slots).flags(), k as nat),
        decreases mods.len() - k,
    {
        let i = mods.len() - 1 - k;
        let ghost before = placements_view(r@);
        if mods[i].enabled {
            let slot = slots.allocate();
            let p = Placement { index: i, slot };
            r.push(p);
            assert(placements_view(r@) =~= before.push(placement_view(p)));
        }
        k = k + 1;
    }
    r
}

/// Where every one-character name from "a" up to the last character before
/// the surrogate range is taken, no slot can be allocated.
pub proof fn lemma_slots_exhausted(used: Seq<bool>)
    requires
        used.len() == CODE_POINTS,
        forall|n: int| 0x61 <= n <= 0xD7FF ==> used[n],
    ensures
        slot_search(used, 'a') is None,
{
    lemma_slots_exhausted_from(used, 'a');
}

proof fn lemma_slots_exhausted_from(used: Seq<bool>, c: char)
    requires
        used.len() == CODE_POINTS,
        forall|n: int| 0x61 <= n <= 0xD7FF ==> used[n],
        0x61 <= c as u32 <= 0xD7FF,
    ensures
        slot_search(used, c) is None,
    decreases 0xD7FF - c as u32,
{
    if (c as u32) < 0xD7FF {
        assert((((c as u32 + 1) as u32) as char) as u32 == c as u32 + 1);
        lemma_slots_exhausted_from(used, next_char(c));
    } else {
        assert(!is_scalar_value(0xD800));
    }
}

} // verus!
