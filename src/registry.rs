//! The registry: the `Mods` section of the manager's configuration, mapping
//! each known mod name to `True` or `False`. The order of its keys is the
//! priority order of the mods.
use vstd::prelude::*;
use ini::Ini;
use crate::descriptor::{ModData, ModView};
use crate::ini_doc::{
    ini_content, ini_delete_key, ini_delete_section, ini_set, keys_of, lemma_section_pos_at,
    lemma_section_pos_none, model_delete, model_set, model_with_props, section_props,
    without_key, IniModel, Props,
};
use crate::text::str_eq;

verus! {

/// The keys of the registry, in order; none where there is no `Mods` section.
pub open spec fn registry_keys(m: IniModel) -> Seq<Seq<char>> {
    match section_props(m, "Mods"@) {
        Some(p) => keys_of(p),
        None => Seq::empty(),
    }
}

/// The names of a list of mods, in order.
pub open spec fn names_of(mods: Seq<ModView>) -> Seq<Seq<char>> {
    mods.map_values(|m: ModView| m.name)
}

/// How the registry writes an enabled flag.
pub open spec fn flag_text(enabled: bool) -> Seq<char> {
    if enabled {
        "True"@
    } else {
        "False"@
    }
}

/// The registry pairs of a list of mods, in list order.
pub open spec fn registry_props(mods: Seq<ModView>) -> Props {
    mods.map_values(|m: ModView| (m.name, flag_text(m.enabled)))
}

/// No two mods of the list share a name.
pub open spec fn names_unique(mods: Seq<ModView>) -> bool {
    forall|i: int, j: int| 0 <= i < j < mods.len() ==> mods[i].name != mods[j].name
}

/// A well-formed list: names are non-empty and unique, and each mod's order
/// is its position.
pub open spec fn list_wf(mods: Seq<ModView>) -> bool {
    &&& names_unique(mods)
    &&& forall|i: int| 0 <= i < mods.len() ==> (#[trigger] mods[i]).name.len() > 0
    &&& forall|i: int| 0 <= i < mods.len() ==> (#[trigger] mods[i]).order == i
}

/// A document after the registry is rewritten from a list: every `Mods`
/// section goes, and one holding the list's pairs is added at the end unless
/// the list is empty.
pub open spec fn model_rewritten(m: IniModel, mods: Seq<ModView>) -> IniModel {
    if mods.len() == 0 {
        model_delete(m, "Mods"@)
    } else {
        model_delete(m, "Mods"@).push((Some("Mods"@), registry_props(mods)))
    }
}

/// The views of a `Vec` of mods.
pub open spec fn mods_view(v: Seq<ModData>) -> Seq<ModView> {
    v.map_values(|m: ModData| m@)
}

/// The position of the mod named `name`.
pub fn position_of(mods: &Vec<ModData>, name: &str) -> (r: Option<usize>)
    ensures
        r matches Some(i) ==> i < mods@.len() && mods@[i as int]@.name == name@,
        r is None ==> !names_of(mods_view(mods@)).contains(name@),
{
    let mut i: usize = 0;
    while i < mods.len()
        invariant
            i <= mods@.len(),
            forall|j: int| 0 <= j < i ==> mods@[j]@.name != name@,
        decreases mods.len() - i,
    {
        if str_eq(mods[i].name.as_str(), name) {
            return Some(i);
        }
        i = i + 1;
    }
    proof {
        if names_of(mods_view(mods@)).contains(name@) {
            let j = choose|j: int|
                0 <= j < names_of(mods_view(mods@)).len() && names_of(mods_view(mods@))[j]
                    == name@;
            assert(mods@[j]@.name == name@);
        }
    }
    None
}

/// Records a mod's enabled flag under its name in the registry.
pub fn update_mod_config(config: &mut Ini, mod_name: &str, enabled: bool)
    ensures
        ini_content(*final(config)) == model_set(
            ini_content(*old(config)),
            "Mods"@,
            mod_name@,
            flag_text(enabled),
        ),
{
    if enabled {
        ini_set(config, "Mods", mod_name, "True");
    } else {
        ini_set(config, "Mods", mod_name, "False");
    }
}

/// Drops a mod's entry from the registry.
pub fn remove_mod_config(config: &mut Ini, mod_name: &str)
    ensures
        ini_content(*final(config)) == (match section_props(ini_content(*old(config)), "Mods"@) {
            Some(p) => model_with_props(ini_content(*old(config)), "Mods"@, without_key(p, mod_name@)),
            None => ini_content(*old(config)),
        }),
{
    ini_delete_key(config, "Mods", mod_name);
}

/// Rewrites the registry from a list of mods, in list order.
pub fn set_mod_order_config(config: &mut Ini, mods: &Vec<ModData>)
    requires
        names_unique(mods_view(mods@)),
    ensures
        ini_content(*final(config)) == model_rewritten(ini_content(*old(config)), mods_view(mods@)),
        registry_keys(ini_content(*final(config))) == names_of(mods_view(mods@)),
{
    let ghost start = model_delete(ini_content(*config), "Mods"@);
    ini_delete_section(config, "Mods");
    proof {
        lemma_delete_leaves_none(ini_content(*old(config)), "Mods"@);
    }
    let ghost mv = mods_view(mods@);
    let mut i: usize = 0;
    while i < mods.len()
        invariant
            i <= mods@.len(),
            mv == mods_view(mods@),
            names_unique(mv),
            forall|j: int| 0 <= j < start.len() ==> start[j].0 != Some("Mods"@),
            ini_content(*config) == (if i == 0 {
                start
            } else {
                start.push((Some("Mods"@), registry_props(mv.subrange(0, i as int))))
            }),
        decreases mods.len() - i,
    {
        let ghost before = ini_content(*config);
        update_mod_config(config, mods[i].name.as_str(), mods[i].enabled);
        proof {
            let pre = registry_props(mv.subrange(0, i as int));
            assert(registry_props(mv.subrange(0, i + 1)) =~= pre.push(
                (mv[i as int].name, flag_text(mv[i as int].enabled)),
            ));
            if i == 0 {
                lemma_section_pos_none(start, Some("Mods"@));
                assert(pre =~= Seq::<(Seq<char>, Seq<char>)>::empty());
                assert(registry_props(mv.subrange(0, 1)) =~= seq![
                    (mv[0].name, flag_text(mv[0].enabled)),
                ]);
                assert(ini_content(*config) =~= start.push(
                    (Some("Mods"@), registry_props(mv.subrange(0, 1))),
                ));
            } else {
                lemma_section_pos_at(before, Some("Mods"@), start.len() as int);
                assert forall|j: int| 0 <= j < pre.len() implies pre[j].0 != mv[i as int].name by {
                    assert(pre[j].0 == mv[j].name);
                }
                crate::descriptor::lemma_without_absent(pre, mv[i as int].name);
                assert(ini_content(*config) =~= start.push(
                    (Some("Mods"@), registry_props(mv.subrange(0, i + 1))),
                ));
            }
        }
        i = i + 1;
    }
    proof {
        assert(mv.subrange(0, i as int) =~= mv);
        if mods@.len() == 0 {
            lemma_section_pos_none(start, Some("Mods"@));
            assert(names_of(mv) =~= Seq::<Seq<char>>::empty());
        } else {
            lemma_section_pos_at(ini_content(*config), Some("Mods"@), start.len() as int);
            assert(keys_of(registry_props(mv)) =~= names_of(mv));
        }
    }
}

/// After every section named `s` is deleted, none is left.
pub proof fn lemma_delete_leaves_none(m: IniModel, s: Seq<char>)
    ensures
        forall|j: int|
            0 <= j < model_delete(m, s).len() ==> (#[trigger] model_delete(m, s)[j]).0 != Some(
                s,
            ),
    decreases m.len(),
{
    if m.len() > 0 {
        lemma_delete_leaves_none(m.drop_last(), s);
    }
}

} // verus!
