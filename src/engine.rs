//! The game's engine configuration: the `+NativePackages` entries of its
//! `Engine.ScriptPackages` section must name every script package that the
//! deployed mods need, each once, after the game's own bootstrap package.
use vstd::prelude::*;
use ini::Ini;
use crate::descriptor::{lookup_all, strings_view, ModData};
use crate::ini_doc::{
    ini_append, ini_content, ini_parse, ini_remove_all, ini_section, ini_text, ini_written,
    model_with_props, parsed_ini, section_pos, section_props, values_of, without_key,
    IniModel, Props,
};
use crate::registry::mods_view;
use crate::text::str_eq;

verus! {

/// Why the engine configuration could not be merged.
#[derive(Clone, Copy, Debug, PartialEq, Eq, Structural)]
pub enum ConfigError {
    /// The text is not a well-formed INI document.
    Unreadable,
    /// The document has no `Engine.ScriptPackages` section.
    SectionMissing,
}

pub open spec fn packages_section() -> Seq<char> {
    "Engine.ScriptPackages"@
}

pub open spec fn packages_key() -> Seq<char> {
    "+NativePackages"@
}

/// The package the game itself needs, always listed first.
pub open spec fn bootstrap_package() -> Seq<char> {
    "REDGame"@
}

/// The pairs with the package added at the end unless already listed.
pub open spec fn ensured(p: Props, package: Seq<char>) -> Props {
    if values_of(p, packages_key()).contains(package) {
        p
    } else {
        p.push((packages_key(), package))
    }
}

/// The pairs with every package entry dropped and the bootstrap package
/// listed alone at the end.
pub open spec fn reset_props(p: Props) -> Props {
    without_key(p, packages_key()).push((packages_key(), bootstrap_package()))
}

/// The pairs after ensuring each package in turn.
pub open spec fn merged(p: Props, packages: Seq<Seq<char>>) -> Props
    decreases packages.len(),
{
    if packages.len() == 0 {
        p
    } else {
        ensured(merged(p, packages.drop_last()), packages.last())
    }
}

/// How many times `x` occurs in `s`.
pub open spec fn count_of(s: Seq<Seq<char>>, x: Seq<char>) -> nat
    decreases s.len(),
{
    if s.len() == 0 {
        0
    } else {
        count_of(s.drop_last(), x) + if s.last() == x {
            1nat
        } else {
            0nat
        }
    }
}

/// Replacing the pairs of a present section keeps it the first of its name.
pub proof fn lemma_with_props(m: IniModel, s: Seq<char>, q: Props, q2: Props)
    requires
        section_props(m, s) is Some,
    ensures
        section_props(model_with_props(m, s, q), s) == Some(q),
        model_with_props(model_with_props(m, s, q), s, q2) == model_with_props(m, s, q2),
        model_with_props(m, s, section_props(m, s)->0) == m,
{
    let p = section_pos(m, Some(s));
    let m2 = model_with_props(m, s, q);
    crate::ini_doc::lemma_section_pos_first(m, Some(s));
    assert forall|j: int| 0 <= j < p implies m2[j].0 != Some(s) by {
        assert(m2[j] == m[j]);
    }
    crate::ini_doc::lemma_section_pos_at(m2, Some(s), p);
    assert(m2.update(p, (Some(s), q2)) =~= m.update(p, (Some(s), q2)));
    assert(m.update(p, (Some(s), m[p].1)) =~= m);
}

fn contains_str(v: &Vec<String>, x: &str) -> (r: bool)
    ensures
        r == strings_view(v@).contains(x@),
{
    let mut i: usize = 0;
    while i < v.len()
        invariant
            i <= v@.len(),
            forall|j: int| 0 <= j < i ==> v@[j]@ != x@,
        decreases v.len() - i,
    {
        if str_eq(v[i].as_str(), x) {
            assert(strings_view(v@)[i as int] == x@);
            return true;
        }
        i = i + 1;
    }
    proof {
        if strings_view(v@).contains(x@) {
            let j = choose|j: int| 0 <= j < strings_view(v@).len() && strings_view(v@)[j] == x@;
            assert(v@[j]@ == x@);
        }
    }
    false
}

/// Reads an engine configuration text.
pub fn parse_engine_config(text: &str) -> (r: Result<Ini, ConfigError>)
    ensures
        match parsed_ini(text@) {
            None => r == Err::<Ini, ConfigError>(ConfigError::Unreadable),
            Some(m) => r matches Ok(doc) && ini_content(doc) == m,
        },
{
    match ini_parse(text) {
        None => Err(ConfigError::Unreadable),
        Some(doc) => Ok(doc),
    }
}

/// The text an engine configuration is saved as.
pub fn engine_config_text(doc: &Ini) -> (r: String)
    ensures
        r@ == ini_written(ini_content(*doc)),
{
    ini_text(doc)
}

/// The script packages the engine configuration lists, in order.
pub fn native_packages(doc: &Ini) -> (r: Result<Vec<String>, ConfigError>)
    ensures
        match section_props(ini_content(*doc), packages_section()) {
            None => r == Err::<Vec<String>, ConfigError>(ConfigError::SectionMissing),
            Some(p) => r matches Ok(v) && strings_view(v@) == values_of(p, packages_key()),
        },
{
    match ini_section(doc, "Engine.ScriptPackages") {
        None => Err(ConfigError::SectionMissing),
        Some(props) => Ok(lookup_all(&props, "+NativePackages")),
    }
}

/// Drops every `+NativePackages` entry and lists the bootstrap package alone.
pub fn reset_native_packages(doc: &mut Ini) -> (r: Result<(), ConfigError>)
    ensures
        match section_props(ini_content(*old(doc)), packages_section()) {
            None => r == Err::<(), ConfigError>(ConfigError::SectionMissing) && ini_content(
                *final(doc),
            ) == ini_content(*old(doc)),
            Some(p) => r is Ok && ini_content(*final(doc)) == model_with_props(
                ini_content(*old(doc)),
                packages_section(),
                reset_props(p),
            ),
        },
{
    let ghost m = ini_content(*doc);
    if !ini_remove_all(doc, "Engine.ScriptPackages", "+NativePackages") {
        return Err(ConfigError::SectionMissing);
    }
    proof {
        let p = section_props(m, packages_section())->0;
        lemma_with_props(m, packages_section(), without_key(p, packages_key()), reset_props(p));
    }
    ini_append(doc, "Engine.ScriptPackages", "+NativePackages", "REDGame");
    Ok(())
}

/// Adds the package to the engine's list unless it is already there;
/// `Ok(true)` where it was added.
pub fn ensure_package(doc: &mut Ini, package: &str) -> (r: Result<bool, ConfigError>)
    ensures
        match section_props(ini_content(*old(doc)), packages_section()) {
            None => r == Err::<bool, ConfigError>(ConfigError::SectionMissing) && ini_content(
                *final(doc),
            ) == ini_content(*old(doc)),
            Some(p) => r == Ok::<bool, ConfigError>(
                !values_of(p, packages_key()).contains(package@),
            ) && ini_content(*final(doc)) == model_with_props(
                ini_content(*old(doc)),
                packages_section(),
                ensured(p, package@),
            ),
        },
{
    let ghost m = ini_content(*doc);
    let props = match ini_section(doc, "Engine.ScriptPackages") {
        None => return Err(ConfigError::SectionMissing),
        Some(p) => p,
    };
    let values = lookup_all(&props, "+NativePackages");
    if contains_str(&values, package) {
        proof {
            let p = section_props(m, packages_section())->0;
            lemma_with_props(m, packages_section(), p, p);
        }
        return Ok(false);
    }
    ini_append(doc, "Engine.ScriptPackages", "+NativePackages", package);
    Ok(true)
}

/// Merges the packages into an engine configuration text: the package list
/// is reset to the bootstrap package, then each package is ensured in turn.
/// The new text is returned; the rest of the document is left as it was.
pub fn merge_engine_config(text: &str, packages: &Vec<String>) -> (r: Result<String, ConfigError>)
    ensures
        match parsed_ini(text@) {
            None => r == Err::<String, ConfigError>(ConfigError::Unreadable),
            Some(m) => match section_props(m, packages_section()) {
                None => r == Err::<String, ConfigError>(ConfigError::SectionMissing),
                Some(p) => r matches Ok(t) && t@ == ini_written(
                    model_with_props(
                        m,
                        packages_section(),
                        merged(reset_props(p), strings_view(packages@)),
                    ),
                ),
            },
        },
{
    let mut doc = match ini_parse(text) {
        None => return Err(ConfigError::Unreadable),
        Some(d) => d,
    };
    let ghost m = ini_content(doc);
    if reset_native_packages(&mut doc).is_err() {
        return Err(ConfigError::SectionMissing);
    }
    let ghost start_props = reset_props(section_props(m, packages_section())->0);
    let ghost pv = strings_view(packages@);
    let mut i: usize = 0;
    while i < packages.len()
        invariant
            i <= packages@.len(),
            pv == strings_view(packages@),
            section_props(m, packages_section()) is Some,
            ini_content(doc) == model_with_props(
                m,
                packages_section(),
                merged(start_props, pv.subrange(0, i as int)),
            ),
        decreases packages.len() - i,
    {
        proof {
            lemma_with_props(m, packages_section(), merged(start_props, pv.subrange(0, i as int)), start_props);
            assert(pv.subrange(0, i + 1).drop_last() =~= pv.subrange(0, i as int));
        }
        let ghost before = merged(start_props, pv.subrange(0, i as int));
        let _ = ensure_package(&mut doc, packages[i].as_str());
        proof {
            lemma_with_props(m, packages_section(), before, ensured(before, pv[i as int]));
        }
        i = i + 1;
    }
    assert(pv.subrange(0, i as int) =~= pv);
    Ok(ini_text(&doc))
}

/// The scripts of the deployed mods, `deployed` giving their positions in
/// the list in the order they were deployed; positions past the end are
/// skipped.
pub open spec fn deployed_scripts(mods: Seq<ModData>, deployed: Seq<usize>) -> Seq<Seq<char>>
    decreases deployed.len(),
{
    if deployed.len() == 0 {
        Seq::empty()
    } else {
        let rest = deployed_scripts(mods, deployed.drop_last());
        let k = deployed.last() as int;
        if k < mods.len() {
            rest + mods_view(mods)[k].scripts
        } else {
            rest
        }
    }
}

/// The script packages to merge for the deployed mods, in deployment order.
pub fn scripts_to_merge(mods: &Vec<ModData>, deployed: &Vec<usize>) -> (r: Vec<String>)
    ensures
        strings_view(r@) == deployed_scripts(mods@, deployed@),
{
    let mut r: Vec<String> = Vec::new();
    let mut i: usize = 0;
    assert(strings_view(r@) =~= Seq::<Seq<char>>::empty());
    while i < deployed.len()
        invariant
            i <= deployed@.len(),
            strings_view(r@) == deployed_scripts(mods@, deployed@.subrange(0, i as int)),
        decreases deployed.len() - i,
    {
        assert(deployed@.subrange(0, i + 1).drop_last() =~= deployed@.subrange(0, i as int));
        let k = deployed[i];
        if k < mods.len() {
            let scripts = &mods[k].scripts;
            let ghost base = strings_view(r@);
            let mut j: usize = 0;
            while j < scripts.len()
                invariant
                    j <= scripts@.len(),
                    strings_view(r@) == base + strings_view(scripts@.subrange(0, j as int)),
                decreases scripts.len() - j,
            {
                let ghost rb = r@;
                r.push(scripts[j].clone());
                assert(strings_view(r@) =~= strings_view(rb).push(scripts@[j as int]@));
                assert(strings_view(scripts@.subrange(0, j + 1)) =~= strings_view(
                    scripts@.subrange(0, j as int),
                ).push(scripts@[j as int]@));
                assert(strings_view(r@) =~= base + strings_view(scripts@.subrange(0, j + 1)));
                j = j + 1;
            }
            assert(scripts@.subrange(0, j as int) =~= scripts@);
        }
        i = i + 1;
    }
    assert(deployed@.subrange(0, i as int) =~= deployed@);
    r
}

/// Ensuring a package twice is ensuring it once; a package that was missing
/// is then listed exactly once.
pub proof fn lemma_ensure_idempotent(p: Props, package: Seq<char>)
    ensures
        ensured(ensured(p, package), package) == ensured(p, package),
        values_of(ensured(p, package), packages_key()).contains(package),
        !values_of(p, packages_key()).contains(package) ==> count_of(
            values_of(ensured(ensured(p, package), package), packages_key()),
            package,
        ) == 1,
{
    let k = packages_key();
    if !values_of(p, k).contains(package) {
        let q = p.push((k, package));
        assert(q.drop_last() =~= p);
        assert(values_of(q, k) == values_of(p, k).push(package));
        assert(values_of(q, k).last() == package);
        assert(values_of(q, k)[values_of(q, k).len() - 1] == package);
        lemma_count_absent(values_of(p, k), package);
        assert(values_of(q, k).drop_last() =~= values_of(p, k));
    }
}

proof fn lemma_count_absent(s: Seq<Seq<char>>, x: Seq<char>)
    requires
        !s.contains(x),
    ensures
        count_of(s, x) == 0,
    decreases s.len(),
{
    if s.len() > 0 {
        assert(!s.drop_last().contains(x)) by {
            if s.drop_last().contains(x) {
                let j = choose|j: int| 0 <= j < s.drop_last().len() && s.drop_last()[j] == x;
                assert(s[j] == x);
            }
        }
        assert(s[s.len() - 1] != x);
        lemma_count_absent(s.drop_last(), x);
    }
}

} // verus!
