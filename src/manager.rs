//! The authoritative list of mods, kept in step with the registry: rebuilt
//! from registry and disk by reconciliation, changed by install, toggle,
//! removal, reordering and edits, each followed by a registry rewrite.
use vstd::prelude::*;
use ini::Ini;
use crate::descriptor::{
    descriptor_from_text, read_descriptor, DescriptorError, ModData, ModView,
};
use crate::ini_doc::{ini_content, ini_new, ini_section, keys_of, pairs_view, IniModel, Props};
use crate::registry::{
    list_wf, mods_view, model_rewritten, names_of, names_unique, position_of, registry_keys,
    set_mod_order_config,
};
use crate::text::str_eq;

verus! {

/// What reconciliation found wrong with a registry entry.
#[derive(Clone, Copy, Debug, PartialEq, Eq, Structural)]
pub enum DriftKind {
    /// No descriptor where the entry points.
    DirectoryMissing,
    /// The descriptor has no `Description` section.
    MissingSection,
    /// The descriptor has no name.
    MissingName,
    /// The descriptor is not well-formed.
    ParseError,
    /// The descriptor names a mod that is already in the list.
    DuplicateName,
}

/// One piece of drift between the registry and the disk, with the registry
/// key it concerns.
#[derive(Clone, Debug)]
pub struct Drift {
    pub kind: DriftKind,
    pub name: String,
}

/// A descriptor found on disk: the mod directory and the file's text.
#[derive(Clone, Debug)]
pub struct DescriptorFile {
    pub dir: String,
    pub text: String,
}

/// The outcome of reconciliation: the rebuilt list, the drift found, and
/// whether the registry must be rewritten.
pub struct Reconciled {
    pub mods: Vec<ModData>,
    pub drift: Vec<Drift>,
    pub needs_rewrite: bool,
}

pub open spec fn drift_view(d: Drift) -> (DriftKind, Seq<char>) {
    (d.kind, d.name@)
}

pub open spec fn drifts_view(v: Seq<Drift>) -> Seq<(DriftKind, Seq<char>)> {
    v.map_values(|d: Drift| drift_view(d))
}

/// The descriptor found for entry `i`, as (directory, text).
pub open spec fn found_at(found: Seq<Option<DescriptorFile>>, i: int) -> Option<
    (Seq<char>, Seq<char>),
> {
    if 0 <= i < found.len() {
        match found[i] {
            Some(f) => Some((f.dir@, f.text@)),
            None => None,
        }
    } else {
        None
    }
}

pub open spec fn drift_kind_of(e: DescriptorError) -> DriftKind {
    match e {
        DescriptorError::MissingSection => DriftKind::MissingSection,
        DescriptorError::MissingName => DriftKind::MissingName,
        DescriptorError::ParseError => DriftKind::ParseError,
    }
}

/// Only the registry value `True` enables a mod.
pub open spec fn enabled_from(value: Seq<char>) -> bool {
    value == "True"@
}

/// A mod read from disk, with the flag and position it takes in the list.
pub open spec fn placed(v: ModView, enabled: bool, order: nat) -> ModView {
    ModView {
        name: v.name,
        author: v.author,
        version: v.version,
        category: v.category,
        description: v.description,
        page: v.page,
        path: v.path,
        enabled,
        order,
        scripts: v.scripts,
    }
}

/// Reconciliation of the first `n` registry entries: the list built, the
/// drift found, and whether the registry must be rewritten.
pub open spec fn reconcile_spec(entries: Props, found: Seq<Option<DescriptorFile>>, n: nat) -> (
    Seq<ModView>,
    Seq<(DriftKind, Seq<char>)>,
    bool,
)
    decreases n,
{
    if n == 0 || n > entries.len() {
        (Seq::empty(), Seq::empty(), false)
    } else {
        let prev = reconcile_spec(entries, found, (n - 1) as nat);
        let key = entries[n - 1].0;
        let value = entries[n - 1].1;
        match found_at(found, n - 1) {
            None => (prev.0, prev.1.push((DriftKind::DirectoryMissing, key)), true),
            Some(f) => match descriptor_from_text(f.1, f.0) {
                Err(e) => (prev.0, prev.1.push((drift_kind_of(e), key)), true),
                Ok(v) => if names_of(prev.0).contains(v.name) {
                    (prev.0, prev.1.push((DriftKind::DuplicateName, key)), true)
                } else {
                    (
                        prev.0.push(placed(v, enabled_from(value), prev.0.len())),
                        prev.1,
                        prev.2 || v.name != key,
                    )
                },
            },
        }
    }
}

fn drift_kind(e: DescriptorError) -> (r: DriftKind)
    ensures
        r == drift_kind_of(e),
{
    match e {
        DescriptorError::MissingSection => DriftKind::MissingSection,
        DescriptorError::MissingName => DriftKind::MissingName,
        DescriptorError::ParseError => DriftKind::ParseError,
    }
}

/// Rebuilds the list of mods from the registry entries, in their order, and
/// the descriptors found for them (`found[i]` for entry `i`; `None` where
/// nothing was found). Entries without a readable descriptor, or naming a
/// mod already listed, are left out and reported.
pub fn reconcile(entries: &Vec<(String, String)>, found: &Vec<Option<DescriptorFile>>) -> (r:
    Reconciled)
    ensures
        (mods_view(r.mods@), drifts_view(r.drift@), r.needs_rewrite) == reconcile_spec(
            pairs_view(entries@),
            found@,
            entries@.len(),
        ),
        list_wf(mods_view(r.mods@)),
        !r.needs_rewrite ==> names_of(mods_view(r.mods@)) == keys_of(pairs_view(entries@)),
{
    let ghost pe = pairs_view(entries@);
    let mut mods: Vec<ModData> = Vec::new();
    let mut drift: Vec<Drift> = Vec::new();
    let mut dirty = false;
    let mut i: usize = 0;
    assert(mods_view(mods@) =~= Seq::<ModView>::empty());
    assert(drifts_view(drift@) =~= Seq::<(DriftKind, Seq<char>)>::empty());
    while i < entries.len()
        invariant
            i <= entries@.len(),
            pe == pairs_view(entries@),
            (mods_view(mods@), drifts_view(drift@), dirty) == reconcile_spec(pe, found@, i as nat),
            list_wf(mods_view(mods@)),
            !dirty ==> names_of(mods_view(mods@)) == keys_of(pe.subrange(0, i as int)),
        decreases entries.len() - i,
    {
        let ghost old_mods = mods_view(mods@);
        let ghost old_drift = drifts_view(drift@);
        let ghost old_dirty = dirty;
        assert(keys_of(pe.subrange(0, i + 1)) =~= keys_of(pe.subrange(0, i as int)).push(
            pe[i as int].0,
        ));
        let key = &entries[i].0;
        let value = &entries[i].1;
        let file: Option<&DescriptorFile> = if i < found.len() {
            match &found[i] {
                Some(f) => Some(f),
                None => None,
            }
        } else {
            None
        };
        match file {
            None => {
                drift.push(Drift { kind: DriftKind::DirectoryMissing, name: key.clone() });
                dirty = true;
                assert(drifts_view(drift@) =~= old_drift.push((DriftKind::DirectoryMissing, pe[i as int].0)));
            },
            Some(f) => {
                match read_descriptor(f.text.as_str(), f.dir.as_str()) {
                    Err(e) => {
                        drift.push(Drift { kind: drift_kind(e), name: key.clone() });
                        dirty = true;
                        assert(drifts_view(drift@) =~= old_drift.push((drift_kind_of(e), pe[i as int].0)));
                    },
                    Ok(m) => {
                        match position_of(&mods, m.name.as_str()) {
                            Some(j) => {
                                proof {
                                    assert(names_of(old_mods)[j as int] == m@.name);
                                }
                                drift.push(Drift { kind: DriftKind::DuplicateName, name: key.clone() });
                                dirty = true;
                                assert(drifts_view(drift@) =~= old_drift.push((DriftKind::DuplicateName, pe[i as int].0)));
                            },
                            None => {
                                let enabled = str_eq(value.as_str(), "True");
                                let renamed = !str_eq(m.name.as_str(), key.as_str());
                                let placed_mod = ModData {
                                    name: m.name,
                                    author: m.author,
                                    version: m.version,
                                    category: m.category,
                                    description: m.description,
                                    page: m.page,
                                    path: m.path,
                                    enabled,
                                    order: mods.len(),
                                    scripts: m.scripts,
                                };
                                mods.push(placed_mod);
                                if renamed {
                                    dirty = true;
                                }
                                proof {
                                    assert(mods_view(mods@) =~= old_mods.push(placed_mod@));
                                    assert(names_of(mods_view(mods@)) =~= names_of(old_mods).push(placed_mod@.name));
                                    assert forall|a: int| 0 <= a < old_mods.len() implies old_mods[a].name != placed_mod@.name by {
                                        assert(names_of(old_mods)[a] == old_mods[a].name);
                                    }
                                }
                            },
                        }
                    },
                }
            },
        }
        i = i + 1;
    }
    assert(pe.subrange(0, i as int) =~= pe);
    Reconciled { mods, drift, needs_rewrite: dirty }
}

/// The list with each mod's order set to its position.
pub open spec fn renumbered(s: Seq<ModView>) -> Seq<ModView> {
    Seq::new(s.len(), |i: int| placed(s[i], s[i].enabled, i as nat))
}

/// Sets each mod's order to its position.
fn renumber(mods: &mut Vec<ModData>)
    ensures
        mods_view(final(mods)@) == renumbered(mods_view(old(mods)@)),
{
    let ghost orig = mods_view(mods@);
    let ghost n = mods@.len();
    let mut rev: Vec<ModData> = Vec::new();
    while mods.len() > 0
        invariant
            mods@.len() + rev@.len() == n,
            orig.len() == n,
            forall|k: int| 0 <= k < mods@.len() ==> mods@[k]@ == orig[k],
            forall|k: int| 0 <= k < rev@.len() ==> rev@[k]@ == orig[n - 1 - k],
        decreases mods.len(),
    {
        let m = mods.pop().unwrap();
        rev.push(m);
    }
    while rev.len() > 0
        invariant
            mods@.len() + rev@.len() == n,
            orig.len() == n,
            forall|k: int| 0 <= k < mods@.len() ==> mods@[k]@ == placed(orig[k], orig[k].enabled, k as nat),
            forall|k: int| 0 <= k < rev@.len() ==> rev@[k]@ == orig[n - 1 - k],
        decreases rev.len(),
    {
        let m = rev.pop().unwrap();
        let order = mods.len();
        mods.push(ModData {
            name: m.name,
            author: m.author,
            version: m.version,
            category: m.category,
            description: m.description,
            page: m.page,
            path: m.path,
            enabled: m.enabled,
            order,
            scripts: m.scripts,
        });
    }
    assert(mods_view(mods@) =~= renumbered(orig));
}

/// Renumbering keeps the names and makes the orders right.
pub proof fn lemma_renumbered_wf(s: Seq<ModView>)
    requires
        names_unique(s),
        forall|i: int| 0 <= i < s.len() ==> (#[trigger] s[i]).name.len() > 0,
    ensures
        list_wf(renumbered(s)),
        names_of(renumbered(s)) == names_of(s),
{
    assert(names_of(renumbered(s)) =~= names_of(s));
}

/// Removing a mod keeps the other names distinct.
pub proof fn lemma_unique_remove(s: Seq<ModView>, i: int)
    requires
        names_unique(s),
        forall|k: int| 0 <= k < s.len() ==> (#[trigger] s[k]).name.len() > 0,
        0 <= i < s.len(),
    ensures
        names_unique(s.remove(i)),
        forall|k: int| 0 <= k < s.remove(i).len() ==> (#[trigger] s.remove(i)[k]).name.len() > 0,
        !names_of(s.remove(i)).contains(s[i].name),
{
    let t = s.remove(i);
    assert forall|a: int, b: int| 0 <= a < b < t.len() implies t[a].name != t[b].name by {
        let a2 = if a < i { a } else { a + 1 };
        let b2 = if b < i { b } else { b + 1 };
        assert(t[a] == s[a2] && t[b] == s[b2]);
    }
    assert forall|k: int| 0 <= k < t.len() implies (#[trigger] t[k]).name.len() > 0 by {
        let k2 = if k < i { k } else { k + 1 };
        assert(t[k] == s[k2]);
    }
    if names_of(t).contains(s[i].name) {
        let k = choose|k: int| 0 <= k < names_of(t).len() && names_of(t)[k] == s[i].name;
        let k2 = if k < i { k } else { k + 1 };
        assert(t[k] == s[k2]);
    }
}

/// Inserting a mod whose name is not yet listed keeps names distinct.
pub proof fn lemma_unique_insert(s: Seq<ModView>, i: int, x: ModView)
    requires
        names_unique(s),
        forall|k: int| 0 <= k < s.len() ==> (#[trigger] s[k]).name.len() > 0,
        x.name.len() > 0,
        !names_of(s).contains(x.name),
        0 <= i <= s.len(),
    ensures
        names_unique(s.insert(i, x)),
        forall|k: int| 0 <= k < s.insert(i, x).len() ==> (#[trigger] s.insert(i, x)[k]).name.len() > 0,
{
    let t = s.insert(i, x);
    assert forall|a: int, b: int| 0 <= a < b < t.len() implies t[a].name != t[b].name by {
        if a != i && b != i {
            let a2 = if a < i { a } else { a - 1 };
            let b2 = if b < i { b } else { b - 1 };
            assert(t[a] == s[a2] && t[b] == s[b2]);
        } else if a == i {
            let b2 = b - 1;
            assert(t[b] == s[b2]);
            assert(names_of(s)[b2] == s[b2].name);
        } else {
            let a2 = a;
            assert(t[a] == s[a2]);
            assert(names_of(s)[a2] == s[a2].name);
        }
    }
    assert forall|k: int| 0 <= k < t.len() implies (#[trigger] t[k]).name.len() > 0 by {
        if k != i {
            let k2 = if k < i { k } else { k - 1 };
            assert(t[k] == s[k2]);
        }
    }
}

/// Why a new or edited mod was refused.
#[derive(Clone, Copy, Debug, PartialEq, Eq, Structural)]
pub enum EditError {
    /// The mod has no name.
    EmptyName,
    /// Another mod already has that name.
    DuplicateName,
}

/// How an install went.
#[derive(Clone, Debug)]
pub enum Installed {
    /// A mod of that name is already listed; nothing changed.
    AlreadyPresent,
    /// The mod's own descriptor was read and the mod added.
    FromDescriptor,
    /// The mod had no readable descriptor: one was made up from the name,
    /// whose text is given to be written into the mod's directory.
    Synthesized(String),
}

/// A fresh descriptor for a mod that came without a readable one.
pub open spec fn synthesized(name: Seq<char>, dir: Seq<char>) -> ModView {
    ModView {
        name,
        author: Seq::empty(),
        version: Seq::empty(),
        category: Seq::empty(),
        description: Seq::empty(),
        page: Seq::empty(),
        path: dir,
        enabled: true,
        order: 0,
        scripts: Seq::empty(),
    }
}

/// The mod an install adds, and whether its descriptor was made up.
pub open spec fn install_candidate(name: Seq<char>, dir: Seq<char>, text: Option<Seq<char>>) -> (
    ModView,
    bool,
) {
    match text {
        Some(t) => match descriptor_from_text(t, dir) {
            Ok(v) => (v, false),
            Err(_) => (synthesized(name, dir), true),
        },
        None => (synthesized(name, dir), true),
    }
}

/// The list after installing the mod `name` from `dir`, whose descriptor
/// text is `text`: unchanged where the name, or the name its descriptor
/// gives, is already listed; else the mod comes last, enabled.
pub open spec fn install_spec(
    mods: Seq<ModView>,
    name: Seq<char>,
    dir: Seq<char>,
    text: Option<Seq<char>>,
) -> Seq<ModView> {
    let c = install_candidate(name, dir, text).0;
    if names_of(mods).contains(name) || names_of(mods).contains(c.name) {
        mods
    } else {
        mods.push(placed(c, true, mods.len()))
    }
}

pub open spec fn text_view(t: Option<String>) -> Option<Seq<char>> {
    match t {
        Some(s) => Some(s@),
        None => None,
    }
}

/// The list with the enabled flag of the mod named `name` flipped.
pub open spec fn toggled(s: Seq<ModView>, name: Seq<char>) -> Seq<ModView> {
    s.map_values(
        |m: ModView|
            if m.name == name {
                placed(m, !m.enabled, m.order)
            } else {
                m
            },
    )
}

/// The registry pairs of the first `Mods` section, or none.
pub open spec fn registry_entries_of(m: IniModel) -> Props {
    match crate::ini_doc::section_props(m, "Mods"@) {
        Some(p) => p,
        None => Seq::empty(),
    }
}

/// The mod manager's state: the configuration document that holds the
/// registry, and the authoritative list of mods.
pub struct ModManager {
    pub config: Ini,
    pub mod_datas: Vec<ModData>,
}

impl ModManager {
    pub open spec fn mods(&self) -> Seq<ModView> {
        mods_view(self.mod_datas@)
    }

    /// The list is well formed and the registry's keys are its names, in
    /// order.
    pub open spec fn in_sync(&self) -> bool {
        &&& list_wf(self.mods())
        &&& registry_keys(ini_content(self.config)) == names_of(self.mods())
    }

    /// A manager over a configuration document, with an empty list until the
    /// first reconciliation.
    pub fn new(config: Ini) -> (r: ModManager)
        ensures
            r.config == config,
            r.mods().len() == 0,
    {
        let r = ModManager { config, mod_datas: Vec::new() };
        assert(r.mods() =~= Seq::<ModView>::empty());
        r
    }

    /// A manager whose configuration is empty.
    pub fn empty() -> (r: ModManager)
        ensures
            r.in_sync(),
            r.mods().len() == 0,
    {
        let config = ini_new();
        let r = ModManager { config, mod_datas: Vec::new() };
        proof {
            crate::ini_doc::lemma_section_pos_none(ini_content(r.config), Some("Mods"@));
        }
        assert(r.mods() =~= Seq::<ModView>::empty());
        assert(names_of(r.mods()) =~= Seq::<Seq<char>>::empty());
        r
    }

    /// A manager over the configuration that `text` holds, or `None` where the
    /// text is not a well-formed INI document.
    pub fn from_config_text(text: &str) -> (r: Option<ModManager>)
        ensures
            r is Some <==> crate::ini_doc::parsed_ini(text@) is Some,
            r matches Some(m) ==> ini_content(m.config) == crate::ini_doc::parsed_ini(text@)->0
                && m.mods().len() == 0,
    {
        match crate::ini_doc::ini_parse(text) {
            Some(doc) => Some(ModManager::new(doc)),
            None => None,
        }
    }

    /// The text of the configuration, registry included, as it is saved.
    pub fn config_text(&self) -> (r: String)
        ensures
            r@ == crate::ini_doc::ini_written(ini_content(self.config)),
    {
        crate::ini_doc::ini_text(&self.config)
    }

    /// The registry entries, name and flag text, in priority order.
    pub fn registry_entries(&self) -> (r: Vec<(String, String)>)
        ensures
            pairs_view(r@) == registry_entries_of(ini_content(self.config)),
    {
        match ini_section(&self.config, "Mods") {
            Some(p) => p,
            None => {
                let v: Vec<(String, String)> = Vec::new();
                assert(pairs_view(v@) =~= Seq::<(Seq<char>, Seq<char>)>::empty());
                v
            },
        }
    }

    /// Rebuilds the list from the registry and the descriptors found for its
    /// entries (`found[i]` for the `i`-th entry), reporting drift. Where any
    /// entry was dropped or renamed, the registry is rewritten from the list.
    pub fn update_mods(&mut self, found: &Vec<Option<DescriptorFile>>) -> (r: Vec<Drift>)
        ensures
            final(self).mods() == reconcile_spec(
                registry_entries_of(ini_content(old(self).config)),
                found@,
                registry_entries_of(ini_content(old(self).config)).len(),
            ).0,
            drifts_view(r@) == reconcile_spec(
                registry_entries_of(ini_content(old(self).config)),
                found@,
                registry_entries_of(ini_content(old(self).config)).len(),
            ).1,
            ini_content(final(self).config) == (if reconcile_spec(
                registry_entries_of(ini_content(old(self).config)),
                found@,
                registry_entries_of(ini_content(old(self).config)).len(),
            ).2 {
                model_rewritten(ini_content(old(self).config), final(self).mods())
            } else {
                ini_content(old(self).config)
            }),
            final(self).in_sync(),
    {
        let entries = self.registry_entries();
        let rec = reconcile(&entries, found);
        self.mod_datas = rec.mods;
        if rec.needs_rewrite {
            set_mod_order_config(&mut self.config, &self.mod_datas);
        } else {
            proof {
                let m = ini_content(self.config);
                if crate::ini_doc::section_props(m, "Mods"@) is None {
                    assert(keys_of(pairs_view(entries@)) =~= Seq::<Seq<char>>::empty());
                }
            }
        }
        rec.drift
    }

    /// Installs the mod `name` whose directory is `dir`, given the text of
    /// its descriptor if one was found there. Installing a listed mod again
    /// changes nothing.
    pub fn install_mod(&mut self, name: &str, dir: &str, text: Option<String>) -> (r: Installed)
        requires
            old(self).in_sync(),
            name@.len() > 0,
        ensures
            final(self).mods() == install_spec(old(self).mods(), name@, dir@, text_view(text)),
            final(self).in_sync(),
            r is AlreadyPresent <==> final(self).mods() == old(self).mods(),
            r is AlreadyPresent ==> final(self).config == old(self).config,
            !(r is AlreadyPresent) ==> ini_content(final(self).config) == model_rewritten(
                ini_content(old(self).config),
                final(self).mods(),
            ),
            r is FromDescriptor ==> !install_candidate(name@, dir@, text_view(text)).1,
            r matches Installed::Synthesized(t) ==> install_candidate(
                name@,
                dir@,
                text_view(text),
            ).1 && t@ == crate::ini_doc::ini_written(
                crate::descriptor::descriptor_model(install_candidate(name@, dir@, text_view(text)).0),
            ),
    {
        if let Some(i) = position_of(&self.mod_datas, name) {
            assert(names_of(self.mods())[i as int] == name@);
            return Installed::AlreadyPresent;
        }
        let read = match &text {
            Some(t) => match read_descriptor(t.as_str(), dir) {
                Ok(m) => Some(m),
                Err(_) => None,
            },
            None => None,
        };
        let synth = read.is_none();
        let cand = match read {
            Some(m) => m,
            None => {
                let mut m = ModData::new();
                m.name = name.to_owned();
                m.path = dir.to_owned();
                assert(m@.scripts =~= Seq::<Seq<char>>::empty());
                assert(m@.author =~= Seq::<char>::empty());
                assert(m@.version =~= Seq::<char>::empty());
                assert(m@.category =~= Seq::<char>::empty());
                assert(m@.description =~= Seq::<char>::empty());
                assert(m@.page =~= Seq::<char>::empty());
                assert(m@ == synthesized(name@, dir@));
                m
            },
        };
        assert(cand@ == install_candidate(name@, dir@, text_view(text)).0);
        assert(synth == install_candidate(name@, dir@, text_view(text)).1);
        if let Some(i) = position_of(&self.mod_datas, cand.name.as_str()) {
            assert(names_of(self.mods())[i as int] == cand@.name);
            return Installed::AlreadyPresent;
        }
        let r = if synth {
            Installed::Synthesized(cand.write_data())
        } else {
            Installed::FromDescriptor
        };
        let ghost old_mods = self.mods();
        let placed_mod = ModData {
            name: cand.name,
            author: cand.author,
            version: cand.version,
            category: cand.category,
            description: cand.description,
            page: cand.page,
            path: cand.path,
            enabled: true,
            order: self.mod_datas.len(),
            scripts: cand.scripts,
        };
        self.mod_datas.push(placed_mod);
        proof {
            assert(self.mods() =~= old_mods.push(placed_mod@));
            lemma_unique_insert(old_mods, old_mods.len() as int, placed_mod@);
            assert(old_mods.insert(old_mods.len() as int, placed_mod@) =~= self.mods());
            assert(self.mods() != old_mods);
        }
        set_mod_order_config(&mut self.config, &self.mod_datas);
        r
    }

    /// Flips the enabled flag of the mod named `name`; `false`, with nothing
    /// changed, where no mod has that name.
    pub fn toggle_enabled(&mut self, name: &str) -> (r: bool)
        requires
            old(self).in_sync(),
        ensures
            r == names_of(old(self).mods()).contains(name@),
            final(self).mods() == toggled(old(self).mods(), name@),
            final(self).in_sync(),
            !r ==> final(self).config == old(self).config,
    {
        let ghost old_mods = self.mods();
        match position_of(&self.mod_datas, name) {
            None => {
                assert forall|j: int| 0 <= j < old_mods.len() implies old_mods[j].name != name@ by {
                    assert(names_of(old_mods)[j] == old_mods[j].name);
                }
                assert(toggled(old_mods, name@) =~= old_mods);
                false
            },
            Some(i) => {
                let m = self.mod_datas.remove(i);
                let enabled = !m.enabled;
                let flipped = ModData {
                    name: m.name,
                    author: m.author,
                    version: m.version,
                    category: m.category,
                    description: m.description,
                    page: m.page,
                    path: m.path,
                    enabled,
                    order: m.order,
                    scripts: m.scripts,
                };
                crate::registry::update_mod_config(&mut self.config, name, enabled);
                self.mod_datas.insert(i, flipped);
                proof {
                    assert forall|j: int| 0 <= j < old_mods.len() && j != i implies old_mods[j].name != name@ by {
                        if j < i {
                            assert(old_mods[j].name != old_mods[i as int].name);
                        } else {
                            assert(old_mods[i as int].name != old_mods[j].name);
                        }
                    }
                    assert(self.mods() =~= toggled(old_mods, name@));
                    assert(names_of(self.mods()) =~= names_of(old_mods));
                    assert(names_of(old_mods)[i as int] == name@);
                }
                set_mod_order_config(&mut self.config, &self.mod_datas);
                true
            },
        }
    }

    /// Drops the mod named `name` from the list and the registry; `false`,
    /// with nothing changed, where no mod has that name.
    pub fn remove_mod(&mut self, name: &str) -> (r: bool)
        requires
            old(self).in_sync(),
        ensures
            r == names_of(old(self).mods()).contains(name@),
            !r ==> final(self).mods() == old(self).mods() && final(self).config == old(self).config,
            r ==> !names_of(final(self).mods()).contains(name@),
            r ==> exists|i: int|
                0 <= i < old(self).mods().len() && old(self).mods()[i].name == name@
                    && final(self).mods() == renumbered(old(self).mods().remove(i)),
            final(self).in_sync(),
    {
        let ghost old_mods = self.mods();
        match position_of(&self.mod_datas, name) {
            None => false,
            Some(i) => {
                self.mod_datas.remove(i);
                proof {
                    assert(self.mods() =~= old_mods.remove(i as int));
                    lemma_unique_remove(old_mods, i as int);
                    assert(names_of(old_mods)[i as int] == name@);
                }
                crate::registry::remove_mod_config(&mut self.config, name);
                renumber(&mut self.mod_datas);
                proof {
                    lemma_renumbered_wf(old_mods.remove(i as int));
                }
                set_mod_order_config(&mut self.config, &self.mod_datas);
                true
            },
        }
    }

    /// Moves the mod at `from` to position `to`, then renumbers and rewrites
    /// the registry.
    pub fn reorder(&mut self, from: usize, to: usize)
        requires
            old(self).in_sync(),
            from < old(self).mods().len(),
            to < old(self).mods().len(),
        ensures
            final(self).mods() == renumbered(
                old(self).mods().remove(from as int).insert(to as int, old(self).mods()[from as int]),
            ),
            final(self).in_sync(),
    {
        let ghost old_mods = self.mods();
        let m = self.mod_datas.remove(from);
        self.mod_datas.insert(to, m);
        proof {
            lemma_unique_remove(old_mods, from as int);
            lemma_unique_insert(old_mods.remove(from as int), to as int, old_mods[from as int]);
            assert(self.mods() =~= old_mods.remove(from as int).insert(to as int, old_mods[from as int]));
        }
        renumber(&mut self.mod_datas);
        proof {
            lemma_renumbered_wf(old_mods.remove(from as int).insert(to as int, old_mods[from as int]));
        }
        set_mod_order_config(&mut self.config, &self.mod_datas);
    }

    /// Whether a new mod may take the name `name`.
    pub fn validate_new_mod(&self, name: &str) -> (r: Result<(), EditError>)
        ensures
            r == (match new_name_error(self.mods(), name@) {
                Some(e) => Err(e),
                None => Ok(()),
            }),
    {
        if name.unicode_len() == 0 {
            return Err(EditError::EmptyName);
        }
        match position_of(&self.mod_datas, name) {
            Some(i) => {
                assert(names_of(self.mods())[i as int] == name@);
                Err(EditError::DuplicateName)
            },
            None => Ok(()),
        }
    }

    /// Adds a newly created mod at the end of the list, where its name is
    /// free; the registry is rewritten.
    pub fn add_mod(&mut self, data: ModData) -> (r: Result<(), EditError>)
        requires
            old(self).in_sync(),
        ensures
            r == (match new_name_error(old(self).mods(), data@.name) {
                Some(e) => Err(e),
                None => Ok(()),
            }),
            r is Ok ==> final(self).mods() == old(self).mods().push(
                placed(data@, data@.enabled, old(self).mods().len()),
            ) && ini_content(final(self).config) == model_rewritten(
                ini_content(old(self).config),
                final(self).mods(),
            ),
            r is Err ==> final(self).mods() == old(self).mods() && final(self).config == old(
                self,
            ).config,
            final(self).in_sync(),
    {
        let checked = self.validate_new_mod(data.name.as_str());
        if checked.is_err() {
            return checked;
        }
        let ghost old_mods = self.mods();
        let order = self.mod_datas.len();
        let placed_mod = ModData {
            name: data.name,
            author: data.author,
            version: data.version,
            category: data.category,
            description: data.description,
            page: data.page,
            path: data.path,
            enabled: data.enabled,
            order,
            scripts: data.scripts,
        };
        self.mod_datas.push(placed_mod);
        proof {
            assert(self.mods() =~= old_mods.push(placed_mod@));
            lemma_unique_insert(old_mods, old_mods.len() as int, placed_mod@);
            assert(old_mods.insert(old_mods.len() as int, placed_mod@) =~= self.mods());
        }
        set_mod_order_config(&mut self.config, &self.mod_datas);
        Ok(())
    }

    /// Whether the mod at `index` may be renamed to `name`.
    pub fn validate_edit(&self, index: usize, name: &str) -> (r: Result<(), EditError>)
        requires
            index < self.mods().len(),
        ensures
            r == (match edit_name_error(self.mods(), index as int, name@) {
                Some(e) => Err(e),
                None => Ok(()),
            }),
    {
        if name.unicode_len() == 0 {
            return Err(EditError::EmptyName);
        }
        let mut j: usize = 0;
        while j < self.mod_datas.len()
            invariant
                j <= self.mods().len(),
                name@.len() > 0,
                forall|k: int| 0 <= k < j && k != index ==> self.mods()[k].name != name@,
            decreases self.mod_datas.len() - j,
        {
            if j != index && str_eq(self.mod_datas[j].name.as_str(), name) {
                assert(self.mods()[j as int].name == name@);
                return Err(EditError::DuplicateName);
            }
            j = j + 1;
        }
        Ok(())
    }

    /// Replaces the mod at `index` by its edited version, where the new name
    /// is free; the old name leaves the registry, which is then rewritten.
    pub fn commit_edit(&mut self, index: usize, data: ModData) -> (r: Result<(), EditError>)
        requires
            old(self).in_sync(),
            index < old(self).mods().len(),
        ensures
            r == (match edit_name_error(old(self).mods(), index as int, data@.name) {
                Some(e) => Err(e),
                None => Ok(()),
            }),
            r is Ok ==> final(self).mods() == old(self).mods().update(
                index as int,
                placed(data@, data@.enabled, index as nat),
            ),
            r is Err ==> final(self).mods() == old(self).mods() && final(self).config == old(
                self,
            ).config,
            final(self).in_sync(),
    {
        let checked = self.validate_edit(index, data.name.as_str());
        if checked.is_err() {
            return checked;
        }
        let ghost old_mods = self.mods();
        let previous = self.mod_datas.remove(index);
        crate::registry::remove_mod_config(&mut self.config, previous.name.as_str());
        let edited = ModData {
            name: data.name,
            author: data.author,
            version: data.version,
            category: data.category,
            description: data.description,
            page: data.page,
            path: data.path,
            enabled: data.enabled,
            order: index,
            scripts: data.scripts,
        };
        self.mod_datas.insert(index, edited);
        proof {
            let t = old_mods.update(index as int, edited@);
            assert(self.mods() =~= t);
            assert forall|a: int, b: int| 0 <= a < b < t.len() implies t[a].name != t[b].name by {
                if a != index && b != index {
                    assert(t[a] == old_mods[a] && t[b] == old_mods[b]);
                }
            }
        }
        set_mod_order_config(&mut self.config, &self.mod_datas);
        Ok(())
    }
}

/// Why a new mod may not take a name.
pub open spec fn new_name_error(mods: Seq<ModView>, name: Seq<char>) -> Option<EditError> {
    if name.len() == 0 {
        Some(EditError::EmptyName)
    } else if names_of(mods).contains(name) {
        Some(EditError::DuplicateName)
    } else {
        None
    }
}

/// Why the mod at `index` may not be renamed to `name`.
pub open spec fn edit_name_error(mods: Seq<ModView>, index: int, name: Seq<char>) -> Option<
    EditError,
> {
    if name.len() == 0 {
        Some(EditError::EmptyName)
    } else if exists|j: int| 0 <= j < mods.len() && j != index && mods[j].name == name {
        Some(EditError::DuplicateName)
    } else {
        None
    }
}

/// While the manager is in step, the registry lists exactly the mods of the
/// list, in list order: its `i`-th key is the name of the mod whose order is
/// `i`, and no name occurs twice.
pub proof fn lemma_registry_order(mgr: ModManager)
    requires
        mgr.in_sync(),
    ensures
        registry_keys(ini_content(mgr.config)).len() == mgr.mods().len(),
        forall|i: int|
            0 <= i < mgr.mods().len() ==> registry_keys(ini_content(mgr.config))[i]
                == mgr.mods()[i].name && mgr.mods()[i].order == i,
        forall|i: int, j: int|
            0 <= i < j < mgr.mods().len() ==> registry_keys(ini_content(mgr.config))[i]
                != registry_keys(ini_content(mgr.config))[j],
{
    let k = registry_keys(ini_content(mgr.config));
    assert forall|i: int| 0 <= i < mgr.mods().len() implies k[i] == mgr.mods()[i].name by {
        assert(names_of(mgr.mods())[i] == mgr.mods()[i].name);
    }
}

/// Installing the same mod a second time changes nothing, and afterwards the
/// mod is listed exactly once.
pub proof fn lemma_install_idempotent(
    mods: Seq<ModView>,
    name: Seq<char>,
    dir: Seq<char>,
    text: Option<Seq<char>>,
)
    requires
        list_wf(mods),
        name.len() > 0,
    ensures
        install_spec(install_spec(mods, name, dir, text), name, dir, text) == install_spec(
            mods,
            name,
            dir,
            text,
        ),
        list_wf(install_spec(mods, name, dir, text)),
        names_of(install_spec(mods, name, dir, text)).contains(name) || names_of(
            install_spec(mods, name, dir, text),
        ).contains(install_candidate(name, dir, text).0.name),
{
    let c = install_candidate(name, dir, text).0;
    let once = install_spec(mods, name, dir, text);
    if !(names_of(mods).contains(name) || names_of(mods).contains(c.name)) {
        let x = placed(c, true, mods.len());
        assert(names_of(once).last() == c.name);
        assert(names_of(once)[names_of(once).len() - 1] == c.name);
        lemma_unique_insert(mods, mods.len() as int, x);
        assert(mods.insert(mods.len() as int, x) =~= once);
    }
}

} // verus!
