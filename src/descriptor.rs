//! The per-mod descriptor: a small INI file with a `Description` section of
//! scalar fields and a `Scripts` section of repeated `ScriptPackage` keys.
use vstd::prelude::*;
use ini::Ini;
use crate::ini_doc::{
    first_value, ini_append, ini_content, ini_new, ini_parse, ini_section, ini_set, ini_text,
    ini_written, lemma_section_pos_at, lemma_section_pos_none, model_set, pairs_view, parsed_ini,
    section_props, values_of, without_key, IniModel, Props,
};
use crate::text::str_eq;

verus! {

/// Why a descriptor could not be read.
#[derive(Clone, Copy, Debug, PartialEq, Eq, Structural)]
pub enum DescriptorError {
    /// The text has no `Description` section.
    MissingSection,
    /// The `Description` section has no `Name`, or an empty one.
    MissingName,
    /// The text is not a well-formed INI document.
    ParseError,
}

/// One mod: what its descriptor says, where it lives, and its place in the
/// manager's list.
#[derive(Clone, Debug)]
pub struct ModData {
    pub name: String,
    pub author: String,
    pub version: String,
    pub category: String,
    pub description: String,
    pub page: String,
    /// The directory that holds the mod and its descriptor.
    pub path: String,
    pub enabled: bool,
    /// Position in the manager's list; recomputed whenever the list changes.
    pub order: usize,
    /// Script packages the mod needs, in the order the descriptor gives them.
    pub scripts: Vec<String>,
}

/// A mod as values.
pub struct ModView {
    pub name: Seq<char>,
    pub author: Seq<char>,
    pub version: Seq<char>,
    pub category: Seq<char>,
    pub description: Seq<char>,
    pub page: Seq<char>,
    pub path: Seq<char>,
    pub enabled: bool,
    pub order: nat,
    pub scripts: Seq<Seq<char>>,
}

pub open spec fn strings_view(v: Seq<String>) -> Seq<Seq<char>> {
    v.map_values(|s: String| s@)
}

impl View for ModData {
    type V = ModView;

    open spec fn view(&self) -> ModView {
        ModView {
            name: self.name@,
            author: self.author@,
            version: self.version@,
            category: self.category@,
            description: self.description@,
            page: self.page@,
            path: self.path@,
            enabled: self.enabled,
            order: self.order as nat,
            scripts: strings_view(self.scripts@),
        }
    }
}

/// The two mods agree on every field that the descriptor file holds.
pub open spec fn same_descriptor(a: ModView, b: ModView) -> bool {
    &&& a.name == b.name
    &&& a.author == b.author
    &&& a.version == b.version
    &&& a.category == b.category
    &&& a.description == b.description
    &&& a.page == b.page
    &&& a.scripts == b.scripts
}

/// The value of a scalar field, empty where the key is absent.
pub open spec fn field_or_empty(p: Props, k: Seq<char>) -> Seq<char> {
    match first_value(p, k) {
        Some(v) => v,
        None => Seq::empty(),
    }
}

/// The pairs of the `Description` section that a mod is written with.
pub open spec fn description_props(d: ModView) -> Props {
    seq![
        ("Name"@, d.name),
        ("Author"@, d.author),
        ("Version"@, d.version),
        ("Category"@, d.category),
        ("Description"@, d.description),
        ("Page"@, d.page),
    ]
}

/// The pairs of the `Scripts` section: one `ScriptPackage` per script.
pub open spec fn script_props(scripts: Seq<Seq<char>>) -> Props {
    scripts.map_values(|s: Seq<char>| ("ScriptPackage"@, s))
}

/// The document a mod is written as: an empty general section, the
/// `Description` section, and a `Scripts` section where there are scripts.
pub open spec fn descriptor_model(d: ModView) -> IniModel {
    let base = seq![
        (None::<Seq<char>>, Seq::<(Seq<char>, Seq<char>)>::empty()),
        (Some("Description"@), description_props(d)),
    ];
    if d.scripts.len() > 0 {
        base.push((Some("Scripts"@), script_props(d.scripts)))
    } else {
        base
    }
}

/// The mod that a document describes, for a mod living in `dir`; freshly read
/// mods are enabled and first in order.
pub open spec fn descriptor_of(m: IniModel, dir: Seq<char>) -> Result<ModView, DescriptorError> {
    match section_props(m, "Description"@) {
        None => Err(DescriptorError::MissingSection),
        Some(p) => match first_value(p, "Name"@) {
            None => Err(DescriptorError::MissingName),
            Some(name) => if name.len() == 0 {
                Err(DescriptorError::MissingName)
            } else {
                Ok(
                    ModView {
                        name,
                        author: field_or_empty(p, "Author"@),
                        version: field_or_empty(p, "Version"@),
                        category: field_or_empty(p, "Category"@),
                        description: field_or_empty(p, "Description"@),
                        page: field_or_empty(p, "Page"@),
                        path: dir,
                        enabled: true,
                        order: 0,
                        scripts: match section_props(m, "Scripts"@) {
                            Some(q) => values_of(q, "ScriptPackage"@),
                            None => Seq::empty(),
                        },
                    },
                )
            },
        },
    }
}

/// The mod that a descriptor text describes.
pub open spec fn descriptor_from_text(text: Seq<char>, dir: Seq<char>) -> Result<
    ModView,
    DescriptorError,
> {
    match parsed_ini(text) {
        None => Err(DescriptorError::ParseError),
        Some(m) => descriptor_of(m, dir),
    }
}

impl ModData {
    /// A blank mod named "New Mod": enabled, first in order, no scripts.
    pub fn new() -> (r: ModData)
        ensures
            r@.name == "New Mod"@,
            r@.author.len() == 0,
            r@.version.len() == 0,
            r@.category.len() == 0,
            r@.description.len() == 0,
            r@.page.len() == 0,
            r@.path.len() == 0,
            r@.enabled,
            r@.order == 0,
            r@.scripts.len() == 0,
    {
        ModData {
            name: "New Mod".to_owned(),
            author: String::new(),
            version: String::new(),
            category: String::new(),
            description: String::new(),
            page: String::new(),
            path: String::new(),
            enabled: true,
            order: 0,
            scripts: Vec::new(),
        }
    }

    /// The document this mod's descriptor is written as.
    pub fn to_ini(&self) -> (r: Ini)
        ensures
            ini_content(r) == descriptor_model(self@),
    {
        let mut doc = ini_new();
        let ghost d = self@;
        let ghost none_sec: Option<Seq<char>> = None;
        let ghost empty: Props = Seq::empty();
        proof {
            lemma_literals_distinct();
        }
        ini_set(&mut doc, "Description", "Name", self.name.as_str());
        proof {
            lemma_section_pos_none(seq![(none_sec, empty)], Some("Description"@));
        }
        assert(description_props(d).subrange(0, 1) =~= seq![("Name"@, d.name)]);
        assert(ini_content(doc) =~= seq![(none_sec, empty), (Some("Description"@), description_props(d).subrange(0, 1))]);
        ini_set(&mut doc, "Description", "Author", self.author.as_str());
        proof { lemma_set_step(ini_content(doc), d, 1); }
        ini_set(&mut doc, "Description", "Version", self.version.as_str());
        proof { lemma_set_step(ini_content(doc), d, 2); }
        ini_set(&mut doc, "Description", "Category", self.category.as_str());
        proof { lemma_set_step(ini_content(doc), d, 3); }
        ini_set(&mut doc, "Description", "Description", self.description.as_str());
        proof { lemma_set_step(ini_content(doc), d, 4); }
        ini_set(&mut doc, "Description", "Page", self.page.as_str());
        proof { lemma_set_step(ini_content(doc), d, 5); }
        let ghost base = ini_content(doc);
        assert(description_props(d).subrange(0, 6) =~= description_props(d));
        assert(base =~= seq![(none_sec, empty), (Some("Description"@), description_props(d))]);
        let mut k: usize = 0;
        while k < self.scripts.len()
            invariant
                k <= self.scripts@.len(),
                d == self@,
                none_sec == None::<Seq<char>>,
                base == seq![(none_sec, empty), (Some("Description"@), description_props(d))],
                "Description"@ != "Scripts"@,
                ini_content(doc) == (if k == 0 {
                    base
                } else {
                    base.push((Some("Scripts"@), script_props(self@.scripts.subrange(0, k as int))))
                }),
            decreases self.scripts.len() - k,
        {
            let ghost before = ini_content(doc);
            if k == 0 {
                ini_set(&mut doc, "Scripts", "ScriptPackage", self.scripts[k].as_str());
                proof {
                    assert forall|j: int| 0 <= j < base.len() implies base[j].0 != Some("Scripts"@) by {
                        lemma_literals_distinct();
                        if j == 1 {
                            assert(base[1].0 == Some("Description"@));
                        } else {
                            assert(base[0].0 == None::<Seq<char>>);
                        }
                    }
                    lemma_section_pos_none(base, Some("Scripts"@));
                }
                assert(script_props(d.scripts.subrange(0, 1)) =~= seq![("ScriptPackage"@, d.scripts[0])]);
            } else {
                ini_append(&mut doc, "Scripts", "ScriptPackage", self.scripts[k].as_str());
                proof {
                    assert forall|j: int| 0 <= j < 2 implies before[j].0 != Some("Scripts"@) by {
                        lemma_literals_distinct();
                        if j == 1 {
                            assert(before[1].0 == Some("Description"@));
                        } else {
                            assert(before[0].0 == None::<Seq<char>>);
                        }
                    }
                    lemma_section_pos_at(before, Some("Scripts"@), 2);
                }
                assert(script_props(d.scripts.subrange(0, k + 1)) =~= script_props(
                    d.scripts.subrange(0, k as int),
                ).push(("ScriptPackage"@, d.scripts[k as int])));
            }
            k = k + 1;
        }
        assert(d.scripts.subrange(0, k as int) =~= d.scripts);
        doc
    }

    /// The text of this mod's descriptor.
    pub fn write_data(&self) -> (r: String)
        ensures
            r@ == ini_written(descriptor_model(self@)),
    {
        let doc = self.to_ini();
        ini_text(&doc)
    }
}

/// The outcome of reading matches the outcome the model gives.
pub open spec fn read_matches(
    r: Result<ModData, DescriptorError>,
    s: Result<ModView, DescriptorError>,
) -> bool {
    match (r, s) {
        (Ok(m), Ok(v)) => m@ == v,
        (Err(e), Err(f)) => e == f,
        _ => false,
    }
}

fn value_or_empty(v: Option<String>) -> (r: String)
    ensures
        r@ == (match v {
            Some(s) => s@,
            None => Seq::<char>::empty(),
        }),
{
    match v {
        Some(s) => s,
        None => String::new(),
    }
}

impl ModData {
    /// The mod a descriptor document describes, for a mod living in `dir`.
    pub fn from_ini(doc: &Ini, dir: &str) -> (r: Result<ModData, DescriptorError>)
        ensures
            read_matches(r, descriptor_of(ini_content(*doc), dir@)),
    {
        let desc = match ini_section(doc, "Description") {
            None => return Err(DescriptorError::MissingSection),
            Some(p) => p,
        };
        let name = match lookup_first(&desc, "Name") {
            None => return Err(DescriptorError::MissingName),
            Some(n) => n,
        };
        if name.as_str().unicode_len() == 0 {
            return Err(DescriptorError::MissingName);
        }
        let author = value_or_empty(lookup_first(&desc, "Author"));
        let version = value_or_empty(lookup_first(&desc, "Version"));
        let category = value_or_empty(lookup_first(&desc, "Category"));
        let description = value_or_empty(lookup_first(&desc, "Description"));
        let page = value_or_empty(lookup_first(&desc, "Page"));
        let scripts = match ini_section(doc, "Scripts") {
            Some(q) => lookup_all(&q, "ScriptPackage"),
            None => {
                let v: Vec<String> = Vec::new();
                assert(strings_view(v@) =~= Seq::<Seq<char>>::empty());
                v
            },
        };
        let r = ModData {
            name,
            author,
            version,
            category,
            description,
            page,
            path: dir.to_owned(),
            enabled: true,
            order: 0,
            scripts,
        };
        Ok(r)
    }
}

/// Reads a descriptor text: the mod it describes, for a mod living in
/// `dir`, or why it describes none.
pub fn read_descriptor(text: &str, dir: &str) -> (r: Result<ModData, DescriptorError>)
    ensures
        read_matches(r, descriptor_from_text(text@, dir@)),
{
    match ini_parse(text) {
        None => Err(DescriptorError::ParseError),
        Some(doc) => ModData::from_ini(&doc, dir),
    }
}

/// Writing a mod's descriptor and reading the document back gives a mod that
/// agrees with it on every descriptor field, in the same directory.
pub proof fn lemma_descriptor_round_trip(d: ModView)
    requires
        d.name.len() > 0,
    ensures
        descriptor_of(descriptor_model(d), d.path) matches Ok(e) && same_descriptor(e, d) && e.path
            == d.path,
{
    lemma_literals_distinct();
    let m = descriptor_model(d);
    let p = description_props(d);
    assert(m[0].0 == None::<Seq<char>>);
    lemma_section_pos_at(m, Some("Description"@), 1);
    assert(section_props(m, "Description"@) == Some(p));
    assert forall|a: int, b: int| 0 <= a < b < 6 implies p[a].0 != p[b].0 by {}
    lemma_field_found(p, 0);
    lemma_field_found(p, 1);
    lemma_field_found(p, 2);
    lemma_field_found(p, 3);
    lemma_field_found(p, 4);
    lemma_field_found(p, 5);
    assert(first_value(p, p[0].0) == Some(p[0].1));
    assert(first_value(p, p[1].0) == Some(p[1].1));
    assert(first_value(p, p[2].0) == Some(p[2].1));
    assert(first_value(p, p[3].0) == Some(p[3].1));
    assert(first_value(p, p[4].0) == Some(p[4].1));
    assert(first_value(p, p[5].0) == Some(p[5].1));
    if d.scripts.len() > 0 {
        assert(m[1].0 == Some("Description"@));
        lemma_section_pos_at(m, Some("Scripts"@), 2);
        lemma_values_of_scripts(d.scripts);
    } else {
        assert forall|j: int| 0 <= j < m.len() implies m[j].0 != Some("Scripts"@) by {
            if j == 1 {
                assert(m[1].0 == Some("Description"@));
            }
        }
        lemma_section_pos_none(m, Some("Scripts"@));
        assert(d.scripts =~= Seq::<Seq<char>>::empty());
    }
}

/// In pairs with distinct keys, each key's first value is its own.
proof fn lemma_field_found(p: Props, i: int)
    requires
        0 <= i < p.len(),
        forall|a: int, b: int| 0 <= a < b < p.len() ==> p[a].0 != p[b].0,
    ensures
        first_value(p, p[i].0) == Some(p[i].1),
{
    lemma_values_of_absent(p.subrange(0, i), p[i].0);
    lemma_values_of_first(p, p[i].0, i);
}

/// No pair of `p` has key `k`: it holds no value under `k`.
proof fn lemma_values_of_absent(p: Props, k: Seq<char>)
    requires
        forall|i: int| 0 <= i < p.len() ==> p[i].0 != k,
    ensures
        values_of(p, k).len() == 0,
    decreases p.len(),
{
    if p.len() > 0 {
        lemma_values_of_absent(p.drop_last(), k);
    }
}

/// The `Scripts` section gives back its scripts, in order.
proof fn lemma_values_of_scripts(s: Seq<Seq<char>>)
    ensures
        values_of(script_props(s), "ScriptPackage"@) == s,
    decreases s.len(),
{
    if s.len() > 0 {
        lemma_values_of_scripts(s.drop_last());
        assert(script_props(s).drop_last() =~= script_props(s.drop_last()));
        assert(s.drop_last().push(s.last()) =~= s);
    } else {
        assert(s =~= Seq::<Seq<char>>::empty());
    }
}

/// One more `set` on the `Description` section, with a key not yet there,
/// adds its pair at the end.
proof fn lemma_set_step(m: IniModel, d: ModView, n: int)
    requires
        1 <= n < 6,
        m == model_set(
            seq![
                (None::<Seq<char>>, Seq::<(Seq<char>, Seq<char>)>::empty()),
                (Some("Description"@), description_props(d).subrange(0, n)),
            ],
            "Description"@,
            description_props(d)[n].0,
            description_props(d)[n].1,
        ),
    ensures
        m == seq![
            (None::<Seq<char>>, Seq::<(Seq<char>, Seq<char>)>::empty()),
            (Some("Description"@), description_props(d).subrange(0, n + 1)),
        ],
{
    lemma_literals_distinct();
    let none_sec: Option<Seq<char>> = None;
    let empty: Props = Seq::empty();
    let pre = seq![(none_sec, empty), (Some("Description"@), description_props(d).subrange(0, n))];
    lemma_section_pos_at(pre, Some("Description"@), 1);
    let p = description_props(d).subrange(0, n);
    assert forall|i: int| 0 <= i < p.len() implies p[i].0 != description_props(d)[n].0 by {}
    lemma_without_absent(p, description_props(d)[n].0);
    assert(p.push(description_props(d)[n]) =~= description_props(d).subrange(0, n + 1));
    assert(m =~= seq![(none_sec, empty), (Some("Description"@), description_props(d).subrange(0, n + 1))]);
}

/// The literals that name sections and keys differ from one another.
proof fn lemma_literals_distinct()
    ensures
        "Name"@ != "Author"@,
        "Name"@ != "Version"@,
        "Name"@ != "Category"@,
        "Name"@ != "Description"@,
        "Name"@ != "Page"@,
        "Author"@ != "Version"@,
        "Author"@ != "Category"@,
        "Author"@ != "Description"@,
        "Author"@ != "Page"@,
        "Version"@ != "Category"@,
        "Version"@ != "Description"@,
        "Version"@ != "Page"@,
        "Category"@ != "Description"@,
        "Category"@ != "Page"@,
        "Description"@ != "Page"@,
        "Description"@ != "Scripts"@,
{
    reveal_strlit("Name");
    reveal_strlit("Author");
    reveal_strlit("Version");
    reveal_strlit("Category");
    reveal_strlit("Description");
    reveal_strlit("Page");
    reveal_strlit("Scripts");
    assert("Name"@[0] == 'N');
    assert("Author"@[0] == 'A');
    assert("Version"@[0] == 'V');
    assert("Category"@[0] == 'C');
    assert("Description"@[0] == 'D');
    assert("Page"@[0] == 'P');
    assert("Scripts"@[0] == 'S');
}

/// Dropping a key that `p` does not hold changes nothing.
pub proof fn lemma_without_absent(p: Props, k: Seq<char>)
    requires
        forall|i: int| 0 <= i < p.len() ==> p[i].0 != k,
    ensures
        without_key(p, k) == p,
    decreases p.len(),
{
    if p.len() > 0 {
        lemma_without_absent(p.drop_last(), k);
        assert(p.drop_last().push(p.last()) =~= p);
    }
}

/// The first value under `key`, if any.
pub fn lookup_first(props: &Vec<(String, String)>, key: &str) -> (r: Option<String>)
    ensures
        r matches Some(s) ==> first_value(pairs_view(props@), key@) == Some(s@),
        r is None ==> first_value(pairs_view(props@), key@) is None,
{
    let mut i: usize = 0;
    while i < props.len()
        invariant
            i <= props@.len(),
            values_of(pairs_view(props@.subrange(0, i as int)), key@).len() == 0,
        decreases props.len() - i,
    {
        proof {
            lemma_values_of_prefix(pairs_view(props@), key@, i as int);
        }
        assert(pairs_view(props@.subrange(0, i + 1)) =~= pairs_view(props@).subrange(0, i + 1));
        assert(pairs_view(props@.subrange(0, i as int)) =~= pairs_view(props@).subrange(0, i as int));
        if str_eq(props[i].0.as_str(), key) {
            proof {
                lemma_values_of_first(pairs_view(props@), key@, i as int);
            }
            return Some(props[i].1.clone());
        }
        i = i + 1;
    }
    assert(pairs_view(props@.subrange(0, i as int)) =~= pairs_view(props@));
    None
}

/// Every value under `key`, in order.
pub fn lookup_all(props: &Vec<(String, String)>, key: &str) -> (r: Vec<String>)
    ensures
        strings_view(r@) == values_of(pairs_view(props@), key@),
{
    let mut r: Vec<String> = Vec::new();
    let mut i: usize = 0;
    while i < props.len()
        invariant
            i <= props@.len(),
            strings_view(r@) == values_of(pairs_view(props@.subrange(0, i as int)), key@),
        decreases props.len() - i,
    {
        let ghost before = r@;
        assert(pairs_view(props@.subrange(0, i + 1)).drop_last() =~= pairs_view(
            props@.subrange(0, i as int),
        ));
        if str_eq(props[i].0.as_str(), key) {
            r.push(props[i].1.clone());
            assert(strings_view(r@) =~= strings_view(before).push(props@[i as int].1@));
        }
        i = i + 1;
    }
    assert(props@.subrange(0, i as int) =~= props@);
    r
}

/// `values_of` over a prefix one longer.
proof fn lemma_values_of_prefix(p: Props, k: Seq<char>, i: int)
    requires
        0 <= i < p.len(),
    ensures
        values_of(p.subrange(0, i + 1), k) == (if p[i].0 == k {
            values_of(p.subrange(0, i), k).push(p[i].1)
        } else {
            values_of(p.subrange(0, i), k)
        }),
{
    assert(p.subrange(0, i + 1).drop_last() =~= p.subrange(0, i));
}

/// Where no earlier pair has key `k` and pair `i` has it, the first value
/// under `k` is the value of pair `i`.
proof fn lemma_values_of_first(p: Props, k: Seq<char>, i: int)
    requires
        0 <= i < p.len(),
        values_of(p.subrange(0, i), k).len() == 0,
        p[i].0 == k,
    ensures
        first_value(p, k) == Some(p[i].1),
    decreases p.len(),
{
    if i == p.len() - 1 {
        assert(p.drop_last() =~= p.subrange(0, i));
    } else {
        assert(p.drop_last().subrange(0, i) =~= p.subrange(0, i));
        lemma_values_of_first(p.drop_last(), k, i);
        lemma_values_of_nonempty(p.drop_last(), k, i);
    }
}

/// A value under `k` stays first when pairs are added after it.
proof fn lemma_values_of_nonempty(p: Props, k: Seq<char>, i: int)
    requires
        0 <= i < p.len(),
        p[i].0 == k,
    ensures
        values_of(p, k).len() > 0,
    decreases p.len(),
{
    if i < p.len() - 1 {
        lemma_values_of_nonempty(p.drop_last(), k, i);
    }
}

} // verus!
