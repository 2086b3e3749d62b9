//! INI documents, held in the `ini` crate's `Ini` and seen through a model:
//! the sections in document order, each with its key/value pairs in order.
use vstd::prelude::*;
use ini::{EscapePolicy, Ini};

verus! {

/// The key/value pairs of one section, in the order they are written.
pub type Props = Seq<(Seq<char>, Seq<char>)>;

/// The sections of a document in order; `None` names the general section.
pub type IniModel = Seq<(Option<Seq<char>>, Props)>;

#[verifier::external_type_specification]
#[verifier::external_body]
pub struct ExIni(Ini);

/// What an `Ini` holds: its sections with their pairs.
pub uninterp spec fn ini_content(i: Ini) -> IniModel;

/// The document that `Ini::load_from_str_noescape` builds from a text, or
/// `None` where it reports a parse error.
pub uninterp spec fn parsed_ini(text: Seq<char>) -> Option<IniModel>;

/// The text that `Ini::write_to_policy` writes for a document when nothing is
/// escaped.
pub uninterp spec fn ini_written(m: IniModel) -> Seq<char>;

/// Position of the first section named `s`, or -1.
pub open spec fn section_pos(m: IniModel, s: Option<Seq<char>>) -> int
    decreases m.len(),
{
    if m.len() == 0 {
        -1
    } else {
        let r = section_pos(m.drop_last(), s);
        if r >= 0 {
            r
        } else if m.last().0 == s {
            m.len() - 1
        } else {
            -1
        }
    }
}

/// The first section named `s` stands at `i`.
pub proof fn lemma_section_pos_at(m: IniModel, s: Option<Seq<char>>, i: int)
    requires
        0 <= i < m.len(),
        m[i].0 == s,
        forall|j: int| 0 <= j < i ==> m[j].0 != s,
    ensures
        section_pos(m, s) == i,
    decreases m.len(),
{
    if i < m.len() - 1 {
        lemma_section_pos_at(m.drop_last(), s, i);
    } else {
        lemma_section_pos_none(m.drop_last(), s);
    }
}

/// No section is named `s`.
pub proof fn lemma_section_pos_none(m: IniModel, s: Option<Seq<char>>)
    requires
        forall|j: int| 0 <= j < m.len() ==> m[j].0 != s,
    ensures
        section_pos(m, s) == -1,
    decreases m.len(),
{
    if m.len() > 0 {
        lemma_section_pos_none(m.drop_last(), s);
    }
}

/// What `section_pos` gives: the first section of that name, or -1 where
/// there is none.
pub proof fn lemma_section_pos_first(m: IniModel, s: Option<Seq<char>>)
    ensures
        -1 <= section_pos(m, s) < m.len(),
        section_pos(m, s) >= 0 ==> m[section_pos(m, s)].0 == s,
        forall|j: int| 0 <= j < section_pos(m, s) ==> m[j].0 != s,
        section_pos(m, s) == -1 ==> forall|j: int| 0 <= j < m.len() ==> m[j].0 != s,
    decreases m.len(),
{
    if m.len() > 0 {
        lemma_section_pos_first(m.drop_last(), s);
        assert forall|j: int| 0 <= j < m.len() - 1 implies m.drop_last()[j] == m[j] by {}
    }
}

/// The pairs of the first section named `s`.
pub open spec fn section_props(m: IniModel, s: Seq<char>) -> Option<Props> {
    let p = section_pos(m, Some(s));
    if p >= 0 {
        Some(m[p].1)
    } else {
        None
    }
}

/// The pairs of `p` whose key is not `k`, in order.
pub open spec fn without_key(p: Props, k: Seq<char>) -> Props
    decreases p.len(),
{
    if p.len() == 0 {
        p
    } else {
        let rest = without_key(p.drop_last(), k);
        if p.last().0 == k {
            rest
        } else {
            rest.push(p.last())
        }
    }
}

/// The values that `p` holds under key `k`, in order.
pub open spec fn values_of(p: Props, k: Seq<char>) -> Seq<Seq<char>>
    decreases p.len(),
{
    if p.len() == 0 {
        Seq::empty()
    } else {
        let rest = values_of(p.drop_last(), k);
        if p.last().0 == k {
            rest.push(p.last().1)
        } else {
            rest
        }
    }
}

/// The first value under key `k`.
pub open spec fn first_value(p: Props, k: Seq<char>) -> Option<Seq<char>> {
    let v = values_of(p, k);
    if v.len() > 0 {
        Some(v[0])
    } else {
        None
    }
}

/// The keys of `p`, in order.
pub open spec fn keys_of(p: Props) -> Seq<Seq<char>> {
    p.map_values(|e: (Seq<char>, Seq<char>)| e.0)
}

/// `m` after setting `k` to `v` in the first section named `s`: the earlier
/// pairs with key `k` go, the new pair comes last; a missing section is
/// added at the end.
pub open spec fn model_set(m: IniModel, s: Seq<char>, k: Seq<char>, v: Seq<char>) -> IniModel {
    let p = section_pos(m, Some(s));
    if p >= 0 {
        m.update(p, (Some(s), without_key(m[p].1, k).push((k, v))))
    } else {
        m.push((Some(s), seq![(k, v)]))
    }
}

/// `m` with the pairs of the first section named `s` replaced by `q`.
pub open spec fn model_with_props(m: IniModel, s: Seq<char>, q: Props) -> IniModel {
    let p = section_pos(m, Some(s));
    if p >= 0 {
        m.update(p, (Some(s), q))
    } else {
        m
    }
}

/// `m` without any section named `s`.
pub open spec fn model_delete(m: IniModel, s: Seq<char>) -> IniModel
    decreases m.len(),
{
    if m.len() == 0 {
        m
    } else {
        let rest = model_delete(m.drop_last(), s);
        if m.last().0 == Some(s) {
            rest
        } else {
            rest.push(m.last())
        }
    }
}

/// The pairs of a `Vec` of owned strings, as values.
pub open spec fn pairs_view(v: Seq<(String, String)>) -> Props {
    v.map_values(|e: (String, String)| (e.0@, e.1@))
}

/// Relies on `Ini::new`: a document that holds only an empty general
/// section.
#[verifier::external_body]
pub(crate) fn ini_new() -> (r: Ini)
    ensures
        ini_content(r) == seq![(None::<Seq<char>>, Seq::<(Seq<char>, Seq<char>)>::empty())],
{
    Ini::new()
}

/// Relies on `Ini::load_from_str_noescape`: backslashes are kept as they
/// stand.
#[verifier::external_body]
pub(crate) fn ini_parse(text: &str) -> (r: Option<Ini>)
    ensures
        r is Some <==> parsed_ini(text@) is Some,
        r matches Some(i) ==> ini_content(i) == parsed_ini(text@)->0,
{
    Ini::load_from_str_noescape(text).ok()
}

/// Relies on `Ini::write_to_policy` with `EscapePolicy::Nothing`, writing
/// into memory.
#[verifier::external_body]
pub(crate) fn ini_text(i: &Ini) -> (r: String)
    ensures
        r@ == ini_written(ini_content(*i)),
{
    let mut buf: Vec<u8> = Vec::new();
    i.write_to_policy(&mut buf, EscapePolicy::Nothing).unwrap_or_default();
    String::from_utf8(buf).unwrap_or_default()
}

/// Relies on `Ini::section` and `Properties::iter`: the pairs of the first
/// section of that name, in order.
#[verifier::external_body]
pub(crate) fn ini_section(i: &Ini, s: &str) -> (r: Option<Vec<(String, String)>>)
    ensures
        r is Some <==> section_props(ini_content(*i), s@) is Some,
        r matches Some(v) ==> pairs_view(v@) == section_props(ini_content(*i), s@)->0,
{
    i.section(Some(s)).map(|p| p.iter().map(|(k, v)| (k.to_owned(), v.to_owned())).collect())
}

/// Relies on `SectionSetter::set`: replaces every value of `k` in the first
/// section named `s` by one pair at the end, adding the section if missing.
#[verifier::external_body]
pub(crate) fn ini_set(i: &mut Ini, s: &str, k: &str, v: &str)
    ensures
        ini_content(*final(i)) == model_set(ini_content(*old(i)), s@, k@, v@),
{
    i.with_section(Some(s)).set(k, v);
}

/// Relies on `Ini::section_mut` and `Properties::append`: adds a pair at the
/// end of the first section named `s`; `false`, with nothing changed, where
/// there is no such section.
#[verifier::external_body]
pub(crate) fn ini_append(i: &mut Ini, s: &str, k: &str, v: &str) -> (r: bool)
    ensures
        r == (section_props(ini_content(*old(i)), s@) is Some),
        ini_content(*final(i)) == (if r {
            model_with_props(
                ini_content(*old(i)),
                s@,
                section_props(ini_content(*old(i)), s@)->0.push((k@, v@)),
            )
        } else {
            ini_content(*old(i))
        }),
{
    match i.section_mut(Some(s)) {
        Some(p) => {
            p.append(k, v);
            true
        },
        None => false,
    }
}

/// Relies on `Ini::section_mut` and `Properties::remove_all`: drops every
/// pair with key `k` from the first section named `s`; `false`, with nothing
/// changed, where there is no such section.
#[verifier::external_body]
pub(crate) fn ini_remove_all(i: &mut Ini, s: &str, k: &str) -> (r: bool)
    ensures
        r == (section_props(ini_content(*old(i)), s@) is Some),
        ini_content(*final(i)) == (if r {
            model_with_props(
                ini_content(*old(i)),
                s@,
                without_key(section_props(ini_content(*old(i)), s@)->0, k@),
            )
        } else {
            ini_content(*old(i))
        }),
{
    match i.section_mut(Some(s)) {
        Some(p) => {
            p.remove_all(k).for_each(drop);
            true
        },
        None => false,
    }
}

/// Relies on `Ini::delete`: every section named `s` goes.
#[verifier::external_body]
pub(crate) fn ini_delete_section(i: &mut Ini, s: &str)
    ensures
        ini_content(*final(i)) == model_delete(ini_content(*old(i)), s@),
{
    i.delete(Some(s));
}

/// Relies on `Ini::delete_from`: every pair with key `k` leaves the first
/// section named `s`.
#[verifier::external_body]
pub(crate) fn ini_delete_key(i: &mut Ini, s: &str, k: &str)
    ensures
        ini_content(*final(i)) == (match section_props(ini_content(*old(i)), s@) {
            Some(p) => model_with_props(ini_content(*old(i)), s@, without_key(p, k@)),
            None => ini_content(*old(i)),
        }),
{
    i.delete_from(Some(s), k);
}

} // verus!
