//! Configuration files in sections of keys and values, read and written by
//! `tini`.

use vstd::prelude::*;

use crate::text::compose::join;

verus! {

/// The items of one section, in order.
pub type Items = Seq<(Seq<char>, Seq<char>)>;

/// The sections of a document, in order.
pub type Sections = Seq<(Seq<char>, Items)>;

/// A parsed document of `tini`.
#[verifier::external_type_specification]
#[verifier::external_body]
pub struct ExIni(tini::Ini);

/// The sections that a document holds, in the order in which it gives them out.
pub uninterp spec fn ini_sections(ini: tini::Ini) -> Seq<(Seq<char>, Seq<(Seq<char>, Seq<char>)>)>;

/// The name of the section that the next change of a document is made in.
pub uninterp spec fn ini_cursor(ini: tini::Ini) -> Seq<char>;

/// What `tini` makes of a text: the sections, or the message of the error.
pub uninterp spec fn ini_document(text: Seq<char>) -> Result<
    Seq<(Seq<char>, Seq<(Seq<char>, Seq<char>)>)>,
    Seq<char>,
>;

/// Whether no two items have one key.
pub open spec fn keys_differ(items: Items) -> bool {
    forall|i: int, j: int|
        0 <= i < j < items.len() ==> (#[trigger] items[i]).0 != (#[trigger] items[j]).0
}

/// Whether no two sections have one name, and no two items of a section one
/// key.
pub open spec fn names_differ(doc: Sections) -> bool {
    &&& forall|i: int, j: int|
        0 <= i < j < doc.len() ==> (#[trigger] doc[i]).0 != (#[trigger] doc[j]).0
    &&& forall|i: int| 0 <= i < doc.len() ==> keys_differ((#[trigger] doc[i]).1)
}

/// The place of the section of that name, or the number of sections.
pub open spec fn section_index(doc: Sections, name: Seq<char>) -> int
    decreases doc.len(),
{
    if doc.len() == 0 {
        0
    } else if doc[0].0 == name {
        0
    } else {
        1 + section_index(doc.skip(1), name)
    }
}

/// The place of the item of that key, or the number of items.
pub open spec fn key_index(items: Items, key: Seq<char>) -> int
    decreases items.len(),
{
    if items.len() == 0 {
        0
    } else if items[0].0 == key {
        0
    } else {
        1 + key_index(items.skip(1), key)
    }
}

/// The items of the section of that name, or none.
pub open spec fn section_items(doc: Sections, name: Seq<char>) -> Items {
    let i = section_index(doc, name);
    if 0 <= i < doc.len() {
        doc[i].1
    } else {
        Seq::empty()
    }
}

/// The value of the key in the section, if there is one.
pub open spec fn lookup(doc: Sections, name: Seq<char>, key: Seq<char>) -> Option<Seq<char>> {
    let items = section_items(doc, name);
    let i = key_index(items, key);
    if 0 <= i < items.len() {
        Some(items[i].1)
    } else {
        None
    }
}

/// The items without that of the key. The last item takes its place.
pub open spec fn without_key(items: Items, key: Seq<char>) -> Items {
    let i = key_index(items, key);
    if 0 <= i < items.len() {
        items.update(i, items.last()).drop_last()
    } else {
        items
    }
}

/// The document without the key in the section. The section stays.
pub open spec fn erased(doc: Sections, name: Seq<char>, key: Seq<char>) -> Sections {
    let i = section_index(doc, name);
    if 0 <= i < doc.len() {
        doc.update(i, (doc[i].0, without_key(doc[i].1, key)))
    } else {
        doc
    }
}

/// The document without the keys in the section.
pub open spec fn erased_all(doc: Sections, name: Seq<char>, keys: Seq<Seq<char>>) -> Sections
    decreases keys.len(),
{
    if keys.len() == 0 {
        doc
    } else {
        erased(erased_all(doc, name, keys.drop_last()), name, keys.last())
    }
}

/// The lines of the items.
pub open spec fn item_lines(items: Items) -> Seq<Seq<char>> {
    items.map_values(|e: (Seq<char>, Seq<char>)| e.0 + " = "@ + e.1)
}

/// The lines of the document: each section's name in brackets, its items, and
/// an empty line.
pub open spec fn document_lines(doc: Sections) -> Seq<Seq<char>>
    decreases doc.len(),
{
    if doc.len() == 0 {
        Seq::empty()
    } else {
        document_lines(doc.drop_last()) + seq!["["@ + doc.last().0 + "]"@] + item_lines(
            doc.last().1,
        ) + seq![""@]
    }
}

/// The document as text.
pub open spec fn rendered(doc: Sections) -> Seq<char> {
    join(document_lines(doc), "\n"@)
}

/// `Ini::from_string`: what the parser makes of the text depends on the text
/// alone, and a document has each section and each of its keys once. What the
/// grammar is, and where the cursor stands, is left unsaid.
#[verifier::external_body]
pub(crate) fn parse_ini(text: &str) -> (r: Result<tini::Ini, String>)
    ensures
        match ini_document(text@) {
            Ok(doc) => r is Ok && ini_sections(r->Ok_0) == doc && names_differ(
                ini_sections(r->Ok_0),
            ),
            Err(m) => r is Err && r->Err_0@ == m,
        },
{
    tini::Ini::from_string(text).map_err(|e| e.to_string())
}

/// `Ini::get` for a `String`: the value of the key in the section.
#[verifier::external_body]
pub(crate) fn ini_get(ini: &tini::Ini, section: &str, key: &str) -> (r: Option<String>)
    ensures
        r.deep_view() == lookup(ini_sections(*ini), section@, key@),
{
    ini.get::<String>(section, key)
}

/// `Ini::section_iter`: the items of the section, in order.
#[verifier::external_body]
pub(crate) fn ini_section(ini: &tini::Ini, section: &str) -> (r: Vec<(String, String)>)
    ensures
        r.deep_view() == section_items(ini_sections(*ini), section@),
{
    ini.section_iter(section).map(|(k, v)| (k.clone(), v.clone())).collect()
}

/// `Ini::iter`: the sections with their items, in order.
#[verifier::external_body]
pub(crate) fn ini_all(ini: &tini::Ini) -> (r: Vec<(String, Vec<(String, String)>)>)
    ensures
        r.deep_view() == ini_sections(*ini),
{
    ini.iter()
        .map(|(n, s)| (n.clone(), s.iter().map(|(k, v)| (k.clone(), v.clone())).collect()))
        .collect()
}

/// `Ini::section`: the next change is made in that section.
#[verifier::external_body]
pub(crate) fn ini_at(ini: tini::Ini, section: &str) -> (r: tini::Ini)
    ensures
        ini_sections(r) == ini_sections(ini),
        ini_cursor(r) == section@,
{
    ini.section(section)
}

/// `Ini::erase`: takes the key out of the section that the cursor names. The
/// last item of the section takes its place.
#[verifier::external_body]
pub(crate) fn ini_erase(ini: tini::Ini, key: &str) -> (r: tini::Ini)
    ensures
        ini_sections(r) == erased(ini_sections(ini), ini_cursor(ini), key@),
        ini_cursor(r) == ini_cursor(ini),
{
    ini.erase(key)
}

/// `<Ini as Display>::fmt`, through `to_string`: the document as text.
#[verifier::external_body]
pub(crate) fn ini_text(ini: &tini::Ini) -> (r: String)
    ensures
        r@ == rendered(ini_sections(*ini)),
{
    ini.to_string()
}

/// The place of a section is that of the first with the name.
pub proof fn lemma_section_index(doc: Sections, name: Seq<char>)
    ensures
        0 <= section_index(doc, name) <= doc.len(),
        section_index(doc, name) < doc.len() ==> doc[section_index(doc, name)].0 == name,
        forall|i: int| 0 <= i < section_index(doc, name) ==> (#[trigger] doc[i]).0 != name,
    decreases doc.len(),
{
    if doc.len() > 0 && doc[0].0 != name {
        lemma_section_index(doc.skip(1), name);
        assert forall|i: int| 0 <= i < section_index(doc, name) implies (#[trigger] doc[i]).0
            != name by {
            if i > 0 {
                assert(doc.skip(1)[i - 1] == doc[i]);
            }
        }
    }
}

/// The place of a key is that of the first with it.
pub proof fn lemma_key_index(items: Items, key: Seq<char>)
    ensures
        0 <= key_index(items, key) <= items.len(),
        key_index(items, key) < items.len() ==> items[key_index(items, key)].0 == key,
        forall|i: int| 0 <= i < key_index(items, key) ==> (#[trigger] items[i]).0 != key,
    decreases items.len(),
{
    if items.len() > 0 && items[0].0 != key {
        lemma_key_index(items.skip(1), key);
        assert forall|i: int| 0 <= i < key_index(items, key) implies (#[trigger] items[i]).0
            != key by {
            if i > 0 {
                assert(items.skip(1)[i - 1] == items[i]);
            }
        }
    }
}

/// What a key's value is, by its place.
proof fn lemma_value_at(items: Items, i: int)
    requires
        keys_differ(items),
        0 <= i < items.len(),
    ensures
        key_index(items, items[i].0) == i,
{
    lemma_key_index(items, items[i].0);
    let j = key_index(items, items[i].0);
    if j < i {
        assert(items[j].0 != items[i].0);
    }
}

/// Taking a key out takes out that key and no other.
pub proof fn lemma_without_key(items: Items, key: Seq<char>, k: Seq<char>)
    requires
        keys_differ(items),
    ensures
        keys_differ(without_key(items, key)),
        ({
            let before = key_index(items, k);
            let left = without_key(items, key);
            let now = key_index(left, k);
            if k == key {
                now == left.len()
            } else {
                &&& (now < left.len()) == (before < items.len())
                &&& now < left.len() ==> left[now].1 == items[before].1
            }
        }),
{
    let i = key_index(items, key);
    let left = without_key(items, key);
    lemma_key_index(items, key);
    lemma_key_index(items, k);
    lemma_key_index(left, k);
    if i < items.len() {
        assert forall|a: int, b: int| 0 <= a < b < left.len() implies (#[trigger] left[a]).0 != (
        #[trigger] left[b]).0 by {
            let n = items.len() - 1;
            if a == i {
                assert(left[a] == items[n]);
                assert(left[b] == items[b]);
                assert(items[b].0 != items[n].0);
            } else if b == i {
                assert(left[b] == items[n]);
                assert(left[a] == items[a]);
                assert(items[a].0 != items[n].0);
            } else {
                assert(items[a].0 != items[b].0);
            }
        }
        let before = key_index(items, k);
        let now = key_index(left, k);
        if k == key {
            if now < left.len() {
                let src = if now == i {
                    items.len() - 1
                } else {
                    now
                };
                assert(items[src].0 == key);
                if src < i {
                    assert(items[src].0 != items[i].0);
                } else {
                    assert(items[i].0 != items[src].0);
                }
            }
        } else {
            if before < items.len() {
                let at = if before == items.len() - 1 {
                    i
                } else {
                    before
                };
                assert(left[at] == items[before]);
                lemma_value_at(left, at);
            }
            if now < left.len() {
                let src = if now == i {
                    items.len() - 1
                } else {
                    now
                };
                assert(items[src] == left[now]);
                lemma_value_at(items, src);
            }
        }
    }
}

/// Erasing a key leaves every other value as it was.
pub proof fn lemma_erased(
    doc: Sections,
    name: Seq<char>,
    key: Seq<char>,
    n: Seq<char>,
    k: Seq<char>,
)
    requires
        names_differ(doc),
    ensures
        names_differ(erased(doc, name, key)),
        lookup(erased(doc, name, key), n, k) == (if n == name && k == key {
            None
        } else {
            lookup(doc, n, k)
        }),
{
    let left = erased(doc, name, key);
    let i = section_index(doc, name);
    lemma_section_index(doc, name);
    lemma_section_index(doc, n);
    lemma_section_index(left, n);
    if i < doc.len() {
        assert forall|j: int| 0 <= j < doc.len() implies (#[trigger] left[j]).0 == doc[j].0 by {}
        lemma_without_key(doc[i].1, key, k);
        assert forall|a: int| 0 <= a < left.len() implies keys_differ((#[trigger] left[a]).1) by {
            assert(keys_differ(doc[a].1));
        }
        assert forall|a: int, b: int| 0 <= a < b < left.len() implies (#[trigger] left[a]).0 != (
        #[trigger] left[b]).0 by {
            assert(doc[a].0 != doc[b].0);
        }
        let p = section_index(doc, n);
        let q = section_index(left, n);
        if p < doc.len() {
            assert(left[p].0 == n);
            if q < p {
                assert(doc[q].0 == n);
            }
            assert(q == p);
        } else if q < left.len() {
            assert(doc[q].0 == n);
        }
        lemma_key_index(doc[i].1, k);
        lemma_key_index(left[i].1, k);
    } else {
        if n == name {
            assert(section_items(doc, n) =~= Seq::empty());
        }
    }
}

/// Erasing keys takes out those keys of that section and nothing else.
pub proof fn lemma_erased_all(
    doc: Sections,
    name: Seq<char>,
    keys: Seq<Seq<char>>,
    n: Seq<char>,
    k: Seq<char>,
)
    requires
        names_differ(doc),
    ensures
        names_differ(erased_all(doc, name, keys)),
        lookup(erased_all(doc, name, keys), n, k) == (if n == name && keys.contains(k) {
            None
        } else {
            lookup(doc, n, k)
        }),
    decreases keys.len(),
{
    if keys.len() > 0 {
        let d = keys.drop_last();
        lemma_erased_all(doc, name, d, n, k);
        lemma_erased(erased_all(doc, name, d), name, keys.last(), n, k);
        if keys.contains(k) {
            let j = choose|j: int| 0 <= j < keys.len() && keys[j] == k;
            if j < d.len() {
                assert(d[j] == k);
            }
        }
        if d.contains(k) {
            let j = choose|j: int| 0 <= j < d.len() && d[j] == k;
            assert(keys[j] == k);
        }
        if keys.last() == k {
            assert(keys[keys.len() - 1] == k);
        }
    }
}

} // verus!
