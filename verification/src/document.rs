//! The contents of a settings document: its sections in order, each with
//! its name (none for the general section) and its key/value pairs in
//! order.

use vstd::prelude::*;

verus! {

/// The key/value pairs of one section, in order.
pub type Properties = Seq<(Seq<char>, Seq<char>)>;

/// The sections of a document, in order.
pub type Document = Seq<(Option<Seq<char>>, Properties)>;

/// A document with only an empty general section.
pub open spec fn empty_document() -> Document {
    seq![(None::<Seq<char>>, Seq::<(Seq<char>, Seq<char>)>::empty())]
}

/// The index of the first section at or after `start` named `name`.
pub open spec fn find_section(doc: Document, name: Option<Seq<char>>, start: int) -> Option<int>
    decreases doc.len() - start,
{
    if start < 0 || start >= doc.len() {
        None
    } else if doc[start].0 == name {
        Some(start)
    } else {
        find_section(doc, name, start + 1)
    }
}

/// The first value of `key` among `props`, from `start` on.
pub open spec fn first_value(props: Properties, key: Seq<char>, start: int) -> Option<Seq<char>>
    decreases props.len() - start,
{
    if start < 0 || start >= props.len() {
        None
    } else if props[start].0 == key {
        Some(props[start].1)
    } else {
        first_value(props, key, start + 1)
    }
}

/// What a lookup of `key` in section `section` finds: the first value of the
/// key in the first section of that name.
pub open spec fn doc_get(doc: Document, section: Seq<char>, key: Seq<char>) -> Option<Seq<char>> {
    match find_section(doc, Some(section), 0) {
        Some(i) => first_value(doc[i].1, key, 0),
        None => None,
    }
}

/// `props` without any pair of key `key`, the others kept in order.
pub open spec fn without_key(props: Properties, key: Seq<char>) -> Properties
    decreases props.len(),
{
    if props.len() == 0 {
        props
    } else if props.last().0 == key {
        without_key(props.drop_last(), key)
    } else {
        without_key(props.drop_last(), key).push(props.last())
    }
}

/// Setting `key` in a section: every pair of that key is removed and the
/// new pair goes last.
pub open spec fn props_set(props: Properties, key: Seq<char>, value: Seq<char>) -> Properties {
    without_key(props, key).push((key, value))
}

/// Setting `key` to `value` in section `section`: done in the first section
/// of that name, or in a new section appended at the end when there is none.
pub open spec fn doc_set(doc: Document, section: Seq<char>, key: Seq<char>, value: Seq<char>) -> Document {
    match find_section(doc, Some(section), 0) {
        Some(i) => doc.update(i, (doc[i].0, props_set(doc[i].1, key, value))),
        None => doc.push((Some(section), seq![(key, value)])),
    }
}

proof fn lemma_find_section(doc: Document, name: Option<Seq<char>>, start: int)
    requires
        0 <= start,
    ensures
        find_section(doc, name, start) matches Some(i) ==> start <= i < doc.len() && doc[i].0
            == name && forall|j: int| start <= j < i ==> doc[j].0 != name,
        find_section(doc, name, start) is None ==> forall|j: int|
            start <= j < doc.len() ==> doc[j].0 != name,
    decreases doc.len() - start,
{
    if start < doc.len() && doc[start].0 != name {
        lemma_find_section(doc, name, start + 1);
    }
}

proof fn lemma_find_section_same(d1: Document, d2: Document, name: Option<Seq<char>>, start: int)
    requires
        0 <= start,
        d1.len() <= d2.len(),
        forall|j: int| start <= j < d1.len() ==> (d1[j].0 == name <==> d2[j].0 == name),
        find_section(d1, name, start) is Some,
    ensures
        find_section(d2, name, start) == find_section(d1, name, start),
    decreases d1.len() - start,
{
    if start < d1.len() && d1[start].0 != name {
        lemma_find_section_same(d1, d2, name, start + 1);
    }
}

pub proof fn lemma_find_section_push(doc: Document, e: (Option<Seq<char>>, Properties), name: Option<Seq<char>>, start: int)
    requires
        0 <= start <= doc.len(),
        find_section(doc, name, start) is None,
        e.0 == name,
    ensures
        find_section(doc.push(e), name, start) == Some(doc.len() as int),
    decreases doc.len() - start,
{
    if start < doc.len() {
        lemma_find_section_push(doc, e, name, start + 1);
    }
}

proof fn lemma_first_value_without(props: Properties, key: Seq<char>, other: Seq<char>)
    requires
        other != key,
    ensures
        first_value(without_key(props, key), other, 0) == first_value(props, other, 0),
    decreases props.len(),
{
    if props.len() > 0 {
        let p = props.drop_last();
        lemma_first_value_without(p, key, other);
        lemma_first_value_push(p, props.last(), other);
        lemma_first_value_push(without_key(p, key), props.last(), other);
        assert(p.push(props.last()) =~= props);
    }
}

/// Appending a pair does not change the first value of a key already there;
/// for a key not yet there it adds the pair's value.
proof fn lemma_first_value_push(props: Properties, e: (Seq<char>, Seq<char>), key: Seq<char>)
    ensures
        first_value(props.push(e), key, 0) == (match first_value(props, key, 0) {
            Some(v) => Some(v),
            None => if e.0 == key { Some(e.1) } else { None },
        }),
{
    lemma_first_value_push_from(props, e, key, 0);
}

proof fn lemma_first_value_push_from(props: Properties, e: (Seq<char>, Seq<char>), key: Seq<char>, start: int)
    requires
        0 <= start <= props.len(),
    ensures
        first_value(props.push(e), key, start) == (match first_value(props, key, start) {
            Some(v) => Some(v),
            None => if e.0 == key { Some(e.1) } else { None },
        }),
    decreases props.len() - start,
{
    if start < props.len() {
        assert(props.push(e)[start] == props[start]);
        lemma_first_value_push_from(props, e, key, start + 1);
    } else {
        assert(props.push(e)[start] == e);
        assert(first_value(props.push(e), key, start + 1) is None);
    }
}

proof fn lemma_first_value_without_self(props: Properties, key: Seq<char>)
    ensures
        first_value(without_key(props, key), key, 0) is None,
    decreases props.len(),
{
    if props.len() > 0 {
        let p = props.drop_last();
        lemma_first_value_without_self(p, key);
        lemma_first_value_push(without_key(p, key), props.last(), key);
    }
}

/// A lookup after a set: the key set reads its new value; every other key of
/// the section, and every other section, reads as before.
pub proof fn lemma_get_after_set(doc: Document, section: Seq<char>, key: Seq<char>, value: Seq<char>, s2: Seq<char>, k2: Seq<char>)
    ensures
        doc_get(doc_set(doc, section, key, value), s2, k2) == if s2 == section && k2 == key {
            Some(value)
        } else {
            doc_get(doc, s2, k2)
        },
{
    let r = doc_set(doc, section, key, value);
    lemma_find_section(doc, Some(section), 0);
    match find_section(doc, Some(section), 0) {
        Some(i) => {
            lemma_find_section_same(doc, r, Some(section), 0);
            if s2 == section {
                let p = doc[i].1;
                lemma_first_value_push(without_key(p, key), (key, value), k2);
                if k2 == key {
                    lemma_first_value_without_self(p, key);
                } else {
                    lemma_first_value_without(p, key, k2);
                }
            } else {
                lemma_find_section(doc, Some(s2), 0);
                if find_section(doc, Some(s2), 0) is Some {
                    lemma_find_section_same(doc, r, Some(s2), 0);
                    let j = find_section(doc, Some(s2), 0).unwrap();
                    assert(r[j] == doc[j]);
                } else {
                    lemma_find_section(r, Some(s2), 0);
                    if find_section(r, Some(s2), 0) is Some {
                        let j = find_section(r, Some(s2), 0).unwrap();
                        assert(r[j].0 == doc[j].0);
                    }
                }
            }
        },
        None => {
            lemma_find_section_push(doc, (Some(section), seq![(key, value)]), Some(section), 0);
            if s2 == section {
                let p: Properties = seq![(key, value)];
                assert(first_value(p, k2, 1) is None);
            } else {
                lemma_find_section(doc, Some(s2), 0);
                if find_section(doc, Some(s2), 0) is Some {
                    lemma_find_section_same(doc, r, Some(s2), 0);
                } else {
                    lemma_find_section(r, Some(s2), 0);
                    if find_section(r, Some(s2), 0) is Some {
                        let j = find_section(r, Some(s2), 0).unwrap();
                        assert(j < doc.len());
                        assert(r[j] == doc[j]);
                    }
                }
            }
        },
    }
}

/// A set touches nothing else: the sections keep their names and places,
/// every section but the one set is unchanged, and in that one the pairs of
/// other keys stay as they were, in order; with no section of the name, one
/// holding only the new pair is appended.
pub proof fn lemma_set_keeps_rest(doc: Document, section: Seq<char>, key: Seq<char>, value: Seq<char>)
    ensures
        ({
            let r = doc_set(doc, section, key, value);
            match find_section(doc, Some(section), 0) {
                Some(i) => {
                    &&& r.len() == doc.len()
                    &&& find_section(r, Some(section), 0) == Some(i)
                    &&& forall|j: int| 0 <= j < doc.len() && j != i ==> r[j] == doc[j]
                    &&& r[i].0 == doc[i].0
                    &&& without_key(r[i].1, key) == without_key(doc[i].1, key)
                    &&& first_value(r[i].1, key, 0) == Some(value)
                },
                None => r == doc.push((Some(section), seq![(key, value)])),
            }
        }),
{
    if let Some(i) = find_section(doc, Some(section), 0) {
        lemma_find_section(doc, Some(section), 0);
        lemma_find_section_same(doc, doc_set(doc, section, key, value), Some(section), 0);
        let p = doc[i].1;
        lemma_without_idempotent(p, key);
        assert(without_key(props_set(p, key, value), key) == without_key(without_key(p, key), key)) by {
            assert(props_set(p, key, value).drop_last() =~= without_key(p, key));
        }
        lemma_first_value_push(without_key(p, key), (key, value), key);
        lemma_first_value_without_self(p, key);
    }
}

/// The order in which two keys are removed does not matter.
pub proof fn lemma_without_commute(props: Properties, a: Seq<char>, b: Seq<char>)
    ensures
        without_key(without_key(props, a), b) == without_key(without_key(props, b), a),
    decreases props.len(),
{
    if props.len() > 0 {
        let p = props.drop_last();
        let e = props.last();
        lemma_without_commute(p, a, b);
        if e.0 != a {
            assert(without_key(p, a).push(e).drop_last() =~= without_key(p, a));
        }
        if e.0 != b {
            assert(without_key(p, b).push(e).drop_last() =~= without_key(p, b));
        }
        if e.0 != a && e.0 != b {
            assert(without_key(without_key(p, a), b).push(e).drop_last() =~= without_key(without_key(p, a), b));
            assert(without_key(without_key(p, b), a).push(e).drop_last() =~= without_key(without_key(p, b), a));
        }
    }
}

/// Removing a key twice is removing it once.
pub proof fn lemma_without_idempotent(props: Properties, key: Seq<char>)
    ensures
        without_key(without_key(props, key), key) == without_key(props, key),
    decreases props.len(),
{
    if props.len() > 0 {
        let p = props.drop_last();
        lemma_without_idempotent(p, key);
        if props.last().0 != key {
            assert(without_key(p, key).push(props.last()).drop_last() =~= without_key(p, key));
        }
    }
}

} // verus!

verus! {

/// Removing a key from a single pair.
pub proof fn lemma_without_single(k: Seq<char>, v: Seq<char>, key: Seq<char>)
    ensures
        without_key(seq![(k, v)], key) == if k == key {
            Seq::<(Seq<char>, Seq<char>)>::empty()
        } else {
            seq![(k, v)]
        },
{
    let p: Properties = seq![(k, v)];
    let e: Properties = Seq::empty();
    assert(p.drop_last() =~= e);
    assert(without_key(e, key) == e);
    assert(p.last() == (k, v));
    if k != key {
        assert(e.push((k, v)) =~= p);
    }
}

} // verus!
