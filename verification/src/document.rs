//! The generic configuration document that the schema loader consumes: a
//! JSON-like tree of nulls, booleans, integers, text, arrays and objects.
//!
//! The host reads the configuration file and hands the parsed tree over as a
//! `ConfigValue`; everything the loader then does with it is verified here.

use vstd::prelude::*;

verus! {

/// One node of a configuration document. Object entries keep the order in
/// which the producer wrote them; a key that occurs twice is resolved in
/// favour of the first occurrence. Numbers without an `i64` representation
/// are of no use to the schema and are carried as `Null`.
pub enum ConfigValue {
    Null,
    Bool(bool),
    Int(i64),
    Text(String),
    Array(Vec<ConfigValue>),
    Object(Vec<(String, ConfigValue)>),
}

/// The mathematical shape of a configuration document.
pub enum DocValue {
    Null,
    Bool(bool),
    Int(int),
    Text(Seq<char>),
    Array(Seq<DocValue>),
    Object(Seq<(Seq<char>, DocValue)>),
}

pub open spec fn doc_view(v: ConfigValue) -> DocValue
    decreases v,
{
    match v {
        ConfigValue::Null => DocValue::Null,
        ConfigValue::Bool(b) => DocValue::Bool(b),
        ConfigValue::Int(i) => DocValue::Int(i as int),
        ConfigValue::Text(s) => DocValue::Text(s@),
        ConfigValue::Array(items) => DocValue::Array(docs_view(items@)),
        ConfigValue::Object(entries) => DocValue::Object(entries_view(entries@)),
    }
}

pub open spec fn docs_view(items: Seq<ConfigValue>) -> Seq<DocValue>
    decreases items,
{
    if items.len() == 0 {
        Seq::empty()
    } else {
        docs_view(items.drop_last()).push(doc_view(items.last()))
    }
}

pub open spec fn entries_view(entries: Seq<(String, ConfigValue)>) -> Seq<(Seq<char>, DocValue)>
    decreases entries,
{
    if entries.len() == 0 {
        Seq::empty()
    } else {
        entries_view(entries.drop_last()).push(
            (entries.last().0@, doc_view(entries.last().1)),
        )
    }
}

impl View for ConfigValue {
    type V = DocValue;

    open spec fn view(&self) -> DocValue {
        doc_view(*self)
    }
}

pub proof fn lemma_docs_view(items: Seq<ConfigValue>)
    ensures
        docs_view(items).len() == items.len(),
        forall|i: int| 0 <= i < items.len() ==> docs_view(items)[i] == doc_view(items[i]),
    decreases items,
{
    if items.len() > 0 {
        lemma_docs_view(items.drop_last());
    }
}

pub proof fn lemma_entries_view(entries: Seq<(String, ConfigValue)>)
    ensures
        entries_view(entries).len() == entries.len(),
        forall|i: int| 0 <= i < entries.len() ==> entries_view(entries)[i]
            == (entries[i].0@, doc_view(entries[i].1)),
    decreases entries,
{
    if entries.len() > 0 {
        lemma_entries_view(entries.drop_last());
    }
}

/// The value a key names in an object, resolved first-occurrence-first;
/// `None` when the key is absent or the document is not an object.
pub open spec fn obj_lookup(d: DocValue, key: Seq<char>) -> Option<DocValue> {
    match d {
        DocValue::Object(entries) => entries_lookup(entries, key),
        _ => None,
    }
}

pub open spec fn entries_lookup(entries: Seq<(Seq<char>, DocValue)>, key: Seq<char>)
    -> Option<DocValue>
    decreases entries,
{
    if entries.len() == 0 {
        None
    } else if entries[0].0 == key {
        Some(entries[0].1)
    } else {
        entries_lookup(entries.drop_first(), key)
    }
}

/// Indexing as the loader uses it: a missing key reads as `Null`.
pub open spec fn doc_index(d: DocValue, key: Seq<char>) -> DocValue {
    match obj_lookup(d, key) {
        Some(v) => v,
        None => DocValue::Null,
    }
}

proof fn lemma_entries_lookup_skip(entries: Seq<(Seq<char>, DocValue)>, key: Seq<char>, i: int)
    requires
        0 <= i <= entries.len(),
        forall|j: int| 0 <= j < i ==> entries[j].0 != key,
    ensures
        entries_lookup(entries, key) == entries_lookup(entries.skip(i), key),
    decreases i,
{
    if i > 0 {
        lemma_entries_lookup_skip(entries.drop_first(), key, i - 1);
        assert(entries.drop_first().skip(i - 1) =~= entries.skip(i));
    } else {
        assert(entries.skip(0) =~= entries);
    }
}

impl ConfigValue {
    /// Looks a key up in an object; the first matching entry wins. Returns
    /// `None` when the key is absent or when this node is not an object.
    pub fn get_field<'a>(&'a self, key: &String) -> (r: Option<&'a ConfigValue>)
        ensures
            match r {
                Some(v) => obj_lookup(self@, key@) == Some(v@),
                None => obj_lookup(self@, key@) is None,
            },
    {
        match self {
            ConfigValue::Object(entries) => {
                proof {
                    lemma_entries_view(entries@);
                }
                let ghost ev = entries_view(entries@);
                let n = entries.len();
                let mut i: usize = 0;
                while i < n
                    invariant
                        n == entries.len(),
                        ev == entries_view(entries@),
                        ev.len() == entries@.len(),
                        forall|j: int| 0 <= j < entries@.len() ==> ev[j]
                            == (entries@[j].0@, doc_view(entries@[j].1)),
                        0 <= i <= n,
                        forall|j: int| 0 <= j < i ==> ev[j].0 != key@,
                        self@ == DocValue::Object(ev),
                    decreases n - i,
                {
                    if entries[i].0 == *key {
                        proof {
                            lemma_entries_lookup_skip(ev, key@, i as int);
                        }
                        return Some(&entries[i].1);
                    }
                    i = i + 1;
                }
                proof {
                    lemma_entries_lookup_skip(ev, key@, n as int);
                    assert(ev.skip(n as int) =~= Seq::empty());
                }
                None
            },
            _ => None,
        }
    }
}

} // verus!
