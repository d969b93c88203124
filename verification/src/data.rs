//! The records that a parse produces.

use vstd::prelude::*;
use vstd::hash_map::StringHashMap;
use crate::grammar::EntryModel;

verus! {

/// The kinds of bibliographic record.
#[derive(Clone, Copy, Debug, PartialEq, Eq)]
pub enum BibType {
    Article,
    Book,
    InCollection,
    InProceedings,
    Misc,
    Report,
    Thesis,
    PhdThesis,
    MastersThesis,
}

/// The fields of an entry: a mapping from labels to values, in which each
/// label occurs once.
pub struct Fields {
    map: StringHashMap<String>,
}

impl View for Fields {
    type V = Map<Seq<char>, Seq<char>>;

    closed spec fn view(&self) -> Map<Seq<char>, Seq<char>> {
        self.map@.map_values(|v: String| v@)
    }
}

impl Fields {
    /// The empty mapping.
    pub fn new() -> (r: Fields)
        ensures
            r@ == Map::<Seq<char>, Seq<char>>::empty(),
    {
        let r = Fields { map: StringHashMap::new() };
        proof {
            assert(r@ =~= Map::<Seq<char>, Seq<char>>::empty());
        }
        r
    }

    /// Sets the value of `label`, replacing the one it had.
    pub fn insert(&mut self, label: String, value: String)
        ensures
            final(self)@ == old(self)@.insert(label@, value@),
    {
        self.map.insert(label, value);
        proof {
            assert(self@ =~= old(self)@.insert(label@, value@));
        }
    }

    /// The value of `label`, if it has one.
    pub fn get(&self, label: &str) -> (r: Option<&String>)
        ensures
            match r {
                Some(v) => self@.contains_key(label@) && v@ == self@[label@],
                None => !self@.contains_key(label@),
            },
    {
        self.map.get(label)
    }

    /// Whether `label` has a value.
    pub fn contains_key(&self, label: &str) -> (r: bool)
        ensures
            r == self@.contains_key(label@),
    {
        self.map.contains_key(label)
    }

    /// The number of labels.
    pub fn len(&self) -> (r: usize)
        ensures
            r == self@.dom().len(),
    {
        proof {
            assert(self@.dom() =~= self.map@.dom());
        }
        self.map.len()
    }
}

/// One bibliographic record.
pub struct Entry {
    pub type_label: String,
    pub citation_key: String,
    pub fields: Fields,
}

impl View for Entry {
    type V = EntryModel;

    open spec fn view(&self) -> EntryModel {
        EntryModel {
            type_label: self.type_label@,
            citation_key: self.citation_key@,
            fields: self.fields@,
        }
    }
}

} // verus!
