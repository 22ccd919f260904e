//! The index itself: a fixed four-field document schema, a wholesale
//! delete-and-reinsert rebuild, and a reader whose view of the committed
//! documents advances only on an explicit reload.

use vstd::prelude::*;

use crate::codec::{enc_item, encode_item};
use crate::fms_entities::player_item::{PlayerItem, PlayerItemView};
use crate::text::{fold_chars, lower_seq, to_chars};

verus! {

/// One field of the fixed document schema.
#[derive(Debug, Clone, Copy, PartialEq, Eq, Structural)]
pub enum Field {
    Id,
    Name,
    Description,
    Item,
}

/// The fixed schema: a numeric id, indexed name and description text, and
/// the stored payload that reconstructs the whole record.
pub struct TantivySchema {
    pub id_field: Field,
    pub name_field: Field,
    pub descr_field: Field,
    pub item_field: Field,
}

/// The fixed document schema.
pub fn schema() -> (r: TantivySchema)
    ensures
        r.id_field == Field::Id,
        r.name_field == Field::Name,
        r.descr_field == Field::Description,
        r.item_field == Field::Item,
{
    TantivySchema {
        id_field: Field::Id,
        name_field: Field::Name,
        descr_field: Field::Description,
        item_field: Field::Item,
    }
}

/// One indexed document: the item id, its lowercased name and description
/// for matching, and the stored payload.
#[derive(Debug)]
pub struct Document {
    pub id: usize,
    pub name: Vec<char>,
    pub descr: Vec<char>,
    pub payload: Vec<u8>,
}

/// Mathematical shape of a [`Document`].
pub struct DocumentView {
    pub id: int,
    pub name: Seq<char>,
    pub descr: Seq<char>,
    pub payload: Seq<u8>,
}

impl View for Document {
    type V = DocumentView;

    open spec fn view(&self) -> DocumentView {
        DocumentView {
            id: self.id as int,
            name: self.name@,
            descr: self.descr@,
            payload: self.payload@,
        }
    }
}

/// A document list, seen mathematically.
pub open spec fn docs_view(docs: Seq<Document>) -> Seq<DocumentView> {
    docs.map_values(|d: Document| d@)
}

/// An element-wise copy of a vector of plain values.
pub fn copy_vals<T: Copy>(v: &Vec<T>) -> (r: Vec<T>)
    ensures
        r@ == v@,
{
    let mut r: Vec<T> = Vec::new();
    let mut i: usize = 0;
    while i < v.len()
        invariant
            i <= v@.len(),
            r@ == v@.take(i as int),
        decreases v@.len() - i,
    {
        r.push(v[i]);
        proof {
            assert(r@ =~= v@.take(i + 1));
        }
        i = i + 1;
    }
    proof {
        assert(v@.take(v@.len() as int) =~= v@);
    }
    r
}

impl Document {
    /// An identical copy of this document.
    pub fn duplicate(&self) -> (r: Document)
        ensures
            r@ == self@,
    {
        Document {
            id: self.id,
            name: copy_vals(&self.name),
            descr: copy_vals(&self.descr),
            payload: copy_vals(&self.payload),
        }
    }
}

impl PlayerItem {
    /// The document this record is indexed as: lowercased name and
    /// description for matching, and the framed record as stored payload.
    pub fn doc(&self) -> (r: Document)
        ensures
            r@.id == self@.id,
            r@.name == lower_seq(self@.name),
            r@.descr == lower_seq(
                match self@.description {
                    Some(d) => d,
                    None => Seq::<char>::empty(),
                },
            ),
            r@.payload == enc_item(self@),
    {
        let name_chars = to_chars(self.name.as_str());
        let descr_chars = match &self.description {
            Some(d) => to_chars(d.as_str()),
            None => Vec::new(),
        };
        Document {
            id: self.id,
            name: fold_chars(&name_chars),
            descr: fold_chars(&descr_chars),
            payload: encode_item(self),
        }
    }
}

/// The index: the last committed generation of documents, and the possibly
/// older generation the reader serves until it is told to reload.
pub struct SearchIndex {
    committed: Vec<Document>,
    visible: Vec<Document>,
}

impl SearchIndex {
    /// The last committed document generation.
    pub closed spec fn committed_docs(&self) -> Seq<DocumentView> {
        docs_view(self.committed@)
    }

    /// The generation the reader currently serves.
    pub closed spec fn visible_docs(&self) -> Seq<DocumentView> {
        docs_view(self.visible@)
    }

    /// A fresh, empty index: nothing committed, nothing visible.
    pub fn new() -> (r: SearchIndex)
        ensures
            r.committed_docs() == Seq::<DocumentView>::empty(),
            r.visible_docs() == Seq::<DocumentView>::empty(),
    {
        let r = SearchIndex { committed: Vec::new(), visible: Vec::new() };
        proof {
            assert(r.committed_docs() =~= Seq::<DocumentView>::empty());
            assert(r.visible_docs() =~= Seq::<DocumentView>::empty());
        }
        r
    }

    /// Make the committed generation the one the reader serves.
    pub fn reload(&mut self)
        ensures
            final(self).committed_docs() == old(self).committed_docs(),
            final(self).visible_docs() == old(self).committed_docs(),
    {
        let mut copy: Vec<Document> = Vec::new();
        let mut i: usize = 0;
        proof {
            assert(docs_view(copy@) =~= docs_view(self.committed@).take(0));
        }
        while i < self.committed.len()
            invariant
                i <= self.committed@.len(),
                docs_view(copy@) == docs_view(self.committed@).take(i as int),
                self.committed@ == old(self).committed@,
                self.visible@ == old(self).visible@,
            decreases self.committed@.len() - i,
        {
            let ghost c0 = copy@;
            let ghost cv = docs_view(self.committed@);
            let d = self.committed[i].duplicate();
            copy.push(d);
            proof {
                assert(docs_view(copy@) =~= docs_view(c0).push(cv[i as int]));
                assert(cv.take(i + 1) =~= cv.take(i as int).push(cv[i as int]));
            }
            i = i + 1;
        }
        proof {
            assert(docs_view(self.committed@).take(self.committed@.len() as int) =~= docs_view(
                self.committed@,
            ));
        }
        self.visible = copy;
    }
}

/// Rebuild the index wholesale: every existing document is deleted, the
/// given set is inserted and committed in one step. What the reader serves
/// does not change until it reloads.
pub fn add_documents(index: &mut SearchIndex, docs: Vec<Document>)
    ensures
        final(index).committed_docs() == docs_view(docs@),
        final(index).visible_docs() == old(index).visible_docs(),
{
    index.committed = docs;
}

/// The reader's current snapshot: the documents visible to queries, which
/// may lag one generation behind the last commit.
pub fn index_searcher(index: &SearchIndex) -> (r: &Vec<Document>)
    ensures
        docs_view(r@) == index.visible_docs(),
{
    &index.visible
}

} // verus!
