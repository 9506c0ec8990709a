//! An in-memory model of a PDF object graph: an arena of objects indexed by
//! id, with the dictionary and object-table operations that the watermark
//! encoder needs.
use vstd::prelude::*;

verus! {

/// An object's id: its number and generation.
pub type ObjectId = (u32, u16);

/// A PDF object. A real number holds the bits of its `f32` value.
pub enum PdfObject {
    Null,
    Boolean(bool),
    Integer(i64),
    Real(u32),
    Name(Vec<u8>),
    Str(Vec<u8>, bool),
    Array(Vec<PdfObject>),
    Dictionary(Dictionary),
    Stream(Dictionary, Vec<u8>),
    Reference(ObjectId),
}

/// A PDF dictionary: keys with their values, in insertion order.
pub struct Dictionary {
    pub entries: Vec<(Vec<u8>, PdfObject)>,
}

/// The value of the first entry of `es` whose key is `k`.
pub open spec fn dict_get(es: Seq<(Vec<u8>, PdfObject)>, k: Seq<u8>) -> Option<PdfObject>
    decreases es.len(),
{
    if es.len() == 0 {
        None
    } else if es[0].0@ == k {
        Some(es[0].1)
    } else {
        dict_get(es.drop_first(), k)
    }
}

/// `a` and `b` hold the same bytes.
pub fn same_bytes(a: &[u8], b: &[u8]) -> (r: bool)
    ensures
        r == (a@ == b@),
{
    if a.len() != b.len() {
        return false;
    }
    let mut i: usize = 0;
    while i < a.len() && a[i] == b[i]
        invariant
            a@.len() == b@.len(),
            i <= a@.len(),
            forall|t: int| 0 <= t < i ==> a@[t] == b@[t],
        decreases a@.len() - i,
    {
        i = i + 1;
    }
    if i == a.len() {
        assert(a@ =~= b@);
        true
    } else {
        false
    }
}

fn key_index(es: &Vec<(Vec<u8>, PdfObject)>, k: &[u8]) -> (r: Option<usize>)
    ensures
        match r {
            Some(i) => i < es@.len() && es@[i as int].0@ == k@ && dict_get(es@, k@) == Some(
                es@[i as int].1,
            ) && forall|j: int| 0 <= j < i ==> es@[j].0@ != k@,
            None => dict_get(es@, k@) is None,
        },
{
    let mut i: usize = 0;
    assert(es@.subrange(0, es@.len() as int) =~= es@);
    while i < es.len()
        invariant
            i <= es@.len(),
            forall|j: int| 0 <= j < i ==> es@[j].0@ != k@,
            dict_get(es@, k@) == dict_get(es@.subrange(i as int, es@.len() as int), k@),
        decreases es@.len() - i,
    {
        assert(es@.subrange(i as int, es@.len() as int).drop_first() =~= es@.subrange(
            i + 1,
            es@.len() as int,
        ));
        if same_bytes(es[i].0.as_slice(), k) {
            return Some(i);
        }
        i = i + 1;
    }
    None
}

proof fn lemma_dict_get_update(
    es: Seq<(Vec<u8>, PdfObject)>,
    i: int,
    e: (Vec<u8>, PdfObject),
    k: Seq<u8>,
)
    requires
        0 <= i < es.len(),
        es[i].0@ == e.0@,
        forall|j: int| 0 <= j < i ==> es[j].0@ != e.0@,
    ensures
        dict_get(es.update(i, e), k) == if k == e.0@ {
            Some(e.1)
        } else {
            dict_get(es, k)
        },
    decreases es.len(),
{
    if i > 0 {
        assert(es.update(i, e).drop_first() =~= es.drop_first().update(i - 1, e));
        lemma_dict_get_update(es.drop_first(), i - 1, e, k);
    } else {
        assert(es.update(i, e).drop_first() =~= es.drop_first());
    }
}

proof fn lemma_dict_get_push(es: Seq<(Vec<u8>, PdfObject)>, e: (Vec<u8>, PdfObject), k: Seq<u8>)
    requires
        dict_get(es, e.0@) is None,
    ensures
        dict_get(es.push(e), k) == if k == e.0@ {
            Some(e.1)
        } else {
            dict_get(es, k)
        },
    decreases es.len(),
{
    if es.len() > 0 {
        assert(es.push(e).drop_first() =~= es.drop_first().push(e));
        assert(es.push(e)[0] == es[0]);
        lemma_dict_get_push(es.drop_first(), e, k);
    } else {
        assert(es.push(e).drop_first() =~= es);
    }
}

impl Dictionary {
    pub fn new() -> (r: Dictionary)
        ensures
            r.entries@.len() == 0,
    {
        Dictionary { entries: Vec::new() }
    }

    /// The value under `key`, if any.
    pub fn get(&self, key: &[u8]) -> (r: Option<&PdfObject>)
        ensures
            match r {
                Some(v) => dict_get(self.entries@, key@) == Some(*v),
                None => dict_get(self.entries@, key@) is None,
            },
    {
        match key_index(&self.entries, key) {
            Some(i) => Some(&self.entries[i].1),
            None => None,
        }
    }

    /// Sets `key` to `value` and returns the value it had: an existing entry
    /// keeps its place, a new one goes last.
    pub fn replace(&mut self, key: Vec<u8>, value: PdfObject) -> (r: Option<PdfObject>)
        ensures
            final(self).entries@.len() == old(self).entries@.len() + if dict_get(
                old(self).entries@,
                key@,
            ) is None {
                1int
            } else {
                0int
            },
            r == dict_get(old(self).entries@, key@),
            forall|k: Seq<u8>|
                #![trigger dict_get(final(self).entries@, k)]
                dict_get(final(self).entries@, k) == if k == key@ {
                    Some(value)
                } else {
                    dict_get(old(self).entries@, k)
                },
    {
        let ghost es = self.entries@;
        let ghost e = (key, value);
        match key_index(&self.entries, key.as_slice()) {
            Some(i) => {
                let (_, prev) = self.entries.remove(i);
                self.entries.insert(i, (key, value));
                assert(self.entries@ =~= es.update(i as int, e));
                proof {
                    assert forall|k: Seq<u8>| #[trigger]
                        dict_get(self.entries@, k) == (if k == e.0@ {
                            Some(e.1)
                        } else {
                            dict_get(es, k)
                        }) by {
                        lemma_dict_get_update(es, i as int, e, k);
                    }
                }
                Some(prev)
            },
            None => {
                self.entries.push((key, value));
                proof {
                    assert forall|k: Seq<u8>| #[trigger]
                        dict_get(self.entries@, k) == (if k == e.0@ {
                            Some(e.1)
                        } else {
                            dict_get(es, k)
                        }) by {
                        lemma_dict_get_push(es, e, k);
                    }
                }
                None
            },
        }
    }

    /// Sets `key` to `value`: an existing entry keeps its place, a new one
    /// goes last.
    pub fn set(&mut self, key: Vec<u8>, value: PdfObject)
        ensures
            final(self).entries@.len() == old(self).entries@.len() + if dict_get(
                old(self).entries@,
                key@,
            ) is None {
                1int
            } else {
                0int
            },
            forall|k: Seq<u8>|
                #![trigger dict_get(final(self).entries@, k)]
                dict_get(final(self).entries@, k) == if k == key@ {
                    Some(value)
                } else {
                    dict_get(old(self).entries@, k)
                },
    {
        let ghost es = self.entries@;
        let ghost e = (key, value);
        match key_index(&self.entries, key.as_slice()) {
            Some(i) => {
                self.entries.set(i, (key, value));
                proof {
                    assert forall|k: Seq<u8>| #[trigger]
                        dict_get(self.entries@, k) == (if k == e.0@ {
                            Some(e.1)
                        } else {
                            dict_get(es, k)
                        }) by {
                        lemma_dict_get_update(es, i as int, e, k);
                    }
                }
            },
            None => {
                self.entries.push((key, value));
                proof {
                    assert forall|k: Seq<u8>| #[trigger]
                        dict_get(self.entries@, k) == (if k == e.0@ {
                            Some(e.1)
                        } else {
                            dict_get(es, k)
                        }) by {
                        lemma_dict_get_push(es, e, k);
                    }
                }
            },
        }
    }
}

/// The value of the first object of `os` with id `id`.
pub open spec fn lookup(os: Seq<(ObjectId, PdfObject)>, id: ObjectId) -> Option<PdfObject>
    decreases os.len(),
{
    if os.len() == 0 {
        None
    } else if os[0].0 == id {
        Some(os[0].1)
    } else {
        lookup(os.drop_first(), id)
    }
}

fn id_index(os: &Vec<(ObjectId, PdfObject)>, id: ObjectId) -> (r: Option<usize>)
    ensures
        match r {
            Some(i) => i < os@.len() && os@[i as int].0 == id && lookup(os@, id) == Some(
                os@[i as int].1,
            ) && forall|j: int| 0 <= j < i ==> os@[j].0 != id,
            None => lookup(os@, id) is None,
        },
{
    let mut i: usize = 0;
    assert(os@.subrange(0, os@.len() as int) =~= os@);
    while i < os.len()
        invariant
            i <= os@.len(),
            forall|j: int| 0 <= j < i ==> os@[j].0 != id,
            lookup(os@, id) == lookup(os@.subrange(i as int, os@.len() as int), id),
        decreases os@.len() - i,
    {
        assert(os@.subrange(i as int, os@.len() as int).drop_first() =~= os@.subrange(
            i + 1,
            os@.len() as int,
        ));
        if os[i].0.0 == id.0 && os[i].0.1 == id.1 {
            return Some(i);
        }
        i = i + 1;
    }
    None
}

proof fn lemma_lookup_update(
    os: Seq<(ObjectId, PdfObject)>,
    i: int,
    e: (ObjectId, PdfObject),
    k: ObjectId,
)
    requires
        0 <= i < os.len(),
        os[i].0 == e.0,
        forall|j: int| 0 <= j < i ==> os[j].0 != e.0,
    ensures
        lookup(os.update(i, e), k) == if k == e.0 {
            Some(e.1)
        } else {
            lookup(os, k)
        },
    decreases os.len(),
{
    if i > 0 {
        assert(os.update(i, e).drop_first() =~= os.drop_first().update(i - 1, e));
        lemma_lookup_update(os.drop_first(), i - 1, e, k);
    } else {
        assert(os.update(i, e).drop_first() =~= os.drop_first());
    }
}

proof fn lemma_lookup_push(os: Seq<(ObjectId, PdfObject)>, e: (ObjectId, PdfObject), k: ObjectId)
    requires
        lookup(os, e.0) is None,
    ensures
        lookup(os.push(e), k) == if k == e.0 {
            Some(e.1)
        } else {
            lookup(os, k)
        },
    decreases os.len(),
{
    if os.len() > 0 {
        assert(os.push(e).drop_first() =~= os.drop_first().push(e));
        assert(os.push(e)[0] == os[0]);
        lemma_lookup_push(os.drop_first(), e, k);
    } else {
        assert(os.push(e).drop_first() =~= os);
    }
}

/// An object found by id stands in the table under that id.
pub proof fn lemma_lookup_some(os: Seq<(ObjectId, PdfObject)>, id: ObjectId)
    requires
        lookup(os, id) is Some,
    ensures
        exists|k: int| 0 <= k < os.len() && os[k].0 == id,
    decreases os.len(),
{
    if os[0].0 != id {
        lemma_lookup_some(os.drop_first(), id);
        let k = choose|k: int| 0 <= k < os.drop_first().len() && os.drop_first()[k].0 == id;
        assert(os[k + 1].0 == id);
    }
}

/// A document's object graph: its objects by id, the largest object number
/// handed out so far, and the ids of its pages in document order.
pub struct Document {
    pub objects: Vec<(ObjectId, PdfObject)>,
    pub max_id: u32,
    pub pages: Vec<ObjectId>,
}

impl Document {
    /// Every page's number is at most `max_id`, and no page is listed twice.
    pub open spec fn wf(&self) -> bool {
        (forall|k: int| 0 <= k < self.objects@.len() ==> self.objects@[k].0.0 <= self.max_id) && (
        forall|i: int| 0 <= i < self.pages@.len() ==> self.pages@[i].0 <= self.max_id) && (forall|
            i: int,
            j: int,
        |
            0 <= i < j < self.pages@.len() ==> self.pages@[i] != self.pages@[j])
    }

    /// The object with id `id`, if any.
    pub fn get_object(&self, id: ObjectId) -> (r: Option<&PdfObject>)
        ensures
            match r {
                Some(o) => lookup(self.objects@, id) == Some(*o),
                None => lookup(self.objects@, id) is None,
            },
    {
        match id_index(&self.objects, id) {
            Some(i) => Some(&self.objects[i].1),
            None => None,
        }
    }

    /// Puts `obj` under `id` and returns what was there.
    pub fn replace_object(&mut self, id: ObjectId, obj: PdfObject) -> (r: Option<PdfObject>)
        ensures
            r == lookup(old(self).objects@, id),
            final(self).max_id == old(self).max_id,
            final(self).pages == old(self).pages,
            forall|k: ObjectId|
                #![trigger lookup(final(self).objects@, k)]
                lookup(final(self).objects@, k) == if k == id {
                    Some(obj)
                } else {
                    lookup(old(self).objects@, k)
                },
    {
        let ghost os = self.objects@;
        let ghost e = (id, obj);
        match id_index(&self.objects, id) {
            Some(i) => {
                let (_, prev) = self.objects.remove(i);
                self.objects.insert(i, (id, obj));
                assert(self.objects@ =~= os.update(i as int, e));
                proof {
                    assert forall|k: ObjectId| #[trigger]
                        lookup(self.objects@, k) == (if k == e.0 {
                            Some(e.1)
                        } else {
                            lookup(os, k)
                        }) by {
                        lemma_lookup_update(os, i as int, e, k);
                    }
                }
                Some(prev)
            },
            None => {
                self.objects.push((id, obj));
                proof {
                    assert forall|k: ObjectId| #[trigger]
                        lookup(self.objects@, k) == (if k == e.0 {
                            Some(e.1)
                        } else {
                            lookup(os, k)
                        }) by {
                        lemma_lookup_push(os, e, k);
                    }
                }
                None
            },
        }
    }

    /// Adds `obj` under the next object number, generation 0, and returns its
    /// id.
    pub fn add_object(&mut self, obj: PdfObject) -> (r: ObjectId)
        requires
            old(self).max_id < u32::MAX,
        ensures
            r.0 == old(self).max_id + 1,
            r.1 == 0,
            final(self).max_id == old(self).max_id + 1,
            final(self).pages == old(self).pages,
            forall|k: ObjectId|
                #![trigger lookup(final(self).objects@, k)]
                lookup(final(self).objects@, k) == if k == r {
                    Some(obj)
                } else {
                    lookup(old(self).objects@, k)
                },
    {
        self.max_id = self.max_id + 1;
        let id: ObjectId = (self.max_id, 0);
        self.replace_object(id, obj);
        id
    }
}

} // verus!
