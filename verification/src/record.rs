use vstd::prelude::*;

verus! {

/// One record of the input stream: an opaque payload together with the
/// grouping key (for sequencing reads, the query name) under which
/// contiguous records form a template.
pub struct Record<P> {
    pub key: Vec<u8>,
    pub payload: P,
}

/// Every record of `rs` carries the key of its first record.
pub open spec fn uniform_key<P>(rs: Seq<Record<P>>) -> bool {
    forall|i: int| 0 <= i < rs.len() ==> (#[trigger] rs[i]).key@ == rs[0].key@
}

/// A contiguous run of records sharing one grouping key, as encountered
/// in the input. Records keep their source order; a template is never
/// split, nor merged with records of another key.
pub struct Template<P> {
    records: Vec<Record<P>>,
}

impl<P> View for Template<P> {
    type V = Seq<Record<P>>;

    closed spec fn view(&self) -> Seq<Record<P>> {
        self.records@
    }
}

impl<P> Template<P> {
    /// A template is non-empty and all its records share one key.
    pub open spec fn wf(&self) -> bool {
        self@.len() > 0 && uniform_key(self@)
    }

    /// The key shared by every record of the template.
    pub open spec fn key_spec(&self) -> Seq<u8> {
        self@[0].key@
    }

    pub fn new(records: Vec<Record<P>>) -> (t: Template<P>)
        requires
            records@.len() > 0,
            uniform_key(records@),
        ensures
            t@ == records@,
            t.wf(),
    {
        Template { records }
    }

    pub fn records(&self) -> (r: &Vec<Record<P>>)
        ensures
            r@ == self@,
    {
        &self.records
    }

    pub fn into_records(self) -> (r: Vec<Record<P>>)
        ensures
            r@ == self@,
    {
        self.records
    }

    pub fn len(&self) -> (n: usize)
        ensures
            n == self@.len(),
    {
        self.records.len()
    }
}

/// The record sequences a template vector holds, template by template.
pub open spec fn views_of<P>(ts: Seq<Template<P>>) -> Seq<Seq<Record<P>>> {
    ts.map_values(|t: Template<P>| t@)
}

/// Whether two grouping keys are the same byte sequence.
pub fn same_key(a: &Vec<u8>, b: &Vec<u8>) -> (r: bool)
    ensures
        r == (a@ == b@),
{
    if a.len() != b.len() {
        return false;
    }
    let mut i: usize = 0;
    while i < a.len()
        invariant
            i <= a.len(),
            a.len() == b.len(),
            forall|j: int| 0 <= j < i ==> a@[j] == b@[j],
        decreases a.len() - i,
    {
        if a[i] != b[i] {
            return false;
        }
        i = i + 1;
    }
    proof {
        assert(a@ =~= b@);
    }
    true
}

} // verus!
