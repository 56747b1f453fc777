//! The header fields of an HTTP request, as names and raw values.
use vstd::prelude::*;
use crate::text;

verus! {

/// One header field: its name and its raw value.
pub struct HeaderField {
    pub name: String,
    pub value: Vec<u8>,
}

/// The header fields of a request, in the order the request holds them.
/// A name may occur more than once.
pub struct HeaderFields {
    fields: Vec<HeaderField>,
}

/// Field `i` of `fields` is the first whose name is `name`, up to ASCII case.
pub open spec fn is_first_named(fields: Seq<(Seq<char>, Seq<u8>)>, name: Seq<char>, i: int) -> bool {
    &&& 0 <= i < fields.len()
    &&& text::eq_ignore_ascii_case(fields[i].0, name)
    &&& forall|j: int| 0 <= j < i ==> !text::eq_ignore_ascii_case(#[trigger] fields[j].0, name)
}

/// The value of the first field named `name` (up to ASCII case), as
/// `HeaderMap::get` returns it.
pub open spec fn header_lookup(fields: Seq<(Seq<char>, Seq<u8>)>, name: Seq<char>) -> Option<
    Seq<u8>,
> {
    if exists|i: int| is_first_named(fields, name, i) {
        Some(fields[choose|i: int| is_first_named(fields, name, i)].1)
    } else {
        None
    }
}

impl View for HeaderFields {
    type V = Seq<(Seq<char>, Seq<u8>)>;

    closed spec fn view(&self) -> Seq<(Seq<char>, Seq<u8>)> {
        Seq::new(self.fields@.len(), |i: int| (self.fields@[i].name@, self.fields@[i].value@))
    }
}

impl HeaderFields {
    /// No header fields.
    pub fn new() -> (res: Self)
        ensures
            res@ == Seq::<(Seq<char>, Seq<u8>)>::empty(),
    {
        let res = HeaderFields { fields: Vec::new() };
        assert(res@ =~= Seq::<(Seq<char>, Seq<u8>)>::empty());
        res
    }

    /// Adds a field after the existing ones.
    pub fn append(&mut self, name: String, value: Vec<u8>)
        ensures
            final(self)@ == old(self)@.push((name@, value@)),
    {
        let ghost n = name@;
        let ghost v = value@;
        self.fields.push(HeaderField { name, value });
        assert(self@ =~= old(self)@.push((n, v)));
    }

    /// The value of the first field named `name`, up to ASCII case.
    pub fn get(&self, name: &str) -> (res: Option<&Vec<u8>>)
        ensures
            match res {
                Some(v) => header_lookup(self@, name@) == Some(v@),
                None => header_lookup(self@, name@) is None,
            },
    {
        let mut i: usize = 0;
        while i < self.fields.len()
            invariant
                i <= self@.len(),
                self@.len() == self.fields@.len(),
                forall|j: int| 0 <= j < i ==> !text::eq_ignore_ascii_case(#[trigger] self@[j].0, name@),
            decreases self@.len() - i,
        {
            let f = &self.fields[i];
            if text::eq_ignoring_ascii_case(f.name.as_str(), name) {
                proof {
                    assert(is_first_named(self@, name@, i as int));
                    let k = choose|k: int| is_first_named(self@, name@, k);
                    assert(k == i);
                }
                return Some(&f.value);
            }
            i = i + 1;
        }
        None
    }
}

/// Header lookup gives the value of the first field whose name matches up
/// to ASCII case, and nothing exactly when no field matches.
pub proof fn law_header_lookup_first(fields: Seq<(Seq<char>, Seq<u8>)>, name: Seq<char>)
    ensures
        header_lookup(fields, name) is None <==> forall|i: int|
            0 <= i < fields.len() ==> !text::eq_ignore_ascii_case(#[trigger] fields[i].0, name),
        header_lookup(fields, name) matches Some(v) ==> exists|i: int|
            0 <= i < fields.len() && text::eq_ignore_ascii_case(fields[i].0, name) && #[trigger] fields[i].1
                == v && forall|j: int| 0 <= j < i ==> !text::eq_ignore_ascii_case(#[trigger] fields[j].0, name),
{
    if exists|i: int| 0 <= i < fields.len() && text::eq_ignore_ascii_case(fields[i].0, name) {
        let i0 = choose|i: int| 0 <= i < fields.len() && text::eq_ignore_ascii_case(fields[i].0, name);
        lemma_first_named(fields, name, i0);
    }
}

proof fn lemma_first_named(fields: Seq<(Seq<char>, Seq<u8>)>, name: Seq<char>, i0: int)
    requires
        0 <= i0 < fields.len(),
        text::eq_ignore_ascii_case(fields[i0].0, name),
    ensures
        exists|i: int| is_first_named(fields, name, i),
    decreases i0,
{
    if !is_first_named(fields, name, i0) {
        let j = choose|j: int| 0 <= j < i0 && text::eq_ignore_ascii_case(fields[j].0, name);
        lemma_first_named(fields, name, j);
    }
}

} // verus!

