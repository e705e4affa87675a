//! A per-document string table with deduplication.
//!
//! Keys and string values of a JSON document are interned once each;
//! repeated occurrences of the same text share one entry, so later
//! comparisons are id comparisons. The table is scoped to one document
//! parsed from one connection's input and never shared.

use vstd::prelude::*;

verus! {

/// A handle to one interned string.
#[derive(Debug, Copy, Clone, PartialEq, Eq, Structural)]
pub struct Intern {
    /// Index into the owning table.
    pub id: u32,
}

impl Intern {
    /// Rebuilds a handle from a raw table index.
    pub fn from_raw_id(id: u32) -> (r: Self)
        ensures
            r.id == id,
    {
        Intern { id }
    }

    /// The raw table index.
    pub fn id(self) -> (r: u32)
        ensures
            r == self.id,
    {
        self.id
    }
}

/// The first index at which `t` occurs in `texts`, if any.
pub open spec fn spec_find_text(texts: Seq<Seq<u8>>, t: Seq<u8>) -> Option<int>
    decreases texts.len(),
{
    if texts.len() == 0 {
        None
    } else if texts[0] == t {
        Some(0)
    } else {
        match spec_find_text(texts.drop_first(), t) {
            Some(i) => Some(i + 1),
            None => None,
        }
    }
}

/// The found index is in range and holds `t`; `None` means `t` is absent.
pub proof fn lemma_spec_find_text(texts: Seq<Seq<u8>>, t: Seq<u8>)
    ensures
        match spec_find_text(texts, t) {
            Some(i) => 0 <= i < texts.len() && texts[i] == t,
            None => forall|i: int| 0 <= i < texts.len() ==> texts[i] != t,
        },
    decreases texts.len(),
{
    if texts.len() > 0 {
        lemma_spec_find_text(texts.drop_first(), t);
        match spec_find_text(texts, t) {
            Some(i) => {
                if texts[0] != t {
                    assert(spec_find_text(texts.drop_first(), t) == Some(i - 1));
                    assert(texts.drop_first()[i - 1] == texts[i]);
                }
            },
            None => {
                assert forall|i: int| 0 <= i < texts.len() implies texts[i] != t by {
                    if i > 0 {
                        assert(texts.drop_first()[i - 1] == texts[i]);
                    }
                }
            },
        }
    }
}

/// Whether two byte runs hold the same bytes.
pub fn bytes_eq(a: &[u8], b: &[u8]) -> (r: bool)
    ensures
        r == (a@ == b@),
{
    if a.len() != b.len() {
        proof {
            assert(a@ != b@);
        }
        return false;
    }
    let n = a.len();
    let mut i: usize = 0;
    while i < n
        invariant
            n == a@.len() == b@.len(),
            i <= n,
            forall|j: int| 0 <= j < i ==> a@[j] == b@[j],
        decreases n - i,
    {
        if a[i] != b[i] {
            return false;
        }
        i = i + 1;
    }
    proof {
        assert(a@ =~= b@);
    }
    true
}

/// A growable, deduplicated string table.
#[derive(Debug)]
pub struct Interner {
    /// The interned texts, in insertion order.
    pub entries: Vec<Vec<u8>>,
}

impl Interner {
    /// The texts this table holds.
    pub open spec fn texts(self) -> Seq<Seq<u8>> {
        self.entries.deep_view()
    }

    /// No text occurs twice, and every entry has a representable id.
    pub open spec fn wf(self) -> bool {
        &&& forall|i: int, j: int|
            0 <= i < j < self.texts().len() ==> #[trigger] self.texts()[i] != #[trigger] self.texts()[j]
        &&& self.texts().len() <= u32::MAX
    }

    /// An empty table.
    pub fn new() -> (r: Self)
        ensures
            r.wf(),
            r.texts() == Seq::<Seq<u8>>::empty(),
    {
        let r = Interner { entries: Vec::new() };
        proof {
            assert(r.texts() =~= Seq::<Seq<u8>>::empty());
        }
        r
    }

    /// The id under which `text` is interned, if it is.
    pub fn find_intern(&self, text: &[u8]) -> (r: Option<Intern>)
        requires
            self.wf(),
        ensures
            match r {
                Some(it) => spec_find_text(self.texts(), text@) == Some(it.id as int),
                None => spec_find_text(self.texts(), text@) is None,
            },
    {
        let n = self.entries.len();
        let mut i: usize = 0;
        while i < n
            invariant
                self.wf(),
                n == self.texts().len(),
                i <= n,
                forall|j: int| 0 <= j < i ==> self.texts()[j] != text@,
            decreases n - i,
        {
            let hit = bytes_eq(self.entries[i].as_slice(), text);
            proof {
                assert(self.texts()[i as int] =~= self.entries[i as int]@);
            }
            if hit {
                proof {
                    lemma_spec_find_text(self.texts(), text@);
                    match spec_find_text(self.texts(), text@) {
                        Some(k) => {
                            if k != i {
                                assert(self.texts()[k] == self.texts()[i as int]);
                            }
                        },
                        None => {
                            assert(self.texts()[i as int] == text@);
                        },
                    }
                }
                return Some(Intern { id: i as u32 });
            }
            i = i + 1;
        }
        proof {
            lemma_spec_find_text(self.texts(), text@);
            match spec_find_text(self.texts(), text@) {
                Some(k) => {
                    assert(self.texts()[k] == text@);
                },
                None => {},
            }
        }
        None
    }

    /// Interns `text`, returning its existing id when the text is already
    /// present and a fresh id otherwise.
    pub fn intern(&mut self, text: &[u8]) -> (r: Result<Intern, ()>)
        requires
            old(self).wf(),
        ensures
            final(self).wf(),
            match r {
                Ok(it) => {
                    &&& (it.id as int) < final(self).texts().len()
                    &&& final(self).texts()[it.id as int] == text@
                    &&& (match spec_find_text(old(self).texts(), text@) {
                        Some(i) => final(self).texts() == old(self).texts() && it.id as int == i,
                        None => final(self).texts() == old(self).texts().push(text@) && it.id
                            as int == old(self).texts().len(),
                    })
                },
                Err(_) => final(self).texts() == old(self).texts(),
            },
            r is Err <==> (spec_find_text(old(self).texts(), text@) is None && old(
                self,
            ).texts().len() >= 0xffff_ffff),
    {
        match self.find_intern(text) {
            Some(it) => {
                proof {
                    lemma_spec_find_text(self.texts(), text@);
                }
                Ok(it)
            },
            None => {
                if self.entries.len() >= 0xffff_ffff {
                    return Err(());
                }
                let id = self.entries.len() as u32;
                let owned = vstd::slice::slice_to_vec(text);
                self.entries.push(owned);
                proof {
                    lemma_spec_find_text(old(self).texts(), text@);
                    assert(self.texts() =~~= old(self).texts().push(text@));
                    assert(self.texts() == old(self).texts().push(text@));
                    assert forall|i: int, j: int|
                        0 <= i < j < self.texts().len() implies #[trigger] self.texts()[i]
                        != #[trigger] self.texts()[j] by {
                        if j < self.texts().len() - 1 {
                        } else {
                            assert(self.texts()[j] == text@);
                        }
                    }
                }
                Ok(Intern { id })
            },
        }
    }

    /// The text interned under `it`.
    pub fn decode(&self, it: Intern) -> (r: &Vec<u8>)
        requires
            (it.id as int) < self.texts().len(),
        ensures
            r@ == self.texts()[it.id as int],
    {
        &self.entries[it.id as usize]
    }
}

} // verus!
