//! The footnote numbering table: each distinct footnote name gets a number, in
//! the order in which names are first mentioned, by a reference or by a
//! definition alike. Numbers start at 0.
use vstd::prelude::*;

verus! {

/// The table after `name` has been mentioned: a new name goes at the end.
pub open spec fn mention(names: Seq<Seq<char>>, name: Seq<char>) -> Seq<Seq<char>> {
    if names.contains(name) {
        names
    } else {
        names.push(name)
    }
}

/// The number that mentioning `name` yields: its position in the table,
/// or the table's length for a new name.
pub open spec fn footnote_number(names: Seq<Seq<char>>, name: Seq<char>) -> int {
    if names.contains(name) {
        names.index_of(name)
    } else {
        names.len() as int
    }
}

/// The footnote names seen so far, in order of first mention.
pub struct FootnoteNumbers {
    names: Vec<String>,
}

impl View for FootnoteNumbers {
    type V = Seq<Seq<char>>;

    closed spec fn view(&self) -> Seq<Seq<char>> {
        self.names@.map_values(|s: String| s@)
    }
}

impl FootnoteNumbers {
    /// Each name stands in the table once.
    pub open spec fn wf(&self) -> bool {
        self@.no_duplicates()
    }

    pub fn new() -> (t: FootnoteNumbers)
        ensures
            t@ == Seq::<Seq<char>>::empty(),
            t.wf(),
    {
        let t = FootnoteNumbers { names: Vec::new() };
        assert(t@ =~= Seq::<Seq<char>>::empty());
        t
    }

    /// The number of `name`, which is recorded on its first mention.
    pub fn number_of(&mut self, name: &str) -> (n: usize)
        requires
            old(self).wf(),
        ensures
            final(self).wf(),
            final(self)@ == mention(old(self)@, name@),
            n == footnote_number(old(self)@, name@),
    {
        let ghost names = self@;
        let key = name.to_owned();
        let mut i: usize = 0;
        while i < self.names.len()
            invariant
                self@ == names,
                names.no_duplicates(),
                key@ == name@,
                i <= self.names@.len(),
                names.len() == self.names@.len(),
                forall|j: int| 0 <= j < i ==> names[j] != name@,
            decreases self.names@.len() - i,
        {
            if self.names[i] == key {
                assert(names[i as int] == name@);
                assert(names.contains(name@));
                proof {
                    let k = names.index_of(name@);
                    assert(names[k] == name@);
                    assert(k == i);
                }
                return i;
            }
            i = i + 1;
        }
        assert(!names.contains(name@));
        let n = self.names.len();
        self.names.push(key);
        assert(self@ =~= names.push(name@));
        n
    }
}

/// Mentioning a name keeps its number: a later mention, by a reference or by a
/// definition, yields the number that the first one did. Distinct names get
/// distinct numbers, counted up from the table's length in order of first
/// mention (from 0 on an empty table).
pub proof fn lemma_numbering_stable(names: Seq<Seq<char>>, a: Seq<char>, b: Seq<char>)
    requires
        names.no_duplicates(),
    ensures
        mention(names, a).no_duplicates(),
        footnote_number(mention(names, a), a) == footnote_number(names, a),
        mention(mention(names, a), a) == mention(names, a),
        a != b ==> footnote_number(mention(names, a), b) != footnote_number(names, a),
        !names.contains(a) ==> footnote_number(names, a) == names.len(),
        !names.contains(a) && !names.contains(b) && a != b ==> footnote_number(
            mention(names, a),
            b,
        ) == names.len() + 1,
{
    let m = mention(names, a);
    if !names.contains(a) {
        assert(m[names.len() as int] == a);
        assert(m.contains(a));
        let k = m.index_of(a);
        assert(m[k] == a);
        if k < names.len() {
            assert(names[k] == a);
        }
    } else {
        let k = names.index_of(a);
        assert(names[k] == a);
    }
    let ka = footnote_number(m, a);
    assert(m.contains(a));
    assert(m[ka] == a);
    if a != b {
        if m.contains(b) {
            let kb = m.index_of(b);
            assert(m[kb] == b);
        }
    }
}

} // verus!
