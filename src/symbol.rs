use vstd::prelude::*;

verus! {

/// An interned string, by its index in an interner.
#[derive(Clone, Copy, Debug, PartialEq, Eq, Structural, Hash, PartialOrd, Ord)]
pub struct Symbol {
    id: u32,
}

/// Stores each distinct string once and numbers it in order of arrival.
/// Strings are never removed, and each keeps its own storage, which later
/// arrivals never move.
pub struct Interner {
    symbols: Vec<String>,
}

/// The strings of `t` are pairwise distinct.
pub open spec fn all_distinct(t: Seq<Seq<char>>) -> bool {
    forall|i: int, j: int| 0 <= i < j < t.len() ==> t[i] != t[j]
}

/// The strings after interning `s` in `t`, and the index that `s` gets: its
/// index where `t` holds it already, else the next one.
pub open spec fn intern_result(t: Seq<Seq<char>>, s: Seq<char>) -> (Seq<Seq<char>>, int) {
    if exists|i: int| 0 <= i < t.len() && t[i] == s {
        (t, choose|i: int| 0 <= i < t.len() && t[i] == s)
    } else {
        (t.push(s), t.len() as int)
    }
}

/// Interning a string twice gives the same symbol and leaves the interner
/// as the first time did, and the symbol stands for that string.
pub proof fn lemma_intern_idempotent(t: Seq<Seq<char>>, s: Seq<char>)
    requires
        all_distinct(t),
    ensures
        ({
            let (t1, i1) = intern_result(t, s);
            let (t2, i2) = intern_result(t1, s);
            &&& t2 == t1
            &&& i2 == i1
            &&& 0 <= i1 < t1.len()
            &&& t1[i1] == s
            &&& all_distinct(t1)
        }),
{
    let (t1, i1) = intern_result(t, s);
    if exists|i: int| 0 <= i < t.len() && t[i] == s {
    } else {
        assert(t1[t.len() as int] == s);
        assert forall|i: int, j: int| 0 <= i < j < t1.len() implies t1[i] != t1[j] by {
            if j == t.len() {
                assert(t1[i] == t[i]);
            } else {
                assert(t1[i] == t[i] && t1[j] == t[j]);
            }
        }
        let i2 = choose|i: int| 0 <= i < t1.len() && t1[i] == s;
        if i2 != i1 {
            assert(t1[i2] == t[i2]);
        }
    }
}

impl Interner {
    /// The interned strings, in order of their symbols.
    pub closed spec fn strings(&self) -> Seq<Seq<char>> {
        self.symbols@.map_values(|s: String| s@)
    }

    pub open spec fn wf(&self) -> bool {
        &&& all_distinct(self.strings())
        &&& self.strings().len() <= u32::MAX
    }

    pub fn new() -> (r: Interner)
        ensures
            r.wf(),
            r.strings().len() == 0,
    {
        Interner { symbols: Vec::new() }
    }

    /// Number of interned strings.
    pub fn len(&self) -> (r: usize)
        ensures
            r == self.strings().len(),
    {
        self.symbols.len()
    }

    /// Returns the symbol of the string, adding the string where it is new.
    pub fn intern(&mut self, string: &str) -> (r: Symbol)
        requires
            old(self).wf(),
            old(self).strings().len() < u32::MAX,
        ensures
            final(self).wf(),
            (final(self).strings(), r.index()) == intern_result(old(self).strings(), string@),
    {
        let owned = string.to_owned();
        let n = self.symbols.len();
        let ghost t = self.strings();
        let mut i: usize = 0;
        while i < n
            invariant
                n == t.len(),
                t == self.strings(),
                self.wf(),
                0 <= i <= n,
                owned@ == string@,
                forall|k: int| 0 <= k < i ==> t[k] != string@,
            decreases n - i,
        {
            assert(t[i as int] == self.symbols@[i as int]@);
            if self.symbols[i].eq(&owned) {
                proof {
                    let c = choose|k: int| 0 <= k < t.len() && t[k] == string@;
                    if c != i {
                        assert(all_distinct(t));
                        if c < i {
                            assert(t[c] != t[i as int]);
                        } else {
                            assert(t[i as int] != t[c]);
                        }
                    }
                }
                return Symbol { id: i as u32 };
            }
            i = i + 1;
        }
        self.symbols.push(owned);
        proof {
            assert(self.strings() =~= t.push(string@));
            lemma_intern_idempotent(t, string@);
        }
        Symbol { id: n as u32 }
    }

    /// The string of a symbol of this interner.
    pub fn get(&self, symbol: Symbol) -> (r: &str)
        requires
            symbol.index() < self.strings().len(),
        ensures
            r@ == self.strings()[symbol.index()],
    {
        self.symbols[symbol.id as usize].as_str()
    }
}

impl Symbol {
    pub closed spec fn index(&self) -> int {
        self.id as int
    }

    /// Interns the string in the given interner.
    pub fn intern(interner: &mut Interner, string: &str) -> (r: Symbol)
        requires
            old(interner).wf(),
            old(interner).strings().len() < u32::MAX,
        ensures
            final(interner).wf(),
            (final(interner).strings(), r.index()) == intern_result(
                old(interner).strings(),
                string@,
            ),
    {
        interner.intern(string)
    }

    /// The string that the symbol stands for.
    pub fn as_str<'a>(&self, interner: &'a Interner) -> (r: &'a str)
        requires
            self.index() < interner.strings().len(),
        ensures
            r@ == interner.strings()[self.index()],
    {
        interner.get(*self)
    }

    /// A copy of the string that the symbol stands for.
    pub fn to_string(&self, interner: &Interner) -> (r: String)
        requires
            self.index() < interner.strings().len(),
        ensures
            r@ == interner.strings()[self.index()],
    {
        self.as_str(interner).to_owned()
    }
}

} // verus!
