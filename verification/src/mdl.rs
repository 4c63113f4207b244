//! Scene-script support types: the symbol table the script executor
//! resolves names in, the kinds those names can have, and the runtime
//! error values the executor reports.
//!
//! Parsing script text and running the drawing commands involve a parser
//! combinator crate, file reading and floating-point transforms, and stay
//! with the unverified front end; what is verified here is the name
//! resolution itself: the table behaves as a finite map from symbol names
//! to values.

use vstd::prelude::*;

verus! {

/// A name appearing in a scene script.
#[derive(Debug, Clone, Hash)]
pub struct Symbol(pub String);

impl View for Symbol {
    type V = Seq<char>;

    open spec fn view(&self) -> Seq<char> {
        self.0@
    }
}

impl PartialEq for Symbol {
    fn eq(&self, other: &Symbol) -> (r: bool) {
        self.0 == other.0
    }
}

impl Eq for Symbol {

}

impl vstd::std_specs::cmp::PartialEqSpecImpl for Symbol {
    open spec fn obeys_eq_spec() -> bool {
        true
    }

    open spec fn eq_spec(&self, other: &Symbol) -> bool {
        self.0@ == other.0@
    }
}

impl Symbol {
    /// Wrap an optional borrowed name into an optional owned symbol.
    pub fn from_opt(obj: Option<&str>) -> (r: Option<Symbol>)
        ensures
            match (obj, r) {
                (Some(s), Some(sym)) => sym@ == s@,
                (None, None) => true,
                _ => false,
            },
    {
        match obj {
            Some(s) => Some(Symbol(String::from_str(s))),
            None => None,
        }
    }
}

/// The kind of entity a script name stands for, without its data.
#[derive(Debug, Eq, PartialEq, Copy, Clone, Structural)]
pub enum Kind {
    Const,
    Coord,
    Knob,
    KnobList,
}

/// A named coordinate system.
#[derive(Debug, Eq, PartialEq, Copy, Clone, Structural)]
pub struct Coord;

/// What a table lookup can hold against a name: the name is absent, or it
/// is present with a kind other than the one the script uses it as.
#[derive(Debug)]
pub enum LookupError {
    SymbolNotFound { name: String },
    SymbolTypeMismatch { name: String, expected: Kind, found: Kind },
}

/// Relies on std::io::Error as an opaque value: the runtime error below
/// carries one through unread.
#[verifier::external_type_specification]
#[verifier::external_body]
pub struct ExIoError(std::io::Error);

/// A runtime failure of the script executor: an I/O failure carried
/// through, a doubled `frames` declaration, a `vary` without `frames`, or
/// a semantic error with its message.
pub enum RuntimeError {
    Io(std::io::Error),
    MultipleFrameNumber,
    FramesUndefined,
    Semantics(&'static str),
    Other(&'static str),
}

/// What a symbol resolves to in a list of `(symbol, value)` entries: the
/// value beside the first entry whose name matches, if any.
pub open spec fn seq_get<T>(s: Seq<(Symbol, T)>, name: Seq<char>) -> Option<T>
    decreases s.len(),
{
    if s.len() == 0 {
        None
    } else if s[0].0@ == name {
        Some(s[0].1)
    } else {
        seq_get(s.drop_first(), name)
    }
}

/// A symbol table: a finite map from names to values of one kind.
pub struct SymTable<T> {
    pub entries: Vec<(Symbol, T)>,
}

impl<T> SymTable<T> {
    /// Every name appears at most once.
    pub open spec fn wf(self) -> bool {
        forall|i: int, j: int|
            0 <= i < j < self.entries@.len() ==> (#[trigger] self.entries@[i]).0@ != (
            #[trigger] self.entries@[j]).0@
    }

    /// The value stored under `name`, if any.
    pub open spec fn spec_get(self, name: Seq<char>) -> Option<T> {
        seq_get(self.entries@, name)
    }

    pub fn new() -> (t: SymTable<T>)
        ensures
            t.wf(),
            t.entries@ == Seq::<(Symbol, T)>::empty(),
    {
        SymTable { entries: Vec::new() }
    }
}

/// A lookup skips any prefix it does not match in.
proof fn lemma_seq_get_skip<T>(s: Seq<(Symbol, T)>, name: Seq<char>, i: int)
    requires
        0 <= i <= s.len(),
        forall|j: int| 0 <= j < i ==> (#[trigger] s[j]).0@ != name,
    ensures
        seq_get(s, name) == seq_get(s.skip(i), name),
    decreases i,
{
    if i > 0 {
        assert(s.drop_first().skip(i - 1) =~= s.skip(i));
        lemma_seq_get_skip(s.drop_first(), name, i - 1);
    } else {
        assert(s.skip(0) =~= s);
    }
}

/// A lookup misses exactly when no entry matches.
proof fn lemma_seq_get_none<T>(s: Seq<(Symbol, T)>, name: Seq<char>)
    requires
        forall|j: int| 0 <= j < s.len() ==> (#[trigger] s[j]).0@ != name,
    ensures
        seq_get(s, name) is None,
    decreases s.len(),
{
    if s.len() > 0 {
        lemma_seq_get_none(s.drop_first(), name);
    }
}

/// Appending an entry only adds the new name; every other lookup is
/// undisturbed, and the new name resolves to the appended value unless it
/// was already bound.
proof fn lemma_seq_get_push<T>(s: Seq<(Symbol, T)>, p: (Symbol, T), name: Seq<char>)
    ensures
        seq_get(s, name) is Some ==> seq_get(s.push(p), name) == seq_get(s, name),
        seq_get(s, name) is None && p.0@ == name ==> seq_get(s.push(p), name) == Some(p.1),
        seq_get(s, name) is None && p.0@ != name ==> seq_get(s.push(p), name) is None,
    decreases s.len(),
{
    if s.len() == 0 {
        assert(s.push(p)[0] == p);
        assert(s.push(p).drop_first() =~= Seq::<(Symbol, T)>::empty());
        assert(seq_get(s.push(p).drop_first(), name) is None);
    } else {
        assert(s.push(p).drop_first() =~= s.drop_first().push(p));
        lemma_seq_get_push(s.drop_first(), p, name);
    }
}

/// Overwriting the matching entry in place rebinds that name and no
/// other, provided the table was well-formed and the entry keeps its
/// name.
proof fn lemma_seq_get_update<T>(s: Seq<(Symbol, T)>, i: int, p: (Symbol, T), name: Seq<char>)
    requires
        0 <= i < s.len(),
        forall|j: int| 0 <= j < i ==> (#[trigger] s[j]).0@ != p.0@,
        s[i].0@ == p.0@,
    ensures
        seq_get(s.update(i, p), p.0@) == Some(p.1),
        name != p.0@ ==> seq_get(s.update(i, p), name) == seq_get(s, name),
        seq_get(s, p.0@) == Some(s[i].1),
    decreases i,
{
    if i == 0 {
        assert(s.update(0, p)[0] == p);
        assert(s.update(0, p).drop_first() =~= s.drop_first());
    } else {
        assert(s.update(i, p).drop_first() =~= s.drop_first().update(i - 1, p));
        lemma_seq_get_update(s.drop_first(), i - 1, p, name);
    }
}

impl<T> SymTable<T> {
    /// The value bound to `symbol`, or `None` when the name is absent.
    pub fn get(&self, symbol: &Symbol) -> (r: Option<&T>)
        requires
            self.wf(),
        ensures
            match r {
                Some(t) => self.spec_get(symbol@) == Some(*t),
                None => self.spec_get(symbol@) is None,
            },
    {
        let n: usize = self.entries.len();
        let mut i: usize = 0;
        while i < n
            invariant
                i <= n,
                n == self.entries@.len(),
                forall|j: int| 0 <= j < i ==> (#[trigger] self.entries@[j]).0@ != symbol@,
            decreases n - i,
        {
            let e = &self.entries[i];
            if e.0.0 == symbol.0 {
                proof {
                    lemma_seq_get_skip(self.entries@, symbol@, i as int);
                    assert(self.entries@.skip(i as int)[0] == self.entries@[i as int]);
                }
                return Some(&e.1);
            }
            i = i + 1;
        }
        proof {
            lemma_seq_get_none(self.entries@, symbol@);
        }
        None
    }

    /// Bind `value` to `key`, handing back the value the name held before,
    /// if any.
    pub fn insert(&mut self, key: Symbol, value: T) -> (old_val: Option<T>)
        requires
            old(self).wf(),
        ensures
            final(self).wf(),
            final(self).spec_get(key@) == Some(value),
            forall|name: Seq<char>|
                name != key@ ==> #[trigger] final(self).spec_get(name) == old(self).spec_get(name),
            old_val == old(self).spec_get(key@),
    {
        let ghost s0 = self.entries@;
        let n: usize = self.entries.len();
        let mut i: usize = 0;
        while i < n
            invariant
                i <= n,
                n == self.entries@.len(),
                self.entries@ == s0,
                s0 == old(self).entries@,
                old(self).wf(),
                forall|j: int| 0 <= j < i ==> (#[trigger] self.entries@[j]).0@ != key@,
            decreases n - i,
        {
            let matches: bool = self.entries[i].0.0 == key.0;
            if matches {
                let mut pair: (Symbol, T) = (key, value);
                core::mem::swap(&mut self.entries[i], &mut pair);
                proof {
                    lemma_seq_get_update(s0, i as int, self.entries@[i as int], key@);
                    assert forall|name: Seq<char>| name != self.entries@[i as int].0@ implies
                        #[trigger] seq_get(self.entries@, name) == seq_get(s0, name) by {
                        lemma_seq_get_update(s0, i as int, self.entries@[i as int], name);
                    }
                    assert forall|a: int, b: int|
                        0 <= a < b < self.entries@.len() implies (#[trigger] self.entries@[a]).0@
                        != (#[trigger] self.entries@[b]).0@ by {
                        assert(s0[a].0@ != s0[b].0@);
                    }
                }
                return Some(pair.1);
            }
            i = i + 1;
        }
        proof {
            lemma_seq_get_none(s0, key@);
        }
        let ghost p = (key, value);
        self.entries.push((key, value));
        proof {
            assert(self.entries@ =~= s0.push(p));
            lemma_seq_get_push(s0, p, key@);
            assert forall|name: Seq<char>| name != key@ implies #[trigger] seq_get(
                self.entries@,
                name,
            ) == seq_get(s0, name) by {
                lemma_seq_get_push(s0, p, name);
            }
        }
        None
    }

    /// Resolve an optional symbol: no symbol resolves to nothing, a bound
    /// symbol to its value, and an unbound one to the not-found error
    /// carrying its name.
    pub fn find(&self, op_symbol: &Option<Symbol>) -> (r: Result<Option<&T>, LookupError>)
        requires
            self.wf(),
        ensures
            match r {
                Ok(None) => op_symbol is None,
                Ok(Some(t)) => op_symbol is Some && self.spec_get(op_symbol->0@) == Some(*t),
                Err(e) => op_symbol is Some && self.spec_get(op_symbol->0@) is None && (e matches
                    LookupError::SymbolNotFound { name } && name@ == op_symbol->0@),
            },
    {
        match op_symbol {
            Some(symbol) => match self.get(symbol) {
                Some(t) => Ok(Some(t)),
                None => Err(
                    LookupError::SymbolNotFound { name: String::from_str(symbol.0.as_str()) },
                ),
            },
            None => Ok(None),
        }
    }
}

impl SymTable<Kind> {
    /// Check that an optional symbol, if present, is bound and bound with
    /// `kind`: absent symbols pass, an unbound name fails as not found,
    /// and a name of another kind fails as a type mismatch naming both
    /// kinds.
    pub fn check(&self, sym: &Option<Symbol>, kind: Kind) -> (r: Result<(), LookupError>)
        requires
            self.wf(),
        ensures
            match r {
                Ok(()) => sym is None || self.spec_get(sym->0@) == Some(kind),
                Err(e) => sym is Some && match e {
                    LookupError::SymbolNotFound { name } => name@ == sym->0@ && self.spec_get(
                        sym->0@,
                    ) is None,
                    LookupError::SymbolTypeMismatch { name, expected, found } => name@ == sym->0@
                        && self.spec_get(sym->0@) == Some(expected) && expected != kind && found
                        == kind,
                },
            },
    {
        if let Some(s) = sym {
            match self.get(s) {
                Some(got) => {
                    if *got != kind {
                        return Err(
                            LookupError::SymbolTypeMismatch {
                                name: String::from_str(s.0.as_str()),
                                expected: *got,
                                found: kind,
                            },
                        );
                    }
                },
                None => {
                    return Err(
                        LookupError::SymbolNotFound { name: String::from_str(s.0.as_str()) },
                    );
                },
            }
        }
        Ok(())
    }
}

/// An interpreter for one script file; reading and running the file is
/// the front end's work.
pub struct Interpreter {
    pub filename: String,
}

impl Interpreter {
    pub fn new(path: &str) -> (r: Interpreter)
        ensures
            r.filename@ == path@,
    {
        Interpreter { filename: String::from_str(path) }
    }
}

} // verus!

