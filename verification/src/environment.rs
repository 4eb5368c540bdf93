//! The chain of frames in which names are bound.

use crate::value::{Val, Value};
use vstd::hash_map::StringHashMap;
use vstd::prelude::*;

verus! {

/// The bindings of one frame.
pub type Frame = Map<Seq<char>, Val>;

/// The value that `name` is bound to in the innermost frame that binds it.
///
/// `env` holds the frames of a chain, the innermost first.
pub open spec fn lookup(env: Seq<Frame>, name: Seq<char>) -> Option<Val>
    decreases env.len(),
{
    if env.len() == 0 {
        None
    } else if env[0].contains_key(name) {
        Some(env[0][name])
    } else {
        lookup(env.drop_first(), name)
    }
}

/// `env` with `name` bound to `v` in its innermost frame.
pub open spec fn bind(env: Seq<Frame>, name: Seq<char>, v: Val) -> Seq<Frame> {
    env.update(0, env[0].insert(name, v))
}

/// `env` under a new, empty innermost frame.
pub open spec fn push_frame(env: Seq<Frame>) -> Seq<Frame> {
    seq![Map::empty()] + env
}

/// `env` with the first `n` names each bound to the value at its place, in
/// order, in the innermost frame.
pub open spec fn bind_all(env: Seq<Frame>, names: Seq<Seq<char>>, values: Seq<Val>, n: int) -> Seq<
    Frame,
>
    decreases n,
{
    if n <= 0 {
        env
    } else {
        bind(bind_all(env, names, values, n - 1), names[n - 1], values[n - 1])
    }
}

/// Whether every function bound anywhere in `env` is callable.
pub open spec fn all_callable(env: Seq<Frame>) -> bool {
    forall|i: int, name: Seq<char>|
        0 <= i < env.len() && #[trigger] env[i].contains_key(name) ==> env[i][name].callable()
}

/// A frame of bindings and, under it, the chain it was pushed on.
pub struct SymbolTable {
    symbols: StringHashMap<Value>,
    parent: Option<Box<SymbolTable>>,
}

impl SymbolTable {
    /// The bindings of the innermost frame.
    pub closed spec fn frame(&self) -> Frame {
        self.symbols@.map_values(|v: Value| v@)
    }

    /// The frames of the chain, the innermost first.
    pub closed spec fn frames(&self) -> Seq<Frame>
        decreases self,
    {
        match self.parent {
            Some(p) => seq![self.frame()] + p.frames(),
            None => seq![self.frame()],
        }
    }

    /// A chain of one empty frame.
    pub fn new() -> (r: SymbolTable)
        ensures
            r@ == seq![Map::<Seq<char>, Val>::empty()],
    {
        let r = SymbolTable { symbols: StringHashMap::new(), parent: None };
        assert(r.frame() =~= Map::<Seq<char>, Val>::empty());
        r
    }

    /// A new, empty frame on top of `parent`.
    pub fn with_parent(parent: Box<SymbolTable>) -> (r: SymbolTable)
        ensures
            r@ == push_frame(parent@),
    {
        let r = SymbolTable { symbols: StringHashMap::new(), parent: Some(parent) };
        assert(r.frame() =~= Map::<Seq<char>, Val>::empty());
        r
    }

    /// A copy of the value that `name` is bound to in the innermost frame
    /// that binds it.
    pub fn get(&self, name: &str) -> (r: Option<Value>)
        ensures
            match r {
                Some(v) => lookup(self@, name@) == Some(v@),
                None => lookup(self@, name@) is None,
            },
        decreases self,
    {
        assert(self@[0] == self.frame());
        assert(self.frame().contains_key(name@) == self.symbols@.contains_key(name@));
        match self.symbols.get(name) {
            Some(value) => {
                assert(self.frame()[name@] == value@);
                Some(value.clone())
            },
            None => match &self.parent {
                Some(parent) => {
                    assert(self@.drop_first() =~= parent@);
                    parent.get(name)
                },
                None => {
                    assert(lookup(self@.drop_first(), name@) is None);
                    None
                },
            },
        }
    }

    /// Binds `name` to `value` in the innermost frame. No other frame changes.
    pub fn set(&mut self, name: String, value: Value)
        ensures
            final(self)@ == bind(old(self)@, name@, value@),
    {
        self.symbols.insert(name, value);
        assert(self.frame() =~= old(self).frame().insert(name@, value@));
        assert(self@ =~= bind(old(self)@, name@, value@));
    }

    /// Takes the innermost frame off. A chain of one frame is returned as
    /// it is.
    pub fn into_parent(self) -> (r: SymbolTable)
        ensures
            r@ == if self@.len() > 1 {
                self@.drop_first()
            } else {
                self@
            },
    {
        match self.parent {
            Some(parent) => {
                assert(self@.drop_first() =~= parent@);
                *parent
            },
            None => self,
        }
    }
}

impl View for SymbolTable {
    type V = Seq<Frame>;

    closed spec fn view(&self) -> Seq<Frame> {
        self.frames()
    }
}

} // verus!
