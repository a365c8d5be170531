use vstd::prelude::*;
use crate::object::Callable;
use crate::object::Node;
use crate::object::Symbol;
use crate::object::SymbolV;
use crate::object::callable_view;
use crate::object::node_view;
use crate::object::symbol_view;
use crate::strutil::upper_seq;

verus! {

/// One lexical scope frame: bindings from a symbol's name to its cell in
/// the arena, and the enclosing frame, if any.
pub struct Scope {
    pub names: Vec<(String, usize)>,
    pub parent: Option<usize>,
}

/// The chain of lexical scopes and the arena of shared symbol cells.
///
/// A cell is referenced by its arena index, so every holder of an index
/// observes the cell's mutations: that is the shared-mutable-cell semantics
/// behind `defvar` and friends.  Scope 0 is the global frame.
pub struct Env {
    pub syms: Vec<Symbol>,
    pub scopes: Vec<Scope>,
}

/// The cell a name is bound to in one frame, if any.
pub open spec fn frame_find(names: Seq<(String, usize)>, name: Seq<char>) -> Option<usize>
    decreases names.len(),
{
    if names.len() == 0 {
        Option::None
    } else if names.last().0@ == name {
        Option::Some(names.last().1)
    } else {
        frame_find(names.drop_last(), name)
    }
}

/// A value bound by `defvar` is a copy, not an alias: once a cell's value
/// is written, rebinding any other cell leaves it untouched.
pub proof fn lemma_defvar_value_is_copy(syms: Seq<Symbol>, x: int, y: int, v: Node, w: Option<Node>)
    requires
        0 <= x < syms.len(),
        0 <= y < syms.len(),
        x != y,
    ensures
        ({
            let bound = syms.update(
                y,
                Symbol {
                    name: syms[y].name,
                    value: Option::Some(v),
                    function: syms[y].function,
                    properties: syms[y].properties,
                },
            );
            let rebound = bound.update(
                x,
                Symbol {
                    name: bound[x].name,
                    value: w,
                    function: bound[x].function,
                    properties: bound[x].properties,
                },
            );
            rebound[y].value == Option::Some(v)
        }),
{
}

proof fn lemma_frame_find_bound(names: Seq<(String, usize)>, n: Seq<char>)
    ensures
        match frame_find(names, n) {
            Option::Some(id) => exists|j: int| 0 <= j < names.len() && names[j].1 == id,
            Option::None => true,
        },
    decreases names.len(),
{
    if names.len() > 0 && names.last().0@ != n {
        lemma_frame_find_bound(names.drop_last(), n);
        match frame_find(names.drop_last(), n) {
            Option::Some(id) => {
                let j = choose|j: int|
                    0 <= j < names.drop_last().len() && names.drop_last()[j].1 == id;
                assert(names[j].1 == id);
            },
            Option::None => {},
        }
    }
}

impl Env {
    /// Every frame's parent lies earlier in the vector, every binding's cell
    /// lies in the arena, and the global frame exists.
    pub open spec fn wf(&self) -> bool {
        &&& self.scopes@.len() >= 1
        &&& forall|i: int|
            0 <= i < self.scopes@.len() ==> (match (#[trigger] self.scopes@[i]).parent {
                Option::Some(p) => p < i,
                Option::None => true,
            })
        &&& forall|i: int, j: int|
            0 <= i < self.scopes@.len() && 0 <= j < (#[trigger] self.scopes@[i]).names@.len()
                ==> (#[trigger] self.scopes@[i].names@[j]).1 < self.syms@.len()
    }

    /// The cell a name resolves to from the given scope: the nearest
    /// enclosing binding.
    pub open spec fn lookup(&self, scope: int, name: Seq<char>) -> Option<usize>
        decreases scope,
        when self.wf() && 0 <= scope < self.scopes@.len()
    {
        match frame_find(self.scopes@[scope].names@, name) {
            Option::Some(id) => Option::Some(id),
            Option::None => match self.scopes@[scope].parent {
                Option::Some(p) => self.lookup(p as int, name),
                Option::None => Option::None,
            },
        }
    }

    /// An environment with an empty global frame and an empty arena.
    pub fn new() -> (r: Env)
        ensures
            r.wf(),
            r.syms@.len() == 0,
            r.scopes@.len() == 1,
            r.scopes@[0].names@.len() == 0,
            r.scopes@[0].parent is None,
    {
        let mut scopes: Vec<Scope> = Vec::new();
        scopes.push(Scope { names: Vec::new(), parent: Option::None });
        Env { syms: Vec::new(), scopes }
    }

    /// Opens a fresh scope whose parent is the given frame, and hands back
    /// its index.
    pub fn new_with_parent(&mut self, parent: usize) -> (r: usize)
        requires
            old(self).wf(),
            parent < old(self).scopes@.len(),
        ensures
            final(self).wf(),
            final(self).syms@ == old(self).syms@,
            r == old(self).scopes@.len(),
            final(self).scopes@.len() == old(self).scopes@.len() + 1,
            forall|i: int|
                0 <= i < old(self).scopes@.len() ==> final(self).scopes@[i] == old(
                    self,
                ).scopes@[i],
            final(self).scopes@[r as int].names@.len() == 0,
            final(self).scopes@[r as int].parent == Option::Some(parent),
    {
        let r = self.scopes.len();
        self.scopes.push(Scope { names: Vec::new(), parent: Option::Some(parent) });
        r
    }

    /// The cell at an arena index.
    pub fn symbol_at(&self, id: usize) -> (r: &Symbol)
        requires
            id < self.syms@.len(),
        ensures
            *r == self.syms@[id as int],
    {
        &self.syms[id]
    }

    /// Replaces the bound value of the cell at an arena index.
    pub fn set_value(&mut self, id: usize, v: Option<Node>)
        requires
            old(self).wf(),
            id < old(self).syms@.len(),
        ensures
            final(self).wf(),
            final(self).scopes@ == old(self).scopes@,
            final(self).syms@ == old(self).syms@.update(
                id as int,
                Symbol {
                    name: old(self).syms@[id as int].name,
                    value: v,
                    function: old(self).syms@[id as int].function,
                    properties: old(self).syms@[id as int].properties,
                },
            ),
    {
        let old_sym = self.syms.remove(id);
        self.syms.insert(
            id,
            Symbol {
                name: old_sym.name,
                value: v,
                function: old_sym.function,
                properties: old_sym.properties,
            },
        );
        proof {
            assert(self.syms@ =~= old(self).syms@.update(
                id as int,
                Symbol {
                    name: old(self).syms@[id as int].name,
                    value: v,
                    function: old(self).syms@[id as int].function,
                    properties: old(self).syms@[id as int].properties,
                },
            ));
        }
    }

    /// Replaces the bound callable of the cell at an arena index.
    pub fn set_function(&mut self, id: usize, f: Option<Callable>)
        requires
            old(self).wf(),
            id < old(self).syms@.len(),
        ensures
            final(self).wf(),
            final(self).scopes@ == old(self).scopes@,
            final(self).syms@ == old(self).syms@.update(
                id as int,
                Symbol {
                    name: old(self).syms@[id as int].name,
                    value: old(self).syms@[id as int].value,
                    function: f,
                    properties: old(self).syms@[id as int].properties,
                },
            ),
    {
        let old_sym = self.syms.remove(id);
        self.syms.insert(
            id,
            Symbol {
                name: old_sym.name,
                value: old_sym.value,
                function: f,
                properties: old_sym.properties,
            },
        );
        proof {
            assert(self.syms@ =~= old(self).syms@.update(
                id as int,
                Symbol {
                    name: old(self).syms@[id as int].name,
                    value: old(self).syms@[id as int].value,
                    function: f,
                    properties: old(self).syms@[id as int].properties,
                },
            ));
        }
    }

    /// Whether the given frame itself, not its chain, binds the name.
    pub fn contains(&self, scope: usize, name: &str) -> (r: bool)
        requires
            self.wf(),
            scope < self.scopes@.len(),
        ensures
            r == (frame_find(self.scopes@[scope as int].names@, name@) is Some),
    {
        self.find_in_frame(scope, name).is_some()
    }

    /// The cell bound to the name in one frame, if any.
    fn find_in_frame(&self, scope: usize, name: &str) -> (r: Option<usize>)
        requires
            self.wf(),
            scope < self.scopes@.len(),
        ensures
            r == frame_find(self.scopes@[scope as int].names@, name@),
    {
        let ghost names = self.scopes@[scope as int].names@;
        let mut k: usize = self.scopes[scope].names.len();
        proof {
            assert(names.take(k as int) =~= names);
        }
        while k > 0
            invariant
                self.wf(),
                scope < self.scopes@.len(),
                names == self.scopes@[scope as int].names@,
                k <= names.len(),
                frame_find(names, name@) == frame_find(names.take(k as int), name@),
            decreases k,
        {
            let ghost pre = names.take(k as int);
            proof {
                assert(pre.last() == names[k - 1]);
                assert(pre.drop_last() =~= names.take(k - 1));
            }
            if crate::strutil::str_eq(self.scopes[scope].names[k - 1].0.as_str(), name) {
                return Option::Some(self.scopes[scope].names[k - 1].1);
            }
            k = k - 1;
        }
        proof {
            assert(names.take(0) =~= Seq::<(String, usize)>::empty());
        }
        Option::None
    }

    /// Resolves a name from the given scope, walking the parent chain.
    /// Lookup cannot fail: a name bound nowhere yields a fresh unbound cell
    /// whose name is the case-normalized form of the one asked for; the
    /// fresh cell is not bound into any frame.
    pub fn get_symbol(&mut self, scope: usize, name: &str) -> (id: usize)
        requires
            old(self).wf(),
            scope < old(self).scopes@.len(),
        ensures
            final(self).wf(),
            final(self).scopes@ == old(self).scopes@,
            id < final(self).syms@.len(),
            match old(self).lookup(scope as int, name@) {
                Option::Some(i) => final(self).syms@ == old(self).syms@ && id == i,
                Option::None => {
                    &&& final(self).syms@ == old(self).syms@.push(
                        final(self).syms@[id as int],
                    )
                    &&& id == old(self).syms@.len()
                    &&& final(self).syms@[id as int]@.name == upper_seq(name@)
                    &&& final(self).syms@[id as int]@.value is None
                    &&& final(self).syms@[id as int]@.function is None
                },
            },
    {
        let mut scope_now = scope;
        loop
            invariant
                self == old(self),
                self.wf(),
                scope_now < self.scopes@.len(),
                old(self).lookup(scope as int, name@) == self.lookup(scope_now as int, name@),
            ensures
                self == old(self),
                old(self).lookup(scope as int, name@) is None,
            decreases scope_now,
        {
            match self.find_in_frame(scope_now, name) {
                Option::Some(id) => {
                    proof {
                        assert(self.lookup(scope_now as int, name@) == Option::Some(id));
                        lemma_frame_find_bound(self.scopes@[scope_now as int].names@, name@);
                        let j = choose|j: int|
                            0 <= j < self.scopes@[scope_now as int].names@.len()
                                && self.scopes@[scope_now as int].names@[j].1 == id;
                        assert(self.scopes@[scope_now as int].names@[j].1 < self.syms@.len());
                    }
                    return id;
                },
                Option::None => {
                    match self.scopes[scope_now].parent {
                        Option::Some(p) => {
                            proof {
                                assert(self.lookup(scope_now as int, name@) == self.lookup(
                                    p as int,
                                    name@,
                                ));
                            }
                            scope_now = p;
                        },
                        Option::None => {
                            proof {
                                assert(self.lookup(scope_now as int, name@)
                                    == Option::None::<usize>);
                            }
                            break ;
                        },
                    }
                },
            }
        }
        let id = self.syms.len();
        let fresh = Symbol::new(name);
        self.syms.push(fresh);
        id
    }

    /// Places a cell in the arena and binds its name in the given frame,
    /// replacing that frame's previous binding of the name if there is one.
    pub fn set_symbol(&mut self, scope: usize, sym: Symbol) -> (id: usize)
        requires
            old(self).wf(),
            scope < old(self).scopes@.len(),
        ensures
            final(self).wf(),
            id == old(self).syms@.len(),
            final(self).syms@ == old(self).syms@.push(sym),
            final(self).scopes@.len() == old(self).scopes@.len(),
            forall|i: int|
                0 <= i < old(self).scopes@.len() && i != scope
                    ==> final(self).scopes@[i] == old(self).scopes@[i],
            frame_find(final(self).scopes@[scope as int].names@, sym.name@) == Option::Some(id),
            forall|n: Seq<char>|
                n != sym.name@ ==> #[trigger] frame_find(
                    final(self).scopes@[scope as int].names@,
                    n,
                ) == frame_find(old(self).scopes@[scope as int].names@, n),
            final(self).scopes@[scope as int].parent == old(self).scopes@[scope as int].parent,
    {
        let id = self.syms.len();
        let name = sym.name.clone();
        self.syms.push(sym);
        let ghost old_scopes = self.scopes@;
        let mut frame = self.scopes.remove(scope);
        let ghost old_names = frame.names@;
        frame.names.push((name, id));
        self.scopes.insert(scope, frame);
        proof {
            assert(self.scopes@ =~= old_scopes.update(
                scope as int,
                Scope {
                    names: self.scopes@[scope as int].names,
                    parent: old_scopes[scope as int].parent,
                },
            ));
            assert(self.scopes@[scope as int].names@ == old_names.push((sym.name, id)));
            let nn = self.scopes@[scope as int].names@;
            assert(nn.last().0@ == sym.name@);
            assert(frame_find(nn, sym.name@) == Option::Some(id));
            assert forall|n: Seq<char>| n != sym.name@ implies #[trigger] frame_find(nn, n)
                == frame_find(old_names, n) by {
                assert(nn.drop_last() =~= old_names);
            }
        }
        id
    }

    /// Binds an already-present cell's name in the given frame.
    pub fn bind(&mut self, scope: usize, id: usize)
        requires
            old(self).wf(),
            scope < old(self).scopes@.len(),
            id < old(self).syms@.len(),
        ensures
            final(self).wf(),
            final(self).syms@ == old(self).syms@,
            final(self).scopes@.len() == old(self).scopes@.len(),
            forall|i: int|
                0 <= i < old(self).scopes@.len() && i != scope
                    ==> final(self).scopes@[i] == old(self).scopes@[i],
            frame_find(
                final(self).scopes@[scope as int].names@,
                old(self).syms@[id as int].name@,
            ) == Option::Some(id),
            forall|n: Seq<char>|
                n != old(self).syms@[id as int].name@ ==> #[trigger] frame_find(
                    final(self).scopes@[scope as int].names@,
                    n,
                ) == frame_find(old(self).scopes@[scope as int].names@, n),
            final(self).scopes@[scope as int].parent == old(self).scopes@[scope as int].parent,
    {
        let name = self.syms[id].name.clone();
        let ghost old_scopes = self.scopes@;
        let ghost old_names = self.scopes@[scope as int].names@;
        let mut frame = self.scopes.remove(scope);
        frame.names.push((name, id));
        self.scopes.insert(scope, frame);
        proof {
            assert(self.scopes@ =~= old_scopes.update(
                scope as int,
                Scope {
                    names: self.scopes@[scope as int].names,
                    parent: old_scopes[scope as int].parent,
                },
            ));
            let nn = self.scopes@[scope as int].names@;
            assert(nn.last().0@ == old(self).syms@[id as int].name@);
            assert(nn.last().1 == id);
            assert forall|n: Seq<char>|
                n != old(self).syms@[id as int].name@ implies #[trigger] frame_find(nn, n)
                == frame_find(old_names, n) by {
                assert(nn.drop_last() =~= old_names);
            }
        }
    }
}

} // verus!
