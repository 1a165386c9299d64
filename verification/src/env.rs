//! The environment: a chain of scope frames addressed by stable index.
//!
//! Frames live in an arena; each records an optional parent index and its
//! bindings. The active scope is passed through evaluation as an index, so
//! no aliased mutable handles are needed. Lookup of a symbol walks from the
//! given frame outward to the root and returns the first match; binding
//! always writes into the named frame only, so shadowing is implicit.

use vstd::prelude::*;

use crate::expr::{expr_v, Expr, ExprV};

verus! {

/// Model of one scope frame: the parent frame index, if any, and the
/// binding map.
pub struct FrameV {
    pub parent: Option<int>,
    pub vars: Map<Seq<char>, ExprV>,
}

/// The binding map that a run of `(scope, name, value)` records builds for
/// one scope: later records override earlier ones.
spec fn map_of_scope(s: Seq<(usize, String, Expr)>, sc: int) -> Map<Seq<char>, ExprV>
    decreases s.len(),
{
    if s.len() == 0 {
        Map::empty()
    } else {
        let m = map_of_scope(s.drop_last(), sc);
        if s.last().0 == sc {
            m.insert(s.last().1@, expr_v(s.last().2))
        } else {
            m
        }
    }
}

/// Lookup along the parent chain: the innermost frame holding the name
/// wins; absence everywhere is `None`.
pub open spec fn lookup_in(fs: Seq<FrameV>, sc: int, name: Seq<char>) -> Option<ExprV>
    decreases sc,
{
    if !(0 <= sc < fs.len()) {
        None
    } else if fs[sc].vars.contains_key(name) {
        Some(fs[sc].vars[name])
    } else {
        match fs[sc].parent {
            Some(p) => if 0 <= p < sc {
                lookup_in(fs, p, name)
            } else {
                None
            },
            None => None,
        }
    }
}

/// The chain of scope frames. The root frame is created once and lives for
/// the whole session; child frames are allocated per function call and are
/// simply retained by the arena afterwards.
pub struct Env {
    parents: Vec<Option<usize>>,
    binds: Vec<(usize, String, Expr)>,
}

impl View for Env {
    type V = Seq<FrameV>;

    closed spec fn view(&self) -> Seq<FrameV> {
        Seq::new(
            self.parents@.len(),
            |i: int|
                FrameV {
                    parent: match self.parents@[i] {
                        Some(p) => Some(p as int),
                        None => None,
                    },
                    vars: map_of_scope(self.binds@, i),
                },
        )
    }
}

impl Env {
    /// Parent links point strictly backwards and every binding names an
    /// existing frame.
    #[verifier::type_invariant]
    spec fn wf(self) -> bool {
        &&& forall|i: int|
            0 <= i < self.parents@.len() ==> match #[trigger] self.parents@[i] {
                Some(p) => p < i,
                None => true,
            }
        &&& forall|j: int|
            0 <= j < self.binds@.len() ==> (#[trigger] self.binds@[j]).0 < self.parents@.len()
    }

    /// A fresh environment holding only the empty root frame.
    pub fn new() -> (e: Env)
        ensures
            e@.len() == 1,
            e@[0].parent is None,
            e@[0].vars == Map::<Seq<char>, ExprV>::empty(),
    {
        let mut parents: Vec<Option<usize>> = Vec::new();
        parents.push(None);
        Env { parents, binds: Vec::new() }
    }

    /// How many frames the arena holds.
    pub fn frame_count(&self) -> (n: usize)
        ensures
            n == self@.len(),
    {
        self.parents.len()
    }

    /// Allocate a new empty frame chained to `parent` and return its index.
    pub fn extend(&mut self, parent: usize) -> (child: usize)
        requires
            parent < old(self)@.len(),
        ensures
            final(self)@ == old(self)@.push(
                FrameV { parent: Some(parent as int), vars: Map::empty() },
            ),
            child == old(self)@.len(),
    {
        proof {
            use_type_invariant(&*self);
        }
        let child = self.parents.len();
        // Swap the fields out, extend, and swap back: the type invariant is
        // checked at every intermediate state.
        let mut parents: Vec<Option<usize>> = Vec::new();
        let mut binds: Vec<(usize, String, Expr)> = Vec::new();
        core::mem::swap(&mut binds, &mut self.binds);
        core::mem::swap(&mut parents, &mut self.parents);
        parents.push(Some(parent));
        core::mem::swap(&mut parents, &mut self.parents);
        core::mem::swap(&mut binds, &mut self.binds);
        proof {
            lemma_map_of_scope_absent(self.binds@, child as int);
            assert(self@ =~= old(self)@.push(
                FrameV { parent: Some(parent as int), vars: Map::empty() },
            ));
        }
        child
    }

    /// Bind `name` to `value` in frame `scope` only, overwriting any
    /// previous binding of that name there.
    pub fn define(&mut self, scope: usize, name: String, value: Expr)
        requires
            scope < old(self)@.len(),
        ensures
            final(self)@ == old(self)@.update(
                scope as int,
                FrameV {
                    parent: old(self)@[scope as int].parent,
                    vars: old(self)@[scope as int].vars.insert(name@, value@),
                },
            ),
    {
        proof {
            use_type_invariant(&*self);
        }
        let ghost old_binds = self.binds@;
        let ghost namev = name@;
        let ghost valuev = value@;
        let mut binds: Vec<(usize, String, Expr)> = Vec::new();
        core::mem::swap(&mut binds, &mut self.binds);
        binds.push((scope, name, value));
        core::mem::swap(&mut binds, &mut self.binds);
        proof {
            assert forall|i: int| 0 <= i < self.parents@.len() implies map_of_scope(
                self.binds@,
                i,
            ) == (if i == scope {
                map_of_scope(old_binds, i).insert(namev, valuev)
            } else {
                map_of_scope(old_binds, i)
            }) by {
                assert(self.binds@.drop_last() =~= old_binds);
            }
            assert(self@ =~= old(self)@.update(
                scope as int,
                FrameV {
                    parent: old(self)@[scope as int].parent,
                    vars: old(self)@[scope as int].vars.insert(namev, valuev),
                },
            ));
        }
    }

    /// Search `scope`, then its parent, then the grandparent, and so on to
    /// the root; a copy of the first binding found comes back.
    pub fn lookup(&self, scope: usize, name: &String) -> (r: Option<Expr>)
        ensures
            match (lookup_in(self@, scope as int, name@), r) {
                (Some(v), Some(e)) => e@ == v,
                (None, None) => true,
                _ => false,
            },
    {
        proof {
            use_type_invariant(self);
        }
        if scope >= self.parents.len() {
            return None;
        }
        let mut cur = scope;
        loop
            invariant
                self.wf(),
                cur < self.parents@.len(),
                lookup_in(self@, scope as int, name@) == lookup_in(self@, cur as int, name@),
            decreases cur,
        {
            // Scan this frame's records from the latest backwards.
            let mut j = self.binds.len();
            let ghost frame_map = map_of_scope(self.binds@, cur as int);
            proof {
                assert(self.binds@.take(self.binds@.len() as int) =~= self.binds@);
            }
            while j > 0
                invariant
                    self.wf(),
                    j <= self.binds@.len(),
                    cur < self.parents@.len(),
                    lookup_in(self@, scope as int, name@) == lookup_in(self@, cur as int, name@),
                    frame_map == map_of_scope(self.binds@, cur as int),
                    frame_map.contains_key(name@) == map_of_scope(
                        self.binds@.take(j as int),
                        cur as int,
                    ).contains_key(name@),
                    frame_map.contains_key(name@) ==> frame_map[name@] == map_of_scope(
                        self.binds@.take(j as int),
                        cur as int,
                    )[name@],
                decreases j,
            {
                let entry = &self.binds[j - 1];
                proof {
                    assert(self.binds@.take(j as int).drop_last() =~= self.binds@.take(
                        j as int - 1,
                    ));
                    assert(self.binds@.take(j as int).last() == self.binds@[j as int - 1]);
                }
                if entry.0 == cur && entry.1.eq(name) {
                    proof {
                        assert(map_of_scope(self.binds@.take(j as int), cur as int).contains_key(
                            name@,
                        ));
                        assert(map_of_scope(self.binds@.take(j as int), cur as int)[name@]
                            == expr_v(self.binds@[j - 1].2));
                        assert(self@[cur as int].vars == frame_map);
                        assert(lookup_in(self@, cur as int, name@) == Some(frame_map[name@]));
                    }
                    return Some(entry.2.duplicate());
                }
                j = j - 1;
            }
            proof {
                assert(self.binds@.take(0) =~= Seq::<(usize, String, Expr)>::empty());
                assert(!map_of_scope(self.binds@, cur as int).contains_key(name@));
                assert(self@[cur as int].vars == map_of_scope(self.binds@, cur as int));
            }
            match self.parents[cur] {
                Some(p) => {
                    cur = p;
                },
                None => {
                    return None;
                },
            }
        }
    }
}

/// A scope no record names has the empty binding map.
proof fn lemma_map_of_scope_absent(s: Seq<(usize, String, Expr)>, sc: int)
    requires
        forall|j: int| 0 <= j < s.len() ==> (#[trigger] s[j]).0 != sc,
    ensures
        map_of_scope(s, sc) == Map::<Seq<char>, ExprV>::empty(),
    decreases s.len(),
{
    if s.len() > 0 {
        lemma_map_of_scope_absent(s.drop_last(), sc);
    }
}

} // verus!
