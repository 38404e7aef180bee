//! Stack-of-scopes associative map from identifiers to per-pass payloads.
//!
//! Both the semantic analyzer (identifier -> type) and the code generator
//! (identifier -> current SSA value) use this structure.  A lookup walks
//! scopes innermost-to-outermost; `push_scope`/`pop_scope` nest exactly with
//! block entry and exit.  `keys` enumerates every identifier live in any
//! open scope exactly once, which the code generator needs when it builds
//! phi nodes for all live variables at a merge point.

use crate::ast::Ident;
use vstd::pervasive::unreached;
use vstd::pervasive::VecAdditionalExecFns;
use vstd::prelude::*;

verus! {

/// Executable string equality, reflected to view equality.
pub fn str_eq(a: &Ident, b: &Ident) -> (r: bool)
    ensures
        r == (a@ == b@),
{
    a.eq(b)
}

/// Does one scope bind the given name?
pub open spec fn scope_has_key<V>(s: Seq<(Ident, V)>, key: Seq<char>) -> bool {
    exists|i: int| 0 <= i < s.len() && s[i].0@ == key
}

/// Position of the binding of `key` in one scope (unique when the scope is
/// well formed).
pub open spec fn scope_index<V>(s: Seq<(Ident, V)>, key: Seq<char>) -> int {
    choose|i: int| 0 <= i < s.len() && s[i].0@ == key
}

/// The payload bound to `key` in one scope.
pub open spec fn scope_get<V>(s: Seq<(Ident, V)>, key: Seq<char>) -> V {
    s[scope_index(s, key)].1
}

/// One scope with the payload of `key` replaced, the bound name kept.
pub open spec fn scope_update<V>(s: Seq<(Ident, V)>, key: Seq<char>, val: V) -> Seq<(Ident, V)> {
    s.update(scope_index(s, key), (s[scope_index(s, key)].0, val))
}

/// Innermost-first lookup over the whole scope stack.
pub open spec fn lookup<V>(ss: Seq<Seq<(Ident, V)>>, key: Seq<char>) -> Option<V>
    decreases ss.len(),
{
    if ss.len() == 0 {
        None
    } else if scope_has_key(ss.last(), key) {
        Some(scope_get(ss.last(), key))
    } else {
        lookup(ss.drop_last(), key)
    }
}

/// Effect of binding `key` in one scope: an existing binding in this scope
/// is overwritten (and reported), a new one is appended.
pub open spec fn scope_insert<V>(s: Seq<(Ident, V)>, key: Ident, val: V) -> (Seq<(Ident, V)>, Option<
    V,
>) {
    if scope_has_key(s, key@) {
        (scope_update(s, key@, val), Some(scope_get(s, key@)))
    } else {
        (s.push((key, val)), None)
    }
}

/// Effect of rebinding `key` in the innermost open scope that binds it.
pub open spec fn replace_in<V>(ss: Seq<Seq<(Ident, V)>>, key: Seq<char>, val: V) -> (Seq<
    Seq<(Ident, V)>,
>, Option<V>)
    decreases ss.len(),
{
    if ss.len() == 0 {
        (ss, None)
    } else if scope_has_key(ss.last(), key) {
        (ss.update(ss.len() - 1, scope_update(ss.last(), key, val)), Some(
            scope_get(ss.last(), key),
        ))
    } else {
        let (rest, prev) = replace_in(ss.drop_last(), key, val);
        (rest.push(ss.last()), prev)
    }
}

/// No name is bound twice within a single scope.
pub open spec fn scope_wf<V>(s: Seq<(Ident, V)>) -> bool {
    forall|i: int, j: int| 0 <= i < j < s.len() ==> s[i].0@ != s[j].0@
}

pub open spec fn scopes_wf<V>(ss: Seq<Seq<(Ident, V)>>) -> bool {
    forall|i: int| 0 <= i < ss.len() ==> scope_wf(#[trigger] ss[i])
}

/// Total number of bindings over all open scopes, shadowed ones included.
pub open spec fn total_len<V>(ss: Seq<Seq<(Ident, V)>>) -> nat
    decreases ss.len(),
{
    if ss.len() == 0 {
        0
    } else {
        total_len(ss.drop_last()) + ss.last().len()
    }
}

/// A lookup succeeds exactly when some open scope binds the key.
pub proof fn lemma_lookup_some_iff<V>(ss: Seq<Seq<(Ident, V)>>, key: Seq<char>)
    ensures
        lookup(ss, key) is Some <==> exists|i: int|
            0 <= i < ss.len() && scope_has_key(#[trigger] ss[i], key),
    decreases ss.len(),
{
    if ss.len() > 0 {
        lemma_lookup_some_iff(ss.drop_last(), key);
        if scope_has_key(ss.last(), key) {
            assert(scope_has_key(ss[ss.len() - 1], key));
        } else {
            if lookup(ss, key) is Some {
                let i = choose|i: int|
                    0 <= i < ss.drop_last().len() && scope_has_key(
                        #[trigger] ss.drop_last()[i],
                        key,
                    );
                assert(scope_has_key(ss[i], key));
            }
            if exists|i: int| 0 <= i < ss.len() && scope_has_key(#[trigger] ss[i], key) {
                let i = choose|i: int| 0 <= i < ss.len() && scope_has_key(#[trigger] ss[i], key);
                assert(ss.drop_last()[i] == ss[i]);
            }
        }
    }
}

/// What a lookup returns when the topmost scope holding the key is known.
pub proof fn lemma_lookup_at<V>(ss: Seq<Seq<(Ident, V)>>, key: Seq<char>, i: int)
    requires
        0 <= i < ss.len(),
        scope_has_key(ss[i], key),
        forall|j: int| i < j < ss.len() ==> !scope_has_key(#[trigger] ss[j], key),
    ensures
        lookup(ss, key) == Some(scope_get(ss[i], key)),
    decreases ss.len(),
{
    if i == ss.len() - 1 {
    } else {
        assert(!scope_has_key(ss.last(), key));
        assert(ss.drop_last()[i] == ss[i]);
        assert(forall|j: int|
            i < j < ss.drop_last().len() ==> !scope_has_key(#[trigger] ss.drop_last()[j], key));
        lemma_lookup_at(ss.drop_last(), key, i);
    }
}

/// Rebinding in place neither adds nor removes names, in any scope.
pub proof fn lemma_replace_in_shape<V>(ss: Seq<Seq<(Ident, V)>>, key: Seq<char>, val: V)
    ensures
        replace_in(ss, key, val).0.len() == ss.len(),
        forall|i: int|
            0 <= i < ss.len() ==> (#[trigger] replace_in(ss, key, val).0[i]).len()
                == ss[i].len(),
        forall|i: int, j: int|
            0 <= i < ss.len() && 0 <= j < ss[i].len() ==> (#[trigger] replace_in(
                ss,
                key,
                val,
            ).0[i][j]).0 == ss[i][j].0,
        scopes_wf(ss) ==> scopes_wf(replace_in(ss, key, val).0),
    decreases ss.len(),
{
    if ss.len() > 0 {
        lemma_replace_in_shape(ss.drop_last(), key, val);
        let res = replace_in(ss, key, val).0;
        if scope_has_key(ss.last(), key) {
        } else {
            assert(forall|i: int| 0 <= i < ss.len() - 1 ==> res[i] == replace_in(
                ss.drop_last(),
                key,
                val,
            ).0[i]);
            assert(forall|i: int| 0 <= i < ss.len() - 1 ==> ss.drop_last()[i] == ss[i]);
        }
    }
}

/// Some scope on the stack binds this name.
pub open spec fn names_include<V>(ss: Seq<Seq<(Ident, V)>>, name: Seq<char>) -> bool {
    exists|s: int| 0 <= s < ss.len() && scope_has_key(#[trigger] ss[s], name)
}

/// Some entry of `out` spells this name.
pub open spec fn out_names(out: Seq<Ident>, name: Seq<char>) -> bool {
    exists|a: int| 0 <= a < out.len() && (#[trigger] out[a])@ == name
}

/// Every entry of `out` names a binding somewhere in the scope stack.
pub open spec fn names_from_scopes<V>(ss: Seq<Seq<(Ident, V)>>, out: Seq<Ident>) -> bool {
    forall|a: int| 0 <= a < out.len() ==> names_include(ss, (#[trigger] out[a])@)
}

/// Every binding of the first `i` scopes, and of the first `j` entries of
/// scope `i`, is named in `out`.
pub open spec fn names_cover_upto<V>(
    ss: Seq<Seq<(Ident, V)>>,
    out: Seq<Ident>,
    i: int,
    j: int,
) -> bool {
    forall|s: int, e: int|
        0 <= s < ss.len() && 0 <= e < ss[s].len() && (s < i || (s == i && e < j)) ==> out_names(
            out,
            (#[trigger] ss[s][e]).0@,
        )
}

/// No two entries spell the same name.
pub open spec fn names_distinct(out: Seq<Ident>) -> bool {
    forall|a: int, b: int| 0 <= a < b < out.len() ==> out[a]@ != out[b]@
}

/// Every bound name in binding order: outermost scope first, each scope's
/// entries in insertion position, shadowing duplicates included.
pub open spec fn all_scope_names<V>(ss: Seq<Seq<(Ident, V)>>) -> Seq<Seq<char>>
    decreases ss.len(),
{
    if ss.len() == 0 {
        Seq::empty()
    } else {
        ss.first().map_values(|p: (Ident, V)| p.0@) + all_scope_names(ss.drop_first())
    }
}

/// First occurrence of each name, in order; `seen` carries the names
/// already enumerated.
pub open spec fn dedup_names_from(s: Seq<Seq<char>>, seen: Seq<Seq<char>>) -> Seq<Seq<char>>
    decreases s.len(),
{
    if s.len() == 0 {
        Seq::empty()
    } else if seen.contains(s.first()) {
        dedup_names_from(s.drop_first(), seen)
    } else {
        seq![s.first()] + dedup_names_from(s.drop_first(), seen.push(s.first()))
    }
}

/// The names `keys` enumerates, in its insertion-stable order.
pub open spec fn ordered_keys<V>(ss: Seq<Seq<(Ident, V)>>) -> Seq<Seq<char>> {
    dedup_names_from(all_scope_names(ss), Seq::empty())
}

/// The views of enumerated identifiers.
pub open spec fn name_views(out: Seq<Ident>) -> Seq<Seq<char>> {
    out.map_values(|k: Ident| k@)
}

/// The binding order decomposes scope by scope: scope `i`'s names come
/// first, then everything after it.
pub proof fn lemma_scope_names_step<V>(ss: Seq<Seq<(Ident, V)>>, i: int)
    requires
        0 <= i < ss.len(),
    ensures
        all_scope_names(ss.skip(i)) == ss[i].map_values(|p: (Ident, V)| p.0@) + all_scope_names(
            ss.skip(i + 1),
        ),
        all_scope_names(ss.skip(i)).len() >= ss[i].len(),
        forall|j: int|
            0 <= j < ss[i].len() ==> all_scope_names(ss.skip(i))[j] == (#[trigger] ss[i][j]).0@,
        forall|j: int|
            0 <= j <= ss[i].len() ==> all_scope_names(ss.skip(i)).skip(j) =~= ss[i].map_values(
                |p: (Ident, V)| p.0@,
            ).skip(j) + all_scope_names(ss.skip(i + 1)),
{
    assert(ss.skip(i).first() == ss[i]);
    assert(ss.skip(i).drop_first() =~= ss.skip(i + 1));
    assert(all_scope_names(ss.skip(i)) == ss[i].map_values(|p: (Ident, V)| p.0@)
        + all_scope_names(ss.skip(i + 1)));
    assert forall|j: int|
        0 <= j <= ss[i].len() implies all_scope_names(ss.skip(i)).skip(j) =~= ss[i].map_values(
        |p: (Ident, V)| p.0@,
    ).skip(j) + all_scope_names(ss.skip(i + 1)) by {
    }
}

proof fn lemma_cover_next_scope<V>(ss: Seq<Seq<(Ident, V)>>, out: Seq<Ident>, i: int)
    requires
        0 <= i < ss.len(),
        names_cover_upto(ss, out, i, ss[i].len() as int),
    ensures
        names_cover_upto(ss, out, i + 1, 0),
{
    assert forall|s: int, e: int|
        0 <= s < ss.len() && 0 <= e < ss[s].len() && (s < i + 1 || (s == i + 1 && e
            < 0)) implies out_names(out, (#[trigger] ss[s][e]).0@) by {
        assert(s < i || (s == i && e < ss[i].len()));
    }
}

/// Generic stack-of-scopes map with `Ident` keys.
#[derive(Debug)]
pub struct ScopedMap<V> {
    scopes: Vec<Vec<(Ident, V)>>,
}

impl<V> View for ScopedMap<V> {
    type V = Seq<Seq<(Ident, V)>>;

    closed spec fn view(&self) -> Seq<Seq<(Ident, V)>> {
        self.scopes@.map_values(|s: Vec<(Ident, V)>| s@)
    }
}

/// First binding of `key` in one scope, if any.
fn scope_find<V>(s: &Vec<(Ident, V)>, key: &Ident) -> (r: Option<usize>)
    ensures
        match r {
            Some(j) => j < s@.len() && s@[j as int].0@ == key@,
            None => !scope_has_key(s@, key@),
        },
{
    let mut j: usize = 0;
    while j < s.len()
        invariant
            0 <= j <= s@.len(),
            forall|k: int| 0 <= k < j ==> s@[k].0@ != key@,
        decreases s@.len() - j,
    {
        if str_eq(&s[j].0, key) {
            return Some(j);
        }
        j += 1;
    }
    None
}

impl<V> ScopedMap<V> {
    /// All scopes obey the per-scope uniqueness invariant.
    pub open spec fn wf(&self) -> bool {
        scopes_wf(self@)
    }

    pub fn new() -> (m: ScopedMap<V>)
        ensures
            m@ =~= Seq::<Seq<(Ident, V)>>::empty(),
            m.wf(),
    {
        ScopedMap { scopes: Vec::new() }
    }

    pub fn push_scope(&mut self)
        ensures
            final(self)@ =~= old(self)@.push(Seq::empty()),
            old(self).wf() ==> final(self).wf(),
    {
        self.scopes.push(Vec::new());
        proof {
            assert(self@ =~= old(self)@.push(Seq::empty()));
            if old(self).wf() {
                assert forall|i: int| 0 <= i < self@.len() implies scope_wf(#[trigger] self@[i]) by {
                    if i < old(self)@.len() {
                        assert(self@[i] == old(self)@[i]);
                    }
                }
            }
        }
    }

    /// Remove and return the innermost scope.
    pub fn pop_scope(&mut self) -> (r: Option<Vec<(Ident, V)>>)
        ensures
            old(self)@.len() == 0 ==> r is None && final(self)@ == old(self)@,
            old(self)@.len() > 0 ==> match r {
                Some(s) => s@ == old(self)@.last() && final(self)@ =~= old(self)@.drop_last(),
                None => false,
            },
            old(self).wf() ==> final(self).wf(),
    {
        let r = self.scopes.pop();
        proof {
            if old(self)@.len() > 0 {
                assert(self@ =~= old(self)@.drop_last());
            } else {
                assert(self@ =~= old(self)@);
            }
        }
        r
    }

    /// Innermost-first search for a binding.
    pub fn get(&self, key: &Ident) -> (r: Option<&V>)
        requires
            self.wf(),
        ensures
            match r {
                Some(v) => lookup(self@, key@) == Some(*v),
                None => lookup(self@, key@) is None,
            },
    {
        let mut i: usize = self.scopes.len();
        while i > 0
            invariant
                0 <= i <= self@.len(),
                self.wf(),
                forall|j: int| i <= j < self@.len() ==> !scope_has_key(#[trigger] self@[j], key@),
            decreases i,
        {
            i -= 1;
            let found = scope_find(&self.scopes[i], key);
            if let Some(j) = found {
                proof {
                    assert(scope_has_key(self@[i as int], key@));
                    lemma_lookup_at(self@, key@, i as int);
                    let idx = scope_index(self@[i as int], key@);
                    assert(0 <= idx < self@[i as int].len() && self@[i as int][idx].0@ == key@);
                    assert(scope_wf(self@[i as int]));
                    assert(idx == j as int);
                }
                return Some(&self.scopes[i][j].1);
            }
        }
        proof {
            lemma_lookup_some_iff(self@, key@);
        }
        None
    }

    /// Bind `key` in the innermost scope.  A `Some` result is the payload it
    /// overwrote there: the caller's signal of a redeclaration in this very
    /// block (an outer binding of the same name is shadowing and reports
    /// nothing).
    pub fn insert_into_top_scope(&mut self, key: Ident, val: V) -> (r: Option<V>)
        requires
            old(self).wf(),
        ensures
            final(self).wf(),
            ({
                let base = if old(self)@.len() == 0 {
                    old(self)@.push(Seq::empty())
                } else {
                    old(self)@
                };
                final(self)@ =~= base.update(
                    base.len() - 1,
                    scope_insert(base.last(), key, val).0,
                ) && r == scope_insert(base.last(), key, val).1
            }),
    {
        if self.scopes.len() == 0 {
            self.push_scope();
        }
        let ghost base = self@;
        let mut top = self.scopes.pop().unwrap();
        proof {
            assert(top@ == base[base.len() - 1]);
            assert(scope_wf(base[base.len() - 1]));
        }
        let found = scope_find(&top, &key);
        let r = match found {
            Some(j) => {
                proof {
                    assert(scope_has_key(top@, key@));
                    let idx = scope_index(top@, key@);
                    assert(0 <= idx < top@.len() && top@[idx].0@ == key@);
                    assert(scope_wf(top@));
                    assert(idx == j as int);
                }
                let prev = top.remove(j);
                top.insert(j, (prev.0, val));
                proof {
                    assert(top@ =~= scope_insert(base.last(), key, val).0);
                }
                Some(prev.1)
            },
            None => {
                top.push((key, val));
                proof {
                    assert(top@ =~= scope_insert(base.last(), key, val).0);
                }
                None
            },
        };
        self.scopes.push(top);
        proof {
            assert(self@ =~= base.update(base.len() - 1, scope_insert(base.last(), key, val).0));
        }
        r
    }

    /// Rebind `key` in whichever open scope currently owns it.  The caller
    /// must know the name is bound: by the time the code generator runs, the
    /// analyzer has already rejected undeclared-variable use.
    pub fn replace_topmost(&mut self, key: &Ident, val: V) -> (r: V)
        requires
            old(self).wf(),
            lookup(old(self)@, key@) is Some,
        ensures
            final(self).wf(),
            final(self)@ =~= replace_in(old(self)@, key@, val).0,
            Some(r) == replace_in(old(self)@, key@, val).1,
    {
        proof {
            lemma_lookup_some_iff(old(self)@, key@);
        }
        let mut i: usize = self.scopes.len();
        while i > 0
            invariant
                0 <= i <= self@.len(),
                self@ == old(self)@,
                self.wf(),
                lookup(self@, key@) is Some,
                forall|j: int| i <= j < self@.len() ==> !scope_has_key(#[trigger] self@[j], key@),
            decreases i,
        {
            i -= 1;
            let found = scope_find(&self.scopes[i], key);
            if let Some(j) = found {
                proof {
                    assert(scope_has_key(self@[i as int], key@));
                    let idx = scope_index(self@[i as int], key@);
                    assert(0 <= idx < self@[i as int].len() && self@[i as int][idx].0@ == key@);
                    assert(scope_wf(self@[i as int]));
                    assert(idx == j as int);
                    lemma_replace_at(self@, key@, val, i as int);
                }
                let mut tmp: Vec<(Ident, V)> = Vec::new();
                self.scopes.set_and_swap(i, &mut tmp);
                let prev = tmp.remove(j);
                tmp.insert(j, (prev.0, val));
                proof {
                    assert(tmp@ =~= scope_update(old(self)@[i as int], key@, val));
                }
                self.scopes.set(i, tmp);
                proof {
                    assert(self@ =~= replace_in(old(self)@, key@, val).0);
                }
                return prev.1;
            }
        }
        proof {
            lemma_lookup_some_iff(self@, key@);
            assert(false);
        }
        unreached()
    }

    /// Every identifier currently bound in any open scope, exactly once.
    #[verifier::loop_isolation(false)]
    pub fn keys(&self) -> (r: Vec<Ident>)
        requires
            self.wf(),
        ensures
            names_distinct(r@),
            forall|a: int| 0 <= a < r@.len() ==> lookup(self@, #[trigger] r@[a]@) is Some,
            forall|k: Seq<char>| lookup(self@, k) is Some ==> out_names(r@, k),
            name_views(r@) == ordered_keys(self@),
    {
        let mut out: Vec<Ident> = Vec::new();
        let mut i: usize = 0;
        proof {
            assert(self@.skip(0) =~= self@);
            assert(name_views(out@) =~= Seq::<Seq<char>>::empty());
            assert(name_views(out@) == Seq::<Seq<char>>::empty());
            assert(dedup_names_from(all_scope_names(self@.skip(0)), name_views(out@))
                == ordered_keys(self@));
            assert(name_views(out@) + dedup_names_from(
                all_scope_names(self@.skip(0)),
                name_views(out@),
            ) =~= ordered_keys(self@));
        }
        while i < self.scopes.len()
            invariant
                0 <= i <= self@.len(),
                self.wf(),
                names_distinct(out@),
                names_from_scopes(self@, out@),
                names_cover_upto(self@, out@, i as int, 0),
                ordered_keys(self@) == name_views(out@) + dedup_names_from(
                    all_scope_names(self@.skip(i as int)),
                    name_views(out@),
                ),
            decreases self@.len() - i,
        {
            proof {
                lemma_scope_names_step(self@, i as int);
                assert(all_scope_names(self@.skip(i as int)).skip(0) =~= all_scope_names(
                    self@.skip(i as int),
                ));
            }
            let mut j: usize = 0;
            while j < self.scopes[i].len()
                invariant
                    0 <= i < self@.len(),
                    0 <= j <= self@[i as int].len(),
                    self.wf(),
                    names_distinct(out@),
                    names_from_scopes(self@, out@),
                    names_cover_upto(self@, out@, i as int, j as int),
                    ordered_keys(self@) == name_views(out@) + dedup_names_from(
                        all_scope_names(self@.skip(i as int)).skip(j as int),
                        name_views(out@),
                    ),
                decreases self@[i as int].len() - j,
            {
                let ghost old_out = out@;
                let name = &self.scopes[i][j].0;
                let mut seen = false;
                let mut a: usize = 0;
                while a < out.len()
                    invariant
                        0 <= a <= out@.len(),
                        out@ == old_out,
                        seen <==> exists|b: int| 0 <= b < a && (#[trigger] out@[b])@ == name@,
                    decreases out@.len() - a,
                {
                    if str_eq(&out[a], name) {
                        seen = true;
                    }
                    a += 1;
                }
                if !seen {
                    out.push(name.clone());
                }
                proof {
                    assert(name@ == self@[i as int][j as int].0@);
                    assert forall|a: int| 0 <= a < out@.len() implies names_include(
                        self@,
                        (#[trigger] out@[a])@,
                    ) by {
                        if a < old_out.len() {
                            assert(out@[a] == old_out[a]);
                        } else {
                            assert(scope_has_key(self@[i as int], out@[a]@));
                        }
                    }
                    assert forall|s: int, e: int|
                        0 <= s < self@.len() && 0 <= e < self@[s].len() && (s < i || (s == i && e
                            < j + 1)) implies out_names(out@, (#[trigger] self@[s][e]).0@) by {
                        if s < i || e < j {
                            assert(out_names(old_out, self@[s][e].0@));
                            let a = choose|a: int|
                                0 <= a < old_out.len() && (#[trigger] old_out[a])@
                                    == self@[s][e].0@;
                            assert(out@[a]@ == self@[s][e].0@);
                        } else {
                            if seen {
                                let b = choose|b: int|
                                    0 <= b < old_out.len() && (#[trigger] old_out[b])@ == name@;
                                assert(out@[b]@ == self@[s][e].0@);
                            } else {
                                assert(out@[out@.len() - 1]@ == self@[s][e].0@);
                            }
                        }
                    }
                    assert(names_cover_upto(self@, out@, i as int, j as int + 1));
                    let rem = all_scope_names(self@.skip(i as int)).skip(j as int);
                    let onames = name_views(old_out);
                    lemma_scope_names_step(self@, i as int);
                    assert(rem.first() == name@);
                    assert(rem.drop_first() =~= all_scope_names(self@.skip(i as int)).skip(
                        j as int + 1,
                    ));
                    assert(seen == onames.contains(name@)) by {
                        if seen {
                            let b = choose|b: int|
                                0 <= b < old_out.len() && (#[trigger] old_out[b])@ == name@;
                            assert(onames[b] == name@);
                        }
                        if onames.contains(name@) {
                            let b = choose|b: int| 0 <= b < onames.len() && onames[b] == name@;
                            assert(old_out[b]@ == name@);
                        }
                    }
                    if seen {
                        assert(dedup_names_from(rem, onames) == dedup_names_from(
                            rem.drop_first(),
                            onames,
                        ));
                    } else {
                        assert(name_views(out@) =~= onames.push(name@));
                        assert(dedup_names_from(rem, onames) == seq![name@] + dedup_names_from(
                            rem.drop_first(),
                            onames.push(name@),
                        ));
                        assert(onames + (seq![name@] + dedup_names_from(
                            rem.drop_first(),
                            name_views(out@),
                        )) =~= name_views(out@) + dedup_names_from(
                            rem.drop_first(),
                            name_views(out@),
                        ));
                    }
                    assert(ordered_keys(self@) == name_views(out@) + dedup_names_from(
                        all_scope_names(self@.skip(i as int)).skip(j as int + 1),
                        name_views(out@),
                    ));
                }
                j += 1;
            }
            proof {
                assert(self@[i as int] == self.scopes@[i as int]@);
                assert(j as int == self@[i as int].len());
                lemma_cover_next_scope(self@, out@, i as int);
                lemma_scope_names_step(self@, i as int);
                assert(all_scope_names(self@.skip(i as int)).skip(j as int) =~= all_scope_names(
                    self@.skip(i as int + 1),
                ));
            }
            i += 1;
        }
        proof {
            assert forall|a: int| 0 <= a < out@.len() implies lookup(
                self@,
                #[trigger] out@[a]@,
            ) is Some by {
                assert(names_include(self@, out@[a]@));
                lemma_lookup_some_iff(self@, out@[a]@);
            }
            assert(all_scope_names(self@.skip(self@.len() as int)) =~= Seq::<Seq<char>>::empty());
            assert(name_views(out@) + dedup_names_from(
                Seq::<Seq<char>>::empty(),
                name_views(out@),
            ) =~= name_views(out@));
            assert forall|k: Seq<char>| lookup(self@, k) is Some implies out_names(out@, k) by {
                lemma_lookup_some_iff(self@, k);
                let s = choose|s: int| 0 <= s < self@.len() && scope_has_key(#[trigger] self@[s], k);
                assert(scope_has_key(self@[s], k));
                let e = scope_index(self@[s], k);
                assert(0 <= e < self@[s].len() && self@[s][e].0@ == k);
                assert(out_names(out@, self@[s][e].0@));
            }
        }
        out
    }

    /// A deep copy with the very same bindings: the code generator
    /// snapshots the value environment before a branch and rolls back to
    /// the snapshot for the other arm.
    pub fn duplicate(&self) -> (r: ScopedMap<V>) where V: Copy
        ensures
            r@ == self@,
    {
        let mut scopes: Vec<Vec<(Ident, V)>> = Vec::new();
        let mut i: usize = 0;
        while i < self.scopes.len()
            invariant
                0 <= i <= self@.len(),
                scopes@.map_values(|s: Vec<(Ident, V)>| s@) =~= self@.take(i as int),
            decreases self@.len() - i,
        {
            let src = &self.scopes[i];
            let mut sc: Vec<(Ident, V)> = Vec::new();
            let mut j: usize = 0;
            while j < src.len()
                invariant
                    0 <= i < self@.len(),
                    0 <= j <= self@[i as int].len(),
                    src == self.scopes@[i as int],
                    sc@ =~= self@[i as int].take(j as int),
                decreases self@[i as int].len() - j,
            {
                let pair = (src[j].0.clone(), src[j].1);
                sc.push(pair);
                proof {
                    assert(sc@ =~= self@[i as int].take(j as int + 1));
                }
                j += 1;
            }
            proof {
                assert(sc@ =~= self@[i as int]);
            }
            scopes.push(sc);
            proof {
                assert(self@.take(i as int + 1) =~= self@.take(i as int).push(self@[i as int]));
                assert(scopes@.map_values(|s: Vec<(Ident, V)>| s@) =~= self@.take(i as int + 1));
            }
            i += 1;
        }
        proof {
            assert(self@.take(self@.len() as int) =~= self@);
        }
        let r = ScopedMap { scopes };
        proof {
            assert(r@ =~= self@);
        }
        r
    }

    /// Total number of bindings over all open scopes.
    pub fn len(&self) -> (r: usize)
        requires
            total_len(self@) <= usize::MAX,
        ensures
            r == total_len(self@),
    {
        let mut acc: usize = 0;
        let mut i: usize = 0;
        while i < self.scopes.len()
            invariant
                0 <= i <= self@.len(),
                total_len(self@) <= usize::MAX,
                acc == total_len(self@.take(i as int)),
            decreases self@.len() - i,
        {
            proof {
                lemma_total_len_take(self@, i as int);
                lemma_total_len_prefix(self@, i as int + 1);
            }
            acc = acc + self.scopes[i].len();
            i += 1;
        }
        proof {
            assert(self@.take(self@.len() as int) =~= self@);
        }
        acc
    }
}

/// Rebinding where the topmost scope holding the key is known.
proof fn lemma_replace_at<V>(ss: Seq<Seq<(Ident, V)>>, key: Seq<char>, val: V, i: int)
    requires
        0 <= i < ss.len(),
        scope_has_key(ss[i], key),
        forall|j: int| i < j < ss.len() ==> !scope_has_key(#[trigger] ss[j], key),
    ensures
        replace_in(ss, key, val).0 =~= ss.update(i, scope_update(ss[i], key, val)),
        replace_in(ss, key, val).1 == Some(scope_get(ss[i], key)),
    decreases ss.len(),
{
    if i == ss.len() - 1 {
        assert(replace_in(ss, key, val).0 =~= ss.update(i, scope_update(ss[i], key, val)));
    } else {
        assert(!scope_has_key(ss.last(), key));
        assert(ss.drop_last()[i] == ss[i]);
        assert(forall|j: int|
            i < j < ss.drop_last().len() ==> !scope_has_key(#[trigger] ss.drop_last()[j], key));
        lemma_replace_at(ss.drop_last(), key, val, i);
        assert(replace_in(ss, key, val).0 =~= ss.update(i, scope_update(ss[i], key, val)));
    }
}

/// The bound names of each scope, in place: the shape that scope pushes,
/// pops and value rebindings leave alone.
pub open spec fn scope_keys<V>(ss: Seq<Seq<(Ident, V)>>) -> Seq<Seq<Seq<char>>> {
    ss.map_values(|s: Seq<(Ident, V)>| s.map_values(|p: (Ident, V)| p.0@))
}

/// Every name currently bound in any open scope.
pub open spec fn live_names<V>(ss: Seq<Seq<(Ident, V)>>) -> Set<Seq<char>> {
    Set::new(|k: Seq<char>| lookup(ss, k) is Some)
}

/// Whether a name is bound depends on the key structure alone.
pub proof fn lemma_live_names_from_keys<V, W>(a: Seq<Seq<(Ident, V)>>, b: Seq<Seq<(Ident, W)>>)
    requires
        scope_keys(a) == scope_keys(b),
    ensures
        live_names(a) =~= live_names(b),
{
    assert forall|k: Seq<char>| #[trigger] live_names(a).contains(k) implies live_names(
        b,
    ).contains(k) by {
        lemma_has_key_from_keys(a, b, k);
    }
    assert forall|k: Seq<char>| #[trigger] live_names(b).contains(k) implies live_names(
        a,
    ).contains(k) by {
        lemma_has_key_from_keys(b, a, k);
    }
}

proof fn lemma_has_key_from_keys<V, W>(a: Seq<Seq<(Ident, V)>>, b: Seq<Seq<(Ident, W)>>, k: Seq<char>)
    requires
        scope_keys(a) == scope_keys(b),
        lookup(a, k) is Some,
    ensures
        lookup(b, k) is Some,
{
    lemma_lookup_some_iff(a, k);
    lemma_lookup_some_iff(b, k);
    let i = choose|i: int| 0 <= i < a.len() && scope_has_key(#[trigger] a[i], k);
    let j = scope_index(a[i], k);
    assert(0 <= j < a[i].len() && a[i][j].0@ == k);
    assert(scope_keys(a).len() == a.len() && scope_keys(b).len() == b.len());
    assert(a.len() == b.len());
    assert(scope_keys(a)[i] == a[i].map_values(|p: (Ident, V)| p.0@));
    assert(scope_keys(b)[i] == b[i].map_values(|p: (Ident, W)| p.0@));
    assert(a[i].len() == b[i].len());
    assert(scope_keys(a)[i][j] == k);
    assert(scope_keys(b)[i][j] == k);
    assert(b[i][j].0@ == k);
    assert(scope_has_key(b[i], k));
}

/// An empty scope binds nothing: pushing one changes no lookup.
pub proof fn lemma_lookup_push_empty<V>(ss: Seq<Seq<(Ident, V)>>, k: Seq<char>)
    ensures
        lookup(ss.push(Seq::empty()), k) == lookup(ss, k),
{
    let e: Seq<(Ident, V)> = Seq::empty();
    assert(!scope_has_key(e, k));
    assert(ss.push(e).drop_last() =~= ss);
}

/// What binding a name in the innermost scope does to every lookup.
pub proof fn lemma_lookup_decl_insert<V>(ss: Seq<Seq<(Ident, V)>>, key: Ident, val: V, k: Seq<char>)
    requires
        ss.len() >= 1,
        scopes_wf(ss),
    ensures
        ({
            let new = ss.update(ss.len() - 1, scope_insert(ss.last(), key, val).0)
;
            &&& (k == key@ ==> lookup(new, k) == Some(val))
            &&& (k != key@ ==> lookup(new, k) == lookup(ss, k))
        }),
{
    let last = ss.last();
    let nlast = scope_insert(last, key, val).0;
    let new = ss.update(ss.len() - 1, nlast);
    assert(new.last() == nlast);
    assert(new.drop_last() =~= ss.drop_last());
    if k == key@ {
        if scope_has_key(last, k) {
            let i = scope_index(last, k);
            assert(nlast[i].0@ == k && nlast[i].1 == val);
            assert(scope_has_key(nlast, k));
            let i2 = scope_index(nlast, k);
            assert(nlast[i2].0@ == k);
            assert(forall|j: int| 0 <= j < nlast.len() ==> (#[trigger] nlast[j]).0@ == last[j].0@);
            assert(i2 == i);
        } else {
            assert(nlast.last().0@ == k && nlast.last().1 == val);
            assert(scope_has_key(nlast, k));
            let i2 = scope_index(nlast, k);
            assert(nlast[i2].0@ == k);
            assert(forall|j: int| 0 <= j < last.len() ==> (#[trigger] last[j]).0@ != k);
            assert(i2 == nlast.len() - 1);
        }
    } else {
        if scope_has_key(nlast, k) {
            let i2 = scope_index(nlast, k);
            assert(nlast[i2].0@ == k);
            assert(last[i2].0@ == k);
            assert(scope_has_key(last, k));
            let i = scope_index(last, k);
            assert(i == i2);
            assert(scope_get(nlast, k) == scope_get(last, k));
        } else {
            if scope_has_key(last, k) {
                let i = scope_index(last, k);
                assert(nlast[i].0@ == k);
                assert(scope_has_key(nlast, k));
            }
        }
    }
}

/// Rebinding a value in place changes no scope's key structure.
pub proof fn lemma_replace_in_keys<V>(ss: Seq<Seq<(Ident, V)>>, key: Seq<char>, val: V)
    ensures
        scope_keys(replace_in(ss, key, val).0) == scope_keys(ss),
{
    lemma_replace_in_shape(ss, key, val);
    let r = replace_in(ss, key, val).0;
    assert forall|i: int| 0 <= i < ss.len() implies scope_keys(r)[i] == scope_keys(ss)[i] by {
        assert(scope_keys(r)[i] =~= scope_keys(ss)[i]);
    }
    assert(scope_keys(r) =~= scope_keys(ss));
}

/// What binding a name does to the innermost scope's key list: a fresh
/// name is appended, a rebound one leaves the list as it was.
pub proof fn lemma_scope_insert_keys<V>(s: Seq<(Ident, V)>, key: Ident, val: V)
    ensures
        !scope_has_key(s, key@) ==> scope_insert(s, key, val).0.map_values(
            |p: (Ident, V)| p.0@,
        ) == s.map_values(|p: (Ident, V)| p.0@).push(key@),
        scope_has_key(s, key@) ==> scope_insert(s, key, val).0.map_values(|p: (Ident, V)| p.0@)
            == s.map_values(|p: (Ident, V)| p.0@),
{
    let f = |p: (Ident, V)| p.0@;
    if scope_has_key(s, key@) {
        assert(scope_insert(s, key, val).0.map_values(f) =~= s.map_values(f));
    } else {
        assert(scope_insert(s, key, val).0.map_values(f) =~= s.map_values(f).push(key@));
    }
}

proof fn lemma_total_len_take<V>(ss: Seq<Seq<(Ident, V)>>, i: int)
    requires
        0 <= i < ss.len(),
    ensures
        total_len(ss.take(i + 1)) == total_len(ss.take(i)) + ss[i].len(),
{
    assert(ss.take(i + 1).drop_last() =~= ss.take(i));
    assert(ss.take(i + 1).last() == ss[i]);
}

/// A prefix never holds more bindings than the whole.
proof fn lemma_total_len_prefix<V>(ss: Seq<Seq<(Ident, V)>>, i: int)
    requires
        0 <= i <= ss.len(),
    ensures
        total_len(ss.take(i)) <= total_len(ss),
    decreases ss.len() - i,
{
    if i < ss.len() {
        lemma_total_len_take(ss, i);
        lemma_total_len_prefix(ss, i + 1);
    } else {
        assert(ss.take(i) =~= ss);
    }
}

} // verus!
