//! The construction-time composition algorithm.
//!
//! Declarative bindings arrive as ordered, comma-separated name lists.  This
//! module splits and trims them, resolves each name against a registry of
//! known functions, rejects malformed or empty declarations before any store
//! is usable, and builds the middleware chain so that the first declared
//! middleware runs outermost — which requires wrapping the links in reverse
//! declaration order.

use vstd::prelude::*;

use crate::outcome::Outcome;

verus! {

/// Why a declarative binding is rejected at composition time.  Composition
/// errors are construction-time and fatal: no store is built from a
/// declaration that carries one.
#[derive(PartialEq, Eq, Structural, Clone, Copy, Debug)]
pub enum ComposeError {
    /// The name list has a segment that is empty after trimming.
    EmptyName { position: usize },
    /// A declared name does not occur in the registry of known functions.
    Unresolved { position: usize },
}

/// The composed middleware chain: a nest of links around the innermost
/// "reduce" primitive.  Each link names the middleware (by its index in the
/// registry it was resolved against) that runs at that depth.
#[derive(Debug)]
pub enum Chain {
    Base,
    Link { mw: usize, next: Box<Chain> },
}

/// The chain that a declared order composes to: the first declared
/// middleware is the outermost link.
pub open spec fn chain_of(ids: Seq<usize>) -> Chain
    decreases ids.len(),
{
    if ids.len() == 0 {
        Chain::Base
    } else {
        Chain::Link { mw: ids[0], next: Box::new(chain_of(ids.drop_first())) }
    }
}

/// Builds the middleware chain from the resolved ids in declaration order.
/// The links are wrapped starting from the last declared id — the reversal
/// that puts the first declared middleware outermost — and an empty
/// declaration composes to exactly the base link.
pub fn compose(ids: &Vec<usize>) -> (chain: Chain)
    ensures
        chain == chain_of(ids@),
{
    let mut chain = Chain::Base;
    let mut i: usize = ids.len();
    while i > 0
        invariant
            i <= ids.len(),
            chain == chain_of(ids@.skip(i as int)),
        decreases i,
    {
        i = i - 1;
        chain = Chain::Link { mw: ids[i], next: Box::new(chain) };
        proof {
            assert(ids@.skip(i as int).drop_first() =~= ids@.skip(i as int + 1));
        }
    }
    proof {
        assert(ids@.skip(0) =~= ids@);
    }
    chain
}

/// The characters of `s` with every leading space removed.
pub open spec fn trim_left(s: Seq<char>) -> Seq<char>
    decreases s.len(),
{
    if s.len() > 0 && s[0] == ' ' {
        trim_left(s.drop_first())
    } else {
        s
    }
}

/// The characters of `s` with every trailing space removed.
pub open spec fn trim_right(s: Seq<char>) -> Seq<char>
    decreases s.len(),
{
    if s.len() > 0 && s.last() == ' ' {
        trim_right(s.drop_last())
    } else {
        s
    }
}

/// The characters of `s` with leading and trailing spaces removed.
pub open spec fn trimmed(s: Seq<char>) -> Seq<char> {
    trim_right(trim_left(s))
}

/// The raw segments of `s` between its commas, in order.  Every declaration
/// has at least one segment; a comma always separates two of them, so empty
/// segments are represented faithfully.
pub open spec fn split_commas(s: Seq<char>) -> Seq<Seq<char>>
    decreases s.len(),
{
    if s.len() == 0 {
        seq![Seq::<char>::empty()]
    } else if s[0] == ',' {
        seq![Seq::<char>::empty()] + split_commas(s.drop_first())
    } else {
        let rest = split_commas(s.drop_first());
        seq![seq![s[0]] + rest[0]] + rest.drop_first()
    }
}

/// The declared names of a comma-separated list, trimmed, in declared order.
pub open spec fn segments(s: Seq<char>) -> Seq<Seq<char>> {
    split_commas(s).map_values(|seg: Seq<char>| trimmed(seg))
}

proof fn lemma_split_commas_no_comma(s: Seq<char>)
    requires
        forall|j: int| 0 <= j < s.len() ==> s[j] != ',',
    ensures
        split_commas(s) == seq![s],
    decreases s.len(),
{
    if s.len() == 0 {
        assert(split_commas(s) =~~= seq![s]);
    } else {
        lemma_split_commas_no_comma(s.drop_first());
        assert(seq![s[0]] + s.drop_first() =~= s);
        assert(split_commas(s) =~~= seq![s]);
    }
}

proof fn lemma_split_commas_at(s: Seq<char>, c: int)
    requires
        0 <= c < s.len(),
        s[c] == ',',
        forall|j: int| 0 <= j < c ==> s[j] != ',',
    ensures
        split_commas(s) == seq![s.subrange(0, c)] + split_commas(s.skip(c + 1)),
    decreases c,
{
    if c == 0 {
        assert(s.subrange(0, 0) =~= Seq::<char>::empty());
        assert(s.skip(1) =~= s.drop_first());
        assert(split_commas(s) =~= seq![s.subrange(0, c)] + split_commas(s.skip(c + 1)));
    } else {
        let tail = s.drop_first();
        assert(tail[c - 1] == ',');
        assert(forall|j: int| 0 <= j < c - 1 ==> tail[j] != ',');
        lemma_split_commas_at(tail, c - 1);
        assert(seq![s[0]] + tail.subrange(0, c - 1) =~= s.subrange(0, c));
        assert(tail.skip(c) =~= s.skip(c + 1));
        assert(split_commas(tail).drop_first() =~= split_commas(tail.skip(c)));
        assert(split_commas(s) =~= seq![s.subrange(0, c)] + split_commas(s.skip(c + 1)));
    }
}

proof fn lemma_trim_left_at(s: Seq<char>, k: int)
    requires
        0 <= k <= s.len(),
        forall|j: int| 0 <= j < k ==> s[j] == ' ',
        k == s.len() || s[k] != ' ',
    ensures
        trim_left(s) == s.skip(k),
    decreases k,
{
    if k == 0 {
        assert(trim_left(s) =~= s.skip(0));
    } else {
        let tail = s.drop_first();
        assert(forall|j: int| 0 <= j < k - 1 ==> tail[j] == ' ');
        lemma_trim_left_at(tail, k - 1);
        assert(tail.skip(k - 1) =~= s.skip(k));
    }
}

proof fn lemma_trim_right_at(s: Seq<char>, h: int)
    requires
        0 <= h <= s.len(),
        forall|j: int| h <= j < s.len() ==> s[j] == ' ',
        h == 0 || s[h - 1] != ' ',
    ensures
        trim_right(s) == s.take(h),
    decreases s.len() - h,
{
    if h == s.len() {
        assert(s.take(h) =~= s);
    } else {
        let head = s.drop_last();
        assert(forall|j: int| h <= j < head.len() ==> head[j] == ' ');
        lemma_trim_right_at(head, h);
        assert(head.take(h) =~= s.take(h));
    }
}

/// Whether two string slices carry the same characters.
pub fn str_eq(a: &str, b: &str) -> (r: bool)
    ensures
        r == (a@ == b@),
{
    let a_len = a.unicode_len();
    let b_len = b.unicode_len();
    if a_len != b_len {
        return false;
    }
    let mut i: usize = 0;
    while i < a_len
        invariant
            i <= a_len,
            a_len == a@.len(),
            a@.len() == b@.len(),
            forall|j: int| 0 <= j < i ==> a@[j] == b@[j],
        decreases a_len - i,
    {
        if a.get_char(i) != b.get_char(i) {
            return false;
        }
        i = i + 1;
    }
    proof {
        assert(a@ =~= b@);
    }
    true
}

/// The slice of `s` with leading and trailing spaces removed.
pub fn trim_str<'a>(s: &'a str) -> (t: &'a str)
    ensures
        t@ == trimmed(s@),
{
    let len = s.unicode_len();
    let mut lo: usize = 0;
    while lo < len && s.get_char(lo) == ' '
        invariant
            lo <= len,
            len == s@.len(),
            forall|j: int| 0 <= j < lo ==> s@[j] == ' ',
        decreases len - lo,
    {
        lo = lo + 1;
    }
    let mut hi: usize = len;
    while hi > lo && s.get_char(hi - 1) == ' '
        invariant
            lo <= hi <= len,
            len == s@.len(),
            forall|j: int| hi <= j < len ==> s@[j] == ' ',
        decreases hi,
    {
        hi = hi - 1;
    }
    let t = s.substring_char(lo, hi);
    proof {
        lemma_trim_left_at(s@, lo as int);
        let rest = s@.skip(lo as int);
        assert(forall|j: int| hi - lo <= j < rest.len() ==> rest[j] == ' ');
        lemma_trim_right_at(rest, hi - lo);
        assert(rest.take(hi - lo) =~= s@.subrange(lo as int, hi as int));
    }
    t
}

/// Splits a comma-separated declaration into its trimmed names, in declared
/// order, rejecting the first name that is empty after trimming.  Succeeds
/// exactly when every declared name is non-empty.
pub fn parse_list<'a>(s: &'a str) -> (r: Result<Vec<&'a str>, ComposeError>)
    ensures
        match r {
            Ok(names) => {
                &&& names@.len() == segments(s@).len()
                &&& forall|i: int|
                    0 <= i < names@.len() ==> names@[i]@ == segments(s@)[i]
                        && names@[i]@.len() > 0
            },
            Err(e) => {
                &&& e matches ComposeError::EmptyName { position }
                &&& e matches ComposeError::EmptyName { position } ==> position
                    < segments(s@).len() && segments(s@)[position as int].len() == 0 && (
                forall|j: int| 0 <= j < position ==> segments(s@)[j].len() > 0)
            },
        },
{
    let len = s.unicode_len();
    let mut names: Vec<&'a str> = Vec::new();
    let mut start: usize = 0;
    let mut i: usize = 0;
    proof {
        assert(split_commas(s@).take(0) =~= Seq::<Seq<char>>::empty());
        assert(s@.skip(0) =~= s@);
        assert(split_commas(s@) =~= split_commas(s@).take(0) + split_commas(s@.skip(0)));
    }
    while i < len
        invariant
            start <= i <= len,
            len == s@.len(),
            names@.len() <= split_commas(s@).len(),
            split_commas(s@) == split_commas(s@).take(names@.len() as int) + split_commas(
                s@.skip(start as int),
            ),
            forall|j: int|
                0 <= j < names@.len() ==> names@[j]@ == segments(s@)[j] && names@[j]@.len() > 0,
            forall|j: int| start <= j < i ==> s@[j] != ',',
        decreases len - i,
    {
        if s.get_char(i) == ',' {
            let seg = s.substring_char(start, i);
            let name = trim_str(seg);
            let ghost k = names@.len() as int;
            let ghost suffix = s@.skip(start as int);
            proof {
                assert(forall|j: int|
                    0 <= j < i - start ==> suffix[j] == s@[j + start] && suffix[j] != ',');
                assert(suffix[i - start] == ',');
                lemma_split_commas_at(suffix, i - start);
                assert(suffix.subrange(0, i - start) =~= s@.subrange(start as int, i as int));
                assert(suffix.skip(i - start + 1) =~= s@.skip(i as int + 1));
                assert(split_commas(s@) =~= split_commas(s@).take(k) + seq![
                    s@.subrange(start as int, i as int),
                ] + split_commas(s@.skip(i as int + 1)));
                assert(split_commas(s@)[k] == s@.subrange(start as int, i as int));
                assert(split_commas(s@).take(k + 1) =~= split_commas(s@).take(k) + seq![
                    s@.subrange(start as int, i as int),
                ]);
            }
            if name.unicode_len() == 0 {
                proof {
                    assert(segments(s@)[k] == trimmed(split_commas(s@)[k]));
                }
                return Err(ComposeError::EmptyName { position: names.len() });
            }
            names.push(name);
            proof {
                assert(segments(s@)[k] == trimmed(split_commas(s@)[k]));
                assert(split_commas(s@) =~= split_commas(s@).take(names@.len() as int)
                    + split_commas(s@.skip(i as int + 1)));
            }
            start = i + 1;
        }
        i = i + 1;
    }
    let seg = s.substring_char(start, len);
    let name = trim_str(seg);
    let ghost k = names@.len() as int;
    let ghost suffix = s@.skip(start as int);
    proof {
        assert(forall|j: int|
            0 <= j < suffix.len() ==> suffix[j] == s@[j + start] && suffix[j] != ',');
        lemma_split_commas_no_comma(suffix);
        assert(suffix =~= s@.subrange(start as int, len as int));
        assert(split_commas(s@) =~= split_commas(s@).take(k) + seq![suffix]);
        assert(split_commas(s@)[k] == suffix);
        assert(split_commas(s@).len() == k + 1);
    }
    if name.unicode_len() == 0 {
        proof {
            assert(segments(s@)[k] == trimmed(split_commas(s@)[k]));
        }
        return Err(ComposeError::EmptyName { position: names.len() });
    }
    names.push(name);
    proof {
        assert(segments(s@)[k] == trimmed(split_commas(s@)[k]));
    }
    Ok(names)
}

/// Whether the registry knows a function under the given name.
pub open spec fn known(registry: Seq<String>, name: Seq<char>) -> bool {
    exists|j: int| 0 <= j < registry.len() && registry[j]@ == name
}

/// Whether `id` is the callable that the name resolves to: the first
/// registry entry carrying the name.
pub open spec fn resolves_to(registry: Seq<String>, name: Seq<char>, id: usize) -> bool {
    &&& id < registry.len()
    &&& registry[id as int]@ == name
    &&& forall|j: int| 0 <= j < id ==> registry[j]@ != name
}

/// The index of the first registry entry carrying the name, if any.
pub fn find_name(registry: &Vec<String>, name: &str) -> (r: Option<usize>)
    ensures
        match r {
            Some(id) => resolves_to(registry@, name@, id),
            None => !known(registry@, name@),
        },
{
    let mut i: usize = 0;
    while i < registry.len()
        invariant
            i <= registry@.len(),
            forall|j: int| 0 <= j < i ==> registry@[j]@ != name@,
        decreases registry@.len() - i,
    {
        if str_eq(registry[i].as_str(), name) {
            return Some(i);
        }
        i = i + 1;
    }
    None
}

/// Resolves each declared name, in declared order, to the first registry
/// entry carrying it; rejects the declaration at the first name that the
/// registry does not know.  Succeeds exactly when every name is known.
pub fn resolve(names: &Vec<&str>, registry: &Vec<String>) -> (r: Result<
    Vec<usize>,
    ComposeError,
>)
    ensures
        match r {
            Ok(ids) => {
                &&& ids@.len() == names@.len()
                &&& forall|i: int|
                    0 <= i < names@.len() ==> resolves_to(registry@, names@[i]@, #[trigger] ids@[i])
            },
            Err(e) => {
                &&& e matches ComposeError::Unresolved { position }
                &&& e matches ComposeError::Unresolved { position } ==> position < names@.len()
                    && !known(registry@, names@[position as int]@) && (forall|i: int|
                    0 <= i < position ==> known(registry@, names@[i]@))
            },
        },
{
    let mut ids: Vec<usize> = Vec::new();
    let mut i: usize = 0;
    while i < names.len()
        invariant
            i <= names@.len(),
            ids@.len() == i,
            forall|j: int|
                0 <= j < i ==> resolves_to(registry@, names@[j]@, #[trigger] ids@[j]),
        decreases names@.len() - i,
    {
        match find_name(registry, names[i]) {
            Some(id) => ids.push(id),
            None => {
                proof {
                    assert forall|j: int| 0 <= j < i implies known(
                        registry@,
                        names@[j]@,
                    ) by {
                        assert(resolves_to(registry@, names@[j]@, ids@[j]));
                        assert(registry@[ids@[j] as int]@ == names@[j]@);
                    }
                }
                return Err(ComposeError::Unresolved { position: i });
            },
        }
        i = i + 1;
    }
    Ok(ids)
}

/// The whole construction-time binder for one ordered declaration: splits
/// the comma-separated names, trims them, rejects empty names, and resolves
/// each, in declared order, to the first registry entry carrying it.  This
/// runs once, before any store is usable; a declaration it rejects never
/// reaches dispatch.
pub fn bind_names(decl: &str, registry: &Vec<String>) -> (r: Result<Vec<usize>, ComposeError>)
    ensures
        match r {
            Ok(ids) => {
                &&& ids@.len() == segments(decl@).len()
                &&& forall|i: int|
                    0 <= i < ids@.len() ==> segments(decl@)[i].len() > 0 && resolves_to(
                        registry@,
                        segments(decl@)[i],
                        #[trigger] ids@[i],
                    )
            },
            Err(e) => match e {
                ComposeError::EmptyName { position } => position < segments(decl@).len()
                    && segments(decl@)[position as int].len() == 0,
                ComposeError::Unresolved { position } => position < segments(decl@).len()
                    && !known(registry@, segments(decl@)[position as int]),
            },
        },
        r is Ok <==> forall|i: int|
            0 <= i < segments(decl@).len() ==> segments(decl@)[i].len() > 0 && known(
                registry@,
                #[trigger] segments(decl@)[i],
            ),
{
    let names = match parse_list(decl) {
        Ok(names) => names,
        Err(e) => {
            return Err(e);
        },
    };
    let ids = match resolve(&names, registry) {
        Ok(ids) => ids,
        Err(e) => {
            proof {
                if let ComposeError::Unresolved { position } = e {
                    assert(names@[position as int]@ == segments(decl@)[position as int]);
                    assert(!known(registry@, segments(decl@)[position as int]));
                }
            }
            return Err(e);
        },
    };
    proof {
        assert forall|i: int|
            0 <= i < segments(decl@).len() implies segments(decl@)[i].len() > 0 && known(
            registry@,
            #[trigger] segments(decl@)[i],
        ) by {
            assert(names@[i]@ == segments(decl@)[i]);
            assert(resolves_to(registry@, names@[i]@, ids@[i]));
            assert(registry@[ids@[i] as int]@ == names@[i]@);
        }
    }
    Ok(ids)
}

/// One field's declarative binding: either an ordered, comma-separated list
/// of transition-function names, or the marker that the field is a nested
/// sub-state governed by its own sub-reducer.  A field declared neither way
/// is never mutated by dispatch and does not appear here.
pub enum FieldDecl {
    Transitions { list: String },
    SubReducer,
}

/// A resolved field binding of the composed reducer tree: the transition
/// functions to apply to the field in declared order, by registry index, or
/// the sub-reducer marker carried through unchanged.
#[derive(Debug)]
pub enum FieldBinding {
    Transitions { ids: Vec<usize> },
    SubReducer,
}

/// Whether a resolved binding is what a declaration resolves to against a
/// registry.
pub open spec fn binds(decl: FieldDecl, registry: Seq<String>, binding: FieldBinding) -> bool {
    match (decl, binding) {
        (FieldDecl::Transitions { list }, FieldBinding::Transitions { ids }) => {
            &&& ids@.len() == segments(list@).len()
            &&& forall|i: int|
                0 <= i < ids@.len() ==> segments(list@)[i].len() > 0 && resolves_to(
                    registry,
                    segments(list@)[i],
                    #[trigger] ids@[i],
                )
        },
        (FieldDecl::SubReducer, FieldBinding::SubReducer) => true,
        _ => false,
    }
}

/// Whether a declaration is acceptable: a sub-reducer marker always is; a
/// transition list must hold only non-empty names that the registry knows.
pub open spec fn acceptable(decl: FieldDecl, registry: Seq<String>) -> bool {
    match decl {
        FieldDecl::Transitions { list } => forall|i: int|
            0 <= i < segments(list@).len() ==> segments(list@)[i].len() > 0 && known(
                registry,
                #[trigger] segments(list@)[i],
            ),
        FieldDecl::SubReducer => true,
    }
}

/// The whole reducer-side composition step: turns the ordered field
/// declarations of a state shape into resolved bindings, field by field in
/// declared order, rejecting the first malformed declaration.  An error
/// names the offending field and why its list was rejected.  This runs once,
/// at construction time; a state shape it rejects never becomes a reducer.
pub fn bind_fields(decls: &Vec<FieldDecl>, registry: &Vec<String>) -> (r: Result<
    Vec<FieldBinding>,
    (usize, ComposeError),
>)
    ensures
        match r {
            Ok(bindings) => {
                &&& bindings@.len() == decls@.len()
                &&& forall|f: int|
                    0 <= f < decls@.len() ==> binds(decls@[f], registry@, #[trigger] bindings@[f])
            },
            Err((field, e)) => {
                &&& field < decls@.len()
                &&& !acceptable(decls@[field as int], registry@)
                &&& forall|f: int| 0 <= f < field ==> acceptable(#[trigger] decls@[f], registry@)
            },
        },
        r is Ok <==> forall|f: int|
            0 <= f < decls@.len() ==> acceptable(#[trigger] decls@[f], registry@),
{
    let mut bindings: Vec<FieldBinding> = Vec::new();
    let mut f: usize = 0;
    while f < decls.len()
        invariant
            f <= decls@.len(),
            bindings@.len() == f,
            forall|g: int| 0 <= g < f ==> binds(decls@[g], registry@, #[trigger] bindings@[g]),
            forall|g: int| 0 <= g < f ==> acceptable(#[trigger] decls@[g], registry@),
        decreases decls@.len() - f,
    {
        match &decls[f] {
            FieldDecl::Transitions { list } => {
                match bind_names(list.as_str(), registry) {
                    Ok(ids) => {
                        bindings.push(FieldBinding::Transitions { ids });
                    },
                    Err(e) => {
                        return Err((f, e));
                    },
                }
            },
            FieldDecl::SubReducer => {
                bindings.push(FieldBinding::SubReducer);
            },
        }
        f = f + 1;
    }
    Ok(bindings)
}

/// The transition functions of a resolved plan, in declared order: each id
/// picked out of the registry it was resolved against.
pub open spec fn planned<F>(registry: Seq<F>, ids: Seq<usize>) -> Seq<F> {
    ids.map_values(|id: usize| registry[id as int])
}

/// The relation that running a sequence of transition functions in declared
/// order sets up between a field's old value and the final outcome: the
/// first function receives the old value, each later one receives the value
/// the previous one produced, and the change signals are joined by or.
pub open spec fn chain_relates<T, A, F: Fn(T, &A) -> Outcome<T>>(
    fs: Seq<F>,
    value: T,
    action: &A,
    r: Outcome<T>,
) -> bool
    decreases fs.len(),
{
    if fs.len() == 0 {
        r.value() == value && !r.changed()
    } else {
        exists|mid: Outcome<T>, out: Outcome<T>|
            {
                &&& chain_relates(fs.drop_last(), value, action, mid)
                &&& #[trigger] call_ensures(fs.last(), (mid.value(), action), out)
                &&& r.value() == out.value()
                &&& r.changed() == (mid.changed() || out.changed())
            }
    }
}

/// Executes one field's resolved binding: applies the bound transition
/// functions out of the registry, in declared order, each seeing the prior
/// function's output, and joins their change signals by or.  The ids must
/// lie in the registry — what the binder guarantees of a plan it accepted —
/// and the transition functions must be total over their declared actions,
/// as the transition-function contract demands.
pub fn apply_transitions<T, A, F: Fn(T, &A) -> Outcome<T> + Copy>(
    value: T,
    action: &A,
    registry: &Vec<F>,
    ids: &Vec<usize>,
) -> (r: Outcome<T>)
    requires
        forall|i: int| 0 <= i < ids@.len() ==> #[trigger] ids@[i] < registry@.len(),
        forall|i: int, v: T|
            0 <= i < ids@.len() ==> #[trigger] call_requires(
                registry@[ids@[i] as int],
                (v, action),
            ),
    ensures
        chain_relates(planned(registry@, ids@), value, action, r),
{
    let ghost fs = planned(registry@, ids@);
    let ghost v0 = value;
    let mut out = Outcome::Unchanged(value);
    let mut k: usize = 0;
    proof {
        assert(fs.take(0) =~= Seq::<F>::empty());
    }
    while k < ids.len()
        invariant
            k <= ids@.len(),
            fs == planned(registry@, ids@),
            forall|i: int| 0 <= i < ids@.len() ==> #[trigger] ids@[i] < registry@.len(),
            forall|i: int, v: T|
                0 <= i < ids@.len() ==> #[trigger] call_requires(
                    registry@[ids@[i] as int],
                    (v, action),
                ),
            chain_relates(fs.take(k as int), v0, action, out),
        decreases ids@.len() - k,
    {
        let ghost prev = out;
        let f = registry[ids[k]];
        proof {
            assert(call_requires(registry@[ids@[k as int] as int], (prev.value(), action)));
        }
        out = out.chain(action, f);
        k = k + 1;
        proof {
            let used = fs.take(k as int);
            assert(used.drop_last() =~= fs.take(k as int - 1));
            assert(used.last() == f);
            let mid = choose|mid: Outcome<T>|
                #[trigger] call_ensures(f, (prev.value(), action), mid) && out.value()
                    == mid.value() && out.changed() == (prev.changed() || mid.changed());
            assert(call_ensures(used.last(), (prev.value(), action), mid));
            assert(chain_relates(used, v0, action, out));
        }
    }
    proof {
        assert(fs.take(ids@.len() as int) =~= fs);
    }
    out
}

/// One observable step of a chain execution in which every link wraps its
/// inner link symmetrically: work before handing the action on, the inner
/// execution, work after it returns.
#[derive(PartialEq, Eq, Structural, Clone, Copy, Debug)]
pub enum Event {
    Enter { mw: usize },
    Reduce,
    Exit { mw: usize },
}

/// The execution trace of a chain whose links all wrap symmetrically.
pub open spec fn trace_of(chain: Chain) -> Seq<Event>
    decreases chain,
{
    match chain {
        Chain::Base => seq![Event::Reduce],
        Chain::Link { mw, next } => seq![Event::Enter { mw }] + trace_of(*next) + seq![
            Event::Exit { mw },
        ],
    }
}

/// Walks a chain as a symmetrically wrapping execution would and records the
/// order in which the links run.
pub fn run_symmetric(chain: &Chain) -> (trace: Vec<Event>)
    ensures
        trace@ == trace_of(*chain),
    decreases *chain,
{
    match chain {
        Chain::Base => {
            let mut trace: Vec<Event> = Vec::new();
            trace.push(Event::Reduce);
            proof {
                assert(trace@ =~= trace_of(*chain));
            }
            trace
        },
        Chain::Link { mw, next } => {
            let mut trace: Vec<Event> = Vec::new();
            trace.push(Event::Enter { mw: *mw });
            let mut inner = run_symmetric(next);
            trace.append(&mut inner);
            trace.push(Event::Exit { mw: *mw });
            proof {
                assert(trace@ =~= trace_of(*chain));
            }
            trace
        },
    }
}

/// The whole middleware-side composition step: splits and resolves the
/// declared, comma-separated middleware names and wraps the links so that
/// the first declared middleware stands outermost around the base link.
pub fn compose_middleware(decl: &str, registry: &Vec<String>) -> (r: Result<Chain, ComposeError>)
    ensures
        match r {
            Ok(chain) => exists|ids: Seq<usize>|
                {
                    &&& #[trigger] chain_of(ids) == chain
                    &&& ids.len() == segments(decl@).len()
                    &&& forall|i: int|
                        0 <= i < ids.len() ==> segments(decl@)[i].len() > 0 && resolves_to(
                            registry@,
                            segments(decl@)[i],
                            #[trigger] ids[i],
                        )
                },
            Err(e) => match e {
                ComposeError::EmptyName { position } => position < segments(decl@).len()
                    && segments(decl@)[position as int].len() == 0,
                ComposeError::Unresolved { position } => position < segments(decl@).len()
                    && !known(registry@, segments(decl@)[position as int]),
            },
        },
        r is Ok <==> forall|i: int|
            0 <= i < segments(decl@).len() ==> segments(decl@)[i].len() > 0 && known(
                registry@,
                #[trigger] segments(decl@)[i],
            ),
{
    match bind_names(decl, registry) {
        Ok(ids) => {
            let chain = compose(&ids);
            proof {
                assert(chain_of(ids@) == chain);
            }
            Ok(chain)
        },
        Err(e) => Err(e),
    }
}

/// Law: middleware execution order equals declaration order.  Executing the
/// chain composed from a declared list enters the links in declared order —
/// the first declared middleware outermost — then runs the reduce primitive,
/// then leaves the links in reverse declared order.
pub proof fn lemma_declared_order_execution(ids: Seq<usize>)
    ensures
        trace_of(chain_of(ids)) == ids.map_values(|m: usize| Event::Enter { mw: m }) + seq![
            Event::Reduce,
        ] + ids.reverse().map_values(|m: usize| Event::Exit { mw: m }),
    decreases ids.len(),
{
    let enters = ids.map_values(|m: usize| Event::Enter { mw: m });
    let exits = ids.reverse().map_values(|m: usize| Event::Exit { mw: m });
    if ids.len() == 0 {
        assert(trace_of(chain_of(ids)) =~= enters + seq![Event::Reduce] + exits);
    } else {
        let rest = ids.drop_first();
        lemma_declared_order_execution(rest);
        assert(rest.reverse() =~= ids.reverse().drop_last());
        assert(trace_of(chain_of(ids)) =~= enters + seq![Event::Reduce] + exits);
    }
}

} // verus!
