//! The names that a running program knows, scope by scope.

use crate::ast::{TypeName, TypeView};
use crate::copy::copy_type;
use crate::semantics::names::{lemma_position_from, position_from, position_of};
use crate::semantics::values::{copy_value, Value, ValueView};
use vstd::prelude::*;

verus! {

/// What a name stands for.
#[derive(Debug, PartialEq, Eq)]
pub struct Binding {
    pub value: Value,
    pub ty: TypeName,
    pub mutable: bool,
    pub shared_borrows: usize,
    pub mut_borrowed: bool,
}

/// What a name stands for as a mathematical value.
#[verifier::ext_equal]
pub struct BindingView {
    pub value: ValueView,
    pub ty: TypeView,
    pub mutable: bool,
    pub shared_borrows: usize,
    pub mut_borrowed: bool,
}

impl View for Binding {
    type V = BindingView;

    open spec fn view(&self) -> BindingView {
        BindingView {
            value: self.value@,
            ty: self.ty@,
            mutable: self.mutable,
            shared_borrows: self.shared_borrows,
            mut_borrowed: self.mut_borrowed,
        }
    }
}

/// A name that nothing borrows.
pub open spec fn fresh_binding(value: ValueView, ty: TypeView, mutable: bool) -> BindingView {
    BindingView { value, ty, mutable, shared_borrows: 0, mut_borrowed: false }
}

impl Binding {
    /// What a name stands for that nothing borrows.
    pub fn fresh(value: Value, ty: TypeName, mutable: bool) -> (binding: Self)
        ensures
            binding@ == fresh_binding(value@, ty@, mutable),
    {
        Binding { value, ty, mutable, shared_borrows: 0, mut_borrowed: false }
    }
}

/// A name with what it stands for.
#[derive(Debug, PartialEq, Eq)]
pub struct Bound {
    pub name: String,
    pub binding: Binding,
}

/// The names of a scope.
pub open spec fn bound_names(scope: Seq<Bound>) -> Seq<Seq<char>> {
    Seq::new(scope.len(), |i: int| scope[i].name@)
}

/// A scope as a mathematical value: what each of its names stands for.
pub open spec fn scope_view(scope: Seq<Bound>) -> Map<Seq<char>, BindingView> {
    Map::new(
        |name: Seq<char>| position_of(bound_names(scope), name) is Some,
        |name: Seq<char>| scope[position_of(bound_names(scope), name)->0].binding@,
    )
}

/// The names that a running program knows. The last scope is the innermost.
#[derive(Debug, PartialEq, Eq)]
pub struct Env {
    scopes: Vec<Vec<Bound>>,
}

impl View for Env {
    type V = Seq<Map<Seq<char>, BindingView>>;

    closed spec fn view(&self) -> Seq<Map<Seq<char>, BindingView>> {
        Seq::new(self.scopes@.len(), |i: int| scope_view(self.scopes@[i]@))
    }
}

/// The innermost of the first scopes that knows a name.
pub open spec fn scope_of(
    scopes: Seq<Map<Seq<char>, BindingView>>,
    name: Seq<char>,
    count: int,
) -> Option<int>
    decreases count,
{
    if count <= 0 || count > scopes.len() {
        None
    } else if scopes[count - 1].contains_key(name) {
        Some(count - 1)
    } else {
        scope_of(scopes, name, count - 1)
    }
}

/// What a name stands for: what the innermost scope that knows it says.
pub open spec fn meaning(scopes: Seq<Map<Seq<char>, BindingView>>, name: Seq<char>) -> Option<
    BindingView,
> {
    match scope_of(scopes, name, scopes.len() as int) {
        Some(at) => Some(scopes[at][name]),
        None => None,
    }
}

/// The scopes where a name that is known stands for something else.
pub open spec fn with_meaning(
    scopes: Seq<Map<Seq<char>, BindingView>>,
    name: Seq<char>,
    binding: BindingView,
) -> Seq<Map<Seq<char>, BindingView>> {
    match scope_of(scopes, name, scopes.len() as int) {
        Some(at) => scopes.update(at, scopes[at].insert(name, binding)),
        None => scopes,
    }
}

/// The scopes with a name in the innermost.
pub open spec fn with_name(
    scopes: Seq<Map<Seq<char>, BindingView>>,
    name: Seq<char>,
    binding: BindingView,
) -> Seq<Map<Seq<char>, BindingView>> {
    if scopes.len() == 0 {
        scopes
    } else {
        scopes.update(scopes.len() - 1, scopes.last().insert(name, binding))
    }
}

/// A scope that was found knows the name, and none inside it does.
pub proof fn lemma_scope_of(
    scopes: Seq<Map<Seq<char>, BindingView>>,
    name: Seq<char>,
    count: int,
)
    requires
        0 <= count <= scopes.len(),
    ensures
        scope_of(scopes, name, count) matches Some(at) ==> 0 <= at < count
            && scopes[at].contains_key(name) && forall|k: int|
            at < k < count ==> !(#[trigger] scopes[k]).contains_key(name),
        scope_of(scopes, name, count) is None ==> forall|k: int|
            0 <= k < count ==> !(#[trigger] scopes[k]).contains_key(name),
    decreases count,
{
    if count > 0 && !scopes[count - 1].contains_key(name) {
        lemma_scope_of(scopes, name, count - 1);
    }
}

/// Where a name stands in a scope.
fn find_bound(scope: &Vec<Bound>, name: &String) -> (at: Option<usize>)
    ensures
        match at {
            Some(at) => at < scope@.len() && position_of(bound_names(scope@), name@) == Some(
                at as int,
            ),
            None => position_of(bound_names(scope@), name@) is None,
        },
{
    let ghost all = bound_names(scope@);
    for i in 0..scope.len()
        invariant
            all == bound_names(scope@),
            position_of(all, name@) == position_from(all, name@, i as int),
    {
        assert(all[i as int] == scope@[i as int].name@);
        if scope[i].name == *name {
            return Some(i);
        }
    }
    None
}

/// What a name stands for once the one at its place has another meaning.
proof fn lemma_scope_set(scope: Seq<Bound>, at: int, new: Bound)
    requires
        position_of(bound_names(scope), new.name@) == Some(at),
    ensures
        0 <= at < scope.len(),
        scope_view(scope.update(at, new)) == scope_view(scope).insert(new.name@, new.binding@),
{
    lemma_position_from(bound_names(scope), new.name@, 0);
    let after = scope.update(at, new);
    assert(bound_names(after) =~= bound_names(scope));
    assert forall|name: Seq<char>| #[trigger]
        scope_view(after).contains_key(name) implies scope_view(after)[name] == scope_view(
        scope,
    ).insert(new.name@, new.binding@)[name] by {
        lemma_position_from(bound_names(scope), name, 0);
    }
    assert(scope_view(after) =~= scope_view(scope).insert(new.name@, new.binding@));
}

/// What a name stands for once it has been put behind the others.
proof fn lemma_scope_push(scope: Seq<Bound>, new: Bound)
    requires
        position_of(bound_names(scope), new.name@) is None,
    ensures
        scope_view(scope.push(new)) == scope_view(scope).insert(new.name@, new.binding@),
{
    let after = scope.push(new);
    let names = bound_names(scope);
    let longer = bound_names(after);
    assert(longer =~= names.push(new.name@));
    lemma_position_from(names, new.name@, 0);
    assert forall|name: Seq<char>| #[trigger]
        scope_view(after).contains_key(name) == scope_view(scope).insert(
            new.name@,
            new.binding@,
        ).contains_key(name) && (scope_view(after).contains_key(name) ==> scope_view(after)[name]
            == scope_view(scope).insert(new.name@, new.binding@)[name]) by {
        lemma_position_from(names, name, 0);
        lemma_position_from(longer, name, 0);
        if name == new.name@ {
            assert(longer[scope.len() as int] == name);
            let at = position_of(longer, name)->0;
            if at < scope.len() {
                assert(names[at] == longer[at]);
            }
        } else {
            if let Some(at) = position_of(names, name) {
                assert(longer[at] == names[at]);
                let other = position_of(longer, name)->0;
                if other < at {
                    assert(longer[other] == names[other]);
                }
            } else if let Some(at) = position_of(longer, name) {
                if at < scope.len() {
                    assert(names[at] == longer[at]);
                }
            }
        }
    }
    assert(scope_view(after) =~= scope_view(scope).insert(new.name@, new.binding@));
}

impl Env {
    /// One scope without names.
    pub fn new() -> (env: Self)
        ensures
            env@ == seq![Map::<Seq<char>, BindingView>::empty()],
    {
        let mut scopes: Vec<Vec<Bound>> = Vec::new();
        let inner: Vec<Bound> = Vec::new();
        assert(scope_view(inner@) =~= Map::empty());
        scopes.push(inner);
        let env = Env { scopes };
        assert(env@ =~= seq![Map::<Seq<char>, BindingView>::empty()]);
        env
    }

    /// Opens a scope.
    pub fn push(&mut self)
        ensures
            final(self)@ == old(self)@.push(Map::empty()),
    {
        let ghost before = self@;
        let inner: Vec<Bound> = Vec::new();
        assert(scope_view(inner@) =~= Map::empty());
        self.scopes.push(inner);
        assert(self@ =~= before.push(Map::empty()));
    }

    /// Closes the innermost scope, and gives back its names.
    pub fn pop(&mut self) -> (popped: Vec<Bound>)
        ensures
            old(self)@.len() > 0 ==> final(self)@ == old(self)@.drop_last() && scope_view(popped@)
                == old(self)@.last(),
            old(self)@.len() == 0 ==> final(self)@ == old(self)@ && popped@.len() == 0,
    {
        let ghost before = self@;
        match self.scopes.pop() {
            Some(popped) => {
                assert(self@ =~= before.drop_last());
                popped
            },
            None => {
                assert(self@ =~= before);
                Vec::new()
            },
        }
    }

    /// Whether the innermost scope knows a name.
    pub fn current_scope_contains(&self, name: &String) -> (found: bool)
        ensures
            found == (self@.len() > 0 && self@.last().contains_key(name@)),
    {
        let count: usize = self.scopes.len();
        if count == 0 {
            return false;
        }
        find_bound(&self.scopes[count - 1], name).is_some()
    }

    /// Puts a name into the innermost scope.
    pub fn insert(&mut self, name: String, binding: Binding)
        ensures
            final(self)@ == with_name(old(self)@, name@, binding@),
    {
        let ghost before = self@;
        let count: usize = self.scopes.len();
        if count == 0 {
            return ;
        }
        let mut inner = match self.scopes.pop() {
            Some(inner) => inner,
            None => {
                return ;
            },
        };
        let ghost scope = inner@;
        let found = find_bound(&inner, &name);
        let new = Bound { name, binding };
        match found {
            Some(at) => {
                proof {
                    lemma_scope_set(scope, at as int, new);
                }
                inner.set(at, new);
            },
            None => {
                proof {
                    lemma_scope_push(scope, new);
                }
                inner.push(new);
            },
        }
        self.scopes.push(inner);
        assert(self@ =~= with_name(before, name@, binding@));
    }

    /// Where a name stands: its scope, and its place there.
    fn find(&self, name: &String) -> (place: Option<(usize, usize)>)
        ensures
            match place {
                Some((scope, at)) => scope < self.scopes@.len() && scope_of(
                    self@,
                    name@,
                    self@.len() as int,
                ) == Some(scope as int) && at < self.scopes@[scope as int]@.len() && position_of(
                    bound_names(self.scopes@[scope as int]@),
                    name@,
                ) == Some(at as int),
                None => scope_of(self@, name@, self@.len() as int) is None,
            },
    {
        let mut count: usize = self.scopes.len();
        while count > 0
            invariant
                count <= self.scopes@.len(),
                scope_of(self@, name@, self@.len() as int) == scope_of(self@, name@, count as int),
            decreases count,
        {
            assert(self@[count - 1] == scope_view(self.scopes@[count - 1]@));
            if let Some(at) = find_bound(&self.scopes[count - 1], name) {
                return Some((count - 1, at));
            }
            count = count - 1;
        }
        None
    }

    /// What a name stands for.
    pub fn get(&self, name: &String) -> (binding: Option<&Binding>)
        ensures
            match binding {
                Some(binding) => meaning(self@, name@) == Some(binding@),
                None => meaning(self@, name@) is None,
            },
    {
        match self.find(name) {
            Some((scope, at)) => {
                assert(self@[scope as int] == scope_view(self.scopes@[scope as int]@));
                Some(&self.scopes[scope][at].binding)
            },
            None => None,
        }
    }

    /// What a name stands for, to be changed.
    pub fn get_mut(&mut self, name: &String) -> (binding: Option<&mut Binding>)
        ensures
            match binding {
                Some(binding) => meaning(old(self)@, name@) == Some(binding@) && final(self)@
                    == with_meaning(old(self)@, name@, final(binding)@),
                None => meaning(old(self)@, name@) is None && final(self)@ == old(self)@,
            },
    {
        let ghost before = self@;
        match self.find(name) {
            Some((scope, at)) => {
                let ghost scopes = self.scopes@;
                let ghost inner = self.scopes@[scope as int]@;
                assert(before[scope as int] == scope_view(inner));
                let names: &mut Vec<Bound> = &mut self.scopes[scope];
                let bound: &mut Bound = &mut names[at];
                let binding: &mut Binding = &mut bound.binding;
                proof {
                    lemma_position_from(bound_names(inner), name@, 0);
                    let new = Bound { name: inner[at as int].name, binding: *final(binding) };
                    lemma_scope_set(inner, at as int, new);
                    let after = Seq::new(
                        scopes.len(),
                        |i: int|
                            if i == scope {
                                scope_view(inner.update(at as int, new))
                            } else {
                                scope_view(scopes[i]@)
                            },
                    );
                    assert(after =~= with_meaning(before, name@, final(binding)@));
                }
                Some(binding)
            },
            None => None,
        }
    }
}

/// A copy of what a name stands for.
fn copy_binding(binding: &Binding) -> (copy: Binding)
    ensures
        copy@ == binding@,
{
    Binding {
        value: copy_value(&binding.value),
        ty: copy_type(&binding.ty),
        mutable: binding.mutable,
        shared_borrows: binding.shared_borrows,
        mut_borrowed: binding.mut_borrowed,
    }
}

/// A copy of a scope.
fn copy_scope(scope: &Vec<Bound>) -> (copy: Vec<Bound>)
    ensures
        scope_view(copy@) == scope_view(scope@),
{
    let mut copy: Vec<Bound> = Vec::with_capacity(scope.len());
    for i in 0..scope.len()
        invariant
            copy@.len() == i,
            forall|j: int|
                0 <= j < i ==> (#[trigger] copy@[j]).name@ == scope@[j].name@ && copy@[j].binding@
                    == scope@[j].binding@,
    {
        copy.push(
            Bound { name: scope[i].name.clone(), binding: copy_binding(&scope[i].binding) },
        );
    }
    proof {
        let names = bound_names(scope@);
        assert(bound_names(copy@) =~= names);
        assert forall|name: Seq<char>| #[trigger]
            scope_view(copy@).contains_key(name) implies scope_view(copy@)[name] == scope_view(
            scope@,
        )[name] by {
            lemma_position_from(names, name, 0);
            let at = position_of(names, name)->0;
            assert(copy@[at].binding@ == scope@[at].binding@);
        }
        assert(scope_view(copy@) =~= scope_view(scope@));
    }
    copy
}

impl Clone for Env {
    fn clone(&self) -> (copy: Self)
        ensures
            copy@ == self@,
    {
        let mut scopes: Vec<Vec<Bound>> = Vec::with_capacity(self.scopes.len());
        for i in 0..self.scopes.len()
            invariant
                scopes@.len() == i,
                forall|j: int|
                    0 <= j < i ==> scope_view((#[trigger] scopes@[j])@) == scope_view(
                        self.scopes@[j]@,
                    ),
        {
            scopes.push(copy_scope(&self.scopes[i]));
        }
        let copy = Env { scopes };
        assert(copy@ =~= self@);
        copy
    }
}

/// A name that is let stand for what it stands for changes nothing.
pub proof fn lemma_same_meaning(scopes: Seq<Map<Seq<char>, BindingView>>, name: Seq<char>)
    ensures
        meaning(scopes, name) matches Some(binding) ==> with_meaning(scopes, name, binding)
            == scopes,
{
    lemma_scope_of(scopes, name, scopes.len() as int);
    if let Some(at) = scope_of(scopes, name, scopes.len() as int) {
        assert(scopes[at].insert(name, scopes[at][name]) =~= scopes[at]);
        assert(with_meaning(scopes, name, scopes[at][name]) =~= scopes);
    }
}

/// A name that is put into the innermost scope has that meaning, and every other
/// name keeps its own.
pub proof fn law_insert_then_get(
    scopes: Seq<Map<Seq<char>, BindingView>>,
    name: Seq<char>,
    other: Seq<char>,
    binding: BindingView,
)
    requires
        scopes.len() > 0,
    ensures
        meaning(with_name(scopes, name, binding), name) == Some(binding),
        other != name ==> meaning(with_name(scopes, name, binding), other) == meaning(
            scopes,
            other,
        ),
{
    let after = with_name(scopes, name, binding);
    let count = scopes.len() as int;
    assert(after[count - 1] == scopes.last().insert(name, binding));
    if other != name {
        lemma_scope_of(scopes, other, count);
        lemma_scope_of(after, other, count);
        assert forall|k: int| 0 <= k < count implies (#[trigger] after[k]).contains_key(other)
            == scopes[k].contains_key(other) by {
            if k < count - 1 {
                assert(after[k] == scopes[k]);
            }
        }
        match (scope_of(scopes, other, count), scope_of(after, other, count)) {
            (Some(a), Some(b)) => {
                assert(after[a].contains_key(other));
                assert(scopes[b].contains_key(other));
            },
            (Some(a), None) => {
                assert(after[a].contains_key(other));
            },
            (None, Some(b)) => {
                assert(scopes[b].contains_key(other));
            },
            (None, None) => {},
        }
    }
}

/// To open a scope changes no meaning, and to close it again brings back the
/// scopes that were there.
pub proof fn law_scopes_nest(scopes: Seq<Map<Seq<char>, BindingView>>, name: Seq<char>)
    ensures
        meaning(scopes.push(Map::empty()), name) == meaning(scopes, name),
        scopes.push(Map::empty()).drop_last() == scopes,
{
    let after = scopes.push(Map::<Seq<char>, BindingView>::empty());
    let count = scopes.len() as int;
    lemma_scope_same(scopes, after, name, count);
    assert(scope_of(after, name, count + 1) == scope_of(after, name, count));
    lemma_scope_of(scopes, name, count);
    assert(after.drop_last() =~= scopes);
}

/// A search through scopes that are the same finds the same.
proof fn lemma_scope_same(
    a: Seq<Map<Seq<char>, BindingView>>,
    b: Seq<Map<Seq<char>, BindingView>>,
    name: Seq<char>,
    count: int,
)
    requires
        0 <= count <= a.len(),
        count <= b.len(),
        forall|k: int| 0 <= k < count ==> #[trigger] a[k] == b[k],
    ensures
        scope_of(a, name, count) == scope_of(b, name, count),
    decreases count,
{
    if count > 0 {
        assert(a[count - 1] == b[count - 1]);
        lemma_scope_same(a, b, name, count - 1);
    }
}

/// A name that is let stand for something else has that meaning, and every other
/// name keeps its own.
pub proof fn law_replace_then_get(
    scopes: Seq<Map<Seq<char>, BindingView>>,
    name: Seq<char>,
    other: Seq<char>,
    binding: BindingView,
)
    requires
        meaning(scopes, name) is Some,
    ensures
        meaning(with_meaning(scopes, name, binding), name) == Some(binding),
        other != name ==> meaning(with_meaning(scopes, name, binding), other) == meaning(
            scopes,
            other,
        ),
{
    let count = scopes.len() as int;
    let after = with_meaning(scopes, name, binding);
    lemma_scope_of(scopes, name, count);
    lemma_scope_of(after, name, count);
    lemma_scope_of(scopes, other, count);
    lemma_scope_of(after, other, count);
    let at = scope_of(scopes, name, count)->0;
    assert forall|k: int, any: Seq<char>| 0 <= k < count implies #[trigger] after[k].contains_key(
        any,
    ) == scopes[k].contains_key(any) by {
        if k == at {
            assert(after[k] == scopes[k].insert(name, binding));
        } else {
            assert(after[k] == scopes[k]);
        }
    }
    assert(after[at].contains_key(name));
    let found = scope_of(after, name, count)->0;
    assert(scopes[found].contains_key(name));
    if other != name {
        match (scope_of(scopes, other, count), scope_of(after, other, count)) {
            (Some(a), Some(b)) => {
                assert(after[a].contains_key(other));
                assert(scopes[b].contains_key(other));
            },
            (Some(a), None) => {
                assert(after[a].contains_key(other));
            },
            (None, Some(b)) => {
                assert(scopes[b].contains_key(other));
            },
            (None, None) => {},
        }
    }
}

} // verus!
