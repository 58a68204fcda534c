use vstd::prelude::*;

verus! {

/// What a resource type supplies to take part in access control: the actions
/// that can be requested on it, the scope values that restrict a rule, and a
/// predicate telling whether an instance lies within a scope value.
pub trait AccessControl {
    type Scope: Clone + PartialEq;

    type Action: Clone + PartialEq;

    /// Whether this instance lies within `scope`.
    spec fn within(&self, scope: Self::Scope) -> bool;

    /// Decides [`AccessControl::within`]; it has no side effects.
    fn in_scope(&self, scope: &Self::Scope) -> (r: bool)
        ensures
            r == self.within(*scope),
    ;
}

/// Which instances a rule applies to: all of them, or those that lie within
/// every listed scope value (an empty list admits everyone).
#[derive(Debug)]
pub enum Scope<S> {
    Any,
    Constrained(Vec<S>),
}

/// Each element of `b` is a clone of the element of `a` at the same place.
pub open spec fn seq_cloned<S: Clone>(a: Seq<S>, b: Seq<S>) -> bool {
    &&& a.len() == b.len()
    &&& forall|i: int| 0 <= i < a.len() ==> cloned::<S>(#[trigger] a[i], b[i])
}

/// `b` is a clone of the scope `a`: the same variant, with cloned values.
pub open spec fn scope_cloned<S: Clone>(a: Scope<S>, b: Scope<S>) -> bool {
    match (a, b) {
        (Scope::Any, Scope::Any) => true,
        (Scope::Constrained(x), Scope::Constrained(y)) => seq_cloned(x@, y@),
        _ => false,
    }
}

impl<S: Clone> Clone for Scope<S> {
    fn clone(&self) -> (r: Self)
        ensures
            scope_cloned(*self, r),
    {
        match self {
            Scope::Any => Scope::Any,
            Scope::Constrained(v) => Scope::Constrained(v.clone()),
        }
    }
}

/// A permission for one resource type: the actions it allows, on the
/// instances that its scope admits.
pub struct Rule<T: AccessControl> {
    pub actions: Vec<T::Action>,
    pub scope: Scope<T::Scope>,
}

/// `b` is a clone of the rule `a`.
pub open spec fn rule_cloned<T: AccessControl>(a: Rule<T>, b: Rule<T>) -> bool {
    &&& seq_cloned(a.actions@, b.actions@)
    &&& scope_cloned(a.scope, b.scope)
}

impl<T: AccessControl> Clone for Rule<T> {
    fn clone(&self) -> (r: Self)
        ensures
            rule_cloned(*self, r),
    {
        Rule { actions: self.actions.clone(), scope: self.scope.clone() }
    }
}

/// An entry of a rule list that may hold a rule for the resource type `T`.
///
/// A list that mixes rules of several resource types is a list of a sum
/// type with one variant per resource type; that type implements `AsRule<T>`
/// once for each `T`, returning the rule only from the variant of `T`.
pub trait AsRule<T: AccessControl> {
    /// The rule for `T` that this entry holds, if it holds one.
    spec fn rule_for(&self) -> Option<Rule<T>>;

    fn as_rule(&self) -> (r: Option<&Rule<T>>)
        ensures
            r.is_some() == self.rule_for().is_some(),
            r.is_some() ==> *r.unwrap() == self.rule_for().unwrap(),
    ;
}

/// A rule is an entry that holds itself, so a plain list of rules of one
/// resource type serves as a rule list too.
impl<T: AccessControl> AsRule<T> for Rule<T> {
    open spec fn rule_for(&self) -> Option<Rule<T>> {
        Some(*self)
    }

    fn as_rule(&self) -> (r: Option<&Rule<T>>) {
        Some(self)
    }
}

/// The rules for `T` that the entries hold, in the order of the entries.
pub open spec fn rules_of<T: AccessControl, E: AsRule<T>>(entries: Seq<E>) -> Seq<Rule<T>>
    decreases entries.len(),
{
    if entries.len() == 0 {
        Seq::empty()
    } else {
        let before = rules_of::<T, E>(entries.drop_last());
        match entries.last().rule_for() {
            Some(rule) => before.push(rule),
            None => before,
        }
    }
}

/// Copies out, in order, the rules for `T` that the entries hold, skipping
/// the entries that hold a rule of another resource type.
pub fn get_rules<T: AccessControl, E: AsRule<T>>(entries: &[E]) -> (r: Vec<Rule<T>>)
    ensures
        r@.len() == rules_of::<T, E>(entries@).len(),
        forall|i: int|
            0 <= i < r@.len() ==> rule_cloned(#[trigger] rules_of::<T, E>(entries@)[i], r@[i]),
{
    let mut r: Vec<Rule<T>> = Vec::new();
    let mut k: usize = 0;
    while k < entries.len()
        invariant
            k <= entries@.len(),
            r@.len() == rules_of::<T, E>(entries@.take(k as int)).len(),
            forall|i: int|
                0 <= i < r@.len() ==> rule_cloned(
                    #[trigger] rules_of::<T, E>(entries@.take(k as int))[i],
                    r@[i],
                ),
        decreases entries@.len() - k,
    {
        assert(entries@.take(k + 1).drop_last() == entries@.take(k as int));
        if let Some(rule) = entries[k].as_rule() {
            r.push(rule.clone());
        }
        k += 1;
    }
    assert(entries@.take(k as int) == entries@);
    r
}

/// A stable filter: the rules for `T` held by two lists put one after the
/// other are those of the first list followed by those of the second, so the
/// rules come out in the order of their entries.
pub proof fn lemma_rules_of_append<T: AccessControl, E: AsRule<T>>(a: Seq<E>, b: Seq<E>)
    ensures
        rules_of::<T, E>(a + b) == rules_of::<T, E>(a) + rules_of::<T, E>(b),
    decreases b.len(),
{
    if b.len() == 0 {
        assert(a + b == a);
        assert(rules_of::<T, E>(a) + rules_of::<T, E>(b) == rules_of::<T, E>(a));
    } else {
        lemma_rules_of_append::<T, E>(a, b.drop_last());
        assert((a + b).drop_last() == a + b.drop_last());
        assert((a + b).last() == b.last());
        match b.last().rule_for() {
            Some(rule) => {
                assert(rules_of::<T, E>(a) + rules_of::<T, E>(b) == (rules_of::<T, E>(a)
                    + rules_of::<T, E>(b.drop_last())).push(rule));
            },
            None => {},
        }
    }
}

/// A single entry contributes exactly the rule for `T` it holds: nothing
/// when it holds a rule of another resource type.
pub proof fn lemma_rules_of_single<T: AccessControl, E: AsRule<T>>(e: E)
    ensures
        rules_of::<T, E>(seq![e]) == match e.rule_for() {
            Some(rule) => seq![rule],
            None => Seq::<Rule<T>>::empty(),
        },
{
    assert(seq![e].drop_last() == Seq::<E>::empty());
    assert(seq![e].last() == e);
    assert(rules_of::<T, E>(Seq::<E>::empty()) == Seq::<Rule<T>>::empty());
    assert(Seq::<Rule<T>>::empty().push(e.rule_for()->0) == seq![e.rule_for()->0]);
}

} // verus!
