use vstd::prelude::*;
use vstd::std_specs::cmp::PartialEqSpec;
use crate::rule::{AccessControl, AsRule, Rule, Scope, seq_cloned};

verus! {

/// The instance `m` lies within every scope value of `scopes`.
pub open spec fn within_all<T: AccessControl>(m: T, scopes: Seq<T::Scope>) -> bool {
    forall|i: int| 0 <= i < scopes.len() ==> m.within(#[trigger] scopes[i])
}

/// A scope admits the bound model: always for `Any`, and for a constrained
/// scope when no model is bound or the model lies within every value.
pub open spec fn scope_admits<T: AccessControl>(model: Option<T>, scope: Scope<T::Scope>) -> bool {
    match scope {
        Scope::Any => true,
        Scope::Constrained(scopes) => match model {
            None => true,
            Some(m) => within_all(m, scopes@),
        },
    }
}

/// `actions` holds an action equal to `a`.
pub open spec fn lists_action<T: AccessControl>(actions: Seq<T::Action>, a: T::Action) -> bool {
    exists|i: int| 0 <= i < actions.len() && (#[trigger] actions[i]).eq_spec(&a)
}

/// A rule applies to a query: its scope admits the bound model, and it lists
/// the requested action, if one is bound.
pub open spec fn rule_applies<T: AccessControl>(
    model: Option<T>,
    action: Option<T::Action>,
    rule: Rule<T>,
) -> bool {
    &&& scope_admits(model, rule.scope)
    &&& match action {
        None => true,
        Some(a) => lists_action::<T>(rule.actions@, a),
    }
}

/// The entry holds a rule for `T` that applies to the query.
pub open spec fn entry_applies<T: AccessControl, E: AsRule<T>>(
    model: Option<T>,
    action: Option<T::Action>,
    entry: E,
) -> bool {
    match entry.rule_for() {
        Some(rule) => rule_applies(model, action, rule),
        None => false,
    }
}

/// Some entry of the list holds a rule for `T` that applies to the query.
pub open spec fn allows<T: AccessControl, E: AsRule<T>>(
    model: Option<T>,
    action: Option<T::Action>,
    entries: Seq<E>,
) -> bool {
    exists|i: int| 0 <= i < entries.len() && entry_applies(model, action, #[trigger] entries[i])
}

/// The entry holds a rule for `T` whose scope is `Any`.
pub open spec fn unconstrained<T: AccessControl, E: AsRule<T>>(entry: E) -> bool {
    match entry.rule_for() {
        Some(rule) => rule.scope is Any,
        None => false,
    }
}

/// The scope lists of the constrained rules for `T` that admit the model, in
/// the order of the entries.
pub open spec fn scope_lists<T: AccessControl, E: AsRule<T>>(
    model: Option<T>,
    entries: Seq<E>,
) -> Seq<Seq<T::Scope>>
    decreases entries.len(),
{
    if entries.len() == 0 {
        Seq::empty()
    } else {
        let before = scope_lists::<T, E>(model, entries.drop_last());
        match entries.last().rule_for() {
            Some(rule) => match rule.scope {
                Scope::Constrained(scopes) => if scope_admits(model, rule.scope) {
                    before.push(scopes@)
                } else {
                    before
                },
                Scope::Any => before,
            },
            None => before,
        }
    }
}

/// The scope constraints under which the rules grant access to the model:
/// none at all (the empty list) when some rule for `T` is unconstrained, and
/// otherwise one list of scope values, all to be met, per admitting rule.
pub open spec fn constraints<T: AccessControl, E: AsRule<T>>(
    model: Option<T>,
    entries: Seq<E>,
) -> Seq<Seq<T::Scope>> {
    if exists|i: int| 0 <= i < entries.len() && unconstrained::<T, E>(#[trigger] entries[i]) {
        Seq::empty()
    } else {
        scope_lists::<T, E>(model, entries)
    }
}

/// Whether `m` lies within every scope value of `scopes`; stops at the first
/// one it does not lie within.
fn fits_all<T: AccessControl>(m: &T, scopes: &Vec<T::Scope>) -> (r: bool)
    ensures
        r == within_all(*m, scopes@),
{
    let mut k: usize = 0;
    while k < scopes.len()
        invariant
            k <= scopes@.len(),
            forall|i: int| 0 <= i < k ==> m.within(#[trigger] scopes@[i]),
        decreases scopes@.len() - k,
    {
        if !m.in_scope(&scopes[k]) {
            return false;
        }
        k += 1;
    }
    true
}

/// Whether `actions` holds an action equal to `a`.
fn has_action<T: AccessControl>(actions: &Vec<T::Action>, a: &T::Action) -> (r: bool)
    requires
        T::Action::obeys_eq_spec(),
    ensures
        r == lists_action::<T>(actions@, *a),
{
    let mut k: usize = 0;
    while k < actions.len()
        invariant
            k <= actions@.len(),
            T::Action::obeys_eq_spec(),
            forall|i: int| 0 <= i < k ==> !(#[trigger] actions@[i]).eq_spec(a),
        decreases actions@.len() - k,
    {
        if actions[k] == *a {
            return true;
        }
        k += 1;
    }
    false
}

/// A query: an optional instance of the resource type `T` and an optional
/// requested action, checked against a list of rules.
pub struct Subject<'a, T: AccessControl> {
    model: Option<&'a T>,
    action: Option<T::Action>,
}

impl<'a, T: AccessControl> Subject<'a, T> {
    /// The bound instance, if any.
    pub closed spec fn model_view(&self) -> Option<T> {
        match self.model {
            Some(m) => Some(*m),
            None => None,
        }
    }

    /// The requested action, if any.
    pub closed spec fn action_view(&self) -> Option<T::Action> {
        self.action
    }

    /// The anonymous query: no instance and no requested action.
    pub fn new() -> (r: Self)
        ensures
            r.model_view() is None,
            r.action_view() is None,
    {
        Subject { model: None, action: None }
    }

    /// Binds the query to the instance `m`, in place of any bound before.
    pub fn model(self, m: &'a T) -> (r: Self)
        ensures
            r.model_view() == Some(*m),
            r.action_view() == self.action_view(),
    {
        Subject { model: Some(m), action: self.action }
    }

    /// Requests exactly the action `action`, in place of any requested before.
    pub fn action(self, action: T::Action) -> (r: Self)
        ensures
            r.model_view() == self.model_view(),
            r.action_view() == Some(action),
    {
        Subject { model: self.model, action: Some(action) }
    }

    /// Whether some rule for `T` in the list applies to this query: its
    /// scope admits the bound instance, and it lists the requested action.
    /// Entries are tried in order and the first rule that applies decides.
    pub fn allowed_by<E: AsRule<T>>(&self, entries: &[E]) -> (r: bool)
        requires
            T::Action::obeys_eq_spec(),
        ensures
            r == allows(self.model_view(), self.action_view(), entries@),
    {
        let mut k: usize = 0;
        while k < entries.len()
            invariant
                k <= entries@.len(),
                T::Action::obeys_eq_spec(),
                forall|i: int|
                    0 <= i < k ==> !entry_applies(
                        self.model_view(),
                        self.action_view(),
                        #[trigger] entries@[i],
                    ),
            decreases entries@.len() - k,
        {
            if let Some(rule) = entries[k].as_rule() {
                let scope_ok = match (&rule.scope, self.model) {
                    (Scope::Constrained(scopes), Some(m)) => fits_all(m, scopes),
                    _ => true,
                };
                let action_ok = match &self.action {
                    Some(a) => has_action::<T>(&rule.actions, a),
                    None => true,
                };
                if scope_ok && action_ok {
                    assert(entry_applies(self.model_view(), self.action_view(), entries@[k as int]));
                    return true;
                }
            }
            k += 1;
        }
        false
    }

    /// The scope constraints under which the rules for `T` in the list grant
    /// access: the empty list as soon as one of them is unconstrained, and
    /// otherwise, in order, the scope values of each constrained rule whose
    /// scope admits the bound instance. The requested action plays no part.
    pub fn get_constraints<E: AsRule<T>>(&self, entries: &[E]) -> (r: Vec<Vec<T::Scope>>)
        ensures
            r@.len() == constraints::<T, E>(self.model_view(), entries@).len(),
            forall|i: int|
                0 <= i < r@.len() ==> seq_cloned(
                    #[trigger] constraints::<T, E>(self.model_view(), entries@)[i],
                    r@[i]@,
                ),
    {
        let mut r: Vec<Vec<T::Scope>> = Vec::new();
        let mut k: usize = 0;
        while k < entries.len()
            invariant
                k <= entries@.len(),
                forall|i: int| 0 <= i < k ==> !unconstrained::<T, E>(#[trigger] entries@[i]),
                r@.len() == scope_lists::<T, E>(self.model_view(), entries@.take(k as int)).len(),
                forall|i: int|
                    0 <= i < r@.len() ==> seq_cloned(
                        #[trigger] scope_lists::<T, E>(self.model_view(), entries@.take(k as int))[i],
                        r@[i]@,
                    ),
            decreases entries@.len() - k,
        {
            assert(entries@.take(k + 1).drop_last() == entries@.take(k as int));
            if let Some(rule) = entries[k].as_rule() {
                match &rule.scope {
                    Scope::Any => {
                        assert(unconstrained::<T, E>(entries@[k as int]));
                        return Vec::new();
                    },
                    Scope::Constrained(scopes) => {
                        let admitted = match self.model {
                            Some(m) => fits_all(m, scopes),
                            None => true,
                        };
                        if admitted {
                            r.push(scopes.clone());
                        }
                    },
                }
            }
            k += 1;
        }
        assert(entries@.take(k as int) == entries@);
        r
    }
}

impl<'a, T: AccessControl> From<&'a T> for Subject<'a, T> {
    /// The query bound to `m`, with no requested action.
    fn from(m: &'a T) -> (r: Self)
        ensures
            r.model_view() == Some(*m),
            r.action_view() is None,
    {
        Subject { model: Some(m), action: None }
    }
}

impl<'a, T: AccessControl> vstd::std_specs::convert::FromSpecImpl<&'a T> for Subject<'a, T> {
    open spec fn obeys_from_spec() -> bool {
        true
    }

    closed spec fn from_spec(m: &'a T) -> Self {
        Subject { model: Some(m), action: None }
    }
}

/// With no requested action, a list allows a query exactly when some rule for
/// `T` in it is unconstrained, or is constrained to scope values that the
/// bound instance, if any, lies within every one of.
pub proof fn lemma_allows_without_action<T: AccessControl, E: AsRule<T>>(
    model: Option<T>,
    entries: Seq<E>,
)
    ensures
        allows(model, None, entries) <==> exists|i: int|
            0 <= i < entries.len() && match (#[trigger] entries[i]).rule_for() {
                Some(rule) => match rule.scope {
                    Scope::Any => true,
                    Scope::Constrained(scopes) => match model {
                        None => true,
                        Some(m) => within_all(m, scopes@),
                    },
                },
                None => false,
            },
{
}

/// A requested action narrows the answer: the list allows the query exactly
/// when some rule for `T` that it holds admits the instance and also lists
/// the action.
pub proof fn lemma_allows_with_action<T: AccessControl, E: AsRule<T>>(
    model: Option<T>,
    a: T::Action,
    entries: Seq<E>,
)
    ensures
        allows(model, Some(a), entries) <==> exists|i: int|
            0 <= i < entries.len() && match (#[trigger] entries[i]).rule_for() {
                Some(rule) => scope_admits(model, rule.scope) && lists_action::<T>(
                    rule.actions@,
                    a,
                ),
                None => false,
            },
        allows(model, Some(a), entries) ==> allows(model, None, entries),
{
}

/// Without a bound instance every scope check passes: the anonymous query is
/// allowed exactly when the list holds some rule for `T`, and with a requested
/// action exactly when some rule for `T` lists it.
pub proof fn lemma_anonymous_allows<T: AccessControl, E: AsRule<T>>(
    action: Option<T::Action>,
    entries: Seq<E>,
)
    ensures
        allows(None, action, entries) <==> exists|i: int|
            0 <= i < entries.len() && match (#[trigger] entries[i]).rule_for() {
                Some(rule) => match action {
                    None => true,
                    Some(a) => lists_action::<T>(rule.actions@, a),
                },
                None => false,
            },
{
}

/// One unconstrained rule for `T` makes the constraints empty, whatever
/// rules come after it or before it.
pub proof fn lemma_unconstrained_clears_constraints<T: AccessControl, E: AsRule<T>>(
    model: Option<T>,
    entries: Seq<E>,
    i: int,
    later: Seq<E>,
)
    requires
        0 <= i < entries.len(),
        unconstrained::<T, E>(entries[i]),
    ensures
        constraints::<T, E>(model, entries) =~= Seq::empty(),
        constraints::<T, E>(model, entries + later) =~= Seq::empty(),
{
    assert((entries + later)[i] == entries[i]);
}

/// The constraints depend on the bound instance alone: two queries on the
/// same instance get the same constraints from a list, whatever actions they
/// request.
pub proof fn lemma_constraints_ignore_action<'a, T: AccessControl, E: AsRule<T>>(
    q1: Subject<'a, T>,
    q2: Subject<'a, T>,
    entries: Seq<E>,
)
    requires
        q1.model_view() == q2.model_view(),
    ensures
        constraints::<T, E>(q1.model_view(), entries) == constraints::<T, E>(
            q2.model_view(),
            entries,
        ),
{
}

} // verus!
