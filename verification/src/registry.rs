use vstd::prelude::*;
use crate::combo::{
    combo_wf, lemma_canonical_injective, lemma_parse_wf, parse_shortcut, spec_canonical,
    spec_parse_shortcut, KeyCombination,
};
use crate::strutil::str_eq;

verus! {

/// An action identifier together with the combination currently bound to it.
/// Only bindings whose platform registration succeeded are kept, so the
/// registry is its own reverse index: resolving a combination means finding
/// the unique binding that holds it.
pub struct ActionBinding {
    pub action: String,
    pub combo: KeyCombination,
}

impl View for ActionBinding {
    type V = (Seq<char>, KeyCombination);

    open spec fn view(&self) -> (Seq<char>, KeyCombination) {
        (self.action@, self.combo)
    }
}

/// The registry invariant: actions are unique, no two actions hold the same
/// combination, and every bound combination is well formed.
pub open spec fn view_wf(v: Seq<(Seq<char>, KeyCombination)>) -> bool {
    &&& forall|i: int, j: int|
        0 <= i < j < v.len() ==> (#[trigger] v[i]).0 != (#[trigger] v[j]).0 && v[i].1 != v[j].1
    &&& forall|i: int| 0 <= i < v.len() ==> combo_wf((#[trigger] v[i]).1)
}

/// Dropping every binding that the predicate condemns, keeping the rest in
/// order.
pub open spec fn remove_if(
    v: Seq<(Seq<char>, KeyCombination)>,
    drop: spec_fn((Seq<char>, KeyCombination)) -> bool,
) -> Seq<(Seq<char>, KeyCombination)>
    decreases v.len(),
{
    if v.len() == 0 {
        Seq::empty()
    } else {
        let rest = remove_if(v.drop_first(), drop);
        if !drop(v[0]) {
            seq![v[0]] + rest
        } else {
            rest
        }
    }
}

/// Dropping the binding of one action, keeping everything else in order.
pub open spec fn action_pred(a: Seq<char>) -> spec_fn((Seq<char>, KeyCombination)) -> bool {
    |e: (Seq<char>, KeyCombination)| e.0 == a
}

pub open spec fn conflict_pred(a: Seq<char>, c: KeyCombination) -> spec_fn(
    (Seq<char>, KeyCombination),
) -> bool {
    |e: (Seq<char>, KeyCombination)| e.0 == a || e.1 == c
}

pub open spec fn remove_action_spec(v: Seq<(Seq<char>, KeyCombination)>, a: Seq<char>) -> Seq<
    (Seq<char>, KeyCombination),
> {
    remove_if(v, action_pred(a))
}

/// Binding an action to a combination: evicts the action's old binding and
/// the combination's old holder (last registration wins), then appends the
/// new binding.
pub open spec fn insert_binding_spec(
    v: Seq<(Seq<char>, KeyCombination)>,
    a: Seq<char>,
    c: KeyCombination,
) -> Seq<(Seq<char>, KeyCombination)> {
    remove_if(v, conflict_pred(a, c)).push((a, c))
}

/// The batch of an initialization: each entry whose combination string
/// parses and whose platform registration succeeded is bound in turn;
/// every other entry is skipped and binds nothing.
pub open spec fn apply_entries_spec(
    es: Seq<(Seq<char>, Seq<char>)>,
    ok: Seq<bool>,
    v: Seq<(Seq<char>, KeyCombination)>,
) -> Seq<(Seq<char>, KeyCombination)>
    decreases es.len(),
{
    if es.len() == 0 {
        v
    } else {
        let v1 = match spec_parse_shortcut(es[0].1) {
            Option::Some(c) => if ok[0] {
                insert_binding_spec(v, es[0].0, c)
            } else {
                v
            },
            Option::None => v,
        };
        apply_entries_spec(es.drop_first(), ok.drop_first(), v1)
    }
}

pub open spec fn entries_view(es: Seq<(String, String)>) -> Seq<(Seq<char>, Seq<char>)> {
    es.map_values(|p: (String, String)| (p.0@, p.1@))
}

/// What `remove_if` keeps: exactly the bindings the predicate spares, and
/// the registry invariant survives.
pub proof fn lemma_remove_if_props(
    v: Seq<(Seq<char>, KeyCombination)>,
    drop: spec_fn((Seq<char>, KeyCombination)) -> bool,
)
    ensures
        forall|i: int|
            0 <= i < remove_if(v, drop).len() ==> !drop(#[trigger] remove_if(v, drop)[i])
                && v.contains(remove_if(v, drop)[i]),
        forall|i: int|
            0 <= i < v.len() && !drop(#[trigger] v[i]) ==> remove_if(v, drop).contains(v[i]),
        view_wf(v) ==> view_wf(remove_if(v, drop)),
    decreases v.len(),
{
    let rc = remove_if(v, drop);
    if v.len() == 0 {
    } else {
        let vd = v.drop_first();
        let rest = remove_if(vd, drop);
        lemma_remove_if_props(vd, drop);
        assert forall|i: int| 0 <= i < rc.len() implies !drop(#[trigger] rc[i]) && v.contains(
            rc[i],
        ) by {
            if !drop(v[0]) {
                if i == 0 {
                    assert(rc[0] == v[0]);
                    assert(v.contains(v[0]));
                } else {
                    assert(rc[i] == rest[i - 1]);
                    assert(!drop(rest[i - 1]) && vd.contains(rest[i - 1]));
                    let j = choose|j: int| 0 <= j < vd.len() && vd[j] == rc[i];
                    assert(v[j + 1] == rc[i]);
                    assert(v.contains(rc[i]));
                }
            } else {
                assert(rc[i] == rest[i]);
                assert(!drop(rest[i]) && vd.contains(rest[i]));
                let j = choose|j: int| 0 <= j < vd.len() && vd[j] == rc[i];
                assert(v[j + 1] == rc[i]);
                assert(v.contains(rc[i]));
            }
        }
        assert forall|i: int| 0 <= i < v.len() && !drop(#[trigger] v[i]) implies rc.contains(
            v[i],
        ) by {
            if i == 0 {
                assert(rc[0] == v[0]);
                assert(rc.contains(v[0]));
            } else {
                assert(vd[i - 1] == v[i]);
                assert(rest.contains(vd[i - 1]));
                let j = choose|j: int| 0 <= j < rest.len() && rest[j] == v[i];
                if !drop(v[0]) {
                    assert(rc[j + 1] == v[i]);
                } else {
                    assert(rc[j] == v[i]);
                }
                assert(rc.contains(v[i]));
            }
        }
        if view_wf(v) {
            assert(view_wf(vd)) by {
                assert(forall|i: int| 0 <= i < vd.len() ==> #[trigger] vd[i] == v[i + 1]);
            }
            assert forall|i: int, j: int| 0 <= i < j < rc.len() implies (#[trigger] rc[i]).0
                != (#[trigger] rc[j]).0 && rc[i].1 != rc[j].1 by {
                if !drop(v[0]) {
                    if i == 0 {
                        assert(rc[0] == v[0]);
                        assert(rc[j] == rest[j - 1]);
                        assert(vd.contains(rest[j - 1]));
                        let m = choose|m: int| 0 <= m < vd.len() && vd[m] == rc[j];
                        assert(v[m + 1] == rc[j]);
                        assert(v[0].0 != v[m + 1].0 && v[0].1 != v[m + 1].1);
                    } else {
                        assert(rc[i] == rest[i - 1]);
                        assert(rc[j] == rest[j - 1]);
                    }
                } else {
                    assert(rc[i] == rest[i]);
                    assert(rc[j] == rest[j]);
                }
            }
            assert forall|i: int| 0 <= i < rc.len() implies combo_wf((#[trigger] rc[i]).1) by {
                assert(v.contains(rc[i]));
                let m = choose|m: int| 0 <= m < v.len() && v[m] == rc[i];
                assert(combo_wf(v[m].1));
            }
        }
    }
}

/// Binding an action keeps the invariant: the result is the spared old
/// bindings, in order, with the new binding appended.
pub proof fn lemma_insert_binding_props(
    v: Seq<(Seq<char>, KeyCombination)>,
    a: Seq<char>,
    c: KeyCombination,
)
    requires
        view_wf(v),
        combo_wf(c),
    ensures
        view_wf(insert_binding_spec(v, a, c)),
        insert_binding_spec(v, a, c).len() >= 1,
        insert_binding_spec(v, a, c).last() == (a, c),
        forall|i: int|
            0 <= i < insert_binding_spec(v, a, c).len() - 1 ==> ((#[trigger] insert_binding_spec(
                v,
                a,
                c,
            )[i]).0 != a && insert_binding_spec(v, a, c)[i].1 != c && v.contains(
                insert_binding_spec(v, a, c)[i],
            )),
        forall|i: int|
            0 <= i < v.len() && (#[trigger] v[i]).0 != a && v[i].1 != c ==> insert_binding_spec(
                v,
                a,
                c,
            ).contains(v[i]),
{
    let drop = conflict_pred(a, c);
    lemma_remove_if_props(v, drop);
    let rc = remove_if(v, drop);
    let r = rc.push((a, c));
    assert(r.last() == (a, c));
    assert forall|i: int| 0 <= i < r.len() - 1 implies ((#[trigger] r[i]).0 != a && r[i].1 != c
        && v.contains(r[i])) by {
        assert(r[i] == rc[i]);
        assert(!drop(rc[i]));
    }
    assert forall|i: int|
        0 <= i < v.len() && (#[trigger] v[i]).0 != a && v[i].1 != c implies r.contains(v[i]) by {
        assert(!drop(v[i]));
        assert(rc.contains(v[i]));
        let j = choose|j: int| 0 <= j < rc.len() && rc[j] == v[i];
        assert(r[j] == v[i]);
        assert(r.contains(v[i]));
    }
    assert(view_wf(r)) by {
        assert forall|i: int, j: int| 0 <= i < j < r.len() implies (#[trigger] r[i]).0
            != (#[trigger] r[j]).0 && r[i].1 != r[j].1 by {
            if j < rc.len() {
                assert(r[i] == rc[i]);
                assert(r[j] == rc[j]);
            } else {
                assert(r[j] == (a, c));
                assert(r[i] == rc[i]);
                assert(!drop(rc[i]));
            }
        }
        assert forall|i: int| 0 <= i < r.len() implies combo_wf((#[trigger] r[i]).1) by {
            if i < rc.len() {
                assert(r[i] == rc[i]);
                assert(v.contains(rc[i]));
                let m = choose|m: int| 0 <= m < v.len() && v[m] == rc[i];
                assert(combo_wf(v[m].1));
            } else {
                assert(r[i] == (a, c));
            }
        }
    }
}

/// Why an update was rejected: the combination string did not parse, or
/// the platform refused to register the parsed combination.
#[derive(Clone, Copy, PartialEq, Eq, Structural, Debug)]
pub enum UpdateError {
    InvalidFormat,
    RegistrationFailed,
}

impl UpdateError {
    /// A short description of the rejection for the caller's log.
    pub fn message(&self) -> (r: String)
        ensures
            *self == UpdateError::InvalidFormat ==> r@ == "invalid shortcut format"@,
            *self == UpdateError::RegistrationFailed ==> r@ == "failed to register shortcut"@,
    {
        match self {
            UpdateError::InvalidFormat => "invalid shortcut format".to_owned(),
            UpdateError::RegistrationFailed => "failed to register shortcut".to_owned(),
        }
    }
}

/// The authoritative mapping from actions to their combinations. Its view
/// is the sequence of bindings; `view_wf` is the registry invariant, which
/// every operation preserves.
pub struct ShortcutRegistry {
    bindings: Vec<ActionBinding>,
}

impl View for ShortcutRegistry {
    type V = Seq<(Seq<char>, KeyCombination)>;

    closed spec fn view(&self) -> Seq<(Seq<char>, KeyCombination)> {
        self.bindings@.map_values(|b: ActionBinding| b@)
    }
}

impl ShortcutRegistry {
    /// An empty registry: nothing bound, nothing registered.
    pub fn new() -> (r: Self)
        ensures
            r@ == Seq::<(Seq<char>, KeyCombination)>::empty(),
            view_wf(r@),
    {
        let r = ShortcutRegistry { bindings: Vec::new() };
        proof {
            assert(r@ =~~= Seq::<(Seq<char>, KeyCombination)>::empty());
        }
        r
    }

    /// How many actions are currently bound.
    pub fn binding_count(&self) -> (r: usize)
        ensures
            r == self@.len(),
    {
        self.bindings.len()
    }

    /// Binds `action` to `combo`, evicting the action's old binding and the
    /// combination's old holder (last registration wins).
    fn insert_binding(&mut self, action: String, combo: KeyCombination)
        ensures
            final(self)@ == insert_binding_spec(old(self)@, action@, combo),
    {
        let ghost v = self@;
        let ghost dr = conflict_pred(action@, combo);
        let mut out: Vec<ActionBinding> = Vec::new();
        let n = self.bindings.len();
        let mut i: usize = 0;
        proof {
            assert(v.skip(0) =~~= v);
            assert(out@.map_values(|b: ActionBinding| b@) =~~= Seq::<
                (Seq<char>, KeyCombination),
            >::empty());
        }
        while i < n
            invariant
                n == self.bindings.len(),
                v == self@,
                i <= n,
                dr == conflict_pred(action@, combo),
                remove_if(v, dr) == out@.map_values(|b: ActionBinding| b@) + remove_if(
                    v.skip(i as int),
                    dr,
                ),
            decreases n - i,
        {
            let b = &self.bindings[i];
            proof {
                assert(v[i as int] == self.bindings@[i as int]@);
                assert(v.skip(i as int)[0] == v[i as int]);
                assert(v.skip(i as int).drop_first() =~~= v.skip(i as int + 1));
                assert(dr(v[i as int]) == (v[i as int].0 == action@ || v[i as int].1 == combo));
            }
            let keep = !(b.action == action) && !(b.combo == combo);
            if keep {
                let ghost out0 = out@;
                out.push(ActionBinding { action: b.action.clone(), combo: b.combo });
                proof {
                    assert(out@.map_values(|b: ActionBinding| b@) =~~= out0.map_values(
                        |b: ActionBinding| b@,
                    ).push(v[i as int]));
                    assert(out0.map_values(|b: ActionBinding| b@).push(v[i as int]) + remove_if(
                        v.skip(i as int + 1),
                        dr,
                    ) =~~= out0.map_values(|b: ActionBinding| b@) + (seq![v[i as int]] + remove_if(
                        v.skip(i as int + 1),
                        dr,
                    )));
                }
            }
            i = i + 1;
        }
        proof {
            assert(v.skip(n as int) =~~= Seq::<(Seq<char>, KeyCombination)>::empty());
            assert(remove_if(v, dr) =~~= out@.map_values(|b: ActionBinding| b@));
        }
        let ghost outf = out@;
        out.push(ActionBinding { action, combo });
        self.bindings = out;
        proof {
            assert(self@ =~~= outf.map_values(|b: ActionBinding| b@).push((action@, combo)));
        }
    }

    /// Removes the binding of `action`, if any, returning the combination it
    /// held so that its platform registration can be released.
    fn remove_action(&mut self, action: &String) -> (r: Option<KeyCombination>)
        ensures
            final(self)@ == remove_action_spec(old(self)@, action@),
            r matches Option::Some(c) ==> old(self)@.contains((action@, c)),
            r is None ==> forall|i: int|
                0 <= i < old(self)@.len() ==> (#[trigger] old(self)@[i]).0 != action@,
    {
        let ghost v = self@;
        let ghost dr = action_pred(action@);
        let mut out: Vec<ActionBinding> = Vec::new();
        let mut found: Option<KeyCombination> = Option::None;
        let n = self.bindings.len();
        let mut i: usize = 0;
        proof {
            assert(v.skip(0) =~~= v);
            assert(out@.map_values(|b: ActionBinding| b@) =~~= Seq::<
                (Seq<char>, KeyCombination),
            >::empty());
        }
        while i < n
            invariant
                n == self.bindings.len(),
                v == self@,
                i <= n,
                dr == action_pred(action@),
                remove_if(v, dr) == out@.map_values(|b: ActionBinding| b@) + remove_if(
                    v.skip(i as int),
                    dr,
                ),
                found matches Option::Some(c) ==> v.contains((action@, c)),
                found is None ==> forall|j: int|
                    0 <= j < i ==> (#[trigger] v[j]).0 != action@,
            decreases n - i,
        {
            let b = &self.bindings[i];
            proof {
                assert(v[i as int] == self.bindings@[i as int]@);
                assert(v.skip(i as int)[0] == v[i as int]);
                assert(v.skip(i as int).drop_first() =~~= v.skip(i as int + 1));
                assert(dr(v[i as int]) == (v[i as int].0 == action@));
            }
            if b.action == *action {
                found = Option::Some(b.combo);
                proof {
                    assert(v[i as int] == (action@, b.combo));
                    assert(v.contains((action@, b.combo)));
                }
            } else {
                let ghost out0 = out@;
                out.push(ActionBinding { action: b.action.clone(), combo: b.combo });
                proof {
                    assert(out@.map_values(|b: ActionBinding| b@) =~~= out0.map_values(
                        |b: ActionBinding| b@,
                    ).push(v[i as int]));
                    assert(out0.map_values(|b: ActionBinding| b@).push(v[i as int]) + remove_if(
                        v.skip(i as int + 1),
                        dr,
                    ) =~~= out0.map_values(|b: ActionBinding| b@) + (seq![v[i as int]] + remove_if(
                        v.skip(i as int + 1),
                        dr,
                    )));
                }
            }
            i = i + 1;
        }
        proof {
            assert(v.skip(n as int) =~~= Seq::<(Seq<char>, KeyCombination)>::empty());
            assert(remove_if(v, dr) =~~= out@.map_values(|b: ActionBinding| b@));
        }
        self.bindings = out;
        found
    }

    /// Replaces the whole registry with the given batch: every old binding
    /// is dropped, then each entry that parses and whose platform
    /// registration succeeded (per `reg_ok`) is bound in order. Entries that
    /// fail either way are skipped and bind nothing; they never abort the
    /// batch.
    pub fn initialize_shortcuts(&mut self, entries: &Vec<(String, String)>, reg_ok: &Vec<bool>)
        requires
            reg_ok@.len() == entries@.len(),
        ensures
            final(self)@ == apply_entries_spec(
                entries_view(entries@),
                reg_ok@,
                Seq::empty(),
            ),
            view_wf(final(self)@),
    {
        let ghost es = entries_view(entries@);
        let ghost ok = reg_ok@;
        self.bindings = Vec::new();
        proof {
            assert(self@ =~~= Seq::<(Seq<char>, KeyCombination)>::empty());
            assert(es.skip(0) =~~= es);
            assert(ok.skip(0) =~~= ok);
        }
        let n = entries.len();
        let mut i: usize = 0;
        while i < n
            invariant
                n == entries.len(),
                ok.len() == es.len(),
                n == es.len(),
                es == entries_view(entries@),
                ok == reg_ok@,
                i <= n,
                view_wf(self@),
                apply_entries_spec(es, ok, Seq::empty()) == apply_entries_spec(
                    es.skip(i as int),
                    ok.skip(i as int),
                    self@,
                ),
            decreases n - i,
        {
            let ghost v0 = self@;
            proof {
                assert(es[i as int] == (entries@[i as int].0@, entries@[i as int].1@));
                assert(es.skip(i as int)[0] == es[i as int]);
                assert(es.skip(i as int).drop_first() =~~= es.skip(i as int + 1));
                assert(ok.skip(i as int)[0] == ok[i as int]);
                assert(ok.skip(i as int).drop_first() =~~= ok.skip(i as int + 1));
            }
            let entry = &entries[i];
            let parsed = parse_shortcut(entry.1.as_str());
            match parsed {
                Option::Some(c) => {
                    if reg_ok[i] {
                        proof {
                            lemma_parse_wf(es[i as int].1, c);
                            lemma_insert_binding_props(v0, es[i as int].0, c);
                        }
                        self.insert_binding(entry.0.clone(), c);
                    }
                },
                Option::None => {},
            }
            i = i + 1;
        }
        proof {
            assert(es.skip(n as int) =~~= Seq::<(Seq<char>, Seq<char>)>::empty());
            assert(ok.skip(n as int) =~~= Seq::<bool>::empty());
        }
    }

    /// Rebinds `action` to `new_combo`. The old binding is released first,
    /// so a failed parse or a refused platform registration (per `reg_ok`)
    /// leaves the action unbound rather than half-bound; on success the
    /// accepted combination string is returned and any other action holding
    /// the same combination is evicted.
    pub fn update_shortcut(&mut self, action: String, new_combo: &str, reg_ok: bool) -> (r: Result<
        String,
        UpdateError,
    >)
        requires
            view_wf(old(self)@),
        ensures
            view_wf(final(self)@),
            spec_parse_shortcut(new_combo@) is None ==> r == Result::<String, UpdateError>::Err(
                UpdateError::InvalidFormat,
            ) && final(self)@ == remove_action_spec(old(self)@, action@),
            spec_parse_shortcut(new_combo@) is Some && !reg_ok ==> r == Result::<
                String,
                UpdateError,
            >::Err(UpdateError::RegistrationFailed) && final(self)@ == remove_action_spec(
                old(self)@,
                action@,
            ),
            reg_ok ==> (spec_parse_shortcut(new_combo@) matches Option::Some(c) ==> ((r matches
            Result::Ok(s) && s@ == new_combo@) && final(self)@ == insert_binding_spec(
                remove_action_spec(old(self)@, action@),
                action@,
                c,
            ))),
    {
        proof {
            lemma_remove_if_props(self@, action_pred(action@));
        }
        let _released = self.remove_action(&action);
        let ghost mid = self@;
        match parse_shortcut(new_combo) {
            Option::None => Result::Err(UpdateError::InvalidFormat),
            Option::Some(c) => {
                if reg_ok {
                    proof {
                        lemma_parse_wf(new_combo@, c);
                        lemma_insert_binding_props(mid, action@, c);
                    }
                    self.insert_binding(action, c);
                    Result::Ok(new_combo.to_owned())
                } else {
                    Result::Err(UpdateError::RegistrationFailed)
                }
            },
        }
    }

    /// Resolves a pressed combination back to the action bound to it; a
    /// released transition or an unknown combination routes nothing.
    pub fn route_event(&self, combo: &KeyCombination, pressed: bool) -> (r: Option<String>)
        ensures
            r matches Option::Some(a) ==> pressed && self@.contains((a@, *combo)),
            r is None ==> !pressed || forall|i: int|
                0 <= i < self@.len() ==> (#[trigger] self@[i]).1 != *combo,
    {
        if !pressed {
            return Option::None;
        }
        let n = self.bindings.len();
        let mut i: usize = 0;
        while i < n
            invariant
                pressed,
                n == self.bindings.len(),
                i <= n,
                forall|j: int| 0 <= j < i ==> (#[trigger] self@[j]).1 != *combo,
            decreases n - i,
        {
            proof {
                assert(self@[i as int] == self.bindings@[i as int]@);
            }
            if self.bindings[i].combo == *combo {
                let act = self.bindings[i].action.clone();
                proof {
                    assert(act@ == self.bindings@[i as int].action@);
                    assert(self.bindings@[i as int].combo == *combo);
                    assert(self@[i as int] == (act@, *combo));
                    assert(self@.contains((act@, *combo)));
                }
                return Option::Some(act);
            }
            i = i + 1;
        }
        Option::None
    }

    /// The combination currently bound to `action`, if any.
    pub fn current_combo(&self, action: &str) -> (r: Option<KeyCombination>)
        ensures
            r matches Option::Some(c) ==> self@.contains((action@, c)),
            r is None ==> forall|i: int|
                0 <= i < self@.len() ==> (#[trigger] self@[i]).0 != action@,
    {
        let n = self.bindings.len();
        let mut i: usize = 0;
        while i < n
            invariant
                n == self.bindings.len(),
                i <= n,
                forall|j: int| 0 <= j < i ==> (#[trigger] self@[j]).0 != action@,
            decreases n - i,
        {
            proof {
                assert(self@[i as int] == self.bindings@[i as int]@);
            }
            if str_eq(self.bindings[i].action.as_str(), action) {
                let c = self.bindings[i].combo;
                proof {
                    assert(self@[i as int] == (action@, c));
                    assert(self@.contains((action@, c)));
                }
                return Option::Some(c);
            }
            i = i + 1;
        }
        Option::None
    }

    /// Every combination the registry currently holds, in binding order;
    /// the caller releases their platform registrations before a full
    /// re-initialization.
    pub fn bound_combos(&self) -> (r: Vec<KeyCombination>)
        ensures
            r@.len() == self@.len(),
            forall|i: int| 0 <= i < r@.len() ==> r@[i] == (#[trigger] self@[i]).1,
    {
        let n = self.bindings.len();
        let mut r: Vec<KeyCombination> = Vec::new();
        let mut i: usize = 0;
        while i < n
            invariant
                n == self.bindings.len(),
                i <= n,
                r@.len() == i,
                forall|j: int| 0 <= j < i ==> r@[j] == (#[trigger] self@[j]).1,
            decreases n - i,
        {
            proof {
                assert(self@[i as int] == self.bindings@[i as int]@);
            }
            r.push(self.bindings[i].combo);
            i = i + 1;
        }
        r
    }
}

/// No two positions of a well-formed registry resolve from the same
/// canonical combination string: the reverse index is a function.
pub proof fn lemma_reverse_index_unique(v: Seq<(Seq<char>, KeyCombination)>, i: int, j: int)
    requires
        view_wf(v),
        0 <= i < v.len(),
        0 <= j < v.len(),
        spec_canonical(v[i].1) == spec_canonical(v[j].1),
    ensures
        i == j,
{
    if i != j {
        lemma_canonical_injective(v[i].1, v[j].1);
    }
}

/// Keeps everything when nothing is condemned.
proof fn lemma_remove_if_none(
    v: Seq<(Seq<char>, KeyCombination)>,
    drop: spec_fn((Seq<char>, KeyCombination)) -> bool,
)
    requires
        forall|i: int| 0 <= i < v.len() ==> !drop(#[trigger] v[i]),
    ensures
        remove_if(v, drop) == v,
    decreases v.len(),
{
    if v.len() > 0 {
        let vd = v.drop_first();
        assert(forall|i: int| 0 <= i < vd.len() ==> #[trigger] vd[i] == v[i + 1]);
        lemma_remove_if_none(vd, drop);
        assert(!drop(v[0]));
        assert(remove_if(v, drop) =~~= seq![v[0]] + vd);
        assert(seq![v[0]] + vd =~~= v);
    }
}

/// Updating an action twice in a row leaves exactly one binding for it,
/// holding the second combination; the first combination survives nowhere
/// unless the second equals it.
pub proof fn lemma_update_last_wins(
    v0: Seq<(Seq<char>, KeyCombination)>,
    a: Seq<char>,
    c1: KeyCombination,
    c2: KeyCombination,
)
    requires
        view_wf(v0),
        combo_wf(c1),
        combo_wf(c2),
    ensures
        ({
            let v1 = insert_binding_spec(remove_action_spec(v0, a), a, c1);
            let v2 = insert_binding_spec(remove_action_spec(v1, a), a, c2);
            &&& v2.contains((a, c2))
            &&& forall|i: int| 0 <= i < v2.len() && (#[trigger] v2[i]).0 == a ==> v2[i] == (a, c2)
            &&& c1 != c2 ==> forall|i: int| 0 <= i < v2.len() ==> (#[trigger] v2[i]).1 != c1
        }),
{
    let r0 = remove_action_spec(v0, a);
    lemma_remove_if_props(v0, action_pred(a));
    let v1 = insert_binding_spec(r0, a, c1);
    lemma_insert_binding_props(r0, a, c1);
    let r1 = remove_action_spec(v1, a);
    lemma_remove_if_props(v1, action_pred(a));
    let v2 = insert_binding_spec(r1, a, c2);
    lemma_insert_binding_props(r1, a, c2);
    assert(v2.last() == (a, c2));
    assert(v2.contains((a, c2))) by {
        assert(v2[v2.len() - 1] == (a, c2));
    }
    assert forall|i: int| 0 <= i < v2.len() && (#[trigger] v2[i]).0 == a implies v2[i] == (
        a,
        c2,
    ) by {
        if i < v2.len() - 1 {
            assert(r1.contains(v2[i]));
            let k = choose|k: int| 0 <= k < r1.len() && r1[k] == v2[i];
            assert(r1[k] == remove_if(v1, action_pred(a))[k]);
            assert(!action_pred(a)(r1[k]));
        }
    }
    if c1 != c2 {
        assert forall|i: int| 0 <= i < v2.len() implies (#[trigger] v2[i]).1 != c1 by {
            if i < v2.len() - 1 {
                assert(r1.contains(v2[i]));
                let k = choose|k: int| 0 <= k < r1.len() && r1[k] == v2[i];
                assert(!action_pred(a)(r1[k]));
                assert(v1.contains(r1[k]));
                let m = choose|m: int| 0 <= m < v1.len() && v1[m] == r1[k];
                if m == v1.len() - 1 {
                    assert(v1[m] == (a, c1));
                    assert(false);
                } else {
                    assert(v1[m].1 != c1);
                }
            } else {
                assert(v2[i] == (a, c2));
            }
        }
    }
}

/// How many entries of a batch have a combination string that parses.
pub open spec fn count_parsed(es: Seq<(Seq<char>, Seq<char>)>) -> int
    decreases es.len(),
{
    if es.len() == 0 {
        0
    } else {
        (if spec_parse_shortcut(es[0].1) is Some {
            1int
        } else {
            0int
        }) + count_parsed(es.drop_first())
    }
}

/// The generalized initialization law: over a batch whose actions are
/// pairwise distinct, whose parsed combinations are pairwise distinct, and
/// which is disjoint from the accumulated registry, with every platform
/// registration succeeding, each parsed entry adds exactly one binding and
/// every accumulated binding survives.
proof fn lemma_apply_entries_all_ok(
    es: Seq<(Seq<char>, Seq<char>)>,
    ok: Seq<bool>,
    v: Seq<(Seq<char>, KeyCombination)>,
)
    requires
        ok.len() == es.len(),
        forall|i: int| 0 <= i < ok.len() ==> ok[i],
        view_wf(v),
        forall|i: int, j: int|
            0 <= i < j < es.len() ==> (#[trigger] es[i]).0 != (#[trigger] es[j]).0,
        forall|i: int, j: int|
            0 <= i < j < es.len() && spec_parse_shortcut((#[trigger] es[i]).1) is Some
                ==> spec_parse_shortcut(es[i].1) != spec_parse_shortcut((#[trigger] es[j]).1),
        forall|i: int, k: int|
            0 <= i < es.len() && 0 <= k < v.len() ==> (#[trigger] es[i]).0 != (#[trigger] v[k]).0,
        forall|i: int, k: int|
            0 <= i < es.len() && 0 <= k < v.len() ==> (spec_parse_shortcut(
                (#[trigger] es[i]).1,
            ) matches Option::Some(c) ==> c != (#[trigger] v[k]).1),
    ensures
        apply_entries_spec(es, ok, v).len() == v.len() + count_parsed(es),
        forall|k: int|
            0 <= k < v.len() ==> apply_entries_spec(es, ok, v).contains(#[trigger] v[k]),
        forall|i: int|
            0 <= i < es.len() ==> (spec_parse_shortcut((#[trigger] es[i]).1) matches Option::Some(
                c,
            ) ==> apply_entries_spec(es, ok, v).contains((es[i].0, c))),
        forall|k: int|
            0 <= k < apply_entries_spec(es, ok, v).len() ==> v.contains(
                #[trigger] apply_entries_spec(es, ok, v)[k],
            ) || exists|i: int|
                0 <= i < es.len() && apply_entries_spec(es, ok, v)[k].0 == es[i].0
                    && spec_parse_shortcut(es[i].1) == Option::Some(
                    apply_entries_spec(es, ok, v)[k].1,
                ),
        view_wf(apply_entries_spec(es, ok, v)),
    decreases es.len(),
{
    let r = apply_entries_spec(es, ok, v);
    if es.len() == 0 {
        assert(r == v);
        assert forall|k: int| 0 <= k < v.len() implies r.contains(#[trigger] v[k]) by {
            assert(r[k] == v[k]);
        }
        assert forall|k: int| 0 <= k < r.len() implies v.contains(#[trigger] r[k]) || exists|i: int|
            0 <= i < es.len() && r[k].0 == es[i].0 && spec_parse_shortcut(es[i].1)
                == Option::Some(r[k].1) by {
            assert(r[k] == v[k]);
            assert(v.contains(v[k]));
        }
    } else {
        let esd = es.drop_first();
        let okd = ok.drop_first();
        assert(forall|i: int| 0 <= i < esd.len() ==> #[trigger] esd[i] == es[i + 1]);
        assert(forall|i: int| 0 <= i < okd.len() ==> #[trigger] okd[i] == ok[i + 1]);
        match spec_parse_shortcut(es[0].1) {
            Option::Some(c0) => {
                assert(ok[0]);
                let dr = conflict_pred(es[0].0, c0);
                assert forall|k: int| 0 <= k < v.len() implies !dr(#[trigger] v[k]) by {
                    assert(es[0].0 != v[k].0);
                    assert(c0 != v[k].1);
                }
                lemma_remove_if_none(v, dr);
                let v1 = insert_binding_spec(v, es[0].0, c0);
                assert(v1 == v.push((es[0].0, c0)));
                lemma_parse_wf(es[0].1, c0);
                lemma_insert_binding_props(v, es[0].0, c0);
                assert(forall|k: int|
                    0 <= k < v1.len() ==> #[trigger] v1[k] == (if k < v.len() {
                        v[k]
                    } else {
                        (es[0].0, c0)
                    }));
                lemma_apply_entries_all_ok(esd, okd, v1);
                assert(r == apply_entries_spec(esd, okd, v1));
                assert(count_parsed(es) == 1 + count_parsed(esd));
                assert(r.len() == v1.len() + count_parsed(esd));
                assert forall|k: int| 0 <= k < v.len() implies r.contains(#[trigger] v[k]) by {
                    assert(v1[k] == v[k]);
                    assert(r.contains(v1[k]));
                }
                assert forall|i: int|
                    0 <= i < es.len() implies (spec_parse_shortcut(
                    (#[trigger] es[i]).1,
                ) matches Option::Some(c) ==> r.contains((es[i].0, c))) by {
                    if i == 0 {
                        assert(v1[v1.len() - 1] == (es[0].0, c0));
                        assert(r.contains(v1[v1.len() - 1]));
                    } else {
                        assert(esd[i - 1] == es[i]);
                    }
                }
                assert forall|k: int| 0 <= k < r.len() implies v.contains(#[trigger] r[k])
                    || exists|i: int|
                    0 <= i < es.len() && r[k].0 == es[i].0 && spec_parse_shortcut(es[i].1)
                        == Option::Some(r[k].1) by {
                    if v1.contains(r[k]) {
                        let m = choose|m: int| 0 <= m < v1.len() && v1[m] == r[k];
                        if m < v.len() {
                            assert(v[m] == r[k]);
                            assert(v.contains(r[k]));
                        } else {
                            assert(r[k] == (es[0].0, c0));
                            assert(0 <= 0 < es.len() && r[k].0 == es[0].0 && spec_parse_shortcut(
                                es[0].1,
                            ) == Option::Some(r[k].1));
                        }
                    } else {
                        let i = choose|i: int|
                            0 <= i < esd.len() && r[k].0 == esd[i].0 && spec_parse_shortcut(
                                esd[i].1,
                            ) == Option::Some(r[k].1);
                        assert(es[i + 1] == esd[i]);
                        assert(0 <= i + 1 < es.len() && r[k].0 == es[i + 1].0
                            && spec_parse_shortcut(es[i + 1].1) == Option::Some(r[k].1));
                    }
                }
            },
            Option::None => {
                lemma_apply_entries_all_ok(esd, okd, v);
                assert(r == apply_entries_spec(esd, okd, v));
                assert(count_parsed(es) == count_parsed(esd));
                assert forall|i: int|
                    0 <= i < es.len() implies (spec_parse_shortcut(
                    (#[trigger] es[i]).1,
                ) matches Option::Some(c) ==> r.contains((es[i].0, c))) by {
                    if i > 0 {
                        assert(esd[i - 1] == es[i]);
                    }
                }
                assert forall|k: int| 0 <= k < r.len() implies v.contains(#[trigger] r[k])
                    || exists|i: int|
                    0 <= i < es.len() && r[k].0 == es[i].0 && spec_parse_shortcut(es[i].1)
                        == Option::Some(r[k].1) by {
                    if !v.contains(r[k]) {
                        let i = choose|i: int|
                            0 <= i < esd.len() && r[k].0 == esd[i].0 && spec_parse_shortcut(
                                esd[i].1,
                            ) == Option::Some(r[k].1);
                        assert(es[i + 1] == esd[i]);
                        assert(0 <= i + 1 < es.len() && r[k].0 == es[i + 1].0
                            && spec_parse_shortcut(es[i + 1].1) == Option::Some(r[k].1));
                    }
                }
            },
        }
    }
}

/// The initialization law: a batch with pairwise-distinct actions and
/// pairwise-distinct parsed combinations, every platform registration
/// succeeding, yields a registry with exactly one binding per entry that
/// parses and nothing else.
pub proof fn lemma_initialize_binds_parsed(es: Seq<(Seq<char>, Seq<char>)>, ok: Seq<bool>)
    requires
        ok.len() == es.len(),
        forall|i: int| 0 <= i < ok.len() ==> ok[i],
        forall|i: int, j: int|
            0 <= i < j < es.len() ==> (#[trigger] es[i]).0 != (#[trigger] es[j]).0,
        forall|i: int, j: int|
            0 <= i < j < es.len() && spec_parse_shortcut((#[trigger] es[i]).1) is Some
                ==> spec_parse_shortcut(es[i].1) != spec_parse_shortcut((#[trigger] es[j]).1),
    ensures
        apply_entries_spec(es, ok, Seq::empty()).len() == count_parsed(es),
        forall|i: int|
            0 <= i < es.len() ==> (spec_parse_shortcut((#[trigger] es[i]).1) matches Option::Some(
                c,
            ) ==> apply_entries_spec(es, ok, Seq::empty()).contains((es[i].0, c))),
        forall|k: int|
            0 <= k < apply_entries_spec(es, ok, Seq::empty()).len() ==> exists|i: int|
                0 <= i < es.len() && (#[trigger] apply_entries_spec(es, ok, Seq::empty())[k]).0
                    == es[i].0 && spec_parse_shortcut(es[i].1) == Option::Some(
                    apply_entries_spec(es, ok, Seq::empty())[k].1,
                ),
        view_wf(apply_entries_spec(es, ok, Seq::empty())),
{
    lemma_apply_entries_all_ok(es, ok, Seq::empty());
    let r = apply_entries_spec(es, ok, Seq::<(Seq<char>, KeyCombination)>::empty());
    assert forall|k: int| 0 <= k < r.len() implies exists|i: int|
        0 <= i < es.len() && (#[trigger] r[k]).0 == es[i].0 && spec_parse_shortcut(es[i].1)
            == Option::Some(r[k].1) by {
        assert(!Seq::<(Seq<char>, KeyCombination)>::empty().contains(r[k])) by {
            if Seq::<(Seq<char>, KeyCombination)>::empty().contains(r[k]) {
                let m = choose|m: int|
                    0 <= m < Seq::<(Seq<char>, KeyCombination)>::empty().len()
                        && Seq::<(Seq<char>, KeyCombination)>::empty()[m] == r[k];
            }
        }
    }
}

} // verus!
