//! The environment a child process is started with.

use vstd::prelude::*;

use crate::bytes;

verus! {

/// One environment variable.
pub struct EnvVar {
    pub name: Vec<u8>,
    pub value: Vec<u8>,
}

impl View for EnvVar {
    type V = (Seq<u8>, Seq<u8>);

    open spec fn view(&self) -> (Seq<u8>, Seq<u8>) {
        (self.name@, self.value@)
    }
}

/// The names and values of a list of variables.
pub open spec fn pairs(vars: Seq<EnvVar>) -> Seq<(Seq<u8>, Seq<u8>)> {
    vars.map_values(|var: EnvVar| var@)
}

/// Whether some variable of `env` is called `name`.
pub open spec fn defines(env: Seq<(Seq<u8>, Seq<u8>)>, name: Seq<u8>) -> bool {
    exists|i: int| 0 <= i < env.len() && (#[trigger] env[i]).0 == name
}

/// The position of the variable called `name`.
pub open spec fn position(env: Seq<(Seq<u8>, Seq<u8>)>, name: Seq<u8>) -> int {
    choose|i: int| 0 <= i < env.len() && (#[trigger] env[i]).0 == name
}

/// No two variables have the same name.
pub open spec fn names_differ(env: Seq<(Seq<u8>, Seq<u8>)>) -> bool {
    forall|i: int, j: int| 0 <= i < j < env.len() ==> (#[trigger] env[i]).0 != (#[trigger] env[j]).0
}

/// `env` after `vars` are offered to it in order. A variable is taken when
/// no variable of its name is there yet and its answer in `accepted` is yes.
pub open spec fn inherited(
    env: Seq<(Seq<u8>, Seq<u8>)>,
    vars: Seq<(Seq<u8>, Seq<u8>)>,
    accepted: Seq<bool>,
) -> Seq<(Seq<u8>, Seq<u8>)>
    decreases vars.len(),
{
    if vars.len() == 0 {
        env
    } else {
        let before = inherited(env, vars.drop_last(), accepted.drop_last());
        if !defines(before, vars.last().0) && accepted.last() {
            before.push(vars.last())
        } else {
            before
        }
    }
}

/// The name of the variable number `i` of `vars` is still free when its turn
/// comes.
pub open spec fn is_asked(
    env: Seq<(Seq<u8>, Seq<u8>)>,
    vars: Seq<(Seq<u8>, Seq<u8>)>,
    accepted: Seq<bool>,
    i: int,
) -> bool {
    !defines(inherited(env, vars.take(i), accepted.take(i)), vars[i].0)
}

/// `accepted` holds answers that `filter` can give when `vars` are offered to
/// `env`. Without a filter every answer is yes. The filter is asked only about
/// names that are still free.
pub open spec fn answered_by<F: Fn(&Vec<u8>) -> bool>(
    filter: Option<F>,
    env: Seq<(Seq<u8>, Seq<u8>)>,
    vars: Seq<EnvVar>,
    accepted: Seq<bool>,
) -> bool {
    &&& accepted.len() == vars.len()
    &&& forall|i: int|
        0 <= i < vars.len() && #[trigger] is_asked(env, pairs(vars), accepted, i) ==> match filter {
            Some(f) => call_ensures(f, (&vars[i].name,), accepted[i]),
            None => accepted[i],
        }
}

/// The filter can be asked about any name.
pub open spec fn can_be_asked<F: Fn(&Vec<u8>) -> bool>(filter: Option<F>) -> bool {
    filter matches Some(f) ==> forall|name: &Vec<u8>| #[trigger] call_requires(f, (name,))
}

/// How a variable is handed to a new process: `name=value`.
pub open spec fn assignment(var: (Seq<u8>, Seq<u8>)) -> Seq<u8> {
    var.0.push(bytes::EQUALS) + var.1
}

/// The whole environment as it is handed to a new process.
pub open spec fn assignments(env: Seq<(Seq<u8>, Seq<u8>)>) -> Seq<Seq<u8>> {
    env.map_values(|var: (Seq<u8>, Seq<u8>)| assignment(var))
}

/// Some name or value holds a NUL byte, so the variable cannot be handed to a
/// new process.
pub open spec fn has_nul(env: Seq<(Seq<u8>, Seq<u8>)>) -> bool {
    exists|i: int|
        0 <= i < env.len() && ((#[trigger] env[i]).0.contains(bytes::NUL) || env[i].1.contains(bytes::NUL))
}

/// A set of variables, each name at most once, in the order in which the names
/// were first given.
pub struct Environment {
    vars: Vec<EnvVar>,
}

impl View for Environment {
    type V = Seq<(Seq<u8>, Seq<u8>)>;

    closed spec fn view(&self) -> Seq<(Seq<u8>, Seq<u8>)> {
        pairs(self.vars@)
    }
}

impl Environment {
    #[verifier::type_invariant]
    closed spec fn valid(&self) -> bool {
        names_differ(pairs(self.vars@))
    }

    /// An environment without variables.
    pub fn new() -> (env: Environment)
        ensures
            env@ == Seq::<(Seq<u8>, Seq<u8>)>::empty(),
            names_differ(env@),
    {
        let env = Environment { vars: Vec::new() };
        assert(env@ =~= Seq::<(Seq<u8>, Seq<u8>)>::empty());
        env
    }

    /// How many variables there are.
    pub fn len(&self) -> (count: usize)
        ensures
            count == self@.len(),
            names_differ(self@),
    {
        proof {
            use_type_invariant(self);
        }
        self.vars.len()
    }

    /// The index of the variable called `name`, or the number of variables
    /// where there is none.
    fn find(vars: &Vec<EnvVar>, name: &Vec<u8>) -> (index: usize)
        ensures
            index <= vars@.len(),
            index < vars@.len() ==> vars@[index as int].name@ == name@,
            forall|j: int| 0 <= j < index ==> (#[trigger] vars@[j]).name@ != name@,
    {
        let mut i: usize = 0;
        while i < vars.len()
            invariant
                i <= vars@.len(),
                forall|j: int| 0 <= j < i ==> (#[trigger] vars@[j]).name@ != name@,
            decreases vars@.len() - i,
        {
            if bytes::same_bytes(&vars[i].name, name) {
                return i;
            }
            i += 1;
        }
        i
    }

    /// Whether a variable called `name` is there.
    pub fn contains_key(&self, name: &Vec<u8>) -> (found: bool)
        ensures
            found == defines(self@, name@),
            found <==> exists|i: int| 0 <= i < self@.len() && (#[trigger] self@[i]).0 == name@,
    {
        let index = Self::find(&self.vars, name);
        proof {
            if index < self.vars@.len() {
                assert(self@[index as int].0 == name@);
            }
            assert forall|i: int| 0 <= i < self@.len() && (#[trigger] self@[i]).0
                == name@ implies index < self.vars@.len() by {
                assert(self.vars@[i].name@ == name@);
            }
        }
        index < self.vars.len()
    }

    /// Sets a variable: in its place when the name is there, else at the end.
    pub fn insert(&mut self, name: Vec<u8>, value: Vec<u8>)
        ensures
            defines(old(self)@, name@) ==> final(self)@ == old(self)@.update(
                position(old(self)@, name@),
                (name@, value@),
            ),
            !defines(old(self)@, name@) ==> final(self)@ == old(self)@.push((name@, value@)),
            names_differ(final(self)@),
            forall|i: int|
                0 <= i < old(self)@.len() ==> final(self)@[i] == if (#[trigger] old(self)@[i]).0
                    == name@ {
                    (name@, value@)
                } else {
                    old(self)@[i]
                },
            (exists|i: int| 0 <= i < old(self)@.len() && (#[trigger] old(self)@[i]).0 == name@)
                ==> final(self)@.len() == old(self)@.len(),
            (forall|i: int| 0 <= i < old(self)@.len() ==> (#[trigger] old(self)@[i]).0 != name@)
                ==> final(self)@.len() == old(self)@.len() + 1 && final(self)@.last() == (
                name@,
                value@,
            ),
    {
        proof {
            use_type_invariant(&*self);
        }
        let ghost before = self@;
        let mut vars: Vec<EnvVar> = Vec::new();
        std::mem::swap(&mut vars, &mut self.vars);
        let index = Self::find(&vars, &name);
        let var = EnvVar { name, value };
        if index < vars.len() {
            assert(before[index as int].0 == name@);
            let ghost old_vars = vars@;
            vars[index] = var;
            assert(pairs(vars@) =~= before.update(index as int, (name@, value@)));
        } else {
            assert forall|i: int| 0 <= i < before.len() implies (#[trigger] before[i]).0
                != name@ by {
                assert(vars@[i].name@ != name@);
            }
            vars.push(var);
            assert(pairs(vars@) =~= before.push((name@, value@)));
        }
        self.vars = vars;
    }

    /// Offers `vars` in order. A variable is taken when its name is not there
    /// yet and the filter, where there is one, accepts the name.
    pub fn inherit<F: Fn(&Vec<u8>) -> bool>(&mut self, vars: Vec<EnvVar>, filter: &Option<F>)
        requires
            can_be_asked(*filter),
        ensures
            exists|accepted: Seq<bool>|
                #![trigger inherited(old(self)@, pairs(vars@), accepted)]
                answered_by(*filter, old(self)@, vars@, accepted) && final(self)@ == inherited(
                    old(self)@,
                    pairs(vars@),
                    accepted,
                ),
            names_differ(final(self)@),
    {
        proof {
            use_type_invariant(&*self);
        }
        let ghost env = self@;
        let ghost mut accepted: Seq<bool> = seq![];
        let ghost given = vars@;
        assert(pairs(given).take(0) =~= seq![]);
        for var in it: vars
            invariant
                it.seq() == given,
                can_be_asked(*filter),
                accepted.len() == it.index(),
                self@ == inherited(env, pairs(given).take(it.index() as int), accepted),
                names_differ(self@),
                forall|i: int|
                    0 <= i < it.index() && #[trigger] is_asked(env, pairs(given), accepted, i)
                        ==> match *filter {
                        Some(f) => call_ensures(f, (&given[i].name,), accepted[i]),
                        None => accepted[i],
                    },
        {
            let ghost n = it.index() as int;
            let ghost before = accepted;
            let answer: bool;
            let EnvVar { name, value } = var;
            if self.contains_key(&name) {
                answer = false;
            } else {
                answer = match filter {
                    Some(f) => f(&name),
                    None => true,
                };
                if answer {
                    self.insert(name, value);
                }
            }
            proof {
                accepted = before.push(answer);
                assert(pairs(given).take(n + 1).drop_last() =~= pairs(given).take(n));
                assert(accepted.drop_last() =~= before);
                assert forall|i: int|
                    0 <= i < n + 1 && #[trigger] is_asked(
                        env,
                        pairs(given),
                        accepted,
                        i,
                    ) implies match *filter {
                    Some(f) => call_ensures(f, (&given[i].name,), accepted[i]),
                    None => accepted[i],
                } by {
                    assert(accepted.take(i) =~= before.take(i));
                    assert(before.take(n) =~= before);
                    if i < n {
                        assert(is_asked(env, pairs(given), before, i));
                    }
                }
            }
        }
        proof {
            assert(pairs(given).take(given.len() as int) =~= pairs(given));
            assert(answered_by(*filter, env, given, accepted));
        }
    }

    /// The environment as `name=value` entries, or nothing where a name or a
    /// value holds a NUL byte.
    pub fn to_assignments(&self) -> (entries: Option<Vec<Vec<u8>>>)
        ensures
            entries is None == has_nul(self@),
            entries matches Some(list) ==> bytes::contents(list@) == assignments(self@),
            entries is None <==> exists|i: int|
                0 <= i < self@.len() && ((#[trigger] self@[i]).0.contains(bytes::NUL)
                    || self@[i].1.contains(bytes::NUL)),
            entries matches Some(list) ==> list@.len() == self@.len() && forall|i: int|
                0 <= i < self@.len() ==> list@[i]@ == (#[trigger] self@[i]).0
                    + seq![bytes::EQUALS] + self@[i].1,
    {
        let mut list: Vec<Vec<u8>> = Vec::new();
        let mut i: usize = 0;
        while i < self.vars.len()
            invariant
                i <= self.vars@.len(),
                list@.len() == i,
                forall|j: int|
                    0 <= j < i ==> (#[trigger] list@[j])@ == assignment(self@[j])
                        && !self@[j].0.contains(bytes::NUL) && !self@[j].1.contains(bytes::NUL),
            decreases self.vars@.len() - i,
        {
            let var = &self.vars[i];
            assert(self@[i as int] == var@);
            if bytes::contains_byte(&var.name, bytes::NUL) || bytes::contains_byte(&var.value, bytes::NUL) {
                return None;
            }
            let mut entry = bytes::copy_bytes(&var.name);
            entry.push(bytes::EQUALS);
            bytes::append_bytes(&mut entry, &var.value);
            list.push(entry);
            i += 1;
        }
        assert(bytes::contents(list@) =~= assignments(self@));
        assert forall|j: int| 0 <= j < self@.len() implies list@[j]@ == (#[trigger] self@[j]).0
            + seq![bytes::EQUALS] + self@[j].1 by {
            assert(list@[j]@ =~= self@[j].0 + seq![bytes::EQUALS] + self@[j].1);
        }
        assert forall|j: int| 0 <= j < self@.len() implies !(#[trigger] self@[j]).0.contains(bytes::NUL)
            && !self@[j].1.contains(bytes::NUL) by {
            assert(list@[j]@ == assignment(self@[j]));
        }
        Some(list)
    }
}

/// The variable number `i` is the first of its name.
pub open spec fn is_first_of_name(vars: Seq<(Seq<u8>, Seq<u8>)>, i: int) -> bool {
    forall|j: int| 0 <= j < i ==> (#[trigger] vars[j]).0 != vars[i].0
}

/// What a child inherits through a filter that always says the same of a
/// name: the variables set for it stay as they are and come first, and of the
/// variables around it those whose names were not set and which the filter
/// accepts, each with the first value offered.
pub proof fn law_inherited_variables(
    env: Seq<(Seq<u8>, Seq<u8>)>,
    vars: Seq<(Seq<u8>, Seq<u8>)>,
    accepted: Seq<bool>,
    accepts: spec_fn(Seq<u8>) -> bool,
)
    requires
        names_differ(env),
        accepted.len() == vars.len(),
        forall|i: int|
            0 <= i < vars.len() && #[trigger] is_asked(env, vars, accepted, i) ==> accepted[i]
                == accepts(vars[i].0),
    ensures
        names_differ(inherited(env, vars, accepted)),
        env.is_prefix_of(inherited(env, vars, accepted)),
        forall|name: Seq<u8>| #[trigger]
            defines(inherited(env, vars, accepted), name) <==> defines(env, name) || (accepts(name)
                && defines(vars, name)),
        forall|i: int|
            0 <= i < vars.len() && !defines(env, (#[trigger] vars[i]).0) && accepts(vars[i].0)
                && is_first_of_name(vars, i) ==> inherited(env, vars, accepted).contains(vars[i]),
    decreases vars.len(),
{
    let result = inherited(env, vars, accepted);
    if vars.len() == 0 {
        assert forall|name: Seq<u8>| #[trigger] defines(result, name) <==> defines(env, name) || (
        accepts(name) && defines(vars, name)) by {}
    } else {
        let n = vars.len() - 1;
        let fewer = vars.drop_last();
        let answers = accepted.drop_last();
        assert(fewer =~= vars.take(n));
        assert(answers =~= accepted.take(n));
        assert forall|i: int|
            0 <= i < fewer.len() && #[trigger] is_asked(env, fewer, answers, i) implies answers[i]
            == accepts(fewer[i].0) by {
            assert(fewer.take(i) =~= vars.take(i));
            assert(answers.take(i) =~= accepted.take(i));
            assert(is_asked(env, vars, accepted, i));
        }
        law_inherited_variables(env, fewer, answers, accepts);
        let before = inherited(env, fewer, answers);
        let last = vars.last();
        if !defines(before, last.0) {
            assert(is_asked(env, vars, accepted, n));
        }
        assert forall|name: Seq<u8>| #[trigger] defines(result, name) <==> defines(env, name) || (
        accepts(name) && defines(vars, name)) by {
            assert(defines(before, name) <==> defines(env, name) || (accepts(name) && defines(
                fewer,
                name,
            )));
            if defines(fewer, name) {
                let i = position(fewer, name);
                assert(vars[i].0 == name);
            }
            if defines(vars, name) {
                let i = position(vars, name);
                if i < n {
                    assert(fewer[i].0 == name);
                }
            }
            if defines(before, name) {
                let i = position(before, name);
                assert(result[i].0 == name);
            }
            if defines(result, name) {
                let i = position(result, name);
                if i < before.len() {
                    assert(before[i].0 == name);
                }
            }
            if result.len() > before.len() && name == last.0 {
                assert(result[before.len() as int].0 == name);
            }
            if name == last.0 {
                assert(vars[n].0 == name);
            }
        }
        assert forall|i: int|
            0 <= i < vars.len() && !defines(env, (#[trigger] vars[i]).0) && accepts(vars[i].0)
                && is_first_of_name(vars, i) implies result.contains(vars[i]) by {
            if i < n {
                assert(fewer[i] == vars[i]);
                assert(is_first_of_name(fewer, i));
                assert(before.contains(fewer[i]));
                let k = choose|k: int| 0 <= k < before.len() && before[k] == fewer[i];
                assert(result[k] == vars[i]);
            } else {
                if defines(before, last.0) {
                    assert(defines(fewer, last.0));
                    let j = position(fewer, last.0);
                    assert(vars[j].0 == last.0);
                    assert(false);
                }
                assert(result[before.len() as int] == last);
            }
        }
    }
}

/// No entry handed to a new process holds a NUL byte, unless a name or a value
/// did.
pub proof fn law_assignments_hold_no_nul(env: Seq<(Seq<u8>, Seq<u8>)>, i: int)
    requires
        !has_nul(env),
        0 <= i < env.len(),
    ensures
        !assignments(env)[i].contains(bytes::NUL),
{
    let entry = assignments(env)[i];
    if entry.contains(bytes::NUL) {
        let k = choose|k: int| 0 <= k < entry.len() && entry[k] == bytes::NUL;
        if k < env[i].0.len() {
            assert(env[i].0[k] == bytes::NUL);
        } else if k > env[i].0.len() {
            assert(env[i].1[k - env[i].0.len() - 1] == bytes::NUL);
        }
    }
}

/// Every variable of a child was set for it or stands around it, name and value
/// together.
pub proof fn law_every_variable_has_a_source(
    env: Seq<(Seq<u8>, Seq<u8>)>,
    vars: Seq<(Seq<u8>, Seq<u8>)>,
    accepted: Seq<bool>,
    k: int,
)
    requires
        0 <= k < inherited(env, vars, accepted).len(),
    ensures
        k < env.len() ==> inherited(env, vars, accepted)[k] == env[k],
        ({
            ||| exists|i: int| 0 <= i < env.len() && env[i] == inherited(env, vars, accepted)[k]
            ||| exists|i: int| 0 <= i < vars.len() && vars[i] == inherited(env, vars, accepted)[k]
        }),
    decreases vars.len(),
{
    if vars.len() == 0 {
        assert(env[k] == inherited(env, vars, accepted)[k]);
    } else {
        let fewer = vars.drop_last();
        let before = inherited(env, fewer, accepted.drop_last());
        lemma_set_variables_stay(env, fewer, accepted.drop_last());
        if k < before.len() {
            law_every_variable_has_a_source(env, fewer, accepted.drop_last(), k);
            if !(exists|i: int| 0 <= i < env.len() && env[i] == before[k]) {
                let i = choose|i: int| 0 <= i < fewer.len() && fewer[i] == before[k];
                assert(vars[i] == before[k]);
            }
        } else {
            assert(vars[vars.len() - 1] == inherited(env, vars, accepted)[k]);
        }
    }
}

/// What is inherited does not shorten the list.
proof fn lemma_set_variables_stay(
    env: Seq<(Seq<u8>, Seq<u8>)>,
    vars: Seq<(Seq<u8>, Seq<u8>)>,
    accepted: Seq<bool>,
)
    ensures
        inherited(env, vars, accepted).len() >= env.len(),
    decreases vars.len(),
{
    if vars.len() > 0 {
        lemma_set_variables_stay(env, vars.drop_last(), accepted.drop_last());
    }
}

/// What a child inherits, whatever the filter says. The variables set for it
/// come first and stay as they are. Every other one stands around it, with its
/// value, has a name that no variable before it has, and was accepted where
/// there is a filter. A name around it is missing only where the filter refused
/// it.
pub proof fn law_the_filter_is_obeyed<F: Fn(&Vec<u8>) -> bool>(
    filter: Option<F>,
    env: Seq<(Seq<u8>, Seq<u8>)>,
    vars: Seq<EnvVar>,
    accepted: Seq<bool>,
)
    requires
        answered_by(filter, env, vars, accepted),
    ensures
        ({
            let result = inherited(env, pairs(vars), accepted);
            &&& result.len() >= env.len()
            &&& forall|k: int| 0 <= k < env.len() ==> #[trigger] result[k] == env[k]
            &&& forall|k: int|
                env.len() <= k < result.len() ==> (exists|i: int|
                    0 <= i < vars.len() && (#[trigger] vars[i]).name@ == (#[trigger] result[k]).0
                        && vars[i].value@ == result[k].1 && (filter matches Some(f)
                        ==> call_ensures(f, (&vars[i].name,), true)))
            &&& forall|j: int, k: int|
                0 <= j < k && env.len() <= k < result.len() ==> (#[trigger] result[j]).0 != (
                #[trigger] result[k]).0
            &&& forall|i: int|
                0 <= i < vars.len() ==> (exists|k: int|
                    0 <= k < result.len() && (#[trigger] result[k]).0 == (
                    #[trigger] vars[i]).name@) || (filter matches Some(f) && call_ensures(
                    f,
                    (&vars[i].name,),
                    false,
                ))
        }),
    decreases vars.len(),
{
    let result = inherited(env, pairs(vars), accepted);
    if vars.len() > 0 {
        let n = vars.len() - 1;
        let fewer = vars.drop_last();
        let answers = accepted.drop_last();
        let all = pairs(vars);
        assert(pairs(fewer) =~= all.drop_last());
        assert(all.take(n) =~= pairs(fewer));
        assert(answers =~= accepted.take(n));
        assert forall|i: int|
            0 <= i < fewer.len() && #[trigger] is_asked(
                env,
                pairs(fewer),
                answers,
                i,
            ) implies match filter {
            Some(f) => call_ensures(f, (&fewer[i].name,), answers[i]),
            None => answers[i],
        } by {
            assert(pairs(fewer).take(i) =~= all.take(i));
            assert(answers.take(i) =~= accepted.take(i));
            assert(pairs(fewer)[i] == all[i]);
            assert(is_asked(env, all, accepted, i));
            assert(fewer[i] == vars[i]);
        }
        law_the_filter_is_obeyed(filter, env, fewer, answers);
        let before = inherited(env, pairs(fewer), answers);
        let last = vars[n];
        assert(all.last() == last@);
        if !defines(before, last.name@) {
            assert(is_asked(env, all, accepted, n));
        }
        assert forall|k: int| env.len() <= k < result.len() implies (exists|i: int|
            0 <= i < vars.len() && (#[trigger] vars[i]).name@ == (#[trigger] result[k]).0
                && vars[i].value@ == result[k].1 && (filter matches Some(f) ==> call_ensures(
                f,
                (&vars[i].name,),
                true,
            ))) by {
            if k < before.len() {
                assert(result[k] == before[k]);
                let i = choose|i: int|
                    0 <= i < fewer.len() && (#[trigger] fewer[i]).name@ == before[k].0
                        && fewer[i].value@ == before[k].1 && (filter matches Some(f)
                        ==> call_ensures(f, (&fewer[i].name,), true));
                assert(vars[i] == fewer[i]);
            } else {
                assert(result[k] == last@);
                assert(vars[n].name@ == result[k].0);
            }
        }
        assert forall|j: int, k: int|
            0 <= j < k && env.len() <= k < result.len() implies (#[trigger] result[j]).0 != (
        #[trigger] result[k]).0 by {
            assert(result[j] == before[j]);
            if k < before.len() {
                assert(result[k] == before[k]);
            }
        }
        assert forall|i: int| 0 <= i < vars.len() implies (exists|k: int|
            0 <= k < result.len() && (#[trigger] result[k]).0 == (#[trigger] vars[i]).name@) || (
        filter matches Some(f) && call_ensures(f, (&vars[i].name,), false)) by {
            if i < n {
                assert(fewer[i] == vars[i]);
                if exists|k: int| 0 <= k < before.len() && (#[trigger] before[k]).0 == fewer[i].name@ {
                    let k = choose|k: int|
                        0 <= k < before.len() && (#[trigger] before[k]).0 == fewer[i].name@;
                    assert(result[k].0 == vars[i].name@);
                }
            } else if defines(before, last.name@) {
                let k = position(before, last.name@);
                assert(result[k].0 == last.name@);
            } else if accepted[n] {
                assert(result[before.len() as int].0 == last.name@);
            }
        }
    }
}

/// Without a filter everything is inherited but what was set: every variable is
/// there under its name, and one whose name was not set has the value that was
/// offered first.
pub proof fn law_without_a_filter_all_is_inherited<F: Fn(&Vec<u8>) -> bool>(
    env: Seq<(Seq<u8>, Seq<u8>)>,
    vars: Seq<EnvVar>,
    accepted: Seq<bool>,
    i: int,
)
    requires
        answered_by(None::<F>, env, vars, accepted),
        0 <= i < vars.len(),
        forall|j: int| 0 <= j < env.len() ==> (#[trigger] env[j]).0 != vars[i].name@,
        forall|j: int| 0 <= j < i ==> (#[trigger] vars[j]).name@ != vars[i].name@,
    ensures
        exists|k: int|
            env.len() <= k < inherited(env, pairs(vars), accepted).len() && #[trigger] inherited(
                env,
                pairs(vars),
                accepted,
            )[k] == (vars[i].name@, vars[i].value@),
{
    let all = pairs(vars);
    let part = inherited(env, all.take(i), accepted.take(i));
    assert(is_asked(env, all, accepted, i)) by {
        if defines(part, all[i].0) {
            let k = position(part, all[i].0);
            law_every_variable_has_a_source(env, all.take(i), accepted.take(i), k);
            if exists|j: int| 0 <= j < env.len() && env[j] == part[k] {
                let j = choose|j: int| 0 <= j < env.len() && env[j] == part[k];
                assert(env[j].0 == vars[i].name@);
            } else {
                let j = choose|j: int| 0 <= j < all.take(i).len() && all.take(i)[j] == part[k];
                assert(vars[j].name@ == vars[i].name@);
            }
        }
    }
    assert(all.take(i + 1).drop_last() =~= all.take(i));
    assert(accepted.take(i + 1).drop_last() =~= accepted.take(i));
    let next = inherited(env, all.take(i + 1), accepted.take(i + 1));
    assert(next == part.push(all[i]));
    lemma_set_variables_stay(env, all.take(i), accepted.take(i));
    lemma_inherited_stays(env, all, accepted, i + 1, vars.len() as int);
    assert(all.take(vars.len() as int) =~= all);
    assert(accepted.take(vars.len() as int) =~= accepted);
    let whole = inherited(env, all, accepted);
    assert(whole.subrange(0, next.len() as int)[part.len() as int] == next[part.len() as int]);
    assert(whole[part.len() as int] == all[i]);
}

/// What was inherited after the first `a` offers stays in its place.
proof fn lemma_inherited_stays(
    env: Seq<(Seq<u8>, Seq<u8>)>,
    vars: Seq<(Seq<u8>, Seq<u8>)>,
    accepted: Seq<bool>,
    a: int,
    b: int,
)
    requires
        accepted.len() == vars.len(),
        0 <= a <= b <= vars.len(),
    ensures
        inherited(env, vars.take(a), accepted.take(a)).is_prefix_of(
            inherited(env, vars.take(b), accepted.take(b)),
        ),
    decreases b - a,
{
    if a < b {
        lemma_inherited_stays(env, vars, accepted, a, b - 1);
        assert(vars.take(b).drop_last() =~= vars.take(b - 1));
        assert(accepted.take(b).drop_last() =~= accepted.take(b - 1));
        let x = inherited(env, vars.take(a), accepted.take(a));
        let z = inherited(env, vars.take(b), accepted.take(b));
        assert(x =~= z.subrange(0, x.len() as int));
    } else {
        let x = inherited(env, vars.take(a), accepted.take(a));
        assert(x =~= x.subrange(0, x.len() as int));
    }
}

/// An entry is the name, an equals sign and the value.
pub proof fn law_an_entry_holds_name_and_value(env: Seq<(Seq<u8>, Seq<u8>)>, i: int)
    requires
        0 <= i < env.len(),
    ensures
        assignments(env).len() == env.len(),
        assignments(env)[i].len() == env[i].0.len() + 1 + env[i].1.len(),
        assignments(env)[i].take(env[i].0.len() as int) == env[i].0,
        assignments(env)[i][env[i].0.len() as int] as char == '=',
        assignments(env)[i].skip(env[i].0.len() + 1int) == env[i].1,
{
    assert(assignments(env)[i].take(env[i].0.len() as int) =~= env[i].0);
    assert(assignments(env)[i].skip(env[i].0.len() + 1int) =~= env[i].1);
}

} // verus!
