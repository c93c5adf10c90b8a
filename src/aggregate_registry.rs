//! The aggregates of an application by name, and the routing of commands to them.
use crate::aggregate::AggregateDefinition;
use crate::error::WorkerError;
use crate::named_map::NamedMap;
use vstd::prelude::*;

verus! {

/// Whether aggregate `def` handles command `c`.
pub open spec fn handles<H>(def: AggregateDefinition<H>, c: Seq<char>) -> bool {
    def.command_handlers()@.contains_key(c)
}

/// Each definition is well formed and stored under its own name, and no command is
/// handled by two aggregates.
pub open spec fn registry_map_ok<H>(m: Map<Seq<char>, AggregateDefinition<H>>) -> bool {
    &&& forall|a: Seq<char>| #[trigger] m.contains_key(a) ==> m[a].wf() && m[a].name_view() == a
    &&& forall|a: Seq<char>, b: Seq<char>, c: Seq<char>|
        #![trigger handles(m[a], c), handles(m[b], c)]
        m.contains_key(a) && m.contains_key(b) && a != b && handles(m[a], c) ==> !handles(m[b], c)
}

/// Aggregate definitions by the name of their type.
pub struct TheAggregateRegistry<H> {
    handlers: NamedMap<AggregateDefinition<H>>,
}

/// Creates an empty registry.
pub fn empty_aggregate_registry<H>() -> (r: TheAggregateRegistry<H>)
    ensures
        r.wf(),
        r@ == Map::<Seq<char>, AggregateDefinition<H>>::empty(),
{
    TheAggregateRegistry { handlers: NamedMap::new() }
}

impl<H> TheAggregateRegistry<H> {
    /// Each definition is well formed and stored under its own name, and no command
    /// is handled by two aggregates.
    pub closed spec fn wf(&self) -> bool {
        &&& self.handlers.wf()
        &&& registry_map_ok(self.handlers@)
    }

    /// The definitions by name.
    pub closed spec fn view(&self) -> Map<Seq<char>, AggregateDefinition<H>> {
        self.handlers@
    }

    /// The names of the aggregates, in the order of registration.
    pub closed spec fn names(&self) -> Seq<Seq<char>> {
        self.handlers.names()
    }

    /// Whether some registered aggregate handles command `c`.
    pub open spec fn claims(&self, c: Seq<char>) -> bool {
        exists|a: Seq<char>| self@.contains_key(a) && #[trigger] handles(self@[a], c)
    }

    /// Whether a registered aggregate of a name other than `name` handles command `c`.
    pub open spec fn claims_other(&self, c: Seq<char>, name: Seq<char>) -> bool {
        exists|a: Seq<char>| self@.contains_key(a) && a != name && #[trigger] handles(self@[a], c)
    }

    /// The position of an aggregate other than `except` that handles command `c`, if any.
    fn other_owner_of(&self, c: &str, except: &str) -> (r: Option<usize>)
        requires
            self.wf(),
        ensures
            r matches Some(i) ==> i < self.names().len() && self.names()[i as int] != except@ && handles(
                self@[self.names()[i as int]],
                c@,
            ),
            r is None <==> !self.claims_other(c@, except@),
    {
        proof {
            self.handlers.lemma_names();
        }
        let n = self.handlers.len();
        let mut i: usize = 0;
        while i < n
            invariant
                self.wf(),
                n == self.names().len(),
                i <= n,
                forall|k: Seq<char>| #[trigger] self@.contains_key(k) <==> self.names().contains(k),
                forall|j: int|
                    0 <= j < i ==> #[trigger] self.names()[j] == except@ || !handles(self@[self.names()[j]], c@),
            decreases n - i,
        {
            if !crate::named_map::same_text(self.handlers.name_at(i).as_str(), except)
                && self.handlers.value_at(i).command_handler(c).is_some() {
                assert(self@.contains_key(self.names()[i as int]) && handles(self@[self.names()[i as int]], c@));
                return Some(i);
            }
            i += 1;
        }
        proof {
            if self.claims_other(c@, except@) {
                let a = choose|a: Seq<char>| self@.contains_key(a) && a != except@ && #[trigger] handles(self@[a], c@);
                assert(self.names().contains(a));
                let j = choose|j: int| 0 <= j < self.names().len() && self.names()[j] == a;
                assert(self.names()[j] == except@ || !handles(self@[self.names()[j]], c@));
            }
        }
        None
    }

    /// Registers an aggregate under its name, replacing one registered under the same
    /// name. Fails with `ConflictingCommand`, naming one of its commands, where an
    /// aggregate of another name handles that command.
    pub fn insert(&mut self, aggregate: AggregateDefinition<H>) -> (r: Result<(), WorkerError>)
        requires
            old(self).wf(),
            aggregate.wf(),
        ensures
            final(self).wf(),
            r is Err <==> exists|c: Seq<char>|
                handles(aggregate, c) && #[trigger] old(self).claims_other(c, aggregate.name_view()),
            r matches Err(e) ==> (e matches WorkerError::ConflictingCommand { command } && handles(
                aggregate,
                command@,
            ) && old(self).claims_other(command@, aggregate.name_view())),
            r is Err ==> *final(self) == *old(self),
            r is Ok ==> final(self)@ == old(self)@.insert(aggregate.name_view(), aggregate),
            r is Ok && old(self)@.contains_key(aggregate.name_view()) ==> final(self).names() == old(self).names(),
            r is Ok && !old(self)@.contains_key(aggregate.name_view()) ==> final(self).names() == old(
                self,
            ).names().push(aggregate.name_view()),
    {
        let name = aggregate.name();
        let commands = aggregate.command_names();
        proof {
            aggregate.lemma_wf();
            aggregate.command_handlers().lemma_wf();
        }
        let mut i: usize = 0;
        while i < commands.len()
            invariant
                self.wf(),
                *self == *old(self),
                name@ == aggregate.name_view(),
                aggregate.wf(),
                commands@.len() == aggregate.command_handlers().names().len(),
                forall|j: int| 0 <= j < commands@.len() ==> #[trigger] commands@[j]@ == aggregate.command_handlers().names()[j],
                forall|k: Seq<char>| #[trigger] aggregate.command_handlers()@.contains_key(k) <==> aggregate.command_handlers().names().contains(k),
                i <= commands@.len(),
                forall|j: int|
                    0 <= j < i ==> !self.claims_other(#[trigger] aggregate.command_handlers().names()[j], name@),
            decreases commands@.len() - i,
        {
            if self.other_owner_of(commands[i].as_str(), name.as_str()).is_some() {
                proof {
                    assert(aggregate.command_handlers().names().contains(commands@[i as int]@));
                }
                return Err(WorkerError::ConflictingCommand { command: commands[i].clone() });
            }
            i += 1;
        }
        proof {
            assert forall|c: Seq<char>| handles(aggregate, c) implies !#[trigger] self.claims_other(c, name@) by {
                let j = choose|j: int| 0 <= j < commands@.len() && aggregate.command_handlers().names()[j] == c;
            }
        }
        self.handlers.insert(name, aggregate);
        proof {
            let key = aggregate.name_view();
            assert forall|a: Seq<char>, b: Seq<char>, c: Seq<char>|
                self.handlers@.contains_key(a) && self.handlers@.contains_key(b) && a != b && handles(
                    self.handlers@[a],
                    c,
                ) implies !handles(self.handlers@[b], c) by {
                if a == key {
                    assert(!old(self).claims_other(c, key));
                    if handles(self.handlers@[b], c) {
                        assert(old(self)@.contains_key(b) && handles(old(self)@[b], c));
                    }
                } else if b == key {
                    assert(old(self)@.contains_key(a) && handles(old(self)@[a], c));
                    if handles(self.handlers@[b], c) {
                        assert(handles(aggregate, c));
                        assert(old(self).claims_other(c, key));
                    }
                }
            }
        }
        Ok(())
    }

    /// The definition registered under `name`.
    pub fn get(&self, name: &str) -> (r: Option<&AggregateDefinition<H>>)
        requires
            self.wf(),
        ensures
            r matches Some(d) ==> self@.contains_key(name@) && *d == self@[name@],
            r is None <==> !self@.contains_key(name@),
    {
        self.handlers.get(name)
    }

    /// The definition registered under `name`, to be used in place. The registry stays
    /// well formed where the definition keeps all but its cache and stays well formed.
    pub fn get_mut(&mut self, name: &str) -> (r: Option<&mut AggregateDefinition<H>>)
        requires
            old(self).wf(),
        ensures
            old(self)@.contains_key(name@) ==> (r matches Some(d) && *d == old(self)@[name@]
                && final(self)@ == old(self)@.insert(name@, *final(d)) && final(self).names() == old(self).names()
                && (final(d).wf() && final(d).same_but_cache(&old(self)@[name@]) ==> final(self).wf())),
            !old(self)@.contains_key(name@) ==> r is None && *final(self) == *old(self),
    {
        match self.handlers.position(name) {
            Some(i) => {
                proof {
                    self.handlers.lemma_names();
                }
                let ghost before = *self;
                proof {
                    assert forall|f: AggregateDefinition<H>| f.wf() && f.same_but_cache(&before@[name@]) implies #[trigger]
                        registry_map_ok(before@.insert(name@, f)) by {
                        let after = before@.insert(name@, f);
                        assert forall|a: Seq<char>, b: Seq<char>, c: Seq<char>|
                            after.contains_key(a) && after.contains_key(b) && a != b && handles(after[a], c) implies !handles(
                            after[b],
                            c,
                        ) by {
                            assert(handles(after[a], c) == handles(before@[a], c));
                            assert(handles(after[b], c) == handles(before@[b], c));
                        }
                    }
                }
                Some(self.handlers.value_at_mut(i))
            },
            None => None,
        }
    }
}

/// Some aggregate among the first `i` in the order of registration handles `x`.
pub open spec fn claimed_before<H>(r: TheAggregateRegistry<H>, i: int, x: Seq<char>) -> bool {
    exists|ai: int| 0 <= ai < i && #[trigger] handles(r@[r.names()[ai]], x)
}

impl<H> TheAggregateRegistry<H> {
    /// Every name occurs once and the names are the keys.
    pub proof fn lemma_wf(&self)
        requires
            self.wf(),
        ensures
            self.names().no_duplicates(),
            forall|k: Seq<char>| #[trigger] self@.contains_key(k) <==> self.names().contains(k),
            registry_map_ok(self@),
    {
        self.handlers.lemma_names();
    }

    /// Appends the name of every command of every aggregate to `commands`, each once,
    /// and maps each of them to the name of its aggregate in
    /// `command_to_aggregate_mapping`, leaving other names there as they were.
    pub fn register_commands(&self, commands: &mut Vec<String>, command_to_aggregate_mapping: &mut NamedMap<String>)
        requires
            self.wf(),
            old(command_to_aggregate_mapping).wf(),
        ensures
            final(commands)@.len() >= old(commands)@.len(),
            final(commands)@.subrange(0, old(commands)@.len() as int) == old(commands)@,
            ({
                let added = final(commands)@.subrange(old(commands)@.len() as int, final(commands)@.len() as int).map_values(
                    |s: String| s@,
                );
                &&& added.no_duplicates()
                &&& forall|x: Seq<char>| #[trigger] added.contains(x) <==> self.claims(x)
            }),
            final(command_to_aggregate_mapping).wf(),
            forall|a: Seq<char>, x: Seq<char>|
                self@.contains_key(a) && #[trigger] handles(self@[a], x) ==> final(command_to_aggregate_mapping)@.contains_key(x) && final(command_to_aggregate_mapping)@[x]@ == a,
            forall|x: Seq<char>|
                !self.claims(x) ==> #[trigger] final(command_to_aggregate_mapping)@.contains_key(x) == old(command_to_aggregate_mapping)@.contains_key(x) && (final(command_to_aggregate_mapping)@.contains_key(x) ==> final(command_to_aggregate_mapping)@[x] == old(command_to_aggregate_mapping)@[x]),
    {
        proof {
            self.lemma_wf();
        }
        let ghost start = commands@.len() as int;
        let ghost mut out: Seq<Seq<char>> = Seq::empty();
        let n = self.handlers.len();
        let mut i: usize = 0;
        while i < n
            invariant
                self.wf(),
                n == self.names().len(),
                i <= n,
                self.names().no_duplicates(),
                forall|k: Seq<char>| #[trigger] self@.contains_key(k) <==> self.names().contains(k),
                registry_map_ok(self@),
                start == old(commands)@.len(),
                commands@.len() == start + out.len(),
                commands@.subrange(0, start) == old(commands)@,
                forall|k: int| 0 <= k < out.len() ==> #[trigger] commands@[start + k]@ == out[k],
                out.no_duplicates(),
                forall|x: Seq<char>| #[trigger] out.contains(x) <==> claimed_before(*self, i as int, x),
                command_to_aggregate_mapping.wf(),
                forall|ai: int, x: Seq<char>|
                    0 <= ai < i && #[trigger] handles(self@[self.names()[ai]], x) ==> command_to_aggregate_mapping@.contains_key(x)
                        && command_to_aggregate_mapping@[x]@ == self.names()[ai],
                forall|x: Seq<char>|
                    !out.contains(x) ==> #[trigger] command_to_aggregate_mapping@.contains_key(x) == old(command_to_aggregate_mapping)@.contains_key(x) && (command_to_aggregate_mapping@.contains_key(x) ==> command_to_aggregate_mapping@[x] == old(command_to_aggregate_mapping)@[x]),
            decreases n - i,
        {
            let aggregate_name = self.handlers.name_at(i);
            let aggregate = self.handlers.value_at(i);
            let ghost a = self.names()[i as int];
            assert(self.names().contains(a));
            let names = aggregate.command_names();
            proof {
                aggregate.lemma_wf();
                aggregate.command_handlers().lemma_wf();
            }
            let ghost cmds = aggregate.command_handlers().names();
            let ghost out_before = out;
            let m = names.len();
            let mut j: usize = 0;
            while j < m
                invariant
                    self.wf(),
                    n == self.names().len(),
                    i < n,
                    a == self.names()[i as int],
                    aggregate_name@ == a,
                    self@.contains_key(a),
                    *aggregate == self@[a],
                    self.names().no_duplicates(),
                    forall|k: Seq<char>| #[trigger] self@.contains_key(k) <==> self.names().contains(k),
                    registry_map_ok(self@),
                    m == names@.len(),
                    m == cmds.len(),
                    cmds == aggregate.command_handlers().names(),
                    cmds.no_duplicates(),
                    forall|k: Seq<char>| #[trigger] aggregate.command_handlers()@.contains_key(k) <==> cmds.contains(k),
                    forall|k: int| 0 <= k < m ==> #[trigger] names@[k]@ == cmds[k],
                    j <= m,
                    out == out_before + cmds.subrange(0, j as int),
                    forall|x: Seq<char>| #[trigger] out_before.contains(x) <==> claimed_before(*self, i as int, x),
                    out_before.no_duplicates(),
                    start == old(commands)@.len(),
                    commands@.len() == start + out.len(),
                    commands@.subrange(0, start) == old(commands)@,
                    forall|k: int| 0 <= k < out.len() ==> #[trigger] commands@[start + k]@ == out[k],
                    out.no_duplicates(),
                    command_to_aggregate_mapping.wf(),
                    forall|ai: int, x: Seq<char>|
                        0 <= ai < i && #[trigger] handles(self@[self.names()[ai]], x) ==> command_to_aggregate_mapping@.contains_key(x)
                            && command_to_aggregate_mapping@[x]@ == self.names()[ai],
                    forall|k: int| 0 <= k < j ==> command_to_aggregate_mapping@.contains_key(#[trigger] cmds[k])
                        && command_to_aggregate_mapping@[cmds[k]]@ == a,
                    forall|x: Seq<char>|
                        !out.contains(x) ==> #[trigger] command_to_aggregate_mapping@.contains_key(x) == old(command_to_aggregate_mapping)@.contains_key(x) && (command_to_aggregate_mapping@.contains_key(x) ==> command_to_aggregate_mapping@[x] == old(command_to_aggregate_mapping)@[x]),
                decreases m - j,
            {
                let ghost x = cmds[j as int];
                proof {
                    // `x` is new: no earlier aggregate handles it, and it comes once in `cmds`.
                    assert(cmds.contains(x));
                    assert(handles(self@[a], x));
                    if out.contains(x) {
                        let k = choose|k: int| 0 <= k < out.len() && out[k] == x;
                        if k < out_before.len() {
                            assert(out_before.contains(x));
                            let ai = choose|ai: int| 0 <= ai < i && #[trigger] handles(self@[self.names()[ai]], x);
                            assert(self.names().contains(self.names()[ai]));
                            assert(self.names()[ai] != a);
                        } else {
                            assert(cmds[k - out_before.len()] == x);
                        }
                    }
                }
                let ghost cbefore = commands@;
                let c = names[j].clone();
                commands.push(c);
                assert(commands@ == cbefore.push(c));
                command_to_aggregate_mapping.insert(names[j].clone(), aggregate_name.clone());
                proof {
                    let new_out = out.push(x);
                    assert forall|y: Seq<char>| !new_out.contains(y) implies #[trigger] command_to_aggregate_mapping@.contains_key(y) == old(command_to_aggregate_mapping)@.contains_key(y) && (command_to_aggregate_mapping@.contains_key(y) ==> command_to_aggregate_mapping@[y] == old(command_to_aggregate_mapping)@[y]) by {
                        assert(new_out[out.len() as int] == x);
                        if out.contains(y) {
                            let k = choose|k: int| 0 <= k < out.len() && out[k] == y;
                            assert(new_out[k] == y);
                        }
                    }
                    assert(cmds.subrange(0, j as int + 1) =~= cmds.subrange(0, j as int).push(x));
                    assert(out_before + cmds.subrange(0, j as int + 1) =~= new_out);
                    assert(commands@.subrange(0, start) =~= cbefore.subrange(0, start));
                    assert forall|k: int| 0 <= k < new_out.len() implies #[trigger] commands@[start + k]@ == new_out[k] by {
                        if k < out.len() {
                            assert(commands@[start + k] == cbefore[start + k]);
                        } else {
                            assert(commands@[start + k]@ == names@[j as int]@);
                        }
                    }
                    out = new_out;
                }
                j += 1;
            }
            proof {
                assert(cmds.subrange(0, m as int) =~= cmds);
                assert forall|x: Seq<char>| #[trigger] out.contains(x) <==> claimed_before(*self, i as int + 1, x) by {
                    if out.contains(x) {
                        let k = choose|k: int| 0 <= k < out.len() && out[k] == x;
                        if k < out_before.len() {
                            assert(out_before.contains(x));
                            let ai = choose|ai: int| 0 <= ai < i && #[trigger] handles(self@[self.names()[ai]], x);
                        } else {
                            assert(cmds.contains(x));
                            assert(handles(self@[self.names()[i as int]], x));
                        }
                    }
                    if claimed_before(*self, i as int + 1, x) {
                        let ai = choose|ai: int| 0 <= ai < i + 1 && #[trigger] handles(self@[self.names()[ai]], x);
                        if ai < i {
                            assert(out_before.contains(x));
                            let k = choose|k: int| 0 <= k < out_before.len() && out_before[k] == x;
                            assert(out[k] == x);
                        } else {
                            assert(cmds.contains(x));
                            let k = choose|k: int| 0 <= k < cmds.len() && cmds[k] == x;
                            assert(out[out_before.len() + k] == x);
                        }
                    }
                }
                assert forall|ai: int, x: Seq<char>|
                    0 <= ai < i + 1 && #[trigger] handles(self@[self.names()[ai]], x) implies command_to_aggregate_mapping@.contains_key(
                        x,
                    ) && command_to_aggregate_mapping@[x]@ == self.names()[ai] by {
                    if ai == i {
                        assert(cmds.contains(x));
                        let k = choose|k: int| 0 <= k < cmds.len() && cmds[k] == x;
                    }
                }
            }
            i += 1;
        }
        proof {
            let added = commands@.subrange(start, commands@.len() as int).map_values(|s: String| s@);
            assert forall|k: int| 0 <= k < out.len() implies added[k] == out[k] by {
                assert(added[k] == commands@[start + k]@);
            }
            assert(added =~= out);
            assert forall|x: Seq<char>| #[trigger] out.contains(x) <==> self.claims(x) by {
                if self.claims(x) {
                    let a = choose|a: Seq<char>| self@.contains_key(a) && #[trigger] handles(self@[a], x);
                    assert(self.names().contains(a));
                    let ai = choose|ai: int| 0 <= ai < self.names().len() && self.names()[ai] == a;
                    assert(handles(self@[self.names()[ai]], x));
                }
                if out.contains(x) {
                    let ai = choose|ai: int| 0 <= ai < n && #[trigger] handles(self@[self.names()[ai]], x);
                    assert(self.names().contains(self.names()[ai]));
                }
            }
            assert forall|a: Seq<char>, x: Seq<char>|
                self@.contains_key(a) && #[trigger] handles(self@[a], x) implies command_to_aggregate_mapping@.contains_key(x)
                    && command_to_aggregate_mapping@[x]@ == a by {
                assert(self.names().contains(a));
                let ai = choose|ai: int| 0 <= ai < self.names().len() && self.names()[ai] == a;
                assert(handles(self@[self.names()[ai]], x));
            }
        }
    }
}

/// Finds the aggregate that handles command `command_name`: the one the mapping
/// names, where it is registered. Fails with `CouldNotFindAggregateHandler` otherwise.
pub fn find_aggregate<H>(
    command_to_aggregate_mapping: &NamedMap<String>,
    registry: &TheAggregateRegistry<H>,
    command_name: &str,
) -> (r: Result<String, WorkerError>)
    requires
        command_to_aggregate_mapping.wf(),
        registry.wf(),
    ensures
        ({
            let m = command_to_aggregate_mapping@;
            if m.contains_key(command_name@) && registry@.contains_key(m[command_name@]@) {
                r matches Ok(a) && a@ == m[command_name@]@
            } else {
                r == Err::<String, WorkerError>(WorkerError::CouldNotFindAggregateHandler)
            }
        }),
{
    match command_to_aggregate_mapping.get(command_name) {
        Some(aggregate_name) => {
            if registry.get(aggregate_name.as_str()).is_some() {
                Ok(aggregate_name.clone())
            } else {
                Err(WorkerError::CouldNotFindAggregateHandler)
            }
        },
        None => Err(WorkerError::CouldNotFindAggregateHandler),
    }
}

} // verus!
