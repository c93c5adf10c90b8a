//! Registries that map a message type name to the handler for it.
use crate::error::WorkerError;
use crate::named_map::NamedMap;
use vstd::prelude::*;

verus! {

/// How the result of a handler reaches its caller.
#[derive(Clone, Debug, PartialEq, Eq)]
pub enum OutputMapping {
    /// The result is dropped: the handler has none, or it is ignored.
    Ignore,
    /// The result is handed back as it is.
    Identity,
    /// The result is converted by a wrapper that is told this type name.
    Mapped { response_type: String },
}

/// What the caller of a handler does with the handler's result.
#[derive(Clone, Debug, PartialEq, Eq)]
pub enum HandlerOutcome<R> {
    /// Nothing is handed back.
    NoOutput,
    /// The result is handed back as it is.
    Output(R),
    /// The result is handed to the wrapper together with the type name.
    Convert { response_type: String, value: R },
}

/// The handle of one registered handler: its name, the handler, and how its
/// result is handed back.
pub struct SubscriptionHandle<H> {
    pub name: String,
    pub handler: H,
    pub output: OutputMapping,
}

impl<H> SubscriptionHandle<H> {
    pub fn name(&self) -> (r: String)
        ensures
            r@ == self.name@,
    {
        self.name.clone()
    }

    /// The handler itself, to be invoked on the decoded message.
    pub fn handler(&self) -> (r: &H)
        ensures
            *r == self.handler,
    {
        &self.handler
    }

    /// Decides what becomes of a handler's result `result`.
    pub fn resolve<R>(&self, result: Option<R>) -> (r: HandlerOutcome<R>)
        ensures
            match (self.output, result) {
                (OutputMapping::Identity, Some(v)) => r == HandlerOutcome::Output(v),
                (OutputMapping::Mapped { response_type }, Some(v)) => r matches HandlerOutcome::Convert {
                    response_type: t,
                    value,
                } && t@ == response_type@ && value == v,
                _ => r == HandlerOutcome::<R>::NoOutput,
            },
    {
        match result {
            None => HandlerOutcome::NoOutput,
            Some(v) => match &self.output {
                OutputMapping::Ignore => HandlerOutcome::NoOutput,
                OutputMapping::Identity => HandlerOutcome::Output(v),
                OutputMapping::Mapped { response_type } => HandlerOutcome::Convert {
                    response_type: response_type.clone(),
                    value: v,
                },
            },
        }
    }
}

/// Handlers by the name of the message type they handle.
pub struct TheHandlerRegistry<H> {
    handlers: NamedMap<SubscriptionHandle<H>>,
}

/// Creates an empty registry.
pub fn empty_handler_registry<H>() -> (r: TheHandlerRegistry<H>)
    ensures
        r.wf(),
        r@ == Map::<Seq<char>, SubscriptionHandle<H>>::empty(),
        r.names() == Seq::<Seq<char>>::empty(),
{
    TheHandlerRegistry { handlers: NamedMap::new() }
}

impl<H> TheHandlerRegistry<H> {
    /// Every handle is stored under its own name.
    pub closed spec fn wf(&self) -> bool {
        &&& self.handlers.wf()
        &&& forall|k: Seq<char>| #[trigger] self.handlers@.contains_key(k) ==> self.handlers@[k].name@ == k
    }

    /// The handles by name.
    pub closed spec fn view(&self) -> Map<Seq<char>, SubscriptionHandle<H>> {
        self.handlers@
    }

    /// The names, in the order of registration.
    pub closed spec fn names(&self) -> Seq<Seq<char>> {
        self.handlers.names()
    }

    /// Each name occurs once, the names are the keys, and each handle carries its key.
    pub proof fn lemma_wf(&self)
        requires
            self.wf(),
        ensures
            self.names().no_duplicates(),
            forall|k: Seq<char>| #[trigger] self@.contains_key(k) <==> self.names().contains(k),
            forall|k: Seq<char>| #[trigger] self@.contains_key(k) ==> self@[k].name@ == k,
            self@.dom().finite(),
    {
        self.handlers.lemma_names();
    }

    fn insert_handle(&mut self, name: &str, handler: H, output: OutputMapping) -> (r: Result<(), WorkerError>)
        requires
            old(self).wf(),
        ensures
            final(self).wf(),
            old(self)@.contains_key(name@) ==> {
                &&& r matches Err(WorkerError::AlreadyRegistered { name: n }) && n@ == name@
                &&& final(self)@ == old(self)@
                &&& final(self).names() == old(self).names()
            },
            !old(self)@.contains_key(name@) ==> {
                &&& r is Ok
                &&& final(self)@.dom() == old(self)@.dom().insert(name@)
                &&& forall|k: Seq<char>| k != name@ ==> #[trigger] final(self)@[k] == old(self)@[k]
                &&& final(self)@[name@].name@ == name@
                &&& final(self)@[name@].handler == handler
                &&& final(self)@[name@].output == output
                &&& final(self).names() == old(self).names().push(name@)
            },
    {
        if self.handlers.contains_key(name) {
            return Err(WorkerError::AlreadyRegistered { name: name.to_owned() });
        }
        let handle = SubscriptionHandle { name: name.to_owned(), handler, output };
        self.handlers.insert(name.to_owned(), handle);
        Ok(())
    }
}

/// The outcome of registering `handler` under `name`: refused with `AlreadyRegistered`
/// where the name is taken, leaving the registry as it was; otherwise the registry
/// gains exactly that entry. What the entry hands back is stated apart.
pub open spec fn registered<H>(
    before: TheHandlerRegistry<H>,
    after: TheHandlerRegistry<H>,
    name: Seq<char>,
    handler: H,
    r: Result<(), WorkerError>,
) -> bool {
    &&& after.wf()
    &&& before@.contains_key(name) ==> {
        &&& r matches Err(WorkerError::AlreadyRegistered { name: n }) && n@ == name
        &&& after@ == before@
        &&& after.names() == before.names()
    }
    &&& !before@.contains_key(name) ==> {
        &&& r is Ok
        &&& after@.dom() == before@.dom().insert(name)
        &&& forall|k: Seq<char>| k != name ==> #[trigger] after@[k] == before@[k]
        &&& after@[name].name@ == name
        &&& after@[name].handler == handler
        &&& after.names() == before.names().push(name)
    }
}

impl<H> TheHandlerRegistry<H> {
    /// Registers a handler that produces no result.
    pub fn insert(&mut self, name: &str, handler: H) -> (r: Result<(), WorkerError>)
        requires
            old(self).wf(),
        ensures
            registered(*old(self), *final(self), name@, handler, r),
            r is Ok ==> final(self)@[name@].output == OutputMapping::Ignore,
    {
        self.insert_handle(name, handler, OutputMapping::Ignore)
    }

    /// Registers a handler whose result is dropped.
    pub fn insert_ignoring_output(&mut self, name: &str, handler: H) -> (r: Result<(), WorkerError>)
        requires
            old(self).wf(),
        ensures
            registered(*old(self), *final(self), name@, handler, r),
            r is Ok ==> final(self)@[name@].output == OutputMapping::Ignore,
    {
        self.insert_handle(name, handler, OutputMapping::Ignore)
    }

    /// Registers a handler whose result is handed back as it is.
    pub fn insert_with_output(&mut self, name: &str, handler: H) -> (r: Result<(), WorkerError>)
        requires
            old(self).wf(),
        ensures
            registered(*old(self), *final(self), name@, handler, r),
            r is Ok ==> final(self)@[name@].output == OutputMapping::Identity,
    {
        self.insert_handle(name, handler, OutputMapping::Identity)
    }

    /// Registers a handler whose result is converted by a wrapper told `response_type`.
    pub fn insert_with_mapped_output(&mut self, name: &str, handler: H, response_type: &str) -> (r: Result<(), WorkerError>)
        requires
            old(self).wf(),
        ensures
            registered(*old(self), *final(self), name@, handler, r),
            r is Ok ==> (final(self)@[name@].output matches OutputMapping::Mapped { response_type: t } && t@
                == response_type@),
    {
        self.insert_handle(name, handler, OutputMapping::Mapped { response_type: response_type.to_owned() })
    }

    /// The handle registered under `name`.
    pub fn get(&self, name: &str) -> (r: Option<&SubscriptionHandle<H>>)
        requires
            self.wf(),
        ensures
            r matches Some(h) ==> self@.contains_key(name@) && *h == self@[name@],
            r is None <==> !self@.contains_key(name@),
    {
        self.handlers.get(name)
    }

    /// The registered names, in the order of registration.
    pub fn names_in_order(&self) -> (r: Vec<String>)
        ensures
            r@.len() == self.names().len(),
            forall|i: int| 0 <= i < r@.len() ==> #[trigger] r@[i]@ == self.names()[i],
    {
        let mut r: Vec<String> = Vec::new();
        let n = self.handlers.len();
        let mut i: usize = 0;
        while i < n
            invariant
                i <= n,
                n == self.names().len(),
                r@.len() == i,
                forall|j: int| 0 <= j < i ==> #[trigger] r@[j]@ == self.names()[j],
            decreases n - i,
        {
            r.push(self.handlers.name_at(i).clone());
            i += 1;
        }
        r
    }
}

} // verus!
