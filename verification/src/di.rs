//! The container: it resolves a builder's declared dependencies from the
//! handles registered so far, runs the builder and registers the new handle.

use crate::typemap::TypeMap;
use std::any::TypeId;
use std::sync::Arc;
use std::sync::Mutex;
use vstd::prelude::*;

verus! {

/// `std::sync::Mutex`, carried through as an opaque value: what it guards can
/// only be reached by locking it, which this library never does.
#[verifier::external_type_specification]
#[verifier::external_body]
#[verifier::reject_recursive_types(T)]
pub struct ExMutex<T: ?Sized>(Mutex<T>);

/// A shared handle to a built service: many owners, exclusive access through
/// the lock. `made_from` records the value that the lock was made around when
/// the service was built; what the lock guards later is whatever its holders
/// have written since. `serial` numbers the builds of one container: the
/// handles of two builds differ in it, the clones of one handle do not.
#[verifier::reject_recursive_types(T)]
pub struct DIObj<T> {
    pub handle: Arc<Mutex<T>>,
    pub made_from: Ghost<T>,
    pub serial: Ghost<nat>,
}

/// Trusted: `Mutex::new` from std, which puts `obj` behind a fresh lock.
/// Nothing is claimed of the lock.
#[verifier::external_body]
fn guard<S>(obj: S) -> Mutex<S> {
    Mutex::new(obj)
}

/// Trusted: `Arc::clone` from std. The new pointer is another owner of the
/// same allocation, so it is the pointer it was cloned from.
#[verifier::external_body]
fn share<S>(handle: &Arc<Mutex<S>>) -> (other: Arc<Mutex<S>>)
    ensures
        other == *handle,
{
    Arc::clone(handle)
}

impl<T> Clone for DIObj<T> {
    /// Another owner of the same service: the same lock, not a copy of what
    /// it guards.
    fn clone(&self) -> (other: Self)
        ensures
            other == *self,
    {
        DIObj {
            handle: share(&self.handle),
            made_from: Ghost(self.made_from@),
            serial: Ghost(self.serial@),
        }
    }
}

/// The container: the handles of the services built so far, each under the key
/// it was registered with, and the number of services it has built.
#[verifier::reject_recursive_types(S)]
pub struct DIManager<S> {
    pub objs: TypeMap<DIObj<S>>,
    pub issued: Ghost<nat>,
}

impl<S> View for DIManager<S> {
    type V = Map<TypeId, DIObj<S>>;

    open spec fn view(&self) -> Map<TypeId, DIObj<S>> {
        self.objs@
    }
}

/// A dependency shape: a description of the handles that a builder needs, and
/// the rule that fetches them from a container.
pub trait GetInput<S>: Sized {
    /// What a builder receives once the shape is resolved.
    type Resolved;

    /// Every handle that the shape asks for is registered in `objs`.
    spec fn satisfied(&self, objs: Map<TypeId, DIObj<S>>) -> bool;

    /// The input that the shape resolves to against `objs`.
    spec fn resolved(&self, objs: Map<TypeId, DIObj<S>>) -> Self::Resolved;

    /// Resolves the shape against the handles registered in `manager`, reading
    /// only. Nothing is returned unless every dependency is there.
    fn get_input(&self, manager: &DIManager<S>) -> (input: Option<Self::Resolved>)
        requires
            manager.wf(),
        ensures
            input == if self.satisfied(manager@) {
                Some(self.resolved(manager@))
            } else {
                None
            },
    ;
}

/// The leaf shape: the handle registered under `key`.
pub struct Need {
    pub key: TypeId,
}

impl<S> GetInput<S> for Need {
    type Resolved = DIObj<S>;

    open spec fn satisfied(&self, objs: Map<TypeId, DIObj<S>>) -> bool {
        objs.contains_key(self.key)
    }

    open spec fn resolved(&self, objs: Map<TypeId, DIObj<S>>) -> DIObj<S> {
        objs[self.key]
    }

    fn get_input(&self, manager: &DIManager<S>) -> (input: Option<DIObj<S>>) {
        match manager.objs.get(self.key) {
            Some(handle) => Some(handle.clone()),
            None => None,
        }
    }
}

/// The empty shape: no dependency.
impl<S> GetInput<S> for () {
    type Resolved = ();

    open spec fn satisfied(&self, objs: Map<TypeId, DIObj<S>>) -> bool {
        true
    }

    open spec fn resolved(&self, objs: Map<TypeId, DIObj<S>>) -> () {
        ()
    }

    fn get_input(&self, manager: &DIManager<S>) -> (input: Option<()>) {
        Some(())
    }
}

/// One dependency, itself of any shape.
impl<S, D: GetInput<S>> GetInput<S> for (D,) {
    type Resolved = (D::Resolved,);

    open spec fn satisfied(&self, objs: Map<TypeId, DIObj<S>>) -> bool {
        self.0.satisfied(objs)
    }

    open spec fn resolved(&self, objs: Map<TypeId, DIObj<S>>) -> (D::Resolved,) {
        (self.0.resolved(objs),)
    }

    fn get_input(&self, manager: &DIManager<S>) -> (input: Option<(D::Resolved,)>) {
        match self.0.get_input(manager) {
            Some(first) => Some((first,)),
            None => None,
        }
    }
}

/// Two independent dependencies, resolved left to right; the second is not
/// looked at when the first is missing.
impl<S, D1: GetInput<S>, D2: GetInput<S>> GetInput<S> for (D1, D2) {
    type Resolved = (D1::Resolved, D2::Resolved);

    open spec fn satisfied(&self, objs: Map<TypeId, DIObj<S>>) -> bool {
        self.0.satisfied(objs) && self.1.satisfied(objs)
    }

    open spec fn resolved(&self, objs: Map<TypeId, DIObj<S>>) -> (D1::Resolved, D2::Resolved) {
        (self.0.resolved(objs), self.1.resolved(objs))
    }

    fn get_input(&self, manager: &DIManager<S>) -> (input: Option<(D1::Resolved, D2::Resolved)>) {
        match self.0.get_input(manager) {
            Some(first) => match self.1.get_input(manager) {
                Some(second) => Some((first, second)),
                None => None,
            },
            None => None,
        }
    }
}

/// A builder: the dependencies it declares, the key its service is registered
/// under, and the function that makes the service from the resolved input.
pub trait DIBuilder<S> {
    /// The shape of the declared dependencies.
    type Input: GetInput<S>;

    /// The dependencies that the builder declares.
    fn needs() -> Self::Input;

    /// The key under which the handle of the built service is registered.
    fn provides() -> TypeId;

    /// Makes the service from the resolved dependencies.
    fn build(input: <Self::Input as GetInput<S>>::Resolved) -> S;
}

/// What one build does to the registered handles `before`, given the
/// dependencies and the key that the builder declared: with a dependency
/// missing, nothing is built and nothing changes; otherwise the new handle is
/// registered under `provides`, in place of an earlier one, and returned.
pub open spec fn build_outcome<S, D: GetInput<S>>(
    before: Map<TypeId, DIObj<S>>,
    after: Map<TypeId, DIObj<S>>,
    needs: D,
    provides: TypeId,
    built: Option<DIObj<S>>,
) -> bool {
    match built {
        Some(handle) => needs.satisfied(before) && after == before.insert(provides, handle),
        None => !needs.satisfied(before) && after == before,
    }
}

/// What one build does to the count of builds: a handle that was built carries
/// the count as it stood, and the count goes up by one; without a build it
/// stays.
pub open spec fn build_numbered<S>(
    before: DIManager<S>,
    after: DIManager<S>,
    built: Option<DIObj<S>>,
) -> bool {
    match built {
        Some(handle) => handle.serial@ == before.issued@ && after.issued@ == before.issued@ + 1,
        None => after.issued@ == before.issued@,
    }
}

impl<S> DIManager<S> {
    /// The store's representation invariant, and: every registered handle was
    /// made by one of the builds counted so far.
    pub open spec fn wf(&self) -> bool {
        &&& self.objs.wf()
        &&& forall|key: TypeId|
            self@.contains_key(key) ==> (#[trigger] self@[key]).serial@ < self.issued@
    }

    /// A container in which nothing is registered.
    pub fn new() -> (manager: DIManager<S>)
        ensures
            manager.wf(),
            manager@ == Map::<TypeId, DIObj<S>>::empty(),
            manager.issued@ == 0,
    {
        DIManager { objs: TypeMap::new(), issued: Ghost(0) }
    }

    /// Builds the service of `T`: asks the builder for the dependencies it
    /// declares and for its key, and goes on as `build_with` does. The outcome
    /// is stated of whatever the builder declared.
    pub fn build<T: DIBuilder<S>>(&mut self) -> (built: Option<DIObj<S>>)
        requires
            old(self).wf(),
        ensures
            final(self).wf(),
            exists|needs: T::Input, provides: TypeId|
                T::needs.ensures((), needs) && T::provides.ensures((), provides)
                    && #[trigger] build_outcome(old(self)@, final(self)@, needs, provides, built)
                    && (built is Some ==> T::build.ensures(
                    (needs.resolved(old(self)@),),
                    built.unwrap().made_from@,
                )),
            build_numbered(*old(self), *final(self), built),
            built is Some ==> forall|key: TypeId|
                old(self)@.contains_key(key) ==> #[trigger] old(self)@[key] != built.unwrap(),
    {
        let needs = T::needs();
        let provides = T::provides();
        let built = self.build_with::<T>(&needs, provides);
        assert(build_outcome(old(self)@, self@, needs, provides, built));
        built
    }

    /// Builds the service of `T` and registers its handle under `provides`.
    ///
    /// `needs` is resolved against the handles registered so far. If a
    /// dependency is missing, nothing is built and nothing changes. Otherwise
    /// the builder runs on the resolved input, its result goes behind a new
    /// handle, and that handle is registered under `provides`, in place of an
    /// earlier one, and returned. The handle records the builder's result as
    /// what it was made from, carries the number of this build, and is none of
    /// the handles registered before.
    pub fn build_with<T: DIBuilder<S>>(&mut self, needs: &T::Input, provides: TypeId) -> (built:
        Option<DIObj<S>>)
        requires
            old(self).wf(),
        ensures
            final(self).wf(),
            build_outcome(old(self)@, final(self)@, *needs, provides, built),
            built is Some ==> T::build.ensures(
                (needs.resolved(old(self)@),),
                built.unwrap().made_from@,
            ),
            build_numbered(*old(self), *final(self), built),
            built is Some ==> forall|key: TypeId|
                old(self)@.contains_key(key) ==> #[trigger] old(self)@[key] != built.unwrap(),
    {
        match needs.get_input(self) {
            Some(deps) => {
                let obj = T::build(deps);
                let ghost made = obj;
                let sync_obj = DIObj {
                    handle: Arc::new(guard(obj)),
                    made_from: Ghost(made),
                    serial: Ghost(self.issued@),
                };
                self.objs.set(provides, sync_obj.clone());
                self.issued = Ghost(self.issued@ + 1);
                Some(sync_obj)
            },
            None => None,
        }
    }
}

/// Singleton: once a build has registered `handle` under `provides`, a shape
/// that asks for `provides` is satisfied and resolves to that very handle, so
/// the next build that declares this dependency succeeds and its builder is
/// handed the same handle.
pub proof fn lemma_built_handle_is_shared<S, D: GetInput<S>>(
    before: DIManager<S>,
    after: DIManager<S>,
    needs: D,
    provides: TypeId,
    handle: DIObj<S>,
    later: DIManager<S>,
    later_provides: TypeId,
    later_built: Option<DIObj<S>>,
)
    requires
        build_outcome(before@, after@, needs, provides, Some(handle)),
        build_outcome(after@, later@, (Need { key: provides }), later_provides, later_built),
    ensures
        GetInput::<S>::satisfied(&(Need { key: provides }), after@),
        GetInput::<S>::resolved(&(Need { key: provides }), after@) == handle,
        GetInput::<S>::resolved(&((Need { key: provides }),), after@) == (handle,),
        later_built is Some,
{
}

/// Unsatisfied dependency: while nothing is registered under `wanted`, no shape
/// that asks for it is satisfied, whatever else it asks for, and a build that
/// declares it returns nothing and leaves the container as it was.
pub proof fn lemma_missing_dependency<S, D: GetInput<S>>(
    before: DIManager<S>,
    after: DIManager<S>,
    wanted: TypeId,
    rest: D,
    provides: TypeId,
    built: Option<DIObj<S>>,
)
    requires
        !before@.contains_key(wanted),
        build_outcome(before@, after@, (Need { key: wanted }), provides, built)
            || build_outcome(before@, after@, ((Need { key: wanted }),), provides, built)
            || build_outcome(before@, after@, ((Need { key: wanted }), rest), provides, built)
            || build_outcome(before@, after@, (rest, (Need { key: wanted })), provides, built),
    ensures
        !GetInput::<S>::satisfied(&(Need { key: wanted }), before@),
        !GetInput::<S>::satisfied(&((Need { key: wanted }),), before@),
        !GetInput::<S>::satisfied(&((Need { key: wanted }), rest), before@),
        !GetInput::<S>::satisfied(&(rest, (Need { key: wanted })), before@),
        built is None,
        after@ == before@,
{
}

/// Replace semantics: of two successful builds under one key, the second
/// handle is the one that later resolutions see, it is not the first handle,
/// and every other key is as it was before the two.
pub proof fn lemma_second_build_replaces<S, D1: GetInput<S>, D2: GetInput<S>>(
    before: DIManager<S>,
    between: DIManager<S>,
    after: DIManager<S>,
    first_needs: D1,
    second_needs: D2,
    provides: TypeId,
    first: DIObj<S>,
    second: DIObj<S>,
)
    requires
        build_outcome(before@, between@, first_needs, provides, Some(first)),
        build_numbered(before, between, Some(first)),
        build_outcome(between@, after@, second_needs, provides, Some(second)),
        build_numbered(between, after, Some(second)),
    ensures
        GetInput::<S>::satisfied(&(Need { key: provides }), after@),
        GetInput::<S>::resolved(&(Need { key: provides }), after@) == second,
        after@ == before@.insert(provides, second),
        second != first,
{
    assert(after@ =~= before@.insert(provides, second));
}

/// Shape composition: a build that declares a pair of leaves succeeds exactly
/// when both keys are registered, and its builder is then handed the two
/// registered handles, in the order in which the pair names them.
pub proof fn lemma_pair_needs_both<S>(
    before: DIManager<S>,
    after: DIManager<S>,
    left: TypeId,
    right: TypeId,
    provides: TypeId,
    built: Option<DIObj<S>>,
)
    requires
        build_outcome(
            before@,
            after@,
            ((Need { key: left }), (Need { key: right })),
            provides,
            built,
        ),
    ensures
        built is Some <==> (before@.contains_key(left) && before@.contains_key(right)),
        GetInput::<S>::resolved(&((Need { key: left }), (Need { key: right })), before@) == (
            before@[left],
            before@[right],
        ),
{
}

} // verus!
