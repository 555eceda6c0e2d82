//! Bringing back every mount that an earlier daemon left behind.
//!
//! Mounts are taken up one after the other. One that cannot be brought back is
//! skipped, and the next one begins.
use vstd::prelude::*;
use crate::git_store::GitContentStore;
use crate::mount::{MetadataView, MountMetadata, MountView, StorageConfig};
use crate::mountpoint::can_mount_on;
use crate::remote::usable;
use crate::service::setup::{begun, kept_root, rehydrate_answer, SetupAction, SetupEvent};
use crate::service::{
    checkout_answer, has_line, lists_mounts, tree_answer, JujutsuService, ServiceView, StatusLine,
};
use crate::store::Store;
use crate::ty::ID_LEN;

verus! {

/// What is to be done next.
#[derive(Debug)]
pub enum RehydrateStep {
    /// Do this for the mount at a position.
    Perform { mount: usize, action: SetupAction },
    /// The mount at a position cannot be brought back and is skipped.
    Skip { mount: usize, cause: String },
    /// Every mount was taken up.
    Done,
}

/// What came of a mount.
pub enum TakenView {
    /// It is back.
    Kept(MountView),
    /// It could not be brought back.
    Skipped(Seq<char>),
}

/// The value of a [`Rehydration`].
#[verifier::ext_equal]
pub struct RehydrationView {
    /// The mounts that were left behind.
    pub metas: Seq<MetadataView>,
    /// What came of the mounts that were taken up, in order.
    pub taken: Seq<TakenView>,
    /// The outside work for the mount at hand is done: it can be registered.
    pub ready: bool,
}

impl RehydrationView {
    /// No more mounts were taken up than there are, and what is to be registered is
    /// one of them.
    pub open spec fn wf(self) -> bool {
        self.taken.len() <= self.metas.len() && (self.ready ==> self.taken.len()
            < self.metas.len())
    }

    /// The mount at hand.
    pub open spec fn current(self) -> MetadataView {
        self.metas[self.taken.len() as int]
    }

    /// One more mount was taken up.
    pub open spec fn with(self, what: TakenView) -> RehydrationView {
        RehydrationView { taken: self.taken.push(what), ready: false, ..self }
    }

    /// Nothing was taken up of these mounts. Without storage on disk none was left
    /// behind.
    pub open spec fn fresh(storage: StorageConfig, metas: Seq<MetadataView>) -> RehydrationView {
        RehydrationView {
            metas: if storage is OnDisk {
                metas
            } else {
                seq![]
            },
            taken: seq![],
            ready: false,
        }
    }
}

/// The values of metadata.
pub open spec fn metas_view(metas: Seq<MountMetadata>) -> Seq<MetadataView> {
    metas.map_values(|m: MountMetadata| m@)
}

/// A step is as the event of the mount at hand demands. It changes no mount.
pub open spec fn rehydrate_step(
    v: ServiceView,
    before: RehydrationView,
    event: SetupEvent,
    after: RehydrationView,
    step: RehydrateStep,
) -> bool {
    let at = before.taken.len();
    match step {
        RehydrateStep::Done => at >= before.metas.len() && after == before,
        RehydrateStep::Skip { mount, cause } => {
            &&& at < before.metas.len()
            &&& mount == at
            &&& rehydrate_answer(v, before.current(), event, Err(cause))
            &&& after == before.with(TakenView::Skipped(cause@))
        },
        RehydrateStep::Perform { mount, action } => {
            &&& at < before.metas.len()
            &&& mount == at
            &&& rehydrate_answer(v, before.current(), event, Ok(action))
            &&& after == RehydrationView { ready: action is Register, ..before }
        },
    }
}

/// The service with one more mount back.
pub open spec fn with_kept(v: ServiceView, meta: MetadataView, m: MountView) -> ServiceView {
    v.with_mount(meta.working_copy_path, m)
}

/// The mounts that are brought back, and how far that is.
pub struct Rehydration {
    metas: Vec<MountMetadata>,
    at: usize,
    ready: bool,
    taken: Ghost<Seq<TakenView>>,
}

impl View for Rehydration {
    type V = RehydrationView;

    closed spec fn view(&self) -> RehydrationView {
        RehydrationView { metas: metas_view(self.metas@), taken: self.taken@, ready: self.ready }
    }
}

impl JujutsuService {
    /// Begin to bring back the mounts that were found on disk.
    pub fn rehydrate(&self, found: Vec<MountMetadata>) -> (r: Rehydration)
        ensures
            r.in_order(),
            r@ == RehydrationView::fresh(self@.storage, metas_view(found@)),
    {
        let metas: Vec<MountMetadata> = match self.storage() {
            StorageConfig::OnDisk { .. } => found,
            StorageConfig::InMemory => Vec::new(),
        };
        let r = Rehydration { metas, at: 0, ready: false, taken: Ghost(Seq::empty()) };
        assert(r@ =~= RehydrationView::fresh(self@.storage, metas_view(found@)));
        r
    }
}

impl Rehydration {
    /// The position matches what was taken up.
    pub closed spec fn in_order(self) -> bool {
        self.at == self.taken@.len() && self@.wf()
    }

    /// The mount at hand.
    pub fn current(&self) -> (m: Option<&MountMetadata>)
        requires
            self.in_order(),
        ensures
            match m {
                Some(meta) => self@.taken.len() < self@.metas.len() && meta@ == self@.current(),
                None => self@.taken.len() == self@.metas.len(),
            },
    {
        if self.at < self.metas.len() {
            Some(&self.metas[self.at])
        } else {
            None
        }
    }

    /// Take up what came of the outside work for the mount at hand. `Begun` begins
    /// with a mount; it follows a mount that was kept or skipped.
    pub fn advance(&mut self, service: &JujutsuService, event: SetupEvent) -> (step: RehydrateStep)
        requires
            old(self).in_order(),
            !old(self)@.ready,
        ensures
            final(self).in_order(),
            rehydrate_step(service@, old(self)@, event, final(self)@, step),
    {
        let ghost before = self@;
        if self.at >= self.metas.len() {
            return RehydrateStep::Done;
        }
        let mount: usize = self.at;
        assert(before.current() == self.metas@[mount as int]@);
        match service.rehydrate_one(&self.metas[mount], event) {
            Err(cause) => {
                self.at = mount + 1;
                self.taken = Ghost(before.taken.push(TakenView::Skipped(cause@)));
                assert(self@ =~= before.with(TakenView::Skipped(cause@)));
                RehydrateStep::Skip { mount, cause }
            },
            Ok(action) => {
                self.ready = matches!(action, SetupAction::Register(_));
                assert(self@ =~= (RehydrationView { ready: action is Register, ..before }));
                RehydrateStep::Perform { mount, action }
            },
        }
    }

    /// Register the mount at hand with the stores that were opened for it.
    pub fn keep(
        &mut self,
        service: &mut JujutsuService,
        key: &str,
        connected: bool,
        store: GitContentStore,
        ops: Store,
    )
        requires
            old(self).in_order(),
            old(self)@.ready,
            old(service)@.wf(),
            kept_root(old(self)@.current()) is Some,
        ensures
            final(self).in_order(),
            final(service)@.wf(),
            ({
                let meta = old(self)@.current();
                let root = kept_root(meta)->0;
                let m = begun(old(service)@, key@, meta, root, connected, store, ops);
                &&& final(self)@ == old(self)@.with(TakenView::Kept(m))
                &&& final(service)@ == with_kept(old(service)@, meta, m)
            }),
    {
        let ghost before = self@;
        let ghost first = service@;
        let mount: usize = self.at;
        assert(before.current() == self.metas@[mount as int]@);
        assert(mount < self.metas.len());
        service.register_kept(&self.metas[mount], key, connected, store, ops);
        proof {
            let meta = before.current();
            let m = begun(first, key@, meta, kept_root(meta)->0, connected, store, ops);
            self.taken = Ghost(before.taken.push(TakenView::Kept(m)));
        }
        self.at = mount + 1;
        self.ready = false;
        assert(self@ =~= before.with(self@.taken.last()));
    }

    /// Skip the mount at hand, whose outside work turned out not to be enough.
    pub fn give_up(&mut self, cause: &str)
        requires
            old(self).in_order(),
            old(self)@.ready,
        ensures
            final(self).in_order(),
            final(self)@ == old(self)@.with(TakenView::Skipped(cause@)),
    {
        let ghost before = self@;
        assert(self.at < self.metas.len());
        self.at = self.at + 1;
        self.ready = false;
        self.taken = Ghost(before.taken.push(TakenView::Skipped(cause@)));
        assert(self@ =~= before.with(TakenView::Skipped(cause@)));
    }
}

// ---- what bringing back promises ----------------------------------------------------------

/// The service once mounts were taken up: those that were kept are there, in
/// place of others at their paths.
pub open spec fn rehydrated(
    v: ServiceView,
    metas: Seq<MetadataView>,
    taken: Seq<TakenView>,
) -> ServiceView
    decreases taken.len(),
{
    if taken.len() == 0 {
        v
    } else {
        let before = rehydrated(v, metas, taken.drop_last());
        match taken.last() {
            TakenView::Kept(m) => with_kept(before, metas[taken.len() - 1], m),
            TakenView::Skipped(_) => before,
        }
    }
}

/// A mount as it is registered from its metadata, with whatever stores.
pub open spec fn from_metadata(v: ServiceView, meta: MetadataView, m: MountView) -> bool {
    &&& kept_root(meta) is Some
    &&& exists|key: Seq<char>, connected: bool, store: GitContentStore, ops: Store|
        m == #[trigger] begun(v, key, meta, kept_root(meta)->0, connected, store, ops)
}

/// One call of a run.
pub enum Call {
    /// [`Rehydration::advance`], with what it was told and what it gave.
    Advance(SetupEvent, RehydrateStep),
    /// [`Rehydration::keep`].
    Keep,
    /// [`Rehydration::give_up`].
    GiveUp,
}

/// What a call does to the run and to the service.
pub open spec fn called(
    call: Call,
    v: ServiceView,
    before: RehydrationView,
    w: ServiceView,
    after: RehydrationView,
) -> bool {
    match call {
        Call::Advance(event, step) => w == v && rehydrate_step(v, before, event, after, step),
        Call::Keep => before.ready && exists|m: MountView|
            {
                &&& from_metadata(v, before.current(), m)
                &&& after == #[trigger] before.with(TakenView::Kept(m))
                &&& w == with_kept(v, before.current(), m)
            },
        Call::GiveUp => w == v && before.ready && exists|cause: Seq<char>|
            after == #[trigger] before.with(TakenView::Skipped(cause)),
    }
}

/// The calls of a run, from its beginning on.
pub open spec fn is_run(
    services: Seq<ServiceView>,
    states: Seq<RehydrationView>,
    calls: Seq<Call>,
) -> bool {
    &&& services.len() == calls.len() + 1
    &&& states.len() == calls.len() + 1
    &&& states[0].wf()
    &&& states[0].taken.len() == 0
    &&& forall|n: int|
        0 <= n < calls.len() ==> called(
            #[trigger] calls[n],
            services[n],
            states[n],
            services[n + 1],
            states[n + 1],
        )
}

/// A mount cannot be brought back, by what the outside work said of it or by what
/// is on record of it.
pub open spec fn at_fault(meta: MetadataView, event: SetupEvent) -> bool {
    match event {
        SetupEvent::Begun => false,
        SetupEvent::Opened { fault } => fault is Some || kept_root(meta) is None,
        SetupEvent::Read(url) => url is Malformed || !usable(meta.remote),
        SetupEvent::Connected { fault } => fault is Some,
        SetupEvent::Tunneled { fault } => fault is Some,
        SetupEvent::Probed { .. } => false,
        SetupEvent::Unmounted { fault } => fault is Some,
        SetupEvent::Inspected(found) => !can_mount_on(found),
        SetupEvent::Attached(_) => false,
        SetupEvent::NotAttached(_) => true,
    }
}

/// At each point of a run the service holds the mounts that were kept so far, and
/// those that were skipped have changed nothing.
pub proof fn kept_mounts_are_there(
    services: Seq<ServiceView>,
    states: Seq<RehydrationView>,
    calls: Seq<Call>,
    n: int,
)
    requires
        is_run(services, states, calls),
        0 <= n <= calls.len(),
    ensures
        states[n].metas == states[0].metas,
        states[n].wf(),
        services[n] == rehydrated(services[0], states[0].metas, states[n].taken),
    decreases n,
{
    if n > 0 {
        kept_mounts_are_there(services, states, calls, n - 1);
        assert(called(
            calls[n - 1],
            services[n - 1],
            states[n - 1],
            services[n - 1 + 1],
            states[n - 1 + 1],
        ));
        if states[n].taken != states[n - 1].taken {
            assert(states[n].taken.drop_last() =~= states[n - 1].taken);
        }
    }
}

/// What came of a mount was decided by a call that had it at hand.
proof fn lemma_taken_at(
    services: Seq<ServiceView>,
    states: Seq<RehydrationView>,
    calls: Seq<Call>,
    n: int,
    k: int,
) -> (at: int)
    requires
        is_run(services, states, calls),
        0 <= n <= calls.len(),
        0 <= k < states[n].taken.len(),
    ensures
        0 <= at < n,
        states[at].taken.len() == k,
        states[at + 1].taken.len() == k + 1,
        states[at + 1].taken[k] == states[n].taken[k],
    decreases n,
{
    kept_mounts_are_there(services, states, calls, n);
    if n == 0 {
        0
    } else {
        assert(called(
            calls[n - 1],
            services[n - 1],
            states[n - 1],
            services[n - 1 + 1],
            states[n - 1 + 1],
        ));
        if k < states[n - 1].taken.len() {
            lemma_taken_at(services, states, calls, n - 1, k)
        } else {
            n - 1
        }
    }
}

/// A mount that was kept is in the service at the end, unless a later one has the
/// same path.
pub proof fn kept_mount_stays(
    v: ServiceView,
    metas: Seq<MetadataView>,
    taken: Seq<TakenView>,
    k: int,
)
    requires
        taken.len() <= metas.len(),
        0 <= k < taken.len(),
        taken[k] is Kept,
        forall|j: int|
            k < j < taken.len() ==> (#[trigger] metas[j]).working_copy_path
                != metas[k].working_copy_path,
    ensures
        rehydrated(v, metas, taken).mounts.contains_key(metas[k].working_copy_path),
        rehydrated(v, metas, taken).mounts[metas[k].working_copy_path] == taken[k]->Kept_0,
    decreases taken.len(),
{
    if k < taken.len() - 1 {
        assert(taken.drop_last()[k] == taken[k]);
        kept_mount_stays(v, metas, taken.drop_last(), k);
        assert(metas[taken.len() - 1].working_copy_path != metas[k].working_copy_path);
    }
}

/// What was not kept changes nothing: other paths lead where they led.
pub proof fn skipped_mounts_change_nothing(
    v: ServiceView,
    metas: Seq<MetadataView>,
    taken: Seq<TakenView>,
    path: Seq<char>,
)
    requires
        taken.len() <= metas.len(),
        forall|j: int|
            0 <= j < taken.len() && (#[trigger] taken[j]) is Kept ==> metas[j].working_copy_path
                != path,
    ensures
        rehydrated(v, metas, taken).at(path) == v.at(path),
    decreases taken.len(),
{
    if taken.len() > 0 {
        let front = taken.drop_last();
        assert forall|j: int| 0 <= j < front.len() && (#[trigger] front[j]) is Kept implies metas[j].working_copy_path
            != path by {
            assert(taken[j] == front[j]);
        }
        skipped_mounts_change_nothing(v, metas, front, path);
        assert(taken[taken.len() - 1] == taken.last());
    }
}

/// A mount that is registered from the metadata of an earlier daemon is what it
/// was: it has the checkout state, the root tree and the remote that it had.
pub proof fn restarted_mount_is_what_it_was(
    old_service: ServiceView,
    path: Seq<char>,
    v: ServiceView,
    m: MountView,
)
    requires
        old_service.mounts.contains_key(path),
        old_service.mounts[path].root_tree_id.len() == ID_LEN,
        from_metadata(v, old_service.mounts[path].metadata(path), m),
    ensures
        m.op_id == old_service.mounts[path].op_id,
        m.workspace_id == old_service.mounts[path].workspace_id,
        m.root_tree_id == old_service.mounts[path].root_tree_id,
        m.remote == old_service.mounts[path].remote,
        m.metadata(path) == old_service.mounts[path].metadata(path),
{
    crate::git_store::id_of_bytes(old_service.mounts[path].root_tree_id);
}

/// A mount is skipped only for a fault: the outside work failed, or what is on
/// record of the mount cannot be used.
pub proof fn only_a_fault_skips(
    v: ServiceView,
    before: RehydrationView,
    event: SetupEvent,
    after: RehydrationView,
    step: RehydrateStep,
)
    requires
        rehydrate_step(v, before, event, after, step),
        step is Skip,
    ensures
        at_fault(before.current(), event),
{
}

/// A restart brings the mounts back. A new daemon takes up the metadata that was
/// left behind, each for a path of its own, until the run is done. It ends whatever
/// happens to single mounts, and then:
/// - a mount that was not skipped answers for its checkout state and its root tree
///   as the earlier daemon did, and the status lists it with its remote;
/// - a mount was skipped only if its outside work failed, what is on record of it
///   cannot be used, or it was given up, and it is not listed;
/// - nothing else is listed.
pub proof fn restart_brings_mounts_back(
    old_service: ServiceView,
    metas: Seq<MetadataView>,
    services: Seq<ServiceView>,
    states: Seq<RehydrationView>,
    calls: Seq<Call>,
    lines: Seq<StatusLine>,
    k: int,
    path: Seq<char>,
)
    requires
        is_run(services, states, calls),
        calls.len() > 0,
        services[0].mounts == Map::<Seq<char>, MountView>::empty(),
        services[0].storage is OnDisk,
        states[0] == RehydrationView::fresh(services[0].storage, metas),
        calls.last() matches Call::Advance(_, RehydrateStep::Done),
        lists_mounts(services.last(), lines),
        forall|i: int, j: int|
            0 <= i < j < metas.len() ==> (#[trigger] metas[i]).working_copy_path != (
            #[trigger] metas[j]).working_copy_path,
        0 <= k < metas.len() ==> {
            &&& old_service.mounts.contains_key(path)
            &&& old_service.mounts[path].root_tree_id.len() == ID_LEN
            &&& metas[k] == old_service.mounts[path].metadata(path)
        },
    ensures
        ({
            let after = services.last();
            let taken = states.last().taken;
            &&& taken.len() == metas.len()
            &&& 0 <= k < metas.len() ==> match taken[k] {
                TakenView::Kept(_) => {
                    &&& checkout_answer(after, path) == checkout_answer(old_service, path)
                    &&& tree_answer(after, path) == tree_answer(old_service, path)
                    &&& exists|i: int|
                        0 <= i < lines.len() && (#[trigger] lines[i]).path@ == path
                            && lines[i].remote@ == old_service.mounts[path].remote
                },
                TakenView::Skipped(_) => {
                    &&& !has_line(lines, path)
                    &&& exists|n: int|
                        0 <= n < calls.len() && states[n].taken.len() == k && match #[trigger] calls[n] {
                            Call::Advance(event, _) => at_fault(metas[k], event),
                            Call::Keep => false,
                            Call::GiveUp => true,
                        }
                },
            }
            &&& forall|p: Seq<char>| #[trigger]
                has_line(lines, p) ==> exists|j: int|
                    0 <= j < metas.len() && (#[trigger] metas[j]).working_copy_path == p
                        && taken[j] is Kept
        }),
{
    let count = calls.len() as int;
    let after = services.last();
    let taken = states.last().taken;
    kept_mounts_are_there(services, states, calls, count);
    kept_mounts_are_there(services, states, calls, count - 1);
    assert(called(
        calls[count - 1],
        services[count - 1],
        states[count - 1],
        services[count - 1 + 1],
        states[count - 1 + 1],
    ));
    assert(taken.len() == metas.len());
    assert(after == rehydrated(services[0], metas, taken));
    assert forall|p: Seq<char>| #[trigger] has_line(lines, p) implies exists|j: int|
        0 <= j < metas.len() && (#[trigger] metas[j]).working_copy_path == p && taken[j] is Kept by {
        if forall|j: int|
            0 <= j < metas.len() && (#[trigger] metas[j]).working_copy_path == p
                ==> !(taken[j] is Kept) {
            assert forall|j: int| 0 <= j < taken.len() && (#[trigger] taken[j])
                is Kept implies metas[j].working_copy_path != p by {
                assert(metas[j].working_copy_path == p ==> !(taken[j] is Kept));
            }
            skipped_mounts_change_nothing(services[0], metas, taken, p);
            assert(after.at(p) is Err);
        }
    }
    if 0 <= k < metas.len() {
        let n = lemma_taken_at(services, states, calls, count, k);
        kept_mounts_are_there(services, states, calls, n);
        let call = calls[n];
        assert(called(call, services[n], states[n], services[n + 1], states[n + 1]));
        assert(states[n].current() == metas[k]);
        match taken[k] {
            TakenView::Kept(m) => {
                kept_mount_stays(services[0], metas, taken, k);
                assert(call is Keep);
                assert(from_metadata(services[n], metas[k], m));
                restarted_mount_is_what_it_was(old_service, path, services[n], m);
                assert(has_line(lines, path));
            },
            TakenView::Skipped(_) => {
                if let Call::Advance(event, step) = call {
                    assert(step is Skip);
                    only_a_fault_skips(services[n], states[n], event, states[n + 1], step);
                }
                assert forall|j: int| 0 <= j < taken.len() && (#[trigger] taken[j])
                    is Kept implies metas[j].working_copy_path != path by {
                    assert(metas[k].working_copy_path == path);
                }
                skipped_mounts_change_nothing(services[0], metas, taken, path);
                assert(after.at(path) is Err);
                assert(match call {
                    Call::Advance(event, _) => at_fault(metas[k], event),
                    Call::Keep => false,
                    Call::GiveUp => true,
                });
            },
        }
    }
}

/// With nothing left behind, and without storage on disk, there is nothing to do.
pub proof fn nothing_left_is_done(
    v: ServiceView,
    storage: StorageConfig,
    metas: Seq<MetadataView>,
    event: SetupEvent,
    after: RehydrationView,
    step: RehydrateStep,
)
    requires
        storage is InMemory || metas.len() == 0,
        rehydrate_step(v, RehydrationView::fresh(storage, metas), event, after, step),
    ensures
        step is Done,
        after == RehydrationView::fresh(storage, metas),
{
}

/// A mount that cannot be brought back is skipped: the next one begins, if there
/// is one, and what came of the mounts before stays.
pub proof fn skipping_goes_on(
    v: ServiceView,
    before: RehydrationView,
    event: SetupEvent,
    mid: RehydrationView,
    mount: usize,
    cause: String,
    after: RehydrationView,
    step: RehydrateStep,
)
    requires
        rehydrate_step(v, before, event, mid, RehydrateStep::Skip { mount, cause }),
        rehydrate_step(v, mid, SetupEvent::Begun, after, step),
    ensures
        mid.taken.len() == mount + 1,
        mid.taken[mount as int] == TakenView::Skipped(cause@),
        forall|k: int| 0 <= k < mount ==> #[trigger] mid.taken[k] == before.taken[k],
        after == mid,
        if mount + 1 == before.metas.len() {
            step is Done
        } else {
            step matches RehydrateStep::Perform { mount: next, action } && next == mount + 1
                && action is OpenStores
        },
{
}

/// A run ends only once every mount was taken up.
pub proof fn run_ends_with_all_mounts(
    v: ServiceView,
    before: RehydrationView,
    event: SetupEvent,
    after: RehydrationView,
    step: RehydrateStep,
)
    requires
        before.wf(),
        rehydrate_step(v, before, event, after, step),
    ensures
        step is Done <==> before.taken.len() == before.metas.len(),
{
}

} // verus!
