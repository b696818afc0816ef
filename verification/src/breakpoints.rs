//! Breakpoints: how one comes to be, and which ones there are.
//!
//! Making a breakpoint takes work that is done elsewhere: reading a maps file,
//! parsing a filter, installing a watchpoint. Each step here says what is
//! wanted next, and the step that follows takes what came of it. Throughout,
//! `F` is a parsed filter and `W` is what serves an installed watchpoint.

use crate::cache::{
    ExpressionStep, ExpressionStepModel, ExpressionWait, ExpressionWaitModel, MapsCache,
    ResolvedAddress, ResolvedAddressModel,
};
use crate::expression::{MapsError, MapsErrorModel};
use crate::maps::{MapRegion, MapRegionModel};
use crate::watch::{WatchConfig, WatchStart};
use crate::{cache, expression, maps, number, text, watch};
use std::collections::HashMap;
use vstd::prelude::*;

verus! {

broadcast use vstd::std_specs::hash::group_hash_axioms;

// ---------------------------------------------------------------------------
// Requests and views
// ---------------------------------------------------------------------------

/// A request to make a breakpoint.
#[derive(Debug)]
pub struct CreateBreakpointRequest {
    pub pid: u32,
    pub type_text: String,
    pub addr: String,
    pub backtrace: bool,
    pub buf_size: usize,
    pub filter: Option<String>,
}

/// What a `CreateBreakpointRequest` says.
#[verifier::ext_equal]
pub struct RequestModel {
    pub pid: u32,
    pub type_text: Seq<char>,
    pub addr: Seq<char>,
    pub backtrace: bool,
    pub buf_size: usize,
    pub filter: Option<Seq<char>>,
}

impl View for CreateBreakpointRequest {
    type V = RequestModel;

    open spec fn view(&self) -> RequestModel {
        RequestModel {
            pid: self.pid,
            type_text: self.type_text@,
            addr: self.addr@,
            backtrace: self.backtrace,
            buf_size: self.buf_size,
            filter: text::text_view(self.filter),
        }
    }
}

/// What is shown of a breakpoint.
#[derive(Debug)]
pub struct BreakpointView {
    pub id: u64,
    pub pid: u32,
    pub type_text: String,
    pub addr: String,
    pub resolved_addr: String,
    pub resolved_map: Option<MapRegion>,
    pub threads: Vec<u32>,
    pub created_at_ms: u128,
    pub status: String,
}

/// What a `BreakpointView` says.
#[verifier::ext_equal]
pub struct BreakpointModel {
    pub id: u64,
    pub pid: u32,
    pub type_text: Seq<char>,
    pub addr: Seq<char>,
    pub resolved_addr: Seq<char>,
    pub resolved_map: Option<MapRegionModel>,
    pub threads: Seq<u32>,
    pub created_at_ms: u128,
    pub status: Seq<char>,
}

impl View for BreakpointView {
    type V = BreakpointModel;

    open spec fn view(&self) -> BreakpointModel {
        BreakpointModel {
            id: self.id,
            pid: self.pid,
            type_text: self.type_text@,
            addr: self.addr@,
            resolved_addr: self.resolved_addr@,
            resolved_map: maps::region_view(self.resolved_map),
            threads: self.threads@,
            created_at_ms: self.created_at_ms,
            status: self.status@,
        }
    }
}

impl Clone for BreakpointView {
    fn clone(&self) -> (copy: Self)
        ensures
            copy@ == self@,
    {
        let threads = self.threads.clone();
        assert(threads@ =~= self.threads@);
        BreakpointView {
            id: self.id,
            pid: self.pid,
            type_text: self.type_text.clone(),
            addr: self.addr.clone(),
            resolved_addr: self.resolved_addr.clone(),
            resolved_map: maps::clone_region(&self.resolved_map),
            threads,
            created_at_ms: self.created_at_ms,
            status: self.status.clone(),
        }
    }
}

// ---------------------------------------------------------------------------
// Errors
// ---------------------------------------------------------------------------

/// Why a breakpoint was not made.
#[derive(Debug)]
pub enum CreateError {
    /// The type describes no watchpoint.
    InvalidType(String),
    /// The address could not be resolved.
    Address(MapsError),
    /// The filter could not be parsed, for the given reason.
    Filter(String),
    /// The watchpoint could not be installed, for the given reason.
    Watch(String),
    /// The lock of the breakpoints is poisoned.
    LockPoisoned,
}

/// What a `CreateError` says.
pub enum CreateErrorModel {
    InvalidType(Seq<char>),
    Address(MapsErrorModel),
    Filter(Seq<char>),
    Watch(Seq<char>),
    LockPoisoned,
}

impl View for CreateError {
    type V = CreateErrorModel;

    open spec fn view(&self) -> CreateErrorModel {
        match self {
            CreateError::InvalidType(t) => CreateErrorModel::InvalidType(t@),
            CreateError::Address(e) => CreateErrorModel::Address(e@),
            CreateError::Filter(reason) => CreateErrorModel::Filter(reason@),
            CreateError::Watch(reason) => CreateErrorModel::Watch(reason@),
            CreateError::LockPoisoned => CreateErrorModel::LockPoisoned,
        }
    }
}

/// The message of a `CreateError`.
pub open spec fn create_error_text(e: CreateErrorModel) -> Seq<char> {
    match e {
        CreateErrorModel::InvalidType(t) => "invalid watchpoint type: "@ + t,
        CreateErrorModel::Address(e) => expression::error_text(e),
        CreateErrorModel::Filter(reason) => reason,
        CreateErrorModel::Watch(reason) => reason,
        CreateErrorModel::LockPoisoned => "breakpoint lock poisoned"@,
    }
}

impl CreateError {
    /// The message of the error.
    pub fn message(&self) -> (text: String)
        ensures
            text@ == create_error_text(self@),
    {
        match self {
            CreateError::InvalidType(t) => text::concat("invalid watchpoint type: ", t.as_str()),
            CreateError::Address(e) => e.message(),
            CreateError::Filter(reason) => reason.clone(),
            CreateError::Watch(reason) => reason.clone(),
            CreateError::LockPoisoned => "breakpoint lock poisoned".to_owned(),
        }
    }
}

// ---------------------------------------------------------------------------
// Identifiers
// ---------------------------------------------------------------------------

/// The identifiers of breakpoints, given out in order from 1 on.
#[derive(Debug)]
pub struct BreakpointIds {
    next: u64,
}

/// The identifier that follows `id`. The one that follows the largest is 0.
pub open spec fn id_after(id: u64) -> u64 {
    if id == u64::MAX {
        0
    } else {
        (id + 1) as u64
    }
}

impl Default for BreakpointIds {
    /// No identifier has been given out.
    fn default() -> (ids: Self)
        ensures
            ids.next_id() == 1,
    {
        BreakpointIds { next: 1 }
    }
}

impl BreakpointIds {
    /// The identifier that is given out next.
    pub closed spec fn next_id(&self) -> u64 {
        self.next
    }

    /// Gives an identifier out.
    fn take(&mut self) -> (id: u64)
        ensures
            id == old(self).next_id(),
            final(self).next_id() == id_after(id),
    {
        let id: u64 = self.next;
        self.next = self.next.wrapping_add(1);
        id
    }
}

// ---------------------------------------------------------------------------
// Making a breakpoint
// ---------------------------------------------------------------------------

/// What a `WatchConfig` says.
pub struct ConfigModel<F> {
    pub pid: u32,
    pub thread: bool,
    pub type_text: Seq<char>,
    pub addr_text: Seq<char>,
    pub ty: u32,
    pub addr: u64,
    pub len: u64,
    pub backtrace: bool,
    pub buf_size: usize,
    pub filter: Option<F>,
}

impl<F> View for WatchConfig<F> {
    type V = ConfigModel<F>;

    open spec fn view(&self) -> ConfigModel<F> {
        ConfigModel {
            pid: self.pid,
            thread: self.thread,
            type_text: self.type_text@,
            addr_text: self.addr_text@,
            ty: self.ty,
            addr: self.addr,
            len: self.len,
            backtrace: self.backtrace,
            buf_size: self.buf_size,
            filter: self.filter,
        }
    }
}

/// A breakpoint whose address waits for a maps file.
#[derive(Debug)]
pub struct Resolving {
    pub request: CreateBreakpointRequest,
    pub ty: u32,
    pub len: u32,
    pub wait: ExpressionWait,
}

/// A breakpoint whose filter has to be parsed.
#[derive(Debug)]
pub struct Filtering {
    pub request: CreateBreakpointRequest,
    pub ty: u32,
    pub len: u32,
    pub resolved: ResolvedAddress,
    pub filter: String,
}

/// A breakpoint whose watchpoint has to be installed.
#[derive(Debug)]
pub struct Starting<F> {
    pub id: u64,
    pub config: WatchConfig<F>,
    pub expression: String,
    pub map: Option<MapRegion>,
}

/// How far the making of a breakpoint has come.
#[derive(Debug)]
pub enum CreateStep<F> {
    /// It has failed.
    Failed(CreateError),
    /// The maps file of the process has to be read.
    ReadMaps(Resolving),
    /// The filter has to be parsed.
    ParseFilter(Filtering),
    /// The watchpoint has to be installed.
    StartWatch(Starting<F>),
}

/// What a `CreateStep` says.
pub enum CreateStepModel<F> {
    Failed(CreateErrorModel),
    ReadMaps { request: RequestModel, ty: u32, len: u32, wait: ExpressionWaitModel },
    ParseFilter {
        request: RequestModel,
        ty: u32,
        len: u32,
        resolved: ResolvedAddressModel,
        filter: Seq<char>,
    },
    StartWatch {
        id: u64,
        config: ConfigModel<F>,
        expression: Seq<char>,
        map: Option<MapRegionModel>,
    },
}

impl<F> View for CreateStep<F> {
    type V = CreateStepModel<F>;

    open spec fn view(&self) -> CreateStepModel<F> {
        match self {
            CreateStep::Failed(e) => CreateStepModel::Failed(e@),
            CreateStep::ReadMaps(r) => CreateStepModel::ReadMaps {
                request: r.request@,
                ty: r.ty,
                len: r.len,
                wait: r.wait@,
            },
            CreateStep::ParseFilter(f) => CreateStepModel::ParseFilter {
                request: f.request@,
                ty: f.ty,
                len: f.len,
                resolved: f.resolved@,
                filter: f.filter@,
            },
            CreateStep::StartWatch(s) => CreateStepModel::StartWatch {
                id: s.id,
                config: s.config@,
                expression: s.expression@,
                map: maps::region_view(s.map),
            },
        }
    }
}

/// The watchpoint of a request on every thread of its process.
pub open spec fn config_model<F>(
    request: RequestModel,
    ty: u32,
    len: u32,
    resolved: ResolvedAddressModel,
    filter: Option<F>,
) -> ConfigModel<F> {
    ConfigModel {
        pid: request.pid,
        thread: false,
        type_text: request.type_text,
        addr_text: resolved.address,
        ty,
        addr: resolved.value,
        len: len as u64,
        backtrace: request.backtrace,
        buf_size: request.buf_size,
        filter,
    }
}

/// The step that has the watchpoint of a request installed.
pub open spec fn start_step<F>(
    id: u64,
    request: RequestModel,
    ty: u32,
    len: u32,
    resolved: ResolvedAddressModel,
    filter: Option<F>,
) -> CreateStepModel<F> {
    CreateStepModel::StartWatch {
        id,
        config: config_model(request, ty, len, resolved, filter),
        expression: resolved.expression,
        map: resolved.map,
    }
}

/// The step that follows a step of the resolution of the address.
pub open spec fn after_resolution<F>(
    id: u64,
    request: RequestModel,
    ty: u32,
    len: u32,
    step: ExpressionStepModel,
) -> CreateStepModel<F> {
    match step {
        ExpressionStepModel::Read(wait) => CreateStepModel::ReadMaps { request, ty, len, wait },
        ExpressionStepModel::Done(Err(e)) => CreateStepModel::Failed(CreateErrorModel::Address(e)),
        ExpressionStepModel::Done(Ok(resolved)) => match request.filter {
            Some(filter) => CreateStepModel::ParseFilter { request, ty, len, resolved, filter },
            None => start_step(id, request, ty, len, resolved, None),
        },
    }
}

/// The first step: the type is checked, and the address is resolved.
pub open spec fn create_start<F>(
    cache: Map<u32, cache::CachedMapsModel>,
    id: u64,
    now: u128,
    request: RequestModel,
) -> CreateStepModel<F> {
    match watch::watchpoint_type(request.type_text) {
        None => CreateStepModel::Failed(CreateErrorModel::InvalidType(request.type_text)),
        Some((ty, len)) => after_resolution(
            id,
            request,
            ty,
            len,
            cache::expression_start(cache, now, request.pid, request.addr),
        ),
    }
}

/// The next identifier after a step: an identifier is given out exactly when
/// a watchpoint is to be installed.
pub open spec fn ids_after<F>(id: u64, step: CreateStepModel<F>) -> u64 {
    match step {
        CreateStepModel::StartWatch { .. } => id_after(id),
        _ => id,
    }
}

/// Has the watchpoint of a request installed.
fn start<F>(
    ids: &mut BreakpointIds,
    request: CreateBreakpointRequest,
    ty: u32,
    len: u32,
    resolved: ResolvedAddress,
    filter: Option<F>,
) -> (step: CreateStep<F>)
    ensures
        step@ == start_step(old(ids).next_id(), request@, ty, len, resolved@, filter),
        final(ids).next_id() == id_after(old(ids).next_id()),
{
    let id: u64 = ids.take();
    CreateStep::StartWatch(
        Starting {
            id,
            config: WatchConfig {
                pid: request.pid,
                thread: false,
                type_text: request.type_text,
                addr_text: resolved.address,
                ty,
                addr: resolved.value,
                len: len as u64,
                backtrace: request.backtrace,
                buf_size: request.buf_size,
                filter,
            },
            expression: resolved.expression,
            map: resolved.map,
        },
    )
}

/// Goes on after a step of the resolution of the address.
fn go_on<F>(
    ids: &mut BreakpointIds,
    request: CreateBreakpointRequest,
    ty: u32,
    len: u32,
    step: ExpressionStep,
) -> (next: CreateStep<F>)
    ensures
        next@ == after_resolution::<F>(old(ids).next_id(), request@, ty, len, step@),
        final(ids).next_id() == ids_after(old(ids).next_id(), next@),
{
    match step {
        ExpressionStep::Read(wait) => CreateStep::ReadMaps(Resolving { request, ty, len, wait }),
        ExpressionStep::Done(Err(e)) => CreateStep::Failed(CreateError::Address(e)),
        ExpressionStep::Done(Ok(resolved)) => {
            let filter = text::clone_text(&request.filter);
            match filter {
                Some(filter) => CreateStep::ParseFilter(
                    Filtering { request, ty, len, resolved, filter },
                ),
                None => start(ids, request, ty, len, resolved, None),
            }
        },
    }
}

/// Begins to make a breakpoint.
pub fn create_breakpoint_inner<F>(
    maps: &MapsCache,
    ids: &mut BreakpointIds,
    now: u128,
    request: CreateBreakpointRequest,
) -> (step: CreateStep<F>)
    ensures
        step@ == create_start::<F>(maps@, old(ids).next_id(), now, request@),
        final(ids).next_id() == ids_after(old(ids).next_id(), step@),
{
    match watch::parse_watchpoint_type(request.type_text.as_str()) {
        None => CreateStep::Failed(CreateError::InvalidType(request.type_text)),
        Some((ty, len)) => {
            let step = maps.resolve_expression(now, request.pid, request.addr.as_str());
            go_on(ids, request, ty, len, step)
        },
    }
}

/// Goes on with a breakpoint, given what came of reading the maps file. The
/// read ended at `now`.
pub fn create_with_maps<F>(
    maps: &mut MapsCache,
    ids: &mut BreakpointIds,
    now: u128,
    waiting: Resolving,
    content: Result<String, String>,
) -> (step: CreateStep<F>)
    ensures
        step@ == after_resolution::<F>(
            old(ids).next_id(),
            waiting.request@,
            waiting.ty,
            waiting.len,
            cache::expression_after(
                old(maps)@,
                now,
                waiting.wait@,
                cache::outcome_view(content),
            ),
        ),
        final(maps)@ == cache::cache_after_wait(
            old(maps)@,
            waiting.wait@,
            cache::outcome_view(content),
        ),
        final(ids).next_id() == ids_after(old(ids).next_id(), step@),
{
    let step = maps.continue_expression(now, waiting.wait, content);
    go_on(ids, waiting.request, waiting.ty, waiting.len, step)
}

/// Goes on with a breakpoint, given what came of parsing its filter.
pub fn create_with_filter<F>(
    ids: &mut BreakpointIds,
    waiting: Filtering,
    parsed: Result<F, String>,
) -> (step: CreateStep<F>)
    ensures
        step@ == match parsed {
            Ok(filter) => start_step(
                old(ids).next_id(),
                waiting.request@,
                waiting.ty,
                waiting.len,
                waiting.resolved@,
                Some(filter),
            ),
            Err(reason) => CreateStepModel::Failed(CreateErrorModel::Filter(reason@)),
        },
        final(ids).next_id() == ids_after(old(ids).next_id(), step@),
{
    match parsed {
        Ok(filter) => start(
            ids,
            waiting.request,
            waiting.ty,
            waiting.len,
            waiting.resolved,
            Some(filter),
        ),
        Err(reason) => CreateStep::Failed(CreateError::Filter(reason)),
    }
}

// ---------------------------------------------------------------------------
// The breakpoints there are
// ---------------------------------------------------------------------------

/// A breakpoint and the watch that serves it.
#[derive(Debug)]
pub struct BreakpointEntry<W> {
    pub view: BreakpointView,
    pub watch: W,
}

/// The breakpoints there are, each with the watch `W` that serves it.
#[derive(Debug)]
pub struct Breakpoints<W> {
    inner: HashMap<u64, BreakpointEntry<W>>,
}

impl<W> View for Breakpoints<W> {
    type V = Map<u64, (BreakpointModel, W)>;

    closed spec fn view(&self) -> Map<u64, (BreakpointModel, W)> {
        self.inner@.map_values(|entry: BreakpointEntry<W>| (entry.view@, entry.watch))
    }
}

/// What is shown of a breakpoint once its watchpoint is installed.
pub open spec fn running<F>(
    waiting: Starting<F>,
    start: WatchStart,
    created_at_ms: u128,
) -> BreakpointModel {
    BreakpointModel {
        id: waiting.id,
        pid: waiting.config.pid,
        type_text: waiting.config.type_text@,
        addr: waiting.expression@,
        resolved_addr: waiting.config.addr_text@,
        resolved_map: maps::region_view(waiting.map),
        threads: start.threads@,
        created_at_ms,
        status: "running"@,
    }
}

/// What a sequence of breakpoints says.
pub open spec fn breakpoint_models(views: Seq<BreakpointView>) -> Seq<BreakpointModel> {
    views.map_values(|v: BreakpointView| v@)
}

/// Whether the breakpoints stand by ascending identifier, each one once.
pub open spec fn is_ascending(views: Seq<BreakpointModel>) -> bool {
    forall|i: int, j: int| 0 <= i < j < views.len() ==> views[i].id < views[j].id
}

/// Whether `views` are the breakpoints of `held`, by ascending identifier.
pub open spec fn lists<W>(
    views: Seq<BreakpointModel>,
    held: Map<u64, (BreakpointModel, W)>,
) -> bool {
    &&& is_ascending(views)
    &&& forall|i: int|
        0 <= i < views.len() ==> held.contains_key((#[trigger] views[i]).id)
            && held[views[i].id].0 == views[i]
    &&& forall|id: u64| #[trigger]
        held.contains_key(id) ==> exists|i: int|
            0 <= i < views.len() && (#[trigger] views[i]).id == id
}

/// Puts a breakpoint where it belongs among ascending ones.
fn insert_view(views: &mut Vec<BreakpointView>, view: BreakpointView) -> (n: usize)
    requires
        is_ascending(breakpoint_models(old(views)@)),
        forall|i: int| 0 <= i < old(views)@.len() ==> (#[trigger] old(views)@[i]).id != view.id,
    ensures
        n <= old(views)@.len(),
        final(views)@ == old(views)@.insert(n as int, view),
        is_ascending(breakpoint_models(final(views)@)),
{
    let ghost before = views@;
    let mut n: usize = views.len();
    while n > 0 && views[n - 1].id > view.id
        invariant
            n <= views@.len(),
            before == views@,
            forall|i: int| n <= i < views@.len() ==> (#[trigger] views@[i]).id > view.id,
        decreases n,
    {
        n = n - 1;
    }
    proof {
        let models = breakpoint_models(before);
        assert forall|i: int| 0 <= i < n implies (#[trigger] before[i]).id < view.id by {
            assert(before[n - 1].id != view.id);
            if i < n - 1 {
                assert(models[i].id < models[n - 1].id);
            }
        }
        let after = breakpoint_models(before.insert(n as int, view));
        assert forall|i: int, j: int| 0 <= i < j < after.len() implies after[i].id
            < after[j].id by {
            if i < n && j < n {
                assert(models[i].id < models[j].id);
            } else if i < n && j > n {
                assert(models[i].id < models[j - 1].id);
            } else if i > n {
                assert(models[i - 1].id < models[j - 1].id);
            }
        }
    }
    views.insert(n, view);
    n
}

impl<W> Default for Breakpoints<W> {
    /// No breakpoint.
    fn default() -> (breakpoints: Self)
        ensures
            breakpoints.wf(),
            breakpoints@ == Map::<u64, (BreakpointModel, W)>::empty(),
    {
        let breakpoints = Breakpoints { inner: HashMap::new() };
        assert(breakpoints@ =~= Map::<u64, (BreakpointModel, W)>::empty());
        breakpoints
    }
}

impl<W> Breakpoints<W> {
    /// Every breakpoint is held under its own identifier.
    pub open spec fn wf(&self) -> bool {
        forall|id: u64| #[trigger] self@.contains_key(id) ==> self@[id].0.id == id
    }

    /// Ends the making of a breakpoint, given what came of installing its
    /// watchpoint: the breakpoint is kept, and shown as running.
    pub fn finish<F>(
        &mut self,
        waiting: Starting<F>,
        started: Result<(WatchStart, W), String>,
        created_at_ms: u128,
    ) -> (made: Result<BreakpointView, CreateError>)
        requires
            old(self).wf(),
        ensures
            final(self).wf(),
            match (made, started) {
                (Ok(view), Ok((start, watch))) => {
                    &&& view@ == running(waiting, start, created_at_ms)
                    &&& final(self)@ == old(self)@.insert(waiting.id, (view@, watch))
                },
                (Err(e), Err(reason)) => {
                    &&& e@ == CreateErrorModel::Watch(reason@)
                    &&& final(self)@ == old(self)@
                },
                _ => false,
            },
    {
        let (start, watch) = match started {
            Ok(started) => started,
            Err(reason) => {
                return Err(CreateError::Watch(reason));
            },
        };
        let view = BreakpointView {
            id: waiting.id,
            pid: waiting.config.pid,
            type_text: waiting.config.type_text,
            addr: waiting.expression,
            resolved_addr: waiting.config.addr_text,
            resolved_map: waiting.map,
            threads: start.threads,
            created_at_ms,
            status: "running".to_owned(),
        };
        let entry = BreakpointEntry { view: view.clone(), watch };
        let ghost before = self@;
        self.inner.insert(waiting.id, entry);
        assert(self@ =~= before.insert(waiting.id, (view@, watch)));
        Ok(view)
    }

    /// Takes a breakpoint away and gives back the watch that served it.
    pub fn remove(&mut self, id: u64) -> (watch: Option<W>)
        requires
            old(self).wf(),
        ensures
            final(self).wf(),
            final(self)@ == old(self)@.remove(id),
            match watch {
                Some(watch) => old(self)@.contains_key(id) && watch == old(self)@[id].1,
                None => !old(self)@.contains_key(id),
            },
    {
        let ghost before = self@;
        let removed = self.inner.remove(&id);
        assert(self@ =~= before.remove(id));
        match removed {
            Some(entry) => Some(entry.watch),
            None => None,
        }
    }

    /// Every breakpoint, by ascending identifier.
    pub fn list(&self) -> (views: Vec<BreakpointView>)
        requires
            self.wf(),
        ensures
            lists(breakpoint_models(views@), self@),
    {
        let mut views: Vec<BreakpointView> = Vec::new();
        let entries = self.inner.iter();
        let ghost all = vstd::std_specs::iter::IteratorSpec::remaining(&entries);
        let ghost mut seen: Set<u64> = Set::empty();
        for (key, entry) in it: entries
            invariant
                it.seq() == all,
                self.wf(),
                all.no_duplicates(),
                forall|i: int|
                    0 <= i < all.len() ==> self.inner@.contains_key(*(#[trigger] all[i]).0)
                        && self.inner@[*all[i].0] == *all[i].1,
                is_ascending(breakpoint_models(views@)),
                forall|i: int|
                    0 <= i < views@.len() ==> self@.contains_key((#[trigger] views@[i]).id)
                        && views@[i]@ == self@[views@[i].id].0 && seen.contains(views@[i].id),
                forall|id: u64| #[trigger]
                    seen.contains(id) ==> exists|i: int|
                        0 <= i < views@.len() && (#[trigger] views@[i]).id == id,
                forall|id: u64| #[trigger]
                    seen.contains(id) ==> exists|j: int|
                        0 <= j < it.index() && *(#[trigger] all[j]).0 == id,
                forall|j: int| 0 <= j < it.index() ==> seen.contains(*(#[trigger] all[j]).0),
        {
            let ghost index = it.index();
            let ghost before = views@;
            proof {
                assert(self.inner@.contains_key(*all[index].0));
                assert(self@.contains_key(*key));
                assert(self@[*key].0.id == *key);
                if seen.contains(*key) {
                    let j = choose|j: int| 0 <= j < index && *(#[trigger] all[j]).0 == *key;
                    assert(all[j] == all[index]);
                    assert(false);
                }
            }
            let n: usize = insert_view(&mut views, entry.view.clone());
            proof {
                seen = seen.insert(*key);
                assert(views@[n as int].id == *key);
                assert forall|id: u64| #[trigger] seen.contains(id) implies exists|i: int|
                    0 <= i < views@.len() && (#[trigger] views@[i]).id == id by {
                    if id != *key {
                        let i = choose|i: int| 0 <= i < before.len() && (#[trigger] before[i]).id == id;
                        if i < n {
                            assert(views@[i].id == id);
                        } else {
                            assert(views@[i + 1].id == id);
                        }
                    }
                }
            }
        }
        proof {
            let models = breakpoint_models(views@);
            assert forall|id: u64| #[trigger] self@.contains_key(id) implies exists|i: int|
                0 <= i < models.len() && (#[trigger] models[i]).id == id by {
                assert(self.inner@.contains_key(id));
                assert(all.contains((&id, &self.inner@[id])));
                let j = choose|j: int| 0 <= j < all.len() && all[j] == (&id, &self.inner@[id]);
                assert(seen.contains(*all[j].0));
                let i = choose|i: int| 0 <= i < views@.len() && (#[trigger] views@[i]).id == id;
                assert(models[i].id == id);
            }
            assert forall|i: int| 0 <= i < models.len() implies self@.contains_key(
                (#[trigger] models[i]).id,
            ) && self@[models[i].id].0 == models[i] by {
                assert(views@[i]@ == models[i]);
            }
        }
        views
    }
}

// ---------------------------------------------------------------------------
// Laws
// ---------------------------------------------------------------------------

/// Whether what waits for a maps file waits on behalf of `request`.
pub open spec fn waits_for(wait: ExpressionWaitModel, request: RequestModel) -> bool {
    match wait {
        ExpressionWaitModel::Module { pid, expression, .. } => pid == request.pid && expression
            == request.addr,
        ExpressionWaitModel::Address { expression, lookup } => lookup.pid == request.pid
            && expression == request.addr,
    }
}

/// Whether a resolved address is one that `request` asks for.
pub open spec fn resolves(resolved: ResolvedAddressModel, request: RequestModel) -> bool {
    resolved.expression == request.addr && resolved.address == number::address_text(resolved.value)
}

/// Whether a step in the making of a breakpoint keeps to what `request` asks
/// for: its process, its type, its address, and its filter if it has one.
pub open spec fn keeps_to<F>(step: CreateStepModel<F>, request: RequestModel) -> bool {
    match step {
        CreateStepModel::Failed(_) => true,
        CreateStepModel::ReadMaps { request: r, ty, len, wait } => {
            &&& r == request
            &&& watch::watchpoint_type(request.type_text) == Some((ty, len))
            &&& waits_for(wait, request)
        },
        CreateStepModel::ParseFilter { request: r, ty, len, resolved, filter } => {
            &&& r == request
            &&& watch::watchpoint_type(request.type_text) == Some((ty, len))
            &&& resolves(resolved, request)
            &&& request.filter == Some(filter)
        },
        CreateStepModel::StartWatch { id, config, expression, map } => {
            &&& config.pid == request.pid
            &&& !config.thread
            &&& config.type_text == request.type_text
            &&& config.len <= u32::MAX && watch::watchpoint_type(request.type_text) == Some(
                (config.ty, config.len as u32),
            )
            &&& expression == request.addr
            &&& config.addr_text == number::address_text(config.addr)
            &&& config.backtrace == request.backtrace
            &&& config.buf_size == request.buf_size
            &&& config.filter is Some <==> request.filter is Some
        },
    }
}

/// From its first step to the watchpoint that is installed, the making of a
/// breakpoint keeps to what was asked for, whatever the maps files say and
/// whatever the filter parses to.
pub proof fn law_making_keeps_to_request<F>(
    cache: Map<u32, cache::CachedMapsModel>,
    id: u64,
    now: u128,
    request: RequestModel,
    step: CreateStepModel<F>,
    content: Result<Seq<char>, Seq<char>>,
    filter: F,
)
    requires
        keeps_to(step, request),
    ensures
        keeps_to(create_start::<F>(cache, id, now, request), request),
        match step {
            CreateStepModel::ReadMaps { request: r, ty, len, wait } => keeps_to(
                after_resolution::<F>(
                    id,
                    r,
                    ty,
                    len,
                    cache::expression_after(cache, now, wait, content),
                ),
                request,
            ),
            CreateStepModel::ParseFilter { request: r, ty, len, resolved, .. } => keeps_to(
                start_step(id, r, ty, len, resolved, Some(filter)),
                request,
            ),
            _ => true,
        },
{
}

/// Whether the region that a step shows, if it shows one, encloses the address
/// of the watchpoint.
pub open spec fn shows_its_region<F>(step: CreateStepModel<F>) -> bool {
    match step {
        CreateStepModel::ParseFilter { resolved, .. } => resolved.map is Some ==> cache::encloses(
            resolved.map->0,
            resolved.value,
        ),
        CreateStepModel::StartWatch { config, map, .. } => map is Some ==> cache::encloses(
            map->0,
            config.addr,
        ),
        _ => true,
    }
}

/// On a sound cache the region that is shown with a breakpoint encloses the
/// address of its watchpoint, from the first step on, after every read and
/// after the filter is parsed.
pub proof fn law_watchpoint_lies_in_its_region<F>(
    cache: Map<u32, cache::CachedMapsModel>,
    id: u64,
    now: u128,
    request: RequestModel,
    step: CreateStepModel<F>,
    content: Result<Seq<char>, Seq<char>>,
    filter: F,
)
    requires
        cache::is_sound(cache),
        shows_its_region(step),
    ensures
        shows_its_region(create_start::<F>(cache, id, now, request)),
        match step {
            CreateStepModel::ReadMaps { request: r, ty, len, wait } => shows_its_region(
                after_resolution::<F>(
                    id,
                    r,
                    ty,
                    len,
                    cache::expression_after(cache, now, wait, content),
                ),
            ),
            CreateStepModel::ParseFilter { request: r, ty, len, resolved, .. } => shows_its_region(
                start_step(id, r, ty, len, resolved, Some(filter)),
            ),
            _ => true,
        },
{
    let wait = match step {
        CreateStepModel::ReadMaps { wait, .. } => wait,
        _ => arbitrary(),
    };
    cache::law_resolution_encloses_address(cache, now, request.pid, request.addr, wait, content);
}

/// Where the making of a breakpoint stands once it was handed the outcomes
/// `reads`, in order, of the reads that it asked for, each with the time when
/// it ended.
pub open spec fn run_making<F>(
    cache: Map<u32, cache::CachedMapsModel>,
    id: u64,
    step: CreateStepModel<F>,
    reads: Seq<(u128, Result<Seq<char>, Seq<char>>)>,
) -> CreateStepModel<F>
    decreases reads.len(),
{
    match step {
        CreateStepModel::ReadMaps { request, ty, len, wait } => if reads.len() == 0 {
            step
        } else {
            run_making(
                cache::cache_after_wait(cache, wait, reads[0].1),
                id,
                after_resolution(
                    id,
                    request,
                    ty,
                    len,
                    cache::expression_after(cache, reads[0].0, wait, reads[0].1),
                ),
                reads.skip(1),
            )
        },
        _ => step,
    }
}

proof fn lemma_run_making<F>(
    cache: Map<u32, cache::CachedMapsModel>,
    id: u64,
    request: RequestModel,
    ty: u32,
    len: u32,
    step: ExpressionStepModel,
    reads: Seq<(u128, Result<Seq<char>, Seq<char>>)>,
)
    ensures
        run_making(cache, id, after_resolution::<F>(id, request, ty, len, step), reads)
            == after_resolution::<F>(
            id,
            request,
            ty,
            len,
            cache::run_expression(cache, step, reads),
        ),
    decreases reads.len(),
{
    if let ExpressionStepModel::Read(wait) = step {
        if reads.len() > 0 {
            lemma_run_making::<F>(
                cache::cache_after_wait(cache, wait, reads[0].1),
                id,
                request,
                ty,
                len,
                cache::expression_after(cache, reads[0].0, wait, reads[0].1),
                reads.skip(1),
            );
        }
    }
}

/// The making of a breakpoint with an accepted type asks for three reads at
/// the latest. If the address expression of the request denotes no address, it
/// fails for that reason. Otherwise it goes on, with the filter of the request
/// or with the watchpoint, at the address that the expression denotes.
pub proof fn law_making_ends<F>(
    cache: Map<u32, cache::CachedMapsModel>,
    id: u64,
    now: u128,
    request: RequestModel,
    reads: Seq<(u128, Result<Seq<char>, Seq<char>>)>,
)
    requires
        reads.len() == 3,
        watch::watchpoint_type(request.type_text) is Some,
    ensures
        match (
            run_making(cache, id, create_start::<F>(cache, id, now, request), reads),
            cache::denoted(request.pid, request.addr, reads[0].1),
        ) {
            (CreateStepModel::Failed(e), Err(reason)) => e == CreateErrorModel::Address(reason),
            (CreateStepModel::ParseFilter { resolved, filter, .. }, Ok(addr)) => {
                &&& request.filter == Some(filter)
                &&& resolved.value == addr
            },
            (CreateStepModel::StartWatch { id: given, config, .. }, Ok(addr)) => {
                &&& request.filter is None
                &&& given == id
                &&& config.addr == addr
            },
            _ => false,
        },
{
    let (ty, len) = watch::watchpoint_type(request.type_text)->0;
    let step = cache::expression_start(cache, now, request.pid, request.addr);
    lemma_run_making::<F>(cache, id, request, ty, len, step, reads);
    cache::law_resolution_ends(cache, now, request.pid, request.addr, reads);
}

/// A request whose type describes no watchpoint is refused for that reason,
/// and one that is not refused at once has a type that describes one.
pub proof fn law_type_is_checked_first<F>(
    cache: Map<u32, cache::CachedMapsModel>,
    id: u64,
    now: u128,
    request: RequestModel,
)
    ensures
        watch::watchpoint_type(request.type_text) is None <==> create_start::<F>(
            cache,
            id,
            now,
            request,
        ) == CreateStepModel::<F>::Failed(CreateErrorModel::InvalidType(request.type_text)),
{
}

/// The identifier that is given out after `n` others, where `first` is the
/// first one.
pub open spec fn nth_id(first: u64, n: nat) -> u64
    decreases n,
{
    if n == 0 {
        first
    } else {
        id_after(nth_id(first, (n - 1) as nat))
    }
}

proof fn lemma_nth_id(first: u64, n: nat)
    ensures
        nth_id(first, n) == (first + n) % 0x1_0000_0000_0000_0000,
    decreases n,
{
    if n > 0 {
        lemma_nth_id(first, (n - 1) as nat);
    }
}

/// No identifier is given out a second time before all have been given out.
pub proof fn law_identifiers_differ(first: u64, m: nat, n: nat)
    requires
        m < n,
        n - m < 0x1_0000_0000_0000_0000,
    ensures
        nth_id(first, m) != nth_id(first, n),
{
    lemma_nth_id(first, m);
    lemma_nth_id(first, n);
}

/// The breakpoints that are held determine the list.
pub proof fn law_listing_is_unique<W>(
    a: Seq<BreakpointModel>,
    b: Seq<BreakpointModel>,
    held: Map<u64, (BreakpointModel, W)>,
)
    requires
        lists(a, held),
        lists(b, held),
    ensures
        a == b,
    decreases a.len(),
{
    if a.len() == 0 {
        if b.len() > 0 {
            assert(held.contains_key(b[0].id));
            assert(false);
        }
        assert(a =~= b);
    } else {
        assert(held.contains_key(a.last().id)) by {
            assert(a[a.len() - 1] == a.last());
        }
        let i = choose|i: int| 0 <= i < b.len() && (#[trigger] b[i]).id == a.last().id;
        assert(held.contains_key(b[b.len() - 1].id));
        let j = choose|j: int| 0 <= j < a.len() && (#[trigger] a[j]).id == b[b.len() - 1].id;
        assert(a.last().id == b.last().id) by {
            if i < b.len() - 1 {
                assert(b[i].id < b[b.len() - 1].id);
            }
            if j < a.len() - 1 {
                assert(a[j].id < a[a.len() - 1].id);
            }
        }
        assert(a.last() == held[a.last().id].0) by {
            assert(a[a.len() - 1] == a.last());
        }
        assert(b.last() == held[b.last().id].0) by {
            assert(b[b.len() - 1] == b.last());
        }
        let rest = held.remove(a.last().id);
        lemma_lists_rest(a, held);
        lemma_lists_rest(b, held);
        law_listing_is_unique(a.drop_last(), b.drop_last(), rest);
        assert(a =~= a.drop_last().push(a.last()));
        assert(b =~= b.drop_last().push(b.last()));
    }
}

proof fn lemma_lists_rest<W>(views: Seq<BreakpointModel>, held: Map<u64, (BreakpointModel, W)>)
    requires
        lists(views, held),
        views.len() > 0,
    ensures
        lists(views.drop_last(), held.remove(views.last().id)),
{
    let short = views.drop_last();
    let last = views.last();
    let rest = held.remove(last.id);
    assert forall|i: int| 0 <= i < short.len() implies rest.contains_key((#[trigger] short[i]).id)
        && rest[short[i].id].0 == short[i] by {
        assert(short[i] == views[i]);
        assert(views[i].id < views[views.len() - 1].id);
    }
    assert forall|id: u64| #[trigger] rest.contains_key(id) implies exists|i: int|
        0 <= i < short.len() && (#[trigger] short[i]).id == id by {
        assert(held.contains_key(id));
        let i = choose|i: int| 0 <= i < views.len() && (#[trigger] views[i]).id == id;
        assert(i != views.len() - 1);
        assert(short[i].id == id);
    }
}

/// A breakpoint that was made is listed, and one that was removed is not.
/// Every other breakpoint is listed as before.
pub proof fn law_made_and_removed<W>(
    held: Map<u64, (BreakpointModel, W)>,
    id: u64,
    entry: (BreakpointModel, W),
    made: Seq<BreakpointModel>,
    removed: Seq<BreakpointModel>,
)
    requires
        entry.0.id == id,
        lists(made, held.insert(id, entry)),
        lists(removed, held.remove(id)),
    ensures
        made.contains(entry.0),
        forall|i: int| 0 <= i < removed.len() ==> (#[trigger] removed[i]).id != id,
        forall|v: BreakpointModel|
            v.id != id ==> (#[trigger] made.contains(v) <==> removed.contains(v)),
{
    let with = held.insert(id, entry);
    let without = held.remove(id);
    assert(with.contains_key(id));
    let i = choose|i: int| 0 <= i < made.len() && (#[trigger] made[i]).id == id;
    assert(made[i] == entry.0);
    assert forall|v: BreakpointModel| v.id != id implies (#[trigger] made.contains(v)
        <==> removed.contains(v)) by {
        if made.contains(v) {
            let k = choose|k: int| 0 <= k < made.len() && made[k] == v;
            assert(with.contains_key(made[k].id));
            assert(without.contains_key(v.id));
            let l = choose|l: int| 0 <= l < removed.len() && (#[trigger] removed[l]).id == v.id;
            assert(removed[l] == v);
        }
        if removed.contains(v) {
            let k = choose|k: int| 0 <= k < removed.len() && removed[k] == v;
            assert(without.contains_key(removed[k].id));
            assert(with.contains_key(v.id));
            let l = choose|l: int| 0 <= l < made.len() && (#[trigger] made[l]).id == v.id;
            assert(made[l] == v);
        }
    }
}

/// Removing a breakpoint that was just made leaves what was there before.
pub proof fn law_removing_undoes_making<W>(
    held: Map<u64, (BreakpointModel, W)>,
    id: u64,
    entry: (BreakpointModel, W),
)
    requires
        !held.contains_key(id),
    ensures
        held.insert(id, entry).remove(id) == held,
{
    assert(held.insert(id, entry).remove(id) =~= held);
}

/// Whether two requests ask for the same.
pub open spec fn same_request(a: CreateBreakpointRequest, b: CreateBreakpointRequest) -> bool {
    &&& a.pid == b.pid
    &&& a.type_text@ == b.type_text@
    &&& a.addr@ == b.addr@
    &&& a.backtrace == b.backtrace
    &&& a.buf_size == b.buf_size
    &&& a.filter is Some <==> b.filter is Some
    &&& a.filter is Some ==> a.filter->0@ == b.filter->0@
}

/// Whether `waiting` is a watchpoint of the given type and length at the
/// resolved address, on every thread of the process that the request names,
/// with what else the request asks for and the given filter.
pub open spec fn installs<F>(
    waiting: Starting<F>,
    request: CreateBreakpointRequest,
    ty: u32,
    len: u32,
    resolved: ResolvedAddress,
    filter: Option<F>,
) -> bool {
    &&& waiting.config.pid == request.pid
    &&& !waiting.config.thread
    &&& waiting.config.type_text@ == request.type_text@
    &&& waiting.config.addr_text@ == resolved.address@
    &&& waiting.config.ty == ty
    &&& waiting.config.addr == resolved.value
    &&& waiting.config.len == len
    &&& waiting.config.backtrace == request.backtrace
    &&& waiting.config.buf_size == request.buf_size
    &&& waiting.config.filter == filter
    &&& waiting.expression@ == resolved.expression@
    &&& waiting.map is Some <==> resolved.map is Some
    &&& resolved.map is Some ==> waiting.map->0@ == resolved.map->0@
}

/// Whether a step in the making of a breakpoint is what a step of the
/// resolution of its address makes it.
pub open spec fn follows_resolution<F>(
    step: CreateStep<F>,
    request: CreateBreakpointRequest,
    ty: u32,
    len: u32,
    resolution: ExpressionStep,
) -> bool {
    match (resolution, step) {
        (ExpressionStep::Read(wait), CreateStep::ReadMaps(r)) => {
            &&& same_request(r.request, request)
            &&& r.ty == ty && r.len == len
            &&& r.wait@ == wait@
        },
        (ExpressionStep::Done(Err(reason)), CreateStep::Failed(CreateError::Address(e))) => e@
            == reason@,
        (ExpressionStep::Done(Ok(resolved)), CreateStep::ParseFilter(f)) => {
            &&& same_request(f.request, request)
            &&& f.ty == ty && f.len == len
            &&& f.resolved@ == resolved@
            &&& request.filter is Some && f.filter@ == request.filter->0@
        },
        (ExpressionStep::Done(Ok(resolved)), CreateStep::StartWatch(s)) => {
            &&& request.filter is None
            &&& installs(s, request, ty, len, resolved, None)
        },
        _ => false,
    }
}

/// Whether an identifier was given out exactly if a watchpoint is installed:
/// the one that was next, and then the one after it is next.
pub open spec fn numbers<F>(step: CreateStep<F>, before: u64, after: u64) -> bool {
    match step {
        CreateStep::StartWatch(s) => s.id == before && after == (before + 1)
            % 0x1_0000_0000_0000_0000,
        _ => after == before,
    }
}

/// The making of a breakpoint begins with its type, without which it is
/// refused, and goes on as the resolution of its address does.
pub proof fn law_making_begins<F>(
    maps: &MapsCache,
    ids: &mut BreakpointIds,
    now: u128,
    request: CreateBreakpointRequest,
    step: CreateStep<F>,
    type_text: &str,
    addr: &str,
    described: Option<(u32, u32)>,
    resolution: ExpressionStep,
)
    requires
        call_ensures(create_breakpoint_inner::<F>, (maps, ids, now, request), step),
        type_text@ == request.type_text@,
        addr@ == request.addr@,
        call_ensures(watch::parse_watchpoint_type, (type_text,), described),
        call_ensures(MapsCache::resolve_expression, (maps, now, request.pid, addr), resolution),
    ensures
        numbers(step, old(ids).next_id(), final(ids).next_id()),
        described is None ==> (step matches CreateStep::Failed(CreateError::InvalidType(t)) && t@
            == request.type_text@),
        described matches Some((ty, len)) ==> follows_resolution(
            step,
            request,
            ty,
            len,
            resolution,
        ),
{
}

/// Once a maps file is read, the making of a breakpoint goes on as the
/// resolution of its address does, and the cache is what that leaves.
pub proof fn law_making_goes_on<F>(
    maps: &mut MapsCache,
    other: &mut MapsCache,
    ids: &mut BreakpointIds,
    now: u128,
    waiting: Resolving,
    content: Result<String, String>,
    step: CreateStep<F>,
    resolution: ExpressionStep,
)
    requires
        call_ensures(create_with_maps::<F>, (maps, ids, now, waiting, content), step),
        old(other)@ == old(maps)@,
        call_ensures(
            MapsCache::continue_expression,
            (other, now, waiting.wait, content),
            resolution,
        ),
    ensures
        final(maps)@ == final(other)@,
        numbers(step, old(ids).next_id(), final(ids).next_id()),
        follows_resolution(step, waiting.request, waiting.ty, waiting.len, resolution),
{
}

/// Once its filter is parsed, the watchpoint of a breakpoint is to be
/// installed with that filter; a filter that does not parse is the reason why
/// it is not.
pub proof fn law_filter_is_used<F>(
    ids: &mut BreakpointIds,
    waiting: Filtering,
    parsed: Result<F, String>,
    step: CreateStep<F>,
)
    requires
        call_ensures(create_with_filter::<F>, (ids, waiting, parsed), step),
    ensures
        numbers(step, old(ids).next_id(), final(ids).next_id()),
        match (parsed, step) {
            (Ok(filter), CreateStep::StartWatch(s)) => installs(
                s,
                waiting.request,
                waiting.ty,
                waiting.len,
                waiting.resolved,
                Some(filter),
            ),
            (Err(reason), CreateStep::Failed(CreateError::Filter(given))) => given@ == reason@,
            _ => false,
        },
{
}

/// A breakpoint whose watchpoint is installed is kept under its identifier,
/// with its watch, and shown as it was asked for, with its threads and the
/// time, as running. No other breakpoint is touched, and none at all if the
/// watchpoint is not installed.
pub proof fn law_breakpoint_is_kept<F, W>(
    held: &mut Breakpoints<W>,
    waiting: Starting<F>,
    started: Result<(WatchStart, W), String>,
    created_at_ms: u128,
    made: Result<BreakpointView, CreateError>,
    other: u64,
)
    requires
        call_ensures(
            Breakpoints::<W>::finish::<F>,
            (held, waiting, started, created_at_ms),
            made,
        ),
    ensures
        match (started, made) {
            (Ok((start, watch)), Ok(view)) => {
                &&& view.id == waiting.id
                &&& view.pid == waiting.config.pid
                &&& view.type_text@ == waiting.config.type_text@
                &&& view.addr@ == waiting.expression@
                &&& view.resolved_addr@ == waiting.config.addr_text@
                &&& view.resolved_map is Some <==> waiting.map is Some
                &&& view.resolved_map is Some ==> view.resolved_map->0@ == waiting.map->0@
                &&& view.threads@ == start.threads@
                &&& view.created_at_ms == created_at_ms
                &&& view.status@ == seq!['r', 'u', 'n', 'n', 'i', 'n', 'g']
                &&& final(held)@.contains_key(waiting.id)
                &&& final(held)@[waiting.id] == (view@, watch)
                &&& other != waiting.id ==> (final(held)@.contains_key(other) <==> old(
                    held,
                )@.contains_key(other)) && final(held)@[other] == old(held)@[other]
            },
            (Err(reason), Err(CreateError::Watch(given))) => given@ == reason@ && final(held)@
                == old(held)@,
            _ => false,
        },
{
    reveal_strlit("running");
    assert("running"@ =~= seq!['r', 'u', 'n', 'n', 'i', 'n', 'g']);
}

/// A breakpoint that is taken away gives its watch back and is there no more,
/// and no other one is touched.
pub proof fn law_breakpoint_is_taken_away<W>(
    held: &mut Breakpoints<W>,
    id: u64,
    watch: Option<W>,
    other: u64,
)
    requires
        call_ensures(Breakpoints::<W>::remove, (held, id), watch),
    ensures
        watch is Some <==> old(held)@.contains_key(id),
        watch is Some ==> watch->0 == old(held)@[id].1,
        !final(held)@.contains_key(id),
        other != id ==> (final(held)@.contains_key(other) <==> old(held)@.contains_key(other))
            && (old(held)@.contains_key(other) ==> final(held)@[other] == old(held)@[other]),
{
}

/// Every breakpoint that is held is listed once, as it is held, by ascending
/// identifier, and nothing else is listed.
pub proof fn law_every_breakpoint_is_listed<W>(
    held: &Breakpoints<W>,
    views: Vec<BreakpointView>,
    id: u64,
)
    requires
        call_ensures(Breakpoints::<W>::list, (held,), views),
    ensures
        forall|i: int, j: int|
            0 <= i < j < views@.len() ==> (#[trigger] views@[i]).id < (#[trigger] views@[j]).id,
        forall|i: int|
            0 <= i < views@.len() ==> held@.contains_key((#[trigger] views@[i]).id)
                && held@[views@[i].id].0 == views@[i]@,
        held@.contains_key(id) ==> exists|i: int|
            0 <= i < views@.len() && (#[trigger] views@[i]).id == id,
{
    let models = breakpoint_models(views@);
    assert(models.len() == views@.len());
    assert forall|i: int, j: int| 0 <= i < j < views@.len() implies (#[trigger] views@[i]).id < (
    #[trigger] views@[j]).id by {
        assert(models[i].id < models[j].id);
    }
    assert forall|i: int| 0 <= i < views@.len() implies held@.contains_key(
        (#[trigger] views@[i]).id,
    ) && held@[views@[i].id].0 == views@[i]@ by {
        assert(models[i] == views@[i]@);
    }
    if held@.contains_key(id) {
        let i = choose|i: int| 0 <= i < models.len() && (#[trigger] models[i]).id == id;
        assert(views@[i].id == id);
    }
}

/// The messages of the errors.
pub proof fn law_create_error_messages(e: &CreateError, message: String)
    requires
        call_ensures(CreateError::message, (e,), message),
    ensures
        message@ == match e {
            CreateError::InvalidType(t) => "invalid watchpoint type: "@ + t@,
            CreateError::Address(e) => expression::error_text(e@),
            CreateError::Filter(reason) => reason@,
            CreateError::Watch(reason) => reason@,
            CreateError::LockPoisoned => "breakpoint lock poisoned"@,
        },
{
}

/// What a breakpoint and a request say leaves nothing out.
pub proof fn law_breakpoints_say_everything(
    a: BreakpointView,
    b: BreakpointView,
    c: CreateBreakpointRequest,
    d: CreateBreakpointRequest,
)
    ensures
        a@ == b@ ==> {
            &&& a.id == b.id && a.pid == b.pid && a.created_at_ms == b.created_at_ms
            &&& a.type_text@ == b.type_text@ && a.addr@ == b.addr@ && a.status@ == b.status@
            &&& a.resolved_addr@ == b.resolved_addr@ && a.threads@ == b.threads@
            &&& a.resolved_map is Some <==> b.resolved_map is Some
            &&& a.resolved_map is Some ==> a.resolved_map->0@ == b.resolved_map->0@
        },
        c@ == d@ ==> same_request(c, d),
{
}

/// At first there is no breakpoint, and the first one gets the identifier 1.
pub proof fn law_no_breakpoint_at_first<W>(held: Breakpoints<W>, ids: BreakpointIds, id: u64)
    requires
        call_ensures(Breakpoints::<W>::default, (), held),
        call_ensures(BreakpointIds::default, (), ids),
    ensures
        held.wf(),
        !held@.contains_key(id),
        ids.next_id() == 1,
{
}

/// A copy of a breakpoint says what the breakpoint says.
pub proof fn law_copies_of_breakpoints(view: BreakpointView, copy: BreakpointView)
    requires
        call_ensures(BreakpointView::clone, (&view,), copy),
    ensures
        copy@ == view@,
{
}

} // verus!
