//! A cache of memory maps, and the address lookups that go through it.
//!
//! Nothing here reads a file or a clock. The caller passes the current time,
//! in nanoseconds of a clock that does not go backwards. A lookup that needs
//! the text of a maps file answers that the file has to be read, and goes on
//! when it is handed the outcome: the text, or the reason why there is none.

use crate::expression::{MapsError, MapsErrorModel};
use crate::maps::{MapRegion, MapRegionModel, ParsedRegion, ParsedRegionModel};
use crate::{expression, maps, number, text};
use std::collections::HashMap;
use vstd::prelude::*;

verus! {

broadcast use vstd::std_specs::hash::group_hash_axioms;

// ---------------------------------------------------------------------------
// The cache
// ---------------------------------------------------------------------------

/// For how many nanoseconds what was read from a maps file is used again.
pub const FRESH_NANOS: u128 = 1_000_000_000;

/// The regions of one process, and when they were read.
#[derive(Debug)]
pub struct CachedMaps {
    pub loaded_at: u128,
    pub regions: Vec<ParsedRegion>,
}

/// What a `CachedMaps` says.
#[verifier::ext_equal]
pub struct CachedMapsModel {
    pub loaded_at: u128,
    pub regions: Seq<ParsedRegionModel>,
}

impl View for CachedMaps {
    type V = CachedMapsModel;

    open spec fn view(&self) -> CachedMapsModel {
        CachedMapsModel {
            loaded_at: self.loaded_at,
            regions: maps::region_models(self.regions@),
        }
    }
}

/// The regions of processes, by process identifier.
#[derive(Debug)]
pub struct MapsCache {
    inner: HashMap<u32, CachedMaps>,
}

impl View for MapsCache {
    type V = Map<u32, CachedMapsModel>;

    closed spec fn view(&self) -> Map<u32, CachedMapsModel> {
        self.inner@.map_values(|cached: CachedMaps| cached@)
    }
}

/// What came of reading a file: its text, or the reason why there is none.
pub open spec fn outcome_view(content: Result<String, String>) -> Result<Seq<char>, Seq<char>> {
    match content {
        Ok(text) => Ok(text@),
        Err(reason) => Err(reason@),
    }
}

/// Whether what the cache holds on `pid` may still be used at `now`.
pub open spec fn is_fresh(cache: Map<u32, CachedMapsModel>, now: u128, pid: u32) -> bool {
    cache.contains_key(pid) && now < cache[pid].loaded_at + FRESH_NANOS
}

/// The cache after the maps file of `pid` was read at `now`. A file that could
/// not be read leaves it as it was.
pub open spec fn cache_after(
    cache: Map<u32, CachedMapsModel>,
    now: u128,
    pid: u32,
    content: Result<Seq<char>, Seq<char>>,
) -> Map<u32, CachedMapsModel> {
    match content {
        Ok(text) => cache.insert(
            pid,
            CachedMapsModel { loaded_at: now, regions: maps::parsed_maps(text) },
        ),
        Err(_) => cache,
    }
}

impl Default for MapsCache {
    /// A cache that holds nothing.
    fn default() -> (cache: Self)
        ensures
            cache@ == Map::<u32, CachedMapsModel>::empty(),
    {
        let cache = MapsCache { inner: HashMap::new() };
        assert(cache@ =~= Map::<u32, CachedMapsModel>::empty());
        cache
    }
}

impl MapsCache {
    /// The regions of `pid` as far as they are at hand: nothing if the maps
    /// file has to be read, because the caller wants it to be or because what
    /// the cache holds is missing or too old.
    pub fn regions_with(&self, now: u128, pid: u32, force_refresh: bool) -> (regions: Option<
        &Vec<ParsedRegion>,
    >)
        ensures
            match regions {
                Some(regions) => !force_refresh && is_fresh(self@, now, pid)
                    && maps::region_models(regions@) == self@[pid].regions,
                None => force_refresh || !is_fresh(self@, now, pid),
            },
    {
        if force_refresh {
            return None;
        }
        match self.inner.get(&pid) {
            Some(cached) => {
                if now < cached.loaded_at || now - cached.loaded_at < FRESH_NANOS {
                    Some(&cached.regions)
                } else {
                    None
                }
            },
            None => None,
        }
    }

    /// Keeps the regions of `pid`, which were read at `now`.
    fn store(&mut self, now: u128, pid: u32, regions: Vec<ParsedRegion>)
        ensures
            final(self)@ == old(self)@.insert(
                pid,
                CachedMapsModel { loaded_at: now, regions: maps::region_models(regions@) },
            ),
    {
        let cached = CachedMaps { loaded_at: now, regions };
        let ghost before = self@;
        self.inner.insert(pid, cached);
        assert(self@ =~= before.insert(pid, cached@));
    }

    /// Every region of `pid`, given what came of reading its maps file at
    /// `now`. The file is read whatever the cache holds.
    pub fn list(&mut self, now: u128, pid: u32, content: Result<String, String>) -> (listed: Result<
        Vec<MapRegion>,
        MapsError,
    >)
        ensures
            final(self)@ == cache_after(old(self)@, now, pid, outcome_view(content)),
            match (listed, content) {
                (Ok(listed), Ok(text)) => listed@.map_values(|r: MapRegion| r@)
                    == maps::parsed_maps(text@).map_values(|r: ParsedRegionModel| r.region),
                (Err(e), Err(reason)) => e@ == MapsErrorModel::Read(reason@),
                _ => false,
            },
    {
        let text = match content {
            Ok(text) => text,
            Err(reason) => {
                return Err(MapsError::Read(reason));
            },
        };
        let regions = maps::read_maps(text.as_str());
        let mut listed: Vec<MapRegion> = Vec::new();
        let mut i: usize = 0;
        while i < regions.len()
            invariant
                i <= regions@.len(),
                listed@.len() == i,
                forall|j: int| 0 <= j < i ==> #[trigger] listed@[j]@ == regions@[j].region@,
            decreases regions@.len() - i,
        {
            listed.push(regions[i].region.clone());
            i = i + 1;
        }
        proof {
            let all = maps::parsed_maps(text@);
            assert forall|j: int| 0 <= j < listed@.len() implies #[trigger] listed@[j]@
                == all[j].region by {
                assert(maps::region_models(regions@)[j] == regions@[j]@);
            }
            assert(listed@.map_values(|r: MapRegion| r@) =~= all.map_values(
                |r: ParsedRegionModel| r.region,
            ));
        }
        self.store(now, pid, regions);
        Ok(listed)
    }
}

// ---------------------------------------------------------------------------
// The region of an address
// ---------------------------------------------------------------------------

/// Why a lookup wants the maps file to be read.
#[derive(Debug, Clone, Copy, PartialEq, Eq, Structural)]
pub enum Attempt {
    /// The cache held nothing on the process that was still fresh.
    Stale,
    /// The regions looked at so far do not hold the address.
    Missed,
}

/// A lookup of the region of `addr` in `pid`, begun at `now`, that waits for
/// the maps file of `pid`.
#[derive(Debug, Clone, Copy, PartialEq, Eq, Structural)]
pub struct Lookup {
    pub now: u128,
    pub pid: u32,
    pub addr: u64,
    pub attempt: Attempt,
}

/// How far a lookup of a region has come.
#[derive(Debug)]
pub enum ResolveStep {
    /// It is over, with the region of the address if there is one.
    Done(Option<MapRegion>),
    /// The maps file of the process has to be read.
    Read(Lookup),
}

/// What a `ResolveStep` says.
pub enum ResolveStepModel {
    Done(Option<MapRegionModel>),
    Read(Lookup),
}

impl View for ResolveStep {
    type V = ResolveStepModel;

    open spec fn view(&self) -> ResolveStepModel {
        match self {
            ResolveStep::Done(region) => ResolveStepModel::Done(maps::region_view(*region)),
            ResolveStep::Read(lookup) => ResolveStepModel::Read(*lookup),
        }
    }
}

/// The first step of a lookup: a fresh cache may answer it, and decides why
/// the file has to be read where it does not.
pub open spec fn resolve_start(
    cache: Map<u32, CachedMapsModel>,
    now: u128,
    pid: u32,
    addr: u64,
) -> ResolveStepModel {
    if is_fresh(cache, now, pid) {
        match maps::region_at(cache[pid].regions, addr) {
            Some(region) => ResolveStepModel::Done(Some(region)),
            None => ResolveStepModel::Read(Lookup { now, pid, addr, attempt: Attempt::Missed }),
        }
    } else {
        ResolveStepModel::Read(Lookup { now, pid, addr, attempt: Attempt::Stale })
    }
}

/// The region of `addr` in what came of reading a maps file.
pub open spec fn region_in(content: Result<Seq<char>, Seq<char>>, addr: u64) -> Option<
    MapRegionModel,
> {
    match content {
        Ok(text) => maps::region_at(maps::parsed_maps(text), addr),
        Err(_) => None,
    }
}

/// The step of a lookup that follows a read. One without success on account
/// of an old cache is followed by another read, any other ends the lookup.
pub open spec fn resolve_after(
    lookup: Lookup,
    content: Result<Seq<char>, Seq<char>>,
) -> ResolveStepModel {
    match (region_in(content, lookup.addr), lookup.attempt) {
        (Some(region), _) => ResolveStepModel::Done(Some(region)),
        (None, Attempt::Stale) => ResolveStepModel::Read(
            Lookup { attempt: Attempt::Missed, ..lookup },
        ),
        (None, Attempt::Missed) => ResolveStepModel::Done(None),
    }
}

impl MapsCache {
    /// Begins to look up the region of `pid` that holds `addr`.
    pub fn resolve(&self, now: u128, pid: u32, addr: u64) -> (step: ResolveStep)
        ensures
            step@ == resolve_start(self@, now, pid, addr),
    {
        match self.regions_with(now, pid, false) {
            Some(regions) => match maps::find_region(regions, addr) {
                Some(region) => ResolveStep::Done(Some(region)),
                None => ResolveStep::Read(Lookup { now, pid, addr, attempt: Attempt::Missed }),
            },
            None => ResolveStep::Read(Lookup { now, pid, addr, attempt: Attempt::Stale }),
        }
    }

    /// Goes on with a lookup, given what came of reading the maps file.
    pub fn continue_resolve(&mut self, lookup: Lookup, content: Result<String, String>) -> (step:
        ResolveStep)
        ensures
            step@ == resolve_after(lookup, outcome_view(content)),
            final(self)@ == cache_after(
                old(self)@,
                lookup.now,
                lookup.pid,
                outcome_view(content),
            ),
    {
        let found = match content {
            Ok(text) => {
                let regions = maps::read_maps(text.as_str());
                let found = maps::find_region(&regions, lookup.addr);
                self.store(lookup.now, lookup.pid, regions);
                found
            },
            Err(_) => None,
        };
        match found {
            Some(region) => ResolveStep::Done(Some(region)),
            None => match lookup.attempt {
                Attempt::Stale => ResolveStep::Read(
                    Lookup {
                        now: lookup.now,
                        pid: lookup.pid,
                        addr: lookup.addr,
                        attempt: Attempt::Missed,
                    },
                ),
                Attempt::Missed => ResolveStep::Done(None),
            },
        }
    }
}

// ---------------------------------------------------------------------------
// The address of an expression
// ---------------------------------------------------------------------------

/// An address expression, the address it denotes, and the region that holds
/// that address.
#[derive(Debug)]
pub struct ResolvedAddress {
    pub expression: String,
    pub address: String,
    pub value: u64,
    pub map: Option<MapRegion>,
}

/// What a `ResolvedAddress` says.
#[verifier::ext_equal]
pub struct ResolvedAddressModel {
    pub expression: Seq<char>,
    pub address: Seq<char>,
    pub value: u64,
    pub map: Option<MapRegionModel>,
}

impl View for ResolvedAddress {
    type V = ResolvedAddressModel;

    open spec fn view(&self) -> ResolvedAddressModel {
        ResolvedAddressModel {
            expression: self.expression@,
            address: self.address@,
            value: self.value,
            map: maps::region_view(self.map),
        }
    }
}

impl Clone for ResolvedAddress {
    fn clone(&self) -> (copy: Self)
        ensures
            copy == *self,
    {
        ResolvedAddress {
            expression: self.expression.clone(),
            address: self.address.clone(),
            value: self.value,
            map: maps::clone_region(&self.map),
        }
    }
}

/// What an expression waits for.
#[derive(Debug)]
pub enum ExpressionWait {
    /// The maps file of `pid`, wanted since `now`, to find the module in.
    Module { now: u128, pid: u32, expression: String, module: String, offset: u64 },
    /// The maps file that the lookup of the address wants.
    Address { expression: String, lookup: Lookup },
}

/// What an `ExpressionWait` says.
pub enum ExpressionWaitModel {
    Module { now: u128, pid: u32, expression: Seq<char>, module: Seq<char>, offset: u64 },
    Address { expression: Seq<char>, lookup: Lookup },
}

impl View for ExpressionWait {
    type V = ExpressionWaitModel;

    open spec fn view(&self) -> ExpressionWaitModel {
        match self {
            ExpressionWait::Module { now, pid, expression, module, offset } =>
                ExpressionWaitModel::Module {
                now: *now,
                pid: *pid,
                expression: expression@,
                module: module@,
                offset: *offset,
            },
            ExpressionWait::Address { expression, lookup } => ExpressionWaitModel::Address {
                expression: expression@,
                lookup: *lookup,
            },
        }
    }
}

/// How far the resolution of an expression has come.
#[derive(Debug)]
pub enum ExpressionStep {
    /// It is over, with the address or the reason why there is none.
    Done(Result<ResolvedAddress, MapsError>),
    /// The maps file of the process has to be read.
    Read(ExpressionWait),
}

/// What an `ExpressionStep` says.
pub enum ExpressionStepModel {
    Done(Result<ResolvedAddressModel, MapsErrorModel>),
    Read(ExpressionWaitModel),
}

/// What the result of a resolution says.
pub open spec fn resolved_view(resolved: Result<ResolvedAddress, MapsError>) -> Result<
    ResolvedAddressModel,
    MapsErrorModel,
> {
    match resolved {
        Ok(resolved) => Ok(resolved@),
        Err(e) => Err(e@),
    }
}

impl View for ExpressionStep {
    type V = ExpressionStepModel;

    open spec fn view(&self) -> ExpressionStepModel {
        match self {
            ExpressionStep::Done(resolved) => ExpressionStepModel::Done(resolved_view(*resolved)),
            ExpressionStep::Read(wait) => ExpressionStepModel::Read(wait@),
        }
    }
}

/// The step of a resolution that a step of its lookup amounts to.
pub open spec fn address_step(
    expression: Seq<char>,
    addr: u64,
    step: ResolveStepModel,
) -> ExpressionStepModel {
    match step {
        ResolveStepModel::Done(map) => ExpressionStepModel::Done(
            Ok(
                ResolvedAddressModel {
                    expression,
                    address: number::address_text(addr),
                    value: addr,
                    map,
                },
            ),
        ),
        ResolveStepModel::Read(lookup) => ExpressionStepModel::Read(
            ExpressionWaitModel::Address { expression, lookup },
        ),
    }
}

/// The first step of a resolution: a number is looked up, a module has to be
/// found first.
pub open spec fn expression_start(
    cache: Map<u32, CachedMapsModel>,
    now: u128,
    pid: u32,
    expression: Seq<char>,
) -> ExpressionStepModel {
    match expression::numeric_addr(text::trimmed(expression)) {
        Some(addr) => address_step(expression, addr, resolve_start(cache, now, pid, addr)),
        None => match expression::module_offset(expression) {
            Ok((module, offset)) => ExpressionStepModel::Read(
                ExpressionWaitModel::Module { now, pid, expression, module, offset },
            ),
            Err(e) => ExpressionStepModel::Done(Err(e)),
        },
    }
}

/// The address that an expression with a module denotes, given what came of
/// reading the maps file.
pub open spec fn module_address_in(
    content: Result<Seq<char>, Seq<char>>,
    pid: u32,
    module: Seq<char>,
    offset: u64,
    expression: Seq<char>,
) -> Result<u64, MapsErrorModel> {
    match content {
        Ok(text) => expression::module_address(
            maps::parsed_maps(text),
            pid,
            module,
            offset,
            expression,
        ),
        Err(reason) => Err(MapsErrorModel::Read(reason)),
    }
}

/// The cache after a read that a resolution waited for.
pub open spec fn cache_after_wait(
    cache: Map<u32, CachedMapsModel>,
    wait: ExpressionWaitModel,
    content: Result<Seq<char>, Seq<char>>,
) -> Map<u32, CachedMapsModel> {
    match wait {
        ExpressionWaitModel::Module { now, pid, .. } => cache_after(cache, now, pid, content),
        ExpressionWaitModel::Address { lookup, .. } => cache_after(
            cache,
            lookup.now,
            lookup.pid,
            content,
        ),
    }
}

/// The step of a resolution that follows a read which ended at `now`.
pub open spec fn expression_after(
    cache: Map<u32, CachedMapsModel>,
    now: u128,
    wait: ExpressionWaitModel,
    content: Result<Seq<char>, Seq<char>>,
) -> ExpressionStepModel {
    match wait {
        ExpressionWaitModel::Module { pid, expression, module, offset, .. } => match (
        module_address_in(content, pid, module, offset, expression)) {
            Ok(addr) => address_step(
                expression,
                addr,
                resolve_start(cache_after_wait(cache, wait, content), now, pid, addr),
            ),
            Err(e) => ExpressionStepModel::Done(Err(e)),
        },
        ExpressionWaitModel::Address { expression, lookup } => address_step(
            expression,
            lookup.addr,
            resolve_after(lookup, content),
        ),
    }
}

/// The step of a resolution for a step of its lookup.
fn finish_address(expression: String, addr: u64, step: ResolveStep) -> (next: ExpressionStep)
    ensures
        next@ == address_step(expression@, addr, step@),
{
    match step {
        ResolveStep::Done(map) => ExpressionStep::Done(
            Ok(
                ResolvedAddress {
                    expression,
                    address: number::format_address(addr),
                    value: addr,
                    map,
                },
            ),
        ),
        ResolveStep::Read(lookup) => ExpressionStep::Read(
            ExpressionWait::Address { expression, lookup },
        ),
    }
}

impl MapsCache {
    /// Begins to resolve an address expression in the process `pid`.
    pub fn resolve_expression(&self, now: u128, pid: u32, expression: &str) -> (step:
        ExpressionStep)
        ensures
            step@ == expression_start(self@, now, pid, expression@),
    {
        let chars = text::chars_of(expression);
        match expression::parse_address(text::trim(chars.as_slice())) {
            Some(addr) => finish_address(
                expression.to_owned(),
                addr,
                self.resolve(now, pid, addr),
            ),
            None => match expression::parse_module_offset(expression) {
                Ok((module, offset)) => ExpressionStep::Read(
                    ExpressionWait::Module {
                        now,
                        pid,
                        expression: expression.to_owned(),
                        module,
                        offset,
                    },
                ),
                Err(e) => ExpressionStep::Done(Err(e)),
            },
        }
    }

    /// Goes on with an expression, given what came of reading the maps file
    /// that it waited for. The read ended at `now`.
    pub fn continue_expression(
        &mut self,
        now: u128,
        wait: ExpressionWait,
        content: Result<String, String>,
    ) -> (step: ExpressionStep)
        ensures
            step@ == expression_after(old(self)@, now, wait@, outcome_view(content)),
            final(self)@ == cache_after_wait(old(self)@, wait@, outcome_view(content)),
    {
        match wait {
            ExpressionWait::Module { now: wanted, pid, expression, module, offset } => {
                let text = match content {
                    Ok(text) => text,
                    Err(reason) => {
                        return ExpressionStep::Done(Err(MapsError::Read(reason)));
                    },
                };
                let regions = maps::read_maps(text.as_str());
                let found = expression::find_module(&regions, pid, &module, offset, &expression);
                self.store(wanted, pid, regions);
                match found {
                    Ok(addr) => finish_address(expression, addr, self.resolve(now, pid, addr)),
                    Err(e) => ExpressionStep::Done(Err(e)),
                }
            },
            ExpressionWait::Address { expression, lookup } => finish_address(
                expression,
                lookup.addr,
                self.continue_resolve(lookup, content),
            ),
        }
    }
}

// ---------------------------------------------------------------------------
// Laws
// ---------------------------------------------------------------------------

/// Where a lookup stands once it was handed the outcomes `reads`, in order, of
/// the reads that it asked for.
pub open spec fn run_lookup(
    step: ResolveStepModel,
    reads: Seq<Result<Seq<char>, Seq<char>>>,
) -> ResolveStepModel
    decreases reads.len(),
{
    match step {
        ResolveStepModel::Done(_) => step,
        ResolveStepModel::Read(lookup) => if reads.len() == 0 {
            step
        } else {
            run_lookup(resolve_after(lookup, reads[0]), reads.skip(1))
        },
    }
}

/// A lookup ends after two reads at the latest. Its result is the region that
/// a fresh cache has, or else the one in the file as read first, or else, if
/// the cache was not fresh, the one in the file as read again.
pub proof fn law_lookup_ends(
    cache: Map<u32, CachedMapsModel>,
    now: u128,
    pid: u32,
    addr: u64,
    first: Result<Seq<char>, Seq<char>>,
    second: Result<Seq<char>, Seq<char>>,
)
    ensures
        run_lookup(resolve_start(cache, now, pid, addr), seq![first, second])
            == ResolveStepModel::Done(
            if is_fresh(cache, now, pid) {
                match maps::region_at(cache[pid].regions, addr) {
                    Some(region) => Some(region),
                    None => region_in(first, addr),
                }
            } else {
                match region_in(first, addr) {
                    Some(region) => Some(region),
                    None => region_in(second, addr),
                }
            },
        ),
{
    let reads = seq![first, second];
    assert(reads.skip(1) =~= seq![second]);
    assert(seq![second].skip(1) =~= seq![]);
    reveal_with_fuel(run_lookup, 4);
}

/// For a second after a maps file was read, a lookup that finds its region in
/// it needs no other read, and one that does not asks for the file as missed.
/// After that second the file counts as stale.
pub proof fn law_fresh_for_a_second(
    cache: Map<u32, CachedMapsModel>,
    loaded: u128,
    pid: u32,
    content: Seq<char>,
    now: u128,
    addr: u64,
)
    ensures
        ({
            let after = cache_after(cache, loaded, pid, Ok(content));
            let region = maps::region_at(maps::parsed_maps(content), addr);
            &&& now < loaded + FRESH_NANOS && region is Some ==> resolve_start(
                after,
                now,
                pid,
                addr,
            ) == ResolveStepModel::Done(region)
            &&& now < loaded + FRESH_NANOS && region is None ==> resolve_start(
                after,
                now,
                pid,
                addr,
            ) == ResolveStepModel::Read(Lookup { now, pid, addr, attempt: Attempt::Missed })
            &&& now >= loaded + FRESH_NANOS ==> resolve_start(after, now, pid, addr)
                == ResolveStepModel::Read(Lookup { now, pid, addr, attempt: Attempt::Stale })
        }),
{
}

/// Reading the maps file of one process changes nothing for another.
pub proof fn law_processes_are_apart(
    cache: Map<u32, CachedMapsModel>,
    loaded: u128,
    pid: u32,
    content: Result<Seq<char>, Seq<char>>,
    now: u128,
    other: u32,
    addr: u64,
)
    requires
        other != pid,
    ensures
        resolve_start(cache_after(cache, loaded, pid, content), now, other, addr)
            == resolve_start(cache, now, other, addr),
{
}

proof fn lemma_region_at(regions: Seq<ParsedRegionModel>, addr: u64) -> (i: int)
    requires
        maps::region_at(regions, addr) is Some,
    ensures
        0 <= i < regions.len(),
        regions[i].start <= addr < regions[i].end,
        maps::region_at(regions, addr) == Some(regions[i].region),
    decreases regions.len(),
{
    if regions[0].start <= addr < regions[0].end {
        0
    } else {
        let i = lemma_region_at(regions.skip(1), addr);
        assert(regions.skip(1)[i] == regions[i + 1]);
        i + 1
    }
}

proof fn lemma_parsed_bounds(content: Seq<char>, i: int)
    requires
        0 <= i < maps::parsed_maps(content).len(),
    ensures
        maps::parsed_maps(content)[i].region.start == number::address_text(
            maps::parsed_maps(content)[i].start,
        ),
        maps::parsed_maps(content)[i].region.end == number::address_text(
            maps::parsed_maps(content)[i].end,
        ),
{
    let all = text::lines(content);
    let parse = |line: Seq<char>| maps::parsed_line(line);
    let region = maps::parsed_maps(content)[i];
    all.lemma_filter_map_contains(parse, region);
    assert(all.filter_map(parse).contains(region));
}

/// Whether the bounds of a region, read as addresses, enclose `addr`.
pub open spec fn encloses(region: MapRegionModel, addr: u64) -> bool {
    match (expression::numeric_addr(region.start), expression::numeric_addr(region.end)) {
        (Some(start), Some(end)) => start <= addr < end,
        _ => false,
    }
}

/// Whether the texts of a region's bounds are those of the bounds.
pub open spec fn shows_bounds(region: ParsedRegionModel) -> bool {
    &&& region.region.start == number::address_text(region.start)
    &&& region.region.end == number::address_text(region.end)
}

/// Whether every region that the cache holds shows its bounds.
pub open spec fn is_sound(cache: Map<u32, CachedMapsModel>) -> bool {
    forall|pid: u32, i: int|
        cache.contains_key(pid) && 0 <= i < cache[pid].regions.len() ==> shows_bounds(
            #[trigger] cache[pid].regions[i],
        )
}

proof fn lemma_region_encloses(regions: Seq<ParsedRegionModel>, addr: u64)
    requires
        maps::region_at(regions, addr) is Some,
        forall|i: int| 0 <= i < regions.len() ==> shows_bounds(#[trigger] regions[i]),
    ensures
        encloses(maps::region_at(regions, addr)->0, addr),
{
    let i = lemma_region_at(regions, addr);
    assert(shows_bounds(regions[i]));
    expression::law_address_round_trip(regions[i].start);
    expression::law_address_round_trip(regions[i].end);
}

/// The bounds of a region that a lookup finds in a maps file, read as
/// addresses, enclose the address that was looked up.
pub proof fn law_region_holds_address(content: Seq<char>, addr: u64)
    requires
        region_in(Ok(content), addr) is Some,
    ensures
        encloses(region_in(Ok(content), addr)->0, addr),
{
    let regions = maps::parsed_maps(content);
    assert forall|i: int| 0 <= i < regions.len() implies shows_bounds(#[trigger] regions[i]) by {
        lemma_parsed_bounds(content, i);
    }
    lemma_region_encloses(regions, addr);
}

/// An empty cache is sound, and no read that a listing, a lookup or a
/// resolution asks for makes a sound cache unsound.
pub proof fn law_cache_stays_sound(
    cache: Map<u32, CachedMapsModel>,
    now: u128,
    pid: u32,
    wait: ExpressionWaitModel,
    content: Result<Seq<char>, Seq<char>>,
)
    requires
        is_sound(cache),
    ensures
        is_sound(Map::<u32, CachedMapsModel>::empty()),
        is_sound(cache_after(cache, now, pid, content)),
        is_sound(cache_after_wait(cache, wait, content)),
{
    if let Ok(text) = content {
        let regions = maps::parsed_maps(text);
        assert forall|i: int| 0 <= i < regions.len() implies shows_bounds(#[trigger] regions[i]) by {
            lemma_parsed_bounds(text, i);
        }
    }
}

/// On a sound cache a region that a lookup ends with encloses the address that
/// was looked up, whether the cache has it or a read.
pub proof fn law_lookup_encloses_address(
    cache: Map<u32, CachedMapsModel>,
    now: u128,
    pid: u32,
    addr: u64,
    lookup: Lookup,
    content: Result<Seq<char>, Seq<char>>,
)
    requires
        is_sound(cache),
    ensures
        resolve_start(cache, now, pid, addr) matches ResolveStepModel::Done(Some(region))
            ==> encloses(region, addr),
        resolve_after(lookup, content) matches ResolveStepModel::Done(Some(region)) ==> encloses(
            region,
            lookup.addr,
        ),
{
    if is_fresh(cache, now, pid) && maps::region_at(cache[pid].regions, addr) is Some {
        lemma_region_encloses(cache[pid].regions, addr);
    }
    if let Ok(text) = content {
        if region_in(content, lookup.addr) is Some {
            law_region_holds_address(text, lookup.addr);
        }
    }
}

/// On a sound cache the region that a resolution gives encloses the address
/// that it gives.
pub proof fn law_resolution_encloses_address(
    cache: Map<u32, CachedMapsModel>,
    now: u128,
    pid: u32,
    expression: Seq<char>,
    wait: ExpressionWaitModel,
    content: Result<Seq<char>, Seq<char>>,
)
    requires
        is_sound(cache),
    ensures
        expression_start(cache, now, pid, expression) matches ExpressionStepModel::Done(Ok(r))
            ==> (r.map is Some ==> encloses(r.map->0, r.value)),
        expression_after(cache, now, wait, content) matches ExpressionStepModel::Done(Ok(r)) ==> (
        r.map is Some ==> encloses(r.map->0, r.value)),
{
    if let Some(addr) = expression::numeric_addr(text::trimmed(expression)) {
        let lookup = Lookup { now, pid, addr, attempt: Attempt::Missed };
        law_lookup_encloses_address(cache, now, pid, addr, lookup, content);
    }
    match wait {
        ExpressionWaitModel::Module { now: wanted, pid, expression, module, offset } => {
            if let Ok(addr) = module_address_in(content, pid, module, offset, expression) {
                let after = cache_after_wait(cache, wait, content);
                let lookup = Lookup { now, pid, addr, attempt: Attempt::Missed };
                law_cache_stays_sound(cache, wanted, pid, wait, content);
                law_lookup_encloses_address(after, now, pid, addr, lookup, content);
            }
        },
        ExpressionWaitModel::Address { lookup, .. } => {
            law_lookup_encloses_address(cache, now, lookup.pid, lookup.addr, lookup, content);
        },
    }
}

/// The address that a resolution gives resolves to itself: written as an
/// expression it is looked up as the same number.
pub proof fn law_address_resolves_to_itself(
    cache: Map<u32, CachedMapsModel>,
    now: u128,
    pid: u32,
    addr: u64,
)
    ensures
        expression_start(cache, now, pid, number::address_text(addr)) == address_step(
            number::address_text(addr),
            addr,
            resolve_start(cache, now, pid, addr),
        ),
{
    expression::law_address_round_trip(addr);
}

/// What a resolution gives: the expression that was asked for, and the text of
/// the address it denotes.
pub proof fn law_resolution_is_faithful(
    cache: Map<u32, CachedMapsModel>,
    now: u128,
    pid: u32,
    expression: Seq<char>,
    wait: ExpressionWaitModel,
    content: Result<Seq<char>, Seq<char>>,
)
    ensures
        expression_start(cache, now, pid, expression) matches ExpressionStepModel::Done(Ok(r))
            ==> r.expression == expression && r.address == number::address_text(r.value),
        expression_after(cache, now, wait, content) matches ExpressionStepModel::Done(Ok(r)) ==> {
            &&& r.address == number::address_text(r.value)
            &&& match wait {
                ExpressionWaitModel::Module { expression, .. } => r.expression == expression,
                ExpressionWaitModel::Address { expression, lookup } => r.expression == expression
                    && r.value == lookup.addr,
            }
        },
{
}

/// Where a resolution stands once it was handed the outcomes `reads`, in
/// order, of the reads that it asked for, each with the time when it ended.
pub open spec fn run_expression(
    cache: Map<u32, CachedMapsModel>,
    step: ExpressionStepModel,
    reads: Seq<(u128, Result<Seq<char>, Seq<char>>)>,
) -> ExpressionStepModel
    decreases reads.len(),
{
    match step {
        ExpressionStepModel::Done(_) => step,
        ExpressionStepModel::Read(wait) => if reads.len() == 0 {
            step
        } else {
            run_expression(
                cache_after_wait(cache, wait, reads[0].1),
                expression_after(cache, reads[0].0, wait, reads[0].1),
                reads.skip(1),
            )
        },
    }
}

/// The address that an expression denotes. Where it names a module, `content`
/// is what came of reading the maps file.
pub open spec fn denoted(
    pid: u32,
    expression: Seq<char>,
    content: Result<Seq<char>, Seq<char>>,
) -> Result<u64, MapsErrorModel> {
    match expression::numeric_addr(text::trimmed(expression)) {
        Some(addr) => Ok(addr),
        None => match expression::module_offset(expression) {
            Ok((module, offset)) => module_address_in(content, pid, module, offset, expression),
            Err(e) => Err(e),
        },
    }
}

/// Where the lookup that belongs to a resolution stands in the end. It begins
/// at once for a number, and for a module once the maps file is read, and it is
/// handed the outcomes of the reads that follow.
pub open spec fn final_lookup(
    cache: Map<u32, CachedMapsModel>,
    now: u128,
    pid: u32,
    expression: Seq<char>,
    addr: u64,
    reads: Seq<(u128, Result<Seq<char>, Seq<char>>)>,
) -> ResolveStepModel {
    if expression::numeric_addr(text::trimmed(expression)) is Some {
        run_lookup(resolve_start(cache, now, pid, addr), outcomes(reads))
    } else {
        run_lookup(
            resolve_start(cache_after(cache, now, pid, reads[0].1), reads[0].0, pid, addr),
            outcomes(reads.skip(1)),
        )
    }
}

/// The outcomes of reads without their times.
pub open spec fn outcomes(reads: Seq<(u128, Result<Seq<char>, Seq<char>>)>) -> Seq<
    Result<Seq<char>, Seq<char>>,
> {
    reads.map_values(|read: (u128, Result<Seq<char>, Seq<char>>)| read.1)
}

proof fn lemma_run_address(
    cache: Map<u32, CachedMapsModel>,
    expression: Seq<char>,
    addr: u64,
    step: ResolveStepModel,
    reads: Seq<(u128, Result<Seq<char>, Seq<char>>)>,
)
    requires
        step matches ResolveStepModel::Read(lookup) ==> lookup.addr == addr,
    ensures
        run_expression(cache, address_step(expression, addr, step), reads) == address_step(
            expression,
            addr,
            run_lookup(step, outcomes(reads)),
        ),
    decreases reads.len(),
{
    if let ResolveStepModel::Read(lookup) = step {
        if reads.len() > 0 {
            let wait = ExpressionWaitModel::Address { expression, lookup };
            lemma_run_address(
                cache_after_wait(cache, wait, reads[0].1),
                expression,
                addr,
                resolve_after(lookup, reads[0].1),
                reads.skip(1),
            );
            assert(outcomes(reads).skip(1) =~= outcomes(reads.skip(1)));
        }
    }
}

proof fn lemma_lookup_done(step: ResolveStepModel, reads: Seq<Result<Seq<char>, Seq<char>>>)
    requires
        reads.len() >= 2,
    ensures
        run_lookup(step, reads) is Done,
{
    reveal_with_fuel(run_lookup, 4);
}

/// A resolution ends after three reads at the latest. It gives the address
/// that the expression denotes and the region that the lookup of that address
/// ends with, or the error that keeps the expression from denoting one.
pub proof fn law_resolution_ends(
    cache: Map<u32, CachedMapsModel>,
    now: u128,
    pid: u32,
    expression: Seq<char>,
    reads: Seq<(u128, Result<Seq<char>, Seq<char>>)>,
)
    requires
        reads.len() == 3,
    ensures
        match (
            run_expression(cache, expression_start(cache, now, pid, expression), reads),
            denoted(pid, expression, reads[0].1),
        ) {
            (ExpressionStepModel::Done(Ok(r)), Ok(addr)) => {
                &&& r.expression == expression
                &&& r.value == addr
                &&& r.address == number::address_text(addr)
                &&& ResolveStepModel::Done(r.map) == final_lookup(
                    cache,
                    now,
                    pid,
                    expression,
                    addr,
                    reads,
                )
            },
            (ExpressionStepModel::Done(Err(e)), Err(reason)) => e == reason,
            _ => false,
        },
{
    reveal_with_fuel(run_expression, 2);
    match (
        expression::numeric_addr(text::trimmed(expression)),
        denoted(pid, expression, reads[0].1),
    ) {
        (Some(_), Ok(addr)) => {
            let start = resolve_start(cache, now, pid, addr);
            lemma_run_address(cache, expression, addr, start, reads);
            lemma_lookup_done(start, outcomes(reads));
        },
        (None, Ok(addr)) => {
            let read = cache_after(cache, now, pid, reads[0].1);
            let start = resolve_start(read, reads[0].0, pid, addr);
            lemma_run_address(read, expression, addr, start, reads.skip(1));
            lemma_lookup_done(start, outcomes(reads.skip(1)));
        },
        _ => {},
    }
}

/// What the cache holds on a process is used again for one second, a thousand
/// million nanoseconds, after it was read, and not at all if a read is wanted.
pub proof fn law_regions_at_hand(
    cache: &MapsCache,
    now: u128,
    pid: u32,
    force_refresh: bool,
    regions: Option<&Vec<ParsedRegion>>,
)
    requires
        call_ensures(MapsCache::regions_with, (cache, now, pid, force_refresh), regions),
    ensures
        regions is Some <==> !force_refresh && cache@.contains_key(pid) && now
            < cache@[pid].loaded_at + 1_000_000_000,
        regions is Some ==> regions->0@.len() == cache@[pid].regions.len(),
        forall|i: int|
            regions is Some && 0 <= i < regions->0@.len() ==> (#[trigger] regions->0@[i])@
                == cache@[pid].regions[i],
{
    if regions is Some {
        let models = maps::region_models(regions->0@);
        assert(models.len() == cache@[pid].regions.len());
        assert forall|i: int| 0 <= i < regions->0@.len() implies (#[trigger] regions->0@[i])@
            == cache@[pid].regions[i] by {
            assert(models[i] == regions->0@[i]@);
        }
    }
}

/// Whether `after` is `before` once the maps file of `pid` was read at `now`:
/// its regions and the time are kept, and nothing is changed on any other
/// process. A file that could not be read changes nothing.
pub open spec fn keeps_read(
    before: Map<u32, CachedMapsModel>,
    after: Map<u32, CachedMapsModel>,
    now: u128,
    pid: u32,
    content: Result<String, String>,
) -> bool {
    match content {
        Ok(text) => {
            &&& after.contains_key(pid)
            &&& after[pid].loaded_at == now
            &&& after[pid].regions == maps::parsed_maps(text@)
            &&& forall|other: u32|
                other != pid ==> (#[trigger] after.contains_key(other) <==> before.contains_key(
                    other,
                )) && (before.contains_key(other) ==> after[other] == before[other])
        },
        Err(_) => after == before,
    }
}

/// A listing gives every region of the file that was read, in order, and keeps
/// what was read; a file that could not be read gives the reason.
pub proof fn law_listing_gives_the_file(
    cache: &mut MapsCache,
    now: u128,
    pid: u32,
    content: Result<String, String>,
    listed: Result<Vec<MapRegion>, MapsError>,
)
    requires
        call_ensures(MapsCache::list, (cache, now, pid, content), listed),
    ensures
        keeps_read(old(cache)@, final(cache)@, now, pid, content),
        match (content, listed) {
            (Ok(text), Ok(listed)) => {
                &&& listed@.len() == maps::parsed_maps(text@).len()
                &&& forall|i: int|
                    0 <= i < listed@.len() ==> (#[trigger] listed@[i])@ == maps::parsed_maps(
                        text@,
                    )[i].region
            },
            (Err(reason), Err(MapsError::Read(given))) => given@ == reason@,
            _ => false,
        },
{
    if let Ok(text) = content {
        let all = maps::parsed_maps(text@).map_values(|r: ParsedRegionModel| r.region);
        let models = listed->Ok_0@.map_values(|r: MapRegion| r@);
        assert(models == all);
        assert(models.len() == listed->Ok_0@.len());
        assert forall|i: int| 0 <= i < listed->Ok_0@.len() implies (#[trigger] listed->Ok_0@[i])@
            == maps::parsed_maps(text@)[i].region by {
            assert(models[i] == all[i]);
        }
    }
}

/// Whether `k` is the index of the first region that holds `addr`, or the
/// number of regions if none does.
pub open spec fn is_first_holding(regions: Seq<ParsedRegionModel>, addr: u64, k: int) -> bool {
    &&& 0 <= k <= regions.len()
    &&& forall|i: int|
        0 <= i < k ==> addr < (#[trigger] regions[i]).start || regions[i].end <= addr
    &&& k < regions.len() ==> regions[k].start <= addr < regions[k].end
}

/// A lookup is answered from what was read within the last second, with the
/// first region that holds the address. If there is none, the file is to be
/// read once more; if nothing was read within that second, it is to be read.
pub proof fn law_lookup_begins(
    cache: &MapsCache,
    now: u128,
    pid: u32,
    addr: u64,
    step: ResolveStep,
    k: int,
)
    requires
        call_ensures(MapsCache::resolve, (cache, now, pid, addr), step),
        cache@.contains_key(pid) ==> is_first_holding(cache@[pid].regions, addr, k),
    ensures
        ({
            let fresh = cache@.contains_key(pid) && now < cache@[pid].loaded_at + 1_000_000_000;
            match step {
                ResolveStep::Done(Some(region)) => fresh && k < cache@[pid].regions.len()
                    && region@ == cache@[pid].regions[k].region,
                ResolveStep::Done(None) => false,
                ResolveStep::Read(lookup) => {
                    &&& lookup.now == now && lookup.pid == pid && lookup.addr == addr
                    &&& lookup.attempt == Attempt::Missed <==> fresh
                    &&& fresh ==> k == cache@[pid].regions.len()
                },
            }
        }),
{
    if cache@.contains_key(pid) {
        maps::lemma_first_region(cache@[pid].regions, addr, k);
    }
}

/// A read ends a lookup with the first region of the file that holds the
/// address. Without such a region, or without the file, a lookup that had
/// nothing to look at before wants another read, and any other ends in vain.
pub proof fn law_lookup_goes_on(
    cache: &mut MapsCache,
    lookup: Lookup,
    content: Result<String, String>,
    step: ResolveStep,
    k: int,
)
    requires
        call_ensures(MapsCache::continue_resolve, (cache, lookup, content), step),
        content matches Ok(text) ==> is_first_holding(
            maps::parsed_maps(text@),
            lookup.addr,
            k,
        ),
    ensures
        keeps_read(old(cache)@, final(cache)@, lookup.now, lookup.pid, content),
        ({
            let found = content is Ok && k < maps::parsed_maps(content->Ok_0@).len();
            match step {
                ResolveStep::Done(Some(region)) => found && region@ == maps::parsed_maps(
                    content->Ok_0@,
                )[k].region,
                ResolveStep::Done(None) => !found && lookup.attempt == Attempt::Missed,
                ResolveStep::Read(next) => {
                    &&& !found && lookup.attempt == Attempt::Stale
                    &&& next.now == lookup.now && next.pid == lookup.pid && next.addr == lookup.addr
                    &&& next.attempt == Attempt::Missed
                },
            }
        }),
{
    if let Ok(text) = content {
        maps::lemma_first_region(maps::parsed_maps(text@), lookup.addr, k);
    }
}

/// Whether a step of a resolution is what a step of the lookup of `addr` makes
/// it: the end of the one is the end of the other, with the expression, the
/// address and its text, and the region that was found.
pub open spec fn follows_lookup(
    step: ExpressionStep,
    expression: Seq<char>,
    addr: u64,
    lookup: ResolveStep,
) -> bool {
    match (step, lookup) {
        (ExpressionStep::Done(Ok(resolved)), ResolveStep::Done(region)) => {
            &&& resolved.expression@ == expression
            &&& resolved.value == addr
            &&& resolved.address@ == number::address_text(addr)
            &&& resolved.map is Some <==> region is Some
            &&& region is Some ==> resolved.map->0@ == region->0@
        },
        (
            ExpressionStep::Read(ExpressionWait::Address { expression: e, lookup }),
            ResolveStep::Read(wanted),
        ) => e@ == expression && lookup == wanted,
        _ => false,
    }
}

/// An expression that is a number is looked up at once. Any other names a
/// module and an offset, and the maps file is to be read, or it names nothing
/// and is refused for the reason that its parts give.
pub proof fn law_expression_begins(
    cache: &MapsCache,
    now: u128,
    pid: u32,
    expression: &str,
    step: ExpressionStep,
    addr: u64,
    lookup: ResolveStep,
    parsed: Result<(String, u64), MapsError>,
)
    requires
        call_ensures(MapsCache::resolve_expression, (cache, now, pid, expression), step),
        call_ensures(MapsCache::resolve, (cache, now, pid, addr), lookup),
        call_ensures(expression::parse_module_offset, (expression,), parsed),
    ensures
        expression::numeric_addr(text::trimmed(expression@)) == Some(addr) ==> follows_lookup(
            step,
            expression@,
            addr,
            lookup,
        ),
        expression::numeric_addr(text::trimmed(expression@)) is None ==> match (step, parsed) {
            (
                ExpressionStep::Read(
                    ExpressionWait::Module { now: n, pid: p, expression: e, module, offset },
                ),
                Ok((m, o)),
            ) => n == now && p == pid && e@ == expression@ && module@ == m@ && offset == o,
            (ExpressionStep::Done(Err(e)), Err(reason)) => e@ == reason@,
            _ => false,
        },
{
}

/// Once the maps file is read, an expression with a module is looked up at the
/// address which its first region and the offset give. Where there is no such
/// address it is refused for that reason, and where there is no file for the
/// reason of that. What was read is kept from the time when it was wanted.
pub proof fn law_module_is_found(
    cache: &mut MapsCache,
    after: &MapsCache,
    now: u128,
    wait: ExpressionWait,
    content: Result<String, String>,
    step: ExpressionStep,
    regions: &Vec<ParsedRegion>,
    found: Result<u64, MapsError>,
    lookup: ResolveStep,
)
    requires
        wait is Module,
        call_ensures(MapsCache::continue_expression, (cache, now, wait, content), step),
        after@ == final(cache)@,
        content matches Ok(text) ==> maps::region_models(regions@) == maps::parsed_maps(text@),
        call_ensures(
            expression::find_module,
            (
                regions,
                wait->pid,
                &wait->module,
                wait->offset,
                &wait->Module_expression,
            ),
            found,
        ),
        found matches Ok(addr) ==> call_ensures(
            MapsCache::resolve,
            (after, now, wait->pid, addr),
            lookup,
        ),
    ensures
        keeps_read(old(cache)@, final(cache)@, wait->now, wait->pid, content),
        match (content, found) {
            (Ok(_), Ok(addr)) => follows_lookup(step, wait->Module_expression@, addr, lookup),
            (Ok(_), Err(reason)) => match step {
                ExpressionStep::Done(Err(e)) => e@ == reason@,
                _ => false,
            },
            (Err(reason), _) => match step {
                ExpressionStep::Done(Err(MapsError::Read(given))) => given@ == reason@,
                _ => false,
            },
        },
{
}

/// An expression whose address is known goes on as the lookup does.
pub proof fn law_address_goes_on(
    cache: &mut MapsCache,
    other: &mut MapsCache,
    now: u128,
    expression: String,
    lookup: Lookup,
    content: Result<String, String>,
    step: ExpressionStep,
    next: ResolveStep,
)
    requires
        call_ensures(
            MapsCache::continue_expression,
            (cache, now, ExpressionWait::Address { expression, lookup }, content),
            step,
        ),
        call_ensures(MapsCache::continue_resolve, (other, lookup, content), next),
    ensures
        keeps_read(old(cache)@, final(cache)@, lookup.now, lookup.pid, content),
        follows_lookup(step, expression@, lookup.addr, next),
{
}

/// The address that a module and an offset denote together is as far from the
/// start of the first region of the module as the offset says. If no region
/// belongs to the module or the sum is too large, they denote none.
pub proof fn law_module_plus_offset(
    pid: u32,
    module: Seq<char>,
    offset: u64,
    content: Seq<char>,
    k: int,
)
    requires
        module.len() > 0,
        !text::is_white_space(module[0]),
        !text::is_white_space(module[module.len() - 1]),
        !module.contains('+'),
        0 <= k <= maps::parsed_maps(content).len(),
        forall|i: int|
            0 <= i < k ==> !expression::in_module(
                (#[trigger] maps::parsed_maps(content)[i]).region,
                module,
            ),
        k < maps::parsed_maps(content).len() ==> expression::in_module(
            maps::parsed_maps(content)[k].region,
            module,
        ),
    ensures
        ({
            let regions = maps::parsed_maps(content);
            let expression = module + seq!['+'] + number::hex_text(offset);
            match denoted(pid, expression, Ok(content)) {
                Ok(addr) => k < regions.len() && addr - regions[k].start == offset,
                Err(MapsErrorModel::ModuleNotFound { pid: p, module: m }) => k == regions.len() && p
                    == pid && m == module,
                Err(MapsErrorModel::Overflow(e)) => k < regions.len() && regions[k].start + offset
                    > 0xffff_ffff_ffff_ffff && e == expression,
                _ => false,
            }
        }),
{
    let regions = maps::parsed_maps(content);
    lemma_module_text(module, offset);
    expression::lemma_first_of_module(regions, module, k);
}

proof fn lemma_ends_kept(s: Seq<char>)
    requires
        s.len() > 0,
        !text::is_white_space(s[0]),
        !text::is_white_space(s[s.len() - 1]),
    ensures
        text::trimmed(s) == s,
{
    let none = Seq::<char>::empty();
    text::law_trimmed(none, s, none);
    assert(none + s + none =~= s);
}

proof fn lemma_offset_text(offset: u64)
    ensures
        number::hex_text(offset).len() > 2,
        number::hex_text(offset)[1] == 'x',
        !text::is_white_space(number::hex_text(offset)[number::hex_text(offset).len() - 1]),
        text::trimmed(number::hex_text(offset)) == number::hex_text(offset),
        expression::numeric_addr(number::hex_text(offset)) == Some(offset),
{
    let s = number::hex_text(offset);
    let d = number::digits(offset as nat, 16);
    number::law_plain_texts(offset);
    number::lemma_digits_value(offset as nat, 16);
    assert(number::digit_of(d[d.len() - 1]) < 16);
    assert(s[s.len() - 1] == d[d.len() - 1]);
    lemma_ends_kept(s);
    text::law_strip_prefix(s, seq!['0', 'x'], d);
    assert(s.skip(2) =~= d);
}

proof fn lemma_no_number(s: Seq<char>, x: int)
    requires
        3 <= x < s.len(),
        s[x] == 'x',
    ensures
        expression::numeric_addr(s) is None,
{
    let rest = s.skip(2);
    let digits = number::without_plus(rest);
    assert(number::digit_of(s[x]) == 16);
    assert(number::hex_u64(rest) is None) by {
        if rest[0] == '+' {
            assert(digits[x - 3] == s[x]);
        } else {
            assert(digits[x - 2] == s[x]);
        }
    }
}

proof fn lemma_module_text(module: Seq<char>, offset: u64)
    requires
        module.len() > 0,
        !text::is_white_space(module[0]),
        !text::is_white_space(module[module.len() - 1]),
        !module.contains('+'),
    ensures
        ({
            let s = module + seq!['+'] + number::hex_text(offset);
            &&& expression::numeric_addr(text::trimmed(s)) is None
            &&& expression::module_offset(s) == Ok::<(Seq<char>, u64), MapsErrorModel>(
                (module, offset),
            )
        }),
{
    let tail = number::hex_text(offset);
    let s = module + seq!['+'] + tail;
    lemma_offset_text(offset);
    assert(s[0] == module[0]);
    assert(s[s.len() - 1] == tail[tail.len() - 1]);
    let x = module.len() as int + 2;
    assert(s[x] == tail[1]);
    lemma_ends_kept(s);
    lemma_ends_kept(module);
    lemma_no_number(s, x);
    text::law_split_once(module, '+', tail);
}

/// What a cached file and a resolved address say leaves nothing out.
pub proof fn law_resolutions_say_everything(
    a: CachedMaps,
    b: CachedMaps,
    c: ResolvedAddress,
    d: ResolvedAddress,
)
    ensures
        a@ == b@ ==> a.loaded_at == b.loaded_at && a.regions@.len() == b.regions@.len() && forall|
            i: int,
        |
            0 <= i < a.regions@.len() ==> (#[trigger] a.regions@[i])@ == b.regions@[i]@,
        c@ == d@ ==> {
            &&& c.expression@ == d.expression@
            &&& c.address@ == d.address@
            &&& c.value == d.value
            &&& c.map is Some <==> d.map is Some
            &&& c.map is Some ==> c.map->0@ == d.map->0@
        },
{
    if a@ == b@ {
        let models = maps::region_models(a.regions@);
        let others = maps::region_models(b.regions@);
        assert(models == others);
        assert(models.len() == a.regions@.len() && others.len() == b.regions@.len());
        assert forall|i: int| 0 <= i < a.regions@.len() implies (#[trigger] a.regions@[i])@
            == b.regions@[i]@ by {
            assert(models[i] == others[i]);
        }
    }
}

/// At first the cache holds nothing.
pub proof fn law_nothing_cached_at_first(cache: MapsCache, pid: u32)
    requires
        call_ensures(MapsCache::default, (), cache),
    ensures
        !cache@.contains_key(pid),
{
}

/// A copy of a resolved address says what that says.
pub proof fn law_copies_of_resolved_addresses(resolved: ResolvedAddress, copy: ResolvedAddress)
    requires
        call_ensures(ResolvedAddress::clone, (&resolved,), copy),
    ensures
        copy@ == resolved@,
{
}

} // verus!
