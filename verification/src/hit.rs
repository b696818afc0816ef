//! Hits of watchpoints: what a sample says once its addresses are written out
//! and put into the regions that hold them.

use crate::maps::{AddressResolution, AddressResolutionModel, MapRegion, MapRegionModel};
use crate::perf::SampleData;
use crate::{expression, maps, number};
use vstd::prelude::*;

verus! {

// ---------------------------------------------------------------------------
// Hits
// ---------------------------------------------------------------------------

/// One hit of a watchpoint.
#[derive(Debug)]
pub struct Hit {
    pub seq: u64,
    pub breakpoint_id: u64,
    pub pid: u32,
    pub tid: u32,
    pub timestamp_ms: u128,
    pub regs: Vec<RegisterValue>,
    pub backtrace: Option<Vec<String>>,
    pub backtrace_frames: Option<Vec<AddressValue>>,
}

/// One register at a hit.
#[derive(Debug)]
pub struct RegisterValue {
    pub name: &'static str,
    pub value: String,
    pub map: Option<MapRegion>,
    pub resolved: Option<AddressResolution>,
    pub display: String,
}

/// One return address at a hit.
#[derive(Debug)]
pub struct AddressValue {
    pub value: String,
    pub resolved: Option<AddressResolution>,
    pub display: String,
}

/// What a `Hit` says.
#[verifier::ext_equal]
pub struct HitModel {
    pub seq: u64,
    pub breakpoint_id: u64,
    pub pid: u32,
    pub tid: u32,
    pub timestamp_ms: u128,
    pub regs: Seq<RegisterModel>,
    pub backtrace: Option<Seq<Seq<char>>>,
    pub backtrace_frames: Option<Seq<AddressModel>>,
}

/// What a `RegisterValue` says.
#[verifier::ext_equal]
pub struct RegisterModel {
    pub name: Seq<char>,
    pub value: Seq<char>,
    pub map: Option<MapRegionModel>,
    pub resolved: Option<AddressResolutionModel>,
    pub display: Seq<char>,
}

/// What an `AddressValue` says.
#[verifier::ext_equal]
pub struct AddressModel {
    pub value: Seq<char>,
    pub resolved: Option<AddressResolutionModel>,
    pub display: Seq<char>,
}

/// What an optional resolution says.
pub open spec fn resolution_view(resolved: Option<AddressResolution>) -> Option<
    AddressResolutionModel,
> {
    match resolved {
        Some(resolved) => Some(resolved@),
        None => None,
    }
}

impl View for RegisterValue {
    type V = RegisterModel;

    open spec fn view(&self) -> RegisterModel {
        RegisterModel {
            name: self.name@,
            value: self.value@,
            map: maps::region_view(self.map),
            resolved: resolution_view(self.resolved),
            display: self.display@,
        }
    }
}

impl View for AddressValue {
    type V = AddressModel;

    open spec fn view(&self) -> AddressModel {
        AddressModel {
            value: self.value@,
            resolved: resolution_view(self.resolved),
            display: self.display@,
        }
    }
}

/// The texts of optional strings.
pub open spec fn texts_view(texts: Option<Vec<String>>) -> Option<Seq<Seq<char>>> {
    match texts {
        Some(texts) => Some(texts@.map_values(|s: String| s@)),
        None => None,
    }
}

/// What optional return addresses say.
pub open spec fn frames_view(frames: Option<Vec<AddressValue>>) -> Option<Seq<AddressModel>> {
    match frames {
        Some(frames) => Some(frames@.map_values(|f: AddressValue| f@)),
        None => None,
    }
}

impl View for Hit {
    type V = HitModel;

    open spec fn view(&self) -> HitModel {
        HitModel {
            seq: self.seq,
            breakpoint_id: self.breakpoint_id,
            pid: self.pid,
            tid: self.tid,
            timestamp_ms: self.timestamp_ms,
            regs: self.regs@.map_values(|r: RegisterValue| r@),
            backtrace: texts_view(self.backtrace),
            backtrace_frames: frames_view(self.backtrace_frames),
        }
    }
}

/// A copy of an optional resolution.
fn clone_resolution(resolved: &Option<AddressResolution>) -> (copy: Option<AddressResolution>)
    ensures
        copy == *resolved,
{
    match resolved {
        Some(resolved) => Some(resolved.clone()),
        None => None,
    }
}

impl Clone for RegisterValue {
    fn clone(&self) -> (copy: Self)
        ensures
            copy == *self,
    {
        RegisterValue {
            name: self.name,
            value: self.value.clone(),
            map: maps::clone_region(&self.map),
            resolved: clone_resolution(&self.resolved),
            display: self.display.clone(),
        }
    }
}

impl Clone for AddressValue {
    fn clone(&self) -> (copy: Self)
        ensures
            copy == *self,
    {
        AddressValue {
            value: self.value.clone(),
            resolved: clone_resolution(&self.resolved),
            display: self.display.clone(),
        }
    }
}

impl Clone for Hit {
    fn clone(&self) -> (copy: Self)
        ensures
            copy@ == self@,
    {
        let regs = self.regs.clone();
        assert(regs@ =~= self.regs@);
        let backtrace = match &self.backtrace {
            Some(texts) => {
                let copied = texts.clone();
                assert(copied@ =~= texts@);
                Some(copied)
            },
            None => None,
        };
        let backtrace_frames = match &self.backtrace_frames {
            Some(frames) => {
                let copied = frames.clone();
                assert(copied@ =~= frames@);
                Some(copied)
            },
            None => None,
        };
        Hit {
            seq: self.seq,
            breakpoint_id: self.breakpoint_id,
            pid: self.pid,
            tid: self.tid,
            timestamp_ms: self.timestamp_ms,
            regs,
            backtrace,
            backtrace_frames,
        }
    }
}

// ---------------------------------------------------------------------------
// From samples to hits
// ---------------------------------------------------------------------------

/// An address as it is shown: its text, and in brackets what is known of it.
pub open spec fn display_text(addr: u64, resolved: Option<AddressResolutionModel>) -> Seq<char> {
    match resolved {
        Some(resolved) => number::address_text(addr) + " ("@ + resolved.display + ")"@,
        None => number::address_text(addr),
    }
}

/// What is known of the address with index `i`; nothing is known of one that
/// has no entry.
pub open spec fn resolution_at(resolutions: Seq<Option<AddressResolution>>, i: int) -> Option<
    AddressResolutionModel,
> {
    if 0 <= i < resolutions.len() {
        resolution_view(resolutions[i])
    } else {
        None
    }
}

/// What a hit says of a register.
pub open spec fn register_model(
    name: Seq<char>,
    value: u64,
    resolved: Option<AddressResolutionModel>,
) -> RegisterModel {
    RegisterModel {
        name,
        value: number::address_text(value),
        map: match resolved {
            Some(resolved) => Some(resolved.region),
            None => None,
        },
        resolved,
        display: display_text(value, resolved),
    }
}

/// What a hit says of a return address.
pub open spec fn frame_model(addr: u64, resolved: Option<AddressResolutionModel>) -> AddressModel {
    AddressModel {
        value: number::address_text(addr),
        resolved,
        display: display_text(addr, resolved),
    }
}

/// What a hit says of the registers of a sample.
pub open spec fn registers_model(
    regs: Seq<u64>,
    names: Seq<&'static str>,
    resolutions: Seq<Option<AddressResolution>>,
) -> Seq<RegisterModel> {
    Seq::new(
        regs.len(),
        |i: int| register_model(names[i]@, regs[i], resolution_at(resolutions, i)),
    )
}

/// The texts of return addresses.
pub open spec fn addresses_text(frames: Seq<u64>) -> Seq<Seq<char>> {
    frames.map_values(|addr: u64| number::address_text(addr))
}

/// What a hit says of the return addresses of a sample.
pub open spec fn frames_model(
    frames: Seq<u64>,
    resolutions: Option<Vec<Option<AddressResolution>>>,
) -> Seq<AddressModel> {
    Seq::new(
        frames.len(),
        |i: int|
            frame_model(
                frames[i],
                match resolutions {
                    Some(resolutions) => resolution_at(resolutions@, i),
                    None => None,
                },
            ),
    )
}

/// The text of an address as it is shown.
pub fn display_address(addr: u64, resolved: Option<&AddressResolution>) -> (shown: String)
    ensures
        shown@ == display_text(
            addr,
            match resolved {
                Some(resolved) => Some(resolved@),
                None => None,
            },
        ),
{
    let mut shown = number::format_address(addr);
    if let Some(resolved) = resolved {
        shown.append(" (");
        shown.append(resolved.display.as_str());
        shown.append(")");
    }
    shown
}

/// What is known of the address with index `i`.
fn resolution(resolutions: &Vec<Option<AddressResolution>>, i: usize) -> (resolved: Option<
    AddressResolution,
>)
    ensures
        resolution_view(resolved) == resolution_at(resolutions@, i as int),
{
    if i < resolutions.len() {
        clone_resolution(&resolutions[i])
    } else {
        None
    }
}

fn make_registers(
    regs: &Vec<u64>,
    names: &Vec<&'static str>,
    resolutions: &Vec<Option<AddressResolution>>,
) -> (made: Vec<RegisterValue>)
    requires
        regs@.len() <= names@.len(),
    ensures
        made@.map_values(|r: RegisterValue| r@) == registers_model(regs@, names@, resolutions@),
{
    let mut made: Vec<RegisterValue> = Vec::new();
    let mut i: usize = 0;
    while i < regs.len()
        invariant
            i <= regs@.len() <= names@.len(),
            made@.len() == i,
            forall|j: int|
                0 <= j < i ==> #[trigger] made@[j]@ == register_model(
                    names@[j]@,
                    regs@[j],
                    resolution_at(resolutions@, j),
                ),
        decreases regs@.len() - i,
    {
        let value: u64 = regs[i];
        let resolved = resolution(resolutions, i);
        let map = match &resolved {
            Some(resolved) => Some(resolved.region.clone()),
            None => None,
        };
        let display = display_address(value, resolved.as_ref());
        made.push(
            RegisterValue {
                name: names[i],
                value: number::format_address(value),
                map,
                resolved,
                display,
            },
        );
        i = i + 1;
    }
    assert(made@.map_values(|r: RegisterValue| r@) =~= registers_model(
        regs@,
        names@,
        resolutions@,
    ));
    made
}

fn make_texts(frames: &Vec<u64>) -> (made: Vec<String>)
    ensures
        made@.map_values(|s: String| s@) == addresses_text(frames@),
{
    let mut made: Vec<String> = Vec::new();
    let mut i: usize = 0;
    while i < frames.len()
        invariant
            i <= frames@.len(),
            made@.len() == i,
            forall|j: int|
                0 <= j < i ==> #[trigger] made@[j]@ == number::address_text(frames@[j]),
        decreases frames@.len() - i,
    {
        made.push(number::format_address(frames[i]));
        i = i + 1;
    }
    assert(made@.map_values(|s: String| s@) =~= addresses_text(frames@));
    made
}

fn make_frames(
    frames: &Vec<u64>,
    resolutions: &Option<Vec<Option<AddressResolution>>>,
) -> (made: Vec<AddressValue>)
    ensures
        made@.map_values(|f: AddressValue| f@) == frames_model(frames@, *resolutions),
{
    let mut made: Vec<AddressValue> = Vec::new();
    let mut i: usize = 0;
    while i < frames.len()
        invariant
            i <= frames@.len(),
            made@.len() == i,
            forall|j: int|
                0 <= j < i ==> #[trigger] made@[j]@ == frames_model(frames@, *resolutions)[j],
        decreases frames@.len() - i,
    {
        let addr: u64 = frames[i];
        let resolved = match resolutions {
            Some(resolutions) => resolution(resolutions, i),
            None => None,
        };
        let display = display_address(addr, resolved.as_ref());
        made.push(AddressValue { value: number::format_address(addr), resolved, display });
        i = i + 1;
    }
    assert(made@.map_values(|f: AddressValue| f@) =~= frames_model(frames@, *resolutions));
    made
}

/// A maker of hits, which numbers them.
#[derive(Debug)]
pub struct HitFactory {
    next_seq: u64,
}

impl Default for HitFactory {
    /// A maker that has made no hit.
    fn default() -> (factory: Self)
        ensures
            factory.made() == 0,
    {
        HitFactory { next_seq: 0 }
    }
}

impl HitFactory {
    /// How many hits have been made.
    pub closed spec fn made(&self) -> u64 {
        self.next_seq
    }

    /// How many hits have been made.
    pub fn count(&self) -> (n: u64)
        ensures
            n == self.made(),
    {
        self.next_seq
    }

    /// Makes a hit of the breakpoint `breakpoint_id` from a sample.
    /// `reg_resolutions` says what is known of the values of its registers,
    /// `backtrace_resolutions` what is known of its return addresses, and
    /// `names` are the names of the registers in the order of the sample.
    pub fn make_hit_with_maps(
        &mut self,
        breakpoint_id: u64,
        data: SampleData,
        reg_resolutions: Vec<Option<AddressResolution>>,
        backtrace_resolutions: Option<Vec<Option<AddressResolution>>>,
        names: &Vec<&'static str>,
        timestamp_ms: u128,
    ) -> (hit: Hit)
        requires
            old(self).made() < u64::MAX,
            data.regs@.len() <= names@.len(),
        ensures
            final(self).made() == old(self).made() + 1,
            hit@ == (HitModel {
                seq: final(self).made(),
                breakpoint_id,
                pid: data.pid,
                tid: data.tid,
                timestamp_ms,
                regs: registers_model(data.regs@, names@, reg_resolutions@),
                backtrace: match data.backtrace {
                    Some(frames) => Some(addresses_text(frames@)),
                    None => None,
                },
                backtrace_frames: match data.backtrace {
                    Some(frames) => Some(frames_model(frames@, backtrace_resolutions)),
                    None => None,
                },
            }),
    {
        self.next_seq = self.next_seq + 1;
        let regs = make_registers(&data.regs, names, &reg_resolutions);
        let backtrace = match &data.backtrace {
            Some(frames) => Some(make_texts(frames)),
            None => None,
        };
        let backtrace_frames = match &data.backtrace {
            Some(frames) => Some(make_frames(frames, &backtrace_resolutions)),
            None => None,
        };
        Hit {
            seq: self.next_seq,
            breakpoint_id,
            pid: data.pid,
            tid: data.tid,
            timestamp_ms,
            regs,
            backtrace,
            backtrace_frames,
        }
    }
}

// ---------------------------------------------------------------------------
// Laws
// ---------------------------------------------------------------------------

/// A register in a hit has the name and the resolution of its place. Its text
/// denotes the value of the register, and the region it names is the one that
/// its resolution names.
pub proof fn law_registers_are_faithful(
    regs: Seq<u64>,
    names: Seq<&'static str>,
    resolutions: Seq<Option<AddressResolution>>,
    i: int,
)
    requires
        0 <= i < regs.len(),
    ensures
        ({
            let made = registers_model(regs, names, resolutions)[i];
            &&& made.name == names[i]@
            &&& expression::numeric_addr(made.value) == Some(regs[i])
            &&& i < resolutions.len() && resolutions[i] is Some ==> made.resolved == Some(
                resolutions[i]->0@,
            )
            &&& i >= resolutions.len() || resolutions[i] is None ==> made.resolved is None
            &&& made.map is Some <==> made.resolved is Some
            &&& made.resolved is Some ==> made.map == Some(made.resolved->0.region)
            &&& made.value.is_prefix_of(made.display)
        }),
{
    expression::law_address_round_trip(regs[i]);
    let made = registers_model(regs, names, resolutions)[i];
    assert(made.display.subrange(0, made.value.len() as int) =~= made.value);
}

/// The text of a return address in a hit denotes that address, and the frames
/// stand in the order of the stack.
pub proof fn law_frames_are_faithful(
    frames: Seq<u64>,
    resolutions: Option<Vec<Option<AddressResolution>>>,
    i: int,
)
    requires
        0 <= i < frames.len(),
    ensures
        frames_model(frames, resolutions).len() == addresses_text(frames).len(),
        frames_model(frames, resolutions)[i].value == addresses_text(frames)[i],
        expression::numeric_addr(addresses_text(frames)[i]) == Some(frames[i]),
{
    expression::law_address_round_trip(frames[i]);
}

/// Whether `resolved` is what is known of the address with index `i`: its
/// entry among `resolutions`, and nothing if it has none.
pub open spec fn is_known_of(
    resolved: Option<AddressResolution>,
    resolutions: Seq<Option<AddressResolution>>,
    i: int,
) -> bool {
    if i < resolutions.len() && resolutions[i] is Some {
        resolved is Some && resolved->0@ == resolutions[i]->0@
    } else {
        resolved is None
    }
}

/// Whether `shown` is the text of an address, and in brackets what is known of
/// it where something is.
pub open spec fn shows(shown: Seq<char>, addr: u64, resolved: Option<AddressResolution>) -> bool {
    match resolved {
        Some(resolved) => shown == number::address_text(addr) + seq![' ', '('] + resolved.display@
            + seq![')'],
        None => shown == number::address_text(addr),
    }
}

proof fn lemma_brackets()
    ensures
        " ("@ == seq![' ', '('],
        ")"@ == seq![')'],
{
    reveal_strlit(" (");
    reveal_strlit(")");
    assert(" ("@ =~= seq![' ', '(']);
    assert(")"@ =~= seq![')']);
}

/// An address is shown as its text, and in brackets what is known of it.
pub proof fn law_shown_addresses(addr: u64, resolved: Option<&AddressResolution>, shown: String)
    requires
        call_ensures(display_address, (addr, resolved), shown),
    ensures
        resolved is None ==> shown@ == number::address_text(addr),
        resolved is Some ==> shown@ == number::address_text(addr) + seq![' ', '(']
            + resolved->0.display@ + seq![')'],
{
    lemma_brackets();
}

/// A hit records its sample and its breakpoint, under the number that follows
/// those of the hits before it.
pub proof fn law_hit_records_sample(
    factory: &mut HitFactory,
    breakpoint_id: u64,
    data: SampleData,
    reg_resolutions: Vec<Option<AddressResolution>>,
    backtrace_resolutions: Option<Vec<Option<AddressResolution>>>,
    names: &Vec<&'static str>,
    timestamp_ms: u128,
    hit: Hit,
)
    requires
        call_ensures(
            HitFactory::make_hit_with_maps,
            (
                factory,
                breakpoint_id,
                data,
                reg_resolutions,
                backtrace_resolutions,
                names,
                timestamp_ms,
            ),
            hit,
        ),
    ensures
        hit.seq == old(factory).made() + 1,
        final(factory).made() == hit.seq,
        hit.breakpoint_id == breakpoint_id,
        hit.pid == data.pid,
        hit.tid == data.tid,
        hit.timestamp_ms == timestamp_ms,
        hit.regs@.len() == data.regs@.len(),
        hit.backtrace is Some <==> data.backtrace is Some,
        hit.backtrace_frames is Some <==> data.backtrace is Some,
        data.backtrace is Some ==> hit.backtrace->0@.len() == data.backtrace->0@.len(),
        data.backtrace is Some ==> hit.backtrace_frames->0@.len() == data.backtrace->0@.len(),
{
    assert(hit@.regs.len() == hit.regs@.len());
    if data.backtrace is Some {
        assert(hit@.backtrace->0.len() == hit.backtrace->0@.len());
        assert(hit@.backtrace_frames->0.len() == hit.backtrace_frames->0@.len());
        assert(addresses_text(data.backtrace->0@).len() == data.backtrace->0@.len());
    }
}

/// Each register of a hit has the name and the value that it has in the
/// sample, at the same place, and what is known of that value: the resolution
/// at that place, and its region.
pub proof fn law_registers_by_name(
    factory: &mut HitFactory,
    breakpoint_id: u64,
    data: SampleData,
    reg_resolutions: Vec<Option<AddressResolution>>,
    backtrace_resolutions: Option<Vec<Option<AddressResolution>>>,
    names: &Vec<&'static str>,
    timestamp_ms: u128,
    hit: Hit,
    i: int,
)
    requires
        call_ensures(
            HitFactory::make_hit_with_maps,
            (
                factory,
                breakpoint_id,
                data,
                reg_resolutions,
                backtrace_resolutions,
                names,
                timestamp_ms,
            ),
            hit,
        ),
        0 <= i < data.regs@.len(),
    ensures
        hit.regs@.len() == data.regs@.len(),
        hit.regs@[i].name@ == names@[i]@,
        hit.regs@[i].value@ == number::address_text(data.regs@[i]),
        is_known_of(hit.regs@[i].resolved, reg_resolutions@, i),
        hit.regs@[i].map is Some <==> hit.regs@[i].resolved is Some,
        hit.regs@[i].map is Some ==> hit.regs@[i].map->0@ == hit.regs@[i].resolved->0.region@,
        shows(hit.regs@[i].display@, data.regs@[i], hit.regs@[i].resolved),
{
    lemma_brackets();
    assert(hit@.regs.len() == hit.regs@.len());
    assert(hit@.regs[i] == hit.regs@[i]@);
}

/// Each return address of a hit is the one that the sample has at the same
/// place, with what is known of it.
pub proof fn law_frames_by_place(
    factory: &mut HitFactory,
    breakpoint_id: u64,
    data: SampleData,
    reg_resolutions: Vec<Option<AddressResolution>>,
    backtrace_resolutions: Option<Vec<Option<AddressResolution>>>,
    names: &Vec<&'static str>,
    timestamp_ms: u128,
    hit: Hit,
    i: int,
)
    requires
        call_ensures(
            HitFactory::make_hit_with_maps,
            (
                factory,
                breakpoint_id,
                data,
                reg_resolutions,
                backtrace_resolutions,
                names,
                timestamp_ms,
            ),
            hit,
        ),
        data.backtrace is Some,
        0 <= i < data.backtrace->0@.len(),
    ensures
        hit.backtrace is Some && hit.backtrace->0@[i]@ == number::address_text(
            data.backtrace->0@[i],
        ),
        ({
            let frame = hit.backtrace_frames->0@[i];
            &&& hit.backtrace_frames is Some
            &&& frame.value@ == number::address_text(data.backtrace->0@[i])
            &&& backtrace_resolutions is None ==> frame.resolved is None
            &&& backtrace_resolutions is Some ==> is_known_of(
                frame.resolved,
                backtrace_resolutions->0@,
                i,
            )
            &&& shows(frame.display@, data.backtrace->0@[i], frame.resolved)
        }),
{
    lemma_brackets();
    let texts = hit@.backtrace->0;
    let frames = hit@.backtrace_frames->0;
    assert(texts.len() == addresses_text(data.backtrace->0@).len());
    assert(texts.len() == hit.backtrace->0@.len());
    assert(texts[i] == hit.backtrace->0@[i]@);
    assert(frames.len() == hit.backtrace_frames->0@.len());
    assert(frames[i] == hit.backtrace_frames->0@[i]@);
}

/// What a hit says leaves nothing out.
pub proof fn law_hits_say_everything(a: Hit, b: Hit)
    requires
        a@ == b@,
    ensures
        a.seq == b.seq && a.breakpoint_id == b.breakpoint_id && a.pid == b.pid && a.tid == b.tid
            && a.timestamp_ms == b.timestamp_ms,
        a.regs@.len() == b.regs@.len(),
        forall|i: int| 0 <= i < a.regs@.len() ==> (#[trigger] a.regs@[i])@ == b.regs@[i]@,
        a.backtrace is Some <==> b.backtrace is Some,
        a.backtrace is Some ==> a.backtrace->0@.len() == b.backtrace->0@.len(),
        forall|i: int|
            a.backtrace is Some && 0 <= i < a.backtrace->0@.len() ==> (
            #[trigger] a.backtrace->0@[i])@ == b.backtrace->0@[i]@,
        a.backtrace_frames is Some <==> b.backtrace_frames is Some,
        a.backtrace_frames is Some ==> a.backtrace_frames->0@.len() == b.backtrace_frames->0@.len(),
        forall|i: int|
            a.backtrace_frames is Some && 0 <= i < a.backtrace_frames->0@.len() ==> (
            #[trigger] a.backtrace_frames->0@[i])@ == b.backtrace_frames->0@[i]@,
{
    assert(a@.regs.len() == a.regs@.len() && b@.regs.len() == b.regs@.len());
    assert forall|i: int| 0 <= i < a.regs@.len() implies (#[trigger] a.regs@[i])@
        == b.regs@[i]@ by {
        assert(a@.regs[i] == b@.regs[i]);
    }
    if a.backtrace is Some {
        let (s, t) = (a@.backtrace->0, b@.backtrace->0);
        assert(s.len() == a.backtrace->0@.len() && t.len() == b.backtrace->0@.len());
        assert forall|i: int| 0 <= i < a.backtrace->0@.len() implies (
        #[trigger] a.backtrace->0@[i])@ == b.backtrace->0@[i]@ by {
            assert(s[i] == t[i]);
        }
    }
    if a.backtrace_frames is Some {
        let (s, t) = (a@.backtrace_frames->0, b@.backtrace_frames->0);
        assert(s.len() == a.backtrace_frames->0@.len() && t.len()
            == b.backtrace_frames->0@.len());
        assert forall|i: int| 0 <= i < a.backtrace_frames->0@.len() implies (
        #[trigger] a.backtrace_frames->0@[i])@ == b.backtrace_frames->0@[i]@ by {
            assert(s[i] == t[i]);
        }
    }
}

/// What a register and a return address of a hit say leaves nothing out.
pub proof fn law_values_say_everything(
    a: RegisterValue,
    b: RegisterValue,
    c: AddressValue,
    d: AddressValue,
)
    ensures
        a@ == b@ ==> {
            &&& a.name@ == b.name@ && a.value@ == b.value@ && a.display@ == b.display@
            &&& a.map is Some <==> b.map is Some
            &&& a.map is Some ==> a.map->0@ == b.map->0@
            &&& a.resolved is Some <==> b.resolved is Some
            &&& a.resolved is Some ==> a.resolved->0@ == b.resolved->0@
        },
        c@ == d@ ==> {
            &&& c.value@ == d.value@ && c.display@ == d.display@
            &&& c.resolved is Some <==> d.resolved is Some
            &&& c.resolved is Some ==> c.resolved->0@ == d.resolved->0@
        },
{
}

/// The hits are counted from none on.
pub proof fn law_hits_are_counted(factory: HitFactory, other: &HitFactory, n: u64)
    requires
        call_ensures(HitFactory::default, (), factory),
        call_ensures(HitFactory::count, (other,), n),
    ensures
        factory.made() == 0,
        n == other.made(),
{
}

/// A copy of a hit says what the hit says.
pub proof fn law_copies_of_hits(hit: Hit, copy: Hit)
    requires
        call_ensures(Hit::clone, (&hit,), copy),
    ensures
        copy@ == hit@,
{
}

} // verus!
