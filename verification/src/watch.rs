//! Hardware watchpoints: what to watch for, how its description is read, and
//! what becomes of an attempt to install one.

use crate::{number, text};
use vstd::prelude::*;

verus! {

// ---------------------------------------------------------------------------
// The kernel's numbers
// ---------------------------------------------------------------------------

/// `HW_BREAKPOINT_LEN_1` of `perf_event_open_sys::bindings`: the length of a
/// watchpoint on one byte, which is the number 1.
#[verifier::external_body]
fn hw_breakpoint_len_1() -> (len: u32)
    ensures
        len == 1,
{
    perf_event_open_sys::bindings::HW_BREAKPOINT_LEN_1
}

/// `HW_BREAKPOINT_LEN_2` of `perf_event_open_sys::bindings`: the length of a
/// watchpoint on two bytes, which is the number 2.
#[verifier::external_body]
fn hw_breakpoint_len_2() -> (len: u32)
    ensures
        len == 2,
{
    perf_event_open_sys::bindings::HW_BREAKPOINT_LEN_2
}

/// `HW_BREAKPOINT_LEN_4` of `perf_event_open_sys::bindings`: the length of a
/// watchpoint on four bytes, which is the number 4.
#[verifier::external_body]
fn hw_breakpoint_len_4() -> (len: u32)
    ensures
        len == 4,
{
    perf_event_open_sys::bindings::HW_BREAKPOINT_LEN_4
}

/// `HW_BREAKPOINT_LEN_8` of `perf_event_open_sys::bindings`: the length of a
/// watchpoint on eight bytes, which is the number 8.
#[verifier::external_body]
fn hw_breakpoint_len_8() -> (len: u32)
    ensures
        len == 8,
{
    perf_event_open_sys::bindings::HW_BREAKPOINT_LEN_8
}

/// `HW_BREAKPOINT_R` of `perf_event_open_sys::bindings`: the type of a
/// watchpoint on reads, which is the number 1.
#[verifier::external_body]
fn hw_breakpoint_r() -> (ty: u32)
    ensures
        ty == 1,
{
    perf_event_open_sys::bindings::HW_BREAKPOINT_R
}

/// `HW_BREAKPOINT_W` of `perf_event_open_sys::bindings`: the type of a
/// watchpoint on writes, which is the number 2.
#[verifier::external_body]
fn hw_breakpoint_w() -> (ty: u32)
    ensures
        ty == 2,
{
    perf_event_open_sys::bindings::HW_BREAKPOINT_W
}

/// `HW_BREAKPOINT_RW` of `perf_event_open_sys::bindings`: the type of a
/// watchpoint on reads and writes, which is the number 3.
#[verifier::external_body]
fn hw_breakpoint_rw() -> (ty: u32)
    ensures
        ty == 3,
{
    perf_event_open_sys::bindings::HW_BREAKPOINT_RW
}

/// `HW_BREAKPOINT_X` of `perf_event_open_sys::bindings`: the type of a
/// breakpoint on execution, which is the number 4.
#[verifier::external_body]
fn hw_breakpoint_x() -> (ty: u32)
    ensures
        ty == 4,
{
    perf_event_open_sys::bindings::HW_BREAKPOINT_X
}

// ---------------------------------------------------------------------------
// Descriptions
// ---------------------------------------------------------------------------

/// The length that `s` denotes: the digit 1, 2, 4 or 8, or 1 if `s` is empty.
pub open spec fn watch_len(s: Seq<char>) -> Option<u32> {
    if s == seq!['1'] || s.len() == 0 {
        Some(1)
    } else if s == seq!['2'] {
        Some(2)
    } else if s == seq!['4'] {
        Some(4)
    } else if s == seq!['8'] {
        Some(8)
    } else {
        None
    }
}

/// The type `ty` together with the length that `s` denotes.
pub open spec fn with_len(ty: u32, s: Seq<char>) -> Option<(u32, u32)> {
    match watch_len(s) {
        Some(len) => Some((ty, len)),
        None => None,
    }
}

/// The type and the length of the watchpoint that `s` describes: `rw`, `r` or
/// `w` for the accesses and then the length, or `x` for execution, which has
/// the size of a C `long`.
pub open spec fn watchpoint_type(s: Seq<char>) -> Option<(u32, u32)> {
    match (
        text::strip_prefix(s, seq!['r', 'w']),
        text::strip_prefix(s, seq!['r']),
        text::strip_prefix(s, seq!['w']),
    ) {
        (Some(len), _, _) => with_len(3, len),
        (None, Some(len), _) => with_len(1, len),
        (None, None, Some(len)) => with_len(2, len),
        (None, None, None) => if s == seq!['x'] {
            Some((4, vstd::layout::size_of::<nix::libc::c_long>() as u32))
        } else {
            None
        },
    }
}

/// The address that `s` denotes as a number of base sixteen, with or without
/// `0x` before it.
pub open spec fn watch_addr(s: Seq<char>) -> Option<u64> {
    match text::strip_prefix(s, seq!['0', 'x']) {
        Some(digits) => number::hex_u64(digits),
        None => number::hex_u64(s),
    }
}

fn len_of(s: &[char]) -> (len: Option<u32>)
    ensures
        len == watch_len(s@),
{
    if s.len() == 0 {
        return Some(hw_breakpoint_len_1());
    }
    if s.len() > 1 {
        return None;
    }
    assert(s@ =~= seq![s@[0]]);
    assert(seq!['1'][0] == '1' && seq!['2'][0] == '2' && seq!['4'][0] == '4' && seq!['8'][0]
        == '8');
    match s[0] {
        '1' => Some(hw_breakpoint_len_1()),
        '2' => Some(hw_breakpoint_len_2()),
        '4' => Some(hw_breakpoint_len_4()),
        '8' => Some(hw_breakpoint_len_8()),
        _ => None,
    }
}

/// The length that `s` denotes.
pub fn parse_len(s: &str) -> (len: Option<u32>)
    ensures
        len == watch_len(s@),
{
    let chars = text::chars_of(s);
    len_of(chars.as_slice())
}

/// The type and the length of the watchpoint that `s` describes.
pub fn parse_watchpoint_type(s: &str) -> (described: Option<(u32, u32)>)
    ensures
        described == watchpoint_type(s@),
{
    let chars = text::chars_of(s);
    let rw = text::chars_of("rw");
    let r = text::chars_of("r");
    let w = text::chars_of("w");
    let x = text::chars_of("x");
    proof {
        reveal_strlit("rw");
        reveal_strlit("r");
        reveal_strlit("w");
        reveal_strlit("x");
        assert(rw@ =~= seq!['r', 'w']);
        assert(r@ =~= seq!['r']);
        assert(w@ =~= seq!['w']);
        assert(x@ =~= seq!['x']);
    }
    if let Some(rest) = text::after_prefix(chars.as_slice(), rw.as_slice()) {
        match len_of(rest) {
            Some(len) => Some((hw_breakpoint_rw(), len)),
            None => None,
        }
    } else if let Some(rest) = text::after_prefix(chars.as_slice(), r.as_slice()) {
        match len_of(rest) {
            Some(len) => Some((hw_breakpoint_r(), len)),
            None => None,
        }
    } else if let Some(rest) = text::after_prefix(chars.as_slice(), w.as_slice()) {
        match len_of(rest) {
            Some(len) => Some((hw_breakpoint_w(), len)),
            None => None,
        }
    } else if text::same_chars(chars.as_slice(), x.as_slice()) {
        Some((hw_breakpoint_x(), std::mem::size_of::<nix::libc::c_long>() as u32))
    } else {
        None
    }
}

/// The address that `s` denotes.
pub fn parse_addr(s: &str) -> (addr: Option<u64>)
    ensures
        addr == watch_addr(s@),
{
    let chars = text::chars_of(s);
    let mark = text::chars_of("0x");
    proof {
        reveal_strlit("0x");
        assert(mark@ =~= seq!['0', 'x']);
    }
    match text::after_prefix(chars.as_slice(), mark.as_slice()) {
        Some(digits) => number::parse_hex_u64(digits),
        None => number::parse_hex_u64(chars.as_slice()),
    }
}

// ---------------------------------------------------------------------------
// Installing a watchpoint
// ---------------------------------------------------------------------------

/// A watchpoint to install. `F` is a filter on the registers at a hit.
#[derive(Debug)]
pub struct WatchConfig<F> {
    pub pid: u32,
    pub thread: bool,
    pub type_text: String,
    pub addr_text: String,
    pub ty: u32,
    pub addr: u64,
    pub len: u64,
    pub backtrace: bool,
    pub buf_size: usize,
    pub filter: Option<F>,
}

impl<F: Clone> Clone for WatchConfig<F> {
    /// A copy whose filter is a clone of the filter.
    fn clone(&self) -> (copy: Self)
        ensures
            copy == (WatchConfig { filter: copy.filter, ..*self }),
            match (self.filter, copy.filter) {
                (Some(filter), Some(copied)) => cloned(filter, copied),
                (None, None) => true,
                _ => false,
            },
    {
        WatchConfig {
            pid: self.pid,
            thread: self.thread,
            type_text: self.type_text.clone(),
            addr_text: self.addr_text.clone(),
            ty: self.ty,
            addr: self.addr,
            len: self.len,
            backtrace: self.backtrace,
            buf_size: self.buf_size,
            filter: match &self.filter {
                Some(filter) => Some(filter.clone()),
                None => None,
            },
        }
    }
}

/// The threads that a watchpoint was installed on.
#[derive(Debug)]
pub struct WatchStart {
    pub threads: Vec<u32>,
}

/// Where a watchpoint is to be installed.
#[derive(Debug, Clone, Copy, PartialEq, Eq, Structural)]
pub enum WatchTarget {
    /// On the one thread with this identifier.
    Thread(u32),
    /// On every task of the process with this identifier.
    Tasks(u32),
}

/// Why a watchpoint was not installed.
#[derive(Debug)]
pub enum WatchError {
    /// The thread could not be watched, for the given reason.
    Open(String),
    /// No task of the process could be watched.
    NoPerfMap,
}

/// The message of a `WatchError`.
pub open spec fn watch_error_text(e: WatchError) -> Seq<char> {
    match e {
        WatchError::Open(reason) => reason@,
        WatchError::NoPerfMap => "no valid perf map"@,
    }
}

impl WatchError {
    /// The message of the error.
    pub fn message(&self) -> (text: String)
        ensures
            text@ == watch_error_text(*self),
    {
        match self {
            WatchError::Open(reason) => reason.clone(),
            WatchError::NoPerfMap => "no valid perf map".to_owned(),
        }
    }
}

/// The threads on which opening succeeded, in order.
pub open spec fn opened_threads<M>(opened: Seq<(u32, Result<M, String>)>) -> Seq<u32> {
    opened.filter_map(
        |o: (u32, Result<M, String>)|
            match o.1 {
                Ok(_) => Some(o.0),
                Err(_) => None,
            },
    )
}

/// What opening gave where it succeeded, in order.
pub open spec fn opened_maps<M>(opened: Seq<(u32, Result<M, String>)>) -> Seq<M> {
    opened.filter_map(
        |o: (u32, Result<M, String>)|
            match o.1 {
                Ok(map) => Some(map),
                Err(_) => None,
            },
    )
}

/// Why opening failed on the first thread where it did.
pub open spec fn first_failure<M>(opened: Seq<(u32, Result<M, String>)>) -> Option<String>
    decreases opened.len(),
{
    if opened.len() == 0 {
        None
    } else {
        match opened[0].1 {
            Ok(_) => first_failure(opened.skip(1)),
            Err(reason) => Some(reason),
        }
    }
}

/// Where the watchpoint of `config` is to be installed.
pub fn watch_target<F>(config: &WatchConfig<F>) -> (target: WatchTarget)
    ensures
        target == if config.thread {
            WatchTarget::Thread(config.pid)
        } else {
            WatchTarget::Tasks(config.pid)
        },
{
    if config.thread {
        WatchTarget::Thread(config.pid)
    } else {
        WatchTarget::Tasks(config.pid)
    }
}

/// What becomes of a watchpoint, given what came of opening it on each of its
/// threads. Where it is meant for one thread, a failure ends it. Where it is
/// meant for a process, the threads that failed are left out, and one thread
/// is enough.
pub fn start_watch<F, M>(config: &WatchConfig<F>, opened: Vec<(u32, Result<M, String>)>) -> (started:
    Result<(WatchStart, Vec<M>), WatchError>)
    ensures
        match started {
            Ok((start, maps)) => {
                &&& !(config.thread && first_failure(opened@) is Some)
                &&& opened_threads(opened@).len() > 0
                &&& start.threads@ == opened_threads(opened@)
                &&& maps@ == opened_maps(opened@)
            },
            Err(WatchError::Open(reason)) => config.thread && first_failure(opened@) == Some(
                reason,
            ),
            Err(WatchError::NoPerfMap) => !(config.thread && first_failure(opened@) is Some)
                && opened_threads(opened@).len() == 0,
        },
{
    let ghost all = opened@;
    let ghost thread_of = |o: (u32, Result<M, String>)|
        match o.1 {
            Ok(_) => Some(o.0),
            Err(_) => None,
        };
    let ghost map_of = |o: (u32, Result<M, String>)|
        match o.1 {
            Ok(map) => Some(map),
            Err(_) => None,
        };
    let mut threads: Vec<u32> = Vec::new();
    let mut maps: Vec<M> = Vec::new();
    assert(all.skip(0) == all);
    for o in it: opened
        invariant
            it.seq() == all,
            all == opened@,
            thread_of == (|o: (u32, Result<M, String>)|
                match o.1 {
                    Ok(_) => Some(o.0),
                    Err(_) => None,
                }),
            map_of == (|o: (u32, Result<M, String>)|
                match o.1 {
                    Ok(map) => Some(map),
                    Err(_) => None,
                }),
            threads@ == all.take(it.index()).filter_map(thread_of),
            maps@ == all.take(it.index()).filter_map(map_of),
            config.thread ==> first_failure(all) == first_failure(all.skip(it.index())),
    {
        let ghost i = it.index();
        proof {
            all.lemma_filter_map_take_succ(thread_of, i);
            all.lemma_filter_map_take_succ(map_of, i);
            assert(all.skip(i)[0] == o);
            assert(all.skip(i).skip(1) == all.skip(i + 1));
        }
        let (tid, result) = o;
        match result {
            Ok(map) => {
                threads.push(tid);
                maps.push(map);
            },
            Err(reason) => {
                if config.thread {
                    return Err(WatchError::Open(reason));
                }
            },
        }
    }
    assert(all.take(all.len() as int) == all);
    if threads.len() == 0 {
        return Err(WatchError::NoPerfMap);
    }
    Ok((WatchStart { threads }, maps))
}

/// Whether a hit is to be passed on: not once the watch is cancelled, and
/// only if the filter, where there is one, accepts it.
pub fn passes(cancelled: bool, accepted: Option<bool>) -> (pass: bool)
    ensures
        pass == (!cancelled && accepted != Some(false)),
{
    if cancelled {
        return false;
    }
    match accepted {
        Some(accepted) => accepted,
        None => true,
    }
}

// ---------------------------------------------------------------------------
// Laws
// ---------------------------------------------------------------------------

/// The descriptions that are accepted: accesses `rw`, `r` or `w` with one of
/// the lengths, and `x`.
pub open spec fn is_description(s: Seq<char>) -> bool {
    ||| s == seq!['x']
    ||| exists|accesses: Seq<char>, len: Seq<char>|
        {
            &&& accesses == seq!['r', 'w'] || accesses == seq!['r'] || accesses == seq!['w']
            &&& len.len() == 0 || len == seq!['1'] || len == seq!['2'] || len == seq!['4'] || len
                == seq!['8']
            &&& s == #[trigger] (accesses + len)
        }
}

/// A watchpoint is understood exactly if it is described in the accepted way.
pub proof fn law_accepted_descriptions(s: Seq<char>)
    ensures
        watchpoint_type(s) is Some <==> is_description(s),
{
    let rw = seq!['r', 'w'];
    let r = seq!['r'];
    let w = seq!['w'];
    if watchpoint_type(s) is Some && s != seq!['x'] {
        if rw.is_prefix_of(s) {
            assert(s =~= rw + s.skip(2));
        } else if r.is_prefix_of(s) {
            assert(s =~= r + s.skip(1));
        } else {
            assert(w.is_prefix_of(s));
            assert(s =~= w + s.skip(1));
        }
    }
    if is_description(s) {
        if s == seq!['x'] {
            assert(s[0] == 'x');
            assert(rw[0] == 'r' && r[0] == 'r' && w[0] == 'w');
            if rw.is_prefix_of(s) {
            }
            if r.is_prefix_of(s) {
                assert(s.subrange(0, 1)[0] == 'x');
            }
            if w.is_prefix_of(s) {
                assert(s.subrange(0, 1)[0] == 'x');
            }
        } else {
            let (accesses, len) = choose|accesses: Seq<char>, len: Seq<char>|
                {
                    &&& accesses == seq!['r', 'w'] || accesses == seq!['r'] || accesses == seq!['w']
                    &&& len.len() == 0 || len == seq!['1'] || len == seq!['2'] || len == seq!['4']
                        || len == seq!['8']
                    &&& s == #[trigger] (accesses + len)
                };
            assert(s.skip(accesses.len() as int) =~= len);
            assert(s.subrange(0, accesses.len() as int) =~= accesses);
            if accesses == r && rw.is_prefix_of(s) {
                assert(s.subrange(0, 2)[1] == 'w');
                assert(s[1] == len[0]);
            }
            if accesses == w {
                assert(s[0] == 'w');
                if rw.is_prefix_of(s) {
                    assert(s.subrange(0, 2)[0] == 'w');
                }
                if r.is_prefix_of(s) {
                    assert(s.subrange(0, 1)[0] == 'w');
                }
            }
        }
    }
}

/// A watch has one map for each of its threads: the maps and the threads that
/// opening gave stand in the same order, each pair from one opening.
pub proof fn law_one_map_for_each_thread<M>(opened: Seq<(u32, Result<M, String>)>)
    ensures
        opened_maps(opened).len() == opened_threads(opened).len(),
        forall|i: int|
            0 <= i < opened_threads(opened).len() ==> opened.contains(
                (#[trigger] opened_threads(opened)[i], Ok(opened_maps(opened)[i])),
            ),
    decreases opened.len(),
{
    if opened.len() > 0 {
        let most = opened.drop_last();
        law_one_map_for_each_thread(most);
        assert forall|i: int| 0 <= i < opened_threads(opened).len() implies opened.contains(
            (#[trigger] opened_threads(opened)[i], Ok(opened_maps(opened)[i])),
        ) by {
            if i < opened_threads(most).len() {
                let pair = (opened_threads(most)[i], Ok::<M, String>(opened_maps(most)[i]));
                assert(most.contains(pair));
                let k = choose|k: int| 0 <= k < most.len() && most[k] == pair;
                assert(opened[k] == pair);
            } else {
                assert(opened[opened.len() - 1] == opened.last());
            }
        }
    }
}

/// The text of an address denotes that address.
pub proof fn law_watch_addr_round_trip(addr: u64)
    ensures
        watch_addr(number::address_text(addr)) == Some(addr),
{
    let s = number::address_text(addr);
    number::lemma_address_digits(addr);
    assert(s.subrange(0, 2) =~= seq!['0', 'x']);
}

/// What a description means: the accesses `r`, `w` and `rw` are the types 1, 2
/// and 3, and the length that follows is the number of bytes that are watched,
/// one if there is none. Execution is the type 4 and has the size of a C
/// `long`.
pub proof fn law_meaning_of_descriptions(
    s: &str,
    described: Option<(u32, u32)>,
    accesses: Seq<char>,
    len: Seq<char>,
)
    requires
        call_ensures(parse_watchpoint_type, (s,), described),
    ensures
        described == watchpoint_type(s@),
        s@ == accesses + len ==> {
            &&& accesses == seq!['r'] && len.len() == 0 ==> described == Some((1u32, 1u32))
            &&& accesses == seq!['r'] && len == seq!['1'] ==> described == Some((1u32, 1u32))
            &&& accesses == seq!['r'] && len == seq!['2'] ==> described == Some((1u32, 2u32))
            &&& accesses == seq!['r'] && len == seq!['4'] ==> described == Some((1u32, 4u32))
            &&& accesses == seq!['r'] && len == seq!['8'] ==> described == Some((1u32, 8u32))
            &&& accesses == seq!['w'] && len.len() == 0 ==> described == Some((2u32, 1u32))
            &&& accesses == seq!['w'] && len == seq!['1'] ==> described == Some((2u32, 1u32))
            &&& accesses == seq!['w'] && len == seq!['2'] ==> described == Some((2u32, 2u32))
            &&& accesses == seq!['w'] && len == seq!['4'] ==> described == Some((2u32, 4u32))
            &&& accesses == seq!['w'] && len == seq!['8'] ==> described == Some((2u32, 8u32))
            &&& accesses == seq!['r', 'w'] && len.len() == 0 ==> described == Some((3u32, 1u32))
            &&& accesses == seq!['r', 'w'] && len == seq!['1'] ==> described == Some((3u32, 1u32))
            &&& accesses == seq!['r', 'w'] && len == seq!['2'] ==> described == Some((3u32, 2u32))
            &&& accesses == seq!['r', 'w'] && len == seq!['4'] ==> described == Some((3u32, 4u32))
            &&& accesses == seq!['r', 'w'] && len == seq!['8'] ==> described == Some((3u32, 8u32))
        },
        s@ == seq!['x'] ==> described == Some(
            (4u32, vstd::layout::size_of::<nix::libc::c_long>() as u32),
        ),
        described is Some ==> is_description(s@),
{
    law_accepted_descriptions(s@);
    lemma_lengths();
    if s@ == accesses + len && watch_len(len) is Some {
        lemma_accesses_and_len(accesses, len);
    }
    if s@ == seq!['x'] {
        assert(s@[0] == 'x');
        if seq!['r'].is_prefix_of(s@) {
            assert(seq!['r'][0] == s@.subrange(0, 1)[0]);
        }
        if seq!['w'].is_prefix_of(s@) {
            assert(seq!['w'][0] == s@.subrange(0, 1)[0]);
        }
    }
}

proof fn lemma_lengths()
    ensures
        watch_len(Seq::<char>::empty()) == Some(1u32),
        watch_len(seq!['1']) == Some(1u32),
        watch_len(seq!['2']) == Some(2u32),
        watch_len(seq!['4']) == Some(4u32),
        watch_len(seq!['8']) == Some(8u32),
{
    assert(seq!['1'][0] == '1' && seq!['2'][0] == '2' && seq!['4'][0] == '4' && seq!['8'][0]
        == '8');
}

proof fn lemma_accesses_and_len(accesses: Seq<char>, len: Seq<char>)
    requires
        watch_len(len) is Some,
    ensures
        accesses == seq!['r', 'w'] ==> watchpoint_type(accesses + len) == with_len(3, len),
        accesses == seq!['r'] ==> watchpoint_type(accesses + len) == with_len(1, len),
        accesses == seq!['w'] ==> watchpoint_type(accesses + len) == with_len(2, len),
{
    let rw = seq!['r', 'w'];
    let r = seq!['r'];
    let w = seq!['w'];
    let s = accesses + len;
    text::law_strip_prefix(s, accesses, len);
    if accesses == r && rw.is_prefix_of(s) {
        assert(s.subrange(0, 2)[1] == s[1]);
        assert(s[1] == len[0]);
    }
    if accesses == w {
        assert(s[0] == 'w');
        if rw.is_prefix_of(s) {
            assert(s.subrange(0, 2)[0] == s[0]);
        }
        if r.is_prefix_of(s) {
            assert(s.subrange(0, 1)[0] == s[0]);
        }
    }
}

/// A length is 1, 2, 4 or 8 bytes, as the digit says, one byte if there is no
/// digit, and nothing else is a length.
pub proof fn law_lengths(s: &str, len: Option<u32>)
    requires
        call_ensures(parse_len, (s,), len),
    ensures
        s@ == Seq::<char>::empty() || s@ == seq!['1'] ==> len == Some(1u32),
        s@ == seq!['2'] ==> len == Some(2u32),
        s@ == seq!['4'] ==> len == Some(4u32),
        s@ == seq!['8'] ==> len == Some(8u32),
        len is Some ==> s@ == Seq::<char>::empty() || s@ == seq!['1'] || s@ == seq!['2'] || s@
            == seq!['4'] || s@ == seq!['8'],
{
    lemma_lengths();
    if s@.len() == 0 {
        assert(s@ =~= Seq::<char>::empty());
    }
}

/// The address of a watchpoint is what denotes a number of base sixteen, and
/// `0x` before it makes no difference.
pub proof fn law_watch_addresses(s: &str, addr: Option<u64>, d: Seq<char>)
    requires
        call_ensures(parse_addr, (s,), addr),
    ensures
        s@ == seq!['0', 'x'] + d ==> addr == number::hex_u64(d),
        number::hex_u64(s@) is Some ==> addr == number::hex_u64(s@),
        addr is Some && addr != number::hex_u64(s@) ==> s@.len() > 2 && s@[0] == '0' && s@[1]
            == 'x',
{
    let mark = seq!['0', 'x'];
    text::law_strip_prefix(s@, mark, d);
    if mark.is_prefix_of(s@) {
        assert(s@.subrange(0, 2)[0] == s@[0] && s@.subrange(0, 2)[1] == s@[1]);
        assert(mark[0] == '0' && mark[1] == 'x');
        assert(number::digit_of(s@[1]) == 16);
        assert(number::without_plus(s@)[1] == s@[1]);
        assert(s@.skip(2).len() == s@.len() - 2);
    }
}

/// The openings that succeeded, in order.
pub open spec fn succeeded<M>(opened: Seq<(u32, Result<M, String>)>) -> Seq<
    (u32, Result<M, String>),
> {
    opened.filter(|o: (u32, Result<M, String>)| o.1 is Ok)
}

proof fn lemma_succeeded<M>(opened: Seq<(u32, Result<M, String>)>)
    ensures
        opened_threads(opened).len() == succeeded(opened).len(),
        opened_maps(opened).len() == succeeded(opened).len(),
        forall|i: int|
            0 <= i < succeeded(opened).len() ==> {
                &&& (#[trigger] succeeded(opened)[i]).0 == opened_threads(opened)[i]
                &&& succeeded(opened)[i].1 == Ok::<M, String>(opened_maps(opened)[i])
            },
    decreases opened.len(),
{
    reveal(Seq::filter);
    if opened.len() > 0 {
        lemma_succeeded(opened.drop_last());
    }
}

proof fn lemma_first_failure<M>(opened: Seq<(u32, Result<M, String>)>)
    ensures
        first_failure(opened) is Some <==> exists|i: int|
            0 <= i < opened.len() && (#[trigger] opened[i]).1 is Err,
    decreases opened.len(),
{
    if opened.len() > 0 {
        let rest = opened.skip(1);
        lemma_first_failure(rest);
        if opened[0].1 is Ok {
            if first_failure(rest) is Some {
                let i = choose|i: int| 0 <= i < rest.len() && (#[trigger] rest[i]).1 is Err;
                assert(opened[i + 1].1 is Err);
            }
            if exists|i: int| 0 <= i < opened.len() && (#[trigger] opened[i]).1 is Err {
                let i = choose|i: int| 0 <= i < opened.len() && (#[trigger] opened[i]).1 is Err;
                assert(rest[i - 1].1 is Err);
            }
        }
    }
}

/// A watch on a process is installed on every thread where opening succeeded,
/// in order, each with what its opening gave, and fails only if there is none.
pub proof fn law_process_watch<F, M>(
    config: &WatchConfig<F>,
    opened: Vec<(u32, Result<M, String>)>,
    started: Result<(WatchStart, Vec<M>), WatchError>,
)
    requires
        call_ensures(start_watch::<F, M>, (config, opened), started),
        !config.thread,
    ensures
        match started {
            Ok((start, maps)) => {
                &&& succeeded(opened@).len() > 0
                &&& start.threads@.len() == succeeded(opened@).len()
                &&& maps@.len() == succeeded(opened@).len()
                &&& forall|i: int|
                    0 <= i < succeeded(opened@).len() ==> {
                        &&& (#[trigger] succeeded(opened@)[i]).0 == start.threads@[i]
                        &&& succeeded(opened@)[i].1 == Ok::<M, String>(maps@[i])
                    }
            },
            Err(e) => e == WatchError::NoPerfMap && succeeded(opened@).len() == 0,
        },
{
    lemma_succeeded(opened@);
}

/// A watch on one thread is installed on it if opening succeeded there, and
/// otherwise fails for the reason that opening gave.
pub proof fn law_thread_watch<F, M>(
    config: &WatchConfig<F>,
    opened: Vec<(u32, Result<M, String>)>,
    started: Result<(WatchStart, Vec<M>), WatchError>,
)
    requires
        call_ensures(start_watch::<F, M>, (config, opened), started),
        config.thread,
        opened@.len() > 0,
    ensures
        opened@[0].1 matches Err(reason) ==> started == Err::<(WatchStart, Vec<M>), WatchError>(
            WatchError::Open(reason),
        ),
        opened@.len() == 1 && opened@[0].1 is Ok ==> (started matches Ok((start, maps))
            && start.threads@ == seq![opened@[0].0] && maps@ == seq![opened@[0].1->Ok_0]),
        started is Ok ==> forall|i: int| 0 <= i < opened@.len() ==> (#[trigger] opened@[i]).1 is Ok,
{
    lemma_first_failure(opened@);
    lemma_succeeded(opened@);
    let only = seq![opened@[0]];
    if opened@.len() == 1 && opened@[0].1 is Ok {
        assert(opened@ =~= only);
        assert(succeeded(opened@) =~= only) by {
            reveal(Seq::filter);
            assert(only.drop_last() =~= seq![]);
            assert(only.drop_last().filter(|o: (u32, Result<M, String>)| o.1 is Ok) =~= seq![]);
        }
        assert(succeeded(opened@)[0] == opened@[0]);
        assert(opened_threads(opened@) =~= seq![opened@[0].0]);
        assert(opened_maps(opened@) =~= seq![opened@[0].1->Ok_0]);
        assert forall|i: int| 0 <= i < opened@.len() implies (#[trigger] opened@[i]).1 is Ok by {
            assert(i == 0);
        }
    }
}

/// A watch goes to the one thread or to the tasks of the process, as asked.
pub proof fn law_target<F>(config: &WatchConfig<F>, target: WatchTarget)
    requires
        call_ensures(watch_target::<F>, (config,), target),
    ensures
        config.thread ==> target == WatchTarget::Thread(config.pid),
        !config.thread ==> target == WatchTarget::Tasks(config.pid),
{
}

/// A cancelled watch passes no hit on. Any other passes on what its filter
/// accepts, and everything if it has none.
pub proof fn law_passing(cancelled: bool, accepted: Option<bool>, pass: bool)
    requires
        call_ensures(passes, (cancelled, accepted), pass),
    ensures
        cancelled ==> !pass,
        !cancelled && accepted is None ==> pass,
        !cancelled && accepted is Some ==> pass == accepted->0,
{
}

/// The messages of the errors.
pub proof fn law_watch_error_messages(e: &WatchError, message: String)
    requires
        call_ensures(WatchError::message, (e,), message),
    ensures
        message@ == match e {
            WatchError::Open(reason) => reason@,
            WatchError::NoPerfMap => "no valid perf map"@,
        },
{
}

} // verus!
