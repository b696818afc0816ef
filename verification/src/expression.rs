//! Address expressions: a number of base sixteen, or a module and an offset
//! such as `libc.so.6+0x1f0`.

use crate::maps::{MapRegion, MapRegionModel, ParsedRegion, ParsedRegionModel};
use crate::{maps, number, text};
use vstd::prelude::*;

verus! {

// ---------------------------------------------------------------------------
// Errors
// ---------------------------------------------------------------------------

/// What can go wrong with a maps file or an address expression.
#[derive(Debug)]
pub enum MapsError {
    /// The lock of the cache is poisoned.
    LockPoisoned,
    /// The maps file could not be read, for the given reason.
    Read(String),
    /// The expression is neither a number nor a module and an offset.
    InvalidExpression(String),
    /// No module stands before the plus sign of the expression.
    MissingModule(String),
    /// No number stands behind the plus sign of the expression.
    InvalidOffset(String),
    /// No region of the process belongs to the module.
    ModuleNotFound { pid: u32, module: String },
    /// The address of the expression is too large.
    Overflow(String),
}

/// What a `MapsError` says.
pub enum MapsErrorModel {
    LockPoisoned,
    Read(Seq<char>),
    InvalidExpression(Seq<char>),
    MissingModule(Seq<char>),
    InvalidOffset(Seq<char>),
    ModuleNotFound { pid: u32, module: Seq<char> },
    Overflow(Seq<char>),
}

impl View for MapsError {
    type V = MapsErrorModel;

    open spec fn view(&self) -> MapsErrorModel {
        match self {
            MapsError::LockPoisoned => MapsErrorModel::LockPoisoned,
            MapsError::Read(reason) => MapsErrorModel::Read(reason@),
            MapsError::InvalidExpression(e) => MapsErrorModel::InvalidExpression(e@),
            MapsError::MissingModule(e) => MapsErrorModel::MissingModule(e@),
            MapsError::InvalidOffset(e) => MapsErrorModel::InvalidOffset(e@),
            MapsError::ModuleNotFound { pid, module } => MapsErrorModel::ModuleNotFound {
                pid: *pid,
                module: module@,
            },
            MapsError::Overflow(e) => MapsErrorModel::Overflow(e@),
        }
    }
}

/// The message of an error.
pub open spec fn error_text(e: MapsErrorModel) -> Seq<char> {
    match e {
        MapsErrorModel::LockPoisoned => "maps cache lock poisoned"@,
        MapsErrorModel::Read(reason) => reason,
        MapsErrorModel::InvalidExpression(e) => "invalid address expression: "@ + e,
        MapsErrorModel::MissingModule(e) => "missing module in address expression: "@ + e,
        MapsErrorModel::InvalidOffset(e) => "invalid module offset: "@ + e,
        MapsErrorModel::ModuleNotFound { pid, module } => "module not found in pid "@
            + number::decimal_text(pid as nat) + " maps: "@ + module,
        MapsErrorModel::Overflow(e) => "resolved address overflow: "@ + e,
    }
}

impl MapsError {
    /// The message of the error.
    pub fn message(&self) -> (text: String)
        ensures
            text@ == error_text(self@),
    {
        match self {
            MapsError::LockPoisoned => "maps cache lock poisoned".to_owned(),
            MapsError::Read(reason) => reason.clone(),
            MapsError::InvalidExpression(e) => text::concat(
                "invalid address expression: ",
                e.as_str(),
            ),
            MapsError::MissingModule(e) => text::concat(
                "missing module in address expression: ",
                e.as_str(),
            ),
            MapsError::InvalidOffset(e) => text::concat("invalid module offset: ", e.as_str()),
            MapsError::ModuleNotFound { pid, module } => {
                let mut message = text::concat(
                    "module not found in pid ",
                    number::format_decimal(*pid as u64).as_str(),
                );
                message.append(" maps: ");
                message.append(module.as_str());
                message
            },
            MapsError::Overflow(e) => text::concat("resolved address overflow: ", e.as_str()),
        }
    }
}

// ---------------------------------------------------------------------------
// Reading an expression
// ---------------------------------------------------------------------------

/// The address that `s` denotes as a number of base sixteen. After `0x` or
/// `0X` the digits may have a plus sign; without that prefix `s` is nothing
/// but digits.
pub open spec fn numeric_addr(s: Seq<char>) -> Option<u64> {
    match (text::strip_prefix(s, seq!['0', 'x']), text::strip_prefix(s, seq!['0', 'X'])) {
        (Some(digits), _) => number::hex_u64(digits),
        (None, Some(digits)) => number::hex_u64(digits),
        (None, None) => if number::all_digits(s, 16) {
            number::hex_u64(s)
        } else {
            None
        },
    }
}

/// The module and the offset that the expression `s` names: what stands
/// before and behind its first plus sign.
pub open spec fn module_offset(s: Seq<char>) -> Result<(Seq<char>, u64), MapsErrorModel> {
    match text::split_once(s, '+') {
        None => Err(MapsErrorModel::InvalidExpression(s)),
        Some((module, offset)) => if text::trimmed(module).len() == 0 {
            Err(MapsErrorModel::MissingModule(s))
        } else {
            match numeric_addr(text::trimmed(offset)) {
                Some(offset) => Ok((text::trimmed(module), offset)),
                None => Err(MapsErrorModel::InvalidOffset(s)),
            }
        },
    }
}

/// The address that `s` denotes as a number of base sixteen.
pub fn parse_address(s: &[char]) -> (addr: Option<u64>)
    ensures
        addr == numeric_addr(s@),
{
    if s.len() == 0 {
        assert(number::hex_u64(s@) is None);
        return None;
    }
    let mut lower_mark: Vec<char> = Vec::new();
    lower_mark.push('0');
    lower_mark.push('x');
    assert(lower_mark@ == seq!['0', 'x']);
    if let Some(digits) = text::after_prefix(s, lower_mark.as_slice()) {
        return number::parse_hex_u64(digits);
    }
    let mut upper_mark: Vec<char> = Vec::new();
    upper_mark.push('0');
    upper_mark.push('X');
    assert(upper_mark@ == seq!['0', 'X']);
    if let Some(digits) = text::after_prefix(s, upper_mark.as_slice()) {
        return number::parse_hex_u64(digits);
    }
    if number::only_digits(s, 16) {
        number::parse_hex_u64(s)
    } else {
        None
    }
}

/// The address that `value` denotes as a number of base sixteen.
pub fn parse_numeric_addr(value: &str) -> (addr: Option<u64>)
    ensures
        addr == numeric_addr(value@),
{
    let chars = text::chars_of(value);
    parse_address(chars.as_slice())
}

/// The module and the offset that an expression names.
pub fn parse_module_offset(expression: &str) -> (parsed: Result<(String, u64), MapsError>)
    ensures
        match parsed {
            Ok((module, offset)) => module_offset(expression@) == Ok::<
                (Seq<char>, u64),
                MapsErrorModel,
            >((module@, offset)),
            Err(e) => module_offset(expression@) == Err::<(Seq<char>, u64), MapsErrorModel>(e@),
        },
{
    let chars = text::chars_of(expression);
    let (left, right) = match text::cut_once(chars.as_slice(), '+') {
        Some(cut) => cut,
        None => {
            return Err(MapsError::InvalidExpression(expression.to_owned()));
        },
    };
    let module = text::trim(left);
    if module.len() == 0 {
        return Err(MapsError::MissingModule(expression.to_owned()));
    }
    match parse_address(text::trim(right)) {
        Some(offset) => Ok((text::string_of(module), offset)),
        None => Err(MapsError::InvalidOffset(expression.to_owned())),
    }
}

// ---------------------------------------------------------------------------
// Modules
// ---------------------------------------------------------------------------

/// Whether the file at `path` goes by the name `module`, whatever the letter
/// case: as its whole path, as the end of it behind a `/`, or as its final
/// component.
pub open spec fn names_module(path: Seq<char>, module: Seq<char>) -> bool {
    ||| text::lower(path) == text::lower(module)
    ||| (seq!['/'] + text::lower(module)).is_suffix_of(text::lower(path))
    ||| match text::file_name(path) {
        Some(name) => text::lower(name) == text::lower(module),
        None => false,
    }
}

/// Whether a region belongs to the module.
pub open spec fn in_module(region: MapRegionModel, module: Seq<char>) -> bool {
    match region.pathname {
        Some(path) => names_module(path, module),
        None => false,
    }
}

/// Where the first region of the module starts.
pub open spec fn module_start(regions: Seq<ParsedRegionModel>, module: Seq<char>) -> Option<u64>
    decreases regions.len(),
{
    if regions.len() == 0 {
        None
    } else if in_module(regions[0].region, module) {
        Some(regions[0].start)
    } else {
        module_start(regions.skip(1), module)
    }
}

/// The address `offset` bytes into the module that `expression` names.
pub open spec fn module_address(
    regions: Seq<ParsedRegionModel>,
    pid: u32,
    module: Seq<char>,
    offset: u64,
    expression: Seq<char>,
) -> Result<u64, MapsErrorModel> {
    match module_start(regions, module) {
        None => Err(MapsErrorModel::ModuleNotFound { pid, module }),
        Some(start) => if start + offset <= u64::MAX {
            Ok((start + offset) as u64)
        } else {
            Err(MapsErrorModel::Overflow(expression))
        },
    }
}

/// Whether the file at `path` goes by the name `module`.
pub fn path_names_module(path: &str, module: &[char]) -> (names: bool)
    ensures
        names == names_module(path@, module@),
{
    let path_chars = text::chars_of(path);
    let path_lower = text::to_lower(path_chars.as_slice());
    let module_lower = text::to_lower(module);
    if text::same_chars(path_lower.as_slice(), module_lower.as_slice()) {
        return true;
    }
    let mut tail: Vec<char> = Vec::new();
    tail.push('/');
    let mut rest = text::to_lower(module);
    tail.append(&mut rest);
    assert(tail@ == seq!['/'] + text::lower(module@));
    if text::has_suffix(path_lower.as_slice(), tail.as_slice()) {
        return true;
    }
    match text::last_component(path_chars.as_slice()) {
        Some(name) => {
            let name_lower = text::to_lower(name);
            text::same_chars(name_lower.as_slice(), module_lower.as_slice())
        },
        None => false,
    }
}

/// The address `offset` bytes into the first of `regions` that belongs to the
/// module.
pub fn find_module(
    regions: &Vec<ParsedRegion>,
    pid: u32,
    module: &String,
    offset: u64,
    expression: &String,
) -> (addr: Result<u64, MapsError>)
    ensures
        match addr {
            Ok(addr) => module_address(
                maps::region_models(regions@),
                pid,
                module@,
                offset,
                expression@,
            ) == Ok::<u64, MapsErrorModel>(addr),
            Err(e) => module_address(maps::region_models(regions@), pid, module@, offset, expression@)
                == Err::<u64, MapsErrorModel>(e@),
        },
{
    let ghost all = maps::region_models(regions@);
    assert(all.skip(0) == all);
    let module_chars = text::chars_of(module.as_str());
    let mut i: usize = 0;
    while i < regions.len()
        invariant
            i <= regions@.len(),
            all == maps::region_models(regions@),
            module_chars@ == module@,
            module_start(all, module@) == module_start(all.skip(i as int), module@),
        decreases regions@.len() - i,
    {
        let region = &regions[i];
        assert(all.skip(i as int)[0] == region@);
        assert(all.skip(i as int).skip(1) == all.skip(i + 1));
        if let Some(path) = &region.region.pathname {
            if path_names_module(path.as_str(), module_chars.as_slice()) {
                return match region.start.checked_add(offset) {
                    Some(addr) => Ok(addr),
                    None => Err(MapsError::Overflow(expression.clone())),
                };
            }
        }
        i = i + 1;
    }
    Err(MapsError::ModuleNotFound { pid, module: module.clone() })
}

// ---------------------------------------------------------------------------
// Laws
// ---------------------------------------------------------------------------

/// The text of an address denotes that address.
pub proof fn law_address_round_trip(addr: u64)
    ensures
        numeric_addr(number::address_text(addr)) == Some(addr),
        numeric_addr(text::trimmed(number::address_text(addr))) == Some(addr),
{
    let s = number::address_text(addr);
    number::lemma_address_digits(addr);
    number::lemma_address_trimmed(addr);
    assert(s.subrange(0, 2) =~= seq!['0', 'x']);
    assert(text::strip_prefix(s, seq!['0', 'x']) == Some(s.skip(2)));
}

/// The letter case of a module name makes no difference to where the module
/// is found.
pub proof fn law_module_case(regions: Seq<ParsedRegionModel>, a: Seq<char>, b: Seq<char>)
    requires
        text::lower(a) == text::lower(b),
    ensures
        module_start(regions, a) == module_start(regions, b),
    decreases regions.len(),
{
    if regions.len() > 0 {
        law_module_case(regions.skip(1), a, b);
    }
}

/// A file goes by its whole path and by its final component.
pub proof fn law_names_of_a_file(path: Seq<char>)
    ensures
        names_module(path, path),
        text::file_name(path) is Some ==> names_module(path, text::file_name(path)->0),
{
}

/// An address is digits of base sixteen, or `0x` or `0X` and what denotes a
/// number of base sixteen, and nothing else is one.
pub proof fn law_numeric_addresses(s: &str, addr: Option<u64>, d: Seq<char>)
    requires
        call_ensures(parse_numeric_addr, (s,), addr),
    ensures
        addr == numeric_addr(s@),
        s@ == seq!['0', 'x'] + d ==> addr == number::hex_u64(d),
        s@ == seq!['0', 'X'] + d ==> addr == number::hex_u64(d),
        s@.len() > 0 && (forall|i: int| 0 <= i < s@.len() ==> number::digit_of(#[trigger] s@[i]) < 16)
            ==> addr == number::hex_u64(s@),
        addr is Some ==> {
            ||| s@.len() > 2 && s@[0] == '0' && (s@[1] == 'x' || s@[1] == 'X')
            ||| s@.len() > 0 && forall|i: int|
                0 <= i < s@.len() ==> number::digit_of(#[trigger] s@[i]) < 16
        },
{
    let lower_mark = seq!['0', 'x'];
    let upper_mark = seq!['0', 'X'];
    assert(lower_mark[1] == 'x' && upper_mark[1] == 'X' && lower_mark[0] == '0' && upper_mark[0]
        == '0');
    text::law_strip_prefix(s@, lower_mark, d);
    text::law_strip_prefix(s@, upper_mark, d);
    if lower_mark.is_prefix_of(s@) {
        assert(s@.subrange(0, 2)[1] == s@[1] && s@.subrange(0, 2)[0] == s@[0]);
        assert(number::digit_of(s@[1]) == 16);
        assert(s@.skip(2).len() == s@.len() - 2);
    }
    if upper_mark.is_prefix_of(s@) {
        assert(s@.subrange(0, 2)[1] == s@[1] && s@.subrange(0, 2)[0] == s@[0]);
        assert(number::digit_of(s@[1]) == 16);
        assert(s@.skip(2).len() == s@.len() - 2);
    }
}

/// An expression that is no number names the module before its first plus sign
/// and the offset behind it, white space around either of them aside. Without
/// a plus sign, a module or an offset it names nothing, for that reason.
pub proof fn law_modules_and_offsets(
    s: &str,
    parsed: Result<(String, u64), MapsError>,
    left: Seq<char>,
    right: Seq<char>,
)
    requires
        call_ensures(parse_module_offset, (s,), parsed),
        !left.contains('+'),
        s@ == left + seq!['+'] + right || s@ == left,
    ensures
        s@ == left ==> (parsed matches Err(MapsError::InvalidExpression(e)) && e@ == s@),
        s@ != left && text::trimmed(left).len() == 0 ==> (parsed matches Err(
            MapsError::MissingModule(e),
        ) && e@ == s@),
        s@ != left && text::trimmed(left).len() > 0 && numeric_addr(text::trimmed(right)) is None
            ==> (parsed matches Err(MapsError::InvalidOffset(e)) && e@ == s@),
        s@ != left && text::trimmed(left).len() > 0 && numeric_addr(text::trimmed(right)) is Some
            ==> (parsed matches Ok((module, offset)) && module@ == text::trimmed(left) && offset
            == numeric_addr(text::trimmed(right))->0),
{
    text::law_split_once(left, '+', right);
}

/// A file goes by the name of a module exactly if, letter case aside, that is
/// its whole path, the end of it behind a `/`, or its final component.
pub proof fn law_names_of_a_module(path: &str, module: &[char], names: bool)
    requires
        call_ensures(path_names_module, (path, module), names),
    ensures
        names == names_module(path@, module@),
        names <==> {
            ||| text::lower(path@) == text::lower(module@)
            ||| exists|dir: Seq<char>|
                text::lower(path@) == #[trigger] (dir + seq!['/'] + text::lower(module@))
            ||| text::file_name(path@) is Some && text::lower(text::file_name(path@)->0)
                == text::lower(module@)
        },
{
    let whole = text::lower(path@);
    let tail = seq!['/'] + text::lower(module@);
    if tail.is_suffix_of(whole) {
        let dir = whole.take(whole.len() - tail.len());
        assert(whole =~= dir + tail);
        assert(dir + tail =~= dir + seq!['/'] + text::lower(module@));
    }
    if exists|dir: Seq<char>| whole == #[trigger] (dir + seq!['/'] + text::lower(module@)) {
        let dir = choose|dir: Seq<char>|
            whole == #[trigger] (dir + seq!['/'] + text::lower(module@));
        assert(whole =~= dir + tail);
        assert(whole.subrange(whole.len() - tail.len(), whole.len() as int) =~= tail);
    }
}

/// Where the first region of a module starts, by its index.
pub proof fn lemma_first_of_module(regions: Seq<ParsedRegionModel>, module: Seq<char>, k: int)
    requires
        0 <= k <= regions.len(),
        forall|i: int| 0 <= i < k ==> !in_module((#[trigger] regions[i]).region, module),
        k < regions.len() ==> in_module(regions[k].region, module),
    ensures
        module_start(regions, module) == if k < regions.len() {
            Some(regions[k].start)
        } else {
            None
        },
    decreases k,
{
    if k > 0 {
        assert(!in_module(regions[0].region, module));
        assert forall|i: int| 0 <= i < k - 1 implies !in_module(
            (#[trigger] regions.skip(1)[i]).region,
            module,
        ) by {
            assert(regions.skip(1)[i] == regions[i + 1]);
        }
        lemma_first_of_module(regions.skip(1), module, k - 1);
    }
}

/// Whether the path of a region, if it has one, goes by the name of a module.
pub open spec fn goes_by(region: MapRegion, module: Seq<char>) -> bool {
    region.pathname is Some && names_module(region.pathname->0@, module)
}

/// The address of a module and an offset is as far from the start of the first
/// region of the module as the offset says, to the byte. It is refused if no
/// region belongs to the module or if the sum is too large, and only then.
pub proof fn law_offset_from_first_region(
    regions: &Vec<ParsedRegion>,
    pid: u32,
    module: &String,
    offset: u64,
    expression: &String,
    found: Result<u64, MapsError>,
    k: int,
)
    requires
        call_ensures(find_module, (regions, pid, module, offset, expression), found),
        0 <= k <= regions@.len(),
        forall|i: int| 0 <= i < k ==> !goes_by((#[trigger] regions@[i]).region, module@),
        k < regions@.len() ==> goes_by(regions@[k].region, module@),
    ensures
        k == regions@.len() ==> (found matches Err(MapsError::ModuleNotFound { pid: p, module: m })
            && p == pid && m@ == module@),
        k < regions@.len() && regions@[k].start + offset <= 0xffff_ffff_ffff_ffff ==> (found matches
            Ok(addr) && addr - regions@[k].start == offset),
        k < regions@.len() && regions@[k].start + offset > 0xffff_ffff_ffff_ffff ==> (found matches
            Err(MapsError::Overflow(e)) && e@ == expression@),
{
    let all = maps::region_models(regions@);
    assert forall|i: int| 0 <= i < k implies !in_module((#[trigger] all[i]).region, module@) by {
        assert(!goes_by(regions@[i].region, module@));
    }
    lemma_first_of_module(all, module@, k);
}

/// The messages of the errors.
pub proof fn law_error_messages(e: &MapsError, message: String)
    requires
        call_ensures(MapsError::message, (e,), message),
    ensures
        message@ == match e {
            MapsError::LockPoisoned => "maps cache lock poisoned"@,
            MapsError::Read(reason) => reason@,
            MapsError::InvalidExpression(s) => "invalid address expression: "@ + s@,
            MapsError::MissingModule(s) => "missing module in address expression: "@ + s@,
            MapsError::InvalidOffset(s) => "invalid module offset: "@ + s@,
            MapsError::ModuleNotFound { pid, module } => "module not found in pid "@
                + number::decimal_text(*pid as nat) + " maps: "@ + module@,
            MapsError::Overflow(s) => "resolved address overflow: "@ + s@,
        },
{
}

/// What an error says leaves nothing out.
pub proof fn law_errors_say_everything(a: MapsError, b: MapsError)
    requires
        a@ == b@,
    ensures
        match (a, b) {
            (MapsError::LockPoisoned, MapsError::LockPoisoned) => true,
            (MapsError::Read(s), MapsError::Read(t)) => s@ == t@,
            (MapsError::InvalidExpression(s), MapsError::InvalidExpression(t)) => s@ == t@,
            (MapsError::MissingModule(s), MapsError::MissingModule(t)) => s@ == t@,
            (MapsError::InvalidOffset(s), MapsError::InvalidOffset(t)) => s@ == t@,
            (
                MapsError::ModuleNotFound { pid, module },
                MapsError::ModuleNotFound { pid: other_pid, module: other },
            ) => pid == other_pid && module@ == other@,
            (MapsError::Overflow(s), MapsError::Overflow(t)) => s@ == t@,
            _ => false,
        },
{
}

} // verus!
