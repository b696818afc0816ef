//! The memory maps of processes: the regions that the text of a file
//! `/proc/<pid>/maps` describes, and the region of an address.

use crate::{number, text};
use vstd::prelude::*;

verus! {

// ---------------------------------------------------------------------------
// Regions
// ---------------------------------------------------------------------------

/// One mapped region of a process, as text.
#[derive(Debug)]
pub struct MapRegion {
    pub start: String,
    pub end: String,
    pub perms: String,
    pub offset: String,
    pub dev: String,
    pub inode: u64,
    pub pathname: Option<String>,
}

/// What a `MapRegion` says.
#[verifier::ext_equal]
pub struct MapRegionModel {
    pub start: Seq<char>,
    pub end: Seq<char>,
    pub perms: Seq<char>,
    pub offset: Seq<char>,
    pub dev: Seq<char>,
    pub inode: u64,
    pub pathname: Option<Seq<char>>,
}

impl View for MapRegion {
    type V = MapRegionModel;

    open spec fn view(&self) -> MapRegionModel {
        MapRegionModel {
            start: self.start@,
            end: self.end@,
            perms: self.perms@,
            offset: self.offset@,
            dev: self.dev@,
            inode: self.inode,
            pathname: text::text_view(self.pathname),
        }
    }
}

impl Clone for MapRegion {
    fn clone(&self) -> (copy: Self)
        ensures
            copy == *self,
    {
        MapRegion {
            start: self.start.clone(),
            end: self.end.clone(),
            perms: self.perms.clone(),
            offset: self.offset.clone(),
            dev: self.dev.clone(),
            inode: self.inode,
            pathname: text::clone_text(&self.pathname),
        }
    }
}

/// What an optional region says.
pub open spec fn region_view(region: Option<MapRegion>) -> Option<MapRegionModel> {
    match region {
        Some(region) => Some(region@),
        None => None,
    }
}

/// A copy of an optional region.
pub fn clone_region(region: &Option<MapRegion>) -> (copy: Option<MapRegion>)
    ensures
        copy == *region,
{
    match region {
        Some(region) => Some(region.clone()),
        None => None,
    }
}

/// A region together with its bounds as numbers.
#[derive(Debug)]
pub struct ParsedRegion {
    pub start: u64,
    pub end: u64,
    pub region: MapRegion,
}

/// What a `ParsedRegion` says.
#[verifier::ext_equal]
pub struct ParsedRegionModel {
    pub start: u64,
    pub end: u64,
    pub region: MapRegionModel,
}

impl View for ParsedRegion {
    type V = ParsedRegionModel;

    open spec fn view(&self) -> ParsedRegionModel {
        ParsedRegionModel { start: self.start, end: self.end, region: self.region@ }
    }
}

impl Clone for ParsedRegion {
    fn clone(&self) -> (copy: Self)
        ensures
            copy == *self,
    {
        ParsedRegion { start: self.start, end: self.end, region: self.region.clone() }
    }
}

/// What is known of an address: the region that holds it, and a short text
/// that says where in the region it lies.
#[derive(Debug)]
pub struct AddressResolution {
    pub region: MapRegion,
    pub display: String,
}

/// What an `AddressResolution` says.
#[verifier::ext_equal]
pub struct AddressResolutionModel {
    pub region: MapRegionModel,
    pub display: Seq<char>,
}

impl View for AddressResolution {
    type V = AddressResolutionModel;

    open spec fn view(&self) -> AddressResolutionModel {
        AddressResolutionModel { region: self.region@, display: self.display@ }
    }
}

impl Clone for AddressResolution {
    fn clone(&self) -> (copy: Self)
        ensures
            copy == *self,
    {
        AddressResolution { region: self.region.clone(), display: self.display.clone() }
    }
}

/// What a sequence of regions says.
pub open spec fn region_models(regions: Seq<ParsedRegion>) -> Seq<ParsedRegionModel> {
    regions.map_values(|r: ParsedRegion| r@)
}

// ---------------------------------------------------------------------------
// Reading a maps file
// ---------------------------------------------------------------------------

/// The path name at the end of a line: every word from the sixth on.
pub open spec fn line_pathname(w: Seq<Seq<char>>) -> Option<Seq<char>> {
    if w.len() > 5 {
        Some(text::joined(w.skip(5), ' '))
    } else {
        None
    }
}

/// What a line of a maps file says, if it is well formed: the bounds joined by
/// a minus sign, the permissions, the offset, the device, the inode and
/// perhaps a path name, separated by white space.
pub open spec fn parsed_line(line: Seq<char>) -> Option<ParsedRegionModel> {
    let w = text::words(line);
    if w.len() < 5 {
        None
    } else {
        match (
            number::decimal_u64(w[4]),
            text::split_once(w[0], '-'),
            number::hex_u64(w[2]),
        ) {
            (Some(inode), Some((low, high)), Some(offset)) => match (
                number::hex_u64(low),
                number::hex_u64(high),
            ) {
                (Some(start), Some(end)) => Some(
                    ParsedRegionModel {
                        start,
                        end,
                        region: MapRegionModel {
                            start: number::address_text(start),
                            end: number::address_text(end),
                            perms: w[1],
                            offset: number::hex_text(offset),
                            dev: w[3],
                            inode,
                            pathname: line_pathname(w),
                        },
                    },
                ),
                _ => None,
            },
            _ => None,
        }
    }
}

/// The regions of a maps file: those of its well-formed lines, in order.
pub open spec fn parsed_maps(content: Seq<char>) -> Seq<ParsedRegionModel> {
    text::lines(content).filter_map(|line: Seq<char>| parsed_line(line))
}

fn parse_line(line: &[char]) -> (region: Option<ParsedRegion>)
    ensures
        match region {
            Some(region) => parsed_line(line@) == Some(region@),
            None => parsed_line(line@) is None,
        },
{
    let parts = text::split_words(line);
    if parts.len() < 5 {
        return None;
    }
    let ghost w = text::words(line@);
    assert(forall|i: int| 0 <= i < parts@.len() ==> #[trigger] parts@[i]@ == w[i]);
    let range = parts[0];
    let perms = text::string_of(parts[1]);
    let dev = text::string_of(parts[3]);
    let inode: u64 = match number::parse_decimal_u64(parts[4]) {
        Some(inode) => inode,
        None => {
            return None;
        },
    };
    let pathname = if parts.len() > 5 {
        Some(text::join_from(&parts, 5, ' '))
    } else {
        None
    };
    let (low, high) = match text::cut_once(range, '-') {
        Some(cut) => cut,
        None => {
            return None;
        },
    };
    let start: u64 = match number::parse_hex_u64(low) {
        Some(start) => start,
        None => {
            return None;
        },
    };
    let end: u64 = match number::parse_hex_u64(high) {
        Some(end) => end,
        None => {
            return None;
        },
    };
    let offset: u64 = match number::parse_hex_u64(parts[2]) {
        Some(offset) => offset,
        None => {
            return None;
        },
    };
    Some(
        ParsedRegion {
            start,
            end,
            region: MapRegion {
                start: number::format_address(start),
                end: number::format_address(end),
                perms,
                offset: number::format_hex(offset),
                dev,
                inode,
                pathname,
            },
        },
    )
}

/// The region that a line of a maps file describes.
pub fn parse_maps_line(line: &str) -> (region: Option<ParsedRegion>)
    ensures
        match region {
            Some(region) => parsed_line(line@) == Some(region@),
            None => parsed_line(line@) is None,
        },
{
    let chars = text::chars_of(line);
    parse_line(chars.as_slice())
}

/// The regions that the text of a maps file describes.
pub fn read_maps(content: &str) -> (regions: Vec<ParsedRegion>)
    ensures
        region_models(regions@) == parsed_maps(content@),
{
    let chars = text::chars_of(content);
    let found = text::split_lines(chars.as_slice());
    let ghost all = text::lines(content@);
    let ghost parse = |line: Seq<char>| parsed_line(line);
    let mut regions: Vec<ParsedRegion> = Vec::new();
    assert(region_models(regions@) =~= all.take(0).filter_map(parse));
    let mut i: usize = 0;
    while i < found.len()
        invariant
            i <= found@.len(),
            all == text::views(found@),
            parse == (|line: Seq<char>| parsed_line(line)),
            region_models(regions@) == all.take(i as int).filter_map(parse),
        decreases found@.len() - i,
    {
        let ghost before = regions@;
        let parsed = parse_line(found[i]);
        proof {
            all.lemma_filter_map_take_succ(parse, i as int);
            assert(all[i as int] == found@[i as int]@);
        }
        if let Some(region) = parsed {
            regions.push(region);
            assert(region_models(regions@) == region_models(before).push(region@));
        }
        i = i + 1;
    }
    assert(all.take(all.len() as int) == all);
    regions
}

// ---------------------------------------------------------------------------
// Looking an address up
// ---------------------------------------------------------------------------

/// The first region that holds `addr`.
pub open spec fn region_at(regions: Seq<ParsedRegionModel>, addr: u64) -> Option<MapRegionModel>
    decreases regions.len(),
{
    if regions.len() == 0 {
        None
    } else if regions[0].start <= addr < regions[0].end {
        Some(regions[0].region)
    } else {
        region_at(regions.skip(1), addr)
    }
}

/// The first of `regions` that holds `addr`.
pub fn find_region(regions: &Vec<ParsedRegion>, addr: u64) -> (region: Option<MapRegion>)
    ensures
        match region {
            Some(region) => region_at(region_models(regions@), addr) == Some(region@),
            None => region_at(region_models(regions@), addr) is None,
        },
{
    let ghost all = region_models(regions@);
    assert(all.skip(0) == all);
    let mut i: usize = 0;
    while i < regions.len()
        invariant
            i <= regions@.len(),
            all == region_models(regions@),
            region_at(all, addr) == region_at(all.skip(i as int), addr),
        decreases regions@.len() - i,
    {
        let region = &regions[i];
        assert(all.skip(i as int)[0] == region@);
        assert(all.skip(i as int).skip(1) == all.skip(i + 1));
        if region.start <= addr && addr < region.end {
            return Some(region.region.clone());
        }
        i = i + 1;
    }
    None
}

// ---------------------------------------------------------------------------
// Laws
// ---------------------------------------------------------------------------

/// A line in the form that the kernel writes says what its fields say. Where
/// there are words behind the inode, they are the path name.
pub proof fn law_well_formed_line(
    low: Seq<char>,
    high: Seq<char>,
    perms: Seq<char>,
    offset: Seq<char>,
    dev: Seq<char>,
    inode: Seq<char>,
    path: Seq<Seq<char>>,
)
    requires
        number::hex_u64(low) is Some,
        number::hex_u64(high) is Some,
        number::hex_u64(offset) is Some,
        number::decimal_u64(inode) is Some,
        text::is_word(perms),
        text::is_word(dev),
        forall|i: int| 0 <= i < path.len() ==> text::is_word(#[trigger] path[i]),
    ensures
        parsed_line(
            text::joined(seq![low + seq!['-'] + high, perms, offset, dev, inode] + path, ' '),
        ) == Some(
            ParsedRegionModel {
                start: number::hex_u64(low)->0,
                end: number::hex_u64(high)->0,
                region: MapRegionModel {
                    start: number::address_text(number::hex_u64(low)->0),
                    end: number::address_text(number::hex_u64(high)->0),
                    perms,
                    offset: number::hex_text(number::hex_u64(offset)->0),
                    dev,
                    inode: number::decimal_u64(inode)->0,
                    pathname: if path.len() > 0 {
                        Some(text::joined(path, ' '))
                    } else {
                        None
                    },
                },
            },
        ),
{
    let range = low + seq!['-'] + high;
    let fields = seq![range, perms, offset, dev, inode];
    let all = fields + path;
    number::lemma_number_is_word(low, 16, u64::MAX as nat);
    number::lemma_number_is_word(high, 16, u64::MAX as nat);
    number::lemma_number_is_word(offset, 16, u64::MAX as nat);
    number::lemma_number_is_word(inode, 10, u64::MAX as nat);
    assert(text::is_word(range)) by {
        assert forall|i: int| 0 <= i < range.len() implies !text::is_white_space(
            #[trigger] range[i],
        ) by {
            if i < low.len() {
                assert(range[i] == low[i]);
            } else if i > low.len() {
                assert(range[i] == high[i - low.len() - 1]);
            }
        }
    }
    assert forall|i: int| 0 <= i < all.len() implies text::is_word(#[trigger] all[i]) by {
        if i >= 5 {
            assert(all[i] == path[i - 5]);
        }
    }
    text::law_words_of_joined(all);
    assert forall|i: int| 0 <= i < low.len() implies text::other_than('-')(#[trigger] range[i]) by {
        assert(range[i] == low[i]);
        assert(low.contains(low[i]));
    }
    text::lemma_span(range, text::other_than('-'), low.len());
    assert(range.take(low.len() as int) =~= low);
    assert(range.skip(low.len() as int + 1) =~= high);
    assert(all.skip(5) =~= path);
}

/// What a line says depends on its words alone, however much white space
/// parts them: two lines with the same words are read alike.
pub proof fn law_line_depends_on_words(
    a: &str,
    b: &str,
    of_a: Option<ParsedRegion>,
    of_b: Option<ParsedRegion>,
)
    requires
        text::words(a@) == text::words(b@),
        call_ensures(parse_maps_line, (a,), of_a),
        call_ensures(parse_maps_line, (b,), of_b),
    ensures
        parsed_line(a@) == parsed_line(b@),
        of_a is Some <==> of_b is Some,
        of_a is Some ==> of_a->0@ == of_b->0@,
{
}

/// A line is understood if its first word is two numbers of base sixteen with
/// a minus sign between them, its third one such a number and its fifth one a
/// number of base ten. It then says what these words say, and the words from
/// the sixth on are the path name.
pub proof fn law_fields_of_line(
    line: &str,
    read: Option<ParsedRegion>,
    low: Seq<char>,
    high: Seq<char>,
    rest: Seq<Seq<char>>,
)
    requires
        call_ensures(parse_maps_line, (line,), read),
        rest.len() >= 4,
        text::words(line@) == seq![low + seq!['-'] + high] + rest,
        number::hex_u64(low) is Some,
        number::hex_u64(high) is Some,
        number::hex_u64(rest[1]) is Some,
        number::decimal_u64(rest[3]) is Some,
    ensures
        read is Some,
        parsed_line(line@) == Some(read->0@),
        read->0.start == number::hex_u64(low)->0,
        read->0.end == number::hex_u64(high)->0,
        read->0.region.start@ == number::address_text(number::hex_u64(low)->0),
        read->0.region.end@ == number::address_text(number::hex_u64(high)->0),
        read->0.region.perms@ == rest[0],
        read->0.region.offset@ == number::hex_text(number::hex_u64(rest[1])->0),
        read->0.region.dev@ == rest[2],
        read->0.region.inode == number::decimal_u64(rest[3])->0,
        read->0.region.pathname is Some <==> rest.len() > 4,
        rest.len() > 4 ==> read->0.region.pathname->0@ == text::joined(rest.skip(4), ' '),
{
    let w = text::words(line@);
    number::lemma_number_is_word(low, 16, u64::MAX as nat);
    text::law_split_once(low, '-', high);
    assert(w[0] == low + seq!['-'] + high);
    assert(w[1] == rest[0] && w[2] == rest[1] && w[3] == rest[2] && w[4] == rest[3]);
    assert(w.skip(5) =~= rest.skip(4));
}

/// No other line is understood.
pub proof fn law_other_lines_say_nothing(line: &str, read: Option<ParsedRegion>)
    requires
        call_ensures(parse_maps_line, (line,), read),
        read is Some,
    ensures
        parsed_line(line@) == Some(read->0@),
        text::words(line@).len() >= 5,
        number::hex_u64(text::words(line@)[2]) is Some,
        number::decimal_u64(text::words(line@)[4]) is Some,
        exists|low: Seq<char>, high: Seq<char>|
            {
                &&& text::words(line@)[0] == #[trigger] (low + seq!['-'] + high)
                &&& number::hex_u64(low) is Some
                &&& number::hex_u64(high) is Some
            },
{
    let range = text::words(line@)[0];
    let n = text::span(range, text::other_than('-')) as int;
    text::lemma_span_bounds(range, text::other_than('-'));
    let low = range.take(n);
    let high = range.skip(n + 1);
    assert(!text::other_than('-')(range[n]));
    assert(range =~= low + seq!['-'] + high);
}

/// The line that `line` is, as the regions that it adds to a list.
pub open spec fn regions_of_line(line: Seq<char>) -> Seq<ParsedRegionModel> {
    match parsed_line(line) {
        Some(region) => seq![region],
        None => seq![],
    }
}

proof fn lemma_filter_map_first<A, B>(a: A, s: Seq<A>, f: spec_fn(A) -> Option<B>)
    ensures
        (seq![a] + s).filter_map(f) == match f(a) {
            Some(b) => seq![b] + s.filter_map(f),
            None => s.filter_map(f),
        },
    decreases s.len(),
{
    let all = seq![a] + s;
    if s.len() == 0 {
        assert(all =~= seq![a]);
        assert(all.drop_last() =~= seq![]);
        assert(all.drop_last().filter_map(f) =~= seq![]);
        assert(s.filter_map(f) =~= seq![]);
        assert(all.last() == a);
        assert(all.filter_map(f) =~= match f(a) {
            Some(b) => seq![b] + s.filter_map(f),
            None => s.filter_map(f),
        });
    } else {
        lemma_filter_map_first(a, s.drop_last(), f);
        assert(all.drop_last() =~= seq![a] + s.drop_last());
        assert(all.last() == s.last());
        assert(all.filter_map(f) =~= match f(a) {
            Some(b) => seq![b] + s.filter_map(f),
            None => s.filter_map(f),
        });
    }
}

/// A maps file is read line by line, and no line bears on another one: the
/// regions of a file are that of its first line, if it is understood, and
/// those of the lines behind it.
pub proof fn law_file_is_read_by_line(
    line: Seq<char>,
    rest: &str,
    whole: &str,
    of_rest: Vec<ParsedRegion>,
    of_whole: Vec<ParsedRegion>,
)
    requires
        !line.contains('\n'),
        (whole@ == line + seq!['\n'] + rest@ && (line.len() == 0 || line[line.len() - 1] != '\r'))
            || whole@ == line + seq!['\r', '\n'] + rest@ || (
        whole@ == line && line.len() > 0 && rest@.len() == 0),
        call_ensures(read_maps, (rest,), of_rest),
        call_ensures(read_maps, (whole,), of_whole),
    ensures
        region_models(of_whole@) == regions_of_line(line) + region_models(of_rest@),
        rest@.len() == 0 ==> of_rest@.len() == 0,
{
    let parse = |line: Seq<char>| parsed_line(line);
    text::law_lines(line, rest@);
    let behind = text::lines(rest@);
    if rest@.len() == 0 {
        assert(rest@ =~= Seq::<char>::empty());
        assert(behind.filter_map(parse) =~= seq![]);
        assert(region_models(of_rest@).len() == of_rest@.len());
    }
    if whole@ == line {
        assert(seq![line] + behind =~= seq![line]);
    }
    lemma_filter_map_first(line, behind, parse);
    assert(seq![] + behind.filter_map(parse) =~= behind.filter_map(parse));
}

/// The region of an address is the first one whose bounds enclose it, the
/// lower one included and the upper one not.
pub proof fn law_first_region_holds_address(
    regions: &Vec<ParsedRegion>,
    addr: u64,
    found: Option<MapRegion>,
    k: int,
)
    requires
        call_ensures(find_region, (regions, addr), found),
        0 <= k <= regions@.len(),
        forall|i: int|
            0 <= i < k ==> addr < (#[trigger] regions@[i]).start || regions@[i].end <= addr,
        k < regions@.len() ==> regions@[k].start <= addr < regions@[k].end,
    ensures
        k == regions@.len() ==> found is None,
        k < regions@.len() ==> found is Some && found->0@ == regions@[k].region@,
{
    lemma_first_region(region_models(regions@), addr, k);
}

/// The first region that holds an address, by its index.
pub proof fn lemma_first_region(regions: Seq<ParsedRegionModel>, addr: u64, k: int)
    requires
        0 <= k <= regions.len(),
        forall|i: int|
            0 <= i < k ==> addr < (#[trigger] regions[i]).start || regions[i].end <= addr,
        k < regions.len() ==> regions[k].start <= addr < regions[k].end,
    ensures
        region_at(regions, addr) == if k < regions.len() {
            Some(regions[k].region)
        } else {
            None
        },
    decreases k,
{
    if k > 0 {
        assert(addr < regions[0].start || regions[0].end <= addr);
        assert forall|i: int| 0 <= i < k - 1 implies addr < (#[trigger] regions.skip(1)[i]).start
            || regions.skip(1)[i].end <= addr by {
            assert(regions.skip(1)[i] == regions[i + 1]);
        }
        lemma_first_region(regions.skip(1), addr, k - 1);
    }
}

/// What a region, a region with its bounds and a resolution say leaves nothing
/// out: what says the same has the same fields.
pub proof fn law_regions_say_everything(
    a: ParsedRegion,
    b: ParsedRegion,
    c: AddressResolution,
    d: AddressResolution,
)
    ensures
        a@ == b@ <==> a.start == b.start && a.end == b.end && a.region@ == b.region@,
        a.region@ == b.region@ <==> {
            &&& a.region.start@ == b.region.start@
            &&& a.region.end@ == b.region.end@
            &&& a.region.perms@ == b.region.perms@
            &&& a.region.offset@ == b.region.offset@
            &&& a.region.dev@ == b.region.dev@
            &&& a.region.inode == b.region.inode
            &&& a.region.pathname is Some <==> b.region.pathname is Some
            &&& a.region.pathname is Some ==> a.region.pathname->0@ == b.region.pathname->0@
        },
        c@ == d@ <==> c.region@ == d.region@ && c.display@ == d.display@,
{
}

} // verus!
